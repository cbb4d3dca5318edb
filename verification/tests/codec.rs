//! Tests of the codec: decoding, encoding, canonical form, and the decode
//! error kinds.

use psml::error::DecodeError;
use psml::model::{
    Document, Fragment, FragmentContent, PropertiesFragment, Property, PropertyDatatype,
    PropertyValue, Publication, Section, SectionContent, XRef, XRefDisplayKind, XRefFragment,
};
use psml::text::ParaContent;

const PUBLICATION: &'static str = "<publication id=\"mypubl\" type=\"report\"/>\n";

fn publications() -> Vec<Publication> {
    return vec![Publication {
        id: "mypubl".to_string(),
        pub_type: Some("report".to_string()),
    }];
}

#[test]
fn publication_from_psml() {
    let str_pubs = vec![Publication::from_psml(PUBLICATION).unwrap()];
    assert_eq!(publications(), str_pubs);
}

#[test]
fn publication_to_psml() {
    let mut pub_str = String::new();
    for p in publications() {
        pub_str.push_str(&p.to_psml());
        pub_str.push('\n');
    }
    assert_eq!(PUBLICATION, pub_str);
}

#[test]
fn attribute_shortcut_determinism() {
    // A single-valued string property with one plain value lives entirely in
    // the value attribute: no child elements either way.
    let input = "<property name=\"part-number\" value=\"PX-67S93Q\"/>";
    let p = Property::from_psml(input).unwrap();
    assert_eq!(p.name, "part-number");
    assert_eq!(p.title, None);
    assert!(!p.multiple);
    assert_eq!(p.datatype, PropertyDatatype::String);
    assert_eq!(p.values, vec![PropertyValue::String("PX-67S93Q".to_string())]);
    assert_eq!(p.to_psml(), input);
}

#[test]
fn multi_value_forcing() {
    let p = Property {
        name: "languages".to_string(),
        title: None,
        multiple: true,
        datatype: PropertyDatatype::String,
        values: vec![
            PropertyValue::String("de".to_string()),
            PropertyValue::String("en".to_string()),
            PropertyValue::String("fr".to_string()),
        ],
    };
    let out = p.to_psml();
    assert_eq!(
        out,
        "<property name=\"languages\" multiple=\"true\"><value>de</value><value>en</value><value>fr</value></property>"
    );
    assert!(!out.contains(" value="));
    let back = Property::from_psml(&out).unwrap();
    assert_eq!(back, p);
}

#[test]
fn default_elision() {
    // An xref with no display attribute decodes to the Document display kind,
    // and encoding it omits the attribute entirely; the same holds of the
    // default fragment id and of reverselink.
    let x = XRef::from_psml("<xref href=\"book4.psml\">Book four</xref>").unwrap();
    assert_eq!(x.display, XRefDisplayKind::Document);
    assert_eq!(x.frag_id, "default");
    assert!(x.reverselink);
    let out = x.to_psml();
    assert_eq!(out, "<xref href=\"book4.psml\">Book four</xref>");
    assert!(!out.contains("display"));
    assert!(!out.contains("frag"));
    assert!(!out.contains("reverselink"));
}

#[test]
fn explicit_display_kept() {
    let x = XRef::from_psml("<xref href=\"a\" display=\"document+manual\">t</xref>").unwrap();
    assert_eq!(x.display, XRefDisplayKind::DocumentManual);
    assert!(x.to_psml().contains("display=\"document+manual\""));
}

#[test]
fn grammar_rejection() {
    // A table is not in the markup-content legal set.
    let r = Property::from_psml("<property name=\"x\" datatype=\"markup\"><table/></property>");
    match r {
        Err(DecodeError::StructuralError { tag, .. }) => assert_eq!(tag, "table"),
        other => panic!("expected a structural error naming table, got {:?}", other),
    }
}

#[test]
fn markup_property_accepted() {
    let p = Property::from_psml(
        "<property name=\"x\" datatype=\"markup\"><para>The <bold>quick</bold> fox</para></property>",
    )
    .unwrap();
    assert_eq!(p.datatype, PropertyDatatype::Markup);
    assert_eq!(p.values.len(), 1);
    let out = p.to_psml();
    assert!(out.contains("<para>The <bold>quick</bold> fox</para>"));
}

#[test]
fn truncation_detection() {
    let r = Fragment::from_psml("<fragment id=\"f1\">");
    match r {
        Err(DecodeError::TruncatedInput { elem }) => assert_eq!(elem, "f1"),
        other => panic!("expected truncation naming f1, got {:?}", other),
    }
}

#[test]
fn truncation_nested() {
    let r = Fragment::from_psml("<fragment id=\"f1\"><para>text");
    assert!(matches!(r, Err(DecodeError::TruncatedInput { .. })));
}

#[test]
fn order_preservation() {
    // A narrative fragment before a properties fragment stays in that order
    // through a decode-encode round.
    let input = "<section id=\"s1\"><fragment id=\"a\"><para>text</para></fragment>\
<properties-fragment id=\"b\"><property name=\"n\" value=\"v\"/></properties-fragment></section>";
    let s = Section::from_psml(input).unwrap();
    assert_eq!(s.content.len(), 2);
    assert!(matches!(s.content[0], SectionContent::Fragment(_)));
    assert!(matches!(s.content[1], SectionContent::PropertiesFragment(_)));
    let out = s.to_psml();
    let frag_at = out.find("<fragment").unwrap();
    let props_at = out.find("<properties-fragment").unwrap();
    assert!(frag_at < props_at);
    let again = Section::from_psml(&out).unwrap();
    assert_eq!(again, s);
}

#[test]
fn round_trip_fixed_point() {
    // decode(encode(decode(x))) == decode(x): the canonical form is a fixed
    // point, though the original bytes need not be.
    let input = "<document level=\"portable\" type=\"book\">\n\
<documentinfo><uri docid=\"d1\" title=\"A title\"><description>Short.</description></uri>\
<publication id=\"p1\" type=\"report\"/></documentinfo>\n\
<section id=\"s1\" title=\"First\"><title>Content title</title>\
<fragment id=\"f1\" labels=\"internal\"><heading level=\"2\">Heading</heading>\
<para>Some <bold>bold</bold> and <italic>italic</italic> text &amp; an entity</para></fragment>\
<properties-fragment id=\"f2\"><property name=\"isbn\" title=\"ISBN\" value=\"0000000000001\"/>\
<property name=\"langs\" multiple=\"true\"><value>en</value><value>es</value></property>\
<property name=\"author\" datatype=\"xref\"><xref href=\"authors.psml\">Lewis Carroll</xref></property>\
</properties-fragment>\
<xref-fragment id=\"f3\"><blockxref docid=\"other\" type=\"embed\"/></xref-fragment>\
</section>\n\
<section id=\"s2\" edit=\"false\"><fragment id=\"f4\"><table summary=\"sum\">\
<caption>Cap</caption><col part=\"header\"/><row><cell>a</cell><cell>b</cell></row></table>\
</fragment></section>\n</document>";
    let d1 = Document::from_psml(input).unwrap();
    let encoded = d1.to_psml();
    let d2 = Document::from_psml(&encoded).unwrap();
    assert_eq!(d1, d2);
    // And the canonical text itself is a fixed point of a further round.
    assert_eq!(d2.to_psml(), encoded);
}

#[test]
fn missing_required_attribute() {
    let r = Property::from_psml("<property value=\"v\"/>");
    match r {
        Err(DecodeError::MissingRequiredAttribute { attr, elem }) => {
            assert_eq!(attr, "name");
            assert_eq!(elem, "property");
        },
        other => panic!("expected a missing name, got {:?}", other),
    }
}

#[test]
fn malformed_boolean() {
    let r = XRef::from_psml("<xref href=\"a\" reverselink=\"maybe\">t</xref>");
    match r {
        Err(DecodeError::MalformedAttributeValue { attr, value }) => {
            assert_eq!(attr, "reverselink");
            assert_eq!(value, "maybe");
        },
        other => panic!("expected a malformed reverselink, got {:?}", other),
    }
}

#[test]
fn malformed_display() {
    let r = XRef::from_psml("<xref href=\"a\" display=\"sideways\">t</xref>");
    assert!(matches!(r, Err(DecodeError::MalformedAttributeValue { .. })));
}

#[test]
fn malformed_datatype_refused() {
    let r = Property::from_psml("<property name=\"x\" datatype=\"decimal\"/>");
    match r {
        Err(DecodeError::MalformedAttributeValue { attr, value }) => {
            assert_eq!(attr, "datatype");
            assert_eq!(value, "decimal");
        },
        other => panic!("expected a malformed datatype, got {:?}", other),
    }
}

#[test]
fn conflicting_encoding() {
    let r = Property::from_psml("<property name=\"x\" value=\"v\"><value>w</value></property>");
    match r {
        Err(DecodeError::ConflictingEncoding { elem }) => assert_eq!(elem, "x"),
        other => panic!("expected a conflict on x, got {:?}", other),
    }
}

#[test]
fn conflicting_multiple_with_value_attribute() {
    let r = Property::from_psml("<property name=\"x\" multiple=\"true\" value=\"v\"/>");
    assert!(matches!(r, Err(DecodeError::ConflictingEncoding { .. })));
}

#[test]
fn multiple_inferred_from_count() {
    // Two values force the multiple flag even where the attribute said
    // nothing, so the re-encoded form names it explicitly.
    let p = Property::from_psml(
        "<property name=\"x\"><value>a</value><value>b</value></property>",
    )
    .unwrap();
    assert!(p.multiple);
    assert!(p.to_psml().contains("multiple=\"true\""));
}

#[test]
fn escaping_round_trip() {
    let p = Property {
        name: "q".to_string(),
        title: None,
        multiple: false,
        datatype: PropertyDatatype::String,
        values: vec![PropertyValue::String("a<b&c>\"d".to_string())],
    };
    // Markup-requiring characters force the nested form.
    let out = p.to_psml();
    assert_eq!(out, "<property name=\"q\"><value>a&lt;b&amp;c&gt;&quot;d</value></property>");
    let back = Property::from_psml(&out).unwrap();
    assert_eq!(back, p);
}

#[test]
fn date_property_nested() {
    let p = Property::from_psml(
        "<property name=\"available-date\" title=\"Available date\" datatype=\"date\" value=\"2012-01-01\"/>",
    )
    .unwrap();
    assert_eq!(p.datatype, PropertyDatatype::Date);
    assert_eq!(p.values, vec![PropertyValue::String("2012-01-01".to_string())]);
    // A non-string datatype never takes the attribute shortcut on encode.
    assert_eq!(
        p.to_psml(),
        "<property name=\"available-date\" title=\"Available date\" datatype=\"date\"><value>2012-01-01</value></property>"
    );
}

#[test]
fn xref_property_values() {
    let p = Property::from_psml(
        "<property name=\"related\" datatype=\"xref\" multiple=\"true\">\
<xref href=\"book4.psml\">four</xref><xref href=\"book7.psml\">seven</xref></property>",
    )
    .unwrap();
    assert_eq!(p.values.len(), 2);
    match &p.values[0] {
        PropertyValue::XRef(x) => {
            assert_eq!(x.href.as_deref(), Some("book4.psml"));
            assert_eq!(x.content, "four");
        },
        other => panic!("expected an xref value, got {:?}", other),
    }
}

#[test]
fn fragment_content_model() {
    let f = Fragment::from_psml(
        "<fragment id=\"1\"><heading level=\"1\">Alice in Wonderland</heading></fragment>",
    )
    .unwrap();
    assert_eq!(f.id, "1");
    assert_eq!(f.content.len(), 1);
    match &f.content[0] {
        FragmentContent::Heading(h) => {
            assert_eq!(h.level, 1);
        },
        other => panic!("expected a heading, got {:?}", other),
    }
    assert_eq!(
        f.to_psml(),
        "<fragment id=\"1\"><heading level=\"1\">Alice in Wonderland</heading></fragment>"
    );
}

#[test]
fn heading_level_defaults_to_one() {
    let f = Fragment::from_psml("<fragment id=\"1\"><heading>t</heading></fragment>").unwrap();
    match &f.content[0] {
        FragmentContent::Heading(h) => assert_eq!(h.level, 1),
        other => panic!("expected a heading, got {:?}", other),
    }
}

#[test]
fn heading_level_malformed() {
    let r = Fragment::from_psml("<fragment id=\"1\"><heading level=\"one\">t</heading></fragment>");
    assert!(matches!(r, Err(DecodeError::MalformedAttributeValue { .. })));
}

#[test]
fn para_content_model() {
    let f = Fragment::from_psml(
        "<fragment id=\"1\" labels=\"internal\"><para><italic>Office</italic> use <bold>only</bold></para></fragment>",
    )
    .unwrap();
    assert_eq!(f.labels, vec!["internal".to_string()]);
    match &f.content[0] {
        FragmentContent::Para(p) => {
            assert_eq!(p.content.len(), 3);
            assert!(matches!(p.content[0], ParaContent::Italic(_)));
            assert!(matches!(p.content[1], ParaContent::Text(_)));
            assert!(matches!(p.content[2], ParaContent::Bold(_)));
        },
        other => panic!("expected a para, got {:?}", other),
    }
    assert_eq!(
        f.to_psml(),
        "<fragment id=\"1\" labels=\"internal\"><para><italic>Office</italic> use <bold>only</bold></para></fragment>"
    );
}

#[test]
fn image_attributes() {
    let f = Fragment::from_psml(
        "<fragment id=\"1\"><image src=\"/path/to/an/image.ext\" width=\"640\"/></fragment>",
    )
    .unwrap();
    match &f.content[0] {
        FragmentContent::Image(im) => {
            assert_eq!(im.src.as_deref(), Some("/path/to/an/image.ext"));
            assert_eq!(im.width, Some(640));
        },
        other => panic!("expected an image, got {:?}", other),
    }
    assert!(f.to_psml().contains("width=\"640\""));
}

#[test]
fn table_serializes_caption_cols_rows() {
    // Decoded row-before-column order is re-derived: caption, columns, rows.
    let f = Fragment::from_psml(
        "<fragment id=\"t\"><table><row><cell>a</cell></row><col/><caption>C</caption></table></fragment>",
    )
    .unwrap();
    let out = f.to_psml();
    let cap = out.find("<caption").unwrap();
    let col = out.find("<col").unwrap();
    let row = out.find("<row").unwrap();
    assert!(cap < col && col < row);
}

#[test]
fn section_duplicate_id_rejected() {
    let r = Section::from_psml(
        "<section id=\"s\"><fragment id=\"f\"/><properties-fragment id=\"f\"/></section>",
    );
    match r {
        Err(DecodeError::StructuralError { tag, context }) => {
            assert_eq!(tag, "f");
            assert_eq!(context, "s");
        },
        other => panic!("expected a duplicate id error, got {:?}", other),
    }
}

#[test]
fn section_unknown_attribute_rejected() {
    let r = Section::from_psml("<section id=\"s\" colour=\"red\"/>");
    match r {
        Err(DecodeError::StructuralError { tag, .. }) => assert_eq!(tag, "colour"),
        other => panic!("expected an unknown attribute error, got {:?}", other),
    }
}

#[test]
fn section_flag_defaults() {
    let s = Section::from_psml("<section id=\"s\"/>").unwrap();
    assert!(s.edit);
    assert!(!s.lockstructure);
    assert!(s.overwrite);
    // Defaults are elided on encode.
    assert_eq!(s.to_psml(), "<section id=\"s\"/>");
}

#[test]
fn document_requires_level() {
    let r = Document::from_psml("<document><section id=\"s\"/></document>");
    match r {
        Err(DecodeError::MissingRequiredAttribute { attr, elem }) => {
            assert_eq!(attr, "level");
            assert_eq!(elem, "document");
        },
        other => panic!("expected a missing level, got {:?}", other),
    }
}

#[test]
fn document_metadata() {
    let d = Document::from_psml(
        "<document level=\"processed\"><documentinfo>\
<uri docid=\"doc-1\" documenttype=\"book\"/><publication id=\"p\"/></documentinfo>\
<section id=\"s\"/></document>",
    )
    .unwrap();
    assert_eq!(d.docid().map(|s| s.as_str()), Some("doc-1"));
    assert!(d.get_section("s").is_some());
    assert!(d.get_section("missing").is_none());
}

#[test]
fn xref_fragment_round() {
    let f = XRefFragment::from_psml(
        "<xref-fragment id=\"x\"><blockxref docid=\"a\" type=\"transclude\"/>\
<blockxref href=\"b.psml\"/></xref-fragment>",
    )
    .unwrap();
    assert_eq!(f.xrefs.len(), 2);
    let out = f.to_psml();
    let back = XRefFragment::from_psml(&out).unwrap();
    assert_eq!(back, f);
}

#[test]
fn properties_fragment_round() {
    let pf = PropertiesFragment::new("3".to_string()).with_properties(vec![
        Property {
            name: "part-id".to_string(),
            title: None,
            multiple: false,
            datatype: PropertyDatatype::String,
            values: vec![PropertyValue::String("FY765A".to_string())],
        },
        Property {
            name: "part-category".to_string(),
            title: None,
            multiple: false,
            datatype: PropertyDatatype::String,
            values: vec![PropertyValue::String("Industrial".to_string())],
        },
    ]);
    let out = pf.to_psml();
    assert_eq!(
        out,
        "<properties-fragment id=\"3\"><property name=\"part-id\" value=\"FY765A\"/>\
<property name=\"part-category\" value=\"Industrial\"/></properties-fragment>"
    );
    let back = PropertiesFragment::from_psml(&out).unwrap();
    assert_eq!(back, pf);
}

#[test]
fn open_attribute_bag_kept_in_order() {
    let pf = PropertiesFragment::from_psml(
        "<properties-fragment id=\"p\" zeta=\"1\" alpha=\"2\"/>",
    )
    .unwrap();
    assert_eq!(
        pf.attrs,
        vec![("zeta".to_string(), "1".to_string()), ("alpha".to_string(), "2".to_string())]
    );
    assert_eq!(pf.to_psml(), "<properties-fragment id=\"p\" zeta=\"1\" alpha=\"2\"/>");
}

#[test]
fn decode_error_message_names_the_tag() {
    let e = DecodeError::StructuralError { tag: "table".to_string(), context: "x".to_string() };
    let m = e.message();
    assert!(m.contains("table"));
}

#[test]
fn sanitize_name_pattern() {
    assert_eq!(Property::sanitize_name("-part number!", "_"), "_part_number_");
    assert_eq!(Property::sanitize_name("good-name_0", "X"), "good-name_0");
    assert_eq!(Property::sanitize_name("a  b", "-"), "a-b");
    assert_eq!(Property::sanitize_name("", "-"), "");
}
