//! Tests of the model builders and of the service-protocol data types.

use psml::api::{EventType, Group, PSCredentials, PSGroupAccess, Service, ThreadStatus};
use psml::model::{
    BlockXRef, Document, DocumentLevel, Fragment, FragmentContent, Fragments, PropertiesFragment,
    Property, PropertyDatatype, PropertyValue, Section, SectionContent, Table, XRef,
    XRefDisplayKind, XRefFragment, XRefKind,
};
use psml::text::{Bold, CharacterStyle, Para, ParaContent, default_heading_level};

#[test]
fn xref_builders() {
    let x = XRef::uriid("u1".to_string());
    assert_eq!(x.uriid.as_deref(), Some("u1"));
    assert_eq!(x.frag_id, "default");
    assert!(x.reverselink);
    let x = XRef::docid("d1".to_string()).with_content("text".to_string());
    assert_eq!(x.docid.as_deref(), Some("d1"));
    assert_eq!(x.content, "text");
    let x = XRef::href("h1".to_string())
        .with_title(Some("T".to_string()))
        .with_display(XRefDisplayKind::Manual);
    assert_eq!(x.href.as_deref(), Some("h1"));
    assert_eq!(x.title.as_deref(), Some("T"));
    assert_eq!(x.display, XRefDisplayKind::Manual);
}

#[test]
fn block_xref_builders() {
    let x = BlockXRef::docid("d".to_string());
    assert_eq!(x.docid.as_deref(), Some("d"));
    assert_eq!(x.frag, "default");
    let x = BlockXRef::uriid("u".to_string());
    assert_eq!(x.uriid.as_deref(), Some("u"));
    let x = BlockXRef::href("h".to_string());
    assert_eq!(x.href.as_deref(), Some("h"));
}

#[test]
fn property_with_value() {
    let p = Property::with_value(
        "author".to_string(),
        "Author".to_string(),
        PropertyValue::String("Lewis Carroll".to_string()),
    );
    assert_eq!(p.datatype, PropertyDatatype::String);
    assert!(!p.multiple);
    assert_eq!(p.values.len(), 1);
    let p = Property::with_value(
        "link".to_string(),
        "Link".to_string(),
        PropertyValue::XRef(XRef::href("a".to_string())),
    );
    assert_eq!(p.datatype, PropertyDatatype::XRef);
}

#[test]
fn fragment_builders() {
    let f = Fragment::new("f1".to_string()).with_content(vec![FragmentContent::Text(
        "hello".to_string(),
    )]);
    assert_eq!(f.id, "f1");
    assert_eq!(f.content.len(), 1);
    let pf = PropertiesFragment::new("p1".to_string());
    assert_eq!(pf.id, "p1");
    assert!(pf.properties.is_empty());
    let xf = XRefFragment::new("x1".to_string()).with_xrefs(vec![BlockXRef::docid(
        "d".to_string(),
    )]);
    assert_eq!(xf.xrefs.len(), 1);
}

#[test]
fn section_builders() {
    let mut s = Section::new("s1".to_string());
    assert!(s.edit && !s.lockstructure && s.overwrite);
    s.add_fragment(Fragments::Fragment(Fragment::new("f1".to_string())));
    let s = s.with_fragments(vec![
        Fragments::Properties(PropertiesFragment::new("f2".to_string())),
        Fragments::Xref(XRefFragment::new("f3".to_string())),
    ]);
    assert_eq!(s.content.len(), 3);
    assert!(matches!(s.content[0], SectionContent::Fragment(_)));
    assert!(matches!(s.content[1], SectionContent::PropertiesFragment(_)));
    assert!(matches!(s.content[2], SectionContent::XRefFragment(_)));
}

#[test]
fn document_default_and_lookup() {
    let mut d = Document::default();
    assert_eq!(d.level, DocumentLevel::Portable);
    assert!(d.docid().is_none());
    d.sections.push(Section::new("a".to_string()));
    d.sections.push(Section::new("b".to_string()));
    assert_eq!(d.get_section("b").map(|s| s.id.as_str()), Some("b"));
    assert!(d.get_section("c").is_none());
}

#[test]
fn table_basic_shape() {
    let t = Table::basic(
        2,
        vec![
            vec!["a".to_string(), "b".to_string()],
            vec!["c".to_string(), "d".to_string()],
        ],
        "Cap".to_string(),
    );
    assert_eq!(t.cols.len(), 2);
    assert_eq!(t.rows.len(), 2);
    assert_eq!(t.rows[1].cells[0].content, "c");
    assert_eq!(t.caption.as_ref().map(|c| c.caption.as_str()), Some("Cap"));
}

#[test]
fn inline_builders() {
    let b = Bold::text("loud".to_string());
    assert_eq!(b.content.len(), 1);
    assert!(matches!(b.content[0], CharacterStyle::Text(_)));
    let p = Para::new(vec![ParaContent::Text("t".to_string())]);
    assert!(p.indent.is_none());
    assert_eq!(p.content.len(), 1);
    assert_eq!(default_heading_level(), 1);
}

#[test]
fn enum_literals_round() {
    assert_eq!(XRefDisplayKind::from_str("document+fragment").unwrap(),
        XRefDisplayKind::DocumentFragment);
    assert_eq!(XRefDisplayKind::DocumentFragment.to_str(), "document+fragment");
    assert!(XRefDisplayKind::from_str("sideways").is_err());
    assert_eq!(XRefKind::from_str("math").unwrap(), XRefKind::Math);
    assert_eq!(XRefKind::Math.to_str(), "math");
    assert_eq!(PropertyDatatype::from_str("markdown").unwrap(), PropertyDatatype::Markdown);
    assert_eq!(PropertyDatatype::Markdown.to_str(), "markdown");
    assert_eq!(DocumentLevel::from_str("metadata").unwrap(), DocumentLevel::Metadata);
    assert_eq!(DocumentLevel::Metadata.to_str(), "metadata");
}

#[test]
fn service_url_paths() {
    assert_eq!(
        Service::GetGroup { group: "test-netdox" }.url_path(),
        "/ps/service/groups/test-netdox"
    );
    assert_eq!(
        Service::GetUri { member: "m", uri: "u" }.url_path(),
        "/ps/service/members/m/uris/u"
    );
    assert_eq!(
        Service::GetUriHistory { group: "g", uri: "u" }.url_path(),
        "/ps/service/groups/g/uris/u/history"
    );
    assert_eq!(
        Service::GetUrisHistory { group: "g" }.url_path(),
        "/ps/service/groups/g/uris/history"
    );
    assert_eq!(
        Service::GetUriFragment { member: "m", group: "g", uri: "u", fragment: "f" }.url_path(),
        "/ps/service/members/m/groups/g/uris/u/fragments/f"
    );
    assert_eq!(
        Service::UriExport { member: "m", uri: "u" }.url_path(),
        "/ps/service/members/m/uris/u/export"
    );
    assert_eq!(Service::GroupSearch { group: "g" }.url_path(), "/ps/service/groups/g/search");
    assert_eq!(Service::ThreadProgress { id: "t" }.url_path(), "/ps/service/threads/t/progress");
}

#[test]
fn group_short_name() {
    let g = Group {
        id: 1,
        name: "acme-website".to_string(),
        owner: "acme".to_string(),
        description: String::new(),
        access: PSGroupAccess::Public,
    };
    assert_eq!(g.short_name(), "website");
    let g2 = Group { name: "a-b-c".to_string(), ..g };
    assert_eq!(g2.short_name(), "c");
}

#[test]
fn thread_status_running() {
    assert!(ThreadStatus::Initialised.running());
    assert!(ThreadStatus::InProgress.running());
    assert!(!ThreadStatus::Completed.running());
    assert!(!ThreadStatus::Failed.running());
}

#[test]
fn credentials_map() {
    let c = PSCredentials::ClientCredentials {
        id: "SECRET-REDACTED".to_string(),
        secret: "SECRET-REDACTED".to_string(),
    };
    let m = c.to_map();
    assert_eq!(m.len(), 3);
    assert_eq!(m[0].0, "grant_type");
    assert_eq!(m[0].1, "client_credentials");
    assert_eq!(m[1].0, "client_id");
    assert_eq!(m[2].0, "client_secret");
}

#[test]
fn event_type_words() {
    assert_eq!(EventType::Upload.to_str(), "upload ");
    assert_eq!(EventType::Task.to_str(), "task ");
}
