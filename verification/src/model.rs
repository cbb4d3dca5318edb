//! The document model: cross-references, typed properties, fragments,
//! sections and documents.
//!
//! Every type has a mathematical shadow (its view) over character sequences,
//! which the codec contracts in [`crate::ser`] speak of.

use vstd::prelude::*;
use crate::error::DecodeError;
use crate::text::{Alignment, Heading, HeadingV, Image, ImageV, Para, ParaV, opt_view};
use crate::xml::{XmlNode, XmlNodeV, node_view, nodes_view};

verus! {

/// The view of an optional string.
pub open spec fn strs_view(v: Seq<String>) -> Seq<Seq<char>> {
    v.map_values(|s: String| s@)
}

/// The view of an open attribute bag.
pub open spec fn bag_view(v: Seq<(String, String)>) -> Seq<(Seq<char>, Seq<char>)> {
    v.map_values(|p: (String, String)| (p.0@, p.1@))
}

// ---------- cross-references ----------

/// How the text of a cross-reference target is displayed.
#[derive(Debug, Clone, Copy, PartialEq, Eq, Structural)]
pub enum XRefDisplayKind {
    Document,
    DocumentManual,
    DocumentFragment,
    Manual,
    Template,
}

pub open spec fn sp_display_str(k: XRefDisplayKind) -> Seq<char> {
    match k {
        XRefDisplayKind::Document => "document"@,
        XRefDisplayKind::DocumentManual => "document+manual"@,
        XRefDisplayKind::DocumentFragment => "document+fragment"@,
        XRefDisplayKind::Manual => "manual"@,
        XRefDisplayKind::Template => "template"@,
    }
}

pub open spec fn sp_display_of(v: Seq<char>) -> Option<XRefDisplayKind> {
    if v == "document"@ {
        Some(XRefDisplayKind::Document)
    } else if v == "document+manual"@ {
        Some(XRefDisplayKind::DocumentManual)
    } else if v == "document+fragment"@ {
        Some(XRefDisplayKind::DocumentFragment)
    } else if v == "manual"@ {
        Some(XRefDisplayKind::Manual)
    } else if v == "template"@ {
        Some(XRefDisplayKind::Template)
    } else {
        None
    }
}

impl XRefDisplayKind {
    /// The wire literal of this display kind.
    pub fn to_str(&self) -> (r: &str)
        ensures
            r@ == sp_display_str(*self),
    {
        match self {
            XRefDisplayKind::Document => "document",
            XRefDisplayKind::DocumentManual => "document+manual",
            XRefDisplayKind::DocumentFragment => "document+fragment",
            XRefDisplayKind::Manual => "manual",
            XRefDisplayKind::Template => "template",
        }
    }

    /// The display kind a wire literal names; any other value is refused.
    pub fn from_str(s: &str) -> (r: Result<XRefDisplayKind, DecodeError>)
        ensures
            match r {
                Ok(k) => sp_display_of(s@) == Some(k),
                Err(e) => sp_display_of(s@) is None && match e@ {
                    crate::error::DecodeErrorView::MalformedAttributeValue { attr, value } => attr == "display"@ && value == s@,
                    _ => false,
                },
            },
    {
        let v = crate::chars::str_to_chars(s);
        if crate::chars::chars_eq_str(&v, "document") {
            Ok(XRefDisplayKind::Document)
        } else if crate::chars::chars_eq_str(&v, "document+manual") {
            Ok(XRefDisplayKind::DocumentManual)
        } else if crate::chars::chars_eq_str(&v, "document+fragment") {
            Ok(XRefDisplayKind::DocumentFragment)
        } else if crate::chars::chars_eq_str(&v, "manual") {
            Ok(XRefDisplayKind::Manual)
        } else if crate::chars::chars_eq_str(&v, "template") {
            Ok(XRefDisplayKind::Template)
        } else {
            Err(
                DecodeError::MalformedAttributeValue {
                    attr: String::from_str("display"),
                    value: s.to_owned(),
                },
            )
        }
    }
}

/// Proves that reading back the written display literal gives the same kind.
pub proof fn lemma_display_round_trip(k: XRefDisplayKind)
    ensures
        sp_display_of(sp_display_str(k)) == Some(k),
{
    broadcast use vstd::string::group_string_axioms;

    reveal_strlit("document");
    reveal_strlit("document+manual");
    reveal_strlit("document+fragment");
    reveal_strlit("manual");
    reveal_strlit("template");
    assert("document"@.len() == 8);
    assert("document"@[0] == 'd');
    assert("document+manual"@.len() == 15);
    assert("document+manual"@[0] == 'd');
    assert("document+fragment"@.len() == 17);
    assert("document+fragment"@[0] == 'd');
    assert("manual"@.len() == 6);
    assert("manual"@[0] == 'm');
    assert("template"@.len() == 8);
    assert("template"@[0] == 't');
}

/// The type of an inline cross-reference.
#[derive(Debug, Clone, Copy, PartialEq, Eq, Structural)]
pub enum XRefKind {
    NoneKind,
    Alternate,
    Math,
}

pub open spec fn sp_xref_kind_str(k: XRefKind) -> Seq<char> {
    match k {
        XRefKind::NoneKind => "none"@,
        XRefKind::Alternate => "alternate"@,
        XRefKind::Math => "math"@,
    }
}

pub open spec fn sp_xref_kind_of(v: Seq<char>) -> Option<XRefKind> {
    if v == "none"@ {
        Some(XRefKind::NoneKind)
    } else if v == "alternate"@ {
        Some(XRefKind::Alternate)
    } else if v == "math"@ {
        Some(XRefKind::Math)
    } else {
        None
    }
}

impl XRefKind {
    /// The wire literal of this kind.
    pub fn to_str(&self) -> (r: &str)
        ensures
            r@ == sp_xref_kind_str(*self),
    {
        match self {
            XRefKind::NoneKind => "none",
            XRefKind::Alternate => "alternate",
            XRefKind::Math => "math",
        }
    }

    /// The kind a wire literal names; any other value is refused.
    pub fn from_str(s: &str) -> (r: Result<XRefKind, DecodeError>)
        ensures
            match r {
                Ok(k) => sp_xref_kind_of(s@) == Some(k),
                Err(e) => sp_xref_kind_of(s@) is None && match e@ {
                    crate::error::DecodeErrorView::MalformedAttributeValue { attr, value } => attr == "type"@ && value == s@,
                    _ => false,
                },
            },
    {
        let v = crate::chars::str_to_chars(s);
        if crate::chars::chars_eq_str(&v, "none") {
            Ok(XRefKind::NoneKind)
        } else if crate::chars::chars_eq_str(&v, "alternate") {
            Ok(XRefKind::Alternate)
        } else if crate::chars::chars_eq_str(&v, "math") {
            Ok(XRefKind::Math)
        } else {
            Err(
                DecodeError::MalformedAttributeValue {
                    attr: String::from_str("type"),
                    value: s.to_owned(),
                },
            )
        }
    }
}

pub proof fn lemma_xref_kind_round_trip(k: XRefKind)
    ensures
        sp_xref_kind_of(sp_xref_kind_str(k)) == Some(k),
{
    broadcast use vstd::string::group_string_axioms;

    reveal_strlit("none");
    reveal_strlit("alternate");
    reveal_strlit("math");
    assert("none"@.len() == 4);
    assert("none"@[0] == 'n');
    assert("alternate"@.len() == 9);
    assert("alternate"@[0] == 'a');
    assert("math"@.len() == 4);
    assert("math"@[0] == 'm');
}

/// The type of a block cross-reference: the inline set extended with
/// embedding and transclusion.
#[derive(Debug, Clone, Copy, PartialEq, Eq, Structural)]
pub enum BlockXRefKind {
    NoneKind,
    Alternate,
    Math,
    Embed,
    Transclude,
}

pub open spec fn sp_bxref_kind_str(k: BlockXRefKind) -> Seq<char> {
    match k {
        BlockXRefKind::NoneKind => "none"@,
        BlockXRefKind::Alternate => "alternate"@,
        BlockXRefKind::Math => "math"@,
        BlockXRefKind::Embed => "embed"@,
        BlockXRefKind::Transclude => "transclude"@,
    }
}

pub open spec fn sp_bxref_kind_of(v: Seq<char>) -> Option<BlockXRefKind> {
    if v == "none"@ {
        Some(BlockXRefKind::NoneKind)
    } else if v == "alternate"@ {
        Some(BlockXRefKind::Alternate)
    } else if v == "math"@ {
        Some(BlockXRefKind::Math)
    } else if v == "embed"@ {
        Some(BlockXRefKind::Embed)
    } else if v == "transclude"@ {
        Some(BlockXRefKind::Transclude)
    } else {
        None
    }
}

impl BlockXRefKind {
    /// The wire literal of this kind.
    pub fn to_str(&self) -> (r: &str)
        ensures
            r@ == sp_bxref_kind_str(*self),
    {
        match self {
            BlockXRefKind::NoneKind => "none",
            BlockXRefKind::Alternate => "alternate",
            BlockXRefKind::Math => "math",
            BlockXRefKind::Embed => "embed",
            BlockXRefKind::Transclude => "transclude",
        }
    }

    /// The kind a wire literal names; any other value is refused.
    pub fn from_str(s: &str) -> (r: Result<BlockXRefKind, DecodeError>)
        ensures
            match r {
                Ok(k) => sp_bxref_kind_of(s@) == Some(k),
                Err(e) => sp_bxref_kind_of(s@) is None && match e@ {
                    crate::error::DecodeErrorView::MalformedAttributeValue { attr, value } => attr == "type"@ && value == s@,
                    _ => false,
                },
            },
    {
        let v = crate::chars::str_to_chars(s);
        if crate::chars::chars_eq_str(&v, "none") {
            Ok(BlockXRefKind::NoneKind)
        } else if crate::chars::chars_eq_str(&v, "alternate") {
            Ok(BlockXRefKind::Alternate)
        } else if crate::chars::chars_eq_str(&v, "math") {
            Ok(BlockXRefKind::Math)
        } else if crate::chars::chars_eq_str(&v, "embed") {
            Ok(BlockXRefKind::Embed)
        } else if crate::chars::chars_eq_str(&v, "transclude") {
            Ok(BlockXRefKind::Transclude)
        } else {
            Err(
                DecodeError::MalformedAttributeValue {
                    attr: String::from_str("type"),
                    value: s.to_owned(),
                },
            )
        }
    }
}

pub proof fn lemma_bxref_kind_round_trip(k: BlockXRefKind)
    ensures
        sp_bxref_kind_of(sp_bxref_kind_str(k)) == Some(k),
{
    broadcast use vstd::string::group_string_axioms;

    reveal_strlit("none");
    reveal_strlit("alternate");
    reveal_strlit("math");
    reveal_strlit("embed");
    reveal_strlit("transclude");
    assert("none"@.len() == 4);
    assert("none"@[0] == 'n');
    assert("alternate"@.len() == 9);
    assert("alternate"@[0] == 'a');
    assert("math"@.len() == 4);
    assert("math"@[0] == 'm');
    assert("embed"@.len() == 5);
    assert("embed"@[0] == 'e');
    assert("transclude"@.len() == 10);
    assert("transclude"@[0] == 't');
}

/// An inline cross-reference between two locations in documents.
#[derive(Debug, Clone, PartialEq, Eq)]
pub struct XRef {
    /// Destination uriid.
    pub uriid: Option<String>,
    /// Destination docid.
    pub docid: Option<String>,
    /// Destination href.
    pub href: Option<String>,
    /// Text content displayed in place of the target.
    pub content: String,
    /// Cross-reference config name.
    pub config: Option<String>,
    /// How target link text is displayed.
    pub display: XRefDisplayKind,
    /// Id of the fragment linked to.
    pub frag_id: String,
    /// Labels on this cross-reference.
    pub labels: Vec<String>,
    /// Level for heading numbering of the target document.
    pub level: Option<String>,
    /// Whether the cross-reference is bidirectional.
    pub reverselink: bool,
    /// Title of the reverse cross-reference.
    pub reversetitle: Option<String>,
    /// Title of this cross-reference.
    pub title: Option<String>,
    /// The kind of this cross-reference.
    pub xref_type: Option<XRefKind>,
}

/// The mathematical shadow of [`XRef`].
pub struct XRefV {
    pub uriid: Option<Seq<char>>,
    pub docid: Option<Seq<char>>,
    pub href: Option<Seq<char>>,
    pub content: Seq<char>,
    pub config: Option<Seq<char>>,
    pub display: XRefDisplayKind,
    pub frag_id: Seq<char>,
    pub labels: Seq<Seq<char>>,
    pub level: Option<Seq<char>>,
    pub reverselink: bool,
    pub reversetitle: Option<Seq<char>>,
    pub title: Option<Seq<char>>,
    pub xref_type: Option<XRefKind>,
}

pub open spec fn xref_view(x: XRef) -> XRefV {
    XRefV {
        uriid: opt_view(x.uriid),
        docid: opt_view(x.docid),
        href: opt_view(x.href),
        content: x.content@,
        config: opt_view(x.config),
        display: x.display,
        frag_id: x.frag_id@,
        labels: strs_view(x.labels@),
        level: opt_view(x.level),
        reverselink: x.reverselink,
        reversetitle: opt_view(x.reversetitle),
        title: opt_view(x.title),
        xref_type: x.xref_type,
    }
}

impl View for XRef {
    type V = XRefV;

    open spec fn view(&self) -> XRefV {
        xref_view(*self)
    }
}

/// The cross-reference with every attribute at its default and no
/// destination.
pub open spec fn sp_default_xref() -> XRefV {
    XRefV {
        uriid: None,
        docid: None,
        href: None,
        content: Seq::empty(),
        config: None,
        display: XRefDisplayKind::Document,
        frag_id: "default"@,
        labels: Seq::empty(),
        level: None,
        reverselink: true,
        reversetitle: None,
        title: None,
        xref_type: None,
    }
}

impl XRef {
    /// The cross-reference with every attribute at its default.
    pub(crate) fn blank() -> (r: XRef)
        ensures
            r@ == sp_default_xref(),
    {
        let r = XRef {
            uriid: None,
            docid: None,
            href: None,
            content: String::new(),
            config: None,
            display: XRefDisplayKind::Document,
            frag_id: String::from_str("default"),
            labels: Vec::new(),
            level: None,
            reverselink: true,
            reversetitle: None,
            title: None,
            xref_type: None,
        };
        proof {
            assert(strs_view(r.labels@) =~= Seq::<Seq<char>>::empty());
        }
        r
    }

    /// A default cross-reference to the given uriid.
    pub fn uriid(uriid: String) -> (r: XRef)
        ensures
            r@ == (XRefV { uriid: Some(uriid@), ..sp_default_xref() }),
    {
        let mut r = Self::blank();
        r.uriid = Some(uriid);
        r
    }

    /// A default cross-reference to the given docid.
    pub fn docid(docid: String) -> (r: XRef)
        ensures
            r@ == (XRefV { docid: Some(docid@), ..sp_default_xref() }),
    {
        let mut r = Self::blank();
        r.docid = Some(docid);
        r
    }

    /// A default cross-reference to the given href.
    pub fn href(href: String) -> (r: XRef)
        ensures
            r@ == (XRefV { href: Some(href@), ..sp_default_xref() }),
    {
        let mut r = Self::blank();
        r.href = Some(href);
        r
    }

    /// The same cross-reference with the given content.
    pub fn with_content(self, content: String) -> (r: XRef)
        ensures
            r@ == (XRefV { content: content@, ..self@ }),
    {
        XRef { content, ..self }
    }

    /// The same cross-reference with the given title.
    pub fn with_title(self, title: Option<String>) -> (r: XRef)
        ensures
            r@ == (XRefV { title: opt_view(title), ..self@ }),
    {
        XRef { title, ..self }
    }

    /// The same cross-reference with the given display kind.
    pub fn with_display(self, display: XRefDisplayKind) -> (r: XRef)
        ensures
            r@ == (XRefV { display, ..self@ }),
    {
        XRef { display, ..self }
    }
}

// ---------- properties ----------

/// The datatype of a property, deciding the shape of its values.
#[derive(Debug, Clone, Copy, PartialEq, Eq, Structural)]
pub enum PropertyDatatype {
    String,
    Date,
    XRef,
    Link,
    Markdown,
    Markup,
}

pub open spec fn sp_datatype_str(k: PropertyDatatype) -> Seq<char> {
    match k {
        PropertyDatatype::String => "string"@,
        PropertyDatatype::Date => "date"@,
        PropertyDatatype::XRef => "xref"@,
        PropertyDatatype::Link => "link"@,
        PropertyDatatype::Markdown => "markdown"@,
        PropertyDatatype::Markup => "markup"@,
    }
}

pub open spec fn sp_datatype_of(v: Seq<char>) -> Option<PropertyDatatype> {
    if v == "string"@ {
        Some(PropertyDatatype::String)
    } else if v == "date"@ {
        Some(PropertyDatatype::Date)
    } else if v == "xref"@ {
        Some(PropertyDatatype::XRef)
    } else if v == "link"@ {
        Some(PropertyDatatype::Link)
    } else if v == "markdown"@ {
        Some(PropertyDatatype::Markdown)
    } else if v == "markup"@ {
        Some(PropertyDatatype::Markup)
    } else {
        None
    }
}

impl PropertyDatatype {
    /// The wire literal of this datatype.
    pub fn to_str(&self) -> (r: &str)
        ensures
            r@ == sp_datatype_str(*self),
    {
        match self {
            PropertyDatatype::String => "string",
            PropertyDatatype::Date => "date",
            PropertyDatatype::XRef => "xref",
            PropertyDatatype::Link => "link",
            PropertyDatatype::Markdown => "markdown",
            PropertyDatatype::Markup => "markup",
        }
    }

    /// The datatype a wire literal names; any other value is refused.
    pub fn from_str(s: &str) -> (r: Result<PropertyDatatype, DecodeError>)
        ensures
            match r {
                Ok(k) => sp_datatype_of(s@) == Some(k),
                Err(e) => sp_datatype_of(s@) is None && match e@ {
                    crate::error::DecodeErrorView::MalformedAttributeValue { attr, value } => attr == "datatype"@ && value == s@,
                    _ => false,
                },
            },
    {
        let v = crate::chars::str_to_chars(s);
        if crate::chars::chars_eq_str(&v, "string") {
            Ok(PropertyDatatype::String)
        } else if crate::chars::chars_eq_str(&v, "date") {
            Ok(PropertyDatatype::Date)
        } else if crate::chars::chars_eq_str(&v, "xref") {
            Ok(PropertyDatatype::XRef)
        } else if crate::chars::chars_eq_str(&v, "link") {
            Ok(PropertyDatatype::Link)
        } else if crate::chars::chars_eq_str(&v, "markdown") {
            Ok(PropertyDatatype::Markdown)
        } else if crate::chars::chars_eq_str(&v, "markup") {
            Ok(PropertyDatatype::Markup)
        } else {
            Err(
                DecodeError::MalformedAttributeValue {
                    attr: String::from_str("datatype"),
                    value: s.to_owned(),
                },
            )
        }
    }
}

pub proof fn lemma_datatype_round_trip(k: PropertyDatatype)
    ensures
        sp_datatype_of(sp_datatype_str(k)) == Some(k),
{
    broadcast use vstd::string::group_string_axioms;

    reveal_strlit("string");
    reveal_strlit("date");
    reveal_strlit("xref");
    reveal_strlit("link");
    reveal_strlit("markdown");
    reveal_strlit("markup");
    assert("string"@.len() == 6);
    assert("string"@[0] == 's');
    assert("date"@.len() == 4);
    assert("date"@[0] == 'd');
    assert("xref"@.len() == 4);
    assert("xref"@[0] == 'x');
    assert("link"@.len() == 4);
    assert("link"@[0] == 'l');
    assert("markdown"@.len() == 8);
    assert("markdown"@[0] == 'm');
    assert("markup"@.len() == 6);
    assert("markup"@[0] == 'm');
}

/// One value of a property. A plain value holds text; a cross-reference value
/// holds an inline cross-reference; link, markdown and markup values hold the
/// markup subtrees captured for them.
#[derive(Debug, PartialEq, Eq)]
pub enum PropertyValue {
    String(String),
    XRef(XRef),
    Link(XmlNode),
    Markdown(XmlNode),
    Markup(Vec<XmlNode>),
}

/// The mathematical shadow of [`PropertyValue`].
pub enum PropertyValueV {
    String(Seq<char>),
    XRef(XRefV),
    Link(XmlNodeV),
    Markdown(XmlNodeV),
    Markup(Seq<XmlNodeV>),
}

pub open spec fn pv_view(v: PropertyValue) -> PropertyValueV {
    match v {
        PropertyValue::String(s) => PropertyValueV::String(s@),
        PropertyValue::XRef(x) => PropertyValueV::XRef(xref_view(x)),
        PropertyValue::Link(n) => PropertyValueV::Link(node_view(n)),
        PropertyValue::Markdown(n) => PropertyValueV::Markdown(node_view(n)),
        PropertyValue::Markup(ns) => PropertyValueV::Markup(nodes_view(ns@)),
    }
}

pub open spec fn pvs_view(vs: Seq<PropertyValue>) -> Seq<PropertyValueV> {
    vs.map_values(|v: PropertyValue| pv_view(v))
}

impl View for PropertyValue {
    type V = PropertyValueV;

    open spec fn view(&self) -> PropertyValueV {
        pv_view(*self)
    }
}

impl PropertyValue {
    /// The datatype under which this value is encoded.
    pub fn datatype(&self) -> (r: PropertyDatatype)
        ensures
            r == (match self@ {
                PropertyValueV::String(_) => PropertyDatatype::String,
                PropertyValueV::XRef(_) => PropertyDatatype::XRef,
                PropertyValueV::Link(_) => PropertyDatatype::Link,
                PropertyValueV::Markdown(_) => PropertyDatatype::Markdown,
                PropertyValueV::Markup(_) => PropertyDatatype::Markup,
            }),
    {
        match self {
            PropertyValue::String(_) => PropertyDatatype::String,
            PropertyValue::XRef(_) => PropertyDatatype::XRef,
            PropertyValue::Link(_) => PropertyDatatype::Link,
            PropertyValue::Markdown(_) => PropertyDatatype::Markdown,
            PropertyValue::Markup(_) => PropertyDatatype::Markup,
        }
    }
}

/// A typed, possibly multi-valued metadata field.
#[derive(Debug, PartialEq, Eq)]
pub struct Property {
    pub name: String,
    pub title: Option<String>,
    pub multiple: bool,
    pub datatype: PropertyDatatype,
    pub values: Vec<PropertyValue>,
}

/// The mathematical shadow of [`Property`].
pub struct PropertyV {
    pub name: Seq<char>,
    pub title: Option<Seq<char>>,
    pub multiple: bool,
    pub datatype: PropertyDatatype,
    pub values: Seq<PropertyValueV>,
}

pub open spec fn prop_view(p: Property) -> PropertyV {
    PropertyV {
        name: p.name@,
        title: opt_view(p.title),
        multiple: p.multiple,
        datatype: p.datatype,
        values: pvs_view(p.values@),
    }
}

pub open spec fn props_view(ps: Seq<Property>) -> Seq<PropertyV> {
    ps.map_values(|p: Property| prop_view(p))
}

impl View for Property {
    type V = PropertyV;

    open spec fn view(&self) -> PropertyV {
        prop_view(*self)
    }
}

/// The replacement of each character run that is illegal in a property name.
pub open spec fn sp_skip_bad(t: Seq<char>, i: int) -> int
    decreases t.len() - i,
{
    if 0 <= i < t.len() && !crate::xml::is_name_char(t[i]) {
        sp_skip_bad(t, i + 1)
    } else {
        i
    }
}

/// The tail of [`sp_sanitize`] from position `i` on: legal characters stand,
/// each maximal run of illegal ones becomes one copy of `repl`.
pub open spec fn sp_sanitize_from(t: Seq<char>, i: int, repl: Seq<char>) -> Seq<char>
    decreases t.len() - i,
{
    if !(0 <= i < t.len()) {
        Seq::empty()
    } else if crate::xml::is_name_char(t[i]) {
        seq![t[i]] + sp_sanitize_from(t, i + 1, repl)
    } else {
        let j = sp_skip_bad(t, i);
        if i < j <= t.len() {
            repl + sp_sanitize_from(t, j, repl)
        } else {
            Seq::empty()
        }
    }
}

/// A sanitized property name: a leading hyphen becomes one copy of `repl`,
/// and so does every maximal run of characters outside the legal set.
pub open spec fn sp_sanitize(t: Seq<char>, repl: Seq<char>) -> Seq<char> {
    if t.len() > 0 && t[0] == '-' {
        repl + sp_sanitize_from(t, 1, repl)
    } else {
        sp_sanitize_from(t, 0, repl)
    }
}

impl Property {
    /// A single-valued property with the given name, title and value, typed
    /// after the value.
    pub fn with_value(name: String, title: String, value: PropertyValue) -> (r: Self)
        ensures
            r@ == (PropertyV {
                name: name@,
                title: Some(title@),
                multiple: false,
                datatype: (match pv_view(value) {
                    PropertyValueV::String(_) => PropertyDatatype::String,
                    PropertyValueV::XRef(_) => PropertyDatatype::XRef,
                    PropertyValueV::Link(_) => PropertyDatatype::Link,
                    PropertyValueV::Markdown(_) => PropertyDatatype::Markdown,
                    PropertyValueV::Markup(_) => PropertyDatatype::Markup,
                }),
                values: seq![pv_view(value)],
            }),
    {
        let ghost vv = pv_view(value);
        let datatype = value.datatype();
        let values = vec![value];
        let r = Property { name, title: Some(title), multiple: false, datatype, values };
        proof {
            assert(pvs_view(r.values@) =~= seq![vv]);
        }
        r
    }

    /// Replaces what is illegal in a property name: a leading hyphen and any
    /// character outside letters, digits, hyphen and underscore, each maximal
    /// run becoming one copy of `repl`.
    pub fn sanitize_name(name: &str, repl: &str) -> (r: String)
        ensures
            r@ == sp_sanitize(name@, repl@),
    {
        let t = crate::chars::str_to_chars(name);
        let rp = crate::chars::str_to_chars(repl);
        let mut out: Vec<char> = Vec::new();
        let mut i: usize = 0;
        if t.len() > 0 && t[0] == '-' {
            let mut q: usize = 0;
            while q < rp.len()
                invariant
                    q <= rp.len(),
                    out@ == rp@.take(q as int),
                decreases rp.len() - q,
            {
                out.push(rp[q]);
                proof {
                    assert(out@ =~= rp@.take(q as int + 1));
                }
                q = q + 1;
            }
            proof {
                assert(rp@.take(rp@.len() as int) =~= rp@);
            }
            i = 1;
        }
        let ghost head = out@;
        let ghost i0 = i as int;
        while i < t.len()
            invariant
                i0 <= i as int <= t.len(),
                head + sp_sanitize_from(t@, i0, rp@) == out@ + sp_sanitize_from(t@, i as int, rp@),
            decreases t.len() - i,
        {
            let ghost o0 = out@;
            if crate::xml::name_char(t[i]) {
                out.push(t[i]);
                proof {
                    assert(out@ =~= o0 + seq![t@[i as int]]);
                    assert(o0 + (seq![t@[i as int]] + sp_sanitize_from(t@, i as int + 1, rp@))
                        =~= out@ + sp_sanitize_from(t@, i as int + 1, rp@));
                }
                i = i + 1;
            } else {
                let ghost istart = i as int;
                let mut j = i;
                while j < t.len() && !crate::xml::name_char(t[j])
                    invariant
                        istart <= j as int <= t.len(),
                        sp_skip_bad(t@, istart) == sp_skip_bad(t@, j as int),
                    decreases t.len() - j,
                {
                    j = j + 1;
                }
                proof {
                    assert(sp_skip_bad(t@, j as int) == j as int);
                }
                let mut q: usize = 0;
                while q < rp.len()
                    invariant
                        q <= rp.len(),
                        out@ == o0 + rp@.take(q as int),
                    decreases rp.len() - q,
                {
                    out.push(rp[q]);
                    proof {
                        assert(out@ =~= o0 + rp@.take(q as int + 1));
                    }
                    q = q + 1;
                }
                proof {
                    assert(rp@.take(rp@.len() as int) =~= rp@);
                    assert(o0 + (rp@ + sp_sanitize_from(t@, j as int, rp@)) =~= out@
                        + sp_sanitize_from(t@, j as int, rp@));
                }
                i = j;
            }
        }
        proof {
            assert(sp_sanitize_from(t@, i as int, rp@) == Seq::<char>::empty());
            assert(out@ + Seq::<char>::empty() =~= out@);
            assert(head + Seq::<char>::empty() =~= head);
            if t@.len() > 0 && t@[0] == '-' {
                assert(head =~= rp@);
                assert(sp_sanitize(t@, rp@) == rp@ + sp_sanitize_from(t@, 1, rp@));
            } else {
                assert(head =~= Seq::<char>::empty());
                assert(Seq::<char>::empty() + sp_sanitize_from(t@, 0, rp@) =~= sp_sanitize_from(
                    t@,
                    0,
                    rp@,
                ));
            }
        }
        crate::chars::chars_to_string(&out)
    }
}

// ---------- fragments ----------

/// A fragment of typed metadata: an ordered list of properties, with an open
/// attribute bag kept in writing order for forward compatibility.
#[derive(Debug, PartialEq, Eq)]
pub struct PropertiesFragment {
    /// Id of the fragment.
    pub id: String,
    /// Template type of the fragment.
    pub frag_type: Option<String>,
    /// Labels on this fragment.
    pub labels: Vec<String>,
    /// Properties in this fragment.
    pub properties: Vec<Property>,
    /// Other attributes on this fragment, in writing order.
    pub attrs: Vec<(String, String)>,
}

/// The mathematical shadow of [`PropertiesFragment`].
pub struct PropertiesFragmentV {
    pub id: Seq<char>,
    pub frag_type: Option<Seq<char>>,
    pub labels: Seq<Seq<char>>,
    pub properties: Seq<PropertyV>,
    pub attrs: Seq<(Seq<char>, Seq<char>)>,
}

pub open spec fn pfrag_view(f: PropertiesFragment) -> PropertiesFragmentV {
    PropertiesFragmentV {
        id: f.id@,
        frag_type: opt_view(f.frag_type),
        labels: strs_view(f.labels@),
        properties: props_view(f.properties@),
        attrs: bag_view(f.attrs@),
    }
}

impl View for PropertiesFragment {
    type V = PropertiesFragmentV;

    open spec fn view(&self) -> PropertiesFragmentV {
        pfrag_view(*self)
    }
}

impl PropertiesFragment {
    /// An empty properties fragment with the given id.
    pub fn new(id: String) -> (r: PropertiesFragment)
        ensures
            r@ == (PropertiesFragmentV {
                id: id@,
                frag_type: None,
                labels: Seq::empty(),
                properties: Seq::empty(),
                attrs: Seq::empty(),
            }),
    {
        let r = PropertiesFragment {
            id,
            frag_type: None,
            labels: Vec::new(),
            properties: Vec::new(),
            attrs: Vec::new(),
        };
        proof {
            assert(strs_view(r.labels@) =~= Seq::<Seq<char>>::empty());
            assert(props_view(r.properties@) =~= Seq::<PropertyV>::empty());
            assert(bag_view(r.attrs@) =~= Seq::<(Seq<char>, Seq<char>)>::empty());
        }
        r
    }

    /// The same fragment with the given properties appended.
    pub fn with_properties(self, properties: Vec<Property>) -> (r: PropertiesFragment)
        ensures
            r@ == (PropertiesFragmentV {
                properties: props_view(self.properties@) + props_view(properties@),
                ..self@
            }),
    {
        let ghost s0 = self.properties@;
        let ghost p0 = properties@;
        let mut ps = self.properties;
        let mut more = properties;
        ps.append(&mut more);
        let r = PropertiesFragment {
            id: self.id,
            frag_type: self.frag_type,
            labels: self.labels,
            properties: ps,
            attrs: self.attrs,
        };
        proof {
            assert(props_view(s0 + p0) =~= props_view(s0) + props_view(p0));
        }
        r
    }
}

/// A block-level cross-reference; it is always written self-closing.
#[derive(Debug, Clone, PartialEq, Eq)]
pub struct BlockXRef {
    pub docid: Option<String>,
    pub href: Option<String>,
    pub uriid: Option<String>,
    pub archived: Option<bool>,
    pub config: Option<String>,
    pub display: Option<XRefDisplayKind>,
    pub documenttype: Option<String>,
    pub external: Option<bool>,
    /// Id of the fragment linked to.
    pub frag: String,
    pub id: Option<String>,
    pub labels: Option<String>,
    pub level: Option<u8>,
    pub mediatype: Option<String>,
    pub reversetitle: Option<String>,
    pub reverselink: Option<bool>,
    pub reversefrag: Option<String>,
    pub title: Option<String>,
    pub xref_type: Option<BlockXRefKind>,
    pub unresolved: Option<bool>,
    pub urititle: Option<String>,
    pub urilabels: Option<String>,
}

/// The mathematical shadow of [`BlockXRef`].
pub struct BlockXRefV {
    pub docid: Option<Seq<char>>,
    pub href: Option<Seq<char>>,
    pub uriid: Option<Seq<char>>,
    pub archived: Option<bool>,
    pub config: Option<Seq<char>>,
    pub display: Option<XRefDisplayKind>,
    pub documenttype: Option<Seq<char>>,
    pub external: Option<bool>,
    pub frag: Seq<char>,
    pub id: Option<Seq<char>>,
    pub labels: Option<Seq<char>>,
    pub level: Option<u8>,
    pub mediatype: Option<Seq<char>>,
    pub reversetitle: Option<Seq<char>>,
    pub reverselink: Option<bool>,
    pub reversefrag: Option<Seq<char>>,
    pub title: Option<Seq<char>>,
    pub xref_type: Option<BlockXRefKind>,
    pub unresolved: Option<bool>,
    pub urititle: Option<Seq<char>>,
    pub urilabels: Option<Seq<char>>,
}

pub open spec fn bxref_view(x: BlockXRef) -> BlockXRefV {
    BlockXRefV {
        docid: opt_view(x.docid),
        href: opt_view(x.href),
        uriid: opt_view(x.uriid),
        archived: x.archived,
        config: opt_view(x.config),
        display: x.display,
        documenttype: opt_view(x.documenttype),
        external: x.external,
        frag: x.frag@,
        id: opt_view(x.id),
        labels: opt_view(x.labels),
        level: x.level,
        mediatype: opt_view(x.mediatype),
        reversetitle: opt_view(x.reversetitle),
        reverselink: x.reverselink,
        reversefrag: opt_view(x.reversefrag),
        title: opt_view(x.title),
        xref_type: x.xref_type,
        unresolved: x.unresolved,
        urititle: opt_view(x.urititle),
        urilabels: opt_view(x.urilabels),
    }
}

impl View for BlockXRef {
    type V = BlockXRefV;

    open spec fn view(&self) -> BlockXRefV {
        bxref_view(*self)
    }
}

/// The block cross-reference with every attribute absent and the default
/// fragment id.
pub open spec fn sp_default_bxref() -> BlockXRefV {
    BlockXRefV {
        docid: None,
        href: None,
        uriid: None,
        archived: None,
        config: None,
        display: None,
        documenttype: None,
        external: None,
        frag: "default"@,
        id: None,
        labels: None,
        level: None,
        mediatype: None,
        reversetitle: None,
        reverselink: None,
        reversefrag: None,
        title: None,
        xref_type: None,
        unresolved: None,
        urititle: None,
        urilabels: None,
    }
}

impl Default for BlockXRef {
    /// The block cross-reference with every attribute absent.
    fn default() -> (r: BlockXRef)
        ensures
            r@ == sp_default_bxref(),
    {
        BlockXRef {
            docid: None,
            href: None,
            uriid: None,
            archived: None,
            config: None,
            display: None,
            documenttype: None,
            external: None,
            frag: String::from_str("default"),
            id: None,
            labels: None,
            level: None,
            mediatype: None,
            reversetitle: None,
            reverselink: None,
            reversefrag: None,
            title: None,
            xref_type: None,
            unresolved: None,
            urititle: None,
            urilabels: None,
        }
    }
}

impl BlockXRef {
    /// A default block cross-reference to the given docid.
    pub fn docid(docid: String) -> (r: Self)
        ensures
            r@ == (BlockXRefV { docid: Some(docid@), ..sp_default_bxref() }),
    {
        let mut r = BlockXRef::default();
        r.docid = Some(docid);
        r
    }

    /// A default block cross-reference to the given uriid.
    pub fn uriid(uriid: String) -> (r: Self)
        ensures
            r@ == (BlockXRefV { uriid: Some(uriid@), ..sp_default_bxref() }),
    {
        let mut r = BlockXRef::default();
        r.uriid = Some(uriid);
        r
    }

    /// A default block cross-reference to the given href.
    pub fn href(href: String) -> (r: Self)
        ensures
            r@ == (BlockXRefV { href: Some(href@), ..sp_default_bxref() }),
    {
        let mut r = BlockXRef::default();
        r.href = Some(href);
        r
    }
}

/// A fragment holding a list of block cross-references.
#[derive(Debug, Clone, PartialEq, Eq)]
pub struct XRefFragment {
    /// Id of the fragment.
    pub id: String,
    /// Template type of the fragment.
    pub frag_type: Option<String>,
    /// Comma-separated labels on this fragment.
    pub labels: String,
    /// The block cross-references in this fragment.
    pub xrefs: Vec<BlockXRef>,
    /// Other attributes on this fragment, in writing order.
    pub attrs: Vec<(String, String)>,
}

/// The mathematical shadow of [`XRefFragment`].
pub struct XRefFragmentV {
    pub id: Seq<char>,
    pub frag_type: Option<Seq<char>>,
    pub labels: Seq<char>,
    pub xrefs: Seq<BlockXRefV>,
    pub attrs: Seq<(Seq<char>, Seq<char>)>,
}

pub open spec fn bxrefs_view(xs: Seq<BlockXRef>) -> Seq<BlockXRefV> {
    xs.map_values(|x: BlockXRef| bxref_view(x))
}

pub open spec fn xfrag_view(f: XRefFragment) -> XRefFragmentV {
    XRefFragmentV {
        id: f.id@,
        frag_type: opt_view(f.frag_type),
        labels: f.labels@,
        xrefs: bxrefs_view(f.xrefs@),
        attrs: bag_view(f.attrs@),
    }
}

impl View for XRefFragment {
    type V = XRefFragmentV;

    open spec fn view(&self) -> XRefFragmentV {
        xfrag_view(*self)
    }
}

impl XRefFragment {
    /// An empty cross-reference fragment with the given id.
    pub fn new(id: String) -> (r: XRefFragment)
        ensures
            r@ == (XRefFragmentV {
                id: id@,
                frag_type: None,
                labels: Seq::empty(),
                xrefs: Seq::empty(),
                attrs: Seq::empty(),
            }),
    {
        let r = XRefFragment {
            id,
            frag_type: None,
            labels: String::new(),
            xrefs: Vec::new(),
            attrs: Vec::new(),
        };
        proof {
            assert(bxrefs_view(r.xrefs@) =~= Seq::<BlockXRefV>::empty());
            assert(bag_view(r.attrs@) =~= Seq::<(Seq<char>, Seq<char>)>::empty());
        }
        r
    }

    /// The same fragment with the given cross-references appended.
    pub fn with_xrefs(self, xrefs: Vec<BlockXRef>) -> (r: XRefFragment)
        ensures
            r@ == (XRefFragmentV { xrefs: bxrefs_view(self.xrefs@) + bxrefs_view(xrefs@), ..self@ }),
    {
        let ghost s0 = self.xrefs@;
        let ghost p0 = xrefs@;
        let mut xs = self.xrefs;
        let mut more = xrefs;
        xs.append(&mut more);
        let r = XRefFragment {
            id: self.id,
            frag_type: self.frag_type,
            labels: self.labels,
            xrefs: xs,
            attrs: self.attrs,
        };
        proof {
            assert(bxrefs_view(s0 + p0) =~= bxrefs_view(s0) + bxrefs_view(p0));
        }
        r
    }
}

// ---------- tables ----------

/// Which part of a table a column or row belongs to.
#[derive(Debug, Clone, Copy, PartialEq, Eq, Structural)]
pub enum TablePart {
    Header,
    Body,
    Footer,
}

pub open spec fn sp_part_str(k: TablePart) -> Seq<char> {
    match k {
        TablePart::Header => "header"@,
        TablePart::Body => "body"@,
        TablePart::Footer => "footer"@,
    }
}

pub open spec fn sp_part_of(v: Seq<char>) -> Option<TablePart> {
    if v == "header"@ {
        Some(TablePart::Header)
    } else if v == "body"@ {
        Some(TablePart::Body)
    } else if v == "footer"@ {
        Some(TablePart::Footer)
    } else {
        None
    }
}

pub open spec fn sp_align_str(k: Alignment) -> Seq<char> {
    match k {
        Alignment::Left => "left"@,
        Alignment::Center => "center"@,
        Alignment::Right => "right"@,
        Alignment::Justify => "justify"@,
    }
}

pub open spec fn sp_align_of(v: Seq<char>) -> Option<Alignment> {
    if v == "left"@ {
        Some(Alignment::Left)
    } else if v == "center"@ {
        Some(Alignment::Center)
    } else if v == "right"@ {
        Some(Alignment::Right)
    } else if v == "justify"@ {
        Some(Alignment::Justify)
    } else {
        None
    }
}

/// The caption of a table.
#[derive(Debug, Clone, PartialEq, Eq)]
pub struct TableCaption {
    pub caption: String,
}

/// One column definition, counted from the left.
#[derive(Debug, Clone, PartialEq, Eq)]
pub struct TableColumn {
    pub align: Option<Alignment>,
    pub part: Option<TablePart>,
    pub role: Option<String>,
    pub width: Option<String>,
}

/// The mathematical shadow of [`TableColumn`].
pub struct TableColumnV {
    pub align: Option<Alignment>,
    pub part: Option<TablePart>,
    pub role: Option<Seq<char>>,
    pub width: Option<Seq<char>>,
}

pub open spec fn col_view(c: TableColumn) -> TableColumnV {
    TableColumnV {
        align: c.align,
        part: c.part,
        role: opt_view(c.role),
        width: opt_view(c.width),
    }
}

impl View for TableColumn {
    type V = TableColumnV;

    open spec fn view(&self) -> TableColumnV {
        col_view(*self)
    }
}

/// One cell of a table row, holding plain text.
#[derive(Debug, Clone, PartialEq, Eq)]
pub struct TableCell {
    pub align: Option<Alignment>,
    pub role: Option<String>,
    pub colspan: Option<u64>,
    pub rowspan: Option<u64>,
    pub content: String,
}

/// The mathematical shadow of [`TableCell`].
pub struct TableCellV {
    pub align: Option<Alignment>,
    pub role: Option<Seq<char>>,
    pub colspan: Option<u64>,
    pub rowspan: Option<u64>,
    pub content: Seq<char>,
}

pub open spec fn cell_view(c: TableCell) -> TableCellV {
    TableCellV {
        align: c.align,
        role: opt_view(c.role),
        colspan: c.colspan,
        rowspan: c.rowspan,
        content: c.content@,
    }
}

impl View for TableCell {
    type V = TableCellV;

    open spec fn view(&self) -> TableCellV {
        cell_view(*self)
    }
}

/// One row of a table.
#[derive(Debug, Clone, PartialEq, Eq)]
pub struct TableRow {
    pub align: Option<Alignment>,
    pub part: Option<TablePart>,
    pub role: Option<String>,
    pub cells: Vec<TableCell>,
}

/// The mathematical shadow of [`TableRow`].
pub struct TableRowV {
    pub align: Option<Alignment>,
    pub part: Option<TablePart>,
    pub role: Option<Seq<char>>,
    pub cells: Seq<TableCellV>,
}

pub open spec fn cells_view(cs: Seq<TableCell>) -> Seq<TableCellV> {
    cs.map_values(|c: TableCell| cell_view(c))
}

pub open spec fn row_view(r: TableRow) -> TableRowV {
    TableRowV {
        align: r.align,
        part: r.part,
        role: opt_view(r.role),
        cells: cells_view(r.cells@),
    }
}

impl View for TableRow {
    type V = TableRowV;

    open spec fn view(&self) -> TableRowV {
        row_view(*self)
    }
}

/// A table: optional caption and presentation attributes, column definitions,
/// and rows. It is always serialized caption first, then columns, then rows.
#[derive(Debug, Clone, PartialEq, Eq)]
pub struct Table {
    pub caption: Option<TableCaption>,
    pub role: Option<String>,
    pub summary: Option<String>,
    pub height: Option<String>,
    pub width: Option<String>,
    pub cols: Vec<TableColumn>,
    pub rows: Vec<TableRow>,
}

/// The mathematical shadow of [`Table`].
pub struct TableV {
    pub caption: Option<Seq<char>>,
    pub role: Option<Seq<char>>,
    pub summary: Option<Seq<char>>,
    pub height: Option<Seq<char>>,
    pub width: Option<Seq<char>>,
    pub cols: Seq<TableColumnV>,
    pub rows: Seq<TableRowV>,
}

pub open spec fn cols_view(cs: Seq<TableColumn>) -> Seq<TableColumnV> {
    cs.map_values(|c: TableColumn| col_view(c))
}

pub open spec fn rows_view(rs: Seq<TableRow>) -> Seq<TableRowV> {
    rs.map_values(|r: TableRow| row_view(r))
}

pub open spec fn table_view(t: Table) -> TableV {
    TableV {
        caption: match t.caption {
            Some(c) => Some(c.caption@),
            None => None,
        },
        role: opt_view(t.role),
        summary: opt_view(t.summary),
        height: opt_view(t.height),
        width: opt_view(t.width),
        cols: cols_view(t.cols@),
        rows: rows_view(t.rows@),
    }
}

impl View for Table {
    type V = TableV;

    open spec fn view(&self) -> TableV {
        table_view(*self)
    }
}

impl Table {
    /// A plain table: `cols` default column definitions, one row per entry of
    /// `cells` with one text cell per entry, and the given caption.
    pub fn basic(cols: usize, cells: Vec<Vec<String>>, caption: String) -> (r: Table)
        ensures
            r@.caption == Some(caption@),
            r@.role is None && r@.summary is None && r@.height is None && r@.width is None,
            r@.cols.len() == cols,
            forall|k: int|
                0 <= k < cols as int ==> r@.cols[k] == (TableColumnV {
                    align: None,
                    part: None,
                    role: None,
                    width: None,
                }),
            r@.rows.len() == cells@.len(),
            forall|k: int|
                0 <= k < cells@.len() ==> {
                    &&& (#[trigger] r@.rows[k]).align is None
                    &&& r@.rows[k].part is None
                    &&& r@.rows[k].role is None
                    &&& r@.rows[k].cells.len() == cells@[k]@.len()
                    &&& forall|m: int|
                        0 <= m < cells@[k]@.len() ==> (#[trigger] r@.rows[k].cells[m]) == (
                        TableCellV {
                            align: None,
                            role: None,
                            colspan: None,
                            rowspan: None,
                            content: cells@[k]@[m]@,
                        })
                },
    {
        let mut tcols: Vec<TableColumn> = Vec::new();
        let mut k: usize = 0;
        while k < cols
            invariant
                k <= cols,
                tcols@.len() == k,
                forall|j: int|
                    0 <= j < k as int ==> col_view(#[trigger] tcols@[j]) == (TableColumnV {
                        align: None,
                        part: None,
                        role: None,
                        width: None,
                    }),
            decreases cols - k,
        {
            tcols.push(TableColumn { align: None, part: None, role: None, width: None });
            k = k + 1;
        }
        let mut rows: Vec<TableRow> = Vec::new();
        let mut cells = cells;
        let ghost cells0 = cells@;
        let mut i: usize = 0;
        while i < cells.len()
            invariant
                i <= cells@.len(),
                cells@ == cells0,
                rows@.len() == i,
                forall|j: int|
                    0 <= j < i as int ==> {
                        &&& (#[trigger] rows@[j]).align is None
                        &&& rows@[j].part is None
                        &&& rows@[j].role is None
                        &&& rows@[j].cells@.len() == cells0[j]@.len()
                        &&& forall|m: int|
                            0 <= m < cells0[j]@.len() ==> cell_view(
                                #[trigger] rows@[j].cells@[m],
                            ) == (TableCellV {
                                align: None,
                                role: None,
                                colspan: None,
                                rowspan: None,
                                content: cells0[j]@[m]@,
                            })
                    },
            decreases cells@.len() - i,
        {
            let row = &cells[i];
            let mut tcells: Vec<TableCell> = Vec::new();
            let mut m: usize = 0;
            while m < row.len()
                invariant
                    i < cells@.len(),
                    cells@ == cells0,
                    row == &cells[i as int],
                    m <= row@.len(),
                    tcells@.len() == m,
                    forall|q: int|
                        0 <= q < m as int ==> cell_view(#[trigger] tcells@[q]) == (TableCellV {
                            align: None,
                            role: None,
                            colspan: None,
                            rowspan: None,
                            content: cells0[i as int]@[q]@,
                        }),
                decreases row@.len() - m,
            {
                tcells.push(
                    TableCell {
                        align: None,
                        role: None,
                        colspan: None,
                        rowspan: None,
                        content: row[m].clone(),
                    },
                );
                m = m + 1;
            }
            rows.push(TableRow { align: None, part: None, role: None, cells: tcells });
            i = i + 1;
        }
        let r = Table {
            caption: Some(TableCaption { caption }),
            role: None,
            summary: None,
            height: None,
            width: None,
            cols: tcols,
            rows,
        };
        proof {
            assert forall|k: int| 0 <= k < cols as int implies r@.cols[k] == (TableColumnV {
                align: None,
                part: None,
                role: None,
                width: None,
            }) by {
                assert(cols_view(r.cols@)[k] == col_view(r.cols@[k]));
            }
            assert forall|k: int| 0 <= k < cells0.len() implies {
                &&& (#[trigger] r@.rows[k]).align is None
                &&& r@.rows[k].part is None
                &&& r@.rows[k].role is None
                &&& r@.rows[k].cells.len() == cells0[k]@.len()
                &&& forall|m: int|
                    0 <= m < cells0[k]@.len() ==> (#[trigger] r@.rows[k].cells[m]) == (TableCellV {
                        align: None,
                        role: None,
                        colspan: None,
                        rowspan: None,
                        content: cells0[k]@[m]@,
                    })
            } by {
                assert(rows_view(r.rows@)[k] == row_view(r.rows@[k]));
                assert forall|m: int| 0 <= m < cells0[k]@.len() implies (#[trigger] r@.rows[k].cells[m]) == (TableCellV {
                    align: None,
                    role: None,
                    colspan: None,
                    rowspan: None,
                    content: cells0[k]@[m]@,
                }) by {
                    assert(cells_view(r.rows@[k].cells@)[m] == cell_view(r.rows@[k].cells@[m]));
                }
            }
        }
        r
    }
}

// ---------- narrative fragments ----------

/// One piece of block content inside a narrative fragment.
#[derive(Debug, PartialEq, Eq)]
pub enum FragmentContent {
    Text(String),
    Heading(Heading),
    Block { child: Vec<FragmentContent> },
    BlockXRef(BlockXRef),
    Para(Para),
    Preformat { child: Vec<FragmentContent> },
    Image(Image),
    Table(Table),
}

/// The mathematical shadow of [`FragmentContent`].
pub enum FragmentContentV {
    Text(Seq<char>),
    Heading(HeadingV),
    Block { child: Seq<FragmentContentV> },
    BlockXRef(BlockXRefV),
    Para(ParaV),
    Preformat { child: Seq<FragmentContentV> },
    Image(ImageV),
    Table(TableV),
}

pub open spec fn fc_view(c: FragmentContent) -> FragmentContentV
    decreases c, 1int,
{
    match c {
        FragmentContent::Text(t) => FragmentContentV::Text(t@),
        FragmentContent::Heading(h) => FragmentContentV::Heading(h@),
        FragmentContent::Block { child } => FragmentContentV::Block { child: fcs_view(child@) },
        FragmentContent::BlockXRef(x) => FragmentContentV::BlockXRef(bxref_view(x)),
        FragmentContent::Para(p) => FragmentContentV::Para(p@),
        FragmentContent::Preformat { child } => FragmentContentV::Preformat {
            child: fcs_view(child@),
        },
        FragmentContent::Image(im) => FragmentContentV::Image(im@),
        FragmentContent::Table(t) => FragmentContentV::Table(table_view(t)),
    }
}

pub open spec fn fcs_view(cs: Seq<FragmentContent>) -> Seq<FragmentContentV>
    decreases cs, 0int,
{
    if cs.len() == 0 {
        Seq::empty()
    } else {
        seq![fc_view(cs[0])] + fcs_view(cs.drop_first())
    }
}

impl View for FragmentContent {
    type V = FragmentContentV;

    open spec fn view(&self) -> FragmentContentV {
        fc_view(*self)
    }
}

pub broadcast proof fn lemma_fcs_view_len(cs: Seq<FragmentContent>)
    ensures
        #[trigger] fcs_view(cs).len() == cs.len(),
    decreases cs,
{
    if cs.len() > 0 {
        lemma_fcs_view_len(cs.drop_first());
    }
}

pub broadcast proof fn lemma_fcs_view_index(cs: Seq<FragmentContent>, k: int)
    requires
        0 <= k < cs.len(),
    ensures
        #[trigger] fcs_view(cs)[k] == fc_view(cs[k]),
    decreases cs,
{
    lemma_fcs_view_len(cs);
    if k > 0 {
        lemma_fcs_view_index(cs.drop_first(), k - 1);
    }
}

pub broadcast proof fn lemma_fcs_view_push(cs: Seq<FragmentContent>, c: FragmentContent)
    ensures
        #[trigger] fcs_view(cs.push(c)) == fcs_view(cs).push(fc_view(c)),
    decreases cs,
{
    let p = cs.push(c);
    if cs.len() == 0 {
        assert(p.drop_first() =~= Seq::<FragmentContent>::empty());
        assert(fcs_view(p) == seq![fc_view(c)] + fcs_view(Seq::<FragmentContent>::empty()));
        assert(fcs_view(p) =~= fcs_view(cs).push(fc_view(c)));
    } else {
        assert(p.drop_first() =~= cs.drop_first().push(c));
        assert(p[0] == cs[0]);
        lemma_fcs_view_push(cs.drop_first(), c);
        assert(fcs_view(p) == seq![fc_view(cs[0])] + fcs_view(cs.drop_first()).push(fc_view(c)));
        assert(fcs_view(p) =~= fcs_view(cs).push(fc_view(c)));
    }
}

pub broadcast proof fn lemma_fcs_view_concat(a: Seq<FragmentContent>, b: Seq<FragmentContent>)
    ensures
        #[trigger] fcs_view(a + b) == fcs_view(a) + fcs_view(b),
    decreases b.len(),
{
    if b.len() == 0 {
        assert(a + b =~= a);
        assert(fcs_view(a) + fcs_view(b) =~= fcs_view(a));
    } else {
        assert(a + b.drop_last() =~= (a + b).drop_last());
        lemma_fcs_view_concat(a, b.drop_last());
        lemma_fcs_view_push(a + b.drop_last(), b.last());
        lemma_fcs_view_push(b.drop_last(), b.last());
        assert((a + b.drop_last()).push(b.last()) =~= a + b);
        assert(b.drop_last().push(b.last()) =~= b);
        assert(fcs_view(a) + fcs_view(b.drop_last()).push(fc_view(b.last())) =~= (fcs_view(a)
            + fcs_view(b.drop_last())).push(fc_view(b.last())));
    }
}

/// A narrative fragment: the smallest addressable unit of block content.
#[derive(Debug, PartialEq, Eq)]
pub struct Fragment {
    /// Id of the fragment.
    pub id: String,
    /// Template type of the fragment.
    pub frag_type: Option<String>,
    /// Labels on this fragment.
    pub labels: Vec<String>,
    /// Contents of the fragment, in document order.
    pub content: Vec<FragmentContent>,
}

/// The mathematical shadow of [`Fragment`].
pub struct FragmentV {
    pub id: Seq<char>,
    pub frag_type: Option<Seq<char>>,
    pub labels: Seq<Seq<char>>,
    pub content: Seq<FragmentContentV>,
}

pub open spec fn frag_view(f: Fragment) -> FragmentV {
    FragmentV {
        id: f.id@,
        frag_type: opt_view(f.frag_type),
        labels: strs_view(f.labels@),
        content: fcs_view(f.content@),
    }
}

impl View for Fragment {
    type V = FragmentV;

    open spec fn view(&self) -> FragmentV {
        frag_view(*self)
    }
}

impl Fragment {
    /// An empty narrative fragment with the given id.
    pub fn new(id: String) -> (r: Fragment)
        ensures
            r@ == (FragmentV {
                id: id@,
                frag_type: None,
                labels: Seq::empty(),
                content: Seq::empty(),
            }),
    {
        let r = Fragment { id, frag_type: None, labels: Vec::new(), content: Vec::new() };
        proof {
            assert(strs_view(r.labels@) =~= Seq::<Seq<char>>::empty());
            assert(fcs_view(r.content@) =~= Seq::<FragmentContentV>::empty());
        }
        r
    }

    /// The same fragment with the given content appended.
    pub fn with_content(self, content: Vec<FragmentContent>) -> (r: Fragment)
        ensures
            r@ == (FragmentV { content: fcs_view(self.content@) + fcs_view(content@), ..self@ }),
    {
        let ghost s0 = self.content@;
        let ghost c0 = content@;
        let mut cs = self.content;
        let mut more = content;
        cs.append(&mut more);
        let r = Fragment { id: self.id, frag_type: self.frag_type, labels: self.labels, content: cs };
        proof {
            lemma_fcs_view_concat(s0, c0);
        }
        r
    }
}

/// Any kind of fragment.
#[derive(Debug, PartialEq, Eq)]
pub enum Fragments {
    Fragment(Fragment),
    Properties(PropertiesFragment),
    Xref(XRefFragment),
    Media(()),
}

// ---------- sections ----------

/// One entry of a section's ordered content.
#[derive(Debug, PartialEq, Eq)]
pub enum SectionContent {
    Fragment(Fragment),
    PropertiesFragment(PropertiesFragment),
    XRefFragment(XRefFragment),
    Media(()),
    Title { text: String },
}

/// The mathematical shadow of [`SectionContent`].
pub enum SectionContentV {
    Fragment(FragmentV),
    PropertiesFragment(PropertiesFragmentV),
    XRefFragment(XRefFragmentV),
    Media(()),
    Title { text: Seq<char> },
}

pub open spec fn sc_view(c: SectionContent) -> SectionContentV {
    match c {
        SectionContent::Fragment(f) => SectionContentV::Fragment(frag_view(f)),
        SectionContent::PropertiesFragment(f) => SectionContentV::PropertiesFragment(pfrag_view(f)),
        SectionContent::XRefFragment(f) => SectionContentV::XRefFragment(xfrag_view(f)),
        SectionContent::Media(u) => SectionContentV::Media(u),
        SectionContent::Title { text } => SectionContentV::Title { text: text@ },
    }
}

pub open spec fn scs_view(cs: Seq<SectionContent>) -> Seq<SectionContentV> {
    cs.map_values(|c: SectionContent| sc_view(c))
}

impl View for SectionContent {
    type V = SectionContentV;

    open spec fn view(&self) -> SectionContentV {
        sc_view(*self)
    }
}

/// The id of one entry of a section's content, for uniqueness of ids within
/// the section. A content title has no id.
pub open spec fn sc_id(c: SectionContentV) -> Option<Seq<char>> {
    match c {
        SectionContentV::Fragment(f) => Some(f.id),
        SectionContentV::PropertiesFragment(f) => Some(f.id),
        SectionContentV::XRefFragment(f) => Some(f.id),
        SectionContentV::Media(_) => None,
        SectionContentV::Title { .. } => None,
    }
}

/// A section: an identified, ordered run of fragments.
#[derive(Debug, PartialEq, Eq)]
pub struct Section {
    /// Id of the section, unique within the owning document.
    pub id: String,
    /// Title of the section in the UI.
    pub title: Option<String>,
    /// Title rendered as the section's first child.
    pub content_title: Option<String>,
    /// Whether fragments of this section can be edited.
    pub edit: bool,
    /// Whether the structure of this section is locked.
    pub lockstructure: bool,
    /// Whether existing fragments are overwritten on upload.
    pub overwrite: bool,
    /// The fragment types this section may contain.
    pub fragment_types: Vec<String>,
    /// The fragments of this section, in document order.
    pub content: Vec<SectionContent>,
}

/// The mathematical shadow of [`Section`].
pub struct SectionV {
    pub id: Seq<char>,
    pub title: Option<Seq<char>>,
    pub content_title: Option<Seq<char>>,
    pub edit: bool,
    pub lockstructure: bool,
    pub overwrite: bool,
    pub fragment_types: Seq<Seq<char>>,
    pub content: Seq<SectionContentV>,
}

pub open spec fn section_view(s: Section) -> SectionV {
    SectionV {
        id: s.id@,
        title: opt_view(s.title),
        content_title: opt_view(s.content_title),
        edit: s.edit,
        lockstructure: s.lockstructure,
        overwrite: s.overwrite,
        fragment_types: strs_view(s.fragment_types@),
        content: scs_view(s.content@),
    }
}

impl View for Section {
    type V = SectionV;

    open spec fn view(&self) -> SectionV {
        section_view(*self)
    }
}

impl Section {
    /// An empty section with the given id and the default flags: editable,
    /// structure unlocked, overwritten on upload.
    pub fn new(id: String) -> (r: Section)
        ensures
            r@ == (SectionV {
                id: id@,
                title: None,
                content_title: None,
                edit: true,
                lockstructure: false,
                overwrite: true,
                fragment_types: Seq::empty(),
                content: Seq::empty(),
            }),
    {
        let r = Section {
            id,
            title: None,
            content_title: None,
            edit: true,
            lockstructure: false,
            overwrite: true,
            fragment_types: Vec::new(),
            content: Vec::new(),
        };
        proof {
            assert(strs_view(r.fragment_types@) =~= Seq::<Seq<char>>::empty());
            assert(scs_view(r.content@) =~= Seq::<SectionContentV>::empty());
        }
        r
    }

    /// Appends one fragment to the section's content.
    pub fn add_fragment(&mut self, fragment: Fragments)
        ensures
            final(self)@ == (SectionV {
                content: old(self)@.content.push(
                    match fragment {
                        Fragments::Fragment(f) => SectionContentV::Fragment(frag_view(f)),
                        Fragments::Properties(f) => SectionContentV::PropertiesFragment(
                            pfrag_view(f),
                        ),
                        Fragments::Xref(f) => SectionContentV::XRefFragment(xfrag_view(f)),
                        Fragments::Media(u) => SectionContentV::Media(u),
                    },
                ),
                ..old(self)@
            }),
    {
        let ghost c0 = self.content@;
        let entry = match fragment {
            Fragments::Fragment(f) => SectionContent::Fragment(f),
            Fragments::Properties(f) => SectionContent::PropertiesFragment(f),
            Fragments::Xref(f) => SectionContent::XRefFragment(f),
            Fragments::Media(u) => SectionContent::Media(u),
        };
        let ghost ev = sc_view(entry);
        self.content.push(entry);
        proof {
            assert(scs_view(self.content@) =~= scs_view(c0).push(ev));
        }
    }

    /// The same section with the given fragments appended in order.
    pub fn with_fragments(self, fragments: Vec<Fragments>) -> (r: Section)
        ensures
            r@.id == self@.id,
            r@.title == self@.title,
            r@.content_title == self@.content_title,
            r@.edit == self@.edit,
            r@.lockstructure == self@.lockstructure,
            r@.overwrite == self@.overwrite,
            r@.fragment_types == self@.fragment_types,
            r@.content.len() == self@.content.len() + fragments@.len(),
            forall|k: int|
                0 <= k < self@.content.len() ==> r@.content[k] == self@.content[k],
            forall|k: int|
                0 <= k < fragments@.len() ==> r@.content[self@.content.len() + k] == (
                match #[trigger] fragments@[k] {
                    Fragments::Fragment(f) => SectionContentV::Fragment(frag_view(f)),
                    Fragments::Properties(f) => SectionContentV::PropertiesFragment(pfrag_view(f)),
                    Fragments::Xref(f) => SectionContentV::XRefFragment(xfrag_view(f)),
                    Fragments::Media(u) => SectionContentV::Media(u),
                }),
    {
        let ghost f0 = fragments@;
        let mut s = self;
        let ghost base = s@.content;
        let mut fragments = fragments;
        let ghost mut i: int = 0;
        while fragments.len() > 0
            invariant
                0 <= i,
                i + fragments@.len() == f0.len(),
                fragments@ == f0.skip(i),
                s@.id == self@.id,
                s@.title == self@.title,
                s@.content_title == self@.content_title,
                s@.edit == self@.edit,
                s@.lockstructure == self@.lockstructure,
                s@.overwrite == self@.overwrite,
                s@.fragment_types == self@.fragment_types,
                base == self@.content,
                s@.content.len() == base.len() + i,
                forall|k: int| 0 <= k < base.len() ==> s@.content[k] == base[k],
                forall|k: int|
                    0 <= k < i ==> s@.content[base.len() + k] == (match #[trigger] f0[k] {
                        Fragments::Fragment(f) => SectionContentV::Fragment(frag_view(f)),
                        Fragments::Properties(f) => SectionContentV::PropertiesFragment(
                            pfrag_view(f),
                        ),
                        Fragments::Xref(f) => SectionContentV::XRefFragment(xfrag_view(f)),
                        Fragments::Media(u) => SectionContentV::Media(u),
                    }),
            decreases fragments@.len(),
        {
            let f = fragments.remove(0);
            proof {
                assert(f0.skip(i).remove(0) =~= f0.skip(i + 1));
                assert(f == f0[i]);
            }
            s.add_fragment(f);
            proof {
                i = i + 1;
            }
        }
        proof {
            assert(f0.skip(f0.len() as int) =~= Seq::<Fragments>::empty());
        }
        s
    }
}

// ---------- documents ----------

/// Describes the publication a document belongs to.
#[derive(Debug, Clone, PartialEq, Eq)]
pub struct Publication {
    /// Publication id.
    pub id: String,
    /// Publication type.
    pub pub_type: Option<String>,
}

/// The mathematical shadow of [`Publication`].
pub struct PublicationV {
    pub id: Seq<char>,
    pub pub_type: Option<Seq<char>>,
}

impl View for Publication {
    type V = PublicationV;

    open spec fn view(&self) -> PublicationV {
        PublicationV { id: self.id@, pub_type: opt_view(self.pub_type) }
    }
}

/// A short text-only description of a document.
#[derive(Debug, Clone, PartialEq, Eq)]
pub struct Description {
    pub value: String,
}

/// A comma-separated list of label values.
#[derive(Debug, Clone, PartialEq, Eq)]
pub struct Labels {
    pub value: String,
}

/// Previous content of a fragment, kept when comparing.
#[derive(Debug, Clone, PartialEq, Eq)]
pub struct Content {
    pub value: String,
}

/// The note on the last notification of a fragment.
#[derive(Debug, Clone, PartialEq, Eq)]
pub struct Note {
    pub id: Option<String>,
    /// Title of the note.
    pub title: Option<String>,
    /// When this note was last modified.
    pub modified: String,
    /// Labels on this note.
    pub labels: Labels,
    /// Content of this note.
    pub content: Content,
}

/// The mathematical shadow of [`Note`].
pub struct NoteV {
    pub id: Option<Seq<char>>,
    pub title: Option<Seq<char>>,
    pub modified: Seq<char>,
    pub labels: Seq<char>,
    pub content: Seq<char>,
}

pub open spec fn note_view(n: Note) -> NoteV {
    NoteV {
        id: opt_view(n.id),
        title: opt_view(n.title),
        modified: n.modified@,
        labels: n.labels.value@,
        content: n.content.value@,
    }
}

impl View for Note {
    type V = NoteV;

    open spec fn view(&self) -> NoteV {
        note_view(*self)
    }
}

/// The notes on the last notification of a fragment.
#[derive(Debug, Clone, PartialEq, Eq)]
pub struct Notes {
    pub notes: Vec<Note>,
}

/// Metadata locating one fragment.
#[derive(Debug, Clone, PartialEq, Eq)]
pub struct Locator {
    /// Id of the fragment located.
    pub fragment_id: Option<String>,
    /// Notes on this fragment.
    pub notes: Option<Notes>,
}

/// The mathematical shadow of [`Locator`].
pub struct LocatorV {
    pub fragment_id: Option<Seq<char>>,
    pub notes: Option<Seq<NoteV>>,
}

pub open spec fn notes_view(ns: Seq<Note>) -> Seq<NoteV> {
    ns.map_values(|n: Note| note_view(n))
}

pub open spec fn locator_view(l: Locator) -> LocatorV {
    LocatorV {
        fragment_id: opt_view(l.fragment_id),
        notes: match l.notes {
            Some(ns) => Some(notes_view(ns.notes@)),
            None => None,
        },
    }
}

impl View for Locator {
    type V = LocatorV;

    open spec fn view(&self) -> LocatorV {
        locator_view(*self)
    }
}

/// Fragment metadata of a whole document.
#[derive(Debug, Clone, PartialEq, Eq)]
pub struct FragmentInfo {
    pub value: Vec<Locator>,
}

/// Metadata about a document's URI.
#[derive(Debug, Clone, PartialEq, Eq)]
pub struct URIDescriptor {
    /// Docid of the document.
    pub docid: Option<String>,
    /// Type of the document.
    pub doc_type: Option<String>,
    /// Title of the document.
    pub title: Option<String>,
    /// Whether this URI is a folder.
    pub folder: Option<bool>,
    /// Description of the document.
    pub description: Option<Description>,
    /// Labels on the document.
    pub labels: Option<Labels>,
}

/// The mathematical shadow of [`URIDescriptor`].
pub struct URIDescriptorV {
    pub docid: Option<Seq<char>>,
    pub doc_type: Option<Seq<char>>,
    pub title: Option<Seq<char>>,
    pub folder: Option<bool>,
    pub description: Option<Seq<char>>,
    pub labels: Option<Seq<char>>,
}

pub open spec fn uri_view(u: URIDescriptor) -> URIDescriptorV {
    URIDescriptorV {
        docid: opt_view(u.docid),
        doc_type: opt_view(u.doc_type),
        title: opt_view(u.title),
        folder: u.folder,
        description: match u.description {
            Some(d) => Some(d.value@),
            None => None,
        },
        labels: match u.labels {
            Some(l) => Some(l.value@),
            None => None,
        },
    }
}

impl View for URIDescriptor {
    type V = URIDescriptorV;

    open spec fn view(&self) -> URIDescriptorV {
        uri_view(*self)
    }
}

/// Metadata about a document.
#[derive(Debug, Clone, PartialEq, Eq)]
pub struct DocumentInfo {
    /// The document's URI descriptor.
    pub uri: Option<URIDescriptor>,
    /// The document's publication descriptor.
    pub publication: Option<Publication>,
}

/// The mathematical shadow of [`DocumentInfo`].
pub struct DocumentInfoV {
    pub uri: Option<URIDescriptorV>,
    pub publication: Option<PublicationV>,
}

pub open spec fn docinfo_view(d: DocumentInfo) -> DocumentInfoV {
    DocumentInfoV {
        uri: match d.uri {
            Some(u) => Some(uri_view(u)),
            None => None,
        },
        publication: match d.publication {
            Some(p) => Some(p@),
            None => None,
        },
    }
}

impl View for DocumentInfo {
    type V = DocumentInfoV;

    open spec fn view(&self) -> DocumentInfoV {
        docinfo_view(*self)
    }
}

/// How processed a document is.
#[derive(Debug, Clone, Copy, PartialEq, Eq, Structural)]
pub enum DocumentLevel {
    Metadata,
    Portable,
    Processed,
}

pub open spec fn sp_level_str(k: DocumentLevel) -> Seq<char> {
    match k {
        DocumentLevel::Metadata => "metadata"@,
        DocumentLevel::Portable => "portable"@,
        DocumentLevel::Processed => "processed"@,
    }
}

pub open spec fn sp_level_of(v: Seq<char>) -> Option<DocumentLevel> {
    if v == "metadata"@ {
        Some(DocumentLevel::Metadata)
    } else if v == "portable"@ {
        Some(DocumentLevel::Portable)
    } else if v == "processed"@ {
        Some(DocumentLevel::Processed)
    } else {
        None
    }
}

impl DocumentLevel {
    /// The wire literal of this level.
    pub fn to_str(&self) -> (r: &str)
        ensures
            r@ == sp_level_str(*self),
    {
        match self {
            DocumentLevel::Metadata => "metadata",
            DocumentLevel::Portable => "portable",
            DocumentLevel::Processed => "processed",
        }
    }

    /// The level a wire literal names; any other value is refused.
    pub fn from_str(s: &str) -> (r: Result<DocumentLevel, DecodeError>)
        ensures
            match r {
                Ok(k) => sp_level_of(s@) == Some(k),
                Err(e) => sp_level_of(s@) is None && match e@ {
                    crate::error::DecodeErrorView::MalformedAttributeValue { attr, value } => attr == "level"@ && value == s@,
                    _ => false,
                },
            },
    {
        let v = crate::chars::str_to_chars(s);
        if crate::chars::chars_eq_str(&v, "metadata") {
            Ok(DocumentLevel::Metadata)
        } else if crate::chars::chars_eq_str(&v, "portable") {
            Ok(DocumentLevel::Portable)
        } else if crate::chars::chars_eq_str(&v, "processed") {
            Ok(DocumentLevel::Processed)
        } else {
            Err(
                DecodeError::MalformedAttributeValue {
                    attr: String::from_str("level"),
                    value: s.to_owned(),
                },
            )
        }
    }
}

pub proof fn lemma_level_round_trip(k: DocumentLevel)
    ensures
        sp_level_of(sp_level_str(k)) == Some(k),
{
    broadcast use vstd::string::group_string_axioms;

    reveal_strlit("metadata");
    reveal_strlit("portable");
    reveal_strlit("processed");
    assert("metadata"@.len() == 8);
    assert("metadata"@[0] == 'm');
    assert("portable"@.len() == 8);
    assert("portable"@[0] == 'p');
    assert("processed"@.len() == 9);
    assert("processed"@[0] == 'p');
}

/// A whole document: metadata, fragment locators and ordered sections.
#[derive(Debug, PartialEq, Eq)]
pub struct Document {
    /// Metadata about the document.
    pub doc_info: Option<DocumentInfo>,
    /// Fragment metadata.
    pub frag_info: Vec<Locator>,
    /// The sections of the document, in order.
    pub sections: Vec<Section>,
    /// Type of the document.
    pub doc_type: Option<String>,
    /// Whether the document can be edited.
    pub edit: Option<bool>,
    /// How processed the document is.
    pub level: DocumentLevel,
    /// Whether the document structure is locked.
    pub lockstructure: Option<bool>,
}

/// The mathematical shadow of [`Document`].
pub struct DocumentV {
    pub doc_info: Option<DocumentInfoV>,
    pub frag_info: Seq<LocatorV>,
    pub sections: Seq<SectionV>,
    pub doc_type: Option<Seq<char>>,
    pub edit: Option<bool>,
    pub level: DocumentLevel,
    pub lockstructure: Option<bool>,
}

pub open spec fn locators_view(ls: Seq<Locator>) -> Seq<LocatorV> {
    ls.map_values(|l: Locator| locator_view(l))
}

pub open spec fn sections_view(ss: Seq<Section>) -> Seq<SectionV> {
    ss.map_values(|s: Section| section_view(s))
}

pub open spec fn doc_view(d: Document) -> DocumentV {
    DocumentV {
        doc_info: match d.doc_info {
            Some(i) => Some(docinfo_view(i)),
            None => None,
        },
        frag_info: locators_view(d.frag_info@),
        sections: sections_view(d.sections@),
        doc_type: opt_view(d.doc_type),
        edit: d.edit,
        level: d.level,
        lockstructure: d.lockstructure,
    }
}

impl View for Document {
    type V = DocumentV;

    open spec fn view(&self) -> DocumentV {
        doc_view(*self)
    }
}

impl Default for Document {
    /// An empty portable document.
    fn default() -> (r: Document)
        ensures
            r@ == (DocumentV {
                doc_info: None,
                frag_info: Seq::empty(),
                sections: Seq::empty(),
                doc_type: None,
                edit: None,
                level: DocumentLevel::Portable,
                lockstructure: None,
            }),
    {
        let r = Document {
            doc_info: None,
            frag_info: Vec::new(),
            sections: Vec::new(),
            doc_type: None,
            edit: None,
            level: DocumentLevel::Portable,
            lockstructure: None,
        };
        proof {
            assert(locators_view(r.frag_info@) =~= Seq::<LocatorV>::empty());
            assert(sections_view(r.sections@) =~= Seq::<SectionV>::empty());
        }
        r
    }
}

impl Document {
    /// The docid of the document, where its metadata carries one.
    pub fn docid(&self) -> (r: Option<&String>)
        ensures
            match r {
                Some(d) => self@.doc_info matches Some(i) && i.uri matches Some(u) && u.docid
                    == Some(d@),
                None => match self@.doc_info {
                    Some(i) => match i.uri {
                        Some(u) => u.docid is None,
                        None => true,
                    },
                    None => true,
                },
            },
    {
        match &self.doc_info {
            Some(doc_info) => match &doc_info.uri {
                Some(uri) => match &uri.docid {
                    Some(docid) => Some(docid),
                    None => None,
                },
                None => None,
            },
            None => None,
        }
    }

    /// The first section carrying the given id, where there is one.
    pub fn get_section(&self, id: &str) -> (r: Option<&Section>)
        ensures
            match r {
                Some(sec) => exists|k: int|
                    0 <= k < self.sections@.len() && self.sections@[k] == *sec
                        && self.sections@[k].id@ == id@,
                None => forall|k: int|
                    0 <= k < self.sections@.len() ==> (#[trigger] self.sections@[k]).id@ != id@,
            },
    {
        let idc = crate::chars::str_to_chars(id);
        let mut k: usize = 0;
        while k < self.sections.len()
            invariant
                k <= self.sections@.len(),
                idc@ == id@,
                forall|j: int|
                    0 <= j < k as int ==> (#[trigger] self.sections@[j]).id@ != id@,
            decreases self.sections@.len() - k,
        {
            let sec = &self.sections[k];
            proof {
                assert(*sec == self.sections@[k as int]);
            }
            let sid = sec.id.as_str();
            let sc = crate::chars::str_to_chars(sid);
            proof {
                assert(sc@ == sec.id@);
            }
            if crate::chars::chars_eq(&sc, &idc) {
                proof {
                    assert(self.sections@[k as int].id@ == id@);
                }
                return Some(sec);
            }
            proof {
                assert(self.sections@[k as int].id@ != id@);
            }
            k = k + 1;
        }
        None
    }
}

} // verus!
