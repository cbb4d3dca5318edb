//! The inline content grammar: character styles nested arbitrarily deep,
//! paragraphs, headings and images.

use vstd::prelude::*;
use crate::model::{XRef, XRefV, xref_view};

verus! {

/// Bold inline content.
#[derive(Debug, PartialEq, Eq)]
pub struct Bold {
    pub content: Vec<CharacterStyle>,
}

/// Italic inline content.
#[derive(Debug, PartialEq, Eq)]
pub struct Italic {
    pub content: Vec<CharacterStyle>,
}

/// Underlined inline content.
#[derive(Debug, PartialEq, Eq)]
pub struct Underline {
    pub content: Vec<CharacterStyle>,
}

/// Subscript inline content.
#[derive(Debug, PartialEq, Eq)]
pub struct Subscript {
    pub content: Vec<CharacterStyle>,
}

/// Superscript inline content.
#[derive(Debug, PartialEq, Eq)]
pub struct Superscript {
    pub content: Vec<CharacterStyle>,
}

/// Monospaced inline content.
#[derive(Debug, PartialEq, Eq)]
pub struct Monospace {
    pub content: Vec<CharacterStyle>,
}

/// An inline link.
#[derive(Debug, PartialEq, Eq)]
pub struct Link {
    pub content: Vec<CharacterStyle>,
}

/// One piece of inline content: plain text, a styled run of further inline
/// content, an inline cross-reference, or an inline link.
#[derive(Debug, PartialEq, Eq)]
pub enum CharacterStyle {
    Text(String),
    Bold(Bold),
    Italic(Italic),
    Underline(Underline),
    Subscript(Subscript),
    Superscript(Superscript),
    Monospace(Monospace),
    XRef(Box<XRef>),
    Link(Link),
}

/// The mathematical shadow of [`CharacterStyle`]: each styled run is its
/// child sequence.
pub enum CharacterStyleV {
    Text(Seq<char>),
    Bold(Seq<CharacterStyleV>),
    Italic(Seq<CharacterStyleV>),
    Underline(Seq<CharacterStyleV>),
    Subscript(Seq<CharacterStyleV>),
    Superscript(Seq<CharacterStyleV>),
    Monospace(Seq<CharacterStyleV>),
    XRef(XRefV),
    Link(Seq<CharacterStyleV>),
}

pub open spec fn cs_view(c: CharacterStyle) -> CharacterStyleV
    decreases c, 1int,
{
    match c {
        CharacterStyle::Text(t) => CharacterStyleV::Text(t@),
        CharacterStyle::Bold(b) => CharacterStyleV::Bold(css_view(b.content@)),
        CharacterStyle::Italic(b) => CharacterStyleV::Italic(css_view(b.content@)),
        CharacterStyle::Underline(b) => CharacterStyleV::Underline(css_view(b.content@)),
        CharacterStyle::Subscript(b) => CharacterStyleV::Subscript(css_view(b.content@)),
        CharacterStyle::Superscript(b) => CharacterStyleV::Superscript(css_view(b.content@)),
        CharacterStyle::Monospace(b) => CharacterStyleV::Monospace(css_view(b.content@)),
        CharacterStyle::XRef(x) => CharacterStyleV::XRef(xref_view(*x)),
        CharacterStyle::Link(b) => CharacterStyleV::Link(css_view(b.content@)),
    }
}

pub open spec fn css_view(cs: Seq<CharacterStyle>) -> Seq<CharacterStyleV>
    decreases cs, 0int,
{
    if cs.len() == 0 {
        Seq::empty()
    } else {
        seq![cs_view(cs[0])] + css_view(cs.drop_first())
    }
}

impl View for CharacterStyle {
    type V = CharacterStyleV;

    open spec fn view(&self) -> CharacterStyleV {
        cs_view(*self)
    }
}

pub broadcast proof fn lemma_css_view_len(cs: Seq<CharacterStyle>)
    ensures
        #[trigger] css_view(cs).len() == cs.len(),
    decreases cs,
{
    if cs.len() > 0 {
        lemma_css_view_len(cs.drop_first());
    }
}

pub broadcast proof fn lemma_css_view_index(cs: Seq<CharacterStyle>, k: int)
    requires
        0 <= k < cs.len(),
    ensures
        #[trigger] css_view(cs)[k] == cs_view(cs[k]),
    decreases cs,
{
    lemma_css_view_len(cs);
    if k > 0 {
        lemma_css_view_index(cs.drop_first(), k - 1);
    }
}

pub broadcast proof fn lemma_css_view_push(cs: Seq<CharacterStyle>, c: CharacterStyle)
    ensures
        #[trigger] css_view(cs.push(c)) == css_view(cs).push(cs_view(c)),
    decreases cs,
{
    let p = cs.push(c);
    if cs.len() == 0 {
        assert(p.drop_first() =~= Seq::<CharacterStyle>::empty());
        assert(css_view(p) == seq![cs_view(c)] + css_view(Seq::<CharacterStyle>::empty()));
        assert(css_view(p) =~= css_view(cs).push(cs_view(c)));
    } else {
        assert(p.drop_first() =~= cs.drop_first().push(c));
        assert(p[0] == cs[0]);
        lemma_css_view_push(cs.drop_first(), c);
        assert(css_view(p) == seq![cs_view(cs[0])] + css_view(cs.drop_first()).push(cs_view(c)));
        assert(css_view(p) =~= css_view(cs).push(cs_view(c)));
    }
}

impl Bold {
    /// A bold run holding the given content.
    pub fn new(content: Vec<CharacterStyle>) -> (r: Self)
        ensures
            css_view(r.content@) == css_view(content@),
    {
        Bold { content }
    }

    /// A bold run holding one plain text node.
    pub fn text(text: String) -> (r: Self)
        ensures
            css_view(r.content@) == seq![CharacterStyleV::Text(text@)],
    {
        let ghost t = text@;
        let content = vec![CharacterStyle::Text(text)];
        proof {
            assert(content@.drop_first() =~= Seq::<CharacterStyle>::empty());
            assert(css_view(content@) == seq![cs_view(content@[0])] + css_view(
                content@.drop_first(),
            ));
            assert(cs_view(content@[0]) == CharacterStyleV::Text(t));
            assert(css_view(content@) =~= seq![CharacterStyleV::Text(t)]);
        }
        Bold { content }
    }
}

impl Italic {
    /// An italic run holding the given content.
    pub fn new(content: Vec<CharacterStyle>) -> (r: Self)
        ensures
            css_view(r.content@) == css_view(content@),
    {
        Italic { content }
    }

    /// An italic run holding one plain text node.
    pub fn text(text: String) -> (r: Self)
        ensures
            css_view(r.content@) == seq![CharacterStyleV::Text(text@)],
    {
        let ghost t = text@;
        let content = vec![CharacterStyle::Text(text)];
        proof {
            assert(content@.drop_first() =~= Seq::<CharacterStyle>::empty());
            assert(css_view(content@) == seq![cs_view(content@[0])] + css_view(
                content@.drop_first(),
            ));
            assert(cs_view(content@[0]) == CharacterStyleV::Text(t));
            assert(css_view(content@) =~= seq![CharacterStyleV::Text(t)]);
        }
        Italic { content }
    }
}

impl Underline {
    /// An underlined run holding the given content.
    pub fn new(content: Vec<CharacterStyle>) -> (r: Self)
        ensures
            css_view(r.content@) == css_view(content@),
    {
        Underline { content }
    }

    /// An underlined run holding one plain text node.
    pub fn text(text: String) -> (r: Self)
        ensures
            css_view(r.content@) == seq![CharacterStyleV::Text(text@)],
    {
        let ghost t = text@;
        let content = vec![CharacterStyle::Text(text)];
        proof {
            assert(content@.drop_first() =~= Seq::<CharacterStyle>::empty());
            assert(css_view(content@) == seq![cs_view(content@[0])] + css_view(
                content@.drop_first(),
            ));
            assert(cs_view(content@[0]) == CharacterStyleV::Text(t));
            assert(css_view(content@) =~= seq![CharacterStyleV::Text(t)]);
        }
        Underline { content }
    }
}

impl Subscript {
    /// A subscript run holding the given content.
    pub fn new(content: Vec<CharacterStyle>) -> (r: Self)
        ensures
            css_view(r.content@) == css_view(content@),
    {
        Subscript { content }
    }

    /// A subscript run holding one plain text node.
    pub fn text(text: String) -> (r: Self)
        ensures
            css_view(r.content@) == seq![CharacterStyleV::Text(text@)],
    {
        let ghost t = text@;
        let content = vec![CharacterStyle::Text(text)];
        proof {
            assert(content@.drop_first() =~= Seq::<CharacterStyle>::empty());
            assert(css_view(content@) == seq![cs_view(content@[0])] + css_view(
                content@.drop_first(),
            ));
            assert(cs_view(content@[0]) == CharacterStyleV::Text(t));
            assert(css_view(content@) =~= seq![CharacterStyleV::Text(t)]);
        }
        Subscript { content }
    }
}

impl Superscript {
    /// A superscript run holding the given content.
    pub fn new(content: Vec<CharacterStyle>) -> (r: Self)
        ensures
            css_view(r.content@) == css_view(content@),
    {
        Superscript { content }
    }

    /// A superscript run holding one plain text node.
    pub fn text(text: String) -> (r: Self)
        ensures
            css_view(r.content@) == seq![CharacterStyleV::Text(text@)],
    {
        let ghost t = text@;
        let content = vec![CharacterStyle::Text(text)];
        proof {
            assert(content@.drop_first() =~= Seq::<CharacterStyle>::empty());
            assert(css_view(content@) == seq![cs_view(content@[0])] + css_view(
                content@.drop_first(),
            ));
            assert(cs_view(content@[0]) == CharacterStyleV::Text(t));
            assert(css_view(content@) =~= seq![CharacterStyleV::Text(t)]);
        }
        Superscript { content }
    }
}

impl Monospace {
    /// A monospaced run holding the given content.
    pub fn new(content: Vec<CharacterStyle>) -> (r: Self)
        ensures
            css_view(r.content@) == css_view(content@),
    {
        Monospace { content }
    }

    /// A monospaced run holding one plain text node.
    pub fn text(text: String) -> (r: Self)
        ensures
            css_view(r.content@) == seq![CharacterStyleV::Text(text@)],
    {
        let ghost t = text@;
        let content = vec![CharacterStyle::Text(text)];
        proof {
            assert(content@.drop_first() =~= Seq::<CharacterStyle>::empty());
            assert(css_view(content@) == seq![cs_view(content@[0])] + css_view(
                content@.drop_first(),
            ));
            assert(cs_view(content@[0]) == CharacterStyleV::Text(t));
            assert(css_view(content@) =~= seq![CharacterStyleV::Text(t)]);
        }
        Monospace { content }
    }
}

impl Link {
    /// A link holding the given content.
    pub fn new(content: Vec<CharacterStyle>) -> (r: Self)
        ensures
            css_view(r.content@) == css_view(content@),
    {
        Link { content }
    }

    /// A link holding one plain text node.
    pub fn text(text: String) -> (r: Self)
        ensures
            css_view(r.content@) == seq![CharacterStyleV::Text(text@)],
    {
        let ghost t = text@;
        let content = vec![CharacterStyle::Text(text)];
        proof {
            assert(content@.drop_first() =~= Seq::<CharacterStyle>::empty());
            assert(css_view(content@) == seq![cs_view(content@[0])] + css_view(
                content@.drop_first(),
            ));
            assert(cs_view(content@[0]) == CharacterStyleV::Text(t));
            assert(css_view(content@) =~= seq![CharacterStyleV::Text(t)]);
        }
        Link { content }
    }
}

/// A reference to an image: at least one of `src`, `docid` and `uriid` is
/// expected, though not structurally enforced.
#[derive(Debug, Clone, PartialEq, Eq)]
pub struct Image {
    pub src: Option<String>,
    pub docid: Option<String>,
    pub uriid: Option<String>,
    pub labels: Option<String>,
    pub height: Option<u64>,
    pub width: Option<u64>,
    pub alt: Option<String>,
}

/// The mathematical shadow of [`Image`].
pub struct ImageV {
    pub src: Option<Seq<char>>,
    pub docid: Option<Seq<char>>,
    pub uriid: Option<Seq<char>>,
    pub labels: Option<Seq<char>>,
    pub height: Option<u64>,
    pub width: Option<u64>,
    pub alt: Option<Seq<char>>,
}

pub open spec fn opt_view(o: Option<String>) -> Option<Seq<char>> {
    match o {
        Some(s) => Some(s@),
        None => None,
    }
}

impl View for Image {
    type V = ImageV;

    open spec fn view(&self) -> ImageV {
        ImageV {
            src: opt_view(self.src),
            docid: opt_view(self.docid),
            uriid: opt_view(self.uriid),
            labels: opt_view(self.labels),
            height: self.height,
            width: self.width,
            alt: opt_view(self.alt),
        }
    }
}

/// One piece of paragraph content: the inline grammar plus images.
#[derive(Debug, PartialEq, Eq)]
pub enum ParaContent {
    Text(String),
    Bold(Bold),
    Italic(Italic),
    Underline(Underline),
    Subscript(Subscript),
    Superscript(Superscript),
    Monospace(Monospace),
    XRef(XRef),
    Link(Link),
    Image(Image),
}

/// The mathematical shadow of [`ParaContent`].
pub enum ParaContentV {
    Text(Seq<char>),
    Bold(Seq<CharacterStyleV>),
    Italic(Seq<CharacterStyleV>),
    Underline(Seq<CharacterStyleV>),
    Subscript(Seq<CharacterStyleV>),
    Superscript(Seq<CharacterStyleV>),
    Monospace(Seq<CharacterStyleV>),
    XRef(XRefV),
    Link(Seq<CharacterStyleV>),
    Image(ImageV),
}

pub open spec fn pc_view(c: ParaContent) -> ParaContentV {
    match c {
        ParaContent::Text(t) => ParaContentV::Text(t@),
        ParaContent::Bold(b) => ParaContentV::Bold(css_view(b.content@)),
        ParaContent::Italic(b) => ParaContentV::Italic(css_view(b.content@)),
        ParaContent::Underline(b) => ParaContentV::Underline(css_view(b.content@)),
        ParaContent::Subscript(b) => ParaContentV::Subscript(css_view(b.content@)),
        ParaContent::Superscript(b) => ParaContentV::Superscript(css_view(b.content@)),
        ParaContent::Monospace(b) => ParaContentV::Monospace(css_view(b.content@)),
        ParaContent::XRef(x) => ParaContentV::XRef(xref_view(x)),
        ParaContent::Link(b) => ParaContentV::Link(css_view(b.content@)),
        ParaContent::Image(im) => ParaContentV::Image(im@),
    }
}

pub open spec fn pcs_view(cs: Seq<ParaContent>) -> Seq<ParaContentV>
    decreases cs,
{
    if cs.len() == 0 {
        Seq::empty()
    } else {
        seq![pc_view(cs[0])] + pcs_view(cs.drop_first())
    }
}

impl View for ParaContent {
    type V = ParaContentV;

    open spec fn view(&self) -> ParaContentV {
        pc_view(*self)
    }
}

pub broadcast proof fn lemma_pcs_view_len(cs: Seq<ParaContent>)
    ensures
        #[trigger] pcs_view(cs).len() == cs.len(),
    decreases cs,
{
    if cs.len() > 0 {
        lemma_pcs_view_len(cs.drop_first());
    }
}

pub broadcast proof fn lemma_pcs_view_index(cs: Seq<ParaContent>, k: int)
    requires
        0 <= k < cs.len(),
    ensures
        #[trigger] pcs_view(cs)[k] == pc_view(cs[k]),
    decreases cs,
{
    lemma_pcs_view_len(cs);
    if k > 0 {
        lemma_pcs_view_index(cs.drop_first(), k - 1);
    }
}

pub broadcast proof fn lemma_pcs_view_push(cs: Seq<ParaContent>, c: ParaContent)
    ensures
        #[trigger] pcs_view(cs.push(c)) == pcs_view(cs).push(pc_view(c)),
    decreases cs,
{
    let p = cs.push(c);
    if cs.len() == 0 {
        assert(p.drop_first() =~= Seq::<ParaContent>::empty());
        assert(pcs_view(p) == seq![pc_view(c)] + pcs_view(Seq::<ParaContent>::empty()));
        assert(pcs_view(p) =~= pcs_view(cs).push(pc_view(c)));
    } else {
        assert(p.drop_first() =~= cs.drop_first().push(c));
        assert(p[0] == cs[0]);
        lemma_pcs_view_push(cs.drop_first(), c);
        assert(pcs_view(p) == seq![pc_view(cs[0])] + pcs_view(cs.drop_first()).push(pc_view(c)));
        assert(pcs_view(p) =~= pcs_view(cs).push(pc_view(c)));
    }
}

/// A paragraph: optional indent, numbering and prefix, and its content.
#[derive(Debug, PartialEq, Eq)]
pub struct Para {
    pub indent: Option<u8>,
    pub numbered: Option<bool>,
    pub prefix: Option<String>,
    pub content: Vec<ParaContent>,
}

/// The mathematical shadow of [`Para`].
pub struct ParaV {
    pub indent: Option<u8>,
    pub numbered: Option<bool>,
    pub prefix: Option<Seq<char>>,
    pub content: Seq<ParaContentV>,
}

impl View for Para {
    type V = ParaV;

    open spec fn view(&self) -> ParaV {
        ParaV {
            indent: self.indent,
            numbered: self.numbered,
            prefix: opt_view(self.prefix),
            content: pcs_view(self.content@),
        }
    }
}

impl Para {
    /// A paragraph with the given content and no indent, numbering or prefix.
    pub fn new(content: Vec<ParaContent>) -> (r: Self)
        ensures
            r@ == (ParaV {
                indent: None,
                numbered: None,
                prefix: None,
                content: pcs_view(content@),
            }),
    {
        Para { indent: None, numbered: None, prefix: None, content }
    }
}

/// The level a heading carries when its markup names none.
pub fn default_heading_level() -> (r: u8)
    ensures
        r == 1,
{
    1
}

/// A heading: a numeric level and inline content.
#[derive(Debug, PartialEq, Eq)]
pub struct Heading {
    pub level: u8,
    pub content: Vec<CharacterStyle>,
}

/// The mathematical shadow of [`Heading`].
pub struct HeadingV {
    pub level: u8,
    pub content: Seq<CharacterStyleV>,
}

impl View for Heading {
    type V = HeadingV;

    open spec fn view(&self) -> HeadingV {
        HeadingV { level: self.level, content: css_view(self.content@) }
    }
}

/// Horizontal alignment of table columns, rows and cells.
#[derive(Debug, Clone, Copy, PartialEq, Eq, Structural)]
pub enum Alignment {
    Left,
    Center,
    Right,
    Justify,
}

} // verus!
