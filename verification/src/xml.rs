//! The generic markup tree underneath the document model: elements with
//! named attributes and ordered children, and runs of character data.
//!
//! [`write_node`] turns a tree back into marked-up text, escaping character
//! data with the five standard entities; the lexer in this module inverts it.
//! The codec in [`crate::ser`] maps between this tree and the typed document
//! model, so that every grammar rule is a statement about plain data.

use vstd::prelude::*;
use crate::error::{DecodeError, DecodeErrorView};

verus! {

// ---------- the tree ----------

/// One attribute of an element: a name and an unescaped value.
#[derive(Debug, Clone, PartialEq, Eq)]
pub struct XmlAttr {
    pub name: Vec<char>,
    pub value: Vec<char>,
}

/// An element: a name, attributes in writing order, children in document
/// order.
#[derive(Debug, PartialEq, Eq)]
pub struct XmlElem {
    pub name: Vec<char>,
    pub attrs: Vec<XmlAttr>,
    pub children: Vec<XmlNode>,
}

/// A node of the tree: an element, or a run of unescaped character data.
#[derive(Debug, PartialEq, Eq)]
pub enum XmlNode {
    Elem(XmlElem),
    Text(Vec<char>),
}

/// The mathematical shadow of [`XmlAttr`].
pub struct XmlAttrV {
    pub name: Seq<char>,
    pub value: Seq<char>,
}

/// The mathematical shadow of [`XmlElem`].
pub struct XmlElemV {
    pub name: Seq<char>,
    pub attrs: Seq<XmlAttrV>,
    pub children: Seq<XmlNodeV>,
}

/// The mathematical shadow of [`XmlNode`].
pub enum XmlNodeV {
    Elem(XmlElemV),
    Text(Seq<char>),
}

impl View for XmlAttr {
    type V = XmlAttrV;

    open spec fn view(&self) -> XmlAttrV {
        XmlAttrV { name: self.name@, value: self.value@ }
    }
}

pub open spec fn attrs_view(attrs: Seq<XmlAttr>) -> Seq<XmlAttrV> {
    attrs.map_values(|a: XmlAttr| a@)
}

pub open spec fn node_view(n: XmlNode) -> XmlNodeV
    decreases n,
{
    match n {
        XmlNode::Text(t) => XmlNodeV::Text(t@),
        XmlNode::Elem(e) => XmlNodeV::Elem(
            XmlElemV { name: e.name@, attrs: attrs_view(e.attrs@), children: nodes_view(e.children@) },
        ),
    }
}

pub open spec fn nodes_view(ns: Seq<XmlNode>) -> Seq<XmlNodeV>
    decreases ns,
{
    if ns.len() == 0 {
        Seq::empty()
    } else {
        seq![node_view(ns[0])] + nodes_view(ns.drop_first())
    }
}

impl View for XmlNode {
    type V = XmlNodeV;

    open spec fn view(&self) -> XmlNodeV {
        node_view(*self)
    }
}

impl View for XmlElem {
    type V = XmlElemV;

    open spec fn view(&self) -> XmlElemV {
        XmlElemV { name: self.name@, attrs: attrs_view(self.attrs@), children: nodes_view(self.children@) }
    }
}

pub broadcast proof fn lemma_attrs_view_len(attrs: Seq<XmlAttr>)
    ensures
        #[trigger] attrs_view(attrs).len() == attrs.len(),
{
}

pub broadcast proof fn lemma_attrs_view_push(s: Seq<XmlAttr>, a: XmlAttr)
    ensures
        #[trigger] attrs_view(s.push(a)) == attrs_view(s).push(a@),
{
    assert(attrs_view(s.push(a)) =~= attrs_view(s).push(a@));
}

pub broadcast proof fn lemma_nodes_view_len(ns: Seq<XmlNode>)
    ensures
        #[trigger] nodes_view(ns).len() == ns.len(),
    decreases ns,
{
    if ns.len() > 0 {
        lemma_nodes_view_len(ns.drop_first());
    }
}

pub broadcast proof fn lemma_nodes_view_index(ns: Seq<XmlNode>, k: int)
    requires
        0 <= k < ns.len(),
    ensures
        #[trigger] nodes_view(ns)[k] == node_view(ns[k]),
    decreases ns,
{
    lemma_nodes_view_len(ns);
    if k > 0 {
        lemma_nodes_view_index(ns.drop_first(), k - 1);
    }
}

pub broadcast proof fn lemma_nodes_view_push(ns: Seq<XmlNode>, n: XmlNode)
    ensures
        #[trigger] nodes_view(ns.push(n)) == nodes_view(ns).push(node_view(n)),
    decreases ns,
{
    let p = ns.push(n);
    if ns.len() == 0 {
        assert(p.drop_first() =~= Seq::<XmlNode>::empty());
        assert(nodes_view(p) == seq![node_view(n)] + nodes_view(Seq::<XmlNode>::empty()));
        assert(nodes_view(p) =~= nodes_view(ns).push(node_view(n)));
    } else {
        assert(p.drop_first() =~= ns.drop_first().push(n));
        assert(p[0] == ns[0]);
        lemma_nodes_view_push(ns.drop_first(), n);
        assert(nodes_view(p) == seq![node_view(ns[0])] + nodes_view(ns.drop_first()).push(
            node_view(n),
        ));
        assert(nodes_view(p) =~= nodes_view(ns).push(node_view(n)));
    }
}

pub broadcast proof fn lemma_nodes_view_concat(a: Seq<XmlNode>, b: Seq<XmlNode>)
    ensures
        #[trigger] nodes_view(a + b) == nodes_view(a) + nodes_view(b),
    decreases b.len(),
{
    if b.len() == 0 {
        assert(a + b =~= a);
        assert(nodes_view(a) + nodes_view(b) =~= nodes_view(a));
    } else {
        assert(a + b.drop_last() =~= (a + b).drop_last());
        lemma_nodes_view_concat(a, b.drop_last());
        lemma_nodes_view_push(a + b.drop_last(), b.last());
        lemma_nodes_view_push(b.drop_last(), b.last());
        assert((a + b.drop_last()).push(b.last()) =~= a + b);
        assert(b.drop_last().push(b.last()) =~= b);
        assert(nodes_view(a) + nodes_view(b.drop_last()).push(node_view(b.last())) =~= (nodes_view(
            a,
        ) + nodes_view(b.drop_last())).push(node_view(b.last())));
    }
}

// ---------- character classes ----------

/// The characters allowed in element and attribute names.
pub open spec fn is_name_char(c: char) -> bool {
    ('a' <= c && c <= 'z') || ('A' <= c && c <= 'Z') || ('0' <= c && c <= '9') || c == '-' || c
        == '_'
}

/// Executable twin of [`is_name_char`].
#[verifier::when_used_as_spec(is_name_char)]
pub fn name_char(c: char) -> (r: bool)
    ensures
        r == is_name_char(c),
{
    ('a' <= c && c <= 'z') || ('A' <= c && c <= 'Z') || ('0' <= c && c <= '9') || c == '-' || c
        == '_'
}

/// The characters treated as whitespace inside tags.
pub open spec fn is_space(c: char) -> bool {
    c == ' ' || c == '\t' || c == '\n' || c == '\r'
}

/// Executable twin of [`is_space`].
#[verifier::when_used_as_spec(is_space)]
pub fn space_char(c: char) -> (r: bool)
    ensures
        r == is_space(c),
{
    c == ' ' || c == '\t' || c == '\n' || c == '\r'
}

// ---------- escaping ----------

/// How one character of text content is written: `&`, `<` and `>` become
/// entities, everything else stands as itself.
pub open spec fn esc_char(c: char) -> Seq<char> {
    if c == '&' {
        seq!['&', 'a', 'm', 'p', ';']
    } else if c == '<' {
        seq!['&', 'l', 't', ';']
    } else if c == '>' {
        seq!['&', 'g', 't', ';']
    } else if c == '"' {
        seq!['&', 'q', 'u', 'o', 't', ';']
    } else {
        seq![c]
    }
}

/// Escaped text content: [`esc_char`] applied to every character.
pub open spec fn esc_text(t: Seq<char>) -> Seq<char>
    decreases t,
{
    if t.len() == 0 {
        Seq::empty()
    } else {
        esc_char(t[0]) + esc_text(t.drop_first())
    }
}

pub broadcast proof fn lemma_esc_text_push(t: Seq<char>, c: char)
    ensures
        #[trigger] esc_text(t.push(c)) == esc_text(t) + esc_char(c),
    decreases t,
{
    let p = t.push(c);
    if t.len() == 0 {
        assert(p.drop_first() =~= Seq::<char>::empty());
        assert(p[0] == c);
        assert(esc_text(p) == esc_char(c) + esc_text(Seq::<char>::empty()));
        assert(esc_text(p) =~= esc_text(t) + esc_char(c));
    } else {
        assert(p.drop_first() =~= t.drop_first().push(c));
        assert(p[0] == t[0]);
        lemma_esc_text_push(t.drop_first(), c);
        assert(esc_text(p) == esc_char(t[0]) + (esc_text(t.drop_first()) + esc_char(c)));
        assert(esc_text(p) =~= esc_text(t) + esc_char(c));
    }
}

/// Appends [`esc_text`] of `t` to `out`.
pub fn write_escaped(out: &mut Vec<char>, t: &Vec<char>)
    ensures
        final(out)@ == old(out)@ + esc_text(t@),
{
    let mut i: usize = 0;
    while i < t.len()
        invariant
            i <= t.len(),
            out@ == old(out)@ + esc_text(t@.take(i as int)),
        decreases t.len() - i,
    {
        let c = t[i];
        if c == '&' {
            out.push('&');
            out.push('a');
            out.push('m');
            out.push('p');
            out.push(';');
        } else if c == '<' {
            out.push('&');
            out.push('l');
            out.push('t');
            out.push(';');
        } else if c == '>' {
            out.push('&');
            out.push('g');
            out.push('t');
            out.push(';');
        } else if c == '"' {
            out.push('&');
            out.push('q');
            out.push('u');
            out.push('o');
            out.push('t');
            out.push(';');
        } else {
            out.push(c);
        }
        proof {
            lemma_esc_text_push(t@.take(i as int), t@[i as int]);
            assert(t@.take(i + 1 as int) =~= t@.take(i as int).push(t@[i as int]));
            assert(out@ =~= old(out)@ + esc_text(t@.take(i + 1 as int)));
        }
        i = i + 1;
    }
    proof {
        assert(t@.take(t@.len() as int) =~= t@);
    }
}

// ---------- the writer ----------

/// The serialized form of one attribute: a space, the name, `="`, the escaped
/// value, `"`.
pub open spec fn sp_write_attr(a: XmlAttrV) -> Seq<char> {
    seq![' '] + a.name + seq!['=', '"'] + esc_text(a.value) + seq!['"']
}

pub open spec fn sp_write_attrs(attrs: Seq<XmlAttrV>) -> Seq<char>
    decreases attrs,
{
    if attrs.len() == 0 {
        Seq::empty()
    } else {
        sp_write_attr(attrs[0]) + sp_write_attrs(attrs.drop_first())
    }
}

/// The serialized form of a node. An element without children is written
/// self-closing; one with children is written as a start tag, the children,
/// and the matching end tag.
pub open spec fn sp_write_node(n: XmlNodeV) -> Seq<char>
    decreases n, 1int,
{
    match n {
        XmlNodeV::Text(t) => esc_text(t),
        XmlNodeV::Elem(e) => {
            if e.children.len() == 0 {
                seq!['<'] + e.name + sp_write_attrs(e.attrs) + seq!['/', '>']
            } else {
                seq!['<'] + e.name + sp_write_attrs(e.attrs) + seq!['>'] + sp_write_nodes(
                    e.children,
                ) + seq!['<', '/'] + e.name + seq!['>']
            }
        },
    }
}

pub open spec fn sp_write_nodes(ns: Seq<XmlNodeV>) -> Seq<char>
    decreases ns, 0int,
{
    if ns.len() == 0 {
        Seq::empty()
    } else {
        sp_write_node(ns[0]) + sp_write_nodes(ns.drop_first())
    }
}

pub broadcast proof fn lemma_write_nodes_push(ns: Seq<XmlNodeV>, n: XmlNodeV)
    ensures
        #[trigger] sp_write_nodes(ns.push(n)) == sp_write_nodes(ns) + sp_write_node(n),
    decreases ns,
{
    let p = ns.push(n);
    if ns.len() == 0 {
        assert(p.drop_first() =~= Seq::<XmlNodeV>::empty());
        assert(p[0] == n);
        assert(sp_write_nodes(p) == sp_write_node(n) + sp_write_nodes(Seq::<XmlNodeV>::empty()));
        assert(sp_write_nodes(p) =~= sp_write_nodes(ns) + sp_write_node(n));
    } else {
        assert(p.drop_first() =~= ns.drop_first().push(n));
        assert(p[0] == ns[0]);
        lemma_write_nodes_push(ns.drop_first(), n);
        assert(sp_write_nodes(p) == sp_write_node(ns[0]) + (sp_write_nodes(ns.drop_first())
            + sp_write_node(n)));
        assert(sp_write_nodes(p) =~= sp_write_nodes(ns) + sp_write_node(n));
    }
}

pub broadcast proof fn lemma_write_attrs_push(attrs: Seq<XmlAttrV>, a: XmlAttrV)
    ensures
        #[trigger] sp_write_attrs(attrs.push(a)) == sp_write_attrs(attrs) + sp_write_attr(a),
    decreases attrs,
{
    let p = attrs.push(a);
    if attrs.len() == 0 {
        assert(p.drop_first() =~= Seq::<XmlAttrV>::empty());
        assert(p[0] == a);
        assert(sp_write_attrs(p) == sp_write_attr(a) + sp_write_attrs(Seq::<XmlAttrV>::empty()));
        assert(sp_write_attrs(p) =~= sp_write_attrs(attrs) + sp_write_attr(a));
    } else {
        assert(p.drop_first() =~= attrs.drop_first().push(a));
        assert(p[0] == attrs[0]);
        lemma_write_attrs_push(attrs.drop_first(), a);
        assert(sp_write_attrs(p) == sp_write_attr(attrs[0]) + (sp_write_attrs(attrs.drop_first())
            + sp_write_attr(a)));
        assert(sp_write_attrs(p) =~= sp_write_attrs(attrs) + sp_write_attr(a));
    }
}

/// Appends the serialized attributes to `out`.
pub fn write_attrs(out: &mut Vec<char>, attrs: &Vec<XmlAttr>)
    ensures
        final(out)@ == old(out)@ + sp_write_attrs(attrs_view(attrs@)),
{
    let mut i: usize = 0;
    while i < attrs.len()
        invariant
            i <= attrs.len(),
            out@ == old(out)@ + sp_write_attrs(attrs_view(attrs@.take(i as int))),
        decreases attrs.len() - i,
    {
        out.push(' ');
        let mut k: usize = 0;
        let ghost mid = out@;
        while k < attrs[i].name.len()
            invariant
                k <= attrs@[i as int].name.len(),
                i < attrs.len(),
                out@ == mid + attrs@[i as int].name@.take(k as int),
            decreases attrs@[i as int].name.len() - k,
        {
            out.push(attrs[i].name[k]);
            proof {
                assert(out@ =~= mid + attrs@[i as int].name@.take(k + 1 as int));
            }
            k = k + 1;
        }
        proof {
            assert(attrs@[i as int].name@.take(attrs@[i as int].name@.len() as int) =~= attrs@[i
                as int].name@);
        }
        out.push('=');
        out.push('"');
        write_escaped(out, &attrs[i].value);
        out.push('"');
        proof {
            assert(attrs_view(attrs@.take(i + 1 as int)) =~= attrs_view(
                attrs@.take(i as int),
            ).push(attrs@[i as int]@));
            lemma_write_attrs_push(attrs_view(attrs@.take(i as int)), attrs@[i as int]@);
            assert(out@ =~= old(out)@ + sp_write_attrs(attrs_view(attrs@.take(i + 1 as int))));
        }
        i = i + 1;
    }
    proof {
        assert(attrs@.take(attrs@.len() as int) =~= attrs@);
    }
}

/// Appends the characters of `name` to `out`.
fn write_name(out: &mut Vec<char>, name: &Vec<char>)
    ensures
        final(out)@ == old(out)@ + name@,
{
    let mut k: usize = 0;
    while k < name.len()
        invariant
            k <= name.len(),
            out@ == old(out)@ + name@.take(k as int),
        decreases name.len() - k,
    {
        out.push(name[k]);
        proof {
            assert(out@ =~= old(out)@ + name@.take(k + 1 as int));
        }
        k = k + 1;
    }
    proof {
        assert(name@.take(name@.len() as int) =~= name@);
    }
}

/// Appends the serialized form of `n` to `out`.
pub fn write_node(out: &mut Vec<char>, n: &XmlNode)
    ensures
        final(out)@ == old(out)@ + sp_write_node(n@),
    decreases *n,
{
    match n {
        XmlNode::Text(t) => {
            write_escaped(out, t);
        },
        XmlNode::Elem(e) => {
            out.push('<');
            write_name(out, &e.name);
            write_attrs(out, &e.attrs);
            if e.children.len() == 0 {
                out.push('/');
                out.push('>');
                proof {
                    assert(out@ =~= old(out)@ + sp_write_node(n@));
                }
            } else {
                out.push('>');
                let ghost mid = out@;
                let mut i: usize = 0;
                while i < e.children.len()
                    invariant
                        i <= e.children.len(),
                        out@ == mid + sp_write_nodes(nodes_view(e.children@.take(i as int))),
                        forall|j: int|
                            0 <= j < e.children@.len() ==> #[trigger] decreases_to!(
                                *n => e.children@[j]),
                    decreases e.children.len() - i,
                {
                    write_node(out, &e.children[i]);
                    proof {
                        assert(e.children@.take(i + 1 as int) =~= e.children@.take(
                            i as int,
                        ).push(e.children@[i as int]));
                        lemma_nodes_view_push(e.children@.take(i as int), e.children@[i as int]);
                        lemma_write_nodes_push(
                            nodes_view(e.children@.take(i as int)),
                            node_view(e.children@[i as int]),
                        );
                    }
                    i = i + 1;
                }
                proof {
                    assert(e.children@.take(e.children@.len() as int) =~= e.children@);
                }
                out.push('<');
                out.push('/');
                write_name(out, &e.name);
                out.push('>');
                proof {
                    assert(out@ =~= old(out)@ + sp_write_node(n@));
                }
            }
        },
    }
}

/// Appends the serialized form of every node of `ns` to `out`.
pub fn write_nodes(out: &mut Vec<char>, ns: &Vec<XmlNode>)
    ensures
        final(out)@ == old(out)@ + sp_write_nodes(nodes_view(ns@)),
{
    let mut i: usize = 0;
    while i < ns.len()
        invariant
            i <= ns.len(),
            out@ == old(out)@ + sp_write_nodes(nodes_view(ns@.take(i as int))),
        decreases ns.len() - i,
    {
        write_node(out, &ns[i]);
        proof {
            assert(ns@.take(i + 1 as int) =~= ns@.take(i as int).push(ns@[i as int]));
            lemma_nodes_view_push(ns@.take(i as int), ns@[i as int]);
            lemma_write_nodes_push(nodes_view(ns@.take(i as int)), node_view(ns@[i as int]));
        }
        i = i + 1;
    }
    proof {
        assert(ns@.take(ns@.len() as int) =~= ns@);
    }
}

// ---------- the lexer: specification ----------
//
// Every lexing function exists twice: a spec function, which is the
// authoritative definition of the grammar, and an executable twin whose
// contract says it returns exactly what the spec function denotes. Spec
// functions take a position and return the value read and the position after
// it. Where a recursive call cannot be seen to advance by the termination
// checker, the definition guards it and returns a sentinel error on the
// branch that never runs.

/// The sentinel error of the guarded branches that never run.
pub open spec fn stuck() -> DecodeErrorView {
    DecodeErrorView::TruncatedInput { elem: Seq::empty() }
}

/// The first position at or after `i` holding no whitespace.
pub open spec fn sp_skip(s: Seq<char>, i: int) -> int
    decreases s.len() - i,
{
    if 0 <= i < s.len() && is_space(s[i]) {
        sp_skip(s, i + 1)
    } else {
        i
    }
}

/// The longest run of name characters at `i`, and the position after it.
pub open spec fn sp_lex_name(s: Seq<char>, i: int) -> (Seq<char>, int)
    decreases s.len() - i,
{
    if 0 <= i < s.len() && is_name_char(s[i]) {
        let t = sp_lex_name(s, i + 1);
        (seq![s[i]] + t.0, t.1)
    } else {
        (Seq::empty(), i)
    }
}

/// An entity reference at `i` (which holds `&`): the character it denotes and
/// the position after the closing `;`.
pub open spec fn sp_lex_entity(s: Seq<char>, i: int) -> Result<(char, int), DecodeErrorView> {
    let t = sp_lex_name(s, i + 1);
    if t.1 < s.len() && s[t.1] == ';' {
        if t.0 == seq!['a', 'm', 'p'] {
            Ok(('&', t.1 + 1))
        } else if t.0 == seq!['l', 't'] {
            Ok(('<', t.1 + 1))
        } else if t.0 == seq!['g', 't'] {
            Ok(('>', t.1 + 1))
        } else if t.0 == seq!['q', 'u', 'o', 't'] {
            Ok(('"', t.1 + 1))
        } else if t.0 == seq!['a', 'p', 'o', 's'] {
            Ok(('\'', t.1 + 1))
        } else {
            Err(DecodeErrorView::StructuralError { tag: t.0, context: seq!['&'] })
        }
    } else if t.1 >= s.len() {
        Err(DecodeErrorView::TruncatedInput { elem: seq!['&'] })
    } else {
        Err(DecodeErrorView::StructuralError { tag: seq![s[t.1]], context: seq!['&'] })
    }
}

/// Character data at `i`, unescaped, up to the next `<` or the end of input.
pub open spec fn sp_lex_text(s: Seq<char>, i: int) -> Result<(Seq<char>, int), DecodeErrorView>
    decreases s.len() - i,
{
    if !(0 <= i < s.len()) || s[i] == '<' {
        Ok((Seq::empty(), i))
    } else if s[i] == '&' {
        match sp_lex_entity(s, i) {
            Err(e) => Err(e),
            Ok((c, j)) => if i < j {
                match sp_lex_text(s, j) {
                    Ok((t, k)) => Ok((seq![c] + t, k)),
                    Err(e) => Err(e),
                }
            } else {
                Err(stuck())
            },
        }
    } else {
        match sp_lex_text(s, i + 1) {
            Ok((t, k)) => Ok((seq![s[i]] + t, k)),
            Err(e) => Err(e),
        }
    }
}

/// A quoted attribute value at `i` (just after the opening quote), unescaped,
/// up to the closing quote; the returned position holds the closing quote.
pub open spec fn sp_lex_quoted(s: Seq<char>, i: int, ctx: Seq<char>) -> Result<
    (Seq<char>, int),
    DecodeErrorView,
>
    decreases s.len() - i,
{
    if !(0 <= i < s.len()) {
        Err(DecodeErrorView::TruncatedInput { elem: ctx })
    } else if s[i] == '"' {
        Ok((Seq::empty(), i))
    } else if s[i] == '&' {
        match sp_lex_entity(s, i) {
            Err(e) => Err(e),
            Ok((c, j)) => if i < j {
                match sp_lex_quoted(s, j, ctx) {
                    Ok((t, k)) => Ok((seq![c] + t, k)),
                    Err(e) => Err(e),
                }
            } else {
                Err(stuck())
            },
        }
    } else {
        match sp_lex_quoted(s, i + 1, ctx) {
            Ok((t, k)) => Ok((seq![s[i]] + t, k)),
            Err(e) => Err(e),
        }
    }
}

/// The attributes of a start tag, read from `i` up to the `/` or `>` that
/// ends the tag; the returned position holds that character.
pub open spec fn sp_lex_attrs(s: Seq<char>, i: int, ctx: Seq<char>) -> Result<
    (Seq<XmlAttrV>, int),
    DecodeErrorView,
>
    decreases s.len() - i,
{
    let j = sp_skip(s, i);
    if !(j < s.len()) {
        Err(DecodeErrorView::TruncatedInput { elem: ctx })
    } else if s[j] == '/' || s[j] == '>' {
        Ok((Seq::empty(), j))
    } else if !is_name_char(s[j]) {
        Err(DecodeErrorView::StructuralError { tag: seq![s[j]], context: ctx })
    } else {
        let t = sp_lex_name(s, j);
        if t.1 + 1 >= s.len() {
            Err(DecodeErrorView::TruncatedInput { elem: ctx })
        } else if s[t.1] == '=' && s[t.1 + 1] == '"' {
            match sp_lex_quoted(s, t.1 + 2, ctx) {
                Err(e) => Err(e),
                Ok((v, m)) => if m + 1 > i && m + 1 <= s.len() {
                    match sp_lex_attrs(s, m + 1, ctx) {
                        Ok((rest, e2)) => Ok(
                            (seq![XmlAttrV { name: t.0, value: v }] + rest, e2),
                        ),
                        Err(e) => Err(e),
                    }
                } else {
                    Err(stuck())
                },
            }
        } else {
            Err(DecodeErrorView::StructuralError { tag: t.0, context: ctx })
        }
    }
}

/// The value of the `id` attribute where there is one, else the element name:
/// the context under which faults inside the element are reported.
pub open spec fn sp_attr_lookup(attrs: Seq<XmlAttrV>, name: Seq<char>) -> Option<Seq<char>>
    decreases attrs,
{
    if attrs.len() == 0 {
        None
    } else if attrs[0].name == name {
        Some(attrs[0].value)
    } else {
        sp_attr_lookup(attrs.drop_first(), name)
    }
}

pub open spec fn sp_elem_ctx(name: Seq<char>, attrs: Seq<XmlAttrV>) -> Seq<char> {
    match sp_attr_lookup(attrs, "id"@) {
        Some(v) => v,
        None => name,
    }
}

/// The nodes at `i` up to (not including) a closing tag or the end of input.
pub open spec fn sp_lex_nodes(s: Seq<char>, i: int) -> Result<
    (Seq<XmlNodeV>, int),
    DecodeErrorView,
>
    decreases s.len() - i, 2int,
{
    if !(0 <= i < s.len()) || (s[i] == '<' && i + 1 < s.len() && s[i + 1] == '/') {
        Ok((Seq::empty(), i))
    } else {
        match sp_lex_node(s, i) {
            Err(e) => Err(e),
            Ok((n, j)) => if i < j && j <= s.len() {
                match sp_lex_nodes(s, j) {
                    Ok((ns, k)) => Ok((seq![n] + ns, k)),
                    Err(e) => Err(e),
                }
            } else {
                Err(stuck())
            },
        }
    }
}

/// One node at `i`: an element if `i` holds `<`, else character data.
pub open spec fn sp_lex_node(s: Seq<char>, i: int) -> Result<(XmlNodeV, int), DecodeErrorView>
    decreases s.len() - i, 1int,
{
    if !(0 <= i < s.len()) {
        Err(stuck())
    } else if s[i] == '<' {
        sp_lex_elem(s, i)
    } else {
        match sp_lex_text(s, i) {
            Ok((t, j)) => Ok((XmlNodeV::Text(t), j)),
            Err(e) => Err(e),
        }
    }
}

/// An element at `i` (which holds `<`): name, attributes, and either `/>` or
/// children followed by the matching end tag.
pub open spec fn sp_lex_elem(s: Seq<char>, i: int) -> Result<(XmlNodeV, int), DecodeErrorView>
    decreases s.len() - i, 0int,
{
    let t = sp_lex_name(s, i + 1);
    if t.0.len() == 0 {
        if i + 1 >= s.len() {
            Err(DecodeErrorView::TruncatedInput { elem: seq!['<'] })
        } else {
            Err(DecodeErrorView::StructuralError { tag: seq![s[i + 1]], context: seq!['<'] })
        }
    } else {
        let name = t.0;
        match sp_lex_attrs(s, t.1, name) {
            Err(e) => Err(e),
            Ok((attrs, k)) => {
                let ctx = sp_elem_ctx(name, attrs);
                if s[k] == '/' {
                    if k + 1 < s.len() && s[k + 1] == '>' {
                        Ok(
                            (
                                XmlNodeV::Elem(
                                    XmlElemV { name, attrs, children: Seq::empty() },
                                ),
                                k + 2,
                            ),
                        )
                    } else if k + 1 >= s.len() {
                        Err(DecodeErrorView::TruncatedInput { elem: ctx })
                    } else {
                        Err(
                            DecodeErrorView::StructuralError {
                                tag: seq![s[k + 1]],
                                context: ctx,
                            },
                        )
                    }
                } else {
                    // s[k] == '>': children, then the end tag.
                    if k + 1 > i && k + 1 <= s.len() {
                        match sp_lex_nodes(s, k + 1) {
                            Err(e) => Err(e),
                            Ok((children, m)) => if m + 1 < s.len() && s[m] == '<' && s[m + 1]
                                == '/' {
                                let u = sp_lex_name(s, m + 2);
                                if u.0 == name && u.1 < s.len() && s[u.1] == '>' {
                                    Ok(
                                        (
                                            XmlNodeV::Elem(XmlElemV { name, attrs, children }),
                                            u.1 + 1,
                                        ),
                                    )
                                } else if u.1 >= s.len() {
                                    Err(DecodeErrorView::TruncatedInput { elem: ctx })
                                } else if u.0 != name {
                                    Err(
                                        DecodeErrorView::StructuralError {
                                            tag: u.0,
                                            context: ctx,
                                        },
                                    )
                                } else {
                                    Err(
                                        DecodeErrorView::StructuralError {
                                            tag: seq![s[u.1]],
                                            context: ctx,
                                        },
                                    )
                                }
                            } else {
                                Err(DecodeErrorView::TruncatedInput { elem: ctx })
                            },
                        }
                    } else {
                        Err(stuck())
                    }
                }
            },
        }
    }
}

/// A whole buffer: the nodes it holds, which must reach the end of the input.
pub open spec fn sp_lex_forest(s: Seq<char>) -> Result<Seq<XmlNodeV>, DecodeErrorView> {
    match sp_lex_nodes(s, 0) {
        Err(e) => Err(e),
        Ok((ns, j)) => if j == s.len() {
            Ok(ns)
        } else {
            // Only a stray closing tag stops the node reader early.
            Err(
                DecodeErrorView::StructuralError {
                    tag: sp_lex_name(s, j + 2).0,
                    context: Seq::empty(),
                },
            )
        },
    }
}

// ---------- the lexer: executable twins ----------

/// `r` with `pre` prepended to the value read.
pub open spec fn text_rest(
    r: Result<(Seq<char>, int), DecodeErrorView>,
    pre: Seq<char>,
) -> Result<(Seq<char>, int), DecodeErrorView> {
    match r {
        Ok((t, j)) => Ok((pre + t, j)),
        Err(e) => Err(e),
    }
}

/// `r` with `pre` prepended to the attributes read.
pub open spec fn attrs_rest(
    r: Result<(Seq<XmlAttrV>, int), DecodeErrorView>,
    pre: Seq<XmlAttrV>,
) -> Result<(Seq<XmlAttrV>, int), DecodeErrorView> {
    match r {
        Ok((a, j)) => Ok((pre + a, j)),
        Err(e) => Err(e),
    }
}

/// `r` with `pre` prepended to the nodes read.
pub open spec fn nodes_rest(
    r: Result<(Seq<XmlNodeV>, int), DecodeErrorView>,
    pre: Seq<XmlNodeV>,
) -> Result<(Seq<XmlNodeV>, int), DecodeErrorView> {
    match r {
        Ok((ns, j)) => Ok((pre + ns, j)),
        Err(e) => Err(e),
    }
}

fn skip_spaces(s: &Vec<char>, i: usize) -> (j: usize)
    requires
        i <= s.len(),
    ensures
        j as int == sp_skip(s@, i as int),
        i <= j <= s.len(),
{
    let mut j = i;
    while j < s.len() && space_char(s[j])
        invariant
            i <= j <= s.len(),
            sp_skip(s@, i as int) == sp_skip(s@, j as int),
        decreases s.len() - j,
    {
        j = j + 1;
    }
    j
}

fn lex_name(s: &Vec<char>, i: usize) -> (r: (Vec<char>, usize))
    requires
        i <= s.len(),
    ensures
        r.0@ == sp_lex_name(s@, i as int).0,
        r.1 as int == sp_lex_name(s@, i as int).1,
        i <= r.1 <= s.len(),
{
    let mut acc: Vec<char> = Vec::new();
    let mut j = i;
    proof {
        assert(Seq::<char>::empty() + sp_lex_name(s@, i as int).0 =~= sp_lex_name(
            s@,
            i as int,
        ).0);
    }
    while j < s.len() && name_char(s[j])
        invariant
            i <= j <= s.len(),
            sp_lex_name(s@, i as int).0 == acc@ + sp_lex_name(s@, j as int).0,
            sp_lex_name(s@, i as int).1 == sp_lex_name(s@, j as int).1,
        decreases s.len() - j,
    {
        let ghost a0 = acc@;
        acc.push(s[j]);
        proof {
            assert(sp_lex_name(s@, j as int).0 == seq![s@[j as int]] + sp_lex_name(
                s@,
                j as int + 1,
            ).0);
            assert(acc@ =~= a0 + seq![s@[j as int]]);
            assert(a0 + (seq![s@[j as int]] + sp_lex_name(s@, j as int + 1).0) =~= acc@
                + sp_lex_name(s@, j as int + 1).0);
        }
        j = j + 1;
    }
    proof {
        assert(sp_lex_name(s@, j as int).0 == Seq::<char>::empty());
        assert(acc@ + Seq::<char>::empty() =~= acc@);
    }
    (acc, j)
}

fn lex_entity(s: &Vec<char>, i: usize) -> (r: Result<(char, usize), DecodeError>)
    requires
        i < s.len(),
        s@[i as int] == '&',
    ensures
        match (r, sp_lex_entity(s@, i as int)) {
            (Ok((c, j)), Ok(p)) => c == p.0 && j as int == p.1 && i < j <= s.len(),
            (Err(e), Err(ev)) => e@ == ev,
            _ => false,
        },
{
    let (name, j) = lex_name(s, i + 1);
    if j < s.len() && s[j] == ';' {
        let c: char;
        if name.len() == 3 && name[0] == 'a' && name[1] == 'm' && name[2] == 'p' {
            proof {
                assert(name@ =~= seq!['a', 'm', 'p']);
            }
            c = '&';
        } else if name.len() == 2 && name[0] == 'l' && name[1] == 't' {
            proof {
                assert(name@ =~= seq!['l', 't']);
            }
            c = '<';
        } else if name.len() == 2 && name[0] == 'g' && name[1] == 't' {
            proof {
                assert(name@ =~= seq!['g', 't']);
            }
            c = '>';
        } else if name.len() == 4 && name[0] == 'q' && name[1] == 'u' && name[2] == 'o' && name[3]
            == 't' {
            proof {
                assert(name@ =~= seq!['q', 'u', 'o', 't']);
            }
            c = '"';
        } else if name.len() == 4 && name[0] == 'a' && name[1] == 'p' && name[2] == 'o' && name[3]
            == 's' {
            proof {
                assert(name@ =~= seq!['a', 'p', 'o', 's']);
            }
            c = '\'';
        } else {
            return Err(
                DecodeError::StructuralError {
                    tag: crate::chars::chars_to_string(&name),
                    context: crate::chars::string_of_char('&'),
                },
            );
        }
        Ok((c, j + 1))
    } else if j >= s.len() {
        Err(DecodeError::TruncatedInput { elem: crate::chars::string_of_char('&') })
    } else {
        Err(
            DecodeError::StructuralError {
                tag: crate::chars::string_of_char(s[j]),
                context: crate::chars::string_of_char('&'),
            },
        )
    }
}

fn lex_text(s: &Vec<char>, i: usize) -> (r: Result<(Vec<char>, usize), DecodeError>)
    requires
        i <= s.len(),
    ensures
        match (r, sp_lex_text(s@, i as int)) {
            (Ok((t, j)), Ok(p)) => t@ == p.0 && j as int == p.1 && i <= j <= s.len() && ((i
                < s@.len() && s@[i as int] != '<') ==> i < j),
            (Err(e), Err(ev)) => e@ == ev,
            _ => false,
        },
{
    let mut acc: Vec<char> = Vec::new();
    let mut k = i;
    proof {
        assert(sp_lex_text(s@, i as int) == text_rest(sp_lex_text(s@, i as int), acc@)) by {
            match sp_lex_text(s@, i as int) {
                Ok((t, j)) => {
                    assert(Seq::<char>::empty() + t =~= t);
                },
                Err(e) => {},
            }
        }
    }
    loop
        invariant
            i <= k <= s.len(),
            sp_lex_text(s@, i as int) == text_rest(sp_lex_text(s@, k as int), acc@),
            k == i ==> acc@ == Seq::<char>::empty(),
            k > i ==> i < s@.len() && s@[i as int] != '<',
        decreases s@.len() - k,
    {
        if k >= s.len() || s[k] == '<' {
            proof {
                assert(sp_lex_text(s@, k as int) == Ok::<_, DecodeErrorView>(
                    (Seq::<char>::empty(), k as int),
                ));
                assert(acc@ + Seq::<char>::empty() =~= acc@);
            }
            return Ok((acc, k));
        }
        let ghost a0 = acc@;
        if s[k] == '&' {
            match lex_entity(s, k) {
                Err(e) => {
                    return Err(e);
                },
                Ok((c, j)) => {
                    acc.push(c);
                    proof {
                        assert(acc@ =~= a0 + seq![c]);
                        assert(match sp_lex_text(s@, j as int) {
                            Ok((t, m)) => a0 + (seq![c] + t) =~= acc@ + t,
                            Err(e) => true,
                        });
                    }
                    k = j;
                },
            }
        } else {
            acc.push(s[k]);
            proof {
                assert(acc@ =~= a0 + seq![s@[k as int]]);
                assert(match sp_lex_text(s@, k as int + 1) {
                    Ok((t, m)) => a0 + (seq![s@[k as int]] + t) =~= acc@ + t,
                    Err(e) => true,
                });
            }
            k = k + 1;
        }
    }
}

fn lex_quoted(s: &Vec<char>, i: usize, ctx: &Vec<char>) -> (r: Result<
    (Vec<char>, usize),
    DecodeError,
>)
    requires
        i <= s.len(),
    ensures
        match (r, sp_lex_quoted(s@, i as int, ctx@)) {
            (Ok((t, j)), Ok(p)) => t@ == p.0 && j as int == p.1 && i <= j < s.len(),
            (Err(e), Err(ev)) => e@ == ev,
            _ => false,
        },
{
    let mut acc: Vec<char> = Vec::new();
    let mut k = i;
    proof {
        assert(sp_lex_quoted(s@, i as int, ctx@) == text_rest(
            sp_lex_quoted(s@, i as int, ctx@),
            acc@,
        )) by {
            match sp_lex_quoted(s@, i as int, ctx@) {
                Ok((t, j)) => {
                    assert(Seq::<char>::empty() + t =~= t);
                },
                Err(e) => {},
            }
        }
    }
    loop
        invariant
            i <= k <= s.len(),
            sp_lex_quoted(s@, i as int, ctx@) == text_rest(sp_lex_quoted(s@, k as int, ctx@), acc@),
        decreases s@.len() - k,
    {
        if k >= s.len() {
            return Err(DecodeError::TruncatedInput { elem: crate::chars::chars_to_string(ctx) });
        }
        if s[k] == '"' {
            proof {
                assert(sp_lex_quoted(s@, k as int, ctx@) == Ok::<_, DecodeErrorView>(
                    (Seq::<char>::empty(), k as int),
                ));
                assert(acc@ + Seq::<char>::empty() =~= acc@);
            }
            return Ok((acc, k));
        }
        let ghost a0 = acc@;
        if s[k] == '&' {
            match lex_entity(s, k) {
                Err(e) => {
                    return Err(e);
                },
                Ok((c, j)) => {
                    acc.push(c);
                    proof {
                        assert(acc@ =~= a0 + seq![c]);
                        assert(match sp_lex_quoted(s@, j as int, ctx@) {
                            Ok((t, m)) => a0 + (seq![c] + t) =~= acc@ + t,
                            Err(e) => true,
                        });
                    }
                    k = j;
                },
            }
        } else {
            acc.push(s[k]);
            proof {
                assert(acc@ =~= a0 + seq![s@[k as int]]);
                assert(match sp_lex_quoted(s@, k as int + 1, ctx@) {
                    Ok((t, m)) => a0 + (seq![s@[k as int]] + t) =~= acc@ + t,
                    Err(e) => true,
                });
            }
            k = k + 1;
        }
    }
}

fn lex_attrs(s: &Vec<char>, i: usize, ctx: &Vec<char>) -> (r: Result<
    (Vec<XmlAttr>, usize),
    DecodeError,
>)
    requires
        i <= s.len(),
    ensures
        match (r, sp_lex_attrs(s@, i as int, ctx@)) {
            (Ok((attrs, j)), Ok(p)) => attrs_view(attrs@) == p.0 && j as int == p.1 && i <= j
                < s.len() && (s@[j as int] == '/' || s@[j as int] == '>'),
            (Err(e), Err(ev)) => e@ == ev,
            _ => false,
        },
{
    let mut acc: Vec<XmlAttr> = Vec::new();
    let mut k = i;
    proof {
        assert(attrs_view(acc@) =~= Seq::<XmlAttrV>::empty());
        assert(sp_lex_attrs(s@, i as int, ctx@) == attrs_rest(
            sp_lex_attrs(s@, i as int, ctx@),
            attrs_view(acc@),
        )) by {
            match sp_lex_attrs(s@, i as int, ctx@) {
                Ok((a, j)) => {
                    assert(Seq::<XmlAttrV>::empty() + a =~= a);
                },
                Err(e) => {},
            }
        }
    }
    loop
        invariant
            i <= k <= s.len(),
            sp_lex_attrs(s@, i as int, ctx@) == attrs_rest(
                sp_lex_attrs(s@, k as int, ctx@),
                attrs_view(acc@),
            ),
        decreases s@.len() - k,
    {
        let j = skip_spaces(s, k);
        if j >= s.len() {
            return Err(DecodeError::TruncatedInput { elem: crate::chars::chars_to_string(ctx) });
        }
        if s[j] == '/' || s[j] == '>' {
            proof {
                assert(sp_lex_attrs(s@, k as int, ctx@) == Ok::<_, DecodeErrorView>(
                    (Seq::<XmlAttrV>::empty(), j as int),
                ));
                assert(attrs_view(acc@) + Seq::<XmlAttrV>::empty() =~= attrs_view(acc@));
            }
            return Ok((acc, j));
        }
        if !name_char(s[j]) {
            return Err(
                DecodeError::StructuralError {
                    tag: crate::chars::string_of_char(s[j]),
                    context: crate::chars::chars_to_string(ctx),
                },
            );
        }
        let (name, m) = lex_name(s, j);
        if s.len() - m <= 1 {
            return Err(DecodeError::TruncatedInput { elem: crate::chars::chars_to_string(ctx) });
        }
        if s[m] == '=' && s[m + 1] == '"' {
            match lex_quoted(s, m + 2, ctx) {
                Err(e) => {
                    return Err(e);
                },
                Ok((v, q)) => {
                    let ghost a0 = acc@;
                    let ghost namev = name@;
                    let ghost vv = v@;
                    acc.push(XmlAttr { name, value: v });
                    proof {
                        assert(attrs_view(acc@) =~= attrs_view(a0).push(
                            XmlAttrV { name: namev, value: vv },
                        ));
                        assert(match sp_lex_attrs(s@, q as int + 1, ctx@) {
                            Ok((rest, e2)) => attrs_view(a0) + (seq![
                                XmlAttrV { name: namev, value: vv },
                            ] + rest) =~= attrs_view(acc@) + rest,
                            Err(e) => true,
                        });
                    }
                    k = q + 1;
                },
            }
        } else {
            return Err(
                DecodeError::StructuralError {
                    tag: crate::chars::chars_to_string(&name),
                    context: crate::chars::chars_to_string(ctx),
                },
            );
        }
    }
}

/// The context under which faults inside an element are reported: its `id`
/// attribute where there is one, else its name.
fn elem_ctx(name: &Vec<char>, attrs: &Vec<XmlAttr>) -> (r: Vec<char>)
    ensures
        r@ == sp_elem_ctx(name@, attrs_view(attrs@)),
{
    let mut k: usize = 0;
    proof {
        assert(attrs_view(attrs@).skip(0) =~= attrs_view(attrs@));
    }
    while k < attrs.len()
        invariant
            k <= attrs.len(),
            sp_attr_lookup(attrs_view(attrs@), "id"@) == sp_attr_lookup(
                attrs_view(attrs@).skip(k as int),
                "id"@,
            ),
        decreases attrs.len() - k,
    {
        let ghost rest = attrs_view(attrs@).skip(k as int);
        proof {
            assert(rest[0] == attrs@[k as int]@);
            assert(rest.drop_first() =~= attrs_view(attrs@).skip(k as int + 1));
        }
        if crate::chars::chars_eq_str(&attrs[k].name, "id") {
            let mut r: Vec<char> = Vec::new();
            let mut q: usize = 0;
            while q < attrs[k].value.len()
                invariant
                    k < attrs.len(),
                    q <= attrs@[k as int].value.len(),
                    r@ == attrs@[k as int].value@.take(q as int),
                decreases attrs@[k as int].value.len() - q,
            {
                r.push(attrs[k].value[q]);
                proof {
                    assert(r@ =~= attrs@[k as int].value@.take(q as int + 1));
                }
                q = q + 1;
            }
            proof {
                assert(attrs@[k as int].value@.take(attrs@[k as int].value@.len() as int)
                    =~= attrs@[k as int].value@);
            }
            return r;
        }
        k = k + 1;
    }
    proof {
        assert(attrs_view(attrs@).skip(k as int) =~= Seq::<XmlAttrV>::empty());
    }
    let mut r: Vec<char> = Vec::new();
    let mut q: usize = 0;
    while q < name.len()
        invariant
            q <= name.len(),
            r@ == name@.take(q as int),
        decreases name.len() - q,
    {
        r.push(name[q]);
        proof {
            assert(r@ =~= name@.take(q as int + 1));
        }
        q = q + 1;
    }
    proof {
        assert(name@.take(name@.len() as int) =~= name@);
    }
    r
}

/// The nodes at `i` up to a closing tag or the end of input.
pub fn lex_nodes(s: &Vec<char>, i: usize) -> (r: Result<(Vec<XmlNode>, usize), DecodeError>)
    requires
        i <= s.len(),
    ensures
        match (r, sp_lex_nodes(s@, i as int)) {
            (Ok((ns, j)), Ok(p)) => nodes_view(ns@) == p.0 && j as int == p.1 && i <= j <= s.len()
                && (j < s@.len() ==> (s@[j as int] == '<' && j + 1 < s@.len() && s@[j as int + 1]
                == '/')),
            (Err(e), Err(ev)) => e@ == ev,
            _ => false,
        },
    decreases s@.len() - i, 2int,
{
    let mut acc: Vec<XmlNode> = Vec::new();
    let mut k = i;
    proof {
        assert(nodes_view(acc@) =~= Seq::<XmlNodeV>::empty());
        assert(sp_lex_nodes(s@, i as int) == nodes_rest(
            sp_lex_nodes(s@, i as int),
            nodes_view(acc@),
        )) by {
            match sp_lex_nodes(s@, i as int) {
                Ok((ns, j)) => {
                    assert(Seq::<XmlNodeV>::empty() + ns =~= ns);
                },
                Err(e) => {},
            }
        }
    }
    loop
        invariant
            i <= k <= s.len(),
            sp_lex_nodes(s@, i as int) == nodes_rest(
                sp_lex_nodes(s@, k as int),
                nodes_view(acc@),
            ),
        decreases s@.len() - k,
    {
        if k >= s.len() || (s[k] == '<' && k + 1 < s.len() && s[k + 1] == '/') {
            proof {
                assert(sp_lex_nodes(s@, k as int) == Ok::<_, DecodeErrorView>(
                    (Seq::<XmlNodeV>::empty(), k as int),
                ));
                assert(nodes_view(acc@) + Seq::<XmlNodeV>::empty() =~= nodes_view(acc@));
            }
            return Ok((acc, k));
        }
        match lex_node(s, k) {
            Err(e) => {
                return Err(e);
            },
            Ok((n, j)) => {
                let ghost a0 = acc@;
                let ghost nv = node_view(n);
                acc.push(n);
                proof {
                    lemma_nodes_view_push(a0, acc@[a0.len() as int]);
                    assert(nodes_view(acc@) =~= nodes_view(a0).push(nv));
                    assert(match sp_lex_nodes(s@, j as int) {
                        Ok((ns, m)) => nodes_view(a0) + (seq![nv] + ns) =~= nodes_view(acc@) + ns,
                        Err(e) => true,
                    });
                }
                k = j;
            },
        }
    }
}

/// One node at `i`: an element if `i` holds `<`, else character data.
pub fn lex_node(s: &Vec<char>, i: usize) -> (r: Result<(XmlNode, usize), DecodeError>)
    requires
        i < s.len(),
    ensures
        match (r, sp_lex_node(s@, i as int)) {
            (Ok((n, j)), Ok(p)) => node_view(n) == p.0 && j as int == p.1 && i < j <= s.len(),
            (Err(e), Err(ev)) => e@ == ev,
            _ => false,
        },
    decreases s@.len() - i, 1int,
{
    if s[i] == '<' {
        lex_elem(s, i)
    } else {
        match lex_text(s, i) {
            Err(e) => Err(e),
            Ok((t, j)) => Ok((XmlNode::Text(t), j)),
        }
    }
}

/// An element at `i` (which holds `<`).
pub fn lex_elem(s: &Vec<char>, i: usize) -> (r: Result<(XmlNode, usize), DecodeError>)
    requires
        i < s.len(),
        s@[i as int] == '<',
    ensures
        match (r, sp_lex_elem(s@, i as int)) {
            (Ok((n, j)), Ok(p)) => node_view(n) == p.0 && j as int == p.1 && i < j <= s.len(),
            (Err(e), Err(ev)) => e@ == ev,
            _ => false,
        },
    decreases s@.len() - i, 0int,
{
    let (name, j) = lex_name(s, i + 1);
    if name.len() == 0 {
        if i + 1 >= s.len() {
            return Err(DecodeError::TruncatedInput { elem: crate::chars::string_of_char('<') });
        } else {
            return Err(
                DecodeError::StructuralError {
                    tag: crate::chars::string_of_char(s[i + 1]),
                    context: crate::chars::string_of_char('<'),
                },
            );
        }
    }
    match lex_attrs(s, j, &name) {
        Err(e) => Err(e),
        Ok((attrs, k)) => {
            let ctx = elem_ctx(&name, &attrs);
            if s[k] == '/' {
                if k + 1 < s.len() && s[k + 1] == '>' {
                    let n = XmlNode::Elem(XmlElem { name, attrs, children: Vec::new() });
                    proof {
                        assert(nodes_view(Seq::<XmlNode>::empty()) =~= Seq::<XmlNodeV>::empty());
                    }
                    Ok((n, k + 2))
                } else if k + 1 >= s.len() {
                    Err(DecodeError::TruncatedInput { elem: crate::chars::chars_to_string(&ctx) })
                } else {
                    Err(
                        DecodeError::StructuralError {
                            tag: crate::chars::string_of_char(s[k + 1]),
                            context: crate::chars::chars_to_string(&ctx),
                        },
                    )
                }
            } else {
                match lex_nodes(s, k + 1) {
                    Err(e) => Err(e),
                    Ok((children, m)) => {
                        if s.len() - m > 1 && s[m] == '<' && s[m + 1] == '/' {
                            let (cname, q) = lex_name(s, m + 2);
                            if q < s.len() && s[q] == '>' && crate::chars::chars_eq(&cname, &name) {
                                let n = XmlNode::Elem(XmlElem { name, attrs, children });
                                Ok((n, q + 1))
                            } else if q >= s.len() {
                                Err(
                                    DecodeError::TruncatedInput {
                                        elem: crate::chars::chars_to_string(&ctx),
                                    },
                                )
                            } else if !crate::chars::chars_eq(&cname, &name) {
                                Err(
                                    DecodeError::StructuralError {
                                        tag: crate::chars::chars_to_string(&cname),
                                        context: crate::chars::chars_to_string(&ctx),
                                    },
                                )
                            } else {
                                Err(
                                    DecodeError::StructuralError {
                                        tag: crate::chars::string_of_char(s[q]),
                                        context: crate::chars::chars_to_string(&ctx),
                                    },
                                )
                            }
                        } else {
                            Err(
                                DecodeError::TruncatedInput {
                                    elem: crate::chars::chars_to_string(&ctx),
                                },
                            )
                        }
                    },
                }
            }
        },
    }
}

/// A whole buffer as a sequence of nodes; trailing content is refused.
pub fn lex_forest(s: &Vec<char>) -> (r: Result<Vec<XmlNode>, DecodeError>)
    ensures
        match (r, sp_lex_forest(s@)) {
            (Ok(ns), Ok(p)) => nodes_view(ns@) == p,
            (Err(e), Err(ev)) => e@ == ev,
            _ => false,
        },
{
    match lex_nodes(s, 0) {
        Err(e) => Err(e),
        Ok((ns, j)) => {
            if j == s.len() {
                Ok(ns)
            } else {
                let (cname, _q) = lex_name(s, j + 2);
                Err(
                    DecodeError::StructuralError {
                        tag: crate::chars::chars_to_string(&cname),
                        context: String::new(),
                    },
                )
            }
        },
    }
}

} // verus!
