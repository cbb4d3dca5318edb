//! The codec between the markup tree of [`crate::xml`] and the document
//! model: one decoder and one encoder per model type, each defined by a spec
//! function that its executable twin returns exactly.
//!
//! Decoding is strict: an element or attribute value outside the grammar of
//! its context is a [`DecodeError`], and no partial value is ever returned.
//! Encoding is total over the model and produces the canonical form: every
//! attribute holding its default is omitted.

use vstd::prelude::*;
use crate::chars::{chars_eq_str, chars_to_string, str_to_chars};
use crate::error::{DecodeError, DecodeErrorView};
use crate::model::{
    BlockXRef, BlockXRefKind, BlockXRefV, Description, Document, DocumentInfo, DocumentInfoV,
    DocumentLevel, DocumentV, Fragment, FragmentContent, FragmentContentV, FragmentV, Labels,
    Locator, LocatorV, Note, NoteV, Notes, PropertiesFragment, PropertiesFragmentV, Property,
    PropertyDatatype, PropertyV, PropertyValue, PropertyValueV, Publication, PublicationV, Section,
    SectionContent, SectionContentV, SectionV, Table, TableCaption, TableCell, TableCellV,
    TableColumn, TableColumnV, TablePart, TableRow, TableRowV, TableV, URIDescriptor,
    URIDescriptorV, XRef, XRefDisplayKind, XRefFragment, XRefFragmentV, XRefKind, XRefV,
    bag_view, bxref_view, bxrefs_view, cell_view, cells_view, col_view, cols_view, doc_view,
    docinfo_view, fc_view, fcs_view, frag_view, locator_view, locators_view, note_view, notes_view,
    pfrag_view, prop_view, props_view, pv_view, pvs_view, row_view, rows_view, sc_view, sc_id,
    scs_view, section_view, sections_view, sp_align_of, sp_align_str, sp_bxref_kind_of,
    sp_bxref_kind_str, sp_datatype_of, sp_datatype_str, sp_default_bxref, sp_default_xref,
    sp_display_of, sp_display_str, sp_level_of, sp_level_str, sp_part_of, sp_part_str,
    sp_xref_kind_of, sp_xref_kind_str, strs_view, uri_view, xfrag_view, xref_view,
};
use crate::text::{
    Alignment, Bold, CharacterStyle, CharacterStyleV, Heading, HeadingV, Image, ImageV, Italic,
    Link, Monospace, Para, ParaContent, ParaContentV, ParaV, Subscript, Superscript, Underline,
    cs_view, css_view, opt_view, pc_view, pcs_view,
};
use crate::xml::{
    XmlAttr, XmlAttrV, XmlElem, XmlElemV, XmlNode, XmlNodeV, attrs_view, node_view, nodes_view,
};

verus! {

// ---------- primitive attribute coders ----------

/// The wire form of a boolean attribute.
pub open spec fn sp_bool_str(b: bool) -> Seq<char> {
    if b {
        "true"@
    } else {
        "false"@
    }
}

/// The boolean a wire literal names; values outside `true` and `false` are
/// refused.
pub open spec fn sp_bool_of(v: Seq<char>) -> Option<bool> {
    if v == "true"@ {
        Some(true)
    } else if v == "false"@ {
        Some(false)
    } else {
        None
    }
}

fn bool_of_chars(v: &Vec<char>) -> (r: Option<bool>)
    ensures
        r == sp_bool_of(v@),
{
    if chars_eq_str(v, "true") {
        Some(true)
    } else if chars_eq_str(v, "false") {
        Some(false)
    } else {
        None
    }
}

/// Proves that reading back the written boolean literal gives the same value.
pub proof fn lemma_bool_round_trip(b: bool)
    ensures
        sp_bool_of(sp_bool_str(b)) == Some(b),
{
    broadcast use vstd::string::group_string_axioms;

    reveal_strlit("true");
    reveal_strlit("false");
    assert("true"@.len() == 4);
    assert("false"@.len() == 5);
}

fn display_of_chars(v: &Vec<char>) -> (r: Option<XRefDisplayKind>)
    ensures
        r == sp_display_of(v@),
{
    if chars_eq_str(v, "document") {
        Some(XRefDisplayKind::Document)
    } else if chars_eq_str(v, "document+manual") {
        Some(XRefDisplayKind::DocumentManual)
    } else if chars_eq_str(v, "document+fragment") {
        Some(XRefDisplayKind::DocumentFragment)
    } else if chars_eq_str(v, "manual") {
        Some(XRefDisplayKind::Manual)
    } else if chars_eq_str(v, "template") {
        Some(XRefDisplayKind::Template)
    } else {
        None
    }
}

fn xref_kind_of_chars(v: &Vec<char>) -> (r: Option<XRefKind>)
    ensures
        r == sp_xref_kind_of(v@),
{
    if chars_eq_str(v, "none") {
        Some(XRefKind::NoneKind)
    } else if chars_eq_str(v, "alternate") {
        Some(XRefKind::Alternate)
    } else if chars_eq_str(v, "math") {
        Some(XRefKind::Math)
    } else {
        None
    }
}

fn bxref_kind_of_chars(v: &Vec<char>) -> (r: Option<BlockXRefKind>)
    ensures
        r == sp_bxref_kind_of(v@),
{
    if chars_eq_str(v, "none") {
        Some(BlockXRefKind::NoneKind)
    } else if chars_eq_str(v, "alternate") {
        Some(BlockXRefKind::Alternate)
    } else if chars_eq_str(v, "math") {
        Some(BlockXRefKind::Math)
    } else if chars_eq_str(v, "embed") {
        Some(BlockXRefKind::Embed)
    } else if chars_eq_str(v, "transclude") {
        Some(BlockXRefKind::Transclude)
    } else {
        None
    }
}

fn datatype_of_chars(v: &Vec<char>) -> (r: Option<PropertyDatatype>)
    ensures
        r == sp_datatype_of(v@),
{
    if chars_eq_str(v, "string") {
        Some(PropertyDatatype::String)
    } else if chars_eq_str(v, "date") {
        Some(PropertyDatatype::Date)
    } else if chars_eq_str(v, "xref") {
        Some(PropertyDatatype::XRef)
    } else if chars_eq_str(v, "link") {
        Some(PropertyDatatype::Link)
    } else if chars_eq_str(v, "markdown") {
        Some(PropertyDatatype::Markdown)
    } else if chars_eq_str(v, "markup") {
        Some(PropertyDatatype::Markup)
    } else {
        None
    }
}

fn level_of_chars(v: &Vec<char>) -> (r: Option<DocumentLevel>)
    ensures
        r == sp_level_of(v@),
{
    if chars_eq_str(v, "metadata") {
        Some(DocumentLevel::Metadata)
    } else if chars_eq_str(v, "portable") {
        Some(DocumentLevel::Portable)
    } else if chars_eq_str(v, "processed") {
        Some(DocumentLevel::Processed)
    } else {
        None
    }
}

fn align_of_chars(v: &Vec<char>) -> (r: Option<Alignment>)
    ensures
        r == sp_align_of(v@),
{
    if chars_eq_str(v, "left") {
        Some(Alignment::Left)
    } else if chars_eq_str(v, "center") {
        Some(Alignment::Center)
    } else if chars_eq_str(v, "right") {
        Some(Alignment::Right)
    } else if chars_eq_str(v, "justify") {
        Some(Alignment::Justify)
    } else {
        None
    }
}

fn part_of_chars(v: &Vec<char>) -> (r: Option<TablePart>)
    ensures
        r == sp_part_of(v@),
{
    if chars_eq_str(v, "header") {
        Some(TablePart::Header)
    } else if chars_eq_str(v, "body") {
        Some(TablePart::Body)
    } else if chars_eq_str(v, "footer") {
        Some(TablePart::Footer)
    } else {
        None
    }
}

// ---------- comma-separated lists ----------

/// The characters of one field at `i`, up to the next comma or the end, and
/// the position after the field.
pub open spec fn sp_take_field(v: Seq<char>, i: int) -> (Seq<char>, int)
    decreases v.len() - i,
{
    if 0 <= i < v.len() && v[i] != ',' {
        let t = sp_take_field(v, i + 1);
        (seq![v[i]] + t.0, t.1)
    } else {
        (Seq::empty(), i)
    }
}

/// The fields of a comma-separated list, from `i` on.
pub open spec fn sp_split_from(v: Seq<char>, i: int) -> Seq<Seq<char>>
    decreases v.len() - i,
{
    let t = sp_take_field(v, i);
    if t.1 >= v.len() {
        seq![t.0]
    } else if i <= t.1 && t.1 + 1 <= v.len() {
        seq![t.0] + sp_split_from(v, t.1 + 1)
    } else {
        seq![t.0]
    }
}

/// The fields of a comma-separated list: splitting the empty sequence gives
/// one empty field.
pub open spec fn sp_split_commas(v: Seq<char>) -> Seq<Seq<char>> {
    sp_split_from(v, 0)
}

/// Splits a comma-separated attribute value into its fields.
fn split_commas(v: &Vec<char>) -> (r: Vec<String>)
    ensures
        strs_view(r@) == sp_split_commas(v@),
{
    let mut out: Vec<String> = Vec::new();
    let mut i: usize = 0;
    proof {
        assert(strs_view(out@) =~= Seq::<Seq<char>>::empty());
        assert(Seq::<Seq<char>>::empty() + sp_split_from(v@, 0) =~= sp_split_from(v@, 0));
    }
    loop
        invariant
            i <= v.len(),
            sp_split_commas(v@) == strs_view(out@) + sp_split_from(v@, i as int),
        decreases v@.len() - i,
    {
        let mut field: Vec<char> = Vec::new();
        let mut j = i;
        proof {
            assert(Seq::<char>::empty() + sp_take_field(v@, i as int).0 =~= sp_take_field(
                v@,
                i as int,
            ).0);
        }
        while j < v.len() && v[j] != ','
            invariant
                i <= j <= v.len(),
                sp_take_field(v@, i as int).0 == field@ + sp_take_field(v@, j as int).0,
                sp_take_field(v@, i as int).1 == sp_take_field(v@, j as int).1,
            decreases v@.len() - j,
        {
            let ghost f0 = field@;
            field.push(v[j]);
            proof {
                assert(sp_take_field(v@, j as int).0 == seq![v@[j as int]] + sp_take_field(
                    v@,
                    j as int + 1,
                ).0);
                assert(field@ =~= f0 + seq![v@[j as int]]);
                assert(f0 + (seq![v@[j as int]] + sp_take_field(v@, j as int + 1).0) =~= field@
                    + sp_take_field(v@, j as int + 1).0);
            }
            j = j + 1;
        }
        proof {
            assert(sp_take_field(v@, j as int).0 == Seq::<char>::empty());
            assert(field@ + Seq::<char>::empty() =~= field@);
            assert(sp_take_field(v@, i as int).0 == field@);
            assert(sp_take_field(v@, i as int).1 == j as int);
        }
        let ghost o0 = out@;
        out.push(chars_to_string(&field));
        proof {
            assert(strs_view(out@) =~= strs_view(o0).push(field@));
        }
        if j >= v.len() {
            proof {
                assert(sp_split_from(v@, i as int) =~= seq![field@]);
                assert(strs_view(o0) + seq![field@] =~= strs_view(out@));
                assert(strs_view(out@) + Seq::<Seq<char>>::empty() =~= strs_view(out@));
                assert(sp_split_commas(v@) =~= strs_view(out@));
            }
            return out;
        }
        proof {
            assert(sp_split_from(v@, i as int) == seq![field@] + sp_split_from(v@, j as int + 1));
            assert(strs_view(o0) + (seq![field@] + sp_split_from(v@, j as int + 1)) =~= strs_view(
                out@,
            ) + sp_split_from(v@, j as int + 1));
        }
        i = j + 1;
    }
}

/// What follows the first field in a comma-separated list: a comma and a
/// field, for each remaining field.
pub open spec fn sp_join_tail(parts: Seq<Seq<char>>, i: int) -> Seq<char>
    decreases parts.len() - i,
{
    if !(0 <= i < parts.len()) {
        Seq::empty()
    } else {
        seq![','] + parts[i] + sp_join_tail(parts, i + 1)
    }
}

/// The comma-separated list holding the given fields, in order.
pub open spec fn sp_join_commas(parts: Seq<Seq<char>>) -> Seq<char> {
    if parts.len() == 0 {
        Seq::empty()
    } else {
        parts[0] + sp_join_tail(parts, 1)
    }
}

/// Joins fields into a comma-separated attribute value.
fn join_commas(parts: &Vec<String>) -> (r: Vec<char>)
    ensures
        r@ == sp_join_commas(strs_view(parts@)),
{
    let mut out: Vec<char> = Vec::new();
    if parts.len() == 0 {
        return out;
    }
    let ghost pv = strs_view(parts@);
    let p0 = str_to_chars(parts[0].as_str());
    let mut q: usize = 0;
    while q < p0.len()
        invariant
            q <= p0.len(),
            out@ == p0@.take(q as int),
        decreases p0.len() - q,
    {
        out.push(p0[q]);
        proof {
            assert(out@ =~= p0@.take(q as int + 1));
        }
        q = q + 1;
    }
    proof {
        assert(p0@.take(p0@.len() as int) =~= p0@);
        assert(pv[0] == parts@[0]@);
    }
    let mut i: usize = 1;
    while i < parts.len()
        invariant
            1 <= i,
            i <= parts@.len() || i == 1,
            pv == strs_view(parts@),
            pv.len() == parts@.len(),
            sp_join_commas(pv) == out@ + sp_join_tail(pv, i as int),
        decreases parts@.len() - i,
    {
        let ghost o0 = out@;
        out.push(',');
        let p = str_to_chars(parts[i].as_str());
        let mut q: usize = 0;
        let ghost mid = out@;
        while q < p.len()
            invariant
                q <= p.len(),
                out@ == mid + p@.take(q as int),
            decreases p.len() - q,
        {
            out.push(p[q]);
            proof {
                assert(out@ =~= mid + p@.take(q as int + 1));
            }
            q = q + 1;
        }
        proof {
            assert(p@.take(p@.len() as int) =~= p@);
            assert(pv[i as int] == parts@[i as int]@);
            assert(out@ =~= o0 + (seq![','] + pv[i as int]));
            assert(sp_join_tail(pv, i as int) == seq![','] + pv[i as int] + sp_join_tail(
                pv,
                i as int + 1,
            ));
            assert(o0 + (seq![','] + pv[i as int]) + sp_join_tail(pv, i as int + 1) =~= o0
                + sp_join_tail(pv, i as int));
        }
        i = i + 1;
    }
    proof {
        assert(sp_join_tail(pv, i as int) == Seq::<char>::empty());
        assert(out@ + Seq::<char>::empty() =~= out@);
    }
    out
}

proof fn lemma_take_field_exact(v: Seq<char>, i: int, t: Seq<char>)
    requires
        0 <= i,
        i + t.len() <= v.len(),
        v.subrange(i, i + t.len()) == t,
        forall|j: int| 0 <= j < t.len() ==> t[j] != ',',
        i + t.len() == v.len() || v[i + t.len()] == ',',
    ensures
        sp_take_field(v, i) == (t, i + t.len()),
    decreases t.len(),
{
    if t.len() == 0 {
        assert(sp_take_field(v, i) == (Seq::<char>::empty(), i));
        assert(t =~= Seq::<char>::empty());
    } else {
        assert(v[i] == t[0]);
        assert(t[0] != ',');
        assert(v.subrange(i + 1, i + t.len()) =~= t.drop_first());
        lemma_take_field_exact(v, i + 1, t.drop_first());
        assert(seq![v[i]] + t.drop_first() =~= t);
    }
}

proof fn lemma_take_field_skip(v: Seq<char>, m: int, q: int)
    requires
        0 <= m <= v.len(),
        0 <= q,
    ensures
        sp_take_field(v, m + q).0 == sp_take_field(v.skip(m), q).0,
        sp_take_field(v, m + q).1 == sp_take_field(v.skip(m), q).1 + m,
    decreases v.len() - (m + q),
{
    let w = v.skip(m);
    if m + q < v.len() && v[m + q] != ',' {
        assert(w[q] == v[m + q]);
        lemma_take_field_skip(v, m, q + 1);
    } else {
        if q < w.len() {
            assert(w[q] == v[m + q]);
        }
    }
}

proof fn lemma_split_skip(v: Seq<char>, m: int, i: int)
    requires
        0 <= m <= v.len(),
        0 <= i,
    ensures
        sp_split_from(v, m + i) == sp_split_from(v.skip(m), i),
    decreases v.len() - (m + i),
{
    let w = v.skip(m);
    lemma_take_field_skip(v, m, i);
    let t = sp_take_field(v, m + i);
    let tw = sp_take_field(w, i);
    assert(t.0 == tw.0 && t.1 == tw.1 + m);
    if t.1 >= v.len() {
        assert(tw.1 >= w.len());
    } else {
        if m + i <= t.1 && t.1 + 1 <= v.len() {
            assert(i <= tw.1 && tw.1 + 1 <= w.len());
            lemma_split_skip(v, m, tw.1 + 1);
        }
    }
}

proof fn lemma_join_tail_shift(parts: Seq<Seq<char>>, j: int)
    requires
        0 <= j,
        parts.len() > 0,
    ensures
        sp_join_tail(parts, j + 1) == sp_join_tail(parts.drop_first(), j),
    decreases parts.len() - j,
{
    if j + 1 < parts.len() {
        assert(parts.drop_first()[j] == parts[j + 1]);
        lemma_join_tail_shift(parts, j + 1);
    }
}

/// Round trip for comma-separated lists: splitting a joined list gives back
/// the same fields, provided there is at least one field and no field holds a
/// comma.
pub proof fn lemma_commas_round_trip(parts: Seq<Seq<char>>)
    requires
        parts.len() >= 1,
        forall|k: int, j: int|
            0 <= k < parts.len() && 0 <= j < parts[k].len() ==> #[trigger] parts[k][j] != ',',
    ensures
        sp_split_commas(sp_join_commas(parts)) == parts,
    decreases parts.len(),
{
    let v = sp_join_commas(parts);
    let p0 = parts[0];
    let l0 = p0.len() as int;
    assert(v == p0 + sp_join_tail(parts, 1));
    assert(v.subrange(0, l0) =~= p0);
    if parts.len() == 1 {
        assert(sp_join_tail(parts, 1) == Seq::<char>::empty());
        assert(v.len() == l0);
        lemma_take_field_exact(v, 0, p0);
        assert(sp_split_from(v, 0) =~= parts);
    } else {
        assert(sp_join_tail(parts, 1) == seq![','] + parts[1] + sp_join_tail(parts, 2));
        assert(v[l0] == ',');
        lemma_take_field_exact(v, 0, p0);
        assert(sp_take_field(v, 0) == (p0, l0));
        assert(l0 + 1 <= v.len());
        lemma_split_skip(v, l0 + 1, 0);
        assert(sp_split_from(v, l0 + 1) == sp_split_from(v.skip(l0 + 1), 0));
        lemma_join_tail_shift(parts, 1);
        assert(sp_join_tail(parts, 2) == sp_join_tail(parts.drop_first(), 1));
        assert(v.skip(l0 + 1) =~= parts[1] + sp_join_tail(parts.drop_first(), 1));
        assert(parts.drop_first()[0] == parts[1]);
        assert(v.skip(l0 + 1) == sp_join_commas(parts.drop_first()));
        lemma_commas_round_trip(parts.drop_first());
        assert(sp_split_from(v, 0) == seq![p0] + sp_split_from(v, l0 + 1));
        assert(seq![p0] + parts.drop_first() =~= parts);
    }
}

// ---------- shared helpers ----------

/// One attribute where the option holds a value, no attribute where it is
/// absent.
pub open spec fn sp_opt_attr(name: Seq<char>, o: Option<Seq<char>>) -> Seq<XmlAttrV> {
    match o {
        Some(v) => seq![XmlAttrV { name, value: v }],
        None => Seq::empty(),
    }
}

/// One attribute.
pub open spec fn sp_attr1(name: Seq<char>, value: Seq<char>) -> Seq<XmlAttrV> {
    seq![XmlAttrV { name, value }]
}

/// One boolean attribute where the option holds a value.
pub open spec fn sp_opt_bool_attr(name: Seq<char>, o: Option<bool>) -> Seq<XmlAttrV> {
    match o {
        Some(b) => seq![XmlAttrV { name, value: sp_bool_str(b) }],
        None => Seq::empty(),
    }
}

fn push_attr(attrs: &mut Vec<XmlAttr>, name: &str, value: Vec<char>)
    ensures
        attrs_view(final(attrs)@) == attrs_view(old(attrs)@) + sp_attr1(name@, value@),
{
    let ghost a0 = attrs@;
    let ghost vv = value@;
    let n = str_to_chars(name);
    attrs.push(XmlAttr { name: n, value });
    proof {
        assert(attrs_view(attrs@) =~= attrs_view(a0) + sp_attr1(name@, vv));
    }
}

fn push_opt_attr(attrs: &mut Vec<XmlAttr>, name: &str, value: &Option<String>)
    ensures
        attrs_view(final(attrs)@) == attrs_view(old(attrs)@) + sp_opt_attr(
            name@,
            opt_view(*value),
        ),
{
    match value {
        Some(s) => {
            push_attr(attrs, name, str_to_chars(s.as_str()));
        },
        None => {
            proof {
                assert(attrs_view(attrs@) + sp_opt_attr(name@, opt_view(*value)) =~= attrs_view(
                    attrs@,
                ));
            }
        },
    }
}

fn push_opt_bool_attr(attrs: &mut Vec<XmlAttr>, name: &str, value: &Option<bool>)
    ensures
        attrs_view(final(attrs)@) == attrs_view(old(attrs)@) + sp_opt_bool_attr(name@, *value),
{
    match value {
        Some(b) => {
            if *b {
                push_attr(attrs, name, str_to_chars("true"));
            } else {
                push_attr(attrs, name, str_to_chars("false"));
            }
        },
        None => {
            proof {
                assert(attrs_view(attrs@) + sp_opt_bool_attr(name@, *value) =~= attrs_view(
                    attrs@,
                ));
            }
        },
    }
}

fn extend_chars(dst: &mut Vec<char>, src: &Vec<char>)
    ensures
        final(dst)@ == old(dst)@ + src@,
{
    let mut k: usize = 0;
    while k < src.len()
        invariant
            k <= src.len(),
            dst@ == old(dst)@ + src@.take(k as int),
        decreases src.len() - k,
    {
        dst.push(src[k]);
        proof {
            assert(dst@ =~= old(dst)@ + src@.take(k as int + 1));
        }
        k = k + 1;
    }
    proof {
        assert(src@.take(src@.len() as int) =~= src@);
    }
}

/// The text children of an element, concatenated after `acc`; an element
/// child is a structural fault under the given context.
pub open spec fn sp_text_content(
    children: Seq<XmlNodeV>,
    i: int,
    acc: Seq<char>,
    ctx: Seq<char>,
) -> Result<Seq<char>, DecodeErrorView>
    decreases children.len() - i,
{
    if !(0 <= i < children.len()) {
        Ok(acc)
    } else {
        match children[i] {
            XmlNodeV::Text(t) => sp_text_content(children, i + 1, acc + t, ctx),
            XmlNodeV::Elem(c) => Err(
                DecodeErrorView::StructuralError { tag: c.name, context: ctx },
            ),
        }
    }
}

/// Concatenates the text children of `e`; an element child is refused.
fn de_text_content(e: &XmlElem, ctx: &str) -> (r: Result<Vec<char>, DecodeError>)
    ensures
        match (r, sp_text_content(e@.children, 0, Seq::<char>::empty(), ctx@)) {
            (Ok(t), Ok(tv)) => t@ == tv,
            (Err(er), Err(ev)) => er@ == ev,
            _ => false,
        },
{
    let mut acc: Vec<char> = Vec::new();
    let mut i: usize = 0;
    proof {
        crate::xml::lemma_nodes_view_len(e.children@);
    }
    while i < e.children.len()
        invariant
            i <= e.children@.len(),
            e@.children.len() == e.children@.len(),
            sp_text_content(e@.children, 0, Seq::<char>::empty(), ctx@) == sp_text_content(
                e@.children,
                i as int,
                acc@,
                ctx@,
            ),
        decreases e.children@.len() - i,
    {
        proof {
            crate::xml::lemma_nodes_view_index(e.children@, i as int);
        }
        match &e.children[i] {
            XmlNode::Text(t) => {
                extend_chars(&mut acc, t);
            },
            XmlNode::Elem(c) => {
                return Err(
                    DecodeError::StructuralError {
                        tag: chars_to_string(&c.name),
                        context: ctx.to_owned(),
                    },
                );
            },
        }
        i = i + 1;
    }
    Ok(acc)
}

// ---------- the cross-reference codec ----------

/// The attributes of an inline cross-reference folded over a value under
/// construction: known names set their field, boolean and enumerated names
/// are refused outside their literal sets, unknown names are ignored.
pub open spec fn sp_xref_attrs(attrs: Seq<XmlAttrV>, i: int, acc: XRefV) -> Result<
    XRefV,
    DecodeErrorView,
>
    decreases attrs.len() - i,
{
    if !(0 <= i < attrs.len()) {
        Ok(acc)
    } else {
        let a = attrs[i];
        if a.name == "uriid"@ {
            sp_xref_attrs(attrs, i + 1, XRefV { uriid: Some(a.value), ..acc })
        } else if a.name == "docid"@ {
            sp_xref_attrs(attrs, i + 1, XRefV { docid: Some(a.value), ..acc })
        } else if a.name == "href"@ {
            sp_xref_attrs(attrs, i + 1, XRefV { href: Some(a.value), ..acc })
        } else if a.name == "config"@ {
            sp_xref_attrs(attrs, i + 1, XRefV { config: Some(a.value), ..acc })
        } else if a.name == "display"@ {
            match sp_display_of(a.value) {
                Some(k) => sp_xref_attrs(attrs, i + 1, XRefV { display: k, ..acc }),
                None => Err(
                    DecodeErrorView::MalformedAttributeValue { attr: a.name, value: a.value },
                ),
            }
        } else if a.name == "frag"@ {
            sp_xref_attrs(attrs, i + 1, XRefV { frag_id: a.value, ..acc })
        } else if a.name == "labels"@ {
            sp_xref_attrs(attrs, i + 1, XRefV { labels: sp_split_commas(a.value), ..acc })
        } else if a.name == "level"@ {
            sp_xref_attrs(attrs, i + 1, XRefV { level: Some(a.value), ..acc })
        } else if a.name == "reverselink"@ {
            match sp_bool_of(a.value) {
                Some(b) => sp_xref_attrs(attrs, i + 1, XRefV { reverselink: b, ..acc }),
                None => Err(
                    DecodeErrorView::MalformedAttributeValue { attr: a.name, value: a.value },
                ),
            }
        } else if a.name == "reversetitle"@ {
            sp_xref_attrs(attrs, i + 1, XRefV { reversetitle: Some(a.value), ..acc })
        } else if a.name == "title"@ {
            sp_xref_attrs(attrs, i + 1, XRefV { title: Some(a.value), ..acc })
        } else if a.name == "type"@ {
            match sp_xref_kind_of(a.value) {
                Some(k) => sp_xref_attrs(attrs, i + 1, XRefV { xref_type: Some(k), ..acc }),
                None => Err(
                    DecodeErrorView::MalformedAttributeValue { attr: a.name, value: a.value },
                ),
            }
        } else {
            sp_xref_attrs(attrs, i + 1, acc)
        }
    }
}

/// An inline cross-reference decoded from its element: the attributes over
/// the defaults, the text content, a fragment id of `default` where the
/// markup names none.
pub open spec fn sp_de_xref(e: XmlElemV) -> Result<XRefV, DecodeErrorView> {
    match sp_xref_attrs(e.attrs, 0, sp_default_xref()) {
        Err(er) => Err(er),
        Ok(x) => match sp_text_content(e.children, 0, Seq::empty(), "xref"@) {
            Err(er) => Err(er),
            Ok(t) => Ok(XRefV { content: t, ..x }),
        },
    }
}

/// Decodes an inline cross-reference from its element.
pub fn de_xref(e: &XmlElem) -> (r: Result<XRef, DecodeError>)
    ensures
        match (r, sp_de_xref(e@)) {
            (Ok(x), Ok(xv)) => x@ == xv,
            (Err(er), Err(ev)) => er@ == ev,
            _ => false,
        },
{
    let mut acc = XRef::blank();
    proof {
        crate::xml::lemma_attrs_view_len(e.attrs@);
    }
    let mut i: usize = 0;
    while i < e.attrs.len()
        invariant
            i <= e.attrs@.len(),
            e@.attrs.len() == e.attrs@.len(),
            e@.attrs == attrs_view(e.attrs@),
            sp_xref_attrs(e@.attrs, 0, sp_default_xref()) == sp_xref_attrs(
                e@.attrs,
                i as int,
                acc@,
            ),
        decreases e.attrs@.len() - i,
    {
        proof {
            assert(e@.attrs[i as int] == e.attrs@[i as int]@);
        }
        let a = &e.attrs[i];
        if chars_eq_str(&a.name, "uriid") {
            acc.uriid = Some(chars_to_string(&a.value));
        } else if chars_eq_str(&a.name, "docid") {
            acc.docid = Some(chars_to_string(&a.value));
        } else if chars_eq_str(&a.name, "href") {
            acc.href = Some(chars_to_string(&a.value));
        } else if chars_eq_str(&a.name, "config") {
            acc.config = Some(chars_to_string(&a.value));
        } else if chars_eq_str(&a.name, "display") {
            match display_of_chars(&a.value) {
                Some(k) => {
                    acc.display = k;
                },
                None => {
                    return Err(
                        DecodeError::MalformedAttributeValue {
                            attr: chars_to_string(&a.name),
                            value: chars_to_string(&a.value),
                        },
                    );
                },
            }
        } else if chars_eq_str(&a.name, "frag") {
            acc.frag_id = chars_to_string(&a.value);
        } else if chars_eq_str(&a.name, "labels") {
            acc.labels = split_commas(&a.value);
        } else if chars_eq_str(&a.name, "level") {
            acc.level = Some(chars_to_string(&a.value));
        } else if chars_eq_str(&a.name, "reverselink") {
            match bool_of_chars(&a.value) {
                Some(b) => {
                    acc.reverselink = b;
                },
                None => {
                    return Err(
                        DecodeError::MalformedAttributeValue {
                            attr: chars_to_string(&a.name),
                            value: chars_to_string(&a.value),
                        },
                    );
                },
            }
        } else if chars_eq_str(&a.name, "reversetitle") {
            acc.reversetitle = Some(chars_to_string(&a.value));
        } else if chars_eq_str(&a.name, "title") {
            acc.title = Some(chars_to_string(&a.value));
        } else if chars_eq_str(&a.name, "type") {
            match xref_kind_of_chars(&a.value) {
                Some(k) => {
                    acc.xref_type = Some(k);
                },
                None => {
                    return Err(
                        DecodeError::MalformedAttributeValue {
                            attr: chars_to_string(&a.name),
                            value: chars_to_string(&a.value),
                        },
                    );
                },
            }
        }
        i = i + 1;
    }
    match de_text_content(e, "xref") {
        Err(er) => Err(er),
        Ok(t) => {
            acc.content = chars_to_string(&t);
            Ok(acc)
        },
    }
}

/// An inline cross-reference encoded as its element: destination and optional
/// attributes first, each defaulted attribute omitted, the content as the
/// element's text.
pub open spec fn sp_en_xref(x: XRefV) -> XmlElemV {
    XmlElemV {
        name: "xref"@,
        attrs: sp_opt_attr("uriid"@, x.uriid) + sp_opt_attr("docid"@, x.docid) + sp_opt_attr(
            "href"@,
            x.href,
        ) + sp_opt_attr("config"@, x.config) + (if x.display != XRefDisplayKind::Document {
            sp_attr1("display"@, sp_display_str(x.display))
        } else {
            Seq::empty()
        }) + (if x.frag_id != "default"@ {
            sp_attr1("frag"@, x.frag_id)
        } else {
            Seq::empty()
        }) + (if x.labels.len() > 0 {
            sp_attr1("labels"@, sp_join_commas(x.labels))
        } else {
            Seq::empty()
        }) + sp_opt_attr("level"@, x.level) + (if !x.reverselink {
            sp_attr1("reverselink"@, "false"@)
        } else {
            Seq::empty()
        }) + sp_opt_attr("reversetitle"@, x.reversetitle) + sp_opt_attr("title"@, x.title) + (
        match x.xref_type {
            Some(k) => sp_attr1("type"@, sp_xref_kind_str(k)),
            None => Seq::empty(),
        }),
        children: if x.content.len() == 0 {
            Seq::empty()
        } else {
            seq![XmlNodeV::Text(x.content)]
        },
    }
}

/// Encodes an inline cross-reference as its element.
pub fn en_xref(x: &XRef) -> (r: XmlElem)
    ensures
        r@ == sp_en_xref(x@),
{
    let mut attrs: Vec<XmlAttr> = Vec::new();
    proof {
        assert(attrs_view(attrs@) =~= Seq::<XmlAttrV>::empty());
    }
    push_opt_attr(&mut attrs, "uriid", &x.uriid);
    push_opt_attr(&mut attrs, "docid", &x.docid);
    push_opt_attr(&mut attrs, "href", &x.href);
    push_opt_attr(&mut attrs, "config", &x.config);
    if !matches!(x.display, XRefDisplayKind::Document) {
        push_attr(&mut attrs, "display", str_to_chars(x.display.to_str()));
    }
    let frag_chars = str_to_chars(x.frag_id.as_str());
    if !chars_eq_str(&frag_chars, "default") {
        push_attr(&mut attrs, "frag", frag_chars);
    }
    if x.labels.len() > 0 {
        proof {
            assert(strs_view(x.labels@).len() == x.labels@.len());
        }
        push_attr(&mut attrs, "labels", join_commas(&x.labels));
    } else {
        proof {
            assert(strs_view(x.labels@).len() == x.labels@.len());
        }
    }
    push_opt_attr(&mut attrs, "level", &x.level);
    if !x.reverselink {
        push_attr(&mut attrs, "reverselink", str_to_chars("false"));
    }
    push_opt_attr(&mut attrs, "reversetitle", &x.reversetitle);
    push_opt_attr(&mut attrs, "title", &x.title);
    match &x.xref_type {
        Some(k) => {
            push_attr(&mut attrs, "type", str_to_chars(k.to_str()));
        },
        None => {},
    }
    let mut children: Vec<XmlNode> = Vec::new();
    if !x.content.as_str().is_empty() {
        let t = str_to_chars(x.content.as_str());
        let ghost tv = t@;
        children.push(XmlNode::Text(t));
        proof {
            assert(children@.len() == 1);
            assert(children@[0] == XmlNode::Text(t));
            assert(node_view(children@[0]) == XmlNodeV::Text(tv));
            assert(children@.drop_first() =~= Seq::<XmlNode>::empty());
            assert(nodes_view(children@) == seq![node_view(children@[0])] + nodes_view(
                children@.drop_first(),
            ));
            assert(nodes_view(Seq::<XmlNode>::empty()) == Seq::<XmlNodeV>::empty());
            assert(nodes_view(children@) =~= seq![XmlNodeV::Text(x.content@)]);
        }
    } else {
        proof {
            assert(nodes_view(children@) =~= Seq::<XmlNodeV>::empty());
        }
    }
    let r = XmlElem { name: str_to_chars("xref"), attrs, children };
    proof {
        assert(attrs_view(r.attrs@) =~= sp_en_xref(x@).attrs);
    }
    r
}

// ---------- the property codec ----------

/// Whether a tag name is legal inside a markup-valued property. The set is
/// deliberately narrower than block content: no tables, no block
/// cross-references.
pub open spec fn sp_is_markup_name(v: Seq<char>) -> bool {
    ||| v == "heading"@
    ||| v == "para"@
    ||| v == "list"@
    ||| v == "nlist"@
    ||| v == "preformat"@
    ||| v == "br"@
    ||| v == "bold"@
    ||| v == "italic"@
    ||| v == "inline"@
    ||| v == "monospace"@
    ||| v == "underline"@
    ||| v == "image"@
}

fn is_markup_name(v: &Vec<char>) -> (r: bool)
    ensures
        r == sp_is_markup_name(v@),
{
    chars_eq_str(v, "heading") || chars_eq_str(v, "para") || chars_eq_str(v, "list")
        || chars_eq_str(v, "nlist") || chars_eq_str(v, "preformat") || chars_eq_str(v, "br")
        || chars_eq_str(v, "bold") || chars_eq_str(v, "italic") || chars_eq_str(v, "inline")
        || chars_eq_str(v, "monospace") || chars_eq_str(v, "underline") || chars_eq_str(
        v,
        "image",
    )
}

/// The first tag name outside the markup set anywhere in a node, depth first.
pub open spec fn sp_markup_bad_node(n: XmlNodeV) -> Option<Seq<char>>
    decreases n, 1int,
{
    match n {
        XmlNodeV::Text(_) => None,
        XmlNodeV::Elem(e) => if !sp_is_markup_name(e.name) {
            Some(e.name)
        } else {
            sp_markup_bad_nodes(e.children, 0)
        },
    }
}

pub open spec fn sp_markup_bad_nodes(ns: Seq<XmlNodeV>, i: int) -> Option<Seq<char>>
    decreases ns, 0int, ns.len() - i,
{
    if !(0 <= i < ns.len()) {
        None
    } else {
        match sp_markup_bad_node(ns[i]) {
            Some(x) => Some(x),
            None => sp_markup_bad_nodes(ns, i + 1),
        }
    }
}

fn markup_bad_node(n: &XmlNode) -> (r: Option<Vec<char>>)
    ensures
        match (r, sp_markup_bad_node(n@)) {
            (Some(v), Some(sv)) => v@ == sv,
            (None, None) => true,
            _ => false,
        },
    decreases *n, 1int,
{
    match n {
        XmlNode::Text(_) => None,
        XmlNode::Elem(e) => {
            if !is_markup_name(&e.name) {
                let mut out: Vec<char> = Vec::new();
                extend_chars(&mut out, &e.name);
                proof {
                    assert(out@ =~= e.name@);
                }
                Some(out)
            } else {
                markup_bad_nodes(&e.children, 0)
            }
        },
    }
}

fn markup_bad_nodes(ns: &Vec<XmlNode>, i: usize) -> (r: Option<Vec<char>>)
    requires
        i <= ns.len(),
    ensures
        match (r, sp_markup_bad_nodes(nodes_view(ns@), i as int)) {
            (Some(v), Some(sv)) => v@ == sv,
            (None, None) => true,
            _ => false,
        },
    decreases ns@, 0int, ns@.len() - i,
{
    proof {
        crate::xml::lemma_nodes_view_len(ns@);
    }
    if i >= ns.len() {
        return None;
    }
    proof {
        crate::xml::lemma_nodes_view_index(ns@, i as int);
        assert(decreases_to!(ns@ => ns@[i as int]));
    }
    match markup_bad_node(&ns[i]) {
        Some(v) => Some(v),
        None => markup_bad_nodes(ns, i + 1),
    }
}

/// The attributes a property carries before its values are read.
pub struct PropAttrs {
    pub name: Option<String>,
    pub title: Option<String>,
    pub multiple: bool,
    pub datatype: PropertyDatatype,
    pub value: Option<String>,
}

/// The mathematical shadow of [`PropAttrs`].
pub struct PropAttrsV {
    pub name: Option<Seq<char>>,
    pub title: Option<Seq<char>>,
    pub multiple: bool,
    pub datatype: PropertyDatatype,
    pub value: Option<Seq<char>>,
}

impl View for PropAttrs {
    type V = PropAttrsV;

    open spec fn view(&self) -> PropAttrsV {
        PropAttrsV {
            name: opt_view(self.name),
            title: opt_view(self.title),
            multiple: self.multiple,
            datatype: self.datatype,
            value: opt_view(self.value),
        }
    }
}

/// The defaults a property starts from: no name, no title, single-valued,
/// string-typed, no value attribute.
pub open spec fn sp_default_prop_attrs() -> PropAttrsV {
    PropAttrsV {
        name: None,
        title: None,
        multiple: false,
        datatype: PropertyDatatype::String,
        value: None,
    }
}

/// The attributes of a property folded over the defaults.
pub open spec fn sp_prop_attrs(attrs: Seq<XmlAttrV>, i: int, acc: PropAttrsV) -> Result<
    PropAttrsV,
    DecodeErrorView,
>
    decreases attrs.len() - i,
{
    if !(0 <= i < attrs.len()) {
        Ok(acc)
    } else {
        let a = attrs[i];
        if a.name == "name"@ {
            sp_prop_attrs(attrs, i + 1, PropAttrsV { name: Some(a.value), ..acc })
        } else if a.name == "title"@ {
            sp_prop_attrs(attrs, i + 1, PropAttrsV { title: Some(a.value), ..acc })
        } else if a.name == "multiple"@ {
            match sp_bool_of(a.value) {
                Some(b) => sp_prop_attrs(attrs, i + 1, PropAttrsV { multiple: b, ..acc }),
                None => Err(
                    DecodeErrorView::MalformedAttributeValue { attr: a.name, value: a.value },
                ),
            }
        } else if a.name == "datatype"@ {
            match sp_datatype_of(a.value) {
                Some(d) => sp_prop_attrs(attrs, i + 1, PropAttrsV { datatype: d, ..acc }),
                None => Err(
                    DecodeErrorView::MalformedAttributeValue { attr: a.name, value: a.value },
                ),
            }
        } else if a.name == "value"@ {
            sp_prop_attrs(attrs, i + 1, PropAttrsV { value: Some(a.value), ..acc })
        } else {
            sp_prop_attrs(attrs, i + 1, acc)
        }
    }
}

/// Whether any child is an element; only elements conflict with the `value`
/// attribute shortcut, stray character data is ignored.
pub open spec fn sp_has_elem_child(ns: Seq<XmlNodeV>, i: int) -> bool
    decreases ns.len() - i,
{
    if !(0 <= i < ns.len()) {
        false
    } else if ns[i] is Elem {
        true
    } else {
        sp_has_elem_child(ns, i + 1)
    }
}

/// The values of a string- or date-typed property: the text of each `value`
/// child, in order; any other element is a structural fault.
pub open spec fn sp_prop_values_string(
    ns: Seq<XmlNodeV>,
    i: int,
    acc: Seq<PropertyValueV>,
    ctx: Seq<char>,
) -> Result<Seq<PropertyValueV>, DecodeErrorView>
    decreases ns.len() - i,
{
    if !(0 <= i < ns.len()) {
        Ok(acc)
    } else {
        match ns[i] {
            XmlNodeV::Text(_) => sp_prop_values_string(ns, i + 1, acc, ctx),
            XmlNodeV::Elem(c) => if c.name == "value"@ {
                match sp_text_content(c.children, 0, Seq::empty(), ctx) {
                    Err(er) => Err(er),
                    Ok(t) => sp_prop_values_string(
                        ns,
                        i + 1,
                        acc.push(PropertyValueV::String(t)),
                        ctx,
                    ),
                }
            } else {
                Err(DecodeErrorView::StructuralError { tag: c.name, context: ctx })
            },
        }
    }
}

/// The values of a cross-reference-typed property: each `xref` child decoded,
/// in order.
pub open spec fn sp_prop_values_xref(
    ns: Seq<XmlNodeV>,
    i: int,
    acc: Seq<PropertyValueV>,
    ctx: Seq<char>,
) -> Result<Seq<PropertyValueV>, DecodeErrorView>
    decreases ns.len() - i,
{
    if !(0 <= i < ns.len()) {
        Ok(acc)
    } else {
        match ns[i] {
            XmlNodeV::Text(_) => sp_prop_values_xref(ns, i + 1, acc, ctx),
            XmlNodeV::Elem(c) => if c.name == "xref"@ {
                match sp_de_xref(c) {
                    Err(er) => Err(er),
                    Ok(x) => sp_prop_values_xref(ns, i + 1, acc.push(PropertyValueV::XRef(x)), ctx),
                }
            } else {
                Err(DecodeErrorView::StructuralError { tag: c.name, context: ctx })
            },
        }
    }
}

/// The values of a link- or markdown-typed property: each child element of
/// the given name captured whole, in order.
pub open spec fn sp_prop_values_subtree(
    ns: Seq<XmlNodeV>,
    i: int,
    acc: Seq<PropertyValueV>,
    ctx: Seq<char>,
    name: Seq<char>,
    markdown: bool,
) -> Result<Seq<PropertyValueV>, DecodeErrorView>
    decreases ns.len() - i,
{
    if !(0 <= i < ns.len()) {
        Ok(acc)
    } else {
        match ns[i] {
            XmlNodeV::Text(_) => sp_prop_values_subtree(ns, i + 1, acc, ctx, name, markdown),
            XmlNodeV::Elem(c) => if c.name == name {
                let v = if markdown {
                    PropertyValueV::Markdown(XmlNodeV::Elem(c))
                } else {
                    PropertyValueV::Link(XmlNodeV::Elem(c))
                };
                sp_prop_values_subtree(ns, i + 1, acc.push(v), ctx, name, markdown)
            } else {
                Err(DecodeErrorView::StructuralError { tag: c.name, context: ctx })
            },
        }
    }
}

/// The values of a property read from its children, directed by its datatype.
/// A markup-typed property captures all its children as one value after
/// checking every tag against the markup set.
pub open spec fn sp_prop_values(
    e: XmlElemV,
    datatype: PropertyDatatype,
    ctx: Seq<char>,
) -> Result<Seq<PropertyValueV>, DecodeErrorView> {
    match datatype {
        PropertyDatatype::String => sp_prop_values_string(e.children, 0, Seq::empty(), ctx),
        PropertyDatatype::Date => sp_prop_values_string(e.children, 0, Seq::empty(), ctx),
        PropertyDatatype::XRef => sp_prop_values_xref(e.children, 0, Seq::empty(), ctx),
        PropertyDatatype::Link => sp_prop_values_subtree(
            e.children,
            0,
            Seq::empty(),
            ctx,
            "link"@,
            false,
        ),
        PropertyDatatype::Markdown => sp_prop_values_subtree(
            e.children,
            0,
            Seq::empty(),
            ctx,
            "markdown"@,
            true,
        ),
        PropertyDatatype::Markup => match sp_markup_bad_nodes(e.children, 0) {
            Some(bad) => Err(DecodeErrorView::StructuralError { tag: bad, context: ctx }),
            None => Ok(seq![PropertyValueV::Markup(e.children)]),
        },
    }
}

/// A property decoded from its element, as the property value codec demands:
/// the `name` attribute is required; a `value` attribute carries the single
/// value exactly when the property is single-valued and string- or
/// date-typed, and conflicts with any child element; otherwise the values are
/// read from the children under the datatype's shape; a property that
/// produced several values is multi-valued whatever its `multiple` attribute
/// said.
pub open spec fn sp_de_property(e: XmlElemV) -> Result<PropertyV, DecodeErrorView> {
    match sp_prop_attrs(e.attrs, 0, sp_default_prop_attrs()) {
        Err(er) => Err(er),
        Ok(pa) => match pa.name {
            None => Err(
                DecodeErrorView::MissingRequiredAttribute {
                    attr: "name"@,
                    elem: "property"@,
                },
            ),
            Some(pname) => match pa.value {
                Some(v) => {
                    if !pa.multiple && (pa.datatype == PropertyDatatype::String || pa.datatype
                        == PropertyDatatype::Date) {
                        if sp_has_elem_child(e.children, 0) {
                            Err(DecodeErrorView::ConflictingEncoding { elem: pname })
                        } else {
                            Ok(
                                PropertyV {
                                    name: pname,
                                    title: pa.title,
                                    multiple: false,
                                    datatype: pa.datatype,
                                    values: seq![PropertyValueV::String(v)],
                                },
                            )
                        }
                    } else {
                        Err(DecodeErrorView::ConflictingEncoding { elem: pname })
                    }
                },
                None => match sp_prop_values(e, pa.datatype, pname) {
                    Err(er) => Err(er),
                    Ok(values) => Ok(
                        PropertyV {
                            name: pname,
                            title: pa.title,
                            multiple: pa.multiple || values.len() > 1,
                            datatype: pa.datatype,
                            values,
                        },
                    ),
                },
            },
        },
    }
}

/// Decodes a property from its element.
pub fn de_property(e: &XmlElem) -> (r: Result<Property, DecodeError>)
    ensures
        match (r, sp_de_property(e@)) {
            (Ok(p), Ok(pv)) => p@ == pv,
            (Err(er), Err(ev)) => er@ == ev,
            _ => false,
        },
{
    let mut acc = PropAttrs {
        name: None,
        title: None,
        multiple: false,
        datatype: PropertyDatatype::String,
        value: None,
    };
    proof {
        crate::xml::lemma_attrs_view_len(e.attrs@);
        assert(acc@ == sp_default_prop_attrs());
    }
    let mut i: usize = 0;
    while i < e.attrs.len()
        invariant
            i <= e.attrs@.len(),
            e@.attrs.len() == e.attrs@.len(),
            e@.attrs == attrs_view(e.attrs@),
            sp_prop_attrs(e@.attrs, 0, sp_default_prop_attrs()) == sp_prop_attrs(
                e@.attrs,
                i as int,
                acc@,
            ),
        decreases e.attrs@.len() - i,
    {
        proof {
            assert(e@.attrs[i as int] == e.attrs@[i as int]@);
        }
        let a = &e.attrs[i];
        if chars_eq_str(&a.name, "name") {
            acc.name = Some(chars_to_string(&a.value));
        } else if chars_eq_str(&a.name, "title") {
            acc.title = Some(chars_to_string(&a.value));
        } else if chars_eq_str(&a.name, "multiple") {
            match bool_of_chars(&a.value) {
                Some(b) => {
                    acc.multiple = b;
                },
                None => {
                    return Err(
                        DecodeError::MalformedAttributeValue {
                            attr: chars_to_string(&a.name),
                            value: chars_to_string(&a.value),
                        },
                    );
                },
            }
        } else if chars_eq_str(&a.name, "datatype") {
            match datatype_of_chars(&a.value) {
                Some(d) => {
                    acc.datatype = d;
                },
                None => {
                    return Err(
                        DecodeError::MalformedAttributeValue {
                            attr: chars_to_string(&a.name),
                            value: chars_to_string(&a.value),
                        },
                    );
                },
            }
        } else if chars_eq_str(&a.name, "value") {
            acc.value = Some(chars_to_string(&a.value));
        }
        i = i + 1;
    }
    let pname = match acc.name {
        None => {
            return Err(
                DecodeError::MissingRequiredAttribute {
                    attr: String::from_str("name"),
                    elem: String::from_str("property"),
                },
            );
        },
        Some(n) => n,
    };
    match acc.value {
        Some(v) => {
            if !acc.multiple && (matches!(acc.datatype, PropertyDatatype::String) || matches!(
                acc.datatype,
                PropertyDatatype::Date,
            )) {
                if has_elem_child(&e.children) {
                    return Err(DecodeError::ConflictingEncoding { elem: pname });
                }
                let values = vec![PropertyValue::String(v)];
                proof {
                    assert(pvs_view(values@) =~= seq![pv_view(values@[0])]);
                }
                Ok(
                    Property {
                        name: pname,
                        title: acc.title,
                        multiple: false,
                        datatype: acc.datatype,
                        values,
                    },
                )
            } else {
                Err(DecodeError::ConflictingEncoding { elem: pname })
            }
        },
        None => {
            let pname_chars = str_to_chars(pname.as_str());
            match de_prop_values(e, acc.datatype, &pname_chars) {
                Err(er) => Err(er),
                Ok(values) => {
                    let multiple = acc.multiple || values.len() > 1;
                    proof {
                        assert(pvs_view(values@).len() == values@.len());
                    }
                    Ok(
                        Property {
                            name: pname,
                            title: acc.title,
                            multiple,
                            datatype: acc.datatype,
                            values,
                        },
                    )
                },
            }
        },
    }
}

fn has_elem_child(ns: &Vec<XmlNode>) -> (r: bool)
    ensures
        r == sp_has_elem_child(nodes_view(ns@), 0),
{
    let mut i: usize = 0;
    proof {
        crate::xml::lemma_nodes_view_len(ns@);
    }
    while i < ns.len()
        invariant
            i <= ns@.len(),
            nodes_view(ns@).len() == ns@.len(),
            sp_has_elem_child(nodes_view(ns@), 0) == sp_has_elem_child(
                nodes_view(ns@),
                i as int,
            ),
        decreases ns@.len() - i,
    {
        proof {
            crate::xml::lemma_nodes_view_index(ns@, i as int);
        }
        match &ns[i] {
            XmlNode::Elem(_) => {
                return true;
            },
            XmlNode::Text(_) => {},
        }
        i = i + 1;
    }
    false
}

/// Decodes the values of a property from its children under its datatype.
fn de_prop_values(e: &XmlElem, datatype: PropertyDatatype, ctx: &Vec<char>) -> (r: Result<
    Vec<PropertyValue>,
    DecodeError,
>)
    ensures
        match (r, sp_prop_values(e@, datatype, ctx@)) {
            (Ok(vs), Ok(vv)) => pvs_view(vs@) == vv,
            (Err(er), Err(ev)) => er@ == ev,
            _ => false,
        },
{
    proof {
        crate::xml::lemma_nodes_view_len(e.children@);
    }
    match datatype {
        PropertyDatatype::String | PropertyDatatype::Date => {
            let mut out: Vec<PropertyValue> = Vec::new();
            let mut i: usize = 0;
            proof {
                assert(pvs_view(out@) =~= Seq::<PropertyValueV>::empty());
            }
            while i < e.children.len()
                invariant
                    i <= e.children@.len(),
                    e@.children.len() == e.children@.len(),
                    e@.children == nodes_view(e.children@),
                    datatype == PropertyDatatype::String || datatype == PropertyDatatype::Date,
                    sp_prop_values_string(e@.children, 0, Seq::empty(), ctx@)
                        == sp_prop_values_string(e@.children, i as int, pvs_view(out@), ctx@),
                decreases e.children@.len() - i,
            {
                proof {
                    crate::xml::lemma_nodes_view_index(e.children@, i as int);
                }
                match &e.children[i] {
                    XmlNode::Text(_) => {},
                    XmlNode::Elem(c) => {
                        if chars_eq_str(&c.name, "value") {
                            match de_text_content_elem(c, ctx) {
                                Err(er) => {
                                    return Err(er);
                                },
                                Ok(t) => {
                                    let ghost o0 = out@;
                                    out.push(PropertyValue::String(chars_to_string(&t)));
                                    proof {
                                        assert(pvs_view(out@) =~= pvs_view(o0).push(
                                            PropertyValueV::String(t@),
                                        ));
                                    }
                                },
                            }
                        } else {
                            return Err(
                                DecodeError::StructuralError {
                                    tag: chars_to_string(&c.name),
                                    context: chars_to_string(ctx),
                                },
                            );
                        }
                    },
                }
                i = i + 1;
            }
            Ok(out)
        },
        PropertyDatatype::XRef => {
            let mut out: Vec<PropertyValue> = Vec::new();
            let mut i: usize = 0;
            proof {
                assert(pvs_view(out@) =~= Seq::<PropertyValueV>::empty());
            }
            while i < e.children.len()
                invariant
                    i <= e.children@.len(),
                    e@.children.len() == e.children@.len(),
                    e@.children == nodes_view(e.children@),
                    datatype == PropertyDatatype::XRef,
                    sp_prop_values_xref(e@.children, 0, Seq::empty(), ctx@) == sp_prop_values_xref(
                        e@.children,
                        i as int,
                        pvs_view(out@),
                        ctx@,
                    ),
                decreases e.children@.len() - i,
            {
                proof {
                    crate::xml::lemma_nodes_view_index(e.children@, i as int);
                }
                match &e.children[i] {
                    XmlNode::Text(_) => {},
                    XmlNode::Elem(c) => {
                        if chars_eq_str(&c.name, "xref") {
                            match de_xref(c) {
                                Err(er) => {
                                    return Err(er);
                                },
                                Ok(x) => {
                                    let ghost o0 = out@;
                                    let ghost xv = x@;
                                    out.push(PropertyValue::XRef(x));
                                    proof {
                                        assert(pvs_view(out@) =~= pvs_view(o0).push(
                                            PropertyValueV::XRef(xv),
                                        ));
                                    }
                                },
                            }
                        } else {
                            return Err(
                                DecodeError::StructuralError {
                                    tag: chars_to_string(&c.name),
                                    context: chars_to_string(ctx),
                                },
                            );
                        }
                    },
                }
                i = i + 1;
            }
            Ok(out)
        },
        PropertyDatatype::Link | PropertyDatatype::Markdown => {
            let markdown = matches!(datatype, PropertyDatatype::Markdown);
            let mut out: Vec<PropertyValue> = Vec::new();
            let mut i: usize = 0;
            let ghost namev: Seq<char> = if markdown {
                "markdown"@
            } else {
                "link"@
            };
            proof {
                assert(pvs_view(out@) =~= Seq::<PropertyValueV>::empty());
            }
            while i < e.children.len()
                invariant
                    i <= e.children@.len(),
                    e@.children.len() == e.children@.len(),
                    e@.children == nodes_view(e.children@),
                    markdown == (datatype == PropertyDatatype::Markdown),
                    datatype == PropertyDatatype::Link || datatype == PropertyDatatype::Markdown,
                    namev == (if markdown {
                        "markdown"@
                    } else {
                        "link"@
                    }),
                    sp_prop_values_subtree(e@.children, 0, Seq::empty(), ctx@, namev, markdown)
                        == sp_prop_values_subtree(
                        e@.children,
                        i as int,
                        pvs_view(out@),
                        ctx@,
                        namev,
                        markdown,
                    ),
                decreases e.children@.len() - i,
            {
                proof {
                    crate::xml::lemma_nodes_view_index(e.children@, i as int);
                }
                match &e.children[i] {
                    XmlNode::Text(_) => {},
                    XmlNode::Elem(c) => {
                        let name_ok = if markdown {
                            chars_eq_str(&c.name, "markdown")
                        } else {
                            chars_eq_str(&c.name, "link")
                        };
                        if name_ok {
                            let copy = copy_elem(c);
                            let ghost cv = c@;
                            let ghost o0 = out@;
                            if markdown {
                                out.push(PropertyValue::Markdown(XmlNode::Elem(copy)));
                                proof {
                                    assert(pvs_view(out@) =~= pvs_view(o0).push(
                                        PropertyValueV::Markdown(XmlNodeV::Elem(cv)),
                                    ));
                                }
                            } else {
                                out.push(PropertyValue::Link(XmlNode::Elem(copy)));
                                proof {
                                    assert(pvs_view(out@) =~= pvs_view(o0).push(
                                        PropertyValueV::Link(XmlNodeV::Elem(cv)),
                                    ));
                                }
                            }
                        } else {
                            return Err(
                                DecodeError::StructuralError {
                                    tag: chars_to_string(&c.name),
                                    context: chars_to_string(ctx),
                                },
                            );
                        }
                    },
                }
                i = i + 1;
            }
            Ok(out)
        },
        PropertyDatatype::Markup => {
            match markup_bad_nodes(&e.children, 0) {
                Some(bad) => Err(
                    DecodeError::StructuralError {
                        tag: chars_to_string(&bad),
                        context: chars_to_string(ctx),
                    },
                ),
                None => {
                    let copy = copy_nodes(&e.children);
                    let ghost cv = nodes_view(e.children@);
                    let out = vec![PropertyValue::Markup(copy)];
                    proof {
                        assert(pvs_view(out@) =~= seq![PropertyValueV::Markup(cv)]);
                    }
                    Ok(out)
                },
            }
        },
    }
}

/// Concatenates the text children of an element under the given context.
fn de_text_content_elem(e: &XmlElem, ctx: &Vec<char>) -> (r: Result<Vec<char>, DecodeError>)
    ensures
        match (r, sp_text_content(e@.children, 0, Seq::<char>::empty(), ctx@)) {
            (Ok(t), Ok(tv)) => t@ == tv,
            (Err(er), Err(ev)) => er@ == ev,
            _ => false,
        },
{
    let mut acc: Vec<char> = Vec::new();
    let mut i: usize = 0;
    proof {
        crate::xml::lemma_nodes_view_len(e.children@);
    }
    while i < e.children.len()
        invariant
            i <= e.children@.len(),
            e@.children.len() == e.children@.len(),
            sp_text_content(e@.children, 0, Seq::<char>::empty(), ctx@) == sp_text_content(
                e@.children,
                i as int,
                acc@,
                ctx@,
            ),
        decreases e.children@.len() - i,
    {
        proof {
            crate::xml::lemma_nodes_view_index(e.children@, i as int);
        }
        match &e.children[i] {
            XmlNode::Text(t) => {
                extend_chars(&mut acc, t);
            },
            XmlNode::Elem(c) => {
                return Err(
                    DecodeError::StructuralError {
                        tag: chars_to_string(&c.name),
                        context: chars_to_string(ctx),
                    },
                );
            },
        }
        i = i + 1;
    }
    Ok(acc)
}

/// Whether a text value needs no markup escaping: none of its characters is
/// one the writer would turn into an entity.
pub open spec fn sp_no_markup_chars(t: Seq<char>) -> bool {
    forall|k: int|
        0 <= k < t.len() ==> !((#[trigger] t[k]) == '<' || t[k] == '>' || t[k] == '&' || t[k]
            == '"')
}

fn no_markup_chars(t: &Vec<char>) -> (r: bool)
    ensures
        r == sp_no_markup_chars(t@),
{
    let mut k: usize = 0;
    while k < t.len()
        invariant
            k <= t@.len(),
            forall|j: int|
                0 <= j < k as int ==> !((#[trigger] t@[j]) == '<' || t@[j] == '>' || t@[j] == '&'
                    || t@[j] == '"'),
        decreases t@.len() - k,
    {
        let c = t[k];
        if c == '<' || c == '>' || c == '&' || c == '"' {
            return false;
        }
        k = k + 1;
    }
    true
}

/// Whether a property is written with the `value` attribute shortcut: single
/// valued, string typed, exactly one plain value with no markup-requiring
/// characters.
pub open spec fn sp_prop_shortcut(p: PropertyV) -> bool {
    !p.multiple && p.datatype == PropertyDatatype::String && p.values.len() == 1 && match p.values[0] {
        PropertyValueV::String(t) => sp_no_markup_chars(t),
        _ => false,
    }
}

/// The nodes one property value is written as. A plain value is a `value`
/// element holding its text; a cross-reference value is its element; link and
/// markdown values are their captured subtrees; a markup value is its
/// captured node sequence, spliced in place.
pub open spec fn sp_en_value(v: PropertyValueV) -> Seq<XmlNodeV> {
    match v {
        PropertyValueV::String(t) => seq![
            XmlNodeV::Elem(
                XmlElemV {
                    name: "value"@,
                    attrs: Seq::empty(),
                    children: if t.len() == 0 {
                        Seq::empty()
                    } else {
                        seq![XmlNodeV::Text(t)]
                    },
                },
            ),
        ],
        PropertyValueV::XRef(x) => seq![XmlNodeV::Elem(sp_en_xref(x))],
        PropertyValueV::Link(n) => seq![n],
        PropertyValueV::Markdown(n) => seq![n],
        PropertyValueV::Markup(ns) => ns,
    }
}

pub open spec fn sp_en_values(vs: Seq<PropertyValueV>, i: int) -> Seq<XmlNodeV>
    decreases vs.len() - i,
{
    if !(0 <= i < vs.len()) {
        Seq::empty()
    } else {
        sp_en_value(vs[i]) + sp_en_values(vs, i + 1)
    }
}

/// A property encoded as its element: `multiple` omitted when false,
/// `datatype` omitted when string; the attribute shortcut exactly under
/// [`sp_prop_shortcut`], nested value elements otherwise.
pub open spec fn sp_en_property(p: PropertyV) -> XmlElemV {
    let base = sp_attr1("name"@, p.name) + sp_opt_attr("title"@, p.title) + (if p.multiple {
        sp_attr1("multiple"@, "true"@)
    } else {
        Seq::empty()
    }) + (if p.datatype != PropertyDatatype::String {
        sp_attr1("datatype"@, sp_datatype_str(p.datatype))
    } else {
        Seq::empty()
    });
    if sp_prop_shortcut(p) {
        XmlElemV {
            name: "property"@,
            attrs: base + sp_attr1(
                "value"@,
                match p.values[0] {
                    PropertyValueV::String(t) => t,
                    _ => Seq::empty(),
                },
            ),
            children: Seq::empty(),
        }
    } else {
        XmlElemV { name: "property"@, attrs: base, children: sp_en_values(p.values, 0) }
    }
}

/// A copy of a node.
fn copy_node(n: &XmlNode) -> (r: XmlNode)
    ensures
        node_view(r) == node_view(*n),
    decreases *n,
{
    match n {
        XmlNode::Text(t) => {
            let mut tc: Vec<char> = Vec::new();
            extend_chars(&mut tc, t);
            proof {
                assert(tc@ =~= t@);
            }
            XmlNode::Text(tc)
        },
        XmlNode::Elem(c) => XmlNode::Elem(copy_elem(c)),
    }
}

/// Encodes the values of a property as its children.
fn en_values(vs: &Vec<PropertyValue>) -> (r: Vec<XmlNode>)
    ensures
        nodes_view(r@) == sp_en_values(pvs_view(vs@), 0),
{
    let mut out: Vec<XmlNode> = Vec::new();
    let mut i: usize = 0;
    let ghost vv = pvs_view(vs@);
    proof {
        assert(vv.len() == vs@.len());
        assert(nodes_view(out@) =~= Seq::<XmlNodeV>::empty());
        assert(Seq::<XmlNodeV>::empty() + sp_en_values(vv, 0) =~= sp_en_values(vv, 0));
    }
    while i < vs.len()
        invariant
            i <= vs@.len(),
            vv == pvs_view(vs@),
            vv.len() == vs@.len(),
            sp_en_values(vv, 0) == nodes_view(out@) + sp_en_values(vv, i as int),
        decreases vs@.len() - i,
    {
        let ghost o0 = out@;
        proof {
            assert(vv[i as int] == pv_view(vs@[i as int]));
        }
        match &vs[i] {
            PropertyValue::String(t) => {
                let tc = str_to_chars(t.as_str());
                let mut children: Vec<XmlNode> = Vec::new();
                if tc.len() > 0 {
                    let ghost tv = tc@;
                    children.push(XmlNode::Text(tc));
                    proof {
                        assert(children@.drop_first() =~= Seq::<XmlNode>::empty());
                        assert(nodes_view(children@) == seq![node_view(children@[0])] + nodes_view(
                            children@.drop_first(),
                        ));
                        assert(nodes_view(children@) =~= seq![XmlNodeV::Text(tv)]);
                    }
                } else {
                    proof {
                        assert(nodes_view(children@) =~= Seq::<XmlNodeV>::empty());
                    }
                }
                let ve = XmlElem { name: str_to_chars("value"), attrs: Vec::new(), children };
                proof {
                    assert(attrs_view(ve.attrs@) =~= Seq::<XmlAttrV>::empty());
                }
                out.push(XmlNode::Elem(ve));
            },
            PropertyValue::XRef(x) => {
                let xe = en_xref(x);
                out.push(XmlNode::Elem(xe));
            },
            PropertyValue::Link(n) => {
                let c = copy_node(n);
                out.push(c);
            },
            PropertyValue::Markdown(n) => {
                let c = copy_node(n);
                out.push(c);
            },
            PropertyValue::Markup(ns) => {
                let mut copied = copy_nodes(ns);
                let ghost cpv = copied@;
                out.append(&mut copied);
                proof {
                    crate::xml::lemma_nodes_view_concat(o0, cpv);
                }
            },
        }
        proof {
            if !(vs@[i as int] is Markup) {
                crate::xml::lemma_nodes_view_push(o0, out@[o0.len() as int]);
            }
            assert(nodes_view(out@) =~= nodes_view(o0) + sp_en_value(vv[i as int]));
            assert(nodes_view(o0) + (sp_en_value(vv[i as int]) + sp_en_values(vv, i as int + 1))
                =~= nodes_view(out@) + sp_en_values(vv, i as int + 1));
        }
        i = i + 1;
    }
    proof {
        assert(sp_en_values(vv, i as int) == Seq::<XmlNodeV>::empty());
        assert(nodes_view(out@) + Seq::<XmlNodeV>::empty() =~= nodes_view(out@));
    }
    out
}

/// Encodes a property as its element.
pub fn en_property(p: &Property) -> (r: XmlElem)
    ensures
        r@ == sp_en_property(p@),
{
    let mut attrs: Vec<XmlAttr> = Vec::new();
    proof {
        assert(attrs_view(attrs@) =~= Seq::<XmlAttrV>::empty());
    }
    push_attr(&mut attrs, "name", str_to_chars(p.name.as_str()));
    push_opt_attr(&mut attrs, "title", &p.title);
    if p.multiple {
        push_attr(&mut attrs, "multiple", str_to_chars("true"));
    }
    if !matches!(p.datatype, PropertyDatatype::String) {
        push_attr(&mut attrs, "datatype", str_to_chars(p.datatype.to_str()));
    }
    let mut shortcut = false;
    if !p.multiple && matches!(p.datatype, PropertyDatatype::String) && p.values.len() == 1 {
        match &p.values[0] {
            PropertyValue::String(t) => {
                let tc = str_to_chars(t.as_str());
                if no_markup_chars(&tc) {
                    shortcut = true;
                    push_attr(&mut attrs, "value", tc);
                }
            },
            _ => {},
        }
    }
    proof {
        assert(pvs_view(p.values@).len() == p.values@.len());
        if p.values@.len() == 1 {
            assert(pvs_view(p.values@)[0] == pv_view(p.values@[0]));
        }
        assert(shortcut == sp_prop_shortcut(p@));
    }
    if shortcut {
        let r = XmlElem { name: str_to_chars("property"), attrs, children: Vec::new() };
        proof {
            assert(nodes_view(r.children@) =~= Seq::<XmlNodeV>::empty());
            assert(attrs_view(r.attrs@) =~= sp_en_property(p@).attrs);
        }
        r
    } else {
        let children = en_values(&p.values);
        let r = XmlElem { name: str_to_chars("property"), attrs, children };
        proof {
            assert(attrs_view(r.attrs@) =~= sp_en_property(p@).attrs);
        }
        r
    }
}

// ---------- the properties fragment codec ----------

/// The attributes a properties fragment carries: its id and type, its labels,
/// and an open bag of anything else, in writing order.
pub struct PFragAttrs {
    pub id: Option<String>,
    pub frag_type: Option<String>,
    pub labels: Vec<String>,
    pub bag: Vec<(String, String)>,
}

/// The mathematical shadow of [`PFragAttrs`].
pub struct PFragAttrsV {
    pub id: Option<Seq<char>>,
    pub frag_type: Option<Seq<char>>,
    pub labels: Seq<Seq<char>>,
    pub bag: Seq<(Seq<char>, Seq<char>)>,
}

impl View for PFragAttrs {
    type V = PFragAttrsV;

    open spec fn view(&self) -> PFragAttrsV {
        PFragAttrsV {
            id: opt_view(self.id),
            frag_type: opt_view(self.frag_type),
            labels: strs_view(self.labels@),
            bag: bag_view(self.bag@),
        }
    }
}

pub open spec fn sp_default_pfrag_attrs() -> PFragAttrsV {
    PFragAttrsV { id: None, frag_type: None, labels: Seq::empty(), bag: Seq::empty() }
}

/// The attributes of any fragment kind folded over the defaults: `id`,
/// `type` and `labels` set their fields, anything else joins the open bag.
pub open spec fn sp_frag_attrs(attrs: Seq<XmlAttrV>, i: int, acc: PFragAttrsV) -> PFragAttrsV
    decreases attrs.len() - i,
{
    if !(0 <= i < attrs.len()) {
        acc
    } else {
        let a = attrs[i];
        if a.name == "id"@ {
            sp_frag_attrs(attrs, i + 1, PFragAttrsV { id: Some(a.value), ..acc })
        } else if a.name == "type"@ {
            sp_frag_attrs(attrs, i + 1, PFragAttrsV { frag_type: Some(a.value), ..acc })
        } else if a.name == "labels"@ {
            sp_frag_attrs(attrs, i + 1, PFragAttrsV { labels: sp_split_commas(a.value), ..acc })
        } else {
            sp_frag_attrs(attrs, i + 1, PFragAttrsV { bag: acc.bag.push((a.name, a.value)), ..acc })
        }
    }
}

/// Reads the shared fragment attributes of an element.
fn de_frag_attrs(e: &XmlElem) -> (r: PFragAttrs)
    ensures
        r@ == sp_frag_attrs(attrs_view(e.attrs@), 0, sp_default_pfrag_attrs()),
{
    let mut acc = PFragAttrs { id: None, frag_type: None, labels: Vec::new(), bag: Vec::new() };
    proof {
        crate::xml::lemma_attrs_view_len(e.attrs@);
        assert(strs_view(acc.labels@) =~= Seq::<Seq<char>>::empty());
        assert(bag_view(acc.bag@) =~= Seq::<(Seq<char>, Seq<char>)>::empty());
        assert(acc@ == sp_default_pfrag_attrs());
    }
    let mut i: usize = 0;
    while i < e.attrs.len()
        invariant
            i <= e.attrs@.len(),
            attrs_view(e.attrs@).len() == e.attrs@.len(),
            sp_frag_attrs(attrs_view(e.attrs@), 0, sp_default_pfrag_attrs()) == sp_frag_attrs(
                attrs_view(e.attrs@),
                i as int,
                acc@,
            ),
        decreases e.attrs@.len() - i,
    {
        proof {
            assert(attrs_view(e.attrs@)[i as int] == e.attrs@[i as int]@);
        }
        let a = &e.attrs[i];
        if chars_eq_str(&a.name, "id") {
            acc.id = Some(chars_to_string(&a.value));
        } else if chars_eq_str(&a.name, "type") {
            acc.frag_type = Some(chars_to_string(&a.value));
        } else if chars_eq_str(&a.name, "labels") {
            acc.labels = split_commas(&a.value);
        } else {
            let ghost b0 = acc.bag@;
            acc.bag.push((chars_to_string(&a.name), chars_to_string(&a.value)));
            proof {
                assert(bag_view(acc.bag@) =~= bag_view(b0).push(
                    (e.attrs@[i as int].name@, e.attrs@[i as int].value@),
                ));
            }
        }
        i = i + 1;
    }
    acc
}

/// The properties of a properties fragment read from its children: `property`
/// elements in order, stray character data ignored, anything else refused.
pub open spec fn sp_pfrag_children(
    ns: Seq<XmlNodeV>,
    i: int,
    acc: Seq<PropertyV>,
    ctx: Seq<char>,
) -> Result<Seq<PropertyV>, DecodeErrorView>
    decreases ns.len() - i,
{
    if !(0 <= i < ns.len()) {
        Ok(acc)
    } else {
        match ns[i] {
            XmlNodeV::Text(_) => sp_pfrag_children(ns, i + 1, acc, ctx),
            XmlNodeV::Elem(c) => if c.name == "property"@ {
                match sp_de_property(c) {
                    Err(er) => Err(er),
                    Ok(p) => sp_pfrag_children(ns, i + 1, acc.push(p), ctx),
                }
            } else {
                Err(DecodeErrorView::StructuralError { tag: c.name, context: ctx })
            },
        }
    }
}

/// A properties fragment decoded from its element: the required `id`, the
/// optional type, the comma-split labels, the open attribute bag, and its
/// properties in document order.
pub open spec fn sp_de_pfrag(e: XmlElemV) -> Result<PropertiesFragmentV, DecodeErrorView> {
    let pa = sp_frag_attrs(e.attrs, 0, sp_default_pfrag_attrs());
    match pa.id {
        None => Err(
            DecodeErrorView::MissingRequiredAttribute {
                attr: "id"@,
                elem: "properties-fragment"@,
            },
        ),
        Some(id) => match sp_pfrag_children(e.children, 0, Seq::empty(), id) {
            Err(er) => Err(er),
            Ok(properties) => Ok(
                PropertiesFragmentV {
                    id,
                    frag_type: pa.frag_type,
                    labels: pa.labels,
                    properties,
                    attrs: pa.bag,
                },
            ),
        },
    }
}

/// Decodes a properties fragment from its element.
pub fn de_pfrag(e: &XmlElem) -> (r: Result<PropertiesFragment, DecodeError>)
    ensures
        match (r, sp_de_pfrag(e@)) {
            (Ok(f), Ok(fv)) => f@ == fv,
            (Err(er), Err(ev)) => er@ == ev,
            _ => false,
        },
{
    let pa = de_frag_attrs(e);
    let id = match pa.id {
        None => {
            return Err(
                DecodeError::MissingRequiredAttribute {
                    attr: String::from_str("id"),
                    elem: String::from_str("properties-fragment"),
                },
            );
        },
        Some(id) => id,
    };
    let idc = str_to_chars(id.as_str());
    let mut props: Vec<Property> = Vec::new();
    let mut i: usize = 0;
    proof {
        crate::xml::lemma_nodes_view_len(e.children@);
        assert(props_view(props@) =~= Seq::<PropertyV>::empty());
    }
    while i < e.children.len()
        invariant
            i <= e.children@.len(),
            e@.children.len() == e.children@.len(),
            e@.children == nodes_view(e.children@),
            e@.attrs == attrs_view(e.attrs@),
            idc@ == id@,
            sp_frag_attrs(e@.attrs, 0, sp_default_pfrag_attrs()).id == Some(id@),
            sp_pfrag_children(e@.children, 0, Seq::empty(), id@) == sp_pfrag_children(
                e@.children,
                i as int,
                props_view(props@),
                id@,
            ),
        decreases e.children@.len() - i,
    {
        proof {
            crate::xml::lemma_nodes_view_index(e.children@, i as int);
        }
        match &e.children[i] {
            XmlNode::Text(_) => {},
            XmlNode::Elem(c) => {
                if chars_eq_str(&c.name, "property") {
                    match de_property(c) {
                        Err(er) => {
                            return Err(er);
                        },
                        Ok(p) => {
                            let ghost p0 = props@;
                            let ghost pv = p@;
                            props.push(p);
                            proof {
                                assert(props_view(props@) =~= props_view(p0).push(pv));
                            }
                        },
                    }
                } else {
                    return Err(
                        DecodeError::StructuralError {
                            tag: chars_to_string(&c.name),
                            context: chars_to_string(&idc),
                        },
                    );
                }
            },
        }
        i = i + 1;
    }
    Ok(
        PropertiesFragment {
            id,
            frag_type: pa.frag_type,
            labels: pa.labels,
            properties: props,
            attrs: pa.bag,
        },
    )
}

/// The open attribute bag written back, in order.
pub open spec fn sp_en_bag(bag: Seq<(Seq<char>, Seq<char>)>, i: int) -> Seq<XmlAttrV>
    decreases bag.len() - i,
{
    if !(0 <= i < bag.len()) {
        Seq::empty()
    } else {
        seq![XmlAttrV { name: bag[i].0, value: bag[i].1 }] + sp_en_bag(bag, i + 1)
    }
}

fn en_bag(attrs: &mut Vec<XmlAttr>, bag: &Vec<(String, String)>)
    ensures
        attrs_view(final(attrs)@) == attrs_view(old(attrs)@) + sp_en_bag(bag_view(bag@), 0),
{
    let mut i: usize = 0;
    let ghost bv = bag_view(bag@);
    proof {
        assert(bv.len() == bag@.len());
        assert(attrs_view(attrs@) + Seq::<XmlAttrV>::empty() =~= attrs_view(attrs@));
        assert(Seq::<XmlAttrV>::empty() + sp_en_bag(bv, 0) =~= sp_en_bag(bv, 0));
    }
    while i < bag.len()
        invariant
            i <= bag@.len(),
            bv == bag_view(bag@),
            bv.len() == bag@.len(),
            attrs_view(old(attrs)@) + sp_en_bag(bv, 0) == attrs_view(attrs@) + sp_en_bag(
                bv,
                i as int,
            ),
        decreases bag@.len() - i,
    {
        let ghost a0 = attrs_view(attrs@);
        proof {
            assert(bv[i as int] == (bag@[i as int].0@, bag@[i as int].1@));
        }
        let n = str_to_chars(bag[i].0.as_str());
        let v = str_to_chars(bag[i].1.as_str());
        attrs.push(XmlAttr { name: n, value: v });
        proof {
            assert(attrs_view(attrs@) =~= a0.push(
                XmlAttrV { name: bv[i as int].0, value: bv[i as int].1 },
            ));
            assert(a0 + (seq![XmlAttrV { name: bv[i as int].0, value: bv[i as int].1 }]
                + sp_en_bag(bv, i as int + 1)) =~= attrs_view(attrs@) + sp_en_bag(
                bv,
                i as int + 1,
            ));
        }
        i = i + 1;
    }
    proof {
        assert(sp_en_bag(bv, i as int) == Seq::<XmlAttrV>::empty());
        assert(attrs_view(attrs@) + Seq::<XmlAttrV>::empty() =~= attrs_view(attrs@));
    }
}

/// The properties of a fragment written back, in order.
pub open spec fn sp_en_props(ps: Seq<PropertyV>, i: int) -> Seq<XmlNodeV>
    decreases ps.len() - i,
{
    if !(0 <= i < ps.len()) {
        Seq::empty()
    } else {
        seq![XmlNodeV::Elem(sp_en_property(ps[i]))] + sp_en_props(ps, i + 1)
    }
}

/// A properties fragment encoded as its element: id, optional type, labels
/// only where there are any, the open bag, then the properties in order.
pub open spec fn sp_en_pfrag(f: PropertiesFragmentV) -> XmlElemV {
    XmlElemV {
        name: "properties-fragment"@,
        attrs: sp_attr1("id"@, f.id) + sp_opt_attr("type"@, f.frag_type) + (if f.labels.len() > 0 {
            sp_attr1("labels"@, sp_join_commas(f.labels))
        } else {
            Seq::empty()
        }) + sp_en_bag(f.attrs, 0),
        children: sp_en_props(f.properties, 0),
    }
}

/// Encodes a properties fragment as its element.
pub fn en_pfrag(f: &PropertiesFragment) -> (r: XmlElem)
    ensures
        r@ == sp_en_pfrag(f@),
{
    let mut attrs: Vec<XmlAttr> = Vec::new();
    proof {
        assert(attrs_view(attrs@) =~= Seq::<XmlAttrV>::empty());
    }
    push_attr(&mut attrs, "id", str_to_chars(f.id.as_str()));
    push_opt_attr(&mut attrs, "type", &f.frag_type);
    proof {
        assert(strs_view(f.labels@).len() == f.labels@.len());
    }
    if f.labels.len() > 0 {
        push_attr(&mut attrs, "labels", join_commas(&f.labels));
    }
    en_bag(&mut attrs, &f.attrs);
    let mut children: Vec<XmlNode> = Vec::new();
    let mut i: usize = 0;
    let ghost pv = props_view(f.properties@);
    proof {
        assert(pv.len() == f.properties@.len());
        assert(nodes_view(children@) =~= Seq::<XmlNodeV>::empty());
        assert(Seq::<XmlNodeV>::empty() + sp_en_props(pv, 0) =~= sp_en_props(pv, 0));
    }
    while i < f.properties.len()
        invariant
            i <= f.properties@.len(),
            pv == props_view(f.properties@),
            pv.len() == f.properties@.len(),
            sp_en_props(pv, 0) == nodes_view(children@) + sp_en_props(pv, i as int),
        decreases f.properties@.len() - i,
    {
        let ghost c0 = children@;
        proof {
            assert(pv[i as int] == prop_view(f.properties@[i as int]));
        }
        let pe = en_property(&f.properties[i]);
        children.push(XmlNode::Elem(pe));
        proof {
            crate::xml::lemma_nodes_view_push(c0, children@[c0.len() as int]);
            assert(nodes_view(children@) =~= nodes_view(c0) + seq![
                XmlNodeV::Elem(sp_en_property(pv[i as int])),
            ]);
            assert(nodes_view(c0) + (seq![XmlNodeV::Elem(sp_en_property(pv[i as int]))]
                + sp_en_props(pv, i as int + 1)) =~= nodes_view(children@) + sp_en_props(
                pv,
                i as int + 1,
            ));
        }
        i = i + 1;
    }
    proof {
        assert(sp_en_props(pv, i as int) == Seq::<XmlNodeV>::empty());
        assert(nodes_view(children@) + Seq::<XmlNodeV>::empty() =~= nodes_view(children@));
    }
    let r = XmlElem { name: str_to_chars("properties-fragment"), attrs, children };
    proof {
        assert(attrs_view(r.attrs@) =~= sp_en_pfrag(f@).attrs);
    }
    r
}

// ---------- the publication codec ----------

/// The name of the first element child, where there is one.
pub open spec fn sp_first_elem_child(ns: Seq<XmlNodeV>, i: int) -> Option<Seq<char>>
    decreases ns.len() - i,
{
    if !(0 <= i < ns.len()) {
        None
    } else {
        match ns[i] {
            XmlNodeV::Elem(c) => Some(c.name),
            XmlNodeV::Text(_) => sp_first_elem_child(ns, i + 1),
        }
    }
}

fn first_elem_child(ns: &Vec<XmlNode>) -> (r: Option<Vec<char>>)
    ensures
        match (r, sp_first_elem_child(nodes_view(ns@), 0)) {
            (Some(v), Some(sv)) => v@ == sv,
            (None, None) => true,
            _ => false,
        },
{
    let mut i: usize = 0;
    proof {
        crate::xml::lemma_nodes_view_len(ns@);
    }
    while i < ns.len()
        invariant
            i <= ns@.len(),
            nodes_view(ns@).len() == ns@.len(),
            sp_first_elem_child(nodes_view(ns@), 0) == sp_first_elem_child(
                nodes_view(ns@),
                i as int,
            ),
        decreases ns@.len() - i,
    {
        proof {
            crate::xml::lemma_nodes_view_index(ns@, i as int);
        }
        match &ns[i] {
            XmlNode::Elem(c) => {
                let mut out: Vec<char> = Vec::new();
                extend_chars(&mut out, &c.name);
                proof {
                    assert(out@ =~= c.name@);
                }
                return Some(out);
            },
            XmlNode::Text(_) => {},
        }
        i = i + 1;
    }
    None
}

/// The attributes a publication carries.
pub struct PubAttrs {
    pub id: Option<String>,
    pub pub_type: Option<String>,
}

/// The mathematical shadow of [`PubAttrs`].
pub struct PubAttrsV {
    pub id: Option<Seq<char>>,
    pub pub_type: Option<Seq<char>>,
}

impl View for PubAttrs {
    type V = PubAttrsV;

    open spec fn view(&self) -> PubAttrsV {
        PubAttrsV { id: opt_view(self.id), pub_type: opt_view(self.pub_type) }
    }
}

pub open spec fn sp_pub_attrs(attrs: Seq<XmlAttrV>, i: int, acc: PubAttrsV) -> PubAttrsV
    decreases attrs.len() - i,
{
    if !(0 <= i < attrs.len()) {
        acc
    } else {
        let a = attrs[i];
        if a.name == "id"@ {
            sp_pub_attrs(attrs, i + 1, PubAttrsV { id: Some(a.value), ..acc })
        } else if a.name == "type"@ {
            sp_pub_attrs(attrs, i + 1, PubAttrsV { pub_type: Some(a.value), ..acc })
        } else {
            sp_pub_attrs(attrs, i + 1, acc)
        }
    }
}

/// A publication decoded from its element: the required `id`, the optional
/// type, and no element content.
pub open spec fn sp_de_publication(e: XmlElemV) -> Result<PublicationV, DecodeErrorView> {
    let pa = sp_pub_attrs(e.attrs, 0, PubAttrsV { id: None, pub_type: None });
    match pa.id {
        None => Err(
            DecodeErrorView::MissingRequiredAttribute { attr: "id"@, elem: "publication"@ },
        ),
        Some(id) => match sp_first_elem_child(e.children, 0) {
            Some(n) => Err(DecodeErrorView::StructuralError { tag: n, context: "publication"@ }),
            None => Ok(PublicationV { id, pub_type: pa.pub_type }),
        },
    }
}

/// Decodes a publication from its element.
pub fn de_publication(e: &XmlElem) -> (r: Result<Publication, DecodeError>)
    ensures
        match (r, sp_de_publication(e@)) {
            (Ok(p), Ok(pv)) => p@ == pv,
            (Err(er), Err(ev)) => er@ == ev,
            _ => false,
        },
{
    let mut acc = PubAttrs { id: None, pub_type: None };
    proof {
        crate::xml::lemma_attrs_view_len(e.attrs@);
    }
    let mut i: usize = 0;
    while i < e.attrs.len()
        invariant
            i <= e.attrs@.len(),
            attrs_view(e.attrs@).len() == e.attrs@.len(),
            sp_pub_attrs(attrs_view(e.attrs@), 0, PubAttrsV { id: None, pub_type: None })
                == sp_pub_attrs(attrs_view(e.attrs@), i as int, acc@),
        decreases e.attrs@.len() - i,
    {
        proof {
            assert(attrs_view(e.attrs@)[i as int] == e.attrs@[i as int]@);
        }
        let a = &e.attrs[i];
        if chars_eq_str(&a.name, "id") {
            acc.id = Some(chars_to_string(&a.value));
        } else if chars_eq_str(&a.name, "type") {
            acc.pub_type = Some(chars_to_string(&a.value));
        }
        i = i + 1;
    }
    let id = match acc.id {
        None => {
            return Err(
                DecodeError::MissingRequiredAttribute {
                    attr: String::from_str("id"),
                    elem: String::from_str("publication"),
                },
            );
        },
        Some(id) => id,
    };
    match first_elem_child(&e.children) {
        Some(n) => Err(
            DecodeError::StructuralError {
                tag: chars_to_string(&n),
                context: String::from_str("publication"),
            },
        ),
        None => Ok(Publication { id, pub_type: acc.pub_type }),
    }
}

/// A publication encoded as its element, always self-closing.
pub open spec fn sp_en_publication(p: PublicationV) -> XmlElemV {
    XmlElemV {
        name: "publication"@,
        attrs: sp_attr1("id"@, p.id) + sp_opt_attr("type"@, p.pub_type),
        children: Seq::empty(),
    }
}

/// Encodes a publication as its element.
pub fn en_publication(p: &Publication) -> (r: XmlElem)
    ensures
        r@ == sp_en_publication(p@),
{
    let mut attrs: Vec<XmlAttr> = Vec::new();
    proof {
        assert(attrs_view(attrs@) =~= Seq::<XmlAttrV>::empty());
    }
    push_attr(&mut attrs, "id", str_to_chars(p.id.as_str()));
    push_opt_attr(&mut attrs, "type", &p.pub_type);
    let r = XmlElem { name: str_to_chars("publication"), attrs, children: Vec::new() };
    proof {
        assert(nodes_view(r.children@) =~= Seq::<XmlNodeV>::empty());
        assert(attrs_view(r.attrs@) =~= sp_en_publication(p@).attrs);
    }
    r
}

// ---------- entry points ----------

/// The first element of the forest carrying the given name; anything else at
/// the top level is passed over.
pub open spec fn sp_find_elem(ns: Seq<XmlNodeV>, name: Seq<char>, i: int) -> Option<XmlElemV>
    decreases ns.len() - i,
{
    if !(0 <= i < ns.len()) {
        None
    } else {
        match ns[i] {
            XmlNodeV::Elem(e) => if e.name == name {
                Some(e)
            } else {
                sp_find_elem(ns, name, i + 1)
            },
            XmlNodeV::Text(_) => sp_find_elem(ns, name, i + 1),
        }
    }
}

fn find_elem<'a>(ns: &'a Vec<XmlNode>, name: &str) -> (r: Option<&'a XmlElem>)
    ensures
        match (r, sp_find_elem(nodes_view(ns@), name@, 0)) {
            (Some(e), Some(ev)) => e@ == ev,
            (None, None) => true,
            _ => false,
        },
{
    let mut i: usize = 0;
    let nc = str_to_chars(name);
    proof {
        crate::xml::lemma_nodes_view_len(ns@);
    }
    while i < ns.len()
        invariant
            i <= ns@.len(),
            nodes_view(ns@).len() == ns@.len(),
            nc@ == name@,
            sp_find_elem(nodes_view(ns@), name@, 0) == sp_find_elem(
                nodes_view(ns@),
                name@,
                i as int,
            ),
        decreases ns@.len() - i,
    {
        proof {
            crate::xml::lemma_nodes_view_index(ns@, i as int);
        }
        match &ns[i] {
            XmlNode::Elem(e) => {
                if crate::chars::chars_eq(&e.name, &nc) {
                    return Some(e);
                }
            },
            XmlNode::Text(_) => {},
        }
        i = i + 1;
    }
    None
}

/// The first element named `name` in a lexed buffer, or the fault that stops
/// it being found.
pub open spec fn sp_psml_elem(s: Seq<char>, name: Seq<char>) -> Result<
    XmlElemV,
    DecodeErrorView,
> {
    match crate::xml::sp_lex_forest(s) {
        Err(er) => Err(er),
        Ok(ns) => match sp_find_elem(ns, name, 0) {
            Some(e) => Ok(e),
            None => Err(DecodeErrorView::StructuralError { tag: name, context: Seq::empty() }),
        },
    }
}

/// A whole buffer decoded as an inline cross-reference.
pub open spec fn sp_xref_from_psml(s: Seq<char>) -> Result<XRefV, DecodeErrorView> {
    match sp_psml_elem(s, "xref"@) {
        Err(er) => Err(er),
        Ok(e) => sp_de_xref(e),
    }
}

/// A whole buffer decoded as a property.
pub open spec fn sp_property_from_psml(s: Seq<char>) -> Result<PropertyV, DecodeErrorView> {
    match sp_psml_elem(s, "property"@) {
        Err(er) => Err(er),
        Ok(e) => sp_de_property(e),
    }
}

/// A whole buffer decoded as a properties fragment.
pub open spec fn sp_pfrag_from_psml(s: Seq<char>) -> Result<PropertiesFragmentV, DecodeErrorView> {
    match sp_psml_elem(s, "properties-fragment"@) {
        Err(er) => Err(er),
        Ok(e) => sp_de_pfrag(e),
    }
}

/// A whole buffer decoded as a publication.
pub open spec fn sp_publication_from_psml(s: Seq<char>) -> Result<PublicationV, DecodeErrorView> {
    match sp_psml_elem(s, "publication"@) {
        Err(er) => Err(er),
        Ok(e) => sp_de_publication(e),
    }
}

impl XRef {
    /// Decodes the first `xref` element of the buffer.
    pub fn from_psml(s: &str) -> (r: Result<XRef, DecodeError>)
        ensures
            match (r, sp_xref_from_psml(s@)) {
                (Ok(x), Ok(xv)) => x@ == xv,
                (Err(er), Err(ev)) => er@ == ev,
                _ => false,
            },
    {
        let cs = str_to_chars(s);
        match crate::xml::lex_forest(&cs) {
            Err(er) => Err(er),
            Ok(ns) => match find_elem(&ns, "xref") {
                Some(e) => de_xref(e),
                None => Err(
                    DecodeError::StructuralError {
                        tag: String::from_str("xref"),
                        context: String::new(),
                    },
                ),
            },
        }
    }

    /// Encodes this cross-reference as a self-contained buffer.
    pub fn to_psml(&self) -> (r: String)
        ensures
            r@ == crate::xml::sp_write_node(XmlNodeV::Elem(sp_en_xref(self@))),
    {
        let e = en_xref(self);
        let mut out: Vec<char> = Vec::new();
        crate::xml::write_node(&mut out, &XmlNode::Elem(e));
        chars_to_string(&out)
    }
}

impl Property {
    /// Decodes the first `property` element of the buffer.
    pub fn from_psml(s: &str) -> (r: Result<Property, DecodeError>)
        ensures
            match (r, sp_property_from_psml(s@)) {
                (Ok(p), Ok(pv)) => p@ == pv,
                (Err(er), Err(ev)) => er@ == ev,
                _ => false,
            },
    {
        let cs = str_to_chars(s);
        match crate::xml::lex_forest(&cs) {
            Err(er) => Err(er),
            Ok(ns) => match find_elem(&ns, "property") {
                Some(e) => de_property(e),
                None => Err(
                    DecodeError::StructuralError {
                        tag: String::from_str("property"),
                        context: String::new(),
                    },
                ),
            },
        }
    }

    /// Encodes this property as a self-contained buffer.
    pub fn to_psml(&self) -> (r: String)
        ensures
            r@ == crate::xml::sp_write_node(XmlNodeV::Elem(sp_en_property(self@))),
    {
        let e = en_property(self);
        let mut out: Vec<char> = Vec::new();
        crate::xml::write_node(&mut out, &XmlNode::Elem(e));
        chars_to_string(&out)
    }
}

impl PropertiesFragment {
    /// Decodes the first `properties-fragment` element of the buffer.
    pub fn from_psml(s: &str) -> (r: Result<PropertiesFragment, DecodeError>)
        ensures
            match (r, sp_pfrag_from_psml(s@)) {
                (Ok(f), Ok(fv)) => f@ == fv,
                (Err(er), Err(ev)) => er@ == ev,
                _ => false,
            },
    {
        let cs = str_to_chars(s);
        match crate::xml::lex_forest(&cs) {
            Err(er) => Err(er),
            Ok(ns) => match find_elem(&ns, "properties-fragment") {
                Some(e) => de_pfrag(e),
                None => Err(
                    DecodeError::StructuralError {
                        tag: String::from_str("properties-fragment"),
                        context: String::new(),
                    },
                ),
            },
        }
    }

    /// Encodes this fragment as a self-contained buffer.
    pub fn to_psml(&self) -> (r: String)
        ensures
            r@ == crate::xml::sp_write_node(XmlNodeV::Elem(sp_en_pfrag(self@))),
    {
        let e = en_pfrag(self);
        let mut out: Vec<char> = Vec::new();
        crate::xml::write_node(&mut out, &XmlNode::Elem(e));
        chars_to_string(&out)
    }
}

impl Publication {
    /// Decodes the first `publication` element of the buffer.
    pub fn from_psml(s: &str) -> (r: Result<Publication, DecodeError>)
        ensures
            match (r, sp_publication_from_psml(s@)) {
                (Ok(p), Ok(pv)) => p@ == pv,
                (Err(er), Err(ev)) => er@ == ev,
                _ => false,
            },
    {
        let cs = str_to_chars(s);
        match crate::xml::lex_forest(&cs) {
            Err(er) => Err(er),
            Ok(ns) => match find_elem(&ns, "publication") {
                Some(e) => de_publication(e),
                None => Err(
                    DecodeError::StructuralError {
                        tag: String::from_str("publication"),
                        context: String::new(),
                    },
                ),
            },
        }
    }

    /// Encodes this publication as a self-contained buffer.
    pub fn to_psml(&self) -> (r: String)
        ensures
            r@ == crate::xml::sp_write_node(XmlNodeV::Elem(sp_en_publication(self@))),
    {
        let e = en_publication(self);
        let mut out: Vec<char> = Vec::new();
        crate::xml::write_node(&mut out, &XmlNode::Elem(e));
        chars_to_string(&out)
    }
}

// ---------- the inline content grammar ----------

/// Whether a tag name opens a styled inline run, and the construction of the
/// corresponding inline value.
pub open spec fn sp_style_name(v: Seq<char>) -> bool {
    ||| v == "bold"@
    ||| v == "italic"@
    ||| v == "underline"@
    ||| v == "subscript"@
    ||| v == "superscript"@
    ||| v == "monospace"@
    ||| v == "link"@
}

pub open spec fn sp_make_style(name: Seq<char>, inner: Seq<CharacterStyleV>) -> CharacterStyleV {
    if name == "bold"@ {
        CharacterStyleV::Bold(inner)
    } else if name == "italic"@ {
        CharacterStyleV::Italic(inner)
    } else if name == "underline"@ {
        CharacterStyleV::Underline(inner)
    } else if name == "subscript"@ {
        CharacterStyleV::Subscript(inner)
    } else if name == "superscript"@ {
        CharacterStyleV::Superscript(inner)
    } else if name == "monospace"@ {
        CharacterStyleV::Monospace(inner)
    } else {
        CharacterStyleV::Link(inner)
    }
}

/// The inline content of an element's children: character data, styled runs
/// read recursively, and inline cross-references; anything else is a
/// structural fault.
pub open spec fn sp_de_cs_nodes(
    ns: Seq<XmlNodeV>,
    i: int,
    acc: Seq<CharacterStyleV>,
    ctx: Seq<char>,
) -> Result<Seq<CharacterStyleV>, DecodeErrorView>
    decreases ns, ns.len() - i, 0int,
{
    if !(0 <= i < ns.len()) {
        Ok(acc)
    } else {
        match ns[i] {
            XmlNodeV::Text(t) => sp_de_cs_nodes(ns, i + 1, acc.push(CharacterStyleV::Text(t)), ctx),
            XmlNodeV::Elem(c) => if sp_style_name(c.name) {
                match sp_de_cs_nodes(c.children, 0, Seq::empty(), ctx) {
                    Err(er) => Err(er),
                    Ok(inner) => sp_de_cs_nodes(
                        ns,
                        i + 1,
                        acc.push(sp_make_style(c.name, inner)),
                        ctx,
                    ),
                }
            } else if c.name == "xref"@ {
                match sp_de_xref(c) {
                    Err(er) => Err(er),
                    Ok(x) => sp_de_cs_nodes(ns, i + 1, acc.push(CharacterStyleV::XRef(x)), ctx),
                }
            } else {
                Err(DecodeErrorView::StructuralError { tag: c.name, context: ctx })
            },
        }
    }
}

/// Decodes inline content, mirroring [`sp_de_cs_nodes`].
pub fn de_cs_nodes(ns: &Vec<XmlNode>, i: usize, acc: Vec<CharacterStyle>, ctx: &Vec<char>) -> (r:
    Result<Vec<CharacterStyle>, DecodeError>)
    requires
        i <= ns.len(),
    ensures
        match (r, sp_de_cs_nodes(nodes_view(ns@), i as int, css_view(acc@), ctx@)) {
            (Ok(cs), Ok(cv)) => css_view(cs@) == cv,
            (Err(er), Err(ev)) => er@ == ev,
            _ => false,
        },
    decreases ns@, ns@.len() - i, 0int,
{
    proof {
        crate::xml::lemma_nodes_view_len(ns@);
    }
    if i >= ns.len() {
        return Ok(acc);
    }
    proof {
        crate::xml::lemma_nodes_view_index(ns@, i as int);
        assert(decreases_to!(ns@ => ns@[i as int]));
    }
    let mut acc = acc;
    match &ns[i] {
        XmlNode::Text(t) => {
            let ghost a0 = acc@;
            acc.push(CharacterStyle::Text(chars_to_string(t)));
            proof {
                crate::text::lemma_css_view_push(a0, acc@[a0.len() as int]);
            }
            de_cs_nodes(ns, i + 1, acc, ctx)
        },
        XmlNode::Elem(c) => {
            let style = is_style_name(&c.name);
            if style {
                match de_cs_nodes(&c.children, 0, Vec::new(), ctx) {
                    Err(er) => Err(er),
                    Ok(inner) => {
                        let ghost a0 = acc@;
                        let ghost iv = css_view(inner@);
                        acc.push(make_style(&c.name, inner));
                        proof {
                            crate::text::lemma_css_view_push(a0, acc@[a0.len() as int]);
                        }
                        de_cs_nodes(ns, i + 1, acc, ctx)
                    },
                }
            } else if chars_eq_str(&c.name, "xref") {
                match de_xref(c) {
                    Err(er) => Err(er),
                    Ok(x) => {
                        let ghost a0 = acc@;
                        acc.push(CharacterStyle::XRef(Box::new(x)));
                        proof {
                            crate::text::lemma_css_view_push(a0, acc@[a0.len() as int]);
                        }
                        de_cs_nodes(ns, i + 1, acc, ctx)
                    },
                }
            } else {
                Err(
                    DecodeError::StructuralError {
                        tag: chars_to_string(&c.name),
                        context: chars_to_string(ctx),
                    },
                )
            }
        },
    }
}

fn is_style_name(v: &Vec<char>) -> (r: bool)
    ensures
        r == sp_style_name(v@),
{
    chars_eq_str(v, "bold") || chars_eq_str(v, "italic") || chars_eq_str(v, "underline")
        || chars_eq_str(v, "subscript") || chars_eq_str(v, "superscript") || chars_eq_str(
        v,
        "monospace",
    ) || chars_eq_str(v, "link")
}

fn make_style(name: &Vec<char>, inner: Vec<CharacterStyle>) -> (r: CharacterStyle)
    requires
        sp_style_name(name@),
    ensures
        cs_view(r) == sp_make_style(name@, css_view(inner@)),
{
    if chars_eq_str(name, "bold") {
        CharacterStyle::Bold(Bold { content: inner })
    } else if chars_eq_str(name, "italic") {
        CharacterStyle::Italic(Italic { content: inner })
    } else if chars_eq_str(name, "underline") {
        CharacterStyle::Underline(Underline { content: inner })
    } else if chars_eq_str(name, "subscript") {
        CharacterStyle::Subscript(Subscript { content: inner })
    } else if chars_eq_str(name, "superscript") {
        CharacterStyle::Superscript(Superscript { content: inner })
    } else if chars_eq_str(name, "monospace") {
        CharacterStyle::Monospace(Monospace { content: inner })
    } else {
        CharacterStyle::Link(Link { content: inner })
    }
}

/// The paragraph content of an element's children: the inline grammar plus
/// images.
pub open spec fn sp_de_pc_nodes(
    ns: Seq<XmlNodeV>,
    i: int,
    acc: Seq<ParaContentV>,
    ctx: Seq<char>,
) -> Result<Seq<ParaContentV>, DecodeErrorView>
    decreases ns, ns.len() - i, 0int,
{
    if !(0 <= i < ns.len()) {
        Ok(acc)
    } else {
        match ns[i] {
            XmlNodeV::Text(t) => sp_de_pc_nodes(ns, i + 1, acc.push(ParaContentV::Text(t)), ctx),
            XmlNodeV::Elem(c) => if sp_style_name(c.name) {
                match sp_de_cs_nodes(c.children, 0, Seq::empty(), ctx) {
                    Err(er) => Err(er),
                    Ok(inner) => sp_de_pc_nodes(
                        ns,
                        i + 1,
                        acc.push(sp_pc_style(c.name, inner)),
                        ctx,
                    ),
                }
            } else if c.name == "xref"@ {
                match sp_de_xref(c) {
                    Err(er) => Err(er),
                    Ok(x) => sp_de_pc_nodes(ns, i + 1, acc.push(ParaContentV::XRef(x)), ctx),
                }
            } else if c.name == "image"@ {
                match sp_de_image(c) {
                    Err(er) => Err(er),
                    Ok(im) => sp_de_pc_nodes(ns, i + 1, acc.push(ParaContentV::Image(im)), ctx),
                }
            } else {
                Err(DecodeErrorView::StructuralError { tag: c.name, context: ctx })
            },
        }
    }
}

pub open spec fn sp_pc_style(name: Seq<char>, inner: Seq<CharacterStyleV>) -> ParaContentV {
    if name == "bold"@ {
        ParaContentV::Bold(inner)
    } else if name == "italic"@ {
        ParaContentV::Italic(inner)
    } else if name == "underline"@ {
        ParaContentV::Underline(inner)
    } else if name == "subscript"@ {
        ParaContentV::Subscript(inner)
    } else if name == "superscript"@ {
        ParaContentV::Superscript(inner)
    } else if name == "monospace"@ {
        ParaContentV::Monospace(inner)
    } else {
        ParaContentV::Link(inner)
    }
}

fn make_pc_style(name: &Vec<char>, inner: Vec<CharacterStyle>) -> (r: ParaContent)
    requires
        sp_style_name(name@),
    ensures
        pc_view(r) == sp_pc_style(name@, css_view(inner@)),
{
    if chars_eq_str(name, "bold") {
        ParaContent::Bold(Bold { content: inner })
    } else if chars_eq_str(name, "italic") {
        ParaContent::Italic(Italic { content: inner })
    } else if chars_eq_str(name, "underline") {
        ParaContent::Underline(Underline { content: inner })
    } else if chars_eq_str(name, "subscript") {
        ParaContent::Subscript(Subscript { content: inner })
    } else if chars_eq_str(name, "superscript") {
        ParaContent::Superscript(Superscript { content: inner })
    } else if chars_eq_str(name, "monospace") {
        ParaContent::Monospace(Monospace { content: inner })
    } else {
        ParaContent::Link(Link { content: inner })
    }
}

/// Decodes paragraph content, mirroring [`sp_de_pc_nodes`].
pub fn de_pc_nodes(ns: &Vec<XmlNode>, i: usize, acc: Vec<ParaContent>, ctx: &Vec<char>) -> (r:
    Result<Vec<ParaContent>, DecodeError>)
    requires
        i <= ns.len(),
    ensures
        match (r, sp_de_pc_nodes(nodes_view(ns@), i as int, pcs_view(acc@), ctx@)) {
            (Ok(cs), Ok(cv)) => pcs_view(cs@) == cv,
            (Err(er), Err(ev)) => er@ == ev,
            _ => false,
        },
    decreases ns@, ns@.len() - i, 1int,
{
    proof {
        crate::xml::lemma_nodes_view_len(ns@);
    }
    if i >= ns.len() {
        return Ok(acc);
    }
    proof {
        crate::xml::lemma_nodes_view_index(ns@, i as int);
        assert(decreases_to!(ns@ => ns@[i as int]));
    }
    let mut acc = acc;
    match &ns[i] {
        XmlNode::Text(t) => {
            let ghost a0 = acc@;
            acc.push(ParaContent::Text(chars_to_string(t)));
            proof {
                crate::text::lemma_pcs_view_push(a0, acc@[a0.len() as int]);
            }
            de_pc_nodes(ns, i + 1, acc, ctx)
        },
        XmlNode::Elem(c) => {
            let style = is_style_name(&c.name);
            if style {
                match de_cs_nodes(&c.children, 0, Vec::new(), ctx) {
                    Err(er) => Err(er),
                    Ok(inner) => {
                        let ghost a0 = acc@;
                        acc.push(make_pc_style(&c.name, inner));
                        proof {
                            crate::text::lemma_pcs_view_push(a0, acc@[a0.len() as int]);
                        }
                        de_pc_nodes(ns, i + 1, acc, ctx)
                    },
                }
            } else if chars_eq_str(&c.name, "xref") {
                match de_xref(c) {
                    Err(er) => Err(er),
                    Ok(x) => {
                        let ghost a0 = acc@;
                        acc.push(ParaContent::XRef(x));
                        proof {
                            crate::text::lemma_pcs_view_push(a0, acc@[a0.len() as int]);
                        }
                        de_pc_nodes(ns, i + 1, acc, ctx)
                    },
                }
            } else if chars_eq_str(&c.name, "image") {
                match de_image(c) {
                    Err(er) => Err(er),
                    Ok(im) => {
                        let ghost a0 = acc@;
                        acc.push(ParaContent::Image(im));
                        proof {
                            crate::text::lemma_pcs_view_push(a0, acc@[a0.len() as int]);
                        }
                        de_pc_nodes(ns, i + 1, acc, ctx)
                    },
                }
            } else {
                Err(
                    DecodeError::StructuralError {
                        tag: chars_to_string(&c.name),
                        context: chars_to_string(ctx),
                    },
                )
            }
        },
    }
}

// ---------- images, headings, paragraphs ----------

/// The attributes an image carries.
pub open spec fn sp_image_attrs(attrs: Seq<XmlAttrV>, i: int, acc: ImageV) -> Result<
    ImageV,
    DecodeErrorView,
>
    decreases attrs.len() - i,
{
    if !(0 <= i < attrs.len()) {
        Ok(acc)
    } else {
        let a = attrs[i];
        if a.name == "src"@ {
            sp_image_attrs(attrs, i + 1, ImageV { src: Some(a.value), ..acc })
        } else if a.name == "docid"@ {
            sp_image_attrs(attrs, i + 1, ImageV { docid: Some(a.value), ..acc })
        } else if a.name == "uriid"@ {
            sp_image_attrs(attrs, i + 1, ImageV { uriid: Some(a.value), ..acc })
        } else if a.name == "labels"@ {
            sp_image_attrs(attrs, i + 1, ImageV { labels: Some(a.value), ..acc })
        } else if a.name == "height"@ {
            match crate::chars::sp_parse_u64(a.value) {
                Some(n) => sp_image_attrs(attrs, i + 1, ImageV { height: Some(n), ..acc }),
                None => Err(
                    DecodeErrorView::MalformedAttributeValue { attr: a.name, value: a.value },
                ),
            }
        } else if a.name == "width"@ {
            match crate::chars::sp_parse_u64(a.value) {
                Some(n) => sp_image_attrs(attrs, i + 1, ImageV { width: Some(n), ..acc }),
                None => Err(
                    DecodeErrorView::MalformedAttributeValue { attr: a.name, value: a.value },
                ),
            }
        } else if a.name == "alt"@ {
            sp_image_attrs(attrs, i + 1, ImageV { alt: Some(a.value), ..acc })
        } else {
            sp_image_attrs(attrs, i + 1, acc)
        }
    }
}

pub open spec fn sp_default_image() -> ImageV {
    ImageV {
        src: None,
        docid: None,
        uriid: None,
        labels: None,
        height: None,
        width: None,
        alt: None,
    }
}

/// An image decoded from its element: attributes only, no element content.
pub open spec fn sp_de_image(e: XmlElemV) -> Result<ImageV, DecodeErrorView> {
    match sp_image_attrs(e.attrs, 0, sp_default_image()) {
        Err(er) => Err(er),
        Ok(im) => match sp_first_elem_child(e.children, 0) {
            Some(n) => Err(DecodeErrorView::StructuralError { tag: n, context: "image"@ }),
            None => Ok(im),
        },
    }
}

/// Decodes an image from its element.
pub fn de_image(e: &XmlElem) -> (r: Result<Image, DecodeError>)
    ensures
        match (r, sp_de_image(e@)) {
            (Ok(im), Ok(iv)) => im@ == iv,
            (Err(er), Err(ev)) => er@ == ev,
            _ => false,
        },
{
    let mut acc = Image {
        src: None,
        docid: None,
        uriid: None,
        labels: None,
        height: None,
        width: None,
        alt: None,
    };
    proof {
        crate::xml::lemma_attrs_view_len(e.attrs@);
    }
    let mut i: usize = 0;
    while i < e.attrs.len()
        invariant
            i <= e.attrs@.len(),
            attrs_view(e.attrs@).len() == e.attrs@.len(),
            sp_image_attrs(attrs_view(e.attrs@), 0, sp_default_image()) == sp_image_attrs(
                attrs_view(e.attrs@),
                i as int,
                acc@,
            ),
        decreases e.attrs@.len() - i,
    {
        proof {
            assert(attrs_view(e.attrs@)[i as int] == e.attrs@[i as int]@);
        }
        let a = &e.attrs[i];
        if chars_eq_str(&a.name, "src") {
            acc.src = Some(chars_to_string(&a.value));
        } else if chars_eq_str(&a.name, "docid") {
            acc.docid = Some(chars_to_string(&a.value));
        } else if chars_eq_str(&a.name, "uriid") {
            acc.uriid = Some(chars_to_string(&a.value));
        } else if chars_eq_str(&a.name, "labels") {
            acc.labels = Some(chars_to_string(&a.value));
        } else if chars_eq_str(&a.name, "height") {
            match crate::chars::parse_u64(&a.value) {
                Some(n) => {
                    acc.height = Some(n);
                },
                None => {
                    return Err(
                        DecodeError::MalformedAttributeValue {
                            attr: chars_to_string(&a.name),
                            value: chars_to_string(&a.value),
                        },
                    );
                },
            }
        } else if chars_eq_str(&a.name, "width") {
            match crate::chars::parse_u64(&a.value) {
                Some(n) => {
                    acc.width = Some(n);
                },
                None => {
                    return Err(
                        DecodeError::MalformedAttributeValue {
                            attr: chars_to_string(&a.name),
                            value: chars_to_string(&a.value),
                        },
                    );
                },
            }
        } else if chars_eq_str(&a.name, "alt") {
            acc.alt = Some(chars_to_string(&a.value));
        }
        i = i + 1;
    }
    match first_elem_child(&e.children) {
        Some(n) => Err(
            DecodeError::StructuralError {
                tag: chars_to_string(&n),
                context: String::from_str("image"),
            },
        ),
        None => Ok(acc),
    }
}

/// An image encoded as its element, always self-closing.
pub open spec fn sp_en_image(im: ImageV) -> XmlElemV {
    XmlElemV {
        name: "image"@,
        attrs: sp_opt_attr("src"@, im.src) + sp_opt_attr("docid"@, im.docid) + sp_opt_attr(
            "uriid"@,
            im.uriid,
        ) + sp_opt_attr("labels"@, im.labels) + (match im.height {
            Some(n) => sp_attr1("height"@, crate::chars::dec_digits(n as nat)),
            None => Seq::empty(),
        }) + (match im.width {
            Some(n) => sp_attr1("width"@, crate::chars::dec_digits(n as nat)),
            None => Seq::empty(),
        }) + sp_opt_attr("alt"@, im.alt),
        children: Seq::empty(),
    }
}

/// Encodes an image as its element.
pub fn en_image(im: &Image) -> (r: XmlElem)
    ensures
        r@ == sp_en_image(im@),
{
    let mut attrs: Vec<XmlAttr> = Vec::new();
    proof {
        assert(attrs_view(attrs@) =~= Seq::<XmlAttrV>::empty());
    }
    push_opt_attr(&mut attrs, "src", &im.src);
    push_opt_attr(&mut attrs, "docid", &im.docid);
    push_opt_attr(&mut attrs, "uriid", &im.uriid);
    push_opt_attr(&mut attrs, "labels", &im.labels);
    match &im.height {
        Some(n) => {
            push_attr(&mut attrs, "height", crate::chars::u64_to_chars(*n));
        },
        None => {},
    }
    match &im.width {
        Some(n) => {
            push_attr(&mut attrs, "width", crate::chars::u64_to_chars(*n));
        },
        None => {},
    }
    push_opt_attr(&mut attrs, "alt", &im.alt);
    let r = XmlElem { name: str_to_chars("image"), attrs, children: Vec::new() };
    proof {
        assert(nodes_view(r.children@) =~= Seq::<XmlNodeV>::empty());
        assert(attrs_view(r.attrs@) =~= sp_en_image(im@).attrs);
    }
    r
}

/// The heading level attribute: defaults to one, must be a numeral within a
/// byte's range.
pub open spec fn sp_heading_level(attrs: Seq<XmlAttrV>, i: int, acc: u8) -> Result<
    u8,
    DecodeErrorView,
>
    decreases attrs.len() - i,
{
    if !(0 <= i < attrs.len()) {
        Ok(acc)
    } else {
        let a = attrs[i];
        if a.name == "level"@ {
            match crate::chars::sp_parse_u64(a.value) {
                Some(n) => if n <= 255 {
                    sp_heading_level(attrs, i + 1, n as u8)
                } else {
                    Err(DecodeErrorView::MalformedAttributeValue { attr: a.name, value: a.value })
                },
                None => Err(
                    DecodeErrorView::MalformedAttributeValue { attr: a.name, value: a.value },
                ),
            }
        } else {
            sp_heading_level(attrs, i + 1, acc)
        }
    }
}

/// A heading decoded from its element: its numeric level and its inline
/// content.
pub open spec fn sp_de_heading(e: XmlElemV, ctx: Seq<char>) -> Result<HeadingV, DecodeErrorView>
    decreases e.children, e.children.len(), 1int,
{
    match sp_heading_level(e.attrs, 0, 1u8) {
        Err(er) => Err(er),
        Ok(level) => match sp_de_cs_nodes(e.children, 0, Seq::empty(), ctx) {
            Err(er) => Err(er),
            Ok(content) => Ok(HeadingV { level, content }),
        },
    }
}

/// Decodes a heading from its element.
pub fn de_heading(e: &XmlElem, ctx: &Vec<char>) -> (r: Result<Heading, DecodeError>)
    ensures
        match (r, sp_de_heading(e@, ctx@)) {
            (Ok(h), Ok(hv)) => h@ == hv,
            (Err(er), Err(ev)) => er@ == ev,
            _ => false,
        },
    decreases e.children@, e.children@.len(), 1int,
{
    let mut level: u8 = 1;
    proof {
        crate::xml::lemma_attrs_view_len(e.attrs@);
    }
    let mut i: usize = 0;
    while i < e.attrs.len()
        invariant
            i <= e.attrs@.len(),
            attrs_view(e.attrs@).len() == e.attrs@.len(),
            sp_heading_level(attrs_view(e.attrs@), 0, 1u8) == sp_heading_level(
                attrs_view(e.attrs@),
                i as int,
                level,
            ),
        decreases e.attrs@.len() - i,
    {
        proof {
            assert(attrs_view(e.attrs@)[i as int] == e.attrs@[i as int]@);
        }
        let a = &e.attrs[i];
        if chars_eq_str(&a.name, "level") {
            match crate::chars::parse_u64(&a.value) {
                Some(n) => {
                    if n <= 255 {
                        level = n as u8;
                    } else {
                        return Err(
                            DecodeError::MalformedAttributeValue {
                                attr: chars_to_string(&a.name),
                                value: chars_to_string(&a.value),
                            },
                        );
                    }
                },
                None => {
                    return Err(
                        DecodeError::MalformedAttributeValue {
                            attr: chars_to_string(&a.name),
                            value: chars_to_string(&a.value),
                        },
                    );
                },
            }
        }
        i = i + 1;
    }
    match de_cs_nodes(&e.children, 0, Vec::new(), ctx) {
        Err(er) => Err(er),
        Ok(content) => Ok(Heading { level, content }),
    }
}

/// The attributes a paragraph carries.
pub struct ParaAttrs {
    pub indent: Option<u8>,
    pub numbered: Option<bool>,
    pub prefix: Option<String>,
}

/// The mathematical shadow of [`ParaAttrs`].
pub struct ParaAttrsV {
    pub indent: Option<u8>,
    pub numbered: Option<bool>,
    pub prefix: Option<Seq<char>>,
}

impl View for ParaAttrs {
    type V = ParaAttrsV;

    open spec fn view(&self) -> ParaAttrsV {
        ParaAttrsV { indent: self.indent, numbered: self.numbered, prefix: opt_view(self.prefix) }
    }
}

pub open spec fn sp_para_attrs(attrs: Seq<XmlAttrV>, i: int, acc: ParaAttrsV) -> Result<
    ParaAttrsV,
    DecodeErrorView,
>
    decreases attrs.len() - i,
{
    if !(0 <= i < attrs.len()) {
        Ok(acc)
    } else {
        let a = attrs[i];
        if a.name == "indent"@ {
            match crate::chars::sp_parse_u64(a.value) {
                Some(n) => if n <= 255 {
                    sp_para_attrs(attrs, i + 1, ParaAttrsV { indent: Some(n as u8), ..acc })
                } else {
                    Err(DecodeErrorView::MalformedAttributeValue { attr: a.name, value: a.value })
                },
                None => Err(
                    DecodeErrorView::MalformedAttributeValue { attr: a.name, value: a.value },
                ),
            }
        } else if a.name == "numbered"@ {
            match sp_bool_of(a.value) {
                Some(b) => sp_para_attrs(attrs, i + 1, ParaAttrsV { numbered: Some(b), ..acc }),
                None => Err(
                    DecodeErrorView::MalformedAttributeValue { attr: a.name, value: a.value },
                ),
            }
        } else if a.name == "prefix"@ {
            sp_para_attrs(attrs, i + 1, ParaAttrsV { prefix: Some(a.value), ..acc })
        } else {
            sp_para_attrs(attrs, i + 1, acc)
        }
    }
}

/// A paragraph decoded from its element.
pub open spec fn sp_de_para(e: XmlElemV, ctx: Seq<char>) -> Result<ParaV, DecodeErrorView>
    decreases e.children, e.children.len(), 1int,
{
    match sp_para_attrs(e.attrs, 0, ParaAttrsV { indent: None, numbered: None, prefix: None }) {
        Err(er) => Err(er),
        Ok(pa) => match sp_de_pc_nodes(e.children, 0, Seq::empty(), ctx) {
            Err(er) => Err(er),
            Ok(content) => Ok(
                ParaV { indent: pa.indent, numbered: pa.numbered, prefix: pa.prefix, content },
            ),
        },
    }
}

/// Decodes a paragraph from its element.
pub fn de_para(e: &XmlElem, ctx: &Vec<char>) -> (r: Result<Para, DecodeError>)
    ensures
        match (r, sp_de_para(e@, ctx@)) {
            (Ok(p), Ok(pv)) => p@ == pv,
            (Err(er), Err(ev)) => er@ == ev,
            _ => false,
        },
    decreases e.children@, e.children@.len(), 1int,
{
    let mut acc = ParaAttrs { indent: None, numbered: None, prefix: None };
    proof {
        crate::xml::lemma_attrs_view_len(e.attrs@);
    }
    let mut i: usize = 0;
    while i < e.attrs.len()
        invariant
            i <= e.attrs@.len(),
            attrs_view(e.attrs@).len() == e.attrs@.len(),
            sp_para_attrs(
                attrs_view(e.attrs@),
                0,
                ParaAttrsV { indent: None, numbered: None, prefix: None },
            ) == sp_para_attrs(attrs_view(e.attrs@), i as int, acc@),
        decreases e.attrs@.len() - i,
    {
        proof {
            assert(attrs_view(e.attrs@)[i as int] == e.attrs@[i as int]@);
        }
        let a = &e.attrs[i];
        if chars_eq_str(&a.name, "indent") {
            match crate::chars::parse_u64(&a.value) {
                Some(n) => {
                    if n <= 255 {
                        acc.indent = Some(n as u8);
                    } else {
                        return Err(
                            DecodeError::MalformedAttributeValue {
                                attr: chars_to_string(&a.name),
                                value: chars_to_string(&a.value),
                            },
                        );
                    }
                },
                None => {
                    return Err(
                        DecodeError::MalformedAttributeValue {
                            attr: chars_to_string(&a.name),
                            value: chars_to_string(&a.value),
                        },
                    );
                },
            }
        } else if chars_eq_str(&a.name, "numbered") {
            match bool_of_chars(&a.value) {
                Some(b) => {
                    acc.numbered = Some(b);
                },
                None => {
                    return Err(
                        DecodeError::MalformedAttributeValue {
                            attr: chars_to_string(&a.name),
                            value: chars_to_string(&a.value),
                        },
                    );
                },
            }
        } else if chars_eq_str(&a.name, "prefix") {
            acc.prefix = Some(chars_to_string(&a.value));
        }
        i = i + 1;
    }
    match de_pc_nodes(&e.children, 0, Vec::new(), ctx) {
        Err(er) => Err(er),
        Ok(content) => Ok(
            Para { indent: acc.indent, numbered: acc.numbered, prefix: acc.prefix, content },
        ),
    }
}

// ---------- the block cross-reference codec ----------

/// The attributes of a block cross-reference folded over the defaults.
pub open spec fn sp_bxref_attrs(attrs: Seq<XmlAttrV>, i: int, acc: BlockXRefV) -> Result<
    BlockXRefV,
    DecodeErrorView,
>
    decreases attrs.len() - i,
{
    if !(0 <= i < attrs.len()) {
        Ok(acc)
    } else {
        let a = attrs[i];
        if a.name == "docid"@ {
            sp_bxref_attrs(attrs, i + 1, BlockXRefV { docid: Some(a.value), ..acc })
        } else if a.name == "href"@ {
            sp_bxref_attrs(attrs, i + 1, BlockXRefV { href: Some(a.value), ..acc })
        } else if a.name == "uriid"@ {
            sp_bxref_attrs(attrs, i + 1, BlockXRefV { uriid: Some(a.value), ..acc })
        } else if a.name == "archived"@ {
            match sp_bool_of(a.value) {
                Some(b) => sp_bxref_attrs(attrs, i + 1, BlockXRefV { archived: Some(b), ..acc }),
                None => Err(
                    DecodeErrorView::MalformedAttributeValue { attr: a.name, value: a.value },
                ),
            }
        } else if a.name == "config"@ {
            sp_bxref_attrs(attrs, i + 1, BlockXRefV { config: Some(a.value), ..acc })
        } else if a.name == "display"@ {
            match sp_display_of(a.value) {
                Some(k) => sp_bxref_attrs(attrs, i + 1, BlockXRefV { display: Some(k), ..acc }),
                None => Err(
                    DecodeErrorView::MalformedAttributeValue { attr: a.name, value: a.value },
                ),
            }
        } else if a.name == "documenttype"@ {
            sp_bxref_attrs(attrs, i + 1, BlockXRefV { documenttype: Some(a.value), ..acc })
        } else if a.name == "external"@ {
            match sp_bool_of(a.value) {
                Some(b) => sp_bxref_attrs(attrs, i + 1, BlockXRefV { external: Some(b), ..acc }),
                None => Err(
                    DecodeErrorView::MalformedAttributeValue { attr: a.name, value: a.value },
                ),
            }
        } else if a.name == "frag"@ {
            sp_bxref_attrs(attrs, i + 1, BlockXRefV { frag: a.value, ..acc })
        } else if a.name == "id"@ {
            sp_bxref_attrs(attrs, i + 1, BlockXRefV { id: Some(a.value), ..acc })
        } else if a.name == "labels"@ {
            sp_bxref_attrs(attrs, i + 1, BlockXRefV { labels: Some(a.value), ..acc })
        } else if a.name == "level"@ {
            match crate::chars::sp_parse_u64(a.value) {
                Some(n) => if n <= 255 {
                    sp_bxref_attrs(attrs, i + 1, BlockXRefV { level: Some(n as u8), ..acc })
                } else {
                    Err(DecodeErrorView::MalformedAttributeValue { attr: a.name, value: a.value })
                },
                None => Err(
                    DecodeErrorView::MalformedAttributeValue { attr: a.name, value: a.value },
                ),
            }
        } else if a.name == "mediatype"@ {
            sp_bxref_attrs(attrs, i + 1, BlockXRefV { mediatype: Some(a.value), ..acc })
        } else if a.name == "reversetitle"@ {
            sp_bxref_attrs(attrs, i + 1, BlockXRefV { reversetitle: Some(a.value), ..acc })
        } else if a.name == "reverselink"@ {
            match sp_bool_of(a.value) {
                Some(b) => sp_bxref_attrs(attrs, i + 1, BlockXRefV { reverselink: Some(b), ..acc }),
                None => Err(
                    DecodeErrorView::MalformedAttributeValue { attr: a.name, value: a.value },
                ),
            }
        } else if a.name == "reversefrag"@ {
            sp_bxref_attrs(attrs, i + 1, BlockXRefV { reversefrag: Some(a.value), ..acc })
        } else if a.name == "title"@ {
            sp_bxref_attrs(attrs, i + 1, BlockXRefV { title: Some(a.value), ..acc })
        } else if a.name == "type"@ {
            match sp_bxref_kind_of(a.value) {
                Some(k) => sp_bxref_attrs(attrs, i + 1, BlockXRefV { xref_type: Some(k), ..acc }),
                None => Err(
                    DecodeErrorView::MalformedAttributeValue { attr: a.name, value: a.value },
                ),
            }
        } else if a.name == "unresolved"@ {
            match sp_bool_of(a.value) {
                Some(b) => sp_bxref_attrs(attrs, i + 1, BlockXRefV { unresolved: Some(b), ..acc }),
                None => Err(
                    DecodeErrorView::MalformedAttributeValue { attr: a.name, value: a.value },
                ),
            }
        } else if a.name == "urititle"@ {
            sp_bxref_attrs(attrs, i + 1, BlockXRefV { urititle: Some(a.value), ..acc })
        } else if a.name == "urilabels"@ {
            sp_bxref_attrs(attrs, i + 1, BlockXRefV { urilabels: Some(a.value), ..acc })
        } else {
            sp_bxref_attrs(attrs, i + 1, acc)
        }
    }
}

/// A block cross-reference decoded from its element: attributes over the
/// defaults and no element content.
pub open spec fn sp_de_bxref(e: XmlElemV) -> Result<BlockXRefV, DecodeErrorView> {
    match sp_bxref_attrs(e.attrs, 0, sp_default_bxref()) {
        Err(er) => Err(er),
        Ok(x) => match sp_first_elem_child(e.children, 0) {
            Some(n) => Err(DecodeErrorView::StructuralError { tag: n, context: "blockxref"@ }),
            None => Ok(x),
        },
    }
}

/// Decodes a block cross-reference from its element.
pub fn de_bxref(e: &XmlElem) -> (r: Result<BlockXRef, DecodeError>)
    ensures
        match (r, sp_de_bxref(e@)) {
            (Ok(x), Ok(xv)) => x@ == xv,
            (Err(er), Err(ev)) => er@ == ev,
            _ => false,
        },
{
    let mut acc = BlockXRef::default();
    proof {
        crate::xml::lemma_attrs_view_len(e.attrs@);
    }
    let mut i: usize = 0;
    while i < e.attrs.len()
        invariant
            i <= e.attrs@.len(),
            attrs_view(e.attrs@).len() == e.attrs@.len(),
            sp_bxref_attrs(attrs_view(e.attrs@), 0, sp_default_bxref()) == sp_bxref_attrs(
                attrs_view(e.attrs@),
                i as int,
                acc@,
            ),
        decreases e.attrs@.len() - i,
    {
        proof {
            assert(attrs_view(e.attrs@)[i as int] == e.attrs@[i as int]@);
        }
        let a = &e.attrs[i];
        if chars_eq_str(&a.name, "docid") {
            acc.docid = Some(chars_to_string(&a.value));
        } else if chars_eq_str(&a.name, "href") {
            acc.href = Some(chars_to_string(&a.value));
        } else if chars_eq_str(&a.name, "uriid") {
            acc.uriid = Some(chars_to_string(&a.value));
        } else if chars_eq_str(&a.name, "archived") {
            match bool_of_chars(&a.value) {
                Some(b) => {
                    acc.archived = Some(b);
                },
                None => {
                    return Err(
                        DecodeError::MalformedAttributeValue {
                            attr: chars_to_string(&a.name),
                            value: chars_to_string(&a.value),
                        },
                    );
                },
            }
        } else if chars_eq_str(&a.name, "config") {
            acc.config = Some(chars_to_string(&a.value));
        } else if chars_eq_str(&a.name, "display") {
            match display_of_chars(&a.value) {
                Some(k) => {
                    acc.display = Some(k);
                },
                None => {
                    return Err(
                        DecodeError::MalformedAttributeValue {
                            attr: chars_to_string(&a.name),
                            value: chars_to_string(&a.value),
                        },
                    );
                },
            }
        } else if chars_eq_str(&a.name, "documenttype") {
            acc.documenttype = Some(chars_to_string(&a.value));
        } else if chars_eq_str(&a.name, "external") {
            match bool_of_chars(&a.value) {
                Some(b) => {
                    acc.external = Some(b);
                },
                None => {
                    return Err(
                        DecodeError::MalformedAttributeValue {
                            attr: chars_to_string(&a.name),
                            value: chars_to_string(&a.value),
                        },
                    );
                },
            }
        } else if chars_eq_str(&a.name, "frag") {
            acc.frag = chars_to_string(&a.value);
        } else if chars_eq_str(&a.name, "id") {
            acc.id = Some(chars_to_string(&a.value));
        } else if chars_eq_str(&a.name, "labels") {
            acc.labels = Some(chars_to_string(&a.value));
        } else if chars_eq_str(&a.name, "level") {
            match crate::chars::parse_u64(&a.value) {
                Some(n) => {
                    if n <= 255 {
                        acc.level = Some(n as u8);
                    } else {
                        return Err(
                            DecodeError::MalformedAttributeValue {
                                attr: chars_to_string(&a.name),
                                value: chars_to_string(&a.value),
                            },
                        );
                    }
                },
                None => {
                    return Err(
                        DecodeError::MalformedAttributeValue {
                            attr: chars_to_string(&a.name),
                            value: chars_to_string(&a.value),
                        },
                    );
                },
            }
        } else if chars_eq_str(&a.name, "mediatype") {
            acc.mediatype = Some(chars_to_string(&a.value));
        } else if chars_eq_str(&a.name, "reversetitle") {
            acc.reversetitle = Some(chars_to_string(&a.value));
        } else if chars_eq_str(&a.name, "reverselink") {
            match bool_of_chars(&a.value) {
                Some(b) => {
                    acc.reverselink = Some(b);
                },
                None => {
                    return Err(
                        DecodeError::MalformedAttributeValue {
                            attr: chars_to_string(&a.name),
                            value: chars_to_string(&a.value),
                        },
                    );
                },
            }
        } else if chars_eq_str(&a.name, "reversefrag") {
            acc.reversefrag = Some(chars_to_string(&a.value));
        } else if chars_eq_str(&a.name, "title") {
            acc.title = Some(chars_to_string(&a.value));
        } else if chars_eq_str(&a.name, "type") {
            match bxref_kind_of_chars(&a.value) {
                Some(k) => {
                    acc.xref_type = Some(k);
                },
                None => {
                    return Err(
                        DecodeError::MalformedAttributeValue {
                            attr: chars_to_string(&a.name),
                            value: chars_to_string(&a.value),
                        },
                    );
                },
            }
        } else if chars_eq_str(&a.name, "unresolved") {
            match bool_of_chars(&a.value) {
                Some(b) => {
                    acc.unresolved = Some(b);
                },
                None => {
                    return Err(
                        DecodeError::MalformedAttributeValue {
                            attr: chars_to_string(&a.name),
                            value: chars_to_string(&a.value),
                        },
                    );
                },
            }
        } else if chars_eq_str(&a.name, "urititle") {
            acc.urititle = Some(chars_to_string(&a.value));
        } else if chars_eq_str(&a.name, "urilabels") {
            acc.urilabels = Some(chars_to_string(&a.value));
        }
        i = i + 1;
    }
    match first_elem_child(&e.children) {
        Some(n) => Err(
            DecodeError::StructuralError {
                tag: chars_to_string(&n),
                context: String::from_str("blockxref"),
            },
        ),
        None => Ok(acc),
    }
}

/// A block cross-reference encoded as its element, always self-closing: the
/// fragment id is omitted at its default, every absent attribute is omitted.
pub open spec fn sp_en_bxref(x: BlockXRefV) -> XmlElemV {
    XmlElemV {
        name: "blockxref"@,
        attrs: sp_opt_attr("docid"@, x.docid) + sp_opt_attr("href"@, x.href) + sp_opt_attr(
            "uriid"@,
            x.uriid,
        ) + sp_opt_bool_attr("archived"@, x.archived) + sp_opt_attr("config"@, x.config) + (
        match x.display {
            Some(k) => sp_attr1("display"@, sp_display_str(k)),
            None => Seq::empty(),
        }) + sp_opt_attr("documenttype"@, x.documenttype) + sp_opt_bool_attr(
            "external"@,
            x.external,
        ) + (if x.frag != "default"@ {
            sp_attr1("frag"@, x.frag)
        } else {
            Seq::empty()
        }) + sp_opt_attr("id"@, x.id) + sp_opt_attr("labels"@, x.labels) + (match x.level {
            Some(n) => sp_attr1("level"@, crate::chars::dec_digits(n as nat)),
            None => Seq::empty(),
        }) + sp_opt_attr("mediatype"@, x.mediatype) + sp_opt_attr("reversetitle"@, x.reversetitle)
            + sp_opt_bool_attr("reverselink"@, x.reverselink) + sp_opt_attr(
            "reversefrag"@,
            x.reversefrag,
        ) + sp_opt_attr("title"@, x.title) + (match x.xref_type {
            Some(k) => sp_attr1("type"@, sp_bxref_kind_str(k)),
            None => Seq::empty(),
        }) + sp_opt_bool_attr("unresolved"@, x.unresolved) + sp_opt_attr("urititle"@, x.urititle)
            + sp_opt_attr("urilabels"@, x.urilabels),
        children: Seq::empty(),
    }
}

/// Encodes a block cross-reference as its element.
pub fn en_bxref(x: &BlockXRef) -> (r: XmlElem)
    ensures
        r@ == sp_en_bxref(x@),
{
    let mut attrs: Vec<XmlAttr> = Vec::new();
    proof {
        assert(attrs_view(attrs@) =~= Seq::<XmlAttrV>::empty());
    }
    push_opt_attr(&mut attrs, "docid", &x.docid);
    push_opt_attr(&mut attrs, "href", &x.href);
    push_opt_attr(&mut attrs, "uriid", &x.uriid);
    push_opt_bool_attr(&mut attrs, "archived", &x.archived);
    push_opt_attr(&mut attrs, "config", &x.config);
    match &x.display {
        Some(k) => {
            push_attr(&mut attrs, "display", str_to_chars(k.to_str()));
        },
        None => {},
    }
    push_opt_attr(&mut attrs, "documenttype", &x.documenttype);
    push_opt_bool_attr(&mut attrs, "external", &x.external);
    let frag_chars = str_to_chars(x.frag.as_str());
    if !chars_eq_str(&frag_chars, "default") {
        push_attr(&mut attrs, "frag", frag_chars);
    }
    push_opt_attr(&mut attrs, "id", &x.id);
    push_opt_attr(&mut attrs, "labels", &x.labels);
    match &x.level {
        Some(n) => {
            push_attr(&mut attrs, "level", crate::chars::u64_to_chars(*n as u64));
        },
        None => {},
    }
    push_opt_attr(&mut attrs, "mediatype", &x.mediatype);
    push_opt_attr(&mut attrs, "reversetitle", &x.reversetitle);
    push_opt_bool_attr(&mut attrs, "reverselink", &x.reverselink);
    push_opt_attr(&mut attrs, "reversefrag", &x.reversefrag);
    push_opt_attr(&mut attrs, "title", &x.title);
    match &x.xref_type {
        Some(k) => {
            push_attr(&mut attrs, "type", str_to_chars(k.to_str()));
        },
        None => {},
    }
    push_opt_bool_attr(&mut attrs, "unresolved", &x.unresolved);
    push_opt_attr(&mut attrs, "urititle", &x.urititle);
    push_opt_attr(&mut attrs, "urilabels", &x.urilabels);
    let r = XmlElem { name: str_to_chars("blockxref"), attrs, children: Vec::new() };
    proof {
        assert(nodes_view(r.children@) =~= Seq::<XmlNodeV>::empty());
        assert(attrs_view(r.attrs@) =~= sp_en_bxref(x@).attrs);
    }
    r
}

// ---------- the table codec ----------

pub open spec fn sp_col_attrs(attrs: Seq<XmlAttrV>, i: int, acc: TableColumnV) -> Result<
    TableColumnV,
    DecodeErrorView,
>
    decreases attrs.len() - i,
{
    if !(0 <= i < attrs.len()) {
        Ok(acc)
    } else {
        let a = attrs[i];
        if a.name == "align"@ {
            match sp_align_of(a.value) {
                Some(k) => sp_col_attrs(attrs, i + 1, TableColumnV { align: Some(k), ..acc }),
                None => Err(
                    DecodeErrorView::MalformedAttributeValue { attr: a.name, value: a.value },
                ),
            }
        } else if a.name == "part"@ {
            match sp_part_of(a.value) {
                Some(k) => sp_col_attrs(attrs, i + 1, TableColumnV { part: Some(k), ..acc }),
                None => Err(
                    DecodeErrorView::MalformedAttributeValue { attr: a.name, value: a.value },
                ),
            }
        } else if a.name == "role"@ {
            sp_col_attrs(attrs, i + 1, TableColumnV { role: Some(a.value), ..acc })
        } else if a.name == "width"@ {
            sp_col_attrs(attrs, i + 1, TableColumnV { width: Some(a.value), ..acc })
        } else {
            sp_col_attrs(attrs, i + 1, acc)
        }
    }
}

pub open spec fn sp_de_col(e: XmlElemV) -> Result<TableColumnV, DecodeErrorView> {
    sp_col_attrs(e.attrs, 0, TableColumnV { align: None, part: None, role: None, width: None })
}

fn de_col(e: &XmlElem) -> (r: Result<TableColumn, DecodeError>)
    ensures
        match (r, sp_de_col(e@)) {
            (Ok(c), Ok(cv)) => c@ == cv,
            (Err(er), Err(ev)) => er@ == ev,
            _ => false,
        },
{
    let mut acc = TableColumn { align: None, part: None, role: None, width: None };
    proof {
        crate::xml::lemma_attrs_view_len(e.attrs@);
    }
    let mut i: usize = 0;
    while i < e.attrs.len()
        invariant
            i <= e.attrs@.len(),
            attrs_view(e.attrs@).len() == e.attrs@.len(),
            sp_col_attrs(
                attrs_view(e.attrs@),
                0,
                TableColumnV { align: None, part: None, role: None, width: None },
            ) == sp_col_attrs(attrs_view(e.attrs@), i as int, acc@),
        decreases e.attrs@.len() - i,
    {
        proof {
            assert(attrs_view(e.attrs@)[i as int] == e.attrs@[i as int]@);
        }
        let a = &e.attrs[i];
        if chars_eq_str(&a.name, "align") {
            match align_of_chars(&a.value) {
                Some(k) => {
                    acc.align = Some(k);
                },
                None => {
                    return Err(
                        DecodeError::MalformedAttributeValue {
                            attr: chars_to_string(&a.name),
                            value: chars_to_string(&a.value),
                        },
                    );
                },
            }
        } else if chars_eq_str(&a.name, "part") {
            match part_of_chars(&a.value) {
                Some(k) => {
                    acc.part = Some(k);
                },
                None => {
                    return Err(
                        DecodeError::MalformedAttributeValue {
                            attr: chars_to_string(&a.name),
                            value: chars_to_string(&a.value),
                        },
                    );
                },
            }
        } else if chars_eq_str(&a.name, "role") {
            acc.role = Some(chars_to_string(&a.value));
        } else if chars_eq_str(&a.name, "width") {
            acc.width = Some(chars_to_string(&a.value));
        }
        i = i + 1;
    }
    Ok(acc)
}

pub open spec fn sp_cell_attrs(attrs: Seq<XmlAttrV>, i: int, acc: TableCellV) -> Result<
    TableCellV,
    DecodeErrorView,
>
    decreases attrs.len() - i,
{
    if !(0 <= i < attrs.len()) {
        Ok(acc)
    } else {
        let a = attrs[i];
        if a.name == "align"@ {
            match sp_align_of(a.value) {
                Some(k) => sp_cell_attrs(attrs, i + 1, TableCellV { align: Some(k), ..acc }),
                None => Err(
                    DecodeErrorView::MalformedAttributeValue { attr: a.name, value: a.value },
                ),
            }
        } else if a.name == "role"@ {
            sp_cell_attrs(attrs, i + 1, TableCellV { role: Some(a.value), ..acc })
        } else if a.name == "colspan"@ {
            match crate::chars::sp_parse_u64(a.value) {
                Some(n) => sp_cell_attrs(attrs, i + 1, TableCellV { colspan: Some(n), ..acc }),
                None => Err(
                    DecodeErrorView::MalformedAttributeValue { attr: a.name, value: a.value },
                ),
            }
        } else if a.name == "rowspan"@ {
            match crate::chars::sp_parse_u64(a.value) {
                Some(n) => sp_cell_attrs(attrs, i + 1, TableCellV { rowspan: Some(n), ..acc }),
                None => Err(
                    DecodeErrorView::MalformedAttributeValue { attr: a.name, value: a.value },
                ),
            }
        } else {
            sp_cell_attrs(attrs, i + 1, acc)
        }
    }
}

/// A cell decoded from its element: its attributes and its text content.
pub open spec fn sp_de_cell(e: XmlElemV, ctx: Seq<char>) -> Result<TableCellV, DecodeErrorView> {
    match sp_cell_attrs(
        e.attrs,
        0,
        TableCellV { align: None, role: None, colspan: None, rowspan: None, content: Seq::empty() },
    ) {
        Err(er) => Err(er),
        Ok(c) => match sp_text_content(e.children, 0, Seq::empty(), ctx) {
            Err(er) => Err(er),
            Ok(t) => Ok(TableCellV { content: t, ..c }),
        },
    }
}

fn de_cell(e: &XmlElem, ctx: &Vec<char>) -> (r: Result<TableCell, DecodeError>)
    ensures
        match (r, sp_de_cell(e@, ctx@)) {
            (Ok(c), Ok(cv)) => c@ == cv,
            (Err(er), Err(ev)) => er@ == ev,
            _ => false,
        },
{
    let mut acc = TableCell {
        align: None,
        role: None,
        colspan: None,
        rowspan: None,
        content: String::new(),
    };
    proof {
        crate::xml::lemma_attrs_view_len(e.attrs@);
    }
    let mut i: usize = 0;
    while i < e.attrs.len()
        invariant
            i <= e.attrs@.len(),
            attrs_view(e.attrs@).len() == e.attrs@.len(),
            acc.content@ == Seq::<char>::empty(),
            sp_cell_attrs(
                attrs_view(e.attrs@),
                0,
                TableCellV {
                    align: None,
                    role: None,
                    colspan: None,
                    rowspan: None,
                    content: Seq::empty(),
                },
            ) == sp_cell_attrs(attrs_view(e.attrs@), i as int, acc@),
        decreases e.attrs@.len() - i,
    {
        proof {
            assert(attrs_view(e.attrs@)[i as int] == e.attrs@[i as int]@);
        }
        let a = &e.attrs[i];
        if chars_eq_str(&a.name, "align") {
            match align_of_chars(&a.value) {
                Some(k) => {
                    acc.align = Some(k);
                },
                None => {
                    return Err(
                        DecodeError::MalformedAttributeValue {
                            attr: chars_to_string(&a.name),
                            value: chars_to_string(&a.value),
                        },
                    );
                },
            }
        } else if chars_eq_str(&a.name, "role") {
            acc.role = Some(chars_to_string(&a.value));
        } else if chars_eq_str(&a.name, "colspan") {
            match crate::chars::parse_u64(&a.value) {
                Some(n) => {
                    acc.colspan = Some(n);
                },
                None => {
                    return Err(
                        DecodeError::MalformedAttributeValue {
                            attr: chars_to_string(&a.name),
                            value: chars_to_string(&a.value),
                        },
                    );
                },
            }
        } else if chars_eq_str(&a.name, "rowspan") {
            match crate::chars::parse_u64(&a.value) {
                Some(n) => {
                    acc.rowspan = Some(n);
                },
                None => {
                    return Err(
                        DecodeError::MalformedAttributeValue {
                            attr: chars_to_string(&a.name),
                            value: chars_to_string(&a.value),
                        },
                    );
                },
            }
        }
        i = i + 1;
    }
    match de_text_content_elem(e, ctx) {
        Err(er) => Err(er),
        Ok(t) => {
            acc.content = chars_to_string(&t);
            Ok(acc)
        },
    }
}

pub open spec fn sp_row_attrs(attrs: Seq<XmlAttrV>, i: int, acc: TableRowV) -> Result<
    TableRowV,
    DecodeErrorView,
>
    decreases attrs.len() - i,
{
    if !(0 <= i < attrs.len()) {
        Ok(acc)
    } else {
        let a = attrs[i];
        if a.name == "align"@ {
            match sp_align_of(a.value) {
                Some(k) => sp_row_attrs(attrs, i + 1, TableRowV { align: Some(k), ..acc }),
                None => Err(
                    DecodeErrorView::MalformedAttributeValue { attr: a.name, value: a.value },
                ),
            }
        } else if a.name == "part"@ {
            match sp_part_of(a.value) {
                Some(k) => sp_row_attrs(attrs, i + 1, TableRowV { part: Some(k), ..acc }),
                None => Err(
                    DecodeErrorView::MalformedAttributeValue { attr: a.name, value: a.value },
                ),
            }
        } else if a.name == "role"@ {
            sp_row_attrs(attrs, i + 1, TableRowV { role: Some(a.value), ..acc })
        } else {
            sp_row_attrs(attrs, i + 1, acc)
        }
    }
}

/// The cells of a row read from its children: `cell` elements in order,
/// stray character data ignored, anything else refused.
pub open spec fn sp_row_children(
    ns: Seq<XmlNodeV>,
    i: int,
    acc: Seq<TableCellV>,
    ctx: Seq<char>,
) -> Result<Seq<TableCellV>, DecodeErrorView>
    decreases ns.len() - i,
{
    if !(0 <= i < ns.len()) {
        Ok(acc)
    } else {
        match ns[i] {
            XmlNodeV::Text(_) => sp_row_children(ns, i + 1, acc, ctx),
            XmlNodeV::Elem(c) => if c.name == "cell"@ {
                match sp_de_cell(c, ctx) {
                    Err(er) => Err(er),
                    Ok(cl) => sp_row_children(ns, i + 1, acc.push(cl), ctx),
                }
            } else {
                Err(DecodeErrorView::StructuralError { tag: c.name, context: ctx })
            },
        }
    }
}

pub open spec fn sp_de_row(e: XmlElemV, ctx: Seq<char>) -> Result<TableRowV, DecodeErrorView> {
    match sp_row_attrs(
        e.attrs,
        0,
        TableRowV { align: None, part: None, role: None, cells: Seq::empty() },
    ) {
        Err(er) => Err(er),
        Ok(rw) => match sp_row_children(e.children, 0, Seq::empty(), ctx) {
            Err(er) => Err(er),
            Ok(cells) => Ok(TableRowV { cells, ..rw }),
        },
    }
}

fn de_row(e: &XmlElem, ctx: &Vec<char>) -> (r: Result<TableRow, DecodeError>)
    ensures
        match (r, sp_de_row(e@, ctx@)) {
            (Ok(rw), Ok(rv)) => rw@ == rv,
            (Err(er), Err(ev)) => er@ == ev,
            _ => false,
        },
{
    let mut acc = TableRow { align: None, part: None, role: None, cells: Vec::new() };
    proof {
        crate::xml::lemma_attrs_view_len(e.attrs@);
        assert(cells_view(acc.cells@) =~= Seq::<TableCellV>::empty());
    }
    let mut i: usize = 0;
    while i < e.attrs.len()
        invariant
            i <= e.attrs@.len(),
            attrs_view(e.attrs@).len() == e.attrs@.len(),
            cells_view(acc.cells@) == Seq::<TableCellV>::empty(),
            sp_row_attrs(
                attrs_view(e.attrs@),
                0,
                TableRowV { align: None, part: None, role: None, cells: Seq::empty() },
            ) == sp_row_attrs(attrs_view(e.attrs@), i as int, acc@),
        decreases e.attrs@.len() - i,
    {
        proof {
            assert(attrs_view(e.attrs@)[i as int] == e.attrs@[i as int]@);
        }
        let a = &e.attrs[i];
        if chars_eq_str(&a.name, "align") {
            match align_of_chars(&a.value) {
                Some(k) => {
                    acc.align = Some(k);
                },
                None => {
                    return Err(
                        DecodeError::MalformedAttributeValue {
                            attr: chars_to_string(&a.name),
                            value: chars_to_string(&a.value),
                        },
                    );
                },
            }
        } else if chars_eq_str(&a.name, "part") {
            match part_of_chars(&a.value) {
                Some(k) => {
                    acc.part = Some(k);
                },
                None => {
                    return Err(
                        DecodeError::MalformedAttributeValue {
                            attr: chars_to_string(&a.name),
                            value: chars_to_string(&a.value),
                        },
                    );
                },
            }
        } else if chars_eq_str(&a.name, "role") {
            acc.role = Some(chars_to_string(&a.value));
        }
        i = i + 1;
    }
    let mut k: usize = 0;
    proof {
        crate::xml::lemma_nodes_view_len(e.children@);
    }
    while k < e.children.len()
        invariant
            k <= e.children@.len(),
            e@.children.len() == e.children@.len(),
            e@.children == nodes_view(e.children@),
            e@.attrs == attrs_view(e.attrs@),
            sp_row_attrs(
                e@.attrs,
                0,
                TableRowV { align: None, part: None, role: None, cells: Seq::empty() },
            ) == Ok::<TableRowV, DecodeErrorView>(
                TableRowV { cells: Seq::empty(), ..acc@ },
            ),
            sp_row_children(e@.children, 0, Seq::empty(), ctx@) == sp_row_children(
                e@.children,
                k as int,
                cells_view(acc.cells@),
                ctx@,
            ),
        decreases e.children@.len() - k,
    {
        proof {
            crate::xml::lemma_nodes_view_index(e.children@, k as int);
        }
        match &e.children[k] {
            XmlNode::Text(_) => {},
            XmlNode::Elem(c) => {
                if chars_eq_str(&c.name, "cell") {
                    match de_cell(c, ctx) {
                        Err(er) => {
                            return Err(er);
                        },
                        Ok(cl) => {
                            let ghost c0 = acc.cells@;
                            let ghost clv = cl@;
                            acc.cells.push(cl);
                            proof {
                                assert(cells_view(acc.cells@) =~= cells_view(c0).push(clv));
                            }
                        },
                    }
                } else {
                    return Err(
                        DecodeError::StructuralError {
                            tag: chars_to_string(&c.name),
                            context: chars_to_string(ctx),
                        },
                    );
                }
            },
        }
        k = k + 1;
    }
    Ok(acc)
}

/// The parts a table is assembled from, in document order: the last caption
/// wins; columns and rows are collected separately, each in order.
pub struct TableAcc {
    pub caption: Option<TableCaption>,
    pub cols: Vec<TableColumn>,
    pub rows: Vec<TableRow>,
}

/// The mathematical shadow of [`TableAcc`].
pub struct TableAccV {
    pub caption: Option<Seq<char>>,
    pub cols: Seq<TableColumnV>,
    pub rows: Seq<TableRowV>,
}

impl View for TableAcc {
    type V = TableAccV;

    open spec fn view(&self) -> TableAccV {
        TableAccV {
            caption: match self.caption {
                Some(c) => Some(c.caption@),
                None => None,
            },
            cols: cols_view(self.cols@),
            rows: rows_view(self.rows@),
        }
    }
}

pub open spec fn sp_table_children(ns: Seq<XmlNodeV>, i: int, acc: TableAccV, ctx: Seq<char>)
    -> Result<TableAccV, DecodeErrorView>
    decreases ns.len() - i,
{
    if !(0 <= i < ns.len()) {
        Ok(acc)
    } else {
        match ns[i] {
            XmlNodeV::Text(_) => sp_table_children(ns, i + 1, acc, ctx),
            XmlNodeV::Elem(c) => if c.name == "caption"@ {
                match sp_text_content(c.children, 0, Seq::empty(), ctx) {
                    Err(er) => Err(er),
                    Ok(t) => sp_table_children(ns, i + 1, TableAccV { caption: Some(t), ..acc }, ctx),
                }
            } else if c.name == "col"@ {
                match sp_de_col(c) {
                    Err(er) => Err(er),
                    Ok(cl) => sp_table_children(
                        ns,
                        i + 1,
                        TableAccV { cols: acc.cols.push(cl), ..acc },
                        ctx,
                    ),
                }
            } else if c.name == "row"@ {
                match sp_de_row(c, ctx) {
                    Err(er) => Err(er),
                    Ok(rw) => sp_table_children(
                        ns,
                        i + 1,
                        TableAccV { rows: acc.rows.push(rw), ..acc },
                        ctx,
                    ),
                }
            } else {
                Err(DecodeErrorView::StructuralError { tag: c.name, context: ctx })
            },
        }
    }
}

/// The presentation attributes of a table.
pub struct TableAttrs {
    pub role: Option<String>,
    pub summary: Option<String>,
    pub height: Option<String>,
    pub width: Option<String>,
}

/// The mathematical shadow of [`TableAttrs`].
pub struct TableAttrsV {
    pub role: Option<Seq<char>>,
    pub summary: Option<Seq<char>>,
    pub height: Option<Seq<char>>,
    pub width: Option<Seq<char>>,
}

impl View for TableAttrs {
    type V = TableAttrsV;

    open spec fn view(&self) -> TableAttrsV {
        TableAttrsV {
            role: opt_view(self.role),
            summary: opt_view(self.summary),
            height: opt_view(self.height),
            width: opt_view(self.width),
        }
    }
}

pub open spec fn sp_table_attrs(attrs: Seq<XmlAttrV>, i: int, acc: TableAttrsV) -> TableAttrsV
    decreases attrs.len() - i,
{
    if !(0 <= i < attrs.len()) {
        acc
    } else {
        let a = attrs[i];
        if a.name == "role"@ {
            sp_table_attrs(attrs, i + 1, TableAttrsV { role: Some(a.value), ..acc })
        } else if a.name == "summary"@ {
            sp_table_attrs(attrs, i + 1, TableAttrsV { summary: Some(a.value), ..acc })
        } else if a.name == "height"@ {
            sp_table_attrs(attrs, i + 1, TableAttrsV { height: Some(a.value), ..acc })
        } else if a.name == "width"@ {
            sp_table_attrs(attrs, i + 1, TableAttrsV { width: Some(a.value), ..acc })
        } else {
            sp_table_attrs(attrs, i + 1, acc)
        }
    }
}

/// A table decoded from its element: caption, columns and rows are collected
/// from the children in document order, whatever their interleaving.
pub open spec fn sp_de_table(e: XmlElemV, ctx: Seq<char>) -> Result<TableV, DecodeErrorView> {
    let ta = sp_table_attrs(
        e.attrs,
        0,
        TableAttrsV { role: None, summary: None, height: None, width: None },
    );
    match sp_table_children(
        e.children,
        0,
        TableAccV { caption: None, cols: Seq::empty(), rows: Seq::empty() },
        ctx,
    ) {
        Err(er) => Err(er),
        Ok(tc) => Ok(
            TableV {
                caption: tc.caption,
                role: ta.role,
                summary: ta.summary,
                height: ta.height,
                width: ta.width,
                cols: tc.cols,
                rows: tc.rows,
            },
        ),
    }
}

/// Decodes a table from its element.
pub fn de_table(e: &XmlElem, ctx: &Vec<char>) -> (r: Result<Table, DecodeError>)
    ensures
        match (r, sp_de_table(e@, ctx@)) {
            (Ok(t), Ok(tv)) => t@ == tv,
            (Err(er), Err(ev)) => er@ == ev,
            _ => false,
        },
{
    let mut ta = TableAttrs { role: None, summary: None, height: None, width: None };
    proof {
        crate::xml::lemma_attrs_view_len(e.attrs@);
    }
    let mut i: usize = 0;
    while i < e.attrs.len()
        invariant
            i <= e.attrs@.len(),
            attrs_view(e.attrs@).len() == e.attrs@.len(),
            sp_table_attrs(
                attrs_view(e.attrs@),
                0,
                TableAttrsV { role: None, summary: None, height: None, width: None },
            ) == sp_table_attrs(attrs_view(e.attrs@), i as int, ta@),
        decreases e.attrs@.len() - i,
    {
        proof {
            assert(attrs_view(e.attrs@)[i as int] == e.attrs@[i as int]@);
        }
        let a = &e.attrs[i];
        if chars_eq_str(&a.name, "role") {
            ta.role = Some(chars_to_string(&a.value));
        } else if chars_eq_str(&a.name, "summary") {
            ta.summary = Some(chars_to_string(&a.value));
        } else if chars_eq_str(&a.name, "height") {
            ta.height = Some(chars_to_string(&a.value));
        } else if chars_eq_str(&a.name, "width") {
            ta.width = Some(chars_to_string(&a.value));
        }
        i = i + 1;
    }
    let mut acc = TableAcc { caption: None, cols: Vec::new(), rows: Vec::new() };
    proof {
        crate::xml::lemma_nodes_view_len(e.children@);
        assert(cols_view(acc.cols@) =~= Seq::<TableColumnV>::empty());
        assert(rows_view(acc.rows@) =~= Seq::<TableRowV>::empty());
    }
    let mut k: usize = 0;
    while k < e.children.len()
        invariant
            k <= e.children@.len(),
            e@.children.len() == e.children@.len(),
            e@.children == nodes_view(e.children@),
            e@.attrs == attrs_view(e.attrs@),
            sp_table_attrs(
                e@.attrs,
                0,
                TableAttrsV { role: None, summary: None, height: None, width: None },
            ) == ta@,
            sp_table_children(
                e@.children,
                0,
                TableAccV { caption: None, cols: Seq::empty(), rows: Seq::empty() },
                ctx@,
            ) == sp_table_children(e@.children, k as int, acc@, ctx@),
        decreases e.children@.len() - k,
    {
        proof {
            crate::xml::lemma_nodes_view_index(e.children@, k as int);
        }
        match &e.children[k] {
            XmlNode::Text(_) => {},
            XmlNode::Elem(c) => {
                if chars_eq_str(&c.name, "caption") {
                    match de_text_content_elem(c, ctx) {
                        Err(er) => {
                            return Err(er);
                        },
                        Ok(t) => {
                            acc.caption = Some(TableCaption { caption: chars_to_string(&t) });
                        },
                    }
                } else if chars_eq_str(&c.name, "col") {
                    match de_col(c) {
                        Err(er) => {
                            return Err(er);
                        },
                        Ok(cl) => {
                            let ghost c0 = acc.cols@;
                            let ghost clv = cl@;
                            acc.cols.push(cl);
                            proof {
                                assert(cols_view(acc.cols@) =~= cols_view(c0).push(clv));
                            }
                        },
                    }
                } else if chars_eq_str(&c.name, "row") {
                    match de_row(c, ctx) {
                        Err(er) => {
                            return Err(er);
                        },
                        Ok(rw) => {
                            let ghost r0 = acc.rows@;
                            let ghost rv = rw@;
                            acc.rows.push(rw);
                            proof {
                                assert(rows_view(acc.rows@) =~= rows_view(r0).push(rv));
                            }
                        },
                    }
                } else {
                    return Err(
                        DecodeError::StructuralError {
                            tag: chars_to_string(&c.name),
                            context: chars_to_string(ctx),
                        },
                    );
                }
            },
        }
        k = k + 1;
    }
    Ok(
        Table {
            caption: acc.caption,
            role: ta.role,
            summary: ta.summary,
            height: ta.height,
            width: ta.width,
            cols: acc.cols,
            rows: acc.rows,
        },
    )
}

// ---------- the block content grammar ----------

/// The block content of an element's children: the full fragment grammar,
/// with `block` and `preformat` read recursively.
pub open spec fn sp_de_fc_nodes(
    ns: Seq<XmlNodeV>,
    i: int,
    acc: Seq<FragmentContentV>,
    ctx: Seq<char>,
) -> Result<Seq<FragmentContentV>, DecodeErrorView>
    decreases ns, ns.len() - i, 2int,
{
    if !(0 <= i < ns.len()) {
        Ok(acc)
    } else {
        match ns[i] {
            XmlNodeV::Text(t) => sp_de_fc_nodes(ns, i + 1, acc.push(FragmentContentV::Text(t)), ctx),
            XmlNodeV::Elem(c) => if c.name == "heading"@ {
                match sp_de_heading(c, ctx) {
                    Err(er) => Err(er),
                    Ok(h) => sp_de_fc_nodes(ns, i + 1, acc.push(FragmentContentV::Heading(h)), ctx),
                }
            } else if c.name == "para"@ {
                match sp_de_para(c, ctx) {
                    Err(er) => Err(er),
                    Ok(p) => sp_de_fc_nodes(ns, i + 1, acc.push(FragmentContentV::Para(p)), ctx),
                }
            } else if c.name == "block"@ {
                match sp_de_fc_nodes(c.children, 0, Seq::empty(), ctx) {
                    Err(er) => Err(er),
                    Ok(inner) => sp_de_fc_nodes(
                        ns,
                        i + 1,
                        acc.push(FragmentContentV::Block { child: inner }),
                        ctx,
                    ),
                }
            } else if c.name == "preformat"@ {
                match sp_de_fc_nodes(c.children, 0, Seq::empty(), ctx) {
                    Err(er) => Err(er),
                    Ok(inner) => sp_de_fc_nodes(
                        ns,
                        i + 1,
                        acc.push(FragmentContentV::Preformat { child: inner }),
                        ctx,
                    ),
                }
            } else if c.name == "blockxref"@ {
                match sp_de_bxref(c) {
                    Err(er) => Err(er),
                    Ok(x) => sp_de_fc_nodes(
                        ns,
                        i + 1,
                        acc.push(FragmentContentV::BlockXRef(x)),
                        ctx,
                    ),
                }
            } else if c.name == "image"@ {
                match sp_de_image(c) {
                    Err(er) => Err(er),
                    Ok(im) => sp_de_fc_nodes(ns, i + 1, acc.push(FragmentContentV::Image(im)), ctx),
                }
            } else if c.name == "table"@ {
                match sp_de_table(c, ctx) {
                    Err(er) => Err(er),
                    Ok(t) => sp_de_fc_nodes(ns, i + 1, acc.push(FragmentContentV::Table(t)), ctx),
                }
            } else {
                Err(DecodeErrorView::StructuralError { tag: c.name, context: ctx })
            },
        }
    }
}

/// Decodes block content, mirroring [`sp_de_fc_nodes`].
pub fn de_fc_nodes(ns: &Vec<XmlNode>, i: usize, acc: Vec<FragmentContent>, ctx: &Vec<char>) -> (r:
    Result<Vec<FragmentContent>, DecodeError>)
    requires
        i <= ns.len(),
    ensures
        match (r, sp_de_fc_nodes(nodes_view(ns@), i as int, fcs_view(acc@), ctx@)) {
            (Ok(cs), Ok(cv)) => fcs_view(cs@) == cv,
            (Err(er), Err(ev)) => er@ == ev,
            _ => false,
        },
    decreases ns@, ns@.len() - i, 2int,
{
    proof {
        crate::xml::lemma_nodes_view_len(ns@);
    }
    if i >= ns.len() {
        return Ok(acc);
    }
    proof {
        crate::xml::lemma_nodes_view_index(ns@, i as int);
        assert(decreases_to!(ns@ => ns@[i as int]));
    }
    let mut acc = acc;
    match &ns[i] {
        XmlNode::Text(t) => {
            let ghost a0 = acc@;
            acc.push(FragmentContent::Text(chars_to_string(t)));
            proof {
                crate::model::lemma_fcs_view_push(a0, acc@[a0.len() as int]);
            }
            de_fc_nodes(ns, i + 1, acc, ctx)
        },
        XmlNode::Elem(c) => {
            if chars_eq_str(&c.name, "heading") {
                match de_heading(c, ctx) {
                    Err(er) => Err(er),
                    Ok(h) => {
                        let ghost a0 = acc@;
                        acc.push(FragmentContent::Heading(h));
                        proof {
                            crate::model::lemma_fcs_view_push(a0, acc@[a0.len() as int]);
                        }
                        de_fc_nodes(ns, i + 1, acc, ctx)
                    },
                }
            } else if chars_eq_str(&c.name, "para") {
                match de_para(c, ctx) {
                    Err(er) => Err(er),
                    Ok(p) => {
                        let ghost a0 = acc@;
                        acc.push(FragmentContent::Para(p));
                        proof {
                            crate::model::lemma_fcs_view_push(a0, acc@[a0.len() as int]);
                        }
                        de_fc_nodes(ns, i + 1, acc, ctx)
                    },
                }
            } else if chars_eq_str(&c.name, "block") {
                match de_fc_nodes(&c.children, 0, Vec::new(), ctx) {
                    Err(er) => Err(er),
                    Ok(inner) => {
                        let ghost a0 = acc@;
                        acc.push(FragmentContent::Block { child: inner });
                        proof {
                            crate::model::lemma_fcs_view_push(a0, acc@[a0.len() as int]);
                        }
                        de_fc_nodes(ns, i + 1, acc, ctx)
                    },
                }
            } else if chars_eq_str(&c.name, "preformat") {
                match de_fc_nodes(&c.children, 0, Vec::new(), ctx) {
                    Err(er) => Err(er),
                    Ok(inner) => {
                        let ghost a0 = acc@;
                        acc.push(FragmentContent::Preformat { child: inner });
                        proof {
                            crate::model::lemma_fcs_view_push(a0, acc@[a0.len() as int]);
                        }
                        de_fc_nodes(ns, i + 1, acc, ctx)
                    },
                }
            } else if chars_eq_str(&c.name, "blockxref") {
                match de_bxref(c) {
                    Err(er) => Err(er),
                    Ok(x) => {
                        let ghost a0 = acc@;
                        acc.push(FragmentContent::BlockXRef(x));
                        proof {
                            crate::model::lemma_fcs_view_push(a0, acc@[a0.len() as int]);
                        }
                        de_fc_nodes(ns, i + 1, acc, ctx)
                    },
                }
            } else if chars_eq_str(&c.name, "image") {
                match de_image(c) {
                    Err(er) => Err(er),
                    Ok(im) => {
                        let ghost a0 = acc@;
                        acc.push(FragmentContent::Image(im));
                        proof {
                            crate::model::lemma_fcs_view_push(a0, acc@[a0.len() as int]);
                        }
                        de_fc_nodes(ns, i + 1, acc, ctx)
                    },
                }
            } else if chars_eq_str(&c.name, "table") {
                match de_table(c, ctx) {
                    Err(er) => Err(er),
                    Ok(t) => {
                        let ghost a0 = acc@;
                        acc.push(FragmentContent::Table(t));
                        proof {
                            crate::model::lemma_fcs_view_push(a0, acc@[a0.len() as int]);
                        }
                        de_fc_nodes(ns, i + 1, acc, ctx)
                    },
                }
            } else {
                Err(
                    DecodeError::StructuralError {
                        tag: chars_to_string(&c.name),
                        context: chars_to_string(ctx),
                    },
                )
            }
        },
    }
}

// ---------- the narrative fragment codec ----------

/// A narrative fragment decoded from its element: the required `id`, the
/// optional type, the comma-split labels, and its block content in document
/// order. Unknown attributes are passed over.
pub open spec fn sp_de_fragment(e: XmlElemV) -> Result<FragmentV, DecodeErrorView> {
    let pa = sp_frag_attrs(e.attrs, 0, sp_default_pfrag_attrs());
    match pa.id {
        None => Err(
            DecodeErrorView::MissingRequiredAttribute { attr: "id"@, elem: "fragment"@ },
        ),
        Some(id) => match sp_de_fc_nodes(e.children, 0, Seq::empty(), id) {
            Err(er) => Err(er),
            Ok(content) => Ok(
                FragmentV { id, frag_type: pa.frag_type, labels: pa.labels, content },
            ),
        },
    }
}

/// Decodes a narrative fragment from its element.
pub fn de_fragment(e: &XmlElem) -> (r: Result<Fragment, DecodeError>)
    ensures
        match (r, sp_de_fragment(e@)) {
            (Ok(f), Ok(fv)) => f@ == fv,
            (Err(er), Err(ev)) => er@ == ev,
            _ => false,
        },
{
    let pa = de_frag_attrs(e);
    let id = match pa.id {
        None => {
            return Err(
                DecodeError::MissingRequiredAttribute {
                    attr: String::from_str("id"),
                    elem: String::from_str("fragment"),
                },
            );
        },
        Some(id) => id,
    };
    let idc = str_to_chars(id.as_str());
    proof {
        assert(fcs_view(Seq::<FragmentContent>::empty()) == Seq::<FragmentContentV>::empty());
    }
    match de_fc_nodes(&e.children, 0, Vec::new(), &idc) {
        Err(er) => Err(er),
        Ok(content) => Ok(Fragment { id, frag_type: pa.frag_type, labels: pa.labels, content }),
    }
}

// ---------- the grammar encoders ----------

/// One piece of inline content written back as a node.
pub open spec fn sp_en_cs(c: CharacterStyleV) -> XmlNodeV
    decreases c, 1int, 0int,
{
    match c {
        CharacterStyleV::Text(t) => XmlNodeV::Text(t),
        CharacterStyleV::Bold(cs) => XmlNodeV::Elem(
            XmlElemV { name: "bold"@, attrs: Seq::empty(), children: sp_en_css(cs, 0) },
        ),
        CharacterStyleV::Italic(cs) => XmlNodeV::Elem(
            XmlElemV { name: "italic"@, attrs: Seq::empty(), children: sp_en_css(cs, 0) },
        ),
        CharacterStyleV::Underline(cs) => XmlNodeV::Elem(
            XmlElemV { name: "underline"@, attrs: Seq::empty(), children: sp_en_css(cs, 0) },
        ),
        CharacterStyleV::Subscript(cs) => XmlNodeV::Elem(
            XmlElemV { name: "subscript"@, attrs: Seq::empty(), children: sp_en_css(cs, 0) },
        ),
        CharacterStyleV::Superscript(cs) => XmlNodeV::Elem(
            XmlElemV { name: "superscript"@, attrs: Seq::empty(), children: sp_en_css(cs, 0) },
        ),
        CharacterStyleV::Monospace(cs) => XmlNodeV::Elem(
            XmlElemV { name: "monospace"@, attrs: Seq::empty(), children: sp_en_css(cs, 0) },
        ),
        CharacterStyleV::XRef(x) => XmlNodeV::Elem(sp_en_xref(x)),
        CharacterStyleV::Link(cs) => XmlNodeV::Elem(
            XmlElemV { name: "link"@, attrs: Seq::empty(), children: sp_en_css(cs, 0) },
        ),
    }
}

pub open spec fn sp_en_css(cs: Seq<CharacterStyleV>, i: int) -> Seq<XmlNodeV>
    decreases cs, 0int, cs.len() - i,
{
    if !(0 <= i < cs.len()) {
        Seq::empty()
    } else {
        seq![sp_en_cs(cs[i])] + sp_en_css(cs, i + 1)
    }
}

/// Writes inline content back, mirroring [`sp_en_css`].
pub fn en_css(cs: &Vec<CharacterStyle>, i: usize, acc: Vec<XmlNode>) -> (r: Vec<XmlNode>)
    requires
        i <= cs.len(),
    ensures
        nodes_view(r@) == nodes_view(acc@) + sp_en_css(css_view(cs@), i as int),
    decreases cs@, 0int, cs@.len() - i,
{
    proof {
        crate::text::lemma_css_view_len(cs@);
    }
    if i >= cs.len() {
        proof {
            assert(nodes_view(acc@) + sp_en_css(css_view(cs@), i as int) =~= nodes_view(acc@));
        }
        return acc;
    }
    proof {
        crate::text::lemma_css_view_index(cs@, i as int);
        assert(decreases_to!(cs@ => cs@[i as int]));
    }
    let mut acc = acc;
    let ghost a0 = acc@;
    match &cs[i] {
        CharacterStyle::Text(t) => {
            acc.push(XmlNode::Text(str_to_chars(t.as_str())));
        },
        CharacterStyle::Bold(b) => {
            let children = en_css(&b.content, 0, Vec::new());
            proof {
                assert(nodes_view(Seq::<XmlNode>::empty()) + sp_en_css(css_view(b.content@), 0)
                    =~= sp_en_css(css_view(b.content@), 0));
            }
            acc.push(XmlNode::Elem(XmlElem { name: str_to_chars("bold"), attrs: Vec::new(), children }));
        },
        CharacterStyle::Italic(b) => {
            let children = en_css(&b.content, 0, Vec::new());
            proof {
                assert(nodes_view(Seq::<XmlNode>::empty()) + sp_en_css(css_view(b.content@), 0)
                    =~= sp_en_css(css_view(b.content@), 0));
            }
            acc.push(XmlNode::Elem(XmlElem { name: str_to_chars("italic"), attrs: Vec::new(), children }));
        },
        CharacterStyle::Underline(b) => {
            let children = en_css(&b.content, 0, Vec::new());
            proof {
                assert(nodes_view(Seq::<XmlNode>::empty()) + sp_en_css(css_view(b.content@), 0)
                    =~= sp_en_css(css_view(b.content@), 0));
            }
            acc.push(XmlNode::Elem(XmlElem { name: str_to_chars("underline"), attrs: Vec::new(), children }));
        },
        CharacterStyle::Subscript(b) => {
            let children = en_css(&b.content, 0, Vec::new());
            proof {
                assert(nodes_view(Seq::<XmlNode>::empty()) + sp_en_css(css_view(b.content@), 0)
                    =~= sp_en_css(css_view(b.content@), 0));
            }
            acc.push(XmlNode::Elem(XmlElem { name: str_to_chars("subscript"), attrs: Vec::new(), children }));
        },
        CharacterStyle::Superscript(b) => {
            let children = en_css(&b.content, 0, Vec::new());
            proof {
                assert(nodes_view(Seq::<XmlNode>::empty()) + sp_en_css(css_view(b.content@), 0)
                    =~= sp_en_css(css_view(b.content@), 0));
            }
            acc.push(XmlNode::Elem(XmlElem { name: str_to_chars("superscript"), attrs: Vec::new(), children }));
        },
        CharacterStyle::Monospace(b) => {
            let children = en_css(&b.content, 0, Vec::new());
            proof {
                assert(nodes_view(Seq::<XmlNode>::empty()) + sp_en_css(css_view(b.content@), 0)
                    =~= sp_en_css(css_view(b.content@), 0));
            }
            acc.push(XmlNode::Elem(XmlElem { name: str_to_chars("monospace"), attrs: Vec::new(), children }));
        },
        CharacterStyle::XRef(x) => {
            let xe = en_xref(x);
            acc.push(XmlNode::Elem(xe));
        },
        CharacterStyle::Link(b) => {
            let children = en_css(&b.content, 0, Vec::new());
            proof {
                assert(nodes_view(Seq::<XmlNode>::empty()) + sp_en_css(css_view(b.content@), 0)
                    =~= sp_en_css(css_view(b.content@), 0));
            }
            acc.push(XmlNode::Elem(XmlElem { name: str_to_chars("link"), attrs: Vec::new(), children }));
        },
    }
    proof {
        crate::xml::lemma_nodes_view_push(a0, acc@[a0.len() as int]);
        assert(attrs_view(Seq::<XmlAttr>::empty()) =~= Seq::<XmlAttrV>::empty());
        assert(nodes_view(acc@) =~= nodes_view(a0) + seq![sp_en_cs(css_view(cs@)[i as int])]);
        assert(nodes_view(a0) + (seq![sp_en_cs(css_view(cs@)[i as int])] + sp_en_css(
            css_view(cs@),
            i as int + 1,
        )) =~= nodes_view(acc@) + sp_en_css(css_view(cs@), i as int + 1));
    }
    en_css(cs, i + 1, acc)
}

/// One piece of paragraph content written back as a node.
pub open spec fn sp_en_pc(c: ParaContentV) -> XmlNodeV
    decreases c, 1int, 0int,
{
    match c {
        ParaContentV::Text(t) => XmlNodeV::Text(t),
        ParaContentV::Bold(cs) => XmlNodeV::Elem(
            XmlElemV { name: "bold"@, attrs: Seq::empty(), children: sp_en_css(cs, 0) },
        ),
        ParaContentV::Italic(cs) => XmlNodeV::Elem(
            XmlElemV { name: "italic"@, attrs: Seq::empty(), children: sp_en_css(cs, 0) },
        ),
        ParaContentV::Underline(cs) => XmlNodeV::Elem(
            XmlElemV { name: "underline"@, attrs: Seq::empty(), children: sp_en_css(cs, 0) },
        ),
        ParaContentV::Subscript(cs) => XmlNodeV::Elem(
            XmlElemV { name: "subscript"@, attrs: Seq::empty(), children: sp_en_css(cs, 0) },
        ),
        ParaContentV::Superscript(cs) => XmlNodeV::Elem(
            XmlElemV { name: "superscript"@, attrs: Seq::empty(), children: sp_en_css(cs, 0) },
        ),
        ParaContentV::Monospace(cs) => XmlNodeV::Elem(
            XmlElemV { name: "monospace"@, attrs: Seq::empty(), children: sp_en_css(cs, 0) },
        ),
        ParaContentV::XRef(x) => XmlNodeV::Elem(sp_en_xref(x)),
        ParaContentV::Link(cs) => XmlNodeV::Elem(
            XmlElemV { name: "link"@, attrs: Seq::empty(), children: sp_en_css(cs, 0) },
        ),
        ParaContentV::Image(im) => XmlNodeV::Elem(sp_en_image(im)),
    }
}

pub open spec fn sp_en_pcs(cs: Seq<ParaContentV>, i: int) -> Seq<XmlNodeV>
    decreases cs, 0int, cs.len() - i,
{
    if !(0 <= i < cs.len()) {
        Seq::empty()
    } else {
        seq![sp_en_pc(cs[i])] + sp_en_pcs(cs, i + 1)
    }
}

/// Writes paragraph content back, mirroring [`sp_en_pcs`].
pub fn en_pcs(cs: &Vec<ParaContent>, i: usize, acc: Vec<XmlNode>) -> (r: Vec<XmlNode>)
    requires
        i <= cs.len(),
    ensures
        nodes_view(r@) == nodes_view(acc@) + sp_en_pcs(pcs_view(cs@), i as int),
    decreases cs@, 1int, cs@.len() - i,
{
    proof {
        crate::text::lemma_pcs_view_len(cs@);
    }
    if i >= cs.len() {
        proof {
            assert(nodes_view(acc@) + sp_en_pcs(pcs_view(cs@), i as int) =~= nodes_view(acc@));
        }
        return acc;
    }
    proof {
        crate::text::lemma_pcs_view_index(cs@, i as int);
        assert(decreases_to!(cs@ => cs@[i as int]));
    }
    let mut acc = acc;
    let ghost a0 = acc@;
    match &cs[i] {
        ParaContent::Text(t) => {
            acc.push(XmlNode::Text(str_to_chars(t.as_str())));
        },
        ParaContent::Bold(b) => {
            let children = en_css(&b.content, 0, Vec::new());
            proof {
                assert(nodes_view(Seq::<XmlNode>::empty()) + sp_en_css(css_view(b.content@), 0)
                    =~= sp_en_css(css_view(b.content@), 0));
            }
            acc.push(XmlNode::Elem(XmlElem { name: str_to_chars("bold"), attrs: Vec::new(), children }));
        },
        ParaContent::Italic(b) => {
            let children = en_css(&b.content, 0, Vec::new());
            proof {
                assert(nodes_view(Seq::<XmlNode>::empty()) + sp_en_css(css_view(b.content@), 0)
                    =~= sp_en_css(css_view(b.content@), 0));
            }
            acc.push(XmlNode::Elem(XmlElem { name: str_to_chars("italic"), attrs: Vec::new(), children }));
        },
        ParaContent::Underline(b) => {
            let children = en_css(&b.content, 0, Vec::new());
            proof {
                assert(nodes_view(Seq::<XmlNode>::empty()) + sp_en_css(css_view(b.content@), 0)
                    =~= sp_en_css(css_view(b.content@), 0));
            }
            acc.push(XmlNode::Elem(XmlElem { name: str_to_chars("underline"), attrs: Vec::new(), children }));
        },
        ParaContent::Subscript(b) => {
            let children = en_css(&b.content, 0, Vec::new());
            proof {
                assert(nodes_view(Seq::<XmlNode>::empty()) + sp_en_css(css_view(b.content@), 0)
                    =~= sp_en_css(css_view(b.content@), 0));
            }
            acc.push(XmlNode::Elem(XmlElem { name: str_to_chars("subscript"), attrs: Vec::new(), children }));
        },
        ParaContent::Superscript(b) => {
            let children = en_css(&b.content, 0, Vec::new());
            proof {
                assert(nodes_view(Seq::<XmlNode>::empty()) + sp_en_css(css_view(b.content@), 0)
                    =~= sp_en_css(css_view(b.content@), 0));
            }
            acc.push(XmlNode::Elem(XmlElem { name: str_to_chars("superscript"), attrs: Vec::new(), children }));
        },
        ParaContent::Monospace(b) => {
            let children = en_css(&b.content, 0, Vec::new());
            proof {
                assert(nodes_view(Seq::<XmlNode>::empty()) + sp_en_css(css_view(b.content@), 0)
                    =~= sp_en_css(css_view(b.content@), 0));
            }
            acc.push(XmlNode::Elem(XmlElem { name: str_to_chars("monospace"), attrs: Vec::new(), children }));
        },
        ParaContent::XRef(x) => {
            let xe = en_xref(x);
            acc.push(XmlNode::Elem(xe));
        },
        ParaContent::Link(b) => {
            let children = en_css(&b.content, 0, Vec::new());
            proof {
                assert(nodes_view(Seq::<XmlNode>::empty()) + sp_en_css(css_view(b.content@), 0)
                    =~= sp_en_css(css_view(b.content@), 0));
            }
            acc.push(XmlNode::Elem(XmlElem { name: str_to_chars("link"), attrs: Vec::new(), children }));
        },
        ParaContent::Image(im) => {
            let ie = en_image(im);
            acc.push(XmlNode::Elem(ie));
        },
    }
    proof {
        crate::xml::lemma_nodes_view_push(a0, acc@[a0.len() as int]);
        assert(attrs_view(Seq::<XmlAttr>::empty()) =~= Seq::<XmlAttrV>::empty());
        assert(nodes_view(acc@) =~= nodes_view(a0) + seq![sp_en_pc(pcs_view(cs@)[i as int])]);
        assert(nodes_view(a0) + (seq![sp_en_pc(pcs_view(cs@)[i as int])] + sp_en_pcs(
            pcs_view(cs@),
            i as int + 1,
        )) =~= nodes_view(acc@) + sp_en_pcs(pcs_view(cs@), i as int + 1));
    }
    en_pcs(cs, i + 1, acc)
}

/// A heading written back: its level always named, its inline content as
/// children.
pub open spec fn sp_en_heading(h: HeadingV) -> XmlElemV {
    XmlElemV {
        name: "heading"@,
        attrs: sp_attr1("level"@, crate::chars::dec_digits(h.level as nat)),
        children: sp_en_css(h.content, 0),
    }
}

/// Encodes a heading as its element.
pub fn en_heading(h: &Heading) -> (r: XmlElem)
    ensures
        r@ == sp_en_heading(h@),
{
    let mut attrs: Vec<XmlAttr> = Vec::new();
    proof {
        assert(attrs_view(attrs@) =~= Seq::<XmlAttrV>::empty());
    }
    push_attr(&mut attrs, "level", crate::chars::u64_to_chars(h.level as u64));
    let children = en_css(&h.content, 0, Vec::new());
    proof {
        assert(nodes_view(Seq::<XmlNode>::empty()) + sp_en_css(css_view(h.content@), 0)
            =~= sp_en_css(css_view(h.content@), 0));
    }
    let r = XmlElem { name: str_to_chars("heading"), attrs, children };
    proof {
        assert(attrs_view(r.attrs@) =~= sp_en_heading(h@).attrs);
    }
    r
}

/// A paragraph written back: indent, numbering and prefix where present, its
/// content as children.
pub open spec fn sp_en_para(p: ParaV) -> XmlElemV {
    XmlElemV {
        name: "para"@,
        attrs: (match p.indent {
            Some(n) => sp_attr1("indent"@, crate::chars::dec_digits(n as nat)),
            None => Seq::empty(),
        }) + sp_opt_bool_attr("numbered"@, p.numbered) + sp_opt_attr("prefix"@, p.prefix),
        children: sp_en_pcs(p.content, 0),
    }
}

/// Encodes a paragraph as its element.
pub fn en_para(p: &Para) -> (r: XmlElem)
    ensures
        r@ == sp_en_para(p@),
{
    let mut attrs: Vec<XmlAttr> = Vec::new();
    proof {
        assert(attrs_view(attrs@) =~= Seq::<XmlAttrV>::empty());
    }
    match &p.indent {
        Some(n) => {
            push_attr(&mut attrs, "indent", crate::chars::u64_to_chars(*n as u64));
        },
        None => {},
    }
    push_opt_bool_attr(&mut attrs, "numbered", &p.numbered);
    push_opt_attr(&mut attrs, "prefix", &p.prefix);
    let children = en_pcs(&p.content, 0, Vec::new());
    proof {
        assert(nodes_view(Seq::<XmlNode>::empty()) + sp_en_pcs(pcs_view(p.content@), 0)
            =~= sp_en_pcs(pcs_view(p.content@), 0));
    }
    let r = XmlElem { name: str_to_chars("para"), attrs, children };
    proof {
        assert(attrs_view(r.attrs@) =~= sp_en_para(p@).attrs);
    }
    r
}

/// A cell written back: its attributes and its text.
pub open spec fn sp_en_cell(c: TableCellV) -> XmlElemV {
    XmlElemV {
        name: "cell"@,
        attrs: (match c.align {
            Some(k) => sp_attr1("align"@, sp_align_str(k)),
            None => Seq::empty(),
        }) + sp_opt_attr("role"@, c.role) + (match c.colspan {
            Some(n) => sp_attr1("colspan"@, crate::chars::dec_digits(n as nat)),
            None => Seq::empty(),
        }) + (match c.rowspan {
            Some(n) => sp_attr1("rowspan"@, crate::chars::dec_digits(n as nat)),
            None => Seq::empty(),
        }),
        children: if c.content.len() == 0 {
            Seq::empty()
        } else {
            seq![XmlNodeV::Text(c.content)]
        },
    }
}

fn en_cell(c: &TableCell) -> (r: XmlElem)
    ensures
        r@ == sp_en_cell(c@),
{
    let mut attrs: Vec<XmlAttr> = Vec::new();
    proof {
        assert(attrs_view(attrs@) =~= Seq::<XmlAttrV>::empty());
    }
    match &c.align {
        Some(k) => {
            push_attr(&mut attrs, "align", str_to_chars(align_to_str(*k)));
        },
        None => {},
    }
    push_opt_attr(&mut attrs, "role", &c.role);
    match &c.colspan {
        Some(n) => {
            push_attr(&mut attrs, "colspan", crate::chars::u64_to_chars(*n));
        },
        None => {},
    }
    match &c.rowspan {
        Some(n) => {
            push_attr(&mut attrs, "rowspan", crate::chars::u64_to_chars(*n));
        },
        None => {},
    }
    let mut children: Vec<XmlNode> = Vec::new();
    if !c.content.as_str().is_empty() {
        let t = str_to_chars(c.content.as_str());
        let ghost tv = t@;
        children.push(XmlNode::Text(t));
        proof {
            assert(children@.drop_first() =~= Seq::<XmlNode>::empty());
            assert(nodes_view(children@) == seq![node_view(children@[0])] + nodes_view(
                children@.drop_first(),
            ));
            assert(nodes_view(children@) =~= seq![XmlNodeV::Text(c.content@)]);
        }
    } else {
        proof {
            assert(nodes_view(children@) =~= Seq::<XmlNodeV>::empty());
        }
    }
    let r = XmlElem { name: str_to_chars("cell"), attrs, children };
    proof {
        assert(attrs_view(r.attrs@) =~= sp_en_cell(c@).attrs);
    }
    r
}

fn align_to_str(k: Alignment) -> (r: &'static str)
    ensures
        r@ == sp_align_str(k),
{
    match k {
        Alignment::Left => "left",
        Alignment::Center => "center",
        Alignment::Right => "right",
        Alignment::Justify => "justify",
    }
}

fn part_to_str(k: TablePart) -> (r: &'static str)
    ensures
        r@ == sp_part_str(k),
{
    match k {
        TablePart::Header => "header",
        TablePart::Body => "body",
        TablePart::Footer => "footer",
    }
}

pub open spec fn sp_en_cells(cs: Seq<TableCellV>, i: int) -> Seq<XmlNodeV>
    decreases cs.len() - i,
{
    if !(0 <= i < cs.len()) {
        Seq::empty()
    } else {
        seq![XmlNodeV::Elem(sp_en_cell(cs[i]))] + sp_en_cells(cs, i + 1)
    }
}

/// A row written back: its attributes, its cells as children.
pub open spec fn sp_en_row(rw: TableRowV) -> XmlElemV {
    XmlElemV {
        name: "row"@,
        attrs: (match rw.align {
            Some(k) => sp_attr1("align"@, sp_align_str(k)),
            None => Seq::empty(),
        }) + (match rw.part {
            Some(k) => sp_attr1("part"@, sp_part_str(k)),
            None => Seq::empty(),
        }) + sp_opt_attr("role"@, rw.role),
        children: sp_en_cells(rw.cells, 0),
    }
}

fn en_row(rw: &TableRow) -> (r: XmlElem)
    ensures
        r@ == sp_en_row(rw@),
{
    let mut attrs: Vec<XmlAttr> = Vec::new();
    proof {
        assert(attrs_view(attrs@) =~= Seq::<XmlAttrV>::empty());
    }
    match &rw.align {
        Some(k) => {
            push_attr(&mut attrs, "align", str_to_chars(align_to_str(*k)));
        },
        None => {},
    }
    match &rw.part {
        Some(k) => {
            push_attr(&mut attrs, "part", str_to_chars(part_to_str(*k)));
        },
        None => {},
    }
    push_opt_attr(&mut attrs, "role", &rw.role);
    let mut children: Vec<XmlNode> = Vec::new();
    let mut i: usize = 0;
    let ghost cv = cells_view(rw.cells@);
    proof {
        assert(cv.len() == rw.cells@.len());
        assert(nodes_view(children@) =~= Seq::<XmlNodeV>::empty());
        assert(Seq::<XmlNodeV>::empty() + sp_en_cells(cv, 0) =~= sp_en_cells(cv, 0));
    }
    while i < rw.cells.len()
        invariant
            i <= rw.cells@.len(),
            cv == cells_view(rw.cells@),
            cv.len() == rw.cells@.len(),
            sp_en_cells(cv, 0) == nodes_view(children@) + sp_en_cells(cv, i as int),
        decreases rw.cells@.len() - i,
    {
        let ghost c0 = children@;
        proof {
            assert(cv[i as int] == cell_view(rw.cells@[i as int]));
        }
        let ce = en_cell(&rw.cells[i]);
        children.push(XmlNode::Elem(ce));
        proof {
            crate::xml::lemma_nodes_view_push(c0, children@[c0.len() as int]);
            assert(nodes_view(children@) =~= nodes_view(c0) + seq![
                XmlNodeV::Elem(sp_en_cell(cv[i as int])),
            ]);
            assert(nodes_view(c0) + (seq![XmlNodeV::Elem(sp_en_cell(cv[i as int]))] + sp_en_cells(
                cv,
                i as int + 1,
            )) =~= nodes_view(children@) + sp_en_cells(cv, i as int + 1));
        }
        i = i + 1;
    }
    proof {
        assert(sp_en_cells(cv, i as int) == Seq::<XmlNodeV>::empty());
        assert(nodes_view(children@) + Seq::<XmlNodeV>::empty() =~= nodes_view(children@));
    }
    let r = XmlElem { name: str_to_chars("row"), attrs, children };
    proof {
        assert(attrs_view(r.attrs@) =~= sp_en_row(rw@).attrs);
    }
    r
}

/// A column definition written back, always self-closing.
pub open spec fn sp_en_col(c: TableColumnV) -> XmlElemV {
    XmlElemV {
        name: "col"@,
        attrs: (match c.align {
            Some(k) => sp_attr1("align"@, sp_align_str(k)),
            None => Seq::empty(),
        }) + (match c.part {
            Some(k) => sp_attr1("part"@, sp_part_str(k)),
            None => Seq::empty(),
        }) + sp_opt_attr("role"@, c.role) + sp_opt_attr("width"@, c.width),
        children: Seq::empty(),
    }
}

fn en_col(c: &TableColumn) -> (r: XmlElem)
    ensures
        r@ == sp_en_col(c@),
{
    let mut attrs: Vec<XmlAttr> = Vec::new();
    proof {
        assert(attrs_view(attrs@) =~= Seq::<XmlAttrV>::empty());
    }
    match &c.align {
        Some(k) => {
            push_attr(&mut attrs, "align", str_to_chars(align_to_str(*k)));
        },
        None => {},
    }
    match &c.part {
        Some(k) => {
            push_attr(&mut attrs, "part", str_to_chars(part_to_str(*k)));
        },
        None => {},
    }
    push_opt_attr(&mut attrs, "role", &c.role);
    push_opt_attr(&mut attrs, "width", &c.width);
    let r = XmlElem { name: str_to_chars("col"), attrs, children: Vec::new() };
    proof {
        assert(nodes_view(r.children@) =~= Seq::<XmlNodeV>::empty());
        assert(attrs_view(r.attrs@) =~= sp_en_col(c@).attrs);
    }
    r
}

pub open spec fn sp_en_cols(cs: Seq<TableColumnV>, i: int) -> Seq<XmlNodeV>
    decreases cs.len() - i,
{
    if !(0 <= i < cs.len()) {
        Seq::empty()
    } else {
        seq![XmlNodeV::Elem(sp_en_col(cs[i]))] + sp_en_cols(cs, i + 1)
    }
}

pub open spec fn sp_en_rows(rs: Seq<TableRowV>, i: int) -> Seq<XmlNodeV>
    decreases rs.len() - i,
{
    if !(0 <= i < rs.len()) {
        Seq::empty()
    } else {
        seq![XmlNodeV::Elem(sp_en_row(rs[i]))] + sp_en_rows(rs, i + 1)
    }
}

/// A table written back in the schema-mandated order: caption first, then the
/// column definitions, then the rows, whatever order they were decoded in.
pub open spec fn sp_en_table(t: TableV) -> XmlElemV {
    XmlElemV {
        name: "table"@,
        attrs: sp_opt_attr("role"@, t.role) + sp_opt_attr("summary"@, t.summary) + sp_opt_attr(
            "height"@,
            t.height,
        ) + sp_opt_attr("width"@, t.width),
        children: (match t.caption {
            Some(c) => seq![
                XmlNodeV::Elem(
                    XmlElemV {
                        name: "caption"@,
                        attrs: Seq::empty(),
                        children: if c.len() == 0 {
                            Seq::empty()
                        } else {
                            seq![XmlNodeV::Text(c)]
                        },
                    },
                ),
            ],
            None => Seq::empty(),
        }) + sp_en_cols(t.cols, 0) + sp_en_rows(t.rows, 0),
    }
}

/// Encodes a table as its element.
pub fn en_table(t: &Table) -> (r: XmlElem)
    ensures
        r@ == sp_en_table(t@),
{
    let mut attrs: Vec<XmlAttr> = Vec::new();
    proof {
        assert(attrs_view(attrs@) =~= Seq::<XmlAttrV>::empty());
    }
    push_opt_attr(&mut attrs, "role", &t.role);
    push_opt_attr(&mut attrs, "summary", &t.summary);
    push_opt_attr(&mut attrs, "height", &t.height);
    push_opt_attr(&mut attrs, "width", &t.width);
    let mut children: Vec<XmlNode> = Vec::new();
    match &t.caption {
        Some(c) => {
            let mut cap_children: Vec<XmlNode> = Vec::new();
            if !c.caption.as_str().is_empty() {
                let tc = str_to_chars(c.caption.as_str());
                let ghost tv = tc@;
                cap_children.push(XmlNode::Text(tc));
                proof {
                    assert(cap_children@.drop_first() =~= Seq::<XmlNode>::empty());
                    assert(nodes_view(cap_children@) == seq![node_view(cap_children@[0])]
                        + nodes_view(cap_children@.drop_first()));
                    assert(nodes_view(cap_children@) =~= seq![XmlNodeV::Text(c.caption@)]);
                }
            } else {
                proof {
                    assert(nodes_view(cap_children@) =~= Seq::<XmlNodeV>::empty());
                }
            }
            let cap = XmlElem {
                name: str_to_chars("caption"),
                attrs: Vec::new(),
                children: cap_children,
            };
            proof {
                assert(attrs_view(cap.attrs@) =~= Seq::<XmlAttrV>::empty());
            }
            children.push(XmlNode::Elem(cap));
            proof {
                assert(children@.drop_first() =~= Seq::<XmlNode>::empty());
                assert(nodes_view(children@) == seq![node_view(children@[0])] + nodes_view(
                    children@.drop_first(),
                ));
            }
        },
        None => {
            proof {
                assert(nodes_view(children@) =~= Seq::<XmlNodeV>::empty());
            }
        },
    }
    let ghost head = nodes_view(children@);
    let ghost colsv = cols_view(t.cols@);
    let mut i: usize = 0;
    proof {
        assert(colsv.len() == t.cols@.len());
        assert(head + Seq::<XmlNodeV>::empty() =~= head);
        assert(Seq::<XmlNodeV>::empty() + sp_en_cols(colsv, 0) =~= sp_en_cols(colsv, 0));
    }
    while i < t.cols.len()
        invariant
            i <= t.cols@.len(),
            colsv == cols_view(t.cols@),
            colsv.len() == t.cols@.len(),
            head + sp_en_cols(colsv, 0) == nodes_view(children@) + sp_en_cols(colsv, i as int),
        decreases t.cols@.len() - i,
    {
        let ghost c0 = children@;
        proof {
            assert(colsv[i as int] == col_view(t.cols@[i as int]));
        }
        let ce = en_col(&t.cols[i]);
        children.push(XmlNode::Elem(ce));
        proof {
            crate::xml::lemma_nodes_view_push(c0, children@[c0.len() as int]);
            assert(nodes_view(children@) =~= nodes_view(c0) + seq![
                XmlNodeV::Elem(sp_en_col(colsv[i as int])),
            ]);
            assert(nodes_view(c0) + (seq![XmlNodeV::Elem(sp_en_col(colsv[i as int]))] + sp_en_cols(
                colsv,
                i as int + 1,
            )) =~= nodes_view(children@) + sp_en_cols(colsv, i as int + 1));
        }
        i = i + 1;
    }
    proof {
        assert(sp_en_cols(colsv, i as int) == Seq::<XmlNodeV>::empty());
        assert(nodes_view(children@) + Seq::<XmlNodeV>::empty() =~= nodes_view(children@));
    }
    let ghost head2 = nodes_view(children@);
    let ghost rowsv = rows_view(t.rows@);
    let mut k: usize = 0;
    proof {
        assert(rowsv.len() == t.rows@.len());
        assert(Seq::<XmlNodeV>::empty() + sp_en_rows(rowsv, 0) =~= sp_en_rows(rowsv, 0));
    }
    while k < t.rows.len()
        invariant
            k <= t.rows@.len(),
            rowsv == rows_view(t.rows@),
            rowsv.len() == t.rows@.len(),
            head2 + sp_en_rows(rowsv, 0) == nodes_view(children@) + sp_en_rows(rowsv, k as int),
        decreases t.rows@.len() - k,
    {
        let ghost c0 = children@;
        proof {
            assert(rowsv[k as int] == row_view(t.rows@[k as int]));
        }
        let re = en_row(&t.rows[k]);
        children.push(XmlNode::Elem(re));
        proof {
            crate::xml::lemma_nodes_view_push(c0, children@[c0.len() as int]);
            assert(nodes_view(children@) =~= nodes_view(c0) + seq![
                XmlNodeV::Elem(sp_en_row(rowsv[k as int])),
            ]);
            assert(nodes_view(c0) + (seq![XmlNodeV::Elem(sp_en_row(rowsv[k as int]))] + sp_en_rows(
                rowsv,
                k as int + 1,
            )) =~= nodes_view(children@) + sp_en_rows(rowsv, k as int + 1));
        }
        k = k + 1;
    }
    proof {
        assert(sp_en_rows(rowsv, k as int) == Seq::<XmlNodeV>::empty());
        assert(nodes_view(children@) + Seq::<XmlNodeV>::empty() =~= nodes_view(children@));
    }
    let r = XmlElem { name: str_to_chars("table"), attrs, children };
    proof {
        assert(attrs_view(r.attrs@) =~= sp_en_table(t@).attrs);
        assert(nodes_view(r.children@) =~= sp_en_table(t@).children);
    }
    r
}

/// One piece of block content written back as a node.
pub open spec fn sp_en_fc(c: FragmentContentV) -> XmlNodeV
    decreases c, 1int, 0int,
{
    match c {
        FragmentContentV::Text(t) => XmlNodeV::Text(t),
        FragmentContentV::Heading(h) => XmlNodeV::Elem(sp_en_heading(h)),
        FragmentContentV::Block { child } => XmlNodeV::Elem(
            XmlElemV { name: "block"@, attrs: Seq::empty(), children: sp_en_fcs(child, 0) },
        ),
        FragmentContentV::BlockXRef(x) => XmlNodeV::Elem(sp_en_bxref(x)),
        FragmentContentV::Para(p) => XmlNodeV::Elem(sp_en_para(p)),
        FragmentContentV::Preformat { child } => XmlNodeV::Elem(
            XmlElemV { name: "preformat"@, attrs: Seq::empty(), children: sp_en_fcs(child, 0) },
        ),
        FragmentContentV::Image(im) => XmlNodeV::Elem(sp_en_image(im)),
        FragmentContentV::Table(t) => XmlNodeV::Elem(sp_en_table(t)),
    }
}

pub open spec fn sp_en_fcs(cs: Seq<FragmentContentV>, i: int) -> Seq<XmlNodeV>
    decreases cs, 0int, cs.len() - i,
{
    if !(0 <= i < cs.len()) {
        Seq::empty()
    } else {
        seq![sp_en_fc(cs[i])] + sp_en_fcs(cs, i + 1)
    }
}

/// Writes block content back, mirroring [`sp_en_fcs`].
pub fn en_fcs(cs: &Vec<FragmentContent>, i: usize, acc: Vec<XmlNode>) -> (r: Vec<XmlNode>)
    requires
        i <= cs.len(),
    ensures
        nodes_view(r@) == nodes_view(acc@) + sp_en_fcs(fcs_view(cs@), i as int),
    decreases cs@, 2int, cs@.len() - i,
{
    proof {
        crate::model::lemma_fcs_view_len(cs@);
    }
    if i >= cs.len() {
        proof {
            assert(nodes_view(acc@) + sp_en_fcs(fcs_view(cs@), i as int) =~= nodes_view(acc@));
        }
        return acc;
    }
    proof {
        crate::model::lemma_fcs_view_index(cs@, i as int);
        assert(decreases_to!(cs@ => cs@[i as int]));
    }
    let mut acc = acc;
    let ghost a0 = acc@;
    match &cs[i] {
        FragmentContent::Text(t) => {
            acc.push(XmlNode::Text(str_to_chars(t.as_str())));
        },
        FragmentContent::Heading(h) => {
            let he = en_heading(h);
            acc.push(XmlNode::Elem(he));
        },
        FragmentContent::Block { child } => {
            let children = en_fcs(child, 0, Vec::new());
            proof {
                assert(nodes_view(Seq::<XmlNode>::empty()) + sp_en_fcs(fcs_view(child@), 0)
                    =~= sp_en_fcs(fcs_view(child@), 0));
            }
            acc.push(XmlNode::Elem(XmlElem { name: str_to_chars("block"), attrs: Vec::new(), children }));
        },
        FragmentContent::BlockXRef(x) => {
            let xe = en_bxref(x);
            acc.push(XmlNode::Elem(xe));
        },
        FragmentContent::Para(p) => {
            let pe = en_para(p);
            acc.push(XmlNode::Elem(pe));
        },
        FragmentContent::Preformat { child } => {
            let children = en_fcs(child, 0, Vec::new());
            proof {
                assert(nodes_view(Seq::<XmlNode>::empty()) + sp_en_fcs(fcs_view(child@), 0)
                    =~= sp_en_fcs(fcs_view(child@), 0));
            }
            acc.push(XmlNode::Elem(XmlElem { name: str_to_chars("preformat"), attrs: Vec::new(), children }));
        },
        FragmentContent::Image(im) => {
            let ie = en_image(im);
            acc.push(XmlNode::Elem(ie));
        },
        FragmentContent::Table(t) => {
            let te = en_table(t);
            acc.push(XmlNode::Elem(te));
        },
    }
    proof {
        crate::xml::lemma_nodes_view_push(a0, acc@[a0.len() as int]);
        assert(attrs_view(Seq::<XmlAttr>::empty()) =~= Seq::<XmlAttrV>::empty());
        assert(nodes_view(acc@) =~= nodes_view(a0) + seq![sp_en_fc(fcs_view(cs@)[i as int])]);
        assert(nodes_view(a0) + (seq![sp_en_fc(fcs_view(cs@)[i as int])] + sp_en_fcs(
            fcs_view(cs@),
            i as int + 1,
        )) =~= nodes_view(acc@) + sp_en_fcs(fcs_view(cs@), i as int + 1));
    }
    en_fcs(cs, i + 1, acc)
}

/// A narrative fragment written back: id, optional type, labels only where
/// there are any, the block content as children.
pub open spec fn sp_en_fragment(f: FragmentV) -> XmlElemV {
    XmlElemV {
        name: "fragment"@,
        attrs: sp_attr1("id"@, f.id) + sp_opt_attr("type"@, f.frag_type) + (if f.labels.len() > 0 {
            sp_attr1("labels"@, sp_join_commas(f.labels))
        } else {
            Seq::empty()
        }),
        children: sp_en_fcs(f.content, 0),
    }
}

/// Encodes a narrative fragment as its element.
pub fn en_fragment(f: &Fragment) -> (r: XmlElem)
    ensures
        r@ == sp_en_fragment(f@),
{
    let mut attrs: Vec<XmlAttr> = Vec::new();
    proof {
        assert(attrs_view(attrs@) =~= Seq::<XmlAttrV>::empty());
    }
    push_attr(&mut attrs, "id", str_to_chars(f.id.as_str()));
    push_opt_attr(&mut attrs, "type", &f.frag_type);
    proof {
        assert(strs_view(f.labels@).len() == f.labels@.len());
    }
    if f.labels.len() > 0 {
        push_attr(&mut attrs, "labels", join_commas(&f.labels));
    }
    let children = en_fcs(&f.content, 0, Vec::new());
    proof {
        assert(nodes_view(Seq::<XmlNode>::empty()) + sp_en_fcs(fcs_view(f.content@), 0)
            =~= sp_en_fcs(fcs_view(f.content@), 0));
    }
    let r = XmlElem { name: str_to_chars("fragment"), attrs, children };
    proof {
        assert(attrs_view(r.attrs@) =~= sp_en_fragment(f@).attrs);
    }
    r
}

/// A whole buffer decoded as a narrative fragment.
pub open spec fn sp_fragment_from_psml(s: Seq<char>) -> Result<FragmentV, DecodeErrorView> {
    match sp_psml_elem(s, "fragment"@) {
        Err(er) => Err(er),
        Ok(e) => sp_de_fragment(e),
    }
}

impl Fragment {
    /// Decodes the first `fragment` element of the buffer.
    pub fn from_psml(s: &str) -> (r: Result<Fragment, DecodeError>)
        ensures
            match (r, sp_fragment_from_psml(s@)) {
                (Ok(f), Ok(fv)) => f@ == fv,
                (Err(er), Err(ev)) => er@ == ev,
                _ => false,
            },
    {
        let cs = str_to_chars(s);
        match crate::xml::lex_forest(&cs) {
            Err(er) => Err(er),
            Ok(ns) => match find_elem(&ns, "fragment") {
                Some(e) => de_fragment(e),
                None => Err(
                    DecodeError::StructuralError {
                        tag: String::from_str("fragment"),
                        context: String::new(),
                    },
                ),
            },
        }
    }

    /// Encodes this fragment as a self-contained buffer.
    pub fn to_psml(&self) -> (r: String)
        ensures
            r@ == crate::xml::sp_write_node(XmlNodeV::Elem(sp_en_fragment(self@))),
    {
        let e = en_fragment(self);
        let mut out: Vec<char> = Vec::new();
        crate::xml::write_node(&mut out, &XmlNode::Elem(e));
        chars_to_string(&out)
    }
}

// ---------- the cross-reference fragment codec ----------

/// The attributes a cross-reference fragment carries; its labels stay one
/// comma-separated value.
pub struct XFragAttrs {
    pub id: Option<String>,
    pub frag_type: Option<String>,
    pub labels: String,
    pub bag: Vec<(String, String)>,
}

/// The mathematical shadow of [`XFragAttrs`].
pub struct XFragAttrsV {
    pub id: Option<Seq<char>>,
    pub frag_type: Option<Seq<char>>,
    pub labels: Seq<char>,
    pub bag: Seq<(Seq<char>, Seq<char>)>,
}

impl View for XFragAttrs {
    type V = XFragAttrsV;

    open spec fn view(&self) -> XFragAttrsV {
        XFragAttrsV {
            id: opt_view(self.id),
            frag_type: opt_view(self.frag_type),
            labels: self.labels@,
            bag: bag_view(self.bag@),
        }
    }
}

pub open spec fn sp_xfrag_attrs(attrs: Seq<XmlAttrV>, i: int, acc: XFragAttrsV) -> XFragAttrsV
    decreases attrs.len() - i,
{
    if !(0 <= i < attrs.len()) {
        acc
    } else {
        let a = attrs[i];
        if a.name == "id"@ {
            sp_xfrag_attrs(attrs, i + 1, XFragAttrsV { id: Some(a.value), ..acc })
        } else if a.name == "type"@ {
            sp_xfrag_attrs(attrs, i + 1, XFragAttrsV { frag_type: Some(a.value), ..acc })
        } else if a.name == "labels"@ {
            sp_xfrag_attrs(attrs, i + 1, XFragAttrsV { labels: a.value, ..acc })
        } else {
            sp_xfrag_attrs(attrs, i + 1, XFragAttrsV { bag: acc.bag.push((a.name, a.value)), ..acc })
        }
    }
}

/// The block cross-references of a fragment read from its children.
pub open spec fn sp_xfrag_children(
    ns: Seq<XmlNodeV>,
    i: int,
    acc: Seq<BlockXRefV>,
    ctx: Seq<char>,
) -> Result<Seq<BlockXRefV>, DecodeErrorView>
    decreases ns.len() - i,
{
    if !(0 <= i < ns.len()) {
        Ok(acc)
    } else {
        match ns[i] {
            XmlNodeV::Text(_) => sp_xfrag_children(ns, i + 1, acc, ctx),
            XmlNodeV::Elem(c) => if c.name == "blockxref"@ {
                match sp_de_bxref(c) {
                    Err(er) => Err(er),
                    Ok(x) => sp_xfrag_children(ns, i + 1, acc.push(x), ctx),
                }
            } else {
                Err(DecodeErrorView::StructuralError { tag: c.name, context: ctx })
            },
        }
    }
}

/// A cross-reference fragment decoded from its element.
pub open spec fn sp_de_xfrag(e: XmlElemV) -> Result<XRefFragmentV, DecodeErrorView> {
    let pa = sp_xfrag_attrs(
        e.attrs,
        0,
        XFragAttrsV { id: None, frag_type: None, labels: Seq::empty(), bag: Seq::empty() },
    );
    match pa.id {
        None => Err(
            DecodeErrorView::MissingRequiredAttribute { attr: "id"@, elem: "xref-fragment"@ },
        ),
        Some(id) => match sp_xfrag_children(e.children, 0, Seq::empty(), id) {
            Err(er) => Err(er),
            Ok(xrefs) => Ok(
                XRefFragmentV { id, frag_type: pa.frag_type, labels: pa.labels, xrefs, attrs: pa.bag },
            ),
        },
    }
}

/// Decodes a cross-reference fragment from its element.
pub fn de_xfrag(e: &XmlElem) -> (r: Result<XRefFragment, DecodeError>)
    ensures
        match (r, sp_de_xfrag(e@)) {
            (Ok(f), Ok(fv)) => f@ == fv,
            (Err(er), Err(ev)) => er@ == ev,
            _ => false,
        },
{
    let mut pa = XFragAttrs { id: None, frag_type: None, labels: String::new(), bag: Vec::new() };
    proof {
        crate::xml::lemma_attrs_view_len(e.attrs@);
        assert(bag_view(pa.bag@) =~= Seq::<(Seq<char>, Seq<char>)>::empty());
    }
    let mut i: usize = 0;
    while i < e.attrs.len()
        invariant
            i <= e.attrs@.len(),
            attrs_view(e.attrs@).len() == e.attrs@.len(),
            sp_xfrag_attrs(
                attrs_view(e.attrs@),
                0,
                XFragAttrsV { id: None, frag_type: None, labels: Seq::empty(), bag: Seq::empty() },
            ) == sp_xfrag_attrs(attrs_view(e.attrs@), i as int, pa@),
        decreases e.attrs@.len() - i,
    {
        proof {
            assert(attrs_view(e.attrs@)[i as int] == e.attrs@[i as int]@);
        }
        let a = &e.attrs[i];
        if chars_eq_str(&a.name, "id") {
            pa.id = Some(chars_to_string(&a.value));
        } else if chars_eq_str(&a.name, "type") {
            pa.frag_type = Some(chars_to_string(&a.value));
        } else if chars_eq_str(&a.name, "labels") {
            pa.labels = chars_to_string(&a.value);
        } else {
            let ghost b0 = pa.bag@;
            pa.bag.push((chars_to_string(&a.name), chars_to_string(&a.value)));
            proof {
                assert(bag_view(pa.bag@) =~= bag_view(b0).push(
                    (e.attrs@[i as int].name@, e.attrs@[i as int].value@),
                ));
            }
        }
        i = i + 1;
    }
    let id = match pa.id {
        None => {
            return Err(
                DecodeError::MissingRequiredAttribute {
                    attr: String::from_str("id"),
                    elem: String::from_str("xref-fragment"),
                },
            );
        },
        Some(id) => id,
    };
    let idc = str_to_chars(id.as_str());
    let mut xrefs: Vec<BlockXRef> = Vec::new();
    let mut k: usize = 0;
    proof {
        crate::xml::lemma_nodes_view_len(e.children@);
        assert(bxrefs_view(xrefs@) =~= Seq::<BlockXRefV>::empty());
    }
    while k < e.children.len()
        invariant
            k <= e.children@.len(),
            e@.children.len() == e.children@.len(),
            e@.children == nodes_view(e.children@),
            e@.attrs == attrs_view(e.attrs@),
            idc@ == id@,
            sp_xfrag_attrs(
                e@.attrs,
                0,
                XFragAttrsV { id: None, frag_type: None, labels: Seq::empty(), bag: Seq::empty() },
            ).id == Some(id@),
            sp_xfrag_children(e@.children, 0, Seq::empty(), id@) == sp_xfrag_children(
                e@.children,
                k as int,
                bxrefs_view(xrefs@),
                id@,
            ),
        decreases e.children@.len() - k,
    {
        proof {
            crate::xml::lemma_nodes_view_index(e.children@, k as int);
        }
        match &e.children[k] {
            XmlNode::Text(_) => {},
            XmlNode::Elem(c) => {
                if chars_eq_str(&c.name, "blockxref") {
                    match de_bxref(c) {
                        Err(er) => {
                            return Err(er);
                        },
                        Ok(x) => {
                            let ghost x0 = xrefs@;
                            let ghost xv = x@;
                            xrefs.push(x);
                            proof {
                                assert(bxrefs_view(xrefs@) =~= bxrefs_view(x0).push(xv));
                            }
                        },
                    }
                } else {
                    return Err(
                        DecodeError::StructuralError {
                            tag: chars_to_string(&c.name),
                            context: chars_to_string(&idc),
                        },
                    );
                }
            },
        }
        k = k + 1;
    }
    Ok(XRefFragment { id, frag_type: pa.frag_type, labels: pa.labels, xrefs, attrs: pa.bag })
}

pub open spec fn sp_en_bxrefs(xs: Seq<BlockXRefV>, i: int) -> Seq<XmlNodeV>
    decreases xs.len() - i,
{
    if !(0 <= i < xs.len()) {
        Seq::empty()
    } else {
        seq![XmlNodeV::Elem(sp_en_bxref(xs[i]))] + sp_en_bxrefs(xs, i + 1)
    }
}

/// A cross-reference fragment written back.
pub open spec fn sp_en_xfrag(f: XRefFragmentV) -> XmlElemV {
    XmlElemV {
        name: "xref-fragment"@,
        attrs: sp_attr1("id"@, f.id) + sp_opt_attr("type"@, f.frag_type) + (if f.labels.len() > 0 {
            sp_attr1("labels"@, f.labels)
        } else {
            Seq::empty()
        }) + sp_en_bag(f.attrs, 0),
        children: sp_en_bxrefs(f.xrefs, 0),
    }
}

/// Encodes a cross-reference fragment as its element.
pub fn en_xfrag(f: &XRefFragment) -> (r: XmlElem)
    ensures
        r@ == sp_en_xfrag(f@),
{
    let mut attrs: Vec<XmlAttr> = Vec::new();
    proof {
        assert(attrs_view(attrs@) =~= Seq::<XmlAttrV>::empty());
    }
    push_attr(&mut attrs, "id", str_to_chars(f.id.as_str()));
    push_opt_attr(&mut attrs, "type", &f.frag_type);
    if !f.labels.as_str().is_empty() {
        push_attr(&mut attrs, "labels", str_to_chars(f.labels.as_str()));
    }
    en_bag(&mut attrs, &f.attrs);
    let mut children: Vec<XmlNode> = Vec::new();
    let mut i: usize = 0;
    let ghost xv = bxrefs_view(f.xrefs@);
    proof {
        assert(xv.len() == f.xrefs@.len());
        assert(nodes_view(children@) =~= Seq::<XmlNodeV>::empty());
        assert(Seq::<XmlNodeV>::empty() + sp_en_bxrefs(xv, 0) =~= sp_en_bxrefs(xv, 0));
    }
    while i < f.xrefs.len()
        invariant
            i <= f.xrefs@.len(),
            xv == bxrefs_view(f.xrefs@),
            xv.len() == f.xrefs@.len(),
            sp_en_bxrefs(xv, 0) == nodes_view(children@) + sp_en_bxrefs(xv, i as int),
        decreases f.xrefs@.len() - i,
    {
        let ghost c0 = children@;
        proof {
            assert(xv[i as int] == bxref_view(f.xrefs@[i as int]));
        }
        let xe = en_bxref(&f.xrefs[i]);
        children.push(XmlNode::Elem(xe));
        proof {
            crate::xml::lemma_nodes_view_push(c0, children@[c0.len() as int]);
            assert(nodes_view(children@) =~= nodes_view(c0) + seq![
                XmlNodeV::Elem(sp_en_bxref(xv[i as int])),
            ]);
            assert(nodes_view(c0) + (seq![XmlNodeV::Elem(sp_en_bxref(xv[i as int]))]
                + sp_en_bxrefs(xv, i as int + 1)) =~= nodes_view(children@) + sp_en_bxrefs(
                xv,
                i as int + 1,
            ));
        }
        i = i + 1;
    }
    proof {
        assert(sp_en_bxrefs(xv, i as int) == Seq::<XmlNodeV>::empty());
        assert(nodes_view(children@) + Seq::<XmlNodeV>::empty() =~= nodes_view(children@));
    }
    let r = XmlElem { name: str_to_chars("xref-fragment"), attrs, children };
    proof {
        assert(attrs_view(r.attrs@) =~= sp_en_xfrag(f@).attrs);
    }
    r
}

// ---------- the section codec ----------

/// The attributes a section carries; an attribute outside the known set is a
/// structural fault.
pub struct SectionAttrs {
    pub id: Option<String>,
    pub title: Option<String>,
    pub edit: bool,
    pub lockstructure: bool,
    pub overwrite: bool,
    pub fragment_types: Vec<String>,
}

/// The mathematical shadow of [`SectionAttrs`].
pub struct SectionAttrsV {
    pub id: Option<Seq<char>>,
    pub title: Option<Seq<char>>,
    pub edit: bool,
    pub lockstructure: bool,
    pub overwrite: bool,
    pub fragment_types: Seq<Seq<char>>,
}

impl View for SectionAttrs {
    type V = SectionAttrsV;

    open spec fn view(&self) -> SectionAttrsV {
        SectionAttrsV {
            id: opt_view(self.id),
            title: opt_view(self.title),
            edit: self.edit,
            lockstructure: self.lockstructure,
            overwrite: self.overwrite,
            fragment_types: strs_view(self.fragment_types@),
        }
    }
}

pub open spec fn sp_default_section_attrs() -> SectionAttrsV {
    SectionAttrsV {
        id: None,
        title: None,
        edit: true,
        lockstructure: false,
        overwrite: true,
        fragment_types: Seq::empty(),
    }
}

pub open spec fn sp_section_attrs(attrs: Seq<XmlAttrV>, i: int, acc: SectionAttrsV) -> Result<
    SectionAttrsV,
    DecodeErrorView,
>
    decreases attrs.len() - i,
{
    if !(0 <= i < attrs.len()) {
        Ok(acc)
    } else {
        let a = attrs[i];
        if a.name == "id"@ {
            sp_section_attrs(attrs, i + 1, SectionAttrsV { id: Some(a.value), ..acc })
        } else if a.name == "title"@ {
            sp_section_attrs(attrs, i + 1, SectionAttrsV { title: Some(a.value), ..acc })
        } else if a.name == "edit"@ {
            match sp_bool_of(a.value) {
                Some(b) => sp_section_attrs(attrs, i + 1, SectionAttrsV { edit: b, ..acc }),
                None => Err(
                    DecodeErrorView::MalformedAttributeValue { attr: a.name, value: a.value },
                ),
            }
        } else if a.name == "lockstructure"@ {
            match sp_bool_of(a.value) {
                Some(b) => sp_section_attrs(
                    attrs,
                    i + 1,
                    SectionAttrsV { lockstructure: b, ..acc },
                ),
                None => Err(
                    DecodeErrorView::MalformedAttributeValue { attr: a.name, value: a.value },
                ),
            }
        } else if a.name == "overwrite"@ {
            match sp_bool_of(a.value) {
                Some(b) => sp_section_attrs(attrs, i + 1, SectionAttrsV { overwrite: b, ..acc }),
                None => Err(
                    DecodeErrorView::MalformedAttributeValue { attr: a.name, value: a.value },
                ),
            }
        } else if a.name == "fragmenttype"@ {
            sp_section_attrs(
                attrs,
                i + 1,
                SectionAttrsV { fragment_types: sp_split_commas(a.value), ..acc },
            )
        } else {
            Err(DecodeErrorView::StructuralError { tag: a.name, context: "section"@ })
        }
    }
}

/// The id one section entry carries, for uniqueness within the section.
pub open spec fn sp_content_has_id(cs: Seq<SectionContentV>, id: Seq<char>, i: int) -> bool
    decreases cs.len() - i,
{
    if !(0 <= i < cs.len()) {
        false
    } else if sc_id(cs[i]) == Some(id) {
        true
    } else {
        sp_content_has_id(cs, id, i + 1)
    }
}

/// The content of a section read from its children: at most one content
/// title, then fragments of the three kinds, each with an id not yet taken.
/// A duplicate id, a second title or a media fragment is a structural fault.
pub open spec fn sp_section_children(
    ns: Seq<XmlNodeV>,
    i: int,
    title: Option<Seq<char>>,
    acc: Seq<SectionContentV>,
    ctx: Seq<char>,
) -> Result<(Option<Seq<char>>, Seq<SectionContentV>), DecodeErrorView>
    decreases ns.len() - i,
{
    if !(0 <= i < ns.len()) {
        Ok((title, acc))
    } else {
        match ns[i] {
            XmlNodeV::Text(_) => sp_section_children(ns, i + 1, title, acc, ctx),
            XmlNodeV::Elem(c) => if c.name == "title"@ {
                if title is Some {
                    Err(DecodeErrorView::StructuralError { tag: c.name, context: ctx })
                } else {
                    match sp_text_content(c.children, 0, Seq::empty(), ctx) {
                        Err(er) => Err(er),
                        Ok(t) => sp_section_children(ns, i + 1, Some(t), acc, ctx),
                    }
                }
            } else if c.name == "fragment"@ {
                match sp_de_fragment(c) {
                    Err(er) => Err(er),
                    Ok(f) => if sp_content_has_id(acc, f.id, 0) {
                        Err(DecodeErrorView::StructuralError { tag: f.id, context: ctx })
                    } else {
                        sp_section_children(
                            ns,
                            i + 1,
                            title,
                            acc.push(SectionContentV::Fragment(f)),
                            ctx,
                        )
                    },
                }
            } else if c.name == "properties-fragment"@ {
                match sp_de_pfrag(c) {
                    Err(er) => Err(er),
                    Ok(f) => if sp_content_has_id(acc, f.id, 0) {
                        Err(DecodeErrorView::StructuralError { tag: f.id, context: ctx })
                    } else {
                        sp_section_children(
                            ns,
                            i + 1,
                            title,
                            acc.push(SectionContentV::PropertiesFragment(f)),
                            ctx,
                        )
                    },
                }
            } else if c.name == "xref-fragment"@ {
                match sp_de_xfrag(c) {
                    Err(er) => Err(er),
                    Ok(f) => if sp_content_has_id(acc, f.id, 0) {
                        Err(DecodeErrorView::StructuralError { tag: f.id, context: ctx })
                    } else {
                        sp_section_children(
                            ns,
                            i + 1,
                            title,
                            acc.push(SectionContentV::XRefFragment(f)),
                            ctx,
                        )
                    },
                }
            } else {
                Err(DecodeErrorView::StructuralError { tag: c.name, context: ctx })
            },
        }
    }
}

/// A section decoded from its element: strict attributes, at most one content
/// title, and fragments whose ids are unique within the section. Duplicate
/// ids are rejected rather than silently overwritten.
pub open spec fn sp_de_section(e: XmlElemV) -> Result<SectionV, DecodeErrorView> {
    match sp_section_attrs(e.attrs, 0, sp_default_section_attrs()) {
        Err(er) => Err(er),
        Ok(sa) => match sa.id {
            None => Err(
                DecodeErrorView::MissingRequiredAttribute { attr: "id"@, elem: "section"@ },
            ),
            Some(id) => match sp_section_children(e.children, 0, None, Seq::empty(), id) {
                Err(er) => Err(er),
                Ok((content_title, content)) => Ok(
                    SectionV {
                        id,
                        title: sa.title,
                        content_title,
                        edit: sa.edit,
                        lockstructure: sa.lockstructure,
                        overwrite: sa.overwrite,
                        fragment_types: sa.fragment_types,
                        content,
                    },
                ),
            },
        },
    }
}

fn content_has_id(cs: &Vec<SectionContent>, id: &Vec<char>) -> (r: bool)
    ensures
        r == sp_content_has_id(scs_view(cs@), id@, 0),
{
    let mut i: usize = 0;
    proof {
        assert(scs_view(cs@).len() == cs@.len());
    }
    while i < cs.len()
        invariant
            i <= cs@.len(),
            scs_view(cs@).len() == cs@.len(),
            sp_content_has_id(scs_view(cs@), id@, 0) == sp_content_has_id(
                scs_view(cs@),
                id@,
                i as int,
            ),
        decreases cs@.len() - i,
    {
        proof {
            assert(scs_view(cs@)[i as int] == sc_view(cs@[i as int]));
        }
        let found = match &cs[i] {
            SectionContent::Fragment(f) => chars_eq_str(id, f.id.as_str()),
            SectionContent::PropertiesFragment(f) => chars_eq_str(id, f.id.as_str()),
            SectionContent::XRefFragment(f) => chars_eq_str(id, f.id.as_str()),
            SectionContent::Media(_) => false,
            SectionContent::Title { .. } => false,
        };
        if found {
            return true;
        }
        i = i + 1;
    }
    false
}

/// Decodes a section from its element.
pub fn de_section(e: &XmlElem) -> (r: Result<Section, DecodeError>)
    ensures
        match (r, sp_de_section(e@)) {
            (Ok(s), Ok(sv)) => s@ == sv,
            (Err(er), Err(ev)) => er@ == ev,
            _ => false,
        },
{
    let mut sa = SectionAttrs {
        id: None,
        title: None,
        edit: true,
        lockstructure: false,
        overwrite: true,
        fragment_types: Vec::new(),
    };
    proof {
        crate::xml::lemma_attrs_view_len(e.attrs@);
        assert(strs_view(sa.fragment_types@) =~= Seq::<Seq<char>>::empty());
        assert(sa@ == sp_default_section_attrs());
    }
    let mut i: usize = 0;
    while i < e.attrs.len()
        invariant
            i <= e.attrs@.len(),
            attrs_view(e.attrs@).len() == e.attrs@.len(),
            sp_section_attrs(attrs_view(e.attrs@), 0, sp_default_section_attrs())
                == sp_section_attrs(attrs_view(e.attrs@), i as int, sa@),
        decreases e.attrs@.len() - i,
    {
        proof {
            assert(attrs_view(e.attrs@)[i as int] == e.attrs@[i as int]@);
        }
        let a = &e.attrs[i];
        if chars_eq_str(&a.name, "id") {
            sa.id = Some(chars_to_string(&a.value));
        } else if chars_eq_str(&a.name, "title") {
            sa.title = Some(chars_to_string(&a.value));
        } else if chars_eq_str(&a.name, "edit") {
            match bool_of_chars(&a.value) {
                Some(b) => {
                    sa.edit = b;
                },
                None => {
                    return Err(
                        DecodeError::MalformedAttributeValue {
                            attr: chars_to_string(&a.name),
                            value: chars_to_string(&a.value),
                        },
                    );
                },
            }
        } else if chars_eq_str(&a.name, "lockstructure") {
            match bool_of_chars(&a.value) {
                Some(b) => {
                    sa.lockstructure = b;
                },
                None => {
                    return Err(
                        DecodeError::MalformedAttributeValue {
                            attr: chars_to_string(&a.name),
                            value: chars_to_string(&a.value),
                        },
                    );
                },
            }
        } else if chars_eq_str(&a.name, "overwrite") {
            match bool_of_chars(&a.value) {
                Some(b) => {
                    sa.overwrite = b;
                },
                None => {
                    return Err(
                        DecodeError::MalformedAttributeValue {
                            attr: chars_to_string(&a.name),
                            value: chars_to_string(&a.value),
                        },
                    );
                },
            }
        } else if chars_eq_str(&a.name, "fragmenttype") {
            sa.fragment_types = split_commas(&a.value);
        } else {
            return Err(
                DecodeError::StructuralError {
                    tag: chars_to_string(&a.name),
                    context: String::from_str("section"),
                },
            );
        }
        i = i + 1;
    }
    let id = match sa.id {
        None => {
            return Err(
                DecodeError::MissingRequiredAttribute {
                    attr: String::from_str("id"),
                    elem: String::from_str("section"),
                },
            );
        },
        Some(id) => id,
    };
    let idc = str_to_chars(id.as_str());
    let mut content_title: Option<String> = None;
    let mut content: Vec<SectionContent> = Vec::new();
    let mut k: usize = 0;
    proof {
        crate::xml::lemma_nodes_view_len(e.children@);
        assert(scs_view(content@) =~= Seq::<SectionContentV>::empty());
    }
    while k < e.children.len()
        invariant
            k <= e.children@.len(),
            e@.children.len() == e.children@.len(),
            e@.children == nodes_view(e.children@),
            e@.attrs == attrs_view(e.attrs@),
            idc@ == id@,
            (match sp_section_attrs(e@.attrs, 0, sp_default_section_attrs()) {
                Ok(sav) => sav.id == Some(id@) && sav.title == opt_view(sa.title) && sav.edit
                    == sa.edit && sav.lockstructure == sa.lockstructure && sav.overwrite
                    == sa.overwrite && sav.fragment_types == strs_view(sa.fragment_types@),
                Err(_) => false,
            }),
            sp_section_children(e@.children, 0, None, Seq::empty(), id@) == sp_section_children(
                e@.children,
                k as int,
                opt_view(content_title),
                scs_view(content@),
                id@,
            ),
        decreases e.children@.len() - k,
    {
        proof {
            crate::xml::lemma_nodes_view_index(e.children@, k as int);
        }
        match &e.children[k] {
            XmlNode::Text(_) => {},
            XmlNode::Elem(c) => {
                if chars_eq_str(&c.name, "title") {
                    if content_title.is_some() {
                        return Err(
                            DecodeError::StructuralError {
                                tag: chars_to_string(&c.name),
                                context: chars_to_string(&idc),
                            },
                        );
                    }
                    match de_text_content_elem(c, &idc) {
                        Err(er) => {
                            return Err(er);
                        },
                        Ok(t) => {
                            content_title = Some(chars_to_string(&t));
                        },
                    }
                } else if chars_eq_str(&c.name, "fragment") {
                    match de_fragment(c) {
                        Err(er) => {
                            return Err(er);
                        },
                        Ok(f) => {
                            let fid = str_to_chars(f.id.as_str());
                            if content_has_id(&content, &fid) {
                                return Err(
                                    DecodeError::StructuralError {
                                        tag: f.id,
                                        context: chars_to_string(&idc),
                                    },
                                );
                            }
                            let ghost c0 = content@;
                            let ghost fv = f@;
                            content.push(SectionContent::Fragment(f));
                            proof {
                                assert(scs_view(content@) =~= scs_view(c0).push(
                                    SectionContentV::Fragment(fv),
                                ));
                            }
                        },
                    }
                } else if chars_eq_str(&c.name, "properties-fragment") {
                    match de_pfrag(c) {
                        Err(er) => {
                            return Err(er);
                        },
                        Ok(f) => {
                            let fid = str_to_chars(f.id.as_str());
                            if content_has_id(&content, &fid) {
                                return Err(
                                    DecodeError::StructuralError {
                                        tag: f.id,
                                        context: chars_to_string(&idc),
                                    },
                                );
                            }
                            let ghost c0 = content@;
                            let ghost fv = f@;
                            content.push(SectionContent::PropertiesFragment(f));
                            proof {
                                assert(scs_view(content@) =~= scs_view(c0).push(
                                    SectionContentV::PropertiesFragment(fv),
                                ));
                            }
                        },
                    }
                } else if chars_eq_str(&c.name, "xref-fragment") {
                    match de_xfrag(c) {
                        Err(er) => {
                            return Err(er);
                        },
                        Ok(f) => {
                            let fid = str_to_chars(f.id.as_str());
                            if content_has_id(&content, &fid) {
                                return Err(
                                    DecodeError::StructuralError {
                                        tag: f.id,
                                        context: chars_to_string(&idc),
                                    },
                                );
                            }
                            let ghost c0 = content@;
                            let ghost fv = f@;
                            content.push(SectionContent::XRefFragment(f));
                            proof {
                                assert(scs_view(content@) =~= scs_view(c0).push(
                                    SectionContentV::XRefFragment(fv),
                                ));
                            }
                        },
                    }
                } else {
                    return Err(
                        DecodeError::StructuralError {
                            tag: chars_to_string(&c.name),
                            context: chars_to_string(&idc),
                        },
                    );
                }
            },
        }
        k = k + 1;
    }
    Ok(
        Section {
            id,
            title: sa.title,
            content_title,
            edit: sa.edit,
            lockstructure: sa.lockstructure,
            overwrite: sa.overwrite,
            fragment_types: sa.fragment_types,
            content,
        },
    )
}

/// One entry of a section's content written back as a node.
pub open spec fn sp_en_sc(c: SectionContentV) -> XmlNodeV {
    match c {
        SectionContentV::Fragment(f) => XmlNodeV::Elem(sp_en_fragment(f)),
        SectionContentV::PropertiesFragment(f) => XmlNodeV::Elem(sp_en_pfrag(f)),
        SectionContentV::XRefFragment(f) => XmlNodeV::Elem(sp_en_xfrag(f)),
        SectionContentV::Media(_) => XmlNodeV::Elem(
            XmlElemV { name: "media-fragment"@, attrs: Seq::empty(), children: Seq::empty() },
        ),
        SectionContentV::Title { text } => XmlNodeV::Elem(
            XmlElemV {
                name: "title"@,
                attrs: Seq::empty(),
                children: if text.len() == 0 {
                    Seq::empty()
                } else {
                    seq![XmlNodeV::Text(text)]
                },
            },
        ),
    }
}

pub open spec fn sp_en_scs(cs: Seq<SectionContentV>, i: int) -> Seq<XmlNodeV>
    decreases cs.len() - i,
{
    if !(0 <= i < cs.len()) {
        Seq::empty()
    } else {
        seq![sp_en_sc(cs[i])] + sp_en_scs(cs, i + 1)
    }
}

/// A section written back: defaulted flags omitted, the content title first,
/// then the content in order.
pub open spec fn sp_en_section(s: SectionV) -> XmlElemV {
    XmlElemV {
        name: "section"@,
        attrs: sp_attr1("id"@, s.id) + sp_opt_attr("title"@, s.title) + (if !s.edit {
            sp_attr1("edit"@, "false"@)
        } else {
            Seq::empty()
        }) + (if s.lockstructure {
            sp_attr1("lockstructure"@, "true"@)
        } else {
            Seq::empty()
        }) + (if !s.overwrite {
            sp_attr1("overwrite"@, "false"@)
        } else {
            Seq::empty()
        }) + (if s.fragment_types.len() > 0 {
            sp_attr1("fragmenttype"@, sp_join_commas(s.fragment_types))
        } else {
            Seq::empty()
        }),
        children: (match s.content_title {
            Some(t) => seq![
                XmlNodeV::Elem(
                    XmlElemV {
                        name: "title"@,
                        attrs: Seq::empty(),
                        children: if t.len() == 0 {
                            Seq::empty()
                        } else {
                            seq![XmlNodeV::Text(t)]
                        },
                    },
                ),
            ],
            None => Seq::empty(),
        }) + sp_en_scs(s.content, 0),
    }
}

/// Encodes a section as its element.
pub fn en_section(s: &Section) -> (r: XmlElem)
    ensures
        r@ == sp_en_section(s@),
{
    let mut attrs: Vec<XmlAttr> = Vec::new();
    proof {
        assert(attrs_view(attrs@) =~= Seq::<XmlAttrV>::empty());
    }
    push_attr(&mut attrs, "id", str_to_chars(s.id.as_str()));
    push_opt_attr(&mut attrs, "title", &s.title);
    if !s.edit {
        push_attr(&mut attrs, "edit", str_to_chars("false"));
    }
    if s.lockstructure {
        push_attr(&mut attrs, "lockstructure", str_to_chars("true"));
    }
    if !s.overwrite {
        push_attr(&mut attrs, "overwrite", str_to_chars("false"));
    }
    proof {
        assert(strs_view(s.fragment_types@).len() == s.fragment_types@.len());
    }
    if s.fragment_types.len() > 0 {
        push_attr(&mut attrs, "fragmenttype", join_commas(&s.fragment_types));
    }
    let mut children: Vec<XmlNode> = Vec::new();
    match &s.content_title {
        Some(t) => {
            let mut tc: Vec<XmlNode> = Vec::new();
            if !t.as_str().is_empty() {
                let tv = str_to_chars(t.as_str());
                let ghost tvv = tv@;
                tc.push(XmlNode::Text(tv));
                proof {
                    assert(tc@.drop_first() =~= Seq::<XmlNode>::empty());
                    assert(nodes_view(tc@) == seq![node_view(tc@[0])] + nodes_view(
                        tc@.drop_first(),
                    ));
                    assert(nodes_view(tc@) =~= seq![XmlNodeV::Text(t@)]);
                }
            } else {
                proof {
                    assert(nodes_view(tc@) =~= Seq::<XmlNodeV>::empty());
                }
            }
            let te = XmlElem { name: str_to_chars("title"), attrs: Vec::new(), children: tc };
            proof {
                assert(attrs_view(te.attrs@) =~= Seq::<XmlAttrV>::empty());
            }
            children.push(XmlNode::Elem(te));
            proof {
                assert(children@.drop_first() =~= Seq::<XmlNode>::empty());
                assert(nodes_view(children@) == seq![node_view(children@[0])] + nodes_view(
                    children@.drop_first(),
                ));
            }
        },
        None => {
            proof {
                assert(nodes_view(children@) =~= Seq::<XmlNodeV>::empty());
            }
        },
    }
    let ghost head = nodes_view(children@);
    let ghost cv = scs_view(s.content@);
    let mut i: usize = 0;
    proof {
        assert(cv.len() == s.content@.len());
        assert(head + Seq::<XmlNodeV>::empty() =~= head);
        assert(Seq::<XmlNodeV>::empty() + sp_en_scs(cv, 0) =~= sp_en_scs(cv, 0));
    }
    while i < s.content.len()
        invariant
            i <= s.content@.len(),
            cv == scs_view(s.content@),
            cv.len() == s.content@.len(),
            head + sp_en_scs(cv, 0) == nodes_view(children@) + sp_en_scs(cv, i as int),
        decreases s.content@.len() - i,
    {
        let ghost c0 = children@;
        proof {
            assert(cv[i as int] == sc_view(s.content@[i as int]));
        }
        match &s.content[i] {
            SectionContent::Fragment(f) => {
                let fe = en_fragment(f);
                children.push(XmlNode::Elem(fe));
            },
            SectionContent::PropertiesFragment(f) => {
                let fe = en_pfrag(f);
                children.push(XmlNode::Elem(fe));
            },
            SectionContent::XRefFragment(f) => {
                let fe = en_xfrag(f);
                children.push(XmlNode::Elem(fe));
            },
            SectionContent::Media(_) => {
                let fe = XmlElem {
                    name: str_to_chars("media-fragment"),
                    attrs: Vec::new(),
                    children: Vec::new(),
                };
                proof {
                    assert(attrs_view(fe.attrs@) =~= Seq::<XmlAttrV>::empty());
                    assert(nodes_view(fe.children@) =~= Seq::<XmlNodeV>::empty());
                }
                children.push(XmlNode::Elem(fe));
            },
            SectionContent::Title { text } => {
                let mut tc: Vec<XmlNode> = Vec::new();
                if !text.as_str().is_empty() {
                    let tv = str_to_chars(text.as_str());
                    tc.push(XmlNode::Text(tv));
                    proof {
                        assert(tc@.drop_first() =~= Seq::<XmlNode>::empty());
                        assert(nodes_view(tc@) == seq![node_view(tc@[0])] + nodes_view(
                            tc@.drop_first(),
                        ));
                        assert(nodes_view(tc@) =~= seq![XmlNodeV::Text(text@)]);
                    }
                } else {
                    proof {
                        assert(nodes_view(tc@) =~= Seq::<XmlNodeV>::empty());
                    }
                }
                let te = XmlElem { name: str_to_chars("title"), attrs: Vec::new(), children: tc };
                proof {
                    assert(attrs_view(te.attrs@) =~= Seq::<XmlAttrV>::empty());
                }
                children.push(XmlNode::Elem(te));
            },
        }
        proof {
            crate::xml::lemma_nodes_view_push(c0, children@[c0.len() as int]);
            assert(nodes_view(children@) =~= nodes_view(c0) + seq![sp_en_sc(cv[i as int])]);
            assert(nodes_view(c0) + (seq![sp_en_sc(cv[i as int])] + sp_en_scs(cv, i as int + 1))
                =~= nodes_view(children@) + sp_en_scs(cv, i as int + 1));
        }
        i = i + 1;
    }
    proof {
        assert(sp_en_scs(cv, i as int) == Seq::<XmlNodeV>::empty());
        assert(nodes_view(children@) + Seq::<XmlNodeV>::empty() =~= nodes_view(children@));
    }
    let r = XmlElem { name: str_to_chars("section"), attrs, children };
    proof {
        assert(attrs_view(r.attrs@) =~= sp_en_section(s@).attrs);
        assert(nodes_view(r.children@) =~= sp_en_section(s@).children);
    }
    r
}

/// A whole buffer decoded as a section.
pub open spec fn sp_section_from_psml(s: Seq<char>) -> Result<SectionV, DecodeErrorView> {
    match sp_psml_elem(s, "section"@) {
        Err(er) => Err(er),
        Ok(e) => sp_de_section(e),
    }
}

/// A whole buffer decoded as a cross-reference fragment.
pub open spec fn sp_xfrag_from_psml(s: Seq<char>) -> Result<XRefFragmentV, DecodeErrorView> {
    match sp_psml_elem(s, "xref-fragment"@) {
        Err(er) => Err(er),
        Ok(e) => sp_de_xfrag(e),
    }
}

impl Section {
    /// Decodes the first `section` element of the buffer.
    pub fn from_psml(s: &str) -> (r: Result<Section, DecodeError>)
        ensures
            match (r, sp_section_from_psml(s@)) {
                (Ok(sec), Ok(sv)) => sec@ == sv,
                (Err(er), Err(ev)) => er@ == ev,
                _ => false,
            },
    {
        let cs = str_to_chars(s);
        match crate::xml::lex_forest(&cs) {
            Err(er) => Err(er),
            Ok(ns) => match find_elem(&ns, "section") {
                Some(e) => de_section(e),
                None => Err(
                    DecodeError::StructuralError {
                        tag: String::from_str("section"),
                        context: String::new(),
                    },
                ),
            },
        }
    }

    /// Encodes this section as a self-contained buffer.
    pub fn to_psml(&self) -> (r: String)
        ensures
            r@ == crate::xml::sp_write_node(XmlNodeV::Elem(sp_en_section(self@))),
    {
        let e = en_section(self);
        let mut out: Vec<char> = Vec::new();
        crate::xml::write_node(&mut out, &XmlNode::Elem(e));
        chars_to_string(&out)
    }
}

impl XRefFragment {
    /// Decodes the first `xref-fragment` element of the buffer.
    pub fn from_psml(s: &str) -> (r: Result<XRefFragment, DecodeError>)
        ensures
            match (r, sp_xfrag_from_psml(s@)) {
                (Ok(f), Ok(fv)) => f@ == fv,
                (Err(er), Err(ev)) => er@ == ev,
                _ => false,
            },
    {
        let cs = str_to_chars(s);
        match crate::xml::lex_forest(&cs) {
            Err(er) => Err(er),
            Ok(ns) => match find_elem(&ns, "xref-fragment") {
                Some(e) => de_xfrag(e),
                None => Err(
                    DecodeError::StructuralError {
                        tag: String::from_str("xref-fragment"),
                        context: String::new(),
                    },
                ),
            },
        }
    }

    /// Encodes this fragment as a self-contained buffer.
    pub fn to_psml(&self) -> (r: String)
        ensures
            r@ == crate::xml::sp_write_node(XmlNodeV::Elem(sp_en_xfrag(self@))),
    {
        let e = en_xfrag(self);
        let mut out: Vec<char> = Vec::new();
        crate::xml::write_node(&mut out, &XmlNode::Elem(e));
        chars_to_string(&out)
    }
}

// ---------- the document codec ----------

/// The URI descriptor of a document's metadata.
pub open spec fn sp_uri_attrs(attrs: Seq<XmlAttrV>, i: int, acc: URIDescriptorV) -> Result<
    URIDescriptorV,
    DecodeErrorView,
>
    decreases attrs.len() - i,
{
    if !(0 <= i < attrs.len()) {
        Ok(acc)
    } else {
        let a = attrs[i];
        if a.name == "docid"@ {
            sp_uri_attrs(attrs, i + 1, URIDescriptorV { docid: Some(a.value), ..acc })
        } else if a.name == "documenttype"@ {
            sp_uri_attrs(attrs, i + 1, URIDescriptorV { doc_type: Some(a.value), ..acc })
        } else if a.name == "title"@ {
            sp_uri_attrs(attrs, i + 1, URIDescriptorV { title: Some(a.value), ..acc })
        } else if a.name == "folder"@ {
            match sp_bool_of(a.value) {
                Some(b) => sp_uri_attrs(attrs, i + 1, URIDescriptorV { folder: Some(b), ..acc }),
                None => Err(
                    DecodeErrorView::MalformedAttributeValue { attr: a.name, value: a.value },
                ),
            }
        } else {
            sp_uri_attrs(attrs, i + 1, acc)
        }
    }
}

pub open spec fn sp_default_uri() -> URIDescriptorV {
    URIDescriptorV {
        docid: None,
        doc_type: None,
        title: None,
        folder: None,
        description: None,
        labels: None,
    }
}

pub open spec fn sp_uri_children(ns: Seq<XmlNodeV>, i: int, acc: URIDescriptorV) -> Result<
    URIDescriptorV,
    DecodeErrorView,
>
    decreases ns.len() - i,
{
    if !(0 <= i < ns.len()) {
        Ok(acc)
    } else {
        match ns[i] {
            XmlNodeV::Text(_) => sp_uri_children(ns, i + 1, acc),
            XmlNodeV::Elem(c) => if c.name == "description"@ {
                match sp_text_content(c.children, 0, Seq::empty(), "uri"@) {
                    Err(er) => Err(er),
                    Ok(t) => sp_uri_children(ns, i + 1, URIDescriptorV { description: Some(t), ..acc }),
                }
            } else if c.name == "labels"@ {
                match sp_text_content(c.children, 0, Seq::empty(), "uri"@) {
                    Err(er) => Err(er),
                    Ok(t) => sp_uri_children(ns, i + 1, URIDescriptorV { labels: Some(t), ..acc }),
                }
            } else {
                Err(DecodeErrorView::StructuralError { tag: c.name, context: "uri"@ })
            },
        }
    }
}

/// A URI descriptor decoded from its element.
pub open spec fn sp_de_uri(e: XmlElemV) -> Result<URIDescriptorV, DecodeErrorView> {
    match sp_uri_attrs(e.attrs, 0, sp_default_uri()) {
        Err(er) => Err(er),
        Ok(u) => sp_uri_children(e.children, 0, u),
    }
}

/// Decodes a URI descriptor from its element.
pub fn de_uri(e: &XmlElem) -> (r: Result<URIDescriptor, DecodeError>)
    ensures
        match (r, sp_de_uri(e@)) {
            (Ok(u), Ok(uv)) => u@ == uv,
            (Err(er), Err(ev)) => er@ == ev,
            _ => false,
        },
{
    let mut acc = URIDescriptor {
        docid: None,
        doc_type: None,
        title: None,
        folder: None,
        description: None,
        labels: None,
    };
    proof {
        crate::xml::lemma_attrs_view_len(e.attrs@);
    }
    let mut i: usize = 0;
    while i < e.attrs.len()
        invariant
            i <= e.attrs@.len(),
            attrs_view(e.attrs@).len() == e.attrs@.len(),
            sp_uri_attrs(attrs_view(e.attrs@), 0, sp_default_uri()) == sp_uri_attrs(
                attrs_view(e.attrs@),
                i as int,
                acc@,
            ),
        decreases e.attrs@.len() - i,
    {
        proof {
            assert(attrs_view(e.attrs@)[i as int] == e.attrs@[i as int]@);
        }
        let a = &e.attrs[i];
        if chars_eq_str(&a.name, "docid") {
            acc.docid = Some(chars_to_string(&a.value));
        } else if chars_eq_str(&a.name, "documenttype") {
            acc.doc_type = Some(chars_to_string(&a.value));
        } else if chars_eq_str(&a.name, "title") {
            acc.title = Some(chars_to_string(&a.value));
        } else if chars_eq_str(&a.name, "folder") {
            match bool_of_chars(&a.value) {
                Some(b) => {
                    acc.folder = Some(b);
                },
                None => {
                    return Err(
                        DecodeError::MalformedAttributeValue {
                            attr: chars_to_string(&a.name),
                            value: chars_to_string(&a.value),
                        },
                    );
                },
            }
        }
        i = i + 1;
    }
    let uric = str_to_chars("uri");
    let mut k: usize = 0;
    proof {
        crate::xml::lemma_nodes_view_len(e.children@);
    }
    while k < e.children.len()
        invariant
            k <= e.children@.len(),
            e@.children.len() == e.children@.len(),
            e@.children == nodes_view(e.children@),
            e@.attrs == attrs_view(e.attrs@),
            uric@ == "uri"@,
            sp_de_uri(e@) == sp_uri_children(e@.children, k as int, acc@),
        decreases e.children@.len() - k,
    {
        proof {
            crate::xml::lemma_nodes_view_index(e.children@, k as int);
        }
        match &e.children[k] {
            XmlNode::Text(_) => {},
            XmlNode::Elem(c) => {
                if chars_eq_str(&c.name, "description") {
                    match de_text_content_elem(c, &uric) {
                        Err(er) => {
                            return Err(er);
                        },
                        Ok(t) => {
                            acc.description = Some(Description { value: chars_to_string(&t) });
                        },
                    }
                } else if chars_eq_str(&c.name, "labels") {
                    match de_text_content_elem(c, &uric) {
                        Err(er) => {
                            return Err(er);
                        },
                        Ok(t) => {
                            acc.labels = Some(Labels { value: chars_to_string(&t) });
                        },
                    }
                } else {
                    return Err(
                        DecodeError::StructuralError {
                            tag: chars_to_string(&c.name),
                            context: String::from_str("uri"),
                        },
                    );
                }
            },
        }
        k = k + 1;
    }
    Ok(acc)
}

/// A URI descriptor written back: attributes, then the description and labels
/// as children where present.
pub open spec fn sp_text_elem(name: Seq<char>, t: Seq<char>) -> XmlNodeV {
    XmlNodeV::Elem(
        XmlElemV {
            name,
            attrs: Seq::empty(),
            children: if t.len() == 0 {
                Seq::empty()
            } else {
                seq![XmlNodeV::Text(t)]
            },
        },
    )
}

fn en_text_elem(name: &str, t: &str) -> (r: XmlNode)
    ensures
        node_view(r) == sp_text_elem(name@, t@),
{
    let mut children: Vec<XmlNode> = Vec::new();
    if !t.is_empty() {
        let tv = str_to_chars(t);
        children.push(XmlNode::Text(tv));
        proof {
            assert(children@.drop_first() =~= Seq::<XmlNode>::empty());
            assert(nodes_view(children@) == seq![node_view(children@[0])] + nodes_view(
                children@.drop_first(),
            ));
            assert(nodes_view(children@) =~= seq![XmlNodeV::Text(t@)]);
        }
    } else {
        proof {
            assert(nodes_view(children@) =~= Seq::<XmlNodeV>::empty());
        }
    }
    let e = XmlElem { name: str_to_chars(name), attrs: Vec::new(), children };
    proof {
        assert(attrs_view(e.attrs@) =~= Seq::<XmlAttrV>::empty());
    }
    XmlNode::Elem(e)
}

pub open spec fn sp_en_uri(u: URIDescriptorV) -> XmlElemV {
    XmlElemV {
        name: "uri"@,
        attrs: sp_opt_attr("docid"@, u.docid) + sp_opt_attr("documenttype"@, u.doc_type)
            + sp_opt_attr("title"@, u.title) + sp_opt_bool_attr("folder"@, u.folder),
        children: (match u.description {
            Some(t) => seq![sp_text_elem("description"@, t)],
            None => Seq::empty(),
        }) + (match u.labels {
            Some(t) => seq![sp_text_elem("labels"@, t)],
            None => Seq::empty(),
        }),
    }
}

/// Encodes a URI descriptor as its element.
pub fn en_uri(u: &URIDescriptor) -> (r: XmlElem)
    ensures
        r@ == sp_en_uri(u@),
{
    let mut attrs: Vec<XmlAttr> = Vec::new();
    proof {
        assert(attrs_view(attrs@) =~= Seq::<XmlAttrV>::empty());
    }
    push_opt_attr(&mut attrs, "docid", &u.docid);
    push_opt_attr(&mut attrs, "documenttype", &u.doc_type);
    push_opt_attr(&mut attrs, "title", &u.title);
    push_opt_bool_attr(&mut attrs, "folder", &u.folder);
    let mut children: Vec<XmlNode> = Vec::new();
    match &u.description {
        Some(d) => {
            let ghost c0 = children@;
            let de = en_text_elem("description", d.value.as_str());
            children.push(de);
            proof {
                crate::xml::lemma_nodes_view_push(c0, children@[c0.len() as int]);
            }
        },
        None => {},
    }
    match &u.labels {
        Some(l) => {
            let ghost c0 = children@;
            let le = en_text_elem("labels", l.value.as_str());
            children.push(le);
            proof {
                crate::xml::lemma_nodes_view_push(c0, children@[c0.len() as int]);
            }
        },
        None => {},
    }
    let r = XmlElem { name: str_to_chars("uri"), attrs, children };
    proof {
        assert(attrs_view(r.attrs@) =~= sp_en_uri(u@).attrs);
        assert(nodes_view(r.children@) =~= sp_en_uri(u@).children);
    }
    r
}

/// Document metadata read from the children of `documentinfo`: the last `uri`
/// and `publication` win.
pub open spec fn sp_docinfo_children(ns: Seq<XmlNodeV>, i: int, acc: DocumentInfoV) -> Result<
    DocumentInfoV,
    DecodeErrorView,
>
    decreases ns.len() - i,
{
    if !(0 <= i < ns.len()) {
        Ok(acc)
    } else {
        match ns[i] {
            XmlNodeV::Text(_) => sp_docinfo_children(ns, i + 1, acc),
            XmlNodeV::Elem(c) => if c.name == "uri"@ {
                match sp_de_uri(c) {
                    Err(er) => Err(er),
                    Ok(u) => sp_docinfo_children(ns, i + 1, DocumentInfoV { uri: Some(u), ..acc }),
                }
            } else if c.name == "publication"@ {
                match sp_de_publication(c) {
                    Err(er) => Err(er),
                    Ok(p) => sp_docinfo_children(
                        ns,
                        i + 1,
                        DocumentInfoV { publication: Some(p), ..acc },
                    ),
                }
            } else {
                Err(DecodeErrorView::StructuralError { tag: c.name, context: "documentinfo"@ })
            },
        }
    }
}

pub open spec fn sp_de_docinfo(e: XmlElemV) -> Result<DocumentInfoV, DecodeErrorView> {
    sp_docinfo_children(e.children, 0, DocumentInfoV { uri: None, publication: None })
}

/// Decodes document metadata from its element.
pub fn de_docinfo(e: &XmlElem) -> (r: Result<DocumentInfo, DecodeError>)
    ensures
        match (r, sp_de_docinfo(e@)) {
            (Ok(d), Ok(dv)) => d@ == dv,
            (Err(er), Err(ev)) => er@ == ev,
            _ => false,
        },
{
    let mut acc = DocumentInfo { uri: None, publication: None };
    let mut k: usize = 0;
    proof {
        crate::xml::lemma_nodes_view_len(e.children@);
    }
    while k < e.children.len()
        invariant
            k <= e.children@.len(),
            e@.children.len() == e.children@.len(),
            e@.children == nodes_view(e.children@),
            sp_de_docinfo(e@) == sp_docinfo_children(e@.children, k as int, acc@),
        decreases e.children@.len() - k,
    {
        proof {
            crate::xml::lemma_nodes_view_index(e.children@, k as int);
        }
        match &e.children[k] {
            XmlNode::Text(_) => {},
            XmlNode::Elem(c) => {
                if chars_eq_str(&c.name, "uri") {
                    match de_uri(c) {
                        Err(er) => {
                            return Err(er);
                        },
                        Ok(u) => {
                            acc.uri = Some(u);
                        },
                    }
                } else if chars_eq_str(&c.name, "publication") {
                    match de_publication(c) {
                        Err(er) => {
                            return Err(er);
                        },
                        Ok(p) => {
                            acc.publication = Some(p);
                        },
                    }
                } else {
                    return Err(
                        DecodeError::StructuralError {
                            tag: chars_to_string(&c.name),
                            context: String::from_str("documentinfo"),
                        },
                    );
                }
            },
        }
        k = k + 1;
    }
    Ok(acc)
}

pub open spec fn sp_en_docinfo(d: DocumentInfoV) -> XmlElemV {
    XmlElemV {
        name: "documentinfo"@,
        attrs: Seq::empty(),
        children: (match d.uri {
            Some(u) => seq![XmlNodeV::Elem(sp_en_uri(u))],
            None => Seq::empty(),
        }) + (match d.publication {
            Some(p) => seq![XmlNodeV::Elem(sp_en_publication(p))],
            None => Seq::empty(),
        }),
    }
}

/// Encodes document metadata as its element.
pub fn en_docinfo(d: &DocumentInfo) -> (r: XmlElem)
    ensures
        r@ == sp_en_docinfo(d@),
{
    let mut children: Vec<XmlNode> = Vec::new();
    match &d.uri {
        Some(u) => {
            let ghost c0 = children@;
            let ue = en_uri(u);
            children.push(XmlNode::Elem(ue));
            proof {
                crate::xml::lemma_nodes_view_push(c0, children@[c0.len() as int]);
            }
        },
        None => {},
    }
    match &d.publication {
        Some(p) => {
            let ghost c0 = children@;
            let pe = en_publication(p);
            children.push(XmlNode::Elem(pe));
            proof {
                crate::xml::lemma_nodes_view_push(c0, children@[c0.len() as int]);
            }
        },
        None => {},
    }
    let r = XmlElem { name: str_to_chars("documentinfo"), attrs: Vec::new(), children };
    proof {
        assert(attrs_view(r.attrs@) =~= Seq::<XmlAttrV>::empty());
        assert(nodes_view(r.children@) =~= sp_en_docinfo(d@).children);
    }
    r
}

/// One fragment locator: its fragment id attribute. Notes are not read from
/// markup; a locator child outside the grammar is a structural fault.
pub open spec fn sp_de_locator(e: XmlElemV) -> Result<LocatorV, DecodeErrorView> {
    match sp_attr_lookup_v(e.attrs, "fragment"@, 0) {
        Some(v) => Ok(LocatorV { fragment_id: Some(v), notes: None }),
        None => Ok(LocatorV { fragment_id: None, notes: None }),
    }
}

/// The first attribute of the given name, where there is one.
pub open spec fn sp_attr_lookup_v(attrs: Seq<XmlAttrV>, name: Seq<char>, i: int) -> Option<
    Seq<char>,
>
    decreases attrs.len() - i,
{
    if !(0 <= i < attrs.len()) {
        None
    } else if attrs[i].name == name {
        Some(attrs[i].value)
    } else {
        sp_attr_lookup_v(attrs, name, i + 1)
    }
}

fn de_locator(e: &XmlElem) -> (r: Result<Locator, DecodeError>)
    ensures
        match (r, sp_de_locator(e@)) {
            (Ok(l), Ok(lv)) => l@ == lv,
            (Err(er), Err(ev)) => er@ == ev,
            _ => false,
        },
{
    proof {
        crate::xml::lemma_attrs_view_len(e.attrs@);
    }
    let mut i: usize = 0;
    while i < e.attrs.len()
        invariant
            i <= e.attrs@.len(),
            attrs_view(e.attrs@).len() == e.attrs@.len(),
            sp_attr_lookup_v(attrs_view(e.attrs@), "fragment"@, 0) == sp_attr_lookup_v(
                attrs_view(e.attrs@),
                "fragment"@,
                i as int,
            ),
        decreases e.attrs@.len() - i,
    {
        proof {
            assert(attrs_view(e.attrs@)[i as int] == e.attrs@[i as int]@);
        }
        let a = &e.attrs[i];
        if chars_eq_str(&a.name, "fragment") {
            return Ok(Locator { fragment_id: Some(chars_to_string(&a.value)), notes: None });
        }
        i = i + 1;
    }
    Ok(Locator { fragment_id: None, notes: None })
}

/// The locators of a `fragmentinfo` element, in order.
pub open spec fn sp_locators(ns: Seq<XmlNodeV>, i: int, acc: Seq<LocatorV>) -> Result<
    Seq<LocatorV>,
    DecodeErrorView,
>
    decreases ns.len() - i,
{
    if !(0 <= i < ns.len()) {
        Ok(acc)
    } else {
        match ns[i] {
            XmlNodeV::Text(_) => sp_locators(ns, i + 1, acc),
            XmlNodeV::Elem(c) => if c.name == "locator"@ {
                match sp_de_locator(c) {
                    Err(er) => Err(er),
                    Ok(l) => sp_locators(ns, i + 1, acc.push(l)),
                }
            } else {
                Err(DecodeErrorView::StructuralError { tag: c.name, context: "fragmentinfo"@ })
            },
        }
    }
}

/// The attributes a document carries; an attribute outside the known set is a
/// structural fault, and `level` is required.
pub struct DocAttrs {
    pub doc_type: Option<String>,
    pub edit: Option<bool>,
    pub level: Option<DocumentLevel>,
    pub lockstructure: Option<bool>,
}

/// The mathematical shadow of [`DocAttrs`].
pub struct DocAttrsV {
    pub doc_type: Option<Seq<char>>,
    pub edit: Option<bool>,
    pub level: Option<DocumentLevel>,
    pub lockstructure: Option<bool>,
}

impl View for DocAttrs {
    type V = DocAttrsV;

    open spec fn view(&self) -> DocAttrsV {
        DocAttrsV {
            doc_type: opt_view(self.doc_type),
            edit: self.edit,
            level: self.level,
            lockstructure: self.lockstructure,
        }
    }
}

pub open spec fn sp_doc_attrs(attrs: Seq<XmlAttrV>, i: int, acc: DocAttrsV) -> Result<
    DocAttrsV,
    DecodeErrorView,
>
    decreases attrs.len() - i,
{
    if !(0 <= i < attrs.len()) {
        Ok(acc)
    } else {
        let a = attrs[i];
        if a.name == "type"@ {
            sp_doc_attrs(attrs, i + 1, DocAttrsV { doc_type: Some(a.value), ..acc })
        } else if a.name == "edit"@ {
            match sp_bool_of(a.value) {
                Some(b) => sp_doc_attrs(attrs, i + 1, DocAttrsV { edit: Some(b), ..acc }),
                None => Err(
                    DecodeErrorView::MalformedAttributeValue { attr: a.name, value: a.value },
                ),
            }
        } else if a.name == "level"@ {
            match sp_level_of(a.value) {
                Some(l) => sp_doc_attrs(attrs, i + 1, DocAttrsV { level: Some(l), ..acc }),
                None => Err(
                    DecodeErrorView::MalformedAttributeValue { attr: a.name, value: a.value },
                ),
            }
        } else if a.name == "lockstructure"@ {
            match sp_bool_of(a.value) {
                Some(b) => sp_doc_attrs(attrs, i + 1, DocAttrsV { lockstructure: Some(b), ..acc }),
                None => Err(
                    DecodeErrorView::MalformedAttributeValue { attr: a.name, value: a.value },
                ),
            }
        } else if a.name == "version"@ || a.name == "schemaversion"@ {
            sp_doc_attrs(attrs, i + 1, acc)
        } else {
            Err(DecodeErrorView::StructuralError { tag: a.name, context: "document"@ })
        }
    }
}

/// The parts of a document collected from its children.
pub struct DocAcc {
    pub doc_info: Option<DocumentInfo>,
    pub frag_info: Vec<Locator>,
    pub sections: Vec<Section>,
}

/// The mathematical shadow of [`DocAcc`].
pub struct DocAccV {
    pub doc_info: Option<DocumentInfoV>,
    pub frag_info: Seq<LocatorV>,
    pub sections: Seq<SectionV>,
}

impl View for DocAcc {
    type V = DocAccV;

    open spec fn view(&self) -> DocAccV {
        DocAccV {
            doc_info: match self.doc_info {
                Some(d) => Some(docinfo_view(d)),
                None => None,
            },
            frag_info: locators_view(self.frag_info@),
            sections: sections_view(self.sections@),
        }
    }
}

/// Whether a section of the given id is already present.
pub open spec fn sp_sections_have_id(ss: Seq<SectionV>, id: Seq<char>, i: int) -> bool
    decreases ss.len() - i,
{
    if !(0 <= i < ss.len()) {
        false
    } else if ss[i].id == id {
        true
    } else {
        sp_sections_have_id(ss, id, i + 1)
    }
}

/// The children of a document: optional metadata, fragment locators, and
/// sections with ids unique within the document.
pub open spec fn sp_doc_children(ns: Seq<XmlNodeV>, i: int, acc: DocAccV) -> Result<
    DocAccV,
    DecodeErrorView,
>
    decreases ns.len() - i,
{
    if !(0 <= i < ns.len()) {
        Ok(acc)
    } else {
        match ns[i] {
            XmlNodeV::Text(_) => sp_doc_children(ns, i + 1, acc),
            XmlNodeV::Elem(c) => if c.name == "documentinfo"@ {
                match sp_de_docinfo(c) {
                    Err(er) => Err(er),
                    Ok(d) => sp_doc_children(ns, i + 1, DocAccV { doc_info: Some(d), ..acc }),
                }
            } else if c.name == "fragmentinfo"@ {
                match sp_locators(c.children, 0, Seq::empty()) {
                    Err(er) => Err(er),
                    Ok(ls) => sp_doc_children(
                        ns,
                        i + 1,
                        DocAccV { frag_info: acc.frag_info + ls, ..acc },
                    ),
                }
            } else if c.name == "section"@ {
                match sp_de_section(c) {
                    Err(er) => Err(er),
                    Ok(s) => if sp_sections_have_id(acc.sections, s.id, 0) {
                        Err(DecodeErrorView::StructuralError { tag: s.id, context: "document"@ })
                    } else {
                        sp_doc_children(ns, i + 1, DocAccV { sections: acc.sections.push(s), ..acc })
                    },
                }
            } else {
                Err(DecodeErrorView::StructuralError { tag: c.name, context: "document"@ })
            },
        }
    }
}

/// A document decoded from its element: strict attributes with a required
/// `level`, optional metadata, fragment locators, and sections whose ids are
/// unique within the document. Duplicate ids are rejected rather than
/// silently overwritten.
pub open spec fn sp_de_document(e: XmlElemV) -> Result<DocumentV, DecodeErrorView> {
    match sp_doc_attrs(
        e.attrs,
        0,
        DocAttrsV { doc_type: None, edit: None, level: None, lockstructure: None },
    ) {
        Err(er) => Err(er),
        Ok(da) => match da.level {
            None => Err(
                DecodeErrorView::MissingRequiredAttribute { attr: "level"@, elem: "document"@ },
            ),
            Some(level) => match sp_doc_children(
                e.children,
                0,
                DocAccV { doc_info: None, frag_info: Seq::empty(), sections: Seq::empty() },
            ) {
                Err(er) => Err(er),
                Ok(dc) => Ok(
                    DocumentV {
                        doc_info: dc.doc_info,
                        frag_info: dc.frag_info,
                        sections: dc.sections,
                        doc_type: da.doc_type,
                        edit: da.edit,
                        level,
                        lockstructure: da.lockstructure,
                    },
                ),
            },
        },
    }
}

fn sections_have_id(ss: &Vec<Section>, id: &Vec<char>) -> (r: bool)
    ensures
        r == sp_sections_have_id(sections_view(ss@), id@, 0),
{
    let mut i: usize = 0;
    proof {
        assert(sections_view(ss@).len() == ss@.len());
    }
    while i < ss.len()
        invariant
            i <= ss@.len(),
            sections_view(ss@).len() == ss@.len(),
            sp_sections_have_id(sections_view(ss@), id@, 0) == sp_sections_have_id(
                sections_view(ss@),
                id@,
                i as int,
            ),
        decreases ss@.len() - i,
    {
        proof {
            assert(sections_view(ss@)[i as int] == section_view(ss@[i as int]));
        }
        if chars_eq_str(id, ss[i].id.as_str()) {
            return true;
        }
        i = i + 1;
    }
    false
}

/// The locators of a `fragmentinfo` element, in order.
fn de_locators(e: &XmlElem) -> (r: Result<Vec<Locator>, DecodeError>)
    ensures
        match (r, sp_locators(e@.children, 0, Seq::<LocatorV>::empty())) {
            (Ok(ls), Ok(lv)) => locators_view(ls@) == lv,
            (Err(er), Err(ev)) => er@ == ev,
            _ => false,
        },
{
    let mut acc: Vec<Locator> = Vec::new();
    let mut q: usize = 0;
    proof {
        crate::xml::lemma_nodes_view_len(e.children@);
        assert(locators_view(acc@) =~= Seq::<LocatorV>::empty());
    }
    while q < e.children.len()
        invariant
            q <= e.children@.len(),
            e@.children.len() == e.children@.len(),
            e@.children == nodes_view(e.children@),
            sp_locators(e@.children, 0, Seq::<LocatorV>::empty()) == sp_locators(
                e@.children,
                q as int,
                locators_view(acc@),
            ),
        decreases e.children@.len() - q,
    {
        proof {
            crate::xml::lemma_nodes_view_index(e.children@, q as int);
        }
        match &e.children[q] {
            XmlNode::Text(_) => {},
            XmlNode::Elem(lc) => {
                if chars_eq_str(&lc.name, "locator") {
                    match de_locator(lc) {
                        Err(er) => {
                            return Err(er);
                        },
                        Ok(l) => {
                            let ghost l0 = acc@;
                            let ghost lv = l@;
                            acc.push(l);
                            proof {
                                assert(locators_view(acc@) =~= locators_view(l0).push(lv));
                            }
                        },
                    }
                } else {
                    return Err(
                        DecodeError::StructuralError {
                            tag: chars_to_string(&lc.name),
                            context: String::from_str("fragmentinfo"),
                        },
                    );
                }
            },
        }
        q = q + 1;
    }
    Ok(acc)
}

/// Decodes a document from its element.
pub fn de_document(e: &XmlElem) -> (r: Result<Document, DecodeError>)
    ensures
        match (r, sp_de_document(e@)) {
            (Ok(d), Ok(dv)) => d@ == dv,
            (Err(er), Err(ev)) => er@ == ev,
            _ => false,
        },
{
    let mut da = DocAttrs { doc_type: None, edit: None, level: None, lockstructure: None };
    proof {
        crate::xml::lemma_attrs_view_len(e.attrs@);
    }
    let mut i: usize = 0;
    while i < e.attrs.len()
        invariant
            i <= e.attrs@.len(),
            attrs_view(e.attrs@).len() == e.attrs@.len(),
            sp_doc_attrs(
                attrs_view(e.attrs@),
                0,
                DocAttrsV { doc_type: None, edit: None, level: None, lockstructure: None },
            ) == sp_doc_attrs(attrs_view(e.attrs@), i as int, da@),
        decreases e.attrs@.len() - i,
    {
        proof {
            assert(attrs_view(e.attrs@)[i as int] == e.attrs@[i as int]@);
        }
        let a = &e.attrs[i];
        if chars_eq_str(&a.name, "type") {
            da.doc_type = Some(chars_to_string(&a.value));
        } else if chars_eq_str(&a.name, "edit") {
            match bool_of_chars(&a.value) {
                Some(b) => {
                    da.edit = Some(b);
                },
                None => {
                    return Err(
                        DecodeError::MalformedAttributeValue {
                            attr: chars_to_string(&a.name),
                            value: chars_to_string(&a.value),
                        },
                    );
                },
            }
        } else if chars_eq_str(&a.name, "level") {
            match level_of_chars(&a.value) {
                Some(l) => {
                    da.level = Some(l);
                },
                None => {
                    return Err(
                        DecodeError::MalformedAttributeValue {
                            attr: chars_to_string(&a.name),
                            value: chars_to_string(&a.value),
                        },
                    );
                },
            }
        } else if chars_eq_str(&a.name, "lockstructure") {
            match bool_of_chars(&a.value) {
                Some(b) => {
                    da.lockstructure = Some(b);
                },
                None => {
                    return Err(
                        DecodeError::MalformedAttributeValue {
                            attr: chars_to_string(&a.name),
                            value: chars_to_string(&a.value),
                        },
                    );
                },
            }
        } else if chars_eq_str(&a.name, "version") || chars_eq_str(&a.name, "schemaversion") {
        } else {
            return Err(
                DecodeError::StructuralError {
                    tag: chars_to_string(&a.name),
                    context: String::from_str("document"),
                },
            );
        }
        i = i + 1;
    }
    let level = match da.level {
        None => {
            return Err(
                DecodeError::MissingRequiredAttribute {
                    attr: String::from_str("level"),
                    elem: String::from_str("document"),
                },
            );
        },
        Some(l) => l,
    };
    let mut acc = DocAcc { doc_info: None, frag_info: Vec::new(), sections: Vec::new() };
    let mut k: usize = 0;
    proof {
        crate::xml::lemma_nodes_view_len(e.children@);
        assert(locators_view(acc.frag_info@) =~= Seq::<LocatorV>::empty());
        assert(sections_view(acc.sections@) =~= Seq::<SectionV>::empty());
    }
    while k < e.children.len()
        invariant
            k <= e.children@.len(),
            e@.children.len() == e.children@.len(),
            e@.children == nodes_view(e.children@),
            e@.attrs == attrs_view(e.attrs@),
            (match sp_doc_attrs(
                e@.attrs,
                0,
                DocAttrsV { doc_type: None, edit: None, level: None, lockstructure: None },
            ) {
                Ok(dav) => dav == da@ && dav.level == Some(level),
                Err(_) => false,
            }),
            sp_doc_children(
                e@.children,
                0,
                DocAccV { doc_info: None, frag_info: Seq::empty(), sections: Seq::empty() },
            ) == sp_doc_children(e@.children, k as int, acc@),
        decreases e.children@.len() - k,
    {
        proof {
            crate::xml::lemma_nodes_view_index(e.children@, k as int);
        }
        match &e.children[k] {
            XmlNode::Text(_) => {},
            XmlNode::Elem(c) => {
                if chars_eq_str(&c.name, "documentinfo") {
                    match de_docinfo(c) {
                        Err(er) => {
                            return Err(er);
                        },
                        Ok(d) => {
                            acc.doc_info = Some(d);
                        },
                    }
                } else if chars_eq_str(&c.name, "fragmentinfo") {
                    match de_locators(c) {
                        Err(er) => {
                            return Err(er);
                        },
                        Ok(ls) => {
                            let ghost fi0 = acc.frag_info@;
                            let ghost lsv = ls@;
                            let mut more = ls;
                            acc.frag_info.append(&mut more);
                            proof {
                                assert(locators_view(fi0 + lsv) =~= locators_view(fi0)
                                    + locators_view(lsv));
                            }
                        },
                    }
                } else if chars_eq_str(&c.name, "section") {
                    match de_section(c) {
                        Err(er) => {
                            return Err(er);
                        },
                        Ok(s) => {
                            let sid = str_to_chars(s.id.as_str());
                            if sections_have_id(&acc.sections, &sid) {
                                return Err(
                                    DecodeError::StructuralError {
                                        tag: s.id,
                                        context: String::from_str("document"),
                                    },
                                );
                            }
                            let ghost s0 = acc.sections@;
                            let ghost sv = s@;
                            acc.sections.push(s);
                            proof {
                                assert(sections_view(acc.sections@) =~= sections_view(s0).push(sv));
                            }
                        },
                    }
                } else {
                    return Err(
                        DecodeError::StructuralError {
                            tag: chars_to_string(&c.name),
                            context: String::from_str("document"),
                        },
                    );
                }
            },
        }
        k = k + 1;
    }
    Ok(
        Document {
            doc_info: acc.doc_info,
            frag_info: acc.frag_info,
            sections: acc.sections,
            doc_type: da.doc_type,
            edit: da.edit,
            level,
            lockstructure: da.lockstructure,
        },
    )
}

/// One locator written back: its fragment id attribute, self-closing.
pub open spec fn sp_en_locator(l: LocatorV) -> XmlElemV {
    XmlElemV {
        name: "locator"@,
        attrs: sp_opt_attr("fragment"@, l.fragment_id),
        children: Seq::empty(),
    }
}

pub open spec fn sp_en_locators(ls: Seq<LocatorV>, i: int) -> Seq<XmlNodeV>
    decreases ls.len() - i,
{
    if !(0 <= i < ls.len()) {
        Seq::empty()
    } else {
        seq![XmlNodeV::Elem(sp_en_locator(ls[i]))] + sp_en_locators(ls, i + 1)
    }
}

pub open spec fn sp_en_sections(ss: Seq<SectionV>, i: int) -> Seq<XmlNodeV>
    decreases ss.len() - i,
{
    if !(0 <= i < ss.len()) {
        Seq::empty()
    } else {
        seq![XmlNodeV::Elem(sp_en_section(ss[i]))] + sp_en_sections(ss, i + 1)
    }
}

/// A document written back: metadata first, then the fragment locators where
/// there are any, then the sections in order; `level` is always named.
pub open spec fn sp_en_document(d: DocumentV) -> XmlElemV {
    XmlElemV {
        name: "document"@,
        attrs: sp_opt_attr("type"@, d.doc_type) + sp_opt_bool_attr("edit"@, d.edit) + sp_attr1(
            "level"@,
            sp_level_str(d.level),
        ) + sp_opt_bool_attr("lockstructure"@, d.lockstructure),
        children: (match d.doc_info {
            Some(i) => seq![XmlNodeV::Elem(sp_en_docinfo(i))],
            None => Seq::empty(),
        }) + (if d.frag_info.len() > 0 {
            seq![
                XmlNodeV::Elem(
                    XmlElemV {
                        name: "fragmentinfo"@,
                        attrs: Seq::empty(),
                        children: sp_en_locators(d.frag_info, 0),
                    },
                ),
            ]
        } else {
            Seq::empty()
        }) + sp_en_sections(d.sections, 0),
    }
}

/// Encodes a document as its element.
pub fn en_document(d: &Document) -> (r: XmlElem)
    ensures
        r@ == sp_en_document(d@),
{
    let mut attrs: Vec<XmlAttr> = Vec::new();
    proof {
        assert(attrs_view(attrs@) =~= Seq::<XmlAttrV>::empty());
    }
    push_opt_attr(&mut attrs, "type", &d.doc_type);
    push_opt_bool_attr(&mut attrs, "edit", &d.edit);
    push_attr(&mut attrs, "level", str_to_chars(d.level.to_str()));
    push_opt_bool_attr(&mut attrs, "lockstructure", &d.lockstructure);
    let mut children: Vec<XmlNode> = Vec::new();
    match &d.doc_info {
        Some(info) => {
            let ghost c0 = children@;
            let ie = en_docinfo(info);
            children.push(XmlNode::Elem(ie));
            proof {
                crate::xml::lemma_nodes_view_push(c0, children@[c0.len() as int]);
            }
        },
        None => {},
    }
    proof {
        assert(locators_view(d.frag_info@).len() == d.frag_info@.len());
    }
    if d.frag_info.len() > 0 {
        let mut lchildren: Vec<XmlNode> = Vec::new();
        let ghost lv = locators_view(d.frag_info@);
        let mut q: usize = 0;
        proof {
            assert(nodes_view(lchildren@) =~= Seq::<XmlNodeV>::empty());
            assert(Seq::<XmlNodeV>::empty() + sp_en_locators(lv, 0) =~= sp_en_locators(lv, 0));
        }
        while q < d.frag_info.len()
            invariant
                q <= d.frag_info@.len(),
                lv == locators_view(d.frag_info@),
                lv.len() == d.frag_info@.len(),
                sp_en_locators(lv, 0) == nodes_view(lchildren@) + sp_en_locators(lv, q as int),
            decreases d.frag_info@.len() - q,
        {
            let ghost c0 = lchildren@;
            proof {
                assert(lv[q as int] == locator_view(d.frag_info@[q as int]));
            }
            let mut lattrs: Vec<XmlAttr> = Vec::new();
            proof {
                assert(attrs_view(lattrs@) =~= Seq::<XmlAttrV>::empty());
            }
            push_opt_attr(&mut lattrs, "fragment", &d.frag_info[q].fragment_id);
            let le = XmlElem { name: str_to_chars("locator"), attrs: lattrs, children: Vec::new() };
            proof {
                assert(nodes_view(le.children@) =~= Seq::<XmlNodeV>::empty());
                assert(attrs_view(le.attrs@) =~= sp_en_locator(lv[q as int]).attrs);
            }
            lchildren.push(XmlNode::Elem(le));
            proof {
                crate::xml::lemma_nodes_view_push(c0, lchildren@[c0.len() as int]);
                assert(nodes_view(lchildren@) =~= nodes_view(c0) + seq![
                    XmlNodeV::Elem(sp_en_locator(lv[q as int])),
                ]);
                assert(nodes_view(c0) + (seq![XmlNodeV::Elem(sp_en_locator(lv[q as int]))]
                    + sp_en_locators(lv, q as int + 1)) =~= nodes_view(lchildren@)
                    + sp_en_locators(lv, q as int + 1));
            }
            q = q + 1;
        }
        proof {
            assert(sp_en_locators(lv, q as int) == Seq::<XmlNodeV>::empty());
            assert(nodes_view(lchildren@) + Seq::<XmlNodeV>::empty() =~= nodes_view(lchildren@));
        }
        let fe = XmlElem {
            name: str_to_chars("fragmentinfo"),
            attrs: Vec::new(),
            children: lchildren,
        };
        proof {
            assert(attrs_view(fe.attrs@) =~= Seq::<XmlAttrV>::empty());
        }
        let ghost c0 = children@;
        children.push(XmlNode::Elem(fe));
        proof {
            crate::xml::lemma_nodes_view_push(c0, children@[c0.len() as int]);
        }
    }
    let ghost head = nodes_view(children@);
    let ghost sv = sections_view(d.sections@);
    let mut i: usize = 0;
    proof {
        assert(sv.len() == d.sections@.len());
        assert(head + Seq::<XmlNodeV>::empty() =~= head);
        assert(Seq::<XmlNodeV>::empty() + sp_en_sections(sv, 0) =~= sp_en_sections(sv, 0));
    }
    while i < d.sections.len()
        invariant
            i <= d.sections@.len(),
            sv == sections_view(d.sections@),
            sv.len() == d.sections@.len(),
            head + sp_en_sections(sv, 0) == nodes_view(children@) + sp_en_sections(sv, i as int),
        decreases d.sections@.len() - i,
    {
        let ghost c0 = children@;
        proof {
            assert(sv[i as int] == section_view(d.sections@[i as int]));
        }
        let se = en_section(&d.sections[i]);
        children.push(XmlNode::Elem(se));
        proof {
            crate::xml::lemma_nodes_view_push(c0, children@[c0.len() as int]);
            assert(nodes_view(children@) =~= nodes_view(c0) + seq![
                XmlNodeV::Elem(sp_en_section(sv[i as int])),
            ]);
            assert(nodes_view(c0) + (seq![XmlNodeV::Elem(sp_en_section(sv[i as int]))]
                + sp_en_sections(sv, i as int + 1)) =~= nodes_view(children@) + sp_en_sections(
                sv,
                i as int + 1,
            ));
        }
        i = i + 1;
    }
    proof {
        assert(sp_en_sections(sv, i as int) == Seq::<XmlNodeV>::empty());
        assert(nodes_view(children@) + Seq::<XmlNodeV>::empty() =~= nodes_view(children@));
    }
    let r = XmlElem { name: str_to_chars("document"), attrs, children };
    proof {
        assert(attrs_view(r.attrs@) =~= sp_en_document(d@).attrs);
        assert(nodes_view(r.children@) =~= sp_en_document(d@).children);
    }
    r
}

/// A whole buffer decoded as a document.
pub open spec fn sp_document_from_psml(s: Seq<char>) -> Result<DocumentV, DecodeErrorView> {
    match sp_psml_elem(s, "document"@) {
        Err(er) => Err(er),
        Ok(e) => sp_de_document(e),
    }
}

impl Document {
    /// Decodes the first `document` element of the buffer.
    pub fn from_psml(s: &str) -> (r: Result<Document, DecodeError>)
        ensures
            match (r, sp_document_from_psml(s@)) {
                (Ok(d), Ok(dv)) => d@ == dv,
                (Err(er), Err(ev)) => er@ == ev,
                _ => false,
            },
    {
        let cs = str_to_chars(s);
        match crate::xml::lex_forest(&cs) {
            Err(er) => Err(er),
            Ok(ns) => match find_elem(&ns, "document") {
                Some(e) => de_document(e),
                None => Err(
                    DecodeError::StructuralError {
                        tag: String::from_str("document"),
                        context: String::new(),
                    },
                ),
            },
        }
    }

    /// Encodes this document as a self-contained buffer.
    pub fn to_psml(&self) -> (r: String)
        ensures
            r@ == crate::xml::sp_write_node(XmlNodeV::Elem(sp_en_document(self@))),
    {
        let e = en_document(self);
        let mut out: Vec<char> = Vec::new();
        crate::xml::write_node(&mut out, &XmlNode::Elem(e));
        chars_to_string(&out)
    }
}

// ---------- laws ----------

/// Encoding a multi-valued property never uses the `value` attribute
/// shortcut: every attribute it writes has another name, and the values stand
/// as nested elements.
pub proof fn lemma_multi_value_never_attribute(p: PropertyV)
    requires
        p.multiple,
    ensures
        forall|k: int|
            0 <= k < sp_en_property(p).attrs.len() ==> (#[trigger] sp_en_property(
                p,
            ).attrs[k]).name != "value"@,
        sp_en_property(p).children == sp_en_values(p.values, 0),
{
    broadcast use vstd::string::group_string_axioms;

    reveal_strlit("name");
    reveal_strlit("title");
    reveal_strlit("multiple");
    reveal_strlit("datatype");
    reveal_strlit("value");
    assert("name"@.len() == 4);
    assert("title"@.len() == 5);
    assert("multiple"@.len() == 8);
    assert("datatype"@.len() == 8);
    assert("value"@.len() == 5);
    assert("title"@[0] == 't');
    assert("value"@[0] == 'v');
    assert(!sp_prop_shortcut(p));
    let a1 = sp_attr1("name"@, p.name);
    let a2 = sp_opt_attr("title"@, p.title);
    let a3 = sp_attr1("multiple"@, "true"@);
    let a4 = if p.datatype != PropertyDatatype::String {
        sp_attr1("datatype"@, sp_datatype_str(p.datatype))
    } else {
        Seq::<XmlAttrV>::empty()
    };
    let attrs = sp_en_property(p).attrs;
    assert(attrs == a1 + a2 + a3 + a4);
    assert forall|k: int| 0 <= k < attrs.len() implies (#[trigger] attrs[k]).name != "value"@ by {
        assert(attrs[k].name == "name"@ || attrs[k].name == "title"@ || attrs[k].name
            == "multiple"@ || attrs[k].name == "datatype"@);
    }
}

/// Decoding leaves the display kind at its default wherever the markup names
/// none.
proof fn lemma_absent_display_defaults(attrs: Seq<XmlAttrV>, i: int, acc: XRefV)
    requires
        forall|k: int| i <= k < attrs.len() ==> (#[trigger] attrs[k]).name != "display"@,
    ensures
        match sp_xref_attrs(attrs, i, acc) {
            Ok(x) => x.display == acc.display,
            Err(_) => true,
        },
    decreases attrs.len() - i,
{
    if 0 <= i < attrs.len() {
        let a = attrs[i];
        if a.name == "uriid"@ {
            lemma_absent_display_defaults(attrs, i + 1, XRefV { uriid: Some(a.value), ..acc });
        } else if a.name == "docid"@ {
            lemma_absent_display_defaults(attrs, i + 1, XRefV { docid: Some(a.value), ..acc });
        } else if a.name == "href"@ {
            lemma_absent_display_defaults(attrs, i + 1, XRefV { href: Some(a.value), ..acc });
        } else if a.name == "config"@ {
            lemma_absent_display_defaults(attrs, i + 1, XRefV { config: Some(a.value), ..acc });
        } else if a.name == "display"@ {
            assert(false);
        } else if a.name == "frag"@ {
            lemma_absent_display_defaults(attrs, i + 1, XRefV { frag_id: a.value, ..acc });
        } else if a.name == "labels"@ {
            lemma_absent_display_defaults(
                attrs,
                i + 1,
                XRefV { labels: sp_split_commas(a.value), ..acc },
            );
        } else if a.name == "level"@ {
            lemma_absent_display_defaults(attrs, i + 1, XRefV { level: Some(a.value), ..acc });
        } else if a.name == "reverselink"@ {
            match sp_bool_of(a.value) {
                Some(b) => lemma_absent_display_defaults(
                    attrs,
                    i + 1,
                    XRefV { reverselink: b, ..acc },
                ),
                None => {},
            }
        } else if a.name == "reversetitle"@ {
            lemma_absent_display_defaults(
                attrs,
                i + 1,
                XRefV { reversetitle: Some(a.value), ..acc },
            );
        } else if a.name == "title"@ {
            lemma_absent_display_defaults(attrs, i + 1, XRefV { title: Some(a.value), ..acc });
        } else if a.name == "type"@ {
            match sp_xref_kind_of(a.value) {
                Some(k) => lemma_absent_display_defaults(
                    attrs,
                    i + 1,
                    XRefV { xref_type: Some(k), ..acc },
                ),
                None => {},
            }
        } else {
            lemma_absent_display_defaults(attrs, i + 1, acc);
        }
    }
}

/// Default elision, decode side: a cross-reference decoded from an element
/// naming no `display` attribute carries the default display kind.
pub proof fn lemma_default_display_decoded(e: XmlElemV, x: XRefV)
    requires
        forall|k: int| 0 <= k < e.attrs.len() ==> (#[trigger] e.attrs[k]).name != "display"@,
        sp_de_xref(e) == Ok::<XRefV, DecodeErrorView>(x),
    ensures
        x.display == XRefDisplayKind::Document,
{
    lemma_absent_display_defaults(e.attrs, 0, sp_default_xref());
}

/// Default elision, encode side: encoding a cross-reference whose display
/// kind is the default writes no `display` attribute.
#[verifier::rlimit(100)]
pub proof fn lemma_default_display_elided(x: XRefV)
    requires
        x.display == XRefDisplayKind::Document,
    ensures
        forall|k: int|
            0 <= k < sp_en_xref(x).attrs.len() ==> (#[trigger] sp_en_xref(x).attrs[k]).name
                != "display"@,
{
    broadcast use vstd::string::group_string_axioms;

    reveal_strlit("uriid");
    reveal_strlit("docid");
    reveal_strlit("href");
    reveal_strlit("config");
    reveal_strlit("display");
    reveal_strlit("frag");
    reveal_strlit("labels");
    reveal_strlit("level");
    reveal_strlit("reverselink");
    reveal_strlit("reversetitle");
    reveal_strlit("title");
    reveal_strlit("type");
    assert("uriid"@.len() == 5);
    assert("docid"@.len() == 5);
    assert("href"@.len() == 4);
    assert("config"@.len() == 6);
    assert("display"@.len() == 7);
    assert("frag"@.len() == 4);
    assert("labels"@.len() == 6);
    assert("level"@.len() == 5);
    assert("reverselink"@.len() == 11);
    assert("reversetitle"@.len() == 12);
    assert("title"@.len() == 5);
    assert("type"@.len() == 4);
    let attrs = sp_en_xref(x).attrs;
    assert forall|k: int| 0 <= k < attrs.len() implies (#[trigger] attrs[k]).name != "display"@ by {
        assert(attrs[k].name == "uriid"@ || attrs[k].name == "docid"@ || attrs[k].name == "href"@
            || attrs[k].name == "config"@ || attrs[k].name == "frag"@ || attrs[k].name
            == "labels"@ || attrs[k].name == "level"@ || attrs[k].name == "reverselink"@
            || attrs[k].name == "reversetitle"@ || attrs[k].name == "title"@ || attrs[k].name
            == "type"@);
    }
}

proof fn lemma_en_scs_len(cs: Seq<SectionContentV>, i: int)
    requires
        0 <= i <= cs.len(),
    ensures
        sp_en_scs(cs, i).len() == cs.len() - i,
    decreases cs.len() - i,
{
    if i < cs.len() {
        lemma_en_scs_len(cs, i + 1);
    }
}

proof fn lemma_en_scs_index(cs: Seq<SectionContentV>, i: int, k: int)
    requires
        0 <= i <= k < cs.len(),
    ensures
        sp_en_scs(cs, i)[k - i] == sp_en_sc(cs[k]),
    decreases k - i,
{
    lemma_en_scs_len(cs, i + 1);
    if i < k {
        lemma_en_scs_index(cs, i + 1, k);
    }
}

/// Order preservation: a section's content is written back entry for entry,
/// in its order — the fragment at position `k` of the model stands at
/// position `k` of the serialized children, after the optional content title.
pub proof fn lemma_section_order_preserved(s: SectionV, k: int)
    requires
        0 <= k < s.content.len(),
    ensures
        sp_en_section(s).children.len() == s.content.len() + (if s.content_title is Some {
            1int
        } else {
            0int
        }),
        sp_en_section(s).children[k + (if s.content_title is Some {
            1int
        } else {
            0int
        })] == sp_en_sc(s.content[k]),
{
    lemma_en_scs_len(s.content, 0);
    lemma_en_scs_index(s.content, 0, k);
}

/// Round trip for publications: decoding what the encoder wrote gives back
/// the same publication.
pub proof fn lemma_publication_round_trip(p: PublicationV)
    ensures
        sp_de_publication(sp_en_publication(p)) == Ok::<PublicationV, DecodeErrorView>(p),
{
    broadcast use vstd::string::group_string_axioms;

    reveal_strlit("id");
    reveal_strlit("type");
    assert("id"@.len() == 2);
    assert("type"@.len() == 4);
    let e = sp_en_publication(p);
    assert(sp_first_elem_child(e.children, 0) is None);
    let init = PubAttrsV { id: None, pub_type: None };
    match p.pub_type {
        Some(t) => {
            assert(e.attrs.len() == 2);
            assert(e.attrs[0] == XmlAttrV { name: "id"@, value: p.id });
            assert(e.attrs[1] == XmlAttrV { name: "type"@, value: t });
            assert(sp_pub_attrs(e.attrs, 0, init) == sp_pub_attrs(
                e.attrs,
                1,
                PubAttrsV { id: Some(p.id), pub_type: None },
            ));
            assert(sp_pub_attrs(e.attrs, 1, PubAttrsV { id: Some(p.id), pub_type: None })
                == sp_pub_attrs(e.attrs, 2, PubAttrsV { id: Some(p.id), pub_type: Some(t) }));
            assert(sp_pub_attrs(e.attrs, 2, PubAttrsV { id: Some(p.id), pub_type: Some(t) })
                == PubAttrsV { id: Some(p.id), pub_type: Some(t) });
        },
        None => {
            assert(e.attrs.len() == 1);
            assert(e.attrs[0] == XmlAttrV { name: "id"@, value: p.id });
            assert(sp_pub_attrs(e.attrs, 0, init) == PubAttrsV { id: Some(p.id), pub_type: None });
        },
    }
}

proof fn lemma_prop_attrs_shift(s: Seq<XmlAttrV>, j: int, acc: PropAttrsV)
    requires
        0 <= j,
        s.len() > 0,
    ensures
        sp_prop_attrs(s, j + 1, acc) == sp_prop_attrs(s.drop_first(), j, acc),
    decreases s.len() - j,
{
    if j + 1 < s.len() {
        let a = s[j + 1];
        assert(s.drop_first()[j] == a);
        if a.name == "name"@ {
            lemma_prop_attrs_shift(s, j + 1, PropAttrsV { name: Some(a.value), ..acc });
        } else if a.name == "title"@ {
            lemma_prop_attrs_shift(s, j + 1, PropAttrsV { title: Some(a.value), ..acc });
        } else if a.name == "multiple"@ {
            match sp_bool_of(a.value) {
                Some(b) => lemma_prop_attrs_shift(s, j + 1, PropAttrsV { multiple: b, ..acc }),
                None => {},
            }
        } else if a.name == "datatype"@ {
            match sp_datatype_of(a.value) {
                Some(d) => lemma_prop_attrs_shift(s, j + 1, PropAttrsV { datatype: d, ..acc }),
                None => {},
            }
        } else if a.name == "value"@ {
            lemma_prop_attrs_shift(s, j + 1, PropAttrsV { value: Some(a.value), ..acc });
        } else {
            lemma_prop_attrs_shift(s, j + 1, acc);
        }
    }
}

/// The property attribute fold distributes over concatenation.
proof fn lemma_prop_attrs_app(a: Seq<XmlAttrV>, b: Seq<XmlAttrV>, acc: PropAttrsV)
    ensures
        sp_prop_attrs(a + b, 0, acc) == (match sp_prop_attrs(a, 0, acc) {
            Ok(m) => sp_prop_attrs(b, 0, m),
            Err(e) => Err(e),
        }),
    decreases a.len(),
{
    if a.len() == 0 {
        assert(a + b =~= b);
    } else {
        let s = a + b;
        assert(s.len() > 0);
        assert(s[0] == a[0]);
        assert(s.drop_first() =~= a.drop_first() + b);
        let x = s[0];
        if x.name == "name"@ {
            let acc2 = PropAttrsV { name: Some(x.value), ..acc };
            lemma_prop_attrs_shift(s, 0, acc2);
            lemma_prop_attrs_app(a.drop_first(), b, acc2);
            lemma_prop_attrs_shift(a, 0, acc2);
        } else if x.name == "title"@ {
            let acc2 = PropAttrsV { title: Some(x.value), ..acc };
            lemma_prop_attrs_shift(s, 0, acc2);
            lemma_prop_attrs_app(a.drop_first(), b, acc2);
            lemma_prop_attrs_shift(a, 0, acc2);
        } else if x.name == "multiple"@ {
            match sp_bool_of(x.value) {
                Some(bv) => {
                    let acc2 = PropAttrsV { multiple: bv, ..acc };
                    lemma_prop_attrs_shift(s, 0, acc2);
                    lemma_prop_attrs_app(a.drop_first(), b, acc2);
                    lemma_prop_attrs_shift(a, 0, acc2);
                },
                None => {},
            }
        } else if x.name == "datatype"@ {
            match sp_datatype_of(x.value) {
                Some(d) => {
                    let acc2 = PropAttrsV { datatype: d, ..acc };
                    lemma_prop_attrs_shift(s, 0, acc2);
                    lemma_prop_attrs_app(a.drop_first(), b, acc2);
                    lemma_prop_attrs_shift(a, 0, acc2);
                },
                None => {},
            }
        } else if x.name == "value"@ {
            let acc2 = PropAttrsV { value: Some(x.value), ..acc };
            lemma_prop_attrs_shift(s, 0, acc2);
            lemma_prop_attrs_app(a.drop_first(), b, acc2);
            lemma_prop_attrs_shift(a, 0, acc2);
        } else {
            lemma_prop_attrs_shift(s, 0, acc);
            lemma_prop_attrs_app(a.drop_first(), b, acc);
            lemma_prop_attrs_shift(a, 0, acc);
        }
    }
}

proof fn lemma_values_string_shift(ns: Seq<XmlNodeV>, j: int, acc: Seq<PropertyValueV>, ctx: Seq<char>)
    requires
        0 <= j,
        ns.len() > 0,
    ensures
        sp_prop_values_string(ns, j + 1, acc, ctx) == sp_prop_values_string(
            ns.drop_first(),
            j,
            acc,
            ctx,
        ),
    decreases ns.len() - j,
{
    if j + 1 < ns.len() {
        assert(ns.drop_first()[j] == ns[j + 1]);
        match ns[j + 1] {
            XmlNodeV::Text(_) => {
                lemma_values_string_shift(ns, j + 1, acc, ctx);
            },
            XmlNodeV::Elem(c) => {
                if c.name == "value"@ {
                    match sp_text_content(c.children, 0, Seq::empty(), ctx) {
                        Err(_) => {},
                        Ok(t) => {
                            lemma_values_string_shift(
                                ns,
                                j + 1,
                                acc.push(PropertyValueV::String(t)),
                                ctx,
                            );
                        },
                    }
                }
            },
        }
    }
}

proof fn lemma_en_values_shift(vs: Seq<PropertyValueV>, j: int)
    requires
        0 <= j,
        vs.len() > 0,
    ensures
        sp_en_values(vs, j + 1) == sp_en_values(vs.drop_first(), j),
    decreases vs.len() - j,
{
    if j + 1 < vs.len() {
        assert(vs.drop_first()[j] == vs[j + 1]);
        lemma_en_values_shift(vs, j + 1);
    }
}

/// Reading back the written values of a string- or date-typed property gives
/// the same values, appended to whatever was already read.
proof fn lemma_en_values_string_decode(
    vs: Seq<PropertyValueV>,
    acc: Seq<PropertyValueV>,
    ctx: Seq<char>,
)
    requires
        forall|k: int| 0 <= k < vs.len() ==> (#[trigger] vs[k]) is String,
    ensures
        sp_prop_values_string(sp_en_values(vs, 0), 0, acc, ctx) == Ok::<_, DecodeErrorView>(
            acc + vs,
        ),
    decreases vs.len(),
{
    if vs.len() == 0 {
        assert(sp_en_values(vs, 0) == Seq::<XmlNodeV>::empty());
        assert(acc + vs =~= acc);
    } else {
        let ns = sp_en_values(vs, 0);
        let head = sp_en_value(vs[0]);
        assert(vs[0] is String);
        let t = vs[0]->String_0;
        assert(head.len() == 1);
        assert(ns == head + sp_en_values(vs, 1));
        assert(ns.len() > 0);
        assert(ns[0] == head[0]);
        match ns[0] {
            XmlNodeV::Elem(c) => {
                assert(c.name == "value"@);
                if t.len() == 0 {
                    assert(c.children.len() == 0);
                    assert(sp_text_content(c.children, 0, Seq::empty(), ctx)
                        == Ok::<_, DecodeErrorView>(Seq::<char>::empty()));
                    assert(Seq::<char>::empty() =~= t);
                } else {
                    assert(c.children == seq![XmlNodeV::Text(t)]);
                    assert(sp_text_content(c.children, 0, Seq::empty(), ctx) == sp_text_content(
                        c.children,
                        1,
                        Seq::<char>::empty() + t,
                        ctx,
                    ));
                    assert(Seq::<char>::empty() + t =~= t);
                }
                assert(sp_text_content(c.children, 0, Seq::empty(), ctx)
                    == Ok::<_, DecodeErrorView>(t));
                lemma_values_string_shift(ns, 0, acc.push(PropertyValueV::String(t)), ctx);
                assert(ns.drop_first() =~= sp_en_values(vs, 1));
                lemma_en_values_shift(vs, 0);
                assert(sp_en_values(vs, 1) == sp_en_values(vs.drop_first(), 0));
                lemma_en_values_string_decode(
                    vs.drop_first(),
                    acc.push(PropertyValueV::String(t)),
                    ctx,
                );
                assert(PropertyValueV::String(t) == vs[0]);
                assert(acc.push(vs[0]) + vs.drop_first() =~= acc + vs);
            },
            XmlNodeV::Text(_) => {
                assert(false);
            },
        }
    }
}

/// A string- or date-typed property whose shape the decoder could have
/// produced: plain values only, and several values only where the property is
/// multi-valued.
pub open spec fn wf_string_property(p: PropertyV) -> bool {
    &&& (p.datatype == PropertyDatatype::String || p.datatype == PropertyDatatype::Date)
    &&& forall|k: int| 0 <= k < p.values.len() ==> (#[trigger] p.values[k]) is String
    &&& (p.values.len() > 1 ==> p.multiple)
}

/// Round trip for string- and date-typed properties: decoding what the
/// encoder wrote — whether it chose the attribute shortcut or nested value
/// elements — gives back the same property.
#[verifier::rlimit(100)]
pub proof fn lemma_string_property_round_trip(p: PropertyV)
    requires
        wf_string_property(p),
    ensures
        sp_de_property(sp_en_property(p)) == Ok::<PropertyV, DecodeErrorView>(p),
{
    broadcast use vstd::string::group_string_axioms;

    reveal_strlit("name");
    reveal_strlit("title");
    reveal_strlit("multiple");
    reveal_strlit("datatype");
    reveal_strlit("value");
    reveal_strlit("true");
    assert("name"@.len() == 4);
    assert("title"@.len() == 5);
    assert("multiple"@.len() == 8);
    assert("datatype"@.len() == 8);
    assert("value"@.len() == 5);
    assert("true"@.len() == 4);
    assert("title"@[0] == 't');
    assert("value"@[0] == 'v');
    assert("name"@[0] == 'n');
    assert("true"@[0] == 't');
    assert("multiple"@[0] == 'm');
    assert("datatype"@[0] == 'd');
    crate::model::lemma_datatype_round_trip(p.datatype);
    let e = sp_en_property(p);
    let init = sp_default_prop_attrs();
    let a1 = sp_attr1("name"@, p.name);
    let a2 = sp_opt_attr("title"@, p.title);
    let a3 = if p.multiple {
        sp_attr1("multiple"@, "true"@)
    } else {
        Seq::<XmlAttrV>::empty()
    };
    let a4 = if p.datatype != PropertyDatatype::String {
        sp_attr1("datatype"@, sp_datatype_str(p.datatype))
    } else {
        Seq::<XmlAttrV>::empty()
    };
    let m1 = PropAttrsV { name: Some(p.name), ..init };
    assert(sp_prop_attrs(a1, 0, init) == Ok::<_, DecodeErrorView>(m1)) by {
        lemma_prop_attrs_shift(a1, 0, m1);
        assert(a1.drop_first() =~= Seq::<XmlAttrV>::empty());
    }
    let m2 = PropAttrsV { title: p.title, ..m1 };
    assert(sp_prop_attrs(a2, 0, m1) == Ok::<_, DecodeErrorView>(m2)) by {
        match p.title {
            Some(t) => {
                lemma_prop_attrs_shift(a2, 0, m2);
                assert(a2.drop_first() =~= Seq::<XmlAttrV>::empty());
            },
            None => {
                assert(m2 == m1);
            },
        }
    }
    let m3 = PropAttrsV { multiple: p.multiple, ..m2 };
    assert(sp_prop_attrs(a3, 0, m2) == Ok::<_, DecodeErrorView>(m3)) by {
        if p.multiple {
            assert(sp_bool_of("true"@) == Some(true));
            lemma_prop_attrs_shift(a3, 0, m3);
            assert(a3.drop_first() =~= Seq::<XmlAttrV>::empty());
        } else {
            assert(m3 == m2);
        }
    }
    let m4 = PropAttrsV { datatype: p.datatype, ..m3 };
    assert(sp_prop_attrs(a4, 0, m3) == Ok::<_, DecodeErrorView>(m4)) by {
        if p.datatype != PropertyDatatype::String {
            assert(sp_datatype_of(sp_datatype_str(p.datatype)) == Some(p.datatype));
            lemma_prop_attrs_shift(a4, 0, m4);
            assert(a4.drop_first() =~= Seq::<XmlAttrV>::empty());
        } else {
            assert(m4 == m3);
        }
    }
    let base = a1 + a2 + a3 + a4;
    assert(sp_prop_attrs(base, 0, init) == Ok::<_, DecodeErrorView>(m4)) by {
        lemma_prop_attrs_app(a1, a2 + a3 + a4, init);
        assert(a1 + (a2 + a3 + a4) =~= base);
        lemma_prop_attrs_app(a2, a3 + a4, m1);
        assert(a2 + (a3 + a4) =~= a2 + a3 + a4);
        lemma_prop_attrs_app(a3, a4, m2);
    }
    if sp_prop_shortcut(p) {
        let t = p.values[0]->String_0;
        let av = sp_attr1("value"@, t);
        let m5 = PropAttrsV { value: Some(t), ..m4 };
        assert(sp_prop_attrs(av, 0, m4) == Ok::<_, DecodeErrorView>(m5)) by {
            lemma_prop_attrs_shift(av, 0, m5);
            assert(av.drop_first() =~= Seq::<XmlAttrV>::empty());
        }
        assert(e.attrs == base + av);
        assert(sp_prop_attrs(e.attrs, 0, init) == Ok::<_, DecodeErrorView>(m5)) by {
            lemma_prop_attrs_app(base, av, init);
        }
        assert(!sp_has_elem_child(e.children, 0));
        assert(seq![PropertyValueV::String(t)] =~= p.values);
    } else {
        assert(e.attrs == base);
        assert(e.children == sp_en_values(p.values, 0));
        lemma_en_values_string_decode(p.values, Seq::empty(), p.name);
        assert(Seq::<PropertyValueV>::empty() + p.values =~= p.values);
        assert(m4.value is None);
        assert(sp_prop_values(e, p.datatype, p.name) == Ok::<_, DecodeErrorView>(p.values));
        assert(p.multiple || p.values.len() > 1 ==> p.multiple);
    }
}

proof fn lemma_xref_attrs_shift(s: Seq<XmlAttrV>, j: int, acc: XRefV)
    requires
        0 <= j,
        s.len() > 0,
    ensures
        sp_xref_attrs(s, j + 1, acc) == sp_xref_attrs(s.drop_first(), j, acc),
    decreases s.len() - j,
{
    if j + 1 < s.len() {
        let a = s[j + 1];
        assert(s.drop_first()[j] == a);
        if a.name == "uriid"@ {
            lemma_xref_attrs_shift(s, j + 1, XRefV { uriid: Some(a.value), ..acc });
        } else if a.name == "docid"@ {
            lemma_xref_attrs_shift(s, j + 1, XRefV { docid: Some(a.value), ..acc });
        } else if a.name == "href"@ {
            lemma_xref_attrs_shift(s, j + 1, XRefV { href: Some(a.value), ..acc });
        } else if a.name == "config"@ {
            lemma_xref_attrs_shift(s, j + 1, XRefV { config: Some(a.value), ..acc });
        } else if a.name == "display"@ {
            match sp_display_of(a.value) {
                Some(k) => lemma_xref_attrs_shift(s, j + 1, XRefV { display: k, ..acc }),
                None => {},
            }
        } else if a.name == "frag"@ {
            lemma_xref_attrs_shift(s, j + 1, XRefV { frag_id: a.value, ..acc });
        } else if a.name == "labels"@ {
            lemma_xref_attrs_shift(s, j + 1, XRefV { labels: sp_split_commas(a.value), ..acc });
        } else if a.name == "level"@ {
            lemma_xref_attrs_shift(s, j + 1, XRefV { level: Some(a.value), ..acc });
        } else if a.name == "reverselink"@ {
            match sp_bool_of(a.value) {
                Some(b) => lemma_xref_attrs_shift(s, j + 1, XRefV { reverselink: b, ..acc }),
                None => {},
            }
        } else if a.name == "reversetitle"@ {
            lemma_xref_attrs_shift(s, j + 1, XRefV { reversetitle: Some(a.value), ..acc });
        } else if a.name == "title"@ {
            lemma_xref_attrs_shift(s, j + 1, XRefV { title: Some(a.value), ..acc });
        } else if a.name == "type"@ {
            match sp_xref_kind_of(a.value) {
                Some(k) => lemma_xref_attrs_shift(s, j + 1, XRefV { xref_type: Some(k), ..acc }),
                None => {},
            }
        } else {
            lemma_xref_attrs_shift(s, j + 1, acc);
        }
    }
}

/// The cross-reference attribute fold distributes over concatenation, where
/// the left part folds cleanly.
proof fn lemma_xref_attrs_app(a: Seq<XmlAttrV>, b: Seq<XmlAttrV>, acc: XRefV, m: XRefV)
    requires
        sp_xref_attrs(a, 0, acc) == Ok::<XRefV, DecodeErrorView>(m),
    ensures
        sp_xref_attrs(a + b, 0, acc) == sp_xref_attrs(b, 0, m),
    decreases a.len(),
{
    if a.len() == 0 {
        assert(a + b =~= b);
        assert(m == acc);
    } else {
        let s = a + b;
        assert(s.len() > 0);
        assert(s[0] == a[0]);
        assert(s.drop_first() =~= a.drop_first() + b);
        let x = s[0];
        if x.name == "uriid"@ {
            let acc2 = XRefV { uriid: Some(x.value), ..acc };
            lemma_xref_attrs_shift(s, 0, acc2);
            lemma_xref_attrs_shift(a, 0, acc2);
            lemma_xref_attrs_app(a.drop_first(), b, acc2, m);
        } else if x.name == "docid"@ {
            let acc2 = XRefV { docid: Some(x.value), ..acc };
            lemma_xref_attrs_shift(s, 0, acc2);
            lemma_xref_attrs_shift(a, 0, acc2);
            lemma_xref_attrs_app(a.drop_first(), b, acc2, m);
        } else if x.name == "href"@ {
            let acc2 = XRefV { href: Some(x.value), ..acc };
            lemma_xref_attrs_shift(s, 0, acc2);
            lemma_xref_attrs_shift(a, 0, acc2);
            lemma_xref_attrs_app(a.drop_first(), b, acc2, m);
        } else if x.name == "config"@ {
            let acc2 = XRefV { config: Some(x.value), ..acc };
            lemma_xref_attrs_shift(s, 0, acc2);
            lemma_xref_attrs_shift(a, 0, acc2);
            lemma_xref_attrs_app(a.drop_first(), b, acc2, m);
        } else if x.name == "display"@ {
            match sp_display_of(x.value) {
                Some(k) => {
                    let acc2 = XRefV { display: k, ..acc };
                    lemma_xref_attrs_shift(s, 0, acc2);
                    lemma_xref_attrs_shift(a, 0, acc2);
                    lemma_xref_attrs_app(a.drop_first(), b, acc2, m);
                },
                None => {},
            }
        } else if x.name == "frag"@ {
            let acc2 = XRefV { frag_id: x.value, ..acc };
            lemma_xref_attrs_shift(s, 0, acc2);
            lemma_xref_attrs_shift(a, 0, acc2);
            lemma_xref_attrs_app(a.drop_first(), b, acc2, m);
        } else if x.name == "labels"@ {
            let acc2 = XRefV { labels: sp_split_commas(x.value), ..acc };
            lemma_xref_attrs_shift(s, 0, acc2);
            lemma_xref_attrs_shift(a, 0, acc2);
            lemma_xref_attrs_app(a.drop_first(), b, acc2, m);
        } else if x.name == "level"@ {
            let acc2 = XRefV { level: Some(x.value), ..acc };
            lemma_xref_attrs_shift(s, 0, acc2);
            lemma_xref_attrs_shift(a, 0, acc2);
            lemma_xref_attrs_app(a.drop_first(), b, acc2, m);
        } else if x.name == "reverselink"@ {
            match sp_bool_of(x.value) {
                Some(bv) => {
                    let acc2 = XRefV { reverselink: bv, ..acc };
                    lemma_xref_attrs_shift(s, 0, acc2);
                    lemma_xref_attrs_shift(a, 0, acc2);
                    lemma_xref_attrs_app(a.drop_first(), b, acc2, m);
                },
                None => {},
            }
        } else if x.name == "reversetitle"@ {
            let acc2 = XRefV { reversetitle: Some(x.value), ..acc };
            lemma_xref_attrs_shift(s, 0, acc2);
            lemma_xref_attrs_shift(a, 0, acc2);
            lemma_xref_attrs_app(a.drop_first(), b, acc2, m);
        } else if x.name == "title"@ {
            let acc2 = XRefV { title: Some(x.value), ..acc };
            lemma_xref_attrs_shift(s, 0, acc2);
            lemma_xref_attrs_shift(a, 0, acc2);
            lemma_xref_attrs_app(a.drop_first(), b, acc2, m);
        } else if x.name == "type"@ {
            match sp_xref_kind_of(x.value) {
                Some(k) => {
                    let acc2 = XRefV { xref_type: Some(k), ..acc };
                    lemma_xref_attrs_shift(s, 0, acc2);
                    lemma_xref_attrs_shift(a, 0, acc2);
                    lemma_xref_attrs_app(a.drop_first(), b, acc2, m);
                },
                None => {},
            }
        } else {
            lemma_xref_attrs_shift(s, 0, acc);
            lemma_xref_attrs_shift(a, 0, acc);
            lemma_xref_attrs_app(a.drop_first(), b, acc, m);
        }
    }
}

/// A cross-reference whose shape the decoder could have produced: its labels
/// hold no commas.
pub open spec fn wf_xref(x: XRefV) -> bool {
    forall|k: int, j: int|
        0 <= k < x.labels.len() && 0 <= j < x.labels[k].len() ==> #[trigger] x.labels[k][j] != ','
}

/// Round trip for inline cross-references: decoding what the encoder wrote —
/// defaults elided, the rest written out — gives back the same
/// cross-reference.
/// The attributes the encoder writes for the destination, display, fragment
/// and label fields, in order.
pub open spec fn sp_xref_front_attrs(x: XRefV) -> Seq<XmlAttrV> {
    sp_opt_attr("uriid"@, x.uriid) + sp_opt_attr("docid"@, x.docid) + sp_opt_attr("href"@, x.href)
        + sp_opt_attr("config"@, x.config) + (if x.display != XRefDisplayKind::Document {
        sp_attr1("display"@, sp_display_str(x.display))
    } else {
        Seq::empty()
    }) + (if x.frag_id != "default"@ {
        sp_attr1("frag"@, x.frag_id)
    } else {
        Seq::empty()
    })
}

/// The attributes the encoder writes after those: labels, level, links,
/// titles and the kind.
pub open spec fn sp_xref_back_attrs(x: XRefV) -> Seq<XmlAttrV> {
    (if x.labels.len() > 0 {
        sp_attr1("labels"@, sp_join_commas(x.labels))
    } else {
        Seq::<XmlAttrV>::empty()
    }) + sp_opt_attr("level"@, x.level) + (if !x.reverselink {
        sp_attr1("reverselink"@, "false"@)
    } else {
        Seq::empty()
    }) + sp_opt_attr("reversetitle"@, x.reversetitle) + sp_opt_attr("title"@, x.title) + (
    match x.xref_type {
        Some(k) => sp_attr1("type"@, sp_xref_kind_str(k)),
        None => Seq::empty(),
    })
}

/// The value the fold reaches after the front attributes.
pub open spec fn sp_xref_mid(x: XRefV) -> XRefV {
    XRefV {
        uriid: x.uriid,
        docid: x.docid,
        href: x.href,
        content: Seq::empty(),
        config: x.config,
        display: x.display,
        frag_id: x.frag_id,
        labels: Seq::empty(),
        level: None,
        reverselink: true,
        reversetitle: None,
        title: None,
        xref_type: None,
    }
}

#[verifier::rlimit(100)]
proof fn lemma_xref_attrs_front(x: XRefV)
    ensures
        sp_xref_attrs(sp_xref_front_attrs(x), 0, sp_default_xref()) == Ok::<
            XRefV,
            DecodeErrorView,
        >(sp_xref_mid(x)),
{
    broadcast use vstd::string::group_string_axioms;

    reveal_strlit("uriid");
    reveal_strlit("docid");
    reveal_strlit("href");
    reveal_strlit("config");
    reveal_strlit("display");
    reveal_strlit("frag");
    assert("uriid"@.len() == 5 && "uriid"@[0] == 'u');
    assert("docid"@.len() == 5 && "docid"@[0] == 'd');
    assert("href"@.len() == 4 && "href"@[0] == 'h');
    assert("config"@.len() == 6 && "config"@[0] == 'c');
    assert("display"@.len() == 7 && "display"@[0] == 'd');
    assert("frag"@.len() == 4 && "frag"@[0] == 'f');
    crate::model::lemma_display_round_trip(x.display);
    let d = sp_default_xref();
    let p1 = sp_opt_attr("uriid"@, x.uriid);
    let p2 = sp_opt_attr("docid"@, x.docid);
    let p3 = sp_opt_attr("href"@, x.href);
    let p4 = sp_opt_attr("config"@, x.config);
    let p5 = if x.display != XRefDisplayKind::Document {
        sp_attr1("display"@, sp_display_str(x.display))
    } else {
        Seq::<XmlAttrV>::empty()
    };
    let p6 = if x.frag_id != "default"@ {
        sp_attr1("frag"@, x.frag_id)
    } else {
        Seq::<XmlAttrV>::empty()
    };
    let m1 = XRefV { uriid: x.uriid, ..d };
    assert(sp_xref_attrs(p1, 0, d) == Ok::<XRefV, DecodeErrorView>(m1)) by {
        match x.uriid {
            Some(v) => {
                lemma_xref_attrs_shift(p1, 0, m1);
                assert(p1.drop_first() =~= Seq::<XmlAttrV>::empty());
            },
            None => {
                assert(m1 == d);
            },
        }
    }
    let m2 = XRefV { docid: x.docid, ..m1 };
    assert(sp_xref_attrs(p2, 0, m1) == Ok::<XRefV, DecodeErrorView>(m2)) by {
        match x.docid {
            Some(v) => {
                lemma_xref_attrs_shift(p2, 0, m2);
                assert(p2.drop_first() =~= Seq::<XmlAttrV>::empty());
            },
            None => {
                assert(m2 == m1);
            },
        }
    }
    let m3 = XRefV { href: x.href, ..m2 };
    assert(sp_xref_attrs(p3, 0, m2) == Ok::<XRefV, DecodeErrorView>(m3)) by {
        match x.href {
            Some(v) => {
                lemma_xref_attrs_shift(p3, 0, m3);
                assert(p3.drop_first() =~= Seq::<XmlAttrV>::empty());
            },
            None => {
                assert(m3 == m2);
            },
        }
    }
    let m4 = XRefV { config: x.config, ..m3 };
    assert(sp_xref_attrs(p4, 0, m3) == Ok::<XRefV, DecodeErrorView>(m4)) by {
        match x.config {
            Some(v) => {
                lemma_xref_attrs_shift(p4, 0, m4);
                assert(p4.drop_first() =~= Seq::<XmlAttrV>::empty());
            },
            None => {
                assert(m4 == m3);
            },
        }
    }
    let m5 = XRefV { display: x.display, ..m4 };
    assert(sp_xref_attrs(p5, 0, m4) == Ok::<XRefV, DecodeErrorView>(m5)) by {
        if x.display != XRefDisplayKind::Document {
            lemma_xref_attrs_shift(p5, 0, m5);
            assert(p5.drop_first() =~= Seq::<XmlAttrV>::empty());
        } else {
            assert(m5 == m4);
        }
    }
    let m6 = XRefV { frag_id: x.frag_id, ..m5 };
    assert(sp_xref_attrs(p6, 0, m5) == Ok::<XRefV, DecodeErrorView>(m6)) by {
        if x.frag_id != "default"@ {
            lemma_xref_attrs_shift(p6, 0, m6);
            assert(p6.drop_first() =~= Seq::<XmlAttrV>::empty());
        } else {
            assert(m6 == m5);
        }
    }
    lemma_xref_attrs_app(p5, p6, m4, m5);
    lemma_xref_attrs_app(p4, p5 + p6, m3, m4);
    assert(p4 + (p5 + p6) =~= p4 + p5 + p6);
    lemma_xref_attrs_app(p3, p4 + p5 + p6, m2, m3);
    assert(p3 + (p4 + p5 + p6) =~= p3 + p4 + p5 + p6);
    lemma_xref_attrs_app(p2, p3 + p4 + p5 + p6, m1, m2);
    assert(p2 + (p3 + p4 + p5 + p6) =~= p2 + p3 + p4 + p5 + p6);
    lemma_xref_attrs_app(p1, p2 + p3 + p4 + p5 + p6, d, m1);
    assert(p1 + (p2 + p3 + p4 + p5 + p6) =~= sp_xref_front_attrs(x));
    assert(m6 == sp_xref_mid(x));
}

#[verifier::rlimit(100)]
proof fn lemma_xref_attrs_back(x: XRefV)
    requires
        wf_xref(x),
    ensures
        sp_xref_attrs(sp_xref_back_attrs(x), 0, sp_xref_mid(x)) == Ok::<XRefV, DecodeErrorView>(
            XRefV { content: Seq::empty(), ..x },
        ),
{
    broadcast use vstd::string::group_string_axioms;

    reveal_strlit("uriid");
    reveal_strlit("docid");
    reveal_strlit("href");
    reveal_strlit("config");
    reveal_strlit("display");
    reveal_strlit("frag");
    reveal_strlit("labels");
    reveal_strlit("level");
    reveal_strlit("reverselink");
    reveal_strlit("reversetitle");
    reveal_strlit("title");
    reveal_strlit("type");
    reveal_strlit("false");
    assert("uriid"@.len() == 5 && "uriid"@[0] == 'u');
    assert("docid"@.len() == 5 && "docid"@[0] == 'd');
    assert("href"@.len() == 4 && "href"@[0] == 'h');
    assert("config"@.len() == 6 && "config"@[0] == 'c');
    assert("display"@.len() == 7 && "display"@[0] == 'd');
    assert("frag"@.len() == 4 && "frag"@[0] == 'f');
    assert("labels"@.len() == 6 && "labels"@[0] == 'l');
    assert("level"@.len() == 5 && "level"@[0] == 'l');
    assert("reverselink"@.len() == 11);
    assert("reversetitle"@.len() == 12);
    assert("title"@.len() == 5 && "title"@[0] == 't');
    assert("type"@.len() == 4 && "type"@[0] == 't');
    assert("false"@.len() == 5 && "false"@[0] == 'f');
    lemma_bool_round_trip(x.reverselink);
    let mid = sp_xref_mid(x);
    let p7 = if x.labels.len() > 0 {
        sp_attr1("labels"@, sp_join_commas(x.labels))
    } else {
        Seq::<XmlAttrV>::empty()
    };
    let p8 = sp_opt_attr("level"@, x.level);
    let p9 = if !x.reverselink {
        sp_attr1("reverselink"@, "false"@)
    } else {
        Seq::<XmlAttrV>::empty()
    };
    let p10 = sp_opt_attr("reversetitle"@, x.reversetitle);
    let p11 = sp_opt_attr("title"@, x.title);
    let p12 = match x.xref_type {
        Some(k) => sp_attr1("type"@, sp_xref_kind_str(k)),
        None => Seq::<XmlAttrV>::empty(),
    };
    let m7 = XRefV { labels: x.labels, ..mid };
    assert(sp_xref_attrs(p7, 0, mid) == Ok::<XRefV, DecodeErrorView>(m7)) by {
        if x.labels.len() > 0 {
            lemma_commas_round_trip(x.labels);
            lemma_xref_attrs_shift(p7, 0, m7);
            assert(p7.drop_first() =~= Seq::<XmlAttrV>::empty());
        } else {
            assert(x.labels =~= Seq::<Seq<char>>::empty());
            assert(m7 == mid);
        }
    }
    let m8 = XRefV { level: x.level, ..m7 };
    assert(sp_xref_attrs(p8, 0, m7) == Ok::<XRefV, DecodeErrorView>(m8)) by {
        match x.level {
            Some(v) => {
                lemma_xref_attrs_shift(p8, 0, m8);
                assert(p8.drop_first() =~= Seq::<XmlAttrV>::empty());
            },
            None => {
                assert(m8 == m7);
            },
        }
    }
    let m9 = XRefV { reverselink: x.reverselink, ..m8 };
    assert(sp_xref_attrs(p9, 0, m8) == Ok::<XRefV, DecodeErrorView>(m9)) by {
        if !x.reverselink {
            assert(sp_bool_of("false"@) == Some(false));
            lemma_xref_attrs_shift(p9, 0, m9);
            assert(p9.drop_first() =~= Seq::<XmlAttrV>::empty());
        } else {
            assert(m9 == m8);
        }
    }
    let m10 = XRefV { reversetitle: x.reversetitle, ..m9 };
    assert(sp_xref_attrs(p10, 0, m9) == Ok::<XRefV, DecodeErrorView>(m10)) by {
        match x.reversetitle {
            Some(v) => {
                lemma_xref_attrs_shift(p10, 0, m10);
                assert(p10.drop_first() =~= Seq::<XmlAttrV>::empty());
            },
            None => {
                assert(m10 == m9);
            },
        }
    }
    let m11 = XRefV { title: x.title, ..m10 };
    assert(sp_xref_attrs(p11, 0, m10) == Ok::<XRefV, DecodeErrorView>(m11)) by {
        match x.title {
            Some(v) => {
                lemma_xref_attrs_shift(p11, 0, m11);
                assert(p11.drop_first() =~= Seq::<XmlAttrV>::empty());
            },
            None => {
                assert(m11 == m10);
            },
        }
    }
    let m12 = XRefV { xref_type: x.xref_type, ..m11 };
    assert(sp_xref_attrs(p12, 0, m11) == Ok::<XRefV, DecodeErrorView>(m12)) by {
        match x.xref_type {
            Some(k) => {
                crate::model::lemma_xref_kind_round_trip(k);
                lemma_xref_attrs_shift(p12, 0, m12);
                assert(p12.drop_first() =~= Seq::<XmlAttrV>::empty());
            },
            None => {
                assert(m12 == m11);
            },
        }
    }
    lemma_xref_attrs_app(p11, p12, m10, m11);
    lemma_xref_attrs_app(p10, p11 + p12, m9, m10);
    assert(p10 + (p11 + p12) =~= p10 + p11 + p12);
    lemma_xref_attrs_app(p9, p10 + p11 + p12, m8, m9);
    assert(p9 + (p10 + p11 + p12) =~= p9 + p10 + p11 + p12);
    lemma_xref_attrs_app(p8, p9 + p10 + p11 + p12, m7, m8);
    assert(p8 + (p9 + p10 + p11 + p12) =~= p8 + p9 + p10 + p11 + p12);
    lemma_xref_attrs_app(p7, p8 + p9 + p10 + p11 + p12, mid, m7);
    assert(p7 + (p8 + p9 + p10 + p11 + p12) =~= sp_xref_back_attrs(x));
    assert(m12 == XRefV { content: Seq::<char>::empty(), ..x });
}

proof fn lemma_xref_attrs_encode(x: XRefV)
    requires
        wf_xref(x),
    ensures
        sp_xref_attrs(
            sp_xref_front_attrs(x) + sp_xref_back_attrs(x),
            0,
            sp_default_xref(),
        ) == Ok::<XRefV, DecodeErrorView>(XRefV { content: Seq::empty(), ..x }),
{
    lemma_xref_attrs_front(x);
    lemma_xref_attrs_back(x);
    lemma_xref_attrs_app(
        sp_xref_front_attrs(x),
        sp_xref_back_attrs(x),
        sp_default_xref(),
        sp_xref_mid(x),
    );
}

/// Round trip for inline cross-references: decoding what the encoder wrote —
/// defaults elided, the rest written out — gives back the same
/// cross-reference.
#[verifier::rlimit(100)]
#[verifier::spinoff_prover]
proof fn lemma_xref_attrs_shape(x: XRefV)
    ensures
        sp_en_xref(x).attrs == sp_xref_front_attrs(x) + sp_xref_back_attrs(x),
{
    assert(sp_en_xref(x).attrs =~= sp_xref_front_attrs(x) + sp_xref_back_attrs(x));
}

#[verifier::rlimit(100)]
pub proof fn lemma_xref_round_trip(x: XRefV)
    requires
        wf_xref(x),
    ensures
        sp_de_xref(sp_en_xref(x)) == Ok::<XRefV, DecodeErrorView>(x),
{
    broadcast use vstd::string::group_string_axioms;

    reveal_strlit("xref");
    lemma_xref_attrs_encode(x);
    lemma_xref_attrs_shape(x);
    let e = sp_en_xref(x);
    let m12 = XRefV { content: Seq::<char>::empty(), ..x };
    if x.content.len() == 0 {
        assert(e.children.len() == 0);
        assert(sp_text_content(e.children, 0, Seq::empty(), "xref"@) == Ok::<_, DecodeErrorView>(
            Seq::<char>::empty(),
        ));
        assert(XRefV { content: Seq::<char>::empty(), ..m12 } == x);
    } else {
        assert(e.children == seq![XmlNodeV::Text(x.content)]);
        assert(sp_text_content(e.children, 0, Seq::empty(), "xref"@) == sp_text_content(
            e.children,
            1,
            Seq::<char>::empty() + x.content,
            "xref"@,
        ));
        assert(Seq::<char>::empty() + x.content =~= x.content);
        assert(XRefV { content: x.content, ..m12 } == x);
    }
}

/// A deep copy of an element.
fn copy_elem(e: &XmlElem) -> (r: XmlElem)
    ensures
        r@ == e@,
    decreases *e,
{
    let mut name: Vec<char> = Vec::new();
    extend_chars(&mut name, &e.name);
    proof {
        assert(name@ =~= e.name@);
    }
    let mut attrs: Vec<XmlAttr> = Vec::new();
    let mut i: usize = 0;
    proof {
        crate::xml::lemma_attrs_view_len(e.attrs@);
        assert(attrs_view(attrs@) =~= attrs_view(e.attrs@).take(0));
    }
    while i < e.attrs.len()
        invariant
            i <= e.attrs@.len(),
            attrs_view(e.attrs@).len() == e.attrs@.len(),
            attrs_view(attrs@) == attrs_view(e.attrs@).take(i as int),
        decreases e.attrs@.len() - i,
    {
        let mut an: Vec<char> = Vec::new();
        extend_chars(&mut an, &e.attrs[i].name);
        let mut av: Vec<char> = Vec::new();
        extend_chars(&mut av, &e.attrs[i].value);
        proof {
            assert(an@ =~= e.attrs@[i as int].name@);
            assert(av@ =~= e.attrs@[i as int].value@);
        }
        let ghost a0 = attrs@;
        attrs.push(XmlAttr { name: an, value: av });
        proof {
            crate::xml::lemma_attrs_view_push(a0, attrs@[a0.len() as int]);
            assert(attrs_view(e.attrs@)[i as int] == e.attrs@[i as int]@);
            assert(attrs@[a0.len() as int]@ == e.attrs@[i as int]@);
            assert(attrs_view(attrs@) =~= attrs_view(e.attrs@).take(i as int + 1));
        }
        i = i + 1;
    }
    proof {
        assert(attrs_view(e.attrs@).take(e.attrs@.len() as int) =~= attrs_view(e.attrs@));
    }
    let children = copy_nodes(&e.children);
    XmlElem { name, attrs, children }
}

/// A deep copy of a node list.
fn copy_nodes(ns: &Vec<XmlNode>) -> (r: Vec<XmlNode>)
    ensures
        nodes_view(r@) == nodes_view(ns@),
    decreases ns@,
{
    let mut out: Vec<XmlNode> = Vec::new();
    let mut i: usize = 0;
    proof {
        crate::xml::lemma_nodes_view_len(ns@);
        assert(nodes_view(out@) =~= Seq::<XmlNodeV>::empty());
    }
    while i < ns.len()
        invariant
            i <= ns@.len(),
            nodes_view(ns@).len() == ns@.len(),
            nodes_view(out@).len() == i as int,
            forall|j: int|
                0 <= j < i as int ==> nodes_view(out@)[j] == nodes_view(ns@)[j],
            forall|j: int|
                0 <= j < ns@.len() ==> #[trigger] decreases_to!(ns@ => ns@[j]),
        decreases ns@.len() - i,
    {
        proof {
            crate::xml::lemma_nodes_view_index(ns@, i as int);
        }
        let ghost o0 = out@;
        match &ns[i] {
            XmlNode::Text(t) => {
                let mut tc: Vec<char> = Vec::new();
                extend_chars(&mut tc, t);
                proof {
                    assert(tc@ =~= t@);
                }
                out.push(XmlNode::Text(tc));
            },
            XmlNode::Elem(c) => {
                let copy = copy_elem(c);
                out.push(XmlNode::Elem(copy));
            },
        }
        proof {
            crate::xml::lemma_nodes_view_push(o0, out@[o0.len() as int]);
            crate::xml::lemma_nodes_view_len(out@);
            assert forall|j: int| 0 <= j < i as int + 1 implies nodes_view(out@)[j] == nodes_view(
                ns@,
            )[j] by {
                crate::xml::lemma_nodes_view_index(out@, j);
            }
        }
        i = i + 1;
    }
    proof {
        assert(nodes_view(out@) =~= nodes_view(ns@));
    }
    out
}

} // verus!
