use vstd::prelude::*;
use crate::lex::{ByteClass, run_end, lemma_run_end, lemma_run_end_of, is_digit, is_space, is_ident, in_class};
use crate::tags::{Tag, tag_seq, has_tag};
use crate::types::{ElementModel, Format, FormatKind, HeaderModel, PropertyKind, PropertyModel, ValueKind, Version};
use crate::header::{
    ParseError, spec_comment, spec_comments, spec_data_type, spec_data_type_from, spec_element,
    spec_elements, spec_format, spec_header, spec_identifier, spec_integer, spec_keyword,
    spec_properties, spec_property, spec_property_kind, spec_space, spec_version,
    spec_format_kind,
};
use crate::laws::{decimal, lemma_decimal};

verus! {

/// `t` stands in `s` from `p` on.
pub open spec fn at(s: Seq<u8>, p: int, t: Seq<u8>) -> bool {
    0 <= p && p + t.len() <= s.len() && s.subrange(p, p + t.len()) == t
}

proof fn lemma_at_split(s: Seq<u8>, p: int, a: Seq<u8>, b: Seq<u8>)
    requires
        at(s, p, a + b),
    ensures
        at(s, p, a),
        at(s, p + a.len(), b),
{
    let w = s.subrange(p, p + (a + b).len());
    assert(w == a + b);
    assert(s.subrange(p, p + a.len()) =~= w.subrange(0, a.len() as int));
    assert((a + b).subrange(0, a.len() as int) =~= a);
    assert(s.subrange(p + a.len(), p + a.len() + b.len()) =~= w.subrange(a.len() as int, (a + b).len() as int));
    assert((a + b).subrange(a.len() as int, (a + b).len() as int) =~= b);
}

proof fn lemma_at_index(s: Seq<u8>, p: int, t: Seq<u8>, i: int)
    requires
        at(s, p, t),
        0 <= i < t.len(),
    ensures
        s[p + i] == t[i],
{
    assert(s.subrange(p, p + t.len())[i] == s[p + i]);
}

proof fn lemma_tag_mismatch(s: Seq<u8>, p: int, t: Tag, i: int)
    requires
        0 <= i < tag_seq(t).len(),
        0 <= p,
        p + i < s.len(),
        s[p + i] != tag_seq(t)[i],
    ensures
        !has_tag(s, p, t),
{
    if has_tag(s, p, t) {
        assert(s.subrange(p, p + tag_seq(t).len())[i] == s[p + i]);
    }
}

/// A single whitespace byte followed by a byte of another kind, or by the end.
proof fn lemma_one_space(s: Seq<u8>, p: int)
    requires
        0 <= p < s.len(),
        is_space(s[p]),
        p + 1 == s.len() || !is_space(s[p + 1]),
    ensures
        spec_space(s, p) == Ok::<int, ParseError>(p + 1),
{
    lemma_run_end_of(s, p, p + 1, ByteClass::Space);
}

/// The spelling each data type is written with: the first in the order of the grammar.
pub open spec fn type_tag(k: ValueKind) -> Tag {
    match k {
        ValueKind::Int8 => Tag::Char,
        ValueKind::UInt8 => Tag::UChar,
        ValueKind::Int16 => Tag::Short,
        ValueKind::UInt16 => Tag::UShort,
        ValueKind::Int32 => Tag::Int32,
        ValueKind::UInt32 => Tag::UInt32,
        ValueKind::Int64 => Tag::Int64,
        ValueKind::UInt64 => Tag::UInt64,
        ValueKind::Float32 => Tag::Float32,
        ValueKind::Float64 => Tag::Float64,
    }
}

pub open spec fn format_tag(k: FormatKind) -> Tag {
    match k {
        FormatKind::Ascii => Tag::Ascii,
        FormatKind::BigEndian => Tag::BinaryBigEndian,
        FormatKind::LittleEndian => Tag::BinaryLittleEndian,
    }
}

pub open spec fn sp() -> Seq<u8> {
    seq![32u8]
}

pub open spec fn nl() -> Seq<u8> {
    seq![10u8]
}

pub open spec fn kind_text(k: PropertyKind) -> Seq<u8> {
    match k {
        PropertyKind::Scalar(v) => tag_seq(type_tag(v)),
        PropertyKind::List(c, v) => tag_seq(Tag::List) + sp() + tag_seq(type_tag(c)) + sp() + tag_seq(type_tag(v)),
    }
}

/// `property <kind> <name>` and a line feed.
pub open spec fn property_text(p: PropertyModel) -> Seq<u8> {
    tag_seq(Tag::Property) + sp() + kind_text(p.kind) + sp() + p.name + nl()
}

pub open spec fn properties_text(ps: Seq<PropertyModel>) -> Seq<u8>
    decreases ps.len(),
{
    if ps.len() == 0 {
        Seq::empty()
    } else {
        property_text(ps[0]) + properties_text(ps.subrange(1, ps.len() as int))
    }
}

/// `element <name> <count>`, a line feed, then the element's property lines.
pub open spec fn element_text(e: ElementModel) -> Seq<u8> {
    tag_seq(Tag::Element) + sp() + e.name + sp() + decimal(e.count as nat) + nl() + properties_text(e.properties)
}

pub open spec fn elements_text(es: Seq<ElementModel>) -> Seq<u8>
    decreases es.len(),
{
    if es.len() == 0 {
        Seq::empty()
    } else {
        element_text(es[0]) + elements_text(es.subrange(1, es.len() as int))
    }
}

pub open spec fn comment_text(c: Seq<u8>) -> Seq<u8> {
    tag_seq(Tag::Comment) + sp() + c + nl()
}

pub open spec fn comments_text(cs: Seq<Seq<u8>>) -> Seq<u8>
    decreases cs.len(),
{
    if cs.len() == 0 {
        Seq::empty()
    } else {
        comment_text(cs[0]) + comments_text(cs.subrange(1, cs.len() as int))
    }
}

pub open spec fn format_text(f: Format) -> Seq<u8> {
    tag_seq(Tag::Format) + sp() + tag_seq(format_tag(f.kind)) + sp() + decimal(f.version.major as nat)
        + seq![46u8] + decimal(f.version.minor as nat) + nl()
}

/// The canonical text of a header: one declaration per line, single spaces between
/// words, the first spelling of each data type.
pub open spec fn header_text(h: HeaderModel) -> Seq<u8> {
    tag_seq(Tag::Ply) + nl() + format_text(h.format) + comments_text(h.comments) + elements_text(h.elements)
        + tag_seq(Tag::EndHeader) + nl()
}

pub open spec fn valid_name(n: Seq<u8>) -> bool {
    n.len() > 0 && forall|i: int| 0 <= i < n.len() ==> is_ident(#[trigger] n[i])
}

/// A comment as the grammar reads one: not empty, not starting with whitespace, within one line.
pub open spec fn valid_comment(c: Seq<u8>) -> bool {
    c.len() > 0 && !is_space(c[0]) && forall|i: int| 0 <= i < c.len() ==> #[trigger] c[i] != 10u8 && c[i] != 13u8
}

pub open spec fn valid_element(e: ElementModel) -> bool {
    valid_name(e.name) && e.properties.len() > 0 && forall|i: int| 0 <= i < e.properties.len() ==> valid_name(#[trigger] e.properties[i].name)
}

/// What any header that parses satisfies, and all that its canonical text needs.
pub open spec fn valid_header(h: HeaderModel) -> bool {
    &&& h.format.version.major >= 0
    &&& h.format.version.minor >= 0
    &&& forall|i: int| 0 <= i < h.comments.len() ==> valid_comment(#[trigger] h.comments[i])
    &&& h.elements.len() > 0
    &&& forall|i: int| 0 <= i < h.elements.len() ==> valid_element(#[trigger] h.elements[i])
}

/// Reading the spelling of `k` that headers are written with, followed by a space, gives `k`.
proof fn lemma_data_type(s: Seq<u8>, p: int, k: ValueKind)
    requires
        at(s, p, tag_seq(type_tag(k))),
        p + tag_seq(type_tag(k)).len() < s.len(),
        s[p + tag_seq(type_tag(k)).len()] == 32u8,
    ensures
        spec_data_type(s, p) == Ok::<(ValueKind, int), ParseError>((k, p + tag_seq(type_tag(k)).len())),
{
    let n = tag_seq(type_tag(k)).len() as int;
    assert forall|i: int| 0 <= i < n implies s[p + i] == #[trigger] tag_seq(type_tag(k))[i] by {
        lemma_at_index(s, p, tag_seq(type_tag(k)), i);
    }
    reveal_with_fuel(spec_data_type_from, 17);
    match k {
        ValueKind::Int8 => {
            assert(spec_data_type_from(s, p, 0) == Ok::<(ValueKind, int), ParseError>((k, p + n)));
        },
        ValueKind::UInt8 => {
            lemma_tag_mismatch(s, p, Tag::Char, 0);
            assert(spec_data_type_from(s, p, 1) == Ok::<(ValueKind, int), ParseError>((k, p + n)));
        },
        ValueKind::Int16 => {
            lemma_tag_mismatch(s, p, Tag::Char, 0);
            lemma_tag_mismatch(s, p, Tag::UChar, 0);
            assert(spec_data_type_from(s, p, 2) == Ok::<(ValueKind, int), ParseError>((k, p + n)));
        },
        ValueKind::UInt16 => {
            lemma_tag_mismatch(s, p, Tag::Char, 0);
            lemma_tag_mismatch(s, p, Tag::UChar, 1);
            lemma_tag_mismatch(s, p, Tag::Short, 0);
            assert(spec_data_type_from(s, p, 3) == Ok::<(ValueKind, int), ParseError>((k, p + n)));
        },
        ValueKind::Int64 => {
            lemma_tag_mismatch(s, p, Tag::Char, 0);
            lemma_tag_mismatch(s, p, Tag::UChar, 0);
            lemma_tag_mismatch(s, p, Tag::Short, 0);
            lemma_tag_mismatch(s, p, Tag::UShort, 0);
            assert(spec_data_type_from(s, p, 4) == Ok::<(ValueKind, int), ParseError>((k, p + n)));
        },
        ValueKind::Int32 => {
            lemma_tag_mismatch(s, p, Tag::Char, 0);
            lemma_tag_mismatch(s, p, Tag::UChar, 0);
            lemma_tag_mismatch(s, p, Tag::Short, 0);
            lemma_tag_mismatch(s, p, Tag::UShort, 0);
            lemma_tag_mismatch(s, p, Tag::Int64, 3);
            assert(spec_data_type_from(s, p, 5) == Ok::<(ValueKind, int), ParseError>((k, p + n)));
        },
        ValueKind::UInt32 => {
            lemma_tag_mismatch(s, p, Tag::Char, 0);
            lemma_tag_mismatch(s, p, Tag::UChar, 1);
            lemma_tag_mismatch(s, p, Tag::Short, 0);
            lemma_tag_mismatch(s, p, Tag::UShort, 1);
            lemma_tag_mismatch(s, p, Tag::Int64, 0);
            lemma_tag_mismatch(s, p, Tag::Int32, 0);
            lemma_tag_mismatch(s, p, Tag::Int16, 0);
            lemma_tag_mismatch(s, p, Tag::Int8, 0);
            lemma_tag_mismatch(s, p, Tag::Int, 0);
            lemma_tag_mismatch(s, p, Tag::UInt8, 4);
            lemma_tag_mismatch(s, p, Tag::UInt16, 4);
            assert(spec_data_type_from(s, p, 11) == Ok::<(ValueKind, int), ParseError>((k, p + n)));
        },
        ValueKind::UInt64 => {
            lemma_tag_mismatch(s, p, Tag::Char, 0);
            lemma_tag_mismatch(s, p, Tag::UChar, 1);
            lemma_tag_mismatch(s, p, Tag::Short, 0);
            lemma_tag_mismatch(s, p, Tag::UShort, 1);
            lemma_tag_mismatch(s, p, Tag::Int64, 0);
            lemma_tag_mismatch(s, p, Tag::Int32, 0);
            lemma_tag_mismatch(s, p, Tag::Int16, 0);
            lemma_tag_mismatch(s, p, Tag::Int8, 0);
            lemma_tag_mismatch(s, p, Tag::Int, 0);
            lemma_tag_mismatch(s, p, Tag::UInt8, 4);
            lemma_tag_mismatch(s, p, Tag::UInt16, 4);
            lemma_tag_mismatch(s, p, Tag::UInt32, 4);
            assert(spec_data_type_from(s, p, 12) == Ok::<(ValueKind, int), ParseError>((k, p + n)));
        },
        ValueKind::Float32 => {
            lemma_tag_mismatch(s, p, Tag::Char, 0);
            lemma_tag_mismatch(s, p, Tag::UChar, 0);
            lemma_tag_mismatch(s, p, Tag::Short, 0);
            lemma_tag_mismatch(s, p, Tag::UShort, 0);
            lemma_tag_mismatch(s, p, Tag::Int64, 0);
            lemma_tag_mismatch(s, p, Tag::Int32, 0);
            lemma_tag_mismatch(s, p, Tag::Int16, 0);
            lemma_tag_mismatch(s, p, Tag::Int8, 0);
            lemma_tag_mismatch(s, p, Tag::Int, 0);
            lemma_tag_mismatch(s, p, Tag::UInt8, 0);
            lemma_tag_mismatch(s, p, Tag::UInt16, 0);
            lemma_tag_mismatch(s, p, Tag::UInt32, 0);
            lemma_tag_mismatch(s, p, Tag::UInt64, 0);
            lemma_tag_mismatch(s, p, Tag::UInt, 0);
            assert(spec_data_type_from(s, p, 14) == Ok::<(ValueKind, int), ParseError>((k, p + n)));
        },
        ValueKind::Float64 => {
            lemma_tag_mismatch(s, p, Tag::Char, 0);
            lemma_tag_mismatch(s, p, Tag::UChar, 0);
            lemma_tag_mismatch(s, p, Tag::Short, 0);
            lemma_tag_mismatch(s, p, Tag::UShort, 0);
            lemma_tag_mismatch(s, p, Tag::Int64, 0);
            lemma_tag_mismatch(s, p, Tag::Int32, 0);
            lemma_tag_mismatch(s, p, Tag::Int16, 0);
            lemma_tag_mismatch(s, p, Tag::Int8, 0);
            lemma_tag_mismatch(s, p, Tag::Int, 0);
            lemma_tag_mismatch(s, p, Tag::UInt8, 0);
            lemma_tag_mismatch(s, p, Tag::UInt16, 0);
            lemma_tag_mismatch(s, p, Tag::UInt32, 0);
            lemma_tag_mismatch(s, p, Tag::UInt64, 0);
            lemma_tag_mismatch(s, p, Tag::UInt, 0);
            lemma_tag_mismatch(s, p, Tag::Float32, 5);
            assert(spec_data_type_from(s, p, 15) == Ok::<(ValueKind, int), ParseError>((k, p + n)));
        },
    }
}

proof fn lemma_type_tag(v: ValueKind)
    ensures
        tag_seq(type_tag(v)).len() > 0,
        !is_space(tag_seq(type_tag(v))[0]),
        tag_seq(type_tag(v))[0] != 108u8,
{
    match v {
        ValueKind::Int8 => {},
        ValueKind::UInt8 => {},
        ValueKind::Int16 => {},
        ValueKind::UInt16 => {},
        ValueKind::Int32 => {},
        ValueKind::UInt32 => {},
        ValueKind::Int64 => {},
        ValueKind::UInt64 => {},
        ValueKind::Float32 => {},
        ValueKind::Float64 => {},
    }
}

proof fn lemma_kind_text(k: PropertyKind)
    ensures
        kind_text(k).len() > 0,
        !is_space(kind_text(k)[0]),
{
    match k {
        PropertyKind::Scalar(v) => lemma_type_tag(v),
        PropertyKind::List(c, v) => {
            assert(kind_text(k)[0] == tag_seq(Tag::List)[0]);
        },
    }
}

/// Reading the text of a property kind, followed by a space, gives the kind.
proof fn lemma_property_kind(s: Seq<u8>, p: int, k: PropertyKind)
    requires
        at(s, p, kind_text(k)),
        p + kind_text(k).len() < s.len(),
        s[p + kind_text(k).len()] == 32u8,
    ensures
        spec_property_kind(s, p) == Ok::<(PropertyKind, int), ParseError>((k, p + kind_text(k).len())),
{
    match k {
        PropertyKind::Scalar(v) => {
            lemma_type_tag(v);
            lemma_at_index(s, p, tag_seq(type_tag(v)), 0);
            lemma_tag_mismatch(s, p, Tag::List, 0);
            lemma_data_type(s, p, v);
        },
        PropertyKind::List(c, v) => {
            let a = tag_seq(Tag::List);
            let tc = tag_seq(type_tag(c));
            let tv = tag_seq(type_tag(v));
            lemma_at_split(s, p, a + sp() + tc + sp(), tv);
            lemma_at_split(s, p, a + sp() + tc, sp());
            lemma_at_split(s, p, a + sp(), tc);
            lemma_at_split(s, p, a, sp());
            lemma_type_tag(c);
            lemma_type_tag(v);
            lemma_at_index(s, p + 4, sp(), 0);
            lemma_at_index(s, p + 5, tc, 0);
            lemma_at_index(s, p + 5 + tc.len(), sp(), 0);
            lemma_at_index(s, p + 6 + tc.len(), tv, 0);
            lemma_one_space(s, p + 4);
            lemma_data_type(s, p + 5, c);
            lemma_one_space(s, p + 5 + tc.len());
            lemma_data_type(s, p + 6 + tc.len(), v);
        },
    }
}

proof fn lemma_identifier(s: Seq<u8>, p: int, n: Seq<u8>)
    requires
        at(s, p, n),
        valid_name(n),
        p + n.len() < s.len(),
        !is_ident(s[p + n.len()]),
    ensures
        spec_identifier(s, p) == Ok::<(Seq<u8>, int), ParseError>((n, p + n.len())),
{
    assert forall|i: int| p <= i < p + n.len() implies in_class(ByteClass::Ident, #[trigger] s[i]) by {
        lemma_at_index(s, p, n, i - p);
    }
    lemma_run_end_of(s, p, p + n.len(), ByteClass::Ident);
}

proof fn lemma_integer(s: Seq<u8>, p: int, n: nat, max: u64)
    requires
        at(s, p, decimal(n)),
        n <= max,
        p + decimal(n).len() < s.len(),
        !is_digit(s[p + decimal(n).len()]),
    ensures
        spec_integer(s, p, max) == Ok::<(u64, int), ParseError>((n as u64, p + decimal(n).len())),
{
    let d = decimal(n);
    lemma_decimal(n);
    assert forall|i: int| p <= i < p + d.len() implies in_class(ByteClass::Digit, #[trigger] s[i]) by {
        lemma_at_index(s, p, d, i - p);
    }
    lemma_run_end_of(s, p, p + d.len(), ByteClass::Digit);
}

proof fn lemma_property_text_first(pr: PropertyModel)
    ensures
        property_text(pr).len() > 0,
        property_text(pr)[0] == 112u8,
{
    assert(property_text(pr)[0] == tag_seq(Tag::Property)[0]);
}

/// Reading the text of a property, followed by the end or by a byte other than
/// whitespace, gives the property back.
proof fn lemma_property(s: Seq<u8>, p: int, pr: PropertyModel)
    requires
        at(s, p, property_text(pr)),
        valid_name(pr.name),
        p + property_text(pr).len() == s.len() || !is_space(s[p + property_text(pr).len()]),
    ensures
        has_tag(s, p, Tag::Property),
        spec_property(s, p) == Ok::<(PropertyModel, int), ParseError>((pr, p + property_text(pr).len())),
{
    let a = tag_seq(Tag::Property);
    let kt = kind_text(pr.kind);
    let n = pr.name;
    lemma_at_split(s, p, a + sp() + kt + sp() + n, nl());
    lemma_at_split(s, p, a + sp() + kt + sp(), n);
    lemma_at_split(s, p, a + sp() + kt, sp());
    lemma_at_split(s, p, a + sp(), kt);
    lemma_at_split(s, p, a, sp());
    lemma_kind_text(pr.kind);
    let p2 = p + 9;
    let p3 = p2 + kt.len();
    let p4 = p3 + 1;
    let p5 = p4 + n.len();
    lemma_at_index(s, p + 8, sp(), 0);
    lemma_at_index(s, p2, kt, 0);
    lemma_at_index(s, p3, sp(), 0);
    lemma_at_index(s, p4, n, 0);
    lemma_at_index(s, p5, nl(), 0);
    lemma_one_space(s, p + 8);
    lemma_property_kind(s, p2, pr.kind);
    lemma_one_space(s, p3);
    lemma_identifier(s, p4, n);
    lemma_one_space(s, p5);
}

proof fn lemma_properties(s: Seq<u8>, p: int, ps: Seq<PropertyModel>, acc: Seq<PropertyModel>)
    requires
        at(s, p, properties_text(ps)),
        forall|i: int| 0 <= i < ps.len() ==> valid_name(#[trigger] ps[i].name),
        p + properties_text(ps).len() == s.len() || (!is_space(s[p + properties_text(ps).len()])
            && !has_tag(s, p + properties_text(ps).len(), Tag::Property)),
    ensures
        spec_properties(s, p, acc) == Ok::<(Seq<PropertyModel>, int), ParseError>((acc + ps, p + properties_text(ps).len())),
        ps.len() > 0 ==> has_tag(s, p, Tag::Property),
    decreases ps.len(),
{
    if ps.len() == 0 {
        assert(acc + ps =~= acc);
    } else {
        let rest = ps.subrange(1, ps.len() as int);
        let t0 = property_text(ps[0]);
        lemma_at_split(s, p, t0, properties_text(rest));
        if rest.len() > 0 {
            lemma_property_text_first(rest[0]);
            lemma_at_split(s, p + t0.len(), property_text(rest[0]), properties_text(rest.subrange(1, rest.len() as int)));
            lemma_at_index(s, p + t0.len(), property_text(rest[0]), 0);
        }
        assert(valid_name(ps[0].name));
        lemma_property(s, p, ps[0]);
        lemma_property_text_first(ps[0]);
        lemma_properties(s, p + t0.len(), rest, acc.push(ps[0]));
        assert(acc.push(ps[0]) + rest =~= acc + ps);
    }
}

proof fn lemma_element_text_first(e: ElementModel)
    ensures
        element_text(e).len() > 0,
        element_text(e)[0] == 101u8,
{
    assert(element_text(e)[0] == tag_seq(Tag::Element)[0]);
}

/// Reading the text of an element gives the element back.
proof fn lemma_element(s: Seq<u8>, p: int, e: ElementModel)
    requires
        at(s, p, element_text(e)),
        valid_element(e),
        p + element_text(e).len() == s.len() || (!is_space(s[p + element_text(e).len()])
            && !has_tag(s, p + element_text(e).len(), Tag::Property)),
    ensures
        has_tag(s, p, Tag::Element),
        spec_element(s, p) == Ok::<(ElementModel, int), ParseError>((e, p + element_text(e).len())),
{
    let a = tag_seq(Tag::Element);
    let n = e.name;
    let d = decimal(e.count as nat);
    let pt = properties_text(e.properties);
    lemma_at_split(s, p, a + sp() + n + sp() + d + nl(), pt);
    lemma_at_split(s, p, a + sp() + n + sp() + d, nl());
    lemma_at_split(s, p, a + sp() + n + sp(), d);
    lemma_at_split(s, p, a + sp() + n, sp());
    lemma_at_split(s, p, a + sp(), n);
    lemma_at_split(s, p, a, sp());
    lemma_decimal(e.count as nat);
    let p2 = p + 8;
    let p3 = p2 + n.len();
    let p4 = p3 + 1;
    let p5 = p4 + d.len();
    let p6 = p5 + 1;
    let ps = e.properties;
    lemma_property_text_first(ps[0]);
    lemma_at_split(s, p6, property_text(ps[0]), properties_text(ps.subrange(1, ps.len() as int)));
    lemma_at_index(s, p6, property_text(ps[0]), 0);
    lemma_at_index(s, p + 7, sp(), 0);
    lemma_at_index(s, p2, n, 0);
    lemma_at_index(s, p3, sp(), 0);
    lemma_at_index(s, p4, d, 0);
    lemma_at_index(s, p5, nl(), 0);
    lemma_one_space(s, p + 7);
    lemma_identifier(s, p2, n);
    lemma_one_space(s, p3);
    lemma_integer(s, p4, e.count as nat, u64::MAX);
    lemma_one_space(s, p5);
    lemma_properties(s, p6, ps, Seq::empty());
    assert(Seq::<PropertyModel>::empty() + ps =~= ps);
}

proof fn lemma_elements(s: Seq<u8>, p: int, es: Seq<ElementModel>, acc: Seq<ElementModel>)
    requires
        at(s, p, elements_text(es)),
        forall|i: int| 0 <= i < es.len() ==> valid_element(#[trigger] es[i]),
        p + elements_text(es).len() == s.len() || (!is_space(s[p + elements_text(es).len()])
            && !has_tag(s, p + elements_text(es).len(), Tag::Element)
            && !has_tag(s, p + elements_text(es).len(), Tag::Property)),
    ensures
        spec_elements(s, p, acc) == Ok::<(Seq<ElementModel>, int), ParseError>((acc + es, p + elements_text(es).len())),
        es.len() > 0 ==> has_tag(s, p, Tag::Element),
    decreases es.len(),
{
    if es.len() == 0 {
        assert(acc + es =~= acc);
    } else {
        let rest = es.subrange(1, es.len() as int);
        let t0 = element_text(es[0]);
        lemma_at_split(s, p, t0, elements_text(rest));
        if rest.len() > 0 {
            lemma_element_text_first(rest[0]);
            lemma_at_split(s, p + t0.len(), element_text(rest[0]), elements_text(rest.subrange(1, rest.len() as int)));
            lemma_at_index(s, p + t0.len(), element_text(rest[0]), 0);
            lemma_tag_mismatch(s, p + t0.len(), Tag::Property, 0);
        }
        assert(valid_element(es[0]));
        lemma_element(s, p, es[0]);
        lemma_element_text_first(es[0]);
        lemma_elements(s, p + t0.len(), rest, acc.push(es[0]));
        assert(acc.push(es[0]) + rest =~= acc + es);
    }
}

proof fn lemma_comment(s: Seq<u8>, p: int, c: Seq<u8>)
    requires
        at(s, p, comment_text(c)),
        valid_comment(c),
        p + comment_text(c).len() == s.len() || !is_space(s[p + comment_text(c).len()]),
    ensures
        has_tag(s, p, Tag::Comment),
        spec_comment(s, p) == Ok::<(Seq<u8>, int), ParseError>((c, p + comment_text(c).len())),
{
    let a = tag_seq(Tag::Comment);
    lemma_at_split(s, p, a + sp() + c, nl());
    lemma_at_split(s, p, a + sp(), c);
    lemma_at_split(s, p, a, sp());
    let p2 = p + 8;
    let p3 = p2 + c.len();
    lemma_at_index(s, p + 7, sp(), 0);
    lemma_at_index(s, p2, c, 0);
    lemma_at_index(s, p3, nl(), 0);
    lemma_one_space(s, p + 7);
    assert forall|i: int| p2 <= i < p3 implies in_class(ByteClass::NotEol, #[trigger] s[i]) by {
        lemma_at_index(s, p2, c, i - p2);
    }
    lemma_run_end_of(s, p2, p3, ByteClass::NotEol);
    lemma_one_space(s, p3);
}

proof fn lemma_comments(s: Seq<u8>, p: int, cs: Seq<Seq<u8>>, acc: Seq<Seq<u8>>)
    requires
        at(s, p, comments_text(cs)),
        forall|i: int| 0 <= i < cs.len() ==> valid_comment(#[trigger] cs[i]),
        p + comments_text(cs).len() < s.len(),
        !is_space(s[p + comments_text(cs).len()]),
        !has_tag(s, p + comments_text(cs).len(), Tag::Comment),
    ensures
        spec_comments(s, p, acc) == Ok::<(Seq<Seq<u8>>, int), ParseError>((acc + cs, p + comments_text(cs).len())),
    decreases cs.len(),
{
    if cs.len() == 0 {
        assert(acc + cs =~= acc);
    } else {
        let rest = cs.subrange(1, cs.len() as int);
        let t0 = comment_text(cs[0]);
        lemma_at_split(s, p, t0, comments_text(rest));
        if rest.len() > 0 {
            assert(comment_text(rest[0])[0] == tag_seq(Tag::Comment)[0]);
            lemma_at_split(s, p + t0.len(), comment_text(rest[0]), comments_text(rest.subrange(1, rest.len() as int)));
            lemma_at_index(s, p + t0.len(), comment_text(rest[0]), 0);
        }
        assert(valid_comment(cs[0]));
        lemma_comment(s, p, cs[0]);
        lemma_comments(s, p + t0.len(), rest, acc.push(cs[0]));
        assert(acc.push(cs[0]) + rest =~= acc + cs);
    }
}

proof fn lemma_format(s: Seq<u8>, p: int, f: Format)
    requires
        at(s, p, format_text(f)),
        f.version.major >= 0,
        f.version.minor >= 0,
        p + format_text(f).len() < s.len(),
        !is_space(s[p + format_text(f).len()]),
    ensures
        spec_format(s, p) == Ok::<(Format, int), ParseError>((f, p + format_text(f).len())),
{
    let a = tag_seq(Tag::Format);
    let kt = tag_seq(format_tag(f.kind));
    let d1 = decimal(f.version.major as nat);
    let d2 = decimal(f.version.minor as nat);
    let dot = seq![46u8];
    lemma_at_split(s, p, a + sp() + kt + sp() + d1 + dot + d2, nl());
    lemma_at_split(s, p, a + sp() + kt + sp() + d1 + dot, d2);
    lemma_at_split(s, p, a + sp() + kt + sp() + d1, dot);
    lemma_at_split(s, p, a + sp() + kt + sp(), d1);
    lemma_at_split(s, p, a + sp() + kt, sp());
    lemma_at_split(s, p, a + sp(), kt);
    lemma_at_split(s, p, a, sp());
    lemma_decimal(f.version.major as nat);
    lemma_decimal(f.version.minor as nat);
    let p2 = p + 7;
    let p3 = p2 + kt.len();
    let p4 = p3 + 1;
    let p5 = p4 + d1.len();
    let p6 = p5 + 1;
    let p7 = p6 + d2.len();
    lemma_at_index(s, p + 6, sp(), 0);
    lemma_at_index(s, p2, kt, 0);
    lemma_at_index(s, p3, sp(), 0);
    lemma_at_index(s, p4, d1, 0);
    lemma_at_index(s, p5, dot, 0);
    lemma_at_index(s, p6, d2, 0);
    lemma_at_index(s, p7, nl(), 0);
    lemma_one_space(s, p + 6);
    match f.kind {
        FormatKind::Ascii => {},
        FormatKind::BigEndian => {
            lemma_tag_mismatch(s, p2, Tag::Ascii, 0);
        },
        FormatKind::LittleEndian => {
            lemma_tag_mismatch(s, p2, Tag::Ascii, 0);
            lemma_at_index(s, p2, kt, 7);
            lemma_tag_mismatch(s, p2, Tag::BinaryBigEndian, 7);
        },
    }
    assert(spec_format_kind(s, p2) == Ok::<(FormatKind, int), ParseError>((f.kind, p3)));
    lemma_one_space(s, p3);
    lemma_integer(s, p4, f.version.major as nat, i32::MAX as u64);
    lemma_integer(s, p6, f.version.minor as nat, i32::MAX as u64);
    assert(spec_version(s, p4) == Ok::<(Version, int), ParseError>((f.version, p7)));
    lemma_one_space(s, p7);
}

proof fn lemma_header_at(s: Seq<u8>, h: HeaderModel)
    requires
        valid_header(h),
        at(s, 0, header_text(h)),
        s.len() == header_text(h).len() || !is_space(s[header_text(h).len() as int]),
    ensures
        spec_header(s) == Ok::<(HeaderModel, int), ParseError>((h, header_text(h).len() as int)),
{
    let ft = format_text(h.format);
    let ct = comments_text(h.comments);
    let et = elements_text(h.elements);
    let eh = tag_seq(Tag::EndHeader);
    let ply = tag_seq(Tag::Ply);
    lemma_at_split(s, 0, ply + nl() + ft + ct + et + eh, nl());
    lemma_at_split(s, 0, ply + nl() + ft + ct + et, eh);
    lemma_at_split(s, 0, ply + nl() + ft + ct, et);
    lemma_at_split(s, 0, ply + nl() + ft, ct);
    lemma_at_split(s, 0, ply + nl(), ft);
    lemma_at_split(s, 0, ply, nl());
    let p2: int = 4;
    let p3 = p2 + ft.len();
    let p4 = p3 + ct.len();
    let p5 = p4 + et.len();
    let es = h.elements;
    assert(spec_keyword(s, 0, Tag::Ply) == Ok::<int, ParseError>(3));
    assert(spec_space(s, 3) == Ok::<int, ParseError>(4)) by {
        lemma_at_index(s, 3, nl(), 0);
        lemma_at_index(s, p2, ft, 0);
        assert(ft[0] == tag_seq(Tag::Format)[0]);
        lemma_one_space(s, 3);
    }
    assert(p4 < s.len() && s[p4] == 101u8) by {
        lemma_element_text_first(es[0]);
        lemma_at_split(s, p4, element_text(es[0]), elements_text(es.subrange(1, es.len() as int)));
        lemma_at_index(s, p4, element_text(es[0]), 0);
    }
    assert(spec_format(s, p2) == Ok::<(Format, int), ParseError>((h.format, p3))) by {
        if h.comments.len() > 0 {
            assert(comment_text(h.comments[0])[0] == tag_seq(Tag::Comment)[0]);
            lemma_at_split(s, p3, comment_text(h.comments[0]), comments_text(h.comments.subrange(1, h.comments.len() as int)));
            lemma_at_index(s, p3, comment_text(h.comments[0]), 0);
        }
        lemma_format(s, p2, h.format);
    }
    assert(spec_comments(s, p3, Seq::empty()) == Ok::<(Seq<Seq<u8>>, int), ParseError>((h.comments, p4))) by {
        lemma_tag_mismatch(s, p4, Tag::Comment, 0);
        lemma_comments(s, p3, h.comments, Seq::empty());
        assert(Seq::<Seq<u8>>::empty() + h.comments =~= h.comments);
    }
    assert(s[p5] == 101u8 && s[p5 + 1] == 110u8 && has_tag(s, p5, Tag::EndHeader)) by {
        lemma_at_index(s, p5, eh, 0);
        lemma_at_index(s, p5, eh, 1);
    }
    assert(spec_elements(s, p4, Seq::empty()) == Ok::<(Seq<ElementModel>, int), ParseError>((es, p5))
        && has_tag(s, p4, Tag::Element)) by {
        lemma_tag_mismatch(s, p5, Tag::Element, 1);
        lemma_tag_mismatch(s, p5, Tag::Property, 0);
        lemma_elements(s, p4, es, Seq::empty());
        assert(Seq::<ElementModel>::empty() + es =~= es);
    }
    assert(spec_space(s, p5 + 10) == Ok::<int, ParseError>(header_text(h).len() as int)) by {
        lemma_at_index(s, p5 + 10, nl(), 0);
        lemma_one_space(s, p5 + 10);
    }
}

proof fn lemma_space_ok(s: Seq<u8>, p: int)
    requires
        0 <= p <= s.len(),
    ensures
        spec_space(s, p) matches Ok(e) ==> p < e <= s.len() && (e == s.len() || !is_space(s[e])),
{
    lemma_run_end(s, p, ByteClass::Space);
}

proof fn lemma_keyword_ok(s: Seq<u8>, p: int, t: Tag)
    requires
        0 <= p <= s.len(),
    ensures
        spec_keyword(s, p, t) matches Ok(e) ==> p < e <= s.len(),
{
    assert(tag_seq(t).len() > 0);
}

proof fn lemma_data_type_ok(s: Seq<u8>, p: int, i: int)
    requires
        0 <= p <= s.len(),
        0 <= i,
    ensures
        spec_data_type_from(s, p, i) matches Ok((_, e)) ==> p < e <= s.len(),
    decreases crate::header::SPELLINGS - i,
{
    if i < crate::header::SPELLINGS {
        assert(tag_seq(crate::header::spelling(i).0).len() > 0);
        lemma_data_type_ok(s, p, i + 1);
    }
}

proof fn lemma_property_kind_ok(s: Seq<u8>, p: int)
    requires
        0 <= p <= s.len(),
    ensures
        spec_property_kind(s, p) matches Ok((_, e)) ==> p < e <= s.len(),
{
    lemma_data_type_ok(s, p, 0);
    if has_tag(s, p, Tag::List) {
        lemma_space_ok(s, p + 4);
        if let Ok(p1) = spec_space(s, p + 4) {
            lemma_data_type_ok(s, p1, 0);
            if let Ok((_, p2)) = spec_data_type(s, p1) {
                lemma_space_ok(s, p2);
                if let Ok(p3) = spec_space(s, p2) {
                    lemma_data_type_ok(s, p3, 0);
                }
            }
        }
    }
}

proof fn lemma_identifier_ok(s: Seq<u8>, p: int)
    requires
        0 <= p <= s.len(),
    ensures
        spec_identifier(s, p) matches Ok((n, e)) ==> p < e <= s.len() && valid_name(n),
{
    lemma_run_end(s, p, ByteClass::Ident);
    let e = run_end(s, p, ByteClass::Ident);
    assert forall|i: int| 0 <= i < e - p implies is_ident(#[trigger] s.subrange(p, e)[i]) by {
        assert(s.subrange(p, e)[i] == s[p + i]);
    }
}

proof fn lemma_property_ok(s: Seq<u8>, p: int)
    requires
        0 <= p <= s.len(),
    ensures
        spec_property(s, p) matches Ok((pr, e)) ==> p < e <= s.len() && valid_name(pr.name),
{
    lemma_keyword_ok(s, p, Tag::Property);
    if let Ok(p1) = spec_keyword(s, p, Tag::Property) {
        lemma_space_ok(s, p1);
        if let Ok(p2) = spec_space(s, p1) {
            lemma_property_kind_ok(s, p2);
            if let Ok((_, p3)) = spec_property_kind(s, p2) {
                lemma_space_ok(s, p3);
                if let Ok(p4) = spec_space(s, p3) {
                    lemma_identifier_ok(s, p4);
                    if let Ok((_, p5)) = spec_identifier(s, p4) {
                        lemma_space_ok(s, p5);
                    }
                }
            }
        }
    }
}

proof fn lemma_properties_ok(s: Seq<u8>, p: int, acc: Seq<PropertyModel>)
    requires
        0 <= p <= s.len(),
        forall|i: int| 0 <= i < acc.len() ==> valid_name(#[trigger] acc[i].name),
    ensures
        spec_properties(s, p, acc) matches Ok((ps, e)) ==> p <= e <= s.len()
            && ps.len() >= acc.len()
            && (has_tag(s, p, Tag::Property) ==> ps.len() > acc.len())
            && forall|i: int| 0 <= i < ps.len() ==> valid_name(#[trigger] ps[i].name),
    decreases s.len() - p,
{
    if has_tag(s, p, Tag::Property) {
        lemma_property_ok(s, p);
        if let Ok((pr, q)) = spec_property(s, p) {
            let acc2 = acc.push(pr);
            assert forall|i: int| 0 <= i < acc2.len() implies valid_name(#[trigger] acc2[i].name) by {
                if i < acc.len() {
                    assert(acc2[i] == acc[i]);
                }
            }
            lemma_properties_ok(s, q, acc2);
        }
    }
}

proof fn lemma_element_ok(s: Seq<u8>, p: int)
    requires
        0 <= p <= s.len(),
    ensures
        spec_element(s, p) matches Ok((el, e)) ==> p < e <= s.len() && valid_element(el),
{
    lemma_keyword_ok(s, p, Tag::Element);
    if let Ok(p1) = spec_keyword(s, p, Tag::Element) {
        lemma_space_ok(s, p1);
        if let Ok(p2) = spec_space(s, p1) {
            lemma_identifier_ok(s, p2);
            if let Ok((_, p3)) = spec_identifier(s, p2) {
                lemma_space_ok(s, p3);
                if let Ok(p4) = spec_space(s, p3) {
                    lemma_run_end(s, p4, ByteClass::Digit);
                    if let Ok((_, p5)) = spec_integer(s, p4, u64::MAX) {
                        lemma_space_ok(s, p5);
                        if let Ok(p6) = spec_space(s, p5) {
                            lemma_properties_ok(s, p6, Seq::empty());
                        }
                    }
                }
            }
        }
    }
}

proof fn lemma_elements_ok(s: Seq<u8>, p: int, acc: Seq<ElementModel>)
    requires
        0 <= p <= s.len(),
        forall|i: int| 0 <= i < acc.len() ==> valid_element(#[trigger] acc[i]),
    ensures
        spec_elements(s, p, acc) matches Ok((es, e)) ==> p <= e <= s.len()
            && es.len() >= acc.len()
            && (has_tag(s, p, Tag::Element) ==> es.len() > acc.len())
            && forall|i: int| 0 <= i < es.len() ==> valid_element(#[trigger] es[i]),
    decreases s.len() - p,
{
    if has_tag(s, p, Tag::Element) {
        lemma_element_ok(s, p);
        if let Ok((el, q)) = spec_element(s, p) {
            let acc2 = acc.push(el);
            assert forall|i: int| 0 <= i < acc2.len() implies valid_element(#[trigger] acc2[i]) by {
                if i < acc.len() {
                    assert(acc2[i] == acc[i]);
                }
            }
            lemma_elements_ok(s, q, acc2);
        }
    }
}

proof fn lemma_comment_ok(s: Seq<u8>, p: int)
    requires
        0 <= p <= s.len(),
    ensures
        spec_comment(s, p) matches Ok((c, e)) ==> p < e <= s.len() && valid_comment(c),
{
    lemma_keyword_ok(s, p, Tag::Comment);
    if let Ok(p1) = spec_keyword(s, p, Tag::Comment) {
        lemma_space_ok(s, p1);
        if let Ok(p2) = spec_space(s, p1) {
            lemma_run_end(s, p2, ByteClass::NotEol);
            let p3 = run_end(s, p2, ByteClass::NotEol);
            lemma_space_ok(s, p3);
            if let Ok(_) = spec_space(s, p3) {
                let c = s.subrange(p2, p3);
                assert forall|i: int| 0 <= i < c.len() implies #[trigger] c[i] != 10u8 && c[i] != 13u8 by {
                    assert(c[i] == s[p2 + i]);
                }
                if p3 > p2 {
                    assert(c[0] == s[p2]);
                }
            }
        }
    }
}

proof fn lemma_comments_ok(s: Seq<u8>, p: int, acc: Seq<Seq<u8>>)
    requires
        0 <= p <= s.len(),
        forall|i: int| 0 <= i < acc.len() ==> valid_comment(#[trigger] acc[i]),
    ensures
        spec_comments(s, p, acc) matches Ok((cs, e)) ==> p <= e <= s.len()
            && forall|i: int| 0 <= i < cs.len() ==> valid_comment(#[trigger] cs[i]),
    decreases s.len() - p,
{
    if has_tag(s, p, Tag::Comment) {
        lemma_comment_ok(s, p);
        if let Ok((c, q)) = spec_comment(s, p) {
            let acc2 = acc.push(c);
            assert forall|i: int| 0 <= i < acc2.len() implies valid_comment(#[trigger] acc2[i]) by {
                if i < acc.len() {
                    assert(acc2[i] == acc[i]);
                }
            }
            lemma_comments_ok(s, q, acc2);
        }
    }
}

/// Every header that parses is valid.
pub proof fn parsed_header_is_valid(s: Seq<u8>)
    requires
        spec_header(s) is Ok,
    ensures
        valid_header(spec_header(s)->Ok_0.0),
        0 <= spec_header(s)->Ok_0.1,
        spec_header(s)->Ok_0.1 == s.len() || (spec_header(s)->Ok_0.1 < s.len() && !is_space(s[spec_header(s)->Ok_0.1])),
{
    lemma_keyword_ok(s, 0, Tag::Ply);
    let p1 = spec_keyword(s, 0, Tag::Ply)->Ok_0;
    lemma_space_ok(s, p1);
    let p2 = spec_space(s, p1)->Ok_0;
    let (f, p3) = spec_format(s, p2)->Ok_0;
    assert(f.version.major >= 0 && f.version.minor >= 0);
    lemma_run_end(s, p2, ByteClass::Space);
    assert(p3 <= s.len()) by {
        lemma_keyword_ok(s, p2, Tag::Format);
        let q1 = spec_keyword(s, p2, Tag::Format)->Ok_0;
        lemma_space_ok(s, q1);
        let q2 = spec_space(s, q1)->Ok_0;
        let q3 = spec_format_kind(s, q2)->Ok_0.1;
        lemma_space_ok(s, q3);
        let q4 = spec_space(s, q3)->Ok_0;
        lemma_run_end(s, q4, ByteClass::Digit);
        let q5 = spec_integer(s, q4, i32::MAX as u64)->Ok_0.1;
        lemma_run_end(s, q5 + 1, ByteClass::Digit);
        let q6 = spec_version(s, q4)->Ok_0.1;
        lemma_space_ok(s, q6);
    }
    lemma_comments_ok(s, p3, Seq::empty());
    let p4 = spec_comments(s, p3, Seq::empty())->Ok_0.1;
    lemma_elements_ok(s, p4, Seq::empty());
    let p5 = spec_elements(s, p4, Seq::empty())->Ok_0.1;
    lemma_space_ok(s, p5 + 10);
}

/// The canonical text of a valid header, followed by bytes that do not start with
/// whitespace, parses back to that header, with the body starting right after the text.
#[verifier::rlimit(50)]
pub proof fn header_text_then_body_parses(h: HeaderModel, rest: Seq<u8>)
    requires
        valid_header(h),
        rest.len() == 0 || !is_space(rest[0]),
    ensures
        spec_header(header_text(h) + rest) == Ok::<(HeaderModel, int), ParseError>((h, header_text(h).len() as int)),
{
    lemma_prefix_at(header_text(h), rest);
    lemma_header_at(header_text(h) + rest, h);
}

proof fn lemma_prefix_at(t: Seq<u8>, rest: Seq<u8>)
    ensures
        at(t + rest, 0, t),
        rest.len() > 0 ==> (t + rest)[t.len() as int] == rest[0],
        (t + rest).len() == t.len() + rest.len(),
{
    assert((t + rest).subrange(0, t.len() as int) =~= t);
}

/// Reading a header, writing it back as canonical text and reading that text, followed by
/// the bytes that came after the header, gives the same header again and leaves the same
/// bytes for the body.
pub proof fn header_round_trip(s: Seq<u8>)
    requires
        spec_header(s) is Ok,
    ensures
        spec_header(header_text(spec_header(s)->Ok_0.0) + s.subrange(spec_header(s)->Ok_0.1, s.len() as int))
            == Ok::<(HeaderModel, int), ParseError>((spec_header(s)->Ok_0.0, header_text(spec_header(s)->Ok_0.0).len() as int)),
{
    let (h, q) = spec_header(s)->Ok_0;
    parsed_header_is_valid(s);
    let rest = s.subrange(q, s.len() as int);
    if rest.len() > 0 {
        assert(rest[0] == s[q]);
    }
    header_text_then_body_parses(h, rest);
}

} // verus!
