use vstd::prelude::*;
use crate::lex::{ByteClass, run_end, lemma_run_end};
use crate::types::{ElementModel, FormatKind, HeaderModel, PropertyKind, PropertyModel, ValueKind};
use crate::value::{DecodeError, ValueModel, spec_scalar, width};
use crate::body::{
    PropertyValueModel, count_of, spec_body, spec_elements_body, spec_items, spec_property_value,
    spec_record, spec_records,
};

verus! {

proof fn lemma_run_end_shift(s: Seq<u8>, c: int, p: int, k: ByteClass)
    requires
        0 <= c <= s.len(),
        0 <= p <= s.len() - c,
    ensures
        run_end(s.subrange(c, s.len() as int), p, k) + c == run_end(s, c + p, k),
    decreases s.len() - c - p,
{
    let t = s.subrange(c, s.len() as int);
    if p < t.len() {
        assert(t[p] == s[c + p]);
        lemma_run_end_shift(s, c, p + 1, k);
    }
}

proof fn lemma_scalar_bound(s: Seq<u8>, p: int, f: FormatKind, k: ValueKind)
    requires
        0 <= p <= s.len(),
    ensures
        spec_scalar(s, p, f, k) matches Ok((_, q)) ==> p <= q <= s.len(),
{
    lemma_run_end(s, p, ByteClass::Space);
    let a = run_end(s, p, ByteClass::Space);
    lemma_run_end(s, a, ByteClass::NotSpace);
    let e = run_end(s, a, ByteClass::NotSpace);
    lemma_run_end(s, e, ByteClass::Space);
}

/// Decoding a value from a suffix of the input gives the same value as decoding it from
/// the whole input at the matching position.
proof fn lemma_scalar_shift(s: Seq<u8>, c: int, p: int, f: FormatKind, k: ValueKind)
    requires
        0 <= c <= s.len(),
        0 <= p <= s.len() - c,
        spec_scalar(s.subrange(c, s.len() as int), p, f, k) is Ok,
    ensures
        spec_scalar(s, c + p, f, k) == Ok::<(ValueModel, int), DecodeError>((
            spec_scalar(s.subrange(c, s.len() as int), p, f, k)->Ok_0.0,
            c + spec_scalar(s.subrange(c, s.len() as int), p, f, k)->Ok_0.1,
        )),
{
    let t = s.subrange(c, s.len() as int);
    if f == FormatKind::Ascii {
        lemma_run_end(t, p, ByteClass::Space);
        let a = run_end(t, p, ByteClass::Space);
        lemma_run_end(t, a, ByteClass::NotSpace);
        let e = run_end(t, a, ByteClass::NotSpace);
        lemma_run_end_shift(s, c, p, ByteClass::Space);
        lemma_run_end_shift(s, c, a, ByteClass::NotSpace);
        lemma_run_end_shift(s, c, e, ByteClass::Space);
        assert(t.subrange(a, e) =~= s.subrange(c + a, c + e));
    } else {
        let w = width(k) as int;
        assert(t.subrange(p, p + w) =~= s.subrange(c + p, c + p + w));
    }
}

proof fn lemma_items(s: Seq<u8>, c: int, p: int, f: FormatKind, k: ValueKind, n: nat, acc: Seq<ValueModel>)
    requires
        0 <= c <= s.len(),
        0 <= p <= s.len() - c,
    ensures
        spec_items(s.subrange(c, s.len() as int), p, f, k, n, acc) matches Ok((r, q)) ==>
            p <= q <= s.len() - c && spec_items(s, c + p, f, k, n, acc) == Ok::<(Seq<ValueModel>, int), DecodeError>((r, c + q)),
    decreases n,
{
    let t = s.subrange(c, s.len() as int);
    if n > 0 {
        lemma_scalar_bound(t, p, f, k);
        if let Ok((v, q)) = spec_scalar(t, p, f, k) {
            lemma_scalar_shift(s, c, p, f, k);
            lemma_items(s, c, q, f, k, (n - 1) as nat, acc.push(v));
        }
    }
}

proof fn lemma_property_value(s: Seq<u8>, c: int, p: int, f: FormatKind, kind: PropertyKind)
    requires
        0 <= c <= s.len(),
        0 <= p <= s.len() - c,
    ensures
        spec_property_value(s.subrange(c, s.len() as int), p, f, kind) matches Ok((r, q)) ==>
            p <= q <= s.len() - c && spec_property_value(s, c + p, f, kind) == Ok::<(PropertyValueModel, int), DecodeError>((r, c + q)),
{
    let t = s.subrange(c, s.len() as int);
    match kind {
        PropertyKind::Scalar(k) => {
            lemma_scalar_bound(t, p, f, k);
            if spec_scalar(t, p, f, k) is Ok {
                lemma_scalar_shift(s, c, p, f, k);
            }
        },
        PropertyKind::List(ck, k) => {
            lemma_scalar_bound(t, p, f, ck);
            if let Ok((cv, q)) = spec_scalar(t, p, f, ck) {
                lemma_scalar_shift(s, c, p, f, ck);
                if let Some(n) = count_of(cv) {
                    lemma_items(s, c, q, f, k, n as nat, Seq::empty());
                }
            }
        },
    }
}

proof fn lemma_record(s: Seq<u8>, c: int, p: int, f: FormatKind, props: Seq<PropertyModel>, i: int, acc: Seq<PropertyValueModel>)
    requires
        0 <= c <= s.len(),
        0 <= p <= s.len() - c,
    ensures
        spec_record(s.subrange(c, s.len() as int), p, f, props, i, acc) matches Ok((r, q)) ==>
            p <= q <= s.len() - c && spec_record(s, c + p, f, props, i, acc) == Ok::<(Seq<PropertyValueModel>, int), DecodeError>((r, c + q)),
    decreases props.len() - i,
{
    let t = s.subrange(c, s.len() as int);
    if i < props.len() {
        lemma_property_value(s, c, p, f, props[i].kind);
        if let Ok((v, q)) = spec_property_value(t, p, f, props[i].kind) {
            lemma_record(s, c, q, f, props, i + 1, acc.push(v));
        }
    }
}

proof fn lemma_records(s: Seq<u8>, c: int, p: int, f: FormatKind, props: Seq<PropertyModel>, n: nat, acc: Seq<Seq<PropertyValueModel>>)
    requires
        0 <= c <= s.len(),
        0 <= p <= s.len() - c,
    ensures
        spec_records(s.subrange(c, s.len() as int), p, f, props, n, acc) matches Ok((r, q)) ==>
            p <= q <= s.len() - c && spec_records(s, c + p, f, props, n, acc) == Ok::<(Seq<Seq<PropertyValueModel>>, int), DecodeError>((r, c + q)),
    decreases n,
{
    let t = s.subrange(c, s.len() as int);
    if n > 0 {
        lemma_record(s, c, p, f, props, 0, Seq::empty());
        if let Ok((r, q)) = spec_record(t, p, f, props, 0, Seq::empty()) {
            lemma_records(s, c, q, f, props, (n - 1) as nat, acc.push(r));
        }
    }
}


proof fn lemma_elements_shift(s: Seq<u8>, c: int, p: int, f: FormatKind, els: Seq<ElementModel>, i: int, acc: Seq<Seq<Seq<PropertyValueModel>>>)
    requires
        0 <= c <= s.len(),
        0 <= p <= s.len() - c,
    ensures
        spec_elements_body(s.subrange(c, s.len() as int), p, f, els, i, acc) matches Ok((r, q)) ==>
            p <= q <= s.len() - c
            && spec_elements_body(s, c + p, f, els, i, acc) == Ok::<(Seq<Seq<Seq<PropertyValueModel>>>, int), DecodeError>((r, c + q)),
    decreases els.len() - i,
{
    let t = s.subrange(c, s.len() as int);
    if i < els.len() {
        lemma_records(s, c, p, f, els[i].properties, els[i].count as nat, Seq::empty());
        if let Ok((rs, q)) = spec_records(t, p, f, els[i].properties, els[i].count as nat, Seq::empty()) {
            lemma_elements_shift(s, c, q, f, els, i + 1, acc.push(rs));
        }
    }
}

proof fn lemma_elements_prefix(s: Seq<u8>, p: int, f: FormatKind, es1: Seq<ElementModel>, es2: Seq<ElementModel>, i: int, acc: Seq<Seq<Seq<PropertyValueModel>>>)
    requires
        0 <= i <= es1.len(),
    ensures
        spec_elements_body(s, p, f, es1 + es2, i, acc) == (match spec_elements_body(s, p, f, es1, i, acc) {
            Ok((r, c)) => spec_elements_body(s, c, f, es1 + es2, es1.len() as int, r),
            Err(e) => Err(e),
        }),
    decreases es1.len() - i,
{
    if i < es1.len() {
        assert((es1 + es2)[i] == es1[i]);
        let e = es1[i];
        if let Ok((rs, q)) = spec_records(s, p, f, e.properties, e.count as nat, Seq::empty()) {
            lemma_elements_prefix(s, q, f, es1, es2, i + 1, acc.push(rs));
        }
    }
}

proof fn lemma_elements_suffix(s: Seq<u8>, p: int, f: FormatKind, es1: Seq<ElementModel>, es2: Seq<ElementModel>, j: int, acc: Seq<Seq<Seq<PropertyValueModel>>>)
    requires
        0 <= j <= es2.len(),
    ensures
        spec_elements_body(s, p, f, es1 + es2, es1.len() + j, acc) == spec_elements_body(s, p, f, es2, j, acc),
    decreases es2.len() - j,
{
    if j < es2.len() {
        assert((es1 + es2)[es1.len() + j] == es2[j]);
        let e = es2[j];
        if let Ok((rs, q)) = spec_records(s, p, f, e.properties, e.count as nat, Seq::empty()) {
            lemma_elements_suffix(s, q, f, es1, es2, j + 1, acc.push(rs));
        }
    }
}

proof fn lemma_elements_acc(s: Seq<u8>, p: int, f: FormatKind, es: Seq<ElementModel>, j: int, acc: Seq<Seq<Seq<PropertyValueModel>>>)
    ensures
        spec_elements_body(s, p, f, es, j, acc) == (match spec_elements_body(s, p, f, es, j, Seq::empty()) {
            Ok((r, q)) => Ok::<(Seq<Seq<Seq<PropertyValueModel>>>, int), DecodeError>((acc + r, q)),
            Err(e) => Err(e),
        }),
    decreases es.len() - j,
{
    let empty = Seq::<Seq<Seq<PropertyValueModel>>>::empty();
    if j >= es.len() {
        assert(acc + empty =~= acc);
    } else {
        let e = es[j];
        if let Ok((rs, q)) = spec_records(s, p, f, e.properties, e.count as nat, Seq::empty()) {
            lemma_elements_acc(s, q, f, es, j + 1, acc.push(rs));
            lemma_elements_acc(s, q, f, es, j + 1, empty.push(rs));
            if let Ok((r, q2)) = spec_elements_body(s, q, f, es, j + 1, empty) {
                assert(acc + (empty.push(rs) + r) =~= acc.push(rs) + r);
            }
        }
    }
}

/// Decoding the elements of a header in two groups, the second from the bytes where the
/// first stopped, and joining the records gives what decoding them all at once gives.
pub proof fn body_split(s: Seq<u8>, h: HeaderModel, h1: HeaderModel, h2: HeaderModel)
    requires
        h1.format.kind == h.format.kind,
        h2.format.kind == h.format.kind,
        h.elements == h1.elements + h2.elements,
        spec_body(s, h1) is Ok,
        spec_body(s.subrange(spec_body(s, h1)->Ok_0.1, s.len() as int), h2) is Ok,
    ensures
        spec_body(s, h1)->Ok_0.1 <= s.len(),
        spec_body(s, h) == Ok::<(Seq<Seq<Seq<PropertyValueModel>>>, int), DecodeError>((
            spec_body(s, h1)->Ok_0.0 + spec_body(s.subrange(spec_body(s, h1)->Ok_0.1, s.len() as int), h2)->Ok_0.0,
            spec_body(s, h1)->Ok_0.1 + spec_body(s.subrange(spec_body(s, h1)->Ok_0.1, s.len() as int), h2)->Ok_0.1,
        )),
{
    let f = h.format.kind;
    let empty = Seq::<Seq<Seq<PropertyValueModel>>>::empty();
    assert(s.subrange(0, s.len() as int) =~= s);
    lemma_elements_shift(s, 0, 0, f, h1.elements, 0, empty);
    let (r1, c1) = spec_body(s, h1)->Ok_0;
    lemma_elements_prefix(s, 0, f, h1.elements, h2.elements, 0, empty);
    lemma_elements_suffix(s, c1, f, h1.elements, h2.elements, 0, r1);
    assert(h1.elements.len() + 0 == h1.elements.len());
    lemma_elements_acc(s, c1, f, h2.elements, 0, r1);
    lemma_elements_shift(s, c1, 0, f, h2.elements, 0, empty);
}

} // verus!
