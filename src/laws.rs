use vstd::prelude::*;
use crate::lex::{ByteClass, run_end, lemma_run_end_of, digits_value, all_digits, is_digit, is_space, in_class};
use crate::types::{FormatKind, ValueKind};
use crate::value::{FloatModel, ValueModel, from_bits, kind_of, width, be_value, le_value, pow256, spec_scalar, int_text, int_of_kind, float_text, ascii_value, sign_len};

verus! {

/// Decoding one value takes exactly what its kind demands: `width(k)` bytes in a
/// binary body; in an ASCII body one token, with the whitespace before and after it.
pub proof fn scalar_consumes_exactly(s: Seq<u8>, p: int, f: FormatKind, k: ValueKind)
    requires
        0 <= p <= s.len(),
        spec_scalar(s, p, f, k) is Ok,
    ensures
        f != FormatKind::Ascii ==> spec_scalar(s, p, f, k)->Ok_0.1 == p + width(k),
        f == FormatKind::Ascii ==> spec_scalar(s, p, f, k)->Ok_0.1 == run_end(s, run_end(s, run_end(s, p, ByteClass::Space), ByteClass::NotSpace), ByteClass::Space),
{
}

/// `w` bytes that write `n`, most significant first.
pub open spec fn encode_be(n: nat, w: nat) -> Seq<u8>
    decreases w,
{
    if w == 0 {
        Seq::empty()
    } else {
        encode_be(n / 256, (w - 1) as nat).push((n % 256) as u8)
    }
}

/// `w` bytes that write `n`, least significant first.
pub open spec fn encode_le(n: nat, w: nat) -> Seq<u8>
    decreases w,
{
    if w == 0 {
        Seq::empty()
    } else {
        seq![(n % 256) as u8] + encode_le(n / 256, (w - 1) as nat)
    }
}

proof fn lemma_encode_be(n: nat, w: nat)
    requires
        n < pow256(w),
    ensures
        encode_be(n, w).len() == w,
        be_value(encode_be(n, w)) == n,
    decreases w,
{
    if w > 0 {
        let pw = pow256((w - 1) as nat);
        assert(n / 256 < pw) by (nonlinear_arith)
            requires n < 256 * pw;
        lemma_encode_be(n / 256, (w - 1) as nat);
        let e = encode_be(n, w);
        assert(e.drop_last() =~= encode_be(n / 256, (w - 1) as nat));
        assert(n == (n / 256) * 256 + n % 256) by (nonlinear_arith);
    }
}

proof fn lemma_encode_le(n: nat, w: nat)
    requires
        n < pow256(w),
    ensures
        encode_le(n, w).len() == w,
        le_value(encode_le(n, w)) == n,
    decreases w,
{
    if w > 0 {
        let pw = pow256((w - 1) as nat);
        assert(n / 256 < pw) by (nonlinear_arith)
            requires n < 256 * pw;
        lemma_encode_le(n / 256, (w - 1) as nat);
        let e = encode_le(n, w);
        assert(e.subrange(1, e.len() as int) =~= encode_le(n / 256, (w - 1) as nat));
        assert(n == (n / 256) * 256 + n % 256) by (nonlinear_arith);
    }
}

/// The unsigned number that a value's bits write: two's complement for a negative
/// integer, the bit pattern of a binary float.
pub open spec fn bits_of(v: ValueModel) -> nat {
    match v {
        ValueModel::Int8(x) => (if x < 0 { x + 0x100 } else { x as int }) as nat,
        ValueModel::UInt8(x) => x as nat,
        ValueModel::Int16(x) => (if x < 0 { x + 0x10000 } else { x as int }) as nat,
        ValueModel::UInt16(x) => x as nat,
        ValueModel::Int32(x) => (if x < 0 { x + 0x1_0000_0000 } else { x as int }) as nat,
        ValueModel::UInt32(x) => x as nat,
        ValueModel::Int64(x) => (if x < 0 { x + 0x1_0000_0000_0000_0000 } else { x as int }) as nat,
        ValueModel::UInt64(x) => x as nat,
        ValueModel::Float32(FloatModel::Bits(b)) => b as nat,
        ValueModel::Float64(FloatModel::Bits(b)) => b as nat,
        _ => 0,
    }
}

/// A value that a binary body can hold: any integer, or the bits of a float of its width.
pub open spec fn binary_value(v: ValueModel) -> bool {
    match v {
        ValueModel::Float32(FloatModel::Bits(b)) => b < 0x1_0000_0000,
        ValueModel::Float64(FloatModel::Bits(_)) => true,
        ValueModel::Float32(_) | ValueModel::Float64(_) => false,
        _ => true,
    }
}

/// The bytes of `v` in a binary body written in byte order `f`.
pub open spec fn encode_binary(v: ValueModel, f: FormatKind) -> Seq<u8> {
    if f == FormatKind::BigEndian {
        encode_be(bits_of(v), width(kind_of(v)))
    } else {
        encode_le(bits_of(v), width(kind_of(v)))
    }
}

proof fn lemma_bits_of(v: ValueModel)
    requires
        binary_value(v),
    ensures
        bits_of(v) < pow256(width(kind_of(v))),
        from_bits(kind_of(v), bits_of(v)) == v,
{
    reveal_with_fuel(pow256, 9);
}

/// Writing a value in binary, in either byte order, and decoding it as its kind gives it
/// back, having read exactly its bytes, whatever follows.
pub proof fn binary_round_trip(v: ValueModel, f: FormatKind, rest: Seq<u8>)
    requires
        f != FormatKind::Ascii,
        binary_value(v),
    ensures
        spec_scalar(encode_binary(v, f) + rest, 0, f, kind_of(v))
            == Ok::<(ValueModel, int), crate::value::DecodeError>((v, width(kind_of(v)) as int)),
{
    let k = kind_of(v);
    let w = width(k);
    lemma_bits_of(v);
    let e = encode_binary(v, f);
    if f == FormatKind::BigEndian {
        lemma_encode_be(bits_of(v), w);
    } else {
        lemma_encode_le(bits_of(v), w);
    }
    assert((e + rest).subrange(0, w as int) =~= e);
}

/// The decimal digits of `n`, without leading zeros.
pub open spec fn decimal(n: nat) -> Seq<u8>
    decreases n,
{
    if n < 10 {
        seq![(48 + n) as u8]
    } else {
        decimal(n / 10).push((48 + n % 10) as u8)
    }
}

pub proof fn lemma_decimal(n: nat)
    ensures
        decimal(n).len() > 0,
        all_digits(decimal(n)),
        digits_value(decimal(n)) == n,
    decreases n,
{
    if n >= 10 {
        lemma_decimal(n / 10);
        let d = decimal(n);
        assert(d.drop_last() =~= decimal(n / 10));
        assert(d.last() == (48 + n % 10) as u8);
        assert(n == (n / 10) * 10 + n % 10) by (nonlinear_arith);
        assert(all_digits(d)) by {
            assert forall|i: int| 0 <= i < d.len() implies is_digit(#[trigger] d[i]) by {
                if i < d.len() - 1 {
                    assert(d[i] == decimal(n / 10)[i]);
                }
            }
        }
    } else {
        assert(decimal(n).drop_last() =~= Seq::<u8>::empty());
        assert(digits_value(Seq::<u8>::empty()) == 0);
    }
}

/// The integer an integer value holds.
pub open spec fn int_of(v: ValueModel) -> int {
    match v {
        ValueModel::Int8(x) => x as int,
        ValueModel::UInt8(x) => x as int,
        ValueModel::Int16(x) => x as int,
        ValueModel::UInt16(x) => x as int,
        ValueModel::Int32(x) => x as int,
        ValueModel::UInt32(x) => x as int,
        ValueModel::Int64(x) => x as int,
        ValueModel::UInt64(x) => x as int,
        _ => 0,
    }
}

pub open spec fn is_integer(v: ValueModel) -> bool {
    !(v is Float32) && !(v is Float64)
}

/// The text of an integer value in an ASCII body: a minus sign if it is negative, then
/// its decimal digits.
pub open spec fn integer_text(v: ValueModel) -> Seq<u8> {
    if int_of(v) < 0 {
        seq![45u8] + decimal((-int_of(v)) as nat)
    } else {
        decimal(int_of(v) as nat)
    }
}

/// A token followed by whitespace decodes as the value the token alone gives,
/// reading the token and the whitespace after it.
proof fn lemma_token_then_space(t: Seq<u8>, rest: Seq<u8>, k: ValueKind)
    requires
        t.len() > 0,
        forall|i: int| 0 <= i < t.len() ==> !is_space(#[trigger] t[i]),
        rest.len() > 0,
        is_space(rest[0]),
        ascii_value(t + rest, 0, t.len() as int, k) is Some,
    ensures
        spec_scalar(t + rest, 0, FormatKind::Ascii, k)
            == Ok::<(ValueModel, int), crate::value::DecodeError>((ascii_value(t + rest, 0, t.len() as int, k)->Some_0,
                run_end(t + rest, t.len() as int, ByteClass::Space))),
{
    let s = t + rest;
    assert(s[0] == t[0]);
    lemma_run_end_of(s, 0, 0, ByteClass::Space);
    assert forall|i: int| 0 <= i < t.len() implies in_class(ByteClass::NotSpace, #[trigger] s[i]) by {
        assert(s[i] == t[i]);
    }
    assert(s[t.len() as int] == rest[0]);
    lemma_run_end_of(s, 0, t.len() as int, ByteClass::NotSpace);
}

proof fn lemma_integer_text(v: ValueModel)
    requires
        is_integer(v),
    ensures
        integer_text(v).len() > 0,
        forall|i: int| 0 <= i < integer_text(v).len() ==> !is_space(#[trigger] integer_text(v)[i]),
        int_text(integer_text(v)) == Some(int_of(v)),
{
    let x = int_of(v);
    let m: nat = if x < 0 { (-x) as nat } else { x as nat };
    let t = integer_text(v);
    lemma_decimal(m);
    let d = decimal(m);
    if x < 0 {
        assert(t.subrange(1, t.len() as int) =~= d);
        assert forall|i: int| 0 <= i < t.len() implies !is_space(#[trigger] t[i]) by {
            if i > 0 {
                assert(t[i] == d[i - 1]);
            }
        }
        assert(sign_len(t) == 1);
    } else {
        assert(t.subrange(0, t.len() as int) =~= d);
        assert(is_digit(d[0]));
        assert forall|i: int| 0 <= i < t.len() implies !is_space(#[trigger] t[i]) by {
            assert(is_digit(d[i]));
        }
        assert(sign_len(t) == 0);
    }
}

proof fn lemma_int_of_kind(v: ValueModel)
    requires
        is_integer(v),
    ensures
        int_of_kind(kind_of(v), int_of(v)) == Some(v),
{
}

/// The text of a value in an ASCII body: the decimal text of an integer, the token of a float.
pub open spec fn ascii_text(v: ValueModel) -> Seq<u8> {
    match v {
        ValueModel::Float32(FloatModel::Text(t)) => t,
        ValueModel::Float64(FloatModel::Text(t)) => t,
        _ => integer_text(v),
    }
}

/// A decimal floating-point token: not empty, without whitespace, in the float grammar.
pub open spec fn float_token_ok(t: Seq<u8>) -> bool {
    t.len() > 0 && (forall|i: int| 0 <= i < t.len() ==> !is_space(#[trigger] t[i])) && float_text(t)
}

/// A value an ASCII body can hold: any integer, or a float given by its decimal token.
pub open spec fn ascii_writable(v: ValueModel) -> bool {
    match v {
        ValueModel::Float32(FloatModel::Text(t)) => float_token_ok(t),
        ValueModel::Float64(FloatModel::Text(t)) => float_token_ok(t),
        ValueModel::Float32(_) | ValueModel::Float64(_) => false,
        _ => true,
    }
}

/// Writing a value of any of the ten kinds as ASCII text, followed by whitespace, and
/// decoding it as its kind gives it back, having read the text and the whitespace.
pub proof fn ascii_round_trip(v: ValueModel, rest: Seq<u8>)
    requires
        ascii_writable(v),
        rest.len() > 0,
        is_space(rest[0]),
    ensures
        spec_scalar(ascii_text(v) + rest, 0, FormatKind::Ascii, kind_of(v))
            == Ok::<(ValueModel, int), crate::value::DecodeError>((v,
                run_end(ascii_text(v) + rest, ascii_text(v).len() as int, ByteClass::Space))),
{
    let t = ascii_text(v);
    let s = t + rest;
    assert(s.subrange(0, t.len() as int) =~= t);
    if is_integer(v) {
        lemma_integer_text(v);
        lemma_int_of_kind(v);
        assert(ascii_value(s, 0, t.len() as int, kind_of(v)) == Some(v));
    } else {
        assert(ascii_value(s, 0, t.len() as int, kind_of(v)) == Some(v));
    }
    lemma_token_then_space(t, rest, kind_of(v));
}

} // verus!
