use vstd::prelude::*;
use crate::lex::{ByteClass, run_end, lemma_run_end, run_end_exec, digits_value, all_digits, parse_digits};
use crate::types::{FormatKind, ValueKind};

verus! {

/// A floating-point value as the body holds it: the IEEE 754 bit pattern read from a
/// binary body, or the text of an ASCII token, checked against the decimal grammar.
#[derive(Clone, Debug, PartialEq, Eq)]
pub enum Float {
    Bits(u64),
    Text(Vec<u8>),
}

/// One decoded value, tagged by the kind that produced it.
#[derive(Clone, Debug, PartialEq, Eq)]
pub enum Value {
    Int8(i8),
    UInt8(u8),
    Int16(i16),
    UInt16(u16),
    Int32(i32),
    UInt32(u32),
    Int64(i64),
    UInt64(u64),
    Float32(Float),
    Float64(Float),
}

/// Why a body could not be decoded.
#[derive(Clone, Copy, Debug, PartialEq, Eq, Structural)]
pub enum DecodeError {
    /// Fewer bytes (binary) or tokens (ASCII) remain than the next value needs.
    UnexpectedEndOfInput { needed: usize, available: usize },
    /// The token at `start..end` is not a number of the kind expected.
    InvalidNumericToken { start: usize, end: usize, expected: ValueKind },
    /// An ASCII token runs up to the end of the input with no delimiter after it.
    MissingDelimiter { offset: usize },
    /// The count of a list, read at `offset`, is negative or not an integer.
    InvalidListCount { offset: usize },
}

pub ghost enum FloatModel {
    Bits(u64),
    Text(Seq<u8>),
}

pub ghost enum ValueModel {
    Int8(i8),
    UInt8(u8),
    Int16(i16),
    UInt16(u16),
    Int32(i32),
    UInt32(u32),
    Int64(i64),
    UInt64(u64),
    Float32(FloatModel),
    Float64(FloatModel),
}

impl View for Float {
    type V = FloatModel;

    open spec fn view(&self) -> FloatModel {
        match self {
            Float::Bits(b) => FloatModel::Bits(*b),
            Float::Text(t) => FloatModel::Text(t@),
        }
    }
}

impl View for Value {
    type V = ValueModel;

    open spec fn view(&self) -> ValueModel {
        match self {
            Value::Int8(x) => ValueModel::Int8(*x),
            Value::UInt8(x) => ValueModel::UInt8(*x),
            Value::Int16(x) => ValueModel::Int16(*x),
            Value::UInt16(x) => ValueModel::UInt16(*x),
            Value::Int32(x) => ValueModel::Int32(*x),
            Value::UInt32(x) => ValueModel::UInt32(*x),
            Value::Int64(x) => ValueModel::Int64(*x),
            Value::UInt64(x) => ValueModel::UInt64(*x),
            Value::Float32(f) => ValueModel::Float32(f@),
            Value::Float64(f) => ValueModel::Float64(f@),
        }
    }
}

pub open spec fn opt_view(r: Option<Value>) -> Option<ValueModel> {
    match r {
        Some(v) => Some(v@),
        None => None,
    }
}

/// The kind a value was decoded as.
pub open spec fn kind_of(v: ValueModel) -> ValueKind {
    match v {
        ValueModel::Int8(_) => ValueKind::Int8,
        ValueModel::UInt8(_) => ValueKind::UInt8,
        ValueModel::Int16(_) => ValueKind::Int16,
        ValueModel::UInt16(_) => ValueKind::UInt16,
        ValueModel::Int32(_) => ValueKind::Int32,
        ValueModel::UInt32(_) => ValueKind::UInt32,
        ValueModel::Int64(_) => ValueKind::Int64,
        ValueModel::UInt64(_) => ValueKind::UInt64,
        ValueModel::Float32(_) => ValueKind::Float32,
        ValueModel::Float64(_) => ValueKind::Float64,
    }
}

/// Bytes that a value of the kind takes in a binary body.
pub open spec fn width(k: ValueKind) -> nat {
    match k {
        ValueKind::Int8 | ValueKind::UInt8 => 1,
        ValueKind::Int16 | ValueKind::UInt16 => 2,
        ValueKind::Int32 | ValueKind::UInt32 | ValueKind::Float32 => 4,
        ValueKind::Int64 | ValueKind::UInt64 | ValueKind::Float64 => 8,
    }
}

pub fn width_exec(k: ValueKind) -> (r: usize)
    ensures
        r == width(k),
{
    match k {
        ValueKind::Int8 | ValueKind::UInt8 => 1,
        ValueKind::Int16 | ValueKind::UInt16 => 2,
        ValueKind::Int32 | ValueKind::UInt32 | ValueKind::Float32 => 4,
        ValueKind::Int64 | ValueKind::UInt64 | ValueKind::Float64 => 8,
    }
}

/// The number that bytes write, most significant first.
pub open spec fn be_value(b: Seq<u8>) -> nat
    decreases b.len(),
{
    if b.len() == 0 {
        0
    } else {
        be_value(b.drop_last()) * 256 + b.last() as nat
    }
}

/// The number that bytes write, least significant first.
pub open spec fn le_value(b: Seq<u8>) -> nat
    decreases b.len(),
{
    if b.len() == 0 {
        0
    } else {
        le_value(b.subrange(1, b.len() as int)) * 256 + b[0] as nat
    }
}

pub open spec fn pow256(n: nat) -> nat
    decreases n,
{
    if n == 0 {
        1
    } else {
        256 * pow256((n - 1) as nat)
    }
}

/// The value of kind `k` whose bits, read as an unsigned number, are `u`: two's
/// complement for the signed kinds, the bit pattern itself for the floating-point ones.
pub open spec fn from_bits(k: ValueKind, u: nat) -> ValueModel {
    match k {
        ValueKind::Int8 => ValueModel::Int8((if u < 0x80 { u as int } else { u - 0x100 }) as i8),
        ValueKind::UInt8 => ValueModel::UInt8(u as u8),
        ValueKind::Int16 => ValueModel::Int16((if u < 0x8000 { u as int } else { u - 0x10000 }) as i16),
        ValueKind::UInt16 => ValueModel::UInt16(u as u16),
        ValueKind::Int32 => ValueModel::Int32((if u < 0x8000_0000 { u as int } else { u - 0x1_0000_0000 }) as i32),
        ValueKind::UInt32 => ValueModel::UInt32(u as u32),
        ValueKind::Int64 => ValueModel::Int64((if u < 0x8000_0000_0000_0000 { u as int } else { u - 0x1_0000_0000_0000_0000 }) as i64),
        ValueKind::UInt64 => ValueModel::UInt64(u as u64),
        ValueKind::Float32 => ValueModel::Float32(FloatModel::Bits(u as u64)),
        ValueKind::Float64 => ValueModel::Float64(FloatModel::Bits(u as u64)),
    }
}

/// The integer a token writes: an optional sign, then one or more digits.
pub open spec fn sign_len(t: Seq<u8>) -> int {
    if t.len() > 0 && (t[0] == 43u8 || t[0] == 45u8) {
        1
    } else {
        0
    }
}

pub open spec fn int_text(t: Seq<u8>) -> Option<int> {
    let k = sign_len(t);
    if k == t.len() || !all_digits(t.subrange(k, t.len() as int)) {
        None
    } else if t[0] == 45u8 {
        Some(-digits_value(t.subrange(k, t.len() as int)))
    } else {
        Some(digits_value(t.subrange(k, t.len() as int)) as int)
    }
}

/// Whether a token is a decimal floating-point number: an optional sign, digits with an
/// optional fractional part (at least one digit in all), then an optional exponent.
pub open spec fn float_text(t: Seq<u8>) -> bool {
    let i0 = sign_len(t);
    let i1 = run_end(t, i0, ByteClass::Digit);
    let dot = i1 < t.len() && t[i1] == 46u8;
    let i2 = if dot { run_end(t, i1 + 1, ByteClass::Digit) } else { i1 };
    let ndigits = (i1 - i0) + (if dot { i2 - i1 - 1 } else { 0 });
    ndigits > 0 && (i2 == t.len() || ((t[i2] == 101u8 || t[i2] == 69u8) && {
        let i3 = i2 + 1 + sign_len(t.subrange(i2 + 1, t.len() as int));
        let i4 = run_end(t, i3, ByteClass::Digit);
        i4 > i3 && i4 == t.len()
    }))
}

/// The value of kind `k` that the integer `x` is, where it is in range.
pub open spec fn int_of_kind(k: ValueKind, x: int) -> Option<ValueModel> {
    match k {
        ValueKind::Int8 => if i8::MIN <= x <= i8::MAX { Some(ValueModel::Int8(x as i8)) } else { None },
        ValueKind::UInt8 => if 0 <= x <= u8::MAX { Some(ValueModel::UInt8(x as u8)) } else { None },
        ValueKind::Int16 => if i16::MIN <= x <= i16::MAX { Some(ValueModel::Int16(x as i16)) } else { None },
        ValueKind::UInt16 => if 0 <= x <= u16::MAX { Some(ValueModel::UInt16(x as u16)) } else { None },
        ValueKind::Int32 => if i32::MIN <= x <= i32::MAX { Some(ValueModel::Int32(x as i32)) } else { None },
        ValueKind::UInt32 => if 0 <= x <= u32::MAX { Some(ValueModel::UInt32(x as u32)) } else { None },
        ValueKind::Int64 => if i64::MIN <= x <= i64::MAX { Some(ValueModel::Int64(x as i64)) } else { None },
        ValueKind::UInt64 => if 0 <= x <= u64::MAX { Some(ValueModel::UInt64(x as u64)) } else { None },
        ValueKind::Float32 | ValueKind::Float64 => None,
    }
}

/// The value an ASCII token `s[a..e]` gives as kind `k`, if it is one.
pub open spec fn ascii_value(s: Seq<u8>, a: int, e: int, k: ValueKind) -> Option<ValueModel> {
    let t = s.subrange(a, e);
    match k {
        ValueKind::Float32 => if float_text(t) { Some(ValueModel::Float32(FloatModel::Text(t))) } else { None },
        ValueKind::Float64 => if float_text(t) { Some(ValueModel::Float64(FloatModel::Text(t))) } else { None },
        _ => match int_text(t) {
            Some(x) => int_of_kind(k, x),
            None => None,
        },
    }
}

/// Decodes one value of kind `k` at `p`: a fixed-width field in a binary body, or a
/// whitespace-delimited token (after any whitespace) and its delimiter in an ASCII one.
pub open spec fn spec_scalar(s: Seq<u8>, p: int, f: FormatKind, k: ValueKind) -> Result<(ValueModel, int), DecodeError> {
    match f {
        FormatKind::Ascii => {
            let a = run_end(s, p, ByteClass::Space);
            let e = run_end(s, a, ByteClass::NotSpace);
            let q = run_end(s, e, ByteClass::Space);
            if a == s.len() {
                Err(DecodeError::UnexpectedEndOfInput { needed: 1, available: 0 })
            } else {
                match ascii_value(s, a, e, k) {
                    None => Err(DecodeError::InvalidNumericToken { start: a as usize, end: e as usize, expected: k }),
                    Some(v) => if e == s.len() {
                        Err(DecodeError::MissingDelimiter { offset: e as usize })
                    } else {
                        Ok((v, q))
                    },
                }
            }
        },
        _ => if p + width(k) > s.len() {
            Err(DecodeError::UnexpectedEndOfInput { needed: width(k) as usize, available: (s.len() - p) as usize })
        } else {
            let b = s.subrange(p, p + width(k));
            Ok((from_bits(k, if f == FormatKind::BigEndian { be_value(b) } else { le_value(b) }), p + width(k)))
        },
    }
}

/// An exec result agrees with a decoding result of the spec.
pub open spec fn agrees<T: View>(r: Result<(T, usize), DecodeError>, m: Result<(T::V, int), DecodeError>) -> bool {
    match r {
        Ok((v, q)) => m == Ok::<(T::V, int), DecodeError>((v@, q as int)),
        Err(e) => m == Err::<(T::V, int), DecodeError>(e),
    }
}

proof fn lemma_pow256_bound(i: nat)
    requires
        i <= 8,
    ensures
        pow256(i) <= 0x1_0000_0000_0000_0000,
        pow256(i) > 0,
    decreases i,
{
    reveal_with_fuel(pow256, 9);
    if i > 0 {
        lemma_pow256_bound((i - 1) as nat);
    }
}

fn read_be(s: &[u8], p: usize, w: usize) -> (r: u64)
    requires
        w <= 8,
        p + w <= s@.len(),
    ensures
        r as nat == be_value(s@.subrange(p as int, p + w)),
        (r as nat) < pow256(w as nat),
{
    let n = s.len();
    let mut acc: u64 = 0;
    let mut i: usize = 0;
    assert(s@.subrange(p as int, p as int).len() == 0);
    while i < w
        invariant
            n == s@.len(),
            i <= w <= 8,
            p + w <= s@.len(),
            acc as nat == be_value(s@.subrange(p as int, p + i)),
            (acc as nat) < pow256(i as nat),
        decreases w - i,
    {
        proof {
            lemma_pow256_bound((i + 1) as nat);
            assert(s@.subrange(p as int, p + i + 1).drop_last() =~= s@.subrange(p as int, p + i));
            let b = s@[p + i];
            let pw = pow256(i as nat);
            assert((acc as nat) * 256 + b < pw * 256) by (nonlinear_arith)
                requires (acc as nat) < pw, b < 256;
        }
        acc = acc * 256 + s[p + i] as u64;
        i = i + 1;
    }
    acc
}

fn read_le(s: &[u8], p: usize, w: usize) -> (r: u64)
    requires
        w <= 8,
        p + w <= s@.len(),
    ensures
        r as nat == le_value(s@.subrange(p as int, p + w)),
        (r as nat) < pow256(w as nat),
{
    let n = s.len();
    let mut acc: u64 = 0;
    let mut i: usize = w;
    assert(s@.subrange(p + w, p + w).len() == 0);
    while i > 0
        invariant
            n == s@.len(),
            i <= w <= 8,
            p + w <= s@.len(),
            acc as nat == le_value(s@.subrange(p + i, p + w)),
            (acc as nat) < pow256((w - i) as nat),
        decreases i,
    {
        proof {
            lemma_pow256_bound((w - i + 1) as nat);
            let t = s@.subrange(p + i - 1, p + w);
            assert(t.subrange(1, t.len() as int) =~= s@.subrange(p + i, p + w));
            assert(t[0] == s@[p + i - 1]);
            let b = s@[p + i - 1];
            let pw = pow256((w - i) as nat);
            assert((acc as nat) * 256 + b < pw * 256) by (nonlinear_arith)
                requires (acc as nat) < pw, b < 256;
        }
        acc = acc * 256 + s[p + i - 1] as u64;
        i = i - 1;
    }
    acc
}

fn from_bits_exec(k: ValueKind, u: u64) -> (r: Value)
    requires
        (u as nat) < pow256(width(k)),
    ensures
        r@ == from_bits(k, u as nat),
{
    proof {
        reveal_with_fuel(pow256, 9);
    }
    match k {
        ValueKind::Int8 => Value::Int8(if u < 0x80 { u as i8 } else { ((u - 0x80) as i8) + i8::MIN }),
        ValueKind::UInt8 => Value::UInt8(u as u8),
        ValueKind::Int16 => Value::Int16(if u < 0x8000 { u as i16 } else { ((u - 0x8000) as i16) + i16::MIN }),
        ValueKind::UInt16 => Value::UInt16(u as u16),
        ValueKind::Int32 => Value::Int32(if u < 0x8000_0000 { u as i32 } else { ((u - 0x8000_0000) as i32) + i32::MIN }),
        ValueKind::UInt32 => Value::UInt32(u as u32),
        ValueKind::Int64 => Value::Int64(if u < 0x8000_0000_0000_0000 { u as i64 } else { ((u - 0x8000_0000_0000_0000) as i64) + i64::MIN }),
        ValueKind::UInt64 => Value::UInt64(u),
        ValueKind::Float32 => Value::Float32(Float::Bits(u)),
        ValueKind::Float64 => Value::Float64(Float::Bits(u)),
    }
}

proof fn lemma_digits_to_end(t: Seq<u8>, k: int)
    requires
        0 <= k <= t.len(),
    ensures
        (run_end(t, k, ByteClass::Digit) == t.len()) == all_digits(t.subrange(k, t.len() as int)),
{
    lemma_run_end(t, k, ByteClass::Digit);
    let e = run_end(t, k, ByteClass::Digit);
    if e == t.len() {
        assert forall|i: int| 0 <= i < t.len() - k implies crate::lex::is_digit(#[trigger] t.subrange(k, t.len() as int)[i]) by {
            assert(t.subrange(k, t.len() as int)[i] == t[k + i]);
        }
    } else {
        assert(t.subrange(k, t.len() as int)[e - k] == t[e]);
    }
}

fn sign_len_exec(t: &[u8]) -> (r: usize)
    ensures
        r as int == sign_len(t@),
{
    if t.len() > 0 && (t[0] == 43 || t[0] == 45) {
        1
    } else {
        0
    }
}

fn int_of_kind_exec(k: ValueKind, neg: bool, m: u64) -> (r: Option<Value>)
    ensures
        opt_view(r) == int_of_kind(k, if neg { -(m as int) } else { m as int }),
{
    if !neg {
        match k {
            ValueKind::Int8 => if m <= 0x7f { Some(Value::Int8(m as i8)) } else { None },
            ValueKind::UInt8 => if m <= 0xff { Some(Value::UInt8(m as u8)) } else { None },
            ValueKind::Int16 => if m <= 0x7fff { Some(Value::Int16(m as i16)) } else { None },
            ValueKind::UInt16 => if m <= 0xffff { Some(Value::UInt16(m as u16)) } else { None },
            ValueKind::Int32 => if m <= 0x7fff_ffff { Some(Value::Int32(m as i32)) } else { None },
            ValueKind::UInt32 => if m <= 0xffff_ffff { Some(Value::UInt32(m as u32)) } else { None },
            ValueKind::Int64 => if m <= 0x7fff_ffff_ffff_ffff { Some(Value::Int64(m as i64)) } else { None },
            ValueKind::UInt64 => Some(Value::UInt64(m)),
            ValueKind::Float32 | ValueKind::Float64 => None,
        }
    } else {
        match k {
            ValueKind::Int8 => if m <= 0x80 { Some(Value::Int8((0 - (m as i16)) as i8)) } else { None },
            ValueKind::Int16 => if m <= 0x8000 { Some(Value::Int16((0 - (m as i32)) as i16)) } else { None },
            ValueKind::Int32 => if m <= 0x8000_0000 { Some(Value::Int32((0 - (m as i64)) as i32)) } else { None },
            ValueKind::Int64 => if m < 0x8000_0000_0000_0000 {
                Some(Value::Int64(0 - (m as i64)))
            } else if m == 0x8000_0000_0000_0000 {
                Some(Value::Int64(i64::MIN))
            } else {
                None
            },
            ValueKind::UInt8 => if m == 0 { Some(Value::UInt8(0)) } else { None },
            ValueKind::UInt16 => if m == 0 { Some(Value::UInt16(0)) } else { None },
            ValueKind::UInt32 => if m == 0 { Some(Value::UInt32(0)) } else { None },
            ValueKind::UInt64 => if m == 0 { Some(Value::UInt64(0)) } else { None },
            ValueKind::Float32 | ValueKind::Float64 => None,
        }
    }
}

/// The value of kind `k`, an integer kind, that the token `t` writes, if any.
fn int_token(t: &[u8], k: ValueKind) -> (r: Option<Value>)
    ensures
        opt_view(r) == (match int_text(t@) {
            Some(x) => int_of_kind(k, x),
            None => None,
        }),
{
    let n = sign_len_exec(t);
    if n == t.len() {
        return None;
    }
    let e = run_end_exec(t, n, ByteClass::Digit);
    proof {
        lemma_digits_to_end(t@, n as int);
    }
    if e != t.len() {
        return None;
    }
    match parse_digits(t, n, t.len()) {
        None => None,
        Some(m) => int_of_kind_exec(k, t[0] == 45, m),
    }
}

/// Whether the token `t` is a decimal floating-point number.
fn float_token(t: &[u8]) -> (r: bool)
    ensures
        r == float_text(t@),
{
    let i0 = sign_len_exec(t);
    let i1 = run_end_exec(t, i0, ByteClass::Digit);
    let dot = i1 < t.len() && t[i1] == 46;
    let i2 = if dot { run_end_exec(t, i1 + 1, ByteClass::Digit) } else { i1 };
    let nd = (i1 - i0) + (if dot { i2 - i1 - 1 } else { 0 });
    if nd == 0 {
        return false;
    }
    if i2 == t.len() {
        return true;
    }
    if t[i2] != 101 && t[i2] != 69 {
        return false;
    }
    let mut i3 = i2 + 1;
    if i3 < t.len() && (t[i3] == 43 || t[i3] == 45) {
        i3 = i3 + 1;
    }
    proof {
        let u = t@.subrange(i2 + 1, t@.len() as int);
        if u.len() > 0 {
            assert(u[0] == t@[i2 + 1]);
        }
    }
    let i4 = run_end_exec(t, i3, ByteClass::Digit);
    i4 > i3 && i4 == t.len()
}

fn ascii_token_value(s: &[u8], a: usize, e: usize, k: ValueKind) -> (r: Option<Value>)
    requires
        a <= e <= s@.len(),
    ensures
        opt_view(r) == ascii_value(s@, a as int, e as int, k),
{
    let tok = crate::header::copy_range(s, a, e);
    match k {
        ValueKind::Float32 => if float_token(tok.as_slice()) { Some(Value::Float32(Float::Text(tok))) } else { None },
        ValueKind::Float64 => if float_token(tok.as_slice()) { Some(Value::Float64(Float::Text(tok))) } else { None },
        _ => int_token(tok.as_slice(), k),
    }
}

/// Decodes one value of kind `k` at offset `p` of `s`, written as format `f` says.
/// On success returns the value and the offset just past it: past its bytes in a binary
/// body, past the token and the whitespace after it in an ASCII one.
pub fn decode_scalar(s: &[u8], p: usize, f: FormatKind, k: ValueKind) -> (r: Result<(Value, usize), DecodeError>)
    requires
        p <= s@.len(),
    ensures
        agrees(r, spec_scalar(s@, p as int, f, k)),
        r matches Ok((v, q)) ==> p < q <= s@.len() && kind_of(v@) == k,
{
    match f {
        FormatKind::Ascii => {
            let a = run_end_exec(s, p, ByteClass::Space);
            let e = run_end_exec(s, a, ByteClass::NotSpace);
            let q = run_end_exec(s, e, ByteClass::Space);
            if a == s.len() {
                return Err(DecodeError::UnexpectedEndOfInput { needed: 1, available: 0 });
            }
            match ascii_token_value(s, a, e, k) {
                None => Err(DecodeError::InvalidNumericToken { start: a, end: e, expected: k }),
                Some(v) => if e == s.len() {
                    Err(DecodeError::MissingDelimiter { offset: e })
                } else {
                    proof {
                        lemma_run_end(s@, a as int, ByteClass::NotSpace);
                        lemma_run_end(s@, e as int, ByteClass::Space);
                        lemma_run_end(s@, p as int, ByteClass::Space);
                        assert(kind_of(v@) == k);
                    }
                    Ok((v, q))
                },
            }
        },
        _ => {
            let w = width_exec(k);
            if w > s.len() - p {
                return Err(DecodeError::UnexpectedEndOfInput { needed: w, available: s.len() - p });
            }
            let u = if f == FormatKind::BigEndian { read_be(s, p, w) } else { read_le(s, p, w) };
            Ok((from_bits_exec(k, u), p + w))
        },
    }
}

} // verus!
