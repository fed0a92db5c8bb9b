use vstd::prelude::*;

verus! {

/// The byte classes that the grammar of the header and of ASCII bodies scans runs of.
#[derive(Clone, Copy, Debug, PartialEq, Eq, Structural)]
pub enum ByteClass {
    /// Space, tab, carriage return, line feed.
    Space,
    /// `0` to `9`.
    Digit,
    /// `A` to `Z`, `a` to `z` and `_`.
    Ident,
    /// Anything but a space byte.
    NotSpace,
    /// Anything but a line ending (`\r` or `\n`).
    NotEol,
}

pub open spec fn is_space(b: u8) -> bool {
    b == 32 || b == 9 || b == 10 || b == 13
}

pub open spec fn is_digit(b: u8) -> bool {
    48 <= b <= 57
}

pub open spec fn is_ident(b: u8) -> bool {
    (97 <= b <= 122) || (65 <= b <= 90) || b == 95
}

pub open spec fn in_class(c: ByteClass, b: u8) -> bool {
    match c {
        ByteClass::Space => is_space(b),
        ByteClass::Digit => is_digit(b),
        ByteClass::Ident => is_ident(b),
        ByteClass::NotSpace => !is_space(b),
        ByteClass::NotEol => b != 10 && b != 13,
    }
}

/// Whether `b` is a letter or an underscore, the bytes an identifier is made of.
pub fn is_identifier(b: u8) -> (r: bool)
    ensures
        r == is_ident(b),
{
    (b >= 97 && b <= 122) || (b >= 65 && b <= 90) || b == 95
}

pub fn class_has(c: ByteClass, b: u8) -> (r: bool)
    ensures
        r == in_class(c, b),
{
    match c {
        ByteClass::Space => b == 32 || b == 9 || b == 10 || b == 13,
        ByteClass::Digit => b >= 48 && b <= 57,
        ByteClass::Ident => is_identifier(b),
        ByteClass::NotSpace => !(b == 32 || b == 9 || b == 10 || b == 13),
        ByteClass::NotEol => b != 10 && b != 13,
    }
}

/// End of the longest run of bytes of class `c` that starts at `p`.
pub open spec fn run_end(s: Seq<u8>, p: int, c: ByteClass) -> int
    decreases s.len() - p,
{
    if p < 0 || p >= s.len() || !in_class(c, s[p]) {
        p
    } else {
        run_end(s, p + 1, c)
    }
}

pub proof fn lemma_run_end(s: Seq<u8>, p: int, c: ByteClass)
    requires
        0 <= p <= s.len(),
    ensures
        p <= run_end(s, p, c) <= s.len(),
        forall|i: int| p <= i < run_end(s, p, c) ==> in_class(c, #[trigger] s[i]),
        run_end(s, p, c) == s.len() || !in_class(c, s[run_end(s, p, c)]),
    decreases s.len() - p,
{
    if p < s.len() && in_class(c, s[p]) {
        lemma_run_end(s, p + 1, c);
    }
}

/// A run that ends where the bytes of the class stop is the longest one.
pub proof fn lemma_run_end_of(s: Seq<u8>, p: int, e: int, c: ByteClass)
    requires
        0 <= p <= e <= s.len(),
        forall|i: int| p <= i < e ==> in_class(c, #[trigger] s[i]),
        e == s.len() || !in_class(c, s[e]),
    ensures
        run_end(s, p, c) == e,
    decreases e - p,
{
    if p < e {
        lemma_run_end_of(s, p + 1, e, c);
    }
}

/// Scans the longest run of bytes of class `c` from `p` and returns where it ends.
pub fn run_end_exec(s: &[u8], p: usize, c: ByteClass) -> (r: usize)
    requires
        p <= s@.len(),
    ensures
        r as int == run_end(s@, p as int, c),
        p <= r <= s@.len(),
        s@.len() <= usize::MAX,
{
    let mut i: usize = p;
    while i < s.len() && class_has(c, s[i])
        invariant
            p <= i <= s@.len(),
            run_end(s@, i as int, c) == run_end(s@, p as int, c),
        decreases s@.len() - i,
    {
        i = i + 1;
    }
    i
}

/// The number that a sequence of decimal digits writes.
pub open spec fn digits_value(d: Seq<u8>) -> nat
    decreases d.len(),
{
    if d.len() == 0 {
        0
    } else {
        digits_value(d.drop_last()) * 10 + (d.last() - 48) as nat
    }
}

pub open spec fn all_digits(d: Seq<u8>) -> bool {
    forall|i: int| 0 <= i < d.len() ==> is_digit(#[trigger] d[i])
}

/// Reads the decimal number in `s[a..b]`, all digits; `None` where it exceeds `u64`.
pub fn parse_digits(s: &[u8], a: usize, b: usize) -> (r: Option<u64>)
    requires
        a <= b <= s@.len(),
        all_digits(s@.subrange(a as int, b as int)),
    ensures
        r == (if digits_value(s@.subrange(a as int, b as int)) <= u64::MAX {
            Some(digits_value(s@.subrange(a as int, b as int)) as u64)
        } else {
            None::<u64>
        }),
{
    let mut acc: u64 = 0;
    let mut over = false;
    let mut i: usize = a;
    assert(s@.subrange(a as int, a as int).len() == 0);
    while i < b
        invariant
            a <= i <= b <= s@.len(),
            all_digits(s@.subrange(a as int, b as int)),
            !over ==> acc as nat == digits_value(s@.subrange(a as int, i as int)),
            over ==> digits_value(s@.subrange(a as int, i as int)) > u64::MAX,
        decreases b - i,
    {
        let ghost prev = digits_value(s@.subrange(a as int, i as int));
        assert(s@.subrange(a as int, i + 1).drop_last() =~= s@.subrange(a as int, i as int));
        assert(s@.subrange(a as int, i + 1).last() == s@[i as int]);
        assert(is_digit(s@.subrange(a as int, b as int)[i - a]));
        let d: u64 = (s[i] - 48) as u64;
        assert(d <= 9);
        if !over {
            if acc <= (u64::MAX - d) / 10 {
                proof {
                    assert(acc * 10 + d <= u64::MAX) by (nonlinear_arith)
                        requires acc <= (u64::MAX - d) / 10, d <= 9;
                }
                acc = acc * 10 + d;
            } else {
                proof {
                    assert(acc * 10 + d > u64::MAX) by (nonlinear_arith)
                        requires acc > (u64::MAX - d) / 10, d <= 9;
                }
                over = true;
            }
        } else {
            assert(prev * 10 + d > u64::MAX) by (nonlinear_arith)
                requires prev > u64::MAX;
        }
        i = i + 1;
    }
    if over {
        None
    } else {
        Some(acc)
    }
}

} // verus!
