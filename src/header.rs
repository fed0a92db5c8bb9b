use vstd::prelude::*;
use crate::lex::{ByteClass, run_end, lemma_run_end, run_end_exec, digits_value, all_digits, parse_digits};
use crate::tags::{Tag, tag_seq, has_tag, starts_with_tag};
use crate::types::{
    Element, ElementModel, Format, FormatKind, Header, HeaderModel, Property, PropertyKind,
    PropertyModel, ValueKind, Version, properties_view, elements_view, comments_view,
};

verus! {

/// What the header parser looked for where it failed.
#[derive(Clone, Copy, Debug, PartialEq, Eq, Structural)]
pub enum Expected {
    Keyword(Tag),
    Whitespace,
    Dot,
    Identifier,
}

/// Why a header could not be read; each carries the byte offset of the failure.
#[derive(Clone, Copy, Debug, PartialEq, Eq, Structural)]
pub enum ParseError {
    /// Something else stands where `expected` was due: the word at `offset..end`, whose
    /// first byte is `found`, or the end of the input.
    UnexpectedToken { expected: Expected, found: Option<u8>, offset: usize, end: usize },
    /// The word at `offset..end` after `format` is none of the three format kinds.
    UnknownFormatKind { offset: usize, end: usize },
    /// No spelling of a data type begins the word at `offset..end`.
    UnknownDataType { offset: usize, end: usize },
    /// No digits here, or more than the field can hold.
    InvalidInteger { offset: usize },
    /// No `element` follows the format line and the comments.
    EmptyElementList { offset: usize },
    /// `end_header` and the whitespace after it do not follow the last element.
    MissingEndHeader { offset: usize },
}

pub open spec fn byte_at(s: Seq<u8>, p: int) -> Option<u8> {
    if 0 <= p < s.len() {
        Some(s[p])
    } else {
        None
    }
}

pub open spec fn unexpected(s: Seq<u8>, p: int, x: Expected) -> ParseError {
    ParseError::UnexpectedToken { expected: x, found: byte_at(s, p), offset: p as usize, end: run_end(s, p, ByteClass::NotSpace) as usize }
}

/// An exec result agrees with a result of the grammar: same value seen through its view,
/// same position, or the same error.
pub open spec fn same_view<T: View>(r: Result<(T, usize), ParseError>, m: Result<(T::V, int), ParseError>) -> bool {
    match r {
        Ok((v, q)) => m == Ok::<(T::V, int), ParseError>((v@, q as int)),
        Err(e) => m == Err::<(T::V, int), ParseError>(e),
    }
}

pub open spec fn same<T>(r: Result<(T, usize), ParseError>, m: Result<(T, int), ParseError>) -> bool {
    match r {
        Ok((v, q)) => m == Ok::<(T, int), ParseError>((v, q as int)),
        Err(e) => m == Err::<(T, int), ParseError>(e),
    }
}

pub open spec fn advances<T>(r: Result<(T, usize), ParseError>, p: usize, n: nat) -> bool {
    r matches Ok((_, q)) ==> p < q <= n
}

pub open spec fn spec_keyword(s: Seq<u8>, p: int, t: Tag) -> Result<int, ParseError> {
    if has_tag(s, p, t) {
        Ok(p + tag_seq(t).len())
    } else {
        Err(unexpected(s, p, Expected::Keyword(t)))
    }
}

/// One or more whitespace bytes.
pub open spec fn spec_space(s: Seq<u8>, p: int) -> Result<int, ParseError> {
    let e = run_end(s, p, ByteClass::Space);
    if e == p {
        Err(unexpected(s, p, Expected::Whitespace))
    } else {
        Ok(e)
    }
}

/// One or more digits, whose value is at most `max`.
pub open spec fn spec_integer(s: Seq<u8>, p: int, max: u64) -> Result<(u64, int), ParseError> {
    let e = run_end(s, p, ByteClass::Digit);
    if e == p || digits_value(s.subrange(p, e)) > max {
        Err(ParseError::InvalidInteger { offset: p as usize })
    } else {
        Ok((digits_value(s.subrange(p, e)) as u64, e))
    }
}

pub open spec fn spec_version(s: Seq<u8>, p: int) -> Result<(Version, int), ParseError> {
    match spec_integer(s, p, i32::MAX as u64) {
        Err(e) => Err(e),
        Ok((major, p1)) => if byte_at(s, p1) != Some(46u8) {
            Err(unexpected(s, p1, Expected::Dot))
        } else {
            match spec_integer(s, p1 + 1, i32::MAX as u64) {
                Err(e) => Err(e),
                Ok((minor, p2)) => Ok((Version { major: major as i32, minor: minor as i32 }, p2)),
            }
        },
    }
}

pub open spec fn spec_format_kind(s: Seq<u8>, p: int) -> Result<(FormatKind, int), ParseError> {
    if has_tag(s, p, Tag::Ascii) {
        Ok((FormatKind::Ascii, p + 5))
    } else if has_tag(s, p, Tag::BinaryBigEndian) {
        Ok((FormatKind::BigEndian, p + 17))
    } else if has_tag(s, p, Tag::BinaryLittleEndian) {
        Ok((FormatKind::LittleEndian, p + 20))
    } else {
        Err(ParseError::UnknownFormatKind { offset: p as usize, end: run_end(s, p, ByteClass::NotSpace) as usize })
    }
}

/// `format` WS kind WS version WS
pub open spec fn spec_format(s: Seq<u8>, p: int) -> Result<(Format, int), ParseError> {
    match spec_keyword(s, p, Tag::Format) {
        Err(e) => Err(e),
        Ok(p1) => match spec_space(s, p1) {
            Err(e) => Err(e),
            Ok(p2) => match spec_format_kind(s, p2) {
                Err(e) => Err(e),
                Ok((kind, p3)) => match spec_space(s, p3) {
                    Err(e) => Err(e),
                    Ok(p4) => match spec_version(s, p4) {
                        Err(e) => Err(e),
                        Ok((version, p5)) => match spec_space(s, p5) {
                            Err(e) => Err(e),
                            Ok(p6) => Ok((Format { kind, version }, p6)),
                        },
                    },
                },
            },
        },
    }
}

/// The spellings of the data types, tried in this order; the first that matches wins.
pub open spec fn spelling(i: int) -> (Tag, ValueKind) {
    if i == 0 { (Tag::Char, ValueKind::Int8) }
    else if i == 1 { (Tag::UChar, ValueKind::UInt8) }
    else if i == 2 { (Tag::Short, ValueKind::Int16) }
    else if i == 3 { (Tag::UShort, ValueKind::UInt16) }
    else if i == 4 { (Tag::Int64, ValueKind::Int64) }
    else if i == 5 { (Tag::Int32, ValueKind::Int32) }
    else if i == 6 { (Tag::Int16, ValueKind::Int16) }
    else if i == 7 { (Tag::Int8, ValueKind::Int8) }
    else if i == 8 { (Tag::Int, ValueKind::Int32) }
    else if i == 9 { (Tag::UInt8, ValueKind::UInt8) }
    else if i == 10 { (Tag::UInt16, ValueKind::UInt16) }
    else if i == 11 { (Tag::UInt32, ValueKind::UInt32) }
    else if i == 12 { (Tag::UInt64, ValueKind::UInt64) }
    else if i == 13 { (Tag::UInt, ValueKind::UInt32) }
    else if i == 14 { (Tag::Float32, ValueKind::Float32) }
    else if i == 15 { (Tag::Float64, ValueKind::Float64) }
    else if i == 16 { (Tag::Float, ValueKind::Float32) }
    else { (Tag::Double, ValueKind::Float64) }
}

/// How many spellings of data types the grammar knows.
pub const SPELLINGS: usize = 18;

/// The first spelling, from the `i`-th on, that stands at `p`.
pub open spec fn spec_data_type_from(s: Seq<u8>, p: int, i: int) -> Result<(ValueKind, int), ParseError>
    decreases SPELLINGS - i,
{
    if i >= SPELLINGS {
        Err(ParseError::UnknownDataType { offset: p as usize, end: run_end(s, p, ByteClass::NotSpace) as usize })
    } else if has_tag(s, p, spelling(i).0) {
        Ok((spelling(i).1, p + tag_seq(spelling(i).0).len()))
    } else {
        spec_data_type_from(s, p, i + 1)
    }
}

pub open spec fn spec_data_type(s: Seq<u8>, p: int) -> Result<(ValueKind, int), ParseError> {
    spec_data_type_from(s, p, 0)
}

/// `list` WS data_type WS data_type, or data_type
pub open spec fn spec_property_kind(s: Seq<u8>, p: int) -> Result<(PropertyKind, int), ParseError> {
    if has_tag(s, p, Tag::List) {
        match spec_space(s, p + 4) {
            Err(e) => Err(e),
            Ok(p1) => match spec_data_type(s, p1) {
                Err(e) => Err(e),
                Ok((c, p2)) => match spec_space(s, p2) {
                    Err(e) => Err(e),
                    Ok(p3) => match spec_data_type(s, p3) {
                        Err(e) => Err(e),
                        Ok((v, p4)) => Ok((PropertyKind::List(c, v), p4)),
                    },
                },
            },
        }
    } else {
        match spec_data_type(s, p) {
            Err(e) => Err(e),
            Ok((v, p1)) => Ok((PropertyKind::Scalar(v), p1)),
        }
    }
}

pub open spec fn spec_identifier(s: Seq<u8>, p: int) -> Result<(Seq<u8>, int), ParseError> {
    let e = run_end(s, p, ByteClass::Ident);
    if e == p {
        Err(unexpected(s, p, Expected::Identifier))
    } else {
        Ok((s.subrange(p, e), e))
    }
}

/// `property` WS property_kind WS identifier WS
pub open spec fn spec_property(s: Seq<u8>, p: int) -> Result<(PropertyModel, int), ParseError> {
    match spec_keyword(s, p, Tag::Property) {
        Err(e) => Err(e),
        Ok(p1) => match spec_space(s, p1) {
            Err(e) => Err(e),
            Ok(p2) => match spec_property_kind(s, p2) {
                Err(e) => Err(e),
                Ok((kind, p3)) => match spec_space(s, p3) {
                    Err(e) => Err(e),
                    Ok(p4) => match spec_identifier(s, p4) {
                        Err(e) => Err(e),
                        Ok((name, p5)) => match spec_space(s, p5) {
                            Err(e) => Err(e),
                            Ok(p6) => Ok((PropertyModel { name, kind }, p6)),
                        },
                    },
                },
            },
        },
    }
}

/// Properties, one after another, for as long as the next word is `property`.
pub open spec fn spec_properties(s: Seq<u8>, p: int, acc: Seq<PropertyModel>) -> Result<(Seq<PropertyModel>, int), ParseError>
    decreases s.len() - p,
{
    if !has_tag(s, p, Tag::Property) {
        Ok((acc, p))
    } else {
        match spec_property(s, p) {
            Err(e) => Err(e),
            Ok((pr, q)) => if p < q <= s.len() {
                spec_properties(s, q, acc.push(pr))
            } else {
                Ok((acc, p))
            },
        }
    }
}

/// `element` WS identifier WS INT WS property+
pub open spec fn spec_element(s: Seq<u8>, p: int) -> Result<(ElementModel, int), ParseError> {
    match spec_keyword(s, p, Tag::Element) {
        Err(e) => Err(e),
        Ok(p1) => match spec_space(s, p1) {
            Err(e) => Err(e),
            Ok(p2) => match spec_identifier(s, p2) {
                Err(e) => Err(e),
                Ok((name, p3)) => match spec_space(s, p3) {
                    Err(e) => Err(e),
                    Ok(p4) => match spec_integer(s, p4, u64::MAX) {
                        Err(e) => Err(e),
                        Ok((count, p5)) => match spec_space(s, p5) {
                            Err(e) => Err(e),
                            Ok(p6) => if !has_tag(s, p6, Tag::Property) {
                                Err(unexpected(s, p6, Expected::Keyword(Tag::Property)))
                            } else {
                                match spec_properties(s, p6, Seq::empty()) {
                                    Err(e) => Err(e),
                                    Ok((properties, p7)) => Ok((ElementModel { name, count, properties }, p7)),
                                }
                            },
                        },
                    },
                },
            },
        },
    }
}

pub open spec fn spec_elements(s: Seq<u8>, p: int, acc: Seq<ElementModel>) -> Result<(Seq<ElementModel>, int), ParseError>
    decreases s.len() - p,
{
    if !has_tag(s, p, Tag::Element) {
        Ok((acc, p))
    } else {
        match spec_element(s, p) {
            Err(e) => Err(e),
            Ok((el, q)) => if p < q <= s.len() {
                spec_elements(s, q, acc.push(el))
            } else {
                Ok((acc, p))
            },
        }
    }
}

/// `comment` WS rest_of_line WS
pub open spec fn spec_comment(s: Seq<u8>, p: int) -> Result<(Seq<u8>, int), ParseError> {
    match spec_keyword(s, p, Tag::Comment) {
        Err(e) => Err(e),
        Ok(p1) => match spec_space(s, p1) {
            Err(e) => Err(e),
            Ok(p2) => {
                let p3 = run_end(s, p2, ByteClass::NotEol);
                match spec_space(s, p3) {
                    Err(e) => Err(e),
                    Ok(p4) => Ok((s.subrange(p2, p3), p4)),
                }
            },
        },
    }
}

pub open spec fn spec_comments(s: Seq<u8>, p: int, acc: Seq<Seq<u8>>) -> Result<(Seq<Seq<u8>>, int), ParseError>
    decreases s.len() - p,
{
    if !has_tag(s, p, Tag::Comment) {
        Ok((acc, p))
    } else {
        match spec_comment(s, p) {
            Err(e) => Err(e),
            Ok((c, q)) => if p < q <= s.len() {
                spec_comments(s, q, acc.push(c))
            } else {
                Ok((acc, p))
            },
        }
    }
}

/// The whole header: `ply` WS format comment* element+ `end_header` WS.
/// On success, the header and the offset at which the body starts.
pub open spec fn spec_header(s: Seq<u8>) -> Result<(HeaderModel, int), ParseError> {
    match spec_keyword(s, 0, Tag::Ply) {
        Err(e) => Err(e),
        Ok(p1) => match spec_space(s, p1) {
            Err(e) => Err(e),
            Ok(p2) => match spec_format(s, p2) {
                Err(e) => Err(e),
                Ok((format, p3)) => match spec_comments(s, p3, Seq::empty()) {
                    Err(e) => Err(e),
                    Ok((comments, p4)) => if !has_tag(s, p4, Tag::Element) {
                        Err(ParseError::EmptyElementList { offset: p4 as usize })
                    } else {
                        match spec_elements(s, p4, Seq::empty()) {
                            Err(e) => Err(e),
                            Ok((elements, p5)) => if !has_tag(s, p5, Tag::EndHeader) {
                                Err(ParseError::MissingEndHeader { offset: p5 as usize })
                            } else {
                                match spec_space(s, p5 + 10) {
                                    Err(_) => Err(ParseError::MissingEndHeader { offset: p5 as usize }),
                                    Ok(p6) => Ok((HeaderModel { comments, format, elements }, p6)),
                                }
                            },
                        }
                    },
                },
            },
        },
    }
}

fn unexpected_exec(s: &[u8], p: usize, x: Expected) -> (r: ParseError)
    requires
        p <= s@.len(),
    ensures
        r == unexpected(s@, p as int, x),
{
    ParseError::UnexpectedToken {
        expected: x,
        found: if p < s.len() { Some(s[p]) } else { None },
        offset: p,
        end: run_end_exec(s, p, ByteClass::NotSpace),
    }
}

fn keyword(s: &[u8], p: usize, t: Tag) -> (r: Result<usize, ParseError>)
    requires
        p <= s@.len(),
    ensures
        match r {
            Ok(q) => spec_keyword(s@, p as int, t) == Ok::<int, ParseError>(q as int) && p < q <= s@.len(),
            Err(e) => spec_keyword(s@, p as int, t) == Err::<int, ParseError>(e),
        },
{
    if starts_with_tag(s, p, t) {
        proof {
            assert(tag_seq(t).len() > 0);
        }
        Ok(p + crate::tags::tag_bytes(t).len())
    } else {
        Err(unexpected_exec(s, p, Expected::Keyword(t)))
    }
}

fn space(s: &[u8], p: usize) -> (r: Result<usize, ParseError>)
    requires
        p <= s@.len(),
    ensures
        match r {
            Ok(q) => spec_space(s@, p as int) == Ok::<int, ParseError>(q as int) && p < q <= s@.len(),
            Err(e) => spec_space(s@, p as int) == Err::<int, ParseError>(e),
        },
{
    let e = run_end_exec(s, p, ByteClass::Space);
    if e == p {
        Err(unexpected_exec(s, p, Expected::Whitespace))
    } else {
        Ok(e)
    }
}

fn integer(s: &[u8], p: usize, max: u64) -> (r: Result<(u64, usize), ParseError>)
    requires
        p <= s@.len(),
    ensures
        same(r, spec_integer(s@, p as int, max)),
        advances(r, p, s@.len()),
{
    let e = run_end_exec(s, p, ByteClass::Digit);
    proof {
        lemma_run_end(s@, p as int, ByteClass::Digit);
        assert(all_digits(s@.subrange(p as int, e as int)));
    }
    if e == p {
        return Err(ParseError::InvalidInteger { offset: p });
    }
    match parse_digits(s, p, e) {
        Some(v) => if v <= max {
            Ok((v, e))
        } else {
            Err(ParseError::InvalidInteger { offset: p })
        },
        None => Err(ParseError::InvalidInteger { offset: p }),
    }
}

fn version(s: &[u8], p: usize) -> (r: Result<(Version, usize), ParseError>)
    requires
        p <= s@.len(),
    ensures
        same(r, spec_version(s@, p as int)),
        advances(r, p, s@.len()),
{
    let (major, p1) = match integer(s, p, 2147483647) {
        Ok(x) => x,
        Err(e) => return Err(e),
    };
    if p1 >= s.len() || s[p1] != 46 {
        return Err(unexpected_exec(s, p1, Expected::Dot));
    }
    let (minor, p2) = match integer(s, p1 + 1, 2147483647) {
        Ok(x) => x,
        Err(e) => return Err(e),
    };
    Ok((Version { major: major as i32, minor: minor as i32 }, p2))
}

fn format_kind(s: &[u8], p: usize) -> (r: Result<(FormatKind, usize), ParseError>)
    requires
        p <= s@.len(),
    ensures
        same(r, spec_format_kind(s@, p as int)),
        advances(r, p, s@.len()),
{
    if starts_with_tag(s, p, Tag::Ascii) {
        Ok((FormatKind::Ascii, p + 5))
    } else if starts_with_tag(s, p, Tag::BinaryBigEndian) {
        Ok((FormatKind::BigEndian, p + 17))
    } else if starts_with_tag(s, p, Tag::BinaryLittleEndian) {
        Ok((FormatKind::LittleEndian, p + 20))
    } else {
        Err(ParseError::UnknownFormatKind { offset: p, end: run_end_exec(s, p, ByteClass::NotSpace) })
    }
}

/// Reads `format` WS kind WS version WS from `p`.
pub fn format_decl(s: &[u8], p: usize) -> (r: Result<(Format, usize), ParseError>)
    requires
        p <= s@.len(),
    ensures
        same(r, spec_format(s@, p as int)),
        advances(r, p, s@.len()),
{
    let p1 = match keyword(s, p, Tag::Format) {
        Ok(q) => q,
        Err(e) => return Err(e),
    };
    let p2 = match space(s, p1) {
        Ok(q) => q,
        Err(e) => return Err(e),
    };
    let (kind, p3) = match format_kind(s, p2) {
        Ok(x) => x,
        Err(e) => return Err(e),
    };
    let p4 = match space(s, p3) {
        Ok(q) => q,
        Err(e) => return Err(e),
    };
    let (version, p5) = match version(s, p4) {
        Ok(x) => x,
        Err(e) => return Err(e),
    };
    let p6 = match space(s, p5) {
        Ok(q) => q,
        Err(e) => return Err(e),
    };
    Ok((Format { kind, version }, p6))
}

fn spelling_exec(i: usize) -> (r: (Tag, ValueKind))
    requires
        i < SPELLINGS,
    ensures
        r == spelling(i as int),
{
    match i {
        0 => (Tag::Char, ValueKind::Int8),
        1 => (Tag::UChar, ValueKind::UInt8),
        2 => (Tag::Short, ValueKind::Int16),
        3 => (Tag::UShort, ValueKind::UInt16),
        4 => (Tag::Int64, ValueKind::Int64),
        5 => (Tag::Int32, ValueKind::Int32),
        6 => (Tag::Int16, ValueKind::Int16),
        7 => (Tag::Int8, ValueKind::Int8),
        8 => (Tag::Int, ValueKind::Int32),
        9 => (Tag::UInt8, ValueKind::UInt8),
        10 => (Tag::UInt16, ValueKind::UInt16),
        11 => (Tag::UInt32, ValueKind::UInt32),
        12 => (Tag::UInt64, ValueKind::UInt64),
        13 => (Tag::UInt, ValueKind::UInt32),
        14 => (Tag::Float32, ValueKind::Float32),
        15 => (Tag::Float64, ValueKind::Float64),
        16 => (Tag::Float, ValueKind::Float32),
        _ => (Tag::Double, ValueKind::Float64),
    }
}

/// Reads the spelling of a data type at `p`, trying the spellings in their fixed order.
pub fn data_type(s: &[u8], p: usize) -> (r: Result<(ValueKind, usize), ParseError>)
    requires
        p <= s@.len(),
    ensures
        same(r, spec_data_type(s@, p as int)),
        advances(r, p, s@.len()),
{
    let mut i: usize = 0;
    while i < SPELLINGS
        invariant
            i <= SPELLINGS,
            p <= s@.len(),
            spec_data_type_from(s@, p as int, i as int) == spec_data_type(s@, p as int),
        decreases SPELLINGS - i,
    {
        let (t, k) = spelling_exec(i);
        if starts_with_tag(s, p, t) {
            let w = crate::tags::tag_bytes(t);
            proof {
                assert(tag_seq(t).len() > 0);
            }
            return Ok((k, p + w.len()));
        }
        i = i + 1;
    }
    Err(ParseError::UnknownDataType { offset: p, end: run_end_exec(s, p, ByteClass::NotSpace) })
}

fn property_kind(s: &[u8], p: usize) -> (r: Result<(PropertyKind, usize), ParseError>)
    requires
        p <= s@.len(),
    ensures
        same(r, spec_property_kind(s@, p as int)),
        advances(r, p, s@.len()),
{
    if starts_with_tag(s, p, Tag::List) {
        let p1 = match space(s, p + 4) {
            Ok(q) => q,
            Err(e) => return Err(e),
        };
        let (c, p2) = match data_type(s, p1) {
            Ok(x) => x,
            Err(e) => return Err(e),
        };
        let p3 = match space(s, p2) {
            Ok(q) => q,
            Err(e) => return Err(e),
        };
        let (v, p4) = match data_type(s, p3) {
            Ok(x) => x,
            Err(e) => return Err(e),
        };
        Ok((PropertyKind::List(c, v), p4))
    } else {
        match data_type(s, p) {
            Ok((v, p1)) => Ok((PropertyKind::Scalar(v), p1)),
            Err(e) => Err(e),
        }
    }
}

/// A copy of `s[a..b]`.
pub fn copy_range(s: &[u8], a: usize, b: usize) -> (r: Vec<u8>)
    requires
        a <= b <= s@.len(),
    ensures
        r@ == s@.subrange(a as int, b as int),
{
    let mut r: Vec<u8> = Vec::new();
    let mut i: usize = a;
    while i < b
        invariant
            a <= i <= b <= s@.len(),
            r@ =~= s@.subrange(a as int, i as int),
        decreases b - i,
    {
        r.push(s[i]);
        i = i + 1;
    }
    r
}

fn identifier(s: &[u8], p: usize) -> (r: Result<(Vec<u8>, usize), ParseError>)
    requires
        p <= s@.len(),
    ensures
        same_view(r, spec_identifier(s@, p as int)),
        advances(r, p, s@.len()),
{
    let e = run_end_exec(s, p, ByteClass::Ident);
    if e == p {
        Err(unexpected_exec(s, p, Expected::Identifier))
    } else {
        Ok((copy_range(s, p, e), e))
    }
}

/// Reads `property` WS property_kind WS identifier WS from `p`.
pub fn property(s: &[u8], p: usize) -> (r: Result<(Property, usize), ParseError>)
    requires
        p <= s@.len(),
    ensures
        same_view(r, spec_property(s@, p as int)),
        advances(r, p, s@.len()),
{
    let p1 = match keyword(s, p, Tag::Property) {
        Ok(q) => q,
        Err(e) => return Err(e),
    };
    let p2 = match space(s, p1) {
        Ok(q) => q,
        Err(e) => return Err(e),
    };
    let (kind, p3) = match property_kind(s, p2) {
        Ok(x) => x,
        Err(e) => return Err(e),
    };
    let p4 = match space(s, p3) {
        Ok(q) => q,
        Err(e) => return Err(e),
    };
    let (name, p5) = match identifier(s, p4) {
        Ok(x) => x,
        Err(e) => return Err(e),
    };
    let p6 = match space(s, p5) {
        Ok(q) => q,
        Err(e) => return Err(e),
    };
    Ok((Property { name, kind }, p6))
}

/// Reads `element` WS identifier WS INT WS and one or more properties from `p`.
#[verifier::loop_isolation(false)]
pub fn element(s: &[u8], p: usize) -> (r: Result<(Element, usize), ParseError>)
    requires
        p <= s@.len(),
    ensures
        same_view(r, spec_element(s@, p as int)),
        advances(r, p, s@.len()),
{
    let p1 = match keyword(s, p, Tag::Element) {
        Ok(q) => q,
        Err(e) => return Err(e),
    };
    let p2 = match space(s, p1) {
        Ok(q) => q,
        Err(e) => return Err(e),
    };
    let (name, p3) = match identifier(s, p2) {
        Ok(x) => x,
        Err(e) => return Err(e),
    };
    let p4 = match space(s, p3) {
        Ok(q) => q,
        Err(e) => return Err(e),
    };
    let (count, p5) = match integer(s, p4, u64::MAX) {
        Ok(x) => x,
        Err(e) => return Err(e),
    };
    let p6 = match space(s, p5) {
        Ok(q) => q,
        Err(e) => return Err(e),
    };
    if !starts_with_tag(s, p6, Tag::Property) {
        return Err(unexpected_exec(s, p6, Expected::Keyword(Tag::Property)));
    }
    let mut properties: Vec<Property> = Vec::new();
    let mut q = p6;
    proof {
        assert(properties_view(properties@) =~= Seq::<PropertyModel>::empty());
    }
    while starts_with_tag(s, q, Tag::Property)
        invariant
            p < p6 <= q <= s@.len(),
            spec_properties(s@, q as int, properties_view(properties@))
                == spec_properties(s@, p6 as int, Seq::empty()),
        decreases s@.len() - q,
    {
        let ghost before = properties_view(properties@);
        match property(s, q) {
            Ok((pr, q2)) => {
                properties.push(pr);
                proof {
                    assert(properties_view(properties@) =~= before.push(pr@));
                }
                q = q2;
            },
            Err(e) => {
                proof {
                    reveal_with_fuel(spec_properties, 1);
                    assert(spec_properties(s@, q as int, before) == Err::<(Seq<PropertyModel>, int), ParseError>(e));
                }
                return Err(e);
            },
        }
    }
    Ok((Element { name, count, properties }, q))
}

/// Reads `comment` WS rest_of_line WS from `p`.
pub fn comment(s: &[u8], p: usize) -> (r: Result<(Vec<u8>, usize), ParseError>)
    requires
        p <= s@.len(),
    ensures
        same_view(r, spec_comment(s@, p as int)),
        advances(r, p, s@.len()),
{
    let p1 = match keyword(s, p, Tag::Comment) {
        Ok(q) => q,
        Err(e) => return Err(e),
    };
    let p2 = match space(s, p1) {
        Ok(q) => q,
        Err(e) => return Err(e),
    };
    let p3 = run_end_exec(s, p2, ByteClass::NotEol);
    let p4 = match space(s, p3) {
        Ok(q) => q,
        Err(e) => return Err(e),
    };
    Ok((copy_range(s, p2, p3), p4))
}

/// Reads the header at the start of `s`: `ply` WS format comment* element+ `end_header` WS.
/// On success returns the header and the offset of the first byte of the body.
#[verifier::loop_isolation(false)]
pub fn parse_header(s: &[u8]) -> (r: Result<(Header, usize), ParseError>)
    ensures
        same_view(r, spec_header(s@)),
        r matches Ok((_, q)) ==> q <= s@.len(),
{
    let p1 = match keyword(s, 0, Tag::Ply) {
        Ok(q) => q,
        Err(e) => return Err(e),
    };
    let p2 = match space(s, p1) {
        Ok(q) => q,
        Err(e) => return Err(e),
    };
    let (format, p3) = match format_decl(s, p2) {
        Ok(x) => x,
        Err(e) => return Err(e),
    };
    let mut comments: Vec<Vec<u8>> = Vec::new();
    let mut q = p3;
    proof {
        assert(comments_view(comments@) =~= Seq::<Seq<u8>>::empty());
    }
    while starts_with_tag(s, q, Tag::Comment)
        invariant
            p3 <= q <= s@.len(),
            spec_comments(s@, q as int, comments_view(comments@))
                == spec_comments(s@, p3 as int, Seq::empty()),
        decreases s@.len() - q,
    {
        let ghost before = comments_view(comments@);
        match comment(s, q) {
            Ok((c, q2)) => {
                let ghost cv = c@;
                comments.push(c);
                proof {
                    assert(comments_view(comments@) =~= before.push(cv));
                }
                q = q2;
            },
            Err(e) => {
                proof {
                    assert(spec_comments(s@, q as int, before) == Err::<(Seq<Seq<u8>>, int), ParseError>(e));
                }
                return Err(e);
            },
        }
    }
    let p4 = q;
    if !starts_with_tag(s, p4, Tag::Element) {
        return Err(ParseError::EmptyElementList { offset: p4 });
    }
    let mut elements: Vec<Element> = Vec::new();
    proof {
        assert(elements_view(elements@) =~= Seq::<ElementModel>::empty());
    }
    while starts_with_tag(s, q, Tag::Element)
        invariant
            p4 <= q <= s@.len(),
            spec_elements(s@, q as int, elements_view(elements@))
                == spec_elements(s@, p4 as int, Seq::empty()),
        decreases s@.len() - q,
    {
        let ghost before = elements_view(elements@);
        match element(s, q) {
            Ok((el, q2)) => {
                let ghost ev = el@;
                elements.push(el);
                proof {
                    assert(elements_view(elements@) =~= before.push(ev));
                }
                q = q2;
            },
            Err(e) => {
                proof {
                    assert(spec_elements(s@, q as int, before) == Err::<(Seq<ElementModel>, int), ParseError>(e));
                }
                return Err(e);
            },
        }
    }
    let p5 = q;
    if !starts_with_tag(s, p5, Tag::EndHeader) {
        return Err(ParseError::MissingEndHeader { offset: p5 });
    }
    match space(s, p5 + 10) {
        Ok(p6) => Ok((Header { comments, format, elements }, p6)),
        Err(_) => Err(ParseError::MissingEndHeader { offset: p5 }),
    }
}

} // verus!
