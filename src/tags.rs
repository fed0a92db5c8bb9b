use vstd::prelude::*;

verus! {

/// The fixed words of the header grammar, with every spelling of a data type.
#[derive(Clone, Copy, Debug, PartialEq, Eq, Structural)]
pub enum Tag {
    Ply,
    Format,
    Comment,
    Element,
    Property,
    EndHeader,
    List,
    Ascii,
    BinaryBigEndian,
    BinaryLittleEndian,
    Char,
    UChar,
    Short,
    UShort,
    Int64,
    Int32,
    Int16,
    Int8,
    Int,
    UInt8,
    UInt16,
    UInt32,
    UInt64,
    UInt,
    Float32,
    Float64,
    Float,
    Double,
}

/// The bytes of a word of the grammar.
pub open spec fn tag_seq(t: Tag) -> Seq<u8> {
    match t {
        Tag::Ply => seq![112u8, 108u8, 121u8],
        Tag::Format => seq![102u8, 111u8, 114u8, 109u8, 97u8, 116u8],
        Tag::Comment => seq![99u8, 111u8, 109u8, 109u8, 101u8, 110u8, 116u8],
        Tag::Element => seq![101u8, 108u8, 101u8, 109u8, 101u8, 110u8, 116u8],
        Tag::Property => seq![112u8, 114u8, 111u8, 112u8, 101u8, 114u8, 116u8, 121u8],
        Tag::EndHeader => seq![101u8, 110u8, 100u8, 95u8, 104u8, 101u8, 97u8, 100u8, 101u8, 114u8],
        Tag::List => seq![108u8, 105u8, 115u8, 116u8],
        Tag::Ascii => seq![97u8, 115u8, 99u8, 105u8, 105u8],
        Tag::BinaryBigEndian => seq![98u8, 105u8, 110u8, 97u8, 114u8, 121u8, 95u8, 98u8, 105u8, 103u8, 95u8, 101u8, 110u8, 100u8, 105u8, 97u8, 110u8],
        Tag::BinaryLittleEndian => seq![98u8, 105u8, 110u8, 97u8, 114u8, 121u8, 95u8, 108u8, 105u8, 116u8, 116u8, 108u8, 101u8, 95u8, 101u8, 110u8, 100u8, 105u8, 97u8, 110u8],
        Tag::Char => seq![99u8, 104u8, 97u8, 114u8],
        Tag::UChar => seq![117u8, 99u8, 104u8, 97u8, 114u8],
        Tag::Short => seq![115u8, 104u8, 111u8, 114u8, 116u8],
        Tag::UShort => seq![117u8, 115u8, 104u8, 111u8, 114u8, 116u8],
        Tag::Int64 => seq![105u8, 110u8, 116u8, 54u8, 52u8],
        Tag::Int32 => seq![105u8, 110u8, 116u8, 51u8, 50u8],
        Tag::Int16 => seq![105u8, 110u8, 116u8, 49u8, 54u8],
        Tag::Int8 => seq![105u8, 110u8, 116u8, 56u8],
        Tag::Int => seq![105u8, 110u8, 116u8],
        Tag::UInt8 => seq![117u8, 105u8, 110u8, 116u8, 56u8],
        Tag::UInt16 => seq![117u8, 105u8, 110u8, 116u8, 49u8, 54u8],
        Tag::UInt32 => seq![117u8, 105u8, 110u8, 116u8, 51u8, 50u8],
        Tag::UInt64 => seq![117u8, 105u8, 110u8, 116u8, 54u8, 52u8],
        Tag::UInt => seq![117u8, 105u8, 110u8, 116u8],
        Tag::Float32 => seq![102u8, 108u8, 111u8, 97u8, 116u8, 51u8, 50u8],
        Tag::Float64 => seq![102u8, 108u8, 111u8, 97u8, 116u8, 54u8, 52u8],
        Tag::Float => seq![102u8, 108u8, 111u8, 97u8, 116u8],
        Tag::Double => seq![100u8, 111u8, 117u8, 98u8, 108u8, 101u8],
    }
}

pub fn tag_bytes(t: Tag) -> (r: Vec<u8>)
    ensures
        r@ == tag_seq(t),
{
    let r = match t {
        Tag::Ply => vec![112u8, 108u8, 121u8],
        Tag::Format => vec![102u8, 111u8, 114u8, 109u8, 97u8, 116u8],
        Tag::Comment => vec![99u8, 111u8, 109u8, 109u8, 101u8, 110u8, 116u8],
        Tag::Element => vec![101u8, 108u8, 101u8, 109u8, 101u8, 110u8, 116u8],
        Tag::Property => vec![112u8, 114u8, 111u8, 112u8, 101u8, 114u8, 116u8, 121u8],
        Tag::EndHeader => vec![101u8, 110u8, 100u8, 95u8, 104u8, 101u8, 97u8, 100u8, 101u8, 114u8],
        Tag::List => vec![108u8, 105u8, 115u8, 116u8],
        Tag::Ascii => vec![97u8, 115u8, 99u8, 105u8, 105u8],
        Tag::BinaryBigEndian => vec![98u8, 105u8, 110u8, 97u8, 114u8, 121u8, 95u8, 98u8, 105u8, 103u8, 95u8, 101u8, 110u8, 100u8, 105u8, 97u8, 110u8],
        Tag::BinaryLittleEndian => vec![98u8, 105u8, 110u8, 97u8, 114u8, 121u8, 95u8, 108u8, 105u8, 116u8, 116u8, 108u8, 101u8, 95u8, 101u8, 110u8, 100u8, 105u8, 97u8, 110u8],
        Tag::Char => vec![99u8, 104u8, 97u8, 114u8],
        Tag::UChar => vec![117u8, 99u8, 104u8, 97u8, 114u8],
        Tag::Short => vec![115u8, 104u8, 111u8, 114u8, 116u8],
        Tag::UShort => vec![117u8, 115u8, 104u8, 111u8, 114u8, 116u8],
        Tag::Int64 => vec![105u8, 110u8, 116u8, 54u8, 52u8],
        Tag::Int32 => vec![105u8, 110u8, 116u8, 51u8, 50u8],
        Tag::Int16 => vec![105u8, 110u8, 116u8, 49u8, 54u8],
        Tag::Int8 => vec![105u8, 110u8, 116u8, 56u8],
        Tag::Int => vec![105u8, 110u8, 116u8],
        Tag::UInt8 => vec![117u8, 105u8, 110u8, 116u8, 56u8],
        Tag::UInt16 => vec![117u8, 105u8, 110u8, 116u8, 49u8, 54u8],
        Tag::UInt32 => vec![117u8, 105u8, 110u8, 116u8, 51u8, 50u8],
        Tag::UInt64 => vec![117u8, 105u8, 110u8, 116u8, 54u8, 52u8],
        Tag::UInt => vec![117u8, 105u8, 110u8, 116u8],
        Tag::Float32 => vec![102u8, 108u8, 111u8, 97u8, 116u8, 51u8, 50u8],
        Tag::Float64 => vec![102u8, 108u8, 111u8, 97u8, 116u8, 54u8, 52u8],
        Tag::Float => vec![102u8, 108u8, 111u8, 97u8, 116u8],
        Tag::Double => vec![100u8, 111u8, 117u8, 98u8, 108u8, 101u8],
    };
    assert(r@ =~= tag_seq(t));
    r
}

/// Whether the bytes of `t` stand in `s` from `p` on.
pub open spec fn has_tag(s: Seq<u8>, p: int, t: Tag) -> bool {
    0 <= p && p + tag_seq(t).len() <= s.len() && s.subrange(p, p + tag_seq(t).len()) == tag_seq(t)
}

pub fn starts_with_tag(s: &[u8], p: usize, t: Tag) -> (r: bool)
    requires
        p <= s@.len(),
    ensures
        r == has_tag(s@, p as int, t),
        s@.len() <= usize::MAX,
{
    let w = tag_bytes(t);
    if w.len() > s.len() - p {
        return false;
    }
    let n = s.len();
    let mut i: usize = 0;
    while i < w.len()
        invariant
            n == s@.len(),
            i <= w@.len(),
            p + w@.len() <= s@.len(),
            w@ == tag_seq(t),
            s@.subrange(p as int, p + i) =~= w@.subrange(0, i as int),
        decreases w@.len() - i,
    {
        if s[p + i] != w[i] {
            assert(s@.subrange(p as int, p + w@.len())[i as int] != w@[i as int]);
            return false;
        }
        assert(s@.subrange(p as int, p + i + 1) =~= w@.subrange(0, i + 1));
        i = i + 1;
    }
    assert(w@.subrange(0, w@.len() as int) =~= w@);
    true
}

} // verus!
