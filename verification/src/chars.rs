//! Verified character classes and small string helpers.
use vstd::prelude::*;
use vstd::string::StrSliceExecFns;
use vstd::string::StringExecFns;
use vstd::utf8::encode_scalar;
use vstd::utf8::encode_utf8;

verus! {

/// An ASCII lowercase letter, the class `a` to `z`.
pub open spec fn is_ascii_lower(c: char) -> bool {
    0x61 <= c as u32 <= 0x7A
}

/// An ASCII digit, the class `0` to `9`.
pub open spec fn is_ascii_digit(c: char) -> bool {
    0x30 <= c as u32 <= 0x39
}

/// A lowercase Cyrillic letter of the basic range, the class `а` to `я`.
pub open spec fn is_cyrillic_lower(c: char) -> bool {
    0x430 <= c as u32 <= 0x44F
}

pub fn ascii_lower(c: char) -> (r: bool)
    ensures
        r == is_ascii_lower(c),
{
    let u = c as u32;
    0x61 <= u && u <= 0x7A
}

pub fn ascii_digit(c: char) -> (r: bool)
    ensures
        r == is_ascii_digit(c),
{
    let u = c as u32;
    0x30 <= u && u <= 0x39
}

pub fn cyrillic_lower(c: char) -> (r: bool)
    ensures
        r == is_cyrillic_lower(c),
{
    let u = c as u32;
    0x430 <= u && u <= 0x44F
}

/// Character-sequence equality of two string slices.
pub fn str_eq(a: &str, b: &str) -> (r: bool)
    ensures
        r == (a@ == b@),
{
    let sa = String::from_str(a);
    let sb = String::from_str(b);
    sa == sb
}

/// The number of bytes in the UTF-8 encoding of one character.
pub fn char_utf8_len(c: char) -> (r: usize)
    ensures
        r == encode_scalar(c as u32).len(),
        1 <= r <= 4,
{
    let u = c as u32;
    if u < 0x80 {
        1
    } else if u < 0x800 {
        2
    } else if u < 0x10000 {
        3
    } else {
        4
    }
}

/// The byte offset of char index `i` within the UTF-8 encoding of `s`.
pub open spec fn byte_at(s: Seq<char>, i: int) -> int {
    encode_utf8(s.take(i)).len() as int
}

pub proof fn lemma_encode_utf8_push(t: Seq<char>, c: char)
    ensures
        encode_utf8(t.push(c)) == encode_utf8(t) + encode_scalar(c as u32),
    decreases t.len(),
{
    if t.len() == 0 {
        assert(t.push(c).drop_first() =~= seq![c].drop_first());
        assert(t.push(c)[0] == c);
        assert(encode_utf8(t.push(c).drop_first()) =~= Seq::<u8>::empty());
        assert(encode_utf8(t.push(c)) =~= encode_utf8(t) + encode_scalar(c as u32));
    } else {
        assert(t.push(c).drop_first() =~= t.drop_first().push(c));
        lemma_encode_utf8_push(t.drop_first(), c);
        assert(encode_utf8(t.push(c)) =~= encode_utf8(t) + encode_scalar(c as u32));
    }
}

pub proof fn lemma_byte_at_step(s: Seq<char>, i: int)
    requires
        0 <= i < s.len(),
    ensures
        byte_at(s, i + 1) == byte_at(s, i) + encode_scalar(s[i] as u32).len(),
        byte_at(s, i) < byte_at(s, i + 1),
{
    assert(s.take(i + 1) =~= s.take(i).push(s[i]));
    lemma_encode_utf8_push(s.take(i), s[i]);
    reveal(encode_scalar);
    assert(encode_scalar(s[i] as u32).len() >= 1);
}

pub proof fn lemma_byte_at_mono(s: Seq<char>, i: int, j: int)
    requires
        0 <= i <= j <= s.len(),
    ensures
        byte_at(s, i) <= byte_at(s, j),
        i < j ==> byte_at(s, i) < byte_at(s, j),
    decreases j - i,
{
    if i < j {
        lemma_byte_at_step(s, j - 1);
        lemma_byte_at_mono(s, i, j - 1);
    }
}

/// The table of byte offsets of every char index of `text`, including the
/// total byte length as its last entry.
pub fn byte_starts(text: &str) -> (r: Vec<usize>)
    ensures
        r@.len() == text@.len() + 1,
        forall|i: int| 0 <= i <= text@.len() ==> r@[i] == byte_at(text@, i),
{
    let bytes: &[u8] = text.as_bytes();
    let total: usize = bytes.len();
    proof {
        assert(total == encode_utf8(text@).len());
        assert(text@.take(text@.len() as int) =~= text@);
    }
    let n: usize = text.unicode_len();
    let mut r: Vec<usize> = Vec::new();
    let mut pos: usize = 0;
    let mut i: usize = 0;
    r.push(0);
    proof {
        assert(text@.take(0) =~= Seq::<char>::empty());
    }
    while i < n
        invariant
            0 <= i <= n,
            n == text@.len(),
            total == byte_at(text@, n as int),
            r@.len() == i + 1,
            pos == byte_at(text@, i as int),
            forall|k: int| 0 <= k <= i ==> r@[k] == byte_at(text@, k),
        decreases n - i,
    {
        let c = text.get_char(i);
        let l = char_utf8_len(c);
        proof {
            lemma_byte_at_step(text@, i as int);
            lemma_byte_at_mono(text@, i + 1, n as int);
        }
        pos = pos + l;
        i = i + 1;
        r.push(pos);
    }
    r
}

} // verus!
