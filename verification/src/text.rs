//! Small text helpers that the address code shares: the characters of a
//! string, ASCII case folding, bytes that are known to be ASCII, and cutting
//! a string after a number of characters.

use vstd::prelude::*;
use vstd::string::*;
use vstd::utf8::*;

verus! {

/// `String::push` appends one character to the text.
pub assume_specification[ String::push ](s: &mut String, c: char)
    ensures
        final(s)@ == old(s)@.push(c),
;

/// The characters of `s`, in order.
pub fn chars_of(s: &str) -> (v: Vec<char>)
    ensures
        v@ == s@,
{
    let mut v: Vec<char> = Vec::new();
    for c in it: s.chars()
        invariant
            v@ == it.seq().take(it.index() as int),
            it.seq() == s@,
    {
        v.push(c);
    }
    v
}

/// The one character of a text that has exactly one.
pub open spec fn only_char(s: Seq<char>) -> Option<char> {
    if s.len() == 1 {
        Some(s[0])
    } else {
        None
    }
}

/// The one character of `s`, if `s` has exactly one.
pub fn single_char(s: &str) -> (c: Option<char>)
    ensures
        c == only_char(s@),
{
    let mut it = s.chars();
    let first = it.next();
    let second = it.next();
    match (first, second) {
        (Some(c), None) => {
            assert(s@.len() == 1 && s@[0] == c);
            Some(c)
        },
        _ => {
            assert(s@.len() != 1);
            None
        },
    }
}

/// `c` with an ASCII capital letter replaced by its small letter.
pub open spec fn ascii_lower(c: char) -> char {
    if 'A' <= c <= 'Z' {
        ((c as u8) + 32) as char
    } else {
        c
    }
}

/// Equality of two texts that takes `A-Z` and `a-z` for the same letters and
/// folds nothing else.
pub open spec fn eq_ignoring_ascii_case(a: Seq<char>, b: Seq<char>) -> bool {
    &&& a.len() == b.len()
    &&& forall|i: int| 0 <= i < a.len() ==> ascii_lower(#[trigger] a[i]) == ascii_lower(b[i])
}

/// Folds one character to lower case, ASCII letters only.
pub fn to_ascii_lower(c: char) -> (r: char)
    ensures
        r == ascii_lower(c),
{
    if 'A' <= c && c <= 'Z' {
        ((c as u8) + 32) as char
    } else {
        c
    }
}

/// Compares two texts without regard to the case of ASCII letters.
pub fn eq_ignore_ascii_case(a: &str, b: &str) -> (same: bool)
    ensures
        same == eq_ignoring_ascii_case(a@, b@),
{
    let x = chars_of(a);
    let y = chars_of(b);
    if x.len() != y.len() {
        return false;
    }
    let mut i: usize = 0;
    while i < x.len()
        invariant
            x@ == a@,
            y@ == b@,
            x.len() == y.len(),
            i <= x.len(),
            forall|j: int| 0 <= j < i ==> ascii_lower(#[trigger] x@[j]) == ascii_lower(y@[j]),
        decreases x.len() - i,
    {
        if to_ascii_lower(x[i]) != to_ascii_lower(y[i]) {
            return false;
        }
        i += 1;
    }
    true
}

/// Every byte is below 128.
pub open spec fn is_ascii_bytes(bytes: Seq<u8>) -> bool {
    forall|i: int| 0 <= i < bytes.len() ==> #[trigger] bytes[i] < 128
}

/// The text whose characters are the given ASCII bytes.
pub open spec fn ascii_text(bytes: Seq<u8>) -> Seq<char> {
    Seq::new(bytes.len(), |i: int| bytes[i] as char)
}

/// Whether every byte is ASCII.
pub fn all_ascii(bytes: &[u8]) -> (yes: bool)
    ensures
        yes == is_ascii_bytes(bytes@),
{
    let mut i: usize = 0;
    while i < bytes.len()
        invariant
            i <= bytes.len(),
            forall|j: int| 0 <= j < i ==> #[trigger] bytes@[j] < 128,
        decreases bytes.len() - i,
    {
        if bytes[i] >= 128 {
            return false;
        }
        i += 1;
    }
    true
}

/// Turns ASCII bytes into the text that they spell.
pub fn ascii_string(bytes: &[u8]) -> (s: String)
    requires
        is_ascii_bytes(bytes@),
    ensures
        s@ == ascii_text(bytes@),
{
    let mut s = String::new();
    let mut i: usize = 0;
    while i < bytes.len()
        invariant
            i <= bytes.len(),
            is_ascii_bytes(bytes@),
            s@ == ascii_text(bytes@).take(i as int),
        decreases bytes.len() - i,
    {
        s.push(bytes[i] as char);
        assert(ascii_text(bytes@).take(i + 1) =~= ascii_text(bytes@).take(i as int).push(
            bytes@[i as int] as char,
        ));
        i += 1;
    }
    assert(ascii_text(bytes@).take(i as int) =~= ascii_text(bytes@));
    s
}

/// The UTF-8 bytes of a text are those of its front part followed by those
/// of its back part.
pub proof fn lemma_encode_utf8_concat(x: Seq<char>, y: Seq<char>)
    ensures
        encode_utf8(x + y) == encode_utf8(x) + encode_utf8(y),
    decreases x.len(),
{
    if x.len() == 0 {
        assert(x + y =~= y);
        assert(encode_utf8(x) + encode_utf8(y) =~= encode_utf8(y));
    } else {
        lemma_encode_utf8_concat(x.drop_first(), y);
        assert((x + y).drop_first() =~= x.drop_first() + y);
        assert((x + y)[0] == x[0]);
        assert(encode_utf8(x + y) =~= encode_utf8(x) + encode_utf8(y));
    }
}

/// In the UTF-8 bytes of a text, a character starts where the bytes of a
/// front part of the text end.
proof fn lemma_boundary_after_prefix(x: Seq<char>, y: Seq<char>)
    ensures
        is_char_boundary(encode_utf8(x + y), encode_utf8(x).len() as int),
    decreases x.len(),
{
    let bytes = encode_utf8(x + y);
    encode_utf8_valid_utf8(x + y);
    if x.len() > 0 {
        let whole = x + y;
        encode_utf8_first_scalar(whole);
        encode_utf8_first_scalar(x);
        assert(whole.drop_first() =~= x.drop_first() + y);
        assert(whole[0] == x[0]);
        assert(pop_first_scalar(bytes) =~= encode_utf8(whole.drop_first()));
        lemma_boundary_after_prefix(x.drop_first(), y);
        lemma_encode_utf8_concat(x, y);
        let first = length_of_first_scalar(bytes);
        assert(encode_utf8(x).len() == first + encode_utf8(x.drop_first()).len());
        assert(first > 0);
    }
}

/// Splits `s` after its first `k` characters. The work grows with `k`, not
/// with the length of `s`.
pub fn split_chars<'a>(s: &'a str, k: usize) -> (parts: (&'a str, &'a str))
    requires
        k <= s@.len(),
    ensures
        parts.0@ == s@.take(k as int),
        parts.1@ == s@.skip(k as int),
{
    let head = s.substring_char(0, k);
    let mid: usize = head.as_bytes().len();
    proof {
        let x = s@.take(k as int);
        let y = s@.skip(k as int);
        assert(s@ =~= x + y);
        assert(head@ =~= x);
        lemma_encode_utf8_concat(x, y);
        lemma_boundary_after_prefix(x, y);
    }
    let (front, back) = s.split_at(mid);
    proof {
        let x = s@.take(k as int);
        let y = s@.skip(k as int);
        assert(front.spec_bytes() =~= encode_utf8(x));
        assert(back.spec_bytes() =~= encode_utf8(y));
        encode_utf8_decode_utf8(front@);
        encode_utf8_decode_utf8(back@);
        encode_utf8_decode_utf8(x);
        encode_utf8_decode_utf8(y);
    }
    (front, back)
}

} // verus!
