//! Unpadded base64 in the alphabet that is safe inside a mail address:
//! `A-Z a-z 0-9 - _`.
//!
//! Three octets are read as one 24-bit number, most significant octet first,
//! and written as four symbols of six bits each. No padding is ever emitted
//! or accepted, so the encoder takes whole groups of three octets and the
//! decoder whole groups of four symbols.

use vstd::prelude::*;
use vstd::string::*;
use vstd::utf8::*;

verus! {

/// Why a base64 operation refused its input.
#[derive(Debug, PartialEq, Eq, Clone, Copy)]
pub enum Base64Err {
    /// The input is not made of whole groups of the given size.
    PaddingErr(usize),
    /// The input holds a byte outside the alphabet.
    DecodingErr,
}

/// The symbol that stands for the six-bit value `v`.
pub open spec fn base64_symbol(v: int) -> char {
    if v < 26 {
        (v + 65) as char
    } else if v < 52 {
        (v + 71) as char
    } else if v < 62 {
        (v - 4) as char
    } else if v == 62 {
        '-'
    } else {
        '_'
    }
}

/// The six-bit value that the byte `c` stands for, if it is in the alphabet.
pub open spec fn base64_value(c: u8) -> Option<int> {
    if 65 <= c <= 90 {
        Some(c - 65)
    } else if 97 <= c <= 122 {
        Some(c - 71)
    } else if 48 <= c <= 57 {
        Some(c + 4)
    } else if c == 45 {
        Some(62)
    } else if c == 95 {
        Some(63)
    } else {
        None
    }
}

/// The 24-bit number spelled by the `g`-th group of three octets of `b`.
pub open spec fn octet_group(b: Seq<u8>, g: int) -> int {
    b[3 * g] * 65536 + b[3 * g + 1] * 256 + b[3 * g + 2]
}

/// The `k`-th six-bit digit of the 24-bit number `n`, most significant first.
pub open spec fn sextet(n: int, k: int) -> int {
    if k == 0 {
        n / 262144
    } else if k == 1 {
        (n / 4096) % 64
    } else if k == 2 {
        (n / 64) % 64
    } else {
        n % 64
    }
}

/// The 24-bit number spelled by the `g`-th group of four symbols of `c`.
pub open spec fn sextet_group(c: Seq<u8>, g: int) -> int {
    base64_value(c[4 * g])->0 * 262144 + base64_value(c[4 * g + 1])->0 * 4096 + base64_value(
        c[4 * g + 2],
    )->0 * 64 + base64_value(c[4 * g + 3])->0
}

/// The `k`-th octet of the 24-bit number `n`, most significant first.
pub open spec fn octet(n: int, k: int) -> u8 {
    if k == 0 {
        (n / 65536) as u8
    } else if k == 1 {
        ((n / 256) % 256) as u8
    } else {
        (n % 256) as u8
    }
}

/// The encoding of `b`, which is meant to hold whole groups of three octets.
pub open spec fn base64_encoding(b: Seq<u8>) -> Seq<char> {
    Seq::new(
        (b.len() / 3 * 4) as nat,
        |i: int| base64_symbol(sextet(octet_group(b, i / 4), i % 4)),
    )
}

/// Every byte of `c` is a symbol of the alphabet.
pub open spec fn is_base64_text(c: Seq<u8>) -> bool {
    forall|i: int| 0 <= i < c.len() ==> (#[trigger] base64_value(c[i])) is Some
}

/// What decoding the bytes `c` yields: the octets, or the reason for refusal.
/// The length is judged before the symbols are.
pub open spec fn base64_decoding(c: Seq<u8>) -> Result<Seq<u8>, Base64Err> {
    if c.len() % 4 != 0 {
        Err(Base64Err::PaddingErr(4))
    } else if !is_base64_text(c) {
        Err(Base64Err::DecodingErr)
    } else {
        Ok(Seq::new((c.len() / 4 * 3) as nat, |i: int| octet(sextet_group(c, i / 3), i % 3)))
    }
}

/// The bytes of a text whose characters are all ASCII.
pub open spec fn ascii_bytes(text: Seq<char>) -> Seq<u8> {
    Seq::new(text.len(), |i: int| text[i] as u8)
}

/// The shifts and masks that cut three octets into four six-bit values give
/// the digits of the number that the octets spell.
proof fn lemma_split_octets(b0: u8, b1: u8, b2: u8)
    by (bit_vector)
    ensures
        (b0 >> 2) as u32 == ((b0 as u32) * 65536 + (b1 as u32) * 256 + (b2 as u32)) / 262144,
        (((b0 & 0x3) << 4) | (b1 >> 4)) as u32 == (((b0 as u32) * 65536 + (b1 as u32) * 256 + (
        b2 as u32)) / 4096) % 64,
        (((b1 & 0x0f) << 2) | (b2 >> 6)) as u32 == (((b0 as u32) * 65536 + (b1 as u32) * 256 + (
        b2 as u32)) / 64) % 64,
        (b2 & 0x3f) as u32 == ((b0 as u32) * 65536 + (b1 as u32) * 256 + (b2 as u32)) % 64,
        (b0 >> 2) < 64,
        (((b0 & 0x3) << 4) | (b1 >> 4)) < 64,
        (((b1 & 0x0f) << 2) | (b2 >> 6)) < 64,
        (b2 & 0x3f) < 64,
{
}

/// The shifts that join four six-bit values into three octets give the
/// octets of the number that the values spell.
proof fn lemma_join_sextets(v0: u8, v1: u8, v2: u8, v3: u8)
    by (bit_vector)
    requires
        v0 < 64,
        v1 < 64,
        v2 < 64,
        v3 < 64,
    ensures
        ((v0 << 2) | (v1 >> 4)) as u32 == ((v0 as u32) * 262144 + (v1 as u32) * 4096 + (v2 as u32)
            * 64 + (v3 as u32)) / 65536,
        ((v1 << 4) | (v2 >> 2)) as u32 == (((v0 as u32) * 262144 + (v1 as u32) * 4096 + (
        v2 as u32) * 64 + (v3 as u32)) / 256) % 256,
        ((v2 << 6) | v3) as u32 == ((v0 as u32) * 262144 + (v1 as u32) * 4096 + (v2 as u32) * 64
            + (v3 as u32)) % 256,
{
}

/// The symbol for a six-bit value.
fn symbol_of(v: u8) -> (c: char)
    requires
        v < 64,
    ensures
        c == base64_symbol(v as int),
{
    if v < 26 {
        (v + 65) as char
    } else if v < 52 {
        (v + 71) as char
    } else if v < 62 {
        (v - 4) as char
    } else if v == 62 {
        '-'
    } else {
        '_'
    }
}

/// The six-bit value of a symbol, or `None` for a byte outside the alphabet.
fn value_of(a: u8) -> (v: Option<u8>)
    ensures
        match v {
            Some(x) => base64_value(a) == Some(x as int) && x < 64,
            None => base64_value(a) is None,
        },
{
    if a >= 65 && a <= 90 {
        Some(a - 65)
    } else if a >= 97 && a <= 122 {
        Some(a - 71)
    } else if a >= 48 && a <= 57 {
        Some(a + 4)
    } else if a == 45 {
        Some(62)
    } else if a == 95 {
        Some(63)
    } else {
        None
    }
}

/// Encodes an input that is known to hold whole groups of three octets.
pub(crate) fn encode_groups(b: &[u8]) -> (s: String)
    requires
        b@.len() % 3 == 0,
    ensures
        s@ == base64_encoding(b@),
{
    let blen: usize = b.len();
    let mut s = String::new();
    let mut idx: usize = 0;
    while idx != blen
        invariant
            blen == b@.len(),
            blen % 3 == 0,
            idx % 3 == 0,
            idx <= blen,
            s@.len() == idx / 3 * 4,
            forall|i: int|
                0 <= i < s@.len() ==> s@[i] == base64_symbol(
                    sextet(octet_group(b@, i / 4), i % 4),
                ),
        decreases blen - idx,
    {
        let b0: u8 = b[idx];
        let b1: u8 = b[idx + 1];
        let b2: u8 = b[idx + 2];
        proof {
            lemma_split_octets(b0, b1, b2);
            assert(octet_group(b@, idx as int / 3) == b0 * 65536 + b1 * 256 + b2);
        }
        let ghost before = s@;
        s.push(symbol_of(b0 >> 2));
        s.push(symbol_of(((b0 & 0x3) << 4) | (b1 >> 4)));
        s.push(symbol_of(((b1 & 0x0f) << 2) | (b2 >> 6)));
        s.push(symbol_of(b2 & 0x3f));
        idx += 3;
        proof {
            assert forall|i: int| 0 <= i < s@.len() implies s@[i] == base64_symbol(
                sextet(octet_group(b@, i / 4), i % 4),
            ) by {
                if i < before.len() {
                    assert(s@[i] == before[i]);
                }
            }
        }
    }
    assert(s@ =~= base64_encoding(b@));
    s
}

/// Encodes whole groups of three octets as four symbols each.
///
/// An input that is not made of whole groups is refused with
/// `PaddingErr(3)`; the empty input gives the empty text.
pub fn base64_email_safe_encode(b: &[u8]) -> (res: Result<String, Base64Err>)
    ensures
        b@.len() % 3 != 0 ==> res == Err::<String, Base64Err>(Base64Err::PaddingErr(3)),
        b@.len() % 3 == 0 ==> (res matches Ok(s) && s@ == base64_encoding(b@)),
{
    if b.len() % 3 != 0 {
        return Err(Base64Err::PaddingErr(3));
    }
    Ok(encode_groups(b))
}

/// Decodes whole groups of four symbols into three octets each.
///
/// The length of the input in bytes is judged first: one that is no multiple
/// of four is refused with `PaddingErr(4)`. After that, any byte outside the
/// alphabet gives `DecodingErr`. The empty text gives no octets.
pub fn base64_email_safe_decode(s: &str) -> (res: Result<Vec<u8>, Base64Err>)
    ensures
        match res {
            Ok(v) => base64_decoding(s.spec_bytes()) == Ok::<Seq<u8>, Base64Err>(v@),
            Err(e) => base64_decoding(s.spec_bytes()) == Err::<Seq<u8>, Base64Err>(e),
        },
{
    let c = s.as_bytes();
    let clen: usize = c.len();
    if clen % 4 != 0 {
        return Err(Base64Err::PaddingErr(4));
    }
    let mut b: Vec<u8> = Vec::new();
    let mut idx: usize = 0;
    while idx < clen
        invariant
            c@ == s.spec_bytes(),
            clen == c@.len(),
            clen % 4 == 0,
            idx % 4 == 0,
            idx <= clen,
            b@.len() == idx / 4 * 3,
            forall|i: int| 0 <= i < idx ==> (#[trigger] base64_value(c@[i])) is Some,
            forall|i: int| 0 <= i < b@.len() ==> b@[i] == octet(sextet_group(c@, i / 3), i % 3),
        decreases clen - idx,
    {
        let v0 = match value_of(c[idx]) {
            Some(v) => v,
            None => {
                return Err(Base64Err::DecodingErr);
            },
        };
        let v1 = match value_of(c[idx + 1]) {
            Some(v) => v,
            None => {
                return Err(Base64Err::DecodingErr);
            },
        };
        let v2 = match value_of(c[idx + 2]) {
            Some(v) => v,
            None => {
                return Err(Base64Err::DecodingErr);
            },
        };
        let v3 = match value_of(c[idx + 3]) {
            Some(v) => v,
            None => {
                return Err(Base64Err::DecodingErr);
            },
        };
        proof {
            lemma_join_sextets(v0, v1, v2, v3);
            assert(sextet_group(c@, idx as int / 4) == v0 * 262144 + v1 * 4096 + v2 * 64 + v3);
        }
        let ghost before = b@;
        b.push((v0 << 2) | (v1 >> 4));
        b.push((v1 << 4) | (v2 >> 2));
        b.push((v2 << 6) | v3);
        idx += 4;
        proof {
            assert forall|i: int| 0 <= i < b@.len() implies b@[i] == octet(
                sextet_group(c@, i / 3),
                i % 3,
            ) by {
                if i < before.len() {
                    assert(b@[i] == before[i]);
                }
            }
        }
    }
    assert(is_base64_text(c@));
    assert(b@ =~= base64_decoding(c@)->Ok_0);
    Ok(b)
}

/// Each symbol is an ASCII character that stands for its own value.
proof fn lemma_value_of_symbol(v: int)
    requires
        0 <= v < 64,
    ensures
        base64_value(base64_symbol(v) as u8) == Some(v),
        (base64_symbol(v) as nat) < 128,
{
}

/// The six-bit digits and the octets of a 24-bit number are in range and
/// spell that number.
proof fn lemma_digits_of(n: u32)
    by (bit_vector)
    requires
        n < 16777216,
    ensures
        n / 262144 < 64,
        (n / 4096) % 64 < 64,
        (n / 64) % 64 < 64,
        n % 64 < 64,
        (n / 262144) * 262144 + ((n / 4096) % 64) * 4096 + ((n / 64) % 64) * 64 + n % 64 == n,
        n / 65536 < 256,
        (n / 256) % 256 < 256,
        n % 256 < 256,
        (n / 65536) * 65536 + ((n / 256) % 256) * 256 + n % 256 == n,
{
}

/// The six-bit digits of the number that four six-bit values spell are those
/// values.
proof fn lemma_digits_of_sextets(v0: u32, v1: u32, v2: u32, v3: u32)
    by (bit_vector)
    requires
        v0 < 64,
        v1 < 64,
        v2 < 64,
        v3 < 64,
    ensures
        v0 * 262144 + v1 * 4096 + v2 * 64 + v3 < 16777216,
        (v0 * 262144 + v1 * 4096 + v2 * 64 + v3) / 262144 == v0,
        ((v0 * 262144 + v1 * 4096 + v2 * 64 + v3) / 4096) % 64 == v1,
        ((v0 * 262144 + v1 * 4096 + v2 * 64 + v3) / 64) % 64 == v2,
        (v0 * 262144 + v1 * 4096 + v2 * 64 + v3) % 64 == v3,
{
}

/// The octets of the number that three octets spell are those octets.
proof fn lemma_digits_of_octets(b0: u32, b1: u32, b2: u32)
    by (bit_vector)
    requires
        b0 < 256,
        b1 < 256,
        b2 < 256,
    ensures
        b0 * 65536 + b1 * 256 + b2 < 16777216,
        (b0 * 65536 + b1 * 256 + b2) / 65536 == b0,
        ((b0 * 65536 + b1 * 256 + b2) / 256) % 256 == b1,
        (b0 * 65536 + b1 * 256 + b2) % 256 == b2,
{
}

/// The four six-bit digits of a 24-bit number spell that number.
proof fn lemma_sextets_spell(n: int)
    requires
        0 <= n < 16777216,
    ensures
        0 <= sextet(n, 0) < 64,
        0 <= sextet(n, 1) < 64,
        0 <= sextet(n, 2) < 64,
        0 <= sextet(n, 3) < 64,
        sextet(n, 0) * 262144 + sextet(n, 1) * 4096 + sextet(n, 2) * 64 + sextet(n, 3) == n,
{
    lemma_digits_of(n as u32);
}

/// The symbol at position `i` of an encoding, read back as a byte.
proof fn lemma_encoded_symbol(b: Seq<u8>, g: int, k: int)
    requires
        b.len() % 3 == 0,
        0 <= g < b.len() / 3,
        0 <= k < 4,
    ensures
        4 * g + k < base64_encoding(b).len(),
        (base64_encoding(b)[4 * g + k] as nat) < 128,
        base64_value(base64_encoding(b)[4 * g + k] as u8) == Some(sextet(octet_group(b, g), k)),
{
    let i = 4 * g + k;
    assert(i / 4 == g && i % 4 == k);
    lemma_sextets_spell(octet_group(b, g));
    lemma_value_of_symbol(sextet(octet_group(b, g), k));
}

/// An encoding is plain ASCII, and each of its bytes is in the alphabet.
pub proof fn lemma_encoding_is_ascii(b: Seq<u8>)
    requires
        b.len() % 3 == 0,
    ensures
        is_ascii_chars(base64_encoding(b)),
        encode_utf8(base64_encoding(b)) == ascii_bytes(base64_encoding(b)),
        is_base64_text(ascii_bytes(base64_encoding(b))),
{
    let text = base64_encoding(b);
    assert forall|i: int| 0 <= i < text.len() implies (text[i] as nat) < 128 && base64_value(
        text[i] as u8,
    ) is Some by {
        lemma_encoded_symbol(b, i / 4, i % 4);
    }
    is_ascii_chars_encode_utf8(text);
    assert(encode_utf8(text) =~= ascii_bytes(text));
    assert forall|i: int| 0 <= i < ascii_bytes(text).len() implies (#[trigger] base64_value(
        ascii_bytes(text)[i],
    )) is Some by {
        assert(ascii_bytes(text)[i] == text[i] as u8);
    }
}

/// The three octets of the number that they spell are those octets.
proof fn lemma_octets_spell(b0: u8, b1: u8, b2: u8)
    ensures
        0 <= b0 * 65536 + b1 * 256 + b2 < 16777216,
        octet(b0 * 65536 + b1 * 256 + b2, 0) == b0,
        octet(b0 * 65536 + b1 * 256 + b2, 1) == b1,
        octet(b0 * 65536 + b1 * 256 + b2, 2) == b2,
{
    lemma_digits_of_octets(b0 as u32, b1 as u32, b2 as u32);
}

/// The symbols of the `g`-th group of an encoding spell the `g`-th group of
/// the octets that were encoded.
proof fn lemma_encoded_group(b: Seq<u8>, g: int)
    requires
        b.len() % 3 == 0,
        0 <= g < b.len() / 3,
    ensures
        sextet_group(ascii_bytes(base64_encoding(b)), g) == octet_group(b, g),
{
    let text = base64_encoding(b);
    let c = ascii_bytes(text);
    lemma_encoded_symbol(b, g, 0);
    lemma_encoded_symbol(b, g, 1);
    lemma_encoded_symbol(b, g, 2);
    lemma_encoded_symbol(b, g, 3);
    lemma_sextets_spell(octet_group(b, g));
    assert(c[4 * g] == text[4 * g] as u8);
    assert(c[4 * g + 1] == text[4 * g + 1] as u8);
    assert(c[4 * g + 2] == text[4 * g + 2] as u8);
    assert(c[4 * g + 3] == text[4 * g + 3] as u8);
}

/// Decoding undoes encoding: the octets that went in come out again, for
/// every input made of whole groups of three.
pub proof fn lemma_decode_inverts_encode(b: Seq<u8>)
    requires
        b.len() % 3 == 0,
    ensures
        base64_decoding(encode_utf8(base64_encoding(b))) == Ok::<Seq<u8>, Base64Err>(b),
{
    lemma_encoding_is_ascii(b);
    let c = ascii_bytes(base64_encoding(b));
    assert(c.len() == b.len() / 3 * 4);
    let decoded = Seq::new((c.len() / 4 * 3) as nat, |i: int| octet(sextet_group(c, i / 3), i % 3));
    assert(base64_decoding(c) == Ok::<Seq<u8>, Base64Err>(decoded));
    assert(decoded.len() == b.len());
    assert forall|i: int| 0 <= i < b.len() implies decoded[i] == b[i] by {
        let g = i / 3;
        lemma_encoded_group(b, g);
        lemma_octets_spell(b[3 * g], b[3 * g + 1], b[3 * g + 2]);
    }
    assert(decoded =~= b);
}

/// Each byte of the alphabet is the symbol of the value that it stands for.
proof fn lemma_symbol_of_value(c: u8)
    requires
        base64_value(c) is Some,
    ensures
        0 <= base64_value(c)->0 < 64,
        base64_symbol(base64_value(c)->0) as u8 == c,
{
}

/// The digits of the number that four six-bit values spell are those values.
proof fn lemma_sextets_of_group(v0: int, v1: int, v2: int, v3: int)
    requires
        0 <= v0 < 64,
        0 <= v1 < 64,
        0 <= v2 < 64,
        0 <= v3 < 64,
    ensures
        0 <= v0 * 262144 + v1 * 4096 + v2 * 64 + v3 < 16777216,
        sextet(v0 * 262144 + v1 * 4096 + v2 * 64 + v3, 0) == v0,
        sextet(v0 * 262144 + v1 * 4096 + v2 * 64 + v3, 1) == v1,
        sextet(v0 * 262144 + v1 * 4096 + v2 * 64 + v3, 2) == v2,
        sextet(v0 * 262144 + v1 * 4096 + v2 * 64 + v3, 3) == v3,
{
    lemma_digits_of_sextets(v0 as u32, v1 as u32, v2 as u32, v3 as u32);
}

/// The three octets of a 24-bit number spell that number.
proof fn lemma_octets_of(n: int)
    requires
        0 <= n < 16777216,
    ensures
        octet(n, 0) * 65536 + octet(n, 1) * 256 + octet(n, 2) == n,
{
    lemma_digits_of(n as u32);
}

/// The octets of the `g`-th group of a decoding spell the `g`-th group of
/// the symbols that were decoded.
proof fn lemma_decoded_group(c: Seq<u8>, g: int)
    requires
        base64_decoding(c) is Ok,
        0 <= g < c.len() / 4,
    ensures
        octet_group(base64_decoding(c)->Ok_0, g) == sextet_group(c, g),
        0 <= sextet_group(c, g) < 16777216,
{
    let b = base64_decoding(c)->Ok_0;
    let n = sextet_group(c, g);
    lemma_symbol_of_value(c[4 * g]);
    lemma_symbol_of_value(c[4 * g + 1]);
    lemma_symbol_of_value(c[4 * g + 2]);
    lemma_symbol_of_value(c[4 * g + 3]);
    lemma_octets_of(n);
    assert(b[3 * g] == octet(sextet_group(c, (3 * g) / 3), (3 * g) % 3));
    assert(b[3 * g + 1] == octet(sextet_group(c, (3 * g + 1) / 3), (3 * g + 1) % 3));
    assert(b[3 * g + 2] == octet(sextet_group(c, (3 * g + 2) / 3), (3 * g + 2) % 3));
}

/// The symbol at position `4 * g + k` of the encoding of a decoding is the
/// byte that was decoded there.
proof fn lemma_reencoded_symbol(c: Seq<u8>, g: int, k: int)
    requires
        base64_decoding(c) is Ok,
        0 <= g < c.len() / 4,
        0 <= k < 4,
    ensures
        base64_symbol(sextet(octet_group(base64_decoding(c)->Ok_0, g), k)) as u8 == c[4 * g + k],
{
    lemma_decoded_group(c, g);
    lemma_symbol_of_value(c[4 * g]);
    lemma_symbol_of_value(c[4 * g + 1]);
    lemma_symbol_of_value(c[4 * g + 2]);
    lemma_symbol_of_value(c[4 * g + 3]);
    lemma_sextets_of_group(
        base64_value(c[4 * g])->0,
        base64_value(c[4 * g + 1])->0,
        base64_value(c[4 * g + 2])->0,
        base64_value(c[4 * g + 3])->0,
    );
}

/// Encoding undoes decoding: the symbols that were decoded come out again,
/// for every text that decodes.
pub proof fn lemma_encode_inverts_decode(c: Seq<u8>)
    requires
        base64_decoding(c) is Ok,
    ensures
        base64_decoding(c)->Ok_0.len() % 3 == 0,
        encode_utf8(base64_encoding(base64_decoding(c)->Ok_0)) == c,
{
    let b = base64_decoding(c)->Ok_0;
    let text = base64_encoding(b);
    assert(b.len() == c.len() / 4 * 3);
    lemma_encoding_is_ascii(b);
    assert(text.len() == c.len());
    assert forall|i: int| 0 <= i < c.len() implies ascii_bytes(text)[i] == c[i] by {
        lemma_reencoded_symbol(c, i / 4, i % 4);
    }
    assert(ascii_bytes(text) =~= c);
}

} // verus!
