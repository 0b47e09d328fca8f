//! SRS addresses, their grammar and their canonical text.
//!
//! An SRS0 address reads `SRS0` sep hash sep tt sep hostname sep local `@`
//! domain, an SRS1 address `SRS1` sep hash sep hostname sep opaque-local `@`
//! domain. The separator is the fifth character, one of `=`, `+` and `-`. The
//! fields before the last are runs of text that hold neither the separator nor
//! `@`; the last field before `@` may hold separators; the domain is all that
//! follows the first `@` after it, whatever it holds.

use vstd::prelude::*;
use vstd::string::*;
use crate::tokenizer::{lemma_text_end, lemma_text_end_is, marks, srs_tag, text_end};
use crate::text::split_chars;
use crate::tokenizer::{Token, Tokenizer};

verus! {

/// An address that an SRS0 forwarder wrote: `local@hostname` was the sender,
/// `domain` is the forwarder, and `hash` signs `tt`, `hostname` and `local`.
#[derive(Debug, Clone)]
pub struct SRS0Address {
    pub hash: String,
    pub tt: String,
    pub hostname: String,
    pub local: String,
    pub domain: String,
    pub separator: String,
}

/// An address that a forwarder wrote over an SRS0 address: `hostname` is the
/// SRS0 forwarder, `opaque_local` is what that forwarder had put before its
/// `@`, less the tag, and `hash` signs `hostname` and `opaque_local`.
#[derive(Debug, Clone)]
pub struct SRS1Address {
    pub hash: String,
    pub hostname: String,
    pub opaque_local: String,
    pub domain: String,
    pub separator: String,
}

/// An SRS address of either kind.
#[derive(Debug)]
pub enum SRSAddress {
    SRS0(SRS0Address),
    SRS1(SRS1Address),
}

/// Why a text is no SRS address.
#[derive(Clone, Copy, Debug, PartialEq, Eq)]
pub enum ParseError {
    /// The text does not start with `SRS0` or `SRS1` and a separator.
    SRSPrefixError,
    /// A field is followed by `@` or by the end of the text where the
    /// separator must stand.
    ExpectedSRSSeparator,
    /// A field is empty.
    ExpectedNonemptyToken,
    /// The opaque local part of an SRS1 address is empty.
    ExpectedNonemptyLocalPart,
    /// No `@` ends the local part.
    NoDomainInAddress,
    /// Text follows where the address must end. The grammar takes the whole
    /// remainder as the domain, so parsing never gives this.
    ExpectedNoMoreTokens,
}

/// The fields of an SRS0 address as sequences of characters.
pub struct Srs0 {
    pub separator: Seq<char>,
    pub hash: Seq<char>,
    pub tt: Seq<char>,
    pub hostname: Seq<char>,
    pub local: Seq<char>,
    pub domain: Seq<char>,
}

/// The fields of an SRS1 address as sequences of characters.
pub struct Srs1 {
    pub separator: Seq<char>,
    pub hash: Seq<char>,
    pub hostname: Seq<char>,
    pub opaque_local: Seq<char>,
    pub domain: Seq<char>,
}

/// An address of either kind as sequences of characters.
pub enum Address {
    SRS0(Srs0),
    SRS1(Srs1),
}

impl View for SRS0Address {
    type V = Srs0;

    open spec fn view(&self) -> Srs0 {
        Srs0 {
            separator: self.separator@,
            hash: self.hash@,
            tt: self.tt@,
            hostname: self.hostname@,
            local: self.local@,
            domain: self.domain@,
        }
    }
}

impl View for SRS1Address {
    type V = Srs1;

    open spec fn view(&self) -> Srs1 {
        Srs1 {
            separator: self.separator@,
            hash: self.hash@,
            hostname: self.hostname@,
            opaque_local: self.opaque_local@,
            domain: self.domain@,
        }
    }
}

impl View for SRSAddress {
    type V = Address;

    open spec fn view(&self) -> Address {
        match *self {
            SRSAddress::SRS0(a) => Address::SRS0(a@),
            SRSAddress::SRS1(a) => Address::SRS1(a@),
        }
    }
}

/// Whether `c` can separate the fields of an SRS address.
pub open spec fn is_srs_separator(c: char) -> bool {
    c == '=' || c == '+' || c == '-'
}

/// Whether `text` can stand as a field between two separators `sep`: it is
/// not empty and holds neither `sep` nor `@`.
pub open spec fn is_field(text: Seq<char>, sep: char) -> bool {
    &&& text.len() > 0
    &&& forall|i: int| 0 <= i < text.len() ==> #[trigger] text[i] != sep && text[i] != '@'
}

/// Whether `text` can stand as the part before `@`: it is not empty and holds
/// no `@`.
pub open spec fn is_local_part(text: Seq<char>) -> bool {
    &&& text.len() > 0
    &&& forall|i: int| 0 <= i < text.len() ==> #[trigger] text[i] != '@'
}

impl Srs0 {
    /// The canonical text of the address.
    pub open spec fn serialized(self) -> Seq<char> {
        srs_tag(0) + self.separator + self.hash + self.separator + self.tt + self.separator
            + self.hostname + self.separator + self.local + seq!['@'] + self.domain
    }

    /// Whether the canonical text of the address reads back as the address.
    pub open spec fn is_valid(self) -> bool {
        &&& self.separator.len() == 1
        &&& is_srs_separator(self.separator[0])
        &&& is_field(self.hash, self.separator[0])
        &&& is_field(self.tt, self.separator[0])
        &&& is_field(self.hostname, self.separator[0])
        &&& is_local_part(self.local)
    }

    /// What an SRS1 forwarder keeps of the address: all that stands between
    /// the tag and `@`, the leading separator included.
    pub open spec fn embedded(self) -> Seq<char> {
        self.separator + self.hash + self.separator + self.tt + self.separator + self.hostname
            + self.separator + self.local
    }
}

impl Srs1 {
    /// The canonical text of the address.
    pub open spec fn serialized(self) -> Seq<char> {
        srs_tag(1) + self.separator + self.hash + self.separator + self.hostname + self.separator
            + self.opaque_local + seq!['@'] + self.domain
    }

    /// Whether the canonical text of the address reads back as the address.
    pub open spec fn is_valid(self) -> bool {
        &&& self.separator.len() == 1
        &&& is_srs_separator(self.separator[0])
        &&& is_field(self.hash, self.separator[0])
        &&& is_field(self.hostname, self.separator[0])
        &&& is_local_part(self.opaque_local)
    }
}

impl Address {
    /// The canonical text of the address.
    pub open spec fn serialized(self) -> Seq<char> {
        match self {
            Address::SRS0(a) => a.serialized(),
            Address::SRS1(a) => a.serialized(),
        }
    }

    /// Whether the canonical text of the address reads back as the address.
    pub open spec fn is_valid(self) -> bool {
        match self {
            Address::SRS0(a) => a.is_valid(),
            Address::SRS1(a) => a.is_valid(),
        }
    }

    /// The hash field.
    pub open spec fn hash(self) -> Seq<char> {
        match self {
            Address::SRS0(a) => a.hash,
            Address::SRS1(a) => a.hash,
        }
    }

    /// The address with another hash field.
    pub open spec fn with_hash(self, hash: Seq<char>) -> Address {
        match self {
            Address::SRS0(a) => Address::SRS0(Srs0 { hash: hash, ..a }),
            Address::SRS1(a) => Address::SRS1(Srs1 { hash: hash, ..a }),
        }
    }
}

/// Whether `s` starts with `SRS0` or `SRS1` and a separator.
pub open spec fn has_srs_prefix(s: Seq<char>) -> bool {
    &&& s.len() >= 5
    &&& (s.subrange(0, 4) == srs_tag(0) || s.subrange(0, 4) == srs_tag(1))
    &&& is_srs_separator(s[4])
}

/// Where the field that starts at `from` ends: at the first `sep` or `@`, or
/// at the end of `s`.
pub open spec fn field_end(s: Seq<char>, from: int, sep: char) -> int {
    text_end(s, from, seq![sep], seq!['@'])
}

/// Where the part before `@` that starts at `from` ends: at the first `@`,
/// or at the end of `s`.
pub open spec fn local_end(s: Seq<char>, from: int) -> int {
    text_end(s, from, Seq::empty(), seq!['@'])
}

/// Reads the field that starts at `from` and the separator after it. Gives
/// the field and the place after the separator.
pub open spec fn parse_field(s: Seq<char>, from: int, sep: char) -> Result<
    (Seq<char>, int),
    ParseError,
> {
    let end = field_end(s, from, sep);
    if end == from {
        Err(ParseError::ExpectedNonemptyToken)
    } else if end >= s.len() || s[end] != sep {
        Err(ParseError::ExpectedSRSSeparator)
    } else {
        Ok((s.subrange(from, end), end + 1))
    }
}

/// Reads the part before `@` that starts at `from`, and the domain after
/// `@`. An empty part fails with `empty`, whether or not an `@` follows.
pub open spec fn parse_local(s: Seq<char>, from: int, empty: ParseError) -> Result<
    (Seq<char>, Seq<char>),
    ParseError,
> {
    let at = local_end(s, from);
    if at == from {
        Err(empty)
    } else if at >= s.len() {
        Err(ParseError::NoDomainInAddress)
    } else {
        Ok((s.subrange(from, at), s.subrange(at + 1, s.len() as int)))
    }
}

/// Reads the fields of an SRS0 address from `s`, which has the prefix.
pub open spec fn parse_srs0(s: Seq<char>) -> Result<Address, ParseError> {
    let sep = s[4];
    match parse_field(s, 5, sep) {
        Err(e) => Err(e),
        Ok((hash, after_hash)) => match parse_field(s, after_hash, sep) {
            Err(e) => Err(e),
            Ok((tt, after_tt)) => match parse_field(s, after_tt, sep) {
                Err(e) => Err(e),
                Ok((hostname, after_hostname)) => match parse_local(
                    s,
                    after_hostname,
                    ParseError::ExpectedNonemptyToken,
                ) {
                    Err(e) => Err(e),
                    Ok((local, domain)) => Ok(
                        Address::SRS0(
                            Srs0 {
                                separator: seq![sep],
                                hash: hash,
                                tt: tt,
                                hostname: hostname,
                                local: local,
                                domain: domain,
                            },
                        ),
                    ),
                },
            },
        },
    }
}

/// Reads the fields of an SRS1 address from `s`, which has the prefix.
pub open spec fn parse_srs1(s: Seq<char>) -> Result<Address, ParseError> {
    let sep = s[4];
    match parse_field(s, 5, sep) {
        Err(e) => Err(e),
        Ok((hash, after_hash)) => match parse_field(s, after_hash, sep) {
            Err(e) => Err(e),
            Ok((hostname, after_hostname)) => match parse_local(
                s,
                after_hostname,
                ParseError::ExpectedNonemptyLocalPart,
            ) {
                Err(e) => Err(e),
                Ok((opaque_local, domain)) => Ok(
                    Address::SRS1(
                        Srs1 {
                            separator: seq![sep],
                            hash: hash,
                            hostname: hostname,
                            opaque_local: opaque_local,
                            domain: domain,
                        },
                    ),
                ),
            },
        },
    }
}

/// The address that `s` spells, or the first fault met when reading `s` from
/// left to right.
pub open spec fn parse_address(s: Seq<char>) -> Result<Address, ParseError> {
    if !has_srs_prefix(s) {
        Err(ParseError::SRSPrefixError)
    } else if s[3] == '0' {
        parse_srs0(s)
    } else {
        parse_srs1(s)
    }
}

/// A field that stands at `from` with the separator after it is read as
/// that field, and reading goes on after the separator.
proof fn lemma_field_at(s: Seq<char>, from: int, field: Seq<char>, sep: char)
    requires
        0 <= from,
        from + field.len() < s.len(),
        is_field(field, sep),
        s.subrange(from, from + field.len()) == field,
        s[from + field.len()] == sep,
    ensures
        parse_field(s, from, sep) == Ok::<(Seq<char>, int), ParseError>(
            (field, from + field.len() + 1),
        ),
{
    let end = from + field.len();
    assert forall|i: int| from <= i < end implies !marks(seq![sep], #[trigger] s[i]) && !marks(
        seq!['@'],
        s[i],
    ) by {
        assert(s[i] == field[i - from]);
    }
    lemma_text_end_is(s, from, end, seq![sep], seq!['@']);
}

/// A part without `@` that stands at `from` with `@` after it is read as
/// that part, and all that follows the `@` as the domain.
proof fn lemma_local_at(s: Seq<char>, from: int, local: Seq<char>, empty: ParseError)
    requires
        0 <= from,
        from + local.len() < s.len(),
        is_local_part(local),
        s.subrange(from, from + local.len()) == local,
        s[from + local.len()] == '@',
    ensures
        parse_local(s, from, empty) == Ok::<(Seq<char>, Seq<char>), ParseError>(
            (local, s.subrange(from + local.len() + 1, s.len() as int)),
        ),
{
    let end = from + local.len();
    assert forall|i: int| from <= i < end implies !marks(Seq::empty(), #[trigger] s[i]) && !marks(
        seq!['@'],
        s[i],
    ) by {
        assert(s[i] == local[i - from]);
    }
    lemma_text_end_is(s, from, end, Seq::empty(), seq!['@']);
}

/// Reading undoes writing: the canonical text of an SRS0 address whose
/// fields keep to the grammar reads back as that address.
#[verifier::rlimit(40)]
pub proof fn lemma_parse_inverts_serialize_srs0(a: Srs0)
    requires
        a.is_valid(),
    ensures
        parse_address(a.serialized()) == Ok::<Address, ParseError>(Address::SRS0(a)),
{
    let s = a.serialized();
    let sep = a.separator[0];
    let at_hash = 5int;
    let at_tt = at_hash + a.hash.len() + 1;
    let at_hostname = at_tt + a.tt.len() + 1;
    let at_local = at_hostname + a.hostname.len() + 1;
    let at_domain = at_local + a.local.len() + 1;
    assert(a.separator =~= seq![sep]);
    assert(s.len() == at_domain + a.domain.len());
    assert(s.subrange(0, 4) =~= srs_tag(0));
    assert(s[3] == '0');
    assert(s[4] == sep);
    assert(s.subrange(at_hash, at_hash + a.hash.len()) =~= a.hash);
    assert(s[at_tt - 1] == sep);
    assert(s.subrange(at_tt, at_tt + a.tt.len()) =~= a.tt);
    assert(s[at_hostname - 1] == sep);
    assert(s.subrange(at_hostname, at_hostname + a.hostname.len()) =~= a.hostname);
    assert(s[at_local - 1] == sep);
    assert(s.subrange(at_local, at_local + a.local.len()) =~= a.local);
    assert(s[at_domain - 1] == '@');
    assert(s.subrange(at_domain, s.len() as int) =~= a.domain);
    lemma_field_at(s, at_hash, a.hash, sep);
    lemma_field_at(s, at_tt, a.tt, sep);
    lemma_field_at(s, at_hostname, a.hostname, sep);
    lemma_local_at(s, at_local, a.local, ParseError::ExpectedNonemptyToken);
}

/// Reading undoes writing: the canonical text of an SRS1 address whose
/// fields keep to the grammar reads back as that address.
#[verifier::rlimit(40)]
pub proof fn lemma_parse_inverts_serialize_srs1(a: Srs1)
    requires
        a.is_valid(),
    ensures
        parse_address(a.serialized()) == Ok::<Address, ParseError>(Address::SRS1(a)),
{
    let s = a.serialized();
    let sep = a.separator[0];
    let at_hash = 5int;
    let at_hostname = at_hash + a.hash.len() + 1;
    let at_local = at_hostname + a.hostname.len() + 1;
    let at_domain = at_local + a.opaque_local.len() + 1;
    assert(a.separator =~= seq![sep]);
    assert(s.len() == at_domain + a.domain.len());
    assert(s.subrange(0, 4) =~= srs_tag(1));
    assert(s[3] == '1');
    assert(s[4] == sep);
    assert(s.subrange(at_hash, at_hash + a.hash.len()) =~= a.hash);
    assert(s[at_hostname - 1] == sep);
    assert(s.subrange(at_hostname, at_hostname + a.hostname.len()) =~= a.hostname);
    assert(s[at_local - 1] == sep);
    assert(s.subrange(at_local, at_local + a.opaque_local.len()) =~= a.opaque_local);
    assert(s[at_domain - 1] == '@');
    assert(s.subrange(at_domain, s.len() as int) =~= a.domain);
    lemma_field_at(s, at_hash, a.hash, sep);
    lemma_field_at(s, at_hostname, a.hostname, sep);
    lemma_local_at(s, at_local, a.opaque_local, ParseError::ExpectedNonemptyLocalPart);
}

/// Reading undoes writing: the canonical text of any address whose fields
/// keep to the grammar reads back as that address.
pub proof fn lemma_parse_inverts_serialize(a: Address)
    requires
        a.is_valid(),
    ensures
        parse_address(a.serialized()) == Ok::<Address, ParseError>(a),
{
    match a {
        Address::SRS0(a0) => lemma_parse_inverts_serialize_srs0(a0),
        Address::SRS1(a1) => lemma_parse_inverts_serialize_srs1(a1),
    }
}

/// A field that was read holds neither the separator nor `@`, and stands
/// in the text where it was read, with the separator after it.
proof fn lemma_field_read(s: Seq<char>, from: int, sep: char)
    requires
        0 <= from <= s.len(),
        parse_field(s, from, sep) is Ok,
    ensures
        ({
            let (field, after) = parse_field(s, from, sep)->Ok_0;
            &&& is_field(field, sep)
            &&& after == from + field.len() + 1
            &&& after <= s.len()
            &&& s.subrange(from, after) == field + seq![sep]
        }),
{
    lemma_text_end(s, from, seq![sep], seq!['@']);
    let (field, after) = parse_field(s, from, sep)->Ok_0;
    assert(s.subrange(from, after) =~= field + seq![sep]);
}

/// A part before `@` that was read holds no `@`, and stands in the text
/// where it was read, with `@` and the domain after it.
proof fn lemma_local_read(s: Seq<char>, from: int, empty: ParseError)
    requires
        0 <= from <= s.len(),
        parse_local(s, from, empty) is Ok,
    ensures
        ({
            let (local, domain) = parse_local(s, from, empty)->Ok_0;
            &&& is_local_part(local)
            &&& s.subrange(from, s.len() as int) == local + seq!['@'] + domain
        }),
{
    lemma_text_end(s, from, Seq::empty(), seq!['@']);
    let (local, domain) = parse_local(s, from, empty)->Ok_0;
    assert(s.subrange(from, s.len() as int) =~= local + seq!['@'] + domain);
}

/// What reads as an SRS0 address keeps to the grammar, and its canonical
/// text is the text that was read.
#[verifier::rlimit(40)]
proof fn lemma_serialize_inverts_parse_srs0(s: Seq<char>)
    requires
        has_srs_prefix(s),
        s.subrange(0, 4) == srs_tag(0),
        parse_srs0(s) is Ok,
    ensures
        parse_srs0(s)->Ok_0.is_valid(),
        parse_srs0(s)->Ok_0.serialized() == s,
{
    let sep = s[4];
    let (hash, after_hash) = parse_field(s, 5, sep)->Ok_0;
    lemma_field_read(s, 5, sep);
    let (tt, after_tt) = parse_field(s, after_hash, sep)->Ok_0;
    lemma_field_read(s, after_hash, sep);
    let (hostname, after_hostname) = parse_field(s, after_tt, sep)->Ok_0;
    lemma_field_read(s, after_tt, sep);
    let (local, domain) = parse_local(s, after_hostname, ParseError::ExpectedNonemptyToken)->Ok_0;
    lemma_local_read(s, after_hostname, ParseError::ExpectedNonemptyToken);
    let head = s.subrange(0, 4) + seq![sep];
    assert(head =~= s.subrange(0, 5));
    let a = parse_srs0(s)->Ok_0->SRS0_0;
    assert(a.separator =~= seq![sep]);
    assert(s =~= s.subrange(0, 5) + s.subrange(5, after_hash) + s.subrange(after_hash, after_tt)
        + s.subrange(after_tt, after_hostname) + s.subrange(after_hostname, s.len() as int));
    assert(a.serialized() =~= head + (hash + seq![sep]) + (tt + seq![sep]) + (hostname + seq![
        sep,
    ]) + (local + seq!['@'] + domain));
}

/// What reads as an SRS1 address keeps to the grammar, and its canonical
/// text is the text that was read.
#[verifier::rlimit(40)]
proof fn lemma_serialize_inverts_parse_srs1(s: Seq<char>)
    requires
        has_srs_prefix(s),
        s.subrange(0, 4) == srs_tag(1),
        parse_srs1(s) is Ok,
    ensures
        parse_srs1(s)->Ok_0.is_valid(),
        parse_srs1(s)->Ok_0.serialized() == s,
{
    let sep = s[4];
    let (hash, after_hash) = parse_field(s, 5, sep)->Ok_0;
    lemma_field_read(s, 5, sep);
    let (hostname, after_hostname) = parse_field(s, after_hash, sep)->Ok_0;
    lemma_field_read(s, after_hash, sep);
    let (local, domain) = parse_local(
        s,
        after_hostname,
        ParseError::ExpectedNonemptyLocalPart,
    )->Ok_0;
    lemma_local_read(s, after_hostname, ParseError::ExpectedNonemptyLocalPart);
    let head = s.subrange(0, 4) + seq![sep];
    assert(head =~= s.subrange(0, 5));
    let a = parse_srs1(s)->Ok_0->SRS1_0;
    assert(a.separator =~= seq![sep]);
    assert(s =~= s.subrange(0, 5) + s.subrange(5, after_hash) + s.subrange(
        after_hash,
        after_hostname,
    ) + s.subrange(after_hostname, s.len() as int));
    assert(a.serialized() =~= head + (hash + seq![sep]) + (hostname + seq![sep]) + (local + seq![
        '@',
    ] + domain));
}

/// What reads as an address keeps to the grammar, and its canonical text is
/// the text that was read.
pub proof fn lemma_serialize_inverts_parse(s: Seq<char>)
    requires
        parse_address(s) is Ok,
    ensures
        parse_address(s)->Ok_0.is_valid(),
        parse_address(s)->Ok_0.serialized() == s,
{
    assert(s.subrange(0, 4)[3] == s[3]);
    if s[3] == '0' {
        lemma_serialize_inverts_parse_srs0(s);
    } else {
        lemma_serialize_inverts_parse_srs1(s);
    }
}

/// A text reads as an address exactly when it is the canonical text of
/// that address and the fields of the address keep to the grammar.
pub proof fn lemma_parse_accepts_canonical_texts(s: Seq<char>, a: Address)
    ensures
        parse_address(s) == Ok::<Address, ParseError>(a) <==> a.is_valid() && a.serialized() == s,
{
    if parse_address(s) == Ok::<Address, ParseError>(a) {
        lemma_serialize_inverts_parse(s);
    }
    if a.is_valid() && a.serialized() == s {
        lemma_parse_inverts_serialize(a);
    }
}

/// Reads an address token by token.
struct SRSParser<'a> {
    tokenizer: Tokenizer<'a>,
    /// The fifth character of the input, if it has one.
    fifth: Option<char>,
    /// The fifth character as a text; empty if the input has none.
    separator: String,
}

impl<'a> SRSParser<'a> {
    /// The text that is being read.
    spec fn text(&self) -> Seq<char> {
        self.tokenizer.input()
    }

    /// How many characters have been read.
    spec fn pos(&self) -> int {
        self.tokenizer.position()
    }

    /// The separator of an input that has the prefix.
    spec fn sep(&self) -> char {
        self.text()[4]
    }

    /// The tokenizer cuts at `@` and at the fifth character of the input,
    /// if it has one.
    spec fn wf(&self) -> bool {
        &&& self.tokenizer.local_domain_separator() == seq!['@']
        &&& self.tokenizer.srs_separator() == self.separator@
        &&& self.text().len() >= 5 ==> self.fifth == Some(self.sep()) && self.separator@
            == seq![self.sep()]
        &&& self.text().len() < 5 ==> self.fifth is None && self.separator@.len() == 0
        &&& 0 <= self.pos() <= self.text().len()
    }

    /// The parser is past the prefix of an input that has one.
    spec fn in_fields(&self) -> bool {
        &&& self.wf()
        &&& has_srs_prefix(self.text())
        &&& self.pos() >= 5
    }

    /// Where the field at the present place ends.
    spec fn field_ends(&self) -> int {
        field_end(self.text(), self.pos(), self.sep())
    }

    /// The field at the present place.
    spec fn field_text(&self) -> Seq<char> {
        self.text().subrange(self.pos(), self.field_ends())
    }

    /// Whether the separator stands at the present place.
    spec fn at_separator(&self) -> bool {
        self.pos() < self.text().len() && self.text()[self.pos()] == self.sep()
    }

    fn new(input: &'a str) -> (p: SRSParser<'a>)
        ensures
            p.wf(),
            p.text() == input@,
            p.pos() == 0,
    {
        let mut it = input.chars();
        let _ = it.next();
        let _ = it.next();
        let _ = it.next();
        let _ = it.next();
        let fifth = it.next();
        let mut separator = String::new();
        match fifth {
            Some(c) => {
                separator.push(c);
                assert(input@.len() >= 5 && c == input@[4]);
                assert(separator@ =~= seq![c]);
            },
            None => {
                assert(input@.len() < 5);
            },
        }
        proof {
            reveal_strlit("@");
            assert("@"@ =~= seq!['@']);
        }
        let tokenizer = Tokenizer::tokenize(input, separator.as_str(), "@");
        SRSParser { tokenizer: tokenizer, fifth: fifth, separator: separator }
    }

    /// Takes the tag and the separator after it, and gives the version that
    /// the tag names.
    fn expect_srs_prefix(&mut self) -> (res: Result<u8, ParseError>)
        requires
            old(self).wf(),
            old(self).pos() == 0,
        ensures
            final(self).text() == old(self).text(),
            has_srs_prefix(old(self).text()) ==> final(self).in_fields(),
            has_srs_prefix(old(self).text()) ==> final(self).pos() == 5,
            has_srs_prefix(old(self).text()) ==> res == Ok::<u8, ParseError>(
                if old(self).text()[3] == '0' {
                    0u8
                } else {
                    1u8
                },
            ),
            !has_srs_prefix(old(self).text()) ==> res == Err::<u8, ParseError>(
                ParseError::SRSPrefixError,
            ),
    {
        let ghost s = self.text();
        match self.fifth {
            Some('=') | Some('+') | Some('-') => {},
            _ => {
                return Err(ParseError::SRSPrefixError);
            },
        }
        proof {
            if s.subrange(0, 4) == srs_tag(0) || s.subrange(0, 4) == srs_tag(1) {
                assert forall|i: int| 0 <= i < 4 implies !marks(seq![s[4]], #[trigger] s[i])
                    && !marks(seq!['@'], s[i]) by {
                    assert(s[i] == s.subrange(0, 4)[i]);
                }
                lemma_text_end_is(s, 0, 4, seq![s[4]], seq!['@']);
            }
            lemma_text_end(s, 1, seq![s[4]], seq!['@']);
        }
        let version: u8 = match self.tokenizer.next_token() {
            Some(Token::SRS(0)) => 0,
            Some(Token::SRS(1)) => 1,
            _ => {
                return Err(ParseError::SRSPrefixError);
            },
        };
        proof {
            assert(s.subrange(0, text_end(s, 0, seq![s[4]], seq!['@'])) == srs_tag(version as int));
            assert(s.subrange(0, text_end(s, 0, seq![s[4]], seq!['@'])).len() == 4);
            assert(s[3] == s.subrange(0, 4)[3]);
        }
        let _ = self.tokenizer.next_token();
        Ok(version)
    }

    /// Takes the field at the present place. Fails if a separator, `@` or
    /// the end of the input stands there.
    fn expect_nonempty(&mut self) -> (res: Result<String, ParseError>)
        requires
            old(self).in_fields(),
        ensures
            final(self).in_fields(),
            final(self).text() == old(self).text(),
            old(self).field_ends() == old(self).pos() ==> res == Err::<String, ParseError>(
                ParseError::ExpectedNonemptyToken,
            ),
            old(self).field_ends() != old(self).pos() ==> final(self).pos()
                == old(self).field_ends(),
            old(self).field_ends() != old(self).pos() ==> (res matches Ok(field) && field@
                == old(self).field_text()),
    {
        let ghost s = self.text();
        let ghost from = self.pos();
        proof {
            lemma_text_end(s, from, seq![self.sep()], seq!['@']);
            if from < s.len() {
                lemma_text_end(s, from + 1, seq![self.sep()], seq!['@']);
            }
        }
        match self.tokenizer.next_token_text() {
            Some((Token::Text(_), text)) => Ok(text.to_owned()),
            Some((Token::SRS(_), text)) => Ok(text.to_owned()),
            _ => Err(ParseError::ExpectedNonemptyToken),
        }
    }

    /// Takes the separator at the present place. Fails if anything else
    /// stands there.
    fn expect_separator(&mut self) -> (res: Result<(), ParseError>)
        requires
            old(self).in_fields(),
        ensures
            final(self).in_fields(),
            final(self).text() == old(self).text(),
            old(self).at_separator() ==> res is Ok && final(self).pos() == old(self).pos() + 1,
            !old(self).at_separator() ==> res == Err::<(), ParseError>(
                ParseError::ExpectedSRSSeparator,
            ),
    {
        let ghost s = self.text();
        let ghost from = self.pos();
        proof {
            if from < s.len() {
                lemma_text_end(s, from + 1, seq![self.sep()], seq!['@']);
            }
        }
        match self.tokenizer.next_token() {
            Some(Token::SRSSeparator) => Ok(()),
            _ => Err(ParseError::ExpectedSRSSeparator),
        }
    }

    /// Takes a field and the separator after it.
    fn expect_field(&mut self) -> (res: Result<String, ParseError>)
        requires
            old(self).in_fields(),
        ensures
            final(self).in_fields(),
            final(self).text() == old(self).text(),
            match res {
                Ok(field) => parse_field(old(self).text(), old(self).pos(), old(self).sep())
                    == Ok::<(Seq<char>, int), ParseError>((field@, final(self).pos())),
                Err(e) => parse_field(old(self).text(), old(self).pos(), old(self).sep())
                    == Err::<(Seq<char>, int), ParseError>(e),
            },
    {
        proof {
            lemma_text_end(self.text(), self.pos(), seq![self.sep()], seq!['@']);
        }
        let field = match self.expect_nonempty() {
            Ok(field) => field,
            Err(e) => {
                return Err(e);
            },
        };
        match self.expect_separator() {
            Ok(()) => Ok(field),
            Err(e) => Err(e),
        }
    }

    /// Takes all that stands before the next `@`, the `@`, and the domain
    /// after it. An empty part before `@` fails with `empty`.
    fn expect_local_and_domain(&mut self, empty: ParseError) -> (res: Result<
        (String, String),
        ParseError,
    >)
        requires
            old(self).in_fields(),
        ensures
            match res {
                Ok((local, domain)) => parse_local(old(self).text(), old(self).pos(), empty)
                    == Ok::<(Seq<char>, Seq<char>), ParseError>((local@, domain@)),
                Err(e) => parse_local(old(self).text(), old(self).pos(), empty) == Err::<
                    (Seq<char>, Seq<char>),
                    ParseError,
                >(e),
            },
    {
        let ghost s = self.text();
        let ghost from = self.pos();
        let ghost sep = self.sep();
        let start: usize = self.tokenizer.offset();
        let ahead = self.tokenizer.rest();
        let mut at: usize = start;
        loop
            invariant
                self.in_fields(),
                self.text() == s,
                self.sep() == sep,
                s == old(self).text(),
                from == old(self).pos(),
                from == start,
                ahead@ == s.skip(from),
                from <= at <= s.len(),
                at == self.pos(),
                forall|i: int| from <= i < at ==> #[trigger] s[i] != '@',
            decreases s.len() - self.pos(),
        {
            proof {
                if at < s.len() {
                    lemma_text_end(s, at as int + 1, seq![sep], seq!['@']);
                }
            }
            match self.tokenizer.next_token() {
                None => {
                    proof {
                        lemma_text_end_is(s, from, s.len() as int, Seq::empty(), seq!['@']);
                    }
                    if at == start {
                        return Err(empty);
                    }
                    return Err(ParseError::NoDomainInAddress);
                },
                Some(Token::LocalDomainSeparator) => {
                    proof {
                        lemma_text_end_is(s, from, at as int, Seq::empty(), seq!['@']);
                    }
                    if at == start {
                        return Err(empty);
                    }
                    let (local, _) = split_chars(ahead, at - start);
                    let domain = self.tokenizer.rest();
                    proof {
                        assert(local@ =~= s.subrange(from, at as int));
                        assert(domain@ =~= s.subrange(at + 1, s.len() as int));
                    }
                    return Ok((local.to_owned(), domain.to_owned()));
                },
                Some(_) => {
                    at = self.tokenizer.offset();
                },
            }
        }
    }

    /// Reads the fields of an SRS0 address.
    fn parse_srs0(&mut self) -> (res: Result<SRSAddress, ParseError>)
        requires
            old(self).in_fields(),
            old(self).pos() == 5,
        ensures
            match res {
                Ok(a) => parse_srs0(old(self).text()) == Ok::<Address, ParseError>(a@),
                Err(e) => parse_srs0(old(self).text()) == Err::<Address, ParseError>(e),
            },
    {
        let separator = self.separator.clone();
        let hash = match self.expect_field() {
            Ok(x) => x,
            Err(e) => {
                return Err(e);
            },
        };
        let tt = match self.expect_field() {
            Ok(x) => x,
            Err(e) => {
                return Err(e);
            },
        };
        let hostname = match self.expect_field() {
            Ok(x) => x,
            Err(e) => {
                return Err(e);
            },
        };
        let (local, domain) = match self.expect_local_and_domain(
            ParseError::ExpectedNonemptyToken,
        ) {
            Ok(x) => x,
            Err(e) => {
                return Err(e);
            },
        };
        Ok(
            SRSAddress::SRS0(
                SRS0Address {
                    separator: separator,
                    hash: hash,
                    tt: tt,
                    hostname: hostname,
                    local: local,
                    domain: domain,
                },
            ),
        )
    }

    /// Reads the fields of an SRS1 address.
    fn parse_srs1(&mut self) -> (res: Result<SRSAddress, ParseError>)
        requires
            old(self).in_fields(),
            old(self).pos() == 5,
        ensures
            match res {
                Ok(a) => parse_srs1(old(self).text()) == Ok::<Address, ParseError>(a@),
                Err(e) => parse_srs1(old(self).text()) == Err::<Address, ParseError>(e),
            },
    {
        let separator = self.separator.clone();
        let hash = match self.expect_field() {
            Ok(x) => x,
            Err(e) => {
                return Err(e);
            },
        };
        let hostname = match self.expect_field() {
            Ok(x) => x,
            Err(e) => {
                return Err(e);
            },
        };
        let (opaque_local, domain) = match self.expect_local_and_domain(
            ParseError::ExpectedNonemptyLocalPart,
        ) {
            Ok(x) => x,
            Err(e) => {
                return Err(e);
            },
        };
        Ok(
            SRSAddress::SRS1(
                SRS1Address {
                    separator: separator,
                    hash: hash,
                    hostname: hostname,
                    opaque_local: opaque_local,
                    domain: domain,
                },
            ),
        )
    }

    /// Reads the whole address.
    fn parse(&mut self) -> (res: Result<SRSAddress, ParseError>)
        requires
            old(self).wf(),
            old(self).pos() == 0,
        ensures
            match res {
                Ok(a) => parse_address(old(self).text()) == Ok::<Address, ParseError>(a@),
                Err(e) => parse_address(old(self).text()) == Err::<Address, ParseError>(e),
            },
    {
        match self.expect_srs_prefix() {
            Err(e) => Err(e),
            Ok(0) => self.parse_srs0(),
            Ok(_) => self.parse_srs1(),
        }
    }
}

impl SRS0Address {
    /// The canonical text of the address.
    pub fn serialize(&self) -> (text: String)
        ensures
            text@ == self@.serialized(),
    {
        proof {
            reveal_strlit("SRS0");
            reveal_strlit("@");
            assert("SRS0"@ =~= srs_tag(0));
            assert("@"@ =~= seq!['@']);
        }
        let mut text = String::new();
        text.append("SRS0");
        text.append(self.separator.as_str());
        text.append(self.hash.as_str());
        text.append(self.separator.as_str());
        text.append(self.tt.as_str());
        text.append(self.separator.as_str());
        text.append(self.hostname.as_str());
        text.append(self.separator.as_str());
        text.append(self.local.as_str());
        text.append("@");
        text.append(self.domain.as_str());
        assert(text@ =~= self@.serialized());
        text
    }
}

impl SRS1Address {
    /// The canonical text of the address.
    pub fn serialize(&self) -> (text: String)
        ensures
            text@ == self@.serialized(),
    {
        proof {
            reveal_strlit("SRS1");
            reveal_strlit("@");
            assert("SRS1"@ =~= srs_tag(1));
            assert("@"@ =~= seq!['@']);
        }
        let mut text = String::new();
        text.append("SRS1");
        text.append(self.separator.as_str());
        text.append(self.hash.as_str());
        text.append(self.separator.as_str());
        text.append(self.hostname.as_str());
        text.append(self.separator.as_str());
        text.append(self.opaque_local.as_str());
        text.append("@");
        text.append(self.domain.as_str());
        assert(text@ =~= self@.serialized());
        text
    }
}

impl SRSAddress {
    /// The canonical text of the address.
    pub fn serialize(&self) -> (text: String)
        ensures
            text@ == self@.serialized(),
    {
        match self {
            SRSAddress::SRS0(a) => a.serialize(),
            SRSAddress::SRS1(a) => a.serialize(),
        }
    }

    /// 0 for an SRS0 address, 1 for an SRS1 address.
    pub fn get_version(&self) -> (version: u8)
        ensures
            version == (if self@ is SRS0 {
                0u8
            } else {
                1u8
            }),
    {
        match self {
            SRSAddress::SRS0(_) => 0,
            SRSAddress::SRS1(_) => 1,
        }
    }

    /// Whether this is an SRS0 address.
    pub fn is_0(&self) -> (yes: bool)
        ensures
            yes == (self@ is SRS0),
    {
        self.get_version() == 0
    }

    /// Whether this is an SRS1 address.
    pub fn is_1(&self) -> (yes: bool)
        ensures
            yes == (self@ is SRS1),
    {
        self.get_version() == 1
    }

    /// The SRS0 address that this is.
    pub fn srs0(self) -> (a: SRS0Address)
        requires
            self is SRS0,
        ensures
            self == SRSAddress::SRS0(a),
    {
        match self {
            SRSAddress::SRS0(srs) => srs,
            SRSAddress::SRS1(_) => vstd::pervasive::unreached(),
        }
    }

    /// The SRS1 address that this is.
    pub fn srs1(self) -> (a: SRS1Address)
        requires
            self is SRS1,
        ensures
            self == SRSAddress::SRS1(a),
    {
        match self {
            SRSAddress::SRS1(srs) => srs,
            SRSAddress::SRS0(_) => vstd::pervasive::unreached(),
        }
    }

    /// Reads an address from its text.
    ///
    /// The text is read from left to right and the first fault decides the
    /// error: a missing or malformed prefix, an empty field, a field that is
    /// not followed by the separator, an empty part before `@`, or no `@`.
    /// An address that was read keeps to the grammar, and its canonical text
    /// is the text that it was read from.
    pub fn from_string(s: &str) -> (res: Result<SRSAddress, ParseError>)
        ensures
            match res {
                Ok(a) => parse_address(s@) == Ok::<Address, ParseError>(a@),
                Err(e) => parse_address(s@) == Err::<Address, ParseError>(e),
            },
            res matches Ok(a) ==> a@.is_valid() && a@.serialized() == s@,
            !(res matches Err(ParseError::ExpectedNoMoreTokens)),
    {
        let mut p = SRSParser::new(s);
        let res = p.parse();
        proof {
            if res is Ok {
                lemma_serialize_inverts_parse(s@);
            }
        }
        res
    }
}

} // verus!
