//! The two ends of sender rewriting: the forwarder wraps a sender address
//! on the way out, the receiver checks a wrapped address that comes back and
//! takes one layer off.
//!
//! A plain address becomes SRS0, SRS0 becomes SRS1, and SRS1 stays SRS1 with
//! a new domain, so a bounce needs three hops at most however long the chain
//! of forwarders was.

use vstd::prelude::*;
use vstd::string::*;
use crate::hash::{address_hash, address_mac, compute_addr_hash, failure_fits, signed_message};
use crate::hash::{Digest, HashFailure, MAX_KEY_LEN};
use crate::parser::{is_srs_separator, Address, SRS0Address, SRS1Address, SRSAddress, Srs0, Srs1};
use crate::text::{all_ascii, ascii_string, ascii_text, eq_ignore_ascii_case};
use crate::text::{eq_ignoring_ascii_case, is_ascii_bytes, single_char};
use crate::timestamper::Timestamper;
use crate::tokenizer::srs_tag;

verus! {

/// Checks wrapped addresses that come back to this host.
pub struct Receiver<T> where T: Timestamper {
    secret: Vec<u8>,
    pub hostname: Vec<u8>,
    pub md: Digest,
    pub timestamper: T,
}

/// Why a receiver turned an address down.
#[derive(Debug)]
pub enum ReceiverError {
    /// The hash of the address is not the one that the key gives, which is
    /// the one held here.
    HashVerificationFailed(String),
    /// No hash could be computed.
    HashingError(HashFailure),
    /// The timestamper turned the timestamp down, with this distance in days.
    TimestampError(i32),
}

/// A receiver's refusal, with its text as a sequence of characters.
pub enum ReceiveFailure {
    HashVerificationFailed(Seq<char>),
    HashingError(HashFailure),
    TimestampError(i32),
}

impl View for ReceiverError {
    type V = ReceiveFailure;

    open spec fn view(&self) -> ReceiveFailure {
        match *self {
            ReceiverError::HashVerificationFailed(expected) => {
                ReceiveFailure::HashVerificationFailed(expected@)
            },
            ReceiverError::HashingError(failure) => ReceiveFailure::HashingError(failure),
            ReceiverError::TimestampError(delta) => ReceiveFailure::TimestampError(delta),
        }
    }
}

/// Why no receiver could be made.
#[derive(Debug, Clone, Copy, PartialEq, Eq)]
pub enum ReceiverInitializationError {
    /// The hostname holds a byte that is not ASCII.
    HostnameInvalidChars,
}

/// Wraps sender addresses in the name of this host.
pub struct Forwarder<T> where T: Timestamper {
    secret: Vec<u8>,
    pub hostname: Vec<u8>,
    pub md: Digest,
    pub separator: String,
    pub timestamper: T,
}

/// Why no forwarder could be made.
#[derive(Debug, Clone, Copy, PartialEq, Eq)]
pub enum ForwarderInitializationError {
    /// The hostname holds a byte that is not ASCII, or it holds the
    /// separator.
    HostnameInvalidChars,
    /// The separator is not one of `=`, `+` and `-`.
    InvalidSRSSeparator,
}

/// Why a forwarder could not wrap an address.
#[derive(Debug)]
pub enum ForwarderError {
    /// No hash could be computed.
    HashingError(HashFailure),
}

/// An address that a forwarder can wrap.
#[derive(Debug)]
pub enum ForwardableAddress {
    SRS(SRSAddress),
    Plain { local: String, domain: String },
}

/// An address that a forwarder can wrap, as sequences of characters.
pub enum Forwardable {
    SRS(Address),
    Plain { local: Seq<char>, domain: Seq<char> },
}

impl View for ForwardableAddress {
    type V = Forwardable;

    open spec fn view(&self) -> Forwardable {
        match *self {
            ForwardableAddress::SRS(a) => Forwardable::SRS(a@),
            ForwardableAddress::Plain { local, domain } => Forwardable::Plain {
                local: local@,
                domain: domain@,
            },
        }
    }
}

/// Whether `separator` is one of the three texts `=`, `+` and `-`.
pub open spec fn is_separator_text(separator: Seq<char>) -> bool {
    separator.len() == 1 && is_srs_separator(separator[0])
}

/// Whether the ASCII bytes `hostname` hold the character `c`.
pub open spec fn holds_char(hostname: Seq<u8>, c: char) -> bool {
    exists|i: int| 0 <= i < hostname.len() && #[trigger] hostname[i] as char == c
}

/// What the receiver hands back for an address that it accepts: the sender
/// for SRS0, the SRS0 address of the first forwarder for SRS1.
pub open spec fn peeled(a: Address) -> Seq<char> {
    match a {
        Address::SRS0(a) => a.local + seq!['@'] + a.hostname,
        Address::SRS1(a) => srs_tag(0) + a.opaque_local + seq!['@'] + a.hostname,
    }
}

/// What receiving the address `a` gives when the key gives it the hash
/// `expected_hash` and the timestamper says `verdict` of its timestamp.
///
/// The hash is judged first, without regard to the case of ASCII letters.
/// The timestamp counts for SRS0 only.
pub open spec fn received(a: Address, expected_hash: Seq<char>, verdict: Result<(), i32>) -> Result<
    Seq<char>,
    ReceiveFailure,
> {
    if !eq_ignoring_ascii_case(expected_hash, a.hash()) {
        Err(ReceiveFailure::HashVerificationFailed(expected_hash))
    } else if a is SRS0 && verdict is Err {
        Err(ReceiveFailure::TimestampError(verdict->Err_0))
    } else {
        Ok(peeled(a))
    }
}

/// The timestamp of an SRS0 address; an SRS1 address shows none.
pub open spec fn timestamp_of(a: Address) -> Seq<char> {
    match a {
        Address::SRS0(a) => a.tt,
        Address::SRS1(_) => Seq::empty(),
    }
}

/// Whether forwarding `address` signs the result. An SRS1 address keeps the
/// hash that it has.
pub open spec fn needs_hash(address: Forwardable) -> bool {
    !(address matches Forwardable::SRS(Address::SRS1(_)))
}

/// The address that a forwarder named `hostname`, with `separator`, writes
/// for `address` on the day with timestamp `tt`, before it signs it. Only a
/// plain address takes the timestamp.
pub open spec fn rewritten(
    separator: Seq<char>,
    hostname: Seq<char>,
    address: Forwardable,
    tt: Seq<char>,
) -> Address {
    match address {
        Forwardable::Plain { local, domain } => Address::SRS0(
            Srs0 {
                separator: separator,
                hash: Seq::empty(),
                tt: tt,
                hostname: domain,
                local: local,
                domain: hostname,
            },
        ),
        Forwardable::SRS(Address::SRS0(a)) => Address::SRS1(
            Srs1 {
                separator: separator,
                hash: Seq::empty(),
                hostname: a.domain,
                opaque_local: a.embedded(),
                domain: hostname,
            },
        ),
        Forwardable::SRS(Address::SRS1(a)) => Address::SRS1(Srs1 { domain: hostname, ..a }),
    }
}

/// The address `a` with the hash that `key` and `digest` give it.
pub open spec fn signed(digest: Digest, key: Seq<u8>, a: Address) -> Address {
    a.with_hash(address_hash(digest, key, a))
}

/// Whether every byte of `substr` is ASCII.
fn is_email_compatible_ascii(substr: &[u8]) -> (yes: bool)
    ensures
        yes == is_ascii_bytes(substr@),
{
    all_ascii(substr)
}

/// Whether `separator` is one of `=`, `+` and `-`.
fn is_valid_srs_separator(separator: &str) -> (yes: bool)
    ensures
        yes == is_separator_text(separator@),
{
    match single_char(separator) {
        Some(c) => c == '=' || c == '+' || c == '-',
        None => false,
    }
}

/// Whether the bytes `hostname` hold the one character of `separator`.
fn holds_separator(hostname: &[u8], separator: &str) -> (yes: bool)
    requires
        is_separator_text(separator@),
    ensures
        yes == holds_char(hostname@, separator@[0]),
{
    let c = match single_char(separator) {
        Some(c) => c,
        None => {
            return false;
        },
    };
    let mut i: usize = 0;
    while i < hostname.len()
        invariant
            i <= hostname.len(),
            c == separator@[0],
            is_srs_separator(c),
            forall|j: int| 0 <= j < i ==> #[trigger] hostname@[j] as char != c,
        decreases hostname.len() - i,
    {
        if hostname[i] == c as u8 {
            return true;
        }
        i += 1;
    }
    false
}

/// The hash field of an address.
fn hash_field(address: &SRSAddress) -> (hash: &str)
    ensures
        hash@ == address@.hash(),
{
    match address {
        SRSAddress::SRS0(a) => a.hash.as_str(),
        SRSAddress::SRS1(a) => a.hash.as_str(),
    }
}

/// What the receiver hands back for an address that it accepts.
pub fn peel(address: &SRSAddress) -> (text: String)
    ensures
        text@ == peeled(address@),
{
    proof {
        reveal_strlit("SRS0");
        reveal_strlit("@");
        assert("SRS0"@ =~= srs_tag(0));
        assert("@"@ =~= seq!['@']);
    }
    let mut rewritten = String::new();
    match address {
        SRSAddress::SRS0(a) => {
            rewritten.append(a.local.as_str());
            rewritten.append("@");
            rewritten.append(a.hostname.as_str());
        },
        SRSAddress::SRS1(a) => {
            rewritten.append("SRS0");
            rewritten.append(a.opaque_local.as_str());
            rewritten.append("@");
            rewritten.append(a.hostname.as_str());
        },
    }
    assert(rewritten@ =~= peeled(address@));
    rewritten
}

/// Receives `address`, given the hash that the key gives it and what the
/// timestamper says of its timestamp.
///
/// A hash that differs from the expected one in more than the case of ASCII
/// letters fails with `HashVerificationFailed`, which holds the expected
/// hash. After that, an SRS0 address whose timestamp was turned down fails
/// with `TimestampError`. Any other address is peeled.
pub fn receive_with(address: &SRSAddress, expected_hash: String, verdict: Result<(), i32>) -> (res:
    Result<String, ReceiverError>)
    ensures
        match res {
            Ok(text) => received(address@, expected_hash@, verdict) == Ok::<
                Seq<char>,
                ReceiveFailure,
            >(text@),
            Err(e) => received(address@, expected_hash@, verdict) == Err::<
                Seq<char>,
                ReceiveFailure,
            >(e@),
        },
{
    if !eq_ignore_ascii_case(expected_hash.as_str(), hash_field(address)) {
        return Err(ReceiverError::HashVerificationFailed(expected_hash));
    }
    if address.is_0() {
        match verdict {
            Ok(()) => {},
            Err(delta) => {
                return Err(ReceiverError::TimestampError(delta));
            },
        }
    }
    Ok(peel(address))
}

impl<T> Receiver<T> where T: Timestamper {
    /// The key that signs addresses.
    pub closed spec fn key(&self) -> Seq<u8> {
        self.secret@
    }

    /// The name of this host, in bytes.
    pub closed spec fn host(&self) -> Seq<u8> {
        self.hostname@
    }

    /// The hash function that the key is used with.
    pub closed spec fn digest(&self) -> Digest {
        self.md
    }

    /// The timestamper that judges timestamps.
    pub closed spec fn stamper(&self) -> T {
        self.timestamper
    }

    /// The hostname is ASCII.
    pub open spec fn wf(&self) -> bool {
        is_ascii_bytes(self.host())
    }

    /// The HMAC that the key of this receiver gives `a`.
    pub open spec fn mac(&self, a: Address) -> Seq<u8> {
        address_mac(self.digest(), self.key(), a)
    }

    /// The hash that this receiver expects `a` to carry.
    pub open spec fn expected_hash(&self, a: Address) -> Seq<char> {
        address_hash(self.digest(), self.key(), a)
    }

    /// A receiver for the host `hostname` that checks hashes with `secret`
    /// and `md`, and timestamps with `timestamper`.
    ///
    /// Fails with `HostnameInvalidChars` exactly when a byte of the hostname
    /// is not ASCII.
    pub fn new(secret: Vec<u8>, hostname: Vec<u8>, md: Digest, timestamper: T) -> (res: Result<
        Receiver<T>,
        ReceiverInitializationError,
    >)
        ensures
            !is_ascii_bytes(hostname@) ==> res matches Err(
                ReceiverInitializationError::HostnameInvalidChars,
            ),
            is_ascii_bytes(hostname@) ==> (res matches Ok(r) && r.wf() && r.key() == secret@
                && r.host() == hostname@ && r.digest() == md && r.stamper() == timestamper),
    {
        if !is_email_compatible_ascii(hostname.as_slice()) {
            return Err(ReceiverInitializationError::HostnameInvalidChars);
        }
        Ok(Receiver { secret: secret, hostname: hostname, md: md, timestamper: timestamper })
    }

    /// Checks `address` and takes one layer off it.
    ///
    /// The hash that the key gives the address is computed first; if that
    /// cannot be done, the result is `HashingError`. The timestamper is asked
    /// only for an SRS0 address whose hash is right. The rest is
    /// `receive_with` on the computed hash and the timestamper's answer.
    pub fn receive(&self, address: &SRSAddress) -> (res: Result<String, ReceiverError>)
        ensures
            match res {
                Ok(text) => self.mac(address@).len() >= 3 && received(
                    address@,
                    self.expected_hash(address@),
                    Ok(()),
                ) == Ok::<Seq<char>, ReceiveFailure>(text@),
                Err(ReceiverError::HashVerificationFailed(expected)) => self.mac(address@).len()
                    >= 3 && received(address@, self.expected_hash(address@), Ok(())) == Err::<
                    Seq<char>,
                    ReceiveFailure,
                >(ReceiveFailure::HashVerificationFailed(expected@)),
                Err(ReceiverError::TimestampError(delta)) => self.mac(address@).len() >= 3
                    && address@ is SRS0 && received(
                    address@,
                    self.expected_hash(address@),
                    Err(delta),
                ) == Err::<Seq<char>, ReceiveFailure>(ReceiveFailure::TimestampError(delta)),
                Err(ReceiverError::HashingError(failure)) => failure_fits(
                    failure,
                    self.key(),
                    self.mac(address@),
                ),
            },
            self.key().len() > MAX_KEY_LEN ==> res matches Err(
                ReceiverError::HashingError(HashFailure::KeyTooLong),
            ),
    {
        let expected_hash = match compute_addr_hash(self.secret.as_slice(), self.md, address) {
            Err(failure) => {
                return Err(ReceiverError::HashingError(failure));
            },
            Ok(x) => x,
        };
        let verdict = match address {
            SRSAddress::SRS0(a) => {
                if eq_ignore_ascii_case(expected_hash.as_str(), a.hash.as_str()) {
                    self.timestamper.verify_timestamp(a.tt.as_str())
                } else {
                    Ok(())
                }
            },
            SRSAddress::SRS1(_) => Ok(()),
        };
        receive_with(address, expected_hash, verdict)
    }
}

impl<T> Forwarder<T> where T: Timestamper {
    /// The key that signs addresses.
    pub closed spec fn key(&self) -> Seq<u8> {
        self.secret@
    }

    /// The name of this host, in bytes.
    pub closed spec fn host(&self) -> Seq<u8> {
        self.hostname@
    }

    /// The hash function that the key is used with.
    pub closed spec fn digest(&self) -> Digest {
        self.md
    }

    /// The separator that this forwarder writes.
    pub closed spec fn sep(&self) -> Seq<char> {
        self.separator@
    }

    /// The timestamper that gives timestamps.
    pub closed spec fn stamper(&self) -> T {
        self.timestamper
    }

    /// The hostname is ASCII and free of the separator, and the separator is
    /// one of `=`, `+` and `-`.
    pub open spec fn wf(&self) -> bool {
        &&& is_ascii_bytes(self.host())
        &&& is_separator_text(self.sep())
        &&& !holds_char(self.host(), self.sep()[0])
    }

    /// The HMAC that the key of this forwarder gives `a`.
    pub open spec fn mac(&self, a: Address) -> Seq<u8> {
        address_mac(self.digest(), self.key(), a)
    }

    /// The address that this forwarder writes for `address` on the day with
    /// timestamp `tt`, before it signs it.
    pub open spec fn rewritten(&self, address: Forwardable, tt: Seq<char>) -> Address {
        rewritten(self.sep(), ascii_text(self.host()), address, tt)
    }

    /// The address that this forwarder gives for `address` on the day with
    /// timestamp `tt`.
    pub open spec fn forwarded(&self, address: Forwardable, tt: Seq<char>) -> Address {
        if needs_hash(address) {
            signed(self.digest(), self.key(), self.rewritten(address, tt))
        } else {
            self.rewritten(address, tt)
        }
    }

    /// Whether `failure` can be the reason that forwarding `address` fails:
    /// the address is to be signed, and the failure fits the address that is
    /// written for it on some day.
    pub open spec fn may_fail_with(&self, address: Forwardable, failure: HashFailure) -> bool {
        needs_hash(address) && exists|tt: Seq<char>|
            failure_fits(failure, self.key(), self.mac(#[trigger] self.rewritten(address, tt)))
    }

    /// A forwarder for the host `hostname` that writes addresses with
    /// `separator`, signs them with `secret` and `md`, and stamps them with
    /// `timestamper`.
    ///
    /// Fails with `HostnameInvalidChars` when a byte of the hostname is not
    /// ASCII; else with `InvalidSRSSeparator` when the separator is not one
    /// of `=`, `+` and `-`; else with `HostnameInvalidChars` when the
    /// hostname holds the separator.
    pub fn new(
        secret: Vec<u8>,
        hostname: Vec<u8>,
        md: Digest,
        separator: &str,
        timestamper: T,
    ) -> (res: Result<Forwarder<T>, ForwarderInitializationError>)
        ensures
            match res {
                Ok(f) => f.wf() && f.key() == secret@ && f.host() == hostname@ && f.digest() == md
                    && f.sep() == separator@ && f.stamper() == timestamper,
                Err(ForwarderInitializationError::HostnameInvalidChars) => !is_ascii_bytes(
                    hostname@,
                ) || (is_separator_text(separator@) && holds_char(hostname@, separator@[0])),
                Err(ForwarderInitializationError::InvalidSRSSeparator) => is_ascii_bytes(
                    hostname@,
                ) && !is_separator_text(separator@),
            },
            res is Ok <==> is_ascii_bytes(hostname@) && is_separator_text(separator@)
                && !holds_char(hostname@, separator@[0]),
    {
        if !is_email_compatible_ascii(hostname.as_slice()) {
            return Err(ForwarderInitializationError::HostnameInvalidChars);
        }
        if !is_valid_srs_separator(separator) {
            return Err(ForwarderInitializationError::InvalidSRSSeparator);
        }
        if holds_separator(hostname.as_slice(), separator) {
            return Err(ForwarderInitializationError::HostnameInvalidChars);
        }
        Ok(
            Forwarder {
                separator: separator.to_owned(),
                secret: secret,
                hostname: hostname,
                md: md,
                timestamper: timestamper,
            },
        )
    }

    /// Writes the address that this forwarder gives for `address`, without a
    /// hash where it is to be signed. `tt` is the timestamp of today; only a
    /// plain address takes it.
    pub fn rewrite(&self, address: ForwardableAddress, tt: String) -> (a: SRSAddress)
        requires
            self.wf(),
        ensures
            a@ == self.rewritten(address@, tt@),
    {
        let hostname = ascii_string(self.hostname.as_slice());
        match address {
            ForwardableAddress::Plain { local, domain } => SRSAddress::SRS0(
                SRS0Address {
                    separator: self.separator.clone(),
                    hash: String::new(),
                    tt: tt,
                    hostname: domain,
                    local: local,
                    domain: hostname,
                },
            ),
            ForwardableAddress::SRS(SRSAddress::SRS0(srs0)) => {
                let mut opaque_local = String::new();
                opaque_local.append(srs0.separator.as_str());
                opaque_local.append(srs0.hash.as_str());
                opaque_local.append(srs0.separator.as_str());
                opaque_local.append(srs0.tt.as_str());
                opaque_local.append(srs0.separator.as_str());
                opaque_local.append(srs0.hostname.as_str());
                opaque_local.append(srs0.separator.as_str());
                opaque_local.append(srs0.local.as_str());
                assert(opaque_local@ =~= srs0@.embedded());
                SRSAddress::SRS1(
                    SRS1Address {
                        separator: self.separator.clone(),
                        hash: String::new(),
                        hostname: srs0.domain,
                        opaque_local: opaque_local,
                        domain: hostname,
                    },
                )
            },
            ForwardableAddress::SRS(SRSAddress::SRS1(srs1)) => SRSAddress::SRS1(
                SRS1Address {
                    separator: srs1.separator,
                    hash: srs1.hash,
                    hostname: srs1.hostname,
                    opaque_local: srs1.opaque_local,
                    domain: hostname,
                },
            ),
        }
    }

    /// Signs `address`: computes the hash that the key gives it and puts it
    /// in the hash field. An address that cannot be signed is left as it is.
    pub fn update_hash(&self, address: &mut SRSAddress) -> (res: Result<(), ForwarderError>)
        ensures
            match res {
                Ok(()) => self.mac(old(address)@).len() >= 3 && final(address)@ == signed(
                    self.digest(),
                    self.key(),
                    old(address)@,
                ),
                Err(ForwarderError::HashingError(failure)) => final(address)@ == old(address)@
                    && failure_fits(failure, self.key(), self.mac(old(address)@)),
            },
            self.key().len() > MAX_KEY_LEN ==> res matches Err(
                ForwarderError::HashingError(HashFailure::KeyTooLong),
            ),
    {
        let hash = match compute_addr_hash(self.secret.as_slice(), self.md, &*address) {
            Err(failure) => {
                return Err(ForwarderError::HashingError(failure));
            },
            Ok(x) => x,
        };
        match address {
            SRSAddress::SRS0(a) => {
                a.hash = hash;
            },
            SRSAddress::SRS1(a) => {
                a.hash = hash;
            },
        }
        Ok(())
    }

    /// Wraps `address` in the name of this host.
    ///
    /// A plain address becomes SRS0 with today's timestamp from the
    /// timestamper, an SRS0 address becomes SRS1 around it, and both are
    /// signed. An SRS1 address only has its domain replaced, and never fails.
    pub fn forward(&self, address: ForwardableAddress) -> (res: Result<SRSAddress, ForwarderError>)
        requires
            self.wf(),
        ensures
            match res {
                Ok(a) => a@ == self.forwarded(address@, timestamp_of(a@)) && (needs_hash(address@)
                    ==> a@.hash().len() == 4 && self.mac(a@).len() >= 3),
                Err(ForwarderError::HashingError(failure)) => self.may_fail_with(
                    address@,
                    failure,
                ),
            },
            !needs_hash(address@) ==> res is Ok,
            needs_hash(address@) && self.key().len() > MAX_KEY_LEN ==> res matches Err(
                ForwarderError::HashingError(HashFailure::KeyTooLong),
            ),
    {
        let (tt, signing) = match &address {
            ForwardableAddress::Plain { .. } => (self.timestamper.now_as_timestamp(), true),
            ForwardableAddress::SRS(SRSAddress::SRS0(_)) => (String::new(), true),
            ForwardableAddress::SRS(SRSAddress::SRS1(_)) => (String::new(), false),
        };
        let mut rewritten = self.rewrite(address, tt);
        if signing {
            match self.update_hash(&mut rewritten) {
                Ok(()) => {},
                Err(e) => {
                    return Err(e);
                },
            }
        }
        Ok(rewritten)
    }
}

/// Forwarding never stacks a third layer: a plain address becomes SRS0, an
/// SRS0 address becomes SRS1 around it, and an SRS1 address stays the SRS1
/// address that it is but for its domain.
pub proof fn lemma_forwarding_has_fixed_depth<T: Timestamper>(
    f: Forwarder<T>,
    address: Forwardable,
    tt: Seq<char>,
)
    ensures
        address is Plain ==> f.forwarded(address, tt) is SRS0,
        address matches Forwardable::SRS(Address::SRS0(a)) ==> (f.forwarded(address, tt)
            matches Address::SRS1(b) && b.opaque_local == a.embedded() && b.hostname == a.domain),
        address matches Forwardable::SRS(Address::SRS1(a)) ==> f.forwarded(address, tt)
            == Address::SRS1(Srs1 { domain: ascii_text(f.host()), ..a }),
{
}

/// Receiving undoes forwarding: a plain address that was forwarded with a
/// key comes back as `local@domain` from a receiver with the same key and
/// digest, if the timestamper accepts the timestamp.
pub proof fn lemma_receive_inverts_forward<T: Timestamper, U: Timestamper>(
    f: Forwarder<T>,
    r: Receiver<U>,
    local: Seq<char>,
    domain: Seq<char>,
    tt: Seq<char>,
)
    requires
        f.key() == r.key(),
        f.digest() == r.digest(),
    ensures
        ({
            let sent = f.forwarded(Forwardable::Plain { local: local, domain: domain }, tt);
            received(sent, r.expected_hash(sent), Ok(())) == Ok::<Seq<char>, ReceiveFailure>(
                local + seq!['@'] + domain,
            )
        }),
{
    let plain = f.rewritten(Forwardable::Plain { local: local, domain: domain }, tt);
    let sent = f.forwarded(Forwardable::Plain { local: local, domain: domain }, tt);
    assert(signed_message(sent) == signed_message(plain));
}

/// A chain of three forwarders collapses: what the second forwarder's host
/// receives of the address that went through all three is the canonical text
/// of the SRS0 address that the first one wrote, whatever the timestamper
/// says.
pub proof fn lemma_chain_peels_to_first_hop<
    A: Timestamper,
    B: Timestamper,
    C: Timestamper,
    U: Timestamper,
>(
    first: Forwarder<A>,
    second: Forwarder<B>,
    third: Forwarder<C>,
    r: Receiver<U>,
    local: Seq<char>,
    domain: Seq<char>,
    tt: Seq<char>,
    later: Seq<char>,
    verdict: Result<(), i32>,
)
    requires
        second.key() == r.key(),
        second.digest() == r.digest(),
    ensures
        ({
            let hop0 = first.forwarded(Forwardable::Plain { local: local, domain: domain }, tt);
            let hop1 = second.forwarded(Forwardable::SRS(hop0), later);
            let hop2 = third.forwarded(Forwardable::SRS(hop1), later);
            &&& hop0 is SRS0
            &&& hop1 is SRS1
            &&& hop2 is SRS1
            &&& received(hop2, r.expected_hash(hop2), verdict) == Ok::<Seq<char>, ReceiveFailure>(
                hop0.serialized(),
            )
        }),
{
    let hop0 = first.forwarded(Forwardable::Plain { local: local, domain: domain }, tt);
    let wrapped = second.rewritten(Forwardable::SRS(hop0), later);
    let hop1 = second.forwarded(Forwardable::SRS(hop0), later);
    let hop2 = third.forwarded(Forwardable::SRS(hop1), later);
    assert(signed_message(hop1) == signed_message(wrapped));
    assert(signed_message(hop2) == signed_message(hop1));
    assert(peeled(hop2) =~= hop0.serialized());
}

/// The case of the letters in the hash field does not count: an address whose
/// hash differs from that of `a` only in the case of ASCII letters signs the
/// same fields and is received exactly as `a` is.
pub proof fn lemma_hash_case_is_ignored(
    a: Address,
    hash: Seq<char>,
    expected_hash: Seq<char>,
    verdict: Result<(), i32>,
)
    requires
        eq_ignoring_ascii_case(hash, a.hash()),
    ensures
        signed_message(a.with_hash(hash)) == signed_message(a),
        received(a.with_hash(hash), expected_hash, verdict) == received(a, expected_hash, verdict),
{
    if eq_ignoring_ascii_case(expected_hash, a.hash()) {
        assert(eq_ignoring_ascii_case(expected_hash, hash));
    }
    if eq_ignoring_ascii_case(expected_hash, hash) {
        assert(eq_ignoring_ascii_case(expected_hash, a.hash()));
    }
}

} // verus!
