//! The keyed hash that signs an address, and the four symbols that an
//! address carries of it.
//!
//! The hash is an HMAC over the signed fields of the address, written one
//! after the other as UTF-8. An address carries the first three octets of
//! it in base64.

use vstd::prelude::*;
use vstd::string::*;
use vstd::utf8::*;
use openssl::error::ErrorStack;
use openssl::hash::MessageDigest;
use openssl::pkey::PKey;
use openssl::sign::Signer;
use crate::parser::{Address, SRSAddress};
use crate::text::lemma_encode_utf8_concat;
use crate::util::{base64_encoding, encode_groups};

verus! {

/// The errors that OpenSSL hands back; nothing is known of what one holds.
#[verifier::external_type_specification]
#[verifier::external_body]
pub struct ExErrorStack(ErrorStack);

/// The hash function that the HMAC is built on.
#[derive(Debug, Clone, Copy, PartialEq, Eq)]
pub enum Digest {
    Sha1,
    Sha224,
    Sha256,
    Sha384,
    Sha512,
}

/// Why no hash could be had for an address.
#[derive(Debug)]
pub enum HashFailure {
    /// OpenSSL failed, with these errors.
    Backend(ErrorStack),
    /// The key is longer than OpenSSL takes.
    KeyTooLong,
    /// The HMAC has fewer than three octets.
    DigestTooShort,
}

/// The longest key, in bytes, that can be handed to OpenSSL.
pub const MAX_KEY_LEN: usize = 0x7fff_ffff;

/// The HMAC of `message` under `key`, built on `digest`.
pub uninterp spec fn hmac(digest: Digest, key: Seq<u8>, message: Seq<u8>) -> Seq<u8>;

/// Computes an HMAC with OpenSSL: `PKey::hmac` makes the key, `Signer::new`
/// starts the HMAC on the chosen `MessageDigest`, `Signer::update` feeds it
/// the message and `Signer::sign_to_vec` gives the code.
///
/// The contract claims that a code that comes back is the HMAC of the message
/// under the key, a function of the three arguments alone. Nothing is claimed
/// of its length, nor that a code comes back. Keys longer than `MAX_KEY_LEN`
/// are kept out because `PKey::hmac` panics on them.
#[verifier::external_body]
fn hmac_sign(digest: Digest, key: &[u8], message: &[u8]) -> (res: Result<Vec<u8>, ErrorStack>)
    requires
        key@.len() <= MAX_KEY_LEN,
    ensures
        res matches Ok(mac) ==> mac@ == hmac(digest, key@, message@),
{
    let md = match digest {
        Digest::Sha1 => MessageDigest::sha1(),
        Digest::Sha224 => MessageDigest::sha224(),
        Digest::Sha256 => MessageDigest::sha256(),
        Digest::Sha384 => MessageDigest::sha384(),
        Digest::Sha512 => MessageDigest::sha512(),
    };
    let pkey = PKey::hmac(key)?;
    let mut signer = Signer::new(md, &pkey)?;
    signer.update(message)?;
    signer.sign_to_vec()
}

/// The bytes that the hash of an address signs: for SRS0 the timestamp, the
/// hostname and the local part, for SRS1 the hostname and the opaque local
/// part. Neither the hash itself nor the domain nor the separator is signed.
pub open spec fn signed_message(a: Address) -> Seq<u8> {
    match a {
        Address::SRS0(a) => encode_utf8(a.tt) + encode_utf8(a.hostname) + encode_utf8(a.local),
        Address::SRS1(a) => encode_utf8(a.hostname) + encode_utf8(a.opaque_local),
    }
}

/// The four symbols that an address carries of the HMAC `mac`.
pub open spec fn hash_prefix(mac: Seq<u8>) -> Seq<char> {
    base64_encoding(mac.take(3))
}

/// The HMAC that `key` and `digest` give the address `a`.
pub open spec fn address_mac(digest: Digest, key: Seq<u8>, a: Address) -> Seq<u8> {
    hmac(digest, key, signed_message(a))
}

/// The hash field that `key` and `digest` give the address `a`.
pub open spec fn address_hash(digest: Digest, key: Seq<u8>, a: Address) -> Seq<char> {
    hash_prefix(address_mac(digest, key, a))
}

/// Whether `failure` can be the reason that an address whose HMAC is `mac`
/// got no hash under `key`.
pub open spec fn failure_fits(failure: HashFailure, key: Seq<u8>, mac: Seq<u8>) -> bool {
    match failure {
        HashFailure::KeyTooLong => key.len() > MAX_KEY_LEN,
        HashFailure::DigestTooShort => key.len() <= MAX_KEY_LEN && mac.len() < 3,
        HashFailure::Backend(_) => key.len() <= MAX_KEY_LEN,
    }
}

/// The signed bytes are the UTF-8 bytes of the signed fields put together.
pub proof fn lemma_signed_message_joins_the_fields(a: Address)
    ensures
        signed_message(a) == match a {
            Address::SRS0(a) => encode_utf8(a.tt + a.hostname + a.local),
            Address::SRS1(a) => encode_utf8(a.hostname + a.opaque_local),
        },
{
    match a {
        Address::SRS0(a) => {
            lemma_encode_utf8_concat(a.tt, a.hostname);
            lemma_encode_utf8_concat(a.tt + a.hostname, a.local);
        },
        Address::SRS1(a) => {
            lemma_encode_utf8_concat(a.hostname, a.opaque_local);
        },
    }
}

/// The hash of an HMAC of three octets or more has four symbols.
pub proof fn lemma_hash_has_four_symbols(mac: Seq<u8>)
    requires
        mac.len() >= 3,
    ensures
        hash_prefix(mac).len() == 4,
{
}

/// Appends `bytes` to `out`.
fn append_bytes(out: &mut Vec<u8>, bytes: &[u8])
    ensures
        final(out)@ == old(out)@ + bytes@,
{
    let mut i: usize = 0;
    while i < bytes.len()
        invariant
            i <= bytes.len(),
            out@ == old(out)@ + bytes@.take(i as int),
        decreases bytes.len() - i,
    {
        out.push(bytes[i]);
        assert(bytes@.take(i + 1) =~= bytes@.take(i as int).push(bytes@[i as int]));
        i += 1;
    }
    assert(bytes@.take(i as int) =~= bytes@);
}

/// The bytes that the hash of `address` signs.
pub fn message_of(address: &SRSAddress) -> (message: Vec<u8>)
    ensures
        message@ == signed_message(address@),
{
    let mut message: Vec<u8> = Vec::new();
    match address {
        SRSAddress::SRS0(a) => {
            append_bytes(&mut message, a.tt.as_str().as_bytes());
            append_bytes(&mut message, a.hostname.as_str().as_bytes());
            append_bytes(&mut message, a.local.as_str().as_bytes());
        },
        SRSAddress::SRS1(a) => {
            append_bytes(&mut message, a.hostname.as_str().as_bytes());
            append_bytes(&mut message, a.opaque_local.as_str().as_bytes());
        },
    }
    assert(message@ =~= signed_message(address@));
    message
}

/// The four symbols that an address carries of the HMAC `mac`. An HMAC of
/// fewer than three octets has none.
pub fn hash_of_mac(mac: &[u8]) -> (res: Result<String, HashFailure>)
    ensures
        mac@.len() < 3 ==> res matches Err(HashFailure::DigestTooShort),
        mac@.len() >= 3 ==> (res matches Ok(hash) && hash@ == hash_prefix(mac@) && hash@.len()
            == 4),
{
    if mac.len() < 3 {
        return Err(HashFailure::DigestTooShort);
    }
    let head = &mac[0..3];
    assert(head@ =~= mac@.take(3));
    Ok(encode_groups(head))
}

/// Computes the hash field of `address` under `key`.
///
/// Fails with `KeyTooLong` exactly when the key is longer than `MAX_KEY_LEN`,
/// with `DigestTooShort` only when the HMAC has fewer than three octets, and
/// with `Backend` when OpenSSL fails.
pub fn compute_addr_hash(key: &[u8], md: Digest, address: &SRSAddress) -> (res: Result<
    String,
    HashFailure,
>)
    ensures
        match res {
            Ok(hash) => key@.len() <= MAX_KEY_LEN && address_mac(md, key@, address@).len() >= 3
                && hash@ == address_hash(md, key@, address@),
            Err(failure) => failure_fits(failure, key@, address_mac(md, key@, address@)),
        },
{
    if key.len() > MAX_KEY_LEN {
        return Err(HashFailure::KeyTooLong);
    }
    let message = message_of(address);
    match hmac_sign(md, key, message.as_slice()) {
        Err(errors) => Err(HashFailure::Backend(errors)),
        Ok(mac) => hash_of_mac(mac.as_slice()),
    }
}

} // verus!
