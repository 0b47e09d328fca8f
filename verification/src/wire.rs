//! The request that a client sends to have an address received: the word
//! `get`, one space, the address, and trailing whitespace that does not
//! count.

use vstd::prelude::*;
use vstd::string::*;
use crate::hash::failure_fits;
use crate::parser::{parse_address, Address, ParseError, SRSAddress};
use crate::text::chars_of;
use crate::timestamper::Timestamper;
use crate::transformers::{received, ReceiveFailure, Receiver, ReceiverError};

verus! {

/// What the server answers to one request.
#[derive(Debug)]
pub enum Reply {
    /// The request does not start with `get` and a space.
    InvalidRequest,
    /// What follows `get` is no SRS address.
    ParseFailed(ParseError),
    /// The receiver turned the address down.
    Refused(ReceiverError),
    /// The address was accepted; this is what it peels to.
    Peeled(String),
}

/// Whether `c` is white space, as Unicode defines it.
pub open spec fn is_whitespace(c: char) -> bool {
    let n = c as u32;
    ||| 0x09 <= n <= 0x0d
    ||| n == 0x20
    ||| n == 0x85
    ||| n == 0xa0
    ||| n == 0x1680
    ||| 0x2000 <= n <= 0x200a
    ||| n == 0x2028
    ||| n == 0x2029
    ||| n == 0x202f
    ||| n == 0x205f
    ||| n == 0x3000
}

/// How much of `s` is left when the white space at its end is dropped.
pub open spec fn trimmed_len(s: Seq<char>) -> nat
    decreases s.len(),
{
    if s.len() == 0 {
        0
    } else if is_whitespace(s.last()) {
        trimmed_len(s.drop_last())
    } else {
        s.len()
    }
}

/// The four characters that open a request.
pub open spec fn request_word() -> Seq<char> {
    seq!['g', 'e', 't', ' ']
}

/// The address that the request `s` asks for: what follows the opening
/// word, less the white space at its end. `None` if `s` does not open with
/// the word.
pub open spec fn request_address(s: Seq<char>) -> Option<Seq<char>> {
    if s.len() >= 4 && s.subrange(0, 4) == request_word() {
        let rest = s.subrange(4, s.len() as int);
        Some(rest.take(trimmed_len(rest) as int))
    } else {
        None
    }
}

/// Whether `c` is white space.
fn is_space(c: char) -> (yes: bool)
    ensures
        yes == is_whitespace(c),
{
    let n: u32 = c as u32;
    (0x09 <= n && n <= 0x0d) || n == 0x20 || n == 0x85 || n == 0xa0 || n == 0x1680 || (0x2000 <= n
        && n <= 0x200a) || n == 0x2028 || n == 0x2029 || n == 0x202f || n == 0x205f || n == 0x3000
}

/// Takes the address out of a request.
pub fn address_of_request(input: &str) -> (address: Option<String>)
    ensures
        match address {
            Some(text) => request_address(input@) == Some(text@),
            None => request_address(input@) is None,
        },
{
    let chars = chars_of(input);
    let len: usize = chars.len();
    if len < 4 || chars[0] != 'g' || chars[1] != 'e' || chars[2] != 't' || chars[3] != ' ' {
        proof {
            if len >= 4 {
                let head = input@.subrange(0, 4);
                assert(head[0] == input@[0] && head[1] == input@[1] && head[2] == input@[2]
                    && head[3] == input@[3]);
            }
        }
        return None;
    }
    assert(input@.subrange(0, 4) =~= request_word());
    let ghost rest = input@.subrange(4, len as int);
    let mut end: usize = len;
    assert(rest.take(rest.len() as int) =~= rest);
    while end > 4 && is_space(chars[end - 1])
        invariant
            4 <= end <= len,
            len == chars@.len(),
            chars@ == input@,
            rest == input@.subrange(4, len as int),
            trimmed_len(rest) == trimmed_len(rest.take(end - 4)),
        decreases end,
    {
        assert(rest.take(end - 4).drop_last() =~= rest.take(end - 5));
        end -= 1;
    }
    let text = input.substring_char(4, end).to_owned();
    proof {
        let kept = rest.take(end - 4);
        assert(trimmed_len(kept) == kept.len());
        assert(text@ =~= kept);
    }
    Some(text)
}

/// What `receiver` answers to the address `a`, seen from the answer: a
/// refusal or a peeled address that receiving `a` can give.
pub open spec fn answers<T: Timestamper>(receiver: &Receiver<T>, a: Address, reply: Reply) -> bool {
    match reply {
        Reply::Peeled(peeled) => received(a, receiver.expected_hash(a), Ok(())) == Ok::<
            Seq<char>,
            ReceiveFailure,
        >(peeled@),
        Reply::Refused(ReceiverError::HashVerificationFailed(expected)) => received(
            a,
            receiver.expected_hash(a),
            Ok(()),
        ) == Err::<Seq<char>, ReceiveFailure>(ReceiveFailure::HashVerificationFailed(expected@)),
        Reply::Refused(ReceiverError::TimestampError(delta)) => a is SRS0 && received(
            a,
            receiver.expected_hash(a),
            Err(delta),
        ) == Err::<Seq<char>, ReceiveFailure>(ReceiveFailure::TimestampError(delta)),
        Reply::Refused(ReceiverError::HashingError(failure)) => failure_fits(
            failure,
            receiver.key(),
            receiver.mac(a),
        ),
        _ => false,
    }
}

/// Answers one request with `receiver`: takes the address out of it, reads
/// it and receives it.
pub fn answer<T: Timestamper>(receiver: &Receiver<T>, input: &str) -> (reply: Reply)
    ensures
        match request_address(input@) {
            None => reply is InvalidRequest,
            Some(text) => match parse_address(text) {
                Err(e) => reply matches Reply::ParseFailed(fault) && fault == e,
                Ok(a) => answers(receiver, a, reply),
            },
        },
{
    let text = match address_of_request(input) {
        Some(text) => text,
        None => {
            return Reply::InvalidRequest;
        },
    };
    let address = match SRSAddress::from_string(text.as_str()) {
        Ok(a) => a,
        Err(e) => {
            return Reply::ParseFailed(e);
        },
    };
    match receiver.receive(&address) {
        Ok(peeled) => Reply::Peeled(peeled),
        Err(e) => Reply::Refused(e),
    }
}

} // verus!
