//! The Sender Rewriting Scheme: a mail forwarder rewrites the envelope sender
//! of a message so that the next host's SPF check passes, and a bounce finds
//! its way back in at most three hops.
//!
//! `parser` holds the addresses and their grammar, `tokenizer` cuts an
//! address into tokens, `transformers` holds the forwarder and the receiver,
//! `hash` the keyed hash that signs an address, `timestamper` the timestamps
//! of ten bits, `util` the base64 of the hash field, `text` helpers on
//! strings, and `wire` the request that a client sends to have an address
//! received.

pub mod hash;
pub mod parser;
pub mod text;
pub mod timestamper;
pub mod tokenizer;
pub mod transformers;
pub mod util;
pub mod wire;
