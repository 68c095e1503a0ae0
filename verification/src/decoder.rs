//! The decoder of `Transfer(address,address,uint256)` events.

use crate::amount::{be_value, Amount};
use vstd::prelude::*;
use vstd::slice::slice_subrange;

verus! {

/// A log entry as the chain hands it out.
#[derive(Clone, Debug, PartialEq, Eq)]
pub struct RawLog {
    /// The indexed words; the first one names the event.
    pub topics: Vec<[u8; 32]>,
    /// The words that are not indexed.
    pub data: Vec<u8>,
    /// The block that holds the entry, where the chain has told it.
    pub block_number: Option<u64>,
    /// The transaction that made the entry, where the chain has told it.
    pub transaction_hash: Option<[u8; 32]>,
}

/// A decoded transfer event.
#[derive(Debug, PartialEq, Eq)]
pub struct Transfer {
    /// The sender's address.
    pub from: [u8; 20],
    /// The recipient's address.
    pub to: [u8; 20],
    /// The value moved.
    pub value: Amount,
}

/// Why a log entry is no transfer event.
#[derive(Clone, Copy, Debug, PartialEq, Eq, Structural)]
pub enum DecodeError {
    /// There is no first topic, or it is not the event's signature.
    SignatureMismatch,
    /// The signature is not followed by exactly two topics.
    TopicCount,
    /// The data are shorter than one word.
    ShortData,
}

/// Keccak-256 of `Transfer(address,address,uint256)`.
pub open spec fn transfer_signature() -> Seq<u8> {
    seq![
        0xddu8, 0xf2, 0x52, 0xad, 0x1b, 0xe2, 0xc8, 0x9b,
        0x69, 0xc2, 0xb0, 0x68, 0xfc, 0x37, 0x8d, 0xaa,
        0x95, 0x2b, 0xa7, 0xf1, 0x63, 0xc4, 0xa1, 0x16,
        0x28, 0xf5, 0x5a, 0x4d, 0xf5, 0x23, 0xb3, 0xef,
    ]
}

/// The first topic of every transfer event.
pub fn transfer_topic() -> (r: [u8; 32])
    ensures
        r@ == transfer_signature(),
{
    let r: [u8; 32] = [
        0xdd, 0xf2, 0x52, 0xad, 0x1b, 0xe2, 0xc8, 0x9b,
        0x69, 0xc2, 0xb0, 0x68, 0xfc, 0x37, 0x8d, 0xaa,
        0x95, 0x2b, 0xa7, 0xf1, 0x63, 0xc4, 0xa1, 0x16,
        0x28, 0xf5, 0x5a, 0x4d, 0xf5, 0x23, 0xb3, 0xef,
    ];
    assert(r@ =~= transfer_signature());
    r
}

/// The first reason, in the order of the checks, for which `log` is no
/// transfer event; `None` for a log that is one.
pub open spec fn decode_error(log: RawLog) -> Option<DecodeError> {
    if log.topics@.len() == 0 || log.topics@[0]@ != transfer_signature() {
        Some(DecodeError::SignatureMismatch)
    } else if log.topics@.len() != 3 {
        Some(DecodeError::TopicCount)
    } else if log.data@.len() < 32 {
        Some(DecodeError::ShortData)
    } else {
        None
    }
}

/// The address in a topic: its last twenty bytes.
pub open spec fn topic_address(topic: Seq<u8>) -> Seq<u8> {
    topic.subrange(12, 32)
}

/// The sender of the transfer in `log`.
pub open spec fn log_sender(log: RawLog) -> Seq<u8> {
    topic_address(log.topics@[1]@)
}

/// The recipient of the transfer in `log`.
pub open spec fn log_recipient(log: RawLog) -> Seq<u8> {
    topic_address(log.topics@[2]@)
}

/// The value of the transfer in `log`: the first word of its data.
pub open spec fn log_value(log: RawLog) -> nat {
    be_value(log.data@.subrange(0, 32))
}

fn words_equal(a: &[u8; 32], b: &[u8; 32]) -> (r: bool)
    ensures
        r == (a@ == b@),
{
    let mut i: usize = 0;
    while i < 32
        invariant
            i <= 32,
            forall|j: int| 0 <= j < i ==> a@[j] == b@[j],
        decreases 32 - i,
    {
        if a[i] != b[i] {
            return false;
        }
        i += 1;
    }
    assert(a@ =~= b@);
    true
}

fn address_of(topic: &[u8; 32]) -> (r: [u8; 20])
    ensures
        r@ == topic_address(topic@),
{
    let mut r: [u8; 20] = [0u8; 20];
    let mut i: usize = 0;
    while i < 20
        invariant
            i <= 20,
            forall|j: int| 0 <= j < i ==> r@[j] == topic@[12 + j],
        decreases 20 - i,
    {
        r[i] = topic[12 + i];
        i += 1;
    }
    assert(r@ =~= topic_address(topic@));
    r
}

/// Decodes a log entry as a transfer event: the signature, two indexed
/// addresses and one word of data. Bytes after the first word of data are
/// not looked at, and neither are the twelve bytes before an address.
pub fn decode_log(log: &RawLog) -> (r: Result<Transfer, DecodeError>)
    ensures
        match r {
            Ok(t) => {
                &&& decode_error(*log) is None
                &&& t.from@ == log_sender(*log)
                &&& t.to@ == log_recipient(*log)
                &&& t.value@ == log_value(*log)
            },
            Err(e) => decode_error(*log) == Some(e),
        },
{
    if log.topics.len() == 0 {
        return Err(DecodeError::SignatureMismatch);
    }
    let signature: [u8; 32] = transfer_topic();
    if !words_equal(&log.topics[0], &signature) {
        return Err(DecodeError::SignatureMismatch);
    }
    if log.topics.len() != 3 {
        return Err(DecodeError::TopicCount);
    }
    if log.data.len() < 32 {
        return Err(DecodeError::ShortData);
    }
    let from: [u8; 20] = address_of(&log.topics[1]);
    let to: [u8; 20] = address_of(&log.topics[2]);
    let value: Amount = Amount::from_be_bytes(slice_subrange(log.data.as_slice(), 0, 32));
    Ok(Transfer { from, to, value })
}

} // verus!
