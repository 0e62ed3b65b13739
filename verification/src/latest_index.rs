//! Identity of a message stream for the "latest value" view.
use vstd::prelude::*;
use crate::types::{DecodedMessage, id_source, id_destination};

verus! {

/// The key of a message: its source, its destination and its topic.
pub open spec fn key_of(m: DecodedMessage) -> LatestKey {
    LatestKey {
        source_address: id_source(m.assembled_message.id),
        destination_address: id_destination(m.assembled_message.id),
        topic_id: m.topic_id,
    }
}

/// `a` sorts before `b`: by source, then destination, then topic (the field order).
pub open spec fn key_before(a: LatestKey, b: LatestKey) -> bool {
    ||| a.source_address < b.source_address
    ||| a.source_address == b.source_address && a.destination_address < b.destination_address
    ||| a.source_address == b.source_address && a.destination_address == b.destination_address
        && a.topic_id < b.topic_id
}

/// Whether `a` sorts before `b`.
pub fn key_less(a: &LatestKey, b: &LatestKey) -> (r: bool)
    ensures
        r == key_before(*a, *b),
{
    if a.source_address != b.source_address {
        a.source_address < b.source_address
    } else if a.destination_address != b.destination_address {
        a.destination_address < b.destination_address
    } else {
        a.topic_id < b.topic_id
    }
}

/// Whether the two keys are the same.
pub fn same_key(a: &LatestKey, b: &LatestKey) -> (r: bool)
    ensures
        r == (*a == *b),
{
    a.source_address == b.source_address && a.destination_address == b.destination_address
        && a.topic_id == b.topic_id
}

/// Composite identity of a message stream: who talks to whom about what.
/// Field order defines the sort order (source, then destination, then topic).
#[derive(Debug, Clone, Copy, PartialEq, Eq, PartialOrd, Ord, Hash)]
pub struct LatestKey {
    pub source_address: u8,
    pub destination_address: u8,
    pub topic_id: u64,
}

impl LatestKey {
    /// Build a key from a decoded message's addressing and topic.
    pub fn from_message(msg: &DecodedMessage) -> (r: Self)
        ensures
            r == key_of(*msg),
            r.source_address == id_source(msg.assembled_message.id),
            r.destination_address == id_destination(msg.assembled_message.id),
            r.topic_id == msg.topic_id,
    {
        LatestKey {
            source_address: msg.source_address(),
            destination_address: msg.dest_address(),
            topic_id: msg.topic_id,
        }
    }
}

} // verus!
