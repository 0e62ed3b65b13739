//! The J1939 Request parameter group: a three-byte payload naming the requested PGN.
use vstd::prelude::*;
use crate::types::{
    DecodeError,
    DecodedField,
    DecodedInfo,
    Numeric,
    Severity,
    field_is_value,
    field_is_text,
};
use crate::text::{push_str, push_hex, hex_str};

verus! {

/// J1939 PGN for Request messages (0xEA00 / 59904).
pub const REQUEST_PGN: u32 = 0xEA00;

/// The PGN in a request payload: three bytes, least significant first.
pub open spec fn requested_pgn(p: Seq<u8>) -> u32 {
    (p[0] + 256 * p[1] + 65536 * p[2]) as u32
}

/// The text shown for a requested PGN: its title when known, else `PGN 0x` and hex digits.
pub open spec fn request_title_text(pgn: u32, title: Option<Seq<char>>) -> Seq<char> {
    match title {
        Some(t) => t,
        None => "PGN 0x"@ + hex_str(pgn as nat, true),
    }
}

/// Decoder for the Request PGN; remembers the PGNs requested so far.
#[derive(Debug, Clone)]
pub struct RequestDecoder {
    last_requests: Vec<u32>,
}

impl RequestDecoder {
    /// The PGNs requested so far, oldest first.
    pub closed spec fn requests(&self) -> Seq<u32> {
        self.last_requests@
    }

    /// A decoder that has seen no requests.
    pub fn new() -> (r: Self)
        ensures
            r.requests() == Seq::<u32>::empty(),
    {
        RequestDecoder { last_requests: Vec::new() }
    }

    /// The PGNs requested so far, oldest first.
    pub fn last_requests(&self) -> (r: &[u32])
        ensures
            r@ == self.requests(),
    {
        self.last_requests.as_slice()
    }

    /// The requested PGN: three payload bytes, least significant first.
    pub fn parse_payload(payload: &[u8]) -> (r: Result<u32, DecodeError>)
        ensures
            payload@.len() < 3 ==> r == Err::<u32, DecodeError>(
                DecodeError::InvalidLength { expected: 3, found: payload@.len() as usize },
            ),
            payload@.len() >= 3 ==> r == Ok::<u32, DecodeError>(requested_pgn(payload@)),
    {
        if payload.len() < 3 {
            return Err(DecodeError::InvalidLength { expected: 3, found: payload.len() });
        }
        let v: u32 = ((payload[2] as u32) * 65536) + ((payload[1] as u32) * 256) + (
        payload[0] as u32);
        Ok(v)
    }

    /// Decodes a request: the requested PGN as a value, then its title (`pgn_title`, when the
    /// caller knows one) as text. The PGN is remembered.
    pub fn decode_with_title(&mut self, payload: &[u8], pgn_title: Option<&str>) -> (r: Result<
        Option<DecodedInfo>,
        DecodeError,
    >)
        ensures
            payload@.len() < 3 ==> r == Err::<Option<DecodedInfo>, DecodeError>(
                DecodeError::InvalidLength { expected: 3, found: payload@.len() as usize },
            ) && final(self).requests() == old(self).requests(),
            payload@.len() >= 3 ==> {
                &&& final(self).requests() == old(self).requests().push(requested_pgn(payload@))
                &&& r matches Ok(Some(info))
                &&& info.title@ == "Request"@
                &&& info.topic_id == 0
                &&& info.updates@.len() == 0
                &&& info.outputs@.len() == 2
                &&& field_is_value(
                    info.outputs@[0],
                    "Requested PGN"@,
                    Numeric::Int(requested_pgn(payload@) as i64),
                    Some("PGN"@),
                    None,
                )
                &&& field_is_text(
                    info.outputs@[1],
                    Severity::Info,
                    request_title_text(
                        requested_pgn(payload@),
                        match pgn_title {
                            Some(t) => Some(t@),
                            None => None,
                        },
                    ),
                )
            },
    {
        let requested = match Self::parse_payload(payload) {
            Ok(v) => v,
            Err(e) => {
                return Err(e);
            },
        };
        self.last_requests.push(requested);
        let text = match pgn_title {
            Some(t) => String::from_str(t),
            None => {
                let mut s = String::new();
                push_str(&mut s, "PGN 0x");
                push_hex(&mut s, requested as u64, true);
                s
            },
        };
        let mut msg = DecodedInfo::new(String::from_str("Request"), 0);
        msg.outputs.push(
            DecodedField::value("Requested PGN", Numeric::Int(requested as i64), Some("PGN"), None),
        );
        msg.outputs.push(DecodedField::text(Severity::Info, text));
        Ok(Some(msg))
    }
}

impl Default for RequestDecoder {
    fn default() -> (r: Self)
        ensures
            r.requests() == Seq::<u32>::empty(),
    {
        Self::new()
    }
}


/// Writing a PGN below 2^24 as three bytes, least significant first, and parsing them gives
/// the PGN back.
pub proof fn lemma_request_roundtrip(pgn: u32)
    requires
        pgn < 0x100_0000,
    ensures
        requested_pgn(seq![(pgn & 0xFF) as u8, ((pgn >> 8u32) & 0xFF) as u8, ((pgn >> 16u32) & 0xFF) as u8])
            == pgn,
{
    assert((pgn & 0xFF) <= 0xFF && ((pgn >> 8u32) & 0xFF) <= 0xFF && ((pgn >> 16u32) & 0xFF) <= 0xFF)
        by (bit_vector);
    let p = seq![(pgn & 0xFF) as u8, ((pgn >> 8u32) & 0xFF) as u8, ((pgn >> 16u32) & 0xFF) as u8];
    assert(p[0] == pgn & 0xFF && p[1] == (pgn >> 8u32) & 0xFF && p[2] == (pgn >> 16u32) & 0xFF);
    assert((pgn & 0xFF) + 256 * ((pgn >> 8u32) & 0xFF) + 65536 * ((pgn >> 16u32) & 0xFF) == pgn)
        by (bit_vector)
        requires
            pgn < 0x100_0000,
    ;
}

} // verus!
