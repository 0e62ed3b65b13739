//! The interface of stateful decoders for parameter groups that a field table cannot
//! describe.
use vstd::prelude::*;
use crate::types::{DecodeContext, DecodeError, DecodedInfo};
use crate::pgn_decoders::iso11783::task_controller::{TaskControllerDecoder, decode_outcome};

verus! {

/// A stateful decoder for complex PGNs: those that need state (such as sequence tracking)
/// or whose format depends on the payload.
pub trait ComplexDecoder {
    /// Decodes a complete, reassembled payload; `Ok(None)` when the payload is part of a
    /// sequence that is not complete yet.
    fn decode(&mut self, context: &DecodeContext, payload: &[u8]) -> Result<
        Option<DecodedInfo>,
        DecodeError,
    >;
}

impl ComplexDecoder for TaskControllerDecoder {
    fn decode(&mut self, context: &DecodeContext, payload: &[u8]) -> (r: Result<
        Option<DecodedInfo>,
        DecodeError,
    >)
        ensures
            decode_outcome(*old(self), *final(self), payload@, r),
    {
        TaskControllerDecoder::decode(self, context, payload)
    }
}

} // verus!
