//! The pipeline's stand-in stages: a decoder that reports raw frames as they are and a filter
//! that lets everything through; and the names of the renderers whose output the front end
//! writes itself.
use vstd::prelude::*;
use crate::types::{
    AssembledMessage,
    DecodedField,
    DecodedMessage,
    RawFrame,
    Severity,
    id_pgn,
    field_is_text,
};
use crate::text::{push_char, push_str, push_dec, push_hex_padded, dec_str, hex_str, pad_left, join_sep};
use crate::formats::byte_hex;
use crate::filters::Filter;
use crate::tp_reassembler::{build_assembled_can_id, spec_build_id};

verus! {

/// Each payload byte as two uppercase hex digits.
pub open spec fn byte_hex_list(d: Seq<u8>) -> Seq<Seq<char>>
    decreases d.len(),
{
    if d.len() == 0 {
        Seq::empty()
    } else {
        byte_hex_list(d.drop_last()).push(byte_hex(d.last()))
    }
}

/// An identifier as eight uppercase hex digits.
pub open spec fn id_hex8(id: u32) -> Seq<char> {
    pad_left(hex_str(id as nat, true), 8, '0')
}

/// `CAN <id> len=<n> data=<bytes>`: the identifier in eight hex digits, the payload length,
/// and the payload bytes in hex separated by spaces.
pub open spec fn raw_frame_text(f: RawFrame) -> Seq<char> {
    "CAN "@ + id_hex8(f.can_id) + " len="@ + dec_str(f.data@.len()) + " data="@ + join_sep(
        byte_hex_list(f.data@),
        " "@,
    )
}

/// Reports every frame as it is: one informational text, under a title naming the
/// identifier.
pub struct NullDecoder {
    pub debug: bool,
}

impl NullDecoder {
    /// The decoder's name.
    pub fn name(&self) -> (r: &'static str)
        ensures
            r@ == "null"@,
    {
        "null"
    }

    /// The message for a raw frame: titled `Raw Frame <id>`, holding `raw_frame_text` as an
    /// informational text, the payload and time of the frame under an identifier built from
    /// the frame's PGN with source 0x20, destination 0xFF and priority 6.
    pub fn decode_frame(&self, frame: RawFrame) -> (r: DecodedMessage)
        ensures
            r.title@ == "Raw Frame "@ + id_hex8(frame.can_id),
            r.topic_id == 0,
            r.outputs@.len() == 1,
            field_is_text(r.outputs@[0], Severity::Info, raw_frame_text(frame)),
            r.updates@.len() == 0,
            r.assembled_message.id == spec_build_id(id_pgn(frame.can_id), 0x20, 0xFF, 6),
            r.assembled_message.pgn == id_pgn(frame.can_id),
            r.assembled_message.data@ == frame.data@,
            r.assembled_message.timestamp == frame.timestamp,
            r.assembled_message.source_name is None,
            r.assembled_message.dest_name is None,
    {
        let mut text = String::new();
        push_str(&mut text, "CAN ");
        push_hex_padded(&mut text, frame.can_id as u64, 8, true);
        push_str(&mut text, " len=");
        push_dec(&mut text, frame.data.len() as u64);
        push_str(&mut text, " data=");
        let ghost head = text@;
        let mut i: usize = 0;
        assert(frame.data@.take(0) =~= Seq::<u8>::empty());
        while i < frame.data.len()
            invariant
                i <= frame.data@.len(),
                text@ == head + join_sep(byte_hex_list(frame.data@.take(i as int)), " "@),
            decreases frame.data@.len() - i,
        {
            assert(frame.data@.take(i + 1).drop_last() =~= frame.data@.take(i as int));
            proof {
                crate::text::lemma_join_push(
                    byte_hex_list(frame.data@.take(i as int)),
                    byte_hex(frame.data@[i as int]),
                    " "@,
                );
                lemma_byte_hex_list_len(frame.data@.take(i as int));
            }
            assert(frame.data@.take(i + 1).last() == frame.data@[i as int]);
            assert(byte_hex_list(frame.data@.take(i + 1)) == byte_hex_list(frame.data@.take(i as int)).push(
                byte_hex(frame.data@[i as int]),
            ));
            let ghost prev = byte_hex_list(frame.data@.take(i as int));
            let ghost bx = byte_hex(frame.data@[i as int]);
            if i > 0 {
                push_char(&mut text, ' ');
            }
            push_hex_padded(&mut text, frame.data[i] as u64, 2, true);
            proof {
                reveal_strlit(" ");
                if i > 0 {
                    assert(join_sep(prev.push(bx), " "@) == join_sep(prev, " "@) + " "@ + bx);
                    assert(text@ =~= head + (join_sep(prev, " "@) + " "@ + bx));
                } else {
                    assert(prev.len() == 0);
                    assert(join_sep(prev.push(bx), " "@) == bx);
                    assert(join_sep(prev, " "@) =~= Seq::<char>::empty());
                    assert(text@ =~= head + bx);
                }
            }
            i = i + 1;
        }
        assert(frame.data@.take(frame.data@.len() as int) =~= frame.data@);
        assert(text@ =~= raw_frame_text(frame));
        let mut title = String::new();
        push_str(&mut title, "Raw Frame ");
        push_hex_padded(&mut title, frame.can_id as u64, 8, true);
        let pgn = frame.pgn();
        let id = build_assembled_can_id(pgn, 0x20, 0xFF, 6);
        let assembled = AssembledMessage {
            id,
            pgn,
            data: frame.data,
            timestamp: frame.timestamp,
            source_name: None,
            dest_name: None,
        };
        let mut outputs: Vec<DecodedField> = Vec::new();
        outputs.push(DecodedField::StringMessage { severity: Severity::Info, text });
        DecodedMessage {
            title,
            topic_id: 0,
            outputs,
            updates: Vec::new(),
            assembled_message: assembled,
        }
    }
}

proof fn lemma_byte_hex_list_len(d: Seq<u8>)
    ensures
        byte_hex_list(d).len() == d.len(),
    decreases d.len(),
{
    if d.len() > 0 {
        lemma_byte_hex_list_len(d.drop_last());
    }
}

/// Lets every message through.
pub struct PassThroughFilter;

impl Filter for PassThroughFilter {
    open spec fn accepts(&self, m: DecodedMessage) -> bool {
        true
    }

    fn name(&self) -> (r: &str)
        ensures
            r@ == "passthrough"@,
    {
        "passthrough"
    }

    fn matches_sync(&self, message: &DecodedMessage) -> (r: bool) {
        true
    }
}

/// Renders messages as coloured plain text (the front end writes its lines).
pub struct ConsoleRenderer;

impl ConsoleRenderer {
    /// The renderer's name.
    pub fn name(&self) -> (r: &'static str)
        ensures
            r@ == "console"@,
    {
        "console"
    }
}

/// Renders messages as JSON (the front end serialises them).
pub struct JsonRenderer;

impl JsonRenderer {
    /// The renderer's name.
    pub fn name(&self) -> (r: &'static str)
        ensures
            r@ == "json"@,
    {
        "json"
    }
}

} // verus!
