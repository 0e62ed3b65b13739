//! The integer side of the table-driven PGN decoder: reading a component's raw value out of
//! a payload, the texts the decoder reports, recording claimed NAMEs, and naming the devices
//! of a message. Scaling raw values into physical ones is done by the front end.
use vstd::prelude::*;
use crate::types::{
    AssembledMessage,
    DecodedField,
    DecodedMessage,
    DeviceUpdate,
    Numeric,
    RawFrame,
    Severity,
    field_is_text,
    field_is_value,
    id_pgn,
    id_source,
    id_destination,
};
use crate::text::{push_str, push_dec, push_hex, push_hex_padded, dec_str, hex_str, pad_left};
use crate::tp_reassembler::PartialAssembly;
use crate::device_manager::DeviceManager;
use crate::pgn_decoders::j1939::address_claim::le_u64;

verus! {

// ─── Raw component values ────────────────────────────────────────────────────

/// How a component's bytes are read.
#[derive(Debug, Clone, Copy, PartialEq, Eq, Structural)]
pub enum ValueType {
    Int8,
    UInt8,
    Int16,
    UInt16,
    Int32,
    UInt32,
    Float32,
    Hex,
    Bool,
}

/// A component's value before scaling: an integer, the bit pattern of a 32-bit float, the
/// bytes of a hex component, or a boolean.
#[derive(Debug, Clone, Copy, PartialEq, Eq, Structural)]
pub enum RawComponent {
    Number(i64),
    Float32Bits(u32),
    Hex(u64),
    Flag(bool),
}

/// Bytes the type reads from the start of its slice (a hex component takes the whole slice).
pub open spec fn type_width(t: ValueType) -> nat {
    match t {
        ValueType::Int8 | ValueType::UInt8 | ValueType::Bool => 1,
        ValueType::Int16 | ValueType::UInt16 => 2,
        ValueType::Int32 | ValueType::UInt32 | ValueType::Float32 => 4,
        ValueType::Hex => 0,
    }
}

impl ValueType {
    /// Bytes the type reads from the start of its slice (none for a hex component).
    pub fn width(&self) -> (r: usize)
        ensures
            r == type_width(*self),
    {
        match self {
            ValueType::Int8 | ValueType::UInt8 | ValueType::Bool => 1,
            ValueType::Int16 | ValueType::UInt16 => 2,
            ValueType::Int32 | ValueType::UInt32 | ValueType::Float32 => 4,
            ValueType::Hex => 0,
        }
    }
}

/// Two bytes, little-endian.
pub open spec fn le2(s: Seq<u8>) -> nat {
    (s[0] + 256 * s[1]) as nat
}

/// Four bytes, little-endian.
pub open spec fn le4(s: Seq<u8>) -> nat {
    (s[0] + 256 * s[1] + 65536 * s[2] + 16777216 * s[3]) as nat
}

/// The last (at most) eight bytes read big-endian.
pub open spec fn be_u64(s: Seq<u8>) -> nat
    decreases s.len(),
{
    if s.len() == 0 {
        0
    } else {
        ((be_u64(s.drop_last()) % 0x100_0000_0000_0000) * 256 + s.last()) as nat
    }
}

/// The raw value of a component slice of the given type.
pub open spec fn raw_component(s: Seq<u8>, t: ValueType) -> RawComponent {
    match t {
        ValueType::Int8 => RawComponent::Number(
            if s[0] >= 128 {
                (s[0] - 256) as i64
            } else {
                s[0] as i64
            },
        ),
        ValueType::UInt8 => RawComponent::Number(s[0] as i64),
        ValueType::Int16 => RawComponent::Number(
            if le2(s) >= 32768 {
                (le2(s) - 65536) as i64
            } else {
                le2(s) as i64
            },
        ),
        ValueType::UInt16 => RawComponent::Number(le2(s) as i64),
        ValueType::Int32 => RawComponent::Number(
            if le4(s) >= 0x8000_0000 {
                (le4(s) - 0x1_0000_0000) as i64
            } else {
                le4(s) as i64
            },
        ),
        ValueType::UInt32 => RawComponent::Number(le4(s) as i64),
        ValueType::Float32 => RawComponent::Float32Bits(le4(s) as u32),
        ValueType::Hex => RawComponent::Hex(be_u64(s) as u64),
        ValueType::Bool => RawComponent::Flag(s[0] != 0),
    }
}

/// `Component '<name>': data too short (need <length> bytes at offset <offset>, have <n>)`.
pub open spec fn too_short_text(name: Seq<char>, length: u8, offset: usize, have: nat) -> Seq<char> {
    "Component '"@ + name + "': data too short (need "@ + dec_str(length as nat) + " bytes at offset "@
        + dec_str(offset as nat) + ", have "@ + dec_str(have) + seq![')']
}


fn hex_of_bytes(s: &[u8]) -> (r: u64)
    ensures
        r == be_u64(s@),
{
    let mut acc: u64 = 0;
    let mut i: usize = 0;
    assert(s@.take(0) =~= Seq::<u8>::empty());
    while i < s.len()
        invariant
            i <= s@.len(),
            acc == be_u64(s@.take(i as int)),
        decreases s@.len() - i,
    {
        assert(s@.take(i + 1).drop_last() =~= s@.take(i as int));
        assert(s@.take(i + 1).last() == s@[i as int]);
        acc = (acc % 0x100_0000_0000_0000) * 256 + s[i] as u64;
        i = i + 1;
    }
    assert(s@.take(s@.len() as int) =~= s@);
    acc
}

/// Reads the component at `offset`, `length` bytes long, as `data_type`; when the payload
/// ends before `offset + length`, gives the warning text instead.
pub fn read_component(data: &[u8], name: &str, offset: usize, length: u8, data_type: ValueType) -> (r:
    Result<RawComponent, String>)
    requires
        offset + length <= usize::MAX,
        offset + length <= data@.len() ==> length >= type_width(data_type),
    ensures
        offset + length > data@.len() ==> r is Err && r->Err_0@ == too_short_text(
            name@,
            length,
            offset,
            data@.len(),
        ),
        offset + length <= data@.len() ==> r == Ok::<RawComponent, String>(
            raw_component(data@.subrange(offset as int, offset + length), data_type),
        ),
{
    let end = offset + length as usize;
    if end > data.len() {
        let mut t = String::new();
        push_str(&mut t, "Component '");
        push_str(&mut t, name);
        push_str(&mut t, "': data too short (need ");
        push_dec(&mut t, length as u64);
        push_str(&mut t, " bytes at offset ");
        push_dec(&mut t, offset as u64);
        push_str(&mut t, ", have ");
        push_dec(&mut t, data.len() as u64);
        push_str(&mut t, ")");
        proof {
            reveal_strlit(")");
        }
        assert(t@ =~= too_short_text(name@, length, offset, data@.len()));
        return Err(t);
    }
    let ghost s = data@.subrange(offset as int, end as int);
    let r = match data_type {
        ValueType::Int8 => {
            let b = data[offset];
            RawComponent::Number(
                if b >= 128 {
                    b as i64 - 256
                } else {
                    b as i64
                },
            )
        },
        ValueType::UInt8 => RawComponent::Number(data[offset] as i64),
        ValueType::Int16 | ValueType::UInt16 => {
            let v: i64 = data[offset] as i64 + 256 * (data[offset + 1] as i64);
            assert(v == le2(s));
            if data_type == ValueType::Int16 && v >= 32768 {
                RawComponent::Number(v - 65536)
            } else {
                RawComponent::Number(v)
            }
        },
        ValueType::Int32 | ValueType::UInt32 | ValueType::Float32 => {
            let v: i64 = data[offset] as i64 + 256 * (data[offset + 1] as i64) + 65536 * (data[offset
                + 2] as i64) + 16777216 * (data[offset + 3] as i64);
            assert(v == le4(s));
            if data_type == ValueType::Float32 {
                RawComponent::Float32Bits(v as u32)
            } else if data_type == ValueType::Int32 && v >= 0x8000_0000 {
                RawComponent::Number(v - 0x1_0000_0000)
            } else {
                RawComponent::Number(v)
            }
        },
        ValueType::Hex => {
            let slice = copy_range(data, offset, end);
            RawComponent::Hex(hex_of_bytes(slice.as_slice()))
        },
        ValueType::Bool => RawComponent::Flag(data[offset] != 0),
    };
    Ok(r)
}

fn copy_range(data: &[u8], lo: usize, hi: usize) -> (r: Vec<u8>)
    requires
        lo <= hi <= data@.len(),
    ensures
        r@ == data@.subrange(lo as int, hi as int),
{
    let mut r: Vec<u8> = Vec::new();
    let mut i: usize = lo;
    while i < hi
        invariant
            lo <= i <= hi <= data@.len(),
            r@ == data@.subrange(lo as int, i as int),
        decreases hi - i,
    {
        r.push(data[i]);
        assert(r@ =~= data@.subrange(lo as int, i + 1));
        i = i + 1;
    }
    r
}

// ─── Texts the decoder reports ───────────────────────────────────────────────

/// `0x` then the uppercase hex digits, zero-padded to `digits` (Rust's `{:#0WX}` with
/// `W = digits + 2`).
pub open spec fn prefixed_hex(n: nat, digits: nat) -> Seq<char> {
    "0x"@ + pad_left(hex_str(n, true), digits, '0')
}

/// `Unrecognized PGN=<pgn> source=<sa>: <n> bytes`, for a PGN no definition covers.
pub open spec fn unrecognized_text(pgn: u32, source: u8, len: nat) -> Seq<char> {
    "Unrecognized PGN="@ + prefixed_hex(pgn as nat, 4) + " source="@ + prefixed_hex(source as nat, 2)
        + ": "@ + dec_str(len) + " bytes"@
}

/// `<title> PGN=<pgn>: insufficient data for <n> components`, when no component could be
/// read from a non-empty payload.
pub open spec fn insufficient_text(title: Seq<char>, pgn: u32, n: nat) -> Seq<char> {
    title + " PGN="@ + prefixed_hex(pgn as nat, 4) + ": insufficient data for "@ + dec_str(n)
        + " components"@
}

/// `TP timeout for PGN=<pgn> source=<sa>: received <got> of <total> bytes`.
pub open spec fn timeout_text(p: PartialAssembly) -> Seq<char> {
    "TP timeout for PGN="@ + prefixed_hex(p.pgn as nat, 4) + " source="@ + prefixed_hex(
        p.source_address as nat,
        2,
    ) + ": received "@ + dec_str(p.data@.len()) + " of "@ + dec_str(p.total_expected as nat)
        + " bytes"@
}

fn push_prefixed_hex(s: &mut String, n: u64, digits: usize)
    ensures
        final(s)@ == old(s)@ + prefixed_hex(n as nat, digits as nat),
{
    let ghost start = s@;
    push_str(s, "0x");
    push_hex_padded(s, n, digits, true);
    assert(s@ =~= start + prefixed_hex(n as nat, digits as nat));
}

/// The informational field for a PGN without a definition.
pub fn unrecognized_field(pgn: u32, source: u8, len: usize) -> (r: DecodedField)
    ensures
        field_is_text(r, Severity::Info, unrecognized_text(pgn, source, len as nat)),
{
    let mut t = String::new();
    push_str(&mut t, "Unrecognized PGN=");
    push_prefixed_hex(&mut t, pgn as u64, 4);
    push_str(&mut t, " source=");
    push_prefixed_hex(&mut t, source as u64, 2);
    push_str(&mut t, ": ");
    push_dec(&mut t, len as u64);
    push_str(&mut t, " bytes");
    assert(t@ =~= unrecognized_text(pgn, source, len as nat));
    DecodedField::StringMessage { severity: Severity::Info, text: t }
}

/// The warning field for a definition none of whose components could be read.
pub fn insufficient_field(title: &str, pgn: u32, n: usize) -> (r: DecodedField)
    ensures
        field_is_text(r, Severity::Warning, insufficient_text(title@, pgn, n as nat)),
{
    let mut t = String::new();
    push_str(&mut t, title);
    push_str(&mut t, " PGN=");
    push_prefixed_hex(&mut t, pgn as u64, 4);
    push_str(&mut t, ": insufficient data for ");
    push_dec(&mut t, n as u64);
    push_str(&mut t, " components");
    assert(t@ =~= insufficient_text(title@, pgn, n as nat));
    DecodedField::StringMessage { severity: Severity::Warning, text: t }
}

/// The fields a PGN's definition gives: the components that could be read, or, when none
/// could be read from a non-empty payload, the warning that the data is insufficient for
/// the definition's `n` components.
pub fn component_fields(read: Vec<DecodedField>, data_len: usize, title: &str, pgn: u32, n: usize) -> (r:
    Vec<DecodedField>)
    ensures
        read@.len() > 0 || data_len == 0 ==> r@ == read@,
        read@.len() == 0 && data_len > 0 ==> r@.len() == 1 && field_is_text(
            r@[0],
            Severity::Warning,
            insufficient_text(title@, pgn, n as nat),
        ),
{
    if read.len() == 0 && data_len > 0 {
        let mut v: Vec<DecodedField> = Vec::new();
        v.push(insufficient_field(title, pgn, n));
        v
    } else {
        read
    }
}

/// The fields of an assembled message: those of the PGN's complex decoder when it gave a
/// result, else those of the PGN's definition when there is one, else the notice that the
/// PGN is unrecognized.
pub fn assembled_fields(
    complex: Option<Vec<DecodedField>>,
    by_definition: Option<Vec<DecodedField>>,
    pgn: u32,
    source: u8,
    data_len: usize,
) -> (r: Vec<DecodedField>)
    ensures
        match complex {
            Some(v) => r@ == v@,
            None => match by_definition {
                Some(v) => r@ == v@,
                None => r@.len() == 1 && field_is_text(
                    r@[0],
                    Severity::Info,
                    unrecognized_text(pgn, source, data_len as nat),
                ),
            },
        },
{
    match complex {
        Some(v) => v,
        None => match by_definition {
            Some(v) => v,
            None => {
                let mut v: Vec<DecodedField> = Vec::new();
                v.push(unrecognized_field(pgn, source, data_len));
                v
            },
        },
    }
}

/// The warning field for a transport transfer that timed out.
pub fn timeout_field(p: &PartialAssembly) -> (r: DecodedField)
    ensures
        field_is_text(r, Severity::Warning, timeout_text(*p)),
{
    let mut t = String::new();
    push_str(&mut t, "TP timeout for PGN=");
    push_prefixed_hex(&mut t, p.pgn as u64, 4);
    push_str(&mut t, " source=");
    push_prefixed_hex(&mut t, p.source_address as u64, 2);
    push_str(&mut t, ": received ");
    push_dec(&mut t, p.data.len() as u64);
    push_str(&mut t, " of ");
    push_dec(&mut t, p.total_expected as u64);
    push_str(&mut t, " bytes");
    assert(t@ =~= timeout_text(*p));
    DecodedField::StringMessage { severity: Severity::Warning, text: t }
}

// ─── Device names ────────────────────────────────────────────────────────────

/// PGN whose frames the decoder reads as address claims (the built-in table names 0xEC00
/// "Address Claim"): their payload is taken as the sender's NAME.
pub const ADDRESS_CLAIM_PGN: u32 = 0xEC00;

/// Records the NAME that an address claim carries: for a frame of the address-claim PGN
/// with at least eight payload bytes, the little-endian value of the first eight becomes the
/// name of the frame's source address. Other frames change nothing.
pub fn record_address_claim(dm: &mut DeviceManager, frame: &RawFrame)
    ensures
        final(dm).devices() == old(dm).devices(),
        final(dm).parameters() == old(dm).parameters(),
        final(dm).ttl() == old(dm).ttl(),
        final(dm).names() == if id_pgn(frame.can_id) == ADDRESS_CLAIM_PGN && frame.data@.len() >= 8 {
            old(dm).names().insert(id_source(frame.can_id), le_u64(frame.data@.subrange(0, 8)))
        } else {
            old(dm).names()
        },
{
    if frame.pgn() == ADDRESS_CLAIM_PGN && frame.data.len() >= 8 {
        let head = copy_range(frame.data.as_slice(), 0, 8);
        match DeviceManager::parse_name_from_bytes(head.as_slice()) {
            Ok(name) => {
                dm.set_name_u64(frame.source_address(), name);
            },
            Err(_) => {},
        }
    }
}

/// A device NAME as a field: the title, the NAME as a hex value, unit `NAME`.
pub fn name_field(title: &str, name: u64) -> (r: DecodedField)
    ensures
        field_is_value(r, title@, Numeric::Hex(name), Some("NAME"@), None),
{
    DecodedField::value(title, Numeric::Hex(name), Some("NAME"), None)
}

/// Adds the known device NAMEs of a message to its fields: the source's first, titled
/// `Source Device`, and the destination's last, titled `Dest Device`.
pub fn add_device_names(outputs: &mut Vec<DecodedField>, msg: &AssembledMessage)
    ensures
        final(outputs)@ == (match msg.source_name {
            Some(n) => seq![final(outputs)@[0]],
            None => Seq::<DecodedField>::empty(),
        }) + old(outputs)@ + (match msg.dest_name {
            Some(n) => seq![final(outputs)@.last()],
            None => Seq::<DecodedField>::empty(),
        }),
        msg.source_name matches Some(n) ==> field_is_value(
            final(outputs)@[0],
            "Source Device"@,
            Numeric::Hex(n),
            Some("NAME"@),
            None,
        ),
        msg.dest_name matches Some(n) ==> field_is_value(
            final(outputs)@.last(),
            "Dest Device"@,
            Numeric::Hex(n),
            Some("NAME"@),
            None,
        ),
{
    let ghost before = outputs@;
    match msg.source_name {
        Some(n) => {
            outputs.insert(0, name_field("Source Device", n));
        },
        None => {},
    }
    let ghost mid = outputs@;
    match msg.dest_name {
        Some(n) => {
            outputs.push(name_field("Dest Device", n));
        },
        None => {},
    }
    proof {
        match msg.source_name {
            Some(n) => {
                assert(mid =~= seq![mid[0]] + before);
            },
            None => {
                assert(mid =~= Seq::<DecodedField>::empty() + before);
            },
        }
        match msg.dest_name {
            Some(n) => {
                assert(outputs@ =~= mid + seq![outputs@.last()]);
            },
            None => {
                assert(outputs@ =~= mid + Seq::<DecodedField>::empty());
            },
        }
    }
}

/// `PGN <pgn> from <sa>`, both in uppercase hex.
pub open spec fn frame_title(can_id: u32) -> Seq<char> {
    "PGN "@ + hex_str(id_pgn(can_id) as nat, true) + " from "@ + hex_str(id_source(can_id) as nat, true)
}

/// The message for a decoded frame: titled by PGN and source, carrying the frame's
/// identifier, PGN, payload and time, with the source's NAME and (unless the frame is a
/// broadcast) the destination's NAME as the device manager knows them.
pub fn frame_message(
    frame: RawFrame,
    outputs: Vec<DecodedField>,
    updates: Vec<DeviceUpdate>,
    dm: Option<&DeviceManager>,
) -> (r: DecodedMessage)
    ensures
        r.title@ == frame_title(frame.can_id),
        r.topic_id == 0,
        r.outputs@ == outputs@,
        r.updates@ == updates@,
        r.assembled_message.id == frame.can_id,
        r.assembled_message.pgn == id_pgn(frame.can_id),
        r.assembled_message.data@ == frame.data@,
        r.assembled_message.timestamp == frame.timestamp,
        r.assembled_message.source_name == match dm {
            Some(d) => if d.names().contains_key(id_source(frame.can_id)) {
                Some(d.names()[id_source(frame.can_id)])
            } else {
                None
            },
            None => None::<u64>,
        },
        r.assembled_message.dest_name == match dm {
            Some(d) => if id_destination(frame.can_id) != 0xFF && d.names().contains_key(
                id_destination(frame.can_id),
            ) {
                Some(d.names()[id_destination(frame.can_id)])
            } else {
                None
            },
            None => None::<u64>,
        },
{
    let src = frame.source_address();
    let dst = frame.destination_address();
    let (source_name, dest_name) = match dm {
        Some(d) => {
            let s = d.get_name_u64(src);
            let t = if dst != 0xFF {
                d.get_name_u64(dst)
            } else {
                None
            };
            (s, t)
        },
        None => (None, None),
    };
    let pgn = frame.pgn();
    let mut title = String::new();
    push_str(&mut title, "PGN ");
    push_hex(&mut title, pgn as u64, true);
    push_str(&mut title, " from ");
    push_hex(&mut title, src as u64, true);
    assert(title@ =~= frame_title(frame.can_id));
    DecodedMessage {
        title,
        topic_id: 0,
        outputs,
        updates,
        assembled_message: AssembledMessage {
            id: frame.can_id,
            pgn,
            data: frame.data,
            timestamp: frame.timestamp,
            source_name,
            dest_name,
        },
    }
}

} // verus!
