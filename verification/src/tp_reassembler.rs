//! J1939 Transport Protocol reassembly (BAM broadcasts and RTS/CTS transfers).
use vstd::prelude::*;
use std::collections::HashSet;
use crate::text::{dec_str, hex_str, pad_left, push_dec, push_hex_padded, push_str};
use crate::types::{
    id_destination, id_pdu_format, id_pdu_specific, id_pgn, id_priority, id_source, AssembledMessage,
    RawFrame,
};

verus! {

/// Type of Transport Protocol frame.
#[derive(Debug, Clone, Copy, PartialEq, Eq, Structural)]
pub enum TpMessageType {
    /// Connection Management frame (RTS/CTS/EOM/BAM/Abort), PGN 0xEC00.
    ConnectionManagement,
    /// Data packet of a transfer, PGN 0xEB00.
    DataPacket,
    /// Not a Transport Protocol frame.
    NotTp,
}

/// J1939 Transport Protocol variant.
#[derive(Debug, Clone, Copy, PartialEq, Eq, Structural)]
pub enum TpProtocol {
    BroadcastCompressed,
    TotalMessageTransfer,
}

/// State of an in-progress multi-frame assembly.
#[derive(Debug, Clone)]
pub struct TpAssemblyState {
    pub source_address: u8,
    pub destination_address: u8,
    pub pgn: u32,
    pub priority: u8,
    pub total_size: usize,
    pub page_number: u8,
    pub packets_received: Vec<(u8, Vec<u8>)>,
    pub start_time: u64,
    pub last_packet_time: u64,
}

/// Mathematical view of an assembly: the packets are (packet number, payload) pairs.
pub struct AssemblyView {
    pub source_address: u8,
    pub destination_address: u8,
    pub pgn: u32,
    pub priority: u8,
    pub total_size: usize,
    pub page_number: u8,
    pub packets: Seq<(u8, Seq<u8>)>,
    pub start_time: u64,
    pub last_packet_time: u64,
}

/// Packets with their payloads taken by value.
pub open spec fn packets_view(ps: Seq<(u8, Vec<u8>)>) -> Seq<(u8, Seq<u8>)> {
    ps.map_values(|p: (u8, Vec<u8>)| (p.0, p.1@))
}

impl View for TpAssemblyState {
    type V = AssemblyView;

    open spec fn view(&self) -> AssemblyView {
        AssemblyView {
            source_address: self.source_address,
            destination_address: self.destination_address,
            pgn: self.pgn,
            priority: self.priority,
            total_size: self.total_size,
            page_number: self.page_number,
            packets: packets_view(self.packets_received@),
            start_time: self.start_time,
            last_packet_time: self.last_packet_time,
        }
    }
}

impl TpAssemblyState {
    /// Update the priority to the minimum of current and new priority.
    pub fn update_priority(&mut self, new_priority: u8)
        ensures
            final(self).priority == if new_priority < old(self).priority {
                new_priority
            } else {
                old(self).priority
            },
            final(self)@ == (AssemblyView { priority: final(self).priority, ..old(self)@ }),
    {
        if new_priority < self.priority {
            self.priority = new_priority;
        }
    }
}

/// Result of TP reassembly for a single frame.
#[derive(Debug, Clone)]
pub enum TpReassemblyResult {
    /// Waiting for more packets to complete the message.
    Pending,
    /// Successfully assembled complete message.
    Complete(AssembledMessage),
    /// Timeout exceeded while waiting; contains partial data.
    Timeout(PartialAssembly),
    /// A frame that is not part of a transport transfer, passed through whole.
    SingleFrame(AssembledMessage),
}

/// Partial assembly reported when a transfer times out.
#[derive(Debug, Clone)]
pub struct PartialAssembly {
    pub source_address: u8,
    pub destination_address: u8,
    pub pgn: u32,
    pub data: Vec<u8>,
    pub total_expected: usize,
    pub timestamp: u64,
}

/// Mathematical view of an assembled message.
pub struct MessageView {
    pub id: u32,
    pub pgn: u32,
    pub data: Seq<u8>,
    pub timestamp: u64,
    pub source_name: Option<u64>,
    pub dest_name: Option<u64>,
}

/// Mathematical view of a partial assembly.
pub struct PartialView {
    pub source_address: u8,
    pub destination_address: u8,
    pub pgn: u32,
    pub data: Seq<u8>,
    pub total_expected: usize,
    pub timestamp: u64,
}

/// Mathematical view of a reassembly result.
pub enum TpOutcome {
    Pending,
    Complete(MessageView),
    Timeout(PartialView),
    SingleFrame(MessageView),
}

/// View of an assembled message.
pub open spec fn message_view(m: AssembledMessage) -> MessageView {
    MessageView {
        id: m.id,
        pgn: m.pgn,
        data: m.data@,
        timestamp: m.timestamp,
        source_name: m.source_name,
        dest_name: m.dest_name,
    }
}

impl View for TpReassemblyResult {
    type V = TpOutcome;

    open spec fn view(&self) -> TpOutcome {
        match self {
            TpReassemblyResult::Pending => TpOutcome::Pending,
            TpReassemblyResult::Complete(m) => TpOutcome::Complete(message_view(*m)),
            TpReassemblyResult::Timeout(p) => TpOutcome::Timeout(
                PartialView {
                    source_address: p.source_address,
                    destination_address: p.destination_address,
                    pgn: p.pgn,
                    data: p.data@,
                    total_expected: p.total_expected,
                    timestamp: p.timestamp,
                },
            ),
            TpReassemblyResult::SingleFrame(m) => TpOutcome::SingleFrame(message_view(*m)),
        }
    }
}

/// Views of a list of results.
pub open spec fn outcomes(rs: Seq<TpReassemblyResult>) -> Seq<TpOutcome> {
    rs.map_values(|r: TpReassemblyResult| r@)
}

/// Errors that can occur during TP reassembly.
#[derive(Debug, Clone, PartialEq, Eq)]
pub enum TpError {
    InvalidPacketNumber,
    DuplicatePacket,
    OutOfOrderPacket,
    SizeMismatch { expected: usize, received: usize },
    Timeout { source: u8, destination: u8, elapsed_ms: u64 },
    CorruptedData(String),
}

/// `0x` followed by at least two uppercase hexadecimal digits (the `{:#04X}` rendering).
pub open spec fn hex_byte_text(b: u8) -> Seq<char> {
    seq!['0', 'x'] + pad_left(hex_str(b as nat, true), 2, '0')
}

/// The human-readable description of an error.
pub open spec fn tp_error_text(e: TpError) -> Seq<char> {
    match e {
        TpError::InvalidPacketNumber => "Invalid packet number"@,
        TpError::DuplicatePacket => "Duplicate packet detected"@,
        TpError::OutOfOrderPacket => "Out-of-order packet received"@,
        TpError::SizeMismatch { expected, received } => "Size mismatch: expected "@ + dec_str(
            expected as nat,
        ) + " bytes, received "@ + dec_str(received as nat),
        TpError::Timeout { source, destination, elapsed_ms } => "TP timeout after "@ + dec_str(
            elapsed_ms as nat,
        ) + "ms: source="@ + hex_byte_text(source) + ", dest="@ + hex_byte_text(destination),
        TpError::CorruptedData(msg) => "Corrupted data: "@ + msg@,
    }
}

fn push_hex_byte(s: &mut String, b: u8)
    ensures
        final(s)@ == old(s)@ + hex_byte_text(b),
{
    push_str(s, "0x");
    push_hex_padded(s, b as u64, 2, true);
    assert(final(s)@ =~= old(s)@ + hex_byte_text(b)) by {
        reveal_strlit("0x");
    }
}

impl TpError {
    /// The human-readable description of the error.
    pub fn to_display_string(&self) -> (r: String)
        ensures
            r@ == tp_error_text(*self),
    {
        let mut s = String::new();
        match self {
            TpError::InvalidPacketNumber => {
                push_str(&mut s, "Invalid packet number");
            },
            TpError::DuplicatePacket => {
                push_str(&mut s, "Duplicate packet detected");
            },
            TpError::OutOfOrderPacket => {
                push_str(&mut s, "Out-of-order packet received");
            },
            TpError::SizeMismatch { expected, received } => {
                push_str(&mut s, "Size mismatch: expected ");
                push_dec(&mut s, *expected as u64);
                push_str(&mut s, " bytes, received ");
                push_dec(&mut s, *received as u64);
            },
            TpError::Timeout { source, destination, elapsed_ms } => {
                push_str(&mut s, "TP timeout after ");
                push_dec(&mut s, *elapsed_ms);
                push_str(&mut s, "ms: source=");
                push_hex_byte(&mut s, *source);
                push_str(&mut s, ", dest=");
                push_hex_byte(&mut s, *destination);
            },
            TpError::CorruptedData(msg) => {
                push_str(&mut s, "Corrupted data: ");
                push_str(&mut s, msg.as_str());
            },
        }
        assert(s@ =~= tp_error_text(*self));
        s
    }
}

// ─── Identifier construction ────────────────────────────────────────────────

/// Identifier of a reassembled message: PDU2 layout for PGNs from 0xF000 up, PDU1 with the
/// destination in the PS byte below that.
pub open spec fn spec_build_id(pgn: u32, source: u8, dest: u8, priority: u8) -> u32 {
    let base = (source as u32) | ((priority as u32) << 26u32);
    if pgn >= 0xF000 {
        base | ((pgn & 0x3FFFFu32) << 8u32)
    } else {
        base | ((dest as u32) << 8u32) | (((pgn >> 8u32) & 0x3FFu32) << 16u32)
    }
}

/// A synthetic identifier reads back as what it was built from: its source and priority; for
/// a PGN below 0xF000 (PDU1) the destination and the PGN's PF byte; for a PGN whose PF byte is
/// 0xF0 or more (PDU2) the whole PGN, as a broadcast.
pub proof fn lemma_build_id_reads_back(pgn: u32, source: u8, dest: u8, priority: u8)
    requires
        priority <= 7,
        pgn <= 0x3FFFF,
    ensures
        id_source(spec_build_id(pgn, source, dest, priority)) == source,
        id_priority(spec_build_id(pgn, source, dest, priority)) == priority,
        pgn < 0xF000 ==> id_destination(spec_build_id(pgn, source, dest, priority)) == dest
            && id_pgn(spec_build_id(pgn, source, dest, priority)) == pgn & 0xFF00u32,
        pgn >= 0xF000 && ((pgn >> 8u32) & 0xFFu32) >= 0xF0 ==> id_destination(
            spec_build_id(pgn, source, dest, priority),
        ) == 0xFFu8 && id_pgn(spec_build_id(pgn, source, dest, priority)) == pgn,
{
    let id = spec_build_id(pgn, source, dest, priority);
    assert(((source as u32) | ((priority as u32) << 26u32) | ((pgn & 0x3FFFFu32) << 8u32)) & 0xFFu32
        == source as u32 && (((source as u32) | ((priority as u32) << 26u32) | ((pgn & 0x3FFFFu32)
        << 8u32)) >> 26u32) & 0x7u32 == priority as u32 && (((source as u32) | ((priority as u32)
        << 26u32) | ((pgn & 0x3FFFFu32) << 8u32)) >> 8u32) & 0x3FFFFu32 == pgn && (((
    source as u32) | ((priority as u32) << 26u32) | ((pgn & 0x3FFFFu32) << 8u32)) >> 16u32) & 0xFFu32
        == (pgn >> 8u32) & 0xFFu32) by (bit_vector)
        requires
            priority <= 7,
            pgn <= 0x3FFFF,
            source <= 0xFF,
    ;
    assert(((source as u32) | ((priority as u32) << 26u32) | ((dest as u32) << 8u32) | (((pgn
        >> 8u32) & 0x3FFu32) << 16u32)) & 0xFFu32 == source as u32 && (((source as u32) | ((
    priority as u32) << 26u32) | ((dest as u32) << 8u32) | (((pgn >> 8u32) & 0x3FFu32) << 16u32))
        >> 26u32) & 0x7u32 == priority as u32) by (bit_vector)
        requires
            priority <= 7,
            pgn <= 0x3FFFF,
            source <= 0xFF,
            dest <= 0xFF,
    ;
    if pgn < 0xF000 {
        assert((((source as u32) | ((priority as u32) << 26u32) | ((dest as u32) << 8u32) | (((pgn
            >> 8u32) & 0x3FFu32) << 16u32)) >> 8u32) & 0xFFu32 == dest as u32 && (((
        source as u32) | ((priority as u32) << 26u32) | ((dest as u32) << 8u32) | (((pgn >> 8u32)
            & 0x3FFu32) << 16u32)) >> 16u32) & 0xFFu32 < 0xF0 && (((source as u32) | ((
        priority as u32) << 26u32) | ((dest as u32) << 8u32) | (((pgn >> 8u32) & 0x3FFu32)
            << 16u32)) >> 8u32) & 0x3FF00u32 == pgn & 0xFF00u32) by (bit_vector)
            requires
                priority <= 7,
                pgn < 0xF000,
                source <= 0xFF,
                dest <= 0xFF,
        ;
    }
}

/// Build a synthetic J1939 CAN ID from PGN, source, destination, and priority.
pub fn build_assembled_can_id(pgn: u32, source: u8, dest: u8, priority: u8) -> (r: u32)
    ensures
        r == spec_build_id(pgn, source, dest, priority),
{
    let mut id = source as u32;
    id = id | ((priority as u32) << 26u32);
    if pgn >= 0xF000 {
        id = id | ((pgn & 0x3FFFFu32) << 8u32);
    } else {
        let pgn_high = (pgn >> 8u32) & 0x3FFu32;
        id = id | ((dest as u32) << 8u32);
        id = id | (pgn_high << 16u32);
    }
    id
}

/// Source and destination/group-extension of a transport frame identifier.
pub open spec fn spec_tp_addresses(can_id: u32) -> (u8, u8) {
    let pf = id_pdu_format(can_id);
    let ps = id_pdu_specific(can_id);
    let source = id_source(can_id);
    if pf == 0xEC || pf == 0xEB {
        (source, ps as u8)
    } else if pf >= 0xF0 {
        (source, 0xFFu8)
    } else {
        (source, ps as u8)
    }
}

/// Extract source address and destination (or group extension) from a J1939 CAN ID.
/// Transport frames (PF 0xEC, 0xEB) always carry a destination in PS.
pub fn extract_tp_addresses(can_id: u32) -> (r: (u8, u8))
    ensures
        r == spec_tp_addresses(can_id),
{
    let pf = (can_id >> 16u32) & 0xFFu32;
    let ps = ((can_id >> 8u32) & 0xFFu32) as u8;
    let source = (can_id & 0xFFu32) as u8;
    if pf == 0xEC || pf == 0xEB {
        return (source, ps);
    }
    if pf >= 0xF0 {
        (source, 0xFF)
    } else {
        (source, ps)
    }
}

// ─── The reassembly model ───────────────────────────────────────────────────

/// Key of an assembly: (transmitter, destination).
pub open spec fn key_of(a: AssemblyView) -> (u8, u8) {
    (a.source_address, a.destination_address)
}

/// Packets are kept in strictly increasing packet-number order.
pub open spec fn packets_sorted(ps: Seq<(u8, Seq<u8>)>) -> bool {
    forall|i: int, j: int| 0 <= i < j < ps.len() ==> ps[i].0 < ps[j].0
}

/// The invariant of one assembly: sorted, non-zero packet numbers, payloads of at most
/// seven bytes, and a 16-bit announced size.
pub open spec fn assembly_wf(a: AssemblyView) -> bool {
    &&& packets_sorted(a.packets)
    &&& forall|i: int| 0 <= i < a.packets.len() ==> 1 <= #[trigger] a.packets[i].0
    &&& forall|i: int| 0 <= i < a.packets.len() ==> #[trigger] a.packets[i].1.len() <= 7
    &&& a.total_size <= 0xFFFF
}

/// Payloads of the packets, concatenated in order.
pub open spec fn payload_concat(ps: Seq<(u8, Seq<u8>)>) -> Seq<u8>
    decreases ps.len(),
{
    if ps.len() == 0 {
        Seq::empty()
    } else {
        payload_concat(ps.drop_last()) + ps.last().1
    }
}

/// The position at which a packet with number `n` goes into sorted packets `ps`.
pub open spec fn is_insert_pos(ps: Seq<(u8, Seq<u8>)>, n: u8, k: int) -> bool {
    &&& 0 <= k <= ps.len()
    &&& forall|i: int| 0 <= i < k ==> ps[i].0 < n
    &&& forall|i: int| k <= i < ps.len() ==> ps[i].0 > n
}

/// `ps` with `p` inserted so that packet numbers stay in increasing order.
pub open spec fn insert_packet(ps: Seq<(u8, Seq<u8>)>, p: (u8, Seq<u8>)) -> Seq<(u8, Seq<u8>)> {
    let k = choose|k: int| is_insert_pos(ps, p.0, k);
    ps.take(k).push(p) + ps.skip(k)
}

/// Number of data packets needed for `total` bytes.
pub open spec fn max_packets(total: usize) -> int {
    (total + 6) / 7
}

/// Milliseconds elapsed since `start` (zero when `now` precedes it).
pub open spec fn elapsed_ms(now: u64, start: u64) -> int {
    if now >= start {
        now - start
    } else {
        0
    }
}

/// An assembly has expired when more than `timeout` milliseconds passed since it started.
pub open spec fn is_expired(a: AssemblyView, now: u64, timeout: u64) -> bool {
    elapsed_ms(now, a.start_time) > timeout
}

/// Assemblies that survive a cleanup at time `now`.
pub open spec fn after_cleanup(m: Map<(u8, u8), AssemblyView>, now: u64, timeout: u64) -> Map<
    (u8, u8),
    AssemblyView,
> {
    Map::new(|k: (u8, u8)| m.contains_key(k) && !is_expired(m[k], now, timeout), |k: (u8, u8)| m[k])
}

/// State of the reassembler: active assemblies and transmitters with an RTS on record.
pub struct TpModel {
    pub assemblies: Map<(u8, u8), AssemblyView>,
    pub pending: Set<u8>,
}

/// Little-endian 16-bit size announced in bytes 1..3 of a connection-management frame.
pub open spec fn announced_size(d: Seq<u8>) -> usize {
    ((d[2] as usize) * 256 + (d[1] as usize)) as usize
}

/// Little-endian PGN announced in bytes 5..8 (zero when the frame is shorter).
pub open spec fn announced_pgn(d: Seq<u8>) -> u32 {
    if d.len() >= 8 {
        ((d[7] as u32) * 65536 + (d[6] as u32) * 256 + (d[5] as u32)) as u32
    } else {
        0
    }
}

/// The assembly an RTS or BAM frame opens.
pub open spec fn opened_assembly(f: RawFrame) -> AssemblyView {
    AssemblyView {
        source_address: id_source(f.can_id),
        destination_address: id_destination(f.can_id),
        pgn: announced_pgn(f.data@),
        priority: id_priority(f.can_id),
        total_size: announced_size(f.data@),
        page_number: 0,
        packets: Seq::empty(),
        start_time: f.timestamp / 1000,
        last_packet_time: f.timestamp / 1000,
    }
}

/// Effect of a connection-management frame (RTS, CTS, EOM, Abort, BAM).
pub open spec fn cm_step(m: TpModel, f: RawFrame) -> TpModel {
    let d = f.data@;
    let src = id_source(f.can_id);
    let dst = id_destination(f.can_id);
    if d.len() == 0 {
        m
    } else if d[0] == 0x10 {
        if d.len() < 5 || m.pending.contains(src) {
            m
        } else {
            TpModel {
                assemblies: m.assemblies.insert((src, dst), opened_assembly(f)),
                pending: m.pending.insert(src),
            }
        }
    } else if d[0] == 0x13 {
        TpModel { assemblies: m.assemblies.remove((src, dst)), pending: m.pending }
    } else if d[0] == 0x1C {
        TpModel {
            assemblies: m.assemblies.remove((src, dst)).remove((src, 0xFFu8)),
            pending: m.pending.remove(src).remove(dst),
        }
    } else if d[0] == 0x20 {
        if d.len() < 5 {
            m
        } else {
            TpModel {
                assemblies: m.assemblies.insert((src, dst), opened_assembly(f)),
                pending: m.pending,
            }
        }
    } else {
        m
    }
}

/// The assembly a data packet is matched against: (source, destination), else (source, 0xFF).
pub open spec fn dt_target(m: TpModel, f: RawFrame) -> Option<AssemblyView> {
    let src = id_source(f.can_id);
    let dst = id_destination(f.can_id);
    if m.assemblies.contains_key((src, dst)) {
        Some(m.assemblies[(src, dst)])
    } else if m.assemblies.contains_key((src, 0xFFu8)) {
        Some(m.assemblies[(src, 0xFFu8)])
    } else {
        None
    }
}

/// A data packet passes every check against the assembly it is matched with.
pub open spec fn dt_accepted(m: TpModel, f: RawFrame) -> bool {
    let d = f.data@;
    &&& d.len() >= 2
    &&& d[0] != 0
    &&& d.len() - 1 <= 7
    &&& dt_target(m, f) is Some
    &&& {
        let a = dt_target(m, f)->Some_0;
        &&& forall|i: int| 0 <= i < a.packets.len() ==> #[trigger] a.packets[i].0 != d[0]
        &&& !(d[0] < ((a.packets.len() + 1) as u8))
        &&& !(d[0] > (max_packets(a.total_size) as u8))
    }
}

/// The key of the assembly a data packet joins: its own (source, destination) when that
/// assembly exists, else the sender's broadcast assembly (source, 0xFF).
pub open spec fn dt_key(m: TpModel, f: RawFrame) -> (u8, u8) {
    let src = id_source(f.can_id);
    let dst = id_destination(f.can_id);
    if m.assemblies.contains_key((src, dst)) {
        (src, dst)
    } else {
        (src, 0xFFu8)
    }
}

/// Effect and result of a data packet. The packet that completes a transfer also ends the
/// sender's RTS record, so that its next transfer is accepted.
pub open spec fn dt_step(m: TpModel, f: RawFrame) -> (TpModel, Seq<TpOutcome>) {
    let d = f.data@;
    let key = dt_key(m, f);
    if !dt_accepted(m, f) {
        (m, Seq::empty())
    } else {
        let a = m.assemblies[key];
        let ps = insert_packet(a.packets, (d[0], d.subrange(1, d.len() as int)));
        if d[0] == (max_packets(a.total_size) as u8) && payload_concat(ps).len() >= a.total_size {
            (
                TpModel {
                    assemblies: m.assemblies.remove(key),
                    pending: m.pending.remove(id_source(f.can_id)),
                },
                seq![
                    TpOutcome::Complete(
                        MessageView {
                            id: spec_build_id(a.pgn, a.source_address, a.destination_address, a.priority),
                            pgn: a.pgn,
                            data: payload_concat(ps).take(a.total_size as int),
                            timestamp: f.timestamp,
                            source_name: None,
                            dest_name: None,
                        },
                    ),
                ],
            )
        } else {
            (
                TpModel {
                    assemblies: m.assemblies.insert(
                        key,
                        AssemblyView { packets: ps, last_packet_time: f.timestamp / 1000, ..a },
                    ),
                    pending: m.pending,
                },
                seq![TpOutcome::Pending],
            )
        }
    }
}

/// Classification of a frame by its PGN.
pub open spec fn spec_message_type(f: RawFrame) -> TpMessageType {
    if id_pgn(f.can_id) == 0xEC00 {
        TpMessageType::ConnectionManagement
    } else if id_pgn(f.can_id) == 0xEB00 {
        TpMessageType::DataPacket
    } else {
        TpMessageType::NotTp
    }
}

/// The model after the expiry cleanup that precedes every frame.
pub open spec fn cleaned(m: TpModel, f: RawFrame, timeout: u64) -> TpModel {
    TpModel { assemblies: after_cleanup(m.assemblies, f.timestamp / 1000, timeout), pending: m.pending }
}

/// Effect and result of processing one frame.
pub open spec fn spec_process(m: TpModel, f: RawFrame, timeout: u64) -> (TpModel, Seq<TpOutcome>) {
    let m1 = cleaned(m, f, timeout);
    match spec_message_type(f) {
        TpMessageType::ConnectionManagement => (cm_step(m1, f), Seq::empty()),
        TpMessageType::DataPacket => dt_step(m1, f),
        TpMessageType::NotTp => (
            m1,
            seq![
                TpOutcome::SingleFrame(
                    MessageView {
                        id: f.can_id,
                        pgn: id_pgn(f.can_id),
                        data: f.data@,
                        timestamp: f.timestamp,
                        source_name: None,
                        dest_name: None,
                    },
                ),
            ],
        ),
    }
}

/// A data packet that no assembly can take: too short or too long, numbered zero, with no
/// assembly to join, or (against the assembly it would join) a packet number already
/// received, below the next expected one, or beyond the announced packet count.
pub open spec fn dt_malformed(m: TpModel, f: RawFrame) -> bool {
    let d = f.data@;
    ||| d.len() < 2
    ||| d.len() > 8
    ||| d[0] == 0
    ||| dt_target(m, f) is None
    ||| (dt_target(m, f) matches Some(a) && ((exists|i: int|
        0 <= i < a.packets.len() && #[trigger] a.packets[i].0 == d[0]) || d[0] < a.packets.len()
        + 1 || d[0] > max_packets(a.total_size)))
}

/// Packet numbers in sorted packets grow at least by the distance between positions.
proof fn lemma_packet_gap(ps: Seq<(u8, Seq<u8>)>, i: int, j: int)
    requires
        packets_sorted(ps),
        0 <= i <= j < ps.len(),
    ensures
        ps[j].0 - ps[i].0 >= j - i,
    decreases j - i,
{
    if i < j {
        lemma_packet_gap(ps, i, j - 1);
        assert(ps[j - 1].0 < ps[j].0);
    }
}

/// A well-formed assembly holds at most 255 packets, and when it holds 255 it holds every
/// packet number from 1 to 255, the one numbered `n` at position `n - 1`.
proof fn lemma_full_assembly(a: AssemblyView, n: u8)
    requires
        assembly_wf(a),
        1 <= n,
    ensures
        a.packets.len() <= 255,
        a.packets.len() == 255 ==> a.packets[n - 1].0 == n,
{
    let ps = a.packets;
    if ps.len() > 0 {
        lemma_packet_gap(ps, 0, ps.len() - 1);
        assert(1 <= ps[0].0);
    }
    if ps.len() == 255 {
        lemma_packet_gap(ps, 0, n - 1);
        lemma_packet_gap(ps, n - 1, 254);
        assert(1 <= ps[0].0);
    }
}

/// A malformed data packet is rejected: no outcome, and nothing but the expiry cleanup
/// changes (for a well-formed target assembly of at most 1785 bytes).
pub proof fn lemma_malformed_dt_rejected(m: TpModel, f: RawFrame, timeout: u64)
    requires
        spec_message_type(f) == TpMessageType::DataPacket,
        dt_malformed(cleaned(m, f, timeout), f),
        dt_target(cleaned(m, f, timeout), f) matches Some(a) ==> a.total_size <= 1785
            && assembly_wf(a),
    ensures
        spec_process(m, f, timeout) == (cleaned(m, f, timeout), Seq::<TpOutcome>::empty()),
{
    let m1 = cleaned(m, f, timeout);
    let d = f.data@;
    if let Some(a) = dt_target(m1, f) {
        assert(max_packets(a.total_size) <= 255);
        assert((max_packets(a.total_size) as u8) as int == max_packets(a.total_size));
        if d.len() >= 2 && d[0] != 0 {
            lemma_full_assembly(a, d[0]);
            if a.packets.len() == 255 {
                assert(a.packets[d[0] - 1].0 == d[0]);
            } else {
                assert(((a.packets.len() + 1) as u8) as int == a.packets.len() + 1);
            }
        }
        if exists|i: int| 0 <= i < a.packets.len() && #[trigger] a.packets[i].0 == d[0] {
            let i = choose|i: int| 0 <= i < a.packets.len() && #[trigger] a.packets[i].0 == d[0];
            assert(a.packets[i].0 == d[0]);
        }
    }
    assert(!dt_accepted(m1, f));
}

// ─── The assembly table ─────────────────────────────────────────────────────

/// Keys of the entries are pairwise distinct.
pub open spec fn keys_distinct(s: Seq<TpAssemblyState>) -> bool {
    forall|i: int, j: int| 0 <= i < j < s.len() ==> key_of(s[i]@) != key_of(s[j]@)
}

/// The entries as a map from key to assembly.
pub open spec fn table_map(s: Seq<TpAssemblyState>) -> Map<(u8, u8), AssemblyView> {
    Map::new(
        |k: (u8, u8)| exists|i: int| 0 <= i < s.len() && key_of(s[i]@) == k,
        |k: (u8, u8)| s[choose|i: int| 0 <= i < s.len() && key_of(s[i]@) == k]@,
    )
}

proof fn lemma_table_index(s: Seq<TpAssemblyState>, i: int)
    requires
        keys_distinct(s),
        0 <= i < s.len(),
    ensures
        table_map(s).contains_key(key_of(s[i]@)),
        table_map(s)[key_of(s[i]@)] == s[i]@,
{
    let k = key_of(s[i]@);
    assert(table_map(s).contains_key(k));
    let j = choose|j: int| 0 <= j < s.len() && key_of(s[j]@) == k;
    assert(j == i) by {
        if j < i {
            assert(key_of(s[j]@) != key_of(s[i]@));
        } else if j > i {
            assert(key_of(s[i]@) != key_of(s[j]@));
        }
    }
}

proof fn lemma_table_push(s: Seq<TpAssemblyState>, x: TpAssemblyState)
    requires
        keys_distinct(s),
        !table_map(s).contains_key(key_of(x@)),
    ensures
        keys_distinct(s.push(x)),
        table_map(s.push(x)) == table_map(s).insert(key_of(x@), x@),
{
    let t = s.push(x);
    assert forall|i: int, j: int| 0 <= i < j < t.len() implies key_of(t[i]@) != key_of(t[j]@) by {
        if j == s.len() {
            if key_of(t[i]@) == key_of(x@) {
                assert(table_map(s).contains_key(key_of(s[i]@)));
            }
        }
    }
    assert forall|k: (u8, u8)|
        table_map(t).contains_key(k) <==> table_map(s).insert(key_of(x@), x@).contains_key(k) by {
        if table_map(s).contains_key(k) {
            let i = choose|i: int| 0 <= i < s.len() && key_of(s[i]@) == k;
            assert(t[i] == s[i]);
        }
        if k == key_of(x@) {
            assert(t[s.len() as int] == x);
        }
        if table_map(t).contains_key(k) {
            let i = choose|i: int| 0 <= i < t.len() && key_of(t[i]@) == k;
            if i < s.len() {
                assert(t[i] == s[i]);
            }
        }
    }
    assert forall|k: (u8, u8)| #[trigger]
        table_map(t).contains_key(k) implies table_map(t)[k] == table_map(s).insert(
        key_of(x@),
        x@,
    )[k] by {
        let i = choose|i: int| 0 <= i < t.len() && key_of(t[i]@) == k;
        lemma_table_index(t, i);
        if i < s.len() {
            assert(t[i] == s[i]);
            lemma_table_index(s, i);
        }
    }
    assert(table_map(t) =~= table_map(s).insert(key_of(x@), x@));
}

proof fn lemma_table_update(s: Seq<TpAssemblyState>, i: int, x: TpAssemblyState)
    requires
        keys_distinct(s),
        0 <= i < s.len(),
        key_of(x@) == key_of(s[i]@),
    ensures
        keys_distinct(s.update(i, x)),
        table_map(s.update(i, x)) == table_map(s).insert(key_of(x@), x@),
{
    let t = s.update(i, x);
    assert forall|a: int, b: int| 0 <= a < b < t.len() implies key_of(t[a]@) != key_of(t[b]@) by {
        assert(key_of(t[a]@) == key_of(s[a]@));
        assert(key_of(t[b]@) == key_of(s[b]@));
    }
    lemma_table_index(s, i);
    assert forall|k: (u8, u8)|
        table_map(t).contains_key(k) <==> table_map(s).insert(key_of(x@), x@).contains_key(k) by {
        if table_map(s).contains_key(k) {
            let j = choose|j: int| 0 <= j < s.len() && key_of(s[j]@) == k;
            assert(key_of(t[j]@) == key_of(s[j]@));
        }
        if table_map(t).contains_key(k) {
            let j = choose|j: int| 0 <= j < t.len() && key_of(t[j]@) == k;
            assert(key_of(t[j]@) == key_of(s[j]@));
        }
    }
    assert forall|k: (u8, u8)| #[trigger]
        table_map(t).contains_key(k) implies table_map(t)[k] == table_map(s).insert(
        key_of(x@),
        x@,
    )[k] by {
        let j = choose|j: int| 0 <= j < t.len() && key_of(t[j]@) == k;
        lemma_table_index(t, j);
        if j != i {
            lemma_table_index(s, j);
        }
    }
    assert(table_map(t) =~= table_map(s).insert(key_of(x@), x@));
}

proof fn lemma_table_remove(s: Seq<TpAssemblyState>, i: int)
    requires
        keys_distinct(s),
        0 <= i < s.len(),
    ensures
        keys_distinct(s.remove(i)),
        table_map(s.remove(i)) == table_map(s).remove(key_of(s[i]@)),
{
    let t = s.remove(i);
    let k0 = key_of(s[i]@);
    assert forall|a: int, b: int| 0 <= a < b < t.len() implies key_of(t[a]@) != key_of(t[b]@) by {
        let a2 = if a < i { a } else { a + 1 };
        let b2 = if b < i { b } else { b + 1 };
        assert(t[a] == s[a2]);
        assert(t[b] == s[b2]);
    }
    assert forall|k: (u8, u8)|
        table_map(t).contains_key(k) <==> table_map(s).remove(k0).contains_key(k) by {
        if table_map(s).contains_key(k) && k != k0 {
            let j = choose|j: int| 0 <= j < s.len() && key_of(s[j]@) == k;
            assert(j != i);
            let j2 = if j < i { j } else { j - 1 };
            assert(t[j2] == s[j]);
        }
        if table_map(t).contains_key(k) {
            let j = choose|j: int| 0 <= j < t.len() && key_of(t[j]@) == k;
            let j2 = if j < i { j } else { j + 1 };
            assert(t[j] == s[j2]);
            assert(j2 != i);
            assert(key_of(s[j2]@) != key_of(s[i]@));
        }
    }
    assert forall|k: (u8, u8)| #[trigger]
        table_map(t).contains_key(k) implies table_map(t)[k] == table_map(s).remove(k0)[k] by {
        let j = choose|j: int| 0 <= j < t.len() && key_of(t[j]@) == k;
        lemma_table_index(t, j);
        let j2 = if j < i { j } else { j + 1 };
        assert(t[j] == s[j2]);
        lemma_table_index(s, j2);
    }
    assert(table_map(t) =~= table_map(s).remove(k0));
}

/// Finds the entry with the given key.
fn find_assembly(s: &Vec<TpAssemblyState>, src: u8, dst: u8) -> (r: Option<usize>)
    requires
        keys_distinct(s@),
    ensures
        r matches Some(i) ==> i < s@.len() && key_of(s@[i as int]@) == (src, dst),
        r is None <==> !table_map(s@).contains_key((src, dst)),
{
    let mut i: usize = 0;
    while i < s.len()
        invariant
            i <= s@.len(),
            keys_distinct(s@),
            forall|j: int| 0 <= j < i ==> key_of(s@[j]@) != (src, dst),
        decreases s@.len() - i,
    {
        if s[i].source_address == src && s[i].destination_address == dst {
            proof {
                lemma_table_index(s@, i as int);
            }
            return Some(i);
        }
        i = i + 1;
    }
    None
}

fn copy_bytes(v: &[u8]) -> (r: Vec<u8>)
    ensures
        r@ == v@,
{
    let mut r: Vec<u8> = Vec::new();
    let mut i: usize = 0;
    while i < v.len()
        invariant
            i <= v@.len(),
            r@ == v@.take(i as int),
        decreases v@.len() - i,
    {
        r.push(v[i]);
        assert(r@ =~= v@.take(i + 1));
        i = i + 1;
    }
    assert(v@.take(v@.len() as int) =~= v@);
    r
}

fn copy_byte_range(v: &[u8], lo: usize, hi: usize) -> (r: Vec<u8>)
    requires
        lo <= hi <= v@.len(),
    ensures
        r@ == v@.subrange(lo as int, hi as int),
{
    let mut r: Vec<u8> = Vec::new();
    let mut i = lo;
    while i < hi
        invariant
            lo <= i <= hi,
            hi <= v@.len(),
            r@ == v@.subrange(lo as int, i as int),
        decreases hi - i,
    {
        r.push(v[i]);
        assert(r@ =~= v@.subrange(lo as int, i + 1));
        i = i + 1;
    }
    r
}

fn copy_packets(ps: &Vec<(u8, Vec<u8>)>) -> (r: Vec<(u8, Vec<u8>)>)
    ensures
        packets_view(r@) == packets_view(ps@),
{
    let mut r: Vec<(u8, Vec<u8>)> = Vec::new();
    let mut i: usize = 0;
    while i < ps.len()
        invariant
            i <= ps@.len(),
            r@.len() == i,
            packets_view(r@) == packets_view(ps@).take(i as int),
        decreases ps@.len() - i,
    {
        let b = copy_bytes(ps[i].1.as_slice());
        let ghost before = r@;
        r.push((ps[i].0, b));
        assert(r@ == before.push((ps@[i as int].0, b)));
        assert forall|j: int| 0 <= j < i + 1 implies #[trigger] packets_view(r@)[j] == packets_view(
            ps@,
        )[j] by {
            if j < i {
                assert(r@[j] == before[j]);
                assert(packets_view(before)[j] == packets_view(ps@).take(i as int)[j]);
            } else {
                assert(b@ == ps@[i as int].1@);
            }
        }
        assert(packets_view(r@) =~= packets_view(ps@).take(i + 1));
        i = i + 1;
    }
    assert(packets_view(ps@).take(ps@.len() as int) =~= packets_view(ps@));
    r
}

/// A copy of an assembly state.
pub fn copy_assembly(a: &TpAssemblyState) -> (r: TpAssemblyState)
    ensures
        r@ == a@,
{
    TpAssemblyState {
        source_address: a.source_address,
        destination_address: a.destination_address,
        pgn: a.pgn,
        priority: a.priority,
        total_size: a.total_size,
        page_number: a.page_number,
        packets_received: copy_packets(&a.packets_received),
        start_time: a.start_time,
        last_packet_time: a.last_packet_time,
    }
}

/// Whether a packet number is already present.
fn has_packet(ps: &Vec<(u8, Vec<u8>)>, n: u8) -> (r: bool)
    ensures
        r == exists|i: int| 0 <= i < packets_view(ps@).len() && packets_view(ps@)[i].0 == n,
{
    let mut i: usize = 0;
    while i < ps.len()
        invariant
            i <= ps@.len(),
            forall|j: int| 0 <= j < i ==> packets_view(ps@)[j].0 != n,
        decreases ps@.len() - i,
    {
        if ps[i].0 == n {
            assert(packets_view(ps@)[i as int].0 == n);
            return true;
        }
        i = i + 1;
    }
    false
}

proof fn lemma_insert_pos_unique(ps: Seq<(u8, Seq<u8>)>, n: u8, k1: int, k2: int)
    requires
        is_insert_pos(ps, n, k1),
        is_insert_pos(ps, n, k2),
    ensures
        k1 == k2,
{
    if k1 < k2 {
        assert(ps[k1].0 > n);
        assert(ps[k1].0 < n);
    } else if k2 < k1 {
        assert(ps[k2].0 > n);
        assert(ps[k2].0 < n);
    }
}

/// Inserts a packet at its place in sorted order.
fn insert_sorted(ps: Vec<(u8, Vec<u8>)>, n: u8, payload: Vec<u8>) -> (r: Vec<(u8, Vec<u8>)>)
    requires
        packets_sorted(packets_view(ps@)),
        forall|i: int| 0 <= i < packets_view(ps@).len() ==> packets_view(ps@)[i].0 != n,
    ensures
        packets_view(r@) == insert_packet(packets_view(ps@), (n, payload@)),
        packets_sorted(packets_view(r@)),
        packets_view(r@).len() == packets_view(ps@).len() + 1,
        exists|k: int| is_insert_pos(packets_view(ps@), n, k),
{
    let ghost v = packets_view(ps@);
    let mut k: usize = 0;
    while k < ps.len() && ps[k].0 < n
        invariant
            k <= ps@.len(),
            v == packets_view(ps@),
            forall|i: int| 0 <= i < k ==> v[i].0 < n,
        decreases ps@.len() - k,
    {
        k = k + 1;
    }
    assert(is_insert_pos(v, n, k as int)) by {
        assert forall|i: int| k <= i < v.len() implies v[i].0 > n by {
            if i > k {
                assert(v[k as int].0 < v[i].0);
            }
            assert(v[k as int].0 != n);
        }
    }
    proof {
        let kc = choose|kc: int| is_insert_pos(v, n, kc);
        lemma_insert_pos_unique(v, n, k as int, kc);
    }
    let mut r = ps;
    r.insert(k, (n, payload));
    assert(packets_view(r@) =~= v.take(k as int).push((n, payload@)) + v.skip(k as int));
    r
}

/// Total payload length of the packets.
fn payload_len(ps: &Vec<(u8, Vec<u8>)>) -> (r: usize)
    requires
        ps@.len() <= 256,
        forall|i: int| 0 <= i < packets_view(ps@).len() ==> #[trigger] packets_view(ps@)[i].1.len() <= 7,
    ensures
        r == payload_concat(packets_view(ps@)).len(),
{
    let ghost v = packets_view(ps@);
    let mut total: usize = 0;
    let mut i: usize = 0;
    while i < ps.len()
        invariant
            i <= ps@.len() <= 256,
            v == packets_view(ps@),
            forall|j: int| 0 <= j < v.len() ==> #[trigger] v[j].1.len() <= 7,
            total == payload_concat(v.take(i as int)).len(),
            total <= 7 * i,
        decreases ps@.len() - i,
    {
        assert(v.take(i + 1).drop_last() =~= v.take(i as int));
        assert(v[i as int].1.len() <= 7);
        total = total + ps[i].1.len();
        i = i + 1;
    }
    assert(v.take(ps@.len() as int) =~= v);
    total
}

/// Payloads concatenated in order.
fn concat_payloads(ps: &Vec<(u8, Vec<u8>)>) -> (r: Vec<u8>)
    ensures
        r@ == payload_concat(packets_view(ps@)),
{
    let ghost v = packets_view(ps@);
    let mut out: Vec<u8> = Vec::new();
    let mut i: usize = 0;
    while i < ps.len()
        invariant
            i <= ps@.len(),
            v == packets_view(ps@),
            out@ == payload_concat(v.take(i as int)),
        decreases ps@.len() - i,
    {
        assert(v.take(i + 1).drop_last() =~= v.take(i as int));
        let ghost before = out@;
        let mut j: usize = 0;
        while j < ps[i].1.len()
            invariant
                i < ps@.len(),
                j <= ps@[i as int].1@.len(),
                out@ == before + ps@[i as int].1@.take(j as int),
            decreases ps@[i as int].1@.len() - j,
        {
            out.push(ps[i].1[j]);
            assert(out@ =~= before + ps@[i as int].1@.take(j + 1));
            j = j + 1;
        }
        assert(ps@[i as int].1@.take(ps@[i as int].1@.len() as int) =~= ps@[i as int].1@);
        i = i + 1;
    }
    assert(v.take(ps@.len() as int) =~= v);
    out
}

proof fn lemma_sorted_bound(ps: Seq<(u8, Seq<u8>)>)
    requires
        packets_sorted(ps),
        forall|i: int| 0 <= i < ps.len() ==> 1 <= #[trigger] ps[i].0,
    ensures
        ps.len() <= 255,
{
    assert forall|i: int| 0 <= i < ps.len() implies ps[i].0 >= i + 1 by {
        lemma_sorted_index_bound(ps, i);
    }
    if ps.len() > 255 {
        assert(ps[255].0 >= 256);
    }
}

proof fn lemma_sorted_index_bound(ps: Seq<(u8, Seq<u8>)>, i: int)
    requires
        packets_sorted(ps),
        forall|j: int| 0 <= j < ps.len() ==> 1 <= #[trigger] ps[j].0,
        0 <= i < ps.len(),
    ensures
        ps[i].0 >= i + 1,
    decreases i,
{
    if i > 0 {
        lemma_sorted_index_bound(ps, i - 1);
        assert(ps[i - 1].0 < ps[i].0);
    } else {
        assert(1 <= ps[0].0);
    }
}

// ─── The reassembler ─────────────────────────────────────────────────────────

/// J1939 Transport Protocol reassembler.
///
/// Handles Broadcast Announce (BAM) transfers and RTS/CTS transfers with their
/// data packets, keyed by (transmitter, destination).
pub struct TpReassembler {
    /// Whether to emit partial assemblies on timeout instead of discarding.
    force_partial: bool,
    /// Timeout in milliseconds before giving up on an assembly.
    timeout_ms: u64,
    /// Active multi-frame assemblies, at most one per (source, destination) key.
    assemblies: Vec<TpAssemblyState>,
    /// Source addresses with an RTS on record.
    rts_pending_sources: HashSet<u8>,
    /// Extra diagnostics requested by the user.
    debug: bool,
}

impl View for TpReassembler {
    type V = TpModel;

    closed spec fn view(&self) -> TpModel {
        TpModel {
            assemblies: table_map(self.assemblies@),
            pending: self.rts_pending_sources@,
        }
    }
}

impl TpReassembler {
    /// Internal consistency of the reassembler.
    pub closed spec fn wf(&self) -> bool {
        &&& keys_distinct(self.assemblies@)
        &&& forall|i: int|
            0 <= i < self.assemblies@.len() ==> assembly_wf(#[trigger] self.assemblies@[i]@)
    }

    /// The configured timeout in milliseconds.
    pub closed spec fn spec_timeout(&self) -> u64 {
        self.timeout_ms
    }

    /// Every assembly the model holds satisfies the per-assembly invariant.
    pub proof fn lemma_wf_assemblies(&self)
        requires
            self.wf(),
        ensures
            forall|k: (u8, u8)| #[trigger]
                self@.assemblies.contains_key(k) ==> assembly_wf(self@.assemblies[k]) && key_of(
                    self@.assemblies[k],
                ) == k,
    {
        assert forall|k: (u8, u8)| #[trigger] self@.assemblies.contains_key(k) implies assembly_wf(
            self@.assemblies[k],
        ) && key_of(self@.assemblies[k]) == k by {
            let i = choose|i: int|
                0 <= i < self.assemblies@.len() && key_of(self.assemblies@[i]@) == k;
            lemma_table_index(self.assemblies@, i);
        }
    }

    /// Create a new reassembler with the given force-partial setting, timeout and debug flag.
    pub fn new(force_partial: bool, timeout_ms: u64, debug: bool) -> (r: Self)
        ensures
            r.wf(),
            r@.assemblies == Map::<(u8, u8), AssemblyView>::empty(),
            r@.pending == Set::<u8>::empty(),
            r.spec_timeout() == timeout_ms,
    {
        let pending: HashSet<u8> = HashSet::new();
        let r = TpReassembler {
            force_partial,
            timeout_ms,
            assemblies: Vec::new(),
            rts_pending_sources: pending,
            debug,
        };
        assert(r@.assemblies =~= Map::<(u8, u8), AssemblyView>::empty());
        assert(r@.pending =~= Set::<u8>::empty());
        r
    }

    /// Record an assembly directly (replacing any assembly under the same key).
    pub fn insert_assembly(&mut self, state: TpAssemblyState)
        requires
            old(self).wf(),
            assembly_wf(state@),
        ensures
            final(self).wf(),
            final(self)@.assemblies == old(self)@.assemblies.insert(key_of(state@), state@),
            final(self)@.pending == old(self)@.pending,
            final(self).spec_timeout() == old(self).spec_timeout(),
    {
        match find_assembly(&self.assemblies, state.source_address, state.destination_address) {
            Some(i) => {
                proof {
                    lemma_table_update(self.assemblies@, i as int, state);
                }
                self.assemblies.set(i, state);
            },
            None => {
                proof {
                    lemma_table_push(self.assemblies@, state);
                }
                self.assemblies.push(state);
            },
        }
        assert(forall|i: int|
            0 <= i < self.assemblies@.len() ==> assembly_wf(#[trigger] self.assemblies@[i]@));
    }

    /// Whether an assembly is active under (source, destination).
    pub fn has_assembly(&self, source: u8, dest: u8) -> (r: bool)
        requires
            self.wf(),
        ensures
            r == self@.assemblies.contains_key((source, dest)),
    {
        find_assembly(&self.assemblies, source, dest).is_some()
    }

    /// A copy of the assembly active under (source, destination).
    pub fn get_assembly(&self, source: u8, dest: u8) -> (r: Option<TpAssemblyState>)
        requires
            self.wf(),
        ensures
            r is Some <==> self@.assemblies.contains_key((source, dest)),
            r matches Some(a) ==> a@ == self@.assemblies[(source, dest)],
    {
        match find_assembly(&self.assemblies, source, dest) {
            Some(i) => {
                proof {
                    lemma_table_index(self.assemblies@, i as int);
                }
                Some(copy_assembly(&self.assemblies[i]))
            },
            None => None,
        }
    }

    /// Whether a transmitter has an RTS on record.
    pub fn is_rts_pending(&self, source: u8) -> (r: bool)
        requires
            self.wf(),
        ensures
            r == self@.pending.contains(source),
    {
        broadcast use vstd::std_specs::hash::group_hash_axioms;
        self.rts_pending_sources.contains(&source)
    }

    /// Process a single frame: drop expired assemblies, then handle the frame.
    pub fn process_frame(&mut self, frame: &RawFrame) -> (r: Vec<TpReassemblyResult>)
        requires
            old(self).wf(),
        ensures
            final(self).wf(),
            final(self).spec_timeout() == old(self).spec_timeout(),
            (final(self)@, outcomes(r@)) == spec_process(
                old(self)@,
                *frame,
                old(self).spec_timeout(),
            ),
    {
        self.cleanup_expired(frame.timestamp / 1000);
        self.process_frame_internal(frame)
    }

    fn process_frame_internal(&mut self, frame: &RawFrame) -> (r: Vec<TpReassemblyResult>)
        requires
            old(self).wf(),
        ensures
            final(self).wf(),
            final(self).spec_timeout() == old(self).spec_timeout(),
            (final(self)@, outcomes(r@)) == match spec_message_type(*frame) {
                TpMessageType::ConnectionManagement => (cm_step(old(self)@, *frame), Seq::empty()),
                TpMessageType::DataPacket => dt_step(old(self)@, *frame),
                TpMessageType::NotTp => (
                    old(self)@,
                    seq![
                        TpOutcome::SingleFrame(
                            MessageView {
                                id: frame.can_id,
                                pgn: id_pgn(frame.can_id),
                                data: frame.data@,
                                timestamp: frame.timestamp,
                                source_name: None,
                                dest_name: None,
                            },
                        ),
                    ],
                ),
            },
    {
        let msg_type = self.detect_message_type(frame);
        match msg_type {
            TpMessageType::ConnectionManagement => self.handle_connection_management(frame),
            TpMessageType::DataPacket => self.handle_data_packet(frame),
            TpMessageType::NotTp => {
                let assembled = AssembledMessage::with_pgn(
                    frame.can_id,
                    frame.pgn(),
                    copy_bytes(frame.data.as_slice()),
                    frame.timestamp,
                );
                let r = vec![TpReassemblyResult::SingleFrame(assembled)];
                assert(outcomes(r@) =~= seq![
                    TpOutcome::SingleFrame(
                        MessageView {
                            id: frame.can_id,
                            pgn: id_pgn(frame.can_id),
                            data: frame.data@,
                            timestamp: frame.timestamp,
                            source_name: None,
                            dest_name: None,
                        },
                    ),
                ]);
                r
            },
        }
    }

    /// Classify a frame as connection management, data packet or neither.
    pub fn detect_message_type(&self, frame: &RawFrame) -> (r: TpMessageType)
        ensures
            r == spec_message_type(*frame),
    {
        let pgn = frame.pgn();
        if pgn == 0xEC00 {
            return TpMessageType::ConnectionManagement;
        }
        if pgn == 0xEB00 {
            return TpMessageType::DataPacket;
        }
        TpMessageType::NotTp
    }

    fn set_pending(&mut self, a: u8, value: bool)
        requires
            old(self).wf(),
        ensures
            final(self).wf(),
            final(self).assemblies@ == old(self).assemblies@,
            final(self).timeout_ms == old(self).timeout_ms,
            final(self)@.assemblies == old(self)@.assemblies,
            final(self)@.pending == if value {
                old(self)@.pending.insert(a)
            } else {
                old(self)@.pending.remove(a)
            },
    {
        broadcast use vstd::std_specs::hash::group_hash_axioms;
        if value {
            self.rts_pending_sources.insert(a);
        } else {
            self.rts_pending_sources.remove(&a);
        }
        assert(self@.pending =~= if value {
            old(self)@.pending.insert(a)
        } else {
            old(self)@.pending.remove(a)
        });
    }

    fn remove_key(&mut self, src: u8, dst: u8)
        requires
            old(self).wf(),
        ensures
            final(self).wf(),
            final(self).timeout_ms == old(self).timeout_ms,
            final(self)@.assemblies == old(self)@.assemblies.remove((src, dst)),
            final(self)@.pending == old(self)@.pending,
    {
        match find_assembly(&self.assemblies, src, dst) {
            Some(i) => {
                proof {
                    lemma_table_remove(self.assemblies@, i as int);
                }
                let ghost before = self.assemblies@;
                self.assemblies.remove(i);
                assert forall|j: int| 0 <= j < self.assemblies@.len() implies assembly_wf(
                    #[trigger] self.assemblies@[j]@,
                ) by {
                    let j2 = if j < i { j } else { j + 1 };
                    assert(self.assemblies@[j] == before[j2]);
                }
            },
            None => {
                assert(self@.assemblies =~= old(self)@.assemblies.remove((src, dst)));
            },
        }
    }

    fn handle_connection_management(&mut self, frame: &RawFrame) -> (r: Vec<TpReassemblyResult>)
        requires
            old(self).wf(),
        ensures
            final(self).wf(),
            final(self).spec_timeout() == old(self).spec_timeout(),
            final(self)@ == cm_step(old(self)@, *frame),
            r@.len() == 0,
    {
        let data = &frame.data;
        if data.len() == 0 {
            return vec![];
        }
        let control_byte = data[0];
        if control_byte == 0x10 {
            self.handle_rts(frame)
        } else if control_byte == 0x11 {
            vec![]
        } else if control_byte == 0x13 {
            self.handle_eom(frame)
        } else if control_byte == 0x1C {
            self.handle_abort(frame)
        } else if control_byte == 0x20 {
            self.handle_bam_cm(frame)
        } else {
            vec![]
        }
    }

    fn open_assembly(frame: &RawFrame) -> (r: TpAssemblyState)
        requires
            frame.data@.len() >= 5,
        ensures
            r@ == opened_assembly(*frame),
            assembly_wf(r@),
    {
        let data = &frame.data;
        let total_size = (data[2] as usize) * 256 + (data[1] as usize);
        let pgn = if data.len() >= 8 {
            (data[7] as u32) * 65536 + (data[6] as u32) * 256 + (data[5] as u32)
        } else {
            0
        };
        let r = TpAssemblyState {
            source_address: frame.source_address(),
            destination_address: frame.destination_address(),
            pgn,
            priority: frame.priority(),
            total_size,
            page_number: 0,
            packets_received: Vec::new(),
            start_time: frame.timestamp / 1000,
            last_packet_time: frame.timestamp / 1000,
        };
        assert(r@.packets =~= Seq::<(u8, Seq<u8>)>::empty());
        r
    }

    fn handle_rts(&mut self, frame: &RawFrame) -> (r: Vec<TpReassemblyResult>)
        requires
            old(self).wf(),
            frame.data@.len() > 0,
            frame.data@[0] == 0x10,
        ensures
            final(self).wf(),
            final(self).spec_timeout() == old(self).spec_timeout(),
            final(self)@ == cm_step(old(self)@, *frame),
            r@.len() == 0,
    {
        if frame.data.len() < 5 {
            return vec![];
        }
        let transmitter = frame.source_address();
        if self.is_rts_pending(transmitter) {
            return vec![];
        }
        let assembly = Self::open_assembly(frame);
        self.insert_assembly(assembly);
        self.set_pending(transmitter, true);
        vec![]
    }

    fn handle_bam_cm(&mut self, frame: &RawFrame) -> (r: Vec<TpReassemblyResult>)
        requires
            old(self).wf(),
            frame.data@.len() > 0,
            frame.data@[0] == 0x20,
        ensures
            final(self).wf(),
            final(self).spec_timeout() == old(self).spec_timeout(),
            final(self)@ == cm_step(old(self)@, *frame),
            r@.len() == 0,
    {
        if frame.data.len() < 5 {
            return vec![];
        }
        let assembly = Self::open_assembly(frame);
        self.insert_assembly(assembly);
        vec![]
    }

    fn handle_eom(&mut self, frame: &RawFrame) -> (r: Vec<TpReassemblyResult>)
        requires
            old(self).wf(),
            frame.data@.len() > 0,
            frame.data@[0] == 0x13,
        ensures
            final(self).wf(),
            final(self).spec_timeout() == old(self).spec_timeout(),
            final(self)@ == cm_step(old(self)@, *frame),
            r@.len() == 0,
    {
        let transmitter = frame.source_address();
        let receiver = frame.destination_address();
        self.remove_key(transmitter, receiver);
        vec![]
    }

    fn handle_abort(&mut self, frame: &RawFrame) -> (r: Vec<TpReassemblyResult>)
        requires
            old(self).wf(),
            frame.data@.len() > 0,
            frame.data@[0] == 0x1C,
        ensures
            final(self).wf(),
            final(self).spec_timeout() == old(self).spec_timeout(),
            final(self)@ == cm_step(old(self)@, *frame),
            r@.len() == 0,
    {
        let transmitter = frame.source_address();
        let receiver = frame.destination_address();
        self.remove_key(transmitter, receiver);
        self.remove_key(transmitter, 0xFF);
        self.set_pending(transmitter, false);
        self.set_pending(receiver, false);
        vec![]
    }

    fn handle_data_packet(&mut self, frame: &RawFrame) -> (r: Vec<TpReassemblyResult>)
        requires
            old(self).wf(),
        ensures
            final(self).wf(),
            final(self).spec_timeout() == old(self).spec_timeout(),
            (final(self)@, outcomes(r@)) == dt_step(old(self)@, *frame),
    {
        proof {
            self.lemma_wf_assemblies();
        }
        let data = &frame.data;
        if data.len() < 2 {
            return vec![];
        }
        let packet_num = data[0];
        if packet_num == 0 {
            return vec![];
        }
        if data.len() - 1 > 7 {
            return vec![];
        }
        let source_address = frame.source_address();
        let dest_from_frame = frame.destination_address();
        let direct = find_assembly(&self.assemblies, source_address, dest_from_frame);
        let found = match direct {
            Some(i) => i,
            None => match find_assembly(&self.assemblies, source_address, 0xFF) {
                Some(i) => i,
                None => {
                    return vec![];
                },
            },
        };
        proof {
            lemma_table_index(self.assemblies@, found as int);
        }
        let ghost a = self.assemblies@[found as int]@;
        assert(dt_target(old(self)@, *frame) == Some(a));
        if has_packet(&self.assemblies[found].packets_received, packet_num) {
            return vec![];
        }
        proof {
            lemma_sorted_bound(a.packets);
        }
        let next_expected = self.assemblies[found].packets_received.len() + 1;
        if packet_num < (next_expected as u8) {
            return vec![];
        }
        let total_size = self.assemblies[found].total_size;
        let max_packets = (total_size + 6) / 7;
        if packet_num > (max_packets as u8) {
            return vec![];
        }
        assert(dt_accepted(old(self)@, *frame));
        // The assembly joined: under the frame's own key, or the sender's broadcast one.
        let i = found;
        let key_dest: u8 = if direct.is_some() {
            dest_from_frame
        } else {
            0xFF
        };
        assert(dt_key(old(self)@, *frame) == (source_address, key_dest));
        assert(old(self)@.assemblies[(source_address, key_dest)] == a);
        let payload = copy_byte_range(data.as_slice(), 1, data.len());
        assert(payload@ =~= frame.data@.subrange(1, frame.data@.len() as int));
        let old_state = copy_assembly(&self.assemblies[i]);
        let new_packets = insert_sorted(old_state.packets_received, packet_num, payload);
        let ghost ps = packets_view(new_packets@);
        assert(forall|j: int| 0 <= j < ps.len() ==> 1 <= #[trigger] ps[j].0 && ps[j].1.len() <= 7)
            by {
            assert forall|j: int| 0 <= j < ps.len() implies 1 <= #[trigger] ps[j].0
                && ps[j].1.len() <= 7 by {
                let kc = choose|kc: int| is_insert_pos(a.packets, packet_num, kc);
                let pre = a.packets.take(kc).push((packet_num, payload@));
                assert(ps == pre + a.packets.skip(kc));
                if j < kc {
                    assert(pre[j] == a.packets[j]);
                    assert(ps[j] == a.packets[j]);
                } else if j > kc {
                    assert(ps[j] == a.packets.skip(kc)[j - kc - 1]);
                    assert(ps[j] == a.packets[j - 1]);
                }
            }
        }
        let total_data_len = payload_len(&new_packets);
        if packet_num == (max_packets as u8) && total_data_len >= total_size {
            let mut assembled_data = concat_payloads(&new_packets);
            if assembled_data.len() > total_size {
                assembled_data.truncate(total_size);
            }
            assert(assembled_data@ =~= payload_concat(ps).take(total_size as int));
            let id = build_assembled_can_id(
                old_state.pgn,
                old_state.source_address,
                old_state.destination_address,
                old_state.priority,
            );
            let assembled = AssembledMessage {
                id,
                pgn: old_state.pgn,
                data: assembled_data,
                timestamp: frame.timestamp,
                source_name: None,
                dest_name: None,
            };
            self.remove_key(source_address, key_dest);
            self.set_pending(source_address, false);
            let r = vec![TpReassemblyResult::Complete(assembled)];
            assert(outcomes(r@) =~= dt_step(old(self)@, *frame).1);
            r
        } else {
            let updated = TpAssemblyState {
                source_address: old_state.source_address,
                destination_address: old_state.destination_address,
                pgn: old_state.pgn,
                priority: old_state.priority,
                total_size: old_state.total_size,
                page_number: old_state.page_number,
                packets_received: new_packets,
                start_time: old_state.start_time,
                last_packet_time: frame.timestamp / 1000,
            };
            self.insert_assembly(updated);
            let r = vec![TpReassemblyResult::Pending];
            assert(outcomes(r@) =~= seq![TpOutcome::Pending]);
            assert(self@.assemblies =~= dt_step(old(self)@, *frame).0.assemblies);
            r
        }
    }

    /// Drop every assembly whose age exceeds the timeout.
    pub fn cleanup_expired(&mut self, current_time_ms: u64)
        requires
            old(self).wf(),
        ensures
            final(self).wf(),
            final(self).spec_timeout() == old(self).spec_timeout(),
            final(self)@.assemblies == after_cleanup(
                old(self)@.assemblies,
                current_time_ms,
                old(self).spec_timeout(),
            ),
            final(self)@.pending == old(self)@.pending,
    {
        let ghost orig = self.assemblies@;
        let mut kept: Vec<TpAssemblyState> = Vec::new();
        let mut i: usize = 0;
        while i < self.assemblies.len()
            invariant
                i <= orig.len(),
                self.assemblies@ == orig,
                keys_distinct(orig),
                forall|j: int| 0 <= j < orig.len() ==> assembly_wf(#[trigger] orig[j]@),
                keys_distinct(kept@),
                forall|j: int| 0 <= j < kept@.len() ==> assembly_wf(#[trigger] kept@[j]@),
                forall|k: (u8, u8)|
                    table_map(kept@).contains_key(k) <==> exists|j: int|
                        0 <= j < i && key_of(orig[j]@) == k && !is_expired(
                            orig[j]@,
                            current_time_ms,
                            self.timeout_ms,
                        ),
                forall|j: int|
                    0 <= j < i && !is_expired(orig[j]@, current_time_ms, self.timeout_ms) ==> #[trigger] table_map(
                        kept@,
                    )[key_of(orig[j]@)] == orig[j]@,
            decreases orig.len() - i,
        {
            let a = &self.assemblies[i];
            let elapsed = if current_time_ms >= a.start_time {
                current_time_ms - a.start_time
            } else {
                0
            };
            if !(elapsed > self.timeout_ms) {
                let c = copy_assembly(a);
                assert(!table_map(kept@).contains_key(key_of(c@))) by {
                    if table_map(kept@).contains_key(key_of(c@)) {
                        let j = choose|j: int|
                            0 <= j < i && key_of(orig[j]@) == key_of(c@) && !is_expired(
                                orig[j]@,
                                current_time_ms,
                                self.timeout_ms,
                            );
                        assert(key_of(orig[j]@) != key_of(orig[i as int]@));
                    }
                }
                proof {
                    lemma_table_push(kept@, c);
                }
                kept.push(c);
                assert forall|j: int|
                    0 <= j < i + 1 && !is_expired(
                        orig[j]@,
                        current_time_ms,
                        self.timeout_ms,
                    ) implies #[trigger] table_map(kept@)[key_of(orig[j]@)] == orig[j]@ by {
                    if j < i {
                        assert(key_of(orig[j]@) != key_of(orig[i as int]@));
                    }
                }
            }
            i = i + 1;
        }
        self.assemblies = kept;
        assert(self@.assemblies =~= after_cleanup(
            old(self)@.assemblies,
            current_time_ms,
            self.timeout_ms,
        )) by {
            assert forall|k: (u8, u8)| #[trigger]
                after_cleanup(
                    old(self)@.assemblies,
                    current_time_ms,
                    self.timeout_ms,
                ).contains_key(k) implies self@.assemblies.contains_key(k) by {
                let j = choose|j: int| 0 <= j < orig.len() && key_of(orig[j]@) == k;
                lemma_table_index(orig, j);
            }
            assert forall|k: (u8, u8)| #[trigger] self@.assemblies.contains_key(k) implies after_cleanup(
                old(self)@.assemblies,
                current_time_ms,
                self.timeout_ms,
            ).contains_key(k) && self@.assemblies[k] == old(self)@.assemblies[k] by {
                let j = choose|j: int|
                    0 <= j < i && key_of(orig[j]@) == k && !is_expired(
                        orig[j]@,
                        current_time_ms,
                        self.timeout_ms,
                    );
                lemma_table_index(orig, j);
            }
        }
    }

    /// Get the number of active assemblies.
    pub fn active_assemblies_count(&self) -> (r: usize)
        requires
            self.wf(),
        ensures
            r == self@.assemblies.len(),
    {
        proof {
            lemma_table_len(self.assemblies@);
        }
        self.assemblies.len()
    }

    /// Clear all pending assemblies and RTS records.
    pub fn clear_all(&mut self)
        requires
            old(self).wf(),
        ensures
            final(self).wf(),
            final(self).spec_timeout() == old(self).spec_timeout(),
            final(self)@.assemblies == Map::<(u8, u8), AssemblyView>::empty(),
            final(self)@.pending == Set::<u8>::empty(),
    {
        self.assemblies.clear();
        self.rts_pending_sources.clear();
        assert(self@.assemblies =~= Map::<(u8, u8), AssemblyView>::empty());
        assert(self@.pending =~= Set::<u8>::empty());
    }
}

proof fn lemma_table_len(s: Seq<TpAssemblyState>)
    requires
        keys_distinct(s),
    ensures
        table_map(s).dom().finite(),
        table_map(s).len() == s.len(),
    decreases s.len(),
{
    if s.len() == 0 {
        assert(table_map(s) =~= Map::<(u8, u8), AssemblyView>::empty());
    } else {
        let t = s.drop_last();
        assert forall|i: int, j: int| 0 <= i < j < t.len() implies key_of(t[i]@) != key_of(t[j]@) by {
            assert(t[i] == s[i]);
            assert(t[j] == s[j]);
        }
        lemma_table_len(t);
        assert(!table_map(t).contains_key(key_of(s.last()@))) by {
            if table_map(t).contains_key(key_of(s.last()@)) {
                let j = choose|j: int| 0 <= j < t.len() && key_of(t[j]@) == key_of(s.last()@);
                assert(t[j] == s[j]);
            }
        }
        lemma_table_push(t, s.last());
        assert(t.push(s.last()) =~= s);
    }
}


/// A cleanup keeps exactly the assemblies that have not expired, unchanged.
pub proof fn lemma_cleanup_keeps_live(m: Map<(u8, u8), AssemblyView>, now: u64, timeout: u64)
    ensures
        forall|k: (u8, u8)|
            #[trigger] after_cleanup(m, now, timeout).contains_key(k) <==> m.contains_key(k)
                && !is_expired(m[k], now, timeout),
        forall|k: (u8, u8)|
            #[trigger] after_cleanup(m, now, timeout).contains_key(k) ==> after_cleanup(
                m,
                now,
                timeout,
            )[k] == m[k],
{
}

} // verus!
