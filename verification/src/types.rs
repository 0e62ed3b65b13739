//! Data models for CAN frames, assembled messages and decoded output.
use vstd::prelude::*;

verus! {

// ─── J1939 29-bit identifier fields ─────────────────────────────────────────

/// PDU format byte (PF): bits 16..24 of the identifier.
pub open spec fn id_pdu_format(id: u32) -> u32 {
    (id >> 16u32) & 0xFFu32
}

/// PDU specific byte (PS): bits 8..16 of the identifier.
pub open spec fn id_pdu_specific(id: u32) -> u32 {
    (id >> 8u32) & 0xFFu32
}

/// Source address: the low byte of the identifier.
pub open spec fn id_source(id: u32) -> u8 {
    (id & 0xFFu32) as u8
}

/// Priority: bits 26..29 of the identifier.
pub open spec fn id_priority(id: u32) -> u8 {
    ((id >> 26u32) & 0x7u32) as u8
}

/// A PDU2 identifier (PF >= 0xF0) is a broadcast whose PS byte is a group extension.
pub open spec fn id_is_pdu2(id: u32) -> bool {
    id_pdu_format(id) >= 0xF0
}

/// Destination address: PS for PDU1 identifiers, global (0xFF) for PDU2.
pub open spec fn id_destination(id: u32) -> u8 {
    if id_is_pdu2(id) {
        0xFFu8
    } else {
        id_pdu_specific(id) as u8
    }
}

/// The 18 identifier bits above the source address, PS included.
pub open spec fn id_raw_pgn(id: u32) -> u32 {
    (id >> 8u32) & 0x3FFFFu32
}

/// Parameter group number: for PDU1 identifiers the PS byte (a destination) is cleared.
pub open spec fn id_pgn(id: u32) -> u32 {
    if id_is_pdu2(id) {
        (id >> 8u32) & 0x3FFFFu32
    } else {
        (id >> 8u32) & 0x3FF00u32
    }
}

/// Source address of a 29-bit identifier.
pub fn can_id_source(id: u32) -> (r: u8)
    ensures
        r == id_source(id),
{
    (id & 0xFFu32) as u8
}

/// Destination address of a 29-bit identifier (0xFF for PDU2 broadcasts).
pub fn can_id_destination(id: u32) -> (r: u8)
    ensures
        r == id_destination(id),
{
    let pf = (id >> 16u32) & 0xFFu32;
    if pf >= 0xF0 {
        0xFFu8
    } else {
        ((id >> 8u32) & 0xFFu32) as u8
    }
}

/// Parameter group number of a 29-bit identifier.
pub fn can_id_pgn(id: u32) -> (r: u32)
    ensures
        r == id_pgn(id),
{
    let pf = (id >> 16u32) & 0xFFu32;
    if pf >= 0xF0 {
        (id >> 8u32) & 0x3FFFFu32
    } else {
        (id >> 8u32) & 0x3FF00u32
    }
}

/// Priority (0..=7) of a 29-bit identifier.
pub fn can_id_priority(id: u32) -> (r: u8)
    ensures
        r == id_priority(id),
        r <= 7,
{
    let p = (id >> 26u32) & 0x7u32;
    assert(((id >> 26u32) & 0x7u32) <= 7) by (bit_vector);
    p as u8
}

// ─── Raw frames ──────────────────────────────────────────────────────────────

/// A single CAN frame as read from the bus or a capture file.
#[derive(Debug, Clone, PartialEq, Eq)]
pub struct RawFrame {
    /// Capture time in microseconds.
    pub timestamp: u64,
    /// Extended 29-bit identifier.
    pub can_id: u32,
    /// Payload bytes (at most 8 on a classic CAN bus).
    pub data: Vec<u8>,
}

impl RawFrame {
    /// Build a frame from its identifier, payload and capture time.
    pub fn new(can_id: u32, data: Vec<u8>, timestamp: u64) -> (r: Self)
        ensures
            r.can_id == can_id,
            r.data@ == data@,
            r.timestamp == timestamp,
    {
        RawFrame { timestamp, can_id, data }
    }

    /// Parameter group number carried by the identifier.
    pub fn pgn(&self) -> (r: u32)
        ensures
            r == id_pgn(self.can_id),
    {
        can_id_pgn(self.can_id)
    }

    /// Source address of the frame.
    pub fn source_address(&self) -> (r: u8)
        ensures
            r == id_source(self.can_id),
    {
        can_id_source(self.can_id)
    }

    /// Destination address (0xFF for broadcasts).
    pub fn destination_address(&self) -> (r: u8)
        ensures
            r == id_destination(self.can_id),
    {
        can_id_destination(self.can_id)
    }

    /// Priority of the frame.
    pub fn priority(&self) -> (r: u8)
        ensures
            r == id_priority(self.can_id),
            r <= 7,
    {
        can_id_priority(self.can_id)
    }
}

// ─── Assembled messages ─────────────────────────────────────────────────────

/// A complete message: a single frame, or a transport-protocol transfer put back together.
#[derive(Debug, Clone, PartialEq, Eq)]
pub struct AssembledMessage {
    /// Identifier the message is reported under.
    pub id: u32,
    /// Parameter group number of the payload.
    pub pgn: u32,
    /// Payload bytes.
    pub data: Vec<u8>,
    /// Time of the last frame, in microseconds.
    pub timestamp: u64,
    /// NAME of the source device, when known.
    pub source_name: Option<u64>,
    /// NAME of the destination device, when known.
    pub dest_name: Option<u64>,
}

impl AssembledMessage {
    /// Build a message whose PGN is the 18 identifier bits above the source address.
    pub fn new(id: u32, data: Vec<u8>, timestamp: u64) -> (r: Self)
        ensures
            r.id == id,
            r.pgn == id_raw_pgn(id),
            r.data@ == data@,
            r.timestamp == timestamp,
            r.source_name is None,
            r.dest_name is None,
    {
        AssembledMessage {
            id,
            pgn: (id >> 8u32) & 0x3FFFFu32,
            data,
            timestamp,
            source_name: None,
            dest_name: None,
        }
    }

    /// Build a message with an explicit PGN.
    pub fn with_pgn(id: u32, pgn: u32, data: Vec<u8>, timestamp: u64) -> (r: Self)
        ensures
            r.id == id,
            r.pgn == pgn,
            r.data@ == data@,
            r.timestamp == timestamp,
            r.source_name is None,
            r.dest_name is None,
    {
        AssembledMessage { id, pgn, data, timestamp, source_name: None, dest_name: None }
    }

    /// The message's parameter group number.
    pub fn pgn(&self) -> (r: u32)
        ensures
            r == self.pgn,
    {
        self.pgn
    }

    /// Source address taken from the identifier.
    pub fn source(&self) -> (r: u8)
        ensures
            r == id_source(self.id),
    {
        can_id_source(self.id)
    }

    /// Destination address taken from the identifier (0xFF for broadcasts).
    pub fn destination(&self) -> (r: u8)
        ensures
            r == id_destination(self.id),
    {
        can_id_destination(self.id)
    }
}

// ─── Decoded output ──────────────────────────────────────────────────────────

/// State of a two-bit J1939 status flag.
#[derive(Debug, Clone, Copy, PartialEq, Eq, Structural)]
pub enum FlagValue {
    Off,
    On,
    Error,
    Unavailable,
}

/// Severity of a free-text decoder message.
#[derive(Debug, Clone, Copy, PartialEq, Eq, Structural)]
pub enum Severity {
    Info,
    Warning,
    Error,
}

/// A floating-point reading: its IEEE-754 bit pattern and its two renderings, the shortest
/// text that reads back as the same number (how output lines show it) and the text with
/// four decimals (how detail strings show it).
#[derive(Debug, Clone, PartialEq, Eq)]
pub struct FloatValue {
    pub bits: u64,
    pub shortest: String,
    pub fixed4: String,
}

/// `2^e`.
pub open spec fn two_to(e: nat) -> nat
    decreases e,
{
    if e == 0 {
        1
    } else {
        2 * two_to((e - 1) as nat)
    }
}

/// Position of the highest set bit of `m` (0 for 0 and 1).
pub open spec fn top_bit(m: nat) -> nat
    decreases m,
{
    if m <= 1 {
        0
    } else {
        1 + top_bit(m / 2)
    }
}

/// IEEE-754 bit pattern of the double equal to the integer `n` (exact for |n| <= 2^53):
/// sign, biased exponent of the highest set bit, and the bits below it as the fraction.
pub open spec fn int_f64_bits(n: int) -> nat {
    if n == 0 {
        0
    } else {
        let m: nat = if n < 0 {
            (-n) as nat
        } else {
            n as nat
        };
        let e = top_bit(m);
        ((if n < 0 {
            two_to(63)
        } else {
            0
        }) + (1023 + e) * two_to(52) + (m - two_to(e)) * two_to((52 - e) as nat)) as nat
    }
}

proof fn lemma_two_to_add(a: nat, b: nat)
    ensures
        two_to(a + b) == two_to(a) * two_to(b),
    decreases a,
{
    if a == 0 {
        assert(two_to(0) == 1);
        assert(a + b == b);
    } else {
        let a1 = (a - 1) as nat;
        lemma_two_to_add(a1, b);
        assert(a + b == (a1 + b) + 1);
        assert(two_to(a + b) == 2 * two_to(a1 + b));
        assert(two_to(a) == 2 * two_to(a1));
        assert(two_to(a) * two_to(b) == 2 * (two_to(a1) * two_to(b))) by (nonlinear_arith)
            requires
                two_to(a) == 2 * two_to(a1),
        ;
    }
}

proof fn lemma_two_to_mono(a: nat, b: nat)
    requires
        a <= b,
    ensures
        two_to(a) <= two_to(b),
    decreases b,
{
    if a < b {
        lemma_two_to_mono(a, (b - 1) as nat);
    }
}

proof fn lemma_top_bit(m: nat)
    requires
        m >= 1,
    ensures
        two_to(top_bit(m)) <= m < 2 * two_to(top_bit(m)),
    decreases m,
{
    if m > 1 {
        lemma_top_bit(m / 2);
    }
}

fn top_bit_of(m: u64) -> (e: u64)
    requires
        1 <= m <= 0x8000_0000,
    ensures
        e == top_bit(m as nat),
        e <= 31,
{
    let mut x: u64 = m;
    let mut e: u64 = 0;
    while x > 1
        invariant
            1 <= x <= m,
            m <= 0x8000_0000,
            e + x <= m + 1,
            top_bit(m as nat) == e + top_bit(x as nat),
        decreases x,
    {
        x = x / 2;
        e = e + 1;
    }
    proof {
        lemma_top_bit(m as nat);
        lemma_two_to_constants();
        if e > 31 {
            lemma_two_to_mono(32, e as nat);
        }
    }
    e
}

fn two_to_u64(e: u64) -> (p: u64)
    requires
        e <= 63,
    ensures
        p == two_to(e as nat),
{
    let mut p: u64 = 1;
    let mut i: u64 = 0;
    while i < e
        invariant
            i <= e <= 63,
            p == two_to(i as nat),
        decreases e - i,
    {
        proof {
            lemma_two_to_mono((i + 1) as nat, 63);
            lemma_two_to_constants();
        }
        p = p * 2;
        i = i + 1;
    }
    p
}

proof fn lemma_two_to_constants()
    ensures
        two_to(32) == 0x1_0000_0000,
        two_to(52) == 0x10_0000_0000_0000,
        two_to(63) == 0x8000_0000_0000_0000,
{
    reveal_with_fuel(two_to, 64);
}

fn int_bits(n: i32) -> (r: u64)
    ensures
        r == int_f64_bits(n as int),
{
    if n == 0 {
        return 0;
    }
    let m: u64 = if n < 0 {
        (-(n as i64)) as u64
    } else {
        n as u64
    };
    let e = top_bit_of(m);
    let p = two_to_u64(e);
    let q = two_to_u64(52 - e);
    proof {
        lemma_top_bit(m as nat);
        lemma_two_to_add(e as nat, (52 - e) as nat);
        lemma_two_to_constants();
        lemma_two_to_mono(0, (52 - e) as nat);
        assert((m - p) * q < p * q) by (nonlinear_arith)
            requires
                m - p < p,
                q > 0,
                m >= p,
        ;
    }
    let frac: u64 = (m - p) * q;
    let sign: u64 = if n < 0 {
        0x8000_0000_0000_0000
    } else {
        0
    };
    let exp: u64 = (1023 + e) * 0x10_0000_0000_0000;
    sign + exp + frac
}

impl FloatValue {
    /// The reading of an integer: its double's bit pattern, the integer in decimal as the
    /// shortest form, and the integer with four zero decimals.
    pub fn from_i32(n: i32) -> (r: FloatValue)
        ensures
            r.bits == int_f64_bits(n as int),
            r.shortest@ == crate::text::signed_dec_str(n as int),
            r.fixed4@ == crate::text::signed_dec_str(n as int) + ".0000"@,
    {
        let mut shortest = String::new();
        crate::text::push_signed_dec(&mut shortest, n as i64);
        let mut fixed4 = String::new();
        crate::text::push_signed_dec(&mut fixed4, n as i64);
        crate::text::push_str(&mut fixed4, ".0000");
        FloatValue { bits: int_bits(n), shortest, fixed4 }
    }
}

/// A decoded value.
#[derive(Debug, Clone, PartialEq, Eq)]
pub enum Numeric {
    Int(i64),
    Float(FloatValue),
    Hex(u64),
    Bool(bool),
    Flag(FlagValue),
}

/// One line of decoded output.
#[derive(Debug, Clone, PartialEq, Eq)]
pub enum DecodedField {
    Value { title: String, value: Numeric, unit: Option<String>, decimal_places: Option<u8> },
    StringMessage { severity: Severity, text: String },
}

/// A parameter value reported for a device, keyed by the device NAME.
#[derive(Debug, Clone, PartialEq, Eq)]
pub struct DeviceUpdate {
    pub target_name: u64,
    pub param_id: u32,
    pub value: Numeric,
}

/// Identity of a message stream (PGN plus a decoder-specific sub-topic).
pub type TopicId = u64;

/// Topic identity: the PGN in the high 32 bits, the sub-topic in the low 32 bits.
pub open spec fn spec_topic_id(pgn: u32, sub_topic: u32) -> u64 {
    ((pgn as u64) << 32u64) | (sub_topic as u64)
}

/// Combine a PGN and a sub-topic into one topic identity.
pub fn create_topic_id(pgn: u32, sub_topic: u32) -> (r: TopicId)
    ensures
        r == spec_topic_id(pgn, sub_topic),
{
    ((pgn as u64) << 32u64) | (sub_topic as u64)
}

/// A fully decoded message.
#[derive(Debug, Clone, PartialEq, Eq)]
pub struct DecodedMessage {
    pub title: String,
    pub topic_id: TopicId,
    pub outputs: Vec<DecodedField>,
    pub updates: Vec<DeviceUpdate>,
    pub assembled_message: AssembledMessage,
}

impl DecodedMessage {
    /// A message with a title and no decoded output yet.
    pub fn with_assembled(title: String, assembled_message: AssembledMessage) -> (r: Self)
        ensures
            r.title@ == title@,
            r.topic_id == 0,
            r.outputs@.len() == 0,
            r.updates@.len() == 0,
            r.assembled_message == assembled_message,
    {
        DecodedMessage {
            title,
            topic_id: 0,
            outputs: Vec::new(),
            updates: Vec::new(),
            assembled_message,
        }
    }

    /// Time of the message in microseconds.
    pub fn timestamp(&self) -> (r: u64)
        ensures
            r == self.assembled_message.timestamp,
    {
        self.assembled_message.timestamp
    }

    /// Source address of the message.
    pub fn source_address(&self) -> (r: u8)
        ensures
            r == id_source(self.assembled_message.id),
    {
        self.assembled_message.source()
    }

    /// Destination address of the message (0xFF for broadcasts).
    pub fn dest_address(&self) -> (r: u8)
        ensures
            r == id_destination(self.assembled_message.id),
    {
        self.assembled_message.destination()
    }

    /// Parameter group number of the message.
    pub fn pgn(&self) -> (r: u32)
        ensures
            r == self.assembled_message.pgn,
    {
        self.assembled_message.pgn
    }

    /// Payload bytes of the message.
    pub fn data_bytes(&self) -> (r: &[u8])
        ensures
            r@ == self.assembled_message.data@,
    {
        self.assembled_message.data.as_slice()
    }
}

/// Output of a stateful decoder for one payload.
#[derive(Debug, Clone, PartialEq, Eq)]
pub struct DecodedInfo {
    pub title: String,
    pub topic_id: TopicId,
    pub outputs: Vec<DecodedField>,
    pub updates: Vec<DeviceUpdate>,
}

impl DecodedInfo {
    /// An empty result with a title and topic.
    pub fn new(title: String, topic_id: TopicId) -> (r: Self)
        ensures
            r.title@ == title@,
            r.topic_id == topic_id,
            r.outputs@.len() == 0,
            r.updates@.len() == 0,
    {
        DecodedInfo { title, topic_id, outputs: Vec::new(), updates: Vec::new() }
    }
}

/// Addressing and timing of the message handed to a stateful decoder.
#[derive(Debug, Clone, Copy, PartialEq, Eq)]
pub struct DecodeContext {
    pub pgn: u32,
    pub priority: u8,
    pub src_addr: u8,
    pub dest_addr: u8,
    pub src_name: Option<u64>,
    pub dest_name: Option<u64>,
    pub timestamp: u64,
}

/// Why a stateful decoder rejected a payload.
#[derive(Debug, Clone, PartialEq, Eq)]
pub enum DecodeError {
    InvalidLength { expected: usize, found: usize },
    MalformedData(String),
}

/// The field is a value with this title, value, unit and decimal places.
pub open spec fn field_is_value(
    f: DecodedField,
    title: Seq<char>,
    v: Numeric,
    unit: Option<Seq<char>>,
    dp: Option<u8>,
) -> bool {
    match f {
        DecodedField::Value { title: t, value, unit: u, decimal_places } => {
            &&& t@ == title
            &&& value == v
            &&& match (u, unit) {
                (Some(a), Some(b)) => a@ == b,
                (None, None) => true,
                _ => false,
            }
            &&& decimal_places == dp
        },
        _ => false,
    }
}

/// The field is a text message with this severity and text.
pub open spec fn field_is_text(f: DecodedField, sev: Severity, text: Seq<char>) -> bool {
    match f {
        DecodedField::StringMessage { severity, text: t } => severity == sev && t@ == text,
        _ => false,
    }
}

impl DecodedField {
    /// A value field.
    pub fn value(title: &str, value: Numeric, unit: Option<&str>, decimal_places: Option<u8>) -> (r:
        Self)
        ensures
            field_is_value(
                r,
                title@,
                value,
                match unit {
                    Some(u) => Some(u@),
                    None => None,
                },
                decimal_places,
            ),
    {
        let unit_string = match unit {
            Some(u) => Some(String::from_str(u)),
            None => None,
        };
        DecodedField::Value {
            title: String::from_str(title),
            value,
            unit: unit_string,
            decimal_places,
        }
    }

    /// A text message field.
    pub fn text(severity: Severity, text: String) -> (r: Self)
        ensures
            field_is_text(r, severity, text@),
    {
        DecodedField::StringMessage { severity, text }
    }
}

/// What one output field holds: a value (title, value, unit, decimal places) or a text.
pub enum FieldSpec {
    Val(Seq<char>, Numeric, Option<Seq<char>>, Option<u8>),
    Txt(Severity, Seq<char>),
}

/// The field holds what the description says.
pub open spec fn field_matches(f: DecodedField, s: FieldSpec) -> bool {
    match s {
        FieldSpec::Val(t, v, u, dp) => field_is_value(f, t, v, u, dp),
        FieldSpec::Txt(sev, t) => field_is_text(f, sev, t),
    }
}

/// The fields hold what the descriptions say, one for one.
pub open spec fn fields_match(fs: Seq<DecodedField>, ss: Seq<FieldSpec>) -> bool {
    &&& fs.len() == ss.len()
    &&& forall|i: int| 0 <= i < fs.len() ==> #[trigger] field_matches(fs[i], ss[i])
}

/// A text field with a prefix, present only when the text is known.
pub open spec fn optional_text(prefix: Seq<char>, t: Option<Seq<char>>) -> Seq<FieldSpec> {
    match t {
        Some(x) => seq![FieldSpec::Txt(Severity::Info, prefix + x)],
        None => Seq::empty(),
    }
}

/// The view of an optional string.
pub open spec fn opt_view(s: Option<String>) -> Option<Seq<char>> {
    match s {
        Some(x) => Some(x@),
        None => None,
    }
}

/// Appends a field that matches its description.
pub(crate) fn push_field(fs: &mut Vec<DecodedField>, f: DecodedField, Ghost(ss): Ghost<Seq<FieldSpec>>, Ghost(s): Ghost<FieldSpec>)
    requires
        fields_match(old(fs)@, ss),
        field_matches(f, s),
    ensures
        fields_match(final(fs)@, ss.push(s)),
{
    fs.push(f);
    assert forall|i: int| 0 <= i < fs@.len() implies #[trigger] field_matches(fs@[i], ss.push(s)[i]) by {
        if i < ss.len() {
            assert(fs@[i] == old(fs)@[i]);
        }
    }
}

} // verus!
