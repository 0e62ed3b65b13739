//! ISO 11783-10 task controller process data: command, element, DDI and value.
use vstd::prelude::*;
use crate::types::{
    DecodeError,
    DecodeContext,
    DecodedField,
    DecodedInfo,
    Numeric,
    Severity,
    FloatValue,
    FieldSpec,
    fields_match,
    opt_view,
    push_field,
    create_topic_id,
    spec_topic_id,
};
use crate::text::{
    push_str,
    push_hex,
    push_hex_padded,
    push_dec,
    push_signed_dec,
    hex_str,
    pad_left,
    dec_str,
    signed_dec_str,
};
use crate::proprietary::ddi::canot::{is_proprietary, in_proprietary_range};

verus! {

/// ISO 11783-10 Task Controller Process Data PGN (51968 / 0xCB00).
pub const PROCESS_DATA_PGN: u32 = 0xCB00;

/// Command of a process data message (low nibble of the first byte).
#[derive(Debug, Clone, Copy, PartialEq, Eq, Structural)]
pub enum TaskCommand {
    TechnicalCapabilities,
    DeviceDescriptor,
    RequestValue,
    Value,
    MeasurementTimeInterval,
    MeasurementDistanceInterval,
    MeasurementMinimumWithinThreshold,
    MeasurementMaximumWithinThreshold,
    MeasurementChangeThreshold,
    PeerControlAssignment,
    SetValueAndAcknowledge,
    Reserved1,
    Reserved2,
    ProcessDataAcknowledge,
    StatusMessage,
    ClientTask,
}

/// The command coded by the low nibble of a byte.
pub open spec fn command_of(v: u8) -> TaskCommand {
    let n = v % 16;
    if n == 0 {
        TaskCommand::TechnicalCapabilities
    } else if n == 1 {
        TaskCommand::DeviceDescriptor
    } else if n == 2 {
        TaskCommand::RequestValue
    } else if n == 3 {
        TaskCommand::Value
    } else if n == 4 {
        TaskCommand::MeasurementTimeInterval
    } else if n == 5 {
        TaskCommand::MeasurementDistanceInterval
    } else if n == 6 {
        TaskCommand::MeasurementMinimumWithinThreshold
    } else if n == 7 {
        TaskCommand::MeasurementMaximumWithinThreshold
    } else if n == 8 {
        TaskCommand::MeasurementChangeThreshold
    } else if n == 9 {
        TaskCommand::PeerControlAssignment
    } else if n == 10 {
        TaskCommand::SetValueAndAcknowledge
    } else if n == 11 {
        TaskCommand::Reserved1
    } else if n == 12 {
        TaskCommand::Reserved2
    } else if n == 13 {
        TaskCommand::ProcessDataAcknowledge
    } else if n == 14 {
        TaskCommand::StatusMessage
    } else {
        TaskCommand::ClientTask
    }
}

/// The code of a command (0-15).
pub open spec fn command_code(c: TaskCommand) -> u8 {
    match c {
        TaskCommand::TechnicalCapabilities => 0,
        TaskCommand::DeviceDescriptor => 1,
        TaskCommand::RequestValue => 2,
        TaskCommand::Value => 3,
        TaskCommand::MeasurementTimeInterval => 4,
        TaskCommand::MeasurementDistanceInterval => 5,
        TaskCommand::MeasurementMinimumWithinThreshold => 6,
        TaskCommand::MeasurementMaximumWithinThreshold => 7,
        TaskCommand::MeasurementChangeThreshold => 8,
        TaskCommand::PeerControlAssignment => 9,
        TaskCommand::SetValueAndAcknowledge => 10,
        TaskCommand::Reserved1 => 11,
        TaskCommand::Reserved2 => 12,
        TaskCommand::ProcessDataAcknowledge => 13,
        TaskCommand::StatusMessage => 14,
        TaskCommand::ClientTask => 15,
    }
}

impl From<u8> for TaskCommand {
    fn from(value: u8) -> (r: Self) {
        let n = value % 16;
        if n == 0 {
            TaskCommand::TechnicalCapabilities
        } else if n == 1 {
            TaskCommand::DeviceDescriptor
        } else if n == 2 {
            TaskCommand::RequestValue
        } else if n == 3 {
            TaskCommand::Value
        } else if n == 4 {
            TaskCommand::MeasurementTimeInterval
        } else if n == 5 {
            TaskCommand::MeasurementDistanceInterval
        } else if n == 6 {
            TaskCommand::MeasurementMinimumWithinThreshold
        } else if n == 7 {
            TaskCommand::MeasurementMaximumWithinThreshold
        } else if n == 8 {
            TaskCommand::MeasurementChangeThreshold
        } else if n == 9 {
            TaskCommand::PeerControlAssignment
        } else if n == 10 {
            TaskCommand::SetValueAndAcknowledge
        } else if n == 11 {
            TaskCommand::Reserved1
        } else if n == 12 {
            TaskCommand::Reserved2
        } else if n == 13 {
            TaskCommand::ProcessDataAcknowledge
        } else if n == 14 {
            TaskCommand::StatusMessage
        } else {
            TaskCommand::ClientTask
        }
    }
}

impl vstd::std_specs::convert::FromSpecImpl<u8> for TaskCommand {
    open spec fn obeys_from_spec() -> bool {
        true
    }

    open spec fn from_spec(v: u8) -> Self {
        command_of(v)
    }
}

impl TaskCommand {
    /// The command's code (0-15).
    pub fn code(&self) -> (r: u8)
        ensures
            r == command_code(*self),
    {
        match self {
            TaskCommand::TechnicalCapabilities => 0,
            TaskCommand::DeviceDescriptor => 1,
            TaskCommand::RequestValue => 2,
            TaskCommand::Value => 3,
            TaskCommand::MeasurementTimeInterval => 4,
            TaskCommand::MeasurementDistanceInterval => 5,
            TaskCommand::MeasurementMinimumWithinThreshold => 6,
            TaskCommand::MeasurementMaximumWithinThreshold => 7,
            TaskCommand::MeasurementChangeThreshold => 8,
            TaskCommand::PeerControlAssignment => 9,
            TaskCommand::SetValueAndAcknowledge => 10,
            TaskCommand::Reserved1 => 11,
            TaskCommand::Reserved2 => 12,
            TaskCommand::ProcessDataAcknowledge => 13,
            TaskCommand::StatusMessage => 14,
            TaskCommand::ClientTask => 15,
        }
    }
}

/// Parsed process data message fields.
#[derive(Debug, Clone, Copy, PartialEq, Eq, Structural)]
pub struct TaskControllerData {
    pub command: TaskCommand,
    pub element_id: u16,
    pub ddi: u16,
    pub value: i32,
}

/// Sub-topic of a process data stream: element above the command nibble, DDI above both.
pub open spec fn tc_sub_topic(d: TaskControllerData) -> u32 {
    ((((d.element_id as u32) * 16) % 0x10000) + command_code(d.command) + (d.ddi as u32) * 0x10000)
        as u32
}

impl TaskControllerData {
    /// Topic identity of the process data stream this message belongs to.
    pub fn topic_id(&self) -> (r: u64)
        ensures
            r == spec_topic_id(PROCESS_DATA_PGN, tc_sub_topic(*self)),
    {
        let low: u32 = ((self.element_id as u32) * 16) % 0x10000;
        let sub: u32 = low + (self.command.code() as u32) + (self.ddi as u32) * 0x10000;
        create_topic_id(PROCESS_DATA_PGN, sub)
    }
}

/// The fields of an eight-byte process data payload: command and element from the first
/// byte's low and high nibbles, DDI from bytes 2-3 and value from bytes 4-7 (little-endian).
pub open spec fn parsed_data(p: Seq<u8>) -> TaskControllerData {
    TaskControllerData {
        command: command_of(p[0]),
        element_id: (p[0] / 16) as u16,
        ddi: (p[2] + 256 * p[3]) as u16,
        value: ((p[4] + 256 * p[5] + 65536 * p[6] + 16777216 * p[7]) as u32) as i32,
    }
}

/// Name and unit of a data dictionary entry.
#[derive(Debug, Clone)]
pub struct DdiDescription {
    pub name: String,
    pub unit: Option<String>,
}

/// Fields of a Value command: element, DDI, the value (named by its dictionary entry when
/// known, in physical units when converted), and the raw value.
pub open spec fn value_fields(
    d: TaskControllerData,
    info: Option<DdiDescription>,
    physical: Option<FloatValue>,
) -> Seq<FieldSpec> {
    seq![
        FieldSpec::Val("Element"@, Numeric::Int(d.element_id as i64), None, None),
        FieldSpec::Val("DDI"@, Numeric::Int(d.ddi as i64), None, None),
        match info {
            Some(i) => match physical {
                Some(p) => FieldSpec::Val(i.name@, Numeric::Float(p), opt_view(i.unit), Some(2)),
                None => FieldSpec::Val(i.name@, Numeric::Int(d.value as i64), opt_view(i.unit), None),
            },
            None => if in_proprietary_range(d.ddi) {
                FieldSpec::Val("Unknown Proprietary"@, Numeric::Int(d.value as i64), None, None)
            } else {
                FieldSpec::Val("Unknown"@, Numeric::Int(d.value as i64), None, None)
            },
        },
        FieldSpec::Val("RAW"@, Numeric::Int(d.value as i64), None, None),
    ]
}

/// Title of a message with a command other than Value.
pub open spec fn unknown_title(d: TaskControllerData) -> Seq<char> {
    "TaskController Unknown Command 0x"@ + hex_str(command_code(d.command) as nat, true)
}

/// Warning text of a message with a command other than Value.
pub open spec fn unknown_text(d: TaskControllerData) -> Seq<char> {
    "TaskController command=0x"@ + pad_left(hex_str(command_code(d.command) as nat, true), 2, '0')
        + " element="@ + dec_str(d.element_id as nat) + " DDI="@ + dec_str(d.ddi as nat)
        + " value="@ + signed_dec_str(d.value as int)
}

fn value_field(title: &str, v: i64) -> (r: DecodedField)
    ensures
        crate::types::field_is_value(r, title@, Numeric::Int(v), None, None),
{
    DecodedField::value(title, Numeric::Int(v), None, None)
}

/// Decoder for process data messages; remembers the elements of Value commands and the
/// proprietary dictionaries to consult.
#[derive(Debug, Clone)]
pub struct TaskControllerDecoder {
    last_elements: Vec<u16>,
    proprietary_handlers: Vec<String>,
}

/// The dictionaries named include the CANoT table.
pub open spec fn consults_canot(h: Seq<String>) -> bool {
    exists|i: int| 0 <= i < h.len() && #[trigger] h[i]@ == "canot"@
}

/// A proprietary DDI that the CANoT table defines, with the table consulted.
pub open spec fn canot_defines(h: Seq<String>, ddi: u16) -> bool {
    in_proprietary_range(ddi) && consults_canot(h) && crate::proprietary::ddi::canot::canot_entry(ddi) is Some
}

/// The reading holds the integer `v`: its double's bits and its renderings.
pub open spec fn is_int_reading(p: FloatValue, v: i32) -> bool {
    &&& p.bits == crate::types::int_f64_bits(v as int)
    &&& p.shortest@ == signed_dec_str(v as int)
    &&& p.fixed4@ == signed_dec_str(v as int) + ".0000"@
}

/// What decoding `payload` gives and how it changes the decoder: a payload shorter than
/// eight bytes is an `InvalidLength` error; a longer one decodes to a value (which records
/// its element) or to an unknown-command warning.
pub open spec fn decode_outcome(
    before: TaskControllerDecoder,
    after: TaskControllerDecoder,
    payload: Seq<u8>,
    r: Result<Option<DecodedInfo>, DecodeError>,
) -> bool {
    &&& after.handlers() == before.handlers()
    &&& payload.len() < 8 ==> r == Err::<Option<DecodedInfo>, DecodeError>(
        DecodeError::InvalidLength { expected: 8, found: payload.len() as usize },
    ) && after.elements() == before.elements()
    &&& payload.len() >= 8 ==> (r matches Ok(Some(info)) && ({
        let d = parsed_data(payload);
        let h = before.handlers();
        &&& info.topic_id == spec_topic_id(PROCESS_DATA_PGN, tc_sub_topic(d))
        &&& d.command == TaskCommand::Value ==> {
            &&& after.elements() == before.elements().push(d.element_id)
            &&& info.title@ == "TC Value"@
            &&& canot_defines(h, d.ddi) ==> exists|e: DdiDescription, p: FloatValue|
                crate::proprietary::ddi::canot::describes(Some(e), d.ddi) && is_int_reading(
                    p,
                    d.value,
                ) && fields_match(info.outputs@, value_fields(d, Some(e), Some(p)))
            &&& !canot_defines(h, d.ddi) ==> fields_match(
                info.outputs@,
                value_fields(d, None, None),
            )
        }
        &&& d.command != TaskCommand::Value ==> {
            &&& after.elements() == before.elements()
            &&& info.title@ == unknown_title(d)
            &&& fields_match(
                info.outputs@,
                seq![FieldSpec::Txt(Severity::Warning, unknown_text(d))],
            )
        }
    }))
}

impl TaskControllerDecoder {
    /// The elements of the Value commands decoded so far, oldest first.
    pub closed spec fn elements(&self) -> Seq<u16> {
        self.last_elements@
    }

    /// The proprietary dictionaries to consult, in order.
    pub closed spec fn handlers(&self) -> Seq<String> {
        self.proprietary_handlers@
    }

    /// A decoder with no proprietary dictionaries.
    pub fn new() -> (r: Self)
        ensures
            r.elements() == Seq::<u16>::empty(),
            r.handlers() == Seq::<String>::empty(),
    {
        TaskControllerDecoder { last_elements: Vec::new(), proprietary_handlers: Vec::new() }
    }

    /// A decoder consulting the named proprietary dictionaries that exist (unknown names are
    /// skipped), in the order given.
    pub fn with_proprietary_handlers(handler_names: &[String]) -> (r: Self)
        ensures
            r.elements() == Seq::<u16>::empty(),
            r.handlers().map_values(|s: String| s@) == handler_names@.map_values(
                |s: String| s@,
            ).filter(|s: Seq<char>| crate::config::known_definition(s)),
    {
        let mut kept: Vec<String> = Vec::new();
        let known = crate::text::str_chars("canot");
        let ghost f = |s: String| s@;
        let ghost p = |s: Seq<char>| crate::config::known_definition(s);
        let mut i: usize = 0;
        while i < handler_names.len()
            invariant
                i <= handler_names@.len(),
                known@ == "canot"@,
                f == (|s: String| s@),
                p == (|s: Seq<char>| crate::config::known_definition(s)),
                kept@.map_values(f) == handler_names@.take(i as int).map_values(f).filter(p),
            decreases handler_names@.len() - i,
        {
            let cs = crate::text::str_chars(handler_names[i].as_str());
            let same = cs.len() == known.len() && crate::text::starts_with_chars(&cs, &known);
            proof {
                reveal(Seq::filter);
                assert(cs@ == handler_names@[i as int]@);
                assert(known@.take(known@.len() as int) =~= known@);
                if same {
                    assert(cs@ =~= known@.take(known@.len() as int));
                }
                if cs@ == known@ {
                    assert(cs@.take(known@.len() as int) =~= known@);
                }
                assert(handler_names@.take(i + 1).map_values(f) =~= handler_names@.take(
                    i as int,
                ).map_values(f).push(handler_names@[i as int]@));
                assert(handler_names@.take(i + 1).map_values(f).drop_last() =~= handler_names@.take(
                    i as int,
                ).map_values(f));
            }
            if same {
                kept.push(handler_names[i].clone());
                assert(kept@.map_values(f) =~= handler_names@.take(i as int).map_values(f).filter(
                    p,
                ).push(handler_names@[i as int]@));
            }
            i = i + 1;
        }
        assert(handler_names@.take(handler_names@.len() as int) =~= handler_names@);
        TaskControllerDecoder { last_elements: Vec::new(), proprietary_handlers: kept }
    }

    /// The elements of the Value commands decoded so far, oldest first.
    pub fn last_elements(&self) -> (r: &[u16])
        ensures
            r@ == self.elements(),
    {
        self.last_elements.as_slice()
    }

    /// The proprietary dictionaries to consult, in order.
    pub fn proprietary_handlers(&self) -> (r: &[String])
        ensures
            r@ == self.handlers(),
    {
        self.proprietary_handlers.as_slice()
    }

    fn consults_canot(&self) -> (r: bool)
        ensures
            r == consults_canot(self.handlers()),
    {
        let known = crate::text::str_chars("canot");
        let mut i: usize = 0;
        while i < self.proprietary_handlers.len()
            invariant
                i <= self.handlers().len(),
                known@ == "canot"@,
                forall|k: int| 0 <= k < i ==> #[trigger] self.handlers()[k]@ != "canot"@,
            decreases self.handlers().len() - i,
        {
            let cs = crate::text::str_chars(self.proprietary_handlers[i].as_str());
            let same = cs.len() == known.len() && crate::text::starts_with_chars(&cs, &known);
            proof {
                assert(known@.take(known@.len() as int) =~= known@);
                if same {
                    assert(cs@ =~= known@.take(known@.len() as int));
                }
                if cs@ == known@ {
                    assert(cs@.take(known@.len() as int) =~= known@);
                }
            }
            if same {
                assert(self.handlers()[i as int]@ == "canot"@);
                return true;
            }
            i = i + 1;
        }
        false
    }

    /// The dictionary entry of a DDI: for a proprietary DDI, the entry of the CANoT table
    /// when the decoder consults it and the table defines the DDI; otherwise `standard`, the
    /// entry the caller found in the standard dictionary.
    pub fn resolve_ddi_info(&self, ddi: u16, standard: Option<DdiDescription>) -> (r: Option<
        DdiDescription,
    >)
        ensures
            canot_defines(self.handlers(), ddi) ==> crate::proprietary::ddi::canot::describes(r, ddi),
            !canot_defines(self.handlers(), ddi) ==> r == standard,
    {
        if is_proprietary(ddi) && self.consults_canot() {
            match crate::proprietary::ddi::canot::lookup(ddi) {
                Some(info) => {
                    return Some(info);
                },
                None => {},
            }
        }
        standard
    }

    /// The raw value in physical units from the proprietary dictionaries: for a proprietary
    /// DDI the CANoT table defines, when the decoder consults it; `None` otherwise (the
    /// standard dictionary is then the caller's to consult).
    pub fn proprietary_physical(&self, ddi: u16, raw_value: i32) -> (r: Option<i64>)
        ensures
            r == if canot_defines(self.handlers(), ddi) {
                Some(raw_value as i64)
            } else {
                None::<i64>
            },
    {
        if is_proprietary(ddi) && self.consults_canot() {
            crate::proprietary::ddi::canot::to_physical(ddi, raw_value)
        } else {
            None
        }
    }

    /// The fields of an eight-byte payload.
    pub fn parse_payload(payload: &[u8]) -> (r: Result<TaskControllerData, DecodeError>)
        ensures
            payload@.len() < 8 ==> r == Err::<TaskControllerData, DecodeError>(
                DecodeError::InvalidLength { expected: 8, found: payload@.len() as usize },
            ),
            payload@.len() >= 8 ==> r == Ok::<TaskControllerData, DecodeError>(
                parsed_data(payload@),
            ),
    {
        if payload.len() < 8 {
            return Err(DecodeError::InvalidLength { expected: 8, found: payload.len() });
        }
        let command_byte = payload[0];
        let command = TaskCommand::from(command_byte);
        let element_id = (command_byte / 16) as u16;
        let ddi: u16 = (payload[2] as u16) + (payload[3] as u16) * 256;
        let raw: u32 = (payload[4] as u32) + (payload[5] as u32) * 256 + (payload[6] as u32) * 65536
            + (payload[7] as u32) * 16777216;
        let value = raw as i32;
        Ok(TaskControllerData { command, element_id, ddi, value })
    }

    /// Builds the message of a Value command from the dictionary entry and physical value
    /// the caller resolved for its DDI.
    pub fn decode_value_command(
        data: &TaskControllerData,
        ddi_info: Option<&DdiDescription>,
        physical: Option<FloatValue>,
    ) -> (r: DecodedInfo)
        ensures
            r.title@ == "TC Value"@,
            r.topic_id == spec_topic_id(PROCESS_DATA_PGN, tc_sub_topic(*data)),
            r.updates@.len() == 0,
            fields_match(
                r.outputs@,
                value_fields(
                    *data,
                    match ddi_info {
                        Some(i) => Some(*i),
                        None => None,
                    },
                    physical,
                ),
            ),
    {
        let mut msg = DecodedInfo::new(String::from_str("TC Value"), data.topic_id());
        let mut fs: Vec<DecodedField> = Vec::new();
        let ghost s1 = FieldSpec::Val("Element"@, Numeric::Int(data.element_id as i64), None, None);
        let ghost p0: Seq<FieldSpec> = Seq::empty();
        push_field(&mut fs, value_field("Element", data.element_id as i64), Ghost(p0), Ghost(s1));
        let ghost p1: Seq<FieldSpec> = p0.push(s1);
        let ghost s2 = FieldSpec::Val("DDI"@, Numeric::Int(data.ddi as i64), None, None);
        push_field(&mut fs, value_field("DDI", data.ddi as i64), Ghost(p1), Ghost(s2));
        let ghost p2: Seq<FieldSpec> = p1.push(s2);
        let ghost s3 = value_fields(
            *data,
            match ddi_info {
                Some(i) => Some(*i),
                None => None,
            },
            physical,
        )[2];
        let third = match ddi_info {
            Some(info) => {
                let unit = match &info.unit {
                    Some(u) => Some(u.as_str()),
                    None => None,
                };
                match physical {
                    Some(p) => DecodedField::value(info.name.as_str(), Numeric::Float(p), unit, Some(2)),
                    None => DecodedField::value(info.name.as_str(), Numeric::Int(data.value as i64), unit, None),
                }
            },
            None => if is_proprietary(data.ddi) {
                value_field("Unknown Proprietary", data.value as i64)
            } else {
                value_field("Unknown", data.value as i64)
            },
        };
        push_field(&mut fs, third, Ghost(p2), Ghost(s3));
        let ghost p3: Seq<FieldSpec> = p2.push(s3);
        let ghost s4 = FieldSpec::Val("RAW"@, Numeric::Int(data.value as i64), None, None);
        push_field(&mut fs, value_field("RAW", data.value as i64), Ghost(p3), Ghost(s4));
        assert(p3.push(s4) =~= value_fields(
            *data,
            match ddi_info {
                Some(i) => Some(*i),
                None => None,
            },
            physical,
        ));
        msg.outputs = fs;
        msg
    }

    /// Builds the message of a command other than Value: a title naming the command and a
    /// warning with all the fields.
    pub fn decode_unknown_command(data: &TaskControllerData) -> (r: DecodedInfo)
        ensures
            r.title@ == unknown_title(*data),
            r.topic_id == spec_topic_id(PROCESS_DATA_PGN, tc_sub_topic(*data)),
            r.updates@.len() == 0,
            fields_match(r.outputs@, seq![FieldSpec::Txt(Severity::Warning, unknown_text(*data))]),
    {
        let code = data.command.code();
        let mut title = String::new();
        push_str(&mut title, "TaskController Unknown Command 0x");
        push_hex(&mut title, code as u64, true);
        let mut msg = DecodedInfo::new(title, data.topic_id());
        let mut text = String::new();
        push_str(&mut text, "TaskController command=0x");
        push_hex_padded(&mut text, code as u64, 2, true);
        push_str(&mut text, " element=");
        push_dec(&mut text, data.element_id as u64);
        push_str(&mut text, " DDI=");
        push_dec(&mut text, data.ddi as u64);
        push_str(&mut text, " value=");
        push_signed_dec(&mut text, data.value as i64);
        let ghost s = FieldSpec::Txt(Severity::Warning, unknown_text(*data));
        let mut fs: Vec<DecodedField> = Vec::new();
        let ghost p0: Seq<FieldSpec> = Seq::empty();
        push_field(&mut fs, DecodedField::text(Severity::Warning, text), Ghost(p0), Ghost(s));
        assert(p0.push(s) =~= seq![s]);
        msg.outputs = fs;
        msg
    }

    /// Decodes parsed fields: a Value command with the caller's dictionary entry and physical
    /// value (its element is remembered), any other command as a warning.
    pub fn decode_parsed(
        &mut self,
        data: &TaskControllerData,
        ddi_info: Option<&DdiDescription>,
        physical: Option<FloatValue>,
    ) -> (r: DecodedInfo)
        ensures
            data.command == TaskCommand::Value ==> {
                &&& final(self).elements() == old(self).elements().push(data.element_id)
                &&& r.title@ == "TC Value"@
                &&& fields_match(
                    r.outputs@,
                    value_fields(
                        *data,
                        match ddi_info {
                            Some(i) => Some(*i),
                            None => None,
                        },
                        physical,
                    ),
                )
            },
            data.command != TaskCommand::Value ==> {
                &&& final(self).elements() == old(self).elements()
                &&& r.title@ == unknown_title(*data)
                &&& fields_match(
                    r.outputs@,
                    seq![FieldSpec::Txt(Severity::Warning, unknown_text(*data))],
                )
            },
            r.topic_id == spec_topic_id(PROCESS_DATA_PGN, tc_sub_topic(*data)),
            final(self).handlers() == old(self).handlers(),
    {
        if data.command == TaskCommand::Value {
            let msg = Self::decode_value_command(data, ddi_info, physical);
            self.last_elements.push(data.element_id);
            msg
        } else {
            Self::decode_unknown_command(data)
        }
    }

    /// Decodes an eight-byte process-data payload: the DDI is named and converted by the
    /// proprietary dictionaries the decoder consults (the standard ISO 11783 dictionary is
    /// not part of this library, so no other DDI has an entry), then `decode_parsed`.
    /// A shorter payload is an `InvalidLength` error.
    pub fn decode(&mut self, _context: &DecodeContext, payload: &[u8]) -> (r: Result<
        Option<DecodedInfo>,
        DecodeError,
    >)
        ensures
            decode_outcome(*old(self), *final(self), payload@, r),
    {
        let data = match Self::parse_payload(payload) {
            Ok(d) => d,
            Err(e) => {
                return Err(e);
            },
        };
        let info = self.resolve_ddi_info(data.ddi, None);
        let physical = match self.proprietary_physical(data.ddi, data.value) {
            Some(_) => Some(FloatValue::from_i32(data.value)),
            None => None,
        };
        let r = self.decode_parsed(&data, info.as_ref(), physical);
        proof {
            if data.command == TaskCommand::Value && canot_defines(old(self).handlers(), data.ddi) {
                let e = info->Some_0;
                let p = physical->Some_0;
                assert(crate::proprietary::ddi::canot::describes(Some(e), data.ddi) && is_int_reading(p, data.value)
                    && fields_match(r.outputs@, value_fields(data, Some(e), Some(p))));
            }
        }
        Ok(Some(r))
    }
}

impl Default for TaskControllerDecoder {
    fn default() -> (r: Self)
        ensures
            r.elements() == Seq::<u16>::empty(),
            r.handlers() == Seq::<String>::empty(),
    {
        Self::new()
    }
}


/// A command byte decodes by its low nibble only, and a command's code decodes back to it.
pub proof fn lemma_command_nibble(v: u8, c: TaskCommand)
    ensures
        command_code(command_of(v)) == v % 16,
        command_of(command_code(c)) == c,
        command_of(v) == command_of(v % 16),
{
}

/// Decoding an eight-byte Value command (low nibble 3 in the first byte) reports, first, the
/// element from the first byte's high nibble and, second, the DDI from bytes 2 and 3
/// (little-endian), whatever dictionaries the decoder consults; the last field is the raw
/// value from bytes 4 to 7.
pub proof fn lemma_value_command_fields(
    before: TaskControllerDecoder,
    after: TaskControllerDecoder,
    payload: Seq<u8>,
    r: Result<Option<DecodedInfo>, DecodeError>,
)
    requires
        decode_outcome(before, after, payload, r),
        payload.len() >= 8,
        payload[0] % 16 == 3,
    ensures
        r matches Ok(Some(info)) && {
            &&& info.outputs@.len() == 4
            &&& crate::types::field_is_value(
                info.outputs@[0],
                "Element"@,
                Numeric::Int((payload[0] / 16) as i64),
                None,
                None,
            )
            &&& crate::types::field_is_value(
                info.outputs@[1],
                "DDI"@,
                Numeric::Int((payload[2] + 256 * payload[3]) as i64),
                None,
                None,
            )
            &&& crate::types::field_is_value(
                info.outputs@[3],
                "RAW"@,
                Numeric::Int(
                    ((payload[4] + 256 * payload[5] + 65536 * payload[6] + 16777216 * payload[7]) as u32
                        as i32) as i64,
                ),
                None,
                None,
            )
        },
{
    let d = parsed_data(payload);
    assert(d.command == TaskCommand::Value);
    assert(d.ddi == payload[2] + 256 * payload[3]);
    let info = r->Ok_0->Some_0;
    if canot_defines(before.handlers(), d.ddi) {
        let (e, p) = choose|e: DdiDescription, p: FloatValue|
            crate::proprietary::ddi::canot::describes(Some(e), d.ddi) && is_int_reading(p, d.value)
                && fields_match(info.outputs@, value_fields(d, Some(e), Some(p)));
        let ss = value_fields(d, Some(e), Some(p));
        assert(crate::types::field_matches(info.outputs@[0], ss[0]));
        assert(crate::types::field_matches(info.outputs@[1], ss[1]));
        assert(crate::types::field_matches(info.outputs@[3], ss[3]));
    } else {
        let ss = value_fields(d, None, None);
        assert(crate::types::field_matches(info.outputs@[0], ss[0]));
        assert(crate::types::field_matches(info.outputs@[1], ss[1]));
        assert(crate::types::field_matches(info.outputs@[3], ss[3]));
    }
}

} // verus!
