//! The J1939 Address Claimed parameter group: the 64-bit NAME of the claiming device.
use vstd::prelude::*;
use crate::types::{
    DecodeContext,
    DecodeError,
    DecodedField,
    DecodedInfo,
    Numeric,
    Severity,
    FlagValue,
    FieldSpec,
    fields_match,
    field_matches,
    optional_text,
    opt_view,
    push_field,
    create_topic_id,
    spec_topic_id,
};
use crate::text::push_str;

verus! {

/// J1939 PGN for Address Claimed messages (0xEE00 / 60928).
pub const ADDRESS_CLAIMED_PGN: u32 = 0xEE00;

/// Little-endian value of the first eight bytes.
pub open spec fn le_u64(b: Seq<u8>) -> u64 {
    (b[0] as u64) | ((b[1] as u64) << 8u64) | ((b[2] as u64) << 16u64) | ((b[3] as u64) << 24u64)
        | ((b[4] as u64) << 32u64) | ((b[5] as u64) << 40u64) | ((b[6] as u64) << 48u64) | ((
    b[7] as u64) << 56u64)
}

/// The raw 64-bit NAME in the first eight bytes (j1939-async `Name::from_bytes`, then
/// `Name::raw`): `None` when there are fewer than eight bytes, else their little-endian value.
#[verifier::external_body]
pub(crate) fn name_from_bytes(bytes: &[u8]) -> (r: Option<u64>)
    ensures
        bytes@.len() < 8 ==> r is None,
        bytes@.len() >= 8 ==> r == Some(le_u64(bytes@)),
{
    match j1939_async::name::Name::from_bytes(bytes) {
        Ok(name) => Some(name.raw()),
        Err(_) => None,
    }
}

/// A J1939 / ISO 11783 NAME and its fields.
#[derive(Debug, Clone, Copy, PartialEq, Eq, Structural)]
pub struct J1939Name {
    pub raw: u64,
}

/// The NAME with its eight bytes in reverse order (read most significant byte first).
pub open spec fn reversed_bytes(raw: u64) -> u64 {
    ((raw & 0xFF) << 56u64) | (((raw >> 8u64) & 0xFF) << 48u64) | (((raw >> 16u64) & 0xFF)
        << 40u64) | (((raw >> 24u64) & 0xFF) << 32u64) | (((raw >> 32u64) & 0xFF) << 24u64) | ((
    (raw >> 40u64) & 0xFF) << 16u64) | (((raw >> 48u64) & 0xFF) << 8u64) | ((raw >> 56u64) & 0xFF)
}

impl J1939Name {
    /// The whole 64-bit NAME.
    pub fn raw(&self) -> (r: u64)
        ensures
            r == self.raw,
    {
        self.raw
    }

    /// Identity number (bits 0-20).
    pub open spec fn spec_identity(self) -> u64 {
        self.raw & 0x1F_FFFF
    }

    /// Manufacturer code (bits 21-31).
    pub open spec fn spec_manufacturer(self) -> u64 {
        (self.raw >> 21u64) & 0x7FF
    }

    /// ECU instance (bits 32-34).
    pub open spec fn spec_ecu_instance(self) -> u64 {
        (self.raw >> 32u64) & 0x7
    }

    /// Function instance (bits 35-39).
    pub open spec fn spec_function_instance(self) -> u64 {
        (self.raw >> 35u64) & 0x1F
    }

    /// Function (bits 40-47).
    pub open spec fn spec_function(self) -> u64 {
        (self.raw >> 40u64) & 0xFF
    }

    /// Vehicle system (bits 49-55).
    pub open spec fn spec_vehicle_system(self) -> u64 {
        (self.raw >> 49u64) & 0x7F
    }

    /// Vehicle system instance (bits 56-59).
    pub open spec fn spec_vehicle_system_instance(self) -> u64 {
        (self.raw >> 56u64) & 0xF
    }

    /// Industry group (bits 60-62).
    pub open spec fn spec_industry_group(self) -> u64 {
        (self.raw >> 60u64) & 0x7
    }

    /// Self-configurable address flag (bit 63).
    pub open spec fn spec_self_configurable(self) -> bool {
        (self.raw >> 63u64) == 1
    }

    /// Identity number (bits 0-20).
    pub fn identity(&self) -> (r: u64)
        ensures
            r == self.spec_identity(),
    {
        self.raw & 0x1F_FFFF
    }

    /// Manufacturer code (bits 21-31).
    pub fn manufacturer(&self) -> (r: u64)
        ensures
            r == self.spec_manufacturer(),
    {
        (self.raw >> 21u64) & 0x7FF
    }

    /// ECU instance (bits 32-34).
    pub fn ecu_instance(&self) -> (r: u64)
        ensures
            r == self.spec_ecu_instance(),
    {
        (self.raw >> 32u64) & 0x7
    }

    /// Function instance (bits 35-39).
    pub fn function_instance(&self) -> (r: u64)
        ensures
            r == self.spec_function_instance(),
    {
        (self.raw >> 35u64) & 0x1F
    }

    /// Function (bits 40-47).
    pub fn function(&self) -> (r: u64)
        ensures
            r == self.spec_function(),
    {
        (self.raw >> 40u64) & 0xFF
    }

    /// Vehicle system (bits 49-55).
    pub fn vehicle_system(&self) -> (r: u64)
        ensures
            r == self.spec_vehicle_system(),
    {
        (self.raw >> 49u64) & 0x7F
    }

    /// Vehicle system instance (bits 56-59).
    pub fn vehicle_system_instance(&self) -> (r: u64)
        ensures
            r == self.spec_vehicle_system_instance(),
    {
        (self.raw >> 56u64) & 0xF
    }

    /// Industry group (bits 60-62).
    pub fn industry_group(&self) -> (r: u64)
        ensures
            r == self.spec_industry_group(),
    {
        (self.raw >> 60u64) & 0x7
    }

    /// Self-configurable address flag (bit 63).
    pub fn self_configurable(&self) -> (r: bool)
        ensures
            r == self.spec_self_configurable(),
    {
        (self.raw >> 63u64) == 1
    }

    /// The NAME's bytes in reverse order, read as one number.
    pub fn reversed(&self) -> (r: u64)
        ensures
            r == reversed_bytes(self.raw),
    {
        let raw = self.raw;
        ((raw & 0xFF) << 56u64) | (((raw >> 8u64) & 0xFF) << 48u64) | (((raw >> 16u64) & 0xFF)
            << 40u64) | (((raw >> 24u64) & 0xFF) << 32u64) | (((raw >> 32u64) & 0xFF) << 24u64)
            | (((raw >> 40u64) & 0xFF) << 16u64) | (((raw >> 48u64) & 0xFF) << 8u64) | ((raw
            >> 56u64) & 0xFF)
    }
}

/// Titles the caller looked up for a NAME's coded fields.
#[derive(Debug, Clone)]
pub struct NameTitles {
    pub industry_group: Option<String>,
    pub vehicle_system: Option<String>,
    pub function: Option<String>,
    pub manufacturer: Option<String>,
}

/// The fields an address claim decodes to.
pub open spec fn claim_fields(n: J1939Name, t: NameTitles) -> Seq<FieldSpec> {
    seq![
        FieldSpec::Val(
            "Industry Group"@,
            Numeric::Int(n.spec_industry_group() as i64),
            Some("IG"@),
            None,
        ),
    ] + optional_text("Industry Group: "@, opt_view(t.industry_group)) + seq![
        FieldSpec::Val(
            "Self Configurable"@,
            Numeric::Flag(
                if n.spec_self_configurable() {
                    FlagValue::On
                } else {
                    FlagValue::Off
                },
            ),
            None,
            None,
        ),
        FieldSpec::Val(
            "Vehicle System Instance"@,
            Numeric::Int(n.spec_vehicle_system_instance() as i64),
            Some("Instance"@),
            None,
        ),
        FieldSpec::Val(
            "Vehicle System"@,
            Numeric::Int(n.spec_vehicle_system() as i64),
            Some("VS"@),
            None,
        ),
    ] + optional_text("Vehicle System: "@, opt_view(t.vehicle_system)) + seq![
        FieldSpec::Val("Function"@, Numeric::Int(n.spec_function() as i64), Some("Func"@), None),
    ] + optional_text("Function: "@, opt_view(t.function)) + seq![
        FieldSpec::Val(
            "Function Instance"@,
            Numeric::Int(n.spec_function_instance() as i64),
            Some("Instance"@),
            None,
        ),
        FieldSpec::Val(
            "ECU Instance"@,
            Numeric::Int(n.spec_ecu_instance() as i64),
            Some("Instance"@),
            None,
        ),
        FieldSpec::Val(
            "Manufacturer ID"@,
            Numeric::Int(n.spec_manufacturer() as i64),
            Some("MFR"@),
            None,
        ),
    ] + optional_text("Manufacturer: "@, opt_view(t.manufacturer)) + seq![
        FieldSpec::Val("Identity"@, Numeric::Int(n.spec_identity() as i64), Some("ID"@), None),
        FieldSpec::Val("Raw NAME"@, Numeric::Hex(reversed_bytes(n.raw)), Some("NAME"@), None),
    ]
}

fn push_value(
    fs: &mut Vec<DecodedField>,
    title: &str,
    value: Numeric,
    unit: Option<&str>,
    Ghost(ss): Ghost<Seq<FieldSpec>>,
) -> (r: Ghost<Seq<FieldSpec>>)
    requires
        fields_match(old(fs)@, ss),
    ensures
        r@ == ss.push(
            FieldSpec::Val(
                title@,
                value,
                match unit {
                    Some(u) => Some(u@),
                    None => None,
                },
                None,
            ),
        ),
        fields_match(final(fs)@, r@),
{
    let ghost s = FieldSpec::Val(
        title@,
        value,
        match unit {
            Some(u) => Some(u@),
            None => None,
        },
        None,
    );
    let f = DecodedField::value(title, value, unit, None);
    push_field(fs, f, Ghost(ss), Ghost(s));
    Ghost(ss.push(s))
}

fn push_optional_text(
    fs: &mut Vec<DecodedField>,
    prefix: &str,
    t: &Option<String>,
    Ghost(ss): Ghost<Seq<FieldSpec>>,
) -> (r: Ghost<Seq<FieldSpec>>)
    requires
        fields_match(old(fs)@, ss),
    ensures
        r@ == ss + optional_text(prefix@, opt_view(*t)),
        fields_match(final(fs)@, r@),
{
    match t {
        Some(x) => {
            let mut s = String::new();
            push_str(&mut s, prefix);
            push_str(&mut s, x.as_str());
            let ghost spec = FieldSpec::Txt(Severity::Info, prefix@ + x@);
            push_field(fs, DecodedField::text(Severity::Info, s), Ghost(ss), Ghost(spec));
            assert(ss.push(spec) =~= ss + optional_text(prefix@, opt_view(*t)));
            Ghost(ss.push(spec))
        },
        None => {
            assert(ss =~= ss + optional_text(prefix@, opt_view(*t)));
            Ghost(ss)
        },
    }
}

/// Decoder for Address Claimed messages; remembers the claiming addresses.
#[derive(Debug, Clone)]
pub struct AddressClaimDecoder {
    last_claimed: Vec<u8>,
}

impl AddressClaimDecoder {
    /// The addresses that claimed so far, oldest first.
    pub closed spec fn claimed(&self) -> Seq<u8> {
        self.last_claimed@
    }

    /// A decoder that has seen no claims.
    pub fn new() -> (r: Self)
        ensures
            r.claimed() == Seq::<u8>::empty(),
    {
        AddressClaimDecoder { last_claimed: Vec::new() }
    }

    /// The addresses that claimed so far, oldest first.
    pub fn last_claimed(&self) -> (r: &[u8])
        ensures
            r@ == self.claimed(),
    {
        self.last_claimed.as_slice()
    }

    /// The NAME in an eight-byte payload (little-endian).
    pub fn parse_name(payload: &[u8]) -> (r: Result<J1939Name, DecodeError>)
        ensures
            payload@.len() < 8 ==> r == Err::<J1939Name, DecodeError>(
                DecodeError::InvalidLength { expected: 8, found: payload@.len() as usize },
            ),
            payload@.len() >= 8 ==> r == Ok::<J1939Name, DecodeError>(
                J1939Name { raw: le_u64(payload@) },
            ),
    {
        if payload.len() < 8 {
            return Err(DecodeError::InvalidLength { expected: 8, found: payload.len() });
        }
        match name_from_bytes(payload) {
            Some(raw) => Ok(J1939Name { raw }),
            None => Err(DecodeError::MalformedData(String::from_str("Failed to parse NAME"))),
        }
    }

    /// Decodes a claim into its NAME fields, with the titles the caller looked up for them;
    /// the claiming address is remembered.
    pub fn decode_with_titles(
        &mut self,
        context: &DecodeContext,
        payload: &[u8],
        titles: &NameTitles,
    ) -> (r: Result<Option<DecodedInfo>, DecodeError>)
        ensures
            payload@.len() < 8 ==> r == Err::<Option<DecodedInfo>, DecodeError>(
                DecodeError::InvalidLength { expected: 8, found: payload@.len() as usize },
            ) && final(self).claimed() == old(self).claimed(),
            payload@.len() >= 8 ==> {
                &&& final(self).claimed() == old(self).claimed().push(context.src_addr)
                &&& r matches Ok(Some(info))
                &&& info.title@ == "Address Claim"@
                &&& info.topic_id == spec_topic_id(context.pgn, context.src_addr as u32)
                &&& info.updates@.len() == 0
                &&& fields_match(
                    info.outputs@,
                    claim_fields(J1939Name { raw: le_u64(payload@) }, *titles),
                )
            },
    {
        let name = match Self::parse_name(payload) {
            Ok(n) => n,
            Err(e) => {
                return Err(e);
            },
        };
        self.last_claimed.push(context.src_addr);
        let mut msg = DecodedInfo::new(
            String::from_str("Address Claim"),
            create_topic_id(context.pgn, context.src_addr as u32),
        );
        let mut fs: Vec<DecodedField> = Vec::new();
        let ghost ss0: Seq<FieldSpec> = Seq::empty();
        let g = push_value(
            &mut fs,
            "Industry Group",
            Numeric::Int(name.industry_group() as i64),
            Some("IG"),
            Ghost(ss0),
        );
        let g = push_optional_text(&mut fs, "Industry Group: ", &titles.industry_group, g);
        let flag = if name.self_configurable() {
            FlagValue::On
        } else {
            FlagValue::Off
        };
        let g = push_value(&mut fs, "Self Configurable", Numeric::Flag(flag), None, g);
        let g = push_value(
            &mut fs,
            "Vehicle System Instance",
            Numeric::Int(name.vehicle_system_instance() as i64),
            Some("Instance"),
            g,
        );
        let g = push_value(
            &mut fs,
            "Vehicle System",
            Numeric::Int(name.vehicle_system() as i64),
            Some("VS"),
            g,
        );
        let g = push_optional_text(&mut fs, "Vehicle System: ", &titles.vehicle_system, g);
        let g = push_value(
            &mut fs,
            "Function",
            Numeric::Int(name.function() as i64),
            Some("Func"),
            g,
        );
        let g = push_optional_text(&mut fs, "Function: ", &titles.function, g);
        let g = push_value(
            &mut fs,
            "Function Instance",
            Numeric::Int(name.function_instance() as i64),
            Some("Instance"),
            g,
        );
        let g = push_value(
            &mut fs,
            "ECU Instance",
            Numeric::Int(name.ecu_instance() as i64),
            Some("Instance"),
            g,
        );
        let g = push_value(
            &mut fs,
            "Manufacturer ID",
            Numeric::Int(name.manufacturer() as i64),
            Some("MFR"),
            g,
        );
        let g = push_optional_text(&mut fs, "Manufacturer: ", &titles.manufacturer, g);
        let g = push_value(
            &mut fs,
            "Identity",
            Numeric::Int(name.identity() as i64),
            Some("ID"),
            g,
        );
        let g = push_value(&mut fs, "Raw NAME", Numeric::Hex(name.reversed()), Some("NAME"), g);
        assert(g@ =~= claim_fields(name, *titles));
        msg.outputs = fs;
        Ok(Some(msg))
    }
}

impl Default for AddressClaimDecoder {
    fn default() -> (r: Self)
        ensures
            r.claimed() == Seq::<u8>::empty(),
    {
        Self::new()
    }
}

/// The NAME made of the given field values, each weighted by the power of two of its first
/// bit: identity at bit 0, manufacturer at 21, ECU instance at 32, function instance at 35,
/// function at 40, the reserved bit at 48, vehicle system at 49, vehicle system instance at
/// 56, industry group at 60 and the self-configurable flag at 63.
pub open spec fn name_of_fields(
    identity: u64,
    manufacturer: u64,
    ecu_instance: u64,
    function_instance: u64,
    function: u64,
    reserved: u64,
    vehicle_system: u64,
    vehicle_system_instance: u64,
    industry_group: u64,
    self_configurable: u64,
) -> u64 {
    (identity + manufacturer * 0x20_0000 + ecu_instance * 0x1_0000_0000 + function_instance
        * 0x8_0000_0000 + function * 0x100_0000_0000 + reserved * 0x1_0000_0000_0000
        + vehicle_system * 0x2_0000_0000_0000 + vehicle_system_instance * 0x100_0000_0000_0000
        + industry_group * 0x1000_0000_0000_0000 + self_configurable * 0x8000_0000_0000_0000) as u64
}

/// Each field accessor gives back the value placed in its field: reading a NAME built from
/// field values yields those values, whatever the other fields hold.
pub proof fn lemma_name_fields_read_back(
    identity: u64,
    manufacturer: u64,
    ecu_instance: u64,
    function_instance: u64,
    function: u64,
    reserved: u64,
    vehicle_system: u64,
    vehicle_system_instance: u64,
    industry_group: u64,
    self_configurable: u64,
)
    requires
        identity < 0x20_0000,
        manufacturer < 0x800,
        ecu_instance < 8,
        function_instance < 32,
        function < 256,
        reserved < 2,
        vehicle_system < 128,
        vehicle_system_instance < 16,
        industry_group < 8,
        self_configurable < 2,
    ensures
        ({
            let n = J1939Name {
                raw: name_of_fields(
                    identity,
                    manufacturer,
                    ecu_instance,
                    function_instance,
                    function,
                    reserved,
                    vehicle_system,
                    vehicle_system_instance,
                    industry_group,
                    self_configurable,
                ),
            };
            &&& n.spec_identity() == identity
            &&& n.spec_manufacturer() == manufacturer
            &&& n.spec_ecu_instance() == ecu_instance
            &&& n.spec_function_instance() == function_instance
            &&& n.spec_function() == function
            &&& n.spec_vehicle_system() == vehicle_system
            &&& n.spec_vehicle_system_instance() == vehicle_system_instance
            &&& n.spec_industry_group() == industry_group
            &&& n.spec_self_configurable() == (self_configurable == 1)
        }),
{
    let raw = name_of_fields(
        identity,
        manufacturer,
        ecu_instance,
        function_instance,
        function,
        reserved,
        vehicle_system,
        vehicle_system_instance,
        industry_group,
        self_configurable,
    );
    assert(raw & 0x1F_FFFF == identity && (raw >> 21u64) & 0x7FF == manufacturer && (raw >> 32u64)
        & 0x7 == ecu_instance && (raw >> 35u64) & 0x1F == function_instance && (raw >> 40u64) & 0xFF
        == function && (raw >> 49u64) & 0x7F == vehicle_system && (raw >> 56u64) & 0xF
        == vehicle_system_instance && (raw >> 60u64) & 0x7 == industry_group && ((raw >> 63u64)
        == 1) == (self_configurable == 1)) by (bit_vector)
        requires
            identity < 0x20_0000,
            manufacturer < 0x800,
            ecu_instance < 8,
            function_instance < 32,
            function < 256,
            reserved < 2,
            vehicle_system < 128,
            vehicle_system_instance < 16,
            industry_group < 8,
            self_configurable < 2,
            raw == (identity + manufacturer * 0x20_0000 + ecu_instance * 0x1_0000_0000
                + function_instance * 0x8_0000_0000 + function * 0x100_0000_0000 + reserved
                * 0x1_0000_0000_0000 + vehicle_system * 0x2_0000_0000_0000
                + vehicle_system_instance * 0x100_0000_0000_0000 + industry_group
                * 0x1000_0000_0000_0000 + self_configurable * 0x8000_0000_0000_0000) as u64,
    ;
}

} // verus!
