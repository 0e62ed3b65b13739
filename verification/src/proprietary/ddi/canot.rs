//! CANoT proprietary data dictionary identifiers (0xE000-0xFFFE) and their table.
use vstd::prelude::*;
use crate::pgn_decoders::iso11783::task_controller::DdiDescription;

verus! {

/// A DDI falls within the proprietary range.
pub open spec fn in_proprietary_range(ddi: u16) -> bool {
    0xE000 <= ddi <= 0xFFFE
}

/// Whether a DDI falls within the proprietary range (0xE000-0xFFFE).
pub fn is_proprietary(ddi: u16) -> (r: bool)
    ensures
        r == in_proprietary_range(ddi),
{
    ddi >= 0xE000 && ddi <= 0xFFFE
}

/// The CANoT table: name and unit of each proprietary DDI it defines.
pub open spec fn canot_entry(ddi: u16) -> Option<(Seq<char>, Seq<char>)> {
    if ddi == 0xE000 {
        Some(("Total Charge"@, "micro-amp-hours"@))
    } else if ddi == 0xE001 {
        Some(("Current"@, "micro-amp"@))
    } else if ddi == 0xE002 {
        Some(("Voltage"@, "micro-volts"@))
    } else if ddi == 0xE003 {
        Some(("Shunt Resistance"@, "micro-ohms"@))
    } else if ddi == 0xE004 {
        Some(("Shunt Offset"@, "ADC counts (2.5 μV)"@))
    } else if ddi == 0xE010 {
        Some(("Temperature"@, "micro-degrees"@))
    } else if ddi == 0xE011 {
        Some(("Humidity"@, "ppm"@))
    } else if ddi == 0xE012 {
        Some(("Pressure"@, "milli-pascals"@))
    } else {
        None
    }
}

/// The entry describes the DDI as the table does.
pub open spec fn describes(r: Option<DdiDescription>, ddi: u16) -> bool {
    match (r, canot_entry(ddi)) {
        (Some(d), Some((name, unit))) => d.name@ == name && (d.unit matches Some(u) && u@ == unit),
        (None, None) => true,
        _ => false,
    }
}

fn entry(name: &str, unit: &str) -> (r: DdiDescription)
    ensures
        r.name@ == name@,
        r.unit matches Some(u) && u@ == unit@,
{
    DdiDescription { name: String::from_str(name), unit: Some(String::from_str(unit)) }
}

/// Looks a proprietary DDI up in the CANoT table.
pub fn lookup(ddi: u16) -> (r: Option<DdiDescription>)
    ensures
        describes(r, ddi),
{
    if ddi == 0xE000 {
        Some(entry("Total Charge", "micro-amp-hours"))
    } else if ddi == 0xE001 {
        Some(entry("Current", "micro-amp"))
    } else if ddi == 0xE002 {
        Some(entry("Voltage", "micro-volts"))
    } else if ddi == 0xE003 {
        Some(entry("Shunt Resistance", "micro-ohms"))
    } else if ddi == 0xE004 {
        Some(entry("Shunt Offset", "ADC counts (2.5 μV)"))
    } else if ddi == 0xE010 {
        Some(entry("Temperature", "micro-degrees"))
    } else if ddi == 0xE011 {
        Some(entry("Humidity", "ppm"))
    } else if ddi == 0xE012 {
        Some(entry("Pressure", "milli-pascals"))
    } else {
        None
    }
}

/// A raw value in physical units, for a DDI the table defines: every CANoT entry has
/// resolution 1 and offset 0, so the physical value is the raw value itself.
pub fn to_physical(ddi: u16, raw_value: i32) -> (r: Option<i64>)
    ensures
        r == if canot_entry(ddi) is Some {
            Some(raw_value as i64)
        } else {
            None::<i64>
        },
{
    match lookup(ddi) {
        Some(_) => Some(raw_value as i64),
        None => None,
    }
}

} // verus!
