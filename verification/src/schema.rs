//! The canonical record schema: the closed field dictionary shared by both
//! source encodings, the record type, and the name-to-projector mapping.

use vstd::prelude::*;
use crate::num::Fixed;

verus! {

/// The closed set of recognized variable names. Every field maps to
/// exactly one accessor; no ad-hoc fields exist.
#[derive(Clone, Copy, PartialEq, Eq, Structural, Debug)]
pub enum FieldName {
    Time,
    Rpm,
    Tps,
    ThrottlePosition,
    Gear,
    LaunchValidated,
    FuelFlowTotal,
    EngineTemp,
    OilPressure,
    AirTemp,
    BatteryVoltage,
    BrakePressure,
    FuelLevel,
}

/// The fields in their fixed dictionary order.
pub open spec fn field_order() -> Seq<FieldName> {
    seq![
        FieldName::Time,
        FieldName::Rpm,
        FieldName::Tps,
        FieldName::ThrottlePosition,
        FieldName::Gear,
        FieldName::LaunchValidated,
        FieldName::FuelFlowTotal,
        FieldName::EngineTemp,
        FieldName::OilPressure,
        FieldName::AirTemp,
        FieldName::BatteryVoltage,
        FieldName::BrakePressure,
        FieldName::FuelLevel,
    ]
}

/// The interchange name of a field, exactly as both encodings spell it.
pub open spec fn spec_field_name(f: FieldName) -> Seq<char> {
    match f {
        FieldName::Time => "TIME"@,
        FieldName::Rpm => "RPM"@,
        FieldName::Tps => "TPS"@,
        FieldName::ThrottlePosition => "Posição_do_acelerador"@,
        FieldName::Gear => "Marcha"@,
        FieldName::LaunchValidated => "Largada_validada"@,
        FieldName::FuelFlowTotal => "Fluxo_total_de_combustível"@,
        FieldName::EngineTemp => "Temp._do_motor"@,
        FieldName::OilPressure => "Pressão_de_Óleo"@,
        FieldName::AirTemp => "Temp._do_Ar"@,
        FieldName::BatteryVoltage => "Tensão_da_Bateria"@,
        FieldName::BrakePressure => "Pressão_do_freio"@,
        FieldName::FuelLevel => "Tanque"@,
    }
}

/// The interchange name of a field, in executable code.
pub fn field_name_str(f: FieldName) -> (r: &'static str)
    ensures
        r@ == spec_field_name(f),
{
    match f {
        FieldName::Time => "TIME",
        FieldName::Rpm => "RPM",
        FieldName::Tps => "TPS",
        FieldName::ThrottlePosition => "Posição_do_acelerador",
        FieldName::Gear => "Marcha",
        FieldName::LaunchValidated => "Largada_validada",
        FieldName::FuelFlowTotal => "Fluxo_total_de_combustível",
        FieldName::EngineTemp => "Temp._do_motor",
        FieldName::OilPressure => "Pressão_de_Óleo",
        FieldName::AirTemp => "Temp._do_Ar",
        FieldName::BatteryVoltage => "Tensão_da_Bateria",
        FieldName::BrakePressure => "Pressão_do_freio",
        FieldName::FuelLevel => "Tanque",
    }
}

/// The field a name denotes, or nothing for a name outside the dictionary.
pub open spec fn spec_field_of_name(n: Seq<char>) -> Option<FieldName> {
    if n == "TIME"@ {
        Some(FieldName::Time)
    } else if n == "RPM"@ {
        Some(FieldName::Rpm)
    } else if n == "TPS"@ {
        Some(FieldName::Tps)
    } else if n == "Posição_do_acelerador"@ {
        Some(FieldName::ThrottlePosition)
    } else if n == "Marcha"@ {
        Some(FieldName::Gear)
    } else if n == "Largada_validada"@ {
        Some(FieldName::LaunchValidated)
    } else if n == "Fluxo_total_de_combustível"@ {
        Some(FieldName::FuelFlowTotal)
    } else if n == "Temp._do_motor"@ {
        Some(FieldName::EngineTemp)
    } else if n == "Pressão_de_Óleo"@ {
        Some(FieldName::OilPressure)
    } else if n == "Temp._do_Ar"@ {
        Some(FieldName::AirTemp)
    } else if n == "Tensão_da_Bateria"@ {
        Some(FieldName::BatteryVoltage)
    } else if n == "Pressão_do_freio"@ {
        Some(FieldName::BrakePressure)
    } else if n == "Tanque"@ {
        Some(FieldName::FuelLevel)
    } else {
        None
    }
}

/// The field a name denotes, in executable code.
pub fn field_of_name(name: &str) -> (r: Option<FieldName>)
    ensures
        r == spec_field_of_name(name@),
{
    let n = name.to_owned();
    if n == String::from_str("TIME") {
        Some(FieldName::Time)
    } else if n == String::from_str("RPM") {
        Some(FieldName::Rpm)
    } else if n == String::from_str("TPS") {
        Some(FieldName::Tps)
    } else if n == String::from_str("Posição_do_acelerador") {
        Some(FieldName::ThrottlePosition)
    } else if n == String::from_str("Marcha") {
        Some(FieldName::Gear)
    } else if n == String::from_str("Largada_validada") {
        Some(FieldName::LaunchValidated)
    } else if n == String::from_str("Fluxo_total_de_combustível") {
        Some(FieldName::FuelFlowTotal)
    } else if n == String::from_str("Temp._do_motor") {
        Some(FieldName::EngineTemp)
    } else if n == String::from_str("Pressão_de_Óleo") {
        Some(FieldName::OilPressure)
    } else if n == String::from_str("Temp._do_Ar") {
        Some(FieldName::AirTemp)
    } else if n == String::from_str("Tensão_da_Bateria") {
        Some(FieldName::BatteryVoltage)
    } else if n == String::from_str("Pressão_do_freio") {
        Some(FieldName::BrakePressure)
    } else if n == String::from_str("Tanque") {
        Some(FieldName::FuelLevel)
    } else {
        None
    }
}

/// Every dictionary name resolves back to its own field.
pub proof fn lemma_field_name_resolve(f: FieldName)
    ensures
        spec_field_of_name(spec_field_name(f)) == Some(f),
{
    reveal_strlit("TIME");
    reveal_strlit("RPM");
    reveal_strlit("TPS");
    reveal_strlit("Posição_do_acelerador");
    reveal_strlit("Marcha");
    reveal_strlit("Largada_validada");
    reveal_strlit("Fluxo_total_de_combustível");
    reveal_strlit("Temp._do_motor");
    reveal_strlit("Pressão_de_Óleo");
    reveal_strlit("Temp._do_Ar");
    reveal_strlit("Tensão_da_Bateria");
    reveal_strlit("Pressão_do_freio");
    reveal_strlit("Tanque");
    assert("TIME"@.len() >= 0);
    assert("RPM"@.len() >= 0);
    assert("TPS"@.len() >= 0);
    assert("Posição_do_acelerador"@.len() >= 0);
    assert("Marcha"@.len() >= 0);
    assert("Largada_validada"@.len() >= 0);
    assert("Fluxo_total_de_combustível"@.len() >= 0);
    assert("Temp._do_motor"@.len() >= 0);
    assert("Pressão_de_Óleo"@.len() >= 0);
    assert("Temp._do_Ar"@.len() >= 0);
    assert("Tensão_da_Bateria"@.len() >= 0);
    assert("Pressão_do_freio"@.len() >= 0);
    assert("Tanque"@.len() >= 0);
    assert("RPM"@[0] == 'R');
    assert("TPS"@[0] == 'T');
    assert("Marcha"@[0] == 'M');
    assert("Tanque"@[0] == 'T');
    assert("Largada_validada"@[0] == 'L');
    assert("Pressão_do_freio"@[0] == 'P');
}


/// Every dictionary name is plain text: no quote, no backslash, no comma,
/// no control character.
pub proof fn lemma_field_name_plain(f: FieldName)
    ensures
        plain_text(spec_field_name(f)),
{
    reveal_strlit("TIME");
    reveal_strlit("RPM");
    reveal_strlit("TPS");
    reveal_strlit("Posição_do_acelerador");
    reveal_strlit("Marcha");
    reveal_strlit("Largada_validada");
    reveal_strlit("Fluxo_total_de_combustível");
    reveal_strlit("Temp._do_motor");
    reveal_strlit("Pressão_de_Óleo");
    reveal_strlit("Temp._do_Ar");
    reveal_strlit("Tensão_da_Bateria");
    reveal_strlit("Pressão_do_freio");
    reveal_strlit("Tanque");
}

/// The fixed ordered set of recognized variable names.
pub open spec fn spec_field_names() -> Seq<Seq<char>> {
    field_order().map(|i: int, f: FieldName| spec_field_name(f))
}

/// The fixed ordered set of recognized variable names, in executable code.
pub fn field_names() -> (r: Vec<String>)
    ensures
        r.deep_view() == spec_field_names(),
{
    let mut out: Vec<String> = Vec::new();
    out.push(String::from_str("TIME"));
    out.push(String::from_str("RPM"));
    out.push(String::from_str("TPS"));
    out.push(String::from_str("Posição_do_acelerador"));
    out.push(String::from_str("Marcha"));
    out.push(String::from_str("Largada_validada"));
    out.push(String::from_str("Fluxo_total_de_combustível"));
    out.push(String::from_str("Temp._do_motor"));
    out.push(String::from_str("Pressão_de_Óleo"));
    out.push(String::from_str("Temp._do_Ar"));
    out.push(String::from_str("Tensão_da_Bateria"));
    out.push(String::from_str("Pressão_do_freio"));
    out.push(String::from_str("Tanque"));
    proof {
        assert(out.deep_view() =~= spec_field_names());
    }
    out
}

/// One telemetry sample: a fixed, named set of fields. Immutable once
/// constructed; transformations always build new sequences.
#[derive(Debug, PartialEq)]
pub struct Record {
    pub time: Fixed,
    pub rpm: u32,
    pub tps: Fixed,
    pub throttle_position: Fixed,
    pub gear: u32,
    pub launch_validated: String,
    pub fuel_flow_total: Fixed,
    pub engine_temp: Fixed,
    pub oil_pressure: Fixed,
    pub air_temp: Fixed,
    pub battery_voltage: Fixed,
    pub brake_pressure: Fixed,
    pub fuel_level: Fixed,
}

/// The mathematical shadow of a record: the flag field as its character
/// sequence, every other field as its exact value.
pub ghost struct RecordV {
    pub time: Fixed,
    pub rpm: u32,
    pub tps: Fixed,
    pub throttle_position: Fixed,
    pub gear: u32,
    pub launch_validated: Seq<char>,
    pub fuel_flow_total: Fixed,
    pub engine_temp: Fixed,
    pub oil_pressure: Fixed,
    pub air_temp: Fixed,
    pub battery_voltage: Fixed,
    pub brake_pressure: Fixed,
    pub fuel_level: Fixed,
}

impl View for Record {
    type V = RecordV;

    open spec fn view(&self) -> RecordV {
        RecordV {
            time: self.time,
            rpm: self.rpm,
            tps: self.tps,
            throttle_position: self.throttle_position,
            gear: self.gear,
            launch_validated: self.launch_validated@,
            fuel_flow_total: self.fuel_flow_total,
            engine_temp: self.engine_temp,
            oil_pressure: self.oil_pressure,
            air_temp: self.air_temp,
            battery_voltage: self.battery_voltage,
            brake_pressure: self.brake_pressure,
            fuel_level: self.fuel_level,
        }
    }
}

impl DeepView for Record {
    type V = RecordV;

    open spec fn deep_view(&self) -> RecordV {
        self.view()
    }
}

impl Clone for Record {
    /// A clone carries exactly the same view.
    fn clone(&self) -> (res: Self)
        ensures
            res@ == self@,
    {
        Record {
            time: self.time,
            rpm: self.rpm,
            tps: self.tps,
            throttle_position: self.throttle_position,
            gear: self.gear,
            launch_validated: self.launch_validated.clone(),
            fuel_flow_total: self.fuel_flow_total,
            engine_temp: self.engine_temp,
            oil_pressure: self.oil_pressure,
            air_temp: self.air_temp,
            battery_voltage: self.battery_voltage,
            brake_pressure: self.brake_pressure,
            fuel_level: self.fuel_level,
        }
    }
}

/// The numeric reading a field takes from a record. The textual flag field
/// is excluded from numeric projection; integer fields are widened so both
/// axes share one numeric representation.
pub open spec fn spec_project(r: RecordV, f: FieldName) -> Option<Fixed> {
    match f {
        FieldName::Time => Some(r.time),
        FieldName::Rpm => Some(Fixed { milli: ((r.rpm * 1000) as i64) }),
        FieldName::Tps => Some(r.tps),
        FieldName::ThrottlePosition => Some(r.throttle_position),
        FieldName::Gear => Some(Fixed { milli: ((r.gear * 1000) as i64) }),
        FieldName::LaunchValidated => None,
        FieldName::FuelFlowTotal => Some(r.fuel_flow_total),
        FieldName::EngineTemp => Some(r.engine_temp),
        FieldName::OilPressure => Some(r.oil_pressure),
        FieldName::AirTemp => Some(r.air_temp),
        FieldName::BatteryVoltage => Some(r.battery_voltage),
        FieldName::BrakePressure => Some(r.brake_pressure),
        FieldName::FuelLevel => Some(r.fuel_level),
    }
}

/// The numeric reading a field takes from a record, in executable code.
pub fn project(r: &Record, f: FieldName) -> (v: Option<Fixed>)
    ensures
        v == spec_project(r@, f),
{
    match f {
        FieldName::Time => Some(r.time),
        FieldName::Rpm => Some(Fixed::from_u32(r.rpm)),
        FieldName::Tps => Some(r.tps),
        FieldName::ThrottlePosition => Some(r.throttle_position),
        FieldName::Gear => Some(Fixed::from_u32(r.gear)),
        FieldName::LaunchValidated => None,
        FieldName::FuelFlowTotal => Some(r.fuel_flow_total),
        FieldName::EngineTemp => Some(r.engine_temp),
        FieldName::OilPressure => Some(r.oil_pressure),
        FieldName::AirTemp => Some(r.air_temp),
        FieldName::BatteryVoltage => Some(r.battery_voltage),
        FieldName::BrakePressure => Some(r.brake_pressure),
        FieldName::FuelLevel => Some(r.fuel_level),
    }
}

/// Whether a character stands for itself inside a printed string: no
/// quote, no backslash, no control character.
pub open spec fn plain_char(c: char) -> bool {
    c != '"' && c != '\\' && (c as u32) >= 32
}

/// Whether a text is made of plain characters only.
pub open spec fn plain_text(s: Seq<char>) -> bool {
    forall|i: int| 0 <= i < s.len() ==> plain_char(#[trigger] s[i])
}

/// Whether a record lies in the canonical interchange domain: every
/// numeric field can be printed. The flag text is unrestricted: printing
/// escapes whatever it holds.
pub open spec fn record_ok(r: RecordV) -> bool {
    &&& r.time.milli != i64::MIN
    &&& r.tps.milli != i64::MIN
    &&& r.throttle_position.milli != i64::MIN
    &&& r.fuel_flow_total.milli != i64::MIN
    &&& r.engine_temp.milli != i64::MIN
    &&& r.oil_pressure.milli != i64::MIN
    &&& r.air_temp.milli != i64::MIN
    &&& r.battery_voltage.milli != i64::MIN
    &&& r.brake_pressure.milli != i64::MIN
    &&& r.fuel_level.milli != i64::MIN
}

} // verus!
