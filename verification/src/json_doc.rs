//! The persisted document encoding: a single JSON document holding a
//! top-level array of record objects, with the field-dictionary names as
//! keys. Verified code both parses and prints this layout; the parser
//! accepts standard whitespace, any key order, and the common string
//! escapes, while the printer emits one canonical compact form.

use vstd::prelude::*;
use crate::errors::LoadError;
use crate::num::{Fixed, spec_parse_number, spec_u32_of_fixed, spec_fmt_fixed, spec_fmt_u32, parse_number, u32_of_fixed, push_fixed, push_u32, is_digit};
use crate::schema::{Record, RecordV, FieldName, spec_field_of_name, spec_field_name, field_of_name, field_name_str, field_order, record_ok, plain_text, plain_char, spec_project};
use crate::text::{chars_to_string, str_to_chars, char_from_code};

verus! {

/// Whether `c` is insignificant whitespace between tokens.
pub open spec fn is_ws(c: char) -> bool {
    c == ' ' || c == '\n' || c == '\t' || c == '\r'
}

/// The text with its leading whitespace removed.
pub open spec fn spec_skip_ws(s: Seq<char>) -> Seq<char>
    decreases s.len(),
{
    if s.len() > 0 && is_ws(s[0]) {
        spec_skip_ws(s.skip(1))
    } else {
        s
    }
}

/// Skipping whitespace never lengthens the text.
proof fn lemma_skip_ws_len(s: Seq<char>)
    ensures
        spec_skip_ws(s).len() <= s.len(),
    decreases s.len(),
{
    if s.len() > 0 && is_ws(s[0]) {
        lemma_skip_ws_len(s.skip(1));
    }
}

/// Text that does not begin with whitespace skips to itself.
proof fn lemma_skip_ws_absent(s: Seq<char>)
    requires
        s.len() == 0 || !is_ws(s[0]),
    ensures
        spec_skip_ws(s) == s,
{
}

/// The character an escape introducer selects, for the escapes accepted
/// inside strings.
pub open spec fn esc_char(c: char) -> Option<char> {
    if c == '"' {
        Some('"')
    } else if c == '\\' {
        Some('\\')
    } else if c == '/' {
        Some('/')
    } else if c == 'n' {
        Some('\n')
    } else if c == 't' {
        Some('\t')
    } else if c == 'r' {
        Some('\r')
    } else if c == 'b' {
        Some('\u{0008}')
    } else if c == 'f' {
        Some('\u{000C}')
    } else {
        None
    }
}

/// The value of one hexadecimal digit, or nothing.
pub open spec fn hex_val(c: char) -> Option<int> {
    if '0' <= c && c <= '9' {
        Some(c as int - 48)
    } else if 'a' <= c && c <= 'f' {
        Some(c as int - 87)
    } else if 'A' <= c && c <= 'F' {
        Some(c as int - 55)
    } else {
        None
    }
}

/// The code point four hexadecimal digits name, or nothing.
pub open spec fn hex4_val(a: char, b: char, c: char, d: char) -> Option<int> {
    match (hex_val(a), hex_val(b), hex_val(c), hex_val(d)) {
        (Some(va), Some(vb), Some(vc), Some(vd)) => Some(va * 4096 + vb * 256 + vc * 16 + vd),
        _ => None,
    }
}

/// Reads string content up to and over the closing quote: the decoded
/// characters and the unread remainder. Raw control characters, unknown
/// escapes, surrogate code points and an unterminated string fail.
pub open spec fn spec_parse_str_chars(s: Seq<char>) -> Option<(Seq<char>, Seq<char>)>
    decreases s.len(),
{
    if s.len() == 0 {
        None
    } else if s[0] == '"' {
        Some((Seq::empty(), s.skip(1)))
    } else if s[0] == '\\' {
        if s.len() < 2 {
            None
        } else if s[1] == 'u' {
            if s.len() < 6 {
                None
            } else {
                match hex4_val(s[2], s[3], s[4], s[5]) {
                    None => None,
                    Some(cv) => if 0xD800 <= cv && cv < 0xE000 {
                        None
                    } else {
                        match spec_parse_str_chars(s.skip(6)) {
                            None => None,
                            Some(p) => Some((seq![cv as char].add(p.0), p.1)),
                        }
                    },
                }
            }
        } else {
            match esc_char(s[1]) {
                None => None,
                Some(c) => match spec_parse_str_chars(s.skip(2)) {
                    None => None,
                    Some(p) => Some((seq![c].add(p.0), p.1)),
                },
            }
        }
    } else if (s[0] as u32) < 32 {
        None
    } else {
        match spec_parse_str_chars(s.skip(1)) {
            None => None,
            Some(p) => Some((seq![s[0]].add(p.0), p.1)),
        }
    }
}

/// Reading string content always consumes at least the closing quote.
proof fn lemma_str_chars_len(s: Seq<char>)
    ensures
        spec_parse_str_chars(s) matches Some(p) ==> p.1.len() < s.len(),
    decreases s.len(),
{
    if s.len() == 0 {
    } else if s[0] == '"' {
    } else if s[0] == '\\' {
        if s.len() >= 2 && s[1] == 'u' {
            if s.len() >= 6 {
                lemma_str_chars_len(s.skip(6));
            }
        } else if s.len() >= 2 {
            lemma_str_chars_len(s.skip(2));
        }
    } else {
        lemma_str_chars_len(s.skip(1));
    }
}

/// Reads one quoted string from the front of `s`.
pub open spec fn spec_parse_string(s: Seq<char>) -> Option<(Seq<char>, Seq<char>)> {
    if s.len() == 0 || s[0] != '"' {
        None
    } else {
        spec_parse_str_chars(s.skip(1))
    }
}

/// Reading a string always consumes at least its two quotes.
proof fn lemma_parse_string_len(s: Seq<char>)
    ensures
        spec_parse_string(s) matches Some(p) ==> p.1.len() < s.len(),
{
    if s.len() > 0 && s[0] == '"' {
        lemma_str_chars_len(s.skip(1));
    }
}

/// A scalar member value: a number, or the text of a string.
pub ghost enum ValV {
    Num(Fixed),
    Txt(Seq<char>),
}

/// Reads one member value from the front of `s`: a quoted string or a
/// decimal number. Any other shape fails.
pub open spec fn spec_parse_value(s: Seq<char>) -> Option<(ValV, Seq<char>)> {
    if s.len() > 0 && s[0] == '"' {
        match spec_parse_string(s) {
            None => None,
            Some(p) => Some((ValV::Txt(p.0), p.1)),
        }
    } else {
        match spec_parse_number(s) {
            None => None,
            Some(p) => Some((ValV::Num(p.0), p.1)),
        }
    }
}

/// The digit run of a text is never longer than the text.
proof fn lemma_take_digits_len(s: Seq<char>)
    ensures
        crate::num::spec_take_digits(s).1.len() + crate::num::spec_take_digits(s).0.len() == s.len(),
    decreases s.len(),
{
    if s.len() > 0 && is_digit(s[0]) {
        lemma_take_digits_len(s.skip(1));
    }
}

/// Reading a number always consumes at least one digit.
pub proof fn lemma_parse_number_len(s: Seq<char>)
    ensures
        spec_parse_number(s) matches Some(p) ==> p.1.len() < s.len(),
{
    let neg = s.len() > 0 && s[0] == '-';
    let s1 = if neg { s.skip(1) } else { s };
    lemma_take_digits_len(s1);
    let ips2 = crate::num::spec_take_digits(s1);
    let s2 = ips2.1;
    let has_dot = s2.len() > 0 && s2[0] == '.';
    if has_dot {
        lemma_take_digits_len(s2.skip(1));
    }
    let fps3 = if has_dot {
        crate::num::spec_take_digits(s2.skip(1))
    } else {
        (Seq::<char>::empty(), s2)
    };
    let s3 = fps3.1;
    if s3.len() > 0 && (s3[0] == 'e' || s3[0] == 'E') {
        let s4 = s3.skip(1);
        let esigned = s4.len() > 0 && (s4[0] == '-' || s4[0] == '+');
        let s5 = if esigned { s4.skip(1) } else { s4 };
        lemma_take_digits_len(s5);
    }
}

/// Reading a value always consumes something.
proof fn lemma_parse_value_len(s: Seq<char>)
    ensures
        spec_parse_value(s) matches Some(p) ==> p.1.len() < s.len(),
{
    lemma_parse_string_len(s);
    lemma_parse_number_len(s);
}

/// A record under construction: each field read so far, each at most once.
pub ghost struct PartialV {
    pub time: Option<Fixed>,
    pub rpm: Option<u32>,
    pub tps: Option<Fixed>,
    pub throttle_position: Option<Fixed>,
    pub gear: Option<u32>,
    pub launch_validated: Option<Seq<char>>,
    pub fuel_flow_total: Option<Fixed>,
    pub engine_temp: Option<Fixed>,
    pub oil_pressure: Option<Fixed>,
    pub air_temp: Option<Fixed>,
    pub battery_voltage: Option<Fixed>,
    pub brake_pressure: Option<Fixed>,
    pub fuel_level: Option<Fixed>,
}

/// The record with no field read yet.
pub open spec fn empty_partial() -> PartialV {
    PartialV {
        time: None,
        rpm: None,
        tps: None,
        throttle_position: None,
        gear: None,
        launch_validated: None,
        fuel_flow_total: None,
        engine_temp: None,
        oil_pressure: None,
        air_temp: None,
        battery_voltage: None,
        brake_pressure: None,
        fuel_level: None,
    }
}

/// One where a `Some` counts nothing and a `None` counts one.
pub open spec fn unset<T>(o: Option<T>) -> nat {
    if o is Some {
        0
    } else {
        1
    }
}

/// How many fields are still unread.
pub open spec fn unset_count(p: PartialV) -> nat {
    unset(p.time) + unset(p.rpm) + unset(p.tps) + unset(p.throttle_position) + unset(p.gear)
        + unset(p.launch_validated) + unset(p.fuel_flow_total) + unset(p.engine_temp)
        + unset(p.oil_pressure) + unset(p.air_temp) + unset(p.battery_voltage)
        + unset(p.brake_pressure) + unset(p.fuel_level)
}

/// Stores one member into the record under construction: the field must
/// not have been read yet, and the value must have the field's type; the
/// two integer fields must carry exact unsigned integers.
pub open spec fn partial_put(p: PartialV, f: FieldName, v: ValV) -> Option<PartialV> {
    match f {
        FieldName::Time => match v {
            ValV::Num(x) => if p.time is Some { None } else { Some(PartialV { time: Some(x), ..p }) },
            _ => None,
        },
        FieldName::Rpm => match v {
            ValV::Num(x) => if p.rpm is Some { None } else {
                match spec_u32_of_fixed(x) {
                    Some(n) => Some(PartialV { rpm: Some(n), ..p }),
                    None => None,
                }
            },
            _ => None,
        },
        FieldName::Tps => match v {
            ValV::Num(x) => if p.tps is Some { None } else { Some(PartialV { tps: Some(x), ..p }) },
            _ => None,
        },
        FieldName::ThrottlePosition => match v {
            ValV::Num(x) => if p.throttle_position is Some { None } else { Some(PartialV { throttle_position: Some(x), ..p }) },
            _ => None,
        },
        FieldName::Gear => match v {
            ValV::Num(x) => if p.gear is Some { None } else {
                match spec_u32_of_fixed(x) {
                    Some(n) => Some(PartialV { gear: Some(n), ..p }),
                    None => None,
                }
            },
            _ => None,
        },
        FieldName::LaunchValidated => match v {
            ValV::Txt(t) => if p.launch_validated is Some { None } else { Some(PartialV { launch_validated: Some(t), ..p }) },
            _ => None,
        },
        FieldName::FuelFlowTotal => match v {
            ValV::Num(x) => if p.fuel_flow_total is Some { None } else { Some(PartialV { fuel_flow_total: Some(x), ..p }) },
            _ => None,
        },
        FieldName::EngineTemp => match v {
            ValV::Num(x) => if p.engine_temp is Some { None } else { Some(PartialV { engine_temp: Some(x), ..p }) },
            _ => None,
        },
        FieldName::OilPressure => match v {
            ValV::Num(x) => if p.oil_pressure is Some { None } else { Some(PartialV { oil_pressure: Some(x), ..p }) },
            _ => None,
        },
        FieldName::AirTemp => match v {
            ValV::Num(x) => if p.air_temp is Some { None } else { Some(PartialV { air_temp: Some(x), ..p }) },
            _ => None,
        },
        FieldName::BatteryVoltage => match v {
            ValV::Num(x) => if p.battery_voltage is Some { None } else { Some(PartialV { battery_voltage: Some(x), ..p }) },
            _ => None,
        },
        FieldName::BrakePressure => match v {
            ValV::Num(x) => if p.brake_pressure is Some { None } else { Some(PartialV { brake_pressure: Some(x), ..p }) },
            _ => None,
        },
        FieldName::FuelLevel => match v {
            ValV::Num(x) => if p.fuel_level is Some { None } else { Some(PartialV { fuel_level: Some(x), ..p }) },
            _ => None,
        },
    }
}

/// Storing a member always reads a field that was unread.
#[verifier::rlimit(50)]
proof fn lemma_partial_put_unset(p: PartialV, f: FieldName, v: ValV)
    ensures
        partial_put(p, f, v) matches Some(q) ==> unset_count(q) < unset_count(p),
{
    if partial_put(p, f, v) is Some {
        let q = partial_put(p, f, v)->Some_0;
        match f {
            FieldName::Time => assert(unset_count(q) < unset_count(p)),
            FieldName::Rpm => assert(unset_count(q) < unset_count(p)),
            FieldName::Tps => assert(unset_count(q) < unset_count(p)),
            FieldName::ThrottlePosition => assert(unset_count(q) < unset_count(p)),
            FieldName::Gear => assert(unset_count(q) < unset_count(p)),
            FieldName::LaunchValidated => assert(unset_count(q) < unset_count(p)),
            FieldName::FuelFlowTotal => assert(unset_count(q) < unset_count(p)),
            FieldName::EngineTemp => assert(unset_count(q) < unset_count(p)),
            FieldName::OilPressure => assert(unset_count(q) < unset_count(p)),
            FieldName::AirTemp => assert(unset_count(q) < unset_count(p)),
            FieldName::BatteryVoltage => assert(unset_count(q) < unset_count(p)),
            FieldName::BrakePressure => assert(unset_count(q) < unset_count(p)),
            FieldName::FuelLevel => assert(unset_count(q) < unset_count(p)),
        }
    }
}

/// The finished record, once every field has been read.
pub open spec fn partial_record(p: PartialV) -> Option<RecordV> {
    if p.time is Some && p.rpm is Some && p.tps is Some && p.throttle_position is Some
        && p.gear is Some && p.launch_validated is Some && p.fuel_flow_total is Some
        && p.engine_temp is Some && p.oil_pressure is Some && p.air_temp is Some
        && p.battery_voltage is Some && p.brake_pressure is Some && p.fuel_level is Some {
        Some(RecordV {
            time: p.time->Some_0,
            rpm: p.rpm->Some_0,
            tps: p.tps->Some_0,
            throttle_position: p.throttle_position->Some_0,
            gear: p.gear->Some_0,
            launch_validated: p.launch_validated->Some_0,
            fuel_flow_total: p.fuel_flow_total->Some_0,
            engine_temp: p.engine_temp->Some_0,
            oil_pressure: p.oil_pressure->Some_0,
            air_temp: p.air_temp->Some_0,
            battery_voltage: p.battery_voltage->Some_0,
            brake_pressure: p.brake_pressure->Some_0,
            fuel_level: p.fuel_level->Some_0,
        })
    } else {
        None
    }
}

/// Reads the members of a record object from just after its opening brace
/// or a separating comma: key, colon, value, then over a comma to the next
/// member or over the closing brace out.
pub open spec fn spec_parse_members(s: Seq<char>, p: PartialV) -> Option<(PartialV, Seq<char>)>
    decreases unset_count(p),
    via spec_parse_members_dec
{
    let s1 = spec_skip_ws(s);
    match spec_parse_string(s1) {
        None => None,
        Some(kp) => match spec_field_of_name(kp.0) {
            None => None,
            Some(f) => {
                let s3 = spec_skip_ws(kp.1);
                if s3.len() == 0 || s3[0] != ':' {
                    None
                } else {
                    let s4 = spec_skip_ws(s3.skip(1));
                    match spec_parse_value(s4) {
                        None => None,
                        Some(vp) => match partial_put(p, f, vp.0) {
                            None => None,
                            Some(p2) => {
                                let s6 = spec_skip_ws(vp.1);
                                if s6.len() == 0 {
                                    None
                                } else if s6[0] == '}' {
                                    Some((p2, s6.skip(1)))
                                } else if s6[0] == ',' {
                                    spec_parse_members(s6.skip(1), p2)
                                } else {
                                    None
                                }
                            },
                        },
                    }
                }
            },
        },
    }
}

#[via_fn]
proof fn spec_parse_members_dec(s: Seq<char>, p: PartialV) {
    assert forall|f: FieldName, v: ValV| partial_put(p, f, v) is Some
        implies unset_count(partial_put(p, f, v)->Some_0) < unset_count(p) by {
        lemma_partial_put_unset(p, f, v);
    }
}

/// Reading members always consumes at least the closing brace.
proof fn lemma_parse_members_len(s: Seq<char>, p: PartialV)
    ensures
        spec_parse_members(s, p) matches Some(q) ==> q.1.len() < s.len(),
    decreases unset_count(p),
{
    let s1 = spec_skip_ws(s);
    lemma_skip_ws_len(s);
    match spec_parse_string(s1) {
        None => {},
        Some(kp) => {
            lemma_parse_string_len(s1);
            match spec_field_of_name(kp.0) {
                None => {},
                Some(f) => {
                    let s3 = spec_skip_ws(kp.1);
                    lemma_skip_ws_len(kp.1);
                    if s3.len() > 0 && s3[0] == ':' {
                        let s4 = spec_skip_ws(s3.skip(1));
                        lemma_skip_ws_len(s3.skip(1));
                        match spec_parse_value(s4) {
                            None => {},
                            Some(vp) => {
                                lemma_parse_value_len(s4);
                                match partial_put(p, f, vp.0) {
                                    None => {},
                                    Some(p2) => {
                                        lemma_partial_put_unset(p, f, vp.0);
                                        let s6 = spec_skip_ws(vp.1);
                                        lemma_skip_ws_len(vp.1);
                                        if s6.len() > 0 && s6[0] == ',' {
                                            lemma_parse_members_len(s6.skip(1), p2);
                                        }
                                    },
                                }
                            },
                        }
                    }
                },
            }
        },
    }
}

/// Reads one record object from the front of `s`: an opening brace, every
/// dictionary field exactly once in any order, and the closing brace.
pub open spec fn spec_parse_record(s: Seq<char>) -> Option<(RecordV, Seq<char>)> {
    if s.len() == 0 || s[0] != '{' {
        None
    } else {
        match spec_parse_members(s.skip(1), empty_partial()) {
            None => None,
            Some(p) => match partial_record(p.0) {
                None => None,
                Some(r) => Some((r, p.1)),
            },
        }
    }
}

/// Reading a record always consumes at least its braces.
proof fn lemma_parse_record_len(s: Seq<char>)
    ensures
        spec_parse_record(s) matches Some(p) ==> p.1.len() < s.len(),
{
    if s.len() > 0 && s[0] == '{' {
        lemma_parse_members_len(s.skip(1), empty_partial());
    }
}

/// Reads array elements from just after the opening bracket or a comma:
/// one record, then over a comma to the next element or over the closing
/// bracket out.
pub open spec fn spec_parse_elems(s: Seq<char>) -> Option<(Seq<RecordV>, Seq<char>)>
    decreases s.len(),
    via spec_parse_elems_dec
{
    let s1 = spec_skip_ws(s);
    match spec_parse_record(s1) {
        None => None,
        Some(rp) => {
            let s3 = spec_skip_ws(rp.1);
            if s3.len() == 0 {
                None
            } else if s3[0] == ']' {
                Some((seq![rp.0], s3.skip(1)))
            } else if s3[0] == ',' {
                match spec_parse_elems(s3.skip(1)) {
                    None => None,
                    Some(q) => Some((seq![rp.0].add(q.0), q.1)),
                }
            } else {
                None
            }
        },
    }
}

#[via_fn]
proof fn spec_parse_elems_dec(s: Seq<char>) {
    let s1 = spec_skip_ws(s);
    lemma_skip_ws_len(s);
    lemma_parse_record_len(s1);
    match spec_parse_record(s1) {
        None => {},
        Some(rp) => {
            lemma_skip_ws_len(rp.1);
        },
    }
}

/// What the whole persisted document carries: optional whitespace, a
/// top-level array of record objects, optional whitespace, the end.
pub open spec fn spec_parse_doc(text: Seq<char>) -> Option<Seq<RecordV>> {
    let s0 = spec_skip_ws(text);
    if s0.len() == 0 || s0[0] != '[' {
        None
    } else {
        let s1 = spec_skip_ws(s0.skip(1));
        if s1.len() > 0 && s1[0] == ']' {
            if spec_skip_ws(s1.skip(1)).len() == 0 {
                Some(Seq::empty())
            } else {
                None
            }
        } else {
            match spec_parse_elems(s0.skip(1)) {
                None => None,
                Some(q) => if spec_skip_ws(q.1).len() == 0 {
                    Some(q.0)
                } else {
                    None
                },
            }
        }
    }
}

/// Advances over whitespace, in executable code.
fn skip_ws_at(s: &Vec<char>, i: usize) -> (j: usize)
    requires
        i <= s@.len(),
    ensures
        i <= j <= s@.len(),
        spec_skip_ws(s@.skip(i as int)) == s@.skip(j as int),
{
    let mut j: usize = i;
    loop
        invariant
            i <= j <= s@.len(),
            spec_skip_ws(s@.skip(i as int)) == spec_skip_ws(s@.skip(j as int)),
        ensures
            j == s@.len() || !is_ws(s@[j as int]),
        decreases s@.len() - j,
    {
        if j == s.len() {
            break;
        }
        let c = s[j];
        if !(c == ' ' || c == '\n' || c == '\t' || c == '\r') {
            break;
        }
        proof {
            assert(s@.skip(j as int)[0] == s@[j as int]);
            assert(s@.skip(j as int).skip(1) =~= s@.skip(j as int + 1));
        }
        j = j + 1;
    }
    proof {
        if j < s.len() {
            assert(s@.skip(j as int)[0] == s@[j as int]);
        }
        assert(spec_skip_ws(s@.skip(j as int)) == s@.skip(j as int));
    }
    j
}

/// The character an escape introducer selects, in executable code.
fn esc_char_exec(c: char) -> (r: Option<char>)
    ensures
        r == esc_char(c),
{
    if c == '"' {
        Some('"')
    } else if c == '\\' {
        Some('\\')
    } else if c == '/' {
        Some('/')
    } else if c == 'n' {
        Some('\n')
    } else if c == 't' {
        Some('\t')
    } else if c == 'r' {
        Some('\r')
    } else if c == 'b' {
        Some('\u{0008}')
    } else if c == 'f' {
        Some('\u{000C}')
    } else {
        None
    }
}

/// The value of one hexadecimal digit, in executable code.
fn hex_digit(c: char) -> (r: Option<u32>)
    ensures
        match r {
            Some(v) => hex_val(c) == Some(v as int) && v < 16,
            None => hex_val(c) is None,
        },
{
    if '0' <= c && c <= '9' {
        Some(c as u32 - 48)
    } else if 'a' <= c && c <= 'f' {
        Some(c as u32 - 87)
    } else if 'A' <= c && c <= 'F' {
        Some(c as u32 - 55)
    } else {
        None
    }
}

/// Reads one quoted string starting at `i`, in executable code.
#[verifier::loop_isolation(false)]
#[verifier::rlimit(100)]
fn parse_string_at(s: &Vec<char>, i: usize) -> (r: Option<(Vec<char>, usize)>)
    requires
        i <= s@.len(),
    ensures
        match r {
            Some(p) => i < p.1 <= s@.len()
                && spec_parse_string(s@.skip(i as int)) == Some((p.0@, s@.skip(p.1 as int))),
            None => spec_parse_string(s@.skip(i as int)) is None,
        },
{
    if i == s.len() || s[i] != '"' {
        proof {
            if i < s.len() {
                assert(s@.skip(i as int)[0] == s@[i as int]);
            }
        }
        return None;
    }
    proof {
        assert(s@.skip(i as int)[0] == s@[i as int]);
        assert(s@.skip(i as int).skip(1) =~= s@.skip(i as int + 1));
    }
    let mut out: Vec<char> = Vec::new();
    let mut j: usize = i + 1;
    loop
        invariant
            i + 1 <= j <= s@.len(),
            spec_parse_str_chars(s@.skip(i as int + 1)) == (match spec_parse_str_chars(s@.skip(j as int)) {
                Some(p) => Some((out@ + p.0, p.1)),
                None => None,
            }),
        decreases s@.len() - j,
    {
        if j == s.len() {
            proof {
                assert(s@.skip(j as int).len() == 0);
            }
            return None;
        }
        let c = s[j];
        proof {
            assert(s@.skip(j as int)[0] == s@[j as int]);
            assert(s@.skip(j as int).skip(1) =~= s@.skip(j as int + 1));
        }
        if c == '"' {
            proof {
                assert(spec_parse_str_chars(s@.skip(j as int))
                    == Some((Seq::<char>::empty(), s@.skip(j as int + 1))));
                assert(out@ + Seq::<char>::empty() =~= out@);
            }
            return Some((out, j + 1));
        } else if c == '\\' {
            if j + 1 == s.len() {
                proof {
                    assert(s@.skip(j as int).len() == 1);
                }
                return None;
            }
            let e = s[j + 1];
            proof {
                assert(s@.skip(j as int)[1] == s@[j as int + 1]);
                assert(s@.skip(j as int).skip(2) =~= s@.skip(j as int + 2));
                assert(s@.skip(j as int).len() >= 2);
            }
            if e == 'u' {
                if s.len() - j < 6 {
                    proof {
                        assert(s@.skip(j as int).len() < 6);
                    }
                    return None;
                }
                proof {
                    assert(s@.skip(j as int)[2] == s@[j as int + 2]);
                    assert(s@.skip(j as int)[3] == s@[j as int + 3]);
                    assert(s@.skip(j as int)[4] == s@[j as int + 4]);
                    assert(s@.skip(j as int)[5] == s@[j as int + 5]);
                    assert(s@.skip(j as int).skip(6) =~= s@.skip(j as int + 6));
                    assert(s@.skip(j as int).len() >= 6);
                }
                let h0 = match hex_digit(s[j + 2]) {
                    Some(v) => v,
                    None => {
                        return None;
                    },
                };
                let h1 = match hex_digit(s[j + 3]) {
                    Some(v) => v,
                    None => {
                        return None;
                    },
                };
                let h2 = match hex_digit(s[j + 4]) {
                    Some(v) => v,
                    None => {
                        return None;
                    },
                };
                let h3 = match hex_digit(s[j + 5]) {
                    Some(v) => v,
                    None => {
                        return None;
                    },
                };
                let cv: u32 = h0 * 4096 + h1 * 256 + h2 * 16 + h3;
                proof {
                    assert(hex4_val(s@[j as int + 2], s@[j as int + 3], s@[j as int + 4], s@[j as int + 5])
                        == Some(cv as int));
                }
                if 0xD800 <= cv && cv < 0xE000 {
                    return None;
                }
                let dec = char_from_code(cv);
                proof {
                    let pre = s@.skip(j as int);
                    let post = s@.skip(j as int + 6);
                    assert(dec == ((cv as int) as char));
                    assert(spec_parse_str_chars(pre) == (match spec_parse_str_chars(post) {
                        Some(p) => Some::<(Seq<char>, Seq<char>)>((seq![dec].add(p.0), p.1)),
                        None => None::<(Seq<char>, Seq<char>)>,
                    }));
                }
                let ghost out_pre = out@;
                out.push(dec);
                j = j + 6;
                proof {
                    if spec_parse_str_chars(s@.skip(j as int)) is Some {
                        let p = spec_parse_str_chars(s@.skip(j as int))->Some_0;
                        assert(out_pre + (seq![dec] + p.0) =~= out@ + p.0);
                    }
                }
                continue;
            }
            match esc_char_exec(e) {
                None => {
                    return None;
                },
                Some(dec) => {
                    proof {
                        let pre = s@.skip(j as int);
                        let post = s@.skip(j as int + 2);
                        assert(spec_parse_str_chars(pre) == (match spec_parse_str_chars(post) {
                            Some(p) => Some::<(Seq<char>, Seq<char>)>((seq![dec].add(p.0), p.1)),
                            None => None::<(Seq<char>, Seq<char>)>,
                        }));
                    }
                    let ghost out_pre = out@;
                    out.push(dec);
                    j = j + 2;
                    proof {
                        if spec_parse_str_chars(s@.skip(j as int)) is Some {
                            let p = spec_parse_str_chars(s@.skip(j as int))->Some_0;
                            assert(out_pre + (seq![dec] + p.0) =~= out@ + p.0);
                        }
                    }
                },
            }
        } else if (c as u32) < 32 {
            proof {
                assert((s@.skip(j as int)[0] as u32) < 32);
                assert(spec_parse_str_chars(s@.skip(j as int)) is None);
            }
            return None;
        } else {
            proof {
                let pre = s@.skip(j as int);
                let post = s@.skip(j as int + 1);
                assert((pre[0] as u32) >= 32);
                assert(spec_parse_str_chars(pre) == (match spec_parse_str_chars(post) {
                    Some(p) => Some::<(Seq<char>, Seq<char>)>((seq![c].add(p.0), p.1)),
                    None => None::<(Seq<char>, Seq<char>)>,
                }));
            }
            let ghost out_pre = out@;
            out.push(c);
            j = j + 1;
            proof {
                if spec_parse_str_chars(s@.skip(j as int)) is Some {
                    let p = spec_parse_str_chars(s@.skip(j as int))->Some_0;
                    assert(out_pre + (seq![c] + p.0) =~= out@ + p.0);
                }
            }
        }
    }
}

/// A scalar member value, in executable code.
pub(crate) enum Val {
    Num(Fixed),
    Txt(Vec<char>),
}

/// The value a scalar member stands for.
pub(crate) open spec fn val_view(v: &Val) -> ValV {
    match v {
        Val::Num(x) => ValV::Num(*x),
        Val::Txt(t) => ValV::Txt(t@),
    }
}

/// Reads one member value starting at `i`, in executable code.
fn parse_value_at(s: &Vec<char>, i: usize) -> (r: Option<(Val, usize)>)
    requires
        i <= s@.len(),
    ensures
        match r {
            Some(p) => i < p.1 <= s@.len()
                && spec_parse_value(s@.skip(i as int)) == Some((val_view(&p.0), s@.skip(p.1 as int))),
            None => spec_parse_value(s@.skip(i as int)) is None,
        },
{
    proof {
        if i < s.len() {
            assert(s@.skip(i as int)[0] == s@[i as int]);
        }
    }
    if i < s.len() && s[i] == '"' {
        match parse_string_at(s, i) {
            Some(p) => Some((Val::Txt(p.0), p.1)),
            None => None,
        }
    } else {
        match parse_number(s, i) {
            Some(p) => {
                proof {
                    lemma_parse_number_len(s@.skip(i as int));
                    assert(s@.skip(p.1 as int).len() < s@.skip(i as int).len());
                }
                Some((Val::Num(p.0), p.1))
            },
            None => None,
        }
    }
}

/// A record under construction, in executable code.
pub(crate) struct PartialRec {
    pub(crate) time: Option<Fixed>,
    pub(crate) rpm: Option<u32>,
    pub(crate) tps: Option<Fixed>,
    pub(crate) throttle_position: Option<Fixed>,
    pub(crate) gear: Option<u32>,
    pub(crate) launch_validated: Option<Vec<char>>,
    pub(crate) fuel_flow_total: Option<Fixed>,
    pub(crate) engine_temp: Option<Fixed>,
    pub(crate) oil_pressure: Option<Fixed>,
    pub(crate) air_temp: Option<Fixed>,
    pub(crate) battery_voltage: Option<Fixed>,
    pub(crate) brake_pressure: Option<Fixed>,
    pub(crate) fuel_level: Option<Fixed>,
}

/// The fields a record under construction has read so far.
pub(crate) open spec fn pview(p: &PartialRec) -> PartialV {
    PartialV {
        time: p.time,
        rpm: p.rpm,
        tps: p.tps,
        throttle_position: p.throttle_position,
        gear: p.gear,
        launch_validated: match p.launch_validated {
            Some(t) => Some(t@),
            None => None,
        },
        fuel_flow_total: p.fuel_flow_total,
        engine_temp: p.engine_temp,
        oil_pressure: p.oil_pressure,
        air_temp: p.air_temp,
        battery_voltage: p.battery_voltage,
        brake_pressure: p.brake_pressure,
        fuel_level: p.fuel_level,
    }
}

/// The record with no field read yet, in executable code.
pub(crate) fn empty_partial_exec() -> (p: PartialRec)
    ensures
        pview(&p) == empty_partial(),
{
    PartialRec {
        time: None,
        rpm: None,
        tps: None,
        throttle_position: None,
        gear: None,
        launch_validated: None,
        fuel_flow_total: None,
        engine_temp: None,
        oil_pressure: None,
        air_temp: None,
        battery_voltage: None,
        brake_pressure: None,
        fuel_level: None,
    }
}

/// Stores one member into the record under construction, in executable code.
pub(crate) fn partial_put_exec(p: PartialRec, f: FieldName, v: Val) -> (r: Option<PartialRec>)
    ensures
        match r {
            Some(q) => partial_put(pview(&p), f, val_view(&v)) == Some(pview(&q)),
            None => partial_put(pview(&p), f, val_view(&v)) is None,
        },
{
    match f {
        FieldName::Time => match v {
            Val::Num(x) => if p.time.is_some() { None } else { Some(PartialRec { time: Some(x), ..p }) },
            _ => None,
        },
        FieldName::Rpm => match v {
            Val::Num(x) => if p.rpm.is_some() { None } else {
                match u32_of_fixed(x) {
                    Some(n) => Some(PartialRec { rpm: Some(n), ..p }),
                    None => None,
                }
            },
            _ => None,
        },
        FieldName::Tps => match v {
            Val::Num(x) => if p.tps.is_some() { None } else { Some(PartialRec { tps: Some(x), ..p }) },
            _ => None,
        },
        FieldName::ThrottlePosition => match v {
            Val::Num(x) => if p.throttle_position.is_some() { None } else { Some(PartialRec { throttle_position: Some(x), ..p }) },
            _ => None,
        },
        FieldName::Gear => match v {
            Val::Num(x) => if p.gear.is_some() { None } else {
                match u32_of_fixed(x) {
                    Some(n) => Some(PartialRec { gear: Some(n), ..p }),
                    None => None,
                }
            },
            _ => None,
        },
        FieldName::LaunchValidated => match v {
            Val::Txt(t) => if p.launch_validated.is_some() { None } else { Some(PartialRec { launch_validated: Some(t), ..p }) },
            _ => None,
        },
        FieldName::FuelFlowTotal => match v {
            Val::Num(x) => if p.fuel_flow_total.is_some() { None } else { Some(PartialRec { fuel_flow_total: Some(x), ..p }) },
            _ => None,
        },
        FieldName::EngineTemp => match v {
            Val::Num(x) => if p.engine_temp.is_some() { None } else { Some(PartialRec { engine_temp: Some(x), ..p }) },
            _ => None,
        },
        FieldName::OilPressure => match v {
            Val::Num(x) => if p.oil_pressure.is_some() { None } else { Some(PartialRec { oil_pressure: Some(x), ..p }) },
            _ => None,
        },
        FieldName::AirTemp => match v {
            Val::Num(x) => if p.air_temp.is_some() { None } else { Some(PartialRec { air_temp: Some(x), ..p }) },
            _ => None,
        },
        FieldName::BatteryVoltage => match v {
            Val::Num(x) => if p.battery_voltage.is_some() { None } else { Some(PartialRec { battery_voltage: Some(x), ..p }) },
            _ => None,
        },
        FieldName::BrakePressure => match v {
            Val::Num(x) => if p.brake_pressure.is_some() { None } else { Some(PartialRec { brake_pressure: Some(x), ..p }) },
            _ => None,
        },
        FieldName::FuelLevel => match v {
            Val::Num(x) => if p.fuel_level.is_some() { None } else { Some(PartialRec { fuel_level: Some(x), ..p }) },
            _ => None,
        },
    }
}

/// The finished record, once every field has been read, in executable code.
pub(crate) fn partial_record_exec(p: PartialRec) -> (r: Option<Record>)
    ensures
        match r {
            Some(rec) => partial_record(pview(&p)) == Some(rec@),
            None => partial_record(pview(&p)) is None,
        },
{
    match (p.time, p.rpm, p.tps, p.throttle_position, p.gear, p.launch_validated,
           p.fuel_flow_total, p.engine_temp, p.oil_pressure, p.air_temp,
           p.battery_voltage, p.brake_pressure, p.fuel_level) {
        (Some(time), Some(rpm), Some(tps), Some(throttle_position), Some(gear),
         Some(flag), Some(fuel_flow_total), Some(engine_temp), Some(oil_pressure),
         Some(air_temp), Some(battery_voltage), Some(brake_pressure), Some(fuel_level)) => {
            let launch_validated = chars_to_string(&flag);
            Some(Record {
                time,
                rpm,
                tps,
                throttle_position,
                gear,
                launch_validated,
                fuel_flow_total,
                engine_temp,
                oil_pressure,
                air_temp,
                battery_voltage,
                brake_pressure,
                fuel_level,
            })
        },
        _ => None,
    }
}

/// Reads record members starting at `i`, in executable code.
fn parse_members_at(s: &Vec<char>, i: usize, p: PartialRec) -> (r: Option<(PartialRec, usize)>)
    requires
        i <= s@.len(),
    ensures
        match r {
            Some(q) => i < q.1 <= s@.len()
                && spec_parse_members(s@.skip(i as int), pview(&p)) == Some((pview(&q.0), s@.skip(q.1 as int))),
            None => spec_parse_members(s@.skip(i as int), pview(&p)) is None,
        },
    decreases s@.len() - i,
{
    let ghost whole = s@.skip(i as int);
    let j1 = skip_ws_at(s, i);
    let (key, j2) = match parse_string_at(s, j1) {
        Some(kp) => kp,
        None => {
            return None;
        },
    };
    let key_string = chars_to_string(&key);
    let f = match field_of_name(key_string.as_str()) {
        Some(f) => f,
        None => {
            return None;
        },
    };
    let j3 = skip_ws_at(s, j2);
    if j3 == s.len() || s[j3] != ':' {
        proof {
            if j3 < s.len() {
                assert(s@.skip(j3 as int)[0] == s@[j3 as int]);
            }
        }
        return None;
    }
    proof {
        assert(s@.skip(j3 as int)[0] == s@[j3 as int]);
        assert(s@.skip(j3 as int).skip(1) =~= s@.skip(j3 as int + 1));
    }
    let j4 = skip_ws_at(s, j3 + 1);
    let (v, j5) = match parse_value_at(s, j4) {
        Some(vp) => vp,
        None => {
            return None;
        },
    };
    let p2 = match partial_put_exec(p, f, v) {
        Some(q) => q,
        None => {
            return None;
        },
    };
    let j6 = skip_ws_at(s, j5);
    if j6 == s.len() {
        return None;
    }
    proof {
        assert(s@.skip(j6 as int)[0] == s@[j6 as int]);
        assert(s@.skip(j6 as int).skip(1) =~= s@.skip(j6 as int + 1));
    }
    if s[j6] == '}' {
        Some((p2, j6 + 1))
    } else if s[j6] == ',' {
        parse_members_at(s, j6 + 1, p2)
    } else {
        None
    }
}

/// Reads one record object starting at `i`, in executable code.
fn parse_record_at(s: &Vec<char>, i: usize) -> (r: Option<(Record, usize)>)
    requires
        i <= s@.len(),
    ensures
        match r {
            Some(p) => i < p.1 <= s@.len()
                && spec_parse_record(s@.skip(i as int)) == Some((p.0@, s@.skip(p.1 as int))),
            None => spec_parse_record(s@.skip(i as int)) is None,
        },
{
    if i == s.len() || s[i] != '{' {
        proof {
            if i < s.len() {
                assert(s@.skip(i as int)[0] == s@[i as int]);
            }
        }
        return None;
    }
    proof {
        assert(s@.skip(i as int)[0] == s@[i as int]);
        assert(s@.skip(i as int).skip(1) =~= s@.skip(i as int + 1));
    }
    let empty = empty_partial_exec();
    match parse_members_at(s, i + 1, empty) {
        Some(q) => {
            match partial_record_exec(q.0) {
                Some(rec) => Some((rec, q.1)),
                None => None,
            }
        },
        None => None,
    }
}

/// Reads array elements starting at `i`, in executable code.
fn parse_elems_at(s: &Vec<char>, i: usize) -> (r: Option<(Vec<Record>, usize)>)
    requires
        i <= s@.len(),
    ensures
        match r {
            Some(p) => i < p.1 <= s@.len()
                && spec_parse_elems(s@.skip(i as int)) == Some((p.0.deep_view(), s@.skip(p.1 as int))),
            None => spec_parse_elems(s@.skip(i as int)) is None,
        },
    decreases s@.len() - i,
{
    let j1 = skip_ws_at(s, i);
    proof {
        lemma_skip_ws_len(s@.skip(i as int));
    }
    let (rec, j2) = match parse_record_at(s, j1) {
        Some(rp) => rp,
        None => {
            return None;
        },
    };
    let j3 = skip_ws_at(s, j2);
    if j3 == s.len() {
        return None;
    }
    proof {
        assert(s@.skip(j3 as int)[0] == s@[j3 as int]);
        assert(s@.skip(j3 as int).skip(1) =~= s@.skip(j3 as int + 1));
    }
    if s[j3] == ']' {
        let mut single: Vec<Record> = Vec::new();
        single.push(rec);
        proof {
            assert(single.deep_view() =~= seq![rec@]);
        }
        Some((single, j3 + 1))
    } else if s[j3] == ',' {
        match parse_elems_at(s, j3 + 1) {
            Some(q) => {
                let mut rest = q.0;
                rest.insert(0, rec);
                proof {
                    assert(rest.deep_view() =~= seq![rec@].add(q.0.deep_view()));
                }
                Some((rest, q.1))
            },
            None => None,
        }
    } else {
        None
    }
}

/// Parses the whole persisted document, as `spec_parse_doc` reads it.
#[verifier::rlimit(60)]
pub fn parse_doc(text: &str) -> (r: Result<Vec<Record>, LoadError>)
    ensures
        match r {
            Ok(v) => spec_parse_doc(text@) == Some(v.deep_view()),
            Err(e) => spec_parse_doc(text@) is None && e == LoadError::RecordParse,
        },
{
    let s = str_to_chars(text);
    proof {
        assert(s@.skip(0) =~= s@);
    }
    let j0 = skip_ws_at(&s, 0);
    if j0 == s.len() || s[j0] != '[' {
        proof {
            if j0 < s.len() {
                assert(s@.skip(j0 as int)[0] == s@[j0 as int]);
            }
        }
        return Err(LoadError::RecordParse);
    }
    proof {
        assert(s@.skip(j0 as int)[0] == s@[j0 as int]);
        assert(s@.skip(j0 as int).skip(1) =~= s@.skip(j0 as int + 1));
    }
    let j1 = skip_ws_at(&s, j0 + 1);
    if j1 < s.len() && s[j1] == ']' {
        proof {
            assert(s@.skip(j1 as int)[0] == s@[j1 as int]);
            assert(s@.skip(j1 as int).skip(1) =~= s@.skip(j1 as int + 1));
        }
        let j2 = skip_ws_at(&s, j1 + 1);
        if j2 == s.len() {
            let empty: Vec<Record> = Vec::new();
            proof {
                assert(empty.deep_view() =~= Seq::<RecordV>::empty());
            }
            return Ok(empty);
        } else {
            return Err(LoadError::RecordParse);
        }
    }
    proof {
        if j1 < s.len() {
            assert(s@.skip(j1 as int)[0] == s@[j1 as int]);
        }
    }
    match parse_elems_at(&s, j0 + 1) {
        Some(q) => {
            let j3 = skip_ws_at(&s, q.1);
            if j3 == s.len() {
                Ok(q.0)
            } else {
                Err(LoadError::RecordParse)
            }
        },
        None => Err(LoadError::RecordParse),
    }
}

/// The hexadecimal digit character for a value below sixteen.
pub open spec fn spec_hex_digit(d: int) -> char {
    if d < 10 {
        ((d + 48) as char)
    } else {
        ((d + 87) as char)
    }
}

/// The printed form of one character inside a quoted string: itself when
/// it needs no escape, a short escape where one exists, and a four-digit
/// hexadecimal escape for the remaining control characters.
pub open spec fn spec_escape_char(c: char) -> Seq<char> {
    if c == '"' {
        seq!['\\', '"']
    } else if c == '\\' {
        seq!['\\', '\\']
    } else if c == '\n' {
        seq!['\\', 'n']
    } else if c == '\t' {
        seq!['\\', 't']
    } else if c == '\r' {
        seq!['\\', 'r']
    } else if c == '\u{0008}' {
        seq!['\\', 'b']
    } else if c == '\u{000C}' {
        seq!['\\', 'f']
    } else if (c as u32) < 32 {
        seq!['\\', 'u', '0', '0', spec_hex_digit((c as u32) as int / 16), spec_hex_digit((c as u32) as int % 16)]
    } else {
        seq![c]
    }
}

/// The printed form of a whole text inside a quoted string.
pub open spec fn spec_escape_text(s: Seq<char>) -> Seq<char>
    decreases s.len(),
{
    if s.len() == 0 {
        Seq::empty()
    } else {
        spec_escape_char(s[0]).add(spec_escape_text(s.skip(1)))
    }
}

/// The canonical text of one member's value.
pub open spec fn spec_encode_field_value(r: RecordV, f: FieldName) -> Seq<char> {
    match f {
        FieldName::Time => spec_fmt_fixed(r.time),
        FieldName::Rpm => spec_fmt_u32(r.rpm),
        FieldName::Tps => spec_fmt_fixed(r.tps),
        FieldName::ThrottlePosition => spec_fmt_fixed(r.throttle_position),
        FieldName::Gear => spec_fmt_u32(r.gear),
        FieldName::LaunchValidated => seq!['"'].add(spec_escape_text(r.launch_validated)).add(seq!['"']),
        FieldName::FuelFlowTotal => spec_fmt_fixed(r.fuel_flow_total),
        FieldName::EngineTemp => spec_fmt_fixed(r.engine_temp),
        FieldName::OilPressure => spec_fmt_fixed(r.oil_pressure),
        FieldName::AirTemp => spec_fmt_fixed(r.air_temp),
        FieldName::BatteryVoltage => spec_fmt_fixed(r.battery_voltage),
        FieldName::BrakePressure => spec_fmt_fixed(r.brake_pressure),
        FieldName::FuelLevel => spec_fmt_fixed(r.fuel_level),
    }
}

/// The canonical text of one member: the quoted field name, a colon, and
/// the member's value.
pub open spec fn spec_encode_pair(r: RecordV, f: FieldName) -> Seq<char> {
    seq!['"'].add(spec_field_name(f)).add(seq!['"', ':']).add(spec_encode_field_value(r, f))
}

/// The members from dictionary position `k` on, comma separated, with the
/// closing brace.
pub open spec fn spec_encode_pairs_from(r: RecordV, k: int) -> Seq<char>
    decreases 13 - k,
{
    if k >= 12 {
        spec_encode_pair(r, FieldName::FuelLevel).add(seq!['}'])
    } else {
        spec_encode_pair(r, field_order()[k]).add(seq![',']).add(spec_encode_pairs_from(r, k + 1))
    }
}

/// The canonical text of one record object: every member in dictionary
/// order, compact.
pub open spec fn spec_encode_record(r: RecordV) -> Seq<char> {
    seq!['{'].add(spec_encode_pairs_from(r, 0))
}

/// The array elements from position `k` on, comma separated, with the
/// closing bracket.
pub open spec fn spec_encode_elems_from(rs: Seq<RecordV>, k: int) -> Seq<char>
    decreases rs.len() - k,
{
    if k >= rs.len() - 1 {
        spec_encode_record(rs[k]).add(seq![']'])
    } else {
        spec_encode_record(rs[k]).add(seq![',']).add(spec_encode_elems_from(rs, k + 1))
    }
}

/// The canonical text of the whole persisted document.
pub open spec fn spec_encode_doc(rs: Seq<RecordV>) -> Seq<char> {
    if rs.len() == 0 {
        seq!['[', ']']
    } else {
        seq!['['].add(spec_encode_elems_from(rs, 0))
    }
}

/// Appends the characters of a string slice.
#[verifier::loop_isolation(false)]
fn push_str_chars(text: &str, out: &mut Vec<char>)
    ensures
        final(out)@ == old(out)@ + text@,
{
    let cs = str_to_chars(text);
    let mut i: usize = 0;
    while i < cs.len()
        invariant
            0 <= i <= cs@.len(),
            out@ == old(out)@ + cs@.take(i as int),
        decreases cs@.len() - i,
    {
        out.push(cs[i]);
        proof {
            assert(out@ =~= old(out)@ + cs@.take(i as int + 1));
        }
        i = i + 1;
    }
    proof {
        assert(cs@.take(cs@.len() as int) =~= cs@);
    }
}

/// The hexadecimal digit character for a value below sixteen, in
/// executable code.
fn hex_digit_char(d: u32) -> (r: char)
    requires
        d < 16,
    ensures
        r == spec_hex_digit(d as int),
{
    match d {
        0 => '0',
        1 => '1',
        2 => '2',
        3 => '3',
        4 => '4',
        5 => '5',
        6 => '6',
        7 => '7',
        8 => '8',
        9 => '9',
        10 => 'a',
        11 => 'b',
        12 => 'c',
        13 => 'd',
        14 => 'e',
        _ => 'f',
    }
}

/// Appends the printed form of one character inside a quoted string.
fn push_escaped_char(c: char, out: &mut Vec<char>)
    ensures
        final(out)@ == old(out)@ + spec_escape_char(c),
{
    if c == '"' {
        out.push('\\');
        out.push('"');
    } else if c == '\\' {
        out.push('\\');
        out.push('\\');
    } else if c == '\n' {
        out.push('\\');
        out.push('n');
    } else if c == '\t' {
        out.push('\\');
        out.push('t');
    } else if c == '\r' {
        out.push('\\');
        out.push('r');
    } else if c == '\u{0008}' {
        out.push('\\');
        out.push('b');
    } else if c == '\u{000C}' {
        out.push('\\');
        out.push('f');
    } else if (c as u32) < 32 {
        out.push('\\');
        out.push('u');
        out.push('0');
        out.push('0');
        out.push(hex_digit_char((c as u32) / 16));
        out.push(hex_digit_char((c as u32) % 16));
    } else {
        out.push(c);
    }
    proof {
        assert(out@ =~= old(out)@ + spec_escape_char(c));
    }
}

/// Appends the printed form of the text from position `k` on.
fn push_escaped_from(v: &Vec<char>, k: usize, out: &mut Vec<char>)
    requires
        k <= v@.len(),
    ensures
        final(out)@ == old(out)@ + spec_escape_text(v@.skip(k as int)),
    decreases v@.len() - k,
{
    if k == v.len() {
        proof {
            assert(v@.skip(k as int).len() == 0);
            assert(out@ =~= old(out)@ + spec_escape_text(v@.skip(k as int)));
        }
        return;
    }
    proof {
        assert(v@.skip(k as int)[0] == v@[k as int]);
        assert(v@.skip(k as int).skip(1) =~= v@.skip(k as int + 1));
    }
    push_escaped_char(v[k], out);
    push_escaped_from(v, k + 1, out);
    proof {
        assert(out@ =~= old(out)@ + spec_escape_text(v@.skip(k as int)));
    }
}

/// Appends the canonical text of one member.
fn push_pair(r: &Record, f: FieldName, out: &mut Vec<char>)
    requires
        f == FieldName::LaunchValidated || spec_project(r@, f) is Some,
        record_ok(r@),
    ensures
        final(out)@ == old(out)@ + spec_encode_pair(r@, f),
{
    out.push('"');
    push_str_chars(field_name_str(f), out);
    out.push('"');
    out.push(':');
    match f {
        FieldName::Time => push_fixed(r.time, out),
        FieldName::Rpm => push_u32(r.rpm, out),
        FieldName::Tps => push_fixed(r.tps, out),
        FieldName::ThrottlePosition => push_fixed(r.throttle_position, out),
        FieldName::Gear => push_u32(r.gear, out),
        FieldName::LaunchValidated => {
            out.push('"');
            let flag = str_to_chars(r.launch_validated.as_str());
            proof {
                assert(flag@.skip(0) =~= flag@);
            }
            push_escaped_from(&flag, 0, out);
            out.push('"');
        },
        FieldName::FuelFlowTotal => push_fixed(r.fuel_flow_total, out),
        FieldName::EngineTemp => push_fixed(r.engine_temp, out),
        FieldName::OilPressure => push_fixed(r.oil_pressure, out),
        FieldName::AirTemp => push_fixed(r.air_temp, out),
        FieldName::BatteryVoltage => push_fixed(r.battery_voltage, out),
        FieldName::BrakePressure => push_fixed(r.brake_pressure, out),
        FieldName::FuelLevel => push_fixed(r.fuel_level, out),
    }
    proof {
        assert(out@ =~= old(out)@ + spec_encode_pair(r@, f));
    }
}

/// The dictionary field at position `k`, in executable code.
fn field_at(k: usize) -> (f: FieldName)
    requires
        k < 13,
    ensures
        f == field_order()[k as int],
{
    if k == 0 {
        FieldName::Time
    } else if k == 1 {
        FieldName::Rpm
    } else if k == 2 {
        FieldName::Tps
    } else if k == 3 {
        FieldName::ThrottlePosition
    } else if k == 4 {
        FieldName::Gear
    } else if k == 5 {
        FieldName::LaunchValidated
    } else if k == 6 {
        FieldName::FuelFlowTotal
    } else if k == 7 {
        FieldName::EngineTemp
    } else if k == 8 {
        FieldName::OilPressure
    } else if k == 9 {
        FieldName::AirTemp
    } else if k == 10 {
        FieldName::BatteryVoltage
    } else if k == 11 {
        FieldName::BrakePressure
    } else {
        FieldName::FuelLevel
    }
}

/// Appends the canonical text of the members from position `k` on.
fn push_pairs_from(r: &Record, k: usize, out: &mut Vec<char>)
    requires
        k < 13,
        record_ok(r@),
    ensures
        final(out)@ == old(out)@ + spec_encode_pairs_from(r@, k as int),
    decreases 13 - k,
{
    let f = field_at(k);
    proof {
        assert(f == FieldName::LaunchValidated || spec_project(r@, f) is Some);
    }
    push_pair(r, f, out);
    if k == 12 {
        out.push('}');
        proof {
            assert(f == FieldName::FuelLevel);
            assert(out@ =~= old(out)@ + spec_encode_pairs_from(r@, k as int));
        }
    } else {
        out.push(',');
        push_pairs_from(r, k + 1, out);
        proof {
            assert(out@ =~= old(out)@ + spec_encode_pairs_from(r@, k as int));
        }
    }
}

/// Appends the canonical text of one record object.
fn push_record(r: &Record, out: &mut Vec<char>)
    requires
        record_ok(r@),
    ensures
        final(out)@ == old(out)@ + spec_encode_record(r@),
{
    out.push('{');
    push_pairs_from(r, 0, out);
    proof {
        assert(out@ =~= old(out)@ + spec_encode_record(r@));
    }
}

/// Appends the canonical text of the array elements from `k` on.
fn push_elems_from(records: &Vec<Record>, k: usize, out: &mut Vec<char>)
    requires
        k < records@.len(),
        forall|i: int| 0 <= i < records@.len() ==> record_ok(#[trigger] records.deep_view()[i]),
    ensures
        final(out)@ == old(out)@ + spec_encode_elems_from(records.deep_view(), k as int),
    decreases records@.len() - k,
{
    proof {
        assert(records.deep_view()[k as int] == records@[k as int]@);
    }
    push_record(&records[k], out);
    if k == records.len() - 1 {
        out.push(']');
        proof {
            assert(out@ =~= old(out)@ + spec_encode_elems_from(records.deep_view(), k as int));
        }
    } else {
        out.push(',');
        push_elems_from(records, k + 1, out);
        proof {
            assert(out@ =~= old(out)@ + spec_encode_elems_from(records.deep_view(), k as int));
        }
    }
}

/// Prints the whole collection as its canonical persisted document.
pub fn encode_doc(records: &Vec<Record>) -> (r: String)
    requires
        forall|i: int| 0 <= i < records@.len() ==> record_ok(#[trigger] records.deep_view()[i]),
    ensures
        r@ == spec_encode_doc(records.deep_view()),
{
    let mut out: Vec<char> = Vec::new();
    out.push('[');
    if records.len() == 0 {
        out.push(']');
        proof {
            assert(out@ =~= spec_encode_doc(records.deep_view()));
        }
    } else {
        push_elems_from(records, 0, &mut out);
        proof {
            assert(out@ =~= spec_encode_doc(records.deep_view()));
        }
    }
    chars_to_string(&out)
}

/// Reading plain string content followed by a quote yields it back.
proof fn lemma_parse_str_chars_plain(txt: Seq<char>, rest: Seq<char>)
    requires
        plain_text(txt),
    ensures
        spec_parse_str_chars(txt.add(seq!['"']).add(rest)) == Some((txt, rest)),
    decreases txt.len(),
{
    let s = txt.add(seq!['"']).add(rest);
    if txt.len() == 0 {
        assert(s[0] == '"');
        assert(s.skip(1) =~= rest);
    } else {
        assert(s[0] == txt[0]);
        assert(plain_char(txt[0]));
        assert(s[0] != '"' && s[0] != '\\' && (s[0] as u32) >= 32);
        lemma_parse_str_chars_plain(txt.skip(1), rest);
        assert(s.skip(1) =~= txt.skip(1).add(seq!['"']).add(rest));
        assert(seq![txt[0]].add(txt.skip(1)) =~= txt);
    }
}

/// A hexadecimal digit character reads back as its value.
proof fn lemma_hex_digit_val(d: int)
    requires
        0 <= d < 16,
    ensures
        hex_val(spec_hex_digit(d)) == Some(d),
{
}

/// Reading the printed form of a text, followed by the closing quote,
/// yields exactly the text back — whatever characters it holds.
#[verifier::rlimit(100)]
pub proof fn lemma_parse_str_chars_escaped(txt: Seq<char>, rest: Seq<char>)
    ensures
        spec_parse_str_chars(spec_escape_text(txt).add(seq!['"']).add(rest)) == Some((txt, rest)),
    decreases txt.len(),
{
    let s = spec_escape_text(txt).add(seq!['"']).add(rest);
    if txt.len() == 0 {
        assert(spec_escape_text(txt) =~= Seq::<char>::empty());
        assert(s[0] == '"');
        assert(s.skip(1) =~= rest);
    } else {
        let c = txt[0];
        let e = spec_escape_char(c);
        let tail = spec_escape_text(txt.skip(1)).add(seq!['"']).add(rest);
        assert(s =~= e.add(tail));
        lemma_parse_str_chars_escaped(txt.skip(1), rest);
        if c == '"' || c == '\\' || c == '\n' || c == '\t' || c == '\r' || c == '\u{0008}'
            || c == '\u{000C}' {
            assert(s[0] == '\\');
            assert(s[1] == e[1]);
            assert(s[1] != 'u');
            assert(esc_char(s[1]) == Some(c));
            assert(s.skip(2) =~= tail);
        } else if (c as u32) < 32 {
            let u = (c as u32) as int;
            let hi = u / 16;
            let lo = u % 16;
            assert(0 <= u && u < 32);
            vstd::arithmetic::div_mod::lemma_fundamental_div_mod(u, 16);
            vstd::arithmetic::div_mod::lemma_mod_bound(u, 16);
            vstd::arithmetic::div_mod::lemma_div_pos_is_pos(u, 16);
            assert(0 <= hi < 16);
            lemma_hex_digit_val(hi);
            lemma_hex_digit_val(lo);
            assert(s[0] == '\\');
            assert(s[1] == 'u');
            assert(s[2] == '0');
            assert(s[3] == '0');
            assert(s[4] == spec_hex_digit(hi));
            assert(s[5] == spec_hex_digit(lo));
            assert(hex_val('0') == Some(0int));
            assert(hex4_val(s[2], s[3], s[4], s[5]) == Some(hi * 16 + lo));
            assert(hi * 16 + lo == u);
            vstd::utf8::char_u32_cast(c, c as u32);
            assert((u as char) == c);
            assert(s.skip(6) =~= tail);
            assert(s.len() >= 6);
        } else {
            assert(e =~= seq![c]);
            assert(s[0] == c);
            assert(s[0] != '"' && s[0] != '\\');
            assert((s[0] as u32) >= 32);
            assert(s.skip(1) =~= tail);
        }
        assert(seq![c].add(txt.skip(1)) =~= txt);
    }
}

/// The member value a field contributes to a record under construction.
pub open spec fn member_val(r: RecordV, f: FieldName) -> ValV {
    match f {
        FieldName::Time => ValV::Num(r.time),
        FieldName::Rpm => ValV::Num(Fixed { milli: ((r.rpm * 1000) as i64) }),
        FieldName::Tps => ValV::Num(r.tps),
        FieldName::ThrottlePosition => ValV::Num(r.throttle_position),
        FieldName::Gear => ValV::Num(Fixed { milli: ((r.gear * 1000) as i64) }),
        FieldName::LaunchValidated => ValV::Txt(r.launch_validated),
        FieldName::FuelFlowTotal => ValV::Num(r.fuel_flow_total),
        FieldName::EngineTemp => ValV::Num(r.engine_temp),
        FieldName::OilPressure => ValV::Num(r.oil_pressure),
        FieldName::AirTemp => ValV::Num(r.air_temp),
        FieldName::BatteryVoltage => ValV::Num(r.battery_voltage),
        FieldName::BrakePressure => ValV::Num(r.brake_pressure),
        FieldName::FuelLevel => ValV::Num(r.fuel_level),
    }
}

/// Reading a canonical value followed by a separator yields it back.
proof fn lemma_value_parse_fixed(x: Fixed, follow: Seq<char>)
    requires
        x.milli != i64::MIN,
        follow.len() > 0,
        follow[0] == ',' || follow[0] == '}',
    ensures
        spec_parse_value(spec_fmt_fixed(x).add(follow)) == Some((ValV::Num(x), follow)),
        !is_ws(spec_fmt_fixed(x)[0]),
        spec_fmt_fixed(x)[0] != '"',
{
    crate::num::lemma_fmt_fixed_first(x);
    crate::num::lemma_parse_fixed_fmt(x, follow);
    let vrest = spec_fmt_fixed(x).add(follow);
    assert(vrest[0] == spec_fmt_fixed(x)[0]);
}

/// Reading a canonical widened integer followed by a separator yields it.
proof fn lemma_value_parse_u32(n: u32, follow: Seq<char>)
    requires
        follow.len() > 0,
        follow[0] == ',' || follow[0] == '}',
    ensures
        spec_parse_value(spec_fmt_u32(n).add(follow)) == Some((ValV::Num(Fixed { milli: ((n * 1000) as i64) }), follow)),
        !is_ws(spec_fmt_u32(n)[0]),
        spec_fmt_u32(n)[0] != '"',
{
    crate::num::lemma_fmt_u32_first(n);
    crate::num::lemma_parse_u32_fmt(n, follow);
    let vrest = spec_fmt_u32(n).add(follow);
    assert(vrest[0] == spec_fmt_u32(n)[0]);
}

/// Reading one canonical member updates the record under construction with
/// exactly that member, and goes on at the separator.
#[verifier::rlimit(60)]
proof fn lemma_member_step(r: RecordV, f: FieldName, p: PartialV, follow: Seq<char>)
    requires
        record_ok(r),
        follow.len() > 0,
        follow[0] == ',' || follow[0] == '}',
    ensures
        spec_parse_members(spec_encode_pair(r, f).add(follow), p) == (match partial_put(p, f, member_val(r, f)) {
            None => None::<(PartialV, Seq<char>)>,
            Some(p2) => if follow[0] == '}' {
                Some((p2, follow.skip(1)))
            } else {
                spec_parse_members(follow.skip(1), p2)
            },
        }),
{
    let name = spec_field_name(f);
    let value = spec_encode_field_value(r, f);
    let s = spec_encode_pair(r, f).add(follow);
    let colon_tail = seq![':'].add(value).add(follow);
    let vrest = value.add(follow);
    assert(s[0] == '"');
    assert(!is_ws('"'));
    lemma_skip_ws_absent(s);
    crate::schema::lemma_field_name_plain(f);
    lemma_parse_str_chars_plain(name, colon_tail);
    assert(s.skip(1) =~= name.add(seq!['"']).add(colon_tail));
    assert(spec_parse_string(s) == Some((name, colon_tail)));
    crate::schema::lemma_field_name_resolve(f);
    assert(colon_tail[0] == ':');
    assert(!is_ws(':'));
    lemma_skip_ws_absent(colon_tail);
    assert(colon_tail.skip(1) =~= vrest);
    match f {
        FieldName::LaunchValidated => {
            assert(vrest =~= seq!['"'].add(spec_escape_text(r.launch_validated)).add(seq!['"']).add(follow));
            assert(vrest[0] == '"');
            lemma_skip_ws_absent(vrest);
            assert(vrest.skip(1) =~= spec_escape_text(r.launch_validated).add(seq!['"']).add(follow));
            lemma_parse_str_chars_escaped(r.launch_validated, follow);
            assert(spec_parse_value(vrest) == Some((member_val(r, f), follow)));
        },
        FieldName::Rpm => {
            assert(vrest =~= spec_fmt_u32(r.rpm).add(follow));
            lemma_value_parse_u32(r.rpm, follow);
            lemma_skip_ws_absent(vrest);
            assert(spec_parse_value(vrest) == Some((member_val(r, f), follow)));
        },
        FieldName::Gear => {
            assert(vrest =~= spec_fmt_u32(r.gear).add(follow));
            lemma_value_parse_u32(r.gear, follow);
            lemma_skip_ws_absent(vrest);
            assert(spec_parse_value(vrest) == Some((member_val(r, f), follow)));
        },
        FieldName::Time => {
            assert(vrest =~= spec_fmt_fixed(r.time).add(follow));
            lemma_value_parse_fixed(r.time, follow);
            lemma_skip_ws_absent(vrest);
            assert(spec_parse_value(vrest) == Some((member_val(r, f), follow)));
        },
        FieldName::Tps => {
            assert(vrest =~= spec_fmt_fixed(r.tps).add(follow));
            lemma_value_parse_fixed(r.tps, follow);
            lemma_skip_ws_absent(vrest);
            assert(spec_parse_value(vrest) == Some((member_val(r, f), follow)));
        },
        FieldName::ThrottlePosition => {
            assert(vrest =~= spec_fmt_fixed(r.throttle_position).add(follow));
            lemma_value_parse_fixed(r.throttle_position, follow);
            lemma_skip_ws_absent(vrest);
            assert(spec_parse_value(vrest) == Some((member_val(r, f), follow)));
        },
        FieldName::FuelFlowTotal => {
            assert(vrest =~= spec_fmt_fixed(r.fuel_flow_total).add(follow));
            lemma_value_parse_fixed(r.fuel_flow_total, follow);
            lemma_skip_ws_absent(vrest);
            assert(spec_parse_value(vrest) == Some((member_val(r, f), follow)));
        },
        FieldName::EngineTemp => {
            assert(vrest =~= spec_fmt_fixed(r.engine_temp).add(follow));
            lemma_value_parse_fixed(r.engine_temp, follow);
            lemma_skip_ws_absent(vrest);
            assert(spec_parse_value(vrest) == Some((member_val(r, f), follow)));
        },
        FieldName::OilPressure => {
            assert(vrest =~= spec_fmt_fixed(r.oil_pressure).add(follow));
            lemma_value_parse_fixed(r.oil_pressure, follow);
            lemma_skip_ws_absent(vrest);
            assert(spec_parse_value(vrest) == Some((member_val(r, f), follow)));
        },
        FieldName::AirTemp => {
            assert(vrest =~= spec_fmt_fixed(r.air_temp).add(follow));
            lemma_value_parse_fixed(r.air_temp, follow);
            lemma_skip_ws_absent(vrest);
            assert(spec_parse_value(vrest) == Some((member_val(r, f), follow)));
        },
        FieldName::BatteryVoltage => {
            assert(vrest =~= spec_fmt_fixed(r.battery_voltage).add(follow));
            lemma_value_parse_fixed(r.battery_voltage, follow);
            lemma_skip_ws_absent(vrest);
            assert(spec_parse_value(vrest) == Some((member_val(r, f), follow)));
        },
        FieldName::BrakePressure => {
            assert(vrest =~= spec_fmt_fixed(r.brake_pressure).add(follow));
            lemma_value_parse_fixed(r.brake_pressure, follow);
            lemma_skip_ws_absent(vrest);
            assert(spec_parse_value(vrest) == Some((member_val(r, f), follow)));
        },
        FieldName::FuelLevel => {
            assert(vrest =~= spec_fmt_fixed(r.fuel_level).add(follow));
            lemma_value_parse_fixed(r.fuel_level, follow);
            lemma_skip_ws_absent(vrest);
            assert(spec_parse_value(vrest) == Some((member_val(r, f), follow)));
        },
    }
    lemma_skip_ws_absent(follow);
}

/// The record under construction after the first `k` dictionary members.
pub open spec fn partial_upto(r: RecordV, k: int) -> PartialV {
    PartialV {
        time: if k > 0 { Some(r.time) } else { None },
        rpm: if k > 1 { Some(r.rpm) } else { None },
        tps: if k > 2 { Some(r.tps) } else { None },
        throttle_position: if k > 3 { Some(r.throttle_position) } else { None },
        gear: if k > 4 { Some(r.gear) } else { None },
        launch_validated: if k > 5 { Some(r.launch_validated) } else { None },
        fuel_flow_total: if k > 6 { Some(r.fuel_flow_total) } else { None },
        engine_temp: if k > 7 { Some(r.engine_temp) } else { None },
        oil_pressure: if k > 8 { Some(r.oil_pressure) } else { None },
        air_temp: if k > 9 { Some(r.air_temp) } else { None },
        battery_voltage: if k > 10 { Some(r.battery_voltage) } else { None },
        brake_pressure: if k > 11 { Some(r.brake_pressure) } else { None },
        fuel_level: if k > 12 { Some(r.fuel_level) } else { None },
    }
}

/// Storing the member at dictionary position `k` advances the record under
/// construction by exactly one position.
pub(crate) proof fn lemma_put_upto(r: RecordV, k: int)
    requires
        0 <= k <= 12,
    ensures
        partial_put(partial_upto(r, k), field_order()[k], member_val(r, field_order()[k]))
            == Some(partial_upto(r, k + 1)),
{
    if k == 1 {
        crate::num::lemma_u32_fixed_roundtrip(r.rpm);
    }
    if k == 4 {
        crate::num::lemma_u32_fixed_roundtrip(r.gear);
    }
}

/// Reading the canonical members from position `k` on finishes the record.
proof fn lemma_members_roundtrip(r: RecordV, k: int, rest: Seq<char>)
    requires
        record_ok(r),
        0 <= k <= 12,
    ensures
        spec_parse_members(spec_encode_pairs_from(r, k).add(rest), partial_upto(r, k))
            == Some((partial_upto(r, 13), rest)),
    decreases 13 - k,
{
    let f = field_order()[k];
    let follow: Seq<char> = if k == 12 {
        seq!['}'].add(rest)
    } else {
        seq![','].add(spec_encode_pairs_from(r, k + 1)).add(rest)
    };
    assert(spec_encode_pairs_from(r, k).add(rest) =~= spec_encode_pair(r, f).add(follow));
    lemma_member_step(r, f, partial_upto(r, k), follow);
    lemma_put_upto(r, k);
    if k == 12 {
        assert(follow[0] == '}');
        assert(follow.skip(1) =~= rest);
    } else {
        assert(follow[0] == ',');
        assert(follow.skip(1) =~= spec_encode_pairs_from(r, k + 1).add(rest));
        lemma_members_roundtrip(r, k + 1, rest);
    }
}

/// Reading a canonical record object yields exactly its record back.
pub proof fn lemma_record_roundtrip(r: RecordV, rest: Seq<char>)
    requires
        record_ok(r),
    ensures
        spec_parse_record(spec_encode_record(r).add(rest)) == Some((r, rest)),
{
    let s = spec_encode_record(r).add(rest);
    assert(s[0] == '{');
    assert(s.skip(1) =~= spec_encode_pairs_from(r, 0).add(rest));
    assert(partial_upto(r, 0) == empty_partial());
    lemma_members_roundtrip(r, 0, rest);
    assert(partial_record(partial_upto(r, 13)) == Some(r));
}

/// Reading the canonical elements from position `k` on yields the records
/// from `k` on.
proof fn lemma_elems_roundtrip(rs: Seq<RecordV>, k: int, rest: Seq<char>)
    requires
        forall|i: int| 0 <= i < rs.len() ==> record_ok(#[trigger] rs[i]),
        0 <= k < rs.len(),
    ensures
        spec_parse_elems(spec_encode_elems_from(rs, k).add(rest)) == Some((rs.skip(k), rest)),
    decreases rs.len() - k,
{
    let s = spec_encode_elems_from(rs, k).add(rest);
    let follow: Seq<char> = if k == rs.len() - 1 {
        seq![']'].add(rest)
    } else {
        seq![','].add(spec_encode_elems_from(rs, k + 1)).add(rest)
    };
    assert(s =~= spec_encode_record(rs[k]).add(follow));
    assert(spec_encode_record(rs[k])[0] == '{');
    assert(s[0] == '{');
    lemma_skip_ws_absent(s);
    lemma_record_roundtrip(rs[k], follow);
    lemma_skip_ws_absent(follow);
    if k == rs.len() - 1 {
        assert(follow[0] == ']');
        assert(follow.skip(1) =~= rest);
        assert(rs.skip(k) =~= seq![rs[k]]);
    } else {
        assert(follow[0] == ',');
        assert(follow.skip(1) =~= spec_encode_elems_from(rs, k + 1).add(rest));
        lemma_elems_roundtrip(rs, k + 1, rest);
        assert(seq![rs[k]].add(rs.skip(k + 1)) =~= rs.skip(k));
    }
}

/// The canonical persisted document reads back as exactly the records it
/// was printed from.
pub proof fn lemma_doc_roundtrip(rs: Seq<RecordV>)
    requires
        forall|i: int| 0 <= i < rs.len() ==> record_ok(#[trigger] rs[i]),
    ensures
        spec_parse_doc(spec_encode_doc(rs)) == Some(rs),
{
    let text = spec_encode_doc(rs);
    if rs.len() == 0 {
        assert(text =~= seq!['[', ']']);
        assert(text[0] == '[');
        lemma_skip_ws_absent(text);
        assert(text.skip(1) =~= seq![']']);
        lemma_skip_ws_absent(seq![']']);
        assert(seq![']'].skip(1) =~= Seq::<char>::empty());
        lemma_skip_ws_absent(Seq::<char>::empty());
    } else {
        assert(text[0] == '[');
        lemma_skip_ws_absent(text);
        let body = spec_encode_elems_from(rs, 0);
        assert(text.skip(1) =~= body);
        assert(body =~= body.add(Seq::<char>::empty()));
        lemma_elems_roundtrip(rs, 0, Seq::<char>::empty());
        assert(spec_parse_elems(body) == Some((rs.skip(0), Seq::<char>::empty())));
        assert(rs.skip(0) =~= rs);
        assert(body[0] == spec_encode_record(rs[0])[0]);
        assert(body[0] == '{');
        lemma_skip_ws_absent(body);
        lemma_skip_ws_absent(Seq::<char>::empty());
    }
}

/// Whether every numeric field read so far can be printed again.
pub open spec fn partial_printable(p: PartialV) -> bool {
    &&& (p.time matches Some(v) ==> v.milli != i64::MIN)
    &&& (p.tps matches Some(v) ==> v.milli != i64::MIN)
    &&& (p.throttle_position matches Some(v) ==> v.milli != i64::MIN)
    &&& (p.fuel_flow_total matches Some(v) ==> v.milli != i64::MIN)
    &&& (p.engine_temp matches Some(v) ==> v.milli != i64::MIN)
    &&& (p.oil_pressure matches Some(v) ==> v.milli != i64::MIN)
    &&& (p.air_temp matches Some(v) ==> v.milli != i64::MIN)
    &&& (p.battery_voltage matches Some(v) ==> v.milli != i64::MIN)
    &&& (p.brake_pressure matches Some(v) ==> v.milli != i64::MIN)
    &&& (p.fuel_level matches Some(v) ==> v.milli != i64::MIN)
}

/// Storing a printable value keeps the record under construction printable.
#[verifier::rlimit(50)]
proof fn lemma_put_printable(p: PartialV, f: FieldName, v: ValV)
    requires
        partial_printable(p),
        v matches ValV::Num(x) ==> x.milli != i64::MIN,
    ensures
        partial_put(p, f, v) matches Some(q) ==> partial_printable(q),
{
}

/// Reading members keeps the record under construction printable.
proof fn lemma_members_printable(s: Seq<char>, p: PartialV)
    requires
        partial_printable(p),
    ensures
        spec_parse_members(s, p) matches Some(q) ==> partial_printable(q.0),
    decreases unset_count(p),
{
    let s1 = spec_skip_ws(s);
    match spec_parse_string(s1) {
        None => {},
        Some(kp) => match spec_field_of_name(kp.0) {
            None => {},
            Some(f) => {
                let s3 = spec_skip_ws(kp.1);
                if s3.len() > 0 && s3[0] == ':' {
                    let s4 = spec_skip_ws(s3.skip(1));
                    match spec_parse_value(s4) {
                        None => {},
                        Some(vp) => {
                            crate::num::lemma_parse_number_printable(s4);
                            lemma_put_printable(p, f, vp.0);
                            match partial_put(p, f, vp.0) {
                                None => {},
                                Some(p2) => {
                                    lemma_partial_put_unset(p, f, vp.0);
                                    let s6 = spec_skip_ws(vp.1);
                                    if s6.len() > 0 && s6[0] == ',' {
                                        lemma_members_printable(s6.skip(1), p2);
                                    }
                                },
                            }
                        },
                    }
                }
            },
        },
    }
}

/// Every record the object parser yields can be printed again.
pub proof fn lemma_record_printable(s: Seq<char>)
    ensures
        spec_parse_record(s) matches Some(p) ==> record_ok(p.0),
{
    if s.len() > 0 && s[0] == '{' {
        lemma_members_printable(s.skip(1), empty_partial());
    }
}

/// Every record the array parser yields can be printed again.
proof fn lemma_elems_printable(s: Seq<char>)
    ensures
        spec_parse_elems(s) matches Some(q)
            ==> forall|i: int| 0 <= i < q.0.len() ==> record_ok(#[trigger] q.0[i]),
    decreases s.len(),
{
    let s1 = spec_skip_ws(s);
    lemma_skip_ws_len(s);
    lemma_parse_record_len(s1);
    lemma_record_printable(s1);
    match spec_parse_record(s1) {
        None => {},
        Some(rp) => {
            let s3 = spec_skip_ws(rp.1);
            lemma_skip_ws_len(rp.1);
            if s3.len() > 0 && s3[0] == ',' {
                lemma_elems_printable(s3.skip(1));
            }
        },
    }
}

/// Every record the document parser yields lies in the canonical
/// interchange domain: whatever was read can always be printed again.
pub proof fn lemma_parsed_records_printable(text: Seq<char>)
    ensures
        spec_parse_doc(text) matches Some(rs)
            ==> forall|i: int| 0 <= i < rs.len() ==> record_ok(#[trigger] rs[i]),
{
    let s0 = spec_skip_ws(text);
    if s0.len() > 0 && s0[0] == '[' {
        lemma_elems_printable(s0.skip(1));
    }
}

} // verus!
