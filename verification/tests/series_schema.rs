use telemetry_core::choice::select_option;
use telemetry_core::num::{fixed_of_text, u32_of_text, Fixed};
use telemetry_core::schema::{field_names, field_of_name, project, FieldName, Record};
use telemetry_core::series::{chart_identifier, extract_series, filter_by_time, series_of};

fn record_at(time_milli: i64, rpm: u32) -> Record {
    Record {
        time: Fixed::from_milli(time_milli),
        rpm,
        tps: Fixed::from_milli(10250),
        throttle_position: Fixed::from_milli(40125),
        gear: 3,
        launch_validated: String::from("NÃO"),
        fuel_flow_total: Fixed::from_milli(1500),
        engine_temp: Fixed::from_milli(90000),
        oil_pressure: Fixed::from_milli(4200),
        air_temp: Fixed::from_milli(25000),
        battery_voltage: Fixed::from_milli(12600),
        brake_pressure: Fixed::from_milli(800),
        fuel_level: Fixed::from_milli(45500),
    }
}

fn chars(s: &str) -> Vec<char> {
    s.chars().collect()
}

#[test]
fn filter_window_keeps_exactly_the_inclusive_range() {
    // records at times 0, 5, 10, 15; the window [5, 10] keeps exactly two
    let records = vec![
        record_at(0, 1000),
        record_at(5000, 2000),
        record_at(10000, 3000),
        record_at(15000, 4000),
    ];
    let kept = filter_by_time(
        &records,
        Some(Fixed::from_milli(5000)),
        Some(Fixed::from_milli(10000)),
    );
    assert_eq!(kept.len(), 2);
    assert_eq!(kept[0].time, Fixed::from_milli(5000));
    assert_eq!(kept[1].time, Fixed::from_milli(10000));
}

#[test]
fn filter_includes_records_exactly_on_either_bound() {
    let records = vec![record_at(5000, 1), record_at(7000, 2), record_at(10000, 3)];
    let kept = filter_by_time(
        &records,
        Some(Fixed::from_milli(5000)),
        Some(Fixed::from_milli(10000)),
    );
    assert_eq!(kept.len(), 3);
    assert_eq!(kept[0].time, Fixed::from_milli(5000));
    assert_eq!(kept[2].time, Fixed::from_milli(10000));
}

#[test]
fn filter_without_bounds_keeps_everything() {
    let records = vec![record_at(-2000, 1), record_at(0, 2), record_at(9000, 3)];
    let kept = filter_by_time(&records, None, None);
    assert_eq!(kept, records);
}

#[test]
fn filter_with_empty_match_returns_empty_not_error() {
    let records = vec![record_at(0, 1), record_at(1000, 2)];
    let kept = filter_by_time(
        &records,
        Some(Fixed::from_milli(50000)),
        Some(Fixed::from_milli(60000)),
    );
    assert!(kept.is_empty());
}

#[test]
fn filter_twice_with_same_bounds_changes_nothing() {
    let records = vec![
        record_at(0, 1),
        record_at(5000, 2),
        record_at(10000, 3),
        record_at(15000, 4),
    ];
    let start = Some(Fixed::from_milli(4000));
    let end = Some(Fixed::from_milli(12000));
    let once = filter_by_time(&records, start, end);
    let twice = filter_by_time(&once, start, end);
    assert_eq!(once, twice);
}

#[test]
fn extract_series_is_index_aligned_and_widens_integers() {
    let records = vec![record_at(0, 3000), record_at(500, 3500)];
    let (xs, ys) = extract_series(&records, "TIME", "RPM");
    assert_eq!(xs.len(), records.len());
    assert_eq!(ys.len(), records.len());
    assert_eq!(xs, vec![Fixed::from_milli(0), Fixed::from_milli(500)]);
    // integer engine speed is widened: 3000 becomes 3000.000
    assert_eq!(ys, vec![Fixed::from_milli(3_000_000), Fixed::from_milli(3_500_000)]);
}

#[test]
fn extract_series_unknown_axis_yields_empty_not_error() {
    let records = vec![record_at(0, 3000), record_at(500, 3500)];
    let (xs, ys) = extract_series(&records, "TIME", "Velocidade");
    assert_eq!(xs.len(), 2);
    assert!(ys.is_empty());
}

#[test]
fn extract_series_textual_flag_has_no_projector() {
    let records = vec![record_at(0, 3000)];
    assert!(series_of(&records, "Largada_validada").is_empty());
}

#[test]
fn chart_identifier_joins_and_replaces_spaces() {
    assert_eq!(chart_identifier(&chars("TIME"), &chars("RPM")), "TIME_vs_RPM");
    assert_eq!(chart_identifier(&chars("Temp. do Ar"), &chars("RPM")), "Temp._do_Ar_vs_RPM");
}

#[test]
fn field_dictionary_is_closed_and_ordered() {
    let names = field_names();
    assert_eq!(names.len(), 13);
    assert_eq!(names[0], "TIME");
    assert_eq!(names[3], "Posição_do_acelerador");
    assert_eq!(names[8], "Pressão_de_Óleo");
    assert_eq!(names[12], "Tanque");
}

#[test]
fn every_field_name_resolves_and_projects() {
    let rec = record_at(250, 4000);
    for name in field_names() {
        let field = field_of_name(&name).expect("dictionary name must resolve");
        let projected = project(&rec, field);
        if field == FieldName::LaunchValidated {
            assert_eq!(projected, None);
        } else {
            assert!(projected.is_some());
        }
    }
    assert_eq!(field_of_name("TIME"), Some(FieldName::Time));
    assert_eq!(field_of_name("Velocidade"), None);
}

#[test]
fn projection_reads_the_exact_field_values() {
    let rec = record_at(250, 4000);
    assert_eq!(project(&rec, FieldName::Time), Some(Fixed::from_milli(250)));
    assert_eq!(project(&rec, FieldName::Rpm), Some(Fixed::from_milli(4_000_000)));
    assert_eq!(project(&rec, FieldName::Gear), Some(Fixed::from_milli(3000)));
    assert_eq!(project(&rec, FieldName::BatteryVoltage), Some(Fixed::from_milli(12600)));
}

#[test]
fn numeric_text_parses_to_exact_thousandths() {
    assert_eq!(fixed_of_text(&chars("12.345")), Some(Fixed::from_milli(12345)));
    assert_eq!(fixed_of_text(&chars("-0.5")), Some(Fixed::from_milli(-500)));
    assert_eq!(fixed_of_text(&chars("90")), Some(Fixed::from_milli(90000)));
    assert_eq!(fixed_of_text(&chars("0.1250")), Some(Fixed::from_milli(125)));
    assert_eq!(fixed_of_text(&chars("0.1251")), None);
    assert_eq!(fixed_of_text(&chars(".5")), Some(Fixed::from_milli(500)));
    assert_eq!(fixed_of_text(&chars("-.5")), Some(Fixed::from_milli(-500)));
    assert_eq!(fixed_of_text(&chars("1.")), Some(Fixed::from_milli(1000)));
    assert_eq!(fixed_of_text(&chars("2e3")), Some(Fixed::from_milli(2_000_000)));
    assert_eq!(fixed_of_text(&chars("2.5e-1")), Some(Fixed::from_milli(250)));
    assert_eq!(fixed_of_text(&chars(".")), None);
    assert_eq!(fixed_of_text(&chars("1e")), None);
    assert_eq!(fixed_of_text(&chars("")), None);
    assert_eq!(fixed_of_text(&chars("1.2.3")), None);
    assert_eq!(fixed_of_text(&chars("99999999999999999999")), None);
}

#[test]
fn integer_text_refuses_fractions_and_negatives() {
    assert_eq!(u32_of_text(&chars("3000")), Some(3000));
    assert_eq!(u32_of_text(&chars("0")), Some(0));
    assert_eq!(u32_of_text(&chars("3000.5")), None);
    assert_eq!(u32_of_text(&chars("-1")), None);
    assert_eq!(u32_of_text(&chars("4294967296")), None);
}

#[test]
fn select_option_picks_by_one_based_index() {
    let options = vec![
        String::from("TIME"),
        String::from("RPM"),
        String::from("TPS"),
    ];
    assert_eq!(select_option(&options, "2\n"), Some(String::from("RPM")));
    assert_eq!(select_option(&options, "  3  "), Some(String::from("TPS")));
    assert_eq!(select_option(&options, "+1"), Some(String::from("TIME")));
    assert_eq!(select_option(&options, "0"), None);
    assert_eq!(select_option(&options, "4"), None);
    assert_eq!(select_option(&options, "abc"), None);
    assert_eq!(select_option(&options, ""), None);
}
