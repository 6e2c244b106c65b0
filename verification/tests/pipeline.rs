use telemetry_core::loader::{detect_format, load_records, parse_records, Format};
use telemetry_core::errors::LoadError;
use telemetry_core::num::Fixed;
use telemetry_core::schema::Record;
use telemetry_core::store::Store;

fn sample_record(time_milli: i64, rpm: u32) -> Record {
    Record {
        time: Fixed::from_milli(time_milli),
        rpm,
        tps: Fixed::from_milli(10250),
        throttle_position: Fixed::from_milli(40125),
        gear: 2,
        launch_validated: String::from("SIM"),
        fuel_flow_total: Fixed::from_milli(1500),
        engine_temp: Fixed::from_milli(90000),
        oil_pressure: Fixed::from_milli(4200),
        air_temp: Fixed::from_milli(25000),
        battery_voltage: Fixed::from_milli(12600),
        brake_pressure: Fixed::from_milli(0),
        fuel_level: Fixed::from_milli(45500),
    }
}

const HEADER: &str = "TIME,RPM,TPS,Posição_do_acelerador,Marcha,Largada_validada,Fluxo_total_de_combustível,Temp._do_motor,Pressão_de_Óleo,Temp._do_Ar,Tensão_da_Bateria,Pressão_do_freio,Tanque";

fn sample_csv() -> String {
    format!(
        "{}\n0.5,3000,10.25,40.125,2,SIM,1.5,90.0,4.2,25.0,12.6,0.0,45.5\n1.5,3500,10.25,40.125,2,SIM,1.5,90.0,4.2,25.0,12.6,0.0,45.5\n",
        HEADER
    )
}

#[test]
fn detect_format_by_suffix() {
    assert_eq!(detect_format("dados/dados1.csv"), Ok(Format::Csv));
    assert_eq!(detect_format("dados/dadosmemoria.json"), Ok(Format::Json));
    assert_eq!(detect_format("dados/readme.txt"), Err(LoadError::UnsupportedFormat));
    assert_eq!(detect_format("semsufixo"), Err(LoadError::UnsupportedFormat));
    assert_eq!(detect_format("curto.c"), Err(LoadError::UnsupportedFormat));
}

#[test]
fn error_descriptions_are_distinct() {
    assert_eq!(
        LoadError::UnsupportedFormat.describe(),
        "unsupported file format: use .csv or .json"
    );
    assert_eq!(LoadError::RecordParse.describe(), "malformed record in source data");
    assert_eq!(LoadError::StorageIo.describe(), "backing storage unavailable");
}

#[test]
fn csv_load_reads_rows_in_order() {
    let text = sample_csv();
    let records = load_records("dados1.csv", &text).expect("csv should load");
    assert_eq!(records.len(), 2);
    assert_eq!(records[0].time, Fixed::from_milli(500));
    assert_eq!(records[0].rpm, 3000);
    assert_eq!(records[0].tps, Fixed::from_milli(10250));
    assert_eq!(records[0].launch_validated, "SIM");
    assert_eq!(records[1].time, Fixed::from_milli(1500));
    assert_eq!(records[1].rpm, 3500);
}

#[test]
fn csv_header_missing_column_fails_whole_load() {
    // the header lacks the last required column
    let header = "TIME,RPM,TPS,Posição_do_acelerador,Marcha,Largada_validada,Fluxo_total_de_combustível,Temp._do_motor,Pressão_de_Óleo,Temp._do_Ar,Tensão_da_Bateria,Pressão_do_freio";
    let text = format!("{}\n0.5,3000,10.25,40.125,2,SIM,1.5,90.0,4.2,25.0,12.6,0.0\n", header);
    assert_eq!(load_records("dados1.csv", &text), Err(LoadError::RecordParse));
}

#[test]
fn csv_bad_numeric_field_fails_whole_load() {
    let text = format!(
        "{}\n0.5,fast,10.25,40.125,2,SIM,1.5,90.0,4.2,25.0,12.6,0.0,45.5\n",
        HEADER
    );
    assert_eq!(load_records("dados1.csv", &text), Err(LoadError::RecordParse));
}

#[test]
fn csv_short_row_fails_whole_load() {
    let text = format!("{}\n0.5,3000,10.25\n", HEADER);
    assert_eq!(load_records("dados1.csv", &text), Err(LoadError::RecordParse));
}

#[test]
fn json_load_accepts_whitespace_and_any_key_order() {
    let text = r#"
    [ { "RPM": 3000, "TIME": 0.5, "TPS": 10.25, "Posição_do_acelerador": 40.125,
        "Marcha": 2, "Largada_validada": "SIM", "Fluxo_total_de_combustível": 1.5,
        "Temp._do_motor": 90.0, "Pressão_de_Óleo": 4.2, "Temp._do_Ar": 25.0,
        "Tensão_da_Bateria": 12.6, "Pressão_do_freio": 0.0, "Tanque": 45.5 } ]
    "#;
    let records = load_records("dados.json", text).expect("json should load");
    assert_eq!(records.len(), 1);
    assert_eq!(records[0], sample_record(500, 3000));
}

#[test]
fn json_missing_field_fails_whole_load() {
    // no Tanque member: the record is incomplete
    let text = r#"[{"TIME": 0.5, "RPM": 3000, "TPS": 10.25, "Posição_do_acelerador": 40.125,
        "Marcha": 2, "Largada_validada": "SIM", "Fluxo_total_de_combustível": 1.5,
        "Temp._do_motor": 90.0, "Pressão_de_Óleo": 4.2, "Temp._do_Ar": 25.0,
        "Tensão_da_Bateria": 12.6, "Pressão_do_freio": 0.0}]"#;
    assert_eq!(load_records("dados.json", text), Err(LoadError::RecordParse));
}

#[test]
fn json_duplicate_field_fails_whole_load() {
    let text = r#"[{"TIME": 0.5, "TIME": 0.7, "RPM": 3000, "TPS": 10.25,
        "Posição_do_acelerador": 40.125, "Marcha": 2, "Largada_validada": "SIM",
        "Fluxo_total_de_combustível": 1.5, "Temp._do_motor": 90.0, "Pressão_de_Óleo": 4.2,
        "Temp._do_Ar": 25.0, "Tensão_da_Bateria": 12.6, "Pressão_do_freio": 0.0,
        "Tanque": 45.5}]"#;
    assert_eq!(load_records("dados.json", text), Err(LoadError::RecordParse));
}

#[test]
fn json_fractional_rpm_fails_whole_load() {
    let text = r#"[{"TIME": 0.5, "RPM": 3000.5, "TPS": 10.25, "Posição_do_acelerador": 40.125,
        "Marcha": 2, "Largada_validada": "SIM", "Fluxo_total_de_combustível": 1.5,
        "Temp._do_motor": 90.0, "Pressão_de_Óleo": 4.2, "Temp._do_Ar": 25.0,
        "Tensão_da_Bateria": 12.6, "Pressão_do_freio": 0.0, "Tanque": 45.5}]"#;
    assert_eq!(load_records("dados.json", text), Err(LoadError::RecordParse));
}

#[test]
fn json_top_level_object_fails() {
    assert_eq!(
        parse_records(Format::Json, r#"{"TIME": 0.5}"#),
        Err(LoadError::RecordParse)
    );
}

#[test]
fn cross_format_loads_are_identical() {
    // the same two logical records, once as CSV and once as JSON
    let csv_text = sample_csv();
    let mut store = Store::new();
    store.append(sample_record(500, 3000));
    store.append(sample_record(1500, 3500));
    let json_text = store.to_saved().expect("canonical records must print");
    let from_csv = load_records("dados1.csv", &csv_text).expect("csv should load");
    let from_json = load_records("dados1.json", &json_text).expect("json should load");
    assert_eq!(from_csv, from_json);
}

#[test]
fn store_clear_then_read_all_is_empty() {
    let mut store = Store::new();
    store.append(sample_record(0, 1000));
    store.append(sample_record(1000, 2000));
    store.clear();
    assert!(store.read_all().is_empty());
}

#[test]
fn store_append_preserves_prior_records_and_order() {
    let mut store = Store::new();
    store.append(sample_record(0, 1000));
    store.append(sample_record(1000, 2000));
    let before: Vec<Record> = store.read_all().clone();
    store.append(sample_record(2000, 3000));
    let after = store.read_all();
    assert_eq!(after.len(), before.len() + 1);
    assert_eq!(&after[..before.len()], &before[..]);
    assert_eq!(after[after.len() - 1], sample_record(2000, 3000));
}

#[test]
fn store_absent_file_reads_as_empty() {
    let store = Store::from_saved(None);
    assert!(store.read_all().is_empty());
}

#[test]
fn store_append_to_absent_file_yields_one_record_on_next_read() {
    // the backing file does not exist yet: the edge hands in None
    let mut store = Store::from_saved(None);
    store.append(sample_record(500, 3000));
    let saved = store.to_saved().expect("canonical record must print");
    // next read finds the file that the edge created with that content
    let reloaded = Store::from_saved(Some(&saved));
    assert_eq!(reloaded.read_all().len(), 1);
    assert_eq!(reloaded.read_all()[0], sample_record(500, 3000));
}

#[test]
fn store_saved_roundtrip_keeps_all_records() {
    let mut store = Store::new();
    store.append(sample_record(0, 1000));
    store.append(sample_record(500, 2000));
    store.append(sample_record(500, 2000));
    let saved = store.to_saved().expect("canonical records must print");
    let reloaded = Store::from_saved(Some(&saved));
    assert_eq!(reloaded.read_all(), store.read_all());
}

#[test]
fn store_unparsable_content_reads_as_empty() {
    assert!(Store::from_saved(Some("")).read_all().is_empty());
    assert!(Store::from_saved(Some("not json at all")).read_all().is_empty());
    assert!(Store::from_saved(Some("[1, 2, 3]")).read_all().is_empty());
}

#[test]
fn store_empty_collection_saves_as_empty_array() {
    let store = Store::new();
    assert_eq!(store.to_saved().expect("empty store prints"), "[]");
}

#[test]
fn store_prints_and_reloads_flag_with_quote_and_newline() {
    let mut rec = sample_record(0, 1000);
    rec.launch_validated = String::from("quote\"inside\nlinha,vírgula\\barra");
    let mut store = Store::new();
    store.append(rec.clone());
    let saved = store.to_saved().expect("every flag text prints, escaped");
    let reloaded = Store::from_saved(Some(&saved));
    assert_eq!(reloaded.read_all()[0], rec);
}

#[test]
fn store_prints_and_reloads_control_characters_in_flag() {
    let mut rec = sample_record(0, 1000);
    rec.launch_validated = String::from("ctl\u{1}\u{1f}fim");
    let mut store = Store::new();
    store.append(rec.clone());
    let saved = store.to_saved().expect("control characters print as hex escapes");
    let reloaded = Store::from_saved(Some(&saved));
    assert_eq!(reloaded.read_all()[0], rec);
}

#[test]
fn json_string_escapes_are_decoded() {
    let text = r#"[{"TIME": 0.5, "RPM": 3000, "TPS": 10.25, "Posição_do_acelerador": 40.125,
        "Marcha": 2, "Largada_validada": "com \"aspas\"\n", "Fluxo_total_de_combustível": 1.5,
        "Temp._do_motor": 90.0, "Pressão_de_Óleo": 4.2, "Temp._do_Ar": 25.0,
        "Tensão_da_Bateria": 12.6, "Pressão_do_freio": 0.0, "Tanque": 45.5}]"#;
    let records = load_records("dados.json", text).expect("escapes should decode");
    assert_eq!(records[0].launch_validated, "com \"aspas\"\n");
    // what was decoded prints back escaped and survives a round trip
    let mut store = Store::new();
    store.append(records[0].clone());
    let saved = store.to_saved().expect("decoded flags print back escaped");
    let reloaded = Store::from_saved(Some(&saved));
    assert_eq!(reloaded.read_all(), store.read_all());
}

#[test]
fn store_roundtrip_keeps_non_ascii_flag() {
    let mut rec = sample_record(250, 4000);
    rec.launch_validated = String::from("NÃO VÁLIDA");
    let mut store = Store::new();
    store.append(rec.clone());
    let saved = store.to_saved().expect("plain accented text prints");
    let reloaded = Store::from_saved(Some(&saved));
    assert_eq!(reloaded.read_all()[0], rec);
}

#[test]
fn json_empty_array_is_an_empty_collection() {
    assert!(load_records("x.json", "[]").expect("empty array loads").is_empty());
    assert!(load_records("x.json", "  [ ]  ").expect("whitespace is fine").is_empty());
    assert!(Store::from_saved(Some("[]")).read_all().is_empty());
}

#[test]
fn json_trailing_text_after_array_fails() {
    assert_eq!(load_records("x.json", "[] x"), Err(LoadError::RecordParse));
}

#[test]
fn csv_header_in_any_order_loads_the_same_records() {
    // the same columns, permuted: values follow their own headers
    let header = "RPM,TIME,Largada_validada,TPS,Posição_do_acelerador,Marcha,Fluxo_total_de_combustível,Temp._do_motor,Pressão_de_Óleo,Temp._do_Ar,Tensão_da_Bateria,Pressão_do_freio,Tanque";
    let text = format!(
        "{}\n3000,0.5,SIM,10.25,40.125,2,1.5,90.0,4.2,25.0,12.6,0.0,45.5\n",
        header
    );
    let records = load_records("dados1.csv", &text).expect("permuted header should load");
    assert_eq!(records.len(), 1);
    assert_eq!(records[0], sample_record(500, 3000));
}

#[test]
fn csv_duplicate_header_column_fails() {
    let header = "TIME,TIME,TPS,Posição_do_acelerador,Marcha,Largada_validada,Fluxo_total_de_combustível,Temp._do_motor,Pressão_de_Óleo,Temp._do_Ar,Tensão_da_Bateria,Pressão_do_freio,Tanque";
    let text = format!(
        "{}\n0.5,0.7,10.25,40.125,2,SIM,1.5,90.0,4.2,25.0,12.6,0.0,45.5\n",
        header
    );
    assert_eq!(load_records("dados1.csv", &text), Err(LoadError::RecordParse));
}

#[test]
fn csv_unknown_header_column_fails() {
    let header = "Velocidade,RPM,TPS,Posição_do_acelerador,Marcha,Largada_validada,Fluxo_total_de_combustível,Temp._do_motor,Pressão_de_Óleo,Temp._do_Ar,Tensão_da_Bateria,Pressão_do_freio,Tanque";
    let text = format!(
        "{}\n0.5,3000,10.25,40.125,2,SIM,1.5,90.0,4.2,25.0,12.6,0.0,45.5\n",
        header
    );
    assert_eq!(load_records("dados1.csv", &text), Err(LoadError::RecordParse));
}

#[test]
fn json_hex_escapes_decode_and_surrogates_fail() {
    let ok = r#"[{"TIME": 0.5, "RPM": 3000, "TPS": 10.25, "Posição_do_acelerador": 40.125,
        "Marcha": 2, "Largada_validada": "\u0041\u000a", "Fluxo_total_de_combustível": 1.5,
        "Temp._do_motor": 90.0, "Pressão_de_Óleo": 4.2, "Temp._do_Ar": 25.0,
        "Tensão_da_Bateria": 12.6, "Pressão_do_freio": 0.0, "Tanque": 45.5}]"#;
    let records = load_records("dados.json", ok).expect("hex escapes decode");
    assert_eq!(records[0].launch_validated, "A\n");
    let bad = ok.replace("\\u0041\\u000a", "\\ud800");
    assert_eq!(load_records("dados.json", &bad), Err(LoadError::RecordParse));
}

#[test]
fn json_exponent_numbers_load_where_they_fit() {
    let base = r#"[{"TIME": 1e1, "RPM": 3e3, "TPS": 2.5E-2, "Posição_do_acelerador": 40.125,
        "Marcha": 2, "Largada_validada": "SIM", "Fluxo_total_de_combustível": 1.5,
        "Temp._do_motor": 90.0, "Pressão_de_Óleo": 4.2, "Temp._do_Ar": 25.0,
        "Tensão_da_Bateria": 12.6, "Pressão_do_freio": 0.0, "Tanque": 45.5}]"#;
    let records = load_records("dados.json", base).expect("exponents that fit load");
    assert_eq!(records[0].time, Fixed::from_milli(10_000));
    assert_eq!(records[0].rpm, 3000);
    assert_eq!(records[0].tps, Fixed::from_milli(25));
    // a value finer than a thousandth does not fit the model
    let too_fine = base.replace("2.5E-2", "1e-5");
    assert_eq!(load_records("dados.json", &too_fine), Err(LoadError::RecordParse));
    // a value beyond the range does not fit either
    let too_big = base.replace("2.5E-2", "1e25");
    assert_eq!(load_records("dados.json", &too_big), Err(LoadError::RecordParse));
}

#[test]
fn append_succeeds_on_whatever_the_store_read() {
    // prior content with a flag full of characters that need escaping
    let text = r#"[{"TIME": 0.5, "RPM": 3000, "TPS": 10.25, "Posição_do_acelerador": 40.125,
        "Marcha": 2, "Largada_validada": "a,b\"c\\d\ne", "Fluxo_total_de_combustível": 1.5,
        "Temp._do_motor": 90.0, "Pressão_de_Óleo": 4.2, "Temp._do_Ar": 25.0,
        "Tensão_da_Bateria": 12.6, "Pressão_do_freio": 0.0, "Tanque": 45.5}]"#;
    let mut store = Store::from_saved(Some(text));
    assert_eq!(store.read_all().len(), 1);
    store.append(sample_record(1000, 4000));
    // the rewrite of the whole document always succeeds on read content
    let saved = store.to_saved().expect("whatever was read can be saved again");
    let reloaded = Store::from_saved(Some(&saved));
    assert_eq!(reloaded.read_all(), store.read_all());
    assert_eq!(reloaded.read_all().len(), 2);
}
