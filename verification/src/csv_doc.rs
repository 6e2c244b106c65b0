//! The tabular source encoding: the csv crate splits the text into rows,
//! and verified code reads the header as a permutation of the field
//! dictionary and types each data row against it, assembling records
//! member by member with the same machinery the document parser uses.

use vstd::prelude::*;
use crate::errors::LoadError;
use crate::num::{spec_fixed_of_text, spec_fmt_fixed, spec_fmt_u32, fixed_of_text, lemma_fixed_text_roundtrip, lemma_parse_u32_fmt};
use crate::schema::{Record, RecordV, FieldName, field_order, spec_field_of_name, spec_field_name, spec_field_names, field_of_name, record_ok, lemma_field_name_resolve};
use crate::json_doc::{ValV, Val, val_view, PartialV, PartialRec, empty_partial, empty_partial_exec, partial_put, partial_put_exec, partial_record, partial_record_exec, pview, member_val, partial_upto, lemma_put_upto};
use crate::text::str_to_chars;

verus! {

/// What the csv crate's reader yields for a text: every row as its list of
/// fields, or nothing when any row is malformed. The split depends on the
/// text alone.
pub uninterp spec fn csv_rows_of(text: Seq<char>) -> Option<Seq<Seq<Seq<char>>>>;

/// Relies on csv::Reader of the csv crate: it splits comma-separated text
/// into rows of string fields, handling quoting, and reports an error for
/// a malformed row, which here fails the whole split.
#[verifier::external_body]
fn csv_split(text: &str) -> (r: Option<Vec<Vec<String>>>)
    ensures
        r.deep_view() == csv_rows_of(text@),
{
    let rdr = csv::ReaderBuilder::new().has_headers(false).from_reader(text.as_bytes());
    rdr.into_records()
        .map(|row| row.map(|rec| rec.iter().map(String::from).collect()))
        .collect::<Result<Vec<Vec<String>>, csv::Error>>()
        .ok()
}

/// Whether a header row is fit to type data rows: thirteen columns, each
/// naming a dictionary field, no field twice — any permutation of the
/// dictionary is accepted.
pub open spec fn spec_header_ok(hdr: Seq<Seq<char>>) -> bool {
    &&& hdr.len() == 13
    &&& forall|i: int| 0 <= i < 13 ==> spec_field_of_name(#[trigger] hdr[i]) is Some
    &&& forall|i: int, j: int| 0 <= i < j < 13
        ==> spec_field_of_name(hdr[i]) != spec_field_of_name(hdr[j])
}

/// The member value a cell carries for a field: the flag field takes the
/// cell verbatim, every other field reads it as one whole number.
pub open spec fn spec_cell_val(f: FieldName, cell: Seq<char>) -> Option<ValV> {
    if f == FieldName::LaunchValidated {
        Some(ValV::Txt(cell))
    } else {
        match spec_fixed_of_text(cell) {
            Some(v) => Some(ValV::Num(v)),
            None => None,
        }
    }
}

/// Reads row cells from column `k` on into the record under construction,
/// each cell against the field its header column names.
pub open spec fn spec_row_fold(hdr: Seq<Seq<char>>, row: Seq<Seq<char>>, k: int, p: PartialV) -> Option<PartialV>
    decreases 13 - k,
{
    if k < 0 || k >= 13 {
        Some(p)
    } else {
        match spec_field_of_name(hdr[k]) {
            None => None,
            Some(f) => match spec_cell_val(f, row[k]) {
                None => None,
                Some(v) => match partial_put(p, f, v) {
                    None => None,
                    Some(p2) => spec_row_fold(hdr, row, k + 1, p2),
                },
            },
        }
    }
}

/// The record one data row carries under a header, or nothing when a cell
/// refuses its field's type or the row is the wrong width.
pub open spec fn spec_row_record(hdr: Seq<Seq<char>>, row: Seq<Seq<char>>) -> Option<RecordV> {
    if row.len() != 13 {
        None
    } else {
        match spec_row_fold(hdr, row, 0, empty_partial()) {
            None => None,
            Some(p) => partial_record(p),
        }
    }
}

/// The records a run of data rows carries, or nothing when any row fails.
/// A failing row aborts the whole load: no partial result exists.
pub open spec fn spec_rows_records(hdr: Seq<Seq<char>>, rows: Seq<Seq<Seq<char>>>) -> Option<Seq<RecordV>>
    decreases rows.len(),
{
    if rows.len() == 0 {
        Some(Seq::empty())
    } else {
        match (spec_rows_records(hdr, rows.drop_last()), spec_row_record(hdr, rows.last())) {
            (Some(pre), Some(r)) => Some(pre.push(r)),
            _ => None,
        }
    }
}

/// One failing row fails the whole run.
proof fn lemma_rows_records_none(hdr: Seq<Seq<char>>, rows: Seq<Seq<Seq<char>>>, i: int)
    requires
        0 <= i < rows.len(),
        spec_row_record(hdr, rows[i]) is None,
    ensures
        spec_rows_records(hdr, rows) is None,
    decreases rows.len(),
{
    if i == rows.len() - 1 {
        assert(rows.last() == rows[i]);
    } else {
        assert(rows.drop_last()[i] == rows[i]);
        lemma_rows_records_none(hdr, rows.drop_last(), i);
    }
}

/// What a CSV source carries: the split rows must begin with a header
/// that permutes the field dictionary, and every following row must type
/// against it. Anything else is a parse failure.
pub open spec fn spec_parse_csv(text: Seq<char>) -> Option<Seq<RecordV>> {
    match csv_rows_of(text) {
        Some(rows) => if rows.len() == 0 || !spec_header_ok(rows[0]) {
            None
        } else {
            spec_rows_records(rows[0], rows.skip(1))
        },
        None => None,
    }
}

/// Resolves a header row to the field each column names.
#[verifier::loop_isolation(false)]
fn header_fields(row: &Vec<String>) -> (r: Option<Vec<FieldName>>)
    ensures
        match r {
            Some(fs) => spec_header_ok(row.deep_view()) && fs@.len() == 13
                && (forall|i: int| 0 <= i < 13
                    ==> Some(fs@[i]) == spec_field_of_name(#[trigger] row.deep_view()[i])),
            None => !spec_header_ok(row.deep_view()),
        },
{
    let ghost hdrv = row.deep_view();
    if row.len() != 13 {
        return None;
    }
    let mut fs: Vec<FieldName> = Vec::new();
    let mut i: usize = 0;
    while i < 13
        invariant
            0 <= i <= 13,
            fs@.len() == i,
            forall|t: int| 0 <= t < i ==> Some(fs@[t]) == spec_field_of_name(#[trigger] hdrv[t]),
        decreases 13 - i,
    {
        proof {
            assert(hdrv[i as int] == row@[i as int]@);
        }
        match field_of_name(row[i].as_str()) {
            Some(f) => {
                fs.push(f);
            },
            None => {
                return None;
            },
        }
        i = i + 1;
    }
    let mut a: usize = 0;
    while a < 13
        invariant
            0 <= a <= 13,
            forall|x: int, y: int| 0 <= x < y < 13 && x < a ==> fs@[x] != fs@[y],
        decreases 13 - a,
    {
        let mut b: usize = a + 1;
        while b < 13
            invariant
                a < b <= 13,
                forall|y: int| a < y < b ==> fs@[a as int] != fs@[y],
            decreases 13 - b,
        {
            if fs[a] == fs[b] {
                proof {
                    assert(spec_field_of_name(hdrv[a as int]) == spec_field_of_name(hdrv[b as int]));
                    assert(!spec_header_ok(hdrv));
                }
                return None;
            }
            b = b + 1;
        }
        a = a + 1;
    }
    proof {
        assert forall|x: int, y: int| 0 <= x < y < 13
            implies spec_field_of_name(hdrv[x]) != spec_field_of_name(hdrv[y]) by {
            assert(fs@[x] != fs@[y]);
        }
        assert(spec_header_ok(hdrv));
    }
    Some(fs)
}

/// Types one data row against the resolved header, in executable code.
#[verifier::loop_isolation(false)]
fn row_record(fields: &Vec<FieldName>, Ghost(hdrv): Ghost<Seq<Seq<char>>>, row: &Vec<String>) -> (r: Option<Record>)
    requires
        fields@.len() == 13,
        forall|i: int| 0 <= i < 13 ==> Some(fields@[i]) == spec_field_of_name(#[trigger] hdrv[i]),
    ensures
        match r {
            Some(rec) => spec_row_record(hdrv, row.deep_view()) == Some(rec@),
            None => spec_row_record(hdrv, row.deep_view()) is None,
        },
{
    let ghost rowv = row.deep_view();
    if row.len() != 13 {
        return None;
    }
    let mut p: PartialRec = empty_partial_exec();
    let mut k: usize = 0;
    while k < 13
        invariant
            0 <= k <= 13,
            spec_row_fold(hdrv, rowv, 0, empty_partial()) == spec_row_fold(hdrv, rowv, k as int, pview(&p)),
        decreases 13 - k,
    {
        let f = fields[k];
        proof {
            assert(rowv[k as int] == row@[k as int]@);
        }
        let v: Val = if matches!(f, FieldName::LaunchValidated) {
            Val::Txt(str_to_chars(row[k].as_str()))
        } else {
            match fixed_of_text(&str_to_chars(row[k].as_str())) {
                Some(x) => Val::Num(x),
                None => {
                    proof {
                        assert(spec_cell_val(f, rowv[k as int]) is None);
                    }
                    return None;
                },
            }
        };
        proof {
            assert(spec_cell_val(f, rowv[k as int]) == Some(val_view(&v)));
        }
        p = match partial_put_exec(p, f, v) {
            Some(q) => q,
            None => {
                return None;
            },
        };
        k = k + 1;
    }
    match partial_record_exec(p) {
        Some(rec) => Some(rec),
        None => None,
    }
}

/// Parses CSV text: a header row that permutes the field dictionary, then
/// one record per row, in file order. Returns `Ok` exactly when the split
/// succeeds, the header is fit, and every row types; any other text
/// yields `RecordParse` and no partial result.
#[verifier::loop_isolation(false)]
#[verifier::rlimit(100)]
pub fn parse_csv(text: &str) -> (r: Result<Vec<Record>, LoadError>)
    ensures
        match r {
            Ok(v) => spec_parse_csv(text@) == Some(v.deep_view()),
            Err(e) => spec_parse_csv(text@) is None && e == LoadError::RecordParse,
        },
{
    let rows = match csv_split(text) {
        Some(rows) => rows,
        None => {
            return Err(LoadError::RecordParse);
        },
    };
    if rows.len() == 0 {
        return Err(LoadError::RecordParse);
    }
    let ghost hdrv = rows.deep_view()[0];
    proof {
        assert(hdrv == rows@[0].deep_view());
    }
    let fields = match header_fields(&rows[0]) {
        Some(fs) => fs,
        None => {
            return Err(LoadError::RecordParse);
        },
    };
    let ghost data = rows.deep_view().skip(1);
    let mut out: Vec<Record> = Vec::new();
    let mut i: usize = 1;
    proof {
        assert(data.take(0) =~= Seq::<Seq<Seq<char>>>::empty());
    }
    while i < rows.len()
        invariant
            1 <= i <= rows@.len(),
            spec_rows_records(hdrv, data.take(i as int - 1)) == Some(out.deep_view()),
        decreases rows@.len() - i,
    {
        proof {
            assert(data.take(i as int).drop_last() =~= data.take(i as int - 1));
            assert(data.take(i as int).last() == rows.deep_view()[i as int]);
        }
        match row_record(&fields, Ghost(hdrv), &rows[i]) {
            Some(rec) => {
                out.push(rec);
                proof {
                    assert(out.deep_view() =~= spec_rows_records(hdrv, data.take(i as int - 1)).unwrap().push(rec@));
                }
            },
            None => {
                proof {
                    assert(data[i as int - 1] == rows.deep_view()[i as int]);
                    lemma_rows_records_none(hdrv, data, i as int - 1);
                }
                return Err(LoadError::RecordParse);
            },
        }
        i = i + 1;
    }
    proof {
        assert(data.take(rows@.len() as int - 1) =~= data);
    }
    Ok(out)
}

/// The canonical data row of a record: every field printed canonically,
/// in dictionary order.
pub open spec fn spec_record_row(r: RecordV) -> Seq<Seq<char>> {
    seq![
        spec_fmt_fixed(r.time),
        spec_fmt_u32(r.rpm),
        spec_fmt_fixed(r.tps),
        spec_fmt_fixed(r.throttle_position),
        spec_fmt_u32(r.gear),
        r.launch_validated,
        spec_fmt_fixed(r.fuel_flow_total),
        spec_fmt_fixed(r.engine_temp),
        spec_fmt_fixed(r.oil_pressure),
        spec_fmt_fixed(r.air_temp),
        spec_fmt_fixed(r.battery_voltage),
        spec_fmt_fixed(r.brake_pressure),
        spec_fmt_fixed(r.fuel_level),
    ]
}

/// The canonical data rows of a record sequence.
pub open spec fn spec_records_rows(rs: Seq<RecordV>) -> Seq<Seq<Seq<char>>> {
    rs.map(|i: int, r: RecordV| spec_record_row(r))
}

/// The dictionary header in its own order is fit to type rows.
pub proof fn lemma_canonical_header_ok()
    ensures
        spec_header_ok(spec_field_names()),
{
    assert forall|i: int| 0 <= i < 13
        implies spec_field_of_name(#[trigger] spec_field_names()[i]) is Some by {
        lemma_field_name_resolve(field_order()[i]);
    }
    assert forall|i: int, j: int| 0 <= i < j < 13
        implies spec_field_of_name(spec_field_names()[i]) != spec_field_of_name(spec_field_names()[j]) by {
        lemma_field_name_resolve(field_order()[i]);
        lemma_field_name_resolve(field_order()[j]);
        assert(field_order()[i] != field_order()[j]);
    }
}

/// A canonical cell reads back as exactly its member value.
proof fn lemma_cell_roundtrip(r: RecordV, k: int)
    requires
        record_ok(r),
        0 <= k < 13,
    ensures
        spec_cell_val(field_order()[k], spec_record_row(r)[k]) == Some(member_val(r, field_order()[k])),
{
    if k == 1 {
        lemma_parse_u32_fmt(r.rpm, Seq::<char>::empty());
        assert(spec_fmt_u32(r.rpm).add(Seq::<char>::empty()) =~= spec_fmt_u32(r.rpm));
    } else if k == 4 {
        lemma_parse_u32_fmt(r.gear, Seq::<char>::empty());
        assert(spec_fmt_u32(r.gear).add(Seq::<char>::empty()) =~= spec_fmt_u32(r.gear));
    } else if k == 5 {
    } else if k == 0 {
        lemma_fixed_text_roundtrip(r.time);
    } else if k == 2 {
        lemma_fixed_text_roundtrip(r.tps);
    } else if k == 3 {
        lemma_fixed_text_roundtrip(r.throttle_position);
    } else if k == 6 {
        lemma_fixed_text_roundtrip(r.fuel_flow_total);
    } else if k == 7 {
        lemma_fixed_text_roundtrip(r.engine_temp);
    } else if k == 8 {
        lemma_fixed_text_roundtrip(r.oil_pressure);
    } else if k == 9 {
        lemma_fixed_text_roundtrip(r.air_temp);
    } else if k == 10 {
        lemma_fixed_text_roundtrip(r.battery_voltage);
    } else if k == 11 {
        lemma_fixed_text_roundtrip(r.brake_pressure);
    } else {
        lemma_fixed_text_roundtrip(r.fuel_level);
    }
}

/// Folding the canonical row from column `k` on finishes the record.
proof fn lemma_row_fold_upto(r: RecordV, k: int)
    requires
        record_ok(r),
        0 <= k <= 13,
    ensures
        spec_row_fold(spec_field_names(), spec_record_row(r), k, partial_upto(r, k))
            == Some(partial_upto(r, 13)),
    decreases 13 - k,
{
    if k < 13 {
        let f = field_order()[k];
        assert(spec_field_names()[k] == spec_field_name(f));
        lemma_field_name_resolve(f);
        lemma_cell_roundtrip(r, k);
        lemma_put_upto(r, k);
        lemma_row_fold_upto(r, k + 1);
    }
}

/// A canonical data row under the dictionary header types back to exactly
/// its record.
pub proof fn lemma_row_roundtrip(r: RecordV)
    requires
        record_ok(r),
    ensures
        spec_row_record(spec_field_names(), spec_record_row(r)) == Some(r),
{
    lemma_row_fold_upto(r, 0);
    assert(partial_upto(r, 0) == empty_partial());
    assert(partial_record(partial_upto(r, 13)) == Some(r));
}

/// A canonical run of data rows types back to exactly its records.
pub proof fn lemma_rows_roundtrip(rs: Seq<RecordV>)
    requires
        forall|i: int| 0 <= i < rs.len() ==> record_ok(#[trigger] rs[i]),
    ensures
        spec_rows_records(spec_field_names(), spec_records_rows(rs)) == Some(rs),
    decreases rs.len(),
{
    let rows = spec_records_rows(rs);
    if rs.len() == 0 {
        assert(rows.len() == 0);
    } else {
        lemma_rows_roundtrip(rs.drop_last());
        assert(rows.drop_last() =~= spec_records_rows(rs.drop_last()));
        assert(rows.last() == spec_record_row(rs.last()));
        lemma_row_roundtrip(rs.last());
        assert(rs.drop_last().push(rs.last()) =~= rs);
    }
}

} // verus!
