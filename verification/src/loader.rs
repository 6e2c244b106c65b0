//! The loader: the file-name suffix selects the source encoding, and the
//! chosen parser turns the raw text into canonical records — a pure
//! function of path and contents, with no knowledge of the store.

use vstd::prelude::*;
use crate::errors::LoadError;
use crate::schema::{Record, RecordV, record_ok};
use crate::csv_doc::{spec_parse_csv, parse_csv, csv_rows_of, spec_records_rows, lemma_rows_roundtrip};
use crate::json_doc::{spec_parse_doc, spec_encode_doc, parse_doc, lemma_doc_roundtrip};
use crate::schema::spec_field_names;
use crate::text::str_to_chars;

verus! {

/// A recognized source encoding.
#[derive(Clone, Copy, PartialEq, Eq, Structural, Debug)]
pub enum Format {
    Csv,
    Json,
}

/// Whether `s` ends with `suffix`.
pub open spec fn spec_ends_with(s: Seq<char>, suffix: Seq<char>) -> bool {
    s.len() >= suffix.len() && s.skip(s.len() - suffix.len()) == suffix
}

/// The encoding a file name selects, or nothing for any other suffix.
pub open spec fn spec_detect_format(path: Seq<char>) -> Option<Format> {
    if spec_ends_with(path, ".csv"@) {
        Some(Format::Csv)
    } else if spec_ends_with(path, ".json"@) {
        Some(Format::Json)
    } else {
        None
    }
}

/// Determines the encoding from the file-name suffix alone: `.csv`,
/// `.json`, or `UnsupportedFormat`. This check precedes any reading of
/// the file's contents.
pub fn detect_format(path: &str) -> (r: Result<Format, LoadError>)
    ensures
        match r {
            Ok(f) => spec_detect_format(path@) == Some(f),
            Err(e) => spec_detect_format(path@) is None && e == LoadError::UnsupportedFormat,
        },
{
    let cs = str_to_chars(path);
    let n = cs.len();
    proof {
        reveal_strlit(".csv");
        reveal_strlit(".json");
        assert(".csv"@.len() == 4);
        assert(".json"@.len() == 5);
    }
    if n >= 4 && cs[n - 4] == '.' && cs[n - 3] == 'c' && cs[n - 2] == 's' && cs[n - 1] == 'v' {
        proof {
            assert(cs@.skip(n as int - 4) =~= ".csv"@);
        }
        Ok(Format::Csv)
    } else if n >= 5 && cs[n - 5] == '.' && cs[n - 4] == 'j' && cs[n - 3] == 's' && cs[n - 2] == 'o'
        && cs[n - 1] == 'n' {
        proof {
            assert(cs@.skip(n as int - 5) =~= ".json"@);
            assert(!spec_ends_with(path@, ".csv"@)) by {
                if spec_ends_with(path@, ".csv"@) {
                    assert(cs@.skip(n as int - 4)[3] == 'v');
                    assert(".csv"@[3] == 'v');
                    assert(cs@[n as int - 1] == 'n');
                }
            }
        }
        Ok(Format::Json)
    } else {
        proof {
            if spec_ends_with(path@, ".csv"@) {
                assert(cs@.skip(n as int - 4)[0] == cs@[n as int - 4]);
                assert(cs@.skip(n as int - 4)[1] == cs@[n as int - 3]);
                assert(cs@.skip(n as int - 4)[2] == cs@[n as int - 2]);
                assert(cs@.skip(n as int - 4)[3] == cs@[n as int - 1]);
            }
            if spec_ends_with(path@, ".json"@) {
                assert(cs@.skip(n as int - 5)[0] == cs@[n as int - 5]);
                assert(cs@.skip(n as int - 5)[1] == cs@[n as int - 4]);
                assert(cs@.skip(n as int - 5)[2] == cs@[n as int - 3]);
                assert(cs@.skip(n as int - 5)[3] == cs@[n as int - 2]);
                assert(cs@.skip(n as int - 5)[4] == cs@[n as int - 1]);
            }
        }
        Err(LoadError::UnsupportedFormat)
    }
}

/// The records a source text carries under an encoding, or the reason it
/// carries none. Failing rows or elements abort the whole load: there is
/// never a partial result.
pub open spec fn spec_parse_records(fmt: Format, text: Seq<char>) -> Result<Seq<RecordV>, LoadError> {
    match fmt {
        Format::Csv => match spec_parse_csv(text) {
            Some(rs) => Ok(rs),
            None => Err(LoadError::RecordParse),
        },
        Format::Json => match spec_parse_doc(text) {
            Some(rs) => Ok(rs),
            None => Err(LoadError::RecordParse),
        },
    }
}

/// Parses a source text under an encoding, in executable code.
pub fn parse_records(fmt: Format, text: &str) -> (r: Result<Vec<Record>, LoadError>)
    ensures
        match r {
            Ok(v) => spec_parse_records(fmt, text@) == Ok::<Seq<RecordV>, LoadError>(v.deep_view()),
            Err(e) => spec_parse_records(fmt, text@) == Err::<Seq<RecordV>, LoadError>(e),
        },
{
    match fmt {
        Format::Csv => parse_csv(text),
        Format::Json => parse_doc(text),
    }
}

/// What a whole load yields from a path and the text found there.
pub open spec fn spec_load(path: Seq<char>, text: Seq<char>) -> Result<Seq<RecordV>, LoadError> {
    match spec_detect_format(path) {
        Some(fmt) => spec_parse_records(fmt, text),
        None => Err(LoadError::UnsupportedFormat),
    }
}

/// Turns a source text into canonical records, the encoding chosen by the
/// path's suffix. The unverified edge reads the file and hands its text
/// here; an unsupported suffix is reported before any text is looked at.
pub fn load_records(path: &str, text: &str) -> (r: Result<Vec<Record>, LoadError>)
    ensures
        match r {
            Ok(v) => spec_load(path@, text@) == Ok::<Seq<RecordV>, LoadError>(v.deep_view()),
            Err(e) => spec_load(path@, text@) == Err::<Seq<RecordV>, LoadError>(e),
        },
{
    match detect_format(path) {
        Ok(fmt) => parse_records(fmt, text),
        Err(e) => Err(e),
    }
}

/// Whether a CSV text encodes exactly these records: the csv crate splits
/// it into the dictionary header followed by the records' canonical rows.
pub open spec fn csv_encodes(text: Seq<char>, rs: Seq<RecordV>) -> bool {
    csv_rows_of(text) == Some(seq![spec_field_names()].add(spec_records_rows(rs)))
}

/// Whether a JSON text encodes exactly these records: it is their
/// canonical persisted document.
pub open spec fn json_encodes(text: Seq<char>, rs: Seq<RecordV>) -> bool {
    text == spec_encode_doc(rs)
}

/// Law: a CSV text and a JSON text that encode the same logical records
/// load as identical canonical sequences — cross-format equivalence.
pub proof fn lemma_cross_format_equivalence(ctext: Seq<char>, jtext: Seq<char>, rs: Seq<RecordV>)
    requires
        forall|i: int| 0 <= i < rs.len() ==> record_ok(#[trigger] rs[i]),
        csv_encodes(ctext, rs),
        json_encodes(jtext, rs),
    ensures
        spec_parse_csv(ctext) == Some(rs),
        spec_parse_doc(jtext) == Some(rs),
        spec_parse_records(Format::Csv, ctext) == spec_parse_records(Format::Json, jtext),
{
    let rows = seq![spec_field_names()].add(spec_records_rows(rs));
    assert(rows[0] == spec_field_names());
    assert(rows.len() >= 1);
    assert(rows.skip(1) =~= spec_records_rows(rs));
    crate::csv_doc::lemma_canonical_header_ok();
    lemma_rows_roundtrip(rs);
    lemma_doc_roundtrip(rs);
}

} // verus!
