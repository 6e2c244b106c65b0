//! Narrowing a record sequence to a time window and projecting two named
//! variables into parallel numeric series.

use vstd::prelude::*;
use crate::num::Fixed;
use crate::schema::{Record, RecordV, FieldName, spec_project, project, spec_field_of_name, field_of_name};
use crate::text::chars_to_string;

verus! {

/// Whether a sample time lies inside the window. An absent bound means no
/// bound on that side; both ends are inclusive.
pub open spec fn in_window(t: Fixed, start: Option<Fixed>, end: Option<Fixed>) -> bool {
    &&& (start matches Some(s) ==> s.milli <= t.milli)
    &&& (end matches Some(e) ==> t.milli <= e.milli)
}

/// The subsequence of records whose time lies inside the window, in their
/// original order.
pub open spec fn window_filter(rs: Seq<RecordV>, start: Option<Fixed>, end: Option<Fixed>) -> Seq<RecordV> {
    rs.filter(|r: RecordV| in_window(r.time, start, end))
}

/// Whether one record's time lies inside the window, in executable code.
fn record_in_window(r: &Record, start: Option<Fixed>, end: Option<Fixed>) -> (b: bool)
    ensures
        b == in_window(r@.time, start, end),
{
    let lo = match start {
        Some(s) => s.milli <= r.time.milli,
        None => true,
    };
    let hi = match end {
        Some(e) => r.time.milli <= e.milli,
        None => true,
    };
    lo && hi
}

/// Keeps the records whose `time` satisfies `start <= time <= end`, both
/// ends inclusive; an absent bound leaves that side open. Order is kept,
/// and an empty result is a valid outcome, not an error.
#[verifier::loop_isolation(false)]
pub fn filter_by_time(records: &Vec<Record>, start: Option<Fixed>, end: Option<Fixed>) -> (r: Vec<Record>)
    ensures
        r.deep_view() == window_filter(records.deep_view(), start, end),
{
    let ghost rsv = records.deep_view();
    let ghost pred = |rv: RecordV| in_window(rv.time, start, end);
    let mut out: Vec<Record> = Vec::new();
    let mut i: usize = 0;
    proof {
        reveal(Seq::filter);
        assert(rsv.take(0) =~= Seq::<RecordV>::empty());
        assert(Seq::<RecordV>::empty().filter(pred) =~= Seq::<RecordV>::empty());
    }
    while i < records.len()
        invariant
            0 <= i <= records@.len(),
            rsv.len() == records@.len(),
            out.deep_view() == rsv.take(i as int).filter(pred),
        decreases records@.len() - i,
    {
        let rec = &records[i];
        proof {
            reveal(Seq::filter);
            assert(rsv.take(i as int + 1).drop_last() =~= rsv.take(i as int));
            assert(rsv.take(i as int + 1).last() == rsv[i as int]);
            assert(rsv[i as int] == rec@);
        }
        if record_in_window(rec, start, end) {
            let copied = rec.clone();
            out.push(copied);
            proof {
                assert(out.deep_view() =~= rsv.take(i as int).filter(pred).push(rec@));
                assert(rsv.take(i as int + 1).filter(pred) == rsv.take(i as int).filter(pred).push(rec@));
            }
        } else {
            proof {
                assert(rsv.take(i as int + 1).filter(pred) == rsv.take(i as int).filter(pred));
            }
        }
        i = i + 1;
    }
    proof {
        assert(rsv.take(rsv.len() as int) =~= rsv);
    }
    out
}

/// The projector a name selects: the textual flag field has none, and a
/// name outside the dictionary has none either.
pub open spec fn spec_projector_of(name: Seq<char>) -> Option<FieldName> {
    match spec_field_of_name(name) {
        Some(f) => if f == FieldName::LaunchValidated {
            None
        } else {
            Some(f)
        },
        None => None,
    }
}

/// The numeric reading of a field that has a projector.
pub open spec fn spec_project_num(r: RecordV, f: FieldName) -> Fixed {
    match spec_project(r, f) {
        Some(v) => v,
        None => Fixed { milli: 0 },
    }
}

/// The series a name yields over a record sequence: one value per record
/// for a recognized numeric name, and the empty sequence otherwise.
pub open spec fn spec_series(rs: Seq<RecordV>, name: Seq<char>) -> Seq<Fixed> {
    match spec_projector_of(name) {
        Some(f) => rs.map(|i: int, r: RecordV| spec_project_num(r, f)),
        None => Seq::empty(),
    }
}

/// The numeric reading of a projected field, in executable code.
fn project_num(r: &Record, f: FieldName) -> (v: Fixed)
    ensures
        v == spec_project_num(r@, f),
{
    match project(r, f) {
        Some(v) => v,
        None => Fixed::from_milli(0),
    }
}

/// The series one axis name yields over the records: index `i` of the
/// result comes from record `i`. A name with no projector yields the
/// empty series rather than an error.
#[verifier::loop_isolation(false)]
pub fn series_of(records: &Vec<Record>, name: &str) -> (r: Vec<Fixed>)
    ensures
        r@ == spec_series(records.deep_view(), name@),
{
    let ghost rsv = records.deep_view();
    let field = match field_of_name(name) {
        Some(f) => {
            if f == FieldName::LaunchValidated {
                return Vec::new();
            }
            f
        },
        None => {
            return Vec::new();
        },
    };
    let ghost proj = |i: int, rv: RecordV| spec_project_num(rv, field);
    let mut out: Vec<Fixed> = Vec::new();
    let mut i: usize = 0;
    while i < records.len()
        invariant
            0 <= i <= records@.len(),
            rsv.len() == records@.len(),
            out@.len() == i,
            forall|t: int| 0 <= t < i ==> out@[t] == spec_project_num(rsv[t], field),
        decreases records@.len() - i,
    {
        let v = project_num(&records[i], field);
        out.push(v);
        i = i + 1;
    }
    proof {
        assert(out@ =~= rsv.map(proj));
    }
    out
}

/// Projects the two axis names over the records: two index-aligned series,
/// where position `i` of each comes from the same record.
pub fn extract_series(records: &Vec<Record>, axis_x: &str, axis_y: &str) -> (r: (Vec<Fixed>, Vec<Fixed>))
    ensures
        r.0@ == spec_series(records.deep_view(), axis_x@),
        r.1@ == spec_series(records.deep_view(), axis_y@),
{
    let xs = series_of(records, axis_x);
    let ys = series_of(records, axis_y);
    (xs, ys)
}

/// An axis name with spaces replaced by underscores.
pub open spec fn spec_sanitize(s: Seq<char>) -> Seq<char> {
    s.map(|i: int, c: char| if c == ' ' { '_' } else { c })
}

/// The suggested output identifier for an axis pair: the two names with
/// spaces replaced by underscores, joined by `_vs_`.
pub open spec fn spec_chart_id(x: Seq<char>, y: Seq<char>) -> Seq<char> {
    spec_sanitize(x).add("_vs_"@).add(spec_sanitize(y))
}

/// Appends a sanitized axis name.
#[verifier::loop_isolation(false)]
fn push_sanitized(name: &Vec<char>, out: &mut Vec<char>)
    ensures
        final(out)@ == old(out)@ + spec_sanitize(name@),
{
    let mut i: usize = 0;
    while i < name.len()
        invariant
            0 <= i <= name@.len(),
            out@.len() == old(out)@.len() + i,
            out@ == old(out)@ + spec_sanitize(name@).take(i as int),
        decreases name@.len() - i,
    {
        let c = name[i];
        if c == ' ' {
            out.push('_');
        } else {
            out.push(c);
        }
        proof {
            assert(out@ =~= old(out)@ + spec_sanitize(name@).take(i as int + 1));
        }
        i = i + 1;
    }
    proof {
        assert(spec_sanitize(name@).take(name@.len() as int) =~= spec_sanitize(name@));
    }
}

/// The suggested output identifier for an axis pair, in executable code.
pub fn chart_identifier(axis_x: &Vec<char>, axis_y: &Vec<char>) -> (r: String)
    ensures
        r@ == spec_chart_id(axis_x@, axis_y@),
{
    let mut out: Vec<char> = Vec::new();
    push_sanitized(axis_x, &mut out);
    out.push('_');
    out.push('v');
    out.push('s');
    out.push('_');
    push_sanitized(axis_y, &mut out);
    proof {
        reveal_strlit("_vs_");
        assert("_vs_"@.len() == 4);
        assert(out@ =~= spec_chart_id(axis_x@, axis_y@));
    }
    chars_to_string(&out)
}

/// Filtering a sequence already filtered with the same bounds returns the
/// same sequence: every kept record already lies inside the window.
pub proof fn lemma_filter_by_time_idempotent(rs: Seq<RecordV>, start: Option<Fixed>, end: Option<Fixed>)
    ensures
        window_filter(window_filter(rs, start, end), start, end) == window_filter(rs, start, end),
{
    let pred = |rv: RecordV| in_window(rv.time, start, end);
    let once = rs.filter(pred);
    assert forall|i: int| 0 <= i < once.len() implies pred(#[trigger] once[i]) by {
        rs.lemma_filter_pred(pred, i);
    }
    lemma_filter_of_satisfying(once, pred);
}

/// Filtering a sequence whose every element satisfies the predicate
/// returns the sequence itself.
proof fn lemma_filter_of_satisfying<A>(s: Seq<A>, pred: spec_fn(A) -> bool)
    requires
        forall|i: int| 0 <= i < s.len() ==> pred(#[trigger] s[i]),
    ensures
        s.filter(pred) == s,
    decreases s.len(),
{
    reveal(Seq::filter);
    if s.len() == 0 {
        assert(s.filter(pred) =~= s);
    } else {
        lemma_filter_of_satisfying(s.drop_last(), pred);
        assert(pred(s.last()));
        assert(s.filter(pred) == s.drop_last().filter(pred).push(s.last()));
        assert(s.drop_last().push(s.last()) =~= s);
    }
}

/// A record whose time equals either bound of a well-formed window is
/// included by the filter.
pub proof fn lemma_window_boundary_inclusive(rs: Seq<RecordV>, start: Fixed, end: Fixed, i: int)
    requires
        0 <= i < rs.len(),
        start.milli <= end.milli,
        rs[i].time == start || rs[i].time == end,
    ensures
        in_window(rs[i].time, Some(start), Some(end)),
        window_filter(rs, Some(start), Some(end)).contains(rs[i]),
{
    let pred = |rv: RecordV| in_window(rv.time, Some(start), Some(end));
    assert(pred(rs[i]));
    rs.lemma_filter_contains(pred, i);
}

/// For any recognized axis pair, the two extracted series have the same
/// length, equal to the record count of the input.
pub proof fn lemma_series_lengths(rs: Seq<RecordV>, x: Seq<char>, y: Seq<char>)
    requires
        spec_projector_of(x) is Some,
        spec_projector_of(y) is Some,
    ensures
        spec_series(rs, x).len() == rs.len(),
        spec_series(rs, y).len() == rs.len(),
{
}

} // verus!
