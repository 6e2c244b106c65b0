//! The durable, ordered collection of records. The collection lives here
//! in memory; the unverified edge moves it to and from the single backing
//! document through `from_saved` and `to_saved`, so every write replaces
//! the whole persisted collection and no partial document is ever left.

use vstd::prelude::*;
use crate::schema::{Record, RecordV, record_ok};
use crate::json_doc::{spec_parse_doc, spec_encode_doc, parse_doc, encode_doc, lemma_doc_roundtrip};

verus! {

/// What clearing leaves of a collection.
pub open spec fn clear_spec(rs: Seq<RecordV>) -> Seq<RecordV> {
    Seq::empty()
}

/// What appending one record leaves of a collection.
pub open spec fn append_spec(rs: Seq<RecordV>, r: RecordV) -> Seq<RecordV> {
    rs.push(r)
}

/// What reading returns of a collection.
pub open spec fn read_all_spec(rs: Seq<RecordV>) -> Seq<RecordV> {
    rs
}

/// The records a saved text stands for. Absent content and content the
/// document grammar refuses both stand for the empty collection: the cold
/// start default, and a deliberate leniency toward unparsable legacy
/// content; neither is an error.
pub open spec fn saved_records(content: Option<Seq<char>>) -> Seq<RecordV> {
    match content {
        None => Seq::empty(),
        Some(t) => match spec_parse_doc(t) {
            Some(rs) => rs,
            None => Seq::empty(),
        },
    }
}

/// The store: an ordered collection of records, arrival order preserved,
/// duplicates permitted.
pub struct Store {
    records: Vec<Record>,
}

impl View for Store {
    type V = Seq<RecordV>;

    closed spec fn view(&self) -> Seq<RecordV> {
        self.records.deep_view()
    }
}

impl Store {
    /// The empty store.
    pub fn new() -> (s: Store)
        ensures
            s@ == Seq::<RecordV>::empty(),
    {
        let records: Vec<Record> = Vec::new();
        proof {
            assert(records.deep_view() =~= Seq::<RecordV>::empty());
        }
        Store { records }
    }

    /// The store a saved text stands for; `None` is an absent backing file.
    pub fn from_saved(content: Option<&str>) -> (s: Store)
        ensures
            s@ == saved_records(match content {
                Some(t) => Some(t@),
                None => None,
            }),
    {
        match content {
            None => Store::new(),
            Some(t) => match parse_doc(t) {
                Ok(v) => Store { records: v },
                Err(_) => Store::new(),
            },
        }
    }

    /// The full current collection.
    pub fn read_all(&self) -> (r: &Vec<Record>)
        ensures
            r.deep_view() == read_all_spec(self@),
    {
        &self.records
    }

    /// How many records the store holds.
    pub fn len(&self) -> (n: usize)
        ensures
            n == self@.len(),
    {
        self.records.len()
    }

    /// Appends one record at the end; everything before it is unchanged.
    pub fn append(&mut self, r: Record)
        ensures
            final(self)@ == append_spec(old(self)@, r@),
    {
        self.records.push(r);
    }

    /// Replaces the collection with the empty sequence.
    pub fn clear(&mut self)
        ensures
            final(self)@ == clear_spec(old(self)@),
    {
        self.records = Vec::new();
        proof {
            assert(self.records.deep_view() =~= Seq::<RecordV>::empty());
        }
    }

    /// Whether every held record lies in the canonical interchange domain.
    pub fn all_canonical(&self) -> (b: bool)
        ensures
            b == (forall|i: int| 0 <= i < self@.len() ==> record_ok(#[trigger] self@[i])),
    {
        let mut i: usize = 0;
        while i < self.records.len()
            invariant
                0 <= i <= self@.len(),
                self@.len() == self.records@.len(),
                forall|t: int| 0 <= t < i ==> record_ok(#[trigger] self@[t]),
            decreases self@.len() - i,
        {
            if !record_canonical(&self.records[i]) {
                proof {
                    assert(!record_ok(self@[i as int]));
                }
                return false;
            }
            i = i + 1;
        }
        true
    }

    /// The canonical text of the whole collection, ready to replace the
    /// backing document in one write, or nothing when a record lies
    /// outside the canonical interchange domain.
    pub fn to_saved(&self) -> (r: Option<String>)
        ensures
            match r {
                Some(t) => t@ == spec_encode_doc(self@)
                    && (forall|i: int| 0 <= i < self@.len() ==> record_ok(#[trigger] self@[i])),
                None => !(forall|i: int| 0 <= i < self@.len() ==> record_ok(#[trigger] self@[i])),
            },
    {
        if self.all_canonical() {
            Some(encode_doc(&self.records))
        } else {
            None
        }
    }
}

/// Whether one record lies in the canonical interchange domain, in
/// executable code: every numeric field must be printable. The flag text
/// never disqualifies a record, since printing escapes it.
pub fn record_canonical(r: &Record) -> (b: bool)
    ensures
        b == record_ok(r@),
{
    r.time.milli != i64::MIN && r.tps.milli != i64::MIN
        && r.throttle_position.milli != i64::MIN && r.fuel_flow_total.milli != i64::MIN
        && r.engine_temp.milli != i64::MIN && r.oil_pressure.milli != i64::MIN
        && r.air_temp.milli != i64::MIN && r.battery_voltage.milli != i64::MIN
        && r.brake_pressure.milli != i64::MIN && r.fuel_level.milli != i64::MIN
}

/// Law: clearing and then reading back always yields the empty collection.
pub proof fn lemma_clear_then_read_all(rs: Seq<RecordV>)
    ensures
        read_all_spec(clear_spec(rs)) =~= Seq::<RecordV>::empty(),
{
}

/// Law: appending and then reading back yields the prior collection with
/// the record at the end — order preserved, size up by exactly one.
pub proof fn lemma_append_then_read_all(rs: Seq<RecordV>, r: RecordV)
    ensures
        read_all_spec(append_spec(rs, r)) == rs.push(r),
        read_all_spec(append_spec(rs, r)).len() == rs.len() + 1,
        read_all_spec(append_spec(rs, r))[rs.len() as int] == r,
        forall|i: int| 0 <= i < rs.len() ==> read_all_spec(append_spec(rs, r))[i] == rs[i],
{
}

/// Law: every record a saved text stands for lies in the canonical
/// interchange domain, so a collection read from the backing document can
/// always be appended to and written back — appending never fails on what
/// an earlier write or a foreign writer left behind.
pub proof fn lemma_saved_records_printable(content: Option<Seq<char>>)
    ensures
        forall|i: int| 0 <= i < saved_records(content).len()
            ==> record_ok(#[trigger] saved_records(content)[i]),
{
    match content {
        None => {},
        Some(t) => {
            crate::json_doc::lemma_parsed_records_printable(t);
        },
    }
}

/// Law: a collection written out canonically and read back in is exactly
/// the collection — the persisted document loses nothing.
pub proof fn lemma_saved_roundtrip(rs: Seq<RecordV>)
    requires
        forall|i: int| 0 <= i < rs.len() ==> record_ok(#[trigger] rs[i]),
    ensures
        saved_records(Some(spec_encode_doc(rs))) == rs,
{
    lemma_doc_roundtrip(rs);
}

} // verus!
