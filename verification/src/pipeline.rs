//! The per-key fetch-normalize-hash step and the fail-fast run over a
//! whole enumeration.
//!
//! The store and file round-trips live outside the library; what comes
//! back from the store — the reported type and the raw value listing —
//! is handed in as plain values, and everything decided from there is
//! verified.  A run stops at the first key whose reported type falls
//! outside the supported data model, keeping only the records
//! completed strictly before it.

use vstd::prelude::*;

use crate::canon::canon;
use crate::canon::canonicalize;
use crate::canon::parse_type_tag;
use crate::canon::tag_of;
use crate::canon::TypeTag;
use crate::digest::calculate_hash;
use crate::digest::spec_digest;
use crate::record::Record;

verus! {

/// The failure that aborts a run: the store reported a type outside
/// the supported data model for some key, which signals a store or
/// client version mismatch rather than a per-key anomaly.
#[derive(Debug)]
pub struct UnsupportedType {
    pub key: String,
    pub reported: String,
}

/// What one key's fetch brought back: the store's type report and the
/// raw value listing read for that type.
#[derive(Debug)]
pub struct StoreEntry {
    pub key: String,
    pub reported: String,
    pub raw: Vec<String>,
}

impl View for StoreEntry {
    type V = (Seq<char>, Seq<char>, Seq<Seq<char>>);

    open spec fn view(&self) -> (Seq<char>, Seq<char>, Seq<Seq<char>>) {
        (self.key@, self.reported@, self.raw.deep_view())
    }
}

/// A fetched entry is supported when the store's type report names one
/// of the five value kinds, or `none` for a vanished key.
pub open spec fn entry_supported(e: (Seq<char>, Seq<char>, Seq<Seq<char>>)) -> bool {
    tag_of(e.1) is Some
}

/// A hash-map listing pairs every field with its value, so it has even
/// length.  Listings for other types carry no shape constraint.
pub open spec fn entry_wf(e: (Seq<char>, Seq<char>, Seq<Seq<char>>)) -> bool {
    tag_of(e.1) == Some(TypeTag::Hash) ==> e.2.len() % 2 == 0
}

/// The record a supported entry produces: the key, the reported type's
/// tag, and the digest of the raw value's canonical form.
pub open spec fn entry_record(e: (Seq<char>, Seq<char>, Seq<Seq<char>>)) -> (
    Seq<char>,
    TypeTag,
    u64,
) {
    (e.0, tag_of(e.1)->Some_0, spec_digest(canon(tag_of(e.1)->Some_0, e.2)))
}

/// `entry_record` as a function value, shared by definitions and
/// proofs so they all speak of one closure.
pub open spec fn entry_record_fn() -> spec_fn((Seq<char>, Seq<char>, Seq<Seq<char>>)) -> (
    Seq<char>,
    TypeTag,
    u64,
) {
    |e: (Seq<char>, Seq<char>, Seq<Seq<char>>)| entry_record(e)
}

/// The records a sequence of fetched entries produces, one per entry,
/// in fetch order.
pub open spec fn records_of(es: Seq<(Seq<char>, Seq<char>, Seq<Seq<char>>)>) -> Seq<
    (Seq<char>, TypeTag, u64),
> {
    es.map_values(entry_record_fn())
}

fn clone_strings(v: &Vec<String>) -> (r: Vec<String>)
    ensures
        r.deep_view() == v.deep_view(),
{
    let mut r: Vec<String> = Vec::new();
    let mut i: usize = 0;
    while i < v.len()
        invariant
            i <= v.len(),
            r.deep_view() == v.deep_view().take(i as int),
        decreases v.len() - i,
    {
        let ghost pre = r.deep_view();
        r.push(v[i].clone());
        proof {
            assert(r.deep_view() =~= pre.push(v.deep_view()[i as int]));
            assert(r.deep_view() =~= v.deep_view().take(i as int + 1));
        }
        i = i + 1;
    }
    proof {
        assert(v.deep_view().take(v.len() as int) =~= v.deep_view());
    }
    r
}

/// The compute half of one key's fetch: given the store's type report
/// and the raw listing read for it, canonicalize and hash the value.
/// Succeeds exactly on the supported type reports; an unrecognized
/// report is the run-aborting failure, never a skipped key.
pub fn make_record(key: String, reported: &str, raw: Vec<String>) -> (r: Result<
    Record,
    UnsupportedType,
>)
    requires
        tag_of(reported@) == Some(TypeTag::Hash) ==> raw@.len() % 2 == 0,
    ensures
        match r {
            Result::Ok(rec) => {
                &&& tag_of(reported@) is Some
                &&& rec@ == entry_record((key@, reported@, raw.deep_view()))
            },
            Result::Err(e) => {
                &&& tag_of(reported@) is None
                &&& e.key@ == key@
                &&& e.reported@ == reported@
            },
        },
{
    match parse_type_tag(reported) {
        Some(tag) => {
            let form = canonicalize(tag, raw);
            let digest = calculate_hash(&form);
            Ok(Record { key, tag, digest })
        },
        None => Err(UnsupportedType { key, reported: String::from_str(reported) }),
    }
}

/// A whole run over an enumeration's fetched entries, in order, with
/// the first-failure-wins rule: on the first entry whose type report
/// is unsupported the run stops, returning the records completed
/// strictly before it beside the failure.  With no failure, one record
/// per entry comes back, in entry order.
pub fn process_entries(entries: &Vec<StoreEntry>) -> (r: (Vec<Record>, Option<UnsupportedType>))
    requires
        forall|i: int| 0 <= i < entries@.len() ==> entry_wf(#[trigger] entries@[i]@),
    ensures
        r.0@.len() <= entries@.len(),
        r.0@.map_values(|rec: Record| rec@) == records_of(
            entries@.map_values(|e: StoreEntry| e@).take(r.0@.len() as int),
        ),
        forall|i: int| 0 <= i < r.0@.len() ==> entry_supported(#[trigger] entries@[i]@),
        r.1 is None ==> r.0@.len() == entries@.len(),
        r.1 is Some ==> {
            &&& r.0@.len() < entries@.len()
            &&& !entry_supported(entries@[r.0@.len() as int]@)
            &&& r.1->Some_0.key@ == entries@[r.0@.len() as int]@.0
            &&& r.1->Some_0.reported@ == entries@[r.0@.len() as int]@.1
        },
{
    let ghost es = entries@.map_values(|e: StoreEntry| e@);
    let mut records: Vec<Record> = Vec::new();
    let mut i: usize = 0;
    while i < entries.len()
        invariant
            es == entries@.map_values(|e: StoreEntry| e@),
            es.len() == entries@.len(),
            i <= entries@.len(),
            records@.len() == i,
            forall|j: int| 0 <= j < entries@.len() ==> entry_wf(#[trigger] entries@[j]@),
            forall|j: int| 0 <= j < i ==> entry_supported(#[trigger] entries@[j]@),
            records@.map_values(|rec: Record| rec@) == records_of(es.take(i as int)),
        decreases entries@.len() - i,
    {
        let entry = &entries[i];
        let key = entry.key.clone();
        let raw = clone_strings(&entry.raw);
        proof {
            assert(entries@[i as int]@ == es[i as int]);
            assert(entry_wf(es[i as int]));
        }
        match make_record(key, entry.reported.as_str(), raw) {
            Ok(rec) => {
                let ghost pre = records@.map_values(|rec: Record| rec@);
                records.push(rec);
                proof {
                    assert(records@.map_values(|rec: Record| rec@) =~= pre.push(rec@));
                    assert(rec@ == entry_record_fn()(es[i as int]));
                    assert(records_of(es.take(i as int + 1)) =~= records_of(
                        es.take(i as int),
                    ).push(entry_record_fn()(es[i as int])));
                }
            },
            Err(e) => {
                return (records, Some(e));
            },
        }
        i = i + 1;
    }
    proof {
        assert(es.take(es.len() as int) =~= es);
    }
    (records, None)
}

/// The log line each record renders to, as a function value.
pub open spec fn line_of_record_fn() -> spec_fn((Seq<char>, TypeTag, u64)) -> Seq<char> {
    |r: (Seq<char>, TypeTag, u64)| crate::record::line_of(r.0, r.1, r.2)
}

/// Determinism reaches the log file itself: runs whose records agree
/// as a multiset write the same multiset of log lines, whatever order
/// the bounded-concurrency stages append them in.
pub proof fn lemma_log_lines_deterministic(
    r1: Seq<(Seq<char>, TypeTag, u64)>,
    r2: Seq<(Seq<char>, TypeTag, u64)>,
)
    requires
        r1.to_multiset() == r2.to_multiset(),
    ensures
        r1.map_values(line_of_record_fn()).to_multiset() == r2.map_values(
            line_of_record_fn(),
        ).to_multiset(),
{
    crate::order::lemma_map_values_multiset(r1, r2, line_of_record_fn());
}

/// For a fixed store state the run is deterministic: enumerations that
/// hand the same entries out, in whatever order, produce the same
/// multiset of records.
pub proof fn lemma_run_deterministic(
    e1: Seq<(Seq<char>, Seq<char>, Seq<Seq<char>>)>,
    e2: Seq<(Seq<char>, Seq<char>, Seq<Seq<char>>)>,
)
    requires
        e1.to_multiset() == e2.to_multiset(),
    ensures
        records_of(e1).to_multiset() == records_of(e2).to_multiset(),
{
    crate::order::lemma_map_values_multiset(e1, e2, entry_record_fn());
}

} // verus!
