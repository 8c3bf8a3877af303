//! The canonicalizer: turns a raw fetched value into a stable,
//! order-independent sequence of strings, the form the fingerprinter
//! hashes.
//!
//! Two semantically equal values — same elements or field/value pairs,
//! any physical order — canonicalize identically.  Types the store
//! keeps ordered (lists, sorted sets) pass through unchanged, so their
//! fingerprints stay order-sensitive by design.

use vstd::prelude::*;

use crate::order::lemma_lex_total_ordering;
use crate::order::lemma_pair_total_ordering;
use crate::order::lex_leq;
use crate::order::pair_leq;
use crate::order::sort_pairs;
use crate::order::sort_strings;
use crate::order::str_eq;

verus! {

/// The store-reported kind of a key's value, plus `Absent` for a key
/// that vanished between enumeration and retrieval.
#[derive(Clone, Copy, Debug, PartialEq, Eq, Structural)]
pub enum TypeTag {
    Str,
    List,
    MemberSet,
    Hash,
    ZSet,
    Absent,
}

/// Which tag a store's type report names; `None` for a report outside
/// the supported data model, which aborts the whole run.
pub open spec fn tag_of(s: Seq<char>) -> Option<TypeTag> {
    if s == "string"@ {
        Some(TypeTag::Str)
    } else if s == "list"@ {
        Some(TypeTag::List)
    } else if s == "set"@ {
        Some(TypeTag::MemberSet)
    } else if s == "hash"@ {
        Some(TypeTag::Hash)
    } else if s == "zset"@ {
        Some(TypeTag::ZSet)
    } else if s == "none"@ {
        Some(TypeTag::Absent)
    } else {
        None
    }
}

/// Reads a store's type report.
pub fn parse_type_tag(s: &str) -> (r: Option<TypeTag>)
    ensures
        r == tag_of(s@),
{
    if str_eq(s, "string") {
        Some(TypeTag::Str)
    } else if str_eq(s, "list") {
        Some(TypeTag::List)
    } else if str_eq(s, "set") {
        Some(TypeTag::MemberSet)
    } else if str_eq(s, "hash") {
        Some(TypeTag::Hash)
    } else if str_eq(s, "zset") {
        Some(TypeTag::ZSet)
    } else if str_eq(s, "none") {
        Some(TypeTag::Absent)
    } else {
        None
    }
}

/// The field/value pairs of a flat field,value,field,value,… listing,
/// as a hash-map read hands it out.
pub open spec fn pairs_of(raw: Seq<Seq<char>>) -> Seq<(Seq<char>, Seq<char>)> {
    Seq::new(raw.len() / 2, |i: int| (raw[2 * i], raw[2 * i + 1]))
}

/// Flattens field/value pairs back into field₁,value₁,field₂,value₂,…
pub open spec fn flatten_pairs(ps: Seq<(Seq<char>, Seq<char>)>) -> Seq<Seq<char>> {
    Seq::new(2 * ps.len(), |i: int| if i % 2 == 0 { ps[i / 2].0 } else { ps[i / 2].1 })
}

/// The canonical form of a raw fetched value:
/// - a string's single value passes through;
/// - a list or sorted set is already deterministically ordered by the
///   store and passes through;
/// - a set's members are sorted into dictionary order;
/// - a hash-map's pairs are sorted by field name and flattened;
/// - an absent key becomes the one-empty-string sentinel.
pub open spec fn canon(tag: TypeTag, raw: Seq<Seq<char>>) -> Seq<Seq<char>> {
    match tag {
        TypeTag::Str => raw,
        TypeTag::List => raw,
        TypeTag::ZSet => raw,
        TypeTag::MemberSet => raw.sort_by(lex_leq()),
        TypeTag::Hash => flatten_pairs(pairs_of(raw).sort_by(pair_leq())),
        TypeTag::Absent => seq![Seq::<char>::empty()],
    }
}

/// Computes the canonical form of a raw fetched value.  A hash-map
/// listing always has even length: a field never comes without its
/// value.
pub fn canonicalize(tag: TypeTag, raw: Vec<String>) -> (r: Vec<String>)
    requires
        tag == TypeTag::Hash ==> raw@.len() % 2 == 0,
    ensures
        r.deep_view() == canon(tag, raw.deep_view()),
{
    match tag {
        TypeTag::Str => raw,
        TypeTag::List => raw,
        TypeTag::ZSet => raw,
        TypeTag::MemberSet => {
            let s = sort_strings(&raw);
            proof {
                lemma_lex_total_ordering();
                raw.deep_view().lemma_sort_by_ensures(lex_leq());
                vstd::seq_lib::lemma_sorted_unique(
                    s.deep_view(),
                    raw.deep_view().sort_by(lex_leq()),
                    lex_leq(),
                );
            }
            s
        },
        TypeTag::Hash => {
            let ghost dv = raw.deep_view();
            let m = raw.len() / 2;
            let mut pairs: Vec<(String, String)> = Vec::new();
            let mut j: usize = 0;
            while j < m
                invariant
                    dv == raw.deep_view(),
                    m == raw.len() / 2,
                    dv.len() == raw.len(),
                    j <= m,
                    pairs.deep_view() == pairs_of(dv).take(j as int),
                decreases m - j,
            {
                let ghost pre = pairs.deep_view();
                let f = raw[2 * j].clone();
                let v = raw[2 * j + 1].clone();
                pairs.push((f, v));
                proof {
                    assert(pairs.deep_view() =~= pre.push((dv[2 * j as int], dv[2 * j as int
                        + 1])));
                    assert(pairs.deep_view() =~= pairs_of(dv).take(j as int + 1));
                }
                j = j + 1;
            }
            proof {
                assert(pairs_of(dv).take(m as int) =~= pairs_of(dv));
            }
            let sorted = sort_pairs(&pairs);
            proof {
                lemma_pair_total_ordering();
                pairs_of(dv).lemma_sort_by_ensures(pair_leq());
                vstd::seq_lib::lemma_sorted_unique(
                    sorted.deep_view(),
                    pairs_of(dv).sort_by(pair_leq()),
                    pair_leq(),
                );
            }
            let ghost ps = sorted.deep_view();
            let mut out: Vec<String> = Vec::new();
            let mut k: usize = 0;
            while k < sorted.len()
                invariant
                    ps == sorted.deep_view(),
                    ps.len() == sorted.len(),
                    k <= sorted.len(),
                    out.deep_view() == flatten_pairs(ps).take(2 * k as int),
                decreases sorted.len() - k,
            {
                let ghost pre = out.deep_view();
                let f = sorted[k].0.clone();
                let v = sorted[k].1.clone();
                out.push(f);
                out.push(v);
                proof {
                    assert(out.deep_view() =~= pre.push(ps[k as int].0).push(ps[k as int].1));
                    assert(out.deep_view() =~= flatten_pairs(ps).take(2 * (k as int + 1)));
                }
                k = k + 1;
            }
            proof {
                assert(flatten_pairs(ps).take(2 * ps.len() as int) =~= flatten_pairs(ps));
            }
            out
        },
        TypeTag::Absent => {
            let mut v: Vec<String> = Vec::new();
            v.push(String::new());
            proof {
                assert(v.deep_view() =~= seq![Seq::<char>::empty()]);
            }
            v
        },
    }
}

/// A set's fingerprint is independent of the order its members came
/// back in: listings with the same member multiset canonicalize — and
/// so hash — identically.
pub proof fn lemma_set_order_independent(a: Seq<Seq<char>>, b: Seq<Seq<char>>)
    requires
        a.to_multiset() == b.to_multiset(),
    ensures
        canon(TypeTag::MemberSet, a) == canon(TypeTag::MemberSet, b),
        crate::digest::spec_digest(canon(TypeTag::MemberSet, a)) == crate::digest::spec_digest(
            canon(TypeTag::MemberSet, b),
        ),
{
    lemma_lex_total_ordering();
    a.lemma_sort_by_ensures(lex_leq());
    b.lemma_sort_by_ensures(lex_leq());
    vstd::seq_lib::lemma_sorted_unique(a.sort_by(lex_leq()), b.sort_by(lex_leq()), lex_leq());
}

/// A hash-map's fingerprint is independent of the order its
/// field/value pairs came back in: flat listings carrying the same
/// multiset of pairs canonicalize — and so hash — identically.
pub proof fn lemma_hash_order_independent(a: Seq<Seq<char>>, b: Seq<Seq<char>>)
    requires
        a.len() % 2 == 0,
        b.len() % 2 == 0,
        pairs_of(a).to_multiset() == pairs_of(b).to_multiset(),
    ensures
        canon(TypeTag::Hash, a) == canon(TypeTag::Hash, b),
        crate::digest::spec_digest(canon(TypeTag::Hash, a)) == crate::digest::spec_digest(
            canon(TypeTag::Hash, b),
        ),
{
    lemma_pair_total_ordering();
    pairs_of(a).lemma_sort_by_ensures(pair_leq());
    pairs_of(b).lemma_sort_by_ensures(pair_leq());
    vstd::seq_lib::lemma_sorted_unique(
        pairs_of(a).sort_by(pair_leq()),
        pairs_of(b).sort_by(pair_leq()),
        pair_leq(),
    );
}

} // verus!
