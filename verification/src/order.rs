//! Lexicographic ordering of strings, used to put the elements of
//! unordered collections into a canonical order before hashing.

use vstd::prelude::*;

verus! {

/// `a <= b` in dictionary order by Unicode code point.
pub open spec fn lex_le(a: Seq<char>, b: Seq<char>) -> bool
    decreases a.len(),
{
    if a.len() == 0 {
        true
    } else if b.len() == 0 {
        false
    } else if a[0] == b[0] {
        lex_le(a.drop_first(), b.drop_first())
    } else {
        (a[0] as u32) < (b[0] as u32)
    }
}

/// `lex_le` as a binary relation value, in the shape the sorting
/// lemmas of `vstd` expect.
pub open spec fn lex_leq() -> spec_fn(Seq<char>, Seq<char>) -> bool {
    |a: Seq<char>, b: Seq<char>| lex_le(a, b)
}

pub proof fn lemma_lex_le_reflexive(a: Seq<char>)
    ensures
        lex_le(a, a),
    decreases a.len(),
{
    if a.len() > 0 {
        lemma_lex_le_reflexive(a.drop_first());
    }
}

pub proof fn lemma_lex_le_antisymmetric(a: Seq<char>, b: Seq<char>)
    requires
        lex_le(a, b),
        lex_le(b, a),
    ensures
        a == b,
    decreases a.len(),
{
    if a.len() == 0 {
        assert(b.len() == 0);
        assert(a =~= b);
    } else {
        assert(b.len() > 0);
        assert(a[0] == b[0]) by {
            if a[0] != b[0] {
                assert((a[0] as u32) < (b[0] as u32));
                assert((b[0] as u32) < (a[0] as u32));
            }
        }
        lemma_lex_le_antisymmetric(a.drop_first(), b.drop_first());
        assert(a =~= seq![a[0]] + a.drop_first());
        assert(b =~= seq![b[0]] + b.drop_first());
    }
}

pub proof fn lemma_lex_le_transitive(a: Seq<char>, b: Seq<char>, c: Seq<char>)
    requires
        lex_le(a, b),
        lex_le(b, c),
    ensures
        lex_le(a, c),
    decreases a.len(),
{
    if a.len() == 0 {
    } else {
        assert(b.len() > 0);
        assert(c.len() > 0);
        if a[0] == b[0] && b[0] == c[0] {
            lemma_lex_le_transitive(a.drop_first(), b.drop_first(), c.drop_first());
        }
    }
}

pub proof fn lemma_lex_le_connected(a: Seq<char>, b: Seq<char>)
    ensures
        lex_le(a, b) || lex_le(b, a),
    decreases a.len(),
{
    if a.len() > 0 && b.len() > 0 {
        if a[0] == b[0] {
            lemma_lex_le_connected(a.drop_first(), b.drop_first());
        } else {
            assert((a[0] as u32) != (b[0] as u32)) by {
                vstd::utf8::char_u32_cast(a[0], a[0] as u32);
                vstd::utf8::char_u32_cast(b[0], b[0] as u32);
            }
        }
    }
}

/// `lex_le` is a total order, so sequences sorted by it are unique per
/// multiset of elements.
pub proof fn lemma_lex_total_ordering()
    ensures
        vstd::relations::total_ordering(lex_leq()),
{
    let leq = lex_leq();
    assert forall|a: Seq<char>| #[trigger] leq(a, a) by {
        lemma_lex_le_reflexive(a);
    }
    assert forall|a: Seq<char>, b: Seq<char>| #[trigger] leq(a, b) && #[trigger] leq(b, a)
        implies a == b by {
        lemma_lex_le_antisymmetric(a, b);
    }
    assert forall|a: Seq<char>, b: Seq<char>, c: Seq<char>|
        #[trigger] leq(a, b) && #[trigger] leq(b, c) implies leq(a, c) by {
        lemma_lex_le_transitive(a, b, c);
    }
    assert forall|a: Seq<char>, b: Seq<char>| #[trigger] leq(a, b) || #[trigger] leq(b, a) by {
        lemma_lex_le_connected(a, b);
    }
}

/// Dropping an equal prefix of both sequences does not change how they
/// compare.
proof fn lemma_lex_le_skip(a: Seq<char>, b: Seq<char>, i: int)
    requires
        0 <= i <= a.len(),
        i <= b.len(),
        forall|j: int| 0 <= j < i ==> a[j] == b[j],
    ensures
        lex_le(a, b) == lex_le(a.skip(i), b.skip(i)),
    decreases i,
{
    if i == 0 {
        assert(a.skip(0) =~= a);
        assert(b.skip(0) =~= b);
    } else {
        assert(a.len() > 0 && b.len() > 0 && a[0] == b[0]);
        lemma_lex_le_skip(a.drop_first(), b.drop_first(), i - 1);
        assert(a.drop_first().skip(i - 1) =~= a.skip(i));
        assert(b.drop_first().skip(i - 1) =~= b.skip(i));
    }
}

/// Field/value pairs of a hash-map entry are ordered by field name
/// first, then by value, in dictionary order.  On pairs with distinct
/// field names (the only ones a store hands out) this is the plain
/// by-field order.
pub open spec fn pair_le(a: (Seq<char>, Seq<char>), b: (Seq<char>, Seq<char>)) -> bool {
    if a.0 == b.0 {
        lex_le(a.1, b.1)
    } else {
        lex_le(a.0, b.0)
    }
}

/// `pair_le` as a binary relation value.
pub open spec fn pair_leq() -> spec_fn((Seq<char>, Seq<char>), (Seq<char>, Seq<char>)) -> bool {
    |a: (Seq<char>, Seq<char>), b: (Seq<char>, Seq<char>)| pair_le(a, b)
}

/// `pair_le` is a total order as well.
pub proof fn lemma_pair_total_ordering()
    ensures
        vstd::relations::total_ordering(pair_leq()),
{
    let leq = pair_leq();
    assert forall|a: (Seq<char>, Seq<char>)| #[trigger] leq(a, a) by {
        lemma_lex_le_reflexive(a.1);
    }
    assert forall|a: (Seq<char>, Seq<char>), b: (Seq<char>, Seq<char>)|
        #[trigger] leq(a, b) && #[trigger] leq(b, a) implies a == b by {
        if a.0 == b.0 {
            lemma_lex_le_antisymmetric(a.1, b.1);
        } else {
            lemma_lex_le_antisymmetric(a.0, b.0);
        }
    }
    assert forall|a: (Seq<char>, Seq<char>), b: (Seq<char>, Seq<char>), c: (Seq<char>, Seq<char>)|
        #[trigger] leq(a, b) && #[trigger] leq(b, c) implies leq(a, c) by {
        if a.0 == b.0 && b.0 == c.0 {
            lemma_lex_le_transitive(a.1, b.1, c.1);
        } else if a.0 == b.0 {
        } else if b.0 == c.0 {
        } else {
            lemma_lex_le_transitive(a.0, b.0, c.0);
            if a.0 == c.0 {
                lemma_lex_le_antisymmetric(a.0, b.0);
            }
        }
    }
    assert forall|a: (Seq<char>, Seq<char>), b: (Seq<char>, Seq<char>)|
        #[trigger] leq(a, b) || #[trigger] leq(b, a) by {
        lemma_lex_le_connected(a.0, b.0);
        lemma_lex_le_connected(a.1, b.1);
    }
}

/// Inserting an element anywhere in a sequence adds it once to the
/// sequence's multiset.
pub proof fn lemma_insert_to_multiset<A>(s: Seq<A>, i: int, a: A)
    requires
        0 <= i <= s.len(),
    ensures
        s.insert(i, a).to_multiset() =~= s.to_multiset().insert(a),
{
    broadcast use vstd::seq_lib::group_to_multiset_ensures;

    let t = s.subrange(0, i);
    let u = s.subrange(i, s.len() as int);
    assert(s.insert(i, a) == t.push(a) + u);
    vstd::seq_lib::lemma_multiset_commutative(t.push(a), u);
    assert(t.push(a).to_multiset() =~= t.to_multiset().insert(a));
    assert(s =~= t + u);
    vstd::seq_lib::lemma_multiset_commutative(t, u);
}

/// Mapping a function over two sequences with the same multiset of
/// elements gives two sequences with the same multiset of results.
pub proof fn lemma_map_values_multiset<A, B>(s1: Seq<A>, s2: Seq<A>, f: spec_fn(A) -> B)
    requires
        s1.to_multiset() == s2.to_multiset(),
    ensures
        s1.map_values(f).to_multiset() == s2.map_values(f).to_multiset(),
    decreases s1.len(),
{
    broadcast use vstd::seq_lib::group_to_multiset_ensures;
    broadcast use vstd::multiset::group_multiset_axioms;

    if s1.len() == 0 {
        assert(s1.len() == s1.to_multiset().len());
        assert(s2.len() == s2.to_multiset().len());
        assert(s2.len() == 0);
        assert(s1.map_values(f) =~= Seq::<B>::empty());
        assert(s2.map_values(f) =~= Seq::<B>::empty());
        assert(s1.map_values(f).to_multiset() =~= s2.map_values(f).to_multiset());
    } else {
        let x = s1[0];
        assert(s1.contains(x));
        assert(s2.to_multiset().count(x) > 0);
        assert(s2.contains(x));
        let i = choose|i: int| 0 <= i < s2.len() && s2[i] == x;
        assert(s1.drop_first() =~= s1.remove(0));
        assert(s1.remove(0).to_multiset() == s1.to_multiset().remove(x));
        assert(s2.remove(i).to_multiset() == s2.to_multiset().remove(x));
        lemma_map_values_multiset(s1.drop_first(), s2.remove(i), f);
        let m1 = s1.map_values(f);
        let m2 = s2.map_values(f);
        assert(s1.drop_first().map_values(f) =~= m1.remove(0));
        assert(s2.remove(i).map_values(f) =~= m2.remove(i));
        assert(m1.remove(0).to_multiset() == m1.to_multiset().remove(m1[0]));
        assert(m2.remove(i).to_multiset() == m2.to_multiset().remove(m2[i]));
        assert(m1[0] == f(x));
        assert(m2[i] == f(x));
        assert(m1.contains(f(x)));
        assert(m2.contains(f(x)));
        assert(m1.to_multiset().count(f(x)) > 0);
        assert(m2.to_multiset().count(f(x)) > 0);
        assert forall|b: B| m1.to_multiset().count(b) == m2.to_multiset().count(b) by {
            if b == f(x) {
                assert(m1.to_multiset().remove(f(x)).count(b) == m1.to_multiset().count(b) - 1);
                assert(m2.to_multiset().remove(f(x)).count(b) == m2.to_multiset().count(b) - 1);
            } else {
                assert(m1.to_multiset().remove(f(x)).count(b) == m1.to_multiset().count(b));
                assert(m2.to_multiset().remove(f(x)).count(b) == m2.to_multiset().count(b));
            }
        }
        assert(m1.to_multiset() =~= m2.to_multiset());
    }
}

/// Whether two strings hold the same characters.
pub fn str_eq(a: &str, b: &str) -> (r: bool)
    ensures
        r == (a@ == b@),
{
    let alen = a.unicode_len();
    let blen = b.unicode_len();
    if alen != blen {
        return false;
    }
    let mut i: usize = 0;
    while i < alen
        invariant
            i <= alen,
            alen == a@.len(),
            alen == b@.len(),
            forall|j: int| 0 <= j < i ==> a@[j] == b@[j],
        decreases alen - i,
    {
        if a.get_char(i) != b.get_char(i) {
            return false;
        }
        i = i + 1;
    }
    proof {
        assert(a@ =~= b@);
    }
    true
}

/// Whether `a` comes no later than `b` in dictionary order.
pub fn str_le(a: &str, b: &str) -> (r: bool)
    ensures
        r == lex_le(a@, b@),
{
    let alen = a.unicode_len();
    let blen = b.unicode_len();
    let mut i: usize = 0;
    while i < alen && i < blen
        invariant
            i <= alen,
            i <= blen,
            alen == a@.len(),
            blen == b@.len(),
            forall|j: int| 0 <= j < i ==> a@[j] == b@[j],
        decreases alen - i,
    {
        let ca = a.get_char(i);
        let cb = b.get_char(i);
        if ca != cb {
            proof {
                lemma_lex_le_skip(a@, b@, i as int);
            }
            return (ca as u32) < (cb as u32);
        }
        i = i + 1;
    }
    proof {
        lemma_lex_le_skip(a@, b@, i as int);
    }
    alen <= blen
}

/// Whether `a` comes no later than `b` in the canonical pair order.
pub fn pair_le_exec(a: &(String, String), b: &(String, String)) -> (r: bool)
    ensures
        r == pair_le(a.deep_view(), b.deep_view()),
{
    if str_eq(a.0.as_str(), b.0.as_str()) {
        str_le(a.1.as_str(), b.1.as_str())
    } else {
        str_le(a.0.as_str(), b.0.as_str())
    }
}

/// Indexing facts for `Seq::insert`, spelled out once.
pub proof fn lemma_insert_index<A>(s: Seq<A>, k: int, x: A)
    requires
        0 <= k <= s.len(),
    ensures
        s.insert(k, x).len() == s.len() + 1,
        forall|j: int| 0 <= j < k ==> s.insert(k, x)[j] == s[j],
        s.insert(k, x)[k] == x,
        forall|j: int| k < j <= s.len() ==> s.insert(k, x)[j] == s[j - 1],
{
}

/// A sequence sorted everywhere but for one missing element stays
/// sorted when that element is inserted at its place: everything
/// before the insertion point is no larger, everything from it on is
/// no smaller.
proof fn lemma_sorted_insert<A>(s: Seq<A>, k: int, x: A, leq: spec_fn(A, A) -> bool)
    requires
        0 <= k <= s.len(),
        vstd::relations::sorted_by(s, leq),
        vstd::relations::total_ordering(leq),
        forall|j: int| 0 <= j < k ==> leq(#[trigger] s[j], x),
        forall|j: int| k <= j < s.len() ==> leq(x, #[trigger] s[j]),
    ensures
        vstd::relations::sorted_by(s.insert(k, x), leq),
{
    let post = s.insert(k, x);
    lemma_insert_index(s, k, x);
    assert forall|m: int, n: int| 0 <= m < n < post.len() implies #[trigger] leq(
        post[m],
        post[n],
    ) by {
        if m < k && n == k {
        } else if m == k && n > k {
        } else if m < k && n > k {
            assert(leq(s[m], x));
            assert(leq(x, s[n - 1]));
        }
    }
}

/// Sorts strings into dictionary order; the result holds exactly the
/// input's elements.
pub fn sort_strings(v: &Vec<String>) -> (r: Vec<String>)
    ensures
        vstd::relations::sorted_by(r.deep_view(), lex_leq()),
        r.deep_view().to_multiset() == v.deep_view().to_multiset(),
{
    broadcast use vstd::seq_lib::group_to_multiset_ensures;

    let mut r: Vec<String> = Vec::new();
    let mut i: usize = 0;
    while i < v.len()
        invariant
            i <= v.len(),
            vstd::relations::sorted_by(r.deep_view(), lex_leq()),
            r.deep_view().to_multiset() == v.deep_view().take(i as int).to_multiset(),
        decreases v.len() - i,
    {
        let x = v[i].clone();
        let mut k: usize = 0;
        while k < r.len() && str_le(r[k].as_str(), x.as_str())
            invariant
                k <= r.len(),
                forall|j: int| 0 <= j < k ==> lex_le(#[trigger] r.deep_view()[j], x@),
            decreases r.len() - k,
        {
            k = k + 1;
        }
        let ghost pre = r.deep_view();
        proof {
            lemma_lex_total_ordering();
            assert forall|j: int| k <= j < pre.len() implies lex_le(x@, #[trigger] pre[j]) by {
                lemma_lex_le_connected(pre[k as int], x@);
                if j > k {
                    assert(lex_leq()(pre[k as int], pre[j]));
                    lemma_lex_le_transitive(x@, pre[k as int], pre[j]);
                }
            }
            assert forall|j: int| 0 <= j < k implies lex_leq()(#[trigger] pre[j], x@) by {}
            assert forall|j: int| k <= j < pre.len() implies lex_leq()(x@, #[trigger] pre[j]) by {}
            lemma_sorted_insert(pre, k as int, x@, lex_leq());
            lemma_insert_to_multiset(pre, k as int, x@);
            assert(v.deep_view().take(i as int + 1) =~= v.deep_view().take(i as int).push(
                v.deep_view()[i as int],
            ));
        }
        r.insert(k, x);
        proof {
            lemma_insert_index(pre, k as int, x@);
            assert(r.deep_view() =~= pre.insert(k as int, x@));
            let t = v.deep_view().take(i as int);
            assert(x@ == v.deep_view()[i as int]);
            vstd::seq_lib::to_multiset_build(t, x@);
            assert(v.deep_view().take(i as int + 1) =~= t.push(x@));
            assert(r.deep_view().to_multiset() == v.deep_view().take(i as int + 1).to_multiset());
        }
        i = i + 1;
    }
    proof {
        assert(v.deep_view().take(v.len() as int) =~= v.deep_view());
    }
    r
}

/// Sorts field/value pairs into the canonical pair order; the result
/// holds exactly the input's pairs.
pub fn sort_pairs(v: &Vec<(String, String)>) -> (r: Vec<(String, String)>)
    ensures
        vstd::relations::sorted_by(r.deep_view(), pair_leq()),
        r.deep_view().to_multiset() == v.deep_view().to_multiset(),
{
    broadcast use vstd::seq_lib::group_to_multiset_ensures;

    let mut r: Vec<(String, String)> = Vec::new();
    let mut i: usize = 0;
    while i < v.len()
        invariant
            i <= v.len(),
            vstd::relations::sorted_by(r.deep_view(), pair_leq()),
            r.deep_view().to_multiset() == v.deep_view().take(i as int).to_multiset(),
        decreases v.len() - i,
    {
        let x = (v[i].0.clone(), v[i].1.clone());
        let mut k: usize = 0;
        while k < r.len() && pair_le_exec(&r[k], &x)
            invariant
                k <= r.len(),
                x.deep_view() == v.deep_view()[i as int],
                i < v.len(),
                forall|j: int| 0 <= j < k ==> pair_le(#[trigger] r.deep_view()[j], x.deep_view()),
            decreases r.len() - k,
        {
            k = k + 1;
        }
        let ghost pre = r.deep_view();
        let ghost xv = x.deep_view();
        proof {
            lemma_pair_total_ordering();
            assert forall|j: int| k <= j < pre.len() implies pair_le(xv, #[trigger] pre[j]) by {
                assert(pair_leq()(pre[k as int], xv) || pair_leq()(xv, pre[k as int]));
                if j > k {
                    assert(pair_leq()(pre[k as int], pre[j]));
                    assert(pair_leq()(xv, pre[k as int]) && pair_leq()(pre[k as int], pre[j])
                        ==> pair_leq()(xv, pre[j]));
                }
            }
            assert forall|j: int| 0 <= j < k implies pair_leq()(#[trigger] pre[j], xv) by {}
            assert forall|j: int| k <= j < pre.len() implies pair_leq()(xv, #[trigger] pre[j]) by {}
            lemma_sorted_insert(pre, k as int, xv, pair_leq());
            lemma_insert_to_multiset(pre, k as int, xv);
            assert(v.deep_view().take(i as int + 1) =~= v.deep_view().take(i as int).push(
                v.deep_view()[i as int],
            ));
        }
        r.insert(k, x);
        proof {
            lemma_insert_index(pre, k as int, xv);
            assert(r.deep_view() =~= pre.insert(k as int, xv));
            let t = v.deep_view().take(i as int);
            assert(xv == v.deep_view()[i as int]);
            vstd::seq_lib::to_multiset_build(t, xv);
            assert(v.deep_view().take(i as int + 1) =~= t.push(xv));
            assert(r.deep_view().to_multiset() == v.deep_view().take(i as int + 1).to_multiset());
        }
        i = i + 1;
    }
    proof {
        assert(v.deep_view().take(v.len() as int) =~= v.deep_view());
    }
    r
}

} // verus!
