//! The fingerprinter: a stable 64-bit digest of a canonical sequence
//! of strings.
//!
//! The digest folds an FNV-style multiply-and-xor step over a word
//! encoding of the sequence.  The encoding is length-prefixed — first
//! the element count, then, per element, its character count followed
//! by its characters' code points — so that structurally different
//! sequences (`["ab","c"]` against `["a","bc"]`) never encode alike.
//! The digest is a pure function of the canonical form: no seeding, no
//! dependence on iteration order or platform.

use vstd::prelude::*;

verus! {

pub const FNV_OFFSET_BASIS: u64 = 0xcbf2_9ce4_8422_2325;

pub const FNV_PRIME: u64 = 0x0000_0100_0000_01b3;

/// One mixing step: fold a word into the running state.
pub open spec fn fnv_step(h: u64, x: u64) -> u64 {
    vstd::wrapping::u64_specs::wrapping_mul(h ^ x, FNV_PRIME)
}

/// The mixing step folded over a word sequence.
pub open spec fn fnv_words(h: u64, ws: Seq<u64>) -> u64
    decreases ws.len(),
{
    if ws.len() == 0 {
        h
    } else {
        fnv_words(fnv_step(h, ws[0]), ws.drop_first())
    }
}

/// The word encoding of one string: its character count, then each
/// character's code point.
pub open spec fn encode_string(s: Seq<char>) -> Seq<u64> {
    seq![s.len() as u64] + s.map_values(|c: char| c as u64)
}

/// `encode_string` as a function value, shared by the definitions and
/// proofs below so they all speak of one closure.
pub open spec fn encode_string_fn() -> spec_fn(Seq<char>) -> Seq<u64> {
    |s: Seq<char>| encode_string(s)
}

/// The word encoding of a whole canonical form: the element count,
/// then each element's encoding.
pub open spec fn encode_form(ss: Seq<Seq<char>>) -> Seq<u64> {
    seq![ss.len() as u64] + ss.flat_map(encode_string_fn())
}

/// The digest of a canonical form.
pub open spec fn spec_digest(ss: Seq<Seq<char>>) -> u64 {
    fnv_words(FNV_OFFSET_BASIS, encode_form(ss))
}

/// Folding over concatenated words equals folding over the two parts
/// in turn.
pub proof fn lemma_fnv_words_append(h: u64, a: Seq<u64>, b: Seq<u64>)
    ensures
        fnv_words(h, a + b) == fnv_words(fnv_words(h, a), b),
    decreases a.len(),
{
    if a.len() == 0 {
        assert(a + b =~= b);
    } else {
        assert((a + b)[0] == a[0]);
        assert((a + b).drop_first() =~= a.drop_first() + b);
        lemma_fnv_words_append(fnv_step(h, a[0]), a.drop_first(), b);
    }
}

/// Folding a single word is one step.
pub proof fn lemma_fnv_words_one(h: u64, x: u64)
    ensures
        fnv_words(h, seq![x]) == fnv_step(h, x),
{
    reveal_with_fuel(fnv_words, 2);
    assert(seq![x].drop_first() =~= Seq::<u64>::empty());
    assert(seq![x][0] == x);
}

/// Folding one more word extends the fold by one step.
pub proof fn lemma_fnv_words_push(h: u64, ws: Seq<u64>, x: u64)
    ensures
        fnv_words(h, ws.push(x)) == fnv_step(fnv_words(h, ws), x),
{
    assert(ws.push(x) =~= ws + seq![x]);
    lemma_fnv_words_append(h, ws, seq![x]);
    lemma_fnv_words_one(fnv_words(h, ws), x);
}

fn fnv_step_exec(h: u64, x: u64) -> (r: u64)
    ensures
        r == fnv_step(h, x),
{
    (h ^ x).wrapping_mul(FNV_PRIME)
}

/// Folds one string's encoding into the running state.
fn mix_string(h0: u64, s: &str) -> (h: u64)
    ensures
        h == fnv_words(h0, encode_string(s@)),
{
    let n = s.unicode_len();
    let cs = Ghost(s@.map_values(|c: char| c as u64));
    let mut h = fnv_step_exec(h0, n as u64);
    proof {
        lemma_fnv_words_one(h0, n as u64);
        assert(seq![n as u64] + cs@.take(0) =~= seq![n as u64]);
    }
    let mut i: usize = 0;
    while i < n
        invariant
            n == s@.len(),
            cs@ == s@.map_values(|c: char| c as u64),
            i <= n,
            h == fnv_words(h0, seq![n as u64] + cs@.take(i as int)),
        decreases n - i,
    {
        let c = s.get_char(i);
        h = fnv_step_exec(h, c as u64);
        proof {
            assert(cs@[i as int] == c as u64);
            assert(seq![n as u64] + cs@.take(i as int + 1) =~= (seq![n as u64] + cs@.take(
                i as int,
            )).push(c as u64));
            lemma_fnv_words_push(h0, seq![n as u64] + cs@.take(i as int), c as u64);
        }
        i = i + 1;
    }
    proof {
        assert(cs@.take(n as int) =~= cs@);
        assert(seq![n as u64] + cs@ =~= encode_string(s@));
    }
    h
}

/// Fingerprints a canonical sequence of strings into a 64-bit digest.
/// The digest is a pure, deterministic function of the sequence's
/// contents: identical canonical forms give identical digests, on any
/// run and any machine.
pub fn calculate_hash(elems: &Vec<String>) -> (h: u64)
    ensures
        h == spec_digest(elems.deep_view()),
{
    let ghost dv = elems.deep_view();
    let n = elems.len();
    proof {
        assert(dv.len() == n);
    }
    let mut h = fnv_step_exec(FNV_OFFSET_BASIS, n as u64);
    proof {
        lemma_fnv_words_one(FNV_OFFSET_BASIS, n as u64);
        assert(dv.take(0).flat_map(encode_string_fn()) =~= Seq::<u64>::empty());
        assert(seq![n as u64] + dv.take(0).flat_map(encode_string_fn()) =~= seq![n as u64]);
    }
    let mut i: usize = 0;
    while i < n
        invariant
            dv == elems.deep_view(),
            n == elems.len(),
            dv.len() == n,
            i <= n,
            h == fnv_words(
                FNV_OFFSET_BASIS,
                seq![n as u64] + dv.take(i as int).flat_map(encode_string_fn()),
            ),
        decreases n - i,
    {
        let ghost pre = seq![n as u64] + dv.take(i as int).flat_map(encode_string_fn());
        h = mix_string(h, elems[i].as_str());
        proof {
            assert(elems[i as int]@ == dv[i as int]);
            dv.lemma_flat_map_take_append(encode_string_fn(), i as int);
            assert(encode_string_fn()(dv[i as int]) == encode_string(dv[i as int]));
            assert(seq![n as u64] + dv.take(i as int + 1).flat_map(encode_string_fn()) =~= pre
                + encode_string(dv[i as int]));
            lemma_fnv_words_append(FNV_OFFSET_BASIS, pre, encode_string(dv[i as int]));
        }
        i = i + 1;
    }
    proof {
        assert(dv.take(n as int) =~= dv);
        assert(seq![n as u64] + dv.flat_map(encode_string_fn()) =~= encode_form(dv));
    }
    h
}

} // verus!
