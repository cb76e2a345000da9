//! Result aggregation and ranking.
//!
//! The reporter collects one (parameters, iteration time, jump time)
//! triple per store and sorts them ascending by a configurable key:
//! iteration time alone, jump time alone, or their sum. The sort is
//! stable: among equal keys the collection order is kept, so the ranking
//! is pinned exactly by `rank_spec`.

use vstd::prelude::*;

use crate::params::Parameters;

verus! {

/// One store's result: its parameter tuple and the two measured
/// durations in nanoseconds.
#[derive(Clone, Copy, Debug, PartialEq, Eq, Structural)]
pub struct Measurement {
    pub params: Parameters,
    pub iter_ns: u64,
    pub jump_ns: u64,
}

/// The configurable ranking key.
#[derive(Clone, Copy, Debug, PartialEq, Eq, Structural)]
pub enum RankBy {
    IterOnly,
    IterAndJump,
    JumpOnly,
}

/// The key a measurement is ranked by.
pub open spec fn sort_key(m: Measurement, by: RankBy) -> int {
    match by {
        RankBy::IterOnly => m.iter_ns as int,
        RankBy::IterAndJump => m.iter_ns + m.jump_ns,
        RankBy::JumpOnly => m.jump_ns as int,
    }
}

/// Ascending by the chosen key.
pub open spec fn sorted_by(s: Seq<Measurement>, by: RankBy) -> bool {
    forall|i: int, j: int|
        0 <= i < j < s.len() ==> sort_key(#[trigger] s[i], by) <= sort_key(#[trigger] s[j], by)
}

/// Stable insertion: the measurement lands after every element whose key
/// is less than or equal to its own, so earlier-collected equals stay in
/// front.
pub open spec fn insert_stable(s: Seq<Measurement>, m: Measurement, by: RankBy) -> Seq<Measurement>
    decreases s.len(),
{
    if s.len() == 0 {
        seq![m]
    } else if sort_key(s[0], by) <= sort_key(m, by) {
        seq![s[0]] + insert_stable(s.drop_first(), m, by)
    } else {
        seq![m] + s
    }
}

/// The ranked order: each collected measurement stably inserted in turn.
pub open spec fn rank_spec(s: Seq<Measurement>, by: RankBy) -> Seq<Measurement>
    decreases s.len(),
{
    if s.len() == 0 {
        Seq::empty()
    } else {
        insert_stable(rank_spec(s.drop_last(), by), s.last(), by)
    }
}

proof fn lemma_insert_stable_at(s: Seq<Measurement>, m: Measurement, by: RankBy, j: int)
    requires
        0 <= j <= s.len(),
        forall|k: int| 0 <= k < j ==> sort_key(#[trigger] s[k], by) <= sort_key(m, by),
        j < s.len() ==> sort_key(s[j], by) > sort_key(m, by),
    ensures
        insert_stable(s, m, by) == s.take(j) + seq![m] + s.skip(j),
    decreases j,
{
    if s.len() == 0 {
        assert(insert_stable(s, m, by) =~= s.take(j) + seq![m] + s.skip(j));
    } else if j == 0 {
        assert(insert_stable(s, m, by) =~= s.take(0) + seq![m] + s.skip(0));
    } else {
        let t = s.drop_first();
        assert(forall|k: int| 0 <= k < j - 1 ==> sort_key(#[trigger] t[k], by) <= sort_key(m, by));
        lemma_insert_stable_at(t, m, by, j - 1);
        assert(seq![s[0]] + (t.take(j - 1) + seq![m] + t.skip(j - 1)) =~= s.take(j) + seq![m]
            + s.skip(j));
    }
}

/// Ranking yields an ascending order under the chosen key.
pub proof fn lemma_insert_stable_sorted(s: Seq<Measurement>, m: Measurement, by: RankBy)
    requires
        sorted_by(s, by),
    ensures
        sorted_by(insert_stable(s, m, by), by),
    decreases s.len(),
{
    if s.len() > 0 {
        let r = insert_stable(s, m, by);
        if sort_key(s[0], by) <= sort_key(m, by) {
            let t = s.drop_first();
            assert(sorted_by(t, by)) by {
                assert(forall|i: int, j: int|
                    0 <= i < j < t.len() ==> sort_key(#[trigger] t[i], by) <= sort_key(
                        #[trigger] t[j],
                        by,
                    ));
            }
            lemma_insert_stable_sorted(t, m, by);
            let rt = insert_stable(t, m, by);
            assert(r =~= seq![s[0]] + rt);
            assert forall|i: int, j: int| 0 <= i < j < r.len() implies sort_key(
                #[trigger] r[i],
                by,
            ) <= sort_key(#[trigger] r[j], by) by {
                if i == 0 {
                    assert(r[j] == rt[j - 1]);
                    lemma_insert_member(t, m, by, j - 1);
                }
            }
        }
    }
}

/// Every slot of a stable insertion holds the new element or one of the
/// old ones, at a key no smaller than the old first element's when the
/// insertion went past it.
proof fn lemma_insert_member(s: Seq<Measurement>, m: Measurement, by: RankBy, i: int)
    requires
        0 <= i < insert_stable(s, m, by).len(),
    ensures
        insert_stable(s, m, by)[i] == m || s.contains(insert_stable(s, m, by)[i]),
    decreases s.len(),
{
    let r = insert_stable(s, m, by);
    if s.len() == 0 {
    } else if sort_key(s[0], by) <= sort_key(m, by) {
        if i > 0 {
            lemma_insert_member(s.drop_first(), m, by, i - 1);
            if r[i] != m {
                let t = s.drop_first();
                let k = choose|k: int| 0 <= k < t.len() && t[k] == r[i];
                assert(s[k + 1] == r[i]);
            }
        }
    } else {
        if i > 0 {
            assert(s[i - 1] == r[i]);
        }
    }
}

/// Ranking keeps exactly the collected measurements.
pub proof fn lemma_rank_permutes(s: Seq<Measurement>, by: RankBy)
    ensures
        rank_spec(s, by).to_multiset() == s.to_multiset(),
    decreases s.len(),
{
    broadcast use vstd::seq_lib::group_to_multiset_ensures;

    if s.len() > 0 {
        lemma_rank_permutes(s.drop_last(), by);
        lemma_insert_multiset(rank_spec(s.drop_last(), by), s.last(), by);
        assert(s =~= s.drop_last().push(s.last()));
        assert(s.drop_last().push(s.last()).to_multiset() =~= s.drop_last().to_multiset().insert(
            s.last(),
        ));
    }
}

proof fn lemma_insert_multiset(s: Seq<Measurement>, m: Measurement, by: RankBy)
    ensures
        insert_stable(s, m, by).to_multiset() == s.to_multiset().insert(m),
    decreases s.len(),
{
    broadcast use vstd::seq_lib::group_to_multiset_ensures;

    let r = insert_stable(s, m, by);
    if s.len() == 0 {
        assert(seq![m] =~= Seq::<Measurement>::empty().push(m));
        assert(r.to_multiset() =~= s.to_multiset().insert(m));
    } else if sort_key(s[0], by) <= sort_key(m, by) {
        let t = s.drop_first();
        lemma_insert_multiset(t, m, by);
        assert(r =~= insert_stable(t, m, by).insert(0, s[0]));
        lemma_multiset_insert_any(insert_stable(t, m, by), 0, s[0]);
        lemma_multiset_insert_any(t, 0, s[0]);
        assert(t.insert(0, s[0]) =~= s);
        assert(r.to_multiset() =~= s.to_multiset().insert(m));
    } else {
        assert(r =~= s.insert(0, m));
        lemma_multiset_insert_any(s, 0, m);
        assert(r.to_multiset() =~= s.to_multiset().insert(m));
    }
}

proof fn lemma_multiset_insert_any(s: Seq<Measurement>, j: int, x: Measurement)
    requires
        0 <= j <= s.len(),
    ensures
        s.insert(j, x).to_multiset() == s.to_multiset().insert(x),
{
    broadcast use vstd::seq_lib::group_to_multiset_ensures;

    let t = s.insert(j, x);
    assert(t.remove(j) =~= s);
    assert(t.remove(j).to_multiset() =~= t.to_multiset().remove(t[j]));
    assert(t[j] == x);
    assert(t.to_multiset().count(x) >= 1) by {
        assert(t.contains(x));
    }
    assert(t.to_multiset() =~= t.to_multiset().remove(x).insert(x));
}

/// Whether `a` ranks no later than `b` under the chosen key.
fn key_le(a: &Measurement, b: &Measurement, by: &RankBy) -> (r: bool)
    ensures
        r == (sort_key(*a, *by) <= sort_key(*b, *by)),
{
    match by {
        RankBy::IterOnly => a.iter_ns <= b.iter_ns,
        RankBy::JumpOnly => a.jump_ns <= b.jump_ns,
        RankBy::IterAndJump => {
            let sa: u128 = a.iter_ns as u128 + a.jump_ns as u128;
            let sb: u128 = b.iter_ns as u128 + b.jump_ns as u128;
            sa <= sb
        },
    }
}

/// Sorts the collected results ascending by the chosen key, stably:
/// among equal keys, the collection order is kept. The outcome is the
/// unique sequence `rank_spec` describes.
pub fn rank_results(results: Vec<Measurement>, by: RankBy) -> (r: Vec<Measurement>)
    ensures
        r@ == rank_spec(results@, by),
        sorted_by(r@, by),
        r@.to_multiset() == results@.to_multiset(),
{
    let n = results.len();
    let mut out: Vec<Measurement> = Vec::new();
    let mut i: usize = 0;
    proof {
        assert(results@.take(0) =~= Seq::<Measurement>::empty());
    }
    while i < n
        invariant
            0 <= i <= n,
            n == results@.len(),
            out@ == rank_spec(results@.take(i as int), by),
            sorted_by(out@, by),
        decreases n - i,
    {
        let m = results[i];
        let mut j: usize = 0;
        while j < out.len() && key_le(&out[j], &m, &by)
            invariant
                0 <= j <= out@.len(),
                forall|k: int| 0 <= k < j ==> sort_key(#[trigger] out@[k], by) <= sort_key(m, by),
            decreases out@.len() - j,
        {
            j = j + 1;
        }
        let ghost before = out@;
        out.insert(j, m);
        proof {
            lemma_insert_stable_at(before, m, by, j as int);
            assert(out@ =~= before.take(j as int) + seq![m] + before.skip(j as int));
            lemma_insert_stable_sorted(before, m, by);
            assert(results@.take(i as int) =~= results@.take(i + 1).drop_last());
            assert(results@.take(i + 1).last() == results@[i as int]);
        }
        i = i + 1;
    }
    proof {
        assert(results@.take(n as int) =~= results@);
        lemma_rank_permutes(results@, by);
    }
    out
}

} // verus!
