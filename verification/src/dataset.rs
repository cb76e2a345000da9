//! Dataset synthesis: a deterministic sorted, de-duplicated key set with
//! one serialized integer-set value per key.
//!
//! Generation is a pure function of the seed, the entry count and the
//! cardinality bound: the ghost draw history pins every random draw, so
//! two runs with the same inputs produce byte-identical datasets.

use vstd::prelude::*;

use crate::bitmap::{blob_elems, blob_of, encode_sorted_values, valid_value};
use crate::order::{be8, encode_be, lemma_be8_order, lemma_sorted_same_set_equal, lex_lt,
    sort_dedup_keys, strictly_sorted, views};
use crate::rng::{next_flip, next_token, next_token_len, next_u32, rng_from_seed, rng_flip,
    rng_token, rng_token_len, rng_u32, DataRng};

verus! {

/// The byte-string pairs of a dataset: the key and the value at each
/// position.
pub open spec fn pair_seq(keys: Seq<Seq<u8>>, values: Seq<Seq<u8>>) -> Seq<(Seq<u8>, Seq<u8>)> {
    Seq::new(keys.len(), |i: int| (keys[i], values[i]))
}

/// The keys of a sequence of entries.
pub open spec fn keys_of(es: Seq<(Seq<u8>, Seq<u8>)>) -> Seq<Seq<u8>> {
    es.map_values(|e: (Seq<u8>, Seq<u8>)| e.0)
}

/// The byte-string pairs behind owned entries, as a backend iteration or
/// a folder slot hands them out.
pub open spec fn owned_pair_views(s: Seq<(Vec<u8>, Vec<u8>)>) -> Seq<(Seq<u8>, Seq<u8>)> {
    s.map_values(|p: (Vec<u8>, Vec<u8>)| (p.0@, p.1@))
}

/// A generated dataset: one value per key, keys strictly ascending.
pub struct Dataset {
    pub keys: Vec<Vec<u8>>,
    pub values: Vec<Vec<u8>>,
}

impl Dataset {
    /// The keys as byte strings.
    pub open spec fn keys(self) -> Seq<Seq<u8>> {
        views(self.keys@)
    }

    /// The values as byte strings.
    pub open spec fn values(self) -> Seq<Seq<u8>> {
        views(self.values@)
    }

    /// The key/value pairs, in key order.
    pub open spec fn entries(self) -> Seq<(Seq<u8>, Seq<u8>)> {
        pair_seq(self.keys(), self.values())
    }

    /// One value per key; keys strictly ascending and unique.
    pub open spec fn wf(self) -> bool {
        &&& self.keys@.len() == self.values@.len()
        &&& strictly_sorted(self.keys())
    }

    /// Every value decodes to a set within the cardinality bound.
    pub open spec fn values_valid(self, max_card: nat) -> bool {
        forall|i: int|
            0 <= i < self.values().len() ==> valid_value(#[trigger] self.values()[i], max_card)
    }

    /// The number of entries.
    pub fn len(&self) -> (r: usize)
        requires
            self.wf(),
        ensures
            r == self.keys().len(),
    {
        self.keys.len()
    }
}

/// One step of the value-synthesis coin-flip scan: the integers accepted
/// so far, and the draw history, after the scan that starts at `cur` with
/// `acc` already accepted finishes its walk to `end` or fills up to
/// `max_card` elements.
pub open spec fn synth_scan(
    seed: u64,
    acc: Seq<u32>,
    h: Seq<(int, int)>,
    cur: u32,
    end: u32,
    max_card: nat,
) -> (Seq<u32>, Seq<(int, int)>)
    decreases end - cur,
{
    if acc.len() >= max_card {
        (acc, h)
    } else {
        let f = rng_flip(seed, h);
        let h2 = h.push((1int, 0int));
        let acc2 = if f {
            acc.push(cur)
        } else {
            acc
        };
        if cur >= end {
            (acc2, h2)
        } else {
            synth_scan(seed, acc2, h2, (cur + 1) as u32, end, max_card)
        }
    }
}

/// The saturating upper end of the scanned interval.
pub open spec fn sat_add_u32(a: u32, b: u32) -> u32 {
    if a + b > u32::MAX {
        u32::MAX
    } else {
        (a + b) as u32
    }
}

/// The draw history after one whole value synthesis.
pub open spec fn value_hist(seed: u64, h: Seq<(int, int)>, max_card: nat) -> Seq<(int, int)> {
    let start = rng_u32(seed, h);
    let h1 = h.push((0int, 0int));
    let ext = rng_u32(seed, h1);
    let h2 = h1.push((0int, 0int));
    let end = sat_add_u32(start, ext);
    synth_scan(seed, Seq::empty(), h2, start, end, max_card).1
}

/// The set of integers one whole value synthesis accepts: the coin-flip
/// filtered subset of the drawn saturating interval, capped at the
/// cardinality bound.
pub open spec fn value_elems(seed: u64, h: Seq<(int, int)>, max_card: nat) -> Set<u32> {
    let start = rng_u32(seed, h);
    let h1 = h.push((0int, 0int));
    let ext = rng_u32(seed, h1);
    let h2 = h1.push((0int, 0int));
    let end = sat_add_u32(start, ext);
    synth_scan(seed, Seq::empty(), h2, start, end, max_card).0.to_set()
}

/// The value blob one whole value synthesis produces.
pub open spec fn value_blob(seed: u64, h: Seq<(int, int)>, max_card: nat) -> Seq<u8> {
    blob_of(value_elems(seed, h, max_card))
}

/// Runs the coin-flip scan over `[cur, end]`, accepting roughly half the
/// integers, up to `max_card` of them.
fn synth_scan_run(rng: &mut DataRng, start: u32, end: u32, max_card: usize) -> (r: Vec<u32>)
    requires
        start <= end,
    ensures
        ({
            let t = synth_scan(
                old(rng).seed(),
                Seq::empty(),
                old(rng).hist(),
                start,
                end,
                max_card as nat,
            );
            r@ == t.0 && final(rng).hist() == t.1
        }),
        final(rng).seed() == old(rng).seed(),
        forall|i: int, j: int| 0 <= i < j < r@.len() ==> r@[i] < r@[j],
        r@.len() <= max_card,
{
    let ghost seed = old(rng).seed();
    let ghost target = synth_scan(
        seed,
        Seq::empty(),
        old(rng).hist(),
        start,
        end,
        max_card as nat,
    );
    let mut acc: Vec<u32> = Vec::new();
    let mut cur: u32 = start;
    loop
        invariant_except_break
            forall|i: int| 0 <= i < acc@.len() ==> acc@[i] < cur,
            synth_scan(seed, acc@, rng.hist(), cur, end, max_card as nat) == target,
        invariant
            start <= cur <= end,
            rng.seed() == seed,
            acc@.len() <= max_card,
            forall|i: int, j: int| 0 <= i < j < acc@.len() ==> acc@[i] < acc@[j],
        ensures
            rng.seed() == seed,
            acc@.len() <= max_card,
            forall|i: int, j: int| 0 <= i < j < acc@.len() ==> acc@[i] < acc@[j],
            (acc@, rng.hist()) == target,
        decreases end - cur, max_card - acc@.len(),
    {
        if acc.len() >= max_card {
            break;
        }
        let f = next_flip(rng);
        if f {
            acc.push(cur);
        }
        if cur == end {
            break;
        }
        cur = cur + 1;
    }
    acc
}

/// Synthesizes one value: a random interval start, a random saturating
/// extension, a per-element coin flip keeping roughly half the interval,
/// capped at the cardinality bound, serialized into the integer-set blob.
pub fn synth_value(rng: &mut DataRng, max_card: usize) -> (r: Vec<u8>)
    ensures
        r@ == value_blob(old(rng).seed(), old(rng).hist(), max_card as nat),
        blob_elems(r@) == Some(value_elems(old(rng).seed(), old(rng).hist(), max_card as nat)),
        valid_value(r@, max_card as nat),
        final(rng).seed() == old(rng).seed(),
        final(rng).hist() == value_hist(old(rng).seed(), old(rng).hist(), max_card as nat),
{
    let start = next_u32(rng);
    let ext = next_u32(rng);
    let end = if start > u32::MAX - ext {
        u32::MAX
    } else {
        start + ext
    };
    proof {
        assert(end == sat_add_u32(start, ext));
    }
    let elems = synth_scan_run(rng, start, end, max_card);
    proof {
        assert(elems@.no_duplicates());
        elems@.unique_seq_to_set();
        broadcast use vstd::seq_lib::seq_to_set_is_finite;
    }
    encode_sorted_values(&elems)
}

/// Every accepted integer of the scan lies in the scanned interval (or
/// was already accepted before the scan started).
proof fn lemma_synth_scan_interval(
    seed: u64,
    acc: Seq<u32>,
    h: Seq<(int, int)>,
    cur: u32,
    end: u32,
    max_card: nat,
)
    requires
        cur <= end,
    ensures
        ({
            let out = synth_scan(seed, acc, h, cur, end, max_card).0;
            forall|i: int|
                0 <= i < out.len() ==> acc.contains(#[trigger] out[i]) || (cur <= out[i] <= end)
        }),
    decreases end - cur,
{
    let out = synth_scan(seed, acc, h, cur, end, max_card).0;
    if acc.len() >= max_card {
    } else {
        let f = rng_flip(seed, h);
        let h2 = h.push((1int, 0int));
        let acc2 = if f {
            acc.push(cur)
        } else {
            acc
        };
        assert(forall|k: int| 0 <= k < acc2.len() ==> acc.contains(#[trigger] acc2[k]) || acc2[k]
            == cur) by {
            assert(forall|k: int| 0 <= k < acc.len() ==> acc.contains(#[trigger] acc[k]));
        }
        if cur == end {
            assert(out == acc2);
            assert forall|i: int| 0 <= i < out.len() implies acc.contains(#[trigger] out[i]) || (
            cur <= out[i] <= end) by {
                assert(acc2[i] == out[i]);
            }
        } else {
            lemma_synth_scan_interval(seed, acc2, h2, (cur + 1) as u32, end, max_card);
            let out2 = synth_scan(seed, acc2, h2, (cur + 1) as u32, end, max_card).0;
            assert(out == out2);
            assert forall|i: int| 0 <= i < out.len() implies acc.contains(#[trigger] out[i]) || (
            cur <= out[i] <= end) by {
                assert(acc2.contains(out2[i]) || (cur + 1 <= out2[i] <= end));
                if acc2.contains(out[i]) {
                    let k = choose|k: int| 0 <= k < acc2.len() && acc2[k] == out[i];
                    assert(acc.contains(acc2[k]) || acc2[k] == cur);
                }
            }
        }
    }
}

/// Synthesized values stay inside the drawn interval: every integer of
/// the decoded set lies between the drawn start and its saturating
/// extension, and the set holds at most the cardinality bound.
pub proof fn lemma_value_elems_in_interval(seed: u64, h: Seq<(int, int)>, max_card: nat)
    ensures
        ({
            let start = rng_u32(seed, h);
            let ext = rng_u32(seed, h.push((0int, 0int)));
            let end = sat_add_u32(start, ext);
            forall|e: u32|
                value_elems(seed, h, max_card).contains(e) ==> start <= e <= end
        }),
{
    let start = rng_u32(seed, h);
    let h1 = h.push((0int, 0int));
    let ext = rng_u32(seed, h1);
    let h2 = h1.push((0int, 0int));
    let end = sat_add_u32(start, ext);
    lemma_synth_scan_interval(seed, Seq::empty(), h2, start, end, max_card);
    let out = synth_scan(seed, Seq::empty(), h2, start, end, max_card).0;
    assert forall|e: u32| value_elems(seed, h, max_card).contains(e) implies start <= e <= end by {
        let i = choose|i: int| 0 <= i < out.len() && out[i] == e;
        assert(!Seq::<u32>::empty().contains(e));
    }
}

/// The draw history after `n` whole token generations.
pub open spec fn tokens_hist(seed: u64, n: nat) -> Seq<(int, int)>
    decreases n,
{
    if n == 0 {
        Seq::empty()
    } else {
        let h = tokens_hist(seed, (n - 1) as nat);
        let len = rng_token_len(seed, h);
        h.push((2int, 0int)).push((4int, len as int))
    }
}

/// The first `n` generated tokens, in generation order.
pub open spec fn tokens_seq(seed: u64, n: nat) -> Seq<Seq<u8>>
    decreases n,
{
    if n == 0 {
        Seq::empty()
    } else {
        let h = tokens_hist(seed, (n - 1) as nat);
        let len = rng_token_len(seed, h);
        tokens_seq(seed, (n - 1) as nat).push(rng_token(seed, h.push((2int, 0int)), len))
    }
}

/// The value blobs for `n` keys, drawn one after the other from the
/// history `h` on.
pub open spec fn values_from(seed: u64, h: Seq<(int, int)>, n: nat, max_card: nat) -> Seq<Seq<u8>>
    decreases n,
{
    if n == 0 {
        Seq::empty()
    } else {
        seq![value_blob(seed, h, max_card)] + values_from(
            seed,
            value_hist(seed, h, max_card),
            (n - 1) as nat,
            max_card,
        )
    }
}

/// Draws one value per key, in key order, threading the generator
/// through so that the whole column is a pure function of the seed and
/// of the history at entry.
fn attach_values(rng: &mut DataRng, n: usize, max_card: usize) -> (r: Vec<Vec<u8>>)
    ensures
        views(r@) == values_from(old(rng).seed(), old(rng).hist(), n as nat, max_card as nat),
        r@.len() == n,
        forall|i: int| 0 <= i < r@.len() ==> valid_value(#[trigger] views(r@)[i], max_card as nat),
        final(rng).seed() == old(rng).seed(),
{
    let ghost seed = old(rng).seed();
    let ghost target = values_from(seed, old(rng).hist(), n as nat, max_card as nat);
    let mut vals: Vec<Vec<u8>> = Vec::new();
    let mut i: usize = 0;
    proof {
        assert(views(vals@) + target =~= target);
    }
    while i < n
        invariant
            0 <= i <= n,
            rng.seed() == seed,
            vals@.len() == i,
            views(vals@) + values_from(seed, rng.hist(), (n - i) as nat, max_card as nat)
                == target,
            forall|i: int|
                0 <= i < vals@.len() ==> valid_value(#[trigger] views(vals@)[i], max_card as nat),
        decreases n - i,
    {
        let ghost h = rng.hist();
        let v = synth_value(rng, max_card);
        let ghost old_vals = views(vals@);
        vals.push(v);
        i = i + 1;
        proof {
            assert(views(vals@) =~= old_vals.push(v@));
            assert(values_from(seed, h, (n - i + 1) as nat, max_card as nat) == seq![
                value_blob(seed, h, max_card as nat),
            ] + values_from(seed, rng.hist(), (n - i) as nat, max_card as nat));
            assert(views(vals@) + values_from(seed, rng.hist(), (n - i) as nat, max_card as nat)
                =~= old_vals + values_from(seed, h, (n - i + 1) as nat, max_card as nat));
        }
    }
    proof {
        assert(views(vals@) + values_from(seed, rng.hist(), 0, max_card as nat) =~= views(vals@));
    }
    vals
}

/// Word mode: `count` pseudo-random tokens of length 3 to 15 from a
/// seeded generator, sorted and de-duplicated, each with a synthesized
/// value. A pure function of (seed, count, max_card).
pub fn generate_words(seed: u64, count: u64, max_card: usize) -> (r: Dataset)
    ensures
        r.wf(),
        r.values_valid(max_card as nat),
        r.keys().to_set() == tokens_seq(seed, count as nat).to_set(),
        r.values() == values_from(
            seed,
            tokens_hist(seed, count as nat),
            r.keys().len() as nat,
            max_card as nat,
        ),
{
    let mut rng = rng_from_seed(seed);
    let mut toks: Vec<Vec<u8>> = Vec::new();
    let mut i: u64 = 0;
    while i < count
        invariant
            0 <= i <= count,
            rng.seed() == seed,
            rng.hist() == tokens_hist(seed, i as nat),
            views(toks@) == tokens_seq(seed, i as nat),
        decreases count - i,
    {
        let len = next_token_len(&mut rng);
        let tok = next_token(&mut rng, len);
        proof {
            assert(views(toks@.push(tok)) =~= views(toks@).push(tok@));
        }
        toks.push(tok);
        i = i + 1;
    }
    let keys = sort_dedup_keys(toks);
    let n = keys.len();
    let values = attach_values(&mut rng, n, max_card);
    proof {
        assert(views(keys@).to_set() == tokens_seq(seed, count as nat).to_set());
    }
    Dataset { keys, values }
}

/// Dense mode: `count` keys, the 8-byte big-endian encodings of the
/// counters `0 .. count`, inherently unique and sorted, each with a
/// synthesized value. A pure function of (seed, count, max_card).
#[verifier::loop_isolation(false)]
pub fn generate_dense(seed: u64, count: u64, max_card: usize) -> (r: Dataset)
    ensures
        r.wf(),
        r.values_valid(max_card as nat),
        r.keys() == Seq::new(count as nat, |i: int| be8(i as u64)),
        r.values() == values_from(seed, Seq::empty(), count as nat, max_card as nat),
{
    let ghost target = Seq::new(count as nat, |i: int| be8(i as u64));
    let mut keys: Vec<Vec<u8>> = Vec::new();
    let mut i: u64 = 0;
    while i < count
        invariant
            0 <= i <= count,
            keys@.len() == i,
            views(keys@) =~= target.take(i as int),
        decreases count - i,
    {
        let k = encode_be(i);
        proof {
            assert(target[i as int] == be8(i));
            assert(views(keys@.push(k)) =~= views(keys@).push(k@));
            assert(target.take(i as int).push(target[i as int]) =~= target.take(i as int + 1));
        }
        keys.push(k);
        i = i + 1;
    }
    proof {
        assert(views(keys@) =~= target);
        assert(strictly_sorted(target)) by {
            assert forall|p: int, q: int| 0 <= p < q < target.len() implies lex_lt(
                #[trigger] target[p],
                #[trigger] target[q],
            ) by {
                assert(target[p] == be8(p as u64));
                assert(target[q] == be8(q as u64));
                lemma_be8_order(p as u64, q as u64);
            }
        }
    }
    let n = keys.len();
    let mut rng = rng_from_seed(seed);
    let values = attach_values(&mut rng, n, max_card);
    Dataset { keys, values }
}

/// Determinism: two dense-mode generations with one seed, count and
/// cardinality bound yield the same keys and the same values.
pub proof fn lemma_generate_dense_deterministic(
    a: Dataset,
    b: Dataset,
    seed: u64,
    count: u64,
    max_card: u64,
)
    requires
        a.keys() == Seq::new(count as nat, |i: int| be8(i as u64)),
        b.keys() == Seq::new(count as nat, |i: int| be8(i as u64)),
        a.values() == values_from(seed, Seq::empty(), count as nat, max_card as nat),
        b.values() == values_from(seed, Seq::empty(), count as nat, max_card as nat),
    ensures
        a.keys() == b.keys(),
        a.values() == b.values(),
        a.entries() == b.entries(),
{
    assert(a.entries() =~= b.entries());
}

/// Determinism: two word-mode generations with one seed, count and
/// cardinality bound yield the same keys and the same values, whatever
/// parameter tuple or read strategy is under test.
pub proof fn lemma_generate_words_deterministic(
    a: Dataset,
    b: Dataset,
    seed: u64,
    count: u64,
    max_card: u64,
)
    requires
        a.wf(),
        b.wf(),
        a.keys().to_set() == tokens_seq(seed, count as nat).to_set(),
        b.keys().to_set() == tokens_seq(seed, count as nat).to_set(),
        a.values() == values_from(
            seed,
            tokens_hist(seed, count as nat),
            a.keys().len() as nat,
            max_card as nat,
        ),
        b.values() == values_from(
            seed,
            tokens_hist(seed, count as nat),
            b.keys().len() as nat,
            max_card as nat,
        ),
    ensures
        a.keys() == b.keys(),
        a.values() == b.values(),
        a.entries() == b.entries(),
{
    lemma_sorted_same_set_equal(a.keys(), b.keys());
    assert(a.entries() =~= b.entries());
}

} // verus!
