//! The dual-phase timed measurement protocol.
//!
//! Phase one iterates the whole store and checks, for every entry, that
//! the key equals the dataset's key at the same position and that the
//! value decodes to a set within the cardinality bound. Phase two draws
//! `probes` random existing keys from a generator reseeded identically
//! per task and checks that a lower-bound seek returns exactly the
//! probed key. Any mismatch is a fatal correctness failure: it is an
//! error, never a warning. The clock runs over each phase separately;
//! store opening stays outside both measured intervals.

use vstd::prelude::*;

use crate::bitmap::{bitmap_len, blob_elems, deserialize_bitmap, valid_value};
use crate::dataset::{keys_of, owned_pair_views, Dataset};
use crate::order::{bytes_eq, lemma_lower_bound_exact, lower_bound, strictly_sorted};
use crate::rng::{choose_key, rng_from_seed, DataRng};
use crate::params::Parameters;
use crate::store::{build_ok, build_store_bytes, clone_bytes, cursor_entries, cursor_next,
    cursor_pos, cursor_seek_ge, cursor_valid, open_cursor, store_entries, ByteCursor, StoreError};

verus! {

#[verifier::external_type_specification]
#[verifier::external_body]
pub struct ExInstant(std::time::Instant);

/// Relies on `std::time::Instant::now`: a reading of the monotonic
/// clock. Nothing can be promised of a clock reading.
#[verifier::external_body]
fn clock_now() -> (r: std::time::Instant) {
    std::time::Instant::now()
}

/// Relies on `std::time::Instant::elapsed`: the time since the reading,
/// in nanoseconds. Nothing can be promised of a duration.
#[verifier::external_body]
fn elapsed_ns(start: &std::time::Instant) -> (r: u64) {
    start.elapsed().as_nanos() as u64
}

/// A correctness failure or setup failure during measurement. Each one
/// aborts the run: a silent mismatch would invalidate the benchmark.
#[derive(Clone, Copy, Debug, PartialEq, Eq, Structural)]
pub enum MeasureError {
    /// The store could not be opened or advanced.
    Store,
    /// Iteration yielded a key unlike the dataset's at that position.
    UnexpectedKey,
    /// The store holds more entries than the dataset.
    ExtraEntries,
    /// The store ended before the dataset did.
    MissingEntries,
    /// A value failed to decode as an integer-set blob.
    CorruptValue,
    /// A decoded value holds more integers than the configured bound.
    CardinalityExceeded,
    /// A lower-bound probe did not land on the probed key.
    ProbeMissed,
}

/// The two measured intervals, in nanoseconds.
#[derive(Clone, Copy, Debug, PartialEq, Eq, Structural)]
pub struct Timings {
    pub iter_ns: u64,
    pub jump_ns: u64,
}

/// What phase one establishes: the store's keys are exactly the
/// dataset's keys, in order, and every stored value decodes to a set
/// within the bound.
pub open spec fn iteration_ok(es: Seq<(Seq<u8>, Seq<u8>)>, keys: Seq<Seq<u8>>, max_card: nat) -> bool {
    &&& keys_of(es) == keys
    &&& forall|i: int| 0 <= i < es.len() ==> valid_value((#[trigger] es[i]).1, max_card)
}

/// Phase one: full iteration with the embedded correctness checks.
fn run_iteration(c: &mut ByteCursor, dataset: &Dataset, max_card: usize) -> (r: Result<
    (),
    MeasureError,
>)
    requires
        dataset.wf(),
        cursor_valid(*old(c)),
        cursor_pos(*old(c)) == -1,
    ensures
        cursor_valid(*final(c)),
        cursor_entries(*final(c)) == cursor_entries(*old(c)),
        ({
            let es = cursor_entries(*old(c));
            &&& (r is Ok <==> iteration_ok(es, dataset.keys(), max_card as nat))
            &&& ((keys_of(es) == dataset.keys() && (forall|i: int|
                0 <= i < es.len() ==> blob_elems((#[trigger] es[i]).1) is Some
                    && blob_elems(es[i].1)->Some_0.finite()) && !iteration_ok(
                es,
                dataset.keys(),
                max_card as nat,
            )) ==> r == Err::<(), MeasureError>(MeasureError::CardinalityExceeded))
        }),
{
    let ghost es = cursor_entries(*old(c));
    let nkeys = dataset.keys.len();
    let mut i: u64 = 0;
    loop
        invariant_except_break
            cursor_pos(*c) == i - 1,
        invariant
            dataset.wf(),
            nkeys == dataset.keys().len(),
            es == cursor_entries(*old(c)),
            cursor_valid(*c),
            cursor_entries(*c) == es,
            i <= es.len(),
            i <= nkeys,
            forall|k: int|
                0 <= k < i ==> (#[trigger] es[k]).0 == dataset.keys()[k] && valid_value(
                    es[k].1,
                    max_card as nat,
                ),
        ensures
            cursor_valid(*c),
            cursor_entries(*c) == es,
            i == es.len() && i == nkeys && forall|k: int|
                0 <= k < i ==> (#[trigger] es[k]).0 == dataset.keys()[k] && valid_value(
                    es[k].1,
                    max_card as nat,
                ),
        decreases es.len() - i,
    {
        let step = match cursor_next(c) {
            Ok(s) => s,
            Err(_) => {
                return Err(MeasureError::Store);
            },
        };
        match step {
            None => {
                if i < nkeys as u64 {
                    return Err(MeasureError::MissingEntries);
                }
                proof {
                    assert(i >= es.len());
                }
                break;
            },
            Some((k, v)) => {
                if i >= nkeys as u64 {
                    return Err(MeasureError::ExtraEntries);
                }
                let idx = i as usize;
                proof {
                    assert(keys_of(es)[i as int] == es[i as int].0);
                    assert(dataset.keys()[i as int] == dataset.keys@[i as int]@);
                }
                if !bytes_eq(k.as_slice(), dataset.keys[idx].as_slice()) {
                    return Err(MeasureError::UnexpectedKey);
                }
                let bm = match deserialize_bitmap(v.as_slice()) {
                    Some(bm) => bm,
                    None => {
                        return Err(MeasureError::CorruptValue);
                    },
                };
                if bitmap_len(&bm) > max_card as u64 {
                    return Err(MeasureError::CardinalityExceeded);
                }
                i = i + 1;
            },
        }
    }
    proof {
        assert(keys_of(es) =~= dataset.keys());
    }
    Ok(())
}

/// Phase two: `probes` randomized lower-bound point lookups, each on an
/// existing key, each expected to land exactly on that key.
fn run_probes(
    c: &mut ByteCursor,
    dataset: &Dataset,
    rng: &mut DataRng,
    probes: u64,
    max_card: usize,
) -> (r: Result<(), MeasureError>)
    requires
        dataset.wf(),
        probes == 0 || dataset.keys().len() > 0,
        cursor_valid(*old(c)),
        keys_of(cursor_entries(*old(c))) == dataset.keys(),
    ensures
        cursor_valid(*final(c)),
        cursor_entries(*final(c)) == cursor_entries(*old(c)),
        iteration_ok(cursor_entries(*old(c)), dataset.keys(), max_card as nat) ==> r is Ok,
{
    let ghost es = cursor_entries(*old(c));
    let ghost good = iteration_ok(es, dataset.keys(), max_card as nat);
    let mut p: u64 = 0;
    while p < probes
        invariant
            dataset.wf(),
            probes == 0 || dataset.keys().len() > 0,
            es == cursor_entries(*old(c)),
            cursor_valid(*c),
            cursor_entries(*c) == es,
            keys_of(es) == dataset.keys(),
            good == iteration_ok(es, dataset.keys(), max_card as nat),
        decreases probes - p,
    {
        let target = choose_key(rng, &dataset.keys);
        proof {
            assert(strictly_sorted(keys_of(es)));
        }
        let hit = match cursor_seek_ge(c, target.as_slice()) {
            Ok(h) => h,
            Err(_) => {
                return Err(MeasureError::Store);
            },
        };
        proof {
            assert(exists|j: int|
                0 <= j < dataset.keys@.len() && target@ == #[trigger] dataset.keys@[j]@);
            let j = choose|j: int|
                0 <= j < dataset.keys@.len() && target@ == #[trigger] dataset.keys@[j]@;
            assert(dataset.keys()[j] == dataset.keys@[j]@);
            assert(keys_of(es)[j] == es[j].0);
            lemma_lower_bound_exact(keys_of(es), j);
            assert(lower_bound(keys_of(es), target@) == j);
        }
        match hit {
            None => {
                return Err(MeasureError::ProbeMissed);
            },
            Some((k, v)) => {
                if !bytes_eq(k.as_slice(), target.as_slice()) {
                    return Err(MeasureError::ProbeMissed);
                }
                let bm = match deserialize_bitmap(v.as_slice()) {
                    Some(bm) => bm,
                    None => {
                        return Err(MeasureError::CorruptValue);
                    },
                };
                if bitmap_len(&bm) > max_card as u64 {
                    return Err(MeasureError::CardinalityExceeded);
                }
            },
        }
        p = p + 1;
    }
    Ok(())
}

/// Runs the whole measurement protocol on one store artifact that
/// decodes cleanly (every artifact this library builds does; arbitrary
/// files are not admitted, since the backend can panic on crafted
/// blocks): a timed full iteration, then timed randomized lower-bound
/// probes, both with the embedded correctness checks. The run succeeds
/// exactly when the store mirrors the dataset's keys and every value
/// stays within the cardinality bound; a store whose keys and values all
/// decode but where some value exceeds the bound fails with the
/// bound-violation signal.
pub fn measure_store(
    bytes: &Vec<u8>,
    dataset: &Dataset,
    seed: u64,
    probes: u64,
    max_card: usize,
) -> (r: Result<Timings, MeasureError>)
    requires
        dataset.wf(),
        probes == 0 || dataset.keys().len() > 0,
        store_entries(bytes@) is Some,
    ensures
        ({
            let es = store_entries(bytes@)->Some_0;
            &&& (r is Ok <==> iteration_ok(es, dataset.keys(), max_card as nat))
            &&& ((keys_of(es) == dataset.keys() && (forall|i: int|
                0 <= i < es.len() ==> blob_elems((#[trigger] es[i]).1) is Some
                    && blob_elems(es[i].1)->Some_0.finite()) && !iteration_ok(
                es,
                dataset.keys(),
                max_card as nat,
            )) ==> r == Err::<Timings, MeasureError>(MeasureError::CardinalityExceeded))
        }),
{
    let mut cursor = match open_cursor(clone_bytes(bytes)) {
        Ok(c) => c,
        Err(_) => {
            // Opening cleanly decoding bytes always succeeds; the arm
            // only satisfies the type.
            proof {
                assert(false);
            }
            return Err(MeasureError::Store);
        },
    };
    let mut rng = rng_from_seed(seed);
    let t_iter = clock_now();
    let iter_outcome = run_iteration(&mut cursor, dataset, max_card);
    let iter_ns = elapsed_ns(&t_iter);
    if let Err(e) = iter_outcome {
        return Err(e);
    }
    let t_jump = clock_now();
    let probe_outcome = run_probes(&mut cursor, dataset, &mut rng, probes, max_card);
    let jump_ns = elapsed_ns(&t_jump);
    if let Err(e) = probe_outcome {
        return Err(e);
    }
    Ok(Timings { iter_ns, jump_ns })
}

/// What aborts one whole benchmark task: a fatal build failure or a
/// fatal measurement failure.
#[derive(Clone, Copy, Debug, PartialEq, Eq, Structural)]
pub enum RunError {
    Build(StoreError),
    Measure(MeasureError),
}

/// One whole benchmark task for one parameter tuple: build the store
/// from the dataset, then measure it. The build fails exactly when the
/// backend cannot hold the entries; past that, measurement succeeds
/// exactly when every value respects the cardinality bound, since a
/// fresh store mirrors the dataset by construction.
pub fn build_and_measure(
    dataset: &Dataset,
    params: &Parameters,
    seed: u64,
    probes: u64,
    max_card: usize,
) -> (r: Result<Timings, RunError>)
    requires
        dataset.wf(),
        params.wf(),
        probes == 0 || dataset.keys().len() > 0,
    ensures
        (r matches Err(e) && e matches RunError::Build(_)) <==> !build_ok(
            *params,
            dataset.keys(),
            dataset.entries(),
        ),
        build_ok(*params, dataset.keys(), dataset.entries()) ==> (r is Ok <==> iteration_ok(
            dataset.entries(),
            dataset.keys(),
            max_card as nat,
        )),
{
    let bytes = match build_store_bytes(dataset, params) {
        Ok(b) => b,
        Err(e) => {
            return Err(RunError::Build(e));
        },
    };
    match measure_store(&bytes, dataset, seed, probes, max_card) {
        Ok(t) => Ok(t),
        Err(e) => Err(RunError::Measure(e)),
    }
}

/// The draw history after `i` probe-target draws over `nkeys` keys.
pub open spec fn probe_hist(seed: u64, nkeys: int, i: nat) -> Seq<(int, int)>
    decreases i,
{
    if i == 0 {
        Seq::empty()
    } else {
        probe_hist(seed, nkeys, (i - 1) as nat).push((3int, nkeys))
    }
}

/// Which key index the `i`-th probe lands on: a pure function of the
/// seed and the key count alone, never of the parameter tuple or the
/// read strategy under test.
pub open spec fn probe_target(seed: u64, nkeys: int, i: nat) -> int {
    crate::rng::rng_choice(seed, probe_hist(seed, nkeys, i), nkeys)
}

/// The probed keys themselves, in draw order, for a run of `count`
/// probes over these keys.
pub open spec fn probe_seq(seed: u64, keys: Seq<Seq<u8>>, count: nat) -> Seq<Seq<u8>>
    decreases count,
{
    if count == 0 {
        Seq::empty()
    } else {
        let t = probe_target(seed, keys.len() as int, (count - 1) as nat);
        probe_seq(seed, keys, (count - 1) as nat).push(
            if 0 <= t < keys.len() {
                keys[t]
            } else {
                keys[0]
            },
        )
    }
}

/// The sequence of keys the randomized-probe phase draws for this seed:
/// the generator is reseeded identically per task, so every store,
/// parameter tuple and read strategy sees this one sequence, a pure
/// function of the seed, the keys and the probe count.
pub fn probe_keys(keys: &Vec<Vec<u8>>, seed: u64, probes: u64) -> (r: Vec<Vec<u8>>)
    requires
        probes == 0 || keys@.len() > 0,
    ensures
        crate::order::views(r@) == probe_seq(seed, crate::order::views(keys@), probes as nat),
{
    let ghost kv = crate::order::views(keys@);
    let mut rng = rng_from_seed(seed);
    let mut r: Vec<Vec<u8>> = Vec::new();
    let mut i: u64 = 0;
    while i < probes
        invariant
            0 <= i <= probes,
            probes == 0 || keys@.len() > 0,
            kv == crate::order::views(keys@),
            rng.seed() == seed,
            rng.hist() == probe_hist(seed, keys@.len() as int, i as nat),
            crate::order::views(r@) == probe_seq(seed, kv, i as nat),
        decreases probes - i,
    {
        let ghost hist0 = rng.hist();
        let target = choose_key(&mut rng, keys);
        proof {
            let n = keys@.len() as int;
            assert(probe_hist(seed, n, (i + 1) as nat) == probe_hist(seed, n, i as nat).push(
                (3int, n),
            ));
            let t = probe_target(seed, n, i as nat);
            assert(t == crate::rng::rng_choice(seed, hist0, n));
            assert(0 <= t < keys@.len() && target@ == keys@[t]@);
            assert(kv[t] == keys@[t]@);
            assert(probe_seq(seed, kv, (i + 1) as nat) == probe_seq(seed, kv, i as nat).push(
                kv[t],
            ));
            assert(crate::order::views(r@.push(target)) =~= crate::order::views(r@).push(target@));
        }
        r.push(target);
        i = i + 1;
    }
    r
}

/// Phase-one checks over entries a backend's full iteration collected
/// (the transactional baseline exposes its iteration this way): every
/// key must equal the dataset's key at the same position, every value
/// must decode within the bound, and the counts must agree.
pub fn check_collected_entries(
    entries: &Vec<(Vec<u8>, Vec<u8>)>,
    dataset: &Dataset,
    max_card: usize,
) -> (r: Result<(), MeasureError>)
    requires
        dataset.wf(),
    ensures
        r is Ok <==> iteration_ok(owned_pair_views(entries@), dataset.keys(), max_card as nat),
{
    let ghost es = owned_pair_views(entries@);
    let n = entries.len();
    let nkeys = dataset.keys.len();
    if n != nkeys {
        proof {
            if n > nkeys {
                assert(keys_of(es).len() != dataset.keys().len());
            }
        }
        return if n < nkeys {
            Err(MeasureError::MissingEntries)
        } else {
            Err(MeasureError::ExtraEntries)
        };
    }
    let mut i: usize = 0;
    while i < n
        invariant
            0 <= i <= n,
            dataset.wf(),
            es == owned_pair_views(entries@),
            n == entries@.len() == dataset.keys().len(),
            forall|k: int|
                0 <= k < i ==> (#[trigger] es[k]).0 == dataset.keys()[k] && valid_value(
                    es[k].1,
                    max_card as nat,
                ),
        decreases n - i,
    {
        proof {
            assert(es[i as int] == (entries@[i as int].0@, entries@[i as int].1@));
            assert(keys_of(es)[i as int] == es[i as int].0);
            assert(dataset.keys()[i as int] == dataset.keys@[i as int]@);
        }
        if !bytes_eq(entries[i].0.as_slice(), dataset.keys[i].as_slice()) {
            return Err(MeasureError::UnexpectedKey);
        }
        let bm = match deserialize_bitmap(entries[i].1.as_slice()) {
            Some(bm) => bm,
            None => {
                return Err(MeasureError::CorruptValue);
            },
        };
        if bitmap_len(&bm) > max_card as u64 {
            return Err(MeasureError::CardinalityExceeded);
        }
        i = i + 1;
    }
    proof {
        assert(keys_of(es) =~= dataset.keys());
    }
    Ok(())
}

/// The check one full-iteration step of any backend must pass: the key
/// at position `i` equals the dataset's key there, and the value decodes
/// to a set within the bound.
pub fn check_entry_at(dataset: &Dataset, i: usize, k: &[u8], v: &[u8], max_card: usize) -> (r:
    Result<(), MeasureError>)
    ensures
        r is Ok <==> (i < dataset.keys().len() && k@ == dataset.keys()[i as int] && valid_value(
            v@,
            max_card as nat,
        )),
{
    if i >= dataset.keys.len() {
        return Err(MeasureError::ExtraEntries);
    }
    proof {
        assert(dataset.keys()[i as int] == dataset.keys@[i as int]@);
    }
    if !bytes_eq(k, dataset.keys[i].as_slice()) {
        return Err(MeasureError::UnexpectedKey);
    }
    let bm = match deserialize_bitmap(v) {
        Some(bm) => bm,
        None => {
            return Err(MeasureError::CorruptValue);
        },
    };
    if bitmap_len(&bm) > max_card as u64 {
        return Err(MeasureError::CardinalityExceeded);
    }
    Ok(())
}

/// The count check after a full iteration: the backend must have yielded
/// exactly one entry per dataset key.
pub fn check_entry_count(dataset: &Dataset, seen: u64) -> (r: Result<(), MeasureError>)
    requires
        dataset.keys@.len() <= u64::MAX,
    ensures
        r is Ok <==> seen == dataset.keys().len(),
{
    let expected = dataset.keys.len() as u64;
    if seen < expected {
        Err(MeasureError::MissingEntries)
    } else if seen > expected {
        Err(MeasureError::ExtraEntries)
    } else {
        Ok(())
    }
}

/// The check behind one lower-bound probe, whatever backend answered it:
/// the hit must exist, carry exactly the probed key, and hold a value
/// within the bound.
pub fn check_probe_hit(target: &Vec<u8>, hit: &Option<(Vec<u8>, Vec<u8>)>, max_card: usize) -> (r:
    Result<(), MeasureError>)
    ensures
        r is Ok <==> (hit matches Some((k, v)) && k@ == target@ && valid_value(
            v@,
            max_card as nat,
        )),
{
    match hit {
        None => Err(MeasureError::ProbeMissed),
        Some((k, v)) => {
            if !bytes_eq(k.as_slice(), target.as_slice()) {
                return Err(MeasureError::ProbeMissed);
            }
            let bm = match deserialize_bitmap(v.as_slice()) {
                Some(bm) => bm,
                None => {
                    return Err(MeasureError::CorruptValue);
                },
            };
            if bitmap_len(&bm) > max_card as u64 {
                return Err(MeasureError::CardinalityExceeded);
            }
            Ok(())
        },
    }
}

/// Round trip: a store freshly built from a well-formed dataset whose
/// values respect the bound passes the full iteration checks, so its
/// measurement succeeds, and (through the lower-bound landing lemma)
/// every probe on an existing key returns exactly that key.
pub proof fn lemma_fresh_store_measures_ok(d: Dataset, max_card: nat)
    requires
        d.wf(),
        d.values_valid(max_card),
    ensures
        iteration_ok(d.entries(), d.keys(), max_card),
        forall|i: int|
            0 <= i < d.keys().len() ==> lower_bound(d.keys(), #[trigger] d.keys()[i]) == i,
{
    assert(keys_of(d.entries()) =~= d.keys());
    assert forall|i: int| 0 <= i < d.keys().len() implies lower_bound(
        d.keys(),
        #[trigger] d.keys()[i],
    ) == i by {
        lemma_lower_bound_exact(d.keys(), i);
    }
}

/// Cross-backend equivalence: two stores that both pass the full
/// iteration checks against one dataset saw the same key sequence.
pub proof fn lemma_cross_backend_equivalence(
    es_a: Seq<(Seq<u8>, Seq<u8>)>,
    es_b: Seq<(Seq<u8>, Seq<u8>)>,
    keys: Seq<Seq<u8>>,
    max_card: nat,
)
    requires
        iteration_ok(es_a, keys, max_card),
        iteration_ok(es_b, keys, max_card),
    ensures
        keys_of(es_a) == keys_of(es_b),
{
}

} // verus!
