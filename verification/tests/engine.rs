use kvbench::dataset::{generate_dense, generate_words, synth_value, Dataset};
use kvbench::measure::{
    check_collected_entries, check_probe_hit, measure_store, probe_keys, MeasureError,
};
use kvbench::order::{bytes_eq, bytes_lt, encode_be, sort_dedup_keys};
use kvbench::params::{artifact_name, enumerate_grid, format_u64, CompressionKind, Parameters};
use kvbench::rank::{rank_results, Measurement, RankBy};
use kvbench::rng::rng_from_seed;
use kvbench::store::{
    build_sorted_file, build_store_bytes, dataset_from_entries, Folder, StoreError,
};

/// A serialized integer-set blob built through the codec library
/// directly, as an independent oracle for the crate's wrappers.
fn blob(vals: &[u32]) -> Vec<u8> {
    let bm = roaring::RoaringBitmap::from_sorted_iter(vals.iter().copied()).unwrap();
    let mut out = Vec::new();
    bm.serialize_into(&mut out).unwrap();
    out
}

/// Opens a store's bytes with the storage library directly, as an
/// independent oracle for the crate's wrappers.
fn raw_cursor(bytes: Vec<u8>) -> grenad::ReaderCursor<std::io::Cursor<Vec<u8>>> {
    grenad::Reader::new(std::io::Cursor::new(bytes)).unwrap().into_cursor().unwrap()
}

fn scenario_params() -> Parameters {
    Parameters {
        compression: CompressionKind::Uncompressed,
        index_levels: 0,
        block_size: 4096,
        index_key_interval: 16,
    }
}

#[test]
fn grid_covers_full_product() {
    let grid = enumerate_grid();
    assert_eq!(grid.len(), 420);
    // First tuple: first candidate of every list.
    assert_eq!(grid[0].compression, CompressionKind::Uncompressed);
    assert_eq!(grid[0].index_levels, 0);
    assert_eq!(grid[0].block_size, 8192);
    assert_eq!(grid[0].index_key_interval, 32);
    // Innermost list advances first.
    assert_eq!(grid[1].index_key_interval, 24);
    // Last tuple: last candidate of every list.
    let last = grid[419];
    assert_eq!(last.compression, CompressionKind::Lz4);
    assert_eq!(last.index_levels, 3);
    assert_eq!(last.block_size, 512);
    assert_eq!(last.index_key_interval, 2);
    // Tuples are distinct by construction.
    for i in 0..420 {
        for j in (i + 1)..420 {
            assert_ne!(grid[i], grid[j]);
        }
    }
}

#[test]
fn artifact_names_spell_all_fields() {
    assert_eq!(artifact_name(&scenario_params()), b"None.0.4096.16.grd".to_vec());
    let p = Parameters {
        compression: CompressionKind::Snappy,
        index_levels: 2,
        block_size: 512,
        index_key_interval: 32,
    };
    assert_eq!(artifact_name(&p), b"Snappy.2.512.32.grd".to_vec());
    let p = Parameters {
        compression: CompressionKind::Lz4,
        index_levels: 10,
        block_size: 8192,
        index_key_interval: 2,
    };
    assert_eq!(artifact_name(&p), b"Lz4.10.8192.2.grd".to_vec());
    assert_eq!(format_u64(0), b"0".to_vec());
    assert_eq!(format_u64(10), b"10".to_vec());
    assert_eq!(format_u64(90210), b"90210".to_vec());
}

#[test]
fn big_endian_keys_sort_numerically() {
    assert_eq!(
        encode_be(0x0102030405060708),
        vec![0x01, 0x02, 0x03, 0x04, 0x05, 0x06, 0x07, 0x08]
    );
    assert_eq!(encode_be(0), vec![0; 8]);
    assert!(bytes_lt(&encode_be(5), &encode_be(6)));
    assert!(bytes_lt(&encode_be(255), &encode_be(256)));
    assert!(!bytes_lt(&encode_be(256), &encode_be(255)));
    assert!(!bytes_lt(&encode_be(7), &encode_be(7)));
    assert!(bytes_lt(b"abc", b"abcd"));
    assert!(bytes_lt(b"abc", b"abd"));
    assert!(!bytes_lt(b"", b""));
    assert!(bytes_eq(b"same", b"same"));
    assert!(!bytes_eq(b"same", b"sane"));
}

#[test]
fn sort_dedup_orders_and_uniques() {
    let input = vec![
        b"pear".to_vec(),
        b"apple".to_vec(),
        b"pear".to_vec(),
        b"fig".to_vec(),
        b"apple".to_vec(),
    ];
    let sorted = sort_dedup_keys(input);
    assert_eq!(sorted, vec![b"apple".to_vec(), b"fig".to_vec(), b"pear".to_vec()]);
}

#[test]
fn dense_generation_is_sorted_and_bounded() {
    let d = generate_dense(42, 100, 64);
    assert_eq!(d.keys.len(), 100);
    assert_eq!(d.values.len(), 100);
    for i in 0..100u64 {
        assert_eq!(d.keys[i as usize], encode_be(i));
    }
    for v in &d.values {
        let bm = roaring::RoaringBitmap::deserialize_from(v.as_slice()).unwrap();
        assert!(bm.len() <= 64);
    }
}

#[test]
fn word_generation_is_sorted_unique_and_deterministic() {
    let a = generate_words(7, 50, 20);
    let b = generate_words(7, 50, 20);
    assert_eq!(a.keys, b.keys);
    assert_eq!(a.values, b.values);
    assert!(a.keys.len() > 0);
    assert!(a.keys.len() <= 50);
    for k in &a.keys {
        assert!(k.len() >= 3);
    }
    for w in a.keys.windows(2) {
        assert!(bytes_lt(&w[0], &w[1]));
    }
    for v in &a.values {
        let bm = roaring::RoaringBitmap::deserialize_from(v.as_slice()).unwrap();
        assert!(bm.len() <= 20);
    }
    // A different seed gives a different dataset.
    let c = generate_words(8, 50, 20);
    assert_ne!(a.keys, c.keys);
}

#[test]
fn value_synthesis_round_trips_through_codec() {
    let mut rng = rng_from_seed(42);
    let blob = synth_value(&mut rng, 32);
    let bm = roaring::RoaringBitmap::deserialize_from(blob.as_slice()).unwrap();
    assert!(bm.len() <= 32);
    // The blob is a real serialization, not the input handed back.
    let mut reserialized = Vec::new();
    bm.serialize_into(&mut reserialized).unwrap();
    assert_eq!(blob, reserialized);
}

#[test]
fn store_round_trip_yields_exact_entries() {
    let d = generate_dense(42, 100, 64);
    let bytes = build_store_bytes(&d, &scenario_params()).unwrap();
    // Full iteration, through the storage library directly, returns
    // every key at its position.
    let mut cursor = raw_cursor(bytes);
    let mut entries = Vec::new();
    while let Some((k, v)) = cursor.move_on_next().unwrap() {
        entries.push((k.to_vec(), v.to_vec()));
    }
    assert_eq!(entries.len(), 100);
    for (i, (k, v)) in entries.iter().enumerate() {
        assert_eq!(*k, encode_be(i as u64));
        assert_eq!(*v, d.values[i]);
    }
    // Turning the drained entries back into a dataset gives it back intact.
    let loaded = dataset_from_entries(&entries).unwrap();
    assert_eq!(loaded.keys, d.keys);
    assert_eq!(loaded.values, d.values);
}

#[test]
fn scenario_dense_iteration_and_seek() {
    // seed 42, 100 dense big-endian keys, no compression, 0 index
    // levels, 4096-byte blocks, interval 16.
    let d = generate_dense(42, 100, 64);
    let bytes = build_store_bytes(&d, &scenario_params()).unwrap();
    let outcome = measure_store(&bytes, &d, 42, 100, 64);
    assert!(outcome.is_ok());
    // Seeking key 50 returns key 50 exactly.
    let mut cursor = raw_cursor(bytes);
    let (k, _) = cursor.move_on_key_greater_than_or_equal_to(&encode_be(50)).unwrap().unwrap();
    assert_eq!(k, encode_be(50).as_slice());
}

#[test]
fn seek_lands_on_lower_bound() {
    let d = Dataset {
        keys: vec![b"b".to_vec(), b"d".to_vec(), b"f".to_vec()],
        values: vec![blob(&[1]), blob(&[2]), blob(&[3])],
    };
    let bytes = build_store_bytes(&d, &scenario_params()).unwrap();
    let mut cursor = raw_cursor(bytes);
    // A missing key lands on the first key above it.
    let (k, _) = cursor.move_on_key_greater_than_or_equal_to(b"c").unwrap().unwrap();
    assert_eq!(k, b"d");
    // A key above everything lands nowhere.
    assert!(cursor.move_on_key_greater_than_or_equal_to(b"g").unwrap().is_none());
    // An existing key lands on itself.
    let (k, _) = cursor.move_on_key_greater_than_or_equal_to(b"b").unwrap().unwrap();
    assert_eq!(k, b"b");
}

#[test]
fn scenario_rebuild_reuses_artifact() {
    let d = generate_dense(42, 50, 32);
    let p = scenario_params();
    let mut folder = Folder::new();
    let first = build_sorted_file(&mut folder, &d, &p).unwrap();
    assert!(!first.reused);
    let second = build_sorted_file(&mut folder, &d, &p).unwrap();
    assert!(second.reused);
    // Identical artifact, so in particular identical size.
    assert_eq!(first.bytes, second.bytes);
    assert_eq!(first.bytes.len(), second.bytes.len());
}

#[test]
fn scenario_oversized_value_fails_fast() {
    // A value engineered to exceed the maximum cardinality: five
    // integers against a bound of three.
    let d = Dataset { keys: vec![b"key".to_vec()], values: vec![blob(&[1, 2, 3, 4, 5])] };
    let bytes = build_store_bytes(&d, &scenario_params()).unwrap();
    let outcome = measure_store(&bytes, &d, 42, 4, 3);
    assert_eq!(outcome.unwrap_err(), MeasureError::CardinalityExceeded);
    // The same value within a looser bound passes.
    assert!(measure_store(&bytes, &d, 42, 4, 5).is_ok());
}

#[test]
fn scenario_cross_backend_key_sequences_agree() {
    // The sorted-file backend and the transactional baseline must both
    // report a successful full iteration over the same key sequence.
    let d = generate_dense(42, 60, 32);
    let bytes = build_store_bytes(&d, &scenario_params()).unwrap();
    assert!(measure_store(&bytes, &d, 42, 60, 32).is_ok());
    // The baseline backend hands its iteration out as collected pairs.
    let mut collected = Vec::new();
    for i in 0..d.keys.len() {
        collected.push((d.keys[i].clone(), d.values[i].clone()));
    }
    assert!(check_collected_entries(&collected, &d, 32).is_ok());
    // A swapped pair is caught at its first position.
    collected.swap(0, 1);
    assert_eq!(
        check_collected_entries(&collected, &d, 32).unwrap_err(),
        MeasureError::UnexpectedKey
    );
}

#[test]
fn probe_checks_reject_wrong_hits() {
    let payload = blob(&[1, 2]);
    let target = b"needle".to_vec();
    assert!(check_probe_hit(&target, &Some((b"needle".to_vec(), payload.clone())), 5).is_ok());
    assert_eq!(
        check_probe_hit(&target, &Some((b"noodle".to_vec(), payload.clone())), 5).unwrap_err(),
        MeasureError::ProbeMissed
    );
    assert_eq!(check_probe_hit(&target, &None, 5).unwrap_err(), MeasureError::ProbeMissed);
    assert_eq!(
        check_probe_hit(&target, &Some((b"needle".to_vec(), payload)), 1).unwrap_err(),
        MeasureError::CardinalityExceeded
    );
}

#[test]
fn probe_targets_are_deterministic_and_existing() {
    let d = generate_dense(42, 30, 16);
    let a = probe_keys(&d.keys, 42, 100);
    let b = probe_keys(&d.keys, 42, 100);
    assert_eq!(a, b);
    assert_eq!(a.len(), 100);
    for t in &a {
        assert!(d.keys.contains(t));
    }
    // A different seed draws a different sequence.
    let c = probe_keys(&d.keys, 43, 100);
    assert_ne!(a, c);
}

#[test]
fn scenario_ranking_with_ties_is_stable() {
    let p = enumerate_grid();
    let m = |i: usize, iter_ns: u64, jump_ns: u64| Measurement { params: p[i], iter_ns, jump_ns };
    // Ties under one key, distinct under the other.
    let results = vec![m(0, 5, 1), m(1, 3, 3), m(2, 5, 1), m(3, 1, 2)];
    let by_jump = rank_results(results.clone(), RankBy::JumpOnly);
    // Jump keys 1, 1, 2, 3 with the two ties in collection order.
    assert_eq!(by_jump[0], results[0]);
    assert_eq!(by_jump[1], results[2]);
    assert_eq!(by_jump[2], results[3]);
    assert_eq!(by_jump[3], results[1]);
    let by_sum = rank_results(results.clone(), RankBy::IterAndJump);
    // Sums 6, 6, 6, 3: the tie block keeps collection order.
    assert_eq!(by_sum[0], results[3]);
    assert_eq!(by_sum[1], results[0]);
    assert_eq!(by_sum[2], results[1]);
    assert_eq!(by_sum[3], results[2]);
    let by_iter = rank_results(results.clone(), RankBy::IterOnly);
    // Iteration keys 1, 3, 5, 5.
    assert_eq!(by_iter[0], results[3]);
    assert_eq!(by_iter[1], results[1]);
    assert_eq!(by_iter[2], results[0]);
    assert_eq!(by_iter[3], results[2]);
}

#[test]
fn measurement_catches_mismatched_dataset() {
    // The reuse path never validates an artifact against the current
    // dataset, so measurement is where a key mismatch surfaces.
    let d1 = generate_dense(42, 20, 16);
    let d2 = generate_dense(42, 21, 16);
    let bytes = build_store_bytes(&d1, &scenario_params()).unwrap();
    assert!(measure_store(&bytes, &d1, 42, 20, 16).is_ok());
    assert_eq!(
        measure_store(&bytes, &d2, 42, 20, 16).unwrap_err(),
        MeasureError::MissingEntries
    );
    assert_eq!(
        measure_store(&bytes, &generate_dense(42, 19, 16), 42, 20, 16).unwrap_err(),
        MeasureError::ExtraEntries
    );
}

#[test]
fn compressed_stores_round_trip_too() {
    let d = generate_dense(42, 40, 16);
    for compression in [CompressionKind::Snappy, CompressionKind::Lz4] {
        let p = Parameters { compression, index_levels: 1, block_size: 512, index_key_interval: 4 };
        let bytes = build_store_bytes(&d, &p).unwrap();
        assert!(measure_store(&bytes, &d, 42, 40, 16).is_ok());
    }
}

#[test]
fn word_mode_end_to_end() {
    let d = generate_words(42, 80, 24);
    let mut folder = Folder::new();
    let built = build_sorted_file(&mut folder, &d, &scenario_params()).unwrap();
    assert!(measure_store(&built.bytes, &d, 42, 80, 24).is_ok());
}

#[test]
fn unordered_entries_are_rejected() {
    // A provided file's entries must ascend strictly.
    let entries = vec![
        (b"b".to_vec(), blob(&[1])),
        (b"a".to_vec(), blob(&[2])),
    ];
    assert!(matches!(dataset_from_entries(&entries), Err(StoreError::UnorderedEntries)));
    // So must a dataset handed to the builder: the rejection is the
    // fatal build error, not a silent reorder.
    let d = Dataset {
        keys: vec![b"b".to_vec(), b"a".to_vec()],
        values: vec![blob(&[1]), blob(&[2])],
    };
    assert_eq!(
        build_store_bytes(&d, &scenario_params()).unwrap_err(),
        StoreError::UnorderedEntries
    );
}

#[test]
fn empty_dataset_with_zero_probes_measures_clean() {
    let d = Dataset { keys: vec![], values: vec![] };
    let bytes = build_store_bytes(&d, &scenario_params()).unwrap();
    let t = measure_store(&bytes, &d, 42, 0, 8);
    assert!(t.is_ok());
}

#[test]
fn build_and_measure_runs_one_whole_task() {
    let d = generate_dense(42, 30, 16);
    assert!(kvbench::measure::build_and_measure(&d, &scenario_params(), 42, 30, 16).is_ok());
    // The same task under a too-tight bound fails the measurement.
    let r = kvbench::measure::build_and_measure(&d, &scenario_params(), 42, 30, 0);
    assert!(r.is_err());
}

#[test]
fn undecodable_value_is_a_corrupt_value() {
    // The writer stores any bytes; the measurement insists the value
    // decodes as an integer-set blob.
    let d = Dataset { keys: vec![b"key".to_vec()], values: vec![b"not a bitmap".to_vec()] };
    let bytes = build_store_bytes(&d, &scenario_params()).unwrap();
    assert_eq!(measure_store(&bytes, &d, 42, 1, 8).unwrap_err(), MeasureError::CorruptValue);
}
