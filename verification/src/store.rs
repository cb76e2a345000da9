//! The sorted-file backend: building store artifacts from a dataset and
//! reading them back through a cursor.
//!
//! The file format is an external collaborator. The library models a
//! writer by the entries inserted so far and the parameters it was built
//! with, a finished artifact by its bytes, and a cursor by the decoded
//! entries, the current position, and whether the underlying bytes decode
//! cleanly end to end.

use vstd::prelude::*;

use crate::dataset::{keys_of, owned_pair_views, Dataset};
use crate::order::{adjacent_sorted, bytes_eq, bytes_lt, lemma_adjacent_implies_strict, lex_lt,
    lower_bound, strictly_sorted, views};
use crate::params::{name_of, artifact_name, CompressionKind, Parameters};

verus! {

#[verifier::external_type_specification]
#[verifier::external_body]
#[verifier::reject_recursive_types(W)]
pub struct ExGrenadWriter<W>(grenad::Writer<W>);

#[verifier::external_type_specification]
#[verifier::external_body]
#[verifier::reject_recursive_types(R)]
pub struct ExGrenadReaderCursor<R>(grenad::ReaderCursor<R>);

#[verifier::external_type_specification]
#[verifier::external_body]
#[verifier::reject_recursive_types(T)]
pub struct ExIoCursor<T>(std::io::Cursor<T>);

/// The in-memory writer and cursor instantiations the library uses.
pub type ByteWriter = grenad::Writer<Vec<u8>>;

pub type ByteCursor = grenad::ReaderCursor<std::io::Cursor<Vec<u8>>>;

/// What can go wrong while building or reading a store artifact.
#[derive(Clone, Copy, Debug, PartialEq, Eq, Structural)]
pub enum StoreError {
    /// The backend reported a failure (I/O or compression).
    Backend,
    /// A key or value is too large for the backend's on-disk format.
    OversizedEntry,
    /// The artifact's entries are not in strictly ascending key order.
    UnorderedEntries,
}

/// The structural parameters a writer retains, as plain numbers
/// (compression kind, index levels, block size, key interval). The
/// backend clamps block sizes below 1024 bytes up to 1024, so the model
/// carries the effective block size: two requests that differ only
/// below the clamp configure identical writers.
pub open spec fn params_model(p: Parameters) -> (int, int, int, int) {
    (
        match p.compression {
            CompressionKind::Uncompressed => 0int,
            CompressionKind::Snappy => 1int,
            CompressionKind::Lz4 => 2int,
        },
        p.index_levels as int,
        p.effective_block_size(),
        p.index_key_interval as int,
    )
}

/// The entries inserted into a writer so far.
pub uninterp spec fn writer_entries(w: ByteWriter) -> Seq<(Seq<u8>, Seq<u8>)>;

/// The parameters a writer retains.
pub uninterp spec fn writer_params(w: ByteWriter) -> (int, int, int, int);

/// Whether every block flush performed by this writer so far succeeded,
/// so that its state is the one a fresh writer reaches by inserting
/// exactly its entries.
pub uninterp spec fn writer_clean(w: ByteWriter) -> bool;

/// Whether inserting exactly these entries, in order, into a fresh
/// writer with these parameters performs all of its block flushes
/// without a compression failure. Compression is pure, so this is a
/// function of the parameters and the entries alone.
pub uninterp spec fn write_ok_through(params: (int, int, int, int), entries: Seq<(Seq<u8>, Seq<u8>)>) -> bool;

/// Whether finishing a writer holding exactly these entries (the final
/// block, the index levels and the footer) succeeds. A function of the
/// parameters and the entries alone, for the same reason.
pub uninterp spec fn finish_ok(params: (int, int, int, int), entries: Seq<(Seq<u8>, Seq<u8>)>) -> bool;

/// Every key and value fits the backend's 32-bit length fields.
pub open spec fn entries_fit(es: Seq<(Seq<u8>, Seq<u8>)>) -> bool {
    forall|i: int|
        0 <= i < es.len() ==> (#[trigger] es[i]).0.len() <= u32::MAX && es[i].1.len() <= u32::MAX
}

/// Whether inserting every prefix of the entries flushes cleanly.
pub open spec fn prefixes_write_ok(params: (int, int, int, int), es: Seq<(Seq<u8>, Seq<u8>)>) -> bool {
    forall|i: int| 0 <= i <= es.len() ==> write_ok_through(params, #[trigger] es.take(i))
}

/// When a whole build succeeds: ordered keys, sizes in range, and every
/// write step of the backend going through.
pub open spec fn build_ok(p: Parameters, keys: Seq<Seq<u8>>, es: Seq<(Seq<u8>, Seq<u8>)>) -> bool {
    &&& strictly_sorted(keys)
    &&& entries_fit(es)
    &&& prefixes_write_ok(params_model(p), es)
    &&& finish_ok(params_model(p), es)
}

/// The bytes a finished writer emits for the given parameters and
/// entries: the artifact is a pure function of both.
pub uninterp spec fn store_bytes(params: (int, int, int, int), entries: Seq<(Seq<u8>, Seq<u8>)>) -> Seq<u8>;

/// The entries a reader decodes from artifact bytes, or nothing when the
/// bytes do not decode cleanly end to end.
pub uninterp spec fn store_entries(bytes: Seq<u8>) -> Option<Seq<(Seq<u8>, Seq<u8>)>>;

/// The entries behind a cursor.
pub uninterp spec fn cursor_entries(c: ByteCursor) -> Seq<(Seq<u8>, Seq<u8>)>;

/// The entry the cursor currently stands on, `-1` before the first.
pub uninterp spec fn cursor_pos(c: ByteCursor) -> int;

/// Whether the bytes behind the cursor decode cleanly end to end, so
/// that moving the cursor can never fail.
pub uninterp spec fn cursor_valid(c: ByteCursor) -> bool;

/// Relies on `grenad::WriterBuilder`: it configures a writer with the
/// four structural parameters; nothing has been inserted yet.
#[verifier::external_body]
fn writer_new(p: &Parameters) -> (w: ByteWriter)
    requires
        p.wf(),
    ensures
        writer_entries(w) == Seq::<(Seq<u8>, Seq<u8>)>::empty(),
        writer_params(w) == params_model(*p),
        writer_clean(w),
        write_ok_through(writer_params(w), writer_entries(w)),
{
    let mut b = grenad::WriterBuilder::new();
    b.compression_type(match p.compression {
        CompressionKind::Uncompressed => grenad::CompressionType::None,
        CompressionKind::Snappy => grenad::CompressionType::Snappy,
        CompressionKind::Lz4 => grenad::CompressionType::Lz4,
    });
    b.index_levels(p.index_levels);
    b.block_size(p.block_size);
    b.index_key_interval(std::num::NonZeroUsize::new(p.index_key_interval).unwrap());
    b.build(Vec::new())
}

/// Relies on `grenad::Writer::insert`: fed a key above every key already
/// inserted and lengths within the 32-bit fields (it asserts both, so
/// the `requires` keep it panic-free) it appends the entry; on an
/// in-memory buffer it fails exactly when compressing a flushed block
/// fails, which the parameters and the entries so far determine.
#[verifier::external_body]
fn writer_insert(w: &mut ByteWriter, k: &[u8], v: &[u8]) -> (r: Result<(), StoreError>)
    requires
        writer_clean(*old(w)),
        write_ok_through(writer_params(*old(w)), writer_entries(*old(w))),
        writer_entries(*old(w)).len() == 0 || lex_lt(
            writer_entries(*old(w)).last().0,
            k@,
        ),
        k@.len() <= u32::MAX,
        v@.len() <= u32::MAX,
    ensures
        r is Ok <==> write_ok_through(
            writer_params(*old(w)),
            writer_entries(*old(w)).push((k@, v@)),
        ),
        r is Ok ==> writer_entries(*final(w)) == writer_entries(*old(w)).push((k@, v@))
            && writer_params(*final(w)) == writer_params(*old(w)) && writer_clean(*final(w)),
{
    w.insert(k, v).map_err(|_| StoreError::Backend)
}

/// Relies on `grenad::Writer::into_inner`: it writes the final blocks,
/// the index levels and the footer, and returns the buffer; it fails
/// exactly when compressing one of those final blocks fails, which the
/// parameters and the entries determine. The bytes are a pure function
/// of the parameters and the entries, and a reader recovers exactly the
/// inserted entries from them.
#[verifier::external_body]
fn writer_finish(w: ByteWriter) -> (r: Result<Vec<u8>, StoreError>)
    requires
        writer_clean(w),
        write_ok_through(writer_params(w), writer_entries(w)),
    ensures
        r is Ok <==> finish_ok(writer_params(w), writer_entries(w)),
        r matches Ok(bytes) ==> bytes@ == store_bytes(writer_params(w), writer_entries(w))
            && store_entries(bytes@) == Some(writer_entries(w)),
{
    w.into_inner().map_err(|_| StoreError::Backend)
}

/// Relies on `grenad::Reader::new` and `Reader::into_cursor`: they read
/// the footer metadata and yield a cursor standing before the first
/// entry, or fail on anything short or without the magic number. On
/// bytes a writer produced they succeed.
#[verifier::external_body]
pub(crate) fn open_cursor(bytes: Vec<u8>) -> (r: Result<ByteCursor, StoreError>)
    ensures
        store_entries(bytes@) is Some ==> r is Ok,
        r matches Ok(c) ==> cursor_pos(c) == -1,
        r matches Ok(c) ==> (store_entries(bytes@) matches Some(es) ==> cursor_entries(c) == es
            && cursor_valid(c)),
{
    grenad::Reader::new(std::io::Cursor::new(bytes))
        .and_then(|r| r.into_cursor())
        .map_err(|_| StoreError::Backend)
}

/// Relies on `grenad::ReaderCursor::move_on_next`: it advances to the
/// entry after the current one and returns it, or nothing past the end.
/// The entry is copied out. Only a cursor over cleanly decoding bytes is
/// admitted: on a crafted artifact whose footer is valid but whose
/// blocks are not, the backend can panic, so such cursors are excluded
/// by the `requires`, and moving can then never fail.
#[verifier::external_body]
pub(crate) fn cursor_next(c: &mut ByteCursor) -> (r: Result<Option<(Vec<u8>, Vec<u8>)>, StoreError>)
    requires
        cursor_valid(*old(c)),
    ensures
        cursor_valid(*final(c)),
        cursor_entries(*final(c)) == cursor_entries(*old(c)),
        ({
            let es = cursor_entries(*old(c));
            let p = cursor_pos(*old(c));
            match r {
                Ok(Some((k, v))) => p + 1 < es.len() && k@ == es[p + 1].0 && v@ == es[p + 1].1
                    && cursor_pos(*final(c)) == p + 1,
                Ok(None) => p + 1 >= es.len() && cursor_pos(*final(c)) == es.len(),
                Err(_) => false,
            }
        }),
{
    match c.move_on_next() {
        Ok(Some((k, v))) => Ok(Some((k.to_vec(), v.to_vec()))),
        Ok(None) => Ok(None),
        Err(_) => Err(StoreError::Backend),
    }
}

/// Relies on `grenad::ReaderCursor::move_on_key_greater_than_or_equal_to`:
/// on an artifact whose keys ascend strictly it lands on the first entry
/// whose key is not below the probe, or nothing when every key is below
/// it. The entry is copied out. As with `cursor_next`, only a cursor
/// over cleanly decoding bytes is admitted, and moving then never fails.
#[verifier::external_body]
pub(crate) fn cursor_seek_ge(c: &mut ByteCursor, key: &[u8]) -> (r: Result<
    Option<(Vec<u8>, Vec<u8>)>,
    StoreError,
>)
    requires
        cursor_valid(*old(c)),
        strictly_sorted(keys_of(cursor_entries(*old(c)))),
    ensures
        cursor_valid(*final(c)),
        cursor_entries(*final(c)) == cursor_entries(*old(c)),
        ({
            let es = cursor_entries(*old(c));
            let j = lower_bound(keys_of(es), key@);
            match r {
                Ok(Some((k, v))) => j < es.len() && k@ == es[j].0 && v@ == es[j].1 && cursor_pos(
                    *final(c),
                ) == j,
                Ok(None) => j == es.len(),
                Err(_) => false,
            }
        }),
{
    match c.move_on_key_greater_than_or_equal_to(key) {
        Ok(Some((k, v))) => Ok(Some((k.to_vec(), v.to_vec()))),
        Ok(None) => Ok(None),
        Err(_) => Err(StoreError::Backend),
    }
}

/// Copies a byte string.
pub fn clone_bytes(v: &Vec<u8>) -> (r: Vec<u8>)
    ensures
        r@ == v@,
{
    let r = v.clone();
    proof {
        assert(r@ =~= v@);
    }
    r
}

/// Serializes a dataset into one store artifact under the given
/// parameters: every entry is inserted in ascending key order, then the
/// writer is finished. A key out of order, an oversized key or value, or
/// a backend write failure is surfaced as the fatal build error; the
/// build succeeds on every other input.
pub fn build_store_bytes(dataset: &Dataset, params: &Parameters) -> (r: Result<
    Vec<u8>,
    StoreError,
>)
    requires
        dataset.keys@.len() == dataset.values@.len(),
        params.wf(),
    ensures
        r is Ok <==> build_ok(*params, dataset.keys(), dataset.entries()),
        r matches Ok(bytes) ==> bytes@ == store_bytes(params_model(*params), dataset.entries())
            && store_entries(bytes@) == Some(dataset.entries()),
{
    let ghost pm = params_model(*params);
    let ghost es = dataset.entries();
    let mut w = writer_new(params);
    let n = dataset.keys.len();
    let mut i: usize = 0;
    proof {
        assert(es.take(0) =~= Seq::<(Seq<u8>, Seq<u8>)>::empty());
    }
    while i < n
        invariant
            0 <= i <= n,
            dataset.keys@.len() == dataset.values@.len(),
            pm == params_model(*params),
            es == dataset.entries(),
            n == dataset.keys().len(),
            writer_clean(w),
            writer_entries(w) =~= es.take(i as int),
            writer_params(w) == pm,
            forall|j: int| 0 <= j <= i ==> write_ok_through(pm, #[trigger] es.take(j)),
            forall|j: int| 0 <= j < i - 1 ==> lex_lt(#[trigger] dataset.keys()[j], dataset.keys()[j + 1]),
            forall|j: int|
                0 <= j < i ==> (#[trigger] es[j]).0.len() <= u32::MAX && es[j].1.len() <= u32::MAX,
        decreases n - i,
    {
        let k = &dataset.keys[i];
        let v = &dataset.values[i];
        proof {
            assert(es[i as int] == (dataset.keys()[i as int], dataset.values()[i as int]));
            assert(dataset.keys()[i as int] == dataset.keys@[i as int]@);
            assert(dataset.values()[i as int] == dataset.values@[i as int]@);
        }
        if i > 0 && !bytes_lt(dataset.keys[i - 1].as_slice(), k.as_slice()) {
            proof {
                assert(dataset.keys()[i - 1] == dataset.keys@[i - 1]@);
                assert(!strictly_sorted(dataset.keys()));
            }
            return Err(StoreError::UnorderedEntries);
        }
        if k.len() > u32::MAX as usize || v.len() > u32::MAX as usize {
            return Err(StoreError::OversizedEntry);
        }
        proof {
            if i > 0 {
                assert(writer_entries(w).last() == es[i - 1]);
                assert(es[i - 1].0 == dataset.keys()[i - 1]);
            }
        }
        let res = writer_insert(&mut w, k.as_slice(), v.as_slice());
        proof {
            assert(es.take(i as int).push((k@, v@)) =~= es.take(i + 1));
        }
        if let Err(e) = res {
            proof {
                assert(!write_ok_through(pm, es.take(i + 1)));
                assert(!prefixes_write_ok(pm, es));
            }
            return Err(e);
        }
        i = i + 1;
    }
    proof {
        assert(es.take(n as int) =~= es);
        assert(adjacent_sorted(dataset.keys()));
        lemma_adjacent_implies_strict(dataset.keys());
        assert(entries_fit(es));
        assert(prefixes_write_ok(pm, es));
    }
    writer_finish(w)
}

/// Splits entries collected from an external source into a dataset,
/// checking on the way that the keys ascend strictly: a provided file's
/// word is taken only after this check.
pub fn dataset_from_entries(entries: &Vec<(Vec<u8>, Vec<u8>)>) -> (r: Result<Dataset, StoreError>)
    ensures
        r is Ok <==> strictly_sorted(keys_of(owned_pair_views(entries@))),
        r matches Ok(d) ==> d.wf() && d.entries() == owned_pair_views(entries@),
{
    let ghost ev = owned_pair_views(entries@);
    let n = entries.len();
    let mut keys: Vec<Vec<u8>> = Vec::new();
    let mut values: Vec<Vec<u8>> = Vec::new();
    let mut i: usize = 0;
    while i < n
        invariant
            0 <= i <= n,
            ev == owned_pair_views(entries@),
            n == ev.len(),
            keys@.len() == i,
            values@.len() == i,
            forall|j: int|
                0 <= j < i ==> views(keys@)[j] == (#[trigger] ev[j]).0 && views(values@)[j]
                    == ev[j].1,
            forall|j: int| 0 <= j < i - 1 ==> lex_lt(#[trigger] views(keys@)[j], views(keys@)[j + 1]),
        decreases n - i,
    {
        proof {
            assert(ev[i as int] == (entries@[i as int].0@, entries@[i as int].1@));
            assert(keys_of(ev)[i as int] == ev[i as int].0);
        }
        if i > 0 {
            proof {
                assert(keys_of(ev)[i - 1] == ev[i - 1].0);
            }
            if !bytes_lt(entries[i - 1].0.as_slice(), entries[i].0.as_slice()) {
                proof {
                    assert(!strictly_sorted(keys_of(ev)));
                }
                return Err(StoreError::UnorderedEntries);
            }
        }
        let k = clone_bytes(&entries[i].0);
        let v = clone_bytes(&entries[i].1);
        proof {
            assert(views(keys@.push(k)) =~= views(keys@).push(k@));
            assert(views(values@.push(v)) =~= views(values@).push(v@));
        }
        keys.push(k);
        values.push(v);
        i = i + 1;
    }
    let d = Dataset { keys, values };
    proof {
        assert(adjacent_sorted(d.keys()));
        lemma_adjacent_implies_strict(d.keys());
        assert(d.keys() =~= keys_of(ev));
        assert(d.entries() =~= ev);
    }
    Ok(d)
}

/// The destination folder, modelled as named artifacts. Presence of a
/// name signals "already built": the artifact is then reused verbatim,
/// without any check that it matches the current dataset.
pub struct Folder {
    slots: Vec<(Vec<u8>, Vec<u8>)>,
}

impl Folder {
    /// The (name, artifact bytes) pairs held.
    pub closed spec fn view(self) -> Seq<(Seq<u8>, Seq<u8>)> {
        owned_pair_views(self.slots@)
    }

    /// Every name appears at most once.
    pub open spec fn wf(self) -> bool {
        forall|i: int, j: int|
            0 <= i < j < self.view().len() ==> (#[trigger] self.view()[i]).0 != (
            #[trigger] self.view()[j]).0
    }

    /// Whether an artifact of that name is present.
    pub open spec fn has(self, name: Seq<u8>) -> bool {
        exists|i: int| 0 <= i < self.view().len() && (#[trigger] self.view()[i]).0 == name
    }

    /// The bytes of the artifact of that name.
    pub open spec fn content(self, name: Seq<u8>) -> Seq<u8> {
        self.view()[choose|i: int|
            0 <= i < self.view().len() && (#[trigger] self.view()[i]).0 == name].1
    }

    /// An empty folder.
    pub fn new() -> (r: Folder)
        ensures
            r.wf(),
            r.view() == Seq::<(Seq<u8>, Seq<u8>)>::empty(),
    {
        let r = Folder { slots: Vec::new() };
        proof {
            assert(r.view() =~= Seq::<(Seq<u8>, Seq<u8>)>::empty());
        }
        r
    }

    /// Finds the artifact of that name, if present.
    fn lookup(&self, name: &Vec<u8>) -> (r: Option<usize>)
        requires
            self.wf(),
        ensures
            match r {
                Some(i) => i < self.view().len() && self.view()[i as int].0 == name@ && self.has(
                    name@,
                ) && self.content(name@) == self.view()[i as int].1,
                None => !self.has(name@),
            },
    {
        let n = self.slots.len();
        let mut i: usize = 0;
        while i < n
            invariant
                0 <= i <= n,
                n == self.view().len(),
                self.wf(),
                forall|k: int| 0 <= k < i ==> (#[trigger] self.view()[k]).0 != name@,
            decreases n - i,
        {
            if bytes_eq(self.slots[i].0.as_slice(), name.as_slice()) {
                proof {
                    assert(self.view()[i as int].0 == name@);
                    let w = choose|k: int|
                        0 <= k < self.view().len() && (#[trigger] self.view()[k]).0 == name@;
                    assert(w == i as int);
                }
                return Some(i);
            }
            i = i + 1;
        }
        None
    }
}

/// What one build call did.
pub struct BuildOutcome {
    /// The artifact bytes, freshly written or reused.
    pub bytes: Vec<u8>,
    /// Whether an existing artifact was reused instead of written.
    pub reused: bool,
}

/// Builds the store for one parameter tuple into the folder, or reuses
/// the artifact already there under the tuple's name.
///
/// Idempotence: when the name is present, nothing is written (the folder
/// is left untouched) and the stored bytes come back; otherwise the
/// artifact is built and recorded under the name, so a second call with
/// the same folder and parameters reuses it.
pub fn build_sorted_file(folder: &mut Folder, dataset: &Dataset, params: &Parameters) -> (r:
    Result<BuildOutcome, StoreError>)
    requires
        old(folder).wf(),
        dataset.keys@.len() == dataset.values@.len(),
        params.wf(),
    ensures
        final(folder).wf(),
        old(folder).has(name_of(*params)) ==> r is Ok && *final(folder) == *old(folder),
        !old(folder).has(name_of(*params)) ==> (r is Ok <==> build_ok(
            *params,
            dataset.keys(),
            dataset.entries(),
        )),
        (old(folder).has(name_of(*params)) && r is Ok) ==> r->Ok_0.reused && r->Ok_0.bytes@ == old(
            folder,
        ).content(name_of(*params)),
        (!old(folder).has(name_of(*params)) && r is Ok) ==> !r->Ok_0.reused && r->Ok_0.bytes@
            == store_bytes(params_model(*params), dataset.entries()) && store_entries(
            r->Ok_0.bytes@,
        ) == Some(dataset.entries()) && final(folder).view() == old(folder).view().push(
            (name_of(*params), r->Ok_0.bytes@),
        ) && final(folder).has(name_of(*params)),
        r is Err ==> *final(folder) == *old(folder),
{
    let name = artifact_name(params);
    match folder.lookup(&name) {
        Some(i) => {
            let bytes = clone_bytes(&folder.slots[i].1);
            Ok(BuildOutcome { bytes, reused: true })
        },
        None => {
            let bytes = build_store_bytes(dataset, params)?;
            let stored = clone_bytes(&bytes);
            let ghost before = folder.view();
            folder.slots.push((name, stored));
            proof {
                assert(folder.view() =~= before.push((name_of(*params), bytes@)));
                assert(folder.has(name_of(*params))) by {
                    assert(folder.view()[before.len() as int].0 == name_of(*params));
                }
                assert forall|i: int, j: int| 0 <= i < j < folder.view().len() implies (
                #[trigger] folder.view()[i]).0 != (#[trigger] folder.view()[j]).0 by {
                    if j == before.len() {
                        assert(!old(folder).has(name_of(*params)));
                        if folder.view()[i].0 == name_of(*params) {
                            assert(before[i].0 == name_of(*params));
                            assert(old(folder).has(name_of(*params)));
                        }
                    }
                }
            }
            Ok(BuildOutcome { bytes, reused: false })
        },
    }
}

/// Building the same parameters into the same folder twice performs at
/// most one write: after a successful first build the folder holds the
/// tuple's name, and the contract of `build_sorted_file` then makes any
/// later call with that folder and those parameters return the stored
/// artifact unchanged, reporting reuse and leaving the folder as it was.
pub proof fn lemma_build_idempotent(before: Folder, after: Folder, p: Parameters, bytes: Seq<u8>)
    requires
        before.wf(),
        after.wf(),
        !before.has(name_of(p)),
        after.view() == before.view().push((name_of(p), bytes)),
    ensures
        after.has(name_of(p)),
        after.content(name_of(p)) == bytes,
{
    let n = before.view().len() as int;
    assert(after.view()[n].0 == name_of(p));
    let w = choose|i: int|
        0 <= i < after.view().len() && (#[trigger] after.view()[i]).0 == name_of(p);
    if w != n {
        assert(after.view()[w] == before.view()[w]);
        assert(before.has(name_of(p)));
    }
}

} // verus!
