//! A column: a sequence of frozen chunks followed by one mutable chunk.
use std::sync::Arc;
use vstd::prelude::*;

use crate::arrow_store::ColumnKind;
use crate::chunk::{cells_of, Append, AppendableType, ChunkWriter, ColumnArray, ColumnBuilder, FrozenChunk, MutableChunk, Run};
use crate::units::{VersionID, CHUNK_SIZE};

verus! {

/// A write was given values of another type than the column holds.
#[derive(Debug)]
pub struct InvalidDowncast;

/// Where a column takes the version identifier of each chunk it creates.
pub trait VersionSource: Sized {
    /// The identifier the next call of `next_version` returns.
    spec fn spec_next(&self) -> VersionID;

    /// The source after that call.
    spec fn spec_advance(&self) -> Self;

    fn next_version(&mut self) -> (r: VersionID)
        ensures
            r == old(self).spec_next(),
            *final(self) == old(self).spec_advance(),
    ;
}

/// The source after `count` calls of `next_version`.
pub open spec fn advanced_by<G: VersionSource>(source: G, count: nat) -> G
    decreases count,
{
    if count == 0 {
        source
    } else {
        advanced_by(source, (count - 1) as nat).spec_advance()
    }
}

/// The identifiers the first `count` calls of `next_version` return, in order.
pub open spec fn versions_from<G: VersionSource>(source: G, count: nat) -> Seq<VersionID>
    decreases count,
{
    if count == 0 {
        Seq::empty()
    } else {
        versions_from(source, (count - 1) as nat).push(
            advanced_by(source, (count - 1) as nat).spec_next(),
        )
    }
}

/// Gives every chunk the same version identifier.
pub struct FixedVersion {
    pub version: VersionID,
}

impl VersionSource for FixedVersion {
    open spec fn spec_next(&self) -> VersionID {
        self.version
    }

    open spec fn spec_advance(&self) -> Self {
        *self
    }

    fn next_version(&mut self) -> (r: VersionID) {
        self.version
    }
}

/// Gives chunks the identifiers `next`, `next + 1`, ..., wrapping after `u64::MAX`.
pub struct SequentialVersions {
    pub next: u64,
}

impl VersionSource for SequentialVersions {
    open spec fn spec_next(&self) -> VersionID {
        VersionID::spec_new(self.next)
    }

    open spec fn spec_advance(&self) -> Self {
        SequentialVersions {
            next: if self.next == u64::MAX {
                0
            } else {
                (self.next + 1) as u64
            },
        }
    }

    fn next_version(&mut self) -> (r: VersionID) {
        let r = VersionID::new(self.next);
        self.next = if self.next == u64::MAX {
            0
        } else {
            self.next + 1
        };
        r
    }
}

/// Every frozen chunk holds `CHUNK_SIZE` cells of the given kind: chunk `i`
/// holds cells `i * CHUNK_SIZE` up to the next chunk.
pub open spec fn frozen_chunks_hold(
    frozen: Seq<Arc<FrozenChunk>>,
    cells: Seq<Option<int>>,
    kind: ColumnKind,
) -> bool {
    forall|i: int|
        0 <= i < frozen.len() ==> {
            let array = (#[trigger] frozen[i]).spec_array();
            &&& array.wf()
            &&& array.kind() == kind
            &&& array.cells() == cells.subrange(i * CHUNK_SIZE, i * CHUNK_SIZE + CHUNK_SIZE)
        }
}

/// The version identifiers of the given frozen chunks followed by `tail`.
pub open spec fn ids_of(frozen: Seq<Arc<FrozenChunk>>, tail: VersionID) -> Seq<VersionID> {
    Seq::new(frozen.len(), |i: int| frozen[i].chunk_id()).push(tail)
}

/// A single typed column.
///
/// Values are written into the mutable tail chunk; when it reaches
/// `CHUNK_SIZE` values it is frozen, appended to the frozen chunks, and a new
/// tail with the next version identifier takes its place.
pub struct Column<G> {
    frozen: Vec<Arc<FrozenChunk>>,
    tail: Option<MutableChunk>,
    next_version: G,
    cells: Ghost<Seq<Option<int>>>,
}

impl<G: VersionSource> Column<G> {
    /// Every cell written to the column, in order.
    pub closed spec fn spec_cells(&self) -> Seq<Option<int>> {
        self.cells@
    }

    /// The element type of the column.
    pub closed spec fn spec_kind(&self) -> ColumnKind {
        self.tail.unwrap().spec_kind()
    }

    pub closed spec fn spec_frozen_count(&self) -> nat {
        self.frozen@.len()
    }

    /// The frozen chunk at position `i`, counted from the oldest.
    pub closed spec fn spec_frozen(&self, i: int) -> FrozenChunk {
        *self.frozen@[i]
    }

    pub closed spec fn spec_tail(&self) -> MutableChunk {
        self.tail.unwrap()
    }

    /// The version source, as it stands after the identifiers handed out so far.
    pub closed spec fn spec_source(&self) -> G {
        self.next_version
    }

    /// The version identifiers of the frozen chunks, oldest first, followed by
    /// that of the mutable tail.
    pub closed spec fn chunk_ids(&self) -> Seq<VersionID> {
        ids_of(self.frozen@, self.tail.unwrap().chunk_id())
    }

    pub closed spec fn wf(&self) -> bool {
        let cells = self.cells@;
        let k = self.frozen@.len();
        let tail = self.tail.unwrap();
        &&& self.tail is Some
        &&& tail.wf()
        &&& frozen_chunks_hold(self.frozen@, cells, tail.spec_kind())
        &&& cells.len() == k * CHUNK_SIZE + tail.cells().len()
        &&& tail.cells() == cells.subrange(k * CHUNK_SIZE, cells.len() as int)
        &&& tail.cells().len() < CHUNK_SIZE
    }

    /// `self` is `before` with `cells` written: the new cells follow the old
    /// ones, the chunks frozen before are unchanged, and the chunks created
    /// since took their identifiers from the version source in order.
    pub open spec fn extends(&self, before: &Self, cells: Seq<Option<int>>) -> bool {
        let created = (self.spec_frozen_count() - before.spec_frozen_count()) as nat;
        &&& self.spec_kind() == before.spec_kind()
        &&& self.spec_cells() == before.spec_cells() + cells
        &&& before.spec_frozen_count() <= self.spec_frozen_count()
        &&& forall|i: int|
            0 <= i < before.spec_frozen_count() ==> #[trigger] self.spec_frozen(i)
                == before.spec_frozen(i)
        &&& self.chunk_ids() == before.chunk_ids() + versions_from(before.spec_source(), created)
        &&& self.spec_source() == advanced_by(before.spec_source(), created)
    }

    /// The shape of a well-formed column is fixed by its cells: `len / CHUNK_SIZE`
    /// frozen chunks of `CHUNK_SIZE` cells each, then a tail with the
    /// remaining `len % CHUNK_SIZE` cells.
    pub proof fn lemma_layout(&self)
        requires
            self.wf(),
        ensures
            ({
                let cells = self.spec_cells();
                let k = self.spec_frozen_count();
                &&& k == cells.len() / (CHUNK_SIZE as nat)
                &&& self.spec_tail().cells().len() == cells.len() % (CHUNK_SIZE as nat)
                &&& self.spec_tail().cells() == cells.subrange(k * CHUNK_SIZE, cells.len() as int)
                &&& forall|i: int|
                    0 <= i < k ==> (#[trigger] self.spec_frozen(i)).spec_array().cells()
                        == cells.subrange(i * CHUNK_SIZE, i * CHUNK_SIZE + CHUNK_SIZE)
            }),
    {
        let k = self.frozen@.len() as int;
        let t = self.tail.unwrap().cells().len() as int;
        assert((k * 65536 + t) / 65536 == k && (k * 65536 + t) % 65536 == t) by (nonlinear_arith)
            requires
                0 <= k,
                0 <= t < 65536,
        ;
        assert forall|i: int| 0 <= i < k implies (#[trigger] self.spec_frozen(i)).spec_array().cells()
            == self.cells@.subrange(i * CHUNK_SIZE, i * CHUNK_SIZE + CHUNK_SIZE) by {
            assert(self.spec_frozen(i) == *self.frozen@[i]);
        }
    }

    /// A column holding the cells of `builder`, whose chunk takes the first
    /// identifier of `next_version`.
    pub fn new(next_version: G, builder: ColumnBuilder) -> (r: Self)
        requires
            builder.wf(),
            builder.cells().len() < CHUNK_SIZE,
        ensures
            r.wf(),
            r.spec_kind() == builder.kind(),
            r.spec_cells() == builder.cells(),
            r.spec_frozen_count() == 0,
            r.chunk_ids() == seq![next_version.spec_next()],
            r.spec_source() == next_version.spec_advance(),
    {
        let mut next_version = next_version;
        let chunk_id = next_version.next_version();
        let r = Column {
            frozen: Vec::new(),
            tail: Some(MutableChunk::new(builder, chunk_id)),
            next_version,
            cells: Ghost(builder.cells()),
        };
        assert(r.cells@.subrange(0, r.cells@.len() as int) =~= r.cells@);
        assert(r.chunk_ids() =~= seq![chunk_id]);
        r
    }

    /// The element type of the column.
    pub fn kind(&self) -> (k: ColumnKind)
        requires
            self.wf(),
        ensures
            k == self.spec_kind(),
    {
        self.tail.as_ref().unwrap().kind()
    }

    /// Returns the oldest frozen chunk, or `None` if no chunk has been frozen.
    pub fn read_frozen(&self) -> (r: Option<Arc<FrozenChunk>>)
        ensures
            match r {
                Some(chunk) => self.spec_frozen_count() > 0 && *chunk == self.spec_frozen(0),
                None => self.spec_frozen_count() == 0,
            },
    {
        if self.frozen.len() == 0 {
            None
        } else {
            Some(self.frozen[0].clone())
        }
    }

    /// Returns the frozen chunk at position `index`, counted from the oldest.
    pub fn read_frozen_at(&self, index: usize) -> (r: Option<Arc<FrozenChunk>>)
        ensures
            match r {
                Some(chunk) => index < self.spec_frozen_count() && *chunk == self.spec_frozen(
                    index as int,
                ),
                None => index >= self.spec_frozen_count(),
            },
    {
        if index < self.frozen.len() {
            Some(self.frozen[index].clone())
        } else {
            None
        }
    }

    /// The number of frozen chunks.
    pub fn frozen_count(&self) -> (r: usize)
        ensures
            r == self.spec_frozen_count(),
    {
        self.frozen.len()
    }

    /// Returns a point-in-time snapshot of the mutable tail.
    pub fn read_mutable(&self) -> (r: Option<ColumnArray>)
        requires
            self.wf(),
        ensures
            match r {
                Some(array) => {
                    &&& array.wf()
                    &&& array.kind() == self.spec_kind()
                    &&& array.cells() == self.spec_tail().cells()
                },
                None => false,
            },
    {
        match &self.tail {
            Some(tail) => Some(tail.get_snapshot()),
            None => None,
        }
    }

    fn publish_frozen_chunk(&mut self, array: ColumnArray, chunk_id: VersionID)
        ensures
            final(self).frozen@ == old(self).frozen@.push(Arc::new(FrozenChunk::spec_new(array, chunk_id))),
            final(self).tail == old(self).tail,
            final(self).next_version == old(self).next_version,
            final(self).cells == old(self).cells,
    {
        let current: Arc<FrozenChunk> = Arc::new(FrozenChunk::new(array, chunk_id));
        self.frozen.push(current);
    }
}

/// The cells of a prefix split at any point into the cells of the pieces.
proof fn lemma_cells_of_split<V: AppendableType>(s: Seq<V>, a: int, b: int)
    requires
        0 <= a <= b <= s.len(),
    ensures
        cells_of(s.subrange(0, b)) == cells_of(s.subrange(0, a)) + cells_of(s.subrange(a, b)),
{
    assert(cells_of(s.subrange(0, b)) =~= cells_of(s.subrange(0, a)) + cells_of(s.subrange(a, b)));
}

/// The cells `before` followed by those of the first `count` values of `values`.
pub open spec fn cells_after<V: AppendableType>(
    before: Seq<Option<int>>,
    values: Seq<V>,
    count: int,
) -> Seq<Option<int>> {
    before + cells_of(values.subrange(0, count))
}

impl<G: VersionSource> Column<G> {
    /// Appending cells after the frozen chunks leaves what they hold unchanged.
    proof fn lemma_frozen_prefix(
        frozen: Seq<Arc<FrozenChunk>>,
        all_old: Seq<Option<int>>,
        added: Seq<Option<int>>,
        kind: ColumnKind,
    )
        requires
            frozen_chunks_hold(frozen, all_old, kind),
            all_old.len() >= frozen.len() * CHUNK_SIZE,
        ensures
            frozen_chunks_hold(frozen, all_old + added, kind),
    {
        let all = all_old + added;
        let k = frozen.len() as int;
        assert forall|i: int| 0 <= i < k implies {
            let array = (#[trigger] frozen[i]).spec_array();
            &&& array.wf()
            &&& array.kind() == kind
            &&& array.cells() == all.subrange(i * CHUNK_SIZE, i * CHUNK_SIZE + CHUNK_SIZE)
        } by {
            assert(i * CHUNK_SIZE + CHUNK_SIZE <= k * CHUNK_SIZE) by (nonlinear_arith)
                requires
                    i < k,
            ;
            assert(all.subrange(i * CHUNK_SIZE, i * CHUNK_SIZE + CHUNK_SIZE) =~= all_old.subrange(
                i * CHUNK_SIZE,
                i * CHUNK_SIZE + CHUNK_SIZE,
            ));
        }
    }

    /// Writes `values` to the column, a slice at a time: each piece that fits
    /// in the mutable chunk is appended at once, and a chunk that fills is
    /// frozen; `Err` if the column holds values of another type, in which case
    /// it is left unchanged.
    pub fn write_values<V: Append>(&mut self, values: &[V]) -> (r: Result<(), InvalidDowncast>)
        requires
            old(self).wf(),
        ensures
            final(self).wf(),
            match r {
                Ok(()) => {
                    &&& old(self).spec_kind() == V::kind()
                    &&& final(self).extends(&*old(self), cells_of(values@))
                },
                Err(_) => old(self).spec_kind() != V::kind() && *final(self) == *old(self),
            },
    {
        let ghost before = *self;
        let ghost g0 = self.next_version;
        let ghost k0 = self.frozen@.len();
        let ghost ids0 = self.chunk_ids();
        let ghost cells0 = self.cells@;
        let ghost frozen0 = self.frozen@;
        let ghost vals = values@;
        let ghost kind = self.spec_kind();
        let tail = self.tail.take().expect("the column always owns its mutable tail");
        let mut writer: ChunkWriter<V> = match tail.builder::<V>() {
            Ok(res) => res,
            Err(err) => {
                self.tail = Some(err);
                return Err(InvalidDowncast);
            },
        };
        let mut values = values;
        let ghost mut consumed: int = 0;
        let mut done = false;
        while !done && values.len() > 0
            invariant
                0 <= consumed <= vals.len(),
                done ==> consumed == vals.len(),
                !done ==> values@ == vals.subrange(consumed, vals.len() as int),
                self.tail is None,
                writer.wf(),
                kind == V::kind(),
                frozen_chunks_hold(self.frozen@, cells_after(cells0, vals, consumed), kind),
                cells_after(cells0, vals, consumed).len() == self.frozen@.len() * CHUNK_SIZE
                    + writer.cells().len(),
                writer.cells() == cells_after(cells0, vals, consumed).subrange(
                    self.frozen@.len() * CHUNK_SIZE,
                    cells_after(cells0, vals, consumed).len() as int,
                ),
                writer.cells().len() < CHUNK_SIZE,
                k0 <= self.frozen@.len(),
                frozen0.len() == k0,
                forall|i: int| 0 <= i < k0 ==> #[trigger] self.frozen@[i] == frozen0[i],
                ids_of(self.frozen@, writer.chunk_id()) == ids0 + versions_from(
                    g0,
                    (self.frozen@.len() - k0) as nat,
                ),
                self.next_version == advanced_by(g0, (self.frozen@.len() - k0) as nat),
            decreases values@.len() + if done {
                0int
            } else {
                1int
            },
        {
            let ghost all_old = cells0 + cells_of(vals.subrange(0, consumed));
            let ghost k = self.frozen@.len();
            let ghost old_writer_cells = writer.cells();
            let ghost old_id = writer.chunk_id();
            let ghost old_values = values@;
            let ghost frozen_start = self.frozen@;
            match writer.append_values(values) {
                Ok(res) => {
                    writer = res;
                    proof {
                        lemma_cells_of_split(vals, consumed, vals.len() as int);
                        assert(old_values.subrange(0, old_values.len() as int) =~= old_values);
                        assert(cells_of(old_values.subrange(0, old_values.len() as int))
                            =~= cells_of(old_values));
                        let all = cells0 + cells_of(vals.subrange(0, vals.len() as int));
                        assert(all =~= all_old + cells_of(old_values));
                        assert(writer.cells() =~= all.subrange(k * CHUNK_SIZE, all.len() as int));
                        Self::lemma_frozen_prefix(self.frozen@, all_old, cells_of(old_values), kind);
                        consumed = vals.len() as int;
                    }
                    done = true;
                },
                Err((builder, chunk_id, remainder)) => {
                    let ghost written = old_values.len() - remainder@.len();
                    let mut builder = builder;
                    let ghost filled = builder.cells();
                    let array = builder.finish();
                    self.publish_frozen_chunk(array, chunk_id);
                    values = remainder;
                    let ghost g_before = self.next_version;
                    let next_id = self.next_version.next_version();
                    match MutableChunk::new(builder, next_id).builder::<V>() {
                        Ok(res) => writer = res,
                        Err(chunk) => {
                            proof {
                                assert(false);
                            }
                            self.tail = Some(chunk);
                            return Err(InvalidDowncast);
                        },
                    }
                    proof {
                        let added = cells_of(old_values.subrange(0, written));
                        assert(cells_of(old_values.subrange(0, written)) =~= added);
                        assert(filled == old_writer_cells + added);
                        assert(old_values.subrange(0, written) =~= vals.subrange(consumed, consumed + written));
                        lemma_cells_of_split(vals, consumed, consumed + written);
                        let all = cells0 + cells_of(vals.subrange(0, consumed + written));
                        assert(all =~= all_old + added);
                        Self::lemma_frozen_prefix(self.frozen@.drop_last(), all_old, added, kind);
                        assert(old_writer_cells + added =~= all.subrange(k * CHUNK_SIZE, k * CHUNK_SIZE + CHUNK_SIZE));
                        assert(self.frozen@.drop_last() =~= self.frozen@.subrange(0, k as int));
                        let new_chunk = self.frozen@[k as int];
                        assert(new_chunk == Arc::new(FrozenChunk::spec_new(array, chunk_id)));
                        FrozenChunk::lemma_spec_new(array, chunk_id);
                        assert forall|i: int| 0 <= i < k + 1 implies {
                            let a = (#[trigger] self.frozen@[i]).spec_array();
                            &&& a.wf()
                            &&& a.kind() == kind
                            &&& a.cells() == all.subrange(i * CHUNK_SIZE, i * CHUNK_SIZE + CHUNK_SIZE)
                        } by {
                            if i < k {
                                assert(self.frozen@[i] == self.frozen@.drop_last()[i]);
                            }
                        }
                        assert(writer.cells() =~= all.subrange((k + 1) * CHUNK_SIZE, all.len() as int));
                        assert(self.frozen@.drop_last() == frozen_start);
                        assert(ids_of(self.frozen@, writer.chunk_id()) =~= ids_of(
                            frozen_start,
                            old_id,
                        ).push(next_id));
                        assert(g_before == advanced_by(g0, (k - k0) as nat));
                        assert(versions_from(g0, (k + 1 - k0) as nat) == versions_from(
                            g0,
                            (k - k0) as nat,
                        ).push(next_id));
                        assert(ids0 + versions_from(g0, (k + 1 - k0) as nat) =~= (ids0 + versions_from(
                            g0,
                            (k - k0) as nat,
                        )).push(next_id));
                        consumed = consumed + written;
                        assert(values@ =~= vals.subrange(consumed, vals.len() as int));
                    }
                },
            }
        }
        proof {
            if !done {
                assert(vals.subrange(consumed, vals.len() as int).len() == 0);
            }
            assert(vals.subrange(0, consumed) =~= vals);
        }
        self.tail = Some(MutableChunk::from(writer));
        self.cells = Ghost(cells0 + cells_of(vals));
        proof {
            let k = self.frozen@.len();
            assert(self.chunk_ids() == ids_of(self.frozen@, writer.chunk_id()));
            assert(cells_of(vals) =~= cells_of(vals));
            assert forall|i: int| 0 <= i < before.spec_frozen_count() implies #[trigger] self.spec_frozen(i)
                == before.spec_frozen(i) by {
                assert(self.frozen@[i] == frozen0[i]);
            }
        }
        Ok(())
    }
}

impl<G: VersionSource> Column<G> {
    /// Writes `values` to the column, one value at a time; `Err` if the column
    /// holds values of another type, in which case it is left unchanged.
    pub fn write<V: Append>(&mut self, values: Vec<V>) -> (r: Result<(), InvalidDowncast>)
        requires
            old(self).wf(),
        ensures
            final(self).wf(),
            match r {
                Ok(()) => {
                    &&& old(self).spec_kind() == V::kind()
                    &&& final(self).extends(&*old(self), cells_of(values@))
                },
                Err(_) => old(self).spec_kind() != V::kind() && *final(self) == *old(self),
            },
    {
        let ghost before = *self;
        let ghost g0 = self.next_version;
        let ghost k0 = self.frozen@.len();
        let ghost ids0 = self.chunk_ids();
        let ghost cells0 = self.cells@;
        let ghost frozen0 = self.frozen@;
        let ghost vals = values@;
        let ghost kind = self.spec_kind();
        let tail = self.tail.take().expect("the column always owns its mutable tail");
        let mut writer: ChunkWriter<V> = match tail.builder::<V>() {
            Ok(res) => res,
            Err(err) => {
                self.tail = Some(err);
                return Err(InvalidDowncast);
            },
        };
        let ghost mut consumed: int = 0;
        proof {
            assert(cells_after(cells0, vals, 0) =~= cells0);
        }
        for value in it: values.into_iter()
            invariant
                vals == it.seq(),
                consumed == it.index(),
                0 <= consumed <= vals.len(),
                self.tail is None,
                writer.wf(),
                kind == V::kind(),
                frozen_chunks_hold(self.frozen@, cells_after(cells0, vals, consumed), kind),
                cells_after(cells0, vals, consumed).len() == self.frozen@.len() * CHUNK_SIZE
                    + writer.cells().len(),
                writer.cells() == cells_after(cells0, vals, consumed).subrange(
                    self.frozen@.len() * CHUNK_SIZE,
                    cells_after(cells0, vals, consumed).len() as int,
                ),
                writer.cells().len() < CHUNK_SIZE,
                k0 <= self.frozen@.len(),
                frozen0.len() == k0,
                forall|i: int| 0 <= i < k0 ==> #[trigger] self.frozen@[i] == frozen0[i],
                ids_of(self.frozen@, writer.chunk_id()) == ids0 + versions_from(
                    g0,
                    (self.frozen@.len() - k0) as nat,
                ),
                self.next_version == advanced_by(g0, (self.frozen@.len() - k0) as nat),
        {
            let ghost all_old = cells_after(cells0, vals, consumed);
            let ghost k = self.frozen@.len();
            let ghost old_writer_cells = writer.cells();
            let ghost old_id = writer.chunk_id();
            let ghost frozen_start = self.frozen@;
            proof {
                assert(vals.subrange(0, consumed + 1) =~= vals.subrange(0, consumed).push(value));
                assert(cells_after(cells0, vals, consumed + 1) =~= all_old.push(V::cell(value)));
            }
            match writer.append(value) {
                Ok(res) => {
                    writer = res;
                    proof {
                        let all = all_old.push(V::cell(value));
                        assert(writer.cells() =~= all.subrange(k * CHUNK_SIZE, all.len() as int));
                        Self::lemma_frozen_prefix(self.frozen@, all_old, seq![V::cell(value)], kind);
                        assert(all_old + seq![V::cell(value)] =~= all);
                    }
                },
                Err((builder, chunk_id)) => {
                    let mut builder = builder;
                    let array = builder.finish();
                    self.publish_frozen_chunk(array, chunk_id);
                    let ghost g_before = self.next_version;
                    let next_id = self.next_version.next_version();
                    match MutableChunk::new(builder, next_id).builder::<V>() {
                        Ok(res) => writer = res,
                        Err(chunk) => {
                            proof {
                                assert(false);
                            }
                            self.tail = Some(chunk);
                            return Err(InvalidDowncast);
                        },
                    }
                    proof {
                        let added = seq![V::cell(value)];
                        let all = all_old + added;
                        assert(all =~= all_old.push(V::cell(value)));
                        Self::lemma_frozen_prefix(frozen_start, all_old, added, kind);
                        assert(old_writer_cells + added =~= all.subrange(k * CHUNK_SIZE, k * CHUNK_SIZE + CHUNK_SIZE));
                        FrozenChunk::lemma_spec_new(array, chunk_id);
                        assert forall|i: int| 0 <= i < k + 1 implies {
                            let a = (#[trigger] self.frozen@[i]).spec_array();
                            &&& a.wf()
                            &&& a.kind() == kind
                            &&& a.cells() == all.subrange(i * CHUNK_SIZE, i * CHUNK_SIZE + CHUNK_SIZE)
                        } by {
                            if i < k {
                                assert(self.frozen@[i] == frozen_start[i]);
                            }
                        }
                        assert(writer.cells() =~= all.subrange((k + 1) * CHUNK_SIZE, all.len() as int));
                        assert(ids_of(self.frozen@, writer.chunk_id()) =~= ids_of(
                            frozen_start,
                            old_id,
                        ).push(next_id));
                        assert(versions_from(g0, (k + 1 - k0) as nat) == versions_from(
                            g0,
                            (k - k0) as nat,
                        ).push(next_id));
                        assert(ids0 + versions_from(g0, (k + 1 - k0) as nat) =~= (ids0 + versions_from(
                            g0,
                            (k - k0) as nat,
                        )).push(next_id));
                    }
                },
            }
            proof {
                consumed = consumed + 1;
            }
        }
        proof {
            assert(vals.subrange(0, consumed) =~= vals);
        }
        self.tail = Some(MutableChunk::from(writer));
        self.cells = Ghost(cells_after(cells0, vals, vals.len() as int));
        proof {
            assert(self.chunk_ids() == ids_of(self.frozen@, writer.chunk_id()));
            assert forall|i: int| 0 <= i < before.spec_frozen_count() implies #[trigger] self.spec_frozen(i)
                == before.spec_frozen(i) by {
                assert(self.frozen@[i] == frozen0[i]);
            }
        }
        Ok(())
    }
}

/// Handing out `m` identifiers and then `n` more is handing out `m + n`.
pub proof fn lemma_versions_concat<G: VersionSource>(source: G, m: nat, n: nat)
    ensures
        versions_from(source, m) + versions_from(advanced_by(source, m), n) == versions_from(
            source,
            m + n,
        ),
        advanced_by(advanced_by(source, m), n) == advanced_by(source, m + n),
    decreases n,
{
    if n == 0 {
        assert(versions_from(source, m) + versions_from(advanced_by(source, m), 0) =~= versions_from(
            source,
            m,
        ));
    } else {
        lemma_versions_concat(source, m, (n - 1) as nat);
        let a = versions_from(source, m);
        let b = versions_from(advanced_by(source, m), (n - 1) as nat);
        let x = advanced_by(advanced_by(source, m), (n - 1) as nat).spec_next();
        assert(a + b.push(x) =~= (a + b).push(x));
    }
}

impl<G: VersionSource> Column<G> {
    /// `self` is `before` with zero or more cells written after its own.
    pub open spec fn grows_from(&self, before: &Self) -> bool {
        &&& before.spec_cells().len() <= self.spec_cells().len()
        &&& self.extends(before, self.spec_cells().skip(before.spec_cells().len() as int))
    }

    /// A column has grown from itself.
    pub proof fn lemma_grows_reflexive(&self)
        ensures
            self.grows_from(self),
    {
        assert(self.spec_cells().skip(self.spec_cells().len() as int) =~= Seq::<Option<int>>::empty());
        assert(self.spec_cells() + Seq::<Option<int>>::empty() =~= self.spec_cells());
        assert(self.chunk_ids() + versions_from(self.spec_source(), 0) =~= self.chunk_ids());
    }

    /// A column that was extended by `cells` has grown.
    pub proof fn lemma_extends_grows(&self, before: &Self, cells: Seq<Option<int>>)
        requires
            self.extends(before, cells),
        ensures
            self.grows_from(before),
    {
        assert(self.spec_cells().skip(before.spec_cells().len() as int) =~= cells);
    }

    /// Growth composes: what grew from what grew from `a` grew from `a`.
    pub proof fn lemma_grows_transitive(a: &Self, b: &Self, c: &Self)
        requires
            b.grows_from(a),
            c.grows_from(b),
        ensures
            c.grows_from(a),
    {
        let m = (b.spec_frozen_count() - a.spec_frozen_count()) as nat;
        let n = (c.spec_frozen_count() - b.spec_frozen_count()) as nat;
        lemma_versions_concat(a.spec_source(), m, n);
        assert(m + n == (c.spec_frozen_count() - a.spec_frozen_count()) as nat);
        let x = b.spec_cells().skip(a.spec_cells().len() as int);
        let y = c.spec_cells().skip(b.spec_cells().len() as int);
        assert(c.spec_cells().skip(a.spec_cells().len() as int) =~= x + y);
        assert(a.spec_cells() + (x + y) =~= a.spec_cells() + x + y);
        assert(a.chunk_ids() + versions_from(a.spec_source(), m) + versions_from(
            advanced_by(a.spec_source(), m),
            n,
        ) =~= a.chunk_ids() + (versions_from(a.spec_source(), m) + versions_from(
            advanced_by(a.spec_source(), m),
            n,
        )));
        assert forall|i: int| 0 <= i < a.spec_frozen_count() implies #[trigger] c.spec_frozen(i)
            == a.spec_frozen(i) by {
            assert(c.spec_frozen(i) == b.spec_frozen(i));
        }
    }
}

impl<G: VersionSource> Column<G> {
    /// Where a cell lands depends only on its position: two well-formed
    /// columns with the same cells have the same number of frozen chunks,
    /// frozen chunks with the same cells, and tails with the same cells.
    pub proof fn lemma_layout_determined(a: &Self, b: &Self)
        requires
            a.wf(),
            b.wf(),
            a.spec_cells() == b.spec_cells(),
        ensures
            a.spec_frozen_count() == b.spec_frozen_count(),
            forall|i: int|
                0 <= i < a.spec_frozen_count() ==> (#[trigger] a.spec_frozen(i)).spec_array().cells()
                    == b.spec_frozen(i).spec_array().cells(),
            a.spec_tail().cells() == b.spec_tail().cells(),
    {
        a.lemma_layout();
        b.lemma_layout();
        assert forall|i: int| 0 <= i < a.spec_frozen_count() implies (#[trigger] a.spec_frozen(
            i,
        )).spec_array().cells() == b.spec_frozen(i).spec_array().cells() by {
            assert(b.spec_frozen(i).spec_array().cells() == b.spec_cells().subrange(
                i * CHUNK_SIZE,
                i * CHUNK_SIZE + CHUNK_SIZE,
            ));
        }
    }

    /// Two writes of the same cells to columns that agree (the same cells,
    /// element type, chunk identifiers and version source), such as `write`
    /// and `write_values` of the same values, leave columns that agree again:
    /// the same cells, chunk layout, chunk identifiers and version source.
    pub proof fn lemma_writes_agree(a: &Self, b: &Self, x: &Self, y: &Self, cells: Seq<Option<int>>)
        requires
            a.wf(),
            b.wf(),
            x.wf(),
            y.wf(),
            a.spec_cells() == b.spec_cells(),
            a.spec_kind() == b.spec_kind(),
            a.chunk_ids() == b.chunk_ids(),
            a.spec_source() == b.spec_source(),
            x.extends(a, cells),
            y.extends(b, cells),
        ensures
            x.spec_cells() == y.spec_cells(),
            x.spec_kind() == y.spec_kind(),
            x.spec_frozen_count() == y.spec_frozen_count(),
            forall|i: int|
                0 <= i < x.spec_frozen_count() ==> (#[trigger] x.spec_frozen(i)).spec_array().cells()
                    == y.spec_frozen(i).spec_array().cells(),
            x.spec_tail().cells() == y.spec_tail().cells(),
            x.chunk_ids() == y.chunk_ids(),
            x.spec_source() == y.spec_source(),
    {
        Self::lemma_layout_determined(a, b);
        Self::lemma_layout_determined(x, y);
    }
}

impl<G: VersionSource> Column<G> {
    /// Writing `x` and then `y` extends the column by `x + y`: with
    /// `lemma_writes_agree`, a run of values written in one call or in
    /// several leaves the same column.
    pub proof fn lemma_extends_compose(
        a: &Self,
        b: &Self,
        c: &Self,
        x: Seq<Option<int>>,
        y: Seq<Option<int>>,
    )
        requires
            b.extends(a, x),
            c.extends(b, y),
        ensures
            c.extends(a, x + y),
    {
        let m = (b.spec_frozen_count() - a.spec_frozen_count()) as nat;
        let n = (c.spec_frozen_count() - b.spec_frozen_count()) as nat;
        lemma_versions_concat(a.spec_source(), m, n);
        assert(m + n == (c.spec_frozen_count() - a.spec_frozen_count()) as nat);
        assert(a.spec_cells() + (x + y) =~= a.spec_cells() + x + y);
        assert(a.chunk_ids() + versions_from(a.spec_source(), m) + versions_from(
            advanced_by(a.spec_source(), m),
            n,
        ) =~= a.chunk_ids() + (versions_from(a.spec_source(), m) + versions_from(
            advanced_by(a.spec_source(), m),
            n,
        )));
        assert forall|i: int| 0 <= i < a.spec_frozen_count() implies #[trigger] c.spec_frozen(i)
            == a.spec_frozen(i) by {
            assert(c.spec_frozen(i) == b.spec_frozen(i));
        }
    }
}

/// The identifiers of `count` calls are the identifier of each call in turn:
/// call `i` returns what the source, advanced `i` times, hands out next.
pub proof fn lemma_versions_from_index<G: VersionSource>(source: G, count: nat)
    ensures
        versions_from(source, count).len() == count,
        forall|i: int|
            0 <= i < count ==> #[trigger] versions_from(source, count)[i] == advanced_by(
                source,
                i as nat,
            ).spec_next(),
    decreases count,
{
    if count > 0 {
        lemma_versions_from_index(source, (count - 1) as nat);
    }
}

/// A sequential source advanced `count` times hands out `next + count`,
/// wrapping after `u64::MAX`.
pub proof fn lemma_sequential_advanced(source: SequentialVersions, count: nat)
    ensures
        advanced_by(source, count).next == (source.next + count) % 0x1_0000_0000_0000_0000,
    decreases count,
{
    if count > 0 {
        lemma_sequential_advanced(source, (count - 1) as nat);
    }
}

/// The identifiers of `count` calls of a sequential source are `next`,
/// `next + 1`, ..., wrapping after `u64::MAX`.
pub proof fn lemma_sequential_versions(source: SequentialVersions, count: nat)
    ensures
        versions_from(source, count).len() == count,
        forall|i: int|
            0 <= i < count ==> #[trigger] versions_from(source, count)[i] == VersionID::spec_new(
                ((source.next + i) % 0x1_0000_0000_0000_0000) as u64,
            ),
{
    lemma_versions_from_index(source, count);
    assert forall|i: int| 0 <= i < count implies #[trigger] versions_from(source, count)[i]
        == VersionID::spec_new(((source.next + i) % 0x1_0000_0000_0000_0000) as u64) by {
        lemma_sequential_advanced(source, i as nat);
    }
}

impl<G: VersionSource> Column<G> {
    /// What the chunks of a well-formed column carry: frozen chunk `i` has
    /// identifier `chunk_ids()[i]` and a well-formed array of the column's
    /// element type; the mutable tail has the last identifier and the
    /// column's element type.
    pub proof fn lemma_chunks(&self)
        requires
            self.wf(),
        ensures
            self.chunk_ids().len() == self.spec_frozen_count() + 1,
            forall|i: int|
                0 <= i < self.spec_frozen_count() ==> {
                    &&& (#[trigger] self.spec_frozen(i)).chunk_id() == self.chunk_ids()[i]
                    &&& self.spec_frozen(i).spec_array().wf()
                    &&& self.spec_frozen(i).spec_array().kind() == self.spec_kind()
                },
            self.spec_tail().chunk_id() == self.chunk_ids().last(),
            self.spec_tail().wf(),
            self.spec_tail().spec_kind() == self.spec_kind(),
    {
        assert forall|i: int| 0 <= i < self.spec_frozen_count() implies {
            &&& (#[trigger] self.spec_frozen(i)).chunk_id() == self.chunk_ids()[i]
            &&& self.spec_frozen(i).spec_array().wf()
            &&& self.spec_frozen(i).spec_array().kind() == self.spec_kind()
        } by {
            assert(self.spec_frozen(i) == *self.frozen@[i]);
        }
    }
}

impl<G: VersionSource> Column<G> {
    /// Writes the values of `run`, in order; `Err` if the column holds values
    /// of another type, in which case it is left unchanged.
    pub fn write_run(&mut self, run: Run) -> (r: Result<(), InvalidDowncast>)
        requires
            old(self).wf(),
        ensures
            final(self).wf(),
            match r {
                Ok(()) => {
                    &&& old(self).spec_kind() == run.kind()
                    &&& final(self).extends(&*old(self), run.cells())
                },
                Err(_) => old(self).spec_kind() != run.kind() && *final(self) == *old(self),
            },
    {
        match run {
            Run::Boolean(values) => self.write::<bool>(values),
            Run::NullableBoolean(values) => self.write::<Option<bool>>(values),
            Run::Int8(values) => self.write::<i8>(values),
            Run::NullableInt8(values) => self.write::<Option<i8>>(values),
            Run::Int16(values) => self.write::<i16>(values),
            Run::NullableInt16(values) => self.write::<Option<i16>>(values),
            Run::Int32(values) => self.write::<i32>(values),
            Run::NullableInt32(values) => self.write::<Option<i32>>(values),
            Run::Int64(values) => self.write::<i64>(values),
            Run::NullableInt64(values) => self.write::<Option<i64>>(values),
            Run::UInt8(values) => self.write::<u8>(values),
            Run::NullableUInt8(values) => self.write::<Option<u8>>(values),
            Run::UInt16(values) => self.write::<u16>(values),
            Run::NullableUInt16(values) => self.write::<Option<u16>>(values),
            Run::UInt32(values) => self.write::<u32>(values),
            Run::NullableUInt32(values) => self.write::<Option<u32>>(values),
            Run::UInt64(values) => self.write::<u64>(values),
            Run::NullableUInt64(values) => self.write::<Option<u64>>(values),
        }
    }

    /// Extending a column by no cells leaves it as it is.
    pub proof fn lemma_extends_empty(&self)
        ensures
            self.extends(self, Seq::<Option<int>>::empty()),
    {
        assert(self.spec_cells() + Seq::<Option<int>>::empty() =~= self.spec_cells());
        assert(self.chunk_ids() + versions_from(self.spec_source(), 0) =~= self.chunk_ids());
    }
}

/// A fixed source hands out its one identifier on every call: however often
/// it has been called, the next identifier is the one it was made with, and
/// so is every identifier of a run of calls.
pub proof fn lemma_fixed_versions(source: FixedVersion, count: nat)
    ensures
        advanced_by(source, count) == source,
        advanced_by(source, count).spec_next() == source.version,
        versions_from(source, count).len() == count,
        forall|i: int| 0 <= i < count ==> #[trigger] versions_from(source, count)[i] == source.version,
    decreases count,
{
    if count > 0 {
        lemma_fixed_versions(source, (count - 1) as nat);
    }
}

/// Every chunk of `column`, frozen or not, carries `version`, and its source
/// hands out `version` alone.
pub open spec fn all_chunks_versioned(column: Column<FixedVersion>, version: VersionID) -> bool {
    &&& column.spec_source() == FixedVersion { version }
    &&& forall|i: int| 0 <= i < column.chunk_ids().len() ==> #[trigger] column.chunk_ids()[i] == version
}

/// Writing to a column whose chunks all carry one version, from a fixed
/// source of that version, keeps every chunk at that version.
pub proof fn lemma_fixed_extends(
    before: Column<FixedVersion>,
    after: Column<FixedVersion>,
    cells: Seq<Option<int>>,
    version: VersionID,
)
    requires
        all_chunks_versioned(before, version),
        after.extends(&before, cells),
    ensures
        all_chunks_versioned(after, version),
{
    let created = (after.spec_frozen_count() - before.spec_frozen_count()) as nat;
    lemma_fixed_versions(before.spec_source(), created);
    let ids = before.chunk_ids() + versions_from(before.spec_source(), created);
    assert forall|i: int| 0 <= i < after.chunk_ids().len() implies #[trigger] after.chunk_ids()[i]
        == version by {
        assert(after.chunk_ids()[i] == ids[i]);
        if i >= before.chunk_ids().len() {
            assert(ids[i] == versions_from(before.spec_source(), created)[i - before.chunk_ids().len()]);
        }
    }
}

} // verus!
