//! Per-row metadata, stored in fixed-size chunks that are frozen once full.
use std::sync::Arc;
use vstd::prelude::*;

use crate::units::{LogicalOffset, LogicalSize, CHUNK_SIZE};

verus! {

/// Per-row metadata stored by [`RowState`].
///
/// `is_alive` describes whether the row itself currently exists from the
/// storage engine's perspective. Other metadata, such as permissions or
/// flags, can be added to concrete implementations without changing the
/// row-state storage model.
pub trait RowMetadata: Send + Sync + 'static {
    fn is_alive(&self) -> bool;
}

/// A frozen chunk of row metadata: exactly `CHUNK_SIZE` rows, never changed again.
pub struct RowStateChunk<M> {
    rows: Vec<M>,
}

impl<M> RowStateChunk<M> {
    /// The rows of this chunk, in insertion order.
    pub closed spec fn spec_rows(&self) -> Seq<M> {
        self.rows@
    }

    pub fn rows(&self) -> (r: &[M])
        ensures
            r@ == self.spec_rows(),
    {
        self.rows.as_slice()
    }
}

/// The chunk that is currently being filled.
///
/// It holds at most `CHUNK_SIZE` rows; `current` is the number of rows written.
pub struct MutableRowStateChunk<M> {
    current: LogicalOffset,
    rows: Vec<M>,
}

/// `after` is `before` followed by `count` rows, each a value that `generator` can return.
pub open spec fn rows_appended<M, F: Fn() -> M>(
    before: Seq<M>,
    after: Seq<M>,
    count: int,
    generator: &F,
) -> bool {
    &&& after.len() == before.len() + count
    &&& after.subrange(0, before.len() as int) == before
    &&& forall|i: int| before.len() <= i < after.len() ==> generator.ensures((), #[trigger] after[i])
}

impl<M> MutableRowStateChunk<M> {
    pub closed spec fn spec_rows(&self) -> Seq<M> {
        self.rows@
    }

    pub closed spec fn wf(&self) -> bool {
        &&& self.current.get() == self.rows@.len()
        &&& self.rows@.len() <= CHUNK_SIZE
    }

    /// The number of rows written to this chunk so far.
    pub fn current(&self) -> (r: LogicalOffset)
        requires
            self.wf(),
        ensures
            r.get() == self.spec_rows().len(),
    {
        self.current
    }

    pub fn rows(&self) -> (r: &[M])
        ensures
            r@ == self.spec_rows(),
    {
        self.rows.as_slice()
    }

    /// Fills the chunk with up to `n` rows produced by `generator`.
    ///
    /// If all `n` rows fit, the chunk is returned. Otherwise the chunk is filled
    /// up to `CHUNK_SIZE` rows, and its rows are returned together with the
    /// number of rows that did not fit.
    pub fn insert_n<F: Fn() -> M>(self, generator: &F, n: LogicalSize) -> (r: Result<
        Self,
        (Vec<M>, LogicalSize),
    >)
        requires
            self.wf(),
            forall|| #[trigger] generator.requires(()),
        ensures
            ({
                let before = self.spec_rows();
                let room = CHUNK_SIZE - before.len();
                match r {
                    Ok(chunk) => {
                        &&& n.get() <= room
                        &&& chunk.wf()
                        &&& rows_appended(before, chunk.spec_rows(), n.get() as int, generator)
                    },
                    Err((rows, remainder)) => {
                        &&& n.get() > room
                        &&& rows@.len() == CHUNK_SIZE
                        &&& rows_appended(before, rows@, room, generator)
                        &&& remainder.get() == n.get() - room
                    },
                }
            }),
    {
        let mut chunk = self;
        let ghost before = chunk.rows@;
        let room: u64 = CHUNK_SIZE - chunk.current.get();
        let iteration: u64 = if n.get() <= room {
            n.get()
        } else {
            room
        };
        let mut index: u64 = 0;
        while index < iteration
            invariant
                index <= iteration,
                iteration <= room,
                room == CHUNK_SIZE - before.len(),
                chunk.current.get() == before.len(),
                before.len() <= CHUNK_SIZE,
                chunk.rows@.len() == before.len() + index,
                chunk.rows@.subrange(0, before.len() as int) == before,
                forall|i: int|
                    before.len() <= i < chunk.rows@.len() ==> generator.ensures(
                        (),
                        #[trigger] chunk.rows@[i],
                    ),
                forall|| #[trigger] generator.requires(()),
            decreases iteration - index,
        {
            let value = generator();
            chunk.rows.push(value);
            index = index + 1;
            assert(chunk.rows@.subrange(0, before.len() as int) =~= before);
        }
        chunk.current = LogicalOffset::new(iteration) + chunk.current;
        if iteration == n.get() {
            Ok(chunk)
        } else {
            Err((chunk.rows, LogicalSize::new(n.get() - iteration)))
        }
    }
}

/// The metadata of every row of a table, in insertion order.
///
/// Rows are written into a mutable chunk of at most `CHUNK_SIZE` rows. A full
/// chunk is frozen, and a fresh one started, only when another row arrives:
/// so every frozen chunk holds exactly `CHUNK_SIZE` rows, and once any chunk is
/// frozen the mutable chunk is never empty.
pub struct RowState<M: RowMetadata> {
    chunks: Vec<Arc<RowStateChunk<M>>>,
    writer: MutableRowStateChunk<M>,
    all_rows: Ghost<Seq<M>>,
}

impl<M: RowMetadata> RowState<M> {
    /// Every row's metadata, in insertion order.
    pub closed spec fn spec_rows(&self) -> Seq<M> {
        self.all_rows@
    }

    /// The number of frozen chunks.
    pub closed spec fn spec_chunk_count(&self) -> nat {
        self.chunks@.len()
    }

    /// The rows of the frozen chunk at position `i`.
    pub closed spec fn spec_chunk(&self, i: int) -> Seq<M> {
        self.chunks@[i].spec_rows()
    }

    /// The rows held by the mutable chunk.
    pub closed spec fn spec_writer_rows(&self) -> Seq<M> {
        self.writer.spec_rows()
    }

    /// The frozen chunks and the mutable chunk cut the rows into consecutive
    /// pieces, each frozen chunk exactly `CHUNK_SIZE` rows long.
    closed spec fn layout_ok(&self) -> bool {
        let all = self.all_rows@;
        let k = self.chunks@.len();
        &&& self.writer.wf()
        &&& all.len() == k * CHUNK_SIZE + self.writer.spec_rows().len()
        &&& forall|i: int|
            0 <= i < k ==> (#[trigger] self.chunks@[i]).spec_rows() == all.subrange(
                i * CHUNK_SIZE,
                i * CHUNK_SIZE + CHUNK_SIZE,
            )
        &&& self.writer.spec_rows() == all.subrange(k * CHUNK_SIZE, all.len() as int)
    }

    pub closed spec fn wf(&self) -> bool {
        &&& self.layout_ok()
        &&& self.chunks@.len() > 0 ==> self.writer.spec_rows().len() > 0
    }

    /// The shape of a well-formed row state is fixed by its row count alone:
    /// frozen chunk `i` holds rows `i * CHUNK_SIZE ..` up to the next chunk, the
    /// mutable chunk holds the rest, and there are `(len - 1) / CHUNK_SIZE`
    /// frozen chunks (none for an empty state).
    pub proof fn lemma_layout(&self)
        requires
            self.wf(),
        ensures
            ({
                let all = self.spec_rows();
                let k = self.spec_chunk_count();
                &&& k == if all.len() == 0 {
                    0
                } else {
                    ((all.len() - 1) as nat) / (CHUNK_SIZE as nat)
                }
                &&& forall|i: int|
                    0 <= i < k ==> #[trigger] self.spec_chunk(i) == all.subrange(
                        i * CHUNK_SIZE,
                        i * CHUNK_SIZE + CHUNK_SIZE,
                    )
                &&& self.spec_writer_rows() == all.subrange(k * CHUNK_SIZE, all.len() as int)
                &&& self.spec_writer_rows().len() <= CHUNK_SIZE
            }),
    {
        let all = self.all_rows@;
        let k = self.chunks@.len() as int;
        let w = self.writer.spec_rows().len() as int;
        if all.len() > 0 {
            assert((k * 65536 + w - 1) / 65536 == k) by (nonlinear_arith)
                requires
                    0 <= k,
                    k > 0 ==> w > 0,
                    k == 0 ==> w > 0,
                    w <= 65536,
            ;
        }
    }

    /// Where a row lands depends only on its position: two row states that
    /// hold the same rows, however the inserts were split, have the same
    /// frozen chunks and the same mutable chunk.
    pub proof fn lemma_layout_determined(a: &Self, b: &Self)
        requires
            a.wf(),
            b.wf(),
            a.spec_rows() == b.spec_rows(),
        ensures
            a.spec_chunk_count() == b.spec_chunk_count(),
            forall|i: int| 0 <= i < a.spec_chunk_count() ==> #[trigger] a.spec_chunk(i) == b.spec_chunk(i),
            a.spec_writer_rows() == b.spec_writer_rows(),
    {
        a.lemma_layout();
        b.lemma_layout();
        assert forall|i: int| 0 <= i < a.spec_chunk_count() implies #[trigger] a.spec_chunk(i)
            == b.spec_chunk(i) by {
            assert(b.spec_chunk(i) == b.spec_rows().subrange(i * CHUNK_SIZE, i * CHUNK_SIZE + CHUNK_SIZE));
        }
    }

    pub fn new() -> (r: Self)
        ensures
            r.wf(),
            r.spec_rows() == Seq::<M>::empty(),
    {
        let r = RowState { chunks: Vec::new(), writer: Default::default(), all_rows: Ghost(Seq::empty()) };
        assert(r.writer.spec_rows() =~= r.all_rows@.subrange(0, 0));
        r
    }

    /// The frozen chunk that was frozen first, if any.
    pub fn start(&self) -> (r: Option<&Arc<RowStateChunk<M>>>)
        ensures
            match r {
                Some(c) => self.spec_chunk_count() > 0 && c.spec_rows() == self.spec_chunk(0),
                None => self.spec_chunk_count() == 0,
            },
    {
        if self.chunks.len() == 0 {
            None
        } else {
            Some(&self.chunks[0])
        }
    }

    /// The frozen chunk that was frozen last, if any.
    pub fn tail(&self) -> (r: Option<&Arc<RowStateChunk<M>>>)
        ensures
            match r {
                Some(c) => self.spec_chunk_count() > 0 && c.spec_rows() == self.spec_chunk(
                    self.spec_chunk_count() - 1,
                ),
                None => self.spec_chunk_count() == 0,
            },
    {
        if self.chunks.len() == 0 {
            None
        } else {
            Some(&self.chunks[self.chunks.len() - 1])
        }
    }

    /// The frozen chunk at position `index`, counted from the first one frozen.
    pub fn chunk(&self, index: usize) -> (r: Option<&Arc<RowStateChunk<M>>>)
        ensures
            match r {
                Some(c) => index < self.spec_chunk_count() && c.spec_rows() == self.spec_chunk(
                    index as int,
                ),
                None => index >= self.spec_chunk_count(),
            },
    {
        if index < self.chunks.len() {
            Some(&self.chunks[index])
        } else {
            None
        }
    }

    /// The number of frozen chunks.
    pub fn chunk_count(&self) -> (r: usize)
        ensures
            r == self.spec_chunk_count(),
    {
        self.chunks.len()
    }

    /// The chunk that is currently being filled.
    pub fn writer(&self) -> (r: &MutableRowStateChunk<M>)
        requires
            self.wf(),
        ensures
            r.wf(),
            r.spec_rows() == self.spec_writer_rows(),
    {
        &self.writer
    }

    /// Inserts `n` metadata entries produced by `f`, filling chunk storage
    /// in bulk rather than one call at a time.
    pub fn insert_n<F: Fn() -> M>(self, n: LogicalSize, f: &F) -> (r: Self)
        requires
            self.wf(),
            forall|| #[trigger] f.requires(()),
        ensures
            r.wf(),
            rows_appended(self.spec_rows(), r.spec_rows(), n.get() as int, f),
    {
        self.insert_rows(n, f)
    }

    fn insert_rows<F: Fn() -> M>(self, n: LogicalSize, f: &F) -> (r: Self)
        requires
            self.layout_ok(),
            forall|| #[trigger] f.requires(()),
            self.chunks@.len() > 0 && n.get() == 0 ==> self.writer.spec_rows().len() > 0,
        ensures
            r.layout_ok(),
            r.chunks@.len() > 0 ==> r.writer.spec_rows().len() > 0,
            r.spec_rows().len() == self.spec_rows().len() + n.get(),
            r.spec_rows().subrange(0, self.spec_rows().len() as int) == self.spec_rows(),
            forall|i: int|
                self.spec_rows().len() <= i < r.spec_rows().len() ==> f.ensures(
                    (),
                    #[trigger] r.spec_rows()[i],
                ),
        decreases n.get(), if self.writer.spec_rows().len() == CHUNK_SIZE {
            1int
        } else {
            0int
        },
    {
        let RowState { chunks, writer, all_rows } = self;
        let ghost old_all = all_rows@;
        let ghost old_writer = writer.spec_rows();
        let ghost k = chunks@.len();
        match writer.insert_n(f, n) {
            Ok(writer) => {
                let ghost new_rows = writer.spec_rows().subrange(
                    old_writer.len() as int,
                    writer.spec_rows().len() as int,
                );
                let ghost all = old_all + new_rows;
                let r = RowState { chunks, writer, all_rows: Ghost(all) };
                let ghost nw = r.writer.spec_rows();
                assert forall|j: int| 0 <= j < nw.len() implies nw[j] == all[k * CHUNK_SIZE + j] by {
                    if j < old_writer.len() {
                        assert(nw.subrange(0, old_writer.len() as int)[j] == nw[j]);
                        assert(old_writer[j] == old_all.subrange(k * CHUNK_SIZE, old_all.len() as int)[j]);
                    }
                }
                assert(r.writer.spec_rows() =~= all.subrange(k * CHUNK_SIZE, all.len() as int));
                assert forall|i: int| 0 <= i < k implies (#[trigger] r.chunks@[i]).spec_rows()
                    == all.subrange(i * CHUNK_SIZE, i * CHUNK_SIZE + CHUNK_SIZE) by {
                    assert(all.subrange(i * CHUNK_SIZE, i * CHUNK_SIZE + CHUNK_SIZE) =~= old_all.subrange(
                        i * CHUNK_SIZE,
                        i * CHUNK_SIZE + CHUNK_SIZE,
                    ));
                }
                assert(all.subrange(0, old_all.len() as int) =~= old_all);
                assert forall|i: int| old_all.len() <= i < all.len() implies f.ensures(
                    (),
                    #[trigger] all[i],
                ) by {
                    assert(all[i] == r.writer.spec_rows()[i - k * CHUNK_SIZE]);
                    assert(f.ensures((), r.writer.spec_rows()[i - k * CHUNK_SIZE]));
                }
                r
            },
            Err((rows, remainder)) => {
                let ghost new_rows = rows@.subrange(old_writer.len() as int, rows@.len() as int);
                let ghost all = old_all + new_rows;
                let mut s = RowState { chunks, writer: Default::default(), all_rows: Ghost(all) };
                assert forall|j: int| 0 <= j < rows@.len() implies rows@[j] == all[k * CHUNK_SIZE + j] by {
                    if j < old_writer.len() {
                        assert(rows@.subrange(0, old_writer.len() as int)[j] == rows@[j]);
                        assert(old_writer[j] == old_all.subrange(k * CHUNK_SIZE, old_all.len() as int)[j]);
                    }
                }
                assert(rows@ =~= all.subrange(k * CHUNK_SIZE, k * CHUNK_SIZE + CHUNK_SIZE));
                s.freeze_chunk(rows);
                assert(s.writer.spec_rows() =~= all.subrange(
                    (k + 1) * CHUNK_SIZE,
                    all.len() as int,
                ));
                assert forall|i: int| 0 <= i < k implies (#[trigger] s.chunks@[i]).spec_rows()
                    == all.subrange(i * CHUNK_SIZE, i * CHUNK_SIZE + CHUNK_SIZE) by {
                    assert(all.subrange(i * CHUNK_SIZE, i * CHUNK_SIZE + CHUNK_SIZE) =~= old_all.subrange(
                        i * CHUNK_SIZE,
                        i * CHUNK_SIZE + CHUNK_SIZE,
                    ));
                }
                let r = s.insert_rows(remainder, f);
                assert(all.subrange(0, old_all.len() as int) =~= old_all);
                assert(r.spec_rows().subrange(0, old_all.len() as int) =~= r.spec_rows().subrange(
                    0,
                    all.len() as int,
                ).subrange(0, old_all.len() as int));
                assert forall|i: int| old_all.len() <= i < r.spec_rows().len() implies f.ensures(
                    (),
                    #[trigger] r.spec_rows()[i],
                ) by {
                    if i < all.len() {
                        assert(r.spec_rows()[i] == r.spec_rows().subrange(0, all.len() as int)[i]);
                        assert(all[i] == rows@[i - k * CHUNK_SIZE]);
                        assert(f.ensures((), rows@[i - k * CHUNK_SIZE]));
                    }
                }
                r
            },
        }
    }

    /// Appends a full chunk to the frozen chunks; the mutable chunk must be empty.
    fn freeze_chunk(&mut self, chunk: Vec<M>)
        requires
            old(self).writer.wf(),
            old(self).writer.spec_rows().len() == 0,
            old(self).all_rows@.len() == (old(self).chunks@.len() + 1) * CHUNK_SIZE,
            chunk@ == old(self).all_rows@.subrange(
                old(self).chunks@.len() * CHUNK_SIZE,
                old(self).chunks@.len() * CHUNK_SIZE + CHUNK_SIZE,
            ),
        ensures
            final(self).writer == old(self).writer,
            final(self).all_rows == old(self).all_rows,
            final(self).chunks@ == old(self).chunks@.push(Arc::new(RowStateChunk { rows: chunk })),
    {
        let new_tail: Arc<RowStateChunk<M>> = Arc::new(RowStateChunk { rows: chunk });
        self.chunks.push(new_tail);
    }
}

impl<M> Default for MutableRowStateChunk<M> {
    fn default() -> (r: Self)
        ensures
            r.wf(),
            r.spec_rows() == Seq::<M>::empty(),
    {
        MutableRowStateChunk { current: LogicalOffset::new(0), rows: Vec::with_capacity(CHUNK_SIZE as usize) }
    }
}

} // verus!
