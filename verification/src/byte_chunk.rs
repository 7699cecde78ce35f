//! Fixed-width elements stored as raw bytes: a byte buffer, a chunk that is
//! written one element at a time and frozen once it is full, and the vectors
//! of at most `VECTOR_SIZE` elements a frozen chunk is read in.
use std::sync::Arc;
use vstd::prelude::*;

verus! {

/// The number of elements in a full vector.
pub const VECTOR_SIZE: usize = 1024;

/// A position in a buffer, counted in bytes.
#[derive(Debug, Clone, Copy)]
pub struct ByteOffset(usize);

impl ByteOffset {
    pub closed spec fn spec_get(&self) -> usize {
        self.0
    }

    pub fn new(offset: usize) -> (r: Self)
        ensures
            r.get() == offset,
    {
        ByteOffset(offset)
    }

    #[verifier::when_used_as_spec(spec_get)]
    pub fn get(&self) -> (r: usize)
        ensures
            r == self.spec_get(),
    {
        self.0
    }
}

/// A position in a chunk, counted in elements.
#[derive(Debug, Clone, Copy)]
pub struct LogicalOffset(usize);

impl LogicalOffset {
    pub closed spec fn spec_get(&self) -> usize {
        self.0
    }

    pub fn new(offset: usize) -> (r: Self)
        ensures
            r.get() == offset,
    {
        LogicalOffset(offset)
    }

    #[verifier::when_used_as_spec(spec_get)]
    pub fn get(&self) -> (r: usize)
        ensures
            r == self.spec_get(),
    {
        self.0
    }

    /// Moves the offset `num_elements` elements further.
    pub fn increment(&mut self, num_elements: usize)
        requires
            old(self).get() + num_elements <= usize::MAX,
        ensures
            final(self).get() == old(self).get() + num_elements,
    {
        self.0 = self.0 + num_elements;
    }
}

/// A fixed-size block of bytes.
#[derive(Debug)]
pub struct Buffer {
    data: Vec<u8>,
}

impl Buffer {
    /// The bytes of the buffer.
    pub closed spec fn spec_bytes(&self) -> Seq<u8> {
        self.data@
    }

    /// A buffer of `size` bytes, all zero.
    pub fn new(size: usize) -> (r: Option<Self>)
        ensures
            r matches Some(buffer) && buffer.spec_bytes() == Seq::new(size as nat, |i: int| 0u8),
    {
        let data: Vec<u8> = vec![0u8; size];
        let buffer = Buffer { data };
        assert(buffer.spec_bytes() =~= Seq::new(size as nat, |i: int| 0u8));
        Some(buffer)
    }

    /// The `length` bytes from `offset` on.
    pub fn read(&self, offset: ByteOffset, length: usize) -> (r: &[u8])
        requires
            offset.get() + length <= self.spec_bytes().len(),
        ensures
            r@ == self.spec_bytes().subrange(offset.get() as int, offset.get() + length),
    {
        let _size: usize = self.data.len();
        vstd::slice::slice_subrange(self.data.as_slice(), offset.get(), offset.get() + length)
    }

    /// Copies `data` into the buffer from `index` on; every other byte stays.
    pub fn write(&mut self, index: ByteOffset, data: &[u8])
        requires
            data@.len() + index.get() <= old(self).spec_bytes().len(),
        ensures
            final(self).spec_bytes() == old(self).spec_bytes().subrange(0, index.get() as int)
                + data@ + old(self).spec_bytes().subrange(
                index.get() + data@.len(),
                old(self).spec_bytes().len() as int,
            ),
    {
        let ghost before = self.data@;
        let _size: usize = self.data.len();
        let start: usize = index.get();
        let mut k: usize = 0;
        while k < data.len()
            invariant
                start + data@.len() <= before.len(),
                before.len() <= usize::MAX,
                k <= data@.len(),
                self.data@.len() == before.len(),
                forall|i: int| 0 <= i < start ==> self.data@[i] == before[i],
                forall|i: int| 0 <= i < k ==> self.data@[start + i] == data@[i],
                forall|i: int| start + k <= i < before.len() ==> self.data@[i] == before[i],
            decreases data@.len() - k,
        {
            self.data.set(start + k, data[k]);
            k = k + 1;
        }
        assert(self.data@ =~= before.subrange(0, start as int) + data@ + before.subrange(
            start + data@.len(),
            before.len() as int,
        ));
    }

    /// The number of bytes in the buffer.
    pub fn size(&self) -> (r: usize)
        ensures
            r == self.spec_bytes().len(),
    {
        self.data.len()
    }
}

/// What writing an element to a chunk left: the chunk, still open, or the
/// frozen chunk it became when that element filled it.
pub enum ChunkWrite {
    Open(MutableChunk),
    Frozen(FrozenChunk),
}

/// A chunk of fixed-width elements that is still being written.
///
/// Elements are written one after another; the write that fills the chunk
/// freezes it.
pub struct MutableChunk {
    inner: Buffer,
    element_size: usize,
    current: LogicalOffset,
    written: Ghost<Seq<Seq<u8>>>,
}

/// Element `i` of `elements` is stored in `bytes` at `i * element_size`, for
/// every `i`.
pub open spec fn holds_elements(bytes: Seq<u8>, element_size: nat, elements: Seq<Seq<u8>>) -> bool {
    forall|i: int|
        0 <= i < elements.len() ==> bytes.subrange(i * element_size, i * element_size + element_size)
            == #[trigger] elements[i]
}

/// `bytes` with the `element_size` bytes of element `index` replaced by `element`.
pub open spec fn with_element(bytes: Seq<u8>, element_size: nat, index: nat, element: Seq<u8>) -> Seq<
    u8,
> {
    bytes.subrange(0, (index * element_size) as int) + element + bytes.subrange(
        (index * element_size + element_size) as int,
        bytes.len() as int,
    )
}

/// Storing the next element after those already stored keeps them, and
/// stores it after them.
proof fn lemma_store_next(bytes: Seq<u8>, element_size: nat, elements: Seq<Seq<u8>>, element: Seq<u8>)
    requires
        element_size > 0,
        element.len() == element_size,
        holds_elements(bytes, element_size, elements),
        elements.len() * element_size + element_size <= bytes.len(),
    ensures
        with_element(bytes, element_size, elements.len(), element).len() == bytes.len(),
        holds_elements(
            with_element(bytes, element_size, elements.len(), element),
            element_size,
            elements.push(element),
        ),
{
    let es = element_size as int;
    let cur = elements.len() as int;
    let stored = with_element(bytes, element_size, elements.len(), element);
    assert(0 <= cur * es) by (nonlinear_arith)
        requires
            0 <= cur,
            0 < es,
    ;
    assert forall|i: int| 0 <= i < cur + 1 implies stored.subrange(i * es, i * es + es)
        == #[trigger] elements.push(element)[i] by {
        if i < cur {
            assert(0 <= i * es && i * es + es <= cur * es) by (nonlinear_arith)
                requires
                    0 <= i < cur,
                    0 < es,
            ;
            assert(stored.subrange(i * es, i * es + es) =~= bytes.subrange(i * es, i * es + es));
        } else {
            assert(stored.subrange(cur * es, cur * es + es) =~= element);
        }
    }
}

impl MutableChunk {
    pub closed spec fn spec_bytes(&self) -> Seq<u8> {
        self.inner.spec_bytes()
    }

    pub closed spec fn spec_element_size(&self) -> nat {
        self.element_size as nat
    }

    /// The number of elements written so far.
    pub closed spec fn spec_len(&self) -> nat {
        self.current.get() as nat
    }

    /// The elements written so far, in order.
    pub closed spec fn spec_elements(&self) -> Seq<Seq<u8>> {
        self.written@
    }

    /// The number of elements the chunk holds once full.
    pub open spec fn spec_capacity(&self) -> nat {
        self.spec_bytes().len() / self.spec_element_size()
    }

    pub closed spec fn wf(&self) -> bool {
        &&& self.element_size > 0
        &&& self.inner.spec_bytes().len() % (self.element_size as nat) == 0
        &&& self.current.get() < self.inner.spec_bytes().len() / (self.element_size as nat)
        &&& self.written@.len() == self.current.get()
        &&& holds_elements(self.inner.spec_bytes(), self.element_size as nat, self.written@)
    }

    /// An empty chunk with room for `elements` elements of `element_size` bytes.
    pub fn new(element_size: usize, elements: usize) -> (r: Self)
        requires
            element_size > 0,
            elements > 0,
            element_size * elements <= usize::MAX,
        ensures
            r.wf(),
            r.spec_element_size() == element_size,
            r.spec_len() == 0,
            r.spec_elements() == Seq::<Seq<u8>>::empty(),
            r.spec_capacity() == elements,
            r.spec_bytes().len() == element_size * elements,
    {
        let size: usize = element_size * elements;
        let inner = Buffer::new(size).unwrap();
        let r = MutableChunk {
            inner,
            element_size,
            current: LogicalOffset::new(0),
            written: Ghost(Seq::empty()),
        };
        assert(((element_size * elements) as nat) % (element_size as nat) == 0 && ((element_size
            * elements) as nat) / (element_size as nat) == elements) by (nonlinear_arith)
            requires
                element_size > 0,
        ;
        r
    }

    /// Writes `data` as the next element. The write that fills the chunk
    /// freezes it; otherwise the chunk stays open.
    pub fn write(self, data: &[u8]) -> (r: ChunkWrite)
        requires
            self.wf(),
            data@.len() == self.spec_element_size(),
        ensures
            ({
                let bytes = with_element(
                    self.spec_bytes(),
                    self.spec_element_size(),
                    self.spec_len(),
                    data@,
                );
                let elements = self.spec_elements().push(data@);
                match r {
                    ChunkWrite::Open(chunk) => {
                        &&& self.spec_len() + 1 < self.spec_capacity()
                        &&& chunk.wf()
                        &&& chunk.spec_bytes() == bytes
                        &&& chunk.spec_element_size() == self.spec_element_size()
                        &&& chunk.spec_len() == self.spec_len() + 1
                        &&& chunk.spec_elements() == elements
                    },
                    ChunkWrite::Frozen(frozen) => {
                        &&& self.spec_len() + 1 == self.spec_capacity()
                        &&& frozen.spec_bytes() == bytes
                        &&& frozen.spec_element_size() == self.spec_element_size()
                        &&& holds_elements(frozen.spec_bytes(), frozen.spec_element_size(), elements)
                    },
                }
            }),
    {
        let mut chunk = self;
        let es: usize = chunk.element_size;
        let cur: usize = chunk.current.get();
        let size_exec: usize = chunk.inner.size();
        let ghost size: nat = size_exec as nat;
        let ghost cap = size / (es as nat);
        proof {
            assert(cur * es + es <= size && (cur + 1 == cap <==> cur * es + es == size)) by (
            nonlinear_arith)
                requires
                    es > 0,
                    size % (es as nat) == 0,
                    cap == size / (es as nat),
                    cur < cap,
            {
                assert(size == cap * es);
                assert(cur + 1 <= cap);
                assert((cur + 1) * es <= cap * es);
            }
        }
        let offset: ByteOffset = ByteOffset::new(cur * es);
        proof {
            lemma_store_next(chunk.inner.spec_bytes(), es as nat, chunk.written@, data@);
        }
        chunk.inner.write(offset, data);
        chunk.current.increment(1);
        chunk.written = Ghost(chunk.written@.push(data@));
        if offset.get() + es == size_exec {
            ChunkWrite::Frozen(FrozenChunk { inner: chunk.inner, element_size: es })
        } else {
            ChunkWrite::Open(chunk)
        }
    }
}

/// A full chunk of fixed-width elements; it is only read.
#[derive(Debug)]
pub struct FrozenChunk {
    inner: Buffer,
    element_size: usize,
}

impl FrozenChunk {
    pub closed spec fn spec_bytes(&self) -> Seq<u8> {
        self.inner.spec_bytes()
    }

    pub closed spec fn spec_element_size(&self) -> nat {
        self.element_size as nat
    }

    /// The vectors of the chunk, from its first element on.
    pub fn iter(&self) -> (r: VectorIter<'_>)
        requires
            self.spec_element_size() > 0,
            self.spec_bytes().len() % self.spec_element_size() == 0,
        ensures
            r.wf(),
            r.spec_chunk() == *self,
            r.spec_current() == 0,
            r.spec_end() == self.spec_bytes().len() / self.spec_element_size(),
    {
        let end: usize = self.inner.size() / self.element_size;
        proof {
            let es = self.element_size as nat;
            let size = self.inner.spec_bytes().len();
            assert(end * es == size) by (nonlinear_arith)
                requires
                    es > 0,
                    size % es == 0,
                    end == size / es,
            ;
        }
        VectorIter { inner: self, end, current: LogicalOffset::new(0) }
    }
}

/// The elements of a frozen chunk in runs of at most `VECTOR_SIZE`.
pub struct VectorIter<'vector> {
    inner: &'vector FrozenChunk,
    end: usize,
    current: LogicalOffset,
}

/// A run of consecutive elements of a frozen chunk, as bytes: the unit of work.
pub struct Vector<'a>(&'a [u8]);

impl<'a> Vector<'a> {
    pub closed spec fn spec_bytes(&self) -> Seq<u8> {
        self.0@
    }

    /// The bytes of the elements of this vector.
    pub fn as_bytes(&self) -> (r: &'a [u8])
        ensures
            r@ == self.spec_bytes(),
    {
        self.0
    }
}

impl<'vector> VectorIter<'vector> {
    pub closed spec fn spec_chunk(&self) -> FrozenChunk {
        *self.inner
    }

    /// The element at which the next vector starts.
    pub closed spec fn spec_current(&self) -> nat {
        self.current.get() as nat
    }

    /// The number of elements in the chunk.
    pub closed spec fn spec_end(&self) -> nat {
        self.end as nat
    }

    pub closed spec fn wf(&self) -> bool {
        &&& self.current.get() <= self.end
        &&& self.end * self.inner.spec_element_size() == self.inner.spec_bytes().len()
    }

    /// The next vector: the elements from the current one on, at most
    /// `VECTOR_SIZE` of them; `None` once every element has been read.
    pub fn next(&mut self) -> (r: Option<Vector<'vector>>)
        requires
            old(self).wf(),
        ensures
            final(self).wf(),
            final(self).spec_chunk() == old(self).spec_chunk(),
            final(self).spec_end() == old(self).spec_end(),
            ({
                let start = old(self).spec_current();
                let end = old(self).spec_end();
                let es = old(self).spec_chunk().spec_element_size();
                match r {
                    None => start == end && final(self).spec_current() == start,
                    Some(vector) => {
                        let stop = final(self).spec_current();
                        &&& start < end
                        &&& stop == if start + VECTOR_SIZE <= end {
                            start + VECTOR_SIZE
                        } else {
                            end as int
                        }
                        &&& vector.spec_bytes() == old(self).spec_chunk().spec_bytes().subrange(
                            (start * es) as int,
                            (stop * es) as int,
                        )
                    },
                }
            }),
    {
        if self.current.get() == self.end {
            return None;
        }
        let remaining: usize = self.end - self.current.get();
        let slice_length: usize = if remaining < VECTOR_SIZE {
            remaining
        } else {
            VECTOR_SIZE
        };
        let es: usize = self.inner.element_size;
        let cur: usize = self.current.get();
        let _size: usize = self.inner.inner.size();
        proof {
            let end = self.end as nat;
            assert(cur * es + slice_length * es == (cur + slice_length) * es) by (nonlinear_arith);
            assert((cur + slice_length) * es <= end * es) by (nonlinear_arith)
                requires
                    cur + slice_length <= end,
            ;
        }
        let vector: Vector = Vector(
            self.inner.inner.read(ByteOffset::new(cur * es), slice_length * es),
        );
        self.current.increment(slice_length);
        Some(vector)
    }
}

/// The frozen chunks of a column, oldest first: a chunk is published here
/// once the write that fills it freezes it.
pub struct ColumnState {
    frozen: Vec<Arc<FrozenChunk>>,
}

impl ColumnState {
    /// The published chunks, oldest first.
    pub closed spec fn spec_frozen(&self) -> Seq<FrozenChunk> {
        self.frozen@.map_values(|chunk: Arc<FrozenChunk>| *chunk)
    }

    /// A column with no frozen chunk.
    pub fn new() -> (r: Self)
        ensures
            r.spec_frozen() == Seq::<FrozenChunk>::empty(),
    {
        let r = ColumnState { frozen: Vec::new() };
        assert(r.spec_frozen() =~= Seq::<FrozenChunk>::empty());
        r
    }

    /// The number of published chunks.
    pub fn frozen_count(&self) -> (r: usize)
        ensures
            r == self.spec_frozen().len(),
    {
        self.frozen.len()
    }

    /// The published chunk at position `index`, oldest first.
    pub fn frozen_at(&self, index: usize) -> (r: Option<Arc<FrozenChunk>>)
        ensures
            match r {
                Some(chunk) => index < self.spec_frozen().len() && *chunk == self.spec_frozen()[index as int],
                None => index >= self.spec_frozen().len(),
            },
    {
        if index < self.frozen.len() {
            Some(self.frozen[index].clone())
        } else {
            None
        }
    }

    /// The most recently published chunk, if any.
    pub fn frozen_tail(&self) -> (r: Option<Arc<FrozenChunk>>)
        ensures
            match r {
                Some(chunk) => self.spec_frozen().len() > 0 && *chunk == self.spec_frozen().last(),
                None => self.spec_frozen().len() == 0,
            },
    {
        if self.frozen.len() == 0 {
            None
        } else {
            Some(self.frozen[self.frozen.len() - 1].clone())
        }
    }

    /// Links `chunk` behind the most recently published chunk.
    pub fn publish(&mut self, chunk: FrozenChunk)
        ensures
            final(self).spec_frozen() == old(self).spec_frozen().push(chunk),
    {
        let ghost before = self.spec_frozen();
        self.frozen.push(Arc::new(chunk));
        assert(self.spec_frozen() =~= before.push(chunk));
    }

    /// Writes `data` as the next element of `chunk`. If that write fills the
    /// chunk, the frozen chunk is published here and `None` returned;
    /// otherwise the chunk is returned, still open.
    pub fn write(&mut self, chunk: MutableChunk, data: &[u8]) -> (r: Option<MutableChunk>)
        requires
            chunk.wf(),
            data@.len() == chunk.spec_element_size(),
        ensures
            ({
                let bytes = with_element(
                    chunk.spec_bytes(),
                    chunk.spec_element_size(),
                    chunk.spec_len(),
                    data@,
                );
                let elements = chunk.spec_elements().push(data@);
                match r {
                    Some(open) => {
                        &&& chunk.spec_len() + 1 < chunk.spec_capacity()
                        &&& open.wf()
                        &&& open.spec_bytes() == bytes
                        &&& open.spec_element_size() == chunk.spec_element_size()
                        &&& open.spec_len() == chunk.spec_len() + 1
                        &&& open.spec_elements() == elements
                        &&& final(self).spec_frozen() == old(self).spec_frozen()
                    },
                    None => {
                        let frozen = final(self).spec_frozen().last();
                        &&& chunk.spec_len() + 1 == chunk.spec_capacity()
                        &&& final(self).spec_frozen().len() == old(self).spec_frozen().len() + 1
                        &&& final(self).spec_frozen().drop_last() == old(self).spec_frozen()
                        &&& frozen.spec_bytes() == bytes
                        &&& frozen.spec_element_size() == chunk.spec_element_size()
                        &&& holds_elements(frozen.spec_bytes(), frozen.spec_element_size(), elements)
                    },
                }
            }),
    {
        match chunk.write(data) {
            ChunkWrite::Open(open) => Some(open),
            ChunkWrite::Frozen(frozen) => {
                let ghost before = self.spec_frozen();
                self.publish(frozen);
                assert(self.spec_frozen().drop_last() =~= before);
                None
            },
        }
    }
}

} // verus!
