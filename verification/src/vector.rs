//! Scanning a frozen chunk in vectors of `VECTOR_SIZE` rows.
use std::marker::PhantomData;
use vstd::prelude::*;

use crate::arrow_store::ColumnKind;
use crate::chunk::{AppendableType, ChunkView, ColumnArray};
use crate::units::{LogicalOffset, VECTOR_SIZE};

verus! {

/// Column types whose arrays expose their values as a contiguous slice.
pub trait Windowed: AppendableType {
    /// The values of an array of this type; a slot that holds a value holds it here.
    fn values(array: &ColumnArray) -> (values: &[Self])
        requires
            array.wf(),
            array.kind() == Self::kind(),
        ensures
            values@.len() == array.cells().len(),
            forall|i: int|
                0 <= i < values@.len() && array.cells()[i] is Some ==> array.cells()[i]
                    == Self::cell(#[trigger] values@[i]),
    ;
}

impl Windowed for i8 {
    fn values(array: &ColumnArray) -> (values: &[i8]) {
        array.int8_values()
    }
}

impl Windowed for i16 {
    fn values(array: &ColumnArray) -> (values: &[i16]) {
        array.int16_values()
    }
}

impl Windowed for i32 {
    fn values(array: &ColumnArray) -> (values: &[i32]) {
        array.int32_values()
    }
}

impl Windowed for i64 {
    fn values(array: &ColumnArray) -> (values: &[i64]) {
        array.int64_values()
    }
}

impl Windowed for u8 {
    fn values(array: &ColumnArray) -> (values: &[u8]) {
        array.uint8_values()
    }
}

impl Windowed for u16 {
    fn values(array: &ColumnArray) -> (values: &[u16]) {
        array.uint16_values()
    }
}

impl Windowed for u32 {
    fn values(array: &ColumnArray) -> (values: &[u32]) {
        array.uint32_values()
    }
}

impl Windowed for u64 {
    fn values(array: &ColumnArray) -> (values: &[u64]) {
        array.uint64_values()
    }
}

/// The validity of the slots of a vector, addressed relative to its start.
pub struct Validity<'a> {
    data: &'a ColumnArray,
    base: LogicalOffset,
}

impl<'a> Validity<'a> {
    pub closed spec fn spec_data(&self) -> ColumnArray {
        *self.data
    }

    pub closed spec fn spec_base(&self) -> u64 {
        self.base.get()
    }

    /// Whether slot `offset` of the vector holds a value rather than a null.
    pub fn is_valid(&self, offset: LogicalOffset) -> (valid: bool)
        requires
            self.spec_base() + offset.get() < self.spec_data().cells().len(),
        ensures
            valid == self.spec_data().cells()[self.spec_base() + offset.get()] is Some,
    {
        let len: usize = self.data.len();
        let index = self.base + offset;
        assert(index.get() < len);
        self.data.is_valid(index.as_usize())
    }
}

/// A typed view over the rows `start .. end` of an array.
pub struct Vector<'a, V> {
    data: &'a ColumnArray,
    start: LogicalOffset,
    end: LogicalOffset,
    _marker: PhantomData<V>,
}

impl<'a, V> Vector<'a, V> {
    pub closed spec fn spec_data(&self) -> ColumnArray {
        *self.data
    }

    pub closed spec fn spec_start(&self) -> u64 {
        self.start.get()
    }

    pub closed spec fn spec_end(&self) -> u64 {
        self.end.get()
    }

    pub fn start(&self) -> (r: LogicalOffset)
        ensures
            r.get() == self.spec_start(),
    {
        self.start
    }

    pub fn end(&self) -> (r: LogicalOffset)
        ensures
            r.get() == self.spec_end(),
    {
        self.end
    }
}

impl<'a, V: Windowed> Vector<'a, V> {
    /// `window` and `validity` are what `with` hands its closure: the values
    /// of the vector's rows, each agreeing with its cell where the cell holds
    /// a value, and the validity of the array from the vector's first row on.
    pub open spec fn presents(&self, window: Seq<V>, validity: Validity<'a>) -> bool {
        &&& window.len() == self.spec_end() - self.spec_start()
        &&& forall|i: int|
            0 <= i < window.len() && self.spec_data().cells()[self.spec_start() + i] is Some
                ==> self.spec_data().cells()[self.spec_start() + i] == V::cell(#[trigger] window[i])
        &&& validity.spec_data() == self.spec_data()
        &&& validity.spec_base() == self.spec_start()
    }

    /// Calls `f` with the vector's values and their validity.
    pub fn with<F, R>(&self, f: F) -> (r: R) where F: FnOnce(&[V], Validity<'a>) -> R
        requires
            self.spec_data().wf(),
            self.spec_data().kind() == V::kind(),
            self.spec_start() <= self.spec_end() <= self.spec_data().cells().len(),
            forall|window: &[V], validity: Validity<'a>|
                self.presents(window@, validity) ==> #[trigger] f.requires((window, validity)),
        ensures
            exists|window: &[V], validity: Validity<'a>|
                {
                    &&& self.presents(window@, validity)
                    &&& #[trigger] f.ensures((window, validity), r)
                },
    {
        let values = V::values(self.data);
        assert(values@.len() == values.len());
        let window = vstd::slice::slice_subrange(values, self.start.as_usize(), self.end.as_usize());
        let validity = Validity { data: self.data, base: self.start };
        assert forall|i: int|
            0 <= i < window@.len() && self.spec_data().cells()[self.spec_start() + i] is Some
                implies self.spec_data().cells()[self.spec_start() + i] == V::cell(
            #[trigger] window@[i],
        ) by {
            assert(window@[i] == values@[self.spec_start() + i]);
        }
        assert(self.presents(window@, validity));
        let r = f(window, validity);
        r
    }
}

/// Produces the vectors of an array: consecutive ranges of `VECTOR_SIZE`
/// rows, the last one possibly shorter.
pub struct VectorIter<'a, V> {
    data: &'a ColumnArray,
    current: LogicalOffset,
    returned: Ghost<nat>,
    _marker: PhantomData<V>,
}

impl<'a, V> VectorIter<'a, V> {
    pub closed spec fn spec_data(&self) -> ColumnArray {
        *self.data
    }

    /// The row at which the next vector starts.
    pub closed spec fn spec_current(&self) -> u64 {
        self.current.get()
    }

    /// The number of vectors returned so far.
    pub closed spec fn spec_returned(&self) -> nat {
        self.returned@
    }

    /// The next vector starts where vector number `spec_returned()` of the
    /// array starts.
    pub closed spec fn wf(&self) -> bool {
        self.current.get() == vector_start(self.data.cells().len(), self.returned@)
    }

    pub fn new(data: &'a ColumnArray) -> (r: Self)
        ensures
            r.wf(),
            r.spec_data() == *data,
            r.spec_current() == 0,
            r.spec_returned() == 0,
    {
        VectorIter { data, current: LogicalOffset::new(0), returned: Ghost(0), _marker: PhantomData }
    }

    /// The next vector, or `None` once every row has been covered.
    ///
    /// Call `k` (counted from 0) returns the rows `vector_start(len, k)` up to
    /// `vector_start(len, k + 1)` while `k < (len + VECTOR_SIZE - 1) / VECTOR_SIZE`,
    /// and `None` from then on: the vectors cover the rows in order, once each.
    pub fn next_vector(&mut self) -> (r: Option<Vector<'a, V>>)
        requires
            old(self).wf(),
        ensures
            final(self).wf(),
            final(self).spec_data() == old(self).spec_data(),
            final(self).spec_current() <= final(self).spec_data().cells().len(),
            ({
                let len = old(self).spec_data().cells().len();
                let k = old(self).spec_returned();
                let count = (len + VECTOR_SIZE - 1) / (VECTOR_SIZE as int);
                match r {
                    None => k >= count && final(self).spec_returned() == k,
                    Some(vector) => {
                        &&& k < count
                        &&& vector.spec_start() == vector_start(len, k)
                        &&& vector.spec_end() == vector_start(len, k + 1)
                        &&& final(self).spec_returned() == k + 1
                    },
                }
            }),
            ({
                let len = old(self).spec_data().cells().len();
                let start = old(self).spec_current();
                match r {
                    None => start == len && final(self).spec_current() == start,
                    Some(vector) => {
                        &&& start < len
                        &&& vector.spec_data() == old(self).spec_data()
                        &&& vector.spec_start() == start
                        &&& vector.spec_end() == next_vector_start(start as nat, len)
                        &&& final(self).spec_current() == vector.spec_end()
                    },
                }
            }),
    {
        let len: u64 = self.data.len() as u64;
        proof {
            lemma_vectors_partition(self.data.cells().len(), self.returned@);
        }
        if self.current.get() >= len {
            return None;
        }
        let start: LogicalOffset = self.current;
        let end: LogicalOffset = if len - start.get() >= VECTOR_SIZE {
            LogicalOffset::new(start.get() + VECTOR_SIZE)
        } else {
            LogicalOffset::new(len)
        };
        self.current = end;
        self.returned = Ghost(self.returned@ + 1);
        Some(Vector { data: self.data, start, end, _marker: PhantomData })
    }

    /// The number of vectors still to come.
    pub fn remaining_vectors(&self) -> (n: usize)
        requires
            self.spec_current() <= self.spec_data().cells().len(),
        ensures
            n == (self.spec_data().cells().len() - self.spec_current() + VECTOR_SIZE - 1) / (
            VECTOR_SIZE as int),
    {
        let remaining: usize = self.data.len() - self.current.as_usize();
        let n = remaining / (VECTOR_SIZE as usize) + if remaining % (VECTOR_SIZE as usize) == 0 {
            0
        } else {
            1
        };
        n
    }
}

impl<'a, V> ChunkView<'a, V> {
    /// The vectors of the chunk's array, from its first row on.
    pub fn vectors(&self) -> (r: VectorIter<'a, V>)
        ensures
            r.wf(),
            r.spec_data() == self.spec_array(),
            r.spec_current() == 0,
            r.spec_returned() == 0,
    {
        VectorIter::new(self.array())
    }
}

/// The row at which the vector that follows one starting at `start` starts,
/// in an array of `len` rows: `VECTOR_SIZE` rows on, or the end.
pub open spec fn next_vector_start(start: nat, len: nat) -> nat {
    if start + VECTOR_SIZE <= len {
        (start + VECTOR_SIZE) as nat
    } else {
        len
    }
}

/// The row at which vector `k` (counted from 0) of an array of `len` rows starts.
pub open spec fn vector_start(len: nat, k: nat) -> nat {
    if k * VECTOR_SIZE <= len {
        k * (VECTOR_SIZE as nat)
    } else {
        len
    }
}

/// The vectors of an array cover its rows in order, without gaps or overlap:
/// vector `k` runs from `vector_start(len, k)` to `vector_start(len, k + 1)`,
/// every vector but the last holds `VECTOR_SIZE` rows, and there are
/// `(len + VECTOR_SIZE - 1) / VECTOR_SIZE` vectors, as `remaining_vectors`
/// says of a fresh iterator.
pub proof fn lemma_vectors_partition(len: nat, k: nat)
    ensures
        vector_start(len, 0) == 0,
        vector_start(len, k) < len ==> next_vector_start(vector_start(len, k), len) == vector_start(
            len,
            k + 1,
        ),
        vector_start(len, k) < len ==> vector_start(len, k) == k * VECTOR_SIZE,
        vector_start(len, k + 1) < len ==> vector_start(len, k + 1) - vector_start(len, k)
            == VECTOR_SIZE,
        vector_start(len, k) < len <==> k < (len + VECTOR_SIZE - 1) / (VECTOR_SIZE as int),
{
    let v = VECTOR_SIZE as int;
    assert((k + 1) * v == k * v + v) by (nonlinear_arith);
    assert(k * v < len <==> k < (len + v - 1) / v) by (nonlinear_arith)
        requires
            v == 1024,
    {
        if k * v < len {
            assert(k * v + v <= len + v - 1);
            assert(k < (len + v - 1) / v);
        } else {
            assert((len + v - 1) / v <= k);
        }
    }
    if k * v <= len && k * v >= len {
        assert(k * v == len);
    }
}

} // verus!
