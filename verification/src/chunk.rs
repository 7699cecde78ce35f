//! Chunks: the mutable chunk a column writes into, and the frozen chunks it
//! publishes once they are full.
use std::marker::PhantomData;
use std::sync::Arc;
use vstd::prelude::*;

use crate::arrow_store::{
    append_boolean_option, append_boolean_slice, append_boolean_value, append_int16_option,
    append_int16_slice, append_int16_value, append_int32_option, append_int32_slice,
    append_int32_value, append_int64_option, append_int64_slice, append_int64_value,
    append_int8_option, append_int8_slice, append_int8_value, append_uint16_option,
    append_uint16_slice, append_uint16_value, append_uint32_option, append_uint32_slice,
    append_uint32_value, append_uint64_option, append_uint64_slice, append_uint64_value,
    append_uint8_option, append_uint8_slice, append_uint8_value, array_cells, array_is_valid,
    array_kind, array_len, builder_cells, builder_finish, builder_finish_cloned, builder_kind,
    builder_len, int16_array_values, int32_array_values, int64_array_values, int8_array_values,
    new_boolean_builder, new_int16_builder, new_int32_builder, new_int64_builder,
    new_int8_builder, new_uint16_builder, new_uint32_builder, new_uint64_builder,
    new_uint8_builder, uint16_array_values, uint32_array_values, uint64_array_values,
    uint8_array_values, ArrowArray, ArrowBuilder, ColumnKind,
};
use crate::units::{LogicalSize, VersionID, CHUNK_SIZE};

verus! {

/// The initial capacity, in values, of a fresh builder.
pub const BUILDER_CAPACITY: usize = 1310720;

/// Associates a Rust type with the kind of Arrow builder that stores it.
///
/// Implementing this trait (together with [`Append`]) makes a type usable as
/// a column type. A value is described by its cell: `Some(v)` for a value,
/// `None` for a null.
pub trait AppendableType: Sized {
    /// The element type of the builder that stores values of this type.
    spec fn kind() -> ColumnKind;

    /// The cell a value of this type becomes once appended.
    spec fn cell(value: Self) -> Option<int>;

    fn column_kind() -> (k: ColumnKind)
        ensures
            k == Self::kind(),
    ;

    /// Returns a fresh, empty builder for this type.
    fn builder() -> (b: ColumnBuilder)
        ensures
            b.wf(),
            b.kind() == Self::kind(),
            b.cells() == Seq::<Option<int>>::empty(),
    ;
}

/// The cells `values` become once appended, in order.
pub open spec fn cells_of<V: AppendableType>(values: Seq<V>) -> Seq<Option<int>> {
    values.map_values(|v: V| V::cell(v))
}

/// Describes how a builder for this type appends values.
pub trait Append: AppendableType {
    /// Appends a single value to the builder.
    fn append(builder: &mut ColumnBuilder, value: Self)
        requires
            old(builder).wf(),
            old(builder).kind() == Self::kind(),
        ensures
            final(builder).wf(),
            final(builder).kind() == Self::kind(),
            final(builder).cells() == old(builder).cells().push(Self::cell(value)),
    ;

    /// Appends a contiguous slice of values to the builder, in order.
    fn append_values(builder: &mut ColumnBuilder, values: &[Self])
        requires
            old(builder).wf(),
            old(builder).kind() == Self::kind(),
        ensures
            final(builder).wf(),
            final(builder).kind() == Self::kind(),
            final(builder).cells() == old(builder).cells() + cells_of(values@),
    ;

    /// Holds `values` as a run of their column type, to be written later.
    fn into_run(values: Vec<Self>) -> (run: Run)
        ensures
            run.kind() == Self::kind(),
            run.cells() == cells_of(values@),
    ;
}

/// A run of values of one built-in column type, held until it is written.
pub enum Run {
    Boolean(Vec<bool>),
    NullableBoolean(Vec<Option<bool>>),
    Int8(Vec<i8>),
    NullableInt8(Vec<Option<i8>>),
    Int16(Vec<i16>),
    NullableInt16(Vec<Option<i16>>),
    Int32(Vec<i32>),
    NullableInt32(Vec<Option<i32>>),
    Int64(Vec<i64>),
    NullableInt64(Vec<Option<i64>>),
    UInt8(Vec<u8>),
    NullableUInt8(Vec<Option<u8>>),
    UInt16(Vec<u16>),
    NullableUInt16(Vec<Option<u16>>),
    UInt32(Vec<u32>),
    NullableUInt32(Vec<Option<u32>>),
    UInt64(Vec<u64>),
    NullableUInt64(Vec<Option<u64>>),
}

impl Run {
    /// The column type the run's values belong to.
    pub open spec fn kind(&self) -> ColumnKind {
        match self {
            Run::Boolean(_) => ColumnKind::Boolean,
            Run::NullableBoolean(_) => ColumnKind::Boolean,
            Run::Int8(_) => ColumnKind::Int8,
            Run::NullableInt8(_) => ColumnKind::Int8,
            Run::Int16(_) => ColumnKind::Int16,
            Run::NullableInt16(_) => ColumnKind::Int16,
            Run::Int32(_) => ColumnKind::Int32,
            Run::NullableInt32(_) => ColumnKind::Int32,
            Run::Int64(_) => ColumnKind::Int64,
            Run::NullableInt64(_) => ColumnKind::Int64,
            Run::UInt8(_) => ColumnKind::UInt8,
            Run::NullableUInt8(_) => ColumnKind::UInt8,
            Run::UInt16(_) => ColumnKind::UInt16,
            Run::NullableUInt16(_) => ColumnKind::UInt16,
            Run::UInt32(_) => ColumnKind::UInt32,
            Run::NullableUInt32(_) => ColumnKind::UInt32,
            Run::UInt64(_) => ColumnKind::UInt64,
            Run::NullableUInt64(_) => ColumnKind::UInt64,
        }
    }

    /// The cells the run's values become once written, in order.
    pub open spec fn cells(&self) -> Seq<Option<int>> {
        match self {
            Run::Boolean(values) => cells_of(values@),
            Run::NullableBoolean(values) => cells_of(values@),
            Run::Int8(values) => cells_of(values@),
            Run::NullableInt8(values) => cells_of(values@),
            Run::Int16(values) => cells_of(values@),
            Run::NullableInt16(values) => cells_of(values@),
            Run::Int32(values) => cells_of(values@),
            Run::NullableInt32(values) => cells_of(values@),
            Run::Int64(values) => cells_of(values@),
            Run::NullableInt64(values) => cells_of(values@),
            Run::UInt8(values) => cells_of(values@),
            Run::NullableUInt8(values) => cells_of(values@),
            Run::UInt16(values) => cells_of(values@),
            Run::NullableUInt16(values) => cells_of(values@),
            Run::UInt32(values) => cells_of(values@),
            Run::NullableUInt32(values) => cells_of(values@),
            Run::UInt64(values) => cells_of(values@),
            Run::NullableUInt64(values) => cells_of(values@),
        }
    }
}

/// An Arrow builder together with the element type it accepts.
pub struct ColumnBuilder {
    kind: ColumnKind,
    inner: ArrowBuilder,
}

impl ColumnBuilder {
    /// The recorded element type is that of the Arrow builder.
    pub closed spec fn wf(&self) -> bool {
        self.kind == builder_kind(self.inner)
    }

    pub closed spec fn spec_kind(&self) -> ColumnKind {
        self.kind
    }

    /// The cells appended so far, in order.
    pub closed spec fn cells(&self) -> Seq<Option<int>> {
        builder_cells(self.inner)
    }

    #[verifier::when_used_as_spec(spec_kind)]
    pub fn kind(&self) -> (k: ColumnKind)
        ensures
            k == self.kind(),
    {
        self.kind
    }

    pub fn len(&self) -> (n: usize)
        ensures
            n == self.cells().len(),
    {
        builder_len(&self.inner)
    }

    /// Builds an array of the appended cells and resets the builder.
    pub fn finish(&mut self) -> (array: ColumnArray)
        requires
            old(self).wf(),
        ensures
            final(self).wf(),
            array.wf(),
            array.cells() == old(self).cells(),
            array.kind() == old(self).kind(),
            final(self).cells() == Seq::<Option<int>>::empty(),
            final(self).kind() == old(self).kind(),
    {
        let inner = builder_finish(&mut self.inner);
        ColumnArray { kind: self.kind, inner }
    }

    /// Builds an array of the appended cells, leaving the builder as it was.
    pub fn finish_cloned(&self) -> (array: ColumnArray)
        requires
            self.wf(),
        ensures
            array.wf(),
            array.cells() == self.cells(),
            array.kind() == self.kind(),
    {
        let inner = builder_finish_cloned(&self.inner);
        ColumnArray { kind: self.kind, inner }
    }
}

/// An immutable Arrow array together with its element type.
pub struct ColumnArray {
    kind: ColumnKind,
    inner: ArrowArray,
}

impl ColumnArray {
    /// The recorded element type is that of the Arrow array.
    pub closed spec fn wf(&self) -> bool {
        self.kind == array_kind(self.inner)
    }

    pub closed spec fn spec_kind(&self) -> ColumnKind {
        self.kind
    }

    /// The array's cells, in order.
    pub closed spec fn cells(&self) -> Seq<Option<int>> {
        array_cells(self.inner)
    }

    #[verifier::when_used_as_spec(spec_kind)]
    pub fn kind(&self) -> (k: ColumnKind)
        ensures
            k == self.kind(),
    {
        self.kind
    }

    pub fn len(&self) -> (n: usize)
        ensures
            n == self.cells().len(),
    {
        array_len(&self.inner)
    }

    /// Whether the slot at `index` holds a value rather than a null.
    pub fn is_valid(&self, index: usize) -> (valid: bool)
        requires
            index < self.cells().len(),
        ensures
            valid == self.cells()[index as int] is Some,
    {
        array_is_valid(&self.inner, index)
    }
}

/// A chunk that has reached `CHUNK_SIZE` rows: an immutable array with the
/// version identifier its chunk received when it was created.
pub struct FrozenChunk {
    array: ColumnArray,
    chunk_id: VersionID,
}

impl FrozenChunk {
    pub closed spec fn spec_array(&self) -> ColumnArray {
        self.array
    }

    pub closed spec fn spec_chunk_id(&self) -> VersionID {
        self.chunk_id
    }

    pub closed spec fn spec_new(array: ColumnArray, chunk_id: VersionID) -> Self {
        FrozenChunk { array, chunk_id }
    }

    pub fn new(array: ColumnArray, chunk_id: VersionID) -> (r: Self)
        ensures
            r == Self::spec_new(array, chunk_id),
            r.spec_array() == array,
            r.chunk_id() == chunk_id,
    {
        FrozenChunk { array, chunk_id }
    }

    pub broadcast proof fn lemma_spec_new(array: ColumnArray, chunk_id: VersionID)
        ensures
            #[trigger] Self::spec_new(array, chunk_id).spec_array() == array,
            Self::spec_new(array, chunk_id).chunk_id() == chunk_id,
    {
    }

    #[verifier::when_used_as_spec(spec_chunk_id)]
    pub fn chunk_id(&self) -> (r: VersionID)
        ensures
            r == self.chunk_id(),
    {
        self.chunk_id
    }

    /// A view of the chunk's values as values of type `V`; `None` if the chunk
    /// holds values of another type.
    pub fn view<V: AppendableType>(&self) -> (r: Option<ChunkView<'_, V>>)
        ensures
            match r {
                Some(view) => {
                    &&& self.spec_array().kind() == V::kind()
                    &&& view.spec_array() == self.spec_array()
                    &&& view.logical_size().get() == CHUNK_SIZE
                },
                None => self.spec_array().kind() != V::kind(),
            },
    {
        if self.array.kind() == V::column_kind() {
            Some(ChunkView { array: &self.array, logical_size: LogicalSize::new(CHUNK_SIZE), _marker: PhantomData })
        } else {
            None
        }
    }
}

/// A typed view over a frozen chunk: its array, known to hold values of type `V`.
pub struct ChunkView<'a, V> {
    array: &'a ColumnArray,
    logical_size: LogicalSize,
    _marker: PhantomData<V>,
}

impl<'a, V> ChunkView<'a, V> {
    pub closed spec fn spec_array(&self) -> ColumnArray {
        *self.array
    }

    pub closed spec fn spec_logical_size(&self) -> LogicalSize {
        self.logical_size
    }

    pub fn array(&self) -> (r: &'a ColumnArray)
        ensures
            *r == self.spec_array(),
    {
        self.array
    }

    #[verifier::when_used_as_spec(spec_logical_size)]
    pub fn logical_size(&self) -> (r: LogicalSize)
        ensures
            r == self.logical_size(),
    {
        self.logical_size
    }
}

/// The chunk a column is currently writing into.
pub struct MutableChunk {
    builder: ColumnBuilder,
    chunk_id: VersionID,
}

impl MutableChunk {
    /// The cells written to this chunk so far.
    pub closed spec fn cells(&self) -> Seq<Option<int>> {
        self.builder.cells()
    }

    pub closed spec fn spec_kind(&self) -> ColumnKind {
        self.builder.kind()
    }

    pub closed spec fn spec_chunk_id(&self) -> VersionID {
        self.chunk_id
    }

    pub closed spec fn wf(&self) -> bool {
        self.builder.wf()
    }

    /// The element type of the chunk.
    pub fn kind(&self) -> (k: ColumnKind)
        ensures
            k == self.spec_kind(),
    {
        self.builder.kind()
    }

    pub fn new(builder: ColumnBuilder, chunk_id: VersionID) -> (r: Self)
        ensures
            r.wf() == builder.wf(),
            r.cells() == builder.cells(),
            r.spec_kind() == builder.kind(),
            r.chunk_id() == chunk_id,
    {
        MutableChunk { builder, chunk_id }
    }

    #[verifier::when_used_as_spec(spec_chunk_id)]
    pub fn chunk_id(&self) -> (r: VersionID)
        ensures
            r == self.chunk_id(),
    {
        self.chunk_id
    }

    /// A point-in-time copy of the cells written so far.
    pub fn get_snapshot(&self) -> (array: ColumnArray)
        requires
            self.wf(),
        ensures
            array.wf(),
            array.cells() == self.cells(),
            array.kind() == self.spec_kind(),
    {
        self.builder.finish_cloned()
    }

    /// Resolves the chunk into a writer for values of type `B`; gives the chunk
    /// back unchanged if it holds values of another type.
    pub fn builder<B: AppendableType>(self) -> (r: Result<ChunkWriter<B>, Self>)
        requires
            self.wf(),
        ensures
            match r {
                Ok(writer) => {
                    &&& self.spec_kind() == B::kind()
                    &&& writer.wf()
                    &&& writer.cells() == self.cells()
                    &&& writer.chunk_id() == self.chunk_id()
                },
                Err(chunk) => self.spec_kind() != B::kind() && chunk == self,
            },
    {
        if self.builder.kind() == B::column_kind() {
            Ok(ChunkWriter { builder: self.builder, chunk_id: self.chunk_id, _marker: PhantomData })
        } else {
            Err(self)
        }
    }

    /// Turns a writer back into a chunk.
    pub fn from<B: AppendableType>(writer: ChunkWriter<B>) -> (r: Self)
        requires
            writer.wf(),
        ensures
            r.wf(),
            r.cells() == writer.cells(),
            r.spec_kind() == B::kind(),
            r.chunk_id() == writer.chunk_id(),
    {
        MutableChunk { builder: writer.builder, chunk_id: writer.chunk_id }
    }
}

/// A mutable chunk resolved to values of type `B`.
pub struct ChunkWriter<B: AppendableType> {
    builder: ColumnBuilder,
    chunk_id: VersionID,
    _marker: PhantomData<B>,
}

impl<B: AppendableType> ChunkWriter<B> {
    pub closed spec fn cells(&self) -> Seq<Option<int>> {
        self.builder.cells()
    }

    pub closed spec fn spec_chunk_id(&self) -> VersionID {
        self.chunk_id
    }

    pub closed spec fn wf(&self) -> bool {
        &&& self.builder.wf()
        &&& self.builder.kind() == B::kind()
    }

    #[verifier::when_used_as_spec(spec_chunk_id)]
    pub fn chunk_id(&self) -> (r: VersionID)
        ensures
            r == self.chunk_id(),
    {
        self.chunk_id
    }

    pub fn len(&self) -> (n: usize)
        ensures
            n == self.cells().len(),
    {
        self.builder.len()
    }
}

impl<B: Append> ChunkWriter<B> {
    /// Appends a value to the chunk, consuming the value before checking
    /// whether the chunk has reached `CHUNK_SIZE`.
    ///
    /// The value is always inserted. If this insertion fills the chunk, the
    /// completed builder is returned together with its chunk ID instead of
    /// the writer.
    pub fn append(self, value: B) -> (r: Result<Self, (ColumnBuilder, VersionID)>)
        requires
            self.wf(),
            self.cells().len() < CHUNK_SIZE,
        ensures
            ({
                let after = self.cells().push(B::cell(value));
                match r {
                    Ok(writer) => {
                        &&& writer.wf()
                        &&& writer.cells() == after
                        &&& after.len() < CHUNK_SIZE
                        &&& writer.chunk_id() == self.chunk_id()
                    },
                    Err((builder, chunk_id)) => {
                        &&& builder.wf()
                        &&& builder.kind() == B::kind()
                        &&& builder.cells() == after
                        &&& after.len() == CHUNK_SIZE
                        &&& chunk_id == self.chunk_id()
                    },
                }
            }),
    {
        let mut writer = self;
        B::append(&mut writer.builder, value);
        if writer.builder.len() < CHUNK_SIZE as usize {
            Ok(writer)
        } else {
            Err((writer.builder, writer.chunk_id))
        }
    }

    /// Appends as many values of `values` as the chunk has room for.
    ///
    /// If the chunk is then full, the completed builder is returned together
    /// with its chunk ID and the values that did not fit.
    pub fn append_values(self, values: &[B]) -> (r: Result<Self, (ColumnBuilder, VersionID, &[B])>)
        requires
            self.wf(),
            self.cells().len() < CHUNK_SIZE,
        ensures
            ({
                let capacity = CHUNK_SIZE - self.cells().len();
                let written = if values@.len() <= capacity {
                    values@.len() as int
                } else {
                    capacity
                };
                let after = self.cells() + cells_of(values@.subrange(0, written));
                match r {
                    Ok(writer) => {
                        &&& writer.wf()
                        &&& written == values@.len()
                        &&& after.len() < CHUNK_SIZE
                        &&& writer.cells() == after
                        &&& writer.chunk_id() == self.chunk_id()
                    },
                    Err((builder, chunk_id, remainder)) => {
                        &&& builder.wf()
                        &&& builder.kind() == B::kind()
                        &&& after.len() == CHUNK_SIZE
                        &&& builder.cells() == after
                        &&& chunk_id == self.chunk_id()
                        &&& remainder@ == values@.subrange(written, values@.len() as int)
                    },
                }
            }),
    {
        let mut writer = self;
        let capacity: usize = CHUNK_SIZE as usize - writer.builder.len();
        let split: usize = if values.len() <= capacity {
            values.len()
        } else {
            capacity
        };
        let (written, returnable) = values.split_at(split);
        B::append_values(&mut writer.builder, written);
        if writer.builder.len() == CHUNK_SIZE as usize {
            Err((writer.builder, writer.chunk_id, returnable))
        } else {
            Ok(writer)
        }
    }
}

// Typed access to arrays, and the built-in column types.

impl ColumnArray {
    /// The value buffer of an array of `i8` values.
    pub fn int8_values(&self) -> (values: &[i8])
        requires
            self.wf(),
            self.kind() == ColumnKind::Int8,
        ensures
            values@.len() == self.cells().len(),
            forall|i: int|
                0 <= i < values@.len() && self.cells()[i] is Some ==> self.cells()[i] == Some(
                    #[trigger] values@[i] as int,
                ),
    {
        int8_array_values(&self.inner)
    }

    /// The value buffer of an array of `i16` values.
    pub fn int16_values(&self) -> (values: &[i16])
        requires
            self.wf(),
            self.kind() == ColumnKind::Int16,
        ensures
            values@.len() == self.cells().len(),
            forall|i: int|
                0 <= i < values@.len() && self.cells()[i] is Some ==> self.cells()[i] == Some(
                    #[trigger] values@[i] as int,
                ),
    {
        int16_array_values(&self.inner)
    }

    /// The value buffer of an array of `i32` values.
    pub fn int32_values(&self) -> (values: &[i32])
        requires
            self.wf(),
            self.kind() == ColumnKind::Int32,
        ensures
            values@.len() == self.cells().len(),
            forall|i: int|
                0 <= i < values@.len() && self.cells()[i] is Some ==> self.cells()[i] == Some(
                    #[trigger] values@[i] as int,
                ),
    {
        int32_array_values(&self.inner)
    }

    /// The value buffer of an array of `i64` values.
    pub fn int64_values(&self) -> (values: &[i64])
        requires
            self.wf(),
            self.kind() == ColumnKind::Int64,
        ensures
            values@.len() == self.cells().len(),
            forall|i: int|
                0 <= i < values@.len() && self.cells()[i] is Some ==> self.cells()[i] == Some(
                    #[trigger] values@[i] as int,
                ),
    {
        int64_array_values(&self.inner)
    }

    /// The value buffer of an array of `u8` values.
    pub fn uint8_values(&self) -> (values: &[u8])
        requires
            self.wf(),
            self.kind() == ColumnKind::UInt8,
        ensures
            values@.len() == self.cells().len(),
            forall|i: int|
                0 <= i < values@.len() && self.cells()[i] is Some ==> self.cells()[i] == Some(
                    #[trigger] values@[i] as int,
                ),
    {
        uint8_array_values(&self.inner)
    }

    /// The value buffer of an array of `u16` values.
    pub fn uint16_values(&self) -> (values: &[u16])
        requires
            self.wf(),
            self.kind() == ColumnKind::UInt16,
        ensures
            values@.len() == self.cells().len(),
            forall|i: int|
                0 <= i < values@.len() && self.cells()[i] is Some ==> self.cells()[i] == Some(
                    #[trigger] values@[i] as int,
                ),
    {
        uint16_array_values(&self.inner)
    }

    /// The value buffer of an array of `u32` values.
    pub fn uint32_values(&self) -> (values: &[u32])
        requires
            self.wf(),
            self.kind() == ColumnKind::UInt32,
        ensures
            values@.len() == self.cells().len(),
            forall|i: int|
                0 <= i < values@.len() && self.cells()[i] is Some ==> self.cells()[i] == Some(
                    #[trigger] values@[i] as int,
                ),
    {
        uint32_array_values(&self.inner)
    }

    /// The value buffer of an array of `u64` values.
    pub fn uint64_values(&self) -> (values: &[u64])
        requires
            self.wf(),
            self.kind() == ColumnKind::UInt64,
        ensures
            values@.len() == self.cells().len(),
            forall|i: int|
                0 <= i < values@.len() && self.cells()[i] is Some ==> self.cells()[i] == Some(
                    #[trigger] values@[i] as int,
                ),
    {
        uint64_array_values(&self.inner)
    }
}

// Built-in column types: every native type, and its nullable counterpart.

impl AppendableType for bool {
    open spec fn kind() -> ColumnKind {
        ColumnKind::Boolean
    }

    open spec fn cell(value: bool) -> Option<int> {
        Some((if value { 1int } else { 0int }))
    }

    fn column_kind() -> (k: ColumnKind) {
        ColumnKind::Boolean
    }

    fn builder() -> (b: ColumnBuilder) {
        ColumnBuilder { kind: ColumnKind::Boolean, inner: new_boolean_builder(BUILDER_CAPACITY) }
    }
}

impl Append for bool {
    fn into_run(values: Vec<bool>) -> (run: Run) {
        Run::Boolean(values)
    }

    fn append(builder: &mut ColumnBuilder, value: bool) {
        append_boolean_value(&mut builder.inner, value);
    }

    fn append_values(builder: &mut ColumnBuilder, values: &[bool]) {
        append_boolean_slice(&mut builder.inner, values);
        assert(values@.map_values(|v: bool| Some((if v { 1int } else { 0int }))) =~= cells_of(values@));
    }
}

impl AppendableType for Option<bool> {
    open spec fn kind() -> ColumnKind {
        ColumnKind::Boolean
    }

    open spec fn cell(value: Option<bool>) -> Option<int> {
        match value {
            Some(v) => Some((if v { 1int } else { 0int })),
            None => None,
        }
    }

    fn column_kind() -> (k: ColumnKind) {
        ColumnKind::Boolean
    }

    fn builder() -> (b: ColumnBuilder) {
        ColumnBuilder { kind: ColumnKind::Boolean, inner: new_boolean_builder(BUILDER_CAPACITY) }
    }
}

impl Append for Option<bool> {
    fn into_run(values: Vec<Option<bool>>) -> (run: Run) {
        Run::NullableBoolean(values)
    }

    fn append(builder: &mut ColumnBuilder, value: Option<bool>) {
        append_boolean_option(&mut builder.inner, value);
    }

    fn append_values(builder: &mut ColumnBuilder, values: &[Option<bool>]) {
        let ghost before = builder.cells();
        let mut index: usize = 0;
        while index < values.len()
            invariant
                index <= values@.len(),
                builder.wf(),
                builder.kind() == ColumnKind::Boolean,
                builder.cells() == before + cells_of(values@.subrange(0, index as int)),
            decreases values@.len() - index,
        {
            let value = values[index];
            append_boolean_option(&mut builder.inner, value);
            proof {
                assert(values@.subrange(0, index + 1) =~= values@.subrange(0, index as int).push(value));
            }
            index = index + 1;
        }
        assert(values@.subrange(0, index as int) =~= values@);
    }
}

impl AppendableType for i8 {
    open spec fn kind() -> ColumnKind {
        ColumnKind::Int8
    }

    open spec fn cell(value: i8) -> Option<int> {
        Some(value as int)
    }

    fn column_kind() -> (k: ColumnKind) {
        ColumnKind::Int8
    }

    fn builder() -> (b: ColumnBuilder) {
        ColumnBuilder { kind: ColumnKind::Int8, inner: new_int8_builder(BUILDER_CAPACITY) }
    }
}

impl Append for i8 {
    fn into_run(values: Vec<i8>) -> (run: Run) {
        Run::Int8(values)
    }

    fn append(builder: &mut ColumnBuilder, value: i8) {
        append_int8_value(&mut builder.inner, value);
    }

    fn append_values(builder: &mut ColumnBuilder, values: &[i8]) {
        append_int8_slice(&mut builder.inner, values);
        assert(values@.map_values(|v: i8| Some(v as int)) =~= cells_of(values@));
    }
}

impl AppendableType for Option<i8> {
    open spec fn kind() -> ColumnKind {
        ColumnKind::Int8
    }

    open spec fn cell(value: Option<i8>) -> Option<int> {
        match value {
            Some(v) => Some(v as int),
            None => None,
        }
    }

    fn column_kind() -> (k: ColumnKind) {
        ColumnKind::Int8
    }

    fn builder() -> (b: ColumnBuilder) {
        ColumnBuilder { kind: ColumnKind::Int8, inner: new_int8_builder(BUILDER_CAPACITY) }
    }
}

impl Append for Option<i8> {
    fn into_run(values: Vec<Option<i8>>) -> (run: Run) {
        Run::NullableInt8(values)
    }

    fn append(builder: &mut ColumnBuilder, value: Option<i8>) {
        append_int8_option(&mut builder.inner, value);
    }

    fn append_values(builder: &mut ColumnBuilder, values: &[Option<i8>]) {
        let ghost before = builder.cells();
        let mut index: usize = 0;
        while index < values.len()
            invariant
                index <= values@.len(),
                builder.wf(),
                builder.kind() == ColumnKind::Int8,
                builder.cells() == before + cells_of(values@.subrange(0, index as int)),
            decreases values@.len() - index,
        {
            let value = values[index];
            append_int8_option(&mut builder.inner, value);
            proof {
                assert(values@.subrange(0, index + 1) =~= values@.subrange(0, index as int).push(value));
            }
            index = index + 1;
        }
        assert(values@.subrange(0, index as int) =~= values@);
    }
}

impl AppendableType for i16 {
    open spec fn kind() -> ColumnKind {
        ColumnKind::Int16
    }

    open spec fn cell(value: i16) -> Option<int> {
        Some(value as int)
    }

    fn column_kind() -> (k: ColumnKind) {
        ColumnKind::Int16
    }

    fn builder() -> (b: ColumnBuilder) {
        ColumnBuilder { kind: ColumnKind::Int16, inner: new_int16_builder(BUILDER_CAPACITY) }
    }
}

impl Append for i16 {
    fn into_run(values: Vec<i16>) -> (run: Run) {
        Run::Int16(values)
    }

    fn append(builder: &mut ColumnBuilder, value: i16) {
        append_int16_value(&mut builder.inner, value);
    }

    fn append_values(builder: &mut ColumnBuilder, values: &[i16]) {
        append_int16_slice(&mut builder.inner, values);
        assert(values@.map_values(|v: i16| Some(v as int)) =~= cells_of(values@));
    }
}

impl AppendableType for Option<i16> {
    open spec fn kind() -> ColumnKind {
        ColumnKind::Int16
    }

    open spec fn cell(value: Option<i16>) -> Option<int> {
        match value {
            Some(v) => Some(v as int),
            None => None,
        }
    }

    fn column_kind() -> (k: ColumnKind) {
        ColumnKind::Int16
    }

    fn builder() -> (b: ColumnBuilder) {
        ColumnBuilder { kind: ColumnKind::Int16, inner: new_int16_builder(BUILDER_CAPACITY) }
    }
}

impl Append for Option<i16> {
    fn into_run(values: Vec<Option<i16>>) -> (run: Run) {
        Run::NullableInt16(values)
    }

    fn append(builder: &mut ColumnBuilder, value: Option<i16>) {
        append_int16_option(&mut builder.inner, value);
    }

    fn append_values(builder: &mut ColumnBuilder, values: &[Option<i16>]) {
        let ghost before = builder.cells();
        let mut index: usize = 0;
        while index < values.len()
            invariant
                index <= values@.len(),
                builder.wf(),
                builder.kind() == ColumnKind::Int16,
                builder.cells() == before + cells_of(values@.subrange(0, index as int)),
            decreases values@.len() - index,
        {
            let value = values[index];
            append_int16_option(&mut builder.inner, value);
            proof {
                assert(values@.subrange(0, index + 1) =~= values@.subrange(0, index as int).push(value));
            }
            index = index + 1;
        }
        assert(values@.subrange(0, index as int) =~= values@);
    }
}

impl AppendableType for i32 {
    open spec fn kind() -> ColumnKind {
        ColumnKind::Int32
    }

    open spec fn cell(value: i32) -> Option<int> {
        Some(value as int)
    }

    fn column_kind() -> (k: ColumnKind) {
        ColumnKind::Int32
    }

    fn builder() -> (b: ColumnBuilder) {
        ColumnBuilder { kind: ColumnKind::Int32, inner: new_int32_builder(BUILDER_CAPACITY) }
    }
}

impl Append for i32 {
    fn into_run(values: Vec<i32>) -> (run: Run) {
        Run::Int32(values)
    }

    fn append(builder: &mut ColumnBuilder, value: i32) {
        append_int32_value(&mut builder.inner, value);
    }

    fn append_values(builder: &mut ColumnBuilder, values: &[i32]) {
        append_int32_slice(&mut builder.inner, values);
        assert(values@.map_values(|v: i32| Some(v as int)) =~= cells_of(values@));
    }
}

impl AppendableType for Option<i32> {
    open spec fn kind() -> ColumnKind {
        ColumnKind::Int32
    }

    open spec fn cell(value: Option<i32>) -> Option<int> {
        match value {
            Some(v) => Some(v as int),
            None => None,
        }
    }

    fn column_kind() -> (k: ColumnKind) {
        ColumnKind::Int32
    }

    fn builder() -> (b: ColumnBuilder) {
        ColumnBuilder { kind: ColumnKind::Int32, inner: new_int32_builder(BUILDER_CAPACITY) }
    }
}

impl Append for Option<i32> {
    fn into_run(values: Vec<Option<i32>>) -> (run: Run) {
        Run::NullableInt32(values)
    }

    fn append(builder: &mut ColumnBuilder, value: Option<i32>) {
        append_int32_option(&mut builder.inner, value);
    }

    fn append_values(builder: &mut ColumnBuilder, values: &[Option<i32>]) {
        let ghost before = builder.cells();
        let mut index: usize = 0;
        while index < values.len()
            invariant
                index <= values@.len(),
                builder.wf(),
                builder.kind() == ColumnKind::Int32,
                builder.cells() == before + cells_of(values@.subrange(0, index as int)),
            decreases values@.len() - index,
        {
            let value = values[index];
            append_int32_option(&mut builder.inner, value);
            proof {
                assert(values@.subrange(0, index + 1) =~= values@.subrange(0, index as int).push(value));
            }
            index = index + 1;
        }
        assert(values@.subrange(0, index as int) =~= values@);
    }
}

impl AppendableType for i64 {
    open spec fn kind() -> ColumnKind {
        ColumnKind::Int64
    }

    open spec fn cell(value: i64) -> Option<int> {
        Some(value as int)
    }

    fn column_kind() -> (k: ColumnKind) {
        ColumnKind::Int64
    }

    fn builder() -> (b: ColumnBuilder) {
        ColumnBuilder { kind: ColumnKind::Int64, inner: new_int64_builder(BUILDER_CAPACITY) }
    }
}

impl Append for i64 {
    fn into_run(values: Vec<i64>) -> (run: Run) {
        Run::Int64(values)
    }

    fn append(builder: &mut ColumnBuilder, value: i64) {
        append_int64_value(&mut builder.inner, value);
    }

    fn append_values(builder: &mut ColumnBuilder, values: &[i64]) {
        append_int64_slice(&mut builder.inner, values);
        assert(values@.map_values(|v: i64| Some(v as int)) =~= cells_of(values@));
    }
}

impl AppendableType for Option<i64> {
    open spec fn kind() -> ColumnKind {
        ColumnKind::Int64
    }

    open spec fn cell(value: Option<i64>) -> Option<int> {
        match value {
            Some(v) => Some(v as int),
            None => None,
        }
    }

    fn column_kind() -> (k: ColumnKind) {
        ColumnKind::Int64
    }

    fn builder() -> (b: ColumnBuilder) {
        ColumnBuilder { kind: ColumnKind::Int64, inner: new_int64_builder(BUILDER_CAPACITY) }
    }
}

impl Append for Option<i64> {
    fn into_run(values: Vec<Option<i64>>) -> (run: Run) {
        Run::NullableInt64(values)
    }

    fn append(builder: &mut ColumnBuilder, value: Option<i64>) {
        append_int64_option(&mut builder.inner, value);
    }

    fn append_values(builder: &mut ColumnBuilder, values: &[Option<i64>]) {
        let ghost before = builder.cells();
        let mut index: usize = 0;
        while index < values.len()
            invariant
                index <= values@.len(),
                builder.wf(),
                builder.kind() == ColumnKind::Int64,
                builder.cells() == before + cells_of(values@.subrange(0, index as int)),
            decreases values@.len() - index,
        {
            let value = values[index];
            append_int64_option(&mut builder.inner, value);
            proof {
                assert(values@.subrange(0, index + 1) =~= values@.subrange(0, index as int).push(value));
            }
            index = index + 1;
        }
        assert(values@.subrange(0, index as int) =~= values@);
    }
}

impl AppendableType for u8 {
    open spec fn kind() -> ColumnKind {
        ColumnKind::UInt8
    }

    open spec fn cell(value: u8) -> Option<int> {
        Some(value as int)
    }

    fn column_kind() -> (k: ColumnKind) {
        ColumnKind::UInt8
    }

    fn builder() -> (b: ColumnBuilder) {
        ColumnBuilder { kind: ColumnKind::UInt8, inner: new_uint8_builder(BUILDER_CAPACITY) }
    }
}

impl Append for u8 {
    fn into_run(values: Vec<u8>) -> (run: Run) {
        Run::UInt8(values)
    }

    fn append(builder: &mut ColumnBuilder, value: u8) {
        append_uint8_value(&mut builder.inner, value);
    }

    fn append_values(builder: &mut ColumnBuilder, values: &[u8]) {
        append_uint8_slice(&mut builder.inner, values);
        assert(values@.map_values(|v: u8| Some(v as int)) =~= cells_of(values@));
    }
}

impl AppendableType for Option<u8> {
    open spec fn kind() -> ColumnKind {
        ColumnKind::UInt8
    }

    open spec fn cell(value: Option<u8>) -> Option<int> {
        match value {
            Some(v) => Some(v as int),
            None => None,
        }
    }

    fn column_kind() -> (k: ColumnKind) {
        ColumnKind::UInt8
    }

    fn builder() -> (b: ColumnBuilder) {
        ColumnBuilder { kind: ColumnKind::UInt8, inner: new_uint8_builder(BUILDER_CAPACITY) }
    }
}

impl Append for Option<u8> {
    fn into_run(values: Vec<Option<u8>>) -> (run: Run) {
        Run::NullableUInt8(values)
    }

    fn append(builder: &mut ColumnBuilder, value: Option<u8>) {
        append_uint8_option(&mut builder.inner, value);
    }

    fn append_values(builder: &mut ColumnBuilder, values: &[Option<u8>]) {
        let ghost before = builder.cells();
        let mut index: usize = 0;
        while index < values.len()
            invariant
                index <= values@.len(),
                builder.wf(),
                builder.kind() == ColumnKind::UInt8,
                builder.cells() == before + cells_of(values@.subrange(0, index as int)),
            decreases values@.len() - index,
        {
            let value = values[index];
            append_uint8_option(&mut builder.inner, value);
            proof {
                assert(values@.subrange(0, index + 1) =~= values@.subrange(0, index as int).push(value));
            }
            index = index + 1;
        }
        assert(values@.subrange(0, index as int) =~= values@);
    }
}

impl AppendableType for u16 {
    open spec fn kind() -> ColumnKind {
        ColumnKind::UInt16
    }

    open spec fn cell(value: u16) -> Option<int> {
        Some(value as int)
    }

    fn column_kind() -> (k: ColumnKind) {
        ColumnKind::UInt16
    }

    fn builder() -> (b: ColumnBuilder) {
        ColumnBuilder { kind: ColumnKind::UInt16, inner: new_uint16_builder(BUILDER_CAPACITY) }
    }
}

impl Append for u16 {
    fn into_run(values: Vec<u16>) -> (run: Run) {
        Run::UInt16(values)
    }

    fn append(builder: &mut ColumnBuilder, value: u16) {
        append_uint16_value(&mut builder.inner, value);
    }

    fn append_values(builder: &mut ColumnBuilder, values: &[u16]) {
        append_uint16_slice(&mut builder.inner, values);
        assert(values@.map_values(|v: u16| Some(v as int)) =~= cells_of(values@));
    }
}

impl AppendableType for Option<u16> {
    open spec fn kind() -> ColumnKind {
        ColumnKind::UInt16
    }

    open spec fn cell(value: Option<u16>) -> Option<int> {
        match value {
            Some(v) => Some(v as int),
            None => None,
        }
    }

    fn column_kind() -> (k: ColumnKind) {
        ColumnKind::UInt16
    }

    fn builder() -> (b: ColumnBuilder) {
        ColumnBuilder { kind: ColumnKind::UInt16, inner: new_uint16_builder(BUILDER_CAPACITY) }
    }
}

impl Append for Option<u16> {
    fn into_run(values: Vec<Option<u16>>) -> (run: Run) {
        Run::NullableUInt16(values)
    }

    fn append(builder: &mut ColumnBuilder, value: Option<u16>) {
        append_uint16_option(&mut builder.inner, value);
    }

    fn append_values(builder: &mut ColumnBuilder, values: &[Option<u16>]) {
        let ghost before = builder.cells();
        let mut index: usize = 0;
        while index < values.len()
            invariant
                index <= values@.len(),
                builder.wf(),
                builder.kind() == ColumnKind::UInt16,
                builder.cells() == before + cells_of(values@.subrange(0, index as int)),
            decreases values@.len() - index,
        {
            let value = values[index];
            append_uint16_option(&mut builder.inner, value);
            proof {
                assert(values@.subrange(0, index + 1) =~= values@.subrange(0, index as int).push(value));
            }
            index = index + 1;
        }
        assert(values@.subrange(0, index as int) =~= values@);
    }
}

impl AppendableType for u32 {
    open spec fn kind() -> ColumnKind {
        ColumnKind::UInt32
    }

    open spec fn cell(value: u32) -> Option<int> {
        Some(value as int)
    }

    fn column_kind() -> (k: ColumnKind) {
        ColumnKind::UInt32
    }

    fn builder() -> (b: ColumnBuilder) {
        ColumnBuilder { kind: ColumnKind::UInt32, inner: new_uint32_builder(BUILDER_CAPACITY) }
    }
}

impl Append for u32 {
    fn into_run(values: Vec<u32>) -> (run: Run) {
        Run::UInt32(values)
    }

    fn append(builder: &mut ColumnBuilder, value: u32) {
        append_uint32_value(&mut builder.inner, value);
    }

    fn append_values(builder: &mut ColumnBuilder, values: &[u32]) {
        append_uint32_slice(&mut builder.inner, values);
        assert(values@.map_values(|v: u32| Some(v as int)) =~= cells_of(values@));
    }
}

impl AppendableType for Option<u32> {
    open spec fn kind() -> ColumnKind {
        ColumnKind::UInt32
    }

    open spec fn cell(value: Option<u32>) -> Option<int> {
        match value {
            Some(v) => Some(v as int),
            None => None,
        }
    }

    fn column_kind() -> (k: ColumnKind) {
        ColumnKind::UInt32
    }

    fn builder() -> (b: ColumnBuilder) {
        ColumnBuilder { kind: ColumnKind::UInt32, inner: new_uint32_builder(BUILDER_CAPACITY) }
    }
}

impl Append for Option<u32> {
    fn into_run(values: Vec<Option<u32>>) -> (run: Run) {
        Run::NullableUInt32(values)
    }

    fn append(builder: &mut ColumnBuilder, value: Option<u32>) {
        append_uint32_option(&mut builder.inner, value);
    }

    fn append_values(builder: &mut ColumnBuilder, values: &[Option<u32>]) {
        let ghost before = builder.cells();
        let mut index: usize = 0;
        while index < values.len()
            invariant
                index <= values@.len(),
                builder.wf(),
                builder.kind() == ColumnKind::UInt32,
                builder.cells() == before + cells_of(values@.subrange(0, index as int)),
            decreases values@.len() - index,
        {
            let value = values[index];
            append_uint32_option(&mut builder.inner, value);
            proof {
                assert(values@.subrange(0, index + 1) =~= values@.subrange(0, index as int).push(value));
            }
            index = index + 1;
        }
        assert(values@.subrange(0, index as int) =~= values@);
    }
}

impl AppendableType for u64 {
    open spec fn kind() -> ColumnKind {
        ColumnKind::UInt64
    }

    open spec fn cell(value: u64) -> Option<int> {
        Some(value as int)
    }

    fn column_kind() -> (k: ColumnKind) {
        ColumnKind::UInt64
    }

    fn builder() -> (b: ColumnBuilder) {
        ColumnBuilder { kind: ColumnKind::UInt64, inner: new_uint64_builder(BUILDER_CAPACITY) }
    }
}

impl Append for u64 {
    fn into_run(values: Vec<u64>) -> (run: Run) {
        Run::UInt64(values)
    }

    fn append(builder: &mut ColumnBuilder, value: u64) {
        append_uint64_value(&mut builder.inner, value);
    }

    fn append_values(builder: &mut ColumnBuilder, values: &[u64]) {
        append_uint64_slice(&mut builder.inner, values);
        assert(values@.map_values(|v: u64| Some(v as int)) =~= cells_of(values@));
    }
}

impl AppendableType for Option<u64> {
    open spec fn kind() -> ColumnKind {
        ColumnKind::UInt64
    }

    open spec fn cell(value: Option<u64>) -> Option<int> {
        match value {
            Some(v) => Some(v as int),
            None => None,
        }
    }

    fn column_kind() -> (k: ColumnKind) {
        ColumnKind::UInt64
    }

    fn builder() -> (b: ColumnBuilder) {
        ColumnBuilder { kind: ColumnKind::UInt64, inner: new_uint64_builder(BUILDER_CAPACITY) }
    }
}

impl Append for Option<u64> {
    fn into_run(values: Vec<Option<u64>>) -> (run: Run) {
        Run::NullableUInt64(values)
    }

    fn append(builder: &mut ColumnBuilder, value: Option<u64>) {
        append_uint64_option(&mut builder.inner, value);
    }

    fn append_values(builder: &mut ColumnBuilder, values: &[Option<u64>]) {
        let ghost before = builder.cells();
        let mut index: usize = 0;
        while index < values.len()
            invariant
                index <= values@.len(),
                builder.wf(),
                builder.kind() == ColumnKind::UInt64,
                builder.cells() == before + cells_of(values@.subrange(0, index as int)),
            decreases values@.len() - index,
        {
            let value = values[index];
            append_uint64_option(&mut builder.inner, value);
            proof {
                assert(values@.subrange(0, index + 1) =~= values@.subrange(0, index as int).push(value));
            }
            index = index + 1;
        }
        assert(values@.subrange(0, index as int) =~= values@);
    }
}

/// What each built-in column type writes: a value is stored as itself (a
/// boolean as 1 or 0) in a column of its own element type; a nullable value
/// is stored in the same column type, `Some(v)` exactly as `v` is and `None`
/// as a null.
pub proof fn lemma_builtin_cells()
    ensures
        <bool as AppendableType>::kind() == ColumnKind::Boolean,
        <Option<bool> as AppendableType>::kind() == ColumnKind::Boolean,
        forall|v: bool| #[trigger] <bool as AppendableType>::cell(v) == Some(if v { 1int } else { 0int }),
        forall|v: bool|
            #[trigger] <Option<bool> as AppendableType>::cell(Some(v)) == <bool as AppendableType>::cell(v),
        <Option<bool> as AppendableType>::cell(None) == None::<int>,
        <i8 as AppendableType>::kind() == ColumnKind::Int8,
        <Option<i8> as AppendableType>::kind() == ColumnKind::Int8,
        forall|v: i8| #[trigger] <i8 as AppendableType>::cell(v) == Some(v as int),
        forall|v: i8|
            #[trigger] <Option<i8> as AppendableType>::cell(Some(v)) == <i8 as AppendableType>::cell(v),
        <Option<i8> as AppendableType>::cell(None) == None::<int>,
        <i16 as AppendableType>::kind() == ColumnKind::Int16,
        <Option<i16> as AppendableType>::kind() == ColumnKind::Int16,
        forall|v: i16| #[trigger] <i16 as AppendableType>::cell(v) == Some(v as int),
        forall|v: i16|
            #[trigger] <Option<i16> as AppendableType>::cell(Some(v)) == <i16 as AppendableType>::cell(v),
        <Option<i16> as AppendableType>::cell(None) == None::<int>,
        <i32 as AppendableType>::kind() == ColumnKind::Int32,
        <Option<i32> as AppendableType>::kind() == ColumnKind::Int32,
        forall|v: i32| #[trigger] <i32 as AppendableType>::cell(v) == Some(v as int),
        forall|v: i32|
            #[trigger] <Option<i32> as AppendableType>::cell(Some(v)) == <i32 as AppendableType>::cell(v),
        <Option<i32> as AppendableType>::cell(None) == None::<int>,
        <i64 as AppendableType>::kind() == ColumnKind::Int64,
        <Option<i64> as AppendableType>::kind() == ColumnKind::Int64,
        forall|v: i64| #[trigger] <i64 as AppendableType>::cell(v) == Some(v as int),
        forall|v: i64|
            #[trigger] <Option<i64> as AppendableType>::cell(Some(v)) == <i64 as AppendableType>::cell(v),
        <Option<i64> as AppendableType>::cell(None) == None::<int>,
        <u8 as AppendableType>::kind() == ColumnKind::UInt8,
        <Option<u8> as AppendableType>::kind() == ColumnKind::UInt8,
        forall|v: u8| #[trigger] <u8 as AppendableType>::cell(v) == Some(v as int),
        forall|v: u8|
            #[trigger] <Option<u8> as AppendableType>::cell(Some(v)) == <u8 as AppendableType>::cell(v),
        <Option<u8> as AppendableType>::cell(None) == None::<int>,
        <u16 as AppendableType>::kind() == ColumnKind::UInt16,
        <Option<u16> as AppendableType>::kind() == ColumnKind::UInt16,
        forall|v: u16| #[trigger] <u16 as AppendableType>::cell(v) == Some(v as int),
        forall|v: u16|
            #[trigger] <Option<u16> as AppendableType>::cell(Some(v)) == <u16 as AppendableType>::cell(v),
        <Option<u16> as AppendableType>::cell(None) == None::<int>,
        <u32 as AppendableType>::kind() == ColumnKind::UInt32,
        <Option<u32> as AppendableType>::kind() == ColumnKind::UInt32,
        forall|v: u32| #[trigger] <u32 as AppendableType>::cell(v) == Some(v as int),
        forall|v: u32|
            #[trigger] <Option<u32> as AppendableType>::cell(Some(v)) == <u32 as AppendableType>::cell(v),
        <Option<u32> as AppendableType>::cell(None) == None::<int>,
        <u64 as AppendableType>::kind() == ColumnKind::UInt64,
        <Option<u64> as AppendableType>::kind() == ColumnKind::UInt64,
        forall|v: u64| #[trigger] <u64 as AppendableType>::cell(v) == Some(v as int),
        forall|v: u64|
            #[trigger] <Option<u64> as AppendableType>::cell(Some(v)) == <u64 as AppendableType>::cell(v),
        <Option<u64> as AppendableType>::cell(None) == None::<int>,
{
}

} // verus!
