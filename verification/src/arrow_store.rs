//! The Arrow builders and arrays that hold column data, and the trusted
//! functions through which the rest of the crate reaches them.
//!
//! A builder or an array is held type-erased, as Arrow hands it out
//! (`Box<dyn ArrayBuilder>`, `ArrayRef`). Its contents are named as a sequence
//! of cells: `Some(v)` for a value `v` (a boolean as 0 or 1), `None` for a null.
use arrow::array::{Array, ArrayBuilder, ArrayRef};
use vstd::prelude::*;

verus! {

/// The element types a column can hold.
#[derive(Debug, Clone, Copy, PartialEq, Eq, Structural)]
pub enum ColumnKind {
    Boolean,
    Int8,
    Int16,
    Int32,
    Int64,
    UInt8,
    UInt16,
    UInt32,
    UInt64,
}

/// A type-erased Arrow array builder.
#[verifier::external_body]
pub struct ArrowBuilder {
    inner: Box<dyn ArrayBuilder>,
}

/// A type-erased, immutable Arrow array.
#[verifier::external_body]
pub struct ArrowArray {
    inner: ArrayRef,
}

/// The cells a builder holds, in the order they were appended.
pub uninterp spec fn builder_cells(builder: ArrowBuilder) -> Seq<Option<int>>;

/// The element type of the concrete Arrow builder behind a type-erased one.
pub uninterp spec fn builder_kind(builder: ArrowBuilder) -> ColumnKind;

/// The cells an array holds.
pub uninterp spec fn array_cells(array: ArrowArray) -> Seq<Option<int>>;

/// The element type of the concrete Arrow array behind a type-erased one.
pub uninterp spec fn array_kind(array: ArrowArray) -> ColumnKind;

/// `ArrayBuilder::len`: the number of slots appended so far.
#[verifier::external_body]
pub(crate) fn builder_len(builder: &ArrowBuilder) -> (n: usize)
    ensures
        n == builder_cells(*builder).len(),
{
    builder.inner.len()
}

/// `ArrayBuilder::finish`: builds an array from the appended cells and resets
/// the builder to empty; the builder keeps its element type.
#[verifier::external_body]
pub(crate) fn builder_finish(builder: &mut ArrowBuilder) -> (array: ArrowArray)
    ensures
        array_cells(array) == builder_cells(*old(builder)),
        array_kind(array) == builder_kind(*old(builder)),
        builder_cells(*final(builder)) == Seq::<Option<int>>::empty(),
        builder_kind(*final(builder)) == builder_kind(*old(builder)),
{
    ArrowArray { inner: builder.inner.finish() }
}

/// `ArrayBuilder::finish_cloned`: builds an array from the appended cells and
/// leaves the builder as it was.
#[verifier::external_body]
pub(crate) fn builder_finish_cloned(builder: &ArrowBuilder) -> (array: ArrowArray)
    ensures
        array_cells(array) == builder_cells(*builder),
        array_kind(array) == builder_kind(*builder),
{
    ArrowArray { inner: builder.inner.finish_cloned() }
}

/// `Array::len`: the number of slots of the array.
#[verifier::external_body]
pub(crate) fn array_len(array: &ArrowArray) -> (n: usize)
    ensures
        n == array_cells(*array).len(),
{
    array.inner.len()
}

/// `Array::is_valid`: whether the slot at `index` holds a value rather than a null.
#[verifier::external_body]
pub(crate) fn array_is_valid(array: &ArrowArray, index: usize) -> (valid: bool)
    requires
        index < array_cells(*array).len(),
    ensures
        valid == array_cells(*array)[index as int] is Some,
{
    array.inner.is_valid(index)
}

/// `BooleanBuilder::with_capacity`: an empty builder of `bool` values.
#[verifier::external_body]
pub(crate) fn new_boolean_builder(capacity: usize) -> (builder: ArrowBuilder)
    ensures
        builder_kind(builder) == ColumnKind::Boolean,
        builder_cells(builder) == Seq::<Option<int>>::empty(),
{
    ArrowBuilder { inner: Box::new(arrow::array::BooleanBuilder::with_capacity(capacity)) }
}

/// `BooleanBuilder::append_value`: appends one value.
#[verifier::external_body]
pub(crate) fn append_boolean_value(builder: &mut ArrowBuilder, value: bool)
    requires
        builder_kind(*old(builder)) == ColumnKind::Boolean,
    ensures
        builder_kind(*final(builder)) == ColumnKind::Boolean,
        builder_cells(*final(builder)) == builder_cells(*old(builder)).push(Some((if value { 1int } else { 0int }))),
{
    builder.inner.as_any_mut().downcast_mut::<arrow::array::BooleanBuilder>().expect("builder holds bool values").append_value(value)
}

/// `BooleanBuilder::append_option`: appends one value, or a null for `None`.
#[verifier::external_body]
pub(crate) fn append_boolean_option(builder: &mut ArrowBuilder, value: Option<bool>)
    requires
        builder_kind(*old(builder)) == ColumnKind::Boolean,
    ensures
        builder_kind(*final(builder)) == ColumnKind::Boolean,
        builder_cells(*final(builder)) == builder_cells(*old(builder)).push(
            match value {
                Some(v) => Some((if v { 1int } else { 0int })),
                None => None,
            },
        ),
{
    builder.inner.as_any_mut().downcast_mut::<arrow::array::BooleanBuilder>().expect("builder holds bool values").append_option(value)
}

/// `BooleanBuilder::append_slice`: appends every value of `values`, in order.
#[verifier::external_body]
pub(crate) fn append_boolean_slice(builder: &mut ArrowBuilder, values: &[bool])
    requires
        builder_kind(*old(builder)) == ColumnKind::Boolean,
    ensures
        builder_kind(*final(builder)) == ColumnKind::Boolean,
        builder_cells(*final(builder)) == builder_cells(*old(builder)) + values@.map_values(
            |v: bool| Some((if v { 1int } else { 0int })),
        ),
{
    builder.inner.as_any_mut().downcast_mut::<arrow::array::BooleanBuilder>().expect("builder holds bool values").append_slice(values)
}

/// `Int8Builder::with_capacity`: an empty builder of `i8` values.
#[verifier::external_body]
pub(crate) fn new_int8_builder(capacity: usize) -> (builder: ArrowBuilder)
    ensures
        builder_kind(builder) == ColumnKind::Int8,
        builder_cells(builder) == Seq::<Option<int>>::empty(),
{
    ArrowBuilder { inner: Box::new(arrow::array::Int8Builder::with_capacity(capacity)) }
}

/// `Int8Builder::append_value`: appends one value.
#[verifier::external_body]
pub(crate) fn append_int8_value(builder: &mut ArrowBuilder, value: i8)
    requires
        builder_kind(*old(builder)) == ColumnKind::Int8,
    ensures
        builder_kind(*final(builder)) == ColumnKind::Int8,
        builder_cells(*final(builder)) == builder_cells(*old(builder)).push(Some(value as int)),
{
    builder.inner.as_any_mut().downcast_mut::<arrow::array::Int8Builder>().expect("builder holds i8 values").append_value(value)
}

/// `Int8Builder::append_option`: appends one value, or a null for `None`.
#[verifier::external_body]
pub(crate) fn append_int8_option(builder: &mut ArrowBuilder, value: Option<i8>)
    requires
        builder_kind(*old(builder)) == ColumnKind::Int8,
    ensures
        builder_kind(*final(builder)) == ColumnKind::Int8,
        builder_cells(*final(builder)) == builder_cells(*old(builder)).push(
            match value {
                Some(v) => Some(v as int),
                None => None,
            },
        ),
{
    builder.inner.as_any_mut().downcast_mut::<arrow::array::Int8Builder>().expect("builder holds i8 values").append_option(value)
}

/// `Int8Builder::append_slice`: appends every value of `values`, in order.
#[verifier::external_body]
pub(crate) fn append_int8_slice(builder: &mut ArrowBuilder, values: &[i8])
    requires
        builder_kind(*old(builder)) == ColumnKind::Int8,
    ensures
        builder_kind(*final(builder)) == ColumnKind::Int8,
        builder_cells(*final(builder)) == builder_cells(*old(builder)) + values@.map_values(
            |v: i8| Some(v as int),
        ),
{
    builder.inner.as_any_mut().downcast_mut::<arrow::array::Int8Builder>().expect("builder holds i8 values").append_slice(values)
}

/// `Int8Array::values`: the value buffer of the array; a slot holding a value holds
/// it here too (what a null slot holds here is left open).
#[verifier::external_body]
pub(crate) fn int8_array_values(array: &ArrowArray) -> (values: &[i8])
    requires
        array_kind(*array) == ColumnKind::Int8,
    ensures
        values@.len() == array_cells(*array).len(),
        forall|i: int|
            0 <= i < values@.len() && array_cells(*array)[i] is Some ==> array_cells(*array)[i]
                == Some(#[trigger] values@[i] as int),
{
    array.inner.as_any().downcast_ref::<arrow::array::Int8Array>().expect("array holds i8 values").values()
}

/// `Int16Builder::with_capacity`: an empty builder of `i16` values.
#[verifier::external_body]
pub(crate) fn new_int16_builder(capacity: usize) -> (builder: ArrowBuilder)
    ensures
        builder_kind(builder) == ColumnKind::Int16,
        builder_cells(builder) == Seq::<Option<int>>::empty(),
{
    ArrowBuilder { inner: Box::new(arrow::array::Int16Builder::with_capacity(capacity)) }
}

/// `Int16Builder::append_value`: appends one value.
#[verifier::external_body]
pub(crate) fn append_int16_value(builder: &mut ArrowBuilder, value: i16)
    requires
        builder_kind(*old(builder)) == ColumnKind::Int16,
    ensures
        builder_kind(*final(builder)) == ColumnKind::Int16,
        builder_cells(*final(builder)) == builder_cells(*old(builder)).push(Some(value as int)),
{
    builder.inner.as_any_mut().downcast_mut::<arrow::array::Int16Builder>().expect("builder holds i16 values").append_value(value)
}

/// `Int16Builder::append_option`: appends one value, or a null for `None`.
#[verifier::external_body]
pub(crate) fn append_int16_option(builder: &mut ArrowBuilder, value: Option<i16>)
    requires
        builder_kind(*old(builder)) == ColumnKind::Int16,
    ensures
        builder_kind(*final(builder)) == ColumnKind::Int16,
        builder_cells(*final(builder)) == builder_cells(*old(builder)).push(
            match value {
                Some(v) => Some(v as int),
                None => None,
            },
        ),
{
    builder.inner.as_any_mut().downcast_mut::<arrow::array::Int16Builder>().expect("builder holds i16 values").append_option(value)
}

/// `Int16Builder::append_slice`: appends every value of `values`, in order.
#[verifier::external_body]
pub(crate) fn append_int16_slice(builder: &mut ArrowBuilder, values: &[i16])
    requires
        builder_kind(*old(builder)) == ColumnKind::Int16,
    ensures
        builder_kind(*final(builder)) == ColumnKind::Int16,
        builder_cells(*final(builder)) == builder_cells(*old(builder)) + values@.map_values(
            |v: i16| Some(v as int),
        ),
{
    builder.inner.as_any_mut().downcast_mut::<arrow::array::Int16Builder>().expect("builder holds i16 values").append_slice(values)
}

/// `Int16Array::values`: the value buffer of the array; a slot holding a value holds
/// it here too (what a null slot holds here is left open).
#[verifier::external_body]
pub(crate) fn int16_array_values(array: &ArrowArray) -> (values: &[i16])
    requires
        array_kind(*array) == ColumnKind::Int16,
    ensures
        values@.len() == array_cells(*array).len(),
        forall|i: int|
            0 <= i < values@.len() && array_cells(*array)[i] is Some ==> array_cells(*array)[i]
                == Some(#[trigger] values@[i] as int),
{
    array.inner.as_any().downcast_ref::<arrow::array::Int16Array>().expect("array holds i16 values").values()
}

/// `Int32Builder::with_capacity`: an empty builder of `i32` values.
#[verifier::external_body]
pub(crate) fn new_int32_builder(capacity: usize) -> (builder: ArrowBuilder)
    ensures
        builder_kind(builder) == ColumnKind::Int32,
        builder_cells(builder) == Seq::<Option<int>>::empty(),
{
    ArrowBuilder { inner: Box::new(arrow::array::Int32Builder::with_capacity(capacity)) }
}

/// `Int32Builder::append_value`: appends one value.
#[verifier::external_body]
pub(crate) fn append_int32_value(builder: &mut ArrowBuilder, value: i32)
    requires
        builder_kind(*old(builder)) == ColumnKind::Int32,
    ensures
        builder_kind(*final(builder)) == ColumnKind::Int32,
        builder_cells(*final(builder)) == builder_cells(*old(builder)).push(Some(value as int)),
{
    builder.inner.as_any_mut().downcast_mut::<arrow::array::Int32Builder>().expect("builder holds i32 values").append_value(value)
}

/// `Int32Builder::append_option`: appends one value, or a null for `None`.
#[verifier::external_body]
pub(crate) fn append_int32_option(builder: &mut ArrowBuilder, value: Option<i32>)
    requires
        builder_kind(*old(builder)) == ColumnKind::Int32,
    ensures
        builder_kind(*final(builder)) == ColumnKind::Int32,
        builder_cells(*final(builder)) == builder_cells(*old(builder)).push(
            match value {
                Some(v) => Some(v as int),
                None => None,
            },
        ),
{
    builder.inner.as_any_mut().downcast_mut::<arrow::array::Int32Builder>().expect("builder holds i32 values").append_option(value)
}

/// `Int32Builder::append_slice`: appends every value of `values`, in order.
#[verifier::external_body]
pub(crate) fn append_int32_slice(builder: &mut ArrowBuilder, values: &[i32])
    requires
        builder_kind(*old(builder)) == ColumnKind::Int32,
    ensures
        builder_kind(*final(builder)) == ColumnKind::Int32,
        builder_cells(*final(builder)) == builder_cells(*old(builder)) + values@.map_values(
            |v: i32| Some(v as int),
        ),
{
    builder.inner.as_any_mut().downcast_mut::<arrow::array::Int32Builder>().expect("builder holds i32 values").append_slice(values)
}

/// `Int32Array::values`: the value buffer of the array; a slot holding a value holds
/// it here too (what a null slot holds here is left open).
#[verifier::external_body]
pub(crate) fn int32_array_values(array: &ArrowArray) -> (values: &[i32])
    requires
        array_kind(*array) == ColumnKind::Int32,
    ensures
        values@.len() == array_cells(*array).len(),
        forall|i: int|
            0 <= i < values@.len() && array_cells(*array)[i] is Some ==> array_cells(*array)[i]
                == Some(#[trigger] values@[i] as int),
{
    array.inner.as_any().downcast_ref::<arrow::array::Int32Array>().expect("array holds i32 values").values()
}

/// `Int64Builder::with_capacity`: an empty builder of `i64` values.
#[verifier::external_body]
pub(crate) fn new_int64_builder(capacity: usize) -> (builder: ArrowBuilder)
    ensures
        builder_kind(builder) == ColumnKind::Int64,
        builder_cells(builder) == Seq::<Option<int>>::empty(),
{
    ArrowBuilder { inner: Box::new(arrow::array::Int64Builder::with_capacity(capacity)) }
}

/// `Int64Builder::append_value`: appends one value.
#[verifier::external_body]
pub(crate) fn append_int64_value(builder: &mut ArrowBuilder, value: i64)
    requires
        builder_kind(*old(builder)) == ColumnKind::Int64,
    ensures
        builder_kind(*final(builder)) == ColumnKind::Int64,
        builder_cells(*final(builder)) == builder_cells(*old(builder)).push(Some(value as int)),
{
    builder.inner.as_any_mut().downcast_mut::<arrow::array::Int64Builder>().expect("builder holds i64 values").append_value(value)
}

/// `Int64Builder::append_option`: appends one value, or a null for `None`.
#[verifier::external_body]
pub(crate) fn append_int64_option(builder: &mut ArrowBuilder, value: Option<i64>)
    requires
        builder_kind(*old(builder)) == ColumnKind::Int64,
    ensures
        builder_kind(*final(builder)) == ColumnKind::Int64,
        builder_cells(*final(builder)) == builder_cells(*old(builder)).push(
            match value {
                Some(v) => Some(v as int),
                None => None,
            },
        ),
{
    builder.inner.as_any_mut().downcast_mut::<arrow::array::Int64Builder>().expect("builder holds i64 values").append_option(value)
}

/// `Int64Builder::append_slice`: appends every value of `values`, in order.
#[verifier::external_body]
pub(crate) fn append_int64_slice(builder: &mut ArrowBuilder, values: &[i64])
    requires
        builder_kind(*old(builder)) == ColumnKind::Int64,
    ensures
        builder_kind(*final(builder)) == ColumnKind::Int64,
        builder_cells(*final(builder)) == builder_cells(*old(builder)) + values@.map_values(
            |v: i64| Some(v as int),
        ),
{
    builder.inner.as_any_mut().downcast_mut::<arrow::array::Int64Builder>().expect("builder holds i64 values").append_slice(values)
}

/// `Int64Array::values`: the value buffer of the array; a slot holding a value holds
/// it here too (what a null slot holds here is left open).
#[verifier::external_body]
pub(crate) fn int64_array_values(array: &ArrowArray) -> (values: &[i64])
    requires
        array_kind(*array) == ColumnKind::Int64,
    ensures
        values@.len() == array_cells(*array).len(),
        forall|i: int|
            0 <= i < values@.len() && array_cells(*array)[i] is Some ==> array_cells(*array)[i]
                == Some(#[trigger] values@[i] as int),
{
    array.inner.as_any().downcast_ref::<arrow::array::Int64Array>().expect("array holds i64 values").values()
}

/// `UInt8Builder::with_capacity`: an empty builder of `u8` values.
#[verifier::external_body]
pub(crate) fn new_uint8_builder(capacity: usize) -> (builder: ArrowBuilder)
    ensures
        builder_kind(builder) == ColumnKind::UInt8,
        builder_cells(builder) == Seq::<Option<int>>::empty(),
{
    ArrowBuilder { inner: Box::new(arrow::array::UInt8Builder::with_capacity(capacity)) }
}

/// `UInt8Builder::append_value`: appends one value.
#[verifier::external_body]
pub(crate) fn append_uint8_value(builder: &mut ArrowBuilder, value: u8)
    requires
        builder_kind(*old(builder)) == ColumnKind::UInt8,
    ensures
        builder_kind(*final(builder)) == ColumnKind::UInt8,
        builder_cells(*final(builder)) == builder_cells(*old(builder)).push(Some(value as int)),
{
    builder.inner.as_any_mut().downcast_mut::<arrow::array::UInt8Builder>().expect("builder holds u8 values").append_value(value)
}

/// `UInt8Builder::append_option`: appends one value, or a null for `None`.
#[verifier::external_body]
pub(crate) fn append_uint8_option(builder: &mut ArrowBuilder, value: Option<u8>)
    requires
        builder_kind(*old(builder)) == ColumnKind::UInt8,
    ensures
        builder_kind(*final(builder)) == ColumnKind::UInt8,
        builder_cells(*final(builder)) == builder_cells(*old(builder)).push(
            match value {
                Some(v) => Some(v as int),
                None => None,
            },
        ),
{
    builder.inner.as_any_mut().downcast_mut::<arrow::array::UInt8Builder>().expect("builder holds u8 values").append_option(value)
}

/// `UInt8Builder::append_slice`: appends every value of `values`, in order.
#[verifier::external_body]
pub(crate) fn append_uint8_slice(builder: &mut ArrowBuilder, values: &[u8])
    requires
        builder_kind(*old(builder)) == ColumnKind::UInt8,
    ensures
        builder_kind(*final(builder)) == ColumnKind::UInt8,
        builder_cells(*final(builder)) == builder_cells(*old(builder)) + values@.map_values(
            |v: u8| Some(v as int),
        ),
{
    builder.inner.as_any_mut().downcast_mut::<arrow::array::UInt8Builder>().expect("builder holds u8 values").append_slice(values)
}

/// `UInt8Array::values`: the value buffer of the array; a slot holding a value holds
/// it here too (what a null slot holds here is left open).
#[verifier::external_body]
pub(crate) fn uint8_array_values(array: &ArrowArray) -> (values: &[u8])
    requires
        array_kind(*array) == ColumnKind::UInt8,
    ensures
        values@.len() == array_cells(*array).len(),
        forall|i: int|
            0 <= i < values@.len() && array_cells(*array)[i] is Some ==> array_cells(*array)[i]
                == Some(#[trigger] values@[i] as int),
{
    array.inner.as_any().downcast_ref::<arrow::array::UInt8Array>().expect("array holds u8 values").values()
}

/// `UInt16Builder::with_capacity`: an empty builder of `u16` values.
#[verifier::external_body]
pub(crate) fn new_uint16_builder(capacity: usize) -> (builder: ArrowBuilder)
    ensures
        builder_kind(builder) == ColumnKind::UInt16,
        builder_cells(builder) == Seq::<Option<int>>::empty(),
{
    ArrowBuilder { inner: Box::new(arrow::array::UInt16Builder::with_capacity(capacity)) }
}

/// `UInt16Builder::append_value`: appends one value.
#[verifier::external_body]
pub(crate) fn append_uint16_value(builder: &mut ArrowBuilder, value: u16)
    requires
        builder_kind(*old(builder)) == ColumnKind::UInt16,
    ensures
        builder_kind(*final(builder)) == ColumnKind::UInt16,
        builder_cells(*final(builder)) == builder_cells(*old(builder)).push(Some(value as int)),
{
    builder.inner.as_any_mut().downcast_mut::<arrow::array::UInt16Builder>().expect("builder holds u16 values").append_value(value)
}

/// `UInt16Builder::append_option`: appends one value, or a null for `None`.
#[verifier::external_body]
pub(crate) fn append_uint16_option(builder: &mut ArrowBuilder, value: Option<u16>)
    requires
        builder_kind(*old(builder)) == ColumnKind::UInt16,
    ensures
        builder_kind(*final(builder)) == ColumnKind::UInt16,
        builder_cells(*final(builder)) == builder_cells(*old(builder)).push(
            match value {
                Some(v) => Some(v as int),
                None => None,
            },
        ),
{
    builder.inner.as_any_mut().downcast_mut::<arrow::array::UInt16Builder>().expect("builder holds u16 values").append_option(value)
}

/// `UInt16Builder::append_slice`: appends every value of `values`, in order.
#[verifier::external_body]
pub(crate) fn append_uint16_slice(builder: &mut ArrowBuilder, values: &[u16])
    requires
        builder_kind(*old(builder)) == ColumnKind::UInt16,
    ensures
        builder_kind(*final(builder)) == ColumnKind::UInt16,
        builder_cells(*final(builder)) == builder_cells(*old(builder)) + values@.map_values(
            |v: u16| Some(v as int),
        ),
{
    builder.inner.as_any_mut().downcast_mut::<arrow::array::UInt16Builder>().expect("builder holds u16 values").append_slice(values)
}

/// `UInt16Array::values`: the value buffer of the array; a slot holding a value holds
/// it here too (what a null slot holds here is left open).
#[verifier::external_body]
pub(crate) fn uint16_array_values(array: &ArrowArray) -> (values: &[u16])
    requires
        array_kind(*array) == ColumnKind::UInt16,
    ensures
        values@.len() == array_cells(*array).len(),
        forall|i: int|
            0 <= i < values@.len() && array_cells(*array)[i] is Some ==> array_cells(*array)[i]
                == Some(#[trigger] values@[i] as int),
{
    array.inner.as_any().downcast_ref::<arrow::array::UInt16Array>().expect("array holds u16 values").values()
}

/// `UInt32Builder::with_capacity`: an empty builder of `u32` values.
#[verifier::external_body]
pub(crate) fn new_uint32_builder(capacity: usize) -> (builder: ArrowBuilder)
    ensures
        builder_kind(builder) == ColumnKind::UInt32,
        builder_cells(builder) == Seq::<Option<int>>::empty(),
{
    ArrowBuilder { inner: Box::new(arrow::array::UInt32Builder::with_capacity(capacity)) }
}

/// `UInt32Builder::append_value`: appends one value.
#[verifier::external_body]
pub(crate) fn append_uint32_value(builder: &mut ArrowBuilder, value: u32)
    requires
        builder_kind(*old(builder)) == ColumnKind::UInt32,
    ensures
        builder_kind(*final(builder)) == ColumnKind::UInt32,
        builder_cells(*final(builder)) == builder_cells(*old(builder)).push(Some(value as int)),
{
    builder.inner.as_any_mut().downcast_mut::<arrow::array::UInt32Builder>().expect("builder holds u32 values").append_value(value)
}

/// `UInt32Builder::append_option`: appends one value, or a null for `None`.
#[verifier::external_body]
pub(crate) fn append_uint32_option(builder: &mut ArrowBuilder, value: Option<u32>)
    requires
        builder_kind(*old(builder)) == ColumnKind::UInt32,
    ensures
        builder_kind(*final(builder)) == ColumnKind::UInt32,
        builder_cells(*final(builder)) == builder_cells(*old(builder)).push(
            match value {
                Some(v) => Some(v as int),
                None => None,
            },
        ),
{
    builder.inner.as_any_mut().downcast_mut::<arrow::array::UInt32Builder>().expect("builder holds u32 values").append_option(value)
}

/// `UInt32Builder::append_slice`: appends every value of `values`, in order.
#[verifier::external_body]
pub(crate) fn append_uint32_slice(builder: &mut ArrowBuilder, values: &[u32])
    requires
        builder_kind(*old(builder)) == ColumnKind::UInt32,
    ensures
        builder_kind(*final(builder)) == ColumnKind::UInt32,
        builder_cells(*final(builder)) == builder_cells(*old(builder)) + values@.map_values(
            |v: u32| Some(v as int),
        ),
{
    builder.inner.as_any_mut().downcast_mut::<arrow::array::UInt32Builder>().expect("builder holds u32 values").append_slice(values)
}

/// `UInt32Array::values`: the value buffer of the array; a slot holding a value holds
/// it here too (what a null slot holds here is left open).
#[verifier::external_body]
pub(crate) fn uint32_array_values(array: &ArrowArray) -> (values: &[u32])
    requires
        array_kind(*array) == ColumnKind::UInt32,
    ensures
        values@.len() == array_cells(*array).len(),
        forall|i: int|
            0 <= i < values@.len() && array_cells(*array)[i] is Some ==> array_cells(*array)[i]
                == Some(#[trigger] values@[i] as int),
{
    array.inner.as_any().downcast_ref::<arrow::array::UInt32Array>().expect("array holds u32 values").values()
}

/// `UInt64Builder::with_capacity`: an empty builder of `u64` values.
#[verifier::external_body]
pub(crate) fn new_uint64_builder(capacity: usize) -> (builder: ArrowBuilder)
    ensures
        builder_kind(builder) == ColumnKind::UInt64,
        builder_cells(builder) == Seq::<Option<int>>::empty(),
{
    ArrowBuilder { inner: Box::new(arrow::array::UInt64Builder::with_capacity(capacity)) }
}

/// `UInt64Builder::append_value`: appends one value.
#[verifier::external_body]
pub(crate) fn append_uint64_value(builder: &mut ArrowBuilder, value: u64)
    requires
        builder_kind(*old(builder)) == ColumnKind::UInt64,
    ensures
        builder_kind(*final(builder)) == ColumnKind::UInt64,
        builder_cells(*final(builder)) == builder_cells(*old(builder)).push(Some(value as int)),
{
    builder.inner.as_any_mut().downcast_mut::<arrow::array::UInt64Builder>().expect("builder holds u64 values").append_value(value)
}

/// `UInt64Builder::append_option`: appends one value, or a null for `None`.
#[verifier::external_body]
pub(crate) fn append_uint64_option(builder: &mut ArrowBuilder, value: Option<u64>)
    requires
        builder_kind(*old(builder)) == ColumnKind::UInt64,
    ensures
        builder_kind(*final(builder)) == ColumnKind::UInt64,
        builder_cells(*final(builder)) == builder_cells(*old(builder)).push(
            match value {
                Some(v) => Some(v as int),
                None => None,
            },
        ),
{
    builder.inner.as_any_mut().downcast_mut::<arrow::array::UInt64Builder>().expect("builder holds u64 values").append_option(value)
}

/// `UInt64Builder::append_slice`: appends every value of `values`, in order.
#[verifier::external_body]
pub(crate) fn append_uint64_slice(builder: &mut ArrowBuilder, values: &[u64])
    requires
        builder_kind(*old(builder)) == ColumnKind::UInt64,
    ensures
        builder_kind(*final(builder)) == ColumnKind::UInt64,
        builder_cells(*final(builder)) == builder_cells(*old(builder)) + values@.map_values(
            |v: u64| Some(v as int),
        ),
{
    builder.inner.as_any_mut().downcast_mut::<arrow::array::UInt64Builder>().expect("builder holds u64 values").append_slice(values)
}

/// `UInt64Array::values`: the value buffer of the array; a slot holding a value holds
/// it here too (what a null slot holds here is left open).
#[verifier::external_body]
pub(crate) fn uint64_array_values(array: &ArrowArray) -> (values: &[u64])
    requires
        array_kind(*array) == ColumnKind::UInt64,
    ensures
        values@.len() == array_cells(*array).len(),
        forall|i: int|
            0 <= i < values@.len() && array_cells(*array)[i] is Some ==> array_cells(*array)[i]
                == Some(#[trigger] values@[i] as int),
{
    array.inner.as_any().downcast_ref::<arrow::array::UInt64Array>().expect("array holds u64 values").values()
}

} // verus!
