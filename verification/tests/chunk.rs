use plinth::chunk::{Append, AppendableType, ColumnArray, ChunkWriter, FrozenChunk, MutableChunk};
use plinth::units::{LogicalOffset, VersionID, CHUNK_SIZE};
use std::sync::Arc;

fn unwrap_builder<V: AppendableType>(chunk: MutableChunk) -> ChunkWriter<V> {
    match chunk.builder::<V>() {
        Ok(writer) => writer,
        Err(_) => panic!("builder type resolution failed"),
    }
}

fn int64_array(values: &[i64]) -> ColumnArray {
    let mut builder = i64::builder();
    <i64 as Append>::append_values(&mut builder, values);
    builder.finish()
}

#[test]
fn append_fills_exactly_one_chunk() {
    let builder = Option::<i64>::builder();
    let mutable_chunk = MutableChunk::new(builder, VersionID::new(42));

    let mut writer = unwrap_builder::<i64>(mutable_chunk);

    for value in 0..CHUNK_SIZE - 1 {
        writer = writer
            .append(value as i64)
            .ok()
            .expect("chunk should have capacity");
    }

    let (builder, version_id) = match writer.append((CHUNK_SIZE - 1) as i64) {
        Ok(_) => panic!("the final value should complete the chunk"),
        Err(values) => values,
    };

    assert_eq!(version_id, VersionID::new(42));
    assert_eq!(builder.len(), CHUNK_SIZE as usize);
}

#[test]
fn builder_type_resolution_succeeds_for_matching_type() {
    let builder = i64::builder();
    let mutable_chunk = MutableChunk::new(builder, VersionID::new(7));

    let writer = unwrap_builder::<i64>(mutable_chunk);

    assert_eq!(writer.len(), 0);
}

#[test]
fn builder_type_resolution_fails_for_wrong_type() {
    let builder = i64::builder();
    let mutable_chunk = MutableChunk::new(builder, VersionID::new(7));

    // The library holds no floating-point columns; a 32-bit integer writer is
    // the wrong type for a 64-bit integer builder in the same way.
    let result = mutable_chunk.builder::<i32>();

    assert!(
        result.is_err(),
        "resolving an Int64Builder as another builder must fail"
    );

    let mutable_chunk = match result {
        Ok(_) => panic!("Type resolution should have failed"),
        Err(chunk) => chunk,
    };

    // The chunk and its builder must still be available after a failed
    // type resolution.
    let writer = unwrap_builder::<i64>(mutable_chunk);

    assert_eq!(writer.len(), 0);
}

#[test]
fn mutable_chunk_round_trip_preserves_builder() {
    let builder = i64::builder();
    let mutable_chunk = MutableChunk::new(builder, VersionID::new(123));

    let mut writer = unwrap_builder::<i64>(mutable_chunk);

    writer = writer.append(10).ok().unwrap();
    writer = writer.append(20).ok().unwrap();
    writer = writer.append(30).ok().unwrap();

    let mutable_chunk = MutableChunk::from(writer);
    let writer = unwrap_builder::<i64>(mutable_chunk);

    assert_eq!(writer.len(), 3);
}

#[test]
fn frozen_chunk_exposes_chunk_id() {
    let chunk = FrozenChunk::new(int64_array(&[1, 2, 3]), VersionID::new(99));

    assert_eq!(chunk.chunk_id(), VersionID::new(99));
}

#[test]
fn frozen_chunk_view_downcasts_correct_type() {
    let chunk = FrozenChunk::new(int64_array(&[1, 2, 3]), VersionID::new(0));

    let view = chunk
        .view::<i64>()
        .expect("Int64Array downcast should succeed");

    assert_eq!(view.array().len(), 3);
}

#[test]
fn frozen_chunk_view_rejects_wrong_type() {
    let chunk = FrozenChunk::new(int64_array(&[1, 2, 3]), VersionID::new(0));

    assert!(
        chunk.view::<i32>().is_none(),
        "view should reject an incompatible array type"
    );
}

#[test]
fn read_values() {
    let builder = i64::builder();
    let mutable_chunk = MutableChunk::new(builder, VersionID::new(0));

    let mut chunk_writer = unwrap_builder::<i64>(mutable_chunk);

    for value in 0..CHUNK_SIZE - 1 {
        chunk_writer = chunk_writer.append(value as i64).ok().unwrap();
    }

    let (mut builder, version_id) = match chunk_writer.append(CHUNK_SIZE as i64 - 1) {
        Ok(_) => panic!("final append should freeze the chunk"),
        Err(values) => values,
    };
    let array = builder.finish();
    let frozen_chunk = FrozenChunk::new(array, version_id);

    let view = frozen_chunk
        .view::<i64>()
        .expect("downcast should succeed");

    assert_eq!(view.array().len(), CHUNK_SIZE as usize);

    let mut cum_sum = 0i64;

    let mut vectors = view.vectors();
    while let Some(vector) = vectors.next_vector() {
        let sum: i64 = vector.with(|window, validity| {
            let mut sum = 0i64;

            for (index, element) in window.iter().enumerate() {
                assert!(
                    validity.is_valid(LogicalOffset::new(index as u64)),
                    "all values in this test should be valid"
                );

                sum += *element;
            }

            sum
        });

        cum_sum += sum;
    }

    let n = CHUNK_SIZE as i64 - 1;

    assert_eq!(cum_sum, n * (n + 1) / 2);
}

#[test]
fn append_values_fits_within_chunk() {
    let builder = i64::builder();
    let mutable_chunk = MutableChunk::new(builder, VersionID::new(0));
    let writer = unwrap_builder::<i64>(mutable_chunk);

    let values: Vec<i64> = (0..10).collect();
    let writer = writer
        .append_values(&values)
        .ok()
        .expect("slice smaller than capacity must return Ok");

    assert_eq!(writer.len(), 10);
}

#[test]
fn append_values_exactly_fills_chunk() {
    let builder = i64::builder();
    let mutable_chunk = MutableChunk::new(builder, VersionID::new(7));
    let writer = unwrap_builder::<i64>(mutable_chunk);

    let values: Vec<i64> = (0..CHUNK_SIZE as i64).collect();
    let (finished_builder, version_id, remainder) = match writer.append_values(&values) {
        Err(tuple) => tuple,
        Ok(_) => panic!("exact fill must return Err with empty remainder"),
    };

    assert_eq!(version_id, VersionID::new(7));
    assert_eq!(finished_builder.len(), CHUNK_SIZE as usize);
    assert!(remainder.is_empty());
}

#[test]
fn append_values_overflow_returns_remaining() {
    let builder = i64::builder();
    let mutable_chunk = MutableChunk::new(builder, VersionID::new(3));
    let writer = unwrap_builder::<i64>(mutable_chunk);

    let overflow = 5usize;
    let values: Vec<i64> = (0..CHUNK_SIZE as i64 + overflow as i64).collect();
    let (finished_builder, version_id, remaining) = match writer.append_values(&values) {
        Err(tuple) => tuple,
        Ok(_) => panic!("overflow must return Err with the remaining slice"),
    };

    assert_eq!(version_id, VersionID::new(3));
    assert_eq!(finished_builder.len(), CHUNK_SIZE as usize);
    assert_eq!(remaining.len(), overflow);
    assert_eq!(remaining, &values[CHUNK_SIZE as usize..]);
}

#[test]
fn append_values_overflow_from_partial_chunk() {
    let builder = i64::builder();
    let mutable_chunk = MutableChunk::new(builder, VersionID::new(5));
    let mut writer = unwrap_builder::<i64>(mutable_chunk);

    let pre_filled = 10usize;
    for v in 0..pre_filled as i64 {
        writer = writer.append(v).ok().expect("chunk should have capacity");
    }

    let overflow = 3usize;
    let remaining_capacity = CHUNK_SIZE as usize - pre_filled;
    let values: Vec<i64> = (0..remaining_capacity as i64 + overflow as i64).collect();
    let (finished_builder, version_id, remaining) = match writer.append_values(&values) {
        Err(tuple) => tuple,
        Ok(_) => panic!("overflow must return Err"),
    };

    assert_eq!(version_id, VersionID::new(5));
    assert_eq!(finished_builder.len(), CHUNK_SIZE as usize);
    assert_eq!(remaining.len(), overflow);
}

#[test]
fn append_values_empty_slice_is_noop() {
    let builder = i64::builder();
    let mutable_chunk = MutableChunk::new(builder, VersionID::new(0));
    let writer = unwrap_builder::<i64>(mutable_chunk);

    let writer = writer
        .append_values(&[])
        .ok()
        .expect("empty slice must return Ok");

    assert_eq!(writer.len(), 0);
}

#[test]
fn boolean_builder_resolves_and_appends() {
    let builder = bool::builder();
    let mutable_chunk = MutableChunk::new(builder, VersionID::new(0));

    let mut writer = unwrap_builder::<bool>(mutable_chunk);

    writer = writer.append(true).ok().unwrap();
    writer = writer.append(false).ok().unwrap();
    writer = writer.append(true).ok().unwrap();

    assert_eq!(writer.len(), 3);
}

#[test]
fn chunk_id_survives_mutable_to_frozen_transition() {
    let builder = i64::builder();
    let mutable_chunk = MutableChunk::new(builder, VersionID::new(1234));

    let mut writer = unwrap_builder::<i64>(mutable_chunk);

    for value in 0..CHUNK_SIZE - 1 {
        writer = writer.append(value as i64).ok().unwrap();
    }

    let (mut builder, version_id) = match writer.append((CHUNK_SIZE - 1) as i64) {
        Ok(_) => panic!("final append should complete the chunk"),
        Err(values) => values,
    };

    let array = builder.finish();
    let frozen = FrozenChunk::new(array, version_id);

    assert_eq!(frozen.chunk_id(), VersionID::new(1234));
    assert_eq!(
        frozen.view::<i64>().unwrap().array().len(),
        CHUNK_SIZE as usize
    );
}

#[test]
fn snapshot_of_mutable_chunk_holds_values_written_so_far() {
    let mutable_chunk = MutableChunk::new(i32::builder(), VersionID::new(1));
    let writer = unwrap_builder::<i32>(mutable_chunk);
    let writer = writer.append_values(&[5, 6, 7]).ok().unwrap();
    let mutable_chunk = MutableChunk::from(writer);

    let snapshot = mutable_chunk.get_snapshot();
    assert_eq!(snapshot.int32_values(), &[5, 6, 7]);
    assert_eq!(mutable_chunk.chunk_id(), VersionID::new(1));
}

#[test]
fn optional_values_are_appended_as_nulls() {
    let mutable_chunk = MutableChunk::new(Option::<u8>::builder(), VersionID::new(0));
    let writer = unwrap_builder::<Option<u8>>(mutable_chunk);
    let writer = writer.append(Some(4)).ok().unwrap();
    let writer = writer.append(None).ok().unwrap();
    let writer = writer.append_values(&[Some(9), None]).ok().unwrap();
    let snapshot = MutableChunk::from(writer).get_snapshot();

    assert_eq!(snapshot.len(), 4);
    assert!(snapshot.is_valid(0));
    assert!(!snapshot.is_valid(1));
    assert!(snapshot.is_valid(2));
    assert!(!snapshot.is_valid(3));
    assert_eq!(snapshot.uint8_values()[0], 4);
    assert_eq!(snapshot.uint8_values()[2], 9);
}

#[test]
fn arrays_keep_their_element_type() {
    let array = int64_array(&[1]);
    let wrong = Arc::new(FrozenChunk::new(array, VersionID::new(0)));
    assert!(wrong.view::<bool>().is_none());
    assert!(wrong.view::<u8>().is_none());
    assert!(wrong.view::<i64>().is_some());
}

fn snapshot_of<V: Append + Copy>(values: &[V]) -> ColumnArray {
    let mut builder = V::builder();
    <V as Append>::append_values(&mut builder, values);
    builder.finish()
}

#[test]
fn every_integer_type_keeps_its_values() {
    assert_eq!(snapshot_of::<i8>(&[-3, 4]).int8_values(), &[-3, 4]);
    assert_eq!(snapshot_of::<i16>(&[-300, 400]).int16_values(), &[-300, 400]);
    assert_eq!(snapshot_of::<i32>(&[-70000, 1]).int32_values(), &[-70000, 1]);
    assert_eq!(snapshot_of::<i64>(&[i64::MIN, i64::MAX]).int64_values(), &[i64::MIN, i64::MAX]);
    assert_eq!(snapshot_of::<u8>(&[255, 0]).uint8_values(), &[255, 0]);
    assert_eq!(snapshot_of::<u16>(&[65535, 2]).uint16_values(), &[65535, 2]);
    assert_eq!(snapshot_of::<u32>(&[4_000_000_000]).uint32_values(), &[4_000_000_000]);
    assert_eq!(snapshot_of::<u64>(&[u64::MAX]).uint64_values(), &[u64::MAX]);
    let booleans = snapshot_of::<bool>(&[true, false]);
    assert_eq!(booleans.len(), 2);
    assert!(booleans.is_valid(1));
}

#[test]
fn nullable_and_plain_values_share_a_builder_type() {
    let chunk = MutableChunk::new(u32::builder(), VersionID::new(0));
    let writer = unwrap_builder::<Option<u32>>(chunk);
    let writer = writer.append_values(&[Some(1), None, Some(3)]).ok().unwrap();
    let chunk = MutableChunk::from(writer);
    let writer = unwrap_builder::<u32>(chunk);
    let writer = writer.append(4).ok().unwrap();
    let snapshot = MutableChunk::from(writer).get_snapshot();
    assert_eq!(snapshot.len(), 4);
    assert!(!snapshot.is_valid(1));
    assert_eq!(snapshot.uint32_values()[3], 4);
    assert!(MutableChunk::new(u32::builder(), VersionID::new(0)).builder::<u64>().is_err());
}

#[test]
fn finishing_a_builder_empties_it_and_keeps_its_type() {
    let mut builder = i16::builder();
    <i16 as Append>::append_values(&mut builder, &[1, 2, 3]);
    let cloned = builder.finish_cloned();
    assert_eq!(builder.len(), 3);
    let array = builder.finish();
    assert_eq!(builder.len(), 0);
    assert_eq!(array.int16_values(), &[1, 2, 3]);
    assert_eq!(cloned.int16_values(), &[1, 2, 3]);
    <i16 as Append>::append(&mut builder, 9);
    assert_eq!(builder.finish().int16_values(), &[9]);
}

#[test]
fn append_values() {
    // The library holds no floating-point columns; the same run of appends is
    // made with 32-bit integers.
    let builder = i32::builder();
    let mutable_chunk = MutableChunk::new(builder, VersionID::new(0));

    let mut writer = unwrap_builder::<i32>(mutable_chunk);

    for value in 0..CHUNK_SIZE - 1 {
        writer = writer
            .append(value as i32)
            .ok()
            .expect("chunk should not be full yet");
    }

    let result = writer.append(CHUNK_SIZE as i32 - 1);

    assert!(
        result.is_err(),
        "the append filling the chunk must return the completed builder"
    );

    let (builder, version_id) = match result {
        Err(values) => values,
        Ok(_) => panic!("State Machine in invalid state"),
    };

    assert_eq!(version_id, VersionID::new(0));
    assert_eq!(builder.len(), CHUNK_SIZE as usize);
}
