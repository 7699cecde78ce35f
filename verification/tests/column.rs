use plinth::chunk::AppendableType;
use plinth::column::{Column, InvalidDowncast, SequentialVersions};
use plinth::units::{VersionID, CHUNK_SIZE};

fn version_generator() -> SequentialVersions {
    SequentialVersions { next: 0 }
}

fn int64_column() -> Column<SequentialVersions> {
    Column::new(version_generator(), i64::builder())
}

#[test]
fn new_column_has_mutable_tail() {
    let column = int64_column();

    assert!(column.read_frozen().is_none());

    let snapshot = column
        .read_mutable()
        .expect("new column should have a mutable tail");

    assert_eq!(snapshot.len(), 0);
}

#[test]
fn mutable_snapshot_reflects_current_state() {
    let mut column = int64_column();

    column.write::<i64>(vec![10, 20, 30]).unwrap();

    let snapshot = column.read_mutable().expect("mutable tail should exist");

    assert_eq!(snapshot.int64_values(), &[10, 20, 30]);
}

#[test]
fn mutable_snapshot_is_point_in_time() {
    let mut column = int64_column();

    column.write::<i64>(vec![10, 20, 30]).unwrap();

    let first = column.read_mutable().expect("mutable tail should exist");

    column.write::<i64>(vec![40, 50]).unwrap();

    let second = column.read_mutable().expect("mutable tail should exist");

    assert_eq!(first.int64_values(), &[10, 20, 30]);
    assert_eq!(second.int64_values(), &[10, 20, 30, 40, 50]);
}

#[test]
fn writing_less_than_chunk_size_keeps_data_mutable() {
    let mut column = int64_column();

    column.write::<i64>((0..100).collect()).unwrap();

    assert!(column.read_frozen().is_none());

    let snapshot = column.read_mutable().expect("mutable tail should exist");

    assert_eq!(snapshot.len(), 100);
}

#[test]
fn filling_chunk_publishes_frozen_chunk_and_creates_new_tail() {
    let mut column = int64_column();

    column.write::<i64>((0..CHUNK_SIZE as i64).collect()).unwrap();

    let frozen = column.read_frozen().expect("full chunk should be frozen");

    assert_eq!(frozen.chunk_id(), VersionID::new(0));

    assert_eq!(
        frozen.view::<i64>().unwrap().array().len(),
        CHUNK_SIZE as usize
    );

    let mutable = column
        .read_mutable()
        .expect("new mutable tail should exist");

    assert_eq!(mutable.len(), 0);
}

#[test]
fn write_crossing_multiple_chunks_builds_correct_chain() {
    let mut column = int64_column();

    let total = CHUNK_SIZE * 2 + 10;

    column.write::<i64>((0..total as i64).collect()).unwrap();

    let first = column
        .read_frozen()
        .expect("first frozen chunk should exist");

    let second = column
        .read_frozen_at(1)
        .expect("second frozen chunk should exist");

    assert!(column.read_frozen_at(2).is_none());

    assert_eq!(first.chunk_id(), VersionID::new(0));
    assert_eq!(second.chunk_id(), VersionID::new(1));

    assert_eq!(
        first.view::<i64>().unwrap().array().len(),
        CHUNK_SIZE as usize
    );

    assert_eq!(
        second.view::<i64>().unwrap().array().len(),
        CHUNK_SIZE as usize
    );

    let mutable = column
        .read_mutable()
        .expect("remaining values should be in mutable tail");

    assert_eq!(mutable.len(), 10);
}

#[test]
fn frozen_chunks_preserve_insertion_order() {
    let mut column = int64_column();

    let chunk_size = CHUNK_SIZE as i64;

    column.write::<i64>((0..chunk_size).collect()).unwrap();

    column
        .write::<i64>((chunk_size..chunk_size * 2).collect())
        .unwrap();

    let first = column.read_frozen().unwrap();
    let second = column.read_frozen_at(1).unwrap();

    let first_array = first.view::<i64>().unwrap();
    let second_array = second.view::<i64>().unwrap();

    assert_eq!(first_array.array().int64_values()[0], 0);
    assert_eq!(
        first_array.array().int64_values()[CHUNK_SIZE as usize - 1],
        chunk_size - 1
    );

    assert_eq!(second_array.array().int64_values()[0], chunk_size);
    assert_eq!(
        second_array.array().int64_values()[CHUNK_SIZE as usize - 1],
        chunk_size * 2 - 1
    );
}

#[test]
fn version_ids_are_generated_once_per_chunk() {
    let mut column = int64_column();

    let total = CHUNK_SIZE * 3;

    column.write::<i64>((0..total as i64).collect()).unwrap();

    let first = column.read_frozen().unwrap();
    let second = column.read_frozen_at(1).unwrap();
    let third = column.read_frozen_at(2).unwrap();

    assert_eq!(first.chunk_id(), VersionID::new(0));
    assert_eq!(second.chunk_id(), VersionID::new(1));
    assert_eq!(third.chunk_id(), VersionID::new(2));

    assert!(column.read_frozen_at(3).is_none());

    assert_eq!(column.read_mutable().unwrap().len(), 0);
}

#[test]
fn partial_final_chunk_remains_mutable() {
    let mut column = int64_column();

    let total = CHUNK_SIZE + 123;

    column.write::<i64>((0..total as i64).collect()).unwrap();

    let frozen = column.read_frozen().expect("first chunk should be frozen");

    assert_eq!(
        frozen.view::<i64>().unwrap().array().len(),
        CHUNK_SIZE as usize
    );

    let mutable = column
        .read_mutable()
        .expect("partial final chunk should remain mutable");

    assert_eq!(mutable.len(), 123);
}

#[test]
fn write_values_less_than_chunk_size_keeps_data_mutable() {
    let mut column = int64_column();

    let values: Vec<i64> = (0..100).collect();
    column.write_values::<i64>(&values).unwrap();

    assert!(column.read_frozen().is_none());
    assert_eq!(column.read_mutable().unwrap().len(), 100);
}

#[test]
fn write_values_snapshot_reflects_written_data() {
    let mut column = int64_column();

    column.write_values::<i64>(&[10, 20, 30]).unwrap();

    let snapshot = column
        .read_mutable()
        .expect("mutable tail should exist")
        .int64_values()
        .to_vec();

    assert_eq!(snapshot, vec![10, 20, 30]);
}

#[test]
fn write_values_snapshot_is_point_in_time() {
    let mut column = int64_column();

    column.write_values::<i64>(&[10, 20, 30]).unwrap();
    let first = column.read_mutable().unwrap();

    column.write_values::<i64>(&[40, 50]).unwrap();
    let second = column.read_mutable().unwrap();

    assert_eq!(first.int64_values(), &[10, 20, 30]);
    assert_eq!(second.int64_values(), &[10, 20, 30, 40, 50]);
}

#[test]
fn write_values_filling_chunk_publishes_frozen() {
    let mut column = int64_column();

    let values: Vec<i64> = (0..CHUNK_SIZE as i64).collect();
    column.write_values::<i64>(&values).unwrap();

    let frozen = column.read_frozen().expect("full chunk should be frozen");

    assert_eq!(frozen.chunk_id(), VersionID::new(0));
    assert_eq!(
        frozen.view::<i64>().unwrap().array().len(),
        CHUNK_SIZE as usize
    );
    assert_eq!(column.read_mutable().unwrap().len(), 0);
}

#[test]
fn write_values_crossing_multiple_chunks_builds_chain() {
    let mut column = int64_column();

    let total = CHUNK_SIZE * 2 + 10;
    let values: Vec<i64> = (0..total as i64).collect();
    column.write_values::<i64>(&values).unwrap();

    let first = column
        .read_frozen()
        .expect("first frozen chunk should exist");
    let second = column
        .read_frozen_at(1)
        .expect("second frozen chunk should exist");

    assert!(column.read_frozen_at(2).is_none());
    assert_eq!(first.chunk_id(), VersionID::new(0));
    assert_eq!(second.chunk_id(), VersionID::new(1));
    assert_eq!(
        first.view::<i64>().unwrap().array().len(),
        CHUNK_SIZE as usize
    );
    assert_eq!(
        second.view::<i64>().unwrap().array().len(),
        CHUNK_SIZE as usize
    );
    assert_eq!(column.read_mutable().unwrap().len(), 10);
}

#[test]
fn write_values_preserves_insertion_order() {
    let mut column = int64_column();

    let chunk_size = CHUNK_SIZE as i64;
    let values: Vec<i64> = (0..chunk_size * 2).collect();
    column.write_values::<i64>(&values).unwrap();

    let first = column.read_frozen().unwrap();
    let second = column.read_frozen_at(1).unwrap();

    let first_array = first.view::<i64>().unwrap();
    let second_array = second.view::<i64>().unwrap();

    assert_eq!(first_array.array().int64_values()[0], 0);
    assert_eq!(
        first_array.array().int64_values()[CHUNK_SIZE as usize - 1],
        chunk_size - 1
    );
    assert_eq!(second_array.array().int64_values()[0], chunk_size);
    assert_eq!(
        second_array.array().int64_values()[CHUNK_SIZE as usize - 1],
        chunk_size * 2 - 1
    );
}

#[test]
fn write_values_version_ids_per_chunk() {
    let mut column = int64_column();

    let values: Vec<i64> = (0..CHUNK_SIZE as i64 * 3).collect();
    column.write_values::<i64>(&values).unwrap();

    let first = column.read_frozen().unwrap();
    let second = column.read_frozen_at(1).unwrap();
    let third = column.read_frozen_at(2).unwrap();

    assert_eq!(first.chunk_id(), VersionID::new(0));
    assert_eq!(second.chunk_id(), VersionID::new(1));
    assert_eq!(third.chunk_id(), VersionID::new(2));
    assert!(column.read_frozen_at(3).is_none());
    assert_eq!(column.read_mutable().unwrap().len(), 0);
}

#[test]
fn write_values_partial_final_chunk_remains_mutable() {
    let mut column = int64_column();

    let total = CHUNK_SIZE + 123;
    let values: Vec<i64> = (0..total as i64).collect();
    column.write_values::<i64>(&values).unwrap();

    let frozen = column.read_frozen().expect("first chunk should be frozen");
    assert_eq!(
        frozen.view::<i64>().unwrap().array().len(),
        CHUNK_SIZE as usize
    );
    assert_eq!(column.read_mutable().unwrap().len(), 123);
}

#[test]
fn write_values_wrong_type_returns_invalid_downcast() {
    let mut column = int64_column();

    // The library holds no floating-point columns: a write of 32-bit integers
    // to a 64-bit integer column is refused in the same way.
    let result = column.write_values::<i32>(&[1, 2, 3]);

    assert!(
        matches!(result, Err(InvalidDowncast)),
        "mismatched builder type must return InvalidDowncast"
    );
}

#[test]
fn wrong_type_write_leaves_column_unchanged() {
    let mut column = int64_column();
    column.write::<i64>(vec![1, 2]).unwrap();

    assert!(matches!(column.write::<u8>(vec![3]), Err(InvalidDowncast)));
    assert!(matches!(column.write::<bool>(vec![true]), Err(InvalidDowncast)));

    assert_eq!(column.read_mutable().unwrap().int64_values(), &[1, 2]);
    assert_eq!(column.frozen_count(), 0);
}

#[test]
fn write_and_write_values_agree() {
    let values: Vec<i64> = (0..CHUNK_SIZE as i64 + 7).map(|v| v * 3).collect();

    let mut by_value = int64_column();
    by_value.write::<i64>(values.clone()).unwrap();

    let mut by_slice = int64_column();
    by_slice.write_values::<i64>(&values).unwrap();

    assert_eq!(by_value.frozen_count(), 1);
    assert_eq!(by_slice.frozen_count(), 1);
    assert_eq!(
        by_value.read_frozen().unwrap().view::<i64>().unwrap().array().int64_values(),
        by_slice.read_frozen().unwrap().view::<i64>().unwrap().array().int64_values()
    );
    assert_eq!(
        by_value.read_mutable().unwrap().int64_values(),
        by_slice.read_mutable().unwrap().int64_values()
    );
    assert_eq!(by_value.read_mutable().unwrap().int64_values()[6], values[CHUNK_SIZE as usize + 6]);
}

#[test]
fn sequential_versions_continue_across_writes() {
    let mut column = Column::new(SequentialVersions { next: 10 }, u8::builder());
    let values: Vec<u8> = (0..CHUNK_SIZE).map(|v| (v % 251) as u8).collect();
    column.write_values::<u8>(&values).unwrap();
    column.write::<u8>(values.clone()).unwrap();

    assert_eq!(column.read_frozen_at(0).unwrap().chunk_id(), VersionID::new(10));
    assert_eq!(column.read_frozen_at(1).unwrap().chunk_id(), VersionID::new(11));
    assert_eq!(column.frozen_count(), 2);
}

#[test]
fn one_write_or_several_leave_the_same_column() {
    let values: Vec<i64> = (0..CHUNK_SIZE as i64 * 2 + 3).collect();

    let mut once = int64_column();
    once.write_values::<i64>(&values).unwrap();

    let mut pieces = int64_column();
    let (a, rest) = values.split_at(100);
    let (b, c) = rest.split_at(CHUNK_SIZE as usize);
    pieces.write::<i64>(a.to_vec()).unwrap();
    pieces.write_values::<i64>(b).unwrap();
    pieces.write::<i64>(c.to_vec()).unwrap();

    assert_eq!(once.frozen_count(), pieces.frozen_count());
    for i in 0..once.frozen_count() {
        let x = once.read_frozen_at(i).unwrap();
        let y = pieces.read_frozen_at(i).unwrap();
        assert_eq!(x.chunk_id(), y.chunk_id());
        assert_eq!(
            x.view::<i64>().unwrap().array().int64_values(),
            y.view::<i64>().unwrap().array().int64_values()
        );
    }
    assert_eq!(
        once.read_mutable().unwrap().int64_values(),
        pieces.read_mutable().unwrap().int64_values()
    );
}
