use plinth::chunk::{Append, AppendableType, ColumnArray, FrozenChunk};
use plinth::units::{LogicalOffset, VersionID, VECTOR_SIZE};
use plinth::vector::VectorIter;

fn int32_array(values: &[i32]) -> ColumnArray {
    let mut builder = i32::builder();
    <i32 as Append>::append_values(&mut builder, values);
    builder.finish()
}

#[test]
fn vectors_cover_the_rows_in_runs_of_vector_size() {
    let values: Vec<i32> = (0..2500).collect();
    let array = int32_array(&values);
    let mut iter = VectorIter::<i32>::new(&array);
    assert_eq!(iter.remaining_vectors(), 3);

    let mut bounds = Vec::new();
    while let Some(vector) = iter.next_vector() {
        bounds.push((vector.start().get(), vector.end().get()));
    }
    let vs = VECTOR_SIZE;
    assert_eq!(bounds, vec![(0, vs), (vs, 2 * vs), (2 * vs, 2500)]);
    assert_eq!(iter.remaining_vectors(), 0);
    assert!(iter.next_vector().is_none());
}

#[test]
fn exact_multiple_of_vector_size_has_no_empty_vector() {
    let values: Vec<i32> = (0..2048).collect();
    let array = int32_array(&values);
    let mut iter = VectorIter::<i32>::new(&array);
    assert_eq!(iter.remaining_vectors(), 2);
    let first = iter.next_vector().unwrap();
    let second = iter.next_vector().unwrap();
    assert_eq!(first.end().get(), 1024);
    assert_eq!(second.end().get(), 2048);
    assert!(iter.next_vector().is_none());
}

#[test]
fn empty_array_has_no_vectors() {
    let array = int32_array(&[]);
    let mut iter = VectorIter::<i32>::new(&array);
    assert_eq!(iter.remaining_vectors(), 0);
    assert!(iter.next_vector().is_none());
}

#[test]
fn vector_window_holds_its_rows_and_their_validity() {
    let mut builder = Option::<i64>::builder();
    for i in 0..1030i64 {
        let value = if i % 7 == 0 { None } else { Some(i) };
        <Option<i64> as Append>::append(&mut builder, value);
    }
    let array = builder.finish();
    let mut iter = VectorIter::<i64>::new(&array);
    let _first = iter.next_vector().unwrap();
    let second = iter.next_vector().unwrap();
    let (values, nulls) = second.with(|window, validity| {
        let mut values = Vec::new();
        let mut nulls = 0;
        for (index, element) in window.iter().enumerate() {
            if validity.is_valid(LogicalOffset::new(index as u64)) {
                values.push(*element);
            } else {
                nulls += 1;
            }
        }
        (values, nulls)
    });
    // Rows 1024..1030: 1029 is a multiple of 7.
    assert_eq!(values, vec![1024, 1025, 1026, 1027, 1028]);
    assert_eq!(nulls, 1);
}

#[test]
fn chunk_view_vectors_start_at_the_first_row() {
    let values: Vec<i32> = (0..10).collect();
    let chunk = FrozenChunk::new(int32_array(&values), VersionID::new(3));
    let view = chunk.view::<i32>().unwrap();
    let mut iter = view.vectors();
    let vector = iter.next_vector().unwrap();
    assert_eq!(vector.start().get(), 0);
    assert_eq!(vector.end().get(), 10);
    let sum: i32 = vector.with(|window, _| window.iter().sum());
    assert_eq!(sum, 45);
}

#[test]
fn a_closure_may_read_validity_inside_its_window() {
    let array = int32_array(&[7, 8, 9]);
    let mut iter = VectorIter::<i32>::new(&array);
    let vector = iter.next_vector().unwrap();
    let all_valid = vector.with(|window, validity| {
        (0..window.len()).all(|i| validity.is_valid(LogicalOffset::new(i as u64)))
    });
    assert!(all_valid);
}
