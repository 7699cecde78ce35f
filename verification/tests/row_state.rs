use plinth::row_state::{MutableRowStateChunk, RowMetadata, RowState};
use plinth::units::{LogicalSize, CHUNK_SIZE};
use std::sync::atomic::{AtomicBool, Ordering};
use std::sync::Arc;

#[derive(Debug)]
struct TestMetadata {
    id: usize,
    visibility: AtomicBool,
}

impl TestMetadata {
    fn new(id: usize) -> Self {
        Self {
            id,
            visibility: AtomicBool::new(true),
        }
    }
}

impl RowMetadata for TestMetadata {
    fn is_alive(&self) -> bool {
        self.visibility.load(Ordering::Acquire)
    }
}

fn metadata(id: usize) -> TestMetadata {
    TestMetadata::new(id)
}

fn chunk_len() -> usize {
    CHUNK_SIZE as usize
}

#[test]
fn new_row_state_has_empty_chain_and_empty_writer() {
    let state = RowState::<TestMetadata>::new();

    assert!(state.start().is_none());
    assert!(state.tail().is_none());
    assert_eq!(state.writer().current().as_usize(), 0);
}

#[test]
fn inserting_one_row_only_updates_mutable_writer() {
    let state = RowState::<TestMetadata>::new()
        .insert_n(LogicalSize::new(1), &Box::new(|| metadata(42)));

    // The chunk is not visible/frozen until it is full.
    assert!(state.start().is_none());
    assert!(state.tail().is_none());

    assert_eq!(state.writer().current().as_usize(), 1);
    assert_eq!(state.writer().rows()[0].id, 42);
}

#[test]
fn filling_one_chunk_freezes_exactly_one_chunk() {
    let mut state = RowState::<TestMetadata>::new();

    for id in 0..chunk_len() + 1 {
        state = state.insert_n(LogicalSize::new(1), &Box::new(move || metadata(id)));
    }

    let start = state.start().expect("full chunk should be published");

    assert!(Arc::ptr_eq(start, state.tail().expect("tail should be set")));

    assert_eq!(start.rows().len(), chunk_len());
    assert!(state.chunk(1).is_none());

    for id in 0..chunk_len() {
        let row = &start.rows()[id];

        assert_eq!(row.id, id);
        assert!(row.is_alive());
    }

    assert_eq!(state.writer().current().as_usize(), 1);
}

#[test]
fn inserting_after_full_chunk_creates_new_writer() {
    let mut state = RowState::<TestMetadata>::new();

    for id in 0..chunk_len() {
        state = state.insert_n(LogicalSize::new(1), &Box::new(|| metadata(id)));
    }

    state = state.insert_n(LogicalSize::new(1), &Box::new(|| metadata(42)));

    let start = state.start().expect("first chunk should be published");

    assert_eq!(start.rows().len(), chunk_len());

    assert_eq!(state.writer().current().as_usize(), 1);

    let row = &state.writer().rows()[0];

    assert_eq!(row.id, 42);
}

#[test]
fn second_chunk_is_linked_to_first() {
    let mut state = RowState::<TestMetadata>::new();

    let total = chunk_len() * 2 + 1;

    for id in 0..total {
        state = state.insert_n(LogicalSize::new(1), &Box::new(|| metadata(id)));
    }

    let first = state.start().expect("first chunk should be published");

    let second = state.chunk(1).expect("second chunk should be linked");

    assert!(state.chunk(2).is_some() == false);

    for id in 0..chunk_len() {
        assert_eq!(first.rows()[id].id, id);
    }

    for id in 0..chunk_len() {
        assert_eq!(second.rows()[id].id, chunk_len() + id);
    }

    // The final row remains in the mutable writer.
    assert_eq!(state.writer().current().as_usize(), 1);

    let final_row = &state.writer().rows()[0];

    assert_eq!(final_row.id, total - 1);
}

#[test]
fn exact_chunk_boundary_does_not_create_empty_next_chunk() {
    let mut state = RowState::<TestMetadata>::new();

    for id in 0..chunk_len() + 1 {
        state = state.insert_n(LogicalSize::new(1), &Box::new(|| metadata(id)));
    }

    let _start = state.start().expect("chunk should be published");

    assert!(state.chunk(1).is_none());
    assert_eq!(state.writer().current().as_usize(), 1);
}

#[test]
fn mutable_chunk_rejects_insert_after_it_is_full() {
    let mut writer = MutableRowStateChunk::<TestMetadata>::default();

    for id in 0..chunk_len() {
        writer = writer
            .insert_n(&Box::new(|| metadata(id)), LogicalSize::new(1))
            .expect("chunk should still have capacity");
    }

    let result = writer.insert_n(&Box::new(|| metadata(42)), LogicalSize::new(1));

    assert!(result.is_err());

    let (rows, entry) = result.err().expect("full chunk must reject another row");

    assert_eq!(entry.as_usize(), 1);

    for id in 0..chunk_len() {
        assert_eq!(rows[id].id, id);
    }
}

#[test]
fn one_insert_or_many_give_the_same_chunks() {
    let total = chunk_len() * 2 + 5;

    let counter = std::cell::Cell::new(0usize);
    let next = || {
        let id = counter.get();
        counter.set(id + 1);
        metadata(id)
    };
    let once = RowState::<TestMetadata>::new().insert_n(LogicalSize::new(total as u64), &next);

    let mut many = RowState::<TestMetadata>::new();
    let counter2 = std::cell::Cell::new(0usize);
    let next2 = || {
        let id = counter2.get();
        counter2.set(id + 1);
        metadata(id)
    };
    for n in [3u64, CHUNK_SIZE - 3, 1, CHUNK_SIZE, 4] {
        many = many.insert_n(LogicalSize::new(n), &next2);
    }

    assert_eq!(once.chunk_count(), 2);
    assert_eq!(many.chunk_count(), 2);
    for i in 0..2 {
        let x = once.chunk(i).unwrap().rows();
        let y = many.chunk(i).unwrap().rows();
        assert_eq!(x.len(), chunk_len());
        for j in 0..chunk_len() {
            assert_eq!(x[j].id, y[j].id);
            assert_eq!(x[j].id, i * chunk_len() + j);
        }
    }
    let xw = once.writer().rows();
    let yw = many.writer().rows();
    assert_eq!(xw.len(), 5);
    assert_eq!(yw.len(), 5);
    assert_eq!(xw[4].id, total - 1);
    assert_eq!(yw[4].id, total - 1);
}
