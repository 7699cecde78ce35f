use plinth::byte_chunk::{
    Buffer, ByteOffset, ChunkWrite, ColumnState, LogicalOffset, MutableChunk, VECTOR_SIZE,
};

#[test]
fn new_buffer_is_zeroed() {
    let buffer = Buffer::new(16).unwrap();
    assert_eq!(buffer.size(), 16);
    assert_eq!(buffer.read(ByteOffset::new(0), 16), &[0u8; 16]);
}

#[test]
fn buffer_write_then_read_round_trips() {
    let mut buffer = Buffer::new(8).unwrap();
    buffer.write(ByteOffset::new(2), &[1, 2, 3]);
    assert_eq!(buffer.read(ByteOffset::new(2), 3), &[1, 2, 3]);
    assert_eq!(buffer.read(ByteOffset::new(0), 8), &[0, 0, 1, 2, 3, 0, 0, 0]);
    buffer.write(ByteOffset::new(5), &[9, 9, 9]);
    assert_eq!(buffer.read(ByteOffset::new(0), 8), &[0, 0, 1, 2, 3, 9, 9, 9]);
}

#[test]
fn logical_offset_increments() {
    let mut offset = LogicalOffset::new(3);
    offset.increment(4);
    assert_eq!(offset.get(), 7);
}

fn fill(elements: usize) -> plinth::byte_chunk::FrozenChunk {
    let mut chunk = MutableChunk::new(2, elements);
    let mut i = 0usize;
    loop {
        let bytes = [(i % 256) as u8, (i / 256) as u8];
        match chunk.write(&bytes) {
            ChunkWrite::Open(next) => chunk = next,
            ChunkWrite::Frozen(frozen) => {
                assert_eq!(i, elements - 1);
                return frozen;
            }
        }
        i += 1;
    }
}

#[test]
fn chunk_freezes_on_the_write_that_fills_it() {
    let chunk = MutableChunk::new(4, 2);
    let chunk = match chunk.write(&[1, 1, 1, 1]) {
        ChunkWrite::Open(chunk) => chunk,
        ChunkWrite::Frozen(_) => panic!("one element does not fill two slots"),
    };
    match chunk.write(&[2, 2, 2, 2]) {
        ChunkWrite::Open(_) => panic!("the second element fills the chunk"),
        ChunkWrite::Frozen(frozen) => {
            let mut iter = frozen.iter();
            let vector = iter.next().unwrap();
            assert_eq!(vector.as_bytes(), &[1, 1, 1, 1, 2, 2, 2, 2]);
            assert!(iter.next().is_none());
        }
    }
}

#[test]
fn frozen_chunk_is_read_in_vectors_of_vector_size_elements() {
    let elements = VECTOR_SIZE * 2 + 5;
    let frozen = fill(elements);
    let mut iter = frozen.iter();
    let mut lengths = Vec::new();
    let mut all = Vec::new();
    while let Some(vector) = iter.next() {
        lengths.push(vector.as_bytes().len() / 2);
        all.extend_from_slice(vector.as_bytes());
    }
    assert_eq!(lengths, vec![VECTOR_SIZE, VECTOR_SIZE, 5]);
    assert_eq!(all.len(), elements * 2);
    for i in 0..elements {
        assert_eq!(all[2 * i], (i % 256) as u8);
        assert_eq!(all[2 * i + 1], (i / 256) as u8);
    }
}

#[test]
fn filled_chunks_are_published_in_order() {

    let mut state = ColumnState::new();
    assert!(state.frozen_tail().is_none());

    let mut chunk = MutableChunk::new(1, 2);
    let mut published = 0;
    for value in 0..5u8 {
        match state.write(chunk, &[value]) {
            Some(open) => chunk = open,
            None => {
                published += 1;
                chunk = MutableChunk::new(1, 2);
            }
        }
    }
    assert_eq!(published, 2);
    assert_eq!(state.frozen_count(), 2);
    let first = state.frozen_at(0).unwrap();
    let second = state.frozen_tail().unwrap();
    assert_eq!(first.iter().next().unwrap().as_bytes(), &[0, 1]);
    assert_eq!(second.iter().next().unwrap().as_bytes(), &[2, 3]);
    assert!(state.frozen_at(2).is_none());
}
