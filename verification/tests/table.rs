use plinth::schema::{Empty, Node};
use plinth::table::{
    FieldVisitor, RowInsert, SliceFieldVisitor, SliceTableRow, StreamingFieldVisitor,
    StreamingTableRow, Table, TableBuilder, TableRow, VisitorError,
};
use plinth::units::LogicalSize;

struct UserRow;

impl TableRow for UserRow {
    type Schema = Node<u8, Node<i32, Empty>>;
}

struct UserStream {
    ids: Vec<i32>,
    ages: Vec<u8>,
}

impl TableRow for UserStream {
    type Schema = Node<u8, Node<i32, Empty>>;
}

impl StreamingTableRow for UserStream {
    fn visit_columns_streaming<V: StreamingFieldVisitor>(
        self,
        visitor: &mut V,
    ) -> Result<(), VisitorError> {
        visitor.visit_fields::<&str, i32>("id", self.ids)?;
        visitor.visit_fields::<&str, u8>("age", self.ages)?;
        Ok(())
    }
}

fn make_table() -> Table<UserRow> {
    TableBuilder::default()
        .add::<i32>("id")
        .unwrap()
        .add::<u8>("age")
        .unwrap()
        .finish::<UserRow>()
}

#[test]
fn streaming_insert_equal_lengths_succeeds() {
    let mut table = make_table();
    let stream = UserStream {
        ids: vec![1, 2, 3],
        ages: vec![20, 25, 30],
    };
    assert!(table.streaming_insert(stream).is_ok());
}

#[test]
fn streaming_insert_second_column_shorter_returns_mismatch() {
    let mut table = make_table();
    let stream = UserStream {
        ids: vec![1, 2, 3],
        ages: vec![20, 25],
    };
    assert!(matches!(
        table.streaming_insert(stream),
        Err(VisitorError::LengthMismatch { expected, got })
            if expected == LogicalSize::new(3) && got == LogicalSize::new(2)
    ));
}

#[test]
fn streaming_insert_second_column_longer_returns_mismatch() {
    let mut table = make_table();
    let stream = UserStream {
        ids: vec![1, 2],
        ages: vec![20, 25, 30],
    };
    assert!(matches!(
        table.streaming_insert(stream),
        Err(VisitorError::LengthMismatch { expected, got })
            if expected == LogicalSize::new(2) && got == LogicalSize::new(3)
    ));
}

#[test]
fn streaming_insert_both_empty_succeeds() {
    let mut table = make_table();
    let stream = UserStream {
        ids: vec![],
        ages: vec![],
    };
    assert!(table.streaming_insert(stream).is_ok());
}

// --- wrong type writes ---

struct WrongTypeStream {
    ids: Vec<i64>, // column expects i32
}

impl TableRow for WrongTypeStream {
    type Schema = Node<u8, Node<i32, Empty>>;
}

impl StreamingTableRow for WrongTypeStream {
    fn visit_columns_streaming<V: StreamingFieldVisitor>(
        self,
        visitor: &mut V,
    ) -> Result<(), VisitorError> {
        visitor.visit_fields::<&str, i64>("id", self.ids)?;
        Ok(())
    }
}

#[test]
fn streaming_insert_wrong_type_returns_invalid_downcast() {
    let mut table = make_table();
    let stream = WrongTypeStream {
        ids: vec![1i64, 2, 3],
    };
    assert!(matches!(
        table.streaming_insert(stream),
        Err(VisitorError::InvalidDowncast(_))
    ));
}

// --- invalid index ---

struct BadStringIndexStream;

impl TableRow for BadStringIndexStream {
    type Schema = Node<u8, Node<i32, Empty>>;
}

impl StreamingTableRow for BadStringIndexStream {
    fn visit_columns_streaming<V: StreamingFieldVisitor>(
        self,
        visitor: &mut V,
    ) -> Result<(), VisitorError> {
        visitor.visit_fields::<&str, i32>("nonexistent", vec![1])?;
        Ok(())
    }
}

struct BadUsizeIndexStream;

impl TableRow for BadUsizeIndexStream {
    type Schema = Node<u8, Node<i32, Empty>>;
}

impl StreamingTableRow for BadUsizeIndexStream {
    fn visit_columns_streaming<V: StreamingFieldVisitor>(
        self,
        visitor: &mut V,
    ) -> Result<(), VisitorError> {
        visitor.visit_fields::<usize, i32>(999, vec![1])?;
        Ok(())
    }
}

#[test]
fn streaming_insert_unknown_string_index_returns_index_not_found() {
    let mut table = make_table();
    assert!(matches!(
        table.streaming_insert(BadStringIndexStream),
        Err(VisitorError::IndexNotFound(_))
    ));
}

#[test]
fn streaming_insert_out_of_bounds_usize_index_returns_index_not_found() {
    let mut table = make_table();
    assert!(matches!(
        table.streaming_insert(BadUsizeIndexStream),
        Err(VisitorError::IndexNotFound(_))
    ));
}

// --- insert (RowInsert) ---

struct InsertInvalidStringIndex;

impl TableRow for InsertInvalidStringIndex {
    type Schema = Node<u8, Node<i32, Empty>>;
}

impl RowInsert for InsertInvalidStringIndex {
    fn visit_fields<V: FieldVisitor>(self, visitor: &mut V) {
        assert!(matches!(
            visitor.visit_field::<&str, i32>("nonexistent", 42),
            Err(VisitorError::IndexNotFound(_))
        ));
    }
}

struct InsertInvalidUsizeIndex;

impl TableRow for InsertInvalidUsizeIndex {
    type Schema = Node<u8, Node<i32, Empty>>;
}

impl RowInsert for InsertInvalidUsizeIndex {
    fn visit_fields<V: FieldVisitor>(self, visitor: &mut V) {
        assert!(matches!(
            visitor.visit_field::<usize, i32>(999, 42),
            Err(VisitorError::IndexNotFound(_))
        ));
    }
}

struct InsertWrongType;

impl TableRow for InsertWrongType {
    type Schema = Node<u8, Node<i32, Empty>>;
}

impl RowInsert for InsertWrongType {
    fn visit_fields<V: FieldVisitor>(self, visitor: &mut V) {
        assert!(matches!(
            visitor.visit_field::<&str, i64>("id", 42i64),
            Err(VisitorError::InvalidDowncast(_))
        ));
    }
}

#[test]
fn insert_unknown_string_index_returns_index_not_found() {
    let mut table = TableBuilder::default()
        .add::<i32>("id")
        .unwrap()
        .add::<u8>("age")
        .unwrap()
        .finish::<InsertInvalidStringIndex>();
    table.insert(InsertInvalidStringIndex);
}

#[test]
fn insert_out_of_bounds_usize_index_returns_index_not_found() {
    let mut table = TableBuilder::default()
        .add::<i32>("id")
        .unwrap()
        .add::<u8>("age")
        .unwrap()
        .finish::<InsertInvalidUsizeIndex>();
    table.insert(InsertInvalidUsizeIndex);
}

#[test]
fn insert_wrong_type_returns_invalid_downcast() {
    let mut table = TableBuilder::default()
        .add::<i32>("id")
        .unwrap()
        .add::<u8>("age")
        .unwrap()
        .finish::<InsertWrongType>();
    table.insert(InsertWrongType);
}

// --- bulk_insert (SliceTableRow) ---

struct BulkInvalidStringIndex;

impl TableRow for BulkInvalidStringIndex {
    type Schema = Node<u8, Node<i32, Empty>>;
}

impl SliceTableRow for BulkInvalidStringIndex {
    fn visit_columns_slice<V: SliceFieldVisitor>(&self, visitor: &mut V) {
        assert!(matches!(
            visitor.visit_slice::<1, &str, i32>("nonexistent", &[42]),
            Err(VisitorError::IndexNotFound(_))
        ));
    }
}

struct BulkInvalidUsizeIndex;

impl TableRow for BulkInvalidUsizeIndex {
    type Schema = Node<u8, Node<i32, Empty>>;
}

impl SliceTableRow for BulkInvalidUsizeIndex {
    fn visit_columns_slice<V: SliceFieldVisitor>(&self, visitor: &mut V) {
        assert!(matches!(
            visitor.visit_slice::<1, usize, i32>(999, &[42]),
            Err(VisitorError::IndexNotFound(_))
        ));
    }
}

struct BulkWrongType;

impl TableRow for BulkWrongType {
    type Schema = Node<u8, Node<i32, Empty>>;
}

impl SliceTableRow for BulkWrongType {
    fn visit_columns_slice<V: SliceFieldVisitor>(&self, visitor: &mut V) {
        assert!(matches!(
            visitor.visit_slice::<1, &str, i64>("id", &[42i64]),
            Err(VisitorError::InvalidDowncast(_))
        ));
    }
}

#[test]
fn bulk_insert_unknown_string_index_returns_index_not_found() {
    let mut table = TableBuilder::default()
        .add::<i32>("id")
        .unwrap()
        .add::<u8>("age")
        .unwrap()
        .finish::<BulkInvalidStringIndex>();
    table.bulk_insert(&BulkInvalidStringIndex);
}

#[test]
fn bulk_insert_out_of_bounds_usize_index_returns_index_not_found() {
    let mut table = TableBuilder::default()
        .add::<i32>("id")
        .unwrap()
        .add::<u8>("age")
        .unwrap()
        .finish::<BulkInvalidUsizeIndex>();
    table.bulk_insert(&BulkInvalidUsizeIndex);
}

#[test]
fn bulk_insert_wrong_type_returns_invalid_downcast() {
    let mut table = TableBuilder::default()
        .add::<i32>("id")
        .unwrap()
        .add::<u8>("age")
        .unwrap()
        .finish::<BulkWrongType>();
    table.bulk_insert(&BulkWrongType);
}

// --- the documented examples, with the values read back ---

struct Person {
    id: i32,
    age: u8,
}

impl TableRow for Person {
    type Schema = Node<u8, Node<i32, Empty>>;
}

impl RowInsert for Person {
    fn visit_fields<V: FieldVisitor>(self, visitor: &mut V) {
        let _ = visitor.visit_field::<&str, i32>("id", self.id);
        let _ = visitor.visit_field::<&str, u8>("age", self.age);
    }
}

struct PersonBatch<const N: usize> {
    ids: Box<[i32; N]>,
    ages: Box<[u8; N]>,
}

impl<const N: usize> TableRow for PersonBatch<N> {
    type Schema = Node<u8, Node<i32, Empty>>;
}

impl<const N: usize> SliceTableRow for PersonBatch<N> {
    fn visit_columns_slice<V: SliceFieldVisitor>(&self, visitor: &mut V) {
        let _ = visitor.visit_slice::<N, &str, i32>("id", &*self.ids);
        let _ = visitor.visit_slice::<N, usize, u8>(1, &*self.ages);
    }
}

#[test]
fn row_inserts_append_to_each_column() {
    let mut table = TableBuilder::default()
        .add::<i32>("id")
        .unwrap()
        .add::<u8>("age")
        .unwrap()
        .finish::<Person>();

    table.insert(Person { id: 1, age: 30 });
    table.insert(Person { id: 2, age: 25 });

    let ids = table.column("id").ok().unwrap().read_mutable().unwrap();
    let ages = table.column(1usize).ok().unwrap().read_mutable().unwrap();
    assert_eq!(ids.int32_values(), &[1, 2]);
    assert_eq!(ages.uint8_values(), &[30, 25]);
}

#[test]
fn bulk_and_streaming_inserts_append_after_earlier_rows() {
    let mut table = make_table();
    table
        .streaming_insert(UserStream {
            ids: vec![1, 2, 3],
            ages: vec![20, 25, 30],
        })
        .unwrap();

    let mut other = TableBuilder::default()
        .add::<i32>("id")
        .unwrap()
        .add::<u8>("age")
        .unwrap()
        .finish::<PersonBatch<2>>();
    other.bulk_insert(&PersonBatch::<2> {
        ids: Box::new([7, 8]),
        ages: Box::new([70, 80]),
    });
    other.bulk_insert(&PersonBatch::<2> {
        ids: Box::new([9, 10]),
        ages: Box::new([90, 100]),
    });

    let ids = table.column("id").ok().unwrap().read_mutable().unwrap();
    assert_eq!(ids.int32_values(), &[1, 2, 3]);
    let ids = other.column("id").ok().unwrap().read_mutable().unwrap();
    let ages = other.column("age").ok().unwrap().read_mutable().unwrap();
    assert_eq!(ids.int32_values(), &[7, 8, 9, 10]);
    assert_eq!(ages.uint8_values(), &[70, 80, 90, 100]);
}

#[test]
fn mismatched_second_column_writes_no_column() {
    let mut table = make_table();
    let result = table.streaming_insert(UserStream {
        ids: vec![1, 2, 3],
        ages: vec![20, 25],
    });
    assert!(matches!(
        result,
        Err(VisitorError::LengthMismatch { expected, got })
            if expected == LogicalSize::new(3) && got == LogicalSize::new(2)
    ));

    let ids = table.column("id").ok().unwrap().read_mutable().unwrap();
    let ages = table.column("age").ok().unwrap().read_mutable().unwrap();
    assert_eq!(ids.len(), 0);
    assert_eq!(ages.len(), 0);

    // A later insert of equal lengths is written in full.
    table
        .streaming_insert(UserStream {
            ids: vec![4, 5],
            ages: vec![40, 50],
        })
        .unwrap();
    let ids = table.column("id").ok().unwrap().read_mutable().unwrap();
    let ages = table.column("age").ok().unwrap().read_mutable().unwrap();
    assert_eq!(ids.int32_values(), &[4, 5]);
    assert_eq!(ages.uint8_values(), &[40, 50]);
}

#[test]
fn builder_refuses_a_duplicate_column_name() {
    let builder = TableBuilder::default().add::<i32>("id").unwrap();
    assert!(builder.add::<u8>("id").is_err());
}

#[test]
fn unknown_column_is_not_found() {
    let table = make_table();
    assert!(table.column("height").is_err());
    assert!(table.column(2usize).is_err());
    assert!(table.column(0usize).is_ok());
}

struct IdsThenWrongAges {
    ids: Vec<i32>,
    ages: Vec<i64>,
}

impl TableRow for IdsThenWrongAges {
    type Schema = Node<u8, Node<i32, Empty>>;
}

impl StreamingTableRow for IdsThenWrongAges {
    fn visit_columns_streaming<V: StreamingFieldVisitor>(
        self,
        visitor: &mut V,
    ) -> Result<(), VisitorError> {
        visitor.visit_fields::<&str, i32>("id", self.ids)?;
        visitor.visit_fields::<&str, i64>("age", self.ages)?;
        Ok(())
    }
}

#[test]
fn streaming_runs_are_written_when_the_insert_completes() {
    let mut table = make_table();
    let result = table.streaming_insert(IdsThenWrongAges {
        ids: vec![1, 2],
        ages: vec![3, 4],
    });
    assert!(matches!(result, Err(VisitorError::InvalidDowncast(_))));
    // Only a length mismatch discards the accepted runs.
    let ids = table.column("id").ok().unwrap().read_mutable().unwrap();
    assert_eq!(ids.int32_values(), &[1, 2]);
    let ages = table.column("age").ok().unwrap().read_mutable().unwrap();
    assert_eq!(ages.len(), 0);
}
