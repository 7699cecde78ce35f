//! Tables: a set of named, typed columns, and the row types that are written to them.
use std::marker::PhantomData;
use vstd::prelude::*;

use crate::arrow_store::ColumnKind;
use crate::chunk::{cells_of, Append, AppendableType, Run};
use crate::column::{all_chunks_versioned, lemma_fixed_extends, Column, FixedVersion, InvalidDowncast};
use crate::schema::{Empty, Node, SchemaList};
use crate::units::{LogicalOffset, LogicalSize, VersionID};

verus! {

/// An index named no column of the table.
#[derive(Debug)]
pub struct IndexNotFound;

/// Why a visitor did not write a column.
#[derive(Debug)]
pub enum VisitorError {
    IndexNotFound(IndexNotFound),
    InvalidDowncast(InvalidDowncast),
    /// Two columns of one streaming insert were given different numbers of values.
    ///
    /// All columns in a streaming insert must receive the same number of values.
    /// The first column's length is used as the expected length for all
    /// subsequent columns.
    LengthMismatch { expected: LogicalSize, got: LogicalSize },
}

/// A table was given a column name it already has.
#[derive(Debug)]
pub struct DuplicateField;

/// `<str as PartialEq>::eq`: two strings are equal when they hold the same characters.
#[verifier::external_body]
fn str_eq(a: &str, b: &str) -> (r: bool)
    ensures
        r == (a@ == b@),
{
    a == b
}

/// No two names are the same string.
pub open spec fn names_distinct(names: Seq<&'static str>) -> bool {
    forall|i: int, j: int| 0 <= i < j < names.len() ==> names[i]@ != names[j]@
}

/// The position of `name` among `names`, if it is there.
pub open spec fn name_position(names: Seq<&'static str>, name: Seq<char>) -> Option<int> {
    if exists|i: int| 0 <= i < names.len() && (#[trigger] names[i])@ == name {
        Some(choose|i: int| 0 <= i < names.len() && (#[trigger] names[i])@ == name)
    } else {
        None
    }
}

/// The position of `name` among `names`, if it is there.
fn find_name(names: &Vec<&'static str>, name: &str) -> (r: Option<usize>)
    requires
        names_distinct(names@),
    ensures
        match r {
            Some(i) => i < names@.len() && name_position(names@, name@) == Some(i as int),
            None => name_position(names@, name@) is None,
        },
{
    let mut i: usize = 0;
    while i < names.len()
        invariant
            names_distinct(names@),
            i <= names@.len(),
            forall|j: int| 0 <= j < i ==> (#[trigger] names@[j])@ != name@,
        decreases names@.len() - i,
    {
        if str_eq(names[i], name) {
            proof {
                let c = choose|j: int| 0 <= j < names@.len() && (#[trigger] names@[j])@ == name@;
                assert(names@[i as int]@ == name@);
                if c != i {
                    if c < i {
                        assert(names@[c]@ != names@[i as int]@);
                    } else {
                        assert(names@[i as int]@ != names@[c]@);
                    }
                }
            }
            return Some(i);
        }
        i = i + 1;
    }
    None
}

/// How a column of a table is addressed: by name or by position.
pub trait Index {
    /// The position of the column this index names among columns named `names`.
    spec fn spec_resolve(&self, names: Seq<&'static str>) -> Option<int>;

    fn resolve<T: TableRow>(&self, table: &Table<T>) -> (r: Result<LogicalOffset, IndexNotFound>)
        requires
            table.wf(),
        ensures
            match r {
                Ok(offset) => {
                    &&& self.spec_resolve(table.spec_names()) == Some(offset.get() as int)
                    &&& offset.get() < table.spec_names().len()
                },
                Err(_) => self.spec_resolve(table.spec_names()) is None,
            },
    ;
}

impl Index for &'static str {
    open spec fn spec_resolve(&self, names: Seq<&'static str>) -> Option<int> {
        name_position(names, (*self)@)
    }

    fn resolve<T: TableRow>(&self, table: &Table<T>) -> (r: Result<LogicalOffset, IndexNotFound>) {
        match find_name(&table.names, *self) {
            Some(i) => Ok(LogicalOffset::new(i as u64)),
            None => Err(IndexNotFound),
        }
    }
}

impl Index for usize {
    open spec fn spec_resolve(&self, names: Seq<&'static str>) -> Option<int> {
        if (*self as int) < names.len() {
            Some(*self as int)
        } else {
            None
        }
    }

    fn resolve<T: TableRow>(&self, table: &Table<T>) -> (r: Result<LogicalOffset, IndexNotFound>)
        ensures
            match r {
                Ok(offset) => offset.get() == *self,
                Err(_) => *self >= table.spec_names().len(),
            },
    {
        if *self < table.columns.len() {
            Ok(LogicalOffset::new(*self as u64))
        } else {
            Err(IndexNotFound)
        }
    }
}

/// A position names the column at that position: position `i` resolves to
/// `i` when there are more than `i` columns, and to nothing otherwise.
pub proof fn lemma_position_resolves(i: usize, names: Seq<&'static str>)
    ensures
        i < names.len() ==> i.spec_resolve(names) == Some(i as int),
        i >= names.len() ==> i.spec_resolve(names) is None,
{
}

/// A name names the column that bears it: among distinct names, a name
/// resolves to the position holding that name, and to nothing when no
/// column bears it.
pub proof fn lemma_name_resolves(name: &'static str, names: Seq<&'static str>)
    requires
        names_distinct(names),
    ensures
        name.spec_resolve(names) matches Some(i) ==> 0 <= i < names.len() && names[i]@ == name@,
        name.spec_resolve(names) is None ==> forall|i: int| 0 <= i < names.len() ==> names[i]@ != name@,
        forall|i: int| 0 <= i < names.len() && names[i]@ == name@ ==> name.spec_resolve(names) == Some(i),
{
    assert forall|i: int| 0 <= i < names.len() && names[i]@ == name@ implies name.spec_resolve(names)
        == Some(i) by {
        let c = choose|j: int| 0 <= j < names.len() && (#[trigger] names[j])@ == name@;
        assert(names[i]@ == name@);
        if c != i {
            if c < i {
                assert(names[c]@ != names[i]@);
            } else {
                assert(names[i]@ != names[c]@);
            }
        }
    }
}

/// Schema marker: declares which columns a row type maps to in a [`Table`].
///
/// `Schema` is a type-level linked list (`Node<Head, Tail>`) encoding the
/// column types in the order they were added to the builder.
/// `TableBuilder::finish` only compiles when the target type's `Schema`
/// matches the accumulated schema.
pub trait TableRow {
    type Schema: SchemaList;
}

/// A table: named columns of values, one column per field of the rows.
pub struct Table<T: TableRow> {
    columns: Vec<Column<FixedVersion>>,
    names: Vec<&'static str>,
    _marker: PhantomData<T>,
}

impl<T: TableRow> Table<T> {
    /// The column names, in the order the columns were added.
    pub closed spec fn spec_names(&self) -> Seq<&'static str> {
        self.names@
    }

    pub closed spec fn spec_columns(&self) -> Seq<Column<FixedVersion>> {
        self.columns@
    }

    pub closed spec fn wf(&self) -> bool {
        &&& self.names@.len() == self.columns@.len()
        &&& names_distinct(self.names@)
        &&& forall|i: int| 0 <= i < self.columns@.len() ==> (#[trigger] self.columns@[i]).wf()
        &&& forall|i: int|
            0 <= i < self.columns@.len() ==> all_chunks_versioned(
                #[trigger] self.columns@[i],
                VersionID::spec_new(0),
            )
    }

    /// What a well-formed table holds: one column per name, no name twice,
    /// and every column well formed, with every chunk at version 0.
    pub proof fn lemma_wf(&self)
        requires
            self.wf(),
        ensures
            self.spec_names().len() == self.spec_columns().len(),
            names_distinct(self.spec_names()),
            forall|i: int| 0 <= i < self.spec_columns().len() ==> (#[trigger] self.spec_columns()[i]).wf(),
            forall|i: int|
                0 <= i < self.spec_columns().len() ==> all_chunks_versioned(
                    #[trigger] self.spec_columns()[i],
                    VersionID::spec_new(0),
                ),
    {
    }

    /// Every chunk of every column of a table, frozen or mutable, carries
    /// version 0: a table's columns take their chunk identifiers from a fixed
    /// source of version 0.
    pub proof fn lemma_chunk_versions(&self)
        requires
            self.wf(),
        ensures
            forall|j: int, i: int|
                0 <= j < self.spec_columns().len() && 0 <= i < self.spec_columns()[j].spec_frozen_count()
                    ==> (#[trigger] self.spec_columns()[j].spec_frozen(i)).chunk_id()
                    == VersionID::spec_new(0),
            forall|j: int|
                0 <= j < self.spec_columns().len() ==> (#[trigger] self.spec_columns()[j]).spec_tail().chunk_id()
                    == VersionID::spec_new(0),
    {
        assert forall|j: int, i: int|
            0 <= j < self.spec_columns().len() && 0 <= i < self.spec_columns()[j].spec_frozen_count()
                implies (#[trigger] self.spec_columns()[j].spec_frozen(i)).chunk_id()
                == VersionID::spec_new(0) by {
            self.columns@[j].lemma_chunks();
            assert(all_chunks_versioned(self.columns@[j], VersionID::spec_new(0)));
        }
        assert forall|j: int| 0 <= j < self.spec_columns().len() implies (
        #[trigger] self.spec_columns()[j]).spec_tail().chunk_id() == VersionID::spec_new(0) by {
            self.columns@[j].lemma_chunks();
            assert(all_chunks_versioned(self.columns@[j], VersionID::spec_new(0)));
            assert(self.columns@[j].chunk_ids().last() == self.columns@[j].chunk_ids()[self.columns@[j].chunk_ids().len() - 1]);
        }
    }

    /// `self` holds the same columns, under the same names, as `other`.
    pub open spec fn same_as(&self, other: &Self) -> bool {
        &&& self.spec_names() == other.spec_names()
        &&& self.spec_columns() == other.spec_columns()
    }

    /// `self` is `before` with `cells` written to column `index`, and every
    /// other column as it was.
    pub open spec fn written(&self, before: &Self, index: int, cells: Seq<Option<int>>) -> bool {
        &&& self.spec_names() == before.spec_names()
        &&& self.spec_columns().len() == before.spec_columns().len()
        &&& 0 <= index < self.spec_columns().len()
        &&& forall|j: int|
            0 <= j < self.spec_columns().len() && j != index ==> #[trigger] self.spec_columns()[j]
                == before.spec_columns()[j]
        &&& self.spec_columns()[index].extends(&before.spec_columns()[index], cells)
    }

    /// What a write of `cells`, of type `kind`, to the column that `index`
    /// names leaves behind, given its result `r`.
    pub open spec fn write_outcome<I: Index>(
        &self,
        before: &Self,
        index: I,
        kind: ColumnKind,
        cells: Seq<Option<int>>,
        r: Result<(), VisitorError>,
    ) -> bool {
        let resolved = index.spec_resolve(before.spec_names());
        &&& self.wf()
        &&& self.grows_from(before)
        &&& match r {
            Ok(()) => {
                &&& resolved is Some
                &&& before.spec_columns()[resolved.unwrap()].spec_kind() == kind
                &&& self.written(before, resolved.unwrap(), cells)
            },
            Err(VisitorError::IndexNotFound(_)) => {
                &&& resolved is None
                &&& self.same_as(before)
            },
            Err(VisitorError::InvalidDowncast(_)) => {
                &&& resolved is Some
                &&& before.spec_columns()[resolved.unwrap()].spec_kind() != kind
                &&& self.same_as(before)
            },
            Err(VisitorError::LengthMismatch { .. }) => false,
        }
    }

    /// `self` is `before` with zero or more cells written to each column: the
    /// names stay, and every column has grown from the one it was.
    pub open spec fn grows_from(&self, before: &Self) -> bool {
        &&& self.spec_names() == before.spec_names()
        &&& self.spec_columns().len() == before.spec_columns().len()
        &&& forall|j: int|
            0 <= j < self.spec_columns().len() ==> (#[trigger] self.spec_columns()[j]).grows_from(
                &before.spec_columns()[j],
            )
    }

    /// A table has grown from itself, and from a table it holds the same columns as.
    pub proof fn lemma_same_grows(&self, before: &Self)
        requires
            self.same_as(before),
        ensures
            self.grows_from(before),
    {
        assert forall|j: int| 0 <= j < self.spec_columns().len() implies (
        #[trigger] self.spec_columns()[j]).grows_from(&before.spec_columns()[j]) by {
            self.spec_columns()[j].lemma_grows_reflexive();
        }
    }

    /// A table with cells written to one column has grown.
    pub proof fn lemma_written_grows(&self, before: &Self, index: int, cells: Seq<Option<int>>)
        requires
            self.written(before, index, cells),
        ensures
            self.grows_from(before),
    {
        assert forall|j: int| 0 <= j < self.spec_columns().len() implies (
        #[trigger] self.spec_columns()[j]).grows_from(&before.spec_columns()[j]) by {
            if j == index {
                self.spec_columns()[j].lemma_extends_grows(&before.spec_columns()[j], cells);
            } else {
                assert(self.spec_columns()[j] == before.spec_columns()[j]);
                self.spec_columns()[j].lemma_grows_reflexive();
            }
        }
    }

    /// Growth composes over successive writes.
    pub proof fn lemma_grows_transitive(a: &Self, b: &Self, c: &Self)
        requires
            b.grows_from(a),
            c.grows_from(b),
        ensures
            c.grows_from(a),
    {
        assert forall|j: int| 0 <= j < c.spec_columns().len() implies (
        #[trigger] c.spec_columns()[j]).grows_from(&a.spec_columns()[j]) by {
            assert(b.spec_columns()[j].grows_from(&a.spec_columns()[j]));
            Column::lemma_grows_transitive(
                &a.spec_columns()[j],
                &b.spec_columns()[j],
                &c.spec_columns()[j],
            );
        }
    }

    /// Writes `values` one at a time to the column that `index` names.
    fn write_column<I: Index, V: Append>(&mut self, index: I, values: Vec<V>) -> (r: Result<
        (),
        VisitorError,
    >)
        requires
            old(self).wf(),
        ensures
            final(self).write_outcome(&*old(self), index, V::kind(), cells_of(values@), r),
    {
        let offset = match index.resolve(&*self) {
            Ok(offset) => offset,
            Err(e) => {
                proof {
                    self.lemma_same_grows(self);
                }
                return Err(VisitorError::IndexNotFound(e));
            },
        };
        let ghost before = *self;
        let column_count: usize = self.columns.len();
        assert(offset.get() < column_count);
        let i = offset.as_usize();
        let result = self.columns[i].write::<V>(values);
        proof {
            assert forall|j: int| 0 <= j < self.columns@.len() && j != i implies #[trigger] self.columns@[j]
                == before.columns@[j] by {}
            assert forall|j: int| 0 <= j < self.columns@.len() implies (#[trigger] self.columns@[j]).wf() by {
                if j != i {
                    assert(self.columns@[j] == before.columns@[j]);
                }
            }
            assert forall|j: int| 0 <= j < self.columns@.len() implies all_chunks_versioned(
                #[trigger] self.columns@[j],
                VersionID::spec_new(0),
            ) by {
                if j != i || result is Err {
                    assert(self.columns@[j] == before.columns@[j]);
                } else {
                    lemma_fixed_extends(
                        before.columns@[j],
                        self.columns@[j],
                        cells_of(values@),
                        VersionID::spec_new(0),
                    );
                }
            }
            if result is Err {
                assert(self.columns@ =~= before.columns@);
                self.lemma_same_grows(&before);
            } else {
                assert(index.spec_resolve(before.spec_names()).unwrap() == i);
                self.lemma_written_grows(&before, i as int, cells_of(values@));
            }
        }
        match result {
            Ok(()) => Ok(()),
            Err(e) => Err(VisitorError::InvalidDowncast(e)),
        }
    }

    /// Writes the slice `values` to the column that `index` names.
    fn write_column_slice<I: Index, V: Append>(&mut self, index: I, values: &[V]) -> (r: Result<
        (),
        VisitorError,
    >)
        requires
            old(self).wf(),
        ensures
            final(self).write_outcome(&*old(self), index, V::kind(), cells_of(values@), r),
    {
        let offset = match index.resolve(&*self) {
            Ok(offset) => offset,
            Err(e) => {
                proof {
                    self.lemma_same_grows(self);
                }
                return Err(VisitorError::IndexNotFound(e));
            },
        };
        let ghost before = *self;
        let column_count: usize = self.columns.len();
        assert(offset.get() < column_count);
        let i = offset.as_usize();
        let result = self.columns[i].write_values::<V>(values);
        proof {
            assert forall|j: int| 0 <= j < self.columns@.len() && j != i implies #[trigger] self.columns@[j]
                == before.columns@[j] by {}
            assert forall|j: int| 0 <= j < self.columns@.len() implies (#[trigger] self.columns@[j]).wf() by {
                if j != i {
                    assert(self.columns@[j] == before.columns@[j]);
                }
            }
            assert forall|j: int| 0 <= j < self.columns@.len() implies all_chunks_versioned(
                #[trigger] self.columns@[j],
                VersionID::spec_new(0),
            ) by {
                if j != i || result is Err {
                    assert(self.columns@[j] == before.columns@[j]);
                } else {
                    lemma_fixed_extends(
                        before.columns@[j],
                        self.columns@[j],
                        cells_of(values@),
                        VersionID::spec_new(0),
                    );
                }
            }
            if result is Err {
                assert(self.columns@ =~= before.columns@);
                self.lemma_same_grows(&before);
            } else {
                assert(index.spec_resolve(before.spec_names()).unwrap() == i);
                self.lemma_written_grows(&before, i as int, cells_of(values@));
            }
        }
        match result {
            Ok(()) => Ok(()),
            Err(e) => Err(VisitorError::InvalidDowncast(e)),
        }
    }
}

/// Writes single values to the columns of a table.
pub trait FieldVisitor {
    /// The table behind the visitor is well formed.
    spec fn valid(&self) -> bool;

    /// The column names of the table behind the visitor.
    spec fn spec_names(&self) -> Seq<&'static str>;

    /// The table behind `self` has grown from the one behind `before`.
    spec fn grows_from(&self, before: &Self) -> bool;

    /// Growth is reflexive: a visitor's table has grown from itself.
    proof fn lemma_grows_reflexive(&self)
        ensures
            self.grows_from(self),
    ;

    /// Growth is transitive: it composes over successive visits.
    proof fn lemma_grows_transitive(a: &Self, b: &Self, c: &Self)
        requires
            b.grows_from(a),
            c.grows_from(b),
        ensures
            c.grows_from(a),
    ;

    fn visit_field<I: Index, V: Append>(&mut self, index: I, value: V) -> (r: Result<(), VisitorError>)
        requires
            old(self).valid(),
        ensures
            final(self).valid(),
            final(self).spec_names() == old(self).spec_names(),
            final(self).grows_from(&*old(self)),
    ;
}

/// Takes a run of values, given one after another, for each column of a
/// table; every column of one insert must receive the same number of values.
///
/// The index is resolved and the column type checked once per column. The
/// runs are held, and written together when the insert completes, so that an
/// insert whose columns differ in length writes nothing.
pub trait StreamingFieldVisitor {
    spec fn valid(&self) -> bool;

    spec fn spec_names(&self) -> Seq<&'static str>;

    spec fn grows_from(&self, before: &Self) -> bool;

    /// Growth is reflexive: a visitor's table has grown from itself.
    proof fn lemma_grows_reflexive(&self)
        ensures
            self.grows_from(self),
    ;

    /// Growth is transitive: it composes over successive visits.
    proof fn lemma_grows_transitive(a: &Self, b: &Self, c: &Self)
        requires
            b.grows_from(a),
            c.grows_from(b),
        ensures
            c.grows_from(a),
    ;

    fn visit_fields<I: Index, V: Append>(&mut self, index: I, values: Vec<V>) -> (r: Result<
        (),
        VisitorError,
    >)
        requires
            old(self).valid(),
        ensures
            final(self).valid(),
            final(self).spec_names() == old(self).spec_names(),
            final(self).grows_from(&*old(self)),
    ;
}

/// Writes a contiguous slice of values to the columns of a table: the fastest
/// path for bulk inserts when data is already in contiguous memory.
pub trait SliceFieldVisitor {
    spec fn valid(&self) -> bool;

    spec fn spec_names(&self) -> Seq<&'static str>;

    spec fn grows_from(&self, before: &Self) -> bool;

    /// Growth is reflexive: a visitor's table has grown from itself.
    proof fn lemma_grows_reflexive(&self)
        ensures
            self.grows_from(self),
    ;

    /// Growth is transitive: it composes over successive visits.
    proof fn lemma_grows_transitive(a: &Self, b: &Self, c: &Self)
        requires
            b.grows_from(a),
            c.grows_from(b),
        ensures
            c.grows_from(a),
    ;

    fn visit_slice<const N: usize, I: Index, V: Append>(&mut self, index: I, values: &[V; N]) -> (r:
        Result<(), VisitorError>)
        requires
            old(self).valid(),
        ensures
            final(self).valid(),
            final(self).spec_names() == old(self).spec_names(),
            final(self).grows_from(&*old(self)),
    ;
}

/// The visitor behind `Table::insert`.
pub struct SingleFieldVisitor<T: TableRow> {
    table: Table<T>,
}

impl<T: TableRow> SingleFieldVisitor<T> {
    pub closed spec fn spec_table(&self) -> Table<T> {
        self.table
    }
}

impl<T: TableRow> FieldVisitor for SingleFieldVisitor<T> {
    closed spec fn valid(&self) -> bool {
        self.table.wf()
    }

    closed spec fn spec_names(&self) -> Seq<&'static str> {
        self.table.spec_names()
    }

    closed spec fn grows_from(&self, before: &Self) -> bool {
        self.table.grows_from(&before.table)
    }

    proof fn lemma_grows_reflexive(&self) {
        self.table.lemma_same_grows(&self.table);
    }

    proof fn lemma_grows_transitive(a: &Self, b: &Self, c: &Self) {
        Table::lemma_grows_transitive(&a.table, &b.table, &c.table);
    }

    /// Resolves `index` and writes `value` to that column.
    fn visit_field<I: Index, V: Append>(&mut self, index: I, value: V) -> (r: Result<(), VisitorError>)
        ensures
            final(self).spec_table().write_outcome(
                &old(self).spec_table(),
                index,
                V::kind(),
                seq![V::cell(value)],
                r,
            ),
    {
        let mut values = Vec::new();
        values.push(value);
        assert(cells_of(values@) =~= seq![V::cell(value)]);
        self.table.write_column(index, values)
    }
}

/// Every held run names a column of `table` and has that column's type.
pub open spec fn runs_typed<T: TableRow>(table: Table<T>, runs: Seq<(usize, Run)>) -> bool {
    forall|k: int|
        0 <= k < runs.len() ==> {
            &&& (#[trigger] runs[k]).0 < table.spec_columns().len()
            &&& runs[k].1.kind() == table.spec_columns()[runs[k].0 as int].spec_kind()
        }
}

/// The cells that `runs` hold for column `j`, in the order they were given.
pub open spec fn held_cells(runs: Seq<(usize, Run)>, j: int) -> Seq<Option<int>>
    decreases runs.len(),
{
    if runs.len() == 0 {
        Seq::empty()
    } else {
        let last = runs.last();
        held_cells(runs.drop_last(), j) + if last.0 == j {
            last.1.cells()
        } else {
            Seq::empty()
        }
    }
}

/// The visitor behind `Table::streaming_insert`: it holds the number of values
/// the first column received, refuses a column with another number, and holds
/// the runs of the columns it accepted until the insert completes.
pub struct StreamingVisitor<T: TableRow> {
    table: Table<T>,
    expected_len: Option<LogicalSize>,
    runs: Vec<(usize, Run)>,
    mismatch: bool,
}

impl<T: TableRow> StreamingVisitor<T> {
    pub closed spec fn spec_table(&self) -> Table<T> {
        self.table
    }

    pub closed spec fn spec_expected_len(&self) -> Option<LogicalSize> {
        self.expected_len
    }

    /// The runs accepted so far, each with the position of its column.
    pub closed spec fn spec_runs(&self) -> Seq<(usize, Run)> {
        self.runs@
    }

    /// Whether a column was refused for its length.
    pub closed spec fn spec_mismatch(&self) -> bool {
        self.mismatch
    }
}

impl<T: TableRow> StreamingFieldVisitor for StreamingVisitor<T> {
    closed spec fn valid(&self) -> bool {
        &&& self.table.wf()
        &&& runs_typed(self.table, self.runs@)
    }

    closed spec fn spec_names(&self) -> Seq<&'static str> {
        self.table.spec_names()
    }

    /// The visitor writes nothing while it visits: its table stays as it was.
    closed spec fn grows_from(&self, before: &Self) -> bool {
        self.table == before.table
    }

    proof fn lemma_grows_reflexive(&self) {
    }

    proof fn lemma_grows_transitive(a: &Self, b: &Self, c: &Self) {
    }

    /// Checks the number of values against that of the first column, then
    /// resolves `index`, checks the column's type, and holds `values` as a
    /// run for that column.
    fn visit_fields<I: Index, V: Append>(&mut self, index: I, values: Vec<V>) -> (r: Result<
        (),
        VisitorError,
    >)
        ensures
            final(self).spec_table() == old(self).spec_table(),
            ({
                let len = values@.len();
                let expected = old(self).spec_expected_len();
                let table = old(self).spec_table();
                let resolved = index.spec_resolve(table.spec_names());
                if expected is Some && expected.unwrap().get() != len {
                    &&& r matches Err(VisitorError::LengthMismatch { expected: e, got }) && e
                        == expected.unwrap() && got.get() == len
                    &&& final(self).spec_expected_len() == expected
                    &&& final(self).spec_runs() == old(self).spec_runs()
                    &&& final(self).spec_mismatch()
                } else {
                    &&& final(self).spec_expected_len() matches Some(e) && e.get() == len
                    &&& final(self).spec_mismatch() == old(self).spec_mismatch()
                    &&& match r {
                        Ok(()) => {
                            let runs = final(self).spec_runs();
                            &&& resolved is Some
                            &&& table.spec_columns()[resolved.unwrap()].spec_kind() == V::kind()
                            &&& runs.len() == old(self).spec_runs().len() + 1
                            &&& runs.drop_last() == old(self).spec_runs()
                            &&& runs.last().0 == resolved.unwrap()
                            &&& runs.last().1.kind() == V::kind()
                            &&& runs.last().1.cells() == cells_of(values@)
                        },
                        Err(VisitorError::IndexNotFound(_)) => {
                            &&& resolved is None
                            &&& final(self).spec_runs() == old(self).spec_runs()
                        },
                        Err(VisitorError::InvalidDowncast(_)) => {
                            &&& resolved is Some
                            &&& table.spec_columns()[resolved.unwrap()].spec_kind() != V::kind()
                            &&& final(self).spec_runs() == old(self).spec_runs()
                        },
                        Err(VisitorError::LengthMismatch { .. }) => false,
                    }
                }
            }),
    {
        let len: LogicalSize = LogicalSize::new(values.len() as u64);
        if let Some(expected) = self.expected_len {
            if expected.get() != len.get() {
                self.mismatch = true;
                return Err(VisitorError::LengthMismatch { expected, got: len });
            }
        } else {
            self.expected_len = Some(len);
        }
        let offset = match index.resolve(&self.table) {
            Ok(offset) => offset,
            Err(e) => {
                return Err(VisitorError::IndexNotFound(e));
            },
        };
        let column_count: usize = self.table.columns.len();
        assert(offset.get() < column_count);
        let i = offset.as_usize();
        let column_kind = self.table.columns[i].kind();
        if !(column_kind == V::column_kind()) {
            return Err(VisitorError::InvalidDowncast(InvalidDowncast));
        }
        let run = V::into_run(values);
        let ghost before = self.runs@;
        self.runs.push((i, run));
        proof {
            assert(self.runs@.drop_last() =~= before);
            assert forall|k: int| 0 <= k < self.runs@.len() implies {
                &&& (#[trigger] self.runs@[k]).0 < self.table.spec_columns().len()
                &&& self.runs@[k].1.kind() == self.table.spec_columns()[self.runs@[k].0 as int].spec_kind()
            } by {
                if k < before.len() {
                    assert(self.runs@[k] == before[k]);
                }
            }
        }
        Ok(())
    }
}

/// The visitor behind `Table::bulk_insert`.
pub struct SliceVisitor<T: TableRow> {
    table: Table<T>,
}

impl<T: TableRow> SliceVisitor<T> {
    pub closed spec fn spec_table(&self) -> Table<T> {
        self.table
    }
}

impl<T: TableRow> SliceFieldVisitor for SliceVisitor<T> {
    closed spec fn valid(&self) -> bool {
        self.table.wf()
    }

    closed spec fn spec_names(&self) -> Seq<&'static str> {
        self.table.spec_names()
    }

    closed spec fn grows_from(&self, before: &Self) -> bool {
        self.table.grows_from(&before.table)
    }

    proof fn lemma_grows_reflexive(&self) {
        self.table.lemma_same_grows(&self.table);
    }

    proof fn lemma_grows_transitive(a: &Self, b: &Self, c: &Self) {
        Table::lemma_grows_transitive(&a.table, &b.table, &c.table);
    }

    /// Resolves `index` and writes all of `values` to that column at once.
    fn visit_slice<const N: usize, I: Index, V: Append>(&mut self, index: I, values: &[V; N]) -> (r:
        Result<(), VisitorError>)
        ensures
            final(self).spec_table().write_outcome(
                &old(self).spec_table(),
                index,
                V::kind(),
                cells_of(values@),
                r,
            ),
    {
        let slice: &[V] = values.as_slice();
        self.table.write_column_slice(index, slice)
    }
}

/// Single-row insertion path.
///
/// Implement this to drive each field of a row through a [`FieldVisitor`] one
/// value at a time. What to do with each `visit_field` result is up to the
/// implementor; the table imposes no policy.
pub trait RowInsert: TableRow {
    fn visit_fields<V: FieldVisitor>(self, visitor: &mut V) where Self: Sized
        requires
            old(visitor).valid(),
        ensures
            final(visitor).valid(),
            final(visitor).spec_names() == old(visitor).spec_names(),
            final(visitor).grows_from(&*old(visitor)),
    ;
}

/// Columnar extension of [`TableRow`] for streaming inserts: the implementor
/// calls [`StreamingFieldVisitor::visit_fields`] once per column.
pub trait StreamingTableRow: TableRow {
    fn visit_columns_streaming<V: StreamingFieldVisitor>(self, visitor: &mut V) -> (r: Result<
        (),
        VisitorError,
    >) where Self: Sized
        requires
            old(visitor).valid(),
        ensures
            final(visitor).valid(),
            final(visitor).spec_names() == old(visitor).spec_names(),
            final(visitor).grows_from(&*old(visitor)),
    ;
}

/// Columnar extension of [`TableRow`] for bulk inserts from contiguous memory:
/// the implementor calls [`SliceFieldVisitor::visit_slice`] once per column.
pub trait SliceTableRow: TableRow {
    fn visit_columns_slice<V: SliceFieldVisitor>(&self, visitor: &mut V)
        requires
            old(visitor).valid(),
        ensures
            final(visitor).valid(),
            final(visitor).spec_names() == old(visitor).spec_names(),
            final(visitor).grows_from(&*old(visitor)),
    ;
}

impl<T: TableRow> Table<T> {
    /// Moves the table out of `self`, leaving an empty one behind.
    fn take(&mut self) -> (r: Self)
        ensures
            r == *old(self),
    {
        let mut taken = Table { columns: Vec::new(), names: Vec::new(), _marker: PhantomData };
        std::mem::swap(self, &mut taken);
        taken
    }
}

impl<T: TableRow> Table<T> {
    /// The column that `index` names; `Err` if it names none.
    pub fn column<I: Index>(&self, index: I) -> (r: Result<&Column<FixedVersion>, IndexNotFound>)
        requires
            self.wf(),
        ensures
            match r {
                Ok(column) => {
                    &&& index.spec_resolve(self.spec_names()) is Some
                    &&& *column == self.spec_columns()[index.spec_resolve(self.spec_names()).unwrap()]
                },
                Err(_) => index.spec_resolve(self.spec_names()) is None,
            },
    {
        match index.resolve(self) {
            Ok(offset) => {
                let column_count: usize = self.columns.len();
                assert(offset.get() < column_count);
                let i = offset.as_usize();
                Ok(&self.columns[i])
            },
            Err(e) => Err(e),
        }
    }
}

impl<T: RowInsert> Table<T> {
    /// Inserts one row: the row writes each of its fields through a
    /// single-field visitor over the table, and the table becomes what that
    /// run of the row's `visit_fields` left the visitor holding.
    pub fn insert(&mut self, value: T)
        requires
            old(self).wf(),
        ensures
            final(self).wf(),
            final(self).grows_from(&*old(self)),
            exists|visitor: &mut SingleFieldVisitor<T>|
                {
                    &&& mut_ref_current(visitor).spec_table() == *old(self)
                    &&& #[trigger] call_ensures(
                        T::visit_fields::<SingleFieldVisitor<T>>,
                        (value, visitor),
                        (),
                    )
                    &&& mut_ref_future(visitor).spec_table() == *final(self)
                },
    {
        let mut visitor = SingleFieldVisitor { table: self.take() };
        value.visit_fields(&mut visitor);
        *self = visitor.table;
    }
}

impl<T: TableRow> Table<T> {
    /// `self` is `before` with each column extended by the cells that `runs`
    /// hold for it, in order; the names stay.
    pub open spec fn runs_written(&self, before: &Self, runs: Seq<(usize, Run)>) -> bool {
        &&& self.spec_names() == before.spec_names()
        &&& self.spec_columns().len() == before.spec_columns().len()
        &&& forall|j: int|
            0 <= j < self.spec_columns().len() ==> (#[trigger] self.spec_columns()[j]).extends(
                &before.spec_columns()[j],
                held_cells(runs, j),
            )
    }

    /// Writes each run to its column, in order.
    fn write_runs(&mut self, runs: Vec<(usize, Run)>)
        requires
            old(self).wf(),
            runs_typed(*old(self), runs@),
        ensures
            final(self).wf(),
            final(self).runs_written(&*old(self), runs@),
    {
        let ghost before = *self;
        let ghost all = runs@;
        proof {
            assert forall|j: int| 0 <= j < self.columns@.len() implies (
            #[trigger] self.columns@[j]).extends(&before.columns@[j], held_cells(all.take(0), j)) by {
                assert(all.take(0) =~= Seq::<(usize, Run)>::empty());
                self.columns@[j].lemma_extends_empty();
            }
        }
        let ghost mut done: int = 0;
        for run in it: runs.into_iter()
            invariant
                all == it.seq(),
                done == it.index(),
                0 <= done <= all.len(),
                self.wf(),
                self.names@ == before.names@,
                self.columns@.len() == before.columns@.len(),
                runs_typed(before, all),
                forall|j: int|
                    0 <= j < self.columns@.len() ==> (#[trigger] self.columns@[j]).extends(
                        &before.columns@[j],
                        held_cells(all.take(done as int), j),
                    ),
        {
            let ghost current = *self;
            let (i, values) = run;
            proof {
                assert(all[done as int] == (i, values));
                assert(all.take(done as int + 1).drop_last() =~= all.take(done as int));
                assert(all.take(done as int + 1).last() == (i, values));
            }
            let column_count: usize = self.columns.len();
            assert(i < column_count);
            let result = self.columns[i].write_run(values);
            proof {
                assert(current.columns@[i as int].spec_kind() == before.columns@[i as int].spec_kind());
                assert(result is Ok);
                assert forall|j: int| 0 <= j < self.columns@.len() implies (
                #[trigger] self.columns@[j]).extends(
                    &before.columns@[j],
                    held_cells(all.take(done as int + 1), j),
                ) by {
                    if j == i {
                        Column::lemma_extends_compose(
                            &before.columns@[j],
                            &current.columns@[j],
                            &self.columns@[j],
                            held_cells(all.take(done as int), j),
                            values.cells(),
                        );
                    } else {
                        assert(self.columns@[j] == current.columns@[j]);
                        assert(held_cells(all.take(done as int + 1), j) =~= held_cells(
                            all.take(done as int),
                            j,
                        ));
                    }
                }
                assert forall|j: int| 0 <= j < self.columns@.len() implies (
                #[trigger] self.columns@[j]).wf() by {
                    if j != i {
                        assert(self.columns@[j] == current.columns@[j]);
                    }
                }
                assert forall|j: int| 0 <= j < self.columns@.len() implies all_chunks_versioned(
                    #[trigger] self.columns@[j],
                    VersionID::spec_new(0),
                ) by {
                    if j != i {
                        assert(self.columns@[j] == current.columns@[j]);
                    } else {
                        lemma_fixed_extends(
                            current.columns@[j],
                            self.columns@[j],
                            values.cells(),
                            VersionID::spec_new(0),
                        );
                    }
                }
            }
            proof {
                done = done + 1;
            }
        }
        proof {
            assert(all.take(done as int) =~= all);
        }
    }
}

impl<T: TableRow> Table<T> {
    /// Inserts the columns of `source`, each given as one run of values.
    ///
    /// The runs are held while `source` visits its columns and written
    /// together at the end, unless a column was refused for its length or
    /// `source` returned `LengthMismatch`: then nothing is written. The result
    /// is what `source` returned.
    pub fn streaming_insert<S: StreamingTableRow<Schema = T::Schema>>(&mut self, source: S) -> (r:
        Result<(), VisitorError>)
        requires
            old(self).wf(),
        ensures
            final(self).wf(),
            final(self).grows_from(&*old(self)),
            r matches Err(VisitorError::LengthMismatch { .. }) ==> *final(self) == *old(self),
            exists|visitor: &mut StreamingVisitor<T>|
                {
                    &&& mut_ref_current(visitor).spec_table() == *old(self)
                    &&& mut_ref_current(visitor).spec_expected_len() is None
                    &&& mut_ref_current(visitor).spec_runs().len() == 0
                    &&& !mut_ref_current(visitor).spec_mismatch()
                    &&& #[trigger] call_ensures(
                        S::visit_columns_streaming::<StreamingVisitor<T>>,
                        (source, visitor),
                        r,
                    )
                    &&& mut_ref_future(visitor).spec_table() == *old(self)
                    &&& if mut_ref_future(visitor).spec_mismatch() || r matches Err(
                        VisitorError::LengthMismatch { .. },
                    ) {
                        *final(self) == *old(self)
                    } else {
                        final(self).runs_written(&*old(self), mut_ref_future(visitor).spec_runs())
                    }
                },
    {
        let ghost before = *self;
        let mut visitor: StreamingVisitor<T> = StreamingVisitor {
            table: self.take(),
            expected_len: None,
            runs: Vec::new(),
            mismatch: false,
        };
        proof {
            assert(visitor.runs@ =~= Seq::<(usize, Run)>::empty());
        }
        let r = source.visit_columns_streaming(&mut visitor);
        let StreamingVisitor { table, expected_len: _, runs, mismatch } = visitor;
        *self = table;
        let refused = match &r {
            Err(VisitorError::LengthMismatch { .. }) => true,
            _ => mismatch,
        };
        if refused {
            proof {
                self.lemma_same_grows(self);
            }
        } else {
            self.write_runs(runs);
            proof {
                assert forall|j: int| 0 <= j < self.spec_columns().len() implies (
                #[trigger] self.spec_columns()[j]).grows_from(&before.spec_columns()[j]) by {
                    self.spec_columns()[j].lemma_extends_grows(
                        &before.spec_columns()[j],
                        held_cells(runs@, j),
                    );
                }
            }
        }
        r
    }

    /// Inserts the columns of `source`, each written from one contiguous slice:
    /// the table becomes what that run of `visit_columns_slice` left the slice
    /// visitor holding.
    pub fn bulk_insert<S: SliceTableRow<Schema = T::Schema>>(&mut self, source: &S)
        requires
            old(self).wf(),
        ensures
            final(self).wf(),
            final(self).grows_from(&*old(self)),
            exists|visitor: &mut SliceVisitor<T>|
                {
                    &&& mut_ref_current(visitor).spec_table() == *old(self)
                    &&& #[trigger] call_ensures(
                        S::visit_columns_slice::<SliceVisitor<T>>,
                        (source, visitor),
                        (),
                    )
                    &&& mut_ref_future(visitor).spec_table() == *final(self)
                },
    {
        let mut visitor: SliceVisitor<T> = SliceVisitor { table: self.take() };
        source.visit_columns_slice(&mut visitor);
        *self = visitor.table;
    }
}

/// Builds a [`Table`] whose schema is checked when the program is compiled.
///
/// Each call to [`add`](TableBuilder::add) extends the builder's type parameter,
/// prepending the new column type onto a type-level list. `finish` only
/// compiles when the accumulated schema is exactly the target row type's
/// `Schema`.
pub struct TableBuilder<Schema> {
    columns: Vec<Column<FixedVersion>>,
    names: Vec<&'static str>,
    _schema: PhantomData<Schema>,
}

/// A column as a table starts it for values of kind `kind`: empty, with its
/// one chunk at version 0.
pub open spec fn fresh_column(column: Column<FixedVersion>, kind: ColumnKind) -> bool {
    &&& column.wf()
    &&& column.spec_kind() == kind
    &&& column.spec_cells() == Seq::<Option<int>>::empty()
    &&& column.spec_frozen_count() == 0
    &&& column.chunk_ids() == seq![VersionID::spec_new(0)]
}

impl<Schema> TableBuilder<Schema> {
    /// The names of the columns added so far, in order.
    pub closed spec fn spec_names(&self) -> Seq<&'static str> {
        self.names@
    }

    /// The columns added so far, in order.
    pub closed spec fn spec_columns(&self) -> Seq<Column<FixedVersion>> {
        self.columns@
    }

    pub closed spec fn wf(&self) -> bool {
        &&& self.names@.len() == self.columns@.len()
        &&& names_distinct(self.names@)
        &&& forall|i: int| 0 <= i < self.columns@.len() ==> (#[trigger] self.columns@[i]).wf()
        &&& forall|i: int|
            0 <= i < self.columns@.len() ==> all_chunks_versioned(
                #[trigger] self.columns@[i],
                VersionID::spec_new(0),
            )
    }
}

impl<Schema> TableBuilder<Schema> {
    /// What a well-formed builder holds: one column per name, no name twice,
    /// and every column well formed, with every chunk at version 0.
    pub proof fn lemma_wf(&self)
        requires
            self.wf(),
        ensures
            self.spec_names().len() == self.spec_columns().len(),
            names_distinct(self.spec_names()),
            forall|i: int| 0 <= i < self.spec_columns().len() ==> (#[trigger] self.spec_columns()[i]).wf(),
            forall|i: int|
                0 <= i < self.spec_columns().len() ==> all_chunks_versioned(
                    #[trigger] self.spec_columns()[i],
                    VersionID::spec_new(0),
                ),
    {
    }
}

impl Default for TableBuilder<Empty> {
    /// A builder with no columns.
    fn default() -> (r: Self)
        ensures
            r.wf(),
            r.spec_names() == Seq::<&'static str>::empty(),
    {
        TableBuilder { columns: Vec::new(), names: Vec::new(), _schema: PhantomData }
    }
}

impl<Schema: SchemaList> TableBuilder<Schema> {
    /// Adds an empty column named `id` for values of type `V`; `Err` if a
    /// column of that name was already added.
    pub fn add<V: AppendableType>(self, id: &'static str) -> (r: Result<
        TableBuilder<Node<V, Schema>>,
        DuplicateField,
    >)
        requires
            self.wf(),
        ensures
            match r {
                Ok(b) => {
                    &&& name_position(self.spec_names(), id@) is None
                    &&& b.wf()
                    &&& b.spec_names() == self.spec_names().push(id)
                    &&& b.spec_columns().len() == self.spec_columns().len() + 1
                    &&& b.spec_columns().drop_last() == self.spec_columns()
                    &&& fresh_column(b.spec_columns().last(), V::kind())
                },
                Err(_) => name_position(self.spec_names(), id@) is Some,
            },
    {
        if find_name(&self.names, id).is_some() {
            return Err(DuplicateField);
        }
        let mut columns = self.columns;
        let mut names = self.names;
        names.push(id);
        let column = Column::new(FixedVersion { version: VersionID::new(0) }, V::builder());
        columns.push(column);
        let b = TableBuilder { columns, names, _schema: PhantomData };
        proof {
            assert(columns@.drop_last() =~= self.columns@);
            assert forall|i: int, j: int| 0 <= i < j < names@.len() implies names@[i]@
                != names@[j]@ by {
                if j == names@.len() - 1 {
                    assert(self.names@[i] == names@[i]);
                }
            }
            assert forall|i: int| 0 <= i < columns@.len() implies (#[trigger] columns@[i]).wf() by {
                if i < self.columns@.len() {
                    assert(columns@[i] == self.columns@[i]);
                }
            }
        }
        Ok(b)
    }

    /// The table of the columns added so far, for rows of type `T`, whose
    /// schema must be the one built.
    pub fn finish<T: TableRow<Schema = Schema>>(self) -> (r: Table<T>)
        requires
            self.wf(),
        ensures
            r.wf(),
            r.spec_names() == self.spec_names(),
            r.spec_columns() == self.spec_columns(),
    {
        Table { columns: self.columns, names: self.names, _marker: PhantomData }
    }
}

} // verus!
