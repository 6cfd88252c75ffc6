//! Columnar tables: named, homogeneously typed columns of equal length.

use crate::seqs::{lemma_position_of, position_of};
use crate::text::texts;
use vstd::prelude::*;

verus! {

/// The type of the values that a column holds.
#[derive(Clone, Copy, Debug, PartialEq, Eq, Structural)]
pub enum DataType {
    /// Signed 64-bit integers.
    Int,
    /// Unsigned 64-bit integers.
    UInt,
    /// IEEE-754 binary64 numbers, held by their bit patterns.
    Number,
    /// Instants, held as a signed 64-bit count of time units since the epoch.
    Date,
    /// Booleans.
    Flag,
}

/// One value of a table. `Null` stands for an absent value in a column of any type.
#[derive(Clone, Copy, Debug, PartialEq, Eq, Structural)]
pub enum Cell {
    Null,
    Int(i64),
    UInt(u64),
    /// The bit pattern of an IEEE-754 binary64 number.
    Number(u64),
    Date(i64),
    Flag(bool),
}

/// Whether `cell` may stand in a column of type `dtype`.
pub open spec fn cell_fits(cell: Cell, dtype: DataType) -> bool {
    match cell {
        Cell::Null => true,
        Cell::Int(_) => dtype == DataType::Int,
        Cell::UInt(_) => dtype == DataType::UInt,
        Cell::Number(_) => dtype == DataType::Number,
        Cell::Date(_) => dtype == DataType::Date,
        Cell::Flag(_) => dtype == DataType::Flag,
    }
}

/// Whether every cell of `cells` may stand in a column of type `dtype`.
pub open spec fn cells_fit(cells: Seq<Cell>, dtype: DataType) -> bool {
    forall|i: int| 0 <= i < cells.len() ==> cell_fits(#[trigger] cells[i], dtype)
}

impl Cell {
    /// Whether this cell may stand in a column of type `dtype`.
    pub fn fits(&self, dtype: DataType) -> (r: bool)
        ensures
            r == cell_fits(*self, dtype),
    {
        match self {
            Cell::Null => true,
            Cell::Int(_) => matches!(dtype, DataType::Int),
            Cell::UInt(_) => matches!(dtype, DataType::UInt),
            Cell::Number(_) => matches!(dtype, DataType::Number),
            Cell::Date(_) => matches!(dtype, DataType::Date),
            Cell::Flag(_) => matches!(dtype, DataType::Flag),
        }
    }

    /// Whether this cell is `Null`.
    pub fn is_null(&self) -> (r: bool)
        ensures
            r == (*self == Cell::Null),
    {
        matches!(self, Cell::Null)
    }
}

/// The mathematical content of a column.
pub struct ColumnView {
    pub name: Seq<char>,
    pub dtype: DataType,
    pub cells: Seq<Cell>,
}

/// A named sequence of cells of one type.
#[derive(Debug, PartialEq, Eq)]
pub struct Column {
    name: String,
    dtype: DataType,
    cells: Vec<Cell>,
}

impl View for Column {
    type V = ColumnView;

    closed spec fn view(&self) -> ColumnView {
        ColumnView { name: self.name@, dtype: self.dtype, cells: self.cells@ }
    }
}

/// Whether a column's cells all belong to its type.
pub open spec fn column_wf(c: ColumnView) -> bool {
    cells_fit(c.cells, c.dtype)
}

impl Column {
    #[verifier::type_invariant]
    closed spec fn inv(&self) -> bool {
        column_wf(self@)
    }

    /// Makes a column, if every cell belongs to `dtype`.
    pub fn new(name: String, dtype: DataType, cells: Vec<Cell>) -> (r: Option<Column>)
        ensures
            r is Some <==> cells_fit(cells@, dtype),
            r matches Some(c) ==> c@ == (ColumnView { name: name@, dtype, cells: cells@ }),
    {
        let mut i: usize = 0;
        while i < cells.len()
            invariant
                i <= cells.len(),
                forall|j: int| 0 <= j < i ==> cell_fits(#[trigger] cells@[j], dtype),
            decreases cells.len() - i,
        {
            if !cells[i].fits(dtype) {
                return None;
            }
            i += 1;
        }
        Some(Column { name, dtype, cells })
    }

    /// Makes a column from cells known to belong to `dtype`.
    pub(crate) fn from_parts(name: String, dtype: DataType, cells: Vec<Cell>) -> (c: Column)
        requires
            cells_fit(cells@, dtype),
        ensures
            c@ == (ColumnView { name: name@, dtype, cells: cells@ }),
    {
        Column { name, dtype, cells }
    }

    /// The column's name.
    pub fn name(&self) -> (r: &String)
        ensures
            r@ == self@.name,
    {
        &self.name
    }

    /// The type of the column's cells.
    pub fn dtype(&self) -> (r: DataType)
        ensures
            r == self@.dtype,
    {
        self.dtype
    }

    /// The number of cells.
    pub fn len(&self) -> (r: usize)
        ensures
            r == self@.cells.len(),
            column_wf(self@),
    {
        proof {
            use_type_invariant(self);
        }
        self.cells.len()
    }

    /// The cell at `row`, or `None` past the end.
    pub fn get(&self, row: usize) -> (r: Option<Cell>)
        ensures
            r == (if row < self@.cells.len() {
                Some(self@.cells[row as int])
            } else {
                None
            }),
    {
        if row < self.cells.len() {
            Some(self.cells[row])
        } else {
            None
        }
    }

    /// A copy of this column under another name.
    pub fn with_name(&self, name: String) -> (c: Column)
        ensures
            c@ == (ColumnView { name: name@, dtype: self@.dtype, cells: self@.cells }),
    {
        let copy = self.clone();
        proof {
            use_type_invariant(&copy);
        }
        Column { name, dtype: copy.dtype, cells: copy.cells }
    }

    /// The cell at `row`.
    pub(crate) fn cell(&self, row: usize) -> (r: Cell)
        requires
            row < self@.cells.len(),
        ensures
            r == self@.cells[row as int],
            cell_fits(r, self@.dtype),
    {
        proof {
            use_type_invariant(self);
        }
        self.cells[row]
    }
}

impl Clone for Column {
    fn clone(&self) -> (r: Column)
        ensures
            r@ == self@,
    {
        proof {
            use_type_invariant(self);
        }
        let mut cells: Vec<Cell> = Vec::new();
        let mut i: usize = 0;
        while i < self.cells.len()
            invariant
                i <= self.cells.len(),
                cells@ == self.cells@.take(i as int),
            decreases self.cells.len() - i,
        {
            cells.push(self.cells[i]);
            i += 1;
        }
        assert(cells@ == self.cells@);
        Column { name: self.name.clone(), dtype: self.dtype, cells }
    }
}

/// The mathematical content of a table: its columns, in order.
pub type TableView = Seq<ColumnView>;

/// The names of a table's columns, in order.
pub open spec fn table_names(t: TableView) -> Seq<Seq<char>> {
    t.map_values(|c: ColumnView| c.name)
}

/// The number of rows of a table: the length of its columns, or 0 where it has none.
pub open spec fn table_height(t: TableView) -> nat {
    if t.len() == 0 {
        0
    } else {
        t[0].cells.len()
    }
}

/// Whether all columns of `t` have the same length.
pub open spec fn equal_lengths(t: TableView) -> bool {
    forall|i: int| 0 <= i < t.len() ==> (#[trigger] t[i]).cells.len() == table_height(t)
}

/// Whether no two entries of `names` are equal.
pub open spec fn distinct_names(names: Seq<Seq<char>>) -> bool {
    forall|i: int, j: int| 0 <= i < j < names.len() ==> names[i] != names[j]
}

/// Whether `t` is a table: typed columns of one length under distinct names.
pub open spec fn table_wf(t: TableView) -> bool {
    &&& forall|i: int| 0 <= i < t.len() ==> column_wf(#[trigger] t[i])
    &&& equal_lengths(t)
    &&& distinct_names(table_names(t))
}

/// Why a list of columns is no table.
#[derive(Clone, Copy, Debug, PartialEq, Eq, Structural)]
pub enum TableError {
    /// Two columns differ in length.
    LengthMismatch,
    /// Two columns share a name.
    DuplicateName,
}

/// An immutable table: columns of equal length under distinct names. Row `i` of the table is
/// made of the cells at position `i` of each column.
#[derive(Debug, PartialEq, Eq)]
pub struct Table {
    columns: Vec<Column>,
}

/// The views of the columns of `columns`, in order.
pub open spec fn columns_view(columns: Seq<Column>) -> TableView {
    columns.map_values(|c: Column| c@)
}

impl View for Table {
    type V = TableView;

    closed spec fn view(&self) -> TableView {
        columns_view(self.columns@)
    }
}

/// Whether `name` occurs among the names of the first `n` columns.
fn name_taken(columns: &Vec<Column>, n: usize, name: &String) -> (r: bool)
    requires
        n <= columns.len(),
    ensures
        r == exists|j: int| 0 <= j < n && (#[trigger] columns@[j])@.name == name@,
{
    let mut j: usize = 0;
    while j < n
        invariant
            j <= n <= columns.len(),
            forall|k: int| 0 <= k < j ==> (#[trigger] columns@[k])@.name != name@,
        decreases n - j,
    {
        if *columns[j].name() == *name {
            return true;
        }
        j += 1;
    }
    false
}

impl Table {
    #[verifier::type_invariant]
    closed spec fn inv(&self) -> bool {
        table_wf(self@)
    }

    /// Makes a table of `columns`. Fails where two columns differ in length, else where two
    /// columns share a name.
    pub fn new(columns: Vec<Column>) -> (r: Result<Table, TableError>)
        ensures
            match r {
                Ok(t) => t@ == columns_view(columns@) && table_wf(t@),
                Err(TableError::LengthMismatch) => !equal_lengths(columns_view(columns@)),
                Err(TableError::DuplicateName) => equal_lengths(columns_view(columns@))
                    && !distinct_names(table_names(columns_view(columns@))),
            },
    {
        let ghost view = columns_view(columns@);
        let mut i: usize = 0;
        while i < columns.len()
            invariant
                i <= columns.len(),
                view == columns_view(columns@),
                forall|k: int|
                    0 <= k < i ==> (#[trigger] view[k]).cells.len() == table_height(view),
                forall|k: int| 0 <= k < i ==> column_wf(#[trigger] view[k]),
            decreases columns.len() - i,
        {
            let len = columns[i].len();
            if len != columns[0].len() {
                assert(view[i as int].cells.len() != table_height(view));
                return Err(TableError::LengthMismatch);
            }
            i += 1;
        }
        let mut i: usize = 0;
        while i < columns.len()
            invariant
                i <= columns.len(),
                view == columns_view(columns@),
                equal_lengths(view),
                forall|k: int| 0 <= k < view.len() ==> column_wf(#[trigger] view[k]),
                forall|a: int, b: int|
                    0 <= a < b < i ==> (#[trigger] view[a]).name != (#[trigger] view[b]).name,
            decreases columns.len() - i,
        {
            if name_taken(&columns, i, columns[i].name()) {
                proof {
                    let j = choose|j: int|
                        0 <= j < i && (#[trigger] columns@[j])@.name == columns@[i as int]@.name;
                    let names = table_names(view);
                    assert(names[j] == names[i as int]);
                }
                return Err(TableError::DuplicateName);
            }
            i += 1;
        }
        Ok(Table { columns })
    }

    /// Makes a table of columns known to form one.
    pub(crate) fn from_parts(columns: Vec<Column>) -> (t: Table)
        requires
            table_wf(columns_view(columns@)),
        ensures
            t@ == columns_view(columns@),
    {
        Table { columns }
    }

    /// The number of columns.
    pub fn width(&self) -> (r: usize)
        ensures
            r == self@.len(),
            table_wf(self@),
    {
        proof {
            use_type_invariant(self);
        }
        self.columns.len()
    }

    /// The number of rows.
    pub fn height(&self) -> (r: usize)
        ensures
            r == table_height(self@),
            table_wf(self@),
    {
        proof {
            use_type_invariant(self);
        }
        if self.columns.len() == 0 {
            0
        } else {
            self.columns[0].len()
        }
    }

    /// The column at `index`, or `None` past the last.
    pub fn get(&self, index: usize) -> (r: Option<&Column>)
        ensures
            match r {
                Some(c) => index < self@.len() && c@ == self@[index as int],
                None => index >= self@.len(),
            },
    {
        if index < self.columns.len() {
            Some(&self.columns[index])
        } else {
            None
        }
    }

    /// The column at `index`.
    pub(crate) fn column(&self, index: usize) -> (c: &Column)
        requires
            index < self@.len(),
        ensures
            c@ == self@[index as int],
            column_wf(c@),
            c@.cells.len() == table_height(self@),
    {
        proof {
            use_type_invariant(self);
        }
        &self.columns[index]
    }

    /// The position of the column called `name`, or `None` where the table has none.
    pub fn find(&self, name: &str) -> (r: Option<usize>)
        ensures
            match r {
                Some(i) => i < self@.len() && self@[i as int].name == name@ && position_of(
                    table_names(self@),
                    name@,
                ) == Some(i as int),
                None => position_of(table_names(self@), name@) is None,
            },
    {
        let wanted = name.to_owned();
        let ghost names = table_names(self@);
        let mut i: usize = 0;
        while i < self.columns.len()
            invariant
                i <= self.columns.len(),
                wanted@ == name@,
                names == table_names(self@),
                forall|j: int| 0 <= j < i ==> names[j] != name@,
            decreases self.columns.len() - i,
        {
            if *self.columns[i].name() == wanted {
                proof {
                    assert(names[i as int] == name@);
                    lemma_position_of(names, name@);
                }
                return Some(i);
            }
            assert(names[i as int] != name@);
            i += 1;
        }
        proof {
            lemma_position_of(names, name@);
        }
        None
    }

    /// The names of the columns, in order.
    pub fn column_names(&self) -> (r: Vec<String>)
        ensures
            texts(r@) == table_names(self@),
    {
        let mut names: Vec<String> = Vec::new();
        let mut i: usize = 0;
        while i < self.columns.len()
            invariant
                i <= self.columns.len(),
                texts(names@) == table_names(self@).take(i as int),
            decreases self.columns.len() - i,
        {
            let ghost before = names@;
            names.push(self.columns[i].name().clone());
            assert(texts(names@) =~= texts(before).push(self@[i as int].name));
            assert(table_names(self@).take(i + 1) =~= table_names(self@).take(i as int).push(
                self@[i as int].name,
            ));
            i += 1;
        }
        assert(texts(names@) == table_names(self@));
        names
    }
}

impl Clone for Table {
    fn clone(&self) -> (r: Table)
        ensures
            r@ == self@,
    {
        proof {
            use_type_invariant(self);
        }
        let mut columns: Vec<Column> = Vec::new();
        let mut i: usize = 0;
        while i < self.columns.len()
            invariant
                i <= self.columns.len(),
                columns_view(columns@) == self@.take(i as int),
            decreases self.columns.len() - i,
        {
            let ghost before = columns@;
            columns.push(self.columns[i].clone());
            assert(columns_view(columns@) =~= columns_view(before).push(self@[i as int]));
            assert(self@.take(i + 1) =~= self@.take(i as int).push(self@[i as int]));
            i += 1;
        }
        assert(columns_view(columns@) == self@);
        Table { columns }
    }
}

/// The views of `tables`, in order.
pub open spec fn tables_view(tables: Seq<Table>) -> Seq<TableView> {
    tables.map_values(|t: Table| t@)
}

} // verus!
