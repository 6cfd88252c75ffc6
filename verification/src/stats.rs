//! Missing values: where a table holds not-a-number in place of an observation.

use crate::join::{lemma_relabelled_wf, prefixed, relabelled};
use crate::table::{
    cells_fit, column_wf, columns_view, table_height, table_names, table_wf, Cell, Column,
    ColumnView, DataType, Table, TableView,
};
use vstd::prelude::*;

verus! {

/// Whether `bits` is the bit pattern of a not-a-number of IEEE-754 binary64: all exponent
/// bits set and a fraction that is not zero, under either sign.
pub open spec fn is_nan_bits(bits: u64) -> bool {
    (bits & 0x7fff_ffff_ffff_ffffu64) > 0x7ff0_0000_0000_0000u64
}

/// Whether `cell` holds a missing value: a number that is not-a-number. Cells of other types,
/// and null cells, hold none.
pub open spec fn is_missing(cell: Cell) -> bool {
    match cell {
        Cell::Number(bits) => is_nan_bits(bits),
        _ => false,
    }
}

/// One flag for each of `cells`: set where the cell holds a missing value.
pub open spec fn mask_cells(cells: Seq<Cell>) -> Seq<Cell> {
    cells.map_values(|c: Cell| Cell::Flag(is_missing(c)))
}

/// The mask of a column: a column of flags under the same name.
pub open spec fn mask_column(c: ColumnView) -> ColumnView {
    ColumnView { name: c.name, dtype: DataType::Flag, cells: mask_cells(c.cells) }
}

/// The mask of a table: the mask of each column, in order.
pub open spec fn mask_table(t: TableView) -> TableView {
    t.map_values(|c: ColumnView| mask_column(c))
}

/// The number that a flag counts for: 1 where it is set, else 0.
pub open spec fn flag_value(cell: Cell) -> nat {
    if cell == Cell::Flag(true) {
        1
    } else {
        0
    }
}

/// The sum of the flags of `cells`, each taken as a number.
pub open spec fn flag_sum(cells: Seq<Cell>) -> nat
    decreases cells.len(),
{
    if cells.len() == 0 {
        0
    } else {
        flag_sum(cells.drop_last()) + flag_value(cells.last())
    }
}

/// The number of cells of `cells` that hold a missing value.
pub open spec fn missing_total(cells: Seq<Cell>) -> nat {
    cells.filter(|c: Cell| is_missing(c)).len()
}

/// The name of the column that holds the count of the column called `name`.
pub open spec fn count_name(name: Seq<char>) -> Seq<char> {
    prefixed("Missing count"@, name)
}

/// The column that holds the count of the missing values of `c`, as its single cell.
pub open spec fn count_column(c: ColumnView) -> ColumnView {
    ColumnView {
        name: count_name(c.name),
        dtype: DataType::UInt,
        cells: seq![Cell::UInt(missing_total(c.cells) as u64)],
    }
}

/// The counts of a table: the count column of each column, in order.
pub open spec fn count_table(t: TableView) -> TableView {
    t.map_values(|c: ColumnView| count_column(c))
}

/// A part of a whole, as two integers: the value `numerator / denominator`.
#[derive(Clone, Copy, Debug, PartialEq, Eq, Structural)]
pub struct Fraction {
    /// The size of the part.
    pub numerator: u64,
    /// The size of the whole.
    pub denominator: u64,
}

/// The number of missing values of a column is the sum of its mask, and no more than its
/// length.
pub proof fn lemma_count_is_mask_sum(cells: Seq<Cell>)
    ensures
        missing_total(cells) == flag_sum(mask_cells(cells)),
        missing_total(cells) <= cells.len(),
    decreases cells.len(),
{
    reveal(Seq::filter);
    if cells.len() > 0 {
        lemma_count_is_mask_sum(cells.drop_last());
        assert(mask_cells(cells).drop_last() =~= mask_cells(cells.drop_last()));
        assert(mask_cells(cells).last() == Cell::Flag(is_missing(cells.last())));
    }
}

/// Whether `cell` holds a missing value.
pub fn cell_is_missing(cell: Cell) -> (r: bool)
    ensures
        r == is_missing(cell),
{
    match cell {
        Cell::Number(bits) => (bits & 0x7fff_ffff_ffff_ffffu64) > 0x7ff0_0000_0000_0000u64,
        _ => false,
    }
}

/// The mask of `column`: one flag for each row, set where the row holds a missing value.
pub fn missing_values_column(column: &Column) -> (mask: Column)
    ensures
        mask@ == mask_column(column@),
{
    let n = column.len();
    let mut flags: Vec<Cell> = Vec::new();
    let mut i: usize = 0;
    while i < n
        invariant
            i <= n,
            n == column@.cells.len(),
            flags@ == mask_cells(column@.cells.take(i as int)),
            cells_fit(flags@, DataType::Flag),
        decreases n - i,
    {
        flags.push(Cell::Flag(cell_is_missing(column.cell(i))));
        assert(column@.cells.take(i + 1) =~= column@.cells.take(i as int).push(
            column@.cells[i as int],
        ));
        assert(flags@ =~= mask_cells(column@.cells.take(i + 1)));
        i += 1;
    }
    assert(column@.cells.take(n as int) =~= column@.cells);
    Column::from_parts(column.name().clone(), DataType::Flag, flags)
}

/// The sum of a column of flags, each set flag counting for 1.
pub fn sum_flags(mask: &Column) -> (total: u64)
    ensures
        total == flag_sum(mask@.cells),
{
    let n = mask.len();
    let mut total: u64 = 0;
    let mut i: usize = 0;
    while i < n
        invariant
            i <= n,
            n == mask@.cells.len(),
            total == flag_sum(mask@.cells.take(i as int)),
            total <= i,
        decreases n - i,
    {
        assert(mask@.cells.take(i + 1).drop_last() =~= mask@.cells.take(i as int));
        assert(mask@.cells.take(i + 1).last() == mask@.cells[i as int]);
        if mask.cell(i) == Cell::Flag(true) {
            total += 1;
        }
        i += 1;
    }
    assert(mask@.cells.take(n as int) =~= mask@.cells);
    total
}

/// The number of missing values of `column`: the sum of its mask.
pub fn missing_count(column: &Column) -> (count: u64)
    ensures
        count == missing_total(column@.cells),
        count == flag_sum(mask_column(column@).cells),
        count <= column@.cells.len(),
{
    proof {
        lemma_count_is_mask_sum(column@.cells);
    }
    let mask = missing_values_column(column);
    sum_flags(&mask)
}

/// The count of the missing values of `column`, as a column of one cell called
/// `Missing count ` and the column's name.
pub fn missing_count_as_series(column: &Column) -> (counted: Column)
    ensures
        counted@ == count_column(column@),
{
    let count = missing_count(column);
    let name = "Missing count".to_owned().concat(" ").concat(column.name().as_str());
    let mut cells: Vec<Cell> = Vec::new();
    cells.push(Cell::UInt(count));
    assert(cells@ =~= seq![Cell::UInt(count)]);
    Column::from_parts(name, DataType::UInt, cells)
}

/// The share of `cells` that hold a missing value: their number over the number of the cells.
/// Of no cells the share is 0, written 0 over 1.
pub open spec fn share_of(cells: Seq<Cell>) -> Fraction {
    Fraction {
        numerator: missing_total(cells) as u64,
        denominator: if cells.len() == 0 {
            1
        } else {
            cells.len() as u64
        },
    }
}

/// The share of the rows of `column` that hold a missing value: their number over the number
/// of rows. A column without rows has the share 0, written 0 over 1.
pub fn missing_percentage(column: &Column) -> (share: Fraction)
    ensures
        share == share_of(column@.cells),
        share.numerator == missing_total(column@.cells),
        share.denominator == if column@.cells.len() == 0 {
            1
        } else {
            column@.cells.len()
        },
        share.numerator <= share.denominator,
{
    let count = missing_count(column);
    let total = column.len();
    if total == 0 {
        Fraction { numerator: 0, denominator: 1 }
    } else {
        Fraction { numerator: count, denominator: total as u64 }
    }
}

/// The shares of the columns of `t`, in order.
pub open spec fn table_shares(t: TableView) -> Seq<Fraction> {
    t.map_values(|c: ColumnView| share_of(c.cells))
}

/// The shares of the missing values of `df`: for each column, in order, the share of its rows
/// that hold a missing value.
pub fn missing_values_percentage(df: &Table) -> (shares: Vec<Fraction>)
    ensures
        shares@ == table_shares(df@),
{
    let mut shares: Vec<Fraction> = Vec::new();
    let mut k: usize = 0;
    while k < df.width()
        invariant
            k <= df@.len(),
            shares@ == table_shares(df@).take(k as int),
        decreases df@.len() - k,
    {
        shares.push(missing_percentage(df.column(k)));
        assert(table_shares(df@).take(k + 1) =~= table_shares(df@).take(k as int).push(
            share_of(df@[k as int].cells),
        ));
        k += 1;
    }
    assert(table_shares(df@).take(df@.len() as int) =~= table_shares(df@));
    shares
}

/// The mask of a table is a table, as tall as the table itself.
pub proof fn lemma_mask_table_wf(t: TableView)
    requires
        table_wf(t),
    ensures
        table_wf(mask_table(t)),
        table_height(mask_table(t)) == table_height(t),
        table_names(mask_table(t)) == table_names(t),
{
    let out = mask_table(t);
    assert(table_names(out) =~= table_names(t));
    assert forall|i: int| 0 <= i < out.len() implies column_wf(#[trigger] out[i])
        && out[i].cells.len() == table_height(out) by {
        assert(t[i].cells.len() == table_height(t));
    }
}

/// The mask of `df`: the mask of each column, under the same names and in the same order.
pub fn missing_values_df(df: &Table) -> (masks: Table)
    ensures
        masks@ == mask_table(df@),
{
    let ghost want = mask_table(df@);
    let mut columns: Vec<Column> = Vec::new();
    let mut k: usize = 0;
    while k < df.width()
        invariant
            k <= df@.len(),
            want == mask_table(df@),
            columns_view(columns@) == want.take(k as int),
        decreases df@.len() - k,
    {
        let ghost before = columns@;
        columns.push(missing_values_column(df.column(k)));
        assert(columns_view(columns@) =~= columns_view(before).push(want[k as int]));
        assert(want.take(k + 1) =~= want.take(k as int).push(want[k as int]));
        k += 1;
    }
    proof {
        assert(want.take(df@.len() as int) =~= want);
        lemma_mask_table_wf(df@);
    }
    Table::from_parts(columns)
}

/// The counts of a table are a table of one row, or of none where the table has no column.
pub proof fn lemma_count_table_wf(t: TableView)
    requires
        table_wf(t),
    ensures
        table_wf(count_table(t)),
        table_height(count_table(t)) == if t.len() == 0 { 0nat } else { 1nat },
{
    let out = count_table(t);
    let renamed = relabelled(t, "Missing count"@);
    lemma_relabelled_wf(t, "Missing count"@);
    assert(table_names(out) =~= table_names(renamed));
    assert forall|i: int| 0 <= i < out.len() implies column_wf(#[trigger] out[i])
        && out[i].cells.len() == table_height(out) by {
        assert(out[i] == count_column(t[i]));
        assert(out[0] == count_column(t[0]));
    }
}

/// The counts of `df`: for each column, in order, a column of one cell that holds the number
/// of the column's missing values, called `Missing count ` and the column's name.
pub fn missing_values_count(df: &Table) -> (counts: Table)
    ensures
        counts@ == count_table(df@),
{
    let ghost want = count_table(df@);
    let mut columns: Vec<Column> = Vec::new();
    let mut k: usize = 0;
    while k < df.width()
        invariant
            k <= df@.len(),
            want == count_table(df@),
            columns_view(columns@) == want.take(k as int),
        decreases df@.len() - k,
    {
        let ghost before = columns@;
        columns.push(missing_count_as_series(df.column(k)));
        assert(columns_view(columns@) =~= columns_view(before).push(want[k as int]));
        assert(want.take(k + 1) =~= want.take(k as int).push(want[k as int]));
        k += 1;
    }
    proof {
        assert(want.take(df@.len() as int) =~= want);
        lemma_count_table_wf(df@);
    }
    Table::from_parts(columns)
}

} // verus!
