//! Joining tables on their date columns.

use crate::join_laws::{begins_with_label, distinct_dates, lemma_combine_shape, total_height};
use crate::seqs::{lemma_position_of, position_of};
use crate::table::{
    cells_fit, column_wf, columns_view, distinct_names, equal_lengths, table_height, table_names,
    table_wf, tables_view, Cell, Column, ColumnView, Table, TableView,
};
use crate::text::texts;
use vstd::prelude::*;

verus! {

/// Why tables could not be combined.
#[derive(Clone, Copy, Debug, PartialEq, Eq, Structural)]
pub enum CombineError {
    /// There is no table to combine.
    NoData,
    /// A table that takes part in a join lacks the column to join on: its date column,
    /// where tables are combined.
    MissingKey,
    /// The columns to join on differ in type.
    KeyTypeMismatch,
    /// Two columns of the result would share a name.
    DuplicateColumn,
}

/// One row of a join: the row of the left table and the row of the right table that it is
/// made of. `None` stands for a side that has no row to give.
pub type RowPick = (Option<int>, Option<int>);

/// Whether two key cells match. A null key matches nothing.
pub open spec fn keys_match(l: Cell, r: Cell) -> bool {
    l != Cell::Null && l == r
}

/// The positions below `n` of the keys of `right` that match `key`, ascending.
pub open spec fn matches_upto(key: Cell, right: Seq<Cell>, n: int) -> Seq<int>
    decreases n,
{
    if n <= 0 {
        Seq::empty()
    } else {
        let rest = matches_upto(key, right, n - 1);
        if keys_match(key, right[n - 1]) {
            rest.push(n - 1)
        } else {
            rest
        }
    }
}

/// The rows that row `i` of the left table gives: one for each matching row of the right
/// table, in the order of the right table, or a single row without a right side.
pub open spec fn row_picks(i: int, key: Cell, right: Seq<Cell>) -> Seq<RowPick> {
    let found = matches_upto(key, right, right.len() as int);
    if found.len() == 0 {
        seq![(Some(i), None::<int>)]
    } else {
        found.map_values(|j: int| (Some(i), Some(j)))
    }
}

/// The rows that the first `n` rows of the left table give, in the order of the left table.
pub open spec fn left_picks(left: Seq<Cell>, right: Seq<Cell>, n: int) -> Seq<RowPick>
    decreases n,
{
    if n <= 0 {
        Seq::empty()
    } else {
        left_picks(left, right, n - 1) + row_picks(n - 1, left[n - 1], right)
    }
}

/// Whether one of the first `n` keys of `left` matches `key`.
pub open spec fn matched_upto(key: Cell, left: Seq<Cell>, n: int) -> bool {
    exists|i: int| 0 <= i < n && keys_match(#[trigger] left[i], key)
}

/// The rows that those of the first `n` rows of the right table give that match none of the
/// first `m` rows of the left table, in the order of the right table.
pub open spec fn right_picks(left: Seq<Cell>, m: int, right: Seq<Cell>, n: int) -> Seq<RowPick>
    decreases n,
{
    if n <= 0 {
        Seq::empty()
    } else {
        let rest = right_picks(left, m, right, n - 1);
        if matched_upto(right[n - 1], left, m) {
            rest
        } else {
            rest.push((None::<int>, Some(n - 1)))
        }
    }
}

/// The rows of the full outer join of two tables with the key columns `left` and `right`:
/// first the rows of the left table in order, each with its matches, then the unmatched rows
/// of the right table in order.
pub open spec fn join_picks(left: Seq<Cell>, right: Seq<Cell>) -> Seq<RowPick> {
    left_picks(left, right, left.len() as int) + right_picks(
        left,
        left.len() as int,
        right,
        right.len() as int,
    )
}

/// The cell that a pick takes from `cells`: null where it names no row.
pub open spec fn pick_cell(cells: Seq<Cell>, pick: Option<int>) -> Cell {
    match pick {
        Some(i) => cells[i],
        None => Cell::Null,
    }
}

/// The left sides of `picks`.
pub open spec fn left_sides(picks: Seq<RowPick>) -> Seq<Option<int>> {
    picks.map_values(|p: RowPick| p.0)
}

/// The right sides of `picks`.
pub open spec fn right_sides(picks: Seq<RowPick>) -> Seq<Option<int>> {
    picks.map_values(|p: RowPick| p.1)
}

/// The column `c` under the name `name`, with its cells taken as `picks` say.
pub open spec fn gather_column(
    c: ColumnView,
    name: Seq<char>,
    picks: Seq<Option<int>>,
) -> ColumnView {
    ColumnView {
        name,
        dtype: c.dtype,
        cells: picks.map_values(|p: Option<int>| pick_cell(c.cells, p)),
    }
}

/// The name that a column of the right table gets in a join: its own, with `_right` behind
/// it where the left table has a column of that name.
pub open spec fn joined_name(left_names: Seq<Seq<char>>, name: Seq<char>) -> Seq<char> {
    if left_names.contains(name) {
        name + "_right"@
    } else {
        name
    }
}

/// The columns of a join with the rows `picks`: those of the left table, then those of the
/// right table.
pub open spec fn join_columns(left: TableView, right: TableView, picks: Seq<RowPick>) -> TableView {
    left.map_values(|c: ColumnView| gather_column(c, c.name, left_sides(picks)))
        + right.map_values(
        |c: ColumnView|
            gather_column(c, joined_name(table_names(left), c.name), right_sides(picks)),
    )
}

/// The full outer join of `left` and `right` on the columns called `left_on` and `right_on`.
pub open spec fn spec_join(
    left: TableView,
    right: TableView,
    left_on: Seq<char>,
    right_on: Seq<char>,
) -> Result<TableView, CombineError> {
    match (position_of(table_names(left), left_on), position_of(table_names(right), right_on)) {
        (Some(l), Some(r)) => if left[l].dtype != right[r].dtype {
            Err(CombineError::KeyTypeMismatch)
        } else {
            let out = join_columns(left, right, join_picks(left[l].cells, right[r].cells));
            if distinct_names(table_names(out)) {
                Ok(out)
            } else {
                Err(CombineError::DuplicateColumn)
            }
        },
        _ => Err(CombineError::MissingKey),
    }
}

/// Picks as the executable code holds them.
pub open spec fn picks_view(picks: Seq<(Option<usize>, Option<usize>)>) -> Seq<RowPick> {
    picks.map_values(|p: (Option<usize>, Option<usize>)| (side_view(p.0), side_view(p.1)))
}

/// One side of a pick as the executable code holds it.
pub open spec fn side_view(side: Option<usize>) -> Option<int> {
    match side {
        Some(i) => Some(i as int),
        None => None,
    }
}

/// Whether each side of each pick names a row of its table.
pub open spec fn picks_in_range(picks: Seq<RowPick>, left_len: int, right_len: int) -> bool {
    forall|k: int|
        0 <= k < picks.len() ==> {
            &&& (#[trigger] picks[k]).0 matches Some(i) ==> 0 <= i < left_len
            &&& picks[k].1 matches Some(j) ==> 0 <= j < right_len
        }
}

/// Computes the rows of the full outer join of two key columns.
fn pick_rows(left: &Column, right: &Column) -> (picks: Vec<(Option<usize>, Option<usize>)>)
    ensures
        picks_view(picks@) == join_picks(left@.cells, right@.cells),
        picks_in_range(picks_view(picks@), left@.cells.len() as int, right@.cells.len() as int),
{
    let ghost lk = left@.cells;
    let ghost rk = right@.cells;
    let ln = left.len();
    let rn = right.len();
    let mut picks: Vec<(Option<usize>, Option<usize>)> = Vec::new();
    let mut i: usize = 0;
    while i < ln
        invariant
            i <= ln,
            ln == lk.len(),
            rn == rk.len(),
            lk == left@.cells,
            rk == right@.cells,
            picks_view(picks@) == left_picks(lk, rk, i as int),
            picks_in_range(picks_view(picks@), ln as int, rn as int),
        decreases ln - i,
    {
        let key = left.cell(i);
        let ghost base = picks@;
        let mut found: usize = 0;
        let mut j: usize = 0;
        while j < rn
            invariant
                j <= rn,
                i < ln,
                ln == lk.len(),
                rn == rk.len(),
                rk == right@.cells,
                key == lk[i as int],
                found == matches_upto(key, rk, j as int).len(),
                found <= j,
                picks_view(picks@) == picks_view(base) + matches_upto(key, rk, j as int).map_values(
                    |j: int| (Some(i as int), Some(j)),
                ),
                picks_in_range(picks_view(picks@), ln as int, rn as int),
            decreases rn - j,
        {
            let other = right.cell(j);
            if !key.is_null() && key == other {
                let ghost before = picks@;
                picks.push((Some(i), Some(j)));
                assert(picks_view(picks@) =~= picks_view(before).push(
                    (Some(i as int), Some(j as int)),
                ));
                assert(picks_view(picks@) =~= picks_view(base) + matches_upto(
                    key,
                    rk,
                    j + 1,
                ).map_values(|j: int| (Some(i as int), Some(j))));
                found += 1;
            }
            j += 1;
        }
        if found == 0 {
            let ghost before = picks@;
            picks.push((Some(i), None));
            assert(picks_view(picks@) =~= picks_view(before).push((Some(i as int), None::<int>)));
            assert(picks_view(picks@) =~= picks_view(base) + seq![(Some(i as int), None::<int>)]);
        }
        assert(picks_view(picks@) == picks_view(base) + row_picks(i as int, key, rk));
        i += 1;
    }
    let ghost base = picks@;
    let mut j: usize = 0;
    while j < rn
        invariant
            j <= rn,
            ln == lk.len(),
            rn == rk.len(),
            lk == left@.cells,
            rk == right@.cells,
            picks_view(picks@) == picks_view(base) + right_picks(lk, ln as int, rk, j as int),
            picks_in_range(picks_view(picks@), ln as int, rn as int),
        decreases rn - j,
    {
        let key = right.cell(j);
        let mut matched = false;
        let mut i: usize = 0;
        while i < ln && !matched
            invariant
                i <= ln,
                ln == lk.len(),
                lk == left@.cells,
                matched ==> matched_upto(key, lk, ln as int),
                !matched ==> !matched_upto(key, lk, i as int),
            decreases ln - i + (if matched { 0int } else { 1int }),
        {
            let other = left.cell(i);
            if !other.is_null() && other == key {
                matched = true;
            } else {
                i += 1;
            }
        }
        if !matched {
            let ghost before = picks@;
            picks.push((None, Some(j)));
            assert(picks_view(picks@) =~= picks_view(before).push((None::<int>, Some(j as int))));
        }
        assert(picks_view(picks@) =~= picks_view(base) + right_picks(lk, ln as int, rk, j + 1));
        j += 1;
    }
    picks
}

/// One side of each of `picks`: the right sides where `right` is set, else the left sides.
pub open spec fn sides(picks: Seq<RowPick>, right: bool) -> Seq<Option<int>> {
    if right {
        right_sides(picks)
    } else {
        left_sides(picks)
    }
}

/// Takes the cells of `column` as one side of `picks` says, under the name `name`.
fn gather(
    column: &Column,
    name: String,
    picks: &Vec<(Option<usize>, Option<usize>)>,
    right: bool,
) -> (c: Column)
    requires
        forall|k: int|
            0 <= k < picks@.len() ==> (
            (#[trigger] sides(picks_view(picks@), right)[k]) matches Some(i) ==> 0 <= i
                < column@.cells.len()),
    ensures
        c@ == gather_column(column@, name@, sides(picks_view(picks@), right)),
        column_wf(c@),
        c@.cells.len() == picks@.len(),
{
    let ghost wanted = sides(picks_view(picks@), right);
    let mut cells: Vec<Cell> = Vec::new();
    let mut k: usize = 0;
    while k < picks.len()
        invariant
            k <= picks.len(),
            wanted == sides(picks_view(picks@), right),
            wanted.len() == picks@.len(),
            forall|k: int|
                0 <= k < picks@.len() ==> ((#[trigger] wanted[k]) matches Some(i) ==> 0 <= i
                    < column@.cells.len()),
            cells@ == wanted.take(k as int).map_values(
                |p: Option<int>| pick_cell(column@.cells, p),
            ),
            cells_fit(cells@, column@.dtype),
        decreases picks.len() - k,
    {
        let side = if right {
            picks[k].1
        } else {
            picks[k].0
        };
        assert(side_view(side) == wanted[k as int]);
        let cell = match side {
            Some(i) => column.cell(i),
            None => Cell::Null,
        };
        cells.push(cell);
        assert(wanted.take(k + 1) =~= wanted.take(k as int).push(wanted[k as int]));
        assert(cells@ =~= wanted.take(k + 1).map_values(
            |p: Option<int>| pick_cell(column@.cells, p),
        ));
        k += 1;
    }
    assert(wanted.take(picks.len() as int) =~= wanted);
    Column::from_parts(name, column.dtype(), cells)
}

/// What a join gives, as a value of the specification.
pub open spec fn joined_view(r: Result<Table, CombineError>) -> Result<TableView, CombineError> {
    match r {
        Ok(t) => Ok(t@),
        Err(e) => Err(e),
    }
}

/// Joins `left` and `right` on the columns called `left_on` and `right_on`, keeping the rows
/// of both: first each row of `left`, in order, once with each row of `right` whose key equals
/// its own, or once with nulls where there is none; then the rows of `right` that matched no
/// row of `left`, in order, with nulls on the left. A null key matches nothing. The result has
/// the columns of `left` and then those of `right`; a column of `right` whose name `left` has
/// too gets `_right` behind its name.
pub fn outer_join(left: &Table, right: &Table, left_on: &str, right_on: &str) -> (r: Result<
    Table,
    CombineError,
>)
    ensures
        joined_view(r) == spec_join(left@, right@, left_on@, right_on@),
{
    let (l, r) = match (left.find(left_on), right.find(right_on)) {
        (Some(l), Some(r)) => (l, r),
        _ => {
            return Err(CombineError::MissingKey);
        },
    };
    let left_key = left.column(l);
    let right_key = right.column(r);
    if left_key.dtype() != right_key.dtype() {
        return Err(CombineError::KeyTypeMismatch);
    }
    let picks = pick_rows(left_key, right_key);
    let ghost rows = join_picks(left@[l as int].cells, right@[r as int].cells);
    let ghost left_part = left@.map_values(
        |c: ColumnView| gather_column(c, c.name, left_sides(rows)),
    );
    let ghost right_part = right@.map_values(
        |c: ColumnView|
            gather_column(c, joined_name(table_names(left@), c.name), right_sides(rows)),
    );
    let mut columns: Vec<Column> = Vec::new();
    let mut k: usize = 0;
    while k < left.width()
        invariant
            k <= left@.len(),
            picks_view(picks@) == rows,
            picks_in_range(rows, table_height(left@) as int, table_height(right@) as int),
            left_part == left@.map_values(
                |c: ColumnView| gather_column(c, c.name, left_sides(rows)),
            ),
            columns_view(columns@) == left_part.take(k as int),
            forall|a: int|
                0 <= a < columns@.len() ==> column_wf(#[trigger] columns_view(columns@)[a]),
            forall|a: int|
                0 <= a < columns@.len() ==> (#[trigger] columns_view(columns@)[a]).cells.len()
                    == picks@.len(),
        decreases left@.len() - k,
    {
        let column = left.column(k);
        let ghost before = columns@;
        assert forall|a: int| 0 <= a < picks@.len() implies ((#[trigger] sides(
            picks_view(picks@),
            false,
        )[a]) matches Some(i) ==> 0 <= i < column@.cells.len()) by {
            assert(rows[a].0 == sides(rows, false)[a]);
        }
        columns.push(gather(column, column.name().clone(), &picks, false));
        assert(columns_view(columns@) =~= columns_view(before).push(left_part[k as int]));
        assert(left_part.take(k + 1) =~= left_part.take(k as int).push(left_part[k as int]));
        k += 1;
    }
    assert(left_part.take(left@.len() as int) =~= left_part);
    let mut k: usize = 0;
    while k < right.width()
        invariant
            k <= right@.len(),
            picks_view(picks@) == rows,
            picks_in_range(rows, table_height(left@) as int, table_height(right@) as int),
            right_part == right@.map_values(
                |c: ColumnView|
                    gather_column(c, joined_name(table_names(left@), c.name), right_sides(rows)),
            ),
            columns_view(columns@) == left_part + right_part.take(k as int),
            forall|a: int|
                0 <= a < columns@.len() ==> column_wf(#[trigger] columns_view(columns@)[a]),
            forall|a: int|
                0 <= a < columns@.len() ==> (#[trigger] columns_view(columns@)[a]).cells.len()
                    == picks@.len(),
        decreases right@.len() - k,
    {
        let column = right.column(k);
        let ghost before = columns@;
        assert forall|a: int| 0 <= a < picks@.len() implies ((#[trigger] sides(
            picks_view(picks@),
            true,
        )[a]) matches Some(i) ==> 0 <= i < column@.cells.len()) by {
            assert(rows[a].1 == sides(rows, true)[a]);
        }
        let name = match left.find(column.name().as_str()) {
            Some(_) => column.name().clone().concat("_right"),
            None => column.name().clone(),
        };
        proof {
            lemma_position_of(table_names(left@), column@.name);
            assert(name@ == joined_name(table_names(left@), column@.name));
        }
        columns.push(gather(column, name, &picks, true));
        assert(columns_view(columns@) =~= columns_view(before).push(right_part[k as int]));
        assert(right_part.take(k + 1) =~= right_part.take(k as int).push(right_part[k as int]));
        assert(columns_view(columns@) =~= left_part + right_part.take(k + 1));
        k += 1;
    }
    proof {
        assert(right_part.take(right@.len() as int) =~= right_part);
        let out = columns_view(columns@);
        assert(out == join_columns(left@, right@, rows));
        assert(out.len() > 0);
        assert(equal_lengths(out));
    }
    match Table::new(columns) {
        Ok(t) => Ok(t),
        Err(_) => Err(CombineError::DuplicateColumn),
    }
}

/// The name of the column on which tables are joined.
pub open spec fn date_name() -> Seq<char> {
    "date"@
}

/// `name` with `label` and a space before it.
pub open spec fn prefixed(label: Seq<char>, name: Seq<char>) -> Seq<char> {
    label + " "@ + name
}

/// The table `t` with `label` and a space before the name of each column.
pub open spec fn relabelled(t: TableView, label: Seq<char>) -> TableView {
    t.map_values(
        |c: ColumnView|
            ColumnView { name: prefixed(label, c.name), dtype: c.dtype, cells: c.cells },
    )
}

/// Names that differ still differ behind one label.
pub proof fn lemma_prefixed_injective(label: Seq<char>, a: Seq<char>, b: Seq<char>)
    requires
        prefixed(label, a) == prefixed(label, b),
    ensures
        a == b,
{
    let head = label + " "@;
    assert(prefixed(label, a).len() == head.len() + a.len());
    assert(prefixed(label, b).len() == head.len() + b.len());
    assert forall|k: int| 0 <= k < a.len() implies a[k] == b[k] by {
        assert(prefixed(label, a)[head.len() + k] == a[k]);
        assert(prefixed(label, b)[head.len() + k] == b[k]);
    }
    assert(a =~= b);
}

/// A table stays a table when its columns are relabelled.
pub proof fn lemma_relabelled_wf(t: TableView, label: Seq<char>)
    requires
        table_wf(t),
    ensures
        table_wf(relabelled(t, label)),
        table_height(relabelled(t, label)) == table_height(t),
{
    let out = relabelled(t, label);
    assert forall|i: int, j: int| 0 <= i < j < out.len() implies table_names(out)[i] != table_names(
        out,
    )[j] by {
        if table_names(out)[i] == table_names(out)[j] {
            lemma_prefixed_injective(label, t[i].name, t[j].name);
            assert(table_names(t)[i] == table_names(t)[j]);
        }
    }
    assert forall|i: int| 0 <= i < out.len() implies column_wf(#[trigger] out[i]) by {
        assert(column_wf(t[i]));
    }
    assert forall|i: int| 0 <= i < out.len() implies (#[trigger] out[i]).cells.len()
        == table_height(out) by {
        assert(t[i].cells.len() == table_height(t));
    }
}

/// A copy of `table` with `label` and a space before the name of each column.
pub fn relabel(table: &Table, label: &str) -> (r: Table)
    ensures
        r@ == relabelled(table@, label@),
        table_wf(table@),
{
    let ghost want = relabelled(table@, label@);
    let mut columns: Vec<Column> = Vec::new();
    let mut k: usize = 0;
    while k < table.width()
        invariant
            k <= table@.len(),
            want == relabelled(table@, label@),
            columns_view(columns@) == want.take(k as int),
        decreases table@.len() - k,
    {
        let column = table.column(k);
        let name = label.to_owned().concat(" ").concat(column.name().as_str());
        let ghost before = columns@;
        columns.push(column.with_name(name));
        assert(columns_view(columns@) =~= columns_view(before).push(want[k as int]));
        assert(want.take(k + 1) =~= want.take(k as int).push(want[k as int]));
        k += 1;
    }
    proof {
        assert(want.take(table@.len() as int) =~= want);
        lemma_relabelled_wf(table@, label@);
    }
    Table::from_parts(columns)
}

/// The first `n` of `tables` combined: the first table relabelled, then each further table
/// relabelled and joined to what came before, on the date column of the first table and its
/// own. The first join that fails ends it.
pub open spec fn combine_prefix(tables: Seq<TableView>, labels: Seq<Seq<char>>, n: int) -> Result<
    TableView,
    CombineError,
>
    decreases n,
{
    if n <= 0 {
        Err(CombineError::NoData)
    } else if n == 1 {
        Ok(relabelled(tables[0], labels[0]))
    } else {
        match combine_prefix(tables, labels, n - 1) {
            Ok(joined) => spec_join(
                joined,
                relabelled(tables[n - 1], labels[n - 1]),
                prefixed(labels[0], date_name()),
                prefixed(labels[n - 1], date_name()),
            ),
            Err(e) => Err(e),
        }
    }
}

/// All of `tables` combined under `labels`.
pub open spec fn spec_combine(tables: Seq<TableView>, labels: Seq<Seq<char>>) -> Result<
    TableView,
    CombineError,
> {
    combine_prefix(tables, labels, tables.len() as int)
}

/// Combines the tables of several tickers into one wide table. Each table's columns get the
/// table's ticker and a space before their names. The first table is the anchor: each further
/// table is joined to what came before by a full outer join on the anchor's date column and
/// its own, from left to right. Fails with `NoData` where there is no table, and with the
/// error of the first join that fails.
///
/// The result has at least as many rows as the tallest table. Where in each table but the
/// first the dates that are not null differ from one another, it has at most as many rows as
/// all tables together. The name of each of its columns begins with one of the tickers and a
/// space.
pub fn combine_dfs(dataframes: Vec<Table>, tickers: Vec<String>) -> (r: Result<Table, CombineError>)
    requires
        dataframes@.len() == tickers@.len(),
    ensures
        joined_view(r) == spec_combine(tables_view(dataframes@), texts(tickers@)),
        r matches Ok(t) ==> {
            &&& forall|i: int|
                0 <= i < dataframes@.len() ==> table_height(t@) >= table_height(
                    (#[trigger] dataframes@[i])@,
                )
            &&& (forall|i: int|
                1 <= i < dataframes@.len() ==> distinct_dates((#[trigger] dataframes@[i])@))
                ==> table_height(t@) <= total_height(
                tables_view(dataframes@),
                dataframes@.len() as int,
            )
            &&& forall|c: int|
                0 <= c < t@.len() ==> begins_with_label(
                    (#[trigger] t@[c]).name,
                    texts(tickers@),
                    tickers@.len() as int,
                )
        },
{
    if dataframes.len() == 0 {
        return Err(CombineError::NoData);
    }
    let ghost tables = tables_view(dataframes@);
    let ghost labels = texts(tickers@);
    let anchor = tickers[0].clone().concat(" ").concat("date");
    let mut combined = relabel(&dataframes[0], tickers[0].as_str());
    let mut k: usize = 1;
    while k < dataframes.len()
        invariant
            1 <= k <= dataframes@.len(),
            dataframes@.len() == tickers@.len(),
            tables == tables_view(dataframes@),
            labels == texts(tickers@),
            anchor@ == prefixed(labels[0], date_name()),
            combine_prefix(tables, labels, k as int) == Ok::<TableView, CombineError>(combined@),
            forall|i: int| 0 <= i < k ==> table_wf(#[trigger] tables[i]),
        decreases dataframes@.len() - k,
    {
        let next = relabel(&dataframes[k], tickers[k].as_str());
        let key = tickers[k].clone().concat(" ").concat("date");
        match outer_join(&combined, &next, anchor.as_str(), key.as_str()) {
            Ok(joined) => {
                combined = joined;
            },
            Err(e) => {
                proof {
                    lemma_combine_error_stays(tables, labels, k + 1, dataframes@.len() as int);
                }
                return Err(e);
            },
        }
        k += 1;
    }
    proof {
        let n = dataframes@.len() as int;
        lemma_combine_shape(tables, labels, n);
        assert forall|i: int| 0 <= i < n implies table_height(combined@) >= table_height(
            (#[trigger] dataframes@[i])@,
        ) by {
            assert(tables[i] == dataframes@[i]@);
        }
        if forall|i: int| 1 <= i < n ==> distinct_dates((#[trigger] dataframes@[i])@) {
            assert forall|i: int| 1 <= i < n implies distinct_dates(#[trigger] tables[i]) by {
                assert(tables[i] == dataframes@[i]@);
            }
        }
    }
    Ok(combined)
}

/// Once a prefix of the tables fails to combine, every longer prefix fails in the same way.
pub proof fn lemma_combine_error_stays(
    tables: Seq<TableView>,
    labels: Seq<Seq<char>>,
    n: int,
    m: int,
)
    requires
        1 <= n <= m,
        combine_prefix(tables, labels, n) is Err,
    ensures
        combine_prefix(tables, labels, m) == combine_prefix(tables, labels, n),
    decreases m - n,
{
    if n < m {
        lemma_combine_error_stays(tables, labels, n, m - 1);
    }
}

} // verus!
