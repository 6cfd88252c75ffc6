//! What holds of every join and of every combination of tables.

use crate::join::{
    combine_prefix, date_name, gather_column, join_columns, join_picks, joined_name, keys_match,
    left_picks, left_sides, lemma_prefixed_injective, lemma_relabelled_wf, matched_upto,
    matches_upto, prefixed, relabelled, right_picks, right_sides, row_picks, spec_join, RowPick,
};
use crate::seqs::{lemma_position_of, position_of};
use crate::table::{
    cell_fits, column_wf, equal_lengths, table_height, table_names, table_wf, Cell, TableView,
};
use vstd::prelude::*;

verus! {

/// Whether the keys of `keys` that are not null differ from one another.
pub open spec fn distinct_keys(keys: Seq<Cell>) -> bool {
    forall|a: int, b: int|
        0 <= a < b < keys.len() && keys[a] != Cell::Null ==> keys[a] != keys[b]
}

/// Whether the dates of `t` that are not null differ from one another. A table without a date
/// column has no two equal dates.
pub open spec fn distinct_dates(t: TableView) -> bool {
    match position_of(table_names(t), date_name()) {
        Some(i) => distinct_keys(t[i].cells),
        None => true,
    }
}

/// The sum of the heights of the first `n` of `tables`.
pub open spec fn total_height(tables: Seq<TableView>, n: int) -> nat
    decreases n,
{
    if n <= 0 {
        0
    } else {
        total_height(tables, n - 1) + table_height(tables[n - 1])
    }
}

/// The matches of a key are rows of the right table whose keys match it.
pub proof fn lemma_matches_match(key: Cell, right: Seq<Cell>, n: int)
    requires
        n <= right.len(),
    ensures
        matches_upto(key, right, n).len() <= if n <= 0 { 0 } else { n },
        forall|k: int|
            0 <= k < matches_upto(key, right, n).len() ==> {
                let j = #[trigger] matches_upto(key, right, n)[k];
                0 <= j < n && keys_match(key, right[j])
            },
    decreases n,
{
    if n > 0 {
        lemma_matches_match(key, right, n - 1);
    }
}

/// Among keys that differ from one another, at most one matches a given key.
pub proof fn lemma_one_match(key: Cell, right: Seq<Cell>, n: int)
    requires
        n <= right.len(),
        distinct_keys(right),
    ensures
        matches_upto(key, right, n).len() <= 1,
    decreases n,
{
    if n > 0 {
        lemma_one_match(key, right, n - 1);
        lemma_matches_match(key, right, n - 1);
        let rest = matches_upto(key, right, n - 1);
        if keys_match(key, right[n - 1]) && rest.len() > 0 {
            let j = rest[0];
            assert(keys_match(key, right[j]));
            assert(right[j] != right[n - 1]);
        }
    }
}

/// Every row of the left table gives at least one row, and each row that it gives names
/// rows of the two tables.
pub proof fn lemma_left_picks(left: Seq<Cell>, right: Seq<Cell>, n: int)
    requires
        n <= left.len(),
    ensures
        left_picks(left, right, n).len() >= if n <= 0 { 0 } else { n },
        forall|k: int|
            0 <= k < left_picks(left, right, n).len() ==> {
                let p = #[trigger] left_picks(left, right, n)[k];
                &&& p.0 matches Some(i)
                &&& 0 <= i < n
                &&& p.1 matches Some(j) ==> 0 <= j < right.len() && keys_match(left[i], right[j])
            },
    decreases n,
{
    if n > 0 {
        lemma_left_picks(left, right, n - 1);
        lemma_matches_match(left[n - 1], right, right.len() as int);
        let before = left_picks(left, right, n - 1);
        let row = row_picks(n - 1, left[n - 1], right);
        let all = left_picks(left, right, n);
        assert(all == before + row);
        assert forall|k: int| 0 <= k < all.len() implies {
            let p = #[trigger] all[k];
            &&& p.0 matches Some(i)
            &&& 0 <= i < n
            &&& p.1 matches Some(j) ==> 0 <= j < right.len() && keys_match(left[i], right[j])
        } by {
            if k < before.len() {
                assert(all[k] == before[k]);
            } else {
                assert(all[k] == row[k - before.len()]);
            }
        }
    }
}

/// Where the keys of the right table differ from one another, every row of the left table
/// gives exactly one row.
pub proof fn lemma_left_picks_exact(left: Seq<Cell>, right: Seq<Cell>, n: int)
    requires
        0 <= n <= left.len(),
        distinct_keys(right),
    ensures
        left_picks(left, right, n).len() == n,
    decreases n,
{
    if n > 0 {
        lemma_left_picks_exact(left, right, n - 1);
        lemma_one_match(left[n - 1], right, right.len() as int);
    }
}

/// The unmatched rows of the right table are rows of the right table, each given once.
pub proof fn lemma_right_picks(left: Seq<Cell>, m: int, right: Seq<Cell>, n: int)
    requires
        n <= right.len(),
    ensures
        right_picks(left, m, right, n).len() <= if n <= 0 { 0 } else { n },
        m <= 0 && n >= 0 ==> right_picks(left, m, right, n).len() == n,
        forall|k: int|
            0 <= k < right_picks(left, m, right, n).len() ==> {
                let p = #[trigger] right_picks(left, m, right, n)[k];
                &&& p.0 is None
                &&& p.1 matches Some(j) && 0 <= j < n
            },
    decreases n,
{
    if n > 0 {
        lemma_right_picks(left, m, right, n - 1);
    }
}

/// One more row on the left takes from the unmatched rows of the right table at most the
/// rows that match it.
proof fn lemma_right_picks_step(left: Seq<Cell>, m: int, right: Seq<Cell>, n: int)
    requires
        0 <= m < left.len(),
        n <= right.len(),
    ensures
        right_picks(left, m + 1, right, n).len() + matches_upto(left[m], right, n).len()
            >= right_picks(left, m, right, n).len(),
    decreases n,
{
    if n > 0 {
        lemma_right_picks_step(left, m, right, n - 1);
        let key = right[n - 1];
        if matched_upto(key, left, m) {
            let i = choose|i: int| 0 <= i < m && keys_match(#[trigger] left[i], key);
            assert(0 <= i < m + 1 && keys_match(left[i], key));
        } else if !keys_match(left[m], key) {
            if matched_upto(key, left, m + 1) {
                let i = choose|i: int| 0 <= i < m + 1 && keys_match(#[trigger] left[i], key);
                assert(i == m || (0 <= i < m && keys_match(left[i], key)));
            }
        }
    }
}

/// Every row of the right table is matched by a row of the first `m` of the left table or
/// stands among the unmatched.
proof fn lemma_right_rows_kept(left: Seq<Cell>, right: Seq<Cell>, m: int)
    requires
        0 <= m <= left.len(),
    ensures
        left_picks(left, right, m).len() + right_picks(left, m, right, right.len() as int).len()
            >= right.len(),
    decreases m,
{
    let n = right.len() as int;
    if m == 0 {
        lemma_right_picks(left, 0, right, n);
    } else {
        lemma_right_rows_kept(left, right, m - 1);
        lemma_right_picks_step(left, m - 1, right, n);
        let found = matches_upto(left[m - 1], right, n);
        assert(row_picks(m - 1, left[m - 1], right).len() >= found.len());
    }
}

/// Every row below `n` of the right table whose key matches `key` is among the matches.
pub proof fn lemma_matches_complete(key: Cell, right: Seq<Cell>, n: int, j: int)
    requires
        0 <= j < n <= right.len(),
        keys_match(key, right[j]),
    ensures
        matches_upto(key, right, n).contains(j),
    decreases n,
{
    let found = matches_upto(key, right, n);
    if j == n - 1 {
        assert(found[found.len() - 1] == j);
    } else {
        lemma_matches_complete(key, right, n - 1, j);
        let before = matches_upto(key, right, n - 1);
        let k = choose|k: int| 0 <= k < before.len() && before[k] == j;
        assert(found[k] == j);
    }
}

/// What is in one of two sequences is in the two put together.
pub proof fn lemma_contains_in_sum<A>(a: Seq<A>, b: Seq<A>, x: A)
    requires
        a.contains(x) || b.contains(x),
    ensures
        (a + b).contains(x),
{
    if a.contains(x) {
        let k = choose|k: int| 0 <= k < a.len() && a[k] == x;
        assert((a + b)[k] == x);
    } else {
        let k = choose|k: int| 0 <= k < b.len() && b[k] == x;
        assert((a + b)[a.len() + k] == x);
    }
}

/// Whether no key of `right` matches `key`.
pub open spec fn unmatched(key: Cell, right: Seq<Cell>) -> bool {
    forall|j: int| 0 <= j < right.len() ==> !keys_match(key, #[trigger] right[j])
}

/// Whether `pick` is a row of the join of the key columns `left` and `right`: two rows whose
/// keys match, a row of the left table that matches no row of the right table, or a row of
/// the right table that matches no row of the left table.
pub open spec fn is_join_row(pick: RowPick, left: Seq<Cell>, right: Seq<Cell>) -> bool {
    match pick {
        (Some(i), Some(j)) => 0 <= i < left.len() && 0 <= j < right.len() && keys_match(
            left[i],
            right[j],
        ),
        (Some(i), None) => 0 <= i < left.len() && unmatched(left[i], right),
        (None, Some(j)) => 0 <= j < right.len() && !matched_upto(right[j], left, left.len() as int),
        (None, None) => false,
    }
}

/// The rows that row `i` of the left table gives are rows of the join, and all of them that
/// hold row `i`.
proof fn lemma_row_picks(left: Seq<Cell>, right: Seq<Cell>, i: int)
    requires
        0 <= i < left.len(),
    ensures
        forall|k: int|
            0 <= k < row_picks(i, left[i], right).len() ==> is_join_row(
                #[trigger] row_picks(i, left[i], right)[k],
                left,
                right,
            ),
        forall|j: int|
            0 <= j < right.len() && keys_match(left[i], #[trigger] right[j]) ==> row_picks(
                i,
                left[i],
                right,
            ).contains((Some(i), Some(j))),
        unmatched(left[i], right) ==> row_picks(i, left[i], right).contains((Some(i), None::<int>)),
{
    let key = left[i];
    let n = right.len() as int;
    let found = matches_upto(key, right, n);
    let row = row_picks(i, key, right);
    lemma_matches_match(key, right, n);
    assert forall|j: int|
        0 <= j < right.len() && keys_match(key, #[trigger] right[j]) implies row.contains(
        (Some(i), Some(j)),
    ) by {
        lemma_matches_complete(key, right, n, j);
        let k = choose|k: int| 0 <= k < found.len() && found[k] == j;
        assert(row[k] == (Some(i), Some(j)));
    }
    if found.len() == 0 {
        assert(row[0] == (Some(i), None::<int>));
        assert forall|j: int| 0 <= j < right.len() implies !keys_match(
            key,
            #[trigger] right[j],
        ) by {
            if keys_match(key, right[j]) {
                lemma_matches_complete(key, right, n, j);
            }
        }
    } else {
        if unmatched(key, right) {
            assert(keys_match(key, right[found[0]]));
        }
    }
    assert forall|k: int| 0 <= k < row.len() implies is_join_row(
        #[trigger] row[k],
        left,
        right,
    ) by {
        if found.len() > 0 {
            assert(row[k] == (Some(i), Some(found[k])));
        }
    }
}

/// The rows that the first `n` rows of the left table give are rows of the join, and all of
/// them that hold one of these rows.
proof fn lemma_left_rows(left: Seq<Cell>, right: Seq<Cell>, n: int)
    requires
        0 <= n <= left.len(),
    ensures
        forall|k: int|
            0 <= k < left_picks(left, right, n).len() ==> is_join_row(
                #[trigger] left_picks(left, right, n)[k],
                left,
                right,
            ),
        forall|i: int, j: int|
            0 <= i < n && 0 <= j < right.len() && keys_match(
                #[trigger] left[i],
                #[trigger] right[j],
            ) ==> left_picks(left, right, n).contains((Some(i), Some(j))),
        forall|i: int|
            0 <= i < n && unmatched(#[trigger] left[i], right) ==> left_picks(
                left,
                right,
                n,
            ).contains((Some(i), None::<int>)),
    decreases n,
{
    if n > 0 {
        lemma_left_rows(left, right, n - 1);
        lemma_row_picks(left, right, n - 1);
        let before = left_picks(left, right, n - 1);
        let row = row_picks(n - 1, left[n - 1], right);
        let all = left_picks(left, right, n);
        assert(all == before + row);
        assert forall|k: int| 0 <= k < all.len() implies is_join_row(
            #[trigger] all[k],
            left,
            right,
        ) by {
            if k < before.len() {
                assert(all[k] == before[k]);
            } else {
                assert(all[k] == row[k - before.len()]);
            }
        }
        assert forall|i: int, j: int|
            0 <= i < n && 0 <= j < right.len() && keys_match(
                #[trigger] left[i],
                #[trigger] right[j],
            ) implies all.contains((Some(i), Some(j))) by {
            lemma_contains_in_sum(before, row, (Some(i), Some(j)));
        }
        assert forall|i: int|
            0 <= i < n && unmatched(#[trigger] left[i], right) implies all.contains(
            (Some(i), None::<int>),
        ) by {
            lemma_contains_in_sum(before, row, (Some(i), None::<int>));
        }
    }
}

/// The rows that the unmatched of the first `n` rows of the right table give are rows of the
/// join, and all of them that hold one of these rows alone.
proof fn lemma_right_rows(left: Seq<Cell>, right: Seq<Cell>, n: int)
    requires
        0 <= n <= right.len(),
    ensures
        forall|k: int|
            0 <= k < right_picks(left, left.len() as int, right, n).len() ==> is_join_row(
                #[trigger] right_picks(left, left.len() as int, right, n)[k],
                left,
                right,
            ),
        forall|j: int|
            0 <= j < n && !matched_upto(#[trigger] right[j], left, left.len() as int)
                ==> right_picks(left, left.len() as int, right, n).contains((None::<int>, Some(j))),
    decreases n,
{
    if n > 0 {
        let m = left.len() as int;
        lemma_right_rows(left, right, n - 1);
        let before = right_picks(left, m, right, n - 1);
        let all = right_picks(left, m, right, n);
        assert forall|j: int|
            0 <= j < n && !matched_upto(#[trigger] right[j], left, m) implies all.contains(
            (None::<int>, Some(j)),
        ) by {
            if j == n - 1 {
                assert(all[all.len() - 1] == (None::<int>, Some(j)));
            } else {
                let k = choose|k: int| 0 <= k < before.len() && before[k] == (None::<int>, Some(j));
                assert(all[k] == (None::<int>, Some(j)));
            }
        }
    }
}

/// A full outer join is made of the pairs of rows whose keys match, of the rows of the left
/// table that match no row of the right table, and of the rows of the right table that match
/// no row of the left table: it gives each of these, and nothing else.
pub proof fn lemma_join_rows(left: Seq<Cell>, right: Seq<Cell>)
    ensures
        forall|k: int|
            0 <= k < join_picks(left, right).len() ==> is_join_row(
                #[trigger] join_picks(left, right)[k],
                left,
                right,
            ),
        forall|pick: RowPick|
            is_join_row(pick, left, right) ==> #[trigger] join_picks(left, right).contains(pick),
{
    let m = left.len() as int;
    let n = right.len() as int;
    let first = left_picks(left, right, m);
    let second = right_picks(left, m, right, n);
    let all = join_picks(left, right);
    lemma_left_rows(left, right, m);
    lemma_right_rows(left, right, n);
    assert forall|k: int| 0 <= k < all.len() implies is_join_row(
        #[trigger] all[k],
        left,
        right,
    ) by {
        if k < first.len() {
            assert(all[k] == first[k]);
        } else {
            assert(all[k] == second[k - first.len()]);
        }
    }
    assert forall|pick: RowPick| is_join_row(pick, left, right) implies #[trigger] all.contains(
        pick,
    ) by {
        match pick {
            (Some(i), Some(j)) => {
                assert(keys_match(left[i], right[j]));
                assert(first.contains((Some(i), Some(j))));
            },
            (Some(i), None) => {
                assert(unmatched(left[i], right));
                assert(first.contains((Some(i), None::<int>)));
            },
            (None, Some(j)) => {
                assert(!matched_upto(right[j], left, m));
                assert(second.contains((None::<int>, Some(j))));
            },
            (None, None) => {},
        }
        lemma_contains_in_sum(first, second, pick);
    }
}

/// A full outer join keeps every row of both sides: it has at least as many rows as either.
/// Where the keys of the right side differ from one another, no row of the left side is given
/// twice, and the join has at most as many rows as both sides together. Each row names rows
/// of the two sides.
pub proof fn lemma_join_picks(left: Seq<Cell>, right: Seq<Cell>)
    ensures
        join_picks(left, right).len() >= left.len(),
        join_picks(left, right).len() >= right.len(),
        distinct_keys(right) ==> join_picks(left, right).len() <= left.len() + right.len(),
        forall|k: int|
            0 <= k < join_picks(left, right).len() ==> {
                let p = #[trigger] join_picks(left, right)[k];
                &&& p.0 matches Some(i) ==> 0 <= i < left.len()
                &&& p.1 matches Some(j) ==> 0 <= j < right.len()
            },
{
    let m = left.len() as int;
    let n = right.len() as int;
    lemma_left_picks(left, right, m);
    lemma_right_picks(left, m, right, n);
    lemma_right_rows_kept(left, right, m);
    if distinct_keys(right) {
        lemma_left_picks_exact(left, right, m);
    }
    let first = left_picks(left, right, m);
    let second = right_picks(left, m, right, n);
    let all = join_picks(left, right);
    assert forall|k: int| 0 <= k < all.len() implies {
        let p = #[trigger] all[k];
        &&& p.0 matches Some(i) ==> 0 <= i < left.len()
        &&& p.1 matches Some(j) ==> 0 <= j < right.len()
    } by {
        if k < first.len() {
            assert(all[k] == first[k]);
        } else {
            assert(all[k] == second[k - first.len()]);
        }
    }
}

/// The shape of a join of two tables: it is a table, with the columns of the left side
/// under their names and then those of the right side, and with the rows that `join_picks`
/// gives for the two key columns.
pub proof fn lemma_join_shape(
    left: TableView,
    right: TableView,
    left_on: Seq<char>,
    right_on: Seq<char>,
)
    requires
        table_wf(left),
        table_wf(right),
        spec_join(left, right, left_on, right_on) is Ok,
    ensures
        ({
            let out = spec_join(left, right, left_on, right_on)->Ok_0;
            let l = position_of(table_names(left), left_on)->Some_0;
            let r = position_of(table_names(right), right_on)->Some_0;
            &&& 0 <= l < left.len()
            &&& 0 <= r < right.len()
            &&& left[l].name == left_on
            &&& right[r].name == right_on
            &&& table_wf(out)
            &&& out.len() == left.len() + right.len()
            &&& table_height(out) == join_picks(left[l].cells, right[r].cells).len()
            &&& table_height(out) >= table_height(left)
            &&& table_height(out) >= table_height(right)
            &&& distinct_keys(right[r].cells) ==> table_height(out) <= table_height(left)
                + table_height(right)
            &&& forall|c: int| 0 <= c < left.len() ==> (#[trigger] out[c]).name == left[c].name
            &&& forall|c: int|
                0 <= c < right.len() ==> (#[trigger] out[left.len() + c]).name == joined_name(
                    table_names(left),
                    right[c].name,
                )
        }),
{
    lemma_position_of(table_names(left), left_on);
    lemma_position_of(table_names(right), right_on);
    let l = position_of(table_names(left), left_on)->Some_0;
    let r = position_of(table_names(right), right_on)->Some_0;
    let picks = join_picks(left[l].cells, right[r].cells);
    lemma_join_picks(left[l].cells, right[r].cells);
    let out = join_columns(left, right, picks);
    assert(out == spec_join(left, right, left_on, right_on)->Ok_0);
    assert(left[l].cells.len() == table_height(left));
    assert(right[r].cells.len() == table_height(right));
    assert forall|c: int| 0 <= c < out.len() implies column_wf(#[trigger] out[c])
        && out[c].cells.len() == picks.len() by {
        if c < left.len() {
            let col = left[c];
            assert(out[c] == gather_column(col, col.name, left_sides(picks)));
            assert(column_wf(col));
            assert(col.cells.len() == table_height(left));
            assert forall|k: int| 0 <= k < out[c].cells.len() implies cell_fits(
                #[trigger] out[c].cells[k],
                out[c].dtype,
            ) by {
                let p = picks[k];
                assert(left_sides(picks)[k] == p.0);
            }
        } else {
            let col = right[c - left.len()];
            assert(out[c] == gather_column(
                col,
                joined_name(table_names(left), col.name),
                right_sides(picks),
            ));
            assert(column_wf(col));
            assert(col.cells.len() == table_height(right));
            assert forall|k: int| 0 <= k < out[c].cells.len() implies cell_fits(
                #[trigger] out[c].cells[k],
                out[c].dtype,
            ) by {
                let p = picks[k];
                assert(right_sides(picks)[k] == p.1);
            }
        }
    }
    assert(out[0].cells.len() == picks.len());
    assert(equal_lengths(out));
    assert forall|c: int| 0 <= c < right.len() implies (#[trigger] out[left.len() + c]).name
        == joined_name(table_names(left), right[c].name) by {
        assert(out[left.len() + c] == gather_column(
            right[c],
            joined_name(table_names(left), right[c].name),
            right_sides(picks),
        ));
    }
}

/// The column called `name` stands in a relabelled table where it stood before, under its
/// new name.
pub proof fn lemma_relabelled_position(t: TableView, label: Seq<char>, name: Seq<char>)
    ensures
        position_of(table_names(relabelled(t, label)), prefixed(label, name)) == position_of(
            table_names(t),
            name,
        ),
{
    let old_names = table_names(t);
    let new_names = table_names(relabelled(t, label));
    lemma_position_of(old_names, name);
    lemma_position_of(new_names, prefixed(label, name));
    assert forall|j: int| 0 <= j < old_names.len() implies (new_names[j] == prefixed(label, name)
        <==> old_names[j] == name) by {
        assert(new_names[j] == prefixed(label, old_names[j]));
        if new_names[j] == prefixed(label, name) {
            lemma_prefixed_injective(label, old_names[j], name);
        }
    }
}

/// Whether `name` begins with one of the first `n` of `labels` and a space.
pub open spec fn begins_with_label(name: Seq<char>, labels: Seq<Seq<char>>, n: int) -> bool {
    exists|i: int| 0 <= i < n && (#[trigger] labels[i] + " "@).is_prefix_of(name)
}

/// Combining tables keeps every row of every table: the result is a table with at least as
/// many rows as the tallest of them. Where in each table but the first the dates that are not
/// null differ from one another, it has at most as many rows as all of them together. The
/// name of each of its columns begins with the label of one of the tables and a space.
pub proof fn lemma_combine_shape(tables: Seq<TableView>, labels: Seq<Seq<char>>, n: int)
    requires
        1 <= n <= tables.len(),
        tables.len() == labels.len(),
        forall|i: int| 0 <= i < n ==> table_wf(#[trigger] tables[i]),
        combine_prefix(tables, labels, n) is Ok,
    ensures
        ({
            let out = combine_prefix(tables, labels, n)->Ok_0;
            &&& table_wf(out)
            &&& forall|i: int|
                0 <= i < n ==> table_height(out) >= table_height(#[trigger] tables[i])
            &&& (forall|i: int| 1 <= i < n ==> distinct_dates(#[trigger] tables[i]))
                ==> table_height(out) <= total_height(tables, n)
            &&& forall|c: int|
                0 <= c < out.len() ==> begins_with_label((#[trigger] out[c]).name, labels, n)
        }),
    decreases n,
{
    let out = combine_prefix(tables, labels, n)->Ok_0;
    if n == 1 {
        lemma_relabelled_wf(tables[0], labels[0]);
        assert(total_height(tables, 1) == total_height(tables, 0) + table_height(tables[0]));
        assert forall|c: int| 0 <= c < out.len() implies begins_with_label(
            (#[trigger] out[c]).name,
            labels,
            n,
        ) by {
            lemma_prefix_of_prefixed(labels[0], tables[0][c].name, Seq::empty());
            assert(prefixed(labels[0], tables[0][c].name) + Seq::<char>::empty() =~= out[c].name);
        }
    } else {
        let before = combine_prefix(tables, labels, n - 1)->Ok_0;
        lemma_combine_shape(tables, labels, n - 1);
        let label = labels[n - 1];
        let next = relabelled(tables[n - 1], label);
        lemma_relabelled_wf(tables[n - 1], label);
        let left_on = prefixed(labels[0], date_name());
        let right_on = prefixed(label, date_name());
        lemma_join_shape(before, next, left_on, right_on);
        lemma_relabelled_position(tables[n - 1], label, date_name());
        assert forall|c: int| 0 <= c < out.len() implies begins_with_label(
            (#[trigger] out[c]).name,
            labels,
            n,
        ) by {
            if c < before.len() {
                assert(out[c].name == before[c].name);
                assert(begins_with_label(before[c].name, labels, n - 1));
                let i = choose|i: int| 0 <= i < n - 1 && (#[trigger] labels[i] + " "@).is_prefix_of(
                    before[c].name,
                );
                assert(0 <= i < n && (labels[i] + " "@).is_prefix_of(out[c].name));
            } else {
                let d = c - before.len();
                let own = tables[n - 1][d].name;
                assert(next[d].name == prefixed(label, own));
                assert(out[before.len() + d].name == joined_name(
                    table_names(before),
                    next[d].name,
                ));
                if table_names(before).contains(next[d].name) {
                    lemma_prefix_of_prefixed(label, own, "_right"@);
                } else {
                    lemma_prefix_of_prefixed(label, own, Seq::empty());
                    assert(prefixed(label, own) + Seq::<char>::empty() =~= prefixed(label, own));
                }
                assert((labels[n - 1] + " "@).is_prefix_of(out[c].name));
            }
        }
        if forall|i: int| 1 <= i < n ==> distinct_dates(#[trigger] tables[i]) {
            assert(distinct_dates(tables[n - 1]));
            let r = position_of(table_names(next), right_on)->Some_0;
            assert(next[r].cells == tables[n - 1][r].cells);
            assert(distinct_keys(next[r].cells));
        }
    }
}

/// A name behind a label begins with the label and a space, whatever comes after the name.
pub proof fn lemma_prefix_of_prefixed(label: Seq<char>, name: Seq<char>, tail: Seq<char>)
    ensures
        (label + " "@).is_prefix_of(prefixed(label, name) + tail),
{
    let head = label + " "@;
    let whole = prefixed(label, name) + tail;
    assert(whole.subrange(0, head.len() as int) =~= head);
}

} // verus!
