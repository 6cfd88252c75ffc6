use quote_tables::builder::df_from_quotes;
use quote_tables::join::{combine_dfs, outer_join, relabel, CombineError};
use quote_tables::models::Quote;
use quote_tables::table::{Cell, Column, DataType, Table};

fn texts(list: &[&str]) -> Vec<String> {
    list.iter().map(|s| s.to_string()).collect()
}

fn quote(timestamp: i64, price: f64) -> Quote {
    Quote {
        timestamp,
        open: price.to_bits(),
        high: (price + 1.0).to_bits(),
        low: (price - 1.0).to_bits(),
        volume: timestamp as u64,
        close: price.to_bits(),
        adjclose: price.to_bits(),
    }
}

fn table_of(stamps: &[i64], columns: &[&str]) -> Table {
    let quotes: Vec<Quote> = stamps.iter().map(|&t| quote(t, t as f64)).collect();
    df_from_quotes(&quotes, Some(texts(columns))).unwrap()
}

fn cells(t: &Table, name: &str) -> Vec<Cell> {
    let c = t.get(t.find(name).unwrap()).unwrap();
    (0..c.len()).map(|i| c.get(i).unwrap()).collect()
}

fn number(x: f64) -> Cell {
    Cell::Number(x.to_bits())
}

#[test]
fn two_tables_with_disjoint_dates_give_three_rows() {
    let a = table_of(&[1, 2], &["date", "open"]);
    let b = table_of(&[5], &["date", "open"]);
    let t = combine_dfs(vec![a, b], texts(&["AAA", "BBB"])).unwrap();
    assert_eq!(t.height(), 3);
    assert_eq!(t.column_names(), texts(&["AAA date", "AAA open", "BBB date", "BBB open"]));
    assert_eq!(cells(&t, "AAA date"), vec![Cell::Date(1), Cell::Date(2), Cell::Null]);
    assert_eq!(cells(&t, "AAA open"), vec![number(1.0), number(2.0), Cell::Null]);
    assert_eq!(cells(&t, "BBB date"), vec![Cell::Null, Cell::Null, Cell::Date(5)]);
    assert_eq!(cells(&t, "BBB open"), vec![Cell::Null, Cell::Null, number(5.0)]);
}

#[test]
fn rows_with_the_same_date_are_joined() {
    let a = table_of(&[1, 2, 3], &["date", "close"]);
    let b = table_of(&[3, 1, 4], &["date", "close"]);
    let t = combine_dfs(vec![a, b], texts(&["A", "B"])).unwrap();
    assert_eq!(t.height(), 4);
    assert_eq!(cells(&t, "A date"), vec![Cell::Date(1), Cell::Date(2), Cell::Date(3), Cell::Null]);
    assert_eq!(cells(&t, "B date"), vec![Cell::Date(1), Cell::Null, Cell::Date(3), Cell::Date(4)]);
    assert_eq!(cells(&t, "B close"), vec![number(1.0), Cell::Null, number(3.0), number(4.0)]);
}

#[test]
fn later_tables_join_on_the_first_tables_dates() {
    let a = table_of(&[1, 2], &["date"]);
    let b = table_of(&[2, 3], &["date"]);
    let c = table_of(&[3, 1, 9], &["date"]);
    let t = combine_dfs(vec![a, b, c], texts(&["A", "B", "C"])).unwrap();
    assert_eq!(t.column_names(), texts(&["A date", "B date", "C date"]));
    // The row that only B gave has no date of A, so the 3 of C finds no partner.
    assert_eq!(
        cells(&t, "A date"),
        vec![Cell::Date(1), Cell::Date(2), Cell::Null, Cell::Null, Cell::Null]
    );
    assert_eq!(
        cells(&t, "B date"),
        vec![Cell::Null, Cell::Date(2), Cell::Date(3), Cell::Null, Cell::Null]
    );
    assert_eq!(
        cells(&t, "C date"),
        vec![Cell::Date(1), Cell::Null, Cell::Null, Cell::Date(3), Cell::Date(9)]
    );
}

#[test]
fn row_count_lies_between_the_tallest_and_the_sum() {
    let heights: [&[i64]; 4] = [&[1, 2, 3], &[2, 3, 4, 5], &[], &[3, 10]];
    let tables: Vec<Table> = heights.iter().map(|s| table_of(s, &["date", "low"])).collect();
    let t = combine_dfs(tables, texts(&["W", "X", "Y", "Z"])).unwrap();
    let tallest = heights.iter().map(|s| s.len()).max().unwrap();
    let sum: usize = heights.iter().map(|s| s.len()).sum();
    assert!(t.height() >= tallest);
    assert!(t.height() <= sum);
    assert_eq!(t.height(), 6);
    for name in t.column_names() {
        assert!(["W ", "X ", "Y ", "Z "].iter().any(|label| name.starts_with(label)));
    }
}

#[test]
fn equal_dates_on_both_sides_give_every_pair() {
    let a = table_of(&[7, 7, 7], &["date"]);
    let b = table_of(&[7, 7, 7], &["date"]);
    let t = combine_dfs(vec![a, b], texts(&["A", "B"])).unwrap();
    assert_eq!(t.height(), 9);
}

#[test]
fn one_table_is_only_relabelled() {
    let a = table_of(&[4, 5], &["open", "volume"]);
    let t = combine_dfs(vec![a.clone()], texts(&["T"])).unwrap();
    assert_eq!(t.column_names(), texts(&["T open", "T volume"]));
    assert_eq!(t.height(), 2);
    assert_eq!(cells(&t, "T volume"), vec![Cell::UInt(4), Cell::UInt(5)]);
    assert_eq!(t, relabel(&a, "T"));
}

#[test]
fn no_table_gives_no_data() {
    assert_eq!(combine_dfs(Vec::new(), Vec::new()), Err(CombineError::NoData));
}

#[test]
fn a_join_needs_both_date_columns() {
    let with = table_of(&[1], &["date", "open"]);
    let without = table_of(&[1], &["open"]);
    assert_eq!(
        combine_dfs(vec![with.clone(), without.clone()], texts(&["A", "B"])),
        Err(CombineError::MissingKey)
    );
    assert_eq!(
        combine_dfs(vec![without, with], texts(&["A", "B"])),
        Err(CombineError::MissingKey)
    );
}

#[test]
fn the_first_failure_ends_the_combination() {
    let dated = table_of(&[1], &["date"]);
    let plain = Table::new(vec![
        Column::new("date".to_string(), DataType::Int, vec![Cell::Int(1)]).unwrap(),
    ])
    .unwrap();
    let none = table_of(&[1], &["open"]);
    assert_eq!(
        combine_dfs(vec![dated.clone(), plain.clone(), none.clone()], texts(&["A", "B", "C"])),
        Err(CombineError::KeyTypeMismatch)
    );
    assert_eq!(
        combine_dfs(vec![dated, none, plain], texts(&["A", "B", "C"])),
        Err(CombineError::MissingKey)
    );
}

#[test]
fn a_name_of_the_left_side_gets_a_suffix_on_the_right() {
    let a = table_of(&[1, 2], &["date", "open"]);
    let b = table_of(&[2], &["date", "open"]);
    let t = combine_dfs(vec![a, b], texts(&["S", "S"])).unwrap();
    assert_eq!(
        t.column_names(),
        texts(&["S date", "S open", "S date_right", "S open_right"])
    );
    assert_eq!(cells(&t, "S date_right"), vec![Cell::Null, Cell::Date(2)]);
}

#[test]
fn a_name_that_stays_double_is_refused() {
    let a = table_of(&[1], &["date"]);
    let t = combine_dfs(vec![a.clone(), a.clone(), a], texts(&["S", "S", "S"]));
    assert_eq!(t, Err(CombineError::DuplicateColumn));
}

#[test]
fn null_keys_match_nothing() {
    let left = Table::new(vec![
        Column::new("k".to_string(), DataType::Int, vec![Cell::Null, Cell::Int(1)]).unwrap(),
        Column::new("l".to_string(), DataType::Flag, vec![Cell::Flag(true), Cell::Flag(false)])
            .unwrap(),
    ])
    .unwrap();
    let right = Table::new(vec![
        Column::new("j".to_string(), DataType::Int, vec![Cell::Null, Cell::Int(1), Cell::Int(1)])
            .unwrap(),
    ])
    .unwrap();
    let t = outer_join(&left, &right, "k", "j").unwrap();
    assert_eq!(t.column_names(), texts(&["k", "l", "j"]));
    assert_eq!(cells(&t, "k"), vec![Cell::Null, Cell::Int(1), Cell::Int(1), Cell::Null]);
    assert_eq!(
        cells(&t, "l"),
        vec![Cell::Flag(true), Cell::Flag(false), Cell::Flag(false), Cell::Null]
    );
    assert_eq!(cells(&t, "j"), vec![Cell::Null, Cell::Int(1), Cell::Int(1), Cell::Null]);
    assert_eq!(outer_join(&left, &right, "k", "missing"), Err(CombineError::MissingKey));
    assert_eq!(outer_join(&left, &right, "l", "j"), Err(CombineError::KeyTypeMismatch));
}

#[test]
fn the_same_tables_give_the_same_table() {
    let make = || {
        combine_dfs(
            vec![
                table_of(&[3, 1, 2], &["date", "high"]),
                table_of(&[9, 8, 1, 7], &["date", "high"]),
            ],
            texts(&["A", "B"]),
        )
        .unwrap()
    };
    let first = make();
    for _ in 0..5 {
        assert_eq!(make(), first);
    }
    assert_eq!(
        cells(&first, "B date"),
        vec![Cell::Null, Cell::Date(1), Cell::Null, Cell::Date(9), Cell::Date(8), Cell::Date(7)]
    );
}
