use quote_tables::builder::{
    column_from_quotes, df_from_quotes, get_quotes_history, get_quotes_polars, select_kinds,
    ColumnKind,
};
use quote_tables::models::Quote;
use quote_tables::table::{Cell, Column, DataType, Table, TableError};

fn names(list: &[&str]) -> Vec<String> {
    list.iter().map(|s| s.to_string()).collect()
}

fn sample() -> Quote {
    Quote {
        timestamp: 1000,
        open: 10.0f64.to_bits(),
        high: 12.0f64.to_bits(),
        low: 9.0f64.to_bits(),
        volume: 100,
        close: 11.0f64.to_bits(),
        adjclose: 11.0f64.to_bits(),
    }
}

fn second() -> Quote {
    Quote {
        timestamp: 2000,
        open: 20.5f64.to_bits(),
        high: 22.0f64.to_bits(),
        low: 19.25f64.to_bits(),
        volume: 7,
        close: f64::NAN.to_bits(),
        adjclose: 21.0f64.to_bits(),
    }
}

#[test]
fn one_quote_without_selection_gives_seven_columns() {
    let t = df_from_quotes(&vec![sample()], None).unwrap();
    assert_eq!(t.width(), 7);
    assert_eq!(t.height(), 1);
    assert_eq!(
        t.column_names(),
        names(&["date", "open", "high", "low", "close", "volume", "adjclose"])
    );
    assert_eq!(t.get(0).unwrap().get(0), Some(Cell::Date(1000)));
    assert_eq!(t.get(1).unwrap().get(0), Some(Cell::Number(10.0f64.to_bits())));
    assert_eq!(t.get(2).unwrap().get(0), Some(Cell::Number(12.0f64.to_bits())));
    assert_eq!(t.get(3).unwrap().get(0), Some(Cell::Number(9.0f64.to_bits())));
    assert_eq!(t.get(4).unwrap().get(0), Some(Cell::Number(11.0f64.to_bits())));
    assert_eq!(t.get(5).unwrap().get(0), Some(Cell::UInt(100)));
    assert_eq!(t.get(6).unwrap().get(0), Some(Cell::Number(11.0f64.to_bits())));
    assert_eq!(t.get(0).unwrap().dtype(), DataType::Date);
    assert_eq!(t.get(1).unwrap().dtype(), DataType::Number);
    assert_eq!(t.get(5).unwrap().dtype(), DataType::UInt);
    assert!(t.get(7).is_none());
}

#[test]
fn one_quote_with_open_and_an_unknown_name_gives_open_only() {
    let t = df_from_quotes(&vec![sample()], Some(names(&["open", "bogus"]))).unwrap();
    assert_eq!(t.width(), 1);
    assert_eq!(t.height(), 1);
    assert_eq!(t.column_names(), names(&["open"]));
    assert_eq!(t.get(0).unwrap().get(0), Some(Cell::Number(10.0f64.to_bits())));
}

#[test]
fn selection_keeps_its_own_order() {
    let quotes = vec![sample(), second()];
    let t = df_from_quotes(&quotes, Some(names(&["volume", "nope", "date", "close"]))).unwrap();
    assert_eq!(t.column_names(), names(&["volume", "date", "close"]));
    assert_eq!(t.height(), 2);
    assert_eq!(t.get(0).unwrap().get(1), Some(Cell::UInt(7)));
    assert_eq!(t.get(1).unwrap().get(1), Some(Cell::Date(2000)));
    assert_eq!(t.get(2).unwrap().get(1), Some(Cell::Number(f64::NAN.to_bits())));
    for i in 0..t.width() {
        assert_eq!(t.get(i).unwrap().len(), quotes.len());
    }
}

#[test]
fn empty_selection_means_all_columns() {
    let t = df_from_quotes(&vec![sample()], Some(Vec::new())).unwrap();
    assert_eq!(t.width(), 7);
    assert_eq!(t.column_names()[0], "date");
}

#[test]
fn only_unknown_names_give_a_table_without_columns() {
    let t = df_from_quotes(&vec![sample(), second()], Some(names(&["bogus", "Open", " open"])))
        .unwrap();
    assert_eq!(t.width(), 0);
    assert_eq!(t.height(), 0);
    assert!(t.column_names().is_empty());
}

#[test]
fn no_quotes_give_columns_without_rows() {
    let t = df_from_quotes(&Vec::new(), None).unwrap();
    assert_eq!(t.width(), 7);
    assert_eq!(t.height(), 0);
    for i in 0..7 {
        assert_eq!(t.get(i).unwrap().len(), 0);
    }
}

#[test]
fn a_column_named_twice_is_refused() {
    let r = df_from_quotes(&vec![sample()], Some(names(&["open", "close", "open"])));
    assert_eq!(r, Err(TableError::DuplicateName));
    let r = df_from_quotes(&vec![sample()], Some(names(&["bogus", "bogus", "low"])));
    assert!(r.is_ok());
}

#[test]
fn kinds_are_read_from_their_names() {
    let all = [
        ColumnKind::Date,
        ColumnKind::Open,
        ColumnKind::High,
        ColumnKind::Low,
        ColumnKind::Close,
        ColumnKind::Volume,
        ColumnKind::AdjClose,
    ];
    for kind in all {
        assert_eq!(ColumnKind::parse(&kind.name()), Some(kind));
    }
    assert_eq!(ColumnKind::parse("adjclose"), Some(ColumnKind::AdjClose));
    assert_eq!(ColumnKind::parse("adj_close"), None);
    assert_eq!(ColumnKind::parse(""), None);
    assert_eq!(select_kinds(&None), all.to_vec());
    assert_eq!(
        select_kinds(&Some(names(&["low", "x", "high"]))),
        vec![ColumnKind::Low, ColumnKind::High]
    );
}

#[test]
fn a_column_holds_one_cell_for_each_quote() {
    let c = column_from_quotes(ColumnKind::Low, &vec![sample(), second()]);
    assert_eq!(c.name(), "low");
    assert_eq!(c.dtype(), DataType::Number);
    assert_eq!(c.len(), 2);
    assert_eq!(c.get(0), Some(Cell::Number(9.0f64.to_bits())));
    assert_eq!(c.get(1), Some(Cell::Number(19.25f64.to_bits())));
    assert_eq!(c.get(2), None);
}

#[test]
fn plain_table_keeps_timestamps_as_integers() {
    let t = get_quotes_polars(&vec![sample(), second()]);
    assert_eq!(
        t.column_names(),
        names(&["date", "open", "high", "low", "close", "volume", "adjclose"])
    );
    assert_eq!(t.height(), 2);
    assert_eq!(t.get(0).unwrap().dtype(), DataType::Int);
    assert_eq!(t.get(0).unwrap().get(0), Some(Cell::Int(1000)));
    assert_eq!(t.get(0).unwrap().get(1), Some(Cell::Int(2000)));
    assert_eq!(t.get(5).unwrap().get(1), Some(Cell::UInt(7)));
    let dated = df_from_quotes(&vec![sample(), second()], None).unwrap();
    for i in 1..7 {
        assert_eq!(t.get(i), dated.get(i));
    }
}

#[test]
fn one_table_is_built_for_each_series() {
    let responses = vec![vec![sample(), second()], vec![], vec![second()]];
    let tables = get_quotes_history(&responses, &Some(names(&["date", "close"]))).unwrap();
    assert_eq!(tables.len(), 3);
    assert_eq!(tables[0].height(), 2);
    assert_eq!(tables[1].height(), 0);
    assert_eq!(tables[2].height(), 1);
    for (table, quotes) in tables.iter().zip(responses.iter()) {
        let alone = df_from_quotes(quotes, Some(names(&["date", "close"]))).unwrap();
        assert_eq!(*table, alone);
    }
    let doubled = Some(names(&["date", "date"]));
    assert_eq!(get_quotes_history(&responses, &doubled), Err(TableError::DuplicateName));
    assert_eq!(get_quotes_history(&Vec::new(), &doubled), Ok(Vec::new()));
}

#[test]
fn a_table_needs_columns_of_one_length_under_distinct_names() {
    let a = Column::new("a".to_string(), DataType::Int, vec![Cell::Int(1), Cell::Null]).unwrap();
    let b = Column::new("b".to_string(), DataType::Flag, vec![Cell::Flag(true)]).unwrap();
    let a2 = Column::new("a".to_string(), DataType::UInt, vec![Cell::UInt(1), Cell::UInt(2)])
        .unwrap();
    assert_eq!(Table::new(vec![a.clone(), b.clone()]), Err(TableError::LengthMismatch));
    assert_eq!(Table::new(vec![a.clone(), a2.clone()]), Err(TableError::DuplicateName));
    assert_eq!(Table::new(vec![b.clone(), a.clone(), a2]), Err(TableError::LengthMismatch));
    let t = Table::new(vec![a.clone()]).unwrap();
    assert_eq!(t.width(), 1);
    assert_eq!(t.height(), 2);
    assert_eq!(t.find("a"), Some(0));
    assert_eq!(t.find("b"), None);
    assert_eq!(t.clone(), t);
    let empty = Table::new(Vec::new()).unwrap();
    assert_eq!(empty.width(), 0);
    assert_eq!(empty.height(), 0);
    assert!(Column::new("c".to_string(), DataType::Int, vec![Cell::UInt(1)]).is_none());
    let dated = Column::new("c".to_string(), DataType::Date, vec![Cell::Null, Cell::Date(3)]);
    assert!(dated.is_some());
    let renamed = a.with_name("z".to_string());
    assert_eq!(renamed.name(), "z");
    assert_eq!(renamed.get(0), Some(Cell::Int(1)));
    assert_eq!(renamed.get(1), Some(Cell::Null));
    assert!(Cell::Null.is_null());
    assert!(!Cell::Int(0).is_null());
    assert!(Cell::Null.fits(DataType::Flag));
    assert!(!Cell::Flag(true).fits(DataType::Int));
}
