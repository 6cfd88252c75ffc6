use quote_tables::builder::df_from_quotes;
use quote_tables::models::Quote;
use quote_tables::stats::{
    cell_is_missing, missing_count, missing_count_as_series, missing_percentage,
    missing_values_column, missing_values_count, missing_values_df, missing_values_percentage,
    sum_flags, Fraction,
};
use quote_tables::table::{Cell, Column, DataType, Table};

fn numbers(name: &str, values: &[f64]) -> Column {
    let cells = values.iter().map(|x| Cell::Number(x.to_bits())).collect();
    Column::new(name.to_string(), DataType::Number, cells).unwrap()
}

fn cells(c: &Column) -> Vec<Cell> {
    (0..c.len()).map(|i| c.get(i).unwrap()).collect()
}

#[test]
fn only_not_a_number_is_missing() {
    assert!(cell_is_missing(Cell::Number(f64::NAN.to_bits())));
    assert!(cell_is_missing(Cell::Number((-f64::NAN).to_bits())));
    assert!(cell_is_missing(Cell::Number(0x7ff0_0000_0000_0001)));
    assert!(cell_is_missing(Cell::Number(0xffff_ffff_ffff_ffff)));
    assert!(!cell_is_missing(Cell::Number(f64::INFINITY.to_bits())));
    assert!(!cell_is_missing(Cell::Number(f64::NEG_INFINITY.to_bits())));
    assert!(!cell_is_missing(Cell::Number(0.0f64.to_bits())));
    assert!(!cell_is_missing(Cell::Number((-0.0f64).to_bits())));
    assert!(!cell_is_missing(Cell::Number(f64::MAX.to_bits())));
    assert!(!cell_is_missing(Cell::Number(f64::MIN_POSITIVE.to_bits())));
    assert!(!cell_is_missing(Cell::Null));
    assert!(!cell_is_missing(Cell::UInt(0x7ff8_0000_0000_0000)));
    assert!(!cell_is_missing(Cell::Int(-1)));
    assert!(!cell_is_missing(Cell::Date(0x7ff8_0000_0000_0000)));
    assert!(!cell_is_missing(Cell::Flag(true)));
    for x in [1.5f64, -3.0, 1e300, f64::NAN, f64::INFINITY, 0.0] {
        assert_eq!(cell_is_missing(Cell::Number(x.to_bits())), x.is_nan());
    }
}

#[test]
fn mask_has_one_flag_for_each_row() {
    let c = numbers("close", &[1.0, f64::NAN, 3.0, f64::NAN]);
    let mask = missing_values_column(&c);
    assert_eq!(mask.name(), "close");
    assert_eq!(mask.dtype(), DataType::Flag);
    assert_eq!(
        cells(&mask),
        vec![Cell::Flag(false), Cell::Flag(true), Cell::Flag(false), Cell::Flag(true)]
    );
}

#[test]
fn count_is_the_sum_of_the_mask() {
    let columns = [
        numbers("a", &[]),
        numbers("b", &[f64::NAN]),
        numbers("c", &[1.0, 2.0]),
        numbers("d", &[f64::NAN, 0.5, f64::NAN, f64::NAN, 7.0]),
        Column::new("e".to_string(), DataType::Date, vec![Cell::Date(1), Cell::Null]).unwrap(),
    ];
    let expected = [0u64, 1, 0, 3, 0];
    for (c, want) in columns.iter().zip(expected) {
        let mask = missing_values_column(c);
        let by_hand = cells(&mask).iter().filter(|f| **f == Cell::Flag(true)).count() as u64;
        assert_eq!(missing_count(c), want);
        assert_eq!(sum_flags(&mask), want);
        assert_eq!(by_hand, want);
    }
}

#[test]
fn share_is_count_over_length() {
    let c = numbers("d", &[f64::NAN, 0.5, f64::NAN, f64::NAN, 7.0]);
    let share = missing_percentage(&c);
    assert_eq!(share, Fraction { numerator: 3, denominator: 5 });
    assert_eq!(share.numerator as f64 / share.denominator as f64, 0.6);
    let none = missing_percentage(&numbers("c", &[1.0, 2.0]));
    assert_eq!(none, Fraction { numerator: 0, denominator: 2 });
    let all = missing_percentage(&numbers("b", &[f64::NAN]));
    assert_eq!(all, Fraction { numerator: 1, denominator: 1 });
}

#[test]
fn share_of_a_column_without_rows_is_zero() {
    let share = missing_percentage(&numbers("a", &[]));
    assert_eq!(share, Fraction { numerator: 0, denominator: 1 });
    assert_eq!(share.numerator as f64 / share.denominator as f64, 0.0);
}

#[test]
fn count_column_is_named_after_the_column() {
    let counted = missing_count_as_series(&numbers("adjclose", &[f64::NAN, 1.0, f64::NAN]));
    assert_eq!(counted.name(), "Missing count adjclose");
    assert_eq!(counted.dtype(), DataType::UInt);
    assert_eq!(cells(&counted), vec![Cell::UInt(2)]);
}

fn quotes() -> Vec<Quote> {
    let nan = f64::NAN.to_bits();
    let one = 1.0f64.to_bits();
    let quote = |timestamp: i64, open: u64, close: u64| Quote {
        timestamp,
        open,
        high: nan,
        low: one,
        volume: 4 + timestamp as u64,
        close,
        adjclose: one,
    };
    vec![quote(1, one, nan), quote(2, one, one), quote(3, nan, one)]
}

#[test]
fn mask_of_a_table_keeps_names_and_order() {
    let t = df_from_quotes(&quotes(), None).unwrap();
    let masks = missing_values_df(&t);
    assert_eq!(masks.column_names(), t.column_names());
    assert_eq!(masks.height(), 3);
    for i in 0..t.width() {
        assert_eq!(*masks.get(i).unwrap(), missing_values_column(t.get(i).unwrap()));
    }
    let flags = |name: &str| cells(masks.get(masks.find(name).unwrap()).unwrap());
    assert_eq!(flags("date"), vec![Cell::Flag(false); 3]);
    assert_eq!(flags("open"), vec![Cell::Flag(false), Cell::Flag(false), Cell::Flag(true)]);
    assert_eq!(flags("high"), vec![Cell::Flag(true); 3]);
    assert_eq!(flags("volume"), vec![Cell::Flag(false); 3]);
    assert_eq!(flags("close"), vec![Cell::Flag(true), Cell::Flag(false), Cell::Flag(false)]);
}

#[test]
fn counts_of_a_table_are_one_row() {
    let t = df_from_quotes(&quotes(), None).unwrap();
    let counts = missing_values_count(&t);
    assert_eq!(counts.width(), 7);
    assert_eq!(counts.height(), 1);
    let names: Vec<String> =
        t.column_names().iter().map(|n| format!("Missing count {}", n)).collect();
    assert_eq!(counts.column_names(), names);
    let values: Vec<Cell> = (0..7).map(|i| counts.get(i).unwrap().get(0).unwrap()).collect();
    assert_eq!(
        values,
        vec![
            Cell::UInt(0),
            Cell::UInt(1),
            Cell::UInt(3),
            Cell::UInt(0),
            Cell::UInt(1),
            Cell::UInt(0),
            Cell::UInt(0)
        ]
    );
    for i in 0..7 {
        assert_eq!(
            counts.get(i).unwrap().get(0),
            Some(Cell::UInt(missing_count(t.get(i).unwrap())))
        );
    }
}

#[test]
fn shares_of_a_table_are_one_for_each_column() {
    let t = df_from_quotes(&quotes(), None).unwrap();
    let shares = missing_values_percentage(&t);
    let share = |numerator: u64| Fraction { numerator, denominator: 3 };
    assert_eq!(
        shares,
        vec![share(0), share(1), share(3), share(0), share(1), share(0), share(0)]
    );
    for i in 0..t.width() {
        assert_eq!(shares[i], missing_percentage(t.get(i).unwrap()));
    }
    let no_rows = df_from_quotes(&Vec::new(), Some(vec!["open".to_string()])).unwrap();
    let zero = Fraction { numerator: 0, denominator: 1 };
    assert_eq!(missing_values_percentage(&no_rows), vec![zero]);
    assert!(missing_values_percentage(&Table::new(Vec::new()).unwrap()).is_empty());
}

#[test]
fn masks_and_counts_of_a_table_without_columns_have_none() {
    let empty = Table::new(Vec::new()).unwrap();
    assert_eq!(missing_values_df(&empty).width(), 0);
    assert_eq!(missing_values_count(&empty).width(), 0);
    assert_eq!(missing_values_count(&empty).height(), 0);
}
