//! Building a table from a series of quotes.

use crate::models::Quote;
use crate::table::{
    cell_fits, cells_fit, column_wf, columns_view, distinct_names, equal_lengths, table_names,
    tables_view, Cell, Column, ColumnView, DataType, Table, TableError, TableView,
};
use crate::text::{copy_texts, optional_texts, texts};
use vstd::prelude::*;

verus! {

/// The columns that a series of quotes can give.
#[derive(Clone, Copy, Debug, PartialEq, Eq, Structural)]
pub enum ColumnKind {
    Date,
    Open,
    High,
    Low,
    Close,
    Volume,
    AdjClose,
}

/// All kinds, in the order in which a table holds them when no selection is made.
pub open spec fn all_kinds() -> Seq<ColumnKind> {
    seq![
        ColumnKind::Date,
        ColumnKind::Open,
        ColumnKind::High,
        ColumnKind::Low,
        ColumnKind::Close,
        ColumnKind::Volume,
        ColumnKind::AdjClose,
    ]
}

impl ColumnKind {
    /// The name under which a column of this kind stands in a table.
    pub open spec fn spec_name(self) -> Seq<char> {
        match self {
            ColumnKind::Date => "date"@,
            ColumnKind::Open => "open"@,
            ColumnKind::High => "high"@,
            ColumnKind::Low => "low"@,
            ColumnKind::Close => "close"@,
            ColumnKind::Volume => "volume"@,
            ColumnKind::AdjClose => "adjclose"@,
        }
    }

    /// The kind that `name` names, if any.
    pub open spec fn spec_parse(name: Seq<char>) -> Option<ColumnKind> {
        if name == "date"@ {
            Some(ColumnKind::Date)
        } else if name == "open"@ {
            Some(ColumnKind::Open)
        } else if name == "high"@ {
            Some(ColumnKind::High)
        } else if name == "low"@ {
            Some(ColumnKind::Low)
        } else if name == "close"@ {
            Some(ColumnKind::Close)
        } else if name == "volume"@ {
            Some(ColumnKind::Volume)
        } else if name == "adjclose"@ {
            Some(ColumnKind::AdjClose)
        } else {
            None
        }
    }

    /// The type of the cells of a column of this kind.
    pub open spec fn spec_dtype(self) -> DataType {
        match self {
            ColumnKind::Date => DataType::Date,
            ColumnKind::Volume => DataType::UInt,
            _ => DataType::Number,
        }
    }

    /// The cell that `quote` gives to a column of this kind.
    pub open spec fn spec_cell(self, quote: Quote) -> Cell {
        match self {
            ColumnKind::Date => Cell::Date(quote.timestamp),
            ColumnKind::Open => Cell::Number(quote.open),
            ColumnKind::High => Cell::Number(quote.high),
            ColumnKind::Low => Cell::Number(quote.low),
            ColumnKind::Close => Cell::Number(quote.close),
            ColumnKind::Volume => Cell::UInt(quote.volume),
            ColumnKind::AdjClose => Cell::Number(quote.adjclose),
        }
    }

    /// The name under which a column of this kind stands in a table.
    pub fn name(self) -> (r: String)
        ensures
            r@ == self.spec_name(),
    {
        match self {
            ColumnKind::Date => "date".to_owned(),
            ColumnKind::Open => "open".to_owned(),
            ColumnKind::High => "high".to_owned(),
            ColumnKind::Low => "low".to_owned(),
            ColumnKind::Close => "close".to_owned(),
            ColumnKind::Volume => "volume".to_owned(),
            ColumnKind::AdjClose => "adjclose".to_owned(),
        }
    }

    /// Reads a column name. Unknown names give `None`.
    pub fn parse(name: &str) -> (r: Option<ColumnKind>)
        ensures
            r == Self::spec_parse(name@),
    {
        let name = name.to_owned();
        if name == "date".to_owned() {
            Some(ColumnKind::Date)
        } else if name == "open".to_owned() {
            Some(ColumnKind::Open)
        } else if name == "high".to_owned() {
            Some(ColumnKind::High)
        } else if name == "low".to_owned() {
            Some(ColumnKind::Low)
        } else if name == "close".to_owned() {
            Some(ColumnKind::Close)
        } else if name == "volume".to_owned() {
            Some(ColumnKind::Volume)
        } else if name == "adjclose".to_owned() {
            Some(ColumnKind::AdjClose)
        } else {
            None
        }
    }

    /// The type of the cells of a column of this kind.
    pub fn dtype(self) -> (r: DataType)
        ensures
            r == self.spec_dtype(),
    {
        match self {
            ColumnKind::Date => DataType::Date,
            ColumnKind::Volume => DataType::UInt,
            _ => DataType::Number,
        }
    }

    /// The cell that `quote` gives to a column of this kind.
    pub fn cell(self, quote: &Quote) -> (r: Cell)
        ensures
            r == self.spec_cell(*quote),
            cell_fits(r, self.spec_dtype()),
    {
        match self {
            ColumnKind::Date => Cell::Date(quote.timestamp),
            ColumnKind::Open => Cell::Number(quote.open),
            ColumnKind::High => Cell::Number(quote.high),
            ColumnKind::Low => Cell::Number(quote.low),
            ColumnKind::Close => Cell::Number(quote.close),
            ColumnKind::Volume => Cell::UInt(quote.volume),
            ColumnKind::AdjClose => Cell::Number(quote.adjclose),
        }
    }

    /// Every kind is read back from its own name, so two kinds never share a name.
    pub proof fn lemma_parse_name(self)
        ensures
            Self::spec_parse(self.spec_name()) == Some(self),
    {
        reveal_strlit("date");
        reveal_strlit("open");
        reveal_strlit("high");
        reveal_strlit("low");
        reveal_strlit("close");
        reveal_strlit("volume");
        reveal_strlit("adjclose");
        assert("date"@[0] == 'd');
        assert("open"@[0] == 'o');
        assert("high"@[0] == 'h');
        assert("low"@[0] == 'l');
        assert("close"@[0] == 'c');
        assert("volume"@[0] == 'v');
        assert("adjclose"@[0] == 'a');
    }
}

/// The kinds that `names` name, in order. A name that names no kind is passed over.
pub open spec fn recognized(names: Seq<Seq<char>>) -> Seq<ColumnKind>
    decreases names.len(),
{
    if names.len() == 0 {
        Seq::empty()
    } else {
        let rest = recognized(names.drop_last());
        match ColumnKind::spec_parse(names.last()) {
            Some(kind) => rest.push(kind),
            None => rest,
        }
    }
}

/// The kinds that a selection asks for: all of them, in their fixed order, where the selection
/// is absent or empty; else the kinds that it names, in its own order.
pub open spec fn selected_kinds(columns: Option<Seq<Seq<char>>>) -> Seq<ColumnKind> {
    match columns {
        Some(names) => if names.len() == 0 {
            all_kinds()
        } else {
            recognized(names)
        },
        None => all_kinds(),
    }
}

/// The names of `kinds`, in order.
pub open spec fn kind_names(kinds: Seq<ColumnKind>) -> Seq<Seq<char>> {
    kinds.map_values(|k: ColumnKind| k.spec_name())
}

/// The column of kind `kind` over `quotes`: one cell for each quote, in order.
pub open spec fn quote_column(kind: ColumnKind, quotes: Seq<Quote>) -> ColumnView {
    ColumnView {
        name: kind.spec_name(),
        dtype: kind.spec_dtype(),
        cells: quotes.map_values(|q: Quote| kind.spec_cell(q)),
    }
}

/// The table over `quotes` with one column for each of `kinds`, in order.
pub open spec fn quote_table(quotes: Seq<Quote>, kinds: Seq<ColumnKind>) -> TableView {
    kinds.map_values(|k: ColumnKind| quote_column(k, quotes))
}

/// Whether `name` names a kind.
pub open spec fn is_recognized(name: Seq<char>) -> bool {
    ColumnKind::spec_parse(name) is Some
}

/// The names of the kinds that `names` name are the names among `names` that name a kind,
/// in the order of `names`.
pub proof fn lemma_recognized_names(names: Seq<Seq<char>>)
    ensures
        kind_names(recognized(names)) == names.filter(|name: Seq<char>| is_recognized(name)),
    decreases names.len(),
{
    reveal(Seq::filter);
    if names.len() > 0 {
        lemma_recognized_names(names.drop_last());
        let rest = recognized(names.drop_last());
        match ColumnKind::spec_parse(names.last()) {
            Some(kind) => {
                assert(kind.spec_name() == names.last());
                assert(kind_names(rest.push(kind)) =~= kind_names(rest).push(kind.spec_name()));
            },
            None => {},
        }
    } else {
        assert(kind_names(recognized(names)) =~= Seq::empty());
    }
}

/// Two kinds have the same name only if they are the same kind.
pub proof fn lemma_names_tell_kinds(kinds: Seq<ColumnKind>)
    ensures
        distinct_names(kind_names(kinds)) <==> kinds.no_duplicates(),
{
    let names = kind_names(kinds);
    if kinds.no_duplicates() {
        assert forall|i: int, j: int| 0 <= i < j < names.len() implies names[i] != names[j] by {
            kinds[i].lemma_parse_name();
            kinds[j].lemma_parse_name();
        }
    }
    if distinct_names(names) {
        assert forall|i: int, j: int|
            0 <= i < kinds.len() && 0 <= j < kinds.len() && i != j implies kinds[i] != kinds[j] by {
            if i < j {
                assert(names[i] != names[j]);
            } else {
                assert(names[j] != names[i]);
            }
        }
    }
}

/// The kinds of the full table.
fn every_kind() -> (r: Vec<ColumnKind>)
    ensures
        r@ == all_kinds(),
{
    let mut kinds: Vec<ColumnKind> = Vec::new();
    kinds.push(ColumnKind::Date);
    kinds.push(ColumnKind::Open);
    kinds.push(ColumnKind::High);
    kinds.push(ColumnKind::Low);
    kinds.push(ColumnKind::Close);
    kinds.push(ColumnKind::Volume);
    kinds.push(ColumnKind::AdjClose);
    assert(kinds@ =~= all_kinds());
    kinds
}

/// Reads a selection of column names.
pub fn select_kinds(columns: &Option<Vec<String>>) -> (r: Vec<ColumnKind>)
    ensures
        r@ == selected_kinds(optional_texts(*columns)),
{
    match columns {
        None => every_kind(),
        Some(names) => {
            if names.len() == 0 {
                return every_kind();
            }
            let mut kinds: Vec<ColumnKind> = Vec::new();
            let mut i: usize = 0;
            while i < names.len()
                invariant
                    i <= names.len(),
                    kinds@ == recognized(texts(names@).take(i as int)),
                decreases names.len() - i,
            {
                proof {
                    let next = texts(names@).take(i + 1);
                    assert(next.drop_last() =~= texts(names@).take(i as int));
                    assert(next.last() == names@[i as int]@);
                }
                match ColumnKind::parse(names[i].as_str()) {
                    Some(kind) => kinds.push(kind),
                    None => {},
                }
                i += 1;
            }
            assert(texts(names@).take(names.len() as int) =~= texts(names@));
            kinds
        },
    }
}

/// Builds the column of kind `kind` over `quotes`.
pub fn column_from_quotes(kind: ColumnKind, quotes: &Vec<Quote>) -> (c: Column)
    ensures
        c@ == quote_column(kind, quotes@),
{
    let mut cells: Vec<Cell> = Vec::new();
    let mut i: usize = 0;
    while i < quotes.len()
        invariant
            i <= quotes.len(),
            cells@ == quotes@.take(i as int).map_values(|q: Quote| kind.spec_cell(q)),
            cells_fit(cells@, kind.spec_dtype()),
        decreases quotes.len() - i,
    {
        let ghost before = cells@;
        cells.push(kind.cell(&quotes[i]));
        assert(quotes@.take(i + 1) =~= quotes@.take(i as int).push(quotes@[i as int]));
        assert(cells@ =~= quotes@.take(i + 1).map_values(|q: Quote| kind.spec_cell(q)));
        i += 1;
    }
    assert(quotes@.take(quotes.len() as int) =~= quotes@);
    Column::from_parts(kind.name(), kind.dtype(), cells)
}

/// Builds a table from `quotes`: one row for each quote, in order. Where `columns` is absent
/// or empty the table has all seven columns, `date`, `open`, `high`, `low`, `close`, `volume`
/// and `adjclose`, in that order; else it has the columns that `columns` names, in the order
/// of `columns`, and names outside those seven are passed over. A selection that names a
/// column twice is refused.
pub fn df_from_quotes(quotes: &Vec<Quote>, columns: Option<Vec<String>>) -> (r: Result<
    Table,
    TableError,
>)
    ensures
        r is Ok <==> selected_kinds(optional_texts(columns)).no_duplicates(),
        r matches Ok(t) ==> {
            &&& t@ == quote_table(quotes@, selected_kinds(optional_texts(columns)))
            &&& table_names(t@) == kind_names(selected_kinds(optional_texts(columns)))
            &&& (columns matches Some(names) ==> names@.len() > 0 ==> table_names(t@) == texts(
                names@,
            ).filter(|name: Seq<char>| is_recognized(name)))
            &&& forall|i: int| 0 <= i < t@.len() ==> (#[trigger] t@[i]).cells.len() == quotes@.len()
        },
        r matches Err(e) ==> e == TableError::DuplicateName,
{
    proof {
        match optional_texts(columns) {
            Some(names) => lemma_recognized_names(names),
            None => {},
        }
    }
    let kinds = select_kinds(&columns);
    let mut built: Vec<Column> = Vec::new();
    let mut i: usize = 0;
    while i < kinds.len()
        invariant
            i <= kinds.len(),
            columns_view(built@) == quote_table(quotes@, kinds@.take(i as int)),
        decreases kinds.len() - i,
    {
        let ghost before = built@;
        built.push(column_from_quotes(kinds[i], quotes));
        assert(kinds@.take(i + 1) =~= kinds@.take(i as int).push(kinds@[i as int]));
        assert(columns_view(built@) =~= columns_view(before).push(
            quote_column(kinds@[i as int], quotes@),
        ));
        assert(columns_view(built@) =~= quote_table(quotes@, kinds@.take(i + 1)));
        i += 1;
    }
    proof {
        assert(kinds@.take(kinds.len() as int) =~= kinds@);
        let view = columns_view(built@);
        assert(equal_lengths(view));
        assert(table_names(view) =~= kind_names(kinds@));
        lemma_names_tell_kinds(kinds@);
    }
    match Table::new(built) {
        Ok(t) => Ok(t),
        Err(_) => Err(TableError::DuplicateName),
    }
}

/// The column of the timestamps of `quotes`, as plain integers, under the name `date`.
pub open spec fn timestamp_column(quotes: Seq<Quote>) -> ColumnView {
    ColumnView {
        name: ColumnKind::Date.spec_name(),
        dtype: DataType::Int,
        cells: quotes.map_values(|q: Quote| Cell::Int(q.timestamp)),
    }
}

/// The table over `quotes` with all seven columns, the first of them plain integers.
pub open spec fn plain_quote_table(quotes: Seq<Quote>) -> TableView {
    quote_table(quotes, all_kinds()).update(0, timestamp_column(quotes))
}

/// Builds the table of all seven columns over `quotes`, one row for each quote, in order,
/// with the timestamps in the column `date` left as the plain integers that they are.
pub fn get_quotes_polars(quotes: &Vec<Quote>) -> (t: Table)
    ensures
        t@ == plain_quote_table(quotes@),
        table_names(t@) == kind_names(all_kinds()),
        forall|i: int| 0 <= i < t@.len() ==> (#[trigger] t@[i]).cells.len() == quotes@.len(),
{
    let kinds = every_kind();
    let mut stamps: Vec<Cell> = Vec::new();
    let mut i: usize = 0;
    while i < quotes.len()
        invariant
            i <= quotes.len(),
            stamps@ == quotes@.take(i as int).map_values(|q: Quote| Cell::Int(q.timestamp)),
            cells_fit(stamps@, DataType::Int),
        decreases quotes.len() - i,
    {
        stamps.push(Cell::Int(quotes[i].timestamp));
        assert(quotes@.take(i + 1) =~= quotes@.take(i as int).push(quotes@[i as int]));
        assert(stamps@ =~= quotes@.take(i + 1).map_values(|q: Quote| Cell::Int(q.timestamp)));
        i += 1;
    }
    assert(quotes@.take(quotes.len() as int) =~= quotes@);
    let ghost want = plain_quote_table(quotes@);
    let mut built: Vec<Column> = Vec::new();
    built.push(Column::from_parts(ColumnKind::Date.name(), DataType::Int, stamps));
    assert(columns_view(built@) =~= want.take(1));
    let mut k: usize = 1;
    while k < kinds.len()
        invariant
            1 <= k <= kinds.len(),
            kinds@ == all_kinds(),
            want == plain_quote_table(quotes@),
            columns_view(built@) == want.take(k as int),
        decreases kinds.len() - k,
    {
        let ghost before = built@;
        built.push(column_from_quotes(kinds[k], quotes));
        assert(columns_view(built@) =~= columns_view(before).push(want[k as int]));
        assert(want.take(k + 1) =~= want.take(k as int).push(want[k as int]));
        k += 1;
    }
    proof {
        assert(want.take(kinds.len() as int) =~= want);
        assert(table_names(want) =~= kind_names(all_kinds()));
        lemma_names_tell_kinds(all_kinds());
        assert(equal_lengths(want));
        assert forall|i: int| 0 <= i < want.len() implies column_wf(
            #[trigger] want[i],
        ) by {
            if i > 0 {
                assert(want[i] == quote_column(all_kinds()[i], quotes@));
            }
        }
    }
    Table::from_parts(built)
}

/// The tables over each of `responses`, in order, with the columns that `columns` selects.
pub open spec fn quote_tables(responses: Seq<Seq<Quote>>, columns: Option<Seq<Seq<char>>>) -> Seq<
    TableView,
> {
    responses.map_values(|quotes: Seq<Quote>| quote_table(quotes, selected_kinds(columns)))
}

/// The series of quotes of `responses`, in order.
pub open spec fn responses_view(responses: Seq<Vec<Quote>>) -> Seq<Seq<Quote>> {
    responses.map_values(|quotes: Vec<Quote>| quotes@)
}

/// Builds one table for each ticker's series of quotes, in order, each as `df_from_quotes`
/// builds it. A selection that names a column twice is refused where there is a table to
/// build.
pub fn get_quotes_history(responses: &Vec<Vec<Quote>>, columns: &Option<Vec<String>>) -> (r: Result<
    Vec<Table>,
    TableError,
>)
    ensures
        r is Ok <==> responses@.len() == 0 || selected_kinds(
            optional_texts(*columns),
        ).no_duplicates(),
        r matches Ok(tables) ==> tables_view(tables@) == quote_tables(
            responses_view(responses@),
            optional_texts(*columns),
        ),
        r matches Err(e) ==> e == TableError::DuplicateName,
{
    let ghost want = quote_tables(responses_view(responses@), optional_texts(*columns));
    let mut tables: Vec<Table> = Vec::new();
    let mut i: usize = 0;
    while i < responses.len()
        invariant
            i <= responses.len(),
            want == quote_tables(responses_view(responses@), optional_texts(*columns)),
            tables_view(tables@) == want.take(i as int),
            i > 0 ==> selected_kinds(optional_texts(*columns)).no_duplicates(),
        decreases responses.len() - i,
    {
        let selection = match columns {
            Some(names) => Some(copy_texts(names)),
            None => None,
        };
        assert(optional_texts(selection) == optional_texts(*columns));
        match df_from_quotes(&responses[i], selection) {
            Ok(table) => {
                let ghost before = tables@;
                tables.push(table);
                assert(tables_view(tables@) =~= tables_view(before).push(want[i as int]));
                assert(want.take(i + 1) =~= want.take(i as int).push(want[i as int]));
            },
            Err(e) => {
                return Err(e);
            },
        }
        i += 1;
    }
    assert(want.take(responses.len() as int) =~= want);
    Ok(tables)
}

} // verus!
