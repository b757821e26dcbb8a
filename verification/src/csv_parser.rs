//! Card metadata read from a CSV file with a header row.

use vstd::prelude::*;
use crate::text::{nat_decimal, parse_u32, parses_as_u32, str_eq, usize_to_decimal};

verus! {

#[verifier::external_type_specification]
#[verifier::external_body]
pub struct ExCsvError(csv::Error);

/// What the `csv` crate reads from a document with a header row: the header
/// fields, and each later row's fields, or `None` for a row it could not read.
/// `None` overall when the header row itself could not be read.
pub uninterp spec fn csv_document(bytes: Seq<u8>) -> Option<(Seq<Seq<char>>, Seq<Option<Seq<Seq<char>>>>)>;

pub open spec fn fields_view(fields: Vec<String>) -> Seq<Seq<char>> {
    fields@.map_values(|f: String| f@)
}

pub open spec fn row_view(row: Result<Vec<String>, csv::Error>) -> Option<Seq<Seq<char>>> {
    match row {
        Ok(fields) => Some(fields_view(fields)),
        Err(_) => None,
    }
}

/// Reads a CSV document with a header row (`csv::ReaderBuilder` with
/// `has_headers(true)`, then `headers` and `records`). Its result is named by
/// `csv_document`; the reader's rules (quoting, equal row lengths, UTF-8) are
/// the crate's and are not stated here.
#[verifier::external_body]
fn read_csv_document(bytes: &[u8]) -> (res: Result<(Vec<String>, Vec<Result<Vec<String>, csv::Error>>), csv::Error>)
    ensures
        match res {
            Ok((headers, rows)) => csv_document(bytes@) == Some(
                (fields_view(headers), rows@.map_values(|r: Result<Vec<String>, csv::Error>| row_view(r))),
            ),
            Err(_) => csv_document(bytes@) is None,
        },
{
    let mut reader = csv::ReaderBuilder::new().has_headers(true).from_reader(bytes);
    let headers: Vec<String> = reader.headers()?.iter().map(|h| h.to_string()).collect();
    let rows = reader.records().map(|r| r.map(|rec| rec.iter().map(|f| f.to_string()).collect())).collect();
    Ok((headers, rows))
}

/// A card's metadata as a collection's CSV file lists it.
#[derive(Debug, Clone, PartialEq)]
pub struct CardMetadata {
    pub code: String,
    pub title: String,
    pub set_code: String,
    pub set_name: String,
    pub release_date: Option<String>,
    pub side: String,
    pub quantity: u32,
}

#[derive(Debug)]
pub enum CsvError {
    Csv(csv::Error),
    MissingField { row: usize, field: &'static str },
    InvalidQuantity { row: usize, value: String },
}

impl From<csv::Error> for CsvError {
    fn from(err: csv::Error) -> (res: CsvError) {
        CsvError::Csv(err)
    }
}

impl vstd::std_specs::convert::FromSpecImpl<csv::Error> for CsvError {
    open spec fn obeys_from_spec() -> bool {
        true
    }

    open spec fn from_spec(v: csv::Error) -> CsvError {
        CsvError::Csv(v)
    }
}

/// `csv::Error`'s `Display` text. Nothing is stated of it.
#[verifier::external_body]
fn csv_error_text(e: &csv::Error) -> String {
    format!("{}", e)
}

/// The text of a field-level failure, as the error's message gives it.
pub open spec fn failure_message(e: CsvFailure) -> Seq<char> {
    match e {
        CsvFailure::MissingField { row, field } => "Missing required field '"@ + field + "' at row "@
            + nat_decimal(row as nat),
        CsvFailure::InvalidQuantity { row, value } => "Invalid quantity '"@ + value + "' at row "@
            + nat_decimal(row as nat),
        CsvFailure::Unreadable => "CSV error: "@,
    }
}

impl CsvError {
    /// The error's message: the `csv` crate's text after `CSV error: `, or the
    /// missing field or the invalid quantity with its row.
    pub fn message(&self) -> (msg: String)
        ensures
            match self {
                CsvError::Csv(_) => msg@.len() >= 11 && msg@.take(11) == failure_message(failure_of(*self)),
                _ => msg@ == failure_message(failure_of(*self)),
            },
    {
        match self {
            CsvError::Csv(e) => {
                let mut msg = String::from_str("CSV error: ");
                let text = csv_error_text(e);
                msg.append(text.as_str());
                proof {
                    reveal_strlit("CSV error: ");
                    assert(msg@.take(11) =~= "CSV error: "@);
                }
                msg
            },
            CsvError::MissingField { row, field } => {
                let mut msg = String::from_str("Missing required field '");
                msg.append(field);
                msg.append("' at row ");
                let n = usize_to_decimal(*row);
                msg.append(n.as_str());
                msg
            },
            CsvError::InvalidQuantity { row, value } => {
                let mut msg = String::from_str("Invalid quantity '");
                msg.append(value.as_str());
                msg.append("' at row ");
                let n = usize_to_decimal(*row);
                msg.append(n.as_str());
                msg
            },
        }
    }
}

pub struct CardMetadataView {
    pub code: Seq<char>,
    pub title: Seq<char>,
    pub set_code: Seq<char>,
    pub set_name: Seq<char>,
    pub release_date: Option<Seq<char>>,
    pub side: Seq<char>,
    pub quantity: u32,
}

impl View for CardMetadata {
    type V = CardMetadataView;

    open spec fn view(&self) -> CardMetadataView {
        CardMetadataView {
            code: self.code@,
            title: self.title@,
            set_code: self.set_code@,
            set_name: self.set_name@,
            release_date: match self.release_date {
                Some(d) => Some(d@),
                None => None,
            },
            side: self.side@,
            quantity: self.quantity,
        }
    }
}

/// An error of `parse_csv`: an unreadable document or row, a required field
/// missing from a row (counted from 1, the header being row 1), or a quantity
/// that is not a `u32`.
pub enum CsvFailure {
    Unreadable,
    MissingField { row: int, field: Seq<char> },
    InvalidQuantity { row: int, value: Seq<char> },
}

pub open spec fn failure_of(e: CsvError) -> CsvFailure {
    match e {
        CsvError::Csv(_) => CsvFailure::Unreadable,
        CsvError::MissingField { row, field } => CsvFailure::MissingField { row: row as int, field: field@ },
        CsvError::InvalidQuantity { row, value } => CsvFailure::InvalidQuantity { row: row as int, value: value@ },
    }
}

/// The first column whose header is `name`.
pub open spec fn column_of(headers: Seq<Seq<char>>, name: Seq<char>) -> Option<int>
    decreases headers.len(),
{
    if headers.len() == 0 {
        None
    } else {
        match column_of(headers.drop_last(), name) {
            Some(c) => Some(c),
            None => if headers.last() == name {
                Some(headers.len() - 1)
            } else {
                None
            },
        }
    }
}

/// The field of a row under the column headed `name`, if there is one.
pub open spec fn field_named(headers: Seq<Seq<char>>, row: Seq<Seq<char>>, name: Seq<char>) -> Option<Seq<char>> {
    match column_of(headers, name) {
        Some(c) => if c < row.len() {
            Some(row[c])
        } else {
            None
        },
        None => None,
    }
}

/// The row number of the record at `index` (the header is row 1), as far as a
/// `usize` counts.
pub open spec fn row_number(index: int) -> int {
    if index + 2 <= usize::MAX {
        index + 2
    } else {
        usize::MAX as int
    }
}

/// A record as card metadata: `code`, `title`, `set_code`, `set_name`, `side`
/// and `quantity` are required, in that order of checking; `release_date` is
/// optional and an empty one counts as none.
pub open spec fn card_of_row(headers: Seq<Seq<char>>, row: Seq<Seq<char>>, index: int) -> Result<CardMetadataView, CsvFailure> {
    let n = row_number(index);
    if field_named(headers, row, "code"@) is None {
        Err(CsvFailure::MissingField { row: n, field: "code"@ })
    } else if field_named(headers, row, "title"@) is None {
        Err(CsvFailure::MissingField { row: n, field: "title"@ })
    } else if field_named(headers, row, "set_code"@) is None {
        Err(CsvFailure::MissingField { row: n, field: "set_code"@ })
    } else if field_named(headers, row, "set_name"@) is None {
        Err(CsvFailure::MissingField { row: n, field: "set_name"@ })
    } else if field_named(headers, row, "side"@) is None {
        Err(CsvFailure::MissingField { row: n, field: "side"@ })
    } else if field_named(headers, row, "quantity"@) is None {
        Err(CsvFailure::MissingField { row: n, field: "quantity"@ })
    } else {
        let q = field_named(headers, row, "quantity"@)->0;
        match parses_as_u32(q) {
            None => Err(CsvFailure::InvalidQuantity { row: n, value: q }),
            Some(quantity) => Ok(
                CardMetadataView {
                    code: field_named(headers, row, "code"@)->0,
                    title: field_named(headers, row, "title"@)->0,
                    set_code: field_named(headers, row, "set_code"@)->0,
                    set_name: field_named(headers, row, "set_name"@)->0,
                    release_date: match field_named(headers, row, "release_date"@) {
                        Some(d) => if d.len() == 0 {
                            None
                        } else {
                            Some(d)
                        },
                        None => None,
                    },
                    side: field_named(headers, row, "side"@)->0,
                    quantity: quantity,
                },
            ),
        }
    }
}

/// The cards of the first `count` records, or the first failure among them.
pub open spec fn cards_of_rows(headers: Seq<Seq<char>>, rows: Seq<Option<Seq<Seq<char>>>>, count: int) -> Result<Seq<CardMetadataView>, CsvFailure>
    decreases count,
{
    if count <= 0 {
        Ok(Seq::empty())
    } else {
        match cards_of_rows(headers, rows, count - 1) {
            Err(e) => Err(e),
            Ok(cards) => match rows[count - 1] {
                None => Err(CsvFailure::Unreadable),
                Some(row) => match card_of_row(headers, row, count - 1) {
                    Err(e) => Err(e),
                    Ok(card) => Ok(cards.push(card)),
                },
            },
        }
    }
}

/// What `parse_csv` makes of a document.
pub open spec fn parsed_csv(bytes: Seq<u8>) -> Result<Seq<CardMetadataView>, CsvFailure> {
    match csv_document(bytes) {
        None => Err(CsvFailure::Unreadable),
        Some((headers, rows)) => cards_of_rows(headers, rows, rows.len() as int),
    }
}

} // verus!

verus! {

fn column(headers: &Vec<String>, name: &str) -> (res: Option<usize>)
    ensures
        match res {
            Some(c) => column_of(fields_view(*headers), name@) == Some(c as int) && c < headers.len(),
            None => column_of(fields_view(*headers), name@) is None,
        },
{
    let ghost hv = fields_view(*headers);
    let mut j: usize = 0;
    while j < headers.len()
        invariant
            j <= headers.len(),
            hv == fields_view(*headers),
            column_of(hv.take(j as int), name@) is None,
        decreases headers.len() - j,
    {
        proof {
            assert(hv.take(j + 1).drop_last() =~= hv.take(j as int));
            assert(hv.take(j + 1).last() == headers@[j as int]@);
        }
        if str_eq(headers[j].as_str(), name) {
            proof {
                assert(column_of(hv.take(j + 1), name@) == Some(j as int));
                lemma_column_extends(hv, j + 1, name@, j as int);
            }
            return Some(j);
        }
        j += 1;
    }
    assert(hv.take(headers.len() as int) =~= hv);
    None
}

/// A column found among the first headers is the column of the whole header row.
proof fn lemma_column_extends(headers: Seq<Seq<char>>, n: int, name: Seq<char>, c: int)
    requires
        0 <= n <= headers.len(),
        column_of(headers.take(n), name) == Some(c),
    ensures
        column_of(headers, name) == Some(c),
    decreases headers.len() - n,
{
    if n == headers.len() {
        assert(headers.take(n) =~= headers);
    } else {
        assert(headers.take(n + 1).drop_last() =~= headers.take(n));
        lemma_column_extends(headers, n + 1, name, c);
    }
}

/// Once a record fails, every longer run of records fails the same way.
proof fn lemma_failure_persists(
    headers: Seq<Seq<char>>,
    rows: Seq<Option<Seq<Seq<char>>>>,
    k: int,
    m: int,
)
    requires
        0 <= k <= m,
        cards_of_rows(headers, rows, k) is Err,
    ensures
        cards_of_rows(headers, rows, m) == cards_of_rows(headers, rows, k),
    decreases m - k,
{
    if m > k {
        lemma_failure_persists(headers, rows, k, m - 1);
    }
}

fn field(headers: &Vec<String>, row: &Vec<String>, name: &str) -> (res: Option<String>)
    ensures
        match res {
            Some(f) => field_named(fields_view(*headers), fields_view(*row), name@) == Some(f@),
            None => field_named(fields_view(*headers), fields_view(*row), name@) is None,
        },
{
    match column(headers, name) {
        Some(c) => {
            if c < row.len() {
                Some(row[c].clone())
            } else {
                None
            }
        },
        None => None,
    }
}

fn card_from_row(headers: &Vec<String>, row: &Vec<String>, index: usize) -> (res: Result<CardMetadata, CsvError>)
    ensures
        match res {
            Ok(card) => card_of_row(fields_view(*headers), fields_view(*row), index as int) == Ok::<CardMetadataView, CsvFailure>(card@),
            Err(e) => !(e is Csv) && card_of_row(fields_view(*headers), fields_view(*row), index as int) == Err::<CardMetadataView, CsvFailure>(failure_of(e)),
        },
{
    let row_no = index.saturating_add(2);
    proof {
        reveal_strlit("code");
        reveal_strlit("title");
        reveal_strlit("set_code");
        reveal_strlit("set_name");
        reveal_strlit("side");
        reveal_strlit("quantity");
    }
    let code = match field(headers, row, "code") {
        Some(f) => f,
        None => return Err(CsvError::MissingField { row: row_no, field: "code" }),
    };
    let title = match field(headers, row, "title") {
        Some(f) => f,
        None => return Err(CsvError::MissingField { row: row_no, field: "title" }),
    };
    let set_code = match field(headers, row, "set_code") {
        Some(f) => f,
        None => return Err(CsvError::MissingField { row: row_no, field: "set_code" }),
    };
    let set_name = match field(headers, row, "set_name") {
        Some(f) => f,
        None => return Err(CsvError::MissingField { row: row_no, field: "set_name" }),
    };
    let side = match field(headers, row, "side") {
        Some(f) => f,
        None => return Err(CsvError::MissingField { row: row_no, field: "side" }),
    };
    let quantity_text = match field(headers, row, "quantity") {
        Some(f) => f,
        None => return Err(CsvError::MissingField { row: row_no, field: "quantity" }),
    };
    let quantity = match parse_u32(quantity_text.as_str()) {
        Some(q) => q,
        None => return Err(CsvError::InvalidQuantity { row: row_no, value: quantity_text }),
    };
    let release_date = match field(headers, row, "release_date") {
        Some(d) => if d.as_str().is_empty() {
            None
        } else {
            Some(d)
        },
        None => None,
    };
    Ok(CardMetadata { code, title, set_code, set_name, release_date, side, quantity })
}

/// Card metadata from a CSV document's header fields and records, as
/// `cards_of_rows` describes it: every record in order, or the first failure.
pub fn cards_from_records(
    headers: &Vec<String>,
    rows: Vec<Result<Vec<String>, csv::Error>>,
) -> (res: Result<Vec<CardMetadata>, CsvError>)
    ensures
        match res {
            Ok(cards) => cards_of_rows(
                fields_view(*headers),
                rows@.map_values(|r: Result<Vec<String>, csv::Error>| row_view(r)),
                rows.len() as int,
            ) == Ok::<Seq<CardMetadataView>, CsvFailure>(cards@.map_values(|c: CardMetadata| c@)),
            Err(e) => cards_of_rows(
                fields_view(*headers),
                rows@.map_values(|r: Result<Vec<String>, csv::Error>| row_view(r)),
                rows.len() as int,
            ) == Err::<Seq<CardMetadataView>, CsvFailure>(failure_of(e)),
        },
{
    let ghost hv = fields_view(*headers);
    let ghost rv = rows@.map_values(|r: Result<Vec<String>, csv::Error>| row_view(r));
    let ghost n = rows.len();
    let mut cards: Vec<CardMetadata> = Vec::new();
    let mut index: usize = 0;
    assert(cards@.map_values(|c: CardMetadata| c@) =~= Seq::<CardMetadataView>::empty());
    for row in it: rows.into_iter()
        invariant
            index == it.index(),
            it.seq().len() == n,
            rv.len() == n,
            forall|k: int| 0 <= k < n ==> #[trigger] rv[k] == row_view(it.seq()[k]),
            hv == fields_view(*headers),
            rv == rows@.map_values(|r: Result<Vec<String>, csv::Error>| row_view(r)),
            n == rows.len(),
            cards_of_rows(hv, rv, index as int) == Ok::<Seq<CardMetadataView>, CsvFailure>(cards@.map_values(|c: CardMetadata| c@)),
    {
        let ghost before = cards@;
        match row {
            Err(e) => {
                assert(rv[index as int] is None);
                proof {
                    assert(cards_of_rows(hv, rv, index + 1) == Err::<Seq<CardMetadataView>, CsvFailure>(CsvFailure::Unreadable));
                    lemma_failure_persists(hv, rv, index + 1, rv.len() as int);
                }
                return Err(CsvError::Csv(e));
            },
            Ok(fields) => {
                assert(rv[index as int] == Some(fields_view(fields)));
                match card_from_row(headers, &fields, index) {
                    Ok(card) => {
                        cards.push(card);
                        assert(cards@.map_values(|c: CardMetadata| c@) =~= before.map_values(|c: CardMetadata| c@).push(card@));
                    },
                    Err(e) => {
                        proof {
                            assert(cards_of_rows(hv, rv, index + 1) == Err::<Seq<CardMetadataView>, CsvFailure>(failure_of(e)));
                            lemma_failure_persists(hv, rv, index + 1, rv.len() as int);
                        }
                        return Err(e);
                    },
                }
            },
        }
        index += 1;
    }
    Ok(cards)
}

/// Reads card metadata from a CSV document with a header row naming the
/// columns `code`, `title`, `set_code`, `set_name`, `side`, `quantity` and,
/// optionally, `release_date`, in any order.
pub fn parse_csv(bytes: &[u8]) -> (res: Result<Vec<CardMetadata>, CsvError>)
    ensures
        match res {
            Ok(cards) => parsed_csv(bytes@) == Ok::<Seq<CardMetadataView>, CsvFailure>(cards@.map_values(|c: CardMetadata| c@)),
            Err(e) => parsed_csv(bytes@) == Err::<Seq<CardMetadataView>, CsvFailure>(failure_of(e)),
        },
{
    match read_csv_document(bytes) {
        Ok((headers, rows)) => cards_from_records(&headers, rows),
        Err(e) => Err(CsvError::Csv(e)),
    }
}

} // verus!
