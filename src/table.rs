//! Reading export rows from CSV text and mapping their named columns onto
//! posting records.

use crate::ledger::{convert, ledger_outcome, text_result, LedgerError, opt_view, PostingRecord, PostingView, records_view};
use vstd::prelude::*;

verus! {

#[verifier::external_type_specification]
#[verifier::external_body]
pub struct ExCsvError(csv::Error);

/// The rows of fields that CSV text holds, header row included, or `None`
/// where the text is not well-formed CSV (rows of unequal length among them).
pub uninterp spec fn csv_rows(data: Seq<char>) -> Option<Seq<Seq<Seq<char>>>>;

pub open spec fn row_view(row: Seq<String>) -> Seq<Seq<char>> {
    row.map_values(|s: String| s@)
}

pub open spec fn table_view(t: Seq<Vec<String>>) -> Seq<Seq<Seq<char>>> {
    t.map_values(|row: Vec<String>| row_view(row@))
}

/// Relies on csv's `Reader::records` over a reader built with
/// `has_headers(false)`: each record's fields, in order, or its error.
#[verifier::external_body]
fn read_csv_rows(data: &str) -> (r: Result<Vec<Vec<String>>, csv::Error>)
    ensures
        match r {
            Ok(t) => csv_rows(data@) == Some(table_view(t@)),
            Err(_) => csv_rows(data@) is None,
        },
{
    let mut reader = csv::ReaderBuilder::new().has_headers(false).from_reader(data.as_bytes());
    let mut rows: Vec<Vec<String>> = Vec::new();
    for record in reader.records() {
        rows.push(record?.iter().map(String::from).collect());
    }
    Ok(rows)
}

pub open spec fn date_column() -> Seq<char> {
    "Date"@
}

pub open spec fn description_column() -> Seq<char> {
    "Description"@
}

pub open spec fn comment_column() -> Seq<char> {
    "Notes"@
}

pub open spec fn account_column() -> Seq<char> {
    "Full Account Name"@
}

pub open spec fn amount_column() -> Seq<char> {
    "Amount Num"@
}

/// Index of the first header cell equal to `name`.
pub open spec fn column_index(header: Seq<Seq<char>>, name: Seq<char>) -> Option<int>
    decreases header.len(),
{
    if header.len() == 0 {
        None
    } else {
        match column_index(header.drop_last(), name) {
            Some(i) => Some(i),
            None => if header.last() == name {
                Some(header.len() - 1)
            } else {
                None
            },
        }
    }
}

/// The cell of `row` in column `col`; empty where the column or the cell is missing.
pub open spec fn cell(row: Seq<Seq<char>>, col: Option<int>) -> Seq<char> {
    match col {
        Some(i) => if 0 <= i < row.len() {
            row[i]
        } else {
            Seq::empty()
        },
        None => Seq::empty(),
    }
}

/// An optional field: absent where the cell is empty.
pub open spec fn optional_cell(row: Seq<Seq<char>>, col: Option<int>) -> Option<Seq<char>> {
    if cell(row, col).len() == 0 {
        None
    } else {
        Some(cell(row, col))
    }
}

pub open spec fn record_of(header: Seq<Seq<char>>, row: Seq<Seq<char>>) -> PostingView {
    PostingView {
        date: optional_cell(row, column_index(header, date_column())),
        description: optional_cell(row, column_index(header, description_column())),
        comment: optional_cell(row, column_index(header, comment_column())),
        account: cell(row, column_index(header, account_column())),
        amount: cell(row, column_index(header, amount_column())),
    }
}

/// The postings of a table whose first row names the columns. With postings
/// present, the account and amount columns must exist.
pub open spec fn decode_outcome(t: Seq<Seq<Seq<char>>>) -> Result<Seq<PostingView>, LedgerError> {
    if t.len() <= 1 {
        Ok(Seq::empty())
    } else if column_index(t[0], account_column()) is None || column_index(
        t[0],
        amount_column(),
    ) is None {
        Err(LedgerError::MissingColumn)
    } else {
        Ok(t.skip(1).map_values(|row: Seq<Seq<char>>| record_of(t[0], row)))
    }
}

/// Ledger text of a table, or the first error met.
pub open spec fn table_outcome(t: Seq<Seq<Seq<char>>>) -> Result<Seq<char>, LedgerError> {
    match decode_outcome(t) {
        Ok(rs) => ledger_outcome(rs),
        Err(e) => Err(e),
    }
}

fn find_column(header: &Vec<String>, name: &str) -> (r: Option<usize>)
    ensures
        index_view(r) == column_index(row_view(header@), name@),
{
    let ghost h = row_view(header@);
    let target = String::from_str(name);
    let mut j: usize = 0;
    assert(h.take(0) =~= Seq::<Seq<char>>::empty());
    while j < header.len()
        invariant
            j <= header@.len() == h.len(),
            h == row_view(header@),
            target@ == name@,
            column_index(h.take(j as int), name@) is None,
        decreases header@.len() - j,
    {
        assert(h.take(j + 1).drop_last() =~= h.take(j as int));
        if header[j] == target {
            proof {
                lemma_first_column_kept(h, name@, j as int + 1);
            }
            return Some(j);
        }
        j = j + 1;
    }
    assert(h.take(j as int) =~= h);
    None
}

proof fn lemma_first_column_kept(h: Seq<Seq<char>>, name: Seq<char>, k: int)
    requires
        0 <= k <= h.len(),
        column_index(h.take(k), name) is Some,
    ensures
        column_index(h, name) == column_index(h.take(k), name),
    decreases h.len() - k,
{
    if k < h.len() {
        assert(h.take(k + 1).drop_last() =~= h.take(k));
        lemma_first_column_kept(h, name, k + 1);
    } else {
        assert(h.take(k) =~= h);
    }
}

fn get_cell(row: &Vec<String>, col: Option<usize>) -> (r: String)
    ensures
        r@ == cell(row_view(row@), index_view(col)),
{
    match col {
        Some(i) => if i < row.len() {
            row[i].clone()
        } else {
            String::new()
        },
        None => String::new(),
    }
}

fn get_optional_cell(row: &Vec<String>, col: Option<usize>) -> (r: Option<String>)
    ensures
        opt_view(r) == optional_cell(row_view(row@), index_view(col)),
{
    let c = get_cell(row, col);
    if c.unicode_len() == 0 {
        None
    } else {
        Some(c)
    }
}

pub open spec fn index_view(c: Option<usize>) -> Option<int> {
    match c {
        Some(i) => Some(i as int),
        None => None,
    }
}

/// Maps each row after the header onto a posting by the header's column
/// names (`Date`, `Description`, `Notes`, `Full Account Name`, `Amount Num`);
/// other columns are ignored.
pub fn decode_records(table: &Vec<Vec<String>>) -> (r: Result<Vec<PostingRecord>, LedgerError>)
    ensures
        match r {
            Ok(v) => decode_outcome(table_view(table@)) == Ok::<Seq<PostingView>, LedgerError>(
                records_view(v@),
            ),
            Err(e) => decode_outcome(table_view(table@)) == Err::<Seq<PostingView>, LedgerError>(e),
        },
{
    let ghost t = table_view(table@);
    let mut out: Vec<PostingRecord> = Vec::new();
    if table.len() <= 1 {
        assert(records_view(out@) =~= Seq::<PostingView>::empty());
        return Ok(out);
    }
    let header = &table[0];
    assert(t[0] == row_view(header@));
    let account = find_column(header, "Full Account Name");
    let amount = find_column(header, "Amount Num");
    if account.is_none() || amount.is_none() {
        return Err(LedgerError::MissingColumn);
    }
    let date = find_column(header, "Date");
    let description = find_column(header, "Description");
    let comment = find_column(header, "Notes");
    let mut k: usize = 1;
    while k < table.len()
        invariant
            1 <= k <= table@.len() == t.len(),
            t == table_view(table@),
            index_view(date) == column_index(t[0], date_column()),
            index_view(description) == column_index(t[0], description_column()),
            index_view(comment) == column_index(t[0], comment_column()),
            index_view(account) == column_index(t[0], account_column()),
            index_view(amount) == column_index(t[0], amount_column()),
            out@.len() == k - 1,
            forall|j: int| 0 <= j < k - 1 ==> (#[trigger] out@[j])@ == record_of(t[0], t[j + 1]),
        decreases table@.len() - k,
    {
        let row = &table[k];
        assert(t[k as int] == row_view(row@));
        let rec = PostingRecord {
            date: get_optional_cell(row, date),
            description: get_optional_cell(row, description),
            comment: get_optional_cell(row, comment),
            account: get_cell(row, account),
            amount: get_cell(row, amount),
        };
        out.push(rec);
        k = k + 1;
    }
    assert(records_view(out@) =~= t.skip(1).map_values(|row: Seq<Seq<char>>| record_of(t[0], row)));
    Ok(out)
}

/// Reads CSV text whose first row names the columns and renders its postings
/// as ledger text.
pub fn convert_csv(data: &str) -> (r: Result<String, LedgerError>)
    ensures
        match csv_rows(data@) {
            Some(t) => text_result(r) == table_outcome(t),
            None => r == Err::<String, LedgerError>(LedgerError::SourceDecode),
        },
{
    let table = match read_csv_rows(data) {
        Ok(t) => t,
        Err(_) => return Err(LedgerError::SourceDecode),
    };
    let records = match decode_records(&table) {
        Ok(v) => v,
        Err(e) => return Err(e),
    };
    convert(&records)
}

} // verus!
