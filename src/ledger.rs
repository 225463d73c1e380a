//! Posting records and their rendering as ledger text.

use crate::amount::{amount_outcome, amount_to_cents, AmountError};
use crate::format::{amount_text, format_amount};
use vstd::prelude::*;

verus! {

/// One row of the export: one posting of a transaction. `date` and
/// `description` are set on the first posting of a transaction only.
pub struct PostingRecord {
    pub date: Option<String>,
    pub description: Option<String>,
    pub comment: Option<String>,
    pub account: String,
    /// Decimal text of the form `-?D+(.D{1,2})?`.
    pub amount: String,
}

pub struct PostingView {
    pub date: Option<Seq<char>>,
    pub description: Option<Seq<char>>,
    pub comment: Option<Seq<char>>,
    pub account: Seq<char>,
    pub amount: Seq<char>,
}

pub open spec fn opt_view(o: Option<String>) -> Option<Seq<char>> {
    match o {
        Some(s) => Some(s@),
        None => None,
    }
}

impl View for PostingRecord {
    type V = PostingView;

    open spec fn view(&self) -> PostingView {
        PostingView {
            date: opt_view(self.date),
            description: opt_view(self.description),
            comment: opt_view(self.comment),
            account: self.account@,
            amount: self.amount@,
        }
    }
}

/// Why a conversion failed.
#[derive(Clone, Copy, Debug, PartialEq, Eq, Structural)]
pub enum LedgerError {
    /// The tabular text could not be read as rows of fields.
    SourceDecode,
    /// There are postings, but the header lacks a mandatory column.
    MissingColumn,
    /// The amount of the posting at `row` (counted from 0) is malformed.
    InvalidAmountFormat { row: usize },
    /// The amount of the posting at `row` does not fit in `i64` cents.
    AmountOutOfRange { row: usize },
}

pub open spec fn amount_error(row: int, e: AmountError) -> LedgerError {
    match e {
        AmountError::InvalidFormat => LedgerError::InvalidAmountFormat { row: row as usize },
        AmountError::OutOfRange => LedgerError::AmountOutOfRange { row: row as usize },
    }
}

pub open spec fn indent() -> Seq<char> {
    seq![' ', ' ', ' ', ' ']
}

pub open spec fn comment_prefix() -> Seq<char> {
    indent() + seq![';', ' ']
}

/// A blank line and `date description`, for a posting that opens a transaction.
pub open spec fn header_text(r: PostingView) -> Seq<char> {
    match (r.date, r.description) {
        (Some(d), Some(t)) => seq!['\n'] + d + seq![' '] + t + seq!['\n'],
        _ => Seq::empty(),
    }
}

/// The comment with each line break followed by a fresh comment prefix.
pub open spec fn comment_body(c: Seq<char>) -> Seq<char>
    decreases c.len(),
{
    if c.len() == 0 {
        Seq::empty()
    } else {
        comment_body(c.drop_last()) + if c.last() == '\n' {
            seq!['\n'] + comment_prefix()
        } else {
            seq![c.last()]
        }
    }
}

/// One `    ; <line>` line for each line of the comment.
pub open spec fn comment_text(c: Option<Seq<char>>) -> Seq<char> {
    match c {
        Some(c) => comment_prefix() + comment_body(c) + seq!['\n'],
        None => Seq::empty(),
    }
}

/// `    <account>    <amount>`.
pub open spec fn posting_text(account: Seq<char>, cents: int) -> Seq<char> {
    indent() + account + indent() + amount_text(cents) + seq!['\n']
}

pub open spec fn record_text(r: PostingView, cents: int) -> Seq<char> {
    header_text(r) + comment_text(r.comment) + posting_text(r.account, cents)
}

/// The ledger text of a run of postings, or the error of the first posting
/// whose amount is refused.
pub open spec fn ledger_outcome(rs: Seq<PostingView>) -> Result<Seq<char>, LedgerError>
    decreases rs.len(),
{
    if rs.len() == 0 {
        Ok(Seq::empty())
    } else {
        match ledger_outcome(rs.drop_last()) {
            Err(e) => Err(e),
            Ok(t) => match amount_outcome(rs.last().amount) {
                Ok(c) => Ok(t + record_text(rs.last(), c)),
                Err(e) => Err(amount_error(rs.len() - 1, e)),
            },
        }
    }
}

pub open spec fn records_view(rs: Seq<PostingRecord>) -> Seq<PostingView> {
    rs.map_values(|r: PostingRecord| r@)
}

pub open spec fn text_result(r: Result<String, LedgerError>) -> Result<Seq<char>, LedgerError> {
    match r {
        Ok(s) => Ok(s@),
        Err(e) => Err(e),
    }
}

pub proof fn lemma_outcome_error_persists(rs: Seq<PostingView>, i: int)
    requires
        0 <= i <= rs.len(),
        ledger_outcome(rs.take(i)) is Err,
    ensures
        ledger_outcome(rs) == ledger_outcome(rs.take(i)),
    decreases rs.len() - i,
{
    if i < rs.len() {
        assert(rs.take(i + 1).drop_last() =~= rs.take(i));
        assert(ledger_outcome(rs.take(i + 1)) == ledger_outcome(rs.take(i)));
        lemma_outcome_error_persists(rs, i + 1);
    } else {
        assert(rs.take(i) =~= rs);
    }
}

fn write_header(out: &mut String, r: &PostingRecord)
    ensures
        final(out)@ == old(out)@ + header_text(r@),
{
    match (&r.date, &r.description) {
        (Some(d), Some(t)) => {
            proof {
                reveal_strlit("\n");
                reveal_strlit(" ");
            }
            out.append("\n");
            out.append(d.as_str());
            out.append(" ");
            out.append(t.as_str());
            out.append("\n");
            assert(final(out)@ =~= old(out)@ + header_text(r@));
        },
        _ => {
            assert(final(out)@ =~= old(out)@ + header_text(r@));
        },
    }
}

fn write_comment(out: &mut String, c: &str)
    ensures
        final(out)@ == old(out)@ + comment_text(Some(c@)),
{
    proof {
        reveal_strlit("    ; ");
        reveal_strlit("\n");
        assert("    ; "@ =~= comment_prefix());
    }
    let ghost start = out@;
    out.append("    ; ");
    let n = c.unicode_len();
    let mut i: usize = 0;
    while i < n
        invariant
            i <= n == c@.len(),
            out@ == start + comment_prefix() + comment_body(c@.take(i as int)),
        decreases n - i,
    {
        let ch = c.get_char(i);
        assert(c@.take(i + 1).drop_last() =~= c@.take(i as int));
        assert(c@.take(i + 1).last() == ch);
        let ghost before = out@;
        proof {
            reveal_strlit("    ; ");
            reveal_strlit("\n");
        }
        if ch == '\n' {
            out.append("\n");
            out.append("    ; ");
            assert(out@ =~= before + (seq!['\n'] + comment_prefix()));
        } else {
            let one = c.substring_char(i, i + 1);
            assert(one@ =~= seq![ch]);
            out.append(one);
            assert(out@ =~= before + seq![ch]);
        }
        assert(out@ =~= start + comment_prefix() + comment_body(c@.take(i + 1)));
        i = i + 1;
    }
    out.append("\n");
    assert(c@.take(n as int) =~= c@);
    assert(out@ =~= start + comment_text(Some(c@)));
}

fn write_posting(out: &mut String, account: &str, cents: i64)
    ensures
        final(out)@ == old(out)@ + posting_text(account@, cents as int),
{
    proof {
        reveal_strlit("    ");
        reveal_strlit("\n");
    }
    out.append("    ");
    out.append(account);
    out.append("    ");
    let a = format_amount(cents);
    out.append(a.as_str());
    out.append("\n");
    assert(final(out)@ =~= old(out)@ + posting_text(account@, cents as int));
}

/// Renders postings as ledger text: a blank line and a header where a posting
/// carries both a date and a description, its comment lines, then its
/// account and amount. Fails on the first posting whose amount is refused.
pub fn convert(records: &Vec<PostingRecord>) -> (r: Result<String, LedgerError>)
    ensures
        text_result(r) == ledger_outcome(records_view(records@)),
{
    let ghost rs = records_view(records@);
    let mut out = String::new();
    let mut i: usize = 0;
    assert(rs.take(0) =~= Seq::<PostingView>::empty());
    while i < records.len()
        invariant
            i <= records@.len() == rs.len(),
            rs == records_view(records@),
            ledger_outcome(rs.take(i as int)) == Ok::<Seq<char>, LedgerError>(out@),
        decreases records@.len() - i,
    {
        let rec = &records[i];
        assert(rs.take(i + 1).drop_last() =~= rs.take(i as int));
        assert(rs.take(i + 1).last() == rec@);
        let cents = match amount_to_cents(rec.amount.as_str()) {
            Ok(c) => c,
            Err(e) => {
                let err = match e {
                    AmountError::InvalidFormat => LedgerError::InvalidAmountFormat { row: i },
                    AmountError::OutOfRange => LedgerError::AmountOutOfRange { row: i },
                };
                proof {
                    lemma_outcome_error_persists(rs, i + 1);
                }
                return Err(err);
            },
        };
        write_header(&mut out, rec);
        match &rec.comment {
            Some(c) => write_comment(&mut out, c.as_str()),
            None => {},
        }
        write_posting(&mut out, rec.account.as_str(), cents);
        assert(out@ =~= ledger_outcome(rs.take(i as int))->Ok_0 + record_text(rec@, cents as int));
        i = i + 1;
    }
    assert(rs.take(i as int) =~= rs);
    Ok(out)
}

} // verus!
