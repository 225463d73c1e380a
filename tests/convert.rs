use ledger_convert::ledger::{convert, LedgerError, PostingRecord};
use ledger_convert::table::{convert_csv, decode_records};

const HEADER: &str = "Date,Transaction ID,Number,Description,Notes,Commodity/Currency,Void Reason,Action,Memo,Full Account Name,Account Name,Amount With Sym.,Amount Num,Reconcile,Reconcile Date,Rate/Price\n";

fn with_header(rows: &str) -> String {
    format!("{}{}", HEADER, rows)
}

fn posting(account: &str, amount: &str) -> PostingRecord {
    PostingRecord {
        date: None,
        description: None,
        comment: None,
        account: account.to_string(),
        amount: amount.to_string(),
    }
}

#[test]
fn transaction() {
    let data = with_header(
        "2000-01-01,00000000000000000000000000000000,,Shop,,CURRENCY::AUD,,,,Expenses:Groceries,Groceries,$10.00,10.00,n,,1.00
,,,,,,,,,Assets:Wallet,Wallet,-$10.00,-10.00,n,,1.00
",
    );
    let result = convert_csv(&data).unwrap();
    assert_eq!(
        result,
        "\n2000-01-01 Shop\n    Expenses:Groceries    $10.00\n    Assets:Wallet    $-10.00\n"
    );
}

#[test]
fn transaction_with_three_postings() {
    let data = with_header(
        "2000-01-01,00000000000000000000000000000000,,Shop,,CURRENCY::AUD,,,,Expenses:Groceries,Groceries,$20.00,20.00,n,,1.00
,,,,,,,,,Assets:Wallet,Wallet,-$10.00,-10.00,n,,1.00
,,,,,,,,,Assets:Bank,Bank,-$10.00,-10.00,n,,1.00
",
    );
    let result = convert_csv(&data).unwrap();
    assert_eq!(
        result,
        "\n2000-01-01 Shop\n    Expenses:Groceries    $20.00\n    Assets:Wallet    $-10.00\n    Assets:Bank    $-10.00\n"
    );
    assert_eq!(result.matches("2000-01-01 Shop").count(), 1);
}

#[test]
fn transaction_with_comment() {
    let data = with_header(
        "2000-01-01,00000000000000000000000000000000,,Shop,Comment,CURRENCY::AUD,,,,Expenses:Groceries,Groceries,$10.00,10.00,n,,1.00
,,,,,,,,,Assets:Wallet,Wallet,-$10.00,-10.00,n,,1.00
",
    );
    let result = convert_csv(&data).unwrap();
    assert_eq!(
        result,
        "\n2000-01-01 Shop\n    ; Comment\n    Expenses:Groceries    $10.00\n    Assets:Wallet    $-10.00\n"
    );
}

#[test]
fn transaction_with_multi_line_comment() {
    let data = with_header(
        "2000-01-01,00000000000000000000000000000000,,Shop,\"Comment 1\nComment 2\",CURRENCY::AUD,,,,Expenses:Groceries,Groceries,$10.00,10.00,n,,1.00
,,,,,,,,,Assets:Wallet,Wallet,-$10.00,-10.00,n,,1.00
",
    );
    let result = convert_csv(&data).unwrap();
    assert_eq!(
        result,
        "\n2000-01-01 Shop\n    ; Comment 1\n    ; Comment 2\n    Expenses:Groceries    $10.00\n    Assets:Wallet    $-10.00\n"
    );
}

#[test]
fn records_render_without_csv() {
    let mut first = posting("Expenses:Groceries", "10.00");
    first.date = Some("2000-01-01".to_string());
    first.description = Some("Shop".to_string());
    let records = vec![first, posting("Assets:Wallet", "-10.00")];
    assert_eq!(
        convert(&records).unwrap(),
        "\n2000-01-01 Shop\n    Expenses:Groceries    $10.00\n    Assets:Wallet    $-10.00\n"
    );
}

#[test]
fn header_needs_both_date_and_description() {
    let mut only_date = posting("A", "1.00");
    only_date.date = Some("2000-01-01".to_string());
    assert_eq!(convert(&vec![only_date]).unwrap(), "    A    $1.00\n");
}

#[test]
fn postings_before_any_header_are_kept() {
    let records = vec![posting("A", "1.00"), posting("B", "-1.00")];
    assert_eq!(convert(&records).unwrap(), "    A    $1.00\n    B    $-1.00\n");
}

#[test]
fn headers_repeat_for_each_transaction() {
    let data = with_header(
        "2000-01-01,x,,Shop,,,,,,A,A,,1.00,n,,1.00
,,,,,,,,,B,B,,-1.00,n,,1.00
2000-01-02,y,,Cafe,,,,,,C,C,,2.5,n,,1.00
",
    );
    assert_eq!(
        convert_csv(&data).unwrap(),
        "\n2000-01-01 Shop\n    A    $1.00\n    B    $-1.00\n\n2000-01-02 Cafe\n    C    $2.05\n"
    );
}

#[test]
fn comment_with_empty_lines() {
    let mut p = posting("A", "0.01");
    p.comment = Some("x\n\ny\n".to_string());
    assert_eq!(
        convert(&vec![p]).unwrap(),
        "    ; x\n    ; \n    ; y\n    ; \n    A    $0.01\n"
    );
}

#[test]
fn empty_input_gives_empty_ledger() {
    assert_eq!(convert(&Vec::new()).unwrap(), "");
    assert_eq!(convert_csv("").unwrap(), "");
    assert_eq!(convert_csv(HEADER).unwrap(), "");
}

#[test]
fn malformed_amount_fails_whole_conversion() {
    for bad in ["12.345", "abc", "$10"] {
        let data = with_header(&format!(
            "2000-01-01,x,,Shop,,,,,,A,A,,1.00,n,,1.00\n,,,,,,,,,B,B,,{},n,,1.00\n",
            bad
        ));
        assert_eq!(
            convert_csv(&data),
            Err(LedgerError::InvalidAmountFormat { row: 1 })
        );
    }
}

#[test]
fn first_refused_amount_is_reported() {
    let records = vec![
        posting("A", "1.00"),
        posting("B", "99999999999999999999"),
        posting("C", "x"),
    ];
    assert_eq!(
        convert(&records),
        Err(LedgerError::AmountOutOfRange { row: 1 })
    );
}

#[test]
fn missing_mandatory_column_fails() {
    let data = "Date,Description,Full Account Name\n2000-01-01,Shop,A\n";
    assert_eq!(convert_csv(data), Err(LedgerError::MissingColumn));
    assert_eq!(convert_csv("Date,Description,Full Account Name\n").unwrap(), "");
}

#[test]
fn unequal_rows_are_a_decode_error() {
    let data = "Full Account Name,Amount Num\nA,1.00,extra\n";
    assert_eq!(convert_csv(data), Err(LedgerError::SourceDecode));
}

#[test]
fn columns_are_found_by_name() {
    let table = vec![
        vec!["Amount Num".to_string(), "Notes".to_string(), "Full Account Name".to_string()],
        vec!["-3.07".to_string(), "".to_string(), "Assets:Bank".to_string()],
        vec!["4".to_string(), "hi".to_string(), "Assets:Cash".to_string()],
    ];
    let records = decode_records(&table).unwrap();
    assert_eq!(records.len(), 2);
    assert_eq!(records[0].amount, "-3.07");
    assert_eq!(records[0].account, "Assets:Bank");
    assert_eq!(records[0].comment, None);
    assert_eq!(records[0].date, None);
    assert_eq!(records[1].comment, Some("hi".to_string()));
    assert_eq!(
        convert(&records).unwrap(),
        "    Assets:Bank    $-3.07\n    ; hi\n    Assets:Cash    $4.00\n"
    );
}
