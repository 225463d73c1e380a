//! Properties relating parsing, rendering and conversion.

use crate::amount::{
    all_digits, amount_outcome, amount_value, digit_value, digits_value, fraction_digits,
    integer_digits, is_digit, is_negative_text, lemma_digits_value_prefix_le, valid_amount,
    AmountError,
};
use crate::format::{abs, amount_text, decimal_text, digit_char};
use crate::ledger::{amount_error, ledger_outcome, PostingView};
use vstd::prelude::*;

verus! {

pub proof fn lemma_digit_char_of_value(c: char)
    requires
        is_digit(c),
    ensures
        digit_value(c) < 10,
        digit_char(digit_value(c)) == c,
{
    let s = seq!['0', '1', '2', '3', '4', '5', '6', '7', '8', '9'];
    assert(s[0] == '0' && s[1] == '1' && s[2] == '2' && s[3] == '3' && s[4] == '4');
    assert(s[5] == '5' && s[6] == '6' && s[7] == '7' && s[8] == '8' && s[9] == '9');
}

/// A digit run without a leading zero is printed back as itself.
pub proof fn lemma_decimal_text_of_digits(d: Seq<char>)
    requires
        all_digits(d),
        d.len() >= 1,
        d.len() == 1 || d[0] != '0',
    ensures
        decimal_text(digits_value(d)) == d,
    decreases d.len(),
{
    let p = d.drop_last();
    lemma_digit_char_of_value(d.last());
    if d.len() == 1 {
        assert(digits_value(p) == 0);
        assert(decimal_text(digits_value(d)) =~= d);
    } else {
        assert(p[0] == d[0]);
        lemma_decimal_text_of_digits(p);
        lemma_digits_value_prefix_le(p, 1, p.len() as int);
        assert(p.take(p.len() as int) =~= p);
        assert(p.take(1).drop_last() =~= Seq::<char>::empty());
        assert(digits_value(Seq::<char>::empty()) == 0);
        assert(p.take(1).last() == p[0]);
        assert(digits_value(p.take(1)) == digit_value(p[0]));
        assert(digits_value(p) >= 1);
        let n = digits_value(d);
        assert(n == digits_value(p) * 10 + digit_value(d.last()));
        assert(n / 10 == digits_value(p));
        assert(n % 10 == digit_value(d.last()));
        assert(decimal_text(n) =~= d);
    }
}

/// Text in the shape `-?D+.DD` with no superfluous leading zero and no
/// negative zero: the form in which amounts are printed.
pub open spec fn canonical_amount(t: Seq<char>) -> bool {
    &&& valid_amount(t)
    &&& fraction_digits(t).len() == 2
    &&& (integer_digits(t).len() == 1 || integer_digits(t)[0] != '0')
    &&& !(is_negative_text(t) && amount_value(t) == 0)
}

pub proof fn lemma_split_base(a: nat, b: nat, base: nat)
    requires
        b < base,
    ensures
        (base * a + b) / base == a,
        (base * a + b) % base == b,
{
    assert((base * a + b) / base == a && (base * a + b) % base == b) by (nonlinear_arith)
        requires
            b < base,
    ;
}

pub proof fn lemma_two_digit_value(f: Seq<char>)
    requires
        f.len() == 2,
        all_digits(f),
    ensures
        digits_value(f) == 10 * digit_value(f[0]) + digit_value(f[1]),
        digit_value(f[1]) < 10,
        digit_char(digit_value(f[0])) == f[0],
        digit_char(digit_value(f[1])) == f[1],
{
    assert(is_digit(f[0]) && is_digit(f[1]));
    lemma_digit_char_of_value(f[0]);
    lemma_digit_char_of_value(f[1]);
    let p = f.drop_last();
    assert(p.drop_last() =~= Seq::<char>::empty());
    assert(digits_value(Seq::<char>::empty()) == 0);
    assert(p.last() == f[0]);
    assert(digits_value(p) == digit_value(f[0]));
}

/// Printing the cents parsed from text with two fraction digits gives back
/// that text after a dollar sign.
pub proof fn lemma_format_parse_round_trip(t: Seq<char>)
    requires
        canonical_amount(t),
    ensures
        amount_text(amount_value(t)) == seq!['$'] + t,
{
    let i = integer_digits(t);
    let f = fraction_digits(t);
    lemma_decimal_text_of_digits(i);
    lemma_two_digit_value(f);
    let fv = digits_value(f);
    let m = 100 * digits_value(i) + fv;
    assert(abs(amount_value(t)) == m);
    lemma_split_base(digits_value(i), fv, 100);
    lemma_split_base(digit_value(f[0]), digit_value(f[1]), 10);
    assert(m % 10 == fv % 10) by (nonlinear_arith)
        requires
            m == 100 * digits_value(i) + fv,
    ;
    let sign: Seq<char> = if is_negative_text(t) {
        seq!['-']
    } else {
        Seq::empty()
    };
    assert(t =~= sign + i + seq!['.'] + f);
    assert(amount_text(amount_value(t)) =~= seq!['$'] + t);
}

pub proof fn lemma_decimal_text_digits(n: nat)
    ensures
        all_digits(decimal_text(n)),
        decimal_text(n).len() >= 1,
    decreases n,
{
    let s = seq!['0', '1', '2', '3', '4', '5', '6', '7', '8', '9'];
    assert(forall|k: int| 0 <= k < 10 ==> is_digit(#[trigger] s[k]));
    if n >= 10 {
        lemma_decimal_text_digits(n / 10);
    }
}

/// A negative amount is printed with its minus sign right after the dollar
/// sign, before the whole units; any other amount has no minus sign at all.
pub proof fn lemma_sign_placement(cents: int)
    ensures
        amount_text(cents)[0] == '$',
        cents < 0 ==> amount_text(cents)[1] == '-' && is_digit(amount_text(cents)[2]),
        cents >= 0 ==> is_digit(amount_text(cents)[1]),
        cents >= 0 ==> !amount_text(cents).contains('-'),
{
    let m = abs(cents);
    lemma_decimal_text_digits(m / 100);
    lemma_decimal_text_digits((m % 100) / 10);
    lemma_decimal_text_digits(m % 10);
    assert(decimal_text((m % 100) / 10) == seq![digit_char((m % 100) / 10)]);
    assert(decimal_text(m % 10) == seq![digit_char(m % 10)]);
    let t = amount_text(cents);
    let w = decimal_text(m / 100);
    if cents >= 0 {
        assert(t[1] == w[0]);
        assert forall|k: int| 0 <= k < t.len() implies t[k] != '-' by {
            if 1 <= k < 1 + w.len() {
                assert(t[k] == w[k - 1]);
            }
        }
    } else {
        assert(t[2] == w[0]);
    }
}

pub proof fn lemma_outcome_ok_prefix(rs: Seq<PostingView>, i: int)
    requires
        0 <= i <= rs.len(),
        forall|j: int| 0 <= j < i ==> amount_outcome(#[trigger] rs[j].amount) is Ok,
    ensures
        ledger_outcome(rs.take(i)) is Ok,
    decreases i,
{
    if i > 0 {
        lemma_outcome_ok_prefix(rs, i - 1);
        assert(rs.take(i).drop_last() =~= rs.take(i - 1));
    }
}

/// A posting whose amount text is malformed makes the whole conversion fail:
/// no ledger text comes out. When every earlier amount is accepted, the error
/// names that posting.
pub proof fn lemma_malformed_amount_fails(rs: Seq<PostingView>, i: int)
    requires
        0 <= i < rs.len(),
        !valid_amount(rs[i].amount),
    ensures
        ledger_outcome(rs) is Err,
        (forall|j: int| 0 <= j < i ==> amount_outcome(#[trigger] rs[j].amount) is Ok)
            ==> ledger_outcome(rs) == Err::<Seq<char>, crate::ledger::LedgerError>(
            amount_error(i, AmountError::InvalidFormat),
        ),
{
    assert(rs.take(i + 1).drop_last() =~= rs.take(i));
    assert(rs.take(i + 1).last() == rs[i]);
    crate::ledger::lemma_outcome_error_persists(rs, i + 1);
    if forall|j: int| 0 <= j < i ==> amount_outcome(#[trigger] rs[j].amount) is Ok {
        lemma_outcome_ok_prefix(rs, i);
    }
}

} // verus!
