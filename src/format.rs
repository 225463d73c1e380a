//! Rendering of signed cents as `$<integer>.<two digits>`.

use vstd::prelude::*;

verus! {

pub open spec fn digit_char(d: nat) -> char {
    seq!['0', '1', '2', '3', '4', '5', '6', '7', '8', '9'][d as int]
}

/// Decimal digits of `n`, without leading zeros.
pub open spec fn decimal_text(n: nat) -> Seq<char>
    decreases n,
{
    if n < 10 {
        seq![digit_char(n)]
    } else {
        decimal_text(n / 10).push(digit_char(n % 10))
    }
}

pub open spec fn abs(v: int) -> nat {
    if v < 0 {
        (-v) as nat
    } else {
        v as nat
    }
}

/// `$`, a minus sign for a negative amount, the whole units, a dot and the
/// cents as exactly two digits: -1005 is `$-10.05`, -5 is `$-0.05`.
pub open spec fn amount_text(cents: int) -> Seq<char> {
    let m = abs(cents);
    let sign: Seq<char> = if cents < 0 {
        seq!['-']
    } else {
        Seq::empty()
    };
    seq!['$'] + sign + decimal_text(m / 100) + seq!['.', digit_char((m % 100) / 10), digit_char(
        m % 10,
    )]
}

/// The one-character text of a decimal digit.
fn digit_str(d: u64) -> (r: &'static str)
    requires
        d < 10,
    ensures
        r@ == seq![digit_char(d as nat)],
{
    let digits = "0123456789";
    proof {
        reveal_strlit("0123456789");
    }
    digits.substring_char(d as usize, d as usize + 1)
}

fn push_decimal(out: &mut String, n: u64)
    ensures
        final(out)@ == old(out)@ + decimal_text(n as nat),
    decreases n,
{
    if n >= 10 {
        push_decimal(out, n / 10);
    }
    out.append(digit_str(n % 10));
    assert(decimal_text(n as nat) =~= if n < 10 {
        Seq::empty().push(digit_char(n as nat))
    } else {
        decimal_text((n / 10) as nat).push(digit_char((n % 10) as nat))
    });
}

/// Renders cents the way a posting line shows them.
pub fn format_amount(cents: i64) -> (r: String)
    ensures
        r@ == amount_text(cents as int),
{
    let m: u64 = if cents < 0 {
        (-(cents as i128)) as u64
    } else {
        cents as u64
    };
    let mut out = String::new();
    proof {
        reveal_strlit("$");
        reveal_strlit("-");
        reveal_strlit(".");
    }
    out.append("$");
    if cents < 0 {
        out.append("-");
    }
    push_decimal(&mut out, m / 100);
    out.append(".");
    out.append(digit_str((m % 100) / 10));
    out.append(digit_str(m % 10));
    assert(m as nat == abs(cents as int));
    assert(out@ =~= amount_text(cents as int));
    out
}

} // verus!
