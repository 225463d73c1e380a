//! Exact parsing of decimal amount text into signed integer cents.

use vstd::prelude::*;

verus! {

/// Why an amount text was refused.
#[derive(Clone, Copy, Debug, PartialEq, Eq, Structural)]
pub enum AmountError {
    /// The text is not `-?D+(.D{1,2})?`.
    InvalidFormat,
    /// The text is well formed but its cent value does not fit in an `i64`.
    OutOfRange,
}

pub open spec fn is_digit(c: char) -> bool {
    '0' <= c && c <= '9'
}

pub open spec fn all_digits(s: Seq<char>) -> bool {
    forall|i: int| 0 <= i < s.len() ==> is_digit(#[trigger] s[i])
}

pub open spec fn digit_value(c: char) -> nat {
    (c as u32 - '0' as u32) as nat
}

/// The number that a run of decimal digits denotes.
pub open spec fn digits_value(s: Seq<char>) -> nat
    decreases s.len(),
{
    if s.len() == 0 {
        0
    } else {
        digits_value(s.drop_last()) * 10 + digit_value(s.last())
    }
}

pub open spec fn is_negative_text(s: Seq<char>) -> bool {
    s.len() > 0 && s[0] == '-'
}

/// The text after an optional leading minus sign.
pub open spec fn unsigned_text(s: Seq<char>) -> Seq<char> {
    if is_negative_text(s) {
        s.skip(1)
    } else {
        s
    }
}

/// Length of the integer digit group of an unsigned amount text: everything
/// before a dot that stands one or two places from the end.
pub open spec fn integer_len(u: Seq<char>) -> int {
    if u.len() >= 2 && u[u.len() - 2] == '.' {
        u.len() - 2
    } else if u.len() >= 3 && u[u.len() - 3] == '.' {
        u.len() - 3
    } else {
        u.len() as int
    }
}

pub open spec fn integer_digits(s: Seq<char>) -> Seq<char> {
    unsigned_text(s).take(integer_len(unsigned_text(s)))
}

/// The fractional digit group; empty when there is no dot.
pub open spec fn fraction_digits(s: Seq<char>) -> Seq<char> {
    let u = unsigned_text(s);
    if integer_len(u) < u.len() {
        u.skip(integer_len(u) + 1)
    } else {
        Seq::empty()
    }
}

/// The text has the shape `-?D+(.D{1,2})?`.
pub open spec fn valid_amount(s: Seq<char>) -> bool {
    integer_digits(s).len() >= 1 && all_digits(integer_digits(s)) && all_digits(
        fraction_digits(s),
    )
}

/// `sign × (100 × integer + fraction)`, the fraction group read as a plain
/// number: `"10.5"` is 1005 cents and `"10.50"` is 1050.
pub open spec fn amount_value(s: Seq<char>) -> int {
    let magnitude = 100 * digits_value(integer_digits(s)) + digits_value(fraction_digits(s));
    if is_negative_text(s) {
        -magnitude
    } else {
        magnitude as int
    }
}

pub open spec fn fits_i64(v: int) -> bool {
    i64::MIN <= v <= i64::MAX
}

/// What parsing a text yields: its cents, or why it is refused.
pub open spec fn amount_outcome(s: Seq<char>) -> Result<int, AmountError> {
    if !valid_amount(s) {
        Err(AmountError::InvalidFormat)
    } else if !fits_i64(amount_value(s)) {
        Err(AmountError::OutOfRange)
    } else {
        Ok(amount_value(s))
    }
}

pub proof fn lemma_digits_value_step(s: Seq<char>, i: int)
    requires
        0 <= i < s.len(),
    ensures
        digits_value(s.take(i + 1)) == digits_value(s.take(i)) * 10 + digit_value(s[i]),
{
    assert(s.take(i + 1).drop_last() =~= s.take(i));
}

pub proof fn lemma_digits_value_prefix_le(s: Seq<char>, j: int, k: int)
    requires
        0 <= j <= k <= s.len(),
    ensures
        digits_value(s.take(j)) <= digits_value(s.take(k)),
    decreases k - j,
{
    if j < k {
        lemma_digits_value_prefix_le(s, j, k - 1);
        lemma_digits_value_step(s, k - 1);
    }
}

pub proof fn lemma_two_digits_small(s: Seq<char>)
    requires
        all_digits(s),
        s.len() <= 2,
    ensures
        digits_value(s) <= 99,
{
    if s.len() > 0 {
        assert(is_digit(s[s.len() - 1]));
        assert(digit_value(s.last()) <= 9);
        let p = s.drop_last();
        if p.len() > 0 {
            assert(is_digit(s[0]));
            assert(p.last() == s[0]);
            assert(digit_value(p.last()) <= 9);
            assert(digits_value(p.drop_last()) == 0);
        }
        assert(digits_value(p) <= 9);
        assert(digits_value(s) == digits_value(p) * 10 + digit_value(s.last()));
    }
}

/// Largest integer group whose value times 100 can still fit in an `i64`.
const MAX_WHOLE: u64 = 92233720368547758;

/// Value of the digits `t[from..to]`, all of them decimal digits, or `None`
/// once the value exceeds `MAX_WHOLE`.
fn read_digits(t: &str, from: usize, to: usize) -> (r: Option<u64>)
    requires
        from <= to <= t@.len(),
        all_digits(t@.subrange(from as int, to as int)),
    ensures
        match r {
            Some(v) => v as nat == digits_value(t@.subrange(from as int, to as int)) && v
                <= MAX_WHOLE,
            None => digits_value(t@.subrange(from as int, to as int)) > MAX_WHOLE,
        },
{
    let ghost d = t@.subrange(from as int, to as int);
    let mut acc: u64 = 0;
    let mut i: usize = from;
    while i < to
        invariant
            from <= i <= to <= t@.len(),
            d == t@.subrange(from as int, to as int),
            all_digits(d),
            acc as nat == digits_value(d.take(i - from)),
            acc <= MAX_WHOLE,
        decreases to - i,
    {
        let c = t.get_char(i);
        proof {
            assert(c == d[i - from]);
            lemma_digits_value_step(d, i - from);
        }
        let next: u64 = acc * 10 + (c as u32 - '0' as u32) as u64;
        if next > MAX_WHOLE {
            proof {
                lemma_digits_value_prefix_le(d, i - from + 1, d.len() as int);
                assert(d.take(d.len() as int) =~= d);
            }
            return None;
        }
        acc = next;
        i = i + 1;
    }
    assert(d.take(i - from) =~= d);
    Some(acc)
}

/// Whether `t[from..to]` consists of decimal digits only.
fn digits_only(t: &str, from: usize, to: usize) -> (r: bool)
    requires
        from <= to <= t@.len(),
    ensures
        r == all_digits(t@.subrange(from as int, to as int)),
{
    let mut i: usize = from;
    while i < to
        invariant
            from <= i <= to <= t@.len(),
            forall|j: int| from <= j < i ==> is_digit(#[trigger] t@[j]),
        decreases to - i,
    {
        let c = t.get_char(i);
        if !('0' <= c && c <= '9') {
            assert(!is_digit(t@.subrange(from as int, to as int)[i - from]));
            return false;
        }
        i = i + 1;
    }
    assert forall|j: int| 0 <= j < to - from implies is_digit(
        #[trigger] t@.subrange(from as int, to as int)[j],
    ) by {
        assert(t@.subrange(from as int, to as int)[j] == t@[from + j]);
    }
    true
}

/// Signed cents from the digit groups' values, as read by `read_digits`.
fn combine_cents(negative: bool, whole: Option<u64>, frac: Option<u64>, iv: Ghost<nat>, fv: Ghost<nat>) -> (r: Result<i64, AmountError>)
    requires
        whole matches Some(w) ==> w == iv@,
        whole is None ==> iv@ > MAX_WHOLE,
        frac matches Some(f) ==> f == fv@ && f <= MAX_WHOLE,
        frac is Some,
    ensures
        ({
            let v: int = if negative { -(100 * iv@ + fv@) } else { (100 * iv@ + fv@) as int };
            match r {
                Ok(c) => fits_i64(v) && c == v,
                Err(e) => !fits_i64(v) && e == AmountError::OutOfRange,
            }
        }),
{
    match (whole, frac) {
        (Some(w), Some(f)) => {
            let magnitude: i128 = 100 * (w as i128) + (f as i128);
            if negative {
                if magnitude > 9223372036854775808 {
                    Err(AmountError::OutOfRange)
                } else {
                    Ok((-magnitude) as i64)
                }
            } else {
                if magnitude > 9223372036854775807 {
                    Err(AmountError::OutOfRange)
                } else {
                    Ok(magnitude as i64)
                }
            }
        },
        _ => Err(AmountError::OutOfRange),
    }
}

/// Locates the sign and the digit groups: whether the text is negative, the
/// bounds of the integer group, and where the fraction group starts.
fn digit_groups(text: &str) -> (r: (bool, usize, usize, usize))
    ensures
        r.0 == is_negative_text(text@),
        r.1 <= r.2 <= r.3 <= text@.len(),
        text@.subrange(r.1 as int, r.2 as int) == integer_digits(text@),
        text@.subrange(r.3 as int, text@.len() as int) == fraction_digits(text@),
{
    let n = text.unicode_len();
    let negative = n > 0 && text.get_char(0) == '-';
    let start: usize = if negative { 1 } else { 0 };
    let ulen: usize = n - start;
    let ghost u = text@.skip(start as int);
    assert(u =~= unsigned_text(text@));
    let int_end: usize = if ulen >= 2 && text.get_char(n - 2) == '.' {
        n - 2
    } else if ulen >= 3 && text.get_char(n - 3) == '.' {
        n - 3
    } else {
        n
    };
    let frac_start: usize = if int_end < n { int_end + 1 } else { n };
    assert(int_end - start == integer_len(u));
    assert(text@.subrange(start as int, int_end as int) =~= integer_digits(text@));
    assert(text@.subrange(frac_start as int, n as int) =~= fraction_digits(text@));
    (negative, start, int_end, frac_start)
}

/// Parses `-?D+(.D{1,2})?` into cents; the fraction group is read as a plain
/// number, so `"10.5"` gives 1005.
pub fn amount_to_cents(text: &str) -> (r: Result<i64, AmountError>)
    ensures
        match r {
            Ok(c) => amount_outcome(text@) == Ok::<int, AmountError>(c as int),
            Err(e) => amount_outcome(text@) == Err::<int, AmountError>(e),
        },
{
    let n = text.unicode_len();
    let (negative, start, int_end, frac_start) = digit_groups(text);
    if int_end == start || !digits_only(text, start, int_end) || !digits_only(
        text,
        frac_start,
        n,
    ) {
        return Err(AmountError::InvalidFormat);
    }
    let whole = read_digits(text, start, int_end);
    let frac = read_digits(text, frac_start, n);
    let ghost iv = digits_value(integer_digits(text@));
    let ghost fv = digits_value(fraction_digits(text@));
    proof {
        lemma_two_digits_small(fraction_digits(text@));
        assert(amount_value(text@) == if negative {
            -(100 * iv + fv)
        } else {
            (100 * iv + fv) as int
        });
    }
    combine_cents(negative, whole, frac, Ghost(iv), Ghost(fv))
}

} // verus!
