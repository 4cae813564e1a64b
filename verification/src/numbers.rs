//! Decimal text: parsing a non-negative integer from a path segment, and
//! rendering integers and microsecond latencies for the report.
use vstd::prelude::*;

verus! {

pub open spec fn is_digit(c: char) -> bool {
    '0' <= c && c <= '9'
}

pub open spec fn digit_val(c: char) -> int {
    c as int - '0' as int
}

pub open spec fn all_digits(s: Seq<char>) -> bool {
    forall|i: int| 0 <= i < s.len() ==> is_digit(#[trigger] s[i])
}

/// A non-empty run of decimal digits.
pub open spec fn is_decimal(s: Seq<char>) -> bool {
    s.len() > 0 && all_digits(s)
}

/// The value of a run of decimal digits, most significant first.
pub open spec fn digits_val(s: Seq<char>) -> int
    decreases s.len(),
{
    if s.len() == 0 {
        0
    } else {
        digits_val(s.drop_last()) * 10 + digit_val(s.last())
    }
}

/// The digit character for a value below ten.
pub open spec fn digit_char(d: int) -> char {
    if d == 0 { '0' }
    else if d == 1 { '1' }
    else if d == 2 { '2' }
    else if d == 3 { '3' }
    else if d == 4 { '4' }
    else if d == 5 { '5' }
    else if d == 6 { '6' }
    else if d == 7 { '7' }
    else if d == 8 { '8' }
    else { '9' }
}

/// The decimal rendering of a non-negative value, without sign or padding.
pub open spec fn dec_digits(n: int) -> Seq<char>
    decreases n,
{
    if n < 10 {
        seq![digit_char(n)]
    } else {
        dec_digits(n / 10).push(digit_char(n % 10))
    }
}

fn digit_str(d: u64) -> (r: &'static str)
    requires
        d < 10,
    ensures
        r@ =~= seq![digit_char(d as int)],
{
    proof {
        reveal_strlit("0");
        reveal_strlit("1");
        reveal_strlit("2");
        reveal_strlit("3");
        reveal_strlit("4");
        reveal_strlit("5");
        reveal_strlit("6");
        reveal_strlit("7");
        reveal_strlit("8");
        reveal_strlit("9");
    }
    if d == 0 { "0" }
    else if d == 1 { "1" }
    else if d == 2 { "2" }
    else if d == 3 { "3" }
    else if d == 4 { "4" }
    else if d == 5 { "5" }
    else if d == 6 { "6" }
    else if d == 7 { "7" }
    else if d == 8 { "8" }
    else { "9" }
}

/// Appends the decimal rendering of `n` to `s`.
pub fn push_u64(s: &mut String, n: u64)
    ensures
        final(s)@ == old(s)@ + dec_digits(n as int),
    decreases n,
{
    if n < 10 {
        s.append(digit_str(n));
        assert(s@ =~= old(s)@ + dec_digits(n as int));
    } else {
        push_u64(s, n / 10);
        s.append(digit_str(n % 10));
        assert(s@ =~= old(s)@ + dec_digits(n as int));
    }
}

/// The decimal rendering of `n` on its own.
pub fn u64_text(n: u64) -> (r: String)
    ensures
        r@ == dec_digits(n as int),
{
    let mut s = String::new();
    push_u64(&mut s, n);
    proof {
        assert(Seq::<char>::empty() + dec_digits(n as int) =~= dec_digits(n as int));
    }
    s
}

/// The fractional millisecond digits for a microsecond remainder
/// `0 < f < 1000`: three zero-padded digits with trailing zeros dropped.
pub open spec fn frac_text(f: int) -> Seq<char> {
    let d1 = digit_char(f / 100);
    let d2 = digit_char((f / 10) % 10);
    let d3 = digit_char(f % 10);
    if f % 10 != 0 {
        seq![d1, d2, d3]
    } else if (f / 10) % 10 != 0 {
        seq![d1, d2]
    } else {
        seq![d1]
    }
}

/// How a latency of `us` microseconds reads in milliseconds: the whole
/// part, then the non-zero fractional digits after a point, if any.
pub open spec fn latency_text(us: int) -> Seq<char> {
    if us % 1000 == 0 {
        dec_digits(us / 1000)
    } else {
        dec_digits(us / 1000).push('.') + frac_text(us % 1000)
    }
}

/// Appends the millisecond rendering of a microsecond latency to `s`.
pub fn push_latency(s: &mut String, us: u64)
    ensures
        final(s)@ == old(s)@ + latency_text(us as int),
{
    let whole: u64 = us / 1000;
    let frac: u64 = us % 1000;
    push_u64(s, whole);
    if frac != 0 {
        proof {
            reveal_strlit(".");
        }
        s.append(".");
        let d1: u64 = frac / 100;
        let d2: u64 = (frac / 10) % 10;
        let d3: u64 = frac % 10;
        if d3 != 0 {
            s.append(digit_str(d1));
            s.append(digit_str(d2));
            s.append(digit_str(d3));
        } else if d2 != 0 {
            s.append(digit_str(d1));
            s.append(digit_str(d2));
        } else {
            s.append(digit_str(d1));
        }
    }
    assert(s@ =~= old(s)@ + latency_text(us as int));
}

/// Parses a path segment as a non-negative decimal integer. Returns the
/// value exactly when the text is a non-empty run of digits whose value
/// fits in a `u64`.
pub fn parse_u64(s: &str) -> (r: Option<u64>)
    ensures
        match r {
            Some(v) => is_decimal(s@) && digits_val(s@) == v,
            None => !(is_decimal(s@) && digits_val(s@) <= u64::MAX),
        },
{
    let n = s.unicode_len();
    if n == 0 {
        return None;
    }
    let mut acc: u64 = 0;
    let mut i: usize = 0;
    while i < n
        invariant
            0 < n == s@.len(),
            0 <= i <= n,
            all_digits(s@.take(i as int)),
            acc == digits_val(s@.take(i as int)),
            digits_val(s@.take(i as int)) <= u64::MAX,
        decreases n - i,
    {
        let c = s.get_char(i);
        if !('0' <= c && c <= '9') {
            assert(!all_digits(s@));
            return None;
        }
        let d: u64 = (c as u32 as u64) - 48;
        assert(d == digit_val(c) && d < 10);
        if acc > (u64::MAX - d) / 10 {
            proof {
                assert(acc * 10 + d > u64::MAX) by (nonlinear_arith)
                    requires
                        acc > (u64::MAX - d) / 10,
                        d < 10,
                ;
                if all_digits(s@) {
                    assert(digits_val(s@.take(i as int + 1)) == acc * 10 + d) by {
                        assert(s@.take(i as int + 1).drop_last() =~= s@.take(i as int));
                        assert(s@.take(i as int + 1).last() == s@[i as int]);
                    };
                    lemma_digits_val_grows(s@, i as int);
                }
            }
            return None;
        }
        assert(acc * 10 + d <= u64::MAX) by (nonlinear_arith)
            requires
                acc <= (u64::MAX - d) / 10,
                d < 10,
        ;
        acc = acc * 10 + d;
        proof {
            assert(s@.take(i as int + 1).drop_last() =~= s@.take(i as int));
            assert(s@.take(i as int + 1).last() == s@[i as int]);
        }
        i = i + 1;
    }
    proof {
        assert(s@.take(n as int) =~= s@);
    }
    Some(acc)
}

/// A longer run of digits never has a smaller value: the value through
/// digit `i` is carried monotonically into the value of the whole run.
proof fn lemma_digits_val_grows(s: Seq<char>, i: int)
    requires
        0 <= i < s.len(),
        all_digits(s),
    ensures
        digits_val(s) >= digits_val(s.take(i + 1)),
        digits_val(s.take(i + 1)) >= 0,
    decreases s.len() - i,
{
    lemma_digits_val_nonneg(s.take(i + 1));
    if i + 1 == s.len() {
        assert(s.take(i + 1) =~= s);
    } else {
        lemma_digits_val_grows(s, i + 1);
        assert(s.take(i + 2).drop_last() =~= s.take(i + 1));
        lemma_digits_val_nonneg(s.take(i + 2));
        assert(digits_val(s.take(i + 2)) == digits_val(s.take(i + 1)) * 10 + digit_val(
            s.take(i + 2).last(),
        ));
        assert(digits_val(s.take(i + 1)) * 10 >= digits_val(s.take(i + 1))) by (nonlinear_arith)
            requires
                digits_val(s.take(i + 1)) >= 0,
        ;
        assert(is_digit(s[i + 1]));
        assert(digit_val(s.take(i + 2).last()) >= 0);
    }
}

proof fn lemma_digits_val_nonneg(s: Seq<char>)
    requires
        all_digits(s),
    ensures
        digits_val(s) >= 0,
    decreases s.len(),
{
    if s.len() > 0 {
        assert(all_digits(s.drop_last())) by {
            assert(forall|k: int| 0 <= k < s.len() - 1 ==> s.drop_last()[k] == s[k]);
        }
        lemma_digits_val_nonneg(s.drop_last());
        assert(is_digit(s.last()));
        assert(digits_val(s.drop_last()) * 10 >= 0) by (nonlinear_arith)
            requires
                digits_val(s.drop_last()) >= 0,
        ;
    }
}

} // verus!
