//! Decimal text of 64-bit integers, written and read as std's `Display` and
//! `FromStr` for `i64` do.

use vstd::prelude::*;
use crate::text::string_from_chars;

verus! {

/// The digit character of `d`, for `0 <= d < 10`.
pub open spec fn digit_char(d: int) -> char {
    if d == 0 {
        '0'
    } else if d == 1 {
        '1'
    } else if d == 2 {
        '2'
    } else if d == 3 {
        '3'
    } else if d == 4 {
        '4'
    } else if d == 5 {
        '5'
    } else if d == 6 {
        '6'
    } else if d == 7 {
        '7'
    } else if d == 8 {
        '8'
    } else {
        '9'
    }
}

pub open spec fn is_digit(c: char) -> bool {
    '0' <= c && c <= '9'
}

/// The value of the digit character `c`.
pub open spec fn digit_value(c: char) -> int {
    c as int - '0' as int
}

/// The decimal digits of `n`, most significant first, without leading zeros.
pub open spec fn decimal(n: nat) -> Seq<char>
    decreases n,
{
    if n < 10 {
        seq![digit_char(n as int)]
    } else {
        decimal(n / 10).push(digit_char((n % 10) as int))
    }
}

/// The text of `n`: a minus sign for a negative number, then its digits.
pub open spec fn i64_text(n: i64) -> Seq<char> {
    if n < 0 {
        seq!['-'] + decimal((-n) as nat)
    } else {
        decimal(n as nat)
    }
}

pub open spec fn all_digits(s: Seq<char>) -> bool {
    forall|i: int| 0 <= i < s.len() ==> is_digit(#[trigger] s[i])
}

/// The number that the digits `s` write.
pub open spec fn digits_value(s: Seq<char>) -> int
    decreases s.len(),
{
    if s.len() == 0 {
        0
    } else {
        digits_value(s.drop_last()) * 10 + digit_value(s.last())
    }
}

/// What `str::parse::<i64>` gives for `s`: an optional sign, then at least
/// one digit and nothing else, of a value within the range of `i64`.
pub open spec fn parse_i64(s: Seq<char>) -> Option<i64> {
    let neg = s.len() > 0 && s[0] == '-';
    let ds = if s.len() > 0 && (s[0] == '-' || s[0] == '+') {
        s.drop_first()
    } else {
        s
    };
    if ds.len() > 0 && all_digits(ds) {
        let v = if neg {
            -digits_value(ds)
        } else {
            digits_value(ds)
        };
        if i64::MIN <= v && v <= i64::MAX {
            Some(v as i64)
        } else {
            None
        }
    } else {
        None
    }
}

proof fn lemma_digit_char(d: int)
    requires
        0 <= d < 10,
    ensures
        is_digit(digit_char(d)),
        digit_value(digit_char(d)) == d,
{
}

/// The digits of `n` are digits, at least one, and write `n`.
pub proof fn lemma_decimal(n: nat)
    ensures
        decimal(n).len() > 0,
        all_digits(decimal(n)),
        digits_value(decimal(n)) == n,
    decreases n,
{
    if n < 10 {
        lemma_digit_char(n as int);
        assert(decimal(n).drop_last() =~= Seq::<char>::empty());
        assert(digits_value(decimal(n)) == digits_value(Seq::<char>::empty()) * 10 + digit_value(
            digit_char(n as int),
        ));
    } else {
        lemma_decimal(n / 10);
        lemma_digit_char((n % 10) as int);
        let s = decimal(n);
        assert(s.drop_last() =~= decimal(n / 10));
        assert(s.last() == digit_char((n % 10) as int));
        assert(digits_value(s) == digits_value(decimal(n / 10)) * 10 + (n % 10));
        assert((n / 10) * 10 + n % 10 == n);
        assert forall|i: int| 0 <= i < s.len() implies is_digit(#[trigger] s[i]) by {
            if i < s.len() - 1 {
                assert(s[i] == decimal(n / 10)[i]);
            }
        }
    }
}

/// The text of an integer reads back as that integer.
pub proof fn lemma_i64_text_round_trip(n: i64)
    ensures
        parse_i64(i64_text(n)) == Some(n),
        i64_text(n).len() > 0,
        is_digit(i64_text(n).last()),
        forall|i: int| 0 <= i < i64_text(n).len() ==> (is_digit(#[trigger] i64_text(n)[i]) || i64_text(n)[i] == '-'),
{
    if n < 0 {
        let m: nat = (-n) as nat;
        lemma_decimal(m);
        let s = i64_text(n);
        assert(s.drop_first() =~= decimal(m));
        assert(s.last() == decimal(m).last());
        assert forall|i: int| 0 <= i < s.len() implies (is_digit(#[trigger] s[i]) || s[i] == '-') by {
            if i > 0 {
                assert(s[i] == decimal(m)[i - 1]);
            }
        }
    } else {
        lemma_decimal(n as nat);
        assert(is_digit(decimal(n as nat)[0]));
    }
}

proof fn lemma_digits_value_nonneg(s: Seq<char>)
    requires
        all_digits(s),
    ensures
        digits_value(s) >= 0,
    decreases s.len(),
{
    if s.len() > 0 {
        assert(all_digits(s.drop_last()));
        lemma_digits_value_nonneg(s.drop_last());
        assert(is_digit(s[s.len() - 1]));
    }
}

proof fn lemma_digits_value_grows(s: Seq<char>, k: int)
    requires
        all_digits(s),
        0 <= k <= s.len(),
    ensures
        digits_value(s.subrange(0, k)) <= digits_value(s),
    decreases s.len(),
{
    if k == s.len() {
        assert(s.subrange(0, k) =~= s);
    } else {
        let t = s.drop_last();
        assert(all_digits(t));
        lemma_digits_value_grows(t, k);
        assert(t.subrange(0, k) =~= s.subrange(0, k));
        lemma_digits_value_nonneg(t);
        assert(is_digit(s[s.len() - 1]));
    }
}

fn digit_char_of(d: u64) -> (c: char)
    requires
        d < 10,
    ensures
        c == digit_char(d as int),
{
    if d == 0 {
        '0'
    } else if d == 1 {
        '1'
    } else if d == 2 {
        '2'
    } else if d == 3 {
        '3'
    } else if d == 4 {
        '4'
    } else if d == 5 {
        '5'
    } else if d == 6 {
        '6'
    } else if d == 7 {
        '7'
    } else if d == 8 {
        '8'
    } else {
        '9'
    }
}

/// The decimal text of `n`, as `n.to_string()` writes it.
pub fn i64_to_text(n: i64) -> (s: String)
    ensures
        s@ == i64_text(n),
{
    let m: u64 = if n < 0 {
        (-(n as i128)) as u64
    } else {
        n as u64
    };
    let mut q: u64 = m;
    let mut out: Vec<char> = Vec::new();
    assert(decimal(m as nat) =~= decimal(q as nat) + out@);
    while q >= 10
        invariant
            decimal(m as nat) == decimal(q as nat) + out@,
        decreases q,
    {
        let d: u64 = q % 10;
        let c = digit_char_of(d);
        out.insert(0, c);
        let ghost old_q = q;
        q = q / 10;
        assert(decimal(old_q as nat) == decimal(q as nat).push(c));
        assert(decimal(m as nat) =~= decimal(q as nat) + out@);
    }
    let c = digit_char_of(q);
    out.insert(0, c);
    assert(decimal(m as nat) =~= out@);
    if n < 0 {
        out.insert(0, '-');
        assert(out@ =~= i64_text(n));
    }
    string_from_chars(out.as_slice())
}

/// Reads `v` as `str::parse::<i64>` does.
pub fn parse_i64_chars(v: &[char]) -> (r: Option<i64>)
    ensures
        r == parse_i64(v@),
{
    let n: usize = v.len();
    let neg: bool = n > 0 && v[0] == '-';
    let start: usize = if n > 0 && (v[0] == '-' || v[0] == '+') {
        1
    } else {
        0
    };
    let ghost ds = if v@.len() > 0 && (v@[0] == '-' || v@[0] == '+') {
        v@.drop_first()
    } else {
        v@
    };
    assert(ds =~= v@.subrange(start as int, n as int));
    if start == n {
        return None;
    }
    let mut acc: i128 = 0;
    let mut i: usize = start;
    let bound: i128 = 9223372036854775808;
    while i < n
        invariant
            start <= i <= n,
            n == v@.len(),
            ds == (if v@.len() > 0 && (v@[0] == '-' || v@[0] == '+') {
                v@.drop_first()
            } else {
                v@
            }),
            neg == (v@.len() > 0 && v@[0] == '-'),
            ds =~= v@.subrange(start as int, n as int),
            all_digits(ds.subrange(0, i - start)),
            acc == digits_value(ds.subrange(0, i - start)),
            0 <= acc <= bound,
            bound == 9223372036854775808,
        decreases n - i,
    {
        let c = v[i];
        if !('0' <= c && c <= '9') {
            assert(ds[i - start] == c);
            assert(!is_digit(ds[i - start]));
            assert(!all_digits(ds));
            return None;
        }
        let d: i128 = (c as u32 - '0' as u32) as i128;
        let ghost p = ds.subrange(0, i - start);
        let ghost p2 = ds.subrange(0, i + 1 - start);
        assert(p2.drop_last() =~= p);
        assert(p2.last() == c);
        assert(d == digit_value(c));
        assert(digits_value(p2) == digits_value(p) * 10 + digit_value(c));
        acc = acc * 10 + d;
        i = i + 1;
        assert(all_digits(p2)) by {
            assert forall|k: int| 0 <= k < p2.len() implies is_digit(#[trigger] p2[k]) by {
                if k < p.len() {
                    assert(p2[k] == p[k]);
                }
            }
        }
        if acc > bound {
            proof {
                if all_digits(ds) {
                    lemma_digits_value_grows(ds, i - start);
                }
            }
            return None;
        }
    }
    assert(ds.subrange(0, n - start) =~= ds);
    let v_: i128 = if neg {
        -acc
    } else {
        acc
    };
    if v_ > 9223372036854775807 {
        None
    } else {
        Some(v_ as i64)
    }
}

} // verus!
