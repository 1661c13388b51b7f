//! Integer literals: reading them as `i64` (as `i64::from_str_radix` and
//! `str::parse::<i64>` do) and writing an `i64` in decimal.
use vstd::prelude::*;

verus! {

/// The value of a digit in bases up to 36 (36 for a non-digit).
pub open spec fn digit_value(c: char) -> nat {
    if '0' <= c && c <= '9' {
        (c as u32 - '0' as u32) as nat
    } else if 'a' <= c && c <= 'z' {
        (c as u32 - 'a' as u32 + 10) as nat
    } else if 'A' <= c && c <= 'Z' {
        (c as u32 - 'A' as u32 + 10) as nat
    } else {
        36
    }
}

pub fn digit_value_exec(c: char) -> (r: u32)
    ensures
        r == digit_value(c),
{
    let x = c as u32;
    if '0' <= c && c <= '9' {
        x - ('0' as u32)
    } else if 'a' <= c && c <= 'z' {
        x - ('a' as u32) + 10
    } else if 'A' <= c && c <= 'Z' {
        x - ('A' as u32) + 10
    } else {
        36
    }
}

/// Every character is a digit of the base.
pub open spec fn all_radix_digits(s: Seq<char>, radix: nat) -> bool {
    forall|i: int| 0 <= i < s.len() ==> digit_value(#[trigger] s[i]) < radix
}

/// The value of a digit string in the base.
pub open spec fn digits_value(s: Seq<char>, radix: nat) -> nat
    decreases s.len(),
{
    if s.len() == 0 {
        0
    } else {
        digits_value(s.drop_last(), radix) * radix + digit_value(s.last())
    }
}

/// `i64::from_str_radix`: an optional `+` or `-`, then at least one digit of the
/// base, the value within `i64`.
pub open spec fn parse_radix(s: Seq<char>, radix: nat) -> Option<int> {
    let neg = s.len() > 0 && s[0] == '-';
    let signed = s.len() > 0 && (s[0] == '-' || s[0] == '+');
    let d = if signed {
        s.skip(1)
    } else {
        s
    };
    if d.len() == 0 || !all_radix_digits(d, radix) {
        None
    } else {
        let v = digits_value(d, radix) as int;
        let x = if neg {
            -v
        } else {
            v
        };
        if i64::MIN <= x && x <= i64::MAX {
            Some(x)
        } else {
            None
        }
    }
}

proof fn lemma_digits_value_mono(s: Seq<char>, radix: nat, j: int)
    requires
        0 <= j <= s.len(),
        radix >= 1,
        all_radix_digits(s, radix),
    ensures
        digits_value(s.take(j), radix) <= digits_value(s, radix),
    decreases s.len() - j,
{
    if j < s.len() {
        let d = s.drop_last();
        assert(all_radix_digits(d, radix)) by {
            assert forall|i: int| 0 <= i < d.len() implies digit_value(#[trigger] d[i]) < radix by {
                assert(d[i] == s[i]);
            }
        }
        lemma_digits_value_mono(d, radix, j);
        assert(d.take(j) =~= s.take(j));
        let v = digits_value(d, radix);
        assert(v * radix >= v) by (nonlinear_arith)
            requires
                radix >= 1,
        ;
    } else {
        assert(s.take(j) =~= s);
    }
}

/// `i64::from_str_radix(s, radix)` for bases 2 to 36, `None` for an error.
pub fn parse_i64_radix(s: &[char], radix: u32) -> (r: Option<i64>)
    requires
        2 <= radix <= 36,
    ensures
        match r {
            Some(v) => parse_radix(s@, radix as nat) == Some(v as int),
            None => parse_radix(s@, radix as nat) is None,
        },
{
    let mut start: usize = 0;
    let mut neg = false;
    if s.len() > 0 && s[0] == '-' {
        neg = true;
        start = 1;
    } else if s.len() > 0 && s[0] == '+' {
        start = 1;
    }
    let ghost d = s@.skip(start as int);
    proof {
        if start == 0 {
            assert(d =~= s@);
        }
    }
    if start >= s.len() {
        return None;
    }
    let limit: u128 = 0x8000_0000_0000_0000;
    let mut acc: u128 = 0;
    let mut i = start;
    while i < s.len()
        invariant
            start <= i <= s@.len(),
            start < s@.len(),
            2 <= radix <= 36,
            d == s@.skip(start as int),
            start == 0 ==> d == s@,
            s@.len() > 0 && s@[0] == '-' ==> start == 1 && neg,
            s@.len() > 0 && s@[0] == '+' ==> start == 1 && !neg,
            !(s@.len() > 0 && (s@[0] == '-' || s@[0] == '+')) ==> start == 0 && !neg,
            all_radix_digits(d.take(i - start), radix as nat),
            acc == digits_value(d.take(i - start), radix as nat),
            acc <= limit,
            limit == 0x8000_0000_0000_0000u128,
        decreases s.len() - i,
    {
        let dv = digit_value_exec(s[i]);
        let ghost t = d.take(i + 1 - start);
        proof {
            assert(t.drop_last() =~= d.take(i - start));
            assert(t.last() == s@[i as int]);
        }
        if dv >= radix {
            proof {
                assert(d[i - start] == s@[i as int]);
                assert(!all_radix_digits(d, radix as nat));
            }
            return None;
        }
        proof {
            assert(acc * radix <= limit * 36) by (nonlinear_arith)
                requires
                    acc <= limit,
                    radix <= 36,
            ;
        }
        acc = acc * (radix as u128) + (dv as u128);
        proof {
            assert(acc == digits_value(t, radix as nat));
            assert(all_radix_digits(t, radix as nat)) by {
                assert forall|q: int| 0 <= q < t.len() implies digit_value(#[trigger] t[q])
                    < radix by {
                    if q < t.len() - 1 {
                        assert(t[q] == d.take(i - start)[q]);
                    }
                }
            }
        }
        if acc > limit {
            proof {
                // the whole value is at least this prefix's, beyond the range
                if all_radix_digits(d, radix as nat) {
                    lemma_digits_value_mono(d, radix as nat, i + 1 - start);
                }
            }
            return None;
        }
        i += 1;
    }
    proof {
        assert(d.take(i - start) =~= d);
    }
    if neg {
        if acc == limit {
            return Some(i64::MIN);
        }
        return Some(-(acc as i64));
    } else {
        if acc == limit {
            return None;
        }
        return Some(acc as i64);
    }
}

/// The decimal digits of `n`.
pub open spec fn decimal_nat(n: nat) -> Seq<char>
    decreases n,
{
    if n < 10 {
        seq![(n + '0' as u32) as char]
    } else {
        decimal_nat(n / 10).push(((n % 10) + '0' as u32) as char)
    }
}

/// `i64::to_string`: an optional `-` and the decimal digits.
pub open spec fn decimal_of(v: int) -> Seq<char> {
    if v < 0 {
        seq!['-'] + decimal_nat((-v) as nat)
    } else {
        decimal_nat(v as nat)
    }
}

fn digit_char(d: u64) -> (c: char)
    requires
        d < 10,
    ensures
        c == ((d + '0' as u32) as char),
{
    if d == 0 {
        '0'
    } else if d == 1 {
        '1'
    } else if d == 2 {
        '2'
    } else if d == 3 {
        '3'
    } else if d == 4 {
        '4'
    } else if d == 5 {
        '5'
    } else if d == 6 {
        '6'
    } else if d == 7 {
        '7'
    } else if d == 8 {
        '8'
    } else {
        '9'
    }
}

fn decimal_nat_exec(n: u64) -> (r: Vec<char>)
    ensures
        r@ == decimal_nat(n as nat),
    decreases n,
{
    if n < 10 {
        let mut v = Vec::new();
        v.push(digit_char(n));
        proof {
            assert(v@ =~= seq![(n + '0' as u32) as char]);
        }
        v
    } else {
        let mut v = decimal_nat_exec(n / 10);
        v.push(digit_char(n % 10));
        v
    }
}

/// `n.to_string()` for a `usize`.
pub fn usize_to_decimal(n: usize) -> (r: Vec<char>)
    ensures
        r@ == decimal_nat(n as nat),
{
    decimal_nat_exec(n as u64)
}

/// `v.to_string()` for an `i64`.
pub fn i64_to_decimal(v: i64) -> (r: Vec<char>)
    ensures
        r@ == decimal_of(v as int),
{
    if v < 0 {
        let m: u64 = if v == i64::MIN {
            0x8000_0000_0000_0000u64
        } else {
            (-v) as u64
        };
        let digits = decimal_nat_exec(m);
        let mut out = Vec::new();
        out.push('-');
        let mut i: usize = 0;
        while i < digits.len()
            invariant
                i <= digits@.len(),
                out@ == seq!['-'] + digits@.take(i as int),
            decreases digits.len() - i,
        {
            out.push(digits[i]);
            proof {
                assert(digits@.take(i + 1) =~= digits@.take(i as int).push(digits@[i as int]));
            }
            i += 1;
        }
        proof {
            assert(digits@.take(i as int) =~= digits@);
        }
        out
    } else {
        decimal_nat_exec(v as u64)
    }
}

} // verus!
