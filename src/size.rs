//! Installed sizes: a decimal number and an optional binary unit, normalised
//! to a byte count.

use vstd::prelude::*;

use crate::text::{
    chars_of, find_char, find_space, first_at, first_space, string_of, trim, trim_range,
};

verus! {

/// The most digits a size may have, before and after the point together.
pub const MAX_SIZE_DIGITS: usize = 18;

pub open spec fn is_digit(c: char) -> bool {
    48 <= c as u32 && c as u32 <= 57
}

pub open spec fn all_digits(s: Seq<char>) -> bool {
    forall|i: int| 0 <= i < s.len() ==> is_digit(#[trigger] s[i])
}

/// The number that a run of decimal digits writes.
pub open spec fn digits_value(s: Seq<char>) -> nat
    decreases s.len(),
{
    if s.len() == 0 {
        0
    } else {
        digits_value(s.drop_last()) * 10 + (s.last() as u32 - 48) as nat
    }
}

pub open spec fn pow10(n: nat) -> nat
    decreases n,
{
    if n == 0 {
        1
    } else {
        10 * pow10((n - 1) as nat)
    }
}

/// A decimal number `ddd` or `ddd.ddd`, with at least one digit on each side
/// of the point and at most `MAX_SIZE_DIGITS` digits: its digits read as one
/// integer, and how many of them follow the point.
pub open spec fn decimal_of(num: Seq<char>) -> Option<(nat, nat)> {
    let d = first_at(num, '.');
    let whole = num.take(d as int);
    let frac = if d < num.len() {
        num.skip((d + 1) as int)
    } else {
        Seq::empty()
    };
    if whole.len() >= 1 && (d == num.len() || frac.len() >= 1) && whole.len() + frac.len()
        <= MAX_SIZE_DIGITS && all_digits(whole) && all_digits(frac) {
        Some((digits_value(whole + frac), frac.len()))
    } else {
        None
    }
}

/// Bytes per unit: none or `B`, `KiB`, `MiB`, `GiB`, `TiB`.
pub open spec fn unit_factor(unit: Seq<char>) -> Option<nat> {
    if unit.len() == 0 || unit == "B"@ {
        Some(1)
    } else if unit == "KiB"@ {
        Some(1024)
    } else if unit == "MiB"@ {
        Some(1048576)
    } else if unit == "GiB"@ {
        Some(1073741824)
    } else if unit == "TiB"@ {
        Some(1099511627776)
    } else {
        None
    }
}

/// The byte count that a size text gives: its first whitespace-delimited
/// token is the number, the trimmed rest the unit; fractions of a byte are
/// dropped. A text that does not read so gives 0.
pub open spec fn size_in_bytes(text: Seq<char>) -> nat {
    let t = trim(text);
    let k = first_space(t);
    match (decimal_of(t.take(k as int)), unit_factor(trim(t.skip(k as int)))) {
        (Some((m, f)), Some(u)) => m * u / pow10(f),
        _ => 0,
    }
}

proof fn lemma_pow10_monotone(n: nat, m: nat)
    requires
        n <= m,
    ensures
        1 <= pow10(n) <= pow10(m),
    decreases m,
{
    if n < m {
        lemma_pow10_monotone(n, (m - 1) as nat);
    } else if n > 0 {
        lemma_pow10_monotone((n - 1) as nat, (n - 1) as nat);
    }
}

proof fn lemma_pow10_max()
    ensures
        pow10(MAX_SIZE_DIGITS as nat) == 1_000_000_000_000_000_000,
{
    reveal_with_fuel(pow10, 19);
}

fn pow10_exec(n: usize) -> (r: u64)
    requires
        n <= MAX_SIZE_DIGITS,
    ensures
        r == pow10(n as nat),
{
    let mut r: u64 = 1;
    let mut i: usize = 0;
    while i < n
        invariant
            i <= n <= MAX_SIZE_DIGITS,
            r == pow10(i as nat),
        decreases n - i,
    {
        proof {
            lemma_pow10_monotone((i + 1) as nat, MAX_SIZE_DIGITS as nat);
            lemma_pow10_max();
        }
        r = r * 10;
        i = i + 1;
    }
    r
}

fn is_digit_exec(c: char) -> (r: bool)
    ensures
        r == is_digit(c),
{
    48 <= c as u32 && c as u32 <= 57
}

/// Reads `v[lo..hi]` as `decimal_of` does.
fn parse_decimal(v: &Vec<char>, lo: usize, hi: usize) -> (r: Option<(u64, usize)>)
    requires
        lo <= hi <= v.len(),
    ensures
        match r {
            Some((m, f)) => decimal_of(v@.subrange(lo as int, hi as int)) == Some(
                (m as nat, f as nat),
            ),
            None => decimal_of(v@.subrange(lo as int, hi as int)) is None,
        },
        r matches Some((m, f)) ==> m < 1_000_000_000_000_000_000 && f <= MAX_SIZE_DIGITS,
{
    let ghost num = v@.subrange(lo as int, hi as int);
    let d = find_char(v, lo, hi, '.');
    let frac_lo = if d < hi {
        d + 1
    } else {
        hi
    };
    let whole_len = d - lo;
    let frac_len = hi - frac_lo;
    assert(num.take((d - lo) as int) =~= v@.subrange(lo as int, d as int));
    if d < hi {
        assert(num.skip((d - lo + 1) as int) =~= v@.subrange(frac_lo as int, hi as int));
    } else {
        assert(v@.subrange(frac_lo as int, hi as int) =~= Seq::<char>::empty());
    }
    if whole_len < 1 || (d < hi && frac_len < 1) || whole_len + frac_len > MAX_SIZE_DIGITS {
        return None;
    }
    let mut ds: Vec<char> = Vec::new();
    let mut i = lo;
    while i < d
        invariant
            lo <= i <= d <= hi <= v.len(),
            ds@ == v@.subrange(lo as int, i as int),
        decreases d - i,
    {
        ds.push(v[i]);
        assert(v@.subrange(lo as int, i + 1) =~= v@.subrange(lo as int, i as int).push(v@[i as int]));
        i = i + 1;
    }
    let mut i = frac_lo;
    while i < hi
        invariant
            frac_lo <= i <= hi <= v.len(),
            ds@ == v@.subrange(lo as int, d as int) + v@.subrange(frac_lo as int, i as int),
        decreases hi - i,
    {
        ds.push(v[i]);
        assert(v@.subrange(frac_lo as int, i + 1) =~= v@.subrange(frac_lo as int, i as int).push(v@[i as int]));
        i = i + 1;
    }
    let ghost whole = v@.subrange(lo as int, d as int);
    let ghost frac = v@.subrange(frac_lo as int, hi as int);
    assert(whole == num.take(first_at(num, '.') as int));
    assert(frac == if first_at(num, '.') < num.len() {
        num.skip((first_at(num, '.') + 1) as int)
    } else {
        Seq::empty()
    });
    assert(ds@.len() <= MAX_SIZE_DIGITS);
    let mut m: u64 = 0;
    let mut j: usize = 0;
    while j < ds.len()
        invariant
            ds@ == whole + frac,
            num == v@.subrange(lo as int, hi as int),
            whole == num.take(first_at(num, '.') as int),
            frac == (if first_at(num, '.') < num.len() {
                num.skip((first_at(num, '.') + 1) as int)
            } else {
                Seq::empty()
            }),
            ds@.len() <= MAX_SIZE_DIGITS,
            j <= ds@.len(),
            all_digits(ds@.take(j as int)),
            m == digits_value(ds@.take(j as int)),
            m < pow10(j as nat),
        decreases ds@.len() - j,
    {
        if !is_digit_exec(ds[j]) {
            assert(!all_digits(whole) || !all_digits(frac)) by {
                if j < whole.len() {
                    assert(whole[j as int] == ds@[j as int]);
                } else {
                    assert(frac[j - whole.len()] == ds@[j as int]);
                }
            }
            assert(decimal_of(num) is None);
            return None;
        }
        assert(ds@.take(j + 1).drop_last() =~= ds@.take(j as int));
        proof {
            lemma_pow10_monotone((j + 1) as nat, MAX_SIZE_DIGITS as nat);
            lemma_pow10_max();
            let p = pow10(j as nat);
            let dg = (ds@[j as int] as u32 - 48) as nat;
            assert(m * 10 + dg < p * 10) by (nonlinear_arith)
                requires m < p, dg <= 9;
        }
        m = m * 10 + (ds[j] as u32 - 48) as u64;
        j = j + 1;
    }
    assert(ds@.take(j as int) =~= ds@);
    assert(all_digits(whole) && all_digits(frac)) by {
        assert forall|k: int| 0 <= k < whole.len() implies is_digit(#[trigger] whole[k]) by {
            assert(whole[k] == ds@[k]);
        }
        assert forall|k: int| 0 <= k < frac.len() implies is_digit(#[trigger] frac[k]) by {
            assert(frac[k] == ds@[whole.len() + k]);
        }
    }
    proof {
        lemma_pow10_monotone(j as nat, MAX_SIZE_DIGITS as nat);
        lemma_pow10_max();
    }
    Some((m, frac_len))
}

/// Bytes per unit, as `unit_factor` gives them.
fn unit_factor_exec(unit: &String) -> (r: Option<u64>)
    ensures
        match r {
            Some(f) => unit_factor(unit@) == Some(f as nat),
            None => unit_factor(unit@) is None,
        },
{
    proof {
        reveal_strlit("B");
        reveal_strlit("KiB");
        reveal_strlit("MiB");
        reveal_strlit("GiB");
        reveal_strlit("TiB");
    }
    let empty = String::new();
    if *unit == empty || *unit == String::from_str("B") {
        Some(1)
    } else if *unit == String::from_str("KiB") {
        Some(1024)
    } else if *unit == String::from_str("MiB") {
        Some(1048576)
    } else if *unit == String::from_str("GiB") {
        Some(1073741824)
    } else if *unit == String::from_str("TiB") {
        Some(1099511627776)
    } else {
        assert(unit@.len() != 0) by {
            if unit@.len() == 0 {
                assert(unit@ =~= empty@);
            }
        }
        None
    }
}

/// The byte count of a size text such as `12.50 MiB`.
pub fn parse_size(text: &str) -> (r: u128)
    ensures
        r == size_in_bytes(text@),
{
    let v = chars_of(text);
    let (a, b) = trim_range(&v, 0, v.len());
    assert(v@.subrange(0, v@.len() as int) =~= v@);
    let ghost t = v@.subrange(a as int, b as int);
    let k = find_space(&v, a, b);
    assert(t.take((k - a) as int) =~= v@.subrange(a as int, k as int));
    assert(t.skip((k - a) as int) =~= v@.subrange(k as int, b as int));
    let (ua, ub) = trim_range(&v, k, b);
    let unit = string_of(&v, ua, ub);
    let factor = match unit_factor_exec(&unit) {
        Some(f) => f,
        None => {
            return 0;
        },
    };
    match parse_decimal(&v, a, k) {
        Some((m, f)) => {
            let p = pow10_exec(f);
            proof {
                lemma_pow10_monotone(f as nat, MAX_SIZE_DIGITS as nat);
                assert(m as nat * factor as nat <= 1_000_000_000_000_000_000 * 1099511627776) by (nonlinear_arith)
                    requires m < 1_000_000_000_000_000_000, factor <= 1099511627776;
            }
            (m as u128) * (factor as u128) / (p as u128)
        },
        None => 0,
    }
}

} // verus!
