//! Decimal numerals: formatting a number as digits and reading it back.

use vstd::prelude::*;

verus! {

/// The digit character for a value in 0..10.
pub open spec fn digit_char(d: int) -> char {
    ((d + 48) as u32) as char
}

/// Whether `c` is a decimal digit.
pub open spec fn is_digit(c: char) -> bool {
    48 <= c as u32 <= 57
}

/// The value of a digit character.
pub open spec fn digit_val(c: char) -> int {
    c as u32 - 48
}

/// The decimal numeral of `n`, most significant digit first.
pub open spec fn dec(n: nat) -> Seq<char>
    decreases n,
{
    if n < 10 {
        seq![digit_char(n as int)]
    } else {
        dec(n / 10) + seq![digit_char((n % 10) as int)]
    }
}

/// The value of a digit string, read most significant digit first.
pub open spec fn digits_val(ds: Seq<char>) -> nat
    decreases ds.len(),
{
    if ds.len() == 0 {
        0
    } else {
        (digits_val(ds.drop_last()) * 10 + digit_val(ds.last())) as nat
    }
}

/// Every character of a decimal numeral is a digit, and there is at
/// least one of them.
pub proof fn lemma_dec_digits(n: nat)
    ensures
        dec(n).len() >= 1,
        forall|i: int| 0 <= i < dec(n).len() ==> is_digit(#[trigger] dec(n)[i]),
    decreases n,
{
    if n < 10 {
        assert(dec(n) =~= seq![digit_char(n as int)]);
        assert(is_digit(digit_char(n as int)));
    } else {
        lemma_dec_digits(n / 10);
        assert(dec(n) =~= dec(n / 10) + seq![digit_char((n % 10) as int)]);
        assert(is_digit(digit_char((n % 10) as int)));
        assert(forall|i: int|
            0 <= i < dec(n).len() ==> is_digit(#[trigger] dec(n)[i])) by {
            assert(forall|i: int| 0 <= i < dec(n / 10).len() ==> dec(n)[i] == #[trigger] dec(
                n / 10,
            )[i]);
        }
    }
}

/// Reading back the numeral of `n` yields `n`.
pub proof fn lemma_digits_val_dec(n: nat)
    ensures
        digits_val(dec(n)) == n,
    decreases n,
{
    if n < 10 {
        let ds = dec(n);
        assert(ds.drop_last() =~= Seq::<char>::empty());
        assert(digits_val(ds.drop_last()) == 0);
        assert(digits_val(ds) == digit_val(digit_char(n as int)));
    } else {
        lemma_digits_val_dec(n / 10);
        let ds = dec(n);
        assert(ds.drop_last() =~= dec(n / 10));
        assert(ds.last() == digit_char((n % 10) as int));
        assert(digit_val(digit_char((n % 10) as int)) == n % 10);
        assert(n / 10 * 10 + n % 10 == n) by {
            vstd::arithmetic::div_mod::lemma_fundamental_div_mod(n as int, 10);
        }
    }
}

/// Appending further digits never shrinks the value.
pub proof fn lemma_digits_val_prefix(ds: Seq<char>, k: int)
    requires
        0 <= k <= ds.len(),
        forall|i: int| 0 <= i < ds.len() ==> is_digit(#[trigger] ds[i]),
    ensures
        digits_val(ds.take(k)) <= digits_val(ds),
    decreases ds.len() - k,
{
    if k < ds.len() {
        lemma_digits_val_prefix(ds, k + 1);
        let p = ds.take(k + 1);
        assert(p.drop_last() =~= ds.take(k));
        assert(is_digit(ds[k]));
        assert(digits_val(p) == digits_val(ds.take(k)) * 10 + digit_val(ds[k]));
        assert(digits_val(ds.take(k)) <= digits_val(ds.take(k)) * 10);
    } else {
        assert(ds.take(k) =~= ds);
    }
}

/// The position just after the run of digits that starts at `i`.
pub open spec fn digits_end(s: Seq<char>, i: int) -> int
    decreases s.len() - i,
{
    if 0 <= i < s.len() && is_digit(s[i]) {
        digits_end(s, i + 1)
    } else {
        i
    }
}

/// The numeral starting at `i`, if any: its value and the position after it.
pub open spec fn sp_number(s: Seq<char>, i: int) -> Option<(nat, int)> {
    let j = digits_end(s, i);
    if j == i {
        Option::None
    } else {
        Option::Some((digits_val(s.subrange(i, j)), j))
    }
}

/// Basic facts about a digit run: it stays inside the sequence, holds
/// only digits, and ends at the end of the text or before a non-digit.
pub proof fn lemma_digits_end_bounds(s: Seq<char>, i: int)
    requires
        0 <= i <= s.len(),
    ensures
        i <= digits_end(s, i) <= s.len(),
        forall|t: int| i <= t < digits_end(s, i) ==> is_digit(#[trigger] s[t]),
        digits_end(s, i) == s.len() || !is_digit(s[digits_end(s, i)]),
    decreases s.len() - i,
{
    if i < s.len() && is_digit(s[i]) {
        lemma_digits_end_bounds(s, i + 1);
    }
}

/// A digit run covers any stretch of digits that starts it.
pub proof fn lemma_digits_end_at_least(s: Seq<char>, i: int, m: int)
    requires
        0 <= i <= m <= s.len(),
        forall|t: int| i <= t < m ==> is_digit(#[trigger] s[t]),
    ensures
        digits_end(s, i) >= m,
    decreases m - i,
{
    if i < m {
        assert(is_digit(s[i]));
        lemma_digits_end_at_least(s, i + 1, m);
    } else {
        lemma_digits_end_bounds(s, i);
    }
}

/// Where the text at `i` spells out a digit string `ds` followed by a
/// non-digit (or the end), the numeral read there is exactly `ds`.
pub proof fn lemma_number_of_match(s: Seq<char>, i: int, ds: Seq<char>)
    requires
        0 <= i,
        i + ds.len() <= s.len(),
        ds.len() >= 1,
        s.subrange(i, i + ds.len()) =~= ds,
        forall|t: int| 0 <= t < ds.len() ==> is_digit(#[trigger] ds[t]),
        i + ds.len() == s.len() || !is_digit(s[i + ds.len()]),
    ensures
        sp_number(s, i) == Option::Some((digits_val(ds), i + ds.len())),
{
    assert(forall|t: int| i <= t < i + ds.len() ==> is_digit(#[trigger] s[t])) by {
        assert(forall|t: int|
            i <= t < i + ds.len() ==> #[trigger] s[t] == ds[t - i]);
    }
    lemma_digits_end_at_least(s, i, i + ds.len());
    lemma_digits_end_bounds(s, i);
    assert(digits_end(s, i) <= i + ds.len()) by {
        if digits_end(s, i) > i + ds.len() {
            assert(is_digit(s[i + ds.len()]));
        }
    }
    assert(digits_end(s, i) == i + ds.len());
}

/// The string of digit characters for `d` in 0..10.
fn digit_str(d: usize) -> (r: &'static str)
    requires
        d < 10,
    ensures
        r@ =~= seq![digit_char(d as int)],
{
    proof {
        reveal_strlit("0");
        reveal_strlit("1");
        reveal_strlit("2");
        reveal_strlit("3");
        reveal_strlit("4");
        reveal_strlit("5");
        reveal_strlit("6");
        reveal_strlit("7");
        reveal_strlit("8");
        reveal_strlit("9");
    }
    match d {
        0 => "0",
        1 => "1",
        2 => "2",
        3 => "3",
        4 => "4",
        5 => "5",
        6 => "6",
        7 => "7",
        8 => "8",
        _ => "9",
    }
}

/// Appends the decimal numeral of `n` to `out`.
pub fn format_usize_into(out: &mut String, n: usize)
    ensures
        final(out)@ == old(out)@ + dec(n as nat),
    decreases n,
{
    if n < 10 {
        out.append(digit_str(n));
    } else {
        format_usize_into(out, n / 10);
        out.append(digit_str(n % 10));
        assert(old(out)@ + dec((n / 10) as nat) + seq![digit_char((n % 10) as int)] =~= old(
            out,
        )@ + dec(n as nat));
    }
}

/// The decimal numeral of `n` as a string.
pub fn format_usize(n: usize) -> (r: String)
    ensures
        r@ == dec(n as nat),
{
    let mut out = String::new();
    format_usize_into(&mut out, n);
    assert(Seq::<char>::empty() + dec(n as nat) =~= dec(n as nat));
    out
}

/// Reads the numeral starting at `i`, if there is one whose value fits
/// in `usize`. `None` covers both a missing numeral and one too large.
pub fn p_number(s: &str, len: usize, i: usize) -> (r: Option<(usize, usize)>)
    requires
        len == s@.len(),
        i <= len,
    ensures
        match r {
            Option::Some(p) => sp_number(s@, i as int) == Option::Some(((p.0 as nat), p.1 as int))
                && i < p.1 <= len,
            Option::None => sp_number(s@, i as int) is None || (sp_number(s@, i as int) matches Option::Some(
                q,
            ) && q.0 > usize::MAX),
        },
{
    let mut j: usize = i;
    let mut acc: usize = 0;
    proof {
        lemma_digits_end_bounds(s@, i as int);
    }
    loop
        invariant
            len == s@.len(),
            i <= j <= len,
            forall|t: int| i <= t < j ==> is_digit(#[trigger] s@[t]),
            acc as nat == digits_val(s@.subrange(i as int, j as int)),
        ensures
            i <= j <= len,
            forall|t: int| i <= t < j ==> is_digit(#[trigger] s@[t]),
            acc as nat == digits_val(s@.subrange(i as int, j as int)),
            j == len || !is_digit(s@[j as int]),
        decreases len - j,
    {
        if j >= len {
            break ;
        }
        let c = s.get_char(j);
        let v = c as u32;
        if !(48 <= v && v <= 57) {
            break ;
        }
        let d: usize = (v - 48) as usize;
        let ghost pre = s@.subrange(i as int, j as int);
        let ghost cur = s@.subrange(i as int, j as int + 1);
        proof {
            assert(cur.drop_last() =~= pre);
            assert(cur.last() == s@[j as int]);
            assert(digits_val(cur) == acc * 10 + d);
        }
        if acc > (usize::MAX - d) / 10 {
            // The digits read so far already overflow `usize`; the full
            // run can only be larger.
            proof {
                let m = usize::MAX as int;
                let q = (m - d) / 10;
                vstd::arithmetic::div_mod::lemma_fundamental_div_mod(m - d, 10);
                assert(acc * 10 >= (q + 1) * 10) by (nonlinear_arith)
                    requires
                        acc >= q + 1,
                ;
                assert(acc * 10 + d > m);
                lemma_digits_end_bounds(s@, i as int);
                lemma_digits_end_at_least(s@, i as int, j as int + 1);
                let e = digits_end(s@, i as int);
                let ds = s@.subrange(i as int, e);
                assert(ds.take(j as int + 1 - i) =~= cur);
                assert(forall|t: int| 0 <= t < ds.len() ==> is_digit(#[trigger] ds[t]));
                lemma_digits_val_prefix(ds, j + 1 - i);
                assert(digits_val(ds) >= digits_val(cur));
            }
            return None;
        }
        proof {
            let m = usize::MAX as int;
            let q = (m - d) / 10;
            vstd::arithmetic::div_mod::lemma_fundamental_div_mod(m - d, 10);
            assert(acc * 10 <= q * 10) by (nonlinear_arith)
                requires
                    acc <= q,
            ;
            assert(acc * 10 + d <= m);
        }
        acc = acc * 10 + d;
        j = j + 1;
    }
    if j == i {
        proof {
            assert(digits_end(s@, i as int) == i);
        }
        None
    } else {
        proof {
            lemma_digits_end_at_least(s@, i as int, j as int);
            lemma_digits_end_bounds(s@, i as int);
            if digits_end(s@, i as int) > j {
                assert(is_digit(s@[j as int]));
                assert(false);
            }
        }
        Some((acc, j))
    }
}

} // verus!
