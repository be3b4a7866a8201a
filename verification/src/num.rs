//! Decimal rendering and scanning of unsigned integers, with the proof that
//! scanning a rendered number yields the number back.

use vstd::prelude::*;
use crate::wire::{DecodeError, lit_at};

verus! {

/// `c` is a decimal digit.
pub open spec fn is_digit(c: char) -> bool {
    48 <= c as u32 && c as u32 <= 57
}

/// The value of a digit character.
pub open spec fn digit_val(c: char) -> nat {
    (c as u32 - 48) as nat
}

/// The character for a digit value below ten.
pub open spec fn digit_char(d: nat) -> char {
    (((d + 48) as u8) as char)
}

/// The decimal digits of `n`, most significant first.
pub open spec fn dec_digits(n: u64) -> Seq<char>
    decreases n,
{
    if n < 10 {
        seq![digit_char(n as nat)]
    } else {
        dec_digits(n / 10) + seq![digit_char((n % 10) as nat)]
    }
}

/// Ten to the `k`.
pub open spec fn pow10(k: nat) -> nat
    decreases k,
{
    if k == 0 {
        1
    } else {
        10 * pow10((k - 1) as nat)
    }
}

/// The value of a digit string, folded onto an accumulator.
pub open spec fn val_acc(ds: Seq<char>, acc: nat) -> nat
    decreases ds.len(),
{
    if ds.len() == 0 {
        acc
    } else {
        val_acc(ds.subrange(1, ds.len() as int), acc * 10 + digit_val(ds[0]))
    }
}

/// Scan a run of digits starting at `i`, folding onto `acc`; returns the
/// folded value and the position of the first non-digit.
pub open spec fn scan_u64(s: Seq<char>, i: int, acc: nat) -> (nat, int)
    decreases s.len() - i,
{
    if 0 <= i && i < s.len() && is_digit(s[i]) {
        scan_u64(s, i + 1, acc * 10 + digit_val(s[i]))
    } else {
        (acc, i)
    }
}

/// What parsing an unsigned integer at position `i` yields: the value and the
/// position after its digits, or an error when no digit starts there or the
/// value exceeds `u64::MAX`.
pub open spec fn spec_parse_u64(s: Seq<char>, i: int) -> Result<(u64, int), DecodeError> {
    if 0 <= i && i < s.len() && is_digit(s[i]) {
        if scan_u64(s, i, 0).0 <= u64::MAX {
            Ok((scan_u64(s, i, 0).0 as u64, scan_u64(s, i, 0).1))
        } else {
            Err(DecodeError::Malformed)
        }
    } else {
        Err(DecodeError::Malformed)
    }
}

/// Append the decimal digits of `n` to `out`.
pub fn push_u64(out: &mut Vec<char>, n: u64)
    ensures
        final(out)@ == old(out)@ + dec_digits(n),
    decreases n,
{
    if n >= 10 {
        push_u64(out, n / 10);
    }
    let d: u8 = (n % 10) as u8;
    out.push((d + 48) as char);
    proof {
        assert(final(out)@ =~= old(out)@ + dec_digits(n));
    }
}

/// A digit scan stays within the string and never moves backwards.
pub proof fn lemma_scan_u64_bounds(s: Seq<char>, i: int, acc: nat)
    requires
        0 <= i <= s.len(),
    ensures
        i <= scan_u64(s, i, acc).1 <= s.len(),
    decreases s.len() - i,
{
    if i < s.len() && is_digit(s[i]) {
        lemma_scan_u64_bounds(s, i + 1, acc * 10 + digit_val(s[i]));
    }
}

/// A successful number parse ends within the string, past where it began.
pub proof fn lemma_parse_u64_bounds(s: Seq<char>, i: int)
    requires
        spec_parse_u64(s, i) matches Ok((v, j)),
    ensures
        spec_parse_u64(s, i) matches Ok((v, j)) && i < j <= s.len(),
{
    lemma_scan_u64_bounds(s, i + 1, digit_val(s[i]));
    assert(scan_u64(s, i, 0) == scan_u64(s, i + 1, digit_val(s[i])));
}

/// Scanning never lowers the accumulator.
proof fn lemma_scan_lower_bound(s: Seq<char>, i: int, acc: nat)
    ensures
        scan_u64(s, i, acc).0 >= acc,
    decreases s.len() - i,
{
    if 0 <= i && i < s.len() && is_digit(s[i]) {
        lemma_scan_lower_bound(s, i + 1, acc * 10 + digit_val(s[i]));
    }
}

/// Parse an unsigned integer at position `i`.
pub fn parse_u64(s: &Vec<char>, i: usize) -> (r: Result<(u64, usize), DecodeError>)
    ensures
        match r {
            Ok((v, j)) => spec_parse_u64(s@, i as int) == Ok::<(u64, int), DecodeError>(
                (v, j as int),
            ) && i < j <= s@.len(),
            Err(e) => spec_parse_u64(s@, i as int) == Err::<(u64, int), DecodeError>(e),
        },
{
    let n: usize = s.len();
    if i >= n || !exec_is_digit(s[i]) {
        return Err(DecodeError::Malformed);
    }
    let d0: u64 = (s[i] as u32 - 48) as u64;
    proof {
        assert(scan_u64(s@, i as int, 0) == scan_u64(s@, i + 1, digit_val(s@[i as int])));
    }
    let mut j: usize = i + 1;
    let mut acc: u64 = d0;
    while j < n && exec_is_digit(s[j])
        invariant
            n == s@.len(),
            i < j <= n,
            scan_u64(s@, i as int, 0) == scan_u64(s@, j as int, acc as nat),
        decreases n - j,
    {
        let d: u64 = (s[j] as u32 - 48) as u64;
        proof {
            assert(d == digit_val(s@[j as int]));
        }
        if acc > 1844674407370955161u64 {
            proof {
                lemma_scan_lower_bound(s@, j + 1, acc as nat * 10 + digit_val(s@[j as int]));
            }
            return Err(DecodeError::Malformed);
        }
        let t: u64 = acc * 10;
        if d > u64::MAX - t {
            proof {
                lemma_scan_lower_bound(s@, j + 1, acc as nat * 10 + digit_val(s@[j as int]));
            }
            return Err(DecodeError::Malformed);
        }
        acc = t + d;
        j += 1;
    }
    Ok((acc, j))
}

/// `c` is a decimal digit.
pub fn exec_is_digit(c: char) -> (b: bool)
    ensures
        b == is_digit(c),
{
    let u: u32 = c as u32;
    48 <= u && u <= 57
}

/// Folding distributes over appending one digit.
proof fn lemma_val_acc_snoc(ds: Seq<char>, c: char, acc: nat)
    ensures
        val_acc(ds + seq![c], acc) == val_acc(ds, acc) * 10 + digit_val(c),
    decreases ds.len(),
{
    if ds.len() == 0 {
        assert(ds + seq![c] =~= seq![c]);
        assert(val_acc(seq![c], acc) == val_acc(seq![c].subrange(1, 1), acc * 10 + digit_val(c)));
    } else {
        let dds = ds + seq![c];
        assert(dds.subrange(1, dds.len() as int) =~= ds.subrange(1, ds.len() as int) + seq![c]);
        lemma_val_acc_snoc(ds.subrange(1, ds.len() as int), c, acc * 10 + digit_val(ds[0]));
    }
}

/// The digits of `n` are digits, there is at least one, and folding them onto
/// `acc` yields `acc * pow10(len) + n`.
proof fn lemma_dec_digits(n: u64, acc: nat)
    ensures
        dec_digits(n).len() >= 1,
        forall|k: int| 0 <= k < dec_digits(n).len() ==> is_digit(#[trigger] dec_digits(n)[k]),
        val_acc(dec_digits(n), acc) == acc * pow10(dec_digits(n).len()) + n,
    decreases n,
{
    if n < 10 {
        assert(digit_val(digit_char(n as nat)) == n);
        assert(dec_digits(n).len() == 1);
        assert(pow10(1) == 10 * pow10(0));
        assert(is_digit(digit_char(n as nat)));
        assert(val_acc(seq![digit_char(n as nat)], acc) == val_acc(
            seq![digit_char(n as nat)].subrange(1, 1),
            (acc * 10 + n) as nat,
        ));
        assert(val_acc(dec_digits(n), acc) == acc * 10 + n);
    } else {
        lemma_dec_digits(n / 10, acc);
        let pre = dec_digits(n / 10);
        let c = digit_char((n % 10) as nat);
        lemma_val_acc_snoc(pre, c, acc);
        assert(digit_val(c) == n % 10);
        assert(val_acc(pre + seq![c], acc) == (acc * pow10(pre.len()) + n / 10) * 10 + n % 10);
        assert((acc * pow10(pre.len()) + n / 10) * 10 == acc * pow10(pre.len()) * 10 + (n / 10)
            * 10) by (nonlinear_arith);
        assert(acc * pow10(pre.len()) * 10 == acc * (pow10(pre.len()) * 10)) by (nonlinear_arith);
        assert(pow10(pre.len()) * 10 == pow10(pre.len() + 1));
        assert(dec_digits(n) =~= pre + seq![c]);
        assert(forall|k: int|
            0 <= k < dec_digits(n).len() ==> is_digit(#[trigger] dec_digits(n)[k]));
    }
}

/// A rendered number is a nonempty run of digit characters.
pub proof fn lemma_dec_digits_shape(n: u64)
    ensures
        dec_digits(n).len() >= 1,
        forall|k: int| 0 <= k < dec_digits(n).len() ==> is_digit(#[trigger] dec_digits(n)[k]),
{
    lemma_dec_digits(n, 0);
}

/// Scanning a run of digits `ds` at `i`, delimited by the end of the string
/// or a non-digit, folds exactly those digits.
proof fn lemma_scan_digit_run(s: Seq<char>, i: int, ds: Seq<char>, acc: nat)
    requires
        lit_at(s, i, ds),
        forall|k: int| 0 <= k < ds.len() ==> is_digit(#[trigger] ds[k]),
        i + ds.len() == s.len() || !is_digit(s[i + ds.len()]),
    ensures
        scan_u64(s, i, acc) == (val_acc(ds, acc), i + ds.len()),
    decreases ds.len(),
{
    if ds.len() == 0 {
        assert(scan_u64(s, i, acc) == (acc, i));
    } else {
        assert(s.subrange(i, i + ds.len())[0] == ds[0]);
        assert(s[i] == ds[0]);
        let tail = ds.subrange(1, ds.len() as int);
        assert(s.subrange(i + 1, i + 1 + tail.len()) =~= tail) by {
            assert(forall|k: int|
                0 <= k < tail.len() ==> s.subrange(i + 1, i + 1 + tail.len())[k] == s[i + 1 + k]
                    && #[trigger] tail[k] == ds[k + 1]);
            assert(forall|k: int|
                0 <= k < ds.len() ==> #[trigger] s.subrange(i, i + ds.len())[k] == s[i + k]);
        }
        lemma_scan_digit_run(s, i + 1, tail, acc * 10 + digit_val(ds[0]));
    }
}

/// Scanning the rendered digits of `n`, delimited by the end of the string or
/// a non-digit, yields `n` and the position after the digits.
pub proof fn lemma_parse_u64_round(s: Seq<char>, i: int, n: u64)
    requires
        lit_at(s, i, dec_digits(n)),
        i + dec_digits(n).len() == s.len() || !is_digit(s[i + dec_digits(n).len()]),
    ensures
        spec_parse_u64(s, i) == Ok::<(u64, int), DecodeError>((n, i + dec_digits(n).len())),
{
    lemma_dec_digits(n, 0);
    lemma_scan_digit_run(s, i, dec_digits(n), 0);
    assert(s.subrange(i, i + dec_digits(n).len())[0] == dec_digits(n)[0]);
    assert(is_digit(s[i]));
    assert(val_acc(dec_digits(n), 0) == 0 * pow10(dec_digits(n).len()) + n);
}

} // verus!
