//! Quoted strings, arrays of unsigned integers and arrays of strings on the
//! wire, with the proofs that scanning a printed value yields it back.

use vstd::prelude::*;
use crate::wire::{DecodeError, lit_at, lemma_lit_at_concat, lemma_lit_at_index, chars_to_string};
use crate::jstr::{esc, scan_jstr, lemma_scan_jstr_esc, lemma_scan_jstr_bounds, parse_jstr,
    push_jstr};
use crate::num::{dec_digits, is_digit, spec_parse_u64, lemma_parse_u64_round,
    lemma_parse_u64_bounds, lemma_dec_digits_shape, parse_u64, push_u64};

verus! {

/// The views of a sequence of strings.
pub open spec fn strs_view(xs: Seq<String>) -> Seq<Seq<char>> {
    Seq::new(xs.len(), |k: int| xs[k]@)
}

/// A quoted, escaped string on the wire.
pub open spec fn print_qstr(t: Seq<char>) -> Seq<char> {
    seq!['"'] + esc(t) + seq!['"']
}

/// Parse a quoted string value at `i`: the result and the position after the
/// closing quote.
pub open spec fn spec_parse_qstr(s: Seq<char>, i: int) -> Result<(Seq<char>, int), DecodeError> {
    if 0 <= i && i < s.len() && s[i] == '"' {
        scan_jstr(s, i + 1, Seq::empty())
    } else {
        Err(DecodeError::Malformed)
    }
}

/// Parsing a printed string yields it back.
pub proof fn lemma_parse_qstr_round(s: Seq<char>, i: int, t: Seq<char>)
    requires
        lit_at(s, i, print_qstr(t)),
    ensures
        spec_parse_qstr(s, i) == Ok::<(Seq<char>, int), DecodeError>(
            (t, i + print_qstr(t).len()),
        ),
{
    assert(print_qstr(t) =~= seq!['"'] + (esc(t) + seq!['"']));
    lemma_lit_at_concat(s, i, seq!['"'], esc(t) + seq!['"']);
    lemma_lit_at_index(s, i, seq!['"'], 0);
    lemma_scan_jstr_esc(s, i + 1, t, Seq::empty());
    assert(Seq::empty() + t =~= t);
}

/// A successful quoted-string parse ends within the string, past its start.
pub proof fn lemma_parse_qstr_bounds(s: Seq<char>, i: int)
    requires
        spec_parse_qstr(s, i) matches Ok((t, j)),
    ensures
        spec_parse_qstr(s, i) matches Ok((t, j)) && i < j <= s.len(),
{
    lemma_scan_jstr_bounds(s, i + 1, Seq::empty());
}

/// Parse a quoted string value at `i`.
pub fn parse_qstr(s: &Vec<char>, i: usize) -> (r: Result<(Vec<char>, usize), DecodeError>)
    ensures
        match r {
            Ok((t, j)) => spec_parse_qstr(s@, i as int) == Ok::<(Seq<char>, int), DecodeError>(
                (t@, j as int),
            ) && i < j <= s@.len(),
            Err(e) => spec_parse_qstr(s@, i as int) == Err::<(Seq<char>, int), DecodeError>(e),
        },
{
    if i < s.len() && s[i] == '"' {
        parse_jstr(s, i + 1)
    } else {
        Err(DecodeError::Malformed)
    }
}

/// Append the printed form of a string value.
pub fn push_qstr(out: &mut Vec<char>, t: &str)
    ensures
        final(out)@ == old(out)@ + print_qstr(t@),
{
    out.push('"');
    push_jstr(out, t);
    out.push('"');
    proof {
        assert(final(out)@ =~= old(out)@ + print_qstr(t@));
    }
}

/// The items of an integer array after the first, each preceded by a comma.
pub open spec fn print_u64_items(xs: Seq<u64>) -> Seq<char>
    decreases xs.len(),
{
    if xs.len() == 0 {
        Seq::empty()
    } else {
        seq![','] + dec_digits(xs[0]) + print_u64_items(xs.subrange(1, xs.len() as int))
    }
}

/// An integer array on the wire.
pub open spec fn print_u64_arr(xs: Seq<u64>) -> Seq<char> {
    if xs.len() == 0 {
        seq!['[', ']']
    } else {
        seq!['['] + dec_digits(xs[0]) + print_u64_items(xs.subrange(1, xs.len() as int))
            + seq![']']
    }
}

/// Scan integer array items from a position that holds a value, folding onto
/// `acc`, up to and including the closing bracket.
pub open spec fn scan_u64_items(s: Seq<char>, i: int, acc: Seq<u64>) -> Result<
    (Seq<u64>, int),
    DecodeError,
>
    decreases s.len() - i,
    via scan_u64_items_dec
{
    match spec_parse_u64(s, i) {
        Ok((v, j)) => {
            if j < s.len() && s[j] == ']' {
                Ok((acc.push(v), j + 1))
            } else if j < s.len() && s[j] == ',' {
                scan_u64_items(s, j + 1, acc.push(v))
            } else {
                Err(DecodeError::Malformed)
            }
        },
        Err(e) => Err(e),
    }
}

#[via_fn]
proof fn scan_u64_items_dec(s: Seq<char>, i: int, acc: Seq<u64>) {
    match spec_parse_u64(s, i) {
        Ok((v, j)) => {
            lemma_parse_u64_bounds(s, i);
        },
        Err(e) => {},
    }
}

/// Parse an integer array at `i`: the elements and the position after the
/// closing bracket.
pub open spec fn spec_parse_u64_arr(s: Seq<char>, i: int) -> Result<(Seq<u64>, int), DecodeError> {
    if 0 <= i && i + 1 < s.len() && s[i] == '[' {
        if s[i + 1] == ']' {
            Ok((Seq::empty(), i + 2))
        } else {
            scan_u64_items(s, i + 1, Seq::empty())
        }
    } else {
        Err(DecodeError::Malformed)
    }
}

/// Scanning printed items yields them, appended to the accumulator.
proof fn lemma_scan_u64_items_round(s: Seq<char>, i: int, xs: Seq<u64>, acc: Seq<u64>)
    requires
        xs.len() >= 1,
        lit_at(
            s,
            i,
            dec_digits(xs[0]) + print_u64_items(xs.subrange(1, xs.len() as int)) + seq![']'],
        ),
    ensures
        scan_u64_items(s, i, acc) == Ok::<(Seq<u64>, int), DecodeError>(
            (
                acc + xs,
                i + dec_digits(xs[0]).len() + print_u64_items(
                    xs.subrange(1, xs.len() as int),
                ).len() + 1,
            ),
        ),
    decreases xs.len(),
{
    let d0 = dec_digits(xs[0]);
    let rest = xs.subrange(1, xs.len() as int);
    let tail = print_u64_items(rest) + seq![']'];
    assert(d0 + print_u64_items(rest) + seq![']'] =~= d0 + tail);
    lemma_lit_at_concat(s, i, d0, tail);
    let j = i + d0.len();
    lemma_lit_at_index(s, j, tail, 0);
    lemma_dec_digits_shape(xs[0]);
    if rest.len() == 0 {
        assert(tail =~= seq![']']);
        assert(s[j] == ']');
        assert(!is_digit(']'));
        lemma_parse_u64_round(s, i, xs[0]);
        assert(acc.push(xs[0]) =~= acc + xs);
    } else {
        assert(tail[0] == (seq![','] + dec_digits(rest[0]) + print_u64_items(
            rest.subrange(1, rest.len() as int),
        ))[0]);
        assert(s[j] == ',');
        assert(!is_digit(','));
        lemma_parse_u64_round(s, i, xs[0]);
        assert(tail =~= seq![','] + (dec_digits(rest[0]) + print_u64_items(
            rest.subrange(1, rest.len() as int),
        ) + seq![']']));
        lemma_lit_at_concat(
            s,
            j,
            seq![','],
            dec_digits(rest[0]) + print_u64_items(rest.subrange(1, rest.len() as int))
                + seq![']'],
        );
        lemma_scan_u64_items_round(s, j + 1, rest, acc.push(xs[0]));
        assert(acc.push(xs[0]) + rest =~= acc + xs);
        assert(print_u64_items(xs.subrange(1, xs.len() as int)).len() == 1 + dec_digits(
            rest[0],
        ).len() + print_u64_items(rest.subrange(1, rest.len() as int)).len());
    }
}

/// Parsing a printed integer array yields it back.
pub proof fn lemma_parse_u64_arr_round(s: Seq<char>, i: int, xs: Seq<u64>)
    requires
        lit_at(s, i, print_u64_arr(xs)),
    ensures
        spec_parse_u64_arr(s, i) == Ok::<(Seq<u64>, int), DecodeError>(
            (xs, i + print_u64_arr(xs).len()),
        ),
{
    if xs.len() == 0 {
        lemma_lit_at_index(s, i, print_u64_arr(xs), 0);
        lemma_lit_at_index(s, i, print_u64_arr(xs), 1);
        assert(s[i] == '[' && s[i + 1] == ']');
        assert(xs =~= Seq::<u64>::empty());
    } else {
        let body = dec_digits(xs[0]) + print_u64_items(xs.subrange(1, xs.len() as int))
            + seq![']'];
        assert(print_u64_arr(xs) =~= seq!['['] + body);
        lemma_lit_at_concat(s, i, seq!['['], body);
        lemma_lit_at_index(s, i, seq!['['], 0);
        lemma_dec_digits_shape(xs[0]);
        lemma_lit_at_index(s, i + 1, body, 0);
        assert(body[0] == dec_digits(xs[0])[0]);
        assert(is_digit(s[i + 1]));
        assert(s[i + 1] != ']');
        lemma_scan_u64_items_round(s, i + 1, xs, Seq::empty());
        assert(Seq::empty() + xs =~= xs);
    }
}

/// Parse integer array items starting at a value position.
fn parse_u64_items(s: &Vec<char>, i: usize, acc: Vec<u64>) -> (r: Result<
    (Vec<u64>, usize),
    DecodeError,
>)
    ensures
        match r {
            Ok((xs, j)) => scan_u64_items(s@, i as int, acc@) == Ok::<
                (Seq<u64>, int),
                DecodeError,
            >((xs@, j as int)) && i < j <= s@.len(),
            Err(e) => scan_u64_items(s@, i as int, acc@) == Err::<(Seq<u64>, int), DecodeError>(e),
        },
    decreases s@.len() - i,
{
    match parse_u64(s, i) {
        Err(e) => Err(e),
        Ok((v, j)) => {
            let n = s.len();
            if j < n && s[j] == ']' {
                let mut a = acc;
                a.push(v);
                Ok((a, j + 1))
            } else if j < n && s[j] == ',' {
                let mut a = acc;
                a.push(v);
                parse_u64_items(s, j + 1, a)
            } else {
                Err(DecodeError::Malformed)
            }
        },
    }
}

/// Parse an integer array at `i`.
pub fn parse_u64_arr(s: &Vec<char>, i: usize) -> (r: Result<(Vec<u64>, usize), DecodeError>)
    ensures
        match r {
            Ok((xs, j)) => spec_parse_u64_arr(s@, i as int) == Ok::<
                (Seq<u64>, int),
                DecodeError,
            >((xs@, j as int)) && i < j <= s@.len(),
            Err(e) => spec_parse_u64_arr(s@, i as int) == Err::<(Seq<u64>, int), DecodeError>(e),
        },
{
    let n = s.len();
    if i < n && s[i] == '[' && i + 1 < n {
        if s[i + 1] == ']' {
            Ok((Vec::new(), i + 2))
        } else {
            parse_u64_items(s, i + 1, Vec::new())
        }
    } else {
        Err(DecodeError::Malformed)
    }
}

/// Items appended on the right extend the printed items on the right.
proof fn lemma_u64_items_snoc(a: Seq<u64>, x: u64)
    ensures
        print_u64_items(a.push(x)) == print_u64_items(a) + seq![','] + dec_digits(x),
    decreases a.len(),
{
    if a.len() == 0 {
        let ap = a.push(x);
        assert(ap[0] == x);
        assert(ap.subrange(1, ap.len() as int) =~= Seq::<u64>::empty());
        assert(print_u64_items(ap.subrange(1, ap.len() as int)) == Seq::<char>::empty());
        assert(print_u64_items(ap) == seq![','] + dec_digits(x) + print_u64_items(
            ap.subrange(1, ap.len() as int),
        ));
        assert(print_u64_items(a.push(x)) =~= print_u64_items(a) + seq![','] + dec_digits(x));
    } else {
        let ap = a.push(x);
        assert(ap[0] == a[0]);
        assert(ap.subrange(1, ap.len() as int) =~= a.subrange(1, a.len() as int).push(x));
        lemma_u64_items_snoc(a.subrange(1, a.len() as int), x);
        assert(print_u64_items(ap) == seq![','] + dec_digits(ap[0]) + print_u64_items(
            ap.subrange(1, ap.len() as int),
        ));
        assert(print_u64_items(a) == seq![','] + dec_digits(a[0]) + print_u64_items(
            a.subrange(1, a.len() as int),
        ));
        let c = seq![','];
        let d = dec_digits(a[0]);
        let pp = print_u64_items(a.subrange(1, a.len() as int));
        let d2 = dec_digits(x);
        assert(print_u64_items(ap) == c + d + (pp + c + d2));
        assert(print_u64_items(a) + c + d2 == ((c + d + pp) + c) + d2);
        assert(c + d + (pp + c + d2) =~= ((c + d + pp) + c) + d2);
        assert(print_u64_items(a.push(x)) == print_u64_items(a) + seq![','] + dec_digits(x));
    }
}

/// Append the printed form of an integer array.
pub fn push_u64_arr(out: &mut Vec<char>, xs: &Vec<u64>)
    ensures
        final(out)@ == old(out)@ + print_u64_arr(xs@),
{
    let m = xs.len();
    out.push('[');
    if m == 0 {
        out.push(']');
        proof {
            assert(final(out)@ =~= old(out)@ + print_u64_arr(xs@));
        }
    } else {
        push_u64(out, xs[0]);
        proof {
            assert(xs@.subrange(1, 1) =~= Seq::<u64>::empty());
            assert(out@ =~= old(out)@ + seq!['['] + dec_digits(xs@[0]) + print_u64_items(
                xs@.subrange(1, 1),
            ));
        }
        let mut k: usize = 1;
        while k < m
            invariant
                1 <= k <= m,
                m == xs@.len(),
                out@ == old(out)@ + seq!['['] + dec_digits(xs@[0]) + print_u64_items(
                    xs@.subrange(1, k as int),
                ),
            decreases m - k,
        {
            out.push(',');
            push_u64(out, xs[k]);
            proof {
                assert(xs@.subrange(1, k + 1) =~= xs@.subrange(1, k as int).push(xs@[k as int]));
                lemma_u64_items_snoc(xs@.subrange(1, k as int), xs@[k as int]);
                assert(out@ =~= old(out)@ + seq!['['] + dec_digits(xs@[0]) + print_u64_items(
                    xs@.subrange(1, k + 1),
                ));
            }
            k += 1;
        }
        out.push(']');
        proof {
            assert(xs@.subrange(1, m as int) =~= xs@.subrange(1, xs@.len() as int));
            assert(final(out)@ =~= old(out)@ + print_u64_arr(xs@));
        }
    }
}

/// The items of a string array after the first, each preceded by a comma.
pub open spec fn print_str_items(xs: Seq<Seq<char>>) -> Seq<char>
    decreases xs.len(),
{
    if xs.len() == 0 {
        Seq::empty()
    } else {
        seq![','] + print_qstr(xs[0]) + print_str_items(xs.subrange(1, xs.len() as int))
    }
}

/// A string array on the wire.
pub open spec fn print_str_arr(xs: Seq<Seq<char>>) -> Seq<char> {
    if xs.len() == 0 {
        seq!['[', ']']
    } else {
        seq!['['] + print_qstr(xs[0]) + print_str_items(xs.subrange(1, xs.len() as int))
            + seq![']']
    }
}

/// Scan string array items from a position that holds a value, folding onto
/// `acc`, up to and including the closing bracket.
pub open spec fn scan_str_items(s: Seq<char>, i: int, acc: Seq<Seq<char>>) -> Result<
    (Seq<Seq<char>>, int),
    DecodeError,
>
    decreases s.len() - i,
    via scan_str_items_dec
{
    match spec_parse_qstr(s, i) {
        Ok((t, j)) => {
            if j < s.len() && s[j] == ']' {
                Ok((acc.push(t), j + 1))
            } else if j < s.len() && s[j] == ',' {
                scan_str_items(s, j + 1, acc.push(t))
            } else {
                Err(DecodeError::Malformed)
            }
        },
        Err(e) => Err(e),
    }
}

#[via_fn]
proof fn scan_str_items_dec(s: Seq<char>, i: int, acc: Seq<Seq<char>>) {
    match spec_parse_qstr(s, i) {
        Ok((t, j)) => {
            lemma_parse_qstr_bounds(s, i);
        },
        Err(e) => {},
    }
}

/// Parse a string array at `i`: the elements and the position after the
/// closing bracket.
pub open spec fn spec_parse_str_arr(s: Seq<char>, i: int) -> Result<
    (Seq<Seq<char>>, int),
    DecodeError,
> {
    if 0 <= i && i + 1 < s.len() && s[i] == '[' {
        if s[i + 1] == ']' {
            Ok((Seq::empty(), i + 2))
        } else {
            scan_str_items(s, i + 1, Seq::empty())
        }
    } else {
        Err(DecodeError::Malformed)
    }
}

/// Scanning printed items yields them, appended to the accumulator.
proof fn lemma_scan_str_items_round(s: Seq<char>, i: int, xs: Seq<Seq<char>>, acc: Seq<Seq<char>>)
    requires
        xs.len() >= 1,
        lit_at(
            s,
            i,
            print_qstr(xs[0]) + print_str_items(xs.subrange(1, xs.len() as int)) + seq![']'],
        ),
    ensures
        scan_str_items(s, i, acc) == Ok::<(Seq<Seq<char>>, int), DecodeError>(
            (
                acc + xs,
                i + print_qstr(xs[0]).len() + print_str_items(
                    xs.subrange(1, xs.len() as int),
                ).len() + 1,
            ),
        ),
    decreases xs.len(),
{
    let q0 = print_qstr(xs[0]);
    let rest = xs.subrange(1, xs.len() as int);
    let tail = print_str_items(rest) + seq![']'];
    assert(q0 + print_str_items(rest) + seq![']'] =~= q0 + tail);
    lemma_lit_at_concat(s, i, q0, tail);
    let j = i + q0.len();
    lemma_lit_at_index(s, j, tail, 0);
    lemma_parse_qstr_round(s, i, xs[0]);
    if rest.len() == 0 {
        assert(tail =~= seq![']']);
        assert(s[j] == ']');
        assert(acc.push(xs[0]) =~= acc + xs);
    } else {
        assert(tail[0] == (seq![','] + print_qstr(rest[0]) + print_str_items(
            rest.subrange(1, rest.len() as int),
        ))[0]);
        assert(s[j] == ',');
        assert(tail =~= seq![','] + (print_qstr(rest[0]) + print_str_items(
            rest.subrange(1, rest.len() as int),
        ) + seq![']']));
        lemma_lit_at_concat(
            s,
            j,
            seq![','],
            print_qstr(rest[0]) + print_str_items(rest.subrange(1, rest.len() as int))
                + seq![']'],
        );
        lemma_scan_str_items_round(s, j + 1, rest, acc.push(xs[0]));
        assert(acc.push(xs[0]) + rest =~= acc + xs);
        assert(print_str_items(xs.subrange(1, xs.len() as int)).len() == 1 + print_qstr(
            rest[0],
        ).len() + print_str_items(rest.subrange(1, rest.len() as int)).len());
    }
}

/// Parsing a printed string array yields it back.
pub proof fn lemma_parse_str_arr_round(s: Seq<char>, i: int, xs: Seq<Seq<char>>)
    requires
        lit_at(s, i, print_str_arr(xs)),
    ensures
        spec_parse_str_arr(s, i) == Ok::<(Seq<Seq<char>>, int), DecodeError>(
            (xs, i + print_str_arr(xs).len()),
        ),
{
    if xs.len() == 0 {
        lemma_lit_at_index(s, i, print_str_arr(xs), 0);
        lemma_lit_at_index(s, i, print_str_arr(xs), 1);
        assert(s[i] == '[' && s[i + 1] == ']');
        assert(xs =~= Seq::<Seq<char>>::empty());
    } else {
        let body = print_qstr(xs[0]) + print_str_items(xs.subrange(1, xs.len() as int))
            + seq![']'];
        assert(print_str_arr(xs) =~= seq!['['] + body);
        lemma_lit_at_concat(s, i, seq!['['], body);
        lemma_lit_at_index(s, i, seq!['['], 0);
        lemma_lit_at_index(s, i + 1, body, 0);
        assert(body[0] == print_qstr(xs[0])[0]);
        assert(s[i + 1] == '"');
        lemma_scan_str_items_round(s, i + 1, xs, Seq::empty());
        assert(Seq::empty() + xs =~= xs);
    }
}

/// A string-item scan stays within the string and never moves backwards.
pub proof fn lemma_scan_str_items_bounds(s: Seq<char>, i: int, acc: Seq<Seq<char>>)
    requires
        scan_str_items(s, i, acc) matches Ok((xs, j)),
    ensures
        scan_str_items(s, i, acc) matches Ok((xs, j)) && i < j <= s.len(),
    decreases s.len() - i,
{
    match spec_parse_qstr(s, i) {
        Ok((t, j)) => {
            lemma_parse_qstr_bounds(s, i);
            if j < s.len() && s[j] == ']' {
            } else if j < s.len() && s[j] == ',' {
                lemma_scan_str_items_bounds(s, j + 1, acc.push(t));
            }
        },
        Err(e) => {},
    }
}

/// A successful string-array parse ends within the string, past its start.
pub proof fn lemma_parse_str_arr_bounds(s: Seq<char>, i: int)
    requires
        spec_parse_str_arr(s, i) matches Ok((xs, j)),
    ensures
        spec_parse_str_arr(s, i) matches Ok((xs, j)) && i < j <= s.len(),
{
    if 0 <= i && i + 1 < s.len() && s[i] == '[' && s[i + 1] != ']' {
        lemma_scan_str_items_bounds(s, i + 1, Seq::empty());
    }
}

/// Parse string array items starting at a value position.
fn parse_str_items(s: &Vec<char>, i: usize, acc: Vec<String>) -> (r: Result<
    (Vec<String>, usize),
    DecodeError,
>)
    ensures
        match r {
            Ok((xs, j)) => scan_str_items(s@, i as int, strs_view(acc@)) == Ok::<
                (Seq<Seq<char>>, int),
                DecodeError,
            >((strs_view(xs@), j as int)) && i < j <= s@.len(),
            Err(e) => scan_str_items(s@, i as int, strs_view(acc@)) == Err::<
                (Seq<Seq<char>>, int),
                DecodeError,
            >(e),
        },
    decreases s@.len() - i,
{
    match parse_qstr(s, i) {
        Err(e) => Err(e),
        Ok((t, j)) => {
            let n = s.len();
            let el = chars_to_string(&t);
            proof {
                assert(strs_view(acc@.push(el)) =~= strs_view(acc@).push(t@));
            }
            if j < n && s[j] == ']' {
                let mut a = acc;
                a.push(el);
                Ok((a, j + 1))
            } else if j < n && s[j] == ',' {
                let mut a = acc;
                a.push(el);
                parse_str_items(s, j + 1, a)
            } else {
                Err(DecodeError::Malformed)
            }
        },
    }
}

/// Parse a string array at `i`.
pub fn parse_str_arr(s: &Vec<char>, i: usize) -> (r: Result<(Vec<String>, usize), DecodeError>)
    ensures
        match r {
            Ok((xs, j)) => spec_parse_str_arr(s@, i as int) == Ok::<
                (Seq<Seq<char>>, int),
                DecodeError,
            >((strs_view(xs@), j as int)) && i < j <= s@.len(),
            Err(e) => spec_parse_str_arr(s@, i as int) == Err::<(Seq<Seq<char>>, int), DecodeError>(
                e,
            ),
        },
{
    let n = s.len();
    if i < n && s[i] == '[' && i + 1 < n {
        if s[i + 1] == ']' {
            let r: Vec<String> = Vec::new();
            proof {
                assert(strs_view(r@) =~= Seq::<Seq<char>>::empty());
            }
            Ok((r, i + 2))
        } else {
            let r = parse_str_items(s, i + 1, Vec::new());
            proof {
                assert(strs_view(Seq::<String>::empty()) =~= Seq::<Seq<char>>::empty());
            }
            r
        }
    } else {
        Err(DecodeError::Malformed)
    }
}

/// Items appended on the right extend the printed items on the right.
proof fn lemma_str_items_snoc(a: Seq<Seq<char>>, x: Seq<char>)
    ensures
        print_str_items(a.push(x)) == print_str_items(a) + seq![','] + print_qstr(x),
    decreases a.len(),
{
    if a.len() == 0 {
        let ap = a.push(x);
        assert(ap[0] == x);
        assert(ap.subrange(1, ap.len() as int) =~= Seq::<Seq<char>>::empty());
        assert(print_str_items(ap.subrange(1, ap.len() as int)) == Seq::<char>::empty());
        assert(print_str_items(ap) == seq![','] + print_qstr(x) + print_str_items(
            ap.subrange(1, ap.len() as int),
        ));
        assert(print_str_items(a.push(x)) =~= print_str_items(a) + seq![','] + print_qstr(x));
    } else {
        let ap = a.push(x);
        assert(ap[0] == a[0]);
        assert(ap.subrange(1, ap.len() as int) =~= a.subrange(1, a.len() as int).push(x));
        lemma_str_items_snoc(a.subrange(1, a.len() as int), x);
        assert(print_str_items(ap) == seq![','] + print_qstr(ap[0]) + print_str_items(
            ap.subrange(1, ap.len() as int),
        ));
        assert(print_str_items(a) == seq![','] + print_qstr(a[0]) + print_str_items(
            a.subrange(1, a.len() as int),
        ));
        let c = seq![','];
        let d = print_qstr(a[0]);
        let pp = print_str_items(a.subrange(1, a.len() as int));
        let d2 = print_qstr(x);
        assert(print_str_items(ap) == c + d + (pp + c + d2));
        assert(print_str_items(a) + c + d2 == ((c + d + pp) + c) + d2);
        assert(c + d + (pp + c + d2) =~= ((c + d + pp) + c) + d2);
        assert(print_str_items(a.push(x)) == print_str_items(a) + seq![','] + print_qstr(x));
    }
}

/// Append the printed form of a string array.
pub fn push_str_arr(out: &mut Vec<char>, xs: &Vec<String>)
    ensures
        final(out)@ == old(out)@ + print_str_arr(strs_view(xs@)),
{
    let m = xs.len();
    out.push('[');
    if m == 0 {
        out.push(']');
        proof {
            assert(strs_view(xs@).len() == 0);
            assert(final(out)@ =~= old(out)@ + print_str_arr(strs_view(xs@)));
        }
    } else {
        let ghost v = strs_view(xs@);
        push_qstr(out, xs[0].as_str());
        proof {
            assert(v.subrange(1, 1) =~= Seq::<Seq<char>>::empty());
            assert(v[0] == xs@[0]@);
            assert(out@ =~= old(out)@ + seq!['['] + print_qstr(v[0]) + print_str_items(
                v.subrange(1, 1),
            ));
        }
        let mut k: usize = 1;
        while k < m
            invariant
                1 <= k <= m,
                m == xs@.len(),
                v == strs_view(xs@),
                out@ == old(out)@ + seq!['['] + print_qstr(v[0]) + print_str_items(
                    v.subrange(1, k as int),
                ),
            decreases m - k,
        {
            out.push(',');
            push_qstr(out, xs[k].as_str());
            proof {
                assert(v.subrange(1, k + 1) =~= v.subrange(1, k as int).push(v[k as int]));
                assert(v[k as int] == xs@[k as int]@);
                lemma_str_items_snoc(v.subrange(1, k as int), v[k as int]);
                assert(out@ =~= old(out)@ + seq!['['] + print_qstr(v[0]) + print_str_items(
                    v.subrange(1, k + 1),
                ));
            }
            k += 1;
        }
        out.push(']');
        proof {
            assert(v.subrange(1, m as int) =~= v.subrange(1, v.len() as int));
            assert(final(out)@ =~= old(out)@ + print_str_arr(strs_view(xs@)));
        }
    }
}

} // verus!
