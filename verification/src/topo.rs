//! An object whose values are string arrays, as a topology message carries it
//! on the wire, with the proof that scanning a printed object yields it back.

use vstd::prelude::*;
use crate::wire::{DecodeError, lit_at, lemma_lit_at_concat, lemma_lit_at_index, chars_to_string};
use crate::arr::{print_qstr, spec_parse_qstr, lemma_parse_qstr_round, lemma_parse_qstr_bounds,
    parse_qstr, push_qstr, print_str_arr, spec_parse_str_arr, lemma_parse_str_arr_round,
    lemma_parse_str_arr_bounds, parse_str_arr, push_str_arr, strs_view};

verus! {

/// The views of a sequence of named string lists.
pub open spec fn topo_view(ps: Seq<(String, Vec<String>)>) -> Seq<(Seq<char>, Seq<Seq<char>>)> {
    Seq::new(ps.len(), |k: int| (ps[k].0@, strs_view(ps[k].1@)))
}

/// One named string list on the wire.
pub open spec fn print_topo_entry(p: (Seq<char>, Seq<Seq<char>>)) -> Seq<char> {
    print_qstr(p.0) + seq![':'] + print_str_arr(p.1)
}

/// The entries after the first, each preceded by a comma.
pub open spec fn print_topo_items(ps: Seq<(Seq<char>, Seq<Seq<char>>)>) -> Seq<char>
    decreases ps.len(),
{
    if ps.len() == 0 {
        Seq::empty()
    } else {
        seq![','] + print_topo_entry(ps[0]) + print_topo_items(ps.subrange(1, ps.len() as int))
    }
}

/// An object of named string lists on the wire, entries in order.
pub open spec fn print_topo(ps: Seq<(Seq<char>, Seq<Seq<char>>)>) -> Seq<char> {
    if ps.len() == 0 {
        seq!['{', '}']
    } else {
        seq!['{'] + print_topo_entry(ps[0]) + print_topo_items(ps.subrange(1, ps.len() as int))
            + seq!['}']
    }
}

/// Scan object entries from a position that holds a key, folding onto `acc`,
/// up to and including the closing brace.
pub open spec fn scan_topo_items(
    s: Seq<char>,
    i: int,
    acc: Seq<(Seq<char>, Seq<Seq<char>>)>,
) -> Result<(Seq<(Seq<char>, Seq<Seq<char>>)>, int), DecodeError>
    decreases s.len() - i,
    via scan_topo_items_dec
{
    match spec_parse_qstr(s, i) {
        Ok((k, j)) => {
            if j < s.len() && s[j] == ':' {
                match spec_parse_str_arr(s, j + 1) {
                    Ok((v, j2)) => {
                        if j2 < s.len() && s[j2] == '}' {
                            Ok((acc.push((k, v)), j2 + 1))
                        } else if j2 < s.len() && s[j2] == ',' {
                            scan_topo_items(s, j2 + 1, acc.push((k, v)))
                        } else {
                            Err(DecodeError::Malformed)
                        }
                    },
                    Err(e) => Err(e),
                }
            } else {
                Err(DecodeError::Malformed)
            }
        },
        Err(e) => Err(e),
    }
}

#[via_fn]
proof fn scan_topo_items_dec(s: Seq<char>, i: int, acc: Seq<(Seq<char>, Seq<Seq<char>>)>) {
    match spec_parse_qstr(s, i) {
        Ok((k, j)) => {
            lemma_parse_qstr_bounds(s, i);
            if j < s.len() && s[j] == ':' {
                match spec_parse_str_arr(s, j + 1) {
                    Ok((v, j2)) => {
                        lemma_parse_str_arr_bounds(s, j + 1);
                    },
                    Err(e) => {},
                }
            }
        },
        Err(e) => {},
    }
}

/// Parse an object of named string lists at `i`: the entries in order and the
/// position after the closing brace.
pub open spec fn spec_parse_topo(s: Seq<char>, i: int) -> Result<
    (Seq<(Seq<char>, Seq<Seq<char>>)>, int),
    DecodeError,
> {
    if 0 <= i && i + 1 < s.len() && s[i] == '{' {
        if s[i + 1] == '}' {
            Ok((Seq::empty(), i + 2))
        } else {
            scan_topo_items(s, i + 1, Seq::empty())
        }
    } else {
        Err(DecodeError::Malformed)
    }
}

/// Scanning printed entries yields them, appended to the accumulator.
proof fn lemma_scan_topo_items_round(
    s: Seq<char>,
    i: int,
    ps: Seq<(Seq<char>, Seq<Seq<char>>)>,
    acc: Seq<(Seq<char>, Seq<Seq<char>>)>,
)
    requires
        ps.len() >= 1,
        lit_at(
            s,
            i,
            print_topo_entry(ps[0]) + print_topo_items(ps.subrange(1, ps.len() as int))
                + seq!['}'],
        ),
    ensures
        scan_topo_items(s, i, acc) == Ok::<(Seq<(Seq<char>, Seq<Seq<char>>)>, int), DecodeError>(
            (
                acc + ps,
                i + print_topo_entry(ps[0]).len() + print_topo_items(
                    ps.subrange(1, ps.len() as int),
                ).len() + 1,
            ),
        ),
    decreases ps.len(),
{
    let e0 = print_topo_entry(ps[0]);
    let rest = ps.subrange(1, ps.len() as int);
    let tail = print_topo_items(rest) + seq!['}'];
    assert(e0 + print_topo_items(rest) + seq!['}'] =~= e0 + tail);
    lemma_lit_at_concat(s, i, e0, tail);
    assert(e0 =~= print_qstr(ps[0].0) + (seq![':'] + print_str_arr(ps[0].1)));
    lemma_lit_at_concat(s, i, print_qstr(ps[0].0), seq![':'] + print_str_arr(ps[0].1));
    let j = i + print_qstr(ps[0].0).len();
    lemma_lit_at_concat(s, j, seq![':'], print_str_arr(ps[0].1));
    lemma_lit_at_index(s, j, seq![':'], 0);
    lemma_parse_qstr_round(s, i, ps[0].0);
    assert(s[j] == ':');
    lemma_parse_str_arr_round(s, j + 1, ps[0].1);
    let j2 = j + 1 + print_str_arr(ps[0].1).len();
    lemma_lit_at_index(s, j2, tail, 0);
    assert(j2 == i + e0.len());
    if rest.len() == 0 {
        assert(tail =~= seq!['}']);
        assert(s[j2] == '}');
        assert(acc.push((ps[0].0, ps[0].1)) =~= acc + ps);
    } else {
        assert(tail[0] == (seq![','] + print_topo_entry(rest[0]) + print_topo_items(
            rest.subrange(1, rest.len() as int),
        ))[0]);
        assert(s[j2] == ',');
        assert(tail =~= seq![','] + (print_topo_entry(rest[0]) + print_topo_items(
            rest.subrange(1, rest.len() as int),
        ) + seq!['}']));
        lemma_lit_at_concat(
            s,
            j2,
            seq![','],
            print_topo_entry(rest[0]) + print_topo_items(rest.subrange(1, rest.len() as int))
                + seq!['}'],
        );
        lemma_scan_topo_items_round(s, j2 + 1, rest, acc.push((ps[0].0, ps[0].1)));
        assert(acc.push((ps[0].0, ps[0].1)) + rest =~= acc + ps);
        assert(print_topo_items(ps.subrange(1, ps.len() as int)).len() == 1 + print_topo_entry(
            rest[0],
        ).len() + print_topo_items(rest.subrange(1, rest.len() as int)).len());
    }
}

/// Parsing a printed object yields it back.
pub proof fn lemma_parse_topo_round(s: Seq<char>, i: int, ps: Seq<(Seq<char>, Seq<Seq<char>>)>)
    requires
        lit_at(s, i, print_topo(ps)),
    ensures
        spec_parse_topo(s, i) == Ok::<(Seq<(Seq<char>, Seq<Seq<char>>)>, int), DecodeError>(
            (ps, i + print_topo(ps).len()),
        ),
{
    if ps.len() == 0 {
        lemma_lit_at_index(s, i, print_topo(ps), 0);
        lemma_lit_at_index(s, i, print_topo(ps), 1);
        assert(s[i] == '{' && s[i + 1] == '}');
        assert(ps =~= Seq::<(Seq<char>, Seq<Seq<char>>)>::empty());
    } else {
        let body = print_topo_entry(ps[0]) + print_topo_items(ps.subrange(1, ps.len() as int))
            + seq!['}'];
        assert(print_topo(ps) =~= seq!['{'] + body);
        lemma_lit_at_concat(s, i, seq!['{'], body);
        lemma_lit_at_index(s, i, seq!['{'], 0);
        lemma_lit_at_index(s, i + 1, body, 0);
        assert(body[0] == print_topo_entry(ps[0])[0]);
        assert(print_topo_entry(ps[0])[0] == print_qstr(ps[0].0)[0]);
        assert(s[i + 1] == '"');
        lemma_scan_topo_items_round(s, i + 1, ps, Seq::empty());
        assert(Seq::empty() + ps =~= ps);
    }
}

/// Parse object entries starting at a key position.
fn parse_topo_items(s: &Vec<char>, i: usize, acc: Vec<(String, Vec<String>)>) -> (r: Result<
    (Vec<(String, Vec<String>)>, usize),
    DecodeError,
>)
    ensures
        match r {
            Ok((ps, j)) => scan_topo_items(s@, i as int, topo_view(acc@)) == Ok::<
                (Seq<(Seq<char>, Seq<Seq<char>>)>, int),
                DecodeError,
            >((topo_view(ps@), j as int)) && i < j <= s@.len(),
            Err(e) => scan_topo_items(s@, i as int, topo_view(acc@)) == Err::<
                (Seq<(Seq<char>, Seq<Seq<char>>)>, int),
                DecodeError,
            >(e),
        },
    decreases s@.len() - i,
{
    match parse_qstr(s, i) {
        Err(e) => Err(e),
        Ok((k, j)) => {
            let n = s.len();
            if j < n && s[j] == ':' {
                match parse_str_arr(s, j + 1) {
                    Err(e) => Err(e),
                    Ok((v, j2)) => {
                        let key = chars_to_string(&k);
                        proof {
                            assert(topo_view(acc@.push((key, v))) =~= topo_view(acc@).push(
                                (k@, strs_view(v@)),
                            ));
                        }
                        if j2 < n && s[j2] == '}' {
                            let mut a = acc;
                            a.push((key, v));
                            Ok((a, j2 + 1))
                        } else if j2 < n && s[j2] == ',' {
                            let mut a = acc;
                            a.push((key, v));
                            parse_topo_items(s, j2 + 1, a)
                        } else {
                            Err(DecodeError::Malformed)
                        }
                    },
                }
            } else {
                Err(DecodeError::Malformed)
            }
        },
    }
}

/// Parse an object of named string lists at `i`.
pub fn parse_topo(s: &Vec<char>, i: usize) -> (r: Result<
    (Vec<(String, Vec<String>)>, usize),
    DecodeError,
>)
    ensures
        match r {
            Ok((ps, j)) => spec_parse_topo(s@, i as int) == Ok::<
                (Seq<(Seq<char>, Seq<Seq<char>>)>, int),
                DecodeError,
            >((topo_view(ps@), j as int)) && i < j <= s@.len(),
            Err(e) => spec_parse_topo(s@, i as int) == Err::<
                (Seq<(Seq<char>, Seq<Seq<char>>)>, int),
                DecodeError,
            >(e),
        },
{
    let n = s.len();
    if i < n && s[i] == '{' && i + 1 < n {
        if s[i + 1] == '}' {
            let r: Vec<(String, Vec<String>)> = Vec::new();
            proof {
                assert(topo_view(r@) =~= Seq::<(Seq<char>, Seq<Seq<char>>)>::empty());
            }
            Ok((r, i + 2))
        } else {
            let r = parse_topo_items(s, i + 1, Vec::new());
            proof {
                assert(topo_view(Seq::<(String, Vec<String>)>::empty()) =~= Seq::<
                    (Seq<char>, Seq<Seq<char>>),
                >::empty());
            }
            r
        }
    } else {
        Err(DecodeError::Malformed)
    }
}

/// Entries appended on the right extend the printed entries on the right.
proof fn lemma_topo_items_snoc(a: Seq<(Seq<char>, Seq<Seq<char>>)>, x: (Seq<char>, Seq<Seq<char>>))
    ensures
        print_topo_items(a.push(x)) == print_topo_items(a) + seq![','] + print_topo_entry(x),
    decreases a.len(),
{
    if a.len() == 0 {
        let ap = a.push(x);
        assert(ap[0] == x);
        assert(ap.subrange(1, ap.len() as int) =~= Seq::<(Seq<char>, Seq<Seq<char>>)>::empty());
        assert(print_topo_items(ap.subrange(1, ap.len() as int)) == Seq::<char>::empty());
        assert(print_topo_items(ap) == seq![','] + print_topo_entry(x) + print_topo_items(
            ap.subrange(1, ap.len() as int),
        ));
        assert(print_topo_items(a.push(x)) =~= print_topo_items(a) + seq![','] + print_topo_entry(
            x,
        ));
    } else {
        let ap = a.push(x);
        assert(ap[0] == a[0]);
        assert(ap.subrange(1, ap.len() as int) =~= a.subrange(1, a.len() as int).push(x));
        lemma_topo_items_snoc(a.subrange(1, a.len() as int), x);
        assert(print_topo_items(ap) == seq![','] + print_topo_entry(ap[0]) + print_topo_items(
            ap.subrange(1, ap.len() as int),
        ));
        assert(print_topo_items(a) == seq![','] + print_topo_entry(a[0]) + print_topo_items(
            a.subrange(1, a.len() as int),
        ));
        assert(print_topo_items(a.push(x)) =~= print_topo_items(a) + seq![','] + print_topo_entry(
            x,
        ));
    }
}

/// Append the printed form of one named string list.
fn push_topo_entry(out: &mut Vec<char>, key: &String, val: &Vec<String>)
    ensures
        final(out)@ == old(out)@ + print_topo_entry((key@, strs_view(val@))),
{
    push_qstr(out, key.as_str());
    out.push(':');
    push_str_arr(out, val);
    proof {
        assert(final(out)@ =~= old(out)@ + print_topo_entry((key@, strs_view(val@))));
    }
}

/// Append the printed form of an object of named string lists.
pub fn push_topo(out: &mut Vec<char>, ps: &Vec<(String, Vec<String>)>)
    ensures
        final(out)@ == old(out)@ + print_topo(topo_view(ps@)),
{
    let m = ps.len();
    out.push('{');
    if m == 0 {
        out.push('}');
        proof {
            assert(topo_view(ps@).len() == 0);
            assert(final(out)@ =~= old(out)@ + print_topo(topo_view(ps@)));
        }
    } else {
        let ghost v = topo_view(ps@);
        push_topo_entry(out, &ps[0].0, &ps[0].1);
        proof {
            assert(v.subrange(1, 1) =~= Seq::<(Seq<char>, Seq<Seq<char>>)>::empty());
            assert(print_topo_items(v.subrange(1, 1)) == Seq::<char>::empty());
            assert(v[0] == (ps@[0].0@, strs_view(ps@[0].1@)));
            assert(out@ =~= old(out)@ + seq!['{'] + print_topo_entry(v[0]) + print_topo_items(
                v.subrange(1, 1),
            ));
        }
        let mut k: usize = 1;
        while k < m
            invariant
                1 <= k <= m,
                m == ps@.len(),
                v == topo_view(ps@),
                out@ == old(out)@ + seq!['{'] + print_topo_entry(v[0]) + print_topo_items(
                    v.subrange(1, k as int),
                ),
            decreases m - k,
        {
            out.push(',');
            push_topo_entry(out, &ps[k].0, &ps[k].1);
            proof {
                assert(v.subrange(1, k + 1) =~= v.subrange(1, k as int).push(v[k as int]));
                assert(v[k as int] == (ps@[k as int].0@, strs_view(ps@[k as int].1@)));
                lemma_topo_items_snoc(v.subrange(1, k as int), v[k as int]);
                assert(out@ =~= old(out)@ + seq!['{'] + print_topo_entry(v[0]) + print_topo_items(
                    v.subrange(1, k + 1),
                ));
            }
            k += 1;
        }
        out.push('}');
        proof {
            assert(v.subrange(1, m as int) =~= v.subrange(1, v.len() as int));
            assert(final(out)@ =~= old(out)@ + print_topo(topo_view(ps@)));
        }
    }
}

} // verus!
