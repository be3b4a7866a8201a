//! JSON string escaping and unescaping, with the proof that scanning an
//! escaped string yields the unescaped characters back.

use vstd::prelude::*;
use crate::wire::{DecodeError, lit_at, lemma_lit_at_concat, lemma_lit_at_index};
use crate::num::{digit_char, digit_val, is_digit, exec_is_digit};

verus! {

/// The character for a hex digit value below sixteen (lowercase).
pub open spec fn hex_char(d: nat) -> char {
    if d < 10 {
        digit_char(d)
    } else {
        (((d + 87) as u8) as char)
    }
}

/// `c` is a hexadecimal digit.
pub open spec fn is_hex(c: char) -> bool {
    is_digit(c) || (97 <= c as u32 && c as u32 <= 102) || (65 <= c as u32 && c as u32 <= 70)
}

/// The value of a hexadecimal digit character.
pub open spec fn hex_val(c: char) -> nat {
    if is_digit(c) {
        digit_val(c)
    } else if 97 <= c as u32 && c as u32 <= 102 {
        (c as u32 - 87) as nat
    } else {
        (c as u32 - 55) as nat
    }
}

/// The escape of one character inside a JSON string.
pub open spec fn esc_char(c: char) -> Seq<char> {
    if c == '"' {
        seq!['\\', '"']
    } else if c == '\\' {
        seq!['\\', '\\']
    } else if c == '\n' {
        seq!['\\', 'n']
    } else if c == '\r' {
        seq!['\\', 'r']
    } else if c == '\t' {
        seq!['\\', 't']
    } else if (c as u32) < 32 {
        seq!['\\', 'u', '0', '0', hex_char((c as u32 / 16) as nat), hex_char(
            (c as u32 % 16) as nat,
        )]
    } else {
        seq![c]
    }
}

/// The escaped form of a string's characters.
pub open spec fn esc(t: Seq<char>) -> Seq<char>
    decreases t.len(),
{
    if t.len() == 0 {
        Seq::empty()
    } else {
        esc_char(t[0]) + esc(t.subrange(1, t.len() as int))
    }
}

/// Escaping distributes over concatenation.
pub proof fn lemma_esc_app(a: Seq<char>, b: Seq<char>)
    ensures
        esc(a + b) == esc(a) + esc(b),
    decreases a.len(),
{
    if a.len() == 0 {
        assert(a + b =~= b);
        assert(esc(a) + esc(b) =~= esc(b));
    } else {
        let t = a + b;
        assert(t.subrange(1, t.len() as int) =~= a.subrange(1, a.len() as int) + b);
        lemma_esc_app(a.subrange(1, a.len() as int), b);
        assert(esc(a + b) =~= esc(a) + esc(b));
    }
}

/// Scan the contents of a JSON string starting at `i` (just after the opening
/// quote), unescaping as it goes, up to and including the closing quote.
/// Returns the characters and the position after the closing quote.
pub open spec fn scan_jstr(s: Seq<char>, i: int, acc: Seq<char>) -> Result<
    (Seq<char>, int),
    DecodeError,
>
    decreases s.len() - i,
{
    if i < 0 || i >= s.len() {
        Err(DecodeError::Malformed)
    } else if s[i] == '"' {
        Ok((acc, i + 1))
    } else if s[i] == '\\' {
        if i + 1 < s.len() {
            let e = s[i + 1];
            if e == '"' {
                scan_jstr(s, i + 2, acc.push('"'))
            } else if e == '\\' {
                scan_jstr(s, i + 2, acc.push('\\'))
            } else if e == '/' {
                scan_jstr(s, i + 2, acc.push('/'))
            } else if e == 'n' {
                scan_jstr(s, i + 2, acc.push('\n'))
            } else if e == 'r' {
                scan_jstr(s, i + 2, acc.push('\r'))
            } else if e == 't' {
                scan_jstr(s, i + 2, acc.push('\t'))
            } else if e == 'b' {
                scan_jstr(s, i + 2, acc.push('\u{8}'))
            } else if e == 'f' {
                scan_jstr(s, i + 2, acc.push('\u{c}'))
            } else if e == 'u' {
                if i + 5 < s.len() && s[i + 2] == '0' && s[i + 3] == '0' && is_hex(s[i + 4])
                    && is_hex(s[i + 5]) {
                    scan_jstr(
                        s,
                        i + 6,
                        acc.push((((hex_val(s[i + 4]) * 16 + hex_val(s[i + 5])) as u8) as char)),
                    )
                } else {
                    Err(DecodeError::Malformed)
                }
            } else {
                Err(DecodeError::Malformed)
            }
        } else {
            Err(DecodeError::Malformed)
        }
    } else if (s[i] as u32) < 32 {
        Err(DecodeError::Malformed)
    } else {
        scan_jstr(s, i + 1, acc.push(s[i]))
    }
}

/// A successful string scan ends within the string, past where it began.
pub proof fn lemma_scan_jstr_bounds(s: Seq<char>, i: int, acc: Seq<char>)
    requires
        scan_jstr(s, i, acc) matches Ok((t, j)),
    ensures
        scan_jstr(s, i, acc) matches Ok((t, j)) && i < j <= s.len(),
    decreases s.len() - i,
{
    if i < 0 || i >= s.len() {
    } else if s[i] == '"' {
    } else if s[i] == '\\' {
        if i + 1 < s.len() {
            let e = s[i + 1];
            if e == 'u' {
                if i + 5 < s.len() && s[i + 2] == '0' && s[i + 3] == '0' && is_hex(s[i + 4])
                    && is_hex(s[i + 5]) {
                    lemma_scan_jstr_bounds(
                        s,
                        i + 6,
                        acc.push((((hex_val(s[i + 4]) * 16 + hex_val(s[i + 5])) as u8) as char)),
                    );
                }
            } else if e == '"' || e == '\\' || e == '/' || e == 'n' || e == 'r' || e == 't' || e
                == 'b' || e == 'f' {
                let c = if e == '"' {
                    '"'
                } else if e == '\\' {
                    '\\'
                } else if e == '/' {
                    '/'
                } else if e == 'n' {
                    '\n'
                } else if e == 'r' {
                    '\r'
                } else if e == 't' {
                    '\t'
                } else if e == 'b' {
                    '\u{8}'
                } else {
                    '\u{c}'
                };
                lemma_scan_jstr_bounds(s, i + 2, acc.push(c));
            }
        }
    } else if (s[i] as u32) < 32 {
    } else {
        lemma_scan_jstr_bounds(s, i + 1, acc.push(s[i]));
    }
}

/// The escape of a single-character string is the character's escape.
pub proof fn lemma_esc_single(c: char)
    ensures
        esc(seq![c]) == esc_char(c),
{
    assert(seq![c].subrange(1, 1) =~= Seq::<char>::empty());
    assert(esc(Seq::<char>::empty()) =~= Seq::<char>::empty());
    assert(seq![c][0] == c);
    assert(esc(seq![c]) =~= esc_char(c) + Seq::<char>::empty());
    assert(esc_char(c) + Seq::<char>::empty() =~= esc_char(c));
}

/// Scanning the escaped form of `t` followed by a closing quote yields `t`.
pub proof fn lemma_scan_jstr_esc(s: Seq<char>, i: int, t: Seq<char>, acc: Seq<char>)
    requires
        lit_at(s, i, esc(t) + seq!['"']),
    ensures
        scan_jstr(s, i, acc) == Ok::<(Seq<char>, int), DecodeError>(
            (acc + t, i + esc(t).len() + 1),
        ),
    decreases t.len(),
{
    if t.len() == 0 {
        assert(esc(t) + seq!['"'] =~= seq!['"']);
        lemma_lit_at_index(s, i, seq!['"'], 0);
        assert(s[i] == '"');
        assert(acc + t =~= acc);
    } else {
        let c = t[0];
        let tail = t.subrange(1, t.len() as int);
        assert(esc(t) + seq!['"'] =~= esc_char(c) + (esc(tail) + seq!['"']));
        lemma_lit_at_concat(s, i, esc_char(c), esc(tail) + seq!['"']);
        let ecl = esc_char(c).len() as int;
        assert forall|k: int| 0 <= k < ecl implies s[i + k] == esc_char(c)[k] by {
            lemma_lit_at_index(s, i, esc_char(c), k);
        }
        lemma_lit_at_index(s, i, esc_char(c), 0);
        assert(s[i] == esc_char(c)[0]);
        lemma_scan_jstr_esc(s, i + ecl, tail, acc.push(c));
        assert(acc.push(c) =~= acc + seq![c]);
        assert(acc.push(c) + tail =~= acc + t);
        if c == '"' || c == '\\' || c == '\n' || c == '\r' || c == '\t' {
            assert(s[i] == '\\');
        } else if (c as u32) < 32 {
            assert(s[i] == '\\' && s[i + 1] == 'u' && s[i + 2] == '0' && s[i + 3] == '0');
            let hi = (c as u32 / 16) as nat;
            let lo = (c as u32 % 16) as nat;
            assert(s[i + 4] == hex_char(hi) && s[i + 5] == hex_char(lo));
            assert(is_hex(hex_char(hi)) && hex_val(hex_char(hi)) == hi);
            assert(is_hex(hex_char(lo)) && hex_val(hex_char(lo)) == lo);
            assert(hi * 16 + lo == c as u32);
            assert((((c as u32) as u8) as char) == c) by {
                vstd::utf8::char_u32_cast(c, c as u32);
            }
        } else {
            assert(s[i] == c);
            assert(c != '"' && c != '\\' && (c as u32) >= 32);
        }
    }
}

/// Append the escaped form of `t`'s characters, without surrounding quotes.
pub fn push_jstr(out: &mut Vec<char>, t: &str)
    ensures
        final(out)@ == old(out)@ + esc(t@),
{
    let cs = crate::wire::to_chars(t);
    let n: usize = cs.len();
    let mut k: usize = 0;
    while k < n
        invariant
            n == cs@.len(),
            cs@ == t@,
            k <= n,
            out@ == old(out)@ + esc(t@.subrange(0, k as int)),
        decreases n - k,
    {
        let c = cs[k];
        push_esc_char(out, c);
        proof {
            assert(t@.subrange(0, k + 1) =~= t@.subrange(0, k as int) + seq![t@[k as int]]);
            lemma_esc_app(t@.subrange(0, k as int), seq![t@[k as int]]);
            lemma_esc_single(c);
            assert(out@ =~= old(out)@ + esc(t@.subrange(0, k + 1)));
        }
        k += 1;
    }
    proof {
        assert(t@.subrange(0, n as int) =~= t@);
    }
}

/// Append the escape of one character.
fn push_esc_char(out: &mut Vec<char>, c: char)
    ensures
        final(out)@ == old(out)@ + esc_char(c),
{
    let u: u32 = c as u32;
    if c == '"' {
        out.push('\\');
        out.push('"');
    } else if c == '\\' {
        out.push('\\');
        out.push('\\');
    } else if c == '\n' {
        out.push('\\');
        out.push('n');
    } else if c == '\r' {
        out.push('\\');
        out.push('r');
    } else if c == '\t' {
        out.push('\\');
        out.push('t');
    } else if u < 32 {
        out.push('\\');
        out.push('u');
        out.push('0');
        out.push('0');
        out.push(exec_hex_char(u / 16));
        out.push(exec_hex_char(u % 16));
    } else {
        out.push(c);
    }
    proof {
        assert(final(out)@ =~= old(out)@ + esc_char(c));
    }
}

/// The character for a hex digit value below sixteen.
fn exec_hex_char(d: u32) -> (r: char)
    requires
        d < 16,
    ensures
        r == hex_char(d as nat),
{
    if d < 10 {
        ((d as u8) + 48) as char
    } else {
        ((d as u8) + 87) as char
    }
}

/// The value of a hexadecimal digit character.
fn exec_hex_val(c: char) -> (r: u32)
    requires
        is_hex(c),
    ensures
        r == hex_val(c),
        r < 16,
{
    let u: u32 = c as u32;
    if 48 <= u && u <= 57 {
        u - 48
    } else if 97 <= u && u <= 102 {
        u - 87
    } else {
        u - 55
    }
}

/// Scan the contents of a JSON string at `i` (just after the opening quote),
/// up to and including the closing quote.
pub fn parse_jstr(s: &Vec<char>, i: usize) -> (r: Result<(Vec<char>, usize), DecodeError>)
    ensures
        match r {
            Ok((t, j)) => scan_jstr(s@, i as int, Seq::empty()) == Ok::<
                (Seq<char>, int),
                DecodeError,
            >((t@, j as int)) && i < j <= s@.len(),
            Err(e) => scan_jstr(s@, i as int, Seq::empty()) == Err::<(Seq<char>, int), DecodeError>(
                e,
            ),
        },
{
    broadcast use crate::wire::lemma_push_concat;

    let n: usize = s.len();
    let mut j: usize = i;
    let mut acc: Vec<char> = Vec::new();
    loop
        invariant
            n == s@.len(),
            i <= j,
            scan_jstr(s@, i as int, Seq::empty()) == scan_jstr(s@, j as int, acc@),
        decreases n - j,
    {
        if j >= n {
            proof {
                assert(scan_jstr(s@, j as int, acc@) == Err::<(Seq<char>, int), DecodeError>(
                    DecodeError::Malformed,
                ));
            }
            return Err(DecodeError::Malformed);
        }
        let c = s[j];
        if c == '"' {
            proof {
                assert(scan_jstr(s@, j as int, acc@) == Ok::<(Seq<char>, int), DecodeError>(
                    (acc@, j + 1),
                ));
            }
            return Ok((acc, j + 1));
        }
        if c == '\\' {
            if j + 1 >= n {
                proof {
                    assert(scan_jstr(s@, j as int, acc@) == Err::<(Seq<char>, int), DecodeError>(
                        DecodeError::Malformed,
                    ));
                }
                return Err(DecodeError::Malformed);
            }
            let e = s[j + 1];
            if e == '"' {
                proof {
                    assert(scan_jstr(s@, j as int, acc@) == scan_jstr(s@, j + 2, acc@.push('"')));
                }
                acc.push('"');
                j += 2;
            } else if e == '\\' {
                proof {
                    assert(scan_jstr(s@, j as int, acc@) == scan_jstr(s@, j + 2, acc@.push('\\')));
                }
                acc.push('\\');
                j += 2;
            } else if e == '/' {
                proof {
                    assert(scan_jstr(s@, j as int, acc@) == scan_jstr(s@, j + 2, acc@.push('/')));
                }
                acc.push('/');
                j += 2;
            } else if e == 'n' {
                proof {
                    assert(scan_jstr(s@, j as int, acc@) == scan_jstr(s@, j + 2, acc@.push('\n')));
                }
                acc.push('\n');
                j += 2;
            } else if e == 'r' {
                proof {
                    assert(scan_jstr(s@, j as int, acc@) == scan_jstr(s@, j + 2, acc@.push('\r')));
                }
                acc.push('\r');
                j += 2;
            } else if e == 't' {
                proof {
                    assert(scan_jstr(s@, j as int, acc@) == scan_jstr(s@, j + 2, acc@.push('\t')));
                }
                acc.push('\t');
                j += 2;
            } else if e == 'b' {
                proof {
                    assert(scan_jstr(s@, j as int, acc@) == scan_jstr(s@, j + 2, acc@.push('\u{8}')));
                }
                acc.push('\u{8}');
                j += 2;
            } else if e == 'f' {
                proof {
                    assert(scan_jstr(s@, j as int, acc@) == scan_jstr(s@, j + 2, acc@.push('\u{c}')));
                }
                acc.push('\u{c}');
                j += 2;
            } else if e == 'u' {
                if n - j > 5 && s[j + 2] == '0' && s[j + 3] == '0' && exec_is_hex(s[j + 4])
                    && exec_is_hex(s[j + 5]) {
                    let v: u32 = exec_hex_val(s[j + 4]) * 16 + exec_hex_val(s[j + 5]);
                    let d: char = (v as u8) as char;
                    proof {
                        assert(v == hex_val(s@[j + 4]) * 16 + hex_val(s@[j + 5]));
                        assert(scan_jstr(s@, j as int, acc@) == scan_jstr(s@, j + 6, acc@.push(d)));
                    }
                    acc.push(d);
                    j += 6;
                } else {
                    proof {
                        assert(scan_jstr(s@, j as int, acc@) == Err::<
                            (Seq<char>, int),
                            DecodeError,
                        >(DecodeError::Malformed));
                    }
                    return Err(DecodeError::Malformed);
                }
            } else {
                proof {
                    assert(scan_jstr(s@, j as int, acc@) == Err::<(Seq<char>, int), DecodeError>(
                        DecodeError::Malformed,
                    ));
                }
                return Err(DecodeError::Malformed);
            }
        } else if (c as u32) < 32 {
            proof {
                assert(scan_jstr(s@, j as int, acc@) == Err::<(Seq<char>, int), DecodeError>(
                    DecodeError::Malformed,
                ));
            }
            return Err(DecodeError::Malformed);
        } else {
            proof {
                assert(scan_jstr(s@, j as int, acc@) == scan_jstr(s@, j + 1, acc@.push(c)));
            }
            acc.push(c);
            j += 1;
        }
    }
}

/// `c` is a hexadecimal digit.
fn exec_is_hex(c: char) -> (b: bool)
    ensures
        b == is_hex(c),
{
    let u: u32 = c as u32;
    exec_is_digit(c) || (97 <= u && u <= 102) || (65 <= u && u <= 70)
}

} // verus!
