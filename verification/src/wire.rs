//! Low-level pieces of the wire format: character buffers, literal matching,
//! and the conversions between `String` and `Vec<char>` that the codec builds
//! on.

use vstd::prelude::*;

verus! {

/// Why a line was rejected by the codec.
#[derive(Clone, Copy, Debug, PartialEq, Eq, Structural)]
pub enum DecodeError {
    /// The line is not a well-formed record of the wire grammar.
    Malformed,
    /// The record is well-formed but its `type` tag belongs to no variant of
    /// the payload union the codec was asked to decode.
    UnknownTag,
}

/// The characters of `s`, in order.
pub fn to_chars(s: &str) -> (r: Vec<char>)
    ensures
        r@ == s@,
{
    let n: usize = s.unicode_len();
    let mut r: Vec<char> = Vec::new();
    let mut i: usize = 0;
    while i < n
        invariant
            n == s@.len(),
            i <= n,
            r@ == s@.subrange(0, i as int),
        decreases n - i,
    {
        r.push(s.get_char(i));
        proof {
            assert(r@ =~= s@.subrange(0, i + 1));
        }
        i += 1;
    }
    proof {
        assert(r@ =~= s@);
    }
    r
}

/// Relies on `String`'s `FromIterator<char>` impl: collecting a sequence of
/// characters yields the string with exactly those characters.
#[verifier::external_body]
pub fn chars_to_string(v: &Vec<char>) -> (r: String)
    ensures
        r@ == v@,
{
    v.iter().collect()
}

/// `lit` occurs in `s` starting at position `i`.
pub open spec fn lit_at(s: Seq<char>, i: int, lit: Seq<char>) -> bool {
    0 <= i && i + lit.len() <= s.len() && s.subrange(i, i + lit.len()) == lit
}

/// Append the characters of `lit` to `out`.
pub fn push_lit(out: &mut Vec<char>, lit: &str)
    ensures
        final(out)@ == old(out)@ + lit@,
{
    let n: usize = lit.unicode_len();
    let mut j: usize = 0;
    while j < n
        invariant
            n == lit@.len(),
            j <= n,
            out@ == old(out)@ + lit@.subrange(0, j as int),
        decreases n - j,
    {
        out.push(lit.get_char(j));
        proof {
            assert(out@ =~= old(out)@ + lit@.subrange(0, j + 1));
        }
        j += 1;
    }
    proof {
        assert(out@ =~= old(out)@ + lit@);
    }
}

/// Whether `lit` occurs in `s` at position `i`.
pub fn match_lit(s: &Vec<char>, i: usize, lit: &str) -> (b: bool)
    ensures
        b == lit_at(s@, i as int, lit@),
{
    let n: usize = lit.unicode_len();
    let sl: usize = s.len();
    if n > sl || i > sl - n {
        proof {
            assert(!lit_at(s@, i as int, lit@));
        }
        return false;
    }
    let mut j: usize = 0;
    while j < n
        invariant
            n == lit@.len(),
            sl == s@.len(),
            i + n <= sl,
            j <= n,
            forall|k: int| 0 <= k < j ==> s@[i + k] == lit@[k],
        decreases n - j,
    {
        if s[i + j] != lit.get_char(j) {
            proof {
                assert(s@.subrange(i as int, i + lit@.len())[j as int] != lit@[j as int]);
            }
            return false;
        }
        j += 1;
    }
    proof {
        assert(s@.subrange(i as int, i + lit@.len()) =~= lit@);
    }
    true
}

/// A vector's view is never longer than `usize::MAX`.
pub proof fn lemma_vec_len_fits(s: &Vec<char>)
    ensures
        s@.len() <= usize::MAX,
{
    broadcast use vstd::std_specs::vec::axiom_spec_len;

    assert(vstd::std_specs::vec::spec_vec_len(s) == s@.len());
}

/// Pushing one element is appending a singleton.
pub broadcast proof fn lemma_push_concat(a: Seq<char>, c: char)
    ensures
        #[trigger] a.push(c) == a + seq![c],
{
    assert(a.push(c) =~= a + seq![c]);
}

/// A literal occurrence gives each of its characters.
pub proof fn lemma_lit_at_index(s: Seq<char>, i: int, lit: Seq<char>, k: int)
    requires
        lit_at(s, i, lit),
        0 <= k < lit.len(),
    ensures
        s[i + k] == lit[k],
{
    assert(s.subrange(i, i + lit.len())[k] == lit[k]);
}

/// An occurrence of a concatenation is an occurrence of each part.
pub proof fn lemma_lit_at_concat(s: Seq<char>, i: int, a: Seq<char>, b: Seq<char>)
    requires
        lit_at(s, i, a + b),
    ensures
        lit_at(s, i, a),
        lit_at(s, i + a.len(), b),
{
    assert(s.subrange(i, i + a.len()) =~= a) by {
        assert forall|k: int| 0 <= k < a.len() implies s.subrange(i, i + a.len())[k] == a[k] by {
            assert(s.subrange(i, i + (a + b).len() as int)[k] == (a + b)[k]);
        }
    }
    assert(s.subrange(i + a.len(), i + a.len() + b.len()) =~= b) by {
        assert forall|k: int|
            0 <= k < b.len() implies s.subrange(i + a.len(), i + a.len() + b.len())[k] == b[k] by {
            assert(s.subrange(i, i + (a + b).len() as int)[a.len() + k] == (a + b)[a.len() + k]);
        }
    }
}

} // verus!
