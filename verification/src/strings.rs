//! Verified string algorithms: substring search, literal replacement and
//! lexicographic comparison.
//!
//! Paths, file names and file contents are handled as character sequences.
//! Every function here is executable code proved against a spec function
//! over `Seq<char>`.

use vstd::prelude::*;
use vstd::string::*;

verus! {

/// The pattern `pat` occurs in `s` at position `i`.
pub open spec fn matches_at(s: Seq<char>, pat: Seq<char>, i: int) -> bool {
    0 <= i && i + pat.len() <= s.len() && s.subrange(i, i + pat.len()) == pat
}

/// The pattern `pat` occurs somewhere in `s`.
pub open spec fn str_has(s: Seq<char>, pat: Seq<char>) -> bool {
    exists|i: int| matches_at(s, pat, i)
}

/// `i` is the leftmost position at which `pat` occurs in `s`.
pub open spec fn first_match_at(s: Seq<char>, pat: Seq<char>, i: int) -> bool {
    matches_at(s, pat, i) && forall|j: int| 0 <= j < i ==> !matches_at(s, pat, j)
}

/// `s` begins with `pat`.
pub open spec fn str_begins_with(s: Seq<char>, pat: Seq<char>) -> bool {
    pat.len() <= s.len() && s.subrange(0, pat.len() as int) == pat
}

/// `s` ends with `pat`.
pub open spec fn str_finishes_with(s: Seq<char>, pat: Seq<char>) -> bool {
    pat.len() <= s.len() && s.subrange(s.len() - pat.len(), s.len() as int) == pat
}

/// `s` with `rep` inserted before, between and after its characters:
/// the result of replacing the empty pattern everywhere.
pub open spec fn spec_interleave(s: Seq<char>, rep: Seq<char>) -> Seq<char>
    decreases s.len(),
{
    if s.len() == 0 {
        Seq::<char>::empty()
    } else {
        seq![s[0]] + rep + spec_interleave(s.subrange(1, s.len() as int), rep)
    }
}

/// Every occurrence of `pat` in `s` replaced by `rep`: leftmost first and
/// non-overlapping, with replaced text not scanned again. An empty pattern
/// matches before, between and after every character.
pub open spec fn spec_replace_all(s: Seq<char>, pat: Seq<char>, rep: Seq<char>) -> Seq<char>
    decreases s.len(),
{
    if pat.len() == 0 {
        rep + spec_interleave(s, rep)
    } else if s.len() < pat.len() {
        s
    } else if s.subrange(0, pat.len() as int) == pat {
        rep + spec_replace_all(s.subrange(pat.len() as int, s.len() as int), pat, rep)
    } else {
        seq![s[0]] + spec_replace_all(s.subrange(1, s.len() as int), pat, rep)
    }
}

/// Whether `pat` occurs in `s` at position `i`.
pub fn matches_prefix_at(s: &str, pat: &str, i: usize) -> (r: bool)
    requires
        i + pat@.len() <= s@.len(),
    ensures
        r == matches_at(s@, pat@, i as int),
{
    let s_len: usize = s.unicode_len();
    let pat_len: usize = pat.unicode_len();
    let mut j: usize = 0;
    while j < pat_len
        invariant
            0 <= j <= pat_len,
            pat_len == pat@.len(),
            s_len == s@.len(),
            i + pat_len <= s_len,
            forall|k: int| 0 <= k < j ==> s@[i + k] == pat@[k],
        decreases pat_len - j,
    {
        if s.get_char(i + j) != pat.get_char(j) {
            assert(s@.subrange(i as int, i + pat@.len()) != pat@) by {
                assert(s@.subrange(i as int, i + pat@.len())[j as int] != pat@[j as int]);
            }
            return false;
        }
        j += 1;
    }
    assert(s@.subrange(i as int, i + pat@.len()) =~= pat@);
    true
}

/// The position of the leftmost occurrence of `pat` in `s`, if any.
pub fn find_sub(s: &str, pat: &str) -> (r: Option<usize>)
    ensures
        match r {
            Some(i) => first_match_at(s@, pat@, i as int),
            None => !str_has(s@, pat@),
        },
{
    let s_len: usize = s.unicode_len();
    let pat_len: usize = pat.unicode_len();
    if pat_len > s_len {
        assert(forall|i: int| !matches_at(s@, pat@, i));
        return None;
    }
    if pat_len == 0 {
        assert(s@.subrange(0, 0) =~= pat@);
        return Some(0);
    }
    let last: usize = s_len - pat_len;
    let mut i: usize = 0;
    while i <= last
        invariant
            s_len == s@.len(),
            pat_len == pat@.len(),
            0 < pat_len <= s_len,
            last == s_len - pat_len,
            0 <= i <= last + 1,
            forall|j: int| 0 <= j < i ==> !matches_at(s@, pat@, j),
        decreases s_len - i,
    {
        if matches_prefix_at(s, pat, i) {
            return Some(i);
        }
        i += 1;
    }
    assert(forall|j: int| i <= j ==> !matches_at(s@, pat@, j));
    None
}

/// Whether `pat` occurs somewhere in `s`.
pub fn contains_sub(s: &str, pat: &str) -> (r: bool)
    ensures
        r == str_has(s@, pat@),
{
    find_sub(s, pat).is_some()
}

/// Whether `s` begins with `pat`.
pub fn begins_with(s: &str, pat: &str) -> (r: bool)
    ensures
        r == str_begins_with(s@, pat@),
{
    let s_len: usize = s.unicode_len();
    let pat_len: usize = pat.unicode_len();
    if pat_len > s_len {
        return false;
    }
    matches_prefix_at(s, pat, 0)
}

/// Whether `s` ends with `pat`.
pub fn finishes_with(s: &str, pat: &str) -> (r: bool)
    ensures
        r == str_finishes_with(s@, pat@),
{
    let s_len: usize = s.unicode_len();
    let pat_len: usize = pat.unicode_len();
    if pat_len > s_len {
        return false;
    }
    matches_prefix_at(s, pat, s_len - pat_len)
}

/// Relies on `String::push`: appends one character to the string.
#[verifier::external_body]
pub(crate) fn push_char(s: &mut String, c: char)
    ensures
        final(s)@ == old(s)@.push(c),
{
    s.push(c);
}

/// Two strings hold the same characters.
pub fn str_eq(a: &str, b: &str) -> (r: bool)
    ensures
        r == (a@ == b@),
{
    let a_len: usize = a.unicode_len();
    let b_len: usize = b.unicode_len();
    if a_len != b_len {
        return false;
    }
    let r = matches_prefix_at(a, b, 0);
    proof {
        assert(a@.subrange(0, b@.len() as int) =~= a@);
    }
    r
}

/// Every occurrence of `pat` in `s` replaced by `rep`.
pub fn replace_all(s: &str, pat: &str, rep: &str) -> (r: String)
    ensures
        r@ == spec_replace_all(s@, pat@, rep@),
{
    let s_len: usize = s.unicode_len();
    let pat_len: usize = pat.unicode_len();
    let mut result: String = String::new();
    proof {
        assert(s@.subrange(0, s_len as int) =~= s@);
    }
    if pat_len == 0 {
        result.append(rep);
        proof {
            assert(result@ =~= rep@);
            assert(rep@ + spec_interleave(s@, rep@) == spec_replace_all(s@, pat@, rep@));
        }
        let mut i: usize = 0;
        while i < s_len
            invariant
                0 <= i <= s_len,
                s_len == s@.len(),
                pat@.len() == 0,
                result@ + spec_interleave(s@.subrange(i as int, s_len as int), rep@)
                    == spec_replace_all(s@, pat@, rep@),
            decreases s_len - i,
        {
            let ghost tail = s@.subrange(i as int, s_len as int);
            let piece = s.substring_char(i, i + 1);
            result.append(piece);
            result.append(rep);
            proof {
                assert(seq![tail[0]] =~= piece@);
                assert(tail.subrange(1, tail.len() as int)
                    =~= s@.subrange(i + 1, s_len as int));
                assert(result@ + spec_interleave(s@.subrange(i + 1, s_len as int), rep@)
                    == spec_replace_all(s@, pat@, rep@));
            }
            i += 1;
        }
        proof {
            assert(s@.subrange(s_len as int, s_len as int) =~= Seq::<char>::empty());
            assert(result@ =~= result@ + Seq::<char>::empty());
        }
        return result;
    }
    proof {
        assert(result@ + spec_replace_all(s@, pat@, rep@) =~= spec_replace_all(s@, pat@, rep@));
    }
    let mut i: usize = 0;
    while i < s_len
        invariant
            0 <= i <= s_len,
            s_len == s@.len(),
            pat_len == pat@.len(),
            pat_len > 0,
            result@ + spec_replace_all(s@.subrange(i as int, s_len as int), pat@, rep@)
                == spec_replace_all(s@, pat@, rep@),
        decreases s_len - i,
    {
        let ghost tail = s@.subrange(i as int, s_len as int);
        if pat_len <= s_len - i && matches_prefix_at(s, pat, i) {
            result.append(rep);
            proof {
                assert(tail.subrange(0, pat_len as int) =~= s@.subrange(i as int, i + pat_len));
                assert(tail.subrange(pat_len as int, tail.len() as int)
                    =~= s@.subrange(i + pat_len, s_len as int));
                assert(result@ + spec_replace_all(s@.subrange(i + pat_len, s_len as int), pat@, rep@)
                    == spec_replace_all(s@, pat@, rep@));
            }
            i += pat_len;
        } else {
            let piece = s.substring_char(i, i + 1);
            result.append(piece);
            proof {
                if tail.len() >= pat_len {
                    assert(tail.subrange(0, pat_len as int) =~= s@.subrange(i as int, i + pat_len));
                }
                assert(seq![tail[0]] =~= piece@);
                assert(tail.subrange(1, tail.len() as int)
                    =~= s@.subrange(i + 1, s_len as int));
                assert(result@ + spec_replace_all(s@.subrange(i + 1, s_len as int), pat@, rep@)
                    == spec_replace_all(s@, pat@, rep@));
            }
            i += 1;
        }
    }
    proof {
        assert(s@.subrange(s_len as int, s_len as int) =~= Seq::<char>::empty());
        assert(result@ =~= result@ + Seq::<char>::empty());
    }
    result
}

/// Lexicographic order on character sequences, by Unicode scalar value.
/// For canonical UTF-8 strings this agrees with byte order.
pub open spec fn lex_le(a: Seq<char>, b: Seq<char>) -> bool
    decreases a.len(),
{
    if a.len() == 0 {
        true
    } else if b.len() == 0 {
        false
    } else if a[0] != b[0] {
        (a[0] as u32) < (b[0] as u32)
    } else {
        lex_le(a.subrange(1, a.len() as int), b.subrange(1, b.len() as int))
    }
}

/// Whether `a` is lexicographically at most `b`.
pub fn lex_le_exec(a: &str, b: &str) -> (r: bool)
    ensures
        r == lex_le(a@, b@),
{
    let a_len: usize = a.unicode_len();
    let b_len: usize = b.unicode_len();
    proof {
        assert(a@.subrange(0, a_len as int) =~= a@);
        assert(b@.subrange(0, b_len as int) =~= b@);
    }
    let mut i: usize = 0;
    loop
        invariant
            0 <= i <= a_len,
            i <= b_len,
            a_len == a@.len(),
            b_len == b@.len(),
            lex_le(a@, b@) == lex_le(
                a@.subrange(i as int, a_len as int),
                b@.subrange(i as int, b_len as int),
            ),
        decreases a_len - i,
    {
        let ghost ta = a@.subrange(i as int, a_len as int);
        let ghost tb = b@.subrange(i as int, b_len as int);
        if i >= a_len {
            return true;
        }
        if i >= b_len {
            return false;
        }
        let ca = a.get_char(i);
        let cb = b.get_char(i);
        if ca != cb {
            return (ca as u32) < (cb as u32);
        }
        proof {
            assert(ta.subrange(1, ta.len() as int) =~= a@.subrange(i + 1, a_len as int));
            assert(tb.subrange(1, tb.len() as int) =~= b@.subrange(i + 1, b_len as int));
        }
        i += 1;
    }
}

/// Lexicographic order as a relation value, for sortedness statements.
pub open spec fn lex_leq() -> spec_fn(Seq<char>, Seq<char>) -> bool {
    |a: Seq<char>, b: Seq<char>| lex_le(a, b)
}

/// Lexicographic order is a total order.
pub proof fn lemma_lex_le_total_ordering()
    ensures
        vstd::relations::total_ordering(lex_leq()),
{
    let leq = lex_leq();
    assert forall|a: Seq<char>| #[trigger] leq(a, a) by {
        lemma_lex_le_refl(a);
    }
    assert forall|a: Seq<char>, b: Seq<char>| #[trigger] leq(a, b) && #[trigger] leq(b, a)
        implies a == b by {
        lemma_lex_le_antisym(a, b);
    }
    assert forall|a: Seq<char>, b: Seq<char>, c: Seq<char>|
        #[trigger] leq(a, b) && #[trigger] leq(b, c) implies leq(a, c) by {
        lemma_lex_le_trans(a, b, c);
    }
    assert forall|a: Seq<char>, b: Seq<char>| #[trigger] leq(a, b) || #[trigger] leq(b, a) by {
        lemma_lex_le_connected(a, b);
    }
}

proof fn lemma_lex_le_refl(a: Seq<char>)
    ensures
        lex_le(a, a),
    decreases a.len(),
{
    if a.len() > 0 {
        lemma_lex_le_refl(a.subrange(1, a.len() as int));
    }
}

proof fn lemma_lex_le_antisym(a: Seq<char>, b: Seq<char>)
    requires
        lex_le(a, b),
        lex_le(b, a),
    ensures
        a == b,
    decreases a.len(),
{
    broadcast use vstd::utf8::char_u32_cast;

    if a.len() == 0 {
        assert(b.len() == 0);
        assert(a =~= b);
    } else {
        lemma_lex_le_antisym(a.subrange(1, a.len() as int), b.subrange(1, b.len() as int));
        assert(a =~= seq![a[0]] + a.subrange(1, a.len() as int));
        assert(b =~= seq![b[0]] + b.subrange(1, b.len() as int));
    }
}

proof fn lemma_lex_le_trans(a: Seq<char>, b: Seq<char>, c: Seq<char>)
    requires
        lex_le(a, b),
        lex_le(b, c),
    ensures
        lex_le(a, c),
    decreases a.len(),
{
    if a.len() > 0 && b.len() > 0 && c.len() > 0 {
        if a[0] == b[0] && b[0] == c[0] {
            lemma_lex_le_trans(
                a.subrange(1, a.len() as int),
                b.subrange(1, b.len() as int),
                c.subrange(1, c.len() as int),
            );
        }
    }
}

proof fn lemma_lex_le_connected(a: Seq<char>, b: Seq<char>)
    ensures
        lex_le(a, b) || lex_le(b, a),
    decreases a.len(),
{
    if a.len() > 0 && b.len() > 0 {
        if a[0] == b[0] {
            lemma_lex_le_connected(a.subrange(1, a.len() as int), b.subrange(1, b.len() as int));
        } else {
            assert((a[0] as u32) != (b[0] as u32)) by {
                vstd::utf8::char_u32_cast(a[0], a[0] as u32);
                vstd::utf8::char_u32_cast(b[0], b[0] as u32);
            }
        }
    }
}

} // verus!
