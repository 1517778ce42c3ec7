//! Helpers for the request paths and headers of an HTTP tool-call
//! transport: picking the server id out of a path, recognising the
//! tool-call endpoint, and normalising header names to lower case.

use vstd::prelude::*;
use vstd::string::*;

use crate::strings::{
    find_sub, finishes_with, first_match_at, matches_at, str_finishes_with, str_has, push_char,
};

verus! {

/// The position of the leftmost occurrence of `pat` in `s`, where one
/// exists.
pub open spec fn first_match_index(s: Seq<char>, pat: Seq<char>) -> int {
    choose|i: int| first_match_at(s, pat, i)
}

/// Below any occurrence of a pattern sits a leftmost one.
proof fn lemma_first_match_below(s: Seq<char>, pat: Seq<char>, k: int)
    requires
        matches_at(s, pat, k),
    ensures
        first_match_at(s, pat, first_match_index(s, pat)),
    decreases k,
{
    if forall|j: int| 0 <= j < k ==> !matches_at(s, pat, j) {
        assert(first_match_at(s, pat, k));
    } else {
        let j = choose|j: int| 0 <= j < k && matches_at(s, pat, j);
        lemma_first_match_below(s, pat, j);
    }
}

/// A string that holds a pattern holds a leftmost occurrence of it.
pub proof fn lemma_first_match_exists(s: Seq<char>, pat: Seq<char>)
    requires
        str_has(s, pat),
    ensures
        first_match_at(s, pat, first_match_index(s, pat)),
{
    let k = choose|k: int| matches_at(s, pat, k);
    lemma_first_match_below(s, pat, k);
}

/// The server id of a request path: the text between the first
/// `/servers/` and the first `/mcp` after it, where both occur and the
/// text between them is not empty.
pub open spec fn spec_extract_server_id(path: Seq<char>) -> Option<Seq<char>> {
    let marker = "/servers/"@;
    let endpoint = "/mcp"@;
    if !str_has(path, marker) {
        None
    } else {
        let rest = path.subrange(
            first_match_index(path, marker) + marker.len(),
            path.len() as int,
        );
        if !str_has(rest, endpoint) {
            None
        } else if first_match_index(rest, endpoint) == 0 {
            None
        } else {
            Some(rest.subrange(0, first_match_index(rest, endpoint)))
        }
    }
}

/// Picks the server id out of a request path: the text between the first
/// `/servers/` and the first `/mcp` after it, if both occur and the text
/// between them is not empty.
pub fn extract_server_id(path: &str) -> (r: Option<String>)
    ensures
        match r {
            Some(id) => spec_extract_server_id(path@) == Some(id@),
            None => spec_extract_server_id(path@) is None,
        },
{
    let marker = "/servers/";
    let start = match find_sub(path, marker) {
        None => {
            return None;
        },
        Some(i) => i,
    };
    proof {
        lemma_first_match_exists(path@, marker@);
        assert(first_match_index(path@, marker@) == start as int);
    }
    let path_len = path.unicode_len();
    let marker_len = marker.unicode_len();
    let rest = path.substring_char(start + marker_len, path_len);
    let end = match find_sub(rest, "/mcp") {
        None => {
            return None;
        },
        Some(j) => j,
    };
    proof {
        lemma_first_match_exists(rest@, "/mcp"@);
        assert(first_match_index(rest@, "/mcp"@) == end as int);
    }
    if end == 0 {
        None
    } else {
        Some(String::from_str(rest.substring_char(0, end)))
    }
}

/// Whether a request path names the tool-call endpoint: it ends with
/// `/mcp` or `/mcp/`.
pub fn is_mcp_path(path: &str) -> (r: bool)
    ensures
        r == (str_finishes_with(path@, "/mcp"@) || str_finishes_with(path@, "/mcp/"@)),
{
    finishes_with(path, "/mcp") || finishes_with(path, "/mcp/")
}

/// An ASCII capital letter mapped to its lower-case form; any other
/// character kept.
pub open spec fn ascii_lower_char(c: char) -> char {
    if 65 <= c as u32 && c as u32 <= 90 {
        ((c as u32) + 32) as char
    } else {
        c
    }
}

/// Every character of `s` ASCII-lowercased.
pub open spec fn spec_ascii_lower(s: Seq<char>) -> Seq<char> {
    s.map_values(|c: char| ascii_lower_char(c))
}

/// Relies on `char::from_u32`: the scalar value turned back into its
/// character. The bound keeps the value a valid scalar, so the call
/// cannot fail.
#[verifier::external_body]
fn char_from_u32(u: u32) -> (r: char)
    requires
        vstd::utf8::is_scalar(u),
    ensures
        r as u32 == u,
{
    char::from_u32(u).unwrap()
}

/// ASCII-lowercases one character.
fn ascii_lower_char_exec(c: char) -> (r: char)
    ensures
        r == ascii_lower_char(c),
{
    broadcast use vstd::utf8::char_u32_cast;

    let u = c as u32;
    if 65 <= u && u <= 90 {
        let lower = char_from_u32(u + 32);
        proof {
            vstd::utf8::char_u32_cast(lower, lower as u32);
        }
        lower
    } else {
        c
    }
}

/// ASCII-lowercases a string.
fn ascii_lower(s: &str) -> (r: String)
    ensures
        r@ == spec_ascii_lower(s@),
{
    let s_len = s.unicode_len();
    let mut result = String::new();
    let mut i: usize = 0;
    while i < s_len
        invariant
            0 <= i <= s_len,
            s_len == s@.len(),
            result@ == spec_ascii_lower(s@.subrange(0, i as int)),
        decreases s_len - i,
    {
        let c = s.get_char(i);
        push_char(&mut result, ascii_lower_char_exec(c));
        proof {
            assert(result@ =~= spec_ascii_lower(s@.subrange(0, i + 1)));
        }
        i += 1;
    }
    proof {
        assert(s@.subrange(0, s_len as int) =~= s@);
    }
    result
}

/// The headers with every name ASCII-lowercased, in input order.
pub open spec fn spec_normalized_pairs(headers: Seq<(String, String)>) -> Seq<
    (Seq<char>, Seq<char>),
> {
    headers.map_values(|p: (String, String)| (spec_ascii_lower(p.0@), p.1@))
}

/// Lowercases every header name, keeping values and order.
pub fn normalize_header_pairs(headers: &Vec<(String, String)>) -> (r: Vec<(String, String)>)
    ensures
        r@.map_values(|p: (String, String)| (p.0@, p.1@)) == spec_normalized_pairs(headers@),
{
    let mut out: Vec<(String, String)> = Vec::new();
    let mut i: usize = 0;
    while i < headers.len()
        invariant
            0 <= i <= headers@.len(),
            out@.len() == i,
            forall|k: int|
                0 <= k < i ==> (#[trigger] out@[k]).0@ == spec_ascii_lower(headers@[k].0@)
                    && out@[k].1@ == headers@[k].1@,
        decreases headers@.len() - i,
    {
        let name = ascii_lower(headers[i].0.as_str());
        let value = headers[i].1.clone();
        out.push((name, value));
        i += 1;
    }
    proof {
        assert(out@.map_values(|p: (String, String)| (p.0@, p.1@)) =~= spec_normalized_pairs(
            headers@));
    }
    out
}

/// Collects the headers into a map under their ASCII-lowercased names; a
/// repeated name keeps the value that came last. The exact pair list is
/// stated on [`normalize_header_pairs`], which this builds on.
pub fn normalize_headers(headers: Vec<(String, String)>) -> std::collections::HashMap<
    String,
    String,
>
{
    let pairs = normalize_header_pairs(&headers);
    let mut normalized: std::collections::HashMap<String, String> =
        std::collections::HashMap::new();
    let mut i: usize = 0;
    while i < pairs.len()
        decreases pairs@.len() - i,
    {
        normalized.insert(pairs[i].0.clone(), pairs[i].1.clone());
        i += 1;
    }
    normalized
}

} // verus!
