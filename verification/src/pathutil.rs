//! Verified path-string algebra.
//!
//! The engine treats paths as plain character sequences. A component
//! boundary is a `/`. These functions settle, with exact contracts, how a
//! path is split into a parent directory and a leaf name, how a directory
//! and a leaf are joined, and what the ancestor chain of a path is.

use vstd::prelude::*;
use vstd::string::*;

verus! {

/// Position `i` holds the last `/` of `s`.
pub open spec fn last_slash_at(s: Seq<char>, i: int) -> bool {
    0 <= i < s.len() && s[i] == '/' && forall|j: int| i < j < s.len() ==> s[j] != '/'
}

/// `s` holds at least one `/`.
pub open spec fn has_slash(s: Seq<char>) -> bool {
    exists|i: int| 0 <= i < s.len() && s[i] == '/'
}

/// A last slash, where one exists, sits at exactly one position.
pub proof fn lemma_last_slash_unique(s: Seq<char>, i: int, j: int)
    requires
        last_slash_at(s, i),
        last_slash_at(s, j),
    ensures
        i == j,
{
}

/// The position of the last `/` of `s`, where one exists.
pub open spec fn last_slash_index(s: Seq<char>) -> int {
    choose|i: int| last_slash_at(s, i)
}

/// A string with a slash has a last slash.
pub proof fn lemma_last_slash_exists(s: Seq<char>)
    requires
        has_slash(s),
    ensures
        last_slash_at(s, last_slash_index(s)),
    decreases s.len(),
{
    if s[s.len() - 1] == '/' {
        assert(last_slash_at(s, s.len() - 1));
    } else {
        let head = s.subrange(0, s.len() - 1);
        assert(has_slash(head)) by {
            let k = choose|k: int| 0 <= k < s.len() && s[k] == '/';
            assert(head[k] == '/');
        }
        lemma_last_slash_exists(head);
        let i = last_slash_index(head);
        assert(last_slash_at(s, i)) by {
            assert(s[i] == head[i]);
            assert(forall|j: int| i < j < s.len() - 1 ==> s[j] == head[j] && head[j] != '/');
        }
    }
}

/// Everything before the last `/` of `s`; the root `/` itself when the
/// last slash is the first character; empty when `s` has no slash.
pub open spec fn spec_parent(s: Seq<char>) -> Seq<char> {
    if !has_slash(s) {
        Seq::<char>::empty()
    } else {
        let i = last_slash_index(s);
        if i == 0 {
            seq!['/']
        } else {
            s.subrange(0, i)
        }
    }
}

/// Everything after the last `/` of `s`; the whole of `s` when it has no
/// slash.
pub open spec fn spec_leaf(s: Seq<char>) -> Seq<char> {
    if !has_slash(s) {
        s
    } else {
        s.subrange(last_slash_index(s) + 1, s.len() as int)
    }
}

/// `s` can be split into a parent directory and a non-empty leaf name.
pub open spec fn splittable(s: Seq<char>) -> bool {
    has_slash(s) && spec_leaf(s).len() > 0
}

/// `dir` and `leaf` joined with a single `/` between them.
pub open spec fn spec_join(dir: Seq<char>, leaf: Seq<char>) -> Seq<char> {
    if dir.len() > 0 && dir[dir.len() - 1] == '/' {
        dir + leaf
    } else {
        dir + seq!['/'] + leaf
    }
}

/// The chain of ancestors of `s`, from `s` itself up to its topmost
/// parent: each step cuts the path at its last `/`.
pub open spec fn spec_ancestors(s: Seq<char>) -> Seq<Seq<char>>
    decreases s.len(),
    via spec_ancestors_decreases
{
    if has_slash(s) && s.len() > 1 {
        seq![s] + spec_ancestors(spec_parent(s))
    } else {
        seq![s]
    }
}

#[via_fn]
proof fn spec_ancestors_decreases(s: Seq<char>) {
    if has_slash(s) && s.len() > 1 {
        lemma_last_slash_exists(s);
    }
}

/// The position of the last `/` in `s`, if any.
pub fn find_last_slash(s: &str) -> (r: Option<usize>)
    ensures
        match r {
            Some(i) => last_slash_at(s@, i as int),
            None => !has_slash(s@),
        },
{
    let s_len: usize = s.unicode_len();
    let mut i: usize = s_len;
    while i > 0
        invariant
            0 <= i <= s_len,
            s_len == s@.len(),
            forall|j: int| i <= j < s_len ==> s@[j] != '/',
        decreases i,
    {
        i -= 1;
        if s.get_char(i) == '/' {
            return Some(i);
        }
    }
    None
}

/// Splits a path into its parent directory and its leaf name.
///
/// `None` when the path has no `/` or ends with one: such a path does not
/// name both a parent directory and an entry inside it.
pub fn split_parent_leaf(path: &str) -> (r: Option<(String, String)>)
    ensures
        match r {
            Some(pair) => splittable(path@) && pair.0@ == spec_parent(path@) && pair.1@
                == spec_leaf(path@),
            None => !splittable(path@),
        },
{
    let path_len: usize = path.unicode_len();
    match find_last_slash(path) {
        None => None,
        Some(i) => {
            proof {
                lemma_last_slash_unique(path@, i as int, last_slash_index(path@));
            }
            if i + 1 == path_len {
                assert(spec_leaf(path@).len() == 0);
                None
            } else {
                let leaf = path.substring_char(i + 1, path_len);
                let parent = if i == 0 {
                    String::from_str("/")
                } else {
                    String::from_str(path.substring_char(0, i))
                };
                proof {
                    if i == 0 {
                        reveal_strlit("/");
                        assert(parent@ =~= spec_parent(path@));
                    }
                }
                Some((parent, String::from_str(leaf)))
            }
        },
    }
}

/// Joins a directory and a leaf name with a single `/`.
pub fn join_path(dir: &str, leaf: &str) -> (r: String)
    ensures
        r@ == spec_join(dir@, leaf@),
{
    let dir_len: usize = dir.unicode_len();
    let mut result = String::from_str(dir);
    if dir_len == 0 || dir.get_char(dir_len - 1) != '/' {
        result.append("/");
        proof {
            reveal_strlit("/");
            assert(result@ =~= dir@ + seq!['/']);
        }
    }
    result.append(leaf);
    result
}

/// The ancestor chain of a path: the path itself, then each successive
/// parent, ending at the topmost one.
pub fn ancestors_list(path: &str) -> (r: Vec<String>)
    ensures
        r@.map_values(|a: String| a@) == spec_ancestors(path@),
{
    let mut result: Vec<String> = Vec::new();
    let mut cur: String = String::from_str(path);
    proof {
        assert(result@.map_values(|a: String| a@) + spec_ancestors(cur@)
            =~= spec_ancestors(path@));
    }
    loop
        invariant
            result@.map_values(|a: String| a@) + spec_ancestors(cur@) == spec_ancestors(path@),
        decreases cur@.len(),
    {
        let cur_len: usize = cur.as_str().unicode_len();
        let last = find_last_slash(cur.as_str());
        result.push(cur.clone());
        match last {
            Some(i) if cur_len > 1 => {
                proof {
                    lemma_last_slash_unique(cur@, i as int, last_slash_index(cur@));
                }
                let parent = if i == 0 {
                    String::from_str("/")
                } else {
                    String::from_str(cur.as_str().substring_char(0, i))
                };
                proof {
                    if i == 0 {
                        reveal_strlit("/");
                    }
                    assert(parent@ =~= spec_parent(cur@));
                    assert(result@.map_values(|a: String| a@)
                        =~= result@.drop_last().map_values(|a: String| a@) + seq![cur@]);
                    assert(result@.map_values(|a: String| a@) + spec_ancestors(parent@)
                        =~= spec_ancestors(path@));
                }
                cur = parent;
            },
            _ => {
                proof {
                    assert(spec_ancestors(cur@) =~= seq![cur@]);
                    assert(result@.map_values(|a: String| a@)
                        =~= result@.drop_last().map_values(|a: String| a@) + seq![cur@]);
                    assert(result@.map_values(|a: String| a@) =~= spec_ancestors(path@));
                }
                return result;
            },
        }
    }
}

} // verus!
