//! In-place text editing: literal search/replace with a unified line diff
//! and a dry-run mode, persisted through an atomic temp-file rename.

use vstd::prelude::*;
use vstd::string::*;

use crate::errors::FsError;
use crate::pathutil::{split_parent_leaf, splittable};
use crate::sandbox::Sandbox;
use crate::strings::{contains_sub, replace_all, spec_replace_all, str_has};

verus! {

/// One literal edit: every occurrence of `old` is replaced by `new`.
pub struct Edit {
    /// The fragment to look for.
    pub old: String,
    /// The fragment that replaces it.
    pub new: String,
}

/// The mathematical content of an [`Edit`].
pub ghost struct EditView {
    /// The fragment to look for.
    pub old: Seq<char>,
    /// The fragment that replaces it.
    pub new: Seq<char>,
}

impl View for Edit {
    type V = EditView;

    open spec fn view(&self) -> EditView {
        EditView { old: self.old@, new: self.new@ }
    }
}

/// One edit applied to `content`: a replacement if the fragment occurs,
/// otherwise a no-op.
pub open spec fn spec_apply_edit(content: Seq<char>, e: EditView) -> Seq<char> {
    if str_has(content, e.old) {
        spec_replace_all(content, e.old, e.new)
    } else {
        content
    }
}

/// A list of edits applied to `content`, in list order.
pub open spec fn spec_apply_edits(content: Seq<char>, edits: Seq<EditView>) -> Seq<char>
    decreases edits.len(),
{
    if edits.len() == 0 {
        content
    } else {
        spec_apply_edits(spec_apply_edit(content, edits[0]), edits.drop_first())
    }
}

/// The views of a list of edits.
pub open spec fn edit_views(edits: Seq<Edit>) -> Seq<EditView> {
    edits.map_values(|e: Edit| e@)
}

/// Applies the edits to `content` in list order. Each edit replaces every
/// occurrence of its `old` fragment; an edit whose fragment is absent is
/// skipped, and the rest of the list still applies.
pub fn apply_edits(content: String, edits: Vec<Edit>) -> (r: String)
    ensures
        r@ == spec_apply_edits(content@, edit_views(edits@)),
{
    let ghost views = edit_views(edits@);
    proof {
        assert(views.subrange(0, views.len() as int) =~= views);
    }
    let mut cur = content;
    let mut i: usize = 0;
    while i < edits.len()
        invariant
            0 <= i <= edits@.len(),
            views == edit_views(edits@),
            spec_apply_edits(cur@, views.subrange(i as int, views.len() as int))
                == spec_apply_edits(content@, views),
        decreases edits@.len() - i,
    {
        let ghost tail = views.subrange(i as int, views.len() as int);
        proof {
            assert(tail.drop_first() =~= views.subrange(i + 1, views.len() as int));
        }
        let e = &edits[i];
        if contains_sub(cur.as_str(), e.old.as_str()) {
            cur = replace_all(cur.as_str(), e.old.as_str(), e.new.as_str());
        }
        i += 1;
    }
    proof {
        assert(views.subrange(views.len() as int, views.len() as int)
            =~= Seq::<EditView>::empty());
    }
    cur
}

/// An edit plan with no edits leaves any content unchanged, so a dry run
/// of it reports a text diffed against itself.
pub proof fn lemma_apply_edits_empty(content: Seq<char>)
    ensures
        spec_apply_edits(content, Seq::<EditView>::empty()) == content,
{
}

/// The unified line diff of two texts, as sign-prefixed lines.
pub uninterp spec fn diff_of(old_text: Seq<char>, new_text: Seq<char>) -> Seq<Seq<char>>;

/// The text as a line diff renders it: with a final newline added where
/// it ends with neither `\n` nor `\r`, since an unterminated last line is
/// still emitted as a whole line.
pub open spec fn spec_with_final_newline(s: Seq<char>) -> Seq<char> {
    if s.len() == 0 || s[s.len() - 1] == '\n' || s[s.len() - 1] == '\r' {
        s
    } else {
        s + seq!['\n']
    }
}

/// The old side of a diff: the lines not marked `+`, signs stripped,
/// concatenated in order.
pub open spec fn spec_old_side(lines: Seq<Seq<char>>) -> Seq<char>
    decreases lines.len(),
{
    if lines.len() == 0 {
        Seq::<char>::empty()
    } else {
        (if lines[0].len() > 0 && lines[0][0] != '+' {
            lines[0].drop_first()
        } else {
            Seq::<char>::empty()
        }) + spec_old_side(lines.drop_first())
    }
}

/// The new side of a diff: the lines not marked `-`, signs stripped,
/// concatenated in order.
pub open spec fn spec_new_side(lines: Seq<Seq<char>>) -> Seq<char>
    decreases lines.len(),
{
    if lines.len() == 0 {
        Seq::<char>::empty()
    } else {
        (if lines[0].len() > 0 && lines[0][0] != '-' {
            lines[0].drop_first()
        } else {
            Seq::<char>::empty()
        }) + spec_new_side(lines.drop_first())
    }
}

/// Relies on similar's `TextDiff::from_lines` and `iter_all_changes`: the
/// line diff is a function of the two texts alone; each change carries its
/// line, newline-terminated; the changes partition both texts, so the
/// unmarked and `-` lines reproduce the old text in order and the unmarked
/// and `+` lines the new; diffing a text against itself yields only
/// `Equal` changes.
#[verifier::external_body]
fn diff_lines(old_text: &str, new_text: &str) -> (r: Vec<String>)
    ensures
        r@.map_values(|l: String| l@) == diff_of(old_text@, new_text@),
        forall|i: int|
            0 <= i < r@.len() ==> r@[i]@.len() > 0 && (r@[i]@[0] == ' ' || r@[i]@[0] == '-'
                || r@[i]@[0] == '+'),
        old_text@ == new_text@ ==> forall|i: int| 0 <= i < r@.len() ==> r@[i]@[0] == ' ',
        spec_old_side(r@.map_values(|l: String| l@)) == spec_with_final_newline(old_text@),
        spec_new_side(r@.map_values(|l: String| l@)) == spec_with_final_newline(new_text@),
{
    let diff = similar::TextDiff::from_lines(old_text, new_text);
    let mut result: Vec<String> = Vec::new();
    for change in diff.iter_all_changes() {
        let sign = match change.tag() {
            similar::ChangeTag::Delete => "-",
            similar::ChangeTag::Insert => "+",
            similar::ChangeTag::Equal => " ",
        };
        result.push(format!("{}{}", sign, change));
    }
    result
}

/// The unified line diff between `old_text` and `new_text`: one string
/// per changed or unchanged line, prefixed `-`, `+` or a space. The diff
/// loses no line of either side — stripping the signs of the unmarked and
/// `-` lines reproduces the old text, of the unmarked and `+` lines the
/// new — and two equal texts diff to unchanged lines only.
pub fn get_diffs(old_text: &str, new_text: &str) -> (r: Vec<String>)
    ensures
        r@.map_values(|l: String| l@) == diff_of(old_text@, new_text@),
        forall|i: int|
            0 <= i < r@.len() ==> r@[i]@.len() > 0 && (r@[i]@[0] == ' ' || r@[i]@[0] == '-'
                || r@[i]@[0] == '+'),
        old_text@ == new_text@ ==> forall|i: int| 0 <= i < r@.len() ==> r@[i]@[0] == ' ',
        spec_old_side(r@.map_values(|l: String| l@)) == spec_with_final_newline(old_text@),
        spec_new_side(r@.map_values(|l: String| l@)) == spec_with_final_newline(new_text@),
{
    diff_lines(old_text, new_text)
}

/// All the sequences of `ls`, concatenated in order.
pub open spec fn spec_concat(ls: Seq<Seq<char>>) -> Seq<char>
    decreases ls.len(),
{
    if ls.len() == 0 {
        Seq::<char>::empty()
    } else {
        ls[0] + spec_concat(ls.drop_first())
    }
}

/// Joins a list of strings into one.
pub fn join_lines(lines: &Vec<String>) -> (r: String)
    ensures
        r@ == spec_concat(lines@.map_values(|l: String| l@)),
{
    let ghost views = lines@.map_values(|l: String| l@);
    proof {
        assert(views.subrange(0, views.len() as int) =~= views);
    }
    let mut result = String::new();
    let mut i: usize = 0;
    while i < lines.len()
        invariant
            0 <= i <= lines@.len(),
            views == lines@.map_values(|l: String| l@),
            result@ + spec_concat(views.subrange(i as int, views.len() as int))
                == spec_concat(views),
        decreases lines@.len() - i,
    {
        let ghost tail = views.subrange(i as int, views.len() as int);
        proof {
            assert(tail.drop_first() =~= views.subrange(i + 1, views.len() as int));
            assert((result@ + tail[0]) + spec_concat(tail.drop_first())
                =~= result@ + (tail[0] + spec_concat(tail.drop_first())));
        }
        result.append(lines[i].as_str());
        i += 1;
    }
    proof {
        assert(views.subrange(views.len() as int, views.len() as int) =~= Seq::<Seq<char>>::empty());
        assert(result@ + Seq::<char>::empty() =~= result@);
    }
    result
}

/// What an edit call reports: the unified diff between the original and
/// the edited content, and whether a write was attempted.
pub struct EditResult {
    /// The unified diff, as one string of sign-prefixed lines.
    pub diff: String,
    /// Whether the edit was persisted; equal to the negation of the
    /// dry-run flag, whether or not any fragment matched.
    pub applied: bool,
}

/// Relies on tempfile's `NamedTempFile`: the content is written to a
/// freshly named temporary file inside `dir` and renamed onto `target` in
/// one step, so a reader never observes a partially written target; on
/// any failure the temporary file is removed and the target is left as it
/// was.
#[verifier::external_body]
fn persist_atomic(dir: &str, target: &str, content: &str) -> (r: Result<(), FsError>)
    ensures
        r is Err ==> r->Err_0 == FsError::Io,
{
    let mut tmp = match tempfile::NamedTempFile::new_in(dir) {
        Ok(t) => t,
        Err(_) => return Err(FsError::Io),
    };
    if std::io::Write::write_all(&mut tmp, content.as_bytes()).is_err() {
        return Err(FsError::Io);
    }
    if std::io::Write::flush(&mut tmp).is_err() {
        return Err(FsError::Io);
    }
    match tmp.persist(target) {
        Ok(_) => Ok(()),
        Err(_) => Err(FsError::Io),
    }
}

/// Applies the edits to the current content of the file at `canon_path`
/// and reports the unified diff. With `dry_run` the new content is not
/// persisted and nothing on disk changes; otherwise it is written to a
/// temporary file beside the target and renamed onto it.
///
/// `applied` reports `!dry_run` whether or not any fragment matched: it
/// reflects whether a write was attempted.
pub fn edit_file(
    sb: &Sandbox,
    canon_path: &str,
    original: String,
    edits: Vec<Edit>,
    dry_run: bool,
) -> (r: Result<EditResult, FsError>)
    requires
        sb.contains_path(canon_path@),
    ensures
        dry_run ==> r is Ok,
        (!dry_run && !splittable(canon_path@)) ==> r is Err,
        match r {
            Ok(er) => {
                &&& er.applied == !dry_run
                &&& er.diff@ == spec_concat(
                    diff_of(original@, spec_apply_edits(original@, edit_views(edits@))),
                )
            },
            Err(e) => !dry_run && e == FsError::Io,
        },
{
    let new_content = apply_edits(original.clone(), edits);
    let lines = get_diffs(original.as_str(), new_content.as_str());
    let diff = join_lines(&lines);
    if !dry_run {
        match split_parent_leaf(canon_path) {
            None => {
                return Err(FsError::Io);
            },
            Some(pair) => {
                let dir = pair.0;
                match persist_atomic(dir.as_str(), canon_path, new_content.as_str()) {
                    Ok(()) => {},
                    Err(e) => {
                        return Err(e);
                    },
                }
            },
        }
    }
    Ok(EditResult { diff, applied: !dry_run })
}

} // verus!
