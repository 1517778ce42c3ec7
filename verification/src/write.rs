//! Whole-file writes, moves and directory creation.
//!
//! A write never touches the target file directly: the content goes to a
//! freshly named temporary file inside the already-resolved target
//! directory, which is then renamed onto the final name. The caller
//! performs the two syscalls; the plan they follow — where the temporary
//! file may live, what the final path is, how each failure is classified
//! — is verified here.

use vstd::prelude::*;
use vstd::string::*;

use crate::errors::FsError;
use crate::pathutil::{spec_join, spec_leaf, spec_parent, split_parent_leaf, splittable};
use crate::sandbox::{CanonOutcome, Sandbox};
use crate::strings::str_begins_with;

verus! {

/// Joining any leaf to a directory stays behind the directory's prefix.
pub proof fn lemma_join_extends_prefix(dir: Seq<char>, leaf: Seq<char>)
    ensures
        str_begins_with(spec_join(dir, leaf), spec_join(dir, Seq::<char>::empty())),
    decreases dir.len(),
{
    let full = spec_join(dir, leaf);
    let prefix = spec_join(dir, Seq::<char>::empty());
    assert(full.subrange(0, prefix.len() as int) =~= prefix);
}

/// Two joins under the same directory agree only on the same leaf.
pub proof fn lemma_join_injective(dir: Seq<char>, a: Seq<char>, b: Seq<char>)
    requires
        spec_join(dir, a) == spec_join(dir, b),
    ensures
        a == b,
{
    let prefix = spec_join(dir, Seq::<char>::empty());
    assert(spec_join(dir, a) =~= prefix + a);
    assert(spec_join(dir, b) =~= prefix + b);
    assert(a =~= (prefix + a).subrange(prefix.len() as int, (prefix + a).len() as int));
    assert(b =~= (prefix + b).subrange(prefix.len() as int, (prefix + b).len() as int));
}

/// Where a write will happen: the temporary file that takes the content,
/// and the final path the temporary file is renamed onto. Both lie in the
/// same resolved directory, so the rename cannot cross filesystems.
pub struct WritePlan {
    /// The freshly named temporary file that receives the content.
    pub temp_path: String,
    /// The final path the temporary file is renamed onto.
    pub final_path: String,
}

/// Relies on uuid's `Uuid::new_v4`: a freshly generated temporary file
/// name; it always begins with the fixed prefix `tempfile-`.
#[verifier::external_body]
fn fresh_temp_name() -> (r: String)
    ensures
        str_begins_with(r@, "tempfile-"@),
{
    format!("tempfile-{}", uuid::Uuid::new_v4())
}

/// Plans an atomic write to `path`: the path must name a parent directory
/// and a leaf, and the parent — canonicalized by the caller into
/// `parent_canon` — must lie inside the sandbox. The temporary file is
/// placed in that same parent directory.
pub fn write_file_plan(sb: &Sandbox, path: &str, parent_canon: CanonOutcome) -> (r: Result<
    WritePlan,
    FsError,
>)
    ensures
        r is Ok <==> (splittable(path@) && parent_canon.is_resolved() && sb.contains_path(
            parent_canon.path(),
        )),
        match r {
            Ok(plan) => {
                &&& plan.final_path@ == spec_join(parent_canon.path(), spec_leaf(path@))
                &&& str_begins_with(
                    plan.final_path@,
                    spec_join(parent_canon.path(), Seq::<char>::empty()),
                )
                &&& str_begins_with(
                    plan.temp_path@,
                    spec_join(parent_canon.path(), Seq::<char>::empty()),
                )
                &&& (!str_begins_with(spec_leaf(path@), "tempfile-"@) ==> plan.temp_path@
                    != plan.final_path@)
                &&& sb.contains_path(parent_canon.path())
                &&& sb.contains_path(plan.final_path@)
                &&& sb.contains_path(plan.temp_path@)
            },
            Err(e) => {
                &&& !splittable(path@) ==> e == FsError::Io
                &&& splittable(path@) ==> {
                    &&& parent_canon.is_resolved() ==> (e == FsError::OutsideSandbox
                        && !sb.contains_path(parent_canon.path()))
                    &&& parent_canon is NotFound ==> e == FsError::NotFound
                    &&& parent_canon is Failed ==> e == FsError::Io
                }
            },
        },
{
    let pair = match split_parent_leaf(path) {
        None => {
            return Err(FsError::Io);
        },
        Some(pair) => pair,
    };
    let parent = match sb.resolve_path(parent_canon) {
        Ok(p) => p,
        Err(e) => {
            return Err(e);
        },
    };
    let temp_name = fresh_temp_name();
    let temp_path = crate::pathutil::join_path(parent.as_str(), temp_name.as_str());
    let final_path = crate::pathutil::join_path(parent.as_str(), pair.1.as_str());
    proof {
        lemma_join_extends_prefix(parent@, temp_name@);
        lemma_join_extends_prefix(parent@, pair.1@);
        sb.lemma_contains_path_join(parent@, temp_name@);
        sb.lemma_contains_path_join(parent@, pair.1@);
        if !str_begins_with(spec_leaf(path@), "tempfile-"@) {
            assert(temp_name@ != pair.1@);
            if temp_path@ == final_path@ {
                lemma_join_injective(parent@, temp_name@, pair.1@);
            }
        }
    }
    Ok(WritePlan { temp_path, final_path })
}

/// Classifies the outcome of the two syscalls of a planned write: the
/// write of the temporary file and the rename onto the final path. The
/// write succeeded only if both did; any failure is an I/O error, and the
/// caller removes the temporary file.
pub fn write_file_finish(temp_written: bool, renamed: bool) -> (r: Result<(), FsError>)
    ensures
        r is Ok <==> (temp_written && renamed),
        r is Err ==> r->Err_0 == FsError::Io,
{
    if temp_written && renamed {
        Ok(())
    } else {
        Err(FsError::Io)
    }
}

/// Plans a move: where the rename must read from and write to. The source
/// must resolve into the sandbox, and the destination's parent — resolved
/// by the caller from [`move_dest_parent`] — must too; the destination
/// keeps its leaf name under its resolved parent.
pub struct MovePlan {
    /// The canonical path the rename reads from.
    pub from_path: String,
    /// The path the rename writes to: the destination's leaf under its
    /// resolved parent.
    pub to_path: String,
}

/// The parent directory a destination path names, which must be resolved
/// before a move; `Io` when the destination names no parent and leaf.
pub fn move_dest_parent(destination: &str) -> (r: Result<String, FsError>)
    ensures
        r is Ok <==> splittable(destination@),
        match r {
            Ok(p) => p@ == spec_parent(destination@),
            Err(e) => e == FsError::Io,
        },
{
    match split_parent_leaf(destination) {
        None => Err(FsError::Io),
        Some(pair) => Ok(pair.0),
    }
}

/// Plans a move of `source_canon` (the canonicalized source) onto
/// `destination`, whose parent the caller canonicalized into
/// `dest_parent_canon`. Both sides must lie inside the sandbox, and each
/// failure is classified by its cause: the source is judged first, then
/// the destination's shape, then the destination's parent.
pub fn move_file_plan(
    sb: &Sandbox,
    source_canon: CanonOutcome,
    destination: &str,
    dest_parent_canon: CanonOutcome,
) -> (r: Result<MovePlan, FsError>)
    ensures
        r is Ok <==> (source_canon.is_resolved() && sb.contains_path(source_canon.path())
            && splittable(destination@) && dest_parent_canon.is_resolved() && sb.contains_path(
            dest_parent_canon.path(),
        )),
        match r {
            Ok(plan) => {
                &&& plan.from_path@ == source_canon.path()
                &&& sb.contains_path(plan.from_path@)
                &&& plan.to_path@ == spec_join(dest_parent_canon.path(), spec_leaf(destination@))
                &&& str_begins_with(
                    plan.to_path@,
                    spec_join(dest_parent_canon.path(), Seq::<char>::empty()),
                )
                &&& sb.contains_path(dest_parent_canon.path())
                &&& sb.contains_path(plan.to_path@)
            },
            Err(e) => {
                &&& (source_canon is NotFound ==> e == FsError::NotFound)
                &&& (source_canon is Failed ==> e == FsError::Io)
                &&& ((source_canon.is_resolved() && !sb.contains_path(source_canon.path())) ==> e
                    == FsError::OutsideSandbox)
                &&& ((source_canon.is_resolved() && sb.contains_path(source_canon.path())) ==> {
                    &&& (!splittable(destination@) ==> e == FsError::Io)
                    &&& (splittable(destination@) ==> {
                        &&& (dest_parent_canon is NotFound ==> e == FsError::NotFound)
                        &&& (dest_parent_canon is Failed ==> e == FsError::Io)
                        &&& ((dest_parent_canon.is_resolved() && !sb.contains_path(
                            dest_parent_canon.path(),
                        )) ==> e == FsError::OutsideSandbox)
                    })
                })
            },
        },
{
    let from_path = match sb.resolve_path(source_canon) {
        Ok(p) => p,
        Err(e) => {
            return Err(e);
        },
    };
    let leaf = match split_parent_leaf(destination) {
        None => {
            return Err(FsError::Io);
        },
        Some(pair) => pair.1,
    };
    let dest_parent = match sb.resolve_path(dest_parent_canon) {
        Ok(p) => p,
        Err(e) => {
            return Err(e);
        },
    };
    let to_path = crate::pathutil::join_path(dest_parent.as_str(), leaf.as_str());
    proof {
        lemma_join_extends_prefix(dest_parent@, leaf@);
        sb.lemma_contains_path_join(dest_parent@, leaf@);
    }
    Ok(MovePlan { from_path, to_path })
}

/// What a create-directory call decides to do.
pub enum CreateDirDecision {
    /// The path does not exist and some resolvable ancestor is inside
    /// the sandbox: create the full directory chain.
    Create,
    /// The path already exists, as a file or a directory: create nothing
    /// and report that it exists.
    AlreadyExists,
}

/// Decides a create-directory call. `path_exists` is what the caller saw
/// on disk; `ancestor_canons` holds the canonicalization outcomes of the
/// path's ancestors, nearest first. Creation is idempotent-reporting: an
/// existing path is not an error. A path with no contained ancestor is
/// always refused.
pub fn create_directory(sb: &Sandbox, path_exists: bool, ancestor_canons: &Vec<CanonOutcome>) -> (r:
    Result<CreateDirDecision, FsError>)
    ensures
        r is Ok <==> (path_exists || sb.spec_check_new_folders(ancestor_canons@)),
        match r {
            Ok(d) => {
                &&& d is AlreadyExists <==> path_exists
                &&& d is Create <==> (!path_exists && sb.spec_check_new_folders(ancestor_canons@))
            },
            Err(e) => e == FsError::OutsideSandbox && !path_exists
                && !sb.spec_check_new_folders(ancestor_canons@),
        },
{
    if path_exists {
        Ok(CreateDirDecision::AlreadyExists)
    } else if sb.check_new_folders(ancestor_canons) {
        Ok(CreateDirDecision::Create)
    } else {
        Err(FsError::OutsideSandbox)
    }
}

/// The status message for a create-directory call whose path already
/// exists.
pub fn already_exists_message(path: &str) -> (r: String)
    ensures
        r@ == "Path '"@ + path@ + "' already exists"@,
{
    let mut message = String::from_str("Path '");
    message.append(path);
    message.append("' already exists");
    message
}

} // verus!
