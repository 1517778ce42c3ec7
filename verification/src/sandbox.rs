//! The containment authority: a fixed set of canonical root directories,
//! and the checks that confine every operation to them.
//!
//! Canonicalizing a path is a syscall and stays with the caller; its
//! outcome is handed in as a [`CanonOutcome`]. Everything decided from
//! that outcome — containment, error classification, the ancestor rule
//! for paths that do not exist yet — is verified here.

use vstd::prelude::*;
use vstd::string::*;

use crate::errors::FsError;
use crate::pathutil::spec_join;
use crate::strings::{begins_with, str_begins_with, str_eq};

verus! {

/// What canonicalizing one path returned: its canonical absolute form,
/// or the reason there is none.
pub enum CanonOutcome {
    /// The path exists; this is its canonical, symlink-resolved form.
    Resolved(String),
    /// The path does not exist.
    NotFound,
    /// Canonicalization failed for another reason.
    Failed,
}

impl CanonOutcome {
    /// The canonicalization succeeded.
    pub open spec fn is_resolved(&self) -> bool {
        self is Resolved
    }

    /// The canonical path it produced.
    pub open spec fn path(&self) -> Seq<char> {
        self->Resolved_0@
    }
}

/// One root offered to the sandbox at startup: the outcome of
/// canonicalizing it, and whether the canonical form is a directory.
pub struct RootProbe {
    /// The outcome of canonicalizing the root.
    pub canon: CanonOutcome,
    /// Whether the resolved root is a directory.
    pub is_dir: bool,
}

impl RootProbe {
    /// The probe found an existing directory.
    pub open spec fn is_good(&self) -> bool {
        self.canon.is_resolved() && self.is_dir
    }
}

/// The canonical path `path` is equal to `root` or a descendant of it.
pub open spec fn root_contains(root: Seq<char>, path: Seq<char>) -> bool {
    path == root || str_begins_with(path, spec_join(root, Seq::<char>::empty()))
}

/// The first offered root that did not resolve to an existing directory:
/// the one a configuration failure should be reported against.
pub fn first_bad_root_index(probes: &Vec<RootProbe>) -> (r: Option<usize>)
    ensures
        match r {
            Some(i) => 0 <= i < probes@.len() && !probes@[i as int].is_good() && forall|k: int|
                0 <= k < i ==> probes@[k].is_good(),
            None => forall|k: int| 0 <= k < probes@.len() ==> probes@[k].is_good(),
        },
{
    let mut i: usize = 0;
    while i < probes.len()
        invariant
            0 <= i <= probes@.len(),
            forall|k: int| 0 <= k < i ==> probes@[k].is_good(),
        decreases probes@.len() - i,
    {
        match &probes[i] {
            RootProbe { canon: CanonOutcome::Resolved(_), is_dir: true } => {},
            _ => {
                return Some(i);
            },
        }
        i += 1;
    }
    None
}

/// A root that contains a directory contains everything joined under it.
proof fn lemma_root_contains_join(root: Seq<char>, dir: Seq<char>, leaf: Seq<char>)
    requires
        root_contains(root, dir),
    ensures
        root_contains(root, spec_join(dir, leaf)),
{
    let prefix = spec_join(root, Seq::<char>::empty());
    let full = spec_join(dir, leaf);
    assert(full.subrange(0, prefix.len() as int) =~= prefix);
}

/// An immutable set of canonical root directories. No operation of the
/// engine may touch a path outside of it.
pub struct Sandbox {
    roots: Vec<String>,
}

impl Sandbox {
    /// The canonical roots, as character sequences.
    pub closed spec fn spec_roots(&self) -> Seq<Seq<char>> {
        self.roots@.map_values(|r: String| r@)
    }

    /// The canonical path `path` is inside some root.
    pub open spec fn contains_path(&self, path: Seq<char>) -> bool {
        exists|k: int|
            0 <= k < self.spec_roots().len() && root_contains(self.spec_roots()[k], path)
    }

    /// What the ancestor walk decides: the first ancestor that resolved
    /// settles containment; if none resolved, the path is not accepted.
    pub open spec fn spec_check_new_folders(&self, canons: Seq<CanonOutcome>) -> bool
        decreases canons.len(),
    {
        if canons.len() == 0 {
            false
        } else if canons[0].is_resolved() {
            self.contains_path(canons[0].path())
        } else {
            self.spec_check_new_folders(canons.drop_first())
        }
    }

    /// Containment is closed under joining a leaf: a name placed under a
    /// contained directory is itself contained, so a plan built from a
    /// resolved parent can never name a target outside the sandbox.
    pub proof fn lemma_contains_path_join(self, dir: Seq<char>, leaf: Seq<char>)
        requires
            self.contains_path(dir),
        ensures
            self.contains_path(spec_join(dir, leaf)),
    {
        let k = choose|k: int|
            0 <= k < self.spec_roots().len() && root_contains(self.spec_roots()[k], dir);
        lemma_root_contains_join(self.spec_roots()[k], dir, leaf);
    }

    /// Builds the sandbox from the probed roots. Every root must have
    /// resolved to an existing directory; otherwise configuration fails.
    pub fn new(probes: Vec<RootProbe>) -> (r: Result<Sandbox, FsError>)
        ensures
            r is Ok <==> (forall|k: int| 0 <= k < probes@.len() ==> probes@[k].is_good()),
            match r {
                Ok(sb) => {
                    &&& sb.spec_roots().len() == probes@.len()
                    &&& forall|k: int|
                        0 <= k < probes@.len() ==> sb.spec_roots()[k] == probes@[k].canon.path()
                },
                Err(e) => e == FsError::Configuration,
            },
    {
        let mut roots: Vec<String> = Vec::new();
        let mut i: usize = 0;
        while i < probes.len()
            invariant
                0 <= i <= probes@.len(),
                roots@.len() == i,
                forall|k: int| 0 <= k < i ==> probes@[k].is_good(),
                forall|k: int| 0 <= k < i ==> roots@[k]@ == probes@[k].canon.path(),
            decreases probes@.len() - i,
        {
            match &probes[i] {
                RootProbe { canon: CanonOutcome::Resolved(p), is_dir: true } => {
                    roots.push(p.clone());
                },
                _ => {
                    return Err(FsError::Configuration);
                },
            }
            i += 1;
        }
        let sb = Sandbox { roots };
        proof {
            assert(forall|k: int|
                0 <= k < probes@.len() ==> sb.spec_roots()[k] == probes@[k].canon.path());
        }
        Ok(sb)
    }

    /// Whether the canonical path `path` is equal to, or a descendant
    /// of, some root.
    pub fn is_contained(&self, path: &str) -> (r: bool)
        ensures
            r == self.contains_path(path@),
    {
        let mut k: usize = 0;
        while k < self.roots.len()
            invariant
                0 <= k <= self.roots@.len(),
                forall|j: int| 0 <= j < k ==> !root_contains(self.spec_roots()[j], path@),
            decreases self.roots@.len() - k,
        {
            let root = &self.roots[k];
            if str_eq(path, root.as_str()) {
                assert(root_contains(self.spec_roots()[k as int], path@));
                return true;
            }
            let prefix = crate::pathutil::join_path(root.as_str(), "");
            proof {
                reveal_strlit("");
                assert(prefix@ =~= spec_join(root@, Seq::<char>::empty()));
            }
            if begins_with(path, prefix.as_str()) {
                assert(root_contains(self.spec_roots()[k as int], path@));
                return true;
            }
            k += 1;
        }
        false
    }

    /// The canonical root set, for disclosure to callers.
    pub fn get_roots(&self) -> (r: Vec<String>)
        ensures
            r@.map_values(|a: String| a@) == self.spec_roots(),
    {
        let mut result: Vec<String> = Vec::new();
        let mut i: usize = 0;
        while i < self.roots.len()
            invariant
                0 <= i <= self.roots@.len(),
                result@.len() == i,
                forall|k: int| 0 <= k < i ==> result@[k]@ == self.spec_roots()[k],
            decreases self.roots@.len() - i,
        {
            result.push(self.roots[i].clone());
            i += 1;
        }
        proof {
            assert(result@.map_values(|a: String| a@) =~= self.spec_roots());
        }
        result
    }

    /// Accepts the canonical form of an existing path if it lies inside
    /// some root; classifies every other outcome.
    ///
    /// A path that canonicalizes outside every root is always rejected
    /// with `OutsideSandbox`, and a path inside a root is always
    /// accepted and returned in its canonical form.
    pub fn resolve_path(&self, canon: CanonOutcome) -> (r: Result<String, FsError>)
        ensures
            r is Ok <==> (canon.is_resolved() && self.contains_path(canon.path())),
            match r {
                Ok(p) => p@ == canon.path() && self.contains_path(p@),
                Err(e) => {
                    &&& (canon.is_resolved() ==> e == FsError::OutsideSandbox
                        && !self.contains_path(canon.path()))
                    &&& (canon is NotFound ==> e == FsError::NotFound)
                    &&& (canon is Failed ==> e == FsError::Io)
                },
            },
    {
        match canon {
            CanonOutcome::Resolved(p) => {
                if self.is_contained(p.as_str()) {
                    Ok(p)
                } else {
                    Err(FsError::OutsideSandbox)
                }
            },
            CanonOutcome::NotFound => Err(FsError::NotFound),
            CanonOutcome::Failed => Err(FsError::Io),
        }
    }

    /// Decides whether a path that does not exist yet may be created:
    /// `canons` holds the canonicalization outcomes of the path's
    /// ancestors, nearest first, and the first ancestor that resolved
    /// settles containment.
    pub fn check_new_folders(&self, canons: &Vec<CanonOutcome>) -> (r: bool)
        ensures
            r == self.spec_check_new_folders(canons@),
    {
        proof {
            assert(canons@.subrange(0, canons@.len() as int) =~= canons@);
        }
        let mut i: usize = 0;
        while i < canons.len()
            invariant
                0 <= i <= canons@.len(),
                self.spec_check_new_folders(canons@) == self.spec_check_new_folders(
                    canons@.subrange(i as int, canons@.len() as int),
                ),
            decreases canons@.len() - i,
        {
            let ghost tail = canons@.subrange(i as int, canons@.len() as int);
            proof {
                assert(tail.drop_first() =~= canons@.subrange(i + 1, canons@.len() as int));
            }
            match &canons[i] {
                CanonOutcome::Resolved(p) => {
                    return self.is_contained(p.as_str());
                },
                _ => {},
            }
            i += 1;
        }
        proof {
            assert(canons@.subrange(i as int, canons@.len() as int)
                =~= Seq::<CanonOutcome>::empty());
        }
        false
    }
}

} // verus!
