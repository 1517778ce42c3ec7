//! Recursive glob search and flat directory listing.
//!
//! A search compiles one keep glob and any number of exclude globs,
//! matches them case-insensitively against the bare file name of every
//! regular file under the searched directory, and returns the matching
//! absolute paths sorted. A listing decorates directory names with a
//! trailing `/`, skips symlinked entries, and is sorted too. The glob
//! compilation and matching and the directory walk are calls into the
//! globset and ignore crates; everything decided from their results is
//! verified.

use vstd::multiset::Multiset;
use vstd::prelude::*;
use vstd::relations::{sorted_by, total_ordering};
use vstd::seq_lib::lemma_multiset_commutative;
use vstd::string::*;

use crate::errors::FsError;
use crate::strings::{lemma_lex_le_total_ordering, lex_le, lex_le_exec, lex_leq};

verus! {

/// The views of a list of strings.
pub open spec fn views_of(v: Seq<String>) -> Seq<Seq<char>> {
    v.map_values(|s: String| s@)
}

/// A compiled glob set of the globset crate, carried opaquely. Every set
/// the engine builds holds exactly one glob.
#[verifier::external_type_specification]
#[verifier::external_body]
pub struct ExGlobSet(globset::GlobSet);

/// The pattern text parses as a glob and its matcher builds within the
/// globset crate's size limit.
pub uninterp spec fn glob_valid(pattern: Seq<char>) -> bool;

/// The pattern of the one glob a compiled set was built from.
pub uninterp spec fn matcher_pattern(m: globset::GlobSet) -> Seq<char>;

/// Whether a name matches a glob pattern.
pub uninterp spec fn glob_match(pattern: Seq<char>, name: Seq<char>) -> bool;

/// The lowercased form of a text.
pub uninterp spec fn lower_of(s: Seq<char>) -> Seq<char>;

/// Relies on globset's `Glob::new` and `GlobSetBuilder::build`: a pattern
/// compiles exactly when it parses as a glob and its matcher builds
/// within the crate's size limit; both failures come back as errors, and
/// the built set holds that one pattern.
#[verifier::external_body]
fn compile_glob(pattern: &str) -> (r: Result<globset::GlobSet, FsError>)
    ensures
        r is Ok <==> glob_valid(pattern@),
        match r {
            Ok(m) => matcher_pattern(m) == pattern@,
            Err(e) => e == FsError::InvalidPattern,
        },
{
    let glob = match globset::Glob::new(pattern) {
        Ok(g) => g,
        Err(_) => return Err(FsError::InvalidPattern),
    };
    let mut builder = globset::GlobSetBuilder::new();
    builder.add(glob);
    match builder.build() {
        Ok(s) => Ok(s),
        Err(_) => Err(FsError::InvalidPattern),
    }
}

/// Relies on globset's `GlobSet::is_match`: whether the name matches the
/// set's one pattern, a function of the pattern and the name alone.
#[verifier::external_body]
fn glob_is_match(m: &globset::GlobSet, name: &str) -> (r: bool)
    ensures
        r == glob_match(matcher_pattern(*m), name@),
{
    m.is_match(name)
}

/// Relies on `str::to_lowercase`: the lowercased text is a function of
/// the characters alone, and an empty text stays empty.
#[verifier::external_body]
fn to_lowercase_str(s: &str) -> (r: String)
    ensures
        r@ == lower_of(s@),
        s@.len() == 0 ==> r@.len() == 0,
{
    s.to_lowercase()
}

/// One compiled keep glob and the compiled exclude globs of a search.
pub struct Patterns {
    keep: globset::GlobSet,
    excludes: Vec<globset::GlobSet>,
}

impl Patterns {
    /// The pattern the keep matcher was built from.
    pub closed spec fn keep_pattern(&self) -> Seq<char> {
        matcher_pattern(self.keep)
    }

    /// The patterns the exclude matchers were built from.
    pub closed spec fn exclude_patterns(&self) -> Seq<Seq<char>> {
        self.excludes@.map_values(|m: globset::GlobSet| matcher_pattern(m))
    }
}

/// A lowercased name is selected when it matches the keep pattern and
/// none of the exclude patterns.
pub open spec fn spec_selected_name(
    keep: Seq<char>,
    excludes: Seq<Seq<char>>,
    lower_name: Seq<char>,
) -> bool {
    glob_match(keep, lower_name) && forall|k: int|
        0 <= k < excludes.len() ==> !glob_match(excludes[k], lower_name)
}

/// Compiles the keep pattern and the exclude patterns, all lowercased
/// first so that matching is case-insensitive. Fails with
/// `InvalidPattern` as soon as one pattern does not compile as a glob.
pub fn build_patterns(pattern: &str, exclude_patterns: &Vec<String>) -> (r: Result<
    Patterns,
    FsError,
>)
    ensures
        match r {
            Ok(p) => {
                &&& glob_valid(lower_of(pattern@))
                &&& p.keep_pattern() == lower_of(pattern@)
                &&& p.exclude_patterns().len() == exclude_patterns@.len()
                &&& forall|k: int|
                    0 <= k < exclude_patterns@.len() ==> p.exclude_patterns()[k] == #[trigger]
                    lower_of(exclude_patterns@[k]@)
            },
            Err(e) => {
                &&& e == FsError::InvalidPattern
                &&& (!glob_valid(lower_of(pattern@)) || exists|k: int|
                    0 <= k < exclude_patterns@.len() && !glob_valid(#[trigger] lower_of(
                        exclude_patterns@[k]@,
                    )))
            },
        },
        r is Ok <==> (glob_valid(lower_of(pattern@)) && forall|k: int|
            0 <= k < exclude_patterns@.len() ==> glob_valid(
                #[trigger] lower_of(exclude_patterns@[k]@),
            )),
{
    let lowered = to_lowercase_str(pattern);
    let keep = match compile_glob(lowered.as_str()) {
        Ok(m) => m,
        Err(e) => {
            return Err(e);
        },
    };
    let mut excludes: Vec<globset::GlobSet> = Vec::new();
    let mut i: usize = 0;
    while i < exclude_patterns.len()
        invariant
            0 <= i <= exclude_patterns@.len(),
            excludes@.len() == i,
            forall|k: int| 0 <= k < i ==> glob_valid(#[trigger] lower_of(exclude_patterns@[k]@)),
            forall|k: int|
                0 <= k < i ==> matcher_pattern(#[trigger] excludes@[k]) == lower_of(
                    exclude_patterns@[k]@,
                ),
        decreases exclude_patterns@.len() - i,
    {
        let lowered_exclude = to_lowercase_str(exclude_patterns[i].as_str());
        match compile_glob(lowered_exclude.as_str()) {
            Ok(m) => {
                excludes.push(m);
                proof {
                    assert(matcher_pattern(excludes@[i as int]) == lower_of(
                        exclude_patterns@[i as int]@));
                }
            },
            Err(e) => {
                return Err(e);
            },
        }
        i += 1;
    }
    let pats = Patterns { keep, excludes };
    proof {
        assert forall|k: int| 0 <= k < exclude_patterns@.len() implies pats.exclude_patterns()[k]
            == lower_of(exclude_patterns@[k]@) by {
            assert(pats.exclude_patterns()[k] == matcher_pattern(pats.excludes@[k]));
        }
    }
    Ok(pats)
}

/// Whether the lowercased name matches some exclude pattern.
fn any_exclude_matches(excludes: &Vec<globset::GlobSet>, lower_name: &str) -> (r: bool)
    ensures
        r == exists|k: int|
            0 <= k < excludes@.len() && glob_match(matcher_pattern(excludes@[k]), lower_name@),
{
    let mut i: usize = 0;
    while i < excludes.len()
        invariant
            0 <= i <= excludes@.len(),
            forall|k: int| 0 <= k < i ==> !glob_match(matcher_pattern(excludes@[k]), lower_name@),
        decreases excludes@.len() - i,
    {
        if glob_is_match(&excludes[i], lower_name) {
            return true;
        }
        i += 1;
    }
    false
}

/// Listings and search results are stable: the engine pins each to the
/// sorted arrangement of its contents, and two sorted lists with the same
/// contents are the same list, so an unchanged directory always produces
/// the same output.
pub proof fn lemma_sorted_output_unique(a: Seq<Seq<char>>, b: Seq<Seq<char>>)
    requires
        sorted_by(a, lex_leq()),
        sorted_by(b, lex_leq()),
        a.to_multiset() == b.to_multiset(),
    ensures
        a == b,
{
    lemma_lex_le_total_ordering();
    vstd::seq_lib::lemma_sorted_unique(a, b, lex_leq());
}

/// Inserting into a sequence adds the element to the sequence's multiset.
proof fn lemma_insert_to_multiset<A>(s: Seq<A>, p: int, a: A)
    requires
        0 <= p <= s.len(),
    ensures
        s.insert(p, a).to_multiset() == s.to_multiset().insert(a),
{
    broadcast use vstd::multiset::group_multiset_axioms;

    assert(s.insert(p, a) =~= s.subrange(0, p) + (seq![a] + s.subrange(p, s.len() as int)));
    lemma_multiset_commutative(s.subrange(0, p), seq![a] + s.subrange(p, s.len() as int));
    lemma_multiset_commutative(seq![a], s.subrange(p, s.len() as int));
    assert(s =~= s.subrange(0, p) + s.subrange(p, s.len() as int));
    lemma_multiset_commutative(s.subrange(0, p), s.subrange(p, s.len() as int));
    assert(seq![a] =~= Seq::<A>::empty().push(a));
    Seq::<A>::empty().to_multiset_ensures();
    vstd::multiset::lemma_multiset_empty_len(Seq::<A>::empty().to_multiset());
    assert(seq![a].to_multiset() =~= Multiset::<A>::empty().insert(a));
    assert(s.insert(p, a).to_multiset() =~= s.to_multiset().insert(a));
}

/// Inserts a string into a sorted list, keeping it sorted and adding the
/// string to its contents.
#[verifier::rlimit(30)]
pub fn insert_sorted(out: &mut Vec<String>, s: String)
    requires
        sorted_by(views_of(old(out)@), lex_leq()),
    ensures
        sorted_by(views_of(final(out)@), lex_leq()),
        views_of(final(out)@).to_multiset() == views_of(old(out)@).to_multiset().insert(s@),
{
    broadcast use vstd::seq_lib::group_seq_properties;
    broadcast use vstd::multiset::group_multiset_axioms;

    let ghost pre = views_of(old(out)@);
    proof {
        lemma_lex_le_total_ordering();
    }
    let mut p: usize = 0;
    while p < out.len() && lex_le_exec(out[p].as_str(), s.as_str())
        invariant
            0 <= p <= out@.len(),
            out@ == old(out)@,
            pre == views_of(out@),
            forall|k: int| 0 <= k < p ==> lex_le(pre[k], s@),
            total_ordering(lex_leq()),
            sorted_by(pre, lex_leq()),
        decreases out@.len() - p,
    {
        proof {
            assert(lex_leq()(pre[p as int], s@) == lex_le(pre[p as int], s@));
        }
        p += 1;
    }
    proof {
        if p < pre.len() {
            assert(!lex_le(pre[p as int], s@));
            assert(lex_leq()(pre[p as int], s@) || lex_leq()(s@, pre[p as int]));
            assert(lex_le(s@, pre[p as int]));
        }
    }
    out.insert(p, s);
    proof {
        let post = views_of(out@);
        pre.insert_ensures(p as int, s@);
        assert(post =~= pre.insert(p as int, s@));
        assert forall|i: int, j: int| 0 <= i < j < post.len() implies lex_leq()(
            post[i],
            post[j],
        ) by {
            if j < p {
                assert(lex_leq()(pre[i], pre[j]));
            } else if i > p {
                assert(post[i] == pre[i - 1] && post[j] == pre[j - 1]);
                assert(lex_leq()(pre[i - 1], pre[j - 1]));
            } else if i == p && j > p {
                assert(post[i] == s@ && post[j] == pre[j - 1]);
                assert(lex_le(s@, pre[p as int]));
                if j - 1 > p {
                    assert(lex_leq()(pre[p as int], pre[j - 1]));
                }
                assert(lex_leq()(s@, pre[p as int]));
                assert(lex_leq()(pre[j - 1], pre[j - 1])) by {
                    crate::strings::lemma_lex_le_total_ordering();
                }
                assert(lex_leq()(s@, pre[j - 1]));
            } else if j == p {
                assert(post[i] == pre[i] && post[j] == s@);
                assert(lex_le(pre[i], s@));
            } else {
                assert(i < p && j > p);
                assert(post[i] == pre[i] && post[j] == pre[j - 1]);
                assert(lex_le(pre[i], s@));
                assert(lex_le(s@, pre[p as int]));
                if j - 1 > p {
                    assert(lex_leq()(pre[p as int], pre[j - 1]));
                }
                assert(lex_leq()(pre[i], s@) && lex_leq()(s@, pre[p as int]));
                assert(lex_leq()(pre[i], pre[j - 1]));
            }
        }
        lemma_insert_to_multiset(pre, p as int, s@);
    }
}

/// One entry a directory walk reported: its full path, its bare file
/// name, and whether it is a regular file.
pub struct WalkEntry {
    /// The entry's full path.
    pub path: String,
    /// The entry's bare file name.
    pub name: String,
    /// Whether the entry is a regular file.
    pub is_file: bool,
}

/// The mathematical content of a [`WalkEntry`].
pub ghost struct WalkEntryView {
    /// The entry's full path.
    pub path: Seq<char>,
    /// The entry's bare file name.
    pub name: Seq<char>,
    /// Whether the entry is a regular file.
    pub is_file: bool,
}

impl View for WalkEntry {
    type V = WalkEntryView;

    open spec fn view(&self) -> WalkEntryView {
        WalkEntryView { path: self.path@, name: self.name@, is_file: self.is_file }
    }
}

/// Relies on the ignore crate's `WalkBuilder`: walks the subtree under
/// `root` without following symlinks and without honoring any ignore
/// file, visiting hidden entries too; reports each visited entry's full
/// path, bare file name and whether it is a regular file. Every reported
/// path extends the walked root. An entry the walk cannot read is
/// skipped, and the walk goes on.
#[verifier::external_body]
fn walk_entries(root: &str) -> (r: Vec<WalkEntry>)
    ensures
        forall|k: int|
            0 <= k < r@.len() ==> crate::strings::str_begins_with((#[trigger] r@[k])@.path, root@),
{
    let walker = ignore::WalkBuilder::new(root).follow_links(false).standard_filters(false).build();
    walker.flatten().map(
        |e| WalkEntry {
            path: e.path().to_string_lossy().to_string(),
            name: e.file_name().to_string_lossy().to_string(),
            is_file: e.file_type().map(|t| t.is_file()).unwrap_or(false),
        },
    ).collect()
}

/// The paths of the regular files among `entries` whose lowercased name
/// is selected by the patterns, in walk order.
pub open spec fn spec_selected_paths(
    entries: Seq<WalkEntryView>,
    keep: Seq<char>,
    excludes: Seq<Seq<char>>,
) -> Seq<Seq<char>>
    decreases entries.len(),
{
    if entries.len() == 0 {
        Seq::<Seq<char>>::empty()
    } else {
        (if entries[0].is_file && spec_selected_name(keep, excludes, lower_of(entries[0].name)) {
            seq![entries[0].path]
        } else {
            Seq::<Seq<char>>::empty()
        }) + spec_selected_paths(entries.drop_first(), keep, excludes)
    }
}

/// Every selected path is the path of one of the walked entries.
proof fn lemma_selected_paths_from_entries(
    entries: Seq<WalkEntryView>,
    keep: Seq<char>,
    excludes: Seq<Seq<char>>,
)
    ensures
        forall|x: Seq<char>|
            #[trigger] spec_selected_paths(entries, keep, excludes).contains(x) ==> exists|k: int|
                0 <= k < entries.len() && entries[k].path == x,
    decreases entries.len(),
{
    if entries.len() > 0 {
        lemma_selected_paths_from_entries(entries.drop_first(), keep, excludes);
        assert forall|x: Seq<char>|
            #[trigger] spec_selected_paths(entries, keep, excludes).contains(x) implies exists|
            k: int,
        | 0 <= k < entries.len() && entries[k].path == x by {
            if x != entries[0].path {
                let sel = spec_selected_paths(entries, keep, excludes);
                let rest = spec_selected_paths(entries.drop_first(), keep, excludes);
                let i = choose|i: int| 0 <= i < sel.len() && sel[i] == x;
                let head_len = sel.len() - rest.len();
                assert(rest[i - head_len] == x);
                assert(rest.contains(x));
                let k = choose|k: int|
                    0 <= k < entries.drop_first().len() && entries.drop_first()[k].path == x;
                assert(entries[k + 1].path == x);
            }
        }
    }
}

/// Selects, from the walked entries, the regular files whose lowercased
/// bare name matches the keep pattern and none of the exclude
/// patterns, and returns their paths sorted.
pub fn search_select(entries: &Vec<WalkEntry>, pats: &Patterns) -> (r: Vec<String>)
    ensures
        sorted_by(views_of(r@), lex_leq()),
        views_of(r@).to_multiset() == spec_selected_paths(
            entries@.map_values(|e: WalkEntry| e@),
            pats.keep_pattern(),
            pats.exclude_patterns(),
        ).to_multiset(),
{
    broadcast use vstd::multiset::group_multiset_axioms;

    let ghost all = entries@.map_values(|e: WalkEntry| e@);
    let ghost keep = pats.keep_pattern();
    let ghost excludes = pats.exclude_patterns();
    let mut out: Vec<String> = Vec::new();
    proof {
        assert(all.subrange(0, all.len() as int) =~= all);
        assert(views_of(out@) =~= Seq::<Seq<char>>::empty());
        Seq::<Seq<char>>::empty().to_multiset_ensures();
        assert(views_of(out@).to_multiset() =~= Multiset::<Seq<char>>::empty());
        assert(views_of(out@).to_multiset().add(
            spec_selected_paths(all, keep, excludes).to_multiset(),
        ) =~= spec_selected_paths(all, keep, excludes).to_multiset());
    }
    let mut i: usize = 0;
    while i < entries.len()
        invariant
            0 <= i <= all.len(),
            all == entries@.map_values(|e: WalkEntry| e@),
            keep == pats.keep_pattern(),
            excludes == pats.exclude_patterns(),
            sorted_by(views_of(out@), lex_leq()),
            views_of(out@).to_multiset().add(
                spec_selected_paths(all.subrange(i as int, all.len() as int), keep,
                    excludes).to_multiset(),
            ) == spec_selected_paths(all, keep, excludes).to_multiset(),
        decreases all.len() - i,
    {
        let ghost tail = all.subrange(i as int, all.len() as int);
        proof {
            assert(tail.drop_first() =~= all.subrange(i + 1, all.len() as int));
        }
        let e = &entries[i];
        proof {
            assert(tail[0] == all[i as int]);
            assert(all[i as int] == entries@[i as int]@);
        }
        let selected: bool = if e.is_file {
            let lower_name = to_lowercase_str(e.name.as_str());
            let kept = glob_is_match(&pats.keep, lower_name.as_str());
            let excluded = any_exclude_matches(&pats.excludes, lower_name.as_str());
            proof {
                assert(lower_name@ == lower_of(tail[0].name));
                assert(kept == glob_match(keep, lower_of(tail[0].name)));
                assert(excludes.len() == pats.excludes@.len());
                assert(forall|k: int|
                    0 <= k < excludes.len() ==> #[trigger] excludes[k] == matcher_pattern(
                        pats.excludes@[k],
                    ));
                assert(excluded == exists|k: int|
                    0 <= k < excludes.len() && glob_match(
                        #[trigger] excludes[k],
                        lower_of(tail[0].name),
                    )) by {
                    if excluded {
                        let k = choose|k: int|
                            0 <= k < pats.excludes@.len() && glob_match(
                                matcher_pattern(#[trigger] pats.excludes@[k]),
                                lower_name@,
                            );
                        assert(glob_match(excludes[k], lower_of(tail[0].name)));
                    } else {
                        assert forall|k: int| 0 <= k < excludes.len() implies !glob_match(
                            #[trigger] excludes[k],
                            lower_of(tail[0].name),
                        ) by {
                            assert(!glob_match(matcher_pattern(pats.excludes@[k]), lower_name@));
                        }
                    }
                }
                assert((kept && !excluded) == spec_selected_name(keep, excludes, lower_of(
                    tail[0].name)));
            }
            kept && !excluded
        } else {
            false
        };
        let ghost before = views_of(out@);
        if selected {
            proof {
                assert(tail[0].is_file && spec_selected_name(keep, excludes, lower_of(
                    tail[0].name)));
                assert(spec_selected_paths(tail, keep, excludes) =~= seq![tail[0].path]
                    + spec_selected_paths(tail.drop_first(), keep, excludes));
                lemma_multiset_commutative(
                    seq![tail[0].path],
                    spec_selected_paths(tail.drop_first(), keep, excludes),
                );
                assert(seq![tail[0].path] =~= Seq::<Seq<char>>::empty().push(tail[0].path));
                Seq::<Seq<char>>::empty().to_multiset_ensures();
                assert(Seq::<Seq<char>>::empty().to_multiset()
                    =~= Multiset::<Seq<char>>::empty());
            }
            insert_sorted(&mut out, e.path.clone());
            proof {
                assert(views_of(out@).to_multiset() =~= before.to_multiset().insert(
                    tail[0].path));
                assert(views_of(out@).to_multiset().add(
                    spec_selected_paths(all.subrange(i + 1, all.len() as int), keep,
                        excludes).to_multiset(),
                ) =~= spec_selected_paths(all, keep, excludes).to_multiset());
            }
        } else {
            proof {
                assert(spec_selected_paths(tail, keep, excludes) =~= spec_selected_paths(
                    tail.drop_first(), keep, excludes));
            }
        }
        i += 1;
    }
    proof {
        assert(all.subrange(all.len() as int, all.len() as int) =~= Seq::<WalkEntryView>::empty());
        assert(spec_selected_paths(all.subrange(all.len() as int, all.len() as int), keep,
            excludes) =~= Seq::<Seq<char>>::empty());
        Seq::<Seq<char>>::empty().to_multiset_ensures();
        assert(Seq::<Seq<char>>::empty().to_multiset() =~= Multiset::<Seq<char>>::empty());
        assert(views_of(out@).to_multiset() =~= spec_selected_paths(all, keep,
            excludes).to_multiset());
    }
    out
}

/// Searches the subtree under the resolved directory `canon_path` for
/// regular files matching the keep pattern and none of the exclude
/// patterns, case-insensitively against the bare file name. Fails exactly
/// when a pattern is not a well-formed glob; the matching paths come back
/// sorted.
pub fn search_files(
    sb: &crate::sandbox::Sandbox,
    canon_path: &str,
    pattern: &str,
    exclude_patterns: &Vec<String>,
) -> (r: Result<Vec<String>, FsError>)
    requires
        sb.contains_path(canon_path@),
    ensures
        r is Ok <==> (glob_valid(lower_of(pattern@)) && forall|k: int|
            0 <= k < exclude_patterns@.len() ==> glob_valid(
                #[trigger] lower_of(exclude_patterns@[k]@),
            )),
        match r {
            Ok(files) => sorted_by(views_of(files@), lex_leq()) && forall|j: int|
                0 <= j < files@.len() ==> crate::strings::str_begins_with(
                    (#[trigger] files@[j])@,
                    canon_path@,
                ),
            Err(e) => e == FsError::InvalidPattern,
        },
{
    let pats = match build_patterns(pattern, exclude_patterns) {
        Ok(p) => p,
        Err(e) => {
            return Err(e);
        },
    };
    let entries = walk_entries(canon_path);
    let files = search_select(&entries, &pats);
    proof {
        let views = views_of(files@);
        let entry_views = entries@.map_values(|e: WalkEntry| e@);
        let sel = spec_selected_paths(entry_views, pats.keep_pattern(), pats.exclude_patterns());
        views.to_multiset_ensures();
        sel.to_multiset_ensures();
        lemma_selected_paths_from_entries(
            entry_views,
            pats.keep_pattern(),
            pats.exclude_patterns(),
        );
        assert forall|j: int| 0 <= j < files@.len() implies crate::strings::str_begins_with(
            (#[trigger] files@[j])@,
            canon_path@,
        ) by {
            assert(views[j] == files@[j]@);
            assert(views.contains(views[j]));
            assert(views.to_multiset().count(views[j]) > 0);
            assert(sel.to_multiset().count(views[j]) > 0);
            assert(sel.contains(views[j]));
            let k = choose|k: int| 0 <= k < entry_views.len() && entry_views[k].path == views[j];
            assert(entry_views[k] == entries@[k]@);
        }
    }
    Ok(files)
}

/// One immediate child of a listed directory, as the caller's directory
/// read reported it.
pub struct DirEntryInfo {
    /// The entry's bare name.
    pub name: String,
    /// Whether the entry is a directory.
    pub is_dir: bool,
    /// Whether the entry is a symbolic link.
    pub is_symlink: bool,
}

/// The mathematical content of a [`DirEntryInfo`].
pub ghost struct DirEntryInfoView {
    /// The entry's bare name.
    pub name: Seq<char>,
    /// Whether the entry is a directory.
    pub is_dir: bool,
    /// Whether the entry is a symbolic link.
    pub is_symlink: bool,
}

impl View for DirEntryInfo {
    type V = DirEntryInfoView;

    open spec fn view(&self) -> DirEntryInfoView {
        DirEntryInfoView { name: self.name@, is_dir: self.is_dir, is_symlink: self.is_symlink }
    }
}

/// A listed name: directories carry a trailing `/`.
pub open spec fn spec_decorated(e: DirEntryInfoView) -> Seq<char> {
    if e.is_dir {
        e.name + seq!['/']
    } else {
        e.name
    }
}

/// The decorated names of the non-symlink entries, in input order.
pub open spec fn spec_listing(entries: Seq<DirEntryInfoView>) -> Seq<Seq<char>>
    decreases entries.len(),
{
    if entries.len() == 0 {
        Seq::<Seq<char>>::empty()
    } else {
        (if entries[0].is_symlink {
            Seq::<Seq<char>>::empty()
        } else {
            seq![spec_decorated(entries[0])]
        }) + spec_listing(entries.drop_first())
    }
}

/// Turns the immediate children of a directory, as the caller read them,
/// into the listing the engine reports: symlinked entries are skipped,
/// directory names get a trailing `/`, and the names come back sorted.
pub fn list_directory(entries: Vec<DirEntryInfo>) -> (r: Vec<String>)
    ensures
        sorted_by(views_of(r@), lex_leq()),
        views_of(r@).to_multiset() == spec_listing(
            entries@.map_values(|e: DirEntryInfo| e@),
        ).to_multiset(),
{
    broadcast use vstd::multiset::group_multiset_axioms;

    let ghost all = entries@.map_values(|e: DirEntryInfo| e@);
    let mut out: Vec<String> = Vec::new();
    proof {
        assert(all.subrange(0, all.len() as int) =~= all);
        assert(views_of(out@) =~= Seq::<Seq<char>>::empty());
        Seq::<Seq<char>>::empty().to_multiset_ensures();
        assert(views_of(out@).to_multiset() =~= Multiset::<Seq<char>>::empty());
        assert(views_of(out@).to_multiset().add(spec_listing(all).to_multiset())
            =~= spec_listing(all).to_multiset());
    }
    let mut i: usize = 0;
    while i < entries.len()
        invariant
            0 <= i <= all.len(),
            all == entries@.map_values(|e: DirEntryInfo| e@),
            sorted_by(views_of(out@), lex_leq()),
            views_of(out@).to_multiset().add(
                spec_listing(all.subrange(i as int, all.len() as int)).to_multiset(),
            ) == spec_listing(all).to_multiset(),
        decreases all.len() - i,
    {
        let ghost tail = all.subrange(i as int, all.len() as int);
        proof {
            assert(tail.drop_first() =~= all.subrange(i + 1, all.len() as int));
        }
        let e = &entries[i];
        let ghost before = views_of(out@);
        if !e.is_symlink {
            let mut name = e.name.clone();
            if e.is_dir {
                name.append("/");
                proof {
                    reveal_strlit("/");
                    assert(name@ =~= spec_decorated(tail[0]));
                }
            }
            proof {
                assert(name@ == spec_decorated(tail[0]));
                assert(spec_listing(tail) =~= seq![spec_decorated(tail[0])] + spec_listing(
                    tail.drop_first()));
                lemma_multiset_commutative(
                    seq![spec_decorated(tail[0])],
                    spec_listing(tail.drop_first()),
                );
                assert(seq![spec_decorated(tail[0])] =~= Seq::<Seq<char>>::empty().push(
                    spec_decorated(tail[0])));
                Seq::<Seq<char>>::empty().to_multiset_ensures();
                assert(Seq::<Seq<char>>::empty().to_multiset()
                    =~= Multiset::<Seq<char>>::empty());
            }
            insert_sorted(&mut out, name);
            proof {
                assert(views_of(out@).to_multiset() =~= before.to_multiset().insert(
                    spec_decorated(tail[0])));
                assert(views_of(out@).to_multiset().add(
                    spec_listing(all.subrange(i + 1, all.len() as int)).to_multiset(),
                ) =~= spec_listing(all).to_multiset());
            }
        } else {
            proof {
                assert(spec_listing(tail) =~= spec_listing(tail.drop_first()));
            }
        }
        i += 1;
    }
    proof {
        assert(all.subrange(all.len() as int, all.len() as int)
            =~= Seq::<DirEntryInfoView>::empty());
        assert(spec_listing(all.subrange(all.len() as int, all.len() as int))
            =~= Seq::<Seq<char>>::empty());
        Seq::<Seq<char>>::empty().to_multiset_ensures();
        assert(Seq::<Seq<char>>::empty().to_multiset() =~= Multiset::<Seq<char>>::empty());
        assert(views_of(out@).to_multiset() =~= spec_listing(all).to_multiset());
    }
    out
}

} // verus!
