//! Locating the enclosing repository.
//!
//! The locator walks upward from a starting directory and stops at the
//! nearest ancestor that holds the repository's metadata directory `.git`.
//! Whether a given ancestor holds one is a fact about the disk, so the
//! caller probes each candidate and hands the answers in; the walk itself,
//! the order of the candidates, and the choice of the nearest hit are
//! verified here.

use crate::paths::ancestors_of;
use crate::paths::is_dir_path;
use crate::paths::join_path;
use crate::paths::join_spec;
use crate::paths::lemma_ancestors_of;
use crate::paths::ancestor_dirs;
use crate::store::append_text;
use crate::store::entries_of;
use crate::store::render_append_text;
use crate::store::read_entries;
use vstd::prelude::*;

verus! {

/// The name of the repository's private metadata directory.
pub open spec fn git_marker() -> Seq<char> {
    ".git"@
}

/// The exclusion file's place inside the metadata directory.
pub open spec fn exclude_rel() -> Seq<char> {
    "info/exclude"@
}

/// A located repository: the root directory of the working copy and its
/// private metadata directory directly inside it.
pub struct GitRepo {
    /// The metadata directory: the root with the marker behind it.
    pub repo_dir: String,
    root_dir: String,
}

impl GitRepo {
    /// A well-formed handle: the root is a well-formed absolute directory
    /// path and the metadata directory sits directly inside it.
    pub closed spec fn wf(&self) -> bool {
        &&& is_dir_path(self.root_dir@)
        &&& self.repo_dir@ == join_spec(self.root_dir@, git_marker())
    }

    /// The root directory of the working copy.
    pub closed spec fn root(&self) -> Seq<char> {
        self.root_dir@
    }

    /// The metadata directory's path.
    pub closed spec fn marker_dir(&self) -> Seq<char> {
        self.repo_dir@
    }

    /// The root directory of the working copy.
    pub fn root_dir(&self) -> (r: &String)
        ensures
            r@ == self.root(),
    {
        &self.root_dir
    }

    /// Where the exclusion file lives: `info/exclude` inside the metadata
    /// directory.
    pub fn exclude_file_path(&self) -> (r: String)
        ensures
            r@ == join_spec(self.marker_dir(), exclude_rel()),
    {
        join_path(self.repo_dir.as_str(), "info/exclude")
    }

    /// The entries of this repository's exclusion list, read from the given
    /// stored text: the lines in file order, the comments dropped.
    pub fn exclude_list(&self, content: &str) -> (r: Vec<String>)
        ensures
            r@.map_values(|s: String| s@) == entries_of(content@),
    {
        read_entries(content)
    }

    /// The text to append to this repository's exclusion list for the given
    /// entries: one line per entry, in input order, each entry resolved
    /// against `base_path` and made relative to the root when that
    /// succeeds.
    pub fn append_to_exclude_list(&self, base_path: &str, entries: &Vec<String>) -> (block: String)
        ensures
            block@ == append_text(self.root(), base_path@, entries@.map_values(|e: String| e@)),
    {
        render_append_text(self.root_dir.as_str(), base_path, entries)
    }
}

/// The position of the first `true` in `s`, or `s.len()` when every probe
/// came back `false`.
pub open spec fn first_hit(s: Seq<bool>) -> nat
    decreases s.len(),
{
    if s.len() == 0 {
        0
    } else if s[0] {
        0
    } else {
        1 + first_hit(s.skip(1))
    }
}

/// The locator never settles for a distant ancestor: every candidate
/// before the first hit is unmarked, and the first hit itself is marked.
pub proof fn lemma_first_hit(s: Seq<bool>)
    ensures
        first_hit(s) <= s.len(),
        forall|j: int| 0 <= j < first_hit(s) ==> !s[j],
        first_hit(s) < s.len() ==> s[first_hit(s) as int],
    decreases s.len(),
{
    if s.len() == 0 {
    } else if s[0] {
    } else {
        lemma_first_hit(s.skip(1));
        assert forall|j: int| 0 <= j < first_hit(s) implies !s[j] by {
            if j >= 1 {
                assert(s.skip(1)[j - 1] == s[j]);
            }
        }
        if first_hit(s) < s.len() {
            assert(s.skip(1)[first_hit(s) - 1] == s[first_hit(s) as int]);
        }
    }
}

/// The locator reports no repository exactly when no ancestor is marked.
pub proof fn lemma_no_hit(s: Seq<bool>)
    ensures
        first_hit(s) == s.len() <==> (forall|j: int| 0 <= j < s.len() ==> !s[j]),
    decreases s.len(),
{
    lemma_first_hit(s);
    if forall|j: int| 0 <= j < s.len() ==> !s[j] {
        if first_hit(s) < s.len() {
            assert(s[first_hit(s) as int]);
        }
    }
}

pub proof fn lemma_first_hit_is(s: Seq<bool>, k: int)
    requires
        0 <= k <= s.len(),
        forall|j: int| 0 <= j < k ==> !s[j],
        k < s.len() ==> s[k],
    ensures
        first_hit(s) == k,
    decreases s.len(),
{
    if s.len() == 0 {
    } else if s[0] {
    } else {
        assert forall|j: int| 0 <= j < k - 1 implies !s.skip(1)[j] by {
            assert(s.skip(1)[j] == s[j + 1]);
        }
        if k - 1 < s.skip(1).len() {
            assert(s.skip(1)[k - 1] == s[k]);
        }
        lemma_first_hit_is(s.skip(1), k - 1);
    }
}

/// Finds the repository enclosing `target_dir`, given one probe per
/// ancestor — nearest first, as `ancestors_of` orders them — saying whether
/// that ancestor holds the metadata directory. Returns a handle rooted at
/// the nearest marked ancestor, or `None` when every probe came back
/// `false`. Nothing is created or changed: the walk only reads its inputs.
pub fn find_repo(target_dir: &str, git_present: &Vec<bool>) -> (r: Option<GitRepo>)
    requires
        is_dir_path(target_dir@),
        git_present@.len() == ancestors_of(target_dir@).len(),
    ensures
        r is Some <==> first_hit(git_present@) < git_present@.len(),
        r matches Some(repo) ==> repo.wf() && repo.root() == ancestors_of(target_dir@)[first_hit(
            git_present@,
        ) as int] && repo.marker_dir() == join_spec(repo.root(), git_marker()),
{
    let ancestors = ancestor_dirs(target_dir);
    proof {
        lemma_ancestors_of(target_dir@);
    }
    let mut k: usize = 0;
    while k < git_present.len()
        invariant
            k <= git_present@.len(),
            git_present@.len() == ancestors@.len(),
            ancestors@.map_values(|s: String| s@) == ancestors_of(target_dir@),
            is_dir_path(target_dir@),
            forall|j: int| 0 <= j < k ==> !git_present@[j],
        decreases git_present@.len() - k,
    {
        if git_present[k] {
            proof {
                lemma_first_hit_is(git_present@, k as int);
                lemma_ancestors_of(target_dir@);
                assert(ancestors@[k as int]@ == ancestors_of(target_dir@)[k as int]);
            }
            let root: String = ancestors[k].clone();
            let marker: String = join_path(root.as_str(), ".git");
            return Some(GitRepo { repo_dir: marker, root_dir: root });
        }
        k = k + 1;
    }
    proof {
        lemma_first_hit_is(git_present@, git_present@.len() as int);
    }
    None
}

} // verus!
