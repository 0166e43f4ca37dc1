//! A textual model of absolute directory paths.
//!
//! A directory path is kept as its plain string form: it starts with `/`,
//! holds no empty component (no `//`), and does not end in `/` unless it is
//! the filesystem root itself. Joining and walking to the parent are defined
//! over that form.

use vstd::prelude::*;

verus! {

/// A well-formed absolute directory path: it starts with `/`, has no empty
/// component, and no trailing `/` except for the root `/` itself.
pub open spec fn is_dir_path(s: Seq<char>) -> bool {
    &&& s.len() >= 1
    &&& s[0] == '/'
    &&& (forall|i: int| #![trigger s[i]] 1 <= i < s.len() ==> !(s[i - 1] == '/' && s[i] == '/'))
    &&& (s.len() == 1 || s[s.len() - 1] != '/')
}

/// Resolving `entry` against the directory `base`: an absolute entry stands
/// alone, anything else is appended to `base` behind a single separator.
pub open spec fn join_spec(base: Seq<char>, entry: Seq<char>) -> Seq<char> {
    if entry.len() > 0 && entry[0] == '/' {
        entry
    } else if base.len() == 0 {
        entry
    } else if base[base.len() - 1] == '/' {
        base + entry
    } else {
        base + seq!['/'] + entry
    }
}

/// Decides whether a string is a well-formed absolute directory path.
pub fn is_normal_dir_path(s: &str) -> (r: bool)
    ensures
        r == is_dir_path(s@),
{
    let n = s.unicode_len();
    if n == 0 {
        return false;
    }
    if s.get_char(0) != '/' {
        return false;
    }
    if n > 1 && s.get_char(n - 1) == '/' {
        return false;
    }
    let mut i: usize = 1;
    while i < n
        invariant
            1 <= i <= n,
            n == s@.len(),
            forall|k: int| #![trigger s@[k]] 1 <= k < i ==> !(s@[k - 1] == '/' && s@[k] == '/'),
        decreases n - i,
    {
        if s.get_char(i) == '/' && s.get_char(i - 1) == '/' {
            return false;
        }
        i = i + 1;
    }
    true
}

/// The index of the last `/` in `s`, or `-1` when `s` has none.
pub open spec fn last_slash_at(s: Seq<char>) -> int
    decreases s.len(),
{
    if s.len() == 0 {
        -1
    } else if s[s.len() - 1] == '/' {
        s.len() - 1
    } else {
        last_slash_at(s.drop_last())
    }
}

pub proof fn lemma_last_slash_at(s: Seq<char>)
    requires
        s.len() >= 1,
        s[0] == '/',
    ensures
        0 <= last_slash_at(s) < s.len(),
        s[last_slash_at(s)] == '/',
        forall|k: int| last_slash_at(s) < k < s.len() ==> s[k] != '/',
    decreases s.len(),
{
    if s[s.len() - 1] == '/' {
    } else {
        lemma_last_slash_at(s.drop_last());
        assert forall|k: int| last_slash_at(s) < k < s.len() implies s[k] != '/' by {
            if k < s.len() - 1 {
                assert(s.drop_last()[k] == s[k]);
            }
        }
        assert(s.drop_last()[last_slash_at(s)] == s[last_slash_at(s)]);
    }
}

pub proof fn lemma_last_slash_at_is(s: Seq<char>, j: int)
    requires
        0 <= j < s.len(),
        s[j] == '/',
        forall|k: int| j < k < s.len() ==> s[k] != '/',
    ensures
        last_slash_at(s) == j,
    decreases s.len(),
{
    if s[s.len() - 1] == '/' {
        assert(j == s.len() - 1);
    } else {
        assert(s.drop_last()[j] == s[j]);
        assert forall|k: int| j < k < s.drop_last().len() implies s.drop_last()[k] != '/' by {
            assert(s.drop_last()[k] == s[k]);
        }
        lemma_last_slash_at_is(s.drop_last(), j);
    }
}

/// The parent directory of a non-root directory path: the path cut at its
/// last separator, or the root when the last separator is the leading one.
pub open spec fn parent_of(s: Seq<char>) -> Seq<char> {
    if last_slash_at(s) <= 0 {
        seq!['/']
    } else {
        s.take(last_slash_at(s))
    }
}

/// Walking to the parent keeps a directory path well formed and strictly
/// shortens it.
pub proof fn lemma_parent_of_dir(s: Seq<char>)
    requires
        is_dir_path(s),
        s.len() > 1,
    ensures
        is_dir_path(parent_of(s)),
        parent_of(s).len() < s.len(),
{
    lemma_last_slash_at(s);
    let j = last_slash_at(s);
    if j <= 0 {
    } else {
        let p = s.take(j);
        assert(p[0] == s[0]);
        assert(p.len() == j < s.len());
        assert forall|i: int| #![trigger p[i]] 1 <= i < p.len() implies !(p[i - 1] == '/' && p[i]
            == '/') by {
            assert(p[i] == s[i] && p[i - 1] == s[i - 1]);
        }
        if p.len() > 1 {
            assert(p[p.len() - 1] == s[j - 1]);
            assert(s[j] == '/');
            assert(!(s[j - 1] == '/' && s[j] == '/'));
        }
    }
}

/// Every ancestor of a directory, the directory itself first, the root last.
pub open spec fn ancestors_of(s: Seq<char>) -> Seq<Seq<char>>
    decreases s.len(),
    when is_dir_path(s)
    via ancestors_of_decreases
{
    if s.len() == 1 {
        seq![s]
    } else {
        seq![s] + ancestors_of(parent_of(s))
    }
}

#[via_fn]
proof fn ancestors_of_decreases(s: Seq<char>) {
    if s.len() != 1 {
        lemma_parent_of_dir(s);
    }
}

/// What `ancestors_of` yields: the start itself first, then each parent in
/// turn, the root last, every element a well-formed directory path.
pub proof fn lemma_ancestors_of(s: Seq<char>)
    requires
        is_dir_path(s),
    ensures
        ancestors_of(s).len() >= 1,
        ancestors_of(s)[0] == s,
        ancestors_of(s).last() == seq!['/'],
        forall|i: int| 0 <= i < ancestors_of(s).len() ==> is_dir_path(#[trigger] ancestors_of(s)[i]),
        forall|i: int|
            0 <= i < ancestors_of(s).len() - 1 ==> (#[trigger] ancestors_of(s)[i]).len() > 1
                && ancestors_of(s)[i + 1] == parent_of(ancestors_of(s)[i]),
    decreases s.len(),
{
    if s.len() == 1 {
        assert(s =~= seq!['/']);
    } else {
        lemma_parent_of_dir(s);
        lemma_ancestors_of(parent_of(s));
        let anc = ancestors_of(s);
        let panc = ancestors_of(parent_of(s));
        assert forall|i: int| 0 <= i < anc.len() - 1 implies (#[trigger] anc[i]).len() > 1 && anc[i
            + 1] == parent_of(anc[i]) by {
            if i > 0 {
                assert(anc[i] == panc[i - 1]);
                assert(anc[i + 1] == panc[i]);
            }
        }
    }
}

/// The parent of a non-root directory path, as `parent_of` says.
pub fn parent_dir(p: &str) -> (r: String)
    requires
        is_dir_path(p@),
        p@.len() > 1,
    ensures
        r@ == parent_of(p@),
        is_dir_path(r@),
        r@.len() < p@.len(),
{
    proof {
        lemma_parent_of_dir(p@);
    }
    let n = p.unicode_len();
    let mut j: usize = n - 1;
    while j > 0 && p.get_char(j) != '/'
        invariant
            0 <= j < n,
            n == p@.len(),
            forall|k: int| j < k < n ==> p@[k] != '/',
        decreases j,
    {
        j = j - 1;
    }
    proof {
        lemma_last_slash_at_is(p@, j as int);
    }
    if j == 0 {
        let r = "/".to_owned();
        proof {
            reveal_strlit("/");
            assert(r@ =~= seq!['/']);
        }
        r
    } else {
        p.substring_char(0, j).to_owned()
    }
}

/// Every ancestor directory of `target`, nearest first: the directory
/// itself, each parent in turn, and the filesystem root last.
pub fn ancestor_dirs(target: &str) -> (r: Vec<String>)
    requires
        is_dir_path(target@),
    ensures
        r@.map_values(|s: String| s@) == ancestors_of(target@),
{
    let mut out: Vec<String> = Vec::new();
    let mut cur: String = target.to_owned();
    out.push(cur.clone());
    proof {
        if target@.len() > 1 {
            lemma_parent_of_dir(target@);
            reveal_with_fuel(ancestors_of, 2);
            assert(out@.map_values(|s: String| s@) + ancestors_of(parent_of(cur@)) =~= ancestors_of(
                target@,
            ));
        }
    }
    while cur.as_str().unicode_len() > 1
        invariant
            is_dir_path(cur@),
            out@.len() >= 1,
            (if cur@.len() == 1 {
                out@.map_values(|s: String| s@) == ancestors_of(target@)
            } else {
                out@.map_values(|s: String| s@) + ancestors_of(parent_of(cur@)) == ancestors_of(
                    target@,
                )
            }),
        decreases cur@.len(),
    {
        proof {
            lemma_parent_of_dir(cur@);
        }
        let ghost old_map = out@.map_values(|s: String| s@);
        cur = parent_dir(cur.as_str());
        out.push(cur.clone());
        proof {
            reveal_with_fuel(ancestors_of, 2);
            assert(out@.map_values(|s: String| s@) =~= old_map + seq![cur@]);
            if cur@.len() == 1 {
                assert(cur@ =~= seq!['/']);
                assert(ancestors_of(cur@) =~= seq![cur@]);
                assert(old_map + ancestors_of(cur@) =~= old_map + seq![cur@]);
            } else {
                lemma_parent_of_dir(cur@);
                assert(ancestors_of(cur@) =~= seq![cur@] + ancestors_of(parent_of(cur@)));
                assert(old_map + ancestors_of(cur@) =~= (old_map + seq![cur@]) + ancestors_of(
                    parent_of(cur@),
                ));
            }
        }
    }
    out
}

/// Resolves `entry` against the directory `base`, as `join_spec` says.
pub fn join_path(base: &str, entry: &str) -> (r: String)
    ensures
        r@ == join_spec(base@, entry@),
{
    if entry.unicode_len() > 0 && entry.get_char(0) == '/' {
        return entry.to_owned();
    }
    if base.unicode_len() == 0 {
        return entry.to_owned();
    }
    let mut r = base.to_owned();
    if base.get_char(base.unicode_len() - 1) != '/' {
        r.append("/");
        proof {
            reveal_strlit("/");
            assert(r@ =~= base@ + seq!['/']);
        }
    }
    r.append(entry);
    proof {
        if base@[base@.len() - 1] != '/' {
            assert(r@ =~= base@ + seq!['/'] + entry@);
        }
    }
    r
}

} // verus!
