//! The exclusion list: the text of the per-repository exclusion file and the
//! three operations on it.
//!
//! The stored text is a sequence of `\n`-terminated lines. Reading splits the
//! text into lines, strips a trailing carriage return from each terminated
//! line, and keeps every line that is not a comment (a line starting with
//! `#`). Appending renders one new line per entry, each entry first made
//! relative to the repository root when that succeeds. Clearing empties the
//! text. The caller reads the file into [`ExcludeList`] and writes the
//! returned text back out; nothing here touches a disk.

use crate::paths::join_path;
use crate::paths::join_spec;
use std::path::Path;
use vstd::prelude::*;
use vstd::seq_lib::*;

verus! {

/// A comment line: it starts with `#`.
pub open spec fn is_comment(line: Seq<char>) -> bool {
    line.len() > 0 && line[0] == '#'
}

/// A terminated line with a trailing carriage return loses it.
pub open spec fn strip_cr(line: Seq<char>) -> Seq<char> {
    if line.len() > 0 && line[line.len() - 1] == '\r' {
        line.drop_last()
    } else {
        line
    }
}

/// The position of the first newline in `s`, or `s.len()` when it has none.
pub open spec fn first_nl_at(s: Seq<char>) -> nat
    decreases s.len(),
{
    if s.len() == 0 {
        0
    } else if s[0] == '\n' {
        0
    } else {
        1 + first_nl_at(s.skip(1))
    }
}

pub proof fn lemma_first_nl_at(s: Seq<char>)
    ensures
        first_nl_at(s) <= s.len(),
        forall|j: int| 0 <= j < first_nl_at(s) ==> s[j] != '\n',
        first_nl_at(s) < s.len() ==> s[first_nl_at(s) as int] == '\n',
    decreases s.len(),
{
    if s.len() == 0 {
    } else if s[0] == '\n' {
    } else {
        lemma_first_nl_at(s.skip(1));
        assert forall|j: int| 0 <= j < first_nl_at(s) implies s[j] != '\n' by {
            if j >= 1 {
                assert(s.skip(1)[j - 1] == s[j]);
            }
        }
        if first_nl_at(s) < s.len() {
            assert(s.skip(1)[first_nl_at(s) - 1] == s[first_nl_at(s) as int]);
        }
    }
}

pub proof fn lemma_first_nl_at_is(s: Seq<char>, k: int)
    requires
        0 <= k <= s.len(),
        forall|j: int| 0 <= j < k ==> s[j] != '\n',
        k < s.len() ==> s[k] == '\n',
    ensures
        first_nl_at(s) == k,
    decreases s.len(),
{
    if s.len() == 0 {
    } else if s[0] == '\n' {
    } else {
        assert forall|j: int| 0 <= j < k - 1 implies s.skip(1)[j] != '\n' by {
            assert(s.skip(1)[j] == s[j + 1]);
        }
        if k - 1 < s.skip(1).len() {
            assert(s.skip(1)[k - 1] == s[k]);
        }
        lemma_first_nl_at_is(s.skip(1), k - 1);
    }
}

/// The lines of the stored text: the pieces between newlines, each
/// terminated piece with a trailing carriage return stripped, and a final
/// unterminated piece kept as it stands.
pub open spec fn lines_of(content: Seq<char>) -> Seq<Seq<char>>
    decreases content.len(),
{
    if content.len() == 0 {
        Seq::empty()
    } else {
        let i = first_nl_at(content) as int;
        if i < content.len() {
            seq![strip_cr(content.take(i))] + lines_of(content.skip(i + 1))
        } else {
            seq![content]
        }
    }
}

/// The lines that are not comments, in order.
pub open spec fn keep_entries(lines: Seq<Seq<char>>) -> Seq<Seq<char>> {
    lines.filter(|l: Seq<char>| !is_comment(l))
}

/// What reading the exclusion list yields for a given stored text: its
/// lines, the comments dropped.
pub open spec fn entries_of(content: Seq<char>) -> Seq<Seq<char>> {
    keep_entries(lines_of(content))
}

pub proof fn lemma_keep_entries_empty()
    ensures
        keep_entries(Seq::<Seq<char>>::empty()) == Seq::<Seq<char>>::empty(),
{
    reveal_with_fuel(Seq::filter, 2);
}

pub proof fn lemma_keep_entries_add(a: Seq<Seq<char>>, b: Seq<Seq<char>>)
    ensures
        keep_entries(a + b) == keep_entries(a) + keep_entries(b),
{
    broadcast use Seq::filter_distributes_over_add;

}

pub proof fn lemma_keep_entries_singleton(l: Seq<char>)
    ensures
        keep_entries(seq![l]) == if is_comment(l) {
            Seq::<Seq<char>>::empty()
        } else {
            seq![l]
        },
{
    reveal_with_fuel(Seq::filter, 3);
    assert(seq![l].drop_last() =~= Seq::<Seq<char>>::empty());
    if !is_comment(l) {
        assert(keep_entries(seq![l]) =~= seq![l]);
    }
}

/// A single line with no terminator.
pub proof fn lemma_lines_of_unterminated(s: Seq<char>)
    requires
        s.len() > 0,
        forall|j: int| 0 <= j < s.len() ==> s[j] != '\n',
    ensures
        lines_of(s) == seq![s],
{
    lemma_first_nl_at_is(s, s.len() as int);
}

/// A single newline-terminated line.
pub proof fn lemma_lines_of_terminated(s: Seq<char>)
    requires
        forall|j: int| 0 <= j < s.len() ==> s[j] != '\n',
    ensures
        lines_of(s + seq!['\n']) == seq![strip_cr(s)],
{
    let t = s + seq!['\n'];
    assert forall|j: int| 0 <= j < s.len() implies t[j] != '\n' by {
        assert(t[j] == s[j]);
    }
    lemma_first_nl_at_is(t, s.len() as int);
    assert(t.take(s.len() as int) =~= s);
    assert(t.skip(s.len() as int + 1) =~= Seq::<char>::empty());
    assert(seq![strip_cr(s)] + lines_of(t.skip(s.len() as int + 1)) =~= seq![strip_cr(s)]);
}

/// Line splitting passes a boundary at a newline: the lines of a text that
/// ends in a newline, followed by the lines of whatever comes after it.
pub proof fn lemma_lines_of_append(a: Seq<char>, b: Seq<char>)
    requires
        a.len() == 0 || a[a.len() - 1] == '\n',
    ensures
        lines_of(a + b) == lines_of(a) + lines_of(b),
    decreases a.len(),
{
    if a.len() == 0 {
        assert(a + b =~= b);
        assert(lines_of(a) + lines_of(b) =~= lines_of(b));
    } else {
        lemma_first_nl_at(a);
        let i = first_nl_at(a) as int;
        assert(i < a.len());
        let t = a + b;
        assert forall|j: int| 0 <= j < i implies t[j] != '\n' by {
            assert(t[j] == a[j]);
        }
        assert(t[i] == a[i]);
        lemma_first_nl_at_is(t, i);
        assert(t.take(i) =~= a.take(i));
        assert(t.skip(i + 1) =~= a.skip(i + 1) + b);
        if a.skip(i + 1).len() > 0 {
            assert(a.skip(i + 1)[a.len() - i - 2] == a[a.len() - 1]);
        }
        lemma_lines_of_append(a.skip(i + 1), b);
        assert(lines_of(a + b) =~= (seq![strip_cr(a.take(i))] + lines_of(a.skip(i + 1)))
            + lines_of(b));
        assert(lines_of(a) + lines_of(b) =~= (seq![strip_cr(a.take(i))] + lines_of(a.skip(i + 1)))
            + lines_of(b));
    }
}

/// One step of the reading loop: the entries of the text up to and including
/// the line that runs from `p` to `q` are the entries before it, followed by
/// that line if it is kept.
pub proof fn lemma_read_step(content: Seq<char>, p: int, q: int)
    requires
        0 <= p <= q <= content.len(),
        p < q || q < content.len(),
        p == 0 || content[p - 1] == '\n',
        forall|k: int| p <= k < q ==> content[k] != '\n',
        q < content.len() ==> content[q] == '\n',
    ensures
        q < content.len() ==> entries_of(content.take(q + 1)) == entries_of(content.take(p))
            + keep_entries(seq![strip_cr(content.subrange(p, q))]),
        q == content.len() ==> entries_of(content.take(q)) == entries_of(content.take(p))
            + keep_entries(seq![content.subrange(p, q)]),
{
    let prefix = content.take(p);
    let seg = content.subrange(p, q);
    assert forall|j: int| 0 <= j < seg.len() implies seg[j] != '\n' by {
        assert(seg[j] == content[p + j]);
    }
    if p > 0 {
        assert(prefix[p - 1] == content[p - 1]);
    }
    if q < content.len() {
        assert(content.take(q + 1) =~= prefix + (seg + seq!['\n']));
        lemma_lines_of_terminated(seg);
        lemma_lines_of_append(prefix, seg + seq!['\n']);
        lemma_keep_entries_add(lines_of(prefix), seq![strip_cr(seg)]);
    } else {
        assert(content.take(q) =~= prefix + seg);
        lemma_lines_of_unterminated(seg);
        lemma_lines_of_append(prefix, seg);
        lemma_keep_entries_add(lines_of(prefix), seq![seg]);
    }
}

/// The entries stored in the given exclusion-file text: its lines in file
/// order, with lines that start with `#` left out and only the line
/// terminator stripped.
#[verifier::rlimit(50)]
pub fn read_entries(content: &str) -> (r: Vec<String>)
    ensures
        r@.map_values(|s: String| s@) == entries_of(content@),
{
    let n = content.unicode_len();
    let mut out: Vec<String> = Vec::new();
    let mut p: usize = 0;
    proof {
        assert(content@.take(0) =~= Seq::<char>::empty());
        lemma_keep_entries_empty();
        assert(out@.map_values(|s: String| s@) =~= Seq::<Seq<char>>::empty());
    }
    while p < n
        invariant
            p <= n,
            n == content@.len(),
            p == 0 || p == n || content@[p - 1] == '\n',
            out@.map_values(|s: String| s@) == entries_of(content@.take(p as int)),
        decreases n - p,
    {
        let mut q: usize = p;
        while q < n && content.get_char(q) != '\n'
            invariant
                p <= q <= n,
                n == content@.len(),
                forall|k: int| p <= k < q ==> content@[k] != '\n',
            decreases n - q,
        {
            q = q + 1;
        }
        let ghost seg = content@.subrange(p as int, q as int);
        let ghost stored = if q < n {
            strip_cr(seg)
        } else {
            seg
        };
        let end: usize = if q < n && q > p && content.get_char(q - 1) == '\r' {
            q - 1
        } else {
            q
        };
        let line: String = content.substring_char(p, end).to_owned();
        proof {
            assert(seg.len() > 0 ==> seg[seg.len() - 1] == content@[q - 1]);
            if end < q {
                assert(line@ =~= seg.drop_last());
            } else {
                assert(line@ =~= seg);
            }
            assert(line@ == stored);
        }
        let keep = !(line.as_str().unicode_len() > 0 && line.as_str().get_char(0) == '#');
        let ghost old_map = out@.map_values(|s: String| s@);
        if keep {
            out.push(line);
        }
        proof {
            lemma_read_step(content@, p as int, q as int);
            lemma_keep_entries_singleton(stored);
            if keep {
                assert(out@.map_values(|s: String| s@) =~= old_map + seq![stored]);
            } else {
                assert(out@.map_values(|s: String| s@) =~= old_map + Seq::<Seq<char>>::empty());
            }
        }
        p = if q < n {
            q + 1
        } else {
            q
        };
    }
    proof {
        assert(content@.take(n as int) =~= content@);
    }
    out
}

/// The relative path from `base` to `path` that `pathdiff::diff_paths`
/// computes, or `None` where it computes none.
pub uninterp spec fn diff_of(path: Seq<char>, base: Seq<char>) -> Option<Seq<char>>;

/// Relies on pathdiff::diff_paths: a relative path from `base` to `path`,
/// computed from the two paths' components alone.
#[verifier::external_body]
fn diff_paths_str(path: &str, base: &str) -> (r: Option<String>)
    ensures
        r is Some <==> diff_of(path@, base@) is Some,
        r matches Some(s) ==> diff_of(path@, base@) == Some(s@),
{
    pathdiff::diff_paths(Path::new(path), Path::new(base)).map(
        |p: std::path::PathBuf| p.to_string_lossy().into_owned(),
    )
}

/// The line written for one entry: the entry resolved against the working
/// directory `base` and made relative to the repository root, or the entry
/// itself where no relative path is found.
pub open spec fn line_for_entry(root: Seq<char>, base: Seq<char>, entry: Seq<char>) -> Seq<char> {
    match diff_of(join_spec(base, entry), root) {
        Some(rel) => rel,
        None => entry,
    }
}

/// The text appended for the entries from position `i` on: one terminated
/// line per entry, in input order.
pub open spec fn append_text_from(
    root: Seq<char>,
    base: Seq<char>,
    entries: Seq<Seq<char>>,
    i: int,
) -> Seq<char>
    decreases entries.len() - i,
{
    if i < 0 || i >= entries.len() {
        Seq::empty()
    } else {
        line_for_entry(root, base, entries[i]) + seq!['\n'] + append_text_from(
            root,
            base,
            entries,
            i + 1,
        )
    }
}

/// The whole text appended for the given entries.
pub open spec fn append_text(root: Seq<char>, base: Seq<char>, entries: Seq<Seq<char>>) -> Seq<
    char,
> {
    append_text_from(root, base, entries, 0)
}

/// Renders the text to append for the given entries: one line per entry, in
/// input order, each entry made relative to `root` when that succeeds and
/// written as given otherwise.
pub fn render_append_text(root: &str, base: &str, entries: &Vec<String>) -> (r: String)
    ensures
        r@ == append_text(root@, base@, entries@.map_values(|e: String| e@)),
{
    let ghost ents = entries@.map_values(|e: String| e@);
    let mut out = String::new();
    let mut i: usize = 0;
    proof {
        assert(out@ + append_text_from(root@, base@, ents, 0) =~= append_text(root@, base@, ents));
    }
    while i < entries.len()
        invariant
            i <= entries.len(),
            ents == entries@.map_values(|e: String| e@),
            out@ + append_text_from(root@, base@, ents, i as int) == append_text(
                root@,
                base@,
                ents,
            ),
        decreases entries.len() - i,
    {
        let ghost old_out = out@;
        let entry: &String = &entries[i];
        let abs = join_path(base, entry.as_str());
        let line: String = match diff_paths_str(abs.as_str(), root) {
            Some(rel) => rel,
            None => entry.clone(),
        };
        out.append(line.as_str());
        out.append("\n");
        proof {
            reveal_strlit("\n");
            assert(ents[i as int] == entry@);
            assert(line@ == line_for_entry(root@, base@, ents[i as int]));
            assert(out@ =~= old_out + line@ + seq!['\n']);
            assert(out@ + append_text_from(root@, base@, ents, i + 1) =~= old_out
                + append_text_from(root@, base@, ents, i as int));
        }
        i = i + 1;
    }
    proof {
        assert(out@ + append_text_from(root@, base@, ents, i as int) =~= out@);
    }
    out
}

/// The concatenation of the given lines, each with its terminator.
pub open spec fn lines_text(lines: Seq<Seq<char>>) -> Seq<char>
    decreases lines.len(),
{
    if lines.len() == 0 {
        Seq::empty()
    } else {
        lines[0] + seq!['\n'] + lines_text(lines.skip(1))
    }
}

/// A line that reading hands back exactly as it was appended: no comment
/// marker in front, no newline inside, no carriage return at the end.
pub open spec fn is_clean_line(l: Seq<char>) -> bool {
    &&& !is_comment(l)
    &&& (forall|j: int| 0 <= j < l.len() ==> l[j] != '\n')
    &&& (l.len() == 0 || l[l.len() - 1] != '\r')
}

/// The lines rendered for the given entries, in input order.
pub open spec fn rendered_lines(root: Seq<char>, base: Seq<char>, entries: Seq<Seq<char>>) -> Seq<
    Seq<char>,
> {
    entries.map_values(|e: Seq<char>| line_for_entry(root, base, e))
}

/// The appended text is exactly the rendered lines, each terminated.
pub proof fn lemma_append_text_is_lines(
    root: Seq<char>,
    base: Seq<char>,
    entries: Seq<Seq<char>>,
    i: int,
)
    requires
        0 <= i <= entries.len(),
    ensures
        append_text_from(root, base, entries, i) == lines_text(rendered_lines(root, base, entries).skip(i)),
    decreases entries.len() - i,
{
    let lines = rendered_lines(root, base, entries);
    if i == entries.len() {
        assert(lines.skip(i) =~= Seq::<Seq<char>>::empty());
    } else {
        lemma_append_text_is_lines(root, base, entries, i + 1);
        assert(lines.skip(i)[0] == line_for_entry(root, base, entries[i]));
        assert(lines.skip(i).skip(1) =~= lines.skip(i + 1));
    }
}

/// Round trip of append and read: appending clean lines to a text whose
/// lines are all terminated, then reading, yields exactly the old entries
/// with the new lines behind them, in order.
pub proof fn lemma_append_round_trip(content: Seq<char>, lines: Seq<Seq<char>>)
    requires
        content.len() == 0 || content[content.len() - 1] == '\n',
        forall|i: int| 0 <= i < lines.len() ==> is_clean_line(#[trigger] lines[i]),
    ensures
        entries_of(content + lines_text(lines)) == entries_of(content) + lines,
    decreases lines.len(),
{
    if lines.len() == 0 {
        assert(content + lines_text(lines) =~= content);
        assert(entries_of(content) + lines =~= entries_of(content));
    } else {
        let l = lines[0];
        let c2 = content + (l + seq!['\n']);
        lemma_lines_of_terminated(l);
        lemma_lines_of_append(content, l + seq!['\n']);
        lemma_keep_entries_add(lines_of(content), seq![l]);
        lemma_keep_entries_singleton(l);
        assert(entries_of(c2) == entries_of(content) + seq![l]);
        assert(c2[c2.len() - 1] == '\n');
        assert forall|i: int| 0 <= i < lines.skip(1).len() implies is_clean_line(
            #[trigger] lines.skip(1)[i],
        ) by {
            assert(lines.skip(1)[i] == lines[i + 1]);
        }
        lemma_append_round_trip(c2, lines.skip(1));
        assert(content + lines_text(lines) =~= c2 + lines_text(lines.skip(1)));
        assert(entries_of(content) + lines =~= (entries_of(content) + seq![l]) + lines.skip(1));
    }
}

/// Appending entries and then reading yields the old entries with the
/// rendered lines behind them, in input order — whenever every rendered
/// line is itself clean, so that reading hands it back unchanged.
pub proof fn lemma_append_then_read(
    content: Seq<char>,
    root: Seq<char>,
    base: Seq<char>,
    entries: Seq<Seq<char>>,
)
    requires
        content.len() == 0 || content[content.len() - 1] == '\n',
        forall|i: int|
            0 <= i < entries.len() ==> is_clean_line(
                line_for_entry(root, base, #[trigger] entries[i]),
            ),
    ensures
        entries_of(content + append_text(root, base, entries)) == entries_of(content)
            + rendered_lines(root, base, entries),
{
    let lines = rendered_lines(root, base, entries);
    lemma_append_text_is_lines(root, base, entries, 0);
    assert(lines.skip(0) =~= lines);
    assert forall|i: int| 0 <= i < lines.len() implies is_clean_line(#[trigger] lines[i]) by {
        assert(lines[i] == line_for_entry(root, base, entries[i]));
    }
    lemma_append_round_trip(content, lines);
}

/// Reading is a function of the stored text alone: two reads of one
/// unmodified list — or of any two lists holding the same text — yield the
/// same entries.
pub proof fn lemma_read_all_of_text(a: ExcludeList, b: ExcludeList)
    requires
        a@ == b@,
    ensures
        entries_of(a@) == entries_of(b@),
{
}

/// After a clear the stored text is empty, and reading an empty text yields
/// no entries, whatever the list held before.
pub proof fn lemma_clear_then_read_all_empty()
    ensures
        entries_of(Seq::<char>::empty()) == Seq::<Seq<char>>::empty(),
{
    lemma_keep_entries_empty();
}

/// The exclusion list of one repository: the text stored in its exclusion
/// file. The caller reads the file into this type and writes the text, or
/// the returned appended block, back out; the operations themselves never
/// touch a disk.
pub struct ExcludeList {
    content: String,
}

impl View for ExcludeList {
    type V = Seq<char>;

    closed spec fn view(&self) -> Seq<char> {
        self.content@
    }
}

impl ExcludeList {
    /// The list of a fresh exclusion file: no text at all.
    pub fn new() -> (r: Self)
        ensures
            r@ == Seq::<char>::empty(),
    {
        ExcludeList { content: String::new() }
    }

    /// The list holding the given stored text.
    pub fn from_text(content: String) -> (r: Self)
        ensures
            r@ == content@,
    {
        ExcludeList { content }
    }

    /// The stored text, as it stands on disk.
    pub fn text(&self) -> (r: &String)
        ensures
            r@ == self@,
    {
        &self.content
    }

    /// Reads every entry in the list: the stored lines in file order, the
    /// comments dropped. Rereading an unmodified list yields the same
    /// entries again.
    pub fn read_all(&self) -> (r: Vec<String>)
        ensures
            r@.map_values(|s: String| s@) == entries_of(self@),
    {
        read_entries(self.content.as_str())
    }

    /// Appends one line per entry, in input order, each entry resolved
    /// against `base_path` and made relative to `root_dir` when that
    /// succeeds. Nothing already stored is touched: the new text is what
    /// stood there before, the rendered block behind it. Returns the
    /// rendered block, for the caller to append to the file itself.
    pub fn append(&mut self, root_dir: &str, base_path: &str, entries: &Vec<String>) -> (block:
        String)
        ensures
            block@ == append_text(root_dir@, base_path@, entries@.map_values(|e: String| e@)),
            final(self)@ == old(self)@ + block@,
    {
        let block = render_append_text(root_dir, base_path, entries);
        self.content.append(block.as_str());
        block
    }

    /// Discards the whole list: the stored text becomes empty, whatever it
    /// held before.
    pub fn clear(&mut self)
        ensures
            final(self)@ == Seq::<char>::empty(),
    {
        self.content = String::new();
    }
}

} // verus!

