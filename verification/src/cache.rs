//! Dropping cached pages: which files, and how many.
use crate::paths::{join_path, joined, path_segments, segment_list};
use crate::text::{
    ends_with, find_char, has_prefix, has_suffix, index_of, law_prefixes, lemma_index_behind, same,
    starts_with, texts, without_prefix,
};
use vstd::prelude::*;

verus! {

/// How deep trees are walked.
pub const MAX_DEPTH: usize = 8;

/// How many files are advised in one go, over all patterns.
pub const MAX_FILES: usize = 50_000;

/// What dropping cached pages under one pattern came to.
#[derive(Debug)]
pub struct CacheDropResult {
    pub pattern: String,
    pub files_advised: usize,
    pub bytes_advised: u64,
}

/// A path with its leading tilde replaced by the home directory.
pub open spec fn tilde_expanded(pattern: Seq<char>, home: Seq<char>) -> Seq<char> {
    if starts_with(pattern, "~/"@) {
        joined(home, pattern.skip(2))
    } else if pattern == "~"@ {
        home
    } else {
        pattern
    }
}

/// Replaces a leading tilde by the home directory.
pub fn expand_tilde(pattern: &str, home: &str) -> (r: String)
    ensures
        r@ == tilde_expanded(pattern@, home@),
{
    proof {
        reveal_strlit("~/");
    }
    match without_prefix(pattern, "~/") {
        Some(rest) => join_path(home, rest.as_str()),
        None => if same(pattern, "~") {
            home.to_owned()
        } else {
            pattern.to_owned()
        },
    }
}

/// Whether a name matches one segment of a pattern: its first star stands for
/// any run of characters, also none; without a star the two are equal.
pub open spec fn matches_segment(pattern: Seq<char>, name: Seq<char>) -> bool {
    let star = index_of(pattern, '*') as int;
    if star >= pattern.len() {
        pattern == name
    } else {
        let prefix = pattern.take(star);
        let suffix = pattern.skip(star + 1);
        prefix.len() + suffix.len() <= name.len() && starts_with(name, prefix) && ends_with(
            name,
            suffix,
        )
    }
}

/// Whether a name matches one segment of a pattern.
pub fn segment_matches(pattern: &str, name: &str) -> (r: bool)
    ensures
        r == matches_segment(pattern@, name@),
{
    let star = find_char(pattern, '*');
    let n = pattern.unicode_len();
    if star >= n {
        return same(pattern, name);
    }
    assert(pattern@.subrange(0, star as int) =~= pattern@.take(star as int));
    assert(pattern@.subrange(star + 1, n as int) =~= pattern@.skip(star + 1));
    let prefix = pattern.substring_char(0, star);
    let suffix = pattern.substring_char(star + 1, n);
    (n - 1) <= name.unicode_len() && has_prefix(name, prefix) && has_suffix(name, suffix)
}

/// A name matches a segment with a star exactly where the star can be replaced
/// by some run of characters that gives the name.
pub proof fn law_star_stands_for_any_run(pattern: Seq<char>, name: Seq<char>)
    requires
        index_of(pattern, '*') < pattern.len(),
    ensures
        matches_segment(pattern, name) <==> exists|run: Seq<char>|
            name == #[trigger] (pattern.take(index_of(pattern, '*') as int) + run) + pattern.skip(
                index_of(pattern, '*') as int + 1,
            ),
{
    let star = index_of(pattern, '*') as int;
    let prefix = pattern.take(star);
    let suffix = pattern.skip(star + 1);
    if matches_segment(pattern, name) {
        let run = name.subrange(prefix.len() as int, name.len() - suffix.len());
        assert forall|i: int| 0 <= i < prefix.len() implies name[i] == prefix[i] by {
            assert(name.take(prefix.len() as int)[i] == name[i]);
        }
        assert forall|i: int| 0 <= i < suffix.len() implies name[name.len() - suffix.len() + i]
            == suffix[i] by {
            assert(name.skip(name.len() - suffix.len())[i] == name[name.len() - suffix.len() + i]);
        }
        assert(name =~= (prefix + run) + suffix);
    }
    if exists|run: Seq<char>| name == #[trigger] (prefix + run) + suffix {
        let run = choose|run: Seq<char>| name == #[trigger] (prefix + run) + suffix;
        assert(name.take(prefix.len() as int) =~= prefix);
        assert(name.skip(name.len() - suffix.len()) =~= suffix);
    }
}

/// The segments of a pattern, with its tilde expanded. They are resolved from
/// the root on.
pub fn pattern_segments(pattern: &str, home: &str) -> (r: Vec<String>)
    ensures
        texts(r@) == path_segments(tilde_expanded(pattern@, home@)),
{
    segment_list(expand_tilde(pattern, home).as_str())
}

/// The entries that match a segment, as paths below `base`.
pub open spec fn matching_paths(
    base: Seq<char>,
    segment: Seq<char>,
    entries: Seq<String>,
) -> Seq<Seq<char>>
    decreases entries.len(),
{
    if entries.len() == 0 {
        Seq::empty()
    } else {
        let rest = matching_paths(base, segment, entries.drop_last());
        if matches_segment(segment, entries.last()@) {
            rest.push(joined(base, entries.last()@))
        } else {
            rest
        }
    }
}

/// The paths that one segment leads to from `base`: for a segment with a star
/// the entries that match, else the path itself where it exists. `entries` are
/// the names in `base`.
pub fn expand_path(base: &str, segment: &str, entries: &Vec<String>, exists_below: bool) -> (r: Vec<
    String,
>)
    ensures
        texts(r@) == if segment@.contains('*') {
            matching_paths(base@, segment@, entries@)
        } else if exists_below {
            seq![joined(base@, segment@)]
        } else {
            Seq::empty()
        },
{
    let mut out: Vec<String> = Vec::new();
    assert(texts(out@) =~= Seq::<Seq<char>>::empty());
    let star = find_char(segment, '*');
    proof {
        lemma_index_contains(segment@, '*');
    }
    if star < segment.unicode_len() {
        let mut i: usize = 0;
        assert(entries@.take(0) =~= Seq::<String>::empty());
        while i < entries.len()
            invariant
                i <= entries.len(),
                texts(out@) == matching_paths(base@, segment@, entries@.take(i as int)),
            decreases entries.len() - i,
        {
            assert(entries@.take(i as int + 1).drop_last() =~= entries@.take(i as int));
            let ghost done = out@;
            if segment_matches(segment, entries[i].as_str()) {
                let p = join_path(base, entries[i].as_str());
                out.push(p);
                assert(texts(out@) =~= texts(done).push(p@));
            }
            i = i + 1;
        }
        assert(entries@.take(i as int) =~= entries@);
    } else if exists_below {
        let p = join_path(base, segment);
        out.push(p);
        assert(texts(out@) =~= seq![p@]);
    }
    out
}

proof fn lemma_index_contains(s: Seq<char>, c: char)
    ensures
        index_of(s, c) <= s.len(),
        s.contains(c) <==> index_of(s, c) < s.len(),
    decreases s.len(),
{
    if s.len() > 0 {
        lemma_index_contains(s.drop_first(), c);
        if s[0] == c {
            assert(s.contains(c));
        } else {
            if s.contains(c) {
                let i = choose|i: int| 0 <= i < s.len() && s[i] == c;
                assert(s.drop_first()[i - 1] == c);
            }
            if s.drop_first().contains(c) {
                let i = choose|i: int| 0 <= i < s.drop_first().len() && s.drop_first()[i] == c;
                assert(s[i + 1] == c);
            }
        }
    }
}

/// What a path leads to.
#[derive(Debug, Clone, Copy, PartialEq, Eq, Structural)]
pub enum NodeKind {
    /// Nothing, or something that cannot be looked at.
    Missing,
    Symlink,
    File,
    Directory,
    Other,
}

/// What is done at a path.
#[derive(Debug, Clone, Copy, PartialEq, Eq, Structural)]
pub enum Visit {
    Skip,
    /// Advise the kernel to drop the file's pages.
    Advise,
    /// Go on with what the directory holds.
    Descend,
}

/// What is done at a path of this depth, with this many files left in the
/// budget. Links are not followed: they may lead out of the tree.
pub fn visit(kind: NodeKind, depth: usize, budget: usize) -> (r: Visit)
    ensures
        r == if depth > MAX_DEPTH || budget == 0 {
            Visit::Skip
        } else {
            match kind {
                NodeKind::File => Visit::Advise,
                NodeKind::Directory => Visit::Descend,
                _ => Visit::Skip,
            }
        },
{
    if depth > MAX_DEPTH || budget == 0 {
        return Visit::Skip;
    }
    match kind {
        NodeKind::File => Visit::Advise,
        NodeKind::Directory => Visit::Descend,
        _ => Visit::Skip,
    }
}

/// Files and bytes that were advised, and the files left in the budget.
#[derive(Debug, Clone, Copy, PartialEq, Eq, Structural)]
pub struct DropTally {
    pub files: usize,
    pub bytes: u64,
    pub budget: usize,
}

impl DropTally {
    /// Every advised file was taken from the budget.
    pub open spec fn wf(self) -> bool {
        self.files + self.budget <= MAX_FILES
    }

    /// A full budget.
    pub fn new() -> (r: DropTally)
        ensures
            r == (DropTally { files: 0, bytes: 0, budget: MAX_FILES }),
            r.wf(),
    {
        DropTally { files: 0, bytes: 0, budget: MAX_FILES }
    }

    /// Starts counting for the next pattern, with what is left of the budget.
    pub fn next_pattern(&mut self)
        requires
            old(self).wf(),
        ensures
            *final(self) == (DropTally { files: 0, bytes: 0, budget: old(self).budget }),
            final(self).wf(),
    {
        self.files = 0;
        self.bytes = 0;
    }

    /// Takes in what became of advising a file: its size where it worked. Bytes
    /// are held at the largest `u64`.
    pub fn advised(&mut self, size: Option<u64>)
        requires
            old(self).wf(),
            old(self).budget > 0,
        ensures
            final(self).wf(),
            *final(self) == match size {
                Some(n) => DropTally {
                    files: (old(self).files + 1) as usize,
                    bytes: crate::fixed::clip((old(self).bytes + n) as nat) as u64,
                    budget: (old(self).budget - 1) as usize,
                },
                None => *old(self),
            },
    {
        if let Some(n) = size {
            self.files = self.files + 1;
            self.bytes = self.bytes.saturating_add(n);
            self.budget = self.budget - 1;
        }
    }

    /// The result for a pattern.
    pub fn drop_caches(&self, pattern: &str) -> (r: CacheDropResult)
        ensures
            r.pattern@ == pattern@,
            r.files_advised == self.files,
            r.bytes_advised == self.bytes,
    {
        CacheDropResult {
            pattern: pattern.to_owned(),
            files_advised: self.files,
            bytes_advised: self.bytes,
        }
    }
}

/// A tilde stands for the home directory, alone or before a slash, and for itself
/// anywhere else.
pub proof fn law_tildes(rest: Seq<char>, home: Seq<char>, pattern: Seq<char>)
    ensures
        tilde_expanded("~/"@ + rest, home) == joined(home, rest),
        tilde_expanded("~"@, home) == home,
        pattern.len() == 0 || pattern[0] != '~' ==> tilde_expanded(pattern, home) == pattern,
{
    reveal_strlit("~/");
    reveal_strlit("~");
    law_prefixes(rest, "~/"@);
    law_prefixes(pattern, "~/"@);
    assert(("~/"@ + rest).skip(2) =~= rest);
    if starts_with(pattern, "~/"@) {
        assert(pattern.take(2)[0] == "~/"@[0]);
    }
}

/// A part of a pattern without a star is the name it stands for.
pub proof fn law_plain_parts(pattern: Seq<char>, name: Seq<char>)
    requires
        !pattern.contains('*'),
    ensures
        matches_segment(pattern, name) <==> pattern == name,
{
    let e = Seq::<char>::empty();
    lemma_index_behind(pattern, e, '*');
    assert(pattern + e =~= pattern);
}

/// A star in a pattern matches any run of characters between what stands before and
/// behind it.
pub proof fn law_stars_in_parts(before: Seq<char>, run: Seq<char>, behind: Seq<char>)
    requires
        !before.contains('*'),
    ensures
        matches_segment(before + seq!['*'] + behind, (before + run) + behind),
{
    let p = before + seq!['*'] + behind;
    let tail = seq!['*'] + behind;
    assert(p =~= before + tail);
    lemma_index_behind(before, tail, '*');
    assert(index_of(tail, '*') == 0);
    assert(p.take(before.len() as int) =~= before);
    assert(p.skip(before.len() as int + 1) =~= behind);
    law_star_stands_for_any_run(p, (before + run) + behind);
}

/// The paths that a pattern stands for are those of the entries that it matches, in
/// their order.
pub proof fn law_paths_that_match(base: Seq<char>, segment: Seq<char>, entries: Seq<String>)
    ensures
        matching_paths(base, segment, entries) == entries.filter(
            |e: String| matches_segment(segment, e@),
        ).map_values(|e: String| joined(base, e@)),
        MAX_DEPTH == 8,
        MAX_FILES == 50_000,
    decreases entries.len(),
{
    reveal(Seq::filter);
    let pred = |e: String| matches_segment(segment, e@);
    let f = |e: String| joined(base, e@);
    if entries.len() > 0 {
        let init = entries.drop_last();
        law_paths_that_match(base, segment, init);
        assert(init.filter(pred).push(entries.last()).map_values(f) =~= init.filter(
            pred,
        ).map_values(f).push(f(entries.last())));
    }
    assert(matching_paths(base, segment, entries) =~= entries.filter(pred).map_values(f));
}

/// Nothing is looked at below the eighth level of directories, or once the budget
/// is used up. Above, files are advised upon and directories gone into, and
/// anything else is passed over.
pub proof fn law_how_deep_caches_are_dropped(
    kind: NodeKind,
    depth: usize,
    budget: usize,
    r: Visit,
)
    requires
        call_ensures(visit, (kind, depth, budget), r),
    ensures
        r == Visit::Advise <==> depth <= 8 && budget > 0 && kind == NodeKind::File,
        r == Visit::Descend <==> depth <= 8 && budget > 0 && kind == NodeKind::Directory,
{
}

/// Each file counts against the budget, with its size.
pub proof fn law_files_are_counted(before: DropTally, after: DropTally, size: Option<u64>)
    requires
        before.wf(),
        before.budget > 0,
        exists|m: &mut DropTally|
            #[trigger] call_ensures(DropTally::advised, (m, size), ()) && *m == before && *final(m)
                == after,
    ensures
        size is None ==> after == before,
        size matches Some(n) && before.bytes + n <= u64::MAX ==> after.files == before.files + 1
            && after.bytes == before.bytes + size->0 && after.budget == before.budget - 1,
{
}

} // verus!
