//! Command history: a de-duplicated, size-capped list of commands with
//! fuzzy search (nucleo-matcher) over it.
//!
//! The history file itself (`history.json`) is read and written by the
//! caller; the store merges what was loaded and reports when it must be
//! written back.

use vstd::prelude::*;
use std::path::PathBuf;
use crate::osc::string_views;
use crate::text::{lemma_trim_idempotent, trim_seq, trim_string};
use nucleo_matcher::pattern::{AtomKind, CaseMatching, Normalization, Pattern};
use nucleo_matcher::{Config, Matcher, Utf32Str};

verus! {

/// The most commands the history keeps after an `add`.
pub const MAX_HISTORY: usize = 5000;

#[verifier::external_type_specification]
#[verifier::external_body]
pub struct ExPathBuf(PathBuf);

/// Single fuzzy match with score and highlighted character indices.
#[derive(Debug)]
pub struct FuzzyResult {
    pub command: String,
    pub score: u32,
    pub indices: Vec<u32>,
}

/// `s` with every element equal to `c` removed, order kept.
pub open spec fn remove_all(s: Seq<Seq<char>>, c: Seq<char>) -> Seq<Seq<char>>
    decreases s.len(),
{
    if s.len() == 0 {
        Seq::empty()
    } else if s.last() == c {
        remove_all(s.drop_last(), c)
    } else {
        remove_all(s.drop_last(), c).push(s.last())
    }
}

/// The history after adding `command`: the trimmed command moves to the end
/// (removing an earlier copy), and only the newest `MAX_HISTORY` entries are
/// kept.  A command that is empty after trimming changes nothing.
pub open spec fn history_after_add(h: Seq<Seq<char>>, command: Seq<char>) -> Seq<Seq<char>> {
    let c = trim_seq(command);
    if c.len() == 0 {
        h
    } else {
        let g = remove_all(h, c).push(c);
        if g.len() > MAX_HISTORY {
            g.skip(g.len() - MAX_HISTORY)
        } else {
            g
        }
    }
}

/// The history after merging loaded commands: each loaded command that is not
/// already present is appended, in order.
pub open spec fn history_after_merge(h: Seq<Seq<char>>, loaded: Seq<Seq<char>>) -> Seq<Seq<char>>
    decreases loaded.len(),
{
    if loaded.len() == 0 {
        h
    } else {
        let m = history_after_merge(h, loaded.drop_last());
        if m.contains(loaded.last()) {
            m
        } else {
            m.push(loaded.last())
        }
    }
}

pub proof fn lemma_remove_all(s: Seq<Seq<char>>, c: Seq<char>)
    ensures
        !remove_all(s, c).contains(c),
        forall|x: Seq<char>| remove_all(s, c).contains(x) <==> (s.contains(x) && x != c),
        s.no_duplicates() ==> remove_all(s, c).no_duplicates(),
        !s.contains(c) ==> remove_all(s, c) == s,
    decreases s.len(),
{
    if s.len() > 0 {
        let r = remove_all(s.drop_last(), c);
        lemma_remove_all(s.drop_last(), c);
        assert forall|x: Seq<char>| s.contains(x) <==> (s.drop_last().contains(x) || x == s.last()) by {
            if s.contains(x) {
                let i = choose|i: int| 0 <= i < s.len() && s[i] == x;
                if i < s.len() - 1 {
                    assert(s.drop_last()[i] == x);
                }
            }
            if s.drop_last().contains(x) {
                let i = choose|i: int| 0 <= i < s.drop_last().len() && s.drop_last()[i] == x;
                assert(s[i] == x);
            }
            if x == s.last() {
                assert(s[s.len() - 1] == x);
            }
        }
        if s.last() != c {
            assert forall|x: Seq<char>| r.push(s.last()).contains(x) <==> (r.contains(x) || x
                == s.last()) by {
                if r.push(s.last()).contains(x) {
                    let i = choose|i: int| 0 <= i < r.push(s.last()).len() && r.push(s.last())[i]
                        == x;
                    if i < r.len() {
                        assert(r[i] == x);
                    }
                }
                if r.contains(x) {
                    let i = choose|i: int| 0 <= i < r.len() && r[i] == x;
                    assert(r.push(s.last())[i] == x);
                }
                if x == s.last() {
                    assert(r.push(s.last())[r.len() as int] == x);
                }
            }
            if s.no_duplicates() {
                assert(!s.drop_last().contains(s.last())) by {
                    if s.drop_last().contains(s.last()) {
                        let i = choose|i: int|
                            0 <= i < s.drop_last().len() && s.drop_last()[i] == s.last();
                        assert(s[i] == s[s.len() - 1]);
                    }
                }
                assert(s.drop_last().no_duplicates());
                assert(!r.contains(s.last()));
                assert forall|i: int, j: int|
                    0 <= i < r.push(s.last()).len() && 0 <= j < r.push(s.last()).len() && i
                        != j implies r.push(s.last())[i] != r.push(s.last())[j] by {
                    if i == r.len() {
                        assert(r.contains(r[j]));
                    } else if j == r.len() {
                        assert(r.contains(r[i]));
                    }
                }
            }
            if !s.contains(c) {
                assert(!s.drop_last().contains(c));
                assert(s.drop_last().push(s.last()) =~= s);
            }
        } else {
            if s.no_duplicates() {
                assert(s.drop_last().no_duplicates());
            }
            assert(s.contains(c)) by {
                assert(s[s.len() - 1] == c);
            }
        }
    } else {
        assert(remove_all(s, c) =~= s);
    }
}

/// A store of distinct commands, a dirty flag and the file it persists to.
pub struct CommandHistoryStore {
    commands: Vec<String>,
    dirty: bool,
    history_path: Option<PathBuf>,
}

impl CommandHistoryStore {
    /// The commands, oldest first.
    pub closed spec fn history(&self) -> Seq<Seq<char>> {
        string_views(self.commands@)
    }

    /// Whether the history changed since it was last saved.
    pub closed spec fn is_dirty(&self) -> bool {
        self.dirty
    }

    /// The file the history persists to, once set.
    pub closed spec fn path(&self) -> Option<PathBuf> {
        self.history_path
    }

    /// Whether a history file has been set.
    pub open spec fn has_path(&self) -> bool {
        self.path() is Some
    }

    /// The store's invariant: no command occurs twice.
    pub closed spec fn wf(&self) -> bool {
        self.history().no_duplicates()
    }

    /// Creates an empty store; call `set_history_path` before `load`.
    pub fn new() -> (res: Self)
        ensures
            res.wf(),
            res.history() == Seq::<Seq<char>>::empty(),
            !res.is_dirty(),
            !res.has_path(),
    {
        let res = Self { commands: Vec::new(), dirty: false, history_path: None };
        assert(res.history() =~= Seq::<Seq<char>>::empty());
        res
    }

    /// Sets the JSON path for load/save; required before `load` or `save`.
    pub fn set_history_path(&mut self, path: PathBuf)
        ensures
            final(self).history() == old(self).history(),
            final(self).is_dirty() == old(self).is_dirty(),
            final(self).wf() == old(self).wf(),
            final(self).path() == Some(path),
    {
        self.history_path = Some(path);
    }

    /// The file the history persists to.
    pub fn history_path(&self) -> (res: Option<&PathBuf>)
        ensures
            match self.path() {
                Some(p) => res == Some(&p),
                None => res is None,
            },
    {
        match &self.history_path {
            Some(p) => Some(p),
            None => None,
        }
    }

    /// The commands, oldest first (what `save` writes).
    pub fn commands(&self) -> (res: &Vec<String>)
        ensures
            string_views(res@) == self.history(),
    {
        &self.commands
    }

    /// Whether `save` has something to write: the history changed and a file is set.
    pub fn needs_save(&self) -> (res: bool)
        ensures
            res == (self.is_dirty() && self.has_path()),
    {
        self.dirty && self.history_path.is_some()
    }

    /// Records that the history was written to its file.
    pub fn mark_saved(&mut self)
        ensures
            final(self).history() == old(self).history(),
            final(self).wf() == old(self).wf(),
            final(self).path() == old(self).path(),
            !final(self).is_dirty(),
    {
        self.dirty = false;
    }

    /// Whether `command` is in the history.
    fn contains_command(&self, command: &String) -> (res: bool)
        ensures
            res == self.history().contains(command@),
    {
        let mut i: usize = 0;
        while i < self.commands.len()
            invariant
                i <= self.commands.len(),
                forall|j: int| 0 <= j < i ==> self.commands@[j]@ != command@,
            decreases self.commands.len() - i,
        {
            if self.commands[i].eq(command) {
                assert(self.history()[i as int] == command@);
                return true;
            }
            i = i + 1;
        }
        assert forall|j: int| 0 <= j < self.history().len() implies self.history()[j] != command@ by {
            assert(self.history()[j] == self.commands@[j]@);
        }
        false
    }

    /// Merges commands loaded from the history file: each one that is not
    /// already present is appended, in order.
    pub fn merge_loaded(&mut self, loaded: Vec<String>)
        requires
            old(self).wf(),
        ensures
            final(self).wf(),
            final(self).history() == history_after_merge(old(self).history(), string_views(loaded@)),
            final(self).is_dirty() == old(self).is_dirty(),
            final(self).path() == old(self).path(),
    {
        let ghost h0 = self.history();
        let mut i: usize = 0;
        while i < loaded.len()
            invariant
                i <= loaded.len(),
                self.wf(),
                self.history() == history_after_merge(h0, string_views(loaded@.take(i as int))),
                self.dirty == old(self).dirty,
                self.history_path == old(self).history_path,
            decreases loaded.len() - i,
        {
            let cmd = loaded[i].clone();
            let ghost before = self.history();
            let present = self.contains_command(&cmd);
            proof {
                let t = string_views(loaded@.take(i + 1));
                assert(t.drop_last() =~= string_views(loaded@.take(i as int)));
                assert(t.last() == cmd@);
            }
            if !present {
                self.commands.push(cmd);
                proof {
                    assert(self.history() =~= before.push(cmd@));
                    assert forall|a: int, b: int|
                        0 <= a < self.history().len() && 0 <= b < self.history().len() && a
                            != b implies self.history()[a] != self.history()[b] by {
                        if a == before.len() {
                            assert(before.contains(before[b]));
                        } else if b == before.len() {
                            assert(before.contains(before[a]));
                        }
                    }
                }
            }
            i = i + 1;
        }
        assert(loaded@.take(loaded@.len() as int) =~= loaded@);
    }

    /// Adds a command; moves duplicates to end and trims to MAX_HISTORY.
    pub fn add(&mut self, command: String)
        requires
            old(self).wf(),
        ensures
            final(self).wf(),
            final(self).history() == history_after_add(old(self).history(), command@),
            final(self).is_dirty() == (old(self).is_dirty() || trim_seq(command@).len() > 0),
            final(self).path() == old(self).path(),
    {
        let command = trim_string(command.as_str());
        if command.as_str().is_empty() {
            return;
        }
        let ghost h = self.history();
        let ghost c = command@;
        let mut kept: Vec<String> = Vec::new();
        let mut i: usize = 0;
        while i < self.commands.len()
            invariant
                i <= self.commands.len(),
                h == string_views(self.commands@),
                c == command@,
                string_views(kept@) == remove_all(h.take(i as int), c),
            decreases self.commands.len() - i,
        {
            let ghost k0 = string_views(kept@);
            if !self.commands[i].eq(&command) {
                kept.push(self.commands[i].clone());
                assert(string_views(kept@) =~= k0.push(h[i as int]));
            }
            proof {
                assert(h.take(i + 1).drop_last() =~= h.take(i as int));
                assert(h.take(i + 1).last() == h[i as int]);
            }
            i = i + 1;
        }
        assert(h.take(h.len() as int) =~= h);
        let ghost k1 = string_views(kept@);
        kept.push(command);
        assert(string_views(kept@) =~= k1.push(c));
        proof {
            lemma_remove_all(h, c);
            let g = k1.push(c);
            assert forall|a: int, b: int| 0 <= a < g.len() && 0 <= b < g.len() && a != b implies g[a]
                != g[b] by {
                if a == k1.len() {
                    assert(k1.contains(k1[b]));
                } else if b == k1.len() {
                    assert(k1.contains(k1[a]));
                }
            }
        }
        if kept.len() > MAX_HISTORY {
            let drop = kept.len() - MAX_HISTORY;
            let mut newest: Vec<String> = Vec::new();
            let mut j = drop;
            let ghost g = string_views(kept@);
            while j < kept.len()
                invariant
                    drop <= j <= kept.len(),
                    g == string_views(kept@),
                    string_views(newest@) == g.subrange(drop as int, j as int),
                decreases kept.len() - j,
            {
                let ghost n0 = string_views(newest@);
                let item = kept[j].clone();
                assert(g[j as int] == item@);
                newest.push(item);
                assert(string_views(newest@) =~= n0.push(item@));
                assert(g.subrange(drop as int, j + 1) =~= g.subrange(drop as int, j as int).push(
                    g[j as int],
                ));
                j = j + 1;
            }
            assert(g.subrange(drop as int, g.len() as int) =~= g.skip(drop as int));
            self.commands = newest;
        } else {
            self.commands = kept;
        }
        self.dirty = true;
    }
}

// ---------------------------------------------------------------------------
// Fuzzy search
// ---------------------------------------------------------------------------

/// Whether nucleo-matcher's `Pattern::new(pattern, Smart, Smart, Fuzzy)` has
/// no atoms (the pattern holds nothing to match).
pub uninterp spec fn spec_fuzzy_pattern_is_empty(pattern: Seq<char>) -> bool;

/// Builds a nucleo-matcher pattern (`Pattern::new` with smart case matching,
/// smart normalization, fuzzy atoms) and reports whether it has no atoms.
/// Parsing depends on the pattern text alone, so the answer is named.
#[verifier::external_body]
fn fuzzy_pattern_is_empty(pattern: &str) -> (res: bool)
    ensures
        res == spec_fuzzy_pattern_is_empty(pattern@),
{
    Pattern::new(pattern, CaseMatching::Smart, Normalization::Smart, AtomKind::Fuzzy).atoms.is_empty()
}

/// Whether nucleo-matcher's pattern `Pattern::new(pattern, Smart, Smart,
/// Fuzzy)` matches `haystack`.
pub uninterp spec fn spec_fuzzy_matches(pattern: Seq<char>, haystack: Seq<char>) -> bool;

/// Scores `haystack` against `pattern` with nucleo-matcher
/// (`Pattern::score` under a `Matcher` configured with `match_paths`);
/// `None` when it does not match.  Whether it matches depends on the two
/// texts alone, and is named; the path configuration, which differs between
/// platforms, changes only the bonuses, so the score itself is not stated.
#[verifier::external_body]
fn fuzzy_score(pattern: &str, haystack: &str) -> (res: Option<u32>)
    ensures
        res is Some <==> spec_fuzzy_matches(pattern@, haystack@),
{
    let pat = Pattern::new(pattern, CaseMatching::Smart, Normalization::Smart, AtomKind::Fuzzy);
    let mut matcher = Matcher::new(Config::DEFAULT.match_paths());
    let mut buf = Vec::new();
    pat.score(Utf32Str::new(haystack, &mut buf), &mut matcher)
}

/// The character indices of `haystack` that nucleo-matcher's
/// `Pattern::indices` reports for `pattern`, as it appends them (per atom,
/// unsorted, possibly repeated).  Nothing is stated of them.
#[verifier::external_body]
fn fuzzy_indices(pattern: &str, haystack: &str) -> (res: Vec<u32>) {
    let pat = Pattern::new(pattern, CaseMatching::Smart, Normalization::Smart, AtomKind::Fuzzy);
    let mut matcher = Matcher::new(Config::DEFAULT.match_paths());
    let mut buf = Vec::new();
    let mut indices = Vec::new();
    pat.indices(Utf32Str::new(haystack, &mut buf), &mut matcher, &mut indices);
    indices
}

/// `a` ranks above `b`: higher score, or equal score and more recent (larger
/// index).
pub open spec fn outranks(a: (usize, u32), b: (usize, u32)) -> bool {
    a.1 > b.1 || (a.1 == b.1 && a.0 > b.0)
}

/// `r` lists the `k` best entries of `s` (or all of them when there are
/// fewer), best first.
pub open spec fn is_top_ranked(r: Seq<(usize, u32)>, s: Seq<(usize, u32)>, k: nat) -> bool {
    &&& r.len() <= k
    &&& forall|i: int, j: int| 0 <= i < j < r.len() ==> outranks(r[i], r[j])
    &&& forall|i: int| 0 <= i < r.len() ==> s.contains(r[i])
    &&& forall|x: (usize, u32), i: int|
        s.contains(x) && !r.contains(x) && 0 <= i < r.len() ==> outranks(r[i], x)
    &&& (r.len() == k || forall|x: (usize, u32)| s.contains(x) ==> r.contains(x))
}

/// Ranks scored entries `(index, score)`: the `limit` best by score,
/// highest first, more recent first among equal scores.
pub fn rank_matches(scored: &Vec<(usize, u32)>, limit: usize) -> (res: Vec<(usize, u32)>)
    ensures
        is_top_ranked(res@, scored@, limit as nat),
{
    let mut r: Vec<(usize, u32)> = Vec::new();
    while r.len() < limit
        invariant
            r.len() <= limit,
            forall|i: int, j: int| 0 <= i < j < r.len() ==> outranks(r@[i], r@[j]),
            forall|i: int| 0 <= i < r.len() ==> scored@.contains(r@[i]),
            forall|x: (usize, u32), i: int|
                scored@.contains(x) && !r@.contains(x) && 0 <= i < r.len() ==> outranks(r@[i], x),
        decreases limit - r.len(),
    {
        // the best entry that ranks below everything chosen so far
        let mut best: Option<(usize, u32)> = None;
        let mut j: usize = 0;
        while j < scored.len()
            invariant
                j <= scored.len(),
                forall|i: int, k: int| 0 <= i < k < r.len() ==> outranks(r@[i], r@[k]),
                best matches Some(b) ==> scored@.contains(b) && (r.len() == 0 || outranks(
                    r@[r.len() - 1],
                    b,
                )),
                forall|m: int|
                    0 <= m < j && (r.len() == 0 || outranks(r@[r.len() - 1], scored@[m])) ==> (
                    best matches Some(b) && (b == scored@[m] || outranks(b, scored@[m]))),
            decreases scored.len() - j,
        {
            let x = scored[j];
            let eligible = r.len() == 0 || {
                let last = r[r.len() - 1];
                last.1 > x.1 || (last.1 == x.1 && last.0 > x.0)
            };
            if eligible {
                let better = match best {
                    None => true,
                    Some(b) => x.1 > b.1 || (x.1 == b.1 && x.0 > b.0),
                };
                if better {
                    best = Some(x);
                }
            }
            j = j + 1;
        }
        match best {
            None => {
                proof {
                    assert forall|x: (usize, u32)| scored@.contains(x) implies r@.contains(x) by {
                        let m = choose|m: int| 0 <= m < scored@.len() && scored@[m] == x;
                        if !r@.contains(x) && r.len() > 0 {
                            assert(outranks(r@[r.len() - 1], x));
                        }
                    }
                }
                return r;
            },
            Some(b) => {
                proof {
                    assert(!r@.contains(b)) by {
                        if r@.contains(b) {
                            let i = choose|i: int| 0 <= i < r.len() && r@[i] == b;
                            if i < r.len() - 1 {
                                assert(outranks(r@[i], r@[r.len() - 1]));
                            }
                        }
                    }
                }
                let ghost r0 = r@;
                r.push(b);
                proof {
                    assert forall|x: (usize, u32), i: int|
                        scored@.contains(x) && !r@.contains(x) && 0 <= i < r.len() implies outranks(
                        r@[i],
                        x,
                    ) by {
                        assert(!r0.contains(x)) by {
                            if r0.contains(x) {
                                let k = choose|k: int| 0 <= k < r0.len() && r0[k] == x;
                                assert(r@[k] == x);
                            }
                        }
                        assert(x != b) by {
                            if x == b {
                                assert(r@[r0.len() as int] == x);
                            }
                        }
                        let m = choose|m: int| 0 <= m < scored@.len() && scored@[m] == x;
                        if r0.len() > 0 {
                            assert(outranks(r0[r0.len() - 1], x));
                        }
                        if i == r0.len() {
                        } else {
                            assert(r@[i] == r0[i]);
                        }
                    }
                    assert forall|i: int| 0 <= i < r.len() implies scored@.contains(r@[i]) by {
                        if i < r0.len() {
                            assert(r@[i] == r0[i]);
                        }
                    }
                    assert forall|i: int, k: int| 0 <= i < k < r.len() implies outranks(r@[i], r@[k]) by {
                        if k == r0.len() && i < r0.len() - 1 {
                            assert(outranks(r0[i], r0[r0.len() - 1]));
                        }
                    }
                }
            },
        }
    }
    r
}

/// `r` is strictly increasing and holds exactly the values of `raw`.
pub open spec fn is_sorted_set_of(r: Seq<u32>, raw: Seq<u32>) -> bool {
    &&& forall|i: int, j: int| 0 <= i < j < r.len() ==> r[i] < r[j]
    &&& forall|x: u32| r.contains(x) <==> raw.contains(x)
}

/// Sorts match indices and removes repeats.
pub fn sort_dedup_indices(raw: &Vec<u32>) -> (res: Vec<u32>)
    ensures
        is_sorted_set_of(res@, raw@),
{
    let mut r: Vec<u32> = Vec::new();
    let mut i: usize = 0;
    while i < raw.len()
        invariant
            i <= raw.len(),
            is_sorted_set_of(r@, raw@.take(i as int)),
        decreases raw.len() - i,
    {
        let x = raw[i];
        let mut k: usize = 0;
        while k < r.len() && r[k] < x
            invariant
                k <= r.len(),
                forall|m: int| 0 <= m < k ==> r@[m] < x,
            decreases r.len() - k,
        {
            k = k + 1;
        }
        let ghost r0 = r@;
        let ghost t0 = raw@.take(i as int);
        proof {
            assert(raw@.take(i + 1) =~= t0.push(x));
            assert forall|y: u32| t0.push(x).contains(y) <==> (t0.contains(y) || y == x) by {
                if t0.push(x).contains(y) {
                    let m = choose|m: int| 0 <= m < t0.push(x).len() && t0.push(x)[m] == y;
                    if m < t0.len() {
                        assert(t0[m] == y);
                    }
                }
                if t0.contains(y) {
                    let m = choose|m: int| 0 <= m < t0.len() && t0[m] == y;
                    assert(t0.push(x)[m] == y);
                }
                if y == x {
                    assert(t0.push(x)[t0.len() as int] == y);
                }
            }
        }
        if k < r.len() && r[k] == x {
            assert(r0.contains(x));
        } else {
            r.insert(k, x);
            proof {
                assert forall|a: int, b: int| 0 <= a < b < r.len() implies r@[a] < r@[b] by {
                    if a < k && b > k {
                        assert(r@[b] == r0[b - 1]);
                        assert(r0[a] < x);
                    }
                    if b > k && a == k {
                        assert(r@[b] == r0[b - 1]);
                        assert(r0[k as int] >= x);
                        if b - 1 > k {
                            assert(r0[k as int] < r0[b - 1]);
                        }
                    }
                    if b > k && a > k {
                        assert(r@[a] == r0[a - 1]);
                        assert(r@[b] == r0[b - 1]);
                    }
                }
                assert forall|y: u32| r@.contains(y) <==> (r0.contains(y) || y == x) by {
                    if r@.contains(y) {
                        let m = choose|m: int| 0 <= m < r.len() && r@[m] == y;
                        if m < k {
                            assert(r0[m] == y);
                        } else if m > k {
                            assert(r0[m - 1] == y);
                        }
                    }
                    if r0.contains(y) {
                        let m = choose|m: int| 0 <= m < r0.len() && r0[m] == y;
                        if m < k {
                            assert(r@[m] == y);
                        } else {
                            assert(r@[m + 1] == y);
                        }
                    }
                    if y == x {
                        assert(r@[k as int] == y);
                    }
                }
            }
        }
        proof {
            assert forall|y: u32| r@.contains(y) <==> raw@.take(i + 1).contains(y) by {
                assert(r0.contains(y) <==> t0.contains(y));
            }
        }
        i = i + 1;
    }
    assert(raw@.take(raw@.len() as int) =~= raw@);
    r
}

/// The scored entries of per-command scores: `(index, score)` for each
/// command that matched, in index order.
pub open spec fn scored_entries(scores: Seq<Option<u32>>) -> Seq<(usize, u32)>
    decreases scores.len(),
{
    if scores.len() == 0 {
        Seq::empty()
    } else {
        let before = scored_entries(scores.drop_last());
        match scores.last() {
            Some(x) => before.push(((scores.len() - 1) as usize, x)),
            None => before,
        }
    }
}

/// Ranks the commands that matched: from one optional score per command, the
/// `limit` best `(index, score)` entries, highest score first, more recent
/// first among equal scores.
pub fn rank_scores(scores: &Vec<Option<u32>>, limit: usize) -> (res: Vec<(usize, u32)>)
    ensures
        is_top_ranked(res@, scored_entries(scores@), limit as nat),
        forall|a: int| 0 <= a < res@.len() ==> res@[a].0 < scores@.len(),
        forall|a: int, b: int| 0 <= a < b < res@.len() ==> res@[a].0 != res@[b].0,
{
    let n = scores.len();
    let mut scored: Vec<(usize, u32)> = Vec::new();
    let mut idx: usize = 0;
    while idx < n
        invariant
            idx <= n == scores.len(),
            scored@ == scored_entries(scores@.take(idx as int)),
            forall|k: int| 0 <= k < scored.len() ==> scored@[k].0 < idx,
            forall|k: int, m: int| 0 <= k < m < scored.len() ==> scored@[k].0 < scored@[m].0,
        decreases n - idx,
    {
        proof {
            let t = scores@.take(idx + 1);
            assert(t.drop_last() =~= scores@.take(idx as int));
            assert(t.last() == scores@[idx as int]);
        }
        match scores[idx] {
            Some(score) => {
                scored.push((idx, score));
            },
            None => {},
        }
        idx = idx + 1;
    }
    assert(scores@.take(n as int) =~= scores@);
    let ranked = rank_matches(&scored, limit);
    proof {
        assert forall|a: int, b: int| 0 <= a < b < ranked.len() implies ranked@[a].0
            != ranked@[b].0 by {
            let ka = choose|k: int| 0 <= k < scored.len() && scored@[k] == ranked@[a];
            let kb = choose|k: int| 0 <= k < scored.len() && scored@[k] == ranked@[b];
            assert(outranks(ranked@[a], ranked@[b]));
            if ka != kb {
                if ka < kb {
                    assert(scored@[ka].0 < scored@[kb].0);
                } else {
                    assert(scored@[kb].0 < scored@[ka].0);
                }
            }
        }
        assert forall|a: int| 0 <= a < ranked.len() implies ranked@[a].0 < n by {
            let ka = choose|k: int| 0 <= k < scored.len() && scored@[k] == ranked@[a];
        }
    }
    ranked
}

impl CommandHistoryStore {
    /// Fuzzy search the history using nucleo-matcher.
    /// Returns top `limit` results sorted by score (highest first).
    /// At equal scores, more recent commands rank higher.
    pub fn search(&self, pattern_str: &str, limit: usize) -> (res: Vec<FuzzyResult>)
        requires
            self.wf(),
        ensures
            (trim_seq(pattern_str@).len() == 0 || spec_fuzzy_pattern_is_empty(
                trim_seq(pattern_str@),
            )) ==> res@.len() == 0,
            res@.len() <= limit,
            forall|i: int| 0 <= i < res@.len() ==> self.history().contains(#[trigger] res@[i].command@),
            forall|i: int, j: int|
                0 <= i < j < res@.len() ==> res@[i].score >= res@[j].score && res@[i].command@
                    != res@[j].command@,
            forall|i: int, a: int, b: int|
                0 <= i < res@.len() && 0 <= a < b < res@[i].indices@.len() ==> res@[i].indices@[a]
                    < res@[i].indices@[b],
            !(trim_seq(pattern_str@).len() == 0 || spec_fuzzy_pattern_is_empty(
                trim_seq(pattern_str@),
            )) ==> exists|scores: Seq<Option<u32>>, ranked: Seq<(usize, u32)>|
                #![trigger is_top_ranked(ranked, scored_entries(scores), limit as nat)]
                {
                    &&& scores.len() == self.history().len()
                    &&& forall|k: int|
                        0 <= k < scores.len() ==> (#[trigger] scores[k] is Some <==> spec_fuzzy_matches(
                            trim_seq(pattern_str@),
                            self.history()[k],
                        ))
                    &&& is_top_ranked(ranked, scored_entries(scores), limit as nat)
                    &&& ranked.len() == res@.len()
                    &&& forall|a: int|
                        0 <= a < res@.len() ==> res@[a].command@ == self.history()[ranked[a].0 as int]
                            && res@[a].score == ranked[a].1
                },
    {
        let p = trim_string(pattern_str);
        if p.as_str().is_empty() {
            return Vec::new();
        }
        if fuzzy_pattern_is_empty(p.as_str()) {
            return Vec::new();
        }
        let n = self.commands.len();
        let mut scores: Vec<Option<u32>> = Vec::new();
        let mut idx: usize = 0;
        while idx < n
            invariant
                idx <= n == self.commands.len(),
                scores.len() == idx,
                p@ == trim_seq(pattern_str@),
                forall|k: int|
                    0 <= k < idx ==> (#[trigger] scores@[k] is Some <==> spec_fuzzy_matches(
                        p@,
                        self.history()[k],
                    )),
            decreases n - idx,
        {
            let ghost before = scores@;
            let sc = fuzzy_score(p.as_str(), self.commands[idx].as_str());
            scores.push(sc);
            proof {
                assert(self.history()[idx as int] == self.commands@[idx as int]@);
                assert forall|k: int| 0 <= k < idx + 1 implies (#[trigger] scores@[k] is Some
                    <==> spec_fuzzy_matches(p@, self.history()[k])) by {
                    if k < idx {
                        assert(scores@[k] == before[k]);
                    }
                }
            }
            idx = idx + 1;
        }
        let ranked = rank_scores(&scores, limit);
        let mut results: Vec<FuzzyResult> = Vec::new();
        let mut i: usize = 0;
        while i < ranked.len()
            invariant
                i <= ranked.len() <= limit,
                n == self.commands.len(),
                self.wf(),
                results.len() == i,
                forall|a: int, b: int| 0 <= a < b < ranked.len() ==> outranks(ranked@[a], ranked@[b]),
                forall|a: int, b: int| 0 <= a < b < ranked.len() ==> ranked@[a].0 != ranked@[b].0,
                forall|a: int| 0 <= a < ranked.len() ==> ranked@[a].0 < n,
                forall|a: int|
                    0 <= a < i ==> results@[a].command@ == self.history()[ranked@[a].0 as int]
                        && results@[a].score == ranked@[a].1,
                forall|a: int, x: int, y: int|
                    0 <= a < i && 0 <= x < y < results@[a].indices@.len()
                        ==> results@[a].indices@[x] < results@[a].indices@[y],
            decreases ranked.len() - i,
        {
            let (k, score) = ranked[i];
            let command = self.commands[k].clone();
            let raw = fuzzy_indices(p.as_str(), command.as_str());
            let indices = sort_dedup_indices(&raw);
            assert(command@ == self.history()[k as int]);
            results.push(FuzzyResult { command, score, indices });
            i = i + 1;
        }
        proof {
            assert forall|a: int| 0 <= a < results@.len() implies self.history().contains(
                #[trigger] results@[a].command@,
            ) by {
                assert(self.history()[ranked@[a].0 as int] == results@[a].command@);
            }
            assert forall|a: int, b: int| 0 <= a < b < results@.len() implies results@[a].score
                >= results@[b].score && results@[a].command@ != results@[b].command@ by {
                assert(outranks(ranked@[a], ranked@[b]));
                let ka = ranked@[a].0 as int;
                let kb = ranked@[b].0 as int;
                assert(ka != kb);
                assert(self.history().no_duplicates());
            }
            assert(is_top_ranked(ranked@, scored_entries(scores@), limit as nat));
        }
        results
    }
}

proof fn lemma_push_distinct(k: Seq<Seq<char>>, c: Seq<char>)
    requires
        k.no_duplicates(),
        !k.contains(c),
    ensures
        k.push(c).no_duplicates(),
{
    let g = k.push(c);
    assert forall|a: int, b: int| 0 <= a < g.len() && 0 <= b < g.len() && a != b implies g[a]
        != g[b] by {
        if a == k.len() {
            assert(k.contains(k[b]));
        } else if b == k.len() {
            assert(k.contains(k[a]));
        }
    }
}

/// Adding a non-blank command makes its trimmed form the newest entry, keeps
/// every entry distinct, and leaves at most `MAX_HISTORY` entries.
pub proof fn law_add_puts_command_last(h: Seq<Seq<char>>, command: Seq<char>)
    requires
        h.no_duplicates(),
        trim_seq(command).len() > 0,
    ensures
        history_after_add(h, command).len() > 0,
        history_after_add(h, command).last() == trim_seq(command),
        history_after_add(h, command).no_duplicates(),
        history_after_add(h, command).len() <= MAX_HISTORY,
{
    let c = trim_seq(command);
    lemma_remove_all(h, c);
    lemma_push_distinct(remove_all(h, c), c);
    let g = remove_all(h, c).push(c);
    if g.len() > MAX_HISTORY {
        let t = g.skip(g.len() - MAX_HISTORY);
        assert(t.last() == g.last());
        assert forall|a: int, b: int| 0 <= a < t.len() && 0 <= b < t.len() && a != b implies t[a]
            != t[b] by {
            assert(t[a] == g[a + g.len() - MAX_HISTORY]);
            assert(t[b] == g[b + g.len() - MAX_HISTORY]);
        }
    }
}

/// A history of distinct, non-blank, trimmed commands, at most `MAX_HISTORY`
/// of them.
pub open spec fn history_is_clean(h: Seq<Seq<char>>) -> bool {
    &&& h.no_duplicates()
    &&& h.len() <= MAX_HISTORY
    &&& forall|i: int| 0 <= i < h.len() ==> h[i].len() > 0 && trim_seq(h[i]) == h[i]
}

/// Adding any command to a clean history leaves it clean: its commands stay
/// distinct, non-blank and trimmed, and there are at most `MAX_HISTORY`.
pub proof fn law_add_keeps_history_clean(h: Seq<Seq<char>>, command: Seq<char>)
    requires
        history_is_clean(h),
    ensures
        history_is_clean(history_after_add(h, command)),
{
    let c = trim_seq(command);
    if c.len() > 0 {
        law_add_puts_command_last(h, command);
        lemma_remove_all(h, c);
        lemma_trim_idempotent(command);
        let r = remove_all(h, c);
        let g = r.push(c);
        assert forall|i: int| 0 <= i < g.len() implies g[i].len() > 0 && trim_seq(g[i]) == g[i] by {
            if i < r.len() {
                assert(r.contains(r[i]));
                assert(h.contains(g[i]));
                let k = choose|k: int| 0 <= k < h.len() && h[k] == g[i];
            }
        }
        let res = history_after_add(h, command);
        assert forall|i: int| 0 <= i < res.len() implies res[i].len() > 0 && trim_seq(res[i])
            == res[i] by {
            if g.len() > MAX_HISTORY {
                assert(res[i] == g[i + g.len() - MAX_HISTORY]);
            }
        }
    }
}

/// Adding the same command twice leaves the history as adding it once.
pub proof fn law_add_is_idempotent(h: Seq<Seq<char>>, command: Seq<char>)
    requires
        h.no_duplicates(),
    ensures
        history_after_add(history_after_add(h, command), command) == history_after_add(h, command),
{
    let c = trim_seq(command);
    if c.len() > 0 {
        let h1 = history_after_add(h, command);
        law_add_puts_command_last(h, command);
        // c occurs once, at the end of h1
        let front = h1.drop_last();
        assert(front.push(c) =~= h1);
        assert(!front.contains(c)) by {
            if front.contains(c) {
                let i = choose|i: int| 0 <= i < front.len() && front[i] == c;
                assert(h1[i] == h1[h1.len() - 1]);
            }
        }
        lemma_remove_all(front, c);
        assert(remove_all(h1, c) == remove_all(front, c));
        assert(remove_all(h1, c) == front);
    }
}

/// Merging commands that are all already present changes nothing.
pub proof fn law_merge_of_known_commands_is_identity(h: Seq<Seq<char>>, loaded: Seq<Seq<char>>)
    requires
        forall|i: int| 0 <= i < loaded.len() ==> h.contains(loaded[i]),
    ensures
        history_after_merge(h, loaded) == h,
    decreases loaded.len(),
{
    if loaded.len() > 0 {
        law_merge_of_known_commands_is_identity(h, loaded.drop_last());
        assert(h.contains(loaded[loaded.len() - 1]));
    }
}

} // verus!
