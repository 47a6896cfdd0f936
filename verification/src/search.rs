//! Fuzzy search over the table rows, run by a `nucleo` matcher.
use vstd::prelude::*;

use crate::models::{ImageTableRow, RowV};
use crate::names::view_names;
use crate::strings::{lowercase, push_char, to_lowercase};

verus! {

#[verifier::external_type_specification]
#[verifier::external_body]
#[verifier::reject_recursive_types(T)]
pub struct ExNucleo<T: Sync + Send + 'static>(nucleo::Nucleo<T>);

/// The items pushed into a matcher, in push order, each with the text it
/// holds to be matched by (see `matched_text`).
pub uninterp spec fn matcher_items(m: nucleo::Nucleo<usize>) -> Seq<(usize, Seq<char>)>;

/// The query a matcher was last given for its column.
pub uninterp spec fn matcher_pattern(m: nucleo::Nucleo<usize>) -> Seq<char>;

/// The query the matcher's current snapshot of matches was computed for.
pub uninterp spec fn snapshot_pattern(m: nucleo::Nucleo<usize>) -> Seq<char>;

/// `nucleo::Snapshot::item_count`: how many of the matcher's items its
/// current snapshot was computed over (the first ones pushed).
pub uninterp spec fn snapshot_item_count(m: nucleo::Nucleo<usize>) -> u32;

/// The text `nucleo::Utf32String::from` keeps of `s`: ASCII text as it is;
/// other text as the first char of each grapheme cluster.
pub uninterp spec fn matched_text(s: Seq<char>) -> Seq<char>;

/// `nucleo::pattern::Pattern::score` of the pattern parsed from `query`
/// (case ignored, smart normalization) against `text`, with nucleo's default
/// matcher configuration: `None` when the pattern does not match.
pub uninterp spec fn pattern_score(query: Seq<char>, text: Seq<char>) -> Option<u32>;

/// `nucleo::pattern::MultiPattern::is_empty` for the pattern parsed from
/// `query`: it has no atoms (the query is blank, or each of its words is
/// only an operator), so every text matches and nothing is ranked.
pub uninterp spec fn pattern_blank(query: Seq<char>) -> bool;

/// `query` matches `text` (see `pattern_score`).
pub open spec fn pattern_matches(query: Seq<char>, text: Seq<char>) -> bool {
    pattern_score(query, text) is Some
}

/// Every item is pushed under its own position.
pub open spec fn positioned(items: Seq<(usize, Seq<char>)>) -> bool {
    forall|k: int| 0 <= k < items.len() ==> (#[trigger] items[k]).0 == k
}

/// Item `a` comes before item `b` among matches of `query`: a higher score
/// first, then the shorter text, then the earlier item; for a blank query,
/// simply the earlier item.
pub open spec fn ranked_before(items: Seq<(usize, Seq<char>)>, query: Seq<char>, a: int, b: int) -> bool {
    let sa = pattern_score(query, items[a].1)->0;
    let sb = pattern_score(query, items[b].1)->0;
    if pattern_blank(query) {
        a < b
    } else {
        ||| sa > sb
        ||| sa == sb && items[a].1.len() < items[b].1.len()
        ||| sa == sb && items[a].1.len() == items[b].1.len() && a < b
    }
}

/// `ps` lists the positions of the first `n` items whose text `query`
/// matches, each once, best ranked first (see `ranked_before`).
pub open spec fn ranked_matches(items: Seq<(usize, Seq<char>)>, n: int, query: Seq<char>, ps: Seq<usize>) -> bool {
    &&& forall|i: int| 0 <= i < ps.len() ==> #[trigger] ps[i] < n && pattern_matches(query, items[ps[i] as int].1)
    &&& forall|k: int| 0 <= k < n && pattern_matches(query, #[trigger] items[k].1) ==> ps.contains(k as usize)
    &&& forall|i: int, j: int|
        0 <= i < j < ps.len() ==> ranked_before(items, query, #[trigger] ps[i] as int, #[trigger] ps[j] as int)
}

/// `nucleo::Nucleo::new` with the default configuration, a notifier that
/// does nothing, nucleo's default number of worker threads (`None`) and one
/// column: a matcher holding no items.
#[verifier::external_body]
fn new_matcher() -> (m: nucleo::Nucleo<usize>)
    ensures
        matcher_items(m) == Seq::<(usize, Seq<char>)>::empty(),
{
    nucleo::Nucleo::new(nucleo::Config::DEFAULT, std::sync::Arc::new(|| {}), None, 1)
}

/// How many items a matcher can take and still count exactly: its count of
/// items saturates at `u32::MAX - 32` (and `push` panics on an index past
/// that).
pub const SEARCH_CAPACITY: usize = 4294967263;

/// `nucleo::Injector::push` through the matcher's injector: appends `item`,
/// to be matched by the `nucleo::Utf32String` made from `haystack` (its only
/// column), which holds `matched_text(haystack)`. Items are kept behind
/// shared handles, so the matcher is taken mutably to show that its
/// contents change.
#[verifier::external_body]
fn push_item(m: &mut nucleo::Nucleo<usize>, item: usize, haystack: &str)
    requires
        matcher_items(*old(m)).len() < SEARCH_CAPACITY,
    ensures
        matcher_items(*final(m)) == matcher_items(*old(m)).push((item, matched_text(haystack@))),
{
    m.injector().push(item, |_, cols| cols[0] = nucleo::Utf32String::from(haystack));
}

/// `nucleo::Injector::injected_items`: how many items were pushed.
#[verifier::external_body]
fn injected_count(m: &nucleo::Nucleo<usize>) -> (n: u32)
    ensures
        n == matcher_items(*m).len(),
{
    m.injector().injected_items()
}

/// `nucleo::pattern::MultiPattern::reparse` on column 0, ignoring case with
/// smart normalization, replacing the previous pattern (not appending to
/// it): the matcher's query becomes `pattern`. Items are unchanged.
#[verifier::external_body]
fn reparse_pattern(m: &mut nucleo::Nucleo<usize>, pattern: &str)
    ensures
        matcher_items(*final(m)) == matcher_items(*old(m)),
        matcher_pattern(*final(m)) == pattern@,
{
    m.pattern.reparse(
        0,
        pattern,
        nucleo::pattern::CaseMatching::Ignore,
        nucleo::pattern::Normalization::Smart,
        false,
    );
}

/// `nucleo::Nucleo::tick`, waiting up to 1 000 000 ms for the worker; the
/// result is the `running` flag of the returned `nucleo::Status`. Items and
/// query are unchanged, and the snapshot covers at most the items pushed.
/// When the worker is no longer running, the snapshot was computed for the
/// current query over every item. Whether it finished in time depends on the
/// machine, so nothing more is stated when it is still running.
#[verifier::external_body]
fn tick_matcher(m: &mut nucleo::Nucleo<usize>) -> (running: bool)
    ensures
        matcher_items(*final(m)) == matcher_items(*old(m)),
        matcher_pattern(*final(m)) == matcher_pattern(*old(m)),
        snapshot_item_count(*final(m)) <= matcher_items(*final(m)).len(),
        !running ==> snapshot_pattern(*final(m)) == matcher_pattern(*final(m)),
        !running ==> snapshot_item_count(*final(m)) == matcher_items(*final(m)).len(),
{
    m.tick(1_000_000).running
}

/// `nucleo::Snapshot::matched_items` over the whole snapshot, each match
/// given by the item it was pushed as (here its position). The snapshot's
/// worker scored every item it covers and kept exactly those its query
/// matches, sorted best first: by score, then shorter text, then earlier
/// item; a blank query keeps every item in push order.
#[verifier::external_body]
fn snapshot_matches(m: &nucleo::Nucleo<usize>) -> (r: Vec<usize>)
    requires
        positioned(matcher_items(*m)),
    ensures
        forall|i: int|
            0 <= i < r@.len() ==> #[trigger] r@[i] < snapshot_item_count(*m) && pattern_score(
                snapshot_pattern(*m),
                matcher_items(*m)[r@[i] as int].1,
            ) is Some,
        forall|k: int|
            0 <= k < snapshot_item_count(*m) && pattern_score(snapshot_pattern(*m), #[trigger] matcher_items(*m)[k].1)
                is Some ==> r@.contains(k as usize),
        forall|i: int, j: int|
            0 <= i < j < r@.len() ==> if pattern_blank(snapshot_pattern(*m)) {
                #[trigger] r@[i] < #[trigger] r@[j]
            } else {
                ranked_before(matcher_items(*m), snapshot_pattern(*m), r@[i] as int, r@[j] as int)
            },
{
    m.snapshot().matched_items(..).map(|item| *item.data).collect()
}

/// What the search knows of a row: its position, name and version.
pub struct RowInfo {
    pub index: usize,
    pub name: String,
    pub version: String,
}

impl Clone for RowInfo {
    fn clone(&self) -> (r: Self)
        ensures
            r.index == self.index,
            r.name@ == self.name@,
            r.version@ == self.version@,
    {
        RowInfo { index: self.index, name: self.name.clone(), version: self.version.clone() }
    }
}

/// How many of `n` rows the matcher takes.
pub open spec fn searchable(n: nat) -> nat {
    if n <= SEARCH_CAPACITY {
        n
    } else {
        SEARCH_CAPACITY as nat
    }
}

/// The text a row is matched by: `name_version`.
pub open spec fn haystack(name: Seq<char>, version: Seq<char>) -> Seq<char> {
    name + seq!['_'] + version
}

/// The search state: the matcher (each row pushed under its position), the
/// lowercased query, the table index of each position, the positions and
/// rows currently shown, and whether the matcher had finished matching the
/// query when they were taken.
pub struct Searcher {
    pub nucleo: nucleo::Nucleo<usize>,
    pub pattern: String,
    pub visible_indices: Vec<usize>,
    pub item_count: usize,
    pub settled: bool,
    pub row_indices: Vec<usize>,
    pub positions: Vec<usize>,
}

impl Searcher {
    /// The matcher holds the first `item_count` table rows, each at its
    /// position and matched by the `name_version` text of `row_info_of`.
    pub open spec fn searches_rows(&self, rows: Seq<RowV>) -> bool {
        &&& self.item_count == searchable(rows.len())
        &&& self.row_indices@.len() == self.item_count
        &&& forall|i: int|
            0 <= i < self.item_count ==> #[trigger] matcher_items(self.nucleo)[i] == (
                i as usize,
                matched_text(haystack(row_info_of(rows[i]).0, row_info_of(rows[i]).1)),
            ) && self.row_indices@[i] == i
    }

    /// The matcher holds the first `item_count` rows, each at its position,
    /// standing for the row's index and matched by its `name_version` text.
    pub open spec fn matches_rows(&self, rows: Seq<RowInfo>) -> bool {
        &&& self.item_count == searchable(rows.len())
        &&& self.row_indices@.len() == self.item_count
        &&& forall|i: int|
            0 <= i < self.item_count ==> #[trigger] matcher_items(self.nucleo)[i] == (
                i as usize,
                matched_text(haystack(rows[i].name@, rows[i].version@)),
            ) && self.row_indices@[i] == rows[i].index
    }

    /// The shown rows are the table indices of `positions`, which list every
    /// item whose text `query` matches, once each, best ranked first.
    pub open spec fn shows_ranked(&self, query: Seq<char>) -> bool {
        &&& ranked_matches(matcher_items(self.nucleo), self.item_count as int, query, self.positions@)
        &&& self.visible_indices@ == self.positions@.map_values(|p: usize| self.row_indices@[p as int])
    }

    /// With an empty query every position is shown in order; otherwise the
    /// shown rows are the table indices of `positions`, and, once the
    /// matcher has settled, exactly the ranked matches of the query.
    pub open spec fn visible_ok(&self) -> bool {
        if self.pattern@.len() == 0 {
            self.visible_indices@ == Seq::new(self.item_count as nat, |i: int| i as usize)
        } else {
            &&& forall|i: int| 0 <= i < self.positions@.len() ==> #[trigger] self.positions@[i] < self.item_count
            &&& self.visible_indices@ == self.positions@.map_values(|p: usize| self.row_indices@[p as int])
            &&& self.settled ==> self.shows_ranked(self.pattern@)
        }
    }

    /// The matcher holds `item_count` items, each at its position, with a
    /// table index each, and, for a non-empty query, was given that query;
    /// the shown rows follow `visible_ok`.
    pub open spec fn wf(&self) -> bool {
        &&& self.item_count <= SEARCH_CAPACITY
        &&& matcher_items(self.nucleo).len() == self.item_count
        &&& positioned(matcher_items(self.nucleo))
        &&& self.row_indices@.len() == self.item_count
        &&& self.pattern@.len() > 0 ==> matcher_pattern(self.nucleo) == self.pattern@
        &&& self.visible_ok()
    }

    /// A searcher over the given rows with an empty query.
    pub fn new(rows: &[RowInfo]) -> (s: Self)
        ensures
            s.pattern@ == Seq::<char>::empty(),
            s.matches_rows(rows@),
            s.wf(),
    {
        let mut s = Searcher::empty_matcher();
        s.replace_items(rows);
        s
    }

    /// A searcher with no rows and an empty query.
    pub fn empty_matcher() -> (s: Self)
        ensures
            s.pattern@ == Seq::<char>::empty(),
            s.visible_indices@ == Seq::<usize>::empty(),
            s.item_count == 0,
            s.wf(),
    {
        let s = Searcher {
            nucleo: new_matcher(),
            pattern: String::new(),
            visible_indices: Vec::new(),
            item_count: 0,
            settled: true,
            row_indices: Vec::new(),
            positions: Vec::new(),
        };
        assert(s.visible_indices@ =~= Seq::new(0, |i: int| i as usize));
        s
    }

    /// Starts a new matcher over `rows` (as many as it can take), matched by
    /// `name_version`, and recomputes the shown rows for the current query.
    pub fn replace_items(&mut self, rows: &[RowInfo])
        ensures
            final(self).pattern@ == old(self).pattern@,
            final(self).matches_rows(rows@),
            final(self).wf(),
            final(self).pattern@.len() > 0 && final(self).settled ==> final(self).shows_ranked(final(self).pattern@),
    {
        let mut m = new_matcher();
        let mut idx: Vec<usize> = Vec::new();
        let mut i: usize = 0;
        while i < rows.len() && i < SEARCH_CAPACITY
            invariant
                i <= rows@.len(),
                i <= SEARCH_CAPACITY,
                matcher_items(m).len() == i,
                idx@.len() == i,
                forall|k: int|
                    0 <= k < i ==> #[trigger] matcher_items(m)[k] == (
                        k as usize,
                        matched_text(haystack(rows@[k].name@, rows@[k].version@)),
                    ) && idx@[k] == rows@[k].index,
            decreases rows.len() - i,
        {
            let info = &rows[i];
            let mut h = info.name.clone();
            push_char(&mut h, '_');
            h.append(info.version.as_str());
            let ghost before = matcher_items(m);
            assert(h@ =~= haystack(rows@[i as int].name@, rows@[i as int].version@));
            push_item(&mut m, i, h.as_str());
            idx.push(info.index);
            assert forall|k: int|
                0 <= k < i + 1 implies #[trigger] matcher_items(m)[k] == (
                    k as usize,
                    matched_text(haystack(rows@[k].name@, rows@[k].version@)),
                ) && idx@[k] == rows@[k].index by {
                if k < i {
                    assert(matcher_items(m)[k] == before[k]);
                }
            }
            i = i + 1;
        }
        self.nucleo = m;
        self.item_count = i;
        self.row_indices = idx;
        self.recompute_visible();
    }

    /// The rows shown for the current query: all positions in order for an
    /// empty query; otherwise the query is handed to the matcher and the
    /// table indices of its matches are shown.
    fn recompute_visible(&mut self)
        requires
            matcher_items(old(self).nucleo).len() == old(self).item_count,
            positioned(matcher_items(old(self).nucleo)),
            old(self).row_indices@.len() == old(self).item_count,
            old(self).item_count <= SEARCH_CAPACITY,
        ensures
            final(self).pattern@ == old(self).pattern@,
            final(self).item_count == old(self).item_count,
            final(self).row_indices == old(self).row_indices,
            matcher_items(final(self).nucleo) == matcher_items(old(self).nucleo),
            final(self).wf(),
            final(self).pattern@.len() > 0 && final(self).settled ==> final(self).shows_ranked(final(self).pattern@),
    {
        let n = self.item_count;
        if self.pattern.as_str().unicode_len() == 0 {
            let count = injected_count(&self.nucleo) as usize;
            let mut v: Vec<usize> = Vec::new();
            let mut i: usize = 0;
            while i < count
                invariant
                    i <= count,
                    v@ == Seq::new(i as nat, |k: int| k as usize),
                decreases count - i,
            {
                v.push(i);
                assert(v@ =~= Seq::new((i + 1) as nat, |k: int| k as usize));
                i = i + 1;
            }
            self.visible_indices = v;
            self.positions = Vec::new();
            self.settled = true;
            return ;
        }
        reparse_pattern(&mut self.nucleo, self.pattern.as_str());
        let running = tick_matcher(&mut self.nucleo);
        let found = snapshot_matches(&self.nucleo);
        let mut v: Vec<usize> = Vec::new();
        let mut i: usize = 0;
        while i < found.len()
            invariant
                i <= found@.len(),
                n == self.item_count,
                self.row_indices@.len() == n,
                forall|j: int| 0 <= j < found@.len() ==> #[trigger] found@[j] < n,
                v@ == found@.take(i as int).map_values(|p: usize| self.row_indices@[p as int]),
            decreases found.len() - i,
        {
            let p = found[i];
            v.push(self.row_indices[p]);
            assert(found@.take(i + 1) =~= found@.take(i as int).push(p));
            assert(v@ =~= found@.take(i + 1).map_values(|p: usize| self.row_indices@[p as int]));
            i = i + 1;
        }
        assert(found@.take(found@.len() as int) =~= found@);
        self.visible_indices = v;
        self.positions = found;
        self.settled = !running;
    }

    /// Sets the query (lowercased), hands it to the matcher when it is not
    /// empty, and recomputes the shown rows: once the matcher has settled,
    /// exactly the rows whose text the query matches, best ranked first.
    pub fn set_pattern(&mut self, pattern: &str)
        requires
            old(self).wf(),
        ensures
            final(self).pattern@ == lowercase(pattern@),
            (final(self).pattern@.len() == 0) == (pattern@.len() == 0),
            pattern@.len() > 0 ==> matcher_pattern(final(self).nucleo) == lowercase(pattern@),
            pattern@.len() > 0 && final(self).settled ==> final(self).shows_ranked(lowercase(pattern@)),
            final(self).item_count == old(self).item_count,
            final(self).row_indices == old(self).row_indices,
            matcher_items(final(self).nucleo) == matcher_items(old(self).nucleo),
            final(self).wf(),
    {
        self.pattern = to_lowercase(pattern);
        self.recompute_visible();
    }

    /// Replaces the rows searched (see `replace_items`).
    pub fn update_items(&mut self, rows: &[RowInfo])
        ensures
            final(self).pattern@ == old(self).pattern@,
            final(self).matches_rows(rows@),
            final(self).wf(),
            final(self).pattern@.len() > 0 && final(self).settled ==> final(self).shows_ranked(final(self).pattern@),
    {
        self.replace_items(rows);
    }
}

/// What the search knows of each row, by position: a current image or a
/// stale version by name and version, an unknown tarball by filename with
/// an empty version.
pub open spec fn row_info_of(row: RowV) -> (Seq<char>, Seq<char>) {
    match row {
        RowV::Current(img) => (img.name, img.version),
        RowV::Stale { family_name, version, .. } => (family_name, version),
        RowV::Unknown { filename, .. } => (filename, Seq::empty()),
    }
}

/// The search entries for the rows (see `row_info_of`).
pub fn rows_to_info(rows: &[ImageTableRow]) -> (r: Vec<RowInfo>)
    ensures
        r@.len() == rows@.len(),
        forall|i: int|
            0 <= i < rows@.len() ==> (#[trigger] r@[i]).index == i && (r@[i].name@, r@[i].version@)
                == row_info_of(rows@[i]@),
{
    let mut out: Vec<RowInfo> = Vec::new();
    let mut i: usize = 0;
    while i < rows.len()
        invariant
            i <= rows@.len(),
            out@.len() == i,
            forall|k: int|
                0 <= k < i ==> (#[trigger] out@[k]).index == k && (out@[k].name@, out@[k].version@)
                    == row_info_of(rows@[k]@),
        decreases rows.len() - i,
    {
        let info = match &rows[i] {
            ImageTableRow::Current(img) => RowInfo { index: i, name: img.name.clone(), version: img.version.clone() },
            ImageTableRow::Stale { family_name, version, .. } => RowInfo {
                index: i,
                name: family_name.clone(),
                version: version.clone(),
            },
            ImageTableRow::Unknown(u) => RowInfo { index: i, name: u.filename.clone(), version: String::new() },
        };
        out.push(info);
        i = i + 1;
    }
    out
}

} // verus!
