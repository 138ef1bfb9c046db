//! What holds of every search, proved over the state machine of
//! [`SearchConfig`]: `run` gives the state reached by any sequence of answers
//! from the caller, so a statement over `run(evs)` for all `evs` holds in
//! every state a search can be in.
use vstd::prelude::*;

use crate::search::{ActionView, EventView, SearchConfig, SearchState};

verus! {

impl SearchConfig {
    /// Whether `p` is one of the configured roots.
    pub open spec fn is_root(self, p: Seq<char>) -> bool {
        exists|j: int| 0 <= j < self.dirs.len() && #[trigger] self.dirs[j] == p
    }

    /// The order kept by every state a search reaches: roots are probed in
    /// turn; a queued directory is a root at depth 0, or a directory below it
    /// that lies within the depth limit and outside the excluded set; every
    /// result ends with the search term.
    pub open spec fn well_placed(self, s: SearchState) -> bool {
        &&& 0 <= s.next_root <= self.dirs.len()
        &&& forall|i: int|
            0 <= i < s.queue.len() ==> {
                let (p, d) = #[trigger] s.queue[i];
                &&& 0 <= d
                &&& d == 0 ==> self.is_root(p)
                &&& d > 0 ==> d <= self.max_depth && !self.is_excluded(p)
            }
        &&& forall|i: int| 0 <= i < s.results.len() ==> self.is_match(#[trigger] s.results[i])
    }
}

proof fn lemma_matches_in(c: SearchConfig, es: Seq<(Seq<char>, bool)>)
    ensures
        forall|k: int|
            0 <= k < c.matches_in(es).len() ==> c.is_match(#[trigger] c.matches_in(es)[k]),
    decreases es.len(),
{
    if es.len() > 0 {
        let init = c.matches_in(es.drop_last());
        lemma_matches_in(c, es.drop_last());
        assert forall|k: int| 0 <= k < c.matches_in(es).len() implies c.is_match(
            #[trigger] c.matches_in(es)[k],
        ) by {
            if k < init.len() {
                assert(c.matches_in(es)[k] == init[k]);
            }
        }
    }
}

proof fn lemma_subdirs_in(c: SearchConfig, es: Seq<(Seq<char>, bool)>, depth: int)
    ensures
        forall|k: int|
            0 <= k < c.subdirs_in(es, depth).len() ==> {
                let (p, d) = #[trigger] c.subdirs_in(es, depth)[k];
                &&& d == depth + 1
                &&& depth < c.max_depth
                &&& !c.is_excluded(p)
            },
    decreases es.len(),
{
    if es.len() > 0 {
        let init = c.subdirs_in(es.drop_last(), depth);
        lemma_subdirs_in(c, es.drop_last(), depth);
        assert forall|k: int| 0 <= k < c.subdirs_in(es, depth).len() implies {
            let (p, d) = #[trigger] c.subdirs_in(es, depth)[k];
            &&& d == depth + 1
            &&& depth < c.max_depth
            &&& !c.is_excluded(p)
        } by {
            if k < init.len() {
                assert(c.subdirs_in(es, depth)[k] == init[k]);
            }
        }
    }
}

proof fn lemma_step_well_placed(c: SearchConfig, s: SearchState, ev: EventView)
    requires
        c.well_placed(s),
    ensures
        c.well_placed(c.step(s, ev)),
{
    let t = c.step(s, ev);
    match (c.action(s), ev) {
        (ActionView::Probe(root), EventView::Probed(is_dir)) => {
            assert(c.dirs[s.next_root] == root);
            assert forall|i: int| 0 <= i < t.queue.len() implies {
                let (p, d) = #[trigger] t.queue[i];
                &&& 0 <= d
                &&& d == 0 ==> c.is_root(p)
                &&& d > 0 ==> d <= c.max_depth && !c.is_excluded(p)
            } by {
                if i == s.queue.len() {
                    assert(c.is_root(root));
                } else {
                    assert(t.queue[i] == s.queue[i]);
                }
            }
        },
        (ActionView::List(_), EventView::Listed(es)) => {
            let d0 = s.queue[0].1;
            let subs = c.subdirs_in(es, d0);
            lemma_subdirs_in(c, es, d0);
            lemma_matches_in(c, es);
            assert forall|i: int| 0 <= i < t.queue.len() implies {
                let (p, d) = #[trigger] t.queue[i];
                &&& 0 <= d
                &&& d == 0 ==> c.is_root(p)
                &&& d > 0 ==> d <= c.max_depth && !c.is_excluded(p)
            } by {
                if i < s.queue.len() - 1 {
                    assert(t.queue[i] == s.queue[i + 1]);
                } else {
                    assert(t.queue[i] == subs[i - (s.queue.len() - 1)]);
                }
            }
            assert forall|i: int| 0 <= i < t.results.len() implies c.is_match(
                #[trigger] t.results[i],
            ) by {
                if i >= s.results.len() {
                    assert(t.results[i] == c.matches_in(es)[i - s.results.len()]);
                }
            }
        },
        _ => {},
    }
}

/// Every state that a search reaches keeps the order of `well_placed`.
pub proof fn run_is_well_placed(c: SearchConfig, evs: Seq<EventView>)
    ensures
        c.well_placed(c.run(evs)),
    decreases evs.len(),
{
    if evs.len() > 0 {
        run_is_well_placed(c, evs.drop_last());
        lemma_step_well_placed(c, c.run(evs.drop_last()), evs.last());
    }
}

/// Excluded directories are never descended into: whatever the caller
/// answered so far, every directory that waits to be listed below a root is
/// outside the excluded set, so the search asks to list an excluded
/// directory only where it was given as a root.
pub proof fn excluded_dirs_never_descended(c: SearchConfig, evs: Seq<EventView>)
    ensures
        forall|i: int|
            0 <= i < c.run(evs).queue.len() && (#[trigger] c.run(evs).queue[i]).1 > 0
                ==> !c.is_excluded(c.run(evs).queue[i].0),
        forall|p: Seq<char>|
            c.action(c.run(evs)) == ActionView::List(p) && c.is_excluded(p) ==> c.is_root(p),
{
    run_is_well_placed(c, evs);
}

/// With a depth limit of zero (or below) the search lists the roots alone,
/// so every match it reports is a direct entry of a root.
pub proof fn depth_zero_lists_only_roots(c: SearchConfig, evs: Seq<EventView>)
    requires
        c.max_depth <= 0,
    ensures
        forall|i: int|
            0 <= i < c.run(evs).queue.len() ==> (#[trigger] c.run(evs).queue[i]).1 == 0
                && c.is_root(c.run(evs).queue[i].0),
        forall|p: Seq<char>| c.action(c.run(evs)) == ActionView::List(p) ==> c.is_root(p),
{
    run_is_well_placed(c, evs);
}

/// Every directory that a search lists lies within the depth limit below
/// its root.
pub proof fn listing_depth_is_bounded(c: SearchConfig, evs: Seq<EventView>)
    ensures
        forall|i: int|
            0 <= i < c.run(evs).queue.len() ==> 0 <= (#[trigger] c.run(evs).queue[i]).1 && (
            c.run(evs).queue[i].1 == 0 || c.run(evs).queue[i].1 <= c.max_depth),
{
    run_is_well_placed(c, evs);
}

/// Every path that a search reports ends with the search term.
pub proof fn every_result_matches(c: SearchConfig, evs: Seq<EventView>)
    ensures
        forall|i: int|
            0 <= i < c.run(evs).results.len() ==> c.is_match(#[trigger] c.run(evs).results[i]),
{
    run_is_well_placed(c, evs);
}

/// A filesystem as the search sees it: the entries of each directory, each
/// with whether it is a directory, in the order a listing gives them.
pub type Listings = spec_fn(Seq<char>) -> Seq<(Seq<char>, bool)>;

/// Which paths are existing directories.
pub type DirTest = spec_fn(Seq<char>) -> bool;

impl SearchConfig {
    /// Whether `ev` is what a caller sees on `fs` when it performs the
    /// pending action of `s`; once the search is finished any answer will do.
    pub open spec fn answers_truly(
        self,
        fs: Listings,
        is_dir: DirTest,
        s: SearchState,
        ev: EventView,
    ) -> bool {
        match self.action(s) {
            ActionView::Probe(r) => ev == EventView::Probed(is_dir(r)),
            ActionView::List(p) => ev == EventView::Listed(fs(p)),
            ActionView::Finished => true,
        }
    }

    /// Whether every answer in `evs` was true of `fs`.
    pub open spec fn truthful(self, fs: Listings, is_dir: DirTest, evs: Seq<EventView>) -> bool
        decreases evs.len(),
    {
        evs.len() == 0 || (self.truthful(fs, is_dir, evs.drop_last()) && self.answers_truly(
            fs,
            is_dir,
            self.run(evs.drop_last()),
            evs.last(),
        ))
    }

    /// The number of entries that end with the search term in the listing
    /// `es` of a directory at `depth` and, within the depth limit, in the
    /// directories below it that are not excluded.
    pub open spec fn count_below(self, fs: Listings, es: Seq<(Seq<char>, bool)>, depth: int) -> nat
        decreases
            (if depth < self.max_depth {
                self.max_depth - depth
            } else {
                0
            }),
            es.len(),
    {
        if es.len() == 0 {
            0
        } else {
            let e = es.last();
            self.count_below(fs, es.drop_last(), depth) + (if self.is_match(e.0) {
                1nat
            } else {
                0nat
            }) + (if self.descends(e, depth) {
                self.count_below(fs, fs(e.0), depth + 1)
            } else {
                0nat
            })
        }
    }

    /// The matches that listing the queued directories `q` leads to.
    pub open spec fn count_queued(self, fs: Listings, q: Seq<(Seq<char>, int)>) -> nat
        decreases q.len(),
    {
        if q.len() == 0 {
            0
        } else {
            self.count_queued(fs, q.drop_last()) + self.count_below(fs, fs(q.last().0), q.last().1)
        }
    }

    /// The matches reachable from the roots from index `k` on.
    pub open spec fn count_roots_from(self, fs: Listings, is_dir: DirTest, k: int) -> nat
        decreases self.dirs.len() - k,
    {
        if k < 0 || k >= self.dirs.len() {
            0
        } else {
            (if is_dir(self.dirs[k]) {
                self.count_below(fs, fs(self.dirs[k]), 0)
            } else {
                0nat
            }) + self.count_roots_from(fs, is_dir, k + 1)
        }
    }

    /// The number of entries on `fs` that end with the search term and lie
    /// within the depth limit below an existing root, reached without
    /// descending into an excluded directory.
    pub open spec fn reachable_matches(self, fs: Listings, is_dir: DirTest) -> nat {
        self.count_roots_from(fs, is_dir, 0)
    }

    /// What is found so far plus what the state still leads to.
    pub open spec fn accounted(self, fs: Listings, is_dir: DirTest, s: SearchState) -> nat {
        s.results.len() + self.count_queued(fs, s.queue) + self.count_roots_from(
            fs,
            is_dir,
            s.next_root,
        )
    }
}

proof fn lemma_count_queued_append(
    c: SearchConfig,
    fs: Listings,
    a: Seq<(Seq<char>, int)>,
    b: Seq<(Seq<char>, int)>,
)
    ensures
        c.count_queued(fs, a + b) == c.count_queued(fs, a) + c.count_queued(fs, b),
    decreases b.len(),
{
    if b.len() == 0 {
        assert(a + b =~= a);
    } else {
        lemma_count_queued_append(c, fs, a, b.drop_last());
        assert((a + b).drop_last() =~= a + b.drop_last());
    }
}

proof fn lemma_count_queued_front(c: SearchConfig, fs: Listings, q: Seq<(Seq<char>, int)>)
    requires
        q.len() > 0,
    ensures
        c.count_queued(fs, q) == c.count_below(fs, fs(q[0].0), q[0].1) + c.count_queued(
            fs,
            q.drop_first(),
        ),
{
    lemma_count_queued_append(c, fs, seq![q[0]], q.drop_first());
    assert(seq![q[0]] + q.drop_first() =~= q);
    let one = seq![q[0]];
    assert(one.drop_last() =~= Seq::<(Seq<char>, int)>::empty());
    assert(c.count_queued(fs, one.drop_last()) == 0);
    assert(c.count_queued(fs, one) == c.count_below(fs, fs(q[0].0), q[0].1));
}

proof fn lemma_count_below_split(
    c: SearchConfig,
    fs: Listings,
    es: Seq<(Seq<char>, bool)>,
    depth: int,
)
    ensures
        c.count_below(fs, es, depth) == c.matches_in(es).len() + c.count_queued(
            fs,
            c.subdirs_in(es, depth),
        ),
    decreases es.len(),
{
    if es.len() > 0 {
        lemma_count_below_split(c, fs, es.drop_last(), depth);
        let init = c.subdirs_in(es.drop_last(), depth);
        if c.descends(es.last(), depth) {
            assert(c.subdirs_in(es, depth).drop_last() =~= init);
        }
    }
}

proof fn lemma_step_accounted(c: SearchConfig, fs: Listings, is_dir: DirTest, s: SearchState, ev: EventView)
    requires
        c.well_placed(s),
        c.answers_truly(fs, is_dir, s, ev),
    ensures
        c.accounted(fs, is_dir, c.step(s, ev)) == c.accounted(fs, is_dir, s),
{
    match c.action(s) {
        ActionView::Probe(root) => {
            if is_dir(root) {
                assert(s.queue.push((root, 0)).drop_last() =~= s.queue);
            }
        },
        ActionView::List(p) => {
            let es = fs(p);
            let d = s.queue[0].1;
            lemma_count_queued_front(c, fs, s.queue);
            lemma_count_queued_append(c, fs, s.queue.drop_first(), c.subdirs_in(es, d));
            lemma_count_below_split(c, fs, es, d);
        },
        ActionView::Finished => {},
    }
}

proof fn lemma_run_accounted(c: SearchConfig, fs: Listings, is_dir: DirTest, evs: Seq<EventView>)
    requires
        c.truthful(fs, is_dir, evs),
    ensures
        c.accounted(fs, is_dir, c.run(evs)) == c.reachable_matches(fs, is_dir),
    decreases evs.len(),
{
    if evs.len() == 0 {
        assert(c.count_queued(fs, seq![]) == 0);
    } else {
        lemma_run_accounted(c, fs, is_dir, evs.drop_last());
        run_is_well_placed(c, evs.drop_last());
        lemma_step_accounted(c, fs, is_dir, c.run(evs.drop_last()), evs.last());
    }
}

/// A search answered truthfully about a filesystem, once finished, has
/// found every match within reach (every entry that ends with the search
/// term, lies within the depth limit below an existing root and is reached
/// without descending into an excluded directory) unless the cap stopped it;
/// so it found at least as many as the cap whenever that many are in reach.
pub proof fn finished_search_finds_all(
    c: SearchConfig,
    fs: Listings,
    is_dir: DirTest,
    evs: Seq<EventView>,
)
    requires
        c.truthful(fs, is_dir, evs),
        c.action(c.run(evs)) == ActionView::Finished,
    ensures
        !c.cap_reached(c.run(evs)) ==> c.run(evs).results.len() == c.reachable_matches(
            fs,
            is_dir,
        ),
        c.reachable_matches(fs, is_dir) >= c.max_results ==> c.run(evs).results.len()
            >= c.max_results,
{
    lemma_run_accounted(c, fs, is_dir, evs);
    run_is_well_placed(c, evs);
    if !c.cap_reached(c.run(evs)) {
        assert(c.count_queued(fs, c.run(evs).queue) == 0);
    }
}

/// A root that is not an existing directory yields no match and no error:
/// the search goes on with the next root.
pub proof fn missing_root_adds_nothing(c: SearchConfig, s: SearchState, root: Seq<char>)
    requires
        c.action(s) == ActionView::Probe(root),
    ensures
        c.step(s, EventView::Probed(false)) == (SearchState {
            next_root: s.next_root + 1,
            ..s
        }),
{
}

/// Once as many paths were found as the cap allows, the search is finished
/// and nothing the caller hands it changes what it found.
pub proof fn search_stops_at_cap(c: SearchConfig, s: SearchState, ev: EventView)
    requires
        c.cap_reached(s),
    ensures
        c.action(s) == ActionView::Finished,
        c.step(s, ev) == s,
{
}

/// A search that finishes short of the cap has listed every directory it
/// queued and probed every root.
pub proof fn finished_below_cap_is_exhausted(c: SearchConfig, evs: Seq<EventView>)
    requires
        c.action(c.run(evs)) == ActionView::Finished,
        !c.cap_reached(c.run(evs)),
    ensures
        c.run(evs).queue.len() == 0,
        c.run(evs).next_root == c.dirs.len(),
{
    run_is_well_placed(c, evs);
}

/// A listing adds to the results exactly its entries that end with the
/// search term, in listing order, after those found before; the count of
/// results grows by the number of such entries.
pub proof fn listing_adds_its_matches(
    c: SearchConfig,
    s: SearchState,
    dir: Seq<char>,
    es: Seq<(Seq<char>, bool)>,
)
    requires
        c.action(s) == ActionView::List(dir),
    ensures
        c.step(s, EventView::Listed(es)).results == s.results + c.matches_in(es),
        c.step(s, EventView::Listed(es)).results.len() == s.results.len() + es.filter(
            |e: (Seq<char>, bool)| c.is_match(e.0),
        ).len(),
{
    lemma_matches_is_filter(c, es);
}

proof fn lemma_matches_is_filter(c: SearchConfig, es: Seq<(Seq<char>, bool)>)
    ensures
        c.matches_in(es).len() == es.filter(|e: (Seq<char>, bool)| c.is_match(e.0)).len(),
    decreases es.len(),
{
    reveal(Seq::filter);
    if es.len() > 0 {
        lemma_matches_is_filter(c, es.drop_last());
    }
}

} // verus!
