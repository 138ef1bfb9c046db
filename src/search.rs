use std::collections::VecDeque;
use vstd::prelude::*;

use crate::paths::{ends_with_components, path_ends_with, path_equal, same_path};

verus! {

/// The configuration of a search, as plain mathematical values.
pub struct SearchConfig {
    pub dirs: Seq<Seq<char>>,
    pub excluded: Seq<Seq<char>>,
    pub term: Seq<char>,
    pub max_results: int,
    pub max_depth: int,
}

/// Where a search stands: the next root to probe, the directories of the
/// current root that wait to be listed (each with its depth below the root),
/// and the paths found so far over all roots.
pub struct SearchState {
    pub next_root: int,
    pub queue: Seq<(Seq<char>, int)>,
    pub results: Seq<Seq<char>>,
}

/// What a search asks of its caller next.
pub enum ActionView {
    Probe(Seq<char>),
    List(Seq<char>),
    Finished,
}

/// What the caller saw: whether a root is a directory, or the entries of a
/// listed directory (path and whether it is a directory).
pub enum EventView {
    Probed(bool),
    Listed(Seq<(Seq<char>, bool)>),
}

impl SearchConfig {
    pub open spec fn is_match(self, p: Seq<char>) -> bool {
        ends_with_components(p, self.term)
    }

    pub open spec fn is_excluded(self, p: Seq<char>) -> bool {
        exists|i: int| 0 <= i < self.excluded.len() && path_equal(#[trigger] self.excluded[i], p)
    }

    /// Whether an entry met in a directory at `depth` is queued for listing.
    pub open spec fn descends(self, e: (Seq<char>, bool), depth: int) -> bool {
        depth < self.max_depth && e.1 && !self.is_excluded(e.0)
    }

    /// The paths of a listing that end with the search term, in listing order.
    pub open spec fn matches_in(self, es: Seq<(Seq<char>, bool)>) -> Seq<Seq<char>>
        decreases es.len(),
    {
        if es.len() == 0 {
            seq![]
        } else {
            let init = self.matches_in(es.drop_last());
            if self.is_match(es.last().0) {
                init.push(es.last().0)
            } else {
                init
            }
        }
    }

    /// The directories of a listing at `depth` that are queued, in listing
    /// order, each with its own depth.
    pub open spec fn subdirs_in(self, es: Seq<(Seq<char>, bool)>, depth: int) -> Seq<
        (Seq<char>, int),
    >
        decreases es.len(),
    {
        if es.len() == 0 {
            seq![]
        } else {
            let init = self.subdirs_in(es.drop_last(), depth);
            if self.descends(es.last(), depth) {
                init.push((es.last().0, depth + 1))
            } else {
                init
            }
        }
    }

    pub open spec fn start(self) -> SearchState {
        SearchState { next_root: 0, queue: seq![], results: seq![] }
    }

    pub open spec fn cap_reached(self, s: SearchState) -> bool {
        s.results.len() >= self.max_results
    }

    /// The search stops once the cap is reached; otherwise it lists the
    /// front of the queue, or else probes the next root, or else is done.
    pub open spec fn action(self, s: SearchState) -> ActionView {
        if self.cap_reached(s) {
            ActionView::Finished
        } else if s.queue.len() > 0 {
            ActionView::List(s.queue[0].0)
        } else if 0 <= s.next_root < self.dirs.len() {
            ActionView::Probe(self.dirs[s.next_root])
        } else {
            ActionView::Finished
        }
    }

    /// The state after the caller answers the pending action with `ev`; an
    /// answer that does not fit the pending action changes nothing.
    pub open spec fn step(self, s: SearchState, ev: EventView) -> SearchState {
        match (self.action(s), ev) {
            (ActionView::Probe(root), EventView::Probed(is_dir)) => SearchState {
                next_root: s.next_root + 1,
                queue: if is_dir {
                    s.queue.push((root, 0))
                } else {
                    s.queue
                },
                results: s.results,
            },
            (ActionView::List(_), EventView::Listed(es)) => SearchState {
                next_root: s.next_root,
                queue: s.queue.drop_first() + self.subdirs_in(es, s.queue[0].1),
                results: s.results + self.matches_in(es),
            },
            _ => s,
        }
    }

    /// The state reached from the start by answering with `evs` in turn.
    pub open spec fn run(self, evs: Seq<EventView>) -> SearchState
        decreases evs.len(),
    {
        if evs.len() == 0 {
            self.start()
        } else {
            self.step(self.run(evs.drop_last()), evs.last())
        }
    }
}

/// A search over a set of root directories.
pub struct Searcher {
    pub dirs: Vec<String>,
    pub excluded_dirs: Vec<String>,
    pub search_term: String,
    pub max_results: i32,
    pub max_depth: i32,
}

impl View for Searcher {
    type V = SearchConfig;

    open spec fn view(&self) -> SearchConfig {
        SearchConfig {
            dirs: self.dirs@.map_values(|d: String| d@),
            excluded: self.excluded_dirs@.map_values(|d: String| d@),
            term: self.search_term@,
            max_results: self.max_results as int,
            max_depth: self.max_depth as int,
        }
    }
}

/// One entry of a directory listing.
pub struct Entry {
    pub path: String,
    pub is_dir: bool,
}

impl View for Entry {
    type V = (Seq<char>, bool);

    open spec fn view(&self) -> (Seq<char>, bool) {
        (self.path@, self.is_dir)
    }
}

/// What a search asks of its caller next.
pub enum Action {
    /// Tell whether this root is an existing directory.
    Probe(String),
    /// List the entries of this directory.
    List(String),
    /// The search is over.
    Finished,
}

impl View for Action {
    type V = ActionView;

    open spec fn view(&self) -> ActionView {
        match self {
            Action::Probe(p) => ActionView::Probe(p@),
            Action::List(p) => ActionView::List(p@),
            Action::Finished => ActionView::Finished,
        }
    }
}

/// What the caller saw when it performed an [`Action`].
pub enum Event {
    /// Whether the probed root is an existing directory.
    Probed(bool),
    /// The entries of the listed directory, in the order the system gave them.
    Listed(Vec<Entry>),
}

impl View for Event {
    type V = EventView;

    open spec fn view(&self) -> EventView {
        match self {
            Event::Probed(b) => EventView::Probed(*b),
            Event::Listed(es) => EventView::Listed(es@.map_values(|e: Entry| e@)),
        }
    }
}

impl Searcher {
    /// Whether `p` is one of the excluded directories.
    pub fn is_excluded(&self, p: &String) -> (r: bool)
        ensures
            r == self@.is_excluded(p@),
    {
        let mut i: usize = 0;
        while i < self.excluded_dirs.len()
            invariant
                i <= self.excluded_dirs.len(),
                forall|j: int| 0 <= j < i ==> !path_equal(#[trigger] self@.excluded[j], p@),
            decreases self.excluded_dirs.len() - i,
        {
            if same_path(&self.excluded_dirs[i], p) {
                assert(path_equal(self@.excluded[i as int], p@));
                return true;
            }
            i = i + 1;
        }
        false
    }

    /// Starts a search over the configured roots, in order. The caller
    /// performs each [`Action`] of the returned search and hands back what it
    /// saw, until the action is [`Action::Finished`]; the paths found are then
    /// [`Search::results`].
    pub fn search(&self) -> (r: Search<'_>)
        ensures
            r.config() == self@,
            r@ == self@.start(),
    {
        let r = Search { searcher: self, next_root: 0, queue: VecDeque::new(), results: Vec::new() };
        assert(r@.queue =~= seq![]);
        assert(r@.results =~= seq![]);
        r
    }
}

/// A search under way: which roots are left, which directories of the
/// current root wait to be listed, and what was found so far.
pub struct Search<'a> {
    searcher: &'a Searcher,
    next_root: usize,
    queue: VecDeque<(String, i32)>,
    results: Vec<String>,
}

impl<'a> View for Search<'a> {
    type V = SearchState;

    closed spec fn view(&self) -> SearchState {
        SearchState {
            next_root: self.next_root as int,
            queue: self.queue@.map_values(|q: (String, i32)| (q.0@, q.1 as int)),
            results: self.results@.map_values(|r: String| r@),
        }
    }
}

impl<'a> Search<'a> {
    /// The configuration this search runs under.
    pub closed spec fn config(&self) -> SearchConfig {
        self.searcher@
    }

    /// Whether as many paths were found as the configuration allows.
    pub fn cap_reached(&self) -> (r: bool)
        ensures
            r == self.config().cap_reached(self@),
    {
        self.searcher.max_results <= 0 || self.results.len() >= self.searcher.max_results as usize
    }

    /// What the search asks of its caller next.
    pub fn action(&self) -> (r: Action)
        ensures
            r@ == self.config().action(self@),
    {
        if self.cap_reached() {
            Action::Finished
        } else if self.queue.len() > 0 {
            Action::List(self.queue[0].0.clone())
        } else if self.next_root < self.searcher.dirs.len() {
            Action::Probe(self.searcher.dirs[self.next_root].clone())
        } else {
            Action::Finished
        }
    }

    /// The paths found so far, in the order they were found.
    pub fn results(&self) -> (r: &Vec<String>)
        ensures
            r@.map_values(|p: String| p@) == self@.results,
    {
        &self.results
    }

    /// Takes the paths found, ending the search.
    pub fn into_results(self) -> (r: Vec<String>)
        ensures
            r@.map_values(|p: String| p@) == self@.results,
    {
        self.results
    }

    /// Records the listing of a directory at `depth`: its subdirectories to
    /// descend into join the back of the queue, and its matches join the
    /// results, both in listing order.
    fn record_listing(&mut self, entries: &Vec<Entry>, depth: i32)
        ensures
            final(self).searcher == old(self).searcher,
            final(self).next_root == old(self).next_root,
            final(self)@.queue == old(self)@.queue + old(self).config().subdirs_in(
                entries@.map_values(|e: Entry| e@),
                depth as int,
            ),
            final(self)@.results == old(self)@.results + old(self).config().matches_in(
                entries@.map_values(|e: Entry| e@),
            ),
    {
        let searcher = self.searcher;
        let ghost cfg = searcher@;
        let ghost es = entries@.map_values(|e: Entry| e@);
        let ghost q0 = self@.queue;
        let ghost r0 = self@.results;
        let mut i: usize = 0;
        while i < entries.len()
            invariant
                i <= entries.len(),
                self.searcher == searcher,
                self.next_root == old(self).next_root,
                cfg == searcher@,
                es == entries@.map_values(|e: Entry| e@),
                self@.queue == q0 + cfg.subdirs_in(es.subrange(0, i as int), depth as int),
                self@.results == r0 + cfg.matches_in(es.subrange(0, i as int)),
            decreases entries.len() - i,
        {
            let e = &entries[i];
            let ghost done = es.subrange(0, i as int);
            assert(es.subrange(0, i + 1).drop_last() =~= done);
            assert(es.subrange(0, i + 1).last() == e@);
            if depth < searcher.max_depth && e.is_dir && !searcher.is_excluded(&e.path) {
                let ghost before = self.queue@;
                self.queue.push_back((e.path.clone(), depth + 1));
                assert(self.queue@.map_values(|q: (String, i32)| (q.0@, q.1 as int)) =~= before.map_values(
                    |q: (String, i32)| (q.0@, q.1 as int),
                ).push((e.path@, depth + 1)));
            }
            if path_ends_with(&e.path, &searcher.search_term) {
                let ghost before = self.results@;
                self.results.push(e.path.clone());
                assert(self.results@.map_values(|r: String| r@) =~= before.map_values(
                    |r: String| r@,
                ).push(e.path@));
            }
            i = i + 1;
        }
        assert(es.subrange(0, entries.len() as int) =~= es);
    }

    /// Answers the pending action with what the caller saw, and returns the
    /// next action. An answer that does not fit the pending action (a listing
    /// where a probe was asked, or any answer once the search is finished)
    /// changes nothing.
    pub fn resume(&mut self, event: Event) -> (r: Action)
        ensures
            final(self).config() == old(self).config(),
            final(self)@ == old(self).config().step(old(self)@, event@),
            r@ == final(self).config().action(final(self)@),
    {
        let searcher = self.searcher;
        let ghost s0 = self@;
        match event {
            Event::Probed(is_dir) => {
                if !self.cap_reached() && self.queue.len() == 0 && self.next_root
                    < searcher.dirs.len() {
                    if is_dir {
                        let ghost before = self.queue@;
                        self.queue.push_back((searcher.dirs[self.next_root].clone(), 0));
                        assert(self.queue@.map_values(|q: (String, i32)| (q.0@, q.1 as int))
                            =~= before.map_values(|q: (String, i32)| (q.0@, q.1 as int)).push(
                            (searcher@.dirs[s0.next_root], 0),
                        ));
                    }
                    self.next_root = self.next_root + 1;
                }
            },
            Event::Listed(entries) => {
                if !self.cap_reached() && self.queue.len() > 0 {
                    let (_dir, depth) = self.queue.pop_front().unwrap();
                    assert(self@.queue =~= s0.queue.drop_first());
                    self.record_listing(&entries, depth);
                }
            },
        }
        assert(self@ =~= old(self).config().step(s0, event@));
        self.action()
    }
}

} // verus!
