//! Bounded breadth-first search for filesystem entries whose path ends with
//! a search term.
//!
//! The library holds every decision of the search and none of its I/O: a
//! [`Search`] names the next thing to look at on disk ([`Action`]), and the
//! caller hands back what it saw ([`Event`]) until the search is finished.
mod paths;
mod search;
pub mod guarantees;

pub use search::{Action, ActionView, Entry, Event, EventView, Search, SearchConfig, SearchState, Searcher};
