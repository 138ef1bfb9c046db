use dirsearch::{Action, Entry, Event, Searcher};

/// A directory tree held in memory: each directory with its entries, as full
/// paths with whether each is a directory. A path is a directory exactly when
/// it has a line here.
type Tree = [(&'static str, &'static [(&'static str, bool)])];

fn listing(tree: &Tree, dir: &str) -> Vec<Entry> {
    let (_, entries) = tree
        .iter()
        .find(|(d, _)| *d == dir)
        .unwrap_or_else(|| panic!("asked to list {dir}, which is not a directory"));
    entries
        .iter()
        .map(|(p, is_dir)| Entry { path: p.to_string(), is_dir: *is_dir })
        .collect()
}

/// Runs a search to the end over `tree`, returning what it found and the
/// directories it listed, in order.
fn run(searcher: &Searcher, tree: &Tree) -> (Vec<String>, Vec<String>) {
    let mut search = searcher.search();
    let mut listed = Vec::new();
    let mut action = search.action();
    loop {
        let event = match action {
            Action::Probe(root) => Event::Probed(tree.iter().any(|(d, _)| *d == root)),
            Action::List(dir) => {
                let entries = listing(tree, &dir);
                listed.push(dir);
                Event::Listed(entries)
            }
            Action::Finished => break,
        };
        action = search.resume(event);
    }
    (search.into_results(), listed)
}

fn searcher(dirs: &[&str], excluded: &[&str], term: &str, max_results: i32, max_depth: i32) -> Searcher {
    Searcher {
        dirs: dirs.iter().map(|d| d.to_string()).collect(),
        excluded_dirs: excluded.iter().map(|d| d.to_string()).collect(),
        search_term: term.to_string(),
        max_results,
        max_depth,
    }
}

const SMALL: &Tree = &[
    ("/tmp/t", &[("/tmp/t/a", true), ("/tmp/t/Dev", true)]),
    ("/tmp/t/a", &[("/tmp/t/a/Dev", false), ("/tmp/t/a/b", true)]),
    ("/tmp/t/a/b", &[("/tmp/t/a/b/Dev", false)]),
    ("/tmp/t/Dev", &[]),
];

#[test]
fn depth_limit_keeps_deeper_matches_out() {
    let s = searcher(&["/tmp/t"], &[], "Dev", 10, 1);
    let (found, _) = run(&s, SMALL);
    assert_eq!(found, vec!["/tmp/t/Dev", "/tmp/t/a/Dev"]);
}

#[test]
fn excluded_directory_blocks_its_subtree() {
    let s = searcher(&["/tmp/t"], &["/tmp/t/a"], "Dev", 10, 100);
    let (found, listed) = run(&s, SMALL);
    assert_eq!(found, vec!["/tmp/t/Dev"]);
    assert!(!listed.contains(&"/tmp/t/a".to_string()));
}

#[test]
fn whole_tree_within_depth() {
    let s = searcher(&["/tmp/t"], &[], "Dev", 10, 100);
    let (found, _) = run(&s, SMALL);
    assert_eq!(found, vec!["/tmp/t/Dev", "/tmp/t/a/Dev", "/tmp/t/a/b/Dev"]);
}

#[test]
fn excluded_path_compares_by_components() {
    let s = searcher(&["/tmp/t"], &["/tmp/t/a/"], "Dev", 10, 100);
    let (found, _) = run(&s, SMALL);
    assert_eq!(found, vec!["/tmp/t/Dev"]);
}

#[test]
fn excluded_match_is_reported_but_not_entered() {
    let tree: &Tree = &[
        ("/r", &[("/r/Dev", true)]),
        ("/r/Dev", &[("/r/Dev/x/Dev", false)]),
    ];
    let s = searcher(&["/r"], &["/r/Dev"], "Dev", 10, 5);
    let (found, listed) = run(&s, tree);
    assert_eq!(found, vec!["/r/Dev"]);
    assert_eq!(listed, vec!["/r"]);
}

#[test]
fn excluded_root_is_still_listed() {
    let s = searcher(&["/tmp/t/a"], &["/tmp/t/a"], "Dev", 10, 0);
    let (found, _) = run(&s, SMALL);
    assert_eq!(found, vec!["/tmp/t/a/Dev"]);
}

#[test]
fn depth_zero_reports_direct_children_only() {
    let s = searcher(&["/tmp/t"], &[], "Dev", 10, 0);
    let (found, listed) = run(&s, SMALL);
    assert_eq!(found, vec!["/tmp/t/Dev"]);
    assert_eq!(listed, vec!["/tmp/t"]);
}

#[test]
fn missing_root_yields_nothing() {
    let s = searcher(&["/nowhere", "/tmp/t/a/b"], &[], "Dev", 10, 3);
    let (found, listed) = run(&s, SMALL);
    assert_eq!(found, vec!["/tmp/t/a/b/Dev"]);
    assert_eq!(listed, vec!["/tmp/t/a/b"]);
}

#[test]
fn file_root_yields_nothing() {
    let s = searcher(&["/tmp/t/a/Dev"], &[], "Dev", 10, 3);
    let (found, listed) = run(&s, SMALL);
    assert!(found.is_empty());
    assert!(listed.is_empty());
}

#[test]
fn suffix_match_is_by_whole_components() {
    let tree: &Tree = &[(
        "/x",
        &[("/x/ADev", false), ("/x/Dev", false), ("/x/Dev.txt", false), ("/x/a", true)],
    ), ("/x/a", &[("/x/a/Dev", false)])];
    let s = searcher(&["/x"], &[], "Dev", 10, 3);
    let (found, _) = run(&s, tree);
    assert_eq!(found, vec!["/x/Dev", "/x/a/Dev"]);
}

#[test]
fn term_of_several_components() {
    let tree: &Tree = &[
        ("/x", &[("/x/Dev", false), ("/x/a", true)]),
        ("/x/a", &[("/x/a/Dev", false)]),
    ];
    let s = searcher(&["/x"], &[], "a/Dev", 10, 3);
    let (found, _) = run(&s, tree);
    assert_eq!(found, vec!["/x/a/Dev"]);
}

#[test]
fn order_is_breadth_first() {
    let tree: &Tree = &[
        ("/r", &[("/r/x", true), ("/r/y", true)]),
        ("/r/x", &[("/r/x/z", true), ("/r/x/Dev", false)]),
        ("/r/y", &[("/r/y/Dev", false)]),
        ("/r/x/z", &[("/r/x/z/Dev", false)]),
    ];
    let s = searcher(&["/r"], &[], "Dev", 10, 5);
    let (found, listed) = run(&s, tree);
    assert_eq!(found, vec!["/r/x/Dev", "/r/y/Dev", "/r/x/z/Dev"]);
    assert_eq!(listed, vec!["/r", "/r/x", "/r/y", "/r/x/z"]);
}

#[test]
fn cap_finishes_the_listing_then_stops() {
    let tree: &Tree = &[
        ("/r", &[("/r/s", true), ("/r/1/Dev", false), ("/r/2/Dev", false), ("/r/3/Dev", false)]),
        ("/r/s", &[("/r/s/Dev", false)]),
        ("/q", &[("/q/Dev", false)]),
    ];
    let s = searcher(&["/r", "/q"], &[], "Dev", 2, 5);
    let (found, listed) = run(&s, tree);
    assert_eq!(found, vec!["/r/1/Dev", "/r/2/Dev", "/r/3/Dev"]);
    assert_eq!(listed, vec!["/r"]);
}

#[test]
fn cap_holds_across_roots() {
    let tree: &Tree = &[
        ("/p", &[("/p/Dev", false)]),
        ("/q", &[("/q/Dev", false)]),
        ("/r", &[("/r/Dev", false)]),
    ];
    let s = searcher(&["/p", "/q", "/r"], &[], "Dev", 2, 1);
    let (found, listed) = run(&s, tree);
    assert_eq!(found, vec!["/p/Dev", "/q/Dev"]);
    assert_eq!(listed, vec!["/p", "/q"]);
}

#[test]
fn enough_matches_reach_the_cap() {
    let tree: &Tree = &[
        ("/r", &[("/r/a", true), ("/r/b", true)]),
        ("/r/a", &[("/r/a/Dev", false)]),
        ("/r/b", &[("/r/b/Dev", false)]),
    ];
    let s = searcher(&["/r"], &[], "Dev", 2, 3);
    let (found, _) = run(&s, tree);
    assert!(found.len() >= 2);
    assert_eq!(found, vec!["/r/a/Dev", "/r/b/Dev"]);
}

#[test]
fn no_cap_means_no_search() {
    let s = searcher(&["/tmp/t"], &[], "Dev", 0, 3);
    let search = s.search();
    assert!(matches!(search.action(), Action::Finished));
    assert!(search.results().is_empty());
}

#[test]
fn search_starts_by_probing_the_first_root() {
    let s = searcher(&["/p", "/q"], &[], "Dev", 1, 1);
    match s.search().action() {
        Action::Probe(root) => assert_eq!(root, "/p"),
        _ => panic!("expected a probe"),
    }
}

#[test]
fn answer_that_does_not_fit_changes_nothing() {
    let s = searcher(&["/tmp/t"], &[], "Dev", 10, 1);
    let mut search = s.search();
    let action = search.resume(Event::Listed(vec![Entry { path: "/tmp/t/Dev".to_string(), is_dir: false }]));
    assert!(matches!(action, Action::Probe(ref r) if r == "/tmp/t"));
    assert!(search.results().is_empty());
    let action = search.resume(Event::Probed(true));
    assert!(matches!(action, Action::List(ref d) if d == "/tmp/t"));
    let action = search.resume(Event::Probed(true));
    assert!(matches!(action, Action::List(ref d) if d == "/tmp/t"));
}

#[test]
fn excluded_lookup() {
    let s = searcher(&[], &["/a/b", "/c"], "Dev", 1, 1);
    assert!(s.is_excluded(&"/a/b".to_string()));
    assert!(s.is_excluded(&"/a//b/".to_string()));
    assert!(!s.is_excluded(&"/a".to_string()));
    assert!(!s.is_excluded(&"/a/b/c".to_string()));
}
