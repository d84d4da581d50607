use file_finder::exclusion::ExclusionSet;
use file_finder::pattern::Pattern;
use file_finder::text::expand_home;
use file_finder::walk::{select_paths, Entry, Search, SearchError, WorkQueue};

/// A directory tree in memory: each directory with its entries, each entry
/// a name and whether it is a directory; `None` stands for an unreadable entry.
type Tree<'a> = Vec<(&'a str, Vec<Option<(&'a str, bool)>>)>;

fn listing(tree: &Tree, dir: &str) -> Vec<Option<Entry>> {
    match tree.iter().find(|(d, _)| *d == dir) {
        Some((_, entries)) => entries
            .iter()
            .map(|e| {
                e.map(|(name, is_dir)| Entry {
                    path: format!("{}/{}", dir, name),
                    name: name.to_string(),
                    is_dir,
                })
            })
            .collect(),
        None => Vec::new(),
    }
}

fn walk(search: &Search, tree: &Tree, root: &str) -> (Vec<String>, Vec<String>) {
    let mut queue = WorkQueue::new(root.to_string());
    let mut found = Vec::new();
    let mut listed = Vec::new();
    while let Some(dir) = queue.next() {
        let visit = search.visit_dir(&listing(tree, &dir));
        listed.push(dir);
        found.extend(visit.reported);
        queue.push_all(visit.descend);
    }
    found.sort();
    (found, listed)
}

fn sample_tree() -> Tree<'static> {
    vec![
        ("root", vec![Some(("a", true)), Some(("b", true)), Some(("top.txt", false))]),
        ("root/a", vec![Some(("x.txt", false)), Some(("y.md", false))]),
        ("root/b", vec![Some(("y.txt", false))]),
    ]
}

#[test]
fn exclusion_prunes_subtree() {
    let tree: Tree = vec![
        ("root", vec![Some(("a", true)), Some(("b", true))]),
        ("root/a", vec![Some(("x.txt", false))]),
        ("root/b", vec![Some(("y.txt", false))]),
    ];
    let search = Search::from_args("*.txt", "b").unwrap();
    let (found, listed) = walk(&search, &tree, "root");
    assert_eq!(found, vec!["root/a/x.txt".to_string()]);
    assert!(!listed.iter().any(|d| d.starts_with("root/b")));
}

#[test]
fn excluded_directory_is_still_reported() {
    let search = Search::from_args("b", "b").unwrap();
    let (found, _) = walk(&search, &sample_tree(), "root");
    assert_eq!(found, vec!["root/b".to_string()]);
}

#[test]
fn unreadable_entry_does_not_stop_the_walk() {
    let tree: Tree = vec![
        ("root", vec![Some(("a", true)), None, Some(("c.txt", false))]),
        ("root/a", vec![None, Some(("x.txt", false))]),
    ];
    let search = Search::from_args("*.txt", "").unwrap();
    let (found, _) = walk(&search, &tree, "root");
    assert_eq!(found, vec!["root/a/x.txt".to_string(), "root/c.txt".to_string()]);
}

#[test]
fn unreadable_root_yields_nothing() {
    let search = Search::from_args("*", "").unwrap();
    let (found, _) = walk(&search, &sample_tree(), "missing");
    assert!(found.is_empty());
}

#[test]
fn repeated_walk_finds_the_same_paths() {
    let search = Search::from_args("*.txt,*.md", "").unwrap();
    let tree = sample_tree();
    let mut reversed = sample_tree();
    for (_, entries) in reversed.iter_mut() {
        entries.reverse();
    }
    let first = walk(&search, &tree, "root").0;
    let second = walk(&search, &tree, "root").0;
    let third = walk(&search, &reversed, "root").0;
    assert_eq!(first, second);
    assert_eq!(first, third);
    assert_eq!(first.len(), 4);
}

#[test]
fn no_match_is_empty() {
    let search = Search::from_args("*.pdf", "").unwrap();
    let (found, listed) = walk(&search, &sample_tree(), "root");
    assert!(found.is_empty());
    assert_eq!(listed.len(), 3);
}

#[test]
fn directory_matching_pattern_is_reported_and_descended() {
    let tree: Tree = vec![
        ("root", vec![Some(("docs", true))]),
        ("root/docs", vec![Some(("docs", false))]),
    ];
    let search = Search::from_args("docs", "").unwrap();
    let (found, _) = walk(&search, &tree, "root");
    assert_eq!(found, vec!["root/docs".to_string(), "root/docs/docs".to_string()]);
}

#[test]
fn visit_entry_flags() {
    let search = Search::from_args("*.txt", "skip").unwrap();
    let file = Entry { path: "r/a.txt".to_string(), name: "a.txt".to_string(), is_dir: false };
    let dir = Entry { path: "r/skip.txt".to_string(), name: "skip.txt".to_string(), is_dir: true };
    let kept = Entry { path: "r/keep".to_string(), name: "keep".to_string(), is_dir: true };
    assert_eq!(search.visit_entry(&file), (true, false));
    assert_eq!(search.visit_entry(&dir), (true, false));
    assert_eq!(search.visit_entry(&kept), (false, true));
}

#[test]
fn search_errors() {
    assert!(matches!(Search::from_args("*", "[oops"), Err(SearchError::Exclusion(_))));
    let long = "a".repeat(4_000_000);
    assert!(matches!(Search::from_args(&long, ""), Err(SearchError::Pattern(_))));
}

#[test]
fn queue_operations() {
    let mut q = WorkQueue::new("r".to_string());
    assert!(!q.is_empty());
    q.push_all(vec!["r/a".to_string(), "r/b".to_string()]);
    assert_eq!(q.next(), Some("r/b".to_string()));
    assert_eq!(q.take_all(), vec!["r".to_string(), "r/a".to_string()]);
    assert!(q.is_empty());
    assert_eq!(q.next(), None);
}

#[test]
fn home_expansion() {
    assert_eq!(expand_home("~/src", "/home/u"), "/home/u/src");
    assert_eq!(expand_home("~", "/home/u"), "/home/u");
    assert_eq!(expand_home("/tmp/~x", "/home/u"), "/tmp/~x");
    assert_eq!(expand_home("", "/home/u"), "");
}

#[test]
fn select_paths_keeps_flagged_readable_entries() {
    let entry = |p: &str, d: bool| Some(Entry { path: p.to_string(), name: p.to_string(), is_dir: d });
    let listing = vec![entry("a", false), None, entry("c", true), entry("d", false)];
    assert_eq!(
        select_paths(&listing, &vec![true, true, false, true]),
        vec!["a".to_string(), "d".to_string()]
    );
    assert_eq!(select_paths(&listing, &vec![false; 4]), Vec::<String>::new());
}

#[test]
fn search_from_compiled_parts() {
    let search = Search::new(Pattern::compile("*.rs").unwrap(), ExclusionSet::parse("target").unwrap());
    let (found, listed) = walk(
        &search,
        &vec![
            ("p", vec![Some(("src", true)), Some(("target", true))]),
            ("p/src", vec![Some(("lib.rs", false))]),
            ("p/target", vec![Some(("gen.rs", false))]),
        ],
        "p",
    );
    assert_eq!(found, vec!["p/src/lib.rs".to_string()]);
    assert_eq!(listed.len(), 2);
}

#[test]
fn exclusion_failure_comes_before_pattern_failure() {
    let long = "a".repeat(4_000_000);
    assert!(matches!(Search::from_args(&long, "(bad"), Err(SearchError::Exclusion(_))));
    assert!(Search::from_args("(", "[a-z]+").is_ok());
}
