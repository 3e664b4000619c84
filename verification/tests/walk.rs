use rfind::args::{Args, FileType};
use rfind::entry::{Entry, EntryKind, Metadata};
use rfind::walk::{Step, Walk};

struct Node {
    name: &'static str,
    kind: EntryKind,
    listing: Option<Vec<Node>>,
}

fn file(name: &'static str) -> Node {
    Node { name, kind: EntryKind::File, listing: None }
}

fn dir(name: &'static str, children: Vec<Node>) -> Node {
    Node { name, kind: EntryKind::Dir, listing: Some(children) }
}

fn locked_dir(name: &'static str) -> Node {
    Node { name, kind: EntryKind::Dir, listing: None }
}

fn entries(nodes: &[Node]) -> Vec<Entry> {
    nodes
        .iter()
        .map(|n| Entry {
            name: Some(n.name.to_string()),
            kind: n.kind,
            meta: Some(Metadata { mode: 0o644, uid: 1000 }),
        })
        .collect()
}

fn search(args: &Args, root: &'static str, top: &[Node]) -> (Vec<String>, Vec<String>) {
    let mut reported: Vec<String> = Vec::new();
    let mut visited: Vec<String> = Vec::new();
    let mut open: Vec<(String, &[Node])> = vec![(root.to_string(), top)];
    let mut walk = Walk::new();
    walk.enter(Some(entries(top)));
    loop {
        match walk.next(args) {
            Step::Done => break,
            Step::Visit { depth, index, report, descend } => {
                open.truncate(depth + 1);
                let node = &open[depth].1[index];
                let path = format!("{}/{}", open[depth].0, node.name);
                visited.push(path.clone());
                if report {
                    reported.push(path.clone());
                }
                if descend {
                    match &node.listing {
                        Some(children) => {
                            walk.enter(Some(entries(children)));
                            open.push((path, children));
                        }
                        None => walk.enter(None),
                    }
                }
            }
        }
    }
    assert_eq!(walk.depth(), 0);
    (reported, visited)
}

fn sorted(mut v: Vec<String>) -> Vec<String> {
    v.sort();
    v
}

#[test]
fn text_files_of_a_small_tree_are_found_in_every_listing_order() {
    let args = Args {
        types: vec![FileType::File],
        name: Some("*.txt".to_string()),
        ..Default::default()
    };
    let expected = vec!["root/a.txt".to_string(), "root/sub/b.txt".to_string()];
    let one = vec![file("a.txt"), dir("sub", vec![file("b.txt"), file("c.log")])];
    let two = vec![dir("sub", vec![file("c.log"), file("b.txt")]), file("a.txt")];
    assert_eq!(sorted(search(&args, "root", &one).0), expected);
    assert_eq!(sorted(search(&args, "root", &two).0), expected);
    assert_eq!(search(&args, "root", &one).0, vec!["root/a.txt", "root/sub/b.txt"]);
    assert_eq!(search(&args, "root", &two).0, vec!["root/sub/b.txt", "root/a.txt"]);
}

#[test]
fn unreadable_directory_hides_only_its_own_subtree() {
    let args = Args::default();
    let top = vec![
        file("before"),
        dir("outer", vec![file("x"), locked_dir("locked"), file("y"), dir("open", vec![file("z")])]),
        file("after"),
    ];
    let (reported, _) = search(&args, "r", &top);
    assert_eq!(
        reported,
        vec![
            "r/before",
            "r/outer",
            "r/outer/x",
            "r/outer/locked",
            "r/outer/y",
            "r/outer/open",
            "r/outer/open/z",
            "r/after",
        ]
    );
}

#[test]
fn directories_are_entered_whether_reported_or_not() {
    let top = vec![dir("skip.d", vec![file("keep.txt"), dir("deep", vec![file("also.txt")])])];
    let files = Args {
        types: vec![FileType::File],
        name: Some("*.txt".to_string()),
        ..Default::default()
    };
    let (reported, visited) = search(&files, "r", &top);
    assert_eq!(reported, vec!["r/skip.d/keep.txt", "r/skip.d/deep/also.txt"]);
    assert_eq!(
        visited,
        vec!["r/skip.d", "r/skip.d/keep.txt", "r/skip.d/deep", "r/skip.d/deep/also.txt"]
    );
    let dirs = Args { types: vec![FileType::Dir], ..Default::default() };
    assert_eq!(search(&dirs, "r", &top).0, vec!["r/skip.d", "r/skip.d/deep"]);
    assert_eq!(search(&dirs, "r", &top).1, visited);
}

#[test]
fn a_directory_is_reported_before_its_entries() {
    let args = Args::default();
    let top = vec![dir("a", vec![dir("b", vec![file("c")]), file("d")]), file("e")];
    assert_eq!(search(&args, "r", &top).0, vec!["r/a", "r/a/b", "r/a/b/c", "r/a/d", "r/e"]);
}

#[test]
fn malformed_pattern_reports_nothing_and_still_walks_the_tree() {
    let args = Args { name: Some("[".to_string()), ..Default::default() };
    let top = vec![file("["), dir("sub", vec![file("a")])];
    let (reported, visited) = search(&args, "r", &top);
    assert!(reported.is_empty());
    assert_eq!(visited, vec!["r/[", "r/sub", "r/sub/a"]);
}

#[test]
fn steps_name_the_listing_and_the_place() {
    let args = Args { types: vec![FileType::Dir], ..Default::default() };
    let mut walk = Walk::new();
    assert_eq!(walk.next(&args), Step::Done);
    walk.enter(Some(entries(&[file("f"), locked_dir("d")])));
    assert_eq!(walk.depth(), 1);
    assert_eq!(walk.next(&args), Step::Visit { depth: 0, index: 0, report: false, descend: false });
    assert_eq!(walk.next(&args), Step::Visit { depth: 0, index: 1, report: true, descend: true });
    walk.enter(Some(entries(&[file("g")])));
    assert_eq!(walk.depth(), 2);
    assert_eq!(walk.next(&args), Step::Visit { depth: 1, index: 0, report: false, descend: false });
    assert_eq!(walk.next(&args), Step::Done);
    assert_eq!(walk.depth(), 0);
    assert_eq!(walk.next(&args), Step::Done);
}

#[test]
fn empty_and_unreadable_listings_are_passed_over() {
    let args = Args::default();
    let mut walk = Walk::new();
    walk.enter(None);
    assert_eq!(walk.depth(), 0);
    walk.enter(Some(Vec::new()));
    assert_eq!(walk.depth(), 1);
    assert_eq!(walk.next(&args), Step::Done);
    assert_eq!(walk.depth(), 0);
}

#[test]
fn a_step_names_the_entry_that_was_judged() {
    let args = Args {
        types: vec![FileType::File],
        name: Some("b*".to_string()),
        ..Default::default()
    };
    let names = ["a", "b1", "c", "b2"];
    let listing: Vec<Entry> = names
        .iter()
        .map(|n| Entry { name: Some(n.to_string()), kind: EntryKind::File, meta: None })
        .collect();
    let mut walk = Walk::new();
    walk.enter(Some(listing.clone()));
    let mut seen = Vec::new();
    loop {
        match walk.next(&args) {
            Step::Done => break,
            Step::Visit { depth, index, report, descend } => {
                assert_eq!(depth, 0);
                assert!(!descend);
                assert_eq!(report, args.matches_all(&listing[index]));
                if report {
                    seen.push(names[index]);
                }
            }
        }
    }
    assert_eq!(seen, vec!["b1", "b2"]);
}

