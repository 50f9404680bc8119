use puge_deps::args::{parse_args, Command};
use puge_deps::config::Configuration;
use puge_deps::walk::{decide, is_target, should_ignore, Action, EntryKind, Event, Request, Walker};

/// A tree in memory, to walk as the program walks a directory.
#[derive(Clone, Debug, PartialEq)]
enum Item {
    File,
    Other,
    Dir(Vec<(String, Item)>),
}

fn kind(item: &Item) -> EntryKind {
    match item {
        Item::File => EntryKind::File,
        Item::Dir(_) => EntryKind::Directory,
        Item::Other => EntryKind::Other,
    }
}

fn file(name: &str) -> (String, Item) {
    (name.to_string(), Item::File)
}

fn other(name: &str) -> (String, Item) {
    (name.to_string(), Item::Other)
}

fn dir(name: &str, entries: Vec<(String, Item)>) -> (String, Item) {
    (name.to_string(), Item::Dir(entries))
}

/// A directory that is open: what is still to be read of it, and what has been read and is
/// still there.
struct Listing {
    name: String,
    unread: std::collections::VecDeque<(String, Item)>,
    read: Vec<(String, Item)>,
}

/// What a walk has done and left.
struct Walked {
    left: Vec<(String, Item)>,
    end: Request,
    removed: Vec<String>,
    inspected: Vec<String>,
    failed_at: Option<String>,
}

fn path_of(open: &[Listing], name: &str) -> String {
    let mut path = String::new();
    for listing in open.iter().skip(1) {
        path.push_str(&listing.name);
        path.push('/');
    }
    path.push_str(name);
    path
}

/// Does to the tree `root` what the walker asks, as the program does to the file system. The
/// entry at the path `fails`, if it is met, cannot be deleted or opened.
fn walk_failing(root: Vec<(String, Item)>, config: &Configuration, fails: Option<&str>) -> Walked {
    let mut walker = Walker::new();
    let mut open: Vec<Listing> = Vec::new();
    let mut met: Option<(String, Item)> = Some((String::new(), Item::Dir(root)));
    let mut removed = Vec::new();
    let mut inspected = Vec::new();
    let mut failed_at = None;
    loop {
        let depth = open.len();
        assert_eq!(walker.path().len(), depth.saturating_sub(1));
        let event = match walker.request() {
            Request::Open => {
                let (name, item) = met.take().expect("nothing to open");
                let path = path_of(&open, &name);
                match item {
                    Item::Dir(entries) if fails != Some(path.as_str()) => {
                        open.push(Listing { name, unread: entries.into(), read: Vec::new() });
                        Event::Opened
                    }
                    item => {
                        met = Some((name, item));
                        failed_at = Some(path);
                        Event::Failed
                    }
                }
            }
            Request::Next => {
                let listing = open.last_mut().expect("nothing is open");
                if let Some(entry) = met.take() {
                    listing.read.push(entry);
                }
                match listing.unread.pop_front() {
                    Some((name, item)) => {
                        met = Some((name.clone(), item));
                        Event::Entry(name)
                    }
                    None => {
                        let done = open.pop().expect("nothing is open");
                        match open.last_mut() {
                            Some(parent) => parent.read.push((done.name, Item::Dir(done.read))),
                            None => met = Some((done.name, Item::Dir(done.read))),
                        }
                        Event::End
                    }
                }
            }
            Request::Inspect => {
                let (name, item) = met.as_ref().expect("nothing to inspect");
                inspected.push(path_of(&open, name));
                Event::Kind(kind(item))
            }
            Request::RemoveFile | Request::RemoveDirectory => {
                let (name, item) = met.take().expect("nothing to delete");
                let path = path_of(&open, &name);
                match (walker.request(), &item) {
                    (Request::RemoveFile, Item::File) | (Request::RemoveDirectory, Item::Dir(_)) => {}
                    (request, item) => panic!("{:?} of {:?}", request, item),
                }
                if fails == Some(path.as_str()) {
                    met = Some((name, item));
                    failed_at = Some(path);
                    Event::Failed
                } else {
                    removed.push(path);
                    Event::Removed
                }
            }
            Request::Finish | Request::Abort => break,
        };
        let asked = walker.advance(config, event);
        assert_eq!(asked, walker.request());
    }
    // What is left: the open directories are put together again, innermost first.
    let mut pending = met;
    while let Some(mut listing) = open.pop() {
        if let Some(entry) = pending.take() {
            listing.read.push(entry);
        }
        listing.read.extend(listing.unread);
        pending = Some((listing.name, Item::Dir(listing.read)));
    }
    let left = match pending {
        Some((_, Item::Dir(entries))) => entries,
        other => panic!("the root is {:?}", other),
    };
    Walked { left, end: walker.request(), removed, inspected, failed_at }
}

fn walk(root: Vec<(String, Item)>, config: &Configuration) -> Vec<(String, Item)> {
    let walked = walk_failing(root, config, None);
    assert_eq!(walked.end, Request::Finish);
    assert_eq!(walked.failed_at, None);
    walked.left
}

/// The paths of the entries that bear the name of a target with no ignored name on the way.
fn exposed_targets(entries: &[(String, Item)], config: &Configuration, found: &mut Vec<String>, prefix: &str) {
    for (name, item) in entries {
        if should_ignore(config, name) {
            continue;
        }
        let path = format!("{}{}", prefix, name);
        if is_target(config, name) && *item != Item::Other {
            found.push(path.clone());
        }
        if let Item::Dir(inner) = item {
            exposed_targets(inner, config, found, &format!("{}/", path));
        }
    }
}

fn project() -> Vec<(String, Item)> {
    vec![
        dir("node_modules", vec![file("index.js"), dir("left-pad", vec![file("package.json"), dir("src", vec![file("a.js")])])]),
        dir("src", vec![file("main.js"), dir("node_modules", vec![file("kept.js")]), file("yarn.lock")]),
        file("README.md"),
        file("package-lock.json"),
        dir("packages", vec![
            dir("a", vec![dir("node_modules", vec![file("x")]), file("yarn.lock"), file("index.js")]),
            dir("b", vec![dir(".git", vec![file("pnpm-lock.yaml")]), file("pnpm-lock.yaml")]),
            other("yarn.lock"),
        ]),
        dir(".github", vec![file("package-lock.json")]),
    ]
}

#[test]
fn default_walk_deletes_the_dependencies_and_keeps_the_sources() {
    let root = vec![
        dir("node_modules", vec![file("index.js"), dir("pkg", vec![file("lib.js")])]),
        dir("src", vec![file("main.js"), file("util.js")]),
        file("README.md"),
    ];
    let config = Configuration::default();
    assert_eq!(decide(&config, "node_modules", EntryKind::Directory), Action::DeleteDirectory);
    assert_eq!(decide(&config, "src", EntryKind::Directory), Action::Skip);
    assert_eq!(decide(&config, "README.md", EntryKind::File), Action::Leave);
    let walked = walk_failing(root, &config, None);
    assert_eq!(walked.end, Request::Finish);
    assert_eq!(walked.removed, vec!["node_modules"]);
    assert_eq!(walked.inspected, vec!["node_modules", "README.md"]);
    assert_eq!(walked.left, vec![dir("src", vec![file("main.js"), file("util.js")]), file("README.md")]);
}

#[test]
fn a_name_from_the_ignore_file_is_kept_everywhere() {
    let config = match parse_args(&vec!["puge-deps".to_string()]) {
        Ok(Command::Run(config)) => config,
        other => panic!("{:?}", other),
    };
    assert!(config.use_ignore_file());
    assert!(!is_target(&config, "dist"));
    assert!(!should_ignore(&config, "dist"));
    let config = config.with_ignore_file_lines(&vec!["dist".to_string()]);
    assert!(should_ignore(&config, "dist"));
    assert_eq!(decide(&config, "dist", EntryKind::Directory), Action::Skip);
    assert_eq!(decide(&config, "dist", EntryKind::File), Action::Skip);
    let root = vec![
        dir("dist", vec![dir("node_modules", vec![file("x")])]),
        dir("app", vec![dir("dist", vec![file("yarn.lock")]), dir("node_modules", vec![])]),
    ];
    assert_eq!(
        walk(root, &config),
        vec![
            dir("dist", vec![dir("node_modules", vec![file("x")])]),
            dir("app", vec![dir("dist", vec![file("yarn.lock")])]),
        ]
    );
}

#[test]
fn without_the_ignore_file_dist_is_walked() {
    let config = Configuration::default();
    assert!(!should_ignore(&config, "dist"));
    assert_eq!(decide(&config, "dist", EntryKind::Directory), Action::Descend);
    let root = vec![dir("dist", vec![dir("node_modules", vec![file("x")]), file("app.js")])];
    assert_eq!(walk(root, &config), vec![dir("dist", vec![file("app.js")])]);
}

#[test]
fn a_failed_deletion_ends_the_walk_and_what_was_deleted_stays_deleted() {
    let root = vec![
        dir("a", vec![dir("node_modules", vec![file("x")]), file("keep")]),
        dir("b", vec![dir("node_modules", vec![file("y")])]),
        dir("c", vec![file("yarn.lock"), dir("node_modules", vec![file("z")]), file("package-lock.json")]),
        dir("d", vec![dir("node_modules", vec![])]),
        file("yarn.lock"),
    ];
    let walked = walk_failing(root, &Configuration::default(), Some("c/node_modules"));
    assert_eq!(walked.end, Request::Abort);
    assert_eq!(walked.failed_at, Some("c/node_modules".to_string()));
    assert_eq!(walked.removed, vec!["a/node_modules", "b/node_modules", "c/yarn.lock"]);
    assert_eq!(
        walked.left,
        vec![
            dir("a", vec![file("keep")]),
            dir("b", vec![]),
            dir("c", vec![dir("node_modules", vec![file("z")]), file("package-lock.json")]),
            dir("d", vec![dir("node_modules", vec![])]),
            file("yarn.lock"),
        ]
    );
}

#[test]
fn a_failed_deletion_among_several_targets_of_one_directory_leaves_the_later_ones() {
    let config = Configuration::default().with_targets("alpha, beta, gamma, delta");
    let root = vec![
        dir("alpha", vec![file("1")]),
        dir("beta", vec![file("2")]),
        file("between"),
        dir("gamma", vec![file("3")]),
        dir("delta", vec![file("4")]),
        dir("other", vec![dir("alpha", vec![])]),
    ];
    let walked = walk_failing(root, &config, Some("gamma"));
    assert_eq!(walked.end, Request::Abort);
    assert_eq!(walked.failed_at, Some("gamma".to_string()));
    assert_eq!(walked.removed, vec!["alpha", "beta"]);
    assert_eq!(walked.inspected, vec!["alpha", "beta", "between", "gamma"]);
    assert_eq!(
        walked.left,
        vec![
            file("between"),
            dir("gamma", vec![file("3")]),
            dir("delta", vec![file("4")]),
            dir("other", vec![dir("alpha", vec![])]),
        ]
    );
}

#[test]
fn a_failed_deletion_of_a_file_ends_the_walk_too() {
    let root = vec![file("yarn.lock"), dir("node_modules", vec![])];
    let walked = walk_failing(root.clone(), &Configuration::default(), Some("yarn.lock"));
    assert_eq!(walked.end, Request::Abort);
    assert_eq!(walked.removed, Vec::<String>::new());
    assert_eq!(walked.left, root);
}

#[test]
fn a_directory_that_cannot_be_listed_ends_the_walk() {
    let root = vec![file("yarn.lock"), dir("locked", vec![dir("node_modules", vec![])]), dir("node_modules", vec![])];
    let walked = walk_failing(root, &Configuration::default(), Some("locked"));
    assert_eq!(walked.end, Request::Abort);
    assert_eq!(walked.failed_at, Some("locked".to_string()));
    assert_eq!(walked.removed, vec!["yarn.lock"]);
    assert_eq!(
        walked.left,
        vec![dir("locked", vec![dir("node_modules", vec![])]), dir("node_modules", vec![])]
    );
}

#[test]
fn a_root_that_cannot_be_listed_ends_the_walk_before_it_begins() {
    let mut walker = Walker::new();
    assert_eq!(walker.request(), Request::Open);
    assert_eq!(walker.advance(&Configuration::default(), Event::Failed), Request::Abort);
    assert_eq!(walker.request(), Request::Abort);
}

#[test]
fn an_entry_that_cannot_be_read_ends_the_walk() {
    let config = Configuration::default();
    let mut walker = Walker::new();
    assert_eq!(walker.advance(&config, Event::Opened), Request::Next);
    assert_eq!(walker.advance(&config, Event::Entry("yarn.lock".to_string())), Request::Inspect);
    assert_eq!(walker.advance(&config, Event::Kind(EntryKind::File)), Request::RemoveFile);
    assert_eq!(walker.advance(&config, Event::Removed), Request::Next);
    assert_eq!(walker.advance(&config, Event::Failed), Request::Abort);
}

#[test]
fn a_walk_that_has_ended_asks_for_nothing_more() {
    let config = Configuration::default();
    for failed in [true, false] {
        let mut walker = Walker::new();
        walker.advance(&config, Event::Opened);
        let end = walker.advance(&config, if failed { Event::Failed } else { Event::End });
        assert_eq!(end, if failed { Request::Abort } else { Request::Finish });
        for event in [
            Event::Opened,
            Event::Entry("node_modules".to_string()),
            Event::Kind(EntryKind::Directory),
            Event::Removed,
            Event::Unreadable,
            Event::End,
            Event::Failed,
        ] {
            assert_eq!(walker.advance(&config, event), end);
            assert_eq!(walker.path(), &Vec::<String>::new());
        }
    }
}

#[test]
fn the_walker_goes_through_a_tree_step_by_step() {
    let config = Configuration::default();
    let mut walker = Walker::new();
    let empty: Vec<String> = Vec::new();
    assert_eq!(walker.request(), Request::Open);
    assert_eq!(walker.path(), &empty);
    assert_eq!(walker.advance(&config, Event::Opened), Request::Next);
    assert_eq!(walker.path(), &empty);
    // An ignored name: nothing is asked about it.
    assert_eq!(walker.advance(&config, Event::Entry(".git".to_string())), Request::Next);
    // A file that is no target.
    assert_eq!(walker.advance(&config, Event::Entry("README.md".to_string())), Request::Inspect);
    assert_eq!(walker.advance(&config, Event::Kind(EntryKind::File)), Request::Next);
    // A directory that is no target is opened at once.
    assert_eq!(walker.advance(&config, Event::Entry("packages".to_string())), Request::Inspect);
    assert_eq!(walker.advance(&config, Event::Kind(EntryKind::Directory)), Request::Open);
    assert_eq!(walker.advance(&config, Event::Opened), Request::Next);
    assert_eq!(walker.path(), &vec!["packages".to_string()]);
    assert_eq!(walker.advance(&config, Event::Entry("a".to_string())), Request::Inspect);
    assert_eq!(walker.advance(&config, Event::Kind(EntryKind::Directory)), Request::Open);
    assert_eq!(walker.advance(&config, Event::Opened), Request::Next);
    assert_eq!(walker.path(), &vec!["packages".to_string(), "a".to_string()]);
    // A target that is a directory.
    assert_eq!(walker.advance(&config, Event::Entry("node_modules".to_string())), Request::Inspect);
    assert_eq!(walker.advance(&config, Event::Kind(EntryKind::Directory)), Request::RemoveDirectory);
    assert_eq!(walker.advance(&config, Event::Removed), Request::Next);
    // A target that is a file.
    assert_eq!(walker.advance(&config, Event::Entry("yarn.lock".to_string())), Request::Inspect);
    assert_eq!(walker.advance(&config, Event::Kind(EntryKind::File)), Request::RemoveFile);
    assert_eq!(walker.advance(&config, Event::Removed), Request::Next);
    // A target that is neither.
    assert_eq!(walker.advance(&config, Event::Entry("pnpm-lock.yaml".to_string())), Request::Inspect);
    assert_eq!(walker.advance(&config, Event::Kind(EntryKind::Other)), Request::Next);
    assert_eq!(walker.advance(&config, Event::End), Request::Next);
    assert_eq!(walker.path(), &vec!["packages".to_string()]);
    assert_eq!(walker.advance(&config, Event::End), Request::Next);
    assert_eq!(walker.path(), &empty);
    assert_eq!(walker.advance(&config, Event::End), Request::Finish);
    assert_eq!(walker.request(), Request::Finish);
}

#[test]
fn an_entry_with_an_unreadable_name_is_passed_over() {
    let config = Configuration::default();
    let mut walker = Walker::new();
    assert_eq!(walker.advance(&config, Event::Opened), Request::Next);
    assert_eq!(walker.advance(&config, Event::Unreadable), Request::Next);
    assert_eq!(walker.path(), &Vec::<String>::new());
    assert_eq!(walker.advance(&config, Event::Entry("yarn.lock".to_string())), Request::Inspect);
    assert_eq!(walker.advance(&config, Event::Kind(EntryKind::File)), Request::RemoveFile);
    assert_eq!(walker.advance(&config, Event::Removed), Request::Next);
    assert_eq!(walker.advance(&config, Event::Unreadable), Request::Next);
    assert_eq!(walker.advance(&config, Event::End), Request::Finish);
}

#[test]
fn an_event_that_answers_nothing_asked_ends_the_walk() {
    let config = Configuration::default();
    let opened = |events: Vec<Event>| {
        let mut walker = Walker::new();
        walker.advance(&config, Event::Opened);
        for event in events {
            walker.advance(&config, event);
        }
        walker
    };
    assert_eq!(Walker::new().advance(&config, Event::End), Request::Abort);
    assert_eq!(Walker::new().advance(&config, Event::Entry("x".to_string())), Request::Abort);
    assert_eq!(Walker::new().advance(&config, Event::Removed), Request::Abort);
    assert_eq!(Walker::new().advance(&config, Event::Unreadable), Request::Abort);
    assert_eq!(Walker::new().advance(&config, Event::Kind(EntryKind::File)), Request::Abort);
    assert_eq!(opened(vec![]).advance(&config, Event::Opened), Request::Abort);
    assert_eq!(opened(vec![]).advance(&config, Event::Removed), Request::Abort);
    assert_eq!(opened(vec![]).advance(&config, Event::Kind(EntryKind::File)), Request::Abort);
    let inspecting = || opened(vec![Event::Entry("yarn.lock".to_string())]);
    assert_eq!(inspecting().request(), Request::Inspect);
    assert_eq!(inspecting().advance(&config, Event::Removed), Request::Abort);
    assert_eq!(inspecting().advance(&config, Event::End), Request::Abort);
    assert_eq!(inspecting().advance(&config, Event::Unreadable), Request::Abort);
    assert_eq!(inspecting().advance(&config, Event::Entry("x".to_string())), Request::Abort);
    let removing = || opened(vec![Event::Entry("yarn.lock".to_string()), Event::Kind(EntryKind::File)]);
    assert_eq!(removing().request(), Request::RemoveFile);
    assert_eq!(removing().advance(&config, Event::Opened), Request::Abort);
    assert_eq!(removing().advance(&config, Event::End), Request::Abort);
    assert_eq!(removing().advance(&config, Event::Kind(EntryKind::File)), Request::Abort);
}

#[test]
fn each_default_target_is_deleted_as_a_file_and_as_a_directory() {
    let config = Configuration::default();
    for name in ["node_modules", "pnpm-lock.yaml", "yarn.lock", "package-lock.json"] {
        assert!(is_target(&config, name));
        assert_eq!(decide(&config, name, EntryKind::File), Action::DeleteFile, "{}", name);
        assert_eq!(decide(&config, name, EntryKind::Directory), Action::DeleteDirectory, "{}", name);
        assert_eq!(decide(&config, name, EntryKind::Other), Action::Leave, "{}", name);
    }
}

#[test]
fn each_default_ignored_name_is_passed_over_whatever_it_is() {
    let config = Configuration::default();
    for name in [".changeset", ".husky", ".git", ".github", "src"] {
        assert!(should_ignore(&config, name));
        for kind in [EntryKind::File, EntryKind::Directory, EntryKind::Other] {
            assert_eq!(decide(&config, name, kind), Action::Skip, "{}", name);
        }
    }
}

#[test]
fn a_name_on_neither_list_is_walked_if_it_is_a_directory_and_left_otherwise() {
    let config = Configuration::default();
    assert_eq!(decide(&config, "packages", EntryKind::Directory), Action::Descend);
    assert_eq!(decide(&config, "index.js", EntryKind::File), Action::Leave);
    assert_eq!(decide(&config, "socket", EntryKind::Other), Action::Leave);
    assert_eq!(decide(&config, "", EntryKind::Directory), Action::Descend);
}

#[test]
fn names_are_matched_whole_and_exactly() {
    let config = Configuration::default();
    for name in ["Node_modules", "node_modules ", "node_modules2", "my-yarn.lock", "SRC", ".gitignore", "src/"] {
        assert!(!is_target(&config, name), "{}", name);
        assert!(!should_ignore(&config, name), "{}", name);
        assert_eq!(decide(&config, name, EntryKind::File), Action::Leave, "{}", name);
    }
}

#[test]
fn the_ignore_list_wins_over_the_targets() {
    let config = Configuration::default().with_ignore("node_modules, keep").with_targets("node_modules,dist,keep");
    assert!(is_target(&config, "node_modules"));
    assert!(should_ignore(&config, "node_modules"));
    assert_eq!(decide(&config, "node_modules", EntryKind::Directory), Action::Skip);
    assert_eq!(decide(&config, "keep", EntryKind::File), Action::Skip);
    assert_eq!(decide(&config, "dist", EntryKind::Directory), Action::DeleteDirectory);
    let root = vec![dir("node_modules", vec![dir("dist", vec![])]), dir("dist", vec![file("keep")]), file("keep")];
    assert_eq!(walk(root, &config), vec![dir("node_modules", vec![dir("dist", vec![])]), file("keep")]);
}

#[test]
fn nothing_is_found_out_about_an_ignored_entry() {
    let walked = walk_failing(project(), &Configuration::default(), None);
    assert_eq!(
        walked.inspected,
        vec![
            "node_modules",
            "README.md",
            "package-lock.json",
            "packages",
            "packages/a",
            "packages/a/node_modules",
            "packages/a/yarn.lock",
            "packages/a/index.js",
            "packages/b",
            "packages/b/pnpm-lock.yaml",
            "packages/yarn.lock",
        ]
    );
}

#[test]
fn after_the_walk_no_exposed_target_is_left() {
    let config = Configuration::default();
    let mut before = Vec::new();
    exposed_targets(&project(), &config, &mut before, "");
    assert_eq!(
        before,
        vec![
            "node_modules",
            "package-lock.json",
            "packages/a/node_modules",
            "packages/a/yarn.lock",
            "packages/b/pnpm-lock.yaml",
        ]
    );
    let walked = walk_failing(project(), &config, None);
    assert_eq!(walked.end, Request::Finish);
    assert_eq!(walked.removed, before);
    let mut left = Vec::new();
    exposed_targets(&walked.left, &config, &mut left, "");
    assert_eq!(left, Vec::<String>::new());
    assert_eq!(
        walked.left,
        vec![
            dir("src", vec![file("main.js"), dir("node_modules", vec![file("kept.js")]), file("yarn.lock")]),
            file("README.md"),
            dir("packages", vec![
                dir("a", vec![file("index.js")]),
                dir("b", vec![dir(".git", vec![file("pnpm-lock.yaml")])]),
                other("yarn.lock"),
            ]),
            dir(".github", vec![file("package-lock.json")]),
        ]
    );
}

#[test]
fn what_lies_under_an_ignored_name_is_as_it_was() {
    let config = Configuration::default();
    let before = project();
    let after = walk(before.clone(), &config);
    for name in ["src", ".github"] {
        let was = before.iter().find(|(n, _)| n == name);
        let is = after.iter().find(|(n, _)| n == name);
        assert!(was.is_some());
        assert_eq!(was, is, "{}", name);
    }
}

#[test]
fn an_ignored_name_inside_a_deleted_directory_goes_with_it() {
    let config = Configuration::default();
    let root = vec![dir("node_modules", vec![dir("src", vec![file("a.js")])])];
    assert_eq!(walk(root, &config), vec![]);
}

#[test]
fn a_second_walk_changes_nothing() {
    for config in [
        Configuration::default(),
        Configuration::default().with_targets("src, README.md, a"),
        Configuration::default().with_ignore("packages").with_more_targets("index.js"),
        Configuration::default().with_ignore("").with_targets(""),
    ] {
        let once = walk(project(), &config);
        let again = walk_failing(once.clone(), &config, None);
        assert_eq!(again.end, Request::Finish);
        assert_eq!(again.removed, Vec::<String>::new());
        assert_eq!(again.left, once);
    }
}

#[test]
fn with_no_target_the_walk_deletes_nothing() {
    let config = Configuration::default().with_targets("");
    assert_eq!(walk(project(), &config), project());
}

#[test]
fn an_empty_root_is_walked_at_once() {
    let walked = walk_failing(vec![], &Configuration::default(), None);
    assert_eq!(walked.end, Request::Finish);
    assert_eq!(walked.left, vec![]);
}

#[test]
fn deciding_twice_gives_the_same_action() {
    let config = Configuration::default();
    for name in ["node_modules", "src", "README.md", "yarn.lock"] {
        for kind in [EntryKind::File, EntryKind::Directory, EntryKind::Other] {
            assert_eq!(decide(&config, name, kind), decide(&config, name, kind));
        }
    }
}
