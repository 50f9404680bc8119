//! The walker at work on the model of a tree: driven step by step by a program that does what
//! it is asked, it leaves of the tree what `swept` says.

use crate::config::Settings;
use crate::tree::{
    finite, kind_of, lemma_ignored_is_untouched, lemma_second_walk_changes_nothing,
    lemma_swept_is_finite, lemma_targets_are_gone, lookup, swept, Dir, Name, Node,
};
use crate::walk::{begin, step, EntryKind, EventView, Request, WalkState};
use vstd::prelude::*;

verus! {

/// A way to list directories: the names of the entries of each directory, in the order in which
/// the program reads them.
pub type Order = spec_fn(Dir) -> Seq<Name>;

/// Whether `order` lists every directory in full: for a directory with finitely many entries it
/// gives the name of each entry once, and no other name.
pub open spec fn lists_in_full(order: Order) -> bool {
    forall|dir: Dir|
        dir.dom().finite() ==> (#[trigger] order(dir)).no_duplicates() && order(dir).to_set()
            == dir.dom()
}

/// Where a walk stands and what it has left of a directory.
pub struct Run {
    pub state: WalkState,
    pub left: Dir,
}

/// What comes of reading the entry `name` of the directory `dir`, when the walk stands at
/// `state` and `left` is what is left of `dir` so far.
///
/// The program tells the walker the name of the entry and, when asked, its kind. Asked to
/// delete the entry, it takes it out of `left` and says so. Asked to open it, it says so, reads
/// the entries of that directory in the order that `order` gives, closes it, and puts what is
/// left of it in the place of the entry.
pub open spec fn run_entry(
    state: WalkState,
    settings: Settings,
    order: Order,
    dir: Dir,
    name: Name,
    left: Dir,
) -> Run
    decreases dir, 0nat,
{
    let read = step(state, settings, EventView::Entry(name));
    let seen = step(read, settings, EventView::Kind(kind_of(dir[name])));
    if read.request != Request::Inspect {
        Run { state: read, left }
    } else if seen.request == Request::RemoveFile || seen.request == Request::RemoveDirectory {
        Run { state: step(seen, settings, EventView::Removed), left: left.remove(name) }
    } else if seen.request == Request::Open && dir.dom().finite() && dir.contains_key(name) {
        match dir[name] {
            Node::Directory(inner) => {
                let opened = step(seen, settings, EventView::Opened);
                let inside = run_entries(opened, settings, order, inner, order(inner), inner);
                Run {
                    state: step(inside.state, settings, EventView::End),
                    left: left.insert(name, Node::Directory(inside.left)),
                }
            },
            _ => Run { state: seen, left },
        }
    } else {
        Run { state: seen, left }
    }
}

/// What comes of reading the entries `names` of the directory `dir` one after the other, each
/// as `run_entry` says.
pub open spec fn run_entries(
    state: WalkState,
    settings: Settings,
    order: Order,
    dir: Dir,
    names: Seq<Name>,
    left: Dir,
) -> Run
    decreases dir, names.len(),
{
    if names.len() == 0 {
        Run { state, left }
    } else {
        let done = run_entry(state, settings, order, dir, names.first(), left);
        run_entries(done.state, settings, order, dir, names.drop_first(), done.left)
    }
}

/// What comes of a whole walk of the directory `root`: the program opens the root, reads its
/// entries in the order that `order` gives, and closes it.
pub open spec fn run(settings: Settings, order: Order, root: Dir) -> Run {
    let opened = step(begin(), settings, EventView::Opened);
    let inside = run_entries(opened, settings, order, root, order(root), root);
    Run { state: step(inside.state, settings, EventView::End), left: inside.left }
}

/// Whether `a` and `b` hold the same under `name`: both nothing, or both the same node.
spec fn same_at(a: Dir, b: Dir, name: Name) -> bool {
    a.contains_key(name) == b.contains_key(name) && (a.contains_key(name) ==> a[name] == b[name])
}

/// Reading all the entries of a directory, from the moment it was opened to the moment it is
/// closed, leaves of it what `swept` says and brings the walker back to where it stood before
/// the directory was opened.
proof fn lemma_run_directory(state: WalkState, settings: Settings, order: Order, dir: Dir)
    requires
        finite(dir),
        lists_in_full(order),
        state.request == Request::Next,
        state.met is None,
    ensures
        run_entries(state, settings, order, dir, order(dir), dir).state == state,
        run_entries(state, settings, order, dir, order(dir), dir).left == swept(dir, settings),
    decreases dir, order(dir).len() + 1,
{
    let names = order(dir);
    let end = run_entries(state, settings, order, dir, names, dir);
    assert forall|i: int| 0 <= i < names.len() implies dir.contains_key(#[trigger] names[i]) by {
        assert(names.to_set().contains(names[i]));
    }
    lemma_run_entries(state, settings, order, dir, names, dir);
    assert forall|name: Name| same_at(end.left, swept(dir, settings), name) by {
        if !names.contains(name) {
            assert(!names.to_set().contains(name));
            assert(same_at(end.left, dir, name));
        }
    }
    assert(end.left =~= swept(dir, settings));
}

/// Reading an entry of a directory that is still as it was leaves it as `swept` says, does not
/// touch the other entries, and brings the walker back to where it stood: waiting for the next
/// entry of the same directory.
proof fn lemma_run_entry(
    state: WalkState,
    settings: Settings,
    order: Order,
    dir: Dir,
    name: Name,
    left: Dir,
)
    requires
        finite(dir),
        lists_in_full(order),
        state.request == Request::Next,
        state.met is None,
        dir.contains_key(name),
        same_at(left, dir, name),
    ensures
        run_entry(state, settings, order, dir, name, left).state == state,
        same_at(run_entry(state, settings, order, dir, name, left).left, swept(dir, settings), name),
        forall|other: Name|
            other != name ==> same_at(
                #[trigger] run_entry(state, settings, order, dir, name, left).left,
                left,
                other,
            ),
    decreases dir, 0nat,
{
    let read = step(state, settings, EventView::Entry(name));
    let seen = step(read, settings, EventView::Kind(kind_of(dir[name])));
    if read.request == Request::Inspect && seen.request == Request::Open {
        match dir[name] {
            Node::Directory(inner) => {
                let opened = step(seen, settings, EventView::Opened);
                lemma_run_directory(opened, settings, order, inner);
                assert(opened.path.drop_last() == state.path);
            },
            _ => {},
        }
    }
}

/// Reading entries of a directory that are still as they were leaves them as `swept` says, does
/// not touch the other entries, and brings the walker back to where it stood.
proof fn lemma_run_entries(
    state: WalkState,
    settings: Settings,
    order: Order,
    dir: Dir,
    names: Seq<Name>,
    left: Dir,
)
    requires
        finite(dir),
        lists_in_full(order),
        state.request == Request::Next,
        state.met is None,
        names.no_duplicates(),
        forall|i: int| 0 <= i < names.len() ==> dir.contains_key(#[trigger] names[i]),
        forall|i: int| 0 <= i < names.len() ==> same_at(left, dir, #[trigger] names[i]),
    ensures
        run_entries(state, settings, order, dir, names, left).state == state,
        forall|name: Name|
            names.contains(name) ==> same_at(
                #[trigger] run_entries(state, settings, order, dir, names, left).left,
                swept(dir, settings),
                name,
            ),
        forall|name: Name|
            !names.contains(name) ==> same_at(
                #[trigger] run_entries(state, settings, order, dir, names, left).left,
                left,
                name,
            ),
    decreases dir, names.len(),
{
    if names.len() > 0 {
        let first = names.first();
        let rest = names.drop_first();
        let done = run_entry(state, settings, order, dir, first, left);
        let end = run_entries(done.state, settings, order, dir, rest, done.left);
        assert(dir.contains_key(names[0]) && same_at(left, dir, names[0]));
        lemma_run_entry(state, settings, order, dir, first, left);
        assert forall|i: int| 0 <= i < rest.len() implies dir.contains_key(#[trigger] rest[i])
            && same_at(done.left, dir, rest[i]) by {
            assert(rest[i] == names[i + 1] && names[i + 1] != names[0]);
            assert(same_at(left, dir, names[i + 1]));
        }
        lemma_run_entries(done.state, settings, order, dir, rest, done.left);
        assert forall|name: Name| names.contains(name) implies same_at(
            end.left,
            swept(dir, settings),
            name,
        ) by {
            if !rest.contains(name) {
                let i = choose|i: int| 0 <= i < names.len() && names[i] == name;
                if i > 0 {
                    assert(rest[i - 1] == name);
                }
                assert(same_at(end.left, done.left, name));
            }
        }
        assert forall|name: Name| !names.contains(name) implies same_at(end.left, left, name) by {
            if rest.contains(name) {
                let i = choose|i: int| 0 <= i < rest.len() && rest[i] == name;
                assert(names[i + 1] == name);
            }
            assert(name != names[0]);
            assert(same_at(end.left, done.left, name));
        }
    }
}

/// A walk that meets no failure comes to its end, with nothing open, and leaves of the tree
/// what `swept` says, in whatever order the directories are listed.
pub proof fn lemma_run_leaves_swept(settings: Settings, order: Order, root: Dir)
    requires
        finite(root),
        lists_in_full(order),
    ensures
        run(settings, order, root).left == swept(root, settings),
        run(settings, order, root).state == (WalkState {
            path: Seq::empty(),
            met: None,
            request: Request::Finish,
        }),
{
    lemma_run_directory(step(begin(), settings, EventView::Opened), settings, order, root);
}

/// Every finite set of names can be put in a sequence that holds each of them once.
proof fn lemma_to_seq_lists_in_full(names: Set<Name>)
    requires
        names.finite(),
    ensures
        names.to_seq().no_duplicates(),
        names.to_seq().to_set() == names,
    decreases names.len(),
{
    names.lemma_to_seq_to_set_id();
    if names.len() > 0 {
        let first = names.choose();
        let rest = names.remove(first);
        lemma_to_seq_lists_in_full(rest);
        let listed = names.to_seq();
        let tail = rest.to_seq();
        assert(listed == seq![first] + tail);
        assert forall|i: int, j: int| 0 <= i < listed.len() && 0 <= j < listed.len() && i != j
            implies listed[i] != listed[j] by {
            // Every name of the tail is in `rest`, so none of them is `first`.
            if i > 0 {
                assert(tail.to_set().contains(tail[i - 1]));
            }
            if j > 0 {
                assert(tail.to_set().contains(tail[j - 1]));
            }
        }
    }
}

/// There is a way to list every directory in full, so what is proved of all such ways is
/// proved of something.
pub proof fn lemma_directories_can_be_listed()
    ensures
        lists_in_full(|dir: Dir| dir.dom().to_seq()),
{
    assert forall|dir: Dir| dir.dom().finite() implies dir.dom().to_seq().no_duplicates()
        && dir.dom().to_seq().to_set() == dir.dom() by {
        lemma_to_seq_lists_in_full(dir.dom());
    }
}

/// After a walk that meets no failure, every target that stood anywhere in the tree, as a file
/// or as a directory, with no name of the ignore list on the way to it nor as its own, is gone.
pub proof fn lemma_walk_deletes_the_targets(
    settings: Settings,
    order: Order,
    root: Dir,
    path: Seq<Name>,
)
    requires
        finite(root),
        lists_in_full(order),
        path.len() > 0,
        settings.targets.contains(path.last()),
        forall|i: int| 0 <= i < path.len() ==> !settings.ignore.contains(#[trigger] path[i]),
        lookup(root, path) is Some,
        kind_of(lookup(root, path)->Some_0) != EntryKind::Other,
    ensures
        lookup(run(settings, order, root).left, path) is None,
{
    lemma_run_leaves_swept(settings, order, root);
    lemma_targets_are_gone(root, settings, path);
}

/// After a walk that meets no failure, an entry whose name is on the ignore list is what it was
/// before, with all that it holds, whether or not its name is a target too. This holds of every
/// such entry but those inside a directory that the walk deletes.
///
/// `path` leads to the entry or to something beneath it; `at` is the place in `path` of the name
/// that is on the ignore list; the names before it are the directories in which the entry lies,
/// none of them a target.
pub proof fn lemma_walk_keeps_the_ignored(
    settings: Settings,
    order: Order,
    root: Dir,
    path: Seq<Name>,
    at: int,
)
    requires
        finite(root),
        lists_in_full(order),
        0 <= at < path.len(),
        settings.ignore.contains(path[at]),
        forall|i: int| 0 <= i < at ==> !settings.targets.contains(#[trigger] path[i]),
    ensures
        lookup(run(settings, order, root).left, path) == lookup(root, path),
{
    lemma_run_leaves_swept(settings, order, root);
    lemma_ignored_is_untouched(root, settings, path, at);
}

/// A second walk, right after a first that met no failure, changes nothing, in whatever order
/// either of them finds the directories listed.
pub proof fn lemma_second_walk_is_idle(
    settings: Settings,
    first: Order,
    second: Order,
    root: Dir,
)
    requires
        finite(root),
        lists_in_full(first),
        lists_in_full(second),
    ensures
        run(settings, second, run(settings, first, root).left).left == run(
            settings,
            first,
            root,
        ).left,
{
    lemma_run_leaves_swept(settings, first, root);
    lemma_swept_is_finite(root, settings);
    lemma_run_leaves_swept(settings, second, swept(root, settings));
    lemma_second_walk_changes_nothing(root, settings);
}

} // verus!
