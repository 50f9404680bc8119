//! A model of the tree that the walk works on, and what holds of the tree that it leaves.

use crate::config::Settings;
use crate::walk::{action_for, Action, EntryKind};
use vstd::prelude::*;

verus! {

/// The name of an entry.
pub type Name = Seq<char>;

/// What a directory holds: what stands under each name of an entry.
pub type Dir = Map<Name, Node>;

/// What stands under a name in a directory.
pub enum Node {
    /// A regular file.
    File,
    /// A directory, with what it holds.
    Directory(Dir),
    /// Something that is neither a file nor a directory.
    Other,
}

/// The kind of `node`.
pub open spec fn kind_of(node: Node) -> EntryKind {
    match node {
        Node::File => EntryKind::File,
        Node::Directory(_) => EntryKind::Directory,
        Node::Other => EntryKind::Other,
    }
}

/// Whether `dir` and every directory beneath it hold finitely many entries.
pub open spec fn finite(dir: Dir) -> bool
    decreases dir,
{
    &&& dir.dom().finite()
    &&& forall|name: Name|
        dir.contains_key(name) ==> (#[trigger] dir[name] matches Node::Directory(inner) ==> finite(
            inner,
        ))
}

/// What `path` leads to when it is followed from the directory `dir`, name by name; `None`
/// where a name is missing on the way, or stands for something that is no directory.
pub open spec fn lookup(dir: Dir, path: Seq<Name>) -> Option<Node>
    decreases path.len(),
{
    if path.len() == 0 || !dir.contains_key(path.first()) {
        None
    } else if path.len() == 1 {
        Some(dir[path.first()])
    } else {
        match dir[path.first()] {
            Node::Directory(inner) => lookup(inner, path.drop_first()),
            _ => None,
        }
    }
}

/// Whether the walk deletes the entry `name` of `dir`.
pub open spec fn deleted(dir: Dir, settings: Settings, name: Name) -> bool {
    let action = action_for(settings, name, kind_of(dir[name]));
    action == Action::DeleteFile || action == Action::DeleteDirectory
}

/// What a walk that meets no failure leaves of the directory `dir`.
///
/// It deals with each entry as `action_for` says: an entry that is deleted is gone, with all
/// that it holds; a directory that is walked holds what the walk leaves of it; every other
/// entry is as it was. (Of a directory with infinitely many entries, which no tree on a disk
/// has, it leaves everything.)
pub open spec fn swept(dir: Dir, settings: Settings) -> Dir
    recommends
        finite(dir),
    decreases dir,
{
    if dir.dom().finite() {
        Map::new(
            |name: Name| dir.contains_key(name) && !deleted(dir, settings, name),
            |name: Name|
                match dir[name] {
                    Node::Directory(inner) => if dir.contains_key(name) && action_for(
                        settings,
                        name,
                        EntryKind::Directory,
                    ) == Action::Descend {
                        Node::Directory(swept(inner, settings))
                    } else {
                        dir[name]
                    },
                    node => node,
                },
        )
    } else {
        dir
    }
}

/// The walk leaves a tree that is finite too.
pub proof fn lemma_swept_is_finite(dir: Dir, settings: Settings)
    requires
        finite(dir),
    ensures
        finite(swept(dir, settings)),
    decreases dir,
{
    let after = swept(dir, settings);
    vstd::set_lib::lemma_len_subset(after.dom(), dir.dom());
    assert forall|name: Name| after.contains_key(name) implies (
    #[trigger] after[name] matches Node::Directory(inner) ==> finite(inner)) by {
        if let Node::Directory(inner) = dir[name] {
            lemma_swept_is_finite(inner, settings);
        }
    }
}

/// Every target that stands anywhere in the tree, as a file or as a directory, with no name of
/// the ignore list on the way to it nor as its own, is gone after the walk.
pub proof fn lemma_targets_are_gone(dir: Dir, settings: Settings, path: Seq<Name>)
    requires
        finite(dir),
        path.len() > 0,
        settings.targets.contains(path.last()),
        forall|i: int| 0 <= i < path.len() ==> !settings.ignore.contains(#[trigger] path[i]),
        lookup(dir, path) is Some,
        kind_of(lookup(dir, path)->Some_0) != EntryKind::Other,
    ensures
        lookup(swept(dir, settings), path) is None,
    decreases path.len(),
{
    let name = path.first();
    if path.len() > 1 {
        if let Node::Directory(inner) = dir[name] {
            if !settings.targets.contains(name) {
                let rest = path.drop_first();
                assert forall|i: int| 0 <= i < rest.len() implies !settings.ignore.contains(
                    #[trigger] rest[i],
                ) by {
                    assert(rest[i] == path[i + 1]);
                }
                lemma_targets_are_gone(inner, settings, rest);
            }
        }
    }
}

/// An entry whose name is on the ignore list is after the walk what it was before, with all
/// that it holds, whether or not its name is a target too. This holds of every such entry but
/// those inside a directory that the walk deletes.
///
/// `path` leads to the entry or to something beneath it; `at` is the place in `path` of the name
/// that is on the ignore list; the names before it are the directories in which the entry lies,
/// none of them a target.
pub proof fn lemma_ignored_is_untouched(dir: Dir, settings: Settings, path: Seq<Name>, at: int)
    requires
        finite(dir),
        0 <= at < path.len(),
        settings.ignore.contains(path[at]),
        forall|i: int| 0 <= i < at ==> !settings.targets.contains(#[trigger] path[i]),
    ensures
        lookup(swept(dir, settings), path) == lookup(dir, path),
    decreases path.len(),
{
    let name = path.first();
    if dir.contains_key(name) && !settings.ignore.contains(name) {
        if let Node::Directory(inner) = dir[name] {
            let rest = path.drop_first();
            assert forall|i: int| 0 <= i < at - 1 implies !settings.targets.contains(
                #[trigger] rest[i],
            ) by {
                assert(rest[i] == path[i + 1]);
            }
            lemma_ignored_is_untouched(inner, settings, rest, at - 1);
        }
    }
}

/// A second walk changes nothing: what the walk leaves, it leaves as it is.
pub proof fn lemma_second_walk_changes_nothing(dir: Dir, settings: Settings)
    requires
        finite(dir),
    ensures
        swept(swept(dir, settings), settings) == swept(dir, settings),
    decreases dir,
{
    let once = swept(dir, settings);
    let twice = swept(once, settings);
    lemma_swept_is_finite(dir, settings);
    assert forall|name: Name| once.contains_key(name) implies twice.contains_key(name)
        && twice[name] == once[name] by {
        if let Node::Directory(inner) = dir[name] {
            lemma_second_walk_changes_nothing(inner, settings);
        }
    }
    assert(twice =~= once);
}

/// The walk deletes nothing but targets and what they hold: an entry with no target on the way
/// to it, nor as its own name, is still there after the walk, and is of the kind it was.
pub proof fn lemma_only_targets_are_deleted(dir: Dir, settings: Settings, path: Seq<Name>)
    requires
        finite(dir),
        forall|i: int| 0 <= i < path.len() ==> !settings.targets.contains(#[trigger] path[i]),
        lookup(dir, path) is Some,
    ensures
        lookup(swept(dir, settings), path) is Some,
        kind_of(lookup(swept(dir, settings), path)->Some_0) == kind_of(lookup(dir, path)->Some_0),
    decreases path.len(),
{
    let name = path.first();
    if path.len() > 1 {
        if let Node::Directory(inner) = dir[name] {
            if !settings.ignore.contains(name) {
                let rest = path.drop_first();
                assert forall|i: int| 0 <= i < rest.len() implies !settings.targets.contains(
                    #[trigger] rest[i],
                ) by {
                    assert(rest[i] == path[i + 1]);
                }
                lemma_only_targets_are_deleted(inner, settings, rest);
            }
        }
    }
}

} // verus!
