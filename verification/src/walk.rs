//! The walk: what it does with an entry that it meets, and what it asks for, step by step.

use crate::config::{Configuration, Settings};
use crate::list::contains_name;
use vstd::prelude::*;

verus! {

/// What kind of thing an entry of a directory is.
#[derive(Clone, Copy, Debug, PartialEq, Eq, Structural)]
pub enum EntryKind {
    /// A regular file.
    File,
    /// A directory.
    Directory,
    /// Neither of the two.
    Other,
}

/// What the walk does with one entry.
#[derive(Clone, Copy, Debug, PartialEq, Eq, Structural)]
pub enum Action {
    /// The entry is on the ignore list: it is not deleted and nothing beneath it is looked at.
    Skip,
    /// The entry is a target and a file: the file is deleted.
    DeleteFile,
    /// The entry is a target and a directory: it is deleted with all that it holds.
    DeleteDirectory,
    /// The entry is a directory that is neither ignored nor a target: the walk goes on inside.
    Descend,
    /// The entry is left as it is.
    Leave,
}

/// What the walk does with an entry called `name` of kind `kind`. The ignore list is asked
/// first, so a name that is on both lists is passed over; the targets are asked next; a
/// directory that is on neither list is walked.
pub open spec fn action_for(settings: Settings, name: Seq<char>, kind: EntryKind) -> Action {
    if settings.ignore.contains(name) {
        Action::Skip
    } else if settings.targets.contains(name) {
        match kind {
            EntryKind::File => Action::DeleteFile,
            EntryKind::Directory => Action::DeleteDirectory,
            EntryKind::Other => Action::Leave,
        }
    } else if kind == EntryKind::Directory {
        Action::Descend
    } else {
        Action::Leave
    }
}

/// Tells whether `folder_name` is on the ignore list of `config`.
pub fn should_ignore(config: &Configuration, folder_name: &str) -> (ignored: bool)
    ensures
        ignored == config@.ignore.contains(folder_name@),
{
    contains_name(config.ignore(), folder_name)
}

/// Tells whether `name` is one of the targets of `config`.
pub fn is_target(config: &Configuration, name: &str) -> (target: bool)
    ensures
        target == config@.targets.contains(name@),
{
    contains_name(config.targets(), name)
}

/// Decides what the walk does with an entry called `name` of kind `kind`.
pub fn decide(config: &Configuration, name: &str, kind: EntryKind) -> (action: Action)
    ensures
        action == action_for(config@, name@, kind),
{
    if should_ignore(config, name) {
        Action::Skip
    } else if is_target(config, name) {
        match kind {
            EntryKind::File => Action::DeleteFile,
            EntryKind::Directory => Action::DeleteDirectory,
            EntryKind::Other => Action::Leave,
        }
    } else {
        match kind {
            EntryKind::Directory => Action::Descend,
            _ => Action::Leave,
        }
    }
}

/// What the walker asks the program to do next.
#[derive(Clone, Copy, Debug, PartialEq, Eq, Structural)]
pub enum Request {
    /// To open the listing of a directory: of the root when the walk begins, and later of the
    /// entry that was inspected last.
    Open,
    /// To read the next entry of the directory that was opened last and is still open, or to
    /// close that directory where it has no further entry.
    Next,
    /// To find out of what kind the entry is that was read last.
    Inspect,
    /// To delete the entry that was read last, a file.
    RemoveFile,
    /// To delete the entry that was read last, a directory, with all that it holds.
    RemoveDirectory,
    /// Nothing more: the walk is complete.
    Finish,
    /// Nothing more: the walk has failed.
    Abort,
}

/// What the program tells the walker after it has done what it was asked.
#[derive(Debug, PartialEq, Eq)]
pub enum Event {
    /// The directory is open.
    Opened,
    /// The next entry of the directory has this name.
    Entry(String),
    /// The next entry of the directory has a name that cannot be read as text.
    Unreadable,
    /// The directory had no further entry and is closed.
    End,
    /// The entry is of this kind.
    Kind(EntryKind),
    /// The entry is deleted.
    Removed,
    /// What was asked could not be done.
    Failed,
}

/// What the program tells the walker, as plain values.
pub enum EventView {
    Opened,
    Entry(Seq<char>),
    Unreadable,
    End,
    Kind(EntryKind),
    Removed,
    Failed,
}

impl View for Event {
    type V = EventView;

    open spec fn view(&self) -> EventView {
        match self {
            Event::Opened => EventView::Opened,
            Event::Entry(name) => EventView::Entry(name@),
            Event::Unreadable => EventView::Unreadable,
            Event::End => EventView::End,
            Event::Kind(kind) => EventView::Kind(*kind),
            Event::Removed => EventView::Removed,
            Event::Failed => EventView::Failed,
        }
    }
}

/// Where a walk stands, as plain values.
pub struct WalkState {
    /// The names of the directories beneath the root that are open, the outermost first.
    pub path: Seq<Seq<char>>,
    /// The name of the entry that was read last and is not dealt with yet.
    pub met: Option<Seq<char>>,
    /// What the program has been asked to do.
    pub request: Request,
}

/// Where a walk begins: nothing is open, and the root is to be opened.
pub open spec fn begin() -> WalkState {
    WalkState { path: Seq::empty(), met: None, request: Request::Open }
}

/// Where the walk stands after `event`, if it stood at `state` before.
///
/// A directory is walked entry by entry. The name of an entry is held against the ignore list
/// before anything else is found out about it; what is done with an entry that is not ignored
/// is what `action_for` says of its name and kind. An entry whose name cannot be read as text is
/// passed over: it is neither deleted nor walked. A directory that is walked is opened at once,
/// before the entries that follow it are read. The walk is complete when the root has no further
/// entry. A failure ends the walk, whatever was asked; nothing that was deleted before is put
/// back. So does an event that does not answer what was asked. A walk that has ended stays
/// where it is.
pub open spec fn step(state: WalkState, settings: Settings, event: EventView) -> WalkState {
    let next = WalkState { met: None, request: Request::Next, ..state };
    let failed = WalkState { met: None, request: Request::Abort, ..state };
    match (state.request, event) {
        (Request::Finish, _) | (Request::Abort, _) => state,
        (_, EventView::Failed) => failed,
        (Request::Open, EventView::Opened) => match state.met {
            Some(name) => WalkState { path: state.path.push(name), ..next },
            None => next,
        },
        (Request::Next, EventView::Entry(name)) => if settings.ignore.contains(name) {
            next
        } else {
            WalkState { met: Some(name), request: Request::Inspect, ..state }
        },
        (Request::Next, EventView::Unreadable) => next,
        (Request::Next, EventView::End) => if state.path.len() == 0 {
            WalkState { met: None, request: Request::Finish, ..state }
        } else {
            WalkState { path: state.path.drop_last(), ..next }
        },
        (Request::Inspect, EventView::Kind(kind)) => match state.met {
            Some(name) => match action_for(settings, name, kind) {
                Action::DeleteFile => WalkState { request: Request::RemoveFile, ..state },
                Action::DeleteDirectory => WalkState { request: Request::RemoveDirectory, ..state },
                Action::Descend => WalkState { request: Request::Open, ..state },
                Action::Skip | Action::Leave => next,
            },
            None => failed,
        },
        (Request::RemoveFile, EventView::Removed) | (Request::RemoveDirectory, EventView::Removed) => next,
        _ => failed,
    }
}

/// A walk in progress. It makes the decisions; the program does the work: it does what the
/// walker asks and tells it how that went, until the walker asks for nothing more.
#[derive(Debug)]
pub struct Walker {
    path: Vec<String>,
    met: Option<String>,
    request: Request,
}

impl View for Walker {
    type V = WalkState;

    closed spec fn view(&self) -> WalkState {
        WalkState {
            path: self.path.deep_view(),
            met: match self.met {
                Some(name) => Some(name@),
                None => None,
            },
            request: self.request,
        }
    }
}

impl Walker {
    /// A walk that is about to begin.
    pub fn new() -> (walker: Walker)
        ensures
            walker@ == begin(),
    {
        let walker = Walker { path: Vec::new(), met: None, request: Request::Open };
        assert(walker.path.deep_view() == Seq::<Seq<char>>::empty());
        walker
    }

    /// What the program is asked to do.
    pub fn request(&self) -> (request: Request)
        ensures
            request == self@.request,
    {
        self.request
    }

    /// The names of the directories beneath the root that are open, the outermost first.
    pub fn path(&self) -> (path: &Vec<String>)
        ensures
            path.deep_view() == self@.path,
    {
        &self.path
    }

    /// Takes in what the program tells, and says what it is to do next.
    pub fn advance(&mut self, config: &Configuration, event: Event) -> (request: Request)
        ensures
            final(self)@ == step(old(self)@, config@, event@),
            request == final(self)@.request,
    {
        let ghost before = self.path.deep_view();
        match self.request {
            Request::Finish | Request::Abort => {
                return self.request;
            },
            _ => {},
        }
        match (self.request, event) {
            (_, Event::Failed) => {
                self.met = None;
                self.request = Request::Abort;
            },
            (Request::Open, Event::Opened) => {
                match self.met.take() {
                    Some(name) => {
                        self.path.push(name);
                        assert(self.path.deep_view() == before.push(name@));
                    },
                    None => {},
                }
                self.request = Request::Next;
            },
            (Request::Next, Event::Entry(name)) => {
                if should_ignore(config, name.as_str()) {
                    self.met = None;
                } else {
                    self.met = Some(name);
                    self.request = Request::Inspect;
                }
            },
            (Request::Next, Event::Unreadable) => {
                self.met = None;
            },
            (Request::Next, Event::End) => {
                self.met = None;
                if self.path.len() == 0 {
                    self.request = Request::Finish;
                } else {
                    self.path.pop();
                    assert(self.path.deep_view() == before.drop_last());
                }
            },
            (Request::Inspect, Event::Kind(kind)) => {
                let action = match &self.met {
                    Some(name) => Some(decide(config, name.as_str(), kind)),
                    None => None,
                };
                match action {
                    Some(Action::DeleteFile) => {
                        self.request = Request::RemoveFile;
                    },
                    Some(Action::DeleteDirectory) => {
                        self.request = Request::RemoveDirectory;
                    },
                    Some(Action::Descend) => {
                        self.request = Request::Open;
                    },
                    Some(Action::Skip) | Some(Action::Leave) => {
                        self.met = None;
                        self.request = Request::Next;
                    },
                    None => {
                        self.request = Request::Abort;
                    },
                }
            },
            (Request::RemoveFile, Event::Removed) | (Request::RemoveDirectory, Event::Removed) => {
                self.met = None;
                self.request = Request::Next;
            },
            _ => {
                self.met = None;
                self.request = Request::Abort;
            },
        }
        self.request
    }
}

/// Whether the walk has ended at `state`, complete or failed.
pub open spec fn ended(state: WalkState) -> bool {
    state.request == Request::Finish || state.request == Request::Abort
}

/// A failure ends the walk at once: the walker asks for nothing more, and no event brings it to
/// ask for anything again.
pub proof fn lemma_failure_ends_the_walk(state: WalkState, settings: Settings, later: EventView)
    requires
        state.request != Request::Finish,
    ensures
        step(state, settings, EventView::Failed).request == Request::Abort,
        step(step(state, settings, EventView::Failed), settings, later) == step(
            state,
            settings,
            EventView::Failed,
        ),
{
}

/// The walker asks to delete nothing but a target that is not on the ignore list: a file where
/// the entry is a file, a directory where it is a directory.
pub proof fn lemma_only_targets_are_removed(state: WalkState, settings: Settings, event: EventView)
    requires
        !ended(state),
        state.request != step(state, settings, event).request,
        step(state, settings, event).request == Request::RemoveFile || step(
            state,
            settings,
            event,
        ).request == Request::RemoveDirectory,
    ensures
        state.request == Request::Inspect,
        state.met is Some,
        step(state, settings, event).met == state.met,
        settings.targets.contains(state.met->Some_0),
        !settings.ignore.contains(state.met->Some_0),
        event is Kind,
        event->Kind_0 == EntryKind::File <==> step(state, settings, event).request
            == Request::RemoveFile,
        event->Kind_0 == EntryKind::Directory <==> step(state, settings, event).request
            == Request::RemoveDirectory,
{
}

/// An entry whose name is on the ignore list is passed over as soon as its name is read:
/// nothing is found out about it, and it is neither opened nor deleted.
pub proof fn lemma_ignored_is_passed_over(state: WalkState, settings: Settings, name: Seq<char>)
    requires
        state.request == Request::Next,
        settings.ignore.contains(name),
    ensures
        step(state, settings, EventView::Entry(name)).request == Request::Next,
        step(state, settings, EventView::Entry(name)).met is None,
        step(state, settings, EventView::Entry(name)).path == state.path,
{
}

} // verus!
