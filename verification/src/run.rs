//! One archiving run as a state machine. The caller does the work on the
//! file system; the run decides what is done next.
//!
//! A run starts idle. It asks for the directory listing, collects the dated
//! entries, names the archive, has every entry but the last stored in it,
//! has the archive finalized and ends finalized itself. Any failure that is
//! reported to it ends it as failed.

use crate::archive::{archive_name_of, plan, stored, text_of};
use crate::collect::{
    all_dated, collect, dated, entry_views, is_first_undated, name_views, outcomes_of, DatedEntry,
    DatedEntryView,
};
use crate::failure::{Failure, FailureView, FAILURE_EXIT_CODE, SUCCESS_EXIT_CODE};
use crate::order::{is_stable_sort_of, lemma_sort_permutes, lemma_sort_unique};
use vstd::prelude::*;

verus! {

/// Where a run stands.
#[derive(Clone, Copy, Debug, PartialEq, Eq, Structural)]
pub enum Phase {
    /// Nothing has been asked for yet.
    Idle,
    /// The directory listing is awaited.
    Collecting,
    /// The archive is named and its creation is awaited.
    Naming,
    /// An entry is being stored, or the archive is being finalized.
    Writing,
    /// The run is over and has succeeded.
    Finalized,
    /// The run is over and has failed.
    Failed,
}

/// What a run is asked to do. It is set once and never changed.
#[derive(Clone, Debug, PartialEq, Eq)]
pub struct Settings {
    /// The date format that file names must match.
    pub format: String,
    /// Strict parsing: a file name that does not match fails the run.
    pub strict: bool,
    /// Whether a source file is deleted once it is stored.
    pub remove: bool,
    /// The name of the archive, where it is not to be derived.
    pub zip_name: Option<String>,
}

/// Settings with their texts as sequences of characters.
pub struct SettingsView {
    pub format: Seq<char>,
    pub strict: bool,
    pub remove: bool,
    pub zip_name: Option<Seq<char>>,
}

impl View for Settings {
    type V = SettingsView;

    open spec fn view(&self) -> SettingsView {
        SettingsView {
            format: self.format@,
            strict: self.strict,
            remove: self.remove,
            zip_name: text_of(self.zip_name),
        }
    }
}

impl Default for Settings {
    /// Daily logs named `YYYY-MM-DD.log`, lenient parsing, sources deleted,
    /// the archive named after its span.
    fn default() -> (s: Settings)
        ensures
            s@ == (SettingsView {
                format: "%Y-%m-%d.log"@,
                strict: false,
                remove: true,
                zip_name: None,
            }),
    {
        Settings {
            format: String::from_str("%Y-%m-%d.log"),
            strict: false,
            remove: true,
            zip_name: None,
        }
    }
}

/// What the caller reports to the run.
#[derive(Debug, PartialEq, Eq)]
pub enum Event {
    /// The run is to start.
    Begin,
    /// The directory was listed; these are the names of its entries.
    Listed { names: Vec<String> },
    /// The directory could not be listed.
    ListFailed { detail: String },
    /// The archive was created and is open.
    SinkOpened,
    /// The archive could not be created.
    SinkFailed { detail: String },
    /// The entry was stored and, where that was asked for, its source was
    /// deleted or the attempt was made.
    Staged,
    /// The source file of the entry could not be read.
    ReadFailed { detail: String },
    /// The entry could not be written into the archive, or the archive
    /// could not be finalized.
    WriteFailed { detail: String },
    /// The archive was finalized.
    SinkClosed,
}

/// What the run asks of the caller.
#[derive(Debug, PartialEq, Eq)]
pub enum Action {
    /// List the directory and report `Listed` or `ListFailed`.
    ListDirectory,
    /// Create the archive `name` and report `SinkOpened` or `SinkFailed`.
    OpenSink { name: String },
    /// Store the content of `file` under that name, uncompressed; then, if
    /// `remove` is set, delete the source, without regard to whether that
    /// succeeds. Report `Staged`, `ReadFailed` or `WriteFailed`.
    Stage { file: String, remove: bool },
    /// Finalize the archive and report `SinkClosed` or `WriteFailed`.
    Finalize,
    /// Nothing is left to do: the archive is complete and the run has
    /// succeeded.
    Done,
    /// Tell the operator `text`. Nothing is archived and the run has
    /// succeeded.
    Notice { text: String },
    /// Report `failure` to the operator. The run has failed.
    Abort { failure: Failure },
    /// Nothing: the event was not one that the run awaited.
    Nothing,
}

/// A request with its texts as sequences of characters.
pub enum ActionView {
    ListDirectory,
    OpenSink { name: Seq<char> },
    Stage { file: Seq<char>, remove: bool },
    Finalize,
    Done,
    Notice { text: Seq<char> },
    Abort { failure: FailureView },
    Nothing,
}

impl View for Action {
    type V = ActionView;

    open spec fn view(&self) -> ActionView {
        match *self {
            Action::ListDirectory => ActionView::ListDirectory,
            Action::OpenSink { name } => ActionView::OpenSink { name: name@ },
            Action::Stage { file, remove } => ActionView::Stage { file: file@, remove },
            Action::Finalize => ActionView::Finalize,
            Action::Done => ActionView::Done,
            Action::Notice { text } => ActionView::Notice { text: text@ },
            Action::Abort { failure } => ActionView::Abort { failure: failure@ },
            Action::Nothing => ActionView::Nothing,
        }
    }
}

/// An archiving run.
#[derive(Debug)]
pub struct Run {
    phase: Phase,
    settings: Settings,
    entries: Vec<DatedEntry>,
    name: String,
    next: usize,
    failure: Option<Failure>,
}

/// A run as the contracts see it.
pub struct RunView {
    /// Where the run stands.
    pub phase: Phase,
    /// What it was asked to do.
    pub settings: SettingsView,
    /// The dated entries, sorted, once they are collected.
    pub entries: Seq<DatedEntryView>,
    /// The name of the archive, once it is decided.
    pub name: Seq<char>,
    /// How many entries have been stored.
    pub next: nat,
    /// Why the run failed, if it did.
    pub failure: Option<FailureView>,
}

/// The view of an optional failure.
pub open spec fn failure_view(f: Option<Failure>) -> Option<FailureView> {
    match f {
        Some(failure) => Some(failure@),
        None => None,
    }
}

impl View for Run {
    type V = RunView;

    closed spec fn view(&self) -> RunView {
        RunView {
            phase: self.phase,
            settings: self.settings@,
            entries: entry_views(self.entries@),
            name: self.name@,
            next: self.next as nat,
            failure: failure_view(self.failure),
        }
    }
}

/// The run `pre` has ended on `failure`.
pub open spec fn aborted(pre: RunView, failure: FailureView, post: RunView, action: Action) -> bool {
    &&& post == (RunView { phase: Phase::Failed, failure: Some(failure), ..pre })
    &&& action@ == (ActionView::Abort { failure })
}

/// Whether the run has an entry stored at present.
pub open spec fn storing(run: RunView) -> bool {
    run.phase == Phase::Writing && run.next < stored(run.entries).len()
}

/// Whether the run has the archive finalized at present: every entry that
/// is stored has been stored.
pub open spec fn closing(run: RunView) -> bool {
    run.phase == Phase::Writing && run.next >= stored(run.entries).len()
}

/// The run `pre` has left its state and its request as they were: the event
/// was not one that it awaited.
pub open spec fn ignored(pre: RunView, post: RunView, action: Action) -> bool {
    post == pre && action@ == ActionView::Nothing
}

/// The run `pre` has gone on to the entry at place `n`: it has it stored if
/// it is one of those that are stored, and has the archive finalized if none
/// is left.
pub open spec fn advanced(pre: RunView, n: nat, post: RunView, action: Action) -> bool {
    &&& post == (RunView { phase: Phase::Writing, next: n, ..pre })
    &&& action@ == (if n < stored(pre.entries).len() {
        ActionView::Stage { file: pre.entries[n as int].name, remove: pre.settings.remove }
    } else {
        ActionView::Finalize
    })
}

/// The run `pre` has ended in success.
pub open spec fn completed(pre: RunView, post: RunView, action: Action) -> bool {
    &&& post == (RunView { phase: Phase::Finalized, ..pre })
    &&& action@ == ActionView::Done
}

/// The run `pre` has taken in the listing `names`.
///
/// Under strict parsing the first name without a date fails the run.
/// Otherwise the dated entries are sorted and the archive is named. With no
/// dated entry the run ends there with a notice; else the archive is to be
/// created.
pub open spec fn collected(pre: RunView, names: Seq<Seq<char>>, post: RunView, action: Action) -> bool {
    let outcomes = outcomes_of(names, pre.settings.format);
    if pre.settings.strict && !all_dated(outcomes) {
        exists|i: int|
            #![auto]
            is_first_undated(outcomes, i) && aborted(
                pre,
                FailureView::UnparseableFilename { name: names[i] },
                post,
                action,
            )
    } else {
        let found = dated(names, outcomes);
        &&& is_stable_sort_of(post.entries, found)
        &&& post.name == archive_name_of(post.entries, pre.settings.zip_name)
        &&& post.settings == pre.settings
        &&& post.next == 0
        &&& post.failure == pre.failure
        &&& if found.len() == 0 {
            &&& post.phase == Phase::Finalized
            &&& action@ == (ActionView::Notice { text: "files not found"@ })
        } else {
            &&& post.phase == Phase::Naming
            &&& action@ == (ActionView::OpenSink { name: post.name })
        }
    }
}

/// Whether the run `pre`, on `event`, may become `post` and ask for `action`.
///
/// Each phase awaits its own events. Any other event changes nothing and
/// asks for nothing; so does every event once the run is over.
pub open spec fn step_ok(pre: RunView, event: Event, post: RunView, action: Action) -> bool {
    match (pre.phase, event) {
        (Phase::Idle, Event::Begin) => {
            &&& post == (RunView { phase: Phase::Collecting, ..pre })
            &&& action@ == ActionView::ListDirectory
        },
        (Phase::Collecting, Event::Listed { names }) => collected(
            pre,
            name_views(names@),
            post,
            action,
        ),
        (Phase::Collecting, Event::ListFailed { detail }) => aborted(
            pre,
            FailureView::DirectoryUnreadable { detail: detail@ },
            post,
            action,
        ),
        (Phase::Naming, Event::SinkOpened) => advanced(pre, 0, post, action),
        (Phase::Naming, Event::SinkFailed { detail }) => aborted(
            pre,
            FailureView::ArchiveCreateFailed { detail: detail@ },
            post,
            action,
        ),
        (Phase::Writing, Event::Staged) => if storing(pre) {
            advanced(pre, pre.next + 1, post, action)
        } else {
            ignored(pre, post, action)
        },
        (Phase::Writing, Event::ReadFailed { detail }) => if storing(pre) {
            aborted(pre, FailureView::SourceReadFailed { detail: detail@ }, post, action)
        } else {
            ignored(pre, post, action)
        },
        (Phase::Writing, Event::WriteFailed { detail }) => aborted(
            pre,
            FailureView::ArchiveWriteFailed { detail: detail@ },
            post,
            action,
        ),
        (Phase::Writing, Event::SinkClosed) => if closing(pre) {
            completed(pre, post, action)
        } else {
            ignored(pre, post, action)
        },
        _ => ignored(pre, post, action),
    }
}

impl Run {
    /// Once the archive is named there is an entry at least, and no more
    /// entries count as stored than are stored: the last one never is.
    #[verifier::type_invariant]
    spec fn inv(self) -> bool {
        &&& self.phase == Phase::Naming ==> self.entries.len() >= 1
        &&& self.phase == Phase::Writing ==> self.next < self.entries.len()
    }

    /// An idle run with the given settings.
    pub fn new(settings: Settings) -> (run: Run)
        ensures
            run@ == (RunView {
                phase: Phase::Idle,
                settings: settings@,
                entries: Seq::empty(),
                name: Seq::empty(),
                next: 0,
                failure: None,
            }),
    {
        let run = Run {
            phase: Phase::Idle,
            settings,
            entries: Vec::new(),
            name: String::new(),
            next: 0,
            failure: None,
        };
        assert(run@.entries =~= Seq::empty());
        run
    }

    /// Where the run stands.
    pub fn phase(&self) -> (p: Phase)
        ensures
            p == self@.phase,
    {
        self.phase
    }

    /// What the run was asked to do.
    pub fn settings(&self) -> (s: &Settings)
        ensures
            s@ == self@.settings,
    {
        &self.settings
    }

    /// The dated entries, sorted by date; none before they are collected.
    pub fn entries(&self) -> (e: &Vec<DatedEntry>)
        ensures
            entry_views(e@) == self@.entries,
    {
        &self.entries
    }

    /// The name of the archive; empty before it is decided.
    pub fn name(&self) -> (n: &String)
        ensures
            n@ == self@.name,
    {
        &self.name
    }

    /// How many entries have been stored.
    pub fn stored_so_far(&self) -> (n: usize)
        ensures
            n == self@.next,
    {
        self.next
    }

    /// Why the run failed, if it did.
    pub fn failure(&self) -> (f: &Option<Failure>)
        ensures
            failure_view(*f) == self@.failure,
    {
        &self.failure
    }

    /// Whether the run is over.
    pub fn is_over(&self) -> (b: bool)
        ensures
            b == (self@.phase == Phase::Finalized || self@.phase == Phase::Failed),
    {
        self.phase == Phase::Finalized || self.phase == Phase::Failed
    }

    /// The exit code of the process, once the run is over: 0 where it
    /// succeeded, 1 where it failed.
    pub fn exit_code(&self) -> (code: Option<i32>)
        ensures
            code == (if self@.phase == Phase::Finalized {
                Some(SUCCESS_EXIT_CODE)
            } else if self@.phase == Phase::Failed {
                Some(FAILURE_EXIT_CODE)
            } else {
                None
            }),
    {
        if self.phase == Phase::Finalized {
            Some(SUCCESS_EXIT_CODE)
        } else if self.phase == Phase::Failed {
            Some(FAILURE_EXIT_CODE)
        } else {
            None
        }
    }

    /// Ends the run on `failure`.
    fn abort(self, failure: Failure) -> (r: (Run, Action))
        ensures
            aborted(self@, failure@, r.0@, r.1),
    {
        let reported = failure.clone_failure();
        let run = Run {
            phase: Phase::Failed,
            settings: self.settings,
            entries: self.entries,
            name: self.name,
            next: self.next,
            failure: Some(failure),
        };
        (run, Action::Abort { failure: reported })
    }

    /// Goes on to the entry at place `n`.
    fn advance(self, n: usize) -> (r: (Run, Action))
        requires
            n < self.entries.len(),
        ensures
            advanced(self@, n as nat, r.0@, r.1),
    {
        let action = if n < self.entries.len() - 1 {
            Action::Stage { file: self.entries[n].name.clone(), remove: self.settings.remove }
        } else {
            Action::Finalize
        };
        let run = Run {
            phase: Phase::Writing,
            settings: self.settings,
            entries: self.entries,
            name: self.name,
            next: n,
            failure: self.failure,
        };
        (run, action)
    }

    /// Ends the run in success.
    fn complete(self) -> (r: (Run, Action))
        ensures
            completed(self@, r.0@, r.1),
    {
        let run = Run {
            phase: Phase::Finalized,
            settings: self.settings,
            entries: self.entries,
            name: self.name,
            next: self.next,
            failure: self.failure,
        };
        (run, Action::Done)
    }

    /// Takes in the directory listing.
    fn take_listing(self, names: Vec<String>) -> (r: (Run, Action))
        ensures
            collected(self@, name_views(names@), r.0@, r.1),
    {
        match collect(&names, self.settings.format.as_str(), self.settings.strict) {
            Err(failure) => self.abort(failure),
            Ok(found) => {
                let nothing = found.len() == 0;
                let decided = plan(found, &self.settings.zip_name);
                let action = if nothing {
                    Action::Notice { text: String::from_str("files not found") }
                } else {
                    Action::OpenSink { name: decided.name.clone() }
                };
                let phase = if nothing {
                    Phase::Finalized
                } else {
                    Phase::Naming
                };
                let run = Run {
                    phase,
                    settings: self.settings,
                    entries: decided.entries,
                    name: decided.name,
                    next: 0,
                    failure: self.failure,
                };
                (run, action)
            },
        }
    }

    /// Takes the run one step on: from what the caller reports to what the
    /// run asks for next.
    pub fn step(self, event: Event) -> (r: (Run, Action))
        ensures
            step_ok(self@, event, r.0@, r.1),
    {
        proof {
            use_type_invariant(&self);
        }
        match self.phase {
            Phase::Idle => match event {
                Event::Begin => {
                    let run = Run {
                        phase: Phase::Collecting,
                        settings: self.settings,
                        entries: self.entries,
                        name: self.name,
                        next: self.next,
                        failure: self.failure,
                    };
                    (run, Action::ListDirectory)
                },
                _ => (self, Action::Nothing),
            },
            Phase::Collecting => match event {
                Event::Listed { names } => self.take_listing(names),
                Event::ListFailed { detail } => self.abort(Failure::DirectoryUnreadable { detail }),
                _ => (self, Action::Nothing),
            },
            Phase::Naming => match event {
                Event::SinkOpened => self.advance(0),
                Event::SinkFailed { detail } => self.abort(Failure::ArchiveCreateFailed { detail }),
                _ => (self, Action::Nothing),
            },
            Phase::Writing => {
                let storing = self.next < self.entries.len() - 1;
                match event {
                    Event::Staged => if storing {
                        let n = self.next + 1;
                        self.advance(n)
                    } else {
                        (self, Action::Nothing)
                    },
                    Event::ReadFailed { detail } => if storing {
                        self.abort(Failure::SourceReadFailed { detail })
                    } else {
                        (self, Action::Nothing)
                    },
                    Event::WriteFailed { detail } => self.abort(
                        Failure::ArchiveWriteFailed { detail },
                    ),
                    Event::SinkClosed => if storing {
                        (self, Action::Nothing)
                    } else {
                        self.complete()
                    },
                    _ => (self, Action::Nothing),
                }
            },
            Phase::Finalized => (self, Action::Nothing),
            Phase::Failed => (self, Action::Nothing),
        }
    }
}

/// A run that is over stays as it is and asks for nothing more, whatever is
/// reported to it.
pub proof fn lemma_over_stays(pre: RunView, event: Event, post: RunView, action: Action)
    requires
        step_ok(pre, event, post, action),
        pre.phase == Phase::Finalized || pre.phase == Phase::Failed,
    ensures
        post == pre,
        action@ == ActionView::Nothing,
{
}

/// A failure that is reported while it can occur ends the run as failed, on
/// that failure; the entries and the name stay as they were.
pub proof fn lemma_failure_ends(pre: RunView, event: Event, post: RunView, action: Action)
    requires
        step_ok(pre, event, post, action),
        (pre.phase == Phase::Collecting && event is ListFailed) || (pre.phase == Phase::Naming
            && event is SinkFailed) || (storing(pre) && event is ReadFailed) || (pre.phase
            == Phase::Writing && event is WriteFailed),
    ensures
        post.phase == Phase::Failed,
        post.failure is Some,
        action@ == (ActionView::Abort { failure: post.failure->0 }),
        post.entries == pre.entries,
        post.name == pre.name,
        post.next == pre.next,
{
}

/// Under strict parsing, a listing with a name that encodes no date, once
/// taken in, has asked for the run to be given up and for nothing else.
proof fn lemma_strict_listing_aborts(pre: RunView, event: Event, post: RunView, action: Action)
    requires
        step_ok(pre, event, post, action),
        pre.phase == Phase::Collecting,
        event is Listed,
        pre.settings.strict,
        !all_dated(outcomes_of(name_views(event->names@), pre.settings.format)),
    ensures
        action@ is Abort,
        post.phase == Phase::Failed,
{
    let names = name_views(event->names@);
    let outcomes = outcomes_of(names, pre.settings.format);
    let i = choose|i: int|
        #![auto]
        is_first_undated(outcomes, i) && aborted(
            pre,
            FailureView::UnparseableFilename { name: names[i] },
            post,
            action,
        );
    assert(aborted(pre, FailureView::UnparseableFilename { name: names[i] }, post, action));
}

/// Whenever an entry is to be stored, it is the next one in sorted order
/// and never the last one: the first follows the opening of the archive,
/// each further one the storing of the one before it.
pub proof fn lemma_stage_in_order(pre: RunView, event: Event, post: RunView, action: Action)
    requires
        step_ok(pre, event, post, action),
        action is Stage,
    ensures
        storing(post),
        post.entries == pre.entries,
        post.next + 1 < post.entries.len(),
        action@ == (ActionView::Stage {
            file: post.entries[post.next as int].name,
            remove: pre.settings.remove,
        }),
        (pre.phase == Phase::Naming && post.next == 0) || (storing(pre) && post.next == pre.next
            + 1),
{
    if pre.phase == Phase::Collecting && event is Listed && pre.settings.strict && !all_dated(
        outcomes_of(name_views(event->names@), pre.settings.format),
    ) {
        lemma_strict_listing_aborts(pre, event, post, action);
    }
}

/// With fewer than two entries nothing is stored: once the archive is open
/// it is to be finalized at once.
pub proof fn lemma_lone_entry_not_stored(pre: RunView, post: RunView, action: Action)
    requires
        pre.phase == Phase::Naming,
        pre.entries.len() <= 1,
        step_ok(pre, Event::SinkOpened, post, action),
    ensures
        action@ == ActionView::Finalize,
        post == (RunView { phase: Phase::Writing, next: 0, ..pre }),
        closing(post),
{
}

/// The archive is to be finalized only once every entry but the last has
/// been stored.
pub proof fn lemma_finalize_when_stored(pre: RunView, event: Event, post: RunView, action: Action)
    requires
        step_ok(pre, event, post, action),
        action is Finalize,
    ensures
        closing(post),
        post.entries == pre.entries,
        (pre.phase == Phase::Naming && post.next == 0) || (storing(pre) && post.next == pre.next
            + 1),
{
    if pre.phase == Phase::Collecting && event is Listed && pre.settings.strict && !all_dated(
        outcomes_of(name_views(event->names@), pre.settings.format),
    ) {
        lemma_strict_listing_aborts(pre, event, post, action);
    }
}

/// Whether the run `pre`, on the events `events` one after the other,
/// passes through the runs `posts` and asks for the requests `actions`.
pub open spec fn steps_ok(
    pre: RunView,
    events: Seq<Event>,
    posts: Seq<RunView>,
    actions: Seq<Action>,
) -> bool {
    &&& posts.len() == events.len()
    &&& actions.len() == events.len()
    &&& forall|i: int|
        0 <= i < events.len() ==> step_ok(
            if i == 0 {
                pre
            } else {
                posts[i - 1]
            },
            #[trigger] events[i],
            posts[i],
            actions[i],
        )
}

/// Whether `events` tell that the archive was opened and that then one
/// entry after the other was stored.
pub open spec fn all_goes_well(events: Seq<Event>) -> bool {
    &&& events.len() >= 1
    &&& events[0] is SinkOpened
    &&& forall|i: int| 1 <= i < events.len() ==> (#[trigger] events[i]) is Staged
}

/// While all goes well, the run stands after each event at the place that
/// the number of events tells, and has asked for what is due at that place.
proof fn lemma_place_after(
    pre: RunView,
    events: Seq<Event>,
    posts: Seq<RunView>,
    actions: Seq<Action>,
    i: int,
)
    requires
        pre.phase == Phase::Naming,
        steps_ok(pre, events, posts, actions),
        all_goes_well(events),
        events.len() <= stored(pre.entries).len() + 1,
        0 <= i < events.len(),
    ensures
        advanced(pre, i as nat, posts[i], actions[i]),
    decreases i,
{
    assert(step_ok(
        if i == 0 {
            pre
        } else {
            posts[i - 1]
        },
        events[i],
        posts[i],
        actions[i],
    ));
    if i > 0 {
        lemma_place_after(pre, events, posts, actions, i - 1);
        assert(events[i] is Staged);
        assert(storing(posts[i - 1]));
    }
}

/// A run in which all goes well has every entry but the last stored, each
/// one once, under its own name and in sorted order, and then has the
/// archive finalized.
pub proof fn lemma_run_stores_all_but_last(
    pre: RunView,
    events: Seq<Event>,
    posts: Seq<RunView>,
    actions: Seq<Action>,
)
    requires
        pre.phase == Phase::Naming,
        steps_ok(pre, events, posts, actions),
        all_goes_well(events),
        events.len() == stored(pre.entries).len() + 1,
    ensures
        forall|i: int|
            0 <= i < stored(pre.entries).len() ==> (#[trigger] actions[i])@ == (ActionView::Stage {
                file: stored(pre.entries)[i].name,
                remove: pre.settings.remove,
            }),
        actions.last()@ == ActionView::Finalize,
        posts.last() == (RunView {
            phase: Phase::Writing,
            next: stored(pre.entries).len(),
            ..pre
        }),
{
    let count = stored(pre.entries).len() as int;
    assert forall|i: int| 0 <= i < count implies (#[trigger] actions[i])@ == (ActionView::Stage {
        file: stored(pre.entries)[i].name,
        remove: pre.settings.remove,
    }) by {
        lemma_place_after(pre, events, posts, actions, i);
    }
    lemma_place_after(pre, events, posts, actions, count);
}

/// A run comes to succeed in two ways only: the archive was finalized after
/// all that is stored was stored, or the listing held no dated entry.
pub proof fn lemma_success_is_earned(pre: RunView, event: Event, post: RunView, action: Action)
    requires
        step_ok(pre, event, post, action),
        pre.phase != Phase::Finalized,
        post.phase == Phase::Finalized,
    ensures
        (closing(pre) && event is SinkClosed && action@ == ActionView::Done) || (pre.phase
            == Phase::Collecting && event is Listed && post.entries.len() == 0 && action@ == (
        ActionView::Notice { text: "files not found"@ })),
{
    if pre.phase == Phase::Collecting && event is Listed {
        let names = name_views(event->names@);
        let outcomes = outcomes_of(names, pre.settings.format);
        if pre.settings.strict && !all_dated(outcomes) {
            lemma_strict_listing_aborts(pre, event, post, action);
        } else {
            lemma_sort_permutes(post.entries, dated(names, outcomes));
        }
    }
}

/// A step is determined by the run and the event: two outcomes that the
/// rules allow are the same run and the same request.
pub proof fn lemma_step_determined(
    pre: RunView,
    event: Event,
    post1: RunView,
    action1: Action,
    post2: RunView,
    action2: Action,
)
    requires
        step_ok(pre, event, post1, action1),
        step_ok(pre, event, post2, action2),
    ensures
        post1 == post2,
        action1@ == action2@,
{
    if pre.phase == Phase::Collecting && event is Listed {
        let names = name_views(event->names@);
        let outcomes = outcomes_of(names, pre.settings.format);
        if pre.settings.strict && !all_dated(outcomes) {
            let i = choose|i: int|
                #![auto]
                is_first_undated(outcomes, i) && aborted(
                    pre,
                    FailureView::UnparseableFilename { name: names[i] },
                    post1,
                    action1,
                );
            let j = choose|j: int|
                #![auto]
                is_first_undated(outcomes, j) && aborted(
                    pre,
                    FailureView::UnparseableFilename { name: names[j] },
                    post2,
                    action2,
                );
            assert(i == j) by {
                if i < j {
                    assert(outcomes[i] is Some);
                }
                if j < i {
                    assert(outcomes[j] is Some);
                }
            }
        } else {
            lemma_sort_unique(post1.entries, post2.entries, dated(names, outcomes));
        }
    }
}

} // verus!
