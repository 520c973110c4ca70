//! The index over a project's sessions: what to index, in which order, and
//! when a session counts as indexed.
//!
//! `Deltas` decides; a driver acts. A run is started with `reindex_project`
//! or `index_session`. Each call returns the next `Action` for the driver:
//! fetch a session from the history, commit a batch of documents to the
//! index engine, record a ledger entry in the durable store. The driver
//! does it and reports the `Event` through `advance`, which returns the
//! next action, until that is `Action::Done`.
//!
//! A session is recorded in the ledger only after the driver has reported
//! that its batch was committed and that the entry was written. A failure
//! ends the work on that session alone: it is noted, and the run goes on
//! with the next session.

use crate::decimal::{decimal, format_u64};
use crate::indexer::{
    distinct_paths, document_views, has_distinct_paths, index_session, session_outcome,
    DocumentView, IndexError, IndexedDocument, Session, SessionView,
};
use crate::ledger::{ledger_key, looked_up, recorded_at, MetaStorage};
use crate::search::{
    plan, plan_of, result_views, search, search_outcome, EngineReply, Plan, ResultView,
    SearchError, SearchErrorView, SearchQuery, SearchResult,
};
use crate::storage::Storage;
use crate::text::chars_of;
use vstd::prelude::*;
use vstd::string::StringExecFns;

verus! {

/// What a run waits for.
#[derive(Debug, Clone, Copy, PartialEq, Eq, Structural)]
pub enum Phase {
    /// No run is under way.
    Idle,
    /// The driver was asked to fetch the session at hand.
    Fetching,
    /// The driver was asked to commit the documents of the session at hand.
    Committing,
    /// The driver was asked to record the ledger entry of the session at
    /// hand.
    Recording,
}

/// Why a session was not indexed.
#[derive(Debug, Clone, Copy, PartialEq, Eq, Structural)]
pub enum Cause {
    /// The history did not hand over the session, or what it handed over
    /// is not the session asked for or lists a file twice.
    History,
    /// A delta of the session gives no document.
    Index(IndexError),
    /// The index engine did not commit the batch.
    Commit,
    /// The ledger entry of the session could not be read, or the durable
    /// store did not take it.
    Ledger,
}

/// A session that a run did not index, and why.
#[derive(Debug)]
pub struct Failure {
    pub session: String,
    pub cause: Cause,
}

/// A failure as a mathematical value.
pub struct FailureView {
    pub session: Seq<char>,
    pub cause: Cause,
}

impl View for Failure {
    type V = FailureView;

    open spec fn view(&self) -> FailureView {
        FailureView { session: self.session@, cause: self.cause }
    }
}

/// The failures of a list as mathematical values.
pub open spec fn failure_views(failures: Seq<Failure>) -> Seq<FailureView> {
    failures.map_values(|f: Failure| f@)
}

/// The session ids of a list as mathematical values.
pub open spec fn session_names(sessions: Seq<String>) -> Seq<Seq<char>> {
    sessions.map_values(|s: String| s@)
}

/// What the driver is to do next.
#[derive(Debug)]
pub enum Action {
    /// Fetch the session with this id from the history and report
    /// `Event::Fetched` with it, or `Event::Failed`.
    Fetch { session: String },
    /// Hand these documents to the index engine and commit them as one
    /// batch; report `Event::Done` or `Event::Failed`.
    Commit { documents: Vec<IndexedDocument> },
    /// Write this value under this key in the durable store; report
    /// `Event::Done` once it is durable, or `Event::Failed`.
    Record { key: String, value: String },
    /// The run is over.
    Done,
}

/// An action as a mathematical value.
pub enum ActionView {
    Fetch { session: Seq<char> },
    Commit { documents: Seq<DocumentView> },
    Record { key: Seq<char>, value: Seq<char> },
    Done,
}

impl View for Action {
    type V = ActionView;

    open spec fn view(&self) -> ActionView {
        match self {
            Action::Fetch { session } => ActionView::Fetch { session: session@ },
            Action::Commit { documents } => ActionView::Commit {
                documents: document_views(documents@),
            },
            Action::Record { key, value } => ActionView::Record { key: key@, value: value@ },
            Action::Done => ActionView::Done,
        }
    }
}

/// What the driver reports.
#[derive(Debug)]
pub enum Event {
    /// The session asked for, as the history holds it.
    Fetched(Session),
    /// The action asked for was done.
    Done,
    /// The action asked for failed.
    Failed,
}

/// An event as a mathematical value.
pub enum EventView {
    Fetched(SessionView),
    Done,
    Failed,
}

impl View for Event {
    type V = EventView;

    open spec fn view(&self) -> EventView {
        match self {
            Event::Fetched(session) => EventView::Fetched(session@),
            Event::Done => EventView::Done,
            Event::Failed => EventView::Failed,
        }
    }
}

/// The state of the index as a mathematical value.
pub struct DeltasView {
    /// The entries of the ledger's store.
    pub ledger: Map<Seq<char>, Seq<char>>,
    /// The keys of the ledger whose entries could not be read.
    pub unreadable: Set<Seq<char>>,
    /// The directory of this schema version's index generation.
    pub index_dir: Seq<char>,
    /// The schema version that documents are written and searched under.
    pub version: u64,
    /// The project of the run.
    pub project_id: Seq<char>,
    /// The sessions of the run that are not dealt with yet, the session at
    /// hand first.
    pub pending: Seq<Seq<char>>,
    pub phase: Phase,
    /// Whether the run passes over sessions that the ledger records at
    /// `version`.
    pub skip_current: bool,
    /// The sessions that the run did not index, in the order of the run.
    pub failures: Seq<FailureView>,
}

/// A state and the action that goes with it.
pub struct StepView {
    pub state: DeltasView,
    pub action: ActionView,
}

/// The path of `name` in the directory `path`: the two joined by a slash,
/// but by nothing where the path is empty or ends with a slash. In the
/// empty path, which stands for the working directory, this is the name.
pub open spec fn below(path: Seq<char>, name: Seq<char>) -> Seq<char> {
    if path.len() == 0 || path.last() == '/' {
        path + name
    } else {
        path + seq!['/'] + name
    }
}

/// The directory of the index generation of schema version `version` below
/// `path`.
pub open spec fn index_dir_of(path: Seq<char>, version: u64) -> Seq<char> {
    below(path, "indexes/deltas/v"@ + decimal(version as nat))
}

impl DeltasView {
    /// Whether the ledger records `session` at the state's schema version.
    pub open spec fn is_current(self, session: Seq<char>) -> bool {
        recorded_at(self.ledger, ledger_key(self.project_id, session)) == Some(self.version)
    }

    /// Whether the ledger cannot say what it records for `session`, because
    /// the entry could not be read.
    pub open spec fn is_unreadable(self, session: Seq<char>) -> bool {
        looked_up(self.ledger, self.unreadable, ledger_key(self.project_id, session)) is Err
    }

    /// Looks for the next session to index. Where sessions are passed over,
    /// the ledger is asked about the sessions at the head of `pending`: a
    /// session whose entry could not be read is given up with
    /// `Cause::Ledger`, and a session that is current is dropped. If a
    /// session is left, it is the session at hand and the driver is asked to
    /// fetch it; if none is left, the run is over.
    pub open spec fn settle(self) -> StepView
        decreases self.pending.len(),
    {
        if self.pending.len() == 0 {
            StepView { state: DeltasView { phase: Phase::Idle, ..self }, action: ActionView::Done }
        } else if self.skip_current && self.is_unreadable(self.pending[0]) {
            DeltasView {
                pending: self.pending.drop_first(),
                failures: self.failures.push(
                    FailureView { session: self.pending[0], cause: Cause::Ledger },
                ),
                ..self
            }.settle()
        } else if self.skip_current && self.is_current(self.pending[0]) {
            DeltasView { pending: self.pending.drop_first(), ..self }.settle()
        } else {
            StepView {
                state: DeltasView { phase: Phase::Fetching, ..self },
                action: ActionView::Fetch { session: self.pending[0] },
            }
        }
    }

    /// Ends the work on the session at hand without indexing it: notes the
    /// failure, leaves the ledger as it is, and goes on to the next session.
    pub open spec fn give_up(self, cause: Cause) -> StepView {
        DeltasView {
            pending: self.pending.drop_first(),
            failures: self.failures.push(FailureView { session: self.pending[0], cause }),
            ..self
        }.settle()
    }

    /// Asks the driver to record the session at hand at the state's schema
    /// version.
    pub open spec fn ask_record(self) -> StepView {
        StepView {
            state: DeltasView { phase: Phase::Recording, ..self },
            action: ActionView::Record {
                key: ledger_key(self.project_id, self.pending[0]),
                value: decimal(self.version as nat),
            },
        }
    }

    /// The state in which the session at hand is recorded at the state's
    /// schema version and dealt with.
    pub open spec fn recorded(self) -> DeltasView {
        DeltasView {
            ledger: self.ledger.insert(
                ledger_key(self.project_id, self.pending[0]),
                decimal(self.version as nat),
            ),
            pending: self.pending.drop_first(),
            ..self
        }
    }

    /// What a fetched session leads to: a failure if it is not the session
    /// at hand, if it lists a file twice, or if a delta gives no document;
    /// a ledger entry at once if it has no deltas, for there is nothing to
    /// commit; else the commit of its documents.
    pub open spec fn take(self, session: SessionView) -> StepView {
        if session.id != self.pending[0] || !distinct_paths(session.deltas) {
            self.give_up(Cause::History)
        } else {
            match session_outcome(self.version, self.project_id, session) {
                Err(error) => self.give_up(Cause::Index(error)),
                Ok(documents) => if session.deltas.len() == 0 {
                    self.ask_record()
                } else {
                    StepView {
                        state: DeltasView { phase: Phase::Committing, ..self },
                        action: ActionView::Commit { documents },
                    }
                },
            }
        }
    }

    /// The state and the action that follow `event`.
    ///
    /// A fetched session is taken while the run waits for it. A commit that
    /// was done leads to the ledger entry, an entry that was written to the
    /// next session, with the ledger brought up to date. Any other event
    /// fails the session at hand. Outside a run nothing happens.
    pub open spec fn step(self, event: EventView) -> StepView {
        if self.pending.len() == 0 {
            StepView { state: DeltasView { phase: Phase::Idle, ..self }, action: ActionView::Done }
        } else {
            match self.phase {
                Phase::Idle => StepView { state: self, action: ActionView::Done },
                Phase::Fetching => match event {
                    EventView::Fetched(session) => self.take(session),
                    _ => self.give_up(Cause::History),
                },
                Phase::Committing => match event {
                    EventView::Done => self.ask_record(),
                    _ => self.give_up(Cause::Commit),
                },
                Phase::Recording => match event {
                    EventView::Done => self.recorded().settle(),
                    _ => self.give_up(Cause::Ledger),
                },
            }
        }
    }

    /// The state at the start of a run over `sessions` of `project_id`.
    pub open spec fn begin(
        self,
        project_id: Seq<char>,
        sessions: Seq<Seq<char>>,
        skip_current: bool,
    ) -> DeltasView {
        DeltasView {
            project_id,
            pending: sessions,
            phase: Phase::Idle,
            skip_current,
            failures: Seq::empty(),
            ..self
        }
    }

    /// The start of a walk over the sessions of a project: sessions that
    /// the ledger records at the current version are passed over.
    pub open spec fn reindex(self, project_id: Seq<char>, sessions: Seq<Seq<char>>) -> StepView {
        self.begin(project_id, sessions, true).settle()
    }

    /// The start of a run that indexes one session, whatever the ledger
    /// records for it.
    pub open spec fn index(self, project_id: Seq<char>, session: SessionView) -> StepView {
        DeltasView { phase: Phase::Fetching, ..self.begin(project_id, seq![session.id], false) }.take(
            session,
        )
    }
}

/// The index over a project's sessions.
pub struct Deltas {
    meta_storage: MetaStorage,
    index_dir: String,
    version: u64,
    project_id: String,
    /// The sessions that are not dealt with yet, the last of the run first
    /// and the session at hand at the end.
    queue: Vec<String>,
    phase: Phase,
    skip_current: bool,
    failures: Vec<Failure>,
}

impl View for Deltas {
    type V = DeltasView;

    closed spec fn view(&self) -> DeltasView {
        DeltasView {
            ledger: self.meta_storage@,
            unreadable: self.meta_storage.unreadable(),
            index_dir: self.index_dir@,
            version: self.version,
            project_id: self.project_id@,
            pending: session_names(self.queue@).reverse(),
            phase: self.phase,
            skip_current: self.skip_current,
            failures: failure_views(self.failures@),
        }
    }
}

/// Taking the last session off a queue takes the first off what is pending.
proof fn lemma_pending_after_pop(queue: Seq<String>)
    requires
        queue.len() > 0,
    ensures
        session_names(queue).reverse()[0] == queue.last()@,
        session_names(queue.drop_last()).reverse() == session_names(queue).reverse().drop_first(),
{
}

/// The sessions in the opposite order.
fn reversed(sessions: Vec<String>) -> (queue: Vec<String>)
    ensures
        session_names(queue@).reverse() == session_names(sessions@),
{
    let ghost names = session_names(sessions@);
    let mut sessions = sessions;
    let mut queue: Vec<String> = Vec::new();
    while sessions.len() > 0
        invariant
            session_names(queue@) + session_names(sessions@).reverse() == names.reverse(),
        decreases sessions.len(),
    {
        match sessions.pop() {
            Some(session) => {
                queue.push(session);
            },
            None => {},
        }
    }
    queue
}

impl Deltas {
    /// The index of schema version `version` below `path`, with the ledger
    /// that `storage` holds, marks of what could not be read included. No
    /// run is under way.
    pub fn at(path: &str, version: u64, storage: Storage) -> (deltas: Deltas)
        ensures
            deltas@ == (DeltasView {
                ledger: storage@,
                unreadable: storage.marked(),
                index_dir: index_dir_of(path@, version),
                version,
                project_id: Seq::empty(),
                pending: Seq::empty(),
                phase: Phase::Idle,
                skip_current: true,
                failures: Seq::empty(),
            }),
    {
        let chars = chars_of(path);
        let mut index_dir = String::from_str(path);
        if chars.len() > 0 && chars[chars.len() - 1] != '/' {
            index_dir.append("/");
            proof {
                reveal_strlit("/");
                assert("/"@ =~= seq!['/']);
            }
        }
        index_dir.append("indexes/deltas/v");
        index_dir.append(format_u64(version).as_str());
        assert(index_dir@ =~= index_dir_of(path@, version));
        let deltas = Deltas {
            meta_storage: MetaStorage::new(storage),
            index_dir,
            version,
            project_id: String::new(),
            queue: Vec::new(),
            phase: Phase::Idle,
            skip_current: true,
            failures: Vec::new(),
        };
        assert(deltas@.failures == Seq::<FailureView>::empty());
        deltas
    }

    /// The directory of the index generation.
    pub fn index_dir(&self) -> (dir: &String)
        ensures
            dir@ == self@.index_dir,
    {
        &self.index_dir
    }

    /// The schema version that documents are written and searched under.
    pub fn version(&self) -> (version: u64)
        ensures
            version == self@.version,
    {
        self.version
    }

    /// What the run waits for.
    pub fn phase(&self) -> (phase: Phase)
        ensures
            phase == self@.phase,
    {
        self.phase
    }

    /// The ledger.
    pub fn meta_storage(&self) -> (ledger: &MetaStorage)
        ensures
            ledger@ == self@.ledger,
    {
        &self.meta_storage
    }

    /// The sessions that the run has not indexed so far, and why.
    pub fn failures(&self) -> (failures: &Vec<Failure>)
        ensures
            failure_views(failures@) == self@.failures,
    {
        &self.failures
    }

    /// How to go about a request: what to ask the engine, or the answer
    /// where the engine need not be asked.
    pub fn query(&self, query: &SearchQuery) -> (planned: Plan)
        ensures
            planned@ == plan_of(self@.version, query@),
    {
        plan(self.version, query)
    }

    /// Finishes a search: turns the engine's answer to `query` into results.
    pub fn search(&self, query: &SearchQuery, reply: EngineReply) -> (outcome: Result<
        Vec<SearchResult>,
        SearchError,
    >)
        ensures
            match outcome {
                Ok(results) => search_outcome(self@.version, query@, reply@) == Ok::<
                    Seq<ResultView>,
                    SearchErrorView,
                >(result_views(results@)),
                Err(error) => search_outcome(self@.version, query@, reply@) == Err::<
                    Seq<ResultView>,
                    SearchErrorView,
                >(error@),
            },
    {
        search(self.version, query, reply)
    }

    /// Looks for the next session to index.
    fn settle(&mut self) -> (action: Action)
        ensures
            (StepView { state: final(self)@, action: action@ }) == old(self)@.settle(),
    {
        while self.queue.len() > 0
            invariant
                self@.settle() == old(self)@.settle(),
            decreases self.queue.len(),
        {
            let ghost before = self@;
            proof {
                lemma_pending_after_pop(self.queue@);
            }
            let at_hand: usize = self.queue.len() - 1;
            let found = if self.skip_current {
                self.meta_storage.get(self.project_id.as_str(), self.queue[at_hand].as_str())
            } else {
                Ok(None)
            };
            match found {
                Err(_) => {
                    let ghost noted = failure_views(self.failures@);
                    match self.queue.pop() {
                        Some(session) => {
                            let failure = Failure { session, cause: Cause::Ledger };
                            let ghost view = failure@;
                            self.failures.push(failure);
                            assert(failure_views(self.failures@) == noted.push(view));
                        },
                        None => {},
                    }
                },
                Ok(Some(version)) if version == self.version => {
                    self.queue.pop();
                },
                _ => {
                    self.phase = Phase::Fetching;
                    let session = self.queue[at_hand].clone();
                    return Action::Fetch { session };
                },
            }
        }
        self.phase = Phase::Idle;
        Action::Done
    }

    /// Ends the work on the session at hand without indexing it.
    fn give_up(&mut self, cause: Cause) -> (action: Action)
        requires
            old(self)@.pending.len() > 0,
        ensures
            (StepView { state: final(self)@, action: action@ }) == old(self)@.give_up(cause),
    {
        let ghost before = self@;
        proof {
            lemma_pending_after_pop(self.queue@);
        }
        match self.queue.pop() {
            Some(session) => {
                let failure = Failure { session, cause };
                let ghost noted = failure@;
                self.failures.push(failure);
                assert(self@.failures == before.failures.push(noted));
            },
            None => {},
        }
        self.settle()
    }

    /// Asks the driver to record the session at hand.
    fn ask_record(&mut self) -> (action: Action)
        requires
            old(self)@.pending.len() > 0,
        ensures
            (StepView { state: final(self)@, action: action@ }) == old(self)@.ask_record(),
    {
        proof {
            lemma_pending_after_pop(self.queue@);
        }
        self.phase = Phase::Recording;
        let at_hand: usize = self.queue.len() - 1;
        Action::Record {
            key: MetaStorage::key(self.project_id.as_str(), self.queue[at_hand].as_str()),
            value: format_u64(self.version),
        }
    }

    /// Takes a fetched session.
    fn take(&mut self, session: Session) -> (action: Action)
        requires
            old(self)@.pending.len() > 0,
        ensures
            (StepView { state: final(self)@, action: action@ }) == old(self)@.take(session@),
    {
        proof {
            lemma_pending_after_pop(self.queue@);
        }
        let at_hand: usize = self.queue.len() - 1;
        if session.id != self.queue[at_hand] || !has_distinct_paths(&session.deltas) {
            return self.give_up(Cause::History);
        }
        match index_session(self.version, self.project_id.as_str(), &session) {
            Err(error) => self.give_up(Cause::Index(error)),
            Ok(documents) => {
                if session.deltas.len() == 0 {
                    self.ask_record()
                } else {
                    self.phase = Phase::Committing;
                    Action::Commit { documents }
                }
            },
        }
    }

    /// Sets the state for a new run.
    fn begin(&mut self, project_id: &str, sessions: Vec<String>, skip_current: bool)
        ensures
            final(self)@ == old(self)@.begin(project_id@, session_names(sessions@), skip_current),
    {
        self.queue = reversed(sessions);
        self.project_id = project_id.to_owned();
        self.phase = Phase::Idle;
        self.skip_current = skip_current;
        self.failures = Vec::new();
        assert(self@.failures == Seq::<FailureView>::empty());
    }

    /// Starts a walk over the sessions of a project, given in the order of
    /// the history. Sessions that the ledger records at the current schema
    /// version are passed over; the others are indexed one after the
    /// other. A run that was under way is dropped.
    pub fn reindex_project(&mut self, project_id: &str, sessions: Vec<String>) -> (action: Action)
        ensures
            (StepView { state: final(self)@, action: action@ }) == old(self)@.reindex(
                project_id@,
                session_names(sessions@),
            ),
    {
        self.begin(project_id, sessions, true);
        self.settle()
    }

    /// Starts a run that indexes one session, whatever the ledger records
    /// for it. A run that was under way is dropped.
    pub fn index_session(&mut self, project_id: &str, session: Session) -> (action: Action)
        ensures
            (StepView { state: final(self)@, action: action@ }) == old(self)@.index(
                project_id@,
                session@,
            ),
    {
        let mut sessions: Vec<String> = Vec::new();
        sessions.push(session.id.clone());
        assert(session_names(sessions@) == seq![session@.id]);
        self.begin(project_id, sessions, false);
        self.phase = Phase::Fetching;
        self.take(session)
    }

    /// Takes the driver's report on the action that was asked for, and
    /// returns the next action.
    pub fn advance(&mut self, event: Event) -> (action: Action)
        ensures
            (StepView { state: final(self)@, action: action@ }) == old(self)@.step(event@),
    {
        if self.queue.len() == 0 {
            self.phase = Phase::Idle;
            return Action::Done;
        }
        proof {
            lemma_pending_after_pop(self.queue@);
        }
        match self.phase {
            Phase::Idle => Action::Done,
            Phase::Fetching => match event {
                Event::Fetched(session) => self.take(session),
                _ => self.give_up(Cause::History),
            },
            Phase::Committing => match event {
                Event::Done => self.ask_record(),
                _ => self.give_up(Cause::Commit),
            },
            Phase::Recording => match event {
                Event::Done => {
                    let at_hand: usize = self.queue.len() - 1;
                    self.meta_storage.set(
                        self.project_id.as_str(),
                        self.queue[at_hand].as_str(),
                        self.version,
                    );
                    self.queue.pop();
                    self.settle()
                },
                _ => self.give_up(Cause::Ledger),
            },
        }
    }
}

} // verus!
