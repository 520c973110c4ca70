//! What holds of every run, whatever the driver reports.
//!
//! The statements are about `DeltasView::step` and the functions that start
//! a run, which are what `Deltas` does step by step.

use crate::decimal::{decimal, lemma_parse_decimal_of_decimal};
use crate::deltas::{ActionView, Cause, DeltasView, EventView, FailureView, Phase, StepView};
use crate::indexer::{
    distinct_documents, distinct_paths, lemma_documents_are_distinct, session_outcome,
    DocumentView, IndexError, SessionView,
};
use crate::ledger::{
    at_most, ledger_key, lemma_ledger_key_is_one_to_one, lemma_recorded_after_insert, recorded_at,
    within,
};
use vstd::prelude::*;

verus! {

/// Whether a recorded version is at least another: no version is below
/// every version, and a version is at least the versions up to it.
pub open spec fn at_least(later: Option<u64>, earlier: Option<u64>) -> bool {
    match earlier {
        None => true,
        Some(low) => later matches Some(high) && high >= low,
    }
}

/// Whether no version that `earlier` records is lowered or lost in `later`.
pub open spec fn never_lower(
    later: Map<Seq<char>, Seq<char>>,
    earlier: Map<Seq<char>, Seq<char>>,
) -> bool {
    forall|key: Seq<char>|
        at_least(#[trigger] recorded_at(later, key), recorded_at(earlier, key))
}

/// The state after the driver has reported `events` one after the other.
pub open spec fn run(state: DeltasView, events: Seq<EventView>) -> DeltasView
    decreases events.len(),
{
    if events.len() == 0 {
        state
    } else {
        run(state, events.drop_last()).step(events.last()).state
    }
}

/// Whether a failure of `session` is among `failures`.
pub open spec fn noted(failures: Seq<FailureView>, session: Seq<char>) -> bool {
    exists|k: int| 0 <= k < failures.len() && (#[trigger] failures[k]).session == session
}

/// The state in which the session at hand is noted as failed and taken
/// off what is pending.
pub open spec fn noted_off(state: DeltasView, cause: Cause) -> DeltasView {
    DeltasView {
        pending: state.pending.drop_first(),
        failures: state.failures.push(FailureView { session: state.pending[0], cause }),
        ..state
    }
}

/// Looking for the next session leaves the ledger, the version and the
/// project as they are: it takes sessions off the head of what is pending,
/// notes those whose entry could not be read, and sets the phase.
pub proof fn lemma_settle_keeps(state: DeltasView)
    ensures
        state.settle().state.ledger == state.ledger,
        state.settle().state.unreadable == state.unreadable,
        state.settle().state.index_dir == state.index_dir,
        state.settle().state.version == state.version,
        state.settle().state.project_id == state.project_id,
        state.settle().state.skip_current == state.skip_current,
    decreases state.pending.len(),
{
    if state.pending.len() > 0 && state.skip_current {
        if state.is_unreadable(state.pending[0]) {
            lemma_settle_keeps(noted_off(state, Cause::Ledger));
        } else if state.is_current(state.pending[0]) {
            lemma_settle_keeps(DeltasView { pending: state.pending.drop_first(), ..state });
        }
    }
}

/// The ledger changes in one way only: when the driver reports that the
/// entry of the session at hand was written, that entry is set to the
/// state's schema version. No failure, and no other event, touches it.
pub proof fn lemma_ledger_changes_only_when_recorded(state: DeltasView, event: EventView)
    ensures
        state.step(event).state.version == state.version,
        state.step(event).state.project_id == state.project_id,
        state.step(event).state.ledger == if state.pending.len() > 0 && state.phase
            == Phase::Recording && event == EventView::Done {
            state.ledger.insert(
                ledger_key(state.project_id, state.pending[0]),
                decimal(state.version as nat),
            )
        } else {
            state.ledger
        },
{
    if state.pending.len() > 0 {
        match state.phase {
            Phase::Idle => {},
            Phase::Fetching => {
                lemma_give_up_keeps(state, Cause::History);
                match event {
                    EventView::Fetched(session) => {
                        lemma_take_keeps(state, session);
                    },
                    _ => {},
                }
            },
            Phase::Committing => {
                lemma_give_up_keeps(state, Cause::Commit);
            },
            Phase::Recording => {
                lemma_give_up_keeps(state, Cause::Ledger);
                lemma_settle_keeps(state.recorded());
            },
        }
    }
}

/// A step leaves what the ledger records for every other session as it
/// is: a session of another project, or another session of the project of
/// the run than the session at hand. Whatever the ids hold, no run writes
/// the record of a session that it does not index.
pub proof fn lemma_step_keeps_other_sessions(
    state: DeltasView,
    event: EventView,
    project_id: Seq<char>,
    session: Seq<char>,
)
    requires
        state.pending.len() > 0 ==> project_id != state.project_id || session != state.pending[0],
    ensures
        recorded_at(state.step(event).state.ledger, ledger_key(project_id, session)) == recorded_at(
            state.ledger,
            ledger_key(project_id, session),
        ),
{
    lemma_ledger_changes_only_when_recorded(state, event);
    if state.pending.len() > 0 {
        let written = ledger_key(state.project_id, state.pending[0]);
        let other = ledger_key(project_id, session);
        if other == written {
            lemma_ledger_key_is_one_to_one(project_id, session, state.project_id, state.pending[0]);
        }
        lemma_recorded_after_insert(state.ledger, written, state.version, other);
    }
}

/// Whether `rest` is what is left of `whole` when sessions are taken off
/// its head.
pub open spec fn rest_of(rest: Seq<Seq<char>>, whole: Seq<Seq<char>>) -> bool {
    rest.len() <= whole.len() && rest == whole.subrange(
        whole.len() - rest.len(),
        whole.len() as int,
    )
}

/// Looking for the next session takes sessions off the head of what is
/// pending, and does nothing else to it.
pub proof fn lemma_settle_takes_off(state: DeltasView)
    ensures
        rest_of(state.settle().state.pending, state.pending),
    decreases state.pending.len(),
{
    if state.pending.len() > 0 && state.skip_current && (state.is_unreadable(state.pending[0])
        || state.is_current(state.pending[0])) {
        let next = if state.is_unreadable(state.pending[0]) {
            noted_off(state, Cause::Ledger)
        } else {
            DeltasView { pending: state.pending.drop_first(), ..state }
        };
        lemma_settle_takes_off(next);
        let left = next.settle().state.pending;
        assert(left == state.pending.subrange(
            state.pending.len() - left.len(),
            state.pending.len() as int,
        ));
    } else {
        assert(state.pending == state.pending.subrange(0, state.pending.len() as int));
    }
}

/// Giving up the session at hand takes sessions off the head of what is
/// pending.
pub proof fn lemma_give_up_takes_off(state: DeltasView, cause: Cause)
    requires
        state.pending.len() > 0,
    ensures
        rest_of(state.give_up(cause).state.pending, state.pending),
{
    let next = DeltasView {
        pending: state.pending.drop_first(),
        failures: state.failures.push(FailureView { session: state.pending[0], cause }),
        ..state
    };
    lemma_settle_takes_off(next);
    let left = next.settle().state.pending;
    assert(left == state.pending.subrange(
        state.pending.len() - left.len(),
        state.pending.len() as int,
    ));
}

/// Taking a fetched session takes sessions off the head of what is
/// pending, or leaves it as it is.
pub proof fn lemma_take_takes_off(state: DeltasView, session: SessionView)
    requires
        state.pending.len() > 0,
    ensures
        rest_of(state.take(session).state.pending, state.pending),
{
    assert(state.pending == state.pending.subrange(0, state.pending.len() as int));
    lemma_give_up_takes_off(state, Cause::History);
    match session_outcome(state.version, state.project_id, session) {
        Err(error) => {
            lemma_give_up_takes_off(state, Cause::Index(error));
        },
        Ok(_) => {},
    }
}

/// A step takes sessions off the head of what is pending, or leaves it as
/// it is: no step adds a session to a run.
pub proof fn lemma_step_takes_off(state: DeltasView, event: EventView)
    ensures
        rest_of(state.step(event).state.pending, state.pending),
{
    assert(state.pending == state.pending.subrange(0, state.pending.len() as int));
    if state.pending.len() > 0 {
        match state.phase {
            Phase::Idle => {},
            Phase::Fetching => {
                lemma_give_up_takes_off(state, Cause::History);
                match event {
                    EventView::Fetched(session) => {
                        lemma_take_takes_off(state, session);
                    },
                    _ => {},
                }
            },
            Phase::Committing => {
                lemma_give_up_takes_off(state, Cause::Commit);
            },
            Phase::Recording => {
                lemma_give_up_takes_off(state, Cause::Ledger);
                let next = state.recorded();
                lemma_settle_takes_off(next);
                let left = next.settle().state.pending;
                assert(left == state.pending.subrange(
                    state.pending.len() - left.len(),
                    state.pending.len() as int,
                ));
            },
        }
    }
}

/// Over any sequence of reports, what the ledger records for a session
/// that is not among the sessions of the run stays as it is: a run writes
/// the records of the sessions it indexes, and no others, whatever the ids
/// hold.
pub proof fn lemma_run_keeps_other_sessions(
    state: DeltasView,
    events: Seq<EventView>,
    project_id: Seq<char>,
    session: Seq<char>,
)
    requires
        forall|i: int|
            0 <= i < state.pending.len() ==> project_id != state.project_id || session
                != #[trigger] state.pending[i],
    ensures
        recorded_at(run(state, events).ledger, ledger_key(project_id, session)) == recorded_at(
            state.ledger,
            ledger_key(project_id, session),
        ),
        run(state, events).project_id == state.project_id,
        rest_of(run(state, events).pending, state.pending),
    decreases events.len(),
{
    if events.len() == 0 {
        assert(state.pending == state.pending.subrange(0, state.pending.len() as int));
    } else {
        let reached = run(state, events.drop_last());
        lemma_run_keeps_other_sessions(state, events.drop_last(), project_id, session);
        lemma_ledger_changes_only_when_recorded(reached, events.last());
        lemma_step_takes_off(reached, events.last());
        if reached.pending.len() > 0 {
            assert(reached.pending[0] == state.pending[state.pending.len() - reached.pending.len()]);
        }
        lemma_step_keeps_other_sessions(reached, events.last(), project_id, session);
        let left = reached.step(events.last()).state.pending;
        assert(left == state.pending.subrange(
            state.pending.len() - left.len(),
            state.pending.len() as int,
        ));
    }
}

/// Indexing one session leaves what the ledger records for every other
/// session as it is, from the start of the run to its end and whether it
/// succeeds or fails.
pub proof fn lemma_index_keeps_other_sessions(
    state: DeltasView,
    project_id: Seq<char>,
    session: SessionView,
    events: Seq<EventView>,
    other_project: Seq<char>,
    other_session: Seq<char>,
)
    requires
        other_project != project_id || other_session != session.id,
    ensures
        recorded_at(
            run(state.index(project_id, session).state, events).ledger,
            ledger_key(other_project, other_session),
        ) == recorded_at(state.ledger, ledger_key(other_project, other_session)),
{
    let begun = DeltasView {
        phase: Phase::Fetching,
        ..state.begin(project_id, seq![session.id], false)
    };
    let started = state.index(project_id, session).state;
    lemma_take_keeps(begun, session);
    lemma_take_takes_off(begun, session);
    assert forall|i: int| 0 <= i < started.pending.len() implies other_project
        != started.project_id || other_session != #[trigger] started.pending[i] by {
        assert(started.pending[i] == begun.pending[begun.pending.len() - started.pending.len() + i]);
    }
    lemma_run_keeps_other_sessions(started, events, other_project, other_session);
}

/// The documents that the driver is asked to commit for a fetched session
/// are those of the session, and no two of them stand for the same delta of
/// the same file.
pub proof fn lemma_committed_documents_are_distinct(state: DeltasView, session: SessionView)
    ensures
        state.take(session).action matches ActionView::Commit { documents } ==> {
            &&& session_outcome(state.version, state.project_id, session) == Ok::<
                Seq<DocumentView>,
                IndexError,
            >(documents)
            &&& distinct_documents(documents)
        },
{
    if session.id == state.pending[0] && distinct_paths(session.deltas) {
        match session_outcome(state.version, state.project_id, session) {
            Err(error) => {
                lemma_walk_fetches_no_current_session(
                    DeltasView {
                        pending: state.pending.drop_first(),
                        failures: state.failures.push(
                            FailureView { session: state.pending[0], cause: Cause::Index(error) },
                        ),
                        ..state
                    },
                );
            },
            Ok(_) => {
                lemma_documents_are_distinct(
                    state.version,
                    state.project_id,
                    session.id,
                    session.files,
                    session.deltas,
                );
            },
        }
    } else {
        lemma_walk_fetches_no_current_session(
            DeltasView {
                pending: state.pending.drop_first(),
                failures: state.failures.push(
                    FailureView { session: state.pending[0], cause: Cause::History },
                ),
                ..state
            },
        );
    }
}

/// Giving up a session keeps the ledger, the version and the project.
pub proof fn lemma_give_up_keeps(state: DeltasView, cause: Cause)
    ensures
        state.give_up(cause).state.ledger == state.ledger,
        state.give_up(cause).state.version == state.version,
        state.give_up(cause).state.project_id == state.project_id,
        state.give_up(cause).state.skip_current == state.skip_current,
{
    lemma_settle_keeps(
        DeltasView {
            pending: state.pending.drop_first(),
            failures: state.failures.push(FailureView { session: state.pending[0], cause }),
            ..state
        },
    );
}

/// Taking a fetched session keeps the ledger, the version and the project.
pub proof fn lemma_take_keeps(state: DeltasView, session: SessionView)
    ensures
        state.take(session).state.ledger == state.ledger,
        state.take(session).state.version == state.version,
        state.take(session).state.project_id == state.project_id,
        state.take(session).state.skip_current == state.skip_current,
{
    lemma_give_up_keeps(state, Cause::History);
    match session_outcome(state.version, state.project_id, session) {
        Err(error) => {
            lemma_give_up_keeps(state, Cause::Index(error));
        },
        Ok(_) => {},
    }
}

/// Setting an entry to a version that no entry exceeds lowers nothing.
pub proof fn lemma_insert_never_lowers(
    ledger: Map<Seq<char>, Seq<char>>,
    key: Seq<char>,
    version: u64,
)
    requires
        within(ledger, version),
    ensures
        never_lower(ledger.insert(key, decimal(version as nat)), ledger),
        within(ledger.insert(key, decimal(version as nat)), version),
{
    let later = ledger.insert(key, decimal(version as nat));
    assert forall|other: Seq<char>|
        at_least(#[trigger] recorded_at(later, other), recorded_at(ledger, other)) by {
        lemma_recorded_after_insert(ledger, key, version, other);
    }
    assert forall|other: Seq<char>| at_most(#[trigger] recorded_at(later, other), version) by {
        lemma_recorded_after_insert(ledger, key, version, other);
    }
}

/// No step lowers a recorded version: whatever the driver reports, every
/// session that the ledger recorded before the step is recorded after it
/// at the same version or a higher one. This holds of a ledger that
/// records no version above the state's own.
pub proof fn lemma_step_never_lowers(state: DeltasView, event: EventView)
    requires
        within(state.ledger, state.version),
    ensures
        never_lower(state.step(event).state.ledger, state.ledger),
        within(state.step(event).state.ledger, state.step(event).state.version),
{
    lemma_ledger_changes_only_when_recorded(state, event);
    if state.pending.len() > 0 && state.phase == Phase::Recording && event == EventView::Done {
        lemma_insert_never_lowers(
            state.ledger,
            ledger_key(state.project_id, state.pending[0]),
            state.version,
        );
    } else {
        assert forall|key: Seq<char>|
            at_least(
                #[trigger] recorded_at(state.step(event).state.ledger, key),
                recorded_at(state.ledger, key),
            ) by {}
    }
}

/// Over any sequence of reports no recorded version is ever lowered.
pub proof fn lemma_run_never_lowers(state: DeltasView, events: Seq<EventView>)
    requires
        within(state.ledger, state.version),
    ensures
        never_lower(run(state, events).ledger, state.ledger),
        within(run(state, events).ledger, run(state, events).version),
        run(state, events).version == state.version,
    decreases events.len(),
{
    if events.len() == 0 {
        assert forall|key: Seq<char>|
            at_least(#[trigger] recorded_at(state.ledger, key), recorded_at(state.ledger, key)) by {}
    } else {
        let reached = run(state, events.drop_last());
        lemma_run_never_lowers(state, events.drop_last());
        lemma_step_never_lowers(reached, events.last());
        lemma_ledger_changes_only_when_recorded(reached, events.last());
        let after = reached.step(events.last()).state;
        assert forall|key: Seq<char>|
            at_least(#[trigger] recorded_at(after.ledger, key), recorded_at(state.ledger, key)) by {}
    }
}

/// Starting a run changes no entry of the ledger, be it a walk or the
/// indexing of one session.
pub proof fn lemma_start_keeps_ledger(
    state: DeltasView,
    project_id: Seq<char>,
    sessions: Seq<Seq<char>>,
    session: SessionView,
)
    ensures
        state.reindex(project_id, sessions).state.ledger == state.ledger,
        state.reindex(project_id, sessions).state.version == state.version,
        state.index(project_id, session).state.ledger == state.ledger,
        state.index(project_id, session).state.version == state.version,
{
    lemma_settle_keeps(state.begin(project_id, sessions, true));
    lemma_take_keeps(
        DeltasView { phase: Phase::Fetching, ..state.begin(project_id, seq![session.id], false) },
        session,
    );
}

/// A walk never asks for a session that the ledger records at the current
/// version, nor for one whose entry could not be read: the session that
/// the driver is asked to fetch is the session at hand, and where sessions
/// are passed over it is neither. Whatever went before, a session that is
/// current is not indexed again, and a session whose entry could not be
/// read is not indexed on a guess.
pub proof fn lemma_walk_fetches_no_current_session(state: DeltasView)
    ensures
        state.settle().action matches ActionView::Fetch { session } ==> {
            &&& state.settle().state.phase == Phase::Fetching
            &&& state.settle().state.pending.len() > 0
            &&& state.settle().state.pending[0] == session
            &&& state.skip_current ==> !state.is_current(session) && !state.is_unreadable(session)
        },
        !(state.settle().action is Fetch) ==> state.settle().action == ActionView::Done
            && state.settle().state.pending.len() == 0,
    decreases state.pending.len(),
{
    if state.pending.len() > 0 && state.skip_current {
        if state.is_unreadable(state.pending[0]) {
            lemma_walk_fetches_no_current_session(noted_off(state, Cause::Ledger));
        } else if state.is_current(state.pending[0]) {
            lemma_walk_fetches_no_current_session(
                DeltasView { pending: state.pending.drop_first(), ..state },
            );
        }
    }
}

/// A session whose entry could not be read is given up when a walk comes
/// to it: it is noted with `Cause::Ledger`, nothing is fetched, committed or
/// written for it, and the walk goes on with the next session.
pub proof fn lemma_unreadable_session_is_given_up(state: DeltasView)
    requires
        state.pending.len() > 0,
        state.skip_current,
        state.is_unreadable(state.pending[0]),
    ensures
        state.settle() == state.give_up(Cause::Ledger),
        state.settle() == noted_off(state, Cause::Ledger).settle(),
{
}

/// A walk over sessions that the ledger all records at the current
/// version asks the driver for nothing: it is over at once, with no session
/// fetched, no document committed and no entry written.
pub proof fn lemma_walk_over_current_sessions(
    state: DeltasView,
    project_id: Seq<char>,
    sessions: Seq<Seq<char>>,
)
    requires
        forall|i: int|
            0 <= i < sessions.len() ==> recorded_at(
                state.ledger,
                ledger_key(project_id, #[trigger] sessions[i]),
            ) == Some(state.version),
    ensures
        state.reindex(project_id, sessions) == (StepView {
            state: DeltasView {
                project_id,
                pending: Seq::empty(),
                phase: Phase::Idle,
                skip_current: true,
                failures: Seq::empty(),
                ..state
            },
            action: ActionView::Done,
        }),
    decreases sessions.len(),
{
    if sessions.len() == 0 {
        assert(sessions == Seq::<Seq<char>>::empty());
    } else {
        let rest = sessions.drop_first();
        assert forall|i: int| 0 <= i < rest.len() implies recorded_at(
            state.ledger,
            ledger_key(project_id, #[trigger] rest[i]),
        ) == Some(state.version) by {}
        lemma_walk_over_current_sessions(state, project_id, rest);
    }
}

/// Whether `state` is a state of a walk over `sessions` of `project_id`:
/// what is pending is the rest of the sessions, and every session before
/// the rest is recorded at the current version or noted as failed.
pub open spec fn walking(state: DeltasView, project_id: Seq<char>, sessions: Seq<Seq<char>>) -> bool {
    let dealt = sessions.len() - state.pending.len();
    &&& state.project_id == project_id
    &&& state.skip_current
    &&& dealt >= 0
    &&& state.pending == sessions.subrange(dealt, sessions.len() as int)
    &&& forall|i: int|
        0 <= i < dealt ==> state.is_current(#[trigger] sessions[i]) || noted(
            state.failures,
            sessions[i],
        )
}

/// Looking for the next session leads from a state of a walk to a state of
/// the walk, in which a run that is idle has nothing pending.
pub proof fn lemma_settle_walks(state: DeltasView, project_id: Seq<char>, sessions: Seq<Seq<char>>)
    requires
        walking(state, project_id, sessions),
    ensures
        walking(state.settle().state, project_id, sessions),
        state.settle().state.phase == Phase::Idle ==> state.settle().state.pending.len() == 0,
        state.settle().state.phase != Phase::Idle ==> state.settle().state.phase
            == Phase::Fetching,
    decreases state.pending.len(),
{
    let dealt = sessions.len() - state.pending.len();
    if state.pending.len() == 0 {
        let idle = DeltasView { phase: Phase::Idle, ..state };
        assert forall|i: int| 0 <= i < dealt implies idle.is_current(#[trigger] sessions[i])
            || noted(idle.failures, sessions[i]) by {}
    } else if state.skip_current && state.is_unreadable(state.pending[0]) {
        lemma_noting_walks(state, Cause::Ledger, project_id, sessions);
        lemma_settle_walks(noted_off(state, Cause::Ledger), project_id, sessions);
    } else if state.skip_current && state.is_current(state.pending[0]) {
        let next = DeltasView { pending: state.pending.drop_first(), ..state };
        assert(next.pending == sessions.subrange(dealt + 1, sessions.len() as int));
        assert forall|i: int| 0 <= i < dealt + 1 implies next.is_current(#[trigger] sessions[i])
            || noted(next.failures, sessions[i]) by {}
        lemma_settle_walks(next, project_id, sessions);
    } else {
        let fetching = DeltasView { phase: Phase::Fetching, ..state };
        assert forall|i: int| 0 <= i < dealt implies fetching.is_current(#[trigger] sessions[i])
            || noted(fetching.failures, sessions[i]) by {}
    }
}

/// Noting the session at hand as failed and taking it off leads from a
/// state of a walk to a state of the walk.
pub proof fn lemma_noting_walks(
    state: DeltasView,
    cause: Cause,
    project_id: Seq<char>,
    sessions: Seq<Seq<char>>,
)
    requires
        walking(state, project_id, sessions),
        state.pending.len() > 0,
    ensures
        walking(noted_off(state, cause), project_id, sessions),
{
    let dealt = sessions.len() - state.pending.len();
    let failure = FailureView { session: state.pending[0], cause };
    let next = noted_off(state, cause);
    assert(state.pending[0] == sessions[dealt]);
    assert(next.pending == sessions.subrange(dealt + 1, sessions.len() as int));
    assert forall|i: int| 0 <= i < dealt + 1 implies next.is_current(#[trigger] sessions[i])
        || noted(next.failures, sessions[i]) by {
        if i < dealt {
            assert(state.is_current(sessions[i]) || noted(state.failures, sessions[i]));
            if noted(state.failures, sessions[i]) {
                let k = choose|k: int|
                    0 <= k < state.failures.len() && (#[trigger] state.failures[k]).session
                        == sessions[i];
                assert(next.failures[k] == state.failures[k]);
            }
        } else {
            assert(next.failures[state.failures.len() as int] == failure);
        }
    }
}

/// Giving up the session at hand leads from a state of a walk to a state
/// of the walk.
pub proof fn lemma_give_up_walks(
    state: DeltasView,
    cause: Cause,
    project_id: Seq<char>,
    sessions: Seq<Seq<char>>,
)
    requires
        walking(state, project_id, sessions),
        state.pending.len() > 0,
    ensures
        walking(state.give_up(cause).state, project_id, sessions),
        state.give_up(cause).state.phase == Phase::Idle ==> state.give_up(
            cause,
        ).state.pending.len() == 0,
{
    lemma_noting_walks(state, cause, project_id, sessions);
    lemma_settle_walks(noted_off(state, cause), project_id, sessions);
}

/// Every step leads from a state of a walk to a state of the walk.
pub proof fn lemma_step_walks(
    state: DeltasView,
    event: EventView,
    project_id: Seq<char>,
    sessions: Seq<Seq<char>>,
)
    requires
        walking(state, project_id, sessions),
        state.phase == Phase::Idle ==> state.pending.len() == 0,
    ensures
        walking(state.step(event).state, project_id, sessions),
        state.step(event).state.phase == Phase::Idle ==> state.step(event).state.pending.len()
            == 0,
{
    let dealt = sessions.len() - state.pending.len();
    let after = state.step(event).state;
    if state.pending.len() == 0 {
        assert forall|i: int| 0 <= i < dealt implies after.is_current(#[trigger] sessions[i])
            || noted(after.failures, sessions[i]) by {}
    } else {
        match state.phase {
            Phase::Idle => {},
            Phase::Fetching => {
                lemma_give_up_walks(state, Cause::History, project_id, sessions);
                match event {
                    EventView::Fetched(session) => {
                        match session_outcome(
                            state.version,
                            state.project_id,
                            session,
                        ) {
                            Err(error) => {
                                lemma_give_up_walks(
                                    state,
                                    Cause::Index(error),
                                    project_id,
                                    sessions,
                                );
                            },
                            Ok(_) => {
                                lemma_phase_walks(state, after.phase, project_id, sessions);
                            },
                        }
                    },
                    _ => {},
                }
            },
            Phase::Committing => {
                lemma_give_up_walks(state, Cause::Commit, project_id, sessions);
                lemma_phase_walks(state, Phase::Recording, project_id, sessions);
            },
            Phase::Recording => {
                lemma_give_up_walks(state, Cause::Ledger, project_id, sessions);
                let next = state.recorded();
                let key = ledger_key(state.project_id, state.pending[0]);
                assert(next.pending == sessions.subrange(dealt + 1, sessions.len() as int));
                assert forall|i: int| 0 <= i < dealt + 1 implies next.is_current(
                    #[trigger] sessions[i],
                ) || noted(next.failures, sessions[i]) by {
                    lemma_recorded_after_insert(
                        state.ledger,
                        key,
                        state.version,
                        ledger_key(state.project_id, sessions[i]),
                    );
                }
                lemma_settle_walks(next, project_id, sessions);
            },
        }
    }
}

/// A change of phase alone leads from a state of a walk to a state of the
/// walk.
pub proof fn lemma_phase_walks(
    state: DeltasView,
    phase: Phase,
    project_id: Seq<char>,
    sessions: Seq<Seq<char>>,
)
    requires
        walking(state, project_id, sessions),
    ensures
        walking(DeltasView { phase, ..state }, project_id, sessions),
{
    let dealt = sessions.len() - state.pending.len();
    let next = DeltasView { phase, ..state };
    assert forall|i: int| 0 <= i < dealt implies next.is_current(#[trigger] sessions[i]) || noted(
        next.failures,
        sessions[i],
    ) by {}
}

/// Every state that a walk reaches is a state of the walk.
pub proof fn lemma_run_walks(
    state: DeltasView,
    project_id: Seq<char>,
    sessions: Seq<Seq<char>>,
    events: Seq<EventView>,
)
    ensures
        walking(run(state.reindex(project_id, sessions).state, events), project_id, sessions),
        run(state.reindex(project_id, sessions).state, events).phase == Phase::Idle ==> run(
            state.reindex(project_id, sessions).state,
            events,
        ).pending.len() == 0,
    decreases events.len(),
{
    let begun = state.begin(project_id, sessions, true);
    if events.len() == 0 {
        assert(begun.pending == sessions.subrange(0, sessions.len() as int));
        lemma_settle_walks(begun, project_id, sessions);
    } else {
        lemma_run_walks(state, project_id, sessions, events.drop_last());
        lemma_step_walks(
            run(state.reindex(project_id, sessions).state, events.drop_last()),
            events.last(),
            project_id,
            sessions,
        );
    }
}

/// Reindexing twice in a row: when a walk over the sessions of a project
/// has come to its end and has noted no failure, a second walk over the
/// same sessions asks the driver for nothing and leaves the state as the
/// first walk left it. No document is committed and no ledger entry is
/// written on the second walk.
pub proof fn lemma_reindex_twice(
    state: DeltasView,
    project_id: Seq<char>,
    sessions: Seq<Seq<char>>,
    events: Seq<EventView>,
)
    requires
        run(state.reindex(project_id, sessions).state, events).phase == Phase::Idle,
        run(state.reindex(project_id, sessions).state, events).failures.len() == 0,
    ensures
        run(state.reindex(project_id, sessions).state, events).reindex(project_id, sessions)
            == (StepView {
            state: run(state.reindex(project_id, sessions).state, events),
            action: ActionView::Done,
        }),
{
    let first = run(state.reindex(project_id, sessions).state, events);
    lemma_run_walks(state, project_id, sessions, events);
    assert(first.pending == Seq::<Seq<char>>::empty());
    assert(first.failures == Seq::<FailureView>::empty());
    assert forall|i: int| 0 <= i < sessions.len() implies recorded_at(
        first.ledger,
        ledger_key(project_id, #[trigger] sessions[i]),
    ) == Some(first.version) by {}
    lemma_walk_over_current_sessions(first, project_id, sessions);
}

} // verus!
