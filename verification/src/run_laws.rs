//! What holds of a whole round of resuming agents, whatever happens outside.
use crate::agent_resume::{LaunchOutcome, ResumeRefusal, Resumes, SpawnRequest};
use crate::input_bytes::bytes_of;
use crate::paths::path_of;
use crate::resume_laws::{
    after_round, candidates_are_distinct, candidates_are_the_resumable_terminals_shown, distinct,
    follows_round, holds, lemma_passed_over,
    round_leaves_other_terminals_alone, same_terminal, step_follows_round,
};
use crate::resume_round::{
    settled_at_once, ResumeAction, ResumeEvent, ResumeStage, RoundState,
};
use crate::session::{App, AppState, TabSurface};
use crate::shell_command::{command_line, command_line_reads_back, shell_words};
use bytes::Bytes;
use vstd::prelude::*;
use vstd::utf8::encode_utf8;

verus! {

/// Whether `states` are a run of a round from its beginning: each comes from the
/// one before by its event.
pub open spec fn is_run(
    states: Seq<RoundState>,
    events: Seq<ResumeEvent>,
    actions: Seq<ResumeAction>,
) -> bool {
    &&& states.len() == events.len() + 1
    &&& states.len() == actions.len() + 1
    &&& states[0].round.stage is Idle
    &&& states[0].round.outcomes@.len() == 0
    &&& forall|i: int| 0 <= i < states.len() ==> (#[trigger] states[i]).round.well_formed()
    &&& forall|i: int|
        0 <= i < events.len() ==> states[i].advances(
            #[trigger] events[i],
            states[i + 1],
            actions[i],
        )
}

/// A run without its last step is a run.
proof fn lemma_shorter_run(
    states: Seq<RoundState>,
    events: Seq<ResumeEvent>,
    actions: Seq<ResumeAction>,
)
    requires
        is_run(states, events, actions),
        events.len() > 0,
    ensures
        is_run(states.drop_last(), events.drop_last(), actions.drop_last()),
        states.drop_last().last().round.well_formed(),
        states.last().round.well_formed(),
        states.drop_last().last().advances(events.last(), states.last(), actions.last()),
{
    let earlier = states.drop_last();
    assert forall|i: int| 0 <= i < events.drop_last().len() implies earlier[i].advances(
        #[trigger] events.drop_last()[i],
        earlier[i + 1],
        actions.drop_last()[i],
    ) by {
        assert(states[i].advances(events[i], states[i + 1], actions[i]));
    }
    let last = events.len() - 1;
    assert(states[last].advances(events[last], states[last + 1], actions[last]));
    assert(states[last].round.well_formed());
}

/// A run of a round, wherever it stands and whatever happened outside, has made
/// of the terminals what the outcomes of its agents so far make of them.
pub proof fn run_makes_its_outcomes(
    states: Seq<RoundState>,
    events: Seq<ResumeEvent>,
    actions: Seq<ResumeAction>,
)
    requires
        is_run(states, events, actions),
    ensures
        follows_round(states[0].app.resumes(), states.last()),
        states.last().round.candidates() == states[0].round.candidates(),
    decreases events.len(),
{
    if events.len() == 0 {
        assert(states[0].round.candidates().take(0) =~= Seq::empty());
    } else {
        lemma_shorter_run(states, events, actions);
        run_makes_its_outcomes(states.drop_last(), events.drop_last(), actions.drop_last());
        step_follows_round(
            states[0].app.resumes(),
            states.drop_last().last(),
            events.last(),
            states.last(),
            actions.last(),
        );
    }
}

/// Up to its end a run keeps the application but for the terminals, and the
/// settings of the session beyond that.
proof fn lemma_run_keeps(
    states: Seq<RoundState>,
    events: Seq<ResumeEvent>,
    actions: Seq<ResumeAction>,
)
    requires
        is_run(states, events, actions),
    ensures
        states[0].round.same_round(states.last().round),
        states.last().round.stage !is Finished ==> states[0].app.keeps_all_but_terminals(
            states.last().app,
        ),
        states.last().app.state == (AppState {
            terminals: states.last().app.state.terminals,
            ..states[0].app.state
        }),
        states.last().round.stage is Idle ==> states.last().round.outcomes@.len() == 0,
    decreases events.len(),
{
    if events.len() > 0 {
        lemma_shorter_run(states, events, actions);
        lemma_run_keeps(states.drop_last(), events.drop_last(), actions.drop_last());
    }
}

/// What is shown depends on the workspaces alone.
proof fn lemma_same_exposed(a: App, b: App, surfaces: Seq<TabSurface>)
    requires
        a.state.workspaces == b.state.workspaces,
    ensures
        a.exposed(surfaces) == b.exposed(surfaces),
    decreases surfaces.len(),
{
    if surfaces.len() > 0 {
        lemma_same_exposed(a, b, surfaces.drop_last());
    }
}

/// Whether any of the outcomes is that a command was taken.
pub open spec fn some_sent(outcomes: Seq<LaunchOutcome>) -> bool {
    exists|i: int| 0 <= i < outcomes.len() && (#[trigger] outcomes[i]) is Sent
}

/// What a finished round over surfaces comes to. Each agent has its outcome, and
/// the terminals are what the outcomes make of them. The round reports whether
/// any agent was resumed, and then has the session saved. The deadline goes by
/// what the surfaces still show to resume at the end. All else is as it was.
pub proof fn finished_round_over_surfaces(
    states: Seq<RoundState>,
    events: Seq<ResumeEvent>,
    actions: Seq<ResumeAction>,
)
    requires
        is_run(states, events, actions),
        states[0].round.scope is Surfaces,
        states.last().round.stage is Finished,
    ensures
        ({
            let start = states[0];
            let end = states.last();
            let outcomes = end.round.outcomes@;
            &&& outcomes.len() == start.round.candidates().len()
            &&& actions.last() == ResumeAction::Finished(some_sent(outcomes))
            &&& end.app.resumes() == after_round(
                start.app.resumes(),
                start.round.candidates(),
                outcomes,
            )
            &&& events.last() matches ResumeEvent::LaidOut(again, now)
            &&& end.app == (App {
                state: AppState { terminals: end.app.state.terminals, ..start.app.state },
                terminal_runtimes: end.app.terminal_runtimes,
                session_save_scheduled: start.app.session_save_scheduled || some_sent(outcomes),
                pending_agent_resume_deadline: if end.app.resume_candidates(again@).len() == 0 {
                    None
                } else if start.round.allow_empty_theme {
                    Some((now + start.app.theme_wait) as u64)
                } else {
                    start.app.pending_agent_resume_deadline
                },
                ..start.app
            })
        }),
{
    let end = states.last();
    run_makes_its_outcomes(states, events, actions);
    lemma_run_keeps(states, events, actions);
    lemma_shorter_run(states, events, actions);
    lemma_run_keeps(states.drop_last(), events.drop_last(), actions.drop_last());
    let before = states.drop_last().last();
    assert(before.round.stage is LayingOut);
    if let ResumeEvent::LaidOut(again, now) = events.last() {
        lemma_same_exposed(before.app, end.app, again@);
    }
    let queue = states[0].round.candidates();
    assert(queue.take(queue.len() as int) =~= queue);
}

/// What a finished round over one terminal comes to. Its agent has its outcome,
/// and the terminals are what the outcome makes of them. The round reports
/// whether the agent was resumed, and then has the session saved. The deadline
/// stays while any terminal waits. All else is as it was.
pub proof fn finished_round_over_a_terminal(
    states: Seq<RoundState>,
    events: Seq<ResumeEvent>,
    actions: Seq<ResumeAction>,
)
    requires
        is_run(states, events, actions),
        states[0].round.scope is Terminal,
        states.last().round.stage is Finished,
    ensures
        ({
            let start = states[0];
            let end = states.last();
            let outcomes = end.round.outcomes@;
            &&& outcomes.len() == start.round.candidates().len()
            &&& actions.last() == ResumeAction::Finished(some_sent(outcomes))
            &&& end.app.resumes() == after_round(
                start.app.resumes(),
                start.round.candidates(),
                outcomes,
            )
            &&& end.app == (App {
                state: AppState { terminals: end.app.state.terminals, ..start.app.state },
                terminal_runtimes: end.app.terminal_runtimes,
                session_save_scheduled: start.app.session_save_scheduled || some_sent(outcomes),
                pending_agent_resume_deadline: if end.app.resumes().any_waits() {
                    start.app.pending_agent_resume_deadline
                } else {
                    None
                },
                ..start.app
            })
        }),
{
    run_makes_its_outcomes(states, events, actions);
    lemma_run_keeps(states, events, actions);
    lemma_shorter_run(states, events, actions);
    lemma_run_keeps(states.drop_last(), events.drop_last(), actions.drop_last());
    lemma_terminal_round_lays_nothing_out(
        states.drop_last(),
        events.drop_last(),
        actions.drop_last(),
    );
    let queue = states[0].round.candidates();
    assert(queue.take(queue.len() as int) =~= queue);
}

/// A round over one terminal never waits for the surfaces.
proof fn lemma_terminal_round_lays_nothing_out(
    states: Seq<RoundState>,
    events: Seq<ResumeEvent>,
    actions: Seq<ResumeAction>,
)
    requires
        is_run(states, events, actions),
        states[0].round.scope is Terminal,
    ensures
        states.last().round.stage !is LayingOut,
{
    if events.len() > 0 {
        lemma_shorter_run(states, events, actions);
        lemma_run_keeps(states.drop_last(), events.drop_last(), actions.drop_last());
    }
}

/// Whether `event` says that a launch went wrong: the pane is gone, its terminal
/// did not start, or did not take the command.
pub open spec fn goes_wrong(event: ResumeEvent) -> bool {
    ||| event matches ResumeEvent::LaunchEnv(launch_env) && launch_env is None
    ||| event matches ResumeEvent::Spawned(handle) && handle is None
    ||| event matches ResumeEvent::Sent(taken) && !taken
}

/// Whether anything went wrong while the agent at `at` had its turn.
pub open spec fn turn_goes_wrong(
    states: Seq<RoundState>,
    events: Seq<ResumeEvent>,
    at: int,
) -> bool {
    exists|k: int|
        0 <= k < events.len() && states[k].round.outcomes@.len() == at && goes_wrong(
            #[trigger] events[k],
        )
}

/// A turn so far goes wrong where it did before the last step, or in it.
proof fn lemma_turn_of_longer_run(
    states: Seq<RoundState>,
    events: Seq<ResumeEvent>,
    actions: Seq<ResumeAction>,
    at: int,
)
    requires
        is_run(states, events, actions),
        events.len() > 0,
    ensures
        turn_goes_wrong(states, events, at) <==> {
            ||| turn_goes_wrong(states.drop_last(), events.drop_last(), at)
            ||| states.drop_last().last().round.outcomes@.len() == at && goes_wrong(events.last())
        },
{
    let earlier = states.drop_last();
    let fewer = events.drop_last();
    if turn_goes_wrong(states, events, at) {
        let k = choose|k: int|
            0 <= k < events.len() && states[k].round.outcomes@.len() == at && goes_wrong(
                #[trigger] events[k],
            );
        if k < fewer.len() {
            assert(earlier[k] == states[k] && fewer[k] == events[k]);
        }
    }
    if turn_goes_wrong(earlier, fewer, at) {
        let k = choose|k: int|
            0 <= k < fewer.len() && earlier[k].round.outcomes@.len() == at && goes_wrong(
                #[trigger] fewer[k],
            );
        assert(earlier[k] == states[k] && fewer[k] == events[k]);
    }
    let last = events.len() - 1;
    assert(states[last] == earlier.last() && events[last] == events.last());
}

/// A round has not touched the terminals of the agents that are still to come.
proof fn lemma_untouched(start: Resumes, state: RoundState, at: int)
    requires
        follows_round(start, state),
        state.round.well_formed(),
        distinct(state.round.candidates()),
        state.round.outcomes@.len() <= at < state.round.candidates().len(),
    ensures
        same_terminal(start, state.app.resumes(), state.round.candidates()[at].terminal_id),
{
    let queue = state.round.candidates();
    let outcomes = state.round.outcomes@;
    let done = queue.take(outcomes.len() as int);
    let id = queue[at].terminal_id;
    if holds(done, id) {
        let i = choose|i: int| 0 <= i < done.len() && (#[trigger] done[i]).terminal_id == id;
        assert(queue[i].terminal_id != queue[at].terminal_id);
    }
    round_leaves_other_terminals_alone(start, done, outcomes, id);
}

/// Whether the agents of a round wait for a colour: none is known, and the round
/// does not do without.
pub open spec fn waits_for_theme(start: RoundState) -> bool {
    let theme = start.app.state.host_terminal_theme;
    &&& !start.round.allow_empty_theme
    &&& theme.foreground is None
    &&& theme.background is None
    &&& theme.others@.len() == 0
}

/// Whether nothing but the outside can keep the agent at `at` from being
/// resumed in a round that begins with `start`: nothing runs in its terminal,
/// no theme is waited for, and its plan has a command.
pub open spec fn launched(start: RoundState, at: int) -> bool {
    let candidate = start.round.candidates()[at];
    &&& !start.app.terminal_runtimes@.contains_key(candidate.terminal_id)
    &&& !waits_for_theme(start)
    &&& candidate.plan.argv.len() > 0
}

/// How a run stands with the agent at `at`: done with, in hand, or to come.
spec fn stands(states: Seq<RoundState>, events: Seq<ResumeEvent>, at: int) -> bool {
    let end = states.last().round;
    let wrong = turn_goes_wrong(states, events, at);
    if at < end.outcomes@.len() {
        end.outcomes@[at] is Sent <==> launched(states[0], at) && !wrong
    } else if at == end.outcomes@.len() {
        match end.stage {
            ResumeStage::Idle => !wrong,
            ResumeStage::ShuttingDown(_) => launched(states[0], at) && wrong,
            _ => launched(states[0], at) && !wrong,
        }
    } else {
        !wrong
    }
}

proof fn lemma_stands(
    states: Seq<RoundState>,
    events: Seq<ResumeEvent>,
    actions: Seq<ResumeAction>,
    at: int,
)
    requires
        is_run(states, events, actions),
        distinct(states[0].round.candidates()),
        0 <= at < states[0].round.candidates().len(),
    ensures
        stands(states, events, at),
    decreases events.len(),
{
    if events.len() > 0 {
        let start = states[0].app.resumes();
        let earlier = states.drop_last();
        let before = earlier.last();
        let after = states.last();
        lemma_shorter_run(states, events, actions);
        lemma_stands(earlier, events.drop_last(), actions.drop_last(), at);
        lemma_turn_of_longer_run(states, events, actions, at);
        run_makes_its_outcomes(earlier, events.drop_last(), actions.drop_last());
        run_makes_its_outcomes(states, events, actions);
        lemma_run_keeps(earlier, events.drop_last(), actions.drop_last());
        let queue = before.round.candidates();
        let outcomes = before.round.outcomes@;
        let pending = before.app.theme_pending(before.round.allow_empty_theme);
        if outcomes.len() <= at {
            lemma_untouched(start, before, at);
        }
        lemma_passed_over(start, before.app.resumes().runtimes, pending, queue, outcomes);
        if outcomes.len() < queue.len() {
            assert forall|outcome: LaunchOutcome| #[trigger]
                before.settles(after, actions.last(), outcome) implies {
                let done = after.round.outcomes@;
                &&& done.len() > outcomes.len()
                &&& done[outcomes.len() as int] == outcome
                &&& outcomes =~= done.take(outcomes.len() as int)
                &&& outcomes.len() < at < done.len() ==> done[at] !is Sent && !launched(states[0], at)
                &&& outcomes.len() < at && at == done.len() ==> launched(states[0], at)
            } by {
                let resumes = before.app.resumes().after(before.round.current(), outcome);
                let longer = outcomes.push(outcome);
                let done = after.round.outcomes@;
                lemma_passed_over(start, resumes.runtimes, pending, queue, longer);
                assert(longer.last() == done.take(longer.len() as int)[outcomes.len() as int]);
                assert forall|i: int| 0 <= i < outcomes.len() implies outcomes[i] == done[i] by {
                    assert(longer[i] == done.take(longer.len() as int)[i]);
                }
                if outcomes.len() < at {
                    assert(queue[outcomes.len() as int].terminal_id != queue[at].terminal_id);
                }
            }
        }
    }
}

/// Whether `event` happened while the agent at `at` had its turn.
pub open spec fn turn_has(
    states: Seq<RoundState>,
    events: Seq<ResumeEvent>,
    at: int,
    event: ResumeEvent,
) -> bool {
    exists|k: int|
        0 <= k < events.len() && states[k].round.outcomes@.len() == at && #[trigger] events[k]
            == event
}

/// What happened in a turn so far happened before the last step, or in it.
proof fn lemma_turn_has(
    states: Seq<RoundState>,
    events: Seq<ResumeEvent>,
    actions: Seq<ResumeAction>,
    at: int,
)
    requires
        is_run(states, events, actions),
        events.len() > 0,
    ensures
        forall|event: ResumeEvent| #[trigger]
            turn_has(states, events, at, event) <==> {
                ||| turn_has(states.drop_last(), events.drop_last(), at, event)
                ||| states.drop_last().last().round.outcomes@.len() == at && events.last() == event
            },
{
    let earlier = states.drop_last();
    let fewer = events.drop_last();
    let last = events.len() - 1;
    assert forall|event: ResumeEvent| #[trigger] turn_has(states, events, at, event) <==> {
        ||| turn_has(earlier, fewer, at, event)
        ||| earlier.last().round.outcomes@.len() == at && events.last() == event
    } by {
        if turn_has(states, events, at, event) {
            let k = choose|k: int|
                0 <= k < events.len() && states[k].round.outcomes@.len() == at
                    && #[trigger] events[k] == event;
            if k < fewer.len() {
                assert(earlier[k] == states[k] && fewer[k] == events[k]);
            }
        }
        if turn_has(earlier, fewer, at, event) {
            let k = choose|k: int|
                0 <= k < fewer.len() && earlier[k].round.outcomes@.len() == at
                    && #[trigger] fewer[k] == event;
            assert(earlier[k] == states[k] && fewer[k] == events[k]);
        }
        assert(states[last] == earlier.last() && events[last] == events.last());
    }
}

/// Whether `outcome` is what the beginning of a round and the turn of the agent
/// at `at` come to.
pub open spec fn outcome_fits(
    states: Seq<RoundState>,
    events: Seq<ResumeEvent>,
    at: int,
    outcome: LaunchOutcome,
) -> bool {
    let start = states[0];
    let candidate = start.round.candidates()[at];
    let ran = start.app.terminal_runtimes@.contains_key(candidate.terminal_id);
    match outcome {
        LaunchOutcome::AlreadyRuns => ran,
        LaunchOutcome::Refused(ResumeRefusal::ThemePending) => !ran && waits_for_theme(start),
        LaunchOutcome::Refused(ResumeRefusal::EmptyArgv) => !ran && !waits_for_theme(start)
            && candidate.plan.argv.len() == 0,
        LaunchOutcome::Refused(ResumeRefusal::NoLaunchEnv) => launched(start, at) && turn_has(
            states,
            events,
            at,
            ResumeEvent::LaunchEnv(None),
        ),
        LaunchOutcome::SpawnFailed => launched(start, at) && turn_has(
            states,
            events,
            at,
            ResumeEvent::Spawned(None),
        ),
        LaunchOutcome::SendFailed(handle) => {
            &&& launched(start, at)
            &&& turn_has(states, events, at, ResumeEvent::Spawned(Some(handle)))
            &&& turn_has(states, events, at, ResumeEvent::Sent(false))
        },
        LaunchOutcome::Sent(handle) => {
            &&& launched(start, at)
            &&& turn_has(states, events, at, ResumeEvent::Spawned(Some(handle)))
            &&& turn_has(states, events, at, ResumeEvent::Sent(true))
        },
    }
}

/// How what a run has recorded of the agent at `at` fits its turn so far.
spec fn fits(states: Seq<RoundState>, events: Seq<ResumeEvent>, at: int) -> bool {
    let end = states.last().round;
    if at < end.outcomes@.len() {
        outcome_fits(states, events, at, end.outcomes@[at])
    } else if at == end.outcomes@.len() {
        match end.stage {
            ResumeStage::Sending(handle) => turn_has(
                states,
                events,
                at,
                ResumeEvent::Spawned(Some(handle)),
            ),
            ResumeStage::ShuttingDown(handle) => turn_has(
                states,
                events,
                at,
                ResumeEvent::Spawned(Some(handle)),
            ) && turn_has(states, events, at, ResumeEvent::Sent(false)),
            _ => true,
        }
    } else {
        true
    }
}

proof fn lemma_fits(
    states: Seq<RoundState>,
    events: Seq<ResumeEvent>,
    actions: Seq<ResumeAction>,
    at: int,
)
    requires
        is_run(states, events, actions),
        distinct(states[0].round.candidates()),
        0 <= at < states[0].round.candidates().len(),
    ensures
        fits(states, events, at),
    decreases events.len(),
{
    if events.len() > 0 {
        let start = states[0].app.resumes();
        let earlier = states.drop_last();
        let before = earlier.last();
        let after = states.last();
        lemma_shorter_run(states, events, actions);
        lemma_fits(earlier, events.drop_last(), actions.drop_last(), at);
        lemma_stands(earlier, events.drop_last(), actions.drop_last(), at);
        lemma_turn_has(states, events, actions, at);
        run_makes_its_outcomes(earlier, events.drop_last(), actions.drop_last());
        lemma_run_keeps(earlier, events.drop_last(), actions.drop_last());
        let queue = before.round.candidates();
        let outcomes = before.round.outcomes@;
        let pending = before.app.theme_pending(before.round.allow_empty_theme);
        assert(pending == waits_for_theme(states[0]));
        if outcomes.len() <= at {
            lemma_untouched(start, before, at);
        }
        lemma_passed_over(start, before.app.resumes().runtimes, pending, queue, outcomes);
        if outcomes.len() < queue.len() {
            assert forall|outcome: LaunchOutcome| #[trigger]
                before.settles(after, actions.last(), outcome) implies {
                let done = after.round.outcomes@;
                &&& done.len() > outcomes.len()
                &&& done[outcomes.len() as int] == outcome
                &&& outcomes =~= done.take(outcomes.len() as int)
                &&& outcomes.len() < at < done.len() ==> settled_at_once(
                    start.runtimes,
                    pending,
                    queue[at],
                ) == Some(done[at])
                &&& after.round.stage !is Sending && after.round.stage !is ShuttingDown
            } by {
                let resumes = before.app.resumes().after(before.round.current(), outcome);
                let longer = outcomes.push(outcome);
                let done = after.round.outcomes@;
                lemma_passed_over(start, resumes.runtimes, pending, queue, longer);
                assert(longer.last() == done.take(longer.len() as int)[outcomes.len() as int]);
                assert forall|i: int| 0 <= i < outcomes.len() implies outcomes[i] == done[i] by {
                    assert(longer[i] == done.take(longer.len() as int)[i]);
                }
                if outcomes.len() < at {
                    assert(queue[outcomes.len() as int].terminal_id != queue[at].terminal_id);
                }
            }
        }
        if at < outcomes.len() {
            assert(outcomes[at] == after.round.outcomes@[at]);
        }
    }
}

/// What a round records of an agent is what the agent came to. Something ran in
/// its terminal, or the theme was waited for, or its plan has no command; or else,
/// in its own turn, its pane was gone, its terminal did not start, or the terminal
/// that started did not take the command or took it.
pub proof fn outcome_is_what_the_agent_came_to(
    states: Seq<RoundState>,
    events: Seq<ResumeEvent>,
    actions: Seq<ResumeAction>,
    at: int,
)
    requires
        is_run(states, events, actions),
        distinct(states[0].round.candidates()),
        0 <= at < states.last().round.outcomes@.len(),
    ensures
        outcome_fits(states, events, at, states.last().round.outcomes@[at]),
{
    run_makes_its_outcomes(states, events, actions);
    assert(states.last().round.well_formed());
    lemma_fits(states, events, actions, at);
}

/// The beginning of a run is a run.
proof fn lemma_beginning(
    states: Seq<RoundState>,
    events: Seq<ResumeEvent>,
    actions: Seq<ResumeAction>,
    count: int,
)
    requires
        is_run(states, events, actions),
        0 <= count <= events.len(),
    ensures
        is_run(states.take(count + 1), events.take(count), actions.take(count)),
{
    let begun = states.take(count + 1);
    assert forall|i: int| 0 <= i < begun.len() implies (
    #[trigger] begun[i]).round.well_formed() by {
        assert(states[i].round.well_formed());
    }
    assert forall|i: int| 0 <= i < count implies begun[i].advances(
        #[trigger] events.take(count)[i],
        begun[i + 1],
        actions.take(count)[i],
    ) by {
        assert(states[i].advances(events[i], states[i + 1], actions[i]));
    }
}

/// A run that waits for a terminal to start holds what resumes the agent in hand.
proof fn lemma_input(
    states: Seq<RoundState>,
    events: Seq<ResumeEvent>,
    actions: Seq<ResumeAction>,
)
    requires
        is_run(states, events, actions),
    ensures
        states.last().round.stage matches ResumeStage::Spawning(input) ==> exists|line: Seq<char>|
            #![trigger shell_words(line)]
            bytes_of(input) == encode_utf8(line.push('\r')) && shell_words(line) == Some(
                states.last().round.current().plan.argv,
            ),
    decreases events.len(),
{
    if events.len() > 0 {
        lemma_shorter_run(states, events, actions);
        lemma_input(states.drop_last(), events.drop_last(), actions.drop_last());
        if let ResumeStage::Spawning(input) = states.last().round.stage {
            let argv = states.last().round.current().plan.argv;
            command_line_reads_back(argv);
            assert(shell_words(command_line(argv)) == Some(argv));
        }
    }
}

/// What a round has sent goes to the terminal that was started last, and is a
/// line and a return, of which a shell reads the line as exactly the words of the
/// plan of the agent in hand.
pub proof fn what_is_sent_resumes_the_agent_in_hand(
    states: Seq<RoundState>,
    events: Seq<ResumeEvent>,
    actions: Seq<ResumeAction>,
    k: int,
    handle: u64,
    bytes: Bytes,
)
    requires
        is_run(states, events, actions),
        0 <= k < actions.len(),
        actions[k] == ResumeAction::Send(handle, bytes),
    ensures
        events[k] == ResumeEvent::Spawned(Some(handle)),
        exists|line: Seq<char>|
            #![trigger shell_words(line)]
            bytes_of(bytes) == encode_utf8(line.push('\r')) && shell_words(line) == Some(
                states[k].round.candidates()[states[k].round.outcomes@.len() as int].plan.argv,
            ),
{
    lemma_beginning(states, events, actions, k);
    let begun = states.take(k + 1);
    lemma_input(begun, events.take(k), actions.take(k));
    assert(begun.last() == states[k]);
    assert(states[k].advances(events[k], states[k + 1], actions[k]));
    assert(states[k].round.well_formed());
}

/// A terminal that a round has started is for the pane of the agent in hand, at
/// its size and in its directory, with the environment that was found for it and
/// under the settings of the session.
pub proof fn what_is_started_is_for_the_agent_in_hand(
    before: RoundState,
    event: ResumeEvent,
    after: RoundState,
    request: SpawnRequest,
)
    requires
        before.round.well_formed(),
        before.advances(event, after, ResumeAction::Spawn(request)),
    ensures
        ({
            let agent = before.round.queue@[before.round.outcomes@.len() as int];
            &&& before.round.outcomes@.len() < before.round.queue@.len()
            &&& event matches ResumeEvent::LaunchEnv(found)
            &&& found == Some(request.launch_env)
            &&& request.pane_id == agent.pane_id
            &&& request.rows == agent.rows
            &&& request.cols == agent.cols
            &&& path_of(request.cwd) == path_of(agent.cwd)
            &&& request.scrollback_limit_bytes == before.app.state.pane_scrollback_limit_bytes
            &&& request.theme@ == before.app.state.host_terminal_theme@
            &&& match (request.appearance, before.app.state.host_terminal_appearance) {
                (Some(a), Some(b)) => a@ == b@,
                (None, None) => true,
                _ => false,
            }
            &&& request.shell.default_shell@ == before.app.state.default_shell@
            &&& request.shell.shell_mode@ == before.app.state.shell_mode@
            &&& after.app == before.app
        }),
{
}

/// Whether the turn of an agent whose terminal was asked for is past that: over,
/// or waiting for what came of it.
spec fn past_the_start(state: RoundState, at: nat) -> bool {
    ||| state.round.outcomes@.len() > at
    ||| state.round.outcomes@.len() == at && (state.round.stage is Spawning
        || state.round.stage is Sending || state.round.stage is ShuttingDown)
}

proof fn lemma_past_the_start(
    states: Seq<RoundState>,
    events: Seq<ResumeEvent>,
    actions: Seq<ResumeAction>,
    from: int,
    to: int,
    at: nat,
)
    requires
        is_run(states, events, actions),
        0 <= from <= to < states.len(),
        past_the_start(states[from], at),
    ensures
        past_the_start(states[to], at),
    decreases to - from,
{
    if from < to {
        lemma_past_the_start(states, events, actions, from, to - 1, at);
        let before = states[to - 1];
        assert(before.advances(events[to - 1], states[to - 1 + 1], actions[to - 1]));
        assert(before.round.well_formed());
        let queue = before.round.candidates();
        let outcomes = before.round.outcomes@;
        let pending = before.app.theme_pending(before.round.allow_empty_theme);
        let start = before.app.resumes();
        lemma_passed_over(start, start.runtimes, pending, queue, outcomes);
        if outcomes.len() < queue.len() {
            assert forall|outcome: LaunchOutcome| #[trigger]
                before.settles(states[to], actions[to - 1], outcome) implies states[to].round.outcomes@.len()
                > outcomes.len() by {
                let resumes = start.after(before.round.current(), outcome);
                lemma_passed_over(start, resumes.runtimes, pending, queue, outcomes.push(outcome));
            }
        }
    }
}

/// A round has at most one terminal started for each agent.
pub proof fn one_terminal_is_started_for_an_agent(
    states: Seq<RoundState>,
    events: Seq<ResumeEvent>,
    actions: Seq<ResumeAction>,
    first: int,
    second: int,
)
    requires
        is_run(states, events, actions),
        0 <= first < second < actions.len(),
        actions[first] is Spawn,
        actions[second] is Spawn,
    ensures
        states[first].round.outcomes@.len() < states[second].round.outcomes@.len(),
{
    let at = states[first].round.outcomes@.len();
    assert(states[first].advances(events[first], states[first + 1], actions[first]));
    assert(states[second].advances(events[second], states[second + 1], actions[second]));
    lemma_past_the_start(states, events, actions, first + 1, second, at);
}

/// An agent that a round is done with was resumed exactly where nothing ran in
/// its terminal, no theme was waited for, its plan has a command, and nothing
/// went wrong in its own turn. So what goes wrong with one agent keeps no other
/// from being resumed.
pub proof fn agent_is_resumed_unless_its_own_launch_fails(
    states: Seq<RoundState>,
    events: Seq<ResumeEvent>,
    actions: Seq<ResumeAction>,
    at: int,
)
    requires
        is_run(states, events, actions),
        distinct(states[0].round.candidates()),
        0 <= at < states.last().round.outcomes@.len(),
    ensures
        states.last().round.outcomes@[at] is Sent <==> launched(states[0], at)
            && !turn_goes_wrong(states, events, at),
{
    run_makes_its_outcomes(states, events, actions);
    assert(states.last().round.well_formed());
    lemma_stands(states, events, actions, at);
}

/// An agent that `surfaces` show, once a round over them is done with it, was
/// resumed exactly where no theme was waited for, its plan has a command, and
/// nothing went wrong in its own turn.
pub proof fn shown_agent_is_resumed_unless_its_own_launch_fails(
    surfaces: Seq<TabSurface>,
    states: Seq<RoundState>,
    events: Seq<ResumeEvent>,
    actions: Seq<ResumeAction>,
    at: int,
)
    requires
        is_run(states, events, actions),
        states[0].round.candidates() == states[0].app.resume_candidates(surfaces),
        0 <= at < states.last().round.outcomes@.len(),
    ensures
        states.last().round.outcomes@[at] is Sent <==> {
            &&& !waits_for_theme(states[0])
            &&& states[0].round.candidates()[at].plan.argv.len() > 0
            &&& !turn_goes_wrong(states, events, at)
        },
{
    let app = states[0].app;
    let queue = app.resume_candidates(surfaces);
    run_makes_its_outcomes(states, events, actions);
    assert(states.last().round.well_formed());
    candidates_are_distinct(app.resumes(), app.exposed(surfaces));
    assert(holds(queue, queue[at].terminal_id));
    candidates_are_the_resumable_terminals_shown(
        app.resumes(),
        app.exposed(surfaces),
        queue[at].terminal_id,
    );
    agent_is_resumed_unless_its_own_launch_fails(states, events, actions, at);
}

} // verus!
