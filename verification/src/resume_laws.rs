//! What holds of resuming agents, over whole rounds of it.
use crate::agent_resume::{
    shows, synced_deadline, CandidateView, Exposure, LaunchOutcome, Resumes,
};
use crate::resume_round::{
    passed_over, settled_at_once, ResumeAction, ResumeEvent, ResumeScope, ResumeStage,
    RoundState,
};
use crate::session::{App, TabSurface, TerminalId, TerminalRuntime, TerminalState};
use vstd::prelude::*;

verus! {

/// Whether `candidates` hold the terminal `id`.
pub open spec fn holds(candidates: Seq<CandidateView>, id: TerminalId) -> bool {
    exists|i: int| 0 <= i < candidates.len() && (#[trigger] candidates[i]).terminal_id == id
}

/// Whether no terminal stands twice among `candidates`.
pub open spec fn distinct(candidates: Seq<CandidateView>) -> bool {
    forall|i: int, j: int|
        0 <= i < j < candidates.len() ==> (#[trigger] candidates[i]).terminal_id != (
        #[trigger] candidates[j]).terminal_id
}

/// Exactly the terminals that are shown and can be resumed are candidates.
pub proof fn candidates_are_the_resumable_terminals_shown(
    resumes: Resumes,
    shown: Seq<Exposure>,
    id: TerminalId,
)
    ensures
        holds(resumes.candidates(shown), id) <==> shows(shown, id) && resumes.resumable(id),
    decreases shown.len(),
{
    if shown.len() > 0 {
        let front = shown.drop_last();
        let before = resumes.candidates(front);
        let all = resumes.candidates(shown);
        candidates_are_the_resumable_terminals_shown(resumes, front, id);
        if holds(before, id) {
            let i = choose|i: int|
                0 <= i < before.len() && (#[trigger] before[i]).terminal_id == id;
            assert(all[i].terminal_id == id);
        }
        if holds(all, id) {
            let i = choose|i: int| 0 <= i < all.len() && (#[trigger] all[i]).terminal_id == id;
            if i < before.len() {
                assert(before[i].terminal_id == id);
            } else {
                assert(shown[shown.len() - 1].terminal_id == id);
            }
        }
        if shows(front, id) {
            let i = choose|i: int| 0 <= i < front.len() && (#[trigger] front[i]).terminal_id == id;
            assert(shown[i].terminal_id == id);
        }
        if shows(shown, id) && resumes.resumable(id) && !shows(front, id) {
            let i = choose|i: int| 0 <= i < shown.len() && (#[trigger] shown[i]).terminal_id == id;
            if i < front.len() {
                assert(front[i].terminal_id == id);
            }
            assert(all[before.len() as int].terminal_id == id);
        }
    }
}

/// No terminal is a candidate twice, however many panes show it.
pub proof fn candidates_are_distinct(resumes: Resumes, shown: Seq<Exposure>)
    ensures
        distinct(resumes.candidates(shown)),
    decreases shown.len(),
{
    if shown.len() > 0 {
        let front = shown.drop_last();
        let before = resumes.candidates(front);
        let all = resumes.candidates(shown);
        candidates_are_distinct(resumes, front);
        candidates_are_the_resumable_terminals_shown(resumes, front, shown.last().terminal_id);
        assert forall|i: int, j: int| 0 <= i < j < all.len() implies (
        #[trigger] all[i]).terminal_id != (#[trigger] all[j]).terminal_id by {
            assert(before[i] == all[i]);
            if j < before.len() {
                assert(before[j] == all[j]);
            } else {
                assert(before[i].terminal_id != shown.last().terminal_id);
            }
        }
    }
}

/// Each candidate starts at the size of the first pane that shows its terminal,
/// with the terminal's own directory and plan.
pub proof fn candidate_comes_from_first_exposure(
    resumes: Resumes,
    shown: Seq<Exposure>,
    at: int,
) -> (from: int)
    requires
        0 <= at < resumes.candidates(shown).len(),
    ensures
        0 <= from < shown.len(),
        resumes.candidates(shown)[at] == resumes.candidate(shown[from]),
        !shows(shown.take(from), shown[from].terminal_id),
    decreases shown.len(),
{
    let front = shown.drop_last();
    if at < resumes.candidates(front).len() {
        let from = candidate_comes_from_first_exposure(resumes, front, at);
        assert(front.take(from) =~= shown.take(from));
        from
    } else {
        assert(shown.take(shown.len() - 1) =~= front);
        shown.len() - 1
    }
}

/// An agent that was not resumed can be resumed as before.
pub proof fn failed_launch_changes_nothing(
    resumes: Resumes,
    candidate: CandidateView,
    outcome: LaunchOutcome,
)
    requires
        outcome !is Sent,
    ensures
        resumes.after(candidate, outcome) == resumes,
{
}

/// An agent that was resumed is no candidate any more, whatever is shown.
pub proof fn resumed_agent_is_done(
    resumes: Resumes,
    candidate: CandidateView,
    handle: u64,
    shown: Seq<Exposure>,
)
    ensures
        !holds(
            resumes.after(candidate, LaunchOutcome::Sent(handle)).candidates(shown),
            candidate.terminal_id,
        ),
{
    candidates_are_the_resumable_terminals_shown(
        resumes.after(candidate, LaunchOutcome::Sent(handle)),
        shown,
        candidate.terminal_id,
    );
}

/// Resuming one terminal leaves all others alone.
pub proof fn launch_leaves_other_terminals_alone(
    resumes: Resumes,
    candidate: CandidateView,
    outcome: LaunchOutcome,
    id: TerminalId,
)
    requires
        id != candidate.terminal_id,
    ensures
        same_terminal(resumes, resumes.after(candidate, outcome), id),
{
}

/// Whether the terminal `id` is the same in both: as it is known, and as it runs.
pub open spec fn same_terminal(a: Resumes, b: Resumes, id: TerminalId) -> bool {
    &&& a.terminals.contains_key(id) == b.terminals.contains_key(id)
    &&& a.terminals.contains_key(id) ==> a.terminals[id] == b.terminals[id]
    &&& a.runtimes.contains_key(id) == b.runtimes.contains_key(id)
    &&& a.runtimes.contains_key(id) ==> a.runtimes[id] == b.runtimes[id]
}

/// The terminals after a round over `queue` that came to `outcomes`.
pub open spec fn after_round(
    resumes: Resumes,
    queue: Seq<CandidateView>,
    outcomes: Seq<LaunchOutcome>,
) -> Resumes
    decreases queue.len(),
{
    if queue.len() == 0 {
        resumes
    } else {
        after_round(resumes, queue.drop_last(), outcomes.drop_last()).after(
            queue.last(),
            outcomes.last(),
        )
    }
}

/// A round leaves the terminals alone that are not in its queue.
pub proof fn round_leaves_other_terminals_alone(
    resumes: Resumes,
    queue: Seq<CandidateView>,
    outcomes: Seq<LaunchOutcome>,
    id: TerminalId,
)
    requires
        outcomes.len() == queue.len(),
        !holds(queue, id),
    ensures
        same_terminal(resumes, after_round(resumes, queue, outcomes), id),
    decreases queue.len(),
{
    if queue.len() > 0 {
        let front = queue.drop_last();
        if holds(front, id) {
            let i = choose|i: int| 0 <= i < front.len() && (#[trigger] front[i]).terminal_id == id;
            assert(queue[i].terminal_id == id);
        }
        assert(queue[queue.len() - 1].terminal_id != id);
        round_leaves_other_terminals_alone(resumes, front, outcomes.drop_last(), id);
    }
}

/// What a round makes of each terminal in its queue: one that takes the command
/// runs at the candidate's size and waits no longer; any other is as it was.
pub proof fn round_settles_each_terminal(
    resumes: Resumes,
    queue: Seq<CandidateView>,
    outcomes: Seq<LaunchOutcome>,
    at: int,
)
    requires
        outcomes.len() == queue.len(),
        distinct(queue),
        0 <= at < queue.len(),
        resumes.resumable(queue[at].terminal_id),
    ensures
        ({
            let end = after_round(resumes, queue, outcomes);
            let id = queue[at].terminal_id;
            match outcomes[at] {
                LaunchOutcome::Sent(handle) => {
                    &&& end.runtimes.contains_key(id)
                    &&& end.runtimes[id] == (TerminalRuntime {
                        handle,
                        rows: queue[at].rows,
                        cols: queue[at].cols,
                    })
                    &&& end.terminals.contains_key(id)
                    &&& end.terminals[id] == (TerminalState {
                        pending_agent_resume_plan: None,
                        respawn_shell_on_exit: false,
                        ..resumes.terminals[id]
                    })
                },
                _ => same_terminal(resumes, end, id),
            }
        }),
    decreases queue.len(),
{
    let front = queue.drop_last();
    let id = queue[at].terminal_id;
    assert forall|i: int, j: int| 0 <= i < j < front.len() implies (
    #[trigger] front[i]).terminal_id != (#[trigger] front[j]).terminal_id by {
        assert(queue[i].terminal_id != queue[j].terminal_id);
    }
    if at < front.len() {
        assert(front[at] == queue[at]);
        round_settles_each_terminal(resumes, front, outcomes.drop_last(), at);
        assert(queue[at].terminal_id != queue[queue.len() - 1].terminal_id);
    } else {
        if holds(front, id) {
            let i = choose|i: int| 0 <= i < front.len() && (#[trigger] front[i]).terminal_id == id;
            assert(queue[i].terminal_id != queue[at].terminal_id);
        }
        round_leaves_other_terminals_alone(resumes, front, outcomes.drop_last(), id);
    }
}

/// Whether the terminals are what the round has made of `start` so far.
pub open spec fn follows_round(start: Resumes, state: RoundState) -> bool {
    let outcomes = state.round.outcomes@;
    state.app.resumes() == after_round(
        start,
        state.round.candidates().take(outcomes.len() as int),
        outcomes,
    )
}

proof fn lemma_after_round_push(
    start: Resumes,
    queue: Seq<CandidateView>,
    outcomes: Seq<LaunchOutcome>,
    outcome: LaunchOutcome,
)
    requires
        outcomes.len() < queue.len(),
    ensures
        after_round(start, queue.take((outcomes.len() + 1) as int), outcomes.push(outcome))
            == after_round(start, queue.take(outcomes.len() as int), outcomes).after(
            queue[outcomes.len() as int],
            outcome,
        ),
{
    let longer = queue.take((outcomes.len() + 1) as int);
    assert(longer.drop_last() =~= queue.take(outcomes.len() as int));
    assert(outcomes.push(outcome).drop_last() =~= outcomes);
}

pub(crate) proof fn lemma_passed_over(
    start: Resumes,
    runtimes: Map<TerminalId, TerminalRuntime>,
    theme_pending: bool,
    queue: Seq<CandidateView>,
    outcomes: Seq<LaunchOutcome>,
)
    requires
        outcomes.len() <= queue.len(),
    ensures
        ({
            let done = passed_over(runtimes, theme_pending, queue, outcomes);
            &&& done.len() <= queue.len()
            &&& after_round(start, queue.take(done.len() as int), done) == after_round(
                start,
                queue.take(outcomes.len() as int),
                outcomes,
            )
            &&& outcomes =~= done.take(outcomes.len() as int)
            &&& outcomes.len() <= done.len()
            &&& forall|i: int|
                outcomes.len() <= i < done.len() ==> settled_at_once(
                    runtimes,
                    theme_pending,
                    queue[i],
                ) == Some(#[trigger] done[i])
            &&& done.len() < queue.len() ==> settled_at_once(
                runtimes,
                theme_pending,
                queue[done.len() as int],
            ) is None
        }),
    decreases queue.len() - outcomes.len(),
{
    if outcomes.len() < queue.len() {
        let next = settled_at_once(runtimes, theme_pending, queue[outcomes.len() as int]);
        if let Some(outcome) = next {
            lemma_after_round_push(start, queue, outcomes, outcome);
            let longer = outcomes.push(outcome);
            lemma_passed_over(start, runtimes, theme_pending, queue, longer);
            let done = passed_over(runtimes, theme_pending, queue, outcomes);
            assert(longer =~= done.take(longer.len() as int));
            assert(done[outcomes.len() as int] == longer[outcomes.len() as int]);
            assert forall|i: int| 0 <= i < outcomes.len() implies outcomes[i] == done[i] by {
                assert(longer[i] == done.take(longer.len() as int)[i]);
            }
        }
    }
}

/// Every step of a round keeps the terminals at what the outcomes so far make
/// of them.
pub proof fn step_follows_round(
    start: Resumes,
    before: RoundState,
    event: ResumeEvent,
    after: RoundState,
    action: ResumeAction,
)
    requires
        before.round.well_formed(),
        before.advances(event, after, action),
        follows_round(start, before),
    ensures
        follows_round(start, after),
        after.round.candidates() == before.round.candidates(),
{
    let queue = before.round.candidates();
    let outcomes = before.round.outcomes@;
    let pending = before.app.theme_pending(before.round.allow_empty_theme);
    lemma_passed_over(start, before.app.resumes().runtimes, pending, queue, outcomes);
    if outcomes.len() < queue.len() {
        assert forall|outcome: LaunchOutcome| #[trigger]
            before.settles(after, action, outcome) implies follows_round(start, after) by {
            let resumes = before.app.resumes().after(before.round.current(), outcome);
            assert(queue[outcomes.len() as int] == before.round.current());
            lemma_after_round_push(start, queue, outcomes, outcome);
            lemma_passed_over(start, resumes.runtimes, pending, queue, outcomes.push(outcome));
        }
    }
}

/// The environment is asked for only where the agent in hand is launched once
/// it is known: nothing runs in its terminal, and neither the theme nor its
/// plan is in the way.
pub proof fn environment_is_asked_for_only_to_launch(
    before: RoundState,
    event: ResumeEvent,
    after: RoundState,
    action: ResumeAction,
)
    requires
        before.round.well_formed(),
        before.advances(event, after, action),
        action is FindLaunchEnv,
    ensures
        after.round.outcomes@.len() < after.round.queue@.len(),
        action == ResumeAction::FindLaunchEnv(
            after.round.queue@[after.round.outcomes@.len() as int].pane_id,
        ),
        !after.app.resumes().runtimes.contains_key(after.round.current().terminal_id),
        after.app.resume_refusal(
            after.round.current().plan,
            true,
            after.round.allow_empty_theme,
        ) is None,
{
    let start = before.app.resumes();
    let queue = before.round.candidates();
    let outcomes = before.round.outcomes@;
    let pending = before.app.theme_pending(before.round.allow_empty_theme);
    lemma_passed_over(start, start.runtimes, pending, queue, outcomes);
    if outcomes.len() < queue.len() {
        assert forall|outcome: LaunchOutcome| #[trigger]
            before.settles(after, action, outcome) implies settled_at_once(
            after.app.resumes().runtimes,
            pending,
            queue[after.round.outcomes@.len() as int],
        ) is None by {
            let resumes = start.after(before.round.current(), outcome);
            lemma_passed_over(start, resumes.runtimes, pending, queue, outcomes.push(outcome));
        }
    }
}

/// Until it is over a round waits for what it asked for last, and for nothing
/// else.
pub proof fn round_waits_for_what_it_asked_for(
    before: RoundState,
    event: ResumeEvent,
    after: RoundState,
    action: ResumeAction,
    reply: ResumeEvent,
)
    requires
        before.round.well_formed(),
        before.advances(event, after, action),
    ensures
        after.round.awaits(reply) <==> match action {
            ResumeAction::FindLaunchEnv(_) => reply is LaunchEnv,
            ResumeAction::Spawn(_) => reply is Spawned,
            ResumeAction::Send(_, _) => reply is Sent,
            ResumeAction::Shutdown(_) => reply is ShutDown,
            ResumeAction::LayOut => reply is LaidOut,
            ResumeAction::Finished(_) => false,
        },
{
}

/// A terminal that was started either takes the command and runs, or is shut
/// down.
pub proof fn started_terminal_runs_or_is_shut_down(
    before: RoundState,
    event: ResumeEvent,
    after: RoundState,
    action: ResumeAction,
    handle: u64,
)
    requires
        before.round.stage == ResumeStage::Sending(handle),
        before.advances(event, after, action),
    ensures
        ({
            ||| action == ResumeAction::Shutdown(handle)
            ||| {
                let id = before.round.current().terminal_id;
                &&& after.app.resumes().runtimes.contains_key(id)
                &&& after.app.resumes().runtimes[id].handle == handle
            }
        }),
{
}

/// A round that does not wait for a theme leaves no deadline behind that is
/// over already, so that what failed is not tried again at once.
pub proof fn round_is_not_due_again_at_once(
    before: RoundState,
    surfaces: Vec<TabSurface>,
    now: u64,
    after: RoundState,
    action: ResumeAction,
)
    requires
        before.round.allow_empty_theme,
        before.round.stage is LayingOut,
        before.advances(ResumeEvent::LaidOut(surfaces, now), after, action),
        0 < before.app.theme_wait,
        now + before.app.theme_wait <= u64::MAX,
    ensures
        !after.app.resume_due(now),
{
}

/// A client that attaches twice has the agent resumed once: where the first
/// attach resumed it, the second has nothing to resume.
pub proof fn second_attach_resumes_nothing(
    before: RoundState,
    after: RoundState,
    action: ResumeAction,
)
    requires
        before.round.stage is Sending,
        before.round.scope == ResumeScope::Terminal,
        before.round.well_formed(),
        before.advances(ResumeEvent::Sent(true), after, action),
    ensures
        !after.app.resumes_on_attach(before.round.current().terminal_id),
{
}

/// After a round on what `surfaces` show in which every launch succeeds, they
/// show nothing to resume: a second round does nothing.
pub proof fn successful_round_leaves_nothing_to_resume(
    app: App,
    surfaces: Seq<TabSurface>,
    outcomes: Seq<LaunchOutcome>,
)
    requires
        outcomes.len() == app.resume_candidates(surfaces).len(),
        forall|i: int| 0 <= i < outcomes.len() ==> (#[trigger] outcomes[i]) is Sent,
    ensures
        after_round(app.resumes(), app.resume_candidates(surfaces), outcomes).candidates(
            app.exposed(surfaces),
        ).len() == 0,
{
    let resumes = app.resumes();
    let shown = app.exposed(surfaces);
    let queue = resumes.candidates(shown);
    let end = after_round(resumes, queue, outcomes);
    candidates_are_distinct(resumes, shown);
    let left = end.candidates(shown);
    if left.len() > 0 {
        let id = left[0].terminal_id;
        candidates_are_the_resumable_terminals_shown(end, shown, id);
        candidates_are_the_resumable_terminals_shown(resumes, shown, id);
        if holds(queue, id) {
            let at = choose|i: int|
                0 <= i < queue.len() && (#[trigger] queue[i]).terminal_id == id;
            round_settles_each_terminal(resumes, queue, outcomes, at);
            assert(outcomes[at] is Sent);
        } else {
            round_leaves_other_terminals_alone(resumes, queue, outcomes, id);
        }
    }
}

/// A terminal that no surface shows keeps its plan through a round.
pub proof fn hidden_terminal_keeps_its_plan(
    app: App,
    surfaces: Seq<TabSurface>,
    outcomes: Seq<LaunchOutcome>,
    id: TerminalId,
)
    requires
        outcomes.len() == app.resume_candidates(surfaces).len(),
        !shows(app.exposed(surfaces), id),
    ensures
        same_terminal(
            app.resumes(),
            after_round(app.resumes(), app.resume_candidates(surfaces), outcomes),
            id,
        ),
{
    candidates_are_the_resumable_terminals_shown(app.resumes(), app.exposed(surfaces), id);
    round_leaves_other_terminals_alone(
        app.resumes(),
        app.resume_candidates(surfaces),
        outcomes,
        id,
    );
}

/// Looking again while something still waits keeps the first deadline.
pub proof fn first_deadline_is_kept(
    deadline: Option<u64>,
    first: u64,
    later: u64,
    wait: u64,
)
    ensures
        synced_deadline(true, synced_deadline(true, deadline, first, wait), later, wait)
            == synced_deadline(true, deadline, first, wait),
{
}

} // verus!
