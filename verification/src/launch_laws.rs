//! What launching an agent and waiting for it come to, told field by field.
use crate::agent_resume::{
    candidate_views, synced_deadline, CandidateView, LaunchOutcome,
    PendingAgentResumeCandidate, ResumeLaunch, ResumeRefusal, Resumes,
};
use crate::input_bytes::bytes_of;
use crate::paths::path_of;
use crate::resume_round::deadline_after_round;
use crate::session::{named_colors, App, PaneId, TerminalId, TerminalTheme};
use crate::shell_command::{command_line, command_line_reads_back, shell_words};
use vstd::prelude::*;
use vstd::utf8::encode_utf8;

verus! {

/// Candidates and their views go together one by one and field by field.
pub proof fn candidates_go_one_by_one(candidates: Seq<PendingAgentResumeCandidate>)
    ensures
        candidate_views(candidates).len() == candidates.len(),
        forall|i: int|
            0 <= i < candidates.len() ==> {
                let view = #[trigger] candidate_views(candidates)[i];
                let candidate = candidates[i];
                &&& view.pane_id == candidate.pane_id
                &&& view.terminal_id == candidate.terminal_id
                &&& view.cwd == path_of(candidate.cwd)
                &&& view.rows == candidate.rows
                &&& view.cols == candidate.cols
                &&& view.plan.agent == candidate.plan.agent@
                &&& view.plan.dedupe_key == candidate.plan.dedupe_key@
                &&& view.plan.argv.len() == candidate.plan.argv@.len()
                &&& forall|k: int|
                    0 <= k < candidate.plan.argv@.len() ==> #[trigger] view.plan.argv[k]
                        == candidate.plan.argv@[k]@
            },
{
}

/// A theme is unknown exactly where it has no colour of any kind.
pub proof fn theme_is_unknown_without_a_colour(theme: TerminalTheme)
    ensures
        theme@.unknown() <==> theme.foreground is None && theme.background is None
            && theme.others@.len() == 0,
{
}

/// Two themes that look the same have the same colours under the same names.
pub proof fn same_themes_have_the_same_colours(a: TerminalTheme, b: TerminalTheme, i: int)
    requires
        a@ == b@,
    ensures
        a.foreground == b.foreground,
        a.background == b.background,
        a.others@.len() == b.others@.len(),
        0 <= i < a.others@.len() ==> a.others@[i].0@ == b.others@[i].0@ && a.others@[i].1
            == b.others@[i].1,
{
    assert(named_colors(a.others@).len() == a.others@.len());
    assert(named_colors(b.others@).len() == b.others@.len());
    if 0 <= i < a.others@.len() {
        assert(a@.others[i] == b@.others[i]);
    }
}

/// An agent is refused exactly where no colour is known while one is waited for,
/// its plan has no word, or its pane has no environment; and for the first of
/// these that holds.
pub proof fn agent_is_refused_for_the_first_cause(
    app: App,
    candidate: PendingAgentResumeCandidate,
    has_env: bool,
    allow_empty_theme: bool,
)
    ensures
        ({
            let theme = app.state.host_terminal_theme;
            let waits = !allow_empty_theme && theme.foreground is None && theme.background is None
                && theme.others@.len() == 0;
            let wordless = candidate.plan.argv@.len() == 0;
            let refusal = app.resume_refusal(candidate.plan@, has_env, allow_empty_theme);
            &&& refusal == Some(ResumeRefusal::ThemePending) <==> waits
            &&& refusal == Some(ResumeRefusal::EmptyArgv) <==> !waits && wordless
            &&& refusal == Some(ResumeRefusal::NoLaunchEnv) <==> !waits && !wordless && !has_env
            &&& refusal is None <==> !waits && !wordless && has_env
        }),
{
}

/// A launch starts a shell for the candidate's pane, at the candidate's size, in
/// its directory, under the settings of the session and with the environment that
/// was found. What it sends is a line and a return, and a shell reads the line as
/// exactly the words of the candidate's plan.
pub proof fn launch_resumes_the_candidate(
    app: App,
    launch: ResumeLaunch,
    candidate: PendingAgentResumeCandidate,
    launch_env: Vec<(String, String)>,
)
    requires
        app.is_launch(launch, candidate@, launch_env),
        candidate.plan.argv@.len() > 0,
    ensures
        launch.request.pane_id == candidate.pane_id,
        launch.request.rows == candidate.rows,
        launch.request.cols == candidate.cols,
        path_of(launch.request.cwd) == path_of(candidate.cwd),
        launch.request.scrollback_limit_bytes == app.state.pane_scrollback_limit_bytes,
        launch.request.theme@ == app.state.host_terminal_theme@,
        match (launch.request.appearance, app.state.host_terminal_appearance) {
            (Some(a), Some(b)) => a@ == b@,
            (None, None) => true,
            _ => false,
        },
        launch.request.shell.default_shell@ == app.state.default_shell@,
        launch.request.shell.shell_mode@ == app.state.shell_mode@,
        launch.request.launch_env == launch_env,
        exists|line: Seq<char>|
            #![trigger shell_words(line)]
            {
                &&& bytes_of(launch.input) == encode_utf8(line.push('\r'))
                &&& shell_words(line) matches Some(words)
                &&& words.len() == candidate.plan.argv@.len()
                &&& forall|k: int|
                    0 <= k < words.len() ==> #[trigger] words[k] == candidate.plan.argv@[k]@
            },
{
    let words = Seq::new(candidate.plan.argv@.len(), |k: int| candidate.plan.argv@[k]@);
    assert(candidate.plan@.argv =~= words);
    command_line_reads_back(words);
    assert(shell_words(command_line(words)) == Some(words));
}

/// What becomes of a launch. One whose command was taken leaves the terminal
/// running under its handle at the candidate's size, without a plan and without
/// a shell to come after it, and all else of it as it was. Any other leaves all
/// as it was.
pub proof fn launch_settles_its_terminal(
    resumes: Resumes,
    candidate: CandidateView,
    outcome: LaunchOutcome,
    other: TerminalId,
)
    ensures
        ({
            let after = resumes.after(candidate, outcome);
            let id = candidate.terminal_id;
            match outcome {
                LaunchOutcome::Sent(handle) => {
                    &&& after.runtimes.contains_key(id)
                    &&& after.runtimes[id].handle == handle
                    &&& after.runtimes[id].rows == candidate.rows
                    &&& after.runtimes[id].cols == candidate.cols
                    &&& after.terminals.contains_key(other) == resumes.terminals.contains_key(other)
                    &&& resumes.terminals.contains_key(id) ==> {
                        &&& after.terminals[id].pending_agent_resume_plan is None
                        &&& !after.terminals[id].respawn_shell_on_exit
                        &&& after.terminals[id].cwd == resumes.terminals[id].cwd
                    }
                    &&& other != id ==> {
                        &&& after.runtimes.contains_key(other) == resumes.runtimes.contains_key(
                            other,
                        )
                        &&& resumes.runtimes.contains_key(other) ==> after.runtimes[other]
                            == resumes.runtimes[other]
                        &&& resumes.terminals.contains_key(other) ==> after.terminals[other]
                            == resumes.terminals[other]
                    }
                },
                _ => after == resumes,
            }
        }),
{
}

/// Something waits exactly where some terminal of the session has a plan.
pub proof fn session_waits_while_a_plan_is_left(app: App)
    ensures
        app.resumes().any_waits() <==> exists|id: TerminalId| #[trigger]
            app.state.terminals@.contains_key(id)
                && app.state.terminals@[id].pending_agent_resume_plan is Some,
{
    if app.resumes().any_waits() {
        let id = choose|id: TerminalId| #[trigger] app.resumes().waits(id);
        assert(app.state.terminals@.contains_key(id));
    }
    if exists|id: TerminalId| #[trigger]
        app.state.terminals@.contains_key(id)
            && app.state.terminals@[id].pending_agent_resume_plan is Some {
        let id = choose|id: TerminalId| #[trigger]
            app.state.terminals@.contains_key(id)
                && app.state.terminals@[id].pending_agent_resume_plan is Some;
        assert(app.resumes().waits(id));
    }
}

/// A look at the surfaces takes the deadline back where they show nothing to
/// resume, leaves one that is set, and sets one that is the wait away else.
pub proof fn look_sets_the_deadline_once(deadline: Option<u64>, now: u64, wait: u64)
    requires
        now + wait <= u64::MAX,
    ensures
        synced_deadline(false, deadline, now, wait) is None,
        deadline is Some ==> synced_deadline(true, deadline, now, wait) == deadline,
        deadline is None ==> {
            &&& synced_deadline(true, deadline, now, wait) matches Some(set)
            &&& set - now == wait
        },
{
}

/// The end of a round takes the deadline back where the surfaces show nothing to
/// resume. Else it moves it the wait away from now where no theme was waited for,
/// and leaves it where one was.
pub proof fn round_moves_the_deadline(deadline: Option<u64>, now: u64, wait: u64)
    requires
        now + wait <= u64::MAX,
    ensures
        deadline_after_round(false, true, deadline, now, wait) is None,
        deadline_after_round(false, false, deadline, now, wait) is None,
        deadline_after_round(true, false, deadline, now, wait) == deadline,
        ({
            &&& deadline_after_round(true, true, deadline, now, wait) matches Some(set)
            &&& set - now == wait
        }),
{
}

/// The wait is over from the deadline on, and never without one.
pub proof fn wait_is_over_from_the_deadline_on(app: App, now: u64)
    ensures
        app.pending_agent_resume_deadline is None ==> !app.resume_due(now),
        app.pending_agent_resume_deadline matches Some(deadline) ==> (app.resume_due(now)
            <==> deadline <= now),
{
}

/// Whether pane `place.2` of tab `place.1` of workspace `place.0` is `pane_id`,
/// belongs to the tab, and is attached to the terminal `id`.
pub open spec fn attached(app: App, place: (int, int, int), pane_id: PaneId, id: TerminalId) -> bool {
    let workspaces = app.state.workspaces@;
    let tab = workspaces[place.0].tabs@[place.1];
    &&& 0 <= place.0 < workspaces.len()
    &&& 0 <= place.1 < workspaces[place.0].tabs@.len()
    &&& 0 <= place.2 < tab.pane_ids@.len()
    &&& tab.pane_ids@[place.2] == pane_id
    &&& tab.panes@.contains_key(pane_id)
    &&& tab.panes@[pane_id].attached_terminal_id == id
}

/// A client that attaches has the agent of its terminal resumed exactly where the
/// terminal has a plan, nothing runs in it, and some pane of some tab of some
/// workspace is attached to it.
pub proof fn attach_resumes_a_waiting_terminal(app: App, id: TerminalId)
    ensures
        app.resumes_on_attach(id) <==> {
            &&& app.state.terminals@.contains_key(id)
            &&& app.state.terminals@[id].pending_agent_resume_plan is Some
            &&& !app.terminal_runtimes@.contains_key(id)
            &&& exists|place: (int, int, int), pane_id: PaneId| #[trigger]
                attached(app, place, pane_id, id)
        },
{
    if exists|place: (int, int, int)| #[trigger] app.attached_at(place, id) {
        let place = choose|place: (int, int, int)| #[trigger] app.attached_at(place, id);
        assert(attached(app, place, app.pane_at(place), id));
    }
    if exists|place: (int, int, int), pane_id: PaneId| #[trigger]
        attached(app, place, pane_id, id) {
        let (place, pane_id) = choose|place: (int, int, int), pane_id: PaneId| #[trigger]
            attached(app, place, pane_id, id);
        assert(app.attached_at(place, id));
    }
}

/// The pane that an attach resumes an agent in is attached to the terminal, and
/// no pane of an earlier workspace is, nor of an earlier tab of that workspace,
/// nor an earlier pane of that tab.
pub proof fn attach_takes_the_first_pane(
    app: App,
    place: (int, int, int),
    id: TerminalId,
    other: (int, int, int),
    other_pane: PaneId,
)
    requires
        app.first_attached_at(place, id),
        attached(app, other, other_pane, id),
    ensures
        attached(app, place, app.pane_at(place), id),
        place.0 <= other.0,
        place.0 == other.0 ==> place.1 <= other.1,
        place.0 == other.0 && place.1 == other.1 ==> place.2 <= other.2,
{
    assert(app.attached_at(other, id));
}

} // verus!
