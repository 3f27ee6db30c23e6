//! Resuming the agents of a restored session, each when its pane is shown.
use crate::input_bytes::{bytes_from_string, bytes_of};
use crate::paths::path_of;
use crate::session::{
    AgentResumePlan, App, AppState, PaneId, PaneInfo, PlanView, Tab, TabSurface, TerminalId,
    TerminalRuntime, TerminalState, TerminalTheme,
};
use crate::shell_command::{
    command_line, command_line_reads_back, shell_command_from_argv, shell_words,
};
use crate::text::{text_of, texts};
use bytes::Bytes;
use std::collections::HashSet;
use std::path::PathBuf;
use vstd::prelude::*;
use vstd::utf8::encode_utf8;

verus! {

/// An agent to resume: in which pane and terminal, where, how, and at what size.
#[derive(Debug, PartialEq, Eq)]
pub struct PendingAgentResumeCandidate {
    pub pane_id: PaneId,
    pub terminal_id: TerminalId,
    pub cwd: PathBuf,
    pub plan: AgentResumePlan,
    pub rows: u16,
    pub cols: u16,
}

/// A candidate by its characters and the bytes of its directory.
pub struct CandidateView {
    pub pane_id: PaneId,
    pub terminal_id: TerminalId,
    pub cwd: Seq<u8>,
    pub plan: PlanView,
    pub rows: u16,
    pub cols: u16,
}

impl View for PendingAgentResumeCandidate {
    type V = CandidateView;

    open spec fn view(&self) -> CandidateView {
        CandidateView {
            pane_id: self.pane_id,
            terminal_id: self.terminal_id,
            cwd: path_of(self.cwd),
            plan: self.plan@,
            rows: self.rows,
            cols: self.cols,
        }
    }
}

/// The views of a list of candidates.
pub open spec fn candidate_views(
    candidates: Seq<PendingAgentResumeCandidate>,
) -> Seq<CandidateView> {
    candidates.map_values(|candidate: PendingAgentResumeCandidate| candidate@)
}

/// The terminals of a session and those of them that run.
pub struct Resumes {
    pub terminals: Map<TerminalId, TerminalState>,
    pub runtimes: Map<TerminalId, TerminalRuntime>,
}

impl Resumes {
    /// Whether the terminal waits for its agent to be resumed.
    pub open spec fn waits(self, id: TerminalId) -> bool {
        self.terminals.contains_key(id) && self.terminals[id].pending_agent_resume_plan is Some
    }

    /// Whether the terminal's agent can be resumed: it waits, and nothing runs
    /// in its place.
    pub open spec fn resumable(self, id: TerminalId) -> bool {
        self.waits(id) && !self.runtimes.contains_key(id)
    }

    /// Whether any terminal waits for its agent to be resumed.
    pub open spec fn any_waits(self) -> bool {
        exists|id: TerminalId| #[trigger] self.waits(id)
    }

    /// The candidate for resuming the terminal that `shown` shows.
    pub open spec fn candidate(self, shown: Exposure) -> CandidateView {
        CandidateView {
            pane_id: shown.pane_id,
            terminal_id: shown.terminal_id,
            cwd: path_of(self.terminals[shown.terminal_id].cwd),
            plan: self.terminals[shown.terminal_id].pending_agent_resume_plan->0@,
            rows: shown.rows,
            cols: shown.cols,
        }
    }

    /// The candidates among the terminals shown: each that can be resumed, in
    /// the first pane that shows it.
    pub open spec fn candidates(self, shown: Seq<Exposure>) -> Seq<CandidateView>
        decreases shown.len(),
    {
        if shown.len() == 0 {
            Seq::empty()
        } else {
            let before = self.candidates(shown.drop_last());
            let last = shown.last();
            if !shows(shown.drop_last(), last.terminal_id) && self.resumable(last.terminal_id) {
                before.push(self.candidate(last))
            } else {
                before
            }
        }
    }
}

/// A terminal as a pane shows it.
pub struct Exposure {
    pub pane_id: PaneId,
    pub terminal_id: TerminalId,
    pub rows: u16,
    pub cols: u16,
}

/// Whether `shown` shows the terminal `id`.
pub open spec fn shows(shown: Seq<Exposure>, id: TerminalId) -> bool {
    exists|i: int| 0 <= i < shown.len() && (#[trigger] shown[i]).terminal_id == id
}

/// The terminals that the panes of `tab` show where the layout gives them room.
pub open spec fn exposed_panes(tab: Tab, infos: Seq<PaneInfo>) -> Seq<Exposure>
    decreases infos.len(),
{
    if infos.len() == 0 {
        Seq::empty()
    } else {
        let before = exposed_panes(tab, infos.drop_last());
        let info = infos.last();
        if !info.inner_rect.blank() && tab.panes@.contains_key(info.id) {
            before.push(
                Exposure {
                    pane_id: info.id,
                    terminal_id: tab.panes@[info.id].attached_terminal_id,
                    rows: info.inner_rect.height,
                    cols: info.inner_rect.width,
                },
            )
        } else {
            before
        }
    }
}

impl App {
    /// The terminals, and those of them that run.
    pub open spec fn resumes(self) -> Resumes {
        Resumes { terminals: self.state.terminals@, runtimes: self.terminal_runtimes@ }
    }

    /// The terminals that a surface shows: none without room or without its tab.
    pub open spec fn exposed_by(self, surface: TabSurface) -> Seq<Exposure> {
        match self.tab_at(surface.target) {
            Some(tab) if !surface.area.blank() => exposed_panes(tab, surface.pane_infos@),
            _ => Seq::empty(),
        }
    }

    /// The terminals that `surfaces` show, one surface behind the other.
    pub open spec fn exposed(self, surfaces: Seq<TabSurface>) -> Seq<Exposure>
        decreases surfaces.len(),
    {
        if surfaces.len() == 0 {
            Seq::empty()
        } else {
            self.exposed(surfaces.drop_last()) + self.exposed_by(surfaces.last())
        }
    }

    /// The agents to resume on `surfaces`.
    pub open spec fn resume_candidates(self, surfaces: Seq<TabSurface>) -> Seq<CandidateView> {
        self.resumes().candidates(self.exposed(surfaces))
    }

    /// Whether any terminal waits for its agent to be resumed.
    pub fn has_pending_agent_resumes(&self) -> (pending: bool)
        ensures
            pending == self.resumes().any_waits(),
    {
        for entry in iter: self.state.terminals.iter()
            invariant
                forall|i: int| #![trigger iter.seq()[i]]
                    0 <= i < iter.index() ==> iter.seq()[i].1.pending_agent_resume_plan is None,
        {
            if entry.1.pending_agent_resume_plan.is_some() {
                assert(self.state.terminals@.contains_key(*iter.seq()[iter.index()].0));
                assert(self.resumes().waits(*entry.0));
                return true;
            }
        }
        false
    }
}

proof fn lemma_no_candidates(resumes: Resumes, shown: Seq<Exposure>)
    requires
        !resumes.any_waits(),
    ensures
        resumes.candidates(shown).len() == 0,
    decreases shown.len(),
{
    if shown.len() > 0 {
        lemma_no_candidates(resumes, shown.drop_last());
        assert(!resumes.waits(shown.last().terminal_id));
    }
}

proof fn lemma_shows_push(shown: Seq<Exposure>, more: Exposure, id: TerminalId)
    ensures
        shows(shown.push(more), id) == (shows(shown, id) || more.terminal_id == id),
{
    let longer = shown.push(more);
    if shows(shown, id) {
        let i = choose|i: int| 0 <= i < shown.len() && (#[trigger] shown[i]).terminal_id == id;
        assert(longer[i].terminal_id == id);
    }
    if more.terminal_id == id {
        assert(longer[shown.len() as int].terminal_id == id);
    }
    if shows(longer, id) && more.terminal_id != id {
        let i = choose|i: int| 0 <= i < longer.len() && (#[trigger] longer[i]).terminal_id == id;
        assert(shown[i].terminal_id == id);
    }
}

impl App {
    /// The agents to resume on `surfaces`.
    pub fn pending_agent_resume_candidates(&self, surfaces: &[TabSurface]) -> (pending: Vec<
        PendingAgentResumeCandidate,
    >)
        ensures
            candidate_views(pending@) == self.resume_candidates(surfaces@),
    {
        let ghost resumes = self.resumes();
        let mut pending: Vec<PendingAgentResumeCandidate> = Vec::new();
        if !self.has_pending_agent_resumes() {
            proof {
                lemma_no_candidates(resumes, self.exposed(surfaces@));
                assert(candidate_views(pending@) =~= self.resume_candidates(surfaces@));
            }
            return pending;
        }
        let mut seen: HashSet<TerminalId> = HashSet::new();
        let mut i: usize = 0;
        assert(candidate_views(pending@) =~= resumes.candidates(self.exposed(surfaces@.take(0))));
        while i < surfaces.len()
            invariant
                i <= surfaces@.len(),
                resumes == self.resumes(),
                candidate_views(pending@) == resumes.candidates(
                    self.exposed(surfaces@.take(i as int)),
                ),
                forall|id: TerminalId| #[trigger]
                    seen@.contains(id) == shows(self.exposed(surfaces@.take(i as int)), id),
            decreases surfaces@.len() - i,
        {
            let surface = &surfaces[i];
            let ghost base = self.exposed(surfaces@.take(i as int));
            proof {
                let read = surfaces@.take(i + 1);
                assert(read.drop_last() =~= surfaces@.take(i as int));
                assert(self.exposed(read) == base + self.exposed_by(*surface));
                assert(base + Seq::<Exposure>::empty() =~= base);
            }
            i += 1;
            if surface.area.is_blank() {
                continue;
            }
            let tab = match self.tab(surface.target) {
                Some(tab) => tab,
                None => continue,
            };
            let ghost infos = surface.pane_infos@;
            let mut k: usize = 0;
            assert(infos.take(0) =~= Seq::<PaneInfo>::empty());
            while k < surface.pane_infos.len()
                invariant
                    k <= surface.pane_infos@.len(),
                    infos == surface.pane_infos@,
                    resumes == self.resumes(),
                    candidate_views(pending@) == resumes.candidates(
                        base + exposed_panes(*tab, infos.take(k as int)),
                    ),
                    forall|id: TerminalId| #[trigger]
                        seen@.contains(id) == shows(
                            base + exposed_panes(*tab, infos.take(k as int)),
                            id,
                        ),
                decreases surface.pane_infos@.len() - k,
            {
                let info = &surface.pane_infos[k];
                let ghost shown = base + exposed_panes(*tab, infos.take(k as int));
                proof {
                    assert(infos.take(k + 1).drop_last() =~= infos.take(k as int));
                }
                k += 1;
                if info.inner_rect.is_blank() {
                    continue;
                }
                let pane = match tab.panes.get(&info.id) {
                    Some(pane) => pane,
                    None => continue,
                };
                let terminal_id = pane.attached_terminal_id;
                let ghost exposure = Exposure {
                    pane_id: info.id,
                    terminal_id,
                    rows: info.inner_rect.height,
                    cols: info.inner_rect.width,
                };
                proof {
                    assert(base + exposed_panes(*tab, infos.take(k as int)) =~= shown.push(
                        exposure,
                    ));
                    assert(shown.push(exposure).drop_last() =~= shown);
                    assert forall|id: TerminalId| #[trigger]
                        shows(shown.push(exposure), id) == seen@.insert(terminal_id).contains(
                            id,
                        ) by {
                        lemma_shows_push(shown, exposure, id);
                        assert(seen@.contains(id) == shows(shown, id));
                    }
                }
                assert(seen@.contains(terminal_id) == shows(shown, terminal_id));
                if !seen.insert(terminal_id) || self.terminal_runtimes.contains_key(&terminal_id) {
                    continue;
                }
                if let Some(terminal) = self.state.terminals.get(&terminal_id) {
                    if let Some(plan) = &terminal.pending_agent_resume_plan {
                        let ghost had = pending@;
                        pending.push(
                            PendingAgentResumeCandidate {
                                pane_id: info.id,
                                terminal_id,
                                cwd: terminal.cwd.clone(),
                                plan: plan.clone(),
                                rows: info.inner_rect.height,
                                cols: info.inner_rect.width,
                            },
                        );
                        assert(candidate_views(pending@) =~= candidate_views(had).push(
                            resumes.candidate(exposure),
                        ));
                    }
                }
            }
            assert(infos.take(infos.len() as int) =~= infos);
        }
        assert(surfaces@.take(surfaces@.len() as int) =~= surfaces@);
        pending
    }
}

/// The deadline after a look at `now`: none without anything to resume, else
/// the one that was set, or a new one after `wait`.
pub open spec fn synced_deadline(
    pending: bool,
    deadline: Option<u64>,
    now: u64,
    wait: u64,
) -> Option<u64> {
    if !pending {
        None
    } else if deadline is Some {
        deadline
    } else {
        Some((now + wait) as u64)
    }
}

impl App {
    /// Sets the deadline for resuming without a theme while `surfaces` show
    /// something to resume, and takes it back while they do not.
    pub fn sync_pending_agent_resume_deadline(&mut self, now: u64, surfaces: &[TabSurface])
        requires
            old(self).resume_candidates(surfaces@).len() > 0 ==> now + old(self).theme_wait
                <= u64::MAX,
        ensures
            *final(self) == (App {
                pending_agent_resume_deadline: synced_deadline(
                    old(self).resume_candidates(surfaces@).len() > 0,
                    old(self).pending_agent_resume_deadline,
                    now,
                    old(self).theme_wait,
                ),
                ..*old(self)
            }),
    {
        let pending = self.pending_agent_resume_candidates(surfaces);
        assert(candidate_views(pending@).len() == pending@.len());
        if pending.len() == 0 {
            self.pending_agent_resume_deadline = None;
            return;
        }
        if self.pending_agent_resume_deadline.is_none() {
            self.pending_agent_resume_deadline = Some(now + self.theme_wait);
        }
    }

    /// Whether the deadline for resuming without a theme has passed.
    pub open spec fn resume_due(self, now: u64) -> bool {
        self.pending_agent_resume_deadline matches Some(deadline) && now >= deadline
    }

    /// Whether the deadline for resuming without a theme has passed.
    pub fn pending_agent_resume_due(&self, now: u64) -> (due: bool)
        ensures
            due == self.resume_due(now),
    {
        match self.pending_agent_resume_deadline {
            Some(deadline) => now >= deadline,
            None => false,
        }
    }
}

/// A shell to start in a terminal.
#[derive(Debug, PartialEq, Eq)]
pub struct PaneShellConfig {
    pub default_shell: String,
    pub shell_mode: String,
}

/// A terminal to start.
#[derive(Debug, PartialEq, Eq)]
pub struct SpawnRequest {
    pub pane_id: PaneId,
    pub rows: u16,
    pub cols: u16,
    pub cwd: PathBuf,
    pub scrollback_limit_bytes: usize,
    pub theme: TerminalTheme,
    pub appearance: Option<String>,
    pub shell: PaneShellConfig,
    pub launch_env: Vec<(String, String)>,
}

/// A shell to start, and what to send it so that it resumes an agent.
#[derive(Debug, PartialEq, Eq)]
pub struct ResumeLaunch {
    pub request: SpawnRequest,
    pub input: Bytes,
}

/// Whether `input` is a line that a shell reads as `words`, and a return.
pub open spec fn sends_words(input: Bytes, words: Seq<Seq<char>>) -> bool {
    exists|line: Seq<char>|
        #![trigger shell_words(line)]
        bytes_of(input) == encode_utf8(line.push('\r')) && shell_words(line) == Some(words)
}

/// Why an agent is not resumed.
#[derive(Clone, Copy, Debug, PartialEq, Eq)]
pub enum ResumeRefusal {
    /// The colours of the host terminal are not known yet.
    ThemePending,
    /// The plan has no command.
    EmptyArgv,
    /// The pane has no environment to launch in: it is gone.
    NoLaunchEnv,
}

impl App {
    /// Whether agents wait for the colours of the host terminal.
    pub open spec fn theme_pending(self, allow_empty_theme: bool) -> bool {
        self.state.host_terminal_theme@.unknown() && !allow_empty_theme
    }

    /// Why `plan` is not resumed now, where it is not.
    pub open spec fn resume_refusal(
        self,
        plan: PlanView,
        has_env: bool,
        allow_empty_theme: bool,
    ) -> Option<ResumeRefusal> {
        if self.theme_pending(allow_empty_theme) {
            Some(ResumeRefusal::ThemePending)
        } else if plan.argv.len() == 0 {
            Some(ResumeRefusal::EmptyArgv)
        } else if !has_env {
            Some(ResumeRefusal::NoLaunchEnv)
        } else {
            None
        }
    }

    /// Whether `launch` is what resumes `candidate`: a shell at the size and in
    /// the directory of the candidate, and its command line with a return.
    pub open spec fn is_launch(
        self,
        launch: ResumeLaunch,
        candidate: CandidateView,
        launch_env: Vec<(String, String)>,
    ) -> bool {
        let request = launch.request;
        &&& request.pane_id == candidate.pane_id
        &&& request.rows == candidate.rows
        &&& request.cols == candidate.cols
        &&& path_of(request.cwd) == candidate.cwd
        &&& request.scrollback_limit_bytes == self.state.pane_scrollback_limit_bytes
        &&& request.theme@ == self.state.host_terminal_theme@
        &&& text_of(request.appearance) == text_of(self.state.host_terminal_appearance)
        &&& request.shell.default_shell@ == self.state.default_shell@
        &&& request.shell.shell_mode@ == self.state.shell_mode@
        &&& request.launch_env == launch_env
        &&& bytes_of(launch.input) == encode_utf8(command_line(candidate.plan.argv).push('\r'))
    }

    /// What resumes `candidate`, with `launch_env` as the environment that its
    /// pane launches in.
    pub fn start_pending_agent_resume(
        &self,
        candidate: &PendingAgentResumeCandidate,
        launch_env: Option<Vec<(String, String)>>,
        allow_empty_theme: bool,
    ) -> (result: Result<ResumeLaunch, ResumeRefusal>)
        ensures
            match result {
                Ok(launch) => {
                    &&& self.resume_refusal(
                        candidate.plan@,
                        launch_env is Some,
                        allow_empty_theme,
                    ) is None
                    &&& self.is_launch(launch, candidate@, launch_env->0)
                    &&& sends_words(launch.input, texts(candidate.plan.argv@))
                },
                Err(refusal) => self.resume_refusal(
                    candidate.plan@,
                    launch_env is Some,
                    allow_empty_theme,
                ) == Some(refusal),
            },
    {
        if self.state.host_terminal_theme.is_empty() && !allow_empty_theme {
            return Err(ResumeRefusal::ThemePending);
        }
        let mut input = match shell_command_from_argv(candidate.plan.argv.as_slice()) {
            Some(command) => command,
            None => return Err(ResumeRefusal::EmptyArgv),
        };
        let launch_env = match launch_env {
            Some(launch_env) => launch_env,
            None => return Err(ResumeRefusal::NoLaunchEnv),
        };
        proof {
            command_line_reads_back(texts(candidate.plan.argv@));
            assert(shell_words(input@) == Some(texts(candidate.plan.argv@)));
        }
        input.push('\r');
        Ok(
            ResumeLaunch {
                request: SpawnRequest {
                    pane_id: candidate.pane_id,
                    rows: candidate.rows,
                    cols: candidate.cols,
                    cwd: candidate.cwd.clone(),
                    scrollback_limit_bytes: self.state.pane_scrollback_limit_bytes,
                    theme: self.state.host_terminal_theme.clone(),
                    appearance: self.state.host_terminal_appearance.clone(),
                    shell: PaneShellConfig {
                        default_shell: self.state.default_shell.clone(),
                        shell_mode: self.state.shell_mode.clone(),
                    },
                    launch_env,
                },
                input: bytes_from_string(input),
            },
        )
    }
}

/// What became of an agent to resume.
#[derive(Clone, Copy, Debug, PartialEq, Eq)]
pub enum LaunchOutcome {
    /// Something ran in its terminal when its turn came.
    AlreadyRuns,
    /// It was not tried.
    Refused(ResumeRefusal),
    /// Its terminal did not start.
    SpawnFailed,
    /// Its terminal, with this handle, started and did not take the command.
    SendFailed(u64),
    /// Its terminal, with this handle, started and took the command.
    Sent(u64),
}

impl Resumes {
    /// After a launch of the candidate's terminal: it runs, at the candidate's
    /// size, and waits no longer, where the command was sent; else all is as it
    /// was.
    pub open spec fn after(self, candidate: CandidateView, outcome: LaunchOutcome) -> Resumes {
        let id = candidate.terminal_id;
        match outcome {
            LaunchOutcome::Sent(handle) => Resumes {
                terminals: if self.terminals.contains_key(id) {
                    self.terminals.insert(
                        id,
                        TerminalState {
                            pending_agent_resume_plan: None,
                            respawn_shell_on_exit: false,
                            ..self.terminals[id]
                        },
                    )
                } else {
                    self.terminals
                },
                runtimes: self.runtimes.insert(
                    id,
                    TerminalRuntime { handle, rows: candidate.rows, cols: candidate.cols },
                ),
            },
            _ => self,
        }
    }
}

impl App {
    /// Whether `after` differs from this at most in its terminals and in those
    /// that run.
    pub open spec fn keeps_all_but_terminals(self, after: App) -> bool {
        after == (App {
            state: AppState { terminals: after.state.terminals, ..self.state },
            terminal_runtimes: after.terminal_runtimes,
            ..self
        })
    }

    /// Takes note of what became of `candidate`.
    pub(crate) fn settle_agent_resume(
        &mut self,
        candidate: &PendingAgentResumeCandidate,
        outcome: LaunchOutcome,
    )
        ensures
            final(self).resumes() == old(self).resumes().after(candidate@, outcome),
            old(self).keeps_all_but_terminals(*final(self)),
    {
        if let LaunchOutcome::Sent(handle) = outcome {
            let id = candidate.terminal_id;
            self.terminal_runtimes.insert(
                id,
                TerminalRuntime { handle, rows: candidate.rows, cols: candidate.cols },
            );
            match self.state.terminals.remove(&id) {
                Some(terminal) => {
                    let mut terminal = terminal;
                    terminal.pending_agent_resume_plan = None;
                    terminal.respawn_shell_on_exit = false;
                    self.state.terminals.insert(id, terminal);
                },
                None => {},
            }
            assert(self.resumes().terminals =~= old(self).resumes().after(
                candidate@,
                outcome,
            ).terminals);
        }
    }
}

/// Whether one place in the session comes before another: by workspace, then
/// tab, then place in the tab's layout.
pub open spec fn comes_before(a: (int, int, int), b: (int, int, int)) -> bool {
    ||| a.0 < b.0
    ||| a.0 == b.0 && a.1 < b.1
    ||| a.0 == b.0 && a.1 == b.1 && a.2 < b.2
}

impl App {
    /// The pane at a place in the session.
    pub open spec fn pane_at(self, place: (int, int, int)) -> PaneId {
        self.state.workspaces@[place.0].tabs@[place.1].pane_ids@[place.2]
    }

    /// Whether the pane at `place` is attached to the terminal `id`.
    pub open spec fn attached_at(self, place: (int, int, int), id: TerminalId) -> bool {
        &&& 0 <= place.0 < self.state.workspaces@.len()
        &&& 0 <= place.1 < self.state.workspaces@[place.0].tabs@.len()
        &&& 0 <= place.2 < self.state.workspaces@[place.0].tabs@[place.1].pane_ids@.len()
        &&& self.state.workspaces@[place.0].tabs@[place.1].panes@.contains_key(self.pane_at(place))
        &&& self.state.workspaces@[place.0].tabs@[place.1].panes@[self.pane_at(
            place,
        )].attached_terminal_id == id
    }

    /// Whether the pane at `place` is the first that is attached to the
    /// terminal `id`.
    pub open spec fn first_attached_at(self, place: (int, int, int), id: TerminalId) -> bool {
        &&& self.attached_at(place, id)
        &&& forall|other: (int, int, int)| #[trigger]
            self.attached_at(other, id) ==> !comes_before(other, place)
    }

    /// The first pane that is attached to the terminal `id`.
    pub(crate) fn first_attached_pane(&self, id: TerminalId) -> (pane_id: Option<PaneId>)
        ensures
            match pane_id {
                Some(pane_id) => exists|place: (int, int, int)| #[trigger]
                    self.first_attached_at(place, id) && pane_id == self.pane_at(place),
                None => forall|place: (int, int, int)| !#[trigger] self.attached_at(place, id),
            },
    {
        let mut w: usize = 0;
        while w < self.state.workspaces.len()
            invariant
                w <= self.state.workspaces@.len(),
                forall|place: (int, int, int)| #[trigger]
                    self.attached_at(place, id) ==> !comes_before(place, (w as int, 0, 0)),
            decreases self.state.workspaces@.len() - w,
        {
            let workspace = &self.state.workspaces[w];
            let mut t: usize = 0;
            while t < workspace.tabs.len()
                invariant
                    w < self.state.workspaces@.len(),
                    *workspace == self.state.workspaces@[w as int],
                    t <= workspace.tabs@.len(),
                    forall|place: (int, int, int)| #[trigger]
                        self.attached_at(place, id) ==> !comes_before(
                            place,
                            (w as int, t as int, 0),
                        ),
                decreases workspace.tabs@.len() - t,
            {
                let tab = &workspace.tabs[t];
                let mut k: usize = 0;
                while k < tab.pane_ids.len()
                    invariant
                        w < self.state.workspaces@.len(),
                        *workspace == self.state.workspaces@[w as int],
                        t < workspace.tabs@.len(),
                        *tab == workspace.tabs@[t as int],
                        k <= tab.pane_ids@.len(),
                        forall|place: (int, int, int)| #[trigger]
                            self.attached_at(place, id) ==> !comes_before(
                                place,
                                (w as int, t as int, k as int),
                            ),
                    decreases tab.pane_ids@.len() - k,
                {
                    let pane_id = tab.pane_ids[k];
                    let ghost here = (w as int, t as int, k as int);
                    assert(self.pane_at(here) == pane_id);
                    if let Some(pane) = tab.panes.get(&pane_id) {
                        if pane.attached_terminal_id == id {
                            assert(self.attached_at(here, id));
                            assert(self.first_attached_at(here, id));
                            return Some(pane_id);
                        }
                    }
                    assert(!self.attached_at(here, id));
                    k += 1;
                }
                t += 1;
            }
            w += 1;
        }
        None
    }
}

} // verus!
