//! A round of resuming agents, step by step.
//!
//! What has to be done outside is handed out as a [`ResumeAction`], and what
//! came of it is handed back as a [`ResumeEvent`].
use crate::agent_resume::{
    candidate_views, CandidateView, Exposure, LaunchOutcome, PendingAgentResumeCandidate,
    ResumeLaunch, ResumeRefusal, Resumes, SpawnRequest,
};
use crate::session::{App, AppState, PaneId, TabSurface, TerminalId, TerminalRuntime};
use bytes::Bytes;
use vstd::prelude::*;

verus! {

/// What a round is about.
#[derive(Clone, Copy, Debug, PartialEq, Eq)]
pub enum ResumeScope {
    /// The agents that are shown.
    Surfaces,
    /// The agent of one terminal, shown or not.
    Terminal,
}

/// What a round waits for.
#[derive(Debug, PartialEq, Eq)]
pub enum ResumeStage {
    /// To begin.
    Idle,
    /// The environment that the agent's pane launches in.
    FindingEnv,
    /// The agent's terminal to start, to be sent this then.
    Spawning(Bytes),
    /// The terminal with this handle to take the command.
    Sending(u64),
    /// The terminal with this handle to be shut down.
    ShuttingDown(u64),
    /// The surfaces as they are laid out after the launches.
    LayingOut,
    /// Nothing: it is over.
    Finished,
}

/// A round of resuming agents, one after the other.
#[derive(Debug, PartialEq, Eq)]
pub struct ResumeRound {
    pub scope: ResumeScope,
    /// The agents to resume.
    pub queue: Vec<PendingAgentResumeCandidate>,
    /// What became of those that are done with, from the first on.
    pub outcomes: Vec<LaunchOutcome>,
    /// Whether agents are resumed although no colour is known.
    pub allow_empty_theme: bool,
    /// Whether any agent has been resumed.
    pub changed: bool,
    pub stage: ResumeStage,
}

/// Something to do for a round.
#[derive(Debug, PartialEq, Eq)]
pub enum ResumeAction {
    /// Find the environment that the pane launches in.
    FindLaunchEnv(PaneId),
    /// Start a terminal.
    Spawn(SpawnRequest),
    /// Send bytes to the terminal with this handle.
    Send(u64, Bytes),
    /// Shut the terminal with this handle down.
    Shutdown(u64),
    /// Lay the surfaces of the round out again.
    LayOut,
    /// Nothing more: the round is over, and has or has not resumed an agent.
    Finished(bool),
}

/// What came of an action.
#[derive(Debug, PartialEq, Eq)]
pub enum ResumeEvent {
    /// The round begins.
    Begin,
    /// The environment, where the pane has one.
    LaunchEnv(Option<Vec<(String, String)>>),
    /// The handle of the terminal, where it started.
    Spawned(Option<u64>),
    /// Whether the terminal took the bytes.
    Sent(bool),
    /// The terminal is down.
    ShutDown,
    /// The surfaces, and the time.
    LaidOut(Vec<TabSurface>, u64),
}

/// Whether any of the agents was resumed.
pub open spec fn any_sent(outcomes: Seq<LaunchOutcome>) -> bool {
    exists|i: int| 0 <= i < outcomes.len() && (#[trigger] outcomes[i]) is Sent
}

impl ResumeRound {
    /// Whether the round waits for `event`.
    pub open spec fn awaits(self, event: ResumeEvent) -> bool {
        match self.stage {
            ResumeStage::Idle => event is Begin,
            ResumeStage::FindingEnv => event is LaunchEnv,
            ResumeStage::Spawning(_) => event is Spawned,
            ResumeStage::Sending(_) => event is Sent,
            ResumeStage::ShuttingDown(_) => event is ShutDown,
            ResumeStage::LayingOut => event is LaidOut,
            ResumeStage::Finished => false,
        }
    }

    /// Whether the round has an agent in hand in the stages that are about one,
    /// is done with all of them in the last two, and has `changed` right.
    pub open spec fn well_formed(self) -> bool {
        &&& self.outcomes@.len() <= self.queue@.len()
        &&& self.changed == any_sent(self.outcomes@)
        &&& match self.stage {
            ResumeStage::Idle => true,
            ResumeStage::LayingOut | ResumeStage::Finished => self.outcomes@.len()
                == self.queue@.len(),
            _ => self.outcomes@.len() < self.queue@.len(),
        }
    }

    /// The agents to resume.
    pub open spec fn candidates(self) -> Seq<CandidateView> {
        candidate_views(self.queue@)
    }

    /// The agent in hand.
    pub open spec fn current(self) -> CandidateView {
        self.queue@[self.outcomes@.len() as int]@
    }

    /// Whether `after` is about the same as this.
    pub open spec fn same_round(self, after: ResumeRound) -> bool {
        &&& after.scope == self.scope
        &&& after.queue == self.queue
        &&& after.allow_empty_theme == self.allow_empty_theme
    }

    /// Whether the round waits for `event`.
    pub fn expects(&self, event: &ResumeEvent) -> (expected: bool)
        ensures
            expected == self.awaits(*event),
    {
        match (&self.stage, event) {
            (ResumeStage::Idle, ResumeEvent::Begin) => true,
            (ResumeStage::FindingEnv, ResumeEvent::LaunchEnv(_)) => true,
            (ResumeStage::Spawning(_), ResumeEvent::Spawned(_)) => true,
            (ResumeStage::Sending(_), ResumeEvent::Sent(_)) => true,
            (ResumeStage::ShuttingDown(_), ResumeEvent::ShutDown) => true,
            (ResumeStage::LayingOut, ResumeEvent::LaidOut(_, _)) => true,
            _ => false,
        }
    }
}

/// What becomes of `candidate` when its turn comes and nothing has to be done
/// outside for that: something runs in its terminal, the theme is still waited
/// for, or its plan has no command.
pub open spec fn settled_at_once(
    runtimes: Map<TerminalId, TerminalRuntime>,
    theme_pending: bool,
    candidate: CandidateView,
) -> Option<LaunchOutcome> {
    if runtimes.contains_key(candidate.terminal_id) {
        Some(LaunchOutcome::AlreadyRuns)
    } else if theme_pending {
        Some(LaunchOutcome::Refused(ResumeRefusal::ThemePending))
    } else if candidate.plan.argv.len() == 0 {
        Some(LaunchOutcome::Refused(ResumeRefusal::EmptyArgv))
    } else {
        None
    }
}

/// `outcomes` with the agents passed over whose turn comes next and that are
/// settled at once.
pub open spec fn passed_over(
    runtimes: Map<TerminalId, TerminalRuntime>,
    theme_pending: bool,
    queue: Seq<CandidateView>,
    outcomes: Seq<LaunchOutcome>,
) -> Seq<LaunchOutcome>
    decreases queue.len() - outcomes.len(),
{
    if outcomes.len() < queue.len() {
        match settled_at_once(runtimes, theme_pending, queue[outcomes.len() as int]) {
            Some(outcome) => passed_over(
                runtimes,
                theme_pending,
                queue,
                outcomes.push(outcome),
            ),
            None => outcomes,
        }
    } else {
        outcomes
    }
}

/// The deadline after a round over surfaces: none without anything left to
/// resume; a new one where the round did not wait for a theme, so that a launch
/// that failed is not tried again at once; else the one that was set.
pub open spec fn deadline_after_round(
    pending: bool,
    allow_empty_theme: bool,
    deadline: Option<u64>,
    now: u64,
    wait: u64,
) -> Option<u64> {
    if !pending {
        None
    } else if allow_empty_theme {
        Some((now + wait) as u64)
    } else {
        deadline
    }
}

/// The application and a round of it.
pub struct RoundState {
    pub app: App,
    pub round: ResumeRound,
}

impl RoundState {
    /// Whether the round goes on to the next agent to launch after `outcomes`, with
    /// `resumes` as the terminals. Without a next one it has the surfaces laid
    /// out again, or ends where it is about one terminal.
    pub open spec fn goes_on(
        self,
        after: RoundState,
        action: ResumeAction,
        resumes: Resumes,
        outcomes: Seq<LaunchOutcome>,
        changed: bool,
    ) -> bool {
        let queue = self.round.candidates();
        let done = passed_over(
            resumes.runtimes,
            self.app.theme_pending(self.round.allow_empty_theme),
            queue,
            outcomes,
        );
        &&& self.round.same_round(after.round)
        &&& after.app.resumes() == resumes
        &&& after.round.outcomes@ == done
        &&& after.round.changed == changed
        &&& if done.len() < queue.len() {
            &&& self.app.keeps_all_but_terminals(after.app)
            &&& after.round.stage is FindingEnv
            &&& action == ResumeAction::FindLaunchEnv(queue[done.len() as int].pane_id)
        } else {
            match self.round.scope {
                ResumeScope::Surfaces => {
                    &&& self.app.keeps_all_but_terminals(after.app)
                    &&& after.round.stage is LayingOut
                    &&& action is LayOut
                },
                ResumeScope::Terminal => {
                    &&& after.app == (App {
                        state: AppState { terminals: after.app.state.terminals, ..self.app.state },
                        terminal_runtimes: after.app.terminal_runtimes,
                        session_save_scheduled: self.app.session_save_scheduled || changed,
                        pending_agent_resume_deadline: if resumes.any_waits() {
                            self.app.pending_agent_resume_deadline
                        } else {
                            None
                        },
                        ..self.app
                    })
                    &&& after.round.stage is Finished
                    &&& action == ResumeAction::Finished(changed)
                },
            }
        }
    }

    /// Whether the round is done with the agent in hand, which came to
    /// `outcome`, and goes on.
    pub open spec fn settles(
        self,
        after: RoundState,
        action: ResumeAction,
        outcome: LaunchOutcome,
    ) -> bool {
        self.goes_on(
            after,
            action,
            self.app.resumes().after(self.round.current(), outcome),
            self.round.outcomes@.push(outcome),
            self.round.changed || outcome is Sent,
        )
    }

    /// Whether the round only comes to wait in `stage`.
    pub open spec fn waits_in(self, after: RoundState, stage: ResumeStage) -> bool {
        &&& after.app == self.app
        &&& after.round == (ResumeRound { stage, ..self.round })
    }

    /// Whether `event` takes the round to `after`, with `action` to be done next.
    pub open spec fn advances(
        self,
        event: ResumeEvent,
        after: RoundState,
        action: ResumeAction,
    ) -> bool {
        match (self.round.stage, event) {
            (ResumeStage::Idle, ResumeEvent::Begin) => self.goes_on(
                after,
                action,
                self.app.resumes(),
                self.round.outcomes@,
                self.round.changed,
            ),
            (ResumeStage::FindingEnv, ResumeEvent::LaunchEnv(launch_env)) => {
                match self.app.resume_refusal(
                    self.round.current().plan,
                    launch_env is Some,
                    self.round.allow_empty_theme,
                ) {
                    Some(refusal) => self.settles(after, action, LaunchOutcome::Refused(refusal)),
                    None => {
                        &&& action matches ResumeAction::Spawn(request)
                        &&& after.round.stage matches ResumeStage::Spawning(input)
                        &&& self.app.is_launch(
                            (ResumeLaunch { request, input }),
                            self.round.current(),
                            launch_env->0,
                        )
                        &&& self.waits_in(after, after.round.stage)
                    },
                }
            },
            (ResumeStage::Spawning(_), ResumeEvent::Spawned(None)) => self.settles(
                after,
                action,
                LaunchOutcome::SpawnFailed,
            ),
            (ResumeStage::Spawning(input), ResumeEvent::Spawned(Some(handle))) => {
                &&& self.waits_in(after, ResumeStage::Sending(handle))
                &&& action == ResumeAction::Send(handle, input)
            },
            (ResumeStage::Sending(handle), ResumeEvent::Sent(taken)) => if taken {
                self.settles(after, action, LaunchOutcome::Sent(handle))
            } else {
                &&& self.waits_in(after, ResumeStage::ShuttingDown(handle))
                &&& action == ResumeAction::Shutdown(handle)
            },
            (ResumeStage::ShuttingDown(handle), ResumeEvent::ShutDown) => self.settles(
                after,
                action,
                LaunchOutcome::SendFailed(handle),
            ),
            (ResumeStage::LayingOut, ResumeEvent::LaidOut(surfaces, now)) => {
                &&& after.app == (App {
                    session_save_scheduled: self.app.session_save_scheduled || self.round.changed,
                    pending_agent_resume_deadline: deadline_after_round(
                        self.app.resume_candidates(surfaces@).len() > 0,
                        self.round.allow_empty_theme,
                        self.app.pending_agent_resume_deadline,
                        now,
                        self.app.theme_wait,
                    ),
                    ..self.app
                })
                &&& after.round == (ResumeRound { stage: ResumeStage::Finished, ..self.round })
                &&& action == ResumeAction::Finished(self.round.changed)
            },
            _ => false,
        }
    }
}

proof fn lemma_any_sent_push(outcomes: Seq<LaunchOutcome>, outcome: LaunchOutcome)
    ensures
        any_sent(outcomes.push(outcome)) == (any_sent(outcomes) || outcome is Sent),
{
    let longer = outcomes.push(outcome);
    if any_sent(outcomes) {
        let i = choose|i: int| 0 <= i < outcomes.len() && (#[trigger] outcomes[i]) is Sent;
        assert(longer[i] is Sent);
    }
    if outcome is Sent {
        assert(longer[outcomes.len() as int] is Sent);
    }
    if any_sent(longer) {
        let i = choose|i: int| 0 <= i < longer.len() && (#[trigger] longer[i]) is Sent;
        assert(i < outcomes.len() ==> outcomes[i] is Sent);
    }
}

impl App {
    /// A round over the agents that `surfaces` show.
    pub fn start_pending_agent_resumes(
        &self,
        surfaces: &[TabSurface],
        allow_empty_theme: bool,
    ) -> (round: ResumeRound)
        ensures
            round.well_formed(),
            round.scope is Surfaces,
            round.candidates() == self.resume_candidates(surfaces@),
            round.outcomes@.len() == 0,
            round.allow_empty_theme == allow_empty_theme,
            !round.changed,
            round.stage is Idle,
    {
        ResumeRound {
            scope: ResumeScope::Surfaces,
            queue: self.pending_agent_resume_candidates(surfaces),
            outcomes: Vec::new(),
            allow_empty_theme,
            changed: false,
            stage: ResumeStage::Idle,
        }
    }

    /// Whether a client that attaches to the terminal `id` has its agent
    /// resumed: it can be, and some pane is attached to it.
    pub open spec fn resumes_on_attach(self, id: TerminalId) -> bool {
        &&& self.resumes().resumable(id)
        &&& exists|place: (int, int, int)| #[trigger] self.attached_at(place, id)
    }

    /// A round over the agent of the terminal `terminal_id`, at the size of the
    /// client that attaches to it. The pane is the first that is attached.
    pub fn start_pending_agent_resume_for_terminal(
        &self,
        terminal_id: TerminalId,
        rows: u16,
        cols: u16,
        allow_empty_theme: bool,
    ) -> (round: Option<ResumeRound>)
        ensures
            round is Some == self.resumes_on_attach(terminal_id),
            round matches Some(round) ==> {
                &&& round.well_formed()
                &&& round.scope is Terminal
                &&& round.queue@.len() == 1
                &&& exists|place: (int, int, int)| #[trigger]
                    self.first_attached_at(place, terminal_id) && round.current()
                        == self.resumes().candidate(
                        Exposure { pane_id: self.pane_at(place), terminal_id, rows, cols },
                    )
                &&& round.outcomes@.len() == 0
                &&& round.allow_empty_theme == allow_empty_theme
                &&& !round.changed
                &&& round.stage is Idle
            },
    {
        if self.terminal_runtimes.contains_key(&terminal_id) {
            return None;
        }
        let pane_id = match self.first_attached_pane(terminal_id) {
            Some(pane_id) => pane_id,
            None => return None,
        };
        let terminal = match self.state.terminals.get(&terminal_id) {
            Some(terminal) => terminal,
            None => return None,
        };
        let plan = match &terminal.pending_agent_resume_plan {
            Some(plan) => plan.clone(),
            None => return None,
        };
        let mut queue: Vec<PendingAgentResumeCandidate> = Vec::new();
        queue.push(
            PendingAgentResumeCandidate {
                pane_id,
                terminal_id,
                cwd: terminal.cwd.clone(),
                plan,
                rows,
                cols,
            },
        );
        Some(
            ResumeRound {
                scope: ResumeScope::Terminal,
                queue,
                outcomes: Vec::new(),
                allow_empty_theme,
                changed: false,
                stage: ResumeStage::Idle,
            },
        )
    }

    /// What becomes of `candidate` without anything done outside, where that is
    /// enough.
    fn settle_at_once(&self, candidate: &PendingAgentResumeCandidate, allow_empty_theme: bool) -> (
    outcome: Option<LaunchOutcome>)
        ensures
            outcome == settled_at_once(
                self.terminal_runtimes@,
                self.theme_pending(allow_empty_theme),
                candidate@,
            ),
    {
        if self.terminal_runtimes.contains_key(&candidate.terminal_id) {
            return Some(LaunchOutcome::AlreadyRuns);
        }
        if self.state.host_terminal_theme.is_empty() && !allow_empty_theme {
            return Some(LaunchOutcome::Refused(ResumeRefusal::ThemePending));
        }
        if candidate.plan.argv.len() == 0 {
            return Some(LaunchOutcome::Refused(ResumeRefusal::EmptyArgv));
        }
        None
    }

    /// Goes on to the next agent of the round that is not settled at once.
    fn go_on(&mut self, round: &mut ResumeRound) -> (action: ResumeAction)
        requires
            old(round).outcomes@.len() <= old(round).queue@.len(),
            old(round).changed == any_sent(old(round).outcomes@),
        ensures
            final(round).well_formed(),
            (RoundState { app: *old(self), round: *old(round) }).goes_on(
                RoundState { app: *final(self), round: *final(round) },
                action,
                old(self).resumes(),
                old(round).outcomes@,
                old(round).changed,
            ),
    {
        while round.outcomes.len() < round.queue.len()
            invariant
                round.outcomes@.len() <= round.queue@.len(),
                round.changed == any_sent(round.outcomes@),
                old(round).same_round(*round),
                round.changed == old(round).changed,
                *self == *old(self),
                passed_over(
                    self.terminal_runtimes@,
                    self.theme_pending(round.allow_empty_theme),
                    round.candidates(),
                    round.outcomes@,
                ) == passed_over(
                    old(self).terminal_runtimes@,
                    old(self).theme_pending(old(round).allow_empty_theme),
                    old(round).candidates(),
                    old(round).outcomes@,
                ),
            decreases round.queue@.len() - round.outcomes@.len(),
        {
            let candidate = &round.queue[round.outcomes.len()];
            match self.settle_at_once(candidate, round.allow_empty_theme) {
                Some(outcome) => {
                    let ghost before = round.outcomes@;
                    round.outcomes.push(outcome);
                    proof {
                        lemma_any_sent_push(before, outcome);
                    }
                },
                None => {
                    round.stage = ResumeStage::FindingEnv;
                    return ResumeAction::FindLaunchEnv(candidate.pane_id);
                },
            }
        }
        match round.scope {
            ResumeScope::Surfaces => {
                round.stage = ResumeStage::LayingOut;
                ResumeAction::LayOut
            },
            ResumeScope::Terminal => {
                if round.changed {
                    self.schedule_session_save();
                }
                if !self.has_pending_agent_resumes() {
                    self.pending_agent_resume_deadline = None;
                }
                round.stage = ResumeStage::Finished;
                ResumeAction::Finished(round.changed)
            },
        }
    }

    /// Takes note of what became of the agent in hand, and goes on.
    fn settle(&mut self, round: &mut ResumeRound, outcome: LaunchOutcome) -> (action: ResumeAction)
        requires
            old(round).outcomes@.len() < old(round).queue@.len(),
            old(round).changed == any_sent(old(round).outcomes@),
        ensures
            final(round).well_formed(),
            (RoundState { app: *old(self), round: *old(round) }).settles(
                RoundState { app: *final(self), round: *final(round) },
                action,
                outcome,
            ),
    {
        self.settle_agent_resume(&round.queue[round.outcomes.len()], outcome);
        if let LaunchOutcome::Sent(_) = outcome {
            round.changed = true;
        }
        round.outcomes.push(outcome);
        proof {
            lemma_any_sent_push(old(round).outcomes@, outcome);
        }
        self.go_on(round)
    }

    /// Takes the round a step further: what is to be done after `event`.
    pub fn advance_agent_resumes(
        &mut self,
        round: &mut ResumeRound,
        event: ResumeEvent,
    ) -> (action: ResumeAction)
        requires
            old(round).well_formed(),
            old(round).awaits(event),
            event matches ResumeEvent::LaidOut(surfaces, now) ==> old(round).allow_empty_theme
                && old(self).resume_candidates(surfaces@).len() > 0 ==> now
                + old(self).theme_wait <= u64::MAX,
        ensures
            final(round).well_formed(),
            (RoundState { app: *old(self), round: *old(round) }).advances(
                event,
                RoundState { app: *final(self), round: *final(round) },
                action,
            ),
    {
        let mut stage = ResumeStage::Finished;
        std::mem::swap(&mut stage, &mut round.stage);
        match (stage, event) {
            (ResumeStage::Idle, ResumeEvent::Begin) => self.go_on(round),
            (ResumeStage::FindingEnv, ResumeEvent::LaunchEnv(launch_env)) => {
                let started = self.start_pending_agent_resume(
                    &round.queue[round.outcomes.len()],
                    launch_env,
                    round.allow_empty_theme,
                );
                match started {
                    Ok(launch) => {
                        round.stage = ResumeStage::Spawning(launch.input);
                        ResumeAction::Spawn(launch.request)
                    },
                    Err(refusal) => self.settle(round, LaunchOutcome::Refused(refusal)),
                }
            },
            (ResumeStage::Spawning(_), ResumeEvent::Spawned(None)) => {
                self.settle(round, LaunchOutcome::SpawnFailed)
            },
            (ResumeStage::Spawning(input), ResumeEvent::Spawned(Some(handle))) => {
                round.stage = ResumeStage::Sending(handle);
                ResumeAction::Send(handle, input)
            },
            (ResumeStage::Sending(handle), ResumeEvent::Sent(taken)) => if taken {
                self.settle(round, LaunchOutcome::Sent(handle))
            } else {
                round.stage = ResumeStage::ShuttingDown(handle);
                ResumeAction::Shutdown(handle)
            },
            (ResumeStage::ShuttingDown(handle), ResumeEvent::ShutDown) => {
                self.settle(round, LaunchOutcome::SendFailed(handle))
            },
            (_, ResumeEvent::LaidOut(surfaces, now)) => {
                let pending = self.pending_agent_resume_candidates(surfaces.as_slice());
                assert(candidate_views(pending@).len() == pending@.len());
                if round.changed {
                    self.schedule_session_save();
                }
                if pending.len() == 0 {
                    self.pending_agent_resume_deadline = None;
                } else if round.allow_empty_theme {
                    // A failed launch stays pending; the elapsed deadline is not met again at once.
                    self.pending_agent_resume_deadline = Some(now + self.theme_wait);
                }
                ResumeAction::Finished(round.changed)
            },
            _ => ResumeAction::Finished(round.changed),
        }
    }
}

} // verus!
