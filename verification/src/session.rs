//! The session that the server holds: workspaces, terminals and their agents.
use crate::geometry::Rect;
use crate::text::texts;
use std::collections::HashMap;
use std::path::PathBuf;
use vstd::prelude::*;

verus! {

/// A terminal by its number.
pub type TerminalId = u64;

/// A pane by its number.
pub type PaneId = u64;

/// A colour of the screen.
#[derive(Clone, Copy, Debug, PartialEq, Eq)]
pub struct RgbColor {
    pub r: u8,
    pub g: u8,
    pub b: u8,
}

/// The colours of the terminal that the client runs in, as far as known.
#[derive(Debug, PartialEq, Eq)]
pub struct TerminalTheme {
    pub foreground: Option<RgbColor>,
    pub background: Option<RgbColor>,
    /// The other colours that are known, by name.
    pub others: Vec<(String, RgbColor)>,
}

/// A theme by the characters of its names.
pub struct ThemeView {
    pub foreground: Option<RgbColor>,
    pub background: Option<RgbColor>,
    pub others: Seq<(Seq<char>, RgbColor)>,
}

impl ThemeView {
    /// Whether no colour is known.
    pub open spec fn unknown(self) -> bool {
        self.foreground is None && self.background is None && self.others.len() == 0
    }
}

/// Named colours by the characters of the names.
pub open spec fn named_colors(colors: Seq<(String, RgbColor)>) -> Seq<(Seq<char>, RgbColor)> {
    colors.map_values(|color: (String, RgbColor)| (color.0@, color.1))
}

impl View for TerminalTheme {
    type V = ThemeView;

    open spec fn view(&self) -> ThemeView {
        ThemeView {
            foreground: self.foreground,
            background: self.background,
            others: named_colors(self.others@),
        }
    }
}

impl Default for TerminalTheme {
    /// No colour.
    fn default() -> (theme: Self)
        ensures
            theme@.unknown(),
    {
        TerminalTheme { foreground: None, background: None, others: Vec::new() }
    }
}

impl Clone for TerminalTheme {
    fn clone(&self) -> (copy: Self)
        ensures
            copy@ == self@,
    {
        let mut others: Vec<(String, RgbColor)> = Vec::new();
        let mut i: usize = 0;
        while i < self.others.len()
            invariant
                i <= self.others@.len(),
                named_colors(others@) == named_colors(self.others@).take(i as int),
            decreases self.others@.len() - i,
        {
            let ghost before = others@;
            others.push((self.others[i].0.clone(), self.others[i].1));
            assert(named_colors(others@) =~= named_colors(before).push(
                (self.others@[i as int].0@, self.others@[i as int].1),
            ));
            assert(named_colors(self.others@).take(i + 1) =~= named_colors(self.others@).take(
                i as int,
            ).push(named_colors(self.others@)[i as int]));
            i += 1;
        }
        assert(named_colors(self.others@).take(i as int) =~= named_colors(self.others@));
        TerminalTheme { foreground: self.foreground, background: self.background, others }
    }
}

impl TerminalTheme {
    /// Whether no colour is known.
    pub fn is_empty(&self) -> (empty: bool)
        ensures
            empty == self@.unknown(),
    {
        self.foreground.is_none() && self.background.is_none() && self.others.len() == 0
    }
}

/// How to resume an agent that ran when the session was saved.
#[derive(Debug, PartialEq, Eq)]
pub struct AgentResumePlan {
    pub agent: String,
    pub argv: Vec<String>,
    pub dedupe_key: String,
}

/// A resume plan by its characters.
pub struct PlanView {
    pub agent: Seq<char>,
    pub argv: Seq<Seq<char>>,
    pub dedupe_key: Seq<char>,
}

impl View for AgentResumePlan {
    type V = PlanView;

    open spec fn view(&self) -> PlanView {
        PlanView {
            agent: self.agent@,
            argv: texts(self.argv@),
            dedupe_key: self.dedupe_key@,
        }
    }
}

impl Clone for AgentResumePlan {
    fn clone(&self) -> (copy: Self)
        ensures
            copy@ == self@,
    {
        let argv = self.argv.clone();
        assert(texts(argv@) =~= texts(self.argv@));
        AgentResumePlan { agent: self.agent.clone(), argv, dedupe_key: self.dedupe_key.clone() }
    }
}

/// What the session knows of a terminal.
#[derive(Debug, PartialEq, Eq)]
pub struct TerminalState {
    pub cwd: PathBuf,
    /// How to resume the agent of the terminal, until that has happened.
    pub pending_agent_resume_plan: Option<AgentResumePlan>,
    pub respawn_shell_on_exit: bool,
}

/// A terminal that runs: what it is called outside, and its size at the start.
#[derive(Clone, Copy, Debug, PartialEq, Eq)]
pub struct TerminalRuntime {
    pub handle: u64,
    pub rows: u16,
    pub cols: u16,
}

/// A pane of a tab.
#[derive(Clone, Copy, Debug, PartialEq, Eq)]
pub struct PaneState {
    pub attached_terminal_id: TerminalId,
}

/// A tab: its panes in the order of its layout.
#[derive(Debug, PartialEq, Eq)]
pub struct Tab {
    pub pane_ids: Vec<PaneId>,
    pub panes: HashMap<PaneId, PaneState>,
}

/// A workspace.
#[derive(Debug, PartialEq, Eq)]
pub struct Workspace {
    pub tabs: Vec<Tab>,
}

/// The session and what new terminals start with.
#[derive(Debug, PartialEq, Eq)]
pub struct AppState {
    pub workspaces: Vec<Workspace>,
    pub terminals: HashMap<TerminalId, TerminalState>,
    pub host_terminal_theme: TerminalTheme,
    /// The name of the appearance that the host terminal prefers.
    pub host_terminal_appearance: Option<String>,
    pub pane_scrollback_limit_bytes: usize,
    pub default_shell: String,
    /// The name of the mode that shells start in.
    pub shell_mode: String,
}

/// The application.
#[derive(Debug, PartialEq, Eq)]
pub struct App {
    pub state: AppState,
    pub terminal_runtimes: HashMap<TerminalId, TerminalRuntime>,
    /// When agents are resumed without waiting for a theme any longer.
    pub pending_agent_resume_deadline: Option<u64>,
    /// How long a resume waits for the theme, in nanoseconds.
    pub theme_wait: u64,
    /// Whether the session is to be saved.
    pub session_save_scheduled: bool,
}

/// A tab by its place in the session.
#[derive(Clone, Copy, Debug, PartialEq, Eq)]
pub struct TabSurfaceTarget {
    pub workspace_index: usize,
    pub tab_index: usize,
}

/// Where a pane is drawn, without its borders and scrollbar.
#[derive(Clone, Copy, Debug, PartialEq, Eq)]
pub struct PaneInfo {
    pub id: PaneId,
    pub inner_rect: Rect,
}

/// A tab that is shown in `area`, and what its layout draws there.
#[derive(Debug, PartialEq, Eq)]
pub struct TabSurface {
    pub target: TabSurfaceTarget,
    pub area: Rect,
    pub pane_infos: Vec<PaneInfo>,
}

impl App {
    /// The tab at `target`, where there is one.
    pub open spec fn tab_at(self, target: TabSurfaceTarget) -> Option<Tab> {
        if target.workspace_index < self.state.workspaces@.len() && target.tab_index
            < self.state.workspaces@[target.workspace_index as int].tabs@.len() {
            Some(
                self.state.workspaces@[target.workspace_index as int].tabs@[target.tab_index as int],
            )
        } else {
            None
        }
    }

    /// The tab at `target`, where there is one.
    pub fn tab(&self, target: TabSurfaceTarget) -> (tab: Option<&Tab>)
        ensures
            match tab {
                Some(tab) => self.tab_at(target) == Some(*tab),
                None => self.tab_at(target) is None,
            },
    {
        if target.workspace_index < self.state.workspaces.len() {
            let workspace = &self.state.workspaces[target.workspace_index];
            if target.tab_index < workspace.tabs.len() {
                return Some(&workspace.tabs[target.tab_index]);
            }
        }
        None
    }

    /// Asks for the session to be saved.
    pub fn schedule_session_save(&mut self)
        ensures
            *final(self) == (App { session_save_scheduled: true, ..*old(self) }),
    {
        self.session_save_scheduled = true;
    }
}

} // verus!
