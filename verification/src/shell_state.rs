//! What the client shell holds, and what it asks to be done.
use crate::endpoint::{ClientEndpointId, EndpointIdView, EndpointSet};
use crate::geometry::Rect;
use crate::text::text_of;
use vstd::prelude::*;

verus! {

/// A pane of an endpoint's session.
#[derive(Debug, PartialEq, Eq)]
pub struct ClientPane {
    pub pane_id: String,
    pub tab_id: String,
    pub workspace_id: String,
}

/// The git worktree that a workspace stands in.
#[derive(Debug, PartialEq, Eq)]
pub struct ClientWorktree {
    pub is_linked_worktree: bool,
}

/// A workspace of an endpoint's session.
#[derive(Debug, PartialEq, Eq)]
pub struct ClientWorkspace {
    pub workspace_id: String,
    pub worktree: Option<ClientWorktree>,
}

/// What a command of the session does.
#[derive(Clone, Copy, Debug, PartialEq, Eq)]
pub enum ClientShellCommandAction {
    /// Runs an action of a plugin.
    PluginAction,
    /// Anything else.
    Other,
}

/// A command that the session offers.
#[derive(Debug, PartialEq, Eq)]
pub struct ClientShellCommand {
    pub command_id: String,
    pub action: ClientShellCommandAction,
    pub binding_labels: Vec<String>,
}

/// A line of the sidebar's workspace list: a position in the snapshot's
/// workspaces.
#[derive(Clone, Copy, Debug, PartialEq, Eq)]
pub struct WorkspaceEntry {
    pub index: usize,
}

/// An endpoint's session as the client last saw it.
#[derive(Debug, PartialEq, Eq)]
pub struct ClientSnapshot {
    pub workspaces: Vec<ClientWorkspace>,
    /// The workspaces as the sidebar lists them when nothing is collapsed.
    pub workspace_entries: Vec<WorkspaceEntry>,
    pub panes: Vec<ClientPane>,
    pub commands: Vec<ClientShellCommand>,
    pub focused_workspace_id: Option<String>,
    pub focused_pane_id: Option<String>,
}

/// Whether the client can reach an endpoint.
#[derive(Clone, Copy, Debug, PartialEq, Eq)]
pub enum ClientEndpointStatus {
    Online,
    Offline,
}

/// An endpoint that the client knows of.
#[derive(Debug, PartialEq, Eq)]
pub struct ClientEndpoint {
    pub endpoint_id: ClientEndpointId,
    pub label: String,
    pub status: ClientEndpointStatus,
    pub snapshot: Option<ClientSnapshot>,
}

/// Where an agent of some endpoint is drawn.
#[derive(Debug, PartialEq, Eq)]
pub struct EndpointAgentHit {
    pub rect: Rect,
    pub endpoint_id: ClientEndpointId,
    pub pane_id: String,
}

/// Where an agent of the active endpoint is drawn.
#[derive(Debug, PartialEq, Eq)]
pub struct AgentHit {
    pub rect: Rect,
    pub pane_id: String,
}

/// Where a workspace is drawn.
#[derive(Debug, PartialEq, Eq)]
pub struct WorkspaceHit {
    pub rect: Rect,
    pub endpoint_id: ClientEndpointId,
    pub workspace_id: String,
}

/// Where a machine's heading is drawn, and on it what collapses the machine.
#[derive(Debug, PartialEq, Eq)]
pub struct MachineHit {
    pub rect: Rect,
    pub collapse_toggle: Rect,
    pub endpoint_id: ClientEndpointId,
}

/// What the sidebar draws where.
#[derive(Debug, PartialEq, Eq)]
pub struct ClientShellHits {
    pub endpoint_agents: Vec<EndpointAgentHit>,
    pub agents: Vec<AgentHit>,
    pub workspaces: Vec<WorkspaceHit>,
    pub machines: Vec<MachineHit>,
}

/// What a click in the sidebar is about.
#[derive(Debug, PartialEq, Eq)]
pub struct ClientSidebarActionTarget {
    pub endpoint_id: ClientEndpointId,
    pub workspace_id: String,
    pub pane_id: Option<String>,
}

/// A sidebar target by its characters.
pub struct SidebarTargetView {
    pub endpoint_id: EndpointIdView,
    pub workspace_id: Seq<char>,
    pub pane_id: Option<Seq<char>>,
}

impl View for ClientSidebarActionTarget {
    type V = SidebarTargetView;

    open spec fn view(&self) -> SidebarTargetView {
        SidebarTargetView {
            endpoint_id: self.endpoint_id@,
            workspace_id: self.workspace_id@,
            pane_id: text_of(self.pane_id),
        }
    }
}

impl Clone for ClientSidebarActionTarget {
    fn clone(&self) -> (copy: Self)
        ensures
            copy == *self,
    {
        ClientSidebarActionTarget {
            endpoint_id: self.endpoint_id.clone(),
            workspace_id: self.workspace_id.clone(),
            pane_id: self.pane_id.clone(),
        }
    }
}

impl ClientSidebarActionTarget {
    /// Whether both are about the same thing.
    pub fn same(&self, other: &ClientSidebarActionTarget) -> (same: bool)
        ensures
            same == (self@ == other@),
    {
        self.endpoint_id.same(&other.endpoint_id) && self.workspace_id == other.workspace_id
            && match (&self.pane_id, &other.pane_id) {
            (Some(a), Some(b)) => *a == *b,
            (None, None) => true,
            _ => false,
        }
    }
}

/// A click on a sidebar target.
#[derive(Debug, PartialEq, Eq)]
pub struct ClientSidebarActionClick {
    pub target: ClientSidebarActionTarget,
    /// When, in nanoseconds of a clock that never goes back.
    pub at: u64,
    /// Whether the clicks that it belongs to have run the open command.
    pub invoked: bool,
}

/// A sidebar click by its characters.
pub struct SidebarClickView {
    pub target: SidebarTargetView,
    pub at: u64,
    pub invoked: bool,
}

impl View for ClientSidebarActionClick {
    type V = SidebarClickView;

    open spec fn view(&self) -> SidebarClickView {
        SidebarClickView { target: self.target@, at: self.at, invoked: self.invoked }
    }
}

/// A press on a workspace in the sidebar.
#[derive(Debug, PartialEq, Eq)]
pub struct ClientWorkspacePress {
    pub endpoint_id: ClientEndpointId,
    pub workspace_id: String,
}

/// What is to be focused on an endpoint.
#[derive(Debug, PartialEq, Eq)]
pub enum ClientEndpointFocusTarget {
    Workspace(String),
    Tab(String),
    Pane(String),
}

/// A focus target by its characters.
pub enum FocusTargetView {
    Workspace(Seq<char>),
    Tab(Seq<char>),
    Pane(Seq<char>),
}

impl View for ClientEndpointFocusTarget {
    type V = FocusTargetView;

    open spec fn view(&self) -> FocusTargetView {
        match self {
            ClientEndpointFocusTarget::Workspace(id) => FocusTargetView::Workspace(id@),
            ClientEndpointFocusTarget::Tab(id) => FocusTargetView::Tab(id@),
            ClientEndpointFocusTarget::Pane(id) => FocusTargetView::Pane(id@),
        }
    }
}

/// The parameters of running a command.
#[derive(Debug, PartialEq, Eq)]
pub struct CommandInvokeParams {
    pub command_id: String,
    pub workspace_id: Option<String>,
    pub tab_id: Option<String>,
    pub pane_id: Option<String>,
    pub selection: Option<String>,
}

/// The parameters of running a command by their characters.
pub struct CommandInvokeView {
    pub command_id: Seq<char>,
    pub workspace_id: Option<Seq<char>>,
    pub tab_id: Option<Seq<char>>,
    pub pane_id: Option<Seq<char>>,
    pub selection: Option<Seq<char>>,
}

impl View for CommandInvokeParams {
    type V = CommandInvokeView;

    open spec fn view(&self) -> CommandInvokeView {
        CommandInvokeView {
            command_id: self.command_id@,
            workspace_id: text_of(self.workspace_id),
            tab_id: text_of(self.tab_id),
            pane_id: text_of(self.pane_id),
            selection: text_of(self.selection),
        }
    }
}

/// A workspace by its id.
#[derive(Debug, PartialEq, Eq)]
pub struct WorkspaceTarget {
    pub workspace_id: String,
}

/// A tab by its id.
#[derive(Debug, PartialEq, Eq)]
pub struct TabTarget {
    pub tab_id: String,
}

/// A pane by its id.
#[derive(Debug, PartialEq, Eq)]
pub struct PaneTarget {
    pub pane_id: String,
}

/// A request to the server of the active endpoint.
#[derive(Debug, PartialEq, Eq)]
pub enum Method {
    CommandInvoke(CommandInvokeParams),
    WorkspaceFocus(WorkspaceTarget),
    TabFocus(TabTarget),
    PaneFocus(PaneTarget),
}

/// A request by its characters.
pub enum MethodView {
    CommandInvoke(CommandInvokeView),
    WorkspaceFocus(Seq<char>),
    TabFocus(Seq<char>),
    PaneFocus(Seq<char>),
}

impl View for Method {
    type V = MethodView;

    open spec fn view(&self) -> MethodView {
        match self {
            Method::CommandInvoke(params) => MethodView::CommandInvoke(params@),
            Method::WorkspaceFocus(target) => MethodView::WorkspaceFocus(target.workspace_id@),
            Method::TabFocus(target) => MethodView::TabFocus(target.tab_id@),
            Method::PaneFocus(target) => MethodView::PaneFocus(target.pane_id@),
        }
    }
}

/// Something for the client's runtime to do.
#[derive(Debug, PartialEq, Eq)]
pub enum ClientShellAction {
    /// Make an endpoint the active one, and focus something there.
    ActivateEndpoint {
        endpoint_id: ClientEndpointId,
        target: Option<ClientEndpointFocusTarget>,
    },
    /// Send a request to the active endpoint.
    EndpointMethod(Method),
}

/// An action by its characters.
pub enum ActionView {
    ActivateEndpoint { endpoint_id: EndpointIdView, target: Option<FocusTargetView> },
    EndpointMethod(MethodView),
}

impl View for ClientShellAction {
    type V = ActionView;

    open spec fn view(&self) -> ActionView {
        match self {
            ClientShellAction::ActivateEndpoint { endpoint_id, target } =>
                ActionView::ActivateEndpoint {
                endpoint_id: endpoint_id@,
                target: match target {
                    Some(target) => Some(target@),
                    None => None,
                },
            },
            ClientShellAction::EndpointMethod(method) => ActionView::EndpointMethod(method@),
        }
    }
}

/// What an input leads to.
#[derive(Debug, PartialEq, Eq)]
pub struct ClientShellInput {
    pub repaint: bool,
    pub actions: Vec<ClientShellAction>,
}

impl ClientShellInput {
    /// Whether `after` is this with `action` behind its actions.
    pub open spec fn gains(self, after: ClientShellInput, action: ActionView) -> bool {
        &&& after.repaint == self.repaint
        &&& after.actions@.len() == self.actions@.len() + 1
        &&& after.actions@.drop_last() == self.actions@
        &&& after.actions@.last()@ == action
    }

    /// This with a repaint.
    pub open spec fn repainted(self) -> ClientShellInput {
        ClientShellInput { repaint: true, ..self }
    }
}

/// What the user configured of the shell.
#[derive(Debug, PartialEq, Eq)]
pub struct ClientShellConfig {
    /// The key binding label of the command that opens a workspace.
    pub workspace_open_command: Option<String>,
}

/// An agent that the user can go to.
#[derive(Debug, PartialEq, Eq)]
pub struct AgentTarget {
    pub endpoint_id: ClientEndpointId,
    pub pane_id: String,
}

/// A key binding, as far as it goes from one workspace or agent to another.
#[derive(Clone, Copy, Debug, PartialEq, Eq)]
pub enum KeybindAction {
    PreviousWorkspace,
    NextWorkspace,
    PreviousAgent,
    NextAgent,
    /// The agent at this position of the list.
    FocusAgent(usize),
    /// Anything else.
    Other,
}

/// The state of the client shell.
#[derive(Debug, PartialEq, Eq)]
pub struct ClientShellState {
    pub config: ClientShellConfig,
    pub hits: ClientShellHits,
    pub endpoints: Vec<ClientEndpoint>,
    pub active_endpoint_id: ClientEndpointId,
    /// The session of the active endpoint.
    pub snapshot: Option<ClientSnapshot>,
    /// Whether the client shows more than the machine that it runs on.
    pub multi_endpoint: bool,
    pub collapsed_endpoints: EndpointSet,
    pub endpoint_error: Option<String>,
    pub last_sidebar_action_click: Option<ClientSidebarActionClick>,
}

impl ClientShellState {
    /// Whether `after` is this with `message` as its error.
    pub open spec fn reports(self, after: ClientShellState, message: Seq<char>) -> bool {
        &&& after == (ClientShellState { endpoint_error: after.endpoint_error, ..self })
        &&& text_of(after.endpoint_error) == Some(message)
    }
}

} // verus!
