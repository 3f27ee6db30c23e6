//! Going from one endpoint, workspace or agent to another.
use crate::endpoint::{ClientEndpointId, EndpointIdView};
use crate::geometry::contains;
use crate::going_laws::{first_machine, no_machine};
use crate::search::{
    find_first, first_index, first_item, lemma_first_passes, lemma_mapped_first_index,
    lemma_none_passes,
};
use crate::shell_state::{
    ActionView, AgentHit, AgentTarget, ClientEndpoint, ClientEndpointFocusTarget,
    ClientEndpointStatus, ClientPane, ClientShellAction, ClientShellCommand,
    ClientShellCommandAction, ClientShellInput, ClientShellState, ClientSidebarActionClick,
    ClientSidebarActionTarget, ClientSnapshot, ClientWorkspace, ClientWorkspacePress,
    CommandInvokeParams, CommandInvokeView, EndpointAgentHit, FocusTargetView, KeybindAction,
    MachineHit, Method, MethodView, PaneTarget, SidebarClickView, SidebarTargetView, TabTarget,
    WorkspaceHit, WorkspaceTarget,
};
use crate::sidebar_laws::{
    click_on_a_workspace, first_endpoint_agent, first_workspace, no_agent, no_endpoint_agent,
    workspace_target_lies_under_the_click,
};
use crate::text::{holds_text, is_text, joined, text_of};
use vstd::arithmetic::div_mod::{
    lemma_mod_add_multiples_vanish, lemma_mod_self_0, lemma_small_mod,
};
use vstd::prelude::*;

verus! {

/// The test for an agent hit of any endpoint under `point`.
pub open spec fn endpoint_agent_at(point: (u16, u16)) -> spec_fn(EndpointAgentHit) -> bool {
    |hit: EndpointAgentHit| hit.rect.covers(point)
}

/// The test for an agent hit of the active endpoint under `point`.
pub open spec fn agent_at(point: (u16, u16)) -> spec_fn(AgentHit) -> bool {
    |hit: AgentHit| hit.rect.covers(point)
}

/// The test for a workspace hit under `point`.
pub open spec fn workspace_at(point: (u16, u16)) -> spec_fn(WorkspaceHit) -> bool {
    |hit: WorkspaceHit| hit.rect.covers(point)
}

/// The test for a machine hit under `point`.
pub open spec fn machine_at(point: (u16, u16)) -> spec_fn(MachineHit) -> bool {
    |hit: MachineHit| hit.rect.covers(point)
}

/// The test for the endpoint `id`.
pub open spec fn is_endpoint(id: EndpointIdView) -> spec_fn(ClientEndpoint) -> bool {
    |endpoint: ClientEndpoint| endpoint.endpoint_id@ == id
}

/// The test for the pane `id`.
pub open spec fn is_pane(id: Seq<char>) -> spec_fn(ClientPane) -> bool {
    |pane: ClientPane| pane.pane_id@ == id
}

/// The test for the pane `id` in the workspace `workspace_id`.
pub open spec fn is_pane_of(id: Seq<char>, workspace_id: Seq<char>) -> spec_fn(ClientPane) -> bool {
    |pane: ClientPane| pane.pane_id@ == id && pane.workspace_id@ == workspace_id
}

/// The test for the workspace `id`.
pub open spec fn is_workspace(id: Seq<char>) -> spec_fn(ClientWorkspace) -> bool {
    |workspace: ClientWorkspace| workspace.workspace_id@ == id
}

/// The pane `id` of a session that may be unknown.
pub open spec fn pane_of(snapshot: Option<ClientSnapshot>, id: Seq<char>) -> Option<ClientPane> {
    match snapshot {
        Some(snapshot) => first_item(snapshot.panes@, is_pane(id)),
        None => None,
    }
}

fn find_pane<'a>(snapshot: &'a Option<ClientSnapshot>, id: &String) -> (pane: Option<&'a ClientPane>)
    ensures
        pane matches Some(pane) ==> pane_of(*snapshot, id@) == Some(*pane),
        pane is None ==> pane_of(*snapshot, id@) is None,
{
    match snapshot {
        Some(snapshot) => {
            let check = |pane: &ClientPane| -> (same: bool)
                ensures
                    same == (pane.pane_id@ == id@),
            {
                pane.pane_id == *id
            };
            let found = find_first(&snapshot.panes, check, Ghost(is_pane(id@)));
            match found {
                Some(i) => Some(&snapshot.panes[i]),
                None => None,
            }
        },
        None => None,
    }
}

impl ClientShellState {
    /// What a click at `point` of the sidebar is about: an agent of any
    /// endpoint before one of the active endpoint before a workspace. An agent
    /// whose pane is not known hides what lies under it.
    pub open spec fn sidebar_target_at(self, point: (u16, u16)) -> Option<SidebarTargetView> {
        match first_item(self.hits.endpoint_agents@, endpoint_agent_at(point)) {
            Some(hit) => match first_item(self.endpoints@, is_endpoint(hit.endpoint_id@)) {
                Some(endpoint) => match pane_of(endpoint.snapshot, hit.pane_id@) {
                    Some(pane) => Some(
                        SidebarTargetView {
                            endpoint_id: hit.endpoint_id@,
                            workspace_id: pane.workspace_id@,
                            pane_id: Some(hit.pane_id@),
                        },
                    ),
                    None => None,
                },
                None => None,
            },
            None => match first_item(self.hits.agents@, agent_at(point)) {
                Some(hit) => match pane_of(self.snapshot, hit.pane_id@) {
                    Some(pane) => Some(
                        SidebarTargetView {
                            endpoint_id: self.active_endpoint_id@,
                            workspace_id: pane.workspace_id@,
                            pane_id: Some(hit.pane_id@),
                        },
                    ),
                    None => None,
                },
                None => match first_item(self.hits.workspaces@, workspace_at(point)) {
                    Some(hit) => Some(
                        SidebarTargetView {
                            endpoint_id: hit.endpoint_id@,
                            workspace_id: hit.workspace_id@,
                            pane_id: None,
                        },
                    ),
                    None => None,
                },
            },
        }
    }

    fn find_endpoint(&self, id: &ClientEndpointId) -> (endpoint: Option<&ClientEndpoint>)
        ensures
            endpoint matches Some(endpoint) ==> first_item(self.endpoints@, is_endpoint(id@))
                == Some(*endpoint),
            endpoint is None ==> first_item(self.endpoints@, is_endpoint(id@)) is None,
    {
        let check = |endpoint: &ClientEndpoint| -> (same: bool)
            ensures
                same == (endpoint.endpoint_id@ == id@),
        {
            endpoint.endpoint_id.same(id)
        };
        let found = find_first(&self.endpoints, check, Ghost(is_endpoint(id@)));
        match found {
            Some(i) => Some(&self.endpoints[i]),
            None => None,
        }
    }

    /// What a click at `point` of the sidebar is about.
    pub fn sidebar_action_target_at(&self, point: (u16, u16)) -> (target: Option<
        ClientSidebarActionTarget,
    >)
        ensures
            match target {
                Some(target) => self.sidebar_target_at(point) == Some(target@),
                None => self.sidebar_target_at(point) is None,
            },
            forall|at: int| #[trigger]
                first_workspace(*self, point, at) && no_endpoint_agent(*self, point) && no_agent(
                    *self,
                    point,
                ) ==> {
                    &&& target matches Some(target)
                    &&& target.endpoint_id@ == self.hits.workspaces@[at].endpoint_id@
                    &&& target.workspace_id@ == self.hits.workspaces@[at].workspace_id@
                    &&& target.pane_id is None
                },
            target matches Some(target) ==> target.pane_id is None ==> no_endpoint_agent(
                *self,
                point,
            ) && no_agent(*self, point) && exists|at: int| #[trigger]
                first_workspace(*self, point, at) && target.endpoint_id@
                    == self.hits.workspaces@[at].endpoint_id@ && target.workspace_id@
                    == self.hits.workspaces@[at].workspace_id@,
    {
        proof {
            assert forall|at: int| #[trigger]
                first_workspace(*self, point, at) && no_endpoint_agent(*self, point) && no_agent(
                    *self,
                    point,
                ) implies self.sidebar_target_at(point) == Some(
                SidebarTargetView {
                    endpoint_id: self.hits.workspaces@[at].endpoint_id@,
                    workspace_id: self.hits.workspaces@[at].workspace_id@,
                    pane_id: None,
                },
            ) by {
                click_on_a_workspace(*self, point, at);
            }
            if self.sidebar_target_at(point) is Some && self.sidebar_target_at(point)->0.pane_id
                is None {
                workspace_target_lies_under_the_click(*self, point);
            }
        }
        let check = |hit: &EndpointAgentHit| -> (inside: bool)
            ensures
                inside == hit.rect.covers(point),
        {
            contains(hit.rect, point)
        };
        let endpoint_agent = find_first(&self.hits.endpoint_agents, check, Ghost(endpoint_agent_at(point)));
        if let Some(i) = endpoint_agent {
            let hit = &self.hits.endpoint_agents[i];
            let endpoint = match self.find_endpoint(&hit.endpoint_id) {
                Some(endpoint) => endpoint,
                None => return None,
            };
            return match find_pane(&endpoint.snapshot, &hit.pane_id) {
                Some(pane) => Some(
                    ClientSidebarActionTarget {
                        endpoint_id: hit.endpoint_id.clone(),
                        workspace_id: pane.workspace_id.clone(),
                        pane_id: Some(hit.pane_id.clone()),
                    },
                ),
                None => None,
            };
        }
        let check = |hit: &AgentHit| -> (inside: bool)
            ensures
                inside == hit.rect.covers(point),
        {
            contains(hit.rect, point)
        };
        let agent = find_first(&self.hits.agents, check, Ghost(agent_at(point)));
        if let Some(i) = agent {
            let hit = &self.hits.agents[i];
            return match find_pane(&self.snapshot, &hit.pane_id) {
                Some(pane) => Some(
                    ClientSidebarActionTarget {
                        endpoint_id: self.active_endpoint_id.clone(),
                        workspace_id: pane.workspace_id.clone(),
                        pane_id: Some(hit.pane_id.clone()),
                    },
                ),
                None => None,
            };
        }
        let check = |hit: &WorkspaceHit| -> (inside: bool)
            ensures
                inside == hit.rect.covers(point),
        {
            contains(hit.rect, point)
        };
        let workspace = find_first(&self.hits.workspaces, check, Ghost(workspace_at(point)));
        match workspace {
            Some(i) => {
                let hit = &self.hits.workspaces[i];
                Some(
                    ClientSidebarActionTarget {
                        endpoint_id: hit.endpoint_id.clone(),
                        workspace_id: hit.workspace_id.clone(),
                        pane_id: None,
                    },
                )
            },
            None => None,
        }
    }
}

/// The request that focuses `target` on the active endpoint.
pub open spec fn focus_method(target: FocusTargetView) -> MethodView {
    match target {
        FocusTargetView::Workspace(id) => MethodView::WorkspaceFocus(id),
        FocusTargetView::Tab(id) => MethodView::TabFocus(id),
        FocusTargetView::Pane(id) => MethodView::PaneFocus(id),
    }
}

impl ClientShellState {
    /// Whether the endpoint `id` is known to be online.
    pub open spec fn online(self, id: EndpointIdView) -> bool {
        exists|i: int|
            0 <= i < self.endpoints@.len() && (#[trigger] self.endpoints@[i]).endpoint_id@ == id
                && self.endpoints@[i].status is Online
    }

    /// Whether the endpoint `id` can be gone to: the machine that the client
    /// runs on always, another one while it is online.
    pub open spec fn reachable(self, id: EndpointIdView) -> bool {
        id is Local || self.online(id)
    }

    /// Whether the endpoint `id` has to be gone to through the client's runtime,
    /// although it is the active one. The local machine can still be displayed
    /// while the activation of another one is pending, and an explicit selection
    /// is to cancel that.
    pub open spec fn handed_over(self, id: EndpointIdView) -> bool {
        id is Local && (self.multi_endpoint || !self.online(id))
    }

    /// What the endpoint `id` is called.
    pub open spec fn label_of(self, id: EndpointIdView) -> Seq<char> {
        match first_item(self.endpoints@, is_endpoint(id)) {
            Some(endpoint) => endpoint.label@,
            None => match id {
                EndpointIdView::Local => "local"@,
                EndpointIdView::Remote(name) => name,
            },
        }
    }

    /// Whether all that happens is that the user is told that the endpoint
    /// `id` is not ready.
    pub open spec fn refuses(
        self,
        after: ClientShellState,
        input: ClientShellInput,
        input_after: ClientShellInput,
        id: EndpointIdView,
    ) -> bool {
        &&& self.reports(after, self.label_of(id) + " is not ready"@)
        &&& input_after == input.repainted()
    }

    /// Whether all that happens is what activating the endpoint `id` leads to.
    pub open spec fn activates(
        self,
        after: ClientShellState,
        input: ClientShellInput,
        input_after: ClientShellInput,
        id: EndpointIdView,
    ) -> bool {
        if !self.reachable(id) {
            self.refuses(after, input, input_after, id)
        } else if self.handed_over(id) || id != self.active_endpoint_id@ {
            &&& after == self
            &&& input.gains(
                input_after,
                ActionView::ActivateEndpoint { endpoint_id: id, target: None },
            )
        } else {
            after == self && input_after == input
        }
    }

    /// Whether all that happens is what going to `target` of the endpoint `id`
    /// leads to.
    pub open spec fn goes_to(
        self,
        after: ClientShellState,
        input: ClientShellInput,
        input_after: ClientShellInput,
        id: EndpointIdView,
        target: FocusTargetView,
    ) -> bool {
        if !self.reachable(id) {
            self.refuses(after, input, input_after, id)
        } else {
            &&& after == self
            &&& input.gains(
                input_after,
                if id == self.active_endpoint_id@ && !self.handed_over(id) {
                    ActionView::EndpointMethod(focus_method(target))
                } else {
                    ActionView::ActivateEndpoint { endpoint_id: id, target: Some(target) }
                },
            )
        }
    }

    /// Whether the client shows more than the machine that it runs on.
    pub fn multi_endpoint_active(&self) -> (multi: bool)
        ensures
            multi == self.multi_endpoint,
    {
        self.multi_endpoint
    }

    /// Whether the endpoint `id` is known to be online.
    pub fn endpoint_is_online(&self, id: &ClientEndpointId) -> (online: bool)
        ensures
            online == self.online(id@),
    {
        let mut i: usize = 0;
        while i < self.endpoints.len()
            invariant
                i <= self.endpoints@.len(),
                forall|j: int|
                    0 <= j < i ==> !((#[trigger] self.endpoints@[j]).endpoint_id@ == id@
                        && self.endpoints@[j].status is Online),
            decreases self.endpoints@.len() - i,
        {
            let endpoint = &self.endpoints[i];
            if matches!(endpoint.status, ClientEndpointStatus::Online) && endpoint.endpoint_id.same(
                id,
            ) {
                return true;
            }
            i += 1;
        }
        false
    }

    /// What the endpoint `id` is called.
    pub fn endpoint_label(&self, id: &ClientEndpointId) -> (label: String)
        ensures
            label@ == self.label_of(id@),
    {
        match self.find_endpoint(id) {
            Some(endpoint) => endpoint.label.clone(),
            None => match id {
                ClientEndpointId::Local => "local".to_owned(),
                ClientEndpointId::Remote(name) => name.clone(),
            },
        }
    }

    /// Shows `message` as the error of an endpoint.
    pub fn receive_endpoint_unavailable(&mut self, message: String)
        ensures
            old(self).reports(*final(self), message@),
    {
        self.endpoint_error = Some(message);
    }

    /// Asks for `method` to be sent to the active endpoint.
    pub fn push_endpoint_method(&self, method: Method, outcome: &mut ClientShellInput)
        ensures
            old(outcome).gains(*final(outcome), ActionView::EndpointMethod(method@)),
    {
        outcome.actions.push(ClientShellAction::EndpointMethod(method));
        assert(outcome.actions@.drop_last() =~= old(outcome).actions@);
    }

    fn push_activation(
        &self,
        endpoint_id: ClientEndpointId,
        target: Option<ClientEndpointFocusTarget>,
        outcome: &mut ClientShellInput,
    )
        ensures
            old(outcome).gains(
                *final(outcome),
                ActionView::ActivateEndpoint {
                    endpoint_id: endpoint_id@,
                    target: match target {
                        Some(target) => Some(target@),
                        None => None,
                    },
                },
            ),
    {
        outcome.actions.push(ClientShellAction::ActivateEndpoint { endpoint_id, target });
        assert(outcome.actions@.drop_last() =~= old(outcome).actions@);
    }

    fn refuse_endpoint(&mut self, id: &ClientEndpointId, outcome: &mut ClientShellInput)
        ensures
            old(self).refuses(*final(self), *old(outcome), *final(outcome), id@),
    {
        let label = self.endpoint_label(id);
        self.receive_endpoint_unavailable(joined(label.as_str(), " is not ready"));
        outcome.repaint = true;
    }

    /// Makes `endpoint_id` the active endpoint, unless it is out of reach.
    pub fn activate_endpoint(
        &mut self,
        endpoint_id: ClientEndpointId,
        outcome: &mut ClientShellInput,
    ) -> (reached: bool)
        ensures
            reached == old(self).reachable(endpoint_id@),
            old(self).activates(*final(self), *old(outcome), *final(outcome), endpoint_id@),
    {
        let online: bool = self.endpoint_is_online(&endpoint_id);
        if !online && !endpoint_id.is_local() {
            self.refuse_endpoint(&endpoint_id, outcome);
            return false;
        }
        if (endpoint_id.is_local() && (self.multi_endpoint_active() || !online))
            || !endpoint_id.same(&self.active_endpoint_id) {
            self.push_activation(endpoint_id, None, outcome);
        }
        true
    }

    /// Focuses `target` on `endpoint_id`, after making that the active endpoint
    /// where it is not, unless it is out of reach.
    pub fn focus_or_activate(
        &mut self,
        endpoint_id: ClientEndpointId,
        target: ClientEndpointFocusTarget,
        outcome: &mut ClientShellInput,
    ) -> (reached: bool)
        ensures
            reached == old(self).reachable(endpoint_id@),
            old(self).goes_to(*final(self), *old(outcome), *final(outcome), endpoint_id@, target@),
    {
        let online: bool = self.endpoint_is_online(&endpoint_id);
        if !online && !endpoint_id.is_local() {
            self.refuse_endpoint(&endpoint_id, outcome);
            return false;
        }
        if endpoint_id.same(&self.active_endpoint_id) && !(endpoint_id.is_local() && (
        self.multi_endpoint_active() || !online)) {
            let method = match target {
                ClientEndpointFocusTarget::Workspace(workspace_id) => Method::WorkspaceFocus(
                    WorkspaceTarget { workspace_id },
                ),
                ClientEndpointFocusTarget::Tab(tab_id) => Method::TabFocus(TabTarget { tab_id }),
                ClientEndpointFocusTarget::Pane(pane_id) => Method::PaneFocus(
                    PaneTarget { pane_id },
                ),
            };
            self.push_endpoint_method(method, outcome);
        } else {
            self.push_activation(endpoint_id, Some(target), outcome);
        }
        true
    }

    /// Whether a pressed workspace can be dragged: one of the active endpoint
    /// that is no linked worktree.
    pub open spec fn draggable(self, press: ClientWorkspacePress) -> bool {
        &&& press.endpoint_id@ == self.active_endpoint_id@
        &&& self.snapshot matches Some(snapshot)
        &&& first_item(snapshot.workspaces@, is_workspace(press.workspace_id@)) matches Some(
            workspace,
        )
        &&& !(workspace.worktree matches Some(worktree) && worktree.is_linked_worktree)
    }

    /// Whether the pressed workspace can be dragged.
    pub fn endpoint_workspace_is_draggable(&self, press: &ClientWorkspacePress) -> (draggable: bool)
        ensures
            draggable == self.draggable(*press),
    {
        if !press.endpoint_id.same(&self.active_endpoint_id) {
            return false;
        }
        let snapshot = match &self.snapshot {
            Some(snapshot) => snapshot,
            None => return false,
        };
        match find_workspace(snapshot, &press.workspace_id) {
            Some(workspace) => match &workspace.worktree {
                Some(worktree) => !worktree.is_linked_worktree,
                None => true,
            },
            None => false,
        }
    }

    /// Ends a press on a workspace that was not dragged: goes to it.
    pub fn finish_endpoint_workspace_press(
        &mut self,
        press: ClientWorkspacePress,
        outcome: &mut ClientShellInput,
    )
        ensures
            old(self).goes_to(
                *final(self),
                *old(outcome),
                *final(outcome),
                press.endpoint_id@,
                FocusTargetView::Workspace(press.workspace_id@),
            ),
    {
        self.focus_or_activate(
            press.endpoint_id,
            ClientEndpointFocusTarget::Workspace(press.workspace_id),
            outcome,
        );
    }

    /// A click on an agent of any endpoint: goes to its pane. Tells whether
    /// there is an agent at `point`.
    pub fn handle_endpoint_agent_click(
        &mut self,
        point: (u16, u16),
        outcome: &mut ClientShellInput,
    ) -> (handled: bool)
        ensures
            match first_item(old(self).hits.endpoint_agents@, endpoint_agent_at(point)) {
                Some(hit) => handled && old(self).goes_to(
                    *final(self),
                    *old(outcome),
                    *final(outcome),
                    hit.endpoint_id@,
                    FocusTargetView::Pane(hit.pane_id@),
                ),
                None => !handled && *final(self) == *old(self) && *final(outcome) == *old(outcome),
            },
            forall|at: int| #[trigger]
                first_endpoint_agent(*old(self), point, at) ==> handled && old(self).goes_to(
                    *final(self),
                    *old(outcome),
                    *final(outcome),
                    old(self).hits.endpoint_agents@[at].endpoint_id@,
                    FocusTargetView::Pane(old(self).hits.endpoint_agents@[at].pane_id@),
                ),
            no_endpoint_agent(*old(self), point) ==> !handled && *final(self) == *old(self)
                && *final(outcome) == *old(outcome),
    {
        proof {
            let hits = self.hits.endpoint_agents@;
            assert forall|at: int| #[trigger] first_endpoint_agent(*self, point, at) implies first_item(
                hits,
                endpoint_agent_at(point),
            ) == Some(hits[at]) by {
                lemma_first_passes(hits, endpoint_agent_at(point), at);
            }
            if no_endpoint_agent(*self, point) {
                lemma_none_passes(hits, endpoint_agent_at(point));
            }
        }
        let check = |hit: &EndpointAgentHit| -> (inside: bool)
            ensures
                inside == hit.rect.covers(point),
        {
            contains(hit.rect, point)
        };
        let found = find_first(
            &self.hits.endpoint_agents,
            check,
            Ghost(endpoint_agent_at(point)),
        );
        match found {
            Some(i) => {
                let endpoint_id = self.hits.endpoint_agents[i].endpoint_id.clone();
                let pane_id = self.hits.endpoint_agents[i].pane_id.clone();
                self.focus_or_activate(
                    endpoint_id,
                    ClientEndpointFocusTarget::Pane(pane_id),
                    outcome,
                );
                true
            },
            None => false,
        }
    }
}

fn find_workspace<'a>(snapshot: &'a ClientSnapshot, id: &String) -> (workspace: Option<
    &'a ClientWorkspace,
>)
    ensures
        workspace matches Some(workspace) ==> first_item(snapshot.workspaces@, is_workspace(id@))
            == Some(*workspace),
        workspace is None ==> first_item(snapshot.workspaces@, is_workspace(id@)) is None,
{
    let check = |workspace: &ClientWorkspace| -> (same: bool)
        ensures
            same == (workspace.workspace_id@ == id@),
    {
        workspace.workspace_id == *id
    };
    let found = find_first(&snapshot.workspaces, check, Ghost(is_workspace(id@)));
    match found {
        Some(i) => Some(&snapshot.workspaces[i]),
        None => None,
    }
}

/// `ids` with `id` the other way round: out where it was in, in where it was out.
pub open spec fn toggled(ids: Set<EndpointIdView>, id: EndpointIdView) -> Set<EndpointIdView> {
    if ids.contains(id) {
        ids.remove(id)
    } else {
        ids.insert(id)
    }
}

impl ClientShellState {
    /// Whether all that happens is what a click on the machine `hit` leads to,
    /// on its collapse toggle or beside it.
    pub open spec fn clicks_machine(
        self,
        after: ClientShellState,
        input: ClientShellInput,
        input_after: ClientShellInput,
        hit: MachineHit,
        on_toggle: bool,
    ) -> bool {
        let id = hit.endpoint_id@;
        if on_toggle || id == self.active_endpoint_id@ {
            &&& after == (ClientShellState {
                collapsed_endpoints: after.collapsed_endpoints,
                ..self
            })
            &&& after.collapsed_endpoints@ == toggled(self.collapsed_endpoints@, id)
            &&& if !on_toggle && self.handed_over(id) {
                input.repainted().gains(
                    input_after,
                    ActionView::ActivateEndpoint { endpoint_id: id, target: None },
                )
            } else {
                input_after == input.repainted()
            }
        } else if self.reachable(id) {
            &&& after == self
            &&& input.gains(
                input_after,
                ActionView::ActivateEndpoint { endpoint_id: id, target: None },
            )
        } else {
            self.refuses(after, input, input_after, id)
        }
    }

    /// A click on a machine's heading: collapses or opens the machine, or
    /// activates it. Tells whether there is a machine at `point`.
    pub fn handle_endpoint_machine_click(
        &mut self,
        point: (u16, u16),
        outcome: &mut ClientShellInput,
    ) -> (handled: bool)
        ensures
            match first_item(old(self).hits.machines@, machine_at(point)) {
                Some(hit) => handled && old(self).clicks_machine(
                    *final(self),
                    *old(outcome),
                    *final(outcome),
                    hit,
                    hit.collapse_toggle.covers(point),
                ),
                None => !handled && *final(self) == *old(self) && *final(outcome) == *old(outcome),
            },
            forall|at: int| #[trigger]
                first_machine(*old(self), point, at) ==> handled && old(self).clicks_machine(
                    *final(self),
                    *old(outcome),
                    *final(outcome),
                    old(self).hits.machines@[at],
                    old(self).hits.machines@[at].collapse_toggle.covers(point),
                ),
            no_machine(*old(self), point) ==> !handled && *final(self) == *old(self)
                && *final(outcome) == *old(outcome),
    {
        proof {
            let hits = self.hits.machines@;
            assert forall|at: int| #[trigger] first_machine(*self, point, at) implies first_item(
                hits,
                machine_at(point),
            ) == Some(hits[at]) by {
                lemma_first_passes(hits, machine_at(point), at);
            }
            if no_machine(*self, point) {
                lemma_none_passes(hits, machine_at(point));
            }
        }
        let check = |hit: &MachineHit| -> (inside: bool)
            ensures
                inside == hit.rect.covers(point),
        {
            contains(hit.rect, point)
        };
        let found = find_first(&self.hits.machines, check, Ghost(machine_at(point)));
        let i = match found {
            Some(i) => i,
            None => return false,
        };
        let endpoint_id = self.hits.machines[i].endpoint_id.clone();
        let collapse_toggle: bool = contains(self.hits.machines[i].collapse_toggle, point);
        if collapse_toggle || endpoint_id.same(&self.active_endpoint_id) {
            if !self.collapsed_endpoints.remove(&endpoint_id) {
                assert(old(self).collapsed_endpoints@.remove(endpoint_id@)
                    =~= old(self).collapsed_endpoints@);
                self.collapsed_endpoints.insert(endpoint_id.clone());
            }
            outcome.repaint = true;
            if !collapse_toggle && endpoint_id.is_local() {
                self.activate_endpoint(endpoint_id, outcome);
            }
        } else if endpoint_id.is_local() || self.endpoint_is_online(&endpoint_id) {
            self.push_activation(endpoint_id, None, outcome);
        } else {
            self.refuse_endpoint(&endpoint_id, outcome);
        }
        true
    }
}

/// The test for a plugin command that is bound under `label`.
pub open spec fn opens_with(label: Seq<char>) -> spec_fn(ClientShellCommand) -> bool {
    |command: ClientShellCommand|
        command.action is PluginAction && exists|i: int|
            0 <= i < command.binding_labels@.len() && (
            #[trigger] command.binding_labels@[i])@ == label
}

fn has_label(command: &ClientShellCommand, label: &String) -> (bound: bool)
    ensures
        bound == exists|i: int|
            0 <= i < command.binding_labels@.len() && (
            #[trigger] command.binding_labels@[i])@ == label@,
{
    let mut i: usize = 0;
    while i < command.binding_labels.len()
        invariant
            i <= command.binding_labels@.len(),
            forall|j: int|
                0 <= j < i ==> (#[trigger] command.binding_labels@[j])@ != label@,
        decreases command.binding_labels@.len() - i,
    {
        if command.binding_labels[i] == *label {
            return true;
        }
        i += 1;
    }
    false
}

/// The only plugin command that is bound under `label`.
fn only_command<'a>(commands: &'a Vec<ClientShellCommand>, label: &String) -> (command: Option<
    &'a ClientShellCommand,
>)
    ensures
        match command {
            Some(command) => commands@.filter(opens_with(label@)) == seq![*command],
            None => commands@.filter(opens_with(label@)).len() != 1,
        },
{
    let mut only: Option<usize> = None;
    let mut several: bool = false;
    let mut i: usize = 0;
    proof {
        reveal(Seq::filter);
    }
    while i < commands.len()
        invariant
            i <= commands@.len(),
            ({
                let matching = commands@.take(i as int).filter(opens_with(label@));
                if several {
                    matching.len() >= 2
                } else {
                    match only {
                        Some(at) => at < i && matching == seq![commands@[at as int]],
                        None => matching.len() == 0,
                    }
                }
            }),
        decreases commands@.len() - i,
    {
        let command = &commands[i];
        proof {
            reveal(Seq::filter);
            assert(commands@.take(i + 1).drop_last() =~= commands@.take(i as int));
        }
        if matches!(command.action, ClientShellCommandAction::PluginAction) && has_label(
            command,
            label,
        ) {
            if only.is_some() {
                several = true;
            } else {
                only = Some(i);
            }
        }
        i += 1;
    }
    assert(commands@.take(commands@.len() as int) =~= commands@);
    if several {
        return None;
    }
    match only {
        Some(at) => Some(&commands[at]),
        None => None,
    }
}

/// What opening a sidebar target comes to.
pub enum SidebarRequest {
    /// Nothing that can be opened.
    Nothing,
    /// No command, or more than one, is bound under the configured label.
    NotUnique(Seq<char>),
    /// The command to run.
    Run(CommandInvokeView),
}

impl ClientShellState {
    /// What opening `target` comes to: the configured command on the target's
    /// workspace and pane, where the active endpoint has these.
    pub open spec fn sidebar_request(self, target: SidebarTargetView) -> SidebarRequest {
        if target.endpoint_id != self.active_endpoint_id@ {
            SidebarRequest::Nothing
        } else {
            match (self.config.workspace_open_command, self.snapshot) {
                (Some(label), Some(snapshot)) => {
                    let pane = match target.pane_id {
                        Some(id) => first_item(
                            snapshot.panes@,
                            is_pane_of(id, target.workspace_id),
                        ),
                        None => None,
                    };
                    let matching = snapshot.commands@.filter(opens_with(label@));
                    if first_item(snapshot.workspaces@, is_workspace(target.workspace_id)) is None {
                        SidebarRequest::Nothing
                    } else if target.pane_id is Some && pane is None {
                        SidebarRequest::Nothing
                    } else if matching.len() != 1 {
                        SidebarRequest::NotUnique(label@)
                    } else {
                        SidebarRequest::Run(
                            CommandInvokeView {
                                command_id: matching[0].command_id@,
                                workspace_id: Some(target.workspace_id),
                                tab_id: match pane {
                                    Some(pane) => Some(pane.tab_id@),
                                    None => None,
                                },
                                pane_id: target.pane_id,
                                selection: None,
                            },
                        )
                    }
                },
                _ => SidebarRequest::Nothing,
            }
        }
    }

    /// Whether all that happens is what opening `target` leads to.
    pub open spec fn opens(
        self,
        after: ClientShellState,
        input: ClientShellInput,
        input_after: ClientShellInput,
        target: SidebarTargetView,
    ) -> bool {
        match self.sidebar_request(target) {
            SidebarRequest::Nothing => after == self && input_after == input,
            SidebarRequest::NotUnique(label) => {
                &&& self.reports(
                    after,
                    "sidebar open command "@ + label
                        + " is not uniquely available; reload configuration"@,
                )
                &&& input_after == input.repainted()
            },
            SidebarRequest::Run(params) => {
                &&& after == self
                &&& input.gains(
                    input_after,
                    ActionView::EndpointMethod(MethodView::CommandInvoke(params)),
                )
            },
        }
    }

    /// Runs the configured open command on `target`; tells whether it does.
    pub fn invoke_sidebar_workspace_action(
        &mut self,
        target: ClientSidebarActionTarget,
        outcome: &mut ClientShellInput,
    ) -> (invoked: bool)
        ensures
            invoked == (old(self).sidebar_request(target@) is Run),
            old(self).opens(*final(self), *old(outcome), *final(outcome), target@),
    {
        if !target.endpoint_id.same(&self.active_endpoint_id) {
            return false;
        }
        let label = match &self.config.workspace_open_command {
            Some(label) => label.clone(),
            None => return false,
        };
        let snapshot = match &self.snapshot {
            Some(snapshot) => snapshot,
            None => return false,
        };
        let workspace = match find_workspace(snapshot, &target.workspace_id) {
            Some(workspace) => workspace,
            None => return false,
        };
        proof {
            crate::search::lemma_first_index(
                snapshot.workspaces@,
                is_workspace(target.workspace_id@),
            );
        }
        let tab_id = match &target.pane_id {
            Some(pane_id) => {
                let workspace_id = &workspace.workspace_id;
                let check = |pane: &ClientPane| -> (same: bool)
                    ensures
                        same == (pane.pane_id@ == pane_id@ && pane.workspace_id@ == workspace_id@),
                {
                    pane.pane_id == *pane_id && pane.workspace_id == *workspace_id
                };
                let found = find_first(
                    &snapshot.panes,
                    check,
                    Ghost(is_pane_of(pane_id@, target.workspace_id@)),
                );
                match found {
                    Some(i) => Some(snapshot.panes[i].tab_id.clone()),
                    None => return false,
                }
            },
            None => None,
        };
        match only_command(&snapshot.commands, &label) {
            Some(command) => {
                let params = CommandInvokeParams {
                    command_id: command.command_id.clone(),
                    workspace_id: Some(workspace.workspace_id.clone()),
                    tab_id,
                    pane_id: target.pane_id,
                    selection: None,
                };
                self.push_endpoint_method(Method::CommandInvoke(params), outcome);
                true
            },
            None => {
                let mut message = joined("sidebar open command ", label.as_str());
                message.append(" is not uniquely available; reload configuration");
                self.endpoint_error = Some(message);
                outcome.repaint = true;
                false
            },
        }
    }
}

/// How long after a click another one belongs to it, in nanoseconds.
pub const DOUBLE_CLICK: u64 = 350_000_000;

/// Whether a click on `target` at `now` belongs to the click `last`. A clock
/// that reads less than before counts as standing still.
pub open spec fn same_burst(
    last: Option<SidebarClickView>,
    target: SidebarTargetView,
    now: u64,
) -> bool {
    last matches Some(previous) && previous.target == target && now - previous.at <= DOUBLE_CLICK
}

/// Whether a click on `target` at `now` opens it: the second of a burst does,
/// unless an earlier one did.
pub open spec fn click_opens(
    last: Option<SidebarClickView>,
    target: SidebarTargetView,
    now: u64,
) -> bool {
    same_burst(last, target, now) && !last->0.invoked
}

/// A click on `target` at `now` behind the click `last`.
pub open spec fn next_click(
    last: Option<SidebarClickView>,
    target: SidebarTargetView,
    now: u64,
) -> SidebarClickView {
    SidebarClickView { target, at: now, invoked: same_burst(last, target, now) }
}

/// A click that may not have been.
pub open spec fn click_of(click: Option<ClientSidebarActionClick>) -> Option<SidebarClickView> {
    match click {
        Some(click) => Some(click@),
        None => None,
    }
}

impl ClientShellState {
    /// Whether clicks on targets of the endpoint `id` count: on the active
    /// endpoint, while there is a command that opens.
    pub open spec fn counts_clicks(self, id: EndpointIdView) -> bool {
        self.config.workspace_open_command is Some && id == self.active_endpoint_id@
    }

    /// Takes note of a click on `target` at `now`, and opens the target on a
    /// double click.
    pub fn record_sidebar_action_click(
        &mut self,
        target: ClientSidebarActionTarget,
        now: u64,
        outcome: &mut ClientShellInput,
    )
        ensures
            ({
                let last = click_of(old(self).last_sidebar_action_click);
                let rest = ClientShellState {
                    last_sidebar_action_click: old(self).last_sidebar_action_click,
                    ..*final(self)
                };
                if old(self).counts_clicks(target.endpoint_id@) {
                    &&& click_of(final(self).last_sidebar_action_click) == Some(
                        next_click(last, target@, now),
                    )
                    &&& if click_opens(last, target@, now) {
                        old(self).opens(rest, *old(outcome), *final(outcome), target@)
                    } else {
                        rest == *old(self) && *final(outcome) == *old(outcome)
                    }
                } else {
                    &&& final(self).last_sidebar_action_click is None
                    &&& rest == *old(self)
                    &&& *final(outcome) == *old(outcome)
                }
            }),
    {
        if self.config.workspace_open_command.is_none() || !target.endpoint_id.same(
            &self.active_endpoint_id,
        ) {
            self.last_sidebar_action_click = None;
            return;
        }
        let mut same_burst: bool = false;
        let mut already_invoked: bool = false;
        if let Some(previous) = &self.last_sidebar_action_click {
            same_burst = previous.target.same(&target) && now.saturating_sub(previous.at)
                <= DOUBLE_CLICK;
            already_invoked = same_burst && previous.invoked;
        }
        let invoke: bool = same_burst && !already_invoked;
        if invoke {
            self.invoke_sidebar_workspace_action(target.clone(), outcome);
        }
        self.last_sidebar_action_click = Some(
            ClientSidebarActionClick { target, at: now, invoked: invoke || already_invoked },
        );
    }
}

/// Something to go to: a workspace or a pane of an endpoint.
pub struct Stop {
    pub endpoint_id: EndpointIdView,
    pub id: Seq<char>,
}

/// The workspaces of `snapshot` as its sidebar entries list them.
pub open spec fn listed_workspaces(
    snapshot: ClientSnapshot,
    endpoint_id: EndpointIdView,
    count: nat,
) -> Seq<Stop>
    decreases count,
{
    if count == 0 {
        Seq::empty()
    } else {
        let before = listed_workspaces(snapshot, endpoint_id, (count - 1) as nat);
        let index = snapshot.workspace_entries@[count - 1].index;
        if index < snapshot.workspaces@.len() {
            before.push(Stop { endpoint_id, id: snapshot.workspaces@[index as int].workspace_id@ })
        } else {
            before
        }
    }
}

/// The workspaces that an endpoint adds to the list: all it lists while it is
/// online.
pub open spec fn endpoint_workspaces(endpoint: ClientEndpoint) -> Seq<Stop> {
    match endpoint.snapshot {
        Some(snapshot) if endpoint.status is Online => listed_workspaces(
            snapshot,
            endpoint.endpoint_id@,
            snapshot.workspace_entries@.len(),
        ),
        _ => Seq::empty(),
    }
}

/// The workspaces of `endpoints`, one endpoint behind the other.
pub open spec fn all_workspaces(endpoints: Seq<ClientEndpoint>) -> Seq<Stop>
    decreases endpoints.len(),
{
    if endpoints.len() == 0 {
        Seq::empty()
    } else {
        all_workspaces(endpoints.drop_last()) + endpoint_workspaces(endpoints.last())
    }
}

/// The agents of a list, as stops.
pub open spec fn agent_stops(agents: Seq<AgentTarget>) -> Seq<Stop> {
    agents.map_values(
        |agent: AgentTarget| Stop { endpoint_id: agent.endpoint_id@, id: agent.pane_id@ },
    )
}

/// The test for the stop where the user is.
pub open spec fn is_stop(endpoint_id: EndpointIdView, id: Option<Seq<char>>) -> spec_fn(
    Stop,
) -> bool {
    |stop: Stop| stop.endpoint_id == endpoint_id && Some(stop.id) == id
}

/// Where one step through a circle of `count` stops leads. Without a place to
/// start from it leads to the first stop, or back to the last one.
pub open spec fn stepped(current: Option<int>, count: int, forward: bool) -> int {
    match current {
        Some(at) => if forward {
            (at + 1) % count
        } else {
            (at + count - 1) % count
        },
        None => if forward {
            0
        } else {
            count - 1
        },
    }
}

/// What a key binding comes to.
pub enum Navigation {
    /// It is none that goes from one endpoint's workspaces or agents to another's.
    Unhandled,
    /// There is nowhere to go.
    Stay,
    /// To a workspace of an endpoint.
    Workspace(Stop),
    /// To the pane of an agent of an endpoint.
    Agent(Stop),
}

impl ClientShellState {
    /// The focused workspace of the active endpoint.
    pub open spec fn focused_workspace(self) -> Option<Seq<char>> {
        match self.snapshot {
            Some(snapshot) => text_of(snapshot.focused_workspace_id),
            None => None,
        }
    }

    /// The focused pane of the active endpoint.
    pub open spec fn focused_pane(self) -> Option<Seq<char>> {
        match self.snapshot {
            Some(snapshot) => text_of(snapshot.focused_pane_id),
            None => None,
        }
    }

    /// The workspace that a step from the focused one leads to.
    pub open spec fn workspace_step(self, forward: bool) -> Navigation {
        let stops = all_workspaces(self.endpoints@);
        if stops.len() == 0 {
            Navigation::Stay
        } else {
            let here = first_index(
                stops,
                is_stop(self.active_endpoint_id@, self.focused_workspace()),
            );
            Navigation::Workspace(stops[stepped(here, stops.len() as int, forward)])
        }
    }

    /// The agent that a step from the focused one leads to.
    pub open spec fn agent_step(self, agents: Seq<Stop>, forward: bool) -> Navigation {
        if agents.len() == 0 {
            Navigation::Stay
        } else {
            let here = first_index(agents, is_stop(self.active_endpoint_id@, self.focused_pane()));
            Navigation::Agent(agents[stepped(here, agents.len() as int, forward)])
        }
    }

    /// What `action` comes to, with `agents` as the agents that can be gone to.
    pub open spec fn navigation(self, action: KeybindAction, agents: Seq<Stop>) -> Navigation {
        if !self.multi_endpoint {
            Navigation::Unhandled
        } else {
            match action {
                KeybindAction::PreviousWorkspace => self.workspace_step(false),
                KeybindAction::NextWorkspace => self.workspace_step(true),
                KeybindAction::PreviousAgent => self.agent_step(agents, false),
                KeybindAction::NextAgent => self.agent_step(agents, true),
                KeybindAction::FocusAgent(index) => if index < agents.len() {
                    Navigation::Agent(agents[index as int])
                } else {
                    Navigation::Stay
                },
                KeybindAction::Other => Navigation::Unhandled,
            }
        }
    }

    /// Whether all that happens is what `navigation` leads to.
    pub open spec fn navigates(
        self,
        after: ClientShellState,
        input: ClientShellInput,
        input_after: ClientShellInput,
        navigation: Navigation,
    ) -> bool {
        match navigation {
            Navigation::Unhandled | Navigation::Stay => after == self && input_after == input,
            Navigation::Workspace(stop) => self.goes_to(
                after,
                input,
                input_after,
                stop.endpoint_id,
                FocusTargetView::Workspace(stop.id),
            ),
            Navigation::Agent(stop) => self.goes_to(
                after,
                input,
                input_after,
                stop.endpoint_id,
                FocusTargetView::Pane(stop.id),
            ),
        }
    }

    /// The workspaces of the endpoints that are online.
    fn online_workspaces(&self) -> (workspaces: Vec<WorkspaceStop>)
        ensures
            workspace_stops(workspaces@) == all_workspaces(self.endpoints@),
    {
        let mut workspaces: Vec<WorkspaceStop> = Vec::new();
        let mut i: usize = 0;
        assert(workspace_stops(workspaces@) =~= all_workspaces(self.endpoints@.take(0)));
        while i < self.endpoints.len()
            invariant
                i <= self.endpoints@.len(),
                workspace_stops(workspaces@) == all_workspaces(self.endpoints@.take(i as int)),
            decreases self.endpoints@.len() - i,
        {
            let endpoint = &self.endpoints[i];
            let ghost before = workspace_stops(workspaces@);
            proof {
                let read = self.endpoints@.take(i + 1);
                assert(read.drop_last() =~= self.endpoints@.take(i as int));
                assert(all_workspaces(read) == before + endpoint_workspaces(*endpoint));
            }
            if matches!(endpoint.status, ClientEndpointStatus::Online) {
                if let Some(snapshot) = &endpoint.snapshot {
                    let mut k: usize = 0;
                    assert(before + listed_workspaces(*snapshot, endpoint.endpoint_id@, 0)
                        =~= before);
                    while k < snapshot.workspace_entries.len()
                        invariant
                            k <= snapshot.workspace_entries@.len(),
                            workspace_stops(workspaces@) == before + listed_workspaces(
                                *snapshot,
                                endpoint.endpoint_id@,
                                k as nat,
                            ),
                        decreases snapshot.workspace_entries@.len() - k,
                    {
                        let index = snapshot.workspace_entries[k].index;
                        if index < snapshot.workspaces.len() {
                            let ghost had = workspaces@;
                            workspaces.push(
                                WorkspaceStop {
                                    endpoint_id: endpoint.endpoint_id.clone(),
                                    workspace_id: snapshot.workspaces[index].workspace_id.clone(),
                                },
                            );
                            proof {
                                let listed = listed_workspaces(
                                    *snapshot,
                                    endpoint.endpoint_id@,
                                    k as nat,
                                );
                                assert(workspace_stops(workspaces@) =~= workspace_stops(had).push(
                                    workspaces@.last()@,
                                ));
                                assert((before + listed).push(workspaces@.last()@) =~= before
                                    + listed.push(workspaces@.last()@));
                            }
                        }
                        k += 1;
                    }
                }
            }
            assert(endpoint_workspaces(*endpoint).len() == 0 ==> before + endpoint_workspaces(
                *endpoint,
            ) =~= before);
            i += 1;
        }
        assert(self.endpoints@.take(self.endpoints@.len() as int) =~= self.endpoints@);
        workspaces
    }

    /// A key binding that goes to the previous or next workspace or agent, or
    /// to one of the agents, among those of all endpoints. Tells whether the
    /// binding is one of these, while there are endpoints to go between.
    pub fn handle_endpoint_navigation(
        &mut self,
        action: KeybindAction,
        agents: &Vec<AgentTarget>,
        outcome: &mut ClientShellInput,
    ) -> (handled: bool)
        ensures
            ({
                let navigation = old(self).navigation(action, agent_stops(agents@));
                &&& handled == (navigation !is Unhandled)
                &&& old(self).navigates(*final(self), *old(outcome), *final(outcome), navigation)
            }),
    {
        if !self.multi_endpoint_active() {
            return false;
        }
        match action {
            KeybindAction::PreviousWorkspace => {
                self.step_workspace(false, outcome);
                true
            },
            KeybindAction::NextWorkspace => {
                self.step_workspace(true, outcome);
                true
            },
            KeybindAction::PreviousAgent => {
                self.step_agent(agents, false, outcome);
                true
            },
            KeybindAction::NextAgent => {
                self.step_agent(agents, true, outcome);
                true
            },
            KeybindAction::FocusAgent(index) => {
                if index < agents.len() {
                    self.focus_or_activate(
                        agents[index].endpoint_id.clone(),
                        ClientEndpointFocusTarget::Pane(agents[index].pane_id.clone()),
                        outcome,
                    );
                }
                true
            },
            KeybindAction::Other => false,
        }
    }

    fn step_workspace(&mut self, forward: bool, outcome: &mut ClientShellInput)
        ensures
            old(self).navigates(
                *final(self),
                *old(outcome),
                *final(outcome),
                old(self).workspace_step(forward),
            ),
    {
        let workspaces = self.online_workspaces();
        if workspaces.len() == 0 {
            return;
        }
        let focused = match &self.snapshot {
            Some(snapshot) => snapshot.focused_workspace_id.clone(),
            None => None,
        };
        let active = self.active_endpoint_id.clone();
        let check = |stop: &WorkspaceStop| -> (here: bool)
            ensures
                here == (stop.endpoint_id@ == active@ && holds_text(&focused, stop.workspace_id@)),
        {
            stop.endpoint_id.same(&active) && is_text(&focused, &stop.workspace_id)
        };
        let ghost test = |stop: WorkspaceStop|
            stop.endpoint_id@ == active@ && holds_text(&focused, stop.workspace_id@);
        let current = find_first(&workspaces, check, Ghost(test));
        proof {
            lemma_mapped_first_index(
                workspaces@,
                test,
                |stop: WorkspaceStop| stop@,
                is_stop(active@, text_of(focused)),
            );
        }
        let next = step_index(current, workspaces.len(), forward);
        assert(workspace_stops(workspaces@)[next as int] == workspaces@[next as int]@);
        self.focus_or_activate(
            workspaces[next].endpoint_id.clone(),
            ClientEndpointFocusTarget::Workspace(workspaces[next].workspace_id.clone()),
            outcome,
        );
    }

    fn step_agent(&mut self, agents: &Vec<AgentTarget>, forward: bool, outcome: &mut ClientShellInput)
        ensures
            old(self).navigates(
                *final(self),
                *old(outcome),
                *final(outcome),
                old(self).agent_step(agent_stops(agents@), forward),
            ),
    {
        if agents.len() == 0 {
            return;
        }
        let focused = match &self.snapshot {
            Some(snapshot) => snapshot.focused_pane_id.clone(),
            None => None,
        };
        let active = self.active_endpoint_id.clone();
        let check = |agent: &AgentTarget| -> (here: bool)
            ensures
                here == (agent.endpoint_id@ == active@ && holds_text(&focused, agent.pane_id@)),
        {
            agent.endpoint_id.same(&active) && is_text(&focused, &agent.pane_id)
        };
        let ghost test = |agent: AgentTarget|
            agent.endpoint_id@ == active@ && holds_text(&focused, agent.pane_id@);
        let current = find_first(agents, check, Ghost(test));
        proof {
            lemma_mapped_first_index(
                agents@,
                test,
                |agent: AgentTarget| Stop { endpoint_id: agent.endpoint_id@, id: agent.pane_id@ },
                is_stop(active@, text_of(focused)),
            );
        }
        let next = step_index(current, agents.len(), forward);
        assert(agent_stops(agents@)[next as int].id == agents@[next as int].pane_id@);
        self.focus_or_activate(
            agents[next].endpoint_id.clone(),
            ClientEndpointFocusTarget::Pane(agents[next].pane_id.clone()),
            outcome,
        );
    }
}

/// A workspace to go to.
struct WorkspaceStop {
    endpoint_id: ClientEndpointId,
    workspace_id: String,
}

impl View for WorkspaceStop {
    type V = Stop;

    closed spec fn view(&self) -> Stop {
        Stop { endpoint_id: self.endpoint_id@, id: self.workspace_id@ }
    }
}

spec fn workspace_stops(workspaces: Seq<WorkspaceStop>) -> Seq<Stop> {
    workspaces.map_values(|stop: WorkspaceStop| stop@)
}

/// One step through a circle of `count` places.
fn step_index(current: Option<usize>, count: usize, forward: bool) -> (next: usize)
    requires
        count > 0,
        current matches Some(at) ==> at < count,
    ensures
        next < count,
        next as int == stepped(
            match current {
                Some(at) => Some(at as int),
                None => None,
            },
            count as int,
            forward,
        ),
{
    proof {
        if let Some(at) = current {
            lemma_step_forward(at as int, count as int);
            lemma_step_back(at as int, count as int);
        }
    }
    match current {
        Some(at) => if forward {
            if at + 1 < count {
                at + 1
            } else {
                0
            }
        } else if at > 0 {
            at - 1
        } else {
            count - 1
        },
        None => if forward {
            0
        } else {
            count - 1
        },
    }
}

proof fn lemma_step_forward(at: int, count: int)
    requires
        0 <= at < count,
    ensures
        stepped(Some(at), count, true) == if at + 1 < count { at + 1 } else { 0 },
{
    if at + 1 < count {
        lemma_small_mod((at + 1) as nat, count as nat);
    } else {
        lemma_mod_self_0(count);
    }
}

proof fn lemma_step_back(at: int, count: int)
    requires
        0 <= at < count,
    ensures
        stepped(Some(at), count, false) == if at > 0 { at - 1 } else { count - 1 },
{
    if at > 0 {
        lemma_mod_add_multiples_vanish(at - 1, count);
        lemma_small_mod((at - 1) as nat, count as nat);
    } else {
        lemma_small_mod((count - 1) as nat, count as nat);
    }
}

} // verus!
