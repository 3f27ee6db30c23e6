//! What clicks in the sidebar are about and come to, told by what lies under them.
use crate::endpoint_navigation::{
    agent_at, click_of, click_opens, endpoint_agent_at, is_endpoint, is_pane, is_pane_of,
    is_workspace, next_click, opens_with, workspace_at, SidebarRequest,
};
use crate::going_laws::has_one_more;
use crate::search::{
    first_index, first_item, lemma_first_index, lemma_first_passes, lemma_none_passes,
};
use crate::shell_state::{
    ClientShellAction, ClientShellCommand, ClientShellInput, ClientShellState,
    ClientSidebarActionClick, ClientSidebarActionTarget, Method, SidebarClickView,
    SidebarTargetView,
};
use vstd::prelude::*;

verus! {

/// Whether the agent of any machine at `at` is the first under `point`.
pub open spec fn first_endpoint_agent(state: ClientShellState, point: (u16, u16), at: int) -> bool {
    let hits = state.hits.endpoint_agents@;
    &&& 0 <= at < hits.len()
    &&& hits[at].rect.covers(point)
    &&& forall|i: int| 0 <= i < at ==> !(#[trigger] hits[i]).rect.covers(point)
}

/// Whether the agent of the active machine at `at` is the first under `point`.
pub open spec fn first_agent(state: ClientShellState, point: (u16, u16), at: int) -> bool {
    let hits = state.hits.agents@;
    &&& 0 <= at < hits.len()
    &&& hits[at].rect.covers(point)
    &&& forall|i: int| 0 <= i < at ==> !(#[trigger] hits[i]).rect.covers(point)
}

/// Whether the workspace at `at` is the first under `point`.
pub open spec fn first_workspace(state: ClientShellState, point: (u16, u16), at: int) -> bool {
    let hits = state.hits.workspaces@;
    &&& 0 <= at < hits.len()
    &&& hits[at].rect.covers(point)
    &&& forall|i: int| 0 <= i < at ==> !(#[trigger] hits[i]).rect.covers(point)
}

/// Whether no agent of any machine lies under `point`.
pub open spec fn no_endpoint_agent(state: ClientShellState, point: (u16, u16)) -> bool {
    forall|i: int|
        0 <= i < state.hits.endpoint_agents@.len() ==> !(
        #[trigger] state.hits.endpoint_agents@[i]).rect.covers(point)
}

/// Whether no agent of the active machine lies under `point`.
pub open spec fn no_agent(state: ClientShellState, point: (u16, u16)) -> bool {
    forall|i: int|
        0 <= i < state.hits.agents@.len() ==> !(#[trigger] state.hits.agents@[i]).rect.covers(point)
}

/// A click on a workspace, with no agent over it, is about the first workspace
/// that lies under it; without one it is about nothing.
pub proof fn click_on_a_workspace(state: ClientShellState, point: (u16, u16), at: int)
    requires
        no_endpoint_agent(state, point),
        no_agent(state, point),
    ensures
        first_workspace(state, point, at) ==> {
            &&& state.sidebar_target_at(point) matches Some(target)
            &&& target.endpoint_id == state.hits.workspaces@[at].endpoint_id@
            &&& target.workspace_id == state.hits.workspaces@[at].workspace_id@
            &&& target.pane_id is None
        },
        (forall|i: int|
            0 <= i < state.hits.workspaces@.len() ==> !(
            #[trigger] state.hits.workspaces@[i]).rect.covers(point)) ==> state.sidebar_target_at(
            point,
        ) is None,
{
    lemma_none_passes(state.hits.endpoint_agents@, endpoint_agent_at(point));
    lemma_none_passes(state.hits.agents@, agent_at(point));
    let hits = state.hits.workspaces@;
    if first_workspace(state, point, at) {
        lemma_first_passes(hits, workspace_at(point), at);
    }
    if forall|i: int| 0 <= i < hits.len() ==> !(#[trigger] hits[i]).rect.covers(point) {
        lemma_none_passes(hits, workspace_at(point));
    }
}

/// A click that is about a workspace and no pane has no agent over it, and is
/// about the first workspace under it.
pub proof fn workspace_target_lies_under_the_click(state: ClientShellState, point: (u16, u16))
    requires
        state.sidebar_target_at(point) is Some,
        state.sidebar_target_at(point)->0.pane_id is None,
    ensures
        no_endpoint_agent(state, point),
        no_agent(state, point),
        exists|at: int| #[trigger]
            first_workspace(state, point, at) && state.sidebar_target_at(point)->0
                == (SidebarTargetView {
                endpoint_id: state.hits.workspaces@[at].endpoint_id@,
                workspace_id: state.hits.workspaces@[at].workspace_id@,
                pane_id: None,
            }),
{
    lemma_first_index(state.hits.endpoint_agents@, endpoint_agent_at(point));
    lemma_first_index(state.hits.agents@, agent_at(point));
    lemma_first_index(state.hits.workspaces@, workspace_at(point));
    assert forall|i: int| 0 <= i < state.hits.endpoint_agents@.len() implies !(
    #[trigger] state.hits.endpoint_agents@[i]).rect.covers(point) by {
        assert(!endpoint_agent_at(point)(state.hits.endpoint_agents@[i]));
    }
    assert forall|i: int| 0 <= i < state.hits.agents@.len() implies !(
    #[trigger] state.hits.agents@[i]).rect.covers(point) by {
        assert(!agent_at(point)(state.hits.agents@[i]));
    }
    let at = first_index(state.hits.workspaces@, workspace_at(point))->0;
    assert(workspace_at(point)(state.hits.workspaces@[at]));
    assert forall|i: int| 0 <= i < at implies !(
    #[trigger] state.hits.workspaces@[i]).rect.covers(point) by {
        assert(!workspace_at(point)(state.hits.workspaces@[i]));
    }
    assert(first_workspace(state, point, at));
}

/// A click on an agent of the active machine, with no agent of any machine over
/// it, is about the first such agent: its pane, and the workspace of the first
/// pane of that id in the session. Where there is no such pane it is about
/// nothing, whatever lies under the agent.
pub proof fn click_on_an_agent(state: ClientShellState, point: (u16, u16), at: int, pane: int)
    requires
        no_endpoint_agent(state, point),
        first_agent(state, point, at),
    ensures
        ({
            let id = state.hits.agents@[at].pane_id@;
            match state.snapshot {
                Some(snapshot) => {
                    let panes = snapshot.panes@;
                    &&& 0 <= pane < panes.len() && panes[pane].pane_id@ == id && (forall|i: int|
                        0 <= i < pane ==> (#[trigger] panes[i]).pane_id@ != id)
                        ==> state.sidebar_target_at(point) == Some(
                        SidebarTargetView {
                            endpoint_id: state.active_endpoint_id@,
                            workspace_id: panes[pane].workspace_id@,
                            pane_id: Some(id),
                        },
                    )
                    &&& (forall|i: int|
                        0 <= i < panes.len() ==> (#[trigger] panes[i]).pane_id@ != id)
                        ==> state.sidebar_target_at(point) is None
                },
                None => state.sidebar_target_at(point) is None,
            }
        }),
{
    lemma_none_passes(state.hits.endpoint_agents@, endpoint_agent_at(point));
    lemma_first_passes(state.hits.agents@, agent_at(point), at);
    let id = state.hits.agents@[at].pane_id@;
    if let Some(snapshot) = state.snapshot {
        let panes = snapshot.panes@;
        if 0 <= pane < panes.len() && panes[pane].pane_id@ == id && (forall|i: int|
            0 <= i < pane ==> (#[trigger] panes[i]).pane_id@ != id) {
            lemma_first_passes(panes, is_pane(id), pane);
        }
        if forall|i: int| 0 <= i < panes.len() ==> (#[trigger] panes[i]).pane_id@ != id {
            lemma_none_passes(panes, is_pane(id));
        }
    }
}

/// A click on an agent of any machine is about the first such agent under it: its
/// pane on its machine, and the workspace of the first pane of that id in the
/// session of the first machine of that id. Where there is none it is about
/// nothing, whatever lies under the agent.
pub proof fn click_on_an_agent_of_any_machine(
    state: ClientShellState,
    point: (u16, u16),
    at: int,
    machine: int,
    pane: int,
)
    requires
        first_endpoint_agent(state, point, at),
    ensures
        ({
            let hit = state.hits.endpoint_agents@[at];
            let id = hit.pane_id@;
            let machines = state.endpoints@;
            &&& (forall|i: int|
                0 <= i < machines.len() ==> (#[trigger] machines[i]).endpoint_id@
                    != hit.endpoint_id@) ==> state.sidebar_target_at(point) is None
            &&& 0 <= machine < machines.len() && machines[machine].endpoint_id@ == hit.endpoint_id@
                && (forall|i: int|
                0 <= i < machine ==> (#[trigger] machines[i]).endpoint_id@ != hit.endpoint_id@)
                ==> match machines[machine].snapshot {
                Some(snapshot) => {
                    let panes = snapshot.panes@;
                    &&& 0 <= pane < panes.len() && panes[pane].pane_id@ == id && (forall|i: int|
                        0 <= i < pane ==> (#[trigger] panes[i]).pane_id@ != id)
                        ==> state.sidebar_target_at(point) == Some(
                        SidebarTargetView {
                            endpoint_id: hit.endpoint_id@,
                            workspace_id: panes[pane].workspace_id@,
                            pane_id: Some(id),
                        },
                    )
                    &&& (forall|i: int|
                        0 <= i < panes.len() ==> (#[trigger] panes[i]).pane_id@ != id)
                        ==> state.sidebar_target_at(point) is None
                },
                None => state.sidebar_target_at(point) is None,
            }
        }),
{
    lemma_first_passes(state.hits.endpoint_agents@, endpoint_agent_at(point), at);
    let hit = state.hits.endpoint_agents@[at];
    let id = hit.pane_id@;
    let machines = state.endpoints@;
    if forall|i: int|
        0 <= i < machines.len() ==> (#[trigger] machines[i]).endpoint_id@ != hit.endpoint_id@ {
        lemma_none_passes(machines, is_endpoint(hit.endpoint_id@));
    }
    if 0 <= machine < machines.len() && machines[machine].endpoint_id@ == hit.endpoint_id@ && (
    forall|i: int|
        0 <= i < machine ==> (#[trigger] machines[i]).endpoint_id@ != hit.endpoint_id@) {
        lemma_first_passes(machines, is_endpoint(hit.endpoint_id@), machine);
        if let Some(snapshot) = machines[machine].snapshot {
            let panes = snapshot.panes@;
            if 0 <= pane < panes.len() && panes[pane].pane_id@ == id && (forall|i: int|
                0 <= i < pane ==> (#[trigger] panes[i]).pane_id@ != id) {
                lemma_first_passes(panes, is_pane(id), pane);
            }
            if forall|i: int| 0 <= i < panes.len() ==> (#[trigger] panes[i]).pane_id@ != id {
                lemma_none_passes(panes, is_pane(id));
            }
        }
    }
}

/// Whether `command` is a plugin command that has `label` among its bindings.
pub open spec fn is_bound(command: ClientShellCommand, label: Seq<char>) -> bool {
    &&& command.action is PluginAction
    &&& exists|i: int|
        0 <= i < command.binding_labels@.len() && (#[trigger] command.binding_labels@[i])@ == label
}

/// Whether the command at `at` is bound under `label`, and no other is.
pub open spec fn alone_bound(
    commands: Seq<ClientShellCommand>,
    label: Seq<char>,
    at: int,
) -> bool {
    &&& 0 <= at < commands.len()
    &&& is_bound(commands[at], label)
    &&& forall|i: int| 0 <= i < commands.len() && i != at ==> !is_bound(#[trigger] commands[i], label)
}

proof fn lemma_bound(commands: Seq<ClientShellCommand>, label: Seq<char>)
    ensures
        ({
            let bound = commands.filter(opens_with(label));
            &&& bound.len() == 0 <==> forall|i: int|
                0 <= i < commands.len() ==> !is_bound(#[trigger] commands[i], label)
            &&& bound.len() == 1 <==> exists|at: int| #[trigger] alone_bound(commands, label, at)
            &&& forall|at: int| #[trigger]
                alone_bound(commands, label, at) ==> bound == seq![commands[at]]
        }),
    decreases commands.len(),
{
    reveal(Seq::filter);
    let bound = commands.filter(opens_with(label));
    if commands.len() > 0 {
        let front = commands.drop_last();
        let last = commands.len() - 1;
        lemma_bound(front, label);
        let before = front.filter(opens_with(label));
        assert(opens_with(label)(commands.last()) == is_bound(commands[last], label));
        assert(forall|i: int| 0 <= i < front.len() ==> #[trigger] front[i] == commands[i]);
        assert(forall|i: int| 0 <= i < front.len() ==> front[i] == #[trigger] commands[i]);
        if is_bound(commands[last], label) {
            if before.len() == 0 {
                assert(alone_bound(commands, label, last));
                assert(bound =~= seq![commands[last]]);
            }
            assert forall|at: int| #[trigger] alone_bound(commands, label, at) implies bound
                == seq![commands[at]] by {
                assert(at == last);
                assert forall|i: int| 0 <= i < front.len() implies !is_bound(
                    #[trigger] front[i],
                    label,
                ) by {
                    assert(!is_bound(commands[i], label));
                }
            }
        } else {
            assert forall|at: int| #[trigger] alone_bound(commands, label, at) implies alone_bound(
                front,
                label,
                at,
            ) by {}
            assert forall|at: int| #[trigger] alone_bound(front, label, at) implies alone_bound(
                commands,
                label,
                at,
            ) by {
                assert forall|i: int| 0 <= i < commands.len() && i != at implies !is_bound(
                    #[trigger] commands[i],
                    label,
                ) by {
                    if i < last {
                        assert(!is_bound(front[i], label));
                    }
                }
            }
            assert(bound == before);
        }
    }
}

/// Whether opening `target` is open to question at all: it is on the active
/// machine, there is an open command, and the session is known and has the
/// target's workspace, and its pane in that workspace where it has one.
pub open spec fn can_be_opened(state: ClientShellState, target: SidebarTargetView) -> bool {
    &&& target.endpoint_id == state.active_endpoint_id@
    &&& state.config.workspace_open_command is Some
    &&& state.snapshot matches Some(snapshot)
    &&& exists|i: int|
        0 <= i < snapshot.workspaces@.len() && (#[trigger] snapshot.workspaces@[i]).workspace_id@
            == target.workspace_id
    &&& target.pane_id matches Some(id) ==> exists|i: int|
        0 <= i < snapshot.panes@.len() && (#[trigger] snapshot.panes@[i]).pane_id@ == id
            && snapshot.panes@[i].workspace_id@ == target.workspace_id
}

/// Opening a target asks for nothing exactly where it cannot be opened. Else it
/// runs the one plugin command that is bound under the configured label, and
/// complains of the label where there is none or more than one.
pub proof fn opening_runs_the_only_command(
    state: ClientShellState,
    target: SidebarTargetView,
    at: int,
)
    ensures
        state.sidebar_request(target) is Nothing <==> !can_be_opened(state, target),
        can_be_opened(state, target) ==> {
            let label = state.config.workspace_open_command->0@;
            let commands = state.snapshot->0.commands@;
            &&& state.sidebar_request(target) is Run <==> exists|k: int| #[trigger]
                alone_bound(commands, label, k)
            &&& state.sidebar_request(target) matches SidebarRequest::NotUnique(named) ==> named
                == label
            &&& alone_bound(commands, label, at) ==> {
                &&& state.sidebar_request(target) matches SidebarRequest::Run(params)
                &&& params.command_id == commands[at].command_id@
                &&& params.workspace_id == Some(target.workspace_id)
                &&& params.pane_id == target.pane_id
                &&& params.selection is None
                &&& target.pane_id is None ==> params.tab_id is None
            }
        },
{
    if let (Some(label), Some(snapshot)) = (state.config.workspace_open_command, state.snapshot) {
        lemma_bound(snapshot.commands@, label@);
        lemma_first_index(snapshot.workspaces@, is_workspace(target.workspace_id));
        let here = is_workspace(target.workspace_id);
        assert(first_item(snapshot.workspaces@, here) is Some <==> exists|i: int|
            0 <= i < snapshot.workspaces@.len() && (
            #[trigger] snapshot.workspaces@[i]).workspace_id@ == target.workspace_id) by {
            if first_item(snapshot.workspaces@, here) is Some {
                let i = first_index(snapshot.workspaces@, here)->0;
                assert(here(snapshot.workspaces@[i]));
            } else {
                assert forall|i: int| 0 <= i < snapshot.workspaces@.len() implies (
                #[trigger] snapshot.workspaces@[i]).workspace_id@ != target.workspace_id by {
                    assert(!here(snapshot.workspaces@[i]));
                }
            }
        }
        if let Some(id) = target.pane_id {
            let test = is_pane_of(id, target.workspace_id);
            lemma_first_index(snapshot.panes@, test);
            if first_item(snapshot.panes@, test) is Some {
                let i = first_index(snapshot.panes@, test)->0;
                assert(test(snapshot.panes@[i]));
            } else {
                assert forall|i: int| 0 <= i < snapshot.panes@.len() implies !((
                #[trigger] snapshot.panes@[i]).pane_id@ == id && snapshot.panes@[i].workspace_id@
                    == target.workspace_id) by {
                    assert(!test(snapshot.panes@[i]));
                }
            }
        }
    }
}

/// A command that is run on a pane names the tab of the first pane of that id in
/// the target's workspace.
pub proof fn opening_a_pane_names_its_tab(
    state: ClientShellState,
    target: SidebarTargetView,
    pane: int,
)
    requires
        state.sidebar_request(target) is Run,
        target.pane_id is Some,
        ({
            let panes = state.snapshot->0.panes@;
            &&& 0 <= pane < panes.len()
            &&& panes[pane].pane_id@ == target.pane_id->0
            &&& panes[pane].workspace_id@ == target.workspace_id
            &&& forall|i: int|
                0 <= i < pane ==> !((#[trigger] panes[i]).pane_id@ == target.pane_id->0
                    && panes[i].workspace_id@ == target.workspace_id)
        }),
    ensures
        state.sidebar_request(target)->Run_0.tab_id == Some(
            state.snapshot->0.panes@[pane].tab_id@,
        ),
{
    lemma_first_passes(
        state.snapshot->0.panes@,
        is_pane_of(target.pane_id->0, target.workspace_id),
        pane,
    );
}

/// Opening leaves the state as it is and adds the one command, or complains with
/// a message that names the label and has all drawn again, or does nothing.
pub proof fn opening_adds_one_command_or_complains(
    before: ClientShellState,
    after: ClientShellState,
    input: ClientShellInput,
    input_after: ClientShellInput,
    target: SidebarTargetView,
)
    requires
        before.opens(after, input, input_after, target),
    ensures
        match before.sidebar_request(target) {
            SidebarRequest::Nothing => after == before && input_after == input,
            SidebarRequest::NotUnique(label) => {
                &&& after == (ClientShellState { endpoint_error: after.endpoint_error, ..before })
                &&& after.endpoint_error matches Some(message)
                &&& message@ == "sidebar open command "@ + label
                    + " is not uniquely available; reload configuration"@
                &&& input_after.repaint
                &&& input_after.actions == input.actions
            },
            SidebarRequest::Run(view) => {
                &&& after == before
                &&& has_one_more(input, input_after)
                &&& input_after.actions@.last() matches ClientShellAction::EndpointMethod(
                    Method::CommandInvoke(params),
                )
                &&& params.command_id@ == view.command_id
                &&& match (params.workspace_id, view.workspace_id) {
                    (Some(id), Some(text)) => id@ == text,
                    (None, None) => true,
                    _ => false,
                }
                &&& match (params.tab_id, view.tab_id) {
                    (Some(id), Some(text)) => id@ == text,
                    (None, None) => true,
                    _ => false,
                }
                &&& match (params.pane_id, view.pane_id) {
                    (Some(id), Some(text)) => id@ == text,
                    (None, None) => true,
                    _ => false,
                }
                &&& params.selection is None <==> view.selection is None
            },
        },
{
    if before.sidebar_request(target) is Run {
        assert forall|i: int| 0 <= i < input.actions@.len() implies input_after.actions@[i]
            == #[trigger] input.actions@[i] by {
            assert(input_after.actions@.drop_last()[i] == input_after.actions@[i]);
        }
    }
}

/// A target is told by its machine, its workspace and its pane.
pub proof fn targets_are_told_by_their_parts(
    a: ClientSidebarActionTarget,
    b: ClientSidebarActionTarget,
)
    ensures
        a@.endpoint_id == a.endpoint_id@,
        a@.workspace_id == a.workspace_id@,
        a@.pane_id == match a.pane_id {
            Some(id) => Some(id@),
            None => None,
        },
        a@ == b@ <==> {
            &&& a.endpoint_id@ == b.endpoint_id@
            &&& a.workspace_id@ == b.workspace_id@
            &&& match (a.pane_id, b.pane_id) {
                (Some(x), Some(y)) => x@ == y@,
                (None, None) => true,
                _ => false,
            }
        },
{
}

/// A click is told by its target, its time, and whether it was in a burst.
pub proof fn clicks_are_told_by_their_parts(click: ClientSidebarActionClick)
    ensures
        click_of(None) is None,
        click_of(Some(click)) matches Some(view) && view.target == click.target@ && view.at
            == click.at && view.invoked == click.invoked,
{
}

/// A click opens its target exactly where the click before it was on the same
/// target, at most 350 milliseconds earlier by the clock or later, and was not
/// itself in a burst that had opened it. It is remembered with its target and
/// time, and as one of a burst where it was soon enough.
pub proof fn second_click_of_a_burst_opens(
    last: Option<ClientSidebarActionClick>,
    target: SidebarTargetView,
    now: u64,
)
    ensures
        ({
            let soon = last matches Some(click) && click.target@ == target && (now <= click.at
                || now - click.at <= 350_000_000);
            &&& click_opens(click_of(last), target, now) <==> soon && !last->0.invoked
            &&& next_click(click_of(last), target, now) == (SidebarClickView {
                target,
                at: now,
                invoked: soon,
            })
        }),
{
}

/// Clicks count on the active machine, while there is a command that opens.
pub proof fn clicks_count_on_the_active_machine(
    state: ClientShellState,
    target: ClientSidebarActionTarget,
)
    ensures
        state.counts_clicks(target.endpoint_id@) <==> state.config.workspace_open_command is Some
            && target.endpoint_id@ == state.active_endpoint_id@,
{
}

} // verus!
