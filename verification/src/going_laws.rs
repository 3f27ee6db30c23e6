//! What going to a machine comes to, told by the state and the actions it leaves.
use crate::endpoint::{ClientEndpointId, EndpointIdView};
use crate::endpoint_navigation::{is_endpoint, is_workspace, toggled};
use crate::search::{lemma_first_passes, lemma_none_passes};
use crate::shell_state::{
    ClientEndpointFocusTarget, ClientShellAction, ClientShellInput, ClientShellState,
    ClientWorkspacePress, FocusTargetView, MachineHit, Method,
};
use vstd::prelude::*;

verus! {

/// Whether `id` is the machine that `view` tells.
pub open spec fn names(id: ClientEndpointId, view: EndpointIdView) -> bool {
    match (id, view) {
        (ClientEndpointId::Local, EndpointIdView::Local) => true,
        (ClientEndpointId::Remote(name), EndpointIdView::Remote(text)) => name@ == text,
        _ => false,
    }
}

/// A machine's id is told by whether it is the local one, and else by its name.
pub proof fn machines_are_told_by_name(id: ClientEndpointId, view: EndpointIdView)
    ensures
        id@ == view <==> names(id, view),
{
}

/// Whether `target` is what `view` tells.
pub open spec fn aims_at(target: ClientEndpointFocusTarget, view: FocusTargetView) -> bool {
    match (target, view) {
        (ClientEndpointFocusTarget::Workspace(id), FocusTargetView::Workspace(text)) => id@ == text,
        (ClientEndpointFocusTarget::Tab(id), FocusTargetView::Tab(text)) => id@ == text,
        (ClientEndpointFocusTarget::Pane(id), FocusTargetView::Pane(text)) => id@ == text,
        _ => false,
    }
}

/// A target is told by its kind and its id.
pub proof fn targets_are_told_by_kind_and_id(
    target: ClientEndpointFocusTarget,
    view: FocusTargetView,
)
    ensures
        target@ == view <==> aims_at(target, view),
{
}

/// Whether `action` asks for the machine `id` to be activated, without a target.
pub open spec fn activates_only(action: ClientShellAction, id: EndpointIdView) -> bool {
    action matches ClientShellAction::ActivateEndpoint { endpoint_id, target } && names(
        endpoint_id,
        id,
    ) && target is None
}

/// Whether `action` asks for the machine `id` to be activated at `view`.
pub open spec fn activates_at(
    action: ClientShellAction,
    id: EndpointIdView,
    view: FocusTargetView,
) -> bool {
    action matches ClientShellAction::ActivateEndpoint { endpoint_id, target } && names(
        endpoint_id,
        id,
    ) && target is Some && aims_at(target->0, view)
}

/// Whether `action` asks the active machine to focus `view`.
pub open spec fn focuses(action: ClientShellAction, view: FocusTargetView) -> bool {
    match (action, view) {
        (
            ClientShellAction::EndpointMethod(Method::WorkspaceFocus(target)),
            FocusTargetView::Workspace(id),
        ) => target.workspace_id@ == id,
        (ClientShellAction::EndpointMethod(Method::TabFocus(target)), FocusTargetView::Tab(id)) =>
            target.tab_id@ == id,
        (
            ClientShellAction::EndpointMethod(Method::PaneFocus(target)),
            FocusTargetView::Pane(id),
        ) => target.pane_id@ == id,
        _ => false,
    }
}

/// Whether `after` has one action more than `input`, behind all others, and the
/// same repaint.
pub open spec fn has_one_more(input: ClientShellInput, after: ClientShellInput) -> bool {
    &&& after.repaint == input.repaint
    &&& after.actions@.len() == input.actions@.len() + 1
    &&& forall|i: int| 0 <= i < input.actions@.len() ==> after.actions@[i] == #[trigger] input.actions@[i]
}

/// Whether `state` knows the machine `id` and knows it to be online.
pub open spec fn knows_online(state: ClientShellState, id: EndpointIdView) -> bool {
    exists|i: int|
        0 <= i < state.endpoints@.len() && (#[trigger] state.endpoints@[i]).status is Online
            && names(state.endpoints@[i].endpoint_id, id)
}

/// Whether all that happens is that the user is told that the machine `id` is not
/// ready.
pub open spec fn only_told(
    before: ClientShellState,
    after: ClientShellState,
    input: ClientShellInput,
    input_after: ClientShellInput,
    id: EndpointIdView,
) -> bool {
    &&& after == (ClientShellState { endpoint_error: after.endpoint_error, ..before })
    &&& after.endpoint_error matches Some(message)
    &&& message@ == before.label_of(id) + " is not ready"@
    &&& input_after.repaint
    &&& input_after.actions == input.actions
}

/// A machine is called by the label of the first entry for it.
pub proof fn machine_is_called_by_its_label(state: ClientShellState, id: EndpointIdView, at: int)
    requires
        0 <= at < state.endpoints@.len(),
        names(state.endpoints@[at].endpoint_id, id),
        forall|i: int|
            0 <= i < at ==> !names((#[trigger] state.endpoints@[i]).endpoint_id, id),
    ensures
        state.label_of(id) == state.endpoints@[at].label@,
{
    lemma_first_passes(state.endpoints@, is_endpoint(id), at);
}

/// A machine that is not known is called by its name.
pub proof fn unknown_machine_is_called_by_its_name(state: ClientShellState, name: Seq<char>)
    requires
        forall|i: int|
            0 <= i < state.endpoints@.len() ==> !names(
                (#[trigger] state.endpoints@[i]).endpoint_id,
                EndpointIdView::Remote(name),
            ),
    ensures
        state.label_of(EndpointIdView::Remote(name)) == name,
{
    lemma_none_passes(state.endpoints@, is_endpoint(EndpointIdView::Remote(name)));
}

proof fn lemma_online(state: ClientShellState, id: EndpointIdView)
    ensures
        state.online(id) == knows_online(state, id),
        state.reachable(id) == (id is Local || knows_online(state, id)),
        state.handed_over(id) == (id is Local && (state.multi_endpoint || !knows_online(state, id))),
{
    if state.online(id) {
        let i = choose|i: int|
            0 <= i < state.endpoints@.len() && (#[trigger] state.endpoints@[i]).endpoint_id@ == id
                && state.endpoints@[i].status is Online;
        assert(names(state.endpoints@[i].endpoint_id, id));
    }
    if knows_online(state, id) {
        let i = choose|i: int|
            0 <= i < state.endpoints@.len() && (#[trigger] state.endpoints@[i]).status is Online
                && names(state.endpoints@[i].endpoint_id, id);
        assert(state.endpoints@[i].endpoint_id@ == id);
    }
}

/// Exactly the local machine and those known to be online can be gone to.
pub proof fn online_machines_can_be_gone_to(state: ClientShellState, id: EndpointIdView)
    ensures
        state.reachable(id) <==> id is Local || knows_online(state, id),
{
    lemma_online(state, id);
}

/// Going to a workspace, tab or pane. A remote machine that is not online is
/// refused. Where the machine is the active one it is asked to focus the target,
/// unless it is the local one and others are shown too or it is not online. In
/// all other cases the client is asked to activate the machine at the target.
pub proof fn going_somewhere(
    before: ClientShellState,
    after: ClientShellState,
    input: ClientShellInput,
    input_after: ClientShellInput,
    id: EndpointIdView,
    target: FocusTargetView,
)
    requires
        before.goes_to(after, input, input_after, id, target),
    ensures
        ({
            let online = knows_online(before, id);
            let last = input_after.actions@.last();
            if id !is Local && !online {
                only_told(before, after, input, input_after, id)
            } else {
                &&& after == before
                &&& has_one_more(input, input_after)
                &&& if names(before.active_endpoint_id, id) && !(id is Local && (
                before.multi_endpoint || !online)) {
                    focuses(last, target)
                } else {
                    activates_at(last, id, target)
                }
            }
        }),
{
    lemma_online(before, id);
    if before.reachable(id) {
        lemma_has_one_more(input, input_after);
    }
}

proof fn lemma_has_one_more(input: ClientShellInput, after: ClientShellInput)
    requires
        after.repaint == input.repaint,
        after.actions@.len() == input.actions@.len() + 1,
        after.actions@.drop_last() == input.actions@,
    ensures
        has_one_more(input, after),
{
    assert forall|i: int| 0 <= i < input.actions@.len() implies after.actions@[i]
        == #[trigger] input.actions@[i] by {
        assert(after.actions@.drop_last()[i] == after.actions@[i]);
    }
}

/// Activating a machine. A remote one that is not online is refused. The active
/// one needs nothing, unless it is the local one and others are shown too or it
/// is not online. In all other cases the client is asked to activate it.
pub proof fn activating_a_machine(
    before: ClientShellState,
    after: ClientShellState,
    input: ClientShellInput,
    input_after: ClientShellInput,
    id: EndpointIdView,
)
    requires
        before.activates(after, input, input_after, id),
    ensures
        ({
            let online = knows_online(before, id);
            if id !is Local && !online {
                only_told(before, after, input, input_after, id)
            } else if names(before.active_endpoint_id, id) && !(id is Local && (
            before.multi_endpoint || !online)) {
                after == before && input_after == input
            } else {
                &&& after == before
                &&& has_one_more(input, input_after)
                &&& activates_only(input_after.actions@.last(), id)
            }
        }),
{
    lemma_online(before, id);
    if before.reachable(id) && input_after.actions@.len() > input.actions@.len() {
        lemma_has_one_more(input, input_after);
    }
}

/// Toggling changes for one machine whether it is held, and for no other.
pub proof fn toggling_changes_one_machine(
    ids: Set<EndpointIdView>,
    id: EndpointIdView,
    other: EndpointIdView,
)
    ensures
        toggled(ids, id).contains(other) <==> (ids.contains(other) != (other == id)),
{
}

/// Whether the machine at `at` is the first under `point`.
pub open spec fn first_machine(state: ClientShellState, point: (u16, u16), at: int) -> bool {
    let hits = state.hits.machines@;
    &&& 0 <= at < hits.len()
    &&& hits[at].rect.covers(point)
    &&& forall|i: int| 0 <= i < at ==> !(#[trigger] hits[i]).rect.covers(point)
}

/// Whether no machine lies under `point`.
pub open spec fn no_machine(state: ClientShellState, point: (u16, u16)) -> bool {
    forall|i: int|
        0 <= i < state.hits.machines@.len() ==> !(#[trigger] state.hits.machines@[i]).rect.covers(
            point,
        )
}

/// A click on a machine. On the collapse toggle, or on the active machine, it
/// collapses the machine or opens it, and no other one, and has all drawn again;
/// beside the toggle of the local machine it also activates that. On any other
/// machine it activates the machine, where that can be gone to.
pub proof fn clicking_a_machine(
    before: ClientShellState,
    after: ClientShellState,
    input: ClientShellInput,
    input_after: ClientShellInput,
    hit: MachineHit,
    on_toggle: bool,
)
    requires
        before.clicks_machine(after, input, input_after, hit, on_toggle),
    ensures
        ({
            let id = hit.endpoint_id@;
            let online = knows_online(before, id);
            let last = input_after.actions@.last();
            if on_toggle || before.active_endpoint_id@ == id {
                &&& after == (ClientShellState {
                    collapsed_endpoints: after.collapsed_endpoints,
                    ..before
                })
                &&& forall|other: EndpointIdView| #[trigger]
                    after.collapsed_endpoints@.contains(other) <==> (
                    before.collapsed_endpoints@.contains(other) != (other == id))
                &&& input_after.repaint
                &&& if !on_toggle && id is Local && (before.multi_endpoint || !online) {
                    has_one_more(
                        (ClientShellInput { repaint: true, ..input }),
                        input_after,
                    ) && activates_only(last, id)
                } else {
                    input_after.actions == input.actions
                }
            } else if id is Local || online {
                &&& after == before
                &&& has_one_more(input, input_after)
                &&& activates_only(last, id)
            } else {
                only_told(before, after, input, input_after, id)
            }
        }),
{
    let id = hit.endpoint_id@;
    lemma_online(before, id);
    if input_after.actions@.len() > input.actions@.len() {
        lemma_has_one_more((ClientShellInput { repaint: input_after.repaint, ..input }), input_after);
    }
}

/// A pressed workspace can be dragged exactly where it belongs to the active
/// machine, whose session is known and has it, and the first workspace of that
/// id there is no linked worktree.
pub proof fn dragging_a_workspace(state: ClientShellState, press: ClientWorkspacePress, at: int)
    ensures
        state.draggable(press) ==> press.endpoint_id@ == state.active_endpoint_id@
            && state.snapshot is Some,
        state.snapshot matches Some(snapshot) ==> {
            let workspaces = snapshot.workspaces@;
            let sought = press.workspace_id@;
            &&& (forall|i: int|
                0 <= i < workspaces.len() ==> (#[trigger] workspaces[i]).workspace_id@ != sought)
                ==> !state.draggable(press)
            &&& press.endpoint_id@ == state.active_endpoint_id@ && 0 <= at < workspaces.len()
                && workspaces[at].workspace_id@ == sought && (forall|i: int|
                0 <= i < at ==> (#[trigger] workspaces[i]).workspace_id@ != sought) ==> (
            state.draggable(press) <==> !(workspaces[at].worktree matches Some(worktree)
                && worktree.is_linked_worktree))
        },
{
    if let Some(snapshot) = state.snapshot {
        let workspaces = snapshot.workspaces@;
        let test = is_workspace(press.workspace_id@);
        if forall|i: int|
            0 <= i < workspaces.len() ==> (#[trigger] workspaces[i]).workspace_id@
                != press.workspace_id@ {
            lemma_none_passes(workspaces, test);
        }
        if 0 <= at < workspaces.len() && workspaces[at].workspace_id@ == press.workspace_id@ && (
        forall|i: int|
            0 <= i < at ==> (#[trigger] workspaces[i]).workspace_id@ != press.workspace_id@) {
            lemma_first_passes(workspaces, test, at);
        }
    }
}

} // verus!
