//! What holds of going between endpoints, over more than one step.
use crate::endpoint::EndpointIdView;
use crate::endpoint_navigation::{
    all_workspaces, click_opens, is_stop, listed_workspaces, next_click, stepped, toggled,
    Navigation, Stop, DOUBLE_CLICK,
};
use crate::search::{first_index, lemma_first_index, lemma_first_passes};
use crate::shell_state::{
    ActionView, ClientEndpoint, ClientShellInput, ClientShellState, ClientSnapshot,
    FocusTargetView, MachineHit, SidebarClickView, SidebarTargetView,
};
use vstd::arithmetic::div_mod::{
    lemma_add_mod_noop, lemma_mod_add_multiples_vanish, lemma_mod_bound, lemma_mod_self_0,
    lemma_mod_twice, lemma_small_mod,
};
use vstd::prelude::*;

verus! {

/// A step forward and a step back lead to where they started, in either order.
pub proof fn steps_undo_each_other(at: int, count: int)
    requires
        0 <= at < count,
    ensures
        stepped(Some(stepped(Some(at), count, true)), count, false) == at,
        stepped(Some(stepped(Some(at), count, false)), count, true) == at,
{
    lemma_small_mod(at as nat, count as nat);
    lemma_mod_self_0(count);
    lemma_mod_add_multiples_vanish(at, count);
    if at + 1 < count {
        lemma_small_mod((at + 1) as nat, count as nat);
    } else {
        lemma_small_mod((count - 1) as nat, count as nat);
    }
    if at > 0 {
        lemma_mod_add_multiples_vanish(at - 1, count);
        lemma_small_mod((at - 1) as nat, count as nat);
    } else {
        lemma_small_mod((count - 1) as nat, count as nat);
    }
}

/// Where `steps` steps forward lead.
pub open spec fn walked(at: int, count: int, steps: nat) -> int
    decreases steps,
{
    if steps == 0 {
        at
    } else {
        stepped(Some(walked(at, count, (steps - 1) as nat)), count, true)
    }
}

proof fn lemma_walked(at: int, count: int, steps: nat)
    requires
        0 <= at < count,
    ensures
        walked(at, count, steps) == (at + steps) % count,
    decreases steps,
{
    if steps == 0 {
        lemma_small_mod(at as nat, count as nat);
    } else {
        let before = (steps - 1) as nat;
        lemma_walked(at, count, before);
        lemma_add_mod_noop(at + before, 1, count);
        lemma_add_mod_noop((at + before) % count, 1, count);
        lemma_mod_twice(at + before, count);
    }
}

/// Steps forward lead from every stop to every other, and all around the
/// circle back to the first.
pub proof fn steps_reach_every_stop(from: int, to: int, count: int)
    requires
        0 <= from < count,
        0 <= to < count,
    ensures
        walked(from, count, ((to - from) % count) as nat) == to,
        walked(from, count, count as nat) == from,
{
    let steps = (to - from) % count;
    lemma_walked(from, count, steps as nat);
    lemma_walked(from, count, count as nat);
    lemma_mod_add_multiples_vanish(from, count);
    lemma_small_mod(from as nat, count as nat);
    lemma_small_mod(to as nat, count as nat);
    if to < from {
        lemma_mod_add_multiples_vanish(to - from, count);
        lemma_small_mod((to - from + count) as nat, count as nat);
        lemma_mod_add_multiples_vanish(to, count);
    } else {
        lemma_small_mod((to - from) as nat, count as nat);
    }
}

proof fn lemma_opposite_step(
    stops: Seq<Stop>,
    at: int,
    here: spec_fn(Stop) -> bool,
    there: spec_fn(Stop) -> bool,
    forward: bool,
)
    requires
        stops.no_duplicates(),
        0 <= at < stops.len(),
        here == is_stop(stops[at].endpoint_id, Some(stops[at].id)),
        ({
            let next = stops[stepped(Some(at), stops.len() as int, forward)];
            there == is_stop(next.endpoint_id, Some(next.id))
        }),
    ensures
        ({
            let count = stops.len() as int;
            let to = stepped(Some(at), count, forward);
            &&& first_index(stops, here) == Some(at)
            &&& first_index(stops, there) == Some(to)
            &&& stepped(Some(to), count, !forward) == at
        }),
{
    let count = stops.len() as int;
    assert forall|i: int| 0 <= i < at implies !here(#[trigger] stops[i]) by {
        assert(stops[i] != stops[at]);
    }
    lemma_first_passes(stops, here, at);
    let to = stepped(Some(at), count, forward);
    if forward {
        lemma_mod_bound(at + 1, count);
    } else {
        lemma_mod_bound(at + count - 1, count);
    }
    assert forall|i: int| 0 <= i < to implies !there(#[trigger] stops[i]) by {
        assert(stops[i] != stops[to]);
    }
    lemma_first_passes(stops, there, to);
    steps_undo_each_other(at, count);
}

/// Going to the next workspace and then, from there, to the previous one leads
/// back to the workspace that was focused first; and so the other way round.
pub proof fn opposite_workspace_step_leads_back(
    before: ClientShellState,
    there: ClientShellState,
    start: Stop,
    next: Stop,
    forward: bool,
)
    requires
        all_workspaces(before.endpoints@).no_duplicates(),
        all_workspaces(before.endpoints@).contains(start),
        start.endpoint_id == before.active_endpoint_id@,
        before.focused_workspace() == Some(start.id),
        before.workspace_step(forward) == Navigation::Workspace(next),
        there.endpoints@ == before.endpoints@,
        there.active_endpoint_id@ == next.endpoint_id,
        there.focused_workspace() == Some(next.id),
    ensures
        there.workspace_step(!forward) == Navigation::Workspace(start),
{
    let stops = all_workspaces(before.endpoints@);
    let at = choose|i: int| 0 <= i < stops.len() && stops[i] == start;
    let here = is_stop(start.endpoint_id, Some(start.id));
    let to = stops[stepped(Some(at), stops.len() as int, forward)];
    lemma_opposite_step(stops, at, here, is_stop(to.endpoint_id, Some(to.id)), forward);
}

/// The same holds of the agents of a list.
pub proof fn opposite_agent_step_leads_back(
    before: ClientShellState,
    there: ClientShellState,
    agents: Seq<Stop>,
    start: Stop,
    next: Stop,
    forward: bool,
)
    requires
        agents.no_duplicates(),
        agents.contains(start),
        start.endpoint_id == before.active_endpoint_id@,
        before.focused_pane() == Some(start.id),
        before.agent_step(agents, forward) == Navigation::Agent(next),
        there.active_endpoint_id@ == next.endpoint_id,
        there.focused_pane() == Some(next.id),
    ensures
        there.agent_step(agents, !forward) == Navigation::Agent(start),
{
    let at = choose|i: int| 0 <= i < agents.len() && agents[i] == start;
    let here = is_stop(start.endpoint_id, Some(start.id));
    let to = agents[stepped(Some(at), agents.len() as int, forward)];
    lemma_opposite_step(agents, at, here, is_stop(to.endpoint_id, Some(to.id)), forward);
}

proof fn lemma_listed_on(
    snapshot: ClientSnapshot,
    endpoint_id: EndpointIdView,
    count: nat,
    at: int,
)
    requires
        0 <= at < listed_workspaces(snapshot, endpoint_id, count).len(),
    ensures
        listed_workspaces(snapshot, endpoint_id, count)[at].endpoint_id == endpoint_id,
    decreases count,
{
    if count > 0 {
        let before = (count - 1) as nat;
        if at < listed_workspaces(snapshot, endpoint_id, before).len() {
            lemma_listed_on(snapshot, endpoint_id, before, at);
        }
    }
}

proof fn lemma_workspaces_are_online(endpoints: Seq<ClientEndpoint>, at: int) -> (from: int)
    requires
        0 <= at < all_workspaces(endpoints).len(),
    ensures
        0 <= from < endpoints.len(),
        endpoints[from].endpoint_id@ == all_workspaces(endpoints)[at].endpoint_id,
        endpoints[from].status is Online,
    decreases endpoints.len(),
{
    let front = endpoints.drop_last();
    if at < all_workspaces(front).len() {
        lemma_workspaces_are_online(front, at)
    } else {
        let last = endpoints.last();
        let snapshot = last.snapshot->0;
        lemma_listed_on(
            snapshot,
            last.endpoint_id@,
            snapshot.workspace_entries@.len(),
            at - all_workspaces(front).len(),
        );
        endpoints.len() - 1
    }
}

/// A step through the workspaces never leads to a machine that is not online,
/// so that it is never refused.
pub proof fn workspace_step_leads_to_an_online_machine(
    state: ClientShellState,
    forward: bool,
    stop: Stop,
)
    requires
        state.workspace_step(forward) == Navigation::Workspace(stop),
    ensures
        state.online(stop.endpoint_id),
        state.reachable(stop.endpoint_id),
{
    let stops = all_workspaces(state.endpoints@);
    let test = is_stop(state.active_endpoint_id@, state.focused_workspace());
    let here = first_index(stops, test);
    lemma_first_index(stops, test);
    let to = stepped(here, stops.len() as int, forward);
    if let Some(at) = here {
        lemma_mod_bound(at + 1, stops.len() as int);
        lemma_mod_bound(at + stops.len() - 1, stops.len() as int);
    }
    let from = lemma_workspaces_are_online(state.endpoints@, to);
    assert(state.endpoints@[from].endpoint_id@ == stop.endpoint_id);
}

/// Toggling twice changes nothing.
pub proof fn toggling_twice_restores(ids: Set<EndpointIdView>, id: EndpointIdView)
    ensures
        toggled(toggled(ids, id), id) == ids,
{
    assert(toggled(toggled(ids, id), id) =~= ids);
}

/// A second click on a machine's collapse toggle undoes the first, and neither
/// asks for anything but a repaint.
pub proof fn collapsing_twice_restores(
    first: ClientShellState,
    second: ClientShellState,
    third: ClientShellState,
    input: ClientShellInput,
    input_second: ClientShellInput,
    input_third: ClientShellInput,
    hit: MachineHit,
)
    requires
        first.clicks_machine(second, input, input_second, hit, true),
        second.clicks_machine(third, input_second, input_third, hit, true),
    ensures
        third.collapsed_endpoints@ == first.collapsed_endpoints@,
        third == (ClientShellState { collapsed_endpoints: third.collapsed_endpoints, ..first }),
        input_third == input.repainted(),
{
    toggling_twice_restores(first.collapsed_endpoints@, hit.endpoint_id@);
}

/// Where an endpoint is out of reach, nothing is asked of it: the user is told,
/// and the actions stay as they were.
pub proof fn unreachable_endpoint_gets_no_action(
    before: ClientShellState,
    after: ClientShellState,
    input: ClientShellInput,
    input_after: ClientShellInput,
    id: EndpointIdView,
    target: FocusTargetView,
)
    requires
        !before.reachable(id),
        before.goes_to(after, input, input_after, id, target) || before.activates(
            after,
            input,
            input_after,
            id,
        ),
    ensures
        input_after.actions == input.actions,
        input_after.repaint,
        after.endpoint_error is Some,
        after.endpoint_error->0@ == before.label_of(id) + " is not ready"@,
{
}

/// While other machines are shown too, a selection on the local one always goes
/// through the client's runtime, never straight to the server.
pub proof fn local_selection_goes_through_the_runtime(
    before: ClientShellState,
    after: ClientShellState,
    input: ClientShellInput,
    input_after: ClientShellInput,
    target: FocusTargetView,
)
    requires
        before.multi_endpoint,
        before.goes_to(after, input, input_after, EndpointIdView::Local, target),
    ensures
        after == before,
        input.gains(
            input_after,
            ActionView::ActivateEndpoint {
                endpoint_id: EndpointIdView::Local,
                target: Some(target),
            },
        ),
{
}

/// The last of the clicks on `target` at `times`, and how many of them open it,
/// behind the click `last`.
pub open spec fn click_run(
    last: Option<SidebarClickView>,
    target: SidebarTargetView,
    times: Seq<u64>,
) -> (Option<SidebarClickView>, nat)
    decreases times.len(),
{
    if times.len() == 0 {
        (last, 0)
    } else {
        let (before, opened) = click_run(last, target, times.drop_last());
        let now = times.last();
        (
            Some(next_click(before, target, now)),
            opened + if click_opens(before, target, now) {
                1nat
            } else {
                0nat
            },
        )
    }
}

/// Clicks that follow each other quickly enough open their target once, on the
/// second of them, however many they are.
pub proof fn burst_opens_once(target: SidebarTargetView, times: Seq<u64>)
    requires
        forall|i: int| 0 < i < times.len() ==> #[trigger] times[i] - times[i - 1] <= DOUBLE_CLICK,
    ensures
        click_run(None, target, times).1 == if times.len() >= 2 { 1nat } else { 0nat },
        times.len() > 0 ==> click_run(None, target, times).0 == Some(
            SidebarClickView { target, at: times.last(), invoked: times.len() >= 2 },
        ),
    decreases times.len(),
{
    if times.len() > 0 {
        let front = times.drop_last();
        assert forall|i: int| 0 < i < front.len() implies #[trigger] front[i] - front[i - 1]
            <= DOUBLE_CLICK by {
            assert(times[i] - times[i - 1] <= DOUBLE_CLICK);
        }
        burst_opens_once(target, front);
        if front.len() > 0 {
            assert(times[times.len() - 1] - times[times.len() - 2] <= DOUBLE_CLICK);
        }
    }
}

} // verus!
