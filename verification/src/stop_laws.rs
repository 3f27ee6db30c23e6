//! Where the keys lead that go between workspaces and agents of all machines.
use crate::endpoint::EndpointIdView;
use crate::endpoint_navigation::{
    agent_stops, all_workspaces, endpoint_workspaces, is_stop, listed_workspaces, stepped,
    Navigation, Stop,
};
use crate::navigation_laws::{steps_reach_every_stop, walked};
use crate::search::{first_index, lemma_first_passes, lemma_none_passes};
use crate::shell_state::{
    AgentTarget, ClientEndpoint, ClientShellInput, ClientShellState, ClientSnapshot,
    FocusTargetView, KeybindAction,
};
use vstd::arithmetic::div_mod::{
    lemma_mod_add_multiples_vanish, lemma_mod_self_0, lemma_small_mod,
};
use vstd::prelude::*;

verus! {

/// Whether one sidebar entry of a list of machines comes before another: by
/// machine, then by entry.
pub open spec fn listed_before(a: (int, int), b: (int, int)) -> bool {
    a.0 < b.0 || (a.0 == b.0 && a.1 < b.1)
}

/// Whether entry `place.1` of machine `place.0` lists a workspace: the machine is
/// online, its session is known, and the entry points to a workspace of it.
pub open spec fn lists_at(endpoints: Seq<ClientEndpoint>, place: (int, int)) -> bool {
    &&& 0 <= place.0 < endpoints.len()
    &&& endpoints[place.0].status is Online
    &&& endpoints[place.0].snapshot matches Some(snapshot)
    &&& 0 <= place.1 < snapshot.workspace_entries@.len()
    &&& snapshot.workspace_entries@[place.1].index < snapshot.workspaces@.len()
}

/// The workspace that an entry points to.
pub open spec fn listed_id(endpoints: Seq<ClientEndpoint>, place: (int, int)) -> Seq<char> {
    let snapshot = endpoints[place.0].snapshot->0;
    snapshot.workspaces@[snapshot.workspace_entries@[place.1].index as int].workspace_id@
}

proof fn lemma_entries(snapshot: ClientSnapshot, id: EndpointIdView, count: nat) -> (entries: Seq<int>)
    requires
        count <= snapshot.workspace_entries@.len(),
    ensures
        ({
            let listed = listed_workspaces(snapshot, id, count);
            &&& entries.len() == listed.len()
            &&& forall|j: int|
                0 <= j < entries.len() ==> {
                    let k = #[trigger] entries[j];
                    let index = snapshot.workspace_entries@[k].index;
                    &&& 0 <= k < count
                    &&& index < snapshot.workspaces@.len()
                    &&& listed[j].endpoint_id == id
                    &&& listed[j].id == snapshot.workspaces@[index as int].workspace_id@
                }
            &&& forall|i: int, j: int|
                0 <= i < j < entries.len() ==> #[trigger] entries[i] < #[trigger] entries[j]
            &&& forall|k: int|
                0 <= k < count && (#[trigger] snapshot.workspace_entries@[k]).index
                    < snapshot.workspaces@.len() ==> entries.contains(k)
        }),
    decreases count,
{
    if count == 0 {
        Seq::empty()
    } else {
        let last = count - 1;
        let before = lemma_entries(snapshot, id, last as nat);
        let listed = listed_workspaces(snapshot, id, count);
        let earlier = listed_workspaces(snapshot, id, last as nat);
        let entries = if listed.len() > earlier.len() {
            before.push(last)
        } else {
            before
        };
        assert forall|j: int| 0 <= j < entries.len() implies ({
            let k = #[trigger] entries[j];
            let index = snapshot.workspace_entries@[k].index;
            &&& 0 <= k < count
            &&& index < snapshot.workspaces@.len()
            &&& listed[j].endpoint_id == id
            &&& listed[j].id == snapshot.workspaces@[index as int].workspace_id@
        }) by {
            if j < before.len() {
                assert(entries[j] == before[j] && listed[j] == earlier[j]);
            }
        }
        assert forall|k: int|
            0 <= k < count && (#[trigger] snapshot.workspace_entries@[k]).index
                < snapshot.workspaces@.len() implies entries.contains(k) by {
            if k < last {
                assert(before.contains(k));
                let j = choose|j: int| 0 <= j < before.len() && before[j] == k;
                assert(entries[j] == k);
            } else {
                assert(entries[before.len() as int] == k);
            }
        }
        entries
    }
}

/// The stops of the workspace keys are the workspaces that the sidebar entries of
/// all machines that are online point to: one stop for each such entry, in the
/// order of the machines and of their entries, and nothing else.
pub proof fn every_listed_workspace_is_a_stop(endpoints: Seq<ClientEndpoint>) -> (places: Seq<
    (int, int),
>)
    ensures
        ({
            let stops = all_workspaces(endpoints);
            &&& places.len() == stops.len()
            &&& forall|j: int|
                0 <= j < places.len() ==> {
                    let place = #[trigger] places[j];
                    &&& lists_at(endpoints, place)
                    &&& stops[j].endpoint_id == endpoints[place.0].endpoint_id@
                    &&& stops[j].id == listed_id(endpoints, place)
                }
            &&& forall|i: int, j: int|
                0 <= i < j < places.len() ==> listed_before(
                    #[trigger] places[i],
                    #[trigger] places[j],
                )
            &&& forall|place: (int, int)| #[trigger]
                lists_at(endpoints, place) ==> places.contains(place)
        }),
    decreases endpoints.len(),
{
    if endpoints.len() == 0 {
        Seq::empty()
    } else {
        let front = endpoints.drop_last();
        let last = endpoints.len() - 1;
        let endpoint = endpoints.last();
        let before = every_listed_workspace_is_a_stop(front);
        let stops = all_workspaces(endpoints);
        let added = endpoint_workspaces(endpoint);
        assert(stops == all_workspaces(front) + added);
        let more: Seq<int> = if endpoint.snapshot is Some && endpoint.status is Online {
            let snapshot = endpoint.snapshot->0;
            lemma_entries(snapshot, endpoint.endpoint_id@, snapshot.workspace_entries@.len())
        } else {
            Seq::empty()
        };
        let places = before + more.map_values(|k: int| (last, k));
        assert forall|j: int| 0 <= j < places.len() implies ({
            let place = #[trigger] places[j];
            &&& lists_at(endpoints, place)
            &&& stops[j].endpoint_id == endpoints[place.0].endpoint_id@
            &&& stops[j].id == listed_id(endpoints, place)
        }) by {
            if j < before.len() {
                assert(places[j] == before[j]);
                assert(lists_at(front, before[j]));
                assert(front[before[j].0] == endpoints[before[j].0]);
                assert(stops[j] == all_workspaces(front)[j]);
            } else {
                let k = more[j - before.len()];
                assert(places[j] == (last, k));
                assert(stops[j] == added[j - before.len()]);
            }
        }
        assert forall|i: int, j: int| 0 <= i < j < places.len() implies listed_before(
            #[trigger] places[i],
            #[trigger] places[j],
        ) by {
            if j < before.len() {
                assert(listed_before(before[i], before[j]));
            } else if i < before.len() {
                assert(lists_at(front, before[i]));
            } else {
                assert(more[i - before.len()] < more[j - before.len()]);
            }
        }
        assert forall|place: (int, int)| #[trigger]
            lists_at(endpoints, place) implies places.contains(place) by {
            if place.0 < last {
                assert(front[place.0] == endpoints[place.0]);
                assert(lists_at(front, place));
                let j = choose|j: int| 0 <= j < before.len() && before[j] == place;
                assert(places[j] == place);
            } else {
                assert(endpoint.snapshot->0.workspace_entries@[place.1].index
                    < endpoint.snapshot->0.workspaces@.len());
                assert(more.contains(place.1));
                let j = choose|j: int| 0 <= j < more.len() && more[j] == place.1;
                assert(places[before.len() + j] == place);
            }
        }
        places
    }
}

/// A step leads to the stop behind or before, and from one end of the list to
/// the other; without a place to start from it leads to the end that it comes to
/// first.
pub proof fn step_leads_to_the_neighbour(at: int, count: int)
    requires
        0 <= at < count,
    ensures
        at + 1 < count ==> stepped(Some(at), count, true) == at + 1,
        stepped(Some(count - 1), count, true) == 0,
        at > 0 ==> stepped(Some(at), count, false) == at - 1,
        stepped(Some(0int), count, false) == count - 1,
        stepped(None, count, true) == 0,
        stepped(None, count, false) == count - 1,
{
    lemma_mod_self_0(count);
    lemma_small_mod((count - 1) as nat, count as nat);
    if at + 1 < count {
        lemma_small_mod((at + 1) as nat, count as nat);
    }
    if at > 0 {
        lemma_mod_add_multiples_vanish(at - 1, count);
        lemma_small_mod((at - 1) as nat, count as nat);
    }
}

/// The index next to `at` in a list of `count` that closes to a circle.
pub open spec fn neighbour(at: int, count: int, forward: bool) -> int {
    if forward {
        if at == count - 1 {
            0
        } else {
            at + 1
        }
    } else {
        if at == 0 {
            count - 1
        } else {
            at - 1
        }
    }
}

/// Whether the user is at `stop`: on its machine, with `focused` as its name.
pub open spec fn is_here(state: ClientShellState, focused: Option<String>, stop: Stop) -> bool {
    &&& stop.endpoint_id == state.active_endpoint_id@
    &&& focused matches Some(name) && name@ == stop.id
}

/// A workspace key leads from the first stop where the user is to the one next
/// to it, and to the first or the last where the user is at none.
pub proof fn workspace_key_leads_to_the_neighbour(
    state: ClientShellState,
    at: int,
    forward: bool,
)
    requires
        all_workspaces(state.endpoints@).len() > 0,
    ensures
        ({
            let stops = all_workspaces(state.endpoints@);
            let count = stops.len() as int;
            let focused = match state.snapshot {
                Some(snapshot) => snapshot.focused_workspace_id,
                None => None,
            };
            &&& 0 <= at < count && is_here(state, focused, stops[at]) && (forall|i: int|
                0 <= i < at ==> !is_here(state, focused, #[trigger] stops[i]))
                ==> state.workspace_step(forward) == Navigation::Workspace(
                stops[neighbour(at, count, forward)],
            )
            &&& (forall|i: int| 0 <= i < count ==> !is_here(state, focused, #[trigger] stops[i]))
                ==> state.workspace_step(forward) == Navigation::Workspace(
                if forward {
                    stops[0]
                } else {
                    stops[count - 1]
                },
            )
        }),
{
    let stops = all_workspaces(state.endpoints@);
    let test = is_stop(state.active_endpoint_id@, state.focused_workspace());
    let focused = match state.snapshot {
        Some(snapshot) => snapshot.focused_workspace_id,
        None => None,
    };
    assert(forall|stop: Stop| #[trigger] test(stop) == is_here(state, focused, stop));
    lemma_neighbour(stops, test, at, forward);
}

proof fn lemma_neighbour(stops: Seq<Stop>, test: spec_fn(Stop) -> bool, at: int, forward: bool)
    requires
        stops.len() > 0,
    ensures
        0 <= at < stops.len() && test(stops[at]) && (forall|i: int|
            0 <= i < at ==> !test(#[trigger] stops[i])) ==> stepped(
            first_index(stops, test),
            stops.len() as int,
            forward,
        ) == neighbour(at, stops.len() as int, forward),
        (forall|i: int| 0 <= i < stops.len() ==> !test(#[trigger] stops[i])) ==> stepped(
            first_index(stops, test),
            stops.len() as int,
            forward,
        ) == if forward {
            0
        } else {
            stops.len() - 1
        },
{
    let count = stops.len() as int;
    if 0 <= at < count {
        step_leads_to_the_neighbour(at, count);
    }
    if 0 <= at < count && test(stops[at]) && (forall|i: int|
        0 <= i < at ==> !test(#[trigger] stops[i])) {
        lemma_first_passes(stops, test, at);
    }
    if forall|i: int| 0 <= i < count ==> !test(#[trigger] stops[i]) {
        lemma_none_passes(stops, test);
    }
}

/// The stops of the agent keys are the agents of the list, one by one.
pub proof fn every_agent_is_a_stop(agents: Seq<AgentTarget>)
    ensures
        agent_stops(agents).len() == agents.len(),
        forall|i: int|
            0 <= i < agents.len() ==> (#[trigger] agent_stops(agents)[i]).endpoint_id
                == agents[i].endpoint_id@ && agent_stops(agents)[i].id == agents[i].pane_id@,
{
}

/// An agent key leads from the first agent where the user is to the one next to
/// it, and to the first or the last where the user is at none.
pub proof fn agent_key_leads_to_the_neighbour(
    state: ClientShellState,
    agents: Seq<Stop>,
    at: int,
    forward: bool,
)
    requires
        agents.len() > 0,
    ensures
        ({
            let count = agents.len() as int;
            let focused = match state.snapshot {
                Some(snapshot) => snapshot.focused_pane_id,
                None => None,
            };
            &&& 0 <= at < count && is_here(state, focused, agents[at]) && (forall|i: int|
                0 <= i < at ==> !is_here(state, focused, #[trigger] agents[i]))
                ==> state.agent_step(agents, forward) == Navigation::Agent(
                agents[neighbour(at, count, forward)],
            )
            &&& (forall|i: int| 0 <= i < count ==> !is_here(state, focused, #[trigger] agents[i]))
                ==> state.agent_step(agents, forward) == Navigation::Agent(
                if forward {
                    agents[0]
                } else {
                    agents[count - 1]
                },
            )
        }),
{
    let test = is_stop(state.active_endpoint_id@, state.focused_pane());
    let focused = match state.snapshot {
        Some(snapshot) => snapshot.focused_pane_id,
        None => None,
    };
    assert(forall|stop: Stop| #[trigger] test(stop) == is_here(state, focused, stop));
    lemma_neighbour(agents, test, at, forward);
}

/// Beside other machines, the five keys that go between workspaces and agents are
/// always handled, and no others. Without a stop they lead nowhere, and a key for
/// one agent leads to that agent of the list. With one machine none is handled.
pub proof fn keys_do_what_they_say(state: ClientShellState, agents: Seq<Stop>, index: usize)
    ensures
        !state.multi_endpoint ==> forall|action: KeybindAction| #[trigger]
            state.navigation(action, agents) is Unhandled,
        state.multi_endpoint ==> {
            let stops = all_workspaces(state.endpoints@);
            &&& state.navigation(KeybindAction::Other, agents) is Unhandled
            &&& state.navigation(KeybindAction::FocusAgent(index), agents) == if index
                < agents.len() {
                Navigation::Agent(agents[index as int])
            } else {
                Navigation::Stay
            }
            &&& state.navigation(KeybindAction::NextWorkspace, agents) == if stops.len() > 0 {
                state.workspace_step(true)
            } else {
                Navigation::Stay
            }
            &&& state.navigation(KeybindAction::PreviousWorkspace, agents) == if stops.len() > 0 {
                state.workspace_step(false)
            } else {
                Navigation::Stay
            }
            &&& state.navigation(KeybindAction::NextAgent, agents) == if agents.len() > 0 {
                state.agent_step(agents, true)
            } else {
                Navigation::Stay
            }
            &&& state.navigation(KeybindAction::PreviousAgent, agents) == if agents.len() > 0 {
                state.agent_step(agents, false)
            } else {
                Navigation::Stay
            }
        },
{
}

/// A key that leads to a workspace or an agent goes to that workspace or that
/// agent's pane on its machine, and one that leads nowhere changes nothing.
pub proof fn keys_go_where_they_lead(
    before: ClientShellState,
    after: ClientShellState,
    input: ClientShellInput,
    input_after: ClientShellInput,
    navigation: Navigation,
)
    requires
        before.navigates(after, input, input_after, navigation),
    ensures
        match navigation {
            Navigation::Workspace(stop) => before.goes_to(
                after,
                input,
                input_after,
                stop.endpoint_id,
                FocusTargetView::Workspace(stop.id),
            ),
            Navigation::Agent(stop) => before.goes_to(
                after,
                input,
                input_after,
                stop.endpoint_id,
                FocusTargetView::Pane(stop.id),
            ),
            _ => after == before && input_after == input,
        },
{
}

/// The workspace keys reach every listed workspace: from wherever they start,
/// steps forward come to the stop of each sidebar entry of each machine that is
/// online.
pub proof fn steps_come_to_every_listed_workspace(
    endpoints: Seq<ClientEndpoint>,
    from: int,
    place: (int, int),
) -> (steps: nat)
    requires
        lists_at(endpoints, place),
        0 <= from < all_workspaces(endpoints).len(),
    ensures
        ({
            let stops = all_workspaces(endpoints);
            let to = walked(from, stops.len() as int, steps);
            &&& 0 <= to < stops.len()
            &&& stops[to].endpoint_id == endpoints[place.0].endpoint_id@
            &&& stops[to].id == listed_id(endpoints, place)
        }),
{
    let stops = all_workspaces(endpoints);
    let places = every_listed_workspace_is_a_stop(endpoints);
    let to = choose|j: int| 0 <= j < places.len() && places[j] == place;
    steps_reach_every_stop(from, to, stops.len() as int);
    ((to - from) % (stops.len() as int)) as nat
}

} // verus!
