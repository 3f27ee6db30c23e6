//! Which agents a list of surfaces has resumed, told by the panes that they show.
use crate::agent_resume::{exposed_panes, shows, Exposure, Resumes};
use crate::paths::path_of;
use crate::resume_laws::candidates_are_the_resumable_terminals_shown;
use crate::session::{App, PaneInfo, Tab, TabSurface, TerminalId};
use vstd::prelude::*;

verus! {

/// Whether one place on a list of surfaces comes before another: by surface,
/// then by pane.
pub open spec fn earlier(a: (int, int), b: (int, int)) -> bool {
    a.0 < b.0 || (a.0 == b.0 && a.1 < b.1)
}

/// Whether the pane that surface `place.0` draws as its `place.1`th shows the
/// terminal `id`: the surface has room for a tab that there is, and the pane has
/// room, belongs to the tab, and is attached to the terminal.
pub open spec fn shows_at(
    app: App,
    surfaces: Seq<TabSurface>,
    place: (int, int),
    id: TerminalId,
) -> bool {
    let surface = surfaces[place.0];
    let workspace = app.state.workspaces@[surface.target.workspace_index as int];
    let tab = workspace.tabs@[surface.target.tab_index as int];
    let info = surface.pane_infos@[place.1];
    &&& 0 <= place.0 < surfaces.len()
    &&& surface.area.width > 0 && surface.area.height > 0
    &&& surface.target.workspace_index < app.state.workspaces@.len()
    &&& surface.target.tab_index < workspace.tabs@.len()
    &&& 0 <= place.1 < surface.pane_infos@.len()
    &&& info.inner_rect.width > 0 && info.inner_rect.height > 0
    &&& tab.panes@.contains_key(info.id)
    &&& tab.panes@[info.id].attached_terminal_id == id
}

/// Whether the terminal `id` is shown first at `place`.
pub open spec fn first_shows_at(
    app: App,
    surfaces: Seq<TabSurface>,
    place: (int, int),
    id: TerminalId,
) -> bool {
    &&& shows_at(app, surfaces, place, id)
    &&& forall|other: (int, int)| #[trigger]
        shows_at(app, surfaces, other, id) ==> !earlier(other, place)
}

/// What is drawn at `place`.
pub open spec fn info_at(surfaces: Seq<TabSurface>, place: (int, int)) -> PaneInfo {
    surfaces[place.0].pane_infos@[place.1]
}

proof fn lemma_pane_places(tab: Tab, infos: Seq<PaneInfo>) -> (places: Seq<int>)
    ensures
        places.len() == exposed_panes(tab, infos).len(),
        forall|j: int|
            0 <= j < places.len() ==> {
                let info = infos[#[trigger] places[j]];
                &&& 0 <= places[j] < infos.len()
                &&& info.inner_rect.width > 0 && info.inner_rect.height > 0
                &&& tab.panes@.contains_key(info.id)
                &&& exposed_panes(tab, infos)[j] == (Exposure {
                    pane_id: info.id,
                    terminal_id: tab.panes@[info.id].attached_terminal_id,
                    rows: info.inner_rect.height,
                    cols: info.inner_rect.width,
                })
            },
        forall|i: int, j: int| 0 <= i < j < places.len() ==> places[i] < places[j],
        forall|k: int|
            0 <= k < infos.len() && (#[trigger] infos[k]).inner_rect.width > 0
                && infos[k].inner_rect.height > 0 && tab.panes@.contains_key(infos[k].id)
                ==> places.contains(k),
    decreases infos.len(),
{
    if infos.len() == 0 {
        Seq::empty()
    } else {
        let front = infos.drop_last();
        let last = infos.len() - 1;
        let before = lemma_pane_places(tab, front);
        let places = if exposed_panes(tab, infos).len() > exposed_panes(tab, front).len() {
            before.push(last)
        } else {
            before
        };
        assert forall|k: int|
            0 <= k < infos.len() && (#[trigger] infos[k]).inner_rect.width > 0
                && infos[k].inner_rect.height > 0 && tab.panes@.contains_key(
                infos[k].id,
            ) implies places.contains(k) by {
            if k < last {
                assert(front[k] == infos[k]);
                assert(before.contains(k));
                let j = choose|j: int| 0 <= j < before.len() && before[j] == k;
                assert(places[j] == k);
            } else {
                assert(places[before.len() as int] == k);
            }
        }
        assert forall|j: int| 0 <= j < places.len() implies ({
            let info = infos[#[trigger] places[j]];
            &&& 0 <= places[j] < infos.len()
            &&& info.inner_rect.width > 0 && info.inner_rect.height > 0
            &&& tab.panes@.contains_key(info.id)
            &&& exposed_panes(tab, infos)[j] == (Exposure {
                pane_id: info.id,
                terminal_id: tab.panes@[info.id].attached_terminal_id,
                rows: info.inner_rect.height,
                cols: info.inner_rect.width,
            })
        }) by {
            if j < before.len() {
                assert(places[j] == before[j]);
                assert(front[before[j]] == infos[before[j]]);
            }
        }
        places
    }
}

/// The panes that surfaces show, by their places: in order, each where it has
/// room, and none left out.
proof fn lemma_places(app: App, surfaces: Seq<TabSurface>) -> (places: Seq<(int, int)>)
    ensures
        places.len() == app.exposed(surfaces).len(),
        forall|j: int|
            0 <= j < places.len() ==> {
                let shown = app.exposed(surfaces)[j];
                let info = info_at(surfaces, #[trigger] places[j]);
                &&& shows_at(app, surfaces, places[j], shown.terminal_id)
                &&& shown.pane_id == info.id
                &&& shown.rows == info.inner_rect.height
                &&& shown.cols == info.inner_rect.width
            },
        forall|i: int, j: int|
            0 <= i < j < places.len() ==> earlier(#[trigger] places[i], #[trigger] places[j]),
        forall|place: (int, int), id: TerminalId| #[trigger]
            shows_at(app, surfaces, place, id) ==> places.contains(place),
    decreases surfaces.len(),
{
    if surfaces.len() == 0 {
        Seq::empty()
    } else {
        let front = surfaces.drop_last();
        let last = surfaces.len() - 1;
        let surface = surfaces.last();
        let before = lemma_places(app, front);
        let known = app.exposed_by(surface);
        let tab = app.tab_at(surface.target);
        let more: Seq<int> = if tab is Some && !surface.area.blank() {
            lemma_pane_places(tab->0, surface.pane_infos@)
        } else {
            Seq::empty()
        };
        let places = before + more.map_values(|k: int| (last, k));
        let shown = app.exposed(surfaces);
        assert(shown == app.exposed(front) + known);
        assert forall|j: int| 0 <= j < places.len() implies ({
            let info = info_at(surfaces, #[trigger] places[j]);
            &&& shows_at(app, surfaces, places[j], shown[j].terminal_id)
            &&& shown[j].pane_id == info.id
            &&& shown[j].rows == info.inner_rect.height
            &&& shown[j].cols == info.inner_rect.width
        }) by {
            if j < before.len() {
                assert(places[j] == before[j]);
                assert(shown[j] == app.exposed(front)[j]);
                assert(front[before[j].0] == surfaces[before[j].0]);
                assert(shows_at(app, front, before[j], shown[j].terminal_id));
            } else {
                let k = more[j - before.len()];
                assert(places[j] == (last, k));
                assert(shown[j] == known[j - before.len()]);
            }
        }
        assert forall|i: int, j: int| 0 <= i < j < places.len() implies earlier(
            #[trigger] places[i],
            #[trigger] places[j],
        ) by {
            if j < before.len() {
                assert(earlier(before[i], before[j]));
            } else if i < before.len() {
                assert(shows_at(app, front, before[i], app.exposed(front)[i].terminal_id));
            } else {
                assert(more[i - before.len()] < more[j - before.len()]);
            }
        }
        assert forall|place: (int, int), id: TerminalId| #[trigger]
            shows_at(app, surfaces, place, id) implies places.contains(place) by {
            if place.0 < last {
                assert(front[place.0] == surfaces[place.0]);
                assert(shows_at(app, front, place, id));
                let j = choose|j: int| 0 <= j < before.len() && before[j] == place;
                assert(places[j] == place);
            } else {
                assert(surface.pane_infos@[place.1].inner_rect.width > 0);
                assert(more.contains(place.1));
                let j = choose|j: int| 0 <= j < more.len() && more[j] == place.1;
                assert(places[before.len() + j] == place);
            }
        }
        places
    }
}

/// A terminal is shown exactly where some surface has room for a tab that there
/// is, and some pane of that tab has room there and is attached to the terminal.
pub proof fn terminal_is_shown_where_a_pane_has_room(
    app: App,
    surfaces: Seq<TabSurface>,
    id: TerminalId,
)
    ensures
        shows(app.exposed(surfaces), id) <==> exists|place: (int, int)| #[trigger]
            shows_at(app, surfaces, place, id),
{
    let shown = app.exposed(surfaces);
    let places = lemma_places(app, surfaces);
    if shows(shown, id) {
        let j = choose|j: int| 0 <= j < shown.len() && (#[trigger] shown[j]).terminal_id == id;
        assert(shows_at(app, surfaces, places[j], id));
    }
    if exists|place: (int, int)| #[trigger] shows_at(app, surfaces, place, id) {
        let place = choose|place: (int, int)| #[trigger] shows_at(app, surfaces, place, id);
        assert(places.contains(place));
        let j = choose|j: int| 0 <= j < places.len() && places[j] == place;
        assert(shows_at(app, surfaces, places[j], shown[j].terminal_id));
        assert(shown[j].terminal_id == id);
    }
}

/// Whether `candidates[i]` comes from `shown[at]`, where its terminal is first
/// shown.
spec fn comes_from(resumes: Resumes, shown: Seq<Exposure>, i: int, at: int) -> bool {
    &&& 0 <= at < shown.len()
    &&& resumes.candidates(shown)[i] == resumes.candidate(shown[at])
    &&& resumes.resumable(shown[at].terminal_id)
    &&& !shows(shown.take(at), shown[at].terminal_id)
}

proof fn lemma_candidate_sources(resumes: Resumes, shown: Seq<Exposure>) -> (from: Seq<int>)
    ensures
        from.len() == resumes.candidates(shown).len(),
        forall|i: int| 0 <= i < from.len() ==> comes_from(resumes, shown, i, #[trigger] from[i]),
        forall|i: int, j: int|
            0 <= i < j < from.len() ==> #[trigger] from[i] < #[trigger] from[j],
    decreases shown.len(),
{
    if shown.len() == 0 {
        Seq::empty()
    } else {
        let front = shown.drop_last();
        let last = shown.len() - 1;
        let before = lemma_candidate_sources(resumes, front);
        let grows = resumes.candidates(shown).len() > resumes.candidates(front).len();
        let from = if grows {
            before.push(last)
        } else {
            before
        };
        assert forall|i: int| 0 <= i < from.len() implies comes_from(
            resumes,
            shown,
            i,
            #[trigger] from[i],
        ) by {
            if i < before.len() {
                assert(from[i] == before[i]);
                assert(comes_from(resumes, front, i, before[i]));
                assert(front.take(before[i]) =~= shown.take(before[i]));
            } else {
                assert(shown.take(last) =~= front);
            }
        }
        assert forall|i: int, j: int| 0 <= i < j < from.len() implies #[trigger] from[i]
            < #[trigger] from[j] by {
            assert(comes_from(resumes, front, i, before[i]));
        }
        from
    }
}

/// The agents to resume on a list of surfaces are those of all waiting terminals
/// that any of the surfaces show and in which nothing runs, each once. They come
/// in the order in which the terminals are first shown. Each has the pane and the
/// size of that first place, and its terminal's directory and plan.
pub proof fn agents_to_resume_are_those_shown(app: App, surfaces: Seq<TabSurface>) -> (places: Seq<
    (int, int),
>)
    ensures
        ({
            let agents = app.resume_candidates(surfaces);
            let terminals = app.state.terminals@;
            &&& places.len() == agents.len()
            &&& forall|i: int|
                0 <= i < agents.len() ==> {
                    let agent = #[trigger] agents[i];
                    let info = info_at(surfaces, places[i]);
                    let terminal = terminals[agent.terminal_id];
                    &&& first_shows_at(app, surfaces, places[i], agent.terminal_id)
                    &&& agent.pane_id == info.id
                    &&& agent.rows == info.inner_rect.height
                    &&& agent.cols == info.inner_rect.width
                    &&& terminals.contains_key(agent.terminal_id)
                    &&& !app.terminal_runtimes@.contains_key(agent.terminal_id)
                    &&& agent.cwd == path_of(terminal.cwd)
                    &&& terminal.pending_agent_resume_plan matches Some(plan)
                    &&& agent.plan.agent == plan.agent@
                    &&& agent.plan.dedupe_key == plan.dedupe_key@
                    &&& agent.plan.argv.len() == plan.argv@.len()
                    &&& forall|k: int|
                        0 <= k < plan.argv@.len() ==> #[trigger] agent.plan.argv[k]
                            == plan.argv@[k]@
                }
            &&& forall|i: int, j: int|
                0 <= i < j < agents.len() ==> earlier(#[trigger] places[i], #[trigger] places[j])
            &&& forall|id: TerminalId, place: (int, int)| #[trigger]
                shows_at(app, surfaces, place, id) && terminals.contains_key(id)
                    && terminals[id].pending_agent_resume_plan is Some
                    && !app.terminal_runtimes@.contains_key(id) ==> exists|i: int|
                    0 <= i < agents.len() && (#[trigger] agents[i]).terminal_id == id
        }),
{
    let resumes = app.resumes();
    let shown = app.exposed(surfaces);
    let agents = app.resume_candidates(surfaces);
    let all = lemma_places(app, surfaces);
    let from = lemma_candidate_sources(resumes, shown);
    let places = Seq::new(from.len(), |i: int| all[from[i]]);
    let terminals = app.state.terminals@;
    assert forall|i: int| 0 <= i < agents.len() implies first_shows_at(
        app,
        surfaces,
        places[i],
        (#[trigger] agents[i]).terminal_id,
    ) && agents[i] == resumes.candidate(shown[from[i]]) && resumes.resumable(
        agents[i].terminal_id,
    ) by {
        assert(comes_from(resumes, shown, i, from[i]));
        assert(places[i] == all[from[i]]);
        lemma_first_place(app, surfaces, all, from[i]);
    }
    assert forall|i: int, j: int| 0 <= i < j < agents.len() implies earlier(
        #[trigger] places[i],
        #[trigger] places[j],
    ) by {
        assert(comes_from(resumes, shown, i, from[i]));
        assert(comes_from(resumes, shown, j, from[j]));
        assert(from[i] < from[j]);
        assert(earlier(all[from[i]], all[from[j]]));
    }
    assert forall|i: int| 0 <= i < agents.len() implies ({
        let info = info_at(surfaces, places[i]);
        &&& (#[trigger] agents[i]).pane_id == info.id
        &&& agents[i].rows == info.inner_rect.height
        &&& agents[i].cols == info.inner_rect.width
    }) by {
        assert(comes_from(resumes, shown, i, from[i]));
        assert(places[i] == all[from[i]]);
        assert(shown[from[i]].pane_id == info_at(surfaces, all[from[i]]).id);
    }
    assert forall|id: TerminalId, place: (int, int)| #[trigger]
        shows_at(app, surfaces, place, id) && terminals.contains_key(id)
            && terminals[id].pending_agent_resume_plan is Some
            && !app.terminal_runtimes@.contains_key(id) implies exists|i: int|
        0 <= i < agents.len() && (#[trigger] agents[i]).terminal_id == id by {
        terminal_is_shown_where_a_pane_has_room(app, surfaces, id);
        candidates_are_the_resumable_terminals_shown(resumes, shown, id);
    }
    places
}

/// What is shown at `at` for the first time is shown there first by its place.
proof fn lemma_first_place(app: App, surfaces: Seq<TabSurface>, all: Seq<(int, int)>, at: int)
    requires
        0 <= at < all.len(),
        all.len() == app.exposed(surfaces).len(),
        forall|j: int|
            0 <= j < all.len() ==> shows_at(
                app,
                surfaces,
                #[trigger] all[j],
                app.exposed(surfaces)[j].terminal_id,
            ),
        forall|i: int, j: int|
            0 <= i < j < all.len() ==> earlier(#[trigger] all[i], #[trigger] all[j]),
        forall|place: (int, int), id: TerminalId| #[trigger]
            shows_at(app, surfaces, place, id) ==> all.contains(place),
        !shows(app.exposed(surfaces).take(at), app.exposed(surfaces)[at].terminal_id),
    ensures
        first_shows_at(app, surfaces, all[at], app.exposed(surfaces)[at].terminal_id),
{
    let shown = app.exposed(surfaces);
    let id = shown[at].terminal_id;
    assert forall|other: (int, int)| #[trigger]
        shows_at(app, surfaces, other, id) implies !earlier(other, all[at]) by {
        assert(all.contains(other));
        let j = choose|j: int| 0 <= j < all.len() && all[j] == other;
        assert(shows_at(app, surfaces, all[j], shown[j].terminal_id));
        if j < at {
            assert(shown.take(at)[j].terminal_id == id);
        } else if j > at {
            assert(earlier(all[at], all[j]));
        }
    }
}

/// What a second list of surfaces shows adds to the first: every agent that one
/// of two lists has resumed, both lists together have resumed.
pub proof fn more_surfaces_lose_no_agent(
    app: App,
    a: Seq<TabSurface>,
    b: Seq<TabSurface>,
    id: TerminalId,
)
    ensures
        shows(app.exposed(a + b), id) <==> shows(app.exposed(a), id) || shows(app.exposed(b), id),
{
    let both = a + b;
    terminal_is_shown_where_a_pane_has_room(app, a, id);
    terminal_is_shown_where_a_pane_has_room(app, b, id);
    terminal_is_shown_where_a_pane_has_room(app, both, id);
    if shows(app.exposed(a), id) {
        let place = choose|place: (int, int)| #[trigger] shows_at(app, a, place, id);
        assert(both[place.0] == a[place.0]);
        assert(shows_at(app, both, place, id));
    }
    if shows(app.exposed(b), id) {
        let place = choose|place: (int, int)| #[trigger] shows_at(app, b, place, id);
        let moved = (place.0 + a.len(), place.1);
        assert(both[moved.0] == b[place.0]);
        assert(shows_at(app, both, moved, id));
    }
    if shows(app.exposed(both), id) {
        let place = choose|place: (int, int)| #[trigger] shows_at(app, both, place, id);
        if place.0 < a.len() {
            assert(both[place.0] == a[place.0]);
            assert(shows_at(app, a, place, id));
        } else {
            let moved = (place.0 - a.len(), place.1);
            assert(both[place.0] == b[moved.0]);
            assert(shows_at(app, b, moved, id));
        }
    }
}

} // verus!
