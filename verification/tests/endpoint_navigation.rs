use herdr::endpoint::{ClientEndpointId, EndpointSet};
use herdr::geometry::Rect;
use herdr::shell_state::{
    AgentHit, AgentTarget, ClientEndpoint, ClientEndpointFocusTarget, ClientEndpointStatus,
    ClientPane, ClientShellAction, ClientShellCommand, ClientShellCommandAction,
    ClientShellConfig, ClientShellHits, ClientShellInput, ClientShellState,
    ClientSidebarActionTarget, ClientSnapshot, ClientWorkspace, ClientWorkspacePress,
    ClientWorktree, CommandInvokeParams, EndpointAgentHit, KeybindAction, MachineHit, Method,
    PaneTarget, TabTarget, WorkspaceEntry, WorkspaceHit, WorkspaceTarget,
};

const MS: u64 = 1_000_000;

fn remote(name: &str) -> ClientEndpointId {
    ClientEndpointId::Remote(name.to_string())
}

fn rect(x: u16, y: u16, width: u16, height: u16) -> Rect {
    Rect { x, y, width, height }
}

fn workspace(id: &str) -> ClientWorkspace {
    ClientWorkspace {
        workspace_id: id.to_string(),
        worktree: None,
    }
}

fn pane(id: &str, tab_id: &str, workspace_id: &str) -> ClientPane {
    ClientPane {
        pane_id: id.to_string(),
        tab_id: tab_id.to_string(),
        workspace_id: workspace_id.to_string(),
    }
}

fn command(id: &str, action: ClientShellCommandAction, labels: &[&str]) -> ClientShellCommand {
    ClientShellCommand {
        command_id: id.to_string(),
        action,
        binding_labels: labels.iter().map(|label| label.to_string()).collect(),
    }
}

fn snapshot(workspaces: &[&str], panes: Vec<ClientPane>) -> ClientSnapshot {
    ClientSnapshot {
        workspaces: workspaces.iter().map(|id| workspace(id)).collect(),
        workspace_entries: (0..workspaces.len()).map(|index| WorkspaceEntry { index }).collect(),
        panes,
        commands: vec![
            command("other", ClientShellCommandAction::Other, &["open"]),
            command("wrong", ClientShellCommandAction::PluginAction, &["close"]),
            command("plugin", ClientShellCommandAction::PluginAction, &["edit", "open"]),
        ],
        focused_workspace_id: None,
        focused_pane_id: None,
    }
}

fn endpoint(
    id: ClientEndpointId,
    label: &str,
    status: ClientEndpointStatus,
    snapshot: Option<ClientSnapshot>,
) -> ClientEndpoint {
    ClientEndpoint {
        endpoint_id: id,
        label: label.to_string(),
        status,
        snapshot,
    }
}

fn local_snapshot() -> ClientSnapshot {
    snapshot(&["l1", "l2"], vec![pane("p1", "t1", "l1"), pane("p2", "t2", "l2")])
}

fn remote_snapshot() -> ClientSnapshot {
    snapshot(&["r1"], vec![pane("q1", "u1", "r1")])
}

/// The local machine, the online machine `a` and the offline machine `b`, with
/// the local one displayed.
fn state() -> ClientShellState {
    ClientShellState {
        config: ClientShellConfig {
            workspace_open_command: Some("open".to_string()),
        },
        hits: ClientShellHits {
            endpoint_agents: vec![],
            agents: vec![],
            workspaces: vec![],
            machines: vec![],
        },
        endpoints: vec![
            endpoint(
                ClientEndpointId::Local,
                "here",
                ClientEndpointStatus::Online,
                Some(local_snapshot()),
            ),
            endpoint(
                remote("a"),
                "Machine A",
                ClientEndpointStatus::Online,
                Some(remote_snapshot()),
            ),
            endpoint(
                remote("b"),
                "Machine B",
                ClientEndpointStatus::Offline,
                Some(snapshot(&["x1"], vec![])),
            ),
        ],
        active_endpoint_id: ClientEndpointId::Local,
        snapshot: Some(local_snapshot()),
        multi_endpoint: true,
        collapsed_endpoints: EndpointSet::new(),
        endpoint_error: None,
        last_sidebar_action_click: None,
    }
}

/// The same, with `a` displayed.
fn state_on_a() -> ClientShellState {
    let mut state = state();
    state.active_endpoint_id = remote("a");
    state.snapshot = Some(remote_snapshot());
    state
}

fn input() -> ClientShellInput {
    ClientShellInput {
        repaint: false,
        actions: vec![],
    }
}

fn activation(id: ClientEndpointId, target: Option<ClientEndpointFocusTarget>) -> ClientShellAction {
    ClientShellAction::ActivateEndpoint {
        endpoint_id: id,
        target,
    }
}

fn to_workspace(id: &str) -> ClientEndpointFocusTarget {
    ClientEndpointFocusTarget::Workspace(id.to_string())
}

fn to_pane(id: &str) -> ClientEndpointFocusTarget {
    ClientEndpointFocusTarget::Pane(id.to_string())
}

fn workspace_focus(id: &str) -> ClientShellAction {
    ClientShellAction::EndpointMethod(Method::WorkspaceFocus(WorkspaceTarget {
        workspace_id: id.to_string(),
    }))
}

fn target(id: ClientEndpointId, workspace_id: &str, pane_id: Option<&str>) -> ClientSidebarActionTarget {
    ClientSidebarActionTarget {
        endpoint_id: id,
        workspace_id: workspace_id.to_string(),
        pane_id: pane_id.map(|id| id.to_string()),
    }
}

fn invocation(workspace_id: &str, tab_id: Option<&str>, pane_id: Option<&str>) -> ClientShellAction {
    ClientShellAction::EndpointMethod(Method::CommandInvoke(CommandInvokeParams {
        command_id: "plugin".to_string(),
        workspace_id: Some(workspace_id.to_string()),
        tab_id: tab_id.map(|id| id.to_string()),
        pane_id: pane_id.map(|id| id.to_string()),
        selection: None,
    }))
}

#[test]
fn a_sidebar_target_is_an_agent_before_a_workspace() {
    let mut state = state();
    state.hits.endpoint_agents.push(EndpointAgentHit {
        rect: rect(0, 0, 10, 1),
        endpoint_id: remote("a"),
        pane_id: "q1".to_string(),
    });
    state.hits.agents.push(AgentHit {
        rect: rect(0, 0, 10, 2),
        pane_id: "p2".to_string(),
    });
    state.hits.workspaces.push(WorkspaceHit {
        rect: rect(0, 0, 10, 3),
        endpoint_id: remote("a"),
        workspace_id: "r1".to_string(),
    });
    assert_eq!(
        state.sidebar_action_target_at((3, 0)),
        Some(target(remote("a"), "r1", Some("q1")))
    );
    assert_eq!(
        state.sidebar_action_target_at((3, 1)),
        Some(target(ClientEndpointId::Local, "l2", Some("p2")))
    );
    assert_eq!(
        state.sidebar_action_target_at((3, 2)),
        Some(target(remote("a"), "r1", None))
    );
    assert_eq!(state.sidebar_action_target_at((3, 3)), None);
    assert_eq!(state.sidebar_action_target_at((10, 0)), None);
}

#[test]
fn an_unknown_agent_hides_what_lies_below_it() {
    for (id, pane_id) in [(remote("a"), "gone"), (remote("nowhere"), "q1")] {
        let mut state = state();
        state.hits.endpoint_agents.push(EndpointAgentHit {
            rect: rect(0, 0, 10, 1),
            endpoint_id: id,
            pane_id: pane_id.to_string(),
        });
        state.hits.workspaces.push(WorkspaceHit {
            rect: rect(0, 0, 10, 1),
            endpoint_id: remote("a"),
            workspace_id: "r1".to_string(),
        });
        assert_eq!(state.sidebar_action_target_at((0, 0)), None);
    }
    let mut state = state();
    state.hits.agents.push(AgentHit {
        rect: rect(0, 0, 10, 1),
        pane_id: "p1".to_string(),
    });
    state.snapshot = None;
    assert_eq!(state.sidebar_action_target_at((0, 0)), None);
}

#[test]
fn the_open_command_is_invoked_on_a_workspace_or_a_pane() {
    let mut state = state();
    let mut outcome = input();
    assert!(state.invoke_sidebar_workspace_action(
        target(ClientEndpointId::Local, "l1", None),
        &mut outcome
    ));
    assert!(state.invoke_sidebar_workspace_action(
        target(ClientEndpointId::Local, "l2", Some("p2")),
        &mut outcome
    ));
    assert_eq!(
        outcome.actions,
        vec![invocation("l1", None, None), invocation("l2", Some("t2"), Some("p2"))]
    );
    assert!(!outcome.repaint);
    assert_eq!(state.endpoint_error, None);
}

#[test]
fn the_open_command_needs_a_known_target_on_the_active_endpoint() {
    for sought in [
        target(remote("a"), "r1", None),
        target(ClientEndpointId::Local, "gone", None),
        target(ClientEndpointId::Local, "l1", Some("gone")),
        target(ClientEndpointId::Local, "l1", Some("p2")),
    ] {
        let mut state = state();
        let mut outcome = input();
        assert!(!state.invoke_sidebar_workspace_action(sought, &mut outcome));
        assert_eq!(outcome, input());
        assert_eq!(state.endpoint_error, None);
    }
    let mut unset = state();
    unset.config.workspace_open_command = None;
    let mut blind = state();
    blind.snapshot = None;
    for mut state in [unset, blind] {
        let mut outcome = input();
        assert!(!state.invoke_sidebar_workspace_action(
            target(ClientEndpointId::Local, "l1", None),
            &mut outcome
        ));
        assert_eq!(outcome, input());
        assert_eq!(state.endpoint_error, None);
    }
}

#[test]
fn the_open_command_has_to_be_the_only_one() {
    let mut none = state();
    none.snapshot.as_mut().unwrap().commands.pop();
    let mut two = state();
    two.snapshot.as_mut().unwrap().commands.push(command(
        "again",
        ClientShellCommandAction::PluginAction,
        &["open"],
    ));
    for mut state in [none, two] {
        let mut outcome = input();
        assert!(!state.invoke_sidebar_workspace_action(
            target(ClientEndpointId::Local, "l1", None),
            &mut outcome
        ));
        assert_eq!(
            state.endpoint_error.as_deref(),
            Some("sidebar open command open is not uniquely available; reload configuration")
        );
        assert!(outcome.repaint);
        assert!(outcome.actions.is_empty());
    }
}

#[test]
fn a_burst_of_clicks_opens_once() {
    let mut state = state();
    let mut outcome = input();
    for (now, opened) in [(0, 0), (350, 1), (600, 1), (950, 1), (1301, 1), (1400, 2)] {
        state.record_sidebar_action_click(
            target(ClientEndpointId::Local, "l1", None),
            now * MS,
            &mut outcome,
        );
        assert_eq!(outcome.actions.len(), opened, "at {now} ms");
    }
    assert_eq!(outcome.actions[0], invocation("l1", None, None));
}

#[test]
fn a_second_click_one_nanosecond_late_opens_nothing() {
    let mut state = state();
    let mut outcome = input();
    for now in [0, 350 * MS + 1] {
        state.record_sidebar_action_click(
            target(ClientEndpointId::Local, "l1", None),
            now,
            &mut outcome,
        );
    }
    assert!(outcome.actions.is_empty());
    let click = state.last_sidebar_action_click.unwrap();
    assert_eq!(click.at, 350 * MS + 1);
    assert!(!click.invoked);
}

#[test]
fn a_click_dated_before_the_last_one_is_in_its_burst() {
    let mut state = state();
    let mut outcome = input();
    for now in [1_000 * MS, 0] {
        state.record_sidebar_action_click(
            target(ClientEndpointId::Local, "l1", None),
            now,
            &mut outcome,
        );
    }
    assert_eq!(outcome.actions.len(), 1);
    assert_eq!(state.last_sidebar_action_click.unwrap().at, 0);
}

#[test]
fn clicks_on_different_targets_are_no_burst() {
    let mut state = state();
    let mut outcome = input();
    for (now, workspace_id, pane_id) in
        [(0, "l1", None), (10, "l2", None), (20, "l2", Some("p2")), (30, "l1", None)]
    {
        state.record_sidebar_action_click(
            target(ClientEndpointId::Local, workspace_id, pane_id),
            now * MS,
            &mut outcome,
        );
    }
    assert!(outcome.actions.is_empty());
}

#[test]
fn a_click_elsewhere_or_without_a_command_forgets_the_last_one() {
    let mut unset = state();
    unset.config.workspace_open_command = None;
    for (mut state, id) in [(state(), remote("a")), (unset, ClientEndpointId::Local)] {
        let mut outcome = input();
        let command = state.config.workspace_open_command.take();
        state.config.workspace_open_command = Some("open".to_string());
        state.record_sidebar_action_click(
            target(ClientEndpointId::Local, "l1", None),
            0,
            &mut outcome,
        );
        assert!(state.last_sidebar_action_click.is_some());
        state.config.workspace_open_command = command;
        state.record_sidebar_action_click(target(id, "l1", None), MS, &mut outcome);
        assert_eq!(state.last_sidebar_action_click, None);
        assert_eq!(outcome, input());
    }
}

#[test]
fn a_failed_open_still_ends_the_burst() {
    let mut state = state();
    state.snapshot.as_mut().unwrap().commands.clear();
    let mut outcome = input();
    for now in [0, 100] {
        state.record_sidebar_action_click(
            target(ClientEndpointId::Local, "l1", None),
            now * MS,
            &mut outcome,
        );
    }
    assert!(state.endpoint_error.is_some());
    assert!(state.last_sidebar_action_click.as_ref().unwrap().invoked);
    state.endpoint_error = None;
    state.record_sidebar_action_click(
        target(ClientEndpointId::Local, "l1", None),
        200 * MS,
        &mut outcome,
    );
    assert_eq!(state.endpoint_error, None);
}

#[test]
fn only_unlinked_workspaces_of_the_active_endpoint_are_draggable() {
    let press = |id: ClientEndpointId, workspace_id: &str| ClientWorkspacePress {
        endpoint_id: id,
        workspace_id: workspace_id.to_string(),
    };
    let mut state = state();
    state.snapshot.as_mut().unwrap().workspaces[1].worktree = Some(ClientWorktree {
        is_linked_worktree: true,
    });
    assert!(state.endpoint_workspace_is_draggable(&press(ClientEndpointId::Local, "l1")));
    assert!(!state.endpoint_workspace_is_draggable(&press(ClientEndpointId::Local, "l2")));
    assert!(!state.endpoint_workspace_is_draggable(&press(ClientEndpointId::Local, "gone")));
    assert!(!state.endpoint_workspace_is_draggable(&press(remote("a"), "l1")));
    state.snapshot.as_mut().unwrap().workspaces[1].worktree = Some(ClientWorktree {
        is_linked_worktree: false,
    });
    assert!(state.endpoint_workspace_is_draggable(&press(ClientEndpointId::Local, "l2")));
    state.snapshot = None;
    assert!(!state.endpoint_workspace_is_draggable(&press(ClientEndpointId::Local, "l1")));
}

#[test]
fn a_press_focuses_on_the_active_machine_and_activates_another() {
    let mut state = state_on_a();
    let mut outcome = input();
    for (id, workspace_id) in [(remote("a"), "r1"), (ClientEndpointId::Local, "l1")] {
        state.finish_endpoint_workspace_press(
            ClientWorkspacePress {
                endpoint_id: id,
                workspace_id: workspace_id.to_string(),
            },
            &mut outcome,
        );
    }
    assert_eq!(
        outcome.actions,
        vec![
            workspace_focus("r1"),
            activation(ClientEndpointId::Local, Some(to_workspace("l1")))
        ]
    );
    assert!(!outcome.repaint);
}

#[test]
fn each_kind_of_target_is_focused_by_its_request() {
    let mut state = state_on_a();
    let mut outcome = input();
    assert!(state.focus_or_activate(remote("a"), to_workspace("w"), &mut outcome));
    assert!(state.focus_or_activate(
        remote("a"),
        ClientEndpointFocusTarget::Tab("t".to_string()),
        &mut outcome
    ));
    assert!(state.focus_or_activate(remote("a"), to_pane("p"), &mut outcome));
    assert_eq!(
        outcome.actions,
        vec![
            workspace_focus("w"),
            ClientShellAction::EndpointMethod(Method::TabFocus(TabTarget {
                tab_id: "t".to_string()
            })),
            ClientShellAction::EndpointMethod(Method::PaneFocus(PaneTarget {
                pane_id: "p".to_string()
            })),
        ]
    );
}

#[test]
fn a_local_selection_goes_through_the_runtime_beside_other_machines() {
    let mut multi = state();
    let mut offline = state();
    offline.multi_endpoint = false;
    offline.endpoints[0].status = ClientEndpointStatus::Offline;
    for state in [&mut multi, &mut offline] {
        let mut outcome = input();
        assert!(state.focus_or_activate(
            ClientEndpointId::Local,
            to_workspace("l1"),
            &mut outcome
        ));
        assert!(state.activate_endpoint(ClientEndpointId::Local, &mut outcome));
        assert_eq!(
            outcome.actions,
            vec![
                activation(ClientEndpointId::Local, Some(to_workspace("l1"))),
                activation(ClientEndpointId::Local, None)
            ]
        );
    }
    let mut alone = state();
    alone.multi_endpoint = false;
    let mut outcome = input();
    assert!(alone.focus_or_activate(ClientEndpointId::Local, to_workspace("l1"), &mut outcome));
    assert!(alone.activate_endpoint(ClientEndpointId::Local, &mut outcome));
    assert_eq!(outcome.actions, vec![workspace_focus("l1")]);
}

#[test]
fn a_machine_that_is_not_online_is_refused_by_its_label() {
    for (id, message) in [
        (remote("b"), "Machine B is not ready"),
        (remote("unknown"), "unknown is not ready"),
    ] {
        let mut state = state();
        let mut outcome = input();
        assert!(!state.activate_endpoint(id.clone(), &mut outcome));
        assert_eq!(state.endpoint_error.as_deref(), Some(message));
        assert!(outcome.repaint);
        state.endpoint_error = None;
        assert!(!state.focus_or_activate(id, to_pane("p"), &mut outcome));
        assert_eq!(state.endpoint_error.as_deref(), Some(message));
        assert!(outcome.actions.is_empty());
    }
}

#[test]
fn the_active_machine_needs_no_activation() {
    let mut state = state_on_a();
    let mut outcome = input();
    assert!(state.activate_endpoint(remote("a"), &mut outcome));
    assert_eq!(outcome, input());
    assert!(state.activate_endpoint(ClientEndpointId::Local, &mut outcome));
    assert_eq!(outcome.actions, vec![activation(ClientEndpointId::Local, None)]);
}

fn with_machine(mut state: ClientShellState, id: ClientEndpointId) -> ClientShellState {
    state.hits.machines.push(MachineHit {
        rect: rect(0, 0, 20, 1),
        collapse_toggle: rect(0, 0, 2, 1),
        endpoint_id: id,
    });
    state
}

#[test]
fn a_click_on_another_machine_activates_it() {
    for id in [remote("a"), remote("b")] {
        let mut state = with_machine(state(), id.clone());
        let mut outcome = input();
        assert!(!state.handle_endpoint_machine_click((0, 1), &mut outcome));
        assert_eq!(outcome, input());
        assert!(state.handle_endpoint_machine_click((5, 0), &mut outcome));
        if id == remote("a") {
            assert_eq!(outcome.actions, vec![activation(id, None)]);
            assert!(!outcome.repaint);
        } else {
            assert!(outcome.actions.is_empty());
            assert!(outcome.repaint);
            assert_eq!(state.endpoint_error.as_deref(), Some("Machine B is not ready"));
        }
    }
}

#[test]
fn a_click_on_the_toggle_collapses_and_opens_again() {
    for id in [remote("b"), ClientEndpointId::Local] {
        let mut state = with_machine(state(), id.clone());
        for collapsed in [true, false] {
            let mut outcome = input();
            assert!(state.handle_endpoint_machine_click((1, 0), &mut outcome));
            assert_eq!(state.collapsed_endpoints.contains(&id), collapsed);
            assert!(outcome.repaint);
            assert!(outcome.actions.is_empty());
        }
    }
}

#[test]
fn a_click_on_the_active_machine_collapses_it() {
    let mut here = with_machine(state(), ClientEndpointId::Local);
    let mut outcome = input();
    assert!(here.handle_endpoint_machine_click((5, 0), &mut outcome));
    assert!(here.collapsed_endpoints.contains(&ClientEndpointId::Local));
    assert_eq!(outcome.actions, vec![activation(ClientEndpointId::Local, None)]);
    assert!(outcome.repaint);

    let mut there = with_machine(state_on_a(), remote("a"));
    let mut outcome = input();
    assert!(there.handle_endpoint_machine_click((5, 0), &mut outcome));
    assert!(there.collapsed_endpoints.contains(&remote("a")));
    assert!(outcome.actions.is_empty());
}

#[test]
fn a_click_on_an_agent_goes_to_its_pane() {
    let mut state = state_on_a();
    state.hits.endpoint_agents.push(EndpointAgentHit {
        rect: rect(0, 0, 10, 1),
        endpoint_id: remote("a"),
        pane_id: "q1".to_string(),
    });
    let mut outcome = input();
    assert!(!state.handle_endpoint_agent_click((0, 1), &mut outcome));
    assert_eq!(outcome, input());
    assert!(state.handle_endpoint_agent_click((9, 0), &mut outcome));
    assert_eq!(
        outcome.actions,
        vec![ClientShellAction::EndpointMethod(Method::PaneFocus(PaneTarget {
            pane_id: "q1".to_string()
        }))]
    );
}

fn step(state: &mut ClientShellState, action: KeybindAction, agents: &Vec<AgentTarget>) -> Vec<ClientShellAction> {
    let mut outcome = input();
    assert!(state.handle_endpoint_navigation(action, agents, &mut outcome));
    outcome.actions
}

#[test]
fn workspace_steps_walk_over_the_machines_that_are_online() {
    let mut state = state();
    state.snapshot.as_mut().unwrap().focused_workspace_id = Some("l2".to_string());
    assert_eq!(
        step(&mut state, KeybindAction::NextWorkspace, &vec![]),
        vec![activation(remote("a"), Some(to_workspace("r1")))]
    );
    assert_eq!(
        step(&mut state, KeybindAction::PreviousWorkspace, &vec![]),
        vec![activation(ClientEndpointId::Local, Some(to_workspace("l1")))]
    );

    let mut state = state_on_a();
    state.snapshot.as_mut().unwrap().focused_workspace_id = Some("r1".to_string());
    assert_eq!(
        step(&mut state, KeybindAction::NextWorkspace, &vec![]),
        vec![activation(ClientEndpointId::Local, Some(to_workspace("l1")))]
    );
    assert_eq!(
        step(&mut state, KeybindAction::PreviousWorkspace, &vec![]),
        vec![activation(ClientEndpointId::Local, Some(to_workspace("l2")))]
    );
}

#[test]
fn workspace_steps_without_a_focus_begin_at_an_end() {
    let mut state = state_on_a();
    assert_eq!(
        step(&mut state, KeybindAction::NextWorkspace, &vec![]),
        vec![activation(ClientEndpointId::Local, Some(to_workspace("l1")))]
    );
    assert_eq!(
        step(&mut state, KeybindAction::PreviousWorkspace, &vec![]),
        vec![workspace_focus("r1")]
    );
}

#[test]
fn workspace_steps_follow_the_entries_and_skip_those_out_of_range() {
    let mut state = state();
    state.endpoints[1].status = ClientEndpointStatus::Offline;
    state.endpoints[0].snapshot.as_mut().unwrap().workspace_entries =
        vec![WorkspaceEntry { index: 1 }, WorkspaceEntry { index: 9 }, WorkspaceEntry { index: 0 }];
    state.snapshot.as_mut().unwrap().focused_workspace_id = Some("l2".to_string());
    assert_eq!(
        step(&mut state, KeybindAction::NextWorkspace, &vec![]),
        vec![activation(ClientEndpointId::Local, Some(to_workspace("l1")))]
    );
}

#[test]
fn steps_without_a_stop_do_nothing() {
    let mut state = state();
    state.endpoints.clear();
    for action in [
        KeybindAction::NextWorkspace,
        KeybindAction::PreviousWorkspace,
        KeybindAction::NextAgent,
        KeybindAction::PreviousAgent,
        KeybindAction::FocusAgent(0),
    ] {
        assert!(step(&mut state, action, &vec![]).is_empty());
    }
}

#[test]
fn agent_steps_wrap_around() {
    let agents = vec![
        AgentTarget { endpoint_id: remote("a"), pane_id: "q1".to_string() },
        AgentTarget { endpoint_id: ClientEndpointId::Local, pane_id: "p1".to_string() },
        AgentTarget { endpoint_id: ClientEndpointId::Local, pane_id: "p2".to_string() },
    ];
    let to = |id: ClientEndpointId, pane_id: &str| vec![activation(id, Some(to_pane(pane_id)))];
    let mut state = state();
    state.snapshot.as_mut().unwrap().focused_pane_id = Some("p2".to_string());
    assert_eq!(step(&mut state, KeybindAction::NextAgent, &agents), to(remote("a"), "q1"));
    assert_eq!(
        step(&mut state, KeybindAction::PreviousAgent, &agents),
        to(ClientEndpointId::Local, "p1")
    );
    state.snapshot.as_mut().unwrap().focused_pane_id = Some("q1".to_string());
    assert_eq!(step(&mut state, KeybindAction::NextAgent, &agents), to(remote("a"), "q1"));
    assert_eq!(
        step(&mut state, KeybindAction::PreviousAgent, &agents),
        to(ClientEndpointId::Local, "p2")
    );
    assert_eq!(
        step(&mut state, KeybindAction::FocusAgent(1), &agents),
        to(ClientEndpointId::Local, "p1")
    );
    assert!(step(&mut state, KeybindAction::FocusAgent(3), &agents).is_empty());
}

#[test]
fn navigation_is_left_alone_on_one_machine_and_for_other_actions() {
    let mut alone = state();
    alone.multi_endpoint = false;
    let mut outcome = input();
    assert!(!alone.handle_endpoint_navigation(KeybindAction::NextWorkspace, &vec![], &mut outcome));
    assert!(!state().handle_endpoint_navigation(KeybindAction::Other, &vec![], &mut outcome));
    assert_eq!(outcome, input());
}
