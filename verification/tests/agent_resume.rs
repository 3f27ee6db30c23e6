use herdr::agent_resume::{LaunchOutcome, ResumeRefusal, SpawnRequest};
use herdr::geometry::Rect;
use herdr::resume_round::{ResumeAction, ResumeEvent, ResumeRound, ResumeStage};
use herdr::session::{
    AgentResumePlan, App, AppState, PaneInfo, PaneState, RgbColor, Tab, TabSurface,
    TabSurfaceTarget, TerminalState, TerminalTheme, Workspace,
};
use std::collections::HashMap;
use std::path::{Path, PathBuf};

const WAIT: u64 = 1_000;

fn rect(x: u16, y: u16, width: u16, height: u16) -> Rect {
    Rect { x, y, width, height }
}

fn words(argv: &[&str]) -> Vec<String> {
    argv.iter().map(|word| word.to_string()).collect()
}

fn long_running_test_argv() -> Vec<String> {
    words(&["/bin/sh", "-c", "sleep 5"])
}

fn marker_resume_test_argv() -> Vec<String> {
    words(&[
        "/bin/sh",
        "-c",
        "printf '%s' 'restored agent: shell quoted | marker'; sleep 5",
    ])
}

fn plan(argv: Vec<String>, dedupe_key: &str) -> AgentResumePlan {
    AgentResumePlan {
        agent: "codex".to_string(),
        argv,
        dedupe_key: dedupe_key.to_string(),
    }
}

fn unknown_theme() -> TerminalTheme {
    TerminalTheme::default()
}

fn known_theme() -> TerminalTheme {
    TerminalTheme {
        foreground: Some(RgbColor { r: 220, g: 220, b: 220 }),
        background: Some(RgbColor { r: 20, g: 20, b: 20 }),
        ..Default::default()
    }
}

/// A tab of panes, each attached to the terminal with its number plus 100.
fn tab(pane_ids: &[u64]) -> Tab {
    Tab {
        pane_ids: pane_ids.to_vec(),
        panes: pane_ids
            .iter()
            .map(|id| (*id, PaneState { attached_terminal_id: id + 100 }))
            .collect(),
    }
}

fn test_app(workspaces: Vec<Vec<Tab>>) -> App {
    let workspaces: Vec<Workspace> = workspaces.into_iter().map(|tabs| Workspace { tabs }).collect();
    let mut terminals = HashMap::new();
    for workspace in &workspaces {
        for tab in &workspace.tabs {
            for pane in tab.panes.values() {
                terminals.insert(
                    pane.attached_terminal_id,
                    TerminalState {
                        cwd: PathBuf::from(format!("/work/{}", pane.attached_terminal_id)),
                        pending_agent_resume_plan: None,
                        respawn_shell_on_exit: true,
                    },
                );
            }
        }
    }
    App {
        state: AppState {
            workspaces,
            terminals,
            host_terminal_theme: unknown_theme(),
            host_terminal_appearance: Some("dark".to_string()),
            pane_scrollback_limit_bytes: 4096,
            default_shell: "/bin/sh".to_string(),
            shell_mode: "login".to_string(),
        },
        terminal_runtimes: HashMap::new(),
        pending_agent_resume_deadline: None,
        theme_wait: WAIT,
        session_save_scheduled: false,
    }
}

fn set_plan(app: &mut App, terminal_id: u64, plan: AgentResumePlan) {
    app.state.terminals.get_mut(&terminal_id).unwrap().pending_agent_resume_plan = Some(plan);
}

fn waits(app: &App, terminal_id: u64) -> bool {
    app.state.terminals[&terminal_id].pending_agent_resume_plan.is_some()
}

fn waiting(app: &App) -> usize {
    app.state
        .terminals
        .values()
        .filter(|terminal| terminal.pending_agent_resume_plan.is_some())
        .count()
}

fn surface(workspace_index: usize, tab_index: usize, infos: &[(u64, Rect)]) -> TabSurface {
    TabSurface {
        target: TabSurfaceTarget { workspace_index, tab_index },
        area: rect(0, 0, 100, 30),
        pane_infos: infos.iter().map(|(id, inner_rect)| PaneInfo { id: *id, inner_rect: *inner_rect }).collect(),
    }
}

/// A surface that one pane fills.
fn visible_surface(workspace_index: usize, tab_index: usize, pane_id: u64) -> TabSurface {
    surface(workspace_index, tab_index, &[(pane_id, rect(0, 0, 100, 30))])
}

fn same_surfaces(surfaces: &[TabSurface]) -> Vec<TabSurface> {
    surfaces
        .iter()
        .map(|shown| TabSurface {
            target: shown.target,
            area: shown.area,
            pane_infos: shown.pane_infos.clone(),
        })
        .collect()
}

/// What the outside does, and what it was asked to do.
struct Outside {
    has_env: bool,
    spawns: bool,
    takes: bool,
    now: u64,
    asked: Vec<u64>,
    next_handle: u64,
    spawned: Vec<SpawnRequest>,
    sent: Vec<(u64, Vec<u8>)>,
    shut_down: Vec<u64>,
}

fn outside() -> Outside {
    Outside {
        has_env: true,
        spawns: true,
        takes: true,
        now: 50,
        asked: Vec::new(),
        next_handle: 1,
        spawned: Vec::new(),
        sent: Vec::new(),
        shut_down: Vec::new(),
    }
}

fn run(app: &mut App, round: &mut ResumeRound, surfaces: &[TabSurface], outside: &mut Outside) -> bool {
    let mut event = ResumeEvent::Begin;
    loop {
        assert!(round.expects(&event));
        event = match app.advance_agent_resumes(round, event) {
            ResumeAction::FindLaunchEnv(pane_id) => {
                outside.asked.push(pane_id);
                ResumeEvent::LaunchEnv(if outside.has_env {
                    Some(vec![("PANE".to_string(), format!("{pane_id}"))])
                } else {
                    None
                })
            }
            ResumeAction::Spawn(request) => {
                outside.spawned.push(request);
                let handle = outside.next_handle;
                outside.next_handle += 1;
                ResumeEvent::Spawned(if outside.spawns { Some(handle) } else { None })
            }
            ResumeAction::Send(handle, bytes) => {
                outside.sent.push((handle, bytes.to_vec()));
                ResumeEvent::Sent(outside.takes)
            }
            ResumeAction::Shutdown(handle) => {
                outside.shut_down.push(handle);
                ResumeEvent::ShutDown
            }
            ResumeAction::LayOut => ResumeEvent::LaidOut(same_surfaces(surfaces), outside.now),
            ResumeAction::Finished(changed) => {
                assert_eq!(round.stage, ResumeStage::Finished);
                return changed;
            }
        };
    }
}

fn resume_shown(app: &mut App, surfaces: &[TabSurface], allow_empty_theme: bool) -> bool {
    let mut round = app.start_pending_agent_resumes(surfaces, allow_empty_theme);
    run(app, &mut round, surfaces, &mut outside())
}

fn resume_terminal(app: &mut App, terminal_id: u64, rows: u16, cols: u16) -> bool {
    match app.start_pending_agent_resume_for_terminal(terminal_id, rows, cols, true) {
        Some(mut round) => run(app, &mut round, &[], &mut outside()),
        None => false,
    }
}

#[test]
fn pending_agent_resume_waits_for_host_theme_before_launch() {
    let mut app = test_app(vec![vec![tab(&[1])]]);
    set_plan(
        &mut app,
        101,
        plan(marker_resume_test_argv(), "herdr:codex\0codex\0Id\0codex-session"),
    );
    let surfaces = [visible_surface(0, 0, 1)];

    assert!(!resume_shown(&mut app, &surfaces, false));
    assert!(!app.terminal_runtimes.contains_key(&101));

    app.state.host_terminal_theme = known_theme();

    assert!(resume_shown(&mut app, &surfaces, false));
    assert!(app.terminal_runtimes.contains_key(&101));
    assert!(!waits(&app, 101));
    assert!(!app.state.terminals[&101].respawn_shell_on_exit);
}

#[test]
fn pending_agent_resume_can_launch_after_theme_wait_expires() {
    let mut app = test_app(vec![vec![tab(&[1])]]);
    set_plan(
        &mut app,
        101,
        plan(long_running_test_argv(), "herdr:codex\0codex\0Id\0codex-session"),
    );
    let surfaces = [visible_surface(0, 0, 1)];
    app.sync_pending_agent_resume_deadline(20, &surfaces);
    assert!(!resume_shown(&mut app, &surfaces, false));
    assert!(resume_shown(&mut app, &surfaces, true));
    assert!(app.terminal_runtimes.contains_key(&101));
}

#[test]
fn restored_panes_launch_only_when_exposed_across_workspace_and_tab_surfaces() {
    let mut workspaces = vec![vec![tab(&[1]), tab(&[2])], vec![tab(&[3])]];
    for i in 0..126 {
        workspaces.push(vec![tab(&[1000 + i])]);
    }
    let mut app = test_app(workspaces);
    assert_eq!(app.state.terminals.len(), 129);
    let ids: Vec<u64> = app.state.terminals.keys().copied().collect();
    for id in ids {
        set_plan(&mut app, id, plan(long_running_test_argv(), &format!("session:{id}")));
    }
    app.sync_pending_agent_resume_deadline(20, &[]);
    assert!(!resume_shown(&mut app, &[], true));
    assert!(app.pending_agent_resume_deadline.is_none());
    assert_eq!(waiting(&app), 129);

    let scrolled = surface(0, 0, &[(1, rect(0, 0, 99, 30))]);
    let first_surface = [scrolled];
    let initial_cols = app.pending_agent_resume_candidates(&first_surface)[0].cols;
    assert!(resume_shown(&mut app, &first_surface, true));
    assert!(!resume_shown(&mut app, &first_surface, true));
    assert!(app.terminal_runtimes.contains_key(&101));
    assert_eq!(
        initial_cols, first_surface[0].pane_infos[0].inner_rect.width,
        "a deferred terminal must start at its rendered viewport width",
    );
    assert!(!app.terminal_runtimes.contains_key(&102));
    assert!(!app.terminal_runtimes.contains_key(&103));
    assert_eq!(waiting(&app), 128);

    let both = [visible_surface(0, 0, 1), visible_surface(0, 1, 2)];
    assert!(resume_shown(&mut app, &both, true));
    assert!(app.terminal_runtimes.contains_key(&102));
    assert!(waits(&app, 103));
    assert!(resume_shown(&mut app, &[visible_surface(1, 0, 3)], true));
    assert_eq!(app.terminal_runtimes.len(), 3);
    assert_eq!(waiting(&app), 126);
}

#[test]
fn direct_terminal_attach_starts_an_unexposed_resume_once() {
    let mut app = test_app(vec![vec![tab(&[1])]]);
    set_plan(&mut app, 101, plan(long_running_test_argv(), "direct-terminal"));
    assert!(resume_terminal(&mut app, 101, 24, 80));
    assert!(!resume_terminal(&mut app, 101, 24, 80));
    let runtime = app.terminal_runtimes[&101];
    assert_eq!((runtime.rows, runtime.cols), (24, 80));
    assert!(!waits(&app, 101));
}

#[test]
fn failed_visible_resume_remains_retryable() {
    let mut app = test_app(vec![vec![tab(&[1])]]);
    set_plan(&mut app, 101, plan(vec![], "retry"));
    let surfaces = [visible_surface(0, 0, 1)];
    assert!(!resume_shown(&mut app, &surfaces, true));
    assert!(waits(&app, 101));
    set_plan(&mut app, 101, plan(long_running_test_argv(), "retry"));
    assert!(resume_shown(&mut app, &surfaces, true));
    assert!(!waits(&app, 101));
}

#[test]
fn zoom_hidden_restored_pane_keeps_plan_until_unzoomed() {
    let mut app = test_app(vec![vec![tab(&[1, 2])]]);
    set_plan(&mut app, 101, plan(long_running_test_argv(), "zoom-hidden"));
    let zoomed = [visible_surface(0, 0, 2)];
    assert!(!resume_shown(&mut app, &zoomed, true));
    assert!(waits(&app, 101));
    let unzoomed = [surface(0, 0, &[(1, rect(0, 0, 50, 30)), (2, rect(50, 0, 50, 30))])];
    assert!(resume_shown(&mut app, &unzoomed, true));
    assert!(app.terminal_runtimes.contains_key(&101));
}

#[test]
fn pending_agent_resume_launches_with_inner_rect_size() {
    let mut app = test_app(vec![vec![tab(&[1, 2])]]);
    app.state.host_terminal_theme = known_theme();
    set_plan(
        &mut app,
        102,
        plan(long_running_test_argv(), "herdr:codex\0codex\0Id\0codex-session"),
    );
    let surfaces = [surface(0, 0, &[(2, rect(1, 1, 98, 28))])];
    assert!(resume_shown(&mut app, &surfaces, false));
    let runtime = app.terminal_runtimes[&102];
    assert_eq!((runtime.rows, runtime.cols), (28, 98));
}

#[test]
fn a_launch_starts_the_shell_and_sends_the_command_line() {
    let mut app = test_app(vec![vec![tab(&[1])]]);
    app.state.host_terminal_theme = known_theme();
    set_plan(&mut app, 101, plan(words(&["agent", "it's \u{e9}"]), "key"));
    let surfaces = [surface(0, 0, &[(1, rect(2, 3, 80, 24))])];
    let mut round = app.start_pending_agent_resumes(&surfaces, false);
    let mut host = outside();
    assert!(run(&mut app, &mut round, &surfaces, &mut host));
    assert_eq!(host.sent, vec![(1, "agent 'it'\\''s \u{e9}'\r".as_bytes().to_vec())]);
    assert_eq!(host.spawned.len(), 1);
    let request = &host.spawned[0];
    assert_eq!(request.pane_id, 1);
    assert_eq!((request.rows, request.cols), (24, 80));
    assert_eq!(request.cwd, Path::new("/work/101"));
    assert_eq!(request.scrollback_limit_bytes, 4096);
    assert_eq!(request.theme, known_theme());
    assert_eq!(request.appearance.as_deref(), Some("dark"));
    assert_eq!(request.shell.default_shell, "/bin/sh");
    assert_eq!(request.shell.shell_mode, "login");
    assert_eq!(request.launch_env, vec![("PANE".to_string(), "1".to_string())]);
    assert_eq!(round.outcomes, vec![LaunchOutcome::Sent(1)]);
    assert!(app.session_save_scheduled);
    assert!(host.shut_down.is_empty());
}

#[test]
fn each_refusal_is_recorded_and_changes_nothing() {
    let surfaces = [visible_surface(0, 0, 1)];
    for (argv, has_env, allow, refusal, asked) in [
        (vec![], true, false, ResumeRefusal::ThemePending, vec![]),
        (words(&["agent"]), true, false, ResumeRefusal::ThemePending, vec![]),
        (vec![], false, true, ResumeRefusal::EmptyArgv, vec![]),
        (words(&["agent"]), false, true, ResumeRefusal::NoLaunchEnv, vec![1]),
    ] {
        let mut app = test_app(vec![vec![tab(&[1])]]);
        set_plan(&mut app, 101, plan(argv, "key"));
        let mut round = app.start_pending_agent_resumes(&surfaces, allow);
        let mut host = outside();
        host.has_env = has_env;
        assert!(!run(&mut app, &mut round, &surfaces, &mut host));
        assert_eq!(round.outcomes, vec![LaunchOutcome::Refused(refusal)]);
        assert_eq!(host.asked, asked);
        assert!(host.spawned.is_empty());
        assert!(waits(&app, 101));
        assert!(!app.session_save_scheduled);
    }
}

#[test]
fn a_shell_that_does_not_start_leaves_the_plan() {
    let mut app = test_app(vec![vec![tab(&[1])]]);
    set_plan(&mut app, 101, plan(long_running_test_argv(), "key"));
    let surfaces = [visible_surface(0, 0, 1)];
    let mut round = app.start_pending_agent_resumes(&surfaces, true);
    let mut host = outside();
    host.spawns = false;
    assert!(!run(&mut app, &mut round, &surfaces, &mut host));
    assert_eq!(round.outcomes, vec![LaunchOutcome::SpawnFailed]);
    assert!(waits(&app, 101));
    assert!(app.state.terminals[&101].respawn_shell_on_exit);
    assert!(app.terminal_runtimes.is_empty());
}

#[test]
fn a_shell_that_does_not_take_the_command_is_shut_down() {
    let mut app = test_app(vec![vec![tab(&[1])]]);
    set_plan(&mut app, 101, plan(long_running_test_argv(), "key"));
    let surfaces = [visible_surface(0, 0, 1)];
    let mut round = app.start_pending_agent_resumes(&surfaces, true);
    let mut host = outside();
    host.takes = false;
    host.next_handle = 9;
    assert!(!run(&mut app, &mut round, &surfaces, &mut host));
    assert_eq!(host.shut_down, vec![9]);
    assert_eq!(round.outcomes, vec![LaunchOutcome::SendFailed(9)]);
    assert!(waits(&app, 101));
    assert!(app.terminal_runtimes.is_empty());
}

#[test]
fn a_failed_round_sets_a_new_deadline() {
    let mut app = test_app(vec![vec![tab(&[1])]]);
    set_plan(&mut app, 101, plan(vec![], "key"));
    let surfaces = [visible_surface(0, 0, 1)];
    app.sync_pending_agent_resume_deadline(20, &surfaces);
    assert_eq!(app.pending_agent_resume_deadline, Some(20 + WAIT));
    let mut round = app.start_pending_agent_resumes(&surfaces, true);
    let mut host = outside();
    host.now = 5_000;
    assert!(!run(&mut app, &mut round, &surfaces, &mut host));
    assert_eq!(app.pending_agent_resume_deadline, Some(5_000 + WAIT));
    assert!(!app.pending_agent_resume_due(5_000));
    assert!(app.pending_agent_resume_due(5_000 + WAIT));
}

#[test]
fn a_round_that_waits_for_the_theme_keeps_the_deadline() {
    let mut app = test_app(vec![vec![tab(&[1])]]);
    set_plan(&mut app, 101, plan(long_running_test_argv(), "key"));
    let surfaces = [visible_surface(0, 0, 1)];
    app.sync_pending_agent_resume_deadline(20, &surfaces);
    assert!(!resume_shown(&mut app, &surfaces, false));
    assert_eq!(app.pending_agent_resume_deadline, Some(20 + WAIT));
    assert!(resume_shown(&mut app, &surfaces, true));
    assert_eq!(app.pending_agent_resume_deadline, None);
}

#[test]
fn the_first_deadline_is_kept_until_nothing_waits() {
    let mut app = test_app(vec![vec![tab(&[1])]]);
    set_plan(&mut app, 101, plan(long_running_test_argv(), "key"));
    let surfaces = [visible_surface(0, 0, 1)];
    assert!(!app.pending_agent_resume_due(u64::MAX));
    app.sync_pending_agent_resume_deadline(20, &surfaces);
    app.sync_pending_agent_resume_deadline(600, &surfaces);
    assert_eq!(app.pending_agent_resume_deadline, Some(20 + WAIT));
    assert!(!app.pending_agent_resume_due(19 + WAIT));
    assert!(app.pending_agent_resume_due(20 + WAIT));
    app.sync_pending_agent_resume_deadline(600, &[]);
    assert_eq!(app.pending_agent_resume_deadline, None);
}

#[test]
fn a_terminal_shown_twice_is_resumed_in_its_first_pane() {
    let mut app = test_app(vec![vec![tab(&[1, 2])]]);
    let panes = &mut app.state.workspaces[0].tabs[0].panes;
    panes.insert(2, PaneState { attached_terminal_id: 101 });
    set_plan(&mut app, 101, plan(long_running_test_argv(), "key"));
    let surfaces = [surface(0, 0, &[(2, rect(0, 0, 7, 5)), (1, rect(7, 0, 9, 6))])];
    let candidates = app.pending_agent_resume_candidates(&surfaces);
    assert_eq!(candidates.len(), 1);
    assert_eq!(candidates[0].pane_id, 2);
    assert_eq!((candidates[0].rows, candidates[0].cols), (5, 7));
}

#[test]
fn blank_areas_and_unknown_places_show_nothing() {
    let mut app = test_app(vec![vec![tab(&[1])]]);
    set_plan(&mut app, 101, plan(long_running_test_argv(), "key"));
    let mut flat = visible_surface(0, 0, 1);
    flat.area = rect(0, 0, 100, 0);
    let mut narrow = visible_surface(0, 0, 1);
    narrow.area = rect(0, 0, 0, 30);
    for hidden in [
        flat,
        narrow,
        visible_surface(1, 0, 1),
        visible_surface(0, 1, 1),
        visible_surface(0, 0, 77),
        surface(0, 0, &[(1, rect(0, 0, 0, 30))]),
        surface(0, 0, &[(1, rect(0, 0, 100, 0))]),
    ] {
        assert!(app.pending_agent_resume_candidates(&[hidden]).is_empty());
    }
    assert_eq!(app.pending_agent_resume_candidates(&[visible_surface(0, 0, 1)]).len(), 1);
}

#[test]
fn a_blank_pane_does_not_hide_the_next_one() {
    let mut app = test_app(vec![vec![tab(&[1, 2])]]);
    app.state.workspaces[0].tabs[0].panes.insert(2, PaneState { attached_terminal_id: 101 });
    set_plan(&mut app, 101, plan(long_running_test_argv(), "key"));
    let surfaces = [surface(0, 0, &[(1, rect(0, 0, 0, 5)), (2, rect(7, 0, 9, 6))])];
    assert_eq!(app.pending_agent_resume_candidates(&surfaces)[0].pane_id, 2);
}

#[test]
fn an_attach_takes_the_first_pane_and_clears_the_deadline_last() {
    let mut app = test_app(vec![vec![tab(&[5])], vec![tab(&[1, 2])]]);
    app.state.workspaces[1].tabs[0].panes.insert(1, PaneState { attached_terminal_id: 105 });
    set_plan(&mut app, 105, plan(long_running_test_argv(), "key"));
    set_plan(&mut app, 102, plan(long_running_test_argv(), "other"));
    app.pending_agent_resume_deadline = Some(70);
    let round = app.start_pending_agent_resume_for_terminal(105, 24, 80, true).unwrap();
    assert_eq!(round.queue[0].pane_id, 5);
    assert!(app.start_pending_agent_resume_for_terminal(101, 24, 80, true).is_none());
    assert!(app.start_pending_agent_resume_for_terminal(999, 24, 80, true).is_none());
    assert!(resume_terminal(&mut app, 105, 24, 80));
    assert_eq!(app.pending_agent_resume_deadline, Some(70));
    assert!(app.session_save_scheduled);
    assert!(resume_terminal(&mut app, 102, 24, 80));
    assert_eq!(app.pending_agent_resume_deadline, None);
    assert!(!app.has_pending_agent_resumes());
}

#[test]
fn one_failure_does_not_stop_the_round() {
    let mut app = test_app(vec![vec![tab(&[1, 2])]]);
    set_plan(&mut app, 101, plan(vec![], "key"));
    set_plan(&mut app, 102, plan(words(&["agent"]), "other"));
    let surfaces = [surface(0, 0, &[(1, rect(0, 0, 5, 5)), (2, rect(5, 0, 5, 5))])];
    let mut round = app.start_pending_agent_resumes(&surfaces, true);
    assert!(run(&mut app, &mut round, &surfaces, &mut outside()));
    assert_eq!(
        round.outcomes,
        vec![LaunchOutcome::Refused(ResumeRefusal::EmptyArgv), LaunchOutcome::Sent(1)]
    );
    assert!(waits(&app, 101));
    assert!(!waits(&app, 102));
}

#[test]
fn a_terminal_that_runs_when_its_turn_comes_is_passed_over() {
    let mut app = test_app(vec![vec![tab(&[1, 2])]]);
    set_plan(&mut app, 101, plan(words(&["agent"]), "key"));
    set_plan(&mut app, 102, plan(words(&["agent"]), "other"));
    let surfaces = [surface(0, 0, &[(1, rect(0, 0, 5, 5)), (2, rect(5, 0, 5, 5))])];
    let mut first = app.start_pending_agent_resumes(&surfaces, true);
    assert!(resume_terminal(&mut app, 101, 24, 80));
    assert!(run(&mut app, &mut first, &surfaces, &mut outside()));
    assert_eq!(first.outcomes, vec![LaunchOutcome::AlreadyRuns, LaunchOutcome::Sent(1)]);
}

#[test]
fn a_round_expects_only_what_it_asked_for() {
    let app = test_app(vec![vec![tab(&[1])]]);
    let round = app.start_pending_agent_resumes(&[], true);
    assert!(round.expects(&ResumeEvent::Begin));
    assert!(!round.expects(&ResumeEvent::ShutDown));
    assert!(!round.expects(&ResumeEvent::Sent(true)));
}

#[test]
fn any_known_colour_ends_the_wait_and_reaches_the_terminal() {
    let cursor = || TerminalTheme {
        others: vec![("cursor".to_string(), RgbColor { r: 1, g: 2, b: 3 })],
        ..Default::default()
    };
    assert!(TerminalTheme::default().is_empty());
    assert!(!cursor().is_empty());
    let mut app = test_app(vec![vec![tab(&[1])]]);
    app.state.host_terminal_theme = cursor();
    set_plan(&mut app, 101, plan(words(&["agent"]), "key"));
    let surfaces = [visible_surface(0, 0, 1)];
    let mut round = app.start_pending_agent_resumes(&surfaces, false);
    let mut host = outside();
    assert!(run(&mut app, &mut round, &surfaces, &mut host));
    assert_eq!(host.spawned[0].theme, cursor());
}

#[test]
fn each_launch_fails_alone_and_the_whole_round_is_reported() {
    let mut app = test_app(vec![vec![tab(&[1, 2, 3, 4])]]);
    for id in [101, 102, 103, 104] {
        set_plan(&mut app, id, plan(words(&["agent"]), "key"));
    }
    app.pending_agent_resume_deadline = Some(20);
    let area = rect(0, 0, 5, 5);
    let surfaces = [surface(0, 0, &[(1, area), (2, area), (3, area), (4, area)])];
    let mut round = app.start_pending_agent_resumes(&surfaces, true);
    let env = || ResumeEvent::LaunchEnv(Some(vec![]));
    let events = vec![
        ResumeEvent::Begin,
        ResumeEvent::LaunchEnv(None),
        env(),
        ResumeEvent::Spawned(None),
        env(),
        ResumeEvent::Spawned(Some(7)),
        ResumeEvent::Sent(false),
        ResumeEvent::ShutDown,
        env(),
        ResumeEvent::Spawned(Some(8)),
        ResumeEvent::Sent(true),
        ResumeEvent::LaidOut(same_surfaces(&surfaces), 300),
    ];
    let mut last = None;
    for event in events {
        assert!(round.expects(&event));
        last = Some(app.advance_agent_resumes(&mut round, event));
    }
    assert_eq!(last, Some(ResumeAction::Finished(true)));
    assert_eq!(
        round.outcomes,
        vec![
            LaunchOutcome::Refused(ResumeRefusal::NoLaunchEnv),
            LaunchOutcome::SpawnFailed,
            LaunchOutcome::SendFailed(7),
            LaunchOutcome::Sent(8),
        ]
    );
    assert!(app.session_save_scheduled);
    assert_eq!(app.pending_agent_resume_deadline, Some(300 + WAIT));
    assert_eq!(waiting(&app), 3);
    assert_eq!(app.terminal_runtimes.len(), 1);
    assert_eq!(app.terminal_runtimes[&104].handle, 8);
}
