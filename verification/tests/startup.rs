use herdr::startup::{
    parse_client_launch_args, run_client, run_terminal_attach, ClientLaunchOptions, ClientRun,
    ClientRunError, Platform, TerminalAttach,
};

fn owned(args: &[&str]) -> Vec<String> {
    args.iter().map(|arg| (*arg).to_owned()).collect()
}

fn refusal(args: &[&str]) -> String {
    parse_client_launch_args(&owned(args)).unwrap_err()
}

#[test]
fn client_launch_parser_accepts_exact_target_and_sidebar_override() {
    let args = [
        "--workspace",
        "workspace-1",
        "--pane",
        "pane-2",
        "--hide-sidebar",
    ]
    .map(str::to_owned);
    assert_eq!(
        parse_client_launch_args(&args).unwrap(),
        ClientLaunchOptions {
            workspace_id: Some("workspace-1".into()),
            pane_id: Some("pane-2".into()),
            hide_sidebar: true,
            exit_on_workspace_close: false,
        }
    );
}

#[test]
fn client_launch_parser_accepts_workspace_lifetime_opt_in_in_either_order() {
    for args in [
        ["--workspace", "workspace-1", "--exit-on-workspace-close"],
        ["--exit-on-workspace-close", "--workspace", "workspace-1"],
    ] {
        let options = parse_client_launch_args(&args.map(str::to_owned)).unwrap();
        assert_eq!(options.workspace_id.as_deref(), Some("workspace-1"));
        assert!(options.exit_on_workspace_close);
    }
    assert!(
        !parse_client_launch_args(&[])
            .unwrap()
            .exit_on_workspace_close
    );
}

#[test]
fn client_launch_parser_requires_workspace_for_pane_and_lifetime_opt_in() {
    for args in [
        &["--pane", "pane-2"][..],
        &["--exit-on-workspace-close"],
        &["--exit-on-workspace-close", "--pane", "pane-2"],
    ] {
        let args = args.iter().map(|arg| (*arg).to_owned()).collect::<Vec<_>>();
        assert!(parse_client_launch_args(&args).is_err());
    }
}

#[test]
fn client_launch_parser_rejects_duplicate_lifetime_opt_in() {
    let args = [
        "--workspace",
        "workspace-1",
        "--exit-on-workspace-close",
        "--exit-on-workspace-close",
    ]
    .map(str::to_owned);
    assert!(parse_client_launch_args(&args).is_err());
}

#[test]
fn no_arguments_ask_for_nothing() {
    assert_eq!(
        parse_client_launch_args(&[]).unwrap(),
        ClientLaunchOptions::default()
    );
}

#[test]
fn a_value_is_missing_at_the_end_or_when_empty() {
    assert_eq!(refusal(&["--workspace"]), "missing value for --workspace");
    assert_eq!(refusal(&["--workspace", ""]), "missing value for --workspace");
    assert_eq!(
        refusal(&["--workspace", "w", "--pane"]),
        "missing value for --pane"
    );
    assert_eq!(
        refusal(&["--workspace", "w", "--workspace", ""]),
        "missing value for --workspace"
    );
}

#[test]
fn a_value_may_look_like_an_option() {
    let options = parse_client_launch_args(&owned(&["--workspace", "--pane"])).unwrap();
    assert_eq!(options.workspace_id.as_deref(), Some("--pane"));
    assert_eq!(options.pane_id, None);
}

#[test]
fn each_option_comes_once() {
    assert_eq!(
        refusal(&["--workspace", "a", "--workspace", "b"]),
        "--workspace may only be specified once"
    );
    assert_eq!(
        refusal(&["--pane", "a", "--pane", "b"]),
        "--pane may only be specified once"
    );
    assert_eq!(
        refusal(&["--hide-sidebar", "--hide-sidebar"]),
        "--hide-sidebar may only be specified once"
    );
    assert_eq!(
        refusal(&["--exit-on-workspace-close", "--exit-on-workspace-close"]),
        "--exit-on-workspace-close may only be specified once"
    );
}

#[test]
fn an_unknown_option_is_named() {
    assert_eq!(
        refusal(&["--workspace", "w", "extra"]),
        "unknown client option: extra"
    );
    assert_eq!(refusal(&[""]), "unknown client option: ");
}

#[test]
fn the_first_fault_is_reported() {
    assert_eq!(
        refusal(&["--hide-sidebar", "--hide-sidebar", "extra"]),
        "--hide-sidebar may only be specified once"
    );
    assert_eq!(
        refusal(&["extra", "--hide-sidebar", "--hide-sidebar"]),
        "unknown client option: extra"
    );
    assert_eq!(
        refusal(&["--exit-on-workspace-close", "--pane", "p"]),
        "--pane requires --workspace"
    );
    assert_eq!(
        refusal(&["--exit-on-workspace-close"]),
        "--exit-on-workspace-close requires --workspace"
    );
}

#[test]
fn option_order_makes_no_difference() {
    let forward = parse_client_launch_args(&owned(&[
        "--workspace",
        "w",
        "--pane",
        "p",
        "--hide-sidebar",
        "--exit-on-workspace-close",
    ]));
    let backward = parse_client_launch_args(&owned(&[
        "--exit-on-workspace-close",
        "--hide-sidebar",
        "--pane",
        "p",
        "--workspace",
        "w",
    ]));
    assert_eq!(forward, backward);
    assert_eq!(
        forward.unwrap(),
        ClientLaunchOptions {
            workspace_id: Some("w".into()),
            pane_id: Some("p".into()),
            hide_sidebar: true,
            exit_on_workspace_close: true,
        }
    );
}

#[test]
fn the_thin_client_runs_the_whole_session() {
    let options = ClientLaunchOptions {
        workspace_id: Some("w".into()),
        pane_id: None,
        hide_sidebar: true,
        exit_on_workspace_close: false,
    };
    assert_eq!(
        run_client(options.clone()),
        ClientRun {
            attach: None,
            escape_keys: false,
            progress: "connecting to server".into(),
            options,
        }
    );
}

#[test]
fn a_terminal_is_attached_where_the_platform_can() {
    assert_eq!(
        run_terminal_attach("term-1".into(), true, Platform::Unix),
        Ok(ClientRun {
            attach: Some(TerminalAttach {
                terminal_id: "term-1".into(),
                takeover: true,
            }),
            escape_keys: true,
            progress: "attaching to terminal".into(),
            options: ClientLaunchOptions::default(),
        })
    );
    assert_eq!(
        run_terminal_attach("term-1".into(), false, Platform::Windows),
        Err(ClientRunError::Unsupported(
            "direct terminal attach is not supported on Windows yet".into()
        ))
    );
}
