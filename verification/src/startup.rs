//! How a client is launched: its command line and what it then runs.
use crate::text::{joined, same_text, text_of, texts};
use vstd::prelude::*;
use vstd::seq_lib::{group_to_multiset_ensures, lemma_multiset_commutative};

verus! {

/// What a client was asked for on its command line.
#[derive(Debug, PartialEq, Eq)]
pub struct ClientLaunchOptions {
    pub workspace_id: Option<String>,
    pub pane_id: Option<String>,
    pub hide_sidebar: bool,
    pub exit_on_workspace_close: bool,
}

/// Launch options by their characters.
pub struct LaunchOptionsView {
    pub workspace_id: Option<Seq<char>>,
    pub pane_id: Option<Seq<char>>,
    pub hide_sidebar: bool,
    pub exit_on_workspace_close: bool,
}

impl View for ClientLaunchOptions {
    type V = LaunchOptionsView;

    open spec fn view(&self) -> LaunchOptionsView {
        LaunchOptionsView {
            workspace_id: text_of(self.workspace_id),
            pane_id: text_of(self.pane_id),
            hide_sidebar: self.hide_sidebar,
            exit_on_workspace_close: self.exit_on_workspace_close,
        }
    }
}

impl LaunchOptionsView {
    /// Nothing asked for.
    pub open spec fn none() -> LaunchOptionsView {
        LaunchOptionsView {
            workspace_id: None,
            pane_id: None,
            hide_sidebar: false,
            exit_on_workspace_close: false,
        }
    }

    /// The ids are not empty, and a pane and a lifetime belong to a workspace.
    pub open spec fn consistent(self) -> bool {
        &&& self.workspace_id matches Some(id) ==> id.len() > 0
        &&& self.pane_id matches Some(id) ==> id.len() > 0
        &&& self.pane_id is Some ==> self.workspace_id is Some
        &&& self.exit_on_workspace_close ==> self.workspace_id is Some
    }
}

impl Clone for ClientLaunchOptions {
    fn clone(&self) -> (copy: Self)
        ensures
            copy == *self,
    {
        ClientLaunchOptions {
            workspace_id: self.workspace_id.clone(),
            pane_id: self.pane_id.clone(),
            hide_sidebar: self.hide_sidebar,
            exit_on_workspace_close: self.exit_on_workspace_close,
        }
    }
}

impl Default for ClientLaunchOptions {
    fn default() -> (options: Self)
        ensures
            options@ == LaunchOptionsView::none(),
    {
        ClientLaunchOptions {
            workspace_id: None,
            pane_id: None,
            hide_sidebar: false,
            exit_on_workspace_close: false,
        }
    }
}

/// One option of the command line, with its value where it takes one.
pub enum LaunchOption {
    Workspace(Seq<char>),
    Pane(Seq<char>),
    HideSidebar,
    ExitOnWorkspaceClose,
}

impl LaunchOption {
    /// How many arguments the option takes up.
    pub open spec fn width(self) -> int {
        match self {
            LaunchOption::Workspace(_) | LaunchOption::Pane(_) => 2,
            LaunchOption::HideSidebar | LaunchOption::ExitOnWorkspaceClose => 1,
        }
    }

    /// Whether both set the same thing.
    pub open spec fn same_kind(self, other: LaunchOption) -> bool {
        match self {
            LaunchOption::Workspace(_) => other is Workspace,
            LaunchOption::Pane(_) => other is Pane,
            LaunchOption::HideSidebar => other is HideSidebar,
            LaunchOption::ExitOnWorkspaceClose => other is ExitOnWorkspaceClose,
        }
    }

    /// The complaint about the option coming a second time.
    pub open spec fn repeat_message(self) -> Seq<char> {
        match self {
            LaunchOption::Workspace(_) => "--workspace may only be specified once"@,
            LaunchOption::Pane(_) => "--pane may only be specified once"@,
            LaunchOption::HideSidebar => "--hide-sidebar may only be specified once"@,
            LaunchOption::ExitOnWorkspaceClose =>
                "--exit-on-workspace-close may only be specified once"@,
        }
    }

    /// The arguments that spell the option.
    pub open spec fn spelled(self) -> Seq<Seq<char>> {
        match self {
            LaunchOption::Workspace(id) => seq!["--workspace"@, id],
            LaunchOption::Pane(id) => seq!["--pane"@, id],
            LaunchOption::HideSidebar => seq!["--hide-sidebar"@],
            LaunchOption::ExitOnWorkspaceClose => seq!["--exit-on-workspace-close"@],
        }
    }
}

/// Whether the argument behind the first one can be its value.
pub open spec fn has_value(args: Seq<Seq<char>>) -> bool {
    args.len() > 1 && args[1].len() > 0
}

/// The option that `args` begin with, or the complaint about it.
pub open spec fn first_option(args: Seq<Seq<char>>) -> Result<LaunchOption, Seq<char>> {
    if args[0] == "--workspace"@ {
        if has_value(args) {
            Ok(LaunchOption::Workspace(args[1]))
        } else {
            Err("missing value for --workspace"@)
        }
    } else if args[0] == "--pane"@ {
        if has_value(args) {
            Ok(LaunchOption::Pane(args[1]))
        } else {
            Err("missing value for --pane"@)
        }
    } else if args[0] == "--hide-sidebar"@ {
        Ok(LaunchOption::HideSidebar)
    } else if args[0] == "--exit-on-workspace-close"@ {
        Ok(LaunchOption::ExitOnWorkspaceClose)
    } else {
        Err("unknown client option: "@ + args[0])
    }
}

/// The options of a command line, up to the first argument that is none.
pub struct Scan {
    pub options: Seq<LaunchOption>,
    pub fault: Option<Seq<char>>,
}

/// Reads `args` option by option.
pub open spec fn scan(args: Seq<Seq<char>>) -> Scan
    decreases args.len(),
{
    if args.len() == 0 {
        Scan { options: Seq::empty(), fault: None }
    } else {
        match first_option(args) {
            Ok(option) => {
                let rest = scan(args.skip(option.width()));
                Scan { options: seq![option] + rest.options, fault: rest.fault }
            },
            Err(message) => Scan { options: Seq::empty(), fault: Some(message) },
        }
    }
}

/// Whether an option of `options` sets what `option` sets.
pub open spec fn sets(options: Seq<LaunchOption>, option: LaunchOption) -> bool {
    exists|i: int| 0 <= i < options.len() && option.same_kind(#[trigger] options[i])
}

/// The complaint about the first option that sets something again.
pub open spec fn repeat_fault(options: Seq<LaunchOption>) -> Option<Seq<char>>
    decreases options.len(),
{
    if options.len() == 0 {
        None
    } else {
        match repeat_fault(options.drop_last()) {
            Some(message) => Some(message),
            None => if sets(options.drop_last(), options.last()) {
                Some(options.last().repeat_message())
            } else {
                None
            },
        }
    }
}

/// What `options` ask for together.
pub open spec fn requested(options: Seq<LaunchOption>) -> LaunchOptionsView
    decreases options.len(),
{
    if options.len() == 0 {
        LaunchOptionsView::none()
    } else {
        let before = requested(options.drop_last());
        match options.last() {
            LaunchOption::Workspace(id) => LaunchOptionsView { workspace_id: Some(id), ..before },
            LaunchOption::Pane(id) => LaunchOptionsView { pane_id: Some(id), ..before },
            LaunchOption::HideSidebar => LaunchOptionsView { hide_sidebar: true, ..before },
            LaunchOption::ExitOnWorkspaceClose => LaunchOptionsView {
                exit_on_workspace_close: true,
                ..before
            },
        }
    }
}

/// What a command line means: the options that it asks for, or the complaint
/// about it. A repeated option is found where it stands, so it comes before
/// an argument further on that is no option.
pub open spec fn launch_outcome(args: Seq<Seq<char>>) -> Result<LaunchOptionsView, Seq<char>> {
    let scan = scan(args);
    let asked = requested(scan.options);
    if repeat_fault(scan.options) is Some {
        Err(repeat_fault(scan.options)->0)
    } else if scan.fault is Some {
        Err(scan.fault->0)
    } else if asked.pane_id is Some && asked.workspace_id is None {
        Err("--pane requires --workspace"@)
    } else if asked.exit_on_workspace_close && asked.workspace_id is None {
        Err("--exit-on-workspace-close requires --workspace"@)
    } else {
        Ok(asked)
    }
}

/// The repetition stays the first one, whatever follows it.
proof fn lemma_repeat_fault_stays(options: Seq<LaunchOption>, more: Seq<LaunchOption>)
    requires
        repeat_fault(options) is Some,
    ensures
        repeat_fault(options + more) == repeat_fault(options),
    decreases more.len(),
{
    if more.len() == 0 {
        assert(options + more =~= options);
    } else {
        assert((options + more).drop_last() =~= options + more.drop_last());
        lemma_repeat_fault_stays(options, more.drop_last());
    }
}

/// An option sets something exactly where the request then holds it.
proof fn lemma_sets_requested(options: Seq<LaunchOption>, option: LaunchOption)
    ensures
        sets(options, option) <==> match option {
            LaunchOption::Workspace(_) => requested(options).workspace_id is Some,
            LaunchOption::Pane(_) => requested(options).pane_id is Some,
            LaunchOption::HideSidebar => requested(options).hide_sidebar,
            LaunchOption::ExitOnWorkspaceClose => requested(options).exit_on_workspace_close,
        },
    decreases options.len(),
{
    if options.len() > 0 {
        let front = options.drop_last();
        lemma_sets_requested(front, option);
        if sets(front, option) {
            let i = choose|i: int| 0 <= i < front.len() && option.same_kind(#[trigger] front[i]);
            assert(option.same_kind(options[i]));
        }
        if option.same_kind(options.last()) {
            assert(option.same_kind(options[options.len() - 1]));
        }
        if sets(options, option) && !option.same_kind(options.last()) {
            let i = choose|i: int|
                0 <= i < options.len() && option.same_kind(#[trigger] options[i]);
            assert(option.same_kind(front[i]));
        }
    }
}

/// One more option on top of `options` that do not repeat.
proof fn lemma_push_option(options: Seq<LaunchOption>, option: LaunchOption)
    requires
        repeat_fault(options) is None,
    ensures
        sets(options, option) ==> repeat_fault(options.push(option)) == Some(
            option.repeat_message(),
        ),
        !sets(options, option) ==> repeat_fault(options.push(option)) is None,
{
    assert(options.push(option).drop_last() =~= options);
}

/// Parses the arguments behind the client command.
pub fn parse_client_launch_args(args: &[String]) -> (result: Result<ClientLaunchOptions, String>)
    ensures
        match result {
            Ok(options) => launch_outcome(texts(args@)) == Ok::<LaunchOptionsView, Seq<char>>(
                options@,
            ),
            Err(message) => launch_outcome(texts(args@)) == Err::<LaunchOptionsView, Seq<char>>(
                message@,
            ),
        },
{
    let mut options = ClientLaunchOptions::default();
    let mut index: usize = 0;
    let ghost words = texts(args@);
    let ghost whole = scan(words);
    let ghost mut done: Seq<LaunchOption> = Seq::empty();
    assert(words.skip(0) =~= words);
    assert(done + whole.options =~= whole.options);
    while index < args.len()
        invariant
            index <= args@.len(),
            words == texts(args@),
            whole == scan(words),
            options@ == requested(done),
            repeat_fault(done) is None,
            whole.options == done + scan(words.skip(index as int)).options,
            whole.fault == scan(words.skip(index as int)).fault,
        decreases args@.len() - index,
    {
        let ghost rest = words.skip(index as int);
        let arg = args[index].as_str();
        let valued: bool = index + 1 < args.len() && !args[index + 1].as_str().is_empty();
        assert(arg@ == rest[0]);
        assert(valued == has_value(rest));
        let ghost before = done;
        proof {
            if first_option(rest) is Ok {
                let option = first_option(rest)->Ok_0;
                let next = rest.skip(option.width());
                assert(next =~= words.skip(index + option.width()));
                done = before.push(option);
                assert(done + scan(next).options =~= before + scan(rest).options);
                assert(done.drop_last() =~= before);
                lemma_sets_requested(before, option);
                lemma_push_option(before, option);
                if repeat_fault(done) is Some {
                    lemma_repeat_fault_stays(done, scan(next).options);
                }
            } else {
                assert(whole.options =~= before);
            }
        }
        if same_text(arg, "--workspace") {
            if !valued {
                return Err("missing value for --workspace".to_owned());
            }
            if options.workspace_id.is_some() {
                return Err("--workspace may only be specified once".to_owned());
            }
            options.workspace_id = Some(args[index + 1].clone());
            index += 2;
        } else if same_text(arg, "--pane") {
            if !valued {
                return Err("missing value for --pane".to_owned());
            }
            if options.pane_id.is_some() {
                return Err("--pane may only be specified once".to_owned());
            }
            options.pane_id = Some(args[index + 1].clone());
            index += 2;
        } else if same_text(arg, "--hide-sidebar") {
            if options.hide_sidebar {
                return Err("--hide-sidebar may only be specified once".to_owned());
            }
            options.hide_sidebar = true;
            index += 1;
        } else if same_text(arg, "--exit-on-workspace-close") {
            if options.exit_on_workspace_close {
                return Err("--exit-on-workspace-close may only be specified once".to_owned());
            }
            options.exit_on_workspace_close = true;
            index += 1;
        } else {
            return Err(joined("unknown client option: ", arg));
        }
    }
    assert(whole.options =~= done);
    if options.pane_id.is_some() && options.workspace_id.is_none() {
        return Err("--pane requires --workspace".to_owned());
    }
    if options.exit_on_workspace_close && options.workspace_id.is_none() {
        return Err("--exit-on-workspace-close requires --workspace".to_owned());
    }
    Ok(options)
}


/// What kind of system the client runs on.
#[derive(Clone, Copy, Debug, PartialEq, Eq)]
pub enum Platform {
    Unix,
    Windows,
}

/// The one terminal that a client is attached to in place of the whole session.
#[derive(Debug, PartialEq, Eq)]
pub struct TerminalAttach {
    pub terminal_id: String,
    pub takeover: bool,
}

/// What a client runs with.
#[derive(Debug, PartialEq, Eq)]
pub struct ClientRun {
    /// The terminal to attach to, where it is not the whole session.
    pub attach: Option<TerminalAttach>,
    /// Whether the client watches for the keys that leave an attached terminal.
    pub escape_keys: bool,
    /// What the client says it is doing until it is connected.
    pub progress: String,
    pub options: ClientLaunchOptions,
}

/// Why a client cannot run.
#[derive(Debug, PartialEq, Eq)]
pub enum ClientRunError {
    /// The platform has no way to do it.
    Unsupported(String),
}

/// What the thin client runs with: the whole session, under `options`.
pub fn run_client(options: ClientLaunchOptions) -> (run: ClientRun)
    ensures
        run.attach is None,
        !run.escape_keys,
        run.progress@ == "connecting to server"@,
        run.options == options,
{
    ClientRun {
        attach: None,
        escape_keys: false,
        progress: "connecting to server".to_owned(),
        options,
    }
}

/// What a client attached to one terminal runs with. Windows has no direct
/// attach.
pub fn run_terminal_attach(terminal_id: String, takeover: bool, platform: Platform) -> (result:
    Result<ClientRun, ClientRunError>)
    ensures
        platform is Unix <==> result is Ok,
        result matches Ok(run) ==> {
            &&& run.attach == Some(TerminalAttach { terminal_id, takeover })
            &&& run.escape_keys
            &&& run.progress@ == "attaching to terminal"@
            &&& run.options@ == LaunchOptionsView::none()
        },
        result matches Err(ClientRunError::Unsupported(message)) ==> message@
            == "direct terminal attach is not supported on Windows yet"@,
{
    match platform {
        Platform::Unix => Ok(
            ClientRun {
                attach: Some(TerminalAttach { terminal_id, takeover }),
                escape_keys: true,
                progress: "attaching to terminal".to_owned(),
                options: ClientLaunchOptions::default(),
            },
        ),
        Platform::Windows => Err(
            ClientRunError::Unsupported(
                "direct terminal attach is not supported on Windows yet".to_owned(),
            ),
        ),
    }
}

/// Whether the option's value can be given on a command line.
pub open spec fn can_be_spelled(option: LaunchOption) -> bool {
    match option {
        LaunchOption::Workspace(id) | LaunchOption::Pane(id) => id.len() > 0,
        LaunchOption::HideSidebar | LaunchOption::ExitOnWorkspaceClose => true,
    }
}

/// Whether the values of all of `options` can be given on a command line.
pub open spec fn all_can_be_spelled(options: Seq<LaunchOption>) -> bool {
    forall|i: int| 0 <= i < options.len() ==> can_be_spelled(#[trigger] options[i])
}

/// The arguments that spell `options` one after the other.
pub open spec fn spelled_out(options: Seq<LaunchOption>) -> Seq<Seq<char>>
    decreases options.len(),
{
    if options.len() == 0 {
        Seq::empty()
    } else {
        options[0].spelled() + spelled_out(options.skip(1))
    }
}

/// The options that ask for `asked`.
pub open spec fn options_for(asked: LaunchOptionsView) -> Seq<LaunchOption> {
    let workspace = match asked.workspace_id {
        Some(id) => seq![LaunchOption::Workspace(id)],
        None => Seq::empty(),
    };
    let pane = match asked.pane_id {
        Some(id) => seq![LaunchOption::Pane(id)],
        None => Seq::empty(),
    };
    let sidebar = if asked.hide_sidebar {
        seq![LaunchOption::HideSidebar]
    } else {
        Seq::empty()
    };
    let lifetime = if asked.exit_on_workspace_close {
        seq![LaunchOption::ExitOnWorkspaceClose]
    } else {
        Seq::empty()
    };
    workspace + pane + sidebar + lifetime
}

/// The option names differ.
proof fn lemma_names_differ()
    ensures
        "--workspace"@ != "--pane"@,
        "--workspace"@ != "--hide-sidebar"@,
        "--workspace"@ != "--exit-on-workspace-close"@,
        "--pane"@ != "--hide-sidebar"@,
        "--pane"@ != "--exit-on-workspace-close"@,
        "--hide-sidebar"@ != "--exit-on-workspace-close"@,
{
    reveal_strlit("--workspace");
    reveal_strlit("--pane");
    reveal_strlit("--hide-sidebar");
    reveal_strlit("--exit-on-workspace-close");
    assert("--workspace"@.len() == 11);
    assert("--pane"@.len() == 6);
    assert("--hide-sidebar"@.len() == 14);
    assert("--exit-on-workspace-close"@.len() == 25);
}

/// Arguments that are all options, followed by more, are read one after the other.
proof fn lemma_scan_add(xs: Seq<Seq<char>>, ys: Seq<Seq<char>>)
    requires
        scan(xs).fault is None,
    ensures
        scan(xs + ys).options == scan(xs).options + scan(ys).options,
        scan(xs + ys).fault == scan(ys).fault,
    decreases xs.len(),
{
    if xs.len() == 0 {
        assert(xs + ys =~= ys);
        assert(scan(xs).options + scan(ys).options =~= scan(ys).options);
    } else {
        let option = first_option(xs)->Ok_0;
        let width = option.width();
        assert((xs + ys).skip(width) =~= xs.skip(width) + ys);
        lemma_scan_add(xs.skip(width), ys);
        assert(first_option(xs + ys) == first_option(xs));
        assert(scan(xs + ys).options =~= scan(xs).options + scan(ys).options);
    }
}

/// Only options with usable values are read.
proof fn lemma_scan_can_be_spelled(args: Seq<Seq<char>>)
    ensures
        all_can_be_spelled(scan(args).options),
    decreases args.len(),
{
    if args.len() > 0 && first_option(args) is Ok {
        let option = first_option(args)->Ok_0;
        let rest = scan(args.skip(option.width())).options;
        lemma_scan_can_be_spelled(args.skip(option.width()));
        let options = scan(args).options;
        assert forall|i: int| 0 <= i < options.len() implies can_be_spelled(
            #[trigger] options[i],
        ) by {
            if i > 0 {
                assert(can_be_spelled(rest[i - 1]));
            }
        }
    }
}

/// What is spelled out is read back.
proof fn lemma_scan_spelled_out(options: Seq<LaunchOption>)
    requires
        all_can_be_spelled(options),
    ensures
        scan(spelled_out(options)).options == options,
        scan(spelled_out(options)).fault is None,
    decreases options.len(),
{
    if options.len() == 0 {
        assert(scan(spelled_out(options)).options =~= options);
    } else {
        lemma_names_differ();
        let option = options[0];
        let rest = options.skip(1);
        let args = spelled_out(options);
        assert(can_be_spelled(option));
        assert forall|i: int| 0 <= i < rest.len() implies can_be_spelled(#[trigger] rest[i]) by {
            assert(can_be_spelled(options[i + 1]));
        }
        lemma_scan_spelled_out(rest);
        assert(args.skip(option.width()) =~= spelled_out(rest));
        assert(seq![option] + rest =~= options);
    }
}

/// Nothing is repeated exactly where no two options set the same thing.
proof fn lemma_no_repeat(options: Seq<LaunchOption>)
    ensures
        repeat_fault(options) is None <==> forall|i: int, j: int|
            0 <= i < j < options.len() ==> !(#[trigger] options[j]).same_kind(
                #[trigger] options[i],
            ),
    decreases options.len(),
{
    if options.len() > 0 {
        let front = options.drop_last();
        let last = options.last();
        lemma_no_repeat(front);
        if repeat_fault(options) is None {
            assert forall|i: int, j: int| 0 <= i < j < options.len() implies !(
            #[trigger] options[j]).same_kind(#[trigger] options[i]) by {
                if j < front.len() {
                    assert(!front[j].same_kind(front[i]));
                } else {
                    assert(options[i] == front[i]);
                }
            }
        } else if repeat_fault(front) is Some {
            let (i, j) = choose|i: int, j: int|
                0 <= i < j < front.len() && (#[trigger] front[j]).same_kind(#[trigger] front[i]);
            assert(options[j].same_kind(options[i]));
        } else {
            let i = choose|i: int| 0 <= i < front.len() && last.same_kind(#[trigger] front[i]);
            assert(options[front.len() as int].same_kind(options[i]));
        }
    }
}

/// Without repetitions, the request holds an option's value exactly where the
/// option is there.
proof fn lemma_requested_values(options: Seq<LaunchOption>)
    requires
        repeat_fault(options) is None,
    ensures
        forall|i: int| #![trigger options[i]]
            0 <= i < options.len() ==> match options[i] {
                LaunchOption::Workspace(id) => requested(options).workspace_id == Some(id),
                LaunchOption::Pane(id) => requested(options).pane_id == Some(id),
                LaunchOption::HideSidebar => requested(options).hide_sidebar,
                LaunchOption::ExitOnWorkspaceClose => requested(options).exit_on_workspace_close,
            },
    decreases options.len(),
{
    if options.len() > 0 {
        let front = options.drop_last();
        lemma_requested_values(front);
        lemma_no_repeat(options);
        assert forall|i: int| #![trigger options[i]] 0 <= i < options.len() implies match options[i] {
            LaunchOption::Workspace(id) => requested(options).workspace_id == Some(id),
            LaunchOption::Pane(id) => requested(options).pane_id == Some(id),
            LaunchOption::HideSidebar => requested(options).hide_sidebar,
            LaunchOption::ExitOnWorkspaceClose => requested(options).exit_on_workspace_close,
        } by {
            if i < front.len() {
                assert(options[i] == front[i]);
                assert(!options[options.len() - 1].same_kind(options[i]));
            }
        }
    }
}

/// Two lists that hold the same options set the same things.
proof fn lemma_same_kinds(a: Seq<LaunchOption>, b: Seq<LaunchOption>, kind: LaunchOption)
    requires
        forall|i: int| 0 <= i < a.len() ==> b.contains(#[trigger] a[i]),
        forall|i: int| 0 <= i < b.len() ==> a.contains(#[trigger] b[i]),
    ensures
        sets(a, kind) == sets(b, kind),
        sets(a, kind) ==> exists|i: int, j: int|
            0 <= i < a.len() && 0 <= j < b.len() && #[trigger] a[i] == #[trigger] b[j]
                && kind.same_kind(a[i]),
        sets(a, kind) == match kind {
            LaunchOption::Workspace(_) => requested(a).workspace_id is Some,
            LaunchOption::Pane(_) => requested(a).pane_id is Some,
            LaunchOption::HideSidebar => requested(a).hide_sidebar,
            LaunchOption::ExitOnWorkspaceClose => requested(a).exit_on_workspace_close,
        },
        sets(b, kind) == match kind {
            LaunchOption::Workspace(_) => requested(b).workspace_id is Some,
            LaunchOption::Pane(_) => requested(b).pane_id is Some,
            LaunchOption::HideSidebar => requested(b).hide_sidebar,
            LaunchOption::ExitOnWorkspaceClose => requested(b).exit_on_workspace_close,
        },
{
    lemma_sets_requested(a, kind);
    lemma_sets_requested(b, kind);
    if sets(a, kind) {
        let i = choose|i: int| 0 <= i < a.len() && kind.same_kind(#[trigger] a[i]);
        let j = choose|j: int| 0 <= j < b.len() && b[j] == a[i];
        assert(kind.same_kind(b[j]));
    }
    if sets(b, kind) {
        let j = choose|j: int| 0 <= j < b.len() && kind.same_kind(#[trigger] b[j]);
        let i = choose|i: int| 0 <= i < a.len() && a[i] == b[j];
        assert(kind.same_kind(a[i]));
    }
}

/// Two lists that hold the same options, each once, ask for the same.
proof fn lemma_same_options_same_request(a: Seq<LaunchOption>, b: Seq<LaunchOption>)
    requires
        repeat_fault(a) is None,
        repeat_fault(b) is None,
        forall|i: int| 0 <= i < a.len() ==> b.contains(#[trigger] a[i]),
        forall|i: int| 0 <= i < b.len() ==> a.contains(#[trigger] b[i]),
    ensures
        requested(a) == requested(b),
{
    lemma_requested_values(a);
    lemma_requested_values(b);
    lemma_same_kinds(a, b, LaunchOption::Workspace(Seq::empty()));
    lemma_same_kinds(a, b, LaunchOption::Pane(Seq::empty()));
    lemma_same_kinds(a, b, LaunchOption::HideSidebar);
    lemma_same_kinds(a, b, LaunchOption::ExitOnWorkspaceClose);
}

/// An accepted command line asks for a pane or a lifetime only together with a
/// workspace, and for no empty id.
pub proof fn accepted_options_are_consistent(args: Seq<Seq<char>>)
    requires
        launch_outcome(args) is Ok,
    ensures
        launch_outcome(args)->Ok_0.consistent(),
{
    let options = scan(args).options;
    lemma_scan_can_be_spelled(args);
    lemma_requested_values(options);
    lemma_sets_requested(options, LaunchOption::Workspace(Seq::empty()));
    lemma_sets_requested(options, LaunchOption::Pane(Seq::empty()));
}

/// A command line that sets something twice is refused.
pub proof fn repeated_option_is_refused(args: Seq<Seq<char>>, first: int, again: int)
    requires
        0 <= first < again < scan(args).options.len(),
        scan(args).options[again].same_kind(scan(args).options[first]),
    ensures
        launch_outcome(args) is Err,
{
    lemma_no_repeat(scan(args).options);
}

/// Command lines that give the same options in different orders mean the same,
/// where one of them is accepted.
proof fn lemma_reordered_options(args: Seq<Seq<char>>, reordered: Seq<Seq<char>>)
    requires
        launch_outcome(args) is Ok,
        scan(reordered).fault is None,
        scan(reordered).options.to_multiset() == scan(args).options.to_multiset(),
    ensures
        launch_outcome(reordered) == launch_outcome(args),
{
    broadcast use group_to_multiset_ensures;

    let a = scan(args).options;
    let b = scan(reordered).options;
    lemma_no_repeat(a);
    lemma_no_repeat(b);
    assert forall|i: int, j: int| 0 <= i < a.len() && 0 <= j < a.len() && i != j implies a[i]
        != a[j] by {
        let (from, to) = if i < j { (i, j) } else { (j, i) };
        assert(!a[to].same_kind(a[from]));
    }
    a.lemma_multiset_has_no_duplicates();
    b.lemma_multiset_has_no_duplicates_conv();
    assert forall|i: int| 0 <= i < a.len() implies b.contains(#[trigger] a[i]) by {
        assert(a.contains(a[i]));
        assert(b.to_multiset().count(a[i]) > 0);
    }
    assert forall|i: int| 0 <= i < b.len() implies a.contains(#[trigger] b[i]) by {
        assert(b.contains(b[i]));
        assert(a.to_multiset().count(b[i]) > 0);
    }
    assert forall|i: int, j: int| 0 <= i < j < b.len() implies !(#[trigger] b[j]).same_kind(
        #[trigger] b[i],
    ) by {
        assert(a.contains(b[i]) && a.contains(b[j]));
        let from = choose|k: int| 0 <= k < a.len() && a[k] == b[i];
        let to = choose|k: int| 0 <= k < a.len() && a[k] == b[j];
        assert(b[i] != b[j]);
        if from < to {
            assert(!a[to].same_kind(a[from]));
        } else {
            assert(!a[from].same_kind(a[to]));
        }
    }
    lemma_same_options_same_request(a, b);
}

/// Options that are read without a fault can all be spelled.
proof fn lemma_read_back_can_be_spelled(options: Seq<LaunchOption>)
    requires
        scan(spelled_out(options)).fault is None,
    ensures
        all_can_be_spelled(options),
    decreases options.len(),
{
    if options.len() > 0 {
        lemma_names_differ();
        let option = options[0];
        let rest = options.skip(1);
        let args = spelled_out(options);
        assert(args[0] == option.spelled()[0]);
        assert(can_be_spelled(option));
        assert(args.skip(option.width()) =~= spelled_out(rest));
        lemma_read_back_can_be_spelled(rest);
        assert forall|i: int| 0 <= i < options.len() implies can_be_spelled(
            #[trigger] options[i],
        ) by {
            if i > 0 {
                assert(can_be_spelled(rest[i - 1]));
            }
        }
    }
}

/// What an option sets, as a number.
pub open spec fn setting(option: LaunchOption) -> int {
    match option {
        LaunchOption::Workspace(_) => 0,
        LaunchOption::Pane(_) => 1,
        LaunchOption::HideSidebar => 2,
        LaunchOption::ExitOnWorkspaceClose => 3,
    }
}

/// Whether no two of `options` set the same.
pub open spec fn set_once(options: Seq<LaunchOption>) -> bool {
    forall|i: int, j: int|
        0 <= i < j < options.len() ==> setting(#[trigger] options[i]) != setting(
            #[trigger] options[j],
        )
}

/// Whether no value of `options` is empty.
pub open spec fn values_given(options: Seq<LaunchOption>) -> bool {
    forall|i: int|
        0 <= i < options.len() ==> match #[trigger] options[i] {
            LaunchOption::Workspace(id) => id.len() > 0,
            LaunchOption::Pane(id) => id.len() > 0,
            _ => true,
        }
}

/// Whether any of `options` sets what `option` sets.
pub open spec fn is_set(options: Seq<LaunchOption>, option: LaunchOption) -> bool {
    exists|i: int| 0 <= i < options.len() && setting(#[trigger] options[i]) == setting(option)
}

/// Whether `asked` is what `options` ask for, no more and no less.
pub open spec fn asks_for(options: Seq<LaunchOption>, asked: LaunchOptionsView) -> bool {
    &&& forall|id: Seq<char>|
        asked.workspace_id == Some(id) <==> #[trigger] options.contains(LaunchOption::Workspace(id))
    &&& forall|id: Seq<char>|
        asked.pane_id == Some(id) <==> #[trigger] options.contains(LaunchOption::Pane(id))
    &&& asked.hide_sidebar <==> options.contains(LaunchOption::HideSidebar)
    &&& asked.exit_on_workspace_close <==> options.contains(LaunchOption::ExitOnWorkspaceClose)
}

proof fn lemma_set_once(options: Seq<LaunchOption>)
    ensures
        repeat_fault(options) is None <==> set_once(options),
{
    lemma_no_repeat(options);
    if set_once(options) {
        assert forall|i: int, j: int| 0 <= i < j < options.len() implies !(
        #[trigger] options[j]).same_kind(#[trigger] options[i]) by {
            assert(setting(options[i]) != setting(options[j]));
        }
    }
    if repeat_fault(options) is None {
        assert forall|i: int, j: int| 0 <= i < j < options.len() implies setting(
            #[trigger] options[i],
        ) != setting(#[trigger] options[j]) by {
            assert(!options[j].same_kind(options[i]));
        }
    }
}

proof fn lemma_values_given(options: Seq<LaunchOption>)
    ensures
        values_given(options) <==> all_can_be_spelled(options),
{
    if values_given(options) {
        assert forall|i: int| 0 <= i < options.len() implies can_be_spelled(
            #[trigger] options[i],
        ) by {}
    }
    if all_can_be_spelled(options) {
        assert forall|i: int| 0 <= i < options.len() implies match #[trigger] options[i] {
            LaunchOption::Workspace(id) => id.len() > 0,
            LaunchOption::Pane(id) => id.len() > 0,
            _ => true,
        } by {
            assert(can_be_spelled(options[i]));
        }
    }
}

proof fn lemma_is_set(options: Seq<LaunchOption>, option: LaunchOption)
    ensures
        sets(options, option) <==> is_set(options, option),
{
    if sets(options, option) {
        let i = choose|i: int| 0 <= i < options.len() && option.same_kind(#[trigger] options[i]);
        assert(setting(options[i]) == setting(option));
    }
    if is_set(options, option) {
        let i = choose|i: int|
            0 <= i < options.len() && setting(#[trigger] options[i]) == setting(option);
        assert(option.same_kind(options[i]));
    }
}

proof fn lemma_asks_for(options: Seq<LaunchOption>)
    requires
        repeat_fault(options) is None,
    ensures
        asks_for(options, requested(options)),
        requested(options).workspace_id is Some <==> is_set(
            options,
            LaunchOption::Workspace(Seq::empty()),
        ),
        requested(options).pane_id is Some <==> is_set(options, LaunchOption::Pane(Seq::empty())),
        requested(options).exit_on_workspace_close <==> is_set(
            options,
            LaunchOption::ExitOnWorkspaceClose,
        ),
{
    let asked = requested(options);
    let workspace = LaunchOption::Workspace(Seq::empty());
    let pane = LaunchOption::Pane(Seq::empty());
    lemma_requested_values(options);
    lemma_sets_requested(options, workspace);
    lemma_sets_requested(options, pane);
    lemma_sets_requested(options, LaunchOption::HideSidebar);
    lemma_sets_requested(options, LaunchOption::ExitOnWorkspaceClose);
    lemma_is_set(options, workspace);
    lemma_is_set(options, pane);
    lemma_is_set(options, LaunchOption::ExitOnWorkspaceClose);
    assert forall|id: Seq<char>| asked.workspace_id == Some(id) <==> #[trigger] options.contains(
        LaunchOption::Workspace(id),
    ) by {
        if asked.workspace_id == Some(id) {
            let i = choose|i: int|
                0 <= i < options.len() && workspace.same_kind(#[trigger] options[i]);
            assert(options[i] == LaunchOption::Workspace(id));
        }
    }
    assert forall|id: Seq<char>| asked.pane_id == Some(id) <==> #[trigger] options.contains(
        LaunchOption::Pane(id),
    ) by {
        if asked.pane_id == Some(id) {
            let i = choose|i: int| 0 <= i < options.len() && pane.same_kind(#[trigger] options[i]);
            assert(options[i] == LaunchOption::Pane(id));
        }
    }
    if asked.hide_sidebar {
        let i = choose|i: int|
            0 <= i < options.len() && LaunchOption::HideSidebar.same_kind(#[trigger] options[i]);
        assert(options[i] == LaunchOption::HideSidebar);
    }
    if asked.exit_on_workspace_close {
        let i = choose|i: int|
            0 <= i < options.len() && LaunchOption::ExitOnWorkspaceClose.same_kind(
                #[trigger] options[i],
            );
        assert(options[i] == LaunchOption::ExitOnWorkspaceClose);
    }
}

proof fn lemma_spells_what_it_reads(args: Seq<Seq<char>>)
    requires
        scan(args).fault is None,
    ensures
        spelled_out(scan(args).options) == args,
    decreases args.len(),
{
    if args.len() == 0 {
        assert(spelled_out(scan(args).options) =~= args);
    } else {
        let option = first_option(args)->Ok_0;
        let rest = args.skip(option.width());
        lemma_spells_what_it_reads(rest);
        let options = scan(args).options;
        assert(options.skip(1) =~= scan(rest).options);
        assert(option.spelled() + rest =~= args);
    }
}

/// Options are told field by field, and the default ones ask for nothing.
pub proof fn options_are_told_field_by_field(options: ClientLaunchOptions)
    ensures
        options@.workspace_id == match options.workspace_id {
            Some(id) => Some(id@),
            None => None,
        },
        options@.pane_id == match options.pane_id {
            Some(id) => Some(id@),
            None => None,
        },
        options@.hide_sidebar == options.hide_sidebar,
        options@.exit_on_workspace_close == options.exit_on_workspace_close,
        options@ == LaunchOptionsView::none() <==> {
            &&& options.workspace_id is None
            &&& options.pane_id is None
            &&& !options.hide_sidebar
            &&& !options.exit_on_workspace_close
        },
{
}

/// An accepted command line is nothing but options, each set once and with its
/// value, a workspace among them where there is a pane or a lifetime; and what it
/// is taken for is what they ask for.
pub proof fn accepted_arguments_are_options(args: Seq<Seq<char>>) -> (options: Seq<LaunchOption>)
    requires
        launch_outcome(args) is Ok,
    ensures
        args == spelled_out(options),
        set_once(options),
        values_given(options),
        asks_for(options, launch_outcome(args)->Ok_0),
        is_set(options, LaunchOption::Pane(Seq::empty())) || is_set(
            options,
            LaunchOption::ExitOnWorkspaceClose,
        ) ==> is_set(options, LaunchOption::Workspace(Seq::empty())),
{
    let options = scan(args).options;
    lemma_spells_what_it_reads(args);
    lemma_set_once(options);
    lemma_scan_can_be_spelled(args);
    lemma_values_given(options);
    lemma_asks_for(options);
    options
}

/// What options come to that are each set once and have their values: a pane
/// without a workspace is refused, and so is a lifetime; all others are taken for
/// what they ask for.
pub proof fn options_are_taken_for_what_they_ask(options: Seq<LaunchOption>)
    requires
        set_once(options),
        values_given(options),
    ensures
        ({
            let workspace = is_set(options, LaunchOption::Workspace(Seq::empty()));
            match launch_outcome(spelled_out(options)) {
                Ok(asked) => {
                    &&& asks_for(options, asked)
                    &&& workspace || !is_set(options, LaunchOption::Pane(Seq::empty()))
                    &&& workspace || !is_set(options, LaunchOption::ExitOnWorkspaceClose)
                },
                Err(message) => !workspace && if is_set(
                    options,
                    LaunchOption::Pane(Seq::empty()),
                ) {
                    message == "--pane requires --workspace"@
                } else {
                    &&& is_set(options, LaunchOption::ExitOnWorkspaceClose)
                    &&& message == "--exit-on-workspace-close requires --workspace"@
                },
            }
        }),
{
    lemma_values_given(options);
    lemma_scan_spelled_out(options);
    lemma_set_once(options);
    lemma_asks_for(options);
}

/// An argument behind such options that is none of the four names is refused by
/// its own name, whatever follows.
pub proof fn unknown_argument_is_named(options: Seq<LaunchOption>, rest: Seq<Seq<char>>)
    requires
        set_once(options),
        values_given(options),
        rest.len() > 0,
        rest[0] != "--workspace"@,
        rest[0] != "--pane"@,
        rest[0] != "--hide-sidebar"@,
        rest[0] != "--exit-on-workspace-close"@,
    ensures
        launch_outcome(spelled_out(options) + rest) == Err::<LaunchOptionsView, Seq<char>>(
            "unknown client option: "@ + rest[0],
        ),
{
    lemma_values_given(options);
    lemma_scan_spelled_out(options);
    lemma_set_once(options);
    lemma_scan_add(spelled_out(options), rest);
    assert(options + scan(rest).options =~= options);
}

/// An option behind such options that lacks its value, because nothing or an
/// empty argument follows, is refused for that, even where it is set already.
pub proof fn missing_value_is_refused(options: Seq<LaunchOption>, rest: Seq<Seq<char>>)
    requires
        set_once(options),
        values_given(options),
        rest.len() > 0,
        rest[0] == "--workspace"@ || rest[0] == "--pane"@,
        rest.len() == 1 || rest[1].len() == 0,
    ensures
        launch_outcome(spelled_out(options) + rest) == Err::<LaunchOptionsView, Seq<char>>(
            if rest[0] == "--workspace"@ {
                "missing value for --workspace"@
            } else {
                "missing value for --pane"@
            },
        ),
{
    lemma_names_differ();
    lemma_values_given(options);
    lemma_scan_spelled_out(options);
    lemma_set_once(options);
    lemma_scan_add(spelled_out(options), rest);
    assert(options + scan(rest).options =~= options);
}

/// An option with its value behind such options that is set already is refused
/// for that, whatever follows.
pub proof fn second_setting_is_refused(
    options: Seq<LaunchOption>,
    again: LaunchOption,
    rest: Seq<Seq<char>>,
)
    requires
        set_once(options),
        values_given(options.push(again)),
        is_set(options, again),
    ensures
        launch_outcome(spelled_out(options) + again.spelled() + rest) == Err::<
            LaunchOptionsView,
            Seq<char>,
        >(
            match again {
                LaunchOption::Workspace(_) => "--workspace may only be specified once"@,
                LaunchOption::Pane(_) => "--pane may only be specified once"@,
                LaunchOption::HideSidebar => "--hide-sidebar may only be specified once"@,
                LaunchOption::ExitOnWorkspaceClose =>
                    "--exit-on-workspace-close may only be specified once"@,
            },
        ),
{
    lemma_names_differ();
    let one = seq![again];
    assert(options.push(again)[options.len() as int] == again);
    assert forall|i: int| 0 <= i < options.len() implies match #[trigger] options[i] {
        LaunchOption::Workspace(id) => id.len() > 0,
        LaunchOption::Pane(id) => id.len() > 0,
        _ => true,
    } by {
        assert(options.push(again)[i] == options[i]);
    }
    lemma_values_given(options);
    lemma_values_given(one);
    lemma_scan_spelled_out(options);
    lemma_scan_spelled_out(one);
    assert(one.skip(1) =~= Seq::empty());
    assert(spelled_out(one.skip(1)) =~= Seq::empty());
    assert(spelled_out(one) =~= again.spelled());
    lemma_set_once(options);
    lemma_is_set(options, again);
    let tail = again.spelled() + rest;
    lemma_scan_add(again.spelled(), rest);
    lemma_scan_add(spelled_out(options), tail);
    assert(spelled_out(options) + again.spelled() + rest =~= spelled_out(options) + tail);
    lemma_push_option(options, again);
    lemma_repeat_fault_stays(options.push(again), scan(rest).options);
    assert(options + (one + scan(rest).options) =~= options.push(again) + scan(rest).options);
}

/// The options of an accepted command line mean the same in every order.
pub proof fn option_order_is_free(options: Seq<LaunchOption>, reordered: Seq<LaunchOption>)
    requires
        launch_outcome(spelled_out(options)) is Ok,
        reordered.to_multiset() == options.to_multiset(),
    ensures
        launch_outcome(spelled_out(reordered)) == launch_outcome(spelled_out(options)),
{
    broadcast use group_to_multiset_ensures;

    lemma_read_back_can_be_spelled(options);
    lemma_scan_spelled_out(options);
    assert forall|i: int| 0 <= i < reordered.len() implies can_be_spelled(
        #[trigger] reordered[i],
    ) by {
        assert(reordered.contains(reordered[i]));
        assert(options.to_multiset().count(reordered[i]) > 0);
        assert(options.contains(reordered[i]));
    }
    lemma_scan_spelled_out(reordered);
    lemma_reordered_options(spelled_out(options), spelled_out(reordered));
}

/// Where the first arguments are all options, the order of the two parts makes
/// no difference to an accepted command line.
pub proof fn parts_can_be_swapped(first: Seq<Seq<char>>, second: Seq<Seq<char>>)
    requires
        scan(first).fault is None,
        launch_outcome(first + second) is Ok,
    ensures
        launch_outcome(second + first) == launch_outcome(first + second),
{
    lemma_scan_add(first, second);
    lemma_scan_add(second, first);
    lemma_multiset_commutative(scan(first).options, scan(second).options);
    lemma_multiset_commutative(scan(second).options, scan(first).options);
    assert(scan(second + first).options.to_multiset() =~= scan(
        first + second,
    ).options.to_multiset());
    lemma_reordered_options(first + second, second + first);
}

/// Whatever is consistent can be asked for, and is then what the client gets.
pub proof fn consistent_options_can_be_asked_for(asked: LaunchOptionsView)
    requires
        asked.consistent(),
    ensures
        launch_outcome(spelled_out(options_for(asked))) == Ok::<LaunchOptionsView, Seq<char>>(
            asked,
        ),
{
    let options = options_for(asked);
    assert(all_can_be_spelled(options));
    lemma_scan_spelled_out(options);
    lemma_no_repeat(options);
    lemma_requested_values(options);
    lemma_sets_requested(options, LaunchOption::Workspace(Seq::empty()));
    lemma_sets_requested(options, LaunchOption::Pane(Seq::empty()));
    lemma_sets_requested(options, LaunchOption::HideSidebar);
    lemma_sets_requested(options, LaunchOption::ExitOnWorkspaceClose);
    let pane_at: int = if asked.workspace_id is Some { 1 } else { 0 };
    let sidebar_at: int = if asked.pane_id is Some { pane_at + 1 } else { pane_at };
    let lifetime_at: int = if asked.hide_sidebar { sidebar_at + 1 } else { sidebar_at };
    if asked.workspace_id is Some {
        assert(options[0] == LaunchOption::Workspace(asked.workspace_id->0));
    }
    if asked.pane_id is Some {
        assert(options[pane_at] == LaunchOption::Pane(asked.pane_id->0));
    }
    if asked.hide_sidebar {
        assert(options[sidebar_at] is HideSidebar);
    }
    if asked.exit_on_workspace_close {
        assert(options[lifetime_at] is ExitOnWorkspaceClose);
    }
    assert(requested(options) == asked);
}

} // verus!
