//! The decisions of a task run, as a state machine.
//!
//! A run caches sudo credentials only when some task needs them, bootstraps
//! the `flatpak` package when a task needs it, then checks and runs each task
//! in turn. The machine never touches the system itself: each step names the
//! next outside action (a request), and the answer comes back as an event.
//! Output captured from processes is logged with the password redacted.
use vstd::prelude::*;

use crate::catalog::{Task, display_command, result_view, shown_command};
use crate::runner::{
    any_task_needs_flatpak, check_sudo_command, flatpak_install_argv,
    flatpak_package_install_command, io_error_message, io_error_text, sudo_command_result,
    task_command_result, tasks_need_flatpak, tasks_need_privileges, tasks_privileged,
    validate_task_command,
};
use crate::system::PackageManager;
use crate::text::{concat2, concat3, decimal, decimal_string, lines, owned, split_lines, str_eq, views};
use crate::validate::{redact_secret, redacted, zeroize_string};

verus! {

/// What the app must do before the run can go on.
pub enum RunnerRequest {
    /// Tell whether a program called `name` is on PATH.
    CommandExists { name: String },
    /// Run the argv of `sudo_cache_argv` (`sudo -S -v`), writing the run's
    /// password and a newline to its stdin.
    CacheSudo,
    /// Tell which package manager the host uses.
    DetectPackageManager,
    /// Run `command`, a `sudo -S` argv, writing the run's password and a
    /// newline to its stdin, and capture its output.
    RunSudo { command: Vec<String> },
    /// Canonicalize the app directory and `script`.
    ResolveScript { script: String },
    /// Run `program` with `args`, stdin closed, and capture its output.
    Spawn { program: String, args: Vec<String> },
    /// Drop the cached sudo credentials with the argv of `sudo_drop_argv`
    /// (`sudo -k`).
    DropSudo,
}

/// How a process started for the run ended.
pub enum ProcessRun {
    /// It could not be started; `not_found` when the program is not on PATH.
    StartFailed { not_found: bool, error: String },
    /// The password could not be written to its stdin.
    StdinFailed,
    /// Waiting for it failed; `not_found` when the error was "not found".
    WaitFailed { not_found: bool, error: String },
    /// It exited. Its output is decoded as UTF-8, invalid sequences replaced.
    Exited { stdout: String, stderr: String, success: bool, code: Option<i32> },
}

/// The answer to a request, or the start of the run.
pub enum RunnerEvent {
    Begin,
    Exists { present: bool },
    PackageManagerFound { manager: PackageManager },
    Ran { run: ProcessRun },
    Resolved { base: Result<String, String>, script: Result<String, String> },
    SudoDropped,
}

/// Where a run stands.
#[derive(Clone, Copy, Debug, PartialEq, Eq, Structural)]
pub enum RunnerPhase {
    Start,
    CheckingPrivileges,
    CachingSudo,
    CheckingFlatpak,
    DetectingManager,
    CheckingNala,
    Bootstrapping,
    RecheckingFlatpak,
    Resolving { index: usize },
    Running { index: usize },
    DroppingSudo,
    Finished,
}

/// A run of tasks.
pub struct TaskRunner {
    tasks: Vec<Task>,
    password: String,
    needs_sudo: bool,
    phase: RunnerPhase,
}

/// What one step produced: lines for the log, the next request, and whether
/// the run is over.
pub struct RunnerStep {
    pub logs: Vec<String>,
    pub request: Option<RunnerRequest>,
    pub done: bool,
}

/// A request with its strings read as character sequences.
pub enum RequestView {
    CommandExists(Seq<char>),
    CacheSudo,
    DetectPackageManager,
    RunSudo(Seq<Seq<char>>),
    ResolveScript(Seq<char>),
    Spawn(Seq<char>, Seq<Seq<char>>),
    DropSudo,
}

pub open spec fn request_view(r: RunnerRequest) -> RequestView {
    match r {
        RunnerRequest::CommandExists { name } => RequestView::CommandExists(name@),
        RunnerRequest::CacheSudo => RequestView::CacheSudo,
        RunnerRequest::DetectPackageManager => RequestView::DetectPackageManager,
        RunnerRequest::RunSudo { command } => RequestView::RunSudo(views(command@)),
        RunnerRequest::ResolveScript { script } => RequestView::ResolveScript(script@),
        RunnerRequest::Spawn { program, args } => RequestView::Spawn(program@, views(args@)),
        RunnerRequest::DropSudo => RequestView::DropSudo,
    }
}

pub open spec fn opt_request_view(r: Option<RunnerRequest>) -> Option<RequestView> {
    match r {
        Some(q) => Some(request_view(q)),
        None => None,
    }
}

/// The state that steps change.
pub struct RunState {
    pub phase: RunnerPhase,
    pub needs_sudo: bool,
    pub password: Seq<char>,
}

/// The outcome of one step.
pub struct Transition {
    pub state: RunState,
    pub logs: Seq<Seq<char>>,
    pub request: Option<RequestView>,
    pub done: bool,
}

/// The state of a new run that will use `password` for sudo.
pub open spec fn fresh_state(password: Seq<char>) -> RunState {
    RunState { phase: RunnerPhase::Start, needs_sudo: false, password }
}

/// Whether the phase waits for this kind of event.
pub open spec fn expects(phase: RunnerPhase, e: RunnerEvent) -> bool {
    match phase {
        RunnerPhase::Start => e is Begin,
        RunnerPhase::CheckingPrivileges | RunnerPhase::CheckingFlatpak | RunnerPhase::CheckingNala
        | RunnerPhase::RecheckingFlatpak => e is Exists,
        RunnerPhase::CachingSudo | RunnerPhase::Bootstrapping => e is Ran,
        RunnerPhase::Running { .. } => e matches RunnerEvent::Ran { run } && !(run is StdinFailed),
        RunnerPhase::DetectingManager => e is PackageManagerFound,
        RunnerPhase::Resolving { .. } => e is Resolved,
        RunnerPhase::DroppingSudo => e is SudoDropped,
        RunnerPhase::Finished => false,
    }
}

/// Whether the state is one the machine can be in for these tasks.
pub open spec fn phase_fits(phase: RunnerPhase, tasks: Seq<Task>) -> bool {
    match phase {
        RunnerPhase::Resolving { index } => index < tasks.len() && tasks[index as int].command@.len() >= 2,
        RunnerPhase::Running { index } => index < tasks.len() && tasks[index as int].command@.len() >= 1,
        _ => true,
    }
}

/// `logs` logged before what `t` does.
pub open spec fn after_logs(logs: Seq<Seq<char>>, t: Transition) -> Transition {
    Transition { state: t.state, logs: logs + t.logs, request: t.request, done: t.done }
}

/// The end of the run: drop the sudo credentials if they were cached, then
/// wipe the password and finish.
pub open spec fn finish(s: RunState) -> Transition {
    if s.needs_sudo {
        Transition {
            state: RunState { phase: RunnerPhase::DroppingSudo, needs_sudo: s.needs_sudo, password: s.password },
            logs: Seq::empty(),
            request: Some(RequestView::DropSudo),
            done: false,
        }
    } else {
        Transition {
            state: RunState { phase: RunnerPhase::Finished, needs_sudo: s.needs_sudo, password: Seq::empty() },
            logs: Seq::empty(),
            request: None,
            done: true,
        }
    }
}

/// The error of a task argv that cannot even name a helper script.
pub open spec fn shape_error(c: Seq<Seq<char>>) -> Option<Seq<char>> {
    if c.len() == 0 {
        Some("Empty command."@)
    } else if c[0] != "bash"@ {
        Some("Only bash helper scripts are allowed."@)
    } else if c.len() < 2 {
        Some("Missing helper script path."@)
    } else {
        None
    }
}

pub open spec fn starting_log(t: Task) -> Seq<char> {
    "[INFO] Starting: "@ + t.description@
}

/// Going through the tasks from index `i`: each is announced; one whose argv
/// cannot name a script is reported and skipped; for the first other one the
/// app is asked to resolve its script. After the last task the run ends.
pub open spec fn start_tasks(s: RunState, tasks: Seq<Task>, i: int) -> Transition
    decreases tasks.len() - i,
{
    if i < 0 || i >= tasks.len() {
        finish(s)
    } else {
        let c = views(tasks[i].command@);
        match shape_error(c) {
            Some(e) => after_logs(
                seq![starting_log(tasks[i]), "[ERROR] "@ + e],
                start_tasks(s, tasks, i + 1),
            ),
            None => Transition {
                state: RunState {
                    phase: RunnerPhase::Resolving { index: i as usize },
                    needs_sudo: s.needs_sudo,
                    password: s.password,
                },
                logs: seq![starting_log(tasks[i])],
                request: Some(RequestView::ResolveScript(c[1])),
                done: false,
            },
        }
    }
}

/// After sudo is settled: make sure `flatpak` is there when a task needs it,
/// then go through the tasks.
pub open spec fn after_sudo(s: RunState, tasks: Seq<Task>) -> Transition {
    if tasks_need_flatpak(tasks) {
        Transition {
            state: RunState { phase: RunnerPhase::CheckingFlatpak, needs_sudo: s.needs_sudo, password: s.password },
            logs: Seq::empty(),
            request: Some(RequestView::CommandExists("flatpak"@)),
            done: false,
        }
    } else {
        start_tasks(s, tasks, 0)
    }
}

/// The error that ends the run when caching sudo credentials went wrong.
pub open spec fn cache_error(run: ProcessRun) -> Option<Seq<char>> {
    match run {
        ProcessRun::StartFailed { .. } => Some("[ERROR] Failed to start sudo."@),
        ProcessRun::StdinFailed => Some("[ERROR] Failed to submit sudo credentials."@),
        ProcessRun::WaitFailed { .. } => Some("[ERROR] Failed to wait for sudo."@),
        ProcessRun::Exited { success, .. } => if success {
            None
        } else {
            Some("[ERROR] sudo authentication failed."@)
        },
    }
}

/// The captured output of a process, line by line, stdout first, with the
/// password redacted from every line.
pub open spec fn output_logs(stdout: Seq<char>, stderr: Seq<char>, password: Seq<char>) -> Seq<Seq<char>> {
    (lines(stdout) + lines(stderr)).map_values(|l: Seq<char>| redacted(l, password))
}

/// Bootstrapping `flatpak` with the argv for the host: show it and run it,
/// or report why it cannot run and go on with the tasks.
pub open spec fn bootstrap(s: RunState, tasks: Seq<Task>, pm: PackageManager, nala: bool) -> Transition {
    match flatpak_install_argv(pm, nala) {
        None => after_logs(
            seq![redacted("Unsupported package manager for Flatpak bootstrap: unknown"@, s.password)],
            start_tasks(s, tasks, 0),
        ),
        Some(argv) => {
            let shown = "Command: "@ + shown_command(argv);
            match sudo_command_result(argv) {
                Err(e) => after_logs(seq![shown, redacted(e, s.password)], start_tasks(s, tasks, 0)),
                Ok(()) => Transition {
                    state: RunState { phase: RunnerPhase::Bootstrapping, needs_sudo: s.needs_sudo, password: s.password },
                    logs: seq![shown],
                    request: Some(RequestView::RunSudo(argv)),
                    done: false,
                },
            }
        },
    }
}

/// The error of a failed bootstrap run, when it did not exit.
pub open spec fn bootstrap_run_error(run: ProcessRun) -> Seq<char> {
    match run {
        ProcessRun::StartFailed { not_found, error } => if not_found {
            "[ERROR] sudo was not found on PATH."@
        } else {
            "[ERROR] Failed to start sudo: "@ + error@
        },
        ProcessRun::StdinFailed => "[ERROR] Failed to submit sudo credentials."@,
        ProcessRun::WaitFailed { not_found, error } => "[ERROR] "@ + io_error_text(
            "sudo"@,
            not_found,
            error@,
        ),
        ProcessRun::Exited { .. } => "[ERROR] Failed to install the flatpak package."@,
    }
}

/// A signed decimal number.
pub open spec fn signed_decimal(c: i32) -> Seq<char> {
    if c < 0 {
        seq!['-'] + decimal((-c) as nat)
    } else {
        decimal(c as nat)
    }
}

/// An exit code as reported: the number, or "unknown" when there is none.
pub open spec fn code_text(code: Option<i32>) -> Seq<char> {
    match code {
        Some(c) => signed_decimal(c),
        None => "unknown"@,
    }
}

/// What is logged once a task's process has ended.
pub open spec fn task_logs(t: Task, program: Seq<char>, run: ProcessRun, password: Seq<char>) -> Seq<Seq<char>> {
    match run {
        ProcessRun::Exited { stdout, stderr, success, code } => output_logs(stdout@, stderr@, password).push(
            if success {
                "[SUCCESS] "@ + t.description@ + " completed successfully."@
            } else {
                "[ERROR] "@ + t.description@ + " failed with return code "@ + code_text(code) + "."@
            },
        ),
        ProcessRun::StartFailed { not_found, error } | ProcessRun::WaitFailed { not_found, error } => seq![
            redacted(
                "[EXCEPTION] Failed to run "@ + t.description@ + ": "@ + io_error_text(program, not_found, error@),
                password,
            ),
        ],
        ProcessRun::StdinFailed => Seq::empty(),
    }
}

/// One step of a run.
pub open spec fn next(s: RunState, tasks: Seq<Task>, e: RunnerEvent) -> Transition {
    match (s.phase, e) {
        (RunnerPhase::Start, RunnerEvent::Begin) => Transition {
            state: RunState { phase: RunnerPhase::CheckingPrivileges, needs_sudo: s.needs_sudo, password: s.password },
            logs: Seq::empty(),
            request: Some(RequestView::CommandExists("flatpak"@)),
            done: false,
        },
        (RunnerPhase::CheckingPrivileges, RunnerEvent::Exists { present }) => if tasks_privileged(tasks, present) {
            if s.password.len() == 0 {
                Transition {
                    state: RunState { phase: RunnerPhase::Finished, needs_sudo: true, password: Seq::empty() },
                    logs: seq![redacted("[ERROR] A sudo password is required."@, s.password)],
                    request: None,
                    done: true,
                }
            } else {
                Transition {
                    state: RunState { phase: RunnerPhase::CachingSudo, needs_sudo: true, password: s.password },
                    logs: Seq::empty(),
                    request: Some(RequestView::CacheSudo),
                    done: false,
                }
            }
        } else {
            after_logs(
                seq!["[INFO] Skipping sudo; selected tasks run as the current user."@],
                after_sudo(RunState { phase: s.phase, needs_sudo: false, password: Seq::empty() }, tasks),
            )
        },
        (RunnerPhase::CachingSudo, RunnerEvent::Ran { run }) => match cache_error(run) {
            Some(err) => Transition {
                state: RunState { phase: RunnerPhase::Finished, needs_sudo: s.needs_sudo, password: Seq::empty() },
                logs: seq![redacted(err, s.password)],
                request: None,
                done: true,
            },
            None => after_sudo(s, tasks),
        },
        (RunnerPhase::CheckingFlatpak, RunnerEvent::Exists { present }) => if present {
            after_logs(seq!["[INFO] Flatpak is already installed."@], start_tasks(s, tasks, 0))
        } else {
            Transition {
                state: RunState { phase: RunnerPhase::DetectingManager, needs_sudo: s.needs_sudo, password: s.password },
                logs: seq!["[INFO] Flatpak is not installed. Installing the flatpak package..."@],
                request: Some(RequestView::DetectPackageManager),
                done: false,
            }
        },
        (RunnerPhase::DetectingManager, RunnerEvent::PackageManagerFound { manager }) => if manager
            == PackageManager::Apt {
            Transition {
                state: RunState { phase: RunnerPhase::CheckingNala, needs_sudo: s.needs_sudo, password: s.password },
                logs: Seq::empty(),
                request: Some(RequestView::CommandExists("nala"@)),
                done: false,
            }
        } else {
            bootstrap(s, tasks, manager, false)
        },
        (RunnerPhase::CheckingNala, RunnerEvent::Exists { present }) => bootstrap(
            s,
            tasks,
            PackageManager::Apt,
            present,
        ),
        (RunnerPhase::Bootstrapping, RunnerEvent::Ran { run }) => match run {
            ProcessRun::Exited { stdout, stderr, success, .. } => if success {
                Transition {
                    state: RunState { phase: RunnerPhase::RecheckingFlatpak, needs_sudo: s.needs_sudo, password: s.password },
                    logs: output_logs(stdout@, stderr@, s.password),
                    request: Some(RequestView::CommandExists("flatpak"@)),
                    done: false,
                }
            } else {
                after_logs(
                    output_logs(stdout@, stderr@, s.password).push(
                        redacted(bootstrap_run_error(run), s.password),
                    ),
                    start_tasks(s, tasks, 0),
                )
            },
            _ => after_logs(
                seq![redacted(bootstrap_run_error(run), s.password)],
                start_tasks(s, tasks, 0),
            ),
        },
        (RunnerPhase::RecheckingFlatpak, RunnerEvent::Exists { present }) => if present {
            after_logs(seq!["[SUCCESS] Flatpak package installed."@], start_tasks(s, tasks, 0))
        } else {
            after_logs(
                seq![redacted("[ERROR] The flatpak command is still missing after package install."@, s.password)],
                start_tasks(s, tasks, 0),
            )
        },
        (RunnerPhase::Resolving { index }, RunnerEvent::Resolved { base, script }) => {
            let c = views(tasks[index as int].command@);
            match task_command_result(c, result_view(base), result_view(script)) {
                Err(err) => after_logs(seq!["[ERROR] "@ + err], start_tasks(s, tasks, index + 1)),
                Ok(()) => Transition {
                    state: RunState { phase: RunnerPhase::Running { index }, needs_sudo: s.needs_sudo, password: s.password },
                    logs: seq!["Command: "@ + shown_command(c)],
                    request: Some(RequestView::Spawn(c[0], c.subrange(1, c.len() as int))),
                    done: false,
                },
            }
        },
        (RunnerPhase::Running { index }, RunnerEvent::Ran { run }) => after_logs(
            task_logs(tasks[index as int], views(tasks[index as int].command@)[0], run, s.password),
            start_tasks(s, tasks, index + 1),
        ),
        (RunnerPhase::DroppingSudo, RunnerEvent::SudoDropped) => Transition {
            state: RunState { phase: RunnerPhase::Finished, needs_sudo: s.needs_sudo, password: Seq::empty() },
            logs: Seq::empty(),
            request: None,
            done: true,
        },
        _ => Transition { state: s, logs: Seq::empty(), request: None, done: false },
    }
}



/// What going through the tasks can ask for: a script resolution, or the
/// end of the run (dropping credentials only if they were cached). It keeps
/// the sudo decision, and a finished run has no password left.
proof fn lemma_start_tasks_shape(s: RunState, tasks: Seq<Task>, i: int)
    ensures
        ({
            let t = start_tasks(s, tasks, i);
            &&& t.request is None || t.request matches Some(RequestView::ResolveScript(_))
                || (t.request == Some(RequestView::DropSudo) && s.needs_sudo)
            &&& t.state.needs_sudo == s.needs_sudo
            &&& t.done ==> t.state.password.len() == 0
            &&& t.state.password.len() == 0 || t.state.password == s.password
        }),
    decreases tasks.len() - i,
{
    if 0 <= i < tasks.len() {
        lemma_start_tasks_shape(s, tasks, i + 1);
    }
}

proof fn lemma_after_sudo_shape(s: RunState, tasks: Seq<Task>)
    ensures
        ({
            let t = after_sudo(s, tasks);
            &&& t.request is None || t.request matches Some(RequestView::ResolveScript(_))
                || t.request matches Some(RequestView::CommandExists(_))
                || (t.request == Some(RequestView::DropSudo) && s.needs_sudo)
            &&& t.state.needs_sudo == s.needs_sudo
            &&& t.done ==> t.state.password.len() == 0
        }),
{
    lemma_start_tasks_shape(s, tasks, 0);
}

proof fn lemma_bootstrap_shape(s: RunState, tasks: Seq<Task>, pm: PackageManager, nala: bool)
    ensures
        ({
            let t = bootstrap(s, tasks, pm, nala);
            &&& t.request is None || t.request matches Some(RequestView::ResolveScript(_))
                || t.request matches Some(RequestView::RunSudo(_))
                || (t.request == Some(RequestView::DropSudo) && s.needs_sudo)
            &&& t.state.needs_sudo == s.needs_sudo
            &&& t.done ==> t.state.password.len() == 0
        }),
{
    lemma_start_tasks_shape(s, tasks, 0);
}

/// The run starts a task's process only right after the app resolved that
/// task's script and the whole argv passed the task check, and the process
/// is exactly the task's argv.
pub proof fn lemma_spawn_only_checked_commands(s: RunState, tasks: Seq<Task>, e: RunnerEvent)
    ensures
        match next(s, tasks, e).request {
            Some(RequestView::Spawn(program, args)) => match (s.phase, e) {
                (RunnerPhase::Resolving { index }, RunnerEvent::Resolved { base, script }) => {
                    &&& task_command_result(
                        views(tasks[index as int].command@),
                        result_view(base),
                        result_view(script),
                    ) is Ok
                    &&& seq![program] + args == views(tasks[index as int].command@)
                },
                _ => false,
            },
            _ => true,
        },
{
    lemma_start_tasks_shape(s, tasks, 0);
    lemma_after_sudo_shape(s, tasks);
    lemma_after_sudo_shape(RunState { phase: s.phase, needs_sudo: false, password: Seq::empty() }, tasks);
    lemma_bootstrap_shape(s, tasks, PackageManager::Apt, true);
    lemma_bootstrap_shape(s, tasks, PackageManager::Apt, false);
    match (s.phase, e) {
        (RunnerPhase::DetectingManager, RunnerEvent::PackageManagerFound { manager }) => {
            lemma_bootstrap_shape(s, tasks, manager, false);
        },
        (RunnerPhase::CheckingNala, RunnerEvent::Exists { present }) => {
            lemma_bootstrap_shape(s, tasks, PackageManager::Apt, present);
        },
        (RunnerPhase::Resolving { index }, RunnerEvent::Resolved { base, script }) => {
            lemma_start_tasks_shape(s, tasks, index + 1);
            let c = views(tasks[index as int].command@);
            if task_command_result(c, result_view(base), result_view(script)) is Ok {
                assert(seq![c[0]] + c.subrange(1, c.len() as int) =~= c);
            }
        },
        (RunnerPhase::Running { index }, _) => {
            lemma_start_tasks_shape(s, tasks, index + 1);
        },
        _ => {},
    }
}

/// Sudo credentials are cached only when some task needs privileges and a
/// password was given; they are dropped only in a run that cached them; the
/// run decides to use sudo only from what the tasks need.
pub proof fn lemma_sudo_only_when_needed(s: RunState, tasks: Seq<Task>, e: RunnerEvent)
    ensures
        next(s, tasks, e).request == Some(RequestView::CacheSudo) ==> (s.phase
            == RunnerPhase::CheckingPrivileges && (e matches RunnerEvent::Exists { present }
            && tasks_privileged(tasks, present)) && s.password.len() > 0),
        next(s, tasks, e).request == Some(RequestView::DropSudo) ==> s.needs_sudo,
        next(s, tasks, e).state.needs_sudo ==> s.needs_sudo || (s.phase
            == RunnerPhase::CheckingPrivileges && (e matches RunnerEvent::Exists { present }
            && tasks_privileged(tasks, present))),
{
    lemma_start_tasks_shape(s, tasks, 0);
    lemma_after_sudo_shape(s, tasks);
    lemma_after_sudo_shape(RunState { phase: s.phase, needs_sudo: false, password: Seq::empty() }, tasks);
    match (s.phase, e) {
        (RunnerPhase::DetectingManager, RunnerEvent::PackageManagerFound { manager }) => {
            lemma_bootstrap_shape(s, tasks, manager, false);
        },
        (RunnerPhase::CheckingNala, RunnerEvent::Exists { present }) => {
            lemma_bootstrap_shape(s, tasks, PackageManager::Apt, present);
        },
        (RunnerPhase::Resolving { index }, _) => {
            lemma_start_tasks_shape(s, tasks, index + 1);
        },
        (RunnerPhase::Running { index }, _) => {
            lemma_start_tasks_shape(s, tasks, index + 1);
        },
        _ => {},
    }
}

/// When the run is over, its password is gone.
pub proof fn lemma_finished_run_wipes_password(s: RunState, tasks: Seq<Task>, e: RunnerEvent)
    ensures
        next(s, tasks, e).done ==> next(s, tasks, e).state.password.len() == 0,
{
    lemma_start_tasks_shape(s, tasks, 0);
    lemma_after_sudo_shape(s, tasks);
    lemma_after_sudo_shape(RunState { phase: s.phase, needs_sudo: false, password: Seq::empty() }, tasks);
    match (s.phase, e) {
        (RunnerPhase::DetectingManager, RunnerEvent::PackageManagerFound { manager }) => {
            lemma_bootstrap_shape(s, tasks, manager, false);
        },
        (RunnerPhase::CheckingNala, RunnerEvent::Exists { present }) => {
            lemma_bootstrap_shape(s, tasks, PackageManager::Apt, present);
        },
        (RunnerPhase::Resolving { index }, _) => {
            lemma_start_tasks_shape(s, tasks, index + 1);
        },
        (RunnerPhase::Running { index }, _) => {
            lemma_start_tasks_shape(s, tasks, index + 1);
        },
        _ => {},
    }
}

/// No line of captured output is logged with the password in it, for a
/// non-empty password without `*`.
pub proof fn lemma_output_logs_hide_password(stdout: Seq<char>, stderr: Seq<char>, password: Seq<char>)
    requires
        password.len() > 0,
        forall|i: int| 0 <= i < password.len() ==> password[i] != '*',
    ensures
        forall|i: int|
            0 <= i < output_logs(stdout, stderr, password).len() ==> !crate::text::contains(
                #[trigger] output_logs(stdout, stderr, password)[i],
                password,
            ),
{
    assert forall|i: int| 0 <= i < output_logs(stdout, stderr, password).len() implies !crate::text::contains(
        #[trigger] output_logs(stdout, stderr, password)[i],
        password,
    ) by {
        let l = (lines(stdout) + lines(stderr))[i];
        crate::validate::lemma_redaction_hides_secret(l, password);
    }
}

/// When a task's process exits, the step logs every line of its stdout and
/// then every line of its stderr, in order and each with the password
/// redacted, and right after them the line with the outcome.
pub proof fn lemma_task_output_logged(
    s: RunState,
    tasks: Seq<Task>,
    index: usize,
    stdout: String,
    stderr: String,
    success: bool,
    code: Option<i32>,
)
    requires
        s.phase == (RunnerPhase::Running { index }),
        index < tasks.len(),
    ensures
        ({
            let t = next(
                s,
                tasks,
                RunnerEvent::Ran { run: ProcessRun::Exited { stdout, stderr, success, code } },
            );
            let o = lines(stdout@);
            let r = lines(stderr@);
            let d = tasks[index as int].description@;
            &&& t.logs.len() >= o.len() + r.len() + 1
            &&& forall|i: int| 0 <= i < o.len() ==> t.logs[i] == redacted(#[trigger] o[i], s.password)
            &&& forall|j: int| 0 <= j < r.len() ==> t.logs[o.len() + j] == redacted(#[trigger] r[j], s.password)
            &&& t.logs[(o.len() + r.len()) as int] == if success {
                "[SUCCESS] "@ + d + " completed successfully."@
            } else {
                "[ERROR] "@ + d + " failed with return code "@ + code_text(code) + "."@
            }
        }),
{
    let o = lines(stdout@);
    let r = lines(stderr@);
    let out = output_logs(stdout@, stderr@, s.password);
    assert(out.len() == o.len() + r.len());
    assert forall|j: int| 0 <= j < r.len() implies out[o.len() + j] == redacted(#[trigger] r[j], s.password) by {
        assert((o + r)[o.len() + j] == r[j]);
    }
    assert forall|i: int| 0 <= i < o.len() implies out[i] == redacted(#[trigger] o[i], s.password) by {
        assert((o + r)[i] == o[i]);
    }
}

/// When the Flatpak bootstrap exits, the step first logs every line of its
/// stdout and then every line of its stderr, in order and each with the
/// password redacted.
pub proof fn lemma_bootstrap_output_logged(
    s: RunState,
    tasks: Seq<Task>,
    stdout: String,
    stderr: String,
    success: bool,
    code: Option<i32>,
)
    requires
        s.phase == RunnerPhase::Bootstrapping,
    ensures
        ({
            let t = next(
                s,
                tasks,
                RunnerEvent::Ran { run: ProcessRun::Exited { stdout, stderr, success, code } },
            );
            let o = lines(stdout@);
            let r = lines(stderr@);
            &&& t.logs.len() >= o.len() + r.len()
            &&& forall|i: int| 0 <= i < o.len() ==> t.logs[i] == redacted(#[trigger] o[i], s.password)
            &&& forall|j: int| 0 <= j < r.len() ==> t.logs[o.len() + j] == redacted(#[trigger] r[j], s.password)
        }),
{
    let o = lines(stdout@);
    let r = lines(stderr@);
    let out = output_logs(stdout@, stderr@, s.password);
    assert(out.len() == o.len() + r.len());
    assert forall|j: int| 0 <= j < r.len() implies out[o.len() + j] == redacted(#[trigger] r[j], s.password) by {
        assert((o + r)[o.len() + j] == r[j]);
    }
    assert forall|i: int| 0 <= i < o.len() implies out[i] == redacted(#[trigger] o[i], s.password) by {
        assert((o + r)[i] == o[i]);
    }
}

/// Whether a step produced what the transition says.
pub open spec fn step_matches(r: RunnerStep, t: Transition) -> bool {
    &&& views(r.logs@) == t.logs
    &&& opt_request_view(r.request) == t.request
    &&& r.done == t.done
}

fn owned_strings(v: &Vec<String>) -> (r: Vec<String>)
    ensures
        views(r@) == views(v@),
{
    let mut r: Vec<String> = Vec::new();
    let mut i: usize = 0;
    while i < v.len()
        invariant
            i <= v.len(),
            views(r@) == views(v@).take(i as int),
        decreases v.len() - i,
    {
        let ghost old_r = r@;
        r.push(v[i].clone());
        assert(views(r@) =~= views(old_r).push(v@[i as int]@));
        assert(views(v@).take(i + 1) =~= views(v@).take(i as int).push(v@[i as int]@));
        i = i + 1;
    }
    assert(views(v@).take(v.len() as int) =~= views(v@));
    r
}

fn push_log(logs: &mut Vec<String>, line: String)
    ensures
        views(final(logs)@) == views(old(logs)@).push(line@),
{
    let ghost before = logs@;
    logs.push(line);
    assert(views(logs@) =~= views(before).push(line@));
}

/// Logs every line of `text`, with `password` redacted.
fn push_output_lines(logs: &mut Vec<String>, text: &str, password: &str)
    ensures
        views(final(logs)@) == views(old(logs)@) + lines(text@).map_values(
            |l: Seq<char>| redacted(l, password@),
        ),
{
    let parts = split_lines(text);
    let ghost start = views(logs@);
    let mut i: usize = 0;
    while i < parts.len()
        invariant
            views(parts@) == lines(text@),
            i <= parts.len(),
            views(logs@) == start + lines(text@).take(i as int).map_values(
                |l: Seq<char>| redacted(l, password@),
            ),
        decreases parts.len() - i,
    {
        assert(views(parts@)[i as int] == parts@[i as int]@);
        let line = redact_secret(parts[i].as_str(), password);
        push_log(logs, line);
        assert(lines(text@).take(i + 1).map_values(|l: Seq<char>| redacted(l, password@))
            =~= lines(text@).take(i as int).map_values(|l: Seq<char>| redacted(l, password@)).push(
            redacted(lines(text@)[i as int], password@),
        ));
        i = i + 1;
    }
    assert(lines(text@).take(parts.len() as int) =~= lines(text@));
}

/// Logs the captured output of a process, stdout first.
fn push_output(logs: &mut Vec<String>, stdout: &str, stderr: &str, password: &str)
    ensures
        views(final(logs)@) == views(old(logs)@) + output_logs(stdout@, stderr@, password@),
{
    push_output_lines(logs, stdout, password);
    push_output_lines(logs, stderr, password);
    assert((lines(stdout@) + lines(stderr@)).map_values(|l: Seq<char>| redacted(l, password@))
        =~= lines(stdout@).map_values(|l: Seq<char>| redacted(l, password@)) + lines(
        stderr@,
    ).map_values(|l: Seq<char>| redacted(l, password@)));
}

/// A signed exit code in decimal.
fn signed_decimal_string(c: i32) -> (r: String)
    ensures
        r@ == signed_decimal(c),
{
    if c < 0 {
        let magnitude = (0i64 - (c as i64)) as usize;
        let digits = decimal_string(magnitude);
        let mut r = String::new();
        crate::text::push_char(&mut r, '-');
        r.append(digits.as_str());
        assert(r@ =~= seq!['-'] + decimal((-c) as nat));
        r
    } else {
        decimal_string(c as usize)
    }
}

fn code_text_string(code: Option<i32>) -> (r: String)
    ensures
        r@ == code_text(code),
{
    match code {
        Some(c) => signed_decimal_string(c),
        None => owned("unknown"),
    }
}

impl TaskRunner {
    /// The tasks of the run.
    pub closed spec fn task_list(&self) -> Seq<Task> {
        self.tasks@
    }

    /// The state that steps change.
    pub closed spec fn state(&self) -> RunState {
        RunState { phase: self.phase, needs_sudo: self.needs_sudo, password: self.password@ }
    }

    #[verifier::type_invariant]
    closed spec fn indexes_fit(&self) -> bool {
        phase_fits(self.phase, self.tasks@)
    }

    /// A run of `tasks` that will use `password` for sudo.
    pub fn new(tasks: Vec<Task>, password: String) -> (r: Self)
        ensures
            r.task_list() == tasks@,
            r.state() == fresh_state(password@),
    {
        TaskRunner { tasks, password, needs_sudo: false, phase: RunnerPhase::Start }
    }

    /// Overwrites the password's bytes in memory and leaves it empty.
    fn wipe_password(&mut self)
        ensures
            final(self).task_list() == old(self).task_list(),
            final(self).state() == (RunState { password: Seq::empty(), ..old(self).state() }),
    {
        proof {
            use_type_invariant(&*self);
        }
        let mut password = String::new();
        std::mem::swap(&mut password, &mut self.password);
        zeroize_string(&mut password);
        self.password = password;
    }

    /// The password, for the requests that write it to sudo's stdin.
    pub fn password(&self) -> (r: &str)
        ensures
            r@ == self.state().password,
    {
        self.password.as_str()
    }

    /// Whether the run waits for this kind of event.
    pub fn accepts(&self, e: &RunnerEvent) -> (r: bool)
        ensures
            r == expects(self.state().phase, *e),
    {
        match (self.phase, e) {
            (RunnerPhase::Start, RunnerEvent::Begin) => true,
            (RunnerPhase::CheckingPrivileges, RunnerEvent::Exists { .. }) => true,
            (RunnerPhase::CheckingFlatpak, RunnerEvent::Exists { .. }) => true,
            (RunnerPhase::CheckingNala, RunnerEvent::Exists { .. }) => true,
            (RunnerPhase::RecheckingFlatpak, RunnerEvent::Exists { .. }) => true,
            (RunnerPhase::CachingSudo, RunnerEvent::Ran { .. }) => true,
            (RunnerPhase::Bootstrapping, RunnerEvent::Ran { .. }) => true,
            (RunnerPhase::Running { .. }, RunnerEvent::Ran { run }) => match run {
                ProcessRun::StdinFailed => false,
                _ => true,
            },
            (RunnerPhase::DetectingManager, RunnerEvent::PackageManagerFound { .. }) => true,
            (RunnerPhase::Resolving { .. }, RunnerEvent::Resolved { .. }) => true,
            (RunnerPhase::DroppingSudo, RunnerEvent::SudoDropped) => true,
            _ => false,
        }
    }


    fn after_sudo_exec(&mut self, head: Vec<String>) -> (r: RunnerStep)
        ensures
            final(self).task_list() == old(self).task_list(),
            final(self).state() == after_sudo(old(self).state(), old(self).task_list()).state,
            step_matches(r, after_logs(views(head@), after_sudo(old(self).state(), old(self).task_list()))),
    {
        if any_task_needs_flatpak(&self.tasks) {
            self.phase = RunnerPhase::CheckingFlatpak;
            assert(views(head@) + Seq::<Seq<char>>::empty() =~= views(head@));
            RunnerStep {
                logs: head,
                request: Some(RunnerRequest::CommandExists { name: owned("flatpak") }),
                done: false,
            }
        } else {
            self.start_tasks_from(0, head)
        }
    }

    fn bootstrap_exec(&mut self, pm: PackageManager, nala: bool, head: Vec<String>) -> (r: RunnerStep)
        ensures
            final(self).task_list() == old(self).task_list(),
            final(self).state() == bootstrap(old(self).state(), old(self).task_list(), pm, nala).state,
            step_matches(r, after_logs(views(head@), bootstrap(old(self).state(), old(self).task_list(), pm, nala))),
    {
        let ghost s0 = self.state();
        let ghost tasks = self.tasks@;
        let ghost prefix = views(head@);
        let mut logs = head;
        match flatpak_package_install_command(pm, nala) {
            Err(e) => {
                push_log(&mut logs, redact_secret(e.as_str(), self.password.as_str()));
                let ghost mid = views(logs@);
                let r = self.start_tasks_from(0, logs);
                assert(prefix + (seq![mid.last()] + start_tasks(s0, tasks, 0).logs) =~= mid
                    + start_tasks(s0, tasks, 0).logs);
                r
            },
            Ok(command) => {
                let shown = concat2("Command: ", display_command(&command).as_str());
                push_log(&mut logs, shown);
                match check_sudo_command(&command) {
                    Err(e) => {
                        push_log(&mut logs, redact_secret(e.as_str(), self.password.as_str()));
                        let ghost mid = views(logs@);
                        let r = self.start_tasks_from(0, logs);
                        assert(prefix + (seq![mid[mid.len() - 2], mid.last()] + start_tasks(
                            s0,
                            tasks,
                            0,
                        ).logs) =~= mid + start_tasks(s0, tasks, 0).logs);
                        r
                    },
                    Ok(()) => {
                        self.phase = RunnerPhase::Bootstrapping;
                        assert(views(logs@) =~= prefix + seq![views(logs@).last()]);
                        RunnerStep {
                            logs,
                            request: Some(RunnerRequest::RunSudo { command }),
                            done: false,
                        }
                    },
                }
            },
        }
    }


    /// Takes the answer to the last request (or `Begin`) and decides what
    /// comes next.
    pub fn step(&mut self, event: RunnerEvent) -> (r: RunnerStep)
        requires
            expects(old(self).state().phase, event),
        ensures
            final(self).task_list() == old(self).task_list(),
            final(self).state() == next(old(self).state(), old(self).task_list(), event).state,
            step_matches(r, next(old(self).state(), old(self).task_list(), event)),
    {
        match self.phase {
            RunnerPhase::Start => self.on_start(event),
            RunnerPhase::CheckingPrivileges => self.on_checking_privileges(event),
            RunnerPhase::CachingSudo => self.on_caching_sudo(event),
            RunnerPhase::CheckingFlatpak => self.on_checking_flatpak(event),
            RunnerPhase::DetectingManager => self.on_detecting_manager(event),
            RunnerPhase::CheckingNala => self.on_checking_nala(event),
            RunnerPhase::Bootstrapping => self.on_bootstrapping(event),
            RunnerPhase::RecheckingFlatpak => self.on_rechecking_flatpak(event),
            RunnerPhase::Resolving { index } => self.on_resolving(event, index),
            RunnerPhase::Running { index } => self.on_running(event, index),
            RunnerPhase::DroppingSudo => self.on_dropping_sudo(event),
            RunnerPhase::Finished => RunnerStep { logs: Vec::new(), request: None, done: false },
        }
    }

    fn on_start(&mut self, event: RunnerEvent) -> (r: RunnerStep)
        requires
            old(self).state().phase == RunnerPhase::Start,
            expects(old(self).state().phase, event),
        ensures
            final(self).task_list() == old(self).task_list(),
            final(self).state() == next(old(self).state(), old(self).task_list(), event).state,
            step_matches(r, next(old(self).state(), old(self).task_list(), event)),
    {
        let mut logs: Vec<String> = Vec::new();
        assert(views(logs@) =~= Seq::<Seq<char>>::empty());
        self.phase = RunnerPhase::CheckingPrivileges;
        RunnerStep {
            logs,
            request: Some(RunnerRequest::CommandExists { name: owned("flatpak") }),
            done: false,
        }
    }

    fn on_checking_privileges(&mut self, event: RunnerEvent) -> (r: RunnerStep)
        requires
            old(self).state().phase == RunnerPhase::CheckingPrivileges,
            expects(old(self).state().phase, event),
        ensures
            final(self).task_list() == old(self).task_list(),
            final(self).state() == next(old(self).state(), old(self).task_list(), event).state,
            step_matches(r, next(old(self).state(), old(self).task_list(), event)),
    {
        proof {
            use_type_invariant(&*self);
        }
        let ghost tasks = self.tasks@;
        let mut logs: Vec<String> = Vec::new();
        assert(views(logs@) =~= Seq::<Seq<char>>::empty());
        let present = match event {
            RunnerEvent::Exists { present } => present,
            _ => false,
        };
        if tasks_need_privileges(&self.tasks, present) {
            self.needs_sudo = true;
            if self.password.as_str().is_empty() {
                push_log(
                    &mut logs,
                    redact_secret("[ERROR] A sudo password is required.", self.password.as_str()),
                );
                self.wipe_password();
                self.phase = RunnerPhase::Finished;
                RunnerStep { logs, request: None, done: true }
            } else {
                self.phase = RunnerPhase::CachingSudo;
                RunnerStep { logs, request: Some(RunnerRequest::CacheSudo), done: false }
            }
        } else {
            push_log(&mut logs, owned("[INFO] Skipping sudo; selected tasks run as the current user."));
            self.needs_sudo = false;
            self.wipe_password();
            self.after_sudo_exec(logs)
        }
    }

    fn on_caching_sudo(&mut self, event: RunnerEvent) -> (r: RunnerStep)
        requires
            old(self).state().phase == RunnerPhase::CachingSudo,
            expects(old(self).state().phase, event),
        ensures
            final(self).task_list() == old(self).task_list(),
            final(self).state() == next(old(self).state(), old(self).task_list(), event).state,
            step_matches(r, next(old(self).state(), old(self).task_list(), event)),
    {
        proof {
            use_type_invariant(&*self);
        }
        let mut logs: Vec<String> = Vec::new();
        assert(views(logs@) =~= Seq::<Seq<char>>::empty());
        let failure: Option<&str> = match &event {
            RunnerEvent::Ran { run } => match run {
                ProcessRun::StartFailed { .. } => Some("[ERROR] Failed to start sudo."),
                ProcessRun::StdinFailed => Some("[ERROR] Failed to submit sudo credentials."),
                ProcessRun::WaitFailed { .. } => Some("[ERROR] Failed to wait for sudo."),
                ProcessRun::Exited { success, .. } => if *success {
                    None
                } else {
                    Some("[ERROR] sudo authentication failed.")
                },
            },
            _ => None,
        };
        match failure {
            Some(err) => {
                push_log(&mut logs, redact_secret(err, self.password.as_str()));
                self.wipe_password();
                self.phase = RunnerPhase::Finished;
                RunnerStep { logs, request: None, done: true }
            },
            None => self.after_sudo_exec(logs),
        }
    }

    fn on_checking_flatpak(&mut self, event: RunnerEvent) -> (r: RunnerStep)
        requires
            old(self).state().phase == RunnerPhase::CheckingFlatpak,
            expects(old(self).state().phase, event),
        ensures
            final(self).task_list() == old(self).task_list(),
            final(self).state() == next(old(self).state(), old(self).task_list(), event).state,
            step_matches(r, next(old(self).state(), old(self).task_list(), event)),
    {
        proof {
            use_type_invariant(&*self);
        }
        let ghost s0 = self.state();
        let ghost tasks = self.tasks@;
        let mut logs: Vec<String> = Vec::new();
        assert(views(logs@) =~= Seq::<Seq<char>>::empty());
        let present = match event {
            RunnerEvent::Exists { present } => present,
            _ => false,
        };
        if present {
            push_log(&mut logs, owned("[INFO] Flatpak is already installed."));
            let ghost mid = views(logs@);
            let r = self.start_tasks_from(0, logs);
            assert(seq![mid.last()] + start_tasks(s0, tasks, 0).logs =~= mid + start_tasks(s0, tasks, 0).logs);
            r
        } else {
            push_log(&mut logs, owned("[INFO] Flatpak is not installed. Installing the flatpak package..."));
            self.phase = RunnerPhase::DetectingManager;
            RunnerStep { logs, request: Some(RunnerRequest::DetectPackageManager), done: false }
        }
    }

    fn on_detecting_manager(&mut self, event: RunnerEvent) -> (r: RunnerStep)
        requires
            old(self).state().phase == RunnerPhase::DetectingManager,
            expects(old(self).state().phase, event),
        ensures
            final(self).task_list() == old(self).task_list(),
            final(self).state() == next(old(self).state(), old(self).task_list(), event).state,
            step_matches(r, next(old(self).state(), old(self).task_list(), event)),
    {
        proof {
            use_type_invariant(&*self);
        }
        let mut logs: Vec<String> = Vec::new();
        assert(views(logs@) =~= Seq::<Seq<char>>::empty());
        let manager = match event {
            RunnerEvent::PackageManagerFound { manager } => manager,
            _ => PackageManager::Unknown,
        };
        match manager {
            PackageManager::Apt => {
                self.phase = RunnerPhase::CheckingNala;
                RunnerStep {
                    logs,
                    request: Some(RunnerRequest::CommandExists { name: owned("nala") }),
                    done: false,
                }
            },
            _ => self.bootstrap_exec(manager, false, logs),
        }
    }

    fn on_checking_nala(&mut self, event: RunnerEvent) -> (r: RunnerStep)
        requires
            old(self).state().phase == RunnerPhase::CheckingNala,
            expects(old(self).state().phase, event),
        ensures
            final(self).task_list() == old(self).task_list(),
            final(self).state() == next(old(self).state(), old(self).task_list(), event).state,
            step_matches(r, next(old(self).state(), old(self).task_list(), event)),
    {
        proof {
            use_type_invariant(&*self);
        }
        let mut logs: Vec<String> = Vec::new();
        assert(views(logs@) =~= Seq::<Seq<char>>::empty());
        let present = match event {
            RunnerEvent::Exists { present } => present,
            _ => false,
        };
        self.bootstrap_exec(PackageManager::Apt, present, logs)
    }

    fn on_bootstrapping(&mut self, event: RunnerEvent) -> (r: RunnerStep)
        requires
            old(self).state().phase == RunnerPhase::Bootstrapping,
            expects(old(self).state().phase, event),
        ensures
            final(self).task_list() == old(self).task_list(),
            final(self).state() == next(old(self).state(), old(self).task_list(), event).state,
            step_matches(r, next(old(self).state(), old(self).task_list(), event)),
    {
        proof {
            use_type_invariant(&*self);
        }
        let ghost s0 = self.state();
        let ghost tasks = self.tasks@;
        let mut logs: Vec<String> = Vec::new();
        assert(views(logs@) =~= Seq::<Seq<char>>::empty());
        match event {
            RunnerEvent::Ran { run } => match run {
                ProcessRun::Exited { stdout, stderr, success, .. } => {
                    push_output(&mut logs, stdout.as_str(), stderr.as_str(), self.password.as_str());
                    if success {
                        self.phase = RunnerPhase::RecheckingFlatpak;
                        RunnerStep {
                            logs,
                            request: Some(RunnerRequest::CommandExists { name: owned("flatpak") }),
                            done: false,
                        }
                    } else {
                        push_log(
                            &mut logs,
                            redact_secret(
                                "[ERROR] Failed to install the flatpak package.",
                                self.password.as_str(),
                            ),
                        );
                        let ghost mid = views(logs@);
                        let r = self.start_tasks_from(0, logs);
                        assert(mid + start_tasks(s0, tasks, 0).logs =~= Seq::<Seq<char>>::empty() + (mid + start_tasks(s0, tasks, 0).logs));
                        r
                    }
                },
                ProcessRun::StartFailed { not_found, error } => {
                    let err = if not_found {
                        owned("[ERROR] sudo was not found on PATH.")
                    } else {
                        concat2("[ERROR] Failed to start sudo: ", error.as_str())
                    };
                    push_log(&mut logs, redact_secret(err.as_str(), self.password.as_str()));
                    let ghost mid = views(logs@);
                    let r = self.start_tasks_from(0, logs);
                    assert(seq![mid.last()] + start_tasks(s0, tasks, 0).logs =~= mid + start_tasks(s0, tasks, 0).logs);
                    r
                },
                ProcessRun::StdinFailed => {
                    push_log(
                        &mut logs,
                        redact_secret("[ERROR] Failed to submit sudo credentials.", self.password.as_str()),
                    );
                    let ghost mid = views(logs@);
                    let r = self.start_tasks_from(0, logs);
                    assert(seq![mid.last()] + start_tasks(s0, tasks, 0).logs =~= mid + start_tasks(s0, tasks, 0).logs);
                    r
                },
                ProcessRun::WaitFailed { not_found, error } => {
                    let msg = io_error_message("sudo", not_found, error.as_str());
                    let err = concat2("[ERROR] ", msg.as_str());
                    push_log(&mut logs, redact_secret(err.as_str(), self.password.as_str()));
                    let ghost mid = views(logs@);
                    let r = self.start_tasks_from(0, logs);
                    assert(seq![mid.last()] + start_tasks(s0, tasks, 0).logs =~= mid + start_tasks(s0, tasks, 0).logs);
                    r
                },
            },
            _ => self.start_tasks_from(0, logs),
        }
    }

    fn on_rechecking_flatpak(&mut self, event: RunnerEvent) -> (r: RunnerStep)
        requires
            old(self).state().phase == RunnerPhase::RecheckingFlatpak,
            expects(old(self).state().phase, event),
        ensures
            final(self).task_list() == old(self).task_list(),
            final(self).state() == next(old(self).state(), old(self).task_list(), event).state,
            step_matches(r, next(old(self).state(), old(self).task_list(), event)),
    {
        proof {
            use_type_invariant(&*self);
        }
        let ghost s0 = self.state();
        let ghost tasks = self.tasks@;
        let mut logs: Vec<String> = Vec::new();
        assert(views(logs@) =~= Seq::<Seq<char>>::empty());
        let present = match event {
            RunnerEvent::Exists { present } => present,
            _ => false,
        };
        if present {
            push_log(&mut logs, owned("[SUCCESS] Flatpak package installed."));
        } else {
            push_log(
                &mut logs,
                redact_secret(
                    "[ERROR] The flatpak command is still missing after package install.",
                    self.password.as_str(),
                ),
            );
        }
        let ghost mid = views(logs@);
        let r = self.start_tasks_from(0, logs);
        assert(seq![mid.last()] + start_tasks(s0, tasks, 0).logs =~= mid + start_tasks(s0, tasks, 0).logs);
        r
    }

    fn on_resolving(&mut self, event: RunnerEvent, index: usize) -> (r: RunnerStep)
        requires
            old(self).state().phase == (RunnerPhase::Resolving { index }),
            expects(old(self).state().phase, event),
        ensures
            final(self).task_list() == old(self).task_list(),
            final(self).state() == next(old(self).state(), old(self).task_list(), event).state,
            step_matches(r, next(old(self).state(), old(self).task_list(), event)),
    {
        proof {
            use_type_invariant(&*self);
        }
        let ghost s0 = self.state();
        let ghost tasks = self.tasks@;
        assert(phase_fits(self.phase, self.tasks@));
        let mut logs: Vec<String> = Vec::new();
        assert(views(logs@) =~= Seq::<Seq<char>>::empty());
        let task_count = self.tasks.len();
        assert(index < task_count);
        match event {
            RunnerEvent::Resolved { base, script } => {
                let command = &self.tasks[index].command;
                match validate_task_command(command, &base, &script) {
                    Err(e) => {
                        push_log(&mut logs, concat2("[ERROR] ", e.as_str()));
                        let ghost mid = views(logs@);
                        let r = self.start_tasks_from(index + 1, logs);
                        assert(seq![mid.last()] + start_tasks(s0, tasks, index + 1).logs =~= mid + start_tasks(s0, tasks, index + 1).logs);
                        r
                    },
                    Ok(()) => {
                        let shown = concat2("Command: ", display_command(command).as_str());
                        push_log(&mut logs, shown);
                        let program = command[0].clone();
                        let mut args: Vec<String> = Vec::new();
                        let mut k: usize = 1;
                        while k < command.len()
                            invariant
                                1 <= k <= command.len(),
                                views(args@) == views(command@).subrange(1, k as int),
                            decreases command.len() - k,
                        {
                            let ghost old_args = args@;
                            args.push(command[k].clone());
                            assert(views(args@) =~= views(old_args).push(command@[k as int]@));
                            assert(views(command@).subrange(1, k + 1) =~= views(command@).subrange(1, k as int).push(command@[k as int]@));
                            k = k + 1;
                        }
                        assert(views(command@)[0] == command@[0]@);
                        self.phase = RunnerPhase::Running { index };
                        assert(views(logs@) =~= seq![views(logs@).last()]);
                        RunnerStep {
                            logs,
                            request: Some(RunnerRequest::Spawn { program, args }),
                            done: false,
                        }
                    },
                }
            },
            _ => self.start_tasks_from(0, logs),
        }
    }

    fn on_running(&mut self, event: RunnerEvent, index: usize) -> (r: RunnerStep)
        requires
            old(self).state().phase == (RunnerPhase::Running { index }),
            expects(old(self).state().phase, event),
        ensures
            final(self).task_list() == old(self).task_list(),
            final(self).state() == next(old(self).state(), old(self).task_list(), event).state,
            step_matches(r, next(old(self).state(), old(self).task_list(), event)),
    {
        proof {
            use_type_invariant(&*self);
        }
        let ghost s0 = self.state();
        let ghost tasks = self.tasks@;
        assert(phase_fits(self.phase, self.tasks@));
        let mut logs: Vec<String> = Vec::new();
        assert(views(logs@) =~= Seq::<Seq<char>>::empty());
        let task_count = self.tasks.len();
        assert(index < task_count);
        let task = &self.tasks[index];
        let program = task.command[0].as_str();
        assert(views(task.command@)[0] == task.command@[0]@);
        match event {
            RunnerEvent::Ran { run } => match run {
                ProcessRun::Exited { stdout, stderr, success, code } => {
                    push_output(&mut logs, stdout.as_str(), stderr.as_str(), self.password.as_str());
                    let line = if success {
                        concat3("[SUCCESS] ", task.description.as_str(), " completed successfully.")
                    } else {
                        let mut l = concat3("[ERROR] ", task.description.as_str(), " failed with return code ");
                        l.append(code_text_string(code).as_str());
                        l.append(".");
                        l
                    };
                    push_log(&mut logs, line);
                },
                ProcessRun::StartFailed { not_found, error } => {
                    let mut l = concat3("[EXCEPTION] Failed to run ", task.description.as_str(), ": ");
                    l.append(io_error_message(program, not_found, error.as_str()).as_str());
                    push_log(&mut logs, redact_secret(l.as_str(), self.password.as_str()));
                },
                ProcessRun::WaitFailed { not_found, error } => {
                    let mut l = concat3("[EXCEPTION] Failed to run ", task.description.as_str(), ": ");
                    l.append(io_error_message(program, not_found, error.as_str()).as_str());
                    push_log(&mut logs, redact_secret(l.as_str(), self.password.as_str()));
                },
                ProcessRun::StdinFailed => {},
            },
            _ => {},
        }
        let ghost mid = views(logs@);
        let r = self.start_tasks_from(index + 1, logs);
        assert(mid + start_tasks(s0, tasks, index + 1).logs =~= mid + start_tasks(s0, tasks, index + 1).logs);
        r
    }

    fn on_dropping_sudo(&mut self, event: RunnerEvent) -> (r: RunnerStep)
        requires
            old(self).state().phase == RunnerPhase::DroppingSudo,
            expects(old(self).state().phase, event),
        ensures
            final(self).task_list() == old(self).task_list(),
            final(self).state() == next(old(self).state(), old(self).task_list(), event).state,
            step_matches(r, next(old(self).state(), old(self).task_list(), event)),
    {
        let mut logs: Vec<String> = Vec::new();
        assert(views(logs@) =~= Seq::<Seq<char>>::empty());
        self.wipe_password();
        self.phase = RunnerPhase::Finished;
        RunnerStep { logs, request: None, done: true }
    }


    fn finish_run(&mut self, logs: Vec<String>) -> (r: RunnerStep)
        ensures
            final(self).task_list() == old(self).task_list(),
            final(self).state() == finish(old(self).state()).state,
            step_matches(r, after_logs(views(logs@), finish(old(self).state()))),
    {
        if self.needs_sudo {
            self.phase = RunnerPhase::DroppingSudo;
            assert(views(logs@) + Seq::<Seq<char>>::empty() =~= views(logs@));
            RunnerStep { logs, request: Some(RunnerRequest::DropSudo), done: false }
        } else {
            self.phase = RunnerPhase::Finished;
            self.wipe_password();
            assert(views(logs@) + Seq::<Seq<char>>::empty() =~= views(logs@));
            RunnerStep { logs, request: None, done: true }
        }
    }

    fn start_tasks_from(&mut self, from: usize, head: Vec<String>) -> (r: RunnerStep)
        requires
            from <= old(self).task_list().len(),
        ensures
            final(self).task_list() == old(self).task_list(),
            final(self).state() == start_tasks(old(self).state(), old(self).task_list(), from as int).state,
            step_matches(r, after_logs(views(head@), start_tasks(old(self).state(), old(self).task_list(), from as int))),
    {
        proof {
            use_type_invariant(&*self);
        }
        let ghost s0 = self.state();
        let ghost tasks = self.tasks@;
        let ghost prefix = views(head@);
        let mut logs = head;
        let mut i = from;
        while i < self.tasks.len()
            invariant
                self.tasks@ == tasks,
                tasks == old(self).task_list(),
                s0 == old(self).state(),
                prefix == views(head@),
                self.state() == s0,
                phase_fits(self.phase, self.tasks@),
                from <= i <= tasks.len(),
                start_tasks(s0, tasks, from as int).state == start_tasks(s0, tasks, i as int).state,
                start_tasks(s0, tasks, from as int).request == start_tasks(s0, tasks, i as int).request,
                start_tasks(s0, tasks, from as int).done == start_tasks(s0, tasks, i as int).done,
                prefix + start_tasks(s0, tasks, from as int).logs == views(logs@) + start_tasks(
                    s0,
                    tasks,
                    i as int,
                ).logs,
            decreases tasks.len() - i,
        {
            let task = &self.tasks[i];
            let c = &task.command;
            let ghost cv = views(c@);
            let ghost logs_before = views(logs@);
            push_log(&mut logs, concat2("[INFO] Starting: ", task.description.as_str()));
            let shape: Option<&str> = if c.len() == 0 {
                Some("Empty command.")
            } else if !str_eq(c[0].as_str(), "bash") {
                Some("Only bash helper scripts are allowed.")
            } else if c.len() < 2 {
                Some("Missing helper script path.")
            } else {
                None
            };
            proof {
                if c.len() > 0 {
                    assert(cv[0] == c@[0]@);
                }
                match shape {
                    Some(e) => assert(shape_error(cv) == Some(e@)),
                    None => assert(shape_error(cv) is None),
                }
            }
            match shape {
                Some(e) => {
                    push_log(&mut logs, concat2("[ERROR] ", e));
                    let ghost pair = seq![starting_log(tasks[i as int]), "[ERROR] "@ + e@];
                    let ghost t_next = start_tasks(s0, tasks, i + 1);
                    assert(views(logs@) =~= logs_before + pair);
                    assert(start_tasks(s0, tasks, i as int).logs == pair + t_next.logs);
                    assert(logs_before + (pair + t_next.logs) =~= (logs_before + pair) + t_next.logs);
                    i = i + 1;
                },
                None => {
                    assert(cv[1] == c@[1]@);
                    let script = c[1].clone();
                    self.phase = RunnerPhase::Resolving { index: i };
                    assert(self.tasks@ == tasks);
                    assert(start_tasks(s0, tasks, i as int).logs == seq![starting_log(tasks[i as int])]);
                    assert(views(logs@) =~= logs_before + seq![starting_log(tasks[i as int])]);
                    assert(views(logs@) == prefix + start_tasks(s0, tasks, from as int).logs);
                    assert(start_tasks(s0, tasks, i as int).request == Some(RequestView::ResolveScript(script@)));
                    assert(start_tasks(s0, tasks, from as int).request == Some(RequestView::ResolveScript(script@)));
                    let r = RunnerStep {
                        logs,
                        request: Some(RunnerRequest::ResolveScript { script }),
                        done: false,
                    };
                    assert(views(r.logs@) == prefix + start_tasks(s0, tasks, from as int).logs);
                    assert(opt_request_view(r.request) == start_tasks(s0, tasks, from as int).request);
                    assert(r.done == start_tasks(s0, tasks, from as int).done);
                    assert(step_matches(r, after_logs(prefix, start_tasks(s0, tasks, from as int))));
                    return r;
                },
            }
        }
        self.finish_run(logs)
    }
}

} // verus!
