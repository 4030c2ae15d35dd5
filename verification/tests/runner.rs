use linux_it_guy_toolbox::catalog::Task;
use linux_it_guy_toolbox::runner::{
    check_sudo_command, command_needs_privileges, flatpak_package_install_command,
    io_error_message, task_needs_flatpak, tasks_need_privileges, validate_task_command,
};
use linux_it_guy_toolbox::session::{ProcessRun, RunnerEvent, RunnerRequest, TaskRunner};
use linux_it_guy_toolbox::system::{PackageManager, package_manager_from};

const BASE: &str = "/opt/toolbox";

fn s(v: &[&str]) -> Vec<String> {
    v.iter().map(|x| x.to_string()).collect()
}

fn main_sh_install() -> Vec<String> {
    s(&["bash", "/opt/toolbox/main.sh", "--label", "Firefox", "--package", "firefox", "install"])
}

fn canon(path: &str) -> Result<String, String> {
    Ok(path.to_owned())
}

fn base() -> Result<String, String> {
    Ok(BASE.to_owned())
}

#[test]
fn validate_task_command_accepts_main_sh_argv() {
    assert!(validate_task_command(&main_sh_install(), &base(), &canon("/opt/toolbox/main.sh")).is_ok());
}

#[test]
fn validate_task_command_accepts_admin_script_without_args() {
    let command = s(&["bash", "/opt/toolbox/update-system.sh"]);
    assert!(validate_task_command(&command, &base(), &canon("/opt/toolbox/update-system.sh")).is_ok());
}

#[test]
fn validate_task_command_rejects_shell_or_unknown_binaries() {
    let update = "/opt/toolbox/update-system.sh";
    assert!(validate_task_command(&s(&["sh", "-c", "id"]), &base(), &canon("-c")).is_err());
    assert!(validate_task_command(&s(&["sudo", "pacman", "-Syu"]), &base(), &canon("pacman")).is_err());
    assert!(validate_task_command(&s(&["bash", "/tmp/evil.sh"]), &base(), &canon("/tmp/evil.sh")).is_err());
    assert!(validate_task_command(&s(&["bash", update, "extra"]), &base(), &canon(update)).is_err());
}

#[test]
fn validate_task_command_rejects_allowlisted_basename_outside_base() {
    let command = s(&["bash", "/tmp/evil/main.sh", "--label", "Firefox", "--package", "firefox", "install"]);
    assert!(validate_task_command(&command, &base(), &canon("/tmp/evil/main.sh")).is_err());
}

#[test]
fn validate_task_command_rejects_invalid_main_sh_payloads() {
    let script = "/opt/toolbox/main.sh";
    assert!(validate_task_command(
        &s(&["bash", script, "--label", "Firefox", "--package", "-Syu", "install"]),
        &base(),
        &canon(script)
    )
    .is_err());
    assert!(validate_task_command(
        &s(&["bash", script, "--label", "Firefox", "--package", "firefox", "--extra", "x", "install"]),
        &base(),
        &canon(script)
    )
    .is_err());
}

#[test]
fn cache_sudo_requires_password() {
    let tasks = vec![Task { description: "Installing Firefox".into(), command: main_sh_install() }];
    let mut run = TaskRunner::new(tasks, String::new());
    let first = run.step(RunnerEvent::Begin);
    assert!(matches!(first.request, Some(RunnerRequest::CommandExists { .. })));
    let second = run.step(RunnerEvent::Exists { present: true });
    assert!(second.done);
    assert!(second.request.is_none());
    assert_eq!(second.logs, vec!["[ERROR] A sudo password is required.".to_owned()]);
}

#[test]
fn native_and_admin_tasks_need_privileges_flatpak_user_does_not() {
    let native = main_sh_install();
    assert!(command_needs_privileges(&native, true));
    assert!(command_needs_privileges(&native, false));

    let admin = s(&["bash", "/opt/toolbox/update-system.sh"]);
    assert!(command_needs_privileges(&admin, true));

    let flatpak = s(&[
        "bash",
        "/opt/toolbox/main.sh",
        "--label",
        "Brave Browser",
        "--flatpak",
        "com.brave.Browser",
        "install",
    ]);
    assert!(!command_needs_privileges(&flatpak, true));
    assert!(command_needs_privileges(&flatpak, false));
    assert!(tasks_need_privileges(
        &vec![Task { description: "Installing Firefox".into(), command: native }],
        true
    ));
    assert!(!tasks_need_privileges(
        &vec![Task { description: "Installing Brave".into(), command: flatpak }],
        true
    ));
}

#[test]
fn task_needs_flatpak_only_for_validated_flatpak_argv() {
    assert!(task_needs_flatpak(&vec![
        "bash".into(),
        "/opt/toolbox/main.sh".into(),
        "--label".into(),
        "Brave Browser".into(),
        "--flatpak".into(),
        "com.brave.Browser".into(),
        "install".into(),
    ]));
    assert!(!task_needs_flatpak(&vec![
        "bash".into(),
        "/opt/toolbox/main.sh".into(),
        "--label".into(),
        "Firefox".into(),
        "--package".into(),
        "firefox".into(),
        "install".into(),
    ]));
    assert!(!task_needs_flatpak(&vec![
        "bash".into(),
        "/opt/toolbox/update-system.sh".into()
    ]));
    assert!(!task_needs_flatpak(&vec![
        "bash".into(),
        "/opt/toolbox/main.sh".into(),
        "--flatpak".into(),
        "not a valid id".into(),
        "install".into(),
    ]));
}

#[test]
fn flatpak_bootstrap_argv_uses_sudo_s_and_validated_package() {
    let pacman = flatpak_package_install_command(PackageManager::Pacman, false).unwrap();
    assert_eq!(
        pacman,
        [
            "sudo",
            "-S",
            "pacman",
            "-S",
            "--needed",
            "--noconfirm",
            "--",
            "flatpak"
        ]
    );

    for nala in [false, true] {
        let apt = flatpak_package_install_command(PackageManager::Apt, nala).unwrap();
        assert_eq!(apt[0], "sudo");
        assert_eq!(apt[1], "-S");
        assert!(apt.contains(&"flatpak".to_owned()));
        assert!(apt.contains(&"--".to_owned()));
        assert!(apt.contains(&"apt-get".to_owned()) || apt.contains(&"nala".to_owned()));
    }

    let dnf = flatpak_package_install_command(PackageManager::Dnf, false).unwrap();
    assert_eq!(dnf, ["sudo", "-S", "dnf", "install", "-y", "--", "flatpak"]);

    assert!(flatpak_package_install_command(PackageManager::Unknown, false).is_err());
}

#[test]
fn missing_flatpak_binary_is_enoent_not_a_hang() {
    assert!(io_error_message("flatpak", true, "No such file or directory (os error 2)")
        .contains("was not found on PATH"));
    assert_eq!(io_error_message("flatpak", false, "Permission denied"), "Permission denied");
}

#[test]
fn run_sudo_command_rejects_non_sudo_s() {
    assert!(check_sudo_command(&s(&["pacman", "-S", "flatpak"])).is_err());
    assert!(check_sudo_command(&s(&["sudo", "pacman", "-S"])).is_err());
    assert!(check_sudo_command(&s(&["sudo", "-S", "pacman"])).is_ok());
}

#[test]
fn apt_picks_nala_when_installed() {
    let nala = flatpak_package_install_command(PackageManager::Apt, true).unwrap();
    assert_eq!(nala, ["sudo", "-S", "nala", "install", "-y", "--", "flatpak"]);
    let apt = flatpak_package_install_command(PackageManager::Apt, false).unwrap();
    assert_eq!(apt, ["sudo", "-S", "apt-get", "install", "-y", "--", "flatpak"]);
    assert_eq!(
        flatpak_package_install_command(PackageManager::Unknown, true).unwrap_err(),
        "Unsupported package manager for Flatpak bootstrap: unknown"
    );
}

#[test]
fn validate_task_command_messages() {
    assert_eq!(validate_task_command(&vec![], &base(), &base()).unwrap_err(), "Empty command.");
    assert_eq!(
        validate_task_command(&s(&["bash"]), &base(), &base()).unwrap_err(),
        "Missing helper script path."
    );
    assert_eq!(
        validate_task_command(&s(&["sh", "x"]), &base(), &base()).unwrap_err(),
        "Only bash helper scripts are allowed."
    );
    assert_eq!(
        validate_task_command(&s(&["bash", "/opt/toolbox/evil.sh"]), &base(), &canon("/opt/toolbox/evil.sh"))
            .unwrap_err(),
        "Helper script evil.sh is not allowed."
    );
    assert_eq!(
        validate_task_command(
            &s(&["bash", "/opt/toolbox/update-system.sh", "x"]),
            &base(),
            &canon("/opt/toolbox/update-system.sh")
        )
        .unwrap_err(),
        "Admin helper scripts do not accept extra arguments."
    );
    assert_eq!(
        validate_task_command(&s(&["bash", "/opt/toolbox/main.sh", "--label", "A", "install"]), &base(), &canon("/opt/toolbox/main.sh"))
            .unwrap_err(),
        "at least one of package name or Flatpak ID is required"
    );
}

/// Drives a run the way the app does, answering each request from a script
/// of canned answers, and returns every log line and the requests seen.
fn drive(tasks: Vec<Task>, password: &str, flatpak_present: bool, mut outputs: Vec<ProcessRun>) -> (Vec<String>, Vec<String>) {
    let mut run = TaskRunner::new(tasks, password.to_owned());
    let mut logs = Vec::new();
    let mut seen = Vec::new();
    let mut event = RunnerEvent::Begin;
    loop {
        assert!(run.accepts(&event));
        let step = run.step(event);
        logs.extend(step.logs);
        if step.done {
            break;
        }
        let request = step.request.expect("a request while the run is not over");
        event = match request {
            RunnerRequest::CommandExists { name } => {
                seen.push(format!("exists {name}"));
                RunnerEvent::Exists { present: flatpak_present && name == "flatpak" }
            }
            RunnerRequest::CacheSudo => {
                seen.push(format!("cache-sudo {}", run.password()));
                RunnerEvent::Ran { run: ProcessRun::Exited { stdout: String::new(), stderr: String::new(), success: true, code: Some(0) } }
            }
            RunnerRequest::DetectPackageManager => {
                seen.push("detect".to_owned());
                RunnerEvent::PackageManagerFound { manager: PackageManager::Dnf }
            }
            RunnerRequest::RunSudo { command } => {
                seen.push(format!("sudo {}", command.join(" ")));
                RunnerEvent::Ran { run: outputs.remove(0) }
            }
            RunnerRequest::ResolveScript { script } => {
                seen.push(format!("resolve {script}"));
                RunnerEvent::Resolved { base: Ok(BASE.to_owned()), script: Ok(script) }
            }
            RunnerRequest::Spawn { program, args } => {
                seen.push(format!("spawn {program} {}", args.join(" ")));
                RunnerEvent::Ran { run: outputs.remove(0) }
            }
            RunnerRequest::DropSudo => {
                seen.push("drop-sudo".to_owned());
                RunnerEvent::SudoDropped
            }
        };
    }
    (logs, seen)
}

fn exited(stdout: &str, success: bool, code: Option<i32>) -> ProcessRun {
    ProcessRun::Exited { stdout: stdout.to_owned(), stderr: String::new(), success, code }
}

#[test]
fn native_install_caches_sudo_runs_redacts_and_drops() {
    let tasks = vec![Task { description: "Installing Firefox".into(), command: main_sh_install() }];
    let (logs, seen) = drive(tasks, "hunter2", false, vec![exited("password hunter2 echoed\r\nok\n", true, Some(0))]);
    assert_eq!(seen[0], "exists flatpak");
    assert_eq!(seen[1], "cache-sudo hunter2");
    assert_eq!(seen[2], "resolve /opt/toolbox/main.sh");
    assert_eq!(seen[3], "spawn bash /opt/toolbox/main.sh --label Firefox --package firefox install");
    assert_eq!(seen[4], "drop-sudo");
    assert_eq!(
        logs,
        vec![
            "[INFO] Starting: Installing Firefox".to_owned(),
            "Command: bash /opt/toolbox/main.sh --label Firefox --package firefox install".to_owned(),
            "password ******** echoed".to_owned(),
            "ok".to_owned(),
            "[SUCCESS] Installing Firefox completed successfully.".to_owned(),
        ]
    );
    assert!(!logs.iter().any(|l| l.contains("hunter2")));
}

#[test]
fn flatpak_task_without_flatpak_bootstraps_it_with_sudo() {
    let command = s(&["bash", "/opt/toolbox/main.sh", "--label", "Brave", "--flatpak", "com.brave.Browser", "install"]);
    let tasks = vec![Task { description: "Installing Brave".into(), command }];
    let (logs, seen) = drive(
        tasks,
        "secret",
        false,
        vec![exited("", false, Some(1)), exited("", false, Some(3))],
    );
    assert_eq!(
        seen,
        vec![
            "exists flatpak".to_owned(),
            "cache-sudo secret".to_owned(),
            "exists flatpak".to_owned(),
            "detect".to_owned(),
            "sudo sudo -S dnf install -y -- flatpak".to_owned(),
            "resolve /opt/toolbox/main.sh".to_owned(),
            "spawn bash /opt/toolbox/main.sh --label Brave --flatpak com.brave.Browser install".to_owned(),
            "drop-sudo".to_owned(),
        ]
    );
    assert_eq!(logs[0], "[INFO] Flatpak is not installed. Installing the flatpak package...");
    assert_eq!(logs[1], "Command: sudo -S dnf install -y -- flatpak");
    assert_eq!(logs[2], "[ERROR] Failed to install the flatpak package.");
    assert_eq!(logs[3], "[INFO] Starting: Installing Brave");
    assert_eq!(logs.last().unwrap(), "[ERROR] Installing Brave failed with return code 3.");
}

#[test]
fn flatpak_task_with_flatpak_runs_without_sudo() {
    let command = s(&["bash", "/opt/toolbox/main.sh", "--label", "Brave", "--flatpak", "com.brave.Browser", "remove"]);
    let tasks = vec![Task { description: "Removing Brave".into(), command }];
    let (logs, seen) = drive(tasks, "secret", true, vec![exited("removed\n", true, Some(0))]);
    assert!(!seen.iter().any(|r| r.starts_with("cache-sudo") || r == "drop-sudo"), "{seen:?}");
    assert_eq!(
        logs,
        vec![
            "[INFO] Skipping sudo; selected tasks run as the current user.".to_owned(),
            "[INFO] Flatpak is already installed.".to_owned(),
            "[INFO] Starting: Removing Brave".to_owned(),
            "Command: bash /opt/toolbox/main.sh --label Brave --flatpak com.brave.Browser remove".to_owned(),
            "removed".to_owned(),
            "[SUCCESS] Removing Brave completed successfully.".to_owned(),
        ]
    );
}

#[test]
fn invalid_task_is_reported_and_skipped() {
    let tasks = vec![
        Task { description: "Shell".into(), command: s(&["sh", "-c", "id"]) },
        Task { description: "Admin".into(), command: s(&["bash", "/opt/toolbox/update-system.sh"]) },
    ];
    let failed = ProcessRun::StartFailed { not_found: true, error: "No such file or directory".to_owned() };
    let (logs, seen) = drive(tasks, "pw", true, vec![failed]);
    assert_eq!(logs[0], "[INFO] Starting: Shell");
    assert_eq!(logs[1], "[ERROR] Only bash helper scripts are allowed.");
    assert_eq!(logs[2], "[INFO] Starting: Admin");
    assert_eq!(logs[4], "[EXCEPTION] Failed to run Admin: bash was not found on PATH.");
    assert_eq!(seen.last().unwrap(), "drop-sudo");
    assert!(!seen.iter().any(|r| r.contains("spawn sh")));
}

#[test]
fn exit_codes_are_reported_with_sign_or_unknown() {
    let tasks = vec![
        Task { description: "A".into(), command: s(&["bash", "/opt/toolbox/update-system.sh"]) },
        Task { description: "B".into(), command: s(&["bash", "/opt/toolbox/install-tlp.sh"]) },
    ];
    let (logs, _) = drive(tasks, "pw", false, vec![exited("", false, Some(-2)), exited("", false, None)]);
    assert!(logs.contains(&"[ERROR] A failed with return code -2.".to_owned()));
    assert!(logs.contains(&"[ERROR] B failed with return code unknown.".to_owned()));
}

#[test]
fn sudo_argv_for_caching_and_dropping_credentials() {
    assert_eq!(linux_it_guy_toolbox::runner::sudo_cache_argv(), s(&["sudo", "-S", "-v"]));
    assert_eq!(linux_it_guy_toolbox::runner::sudo_drop_argv(), s(&["sudo", "-k"]));
}

#[test]
fn package_manager_is_the_first_found_in_order() {
    assert_eq!(package_manager_from(true, true, true), PackageManager::Pacman);
    assert_eq!(package_manager_from(false, true, true), PackageManager::Apt);
    assert_eq!(package_manager_from(false, false, true), PackageManager::Dnf);
    assert_eq!(package_manager_from(false, false, false), PackageManager::Unknown);
}

#[test]
fn a_run_ends_within_its_bound_and_once() {
    let tasks = vec![
        Task { description: "Installing Firefox".into(), command: main_sh_install() },
        Task { description: "Broken".into(), command: s(&["sh", "-c", "true"]) },
        Task { description: "Installing Firefox again".into(), command: main_sh_install() },
    ];
    let n = tasks.len();
    let (logs, seen) = drive(tasks, "pw", false, vec![exited("", true, Some(0)), exited("", false, Some(3))]);
    let events = seen.len() + 1;
    assert!(events <= 2 * n + 10);
    assert_eq!(seen.iter().filter(|r| r.starts_with("cache-sudo")).count(), 1);
    assert_eq!(seen.iter().filter(|r| *r == "drop-sudo").count(), 1);
    assert_eq!(seen.last().map(String::as_str), Some("drop-sudo"));
    assert!(logs.iter().any(|l| l == "[ERROR] Installing Firefox again failed with return code 3."));
}

#[test]
fn failed_sudo_caching_runs_no_task_and_drops_nothing() {
    let tasks = vec![Task { description: "Installing Firefox".into(), command: main_sh_install() }];
    let mut run = TaskRunner::new(tasks, "wrong".to_owned());
    let step = run.step(RunnerEvent::Begin);
    assert!(matches!(step.request, Some(RunnerRequest::CommandExists { .. })));
    let step = run.step(RunnerEvent::Exists { present: false });
    assert!(matches!(step.request, Some(RunnerRequest::CacheSudo)));
    let failed = ProcessRun::Exited { stdout: String::new(), stderr: String::new(), success: false, code: Some(1) };
    let step = run.step(RunnerEvent::Ran { run: failed });
    assert!(step.done);
    assert!(step.request.is_none());
    assert_eq!(step.logs, vec!["[ERROR] sudo authentication failed.".to_owned()]);
    assert_eq!(run.password(), "");
    assert!(!run.accepts(&RunnerEvent::SudoDropped));
}
