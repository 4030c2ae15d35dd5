use linux_it_guy_toolbox::catalog::{
    AdminTask, AppEntry, BaseDirDiscovery, BaseDirSource, CatalogRead, CsvAppEntry, DirProbe,
    HelperProbe, MISSING_BASE_DIR, admin_tasks, discover_base_dir, display_command,
    helper_path_is_under_base, helper_script_path, load_apps, resolve_helper_script,
};
use linux_it_guy_toolbox::validate::{Action, validate_action};

const BASE: &str = "/opt/toolbox";

fn sample_entry() -> AppEntry {
    AppEntry {
        category: "Browsers".to_owned(),
        label: "Firefox".to_owned(),
        package_name: "firefox".to_owned(),
        flatpak_id: String::new(),
        exec_name: "firefox".to_owned(),
        notes: String::new(),
    }
}

fn csv(category: &str, label: &str, package: &str, flatpak: &str, exec: &str, notes: &str) -> CsvAppEntry {
    CsvAppEntry {
        category: category.to_owned(),
        label: label.to_owned(),
        package_name: package.to_owned(),
        flatpak_id: flatpak.to_owned(),
        exec_name: exec.to_owned(),
        notes: notes.to_owned(),
    }
}

/// What the filesystem says about `name` inside an existing toolbox at BASE.
fn present(name: &str) -> HelperProbe {
    HelperProbe {
        is_file: true,
        canonical_base: Ok(BASE.to_owned()),
        canonical_script: Ok(format!("{BASE}/{name}")),
        script_is_utf8: true,
    }
}

fn main_sh() -> Result<String, String> {
    let path = helper_script_path(BASE, "main.sh")?;
    assert_eq!(path, "/opt/toolbox/main.sh");
    resolve_helper_script(BASE, "main.sh", &present("main.sh"))
}

#[test]
fn command_uses_argv_array_not_shell_string() {
    let command = sample_entry().try_command(main_sh(), Action::Install).unwrap();
    assert_eq!(command[0], "bash");
    assert!(command[1].ends_with("main.sh"));
    assert_eq!(
        command[2..],
        [
            "--label",
            "Firefox",
            "--package",
            "firefox",
            "--exec",
            "firefox",
            "install"
        ]
    );
    assert!(!command.iter().any(|part| part.contains(';')));
}

#[test]
fn command_omits_empty_optional_targets() {
    let mut entry = sample_entry();
    entry.package_name.clear();
    entry.flatpak_id = "org.mozilla.firefox".to_owned();
    let command = entry.try_command(main_sh(), Action::Remove).unwrap();
    assert!(!command.contains(&"--package".to_owned()));
    assert!(command.contains(&"--flatpak".to_owned()));
    assert_eq!(command.last().map(String::as_str), Some("remove"));
}

#[test]
fn unknown_action_cannot_be_constructed() {
    assert!(sample_entry().try_command(main_sh(), Action::Install).is_ok());
    assert!(validate_action("upgrade").is_err());
}

#[test]
fn csv_row_rejects_invalid_package() {
    let result = AppEntry::from_csv(CsvAppEntry {
        category: "Browsers".into(),
        label: "Evil".into(),
        package_name: "-Syu".into(),
        flatpak_id: String::new(),
        exec_name: String::new(),
        notes: String::new(),
    });
    assert!(result.is_err());
}

#[test]
fn load_apps_skips_invalid_rows_and_keeps_valid_ones() {
    let rows = vec![
        Ok(csv("Browsers", "Firefox", "firefox", "", "firefox", "")),
        Ok(csv("Browsers", "Evil", "-Syu", "", "evil", "")),
        Ok(csv("Browsers", "Brave", "", "com.brave.Browser", "brave", "Privacy-focused browser")),
    ];
    let load = load_apps(CatalogRead::Rows { rows });
    assert_eq!(load.apps.len(), 2);
    assert_eq!(load.apps[0].label, "Firefox");
    assert_eq!(load.apps[1].label, "Brave");
    assert_eq!(load.warnings.len(), 1);
    assert!(load.error.is_none());
}

#[test]
fn resolve_helper_script_rejects_unknown_and_escaped_names() {
    assert!(resolve_helper_script(BASE, "main.sh", &present("main.sh")).is_ok());
    assert!(resolve_helper_script(BASE, "../main.sh", &present("../main.sh")).is_err());
    assert!(resolve_helper_script(BASE, "not-real.sh", &present("not-real.sh")).is_err());
    let missing = HelperProbe {
        is_file: false,
        canonical_base: Ok(BASE.to_owned()),
        canonical_script: Err("No such file or directory (os error 2)".to_owned()),
        script_is_utf8: true,
    };
    assert!(resolve_helper_script(BASE, "enable-bluetooth.sh", &missing).is_err());
}

#[test]
fn admin_command_is_bash_plus_allowlisted_script() {
    let task = AdminTask {
        category: "System".into(),
        label: "Update System".into(),
        script: "update-system.sh".into(),
    };
    let script = resolve_helper_script(BASE, &task.script, &present("update-system.sh"));
    let command = task.try_command(script).unwrap();
    assert_eq!(command[0], "bash");
    assert!(command[1].ends_with("update-system.sh"));
    assert_eq!(command.len(), 2);
}

#[test]
fn display_command_quotes_whitespace() {
    assert_eq!(
        display_command(&vec!["bash".into(), "/tmp/My Scripts/main.sh".into()]),
        "bash \"/tmp/My Scripts/main.sh\""
    );
}

fn probe(dir: &str, has_catalog: bool, has_helper: bool) -> DirProbe {
    DirProbe { dir: dir.to_owned(), key: dir.to_owned(), has_catalog, has_helper }
}

fn chain(dirs: &[(&str, bool, bool)]) -> Vec<DirProbe> {
    dirs.iter().map(|(d, c, h)| probe(d, *c, *h)).collect()
}

#[test]
fn discover_prefers_directory_beside_the_executable() {
    let exe_dirs = chain(&[("/tmp/toolbox", true, true), ("/tmp", false, false), ("/", false, false)]);
    let cwd = Some(probe("/tmp/cwd-ignored", true, true));
    let discovery = discover_base_dir(&exe_dirs, &cwd);
    assert!(discovery.found);
    assert_eq!(discovery.source, Some(BaseDirSource::Executable));
    assert_eq!(discovery.base_dir, "/tmp/toolbox");
}

#[test]
fn discover_walks_up_from_target_release_to_repo_root() {
    let exe_dirs = chain(&[
        ("/tmp/toolbox/target/release", false, false),
        ("/tmp/toolbox/target", false, false),
        ("/tmp/toolbox", true, true),
        ("/tmp", false, false),
        ("/", false, false),
    ]);
    let cwd = Some(probe("/tmp/other-cwd", false, false));
    let discovery = discover_base_dir(&exe_dirs, &cwd);
    assert!(discovery.found);
    assert_eq!(discovery.source, Some(BaseDirSource::Ancestor));
    assert_eq!(discovery.base_dir, "/tmp/toolbox");
    assert!(discovery.looked.iter().any(|path| path == "/tmp/toolbox/target/release"));
    assert!(discovery.looked.iter().any(|path| path == "/tmp/toolbox"));
}

#[test]
fn discover_uses_directory_beside_helper_scripts() {
    let exe_dirs = chain(&[
        ("/tmp/helpers-root/nested/bin", false, false),
        ("/tmp/helpers-root/nested", false, false),
        ("/tmp/helpers-root", true, true),
        ("/tmp", false, false),
        ("/", false, false),
    ]);
    let cwd = Some(probe("/tmp/helpers-cwd", false, false));
    let discovery = discover_base_dir(&exe_dirs, &cwd);
    assert!(discovery.found);
    assert_eq!(discovery.base_dir, "/tmp/helpers-root");
}

#[test]
fn discover_falls_back_to_current_working_directory() {
    let exe_dirs = chain(&[("/tmp/exe-without-catalog", false, false), ("/tmp", false, false), ("/", false, false)]);
    let cwd = Some(probe("/tmp/cwd-catalog", true, true));
    let discovery = discover_base_dir(&exe_dirs, &cwd);
    assert!(discovery.found);
    assert_eq!(discovery.source, Some(BaseDirSource::WorkingDirectory));
    assert_eq!(discovery.base_dir, "/tmp/cwd-catalog");
}

#[test]
fn discover_when_missing_does_not_fall_back_to_dot() {
    let exe_dirs = chain(&[("/tmp/missing-exe-nodot", false, false), ("/tmp", false, false), ("/", false, false)]);
    let cwd = Some(probe("/tmp/missing-cwd-nodot", false, false));
    let discovery = discover_base_dir(&exe_dirs, &cwd);
    assert!(!discovery.found);
    assert!(discovery.source.is_none());
    assert_eq!(discovery.base_dir, MISSING_BASE_DIR);
}

#[test]
fn helper_path_is_under_base_rejects_same_basename_outside_root() {
    let base = Ok(BASE.to_owned());
    let inside = Ok("/opt/toolbox/main.sh".to_owned());
    let outside = Ok("/tmp/evil-main/main.sh".to_owned());
    assert!(helper_path_is_under_base("/opt/toolbox/main.sh", &base, &inside).is_ok());
    assert!(
        helper_path_is_under_base("/tmp/evil-main/main.sh", &base, &outside).is_err(),
        "basename main.sh outside the toolbox root must be rejected"
    );
}

#[test]
fn discover_reports_every_place_it_looked_when_missing() {
    let exe_dirs = chain(&[
        ("/tmp/missing-exe/target/release", false, false),
        ("/tmp/missing-exe/target", false, false),
        ("/tmp/missing-exe", false, false),
        ("/tmp", false, false),
        ("/", false, false),
    ]);
    let cwd = Some(probe("/tmp/missing-cwd", false, false));
    let discovery = discover_base_dir(&exe_dirs, &cwd);
    assert!(!discovery.found);
    assert!(discovery.looked.iter().any(|path| path == "/tmp/missing-exe/target/release"));
    assert!(discovery.looked.iter().any(|path| path == "/tmp/missing-cwd"));
    let message = discovery.not_found_message();
    assert!(message.contains("Looked for apps_config.csv beside the helper scripts"));
    assert!(!message.contains("./apps_config.csv"));
}

#[test]
fn from_csv_trims_fields_and_labels_sources() {
    let app = AppEntry::from_csv(csv("  Browsers ", "\tBrave\n", " brave-browser ", " com.brave.Browser ", " brave ", "  "))
        .unwrap();
    assert_eq!(app.category, "Browsers");
    assert_eq!(app.label, "Brave");
    assert_eq!(app.package_name, "brave-browser");
    assert_eq!(app.flatpak_id, "com.brave.Browser");
    assert_eq!(app.exec_name, "brave");
    assert_eq!(app.notes, "");
    assert_eq!(app.source_label(), "native + flatpak");
    let native = AppEntry::from_csv(csv("Browsers", "Firefox", "firefox", "", "firefox", "")).unwrap();
    assert_eq!(native.source_label(), "native");
    let flatpak = AppEntry::from_csv(csv("Gaming", "Sober", "", "org.vinegarhq.Sober", "sober", "")).unwrap();
    assert_eq!(flatpak.source_label(), "flatpak");
}

#[test]
fn from_csv_reports_each_broken_rule() {
    let err = |row: CsvAppEntry| AppEntry::from_csv(row).unwrap_err();
    assert_eq!(
        err(csv("", "Firefox", "firefox", "", "", "")),
        "category must be 1 to 64 characters without control characters"
    );
    assert_eq!(
        err(csv("Browsers", "Fire\u{7}fox", "firefox", "", "", "")),
        "label must be 1 to 64 characters without control characters"
    );
    assert_eq!(
        err(csv("Browsers", "Firefox", "firefox", "", "", &"n".repeat(513))),
        "notes must be at most 512 characters without control characters"
    );
    assert_eq!(
        err(csv("Browsers", "Firefox", " ", "", "", "")),
        "at least one of package name or Flatpak ID is required"
    );
    assert!(err(csv("Browsers", "Firefox", "fire fox", "", "", "")).starts_with("package name"));
    assert!(err(csv("Browsers", "Firefox", "", "com.brave", "", "")).starts_with("Flatpak ID"));
    assert!(err(csv("Browsers", "Firefox", "firefox", "", "-x", "")).starts_with("exec name"));
}

#[test]
fn load_apps_numbers_rows_after_the_header() {
    let rows = vec![
        Err("CSV deserialize error: record 1".to_owned()),
        Ok(csv("Browsers", "Evil", "-Syu", "", "evil", "")),
    ];
    let load = load_apps(CatalogRead::Rows { rows });
    assert!(load.apps.is_empty());
    assert_eq!(load.warnings[0], "Skipping catalog row 2: CSV deserialize error: record 1");
    assert!(load.warnings[1].starts_with("Skipping catalog row 3: package name"));
    assert_eq!(load.error.as_deref(), Some("App catalog did not contain any valid rows."));
}

#[test]
fn load_apps_reports_missing_and_unreadable_catalogs() {
    let missing = load_apps(CatalogRead::Missing { path: "/opt/toolbox/apps_config.csv".to_owned() });
    assert_eq!(
        missing.error.as_deref(),
        Some("App catalog not found at /opt/toolbox/apps_config.csv. Expected apps_config.csv beside the helper scripts (main.sh).")
    );
    let failed = load_apps(CatalogRead::OpenFailed { error: "Permission denied".to_owned() });
    assert_eq!(failed.error.as_deref(), Some("Failed to open app catalog: Permission denied"));
    assert!(failed.apps.is_empty() && failed.warnings.is_empty());
}

#[test]
fn admin_tasks_are_the_nine_allowlisted_recipes() {
    let tasks = admin_tasks();
    assert_eq!(tasks.len(), 9);
    assert_eq!(tasks[0].label, "Enable Bluetooth");
    assert_eq!(tasks[0].script, "enable-bluetooth.sh");
    assert_eq!(tasks[5].label, "nala (rank mirrors) - Debian only");
    assert_eq!(tasks[8].category, "System");
    for task in &tasks {
        assert!(linux_it_guy_toolbox::validate::is_safe_script_name(&task.script));
    }
}

#[test]
fn resolve_reports_each_failure() {
    let mut probe = present("main.sh");
    probe.canonical_base = Err("No such file or directory (os error 2)".to_owned());
    assert_eq!(
        resolve_helper_script(BASE, "main.sh", &probe).unwrap_err(),
        "cannot resolve app directory: No such file or directory (os error 2)"
    );
    let mut root = present("main.sh");
    root.canonical_base = Ok("/".to_owned());
    assert_eq!(
        resolve_helper_script("/", "main.sh", &root).unwrap_err(),
        "app directory must not be the filesystem root"
    );
    let mut outside = present("main.sh");
    outside.canonical_script = Ok("/tmp/main.sh".to_owned());
    assert_eq!(
        resolve_helper_script(BASE, "main.sh", &outside).unwrap_err(),
        "helper script /opt/toolbox/main.sh is outside the app directory"
    );
    let mut not_file = present("main.sh");
    not_file.is_file = false;
    assert_eq!(
        resolve_helper_script(BASE, "main.sh", &not_file).unwrap_err(),
        "helper script main.sh was not found"
    );
    let mut bad = present("main.sh");
    bad.script_is_utf8 = false;
    assert_eq!(
        resolve_helper_script(BASE, "main.sh", &bad).unwrap_err(),
        "helper script main.sh path is not valid UTF-8"
    );
    assert_eq!(
        helper_script_path(BASE, "../main.sh").unwrap_err(),
        "helper script ../main.sh is not allowlisted"
    );
    let sibling = Ok("/opt/toolbox-evil/main.sh".to_owned());
    assert!(helper_path_is_under_base("x", &Ok(BASE.to_owned()), &sibling).is_err());
}

#[test]
fn default_discovery_is_the_missing_placeholder() {
    let d = BaseDirDiscovery::default();
    assert!(!d.found);
    assert_eq!(d.base_dir, MISSING_BASE_DIR);
    assert!(d.not_found_message().contains("next to the executable"));
    let exe_dirs: Vec<DirProbe> = Vec::new();
    let discovery = discover_base_dir(&exe_dirs, &None);
    assert!(discovery.looked.is_empty());
    assert!(!discovery.found);
}

#[test]
fn discover_skips_directories_already_seen() {
    let exe_dirs = vec![
        DirProbe { dir: "/opt/link".to_owned(), key: "/opt/real".to_owned(), has_catalog: false, has_helper: true },
        DirProbe { dir: "/opt".to_owned(), key: "/opt".to_owned(), has_catalog: false, has_helper: false },
    ];
    let cwd = Some(DirProbe { dir: "/opt/real".to_owned(), key: "/opt/real".to_owned(), has_catalog: true, has_helper: true });
    let discovery = discover_base_dir(&exe_dirs, &cwd);
    assert!(!discovery.found);
    assert_eq!(discovery.looked, vec!["/opt/link".to_owned(), "/opt".to_owned()]);
    assert_eq!(
        discovery.not_found_message(),
        "App catalog not found. Looked for apps_config.csv beside the helper scripts in: /opt/link, /opt"
    );
}

#[test]
fn command_at_resolves_main_sh_and_builds_the_argv() {
    let command = sample_entry().command_at(BASE, &present("main.sh"), Action::Install).unwrap();
    assert_eq!(
        command,
        vec!["bash", "/opt/toolbox/main.sh", "--label", "Firefox", "--package", "firefox", "--exec", "firefox", "install"]
            .into_iter()
            .map(String::from)
            .collect::<Vec<_>>()
    );
    let missing = HelperProbe {
        is_file: false,
        canonical_base: Ok(BASE.to_owned()),
        canonical_script: Err("gone".to_owned()),
        script_is_utf8: true,
    };
    assert_eq!(
        sample_entry().command_at(BASE, &missing, Action::Install),
        Err("helper script main.sh was not found".to_owned())
    );
}

#[test]
fn admin_command_at_resolves_its_own_script() {
    let task = AdminTask { category: "System".into(), label: "Update System".into(), script: "update-system.sh".into() };
    assert_eq!(
        task.command_at(BASE, &present("update-system.sh")),
        Ok(vec!["bash".to_owned(), "/opt/toolbox/update-system.sh".to_owned()])
    );
    let rogue = AdminTask { category: "System".into(), label: "Rogue".into(), script: "../evil.sh".into() };
    assert!(rogue.command_at(BASE, &present("../evil.sh")).is_err());
}

#[test]
fn discover_looks_at_each_canonical_directory_once() {
    let exe_dirs = vec![
        DirProbe { dir: "/opt/toolbox/bin".to_owned(), key: "/srv/toolbox".to_owned(), has_catalog: false, has_helper: true },
        DirProbe { dir: "/opt/toolbox".to_owned(), key: "/srv/toolbox".to_owned(), has_catalog: false, has_helper: true },
        DirProbe { dir: "/opt".to_owned(), key: "/opt".to_owned(), has_catalog: false, has_helper: false },
    ];
    let cwd = Some(DirProbe { dir: ".".to_owned(), key: "/opt".to_owned(), has_catalog: false, has_helper: true });
    let discovery = discover_base_dir(&exe_dirs, &cwd);
    assert!(!discovery.found);
    assert_eq!(discovery.base_dir, MISSING_BASE_DIR);
    assert_eq!(discovery.looked, vec!["/opt/toolbox/bin".to_owned(), "/opt".to_owned()]);
}
