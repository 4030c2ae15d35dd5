use linux_it_guy_toolbox::catalog::{AppEntry, CsvAppEntry};
use linux_it_guy_toolbox::path::{join_path_str, path_components, path_file_name, path_has_parent, path_starts_with};
use linux_it_guy_toolbox::runner::validate_task_command;
use linux_it_guy_toolbox::text::{decimal_string, replace_str, split_lines, trim_str};
use linux_it_guy_toolbox::validate::{
    Action, is_flatpak_id, is_package_name, is_safe_script_name, redact_secret, validate_main_sh_argv,
    zeroize_string,
};

fn s(v: &[&str]) -> Vec<String> {
    v.iter().map(|x| x.to_string()).collect()
}

#[test]
fn redaction_leaves_no_trace_of_the_password() {
    let text = "pw=hunter2hunter2 and hunter2\nhunte";
    let out = redact_secret(text, "hunter2");
    assert_eq!(out, "pw=**************** and ********\nhunte");
    assert!(!out.contains("hunter2"));
    assert_eq!(redact_secret("nothing to hide", ""), "nothing to hide");
    assert_eq!(replace_str("aaaa", "aa", "b"), "bb");
    assert_eq!(replace_str("aaa", "aa", "b"), "ba");
}

#[test]
fn commands_built_from_valid_rows_pass_the_runner_check() {
    let rows = [
        ("Browsers", "Firefox", "firefox", "", "firefox"),
        ("Browsers", "Brave Browser", "", "com.brave.Browser", "brave"),
        ("Gaming", "Steam", "steam", "com.valvesoftware.Steam", ""),
    ];
    for (category, label, package, flatpak, exec) in rows {
        let app = AppEntry::from_csv(CsvAppEntry {
            category: category.into(),
            label: label.into(),
            package_name: package.into(),
            flatpak_id: flatpak.into(),
            exec_name: exec.into(),
            notes: String::new(),
        })
        .unwrap();
        for action in [Action::Install, Action::Remove] {
            let command = app.try_command(Ok("/opt/toolbox/main.sh".to_owned()), action).unwrap();
            assert!(validate_main_sh_argv(&command, 2).is_ok());
            assert!(validate_task_command(
                &command,
                &Ok("/opt/toolbox".to_owned()),
                &Ok("/opt/toolbox/main.sh".to_owned())
            )
            .is_ok());
        }
    }
}

#[test]
fn main_sh_argv_must_follow_the_order() {
    let ok = s(&["--label", "A", "--package", "a", "--flatpak", "org.a.A", "--exec", "a", "remove"]);
    assert!(validate_main_sh_argv(&ok, 0).is_ok());
    let swapped = s(&["--label", "A", "--flatpak", "org.a.A", "--package", "a", "remove"]);
    assert!(validate_main_sh_argv(&swapped, 0).is_err());
    let twice = s(&["--label", "A", "--package", "a", "--package", "b", "install"]);
    assert!(validate_main_sh_argv(&twice, 0).is_err());
    let no_action = s(&["--label", "A", "--package", "a"]);
    assert!(validate_main_sh_argv(&no_action, 0).is_err());
    let bad_flatpak = s(&["--label", "A", "--flatpak", "org.a", "install"]);
    assert!(validate_main_sh_argv(&bad_flatpak, 0).is_err());
}

#[test]
fn validators_on_edge_cases() {
    assert!(is_package_name("brave-origin"));
    assert!(is_package_name("g++"));
    assert!(!is_package_name("-Syu"));
    assert!(!is_package_name(""));
    assert!(!is_package_name(&"a".repeat(129)));
    assert!(is_flatpak_id("io.gitlab.librewolf-community"));
    assert!(is_flatpak_id("com.github.tchx84.Flatseal"));
    assert!(!is_flatpak_id("com.brave"));
    assert!(!is_flatpak_id("com..Browser"));
    assert!(!is_flatpak_id("com.brave.Browser."));
    assert!(!is_flatpak_id("com.1brave.Browser"));
    assert!(is_safe_script_name("install-fastfetch.sh"));
    assert!(!is_safe_script_name("./main.sh"));
}

#[test]
fn paths_are_read_component_by_component() {
    let comps: Vec<String> = path_components("/a//b/./c/")
        .into_iter()
        .map(|c| c.into_iter().collect())
        .collect();
    assert_eq!(comps, ["/", "a", "b", "c"]);
    assert_eq!(path_file_name("/opt/toolbox/main.sh").as_deref(), Some("main.sh"));
    assert_eq!(path_file_name("foo.txt/.").as_deref(), Some("foo.txt"));
    assert_eq!(path_file_name("/opt/.."), None);
    assert_eq!(path_file_name("/"), None);
    assert!(path_starts_with("/opt/toolbox/main.sh", "/opt/toolbox"));
    assert!(path_starts_with("/opt/toolbox/", "/opt/toolbox"));
    assert!(!path_starts_with("/opt/toolbox-evil/main.sh", "/opt/toolbox"));
    assert!(!path_has_parent("/"));
    assert!(path_has_parent("/opt"));
    assert_eq!(join_path_str("/opt/toolbox", "main.sh"), "/opt/toolbox/main.sh");
    assert_eq!(join_path_str("/opt/toolbox/", "main.sh"), "/opt/toolbox/main.sh");
    assert_eq!(join_path_str("/opt/toolbox", "/etc/passwd"), "/etc/passwd");
}

#[test]
fn text_helpers_match_std() {
    for sample in ["", "\n", "a", "a\n", "a\r\nb", "a\rb\n\nc\r", "x\r\n\r\n"] {
        let ours = split_lines(sample);
        let std_lines: Vec<String> = sample.lines().map(|l| l.to_owned()).collect();
        assert_eq!(ours, std_lines, "{sample:?}");
    }
    for sample in ["  a b  ", "\u{3000}x\u{a0}", "", "   ", "x"] {
        assert_eq!(trim_str(sample), sample.trim());
    }
    for n in [0usize, 7, 10, 2, 99, 100, 12345] {
        assert_eq!(decimal_string(n), n.to_string());
    }
}

#[test]
fn zeroize_string_empties_the_secret() {
    let mut secret = String::from("hunter2 é ✓");
    zeroize_string(&mut secret);
    assert_eq!(secret, "");
    let mut empty = String::new();
    zeroize_string(&mut empty);
    assert_eq!(empty, "");
}
