//! Task execution with least privilege and secret handling.
//!
//! Helper scripts run as the invoking user. Privileged work stays inside the
//! scripts' own `sudo` calls after the runner caches credentials with
//! `sudo -S -v`. The sudo password is never placed in argv and never written
//! to disk; it is redacted from any captured output before it reaches the UI,
//! and its bytes are overwritten in memory once the run no longer needs it.
use vstd::prelude::*;

use crate::catalog::{Task, helper_path_is_under_base, result_view, under_base_result};
use crate::path::{file_name, path_file_name};
use crate::system::PackageManager;
use crate::text::{concat2, concat3, owned, str_eq, views};
use crate::validate::{
    check_main_sh, flatpak_id_ok, helper_scripts, is_flatpak_id, is_safe_script_name,
    package_ok, validate_main_sh_argv, validate_package_name,
};

verus! {

/// A message from the runner to the UI.
#[derive(Debug)]
pub enum RunnerMessage {
    Log(String),
    Done,
}

/// Whether the command's second word is a path whose file name is `main.sh`.
pub open spec fn runs_main_sh(c: Seq<Seq<char>>) -> bool {
    c.len() >= 2 && file_name(c[1]) == Some("main.sh"@)
}

/// Whether some `--flatpak` after the program is followed by a valid Flatpak ID.
pub open spec fn has_flatpak_target(c: Seq<Seq<char>>) -> bool {
    exists|i: int| 1 <= i && i + 1 < c.len() && #[trigger] c[i] == "--flatpak"@ && flatpak_id_ok(c[i + 1])
}

/// Whether some `--package` after the program is followed by a value.
pub open spec fn has_package_target(c: Seq<Seq<char>>) -> bool {
    exists|i: int| 1 <= i && i + 1 < c.len() && #[trigger] c[i] == "--package"@
}

/// Whether a command installs or removes a Flatpak through `main.sh`.
pub open spec fn needs_flatpak(c: Seq<Seq<char>>) -> bool {
    runs_main_sh(c) && has_flatpak_target(c)
}

/// Whether a command needs sudo: everything does except a user Flatpak
/// install or removal through `main.sh` once `flatpak` is installed.
pub open spec fn needs_privileges(c: Seq<Seq<char>>, flatpak_installed: bool) -> bool {
    if c.len() == 0 || c[0] != "bash"@ || !runs_main_sh(c) || has_package_target(c) {
        true
    } else if has_flatpak_target(c) {
        !flatpak_installed
    } else {
        true
    }
}

/// A command needs sudo unless it is a user Flatpak install or removal
/// through `main.sh` while `flatpak` is installed. So any `--package` after
/// the program (a native install) needs sudo whatever else the command holds
/// and whether or not `flatpak` is installed, as does a command that is not
/// `bash` running `main.sh`, and one that names no valid Flatpak ID.
pub proof fn lemma_privilege_rule(c: Seq<Seq<char>>, flatpak_installed: bool)
    ensures
        (exists|i: int| 1 <= i && i + 1 < c.len() && #[trigger] c[i] == "--package"@) ==> needs_privileges(
            c,
            flatpak_installed,
        ),
        (c.len() < 2 || c[0] != "bash"@ || file_name(c[1]) != Some("main.sh"@)) ==> needs_privileges(
            c,
            flatpak_installed,
        ),
        !needs_privileges(c, flatpak_installed) <==> {
            &&& flatpak_installed
            &&& c.len() >= 2 && c[0] == "bash"@ && file_name(c[1]) == Some("main.sh"@)
            &&& !exists|i: int| 1 <= i && i + 1 < c.len() && #[trigger] c[i] == "--package"@
            &&& exists|i: int| 1 <= i && i + 1 < c.len() && #[trigger] c[i] == "--flatpak"@ && flatpak_id_ok(c[i + 1])
        },
{
}

/// A command needs `flatpak` exactly when its script is `main.sh` and some
/// `--flatpak` after the program is followed by a valid Flatpak ID.
pub proof fn lemma_flatpak_need_rule(c: Seq<Seq<char>>)
    ensures
        needs_flatpak(c) <==> {
            &&& c.len() >= 2 && file_name(c[1]) == Some("main.sh"@)
            &&& exists|i: int| 1 <= i && i + 1 < c.len() && #[trigger] c[i] == "--flatpak"@ && flatpak_id_ok(c[i + 1])
        },
{
}

fn runs_main_sh_exec(command: &Vec<String>) -> (r: bool)
    ensures
        r == runs_main_sh(views(command@)),
{
    if command.len() < 2 {
        return false;
    }
    let ghost c = views(command@);
    assert(c[1] == command@[1]@);
    match path_file_name(command[1].as_str()) {
        Some(name) => str_eq(name.as_str(), "main.sh"),
        None => false,
    }
}

/// Finds a `flag` after the program whose value is accepted by the check
/// `flatpak` selects: a valid Flatpak ID when it is set, anything otherwise.
fn has_flag_pair(command: &Vec<String>, flag: &str, flatpak: bool) -> (r: bool)
    ensures
        r == exists|i: int|
            1 <= i && i + 1 < command@.len() && #[trigger] views(command@)[i] == flag@ && (flatpak
                ==> flatpak_id_ok(views(command@)[i + 1])),
{
    let ghost c = views(command@);
    let mut i: usize = 1;
    while i < command.len() && i + 1 < command.len()
        invariant
            c == views(command@),
            1 <= i,
            forall|k: int|
                1 <= k < i && k + 1 < c.len() ==> !(#[trigger] c[k] == flag@ && (flatpak
                    ==> flatpak_id_ok(c[k + 1]))),
        decreases command.len() - i,
    {
        assert(c[i as int] == command@[i as int]@);
        assert(c[i + 1] == command@[i + 1]@);
        if str_eq(command[i].as_str(), flag) && (!flatpak || is_flatpak_id(command[i + 1].as_str())) {
            return true;
        }
        i = i + 1;
    }
    false
}

/// Whether a command installs or removes a Flatpak through `main.sh` with a
/// valid Flatpak ID, so that `flatpak` itself must be present.
pub fn task_needs_flatpak(command: &Vec<String>) -> (r: bool)
    ensures
        r == needs_flatpak(views(command@)),
{
    proof {
        reveal_strlit("--flatpak");
    }
    runs_main_sh_exec(command) && has_flag_pair(command, "--flatpak", true)
}

/// Admin recipes and native package installs need sudo. User Flatpak
/// install/remove does not, once the `flatpak` binary is already present;
/// `flatpak_installed` says whether it is.
pub fn command_needs_privileges(command: &Vec<String>, flatpak_installed: bool) -> (r: bool)
    ensures
        r == needs_privileges(views(command@), flatpak_installed),
{
    let ghost c = views(command@);
    if command.len() == 0 {
        return true;
    }
    assert(c[0] == command@[0]@);
    if !str_eq(command[0].as_str(), "bash") {
        return true;
    }
    if !runs_main_sh_exec(command) {
        return true;
    }
    if has_flag_pair(command, "--package", false) {
        return true;
    }
    if has_flag_pair(command, "--flatpak", true) {
        return !flatpak_installed;
    }
    true
}

/// Whether any task needs privileges.
pub open spec fn tasks_privileged(tasks: Seq<Task>, flatpak_installed: bool) -> bool {
    exists|i: int| 0 <= i < tasks.len() && needs_privileges(views(#[trigger] tasks[i].command@), flatpak_installed)
}

/// Whether any of the tasks needs sudo.
pub fn tasks_need_privileges(tasks: &Vec<Task>, flatpak_installed: bool) -> (r: bool)
    ensures
        r == tasks_privileged(tasks@, flatpak_installed),
{
    let mut i: usize = 0;
    while i < tasks.len()
        invariant
            i <= tasks.len(),
            forall|k: int| 0 <= k < i ==> !needs_privileges(views(#[trigger] tasks@[k].command@), flatpak_installed),
        decreases tasks.len() - i,
    {
        if command_needs_privileges(&tasks[i].command, flatpak_installed) {
            return true;
        }
        i = i + 1;
    }
    false
}

/// Whether any task needs `flatpak` itself.
pub open spec fn tasks_need_flatpak(tasks: Seq<Task>) -> bool {
    exists|i: int| 0 <= i < tasks.len() && needs_flatpak(views(#[trigger] tasks[i].command@))
}

/// Whether any of the tasks installs or removes a Flatpak.
pub fn any_task_needs_flatpak(tasks: &Vec<Task>) -> (r: bool)
    ensures
        r == tasks_need_flatpak(tasks@),
{
    let mut i: usize = 0;
    while i < tasks.len()
        invariant
            i <= tasks.len(),
            forall|k: int| 0 <= k < i ==> !needs_flatpak(views(#[trigger] tasks@[k].command@)),
        decreases tasks.len() - i,
    {
        if task_needs_flatpak(&tasks[i].command) {
            return true;
        }
        i = i + 1;
    }
    false
}

/// The argv that installs the `flatpak` package with the host's package
/// manager, through `sudo -S`; `nala_installed` picks nala over apt-get.
pub open spec fn flatpak_install_argv(pm: PackageManager, nala_installed: bool) -> Option<Seq<Seq<char>>> {
    match pm {
        PackageManager::Pacman => Some(
            seq!["sudo"@, "-S"@, "pacman"@, "-S"@, "--needed"@, "--noconfirm"@, "--"@, "flatpak"@],
        ),
        PackageManager::Apt => if nala_installed {
            Some(seq!["sudo"@, "-S"@, "nala"@, "install"@, "-y"@, "--"@, "flatpak"@])
        } else {
            Some(seq!["sudo"@, "-S"@, "apt-get"@, "install"@, "-y"@, "--"@, "flatpak"@])
        },
        PackageManager::Dnf => Some(seq!["sudo"@, "-S"@, "dnf"@, "install"@, "-y"@, "--"@, "flatpak"@]),
        PackageManager::Unknown => None,
    }
}

fn argv_of(parts: Vec<&str>) -> (r: Vec<String>)
    ensures
        views(r@) == parts@.map_values(|s: &str| s@),
{
    let mut r: Vec<String> = Vec::new();
    let mut i: usize = 0;
    while i < parts.len()
        invariant
            i <= parts.len(),
            views(r@) == parts@.take(i as int).map_values(|s: &str| s@),
        decreases parts.len() - i,
    {
        r.push(owned(parts[i]));
        assert(parts@.take(i + 1).map_values(|s: &str| s@) =~= parts@.take(i as int).map_values(
            |s: &str| s@,
        ).push(parts@[i as int]@));
        assert(views(r@) =~= views(r@.drop_last()).push(r@.last()@));
        i = i + 1;
    }
    assert(parts@.take(parts.len() as int) =~= parts@);
    r
}

proof fn lemma_flatpak_is_a_package_name()
    ensures
        package_ok("flatpak"@),
{
    reveal_strlit("flatpak");
    let s = "flatpak"@;
    assert forall|i: int| 0 <= i < s.len() implies crate::validate::is_package_char(#[trigger] s[i]) by {
        assert(crate::validate::is_ascii_letter(s[i]));
    }
}

/// The argv that bootstraps the `flatpak` package through `sudo -S`.
pub fn flatpak_package_install_command(package_manager: PackageManager, nala_installed: bool) -> (r: Result<
    Vec<String>,
    String,
>)
    ensures
        match flatpak_install_argv(package_manager, nala_installed) {
            Some(argv) => r matches Ok(v) && views(v@) == argv,
            None => r matches Err(e) && e@ == "Unsupported package manager for Flatpak bootstrap: unknown"@,
        },
{
    proof {
        lemma_flatpak_is_a_package_name();
    }
    validate_package_name("flatpak")?;
    match package_manager {
        PackageManager::Pacman => {
            let v = argv_of(vec!["sudo", "-S", "pacman", "-S", "--needed", "--noconfirm", "--", "flatpak"]);
            assert(views(v@) =~= seq!["sudo"@, "-S"@, "pacman"@, "-S"@, "--needed"@, "--noconfirm"@, "--"@, "flatpak"@]);
            Ok(v)
        },
        PackageManager::Apt => {
            if nala_installed {
                let v = argv_of(vec!["sudo", "-S", "nala", "install", "-y", "--", "flatpak"]);
                assert(views(v@) =~= seq!["sudo"@, "-S"@, "nala"@, "install"@, "-y"@, "--"@, "flatpak"@]);
                Ok(v)
            } else {
                let v = argv_of(vec!["sudo", "-S", "apt-get", "install", "-y", "--", "flatpak"]);
                assert(views(v@) =~= seq!["sudo"@, "-S"@, "apt-get"@, "install"@, "-y"@, "--"@, "flatpak"@]);
                Ok(v)
            }
        },
        PackageManager::Dnf => {
            let v = argv_of(vec!["sudo", "-S", "dnf", "install", "-y", "--", "flatpak"]);
            assert(views(v@) =~= seq!["sudo"@, "-S"@, "dnf"@, "install"@, "-y"@, "--"@, "flatpak"@]);
            Ok(v)
        },
        PackageManager::Unknown => Err(owned("Unsupported package manager for Flatpak bootstrap: unknown")),
    }
}

/// The message for a failed start of `program`: whether the error was
/// "not found" and the error's own text decide it.
pub open spec fn io_error_text(program: Seq<char>, not_found: bool, error_text: Seq<char>) -> Seq<char> {
    if not_found {
        program + " was not found on PATH."@
    } else {
        error_text
    }
}

/// Describes a failure to run `program`.
pub fn io_error_message(program: &str, not_found: bool, error_text: &str) -> (r: String)
    ensures
        r@ == io_error_text(program@, not_found, error_text@),
{
    if not_found {
        concat2(program, " was not found on PATH.")
    } else {
        owned(error_text)
    }
}

/// The outcome of checking a task's argv before it runs, given the canonical
/// app directory and the canonical form of the script it names.
pub open spec fn task_command_result(
    c: Seq<Seq<char>>,
    base: Result<Seq<char>, Seq<char>>,
    canonical: Result<Seq<char>, Seq<char>>,
) -> Result<(), Seq<char>> {
    if c.len() == 0 {
        Err("Empty command."@)
    } else if c[0] != "bash"@ {
        Err("Only bash helper scripts are allowed."@)
    } else if c.len() < 2 {
        Err("Missing helper script path."@)
    } else {
        match under_base_result(c[1], base, canonical) {
            Err(e) => Err(e),
            Ok(path) => match file_name(path) {
                None => Err("Invalid helper script path."@),
                Some(name) => if !helper_scripts().contains(name) {
                    Err("Helper script "@ + name + " is not allowed."@)
                } else if name == "main.sh"@ {
                    match check_main_sh(c.subrange(2, c.len() as int)) {
                        Err(m) => Err(m),
                        Ok(_) => Ok(()),
                    }
                } else if c.len() > 2 {
                    Err("Admin helper scripts do not accept extra arguments."@)
                } else {
                    Ok(())
                },
            },
        }
    }
}

/// Checks a task's argv before it runs: `bash`, then an allowlisted helper
/// whose canonical path lies inside the app directory, then arguments that
/// helper accepts.
pub fn validate_task_command(
    command: &Vec<String>,
    canonical_base: &Result<String, String>,
    canonical_script: &Result<String, String>,
) -> (r: Result<(), String>)
    ensures
        match task_command_result(
            views(command@),
            result_view(*canonical_base),
            result_view(*canonical_script),
        ) {
            Ok(()) => r is Ok,
            Err(m) => r matches Err(e) && e@ == m,
        },
{
    let ghost c = views(command@);
    if command.len() == 0 {
        return Err(owned("Empty command."));
    }
    assert(c[0] == command@[0]@);
    if !str_eq(command[0].as_str(), "bash") {
        return Err(owned("Only bash helper scripts are allowed."));
    }
    if command.len() < 2 {
        return Err(owned("Missing helper script path."));
    }
    assert(c[1] == command@[1]@);
    let canonical = helper_path_is_under_base(
        command[1].as_str(),
        canonical_base,
        canonical_script,
    )?;
    let name = match path_file_name(canonical.as_str()) {
        Some(n) => n,
        None => {
            return Err(owned("Invalid helper script path."));
        },
    };
    if !is_safe_script_name(name.as_str()) {
        return Err(concat3("Helper script ", name.as_str(), " is not allowed."));
    }
    if str_eq(name.as_str(), "main.sh") {
        assert(crate::validate::tail_views(command@, 2) =~= c.subrange(2, c.len() as int));
        validate_main_sh_argv(command, 2)?;
    } else if command.len() > 2 {
        return Err(owned("Admin helper scripts do not accept extra arguments."));
    }
    Ok(())
}

/// A task argv that passes the check runs `bash` on an allowlisted helper
/// that lies inside the app directory: `main.sh` with arguments it accepts,
/// or an admin recipe with none.
pub proof fn lemma_accepted_task_is_confined(
    c: Seq<Seq<char>>,
    base: Result<Seq<char>, Seq<char>>,
    canonical: Result<Seq<char>, Seq<char>>,
)
    requires
        task_command_result(c, base, canonical) is Ok,
    ensures
        c.len() >= 2,
        c[0] == "bash"@,
        match (base, canonical) {
            (Ok(b), Ok(p)) => crate::path::starts_with(p, b) && crate::path::has_parent(b) && match file_name(p) {
                Some(name) => helper_scripts().contains(name) && if name == "main.sh"@ {
                    check_main_sh(c.subrange(2, c.len() as int)) is Ok
                } else {
                    c.len() == 2
                },
                None => false,
            },
            _ => false,
        },
{
}


/// A command built for a valid catalog entry passes the task check once its
/// script resolves, inside a non-root app directory, to a file named `main.sh`.
pub proof fn lemma_catalog_commands_pass_task_check(
    v: crate::catalog::EntryView,
    script: Seq<char>,
    action: crate::validate::Action,
    base: Seq<char>,
    canonical: Seq<char>,
)
    requires
        crate::catalog::entry_ok(v),
        crate::path::has_parent(base),
        crate::path::starts_with(canonical, base),
        file_name(canonical) == Some("main.sh"@),
    ensures
        task_command_result(
            crate::catalog::entry_command(v, script, action),
            Ok(base),
            Ok(canonical),
        ) is Ok,
{
    let c = crate::catalog::entry_command(v, script, action);
    crate::catalog::lemma_entry_command_accepted(v, script, action);
    assert(c[0] == "bash"@);
    assert(c[1] == script);
    assert(helper_scripts()[0] == "main.sh"@);
}


/// The argv of any admin recipe passes the task check once its script
/// resolves, inside a non-root app directory, to a file with the recipe's name.
pub proof fn lemma_admin_commands_pass_task_check(
    i: int,
    script: Seq<char>,
    base: Seq<char>,
    canonical: Seq<char>,
)
    requires
        0 <= i < crate::catalog::admin_table().len(),
        crate::path::has_parent(base),
        crate::path::starts_with(canonical, base),
        file_name(canonical) == Some(crate::catalog::admin_table()[i].script),
    ensures
        task_command_result(seq!["bash"@, script], Ok(base), Ok(canonical)) is Ok,
{
    crate::catalog::lemma_admin_scripts_allowlisted();
    let name = crate::catalog::admin_table()[i].script;
    assert(name != "main.sh"@) by {
        reveal_strlit("main.sh");
        reveal_strlit("enable-bluetooth.sh");
        reveal_strlit("disable-bluetooth.sh");
        reveal_strlit("install-tlp.sh");
        reveal_strlit("install-powertop.sh");
        reveal_strlit("update-system.sh");
        reveal_strlit("install-nala.sh");
        reveal_strlit("install-stacer.sh");
        reveal_strlit("install-swapfix.sh");
        reveal_strlit("install-fastfetch.sh");
        assert(name.len() != "main.sh"@.len());
    }
}

/// The argv that caches sudo credentials, reading the password from stdin.
pub fn sudo_cache_argv() -> (r: Vec<String>)
    ensures
        views(r@) == seq!["sudo"@, "-S"@, "-v"@],
{
    let v = argv_of(vec!["sudo", "-S", "-v"]);
    assert(views(v@) =~= seq!["sudo"@, "-S"@, "-v"@]);
    v
}

/// The argv that drops the cached sudo credentials.
pub fn sudo_drop_argv() -> (r: Vec<String>)
    ensures
        views(r@) == seq!["sudo"@, "-k"@],
{
    let v = argv_of(vec!["sudo", "-k"]);
    assert(views(v@) =~= seq!["sudo"@, "-k"@]);
    v
}

/// The outcome of checking the argv of the Flatpak bootstrap.
pub open spec fn sudo_command_result(c: Seq<Seq<char>>) -> Result<(), Seq<char>> {
    if c.len() == 0 {
        Err("[ERROR] Empty Flatpak bootstrap command."@)
    } else if c[0] != "sudo"@ || c.len() < 2 || c[1] != "-S"@ {
        Err("[ERROR] Flatpak bootstrap must use sudo -S."@)
    } else {
        Ok(())
    }
}

/// Checks that the Flatpak bootstrap runs as `sudo -S ...`, so that the
/// password goes through stdin.
pub fn check_sudo_command(command: &Vec<String>) -> (r: Result<(), String>)
    ensures
        match sudo_command_result(views(command@)) {
            Ok(()) => r is Ok,
            Err(m) => r matches Err(e) && e@ == m,
        },
{
    let ghost c = views(command@);
    if command.len() == 0 {
        return Err(owned("[ERROR] Empty Flatpak bootstrap command."));
    }
    assert(c[0] == command@[0]@);
    if command.len() >= 2 {
        assert(c[1] == command@[1]@);
    }
    if !str_eq(command[0].as_str(), "sudo") || command.len() < 2 || !str_eq(
        command[1].as_str(),
        "-S",
    ) {
        return Err(owned("[ERROR] Flatpak bootstrap must use sudo -S."));
    }
    Ok(())
}

/// Every Flatpak bootstrap argv passes the `sudo -S` check.
pub proof fn lemma_bootstrap_uses_sudo_s(pm: PackageManager, nala_installed: bool)
    ensures
        flatpak_install_argv(pm, nala_installed) matches Some(argv) ==> sudo_command_result(argv) is Ok,
{
}

} // verus!
