//! App catalog loading and command construction.
//!
//! CSV rows and admin helper names are validated before they are turned into
//! argv arrays. Commands are never built as a single shell string.
use vstd::prelude::*;

use crate::path::{has_parent, join_path, join_path_str, path_has_parent, path_starts_with, starts_with};
use crate::text::{
    concat2, concat3, concat4, decimal, decimal_string, is_ascii_whitespace, is_empty_str, join,
    join_strings, owned, push_char, trim, trim_str, views,
};
use crate::validate::{
    Action, MainShArgs, action_str, category_error, category_ok, check_main_sh, exec_error,
    exec_ok, flatpak_error, flatpak_id_ok, helper_scripts, label_error, label_ok,
    lemma_main_sh_roundtrip, notes_error, notes_ok, package_error, package_ok, render_main_sh,
    script_error, target_required_error, validate_category, validate_exec_name,
    validate_flatpak_id, validate_label, validate_notes, validate_package_name,
    validate_script_name,
};

verus! {

/// Absolute placeholder used when the catalog was not found.
/// Relative fallbacks such as `.` would resolve helper names against CWD.
pub const MISSING_BASE_DIR: &'static str = "/var/empty-linux-it-guy-toolbox";

/// How the catalog directory was located.
#[derive(Clone, Copy, Debug, PartialEq, Eq, Structural)]
pub enum BaseDirSource {
    Executable,
    Ancestor,
    WorkingDirectory,
}

/// The six text fields of a catalog row.
pub struct EntryView {
    pub category: Seq<char>,
    pub label: Seq<char>,
    pub package_name: Seq<char>,
    pub flatpak_id: Seq<char>,
    pub exec_name: Seq<char>,
    pub notes: Seq<char>,
}

/// A catalog row as read from `apps_config.csv`, before validation.
#[derive(Clone, Debug)]
pub struct CsvAppEntry {
    pub category: String,
    pub label: String,
    pub package_name: String,
    pub flatpak_id: String,
    pub exec_name: String,
    pub notes: String,
}

impl View for CsvAppEntry {
    type V = EntryView;

    open spec fn view(&self) -> EntryView {
        EntryView {
            category: self.category@,
            label: self.label@,
            package_name: self.package_name@,
            flatpak_id: self.flatpak_id@,
            exec_name: self.exec_name@,
            notes: self.notes@,
        }
    }
}

/// A validated catalog entry.
#[derive(Clone, Debug)]
pub struct AppEntry {
    pub category: String,
    pub label: String,
    pub package_name: String,
    pub flatpak_id: String,
    pub exec_name: String,
    pub notes: String,
}

impl View for AppEntry {
    type V = EntryView;

    open spec fn view(&self) -> EntryView {
        EntryView {
            category: self.category@,
            label: self.label@,
            package_name: self.package_name@,
            flatpak_id: self.flatpak_id@,
            exec_name: self.exec_name@,
            notes: self.notes@,
        }
    }
}

/// Every field of `v` trimmed.
pub open spec fn trimmed(v: EntryView) -> EntryView {
    EntryView {
        category: trim(v.category),
        label: trim(v.label),
        package_name: trim(v.package_name),
        flatpak_id: trim(v.flatpak_id),
        exec_name: trim(v.exec_name),
        notes: trim(v.notes),
    }
}

/// Whether the fields of `t` make a valid catalog entry: valid category,
/// label and notes; at least one of package name and Flatpak ID; and each
/// non-empty package name, Flatpak ID and exec name valid.
pub open spec fn entry_ok(t: EntryView) -> bool {
    &&& category_ok(t.category)
    &&& label_ok(t.label)
    &&& notes_ok(t.notes)
    &&& (t.package_name.len() > 0 || t.flatpak_id.len() > 0)
    &&& (t.package_name.len() > 0 ==> package_ok(t.package_name))
    &&& (t.flatpak_id.len() > 0 ==> flatpak_id_ok(t.flatpak_id))
    &&& (t.exec_name.len() > 0 ==> exec_ok(t.exec_name))
}

/// The message for the first rule that `t` breaks, checked in the order
/// category, label, notes, target, package name, Flatpak ID, exec name.
pub open spec fn entry_error(t: EntryView) -> Seq<char> {
    if !category_ok(t.category) {
        category_error()
    } else if !label_ok(t.label) {
        label_error()
    } else if !notes_ok(t.notes) {
        notes_error()
    } else if t.package_name.len() == 0 && t.flatpak_id.len() == 0 {
        target_required_error()
    } else if t.package_name.len() > 0 && !package_ok(t.package_name) {
        package_error()
    } else if t.flatpak_id.len() > 0 && !flatpak_id_ok(t.flatpak_id) {
        flatpak_error()
    } else {
        exec_error()
    }
}

/// What reading a catalog row gives: the trimmed row when it is valid, the
/// message for the first broken rule otherwise.
pub open spec fn csv_row_result(v: EntryView) -> Result<EntryView, Seq<char>> {
    let t = trimmed(v);
    if entry_ok(t) {
        Ok(t)
    } else {
        Err(entry_error(t))
    }
}

/// The source label of an entry's install targets.
pub open spec fn source_label_of(v: EntryView) -> Seq<char> {
    if v.flatpak_id.len() == 0 {
        "native"@
    } else if v.package_name.len() == 0 {
        "flatpak"@
    } else {
        "native + flatpak"@
    }
}

/// A field as an optional argument: empty means absent.
pub open spec fn optional(s: Seq<char>) -> Option<Seq<char>> {
    if s.len() > 0 {
        Some(s)
    } else {
        None
    }
}

/// What `main.sh` is asked for an entry and an action.
pub open spec fn entry_args(v: EntryView, action: Action) -> MainShArgs {
    MainShArgs {
        label: v.label,
        package: optional(v.package_name),
        flatpak: optional(v.flatpak_id),
        exec_name: optional(v.exec_name),
        action,
    }
}

/// The argv that runs the helper at `script` for an entry and an action.
pub open spec fn entry_command(v: EntryView, script: Seq<char>, action: Action) -> Seq<Seq<char>> {
    seq!["bash"@, script] + render_main_sh(entry_args(v, action))
}

impl AppEntry {
    /// Validates a catalog row and keeps its trimmed fields.
    pub fn from_csv(entry: CsvAppEntry) -> (r: Result<Self, String>)
        ensures
            match (r, csv_row_result(entry@)) {
                (Ok(app), Ok(t)) => app@ == t,
                (Err(e), Err(msg)) => e@ == msg,
                _ => false,
            },
    {
        let category = trim_str(entry.category.as_str());
        let label = trim_str(entry.label.as_str());
        let package_name = trim_str(entry.package_name.as_str());
        let flatpak_id = trim_str(entry.flatpak_id.as_str());
        let exec_name = trim_str(entry.exec_name.as_str());
        let notes = trim_str(entry.notes.as_str());

        validate_category(category.as_str())?;
        validate_label(label.as_str())?;
        validate_notes(notes.as_str())?;

        if is_empty_str(package_name.as_str()) && is_empty_str(flatpak_id.as_str()) {
            return Err(owned("at least one of package name or Flatpak ID is required"));
        }
        if !is_empty_str(package_name.as_str()) {
            validate_package_name(package_name.as_str())?;
        }
        if !is_empty_str(flatpak_id.as_str()) {
            validate_flatpak_id(flatpak_id.as_str())?;
        }
        if !is_empty_str(exec_name.as_str()) {
            validate_exec_name(exec_name.as_str())?;
        }

        Ok(AppEntry { category, label, package_name, flatpak_id, exec_name, notes })
    }

    /// Which install targets the entry has: "native", "flatpak" or both.
    pub fn source_label(&self) -> (r: &'static str)
        ensures
            r@ == source_label_of(self@),
    {
        if is_empty_str(self.flatpak_id.as_str()) {
            "native"
        } else if is_empty_str(self.package_name.as_str()) {
            "flatpak"
        } else {
            "native + flatpak"
        }
    }

    /// The argv that runs `main.sh` for this entry, given the result of
    /// resolving `main.sh` under the app directory.
    pub fn try_command(&self, script: Result<String, String>, action: Action) -> (r: Result<
        Vec<String>,
        String,
    >)
        ensures
            match script {
                Ok(s) => r matches Ok(v) && views(v@) == entry_command(self@, s@, action),
                Err(e) => r matches Err(e2) && e2@ == e@,
            },
    {
        let script = script?;
        let ghost s = script@;
        let mut command: Vec<String> = Vec::new();
        command.push(owned("bash"));
        command.push(script);
        command.push(owned("--label"));
        command.push(self.label.clone());
        if !is_empty_str(self.package_name.as_str()) {
            command.push(owned("--package"));
            command.push(self.package_name.clone());
        }
        if !is_empty_str(self.flatpak_id.as_str()) {
            command.push(owned("--flatpak"));
            command.push(self.flatpak_id.clone());
        }
        if !is_empty_str(self.exec_name.as_str()) {
            command.push(owned("--exec"));
            command.push(self.exec_name.clone());
        }
        command.push(owned(action.as_str()));
        assert(views(command@) =~= entry_command(self@, s, action));
        Ok(command)
    }
}


/// The three text fields of an admin recipe.
pub struct AdminView {
    pub category: Seq<char>,
    pub label: Seq<char>,
    pub script: Seq<char>,
}

/// An admin recipe: a helper script run without arguments.
#[derive(Clone, Debug)]
pub struct AdminTask {
    pub category: String,
    pub label: String,
    pub script: String,
}

impl View for AdminTask {
    type V = AdminView;

    open spec fn view(&self) -> AdminView {
        AdminView { category: self.category@, label: self.label@, script: self.script@ }
    }
}

impl AdminTask {
    /// The argv that runs this recipe, given the result of resolving its
    /// script under the app directory.
    pub fn try_command(&self, script: Result<String, String>) -> (r: Result<Vec<String>, String>)
        ensures
            match script {
                Ok(s) => r matches Ok(v) && views(v@) == seq!["bash"@, s@],
                Err(e) => r matches Err(e2) && e2@ == e@,
            },
    {
        let script = script?;
        let mut command: Vec<String> = Vec::new();
        command.push(owned("bash"));
        command.push(script);
        assert(views(command@) =~= seq!["bash"@, command@[1]@]);
        Ok(command)
    }
}

/// A unit of work for the runner: a description and the argv to run.
#[derive(Clone, Debug)]
pub struct Task {
    pub description: String,
    pub command: Vec<String>,
}

/// The admin recipes offered, in display order.
pub open spec fn admin_table() -> Seq<AdminView> {
    seq![
        AdminView { category: "Power Management"@, label: "Enable Bluetooth"@, script: "enable-bluetooth.sh"@ },
        AdminView { category: "Power Management"@, label: "Disable Bluetooth"@, script: "disable-bluetooth.sh"@ },
        AdminView { category: "Power Management"@, label: "TLP (Laptops)"@, script: "install-tlp.sh"@ },
        AdminView { category: "Power Management"@, label: "Powertop"@, script: "install-powertop.sh"@ },
        AdminView { category: "System"@, label: "Update System"@, script: "update-system.sh"@ },
        AdminView { category: "System"@, label: "nala (rank mirrors) - Debian only"@, script: "install-nala.sh"@ },
        AdminView { category: "System"@, label: "Stacer"@, script: "install-stacer.sh"@ },
        AdminView { category: "System"@, label: "SWAP Fix"@, script: "install-swapfix.sh"@ },
        AdminView { category: "System"@, label: "Fastfetch"@, script: "install-fastfetch.sh"@ },
    ]
}

fn admin_task(category: &str, label: &str, script: &str) -> (r: AdminTask)
    ensures
        r@ == (AdminView { category: category@, label: label@, script: script@ }),
{
    AdminTask { category: owned(category), label: owned(label), script: owned(script) }
}

/// The admin recipes offered, in display order.
pub fn admin_tasks() -> (r: Vec<AdminTask>)
    ensures
        r@.map_values(|t: AdminTask| t@) == admin_table(),
{
    let mut r: Vec<AdminTask> = Vec::new();
    r.push(admin_task("Power Management", "Enable Bluetooth", "enable-bluetooth.sh"));
    r.push(admin_task("Power Management", "Disable Bluetooth", "disable-bluetooth.sh"));
    r.push(admin_task("Power Management", "TLP (Laptops)", "install-tlp.sh"));
    r.push(admin_task("Power Management", "Powertop", "install-powertop.sh"));
    r.push(admin_task("System", "Update System", "update-system.sh"));
    r.push(admin_task("System", "nala (rank mirrors) - Debian only", "install-nala.sh"));
    r.push(admin_task("System", "Stacer", "install-stacer.sh"));
    r.push(admin_task("System", "SWAP Fix", "install-swapfix.sh"));
    r.push(admin_task("System", "Fastfetch", "install-fastfetch.sh"));
    assert(r@.map_values(|t: AdminTask| t@) =~= admin_table());
    r
}

/// Every admin recipe names an allowlisted helper script.
pub proof fn lemma_admin_scripts_allowlisted()
    ensures
        forall|i: int| 0 <= i < admin_table().len() ==> helper_scripts().contains(#[trigger] admin_table()[i].script),
{
    let t = admin_table();
    let h = helper_scripts();
    assert(t[0].script == h[1]);
    assert(t[1].script == h[2]);
    assert(t[2].script == h[3]);
    assert(t[3].script == h[4]);
    assert(t[4].script == h[5]);
    assert(t[5].script == h[6]);
    assert(t[6].script == h[7]);
    assert(t[7].script == h[8]);
    assert(t[8].script == h[9]);
}

/// Whether a command part needs quotes when shown: it holds ASCII whitespace.
pub open spec fn has_ascii_whitespace(s: Seq<char>) -> bool {
    exists|i: int| 0 <= i < s.len() && is_ascii_whitespace(#[trigger] s[i])
}

/// A command part as shown to the user.
pub open spec fn shown_part(s: Seq<char>) -> Seq<char> {
    if has_ascii_whitespace(s) {
        seq!['"'] + s + seq!['"']
    } else {
        s
    }
}

/// A command as shown to the user: its parts, quoted where they hold
/// whitespace, joined by single spaces.
pub open spec fn shown_command(parts: Seq<Seq<char>>) -> Seq<char> {
    join(parts.map_values(|p: Seq<char>| shown_part(p)), seq![' '])
}

fn shown_part_exec(part: &String) -> (r: String)
    ensures
        r@ == shown_part(part@),
{
    let chars = crate::text::chars_of(part.as_str());
    let mut i: usize = 0;
    while i < chars.len()
        invariant
            chars@ == part@,
            i <= chars.len(),
            forall|k: int| 0 <= k < i ==> !is_ascii_whitespace(#[trigger] chars@[k]),
        decreases chars.len() - i,
    {
        let c = chars[i];
        if c == ' ' || c == '\t' || c == '\n' || c == '\x0C' || c == '\r' {
            assert(is_ascii_whitespace(chars@[i as int]));
            let mut r = String::new();
            push_char(&mut r, '"');
            r.append(part.as_str());
            push_char(&mut r, '"');
            assert(r@ =~= seq!['"'] + part@ + seq!['"']);
            return r;
        }
        i = i + 1;
    }
    part.clone()
}

/// Renders a command for the log: parts joined by spaces, with the parts
/// that hold whitespace in double quotes.
pub fn display_command(command: &Vec<String>) -> (r: String)
    ensures
        r@ == shown_command(views(command@)),
{
    let mut parts: Vec<String> = Vec::new();
    let mut i: usize = 0;
    while i < command.len()
        invariant
            i <= command.len(),
            parts@.len() == i,
            forall|k: int| 0 <= k < i ==> #[trigger] parts@[k]@ == shown_part(command@[k]@),
        decreases command.len() - i,
    {
        parts.push(shown_part_exec(&command[i]));
        i = i + 1;
    }
    proof {
        reveal_strlit(" ");
        assert(" "@ =~= seq![' ']);
        assert(views(parts@) =~= views(command@).map_values(|p: Seq<char>| shown_part(p)));
    }
    join_strings(&parts, " ")
}


/// The view of a text result.
pub open spec fn result_view(r: Result<String, String>) -> Result<Seq<char>, Seq<char>> {
    match r {
        Ok(s) => Ok(s@),
        Err(e) => Err(e@),
    }
}

/// What the filesystem says about a helper script: whether the joined path
/// is a file, the canonical forms of the app directory and of the script
/// (or the error text of resolving them), and whether the canonical script
/// path is valid UTF-8.
pub struct HelperProbe {
    pub is_file: bool,
    pub canonical_base: Result<String, String>,
    pub canonical_script: Result<String, String>,
    pub script_is_utf8: bool,
}

/// The outcome of checking that the script shown as `script` resolves inside
/// the app directory, given the canonical app directory `base` and the
/// canonical script `canonical`.
pub open spec fn under_base_result(
    script: Seq<char>,
    base: Result<Seq<char>, Seq<char>>,
    canonical: Result<Seq<char>, Seq<char>>,
) -> Result<Seq<char>, Seq<char>> {
    match base {
        Err(e) => Err("cannot resolve app directory: "@ + e),
        Ok(b) => if !has_parent(b) {
            Err("app directory must not be the filesystem root"@)
        } else {
            match canonical {
                Err(e) => Err("cannot resolve helper script "@ + script + ": "@ + e),
                Ok(c) => if !starts_with(c, b) {
                    Err("helper script "@ + script + " is outside the app directory"@)
                } else {
                    Ok(c)
                },
            }
        },
    }
}

/// Re-checks at spawn time that a script canonicalizes inside the app
/// directory. Basename allowlisting alone is not enough: `/tmp/main.sh`
/// must not run.
pub fn helper_path_is_under_base(
    script: &str,
    canonical_base: &Result<String, String>,
    canonical_script: &Result<String, String>,
) -> (r: Result<String, String>)
    ensures
        result_view(r) == under_base_result(
            script@,
            result_view(*canonical_base),
            result_view(*canonical_script),
        ),
        r matches Ok(c) ==> (canonical_base matches Ok(b) && starts_with(c@, b@) && has_parent(b@)),
{
    let base = match canonical_base {
        Ok(b) => b,
        Err(e) => {
            return Err(concat2("cannot resolve app directory: ", e.as_str()));
        },
    };
    if !path_has_parent(base.as_str()) {
        return Err(owned("app directory must not be the filesystem root"));
    }
    let canonical = match canonical_script {
        Ok(c) => c,
        Err(e) => {
            return Err(concat4("cannot resolve helper script ", script, ": ", e.as_str()));
        },
    };
    if !path_starts_with(canonical.as_str(), base.as_str()) {
        return Err(concat3("helper script ", script, " is outside the app directory"));
    }
    Ok(canonical.clone())
}

/// Where the filesystem is asked about helper `name`: `name` under the app
/// directory, once `name` is known to be allowlisted.
pub fn helper_script_path(base_dir: &str, name: &str) -> (r: Result<String, String>)
    ensures
        match r {
            Ok(p) => helper_scripts().contains(name@) && p@ == join_path(base_dir@, name@),
            Err(e) => !helper_scripts().contains(name@) && e@ == script_error(name@),
        },
{
    validate_script_name(name)?;
    Ok(join_path_str(base_dir, name))
}

/// The outcome of resolving helper `name` under `base_dir`, given what the
/// filesystem says about it.
pub open spec fn resolve_result(
    base_dir: Seq<char>,
    name: Seq<char>,
    is_file: bool,
    base: Result<Seq<char>, Seq<char>>,
    canonical: Result<Seq<char>, Seq<char>>,
    utf8: bool,
) -> Result<Seq<char>, Seq<char>> {
    if !helper_scripts().contains(name) {
        Err(script_error(name))
    } else if !is_file {
        Err("helper script "@ + name + " was not found"@)
    } else {
        match under_base_result(join_path(base_dir, name), base, canonical) {
            Err(e) => Err(e),
            Ok(c) => if !utf8 {
                Err("helper script "@ + name + " path is not valid UTF-8"@)
            } else {
                Ok(c)
            },
        }
    }
}

/// Resolves helper `name` to its canonical path inside the app directory,
/// given what the filesystem says about `base_dir` joined with `name`.
pub fn resolve_helper_script(base_dir: &str, name: &str, probe: &HelperProbe) -> (r: Result<
    String,
    String,
>)
    ensures
        result_view(r) == resolve_result(
            base_dir@,
            name@,
            probe.is_file,
            result_view(probe.canonical_base),
            result_view(probe.canonical_script),
            probe.script_is_utf8,
        ),
        r matches Ok(c) ==> helper_scripts().contains(name@) && (probe.canonical_base matches Ok(b)
            && starts_with(c@, b@)),
{
    let path = helper_script_path(base_dir, name)?;
    if !probe.is_file {
        return Err(concat3("helper script ", name, " was not found"));
    }
    let canonical = helper_path_is_under_base(
        path.as_str(),
        &probe.canonical_base,
        &probe.canonical_script,
    )?;
    if !probe.script_is_utf8 {
        return Err(concat3("helper script ", name, " path is not valid UTF-8"));
    }
    Ok(canonical)
}


/// The outcome of loading the catalog.
#[derive(Clone, Debug)]
pub struct CatalogLoad {
    pub apps: Vec<AppEntry>,
    pub warnings: Vec<String>,
    pub error: Option<String>,
}

/// What reading `apps_config.csv` gave: no file at `path`, a file that could
/// not be opened, or its rows, each parsed or refused with the parser's message.
pub enum CatalogRead {
    Missing { path: String },
    OpenFailed { error: String },
    Rows { rows: Vec<Result<CsvAppEntry, String>> },
}

/// The warning for a skipped row.
pub open spec fn skip_warning(row: nat, msg: Seq<char>) -> Seq<char> {
    "Skipping catalog row "@ + decimal(row) + ": "@ + msg
}

/// The entries kept and the warnings given for `rows`. Row numbers count the
/// header line, so the first data row is row 2.
pub open spec fn rows_outcome(rows: Seq<Result<CsvAppEntry, String>>) -> (Seq<EntryView>, Seq<Seq<char>>)
    decreases rows.len(),
{
    if rows.len() == 0 {
        (Seq::empty(), Seq::empty())
    } else {
        let (apps, warnings) = rows_outcome(rows.drop_last());
        let row = (rows.len() + 1) as nat;
        match rows.last() {
            Ok(entry) => match csv_row_result(entry@) {
                Ok(t) => (apps.push(t), warnings),
                Err(msg) => (apps, warnings.push(skip_warning(row, msg))),
            },
            Err(msg) => (apps, warnings.push(skip_warning(row, msg@))),
        }
    }
}

/// Every row either gives an entry or a warning, and every entry kept is valid.
pub proof fn lemma_rows_outcome(rows: Seq<Result<CsvAppEntry, String>>)
    ensures
        rows_outcome(rows).0.len() + rows_outcome(rows).1.len() == rows.len(),
        forall|i: int| 0 <= i < rows_outcome(rows).0.len() ==> entry_ok(#[trigger] rows_outcome(rows).0[i]),
    decreases rows.len(),
{
    if rows.len() > 0 {
        lemma_rows_outcome(rows.drop_last());
    }
}

pub open spec fn missing_catalog_error(path: Seq<char>) -> Seq<char> {
    "App catalog not found at "@ + path + ". Expected apps_config.csv beside the helper scripts (main.sh)."@
}

pub open spec fn open_failed_error(e: Seq<char>) -> Seq<char> {
    "Failed to open app catalog: "@ + e
}

pub open spec fn empty_catalog_error() -> Seq<char> {
    "App catalog did not contain any valid rows."@
}

/// The view of an optional message.
pub open spec fn option_view(o: Option<String>) -> Option<Seq<char>> {
    match o {
        Some(s) => Some(s@),
        None => None,
    }
}

/// Turns what reading the catalog gave into the entries, the warnings for
/// skipped rows, and the error to show when nothing usable was found.
pub fn load_apps(read: CatalogRead) -> (r: CatalogLoad)
    requires
        read matches CatalogRead::Rows { rows } ==> rows@.len() + 2 <= usize::MAX,
    ensures
        match read {
            CatalogRead::Missing { path } => r.apps@.len() == 0 && r.warnings@.len() == 0
                && option_view(r.error) == Some(missing_catalog_error(path@)),
            CatalogRead::OpenFailed { error } => r.apps@.len() == 0 && r.warnings@.len() == 0
                && option_view(r.error) == Some(open_failed_error(error@)),
            CatalogRead::Rows { rows } => {
                &&& r.apps@.map_values(|a: AppEntry| a@) == rows_outcome(rows@).0
                &&& views(r.warnings@) == rows_outcome(rows@).1
                &&& option_view(r.error) == if rows_outcome(rows@).0.len() == 0 {
                    Some(empty_catalog_error())
                } else {
                    None
                }
                &&& r.apps@.len() + r.warnings@.len() == rows@.len()
                &&& (r.error is None <==> r.apps@.len() > 0)
                &&& forall|i: int| 0 <= i < r.apps@.len() ==> entry_ok(#[trigger] r.apps@[i]@)
            },
        },
{
    match read {
        CatalogRead::Missing { path } => {
            let mut e = concat2("App catalog not found at ", path.as_str());
            e.append(". Expected apps_config.csv beside the helper scripts (main.sh).");
            CatalogLoad { apps: Vec::new(), warnings: Vec::new(), error: Some(e) }
        },
        CatalogRead::OpenFailed { error } => {
            let e = concat2("Failed to open app catalog: ", error.as_str());
            CatalogLoad { apps: Vec::new(), warnings: Vec::new(), error: Some(e) }
        },
        CatalogRead::Rows { rows } => {
            let ghost all = rows@;
            let n = rows.len();
            let mut apps: Vec<AppEntry> = Vec::new();
            let mut warnings: Vec<String> = Vec::new();
            let mut index: usize = 0;
            for row in it: rows.into_iter()
                invariant
                    it.seq() == all,
                    all.len() == n,
                    n + 2 <= usize::MAX,
                    index == it.index(),
                    index <= n,
                    apps@.map_values(|a: AppEntry| a@) == rows_outcome(all.take(index as int)).0,
                    views(warnings@) == rows_outcome(all.take(index as int)).1,
            {
                let ghost before = all.take(index as int);
                assert(all.take(index + 1).drop_last() =~= before);
                assert(all.take(index + 1).last() == row);
                let number = decimal_string(index + 2);
                match row {
                    Ok(entry) => match AppEntry::from_csv(entry) {
                        Ok(app) => {
                            apps.push(app);
                            assert(apps@.map_values(|a: AppEntry| a@) =~= rows_outcome(
                                before,
                            ).0.push(app@));
                        },
                        Err(error) => {
                            let mut w = concat3("Skipping catalog row ", number.as_str(), ": ");
                            w.append(error.as_str());
                            warnings.push(w);
                            assert(views(warnings@) =~= rows_outcome(before).1.push(w@));
                        },
                    },
                    Err(error) => {
                        let mut w = concat3("Skipping catalog row ", number.as_str(), ": ");
                        w.append(error.as_str());
                        warnings.push(w);
                        assert(views(warnings@) =~= rows_outcome(before).1.push(w@));
                    },
                }
                index = index + 1;
            }
            assert(all.take(n as int) =~= all);
            proof {
                lemma_rows_outcome(all);
                assert forall|i: int| 0 <= i < apps@.len() implies entry_ok(#[trigger] apps@[i]@) by {
                    assert(apps@.map_values(|a: AppEntry| a@)[i] == apps@[i]@);
                }
            }
            let error = if apps.len() == 0 {
                Some(owned("App catalog did not contain any valid rows."))
            } else {
                None
            };
            CatalogLoad { apps, warnings, error }
        },
    }
}


/// What the filesystem says about a candidate catalog directory: the path
/// as considered, its canonical form (or the path itself when that cannot be
/// resolved), and whether `apps_config.csv` and `main.sh` are files in it.
#[derive(Clone, Debug)]
pub struct DirProbe {
    pub dir: String,
    pub key: String,
    pub has_catalog: bool,
    pub has_helper: bool,
}

/// A directory holds the catalog when both the CSV and the helper are there.
pub open spec fn catalog_present(p: DirProbe) -> bool {
    p.has_catalog && p.has_helper
}

/// Result of locating the directory that holds the catalog and helper scripts.
#[derive(Clone, Debug)]
pub struct BaseDirDiscovery {
    pub base_dir: String,
    pub looked: Vec<String>,
    pub found: bool,
    pub source: Option<BaseDirSource>,
}

/// The directories among `ps` that hold `main.sh`, in order.
pub open spec fn helper_dirs(ps: Seq<DirProbe>) -> Seq<DirProbe>
    decreases ps.len(),
{
    if ps.len() == 0 {
        Seq::empty()
    } else if ps.last().has_helper {
        helper_dirs(ps.drop_last()).push(ps.last())
    } else {
        helper_dirs(ps.drop_last())
    }
}

/// The directories to consider, in lookup order, with how each was reached:
/// the executable's directory, its ancestors, the directories among those
/// that hold `main.sh`, then the working directory if it holds `main.sh`,
/// then the working directory itself.
pub open spec fn candidates(exe_dirs: Seq<DirProbe>, cwd: Option<DirProbe>) -> Seq<(DirProbe, BaseDirSource)> {
    (if exe_dirs.len() > 0 {
        seq![(exe_dirs[0], BaseDirSource::Executable)] + exe_dirs.skip(1).map_values(
            |p: DirProbe| (p, BaseDirSource::Ancestor),
        )
    } else {
        Seq::empty()
    }) + helper_dirs(exe_dirs).map_values(|p: DirProbe| (p, BaseDirSource::Ancestor)) + match cwd {
        Some(c) => (if c.has_helper {
            seq![(c, BaseDirSource::WorkingDirectory)]
        } else {
            Seq::empty()
        }) + seq![(c, BaseDirSource::WorkingDirectory)],
        None => Seq::empty(),
    }
}

/// The state of a lookup: the canonical keys seen, the directories looked
/// at, and the catalog directory once one is found.
pub struct LookupState {
    pub seen: Seq<Seq<char>>,
    pub looked: Seq<Seq<char>>,
    pub found: Option<(Seq<char>, BaseDirSource)>,
}

/// Considering one more directory: skipped once the catalog is found or when
/// its canonical key was seen; otherwise it is recorded as looked at, and it
/// is the answer when it holds the catalog.
pub open spec fn lookup_step(st: LookupState, c: (DirProbe, BaseDirSource)) -> LookupState {
    if st.found is Some || st.seen.contains(c.0.key@) {
        st
    } else {
        LookupState {
            seen: st.seen.push(c.0.key@),
            looked: st.looked.push(c.0.dir@),
            found: if catalog_present(c.0) {
                Some((c.0.key@, c.1))
            } else {
                None
            },
        }
    }
}

/// The lookup over `cands` in order.
pub open spec fn lookup(cands: Seq<(DirProbe, BaseDirSource)>) -> LookupState
    decreases cands.len(),
{
    if cands.len() == 0 {
        LookupState { seen: Seq::empty(), looked: Seq::empty(), found: None }
    } else {
        lookup_step(lookup(cands.drop_last()), cands.last())
    }
}

proof fn lemma_lookup_found(cands: Seq<(DirProbe, BaseDirSource)>)
    ensures
        lookup(cands).found matches Some(f) ==> exists|i: int|
            0 <= i < cands.len() && catalog_present(#[trigger] cands[i].0) && f == (
                cands[i].0.key@,
                cands[i].1,
            ),
        cands.len() > 0 && catalog_present(cands[0].0) ==> lookup(cands).found == Some(
            (cands[0].0.key@, cands[0].1),
        ),
    decreases cands.len(),
{
    if cands.len() > 0 {
        let prev = cands.drop_last();
        lemma_lookup_found(prev);
        if let Some(f) = lookup(prev).found {
            let i = choose|i: int|
                0 <= i < prev.len() && catalog_present(#[trigger] prev[i].0) && f == (
                    prev[i].0.key@,
                    prev[i].1,
                );
            assert(cands[i] == prev[i]);
        }
        if cands.len() == 1 {
            assert(prev.len() == 0);
        } else if catalog_present(cands[0].0) {
            assert(prev[0] == cands[0]);
        }
    }
}

/// Every directory a lookup looked at was one of the candidates, recorded
/// with that candidate's canonical key, and no key was recorded twice: the
/// directories looked at have pairwise distinct canonical keys.
pub proof fn lemma_lookup_distinct_keys(cands: Seq<(DirProbe, BaseDirSource)>)
    ensures
        lookup(cands).seen.len() == lookup(cands).looked.len(),
        lookup(cands).seen.no_duplicates(),
        forall|i: int|
            0 <= i < lookup(cands).looked.len() ==> exists|j: int|
                0 <= j < cands.len() && (#[trigger] cands[j]).0.dir@ == #[trigger] lookup(cands).looked[i]
                    && cands[j].0.key@ == lookup(cands).seen[i],
    decreases cands.len(),
{
    if cands.len() > 0 {
        let prev = cands.drop_last();
        lemma_lookup_distinct_keys(prev);
        let st = lookup(prev);
        let c = cands.last();
        if !(st.found is Some || st.seen.contains(c.0.key@)) {
            let now = lookup(cands);
            assert forall|a: int, b: int| 0 <= a < now.seen.len() && 0 <= b < now.seen.len() && a != b implies now.seen[a]
                != now.seen[b] by {
                if a == now.seen.len() - 1 {
                    assert(st.seen[b] == now.seen[b]);
                } else if b == now.seen.len() - 1 {
                    assert(st.seen[a] == now.seen[a]);
                }
            }
            assert forall|i: int| 0 <= i < now.looked.len() implies exists|j: int|
                0 <= j < cands.len() && (#[trigger] cands[j]).0.dir@ == #[trigger] now.looked[i]
                    && cands[j].0.key@ == now.seen[i] by {
                if i == now.looked.len() - 1 {
                    assert(cands[cands.len() - 1] == c);
                } else {
                    assert(now.looked[i] == st.looked[i]);
                    let j = choose|j: int|
                        0 <= j < prev.len() && (#[trigger] prev[j]).0.dir@ == st.looked[i]
                            && prev[j].0.key@ == st.seen[i];
                    assert(cands[j] == prev[j]);
                }
            }
        } else {
            assert forall|i: int| 0 <= i < lookup(cands).looked.len() implies exists|j: int|
                0 <= j < cands.len() && (#[trigger] cands[j]).0.dir@ == #[trigger] lookup(cands).looked[i]
                    && cands[j].0.key@ == lookup(cands).seen[i] by {
                let j = choose|j: int|
                    0 <= j < prev.len() && (#[trigger] prev[j]).0.dir@ == st.looked[i]
                        && prev[j].0.key@ == st.seen[i];
                assert(cands[j] == prev[j]);
            }
        }
    }
}

/// The directories that hold `main.sh`, with `ps` as probed.
fn helper_script_dirs(ps: &Vec<DirProbe>) -> (r: Vec<DirProbe>)
    ensures
        r@ == helper_dirs(ps@),
{
    let mut r: Vec<DirProbe> = Vec::new();
    let mut i: usize = 0;
    while i < ps.len()
        invariant
            i <= ps.len(),
            r@ == helper_dirs(ps@.take(i as int)),
        decreases ps.len() - i,
    {
        assert(ps@.take(i + 1).drop_last() =~= ps@.take(i as int));
        assert(ps@.take(i + 1).last() == ps@[i as int]);
        if ps[i].has_helper {
            r.push(copy_probe(&ps[i]));
        }
        i = i + 1;
    }
    assert(ps@.take(ps.len() as int) =~= ps@);
    r
}

fn copy_probe(p: &DirProbe) -> (r: DirProbe)
    ensures
        r == *p,
{
    DirProbe {
        dir: p.dir.clone(),
        key: p.key.clone(),
        has_catalog: p.has_catalog,
        has_helper: p.has_helper,
    }
}

fn contains_string(v: &Vec<String>, s: &String) -> (r: bool)
    ensures
        r == views(v@).contains(s@),
{
    let mut i: usize = 0;
    while i < v.len()
        invariant
            i <= v.len(),
            forall|k: int| 0 <= k < i ==> v@[k]@ != s@,
        decreases v.len() - i,
    {
        if v[i] == *s {
            assert(views(v@)[i as int] == s@);
            return true;
        }
        i = i + 1;
    }
    assert forall|k: int| 0 <= k < views(v@).len() implies views(v@)[k] != s@ by {
        assert(views(v@)[k] == v@[k]@);
    }
    false
}

impl BaseDirDiscovery {
    fn missing(looked: Vec<String>) -> (r: Self)
        ensures
            r.base_dir@ == MISSING_BASE_DIR@,
            r.looked == looked,
            !r.found,
            r.source is None,
    {
        BaseDirDiscovery { base_dir: owned(MISSING_BASE_DIR), looked, found: false, source: None }
    }

    /// The message shown when no catalog was found, naming every place looked at.
    pub fn not_found_message(&self) -> (r: String)
        ensures
            r@ == if self.looked@.len() == 0 {
                "App catalog not found. Looked for apps_config.csv beside the helper scripts next to the executable, in parent folders, and in the current working directory."@
            } else {
                "App catalog not found. Looked for apps_config.csv beside the helper scripts in: "@
                    + join(views(self.looked@), ", "@)
            },
    {
        if self.looked.len() == 0 {
            return owned(
                "App catalog not found. Looked for apps_config.csv beside the helper scripts next to the executable, in parent folders, and in the current working directory.",
            );
        }
        let places = join_strings(&self.looked, ", ");
        concat2(
            "App catalog not found. Looked for apps_config.csv beside the helper scripts in: ",
            places.as_str(),
        )
    }
}

/// The directories to consider, in lookup order.
fn lookup_candidates(exe_dirs: &Vec<DirProbe>, cwd: &Option<DirProbe>) -> (r: Vec<(DirProbe, BaseDirSource)>)
    ensures
        r@ == candidates(exe_dirs@, *cwd),
{
    let mut cands: Vec<(DirProbe, BaseDirSource)> = Vec::new();
    let mut i: usize = 0;
    while i < exe_dirs.len()
        invariant
            i <= exe_dirs.len(),
            cands@ == (if i > 0 {
                seq![(exe_dirs@[0], BaseDirSource::Executable)] + exe_dirs@.subrange(1, i as int).map_values(
                    |p: DirProbe| (p, BaseDirSource::Ancestor),
                )
            } else {
                Seq::empty()
            }),
        decreases exe_dirs.len() - i,
    {
        let source = if i == 0 {
            BaseDirSource::Executable
        } else {
            BaseDirSource::Ancestor
        };
        cands.push((copy_probe(&exe_dirs[i]), source));
        proof {
            if i == 0 {
                assert(exe_dirs@.subrange(1, 1).map_values(|p: DirProbe| (p, BaseDirSource::Ancestor))
                    =~= Seq::<(DirProbe, BaseDirSource)>::empty());
            } else {
                assert(exe_dirs@.subrange(1, i + 1).map_values(|p: DirProbe| (p, BaseDirSource::Ancestor))
                =~= exe_dirs@.subrange(1, i as int).map_values(
                |p: DirProbe| (p, BaseDirSource::Ancestor),
            ).push((exe_dirs@[i as int], BaseDirSource::Ancestor)));
            }
        }
        i = i + 1;
    }
    let ghost first = cands@;
    assert(first == (if exe_dirs@.len() > 0 {
        seq![(exe_dirs@[0], BaseDirSource::Executable)] + exe_dirs@.skip(1).map_values(
            |p: DirProbe| (p, BaseDirSource::Ancestor),
        )
    } else {
        Seq::empty()
    })) by {
        if exe_dirs@.len() > 0 {
            assert(exe_dirs@.subrange(1, exe_dirs@.len() as int) =~= exe_dirs@.skip(1));
        }
    }
    let helpers = helper_script_dirs(exe_dirs);
    let mut j: usize = 0;
    while j < helpers.len()
        invariant
            j <= helpers.len(),
            cands@ == first + helpers@.take(j as int).map_values(
                |p: DirProbe| (p, BaseDirSource::Ancestor),
            ),
        decreases helpers.len() - j,
    {
        cands.push((copy_probe(&helpers[j]), BaseDirSource::Ancestor));
        assert(helpers@.take(j + 1).map_values(|p: DirProbe| (p, BaseDirSource::Ancestor))
            =~= helpers@.take(j as int).map_values(|p: DirProbe| (p, BaseDirSource::Ancestor)).push(
            (helpers@[j as int], BaseDirSource::Ancestor),
        ));
        j = j + 1;
    }
    assert(helpers@.take(helpers.len() as int) =~= helpers@);
    if let Some(c) = cwd {
        if c.has_helper {
            cands.push((copy_probe(c), BaseDirSource::WorkingDirectory));
        }
        cands.push((copy_probe(c), BaseDirSource::WorkingDirectory));
    }
    assert(cands@ =~= candidates(exe_dirs@, *cwd));
    cands

}


impl Default for BaseDirDiscovery {
    /// Nothing found yet: the placeholder directory and no places looked at.
    fn default() -> (r: Self)
        ensures
            r.base_dir@ == MISSING_BASE_DIR@,
            r.looked@.len() == 0,
            !r.found,
            r.source is None,
    {
        BaseDirDiscovery::missing(Vec::new())
    }
}

impl Default for CatalogLoad {
    /// No entries, no warnings, no error.
    fn default() -> (r: Self)
        ensures
            r.apps@.len() == 0,
            r.warnings@.len() == 0,
            r.error is None,
    {
        CatalogLoad { apps: Vec::new(), warnings: Vec::new(), error: None }
    }
}

/// Locates the catalog directory. `exe_dirs` are the directory of the
/// executable followed by its ancestors, and `cwd` the working directory,
/// each as the filesystem describes it. The working directory is the last
/// resort; when nothing is found the base directory is the absolute
/// placeholder, never `.`.
pub fn discover_base_dir(exe_dirs: &Vec<DirProbe>, cwd: &Option<DirProbe>) -> (r: BaseDirDiscovery)
    ensures
        ({
            let st = lookup(candidates(exe_dirs@, *cwd));
            &&& views(r.looked@) == st.looked
            &&& match st.found {
                Some((key, source)) => r.found && r.base_dir@ == key && r.source == Some(source),
                None => !r.found && r.base_dir@ == MISSING_BASE_DIR@ && r.source is None,
            }
        }),
        r.found ==> exists|i: int|
            0 <= i < candidates(exe_dirs@, *cwd).len() && catalog_present(
                #[trigger] candidates(exe_dirs@, *cwd)[i].0,
            ) && r.base_dir@ == candidates(exe_dirs@, *cwd)[i].0.key@ && r.source == Some(
                candidates(exe_dirs@, *cwd)[i].1,
            ),
        exe_dirs@.len() > 0 && catalog_present(exe_dirs@[0]) ==> r.found && r.base_dir@
            == exe_dirs@[0].key@ && r.source == Some(BaseDirSource::Executable),
        ({
            let keys = lookup(candidates(exe_dirs@, *cwd)).seen;
            &&& keys.len() == r.looked@.len()
            &&& keys.no_duplicates()
            &&& forall|i: int|
                0 <= i < r.looked@.len() ==> exists|j: int|
                    0 <= j < candidates(exe_dirs@, *cwd).len() && (#[trigger] candidates(exe_dirs@, *cwd)[j]).0.dir@
                        == (#[trigger] r.looked@[i])@ && candidates(exe_dirs@, *cwd)[j].0.key@ == keys[i]
        }),
{
    let ghost all = candidates(exe_dirs@, *cwd);
    let cands = lookup_candidates(exe_dirs, cwd);
    let mut seen: Vec<String> = Vec::new();
    let mut looked: Vec<String> = Vec::new();
    let mut k: usize = 0;
    while k < cands.len()
        invariant
            cands@ == all,
            all == candidates(exe_dirs@, *cwd),
            k <= cands.len(),
            lookup(all.take(k as int)).found is None,
            views(seen@) == lookup(all.take(k as int)).seen,
            views(looked@) == lookup(all.take(k as int)).looked,
        decreases cands.len() - k,
    {
        assert(all.take(k + 1).drop_last() =~= all.take(k as int));
        assert(all.take(k + 1).last() == all[k as int]);
        let probe = &cands[k].0;
        let ghost st = lookup(all.take(k as int));
        if !contains_string(&seen, &probe.key) {
            seen.push(probe.key.clone());
            looked.push(probe.dir.clone());
            assert(views(seen@) =~= lookup(all.take(k as int)).seen.push(probe.key@));
            assert(views(looked@) =~= lookup(all.take(k as int)).looked.push(probe.dir@));
            if probe.has_catalog && probe.has_helper {
                assert(lookup(all.take(k + 1)) == LookupState {
                    seen: st.seen.push(probe.key@),
                    looked: st.looked.push(probe.dir@),
                    found: Some((probe.key@, cands@[k as int].1)),
                });
                proof {
                    lemma_lookup_suffix_found(all, k as int + 1);
                    lemma_lookup_found(all);
                    lemma_lookup_distinct_keys(all);
                    assert(forall|i: int| 0 <= i < looked@.len() ==> #[trigger] looked@[i]@ == views(looked@)[i]);
                }
                return BaseDirDiscovery {
                    base_dir: probe.key.clone(),
                    looked,
                    found: true,
                    source: Some(cands[k].1),
                };
            }
        }
        k = k + 1;
    }
    assert(all.take(cands.len() as int) =~= all);
    proof {
        lemma_lookup_found(all);
        lemma_lookup_distinct_keys(all);
        assert(forall|i: int| 0 <= i < looked@.len() ==> #[trigger] looked@[i]@ == views(looked@)[i]);
    }
    BaseDirDiscovery::missing(looked)
}

/// Once the catalog is found, considering more directories changes nothing.
proof fn lemma_lookup_suffix_found(all: Seq<(DirProbe, BaseDirSource)>, k: int)
    requires
        0 <= k <= all.len(),
        lookup(all.take(k)).found is Some,
    ensures
        lookup(all) == lookup(all.take(k)),
    decreases all.len() - k,
{
    if k < all.len() {
        assert(all.take(k + 1).drop_last() =~= all.take(k));
        lemma_lookup_suffix_found(all, k + 1);
    } else {
        assert(all.take(k) =~= all);
    }
}


impl AppEntry {
    /// The argv that runs `main.sh` for this entry, resolving `main.sh`
    /// under `base_dir` with what the filesystem says about it.
    pub fn command_at(&self, base_dir: &str, probe: &HelperProbe, action: Action) -> (r: Result<
        Vec<String>,
        String,
    >)
        ensures
            match resolve_result(
                base_dir@,
                "main.sh"@,
                probe.is_file,
                result_view(probe.canonical_base),
                result_view(probe.canonical_script),
                probe.script_is_utf8,
            ) {
                Ok(c) => r matches Ok(v) && views(v@) == entry_command(self@, c, action),
                Err(e) => r matches Err(e2) && e2@ == e,
            },
    {
        self.try_command(resolve_helper_script(base_dir, "main.sh", probe), action)
    }
}

impl AdminTask {
    /// The argv that runs this recipe, resolving its script under `base_dir`
    /// with what the filesystem says about it.
    pub fn command_at(&self, base_dir: &str, probe: &HelperProbe) -> (r: Result<Vec<String>, String>)
        ensures
            match resolve_result(
                base_dir@,
                self.script@,
                probe.is_file,
                result_view(probe.canonical_base),
                result_view(probe.canonical_script),
                probe.script_is_utf8,
            ) {
                Ok(c) => r matches Ok(v) && views(v@) == seq!["bash"@, c],
                Err(e) => r matches Err(e2) && e2@ == e,
            },
    {
        self.try_command(resolve_helper_script(base_dir, self.script.as_str(), probe))
    }
}

/// The argv built for an entry is `bash`, the script, `--label` and the
/// label; then `--package P`, `--flatpak F` and `--exec E`, in that order,
/// for each of the entry's package name, Flatpak ID and exec name that is not
/// empty, each whatever the others are; and last the action.
pub proof fn lemma_entry_command_layout(v: EntryView, script: Seq<char>, action: Action)
    ensures
        entry_command(v, script, action) == seq!["bash"@, script, "--label"@, v.label] + (if v.package_name.len()
            > 0 {
            seq!["--package"@, v.package_name]
        } else {
            Seq::empty()
        }) + (if v.flatpak_id.len() > 0 {
            seq!["--flatpak"@, v.flatpak_id]
        } else {
            Seq::empty()
        }) + (if v.exec_name.len() > 0 {
            seq!["--exec"@, v.exec_name]
        } else {
            Seq::empty()
        }) + seq![
            match action {
                Action::Install => "install"@,
                Action::Remove => "remove"@,
            },
        ],
{
    let p: Seq<Seq<char>> = if v.package_name.len() > 0 {
        seq!["--package"@, v.package_name]
    } else {
        Seq::empty()
    };
    let f: Seq<Seq<char>> = if v.flatpak_id.len() > 0 {
        seq!["--flatpak"@, v.flatpak_id]
    } else {
        Seq::empty()
    };
    let e: Seq<Seq<char>> = if v.exec_name.len() > 0 {
        seq!["--exec"@, v.exec_name]
    } else {
        Seq::empty()
    };
    let w = match action {
        Action::Install => "install"@,
        Action::Remove => "remove"@,
    };
    assert(entry_command(v, script, action) =~= seq!["bash"@, script, "--label"@, v.label] + p + f + e + seq![w]);
}

/// A catalog row is kept exactly when, once its fields are trimmed, its
/// category, label and notes are valid, it names a package or a Flatpak ID,
/// and each of its package name, Flatpak ID and exec name that is not empty
/// is valid; a kept row is the trimmed row.
pub proof fn lemma_csv_row_kept(v: EntryView)
    ensures
        ({
            let t = trimmed(v);
            &&& csv_row_result(v) is Ok <==> {
                &&& category_ok(t.category)
                &&& label_ok(t.label)
                &&& notes_ok(t.notes)
                &&& (t.package_name.len() > 0 || t.flatpak_id.len() > 0)
                &&& (t.package_name.len() > 0 ==> package_ok(t.package_name))
                &&& (t.flatpak_id.len() > 0 ==> flatpak_id_ok(t.flatpak_id))
                &&& (t.exec_name.len() > 0 ==> exec_ok(t.exec_name))
            }
            &&& csv_row_result(v) matches Ok(k) ==> k == t
        }),
{
}

/// Every command built for a valid catalog entry passes the `main.sh`
/// argument check, and that check reads back exactly the entry's request.
pub proof fn lemma_entry_command_accepted(v: EntryView, script: Seq<char>, action: Action)
    requires
        entry_ok(v),
    ensures
        check_main_sh(entry_command(v, script, action).subrange(2, entry_command(v, script, action).len() as int))
            == Ok::<MainShArgs, Seq<char>>(entry_args(v, action)),
{
    let a = entry_args(v, action);
    lemma_main_sh_roundtrip(a);
    assert(entry_command(v, script, action).subrange(2, entry_command(v, script, action).len() as int)
        =~= render_main_sh(a));
}

} // verus!
