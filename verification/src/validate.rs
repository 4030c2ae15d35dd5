//! The rules that catalog fields, helper names and `main.sh` arguments must
//! follow before they can reach an argv array, and the redaction of secrets
//! from captured output and the wiping of secrets from memory.
use vstd::prelude::*;

use crate::text::{
    chars_of, concat2, contains, occurs_at, owned, push_char, replace_all, replace_str, replace_whole,
    str_eq, views,
};

verus! {

/// Control characters: the C0 range and DEL.
pub open spec fn is_control(c: char) -> bool {
    (c as u32) < 0x20 || (c as u32) == 0x7f
}

/// Text without control characters.
pub open spec fn is_plain_text(s: Seq<char>) -> bool {
    forall|i: int| 0 <= i < s.len() ==> !is_control(#[trigger] s[i])
}

pub open spec fn is_ascii_letter(c: char) -> bool {
    ('a' as u32 <= c as u32 <= 'z' as u32) || ('A' as u32 <= c as u32 <= 'Z' as u32)
}

pub open spec fn is_ascii_digit(c: char) -> bool {
    '0' as u32 <= c as u32 <= '9' as u32
}

pub open spec fn is_ascii_alnum(c: char) -> bool {
    is_ascii_letter(c) || is_ascii_digit(c)
}

/// A valid catalog category: 1 to 64 characters, none of them control characters.
pub open spec fn category_ok(s: Seq<char>) -> bool {
    1 <= s.len() <= 64 && is_plain_text(s)
}

/// A valid label: 1 to 64 characters, none of them control characters.
pub open spec fn label_ok(s: Seq<char>) -> bool {
    1 <= s.len() <= 64 && is_plain_text(s)
}

/// Valid notes: at most 512 characters, none of them control characters.
pub open spec fn notes_ok(s: Seq<char>) -> bool {
    s.len() <= 512 && is_plain_text(s)
}

pub open spec fn is_package_char(c: char) -> bool {
    is_ascii_alnum(c) || c == '+' || c == '-' || c == '.' || c == '_' || c == '@'
}

/// A valid native package name: 1 to 128 characters, starting with an ASCII
/// letter or digit, made of ASCII letters, digits and `+ - . _ @`.
/// A name can therefore never be read as a package manager option.
pub open spec fn package_ok(s: Seq<char>) -> bool {
    &&& 1 <= s.len() <= 128
    &&& is_ascii_alnum(s[0])
    &&& forall|i: int| 0 <= i < s.len() ==> is_package_char(#[trigger] s[i])
}

pub open spec fn is_exec_char(c: char) -> bool {
    is_ascii_alnum(c) || c == '-' || c == '_' || c == '.' || c == '+'
}

/// A valid executable name: 1 to 64 characters, starting with an ASCII
/// letter or digit, made of ASCII letters, digits and `- _ . +`.
pub open spec fn exec_ok(s: Seq<char>) -> bool {
    &&& 1 <= s.len() <= 64
    &&& is_ascii_alnum(s[0])
    &&& forall|i: int| 0 <= i < s.len() ==> is_exec_char(#[trigger] s[i])
}

pub open spec fn is_flatpak_char(c: char) -> bool {
    is_ascii_alnum(c) || c == '_' || c == '-' || c == '.'
}

/// The first character of a Flatpak ID element.
pub open spec fn is_element_start(c: char) -> bool {
    is_ascii_letter(c) || c == '_'
}

/// A valid Flatpak application ID: at most 255 characters, at least three
/// dot-separated elements, each starting with an ASCII letter or `_` and made
/// of ASCII letters, digits, `_` and `-`.
pub open spec fn flatpak_id_ok(s: Seq<char>) -> bool {
    &&& 1 <= s.len() <= 255
    &&& is_element_start(s[0])
    &&& s.last() != '.'
    &&& forall|i: int| 0 <= i < s.len() ==> is_flatpak_char(#[trigger] s[i])
    &&& forall|i: int| 0 <= i < s.len() - 1 && #[trigger] s[i] == '.' ==> is_element_start(s[i + 1])
    &&& exists|i: int, j: int| 0 <= i < j < s.len() && s[i] == '.' && s[j] == '.'
}

pub open spec fn category_error() -> Seq<char> {
    "category must be 1 to 64 characters without control characters"@
}

pub open spec fn label_error() -> Seq<char> {
    "label must be 1 to 64 characters without control characters"@
}

pub open spec fn notes_error() -> Seq<char> {
    "notes must be at most 512 characters without control characters"@
}

pub open spec fn package_error() -> Seq<char> {
    "package name must start with a letter or digit and use only letters, digits and + - . _ @ (at most 128 characters)"@
}

pub open spec fn flatpak_error() -> Seq<char> {
    "Flatpak ID must be a reverse-DNS name of at least three elements made of letters, digits, _ and -"@
}

pub open spec fn exec_error() -> Seq<char> {
    "exec name must start with a letter or digit and use only letters, digits and - _ . + (at most 64 characters)"@
}

pub open spec fn target_required_error() -> Seq<char> {
    "at least one of package name or Flatpak ID is required"@
}

pub open spec fn malformed_main_sh_error() -> Seq<char> {
    "main.sh arguments must be --label, then optional --package, --flatpak and --exec pairs, then an action"@
}

/// A result that is `Ok(())` when `ok` holds and `Err(msg)` otherwise.
pub open spec fn check_result(r: Result<(), String>, ok: bool, msg: Seq<char>) -> bool {
    match r {
        Ok(()) => ok,
        Err(e) => !ok && e@ == msg,
    }
}

fn is_plain_text_exec(chars: &Vec<char>) -> (r: bool)
    ensures
        r == is_plain_text(chars@),
{
    let mut i: usize = 0;
    while i < chars.len()
        invariant
            i <= chars.len(),
            forall|k: int| 0 <= k < i ==> !is_control(#[trigger] chars@[k]),
        decreases chars.len() - i,
    {
        let u = chars[i] as u32;
        if u < 0x20 || u == 0x7f {
            return false;
        }
        i = i + 1;
    }
    true
}

fn is_ascii_letter_exec(c: char) -> (r: bool)
    ensures
        r == is_ascii_letter(c),
{
    let u = c as u32;
    ('a' as u32 <= u && u <= 'z' as u32) || ('A' as u32 <= u && u <= 'Z' as u32)
}

fn is_ascii_alnum_exec(c: char) -> (r: bool)
    ensures
        r == is_ascii_alnum(c),
{
    let u = c as u32;
    is_ascii_letter_exec(c) || ('0' as u32 <= u && u <= '9' as u32)
}

/// Checks a catalog category.
pub fn validate_category(s: &str) -> (r: Result<(), String>)
    ensures
        check_result(r, category_ok(s@), category_error()),
{
    let chars = chars_of(s);
    if 1 <= chars.len() && chars.len() <= 64 && is_plain_text_exec(&chars) {
        Ok(())
    } else {
        Err(owned("category must be 1 to 64 characters without control characters"))
    }
}

/// Checks a label.
pub fn validate_label(s: &str) -> (r: Result<(), String>)
    ensures
        check_result(r, label_ok(s@), label_error()),
{
    let chars = chars_of(s);
    if 1 <= chars.len() && chars.len() <= 64 && is_plain_text_exec(&chars) {
        Ok(())
    } else {
        Err(owned("label must be 1 to 64 characters without control characters"))
    }
}

/// Checks catalog notes.
pub fn validate_notes(s: &str) -> (r: Result<(), String>)
    ensures
        check_result(r, notes_ok(s@), notes_error()),
{
    let chars = chars_of(s);
    if chars.len() <= 512 && is_plain_text_exec(&chars) {
        Ok(())
    } else {
        Err(owned("notes must be at most 512 characters without control characters"))
    }
}

/// Whether `s` is a valid native package name.
pub fn is_package_name(s: &str) -> (r: bool)
    ensures
        r == package_ok(s@),
{
    let chars = chars_of(s);
    if chars.len() < 1 || chars.len() > 128 || !is_ascii_alnum_exec(chars[0]) {
        return false;
    }
    let mut i: usize = 0;
    while i < chars.len()
        invariant
            chars@ == s@,
            i <= chars.len(),
            forall|k: int| 0 <= k < i ==> is_package_char(#[trigger] chars@[k]),
        decreases chars.len() - i,
    {
        let c = chars[i];
        if !(is_ascii_alnum_exec(c) || c == '+' || c == '-' || c == '.' || c == '_' || c == '@') {
            return false;
        }
        i = i + 1;
    }
    true
}

/// Checks a native package name.
pub fn validate_package_name(s: &str) -> (r: Result<(), String>)
    ensures
        check_result(r, package_ok(s@), package_error()),
{
    if is_package_name(s) {
        Ok(())
    } else {
        Err(
            owned(
                "package name must start with a letter or digit and use only letters, digits and + - . _ @ (at most 128 characters)",
            ),
        )
    }
}

/// Whether `s` is a valid executable name.
pub fn is_exec_name(s: &str) -> (r: bool)
    ensures
        r == exec_ok(s@),
{
    let chars = chars_of(s);
    if chars.len() < 1 || chars.len() > 64 || !is_ascii_alnum_exec(chars[0]) {
        return false;
    }
    let mut i: usize = 0;
    while i < chars.len()
        invariant
            chars@ == s@,
            i <= chars.len(),
            forall|k: int| 0 <= k < i ==> is_exec_char(#[trigger] chars@[k]),
        decreases chars.len() - i,
    {
        let c = chars[i];
        if !(is_ascii_alnum_exec(c) || c == '-' || c == '_' || c == '.' || c == '+') {
            return false;
        }
        i = i + 1;
    }
    true
}

/// Checks an executable name.
pub fn validate_exec_name(s: &str) -> (r: Result<(), String>)
    ensures
        check_result(r, exec_ok(s@), exec_error()),
{
    if is_exec_name(s) {
        Ok(())
    } else {
        Err(
            owned(
                "exec name must start with a letter or digit and use only letters, digits and - _ . + (at most 64 characters)",
            ),
        )
    }
}

/// Whether `s` is a valid Flatpak application ID.
pub fn is_flatpak_id(s: &str) -> (r: bool)
    ensures
        r == flatpak_id_ok(s@),
{
    let chars = chars_of(s);
    let n = chars.len();
    if n < 1 || n > 255 || !(is_ascii_letter_exec(chars[0]) || chars[0] == '_') || chars[n - 1]
        == '.' {
        return false;
    }
    let mut dots: usize = 0;
    let mut first_dot: usize = 0;
    let mut i: usize = 0;
    while i < n
        invariant
            chars@ == s@,
            n == chars@.len(),
            1 <= n,
            chars@.last() != '.',
            i <= n,
            dots <= i,
            forall|k: int| 0 <= k < i ==> is_flatpak_char(#[trigger] chars@[k]),
            forall|k: int|
                0 <= k < i && k < n - 1 && #[trigger] chars@[k] == '.' ==> is_element_start(
                    chars@[k + 1],
                ),
            dots >= 1 ==> first_dot < i && chars@[first_dot as int] == '.',
            dots >= 2 ==> exists|a: int, b: int|
                0 <= a < b < n && chars@[a] == '.' && chars@[b] == '.',
            dots < 2 ==> forall|a: int, b: int|
                0 <= a < b < i ==> !(chars@[a] == '.' && chars@[b] == '.'),
            dots == 0 ==> forall|a: int| 0 <= a < i ==> chars@[a] != '.',
            dots == 1 ==> forall|a: int| 0 <= a < i && chars@[a] == '.' ==> a == first_dot,
        decreases n - i,
    {
        let c = chars[i];
        if !(is_ascii_alnum_exec(c) || c == '_' || c == '-' || c == '.') {
            return false;
        }
        if c == '.' {
            if i + 1 < n {
                let d = chars[i + 1];
                if !(is_ascii_letter_exec(d) || d == '_') {
                    return false;
                }
            }
            if dots == 0 {
                first_dot = i;
                dots = 1;
            } else if dots == 1 {
                assert(chars@[first_dot as int] == '.' && chars@[i as int] == '.');
                dots = 2;
            }
        }
        i = i + 1;
    }
    dots >= 2
}

/// Checks a Flatpak application ID.
pub fn validate_flatpak_id(s: &str) -> (r: Result<(), String>)
    ensures
        check_result(r, flatpak_id_ok(s@), flatpak_error()),
{
    if is_flatpak_id(s) {
        Ok(())
    } else {
        Err(
            owned(
                "Flatpak ID must be a reverse-DNS name of at least three elements made of letters, digits, _ and -",
            ),
        )
    }
}

/// The helper scripts that may run: the app installer `main.sh` and the
/// admin recipes.
pub open spec fn helper_scripts() -> Seq<Seq<char>> {
    seq![
        "main.sh"@,
        "enable-bluetooth.sh"@,
        "disable-bluetooth.sh"@,
        "install-tlp.sh"@,
        "install-powertop.sh"@,
        "update-system.sh"@,
        "install-nala.sh"@,
        "install-stacer.sh"@,
        "install-swapfix.sh"@,
        "install-fastfetch.sh"@,
    ]
}

/// Whether `name` is one of the allowlisted helper scripts.
pub fn is_safe_script_name(name: &str) -> (r: bool)
    ensures
        r == helper_scripts().contains(name@),
{
    let names: Vec<&str> = vec![
        "main.sh",
        "enable-bluetooth.sh",
        "disable-bluetooth.sh",
        "install-tlp.sh",
        "install-powertop.sh",
        "update-system.sh",
        "install-nala.sh",
        "install-stacer.sh",
        "install-swapfix.sh",
        "install-fastfetch.sh",
    ];
    assert(names@.map_values(|s: &str| s@) =~= helper_scripts());
    let mut i: usize = 0;
    while i < names.len()
        invariant
            names@.map_values(|s: &str| s@) == helper_scripts(),
            i <= names.len(),
            forall|k: int| 0 <= k < i ==> names@[k]@ != name@,
        decreases names.len() - i,
    {
        if str_eq(names[i], name) {
            assert(helper_scripts()[i as int] == name@);
            return true;
        }
        i = i + 1;
    }
    assert forall|k: int| 0 <= k < helper_scripts().len() implies helper_scripts()[k] != name@ by {
        assert(helper_scripts()[k] == names@[k]@);
    }
    false
}

pub open spec fn script_error(name: Seq<char>) -> Seq<char> {
    "helper script "@ + name + " is not allowlisted"@
}

/// Checks that `name` is an allowlisted helper script.
pub fn validate_script_name(name: &str) -> (r: Result<(), String>)
    ensures
        check_result(r, helper_scripts().contains(name@), script_error(name@)),
{
    if is_safe_script_name(name) {
        Ok(())
    } else {
        let mut e = concat2("helper script ", name);
        e.append(" is not allowlisted");
        Err(e)
    }
}

/// What `main.sh` is asked to do with an app.
#[derive(Clone, Copy, Debug, PartialEq, Eq, Structural)]
pub enum Action {
    Install,
    Remove,
}

/// The argument that names an action.
pub open spec fn action_str(a: Action) -> Seq<char> {
    match a {
        Action::Install => "install"@,
        Action::Remove => "remove"@,
    }
}

/// The action named by an argument, if any.
pub open spec fn action_of(s: Seq<char>) -> Option<Action> {
    if s == "install"@ {
        Some(Action::Install)
    } else if s == "remove"@ {
        Some(Action::Remove)
    } else {
        None
    }
}

impl Action {
    /// The argument that names this action.
    pub fn as_str(&self) -> (r: &'static str)
        ensures
            r@ == action_str(*self),
    {
        match self {
            Action::Install => "install",
            Action::Remove => "remove",
        }
    }
}

/// Reads an action argument.
pub fn validate_action(s: &str) -> (r: Result<Action, String>)
    ensures
        match r {
            Ok(a) => action_of(s@) == Some(a),
            Err(e) => action_of(s@) is None && e@ == "unknown action: "@ + s@,
        },
{
    if str_eq(s, "install") {
        Ok(Action::Install)
    } else if str_eq(s, "remove") {
        Ok(Action::Remove)
    } else {
        Err(concat2("unknown action: ", s))
    }
}

/// The arguments that `main.sh` receives after its path.
pub struct MainShArgs {
    pub label: Seq<char>,
    pub package: Option<Seq<char>>,
    pub flatpak: Option<Seq<char>>,
    pub exec_name: Option<Seq<char>>,
    pub action: Action,
}

/// A flag followed by its value, or nothing.
pub open spec fn opt_flag(flag: Seq<char>, value: Option<Seq<char>>) -> Seq<Seq<char>> {
    match value {
        Some(v) => seq![flag, v],
        None => Seq::empty(),
    }
}

/// The argv that asks `main.sh` for `a`.
pub open spec fn render_main_sh(a: MainShArgs) -> Seq<Seq<char>> {
    seq!["--label"@, a.label] + opt_flag("--package"@, a.package) + opt_flag("--flatpak"@, a.flatpak)
        + opt_flag("--exec"@, a.exec_name) + seq![action_str(a.action)]
}

/// The value of `flag` at position `i` of `x`, and the position after it.
pub open spec fn take_flag(x: Seq<Seq<char>>, i: int, flag: Seq<char>) -> (Option<Seq<char>>, int) {
    if 0 <= i && i + 1 < x.len() && x[i] == flag {
        (Some(x[i + 1]), i + 2)
    } else {
        (None, i)
    }
}

/// Reads a `main.sh` argv: `--label L`, then optional `--package P`,
/// `--flatpak F` and `--exec E` in that order, then one action, and nothing else.
pub open spec fn parse_main_sh(x: Seq<Seq<char>>) -> Option<MainShArgs> {
    if x.len() >= 2 && x[0] == "--label"@ {
        let (p, i1) = take_flag(x, 2, "--package"@);
        let (f, i2) = take_flag(x, i1, "--flatpak"@);
        let (e, i3) = take_flag(x, i2, "--exec"@);
        if i3 + 1 == x.len() && action_of(x[i3]) is Some {
            Some(
                MainShArgs { label: x[1], package: p, flatpak: f, exec_name: e, action: action_of(x[i3])->0 },
            )
        } else {
            None
        }
    } else {
        None
    }
}

/// Whether every value in `a` follows its rule and `a` names a target.
pub open spec fn main_sh_args_ok(a: MainShArgs) -> bool {
    &&& label_ok(a.label)
    &&& (a.package matches Some(p) ==> package_ok(p))
    &&& (a.flatpak matches Some(f) ==> flatpak_id_ok(f))
    &&& (a.exec_name matches Some(e) ==> exec_ok(e))
    &&& (a.package is Some || a.flatpak is Some)
}

/// The outcome of checking a `main.sh` argv: the first rule it breaks, in
/// the order shape, label, package, Flatpak ID, exec name, target.
pub open spec fn check_main_sh(x: Seq<Seq<char>>) -> Result<MainShArgs, Seq<char>> {
    match parse_main_sh(x) {
        None => Err(malformed_main_sh_error()),
        Some(a) => if !label_ok(a.label) {
            Err(label_error())
        } else if a.package is Some && !package_ok(a.package->0) {
            Err(package_error())
        } else if a.flatpak is Some && !flatpak_id_ok(a.flatpak->0) {
            Err(flatpak_error())
        } else if a.exec_name is Some && !exec_ok(a.exec_name->0) {
            Err(exec_error())
        } else if a.package is None && a.flatpak is None {
            Err(target_required_error())
        } else {
            Ok(a)
        },
    }
}


proof fn lemma_flag_words_distinct()
    ensures
        "--label"@ != "--package"@,
        "--package"@ != "--flatpak"@,
        "--package"@ != "--exec"@,
        "--flatpak"@ != "--exec"@,
        "install"@ != "remove"@,
        "install"@ != "--package"@,
        "install"@ != "--flatpak"@,
        "install"@ != "--exec"@,
        "remove"@ != "--package"@,
        "remove"@ != "--flatpak"@,
        "remove"@ != "--exec"@,
{
    reveal_strlit("--label");
    reveal_strlit("--package");
    reveal_strlit("--flatpak");
    reveal_strlit("--exec");
    reveal_strlit("install");
    reveal_strlit("remove");
    assert("--label"@[2] != "--package"@[2]);
    assert("--package"@[2] != "--flatpak"@[2]);
    assert("--package"@.len() != "--exec"@.len());
    assert("--flatpak"@.len() != "--exec"@.len());
    assert("install"@.len() != "remove"@.len());
    assert("install"@[0] != "--package"@[0]);
    assert("install"@[0] != "--flatpak"@[0]);
    assert("install"@[0] != "--exec"@[0]);
    assert("remove"@[0] != "--package"@[0]);
    assert("remove"@[0] != "--flatpak"@[0]);
    assert("remove"@[0] != "--exec"@[0]);
}

/// Reading back the argv rendered for any request gives that request.
pub proof fn lemma_main_sh_roundtrip(a: MainShArgs)
    ensures
        parse_main_sh(render_main_sh(a)) == Some(a),
{
    lemma_flag_words_distinct();
    let x = render_main_sh(a);
    let p = opt_flag("--package"@, a.package);
    let f = opt_flag("--flatpak"@, a.flatpak);
    let e = opt_flag("--exec"@, a.exec_name);
    let i1: int = 2 + p.len() as int;
    let i2: int = i1 + f.len();
    let i3: int = i2 + e.len();
    assert(x.len() == i3 + 1);
    assert(x[0] == "--label"@);
    assert(x[1] == a.label);
    assert(x[i3] == action_str(a.action));
    if a.package is Some {
        assert(x[2] == "--package"@ && x[3] == a.package->0);
    } else if a.flatpak is Some {
        assert(x[2] == "--flatpak"@);
    } else if a.exec_name is Some {
        assert(x[2] == "--exec"@);
    } else {
        assert(x[2] == action_str(a.action));
    }
    assert(take_flag(x, 2, "--package"@) == (a.package, i1));
    if a.flatpak is Some {
        assert(x[i1] == "--flatpak"@ && x[i1 + 1] == a.flatpak->0);
    } else if a.exec_name is Some {
        assert(x[i1] == "--exec"@);
    } else {
        assert(x[i1] == action_str(a.action));
    }
    assert(take_flag(x, i1, "--flatpak"@) == (a.flatpak, i2));
    if a.exec_name is Some {
        assert(x[i2] == "--exec"@ && x[i2 + 1] == a.exec_name->0);
    } else {
        assert(x[i2] == action_str(a.action));
    }
    assert(take_flag(x, i2, "--exec"@) == (a.exec_name, i3));
    assert(action_of(action_str(a.action)) == Some(a.action));
}

/// An argv that reads as a request is exactly the argv rendered for it.
pub proof fn lemma_main_sh_parse_renders(x: Seq<Seq<char>>)
    requires
        parse_main_sh(x) is Some,
    ensures
        render_main_sh(parse_main_sh(x)->0) == x,
{
    let a = parse_main_sh(x)->0;
    let (p, i1) = take_flag(x, 2, "--package"@);
    let (f, i2) = take_flag(x, i1, "--flatpak"@);
    let (e, i3) = take_flag(x, i2, "--exec"@);
    assert(action_str(a.action) == x[i3]) by {
        reveal_strlit("install");
        reveal_strlit("remove");
    }
    assert(render_main_sh(a) =~= x);
}

/// A category is valid exactly when it has 1 to 64 characters and none of
/// them is a C0 control character (below U+0020) or DEL (U+007F): spaces and
/// every other printable character are allowed.
pub proof fn lemma_category_rule(s: Seq<char>)
    ensures
        category_ok(s) <==> (1 <= s.len() <= 64 && forall|i: int|
            0 <= i < s.len() ==> (#[trigger] s[i]) as u32 >= 0x20 && s[i] as u32 != 0x7f),
{
}

/// A label follows the same rule as a category.
pub proof fn lemma_label_rule(s: Seq<char>)
    ensures
        label_ok(s) <==> (1 <= s.len() <= 64 && forall|i: int|
            0 <= i < s.len() ==> (#[trigger] s[i]) as u32 >= 0x20 && s[i] as u32 != 0x7f),
{
}

/// Notes may be empty, and hold at most 512 characters without control
/// characters.
pub proof fn lemma_notes_rule(s: Seq<char>)
    ensures
        notes_ok(s) <==> (s.len() <= 512 && forall|i: int|
            0 <= i < s.len() ==> (#[trigger] s[i]) as u32 >= 0x20 && s[i] as u32 != 0x7f),
{
}

/// An exec name is valid exactly when it has 1 to 64 characters, starts with
/// an ASCII letter or digit, and is made of ASCII letters, digits, `-`, `_`,
/// `.` and `+`; so it can never start with `-`.
pub proof fn lemma_exec_rule(s: Seq<char>)
    ensures
        exec_ok(s) <==> {
            &&& 1 <= s.len() <= 64
            &&& (0x30 <= s[0] as u32 <= 0x39 || 0x41 <= s[0] as u32 <= 0x5a || 0x61 <= s[0] as u32 <= 0x7a)
            &&& forall|i: int|
                0 <= i < s.len() ==> (0x30 <= (#[trigger] s[i]) as u32 <= 0x39 || 0x41 <= s[i] as u32 <= 0x5a
                    || 0x61 <= s[i] as u32 <= 0x7a || s[i] == '-' || s[i] == '_' || s[i] == '.' || s[i] == '+')
        },
{
}

/// A package name is valid exactly when it has 1 to 128 characters, starts
/// with an ASCII letter or digit, and is made of ASCII letters, digits, `+`,
/// `-`, `.`, `_` and `@`; so it can never start with `-`.
pub proof fn lemma_package_rule(s: Seq<char>)
    ensures
        package_ok(s) <==> {
            &&& 1 <= s.len() <= 128
            &&& (0x30 <= s[0] as u32 <= 0x39 || 0x41 <= s[0] as u32 <= 0x5a || 0x61 <= s[0] as u32 <= 0x7a)
            &&& forall|i: int|
                0 <= i < s.len() ==> (0x30 <= (#[trigger] s[i]) as u32 <= 0x39 || 0x41 <= s[i] as u32 <= 0x5a
                    || 0x61 <= s[i] as u32 <= 0x7a || s[i] == '+' || s[i] == '-' || s[i] == '.' || s[i] == '_'
                    || s[i] == '@')
        },
{
}

/// A Flatpak ID is valid exactly when it has 1 to 255 characters made of
/// ASCII letters, digits, `_`, `-` and `.`, holds at least two dots, does not
/// end with a dot, and starts, as does every part after a dot, with an ASCII
/// letter or `_`.
pub proof fn lemma_flatpak_id_rule(s: Seq<char>)
    ensures
        flatpak_id_ok(s) <==> {
            &&& 1 <= s.len() <= 255
            &&& (0x41 <= s[0] as u32 <= 0x5a || 0x61 <= s[0] as u32 <= 0x7a || s[0] == '_')
            &&& s[s.len() - 1] != '.'
            &&& forall|i: int|
                0 <= i < s.len() ==> (0x30 <= (#[trigger] s[i]) as u32 <= 0x39 || 0x41 <= s[i] as u32 <= 0x5a
                    || 0x61 <= s[i] as u32 <= 0x7a || s[i] == '_' || s[i] == '-' || s[i] == '.')
            &&& forall|i: int|
                0 <= i < s.len() - 1 && #[trigger] s[i] == '.' ==> (0x41 <= s[i + 1] as u32 <= 0x5a || 0x61
                    <= s[i + 1] as u32 <= 0x7a || s[i + 1] == '_')
            &&& exists|i: int, j: int| 0 <= i < j < s.len() && s[i] == '.' && s[j] == '.'
        },
{
}

/// The `main.sh` argument check accepts exactly the well-formed argvs whose
/// values all follow their rules and that name a package or a Flatpak: what
/// it accepts is read back from the argv itself (rendering it gives the argv
/// again), the label is valid, and each package name, Flatpak ID and exec
/// name given is valid.
pub proof fn lemma_main_sh_check_accepts(x: Seq<Seq<char>>)
    ensures
        check_main_sh(x) matches Ok(a) ==> {
            &&& render_main_sh(a) == x
            &&& label_ok(a.label)
            &&& (a.package matches Some(p) ==> package_ok(p))
            &&& (a.flatpak matches Some(f) ==> flatpak_id_ok(f))
            &&& (a.exec_name matches Some(e) ==> exec_ok(e))
            &&& (a.package is Some || a.flatpak is Some)
        },
        parse_main_sh(x) matches Some(a) ==> ({
            &&& label_ok(a.label)
            &&& (a.package matches Some(p) ==> package_ok(p))
            &&& (a.flatpak matches Some(f) ==> flatpak_id_ok(f))
            &&& (a.exec_name matches Some(e) ==> exec_ok(e))
            &&& (a.package is Some || a.flatpak is Some)
        } <==> check_main_sh(x) == Ok::<MainShArgs, Seq<char>>(a)),
{
    if parse_main_sh(x) is Some {
        lemma_main_sh_parse_renders(x);
    }
}

/// The views of `args[from..]`.
pub open spec fn tail_views(args: Seq<String>, from: int) -> Seq<Seq<char>> {
    views(args).subrange(from, args.len() as int)
}

/// Reads the value after `flag` at position `i` of `args`, if `flag` is there.
fn take_flag_exec(args: &Vec<String>, from: usize, i: usize, flag: &str) -> (r: (
    Option<usize>,
    usize,
))
    requires
        from <= i <= args.len(),
    ensures
        ({
            let (f, j) = take_flag(tail_views(args@, from as int), i - from, flag@);
            &&& r.1 == j + from
            &&& from <= r.1 <= args.len()
            &&& match r.0 {
                Some(k) => k == i + 1 && k < args.len() && f == Some(args@[k as int]@),
                None => f is None,
            }
        }),
{
    let ghost x = tail_views(args@, from as int);
    if i < args.len() && i + 1 < args.len() && str_eq(args[i].as_str(), flag) {
        assert(x[i - from] == args@[i as int]@);
        assert(x[i - from + 1] == args@[i + 1]@);
        (Some(i + 1), i + 2)
    } else {
        proof {
            if i + 1 < args.len() {
                assert(x[i - from] == args@[i as int]@);
            }
        }
        (None, i)
    }
}

/// Checks the arguments `args[from..]` given to `main.sh`.
pub fn validate_main_sh_argv(args: &Vec<String>, from: usize) -> (r: Result<(), String>)
    requires
        from <= args.len(),
    ensures
        match check_main_sh(tail_views(args@, from as int)) {
            Ok(_) => r is Ok,
            Err(msg) => r matches Err(e) && e@ == msg,
        },
{
    let ghost x = tail_views(args@, from as int);
    proof {
        reveal_strlit("--label");
    }
    if args.len() - from < 2 || !str_eq(args[from].as_str(), "--label") {
        proof {
            if args.len() - from >= 2 {
                assert(x[0] == args@[from as int]@);
            }
        }
        return Err(
            owned(
                "main.sh arguments must be --label, then optional --package, --flatpak and --exec pairs, then an action",
            ),
        );
    }
    assert(x[0] == args@[from as int]@);
    let (p, i1) = take_flag_exec(args, from, from + 2, "--package");
    let (f, i2) = take_flag_exec(args, from, i1, "--flatpak");
    let (e, i3) = take_flag_exec(args, from, i2, "--exec");
    if args.len() - i3 != 1 {
        return Err(
            owned(
                "main.sh arguments must be --label, then optional --package, --flatpak and --exec pairs, then an action",
            ),
        );
    }
    assert(x[i3 - from] == args@[i3 as int]@);
    if validate_action(args[i3].as_str()).is_err() {
        return Err(
            owned(
                "main.sh arguments must be --label, then optional --package, --flatpak and --exec pairs, then an action",
            ),
        );
    }
    assert(x[1] == args@[from + 1]@);
    validate_label(args[from + 1].as_str())?;
    if let Some(k) = p {
        validate_package_name(args[k].as_str())?;
    }
    if let Some(k) = f {
        validate_flatpak_id(args[k].as_str())?;
    }
    if let Some(k) = e {
        validate_exec_name(args[k].as_str())?;
    }
    if p.is_none() && f.is_none() {
        return Err(owned("at least one of package name or Flatpak ID is required"));
    }
    Ok(())
}

/// The text put in place of a secret.
pub open spec fn redaction_mark() -> Seq<char> {
    seq!['*', '*', '*', '*', '*', '*', '*', '*']
}

/// `text` with every occurrence of a non-empty `secret` masked.
pub open spec fn redacted(text: Seq<char>, secret: Seq<char>) -> Seq<char> {
    if secret.len() == 0 {
        text
    } else {
        replace_all(text, secret, redaction_mark())
    }
}

/// Masks every occurrence of `secret` in `text`; an empty secret masks nothing.
pub fn redact_secret(text: &str, secret: &str) -> (r: String)
    ensures
        r@ == redacted(text@, secret@),
{
    if secret.is_empty() {
        owned(text)
    } else {
        proof {
            reveal_strlit("********");
            assert("********"@ =~= redaction_mark());
        }
        replace_str(text, secret, "********")
    }
}

proof fn lemma_unmasked_prefix(t: Seq<char>, pat: Seq<char>, k: int)
    requires
        pat.len() > 0,
        0 <= k <= replace_all(t, pat, redaction_mark()).len(),
        forall|i: int| 0 <= i < k ==> replace_all(t, pat, redaction_mark())[i] != '*',
    ensures
        k <= t.len(),
        replace_all(t, pat, redaction_mark()).subrange(0, k) == t.subrange(0, k),
    decreases t.len(),
{
    let m = redaction_mark();
    let out = replace_all(t, pat, m);
    if t.len() < pat.len() {
    } else if t.subrange(0, pat.len() as int) == pat {
        if k > 0 {
            assert(out[0] == m[0]);
        }
    } else if k > 0 {
        let rest = replace_all(t.drop_first(), pat, m);
        assert(out == seq![t[0]] + rest);
        assert forall|i: int| 0 <= i < k - 1 implies rest[i] != '*' by {
            assert(out[i + 1] == rest[i]);
        }
        lemma_unmasked_prefix(t.drop_first(), pat, k - 1);
        assert(out.subrange(0, k) =~= seq![t[0]] + rest.subrange(0, k - 1));
        assert(t.subrange(0, k) =~= seq![t[0]] + t.drop_first().subrange(0, k - 1));
    }
}

/// Once masked, a secret without `*` in it is gone from the text: no
/// occurrence of it is left, whatever the text.
pub proof fn lemma_redaction_hides_secret(text: Seq<char>, secret: Seq<char>)
    requires
        secret.len() > 0,
        forall|i: int| 0 <= i < secret.len() ==> secret[i] != '*',
    ensures
        !contains(redacted(text, secret), secret),
    decreases text.len(),
{
    let m = redaction_mark();
    let out = replace_all(text, secret, m);
    let n = secret.len() as int;
    if contains(out, secret) {
        let i = choose|i: int| occurs_at(out, secret, i);
        assert(out.subrange(i, i + n)[0] == secret[0]);
        if text.len() < n {
            assert(out == text);
        } else if text.subrange(0, n) == secret {
            let rest = replace_all(text.subrange(n, text.len() as int), secret, m);
            assert(out == m + rest);
            if i < 8 {
                assert(out[i] == '*');
            } else {
                assert(rest.subrange(i - 8, i - 8 + n) =~= out.subrange(i, i + n));
                assert(occurs_at(rest, secret, i - 8));
                lemma_redaction_hides_secret(text.subrange(n, text.len() as int), secret);
            }
        } else {
            let rest = replace_all(text.drop_first(), secret, m);
            assert(out == seq![text[0]] + rest);
            if i >= 1 {
                assert(rest.subrange(i - 1, i - 1 + n) =~= out.subrange(i, i + n));
                assert(occurs_at(rest, secret, i - 1));
                lemma_redaction_hides_secret(text.drop_first(), secret);
            } else {
                assert forall|k: int| 0 <= k < n - 1 implies rest[k] != '*' by {
                    assert(rest[k] == out[k + 1]);
                    assert(out[k + 1] == out.subrange(0, n)[k + 1]);
                }
                lemma_unmasked_prefix(text.drop_first(), secret, n - 1);
                assert(text.subrange(0, n) =~= seq![text[0]] + text.drop_first().subrange(0, n - 1));
                assert(out.subrange(0, n) =~= seq![text[0]] + rest.subrange(0, n - 1));
            }
        }
    }
}

/// Wipes a secret from memory: every byte of its buffer is first
/// overwritten in place with NUL (a replacement of the same byte length,
/// which `String::replace_range` writes into the existing buffer), then the
/// string is emptied, keeping the zeroed buffer.
pub fn zeroize_string(s: &mut String)
    ensures
        final(s)@ == Seq::<char>::empty(),
{
    let n = s.as_str().len();
    let mut filler = String::new();
    let mut i: usize = 0;
    while i < n
        invariant
            i <= n,
            filler@.len() == i,
        decreases n - i,
    {
        push_char(&mut filler, '\0');
        i = i + 1;
    }
    replace_whole(s, filler.as_str());
    proof {
        reveal_strlit("");
    }
    replace_whole(s, "");
}

} // verus!
