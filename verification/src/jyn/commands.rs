//! The decisions behind the `jyn config`, `jyn tutorial` and `jyn update`
//! subcommands: what to run, where to write, and what to report. Reading
//! and writing files, the environment and the network are the caller's.

use vstd::prelude::*;

use crate::color::{inactive, label, pad_right, pad_right_exec, success, warning, wrapped};
use crate::jot::due::int_text;
use crate::jyn::config::{
    json_view, local_config_path, parse_value, parsed_value, set_nested, set_path, Json,
    JsonNumber, JsonValue, NumberView, CONFIG_FILE, JYN_DIR,
};
use crate::paths::path_join;
use crate::text::{
    chars_of, decimal, extend_chars, find_sub, find_sub_exec, lower, lower_chars, push_decimal,
    string_of,
};

verus! {

// ---------------------------------------------------------------------------
// jyn config
// ---------------------------------------------------------------------------

/// `jyn config [get <key> | set <key> <value> [--global | --local]]`.
#[derive(Debug, Clone, PartialEq)]
pub struct ConfigArgs {
    pub command: Option<ConfigCommand>,
}

#[derive(Debug, Clone, PartialEq)]
pub enum ConfigCommand {
    /// Get a config value by dotted key.
    GetValue(GetArgs),
    /// Set a config value by dotted key.
    SetValue(SetArgs),
}

#[derive(Debug, Clone, PartialEq)]
pub struct GetArgs {
    /// Dotted key path (e.g. `output.fortune`).
    pub key: String,
}

#[derive(Debug, Clone, PartialEq)]
pub struct SetArgs {
    /// Dotted key path.
    pub key: String,
    /// Value to set (string, number, or boolean).
    pub value: String,
    /// Write to the personal global config.
    pub global: bool,
    /// Write to the project-local config.
    pub local: bool,
}

/// What `jyn config` does.
#[derive(Debug, Clone, PartialEq)]
pub enum ConfigAction {
    /// List every setting.
    ShowAll,
    /// Print one setting.
    GetValue { key: String },
    /// Write one setting.
    SetValue { key: String, value: String, global: bool, local: bool },
}

/// Dispatch `jyn config`: no subcommand lists everything.
pub fn run(args: ConfigArgs) -> (r: ConfigAction)
    ensures
        match args.command {
            None => r is ShowAll,
            Some(ConfigCommand::GetValue(a)) => r matches ConfigAction::GetValue { key } && key == a.key,
            Some(ConfigCommand::SetValue(a)) => r matches ConfigAction::SetValue { key, value, global, local }
                && key == a.key && value == a.value && global == a.global && local == a.local,
        },
{
    match args.command {
        None => ConfigAction::ShowAll,
        Some(ConfigCommand::GetValue(a)) => ConfigAction::GetValue { key: a.key },
        Some(ConfigCommand::SetValue(a)) => ConfigAction::SetValue {
            key: a.key,
            value: a.value,
            global: a.global,
            local: a.local,
        },
    }
}

/// How a setting's value is shown: text as it is, booleans and numbers
/// in decimal, `null` dimmed. Arrays and objects have no scalar form
/// (`None`); they are shown as JSON.
pub open spec fn value_text(v: Json, enabled: bool) -> Option<Seq<char>> {
    match v {
        Json::Str(s) => Some(s),
        Json::Bool(b) => Some(
            if b {
                "true"@
            } else {
                "false"@
            },
        ),
        Json::Number(NumberView::PosInt(u)) => Some(decimal(u as nat)),
        Json::Number(NumberView::NegInt(i)) => Some(int_text(i as int)),
        Json::Number(NumberView::Float(t)) => Some(t),
        Json::Null => Some(wrapped("\x1b[38;5;8m"@, "null"@, enabled)),
        _ => None,
    }
}

/// Show a setting's value; `None` for arrays and objects.
pub fn format_value(v: &JsonValue, enabled: bool) -> (r: Option<String>)
    ensures
        match (r, value_text(json_view(*v), enabled)) {
            (Some(x), Some(y)) => x@ == y,
            (None, None) => true,
            _ => false,
        },
{
    match v {
        JsonValue::Str(s) => Some(s.clone()),
        JsonValue::Bool(b) => Some(
            if *b {
                "true".to_owned()
            } else {
                "false".to_owned()
            },
        ),
        JsonValue::Number(JsonNumber::PosInt(u)) => {
            let mut d: Vec<char> = Vec::new();
            push_decimal(&mut d, *u);
            Some(string_of(&d))
        },
        JsonValue::Number(JsonNumber::NegInt(i)) => {
            let mut d: Vec<char> = Vec::new();
            if *i < 0 {
                d.push('-');
                let m: i128 = 0 - (*i as i128);
                push_decimal(&mut d, m as u64);
                assert(d@ =~= int_text(*i as int));
            } else {
                push_decimal(&mut d, *i as u64);
            }
            Some(string_of(&d))
        },
        JsonValue::Number(JsonNumber::Float(t)) => Some(t.clone()),
        JsonValue::Null => Some(inactive("null", enabled)),
        _ => None,
    }
}

/// One setting's line: the key in the label colour, padded to `width`
/// chars, the value, and a dim `[default]` mark when the user did not set
/// it.
pub fn format_kv(key: &str, value: &str, width: usize, is_default: bool, enabled: bool) -> (r:
    String)
    ensures
        r@ == pad_right(wrapped("\x1b[32m"@, key@, enabled), width as nat) + seq![' '] + value@ + (
        if is_default {
            "  "@ + wrapped("\x1b[38;5;8m"@, "[default]"@, enabled)
        } else {
            Seq::empty()
        }),
{
    let mut m = chars_of(pad_right_exec(label(key, enabled).as_str(), width).as_str());
    m.push(' ');
    extend_chars(&mut m, &chars_of(value));
    if is_default {
        extend_chars(&mut m, &chars_of("  "));
        extend_chars(&mut m, &chars_of(inactive("[default]", enabled).as_str()));
    }
    string_of(&m)
}

/// Where `jyn config set` writes.
#[derive(Debug, Clone, PartialEq)]
pub enum WriteTarget {
    Local(String),
    Global(String),
}

impl WriteTarget {
    /// The file written to.
    pub fn path(&self) -> (r: &str)
        ensures
            r@ == match self {
                WriteTarget::Local(p) => p@,
                WriteTarget::Global(p) => p@,
            },
    {
        match self {
            WriteTarget::Local(p) => p.as_str(),
            WriteTarget::Global(p) => p.as_str(),
        }
    }

    /// `local` or `global`.
    pub fn label(&self) -> (r: &'static str)
        ensures
            r@ == match self {
                WriteTarget::Local(_) => "local"@,
                WriteTarget::Global(_) => "global"@,
            },
    {
        match self {
            WriteTarget::Local(_) => "local",
            WriteTarget::Global(_) => "global",
        }
    }
}

/// The error when no configuration file exists and no flag chose one.
pub open spec fn no_config_message() -> Seq<char> {
    "No config exists yet. Choose a location:\n  jyn config set --global <key> <value>   (writes to ~/.config/jyn/config.yaml)\n  jyn config set --local  <key> <value>   (writes to ./.jyn/config.yaml)"@
}

/// The error when the current directory cannot be read.
pub open spec fn no_cwd_message() -> Seq<char> {
    "cannot read current directory"@
}

/// Where to write, in order of precedence: an explicit `--global` or
/// `--local` flag; with no flag and no configuration file at all
/// (neither the global one nor `./.jyn/config.yaml`), an error asking the
/// user to choose; otherwise the project's file inside a project (a
/// current directory with a `.jyn/` directory), else the global file.
/// `local_exists` says whether the project's `config.yaml` is a file; it
/// counts only inside a project.
pub open spec fn write_target_for(
    global_flag: bool,
    local_flag: bool,
    cwd: Option<Seq<char>>,
    project_root: Option<Seq<char>>,
    local_exists: bool,
    global_path: Seq<char>,
    global_exists: bool,
) -> Result<(bool, Seq<char>), Seq<char>> {
    if global_flag {
        Ok((false, global_path))
    } else if local_flag {
        match cwd {
            Some(c) => Ok((true, path_join(path_join(c, JYN_DIR@), CONFIG_FILE@))),
            None => Err(no_cwd_message()),
        }
    } else if !global_exists && !(project_root is Some && local_exists) {
        Err(no_config_message())
    } else if project_root is Some {
        Ok((true, path_join(path_join(project_root.unwrap(), JYN_DIR@), CONFIG_FILE@)))
    } else {
        Ok((false, global_path))
    }
}

/// A configuration file never appears by surprise: with no flag, the
/// target is a file that already exists (the project's `config.yaml` or
/// the global file) or inside a project once the global file exists;
/// while no configuration file exists at all, nothing is chosen and the
/// user is asked to pick `--global` or `--local`; and without `--local`
/// the local file is chosen only inside a project.
pub proof fn law_no_local_config_by_surprise(
    global_flag: bool,
    local_flag: bool,
    cwd: Option<Seq<char>>,
    project_root: Option<Seq<char>>,
    local_exists: bool,
    global_path: Seq<char>,
    global_exists: bool,
)
    ensures
        (!global_flag && !local_flag && !global_exists && !(project_root is Some && local_exists))
            ==> write_target_for(
            global_flag,
            local_flag,
            cwd,
            project_root,
            local_exists,
            global_path,
            global_exists,
        ) == Err::<(bool, Seq<char>), Seq<char>>(no_config_message()),
        (!local_flag && project_root is None) ==> !(write_target_for(
            global_flag,
            local_flag,
            cwd,
            project_root,
            local_exists,
            global_path,
            global_exists,
        ) matches Ok((true, _))),
        (!global_flag && !local_flag) ==> (write_target_for(
            global_flag,
            local_flag,
            cwd,
            project_root,
            local_exists,
            global_path,
            global_exists,
        ) is Ok ==> global_exists || (project_root is Some && local_exists)),
{
}

/// The plain value of an optional string.
pub open spec fn opt_view(s: Option<String>) -> Option<Seq<char>> {
    match s {
        Some(x) => Some(x@),
        None => None,
    }
}

/// Where `jyn config set` should write. `cwd` is the current directory
/// (`None` when it cannot be read), `project_root` the current directory
/// when it holds a `.jyn/` directory, `local_exists` whether that
/// project's `config.yaml` is a file already, `global_path` the global
/// file and `global_exists` whether it is a file already.
pub fn resolve_write_target(
    global_flag: bool,
    local_flag: bool,
    cwd: Option<String>,
    project_root: Option<String>,
    local_exists: bool,
    global_path: String,
    global_exists: bool,
) -> (r: Result<WriteTarget, String>)
    ensures
        match (
            r,
            write_target_for(
                global_flag,
                local_flag,
                opt_view(cwd),
                opt_view(project_root),
                local_exists,
                global_path@,
                global_exists,
            ),
        ) {
            (Ok(WriteTarget::Local(p)), Ok((true, q))) => p@ == q,
            (Ok(WriteTarget::Global(p)), Ok((false, q))) => p@ == q,
            (Err(e), Err(m)) => e@ == m,
            _ => false,
        },
{
    if global_flag {
        return Ok(WriteTarget::Global(global_path));
    }
    if local_flag {
        return match cwd {
            Some(c) => Ok(WriteTarget::Local(local_config_path(c.as_str()))),
            None => Err("cannot read current directory".to_owned()),
        };
    }
    let has_local = project_root.is_some() && local_exists;
    if !global_exists && !has_local {
        return Err(
            "No config exists yet. Choose a location:\n  jyn config set --global <key> <value>   (writes to ~/.config/jyn/config.yaml)\n  jyn config set --local  <key> <value>   (writes to ./.jyn/config.yaml)".to_owned(),
        );
    }
    match project_root {
        Some(root) => Ok(WriteTarget::Local(local_config_path(root.as_str()))),
        None => Ok(WriteTarget::Global(global_path)),
    }
}

/// The file's value to update: an existing file's value, or an empty
/// object when there is no file or it holds nothing (`null`).
pub open spec fn start_value(existing: Option<Json>) -> Json {
    match existing {
        Some(v) => if v is Null {
            Json::Object(Seq::empty())
        } else {
            v
        },
        None => Json::Object(Seq::empty()),
    }
}

/// The new content of the file `jyn config set` writes to: the existing
/// content (`None` when there is no file) with the typed value set at the
/// key; `finite_float` is whether the typed value reads as a finite
/// `f64`. Fails when the content is not an object.
pub fn updated_config_value(
    existing: Option<JsonValue>,
    key: &str,
    raw_value: &str,
    finite_float: bool,
) -> (r: Result<JsonValue, String>)
    ensures
        match set_path(
            start_value(
                match existing {
                    Some(v) => Some(json_view(v)),
                    None => None,
                },
            ),
            key@,
            parsed_value(raw_value@, finite_float),
        ) {
            Some(v) => r matches Ok(x) && json_view(x) == v,
            None => r matches Err(m) && m@ == "cannot set '"@ + key@ + "': parent is not an object"@,
        },
{
    let empty: Vec<(String, JsonValue)> = Vec::new();
    assert(crate::jyn::config::entries_view(empty@) =~= Seq::empty());
    let mut value = match existing {
        Some(JsonValue::Null) => JsonValue::Object(empty),
        Some(v) => v,
        None => JsonValue::Object(empty),
    };
    let parsed = parse_value(raw_value, finite_float);
    match set_nested(&mut value, key, parsed) {
        Ok(()) => Ok(value),
        Err(m) => Err(m),
    }
}

/// The error for a value the configuration does not accept at a key,
/// with the key's hint when there is one.
pub fn invalid_value_message(key: &str, raw_value: &str, hint: Option<String>) -> (r: String)
    ensures
        r@ == match hint {
            Some(h) => "'"@ + raw_value@ + "' is not valid for '"@ + key@ + "'\n  "@ + h@,
            None => "'"@ + key@ + "' is not a known config key or '"@ + raw_value@
                + "' has the wrong type"@,
        },
{
    let mut m: Vec<char> = Vec::new();
    match hint {
        Some(h) => {
            extend_chars(&mut m, &chars_of("'"));
            extend_chars(&mut m, &chars_of(raw_value));
            extend_chars(&mut m, &chars_of("' is not valid for '"));
            extend_chars(&mut m, &chars_of(key));
            extend_chars(&mut m, &chars_of("'\n  "));
            extend_chars(&mut m, &chars_of(h.as_str()));
        },
        None => {
            extend_chars(&mut m, &chars_of("'"));
            extend_chars(&mut m, &chars_of(key));
            extend_chars(&mut m, &chars_of("' is not a known config key or '"));
            extend_chars(&mut m, &chars_of(raw_value));
            extend_chars(&mut m, &chars_of("' has the wrong type"));
        },
    }
    string_of(&m)
}

/// The line confirming a written setting: `{key} = {value}  [{target}]`.
pub fn set_confirmation(key: &str, raw_value: &str, target: &WriteTarget) -> (r: String)
    ensures
        r@ == key@ + " = "@ + raw_value@ + "  ["@ + match target {
            WriteTarget::Local(_) => "local"@,
            WriteTarget::Global(_) => "global"@,
        } + "]"@,
{
    let mut m = chars_of(key);
    extend_chars(&mut m, &chars_of(" = "));
    extend_chars(&mut m, &chars_of(raw_value));
    extend_chars(&mut m, &chars_of("  ["));
    extend_chars(&mut m, &chars_of(target.label()));
    extend_chars(&mut m, &chars_of("]"));
    string_of(&m)
}

// ---------------------------------------------------------------------------
// jyn tutorial
// ---------------------------------------------------------------------------

/// `jyn tutorial [-i]`.
#[derive(Debug, Clone, PartialEq)]
pub struct TutorialArgs {
    /// Browse the tutorial via a chapter menu (TTY only).
    pub interactive: bool,
}

// ---------------------------------------------------------------------------
// jyn update
// ---------------------------------------------------------------------------

/// `jyn update [--check]`.
#[derive(Debug, Clone, PartialEq)]
pub struct UpdateArgs {
    /// Read-only check; exit 2 if an update is available.
    pub check: bool,
}

/// Whether `s` occurs in `t`.
pub open spec fn contains(t: Seq<char>, s: Seq<char>) -> bool {
    find_sub(t, s) is Some
}

/// The package manager that owns the running binary, with the command
/// that upgrades it, inferred from the lowercased path of the binary:
/// winget for a `Microsoft/WinGet` path, cargo for a `.cargo` path.
pub open spec fn manager_for(exe_path: Seq<char>) -> Option<(Seq<char>, Seq<char>)> {
    let p = lower(exe_path);
    if contains(p, "microsoft\\winget"@) || contains(p, "microsoft/winget"@) {
        Some(("winget"@, "winget upgrade -s winget joyint.jyn"@))
    } else if contains(p, "/.cargo/"@) || contains(p, "\\.cargo\\"@) {
        Some(("cargo"@, "cargo install jyn-cli"@))
    } else {
        None
    }
}

/// winget- and cargo-managed binaries are upgraded by their own package
/// manager; infer which one from the running binary's path (empty when
/// it is not known). `None` means jyn manages the binary itself.
pub fn package_manager_hint(exe_path: &str) -> (r: Option<(String, String)>)
    ensures
        match (r, manager_for(exe_path@)) {
            (Some((m, c)), Some((x, y))) => m@ == x && c@ == y,
            (None, None) => true,
            _ => false,
        },
{
    let p = lower_chars(&chars_of(exe_path));
    if find_sub_exec(&p, &chars_of("microsoft\\winget")).is_some() || find_sub_exec(
        &p,
        &chars_of("microsoft/winget"),
    ).is_some() {
        Some(("winget".to_owned(), "winget upgrade -s winget joyint.jyn".to_owned()))
    } else if find_sub_exec(&p, &chars_of("/.cargo/")).is_some() || find_sub_exec(
        &p,
        &chars_of("\\.cargo\\"),
    ).is_some() {
        Some(("cargo".to_owned(), "cargo install jyn-cli".to_owned()))
    } else {
        None
    }
}

/// What an update attempt came to.
#[derive(Debug, Clone, PartialEq)]
pub enum UpdateOutcome {
    /// A newer release was installed over the old version (when known).
    Updated { old: Option<String>, new: String },
    /// Already the latest release.
    UpToDate,
    /// No (stable) release or version to install was found.
    NoRelease,
    /// The update failed; the error's text.
    Failed(String),
}

/// The status mark and detail reported for an update outcome. Finding
/// no release to install is no failure: the binary is up to date.
pub open spec fn outcome_report(outcome: UpdateOutcome, version: Seq<char>, enabled: bool) -> (
    Seq<char>,
    Seq<char>,
) {
    match outcome {
        UpdateOutcome::Updated { old, new } => (
            wrapped("\x1b[38;5;10m"@, "ok"@, enabled),
            wrapped(
                "\x1b[38;5;10m"@,
                "updated "@ + match old {
                    Some(o) => o@,
                    None => "unknown"@,
                } + " -> "@ + new@,
                enabled,
            ),
        ),
        UpdateOutcome::Failed(e) => (
            wrapped("\x1b[33m"@, "!"@, enabled),
            wrapped("\x1b[33m"@, "update failed: "@ + e@, enabled),
        ),
        _ => (
            wrapped("\x1b[38;5;10m"@, "ok"@, enabled),
            wrapped("\x1b[38;5;8m"@, "up to date ("@ + version + ")"@, enabled),
        ),
    }
}

/// The status mark and detail for an update outcome, `version` being the
/// running version.
pub fn update_report(outcome: UpdateOutcome, version: &str, enabled: bool) -> (r: (String, String))
    ensures
        r.0@ == outcome_report(outcome, version@, enabled).0,
        r.1@ == outcome_report(outcome, version@, enabled).1,
{
    match outcome {
        UpdateOutcome::Updated { old, new } => {
            let mut d = chars_of("updated ");
            match old {
                Some(o) => extend_chars(&mut d, &chars_of(o.as_str())),
                None => extend_chars(&mut d, &chars_of("unknown")),
            }
            extend_chars(&mut d, &chars_of(" -> "));
            extend_chars(&mut d, &chars_of(new.as_str()));
            (success("ok", enabled), success(string_of(&d).as_str(), enabled))
        },
        UpdateOutcome::Failed(e) => {
            let mut d = chars_of("update failed: ");
            extend_chars(&mut d, &chars_of(e.as_str()));
            (warning("!", enabled), warning(string_of(&d).as_str(), enabled))
        },
        _ => {
            let mut d = chars_of("up to date (");
            extend_chars(&mut d, &chars_of(version));
            extend_chars(&mut d, &chars_of(")"));
            (success("ok", enabled), inactive(string_of(&d).as_str(), enabled))
        },
    }
}

/// A report line for the binary: `  {mark} binary   {detail}`.
pub fn binary_line(mark: &str, detail: &str) -> (r: String)
    ensures
        r@ == "  "@ + mark@ + " binary   "@ + detail@,
{
    let mut m = chars_of("  ");
    extend_chars(&mut m, &chars_of(mark));
    extend_chars(&mut m, &chars_of(" binary   "));
    extend_chars(&mut m, &chars_of(detail));
    string_of(&m)
}

/// The lines reported for a binary that a package manager owns: which
/// one, and the command that upgrades it.
pub fn managed_lines(manager: &str, command: &str, version: &str, enabled: bool) -> (r: (
    String,
    String,
))
    ensures
        r.0@ == "  "@ + wrapped("\x1b[38;5;8m"@, "-"@, enabled) + " binary   "@ + wrapped(
            "\x1b[38;5;8m"@,
            "managed by "@ + manager@ + " ("@ + version@ + ")"@,
            enabled,
        ),
        r.1@ == "             upgrade with: "@ + command@,
{
    let mut d = chars_of("managed by ");
    extend_chars(&mut d, &chars_of(manager));
    extend_chars(&mut d, &chars_of(" ("));
    extend_chars(&mut d, &chars_of(version));
    extend_chars(&mut d, &chars_of(")"));
    let first = binary_line(inactive("-", enabled).as_str(), inactive(string_of(&d).as_str(), enabled).as_str());
    let mut second = chars_of("             upgrade with: ");
    extend_chars(&mut second, &chars_of(command));
    (first, string_of(&second))
}

/// The line `jyn update --check` reports, and the exit code it ends with
/// when an update is available (2).
pub fn check_report(update_needed: bool, version: &str, enabled: bool) -> (r: (String, Option<i32>))
    ensures
        update_needed ==> r.1 == Some(2i32) && r.0@ == "  "@ + wrapped("\x1b[33m"@, "!"@, enabled)
            + " binary   "@ + wrapped(
            "\x1b[33m"@,
            "update available (current "@ + version@ + ")"@,
            enabled,
        ),
        !update_needed ==> r.1 is None && r.0@ == "  "@ + wrapped(
            "\x1b[38;5;10m"@,
            "ok"@,
            enabled,
        ) + " binary   "@ + wrapped("\x1b[38;5;8m"@, "up to date ("@ + version@ + ")"@, enabled),
{
    if update_needed {
        let mut d = chars_of("update available (current ");
        extend_chars(&mut d, &chars_of(version));
        extend_chars(&mut d, &chars_of(")"));
        let line = binary_line(warning("!", enabled).as_str(), warning(string_of(&d).as_str(), enabled).as_str());
        (line, Some(2))
    } else {
        let mut d = chars_of("up to date (");
        extend_chars(&mut d, &chars_of(version));
        extend_chars(&mut d, &chars_of(")"));
        let line = binary_line(success("ok", enabled).as_str(), inactive(string_of(&d).as_str(), enabled).as_str());
        (line, None)
    }
}

} // verus!
