//! Named project checks: the built-in checks and groups, the checks and
//! groups of a project's configuration, and how a list of names resolves
//! to the checks to run.

use vstd::prelude::*;

use crate::report::{render_report, report_of, RunResult, SummaryLimits};
use crate::summary::{join_all, strings_view, summarize_for_command, summary_of, to_char_lines, Mode};
use crate::text::{
    chars_equal, chars_of, decimal, decimal_chars, is_ascii_alpha, is_ascii_alphabetic, lines_of,
    push_all, split_lines, string_from, trim, trim_chars, trim_end, trim_end_chars,
};

verus! {

// ---------------------------------------------------------------------------
// Checks to run
// ---------------------------------------------------------------------------

/// A check to run: its label, output format and command.
#[derive(Debug, Clone, PartialEq, Eq)]
pub struct RunSpec {
    pub label: String,
    pub mode: Mode,
    pub command: Vec<String>,
}

#[verifier::ext_equal]
pub struct RunSpecV {
    pub label: Seq<char>,
    pub mode: Mode,
    pub command: Seq<Seq<char>>,
}

impl View for RunSpec {
    type V = RunSpecV;

    open spec fn view(&self) -> RunSpecV {
        RunSpecV { label: self.label@, mode: self.mode, command: strings_view(self.command@) }
    }
}

/// A check left out because the tool it needs is not installed.
#[derive(Debug, Clone, PartialEq, Eq)]
pub struct SkippedCheck {
    pub label: String,
    pub reason: String,
}

#[verifier::ext_equal]
pub struct SkippedV {
    pub label: Seq<char>,
    pub reason: Seq<char>,
}

impl View for SkippedCheck {
    type V = SkippedV;

    open spec fn view(&self) -> SkippedV {
        SkippedV { label: self.label@, reason: self.reason@ }
    }
}

/// The checks that a list of names resolves to, and those left out.
#[derive(Debug, Clone, PartialEq, Eq)]
pub struct ResolvedChecks {
    pub specs: Vec<RunSpec>,
    pub skipped: Vec<SkippedCheck>,
}

#[verifier::ext_equal]
pub struct ResolvedV {
    pub specs: Seq<RunSpecV>,
    pub skipped: Seq<SkippedV>,
}

pub open spec fn specs_view(v: Seq<RunSpec>) -> Seq<RunSpecV> {
    v.map_values(|s: RunSpec| s@)
}

pub open spec fn skipped_view(v: Seq<SkippedCheck>) -> Seq<SkippedV> {
    v.map_values(|s: SkippedCheck| s@)
}

impl View for ResolvedChecks {
    type V = ResolvedV;

    open spec fn view(&self) -> ResolvedV {
        ResolvedV { specs: specs_view(self.specs@), skipped: skipped_view(self.skipped@) }
    }
}

// ---------------------------------------------------------------------------
// Built-in checks
// ---------------------------------------------------------------------------

/// A built-in check: its name, label, output format, command, and the
/// optional tool it needs.
pub struct BuiltinCheck {
    pub name: String,
    pub label: String,
    pub mode: Mode,
    pub command: Vec<String>,
    pub required_tool: Option<String>,
}

#[verifier::ext_equal]
pub struct BuiltinV {
    pub name: Seq<char>,
    pub label: Seq<char>,
    pub mode: Mode,
    pub command: Seq<Seq<char>>,
    pub required_tool: Option<Seq<char>>,
}

impl View for BuiltinCheck {
    type V = BuiltinV;

    open spec fn view(&self) -> BuiltinV {
        BuiltinV {
            name: self.name@,
            label: self.label@,
            mode: self.mode,
            command: strings_view(self.command@),
            required_tool: match self.required_tool {
                Some(t) => Some(t@),
                None => None,
            },
        }
    }
}

pub open spec fn builtin_format_check() -> BuiltinV {
    BuiltinV {
        name: "format-check"@,
        label: "format-check"@,
        mode: Mode::Rustfmt,
        command: seq!["cargo"@, "fmt"@, "--all"@, "--"@, "--check"@],
        required_tool: None,
    }
}

pub open spec fn builtin_clippy() -> BuiltinV {
    BuiltinV {
        name: "clippy"@,
        label: "clippy"@,
        mode: Mode::Cargo,
        command: seq![
            "cargo"@,
            "clippy"@,
            "--message-format=json"@,
            "--all-targets"@,
            "--locked"@,
            "--"@,
            "-D"@,
            "warnings"@,
        ],
        required_tool: None,
    }
}

pub open spec fn builtin_test() -> BuiltinV {
    BuiltinV {
        name: "test"@,
        label: "test"@,
        mode: Mode::Cargo,
        command: seq!["cargo"@, "test"@, "--locked"@, "--message-format=json"@],
        required_tool: None,
    }
}

pub open spec fn builtin_cargo_deny() -> BuiltinV {
    BuiltinV {
        name: "cargo-deny"@,
        label: "cargo-deny"@,
        mode: Mode::CargoDeny,
        command: seq!["cargo"@, "deny"@, "--format"@, "json"@, "check"@],
        required_tool: Some("cargo-deny"@),
    }
}

pub open spec fn builtin_cargo_machete() -> BuiltinV {
    BuiltinV {
        name: "cargo-machete"@,
        label: "cargo-machete"@,
        mode: Mode::CargoMachete,
        command: seq!["cargo"@, "machete"@, "--with-metadata"@],
        required_tool: Some("cargo-machete"@),
    }
}

/// The built-in checks, in the order they are listed.
pub open spec fn builtin_table() -> Seq<BuiltinV> {
    seq![
        builtin_format_check(),
        builtin_clippy(),
        builtin_test(),
        builtin_cargo_deny(),
        builtin_cargo_machete(),
    ]
}

/// The tools that built-in checks need besides Cargo, which are probed
/// before names are resolved.
pub fn optional_tools() -> (r: Vec<String>)
    ensures
        strings_view(r@) == seq![
            builtin_cargo_deny().required_tool->0,
            builtin_cargo_machete().required_tool->0,
        ],
{
    let mut r: Vec<String> = Vec::new();
    r.push(string_of("cargo-deny"));
    r.push(string_of("cargo-machete"));
    assert(strings_view(r@) =~= seq!["cargo-deny"@, "cargo-machete"@]);
    r
}

/// The first built-in check with the given name.
pub open spec fn builtin_named(name: Seq<char>) -> Option<BuiltinV> {
    if name == "format-check"@ {
        Some(builtin_format_check())
    } else if name == "clippy"@ {
        Some(builtin_clippy())
    } else if name == "test"@ {
        Some(builtin_test())
    } else if name == "cargo-deny"@ {
        Some(builtin_cargo_deny())
    } else if name == "cargo-machete"@ {
        Some(builtin_cargo_machete())
    } else {
        None
    }
}

proof fn lemma_builtin_names()
    ensures
        forall|i: int| 0 <= i < 5 ==> builtin_named(#[trigger] all_names()[i]) == Some(builtin_table()[i]),
        forall|i: int| 0 <= i < 5 ==> (#[trigger] builtin_table()[i]).name == all_names()[i],
{
    reveal_strlit("format-check");
    reveal_strlit("clippy");
    reveal_strlit("test");
    reveal_strlit("cargo-deny");
    reveal_strlit("cargo-machete");
    assert(builtin_named(all_names()[0]) == Some(builtin_table()[0]));
    assert(builtin_named(all_names()[1]) == Some(builtin_table()[1]));
    assert(builtin_named(all_names()[2]) == Some(builtin_table()[2]));
    assert(builtin_named(all_names()[3]) == Some(builtin_table()[3]));
    assert("cargo-machete"@.len() == 13);
    assert("cargo-machete"@ != "format-check"@);
    assert("cargo-machete"@ != "clippy"@);
    assert("cargo-machete"@ != "test"@);
    assert("cargo-machete"@ != "cargo-deny"@);
    assert(builtin_named(all_names()[4]) == Some(builtin_table()[4]));
}

/// The checks of the `static-analysis` group.
pub open spec fn static_analysis_names() -> Seq<Seq<char>> {
    seq!["cargo-deny"@, "cargo-machete"@]
}

/// The checks of the `all` group.
pub open spec fn all_names() -> Seq<Seq<char>> {
    seq!["format-check"@, "clippy"@, "test"@, "cargo-deny"@, "cargo-machete"@]
}

fn strings_of(lits: &[&str]) -> (r: Vec<String>)
    ensures
        strings_view(r@) == lits@.map_values(|s: &str| s@),
{
    let mut r: Vec<String> = Vec::new();
    let mut i: usize = 0;
    while i < lits.len()
        invariant
            i <= lits.len(),
            r@.len() == i,
            forall|j: int| 0 <= j < i ==> #[trigger] r@[j]@ == lits@[j]@,
        decreases lits.len() - i,
    {
        r.push(string_from(chars_of(lits[i]).as_slice()));
        i = i + 1;
    }
    assert(strings_view(r@) =~= lits@.map_values(|s: &str| s@));
    r
}

fn string_of(lit: &str) -> (r: String)
    ensures
        r@ == lit@,
{
    string_from(chars_of(lit).as_slice())
}

fn builtin(name: &str, mode: Mode, command: &[&str], required_tool: Option<&str>) -> (r:
    BuiltinCheck)
    ensures
        r@ == (BuiltinV {
            name: name@,
            label: name@,
            mode: mode,
            command: command@.map_values(|s: &str| s@),
            required_tool: match required_tool {
                Some(t) => Some(t@),
                None => None,
            },
        }),
{
    let r = BuiltinCheck {
        name: string_of(name),
        label: string_of(name),
        mode,
        command: strings_of(command),
        required_tool: match required_tool {
            Some(t) => Some(string_of(t)),
            None => None,
        },
    };
    assert(r@ =~= (BuiltinV {
        name: name@,
        label: name@,
        mode: mode,
        command: command@.map_values(|s: &str| s@),
        required_tool: match required_tool {
            Some(t) => Some(t@),
            None => None,
        },
    }));
    r
}

/// The built-in check with the given name.
pub fn builtin_check(name: &[char]) -> (r: Option<BuiltinCheck>)
    ensures
        match r {
            Some(b) => builtin_named(name@) == Some(b@),
            None => builtin_named(name@) is None,
        },
{
    if chars_equal(name, chars_of("format-check").as_slice()) {
        let b = builtin("format-check", Mode::Rustfmt, &["cargo", "fmt", "--all", "--", "--check"], None);
        assert(b@ =~= builtin_format_check());
        Some(b)
    } else if chars_equal(name, chars_of("clippy").as_slice()) {
        let b = builtin(
            "clippy",
            Mode::Cargo,
            &["cargo", "clippy", "--message-format=json", "--all-targets", "--locked", "--", "-D", "warnings"],
            None,
        );
        assert(b@ =~= builtin_clippy());
        Some(b)
    } else if chars_equal(name, chars_of("test").as_slice()) {
        let b = builtin("test", Mode::Cargo, &["cargo", "test", "--locked", "--message-format=json"], None);
        assert(b@ =~= builtin_test());
        Some(b)
    } else if chars_equal(name, chars_of("cargo-deny").as_slice()) {
        let b = builtin(
            "cargo-deny",
            Mode::CargoDeny,
            &["cargo", "deny", "--format", "json", "check"],
            Some("cargo-deny"),
        );
        assert(b@ =~= builtin_cargo_deny());
        Some(b)
    } else if chars_equal(name, chars_of("cargo-machete").as_slice()) {
        let b = builtin(
            "cargo-machete",
            Mode::CargoMachete,
            &["cargo", "machete", "--with-metadata"],
            Some("cargo-machete"),
        );
        assert(b@ =~= builtin_cargo_machete());
        Some(b)
    } else {
        None
    }
}

/// The listing of the available checks: each built-in check (marked where
/// it needs an optional tool), then the two groups.
pub open spec fn checks_listing() -> Seq<char> {
    "available checks:\n"@ + join_all(
        builtin_table().map_values(
            |b: BuiltinV|
                "  "@ + b.name + (if b.required_tool is Some {
                    " (optional tool)"@
                } else {
                    Seq::empty()
                }) + "\n"@,
        ),
    ) + "  static-analysis (group)\n"@ + "  all (group)\n"@
}

/// Lists the available checks.
pub fn list_checks() -> (r: String)
    ensures
        r@ == checks_listing(),
{
    let mut out = chars_of("available checks:\n");
    let names = ["format-check", "clippy", "test", "cargo-deny", "cargo-machete"];
    let ghost entries = builtin_table().map_values(
        |b: BuiltinV|
            "  "@ + b.name + (if b.required_tool is Some {
                " (optional tool)"@
            } else {
                Seq::empty()
            }) + "\n"@,
    );
    let ghost head = out@;
    let mut i: usize = 0;
    while i < 5
        invariant
            i <= 5,
            names@.map_values(|s: &str| s@) == all_names(),
            entries == builtin_table().map_values(
                |b: BuiltinV|
                    "  "@ + b.name + (if b.required_tool is Some {
                        " (optional tool)"@
                    } else {
                        Seq::empty()
                    }) + "\n"@,
            ),
            out@ == head + join_all(entries.subrange(0, i as int)),
        decreases 5 - i,
    {
        let check = match builtin_check(chars_of(names[i]).as_slice()) {
            Some(b) => b,
            None => {
                assert(false);
                return String::new();
            },
        };
        proof {
            lemma_builtin_names();
        }
        assert(check@ == builtin_table()[i as int]);
        push_all(&mut out, chars_of("  ").as_slice());
        push_all(&mut out, chars_of(check.name.as_str()).as_slice());
        if check.required_tool.is_some() {
            push_all(&mut out, chars_of(" (optional tool)").as_slice());
        }
        push_all(&mut out, chars_of("\n").as_slice());
        assert(entries.subrange(0, i + 1).drop_last() =~= entries.subrange(0, i as int));
        i = i + 1;
        assert(out@ =~= head + join_all(entries.subrange(0, i as int)));
    }
    assert(entries.subrange(0, 5) =~= entries);
    push_all(&mut out, chars_of("  static-analysis (group)\n").as_slice());
    push_all(&mut out, chars_of("  all (group)\n").as_slice());
    string_from(out.as_slice())
}

// ---------------------------------------------------------------------------
// Configured checks and groups
// ---------------------------------------------------------------------------

/// A check of the project configuration (`[[check]]` in `checkle.toml`).
#[derive(Debug, Clone)]
pub struct ConfigCheck {
    pub name: String,
    pub label: Option<String>,
    pub mode: Mode,
    pub command: Vec<String>,
}

pub struct ConfigCheckV {
    pub name: Seq<char>,
    pub label: Option<Seq<char>>,
    pub mode: Mode,
    pub command: Seq<Seq<char>>,
}

impl View for ConfigCheck {
    type V = ConfigCheckV;

    open spec fn view(&self) -> ConfigCheckV {
        ConfigCheckV {
            name: self.name@,
            label: match self.label {
                Some(l) => Some(l@),
                None => None,
            },
            mode: self.mode,
            command: strings_view(self.command@),
        }
    }
}

/// A group of the project configuration (`[[group]]` in `checkle.toml`).
#[derive(Debug, Clone)]
pub struct ConfigGroup {
    pub name: String,
    pub checks: Vec<String>,
}

pub struct ConfigGroupV {
    pub name: Seq<char>,
    pub checks: Seq<Seq<char>>,
}

impl View for ConfigGroup {
    type V = ConfigGroupV;

    open spec fn view(&self) -> ConfigGroupV {
        ConfigGroupV { name: self.name@, checks: strings_view(self.checks@) }
    }
}

/// The project configuration: its checks and groups.
#[derive(Debug, Clone)]
pub struct ConfigFile {
    pub check: Vec<ConfigCheck>,
    pub group: Vec<ConfigGroup>,
}

pub struct ConfigV {
    pub checks: Seq<ConfigCheckV>,
    pub groups: Seq<ConfigGroupV>,
}

impl View for ConfigFile {
    type V = ConfigV;

    open spec fn view(&self) -> ConfigV {
        ConfigV {
            checks: self.check@.map_values(|c: ConfigCheck| c@),
            groups: self.group@.map_values(|g: ConfigGroup| g@),
        }
    }
}

pub open spec fn config_view(c: Option<ConfigFile>) -> Option<ConfigV> {
    match c {
        Some(c) => Some(c@),
        None => None,
    }
}

/// The check a configured check runs: labelled by its label, else its name.
pub open spec fn config_run_spec(c: ConfigCheckV) -> RunSpecV {
    RunSpecV {
        label: match c.label {
            Some(l) => l,
            None => c.name,
        },
        mode: c.mode,
        command: c.command,
    }
}

pub open spec fn builtin_run_spec(b: BuiltinV) -> RunSpecV {
    RunSpecV { label: b.label, mode: b.mode, command: b.command }
}

pub open spec fn first_check_named(cs: Seq<ConfigCheckV>, name: Seq<char>) -> Option<ConfigCheckV>
    decreases cs.len(),
{
    if cs.len() == 0 {
        None
    } else if cs[0].name == name {
        Some(cs[0])
    } else {
        first_check_named(cs.drop_first(), name)
    }
}

pub open spec fn first_group_named(gs: Seq<ConfigGroupV>, name: Seq<char>) -> Option<ConfigGroupV>
    decreases gs.len(),
{
    if gs.len() == 0 {
        None
    } else if gs[0].name == name {
        Some(gs[0])
    } else {
        first_group_named(gs.drop_first(), name)
    }
}

// ---------------------------------------------------------------------------
// Resolution
// ---------------------------------------------------------------------------

/// Why a list of check names does not resolve.
#[derive(Debug, Clone, PartialEq, Eq)]
pub enum CheckError {
    UnknownCheck(String),
    MissingTool { name: String, tool: String },
    DuplicateLabel(String),
}

pub enum CheckErrorV {
    UnknownCheck(Seq<char>),
    MissingTool { name: Seq<char>, tool: Seq<char> },
    DuplicateLabel(Seq<char>),
}

impl View for CheckError {
    type V = CheckErrorV;

    open spec fn view(&self) -> CheckErrorV {
        match self {
            CheckError::UnknownCheck(n) => CheckErrorV::UnknownCheck(n@),
            CheckError::MissingTool { name, tool } => CheckErrorV::MissingTool {
                name: name@,
                tool: tool@,
            },
            CheckError::DuplicateLabel(l) => CheckErrorV::DuplicateLabel(l@),
        }
    }
}

pub open spec fn error_message(e: CheckErrorV) -> Seq<char> {
    match e {
        CheckErrorV::UnknownCheck(n) => "unknown check: "@ + n,
        CheckErrorV::MissingTool { name, tool } => "required tool for "@ + name
            + " is not installed: "@ + tool,
        CheckErrorV::DuplicateLabel(l) => "duplicate check label: "@ + l,
    }
}

impl CheckError {
    /// The error as a sentence.
    pub fn message(&self) -> (r: String)
        ensures
            r@ == error_message(self@),
    {
        let mut out: Vec<char> = Vec::new();
        match self {
            CheckError::UnknownCheck(n) => {
                push_all(&mut out, chars_of("unknown check: ").as_slice());
                push_all(&mut out, chars_of(n.as_str()).as_slice());
            },
            CheckError::MissingTool { name, tool } => {
                push_all(&mut out, chars_of("required tool for ").as_slice());
                push_all(&mut out, chars_of(name.as_str()).as_slice());
                push_all(&mut out, chars_of(" is not installed: ").as_slice());
                push_all(&mut out, chars_of(tool.as_str()).as_slice());
            },
            CheckError::DuplicateLabel(l) => {
                push_all(&mut out, chars_of("duplicate check label: ").as_slice());
                push_all(&mut out, chars_of(l.as_str()).as_slice());
            },
        }
        string_from(out.as_slice())
    }
}

/// Where resolving names ends: the checks to run and those skipped, an
/// error, or a group nesting deeper than there are groups, which only a
/// group that contains itself can do.
pub enum Resolution {
    Resolved(Seq<RunSpecV>, Seq<SkippedV>),
    Failed(CheckErrorV),
    OutOfFuel,
}

pub open spec fn tool_missing(b: BuiltinV, tools: Seq<Seq<char>>) -> bool {
    b.required_tool matches Some(t) && !tools.contains(t)
}

pub open spec fn not_installed(b: BuiltinV) -> SkippedV {
    SkippedV { label: b.label, reason: b.required_tool->0 + " not installed"@ }
}

/// The built-in checks of a built-in group: each whose tool is missing is
/// skipped.
pub open spec fn resolve_builtin_group(
    names: Seq<Seq<char>>,
    tools: Seq<Seq<char>>,
    specs: Seq<RunSpecV>,
    skipped: Seq<SkippedV>,
) -> (Seq<RunSpecV>, Seq<SkippedV>)
    decreases names.len(),
{
    if names.len() == 0 {
        (specs, skipped)
    } else {
        let (s, k) = resolve_builtin_group(names.drop_last(), tools, specs, skipped);
        match builtin_named(names.last()) {
            Some(b) => if tool_missing(b, tools) {
                (s, k.push(not_installed(b)))
            } else {
                (s.push(builtin_run_spec(b)), k)
            },
            None => (s, k),
        }
    }
}

/// A name that no configured check or group has: a built-in group, or a
/// built-in check (skipped, within a group, where its tool is missing).
pub open spec fn resolve_builtin_name(
    name: Seq<char>,
    tools: Seq<Seq<char>>,
    from_group: bool,
    specs: Seq<RunSpecV>,
    skipped: Seq<SkippedV>,
) -> Resolution {
    if name == "static-analysis"@ {
        let (s, k) = resolve_builtin_group(static_analysis_names(), tools, specs, skipped);
        Resolution::Resolved(s, k)
    } else if name == "all"@ {
        let (s, k) = resolve_builtin_group(all_names(), tools, specs, skipped);
        Resolution::Resolved(s, k)
    } else {
        match builtin_named(name) {
            None => Resolution::Failed(CheckErrorV::UnknownCheck(name)),
            Some(b) => if tool_missing(b, tools) {
                if from_group {
                    Resolution::Resolved(specs, skipped.push(not_installed(b)))
                } else {
                    Resolution::Failed(
                        CheckErrorV::MissingTool { name: name, tool: b.required_tool->0 },
                    )
                }
            } else {
                Resolution::Resolved(specs.push(builtin_run_spec(b)), skipped)
            },
        }
    }
}

/// Resolves one name after the checks already resolved: a configured check,
/// else a configured group (each of its names in turn), else a built-in.
pub open spec fn resolve_name(
    cfg: Option<ConfigV>,
    tools: Seq<Seq<char>>,
    name: Seq<char>,
    from_group: bool,
    fuel: nat,
    specs: Seq<RunSpecV>,
    skipped: Seq<SkippedV>,
) -> Resolution
    decreases fuel, 0nat,
{
    match cfg {
        Some(c) => match first_check_named(c.checks, name) {
            Some(ch) => Resolution::Resolved(specs.push(config_run_spec(ch)), skipped),
            None => match first_group_named(c.groups, name) {
                Some(g) => if fuel == 0 {
                    Resolution::OutOfFuel
                } else {
                    resolve_names(cfg, tools, g.checks, true, (fuel - 1) as nat, specs, skipped)
                },
                None => resolve_builtin_name(name, tools, from_group, specs, skipped),
            },
        },
        None => resolve_builtin_name(name, tools, from_group, specs, skipped),
    }
}

/// Resolves names in order, stopping at the first error.
pub open spec fn resolve_names(
    cfg: Option<ConfigV>,
    tools: Seq<Seq<char>>,
    names: Seq<Seq<char>>,
    from_group: bool,
    fuel: nat,
    specs: Seq<RunSpecV>,
    skipped: Seq<SkippedV>,
) -> Resolution
    decreases fuel, names.len(),
{
    if names.len() == 0 {
        Resolution::Resolved(specs, skipped)
    } else {
        match resolve_names(cfg, tools, names.drop_last(), from_group, fuel, specs, skipped) {
            Resolution::Resolved(s, k) => resolve_name(
                cfg,
                tools,
                names.last(),
                from_group,
                fuel,
                s,
                k,
            ),
            other => other,
        }
    }
}

pub open spec fn group_count(cfg: Option<ConfigV>) -> nat {
    match cfg {
        Some(c) => c.groups.len(),
        None => 0,
    }
}

/// How the requested names resolve, given the configuration and the
/// installed tools; groups nest at most as deep as there are groups.
pub open spec fn resolution_of(
    names: Seq<Seq<char>>,
    cfg: Option<ConfigV>,
    tools: Seq<Seq<char>>,
) -> Resolution {
    resolve_names(cfg, tools, names, false, group_count(cfg), Seq::empty(), Seq::empty())
}

/// The first label that repeats an earlier one.
pub open spec fn first_duplicate(ls: Seq<Seq<char>>) -> Option<Seq<char>>
    decreases ls.len(),
{
    if ls.len() == 0 {
        None
    } else {
        match first_duplicate(ls.drop_last()) {
            Some(d) => Some(d),
            None => if ls.drop_last().contains(ls.last()) {
                Some(ls.last())
            } else {
                None
            },
        }
    }
}

pub open spec fn labels_of(specs: Seq<RunSpecV>) -> Seq<Seq<char>> {
    specs.map_values(|s: RunSpecV| s.label)
}

/// The checks that the names resolve to, or why they do not: the first
/// resolution error, else the first repeated label.
pub open spec fn resolve_result(
    names: Seq<Seq<char>>,
    cfg: Option<ConfigV>,
    tools: Seq<Seq<char>>,
) -> Result<ResolvedV, CheckErrorV> {
    match resolution_of(names, cfg, tools) {
        Resolution::Resolved(s, k) => match first_duplicate(labels_of(s)) {
            Some(l) => Err(CheckErrorV::DuplicateLabel(l)),
            None => Ok(ResolvedV { specs: s, skipped: k }),
        },
        Resolution::Failed(e) => Err(e),
        Resolution::OutOfFuel => Err(CheckErrorV::UnknownCheck(Seq::empty())),
    }
}

// --- the resolver ---

enum Outcome {
    Done,
    Failed(CheckError),
    OutOfFuel,
}

spec fn outcome_is(o: Outcome, specs: Seq<RunSpecV>, skipped: Seq<SkippedV>, r: Resolution) -> bool {
    match o {
        Outcome::Done => r == Resolution::Resolved(specs, skipped),
        Outcome::Failed(e) => r == Resolution::Failed(e@),
        Outcome::OutOfFuel => r is OutOfFuel,
    }
}

fn is_installed(tools: &Vec<Vec<char>>, tool: &String) -> (r: bool)
    ensures
        r == tools.deep_view().contains(tool@),
{
    let t = chars_of(tool.as_str());
    let ghost tv = tools.deep_view();
    let mut i: usize = 0;
    while i < tools.len()
        invariant
            i <= tools.len(),
            tv == tools.deep_view(),
            t@ == tool@,
            forall|j: int| 0 <= j < i ==> tv[j] != tool@,
        decreases tools.len() - i,
    {
        assert(tv[i as int] =~= tools@[i as int]@);
        if chars_equal(tools[i].as_slice(), t.as_slice()) {
            return true;
        }
        i = i + 1;
    }
    false
}

fn builtin_is_missing(b: &BuiltinCheck, tools: &Vec<Vec<char>>) -> (r: bool)
    ensures
        r == tool_missing(b@, tools.deep_view()),
{
    match &b.required_tool {
        Some(t) => !is_installed(tools, t),
        None => false,
    }
}

fn skipped_for(b: &BuiltinCheck) -> (r: SkippedCheck)
    requires
        b.required_tool is Some,
    ensures
        r@ == not_installed(b@),
{
    let mut reason: Vec<char> = Vec::new();
    match &b.required_tool {
        Some(t) => push_all(&mut reason, chars_of(t.as_str()).as_slice()),
        None => {},
    }
    push_all(&mut reason, chars_of(" not installed").as_slice());
    let r = SkippedCheck { label: b.label.clone(), reason: string_from(reason.as_slice()) };
    assert(r@ =~= not_installed(b@));
    r
}

fn run_spec_of_builtin(b: &BuiltinCheck) -> (r: RunSpec)
    ensures
        r@ == builtin_run_spec(b@),
{
    let r = RunSpec { label: b.label.clone(), mode: b.mode, command: b.command.clone() };
    assert(strings_view(r.command@) =~= strings_view(b.command@));
    r
}

fn resolve_builtin_group_exec(
    names: &[&str],
    tools: &Vec<Vec<char>>,
    specs: &mut Vec<RunSpec>,
    skipped: &mut Vec<SkippedCheck>,
)
    ensures
        (specs_view(final(specs)@), skipped_view(final(skipped)@)) == resolve_builtin_group(
            names@.map_values(|s: &str| s@),
            tools.deep_view(),
            specs_view(old(specs)@),
            skipped_view(old(skipped)@),
        ),
{
    let ghost ns = names@.map_values(|s: &str| s@);
    let ghost s0 = specs_view(specs@);
    let ghost k0 = skipped_view(skipped@);
    let mut i: usize = 0;
    while i < names.len()
        invariant
            i <= names.len(),
            ns == names@.map_values(|s: &str| s@),
            (specs_view(specs@), skipped_view(skipped@)) == resolve_builtin_group(
                ns.subrange(0, i as int),
                tools.deep_view(),
                s0,
                k0,
            ),
        decreases names.len() - i,
    {
        assert(ns.subrange(0, i + 1).drop_last() =~= ns.subrange(0, i as int));
        let ghost ps = specs@;
        let ghost pk = skipped@;
        match builtin_check(chars_of(names[i]).as_slice()) {
            Some(b) => {
                if builtin_is_missing(&b, tools) {
                    skipped.push(skipped_for(&b));
                    assert(skipped_view(skipped@) =~= skipped_view(pk).push(not_installed(b@)));
                } else {
                    specs.push(run_spec_of_builtin(&b));
                    assert(specs_view(specs@) =~= specs_view(ps).push(builtin_run_spec(b@)));
                }
            },
            None => {},
        }
        i = i + 1;
    }
    assert(ns.subrange(0, names.len() as int) =~= ns);
}

fn resolve_builtin_name_exec(
    name: &[char],
    tools: &Vec<Vec<char>>,
    from_group: bool,
    specs: &mut Vec<RunSpec>,
    skipped: &mut Vec<SkippedCheck>,
) -> (r: Outcome)
    ensures
        outcome_is(
            r,
            specs_view(final(specs)@),
            skipped_view(final(skipped)@),
            resolve_builtin_name(
                name@,
                tools.deep_view(),
                from_group,
                specs_view(old(specs)@),
                skipped_view(old(skipped)@),
            ),
        ),
{
    if chars_equal(name, chars_of("static-analysis").as_slice()) {
        let group = ["cargo-deny", "cargo-machete"];
        assert(group@.map_values(|s: &str| s@) =~= static_analysis_names());
        resolve_builtin_group_exec(&group, tools, specs, skipped);
        return Outcome::Done;
    }
    if chars_equal(name, chars_of("all").as_slice()) {
        let group = ["format-check", "clippy", "test", "cargo-deny", "cargo-machete"];
        assert(group@.map_values(|s: &str| s@) =~= all_names());
        resolve_builtin_group_exec(&group, tools, specs, skipped);
        return Outcome::Done;
    }
    match builtin_check(name) {
        None => Outcome::Failed(CheckError::UnknownCheck(string_from(name))),
        Some(b) => {
            if builtin_is_missing(&b, tools) {
                if from_group {
                    let ghost pk = skipped@;
                    skipped.push(skipped_for(&b));
                    assert(skipped_view(skipped@) =~= skipped_view(pk).push(not_installed(b@)));
                    Outcome::Done
                } else {
                    let tool = match &b.required_tool {
                        Some(t) => t.clone(),
                        None => String::new(),
                    };
                    Outcome::Failed(CheckError::MissingTool { name: string_from(name), tool })
                }
            } else {
                let ghost ps = specs@;
                specs.push(run_spec_of_builtin(&b));
                assert(specs_view(specs@) =~= specs_view(ps).push(builtin_run_spec(b@)));
                Outcome::Done
            }
        },
    }
}

fn find_check(cfg: &ConfigFile, name: &[char]) -> (r: Option<usize>)
    ensures
        match r {
            Some(i) => i < cfg.check.len() && first_check_named(cfg@.checks, name@) == Some(
                cfg@.checks[i as int],
            ),
            None => first_check_named(cfg@.checks, name@) is None,
        },
{
    let ghost cs = cfg@.checks;
    let mut i: usize = 0;
    assert(cs.subrange(0, cs.len() as int) =~= cs);
    while i < cfg.check.len()
        invariant
            i <= cfg.check.len(),
            cs == cfg@.checks,
            first_check_named(cs, name@) == first_check_named(cs.subrange(i as int, cs.len() as int), name@),
        decreases cfg.check.len() - i,
    {
        let ghost rest = cs.subrange(i as int, cs.len() as int);
        assert(rest[0] == cfg.check@[i as int]@);
        if chars_equal(chars_of(cfg.check[i].name.as_str()).as_slice(), name) {
            return Some(i);
        }
        assert(rest.drop_first() =~= cs.subrange(i + 1, cs.len() as int));
        i = i + 1;
    }
    assert(cs.subrange(cs.len() as int, cs.len() as int).len() == 0);
    None
}

fn find_group(cfg: &ConfigFile, name: &[char]) -> (r: Option<usize>)
    ensures
        match r {
            Some(i) => i < cfg.group.len() && first_group_named(cfg@.groups, name@) == Some(
                cfg@.groups[i as int],
            ),
            None => first_group_named(cfg@.groups, name@) is None,
        },
{
    let ghost gs = cfg@.groups;
    let mut i: usize = 0;
    assert(gs.subrange(0, gs.len() as int) =~= gs);
    while i < cfg.group.len()
        invariant
            i <= cfg.group.len(),
            gs == cfg@.groups,
            first_group_named(gs, name@) == first_group_named(gs.subrange(i as int, gs.len() as int), name@),
        decreases cfg.group.len() - i,
    {
        let ghost rest = gs.subrange(i as int, gs.len() as int);
        assert(rest[0] == cfg.group@[i as int]@);
        if chars_equal(chars_of(cfg.group[i].name.as_str()).as_slice(), name) {
            return Some(i);
        }
        assert(rest.drop_first() =~= gs.subrange(i + 1, gs.len() as int));
        i = i + 1;
    }
    assert(gs.subrange(gs.len() as int, gs.len() as int).len() == 0);
    None
}

fn run_spec_of_config(c: &ConfigCheck) -> (r: RunSpec)
    ensures
        r@ == config_run_spec(c@),
{
    let label = match &c.label {
        Some(l) => l.clone(),
        None => c.name.clone(),
    };
    let r = RunSpec { label, mode: c.mode, command: c.command.clone() };
    assert(strings_view(r.command@) =~= strings_view(c.command@));
    r
}

fn resolve_name_exec(
    cfg: &Option<ConfigFile>,
    tools: &Vec<Vec<char>>,
    name: &[char],
    from_group: bool,
    fuel: usize,
    specs: &mut Vec<RunSpec>,
    skipped: &mut Vec<SkippedCheck>,
) -> (r: Outcome)
    ensures
        outcome_is(
            r,
            specs_view(final(specs)@),
            skipped_view(final(skipped)@),
            resolve_name(
                config_view(*cfg),
                tools.deep_view(),
                name@,
                from_group,
                fuel as nat,
                specs_view(old(specs)@),
                skipped_view(old(skipped)@),
            ),
        ),
    decreases fuel, 0nat,
{
    match cfg {
        Some(c) => {
            match find_check(c, name) {
                Some(i) => {
                    let ghost ps = specs@;
                    specs.push(run_spec_of_config(&c.check[i]));
                    assert(specs_view(specs@) =~= specs_view(ps).push(
                        config_run_spec(c@.checks[i as int]),
                    ));
                    return Outcome::Done;
                },
                None => {},
            }
            match find_group(c, name) {
                Some(g) => {
                    if fuel == 0 {
                        return Outcome::OutOfFuel;
                    }
                    let members = to_char_lines(c.group[g].checks.as_slice());
                    resolve_names_exec(cfg, tools, &members, true, fuel - 1, specs, skipped)
                },
                None => resolve_builtin_name_exec(name, tools, from_group, specs, skipped),
            }
        },
        None => resolve_builtin_name_exec(name, tools, from_group, specs, skipped),
    }
}

fn resolve_names_exec(
    cfg: &Option<ConfigFile>,
    tools: &Vec<Vec<char>>,
    names: &Vec<Vec<char>>,
    from_group: bool,
    fuel: usize,
    specs: &mut Vec<RunSpec>,
    skipped: &mut Vec<SkippedCheck>,
) -> (r: Outcome)
    ensures
        outcome_is(
            r,
            specs_view(final(specs)@),
            skipped_view(final(skipped)@),
            resolve_names(
                config_view(*cfg),
                tools.deep_view(),
                names.deep_view(),
                from_group,
                fuel as nat,
                specs_view(old(specs)@),
                skipped_view(old(skipped)@),
            ),
        ),
    decreases fuel, names.deep_view().len(),
{
    let ghost nv = names.deep_view();
    let ghost s0 = specs_view(specs@);
    let ghost k0 = skipped_view(skipped@);
    let mut i: usize = 0;
    while i < names.len()
        invariant
            i <= names.len(),
            nv == names.deep_view(),
            s0 == specs_view(old(specs)@),
            k0 == skipped_view(old(skipped)@),
            resolve_names(
                config_view(*cfg),
                tools.deep_view(),
                nv.subrange(0, i as int),
                from_group,
                fuel as nat,
                s0,
                k0,
            ) == Resolution::Resolved(specs_view(specs@), skipped_view(skipped@)),
        decreases names.len() - i,
    {
        assert(nv.subrange(0, i + 1).drop_last() =~= nv.subrange(0, i as int));
        assert(nv[i as int] =~= names@[i as int]@);
        let o = resolve_name_exec(cfg, tools, names[i].as_slice(), from_group, fuel, specs, skipped);
        i = i + 1;
        match o {
            Outcome::Done => {},
            Outcome::Failed(e) => {
                proof {
                    lemma_resolve_names_stops(config_view(*cfg), tools.deep_view(), nv, from_group, fuel as nat, s0, k0, i as int);
                }
                return Outcome::Failed(e);
            },
            Outcome::OutOfFuel => {
                proof {
                    lemma_resolve_names_stops(config_view(*cfg), tools.deep_view(), nv, from_group, fuel as nat, s0, k0, i as int);
                }
                return Outcome::OutOfFuel;
            },
        }
    }
    assert(nv.subrange(0, nv.len() as int) =~= nv);
    Outcome::Done
}

/// Once resolving a prefix of the names fails, resolving all of them ends
/// the same way.
proof fn lemma_resolve_names_stops(
    cfg: Option<ConfigV>,
    tools: Seq<Seq<char>>,
    names: Seq<Seq<char>>,
    from_group: bool,
    fuel: nat,
    specs: Seq<RunSpecV>,
    skipped: Seq<SkippedV>,
    k: int,
)
    requires
        0 <= k <= names.len(),
        !(resolve_names(cfg, tools, names.subrange(0, k), from_group, fuel, specs, skipped) is Resolved),
    ensures
        resolve_names(cfg, tools, names, from_group, fuel, specs, skipped) == resolve_names(
            cfg,
            tools,
            names.subrange(0, k),
            from_group,
            fuel,
            specs,
            skipped,
        ),
    decreases names.len() - k,
{
    if k < names.len() {
        assert(names.subrange(0, k + 1).drop_last() =~= names.subrange(0, k));
        lemma_resolve_names_stops(cfg, tools, names, from_group, fuel, specs, skipped, k + 1);
    } else {
        assert(names.subrange(0, k) =~= names);
    }
}

fn first_duplicate_label(specs: &Vec<RunSpec>) -> (r: Option<String>)
    ensures
        match r {
            Some(l) => first_duplicate(labels_of(specs_view(specs@))) == Some(l@),
            None => first_duplicate(labels_of(specs_view(specs@))) is None,
        },
{
    let ghost ls = labels_of(specs_view(specs@));
    let mut seen: Vec<Vec<char>> = Vec::new();
    let mut i: usize = 0;
    while i < specs.len()
        invariant
            i <= specs.len(),
            ls == labels_of(specs_view(specs@)),
            seen.deep_view() == ls.subrange(0, i as int),
            first_duplicate(ls.subrange(0, i as int)) is None,
        decreases specs.len() - i,
    {
        let label = chars_of(specs[i].label.as_str());
        assert(ls.subrange(0, i + 1).drop_last() =~= ls.subrange(0, i as int));
        assert(ls[i as int] == label@);
        let mut j: usize = 0;
        while j < seen.len()
            invariant
                j <= seen.len(),
                i < specs.len(),
                ls == labels_of(specs_view(specs@)),
                ls[i as int] == label@,
                first_duplicate(ls.subrange(0, i as int)) is None,
                seen.deep_view() == ls.subrange(0, i as int),
                forall|k: int| 0 <= k < j ==> seen.deep_view()[k] != label@,
            decreases seen.len() - j,
        {
            assert(seen.deep_view()[j as int] =~= seen@[j as int]@);
            if chars_equal(seen[j].as_slice(), label.as_slice()) {
                proof {
                    let pre = ls.subrange(0, i + 1);
                    assert(pre.drop_last()[j as int] == pre.last());
                    assert(pre.drop_last().contains(pre.last()));
                    assert(pre.drop_last() =~= ls.subrange(0, i as int));
                    assert(first_duplicate(pre) == Some(pre.last()));
                    assert(pre.last() == label@);
                    lemma_first_duplicate_prefix(ls, i + 1);
                }
                return Some(specs[i].label.clone());
            }
            j = j + 1;
        }
        proof {
            let pre = ls.subrange(0, i + 1);
            assert(!pre.drop_last().contains(pre.last())) by {
                if pre.drop_last().contains(pre.last()) {
                    let k = choose|k: int| 0 <= k < pre.drop_last().len() && pre.drop_last()[k] == pre.last();
                    assert(seen.deep_view()[k] == label@);
                }
            }
        }
        let ghost prev = seen.deep_view();
        assert(label.deep_view() =~= label@);
        seen.push(label);
        assert(seen.deep_view() =~= prev.push(ls[i as int]));
        i = i + 1;
        assert(seen.deep_view() =~= ls.subrange(0, i as int));
    }
    assert(ls.subrange(0, ls.len() as int) =~= ls);
    None
}

/// A duplicate found in a prefix is the first duplicate of the whole.
proof fn lemma_first_duplicate_prefix(ls: Seq<Seq<char>>, k: int)
    requires
        0 <= k <= ls.len(),
        first_duplicate(ls.subrange(0, k)) is Some,
    ensures
        first_duplicate(ls) == first_duplicate(ls.subrange(0, k)),
    decreases ls.len() - k,
{
    if k < ls.len() {
        assert(ls.subrange(0, k + 1).drop_last() =~= ls.subrange(0, k));
        lemma_first_duplicate_prefix(ls, k + 1);
    } else {
        assert(ls.subrange(0, k) =~= ls);
    }
}

fn resolve_all(
    names: &[String],
    config: &Option<ConfigFile>,
    installed_tools: &[String],
    specs: &mut Vec<RunSpec>,
    skipped: &mut Vec<SkippedCheck>,
) -> (r: Outcome)
    requires
        old(specs)@.len() == 0,
        old(skipped)@.len() == 0,
    ensures
        outcome_is(
            r,
            specs_view(final(specs)@),
            skipped_view(final(skipped)@),
            resolution_of(strings_view(names@), config_view(*config), strings_view(installed_tools@)),
        ),
{
    let tools = to_char_lines(installed_tools);
    let requested = to_char_lines(names);
    let fuel: usize = match config {
        Some(c) => c.group.len(),
        None => 0,
    };
    assert(specs_view(specs@) =~= Seq::<RunSpecV>::empty());
    assert(skipped_view(skipped@) =~= Seq::<SkippedV>::empty());
    resolve_names_exec(config, &tools, &requested, false, fuel, specs, skipped)
}

/// Whether the names resolve without a group that contains itself, which
/// would expand without end.
pub fn resolution_terminates(names: &[String], config: &Option<ConfigFile>, installed_tools: &[String]) -> (r:
    bool)
    ensures
        r == !(resolution_of(
            strings_view(names@),
            config_view(*config),
            strings_view(installed_tools@),
        ) is OutOfFuel),
{
    let mut specs: Vec<RunSpec> = Vec::new();
    let mut skipped: Vec<SkippedCheck> = Vec::new();
    match resolve_all(names, config, installed_tools, &mut specs, &mut skipped) {
        Outcome::OutOfFuel => false,
        _ => true,
    }
}

/// Resolves check names to the checks to run, given the project
/// configuration (if any) and the optional tools that are installed.
///
/// A name is a configured check, else a configured group, else one of the
/// built-in groups `static-analysis` and `all`, else a built-in check.
/// Fails on the first unknown name, on a requested built-in check whose
/// tool is missing (within a group such a check is skipped instead), and on
/// a label that two of the resolved checks share.
pub fn resolve_checks(names: &[String], config: &Option<ConfigFile>, installed_tools: &[String]) -> (r:
    Result<ResolvedChecks, CheckError>)
    requires
        !(resolution_of(
            strings_view(names@),
            config_view(*config),
            strings_view(installed_tools@),
        ) is OutOfFuel),
    ensures
        match r {
            Ok(rc) => resolve_result(
                strings_view(names@),
                config_view(*config),
                strings_view(installed_tools@),
            ) == Ok::<ResolvedV, CheckErrorV>(rc@),
            Err(e) => resolve_result(
                strings_view(names@),
                config_view(*config),
                strings_view(installed_tools@),
            ) == Err::<ResolvedV, CheckErrorV>(e@),
        },
{
    let mut specs: Vec<RunSpec> = Vec::new();
    let mut skipped: Vec<SkippedCheck> = Vec::new();
    match resolve_all(names, config, installed_tools, &mut specs, &mut skipped) {
        Outcome::Done => {},
        Outcome::Failed(e) => return Err(e),
        Outcome::OutOfFuel => return Err(CheckError::UnknownCheck(String::new())),
    }
    match first_duplicate_label(&specs) {
        Some(l) => Err(CheckError::DuplicateLabel(l)),
        None => {
            let r = ResolvedChecks { specs, skipped };
            assert(r@ =~= ResolvedV {
                specs: specs_view(r.specs@),
                skipped: skipped_view(r.skipped@),
            });
            Ok(r)
        },
    }
}

/// The line that tells of a skipped check.
pub open spec fn skip_line(k: SkippedV) -> Seq<char> {
    "skip "@ + k.label + ": "@ + k.reason + "\n"@
}

/// The lines that tell of the skipped checks, in order.
pub fn skip_lines(skipped: &[SkippedCheck]) -> (r: String)
    ensures
        r@ == join_all(skipped_view(skipped@).map_values(|k: SkippedV| skip_line(k))),
{
    let ghost ks = skipped_view(skipped@);
    let ghost ls = ks.map_values(|k: SkippedV| skip_line(k));
    let mut out: Vec<char> = Vec::new();
    let mut i: usize = 0;
    while i < skipped.len()
        invariant
            i <= skipped.len(),
            ks == skipped_view(skipped@),
            ls == ks.map_values(|k: SkippedV| skip_line(k)),
            out@ == join_all(ls.subrange(0, i as int)),
        decreases skipped.len() - i,
    {
        let ghost prev = out@;
        push_all(&mut out, chars_of("skip ").as_slice());
        push_all(&mut out, chars_of(skipped[i].label.as_str()).as_slice());
        push_all(&mut out, chars_of(": ").as_slice());
        push_all(&mut out, chars_of(skipped[i].reason.as_str()).as_slice());
        push_all(&mut out, chars_of("\n").as_slice());
        proof {
            assert(ls[i as int] == skip_line(skipped@[i as int]@));
            assert(ls.subrange(0, i + 1).drop_last() =~= ls.subrange(0, i as int));
            assert(ls.subrange(0, i + 1).last() == ls[i as int]);
            assert(out@ =~= prev + ls[i as int]);
        }
        i = i + 1;
    }
    assert(ls.subrange(0, ls.len() as int) =~= ls);
    string_from(out.as_slice())
}

/// How a suite run starts, before any check runs.
pub enum SuiteStart {
    /// Print the text and exit with the code: the list of checks where none
    /// is named (code 0), a configuration or resolution error (code 2), or
    /// the skipped checks where nothing is left to run (code 0).
    Exit { text: String, code: i32 },
    /// Tell of the skipped checks, then run the resolved checks.
    Run(ResolvedChecks),
}

pub enum SuiteStartV {
    Exit { text: Seq<char>, code: i32 },
    Run(ResolvedV),
}

impl View for SuiteStart {
    type V = SuiteStartV;

    open spec fn view(&self) -> SuiteStartV {
        match self {
            SuiteStart::Exit { text, code } => SuiteStartV::Exit { text: text@, code: *code },
            SuiteStart::Run(r) => SuiteStartV::Run(r@),
        }
    }
}

pub open spec fn skip_text(ks: Seq<SkippedV>) -> Seq<char> {
    join_all(ks.map_values(|k: SkippedV| skip_line(k)))
}

/// How a suite run starts, given the names, the project configuration as
/// read (or why it could not be), and the installed optional tools.
pub open spec fn suite_start_of(
    names: Seq<Seq<char>>,
    config: Result<Option<ConfigV>, Seq<char>>,
    tools: Seq<Seq<char>>,
) -> SuiteStartV {
    if names.len() == 0 {
        SuiteStartV::Exit { text: checks_listing(), code: 0 }
    } else {
        match config {
            Err(m) => SuiteStartV::Exit { text: m + "\n"@, code: 2 },
            Ok(cfg) => if resolution_of(names, cfg, tools) is OutOfFuel {
                SuiteStartV::Exit { text: "a check group contains itself\n"@, code: 2 }
            } else {
                match resolve_result(names, cfg, tools) {
                    Err(e) => SuiteStartV::Exit { text: error_message(e) + "\n"@, code: 2 },
                    Ok(r) => if r.specs.len() == 0 {
                        SuiteStartV::Exit { text: skip_text(r.skipped), code: 0 }
                    } else {
                        SuiteStartV::Run(r)
                    },
                }
            },
        }
    }
}

pub open spec fn config_result_view(c: Result<Option<ConfigFile>, String>) -> Result<Option<ConfigV>, Seq<char>> {
    match c {
        Ok(cfg) => Ok(config_view(cfg)),
        Err(m) => Err(m@),
    }
}

/// How a suite run starts: lists the checks where none is named, stops
/// with code 2 on a configuration or resolution error, stops with code 0
/// where every check was skipped, and else runs the resolved checks.
pub fn suite_start(names: &[String], config: &Result<Option<ConfigFile>, String>, installed_tools: &[String]) -> (r:
    SuiteStart)
    ensures
        r@ == suite_start_of(strings_view(names@), config_result_view(*config), strings_view(installed_tools@)),
{
    if names.len() == 0 {
        return SuiteStart::Exit { text: list_checks(), code: 0 };
    }
    let cfg = match config {
        Err(m) => {
            let mut t = chars_of(m.as_str());
            push_all(&mut t, chars_of("\n").as_slice());
            return SuiteStart::Exit { text: string_from(t.as_slice()), code: 2 };
        },
        Ok(cfg) => cfg,
    };
    if !resolution_terminates(names, cfg, installed_tools) {
        return SuiteStart::Exit { text: string_of("a check group contains itself\n"), code: 2 };
    }
    match resolve_checks(names, cfg, installed_tools) {
        Err(e) => {
            let mut t = chars_of(e.message().as_str());
            push_all(&mut t, chars_of("\n").as_slice());
            SuiteStart::Exit { text: string_from(t.as_slice()), code: 2 }
        },
        Ok(r) => if r.specs.len() == 0 {
            SuiteStart::Exit { text: skip_lines(r.skipped.as_slice()), code: 0 }
        } else {
            SuiteStart::Run(r)
        },
    }
}

// --- laws of resolution ---

/// A name that the configuration (if any) gives neither to a check nor to
/// a group.
pub open spec fn unconfigured(cfg: Option<ConfigV>, name: Seq<char>) -> bool {
    match cfg {
        Some(c) => first_check_named(c.checks, name) is None && first_group_named(c.groups, name) is None,
        None => true,
    }
}

proof fn lemma_no_first_duplicate(ls: Seq<Seq<char>>)
    requires
        first_duplicate(ls) is None,
    ensures
        forall|i: int, j: int| 0 <= i < j < ls.len() ==> (#[trigger] ls[i]) != (#[trigger] ls[j]),
    decreases ls.len(),
{
    if ls.len() > 0 {
        let pre = ls.drop_last();
        lemma_no_first_duplicate(pre);
        assert forall|i: int, j: int| 0 <= i < j < ls.len() implies (#[trigger] ls[i]) != (
        #[trigger] ls[j]) by {
            if j == ls.len() - 1 {
                if ls[i] == ls[j] {
                    assert(pre[i] == ls.last());
                    assert(pre.contains(ls.last()));
                }
            } else {
                assert(pre[i] == ls[i] && pre[j] == ls[j]);
            }
        }
    }
}

/// Each check that a list of names resolves to runs under a label of its
/// own: no two resolved checks share a label.
pub proof fn law_resolved_labels_distinct(
    names: Seq<Seq<char>>,
    cfg: Option<ConfigV>,
    tools: Seq<Seq<char>>,
)
    ensures
        resolve_result(names, cfg, tools) matches Ok(r) ==> forall|i: int, j: int|
            0 <= i < j < r.specs.len() ==> (#[trigger] r.specs[i]).label != (#[trigger] r.specs[j]).label,
{
    if let Resolution::Resolved(s, k) = resolution_of(names, cfg, tools) {
        if first_duplicate(labels_of(s)) is None {
            lemma_no_first_duplicate(labels_of(s));
            assert forall|i: int, j: int| 0 <= i < j < s.len() implies (#[trigger] s[i]).label != (
            #[trigger] s[j]).label by {
                assert(labels_of(s)[i] == s[i].label && labels_of(s)[j] == s[j].label);
            }
        }
    }
}

/// The built-in check that runs where its tool is installed, else the
/// skip it gives within a group.
pub open spec fn group_member(b: BuiltinV, tools: Seq<Seq<char>>) -> (Seq<RunSpecV>, Seq<SkippedV>) {
    if tool_missing(b, tools) {
        (Seq::empty(), seq![not_installed(b)])
    } else {
        (seq![builtin_run_spec(b)], Seq::empty())
    }
}

proof fn lemma_group_step(
    names: Seq<Seq<char>>,
    tools: Seq<Seq<char>>,
    specs: Seq<RunSpecV>,
    skipped: Seq<SkippedV>,
    b: BuiltinV,
)
    requires
        names.len() > 0,
        builtin_named(names.last()) == Some(b),
    ensures
        resolve_builtin_group(names, tools, specs, skipped) == ({
            let (s, k) = resolve_builtin_group(names.drop_last(), tools, specs, skipped);
            (s + group_member(b, tools).0, k + group_member(b, tools).1)
        }),
{
    let (s, k) = resolve_builtin_group(names.drop_last(), tools, specs, skipped);
    assert(s.push(builtin_run_spec(b)) =~= s + seq![builtin_run_spec(b)]);
    assert(k.push(not_installed(b)) =~= k + seq![not_installed(b)]);
    assert(s =~= s + Seq::<RunSpecV>::empty());
    assert(k =~= k + Seq::<SkippedV>::empty());
}

proof fn lemma_distinct_no_duplicate(ls: Seq<Seq<char>>)
    requires
        forall|i: int, j: int| 0 <= i < j < ls.len() ==> (#[trigger] ls[i]).len() != (#[trigger] ls[j]).len(),
    ensures
        first_duplicate(ls) is None,
    decreases ls.len(),
{
    if ls.len() > 0 {
        let pre = ls.drop_last();
        lemma_distinct_no_duplicate(pre);
        if pre.contains(ls.last()) {
            let k = choose|k: int| 0 <= k < pre.len() && pre[k] == ls.last();
            assert(ls[k] == pre[k]);
            assert(ls[k].len() != ls[ls.len() - 1].len());
        }
    }
}

/// A single built-in group resolves to what the group expands to, where no
/// configured check or group takes its name.
proof fn lemma_builtin_group_resolution(
    name: Seq<char>,
    cfg: Option<ConfigV>,
    tools: Seq<Seq<char>>,
    specs: Seq<RunSpecV>,
    skipped: Seq<SkippedV>,
)
    requires
        unconfigured(cfg, name),
        name == "static-analysis"@ || name == "all"@,
        resolve_builtin_name(name, tools, false, Seq::empty(), Seq::empty()) == Resolution::Resolved(
            specs,
            skipped,
        ),
        forall|i: int, j: int|
            0 <= i < j < specs.len() ==> (#[trigger] specs[i]).label.len() != (#[trigger] specs[j]).label.len(),
    ensures
        resolve_result(seq![name], cfg, tools) == Ok::<ResolvedV, CheckErrorV>(
            ResolvedV { specs: specs, skipped: skipped },
        ),
{
    let names = seq![name];
    assert(names.drop_last() =~= Seq::<Seq<char>>::empty());
    assert(names.last() == name);
    assert(resolve_name(cfg, tools, name, false, group_count(cfg), Seq::empty(), Seq::empty())
        == Resolution::Resolved(specs, skipped));
    assert(resolve_names(cfg, tools, names.drop_last(), false, group_count(cfg), Seq::empty(), Seq::empty())
        == Resolution::Resolved(Seq::<RunSpecV>::empty(), Seq::<SkippedV>::empty()));
    assert(resolution_of(names, cfg, tools) == Resolution::Resolved(specs, skipped));
    let ls = labels_of(specs);
    assert forall|i: int, j: int| 0 <= i < j < ls.len() implies (#[trigger] ls[i]).len() != (
    #[trigger] ls[j]).len() by {
        assert(ls[i] == specs[i].label && ls[j] == specs[j].label);
    }
    lemma_distinct_no_duplicate(ls);
}

/// The `static-analysis` group never fails for want of a tool: each of its
/// checks runs where its tool is installed and is skipped where it is not.
pub proof fn law_static_analysis_skips_missing_tools(cfg: Option<ConfigV>, tools: Seq<Seq<char>>)
    requires
        unconfigured(cfg, "static-analysis"@),
    ensures
        resolve_result(seq!["static-analysis"@], cfg, tools) == Ok::<ResolvedV, CheckErrorV>(
            ResolvedV {
                specs: group_member(builtin_cargo_deny(), tools).0 + group_member(
                    builtin_cargo_machete(),
                    tools,
                ).0,
                skipped: group_member(builtin_cargo_deny(), tools).1 + group_member(
                    builtin_cargo_machete(),
                    tools,
                ).1,
            },
        ),
{
    lemma_builtin_names();
    reveal_strlit("cargo-deny");
    reveal_strlit("cargo-machete");
    let e0 = Seq::<RunSpecV>::empty();
    let k0 = Seq::<SkippedV>::empty();
    let sa = static_analysis_names();
    let deny = group_member(builtin_cargo_deny(), tools);
    let machete = group_member(builtin_cargo_machete(), tools);
    assert(sa.drop_last().last() == all_names()[3] && sa.last() == all_names()[4]);
    assert(sa.drop_last().drop_last() =~= Seq::<Seq<char>>::empty());
    lemma_group_step(sa.drop_last(), tools, e0, k0, builtin_cargo_deny());
    lemma_group_step(sa, tools, e0, k0, builtin_cargo_machete());
    assert(e0 + deny.0 =~= deny.0);
    assert(k0 + deny.1 =~= deny.1);
    let specs = deny.0 + machete.0;
    assert(resolve_builtin_group(sa, tools, e0, k0) == (specs, deny.1 + machete.1));
    assert forall|i: int, j: int| 0 <= i < j < specs.len() implies (#[trigger] specs[i]).label.len()
        != (#[trigger] specs[j]).label.len() by {
        assert(specs[i].label == "cargo-deny"@ && specs[j].label == "cargo-machete"@);
    }
    lemma_builtin_group_resolution("static-analysis"@, cfg, tools, specs, deny.1 + machete.1);
}

/// The `all` group runs `format-check`, `clippy` and `test`, then each
/// static-analysis check whose tool is installed; the others are skipped.
pub proof fn law_all_group_runs_installed_checks(cfg: Option<ConfigV>, tools: Seq<Seq<char>>)
    requires
        unconfigured(cfg, "all"@),
    ensures
        resolve_result(seq!["all"@], cfg, tools) == Ok::<ResolvedV, CheckErrorV>(
            ResolvedV {
                specs: seq![
                    builtin_run_spec(builtin_format_check()),
                    builtin_run_spec(builtin_clippy()),
                    builtin_run_spec(builtin_test()),
                ] + group_member(builtin_cargo_deny(), tools).0 + group_member(
                    builtin_cargo_machete(),
                    tools,
                ).0,
                skipped: group_member(builtin_cargo_deny(), tools).1 + group_member(
                    builtin_cargo_machete(),
                    tools,
                ).1,
            },
        ),
{
    lemma_builtin_names();
    reveal_strlit("all");
    reveal_strlit("static-analysis");
    reveal_strlit("format-check");
    reveal_strlit("clippy");
    reveal_strlit("test");
    reveal_strlit("cargo-deny");
    reveal_strlit("cargo-machete");
    let e0 = Seq::<RunSpecV>::empty();
    let k0 = Seq::<SkippedV>::empty();
    let al = all_names();
    let n1 = al.drop_last().drop_last().drop_last().drop_last();
    let n2 = al.drop_last().drop_last().drop_last();
    let n3 = al.drop_last().drop_last();
    let n4 = al.drop_last();
    assert(n1.drop_last() =~= Seq::<Seq<char>>::empty());
    assert(n1.last() == al[0] && n2.last() == al[1] && n3.last() == al[2] && n4.last() == al[3]
        && al.last() == al[4]);
    let fc = group_member(builtin_format_check(), tools);
    let cl = group_member(builtin_clippy(), tools);
    let te = group_member(builtin_test(), tools);
    let deny = group_member(builtin_cargo_deny(), tools);
    let machete = group_member(builtin_cargo_machete(), tools);
    lemma_group_step(n1, tools, e0, k0, builtin_format_check());
    lemma_group_step(n2, tools, e0, k0, builtin_clippy());
    lemma_group_step(n3, tools, e0, k0, builtin_test());
    lemma_group_step(n4, tools, e0, k0, builtin_cargo_deny());
    lemma_group_step(al, tools, e0, k0, builtin_cargo_machete());
    let base = seq![
        builtin_run_spec(builtin_format_check()),
        builtin_run_spec(builtin_clippy()),
        builtin_run_spec(builtin_test()),
    ];
    assert(e0 + fc.0 + cl.0 + te.0 =~= base);
    assert(k0 + fc.1 + cl.1 + te.1 =~= k0);
    assert(k0 + deny.1 =~= deny.1);
    let specs = base + deny.0 + machete.0;
    assert(resolve_builtin_group(al, tools, e0, k0) == (specs, deny.1 + machete.1));
    assert("all"@ != "static-analysis"@) by {
        assert("all"@.len() == 3 && "static-analysis"@.len() == 15);
    }
    assert forall|i: int, j: int| 0 <= i < j < specs.len() implies (#[trigger] specs[i]).label.len()
        != (#[trigger] specs[j]).label.len() by {
        assert(specs[0].label.len() == 12 && specs[1].label.len() == 6 && specs[2].label.len() == 4);
        if specs.len() == 5 {
            assert(specs[3].label.len() == 10 && specs[4].label.len() == 13);
        } else if specs.len() == 4 {
            assert(specs[3].label.len() == 10 || specs[3].label.len() == 13);
        }
    }
    lemma_builtin_group_resolution("all"@, cfg, tools, specs, deny.1 + machete.1);
}

/// A built-in check requested by name whose tool is missing is refused,
/// not skipped.
pub proof fn law_named_check_needs_its_tool(name: Seq<char>, cfg: Option<ConfigV>, tools: Seq<Seq<char>>)
    requires
        unconfigured(cfg, name),
        builtin_named(name) matches Some(b) && tool_missing(b, tools),
    ensures
        resolve_result(seq![name], cfg, tools) == Err::<ResolvedV, CheckErrorV>(
            CheckErrorV::MissingTool { name: name, tool: builtin_named(name)->0.required_tool->0 },
        ),
{
    reveal_strlit("static-analysis");
    reveal_strlit("all");
    reveal_strlit("format-check");
    reveal_strlit("clippy");
    reveal_strlit("test");
    reveal_strlit("cargo-deny");
    reveal_strlit("cargo-machete");
    assert(name.len() == 12 || name.len() == 6 || name.len() == 4 || name.len() == 10 || name.len()
        == 13);
    assert(name != "static-analysis"@ && name != "all"@);
    let names = seq![name];
    let b = builtin_named(name)->0;
    assert(names.drop_last() =~= Seq::<Seq<char>>::empty());
    assert(names.last() == name);
    let err = CheckErrorV::MissingTool { name: name, tool: b.required_tool->0 };
    assert(resolve_builtin_name(name, tools, false, Seq::empty(), Seq::empty()) == Resolution::Failed(err));
    assert(resolve_name(cfg, tools, name, false, group_count(cfg), Seq::empty(), Seq::empty())
        == Resolution::Failed(err));
    assert(resolve_names(cfg, tools, names.drop_last(), false, group_count(cfg), Seq::empty(), Seq::empty())
        == Resolution::Resolved(Seq::<RunSpecV>::empty(), Seq::<SkippedV>::empty()));
    assert(resolution_of(names, cfg, tools) == Resolution::Failed(err));
}

/// A configured check is what its name runs, ahead of a built-in check or
/// group of the same name.
pub proof fn law_configured_check_wins(name: Seq<char>, c: ConfigV, tools: Seq<Seq<char>>)
    requires
        first_check_named(c.checks, name) is Some,
    ensures
        resolve_result(seq![name], Some(c), tools) == Ok::<ResolvedV, CheckErrorV>(
            ResolvedV {
                specs: seq![config_run_spec(first_check_named(c.checks, name)->0)],
                skipped: Seq::empty(),
            },
        ),
{
    let names = seq![name];
    let cfg = Some(c);
    assert(names.drop_last() =~= Seq::<Seq<char>>::empty());
    assert(names.last() == name);
    let specs = seq![config_run_spec(first_check_named(c.checks, name)->0)];
    assert(Seq::<RunSpecV>::empty().push(specs[0]) =~= specs);
    assert(resolve_name(cfg, tools, name, false, group_count(cfg), Seq::empty(), Seq::empty())
        == Resolution::Resolved(specs, Seq::<SkippedV>::empty()));
    assert(resolve_names(cfg, tools, names.drop_last(), false, group_count(cfg), Seq::empty(), Seq::empty())
        == Resolution::Resolved(Seq::<RunSpecV>::empty(), Seq::<SkippedV>::empty()));
    assert(resolution_of(names, cfg, tools) == Resolution::Resolved(specs, Seq::<SkippedV>::empty()));
    assert(labels_of(specs).drop_last() =~= Seq::<Seq<char>>::empty());
    assert(first_duplicate(labels_of(specs).drop_last()) is None);
    assert(first_duplicate(labels_of(specs)) is None);
}

/// A configured group is what its name runs, ahead of a built-in group or
/// check of the same name: its names, resolved in turn as group members.
pub proof fn law_configured_group_wins(name: Seq<char>, c: ConfigV, tools: Seq<Seq<char>>)
    requires
        first_check_named(c.checks, name) is None,
        first_group_named(c.groups, name) is Some,
    ensures
        c.groups.len() > 0,
        resolution_of(seq![name], Some(c), tools) == resolve_names(
            Some(c),
            tools,
            first_group_named(c.groups, name)->0.checks,
            true,
            (c.groups.len() - 1) as nat,
            Seq::empty(),
            Seq::empty(),
        ),
{
    let names = seq![name];
    assert(names.drop_last() =~= Seq::<Seq<char>>::empty());
    assert(names.last() == name);
    assert(resolve_names(Some(c), tools, names.drop_last(), false, c.groups.len(), Seq::empty(), Seq::empty())
        == Resolution::Resolved(Seq::<RunSpecV>::empty(), Seq::<SkippedV>::empty()));
    let g = first_group_named(c.groups, name)->0;
    assert(c.groups.len() > 0);
    assert(resolve_name(Some(c), tools, name, false, c.groups.len(), Seq::empty(), Seq::empty())
        == resolve_names(Some(c), tools, g.checks, true, (c.groups.len() - 1) as nat, Seq::empty(), Seq::empty()));
    assert(group_count(Some(c)) == c.groups.len());
}

// ---------------------------------------------------------------------------
// Suites
// ---------------------------------------------------------------------------

/// The checks to run as a suite, where their logs go, and the report limits.
#[derive(Debug, Clone)]
pub struct SuiteOptions {
    pub checks: Vec<String>,
    pub log_dir: String,
    pub limits: SummaryLimits,
}

/// How one check of a suite ended: its result, or why it could not run.
#[derive(Debug)]
pub struct SuiteStatus {
    pub label: String,
    pub mode: Mode,
    pub command: Vec<String>,
    pub elapsed_ms: u64,
    pub result: Result<RunResult, String>,
}

/// The statuses of a suite's checks, in the order they were requested, and
/// the indices of those statuses in the order the checks finished.
#[derive(Debug)]
pub struct SuiteSummary {
    pub statuses: Vec<SuiteStatus>,
    pub finished: Vec<usize>,
}

pub struct RunResultV {
    pub exit_code: i32,
    pub log_path: Seq<char>,
    pub output: Seq<u8>,
}

pub struct SuiteStatusV {
    pub label: Seq<char>,
    pub mode: Mode,
    pub command: Seq<Seq<char>>,
    pub elapsed_ms: nat,
    pub result: Result<RunResultV, Seq<char>>,
}

impl View for SuiteStatus {
    type V = SuiteStatusV;

    open spec fn view(&self) -> SuiteStatusV {
        SuiteStatusV {
            label: self.label@,
            mode: self.mode,
            command: strings_view(self.command@),
            elapsed_ms: self.elapsed_ms as nat,
            result: match self.result {
                Ok(r) => Ok(
                    RunResultV { exit_code: r.exit_code, log_path: r.log_path@, output: r.output@ },
                ),
                Err(e) => Err(e@),
            },
        }
    }
}

pub open spec fn statuses_view(v: Seq<SuiteStatus>) -> Seq<SuiteStatusV> {
    v.map_values(|s: SuiteStatus| s@)
}

/// What a worker reports of a check it ran: how long it took, in
/// milliseconds, and its result or why it could not run.
pub open spec fn outcome_view(o: Option<(u64, Result<RunResult, String>)>) -> Option<
    (nat, Result<RunResultV, Seq<char>>),
> {
    match o {
        Some((ms, Ok(r))) => Some(
            (
                ms as nat,
                Ok(RunResultV { exit_code: r.exit_code, log_path: r.log_path@, output: r.output@ }),
            ),
        ),
        Some((ms, Err(e))) => Some((ms as nat, Err(e@))),
        None => None,
    }
}

/// The status of a check: what its worker reported, or, where the worker
/// reported nothing, that it did not, after the time waited for it.
pub open spec fn worker_status(
    spec: RunSpecV,
    outcome: Option<(nat, Result<RunResultV, Seq<char>>)>,
    waited_ms: nat,
) -> SuiteStatusV {
    match outcome {
        Some((ms, result)) => SuiteStatusV {
            label: spec.label,
            mode: spec.mode,
            command: spec.command,
            elapsed_ms: ms,
            result: result,
        },
        None => SuiteStatusV {
            label: spec.label,
            mode: spec.mode,
            command: spec.command,
            elapsed_ms: waited_ms,
            result: Err("suite worker did not return a result"@),
        },
    }
}

/// The statuses of a suite's checks, in the order of the checks, from what
/// the workers reported for each (a missing report counts as none), with
/// the order in which the checks finished.
pub fn collect_statuses(
    specs: &[RunSpec],
    outcomes: Vec<Option<(u64, Result<RunResult, String>)>>,
    waited_ms: &[u64],
    finished: Vec<usize>,
) -> (r: SuiteSummary)
    ensures
        r.finished@ == finished@,
        r.statuses@.len() == specs@.len(),
        forall|i: int|
            0 <= i < specs@.len() ==> (#[trigger] r.statuses@[i])@ == worker_status(
                specs@[i]@,
                if i < outcomes@.len() {
                    outcome_view(outcomes@[i])
                } else {
                    None
                },
                if i < waited_ms@.len() {
                    waited_ms@[i] as nat
                } else {
                    0
                },
            ),
{
    let ghost all = outcomes@;
    let mut rest = outcomes;
    let mut statuses: Vec<SuiteStatus> = Vec::new();
    let mut i: usize = 0;
    while i < specs.len()
        invariant
            i <= specs.len(),
            statuses@.len() == i,
            i <= all.len() ==> rest@ == all.subrange(i as int, all.len() as int),
            i > all.len() ==> rest@.len() == 0,
            forall|k: int|
                0 <= k < i ==> (#[trigger] statuses@[k])@ == worker_status(
                    specs@[k]@,
                    if k < all.len() {
                        outcome_view(all[k])
                    } else {
                        None
                    },
                    if k < waited_ms@.len() {
                        waited_ms@[k] as nat
                    } else {
                        0
                    },
                ),
        decreases specs.len() - i,
    {
        let outcome = if rest.len() > 0 {
            rest.remove(0)
        } else {
            None
        };
        let waited: u64 = if i < waited_ms.len() {
            waited_ms[i]
        } else {
            0
        };
        let spec = &specs[i];
        let label = spec.label.clone();
        let command = spec.command.clone();
        assert(strings_view(command@) =~= strings_view(spec.command@));
        let status = match outcome {
            Some((ms, result)) => SuiteStatus {
                label,
                mode: spec.mode,
                command,
                elapsed_ms: ms,
                result,
            },
            None => SuiteStatus {
                label,
                mode: spec.mode,
                command,
                elapsed_ms: waited,
                result: Err(string_of("suite worker did not return a result")),
            },
        };
        proof {
            let o = if (i as int) < all.len() {
                outcome_view(all[i as int])
            } else {
                None
            };
            assert(status@ == worker_status(specs@[i as int]@, o, waited as nat));
        }
        statuses.push(status);
        i = i + 1;
    }
    SuiteSummary { statuses, finished }
}

/// A check failed: it exited with a non-zero code, or did not run.
pub open spec fn status_failed(s: SuiteStatusV) -> bool {
    match s.result {
        Ok(r) => r.exit_code != 0,
        Err(_) => true,
    }
}

pub open spec fn failed_count(ss: Seq<SuiteStatusV>) -> nat
    decreases ss.len(),
{
    if ss.len() == 0 {
        0
    } else {
        failed_count(ss.drop_last()) + if status_failed(ss.last()) {
            1nat
        } else {
            0nat
        }
    }
}

/// The exit code that a check's status stands for: the check's own, or 1
/// where it could not run.
pub open spec fn status_exit_code(s: SuiteStatusV) -> int {
    match s.result {
        Ok(r) => r.exit_code as int,
        Err(_) => 1,
    }
}

/// The first index, in the given order, of a failed status.
pub open spec fn first_failed_in(order: Seq<usize>, ss: Seq<SuiteStatusV>) -> Option<int>
    decreases order.len(),
{
    if order.len() == 0 {
        None
    } else if order[0] < ss.len() && status_failed(ss[order[0] as int]) {
        Some(order[0] as int)
    } else {
        first_failed_in(order.drop_first(), ss)
    }
}

/// The first failed status from index `i` on.
pub open spec fn first_failed_from(ss: Seq<SuiteStatusV>, i: int) -> Option<int>
    decreases ss.len() - i,
{
    if i < 0 || i >= ss.len() {
        None
    } else if status_failed(ss[i]) {
        Some(i)
    } else {
        first_failed_from(ss, i + 1)
    }
}

/// The check whose failure decides a suite's exit code: the first to fail
/// in the order the checks finished, else (for a check that never reported)
/// the first failed one in the order they were requested.
pub open spec fn deciding_failure(ss: Seq<SuiteStatusV>, finished: Seq<usize>) -> Option<int> {
    match first_failed_in(finished, ss) {
        Some(i) => Some(i),
        None => first_failed_from(ss, 0),
    }
}

/// The exit code of a suite: that of the first check to fail, 0 where none
/// failed.
pub open spec fn suite_exit_code_of(ss: Seq<SuiteStatusV>, finished: Seq<usize>) -> int {
    match deciding_failure(ss, finished) {
        Some(i) => status_exit_code(ss[i]),
        None => 0,
    }
}

/// The exit code of a suite: the exit code of the first check to fail (1
/// for one that could not run), else 0.
pub fn suite_exit_code(summary: &SuiteSummary) -> (r: i32)
    ensures
        r == suite_exit_code_of(statuses_view(summary.statuses@), summary.finished@),
{
    let ghost sv = statuses_view(summary.statuses@);
    let ghost fin = summary.finished@;
    assert(fin.subrange(0, fin.len() as int) =~= fin);
    let mut k: usize = 0;
    while k < summary.finished.len()
        invariant
            k <= fin.len(),
            sv == statuses_view(summary.statuses@),
            fin == summary.finished@,
            first_failed_in(fin, sv) == first_failed_in(fin.subrange(k as int, fin.len() as int), sv),
        decreases fin.len() - k,
    {
        let ghost rest = fin.subrange(k as int, fin.len() as int);
        assert(rest[0] == fin[k as int]);
        let i = summary.finished[k];
        if i < summary.statuses.len() && is_failed(&summary.statuses[i]) {
            assert(first_failed_in(rest, sv) == Some(i as int));
            return exit_code_of(&summary.statuses[i]);
        }
        assert(rest.drop_first() =~= fin.subrange(k + 1, fin.len() as int));
        k = k + 1;
    }
    assert(first_failed_in(fin.subrange(k as int, fin.len() as int), sv) is None);
    let mut i: usize = 0;
    while i < summary.statuses.len()
        invariant
            i <= sv.len(),
            sv == statuses_view(summary.statuses@),
            fin == summary.finished@,
            first_failed_in(fin, sv) is None,
            first_failed_from(sv, 0) == first_failed_from(sv, i as int),
        decreases sv.len() - i,
    {
        if is_failed(&summary.statuses[i]) {
            return exit_code_of(&summary.statuses[i]);
        }
        i = i + 1;
    }
    0
}

/// Whether a check's result is a failure: a non-zero exit code, or a
/// check that could not run; the first such result stops the others.
pub fn result_failed(result: &Result<RunResult, String>) -> (r: bool)
    ensures
        r == (match result {
            Ok(res) => res.exit_code != 0,
            Err(_) => true,
        }),
{
    match result {
        Ok(res) => res.exit_code != 0,
        Err(_) => true,
    }
}

fn exit_code_of(s: &SuiteStatus) -> (r: i32)
    ensures
        r == status_exit_code(s@),
{
    match &s.result {
        Ok(r) => r.exit_code,
        Err(_) => 1,
    }
}

proof fn lemma_first_failed_from_none(ss: Seq<SuiteStatusV>, i: int)
    requires
        0 <= i <= ss.len(),
    ensures
        first_failed_from(ss, i) is None <==> forall|k: int| i <= k < ss.len() ==> !status_failed(
            #[trigger] ss[k],
        ),
        first_failed_from(ss, i) matches Some(k) ==> i <= k < ss.len() && status_failed(ss[k]),
    decreases ss.len() - i,
{
    if i < ss.len() {
        lemma_first_failed_from_none(ss, i + 1);
    }
}

proof fn lemma_first_failed_in(order: Seq<usize>, ss: Seq<SuiteStatusV>)
    ensures
        first_failed_in(order, ss) matches Some(k) ==> 0 <= k < ss.len() && status_failed(ss[k]),
    decreases order.len(),
{
    if order.len() > 0 {
        lemma_first_failed_in(order.drop_first(), ss);
    }
}

proof fn lemma_failed_count_zero(ss: Seq<SuiteStatusV>)
    ensures
        failed_count(ss) == 0 <==> forall|k: int| 0 <= k < ss.len() ==> !status_failed(#[trigger] ss[k]),
    decreases ss.len(),
{
    if ss.len() > 0 {
        lemma_failed_count_zero(ss.drop_last());
        if failed_count(ss) == 0 {
            assert forall|k: int| 0 <= k < ss.len() implies !status_failed(#[trigger] ss[k]) by {
                if k < ss.len() - 1 {
                    assert(ss.drop_last()[k] == ss[k]);
                }
            }
        }
        if forall|k: int| 0 <= k < ss.len() ==> !status_failed(#[trigger] ss[k]) {
            assert forall|k: int| 0 <= k < ss.drop_last().len() implies !status_failed(
                #[trigger] ss.drop_last()[k],
            ) by {
                assert(ss.drop_last()[k] == ss[k]);
            }
            assert(!status_failed(ss[ss.len() - 1]));
        }
    }
}

/// A suite exits with 0 exactly when none of its checks failed; otherwise
/// with the exit code of a failed check, the first to fail in the order
/// the checks finished where that order holds one.
pub proof fn law_suite_exit_code_is_first_failure(ss: Seq<SuiteStatusV>, finished: Seq<usize>)
    ensures
        suite_exit_code_of(ss, finished) == 0 <==> failed_count(ss) == 0,
        deciding_failure(ss, finished) matches Some(i) ==> 0 <= i < ss.len() && status_failed(ss[i])
            && suite_exit_code_of(ss, finished) == status_exit_code(ss[i]),
        first_failed_in(finished, ss) matches Some(i) ==> suite_exit_code_of(ss, finished)
            == status_exit_code(ss[i]),
{
    lemma_first_failed_in(finished, ss);
    lemma_first_failed_from_none(ss, 0);
    lemma_failed_count_zero(ss);
}

fn is_failed(s: &SuiteStatus) -> (r: bool)
    ensures
        r == status_failed(s@),
{
    match &s.result {
        Ok(r) => r.exit_code != 0,
        Err(_) => true,
    }
}

fn count_failed(statuses: &Vec<SuiteStatus>) -> (r: u64)
    ensures
        r as nat == failed_count(statuses_view(statuses@)),
{
    let ghost sv = statuses_view(statuses@);
    let mut n: u64 = 0;
    let mut i: usize = 0;
    while i < statuses.len()
        invariant
            i <= statuses.len(),
            sv == statuses_view(statuses@),
            n as nat == failed_count(sv.subrange(0, i as int)),
            n <= i,
        decreases statuses.len() - i,
    {
        assert(sv.subrange(0, i + 1).drop_last() =~= sv.subrange(0, i as int));
        if is_failed(&statuses[i]) {
            n = n + 1;
        }
        i = i + 1;
    }
    assert(sv.subrange(0, sv.len() as int) =~= sv);
    n
}

/// How long a check took: milliseconds under a second, else whole seconds.
pub open spec fn elapsed_text(ms: nat) -> Seq<char> {
    if ms / 1000 == 0 {
        decimal(ms) + "ms"@
    } else if ms / 1000 == 1 {
        "1s"@
    } else {
        decimal(ms / 1000) + "s"@
    }
}

pub fn elapsed_seconds(elapsed_ms: u64) -> (r: String)
    ensures
        r@ == elapsed_text(elapsed_ms as nat),
{
    let secs = elapsed_ms / 1000;
    let mut out: Vec<char>;
    if secs == 0 {
        out = decimal_chars(elapsed_ms);
        push_all(&mut out, chars_of("ms").as_slice());
    } else if secs == 1 {
        out = chars_of("1s");
    } else {
        out = decimal_chars(secs);
        push_all(&mut out, chars_of("s").as_slice());
    }
    string_from(out.as_slice())
}

/// The status line of a check: `ok`, `fail` or `error`, its label and how
/// long it took.
pub open spec fn status_line(s: SuiteStatusV) -> Seq<char> {
    (match s.result {
        Ok(r) => if r.exit_code == 0 {
            "ok "@
        } else {
            "fail "@
        },
        Err(_) => "error "@,
    }) + s.label + " ("@ + elapsed_text(s.elapsed_ms) + ")\n"@
}

/// What a suite report says of a failed check: the report of its output,
/// or why it could not run.
pub open spec fn failure_block(s: SuiteStatusV, limits: SummaryLimits) -> Seq<char> {
    match s.result {
        Ok(r) => if r.exit_code != 0 {
            "\n"@ + trim_end(
                report_of(summary_of(s.mode, s.command, r.output), r.log_path, limits, r.output),
            ) + "\n"@
        } else {
            Seq::empty()
        },
        Err(e) => "\n"@ + s.label + "\n  "@ + e + "\n"@,
    }
}

/// The report of a suite: a status line per check, what each failed check
/// gave, and how many failed.
pub open spec fn suite_report_of(ss: Seq<SuiteStatusV>, limits: SummaryLimits) -> Seq<char> {
    join_all(ss.map_values(|s: SuiteStatusV| status_line(s))) + join_all(
        ss.map_values(|s: SuiteStatusV| failure_block(s, limits)),
    ) + if failed_count(ss) > 0 {
        "fail "@ + decimal(failed_count(ss)) + "/"@ + decimal(ss.len()) + " checks failed\n"@
    } else {
        Seq::empty()
    }
}

fn push_status_line(out: &mut Vec<char>, s: &SuiteStatus)
    ensures
        final(out)@ == old(out)@ + status_line(s@),
{
    let ghost start = out@;
    match &s.result {
        Ok(r) => if r.exit_code == 0 {
            push_all(out, chars_of("ok ").as_slice());
        } else {
            push_all(out, chars_of("fail ").as_slice());
        },
        Err(_) => push_all(out, chars_of("error ").as_slice()),
    }
    push_all(out, chars_of(s.label.as_str()).as_slice());
    push_all(out, chars_of(" (").as_slice());
    push_all(out, chars_of(elapsed_seconds(s.elapsed_ms).as_str()).as_slice());
    push_all(out, chars_of(")\n").as_slice());
    assert(out@ =~= start + status_line(s@));
}

fn push_failure_block(out: &mut Vec<char>, s: &SuiteStatus, limits: &SummaryLimits)
    ensures
        final(out)@ == old(out)@ + failure_block(s@, *limits),
{
    let ghost start = out@;
    match &s.result {
        Ok(r) => if r.exit_code != 0 {
            let parsed = summarize_for_command(s.mode, s.command.as_slice(), r.output.as_slice());
            let report = render_report(&parsed, r.log_path.as_str(), limits, r.output.as_slice());
            push_all(out, chars_of("\n").as_slice());
            push_all(out, trim_end_chars(chars_of(report.as_str()).as_slice()).as_slice());
            push_all(out, chars_of("\n").as_slice());
        },
        Err(e) => {
            push_all(out, chars_of("\n").as_slice());
            push_all(out, chars_of(s.label.as_str()).as_slice());
            push_all(out, chars_of("\n  ").as_slice());
            push_all(out, chars_of(e.as_str()).as_slice());
            push_all(out, chars_of("\n").as_slice());
        },
    }
    assert(out@ =~= start + failure_block(s@, *limits));
}

/// The report of a suite run.
pub fn suite_report(summary: &SuiteSummary, limits: &SummaryLimits) -> (r: String)
    ensures
        r@ == suite_report_of(statuses_view(summary.statuses@), *limits),
{
    let ghost sv = statuses_view(summary.statuses@);
    let ghost lines = sv.map_values(|s: SuiteStatusV| status_line(s));
    let ghost blocks = sv.map_values(|s: SuiteStatusV| failure_block(s, *limits));
    let mut out: Vec<char> = Vec::new();
    let mut i: usize = 0;
    while i < summary.statuses.len()
        invariant
            i <= summary.statuses.len(),
            sv == statuses_view(summary.statuses@),
            lines == sv.map_values(|s: SuiteStatusV| status_line(s)),
            out@ == join_all(lines.subrange(0, i as int)),
        decreases summary.statuses.len() - i,
    {
        push_status_line(&mut out, &summary.statuses[i]);
        assert(lines.subrange(0, i + 1).drop_last() =~= lines.subrange(0, i as int));
        i = i + 1;
    }
    assert(lines.subrange(0, lines.len() as int) =~= lines);
    let ghost head = out@;
    let mut i: usize = 0;
    while i < summary.statuses.len()
        invariant
            i <= summary.statuses.len(),
            sv == statuses_view(summary.statuses@),
            blocks == sv.map_values(|s: SuiteStatusV| failure_block(s, *limits)),
            out@ == head + join_all(blocks.subrange(0, i as int)),
        decreases summary.statuses.len() - i,
    {
        push_failure_block(&mut out, &summary.statuses[i], limits);
        assert(blocks.subrange(0, i + 1).drop_last() =~= blocks.subrange(0, i as int));
        i = i + 1;
        assert(out@ =~= head + join_all(blocks.subrange(0, i as int)));
    }
    assert(blocks.subrange(0, blocks.len() as int) =~= blocks);
    let failed = count_failed(&summary.statuses);
    if failed > 0 {
        push_all(&mut out, chars_of("fail ").as_slice());
        push_all(&mut out, decimal_chars(failed).as_slice());
        push_all(&mut out, chars_of("/").as_slice());
        push_all(&mut out, decimal_chars(summary.statuses.len() as u64).as_slice());
        push_all(&mut out, chars_of(" checks failed\n").as_slice());
    }
    string_from(out.as_slice())
}

// ---------------------------------------------------------------------------
// Log lines
// ---------------------------------------------------------------------------

/// Where the escape sequence that starts before index `i` ends: after the
/// first ASCII letter from `i` on, or at the end of the text.
pub open spec fn csi_end(s: Seq<char>, i: int) -> int
    decreases s.len() - i,
{
    if i >= s.len() {
        s.len() as int
    } else if is_ascii_alpha(s[i]) {
        i + 1
    } else {
        csi_end(s, i + 1)
    }
}

pub proof fn lemma_csi_end_bounds(s: Seq<char>, i: int)
    requires
        0 <= i <= s.len(),
    ensures
        i <= csi_end(s, i) <= s.len(),
    decreases s.len() - i,
{
    if i < s.len() && !is_ascii_alpha(s[i]) {
        lemma_csi_end_bounds(s, i + 1);
    }
}

/// The text from index `i` on without its ANSI escape sequences (an ESC,
/// `[`, and all up to and including the next ASCII letter).
pub open spec fn strip_ansi_from(s: Seq<char>, i: int) -> Seq<char>
    decreases s.len() - i,
{
    if i < 0 || i >= s.len() {
        Seq::empty()
    } else if s[i] == '\x1b' && i + 1 < s.len() && s[i + 1] == '[' {
        proof {
            lemma_csi_end_bounds(s, i + 2);
        }
        strip_ansi_from(s, csi_end(s, i + 2))
    } else {
        seq![s[i]] + strip_ansi_from(s, i + 1)
    }
}

pub open spec fn strip_ansi_text(s: Seq<char>) -> Seq<char> {
    strip_ansi_from(s, 0)
}

proof fn lemma_strip_ansi_plain_from(s: Seq<char>, i: int)
    requires
        0 <= i <= s.len(),
        forall|k: int| 0 <= k < s.len() ==> s[k] != '\x1b',
    ensures
        strip_ansi_from(s, i) == s.subrange(i, s.len() as int),
    decreases s.len() - i,
{
    if i < s.len() {
        lemma_strip_ansi_plain_from(s, i + 1);
        assert(seq![s[i]] + s.subrange(i + 1, s.len() as int) =~= s.subrange(i, s.len() as int));
    } else {
        assert(s.subrange(i, s.len() as int) =~= Seq::<char>::empty());
    }
}

/// A line without an escape character comes through unchanged.
pub proof fn law_strip_ansi_keeps_plain_text(s: Seq<char>)
    requires
        forall|k: int| 0 <= k < s.len() ==> s[k] != '\x1b',
    ensures
        strip_ansi_text(s) == s,
{
    lemma_strip_ansi_plain_from(s, 0);
    assert(s.subrange(0, s.len() as int) =~= s);
}

/// A line without its ANSI escape sequences.
pub fn strip_ansi(line: &[char]) -> (r: Vec<char>)
    ensures
        r@ == strip_ansi_text(line@),
{
    let mut out: Vec<char> = Vec::new();
    let mut i: usize = 0;
    while i < line.len()
        invariant
            i <= line.len(),
            strip_ansi_text(line@) == out@ + strip_ansi_from(line@, i as int),
        decreases line.len() - i,
    {
        let ghost prev = out@;
        if line[i] == '\x1b' && i + 1 < line.len() && line[i + 1] == '[' {
            let mut j: usize = i + 2;
            proof {
                lemma_csi_end_bounds(line@, i + 2);
            }
            while j < line.len() && !is_ascii_alphabetic(line[j])
                invariant
                    i + 2 <= j <= line.len(),
                    csi_end(line@, i + 2) == csi_end(line@, j as int),
                decreases line.len() - j,
            {
                j = j + 1;
            }
            if j < line.len() {
                j = j + 1;
            }
            i = j;
        } else {
            out.push(line[i]);
            i = i + 1;
            assert(out@ =~= prev + seq![line@[i - 1]]);
        }
    }
    out
}

/// The last line of a log with something besides whitespace, without its
/// escape sequences; empty where there is none.
pub open spec fn last_nonblank(ls: Seq<Seq<char>>) -> Seq<char>
    decreases ls.len(),
{
    if ls.len() == 0 {
        Seq::empty()
    } else {
        let l = strip_ansi_text(ls.last());
        if trim(l).len() > 0 {
            l
        } else {
            last_nonblank(ls.drop_last())
        }
    }
}

/// The latest line of a log, shown beside a running check.
pub fn latest_log_line(text: &str) -> (r: String)
    ensures
        r@ == last_nonblank(lines_of(text@)),
{
    let chars = chars_of(text);
    let lines = split_lines(chars.as_slice());
    let ghost lv = lines.deep_view();
    let mut n: usize = lines.len();
    assert(lv.subrange(0, lv.len() as int) =~= lv);
    while n > 0
        invariant
            n <= lines.len(),
            lv == lines.deep_view(),
            lv == lines_of(text@),
            last_nonblank(lv) == last_nonblank(lv.subrange(0, n as int)),
        decreases n,
    {
        let ghost pre = lv.subrange(0, n as int);
        assert(pre.last() =~= lines@[n - 1]@);
        let l = strip_ansi(lines[n - 1].as_slice());
        if trim_chars(l.as_slice()).len() > 0 {
            return string_from(l.as_slice());
        }
        assert(pre.drop_last() =~= lv.subrange(0, n - 1));
        n = n - 1;
    }
    String::new()
}

// ---------------------------------------------------------------------------
// Progress display
// ---------------------------------------------------------------------------

/// The spinner frames beside a running check.
pub open spec fn spinner_frames() -> Seq<Seq<char>> {
    seq![
        "\u{280b}"@,
        "\u{2819}"@,
        "\u{2839}"@,
        "\u{2838}"@,
        "\u{283c}"@,
        "\u{2834}"@,
        "\u{2826}"@,
        "\u{2827}"@,
        "\u{2807}"@,
        "\u{280f}"@,
    ]
}

/// The spinner frame after `frame`.
pub fn next_frame(frame: usize) -> (r: usize)
    ensures
        r == (frame + 1) % 10,
{
    if frame >= 9 {
        (frame - 9) % 10
    } else {
        frame + 1
    }
}

/// The glyph of a check in the progress display: a check mark once it
/// passed, a cross once it failed or could not run, else the spinner.
pub open spec fn progress_glyph_of(outcome: Option<(nat, Result<RunResultV, Seq<char>>)>, frame: nat) -> Seq<
    char,
> {
    match outcome {
        Some((_, Ok(r))) => if r.exit_code == 0 {
            "\u{2713}"@
        } else {
            "\u{2716}"@
        },
        Some((_, Err(_))) => "\u{2716}"@,
        None => spinner_frames()[(frame % 10) as int],
    }
}

pub fn progress_glyph(outcome: &Option<(u64, Result<RunResult, String>)>, frame: usize) -> (r: String)
    ensures
        r@ == progress_glyph_of(outcome_view(*outcome), frame as nat),
{
    match outcome {
        Some((_, Ok(r))) => if r.exit_code == 0 {
            string_from(chars_of("\u{2713}").as_slice())
        } else {
            string_from(chars_of("\u{2716}").as_slice())
        },
        Some((_, Err(_))) => string_from(chars_of("\u{2716}").as_slice()),
        None => {
            let frames = [
                "\u{280b}",
                "\u{2819}",
                "\u{2839}",
                "\u{2838}",
                "\u{283c}",
                "\u{2834}",
                "\u{2826}",
                "\u{2827}",
                "\u{2807}",
                "\u{280f}",
            ];
            assert(frames@.map_values(|f: &str| f@) =~= spinner_frames());
            let k = frame % 10;
            assert(spinner_frames()[k as int] == frames@[k as int]@);
            string_from(chars_of(frames[k]).as_slice())
        },
    }
}

/// The widest label, in bytes.
pub open spec fn label_width_of(labels: Seq<Seq<char>>) -> nat
    decreases labels.len(),
{
    if labels.len() == 0 {
        0
    } else {
        let w = label_width_of(labels.drop_last());
        let l = vstd::utf8::encode_utf8(labels.last()).len();
        if l > w {
            l
        } else {
            w
        }
    }
}

/// The width of the label column of the progress display.
pub fn label_width(specs: &[RunSpec]) -> (r: usize)
    ensures
        r == label_width_of(labels_of(specs_view(specs@))),
{
    let ghost ls = labels_of(specs_view(specs@));
    let mut w: usize = 0;
    let mut i: usize = 0;
    while i < specs.len()
        invariant
            i <= specs.len(),
            ls == labels_of(specs_view(specs@)),
            w == label_width_of(ls.subrange(0, i as int)),
        decreases specs.len() - i,
    {
        assert(ls.subrange(0, i + 1).drop_last() =~= ls.subrange(0, i as int));
        assert(ls.subrange(0, i + 1).last() == specs@[i as int].label@);
        let label = specs[i].label.as_str();
        let l = label.as_bytes().len();
        assert(label@ == ls[i as int]);
        assert(l == vstd::utf8::encode_utf8(label@).len());
        if l > w {
            w = l;
        }
        i = i + 1;
    }
    assert(ls.subrange(0, ls.len() as int) =~= ls);
    w
}

pub open spec fn spaces(n: nat) -> Seq<char> {
    Seq::new(n, |i: int| ' ')
}

/// A line of the progress display: the line erased, the glyph, the label
/// padded with spaces to `width` characters, the elapsed time and the
/// detail.
pub open spec fn progress_line_of(
    glyph: Seq<char>,
    label: Seq<char>,
    width: nat,
    elapsed: Seq<char>,
    detail: Seq<char>,
) -> Seq<char> {
    "\x1b[2K"@ + glyph + " "@ + label + spaces(
        if width > label.len() {
            (width - label.len()) as nat
        } else {
            0
        },
    ) + "  "@ + elapsed + " "@ + detail
}

pub fn progress_line(glyph: &str, label: &str, width: usize, elapsed: &str, detail: &str) -> (r: String)
    ensures
        r@ == progress_line_of(glyph@, label@, width as nat, elapsed@, detail@),
{
    let mut out = chars_of("\x1b[2K");
    push_all(&mut out, chars_of(glyph).as_slice());
    push_all(&mut out, chars_of(" ").as_slice());
    let l = chars_of(label);
    push_all(&mut out, l.as_slice());
    let pad: usize = if width > l.len() {
        width - l.len()
    } else {
        0
    };
    let ghost before = out@;
    let mut k: usize = 0;
    while k < pad
        invariant
            k <= pad,
            out@ == before + spaces(k as nat),
        decreases pad - k,
    {
        out.push(' ');
        k = k + 1;
        assert(out@ =~= before + spaces(k as nat));
    }
    push_all(&mut out, chars_of("  ").as_slice());
    push_all(&mut out, chars_of(elapsed).as_slice());
    push_all(&mut out, chars_of(" ").as_slice());
    push_all(&mut out, chars_of(detail).as_slice());
    string_from(out.as_slice())
}

} // verus!
