//! Projects: what marks one, how its tests are run, and the environment they run in.

use crate::bytes::{self, lossy_text};
use crate::paths::{self, path_extension};
use crate::text::{
    self, contains, find_flagged, lines, no_texts, push_text, same_text, starts_with, tail,
    trim_class, trimmed, CharClass,
};
use vstd::prelude::*;

verus! {

// ---------------------------------------------------------------------------
// Tables
// ---------------------------------------------------------------------------

/// The files any of which marks the root of a project.
pub const MANIFESTS: [&'static str; 8] = [
    "package.json",
    "Cargo.toml",
    "go.mod",
    "pyproject.toml",
    "setup.py",
    "pytest.ini",
    "requirements.txt",
    "Makefile",
];

/// The endings of the names of source files.
pub const CODE_EXTS: [&'static str; 27] = [
    ".ts",
    ".tsx",
    ".js",
    ".jsx",
    ".mjs",
    ".cjs",
    ".mts",
    ".cts",
    ".py",
    ".go",
    ".rs",
    ".java",
    ".rb",
    ".php",
    ".c",
    ".cc",
    ".cpp",
    ".h",
    ".hpp",
    ".cs",
    ".swift",
    ".kt",
    ".kts",
    ".scala",
    ".vue",
    ".svelte",
    ".sql",
];

/// Does a name have the ending of a source file?
pub open spec fn is_code(name: Seq<char>) -> bool {
    exists|i: int| 0 <= i < 27 && text::finishes(name, #[trigger] CODE_EXTS@[i]@)
}

/// Does a name have the ending of a source file?
pub fn is_code_file(name: &str) -> (code: bool)
    ensures
        code == is_code(name@),
{
    let mut i: usize = 0;
    while i < 27
        invariant
            i <= 27,
            forall|k: int| 0 <= k < i ==> !text::finishes(name@, #[trigger] CODE_EXTS@[k]@),
        decreases 27 - i,
    {
        if text::ends_with(name, CODE_EXTS[i]) {
            assert(text::finishes(name@, CODE_EXTS@[i as int]@));
            return true;
        }
        i += 1;
    }
    false
}

/// The manifests of a Python project, in the order in which they are looked for.
pub const PYTHON_MANIFESTS: [&'static str; 6] = [
    "pyproject.toml",
    "setup.py",
    "setup.cfg",
    "pytest.ini",
    "requirements.txt",
    "conftest.py",
];

/// Where a project's own Python may be, in the order of preference.
pub const PYTHON_BINARIES: [&'static str; 4] = [
    ".venv/bin/python",
    "venv/bin/python",
    ".venv/Scripts/python.exe",
    "venv/Scripts/python.exe",
];

/// The files besides [`PYTHON_MANIFESTS`] and [`PYTHON_BINARIES`] that tell a project's
/// test runner.
pub const RUNNER_MANIFESTS: [&'static str; 4] = ["package.json", "Cargo.toml", "go.mod", "Makefile"];

// ---------------------------------------------------------------------------
// Roots
// ---------------------------------------------------------------------------

/// The first of the directories, from a start upwards, that is marked as a project. Each
/// directory comes with whether it holds a manifest.
pub fn find_project_root(dirs: &Vec<(String, bool)>) -> (root: Option<String>)
    ensures
        text::opt_view(root) == text::flagged_from(dirs@, 0),
{
    find_flagged(dirs)
}

/// The root of the project to work on, or why there is none.
pub open spec fn root_of(
    project_path: Option<Seq<char>>,
    marked: bool,
    above: Result<Seq<(String, bool)>, Seq<char>>,
) -> Result<Seq<char>, Seq<char>> {
    if project_path matches Some(p) && p.len() > 0 {
        if marked {
            Ok(project_path->Some_0)
        } else {
            Err("no recognizable project manifest at "@ + project_path->Some_0)
        }
    } else {
        match above {
            Err(cause) => Err(cause),
            Ok(dirs) => match text::flagged_from(dirs, 0) {
                Some(found) => Ok(found),
                None => Err("no project root found"@),
            },
        }
    }
}

/// The root of the project to work on: the given path where it is not empty and holds a
/// manifest (`marked`), or else the first marked directory from the current one upwards.
pub fn resolve_root(
    project_path: Option<String>,
    marked: bool,
    above: Result<Vec<(String, bool)>, String>,
) -> (root: Result<String, String>)
    ensures
        text::result_view(root) == root_of(
            text::opt_view(project_path),
            marked,
            match above {
                Ok(dirs) => Ok(dirs@),
                Err(cause) => Err(cause@),
            },
        ),
        match text::opt_view(project_path) {
            Some(p) => p.len() > 0 ==> if marked {
                root matches Ok(r) && r@ == p
            } else {
                root matches Err(e) && e@ == "no recognizable project manifest at "@ + p
            },
            None => true,
        },
        (project_path is None || text::opt_view(project_path) == Some(Seq::<char>::empty())) ==> (
        match above {
            Err(cause) => root matches Err(e) && e@ == cause@,
            Ok(dirs) => match text::flagged_from(dirs@, 0) {
                Some(found) => root matches Ok(r) && r@ == found,
                None => root matches Err(e) && e@ == "no project root found"@,
            },
        }),
{
    if let Some(p) = project_path {
        if !p.as_str().is_empty() {
            if marked {
                return Ok(p);
            }
            let message: String = "no recognizable project manifest at ".to_owned();
            return Err(message.concat(p.as_str()));
        }
        assert(p@ =~= Seq::empty());
    }
    match above {
        Err(e) => Err(e),
        Ok(dirs) => match find_project_root(&dirs) {
            Some(root) => Ok(root),
            None => Err("no project root found".to_owned()),
        },
    }
}

// ---------------------------------------------------------------------------
// Runners
// ---------------------------------------------------------------------------

/// How a project's tests are run.
pub struct Runner {
    pub prog: String,
    pub args: Vec<String>,
    pub label: String,
}

/// A runner as a mathematical value.
pub struct RunnerView {
    pub prog: Seq<char>,
    pub args: Seq<Seq<char>>,
    pub label: Seq<char>,
}

impl View for Runner {
    type V = RunnerView;

    open spec fn view(&self) -> RunnerView {
        RunnerView { prog: self.prog@, args: text::views(self.args@), label: self.label@ }
    }
}

/// The path of the file `name`, where the project has it. `found` lists the files that
/// were looked for and found, each with its path.
pub open spec fn found_path(found: Seq<(String, String)>, name: Seq<char>) -> Option<Seq<char>>
    decreases found.len(),
{
    if found.len() == 0 {
        None
    } else if found[0].0@ == name {
        Some(found[0].1@)
    } else {
        found_path(found.skip(1), name)
    }
}

/// Does the project have the file `name`?
pub open spec fn has_file(found: Seq<(String, String)>, name: Seq<char>) -> bool {
    found_path(found, name) is Some
}

/// Does the project have one of the manifests of Python?
pub open spec fn is_python(found: Seq<(String, String)>) -> bool {
    exists|i: int| 0 <= i < 6 && has_file(found, #[trigger] PYTHON_MANIFESTS@[i]@)
}

/// The project's own Python, where it has one: the first by preference, from the `i`-th on.
pub open spec fn own_python(found: Seq<(String, String)>, i: nat) -> Option<Seq<char>>
    decreases 4 - i,
{
    if i >= 4 {
        None
    } else if has_file(found, PYTHON_BINARIES@[i as int]@) {
        found_path(found, PYTHON_BINARIES@[i as int]@)
    } else {
        own_python(found, i + 1)
    }
}

/// How the tests of a project are run that has the files `found`. The first manifest
/// decides; a Python project is run with its own Python where it has one.
pub open spec fn runner_of(found: Seq<(String, String)>, windows: bool) -> Option<RunnerView> {
    if has_file(found, "package.json"@) {
        Some(
            RunnerView {
                prog: if windows {
                    "npm.cmd"@
                } else {
                    "npm"@
                },
                args: seq!["test"@],
                label: "node"@,
            },
        )
    } else if has_file(found, "Cargo.toml"@) {
        Some(RunnerView { prog: "cargo"@, args: seq!["test"@], label: "rust"@ })
    } else if has_file(found, "go.mod"@) {
        Some(RunnerView { prog: "go"@, args: seq!["test"@, "./..."@], label: "go"@ })
    } else if is_python(found) {
        match own_python(found, 0) {
            Some(python) => Some(
                RunnerView { prog: python, args: seq!["-m"@, "pytest"@], label: "python"@ },
            ),
            None => Some(
                RunnerView {
                    prog: "pytest"@,
                    args: Seq::<Seq<char>>::empty(),
                    label: "python"@,
                },
            ),
        }
    } else if has_file(found, "Makefile"@) {
        Some(RunnerView { prog: "make"@, args: seq!["test"@], label: "make"@ })
    } else {
        None
    }
}

/// The path of the file `name`, where the project has it.
fn find_path(found: &Vec<(String, String)>, name: &str) -> (path: Option<String>)
    ensures
        text::opt_view(path) == found_path(found@, name@),
{
    let mut i: usize = 0;
    assert(found@.skip(0) =~= found@);
    while i < found.len()
        invariant
            i <= found@.len(),
            found_path(found@, name@) == found_path(found@.skip(i as int), name@),
        decreases found@.len() - i,
    {
        assert(found@.skip(i as int)[0] == found@[i as int]);
        assert(found@.skip(i as int).skip(1) =~= found@.skip(i + 1));
        if same_text(found[i].0.as_str(), name) {
            return Some(found[i].1.clone());
        }
        i += 1;
    }
    None
}

/// A runner with up to two arguments.
fn runner(prog: &str, first: Option<&str>, second: Option<&str>, label: &str) -> (r: Runner)
    ensures
        r.prog@ == prog@,
        r.label@ == label@,
        text::views(r.args@) == (match (first, second) {
            (Some(a), Some(b)) => seq![a@, b@],
            (Some(a), None) => seq![a@],
            (None, Some(b)) => seq![b@],
            (None, None) => Seq::<Seq<char>>::empty(),
        }),
{
    let mut args: Vec<String> = no_texts();
    if let Some(a) = first {
        push_text(&mut args, a);
    }
    if let Some(b) = second {
        push_text(&mut args, b);
    }
    Runner { prog: prog.to_owned(), args, label: label.to_owned() }
}

/// Does the project have one of the manifests of Python?
fn python_marked(found: &Vec<(String, String)>) -> (marked: bool)
    ensures
        marked == is_python(found@),
{
    let mut i: usize = 0;
    while i < 6
        invariant
            i <= 6,
            forall|k: int| 0 <= k < i ==> !has_file(found@, #[trigger] PYTHON_MANIFESTS@[k]@),
        decreases 6 - i,
    {
        if find_path(found, PYTHON_MANIFESTS[i]).is_some() {
            assert(has_file(found@, PYTHON_MANIFESTS@[i as int]@));
            return true;
        }
        i += 1;
    }
    false
}

/// The project's own Python, where it has one.
fn find_python(found: &Vec<(String, String)>) -> (python: Option<String>)
    ensures
        text::opt_view(python) == own_python(found@, 0),
{
    let mut i: usize = 0;
    while i < 4
        invariant
            i <= 4,
            own_python(found@, 0) == own_python(found@, i as nat),
        decreases 4 - i,
    {
        if let Some(path) = find_path(found, PYTHON_BINARIES[i]) {
            return Some(path);
        }
        i += 1;
    }
    None
}

/// How the tests of a project are run that has the files `found`, each with its path.
pub fn detect_runner(found: &Vec<(String, String)>, windows: bool) -> (detected: Result<
    Runner,
    String,
>)
    ensures
        match runner_of(found@, windows) {
            Some(r) => detected matches Ok(d) && d@ == r,
            None => detected matches Err(e) && e@
                == "couldn't detect a test runner for this project"@,
        },
{
    if find_path(found, "package.json").is_some() {
        let prog: &str = if windows {
            "npm.cmd"
        } else {
            "npm"
        };
        return Ok(runner(prog, Some("test"), None, "node"));
    }
    if find_path(found, "Cargo.toml").is_some() {
        return Ok(runner("cargo", Some("test"), None, "rust"));
    }
    if find_path(found, "go.mod").is_some() {
        return Ok(runner("go", Some("test"), Some("./..."), "go"));
    }
    if python_marked(found) {
        return match find_python(found) {
            Some(python) => Ok(runner(python.as_str(), Some("-m"), Some("pytest"), "python")),
            None => Ok(runner("pytest", None, None, "python")),
        };
    }
    if find_path(found, "Makefile").is_some() {
        return Ok(runner("make", Some("test"), None, "make"));
    }
    Err("couldn't detect a test runner for this project".to_owned())
}

// ---------------------------------------------------------------------------
// Parse checks
// ---------------------------------------------------------------------------

/// The command that checks whether a file of this kind parses, where there is one; the
/// file's name goes behind its arguments.
pub open spec fn parse_command(ext: Seq<char>) -> Option<(Seq<char>, Seq<Seq<char>>)> {
    if ext == "js"@ || ext == "mjs"@ || ext == "cjs"@ || ext == "jsx"@ {
        Some(("node"@, seq!["--check"@]))
    } else if ext == "py"@ {
        Some(("python3"@, seq!["-m"@, "py_compile"@]))
    } else {
        None
    }
}

/// The command that checks whether a file of this kind parses.
pub fn parse_check_cmd(ext: &str) -> (command: Option<(String, Vec<String>)>)
    ensures
        match command {
            Some((prog, args)) => parse_command(ext@) == Some((prog@, text::views(args@))),
            None => parse_command(ext@) is None,
        },
{
    let mut args: Vec<String> = no_texts();
    if same_text(ext, "js") || same_text(ext, "mjs") || same_text(ext, "cjs") || same_text(
        ext,
        "jsx",
    ) {
        push_text(&mut args, "--check");
        assert(text::views(args@) =~= seq!["--check"@]);
        return Some(("node".to_owned(), args));
    }
    if same_text(ext, "py") {
        push_text(&mut args, "-m");
        push_text(&mut args, "py_compile");
        assert(text::views(args@) =~= seq!["-m"@, "py_compile"@]);
        return Some(("python3".to_owned(), args));
    }
    None
}

/// The command for the extension that is found in a file's path, where one is.
pub open spec fn command_for(ext: Option<Seq<char>>) -> Option<(Seq<char>, Seq<Seq<char>>)> {
    match ext {
        Some(e) => parse_command(e),
        None => parse_command(Seq::empty()),
    }
}

/// The whole command that checks whether `file` parses, by the extension that this
/// platform finds in its path.
pub fn parse_check_plan(file: &str) -> (command: Option<(String, Vec<String>)>)
    ensures
        exists|ext: Option<Seq<char>>|
            paths::extension_found(file@, ext) && match command {
                Some((prog, args)) => #[trigger] command_for(ext) matches Some((p, a)) && prog@
                    == p && text::views(args@) == a.push(file@),
                None => command_for(ext) is None,
            },
{
    let found: Option<String> = path_extension(file);
    let ghost seen = text::opt_view(found);
    let ext: String = match found {
        Some(ext) => ext,
        None => String::new(),
    };
    match parse_check_cmd(ext.as_str()) {
        Some((prog, args)) => {
            let mut args: Vec<String> = args;
            push_text(&mut args, file);
            assert(command_for(seen) is Some);
            Some((prog, args))
        },
        None => {
            assert(command_for(seen) is None);
            None
        },
    }
}

/// What is told of a file that does not parse.
pub open spec fn parse_report(file: Seq<char>, stderr: Seq<char>) -> Seq<char> {
    "⛔ "@ + file + " does not parse:\n"@ + text::tail_of(stderr, 600)
}

/// What is told of a file that does not parse.
pub fn parse_failure(file: &str, stderr: &[u8]) -> (report: String)
    ensures
        report@ == parse_report(file@, bytes::lossy_utf8(stderr@)),
{
    let mut report: String = "⛔ ".to_owned();
    report.append(file);
    report.append(" does not parse:\n");
    report.append(tail(lossy_text(stderr).as_str(), 600).as_str());
    report
}

/// Does a `package.json` declare a script of this name, as far as its text shows?
pub fn has_npm_script(package_json: &Option<String>, name: &str) -> (declared: bool)
    ensures
        declared == (text::opt_view(*package_json) matches Some(t) && text::has_match(
            t,
            "\""@ + name@ + "\""@,
        )),
{
    match package_json {
        Some(t) => {
            let mut quoted: String = "\"".to_owned();
            quoted.append(name);
            quoted.append("\"");
            contains(t.as_str(), quoted.as_str())
        },
        None => false,
    }
}

/// How a project's code is linted: by the script of that name, where its `package.json`
/// declares one.
pub open spec fn lint_runner(package: Option<Seq<char>>, windows: bool) -> Option<RunnerView> {
    if package matches Some(t) && text::has_match(t, "\""@ + "lint"@ + "\""@) {
        Some(
            RunnerView {
                prog: if windows {
                    "npm.cmd"@
                } else {
                    "npm"@
                },
                args: seq!["run"@, "lint"@, "--silent"@],
                label: "lint"@,
            },
        )
    } else {
        None
    }
}

/// How a project's types are checked: by the TypeScript compiler, where the project is set
/// up for it.
pub open spec fn types_runner(has_tsconfig: bool, windows: bool) -> Option<RunnerView> {
    if has_tsconfig {
        Some(
            RunnerView {
                prog: if windows {
                    "npx.cmd"@
                } else {
                    "npx"@
                },
                args: seq!["tsc"@, "--noEmit"@],
                label: "typecheck"@,
            },
        )
    } else {
        None
    }
}

/// The checks of its own that a project has: its lint, then its type check.
pub fn check_plan(package: &Option<String>, has_tsconfig: bool, windows: bool) -> (plan: (
    Option<Runner>,
    Option<Runner>,
))
    ensures
        (match plan.0 {
            Some(r) => Some(r@),
            None => None,
        }) == lint_runner(text::opt_view(*package), windows),
        (match plan.1 {
            Some(r) => Some(r@),
            None => None,
        }) == types_runner(has_tsconfig, windows),
{
    let lint: Option<Runner> = if has_npm_script(package, "lint") {
        let prog: String = if windows {
            "npm.cmd".to_owned()
        } else {
            "npm".to_owned()
        };
        let mut args: Vec<String> = no_texts();
        push_text(&mut args, "run");
        push_text(&mut args, "lint");
        push_text(&mut args, "--silent");
        assert(text::views(args@) =~= seq!["run"@, "lint"@, "--silent"@]);
        Some(Runner { prog, args, label: "lint".to_owned() })
    } else {
        None
    };
    let types: Option<Runner> = if has_tsconfig {
        let prog: String = if windows {
            "npx.cmd".to_owned()
        } else {
            "npx".to_owned()
        };
        let mut args: Vec<String> = no_texts();
        push_text(&mut args, "tsc");
        push_text(&mut args, "--noEmit");
        assert(text::views(args@) =~= seq!["tsc"@, "--noEmit"@]);
        Some(Runner { prog, args, label: "typecheck".to_owned() })
    } else {
        None
    };
    (lint, types)
}

// ---------------------------------------------------------------------------
// The environment
// ---------------------------------------------------------------------------

/// Variables as mathematical values: names and their values.
pub type Vars = Seq<(Seq<char>, Seq<char>)>;

/// The views of a list of variables.
pub open spec fn var_views(vars: Seq<(String, String)>) -> Vars {
    vars.map_values(|v: (String, String)| (v.0@, v.1@))
}

/// `vars` without the variable `key`.
pub open spec fn without_var(vars: Vars, key: Seq<char>) -> Vars
    decreases vars.len(),
{
    if vars.len() == 0 {
        vars
    } else if vars.last().0 == key {
        without_var(vars.drop_last(), key)
    } else {
        without_var(vars.drop_last(), key).push(vars.last())
    }
}

/// `vars` with `key` set to `value`, behind all others.
pub open spec fn with_var(vars: Vars, key: Seq<char>, value: Seq<char>) -> Vars {
    without_var(vars, key).push((key, value))
}

/// The assignment in a line of an environment file: the line is no comment and holds an
/// `=`; quotes around the value are taken off.
pub open spec fn assignment(line: Seq<char>) -> Option<(Seq<char>, Seq<char>)> {
    let l = text::trim(line);
    let at = text::run_before(l, '=') as int;
    if l.len() == 0 || text::begins(l, "#"@) || at >= l.len() {
        None
    } else {
        Some(
            (
                text::trim(l.take(at)),
                text::trim_of(
                    text::trim_of(text::trim(l.skip(at + 1)), CharClass::DoubleQuote),
                    CharClass::SingleQuote,
                ),
            ),
        )
    }
}

/// `vars` after the first `n` lines of an environment file.
pub open spec fn vars_after(vars: Vars, all: Seq<Seq<char>>, n: nat) -> Vars
    decreases n,
{
    if n == 0 {
        vars
    } else {
        let before = vars_after(vars, all, (n - 1) as nat);
        match assignment(all[n - 1]) {
            Some((k, v)) => with_var(before, k, v),
            None => before,
        }
    }
}

/// `vars` after an environment file, where there is one.
pub open spec fn vars_after_file(vars: Vars, file: Option<Seq<char>>) -> Vars {
    match file {
        Some(t) => vars_after(vars, text::lines_of(t), text::lines_of(t).len()),
        None => vars,
    }
}

/// Is every variable named once?
pub open spec fn unique(vars: Vars) -> bool {
    forall|i: int, j: int| 0 <= i < j < vars.len() ==> vars[i].0 != vars[j].0
}

/// The assignment in a line of an environment file.
fn read_assignment(line: &str) -> (pair: Option<(String, String)>)
    ensures
        match pair {
            Some((k, v)) => assignment(line@) == Some((k@, v@)),
            None => assignment(line@) is None,
        },
{
    let l: String = trimmed(line);
    if l.as_str().is_empty() || starts_with(l.as_str(), "#") {
        return None;
    }
    let s: Vec<char> = text::chars_of(l.as_str());
    let at: usize = text::find_char(s.as_slice(), '=', 0);
    assert(s@.skip(0) =~= s@);
    if at >= s.len() {
        return None;
    }
    let key: String = text::text_of(vstd::slice::slice_subrange(s.as_slice(), 0, at));
    let value: String = text::text_of(vstd::slice::slice_subrange(s.as_slice(), at + 1, s.len()));
    assert(key@ =~= s@.take(at as int));
    assert(value@ =~= s@.skip(at + 1));
    let value: String = trim_class(trimmed(value.as_str()).as_str(), CharClass::DoubleQuote);
    Some((trimmed(key.as_str()), trim_class(value.as_str(), CharClass::SingleQuote)))
}

/// `vars` without the variable `key`.
fn remove_var(vars: Vec<(String, String)>, key: &str) -> (kept: Vec<(String, String)>)
    ensures
        var_views(kept@) == without_var(var_views(vars@), key@),
{
    let ghost all = var_views(vars@);
    let mut kept: Vec<(String, String)> = Vec::new();
    let mut i: usize = 0;
    assert(var_views(kept@) =~= Seq::empty());
    assert(all.take(0) =~= Seq::empty());
    while i < vars.len()
        invariant
            i <= vars@.len(),
            all == var_views(vars@),
            var_views(kept@) == without_var(all.take(i as int), key@),
        decreases vars@.len() - i,
    {
        assert(all.take(i + 1).drop_last() =~= all.take(i as int));
        assert(all.take(i + 1).last() == (vars@[i as int].0@, vars@[i as int].1@));
        if !same_text(vars[i].0.as_str(), key) {
            let ghost before = kept@;
            kept.push((vars[i].0.clone(), vars[i].1.clone()));
            assert(var_views(kept@) =~= var_views(before).push(all[i as int]));
        }
        i += 1;
    }
    assert(all.take(i as int) =~= all);
    kept
}

/// `vars` after an environment file, where there is one.
fn read_env_file(vars: Vec<(String, String)>, file: &Option<String>) -> (out: Vec<(String, String)>)
    ensures
        var_views(out@) == vars_after_file(var_views(vars@), text::opt_view(*file)),
{
    let ghost start = var_views(vars@);
    let mut out: Vec<(String, String)> = vars;
    if let Some(t) = file {
        let all: Vec<String> = lines(t.as_str());
        let ghost views = text::views(all@);
        let mut i: usize = 0;
        while i < all.len()
            invariant
                i <= all@.len(),
                views == text::views(all@),
                var_views(out@) == vars_after(start, views, i as nat),
            decreases all@.len() - i,
        {
            assert(views[i as int] == all@[i as int]@);
            if let Some((key, value)) = read_assignment(all[i].as_str()) {
                out = remove_var(out, key.as_str());
                let ghost before = out@;
                let ghost pair = (key@, value@);
                out.push((key, value));
                assert(var_views(out@) =~= var_views(before).push(pair));
            }
            i += 1;
        }
    }
    out
}

/// The environment that a project declares: its `.env`, and over it its `.env.local`. Each
/// variable is there once, with the value that was assigned to it last.
pub fn load_project_env(env: &Option<String>, env_local: &Option<String>) -> (vars: Vec<
    (String, String),
>)
    ensures
        var_views(vars@) == vars_after_file(
            vars_after_file(Seq::<(Seq<char>, Seq<char>)>::empty(), text::opt_view(*env)),
            text::opt_view(*env_local),
        ),
        unique(var_views(vars@)),
{
    let none: Vec<(String, String)> = Vec::new();
    assert(var_views(none@) =~= Seq::empty());
    let vars: Vec<(String, String)> = read_env_file(read_env_file(none, env), env_local);
    proof {
        let empty = Seq::<(Seq<char>, Seq<char>)>::empty();
        law_env_names_are_unique(empty, text::opt_view(*env));
        law_env_names_are_unique(
            vars_after_file(empty, text::opt_view(*env)),
            text::opt_view(*env_local),
        );
    }
    vars
}

/// Removing a variable leaves the others, and none of that name.
proof fn lemma_without_var(vars: Vars, key: Seq<char>)
    ensures
        forall|i: int|
            0 <= i < without_var(vars, key).len() ==> (#[trigger] without_var(vars, key)[i]).0
                != key && vars.contains(without_var(vars, key)[i]),
        unique(vars) ==> unique(without_var(vars, key)),
        forall|v: (Seq<char>, Seq<char>)|
            #![trigger without_var(vars, key).contains(v)]
            vars.contains(v) && v.0 != key ==> without_var(vars, key).contains(v),
    decreases vars.len(),
{
    if vars.len() > 0 {
        let rest = vars.drop_last();
        let last = vars.last();
        let kept = without_var(rest, key);
        let out = without_var(vars, key);
        lemma_without_var(rest, key);
        assert forall|i: int| 0 <= i < out.len() implies (#[trigger] out[i]).0 != key
            && vars.contains(out[i]) by {
            if i < kept.len() {
                assert(out[i] == kept[i]);
                assert(rest.contains(kept[i]));
                let k = choose|k: int| 0 <= k < rest.len() && rest[k] == kept[i];
                assert(vars[k] == kept[i]);
            } else {
                assert(vars[vars.len() - 1] == out[i]);
            }
        }
        if unique(vars) {
            assert(unique(rest));
            assert forall|i: int, j: int| 0 <= i < j < out.len() implies out[i].0 != out[j].0 by {
                assert(out[i] == kept[i]);
                if j == kept.len() {
                    assert(rest.contains(kept[i]));
                    let k = choose|k: int| 0 <= k < rest.len() && rest[k] == kept[i];
                    assert(vars[k].0 != vars[vars.len() - 1].0);
                }
            }
        }
        assert forall|v: (Seq<char>, Seq<char>)|
            #![trigger out.contains(v)]
            vars.contains(v) && v.0 != key implies out.contains(v) by {
            let k = choose|k: int| 0 <= k < vars.len() && vars[k] == v;
            if k < rest.len() {
                assert(rest[k] == v);
                assert(kept.contains(v));
                let m = choose|m: int| 0 <= m < kept.len() && kept[m] == v;
                assert(out[m] == v);
            } else {
                assert(out[out.len() - 1] == v);
            }
        }
    }
}

/// The value that is assigned last holds, and the other variables keep theirs.
pub proof fn law_last_assignment_wins(vars: Vars, key: Seq<char>, value: Seq<char>)
    ensures
        forall|v: (Seq<char>, Seq<char>)|
            #![trigger with_var(vars, key, value).contains(v)]
            with_var(vars, key, value).contains(v) <==> (if v.0 == key {
                v.1 == value
            } else {
                vars.contains(v)
            }),
        unique(vars) ==> unique(with_var(vars, key, value)),
{
    let kept = without_var(vars, key);
    let out = with_var(vars, key, value);
    lemma_without_var(vars, key);
    assert forall|v: (Seq<char>, Seq<char>)|
        #![trigger out.contains(v)]
        out.contains(v) <==> (if v.0 == key {
            v.1 == value
        } else {
            vars.contains(v)
        }) by {
        if out.contains(v) {
            let k = choose|k: int| 0 <= k < out.len() && out[k] == v;
            if k < kept.len() {
                assert(kept[k] == v);
            }
        }
        if v.0 == key && v.1 == value {
            assert(out[out.len() - 1] == v);
        }
        if v.0 != key && vars.contains(v) {
            assert(kept.contains(v));
            let k = choose|k: int| 0 <= k < kept.len() && kept[k] == v;
            assert(out[k] == v);
        }
    }
    if unique(vars) {
        assert forall|i: int, j: int| 0 <= i < j < out.len() implies out[i].0 != out[j].0 by {
            assert(out[i] == kept[i]);
            if j < kept.len() {
                assert(out[j] == kept[j]);
            }
        }
    }
}

proof fn lemma_vars_after_unique(vars: Vars, all: Seq<Seq<char>>, n: nat)
    requires
        unique(vars),
        n <= all.len(),
    ensures
        unique(vars_after(vars, all, n)),
    decreases n,
{
    if n > 0 {
        lemma_vars_after_unique(vars, all, (n - 1) as nat);
        if let Some((k, v)) = assignment(all[n - 1]) {
            law_last_assignment_wins(vars_after(vars, all, (n - 1) as nat), k, v);
        }
    }
}

/// However often a file assigns to a variable, it is there once.
pub proof fn law_env_names_are_unique(vars: Vars, file: Option<Seq<char>>)
    requires
        unique(vars),
    ensures
        unique(vars_after_file(vars, file)),
{
    if let Some(t) = file {
        lemma_vars_after_unique(vars, text::lines_of(t), text::lines_of(t).len());
    }
}

// ---------------------------------------------------------------------------
// Which runner a project has
// ---------------------------------------------------------------------------

/// Is a file of this name among those that were found?
pub open spec fn among(found: Seq<(String, String)>, name: Seq<char>) -> bool {
    exists|i: int| 0 <= i < found.len() && (#[trigger] found[i]).0@ == name
}

/// A file is found exactly where it is listed, and its path is that of its first entry.
pub proof fn law_files_are_found(found: Seq<(String, String)>, name: Seq<char>, i: int)
    requires
        0 <= i < found.len(),
        forall|k: int| 0 <= k < i ==> (#[trigger] found[k]).0@ != name,
        found[i].0@ == name,
    ensures
        found_path(found, name) == Some(found[i].1@),
    decreases found.len(),
{
    if i > 0 {
        let rest = found.skip(1);
        assert(found[0].0@ != name);
        assert forall|k: int| 0 <= k < i - 1 implies (#[trigger] rest[k]).0@ != name by {
            assert(found[k + 1].0@ != name);
        }
        law_files_are_found(rest, name, i - 1);
    }
}

/// A project has a file exactly where that is among those that were found.
pub proof fn law_has_file(found: Seq<(String, String)>, name: Seq<char>)
    ensures
        has_file(found, name) <==> among(found, name),
    decreases found.len(),
{
    if found.len() > 0 {
        let rest = found.skip(1);
        law_has_file(rest, name);
        if among(found, name) {
            let i = choose|i: int| 0 <= i < found.len() && (#[trigger] found[i]).0@ == name;
            if i > 0 {
                assert(rest[i - 1].0@ == name);
            }
        }
        if found[0].0@ == name {
            assert(among(found, name));
        } else if among(rest, name) {
            let i = choose|i: int| 0 <= i < rest.len() && (#[trigger] rest[i]).0@ == name;
            assert(found[i + 1].0@ == name);
        }
    }
}

/// A project with a `package.json` is run with npm, whatever else it has.
pub proof fn law_node_project(found: Seq<(String, String)>)
    requires
        among(found, "package.json"@),
    ensures
        runner_of(found, false) == Some(
            RunnerView { prog: "npm"@, args: seq!["test"@], label: "node"@ },
        ),
        runner_of(found, true) == Some(
            RunnerView { prog: "npm.cmd"@, args: seq!["test"@], label: "node"@ },
        ),
{
    law_has_file(found, "package.json"@);
}

/// A project with a `Cargo.toml` and no `package.json` is run with cargo.
pub proof fn law_rust_project(found: Seq<(String, String)>, windows: bool)
    requires
        !among(found, "package.json"@),
        among(found, "Cargo.toml"@),
    ensures
        runner_of(found, windows) == Some(
            RunnerView { prog: "cargo"@, args: seq!["test"@], label: "rust"@ },
        ),
{
    law_has_file(found, "package.json"@);
    law_has_file(found, "Cargo.toml"@);
}

/// A project with a `go.mod` and neither of the manifests before it is run with go.
pub proof fn law_go_project(found: Seq<(String, String)>, windows: bool)
    requires
        !among(found, "package.json"@),
        !among(found, "Cargo.toml"@),
        among(found, "go.mod"@),
    ensures
        runner_of(found, windows) == Some(
            RunnerView { prog: "go"@, args: seq!["test"@, "./..."@], label: "go"@ },
        ),
{
    law_has_file(found, "package.json"@);
    law_has_file(found, "Cargo.toml"@);
    law_has_file(found, "go.mod"@);
}

/// A project with any one of the manifests of Python, and none of those before them, is a
/// Python project. It is run with its own Python where it has one, those of `.venv` before
/// those of `venv` and those of Unix before those of Windows, and else with pytest itself.
pub proof fn law_python_project(found: Seq<(String, String)>, windows: bool)
    requires
        !among(found, "package.json"@),
        !among(found, "Cargo.toml"@),
        !among(found, "go.mod"@),
        among(found, "pyproject.toml"@) || among(found, "setup.py"@) || among(found, "setup.cfg"@)
            || among(found, "pytest.ini"@) || among(found, "requirements.txt"@) || among(
            found,
            "conftest.py"@,
        ),
    ensures
        runner_of(found, windows) matches Some(r) && r.label == "python"@,
        among(found, ".venv/bin/python"@) ==> runner_of(found, windows) == Some(
            RunnerView {
                prog: found_path(found, ".venv/bin/python"@)->Some_0,
                args: seq!["-m"@, "pytest"@],
                label: "python"@,
            },
        ),
        !among(found, ".venv/bin/python"@) && among(found, "venv/bin/python"@) ==> runner_of(
            found,
            windows,
        ) == Some(
            RunnerView {
                prog: found_path(found, "venv/bin/python"@)->Some_0,
                args: seq!["-m"@, "pytest"@],
                label: "python"@,
            },
        ),
        !among(found, ".venv/bin/python"@) && !among(found, "venv/bin/python"@) && among(
            found,
            ".venv/Scripts/python.exe"@,
        ) ==> runner_of(found, windows) == Some(
            RunnerView {
                prog: found_path(found, ".venv/Scripts/python.exe"@)->Some_0,
                args: seq!["-m"@, "pytest"@],
                label: "python"@,
            },
        ),
        !among(found, ".venv/bin/python"@) && !among(found, "venv/bin/python"@) && !among(
            found,
            ".venv/Scripts/python.exe"@,
        ) && among(found, "venv/Scripts/python.exe"@) ==> runner_of(found, windows) == Some(
            RunnerView {
                prog: found_path(found, "venv/Scripts/python.exe"@)->Some_0,
                args: seq!["-m"@, "pytest"@],
                label: "python"@,
            },
        ),
        !among(found, ".venv/bin/python"@) && !among(found, "venv/bin/python"@) && !among(
            found,
            ".venv/Scripts/python.exe"@,
        ) && !among(found, "venv/Scripts/python.exe"@) ==> runner_of(found, windows) == Some(
            RunnerView {
                prog: "pytest"@,
                args: Seq::<Seq<char>>::empty(),
                label: "python"@,
            },
        ),
{
    law_has_file(found, "package.json"@);
    law_has_file(found, "Cargo.toml"@);
    law_has_file(found, "go.mod"@);
    law_has_file(found, "pyproject.toml"@);
    law_has_file(found, "setup.py"@);
    law_has_file(found, "setup.cfg"@);
    law_has_file(found, "pytest.ini"@);
    law_has_file(found, "requirements.txt"@);
    law_has_file(found, "conftest.py"@);
    law_has_file(found, ".venv/bin/python"@);
    law_has_file(found, "venv/bin/python"@);
    law_has_file(found, ".venv/Scripts/python.exe"@);
    law_has_file(found, "venv/Scripts/python.exe"@);
    assert(PYTHON_MANIFESTS@[0]@ == "pyproject.toml"@);
    assert(PYTHON_MANIFESTS@[1]@ == "setup.py"@);
    assert(PYTHON_MANIFESTS@[2]@ == "setup.cfg"@);
    assert(PYTHON_MANIFESTS@[3]@ == "pytest.ini"@);
    assert(PYTHON_MANIFESTS@[4]@ == "requirements.txt"@);
    assert(PYTHON_MANIFESTS@[5]@ == "conftest.py"@);
    assert(is_python(found));
    assert(PYTHON_BINARIES@[0]@ == ".venv/bin/python"@);
    assert(PYTHON_BINARIES@[1]@ == "venv/bin/python"@);
    assert(PYTHON_BINARIES@[2]@ == ".venv/Scripts/python.exe"@);
    assert(PYTHON_BINARIES@[3]@ == "venv/Scripts/python.exe"@);
    reveal_with_fuel(own_python, 6);
}

proof fn lemma_not_python(found: Seq<(String, String)>)
    requires
        !among(found, "pyproject.toml"@),
        !among(found, "setup.py"@),
        !among(found, "setup.cfg"@),
        !among(found, "pytest.ini"@),
        !among(found, "requirements.txt"@),
        !among(found, "conftest.py"@),
    ensures
        !is_python(found),
{
    law_has_file(found, "pyproject.toml"@);
    law_has_file(found, "setup.py"@);
    law_has_file(found, "setup.cfg"@);
    law_has_file(found, "pytest.ini"@);
    law_has_file(found, "requirements.txt"@);
    law_has_file(found, "conftest.py"@);
    if is_python(found) {
        let i = choose|i: int| 0 <= i < 6 && has_file(found, #[trigger] PYTHON_MANIFESTS@[i]@);
        assert(PYTHON_MANIFESTS@[0]@ == "pyproject.toml"@);
        assert(PYTHON_MANIFESTS@[1]@ == "setup.py"@);
        assert(PYTHON_MANIFESTS@[2]@ == "setup.cfg"@);
        assert(PYTHON_MANIFESTS@[3]@ == "pytest.ini"@);
        assert(PYTHON_MANIFESTS@[4]@ == "requirements.txt"@);
        assert(PYTHON_MANIFESTS@[5]@ == "conftest.py"@);
        assert(i == 0 || i == 1 || i == 2 || i == 3 || i == 4 || i == 5);
    }
}

/// A project with none of those manifests is run with make where it has a `Makefile`, and
/// else not at all.
pub proof fn law_make_project(found: Seq<(String, String)>, windows: bool)
    requires
        !among(found, "package.json"@),
        !among(found, "Cargo.toml"@),
        !among(found, "go.mod"@),
        !among(found, "pyproject.toml"@),
        !among(found, "setup.py"@),
        !among(found, "setup.cfg"@),
        !among(found, "pytest.ini"@),
        !among(found, "requirements.txt"@),
        !among(found, "conftest.py"@),
    ensures
        among(found, "Makefile"@) ==> runner_of(found, windows) == Some(
            RunnerView { prog: "make"@, args: seq!["test"@], label: "make"@ },
        ),
        !among(found, "Makefile"@) ==> runner_of(found, windows) is None,
{
    law_has_file(found, "package.json"@);
    law_has_file(found, "Cargo.toml"@);
    law_has_file(found, "go.mod"@);
    law_has_file(found, "Makefile"@);
    lemma_not_python(found);
}

/// A file is a source file where its name ends like one of these.
pub proof fn law_source_files(stem: Seq<char>)
    ensures
        is_code(stem + ".ts"@),
        is_code(stem + ".tsx"@),
        is_code(stem + ".js"@),
        is_code(stem + ".jsx"@),
        is_code(stem + ".mjs"@),
        is_code(stem + ".cjs"@),
        is_code(stem + ".mts"@),
        is_code(stem + ".cts"@),
        is_code(stem + ".py"@),
        is_code(stem + ".go"@),
        is_code(stem + ".rs"@),
        is_code(stem + ".java"@),
        is_code(stem + ".rb"@),
        is_code(stem + ".php"@),
        is_code(stem + ".c"@),
        is_code(stem + ".cc"@),
        is_code(stem + ".cpp"@),
        is_code(stem + ".h"@),
        is_code(stem + ".hpp"@),
        is_code(stem + ".cs"@),
        is_code(stem + ".swift"@),
        is_code(stem + ".kt"@),
        is_code(stem + ".kts"@),
        is_code(stem + ".scala"@),
        is_code(stem + ".vue"@),
        is_code(stem + ".svelte"@),
        is_code(stem + ".sql"@),
{
    assert forall|i: int| 0 <= i < 27 implies is_code(stem + #[trigger] CODE_EXTS@[i]@) by {
        text::law_prefix(CODE_EXTS@[i]@, stem, Seq::empty());
    }
    assert(CODE_EXTS@[0]@ == ".ts"@ && CODE_EXTS@[1]@ == ".tsx"@ && CODE_EXTS@[2]@ == ".js"@);
    assert(CODE_EXTS@[3]@ == ".jsx"@ && CODE_EXTS@[4]@ == ".mjs"@ && CODE_EXTS@[5]@ == ".cjs"@);
    assert(CODE_EXTS@[6]@ == ".mts"@ && CODE_EXTS@[7]@ == ".cts"@ && CODE_EXTS@[8]@ == ".py"@);
    assert(CODE_EXTS@[9]@ == ".go"@ && CODE_EXTS@[10]@ == ".rs"@ && CODE_EXTS@[11]@ == ".java"@);
    assert(CODE_EXTS@[12]@ == ".rb"@ && CODE_EXTS@[13]@ == ".php"@ && CODE_EXTS@[14]@ == ".c"@);
    assert(CODE_EXTS@[15]@ == ".cc"@ && CODE_EXTS@[16]@ == ".cpp"@ && CODE_EXTS@[17]@ == ".h"@);
    assert(CODE_EXTS@[18]@ == ".hpp"@ && CODE_EXTS@[19]@ == ".cs"@);
    assert(CODE_EXTS@[20]@ == ".swift"@ && CODE_EXTS@[21]@ == ".kt"@);
    assert(CODE_EXTS@[22]@ == ".kts"@ && CODE_EXTS@[23]@ == ".scala"@);
    assert(CODE_EXTS@[24]@ == ".vue"@ && CODE_EXTS@[25]@ == ".svelte"@);
    assert(CODE_EXTS@[26]@ == ".sql"@);
}

/// Nothing else is a source file.
pub proof fn law_only_source_files(name: Seq<char>)
    requires
        is_code(name),
    ensures
        text::finishes(name, ".ts"@)
            || text::finishes(name, ".tsx"@)
            || text::finishes(name, ".js"@)
            || text::finishes(name, ".jsx"@)
            || text::finishes(name, ".mjs"@)
            || text::finishes(name, ".cjs"@)
            || text::finishes(name, ".mts"@)
            || text::finishes(name, ".cts"@)
            || text::finishes(name, ".py"@)
            || text::finishes(name, ".go"@)
            || text::finishes(name, ".rs"@)
            || text::finishes(name, ".java"@)
            || text::finishes(name, ".rb"@)
            || text::finishes(name, ".php"@)
            || text::finishes(name, ".c"@)
            || text::finishes(name, ".cc"@)
            || text::finishes(name, ".cpp"@)
            || text::finishes(name, ".h"@)
            || text::finishes(name, ".hpp"@)
            || text::finishes(name, ".cs"@)
            || text::finishes(name, ".swift"@)
            || text::finishes(name, ".kt"@)
            || text::finishes(name, ".kts"@)
            || text::finishes(name, ".scala"@)
            || text::finishes(name, ".vue"@)
            || text::finishes(name, ".svelte"@)
            || text::finishes(name, ".sql"@),
{
    let i = choose|i: int| 0 <= i < 27 && text::finishes(name, #[trigger] CODE_EXTS@[i]@);
    assert(i == 0 ==> CODE_EXTS@[i]@ == ".ts"@);
    assert(i == 1 ==> CODE_EXTS@[i]@ == ".tsx"@);
    assert(i == 2 ==> CODE_EXTS@[i]@ == ".js"@);
    assert(i == 3 ==> CODE_EXTS@[i]@ == ".jsx"@);
    assert(i == 4 ==> CODE_EXTS@[i]@ == ".mjs"@);
    assert(i == 5 ==> CODE_EXTS@[i]@ == ".cjs"@);
    assert(i == 6 ==> CODE_EXTS@[i]@ == ".mts"@);
    assert(i == 7 ==> CODE_EXTS@[i]@ == ".cts"@);
    assert(i == 8 ==> CODE_EXTS@[i]@ == ".py"@);
    assert(i == 9 ==> CODE_EXTS@[i]@ == ".go"@);
    assert(i == 10 ==> CODE_EXTS@[i]@ == ".rs"@);
    assert(i == 11 ==> CODE_EXTS@[i]@ == ".java"@);
    assert(i == 12 ==> CODE_EXTS@[i]@ == ".rb"@);
    assert(i == 13 ==> CODE_EXTS@[i]@ == ".php"@);
    assert(i == 14 ==> CODE_EXTS@[i]@ == ".c"@);
    assert(i == 15 ==> CODE_EXTS@[i]@ == ".cc"@);
    assert(i == 16 ==> CODE_EXTS@[i]@ == ".cpp"@);
    assert(i == 17 ==> CODE_EXTS@[i]@ == ".h"@);
    assert(i == 18 ==> CODE_EXTS@[i]@ == ".hpp"@);
    assert(i == 19 ==> CODE_EXTS@[i]@ == ".cs"@);
    assert(i == 20 ==> CODE_EXTS@[i]@ == ".swift"@);
    assert(i == 21 ==> CODE_EXTS@[i]@ == ".kt"@);
    assert(i == 22 ==> CODE_EXTS@[i]@ == ".kts"@);
    assert(i == 23 ==> CODE_EXTS@[i]@ == ".scala"@);
    assert(i == 24 ==> CODE_EXTS@[i]@ == ".vue"@);
    assert(i == 25 ==> CODE_EXTS@[i]@ == ".svelte"@);
    assert(i == 26 ==> CODE_EXTS@[i]@ == ".sql"@);
    assert(0 <= i < 27);
}

// ---------------------------------------------------------------------------
// Checks and the environment
// ---------------------------------------------------------------------------

/// Scripts are parsed by node and Python files by Python; files of other kinds are not
/// parsed.
pub proof fn law_parse_commands(ext: Seq<char>)
    ensures
        ext == "js"@ || ext == "mjs"@ || ext == "cjs"@ || ext == "jsx"@ ==> parse_command(ext)
            == Some(("node"@, seq!["--check"@])),
        parse_command("py"@) == Some(("python3"@, seq!["-m"@, "py_compile"@])),
        ext != "js"@ && ext != "mjs"@ && ext != "cjs"@ && ext != "jsx"@ && ext != "py"@
            ==> parse_command(ext) is None,
        command_for(Some(ext)) == parse_command(ext),
        command_for(None) is None,
{
    reveal_strlit("js");
    reveal_strlit("mjs");
    reveal_strlit("cjs");
    reveal_strlit("jsx");
    reveal_strlit("py");
    assert("js"@.len() == 2 && "mjs"@.len() == 3 && "cjs"@.len() == 3 && "jsx"@.len() == 3);
    assert("py"@.len() == 2 && "py"@[0] == 'p' && "js"@[0] == 'j');
}

/// A project is linted by its own script where it declares one, and not where it declares
/// none.
pub proof fn law_lint_runner(before: Seq<char>, after: Seq<char>, package: Seq<char>, windows: bool)
    ensures
        lint_runner(Some(before + "\"lint\""@ + after), windows) matches Some(r) && {
            &&& r.args == seq!["run"@, "lint"@, "--silent"@]
            &&& r.label == "lint"@
            &&& windows ==> r.prog == "npm.cmd"@
            &&& !windows ==> r.prog == "npm"@
        },
        !text::has_match(package, "\"lint\""@) ==> lint_runner(Some(package), windows) is None,
        lint_runner(None, windows) is None,
{
    reveal_strlit("\"lint\"");
    reveal_strlit("\"");
    reveal_strlit("lint");
    assert("\""@ + "lint"@ + "\""@ =~= "\"lint\""@);
    text::law_holding(before, "\"lint\""@, after, Seq::empty(), 0);
}

/// A project's types are checked by the TypeScript compiler where it is set up for it, and
/// else not at all.
pub proof fn law_types_runner(windows: bool)
    ensures
        types_runner(true, windows) matches Some(r) && {
            &&& r.args == seq!["tsc"@, "--noEmit"@]
            &&& r.label == "typecheck"@
            &&& windows ==> r.prog == "npx.cmd"@
            &&& !windows ==> r.prog == "npx"@
        },
        types_runner(false, windows) is None,
{
}

/// What does not parse is told with its name and the end of the parser's words.
pub proof fn law_parse_report(file: Seq<char>, start: Seq<char>, end: Seq<char>)
    requires
        end.len() == 600,
    ensures
        text::has_match(parse_report(file, start + end), file),
        text::finishes(parse_report(file, start + end), end),
        start.len() > 0 ==> text::finishes(
            parse_report(file, start + end),
            " does not parse:\n"@ + end,
        ),
        text::finishes(parse_report(file, end.skip(1)), " does not parse:\n"@ + end.skip(1)),
{
    let e = Seq::<char>::empty();
    let mark = "⛔ "@;
    let says = " does not parse:\n"@;
    text::law_start_and_end(start, end);
    text::law_start_and_end(seq!['x'], end.skip(1));
    text::law_holding(mark, file, says + end, e, 0);
    assert(mark + file + (says + end) =~= mark + file + says + end);
    text::law_prefix(end, mark + file + says, e);
    text::law_prefix(says + end, mark + file, e);
    let less = end.skip(1);
    text::law_prefix(says + less, mark + file, e);
    assert(mark + file + (says + less) =~= mark + file + says + less);
}

/// A line of an environment file gives its variable the text behind the first `=`, without the
/// quotes around it; a comment, a blank line and a line without `=` give nothing.
pub proof fn law_assignment(key: Seq<char>, value: Seq<char>, quote: char)
    requires
        key.len() > 0 && !text::is_space(key[0]) && !text::is_space(key.last()),
        key[0] != '#',
        !key.contains('='),
        value.len() > 0 && !text::is_space(value[0]) && !text::is_space(value.last()),
        value[0] != '"' && value.last() != '"' && value[0] != '\'' && value.last() != '\'',
        quote == '"' || quote == '\'',
    ensures
        assignment(key + seq!['='] + value) == Some((key, value)),
        assignment(key + seq!['='] + seq![quote] + value + seq![quote]) == Some((key, value)),
        assignment(key) is None,
        assignment(seq!['#'] + key + seq!['='] + value) is None,
        assignment(Seq::empty()) is None,
{
    text::law_white_space('"');
    text::law_white_space('\'');
    text::law_white_space('#');
    let quoted = seq![quote] + value + seq![quote];
    assert(quoted[0] == quote && quoted.last() == quote);
    lemma_assignment(key, value);
    lemma_assignment(key, quoted);
    assert(key + seq!['='] + quoted =~= key + seq!['='] + seq![quote] + value + seq![quote]);
    let e = Seq::<char>::empty();
    text::law_trimming(e, value, e, CharClass::DoubleQuote);
    text::law_trimming(e, value, e, CharClass::SingleQuote);
    assert(e + value + e =~= value);
    if quote == '"' {
        text::law_trimming(seq![quote], value, seq![quote], CharClass::DoubleQuote);
    } else {
        text::law_trimming(e, quoted, e, CharClass::DoubleQuote);
        assert(e + quoted + e =~= quoted);
        text::law_trimming(seq![quote], value, seq![quote], CharClass::SingleQuote);
    }
    text::law_trimming(e, key, e, CharClass::Space);
    assert(e + key + e =~= key);
    assert forall|k: int| 0 <= k < key.len() implies key[k] != '=' by {
        assert(key.contains(key[k]));
    }
    text::lemma_run_before(key, '=', key.len() as int);
    let comment = seq!['#'] + key + seq!['='] + value;
    assert(comment[0] == '#' && comment.last() == value.last());
    text::law_trimming(e, comment, e, CharClass::Space);
    assert(e + comment + e =~= comment);
    reveal_strlit("#");
    assert(comment.subrange(0, 1) =~= "#"@);
    assert(text::trim(e) =~= e);
}

proof fn lemma_assignment(key: Seq<char>, value: Seq<char>)
    requires
        key.len() > 0 && !text::is_space(key[0]) && !text::is_space(key.last()),
        key[0] != '#',
        !key.contains('='),
        value.len() > 0 && !text::is_space(value[0]) && !text::is_space(value.last()),
    ensures
        assignment(key + seq!['='] + value) == Some(
            (
                key,
                text::trim_of(
                    text::trim_of(value, CharClass::DoubleQuote),
                    CharClass::SingleQuote,
                ),
            ),
        ),
{
    let e = Seq::<char>::empty();
    let l = key + seq!['='] + value;
    assert(l[0] == key[0] && l.last() == value.last());
    text::law_trimming(e, l, e, CharClass::Space);
    assert(e + l + e =~= l);
    assert forall|k: int| 0 <= k < key.len() implies l[k] != '=' by {
        assert(key.contains(key[k]));
        assert(l[k] == key[k]);
    }
    assert(l[key.len() as int] == '=');
    text::lemma_run_before(l, '=', key.len() as int);
    assert(l.take(key.len() as int) =~= key);
    assert(l.skip(key.len() as int + 1) =~= value);
    text::law_trimming(e, key, e, CharClass::Space);
    assert(e + key + e =~= key);
    text::law_trimming(e, value, e, CharClass::Space);
    assert(e + value + e =~= value);
    reveal_strlit("#");
    assert(l.subrange(0, 1)[0] == l[0]);
}

proof fn lemma_vars_split(vars: Vars, a: Seq<Seq<char>>, b: Seq<Seq<char>>, n: nat)
    requires
        n <= b.len(),
    ensures
        vars_after(vars, a + b, a.len() + n) == vars_after(vars_after(vars, a, a.len()), b, n),
    decreases n,
{
    if n == 0 {
        lemma_vars_prefix(vars, a, b, a.len());
    } else {
        lemma_vars_split(vars, a, b, (n - 1) as nat);
        assert((a + b)[a.len() + n - 1] == b[n - 1]);
    }
}

proof fn lemma_vars_prefix(vars: Vars, a: Seq<Seq<char>>, b: Seq<Seq<char>>, n: nat)
    requires
        n <= a.len(),
    ensures
        vars_after(vars, a + b, n) == vars_after(vars, a, n),
    decreases n,
{
    if n > 0 {
        lemma_vars_prefix(vars, a, b, (n - 1) as nat);
    }
}

/// A file of two parts does what the first does and then what the second does; one line does
/// what it assigns; and without a file nothing changes.
pub proof fn law_env_file_in_order(vars: Vars, p: Seq<char>, q: Seq<char>, line: Seq<char>)
    requires
        p.len() > 0 ==> p.last() == '\n',
        line.len() > 0 && !line.contains('\n'),
    ensures
        vars_after_file(vars, Some(p + q)) == vars_after_file(vars_after_file(vars, Some(p)), Some(q)),
        vars_after_file(vars, None) == vars,
        assignment(line) matches Some((k, v)) ==> vars_after_file(vars, Some(line)) == with_var(
            vars,
            k,
            v,
        ),
        assignment(line) is None ==> vars_after_file(vars, Some(line)) == vars,
{
    text::law_lines_of_two_texts(p, q);
    lemma_vars_split(vars, text::lines_of(p), text::lines_of(q), text::lines_of(q).len());
    text::law_first_line(line, Seq::empty());
    reveal_with_fuel(vars_after, 2);
    assert(text::lines_of(line)[0] == line);
}

/// A path that is given is the root where it holds a manifest, and refused where it does not.
/// Without one the nearest marked directory is the root.
pub proof fn law_project_root(
    p: Seq<char>,
    dirs: Seq<(String, bool)>,
    i: int,
    marked: bool,
    above: Result<Seq<(String, bool)>, Seq<char>>,
    cause: Seq<char>,
)
    requires
        p.len() > 0,
        0 <= i <= dirs.len(),
        forall|k: int| 0 <= k < i ==> !(#[trigger] dirs[k]).1,
    ensures
        root_of(Some(p), true, above) == Ok::<Seq<char>, Seq<char>>(p),
        root_of(Some(p), false, above) matches Err(e) && text::finishes(e, p),
        i < dirs.len() && dirs[i].1 ==> root_of(None, marked, Ok(dirs)) == Ok::<
            Seq<char>,
            Seq<char>,
        >(dirs[i].0@),
        i == dirs.len() ==> root_of(None, marked, Ok(dirs)) is Err,
        root_of(None, marked, Err(cause)) == Err::<Seq<char>, Seq<char>>(cause),
        root_of(Some(Seq::empty()), marked, above) == root_of(None, marked, above),
{
    text::law_first_flagged(dirs, i);
    text::law_prefix(p, "no recognizable project manifest at "@, Seq::empty());
}

/// White space around a line of an environment file, around the name in it and around the
/// value in it does not count.
pub proof fn law_assignment_spacing(
    a: Seq<char>,
    key: Seq<char>,
    b: Seq<char>,
    c: Seq<char>,
    value: Seq<char>,
    d: Seq<char>,
)
    requires
        forall|i: int| 0 <= i < a.len() ==> text::is_space(#[trigger] a[i]),
        forall|i: int| 0 <= i < b.len() ==> text::is_space(#[trigger] b[i]),
        forall|i: int| 0 <= i < c.len() ==> text::is_space(#[trigger] c[i]),
        forall|i: int| 0 <= i < d.len() ==> text::is_space(#[trigger] d[i]),
        key.len() > 0 && !text::is_space(key[0]) && !text::is_space(key.last()),
        key[0] != '#',
        !key.contains('='),
        value.len() > 0 && !text::is_space(value[0]) && !text::is_space(value.last()),
        value[0] != '"' && value.last() != '"' && value[0] != '\'' && value.last() != '\'',
    ensures
        assignment(a + (key + b + seq!['='] + c + value) + d) == Some((key, value)),
{
    let e = Seq::<char>::empty();
    let l = key + b + seq!['='] + c + value;
    assert(l[0] == key[0] && l.last() == value.last());
    text::law_trimming(a, l, d, CharClass::Space);
    let n = (key.len() + b.len()) as int;
    text::law_white_space('=');
    assert forall|k: int| 0 <= k < n implies l[k] != '=' by {
        if k < key.len() {
            assert(key.contains(key[k]));
            assert(l[k] == key[k]);
        } else {
            assert(l[k] == b[k - key.len()]);
            assert(text::is_space(b[k - key.len()]));
        }
    }
    assert(l[n] == '=');
    text::lemma_run_before(l, '=', n);
    assert(l.take(n) =~= e + key + b);
    text::law_trimming(e, key, b, CharClass::Space);
    assert(l.skip(n + 1) =~= c + value + e);
    text::law_trimming(c, value, e, CharClass::Space);
    text::law_trimming(e, value, e, CharClass::DoubleQuote);
    text::law_trimming(e, value, e, CharClass::SingleQuote);
    assert(e + value + e =~= value);
    reveal_strlit("#");
    assert(l.subrange(0, 1)[0] == l[0]);
}

} // verus!
