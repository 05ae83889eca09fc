//! What is known of a project: its root, its runner, its checks, its environment and its
//! source files.

use rlm_sandbox::cochange::{
    cochange_args, cochange_json, cochange_of, cochange_root, git_cochange_inner, Coupling,
};
use rlm_sandbox::literals::{
    is_scanned_extension, literal_scan_full, literal_scan_reads, literal_source_file,
    literal_target, skip_literal_scan_dir, wanted_literals,
};
use rlm_sandbox::project::{
    check_plan, detect_runner, find_project_root, has_npm_script, is_code_file, load_project_env,
    parse_check_cmd, parse_check_plan, parse_failure, resolve_root, CODE_EXTS, MANIFESTS,
};

fn found(pairs: &[(&str, &str)]) -> Vec<(String, String)> {
    pairs.iter().map(|(name, path)| (name.to_string(), path.to_string())).collect()
}

fn dirs(pairs: &[(&str, bool)]) -> Vec<(String, bool)> {
    pairs.iter().map(|(dir, marked)| (dir.to_string(), *marked)).collect()
}

fn texts(list: &[&str]) -> Vec<String> {
    list.iter().map(|t| t.to_string()).collect()
}

// ---------------------------------------------------------------------------
// Runners and checks
// ---------------------------------------------------------------------------

#[test]
fn code_exts_table_covers_the_previously_drifted_extensions() {
    for ext in [".mjs", ".cjs", ".mts", ".cts", ".java", ".rb", ".php", ".cpp", ".hpp", ".scala"] {
        assert!(CODE_EXTS.contains(&ext), "{ext} missing from CODE_EXTS");
    }
    assert_eq!(CODE_EXTS.len(), 27);
}

#[test]
fn parse_check_table_maps_only_supported_extensions() {
    assert!(parse_check_cmd("js").is_some());
    assert!(parse_check_cmd("mjs").is_some());
    assert!(parse_check_cmd("py").is_some());
    assert!(parse_check_cmd("go").is_none());
    assert!(parse_check_cmd("rs").is_none());
}

#[test]
fn pytest_runner_prefers_the_project_venv() {
    let runner = detect_runner(
        &found(&[("pytest.ini", "/p/pytest.ini"), (".venv/bin/python", "/p/.venv/bin/python")]),
        false,
    ).expect("runner");
    assert_eq!(runner.label, "python");
    assert!(runner.prog.ends_with(".venv/bin/python"), "prog was {}", runner.prog);
    assert_eq!(runner.args, vec!["-m".to_string(), "pytest".to_string()]);
}

#[test]
fn pytest_runner_falls_back_to_path_pytest_without_a_venv() {
    let runner = detect_runner(&found(&[("pytest.ini", "/p/pytest.ini")]), false).expect("runner");
    assert_eq!(runner.label, "python");
    assert_eq!(runner.prog, "pytest");
}

#[test]
fn runner_table_preserves_the_old_selection_order() {
    let runner = detect_runner(
        &found(&[("package.json", "/p/package.json"), ("pytest.ini", "/p/pytest.ini")]),
        false,
    ).expect("runner");
    assert_eq!(runner.label, "node"); // package.json beats the python manifests
    assert!(runner.prog.ends_with("npm") || runner.prog.ends_with("npm.cmd"));
}

#[test]
fn each_manifest_has_its_runner() {
    for (manifest, prog, args, label) in [
        ("package.json", "npm", vec!["test"], "node"),
        ("Cargo.toml", "cargo", vec!["test"], "rust"),
        ("go.mod", "go", vec!["test", "./..."], "go"),
        ("conftest.py", "pytest", vec![], "python"),
        ("Makefile", "make", vec!["test"], "make"),
    ] {
        let runner = detect_runner(&found(&[(manifest, "x")]), false).expect("runner");
        assert_eq!((runner.prog.as_str(), runner.label.as_str()), (prog, label));
        assert_eq!(runner.args, texts(&args));
    }
    assert_eq!(detect_runner(&found(&[("package.json", "x")]), true).expect("runner").prog, "npm.cmd");
    assert_eq!(
        detect_runner(&found(&[("README.md", "x")]), false).err(),
        Some("couldn't detect a test runner for this project".to_string()),
    );
    // the first virtual environment of the table wins, wherever it was found
    let two = detect_runner(
        &found(&[("venv/bin/python", "/b"), (".venv/bin/python", "/a"), ("setup.py", "s")]),
        false,
    ).expect("runner");
    assert_eq!(two.prog, "/a");
}

#[test]
fn parse_checks_go_by_the_extension() {
    assert_eq!(
        parse_check_plan("src/a.b.jsx"),
        Some(("node".to_string(), texts(&["--check", "src/a.b.jsx"]))),
    );
    assert_eq!(
        parse_check_plan("x.py"),
        Some(("python3".to_string(), texts(&["-m", "py_compile", "x.py"]))),
    );
    assert_eq!(parse_check_plan("dir.py/readme"), None);
    assert_eq!(parse_check_plan(".py"), None);
    assert_eq!(parse_check_plan("a.ts"), None);
    assert!(parse_check_plan("src/a:b.js").is_some());
    assert!(parse_check_plan("src\\a.js").is_some());
    let long = "e".repeat(700);
    assert_eq!(
        parse_failure("a.js", long.as_bytes()),
        format!("⛔ a.js does not parse:\n{}", "e".repeat(600)),
    );
}

// ---------------------------------------------------------------------------
// Roots
// ---------------------------------------------------------------------------

#[test]
fn the_root_is_given_or_the_nearest_marked_directory() {
    let above = || Ok(dirs(&[("/a/b/c", false), ("/a/b", true), ("/a", true), ("/", false)]));
    assert_eq!(find_project_root(&above().unwrap()), Some("/a/b".to_string()));
    assert_eq!(find_project_root(&dirs(&[("/", false)])), None);
    assert_eq!(
        resolve_root(Some("/p".to_string()), true, above()),
        Ok("/p".to_string()),
    );
    assert_eq!(
        resolve_root(Some("/p".to_string()), false, above()),
        Err("no recognizable project manifest at /p".to_string()),
    );
    assert_eq!(resolve_root(Some(String::new()), false, above()), Ok("/a/b".to_string()));
    assert_eq!(resolve_root(None, true, above()), Ok("/a/b".to_string()));
    assert_eq!(
        resolve_root(None, true, Ok(dirs(&[("/", false)]))),
        Err("no project root found".to_string()),
    );
    assert_eq!(
        resolve_root(None, true, Err("no cwd".to_string())),
        Err("no cwd".to_string()),
    );
    assert_eq!(MANIFESTS.len(), 8);
}

// ---------------------------------------------------------------------------
// Scripts and environment
// ---------------------------------------------------------------------------

#[test]
fn scripts_are_found_by_their_quoted_name() {
    let package = Some("{\"scripts\":{\"lint\":\"eslint .\"}}".to_string());
    assert!(has_npm_script(&package, "lint"));
    assert!(!has_npm_script(&package, "lin"));
    assert!(!has_npm_script(&None, "lint"));
}

#[test]
fn a_project_has_the_checks_it_is_set_up_for() {
    let package = Some("{\"scripts\":{\"lint\":\"eslint .\"}}".to_string());
    let (lint, types) = check_plan(&package, true, false);
    let lint = lint.expect("a lint");
    assert_eq!((lint.prog.as_str(), lint.args), ("npm", texts(&["run", "lint", "--silent"])));
    let types = types.expect("a type check");
    assert_eq!((types.prog.as_str(), types.args), ("npx", texts(&["tsc", "--noEmit"])));
    let (lint, types) = check_plan(&package, true, true);
    assert_eq!(lint.expect("a lint").prog, "npm.cmd");
    assert_eq!(types.expect("a type check").prog, "npx.cmd");
    let (lint, types) = check_plan(&Some("{}".to_string()), false, false);
    assert!(lint.is_none() && types.is_none());
    assert!(check_plan(&None, false, false).0.is_none());
}

#[test]
fn environment_files_override_one_another() {
    let vars = load_project_env(
        &Some("# note\nA=1\n B = \"two\" \nC='3'\nnothing\n\nA=4\r\n".to_string()),
        &Some("B=x=y\n=bare\nQ=\"'q'\"".to_string()),
    );
    assert_eq!(
        vars,
        found(&[("C", "3"), ("A", "4"), ("B", "x=y"), ("", "bare"), ("Q", "q")]),
    );
    assert_eq!(load_project_env(&None, &None), Vec::new());
}

// ---------------------------------------------------------------------------
// Literals
// ---------------------------------------------------------------------------

#[test]
fn scans_exact_source_literals_without_a_git_index() {
    let wanted = wanted_literals(&texts(&["<think>", "</think>"]));
    let files = [
        (
            "src/stripThinkTags.ts",
            "export const strip = (s: string) => s.replace(/<think>[\\s\\S]*?<\\/think>/gi, '');\n",
        ),
        ("src/other.ts", "export const other = true;\n"),
    ];
    let mut targets = Vec::new();
    for (relative, source) in files {
        assert!(literal_source_file(relative));
        if let Some(target) = literal_target(relative, source, &wanted) {
            targets.push(target);
        }
    }
    assert_eq!(targets.len(), 1);
    assert_eq!(targets[0].path, "src/stripThinkTags.ts");
    assert_eq!(targets[0].hits, 2);
}

#[test]
fn literals_are_compared_without_case_or_escapes() {
    assert_eq!(
        wanted_literals(&texts(&["  <\\/Think> ", "", "  ", "É"])),
        texts(&["</think>", "É"]),
    );
    let target = literal_target("a\\b.ts", "x <\\/THINK>", &wanted_literals(&texts(&["</think>", "y"])))
        .expect("a target");
    assert_eq!(target.path, "a/b.ts");
    assert_eq!(target.hits, 1);
    assert!(literal_target("a.ts", "nothing", &texts(&["x"])).is_none());
}

#[test]
fn only_source_files_outside_built_directories_are_scanned() {
    for name in ["a.ts", "a.TSX", "dir/a.svelte", "a.b.rs"] {
        assert!(literal_source_file(name), "{name}");
    }
    for name in ["a", "a.md", ".ts", "ts", "dir.ts/readme", "a.json"] {
        assert!(!literal_source_file(name), "{name}");
    }
    assert!(is_scanned_extension("Py"));
    assert!(!is_scanned_extension("pyc"));
    assert!(skip_literal_scan_dir("node_modules"));
    assert!(skip_literal_scan_dir("__pycache__"));
    assert!(!skip_literal_scan_dir("src"));
    assert!(!skip_literal_scan_dir("Target"));
    assert!(!literal_scan_full(11_999) && literal_scan_full(12_000));
    assert!(literal_scan_reads(2_000_000) && !literal_scan_reads(2_000_001));
}

// ---------------------------------------------------------------------------
// Co-change
// ---------------------------------------------------------------------------

fn partners<'a>(couplings: &'a [Coupling], file: &str) -> Option<&'a Vec<String>> {
    couplings.iter().find(|c| c.file == file).map(|c| &c.partners)
}

#[test]
fn files_that_change_together_three_times_are_coupled() {
    let commit = "\u{1}\nsrc/a.ts\nsrc/b.ts\nREADME.md\n\n";
    let twice = commit.repeat(2);
    assert!(cochange_of(&twice).is_empty());
    let thrice = format!("{}\u{1}\nsrc/b.ts\nsrc/c.ts\n", commit.repeat(3));
    let couplings = cochange_of(&thrice);
    assert_eq!(couplings.len(), 2);
    assert_eq!(partners(&couplings, "src/a.ts"), Some(&texts(&["src/b.ts"])));
    assert_eq!(partners(&couplings, "src/b.ts"), Some(&texts(&["src/a.ts"])));
    assert_eq!(partners(&couplings, "src/c.ts"), None);
    // a commit that names a file twice couples it with nothing
    assert!(cochange_of(&"\u{1}\nsrc/a.ts\nsrc/a.ts\n".repeat(4)).is_empty());
    let same = git_cochange_inner(thrice.as_bytes());
    assert_eq!(same.len(), 2);
    assert_eq!(
        cochange_json(&couplings).compact(),
        "{\"pairs\":{\"src/a.ts\":[\"src/b.ts\"],\"src/b.ts\":[\"src/a.ts\"]}}",
    );
}

#[test]
fn sweeping_commits_say_nothing() {
    let mut sweep = String::from("\u{1}\n");
    for i in 0..26 {
        sweep.push_str(&format!("f{i}.rs\n"));
    }
    assert!(cochange_of(&sweep.repeat(5)).is_empty());
    let mut small = String::from("\u{1}\n");
    for i in 0..25 {
        small.push_str(&format!("f{i}.rs\n"));
    }
    assert_eq!(cochange_of(&small.repeat(3)).len(), 25);
    assert!(cochange_of(&"\u{1}\nonly.rs\n".repeat(9)).is_empty());
}

#[test]
fn history_is_asked_of_git_projects_only() {
    assert_eq!(
        cochange_root(None, true),
        Err("git_cochange: no project path".to_string()),
    );
    assert_eq!(cochange_root(Some("/p".to_string()), false), Ok(None));
    assert_eq!(cochange_root(Some("/p".to_string()), true), Ok(Some("/p".to_string())));
    assert_eq!(
        cochange_args("/p"),
        texts(&["-C", "/p", "log", "--no-merges", "--name-only", "--pretty=format:%x01", "-n", "1500"]),
    );
}

#[test]
fn code_files_are_told_by_their_ending() {
    assert!(is_code_file("a/b.kts"));
    assert!(is_code_file(".rs"));
    assert!(!is_code_file("a.rs.bak"));
    assert!(!is_code_file("rs"));
}
