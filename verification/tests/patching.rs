//! Edits, verification reports and the bookkeeping around them.

use rlm_sandbox::changes::{changed_files, changes_json};
use rlm_sandbox::edits::{
    apply_edits, commit_message, edit_list, group_edits_by_file, patch_files, Edit, Patched,
};
use rlm_sandbox::report::{
    check_error_set, count_errors, failure_fingerprints, holds_text, new_check_errors, new_texts,
    parse_failed, strip_ansi, tells_of_failure,
};
use rlm_sandbox::shadow::{
    changed_args, listed_paths, overlay_plan, paths_of_text, project_files_args, shadow_name,
    untracked_args, worktree_add_args, worktree_failure, worktree_prune_args,
    worktree_remove_args, Overlay,
};
use rlm_sandbox::bytes::{git_path, readable_paths, zero_entries};
use rlm_sandbox::textmap::TextMap;
use rlm_sandbox::verify::{
    apply_result, baseline_key, baseline_of, checks_of, combined_output, head_hash,
    recall_baseline, run_project_checks, run_tests_inner, suite_failure, suite_outcome, suite_run,
    verify_outcome, Baseline, CheckRun,
};

fn edit(file: Option<&str>, search: &str, replace: &str) -> Edit {
    Edit { file: file.map(String::from), search: search.to_string(), replace: replace.to_string() }
}

fn texts(list: &[&str]) -> Vec<String> {
    list.iter().map(|t| t.to_string()).collect()
}

// ---------------------------------------------------------------------------
// Edits
// ---------------------------------------------------------------------------

#[test]
fn a_batch_stands_before_a_single_edit() {
    let batch = edit_list(
        Some("s".to_string()),
        Some("r".to_string()),
        Some(vec![edit(Some("f"), "a", "b")]),
    );
    assert_eq!(batch.len(), 1);
    assert_eq!(batch[0].search, "a");
    for edits in [None, Some(Vec::new())] {
        let single = edit_list(Some("s".to_string()), None, edits);
        assert_eq!(single.len(), 1);
        assert_eq!(single[0].file, None);
        assert_eq!((single[0].search.as_str(), single[0].replace.as_str()), ("s", ""));
    }
}

#[test]
fn edits_are_grouped_by_file_in_order() {
    let groups = group_edits_by_file(
        "m.ts",
        &vec![
            edit(Some("z.ts"), "1", "a"),
            edit(None, "2", "b"),
            edit(Some("a.ts"), "3", "c"),
            edit(Some("m.ts"), "4", "d"),
            edit(Some("z.ts"), "5", "e"),
        ],
    );
    let shape: Vec<(String, Vec<String>)> = groups
        .iter()
        .map(|g| (g.file.clone(), g.edits.iter().map(|e| e.search.clone()).collect()))
        .collect();
    assert_eq!(
        shape,
        vec![
            ("a.ts".to_string(), texts(&["3"])),
            ("m.ts".to_string(), texts(&["2", "4"])),
            ("z.ts".to_string(), texts(&["1", "5"])),
        ],
    );
}

#[test]
fn hunks_apply_in_order_or_not_at_all() {
    assert_eq!(
        apply_edits("a b a", &vec![edit(None, "a", "x"), edit(None, "x b", "y")]),
        Ok("y a".to_string()),
    );
    assert_eq!(apply_edits("", &vec![edit(None, "", "new")]), Ok("new".to_string()));
    assert_eq!(
        apply_edits("old", &vec![edit(None, "", "new")]),
        Err("hunk 1: empty search on a non-empty file".to_string()),
    );
    assert_eq!(
        apply_edits("a", &vec![edit(None, "a", "b"), edit(None, "first line\nsecond", "")]),
        Err("hunk 2 search not found: first line".to_string()),
    );
    assert_eq!(apply_edits("same", &Vec::new()), Ok("same".to_string()));
}

#[test]
fn a_batch_applies_as_its_halves_in_turn() {
    let first = vec![edit(None, "a", "b")];
    let second = vec![edit(None, "b", "c"), edit(None, "c", "dd")];
    let whole = vec![edit(None, "a", "b"), edit(None, "b", "c"), edit(None, "c", "dd")];
    let middle = apply_edits("xa", &first).expect("a text");
    assert_eq!(apply_edits(&middle, &second), apply_edits("xa", &whole));
    assert_eq!(apply_edits("xa", &whole), Ok("xdd".to_string()));
    assert_eq!(apply_edits("x", &whole), apply_edits("x", &first));
}

#[test]
fn one_file_that_fails_fails_them_all() {
    let groups = group_edits_by_file("b", &vec![edit(Some("a"), "1", "2"), edit(None, "x", "y")]);
    let patched = patch_files(&groups, &texts(&["1", "x"])).expect("patched");
    assert_eq!(patched.len(), 2);
    assert_eq!((patched[0].file.as_str(), patched[0].content.as_str()), ("a", "2"));
    assert_eq!((patched[1].file.as_str(), patched[1].content.as_str()), ("b", "y"));
    assert_eq!(
        patch_files(&groups, &texts(&["1", "z"])).err(),
        Some("hunk 1 search not found: x".to_string()),
    );
}

#[test]
fn a_land_has_a_message() {
    assert_eq!(commit_message(Some(" move it ".to_string())), " move it ");
    assert_eq!(commit_message(Some(" \n".to_string())), "rlm: landed refactor");
    assert_eq!(commit_message(None), "rlm: landed refactor");
    let landed = apply_result("a.ts".to_string());
    assert!(landed.applied);
    assert_eq!(landed.file, "a.ts");
}

// ---------------------------------------------------------------------------
// Reports
// ---------------------------------------------------------------------------

#[test]
fn colours_are_stripped() {
    assert_eq!(strip_ansi("\u{1b}[31mred\u{1b}[0m plain"), "red plain");
    assert_eq!(strip_ansi("cut \u{1b}[3"), "cut ");
    assert_eq!(strip_ansi(&strip_ansi("\u{1b}[1mx")), strip_ansi("\u{1b}[1mx"));
}

#[test]
fn failures_are_counted() {
    assert_eq!(parse_failed("Tests  3 failed | 10 passed"), Some(3));
    assert_eq!(parse_failed("\u{1b}[31m12\u{1b}[0m failed"), Some(12));
    assert_eq!(parse_failed("it failed, 2 failed"), Some(2));
    assert_eq!(parse_failed("99999999999999999999 failed, 4\tfailed"), Some(4));
    assert_eq!(parse_failed("9223372036854775807 failed"), Some(i64::MAX));
    assert_eq!(parse_failed("9223372036854775808 failed"), None);
    assert_eq!(parse_failed("all passed"), Some(0));
    assert_eq!(parse_failed("test result: ok"), Some(0));
    assert_eq!(parse_failed("x ok y"), Some(0));
    assert_eq!(parse_failed("ok  \texample.com/pkg\t0.01s\n"), Some(0));
    assert_eq!(parse_failed("token broken"), None);
    assert_eq!(parse_failed("ok  \tx/a\t0.01s\nFAIL\tx/b\t0.02s\n"), None);
    assert!(tells_of_failure("ok  \tx/a\n\u{1b}[31mFAIL\u{1b}[0m\tx/b\n"));
    assert!(!tells_of_failure("it may FAIL"));
    assert_eq!(parse_failed("failed"), None);
    assert_eq!(parse_failed(""), None);
}

#[test]
fn error_lines_are_counted() {
    assert_eq!(count_errors("a.ts(1,2): error TS1: x\nb: error TS2: y error TS3\nerror"), 3);
    assert_eq!(count_errors("1:2  Error  no\nfine\n3:4  error  yes"), 2);
    assert_eq!(count_errors("all good"), 0);
}

#[test]
fn error_is_found_in_whatever_case_a_letter_can_have() {
    // the letters whose lower case is one of those of the word, by themselves
    let word = ['e', 'r', 'o'];
    for n in 0..=0x10FFFFu32 {
        let c = match char::from_u32(n) {
            Some(c) => c,
            None => continue,
        };
        if n >= 128 {
            let lowered: Vec<char> = c.to_lowercase().collect();
            assert!(!lowered.iter().any(|l| word.contains(l)), "{n:x}");
        }
    }
    for line in ["ERROR", "eRRoR", "xErrorx"] {
        assert_eq!(count_errors(line), 1);
    }
}

#[test]
fn space_is_what_the_platform_trims() {
    for n in 0..=0x10FFFFu32 {
        let c = match char::from_u32(n) {
            Some(c) => c,
            None => continue,
        };
        let padded = format!("{c}x{c}");
        assert_eq!(rlm_sandbox::text::trimmed(&padded), padded.trim(), "{n:x}");
    }
}

#[test]
fn fingerprints_name_failures_without_their_numbers() {
    let prints = failure_fingerprints(
        "  × suite > case 12 ms\n✗ other 3\n❯ file.test.ts (2)\nFAIL  a\n--- FAIL: TestX (0.01s)\nok fine\nFAILED tests/x.py::y\n✕ abcd",
    );
    for expected in ["× suite > case ms", "✗ other", "❯ file.test.ts ()", "FAIL a",
        "--- FAIL: TestX (.s)", "FAILED tests/x.py::y", "✕ abcd"]
    {
        assert!(prints.contains(&expected.to_string()), "{expected} in {prints:?}");
    }
    assert_eq!(prints.len(), 7);
    // too short to tell anything, by its bytes
    assert!(failure_fingerprints("FAIL\n× 1").is_empty());
    assert_eq!(failure_fingerprints("× é"), vec!["× é".to_string()]);
    assert_eq!(failure_fingerprints("FAIL x 1\nFAIL x 2"), vec!["FAIL x".to_string()]);
    // outputs that differ in nothing but digits have the same ones
    assert_eq!(
        failure_fingerprints("\u{1b}[31m× a (12 ms)\r\nFAIL b:7\n8 done"),
        failure_fingerprints("\u{1b}[92m× a (98 ms)\r\nFAIL b:0\n1 done"),
    );
}

#[test]
fn only_new_findings_are_told() {
    assert_eq!(new_texts(&texts(&["a", "b"]), &texts(&["b"])), texts(&["a"]));
    assert!(new_texts(&texts(&["a"]), &texts(&["a"])).is_empty());
    assert!(holds_text(&texts(&["a"]), "a"));
    assert!(!holds_text(&texts(&["a"]), "b"));
    let before = check_error_set("  12:3  error  old one\nfine");
    assert_eq!(before, texts(&["error  old one"]));
    assert_eq!(new_check_errors("  99:1  error  old one\n 1:1 error new", &before), "1:1 error new");
    assert_eq!(new_check_errors("12:3 error", &check_error_set("12:3 error")), "");
}

// ---------------------------------------------------------------------------
// Suites and checks
// ---------------------------------------------------------------------------

#[test]
fn a_suite_is_judged_by_its_output_and_else_by_its_code() {
    let run = suite_outcome("node".to_string(), Some(1), b"2 failed", b" and \xff");
    assert_eq!((run.code, run.failed), (1, 2));
    assert_eq!(run.output, "2 failed and \u{fffd}");
    assert_eq!(suite_run("x".to_string(), Some(0), "quiet".to_string()).failed, 0);
    assert_eq!(suite_run("x".to_string(), Some(3), "quiet".to_string()).failed, 1);
    let killed = suite_run("x".to_string(), None, "quiet".to_string());
    assert_eq!((killed.code, killed.failed), (-1, 1));
    assert_eq!(suite_failure("npm", "gone"), "failed to run npm: gone");
    assert_eq!(combined_output(b"a", b"b"), "ab");
    let long = suite_run("node".to_string(), Some(0), "y".repeat(2_500));
    let result = run_tests_inner(long);
    assert_eq!(result.output.len(), 2_000);
    assert_eq!((result.runner.as_str(), result.code, result.failed), ("node", 0, 0));
}

#[test]
fn checks_that_succeed_or_are_missing_count_nothing() {
    let ended = |success: bool, out: &str| {
        Some(CheckRun::Ended { success, stdout: out.as_bytes().to_vec(), stderr: Vec::new() })
    };
    let none = run_project_checks(&None, &None).ok().expect("checks");
    assert_eq!((none.lint, none.types, none.output.as_str()), (0, 0, ""));
    let fine = run_project_checks(&ended(true, "error"), &None).ok().expect("checks");
    assert_eq!(fine.lint, 0);
    let both =
        run_project_checks(&ended(false, "1:1 error x"), &ended(false, "error TS1 error TS2 error"))
            .ok()
            .expect("checks");
    assert_eq!((both.lint, both.types), (1, 2));
    assert_eq!(both.output, "[lint]\n1:1 error x\n[typecheck]\nerror TS1 error TS2 error\n");
    assert_eq!(both.complaints, both.output);
    assert_eq!(checks_of(Some("error".to_string()), None).lint, 1);
}

#[test]
fn a_check_that_runs_out_of_time_is_an_error() {
    let late = Some(CheckRun::TimedOut("command timed out after 120s".to_string()));
    assert_eq!(
        run_project_checks(&late, &None).err(),
        Some("failed to run lint: command timed out after 120s".to_string()),
    );
    assert_eq!(
        run_project_checks(&None, &late).err(),
        Some("failed to run typecheck: command timed out after 120s".to_string()),
    );
}

#[test]
fn an_error_far_from_the_end_is_still_compared() {
    let early = format!("1:1 error early\n{}", "2:2 error late\n".repeat(100));
    let base = baseline_of(
        &suite_run("node".to_string(), Some(0), "all passed".to_string()),
        &checks_of(Some("2:2 error late\n".repeat(101)), None),
    );
    let checks = checks_of(Some(early), None);
    assert!(!checks.output.contains("error early"));
    let result = verify_outcome(
        &base,
        None,
        suite_run("node".to_string(), Some(0), "all passed".to_string()),
        &checks,
        &Vec::new(),
    );
    assert!(result.output.contains("1:1 error early"));
    assert!(!result.output.contains("error late"));
}

#[test]
fn new_errors_of_both_checks_are_shown() {
    let lint = format!("error {}", "l".repeat(794));
    let types = format!("error {}", "t".repeat(794));
    let result = verify_outcome(
        &clean_baseline(),
        None,
        suite_run("node".to_string(), Some(0), "all passed".to_string()),
        &checks_of(Some(lint.clone()), Some(types.clone())),
        &Vec::new(),
    );
    assert!(result.output.contains(&format!("{lint}\n{types}\n")));
}

#[test]
fn a_suite_that_ran_no_test_is_told_apart() {
    let verdict = |output: String| {
        verify_outcome(
            &clean_baseline(),
            None,
            suite_run("node".to_string(), Some(0), output),
            &checks_of(None, None),
            &Vec::new(),
        )
    };
    let quiet = verdict("quiet".to_string());
    assert!(!quiet.tests_ran);
    assert_eq!(quiet.output, "quiet\n0 tests detected (types/lint only)\n");
    let long = verdict("y".repeat(9_000));
    assert!(!long.tests_ran);
    assert!(long.output.ends_with("0 tests detected (types/lint only)\n"));
    // a suite that failed without saying how often has run
    let failed = verify_outcome(
        &clean_baseline(),
        None,
        suite_run("go".to_string(), Some(1), "--- FAIL: TestA\nFAIL\n".to_string()),
        &checks_of(None, None),
        &Vec::new(),
    );
    assert!(failed.broke && failed.tests_ran);
    assert_eq!(failed.after_failed, 1);
    assert!(!failed.output.contains("0 tests detected"));
    let mixed = suite_run(
        "go".to_string(),
        Some(1),
        "ok  \tx/a\t0.01s\nFAIL\tx/b\t0.02s\n".to_string(),
    );
    assert_eq!(mixed.failed, 1);
    let ran = verdict("all passed".to_string());
    assert!(ran.tests_ran);
    assert_eq!(ran.output, "all passed");
}

fn clean_baseline() -> Baseline {
    baseline_of(&suite_run("node".to_string(), Some(0), "all passed".to_string()), &checks_of(None, None))
}

#[test]
fn baselines_are_kept_per_project_and_commit() {
    assert_eq!(head_hash(true, b"abc\n"), "abc");
    assert_eq!(head_hash(false, b"abc\n"), "");
    assert_eq!(baseline_key("/p", "abc"), "/p@abc");
    let mut cache: TextMap<Baseline> = TextMap::new();
    assert!(recall_baseline(&cache, "/p@abc").is_none());
    let mut seen = clean_baseline();
    seen.failed = 7;
    cache.set("/p@abc".to_string(), seen);
    assert_eq!(recall_baseline(&cache, "/p@abc").expect("kept").failed, 7);
    assert!(recall_baseline(&cache, "/p@abd").is_none());
}

#[test]
fn a_change_that_keeps_everything_breaks_nothing() {
    let result = verify_outcome(
        &clean_baseline(),
        None,
        suite_run("node".to_string(), Some(0), "all passed".to_string()),
        &checks_of(None, None),
        &vec![Patched { file: "a".to_string(), content: "x".to_string() }],
    );
    assert!(!result.broke);
    assert!(result.reverted);
    assert_eq!(result.output, "all passed");
    assert_eq!((result.baseline_failed, result.after_failed), (0, 0));
}

#[test]
fn a_new_failure_breaks_even_where_the_count_stays() {
    let base = baseline_of(
        &suite_run("node".to_string(), Some(1), "× old test\n1 failed".to_string()),
        &checks_of(Some("error one".to_string()), None),
    );
    let result = verify_outcome(
        &base,
        Some("⛔ a does not parse:\nx".to_string()),
        suite_run("node".to_string(), Some(1), "× new test\n1 failed".to_string()),
        &checks_of(Some("error one\nerror two".to_string()), Some("error TS9".to_string())),
        &vec![Patched { file: "a".to_string(), content: "c".repeat(800) }],
    );
    assert!(result.broke);
    assert_eq!((result.baseline_failed, result.after_failed), (1, 1));
    assert_eq!((result.lint_new, result.type_new), (1, 1));
    assert_eq!(
        result.output,
        format!(
            "⛔ a does not parse:\nx\nNEW failing tests (not failing at baseline):\n  - × new test\n\
             NEW lint/type errors (introduced by this change):\nerror two\nerror TS9\n\
             × new test\n1 failed\nSTAGED source excerpts (shadow only):\n--- a ---\n{}\n",
            "c".repeat(700),
        ),
    );
}

#[test]
fn fewer_findings_than_before_are_no_new_ones() {
    let base = baseline_of(
        &suite_run("node".to_string(), Some(1), "3 failed".to_string()),
        &checks_of(Some("error\nerror".to_string()), Some("error TS1".to_string())),
    );
    let result = verify_outcome(
        &base,
        None,
        suite_run("node".to_string(), Some(0), "all passed".to_string()),
        &checks_of(None, None),
        &Vec::new(),
    );
    assert!(!result.broke);
    assert_eq!((result.lint_new, result.type_new), (0, 0));
}

// ---------------------------------------------------------------------------
// Files
// ---------------------------------------------------------------------------

fn files(list: &[(&str, &str)]) -> TextMap<String> {
    let mut map = TextMap::new();
    for (name, content) in list {
        map.set(name.to_string(), content.to_string());
    }
    map
}

#[test]
fn changed_files_are_listed_by_name() {
    let before = files(&[("b", "1"), ("a", "1"), ("gone", "x"), ("empty", "")]);
    let after = files(&[("a", "1"), ("b", "2"), ("new", "n")]);
    let changes = changed_files(&before, &after);
    let shape: Vec<(&str, &str, &str)> = changes
        .iter()
        .map(|c| (c.relative.as_str(), c.previous.as_str(), c.content.as_str()))
        .collect();
    assert_eq!(shape, vec![("b", "1", "2"), ("gone", "x", ""), ("new", "", "n")]);
    let json = changes_json(&changes);
    assert_eq!(
        json[0].compact(),
        "{\"content\":\"2\",\"path\":\"b\",\"previous\":\"1\",\"relative\":\"b\"}",
    );
    assert!(changed_files(&before, &before).is_empty());
}

#[test]
fn text_maps_keep_one_value_per_key_in_order() {
    let mut map = files(&[("b", "2"), ("a", "1"), ("c", "3"), ("b", "4")]);
    assert_eq!(map.len(), 3);
    assert_eq!(map.entry(0).0, "a");
    assert_eq!(map.get("b"), Some(&"4".to_string()));
    assert_eq!(map.get("x"), None);
    assert_eq!(map.remove("b"), Some("4".to_string()));
    assert_eq!(map.remove("b"), None);
    assert_eq!(map.len(), 2);
}

#[test]
fn zero_separated_lists_are_read_entry_by_entry() {
    let output = b"a.ts\0b/\xff\0\0c.ts\0";
    assert_eq!(
        zero_entries(output),
        vec![b"a.ts".to_vec(), b"b/\xff".to_vec(), b"c.ts".to_vec()],
    );
    assert_eq!(readable_paths(output), texts(&["a.ts", "c.ts"]));
    assert_eq!(git_path(b"a.ts"), Ok("a.ts".to_string()));
    assert_eq!(git_path(b"\xff"), Err("non-utf8 git path".to_string()));
}

#[test]
fn shadows_are_named_and_made_by_git() {
    assert_eq!(shadow_name(42, 1_700), "rlm-shadow-42-1700");
    assert_eq!(
        worktree_add_args("/p", "/s"),
        texts(&["-C", "/p", "worktree", "add", "--detach", "/s", "HEAD"]),
    );
    assert_eq!(
        worktree_remove_args("/p", "/s"),
        texts(&["-C", "/p", "worktree", "remove", "--force", "/s"]),
    );
    assert_eq!(worktree_prune_args("/p"), texts(&["-C", "/p", "worktree", "prune"]));
    assert_eq!(changed_args("/p"), texts(&["-C", "/p", "diff", "HEAD", "--name-only"]));
    assert_eq!(
        untracked_args("/p"),
        texts(&["-C", "/p", "ls-files", "--others", "--exclude-standard"]),
    );
    assert_eq!(
        project_files_args("/p"),
        texts(&["-C", "/p", "ls-files", "-z", "--cached", "--others", "--exclude-standard"]),
    );
    assert_eq!(
        worktree_failure(b"fatal: no"),
        "git worktree add failed (shadow verify needs a git repo): fatal: no",
    );
}

#[test]
fn the_working_tree_is_laid_over_a_shadow() {
    assert_eq!(paths_of_text(" a.ts \n\n b.ts\r\n"), texts(&["a.ts", "b.ts"]));
    assert_eq!(listed_paths(b"a.ts\nb.ts\n"), texts(&["a.ts", "b.ts"]));
    let plan = overlay_plan(
        &vec![("kept".to_string(), true), ("deleted".to_string(), false)],
        &texts(&["fresh"]),
    );
    assert_eq!(
        plan,
        vec![
            ("kept".to_string(), Overlay::Copy),
            ("deleted".to_string(), Overlay::Remove),
            ("fresh".to_string(), Overlay::Copy),
        ],
    );
}
