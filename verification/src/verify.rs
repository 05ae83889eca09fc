//! Verification: what a change does to a project's tests and checks.
//!
//! The tests and checks run in a shadow, before the change and after it. A change is held
//! to have broken something only where there is something new: more failures, another
//! failure, a new complaint of a linter, or a file that no longer parses.

use crate::bytes::{self, lossy_text};
use crate::edits::{self, Patched};
use crate::report::{
    self, check_error_set, count_errors, failure_fingerprints, new_check_errors, new_texts,
    parse_failed, tells_of_failure,
};
use crate::text::{self, count_matches, head, tail, trimmed};
use crate::textmap::TextMap;
use vstd::prelude::*;

verus! {

// ---------------------------------------------------------------------------
// Runs
// ---------------------------------------------------------------------------

/// How long a suite may take, in seconds.
pub const SUITE_TIMEOUT_SECS: u64 = 300;

/// How long a check may take, in seconds.
pub const CHECK_TIMEOUT_SECS: u64 = 120;

/// What a run of a test suite came to.
pub struct SuiteRun {
    pub runner: String,
    pub code: i32,
    pub failed: i64,
    pub output: String,
}

/// The exit code of a process, or -1 where it has none.
pub open spec fn code_or_none(code: Option<i32>) -> i32 {
    match code {
        Some(c) => c,
        None => -1i32,
    }
}

/// How many tests failed: as many as the output says, or else none or one by the exit code.
pub open spec fn failed_by(output: Seq<char>, code: i32) -> nat {
    match report::failures_in(output) {
        Some(n) => n,
        None => if code == 0 {
            0
        } else {
            1
        },
    }
}

/// What a run of a test suite came to that printed `output`.
pub fn suite_run(runner: String, code: Option<i32>, output: String) -> (run: SuiteRun)
    ensures
        run.runner == runner,
        run.code == code_or_none(code),
        run.failed >= 0,
        run.failed == failed_by(output@, code_or_none(code)),
        run.output == output,
{
    let code: i32 = match code {
        Some(c) => c,
        None => -1,
    };
    let failed: i64 = match parse_failed(output.as_str()) {
        Some(n) => n,
        None => if code == 0 {
            0
        } else {
            1
        },
    };
    SuiteRun { runner, code, failed, output }
}

/// What a process printed: its output, and its errors behind it.
pub open spec fn combined(stdout: Seq<u8>, stderr: Seq<u8>) -> Seq<char> {
    bytes::lossy_utf8(stdout) + bytes::lossy_utf8(stderr)
}

/// What a process printed: its output, and its errors behind it.
pub fn combined_output(stdout: &[u8], stderr: &[u8]) -> (output: String)
    ensures
        output@ == combined(stdout@, stderr@),
{
    let output: String = lossy_text(stdout);
    output.concat(lossy_text(stderr).as_str())
}

/// What a run of a test suite came to, by what its process left.
pub fn suite_outcome(runner: String, code: Option<i32>, stdout: &[u8], stderr: &[u8]) -> (run:
    SuiteRun)
    ensures
        run.runner == runner,
        run.code == code_or_none(code),
        run.failed == failed_by(combined(stdout@, stderr@), code_or_none(code)),
        run.output@ == combined(stdout@, stderr@),
{
    suite_run(runner, code, combined_output(stdout, stderr))
}

/// What is told of a suite that could not be run.
pub fn suite_failure(prog: &str, error: &str) -> (message: String)
    ensures
        message@ == "failed to run "@ + prog@ + ": "@ + error@,
{
    let mut message: String = "failed to run ".to_owned();
    message.append(prog);
    message.append(": ");
    message.append(error);
    message
}

/// What the browser is told of a run of the tests.
pub struct TestResult {
    pub runner: String,
    pub code: i32,
    pub failed: i64,
    pub output: String,
}

/// Does `result` tell of a run? It says how many tests failed, and the end of what was printed.
pub open spec fn result_shows(result: TestResult, run: SuiteRun) -> bool {
    &&& result.runner == run.runner
    &&& result.code == run.code
    &&& result.failed == run.failed
    &&& result.output@ == text::tail_of(run.output@, 2000)
}

/// What the browser is told of a run of the tests: the end of the output will do.
pub fn run_tests_inner(run: SuiteRun) -> (result: TestResult)
    ensures
        result_shows(result, run),
        result.runner == run.runner,
        result.code == run.code,
        result.failed == run.failed,
        result.output@ == text::tail_of(run.output@, 2000),
{
    let output: String = tail(run.output.as_str(), 2000);
    TestResult { runner: run.runner, code: run.code, failed: run.failed, output }
}

/// What became of a linter that was run.
pub enum CheckRun {
    /// It ended: whether it succeeded, and what it printed.
    Ended { success: bool, stdout: Vec<u8>, stderr: Vec<u8> },
    /// It ran out of time, and was told so in these words.
    TimedOut(String),
}

/// What a project's own checks came to: how many errors, the end of what was printed for
/// showing it, and the whole of it.
pub struct ProjectChecks {
    pub lint: usize,
    pub types: usize,
    pub output: String,
    pub complaints: String,
}

/// What a linter complained of, where it was run to its end and did not succeed.
pub open spec fn complaint(check: Option<CheckRun>) -> Option<Seq<char>> {
    match check {
        Some(CheckRun::Ended { success, stdout, stderr }) => if success {
            None
        } else {
            Some(combined(stdout@, stderr@))
        },
        _ => None,
    }
}

/// Why a linter ran out of time, where it did.
pub open spec fn overtime(check: Option<CheckRun>) -> Option<Seq<char>> {
    match check {
        Some(CheckRun::TimedOut(e)) => Some(e@),
        _ => None,
    }
}

/// A complaint under a heading, its end only.
pub open spec fn section(heading: Seq<char>, complaint: Option<Seq<char>>) -> Seq<char> {
    match complaint {
        Some(c) => heading + text::tail_of(c, 800) + "\n"@,
        None => Seq::empty(),
    }
}

/// The whole of a complaint under a heading.
pub open spec fn whole(heading: Seq<char>, complaint: Option<Seq<char>>) -> Seq<char> {
    match complaint {
        Some(c) => heading + c + "\n"@,
        None => Seq::empty(),
    }
}

/// What the lint and the type check of a project came to. One that was not run, or that
/// succeeded, counts nothing.
pub open spec fn checks_come_to(
    checks: ProjectChecks,
    lint: Option<Seq<char>>,
    types: Option<Seq<char>>,
) -> bool {
    &&& checks.lint == (match lint {
        Some(c) => report::errors_in(c),
        None => 0,
    })
    &&& checks.types == (match types {
        Some(c) => text::count_of(c, "error TS"@),
        None => 0,
    })
    &&& checks.output@ == section("[lint]\n"@, lint) + section("[typecheck]\n"@, types)
    &&& checks.complaints@ == whole("[lint]\n"@, lint) + whole("[typecheck]\n"@, types)
}

/// A complaint, where there is one.
fn read_complaint(check: &Option<CheckRun>) -> (c: Option<String>)
    ensures
        text::opt_view(c) == complaint(*check),
{
    match check {
        Some(CheckRun::Ended { success, stdout, stderr }) => if *success {
            None
        } else {
            Some(combined_output(stdout.as_slice(), stderr.as_slice()))
        },
        _ => None,
    }
}

/// Appends the whole of a complaint under a heading.
fn append_whole(out: &mut String, heading: &str, c: &Option<String>)
    ensures
        final(out)@ == old(out)@ + whole(heading@, text::opt_view(*c)),
{
    let ghost start = out@;
    if let Some(c) = c {
        out.append(heading);
        out.append(c.as_str());
        out.append("\n");
    }
    assert(out@ =~= start + whole(heading@, text::opt_view(*c)));
}

/// What the lint and the type check of a project came to, by what they complained of.
pub fn checks_of(lint: Option<String>, types: Option<String>) -> (checks: ProjectChecks)
    ensures
        checks_come_to(checks, text::opt_view(lint), text::opt_view(types)),
{
    let mut output: String = String::new();
    let mut lint_errors: usize = 0;
    let mut type_errors: usize = 0;
    if let Some(c) = &lint {
        lint_errors = count_errors(c.as_str());
        output.append("[lint]\n");
        output.append(tail(c.as_str(), 800).as_str());
        output.append("\n");
    }
    assert(output@ =~= section("[lint]\n"@, text::opt_view(lint)));
    let ghost before = output@;
    if let Some(c) = &types {
        type_errors = count_matches(c.as_str(), "error TS");
        output.append("[typecheck]\n");
        output.append(tail(c.as_str(), 800).as_str());
        output.append("\n");
    }
    assert(output@ =~= before + section("[typecheck]\n"@, text::opt_view(types)));
    let mut complaints: String = String::new();
    append_whole(&mut complaints, "[lint]\n", &lint);
    append_whole(&mut complaints, "[typecheck]\n", &types);
    assert(complaints@ =~= whole("[lint]\n"@, text::opt_view(lint)) + whole(
        "[typecheck]\n"@,
        text::opt_view(types),
    ));
    ProjectChecks { lint: lint_errors, types: type_errors, output, complaints }
}

/// What the lint and the type check of a project came to, by what became of them. One that
/// was not run counts nothing; one that ran out of time is an error, so that it is never
/// taken for a success.
pub fn run_project_checks(lint: &Option<CheckRun>, types: &Option<CheckRun>) -> (checks: Result<
    ProjectChecks,
    String,
>)
    ensures
        match overtime(*lint) {
            Some(e) => checks matches Err(f) && f@ == "failed to run lint: "@ + e,
            None => match overtime(*types) {
                Some(e) => checks matches Err(f) && f@ == "failed to run typecheck: "@ + e,
                None => checks matches Ok(c) && checks_come_to(
                    c,
                    complaint(*lint),
                    complaint(*types),
                ),
            },
        },
{
    if let Some(CheckRun::TimedOut(e)) = lint {
        let message: String = "failed to run lint: ".to_owned();
        return Err(message.concat(e.as_str()));
    }
    if let Some(CheckRun::TimedOut(e)) = types {
        let message: String = "failed to run typecheck: ".to_owned();
        return Err(message.concat(e.as_str()));
    }
    Ok(checks_of(read_complaint(lint), read_complaint(types)))
}

// ---------------------------------------------------------------------------
// The baseline
// ---------------------------------------------------------------------------

/// What the project was like before the change.
pub struct Baseline {
    pub failed: i64,
    pub fingerprints: Vec<String>,
    pub lint: usize,
    pub types: usize,
    pub check_errors: Vec<String>,
}

/// Is `b` what a suite and the checks came to?
pub open spec fn baseline_shows(b: Baseline, suite: SuiteRun, checks: ProjectChecks) -> bool {
    &&& b.failed == suite.failed
    &&& text::views(b.fingerprints@) == report::fingerprints_in(suite.output@)
    &&& b.lint == checks.lint
    &&& b.types == checks.types
    &&& text::views(b.check_errors@) == report::error_set_in(checks.complaints@)
}

/// What the project was like before the change.
pub fn baseline_of(suite: &SuiteRun, checks: &ProjectChecks) -> (b: Baseline)
    ensures
        baseline_shows(b, *suite, *checks),
{
    Baseline {
        failed: suite.failed,
        fingerprints: failure_fingerprints(suite.output.as_str()),
        lint: checks.lint,
        types: checks.types,
        check_errors: check_error_set(checks.complaints.as_str()),
    }
}

/// Do two baselines say the same?
pub open spec fn same_baseline(a: Baseline, b: Baseline) -> bool {
    &&& a.failed == b.failed
    &&& text::views(a.fingerprints@) == text::views(b.fingerprints@)
    &&& a.lint == b.lint
    &&& a.types == b.types
    &&& text::views(a.check_errors@) == text::views(b.check_errors@)
}

/// Copies of all texts of a list.
fn copy_texts(list: &Vec<String>) -> (copy: Vec<String>)
    ensures
        text::views(copy@) == text::views(list@),
{
    let ghost all = text::views(list@);
    let mut copy: Vec<String> = text::no_texts();
    let mut i: usize = 0;
    while i < list.len()
        invariant
            i <= list@.len(),
            all == text::views(list@),
            text::views(copy@) == all.take(i as int),
        decreases list@.len() - i,
    {
        text::push_text(&mut copy, list[i].as_str());
        assert(all.take(i + 1) =~= all.take(i as int).push(all[i as int]));
        i += 1;
    }
    assert(all.take(i as int) =~= all);
    copy
}

impl Baseline {
    /// A second baseline that says the same.
    pub fn duplicate(&self) -> (copy: Baseline)
        ensures
            same_baseline(copy, *self),
    {
        Baseline {
            failed: self.failed,
            fingerprints: copy_texts(&self.fingerprints),
            lint: self.lint,
            types: self.types,
            check_errors: copy_texts(&self.check_errors),
        }
    }
}

/// The commit that a project is at, by what `git rev-parse HEAD` left.
pub fn head_hash(success: bool, stdout: &[u8]) -> (hash: String)
    ensures
        hash@ == (if success {
            text::trim(bytes::lossy_utf8(stdout@))
        } else {
            Seq::empty()
        }),
{
    if success {
        trimmed(lossy_text(stdout).as_str())
    } else {
        String::new()
    }
}

/// The key under which a project's baseline is remembered: it changes with the commit.
pub open spec fn key_of(root: Seq<char>, hash: Seq<char>) -> Seq<char> {
    root + "@"@ + hash
}

/// The key under which a project's baseline is remembered.
pub fn baseline_key(root: &str, hash: &str) -> (key: String)
    ensures
        key@ == key_of(root@, hash@),
{
    let mut key: String = root.to_owned();
    key.append("@");
    key.append(hash);
    key
}

/// Another project or another commit has another key.
pub proof fn law_key_tells_project_and_commit(
    root1: Seq<char>,
    hash1: Seq<char>,
    root2: Seq<char>,
    hash2: Seq<char>,
)
    requires
        !hash1.contains('@'),
        !hash2.contains('@'),
        key_of(root1, hash1) == key_of(root2, hash2),
    ensures
        root1 == root2,
        hash1 == hash2,
{
    reveal_strlit("@");
    let key = key_of(root1, hash1);
    let m1 = root1.len() as int;
    let m2 = root2.len() as int;
    assert("@"@.len() == 1);
    assert(key.len() == m1 + 1 + hash1.len());
    assert(key.len() == m2 + 1 + hash2.len());
    assert(key[m1] == '@');
    assert(key_of(root2, hash2)[m2] == '@');
    if m1 < m2 {
        assert(hash1[m2 - m1 - 1] == key[m2]);
        assert(hash1.contains(hash1[m2 - m1 - 1]));
    } else if m2 < m1 {
        assert(hash2[m1 - m2 - 1] == key_of(root2, hash2)[m1]);
        assert(hash2.contains(hash2[m1 - m2 - 1]));
    }
    assert(m1 == m2);
    assert(root1 =~= key.take(m1));
    assert(root2 =~= key_of(root2, hash2).take(m2));
    assert(hash1 =~= key.skip(m1 + 1));
    assert(hash2 =~= key_of(root2, hash2).skip(m2 + 1));
}

/// The baseline that is remembered under `key`.
pub fn recall_baseline(cache: &TextMap<Baseline>, key: &str) -> (b: Option<Baseline>)
    ensures
        match b {
            Some(found) => cache.has(key@) && same_baseline(found, cache.at(key@)),
            None => !cache.has(key@),
        },
{
    match cache.get(key) {
        Some(found) => Some(found.duplicate()),
        None => None,
    }
}

// ---------------------------------------------------------------------------
// The verdict
// ---------------------------------------------------------------------------

/// What the browser is told of a verified change. Nothing of the real project was touched,
/// so there is nothing left to revert.
pub struct VerifyResult {
    pub runner: String,
    pub baseline_failed: i64,
    pub after_failed: i64,
    pub broke: bool,
    pub reverted: bool,
    /// Does the suite's output show that tests ran?
    pub tests_ran: bool,
    pub lint_new: usize,
    pub type_new: usize,
    pub output: String,
}

/// How many more there are of something than before.
pub open spec fn more(after: usize, before: usize) -> nat {
    if after > before {
        (after - before) as nat
    } else {
        0
    }
}

/// The failures that were not there before.
pub open spec fn new_failures(base: Baseline, suite: SuiteRun) -> Seq<Seq<char>> {
    report::new_among(
        report::fingerprints_in(suite.output@),
        text::views(base.fingerprints@),
    )
}

/// Did the change break anything?
pub open spec fn broken(
    base: Baseline,
    parse_error: Option<Seq<char>>,
    suite: SuiteRun,
    checks: ProjectChecks,
) -> bool {
    ||| suite.failed > base.failed
    ||| new_failures(base, suite).len() > 0
    ||| more(checks.lint, base.lint) > 0
    ||| more(checks.types, base.types) > 0
    ||| parse_error is Some
}

/// The first `n` failures, one under another.
pub open spec fn failure_list(failures: Seq<Seq<char>>, n: nat) -> Seq<char>
    decreases n,
{
    if n == 0 {
        Seq::empty()
    } else {
        failure_list(failures, (n - 1) as nat) + "  - "@ + failures[n - 1] + "\n"@
    }
}

/// The starts of the first `n` patched files.
pub open spec fn excerpts(files: Seq<(Seq<char>, Seq<char>)>, n: nat) -> Seq<char>
    decreases n,
{
    if n == 0 {
        Seq::empty()
    } else {
        excerpts(files, (n - 1) as nat) + "--- "@ + files[n - 1].0 + " ---\n"@ + text::head_of(
            files[n - 1].1,
            700,
        ) + "\n"@
    }
}

/// Does the suite's output show that tests ran? It does where it says how many failed or
/// that they passed, and where a line tells of a failing one.
pub open spec fn tests_shown(suite: SuiteRun) -> bool {
    report::failures_in(suite.output@) is Some || report::failure_told(suite.output@)
}

/// What is told of a change: first what does not parse, which tests newly fail and what the
/// linters newly complain of, as much of it as two complaints of eight hundred characters and
/// the line break between them have room for; behind it the end of the runner's output, and, where the
/// change broke something, the starts of the files that it staged. Last it is said where no
/// test ran.
pub open spec fn verdict_text(
    base: Baseline,
    parse_error: Option<Seq<char>>,
    suite: SuiteRun,
    checks: ProjectChecks,
    files: Seq<(Seq<char>, Seq<char>)>,
) -> Seq<char> {
    let parsing = match parse_error {
        Some(e) => e + "\n"@,
        None => Seq::empty(),
    };
    let fresh = new_failures(base, suite);
    let failing = if fresh.len() > 0 {
        "NEW failing tests (not failing at baseline):\n"@ + failure_list(fresh, fresh.len())
    } else {
        Seq::empty()
    };
    let complaints = report::new_errors_in(checks.complaints@, text::views(base.check_errors@));
    let checking = if complaints.len() > 0 {
        "NEW lint/type errors (introduced by this change):\n"@ + text::tail_of(complaints, 1601)
            + "\n"@
    } else {
        Seq::empty()
    };
    let staged = if broken(base, parse_error, suite, checks) {
        "\nSTAGED source excerpts (shadow only):\n"@ + excerpts(files, files.len())
    } else {
        Seq::empty()
    };
    let untested = if tests_shown(suite) {
        Seq::empty()
    } else {
        "\n0 tests detected (types/lint only)\n"@
    };
    parsing + failing + checking + text::tail_of(suite.output@, 1200) + staged + untested
}

/// Appends the failures, one under another.
fn append_failures(out: &mut String, failures: &Vec<String>)
    ensures
        final(out)@ == old(out)@ + failure_list(text::views(failures@), failures@.len()),
{
    let ghost start = out@;
    let ghost all = text::views(failures@);
    let mut i: usize = 0;
    assert(start + failure_list(all, 0) =~= start);
    while i < failures.len()
        invariant
            i <= failures@.len(),
            all == text::views(failures@),
            out@ == start + failure_list(all, i as nat),
        decreases failures@.len() - i,
    {
        assert(all[i as int] == failures@[i as int]@);
        out.append("  - ");
        out.append(failures[i].as_str());
        out.append("\n");
        assert(out@ =~= start + failure_list(all, (i + 1) as nat));
        i += 1;
    }
}

/// Appends the starts of the patched files.
fn append_excerpts(out: &mut String, files: &Vec<Patched>)
    ensures
        final(out)@ == old(out)@ + excerpts(edits::patched_views(files@), files@.len()),
{
    let ghost start = out@;
    let ghost all = edits::patched_views(files@);
    let mut i: usize = 0;
    assert(start + excerpts(all, 0) =~= start);
    while i < files.len()
        invariant
            i <= files@.len(),
            all == edits::patched_views(files@),
            out@ == start + excerpts(all, i as nat),
        decreases files@.len() - i,
    {
        assert(all[i as int] == (files@[i as int].file@, files@[i as int].content@));
        out.append("--- ");
        out.append(files[i].file.as_str());
        out.append(" ---\n");
        out.append(head(files[i].content.as_str(), 700).as_str());
        out.append("\n");
        assert(out@ =~= start + excerpts(all, (i + 1) as nat));
        i += 1;
    }
}

/// Does `result` tell of a change? It says how many tests fail before and after, whether the
/// change broke anything, and the end of what there is to tell.
pub open spec fn outcome_shows(
    result: VerifyResult,
    base: Baseline,
    parse_error: Option<Seq<char>>,
    suite: SuiteRun,
    checks: ProjectChecks,
    files: Seq<(Seq<char>, Seq<char>)>,
) -> bool {
    &&& result.runner == suite.runner
    &&& result.baseline_failed == base.failed
    &&& result.after_failed == suite.failed
    &&& result.broke == broken(base, parse_error, suite, checks)
    &&& result.reverted
    &&& result.tests_ran == tests_shown(suite)
    &&& result.lint_new == more(checks.lint, base.lint)
    &&& result.type_new == more(checks.types, base.types)
    &&& result.output@ == text::tail_of(
        verdict_text(base, parse_error, suite, checks, files),
        2500,
    )
}

/// What the browser is told of a change: `base` is what the project was like before it,
/// and the rest is what it is like with it.
pub fn verify_outcome(
    base: &Baseline,
    parse_error: Option<String>,
    suite: SuiteRun,
    checks: &ProjectChecks,
    files: &Vec<Patched>,
) -> (result: VerifyResult)
    ensures
        outcome_shows(
            result,
            *base,
            text::opt_view(parse_error),
            suite,
            *checks,
            edits::patched_views(files@),
        ),
        result.runner == suite.runner,
        result.baseline_failed == base.failed,
        result.after_failed == suite.failed,
        result.broke == broken(*base, text::opt_view(parse_error), suite, *checks),
        result.reverted,
        result.tests_ran == tests_shown(suite),
        result.lint_new == more(checks.lint, base.lint),
        result.type_new == more(checks.types, base.types),
        result.output@ == text::tail_of(
            verdict_text(
                *base,
                text::opt_view(parse_error),
                suite,
                *checks,
                edits::patched_views(files@),
            ),
            2500,
        ),
        result.output@.len() <= 2500,
{
    let after: Vec<String> = failure_fingerprints(suite.output.as_str());
    let fresh: Vec<String> = new_texts(&after, &base.fingerprints);
    let lint_new: usize = if checks.lint > base.lint {
        checks.lint - base.lint
    } else {
        0
    };
    let type_new: usize = if checks.types > base.types {
        checks.types - base.types
    } else {
        0
    };
    assert(text::views(fresh@).len() == fresh@.len());
    let broke: bool = suite.failed > base.failed || fresh.len() > 0 || lint_new > 0 || type_new > 0
        || parse_error.is_some();
    let mut out: String = String::new();
    if let Some(e) = &parse_error {
        out.append(e.as_str());
        out.append("\n");
    }
    let ghost parsing = match text::opt_view(parse_error) {
        Some(e) => e + "\n"@,
        None => Seq::empty(),
    };
    assert(out@ =~= parsing);
    if fresh.len() > 0 {
        out.append("NEW failing tests (not failing at baseline):\n");
        append_failures(&mut out, &fresh);
    }
    let ghost failing = if fresh@.len() > 0 {
        "NEW failing tests (not failing at baseline):\n"@ + failure_list(
            text::views(fresh@),
            fresh@.len(),
        )
    } else {
        Seq::empty()
    };
    assert(out@ =~= parsing + failing);
    let complaints: String = new_check_errors(checks.complaints.as_str(), &base.check_errors);
    if !complaints.as_str().is_empty() {
        out.append("NEW lint/type errors (introduced by this change):\n");
        out.append(tail(complaints.as_str(), 1601).as_str());
        out.append("\n");
    }
    let ghost checking = if complaints@.len() > 0 {
        "NEW lint/type errors (introduced by this change):\n"@ + text::tail_of(complaints@, 1601)
            + "\n"@
    } else {
        Seq::empty()
    };
    assert(out@ =~= parsing + failing + checking);
    out.append(tail(suite.output.as_str(), 1200).as_str());
    let ghost before = out@;
    if broke {
        out.append("\nSTAGED source excerpts (shadow only):\n");
        append_excerpts(&mut out, files);
        assert(out@ =~= before + ("\nSTAGED source excerpts (shadow only):\n"@ + excerpts(
            edits::patched_views(files@),
            edits::patched_views(files@).len(),
        )));
    } else {
        assert(out@ =~= before + Seq::<char>::empty());
    }
    let ghost told = out@;
    let tests_ran: bool = parse_failed(suite.output.as_str()).is_some() || tells_of_failure(
        suite.output.as_str(),
    );
    if !tests_ran {
        out.append("\n0 tests detected (types/lint only)\n");
    } else {
        assert(out@ =~= told + Seq::<char>::empty());
    }
    VerifyResult {
        runner: suite.runner,
        baseline_failed: base.failed,
        after_failed: suite.failed,
        broke,
        reverted: true,
        tests_ran,
        lint_new,
        type_new,
        output: tail(out.as_str(), 2500),
    }
}

/// A change after which everything is as it was before is not held to have broken anything.
pub proof fn law_no_change_breaks_nothing(base: Baseline, suite: SuiteRun, checks: ProjectChecks)
    requires
        baseline_shows(base, suite, checks),
    ensures
        !broken(base, None, suite, checks),
{
    report::law_nothing_new_among_the_same(report::fingerprints_in(suite.output@));
}

/// Where no test ran, the result says so: it is not that of a suite that ran and passed.
pub proof fn law_untested_is_told(
    base: Baseline,
    parse_error: Option<Seq<char>>,
    suite: SuiteRun,
    checks: ProjectChecks,
    files: Seq<(Seq<char>, Seq<char>)>,
)
    requires
        !tests_shown(suite),
    ensures
        text::finishes(
            text::tail_of(verdict_text(base, parse_error, suite, checks, files), 2500),
            "0 tests detected (types/lint only)\n"@,
        ),
{
    let whole = verdict_text(base, parse_error, suite, checks, files);
    let shown = text::tail_of(whole, 2500);
    let note = "0 tests detected (types/lint only)\n"@;
    reveal_strlit("\n0 tests detected (types/lint only)\n");
    reveal_strlit("0 tests detected (types/lint only)\n");
    let line = "\n0 tests detected (types/lint only)\n"@;
    assert(line.skip(1) =~= note);
    assert(whole.subrange(whole.len() - note.len(), whole.len() as int) =~= note);
    assert(shown.subrange(shown.len() - note.len(), shown.len() as int) =~= whole.subrange(
        whole.len() - note.len(),
        whole.len() as int,
    ));
}

/// A suite with a failure that has a fingerprint is never told to have run no test.
pub proof fn law_failure_shows_that_tests_ran(suite: SuiteRun)
    requires
        report::fingerprints_in(suite.output@).len() > 0,
    ensures
        tests_shown(suite),
{
    report::lemma_fingerprint_tells_failure(suite.output@);
}

/// A failure that was not there before breaks the change, even where the number of failures
/// is what it was.
pub proof fn law_new_failure_breaks(
    base: Baseline,
    parse_error: Option<Seq<char>>,
    suite: SuiteRun,
    checks: ProjectChecks,
    failure: Seq<char>,
)
    requires
        report::fingerprints_in(suite.output@).contains(failure),
        !text::views(base.fingerprints@).contains(failure),
    ensures
        broken(base, parse_error, suite, checks),
{
    report::law_new_among(
        report::fingerprints_in(suite.output@),
        text::views(base.fingerprints@),
        failure,
    );
    assert(new_failures(base, suite).contains(failure));
}

/// What the browser is told of a change that was landed.
pub struct ApplyResult {
    pub applied: bool,
    pub file: String,
}

/// What the browser is told of a change that was landed.
pub fn apply_result(file: String) -> (result: ApplyResult)
    ensures
        result.applied,
        result.file == file,
{
    ApplyResult { applied: true, file }
}

// ---------------------------------------------------------------------------
// What breaks a change, and what is told of it
// ---------------------------------------------------------------------------

/// More failed tests than before break a change, whatever else there is.
pub proof fn law_more_failed_tests_break(
    base: Baseline,
    parse_error: Option<Seq<char>>,
    suite: SuiteRun,
    checks: ProjectChecks,
)
    requires
        suite.failed > base.failed,
    ensures
        broken(base, parse_error, suite, checks),
{
}

/// More lint errors than before break a change, whatever else there is.
pub proof fn law_more_lint_errors_break(
    base: Baseline,
    parse_error: Option<Seq<char>>,
    suite: SuiteRun,
    checks: ProjectChecks,
)
    requires
        checks.lint > base.lint,
    ensures
        broken(base, parse_error, suite, checks),
{
}

/// More type errors than before break a change, whatever else there is.
pub proof fn law_more_type_errors_break(
    base: Baseline,
    parse_error: Option<Seq<char>>,
    suite: SuiteRun,
    checks: ProjectChecks,
)
    requires
        checks.types > base.types,
    ensures
        broken(base, parse_error, suite, checks),
{
}

/// A file that does not parse breaks a change, whatever else there is.
pub proof fn law_parse_error_breaks(
    base: Baseline,
    error: Seq<char>,
    suite: SuiteRun,
    checks: ProjectChecks,
)
    ensures
        broken(base, Some(error), suite, checks),
{
}

/// A change that makes nothing worse breaks nothing: no more failed tests, no failing test
/// that did not fail before, no more errors of either check, and everything parses.
pub proof fn law_nothing_worse_breaks_nothing(
    base: Baseline,
    suite: SuiteRun,
    checks: ProjectChecks,
)
    requires
        suite.failed <= base.failed,
        forall|t: Seq<char>| #[trigger]
            report::fingerprints_in(suite.output@).contains(t) ==> text::views(
                base.fingerprints@,
            ).contains(t),
        checks.lint <= base.lint,
        checks.types <= base.types,
    ensures
        !broken(base, None, suite, checks),
{
    let fresh = new_failures(base, suite);
    if fresh.len() > 0 {
        assert(fresh.contains(fresh[0]));
        report::law_new_among(
            report::fingerprints_in(suite.output@),
            text::views(base.fingerprints@),
            fresh[0],
        );
    }
}

/// How many more there are than before is the difference, and never below zero.
pub proof fn law_more_is_the_difference(after: usize, before: usize)
    ensures
        after >= before ==> more(after, before) + before == after,
        after <= before ==> more(after, before) == 0,
{
}

proof fn lemma_failure_listed(failures: Seq<Seq<char>>, n: nat, i: int)
    requires
        n <= failures.len(),
        0 <= i < n,
    ensures
        text::has_match(failure_list(failures, n), failures[i]),
    decreases n,
{
    let before = failure_list(failures, (n - 1) as nat);
    if i == n - 1 {
        text::law_holding(before + "  - "@, failures[i], "\n"@, Seq::empty(), 0);
    } else {
        lemma_failure_listed(failures, (n - 1) as nat, i);
        let k = choose|k: int| text::matches_at(before, failures[i], k);
        let whole = failure_list(failures, n);
        assert(whole.subrange(k, k + failures[i].len()) =~= before.subrange(
            k,
            k + failures[i].len(),
        ));
        assert(text::matches_at(whole, failures[i], k));
    }
}

/// A part of a part of a text is a part of the text.
proof fn lemma_holding_within(a: Seq<char>, s: Seq<char>, b: Seq<char>, pat: Seq<char>)
    requires
        text::has_match(s, pat),
    ensures
        text::has_match(a + s + b, pat),
{
    let k = choose|k: int| text::matches_at(s, pat, k);
    let whole = a + s + b;
    assert(whole.subrange(a.len() + k, a.len() + k + pat.len()) =~= s.subrange(k, k + pat.len()));
    assert(text::matches_at(whole, pat, a.len() + k));
}

/// Every failing test that did not fail before is named in what is told.
pub proof fn law_new_failures_are_told(
    base: Baseline,
    parse_error: Option<Seq<char>>,
    suite: SuiteRun,
    checks: ProjectChecks,
    files: Seq<(Seq<char>, Seq<char>)>,
    failure: Seq<char>,
)
    requires
        report::fingerprints_in(suite.output@).contains(failure),
        !text::views(base.fingerprints@).contains(failure),
    ensures
        text::has_match(verdict_text(base, parse_error, suite, checks, files), failure),
{
    let fresh = new_failures(base, suite);
    report::law_new_among(
        report::fingerprints_in(suite.output@),
        text::views(base.fingerprints@),
        failure,
    );
    let i = choose|i: int| 0 <= i < fresh.len() && fresh[i] == failure;
    lemma_failure_listed(fresh, fresh.len(), i);
    let parsing = match parse_error {
        Some(e) => e + "\n"@,
        None => Seq::empty(),
    };
    let heading = "NEW failing tests (not failing at baseline):\n"@;
    let list = failure_list(fresh, fresh.len());
    let whole = verdict_text(base, parse_error, suite, checks, files);
    let rest = whole.skip((parsing + heading + list).len() as int);
    assert(whole =~= (parsing + heading) + list + rest);
    lemma_holding_within(parsing + heading, list, rest, failure);
}

/// A file that does not parse is the first thing that is told.
pub proof fn law_parse_error_is_told_first(
    base: Baseline,
    error: Seq<char>,
    suite: SuiteRun,
    checks: ProjectChecks,
    files: Seq<(Seq<char>, Seq<char>)>,
)
    ensures
        text::begins(verdict_text(base, Some(error), suite, checks, files), error),
{
    let whole = verdict_text(base, Some(error), suite, checks, files);
    assert(whole.subrange(0, error.len() as int) =~= error);
}

proof fn lemma_excerpt_shown(files: Seq<(Seq<char>, Seq<char>)>, n: nat, i: int)
    requires
        n <= files.len(),
        0 <= i < n,
    ensures
        text::has_match(
            excerpts(files, n),
            files[i].0 + " ---\n"@ + text::head_of(files[i].1, 700),
        ),
    decreases n,
{
    let before = excerpts(files, (n - 1) as nat);
    let piece = files[i].0 + " ---\n"@ + text::head_of(files[i].1, 700);
    if i == n - 1 {
        text::law_holding(before + "--- "@, piece, "\n"@, Seq::empty(), 0);
        assert(before + "--- "@ + piece + "\n"@ =~= excerpts(files, n));
    } else {
        lemma_excerpt_shown(files, (n - 1) as nat, i);
        let whole = excerpts(files, n);
        let rest = whole.skip(before.len() as int);
        lemma_holding_within(Seq::empty(), before, rest, piece);
        assert(Seq::<char>::empty() + before + rest =~= whole);
    }
}

/// Where a change broke something, the start of every file that it staged is shown under its
/// name.
pub proof fn law_broken_change_shows_its_files(
    base: Baseline,
    parse_error: Option<Seq<char>>,
    suite: SuiteRun,
    checks: ProjectChecks,
    files: Seq<(Seq<char>, Seq<char>)>,
    i: int,
)
    requires
        0 <= i < files.len(),
        broken(base, parse_error, suite, checks),
    ensures
        text::has_match(
            verdict_text(base, parse_error, suite, checks, files),
            files[i].0 + " ---\n"@ + text::head_of(files[i].1, 700),
        ),
{
    lemma_excerpt_shown(files, files.len(), i);
    let piece = files[i].0 + " ---\n"@ + text::head_of(files[i].1, 700);
    let list = excerpts(files, files.len());
    let whole = verdict_text(base, parse_error, suite, checks, files);
    let note = if tests_shown(suite) {
        Seq::empty()
    } else {
        "\n0 tests detected (types/lint only)\n"@
    };
    let start = whole.take(whole.len() - note.len() - list.len());
    assert(whole =~= start + list + note);
    lemma_holding_within(start, list, note, piece);
}

/// The end of the runner's output is told, whatever became of the change.
pub proof fn law_runner_output_is_told(
    base: Baseline,
    parse_error: Option<Seq<char>>,
    suite: SuiteRun,
    checks: ProjectChecks,
    files: Seq<(Seq<char>, Seq<char>)>,
)
    requires
        suite.output@.len() <= 1200,
    ensures
        text::has_match(verdict_text(base, parse_error, suite, checks, files), suite.output@),
{
    let whole = verdict_text(base, parse_error, suite, checks, files);
    let staged = if broken(base, parse_error, suite, checks) {
        "\nSTAGED source excerpts (shadow only):\n"@ + excerpts(files, files.len())
    } else {
        Seq::empty()
    };
    let note = if tests_shown(suite) {
        Seq::empty()
    } else {
        "\n0 tests detected (types/lint only)\n"@
    };
    let b = staged + note;
    let a = whole.take(whole.len() - b.len() - suite.output@.len());
    assert(whole =~= a + suite.output@ + b);
    text::law_holding(a, suite.output@, b, Seq::empty(), 0);
}

/// Where the output tells no number of failures and no success, the exit code decides: zero
/// is no failure, and anything else, or no code at all, is one.
pub proof fn law_exit_code_decides(output: Seq<char>, code: Option<i32>)
    requires
        report::failures_in(output) is None,
    ensures
        code == Some(0i32) ==> failed_by(output, code_or_none(code)) == 0,
        code != Some(0i32) ==> failed_by(output, code_or_none(code)) == 1,
{
}

/// A number of failures that the output tells holds whatever the exit code is.
pub proof fn law_told_failures_hold(output: Seq<char>, code: i32, n: nat)
    requires
        report::failures_in(output) == Some(n),
    ensures
        failed_by(output, code) == n,
{
}

// ---------------------------------------------------------------------------
// Checks and baselines
// ---------------------------------------------------------------------------

/// A check complains where it ended without success, with all that it printed; one that
/// succeeded, was not run or ran out of time does not. Running out of time is another matter.
pub proof fn law_complaints(success: bool, stdout: Vec<u8>, stderr: Vec<u8>, why: String)
    ensures
        ({
            let ended = Some(CheckRun::Ended { success, stdout, stderr });
            &&& success ==> complaint(ended) is None
            &&& !success ==> (complaint(ended) matches Some(c) && text::begins(
                c,
                bytes::lossy_utf8(stdout@),
            ) && text::finishes(c, bytes::lossy_utf8(stderr@)))
            &&& overtime(ended) is None
        }),
        complaint(None) is None,
        overtime(None) is None,
        complaint(Some(CheckRun::TimedOut(why))) is None,
        overtime(Some(CheckRun::TimedOut(why))) == Some(why@),
{
    let e = Seq::<char>::empty();
    text::law_prefix(bytes::lossy_utf8(stdout@), bytes::lossy_utf8(stderr@), e);
    text::law_prefix(bytes::lossy_utf8(stderr@), bytes::lossy_utf8(stdout@), e);
}

/// A complaint is kept whole under its heading, and shown up to its last eight hundred
/// characters.
pub proof fn law_sections(heading: Seq<char>, start: Seq<char>, c: Seq<char>)
    ensures
        whole(heading, Some(c)) == heading + c + "\n"@,
        c.len() <= 800 ==> section(heading, Some(c)) == whole(heading, Some(c)),
        c.len() == 800 ==> section(heading, Some(start + c)) == whole(heading, Some(c)),
        whole(heading, None).len() == 0,
        section(heading, None).len() == 0,
{
    if c.len() <= 800 {
        text::law_start_and_end(Seq::new((800 - c.len()) as nat, |i: int| 'x'), c);
    }
    if c.len() == 800 {
        text::law_start_and_end(start, c);
    }
}

/// Checks without a complaint come to nothing. A complaint of the linter counts its errors and
/// one of the type checker the marks of `tsc`, each for itself, and both are kept whole.
pub proof fn law_checks_count(
    checks: ProjectChecks,
    lint: Option<Seq<char>>,
    types: Option<Seq<char>>,
)
    requires
        checks_come_to(checks, lint, types),
    ensures
        lint is None ==> checks.lint == 0,
        types is None ==> checks.types == 0,
        lint is None && types is None ==> checks.output@.len() == 0 && checks.complaints@.len() == 0,
        lint matches Some(c) ==> checks.lint == report::errors_in(c) && text::has_match(
            checks.complaints@,
            c,
        ),
        types matches Some(c) ==> checks.types == text::count_of(c, "error TS"@) && text::has_match(
            checks.complaints@,
            c,
        ),
        lint matches Some(c) ==> (c.len() <= 800 ==> text::has_match(checks.output@, c)),
        types matches Some(c) ==> (c.len() <= 800 ==> text::has_match(checks.output@, c)),
{
    let e = Seq::<char>::empty();
    let l = "[lint]\n"@;
    let t = "[typecheck]\n"@;
    let nl = "\n"@;
    if let Some(c) = lint {
        let rest = whole(t, types);
        text::law_holding(l, c, nl + rest, e, 0);
        assert(l + c + (nl + rest) =~= l + c + nl + rest);
        law_sections(l, e, c);
        let shown = section(t, types);
        text::law_holding(l, c, nl + shown, e, 0);
        assert(l + c + (nl + shown) =~= l + c + nl + shown);
    }
    if let Some(c) = types {
        let first = whole(l, lint);
        text::law_holding(first + t, c, nl, e, 0);
        assert(first + t + c + nl =~= first + (t + c + nl));
        law_sections(t, e, c);
        let shown = section(l, lint);
        text::law_holding(shown + t, c, nl, e, 0);
        assert(shown + t + c + nl =~= shown + (t + c + nl));
    }
}

/// A baseline remembers what failed: the numbers, each failing line and each complaint.
pub proof fn law_baseline_remembers(
    b: Baseline,
    suite: SuiteRun,
    checks: ProjectChecks,
    f: Seq<char>,
    i: int,
)
    requires
        baseline_shows(b, suite, checks),
        0 <= i < text::lines_of(report::plain(suite.output@)).len(),
    ensures
        b.failed == suite.failed,
        b.lint == checks.lint,
        b.types == checks.types,
        report::fingerprint_of(text::lines_of(report::plain(suite.output@))[i]) == Some(f)
            ==> text::views(b.fingerprints@).contains(f),
        text::views(b.check_errors@) == report::error_set_in(checks.complaints@),
{
    report::law_fingerprints_of_lines(suite.output@, f);
}

/// A patched file is shown by its name and its first seven hundred characters, behind those
/// before it.
pub proof fn law_excerpts(
    files: Seq<(Seq<char>, Seq<char>)>,
    name: Seq<char>,
    start: Seq<char>,
    rest: Seq<char>,
)
    requires
        start.len() == 700 || rest.len() == 0 && start.len() < 700,
    ensures
        excerpts(files.push((name, start + rest)), files.len() + 1) == excerpts(files, files.len())
            + "--- "@ + name + " ---\n"@ + start + "\n"@,
        excerpts(files, 0).len() == 0,
{
    lemma_excerpts_prefix(files, (name, start + rest), files.len());
    text::law_start_and_end(start, rest);
    if start.len() < 700 {
        assert(start + rest =~= start);
        text::law_start_and_end(start, Seq::new((700 - start.len()) as nat, |i: int| 'x'));
    }
}

proof fn lemma_excerpts_prefix(
    files: Seq<(Seq<char>, Seq<char>)>,
    last: (Seq<char>, Seq<char>),
    n: nat,
)
    requires
        n <= files.len(),
    ensures
        excerpts(files.push(last), n) == excerpts(files, n),
    decreases n,
{
    if n > 0 {
        lemma_excerpts_prefix(files, last, (n - 1) as nat);
        assert(files.push(last)[n - 1] == files[n - 1]);
    }
}

/// The browser is told the truth of a change: each thing that got worse, by itself, makes it
/// a broken one and is counted; where nothing did, it is not broken. What is told is the end
/// of the verdict, and all of it where it is short.
pub proof fn law_outcome(
    result: VerifyResult,
    base: Baseline,
    parse_error: Option<Seq<char>>,
    suite: SuiteRun,
    checks: ProjectChecks,
    files: Seq<(Seq<char>, Seq<char>)>,
    start: Seq<char>,
    end: Seq<char>,
)
    requires
        outcome_shows(result, base, parse_error, suite, checks, files),
    ensures
        suite.failed > base.failed ==> result.broke,
        checks.lint > base.lint ==> result.broke && result.lint_new == checks.lint - base.lint,
        checks.types > base.types ==> result.broke && result.type_new == checks.types - base.types,
        parse_error is Some ==> result.broke,
        checks.lint <= base.lint ==> result.lint_new == 0,
        checks.types <= base.types ==> result.type_new == 0,
        suite.failed <= base.failed && checks.lint <= base.lint && checks.types <= base.types
            && parse_error is None && new_failures(base, suite).len() == 0 ==> !result.broke,
        result.baseline_failed == base.failed,
        result.after_failed == suite.failed,
        result.reverted,
        report::failures_in(suite.output@) is Some ==> result.tests_ran,
        report::failure_told(suite.output@) ==> result.tests_ran,
        verdict_text(base, parse_error, suite, checks, files) == start + end && end.len() == 2500
            ==> result.output@ == end,
        verdict_text(base, parse_error, suite, checks, files) == end && end.len() <= 2500
            ==> result.output@ == end,
{
    text::law_start_and_end(start, end);
    if end.len() <= 2500 {
        text::law_start_and_end(Seq::new((2500 - end.len()) as nat, |i: int| 'x'), end);
    }
}

/// What the linters newly complain of is told in the verdict, where there is room for it.
pub proof fn law_new_complaints_are_told(
    base: Baseline,
    parse_error: Option<Seq<char>>,
    suite: SuiteRun,
    checks: ProjectChecks,
    files: Seq<(Seq<char>, Seq<char>)>,
)
    requires
        0 < report::new_errors_in(
            checks.complaints@,
            text::views(base.check_errors@),
        ).len() <= 1601,
    ensures
        text::has_match(
            verdict_text(base, parse_error, suite, checks, files),
            report::new_errors_in(checks.complaints@, text::views(base.check_errors@)),
        ),
{
    let complaints = report::new_errors_in(checks.complaints@, text::views(base.check_errors@));
    text::law_start_and_end(
        Seq::new((1601 - complaints.len()) as nat, |i: int| 'x'),
        complaints,
    );
    let parsing = match parse_error {
        Some(e) => e + "\n"@,
        None => Seq::empty(),
    };
    let fresh = new_failures(base, suite);
    let failing = if fresh.len() > 0 {
        "NEW failing tests (not failing at baseline):\n"@ + failure_list(fresh, fresh.len())
    } else {
        Seq::empty()
    };
    let heading = "NEW lint/type errors (introduced by this change):\n"@;
    let checking = heading + complaints + "\n"@;
    let output = text::tail_of(suite.output@, 1200);
    let staged = if broken(base, parse_error, suite, checks) {
        "\nSTAGED source excerpts (shadow only):\n"@ + excerpts(files, files.len())
    } else {
        Seq::empty()
    };
    let untested = if tests_shown(suite) {
        Seq::empty()
    } else {
        "\n0 tests detected (types/lint only)\n"@
    };
    text::law_holding(heading, complaints, "\n"@, Seq::empty(), 0);
    lemma_holding_within(parsing + failing, checking, output, complaints);
    lemma_holding_within(
        Seq::empty(),
        parsing + failing + checking + output,
        staged,
        complaints,
    );
    lemma_holding_within(
        Seq::empty(),
        parsing + failing + checking + output + staged,
        untested,
        complaints,
    );
    let e = Seq::<char>::empty();
    assert(e + (parsing + failing + checking + output) =~= parsing + failing + checking + output);
    assert(e + (parsing + failing + checking + output + staged) =~= parsing + failing + checking
        + output + staged);
}

/// A run of the tests is told by its numbers and the end of what it printed, or all of it
/// where that is short.
pub proof fn law_test_result(result: TestResult, run: SuiteRun, start: Seq<char>, end: Seq<char>)
    requires
        result_shows(result, run),
    ensures
        result.failed == run.failed,
        result.code == run.code,
        run.output@ == start + end && end.len() == 2000 ==> result.output@ == end,
        run.output@.len() <= 2000 ==> result.output@ == run.output@,
{
    text::law_start_and_end(start, end);
    if run.output@.len() <= 2000 {
        text::law_start_and_end(
            Seq::new((2000 - run.output@.len()) as nat, |i: int| 'x'),
            run.output@,
        );
    }
}

/// Two baselines that say the same judge every change alike.
pub proof fn law_same_baselines_judge_alike(
    a: Baseline,
    b: Baseline,
    parse_error: Option<Seq<char>>,
    suite: SuiteRun,
    checks: ProjectChecks,
    files: Seq<(Seq<char>, Seq<char>)>,
)
    requires
        same_baseline(a, b),
    ensures
        broken(a, parse_error, suite, checks) == broken(b, parse_error, suite, checks),
        verdict_text(a, parse_error, suite, checks, files) == verdict_text(
            b,
            parse_error,
            suite,
            checks,
            files,
        ),
        a.failed == b.failed && a.lint == b.lint && a.types == b.types,
{
}

/// Of new complaints that there is no room for, the end is told.
pub proof fn law_end_of_complaints_is_told(
    base: Baseline,
    parse_error: Option<Seq<char>>,
    suite: SuiteRun,
    checks: ProjectChecks,
    files: Seq<(Seq<char>, Seq<char>)>,
    start: Seq<char>,
    end: Seq<char>,
)
    requires
        report::new_errors_in(checks.complaints@, text::views(base.check_errors@)) == start + end,
        end.len() == 1601,
    ensures
        text::has_match(verdict_text(base, parse_error, suite, checks, files), end),
{
    text::law_start_and_end(start, end);
    let parsing = match parse_error {
        Some(e) => e + "\n"@,
        None => Seq::empty(),
    };
    let fresh = new_failures(base, suite);
    let failing = if fresh.len() > 0 {
        "NEW failing tests (not failing at baseline):\n"@ + failure_list(fresh, fresh.len())
    } else {
        Seq::empty()
    };
    let heading = "NEW lint/type errors (introduced by this change):\n"@;
    let checking = heading + end + "\n"@;
    let output = text::tail_of(suite.output@, 1200);
    let staged = if broken(base, parse_error, suite, checks) {
        "\nSTAGED source excerpts (shadow only):\n"@ + excerpts(files, files.len())
    } else {
        Seq::empty()
    };
    let untested = if tests_shown(suite) {
        Seq::empty()
    } else {
        "\n0 tests detected (types/lint only)\n"@
    };
    let e = Seq::<char>::empty();
    text::law_holding(heading, end, "\n"@, e, 0);
    let told = parsing + failing + checking + output;
    lemma_holding_within(parsing + failing, checking, output, end);
    lemma_holding_within(e, told, staged, end);
    lemma_holding_within(e, told + staged, untested, end);
    assert(e + told =~= told);
    assert(e + (told + staged) =~= told + staged);
}

/// Where nothing got worse and tests ran, the end of the runner's output is all that is told.
pub proof fn law_quiet_verdict(
    base: Baseline,
    suite: SuiteRun,
    checks: ProjectChecks,
    files: Seq<(Seq<char>, Seq<char>)>,
    start: Seq<char>,
    end: Seq<char>,
)
    requires
        !broken(base, None, suite, checks),
        new_failures(base, suite).len() == 0,
        report::new_errors_in(checks.complaints@, text::views(base.check_errors@)).len() == 0,
        report::failures_in(suite.output@) is Some,
        suite.output@ == start + end,
        end.len() == 1200 || end.len() < 1200 && start.len() == 0,
    ensures
        verdict_text(base, None, suite, checks, files) == end,
{
    let e = Seq::<char>::empty();
    text::law_start_and_end(start, end);
    if end.len() < 1200 {
        assert(start + end =~= end);
        text::law_start_and_end(Seq::new((1200 - end.len()) as nat, |i: int| 'x'), end);
    }
    assert(e + e + e + end + e + e =~= end);
}

} // verus!
