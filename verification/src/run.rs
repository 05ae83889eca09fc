//! One-shot coding runs: `opencode run` on a project, with proposals for its result.

use crate::digits::{self, number_text};
use crate::json::{self, Json, JsonView};
use crate::text::{self, head, join, no_texts, push_text, trimmed};
use vstd::prelude::*;

verus! {

/// The model of a run that names none.
pub const DEFAULT_MODEL: &'static str = "ollama/qwen2.5-coder:7b";

/// How long a run may take, in seconds.
pub const RUN_TIMEOUT_SECS: u64 = 180;

/// How long to wait between two looks at a run, in milliseconds.
pub const RUN_POLL_MILLIS: u64 = 400;

/// What a run is asked to do.
pub struct RunRequest {
    pub cwd: String,
    pub message: String,
    pub model: String,
}

/// Why a run is refused: it has no project, or nothing to do.
pub open spec fn run_refusal(
    project_path: Option<Seq<char>>,
    is_dir: bool,
    message: Seq<char>,
) -> Option<Seq<char>> {
    if project_path is None || !is_dir {
        Some("projectPath required for opencode run"@)
    } else if text::trim(message).len() == 0 {
        Some("message required"@)
    } else {
        None
    }
}

/// Checks what a run is asked to do, and no more: [`run_args`] says how it is started,
/// [`run_step`] how it is waited for and [`run_result`] what it comes to. `is_dir` tells
/// whether the project is a directory.
pub fn run_inner(
    project_path: Option<String>,
    is_dir: bool,
    message: &str,
    model: Option<String>,
) -> (request: Result<RunRequest, String>)
    ensures
        match run_refusal(text::opt_view(project_path), is_dir, message@) {
            Some(e) => request matches Err(f) && f@ == e,
            None => request is Ok,
        },
        if project_path is None || !is_dir {
            request matches Err(e) && e@ == "projectPath required for opencode run"@
        } else if text::trim(message@).len() == 0 {
            request matches Err(e) && e@ == "message required"@
        } else {
            request matches Ok(r) && {
                &&& Some(r.cwd@) == text::opt_view(project_path)
                &&& r.message@ == text::trim(message@)
                &&& r.model@ == text::trim(
                    match text::opt_view(model) {
                        Some(m) => m,
                        None => DEFAULT_MODEL@,
                    },
                )
            }
        },
{
    let cwd: String = match project_path {
        Some(cwd) => if is_dir {
            cwd
        } else {
            return Err("projectPath required for opencode run".to_owned());
        },
        None => return Err("projectPath required for opencode run".to_owned()),
    };
    let message: String = trimmed(message);
    if message.as_str().is_empty() {
        return Err("message required".to_owned());
    }
    let model: String = match model {
        Some(m) => trimmed(m.as_str()),
        None => trimmed(DEFAULT_MODEL),
    };
    Ok(RunRequest { cwd, message, model })
}

/// The brief up to the project's path in its first line.
pub const PROMPT_OPENING: &'static str = "You are the GRAPH CODER implementer (OpenCode multi-step tools) for project ";

/// The rules of the brief, up to the project's path in the example.
pub const PROMPT_RULES: &'static str = ".\nRules:\n- IMPLEMENT the task with multi-step tools: read/grep/glob existing code BEFORE proposing writes.\n- No greetings, tutorials, todowrite, or fake /path/to/… paths.\n- Disk write/edit tools are blocked. After reading, emit COMPLETE write proposal JSON (not partial).\n- ONE JSON object per file:\n{\"name\":\"write\",\"arguments\":{\"filePath\":\"";

/// The rest of the brief, up to the task.
pub const PROMPT_CLOSING: &'static str = "/src/example.ts\",\"content\":\"export const x = 1;\\n\"}}\n- content = full file as JSON string (\\n escapes). Balanced braces. No mid-file truncation.\n- Prefer edit-sized changes: still emit full-file content for each path you change.\n- No extra deps unless the task requires them.\n\nTASK:\n";

/// The brief for a run.
pub open spec fn prompt_of(cwd: Seq<char>, message: Seq<char>) -> Seq<char> {
    PROMPT_OPENING@ + cwd + PROMPT_RULES@ + cwd + PROMPT_CLOSING@ + message
}

/// The brief for a run.
pub fn run_prompt(cwd: &str, message: &str) -> (prompt: String)
    ensures
        prompt@ == prompt_of(cwd@, message@),
{
    let mut prompt: String = PROMPT_OPENING.to_owned();
    prompt.append(cwd);
    prompt.append(PROMPT_RULES);
    prompt.append(cwd);
    prompt.append(PROMPT_CLOSING);
    prompt.append(message);
    prompt
}

/// The arguments of a run.
pub fn run_args(request: &RunRequest) -> (args: Vec<String>)
    ensures
        text::views(args@) == seq![
            "run"@,
            "--auto"@,
            "-m"@,
            request.model@,
            "--dir"@,
            request.cwd@,
            "--format"@,
            "default"@,
            prompt_of(request.cwd@, request.message@),
        ],
{
    let prompt: String = run_prompt(request.cwd.as_str(), request.message.as_str());
    let mut args: Vec<String> = no_texts();
    push_text(&mut args, "run");
    push_text(&mut args, "--auto");
    push_text(&mut args, "-m");
    push_text(&mut args, request.model.as_str());
    push_text(&mut args, "--dir");
    push_text(&mut args, request.cwd.as_str());
    push_text(&mut args, "--format");
    push_text(&mut args, "default");
    push_text(&mut args, prompt.as_str());
    args
}

/// What to do about a run that was looked at.
pub enum RunStep {
    /// It has ended: see what came of it.
    Collect,
    /// Look again after a while.
    Wait,
    /// It has run out of time: end it, and tell why.
    Kill(String),
    /// It cannot be looked at: tell why.
    Fail(String),
}

/// What to do about a command that was looked at while it may take `timeout_secs`: `late`
/// tells whether its time is over. One that has ended is never late.
pub fn wait_step(exited: bool, late: bool, timeout_secs: u64) -> (step: RunStep)
    ensures
        if exited {
            step is Collect
        } else if late {
            step matches RunStep::Kill(e) && e@ == "command timed out after "@ + digits::decimal(
                timeout_secs as nat,
            ) + "s"@
        } else {
            step is Wait
        },
{
    if exited {
        return RunStep::Collect;
    }
    if late {
        let mut message: String = "command timed out after ".to_owned();
        message.append(number_text(timeout_secs as u128).as_str());
        message.append("s");
        return RunStep::Kill(message);
    }
    RunStep::Wait
}

/// What a look at a run found.
pub enum RunLook {
    Exited,
    /// It is still running; `late` tells whether its time is over.
    Running { late: bool },
    Failed(String),
}

/// What to do about a run that was looked at.
pub fn run_step(look: RunLook) -> (step: RunStep)
    ensures
        match look {
            RunLook::Exited => step is Collect,
            RunLook::Running { late } => if late {
                step matches RunStep::Kill(e) && e@ == "opencode run timed out (180s)"@
            } else {
                step is Wait
            },
            RunLook::Failed(e) => step matches RunStep::Fail(f) && f@ == "wait: "@ + e@,
        },
{
    match look {
        RunLook::Exited => RunStep::Collect,
        RunLook::Running { late } => if late {
            RunStep::Kill("opencode run timed out (180s)".to_owned())
        } else {
            RunStep::Wait
        },
        RunLook::Failed(e) => {
            let message: String = "wait: ".to_owned();
            RunStep::Fail(message.concat(e.as_str()))
        },
    }
}

/// What a run said: what it printed, or else its errors, or else how it ended.
pub open spec fn said(stdout: Seq<char>, stderr: Seq<char>, status: Seq<char>) -> Seq<char> {
    if text::trim(stdout).len() > 0 {
        text::trim(stdout)
    } else if text::trim(stderr).len() > 0 {
        text::trim(stderr)
    } else {
        "(no output, exit "@ + status + ")"@
    }
}

/// What a run said. `status` is how it ended, in words.
pub fn run_text(stdout: &str, stderr: &str, status: &str) -> (out: String)
    ensures
        out@ == said(stdout@, stderr@, status@),
{
    let out: String = trimmed(stdout);
    if !out.as_str().is_empty() {
        return out;
    }
    let err: String = trimmed(stderr);
    if !err.as_str().is_empty() {
        return err;
    }
    let mut text: String = "(no output, exit ".to_owned();
    text.append(status);
    text.append(")");
    text
}

/// The names of the first `n` proposals.
pub open spec fn names_first(proposed: Seq<JsonView>, n: nat) -> Seq<Seq<char>>
    decreases n,
{
    if n == 0 {
        Seq::empty()
    } else {
        let before = names_first(proposed, (n - 1) as nat);
        match proposed[n - 1].text_field("relative"@) {
            Some(name) => before.push(name),
            None => before,
        }
    }
}

/// What a run said, with a note of what it proposes.
pub open spec fn noted(said: Seq<char>, proposed: Seq<JsonView>) -> Seq<char> {
    if proposed.len() == 0 {
        said
    } else {
        said + "\n\n[rlmlocal] proposed write(s) — Approve to land: "@ + text::join_of(
            names_first(proposed, proposed.len()),
            ", "@,
        )
    }
}

/// What the browser is told of a run. A run that proposes anything counts as a success.
pub open spec fn run_result_of(
    said: Seq<char>,
    proposed: Seq<JsonView>,
    model: Seq<char>,
    success: bool,
    code: i32,
) -> JsonView {
    JsonView::object().put("ok"@, JsonView::Bool(success || proposed.len() > 0)).put(
        "output"@,
        JsonView::Text(text::head_of(noted(said, proposed), 8000)),
    ).put("model"@, JsonView::Text(model)).put(
        "code"@,
        JsonView::Number(json::signed_view(code as i64)),
    ).put("proposed"@, JsonView::Array(proposed))
}

/// The names of the proposals.
fn names(proposed: &Vec<Json>) -> (out: Vec<String>)
    ensures
        text::views(out@) == names_first(json::json_views(proposed@), proposed@.len()),
{
    let ghost all = json::json_views(proposed@);
    let mut out: Vec<String> = no_texts();
    let mut i: usize = 0;
    while i < proposed.len()
        invariant
            i <= proposed@.len(),
            all == json::json_views(proposed@),
            text::views(out@) == names_first(all, i as nat),
        decreases proposed@.len() - i,
    {
        assert(all[i as int] == proposed@[i as int]@);
        if let Some(name) = proposed[i].text_at("relative") {
            proof {
                text::lemma_views_push(out@, name);
            }
            out.push(name);
        }
        i += 1;
    }
    out
}

/// What the browser is told of a run. `code` is its exit code, or -1 where it has none.
pub fn run_result(
    said: String,
    proposed: Vec<Json>,
    model: &str,
    success: bool,
    code: Option<i32>,
) -> (result: Json)
    ensures
        result@ == run_result_of(
            said@,
            json::json_views(proposed@),
            model@,
            success,
            match code {
                Some(c) => c,
                None => -1i32,
            },
        ),
{
    let mut text: String = said;
    assert(json::json_views(proposed@).len() == proposed@.len());
    if proposed.len() > 0 {
        text.append("\n\n[rlmlocal] proposed write(s) — Approve to land: ");
        let all: Vec<String> = names(&proposed);
        text.append(join(&all, ", ").as_str());
    }
    let code: i32 = match code {
        Some(c) => c,
        None => -1,
    };
    let ok: bool = success || proposed.len() > 0;
    proof {
        json::lemma_array_view(proposed);
    }
    Json::object().put("ok", Json::Bool(ok)).put(
        "output",
        Json::Text(head(text.as_str(), 8000)),
    ).put("model", Json::text(model)).put("code", Json::Signed(code as i64)).put(
        "proposed",
        Json::Array(proposed),
    )
}

// ---------------------------------------------------------------------------
// Laws
// ---------------------------------------------------------------------------

/// A run says what it printed; what it printed as errors counts only where it printed nothing
/// else, and how it ended only where it printed nothing at all.
pub proof fn law_what_a_run_says(
    a: Seq<char>,
    out: Seq<char>,
    b: Seq<char>,
    stderr: Seq<char>,
    status: Seq<char>,
)
    requires
        forall|i: int| 0 <= i < a.len() ==> text::is_space(#[trigger] a[i]),
        forall|i: int| 0 <= i < b.len() ==> text::is_space(#[trigger] b[i]),
        out.len() > 0 && !text::is_space(out[0]) && !text::is_space(out.last()),
    ensures
        said(a + out + b, stderr, status) == out,
        said(a, a + out + b, status) == out,
        text::has_match(said(a, b, status), status),
{
    let e = Seq::<char>::empty();
    text::law_trimming(a, out, b, text::CharClass::Space);
    text::lemma_trim_start_skips(a, e, text::CharClass::Space);
    text::lemma_trim_start_skips(b, e, text::CharClass::Space);
    assert(a + e =~= a);
    assert(b + e =~= b);
    text::law_holding("(no output, exit "@, status, ")"@, e, 0);
}

proof fn lemma_names_prefix(proposed: Seq<JsonView>, last: JsonView, n: nat)
    requires
        n <= proposed.len(),
    ensures
        names_first(proposed.push(last), n) == names_first(proposed, n),
    decreases n,
{
    if n > 0 {
        lemma_names_prefix(proposed, last, (n - 1) as nat);
        assert(proposed.push(last)[n - 1] == proposed[n - 1]);
    }
}

/// Every proposal is named, in order.
pub proof fn law_proposals_are_named(proposed: Seq<JsonView>, last: JsonView, name: Seq<char>)
    requires
        last.text_field("relative"@) == Some(name),
    ensures
        names_first(proposed.push(last), proposed.len() + 1) == names_first(
            proposed,
            proposed.len(),
        ).push(name),
        names_first(proposed, 0) == Seq::<Seq<char>>::empty(),
        text::finishes(noted(Seq::empty(), proposed.push(last)), name),
{
    lemma_names_prefix(proposed, last, proposed.len());
    let e = Seq::<char>::empty();
    let before = names_first(proposed, proposed.len());
    let note = "\n\n[rlmlocal] proposed write(s) — Approve to land: "@;
    text::law_joining(before, name, ", "@);
    let joined = text::join_of(before.push(name), ", "@);
    if before.len() > 0 {
        let start = e + note + text::join_of(before, ", "@) + ", "@;
        text::law_prefix(name, start, e);
        assert(start + name =~= e + note + joined);
    } else {
        assert(before.push(name) =~= seq![name]);
        text::law_prefix(name, e + note, e);
    }
}

/// What a run said leads its note, and a run without proposals has none.
pub proof fn law_note_follows(said: Seq<char>, proposed: Seq<JsonView>)
    ensures
        text::begins(noted(said, proposed), said),
        proposed.len() == 0 ==> noted(said, proposed) == said,
{
    let e = Seq::<char>::empty();
    if proposed.len() > 0 {
        let names = text::join_of(names_first(proposed, proposed.len()), ", "@);
        let note = "\n\n[rlmlocal] proposed write(s) — Approve to land: "@;
        text::law_prefix(said, note + names, e);
        assert(said + (note + names) =~= said + note + names);
    } else {
        text::law_prefix(said, e, e);
        assert(said + e =~= said);
    }
}

proof fn lemma_result_names()
    ensures
        "ok"@ != "output"@,
        "ok"@ != "model"@,
        "ok"@ != "code"@,
        "ok"@ != "proposed"@,
        "output"@ != "model"@,
        "output"@ != "code"@,
        "output"@ != "proposed"@,
        "model"@ != "code"@,
        "model"@ != "proposed"@,
        "code"@ != "proposed"@,
{
    reveal_strlit("ok");
    reveal_strlit("output");
    reveal_strlit("model");
    reveal_strlit("code");
    reveal_strlit("proposed");
    assert("ok"@.len() == 2);
    assert("output"@.len() == 6);
    assert("model"@.len() == 5);
    assert("code"@.len() == 4);
    assert("proposed"@.len() == 8);
}

/// A run counts as a success where it ended so and where it proposes anything, and only then.
/// All of its proposals are told, and what it said up to eight thousand characters.
pub proof fn law_run_result(
    said: Seq<char>,
    proposed: Seq<JsonView>,
    model: Seq<char>,
    success: bool,
    code: i32,
)
    ensures
        ({
            let r = run_result_of(said, proposed, model, success, code);
            &&& success ==> r.field("ok"@) == Some(JsonView::Bool(true))
            &&& proposed.len() > 0 ==> r.field("ok"@) == Some(JsonView::Bool(true))
            &&& !success && proposed.len() == 0 ==> r.field("ok"@) == Some(JsonView::Bool(false))
            &&& r.field("proposed"@) == Some(JsonView::Array(proposed))
            &&& r.text_field("model"@) == Some(model)
            &&& r.field("code"@) == Some(JsonView::Number(json::signed_view(code as i64)))
            &&& proposed.len() == 0 && said.len() <= 8000 ==> r.text_field("output"@) == Some(said)
            &&& proposed.len() == 0 && said.len() > 8000 ==> r.text_field("output"@) == Some(
                said.take(8000),
            )
        }),
{
    lemma_result_names();
    if said.len() > 8000 {
        text::law_start_and_end(said.take(8000), said.skip(8000));
        assert(said.take(8000) + said.skip(8000) =~= said);
    } else {
        text::law_start_and_end(said, Seq::new((8000 - said.len()) as nat, |i: int| 'x'));
    }
}

proof fn lemma_either_way(a: Seq<char>, b: Seq<char>, c: Seq<char>)
    ensures
        a + b + c == a + (b + c),
        a + b + Seq::<char>::empty() == a + b,
{
    assert(a + b + c =~= a + (b + c));
    assert(a + b + Seq::<char>::empty() =~= a + b);
}

proof fn lemma_brief_shape(
    opening: Seq<char>,
    cwd: Seq<char>,
    rules: Seq<char>,
    closing: Seq<char>,
    message: Seq<char>,
)
    ensures
        ({
            let brief = opening + cwd + rules + cwd + closing + message;
            &&& text::finishes(brief, message)
            &&& text::begins(brief, opening + cwd)
            &&& text::has_match(brief, cwd + closing + message)
        }),
{
    let e = Seq::<char>::empty();
    let first = opening + cwd;
    let start = first + rules;
    let end = cwd + closing + message;
    text::law_prefix(message, start + cwd + closing, e);
    lemma_either_way(start + cwd, closing, message);
    lemma_either_way(start, cwd, closing + message);
    lemma_either_way(cwd, closing, message);
    lemma_either_way(first, rules, end);
    lemma_either_way(start, end, e);
    text::law_prefix(first, rules + end, e);
    text::law_holding(start, end, e, e, 0);
}

/// The brief ends in the task and names the project twice.
pub proof fn law_brief(cwd: Seq<char>, message: Seq<char>)
    ensures
        text::finishes(prompt_of(cwd, message), message),
        text::begins(prompt_of(cwd, message), PROMPT_OPENING@ + cwd),
        text::has_match(prompt_of(cwd, message), cwd + PROMPT_CLOSING@ + message),
{
    lemma_brief_shape(PROMPT_OPENING@, cwd, PROMPT_RULES@, PROMPT_CLOSING@, message);
}

/// A run needs a project that is a directory and something to do, and no more.
pub proof fn law_run_needs_a_task(p: Seq<char>, message: Seq<char>, blank: Seq<char>)
    requires
        message.len() > 0 && !text::is_space(message[0]) && !text::is_space(message.last()),
        forall|i: int| 0 <= i < blank.len() ==> text::is_space(#[trigger] blank[i]),
    ensures
        run_refusal(Some(p), true, message) is None,
        run_refusal(Some(p), true, blank) is Some,
        run_refusal(Some(p), false, message) is Some,
        run_refusal(None, true, message) is Some,
{
    let e = Seq::<char>::empty();
    text::law_trimming(e, message, e, text::CharClass::Space);
    assert(e + message + e =~= message);
    text::lemma_trim_start_skips(blank, e, text::CharClass::Space);
    assert(blank + e =~= blank);
}

} // verus!
