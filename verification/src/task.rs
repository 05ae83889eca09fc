//! Coding tasks: one agent at a time edits a disposable shadow of the project.
//!
//! A task owns its shadow and a snapshot of the files in it. The real project is never the
//! place where the agent works; what it changed is collected for a person to approve.

use crate::bytes::{self, lossy_text};
use crate::changes::{self, changed_files, changes_json, FileChange};
use crate::config::{self, build_task_opencode_config};
use crate::digits::{self, number_text};
use crate::host::OPENCODE_PORT;
use crate::json::{self, Json, JsonView};
use crate::provider::TaskProvider;
use crate::run::DEFAULT_MODEL;
use crate::text::{
    self, chars_of, contains, no_texts, push_text, replaced, same_text, trim_end_class, trimmed, CharClass,
};
use crate::textmap::TextMap;
use vstd::prelude::*;

verus! {

/// A task: its shadow, the files that the shadow began with, whether its conversation has
/// begun, and the model and provider that it is bound to.
pub struct AgentTask {
    pub id: String,
    pub real_root: String,
    pub shadow_root: String,
    pub baseline: TextMap<String>,
    pub continued: bool,
    pub model: String,
    pub provider: TaskProvider,
}

/// What the browser is told of a task that began.
pub struct OpencodeTaskStart {
    pub task_id: String,
    pub shadow_path: String,
    pub port: u16,
}

// ---------------------------------------------------------------------------
// Beginning
// ---------------------------------------------------------------------------

/// Why a task cannot begin: it has no project, or there is a task already.
pub open spec fn start_refusal(
    project_path: Option<Seq<char>>,
    is_dir: bool,
    active: bool,
) -> Option<Seq<char>> {
    if project_path is None || !is_dir {
        Some("projectPath required for OpenCode task"@)
    } else if active {
        Some("an OpenCode task is already active; approve/reject it or wait for cleanup"@)
    } else {
        None
    }
}

/// The project and the model of a new task, or why there can be none. `is_dir` tells
/// whether the project is a directory; `active` whether there is a task already.
pub fn task_start_request(
    project_path: Option<String>,
    is_dir: bool,
    model: Option<String>,
    active: bool,
) -> (request: Result<(String, String), String>)
    ensures
        match start_refusal(text::opt_view(project_path), is_dir, active) {
            Some(e) => request matches Err(f) && f@ == e,
            None => request is Ok,
        },
        if project_path is None || !is_dir {
            request matches Err(e) && e@ == "projectPath required for OpenCode task"@
        } else if active {
            request matches Err(e) && e@
                == "an OpenCode task is already active; approve/reject it or wait for cleanup"@
        } else {
            request matches Ok((root, m)) && Some(root@) == text::opt_view(project_path) && m@ == (
            match text::opt_view(model) {
                Some(given) => given,
                None => DEFAULT_MODEL@,
            })
        },
{
    let root: String = match project_path {
        Some(root) => if is_dir {
            root
        } else {
            return Err("projectPath required for OpenCode task".to_owned());
        },
        None => return Err("projectPath required for OpenCode task".to_owned()),
    };
    if active {
        return Err(
            "an OpenCode task is already active; approve/reject it or wait for cleanup".to_owned(),
        );
    }
    let model: String = match model {
        Some(m) => m,
        None => DEFAULT_MODEL.to_owned(),
    };
    Ok((root, model))
}

/// The id of a task that begins at `now_ms`.
pub fn task_id(now_ms: u128) -> (id: String)
    ensures
        id@ == "oc-task-"@ + digits::decimal(now_ms as nat),
{
    let id: String = "oc-task-".to_owned();
    id.concat(number_text(now_ms).as_str())
}

/// Makes `task` the active one, unless another one began in the meantime: then that one
/// stays, and the new one is handed back to be thrown away.
pub fn task_start_inner(slot: &mut Option<AgentTask>, task: AgentTask) -> (started: Result<
    OpencodeTaskStart,
    (AgentTask, String),
>)
    ensures
        match started {
            Ok(s) => {
                &&& *old(slot) is None
                &&& *final(slot) == Some(task)
                &&& s.task_id@ == task.id@
                &&& s.shadow_path@ == task.shadow_root@
                &&& s.port == OPENCODE_PORT
            },
            Err((back, e)) => {
                &&& *old(slot) is Some
                &&& *final(slot) == *old(slot)
                &&& back == task
                &&& e@ == "an OpenCode task started concurrently; retry Send"@
            },
        },
{
    if slot.is_some() {
        return Err((task, "an OpenCode task started concurrently; retry Send".to_owned()));
    }
    let started: OpencodeTaskStart = OpencodeTaskStart {
        task_id: task.id.clone(),
        shadow_path: task.shadow_root.clone(),
        port: OPENCODE_PORT,
    };
    *slot = Some(task);
    Ok(started)
}

// ---------------------------------------------------------------------------
// What a turn says
// ---------------------------------------------------------------------------

/// What a turn printed: its output, with its errors behind it under a heading where it
/// printed both.
pub open spec fn turn_output(stdout: Seq<char>, stderr: Seq<char>) -> Seq<char> {
    let out = text::trim(stdout);
    let err = text::trim(stderr);
    if err.len() == 0 {
        out
    } else if out.len() == 0 {
        err
    } else {
        out + "\n\n[OpenCode stderr]\n"@ + err
    }
}

/// What a turn printed. Errors are kept even where the output is not empty: the agent's
/// banner must not hide them.
pub fn task_turn_output(stdout: &[u8], stderr: &[u8]) -> (output: String)
    ensures
        output@ == turn_output(bytes::lossy_utf8(stdout@), bytes::lossy_utf8(stderr@)),
{
    let out: String = trimmed(lossy_text(stdout).as_str());
    let err: String = trimmed(lossy_text(stderr).as_str());
    turn_text(out, err)
}

/// What a turn printed, of its trimmed output and errors.
pub fn turn_text(out: String, err: String) -> (output: String)
    ensures
        output@ == (if err@.len() == 0 {
            out@
        } else if out@.len() == 0 {
            err@
        } else {
            out@ + "\n\n[OpenCode stderr]\n"@ + err@
        }),
{
    if err.as_str().is_empty() {
        return out;
    }
    if out.as_str().is_empty() {
        return err;
    }
    let mut text: String = out;
    text.append("\n\n[OpenCode stderr]\n");
    text.append(err.as_str());
    text
}

/// What a turn comes to: what it printed, or as an error what it printed and how it ended.
pub open spec fn turn_result_of(
    success: bool,
    status: Seq<char>,
    output: Seq<char>,
) -> Result<Seq<char>, Seq<char>> {
    let ended = "OpenCode task turn exited "@ + status;
    if success {
        Ok(output)
    } else if output.len() == 0 {
        Err(ended)
    } else {
        Err(ended + ":\n"@ + output)
    }
}

/// What a turn comes to: what it printed, or as an error what it printed and how it ended.
pub fn task_turn_result(success: bool, status: &str, output: String) -> (result: Result<
    String,
    String,
>)
    ensures
        text::result_view(result) == turn_result_of(success, status@, output@),
        if success {
            result matches Ok(t) && t@ == output@
        } else if output@.len() == 0 {
            result matches Err(e) && e@ == "OpenCode task turn exited "@ + status@
        } else {
            result matches Err(e) && e@ == "OpenCode task turn exited "@ + status@ + ":\n"@
                + output@
        },
{
    if success {
        return Ok(output);
    }
    let mut message: String = "OpenCode task turn exited ".to_owned();
    message.append(status);
    if !output.as_str().is_empty() {
        message.append(":\n");
        message.append(output.as_str());
    }
    Err(message)
}

// ---------------------------------------------------------------------------
// What a turn is told
// ---------------------------------------------------------------------------

/// What follows every message: the agent works in a shadow, with relative paths, one tool
/// call at a time.
pub const SHADOW_RULES: &'static str = "\n\n## Disposable worktree tool rules\nYou are already inside the disposable worktree. Use repository-relative paths only (for example `src/file.ts`); never use an absolute path.\nCall exactly one tool with exactly one JSON argument object at a time. If you need two files, call `read` separately and wait for each result before the next call.\nMake edits only in this worktree; the real project is intentionally inaccessible.";

/// The real project's path as it can stand in a message: without slashes at its end.
pub open spec fn plain_root(real_root: Seq<char>) -> Seq<char> {
    text::trim_end_of(real_root, CharClass::AnySlash)
}

/// Putting `.` for a text makes nothing longer, and shorter where the text has two
/// characters or more and stands there.
pub proof fn lemma_replacing_shortens(s: Seq<char>, pat: Seq<char>)
    requires
        pat.len() > 0,
    ensures
        text::replace_all(s, pat, "."@).len() <= s.len(),
        pat.len() > 1 && text::has_match(s, pat) ==> text::replace_all(s, pat, "."@).len()
            < s.len(),
    decreases s.len(),
{
    reveal_strlit(".");
    if s.len() > 0 {
        if text::matches_at(s, pat, 0) {
            lemma_replacing_shortens(s.skip(pat.len() as int), pat);
        } else {
            let rest = s.skip(1);
            lemma_replacing_shortens(rest, pat);
            if text::has_match(s, pat) {
                let i = choose|i: int| text::matches_at(s, pat, i);
                assert(rest.subrange(i - 1, i - 1 + pat.len()) =~= s.subrange(i, i + pat.len()));
                assert(text::matches_at(rest, pat, i - 1));
            }
        }
    }
}

/// A text with `.` put for a path until the path stands there no more. (A path of a single
/// character is gone at once.)
pub open spec fn without_path(s: Seq<char>, path: Seq<char>) -> Seq<char>
    decreases s.len(),
{
    if path.len() == 0 {
        s
    } else if path.len() == 1 {
        text::replace_all(s, path, "."@)
    } else if !text::has_match(s, path) {
        s
    } else {
        proof {
            lemma_replacing_shortens(s, path);
        }
        without_path(text::replace_all(s, path, "."@), path)
    }
}

/// A text with `.` put for a path until the path stands there no more: taking it out once
/// may spell it anew.
fn take_out_path(message: &str, path: &str) -> (out: String)
    ensures
        out@ == without_path(message@, path@),
{
    let size: usize = chars_of(path).len();
    if size == 0 {
        return message.to_owned();
    }
    if size == 1 {
        return replaced(message, path, ".");
    }
    let mut out: String = message.to_owned();
    while contains(out.as_str(), path)
        invariant
            path@.len() > 1,
            without_path(out@, path@) == without_path(message@, path@),
        decreases out@.len(),
    {
        proof {
            lemma_replacing_shortens(out@, path@);
        }
        out = replaced(out.as_str(), path, ".");
    }
    out
}

/// A message for the agent: the real project's path becomes `.`, and the rules follow.
pub open spec fn shadow_message(message: Seq<char>, real_root: Seq<char>) -> Seq<char> {
    without_path(message, plain_root(real_root)) + SHADOW_RULES@
}

/// A message for the agent. The real project's path does not reach it: the agent could not
/// go there.
pub fn task_message_in_shadow(message: &str, real_root: &str) -> (bounded: String)
    ensures
        bounded@ == shadow_message(message@, real_root@),
{
    let root: String = trim_end_class(real_root, CharClass::AnySlash);
    take_out_path(message, root.as_str()).concat(SHADOW_RULES)
}

/// A character other than `.` is gone once `.` is put for it.
proof fn lemma_char_is_gone(s: Seq<char>, c: char)
    requires
        c != '.',
    ensures
        !text::replace_all(s, seq![c], "."@).contains(c),
    decreases s.len(),
{
    reveal_strlit(".");
    if s.len() > 0 {
        lemma_char_is_gone(s.skip(1), c);
        let rest = text::replace_all(s.skip(1), seq![c], "."@);
        let out = text::replace_all(s, seq![c], "."@);
        if s[0] != c {
            assert(s.subrange(0, 1)[0] != c);
        } else {
            assert(s.subrange(0, 1) =~= seq![c]);
        }
        assert forall|i: int| 0 <= i < out.len() implies out[i] != c by {
            if i > 0 {
                assert(out[i] == rest[i - 1]);
            }
        }
    }
}

/// A path is gone once it is taken out, unless it is `.` itself.
proof fn lemma_path_is_gone(s: Seq<char>, path: Seq<char>)
    requires
        path.len() > 0,
        path != seq!['.'],
    ensures
        !text::has_match(without_path(s, path), path),
    decreases s.len(),
{
    if path.len() == 1 {
        let out = text::replace_all(s, path, "."@);
        let c = path[0];
        assert(path =~= seq![c]);
        lemma_char_is_gone(s, c);
        assert forall|i: int| !text::matches_at(out, path, i) by {
            if text::matches_at(out, path, i) {
                assert(out.subrange(i, i + 1)[0] == out[i]);
                assert(out.contains(c));
            }
        }
    } else if text::has_match(s, path) {
        lemma_replacing_shortens(s, path);
        lemma_path_is_gone(text::replace_all(s, path, "."@), path);
    }
}

/// The rules hold a full stop.
proof fn lemma_rules_hold_a_dot()
    ensures
        text::has_match(SHADOW_RULES@, seq!['.']),
{
    reveal_strlit("\n\n## Disposable worktree tool rules\nYou are already inside the disposable worktree. Use repository-relative paths only (for example `src/file.ts`); never use an absolute path.\nCall exactly one tool with exactly one JSON argument object at a time. If you need two files, call `read` separately and wait for each result before the next call.\nMake edits only in this worktree; the real project is intentionally inaccessible.");
    assert(SHADOW_RULES@.subrange(82, 83) =~= seq!['.']);
    assert(text::matches_at(SHADOW_RULES@, seq!['.'], 82));
}

/// The real project's path does not stand in the message that the agent gets, wherever it
/// stood in the message it was made from. This holds of every path that the rules
/// themselves do not hold and whose end is not the start of the rules.
pub proof fn law_message_hides_root(message: Seq<char>, real_root: Seq<char>)
    requires
        plain_root(real_root).len() > 0,
        !text::has_match(SHADOW_RULES@, plain_root(real_root)),
        forall|k: int|
            0 < k < plain_root(real_root).len() ==> !text::begins(
                SHADOW_RULES@,
                #[trigger] plain_root(real_root).skip(k),
            ),
    ensures
        !text::has_match(shadow_message(message, real_root), plain_root(real_root)),
{
    let root = plain_root(real_root);
    let relative = without_path(message, root);
    let whole = shadow_message(message, real_root);
    assert(root != seq!['.']) by {
        lemma_rules_hold_a_dot();
    }
    lemma_path_is_gone(message, root);
    assert forall|x: int| !text::matches_at(whole, root, x) by {
        if text::matches_at(whole, root, x) {
            let n = root.len() as int;
            let m = relative.len() as int;
            if x + n <= m {
                assert(relative.subrange(x, x + n) =~= whole.subrange(x, x + n));
                assert(text::matches_at(relative, root, x));
            } else if x >= m {
                assert(SHADOW_RULES@.subrange(x - m, x - m + n) =~= whole.subrange(x, x + n));
                assert(text::matches_at(SHADOW_RULES@, root, x - m));
            } else {
                let end = root.skip(m - x);
                assert(SHADOW_RULES@.subrange(0, end.len() as int) =~= whole.subrange(x, x + n).skip(
                    m - x,
                ));
                assert(text::begins(SHADOW_RULES@, end));
            }
        }
    }
}

// ---------------------------------------------------------------------------
// A turn
// ---------------------------------------------------------------------------

/// Why a request does not fit the active task: there is none, or it is another.
pub open spec fn task_mismatch(slot: Option<AgentTask>, task_id: Seq<char>) -> Option<Seq<char>> {
    match slot {
        None => Some("no active OpenCode task"@),
        Some(task) => if task.id@ == task_id {
            None
        } else {
            Some("OpenCode task id does not match active task"@)
        },
    }
}

/// Why a request does not fit the active task.
pub fn check_task(slot: &Option<AgentTask>, task_id: &str) -> (refusal: Option<String>)
    ensures
        text::opt_view(refusal) == task_mismatch(*slot, task_id@),
{
    match slot {
        None => Some("no active OpenCode task".to_owned()),
        Some(task) => if same_text(task.id.as_str(), task_id) {
            None
        } else {
            Some("OpenCode task id does not match active task".to_owned())
        },
    }
}

/// What is told of a turn that asks for another model.
pub open spec fn pinned_model() -> Seq<char> {
    "OpenCode task model is pinned at start; end this"@ + " task before switching models"@
}

/// Does a turn ask for another model than the task is bound to?
pub open spec fn other_model(task: AgentTask, requested: Option<Seq<char>>) -> bool {
    requested matches Some(m) && text::trim(m).len() > 0 && m != task.model@
}

/// One turn of a task: the arguments and the configuration of the agent.
pub struct TurnPlan {
    pub args: Vec<String>,
    pub cwd: String,
    /// Goes into the environment as `OPENCODE_CONFIG_CONTENT`.
    pub config: String,
}

/// The arguments of a turn.
pub open spec fn turn_args(task: AgentTask, message: Seq<char>) -> Seq<Seq<char>> {
    let opening = seq![
        "run"@,
        "--auto"@,
        "--agent"@,
        "rlm-shadow"@,
        "-m"@,
        task.model@,
        "--dir"@,
        task.shadow_root@,
        "--format"@,
        "default"@,
    ];
    let conversation = if task.continued {
        opening.push("--continue"@)
    } else {
        opening
    };
    conversation.push(shadow_message(message, task.real_root@))
}

/// The turn that a request asks for, or why there is none: it does not fit the active
/// task, it asks for another model, or the model has no configuration.
pub fn task_turn_plan(
    slot: &Option<AgentTask>,
    task_id: &str,
    message: &str,
    requested_model: Option<String>,
) -> (plan: Result<TurnPlan, String>)
    ensures
        match task_mismatch(*slot, task_id@) {
            Some(e) => plan matches Err(f) && f@ == e,
            None => {
                let task = slot->0;
                if other_model(task, text::opt_view(requested_model)) {
                    plan matches Err(f) && f@ == pinned_model()
                } else {
                    match config::printed(
                        config::task_config(task.model@, task.provider),
                        "encode task config: "@,
                    ) {
                        Err(e) => plan matches Err(f) && f@ == e,
                        Ok(cfg) => plan matches Ok(p) && {
                            &&& text::views(p.args@) == turn_args(task, message@)
                            &&& p.cwd@ == task.shadow_root@
                            &&& p.config@ == cfg
                        },
                    }
                }
            },
        },
{
    if let Some(refusal) = check_task(slot, task_id) {
        return Err(refusal);
    }
    let task: &AgentTask = match slot {
        Some(task) => task,
        None => return Err("no active OpenCode task".to_owned()),
    };
    if let Some(model) = &requested_model {
        if !trimmed(model.as_str()).as_str().is_empty() && !same_text(
            model.as_str(),
            task.model.as_str(),
        ) {
            let refusal: String = "OpenCode task model is pinned at start; end this".to_owned();
            return Err(refusal.concat(" task before switching models"));
        }
    }
    let config: String = match build_task_opencode_config(task.model.as_str(), &task.provider) {
        Ok(config) => config,
        Err(e) => return Err(e),
    };
    let mut args: Vec<String> = no_texts();
    push_text(&mut args, "run");
    push_text(&mut args, "--auto");
    push_text(&mut args, "--agent");
    push_text(&mut args, "rlm-shadow");
    push_text(&mut args, "-m");
    push_text(&mut args, task.model.as_str());
    push_text(&mut args, "--dir");
    push_text(&mut args, task.shadow_root.as_str());
    push_text(&mut args, "--format");
    push_text(&mut args, "default");
    if task.continued {
        push_text(&mut args, "--continue");
    }
    let bounded: String = task_message_in_shadow(message, task.real_root.as_str());
    push_text(&mut args, bounded.as_str());
    assert(text::views(args@) =~= turn_args(*task, message@));
    Ok(TurnPlan { args, cwd: task.shadow_root.clone(), config })
}

/// `after` is `before` with its conversation begun.
pub open spec fn continued(before: AgentTask, after: AgentTask) -> bool {
    &&& after.continued
    &&& after.id == before.id
    &&& after.real_root == before.real_root
    &&& after.shadow_root == before.shadow_root
    &&& after.baseline == before.baseline
    &&& after.model == before.model
    &&& after.provider == before.provider
}

/// Remembers that the conversation of the active task has begun. Nothing else of the task
/// changes.
pub fn task_turn_ran(slot: &mut Option<AgentTask>)
    ensures
        match *old(slot) {
            Some(before) => *final(slot) matches Some(after) && continued(before, after),
            None => *final(slot) is None,
        },
{
    if let Some(task) = slot.take() {
        *slot = Some(
            AgentTask {
                id: task.id,
                real_root: task.real_root,
                shadow_root: task.shadow_root,
                baseline: task.baseline,
                continued: true,
                model: task.model,
                provider: task.provider,
            },
        );
    }
}

// ---------------------------------------------------------------------------
// Collecting and ending
// ---------------------------------------------------------------------------

/// What the active task changed in its shadow, whose files are now `current`.
pub fn task_collect_inner(
    slot: &Option<AgentTask>,
    task_id: &str,
    current: &TextMap<String>,
) -> (collected: Result<Vec<FileChange>, String>)
    ensures
        match task_mismatch(*slot, task_id@) {
            Some(e) => collected matches Err(f) && f@ == e,
            None => collected matches Ok(found) && {
                &&& changes::in_order(found@)
                &&& changes::truthful(found@, (slot->0).baseline, *current)
                &&& forall|name: Seq<char>| #[trigger]
                    changes::listed(found@, name) <==> changes::differs(
                        (slot->0).baseline,
                        *current,
                        name,
                    )
            },
        },
{
    if let Some(refusal) = check_task(slot, task_id) {
        return Err(refusal);
    }
    match slot {
        Some(task) => Ok(changed_files(&task.baseline, current)),
        None => Err("no active OpenCode task".to_owned()),
    }
}

/// Ends the active task, which is handed out so that its shadow can be removed. A request
/// that does not fit leaves the task as it is.
pub fn task_cleanup_inner(slot: &mut Option<AgentTask>, task_id: &str) -> (ended: Result<
    AgentTask,
    String,
>)
    ensures
        match task_mismatch(*old(slot), task_id@) {
            Some(e) => (ended matches Err(f) && f@ == e) && *final(slot) == *old(slot),
            None => ended matches Ok(task) && Some(task) == *old(slot) && *final(slot) is None,
        },
{
    if let Some(refusal) = check_task(slot, task_id) {
        return Err(refusal);
    }
    match slot.take() {
        Some(task) => Ok(task),
        None => Err("no active OpenCode task".to_owned()),
    }
}

/// The id that a request has to name a task by.
pub fn required_task_id(task_id: Option<String>) -> (id: Result<String, String>)
    ensures
        match task_id {
            Some(given) => id == Ok::<String, String>(given),
            None => id matches Err(e) && e@ == "taskId required"@,
        },
{
    match task_id {
        Some(given) => Ok(given),
        None => Err("taskId required".to_owned()),
    }
}

/// What the browser is told of a turn.
pub fn task_turn_json(output: String) -> (reply: String)
    ensures
        reply@ == json::compact_json(
            JsonView::object().put("output"@, JsonView::Text(output@)),
        ),
{
    Json::object().put("output", Json::Text(output)).compact()
}

/// What the browser is told of the changes of a task.
pub fn task_collect_json(found: &Vec<FileChange>) -> (reply: String)
    ensures
        reply@ == json::compact_json(
            JsonView::Array(found@.map_values(|c: FileChange| changes::change_json(c))),
        ),
{
    let items: Vec<Json> = changes_json(found);
    proof {
        json::lemma_array_view(items);
    }
    Json::Array(items).compact()
}

/// What the browser is told of a task that ended.
pub fn task_cleanup_json() -> (reply: String)
    ensures
        reply@ == json::compact_json(JsonView::object().put("ok"@, JsonView::Bool(true))),
{
    Json::object().put("ok", Json::Bool(true)).compact()
}

/// Ends whatever task is active: stopping the server cancels it.
pub fn cancel_task(slot: &mut Option<AgentTask>) -> (cancelled: Option<AgentTask>)
    ensures
        cancelled == *old(slot),
        *final(slot) is None,
{
    slot.take()
}

// ---------------------------------------------------------------------------
// Laws of a turn
// ---------------------------------------------------------------------------

/// Nothing that a turn printed is lost: its output leads, its errors follow, and white space
/// around either does not count.
pub proof fn law_turn_output(
    a: Seq<char>,
    out: Seq<char>,
    b: Seq<char>,
    err: Seq<char>,
)
    requires
        forall|i: int| 0 <= i < a.len() ==> text::is_space(#[trigger] a[i]),
        forall|i: int| 0 <= i < b.len() ==> text::is_space(#[trigger] b[i]),
        out.len() > 0 && !text::is_space(out[0]) && !text::is_space(out.last()),
        err.len() > 0 && !text::is_space(err[0]) && !text::is_space(err.last()),
    ensures
        turn_output(a + out + b, a) == out,
        turn_output(a, a + err + b) == err,
        text::begins(turn_output(a + out + b, a + err + b), out),
        text::finishes(turn_output(a + out + b, a + err + b), err),
        turn_output(a, b) == Seq::<char>::empty(),
{
    let e = Seq::<char>::empty();
    text::law_trimming(a, out, b, CharClass::Space);
    text::law_trimming(a, err, b, CharClass::Space);
    text::lemma_trim_start_skips(a, e, CharClass::Space);
    text::lemma_trim_start_skips(b, e, CharClass::Space);
    assert(a + e =~= a);
    assert(b + e =~= b);
    let heading = "\n\n[OpenCode stderr]\n"@;
    text::law_prefix(out, heading + err, e);
    assert(out + (heading + err) =~= out + heading + err);
    text::law_prefix(err, out + heading, e);
    assert(text::trim(a) =~= e);
}

/// A message without the project's path reaches the agent word for word, with the rules
/// behind it; where the path stands, `.` takes its place.
pub proof fn law_message_is_kept(
    before: Seq<char>,
    after: Seq<char>,
    message: Seq<char>,
    real_root: Seq<char>,
)
    requires
        plain_root(real_root).len() > 1,
    ensures
        text::finishes(shadow_message(message, real_root), SHADOW_RULES@),
        !text::has_match(message, plain_root(real_root)) ==> shadow_message(message, real_root)
            == message + SHADOW_RULES@,
        !text::has_match(after, plain_root(real_root)) && !text::has_match(
            before + "."@ + after,
            plain_root(real_root),
        ) && (forall|i: int|
            0 <= i < before.len() ==> !text::matches_at(
                before + plain_root(real_root) + after,
                plain_root(real_root),
                i,
            )) ==> shadow_message(before + plain_root(real_root) + after, real_root) == before
            + "."@ + after + SHADOW_RULES@,
{
    let root = plain_root(real_root);
    let e = Seq::<char>::empty();
    text::law_prefix(SHADOW_RULES@, without_path(message, root), e);
    if !text::has_match(after, root) && !text::has_match(before + "."@ + after, root) && (forall|
        i: int,
    |
        0 <= i < before.len() ==> !text::matches_at(before + root + after, root, i)) {
        text::law_replacing_the_first(before, root, after, "."@);
        text::law_replacing_nothing(after, root, "."@);
        text::law_holding(before, root, after, e, 0);
        let once = before + "."@ + after;
        assert(without_path(once, root) == once);
        assert(without_path(before + root + after, root) == without_path(once, root)) by {
            assert(text::replace_all(after, root, "."@) == after);
        }
    }
}

/// Slashes at the end of the project's path, of either kind, do not count.
pub proof fn law_root_without_slashes(root: Seq<char>, slashes: Seq<char>)
    requires
        root.len() > 0 && root.last() != '/' && root.last() != '\\',
        forall|i: int|
            0 <= i < slashes.len() ==> (#[trigger] slashes[i]) == '/' || slashes[i] == '\\',
    ensures
        plain_root(root + slashes) == root,
    decreases slashes.len(),
{
    let s = root + slashes;
    if slashes.len() > 0 {
        law_root_without_slashes(root, slashes.drop_last());
        assert(s.drop_last() =~= root + slashes.drop_last());
        assert(s.last() == slashes.last());
    } else {
        assert(s =~= root);
    }
}

/// A request is served for the task that it names, and for no other.
pub proof fn law_only_the_named_task(task: AgentTask, task_id: Seq<char>)
    ensures
        task_mismatch(Some(task), task.id@) is None,
        task_id != task.id@ ==> task_mismatch(Some(task), task_id) is Some,
        task_mismatch(None, task_id) is Some,
{
}

/// A task keeps its model: a turn may leave the model out or name it again, and nothing else.
pub proof fn law_model_is_pinned(task: AgentTask, model: Seq<char>, blank: Seq<char>)
    requires
        model.len() > 0 && !text::is_space(model[0]) && !text::is_space(model.last()),
        forall|i: int| 0 <= i < blank.len() ==> text::is_space(#[trigger] blank[i]),
    ensures
        !other_model(task, None),
        !other_model(task, Some(blank)),
        !other_model(task, Some(task.model@)),
        model != task.model@ ==> other_model(task, Some(model)),
{
    let e = Seq::<char>::empty();
    text::law_trimming(e, model, e, CharClass::Space);
    assert(e + model + e =~= model);
    text::lemma_trim_start_skips(blank, e, CharClass::Space);
    assert(blank + e =~= blank);
}

/// A turn runs the bounded agent with the task's model in the task's shadow. Its message comes
/// last, and a conversation that has begun is taken up again.
pub proof fn law_turn_arguments(task: AgentTask, message: Seq<char>)
    ensures
        ({
            let args = turn_args(task, message);
            &&& args.last() == shadow_message(message, task.real_root@)
            &&& args.take(2) == seq!["run"@, "--auto"@]
            &&& args.subrange(8, 10) == seq!["--format"@, "default"@]
            &&& exists|i: int|
                0 <= i < args.len() - 1 && #[trigger] args[i] == "--agent"@ && args[i + 1]
                    == "rlm-shadow"@
            &&& exists|i: int|
                0 <= i < args.len() - 1 && #[trigger] args[i] == "-m"@ && args[i + 1]
                    == task.model@
            &&& exists|i: int|
                0 <= i < args.len() - 1 && #[trigger] args[i] == "--dir"@ && args[i + 1]
                    == task.shadow_root@
            &&& task.continued ==> args[args.len() - 2] == "--continue"@
            &&& !task.continued ==> args.len() == 11 && args[9] == "default"@
        }),
{
    let args = turn_args(task, message);
    assert(args[2] == "--agent"@ && args[3] == "rlm-shadow"@);
    assert(args[4] == "-m"@ && args[5] == task.model@);
    assert(args[6] == "--dir"@ && args[7] == task.shadow_root@);
    assert(args.take(2) =~= seq!["run"@, "--auto"@]);
    assert(args.subrange(8, 10) =~= seq!["--format"@, "default"@]);
}

/// A turn that ran leaves the task as it was but for its conversation, so that the next turn
/// is the same but for taking it up.
pub proof fn law_next_turn_goes_on(before: AgentTask, after: AgentTask, message: Seq<char>)
    requires
        continued(before, after),
    ensures
        task_mismatch(Some(after), before.id@) is None,
        turn_args(after, message).contains("--continue"@),
        turn_args(after, message).take(10) == turn_args(before, message).take(10),
        turn_args(after, message).last() == turn_args(before, message).last(),
        after.baseline == before.baseline,
{
    let a = turn_args(after, message);
    let b = turn_args(before, message);
    assert(a[10] == "--continue"@);
    assert(a.take(10) =~= b.take(10));
}

/// There is one task at a time, and each has a project that is a directory.
pub proof fn law_one_task_at_a_time(p: Seq<char>, active: bool)
    ensures
        start_refusal(Some(p), true, false) is None,
        start_refusal(Some(p), true, true) is Some,
        start_refusal(Some(p), false, active) is Some,
        start_refusal(None, true, active) is Some,
{
}

/// A turn that succeeded says what it printed. One that failed is an error that tells how it
/// ended and all that it printed.
pub proof fn law_turn_result(status: Seq<char>, output: Seq<char>)
    ensures
        turn_result_of(true, status, output) == Ok::<Seq<char>, Seq<char>>(output),
        turn_result_of(false, status, output) matches Err(e) && text::has_match(e, status)
            && text::finishes(e, output),
{
    let e = Seq::<char>::empty();
    let start = "OpenCode task turn exited "@;
    let colon = ":\n"@;
    text::law_holding(start, status, e, e, 0);
    assert(start + status + e =~= start + status);
    text::law_holding(start, status, colon + output, e, 0);
    assert(start + status + (colon + output) =~= start + status + colon + output);
    text::law_prefix(output, start + status + colon, e);
    if output.len() == 0 {
        assert(output =~= e);
        text::law_prefix(e, start + status, e);
    }
}

} // verus!
