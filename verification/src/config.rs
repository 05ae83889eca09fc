//! The configuration that OpenCode is started with: what the agent may do, and where its
//! model is.

use crate::json::{self, Json, JsonView};
use crate::provider::TaskProvider;
use crate::text::{self, ends_with, strip_prefix, trim_end_class, trimmed, CharClass};
use vstd::prelude::*;

verus! {

/// A string.
pub open spec fn word(t: Seq<char>) -> JsonView {
    JsonView::Text(t)
}

/// What an agent may do that only proposes: read, and nothing else.
pub open spec fn proposal_permissions() -> JsonView {
    JsonView::object().put("*"@, word("deny"@)).put("edit"@, word("deny"@)).put(
        "todowrite"@,
        word("deny"@),
    ).put("question"@, word("deny"@)).put("task"@, word("deny"@)).put("skill"@, word("deny"@)).put(
        "lsp"@,
        word("deny"@),
    ).put("read"@, word("allow"@)).put("grep"@, word("allow"@)).put("glob"@, word("allow"@)).put(
        "bash"@,
        word("deny"@),
    ).put("webfetch"@, word("deny"@)).put("websearch"@, word("deny"@)).put(
        "external_directory"@,
        word("deny"@),
    )
}

/// The shell commands that a task may run in its shadow.
pub open spec fn task_commands() -> JsonView {
    JsonView::object().put("git status*"@, word("allow"@)).put("git diff*"@, word("allow"@)).put(
        "npm test*"@,
        word("allow"@),
    ).put("npm run test*"@, word("allow"@)).put("npm run lint*"@, word("allow"@)).put(
        "npx tsc --noEmit*"@,
        word("allow"@),
    ).put("*"@, word("deny"@))
}

/// What an agent may do that edits a shadow: what a proposing one may, and edit, and run
/// some commands; a loop that repeats itself is cut off.
pub open spec fn task_permissions() -> JsonView {
    proposal_permissions().put("edit"@, word("allow"@)).put("bash"@, task_commands()).put(
        "doom_loop"@,
        word("deny"@),
    )
}

/// One provider with one model.
pub open spec fn provider_json(
    name: Seq<char>,
    base_url: Seq<char>,
    api_key: Seq<char>,
    model_id: Seq<char>,
) -> JsonView {
    JsonView::object().put("npm"@, word("@ai-sdk/openai-compatible"@)).put("name"@, word(name)).put(
        "options"@,
        JsonView::object().put("baseURL"@, word(base_url)).put("apiKey"@, word(api_key)),
    ).put(
        "models"@,
        JsonView::object().put(model_id, JsonView::object().put("name"@, word(model_id))),
    )
}

/// The address of an Ollama server's OpenAI endpoint: the given one or the default,
/// without slashes at its end, with `/v1` behind it.
pub open spec fn ollama_url(base_url: Option<Seq<char>>) -> Seq<char> {
    let base = text::trim_end_of(
        text::trim(
            match base_url {
                Some(b) => b,
                None => "http://127.0.0.1:11434/v1"@,
            },
        ),
        CharClass::Slash,
    );
    if text::finishes(base, "/v1"@) {
        base
    } else {
        base + "/v1"@
    }
}

/// The providers of a configuration, or why the model is not of that provider.
pub open spec fn providers_of(model: Seq<char>, provider: TaskProvider) -> Result<
    JsonView,
    Seq<char>,
> {
    match provider {
        TaskProvider::Ollama { base_url } => match text::after_prefix(model, "ollama/"@) {
            Some(id) => Ok(
                JsonView::object().put(
                    "ollama"@,
                    provider_json(
                        "Ollama (RLMlocal)"@,
                        ollama_url(text::opt_view(base_url)),
                        "ollama"@,
                        id,
                    ),
                ),
            ),
            None => Err("Ollama provider/model mismatch"@),
        },
        TaskProvider::Edge { proxy_url, api_key } => match text::after_prefix(model, "rlm-edge/"@) {
            Some(id) => Ok(
                JsonView::object().put(
                    "rlm-edge"@,
                    provider_json("RLMlocal Edge task bridge"@, proxy_url@, api_key@, id),
                ),
            ),
            None => Err("edge provider/model mismatch"@),
        },
    }
}

/// A configuration with given permissions.
pub open spec fn config_of(
    model: Seq<char>,
    provider: TaskProvider,
    permissions: JsonView,
) -> Result<JsonView, Seq<char>> {
    match providers_of(model, provider) {
        Ok(providers) => Ok(
            JsonView::object().put("$schema"@, word("https://opencode.ai/config.json"@)).put(
                "model"@,
                word(model),
            ).put("permission"@, permissions).put("provider"@, providers),
        ),
        Err(e) => Err(e),
    }
}

/// The configuration of an agent that only proposes.
pub open spec fn rlm_config(model: Seq<char>, provider: TaskProvider) -> Result<
    JsonView,
    Seq<char>,
> {
    config_of(model, provider, proposal_permissions())
}

/// The number one tenth, as it is read from its decimal writing.
pub open spec fn one_tenth() -> JsonView {
    match json::parsed_json("0.1"@) {
        Ok(v) => v,
        Err(_) => JsonView::Null,
    }
}

/// The agent of a task: bound to at most twelve steps and to the task's permissions.
pub open spec fn task_agent() -> JsonView {
    JsonView::object().put(
        "rlm-shadow"@,
        JsonView::object().put("mode"@, word("primary"@)).put(
            "description"@,
            word("RLMlocal disposable-worktree coding agent"@),
        ).put("temperature"@, one_tenth()).put("steps"@, JsonView::number(12)).put(
            "permission"@,
            task_permissions(),
        ),
    )
}

/// The configuration of an agent that edits a shadow.
pub open spec fn task_config(model: Seq<char>, provider: TaskProvider) -> Result<
    JsonView,
    Seq<char>,
> {
    match config_of(model, provider, task_permissions()) {
        Ok(cfg) => Ok(cfg.put("agent"@, task_agent()).put("default_agent"@, word("rlm-shadow"@))),
        Err(e) => Err(e),
    }
}

/// A configuration in print, or why there is none.
pub open spec fn printed(cfg: Result<JsonView, Seq<char>>, failure: Seq<char>) -> Result<
    Seq<char>,
    Seq<char>,
> {
    match cfg {
        Ok(v) => match json::pretty_json(v) {
            Ok(t) => Ok(t),
            Err(e) => Err(failure + e),
        },
        Err(e) => Err(e),
    }
}

// ---------------------------------------------------------------------------
// Laws
// ---------------------------------------------------------------------------

/// What the permissions of both kinds of agent say of writing, of the shell and of other
/// directories.
proof fn lemma_permission_fields()
    ensures
        proposal_permissions().field("*"@) == Some(word("deny"@)),
        proposal_permissions().field("edit"@) == Some(word("deny"@)),
        proposal_permissions().field("bash"@) == Some(word("deny"@)),
        proposal_permissions().field("external_directory"@) == Some(word("deny"@)),
        task_permissions().field("*"@) == Some(word("deny"@)),
        task_permissions().field("edit"@) == Some(word("allow"@)),
        task_permissions().field("bash"@) == Some(task_commands()),
        task_permissions().field("external_directory"@) == Some(word("deny"@)),
        task_permissions().field("doom_loop"@) == Some(word("deny"@)),
{
    reveal_strlit("*");
    reveal_strlit("edit");
    reveal_strlit("todowrite");
    reveal_strlit("question");
    reveal_strlit("task");
    reveal_strlit("skill");
    reveal_strlit("lsp");
    reveal_strlit("read");
    reveal_strlit("grep");
    reveal_strlit("glob");
    reveal_strlit("bash");
    reveal_strlit("webfetch");
    reveal_strlit("websearch");
    reveal_strlit("external_directory");
    reveal_strlit("doom_loop");
    assert("external_directory"@.len() == 18);
    assert("bash"@.len() == 4 && "bash"@[0] == 'b');
    assert("edit"@.len() == 4 && "edit"@[0] == 'e');
    assert("*"@.len() == 1);
    assert("doom_loop"@.len() == 9 && "doom_loop"@[0] == 'd');
}

/// What the fields of a configuration are.
proof fn lemma_config_fields(model: Seq<char>, provider: TaskProvider, permissions: JsonView)
    requires
        config_of(model, provider, permissions) is Ok,
    ensures
        config_of(model, provider, permissions)->Ok_0.field("permission"@) == Some(permissions),
        config_of(model, provider, permissions)->Ok_0.field("model"@) == Some(word(model)),
{
    reveal_strlit("$schema");
    reveal_strlit("model");
    reveal_strlit("permission");
    reveal_strlit("provider");
    assert("permission"@.len() == 10);
    assert("model"@.len() == 5);
}

/// An agent that only proposes can neither write files, nor run commands, nor leave its
/// directory, whatever the model and the provider.
pub proof fn law_proposals_cannot_write(model: Seq<char>, provider: TaskProvider)
    ensures
        rlm_config(model, provider) matches Ok(cfg) ==> {
            &&& cfg.field("permission"@) == Some(proposal_permissions())
            &&& proposal_permissions().field("*"@) == Some(word("deny"@))
            &&& proposal_permissions().field("edit"@) == Some(word("deny"@))
            &&& proposal_permissions().field("bash"@) == Some(word("deny"@))
            &&& proposal_permissions().field("external_directory"@) == Some(word("deny"@))
        },
{
    lemma_permission_fields();
    if rlm_config(model, provider) is Ok {
        lemma_config_fields(model, provider, proposal_permissions());
    }
}

/// A task's agent is bound to twelve steps and to the permissions of the configuration: it
/// may edit, but not leave its directory, and a loop that repeats itself is cut off.
pub proof fn law_task_agent_is_bounded(model: Seq<char>, provider: TaskProvider)
    ensures
        task_config(model, provider) matches Ok(cfg) ==> {
            &&& cfg.field("permission"@) == Some(task_permissions())
            &&& cfg.field("default_agent"@) == Some(word("rlm-shadow"@))
            &&& cfg.field("agent"@) == Some(task_agent())
            &&& task_agent().field("rlm-shadow"@) matches Some(agent) && {
                &&& agent.field("steps"@) == Some(JsonView::number(12))
                &&& agent.field("permission"@) == Some(task_permissions())
            }
            &&& task_permissions().field("*"@) == Some(word("deny"@))
            &&& task_permissions().field("edit"@) == Some(word("allow"@))
            &&& task_permissions().field("external_directory"@) == Some(word("deny"@))
            &&& task_permissions().field("doom_loop"@) == Some(word("deny"@))
        },
{
    lemma_permission_fields();
    if task_config(model, provider) is Ok {
        lemma_config_fields(model, provider, task_permissions());
        reveal_strlit("permission");
        reveal_strlit("agent");
        reveal_strlit("default_agent");
        reveal_strlit("mode");
        reveal_strlit("description");
        reveal_strlit("temperature");
        reveal_strlit("steps");
        assert("permission"@.len() == 10);
        assert("agent"@.len() == 5 && "agent"@[0] == 'a');
        assert("default_agent"@.len() == 13);
        assert("steps"@.len() == 5 && "steps"@[0] == 's');
    }
}

// ---------------------------------------------------------------------------
// Building configurations
// ---------------------------------------------------------------------------

/// What an agent may do that only proposes.
pub fn build_proposal_permissions() -> (json: Json)
    ensures
        json@ == proposal_permissions(),
{
    Json::object().put("*", Json::text("deny")).put("edit", Json::text("deny")).put(
        "todowrite",
        Json::text("deny"),
    ).put("question", Json::text("deny")).put("task", Json::text("deny")).put(
        "skill",
        Json::text("deny"),
    ).put("lsp", Json::text("deny")).put("read", Json::text("allow")).put(
        "grep",
        Json::text("allow"),
    ).put("glob", Json::text("allow")).put("bash", Json::text("deny")).put(
        "webfetch",
        Json::text("deny"),
    ).put("websearch", Json::text("deny")).put("external_directory", Json::text("deny"))
}

/// What an agent may do that edits a shadow.
pub fn build_task_permissions() -> (json: Json)
    ensures
        json@ == task_permissions(),
{
    let commands: Json = Json::object().put("git status*", Json::text("allow")).put(
        "git diff*",
        Json::text("allow"),
    ).put("npm test*", Json::text("allow")).put("npm run test*", Json::text("allow")).put(
        "npm run lint*",
        Json::text("allow"),
    ).put("npx tsc --noEmit*", Json::text("allow")).put("*", Json::text("deny"));
    build_proposal_permissions().put("edit", Json::text("allow")).put("bash", commands).put(
        "doom_loop",
        Json::text("deny"),
    )
}

/// One provider with one model.
fn build_provider(name: &str, base_url: &str, api_key: &str, model_id: &str) -> (json: Json)
    ensures
        json@ == provider_json(name@, base_url@, api_key@, model_id@),
{
    Json::object().put("npm", Json::text("@ai-sdk/openai-compatible")).put(
        "name",
        Json::text(name),
    ).put(
        "options",
        Json::object().put("baseURL", Json::text(base_url)).put("apiKey", Json::text(api_key)),
    ).put(
        "models",
        Json::object().put(model_id, Json::object().put("name", Json::text(model_id))),
    )
}

/// The address of an Ollama server's OpenAI endpoint.
fn build_ollama_url(base_url: &Option<String>) -> (url: String)
    ensures
        url@ == ollama_url(text::opt_view(*base_url)),
{
    let given: String = match base_url {
        Some(b) => trimmed(b.as_str()),
        None => trimmed("http://127.0.0.1:11434/v1"),
    };
    let base: String = trim_end_class(given.as_str(), CharClass::Slash);
    if ends_with(base.as_str(), "/v1") {
        base
    } else {
        base.concat("/v1")
    }
}

/// A configuration with given permissions.
fn build_config(model: &str, provider: &TaskProvider, permissions: Json) -> (cfg: Result<
    Json,
    String,
>)
    ensures
        match cfg {
            Ok(v) => config_of(model@, *provider, permissions@) == Ok::<JsonView, Seq<char>>(v@),
            Err(e) => config_of(model@, *provider, permissions@) == Err::<JsonView, Seq<char>>(e@),
        },
{
    let providers: Json = match provider {
        TaskProvider::Ollama { base_url } => match strip_prefix(model, "ollama/") {
            Some(id) => {
                let url: String = build_ollama_url(base_url);
                Json::object().put(
                    "ollama",
                    build_provider("Ollama (RLMlocal)", url.as_str(), "ollama", id.as_str()),
                )
            },
            None => return Err("Ollama provider/model mismatch".to_owned()),
        },
        TaskProvider::Edge { proxy_url, api_key } => match strip_prefix(model, "rlm-edge/") {
            Some(id) => Json::object().put(
                "rlm-edge",
                build_provider(
                    "RLMlocal Edge task bridge",
                    proxy_url.as_str(),
                    api_key.as_str(),
                    id.as_str(),
                ),
            ),
            None => return Err("edge provider/model mismatch".to_owned()),
        },
    };
    Ok(
        Json::object().put("$schema", Json::text("https://opencode.ai/config.json")).put(
            "model",
            Json::text(model),
        ).put("permission", permissions).put("provider", providers),
    )
}

/// The configuration for `opencode run`: the agent reads and proposes, and cannot write.
pub fn build_rlm_opencode_config(model: &str, provider: &TaskProvider) -> (text: Result<
    String,
    String,
>)
    ensures
        text::result_view(text) == printed(
            rlm_config(model@, *provider),
            "encode opencode config: "@,
        ),
{
    match build_config(model, provider, build_proposal_permissions()) {
        Ok(cfg) => match cfg.pretty() {
            Ok(t) => Ok(t),
            Err(e) => {
                let message: String = "encode opencode config: ".to_owned();
                Err(message.concat(e.as_str()))
            },
        },
        Err(e) => Err(e),
    }
}

/// The configuration for a task: the agent edits its own shadow, under a named agent whose
/// steps are bounded.
pub fn build_task_opencode_config(model: &str, provider: &TaskProvider) -> (text: Result<
    String,
    String,
>)
    ensures
        text::result_view(text) == printed(task_config(model@, *provider), "encode task config: "@),
{
    let cfg: Json = match build_config(model, provider, build_task_permissions()) {
        Ok(cfg) => cfg,
        Err(e) => return Err(e),
    };
    let temperature: Json = match Json::parse("0.1") {
        Ok(v) => v,
        Err(_) => Json::Null,
    };
    let agent: Json = Json::object().put(
        "rlm-shadow",
        Json::object().put("mode", Json::text("primary")).put(
            "description",
            Json::text("RLMlocal disposable-worktree coding agent"),
        ).put("temperature", temperature).put("steps", Json::Unsigned(12)).put(
            "permission",
            build_task_permissions(),
        ),
    );
    match cfg.put("agent", agent).put("default_agent", Json::text("rlm-shadow")).pretty() {
        Ok(t) => Ok(t),
        Err(e) => {
            let message: String = "encode task config: ".to_owned();
            Err(message.concat(e.as_str()))
        },
    }
}

proof fn lemma_permission_names()
    ensures
        "*"@ != "edit"@,
        "*"@ != "todowrite"@,
        "*"@ != "question"@,
        "*"@ != "task"@,
        "*"@ != "skill"@,
        "*"@ != "lsp"@,
        "*"@ != "read"@,
        "*"@ != "grep"@,
        "*"@ != "glob"@,
        "*"@ != "bash"@,
        "*"@ != "webfetch"@,
        "*"@ != "websearch"@,
        "*"@ != "external_directory"@,
        "*"@ != "doom_loop"@,
        "edit"@ != "todowrite"@,
        "edit"@ != "question"@,
        "edit"@ != "task"@,
        "edit"@ != "skill"@,
        "edit"@ != "lsp"@,
        "edit"@ != "read"@,
        "edit"@ != "grep"@,
        "edit"@ != "glob"@,
        "edit"@ != "bash"@,
        "edit"@ != "webfetch"@,
        "edit"@ != "websearch"@,
        "edit"@ != "external_directory"@,
        "edit"@ != "doom_loop"@,
        "todowrite"@ != "question"@,
        "todowrite"@ != "task"@,
        "todowrite"@ != "skill"@,
        "todowrite"@ != "lsp"@,
        "todowrite"@ != "read"@,
        "todowrite"@ != "grep"@,
        "todowrite"@ != "glob"@,
        "todowrite"@ != "bash"@,
        "todowrite"@ != "webfetch"@,
        "todowrite"@ != "websearch"@,
        "todowrite"@ != "external_directory"@,
        "todowrite"@ != "doom_loop"@,
        "question"@ != "task"@,
        "question"@ != "skill"@,
        "question"@ != "lsp"@,
        "question"@ != "read"@,
        "question"@ != "grep"@,
        "question"@ != "glob"@,
        "question"@ != "bash"@,
        "question"@ != "webfetch"@,
        "question"@ != "websearch"@,
        "question"@ != "external_directory"@,
        "question"@ != "doom_loop"@,
        "task"@ != "skill"@,
        "task"@ != "lsp"@,
        "task"@ != "read"@,
        "task"@ != "grep"@,
        "task"@ != "glob"@,
        "task"@ != "bash"@,
        "task"@ != "webfetch"@,
        "task"@ != "websearch"@,
        "task"@ != "external_directory"@,
        "task"@ != "doom_loop"@,
        "skill"@ != "lsp"@,
        "skill"@ != "read"@,
        "skill"@ != "grep"@,
        "skill"@ != "glob"@,
        "skill"@ != "bash"@,
        "skill"@ != "webfetch"@,
        "skill"@ != "websearch"@,
        "skill"@ != "external_directory"@,
        "skill"@ != "doom_loop"@,
        "lsp"@ != "read"@,
        "lsp"@ != "grep"@,
        "lsp"@ != "glob"@,
        "lsp"@ != "bash"@,
        "lsp"@ != "webfetch"@,
        "lsp"@ != "websearch"@,
        "lsp"@ != "external_directory"@,
        "lsp"@ != "doom_loop"@,
        "read"@ != "grep"@,
        "read"@ != "glob"@,
        "read"@ != "bash"@,
        "read"@ != "webfetch"@,
        "read"@ != "websearch"@,
        "read"@ != "external_directory"@,
        "read"@ != "doom_loop"@,
        "grep"@ != "glob"@,
        "grep"@ != "bash"@,
        "grep"@ != "webfetch"@,
        "grep"@ != "websearch"@,
        "grep"@ != "external_directory"@,
        "grep"@ != "doom_loop"@,
        "glob"@ != "bash"@,
        "glob"@ != "webfetch"@,
        "glob"@ != "websearch"@,
        "glob"@ != "external_directory"@,
        "glob"@ != "doom_loop"@,
        "bash"@ != "webfetch"@,
        "bash"@ != "websearch"@,
        "bash"@ != "external_directory"@,
        "bash"@ != "doom_loop"@,
        "webfetch"@ != "websearch"@,
        "webfetch"@ != "external_directory"@,
        "webfetch"@ != "doom_loop"@,
        "websearch"@ != "external_directory"@,
        "websearch"@ != "doom_loop"@,
        "external_directory"@ != "doom_loop"@,
{
    reveal_strlit("*");
    reveal_strlit("edit");
    reveal_strlit("todowrite");
    reveal_strlit("question");
    reveal_strlit("task");
    reveal_strlit("skill");
    reveal_strlit("lsp");
    reveal_strlit("read");
    reveal_strlit("grep");
    reveal_strlit("glob");
    reveal_strlit("bash");
    reveal_strlit("webfetch");
    reveal_strlit("websearch");
    reveal_strlit("external_directory");
    reveal_strlit("doom_loop");
    assert("*"@.len() == 1);
    assert("edit"@.len() == 4);
    assert("todowrite"@.len() == 9);
    assert("question"@.len() == 8);
    assert("task"@.len() == 4);
    assert("skill"@.len() == 5);
    assert("lsp"@.len() == 3);
    assert("read"@.len() == 4);
    assert("grep"@.len() == 4);
    assert("glob"@.len() == 4);
    assert("bash"@.len() == 4);
    assert("webfetch"@.len() == 8);
    assert("websearch"@.len() == 9);
    assert("external_directory"@.len() == 18);
    assert("doom_loop"@.len() == 9);
    assert("edit"@[0] == 'e');
    assert("task"@[0] == 't');
    assert("read"@[0] == 'r');
    assert("grep"@[0] == 'g');
    assert("glob"@[0] == 'g');
    assert("bash"@[0] == 'b');
    assert("todowrite"@[0] == 't');
    assert("websearch"@[0] == 'w');
    assert("doom_loop"@[0] == 'd');
    assert("question"@[0] == 'q');
    assert("webfetch"@[0] == 'w');
    assert("grep"@[1] == 'r');
    assert("glob"@[1] == 'l');
}

proof fn lemma_command_names()
    ensures
        "git status*"@ != "git diff*"@,
        "git status*"@ != "npm test*"@,
        "git status*"@ != "npm run test*"@,
        "git status*"@ != "npm run lint*"@,
        "git status*"@ != "npx tsc --noEmit*"@,
        "git status*"@ != "*"@,
        "git diff*"@ != "npm test*"@,
        "git diff*"@ != "npm run test*"@,
        "git diff*"@ != "npm run lint*"@,
        "git diff*"@ != "npx tsc --noEmit*"@,
        "git diff*"@ != "*"@,
        "npm test*"@ != "npm run test*"@,
        "npm test*"@ != "npm run lint*"@,
        "npm test*"@ != "npx tsc --noEmit*"@,
        "npm test*"@ != "*"@,
        "npm run test*"@ != "npm run lint*"@,
        "npm run test*"@ != "npx tsc --noEmit*"@,
        "npm run test*"@ != "*"@,
        "npm run lint*"@ != "npx tsc --noEmit*"@,
        "npm run lint*"@ != "*"@,
        "npx tsc --noEmit*"@ != "*"@,
{
    reveal_strlit("git status*");
    reveal_strlit("git diff*");
    reveal_strlit("npm test*");
    reveal_strlit("npm run test*");
    reveal_strlit("npm run lint*");
    reveal_strlit("npx tsc --noEmit*");
    reveal_strlit("*");
    assert("git status*"@.len() == 11);
    assert("git diff*"@.len() == 9);
    assert("npm test*"@.len() == 9);
    assert("npm run test*"@.len() == 13);
    assert("npm run lint*"@.len() == 13);
    assert("npx tsc --noEmit*"@.len() == 17);
    assert("*"@.len() == 1);
    assert("git diff*"@[0] == 'g');
    assert("npm test*"@[0] == 'n');
    assert("npm run test*"@[8] == 't');
    assert("npm run lint*"@[8] == 'l');
}

proof fn lemma_config_names()
    ensures
        "$schema"@ != "model"@,
        "$schema"@ != "permission"@,
        "$schema"@ != "provider"@,
        "$schema"@ != "agent"@,
        "$schema"@ != "default_agent"@,
        "$schema"@ != "npm"@,
        "$schema"@ != "name"@,
        "$schema"@ != "options"@,
        "$schema"@ != "models"@,
        "$schema"@ != "baseURL"@,
        "$schema"@ != "apiKey"@,
        "$schema"@ != "mode"@,
        "$schema"@ != "description"@,
        "$schema"@ != "temperature"@,
        "$schema"@ != "steps"@,
        "model"@ != "permission"@,
        "model"@ != "provider"@,
        "model"@ != "agent"@,
        "model"@ != "default_agent"@,
        "model"@ != "npm"@,
        "model"@ != "name"@,
        "model"@ != "options"@,
        "model"@ != "models"@,
        "model"@ != "baseURL"@,
        "model"@ != "apiKey"@,
        "model"@ != "mode"@,
        "model"@ != "description"@,
        "model"@ != "temperature"@,
        "model"@ != "steps"@,
        "permission"@ != "provider"@,
        "permission"@ != "agent"@,
        "permission"@ != "default_agent"@,
        "permission"@ != "npm"@,
        "permission"@ != "name"@,
        "permission"@ != "options"@,
        "permission"@ != "models"@,
        "permission"@ != "baseURL"@,
        "permission"@ != "apiKey"@,
        "permission"@ != "mode"@,
        "permission"@ != "description"@,
        "permission"@ != "temperature"@,
        "permission"@ != "steps"@,
        "provider"@ != "agent"@,
        "provider"@ != "default_agent"@,
        "provider"@ != "npm"@,
        "provider"@ != "name"@,
        "provider"@ != "options"@,
        "provider"@ != "models"@,
        "provider"@ != "baseURL"@,
        "provider"@ != "apiKey"@,
        "provider"@ != "mode"@,
        "provider"@ != "description"@,
        "provider"@ != "temperature"@,
        "provider"@ != "steps"@,
        "agent"@ != "default_agent"@,
        "agent"@ != "npm"@,
        "agent"@ != "name"@,
        "agent"@ != "options"@,
        "agent"@ != "models"@,
        "agent"@ != "baseURL"@,
        "agent"@ != "apiKey"@,
        "agent"@ != "mode"@,
        "agent"@ != "description"@,
        "agent"@ != "temperature"@,
        "agent"@ != "steps"@,
        "default_agent"@ != "npm"@,
        "default_agent"@ != "name"@,
        "default_agent"@ != "options"@,
        "default_agent"@ != "models"@,
        "default_agent"@ != "baseURL"@,
        "default_agent"@ != "apiKey"@,
        "default_agent"@ != "mode"@,
        "default_agent"@ != "description"@,
        "default_agent"@ != "temperature"@,
        "default_agent"@ != "steps"@,
        "npm"@ != "name"@,
        "npm"@ != "options"@,
        "npm"@ != "models"@,
        "npm"@ != "baseURL"@,
        "npm"@ != "apiKey"@,
        "npm"@ != "mode"@,
        "npm"@ != "description"@,
        "npm"@ != "temperature"@,
        "npm"@ != "steps"@,
        "name"@ != "options"@,
        "name"@ != "models"@,
        "name"@ != "baseURL"@,
        "name"@ != "apiKey"@,
        "name"@ != "mode"@,
        "name"@ != "description"@,
        "name"@ != "temperature"@,
        "name"@ != "steps"@,
        "options"@ != "models"@,
        "options"@ != "baseURL"@,
        "options"@ != "apiKey"@,
        "options"@ != "mode"@,
        "options"@ != "description"@,
        "options"@ != "temperature"@,
        "options"@ != "steps"@,
        "models"@ != "baseURL"@,
        "models"@ != "apiKey"@,
        "models"@ != "mode"@,
        "models"@ != "description"@,
        "models"@ != "temperature"@,
        "models"@ != "steps"@,
        "baseURL"@ != "apiKey"@,
        "baseURL"@ != "mode"@,
        "baseURL"@ != "description"@,
        "baseURL"@ != "temperature"@,
        "baseURL"@ != "steps"@,
        "apiKey"@ != "mode"@,
        "apiKey"@ != "description"@,
        "apiKey"@ != "temperature"@,
        "apiKey"@ != "steps"@,
        "mode"@ != "description"@,
        "mode"@ != "temperature"@,
        "mode"@ != "steps"@,
        "description"@ != "temperature"@,
        "description"@ != "steps"@,
        "temperature"@ != "steps"@,
{
    reveal_strlit("$schema");
    reveal_strlit("model");
    reveal_strlit("permission");
    reveal_strlit("provider");
    reveal_strlit("agent");
    reveal_strlit("default_agent");
    reveal_strlit("npm");
    reveal_strlit("name");
    reveal_strlit("options");
    reveal_strlit("models");
    reveal_strlit("baseURL");
    reveal_strlit("apiKey");
    reveal_strlit("mode");
    reveal_strlit("description");
    reveal_strlit("temperature");
    reveal_strlit("steps");
    assert("$schema"@.len() == 7);
    assert("model"@.len() == 5);
    assert("permission"@.len() == 10);
    assert("provider"@.len() == 8);
    assert("agent"@.len() == 5);
    assert("default_agent"@.len() == 13);
    assert("npm"@.len() == 3);
    assert("name"@.len() == 4);
    assert("options"@.len() == 7);
    assert("models"@.len() == 6);
    assert("baseURL"@.len() == 7);
    assert("apiKey"@.len() == 6);
    assert("mode"@.len() == 4);
    assert("description"@.len() == 11);
    assert("temperature"@.len() == 11);
    assert("steps"@.len() == 5);
    assert("$schema"@[0] == '$');
    assert("options"@[0] == 'o');
    assert("baseURL"@[0] == 'b');
    assert("model"@[0] == 'm');
    assert("agent"@[0] == 'a');
    assert("steps"@[0] == 's');
    assert("name"@[0] == 'n');
    assert("mode"@[0] == 'm');
    assert("models"@[0] == 'm');
    assert("apiKey"@[0] == 'a');
    assert("description"@[0] == 'd');
    assert("temperature"@[0] == 't');
}

/// Reading, searching and listing is all that is allowed to an agent that only proposes.
pub proof fn law_proposals_only_read(what: Seq<char>)
    ensures
        proposal_permissions().field("*"@) == Some(word("deny"@)),
        proposal_permissions().field("edit"@) == Some(word("deny"@)),
        proposal_permissions().field("todowrite"@) == Some(word("deny"@)),
        proposal_permissions().field("question"@) == Some(word("deny"@)),
        proposal_permissions().field("task"@) == Some(word("deny"@)),
        proposal_permissions().field("skill"@) == Some(word("deny"@)),
        proposal_permissions().field("lsp"@) == Some(word("deny"@)),
        proposal_permissions().field("read"@) == Some(word("allow"@)),
        proposal_permissions().field("grep"@) == Some(word("allow"@)),
        proposal_permissions().field("glob"@) == Some(word("allow"@)),
        proposal_permissions().field("bash"@) == Some(word("deny"@)),
        proposal_permissions().field("webfetch"@) == Some(word("deny"@)),
        proposal_permissions().field("websearch"@) == Some(word("deny"@)),
        proposal_permissions().field("external_directory"@) == Some(word("deny"@)),
        proposal_permissions().field(what) == Some(word("allow"@)) ==> (what == "read"@ || what
            == "grep"@ || what == "glob"@),
{
    lemma_permission_names();
    reveal_strlit("allow");
    reveal_strlit("deny");
    assert("allow"@.len() == 5 && "deny"@.len() == 4);
}

/// A task's agent differs from one that only proposes in three permissions, and in no other.
pub proof fn law_tasks_may_edit_too(what: Seq<char>)
    ensures
        what != "edit"@ && what != "bash"@ && what != "doom_loop"@ ==> task_permissions().field(what)
            == proposal_permissions().field(what),
        task_permissions().field("edit"@) == Some(word("allow"@)),
        task_permissions().field("bash"@) == Some(task_commands()),
        task_permissions().field("doom_loop"@) == Some(word("deny"@)),
{
    lemma_permission_names();
}

/// The shell of a task looks at the repository, tests, lints and checks types; every other
/// command is denied.
pub proof fn law_task_commands(command: Seq<char>)
    ensures
        task_commands().field("git status*"@) == Some(word("allow"@)),
        task_commands().field("git diff*"@) == Some(word("allow"@)),
        task_commands().field("npm test*"@) == Some(word("allow"@)),
        task_commands().field("npm run test*"@) == Some(word("allow"@)),
        task_commands().field("npm run lint*"@) == Some(word("allow"@)),
        task_commands().field("npx tsc --noEmit*"@) == Some(word("allow"@)),
        task_commands().field("*"@) == Some(word("deny"@)),
        task_commands().field(command) == Some(word("allow"@)) ==> (command == "git status*"@
            || command == "git diff*"@ || command == "npm test*"@ || command == "npm run test*"@
            || command == "npm run lint*"@ || command == "npx tsc --noEmit*"@),
{
    lemma_command_names();
    reveal_strlit("allow");
    reveal_strlit("deny");
    assert("allow"@.len() == 5 && "deny"@.len() == 4);
}

/// A provider is reached at its address, with its key, and offers the one model.
pub proof fn law_provider_is_reached(
    name: Seq<char>,
    url: Seq<char>,
    key: Seq<char>,
    id: Seq<char>,
    other: Seq<char>,
)
    ensures
        ({
            let p = provider_json(name, url, key, id);
            &&& p.text_field("npm"@) == Some("@ai-sdk/openai-compatible"@)
            &&& p.text_field("name"@) == Some(name)
            &&& p.field("options"@) matches Some(o) && o.text_field("baseURL"@) == Some(url)
                && o.text_field("apiKey"@) == Some(key)
            &&& p.field("models"@) matches Some(m) && {
                &&& m.field(id) matches Some(one) && one.text_field("name"@) == Some(id)
                &&& other != id ==> m.field(other) is None
            }
        }),
{
    lemma_config_names();
}

/// A model of a provider is configured under its full name and served under its own; a model
/// of another provider is refused.
pub proof fn law_provider_of_a_model(
    id: Seq<char>,
    model: Seq<char>,
    provider: TaskProvider,
    permissions: JsonView,
)
    ensures
        provider matches TaskProvider::Ollama { base_url } ==> {
            &&& config_of("ollama/"@ + id, provider, permissions) matches Ok(cfg) && {
                &&& cfg.text_field("model"@) == Some("ollama/"@ + id)
                &&& cfg.field("permission"@) == Some(permissions)
                &&& cfg.field("provider"@) matches Some(ps) && ps.field("ollama"@) == Some(
                    provider_json(
                        "Ollama (RLMlocal)"@,
                        ollama_url(text::opt_view(base_url)),
                        "ollama"@,
                        id,
                    ),
                )
            }
            &&& !text::begins(model, "ollama/"@) ==> config_of(model, provider, permissions) is Err
        },
        provider matches TaskProvider::Edge { proxy_url, api_key } ==> {
            &&& config_of("rlm-edge/"@ + id, provider, permissions) matches Ok(cfg) && {
                &&& cfg.text_field("model"@) == Some("rlm-edge/"@ + id)
                &&& cfg.field("permission"@) == Some(permissions)
                &&& cfg.field("provider"@) matches Some(ps) && ps.field("rlm-edge"@) == Some(
                    provider_json("RLMlocal Edge task bridge"@, proxy_url@, api_key@, id),
                )
            }
            &&& !text::begins(model, "rlm-edge/"@) ==> config_of(model, provider, permissions) is Err
        },
{
    lemma_config_names();
    text::law_prefix("ollama/"@, id, model);
    text::law_prefix("rlm-edge/"@, id, model);
    if let Some(r) = text::after_prefix(model, "ollama/"@) {
        text::law_prefix("ollama/"@, r, model);
    }
    if let Some(r) = text::after_prefix(model, "rlm-edge/"@) {
        text::law_prefix("rlm-edge/"@, r, model);
    }
}

/// An Ollama server is asked at `/v1`, written once, however its address ends.
pub proof fn law_ollama_address(base: Seq<char>)
    requires
        base.len() > 0,
        !text::is_space(base[0]) && !text::is_space(base.last()),
        base.last() != '/',
    ensures
        !text::finishes(base, "/v1"@) ==> {
            &&& ollama_url(Some(base)) == base + "/v1"@
            &&& ollama_url(Some(base + seq!['/'])) == base + "/v1"@
            &&& ollama_url(Some(seq![' '] + base + seq!['\n'])) == base + "/v1"@
        },
        ollama_url(Some(base + "/v1"@)) == base + "/v1"@,
        ollama_url(Some(base + "/v1"@ + seq!['/'])) == base + "/v1"@,
        ollama_url(None) == "http://127.0.0.1:11434/v1"@,
{
    reveal_strlit("/v1");
    reveal_strlit("http://127.0.0.1:11434/v1");
    let e = Seq::<char>::empty();
    let v = base + "/v1"@;
    let d = "http://127.0.0.1:11434/v1"@;
    text::law_white_space('/');
    text::law_white_space('h');
    text::law_white_space('1');
    text::law_trimming(e, base, e, CharClass::Space);
    text::law_trimming(e, base + seq!['/'], e, CharClass::Space);
    text::law_trimming(seq![' '], base, seq!['\n'], CharClass::Space);
    text::law_trimming(e, v, e, CharClass::Space);
    text::law_trimming(e, v + seq!['/'], e, CharClass::Space);
    text::law_trimming(e, d, e, CharClass::Space);
    assert(e + base + e =~= base);
    assert(e + (base + seq!['/']) + e =~= base + seq!['/']);
    assert(e + v + e =~= v);
    assert(e + (v + seq!['/']) + e =~= v + seq!['/']);
    assert(e + d + e =~= d);
    assert(text::trim_end_of(base, CharClass::Slash) == base);
    assert(text::trim_end_of(v, CharClass::Slash) == v);
    assert(text::trim_end_of(d, CharClass::Slash) == d);
    assert((base + seq!['/']).drop_last() =~= base);
    assert((v + seq!['/']).drop_last() =~= v);
    assert(text::trim_end_of(base + seq!['/'], CharClass::Slash) == base);
    assert(text::trim_end_of(v + seq!['/'], CharClass::Slash) == v);
    text::law_prefix("/v1"@, base, e);
    assert(d.subrange(d.len() - 3, d.len() as int) =~= "/v1"@);
}

/// The configurations of both kinds of agent are for the model and the provider that were
/// given.
pub proof fn law_configs_agree(model: Seq<char>, provider: TaskProvider)
    ensures
        rlm_config(model, provider) is Ok <==> task_config(model, provider) is Ok,
        rlm_config(model, provider) matches Ok(a) ==> task_config(model, provider) matches Ok(b)
            && {
            &&& a.field("model"@) == b.field("model"@)
            &&& a.field("provider"@) == b.field("provider"@)
            &&& a.field("provider"@) is Some
            &&& a.field("agent"@) is None
        },
        rlm_config(model, provider) matches Err(e) ==> task_config(model, provider) == Err::<
            JsonView,
            Seq<char>,
        >(e),
{
    lemma_config_names();
}

/// What is printed is the configuration; where there is none, the reason is handed on.
pub proof fn law_printed(cfg: JsonView, e: Seq<char>, failure: Seq<char>)
    ensures
        printed(Err(e), failure) == Err::<Seq<char>, Seq<char>>(e),
        json::pretty_json(cfg) is Ok ==> printed(Ok(cfg), failure) == json::pretty_json(cfg),
        json::pretty_json(cfg) matches Err(why) ==> printed(Ok(cfg), failure) == Err::<
            Seq<char>,
            Seq<char>,
        >(failure + why),
{
}

/// A task's agent is a primary one with a low temperature, and is told what it works in.
pub proof fn law_task_agent()
    ensures
        task_agent().field("rlm-shadow"@) matches Some(agent) && {
            &&& agent.text_field("mode"@) == Some("primary"@)
            &&& agent.text_field("description"@) == Some(
                "RLMlocal disposable-worktree coding agent"@,
            )
            &&& agent.field("temperature"@) == Some(one_tenth())
            &&& agent.field("steps"@) == Some(JsonView::number(12))
        },
        json::parsed_json("0.1"@) is Ok ==> json::parsed_json("0.1"@) == Ok::<JsonView, Seq<char>>(
            one_tenth(),
        ),
{
    lemma_config_names();
}

} // verus!
