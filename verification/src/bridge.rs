//! The HTTP bridge: who may call the executor from a browser, and what for.
//!
//! Only pages of known origins may read what the bridge answers, and a release build runs
//! nothing for a caller that does not show the pairing code.

use crate::http::{
    self, find_header, header_is_valid, push_header, HttpMethod, HttpReply, ReplyView,
};
use crate::json::{self, Json, JsonView};
use crate::text::{self, no_texts, push_text, same_text, starts_with};
use vstd::prelude::*;

verus! {

/// The port of the bridge.
pub const BRIDGE_PORT: u16 = 1421;

// ---------------------------------------------------------------------------
// Origins
// ---------------------------------------------------------------------------

/// Is this the origin of one of the product's own sites?
pub open spec fn known_site(origin: Seq<char>) -> bool {
    ||| origin == "https://rlmlocal.com"@
    ||| origin == "https://www.rlmlocal.com"@
    ||| origin == "https://rlmlocal-site.pages.dev"@
}

/// Is this the origin of a page that this machine serves, on any port?
pub open spec fn local_origin(origin: Seq<char>) -> bool {
    ||| origin == "http://localhost"@
    ||| origin == "http://127.0.0.1"@
    ||| text::begins(origin, "http://localhost:"@)
    ||| text::begins(origin, "http://127.0.0.1:"@)
}

/// May a page of this origin call the bridge? The product's own sites may, and while it is
/// being developed so may this machine.
pub open spec fn allowed_origin(origin: Seq<char>, release: bool) -> bool {
    known_site(origin) || (!release && local_origin(origin))
}

/// May a page of this origin call the bridge?
pub fn is_allowed_origin(origin: &str, release: bool) -> (allowed: bool)
    ensures
        allowed == (known_site(origin@) || (!release && local_origin(origin@))),
{
    if same_text(origin, "https://rlmlocal.com") || same_text(origin, "https://www.rlmlocal.com")
        || same_text(origin, "https://rlmlocal-site.pages.dev") {
        return true;
    }
    !release && (same_text(origin, "http://localhost") || same_text(origin, "http://127.0.0.1")
        || starts_with(origin, "http://localhost:") || starts_with(origin, "http://127.0.0.1:"))
}

/// The headers that every reply of the bridge has.
pub open spec fn fixed_headers() -> Seq<http::HeaderView> {
    seq![
        ("Access-Control-Allow-Methods"@, "GET, POST, OPTIONS"@),
        ("Access-Control-Allow-Headers"@, "Content-Type, X-RLM-Token"@),
        ("Access-Control-Allow-Private-Network"@, "true"@),
        ("Content-Type"@, "application/json"@),
    ]
}

/// The origin that a reply names as allowed: the request's own, where it is one.
pub open spec fn reflected(origin: Option<Seq<char>>, release: bool) -> Option<Seq<char>> {
    match origin {
        Some(o) => if allowed_origin(o, release) && http::ascii(o) {
            Some(o)
        } else {
            None
        },
        None => None,
    }
}

/// A reply of the bridge: an origin that is not allowed is not named, so that the browser
/// keeps the reply from the page.
pub open spec fn cors_reply(
    body: Seq<char>,
    status: u16,
    origin: Option<Seq<char>>,
    release: bool,
) -> ReplyView {
    ReplyView {
        status,
        headers: match reflected(origin, release) {
            Some(o) => fixed_headers().push(("Access-Control-Allow-Origin"@, o)),
            None => fixed_headers(),
        },
        body,
    }
}

/// The name of the field that names an allowed origin makes a header.
proof fn lemma_origin_field_is_ascii()
    ensures
        http::ascii("Access-Control-Allow-Origin"@),
{
    reveal_strlit("Access-Control-Allow-Origin");
    let s = "Access-Control-Allow-Origin"@;
    assert forall|i: int| 0 <= i < s.len() implies #[trigger] s[i] as u32 <= 127 by {}
}

/// A reply of the bridge.
pub fn cors_response(body: &str, status: u16, origin: &Option<String>, release: bool) -> (reply:
    HttpReply)
    ensures
        reply@ == cors_reply(body@, status, text::opt_view(*origin), release),
{
    let mut headers: Vec<(String, String)> = Vec::new();
    assert(http::header_views(headers@) =~= Seq::empty());
    push_header(&mut headers, "Access-Control-Allow-Methods", "GET, POST, OPTIONS");
    push_header(&mut headers, "Access-Control-Allow-Headers", "Content-Type, X-RLM-Token");
    push_header(&mut headers, "Access-Control-Allow-Private-Network", "true");
    push_header(&mut headers, "Content-Type", "application/json");
    assert(http::header_views(headers@) =~= fixed_headers());
    proof {
        lemma_origin_field_is_ascii();
    }
    if let Some(o) = origin {
        if is_allowed_origin(o.as_str(), release) && header_is_valid(
            "Access-Control-Allow-Origin",
            o.as_str(),
        ) {
            push_header(&mut headers, "Access-Control-Allow-Origin", o.as_str());
        }
    }
    HttpReply { status, headers, body: body.to_owned() }
}

/// A release build allows the product's own sites and nothing else, and no build allows all.
pub proof fn law_release_allows_only_known_sites(origin: Seq<char>, release: bool)
    ensures
        allowed_origin(origin, true) <==> known_site(origin),
        !allowed_origin("*"@, release),
{
    reveal_strlit("*");
    reveal_strlit("https://rlmlocal.com");
    reveal_strlit("https://www.rlmlocal.com");
    reveal_strlit("https://rlmlocal-site.pages.dev");
    reveal_strlit("http://localhost");
    reveal_strlit("http://127.0.0.1");
    reveal_strlit("http://localhost:");
    reveal_strlit("http://127.0.0.1:");
    assert("*"@.len() == 1);
    assert("https://rlmlocal.com"@.len() == 20);
    assert("https://www.rlmlocal.com"@.len() == 24);
    assert("https://rlmlocal-site.pages.dev"@.len() == 31);
    assert("http://localhost"@.len() == 16);
    assert("http://127.0.0.1"@.len() == 16);
}

/// A reply names no origin but the request's own, and that only where it is allowed; in
/// particular it never allows all.
pub proof fn law_only_allowed_origins_are_named(
    body: Seq<char>,
    status: u16,
    origin: Option<Seq<char>>,
    release: bool,
    i: int,
)
    requires
        0 <= i < cors_reply(body, status, origin, release).headers.len(),
        http::same_field(
            cors_reply(body, status, origin, release).headers[i].0,
            "Access-Control-Allow-Origin"@,
        ),
    ensures
        origin == Some(cors_reply(body, status, origin, release).headers[i].1),
        allowed_origin(cors_reply(body, status, origin, release).headers[i].1, release),
        cors_reply(body, status, origin, release).headers[i].1 != "*"@,
{
    let headers = cors_reply(body, status, origin, release).headers;
    reveal_strlit("Access-Control-Allow-Methods");
    reveal_strlit("Access-Control-Allow-Headers");
    reveal_strlit("Access-Control-Allow-Private-Network");
    reveal_strlit("Content-Type");
    reveal_strlit("Access-Control-Allow-Origin");
    assert("Access-Control-Allow-Origin"@.len() == 27);
    assert(text::lower("Access-Control-Allow-Origin"@).len() == 27);
    assert forall|k: int| 0 <= k < 4 implies !http::same_field(
        #[trigger] fixed_headers()[k].0,
        "Access-Control-Allow-Origin"@,
    ) by {
        assert(text::lower(fixed_headers()[k].0).len() == fixed_headers()[k].0.len());
    }
    assert(headers.take(4) =~= fixed_headers());
    if i < 4 {
        assert(headers[i] == fixed_headers()[i]);
    }
    assert(i == 4);
    law_release_allows_only_known_sites(headers[4].1, release);
}

// ---------------------------------------------------------------------------
// Admission
// ---------------------------------------------------------------------------

/// What becomes of a request by its head.
pub enum BridgeGate {
    /// It is answered without running anything.
    Reply(HttpReply),
    /// It is served; `is_post` tells whether it may run anything.
    Serve { is_post: bool },
}

/// What a caller is told that did not show the pairing code.
pub open spec fn unpaired_json() -> JsonView {
    JsonView::object().put(
        "error"@,
        JsonView::Text("unpaired executor — pair it with the code shown on launch"@),
    )
}

/// Does a request show the pairing code?
pub open spec fn paired(headers: Seq<http::HeaderView>, token: Seq<char>) -> bool {
    http::header_of(headers, "X-RLM-Token"@) == Some(token)
}

/// Is a request served? A preflight is not, and in a release build neither is a request
/// that does not show the pairing code.
pub open spec fn admitted(
    method: HttpMethod,
    headers: Seq<http::HeaderView>,
    release: bool,
    token: Seq<char>,
) -> bool {
    method != HttpMethod::Options && (release ==> paired(headers, token))
}

/// What becomes of a request by its head: a preflight is answered; in a release build a
/// request that does not show the pairing code is refused before anything runs.
pub fn bridge_gate(
    method: HttpMethod,
    headers: &Vec<(String, String)>,
    release: bool,
    token: &str,
) -> (gate: BridgeGate)
    ensures
        ({
            let views = http::header_views(headers@);
            let origin = http::header_of(views, "Origin"@);
            if admitted(method, views, release, token@) {
                gate matches BridgeGate::Serve { is_post } && is_post == (method
                    == HttpMethod::Post)
            } else if method == HttpMethod::Options {
                gate matches BridgeGate::Reply(r) && r@ == cors_reply(
                    Seq::empty(),
                    200,
                    origin,
                    release,
                )
            } else {
                gate matches BridgeGate::Reply(r) && r@ == cors_reply(
                    json::compact_json(unpaired_json()),
                    401,
                    origin,
                    release,
                )
            }
        }),
{
    let origin: Option<String> = find_header(headers, "Origin");
    if method == HttpMethod::Options {
        let body: String = String::new();
        return BridgeGate::Reply(cors_response(body.as_str(), 200, &origin, release));
    }
    let is_post: bool = method == HttpMethod::Post;
    if release {
        let shown: bool = match find_header(headers, "X-RLM-Token") {
            Some(t) => same_text(t.as_str(), token),
            None => false,
        };
        if !shown {
            let refusal: Json = Json::object().put(
                "error",
                Json::text("unpaired executor — pair it with the code shown on launch"),
            );
            return BridgeGate::Reply(cors_response(
                refusal.compact().as_str(),
                401,
                &origin,
                release,
            ));
        }
    }
    BridgeGate::Serve { is_post }
}

/// What the bridge answers for what a call came to: its result, or its error in a document.
pub fn bridge_reply(
    result: Result<String, String>,
    origin: &Option<String>,
    release: bool,
) -> (reply: HttpReply)
    ensures
        reply@ == cors_reply(
            match result {
                Ok(t) => t@,
                Err(e) => json::compact_json(
                    JsonView::object().put("error"@, JsonView::Text(e@)),
                ),
            },
            200,
            text::opt_view(*origin),
            release,
        ),
{
    let body: String = match result {
        Ok(t) => t,
        Err(e) => Json::object().put("error", Json::Text(e)).compact(),
    };
    cors_response(body.as_str(), 200, origin, release)
}

// ---------------------------------------------------------------------------
// Calls
// ---------------------------------------------------------------------------

/// What a request asks the executor to do. Edits, positions and providers are handed on as
/// the documents that they came as.
pub enum BridgeCall {
    RunTests { project_path: Option<String> },
    VerifyPatch {
        project_path: Option<String>,
        file: String,
        search: Option<String>,
        replace: Option<String>,
        edits: Option<Json>,
    },
    ApplyPatch {
        project_path: Option<String>,
        file: String,
        search: Option<String>,
        replace: Option<String>,
        edits: Option<Json>,
        message: Option<String>,
    },
    ResolveTypes {
        project_path: Option<String>,
        file: String,
        positions: Option<Json>,
        content: Option<String>,
    },
    ComputeRefactor {
        project_path: Option<String>,
        file: String,
        kind: String,
        args: Json,
        content: Option<String>,
    },
    GitCochange { project_path: Option<String> },
    FindLiteralTargets { project_path: Option<String>, literals: Vec<String> },
    OpencodeStatus,
    OpencodeStart { project_path: Option<String> },
    OpencodeStop,
    OpencodeEnsure { project_path: Option<String> },
    TaskStart {
        project_path: Option<String>,
        model: Option<String>,
        ollama_base: Option<String>,
        provider: Option<Json>,
    },
    TaskCollect { task_id: Option<String> },
    TaskTurn {
        task_id: Option<String>,
        message: Option<String>,
        model: Option<String>,
        ollama_base: Option<String>,
    },
    TaskCleanup { task_id: Option<String> },
    Run {
        project_path: Option<String>,
        prompt: String,
        model: Option<String>,
        ollama_base: Option<String>,
        provider: Option<Json>,
    },
    NotFound,
}

/// A call as a mathematical value.
pub enum CallView {
    RunTests { project_path: Option<Seq<char>> },
    VerifyPatch {
        project_path: Option<Seq<char>>,
        file: Seq<char>,
        search: Option<Seq<char>>,
        replace: Option<Seq<char>>,
        edits: Option<JsonView>,
    },
    ApplyPatch {
        project_path: Option<Seq<char>>,
        file: Seq<char>,
        search: Option<Seq<char>>,
        replace: Option<Seq<char>>,
        edits: Option<JsonView>,
        message: Option<Seq<char>>,
    },
    ResolveTypes {
        project_path: Option<Seq<char>>,
        file: Seq<char>,
        positions: Option<JsonView>,
        content: Option<Seq<char>>,
    },
    ComputeRefactor {
        project_path: Option<Seq<char>>,
        file: Seq<char>,
        kind: Seq<char>,
        args: JsonView,
        content: Option<Seq<char>>,
    },
    GitCochange { project_path: Option<Seq<char>> },
    FindLiteralTargets { project_path: Option<Seq<char>>, literals: Seq<Seq<char>> },
    OpencodeStatus,
    OpencodeStart { project_path: Option<Seq<char>> },
    OpencodeStop,
    OpencodeEnsure { project_path: Option<Seq<char>> },
    TaskStart {
        project_path: Option<Seq<char>>,
        model: Option<Seq<char>>,
        ollama_base: Option<Seq<char>>,
        provider: Option<JsonView>,
    },
    TaskCollect { task_id: Option<Seq<char>> },
    TaskTurn {
        task_id: Option<Seq<char>>,
        message: Option<Seq<char>>,
        model: Option<Seq<char>>,
        ollama_base: Option<Seq<char>>,
    },
    TaskCleanup { task_id: Option<Seq<char>> },
    Run {
        project_path: Option<Seq<char>>,
        prompt: Seq<char>,
        model: Option<Seq<char>>,
        ollama_base: Option<Seq<char>>,
        provider: Option<JsonView>,
    },
    NotFound,
}

/// The view of an optional document.
pub open spec fn doc_view(v: Option<Json>) -> Option<JsonView> {
    match v {
        Some(v) => Some(v@),
        None => None,
    }
}

impl View for BridgeCall {
    type V = CallView;

    open spec fn view(&self) -> CallView {
        match *self {
            BridgeCall::RunTests { project_path } => CallView::RunTests {
                project_path: text::opt_view(project_path),
            },
            BridgeCall::VerifyPatch { project_path, file, search, replace, edits } => CallView::VerifyPatch {
                project_path: text::opt_view(project_path),
                file: file@,
                search: text::opt_view(search),
                replace: text::opt_view(replace),
                edits: doc_view(edits),
            },
            BridgeCall::ApplyPatch { project_path, file, search, replace, edits, message } => CallView::ApplyPatch {
                project_path: text::opt_view(project_path),
                file: file@,
                search: text::opt_view(search),
                replace: text::opt_view(replace),
                edits: doc_view(edits),
                message: text::opt_view(message),
            },
            BridgeCall::ResolveTypes { project_path, file, positions, content } => CallView::ResolveTypes {
                project_path: text::opt_view(project_path),
                file: file@,
                positions: doc_view(positions),
                content: text::opt_view(content),
            },
            BridgeCall::ComputeRefactor { project_path, file, kind, args, content } => CallView::ComputeRefactor {
                project_path: text::opt_view(project_path),
                file: file@,
                kind: kind@,
                args: args@,
                content: text::opt_view(content),
            },
            BridgeCall::GitCochange { project_path } => CallView::GitCochange {
                project_path: text::opt_view(project_path),
            },
            BridgeCall::FindLiteralTargets { project_path, literals } => CallView::FindLiteralTargets {
                project_path: text::opt_view(project_path),
                literals: text::views(literals@),
            },
            BridgeCall::OpencodeStatus => CallView::OpencodeStatus,
            BridgeCall::OpencodeStart { project_path } => CallView::OpencodeStart {
                project_path: text::opt_view(project_path),
            },
            BridgeCall::OpencodeStop => CallView::OpencodeStop,
            BridgeCall::OpencodeEnsure { project_path } => CallView::OpencodeEnsure {
                project_path: text::opt_view(project_path),
            },
            BridgeCall::TaskStart { project_path, model, ollama_base, provider } => CallView::TaskStart {
                project_path: text::opt_view(project_path),
                model: text::opt_view(model),
                ollama_base: text::opt_view(ollama_base),
                provider: doc_view(provider),
            },
            BridgeCall::TaskCollect { task_id } => CallView::TaskCollect {
                task_id: text::opt_view(task_id),
            },
            BridgeCall::TaskTurn { task_id, message, model, ollama_base } => CallView::TaskTurn {
                task_id: text::opt_view(task_id),
                message: text::opt_view(message),
                model: text::opt_view(model),
                ollama_base: text::opt_view(ollama_base),
            },
            BridgeCall::TaskCleanup { task_id } => CallView::TaskCleanup {
                task_id: text::opt_view(task_id),
            },
            BridgeCall::Run { project_path, prompt, model, ollama_base, provider } => CallView::Run {
                project_path: text::opt_view(project_path),
                prompt: prompt@,
                model: text::opt_view(model),
                ollama_base: text::opt_view(ollama_base),
                provider: doc_view(provider),
            },
            BridgeCall::NotFound => CallView::NotFound,
        }
    }
}

/// An optional text, or no text.
pub open spec fn or_empty(t: Option<Seq<char>>) -> Seq<char> {
    match t {
        Some(t) => t,
        None => Seq::empty(),
    }
}

/// A field, unless it is `null`.
pub open spec fn given(v: JsonView, key: Seq<char>) -> Option<JsonView> {
    match v.field(key) {
        Some(p) => if p is Null {
            None
        } else {
            Some(p)
        },
        None => None,
    }
}

/// Is every element a string?
pub open spec fn all_text(items: Seq<JsonView>) -> bool {
    forall|i: int| 0 <= i < items.len() ==> (#[trigger] items[i]) is Text
}

/// The strings of an array of strings; anything else holds none.
pub open spec fn strings_of(v: Option<JsonView>) -> Seq<Seq<char>> {
    match v {
        Some(JsonView::Array(items)) => if all_text(items) {
            items.map_values(|t: JsonView| t->Text_0)
        } else {
            Seq::empty()
        },
        _ => Seq::empty(),
    }
}

/// What a POST to `url` with the document `v` asks for.
pub open spec fn call_of(url: Seq<char>, v: JsonView) -> CallView {
    let project_path = v.text_field("projectPath"@);
    if text::begins(url, "/run_tests"@) {
        CallView::RunTests { project_path }
    } else if text::begins(url, "/verify_patch"@) {
        CallView::VerifyPatch {
            project_path,
            file: or_empty(v.text_field("file"@)),
            search: v.text_field("search"@),
            replace: v.text_field("replace"@),
            edits: v.field("edits"@),
        }
    } else if text::begins(url, "/apply_patch"@) {
        CallView::ApplyPatch {
            project_path,
            file: or_empty(v.text_field("file"@)),
            search: v.text_field("search"@),
            replace: v.text_field("replace"@),
            edits: v.field("edits"@),
            message: v.text_field("message"@),
        }
    } else if text::begins(url, "/resolve_types"@) {
        CallView::ResolveTypes {
            project_path,
            file: or_empty(v.text_field("file"@)),
            positions: v.field("positions"@),
            content: v.text_field("content"@),
        }
    } else if text::begins(url, "/compute_refactor"@) {
        CallView::ComputeRefactor {
            project_path,
            file: or_empty(v.text_field("file"@)),
            kind: or_empty(v.text_field("kind"@)),
            args: match v.field("args"@) {
                Some(a) => a,
                None => JsonView::Null,
            },
            content: v.text_field("content"@),
        }
    } else if text::begins(url, "/git_cochange"@) {
        CallView::GitCochange { project_path }
    } else if text::begins(url, "/find_literal_targets"@) {
        CallView::FindLiteralTargets { project_path, literals: strings_of(v.field("literals"@)) }
    } else if text::begins(url, "/opencode_status"@) {
        CallView::OpencodeStatus
    } else if text::begins(url, "/opencode_start"@) {
        CallView::OpencodeStart { project_path }
    } else if text::begins(url, "/opencode_stop"@) {
        CallView::OpencodeStop
    } else if text::begins(url, "/opencode_ensure"@) {
        CallView::OpencodeEnsure { project_path }
    } else if text::begins(url, "/opencode_task_start"@) {
        CallView::TaskStart {
            project_path,
            model: v.text_field("model"@),
            ollama_base: v.text_field("ollamaBase"@),
            provider: given(v, "provider"@),
        }
    } else if text::begins(url, "/opencode_task_collect"@) {
        CallView::TaskCollect { task_id: v.text_field("taskId"@) }
    } else if text::begins(url, "/opencode_task_turn"@) {
        CallView::TaskTurn {
            task_id: v.text_field("taskId"@),
            message: v.text_field("message"@),
            model: v.text_field("model"@),
            ollama_base: v.text_field("ollamaBase"@),
        }
    } else if text::begins(url, "/opencode_task_cleanup"@) {
        CallView::TaskCleanup { task_id: v.text_field("taskId"@) }
    } else if text::begins(url, "/opencode_run"@) {
        CallView::Run {
            project_path,
            prompt: or_empty(v.text_field("message"@)),
            model: v.text_field("model"@),
            ollama_base: v.text_field("ollamaBase"@),
            provider: given(v, "provider"@),
        }
    } else {
        CallView::NotFound
    }
}

/// The text of a field, or no text.
fn text_or_empty(v: &Json, key: &str) -> (t: String)
    ensures
        t@ == or_empty(v@.text_field(key@)),
{
    match v.text_at(key) {
        Some(t) => t,
        None => String::new(),
    }
}

/// A copy of a field.
fn copy_field(v: &Json, key: &str) -> (copy: Option<Json>)
    ensures
        doc_view(copy) == v@.field(key@),
{
    match v.get(key) {
        Some(p) => Some(p.duplicate()),
        None => None,
    }
}

/// A copy of a field, unless it is `null`.
fn copy_given(v: &Json, key: &str) -> (copy: Option<Json>)
    ensures
        doc_view(copy) == given(v@, key@),
{
    match v.get(key) {
        Some(p) => if p.is_null() {
            None
        } else {
            Some(p.duplicate())
        },
        None => None,
    }
}

/// The strings of an array of strings.
fn read_strings(v: Option<&Json>) -> (strings: Vec<String>)
    ensures
        text::views(strings@) == strings_of(json::json_opt(v)),
{
    let items: &Vec<Json> = match v {
        Some(v) => match v.as_items() {
            Some(items) => items,
            None => return no_texts(),
        },
        None => return no_texts(),
    };
    let ghost all = json::json_views(items@);
    let mut strings: Vec<String> = no_texts();
    let mut i: usize = 0;
    while i < items.len()
        invariant
            json::json_opt(v) == Some(JsonView::Array(all)),
            all == json::json_views(items@),
            i <= items@.len(),
            forall|k: int| 0 <= k < i ==> (#[trigger] all[k]) is Text,
            text::views(strings@) == all.take(i as int).map_values(|t: JsonView| t->Text_0),
        decreases items@.len() - i,
    {
        assert(all[i as int] == items@[i as int]@);
        match items[i].as_text() {
            Some(t) => {
                push_text(&mut strings, t.as_str());
                assert(all.take(i + 1).map_values(|t: JsonView| t->Text_0) =~= all.take(
                    i as int,
                ).map_values(|t: JsonView| t->Text_0).push(t@));
            },
            None => {
                assert(!(all[i as int] is Text));
                return no_texts();
            },
        }
        i += 1;
    }
    assert(all.take(i as int) =~= all);
    strings
}

/// What a POST to `url` with the document `v` asks for.
pub fn bridge_call(url: &str, v: &Json) -> (call: BridgeCall)
    ensures
        call@ == call_of(url@, v@),
{
    let project_path: Option<String> = v.text_at("projectPath");
    if starts_with(url, "/run_tests") {
        BridgeCall::RunTests { project_path }
    } else if starts_with(url, "/verify_patch") {
        BridgeCall::VerifyPatch {
            project_path,
            file: text_or_empty(v, "file"),
            search: v.text_at("search"),
            replace: v.text_at("replace"),
            edits: copy_field(v, "edits"),
        }
    } else if starts_with(url, "/apply_patch") {
        BridgeCall::ApplyPatch {
            project_path,
            file: text_or_empty(v, "file"),
            search: v.text_at("search"),
            replace: v.text_at("replace"),
            edits: copy_field(v, "edits"),
            message: v.text_at("message"),
        }
    } else if starts_with(url, "/resolve_types") {
        BridgeCall::ResolveTypes {
            project_path,
            file: text_or_empty(v, "file"),
            positions: copy_field(v, "positions"),
            content: v.text_at("content"),
        }
    } else if starts_with(url, "/compute_refactor") {
        BridgeCall::ComputeRefactor {
            project_path,
            file: text_or_empty(v, "file"),
            kind: text_or_empty(v, "kind"),
            args: match copy_field(v, "args") {
                Some(a) => a,
                None => Json::Null,
            },
            content: v.text_at("content"),
        }
    } else if starts_with(url, "/git_cochange") {
        BridgeCall::GitCochange { project_path }
    } else if starts_with(url, "/find_literal_targets") {
        BridgeCall::FindLiteralTargets { project_path, literals: read_strings(v.get("literals")) }
    } else if starts_with(url, "/opencode_status") {
        BridgeCall::OpencodeStatus
    } else if starts_with(url, "/opencode_start") {
        BridgeCall::OpencodeStart { project_path }
    } else if starts_with(url, "/opencode_stop") {
        BridgeCall::OpencodeStop
    } else if starts_with(url, "/opencode_ensure") {
        BridgeCall::OpencodeEnsure { project_path }
    } else if starts_with(url, "/opencode_task_start") {
        BridgeCall::TaskStart {
            project_path,
            model: v.text_at("model"),
            ollama_base: v.text_at("ollamaBase"),
            provider: copy_given(v, "provider"),
        }
    } else if starts_with(url, "/opencode_task_collect") {
        BridgeCall::TaskCollect { task_id: v.text_at("taskId") }
    } else if starts_with(url, "/opencode_task_turn") {
        BridgeCall::TaskTurn {
            task_id: v.text_at("taskId"),
            message: v.text_at("message"),
            model: v.text_at("model"),
            ollama_base: v.text_at("ollamaBase"),
        }
    } else if starts_with(url, "/opencode_task_cleanup") {
        BridgeCall::TaskCleanup { task_id: v.text_at("taskId") }
    } else if starts_with(url, "/opencode_run") {
        BridgeCall::Run {
            project_path,
            prompt: text_or_empty(v, "message"),
            model: v.text_at("model"),
            ollama_base: v.text_at("ollamaBase"),
            provider: copy_given(v, "provider"),
        }
    } else {
        BridgeCall::NotFound
    }
}

/// The document in a body, or `null` where it holds none.
pub open spec fn body_json(body: Seq<char>) -> JsonView {
    match json::parsed_json(body) {
        Ok(v) => v,
        Err(_) => JsonView::Null,
    }
}

/// What a request asks for. Only a POST asks for anything.
pub open spec fn requested(is_post: bool, url: Seq<char>, body: Seq<char>) -> CallView {
    if is_post {
        call_of(url, body_json(body))
    } else {
        CallView::NotFound
    }
}

/// What a request asks for.
pub fn bridge_route(is_post: bool, url: &str, body: &str) -> (call: BridgeCall)
    ensures
        call@ == requested(is_post, url@, body@),
{
    if !is_post {
        return BridgeCall::NotFound;
    }
    let v: Json = match Json::parse(body) {
        Ok(v) => v,
        Err(_) => Json::Null,
    };
    bridge_call(url, &v)
}

/// A release build serves only requests that show the pairing code.
pub proof fn law_release_serves_only_the_paired(
    method: HttpMethod,
    headers: Seq<http::HeaderView>,
    token: Seq<char>,
)
    requires
        admitted(method, headers, true, token),
    ensures
        paired(headers, token),
{
}

// ---------------------------------------------------------------------------
// What each route asks for
// ---------------------------------------------------------------------------

/// A text does not begin with another from which it differs at some place.
proof fn lemma_begins_otherwise(s: Seq<char>, pat: Seq<char>, k: int)
    requires
        0 <= k < pat.len(),
        k < s.len(),
        s[k] != pat[k],
    ensures
        !text::begins(s, pat),
{
    if text::begins(s, pat) {
        assert(s.subrange(0, pat.len() as int)[k] == s[k]);
    }
}

/// A POST to `/run_tests` runs the tests of the project that it names, by the fields of its document.
pub proof fn law_route_run_tests(rest: Seq<char>, body: Seq<char>, v: JsonView)
    requires
        json::parsed_json(body) == Ok::<JsonView, Seq<char>>(v) || (json::parsed_json(body) is Err
            && v is Null),
    ensures
        requested(true, "/run_tests"@ + rest, body) == (CallView::RunTests {
            project_path: v.text_field("projectPath"@),
        }),
{
    reveal_strlit("/run_tests");
    let url = "/run_tests"@ + rest;
    text::law_prefix("/run_tests"@, rest, url);
}

/// A POST to `/verify_patch` verifies the change that it describes, by the fields of its document.
pub proof fn law_route_verify_patch(rest: Seq<char>, body: Seq<char>, v: JsonView, f: Seq<char>)
    requires
        json::parsed_json(body) == Ok::<JsonView, Seq<char>>(v) || (json::parsed_json(body) is Err
            && v is Null),
        v.text_field("file"@) == Some(f) || (v.text_field("file"@) is None && f.len() == 0),
    ensures
        requested(true, "/verify_patch"@ + rest, body) == (CallView::VerifyPatch {
            project_path: v.text_field("projectPath"@),
            file: f,
            search: v.text_field("search"@),
            replace: v.text_field("replace"@),
            edits: v.field("edits"@),
        }),
{
    reveal_strlit("/verify_patch");
    let url = "/verify_patch"@ + rest;
    text::law_prefix("/verify_patch"@, rest, url);
    reveal_strlit("/run_tests");
    assert(url[1] == 'v' && "/run_tests"@[1] == 'r');
    lemma_begins_otherwise(url, "/run_tests"@, 1);
    assert(v.text_field("file"@) is None ==> f =~= Seq::empty());
}

/// A POST to `/apply_patch` lands the change that it describes, by the fields of its document.
pub proof fn law_route_apply_patch(rest: Seq<char>, body: Seq<char>, v: JsonView, f: Seq<char>)
    requires
        json::parsed_json(body) == Ok::<JsonView, Seq<char>>(v) || (json::parsed_json(body) is Err
            && v is Null),
        v.text_field("file"@) == Some(f) || (v.text_field("file"@) is None && f.len() == 0),
    ensures
        requested(true, "/apply_patch"@ + rest, body) == (CallView::ApplyPatch {
            project_path: v.text_field("projectPath"@),
            file: f,
            search: v.text_field("search"@),
            replace: v.text_field("replace"@),
            edits: v.field("edits"@),
            message: v.text_field("message"@),
        }),
{
    reveal_strlit("/apply_patch");
    let url = "/apply_patch"@ + rest;
    text::law_prefix("/apply_patch"@, rest, url);
    reveal_strlit("/run_tests");
    assert(url[1] == 'a' && "/run_tests"@[1] == 'r');
    lemma_begins_otherwise(url, "/run_tests"@, 1);
    reveal_strlit("/verify_patch");
    assert(url[1] == 'a' && "/verify_patch"@[1] == 'v');
    lemma_begins_otherwise(url, "/verify_patch"@, 1);
    assert(v.text_field("file"@) is None ==> f =~= Seq::empty());
}

/// A POST to `/resolve_types` asks for the types at the positions that it names, by the fields of its document.
pub proof fn law_route_resolve_types(rest: Seq<char>, body: Seq<char>, v: JsonView, f: Seq<char>)
    requires
        json::parsed_json(body) == Ok::<JsonView, Seq<char>>(v) || (json::parsed_json(body) is Err
            && v is Null),
        v.text_field("file"@) == Some(f) || (v.text_field("file"@) is None && f.len() == 0),
    ensures
        requested(true, "/resolve_types"@ + rest, body) == (CallView::ResolveTypes {
            project_path: v.text_field("projectPath"@),
            file: f,
            positions: v.field("positions"@),
            content: v.text_field("content"@),
        }),
{
    reveal_strlit("/resolve_types");
    let url = "/resolve_types"@ + rest;
    text::law_prefix("/resolve_types"@, rest, url);
    reveal_strlit("/run_tests");
    assert(url[2] == 'e' && "/run_tests"@[2] == 'u');
    lemma_begins_otherwise(url, "/run_tests"@, 2);
    reveal_strlit("/verify_patch");
    assert(url[1] == 'r' && "/verify_patch"@[1] == 'v');
    lemma_begins_otherwise(url, "/verify_patch"@, 1);
    reveal_strlit("/apply_patch");
    assert(url[1] == 'r' && "/apply_patch"@[1] == 'a');
    lemma_begins_otherwise(url, "/apply_patch"@, 1);
    assert(v.text_field("file"@) is None ==> f =~= Seq::empty());
}

/// A POST to `/compute_refactor` asks for the refactoring that it names, by the fields of its document.
pub proof fn law_route_compute_refactor(rest: Seq<char>, body: Seq<char>, v: JsonView, f: Seq<char>)
    requires
        json::parsed_json(body) == Ok::<JsonView, Seq<char>>(v) || (json::parsed_json(body) is Err
            && v is Null),
        v.text_field("file"@) == Some(f) || (v.text_field("file"@) is None && f.len() == 0),
    ensures
        requested(true, "/compute_refactor"@ + rest, body) matches CallView::ComputeRefactor {
            project_path,
            file,
            kind,
            args,
            content,
        } && {
            &&& project_path == v.text_field("projectPath"@)
            &&& file == f
            &&& (v.text_field("kind"@) matches Some(k) ==> kind == k)
            &&& (v.field("args"@) matches Some(a) ==> args == a)
            &&& (v.field("args"@) is None ==> args == JsonView::Null)
            &&& content == v.text_field("content"@)
        },
{
    reveal_strlit("/compute_refactor");
    let url = "/compute_refactor"@ + rest;
    text::law_prefix("/compute_refactor"@, rest, url);
    reveal_strlit("/run_tests");
    assert(url[1] == 'c' && "/run_tests"@[1] == 'r');
    lemma_begins_otherwise(url, "/run_tests"@, 1);
    reveal_strlit("/verify_patch");
    assert(url[1] == 'c' && "/verify_patch"@[1] == 'v');
    lemma_begins_otherwise(url, "/verify_patch"@, 1);
    reveal_strlit("/apply_patch");
    assert(url[1] == 'c' && "/apply_patch"@[1] == 'a');
    lemma_begins_otherwise(url, "/apply_patch"@, 1);
    reveal_strlit("/resolve_types");
    assert(url[1] == 'c' && "/resolve_types"@[1] == 'r');
    lemma_begins_otherwise(url, "/resolve_types"@, 1);
    assert(v.text_field("file"@) is None ==> f =~= Seq::empty());
}

/// A POST to `/git_cochange` asks which files change together, by the fields of its document.
pub proof fn law_route_git_cochange(rest: Seq<char>, body: Seq<char>, v: JsonView)
    requires
        json::parsed_json(body) == Ok::<JsonView, Seq<char>>(v) || (json::parsed_json(body) is Err
            && v is Null),
    ensures
        requested(true, "/git_cochange"@ + rest, body) == (CallView::GitCochange {
            project_path: v.text_field("projectPath"@),
        }),
{
    reveal_strlit("/git_cochange");
    let url = "/git_cochange"@ + rest;
    text::law_prefix("/git_cochange"@, rest, url);
    reveal_strlit("/run_tests");
    assert(url[1] == 'g' && "/run_tests"@[1] == 'r');
    lemma_begins_otherwise(url, "/run_tests"@, 1);
    reveal_strlit("/verify_patch");
    assert(url[1] == 'g' && "/verify_patch"@[1] == 'v');
    lemma_begins_otherwise(url, "/verify_patch"@, 1);
    reveal_strlit("/apply_patch");
    assert(url[1] == 'g' && "/apply_patch"@[1] == 'a');
    lemma_begins_otherwise(url, "/apply_patch"@, 1);
    reveal_strlit("/resolve_types");
    assert(url[1] == 'g' && "/resolve_types"@[1] == 'r');
    lemma_begins_otherwise(url, "/resolve_types"@, 1);
    reveal_strlit("/compute_refactor");
    assert(url[1] == 'g' && "/compute_refactor"@[1] == 'c');
    lemma_begins_otherwise(url, "/compute_refactor"@, 1);
}

/// A POST to `/find_literal_targets` looks for the texts that it lists, by the fields of its document.
pub proof fn law_route_find_literal_targets(rest: Seq<char>, body: Seq<char>, v: JsonView)
    requires
        json::parsed_json(body) == Ok::<JsonView, Seq<char>>(v) || (json::parsed_json(body) is Err
            && v is Null),
    ensures
        requested(true, "/find_literal_targets"@ + rest, body) matches CallView::FindLiteralTargets {
            project_path,
            literals,
        } && {
            &&& project_path == v.text_field("projectPath"@)
            &&& (v.field("literals"@) is None ==> literals.len() == 0)
            &&& (v.field("literals"@) matches Some(JsonView::Array(items)) ==> (forall|i: int|
                0 <= i < items.len() ==> (#[trigger] items[i]) is Text) ==> literals.len()
                == items.len() && forall|i: int|
                0 <= i < items.len() ==> JsonView::Text(literals[i]) == #[trigger] items[i])
        },
{
    reveal_strlit("/find_literal_targets");
    let url = "/find_literal_targets"@ + rest;
    text::law_prefix("/find_literal_targets"@, rest, url);
    reveal_strlit("/run_tests");
    assert(url[1] == 'f' && "/run_tests"@[1] == 'r');
    lemma_begins_otherwise(url, "/run_tests"@, 1);
    reveal_strlit("/verify_patch");
    assert(url[1] == 'f' && "/verify_patch"@[1] == 'v');
    lemma_begins_otherwise(url, "/verify_patch"@, 1);
    reveal_strlit("/apply_patch");
    assert(url[1] == 'f' && "/apply_patch"@[1] == 'a');
    lemma_begins_otherwise(url, "/apply_patch"@, 1);
    reveal_strlit("/resolve_types");
    assert(url[1] == 'f' && "/resolve_types"@[1] == 'r');
    lemma_begins_otherwise(url, "/resolve_types"@, 1);
    reveal_strlit("/compute_refactor");
    assert(url[1] == 'f' && "/compute_refactor"@[1] == 'c');
    lemma_begins_otherwise(url, "/compute_refactor"@, 1);
    reveal_strlit("/git_cochange");
    assert(url[1] == 'f' && "/git_cochange"@[1] == 'g');
    lemma_begins_otherwise(url, "/git_cochange"@, 1);
}

/// A POST to `/opencode_status` asks for the server's state, by the fields of its document.
pub proof fn law_route_opencode_status(rest: Seq<char>, body: Seq<char>, v: JsonView)
    requires
        json::parsed_json(body) == Ok::<JsonView, Seq<char>>(v) || (json::parsed_json(body) is Err
            && v is Null),
    ensures
        requested(true, "/opencode_status"@ + rest, body) == (CallView::OpencodeStatus),
{
    reveal_strlit("/opencode_status");
    let url = "/opencode_status"@ + rest;
    text::law_prefix("/opencode_status"@, rest, url);
    reveal_strlit("/run_tests");
    assert(url[1] == 'o' && "/run_tests"@[1] == 'r');
    lemma_begins_otherwise(url, "/run_tests"@, 1);
    reveal_strlit("/verify_patch");
    assert(url[1] == 'o' && "/verify_patch"@[1] == 'v');
    lemma_begins_otherwise(url, "/verify_patch"@, 1);
    reveal_strlit("/apply_patch");
    assert(url[1] == 'o' && "/apply_patch"@[1] == 'a');
    lemma_begins_otherwise(url, "/apply_patch"@, 1);
    reveal_strlit("/resolve_types");
    assert(url[1] == 'o' && "/resolve_types"@[1] == 'r');
    lemma_begins_otherwise(url, "/resolve_types"@, 1);
    reveal_strlit("/compute_refactor");
    assert(url[1] == 'o' && "/compute_refactor"@[1] == 'c');
    lemma_begins_otherwise(url, "/compute_refactor"@, 1);
    reveal_strlit("/git_cochange");
    assert(url[1] == 'o' && "/git_cochange"@[1] == 'g');
    lemma_begins_otherwise(url, "/git_cochange"@, 1);
    reveal_strlit("/find_literal_targets");
    assert(url[1] == 'o' && "/find_literal_targets"@[1] == 'f');
    lemma_begins_otherwise(url, "/find_literal_targets"@, 1);
}

/// A POST to `/opencode_start` starts the server for the project that it names, by the fields of its document.
pub proof fn law_route_opencode_start(rest: Seq<char>, body: Seq<char>, v: JsonView)
    requires
        json::parsed_json(body) == Ok::<JsonView, Seq<char>>(v) || (json::parsed_json(body) is Err
            && v is Null),
    ensures
        requested(true, "/opencode_start"@ + rest, body) == (CallView::OpencodeStart {
            project_path: v.text_field("projectPath"@),
        }),
{
    reveal_strlit("/opencode_start");
    let url = "/opencode_start"@ + rest;
    text::law_prefix("/opencode_start"@, rest, url);
    reveal_strlit("/run_tests");
    assert(url[1] == 'o' && "/run_tests"@[1] == 'r');
    lemma_begins_otherwise(url, "/run_tests"@, 1);
    reveal_strlit("/verify_patch");
    assert(url[1] == 'o' && "/verify_patch"@[1] == 'v');
    lemma_begins_otherwise(url, "/verify_patch"@, 1);
    reveal_strlit("/apply_patch");
    assert(url[1] == 'o' && "/apply_patch"@[1] == 'a');
    lemma_begins_otherwise(url, "/apply_patch"@, 1);
    reveal_strlit("/resolve_types");
    assert(url[1] == 'o' && "/resolve_types"@[1] == 'r');
    lemma_begins_otherwise(url, "/resolve_types"@, 1);
    reveal_strlit("/compute_refactor");
    assert(url[1] == 'o' && "/compute_refactor"@[1] == 'c');
    lemma_begins_otherwise(url, "/compute_refactor"@, 1);
    reveal_strlit("/git_cochange");
    assert(url[1] == 'o' && "/git_cochange"@[1] == 'g');
    lemma_begins_otherwise(url, "/git_cochange"@, 1);
    reveal_strlit("/find_literal_targets");
    assert(url[1] == 'o' && "/find_literal_targets"@[1] == 'f');
    lemma_begins_otherwise(url, "/find_literal_targets"@, 1);
    reveal_strlit("/opencode_status");
    assert(url[13] == 'r' && "/opencode_status"@[13] == 't');
    lemma_begins_otherwise(url, "/opencode_status"@, 13);
}

/// A POST to `/opencode_stop` stops the server, by the fields of its document.
pub proof fn law_route_opencode_stop(rest: Seq<char>, body: Seq<char>, v: JsonView)
    requires
        json::parsed_json(body) == Ok::<JsonView, Seq<char>>(v) || (json::parsed_json(body) is Err
            && v is Null),
    ensures
        requested(true, "/opencode_stop"@ + rest, body) == (CallView::OpencodeStop),
{
    reveal_strlit("/opencode_stop");
    let url = "/opencode_stop"@ + rest;
    text::law_prefix("/opencode_stop"@, rest, url);
    reveal_strlit("/run_tests");
    assert(url[1] == 'o' && "/run_tests"@[1] == 'r');
    lemma_begins_otherwise(url, "/run_tests"@, 1);
    reveal_strlit("/verify_patch");
    assert(url[1] == 'o' && "/verify_patch"@[1] == 'v');
    lemma_begins_otherwise(url, "/verify_patch"@, 1);
    reveal_strlit("/apply_patch");
    assert(url[1] == 'o' && "/apply_patch"@[1] == 'a');
    lemma_begins_otherwise(url, "/apply_patch"@, 1);
    reveal_strlit("/resolve_types");
    assert(url[1] == 'o' && "/resolve_types"@[1] == 'r');
    lemma_begins_otherwise(url, "/resolve_types"@, 1);
    reveal_strlit("/compute_refactor");
    assert(url[1] == 'o' && "/compute_refactor"@[1] == 'c');
    lemma_begins_otherwise(url, "/compute_refactor"@, 1);
    reveal_strlit("/git_cochange");
    assert(url[1] == 'o' && "/git_cochange"@[1] == 'g');
    lemma_begins_otherwise(url, "/git_cochange"@, 1);
    reveal_strlit("/find_literal_targets");
    assert(url[1] == 'o' && "/find_literal_targets"@[1] == 'f');
    lemma_begins_otherwise(url, "/find_literal_targets"@, 1);
    reveal_strlit("/opencode_status");
    assert(url[12] == 'o' && "/opencode_status"@[12] == 'a');
    lemma_begins_otherwise(url, "/opencode_status"@, 12);
    reveal_strlit("/opencode_start");
    assert(url[12] == 'o' && "/opencode_start"@[12] == 'a');
    lemma_begins_otherwise(url, "/opencode_start"@, 12);
}

/// A POST to `/opencode_ensure` makes sure that the server runs, by the fields of its document.
pub proof fn law_route_opencode_ensure(rest: Seq<char>, body: Seq<char>, v: JsonView)
    requires
        json::parsed_json(body) == Ok::<JsonView, Seq<char>>(v) || (json::parsed_json(body) is Err
            && v is Null),
    ensures
        requested(true, "/opencode_ensure"@ + rest, body) == (CallView::OpencodeEnsure {
            project_path: v.text_field("projectPath"@),
        }),
{
    reveal_strlit("/opencode_ensure");
    let url = "/opencode_ensure"@ + rest;
    text::law_prefix("/opencode_ensure"@, rest, url);
    reveal_strlit("/run_tests");
    assert(url[1] == 'o' && "/run_tests"@[1] == 'r');
    lemma_begins_otherwise(url, "/run_tests"@, 1);
    reveal_strlit("/verify_patch");
    assert(url[1] == 'o' && "/verify_patch"@[1] == 'v');
    lemma_begins_otherwise(url, "/verify_patch"@, 1);
    reveal_strlit("/apply_patch");
    assert(url[1] == 'o' && "/apply_patch"@[1] == 'a');
    lemma_begins_otherwise(url, "/apply_patch"@, 1);
    reveal_strlit("/resolve_types");
    assert(url[1] == 'o' && "/resolve_types"@[1] == 'r');
    lemma_begins_otherwise(url, "/resolve_types"@, 1);
    reveal_strlit("/compute_refactor");
    assert(url[1] == 'o' && "/compute_refactor"@[1] == 'c');
    lemma_begins_otherwise(url, "/compute_refactor"@, 1);
    reveal_strlit("/git_cochange");
    assert(url[1] == 'o' && "/git_cochange"@[1] == 'g');
    lemma_begins_otherwise(url, "/git_cochange"@, 1);
    reveal_strlit("/find_literal_targets");
    assert(url[1] == 'o' && "/find_literal_targets"@[1] == 'f');
    lemma_begins_otherwise(url, "/find_literal_targets"@, 1);
    reveal_strlit("/opencode_status");
    assert(url[10] == 'e' && "/opencode_status"@[10] == 's');
    lemma_begins_otherwise(url, "/opencode_status"@, 10);
    reveal_strlit("/opencode_start");
    assert(url[10] == 'e' && "/opencode_start"@[10] == 's');
    lemma_begins_otherwise(url, "/opencode_start"@, 10);
    reveal_strlit("/opencode_stop");
    assert(url[10] == 'e' && "/opencode_stop"@[10] == 's');
    lemma_begins_otherwise(url, "/opencode_stop"@, 10);
}

/// A POST to `/opencode_task_start` starts a task, by the fields of its document.
pub proof fn law_route_task_start(rest: Seq<char>, body: Seq<char>, v: JsonView)
    requires
        json::parsed_json(body) == Ok::<JsonView, Seq<char>>(v) || (json::parsed_json(body) is Err
            && v is Null),
    ensures
        requested(true, "/opencode_task_start"@ + rest, body) matches CallView::TaskStart {
            project_path,
            model,
            ollama_base,
            provider,
        } && {
            &&& project_path == v.text_field("projectPath"@)
            &&& model == v.text_field("model"@)
            &&& ollama_base == v.text_field("ollamaBase"@)
            &&& (v.field("provider"@) == Some(JsonView::Null) || v.field("provider"@) is None
                ==> provider is None)
            &&& (v.field("provider"@) matches Some(p) ==> p != JsonView::Null ==> provider == Some(
                p,
            ))
        },
{
    reveal_strlit("/opencode_task_start");
    let url = "/opencode_task_start"@ + rest;
    text::law_prefix("/opencode_task_start"@, rest, url);
    reveal_strlit("/run_tests");
    assert(url[1] == 'o' && "/run_tests"@[1] == 'r');
    lemma_begins_otherwise(url, "/run_tests"@, 1);
    reveal_strlit("/verify_patch");
    assert(url[1] == 'o' && "/verify_patch"@[1] == 'v');
    lemma_begins_otherwise(url, "/verify_patch"@, 1);
    reveal_strlit("/apply_patch");
    assert(url[1] == 'o' && "/apply_patch"@[1] == 'a');
    lemma_begins_otherwise(url, "/apply_patch"@, 1);
    reveal_strlit("/resolve_types");
    assert(url[1] == 'o' && "/resolve_types"@[1] == 'r');
    lemma_begins_otherwise(url, "/resolve_types"@, 1);
    reveal_strlit("/compute_refactor");
    assert(url[1] == 'o' && "/compute_refactor"@[1] == 'c');
    lemma_begins_otherwise(url, "/compute_refactor"@, 1);
    reveal_strlit("/git_cochange");
    assert(url[1] == 'o' && "/git_cochange"@[1] == 'g');
    lemma_begins_otherwise(url, "/git_cochange"@, 1);
    reveal_strlit("/find_literal_targets");
    assert(url[1] == 'o' && "/find_literal_targets"@[1] == 'f');
    lemma_begins_otherwise(url, "/find_literal_targets"@, 1);
    reveal_strlit("/opencode_status");
    assert(url[10] == 't' && "/opencode_status"@[10] == 's');
    lemma_begins_otherwise(url, "/opencode_status"@, 10);
    reveal_strlit("/opencode_start");
    assert(url[10] == 't' && "/opencode_start"@[10] == 's');
    lemma_begins_otherwise(url, "/opencode_start"@, 10);
    reveal_strlit("/opencode_stop");
    assert(url[10] == 't' && "/opencode_stop"@[10] == 's');
    lemma_begins_otherwise(url, "/opencode_stop"@, 10);
    reveal_strlit("/opencode_ensure");
    assert(url[10] == 't' && "/opencode_ensure"@[10] == 'e');
    lemma_begins_otherwise(url, "/opencode_ensure"@, 10);
}

/// A POST to `/opencode_task_collect` collects what a task changed, by the fields of its document.
pub proof fn law_route_task_collect(rest: Seq<char>, body: Seq<char>, v: JsonView)
    requires
        json::parsed_json(body) == Ok::<JsonView, Seq<char>>(v) || (json::parsed_json(body) is Err
            && v is Null),
    ensures
        requested(true, "/opencode_task_collect"@ + rest, body) == (CallView::TaskCollect {
            task_id: v.text_field("taskId"@),
        }),
{
    reveal_strlit("/opencode_task_collect");
    let url = "/opencode_task_collect"@ + rest;
    text::law_prefix("/opencode_task_collect"@, rest, url);
    reveal_strlit("/run_tests");
    assert(url[1] == 'o' && "/run_tests"@[1] == 'r');
    lemma_begins_otherwise(url, "/run_tests"@, 1);
    reveal_strlit("/verify_patch");
    assert(url[1] == 'o' && "/verify_patch"@[1] == 'v');
    lemma_begins_otherwise(url, "/verify_patch"@, 1);
    reveal_strlit("/apply_patch");
    assert(url[1] == 'o' && "/apply_patch"@[1] == 'a');
    lemma_begins_otherwise(url, "/apply_patch"@, 1);
    reveal_strlit("/resolve_types");
    assert(url[1] == 'o' && "/resolve_types"@[1] == 'r');
    lemma_begins_otherwise(url, "/resolve_types"@, 1);
    reveal_strlit("/compute_refactor");
    assert(url[1] == 'o' && "/compute_refactor"@[1] == 'c');
    lemma_begins_otherwise(url, "/compute_refactor"@, 1);
    reveal_strlit("/git_cochange");
    assert(url[1] == 'o' && "/git_cochange"@[1] == 'g');
    lemma_begins_otherwise(url, "/git_cochange"@, 1);
    reveal_strlit("/find_literal_targets");
    assert(url[1] == 'o' && "/find_literal_targets"@[1] == 'f');
    lemma_begins_otherwise(url, "/find_literal_targets"@, 1);
    reveal_strlit("/opencode_status");
    assert(url[10] == 't' && "/opencode_status"@[10] == 's');
    lemma_begins_otherwise(url, "/opencode_status"@, 10);
    reveal_strlit("/opencode_start");
    assert(url[10] == 't' && "/opencode_start"@[10] == 's');
    lemma_begins_otherwise(url, "/opencode_start"@, 10);
    reveal_strlit("/opencode_stop");
    assert(url[10] == 't' && "/opencode_stop"@[10] == 's');
    lemma_begins_otherwise(url, "/opencode_stop"@, 10);
    reveal_strlit("/opencode_ensure");
    assert(url[10] == 't' && "/opencode_ensure"@[10] == 'e');
    lemma_begins_otherwise(url, "/opencode_ensure"@, 10);
    reveal_strlit("/opencode_task_start");
    assert(url[15] == 'c' && "/opencode_task_start"@[15] == 's');
    lemma_begins_otherwise(url, "/opencode_task_start"@, 15);
}

/// A POST to `/opencode_task_turn` takes a turn in a task, by the fields of its document.
pub proof fn law_route_task_turn(rest: Seq<char>, body: Seq<char>, v: JsonView)
    requires
        json::parsed_json(body) == Ok::<JsonView, Seq<char>>(v) || (json::parsed_json(body) is Err
            && v is Null),
    ensures
        requested(true, "/opencode_task_turn"@ + rest, body) == (CallView::TaskTurn {
            task_id: v.text_field("taskId"@),
            message: v.text_field("message"@),
            model: v.text_field("model"@),
            ollama_base: v.text_field("ollamaBase"@),
        }),
{
    reveal_strlit("/opencode_task_turn");
    let url = "/opencode_task_turn"@ + rest;
    text::law_prefix("/opencode_task_turn"@, rest, url);
    reveal_strlit("/run_tests");
    assert(url[1] == 'o' && "/run_tests"@[1] == 'r');
    lemma_begins_otherwise(url, "/run_tests"@, 1);
    reveal_strlit("/verify_patch");
    assert(url[1] == 'o' && "/verify_patch"@[1] == 'v');
    lemma_begins_otherwise(url, "/verify_patch"@, 1);
    reveal_strlit("/apply_patch");
    assert(url[1] == 'o' && "/apply_patch"@[1] == 'a');
    lemma_begins_otherwise(url, "/apply_patch"@, 1);
    reveal_strlit("/resolve_types");
    assert(url[1] == 'o' && "/resolve_types"@[1] == 'r');
    lemma_begins_otherwise(url, "/resolve_types"@, 1);
    reveal_strlit("/compute_refactor");
    assert(url[1] == 'o' && "/compute_refactor"@[1] == 'c');
    lemma_begins_otherwise(url, "/compute_refactor"@, 1);
    reveal_strlit("/git_cochange");
    assert(url[1] == 'o' && "/git_cochange"@[1] == 'g');
    lemma_begins_otherwise(url, "/git_cochange"@, 1);
    reveal_strlit("/find_literal_targets");
    assert(url[1] == 'o' && "/find_literal_targets"@[1] == 'f');
    lemma_begins_otherwise(url, "/find_literal_targets"@, 1);
    reveal_strlit("/opencode_status");
    assert(url[10] == 't' && "/opencode_status"@[10] == 's');
    lemma_begins_otherwise(url, "/opencode_status"@, 10);
    reveal_strlit("/opencode_start");
    assert(url[10] == 't' && "/opencode_start"@[10] == 's');
    lemma_begins_otherwise(url, "/opencode_start"@, 10);
    reveal_strlit("/opencode_stop");
    assert(url[10] == 't' && "/opencode_stop"@[10] == 's');
    lemma_begins_otherwise(url, "/opencode_stop"@, 10);
    reveal_strlit("/opencode_ensure");
    assert(url[10] == 't' && "/opencode_ensure"@[10] == 'e');
    lemma_begins_otherwise(url, "/opencode_ensure"@, 10);
    reveal_strlit("/opencode_task_start");
    assert(url[15] == 't' && "/opencode_task_start"@[15] == 's');
    lemma_begins_otherwise(url, "/opencode_task_start"@, 15);
    reveal_strlit("/opencode_task_collect");
    assert(url[15] == 't' && "/opencode_task_collect"@[15] == 'c');
    lemma_begins_otherwise(url, "/opencode_task_collect"@, 15);
}

/// A POST to `/opencode_task_cleanup` ends a task, by the fields of its document.
pub proof fn law_route_task_cleanup(rest: Seq<char>, body: Seq<char>, v: JsonView)
    requires
        json::parsed_json(body) == Ok::<JsonView, Seq<char>>(v) || (json::parsed_json(body) is Err
            && v is Null),
    ensures
        requested(true, "/opencode_task_cleanup"@ + rest, body) == (CallView::TaskCleanup {
            task_id: v.text_field("taskId"@),
        }),
{
    reveal_strlit("/opencode_task_cleanup");
    let url = "/opencode_task_cleanup"@ + rest;
    text::law_prefix("/opencode_task_cleanup"@, rest, url);
    reveal_strlit("/run_tests");
    assert(url[1] == 'o' && "/run_tests"@[1] == 'r');
    lemma_begins_otherwise(url, "/run_tests"@, 1);
    reveal_strlit("/verify_patch");
    assert(url[1] == 'o' && "/verify_patch"@[1] == 'v');
    lemma_begins_otherwise(url, "/verify_patch"@, 1);
    reveal_strlit("/apply_patch");
    assert(url[1] == 'o' && "/apply_patch"@[1] == 'a');
    lemma_begins_otherwise(url, "/apply_patch"@, 1);
    reveal_strlit("/resolve_types");
    assert(url[1] == 'o' && "/resolve_types"@[1] == 'r');
    lemma_begins_otherwise(url, "/resolve_types"@, 1);
    reveal_strlit("/compute_refactor");
    assert(url[1] == 'o' && "/compute_refactor"@[1] == 'c');
    lemma_begins_otherwise(url, "/compute_refactor"@, 1);
    reveal_strlit("/git_cochange");
    assert(url[1] == 'o' && "/git_cochange"@[1] == 'g');
    lemma_begins_otherwise(url, "/git_cochange"@, 1);
    reveal_strlit("/find_literal_targets");
    assert(url[1] == 'o' && "/find_literal_targets"@[1] == 'f');
    lemma_begins_otherwise(url, "/find_literal_targets"@, 1);
    reveal_strlit("/opencode_status");
    assert(url[10] == 't' && "/opencode_status"@[10] == 's');
    lemma_begins_otherwise(url, "/opencode_status"@, 10);
    reveal_strlit("/opencode_start");
    assert(url[10] == 't' && "/opencode_start"@[10] == 's');
    lemma_begins_otherwise(url, "/opencode_start"@, 10);
    reveal_strlit("/opencode_stop");
    assert(url[10] == 't' && "/opencode_stop"@[10] == 's');
    lemma_begins_otherwise(url, "/opencode_stop"@, 10);
    reveal_strlit("/opencode_ensure");
    assert(url[10] == 't' && "/opencode_ensure"@[10] == 'e');
    lemma_begins_otherwise(url, "/opencode_ensure"@, 10);
    reveal_strlit("/opencode_task_start");
    assert(url[15] == 'c' && "/opencode_task_start"@[15] == 's');
    lemma_begins_otherwise(url, "/opencode_task_start"@, 15);
    reveal_strlit("/opencode_task_collect");
    assert(url[16] == 'l' && "/opencode_task_collect"@[16] == 'o');
    lemma_begins_otherwise(url, "/opencode_task_collect"@, 16);
    reveal_strlit("/opencode_task_turn");
    assert(url[15] == 'c' && "/opencode_task_turn"@[15] == 't');
    lemma_begins_otherwise(url, "/opencode_task_turn"@, 15);
}

/// A POST to `/opencode_run` runs the agent once, by the fields of its document.
pub proof fn law_route_run(rest: Seq<char>, body: Seq<char>, v: JsonView)
    requires
        json::parsed_json(body) == Ok::<JsonView, Seq<char>>(v) || (json::parsed_json(body) is Err
            && v is Null),
    ensures
        requested(true, "/opencode_run"@ + rest, body) matches CallView::Run {
            project_path,
            prompt,
            model,
            ollama_base,
            provider,
        } && {
            &&& project_path == v.text_field("projectPath"@)
            &&& (v.text_field("message"@) matches Some(m) ==> prompt == m)
            &&& model == v.text_field("model"@)
            &&& ollama_base == v.text_field("ollamaBase"@)
            &&& (v.field("provider"@) == Some(JsonView::Null) || v.field("provider"@) is None
                ==> provider is None)
            &&& (v.field("provider"@) matches Some(p) ==> p != JsonView::Null ==> provider == Some(
                p,
            ))
        },
{
    reveal_strlit("/opencode_run");
    let url = "/opencode_run"@ + rest;
    text::law_prefix("/opencode_run"@, rest, url);
    reveal_strlit("/run_tests");
    assert(url[1] == 'o' && "/run_tests"@[1] == 'r');
    lemma_begins_otherwise(url, "/run_tests"@, 1);
    reveal_strlit("/verify_patch");
    assert(url[1] == 'o' && "/verify_patch"@[1] == 'v');
    lemma_begins_otherwise(url, "/verify_patch"@, 1);
    reveal_strlit("/apply_patch");
    assert(url[1] == 'o' && "/apply_patch"@[1] == 'a');
    lemma_begins_otherwise(url, "/apply_patch"@, 1);
    reveal_strlit("/resolve_types");
    assert(url[1] == 'o' && "/resolve_types"@[1] == 'r');
    lemma_begins_otherwise(url, "/resolve_types"@, 1);
    reveal_strlit("/compute_refactor");
    assert(url[1] == 'o' && "/compute_refactor"@[1] == 'c');
    lemma_begins_otherwise(url, "/compute_refactor"@, 1);
    reveal_strlit("/git_cochange");
    assert(url[1] == 'o' && "/git_cochange"@[1] == 'g');
    lemma_begins_otherwise(url, "/git_cochange"@, 1);
    reveal_strlit("/find_literal_targets");
    assert(url[1] == 'o' && "/find_literal_targets"@[1] == 'f');
    lemma_begins_otherwise(url, "/find_literal_targets"@, 1);
    reveal_strlit("/opencode_status");
    assert(url[10] == 'r' && "/opencode_status"@[10] == 's');
    lemma_begins_otherwise(url, "/opencode_status"@, 10);
    reveal_strlit("/opencode_start");
    assert(url[10] == 'r' && "/opencode_start"@[10] == 's');
    lemma_begins_otherwise(url, "/opencode_start"@, 10);
    reveal_strlit("/opencode_stop");
    assert(url[10] == 'r' && "/opencode_stop"@[10] == 's');
    lemma_begins_otherwise(url, "/opencode_stop"@, 10);
    reveal_strlit("/opencode_ensure");
    assert(url[10] == 'r' && "/opencode_ensure"@[10] == 'e');
    lemma_begins_otherwise(url, "/opencode_ensure"@, 10);
    reveal_strlit("/opencode_task_start");
    assert(url[10] == 'r' && "/opencode_task_start"@[10] == 't');
    lemma_begins_otherwise(url, "/opencode_task_start"@, 10);
    reveal_strlit("/opencode_task_collect");
    assert(url[10] == 'r' && "/opencode_task_collect"@[10] == 't');
    lemma_begins_otherwise(url, "/opencode_task_collect"@, 10);
    reveal_strlit("/opencode_task_turn");
    assert(url[10] == 'r' && "/opencode_task_turn"@[10] == 't');
    lemma_begins_otherwise(url, "/opencode_task_turn"@, 10);
    reveal_strlit("/opencode_task_cleanup");
    assert(url[10] == 'r' && "/opencode_task_cleanup"@[10] == 't');
    lemma_begins_otherwise(url, "/opencode_task_cleanup"@, 10);
}

/// Only a POST asks for anything, and a body that is no document says nothing.
pub proof fn law_only_posts_ask(url: Seq<char>, body: Seq<char>)
    ensures
        requested(false, url, body) is NotFound,
        json::parsed_json(body) is Err ==> requested(true, url, body) == call_of(
            url,
            JsonView::Null,
        ),
{
}

/// A preflight is never served; a debug build serves everything else, and a release build
/// serves whoever shows the pairing code in the first `X-RLM-Token`.
pub proof fn law_who_is_served(
    method: HttpMethod,
    headers: Seq<http::HeaderView>,
    release: bool,
    token: Seq<char>,
)
    ensures
        !admitted(HttpMethod::Options, headers, release, token),
        method != HttpMethod::Options ==> admitted(method, headers, false, token),
        method != HttpMethod::Options && http::header_of(headers, "X-RLM-Token"@) == Some(token)
            ==> admitted(method, headers, true, token),
        http::header_of(headers, "X-RLM-Token"@) != Some(token) ==> !admitted(
            method,
            headers,
            true,
            token,
        ),
{
}

/// A reply has the status and the body that it was given and names the request's own origin
/// exactly where that is allowed. Every reply says what the browser may send.
pub proof fn law_reply_of_the_bridge(
    body: Seq<char>,
    status: u16,
    origin: Seq<char>,
    release: bool,
)
    requires
        http::ascii(origin),
    ensures
        cors_reply(body, status, Some(origin), release).status == status,
        cors_reply(body, status, Some(origin), release).body == body,
        allowed_origin(origin, release) <==> cors_reply(
            body,
            status,
            Some(origin),
            release,
        ).headers.contains(("Access-Control-Allow-Origin"@, origin)),
        cors_reply(body, status, None, release).headers.contains(
            ("Access-Control-Allow-Methods"@, "GET, POST, OPTIONS"@),
        ),
        cors_reply(body, status, None, release).headers.contains(
            ("Access-Control-Allow-Headers"@, "Content-Type, X-RLM-Token"@),
        ),
        cors_reply(body, status, None, release).headers.contains(
            ("Access-Control-Allow-Private-Network"@, "true"@),
        ),
        cors_reply(body, status, None, release).headers.contains(
            ("Content-Type"@, "application/json"@),
        ),
{
    reveal_strlit("Access-Control-Allow-Origin");
    reveal_strlit("Access-Control-Allow-Methods");
    reveal_strlit("Access-Control-Allow-Headers");
    reveal_strlit("Access-Control-Allow-Private-Network");
    reveal_strlit("Content-Type");
    assert("Access-Control-Allow-Origin"@.len() == 27);
    assert("Access-Control-Allow-Methods"@.len() == 28);
    assert("Access-Control-Allow-Headers"@.len() == 28);
    assert("Access-Control-Allow-Private-Network"@.len() == 36);
    assert("Content-Type"@.len() == 12);
    let all = cors_reply(body, status, Some(origin), release).headers;
    let fixed = cors_reply(body, status, None, release).headers;
    assert(fixed[0] == ("Access-Control-Allow-Methods"@, "GET, POST, OPTIONS"@));
    assert(fixed[1] == ("Access-Control-Allow-Headers"@, "Content-Type, X-RLM-Token"@));
    assert(fixed[2] == ("Access-Control-Allow-Private-Network"@, "true"@));
    assert(fixed[3] == ("Content-Type"@, "application/json"@));
    if allowed_origin(origin, release) {
        assert(all[4] == ("Access-Control-Allow-Origin"@, origin));
    } else {
        assert(all.len() == 4);
    }
}

/// Both of this machine's names are local origins, with any port or none; a name that only
/// starts like one is not.
pub proof fn law_local_origins(port: Seq<char>, c: char)
    requires
        c != ':',
    ensures
        local_origin("http://localhost"@),
        local_origin("http://127.0.0.1"@),
        local_origin("http://localhost:"@ + port),
        local_origin("http://127.0.0.1:"@ + port),
        !local_origin("http://localhost"@.push(c) + port),
        !local_origin("http://127.0.0.1"@.push(c) + port),
        known_site("https://rlmlocal.com"@),
        known_site("https://www.rlmlocal.com"@),
        known_site("https://rlmlocal-site.pages.dev"@),
{
    reveal_strlit("http://localhost");
    reveal_strlit("http://127.0.0.1");
    reveal_strlit("http://localhost:");
    reveal_strlit("http://127.0.0.1:");
    text::law_prefix("http://localhost:"@, port, Seq::empty());
    text::law_prefix("http://127.0.0.1:"@, port, Seq::empty());
    let a = "http://localhost"@.push(c) + port;
    let b = "http://127.0.0.1"@.push(c) + port;
    assert(a[16] == c && b[16] == c);
    assert(a[7] == 'l' && b[7] == '1');
    assert(a.len() > 16 && b.len() > 16);
    assert("http://localhost"@.len() == 16 && "http://127.0.0.1"@.len() == 16);
    lemma_begins_otherwise(a, "http://localhost:"@, 16);
    lemma_begins_otherwise(b, "http://127.0.0.1:"@, 16);
    lemma_begins_otherwise(a, "http://127.0.0.1:"@, 7);
    lemma_begins_otherwise(b, "http://localhost:"@, 7);
}

/// A POST to any other address asks for nothing.
pub proof fn law_unknown_routes(url: Seq<char>, body: Seq<char>)
    requires
        !text::begins(url, "/run_tests"@),
        !text::begins(url, "/verify_patch"@),
        !text::begins(url, "/apply_patch"@),
        !text::begins(url, "/resolve_types"@),
        !text::begins(url, "/compute_refactor"@),
        !text::begins(url, "/git_cochange"@),
        !text::begins(url, "/find_literal_targets"@),
        !text::begins(url, "/opencode_status"@),
        !text::begins(url, "/opencode_start"@),
        !text::begins(url, "/opencode_stop"@),
        !text::begins(url, "/opencode_ensure"@),
        !text::begins(url, "/opencode_task_start"@),
        !text::begins(url, "/opencode_task_collect"@),
        !text::begins(url, "/opencode_task_turn"@),
        !text::begins(url, "/opencode_task_cleanup"@),
        !text::begins(url, "/opencode_run"@),
    ensures
        requested(true, url, body) is NotFound,
{
}

/// The strings of a list are all handed on, in order; a list with anything else in it counts
/// as none, and so does whatever is no list.
pub proof fn law_strings_of_a_list(texts: Seq<Seq<char>>, other: JsonView, before: Seq<JsonView>)
    requires
        !(other is Text),
    ensures
        strings_of(Some(JsonView::Array(texts.map_values(|t: Seq<char>| JsonView::Text(t))))) == texts,
        strings_of(Some(JsonView::Array(before.push(other)))).len() == 0,
        strings_of(None).len() == 0,
        !(other is Array) ==> strings_of(Some(other)).len() == 0,
{
    let items = texts.map_values(|t: Seq<char>| JsonView::Text(t));
    assert(strings_of(Some(JsonView::Array(items))) =~= texts);
    assert(before.push(other)[before.len() as int] == other);
}

/// A field is given unless it is missing or `null`.
pub proof fn law_given_fields(v: JsonView, key: Seq<char>, value: JsonView)
    requires
        v is Object,
    ensures
        !(value is Null) ==> given(v.put(key, value), key) == Some(value),
        given(v.put(key, JsonView::Null), key) is None,
        v.field(key) is None ==> given(v, key) is None,
{
}

} // verus!
