//! What the edge proxy does with a request: whom it answers, what it sends to the worker
//! and what it makes of the worker's answer.
//!
//! The proxy is taken in steps, so that the work between them (reading a body, asking the
//! worker) can be done outside: [`edge_proxy_route`] looks at the head of a request,
//! [`edge_proxy_forward`] at its body, and [`edge_proxy_finish`] at the worker's answer.

use crate::edge::budget::{
    self, edge_completion_budget, edge_infer_url, openai_requested_max_tokens,
};
use crate::edge::completion::{self, edge_openai_completion, edge_openai_sse};
use crate::edge::messages::{self, edge_artifact_messages, shield_json_strings};
use crate::edge::stream::{self, edge_stream_completion};
use crate::http::{
    self, carries_header, push_header, reply_error, reply_json, request_path, HttpMethod, HttpReply,
    ReplyView,
};
use crate::json::{self, Json, JsonView};
use crate::text::{self, chars_of, same_text, trimmed};
use vstd::prelude::*;

verus! {

/// What a proxy knows of the worker that it stands for.
pub struct EdgeProxyConfig {
    pub worker_url: String,
    pub owner_key: Option<String>,
    pub model_id: String,
    pub api_key: String,
    pub context_window: usize,
}

// ---------------------------------------------------------------------------
// The head of a request
// ---------------------------------------------------------------------------

/// Does a request carry the key of this proxy?
pub open spec fn authorized(headers: Seq<http::HeaderView>, api_key: Seq<char>) -> bool {
    http::has_header(headers, "Authorization"@, "Bearer "@ + api_key)
}

/// The one model that the proxy offers.
pub open spec fn models_json(model_id: Seq<char>) -> JsonView {
    JsonView::object().put("object"@, JsonView::Text("list"@)).put(
        "data"@,
        JsonView::Array(
            seq![
                JsonView::object().put("id"@, JsonView::Text(model_id)).put(
                    "object"@,
                    JsonView::Text("model"@),
                ).put("owned_by"@, JsonView::Text("rlmlocal-edge"@)),
            ],
        ),
    )
}

/// The reply to a request that its head decides, or nothing where the body is wanted.
pub open spec fn route_of(
    cfg: EdgeProxyConfig,
    method: HttpMethod,
    url: Seq<char>,
    headers: Seq<http::HeaderView>,
) -> Option<ReplyView> {
    let path = http::path_of(url);
    if !authorized(headers, cfg.api_key@) {
        Some(http::json_reply(401, http::error_json("unauthorized task proxy"@)))
    } else if method == HttpMethod::Get && (path == "/v1/models"@ || path == "/models"@) {
        Some(http::json_reply(200, models_json(cfg.model_id@)))
    } else if method != HttpMethod::Post || (path != "/v1/chat/completions"@ && path
        != "/chat/completions"@) {
        Some(http::json_reply(404, http::error_json("unsupported edge proxy route"@)))
    } else {
        None
    }
}

/// Does a request carry the key of this proxy?
pub fn edge_proxy_authorized(headers: &Vec<(String, String)>, api_key: &str) -> (granted: bool)
    ensures
        granted == authorized(http::header_views(headers@), api_key@),
{
    let expected: String = "Bearer ".to_owned();
    carries_header(headers, "Authorization", expected.concat(api_key).as_str())
}

/// The reply to a request that its head decides, or nothing where the body is wanted. A
/// request without the key is told so and learns nothing else.
pub fn edge_proxy_route(
    cfg: &EdgeProxyConfig,
    method: HttpMethod,
    url: &str,
    headers: &Vec<(String, String)>,
) -> (reply: Option<HttpReply>)
    ensures
        match reply {
            Some(r) => route_of(*cfg, method, url@, http::header_views(headers@)) == Some(r@),
            None => route_of(*cfg, method, url@, http::header_views(headers@)) is None,
        },
        !authorized(http::header_views(headers@), cfg.api_key@) ==> (reply matches Some(r)
            && r.status == 401),
{
    let path: String = request_path(url);
    if !edge_proxy_authorized(headers, cfg.api_key.as_str()) {
        return Some(reply_error(401, "unauthorized task proxy"));
    }
    let lists: bool = same_text(path.as_str(), "/v1/models") || same_text(path.as_str(), "/models");
    if method == HttpMethod::Get && lists {
        let mut data: Vec<Json> = Vec::new();
        data.push(
            Json::object().put("id", Json::text(cfg.model_id.as_str())).put(
                "object",
                Json::text("model"),
            ).put("owned_by", Json::text("rlmlocal-edge")),
        );
        proof {
            json::lemma_array_view(data);
            assert(json::json_views(data@) =~= seq![data@[0]@]);
        }
        let value: Json = Json::object().put("object", Json::text("list")).put(
            "data",
            Json::Array(data),
        );
        return Some(reply_json(200, &value));
    }
    let chats: bool = same_text(path.as_str(), "/v1/chat/completions") || same_text(
        path.as_str(),
        "/chat/completions",
    );
    if method != HttpMethod::Post || !chats {
        return Some(reply_error(404, "unsupported edge proxy route"));
    }
    None
}

/// The reply where the body of a request could not be read.
pub fn edge_read_failure(error: &str) -> (reply: HttpReply)
    ensures
        reply@ == http::json_reply(400, http::error_json("read request: "@ + error@)),
{
    let message: String = "read request: ".to_owned();
    reply_error(400, message.concat(error).as_str())
}

// ---------------------------------------------------------------------------
// The body of a request
// ---------------------------------------------------------------------------

/// The key of the owner, where it is more than white space.
pub open spec fn owner_key_of(cfg: EdgeProxyConfig) -> Option<Seq<char>> {
    match cfg.owner_key {
        Some(key) => if text::trim(key@).len() > 0 {
            Some(key@)
        } else {
            None
        },
        None => None,
    }
}

/// `body` with the field `key` of the request, where it has one.
pub open spec fn with_passed(body: JsonView, incoming: JsonView, key: Seq<char>) -> JsonView {
    match incoming.field(key) {
        Some(v) => body.put(key, v),
        None => body,
    }
}

/// What the worker is asked: the model, the shielded messages, the budget, the settings of
/// an artifact turn, and of the request its tools (shielded) and its sampling.
pub open spec fn worker_body(
    cfg: EdgeProxyConfig,
    incoming: JsonView,
    max_tokens: nat,
) -> JsonView {
    let base = JsonView::object().put("model"@, JsonView::Text(cfg.model_id@)).put(
        "messages"@,
        messages::artifact_messages(
            match incoming.field("messages"@) {
                Some(m) => m,
                None => JsonView::Null,
            },
        ),
    ).put("max_tokens"@, JsonView::number(max_tokens)).put("stream"@, JsonView::Bool(true)).put(
        "output_mode"@,
        JsonView::Text("artifact"@),
    ).put(
        "chat_template_kwargs"@,
        JsonView::object().put("enable_thinking"@, JsonView::Bool(false)),
    );
    let tooled = match incoming.field("tools"@) {
        Some(v) => base.put("tools"@, messages::shielded(v)),
        None => base,
    };
    let sampled = with_passed(
        with_passed(with_passed(tooled, incoming, "temperature"@), incoming, "top_p"@),
        incoming,
        "stop"@,
    );
    match owner_key_of(cfg) {
        Some(key) => sampled.put("ownerKey"@, JsonView::Text(key)),
        None => sampled,
    }
}

/// A request to the worker as a mathematical value.
pub struct ForwardView {
    pub url: Seq<char>,
    pub owner_key: Option<Seq<char>>,
    pub body: JsonView,
    pub wants_stream: bool,
}

/// A request to the worker, and whether the answer goes back as a stream.
pub struct Forward {
    pub url: String,
    /// Goes into the header `X-RLM-Owner-Key`.
    pub owner_key: Option<String>,
    pub body: Json,
    pub wants_stream: bool,
}

impl View for Forward {
    type V = ForwardView;

    open spec fn view(&self) -> ForwardView {
        ForwardView {
            url: self.url@,
            owner_key: text::opt_view(self.owner_key),
            body: self.body@,
            wants_stream: self.wants_stream,
        }
    }
}

/// Does a request want its answer as a stream?
pub open spec fn wants_stream(incoming: JsonView) -> bool {
    incoming.field("stream"@) == Some(JsonView::Bool(true))
}

/// What is forwarded for a body, or the reply that refuses it.
pub open spec fn forward_of(cfg: EdgeProxyConfig, body: Seq<char>) -> Result<
    ForwardView,
    ReplyView,
> {
    match json::parsed_json(body) {
        Err(e) => Err(http::json_reply(400, http::error_json("invalid OpenAI request: "@ + e))),
        Ok(incoming) => forward_parsed(cfg, body.len(), incoming),
    }
}

/// What is forwarded for a document that was read from `chars` characters, or the reply
/// that refuses it.
pub open spec fn forward_parsed(cfg: EdgeProxyConfig, chars: nat, incoming: JsonView) -> Result<
    ForwardView,
    ReplyView,
> {
    let window = budget::window_of(Some(cfg.context_window));
    let room = window - budget::estimated_input(chars as usize);
    let tokens = budget::least(
        budget::least(
            budget::requested_tokens(incoming) as int,
            budget::task_cap(window) as int,
        ),
        room,
    );
    if room < budget::EDGE_MIN_OUTPUT_TOKENS {
        Err(http::json_reply(400, http::error_json(budget::too_large(window))))
    } else {
        match budget::infer_url_of(cfg.worker_url@) {
            Err(e) => Err(http::json_reply(500, http::error_json(e))),
            Ok(url) => Ok(
                ForwardView {
                    url,
                    owner_key: owner_key_of(cfg),
                    body: worker_body(cfg, incoming, tokens as nat),
                    wants_stream: wants_stream(incoming),
                },
            ),
        }
    }
}

/// The key of the owner, where it is more than white space.
fn owner_key(cfg: &EdgeProxyConfig) -> (key: Option<String>)
    ensures
        text::opt_view(key) == owner_key_of(*cfg),
{
    match &cfg.owner_key {
        Some(key) => if trimmed(key.as_str()).as_str().is_empty() {
            None
        } else {
            Some(key.clone())
        },
        None => None,
    }
}

/// `body` with the field `key` of the request, where it has one.
fn pass(body: Json, incoming: &Json, key: &str) -> (out: Json)
    ensures
        out@ == with_passed(body@, incoming@, key@),
{
    match incoming.get(key) {
        Some(v) => body.put(key, v.duplicate()),
        None => body,
    }
}

/// What the worker is asked.
fn build_worker_body(cfg: &EdgeProxyConfig, incoming: &Json, max_tokens: usize) -> (body: Json)
    ensures
        body@ == worker_body(*cfg, incoming@, max_tokens as nat),
{
    let messages: Json = match incoming.get("messages") {
        Some(m) => edge_artifact_messages(m),
        None => edge_artifact_messages(&Json::Null),
    };
    let mut body: Json = Json::object().put("model", Json::text(cfg.model_id.as_str())).put(
        "messages",
        messages,
    ).put("max_tokens", Json::Unsigned(max_tokens as u64)).put("stream", Json::Bool(true)).put(
        "output_mode",
        Json::text("artifact"),
    ).put("chat_template_kwargs", Json::object().put("enable_thinking", Json::Bool(false)));
    if let Some(tools) = incoming.get("tools") {
        body = body.put("tools", shield_json_strings(tools));
    }
    body = pass(body, incoming, "temperature");
    body = pass(body, incoming, "top_p");
    body = pass(body, incoming, "stop");
    match owner_key(cfg) {
        Some(key) => body.put("ownerKey", Json::Text(key)),
        None => body,
    }
}

/// What is forwarded for a document that was read from `chars` characters, or the reply
/// that refuses it.
pub fn edge_proxy_forward_parsed(cfg: &EdgeProxyConfig, chars: usize, incoming: &Json) -> (forward:
    Result<Forward, HttpReply>)
    ensures
        match forward {
            Ok(f) => forward_parsed(*cfg, chars as nat, incoming@) == Ok::<ForwardView, ReplyView>(
                f@,
            ),
            Err(r) => forward_parsed(*cfg, chars as nat, incoming@) == Err::<
                ForwardView,
                ReplyView,
            >(r@),
        },
{
    let wants_stream: bool = match incoming.get("stream") {
        Some(v) => match v.as_bool() {
            Some(b) => b,
            None => false,
        },
        None => false,
    };
    let requested: usize = openai_requested_max_tokens(incoming);
    let max_tokens: usize = match edge_completion_budget(chars, requested, cfg.context_window) {
        Ok(value) => value,
        Err(error) => return Err(reply_error(400, error.as_str())),
    };
    let body: Json = build_worker_body(cfg, incoming, max_tokens);
    let url: String = match edge_infer_url(cfg.worker_url.as_str()) {
        Ok(url) => url,
        Err(error) => return Err(reply_error(500, error.as_str())),
    };
    Ok(Forward { url, owner_key: owner_key(cfg), body, wants_stream })
}

/// What is forwarded for a body, or the reply that refuses it.
pub fn edge_proxy_forward(cfg: &EdgeProxyConfig, body: &str) -> (forward: Result<
    Forward,
    HttpReply,
>)
    ensures
        match forward {
            Ok(f) => forward_of(*cfg, body@) == Ok::<ForwardView, ReplyView>(f@),
            Err(r) => forward_of(*cfg, body@) == Err::<ForwardView, ReplyView>(r@),
        },
{
    let chars: usize = chars_of(body).len();
    match Json::parse(body) {
        Ok(incoming) => edge_proxy_forward_parsed(cfg, chars, &incoming),
        Err(error) => {
            let message: String = "invalid OpenAI request: ".to_owned();
            Err(reply_error(400, message.concat(error.as_str()).as_str()))
        },
    }
}

// ---------------------------------------------------------------------------
// The worker's answer
// ---------------------------------------------------------------------------

/// The reply where the worker could not be asked.
pub fn edge_upstream_failure(error: &str) -> (reply: HttpReply)
    ensures
        reply@ == http::json_reply(
            502,
            http::error_json("edge inference request failed: "@ + error@),
        ),
{
    let message: String = "edge inference request failed: ".to_owned();
    reply_error(502, message.concat(error).as_str())
}

/// The larger of a status and 400.
pub open spec fn failing(status: u16) -> u16 {
    if status < 400 {
        400
    } else {
        status
    }
}

/// A completion as the reply that the request wanted.
pub open spec fn completion_reply(value: JsonView, streamed: bool) -> ReplyView {
    if streamed {
        ReplyView {
            status: 200,
            headers: seq![
                ("Content-Type"@, "text/event-stream"@),
                ("Cache-Control"@, "no-cache"@),
            ],
            body: completion::sse_of(value),
        }
    } else {
        http::json_reply(200, value)
    }
}

/// The reply for what the worker answered with `status`, at `now_ms`.
pub open spec fn finish_of(
    cfg: EdgeProxyConfig,
    streamed: bool,
    status: u16,
    payload: Seq<char>,
    now_ms: nat,
) -> ReplyView {
    match stream::stream_completion(payload) {
        Err(e) => http::json_reply(failing(status), http::error_json(e)),
        Ok(worker) => if status >= 400 {
            http::json_reply(status, http::error_json("edge inference failed"@))
        } else {
            completion_reply(
                completion::completion_of(worker, cfg.model_id@, true, now_ms),
                streamed,
            )
        },
    }
}

/// The reply for a worker's completion.
fn reply_completion(value: &Json, streamed: bool) -> (reply: HttpReply)
    ensures
        reply@ == completion_reply(value@, streamed),
{
    if !streamed {
        return reply_json(200, value);
    }
    let mut headers: Vec<(String, String)> = Vec::new();
    assert(http::header_views(headers@) =~= Seq::empty());
    push_header(&mut headers, "Content-Type", "text/event-stream");
    push_header(&mut headers, "Cache-Control", "no-cache");
    assert(http::header_views(headers@) =~= completion_reply(value@, true).headers);
    HttpReply { status: 200, headers, body: edge_openai_sse(value) }
}

/// The reply for what the worker answered. A stream that breaks off or holds no event, and
/// a status from 400 on, are told as errors.
pub fn edge_proxy_finish(
    cfg: &EdgeProxyConfig,
    streamed: bool,
    status: u16,
    payload: &str,
    now_ms: u128,
) -> (reply: HttpReply)
    requires
        now_ms / 1000 <= u64::MAX,
    ensures
        reply@ == finish_of(*cfg, streamed, status, payload@, now_ms as nat),
{
    let failing_status: u16 = if status < 400 {
        400
    } else {
        status
    };
    match edge_stream_completion(payload) {
        Err(error) => reply_error(failing_status, error.as_str()),
        Ok(worker) => {
            if status >= 400 {
                return reply_error(failing_status, "edge inference failed");
            }
            let value: Json = edge_openai_completion(&worker, cfg.model_id.as_str(), true, now_ms);
            reply_completion(&value, streamed)
        },
    }
}

// ---------------------------------------------------------------------------
// Laws
// ---------------------------------------------------------------------------

proof fn lemma_worker_keys()
    ensures
        "model"@ != "messages"@,
        "model"@ != "max_tokens"@,
        "model"@ != "stream"@,
        "model"@ != "output_mode"@,
        "model"@ != "chat_template_kwargs"@,
        "model"@ != "tools"@,
        "model"@ != "temperature"@,
        "model"@ != "top_p"@,
        "model"@ != "stop"@,
        "model"@ != "ownerKey"@,
        "messages"@ != "max_tokens"@,
        "messages"@ != "stream"@,
        "messages"@ != "output_mode"@,
        "messages"@ != "chat_template_kwargs"@,
        "messages"@ != "tools"@,
        "messages"@ != "temperature"@,
        "messages"@ != "top_p"@,
        "messages"@ != "stop"@,
        "messages"@ != "ownerKey"@,
        "max_tokens"@ != "stream"@,
        "max_tokens"@ != "output_mode"@,
        "max_tokens"@ != "chat_template_kwargs"@,
        "max_tokens"@ != "tools"@,
        "max_tokens"@ != "temperature"@,
        "max_tokens"@ != "top_p"@,
        "max_tokens"@ != "stop"@,
        "max_tokens"@ != "ownerKey"@,
        "stream"@ != "output_mode"@,
        "stream"@ != "chat_template_kwargs"@,
        "stream"@ != "tools"@,
        "stream"@ != "temperature"@,
        "stream"@ != "top_p"@,
        "stream"@ != "stop"@,
        "stream"@ != "ownerKey"@,
        "output_mode"@ != "chat_template_kwargs"@,
        "output_mode"@ != "tools"@,
        "output_mode"@ != "temperature"@,
        "output_mode"@ != "top_p"@,
        "output_mode"@ != "stop"@,
        "output_mode"@ != "ownerKey"@,
        "chat_template_kwargs"@ != "tools"@,
        "chat_template_kwargs"@ != "temperature"@,
        "chat_template_kwargs"@ != "top_p"@,
        "chat_template_kwargs"@ != "stop"@,
        "chat_template_kwargs"@ != "ownerKey"@,
        "tools"@ != "temperature"@,
        "tools"@ != "top_p"@,
        "tools"@ != "stop"@,
        "tools"@ != "ownerKey"@,
        "temperature"@ != "top_p"@,
        "temperature"@ != "stop"@,
        "temperature"@ != "ownerKey"@,
        "top_p"@ != "stop"@,
        "top_p"@ != "ownerKey"@,
        "stop"@ != "ownerKey"@,
{
    reveal_strlit("model");
    reveal_strlit("messages");
    reveal_strlit("max_tokens");
    reveal_strlit("stream");
    reveal_strlit("output_mode");
    reveal_strlit("chat_template_kwargs");
    reveal_strlit("tools");
    reveal_strlit("temperature");
    reveal_strlit("top_p");
    reveal_strlit("stop");
    reveal_strlit("ownerKey");
    assert("model"@.len() == 5);
    assert("messages"@.len() == 8);
    assert("max_tokens"@.len() == 10);
    assert("stream"@.len() == 6);
    assert("output_mode"@.len() == 11);
    assert("chat_template_kwargs"@.len() == 20);
    assert("tools"@.len() == 5);
    assert("temperature"@.len() == 11);
    assert("top_p"@.len() == 5);
    assert("stop"@.len() == 4);
    assert("ownerKey"@.len() == 8);
    assert("model"@[0] == 'm');
    assert("tools"@[0] == 't');
    assert("top_p"@[0] == 't');
    assert("messages"@[0] == 'm');
    assert("ownerKey"@[0] == 'o');
    assert("output_mode"@[0] == 'o');
    assert("temperature"@[0] == 't');
    assert("tools"@[2] == 'o');
    assert("top_p"@[2] == 'p');
}

/// A request without the key is told so and nothing else, whatever it asks for.
pub proof fn law_strangers_learn_nothing(
    cfg: EdgeProxyConfig,
    method: HttpMethod,
    url: Seq<char>,
    headers: Seq<http::HeaderView>,
)
    requires
        forall|i: int|
            0 <= i < headers.len() ==> text::lower((#[trigger] headers[i]).0) != text::lower(
                "Authorization"@,
            ) || headers[i].1 != "Bearer "@ + cfg.api_key@,
    ensures
        route_of(cfg, method, url, headers) matches Some(r) && r.status == 401,
{
    http::law_carried_header(headers, "Authorization"@, "Bearer "@ + cfg.api_key@);
}

/// Whoever shows the key gets the model that the proxy stands for, has completions taken, and
/// is told of any other route that it is none.
pub proof fn law_routes_of_the_proxy(
    cfg: EdgeProxyConfig,
    url: Seq<char>,
    query: Seq<char>,
    headers: Seq<http::HeaderView>,
    i: int,
)
    requires
        0 <= i < headers.len(),
        text::lower(headers[i].0) == text::lower("Authorization"@),
        headers[i].1 == "Bearer "@ + cfg.api_key@,
    ensures
        route_of(cfg, HttpMethod::Get, "/v1/models"@, headers) matches Some(r) && r.status == 200
            && r.body == json::compact_json(models_json(cfg.model_id@)),
        route_of(cfg, HttpMethod::Get, "/models"@, headers) matches Some(r) && r.status == 200,
        route_of(cfg, HttpMethod::Post, "/v1/chat/completions"@, headers) is None,
        route_of(cfg, HttpMethod::Post, "/chat/completions"@, headers) is None,
        route_of(cfg, HttpMethod::Post, "/v1/chat/completions"@ + seq!['?'] + query, headers) is None,
        route_of(cfg, HttpMethod::Get, "/v1/chat/completions"@, headers) matches Some(r)
            && r.status == 404,
        http::path_of(url) != "/v1/models"@ && http::path_of(url) != "/models"@ && http::path_of(url)
            != "/v1/chat/completions"@ && http::path_of(url) != "/chat/completions"@ ==> (route_of(
            cfg,
            HttpMethod::Post,
            url,
            headers,
        ) matches Some(r) && r.status == 404),
{
    assert(authorized(headers, cfg.api_key@));
    reveal_strlit("/v1/models");
    reveal_strlit("/models");
    reveal_strlit("/v1/chat/completions");
    reveal_strlit("/chat/completions");
    assert forall|k: int| 0 <= k < "/v1/models"@.len() implies "/v1/models"@[k] != '?' by {}
    assert forall|k: int| 0 <= k < "/models"@.len() implies "/models"@[k] != '?' by {}
    assert forall|k: int| 0 <= k < "/v1/chat/completions"@.len() implies "/v1/chat/completions"@[k]
        != '?' by {}
    assert forall|k: int| 0 <= k < "/chat/completions"@.len() implies "/chat/completions"@[k]
        != '?' by {}
    http::law_path_ends_at_query("/v1/models"@, query);
    http::law_path_ends_at_query("/models"@, query);
    http::law_path_ends_at_query("/v1/chat/completions"@, query);
    http::law_path_ends_at_query("/chat/completions"@, query);
    assert("/v1/models"@.len() == 10);
    assert("/models"@.len() == 7);
    assert("/v1/chat/completions"@.len() == 20);
    assert("/chat/completions"@.len() == 17);
}

/// The one model that the proxy offers is the one that it stands for.
pub proof fn law_offered_model(model_id: Seq<char>)
    ensures
        models_json(model_id).field("data"@) matches Some(JsonView::Array(items)) && items.len()
            == 1 && items[0].text_field("id"@) == Some(model_id) && items[0].text_field("object"@)
            == Some("model"@) && items[0].text_field("owned_by"@) == Some("rlmlocal-edge"@),
        models_json(model_id).text_field("object"@) == Some("list"@),
{
    reveal_strlit("object");
    reveal_strlit("data");
    reveal_strlit("id");
    reveal_strlit("owned_by");
    assert("object"@.len() == 6);
    assert("data"@.len() == 4);
    assert("id"@.len() == 2);
    assert("owned_by"@.len() == 8);
}

/// What the worker is asked says everything that the request said and the proxy knows: the
/// model, all messages and tools shielded, how it samples, the owner's key where there is one,
/// that the answer is a stream and an artifact, and that the model shall not think aloud.
pub proof fn law_worker_is_asked_for_it_all(
    cfg: EdgeProxyConfig,
    incoming: JsonView,
    max_tokens: nat,
)
    ensures
        ({
            let body = worker_body(cfg, incoming, max_tokens);
            &&& body.text_field("model"@) == Some(cfg.model_id@)
            &&& body.field("max_tokens"@) == Some(JsonView::number(max_tokens))
            &&& body.field("stream"@) == Some(JsonView::Bool(true))
            &&& body.text_field("output_mode"@) == Some("artifact"@)
            &&& body.field("chat_template_kwargs"@) matches Some(k) && k.field(
                "enable_thinking"@,
            ) == Some(JsonView::Bool(false))
            &&& incoming.field("messages"@) matches Some(m) ==> body.field("messages"@) == Some(
                messages::artifact_messages(m),
            )
            &&& incoming.field("tools"@) matches Some(t) ==> body.field("tools"@) == Some(
                messages::shielded(t),
            )
            &&& incoming.field("tools"@) is None ==> body.field("tools"@) is None
            &&& body.field("temperature"@) == incoming.field("temperature"@)
            &&& body.field("top_p"@) == incoming.field("top_p"@)
            &&& body.field("stop"@) == incoming.field("stop"@)
            &&& body.text_field("ownerKey"@) == owner_key_of(cfg)
        }),
{
    lemma_worker_keys();
}

/// The owner's key goes along as it is, unless it is nothing but white space.
pub proof fn law_owner_key(cfg: EdgeProxyConfig, key: String)
    ensures
        cfg.owner_key == Some(key) && text::trim(key@).len() > 0 ==> owner_key_of(cfg) == Some(
            key@,
        ),
        cfg.owner_key == Some(key) && text::trim(key@).len() == 0 ==> owner_key_of(cfg) is None,
        cfg.owner_key is None ==> owner_key_of(cfg) is None,
{
}

/// A request is forwarded to the worker's address exactly where its prompt leaves room for
/// 256 tokens, and then asks for no more tokens than it wanted, than a turn may have and than
/// there is room for; and for as many as the smallest of these.
pub proof fn law_forwarding(cfg: EdgeProxyConfig, chars: nat, incoming: JsonView)
    requires
        chars < usize::MAX,
    ensures
        ({
            let window = budget::window_of(Some(cfg.context_window));
            let room = window - budget::estimated_input(chars as usize);
            let want = budget::requested_tokens(incoming);
            match forward_parsed(cfg, chars, incoming) {
                Ok(f) => {
                    &&& room >= 256
                    &&& budget::infer_url_of(cfg.worker_url@) == Ok::<Seq<char>, Seq<char>>(f.url)
                    &&& f.owner_key == owner_key_of(cfg)
                    &&& f.wants_stream == (incoming.field("stream"@) == Some(JsonView::Bool(true)))
                    &&& exists|n: nat|
                        {
                            &&& f.body == #[trigger] worker_body(cfg, incoming, n)
                            &&& n <= want && n <= budget::task_cap(window) && n <= room
                            &&& n == want || n == budget::task_cap(window) || n == room
                        }
                },
                Err(r) => r.status >= 400 && (room < 256 || budget::infer_url_of(
                    cfg.worker_url@,
                ) is Err),
            }
        }),
{
    let window = budget::window_of(Some(cfg.context_window));
    let room = window - budget::estimated_input(chars as usize);
    let want = budget::requested_tokens(incoming);
    let a = budget::least(want as int, budget::task_cap(window) as int);
    budget::law_least(want as int, budget::task_cap(window) as int);
    budget::law_least(a, room);
    if let Ok(f) = forward_parsed(cfg, chars, incoming) {
        let n = budget::least(a, room) as nat;
        assert(f.body == worker_body(cfg, incoming, n));
    }
}

/// A body that is no document is refused as such.
pub proof fn law_unreadable_request_is_refused(cfg: EdgeProxyConfig, body: Seq<char>)
    ensures
        json::parsed_json(body) is Err ==> (forward_of(cfg, body) matches Err(r) && r.status
            == 400),
        json::parsed_json(body) matches Ok(v) ==> forward_of(cfg, body) == forward_parsed(
            cfg,
            body.len(),
            v,
        ),
{
}

/// A stream that breaks off, and a worker that fails, are never told as a success; an answer
/// is told as one, as a stream where one was wanted.
pub proof fn law_finishing(
    cfg: EdgeProxyConfig,
    streamed: bool,
    status: u16,
    payload: Seq<char>,
    now_ms: nat,
)
    ensures
        stream::stream_completion(payload) is Err ==> finish_of(
            cfg,
            streamed,
            status,
            payload,
            now_ms,
        ).status >= 400,
        status >= 400 ==> finish_of(cfg, streamed, status, payload, now_ms).status == status,
        status < 400 && stream::stream_completion(payload) is Ok ==> {
            let value = completion::completion_of(
                stream::stream_completion(payload)->Ok_0,
                cfg.model_id@,
                true,
                now_ms,
            );
            &&& finish_of(cfg, false, status, payload, now_ms).status == 200
            &&& finish_of(cfg, false, status, payload, now_ms).body == json::compact_json(value)
            &&& finish_of(cfg, true, status, payload, now_ms).status == 200
            &&& finish_of(cfg, true, status, payload, now_ms).body == completion::sse_of(value)
            &&& finish_of(cfg, true, status, payload, now_ms).headers.contains(
                ("Content-Type"@, "text/event-stream"@),
            )
        },
{
    if status < 400 && stream::stream_completion(payload) is Ok {
        let r = finish_of(cfg, true, status, payload, now_ms);
        assert(r.headers[0] == ("Content-Type"@, "text/event-stream"@));
    }
}

} // verus!
