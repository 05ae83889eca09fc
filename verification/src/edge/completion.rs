//! A worker's answer as an OpenAI chat completion, whole or as a stream of two chunks.

use crate::digits::{self, number_text};
use crate::edge::shield::{self, unshield_edge_artifact_literals};
use crate::edge::stream;
use crate::json::{self, Json, JsonView};
use crate::text::{self, trimmed};
use vstd::prelude::*;

verus! {

// ---------------------------------------------------------------------------
// Tool calls
// ---------------------------------------------------------------------------

/// `t`, with its tokens restored where `artifact_literals` says so.
pub open spec fn restored(t: Seq<char>, artifact_literals: bool) -> Seq<char> {
    if artifact_literals {
        shield::unshield(t)
    } else {
        t
    }
}

/// The arguments of a call as text, or an empty object where it has none.
pub open spec fn call_arguments(call: JsonView) -> Seq<char> {
    match stream::function_of(call).field("arguments"@) {
        Some(JsonView::Text(t)) => t,
        Some(v) => json::compact_json(v),
        None => "{}"@,
    }
}

/// The id of a call, or one that stands for it.
pub open spec fn call_id(call: JsonView) -> Seq<char> {
    match stream::raw_id(call) {
        Some(id) => id,
        None => "call_rlm_edge"@,
    }
}

/// The `index`-th call in the shape that OpenAI gives it, or nothing where it names no function.
pub open spec fn normalized_call(index: nat, call: JsonView, artifact_literals: bool) -> Option<
    JsonView,
> {
    match stream::function_of(call).text_field("name"@) {
        None => None,
        Some(full) => {
            let name = text::trim(full);
            if name.len() == 0 {
                None
            } else {
                Some(
                    JsonView::object().put("index"@, JsonView::number(index)).put(
                        "id"@,
                        JsonView::Text(call_id(call)),
                    ).put("type"@, JsonView::Text("function"@)).put(
                        "function"@,
                        JsonView::object().put("name"@, JsonView::Text(name)).put(
                            "arguments"@,
                            JsonView::Text(restored(call_arguments(call), artifact_literals)),
                        ),
                    ),
                )
            }
        },
    }
}

/// The first `n` calls in their OpenAI shape, without those that name no function.
pub open spec fn normalized_first(calls: Seq<JsonView>, n: nat, artifact_literals: bool) -> Seq<
    JsonView,
>
    decreases n,
{
    if n == 0 {
        Seq::empty()
    } else {
        let before = normalized_first(calls, (n - 1) as nat, artifact_literals);
        match normalized_call((n - 1) as nat, calls[n - 1], artifact_literals) {
            Some(call) => before.push(call),
            None => before,
        }
    }
}

/// The calls of an array in their OpenAI shape; anything else holds no calls.
pub open spec fn normalized_calls(raw: JsonView, artifact_literals: bool) -> Seq<JsonView> {
    match raw.items() {
        Some(calls) => normalized_first(calls, calls.len(), artifact_literals),
        None => Seq::empty(),
    }
}

/// A call that a stream collected under a name keeps its id, its name and its arguments.
pub proof fn law_streamed_call_survives(index: nat, slot: stream::SlotView)
    requires
        text::trim(slot.call.name).len() > 0,
        slot.call.id.len() > 0,
    ensures
        normalized_call(index, stream::slot_json(slot), false) == Some(
            JsonView::object().put("index"@, JsonView::number(index)).put(
                "id"@,
                JsonView::Text(slot.call.id),
            ).put("type"@, JsonView::Text("function"@)).put(
                "function"@,
                JsonView::object().put("name"@, JsonView::Text(text::trim(slot.call.name))).put(
                    "arguments"@,
                    JsonView::Text(slot.call.arguments),
                ),
            ),
        ),
{
    lemma_slot_fields(slot);
}

/// What the fields of a slot's document are.
proof fn lemma_slot_fields(slot: stream::SlotView)
    ensures
        stream::function_of(stream::slot_json(slot)).text_field("name"@) == Some(slot.call.name),
        stream::function_of(stream::slot_json(slot)).field("arguments"@) == Some(
            JsonView::Text(slot.call.arguments),
        ),
        stream::slot_json(slot).text_field("id"@) == Some(slot.call.id),
{
    reveal_strlit("index");
    reveal_strlit("id");
    reveal_strlit("type");
    reveal_strlit("function");
    reveal_strlit("name");
    reveal_strlit("arguments");
    assert("id"@.len() == 2);
    assert("type"@.len() == 4);
    assert("function"@.len() == 8);
    assert("name"@[0] == 'n');
    assert("arguments"@.len() == 9);
}

/// The calls of an array in their OpenAI shape, without those that name no function.
pub fn normalize_edge_tool_calls(raw: &Json, artifact_literals: bool) -> (calls: Vec<Json>)
    ensures
        json::json_views(calls@) == normalized_calls(raw@, artifact_literals),
{
    let mut out: Vec<Json> = Vec::new();
    assert(json::json_views(out@) =~= Seq::empty());
    if let Some(calls) = raw.as_items() {
        let ghost all = json::json_views(calls@);
        let mut i: usize = 0;
        while i < calls.len()
            invariant
                i <= calls@.len(),
                all == json::json_views(calls@),
                json::json_views(out@) == normalized_first(all, i as nat, artifact_literals),
            decreases calls@.len() - i,
        {
            assert(all[i as int] == calls@[i as int]@);
            if let Some(call) = normalize_call(i, &calls[i], artifact_literals) {
                proof {
                    json::lemma_json_views_push(out@, call);
                }
                out.push(call);
            }
            i += 1;
        }
    }
    out
}

/// One call in its OpenAI shape.
fn normalize_call(index: usize, call: &Json, artifact_literals: bool) -> (shaped: Option<Json>)
    ensures
        match shaped {
            Some(v) => normalized_call(index as nat, call@, artifact_literals) == Some(v@),
            None => normalized_call(index as nat, call@, artifact_literals) is None,
        },
{
    let function: &Json = match call.get("function") {
        Some(f) => f,
        None => call,
    };
    let name: String = match function.text_at("name") {
        Some(full) => trimmed(full.as_str()),
        None => return None,
    };
    if name.as_str().is_empty() {
        return None;
    }
    let arguments: String = match function.get("arguments") {
        Some(Json::Text(t)) => t.clone(),
        Some(v) => v.compact(),
        None => "{}".to_owned(),
    };
    let arguments: String = if artifact_literals {
        unshield_edge_artifact_literals(arguments.as_str())
    } else {
        arguments
    };
    let id: String = match stream::edge_stream_tool_call_id(call) {
        Some(id) => id,
        None => "call_rlm_edge".to_owned(),
    };
    Some(
        Json::object().put("index", Json::Unsigned(index as u64)).put("id", Json::Text(id)).put(
            "type",
            Json::text("function"),
        ).put(
            "function",
            Json::object().put("name", Json::Text(name)).put("arguments", Json::Text(arguments)),
        ),
    )
}

// ---------------------------------------------------------------------------
// Completions
// ---------------------------------------------------------------------------

/// The text of the answer, or `null` where it has none.
pub open spec fn answer_content(worker: JsonView, artifact_literals: bool) -> JsonView {
    match worker.text_field("content"@) {
        Some(t) => if t.len() > 0 {
            JsonView::Text(restored(t, artifact_literals))
        } else {
            JsonView::Null
        },
        None => JsonView::Null,
    }
}

/// An answer that repeats a source text as the model saw it gives back the source text.
pub proof fn law_answer_restores_source(worker: JsonView, source: Seq<char>)
    requires
        !shield::has_token(source),
        source.len() > 0,
        worker.text_field("content"@) == Some(shield::shield(source)),
    ensures
        answer_content(worker, true) == JsonView::Text(source),
{
    shield::law_shield_round_trip(source);
    if shield::shield(source).len() == 0 {
        reveal_with_fuel(shield::unshield_first, 9);
        assert(shield::shield(source) =~= Seq::empty());
        assert(shield::unshield(Seq::empty()).len() == 0);
    }
}

/// A call whose arguments repeat a source text as the model saw it has the source text for
/// its arguments.
pub proof fn law_arguments_restore_source(index: nat, call: JsonView, source: Seq<char>)
    requires
        !shield::has_token(source),
        stream::function_of(call).field("arguments"@) == Some(
            JsonView::Text(shield::shield(source)),
        ),
        normalized_call(index, call, true) is Some,
    ensures
        normalized_call(index, call, true)->0.field("function"@) is Some,
        normalized_call(index, call, true)->0.field("function"@)->0.text_field("arguments"@)
            == Some(source),
{
    shield::law_shield_round_trip(source);
    reveal_strlit("name");
    reveal_strlit("arguments");
    assert("name"@.len() == 4);
    assert("arguments"@.len() == 9);
}

/// The message of a completion.
pub open spec fn answer_message(worker: JsonView, artifact_literals: bool) -> JsonView {
    let plain = JsonView::object().put("role"@, JsonView::Text("assistant"@)).put(
        "content"@,
        answer_content(worker, artifact_literals),
    );
    let calls = match worker.field("tool_calls"@) {
        Some(raw) => normalized_calls(raw, artifact_literals),
        None => Seq::empty(),
    };
    if calls.len() > 0 {
        plain.put("tool_calls"@, JsonView::Array(calls))
    } else {
        plain
    }
}

/// Why a completion ended: for its tool calls, where the worker sent any.
pub open spec fn finish_reason(worker: JsonView) -> Seq<char> {
    match stream::items_of(worker.field("tool_calls"@)) {
        Some(calls) => if calls.len() > 0 {
            "tool_calls"@
        } else {
            "stop"@
        },
        None => "stop"@,
    }
}

/// What the worker says it used, or else nothing.
pub open spec fn usage_of(worker: JsonView) -> JsonView {
    match worker.field("usage"@) {
        Some(v) => v,
        None => JsonView::object().put("prompt_tokens"@, JsonView::number(0)).put(
            "completion_tokens"@,
            JsonView::number(0),
        ).put("total_tokens"@, JsonView::number(0)),
    }
}

/// A worker's answer as an OpenAI completion, made at `now_ms`.
pub open spec fn completion_of(
    worker: JsonView,
    model: Seq<char>,
    artifact_literals: bool,
    now_ms: nat,
) -> JsonView {
    JsonView::object().put(
        "id"@,
        JsonView::Text("chatcmpl-rlm-edge-"@ + digits::decimal(now_ms)),
    ).put("object"@, JsonView::Text("chat.completion"@)).put(
        "created"@,
        JsonView::number(now_ms / 1000),
    ).put("model"@, JsonView::Text(model)).put(
        "choices"@,
        JsonView::Array(
            seq![
                JsonView::object().put("index"@, JsonView::number(0)).put(
                    "message"@,
                    answer_message(worker, artifact_literals),
                ).put("finish_reason"@, JsonView::Text(finish_reason(worker))),
            ],
        ),
    ).put("usage"@, usage_of(worker))
}

/// The array that holds one document.
fn array_of(item: Json) -> (json: Json)
    ensures
        json@ == JsonView::Array(seq![item@]),
{
    let mut items: Vec<Json> = Vec::new();
    items.push(item);
    proof {
        json::lemma_array_view(items);
        assert(json::json_views(items@) =~= seq![item@]);
    }
    Json::Array(items)
}

/// A worker's answer as an OpenAI completion. `now_ms` is the time in milliseconds since
/// the start of 1970; its seconds are an integer of 64 bits.
pub fn edge_openai_completion(
    worker: &Json,
    model: &str,
    artifact_literals: bool,
    now_ms: u128,
) -> (completion: Json)
    requires
        now_ms / 1000 <= u64::MAX,
    ensures
        completion@ == completion_of(worker@, model@, artifact_literals, now_ms as nat),
{
    let content: Json = match worker.text_at("content") {
        Some(t) => if t.as_str().is_empty() {
            Json::Null
        } else if artifact_literals {
            Json::Text(unshield_edge_artifact_literals(t.as_str()))
        } else {
            Json::Text(t)
        },
        None => Json::Null,
    };
    let calls: Vec<Json> = match worker.get("tool_calls") {
        Some(raw) => normalize_edge_tool_calls(raw, artifact_literals),
        None => {
            let none: Vec<Json> = Vec::new();
            assert(json::json_views(none@) =~= Seq::empty());
            none
        },
    };
    let mut message: Json = Json::object().put("role", Json::text("assistant")).put(
        "content",
        content,
    );
    assert(calls@.len() == json::json_views(calls@).len());
    if calls.len() > 0 {
        proof {
            json::lemma_array_view(calls);
        }
        message = message.put("tool_calls", Json::Array(calls));
    }
    let called: bool = match worker.get("tool_calls") {
        Some(raw) => match raw.as_items() {
            Some(items) => items.len() > 0,
            None => false,
        },
        None => false,
    };
    let reason: Json = Json::text(
        if called {
            "tool_calls"
        } else {
            "stop"
        },
    );
    let usage: Json = match worker.get("usage") {
        Some(v) => v.duplicate(),
        None => Json::object().put("prompt_tokens", Json::Unsigned(0)).put(
            "completion_tokens",
            Json::Unsigned(0),
        ).put("total_tokens", Json::Unsigned(0)),
    };
    let id: String = "chatcmpl-rlm-edge-".to_owned();
    let id: String = id.concat(number_text(now_ms).as_str());
    Json::object().put("id", Json::Text(id)).put("object", Json::text("chat.completion")).put(
        "created",
        Json::Unsigned((now_ms / 1000) as u64),
    ).put("model", Json::text(model)).put(
        "choices",
        array_of(
            Json::object().put("index", Json::Unsigned(0)).put("message", message).put(
                "finish_reason",
                reason,
            ),
        ),
    ).put("usage", usage)
}

// ---------------------------------------------------------------------------
// Streams
// ---------------------------------------------------------------------------

/// `v`, or `other` where there is none.
pub open spec fn or_else(v: Option<JsonView>, other: JsonView) -> JsonView {
    match v {
        Some(v) => v,
        None => other,
    }
}

/// `/choices/0/<key>` of a completion.
pub open spec fn choice_of(completion: JsonView, key: Seq<char>) -> Option<JsonView> {
    match completion.field("choices"@) {
        Some(choices) => match choices.zeroth() {
            Some(choice) => choice.field(key),
            None => None,
        },
        None => None,
    }
}

/// The delta of the first chunk: the role, and of the message its text and its tool calls.
pub open spec fn delta_of(message: JsonView) -> JsonView {
    let role = JsonView::object().put("role"@, JsonView::Text("assistant"@));
    let content = match message.field("content"@) {
        Some(c) => role.put("content"@, c),
        None => role,
    };
    match message.field("tool_calls"@) {
        Some(c) => content.put("tool_calls"@, c),
        None => content,
    }
}

/// One chunk of a completion.
pub open spec fn chunk_of(completion: JsonView, delta: JsonView, finish: JsonView) -> JsonView {
    JsonView::object().put(
        "id"@,
        or_else(completion.field("id"@), JsonView::Text("chatcmpl-rlm-edge"@)),
    ).put("object"@, JsonView::Text("chat.completion.chunk"@)).put(
        "created"@,
        or_else(completion.field("created"@), JsonView::number(0)),
    ).put("model"@, or_else(completion.field("model"@), JsonView::Text("rlm-edge"@))).put(
        "choices"@,
        JsonView::Array(
            seq![
                JsonView::object().put("index"@, JsonView::number(0)).put("delta"@, delta).put(
                    "finish_reason"@,
                    finish,
                ),
            ],
        ),
    )
}

/// A completion as server-sent events: a chunk with all of the message, a chunk with the
/// reason why it ended, and the end.
pub open spec fn sse_of(completion: JsonView) -> Seq<char> {
    let message = or_else(choice_of(completion, "message"@), JsonView::object());
    let finish = or_else(choice_of(completion, "finish_reason"@), JsonView::Text("stop"@));
    let first = chunk_of(completion, delta_of(message), JsonView::Null);
    let last = chunk_of(completion, JsonView::object(), finish);
    "data: "@ + json::compact_json(first) + "\n\ndata: "@ + json::compact_json(last) + "\n\n"@
        + "data: [DONE]\n\n"@
}

/// A copy of a document, or `other` where there is none.
fn copy_or(v: Option<&Json>, other: Json) -> (json: Json)
    ensures
        json@ == or_else(json::json_opt(v), other@),
{
    match v {
        Some(v) => v.duplicate(),
        None => other,
    }
}

/// `/choices/0/<key>` of a completion.
fn choice_part<'a>(completion: &'a Json, key: &str) -> (found: Option<&'a Json>)
    ensures
        json::json_opt(found) == choice_of(completion@, key@),
{
    match completion.get("choices") {
        Some(choices) => match choices.zeroth() {
            Some(choice) => choice.get(key),
            None => None,
        },
        None => None,
    }
}

/// One chunk of a completion.
fn chunk(completion: &Json, delta: Json, finish: Json) -> (json: Json)
    ensures
        json@ == chunk_of(completion@, delta@, finish@),
{
    Json::object().put("id", copy_or(completion.get("id"), Json::text("chatcmpl-rlm-edge"))).put(
        "object",
        Json::text("chat.completion.chunk"),
    ).put("created", copy_or(completion.get("created"), Json::Unsigned(0))).put(
        "model",
        copy_or(completion.get("model"), Json::text("rlm-edge")),
    ).put(
        "choices",
        array_of(
            Json::object().put("index", Json::Unsigned(0)).put("delta", delta).put(
                "finish_reason",
                finish,
            ),
        ),
    )
}

/// A completion as server-sent events.
pub fn edge_openai_sse(completion: &Json) -> (events: String)
    ensures
        events@ == sse_of(completion@),
        text::finishes(events@, "data: [DONE]\n\n"@),
{
    let message: Json = copy_or(choice_part(completion, "message"), Json::object());
    let finish: Json = copy_or(choice_part(completion, "finish_reason"), Json::text("stop"));
    let mut delta: Json = Json::object().put("role", Json::text("assistant"));
    if let Some(content) = message.get("content") {
        delta = delta.put("content", content.duplicate());
    }
    if let Some(calls) = message.get("tool_calls") {
        delta = delta.put("tool_calls", calls.duplicate());
    }
    let first: Json = chunk(completion, delta, Json::Null);
    let last: Json = chunk(completion, Json::object(), finish);
    let mut events: String = "data: ".to_owned();
    events.append(first.compact().as_str());
    events.append("\n\ndata: ");
    events.append(last.compact().as_str());
    events.append("\n\n");
    let ghost before = events@;
    events.append("data: [DONE]\n\n");
    assert(events@.subrange(before.len() as int, events@.len() as int) =~= "data: [DONE]\n\n"@);
    events
}

// ---------------------------------------------------------------------------
// Laws
// ---------------------------------------------------------------------------

proof fn lemma_completion_keys()
    ensures
        "id"@ != "object"@,
        "id"@ != "created"@,
        "id"@ != "model"@,
        "id"@ != "choices"@,
        "id"@ != "usage"@,
        "id"@ != "index"@,
        "id"@ != "message"@,
        "id"@ != "finish_reason"@,
        "id"@ != "role"@,
        "id"@ != "content"@,
        "id"@ != "tool_calls"@,
        "id"@ != "delta"@,
        "id"@ != "type"@,
        "id"@ != "function"@,
        "id"@ != "name"@,
        "id"@ != "arguments"@,
        "object"@ != "created"@,
        "object"@ != "model"@,
        "object"@ != "choices"@,
        "object"@ != "usage"@,
        "object"@ != "index"@,
        "object"@ != "message"@,
        "object"@ != "finish_reason"@,
        "object"@ != "role"@,
        "object"@ != "content"@,
        "object"@ != "tool_calls"@,
        "object"@ != "delta"@,
        "object"@ != "type"@,
        "object"@ != "function"@,
        "object"@ != "name"@,
        "object"@ != "arguments"@,
        "created"@ != "model"@,
        "created"@ != "choices"@,
        "created"@ != "usage"@,
        "created"@ != "index"@,
        "created"@ != "message"@,
        "created"@ != "finish_reason"@,
        "created"@ != "role"@,
        "created"@ != "content"@,
        "created"@ != "tool_calls"@,
        "created"@ != "delta"@,
        "created"@ != "type"@,
        "created"@ != "function"@,
        "created"@ != "name"@,
        "created"@ != "arguments"@,
        "model"@ != "choices"@,
        "model"@ != "usage"@,
        "model"@ != "index"@,
        "model"@ != "message"@,
        "model"@ != "finish_reason"@,
        "model"@ != "role"@,
        "model"@ != "content"@,
        "model"@ != "tool_calls"@,
        "model"@ != "delta"@,
        "model"@ != "type"@,
        "model"@ != "function"@,
        "model"@ != "name"@,
        "model"@ != "arguments"@,
        "choices"@ != "usage"@,
        "choices"@ != "index"@,
        "choices"@ != "message"@,
        "choices"@ != "finish_reason"@,
        "choices"@ != "role"@,
        "choices"@ != "content"@,
        "choices"@ != "tool_calls"@,
        "choices"@ != "delta"@,
        "choices"@ != "type"@,
        "choices"@ != "function"@,
        "choices"@ != "name"@,
        "choices"@ != "arguments"@,
        "usage"@ != "index"@,
        "usage"@ != "message"@,
        "usage"@ != "finish_reason"@,
        "usage"@ != "role"@,
        "usage"@ != "content"@,
        "usage"@ != "tool_calls"@,
        "usage"@ != "delta"@,
        "usage"@ != "type"@,
        "usage"@ != "function"@,
        "usage"@ != "name"@,
        "usage"@ != "arguments"@,
        "index"@ != "message"@,
        "index"@ != "finish_reason"@,
        "index"@ != "role"@,
        "index"@ != "content"@,
        "index"@ != "tool_calls"@,
        "index"@ != "delta"@,
        "index"@ != "type"@,
        "index"@ != "function"@,
        "index"@ != "name"@,
        "index"@ != "arguments"@,
        "message"@ != "finish_reason"@,
        "message"@ != "role"@,
        "message"@ != "content"@,
        "message"@ != "tool_calls"@,
        "message"@ != "delta"@,
        "message"@ != "type"@,
        "message"@ != "function"@,
        "message"@ != "name"@,
        "message"@ != "arguments"@,
        "finish_reason"@ != "role"@,
        "finish_reason"@ != "content"@,
        "finish_reason"@ != "tool_calls"@,
        "finish_reason"@ != "delta"@,
        "finish_reason"@ != "type"@,
        "finish_reason"@ != "function"@,
        "finish_reason"@ != "name"@,
        "finish_reason"@ != "arguments"@,
        "role"@ != "content"@,
        "role"@ != "tool_calls"@,
        "role"@ != "delta"@,
        "role"@ != "type"@,
        "role"@ != "function"@,
        "role"@ != "name"@,
        "role"@ != "arguments"@,
        "content"@ != "tool_calls"@,
        "content"@ != "delta"@,
        "content"@ != "type"@,
        "content"@ != "function"@,
        "content"@ != "name"@,
        "content"@ != "arguments"@,
        "tool_calls"@ != "delta"@,
        "tool_calls"@ != "type"@,
        "tool_calls"@ != "function"@,
        "tool_calls"@ != "name"@,
        "tool_calls"@ != "arguments"@,
        "delta"@ != "type"@,
        "delta"@ != "function"@,
        "delta"@ != "name"@,
        "delta"@ != "arguments"@,
        "type"@ != "function"@,
        "type"@ != "name"@,
        "type"@ != "arguments"@,
        "function"@ != "name"@,
        "function"@ != "arguments"@,
        "name"@ != "arguments"@,
{
    reveal_strlit("id");
    reveal_strlit("object");
    reveal_strlit("created");
    reveal_strlit("model");
    reveal_strlit("choices");
    reveal_strlit("usage");
    reveal_strlit("index");
    reveal_strlit("message");
    reveal_strlit("finish_reason");
    reveal_strlit("role");
    reveal_strlit("content");
    reveal_strlit("tool_calls");
    reveal_strlit("delta");
    reveal_strlit("type");
    reveal_strlit("function");
    reveal_strlit("name");
    reveal_strlit("arguments");
    assert("id"@.len() == 2);
    assert("object"@.len() == 6);
    assert("created"@.len() == 7);
    assert("model"@.len() == 5);
    assert("choices"@.len() == 7);
    assert("usage"@.len() == 5);
    assert("index"@.len() == 5);
    assert("message"@.len() == 7);
    assert("finish_reason"@.len() == 13);
    assert("role"@.len() == 4);
    assert("content"@.len() == 7);
    assert("tool_calls"@.len() == 10);
    assert("delta"@.len() == 5);
    assert("type"@.len() == 4);
    assert("function"@.len() == 8);
    assert("name"@.len() == 4);
    assert("arguments"@.len() == 9);
    assert("created"@[1] == 'r');
    assert("choices"@[1] == 'h');
    assert("created"@[0] == 'c');
    assert("message"@[0] == 'm');
    assert("content"@[1] == 'o');
    assert("model"@[0] == 'm');
    assert("usage"@[0] == 'u');
    assert("index"@[0] == 'i');
    assert("delta"@[0] == 'd');
    assert("choices"@[0] == 'c');
    assert("content"@[0] == 'c');
    assert("role"@[0] == 'r');
    assert("type"@[0] == 't');
    assert("name"@[0] == 'n');
}

/// The one choice of a completion.
pub open spec fn only_choice(completion: JsonView) -> JsonView {
    completion.field("choices"@)->Some_0.items()->Some_0[0]
}

/// A completion holds the worker's answer: its text restored, its calls, what it used, and why
/// it ended.
pub proof fn law_completion_holds_the_answer(
    worker: JsonView,
    model: Seq<char>,
    literals: bool,
    now_ms: nat,
)
    ensures
        ({
            let c = completion_of(worker, model, literals, now_ms);
            let choice = only_choice(c);
            &&& c.text_field("model"@) == Some(model)
            &&& c.text_field("object"@) == Some("chat.completion"@)
            &&& c.text_field("id"@) matches Some(id) && text::begins(id, "chatcmpl-rlm-edge-"@)
            &&& c.field("choices"@) is Some
            &&& c.field("choices"@)->Some_0.items() is Some
            &&& c.field("choices"@)->Some_0.items()->Some_0.len() == 1
            &&& choice.field("message"@) == Some(answer_message(worker, literals))
            &&& worker.field("usage"@) is Some ==> c.field("usage"@) == worker.field("usage"@)
            &&& choice.text_field("finish_reason"@) == Some(finish_reason(worker))
        }),
{
    lemma_completion_keys();
    text::law_prefix("chatcmpl-rlm-edge-"@, digits::decimal(now_ms), Seq::empty());
}

/// The message of a completion is the assistant's and holds the worker's text, with the
/// tokens restored where there may be any, and the worker's calls where any of them names a
/// function.
pub proof fn law_message_holds_the_answer(worker: JsonView, t: Seq<char>, calls: Seq<JsonView>)
    ensures
        answer_message(worker, true).text_field("role"@) == Some("assistant"@),
        worker.text_field("content"@) == Some(t) && t.len() > 0 ==> {
            &&& answer_message(worker, false).text_field("content"@) == Some(t)
            &&& answer_message(worker, true).text_field("content"@) == Some(shield::unshield(t))
        },
        worker.text_field("content"@) is None ==> answer_message(worker, true).field("content"@)
            == Some(JsonView::Null),
        worker.field("tool_calls"@) == Some(JsonView::Array(calls)) && normalized_calls(
            JsonView::Array(calls),
            true,
        ).len() > 0 ==> answer_message(worker, true).field("tool_calls"@) == Some(
            JsonView::Array(normalized_calls(JsonView::Array(calls), true)),
        ),
        worker.field("tool_calls"@) is None ==> answer_message(worker, true).field("tool_calls"@)
            is None,
{
    lemma_completion_keys();
}

/// A completion ends for its tool calls exactly where the worker sent any.
pub proof fn law_finish_reason(worker: JsonView, calls: Seq<JsonView>)
    ensures
        worker.field("tool_calls"@) == Some(JsonView::Array(calls)) && calls.len() > 0
            ==> finish_reason(worker) == "tool_calls"@,
        worker.field("tool_calls"@) == Some(JsonView::Array(calls)) && calls.len() == 0
            ==> finish_reason(worker) == "stop"@,
        worker.field("tool_calls"@) is None ==> finish_reason(worker) == "stop"@,
{
}

proof fn lemma_normalized_all(calls: Seq<JsonView>, n: nat, literals: bool)
    requires
        n <= calls.len(),
        forall|i: int|
            0 <= i < calls.len() ==> normalized_call(i as nat, #[trigger] calls[i], literals) is Some,
    ensures
        normalized_first(calls, n, literals).len() == n,
        forall|i: int|
            0 <= i < n ==> #[trigger] normalized_first(calls, n, literals)[i] == normalized_call(
                i as nat,
                calls[i],
                literals,
            )->Some_0,
    decreases n,
{
    if n > 0 {
        lemma_normalized_all(calls, (n - 1) as nat, literals);
        let last = calls[n - 1];
        assert(normalized_call((n - 1) as nat, last, literals) is Some);
        let before = normalized_first(calls, (n - 1) as nat, literals);
        let out = normalized_first(calls, n, literals);
        assert forall|i: int| 0 <= i < n implies #[trigger] out[i] == normalized_call(
            i as nat,
            calls[i],
            literals,
        )->Some_0 by {
            if i < n - 1 {
                assert(before[i] == out[i]);
            }
        }
    }
}

/// Where every call names a function, all of them are kept, in order, each with its place for
/// its index.
pub proof fn law_all_calls_are_kept(calls: Seq<JsonView>, literals: bool, k: int)
    requires
        0 <= k < calls.len(),
        forall|i: int|
            0 <= i < calls.len() ==> normalized_call(i as nat, #[trigger] calls[i], literals) is Some,
    ensures
        normalized_calls(JsonView::Array(calls), literals).len() == calls.len(),
        normalized_calls(JsonView::Array(calls), literals)[k].field("index"@) == Some(
            JsonView::number(k as nat),
        ),
        normalized_calls(JsonView::Array(calls), literals)[k] == normalized_call(
            k as nat,
            calls[k],
            literals,
        )->Some_0,
{
    lemma_normalized_all(calls, calls.len(), literals);
    lemma_completion_keys();
    assert(normalized_call(k as nat, calls[k], literals) is Some);
}

/// A call keeps its id, its name without white space around it and its arguments, restored
/// where they may hold tokens; one that names no function is none.
pub proof fn law_call_keeps_what_it_says(
    index: nat,
    id: Seq<char>,
    name: Seq<char>,
    arguments: Seq<char>,
)
    requires
        id.len() > 0,
    ensures
        ({
            let call = stream::raw_call(id, name, JsonView::Text(arguments));
            &&& text::trim(name).len() == 0 ==> normalized_call(index, call, true) is None
            &&& text::trim(name).len() > 0 ==> {
                &&& normalized_call(index, call, false) is Some
                &&& normalized_call(index, call, true) is Some
                &&& normalized_call(index, call, true)->Some_0.text_field("id"@) == Some(id)
                &&& normalized_call(index, call, true)->Some_0.field("function"@) matches Some(f)
                    && f.text_field("name"@) == Some(text::trim(name)) && f.text_field(
                    "arguments"@,
                ) == Some(shield::unshield(arguments))
                &&& normalized_call(index, call, false)->Some_0.field("function"@) matches Some(f)
                    && f.text_field("arguments"@) == Some(arguments)
            }
        }),
{
    lemma_completion_keys();
    stream::law_raw_call_is_read(id, name, arguments, JsonView::Null);
}

/// A completion as events holds in its first chunk what its message says, in its second why it
/// ended, and is over behind them.
pub proof fn law_events_hold_the_completion(completion: JsonView, message: JsonView, why: JsonView)
    requires
        choice_of(completion, "message"@) == Some(message),
        choice_of(completion, "finish_reason"@) == Some(why),
    ensures
        ({
            let first = chunk_of(completion, delta_of(message), JsonView::Null);
            let last = chunk_of(completion, JsonView::object(), why);
            &&& text::begins(sse_of(completion), "data: "@ + json::compact_json(first))
            &&& text::has_match(sse_of(completion), "\n\ndata: "@ + json::compact_json(last))
            &&& text::finishes(sse_of(completion), "\n\n"@ + "data: [DONE]\n\n"@)
            &&& only_choice(first).field("delta"@) == Some(delta_of(message))
            &&& only_choice(last).field("finish_reason"@) == Some(why)
            &&& delta_of(message).field("content"@) == message.field("content"@)
            &&& delta_of(message).field("tool_calls"@) == message.field("tool_calls"@)
            &&& delta_of(message).text_field("role"@) == Some("assistant"@)
            &&& completion.field("id"@) is Some ==> first.field("id"@) == completion.field("id"@)
                && last.field("id"@) == completion.field("id"@)
            &&& completion.field("model"@) is Some ==> first.field("model"@) == completion.field(
                "model"@,
            )
        }),
{
    lemma_completion_keys();
    let first = chunk_of(completion, delta_of(message), JsonView::Null);
    let last = chunk_of(completion, JsonView::object(), why);
    let a = "data: "@ + json::compact_json(first);
    let b = "\n\ndata: "@ + json::compact_json(last);
    let z = "\n\n"@ + "data: [DONE]\n\n"@;
    let whole = sse_of(completion);
    assert(whole =~= a + (b + z));
    text::law_prefix(a, b + z, Seq::empty());
    assert(whole =~= a + b + z);
    text::law_holding(a, b, z, Seq::empty(), 0);
    assert(whole =~= (a + b) + z);
    text::law_prefix(z, a + b, Seq::empty());
}

/// A call without arguments has an empty object for them, one with a document has it in print,
/// and one without an id gets one.
pub proof fn law_missing_parts_of_a_call(call: JsonView, f: JsonView, arguments: JsonView)
    requires
        call.field("function"@) == Some(f),
    ensures
        f.field("arguments"@) is None ==> call_arguments(call) == "{}"@,
        f.field("arguments"@) == Some(arguments) && !(arguments is Text) ==> call_arguments(call)
            == json::compact_json(arguments),
        f.text_field("arguments"@) matches Some(t) ==> call_arguments(call) == t,
        call.text_field("id"@) is None ==> call_id(call) == "call_rlm_edge"@,
        call.text_field("id"@) == Some(Seq::<char>::empty()) ==> call_id(call) == "call_rlm_edge"@,
        call.text_field("id"@) matches Some(id) ==> (id.len() > 0 ==> call_id(call) == id),
{
}

/// A chunk is named for what it is, has one choice, and stands in for what a completion lacks.
pub proof fn law_chunks(completion: JsonView, delta: JsonView, finish: JsonView)
    ensures
        ({
            let c = chunk_of(completion, delta, finish);
            &&& c.text_field("object"@) == Some("chat.completion.chunk"@)
            &&& c.field("choices"@) matches Some(choices) && choices.items() matches Some(all)
                && all.len() == 1
            &&& only_choice(c).field("index"@) == Some(JsonView::number(0))
            &&& only_choice(c).field("delta"@) == Some(delta)
            &&& only_choice(c).field("finish_reason"@) == Some(finish)
            &&& completion.field("id"@) is None ==> c.text_field("id"@) == Some(
                "chatcmpl-rlm-edge"@,
            )
            &&& completion.field("created"@) is None ==> c.field("created"@) == Some(
                JsonView::number(0),
            )
            &&& completion.field("created"@) is Some ==> c.field("created"@) == completion.field(
                "created"@,
            )
            &&& completion.field("model"@) is None ==> c.text_field("model"@) == Some("rlm-edge"@)
        }),
{
    lemma_completion_keys();
}

/// A completion tells when it was made, in seconds, and that nothing was used where the worker
/// does not say what was.
pub proof fn law_completion_counts(
    worker: JsonView,
    model: Seq<char>,
    literals: bool,
    seconds: nat,
    rest: nat,
)
    requires
        rest < 1000,
    ensures
        completion_of(worker, model, literals, seconds * 1000 + rest).field("created"@) == Some(
            JsonView::number(seconds),
        ),
        only_choice(completion_of(worker, model, literals, seconds)).field("index"@) == Some(
            JsonView::number(0),
        ),
        worker.field("usage"@) is None ==> {
            &&& usage_of(worker).field("prompt_tokens"@) == Some(JsonView::number(0))
            &&& usage_of(worker).field("completion_tokens"@) == Some(JsonView::number(0))
            &&& usage_of(worker).field("total_tokens"@) == Some(JsonView::number(0))
        },
{
    lemma_completion_keys();
    lemma_usage_names();
    assert((seconds * 1000 + rest) / 1000 == seconds);
}

proof fn lemma_usage_names()
    ensures
        "prompt_tokens"@ != "completion_tokens"@,
        "prompt_tokens"@ != "total_tokens"@,
        "completion_tokens"@ != "total_tokens"@,
{
    reveal_strlit("prompt_tokens");
    reveal_strlit("completion_tokens");
    reveal_strlit("total_tokens");
    assert("prompt_tokens"@.len() == 13);
    assert("completion_tokens"@.len() == 17);
    assert("total_tokens"@.len() == 12);
}

/// An answer without a text, or with an empty one, has `null` for its content.
pub proof fn law_empty_answer(worker: JsonView, literals: bool)
    ensures
        worker.text_field("content"@) is None ==> answer_content(worker, literals) is Null,
        worker.text_field("content"@) == Some(Seq::<char>::empty()) ==> answer_content(
            worker,
            literals,
        ) is Null,
{
}

} // verus!
