//! The edge provider: budgets, shields, streams, completions and the proxy's answers.

use rlm_sandbox::edge::budget::{
    edge_completion_budget, edge_context_window, edge_infer_url, openai_requested_max_tokens,
    DEFAULT_EDGE_CONTEXT_WINDOW,
};
use rlm_sandbox::edge::completion::{
    edge_openai_completion, edge_openai_sse, normalize_edge_tool_calls,
};
use rlm_sandbox::edge::messages::{
    edge_artifact_messages, shield_json_strings, EDGE_ARTIFACT_LITERAL_INSTRUCTION,
};
use rlm_sandbox::edge::proxy::{
    edge_proxy_authorized, edge_proxy_finish, edge_proxy_forward, edge_proxy_route,
    edge_read_failure, edge_upstream_failure, EdgeProxyConfig, Forward,
};
use rlm_sandbox::edge::shield::{
    shield_edge_artifact_literals, unshield_edge_artifact_literals, EDGE_ARTIFACT_LITERAL_SHIELDS,
};
use rlm_sandbox::edge::stream::{
    edge_stream_completion, edge_stream_text, edge_stream_tool_call_arguments,
    edge_stream_tool_call_id, edge_stream_tool_call_index, edge_stream_tool_calls,
    is_complete_tool_arguments, merge_edge_stream_tool_call, next_edge_stream_tool_index,
    ToolCall,
};
use rlm_sandbox::http::{HttpMethod, HttpReply};
use rlm_sandbox::json::Json;
use serde_json::Value;
use std::collections::BTreeMap;

const NOW_MS: u128 = 1_752_900_000_123;

fn json(text: &str) -> Json {
    Json::parse(text).expect("JSON")
}

fn value(json: &Json) -> Value {
    serde_json::from_str(&json.compact()).expect("a value")
}

fn body_of(reply: &HttpReply) -> Value {
    serde_json::from_str(&reply.body).expect("a JSON body")
}

fn header(name: &str, value: &str) -> (String, String) {
    (name.to_string(), value.to_string())
}

fn proxy_config() -> EdgeProxyConfig {
    EdgeProxyConfig {
        worker_url: "https://edge.example.test".to_string(),
        owner_key: None,
        model_id: "@cf/test".to_string(),
        api_key: "k1".to_string(),
        context_window: 32_000,
    }
}

// ---------------------------------------------------------------------------
// Budget
// ---------------------------------------------------------------------------

#[test]
fn edge_budget_caps_opencode_default_against_shared_context() {
    // OpenCode asks for a 32k completion against the 32,768-token Qwen window.
    assert_eq!(edge_completion_budget(769 * 3, 32_000, 32_000).expect("budget"), 8_000);
    // Small/default edge models automatically get a proportionally smaller
    // task turn instead of inheriting the Qwen limit.
    assert_eq!(edge_completion_budget(100, 32_000, 7_968).expect("budget"), 1_992);
}

#[test]
fn edge_budget_refuses_a_request_that_fills_its_window() {
    assert_eq!(
        edge_completion_budget(100_000, 8_192, 7_968),
        Err("edge task request is too large for its 7968-token shared context window before a completion can be reserved".to_string()),
    );
    // 7968 - (13375 + 1) / 2 - 1024 is 256, the least that is still asked for
    assert_eq!(edge_completion_budget(13_375, 8_192, 7_968), Ok(256));
    assert_eq!(edge_completion_budget(13_376, 8_192, 7_968), Ok(256));
    assert!(edge_completion_budget(13_377, 8_192, 7_968).is_err());
    assert!(edge_completion_budget(usize::MAX, 8_192, 7_968).is_err());
}

#[test]
fn edge_budget_never_exceeds_what_was_asked_or_the_task_cap() {
    assert_eq!(edge_completion_budget(0, 10, 32_000), Ok(10));
    assert_eq!(edge_completion_budget(0, 1_000_000, 1_000_000), Ok(8_192));
    assert_eq!(edge_completion_budget(0, 1_000_000, 2_048), Ok(512));
    // a window too small to be true stands for the default one
    assert_eq!(edge_completion_budget(0, 1_000_000, 1), Ok(1_992));
}

#[test]
fn edge_window_is_stated_or_default() {
    assert_eq!(edge_context_window(None), DEFAULT_EDGE_CONTEXT_WINDOW);
    assert_eq!(edge_context_window(Some(2_047)), 7_968);
    assert_eq!(edge_context_window(Some(2_048)), 2_048);
    assert_eq!(edge_context_window(Some(32_768)), 32_768);
}

#[test]
fn requested_tokens_come_from_either_field() {
    assert_eq!(openai_requested_max_tokens(&json("{\"max_tokens\":5}")), 5);
    assert_eq!(openai_requested_max_tokens(&json("{\"max_completion_tokens\":6}")), 6);
    assert_eq!(
        openai_requested_max_tokens(&json("{\"max_tokens\":5,\"max_completion_tokens\":6}")),
        5,
    );
    for odd in ["{}", "{\"max_tokens\":0}", "{\"max_tokens\":-3}", "{\"max_tokens\":1.5}",
        "{\"max_tokens\":\"9\"}", "{\"max_tokens\":null,\"max_completion_tokens\":6}", "[]"]
    {
        assert_eq!(openai_requested_max_tokens(&json(odd)), 8_192, "{odd}");
    }
}

#[test]
fn infer_url_ends_in_infer_once() {
    assert_eq!(edge_infer_url(" https://w.test// "), Ok("https://w.test/infer".to_string()));
    assert_eq!(edge_infer_url("http://w.test/infer/"), Ok("http://w.test/infer".to_string()));
    assert_eq!(edge_infer_url("https://w.test/infer"), Ok("https://w.test/infer".to_string()));
    assert_eq!(
        edge_infer_url("ftp://w.test"),
        Err("edge worker URL must start with http:// or https://".to_string()),
    );
}

// ---------------------------------------------------------------------------
// Shields
// ---------------------------------------------------------------------------

#[test]
fn edge_artifact_literal_shield_round_trips_source_and_tool_arguments() {
    let source = "return s.replace(/<think>[\\s\\S]*?<\\/think>/gi, '').trim();";
    let protected = shield_edge_artifact_literals(source);
    assert!(!protected.contains("<think>"));
    assert!(!protected.contains("</think>"));
    assert_eq!(unshield_edge_artifact_literals(&protected), source);

    let open = EDGE_ARTIFACT_LITERAL_SHIELDS[0].1;
    let close = EDGE_ARTIFACT_LITERAL_SHIELDS[1].1;
    let arguments = format!(r#"{{"content":"{open}hidden{close}"}}"#);
    let worker = Json::object()
        .put("content", Json::text(&format!("source {open}hidden{close}")))
        .put(
            "tool_calls",
            Json::Array(vec![Json::object().put("id", Json::text("call_write")).put(
                "function",
                Json::object()
                    .put("name", Json::text("write"))
                    .put("arguments", Json::text(&arguments)),
            )]),
        );
    let completion = value(&edge_openai_completion(&worker, "@cf/test", true, NOW_MS));
    assert_eq!(completion["choices"][0]["message"]["content"], "source <think>hidden</think>");
    assert_eq!(
        completion["choices"][0]["message"]["tool_calls"][0]["function"]["arguments"],
        r#"{"content":"<think>hidden</think>"}"#,
    );
}

#[test]
fn every_shield_hides_its_markup_and_gives_it_back() {
    let mut all = String::new();
    for (literal, token) in EDGE_ARTIFACT_LITERAL_SHIELDS {
        assert_eq!(shield_edge_artifact_literals(literal), token);
        assert_eq!(unshield_edge_artifact_literals(token), literal);
        all.push_str(literal);
        all.push_str("<x>");
    }
    let shielded = shield_edge_artifact_literals(&all);
    for (literal, _) in EDGE_ARTIFACT_LITERAL_SHIELDS {
        assert!(!shielded.contains(literal));
    }
    assert_eq!(unshield_edge_artifact_literals(&shielded), all);
    // markup that only the removal of other markup could make up does not come about
    let nested = "<thi<think>nk>";
    assert_eq!(unshield_edge_artifact_literals(&shield_edge_artifact_literals(nested)), nested);
}

#[test]
fn a_text_that_already_holds_a_token_is_restored_to_markup() {
    let token = EDGE_ARTIFACT_LITERAL_SHIELDS[0].1;
    assert_eq!(
        unshield_edge_artifact_literals(&shield_edge_artifact_literals(token)),
        "<think>",
    );
}

#[test]
fn shielding_a_document_leaves_its_keys_and_numbers() {
    let shielded = shield_json_strings(&json(
        "{\"<think>\":[\"a<think>\",1,-2,0.5,true,null,{\"k\":\"</analysis>\"}]}",
    ));
    let token = EDGE_ARTIFACT_LITERAL_SHIELDS[0].1;
    let closing = EDGE_ARTIFACT_LITERAL_SHIELDS[3].1;
    assert_eq!(
        value(&shielded),
        serde_json::from_str::<Value>(&format!(
            "{{\"<think>\":[\"a{token}\",1,-2,0.5,true,null,{{\"k\":\"{closing}\"}}]}}"
        )).unwrap(),
    );
}

#[test]
fn messages_start_with_the_instruction() {
    let sent = value(&edge_artifact_messages(&json("[{\"role\":\"user\",\"content\":\"<think>\"}]")));
    assert_eq!(sent.as_array().unwrap().len(), 2);
    assert_eq!(sent[0]["role"], "system");
    assert_eq!(sent[0]["content"], EDGE_ARTIFACT_LITERAL_INSTRUCTION);
    assert_eq!(sent[1]["content"], EDGE_ARTIFACT_LITERAL_SHIELDS[0].1);
    // anything but a list of messages is none
    let none = value(&edge_artifact_messages(&Json::Null));
    assert_eq!(none.as_array().unwrap().len(), 1);
}

// ---------------------------------------------------------------------------
// Streams
// ---------------------------------------------------------------------------

#[test]
fn edge_stream_completion_uses_openai_delta_when_legacy_response_is_empty() {
    let worker = value(&edge_stream_completion(
        "data: {\"response\":\"\",\"choices\":[{\"delta\":{\"content\":\"\"}}]}\n\n\
         data: {\"response\":\"OK\",\"choices\":[{\"delta\":{\"content\":\"OK\"}}]}\n\n\
         data: [DONE]\n",
    ).expect("stream completion"));
    assert_eq!(worker["content"], "OK");
    assert_eq!(worker["tool_calls"], Value::Array(Vec::new()));
}

#[test]
fn edge_stream_completion_merges_fragmented_tool_arguments() {
    let worker = edge_stream_completion(
        "data: {\"choices\":[{\"delta\":{\"tool_calls\":[{\"index\":0,\"id\":\"call_1\",\"function\":{\"name\":\"read\",\"arguments\":\"{\\\"path\\\":\\\"\"}}]}}]}\n\n\
         data: {\"choices\":[{\"delta\":{\"tool_calls\":[{\"index\":0,\"function\":{\"arguments\":\"src/a.ts\\\"}\"}}]}}]}\n\n\
         data: [DONE]\n",
    ).expect("stream tool completion");
    let calls = normalize_edge_tool_calls(worker.get("tool_calls").expect("tool calls"), false);
    let call = value(&calls[0]);
    assert_eq!(call["function"]["name"], "read");
    assert_eq!(call["function"]["arguments"], r#"{"path":"src/a.ts"}"#);
}

#[test]
fn edge_stream_completion_keeps_unindexed_complete_tool_calls_separate() {
    let payload = format!(
        "{}\n\n{}\n\n{}",
        r#"data: {"tool_calls":[{"function":{"name":"read","arguments":"{\"filePath\":\"src/a.ts\"}"}}]}"#,
        r#"data: {"tool_calls":[{"function":{"name":"read","arguments":"{\"filePath\":\"src/b.ts\"}"}}]}"#,
        "data: [DONE]\n",
    );
    let worker = edge_stream_completion(&payload).expect("stream tool completion");
    let calls = normalize_edge_tool_calls(worker.get("tool_calls").expect("tool calls"), false);
    assert_eq!(calls.len(), 2);
    assert_eq!(value(&calls[0])["function"]["arguments"], r#"{"filePath":"src/a.ts"}"#);
    assert_eq!(value(&calls[1])["function"]["arguments"], r#"{"filePath":"src/b.ts"}"#);
}

#[test]
fn stream_errors_end_the_completion() {
    assert_eq!(
        edge_stream_completion("data: {\"error\":{\"message\":\"8007\"}}\n"),
        Err("8007".to_string()),
    );
    assert_eq!(
        edge_stream_completion("data: {\"error\":\"plain\"}\n"),
        Err("\"plain\"".to_string()),
    );
    assert_eq!(
        edge_stream_completion("\n data: \n[DONE]\ndata: [DONE]\n"),
        Err("Workers AI stream contained no JSON events".to_string()),
    );
    let error = edge_stream_completion("data: {not json}\n").unwrap_err();
    assert!(error.starts_with("invalid Workers AI stream chunk: "), "{error}");
    assert!(error.len() > "invalid Workers AI stream chunk: ".len());
}

#[test]
fn stream_text_takes_the_first_source_that_says_something() {
    let cases = [
        ("{\"choices\":[{\"delta\":{\"content\":\"a\"},\"message\":{\"content\":\"b\"}}],\"response\":\"c\"}", "a"),
        ("{\"choices\":[{\"delta\":{\"content\":\"\"},\"message\":{\"content\":\"b\"}}],\"response\":\"c\"}", "b"),
        ("{\"response\":\"c\",\"content\":\"d\"}", "c"),
        ("{\"content\":\"d\",\"delta\":\"e\"}", "d"),
        ("{\"delta\":\"e\"}", "e"),
        ("{\"delta\":{\"content\":\"e\"}}", ""),
        ("{\"choices\":{\"0\":{\"delta\":{\"content\":\"keyed\"}}}}", "keyed"),
        ("7", ""),
    ];
    for (chunk, expected) in cases {
        assert_eq!(edge_stream_text(&json(chunk)), expected, "{chunk}");
    }
}

#[test]
fn stream_calls_come_from_the_chunk_its_delta_or_its_message() {
    let top = edge_stream_tool_calls(&json("{\"tool_calls\":[1],\"choices\":[{\"delta\":{\"tool_calls\":[2]}}]}"));
    assert_eq!(top, vec![Json::Unsigned(1)]);
    let delta = edge_stream_tool_calls(&json("{\"tool_calls\":{},\"choices\":[{\"delta\":{\"tool_calls\":[2]}}]}"));
    assert_eq!(delta, vec![Json::Unsigned(2)]);
    let message = edge_stream_tool_calls(&json("{\"choices\":[{\"message\":{\"tool_calls\":[3]}}]}"));
    assert_eq!(message, vec![Json::Unsigned(3)]);
    assert!(edge_stream_tool_calls(&json("{}")).is_empty());
}

#[test]
fn call_parts_are_read_leniently() {
    assert_eq!(
        edge_stream_tool_call_arguments(&json("{\"function\":{\"arguments\":{\"b\":1,\"a\":2}}}")),
        "{\"a\":2,\"b\":1}",
    );
    assert_eq!(edge_stream_tool_call_arguments(&json("{\"arguments\":\"x\"}")), "x");
    assert_eq!(edge_stream_tool_call_arguments(&json("{\"function\":{}}")), "");
    assert_eq!(edge_stream_tool_call_id(&json("{\"id\":\"i\"}")), Some("i".to_string()));
    assert_eq!(edge_stream_tool_call_id(&json("{\"id\":\"\"}")), None);
    assert_eq!(edge_stream_tool_call_id(&json("{\"id\":3}")), None);
    assert!(is_complete_tool_arguments(" {\"a\":1} "));
    assert!(!is_complete_tool_arguments("{\"a\":"));
    assert!(!is_complete_tool_arguments("[1]"));
    assert!(!is_complete_tool_arguments(""));
}

#[test]
fn calls_are_told_apart_by_id_by_index_and_by_whole_arguments() {
    let mut slots: BTreeMap<usize, ToolCall> = BTreeMap::new();
    assert_eq!(next_edge_stream_tool_index(&slots), 0);
    let first = json("{\"id\":\"a\",\"index\":4,\"function\":{\"name\":\"read\",\"arguments\":\"{\\\"p\\\":\"}}");
    let index = edge_stream_tool_call_index(&slots, 0, &first);
    assert_eq!(index, 4);
    merge_edge_stream_tool_call(&mut slots, index, &first);
    assert_eq!(next_edge_stream_tool_index(&slots), 5);
    // a later fragment of the same call
    let rest = json("{\"index\":4,\"function\":{\"arguments\":\"1}\"}}");
    assert_eq!(edge_stream_tool_call_index(&slots, 0, &rest), 4);
    merge_edge_stream_tool_call(&mut slots, 4, &rest);
    assert_eq!(slots[&4].arguments, "{\"p\":1}");
    assert_eq!(slots[&4].name, "read");
    assert_eq!(slots[&4].id, "a");
    // the same id leads back to its slot, another id at the same index does not
    assert_eq!(edge_stream_tool_call_index(&slots, 0, &json("{\"id\":\"a\",\"index\":9}")), 4);
    assert_eq!(edge_stream_tool_call_index(&slots, 0, &json("{\"id\":\"b\",\"index\":4}")), 5);
    // whole arguments that differ are another call, the same ones are not
    assert_eq!(
        edge_stream_tool_call_index(&slots, 4, &json("{\"arguments\":\"{\\\"p\\\":2}\"}")),
        5,
    );
    assert_eq!(
        edge_stream_tool_call_index(&slots, 4, &json("{\"arguments\":\"{\\\"p\\\":1}\"}")),
        4,
    );
}

#[test]
fn merging_repeats_extensions_and_fragments() {
    let mut slots: BTreeMap<usize, ToolCall> = BTreeMap::new();
    merge_edge_stream_tool_call(&mut slots, 2, &json("{\"function\":{\"arguments\":\"ab\"}}"));
    assert_eq!(slots[&2].id, "call_rlm_edge_2");
    assert_eq!(slots[&2].name, "");
    // a repeat changes nothing, an extension takes over, a known end adds nothing
    merge_edge_stream_tool_call(&mut slots, 2, &json("{\"function\":{\"arguments\":\"ab\"}}"));
    assert_eq!(slots[&2].arguments, "ab");
    merge_edge_stream_tool_call(&mut slots, 2, &json("{\"function\":{\"arguments\":\"abc\"}}"));
    assert_eq!(slots[&2].arguments, "abc");
    merge_edge_stream_tool_call(&mut slots, 2, &json("{\"function\":{\"arguments\":\"bc\"}}"));
    assert_eq!(slots[&2].arguments, "abc");
    merge_edge_stream_tool_call(&mut slots, 2, &json("{\"function\":{\"arguments\":\"d\"}}"));
    assert_eq!(slots[&2].arguments, "abcd");
    // slots stay in the order of their indexes
    merge_edge_stream_tool_call(&mut slots, 0, &json("{\"id\":\"z\",\"name\":\"n\"}"));
    assert_eq!(slots.keys().copied().collect::<Vec<_>>(), vec![0, 2]);
    assert_eq!(slots[&0].id, "z");
    assert_eq!(slots[&0].name, "n");
}

// ---------------------------------------------------------------------------
// Completions
// ---------------------------------------------------------------------------

#[test]
fn edge_response_becomes_openai_completion_with_tool_call() {
    let completion = value(&edge_openai_completion(
        &json(
            "{\"content\":\"\",\"tool_calls\":[{\"id\":\"call_1\",\"type\":\"function\",\
             \"function\":{\"name\":\"read\",\"arguments\":{\"path\":\"src/a.ts\"}}}]}",
        ),
        "@cf/qwen/qwen3-30b-a3b-fp8",
        false,
        NOW_MS,
    ));

    assert_eq!(completion["object"], "chat.completion");
    assert_eq!(completion["choices"][0]["finish_reason"], "tool_calls");
    assert_eq!(completion["choices"][0]["message"]["tool_calls"][0]["function"]["name"], "read");
    assert_eq!(
        completion["choices"][0]["message"]["tool_calls"][0]["function"]["arguments"],
        r#"{"path":"src/a.ts"}"#,
    );
}

#[test]
fn edge_response_stream_is_valid_openai_sse_shape() {
    let completion = edge_openai_completion(&json("{\"content\":\"hello\"}"), "@cf/test", false, NOW_MS);
    let stream = edge_openai_sse(&completion);
    assert!(stream.contains("chat.completion.chunk"));
    assert!(stream.contains(r#""content":"hello""#));
    assert!(stream.ends_with("data: [DONE]\n\n"));
}

#[test]
fn completion_is_stamped_and_counts_nothing_by_default() {
    let completion = value(&edge_openai_completion(&json("{\"content\":\"hi\"}"), "m", false, NOW_MS));
    assert_eq!(completion["id"], "chatcmpl-rlm-edge-1752900000123");
    assert_eq!(completion["created"], 1_752_900_000u64);
    assert_eq!(completion["model"], "m");
    assert_eq!(completion["choices"][0]["finish_reason"], "stop");
    assert_eq!(completion["choices"][0]["message"]["content"], "hi");
    assert!(completion["choices"][0]["message"].get("tool_calls").is_none());
    assert_eq!(completion["usage"]["total_tokens"], 0);
    let used = value(&edge_openai_completion(&json("{\"usage\":{\"total_tokens\":9}}"), "m", false, NOW_MS));
    assert_eq!(used["usage"]["total_tokens"], 9);
    assert_eq!(used["choices"][0]["message"]["content"], Value::Null);
}

#[test]
fn calls_without_a_name_are_dropped_but_still_end_the_turn() {
    let worker = json("{\"tool_calls\":[{\"function\":{\"name\":\"  \"}},{\"name\":\" read \"}]}");
    let calls = normalize_edge_tool_calls(worker.get("tool_calls").unwrap(), false);
    assert_eq!(calls.len(), 1);
    let call = value(&calls[0]);
    assert_eq!(call["index"], 1);
    assert_eq!(call["id"], "call_rlm_edge");
    assert_eq!(call["function"]["name"], "read");
    assert_eq!(call["function"]["arguments"], "{}");
    let nameless = value(&edge_openai_completion(&json("{\"tool_calls\":[{}]}"), "m", false, NOW_MS));
    assert_eq!(nameless["choices"][0]["finish_reason"], "tool_calls");
    assert!(nameless["choices"][0]["message"].get("tool_calls").is_none());
}

#[test]
fn sse_has_a_chunk_with_the_message_and_a_chunk_with_the_end() {
    let completion = edge_openai_completion(
        &json("{\"content\":\"hello\",\"tool_calls\":[{\"id\":\"c\",\"name\":\"read\"}]}"),
        "@cf/test",
        false,
        NOW_MS,
    );
    let events = edge_openai_sse(&completion);
    let chunks: Vec<&str> = events.split("\n\n").collect();
    assert_eq!(chunks.len(), 4);
    let first: Value = serde_json::from_str(chunks[0].strip_prefix("data: ").unwrap()).unwrap();
    let last: Value = serde_json::from_str(chunks[1].strip_prefix("data: ").unwrap()).unwrap();
    assert_eq!(chunks[2], "data: [DONE]");
    assert_eq!(chunks[3], "");
    assert_eq!(first["choices"][0]["delta"]["role"], "assistant");
    assert_eq!(first["choices"][0]["delta"]["content"], "hello");
    assert_eq!(first["choices"][0]["delta"]["tool_calls"][0]["function"]["name"], "read");
    assert_eq!(first["choices"][0]["finish_reason"], Value::Null);
    assert_eq!(last["choices"][0]["delta"], Value::Object(serde_json::Map::new()));
    assert_eq!(last["choices"][0]["finish_reason"], "tool_calls");
    assert_eq!(first["id"], last["id"]);
}

#[test]
fn sse_of_a_bare_document_uses_stand_ins() {
    let events = edge_openai_sse(&Json::object());
    let first: Value = serde_json::from_str(
        events.split("\n\n").next().unwrap().strip_prefix("data: ").unwrap(),
    ).unwrap();
    assert_eq!(first["id"], "chatcmpl-rlm-edge");
    assert_eq!(first["model"], "rlm-edge");
    assert_eq!(first["created"], 0);
    let last: Value = serde_json::from_str(
        events.split("\n\n").nth(1).unwrap().strip_prefix("data: ").unwrap(),
    ).unwrap();
    assert_eq!(last["choices"][0]["finish_reason"], "stop");
}

// ---------------------------------------------------------------------------
// Proxy
// ---------------------------------------------------------------------------

#[test]
fn edge_proxy_adapts_the_worker_contract_to_openai_chat() {
    let cfg = proxy_config();
    let headers = vec![header("Authorization", "Bearer k1")];
    assert!(edge_proxy_route(&cfg, HttpMethod::Post, "/v1/chat/completions", &headers).is_none());
    let request = "{\"model\":\"@cf/test\",\"messages\":[{\"role\":\"user\",\"content\":\"hello <think>\"}],\"max_tokens\":32000}";
    let forward: Forward = match edge_proxy_forward(&cfg, request) {
        Ok(forward) => forward,
        Err(_) => panic!("forwarded"),
    };
    assert_eq!(forward.url, "https://edge.example.test/infer");
    assert!(!forward.wants_stream);
    let body = value(&forward.body);
    assert_eq!(body["model"], "@cf/test");
    assert_eq!(body["max_tokens"], 8_000);
    assert_eq!(body["output_mode"], "artifact");
    assert_eq!(body["stream"], true);
    assert_eq!(body["chat_template_kwargs"]["enable_thinking"], false);
    let messages = body["messages"].as_array().expect("messages");
    assert_eq!(messages[0]["role"], "system");
    assert!(messages[1]["content"].as_str().expect("content").contains(EDGE_ARTIFACT_LITERAL_SHIELDS[0].1));
    assert!(body.get("ownerKey").is_none());

    let answer = format!(
        r#"{{"content":"edge {} reply","tool_calls":[]}}"#,
        EDGE_ARTIFACT_LITERAL_SHIELDS[0].1,
    );
    let reply = edge_proxy_finish(&cfg, false, 200, &answer, NOW_MS);
    assert_eq!(reply.status, 200);
    assert!(reply.headers.contains(&header("Content-Type", "application/json")));
    let response = body_of(&reply);
    assert_eq!(response["object"], "chat.completion");
    assert_eq!(response["choices"][0]["message"]["content"], "edge <think> reply");
}

#[test]
fn proxy_takes_only_its_own_key() {
    let cfg = proxy_config();
    assert!(edge_proxy_authorized(&vec![header("authorization", "Bearer k1")], "k1"));
    assert!(edge_proxy_authorized(
        &vec![header("Authorization", "x"), header("AUTHORIZATION", "Bearer k1")],
        "k1",
    ));
    for wrong in ["Bearer k2", "bearer k1", "k1", "Bearer k1 ", ""] {
        let headers = vec![header("Authorization", wrong)];
        assert!(!edge_proxy_authorized(&headers, "k1"), "{wrong}");
        let reply = edge_proxy_route(&cfg, HttpMethod::Post, "/v1/chat/completions", &headers)
            .expect("a refusal");
        assert_eq!(reply.status, 401);
        assert_eq!(body_of(&reply)["error"]["message"], "unauthorized task proxy");
    }
    assert_eq!(
        edge_proxy_route(&cfg, HttpMethod::Get, "/v1/models", &Vec::new()).expect("a refusal").status,
        401,
    );
}

#[test]
fn proxy_lists_its_model_and_knows_no_other_route() {
    let cfg = proxy_config();
    let headers = vec![header("Authorization", "Bearer k1")];
    for url in ["/v1/models", "/models?x=1"] {
        let reply = edge_proxy_route(&cfg, HttpMethod::Get, url, &headers).expect("a list");
        assert_eq!(reply.status, 200);
        let list = body_of(&reply);
        assert_eq!(list["object"], "list");
        assert_eq!(list["data"][0]["id"], "@cf/test");
        assert_eq!(list["data"][0]["owned_by"], "rlmlocal-edge");
    }
    assert!(edge_proxy_route(&cfg, HttpMethod::Post, "/chat/completions?q", &headers).is_none());
    for (method, url) in [
        (HttpMethod::Post, "/v1/models"),
        (HttpMethod::Get, "/v1/chat/completions"),
        (HttpMethod::Post, "/v1/embeddings"),
        (HttpMethod::Other, "/models"),
    ] {
        let reply = edge_proxy_route(&cfg, method, url, &headers).expect("a refusal");
        assert_eq!(reply.status, 404);
        assert_eq!(body_of(&reply)["error"]["message"], "unsupported edge proxy route");
    }
}

#[test]
fn forwarding_carries_the_options_and_the_owner_key() {
    let mut cfg = proxy_config();
    cfg.owner_key = Some("secret".to_string());
    let forward = match edge_proxy_forward(
        &cfg,
        "{\"stream\":true,\"tools\":[{\"d\":\"<tool_call>\"}],\"temperature\":0.5,\"top_p\":1,\"stop\":\"<think>\",\"other\":1}",
    ) {
        Ok(forward) => forward,
        Err(_) => panic!("forwarded"),
    };
    assert!(forward.wants_stream);
    assert_eq!(forward.owner_key, Some("secret".to_string()));
    let body = value(&forward.body);
    assert_eq!(body["ownerKey"], "secret");
    assert_eq!(body["tools"][0]["d"], EDGE_ARTIFACT_LITERAL_SHIELDS[4].1);
    assert_eq!(body["temperature"], 0.5);
    assert_eq!(body["top_p"], 1);
    // only the tools are shielded
    assert_eq!(body["stop"], "<think>");
    assert!(body.get("other").is_none());
    assert_eq!(body["messages"].as_array().unwrap().len(), 1);
    cfg.owner_key = Some("  ".to_string());
    let bare = match edge_proxy_forward(&cfg, "{}") {
        Ok(forward) => forward,
        Err(_) => panic!("forwarded"),
    };
    assert_eq!(bare.owner_key, None);
    assert!(value(&bare.body).get("ownerKey").is_none());
}

#[test]
fn forwarding_refuses_what_it_cannot_send() {
    let cfg = proxy_config();
    let bad = edge_proxy_forward(&cfg, "{").err().expect("a refusal");
    assert_eq!(bad.status, 400);
    assert!(body_of(&bad)["error"]["message"].as_str().unwrap().starts_with("invalid OpenAI request: "));
    let long = format!("\"{}\"", "x".repeat(70_000));
    let large = edge_proxy_forward(&cfg, &long).err().expect("a refusal");
    assert_eq!(large.status, 400);
    assert_eq!(
        body_of(&large)["error"]["message"],
        "edge task request is too large for its 32000-token shared context window before a completion can be reserved",
    );
    let mut nowhere = proxy_config();
    nowhere.worker_url = "edge.example.test".to_string();
    let lost = edge_proxy_forward(&nowhere, "{}").err().expect("a refusal");
    assert_eq!(lost.status, 500);
    assert_eq!(
        body_of(&lost)["error"]["message"],
        "edge worker URL must start with http:// or https://",
    );
    assert_eq!(edge_read_failure("gone").status, 400);
    assert_eq!(body_of(&edge_read_failure("gone"))["error"]["message"], "read request: gone");
    assert_eq!(edge_upstream_failure("down").status, 502);
    assert_eq!(
        body_of(&edge_upstream_failure("down"))["error"]["message"],
        "edge inference request failed: down",
    );
}

#[test]
fn finishing_answers_in_the_shape_that_was_asked_for() {
    let cfg = proxy_config();
    let streamed = edge_proxy_finish(&cfg, true, 200, "{\"response\":\"hi\"}", NOW_MS);
    assert_eq!(streamed.status, 200);
    assert!(streamed.headers.contains(&header("Content-Type", "text/event-stream")));
    assert!(streamed.headers.contains(&header("Cache-Control", "no-cache")));
    assert!(streamed.body.starts_with("data: {"));
    assert!(streamed.body.ends_with("data: [DONE]\n\n"));
    let refused = edge_proxy_finish(&cfg, false, 429, "{\"response\":\"hi\"}", NOW_MS);
    assert_eq!(refused.status, 429);
    assert_eq!(body_of(&refused)["error"]["message"], "edge inference failed");
    let broken = edge_proxy_finish(&cfg, false, 200, "{\"error\":{\"message\":\"8007\"}}", NOW_MS);
    assert_eq!(broken.status, 400);
    assert_eq!(body_of(&broken)["error"]["message"], "8007");
    let failed = edge_proxy_finish(&cfg, true, 503, "oops", NOW_MS);
    assert_eq!(failed.status, 503);
}
