//! The HTTP bridge and the values that it speaks in.

use rlm_sandbox::bridge::{
    bridge_call, bridge_gate, bridge_reply, bridge_route, cors_response, is_allowed_origin,
    BridgeCall, BridgeGate, BRIDGE_PORT,
};
use rlm_sandbox::digits::{hex_text, number_text, parse_number};
use rlm_sandbox::http::{
    carries_header, find_header, reply_error, reply_json, request_path, HttpMethod, HttpReply,
};
use rlm_sandbox::json::Json;
use rlm_sandbox::order::comes_before;
use rlm_sandbox::random::{edge_proxy_token, exec_token, token_of_bytes};
use rlm_sandbox::script::{
    compute_refactor_inner, resolve_types_inner, script_document, script_output, Position,
};
use rlm_sandbox::text::{
    contains, count_matches, head, join, lines, lowered, replaced, replaced_once, split_on, tail,
    trim_class, words, CharClass,
};
use serde_json::Value;

fn header(name: &str, value: &str) -> (String, String) {
    (name.to_string(), value.to_string())
}

fn text(t: &str) -> Option<String> {
    Some(t.to_string())
}

fn json(text: &str) -> Json {
    Json::parse(text).expect("JSON")
}

fn origin_of(reply: &HttpReply) -> Option<String> {
    find_header(&reply.headers, "Access-Control-Allow-Origin")
}

// ---------------------------------------------------------------------------
// Origins and admission
// ---------------------------------------------------------------------------

#[test]
fn only_known_origins_are_allowed() {
    for site in ["https://rlmlocal.com", "https://www.rlmlocal.com",
        "https://rlmlocal-site.pages.dev"]
    {
        for release in [false, true] {
            assert!(is_allowed_origin(site, release), "{site}");
            assert_eq!(origin_of(&cors_response("x", 200, &text(site), release)), text(site));
        }
    }
    // this machine's own pages may call the bridge only while it is being developed
    for local in ["http://localhost", "http://127.0.0.1", "http://localhost:5173",
        "http://127.0.0.1:1420"]
    {
        assert!(is_allowed_origin(local, false), "{local}");
        assert!(!is_allowed_origin(local, true), "{local}");
        assert_eq!(origin_of(&cors_response("x", 200, &text(local), false)), text(local));
        assert_eq!(origin_of(&cors_response("x", 200, &text(local), true)), None);
    }
    for refused in ["http://rlmlocal.com", "https://rlmlocal.com.evil.test", "https://localhost",
        "http://localhost.evil.test", "*", "null", ""]
    {
        for release in [false, true] {
            assert!(!is_allowed_origin(refused, release), "{refused}");
            assert_eq!(origin_of(&cors_response("x", 200, &text(refused), release)), None);
        }
    }
    assert_eq!(origin_of(&cors_response("x", 200, &None, false)), None);
    assert_eq!(BRIDGE_PORT, 1421);
}

#[test]
fn every_reply_has_the_fixed_headers() {
    let reply = cors_response("body", 418, &text("http://localhost"), false);
    assert_eq!(
        reply.headers,
        vec![
            header("Access-Control-Allow-Methods", "GET, POST, OPTIONS"),
            header("Access-Control-Allow-Headers", "Content-Type, X-RLM-Token"),
            header("Access-Control-Allow-Private-Network", "true"),
            header("Content-Type", "application/json"),
            header("Access-Control-Allow-Origin", "http://localhost"),
        ],
    );
    assert_eq!((reply.status, reply.body.as_str()), (418, "body"));
}

#[test]
fn a_release_build_runs_nothing_for_an_unpaired_caller() {
    let site = "https://rlmlocal.com";
    let paired = vec![header("Origin", site), header("x-rlm-token", "secret")];
    let wrong = vec![header("Origin", site), header("X-RLM-Token", "Secret")];
    assert!(matches!(
        bridge_gate(HttpMethod::Post, &paired, true, "secret"),
        BridgeGate::Serve { is_post: true }
    ));
    match bridge_gate(HttpMethod::Post, &wrong, true, "secret") {
        BridgeGate::Reply(reply) => {
            assert_eq!(reply.status, 401);
            assert_eq!(
                reply.body,
                "{\"error\":\"unpaired executor — pair it with the code shown on launch\"}",
            );
            assert_eq!(origin_of(&reply), text(site));
        }
        BridgeGate::Serve { .. } => panic!("refused"),
    }
    match bridge_gate(HttpMethod::Get, &Vec::new(), true, "secret") {
        BridgeGate::Reply(reply) => assert_eq!(reply.status, 401),
        BridgeGate::Serve { .. } => panic!("refused"),
    }
    assert!(matches!(
        bridge_gate(HttpMethod::Post, &Vec::new(), true, "secret"),
        BridgeGate::Reply(_)
    ));
    // a debug build needs no code
    assert!(matches!(
        bridge_gate(HttpMethod::Post, &wrong, false, "secret"),
        BridgeGate::Serve { is_post: true }
    ));
    assert!(matches!(
        bridge_gate(HttpMethod::Get, &Vec::new(), false, "secret"),
        BridgeGate::Serve { is_post: false }
    ));
    match bridge_gate(HttpMethod::Options, &wrong, true, "secret") {
        BridgeGate::Reply(reply) => assert_eq!((reply.status, reply.body.as_str()), (200, "")),
        BridgeGate::Serve { .. } => panic!("a preflight"),
    }
}

#[test]
fn errors_are_told_in_a_document() {
    assert_eq!(bridge_reply(Ok("{}".to_string()), &None, true).body, "{}");
    let failed = bridge_reply(Err("not \"found\"".to_string()), &None, true);
    assert_eq!((failed.status, failed.body.as_str()), (200, "{\"error\":\"not \\\"found\\\"\"}"));
}

// ---------------------------------------------------------------------------
// Calls
// ---------------------------------------------------------------------------

#[test]
fn only_a_post_asks_for_anything() {
    assert!(matches!(bridge_route(false, "/run_tests", "{}"), BridgeCall::NotFound));
    assert!(matches!(
        bridge_route(true, "/run_tests?x", "{\"projectPath\":\"/p\"}"),
        BridgeCall::RunTests { project_path: Some(p) } if p == "/p"
    ));
    assert!(matches!(
        bridge_route(true, "/run_tests", "not json"),
        BridgeCall::RunTests { project_path: None }
    ));
    assert!(matches!(bridge_route(true, "/run", "{}"), BridgeCall::NotFound));
}

#[test]
fn patches_carry_their_edits() {
    let v = json("{\"projectPath\":\"/p\",\"file\":\"a\",\"search\":\"s\",\"replace\":\"r\",\"edits\":[1],\"message\":\"m\"}");
    match bridge_call("/verify_patch", &v) {
        BridgeCall::VerifyPatch { project_path, file, search, replace, edits } => {
            assert_eq!((project_path, file.as_str()), (text("/p"), "a"));
            assert_eq!((search, replace), (text("s"), text("r")));
            assert_eq!(edits, Some(Json::Array(vec![Json::Unsigned(1)])));
        }
        _ => panic!("a verification"),
    }
    match bridge_call("/apply_patch", &v) {
        BridgeCall::ApplyPatch { file, message, .. } => {
            assert_eq!((file.as_str(), message), ("a", text("m")));
        }
        _ => panic!("a patch"),
    }
    match bridge_call("/verify_patch", &Json::Null) {
        BridgeCall::VerifyPatch { project_path, file, search, edits, .. } => {
            assert_eq!((project_path, file.as_str(), search), (None, "", None));
            assert!(edits.is_none());
        }
        _ => panic!("a verification"),
    }
}

#[test]
fn scripts_and_scans_carry_their_arguments() {
    match bridge_call("/resolve_types", &json("{\"file\":\"a\",\"positions\":[],\"content\":\"c\"}")) {
        BridgeCall::ResolveTypes { positions, content, .. } => {
            assert_eq!(positions, Some(Json::Array(Vec::new())));
            assert_eq!(content, text("c"));
        }
        _ => panic!("types"),
    }
    match bridge_call("/compute_refactor", &json("{\"kind\":\"move\",\"args\":{\"line\":1}}")) {
        BridgeCall::ComputeRefactor { kind, args, file, .. } => {
            assert_eq!((kind.as_str(), file.as_str()), ("move", ""));
            assert_eq!(args.compact(), "{\"line\":1}");
        }
        _ => panic!("a refactoring"),
    }
    assert!(matches!(
        bridge_call("/compute_refactor", &json("{}")),
        BridgeCall::ComputeRefactor { args: Json::Null, .. }
    ));
    assert!(matches!(bridge_call("/git_cochange", &json("{}")), BridgeCall::GitCochange { .. }));
    match bridge_call("/find_literal_targets", &json("{\"literals\":[\"a\",\"b\"]}")) {
        BridgeCall::FindLiteralTargets { literals, .. } => {
            assert_eq!(literals, vec!["a".to_string(), "b".to_string()]);
        }
        _ => panic!("a scan"),
    }
    for odd in ["{\"literals\":[\"a\",1]}", "{\"literals\":\"a\"}", "{}"] {
        assert!(matches!(
            bridge_call("/find_literal_targets", &json(odd)),
            BridgeCall::FindLiteralTargets { literals, .. } if literals.is_empty()
        ));
    }
}

#[test]
fn the_server_and_its_tasks_have_their_routes() {
    let v = json("{\"projectPath\":\"/p\",\"taskId\":\"t\",\"message\":\"m\",\"model\":\"x\",\"ollamaBase\":\"b\",\"provider\":{\"kind\":\"edge\"}}");
    assert!(matches!(bridge_call("/opencode_status", &v), BridgeCall::OpencodeStatus));
    assert!(matches!(
        bridge_call("/opencode_start", &v),
        BridgeCall::OpencodeStart { project_path: Some(p) } if p == "/p"
    ));
    assert!(matches!(bridge_call("/opencode_stop", &v), BridgeCall::OpencodeStop));
    assert!(matches!(bridge_call("/opencode_ensure", &v), BridgeCall::OpencodeEnsure { .. }));
    match bridge_call("/opencode_task_start", &v) {
        BridgeCall::TaskStart { model, ollama_base, provider, .. } => {
            assert_eq!((model, ollama_base), (text("x"), text("b")));
            assert_eq!(provider.expect("a provider").compact(), "{\"kind\":\"edge\"}");
        }
        _ => panic!("a start"),
    }
    assert!(matches!(
        bridge_call("/opencode_task_start", &json("{\"provider\":null}")),
        BridgeCall::TaskStart { provider: None, .. }
    ));
    assert!(matches!(
        bridge_call("/opencode_task_collect", &v),
        BridgeCall::TaskCollect { task_id: Some(t) } if t == "t"
    ));
    match bridge_call("/opencode_task_turn", &v) {
        BridgeCall::TaskTurn { task_id, message, .. } => {
            assert_eq!((task_id, message), (text("t"), text("m")));
        }
        _ => panic!("a turn"),
    }
    assert!(matches!(bridge_call("/opencode_task_cleanup", &v), BridgeCall::TaskCleanup { .. }));
    match bridge_call("/opencode_run", &v) {
        BridgeCall::Run { prompt, provider, .. } => {
            assert_eq!(prompt, "m");
            assert!(provider.is_some());
        }
        _ => panic!("a run"),
    }
}

// ---------------------------------------------------------------------------
// HTTP
// ---------------------------------------------------------------------------

#[test]
fn headers_are_found_whatever_their_case() {
    let headers = vec![header("origin", "a"), header("ORIGIN", "b")];
    assert_eq!(find_header(&headers, "Origin"), text("a"));
    assert_eq!(find_header(&headers, "Host"), None);
    assert!(carries_header(&headers, "Origin", "b"));
    assert!(!carries_header(&headers, "Origin", "c"));
    assert_eq!(request_path("/a?b?c"), "/a");
    assert_eq!(request_path("/a"), "/a");
    let reply = reply_json(201, &Json::object().put("a", Json::Bool(true)));
    assert_eq!((reply.status, reply.body.as_str()), (201, "{\"a\":true}"));
    assert_eq!(reply_error(400, "no").body, "{\"error\":{\"message\":\"no\"}}");
}

// ---------------------------------------------------------------------------
// Documents
// ---------------------------------------------------------------------------

#[test]
fn documents_survive_reading_and_printing() {
    let source = "{\"b\":[1,-2,0.1,1e400,18446744073709551615,true,null,\"é\\n\"],\"a\":{}}";
    assert!(Json::parse(source).is_err());
    let fine = "{\"b\":[1,-2,0.1,18446744073709551615,true,null,\"é\\n\"],\"a\":{}}";
    let read = json(fine);
    assert_eq!(
        read.compact(),
        "{\"a\":{},\"b\":[1,-2,0.1,18446744073709551615,true,null,\"é\\n\"]}",
    );
    assert_eq!(
        serde_json::from_str::<Value>(&read.compact()).unwrap(),
        serde_json::from_str::<Value>(fine).unwrap(),
    );
    assert_eq!(read.duplicate(), read);
    assert_eq!(json("{\"a\":[1]}").pretty(), Ok("{\n  \"a\": [\n    1\n  ]\n}".to_string()));
    assert!(Json::parse("{").is_err());
}

#[test]
fn documents_are_read_by_their_parts() {
    let v = json("{\"t\":\"x\",\"n\":3,\"m\":-3,\"b\":false,\"l\":[\"y\"],\"o\":{\"0\":1},\"z\":null}");
    assert_eq!(v.text_at("t"), text("x"));
    assert_eq!(v.text_at("n"), None);
    assert_eq!(v.get("n").unwrap().as_unsigned(), Some(3));
    assert_eq!(v.get("m").unwrap().as_unsigned(), None);
    assert_eq!(v.get("b").unwrap().as_bool(), Some(false));
    assert_eq!(v.get("l").unwrap().as_items().unwrap().len(), 1);
    assert_eq!(v.get("l").unwrap().zeroth(), Some(&Json::Text("y".to_string())));
    assert_eq!(v.get("o").unwrap().zeroth(), Some(&Json::Unsigned(1)));
    assert!(v.get("z").unwrap().is_null());
    assert!(v.get("absent").is_none());
    assert_eq!(v.zeroth(), None);
    let set = Json::object().put("a", Json::Unsigned(1)).put("a", Json::Unsigned(2));
    assert_eq!(set.get("a").unwrap().as_unsigned(), Some(2));
    assert_eq!(set.compact(), "{\"a\":2}");
    let twice = Json::Object(vec![
        ("a".to_string(), Json::Unsigned(1)),
        ("b".to_string(), Json::Null),
        ("a".to_string(), Json::Unsigned(3)),
    ]);
    assert_eq!(twice.compact(), "{\"a\":3,\"b\":null}");
}

// ---------------------------------------------------------------------------
// Numbers, order and text
// ---------------------------------------------------------------------------

#[test]
fn numbers_are_written_and_read_in_decimal() {
    assert_eq!(number_text(0), "0");
    assert_eq!(number_text(u128::MAX), u128::MAX.to_string());
    let chars: Vec<char> = "0042".chars().collect();
    assert_eq!(parse_number(&chars, 100), Some(42));
    assert_eq!(parse_number(&chars, 41), None);
    assert_eq!(parse_number(&[], 9), None);
    assert_eq!(parse_number(&['1', 'x'], 99), None);
    assert_eq!(hex_text(&[0, 15, 16, 255]), "000f10ff");
}

#[test]
fn texts_are_ordered_as_their_bytes_are() {
    let samples = ["", "a", "aa", "b", "é", "z", "\u{ffff}", "\u{10000}", "A"];
    for a in samples {
        for b in samples {
            assert_eq!(comes_before(a, b), a < b, "{a:?} {b:?}");
        }
    }
}

#[test]
fn text_is_cut_replaced_and_joined() {
    assert_eq!(head("éàü", 2), "éà");
    assert_eq!(tail("éàü", 2), "àü");
    assert_eq!(tail("é", 9), "é");
    assert_eq!(replaced("aaa", "aa", "b"), "ba");
    assert_eq!(replaced_once("aaa", "aa", "b"), "ba");
    assert_eq!(replaced_once("x", "y", "z"), "x");
    assert_eq!(count_matches("aaaa", "aa"), 2);
    assert!(contains("abc", ""));
    assert_eq!(split_on("a,,b", ','), vec!["a", "", "b"]);
    assert_eq!(lines("a\r\n\nb\n"), vec!["a", "", "b"]);
    assert_eq!(lines("a\r"), "a\r".lines().collect::<Vec<_>>());
    assert_eq!(words("  a\u{a0}b \n c "), vec!["a", "b", "c"]);
    assert_eq!(join(&vec!["a".to_string(), "b".to_string()], "-"), "a-b");
    assert_eq!(lowered("AbÉ"), "abÉ");
    assert_eq!(trim_class("\"'x'\"", CharClass::DoubleQuote), "'x'");
}

// ---------------------------------------------------------------------------
// Secrets
// ---------------------------------------------------------------------------

#[test]
fn secrets_are_fresh_and_hexadecimal() {
    let code = exec_token();
    assert_eq!(code.len(), 32);
    assert!(code.chars().all(|c| c.is_ascii_hexdigit()));
    assert_ne!(code, exec_token());
    assert_eq!(edge_proxy_token().expect("a key").len(), 48);
    assert_eq!(token_of_bytes(&vec![1, 2], &None), Ok("0102".to_string()));
    assert_eq!(
        token_of_bytes(&vec![1], &text("no entropy")),
        Err("edge proxy token: no entropy".to_string()),
    );
}

// ---------------------------------------------------------------------------
// The script service
// ---------------------------------------------------------------------------

#[test]
fn the_script_is_asked_in_one_document() {
    let request = resolve_types_inner(
        text("/p"),
        "a.ts",
        &vec![Position { line: 3, character: -1 }],
        None,
    ).ok().expect("a request");
    assert_eq!(request.root, "/p");
    assert_eq!(
        request.input,
        "{\"content\":null,\"file\":\"a.ts\",\"positions\":[{\"character\":-1,\"line\":3}],\"root\":\"/p\"}",
    );
    let refactor = compute_refactor_inner(text("/p"), "a.ts", "move", json("{\"line\":1}"), text("c"))
        .ok().expect("a request");
    assert_eq!(
        refactor.input,
        "{\"args\":{\"line\":1},\"content\":\"c\",\"file\":\"a.ts\",\"kind\":\"move\",\"op\":\"refactor\",\"root\":\"/p\"}",
    );
    assert_eq!(
        resolve_types_inner(None, "a", &Vec::new(), None).err(),
        text("resolve_types: no project path"),
    );
    assert_eq!(
        compute_refactor_inner(None, "a", "k", Json::Null, None).err(),
        text("compute_refactor: no project path"),
    );
}

#[test]
fn the_script_answers_or_fails() {
    assert_eq!(script_output(b"{\"types\":[]}\n", b"noise"), Ok("{\"types\":[]}\n".to_string()));
    assert_eq!(
        script_output(b" \n", "e".repeat(400).as_bytes()),
        Err(format!("ts-service no output: {}", "e".repeat(300))),
    );
    assert_eq!(
        script_document("{\"ok\":true}", "parse refactor output: ").ok().expect("a document").compact(),
        "{\"ok\":true}",
    );
    let error = script_document("nope", "parse resolver output: ").err().expect("a reason");
    assert!(error.starts_with("parse resolver output: ") && error.len() > 24);
}
