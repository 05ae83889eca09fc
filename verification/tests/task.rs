//! Tasks, runs and what their agent may do.

use rlm_sandbox::config::{
    build_proposal_permissions, build_rlm_opencode_config, build_task_opencode_config,
    build_task_permissions,
};
use rlm_sandbox::edge::proxy::EdgeProxyConfig;
use rlm_sandbox::json::Json;
use rlm_sandbox::provider::{
    check_edge_proxy, edge_base_url, edge_proxy_config, prepare_edge_proxy,
    resolve_owner_infer_key, resolve_task_provider, OpenCodeProvider, ProviderPlan, TaskProvider,
};
use rlm_sandbox::run::{
    run_args, run_inner, run_prompt, run_result, run_step, run_text, wait_step, RunLook,
    RunStep,
};
use rlm_sandbox::scan::{json_objects, next_json_object, next_object};
use rlm_sandbox::task::{
    cancel_task, check_task, required_task_id, task_cleanup_inner, task_cleanup_json,
    task_collect_inner, task_collect_json, task_id, task_message_in_shadow, task_start_inner,
    task_start_request, task_turn_json, task_turn_output, task_turn_plan, task_turn_ran,
    task_turn_result, turn_text, AgentTask,
};
use rlm_sandbox::textmap::TextMap;
use rlm_sandbox::writes::{
    emitted_write_calls, extract_json_string_field, parse_emitted_write_tools, parse_write_call,
    write_call_of_broken, write_call_of_json, write_proposal_json, write_relative, write_target,
};
use serde_json::Value;

fn value(json: &Json) -> Value {
    serde_json::from_str(&json.compact()).expect("a value")
}

fn text(t: &str) -> Option<String> {
    Some(t.to_string())
}

fn ollama() -> TaskProvider {
    TaskProvider::Ollama { base_url: None }
}

fn task(id: &str) -> AgentTask {
    let mut baseline = TextMap::new();
    baseline.set("a.ts".to_string(), "old".to_string());
    AgentTask {
        id: id.to_string(),
        real_root: "/real/project".to_string(),
        shadow_root: "/tmp/shadow".to_string(),
        baseline,
        continued: false,
        model: "ollama/test".to_string(),
        provider: ollama(),
    }
}

// ---------------------------------------------------------------------------
// Turns
// ---------------------------------------------------------------------------

#[test]
fn task_turn_output_keeps_provider_error_after_a_stdout_banner() {
    let output = task_turn_output(
        b"\x1b[0m\n> rlm-shadow \xc2\xb7 @cf/qwen\n\x1b[0m\n",
        b"Workers AI error: 8007: shared context exceeded\n",
    );
    assert!(output.contains("> rlm-shadow"));
    assert!(output.contains("[OpenCode stderr]"));
    assert!(output.contains("Workers AI error: 8007"));
}

#[test]
fn either_channel_of_a_turn_stands_alone() {
    assert_eq!(task_turn_output(b" out \n", b" \n"), "out");
    assert_eq!(task_turn_output(b"", b" err"), "err");
    assert_eq!(task_turn_output(b" ", b"\n"), "");
    assert_eq!(task_turn_output(b"o", b"e"), "o\n\n[OpenCode stderr]\ne");
    assert_eq!(turn_text("o".to_string(), "e".to_string()), "o\n\n[OpenCode stderr]\ne");
    assert_eq!(task_turn_output(b"\xff", b""), "\u{fffd}");
}

#[test]
fn a_turn_that_fails_tells_how() {
    assert_eq!(task_turn_result(true, "x", "out".to_string()), Ok("out".to_string()));
    assert_eq!(
        task_turn_result(false, "exit status: 2", String::new()),
        Err("OpenCode task turn exited exit status: 2".to_string()),
    );
    assert_eq!(
        task_turn_result(false, "exit status: 2", "out".to_string()),
        Err("OpenCode task turn exited exit status: 2:\nout".to_string()),
    );
}

#[test]
fn task_message_rewrites_the_real_root_and_requires_single_relative_tool_calls() {
    let root = "/home/jeff/projects/rlmlocal-site-test";
    let message = "Project root: /home/jeff/projects/rlmlocal-site-test\nRead /home/jeff/projects/rlmlocal-site-test/src/stripThinkTags.ts";
    let bounded = task_message_in_shadow(message, root);
    assert!(!bounded.contains("/home/jeff/projects/rlmlocal-site-test"));
    assert!(bounded.contains("Project root: ."));
    assert!(bounded.contains("Read ./src/stripThinkTags.ts"));
    assert!(bounded.contains("exactly one JSON argument object"));
}

#[test]
fn a_root_is_hidden_without_the_slashes_at_its_end() {
    let bounded = task_message_in_shadow("see /p/q and /p/q/x", "/p/q/\\/");
    assert!(bounded.starts_with("see . and ./x\n\n## Disposable worktree tool rules\n"));
    assert!(task_message_in_shadow("see /p/my.app/x", "/p/my.app").starts_with("see ./x\n"));
    // a path that is spelled around itself is taken out as often as it takes
    assert!(task_message_in_shadow("/p/my/p/my.appapp", "/p/my.app").starts_with(".\n"));
    assert!(task_message_in_shadow("xaxbx", "x").starts_with(".a.b.\n"));
    // the file system's own root stands for nothing
    assert!(task_message_in_shadow("see /p", "/").starts_with("see /p\n\n"));
    assert!(bounded.ends_with("the real project is intentionally inaccessible."));
}

// ---------------------------------------------------------------------------
// The one task
// ---------------------------------------------------------------------------

#[test]
fn a_task_needs_a_directory_and_a_free_slot() {
    assert_eq!(
        task_start_request(text("/p"), true, None, false),
        Ok(("/p".to_string(), "ollama/qwen2.5-coder:7b".to_string())),
    );
    assert_eq!(
        task_start_request(text("/p"), true, text("ollama/x"), false),
        Ok(("/p".to_string(), "ollama/x".to_string())),
    );
    for (path, is_dir) in [(None, true), (text("/p"), false)] {
        assert_eq!(
            task_start_request(path, is_dir, None, true),
            Err("projectPath required for OpenCode task".to_string()),
        );
    }
    assert_eq!(
        task_start_request(text("/p"), true, None, true),
        Err("an OpenCode task is already active; approve/reject it or wait for cleanup".to_string()),
    );
    assert_eq!(task_id(1_700), "oc-task-1700");
}

#[test]
fn there_is_one_task_at_a_time() {
    let mut slot: Option<AgentTask> = None;
    let started = match task_start_inner(&mut slot, task("t1")) {
        Ok(started) => started,
        Err(_) => panic!("started"),
    };
    assert_eq!((started.task_id.as_str(), started.shadow_path.as_str(), started.port), ("t1", "/tmp/shadow", 4097));
    match task_start_inner(&mut slot, task("t2")) {
        Err((refused, reason)) => {
            assert_eq!(refused.id, "t2");
            assert_eq!(reason, "an OpenCode task started concurrently; retry Send");
        }
        Ok(_) => panic!("refused"),
    }
    assert_eq!(check_task(&slot, "t1"), None);
    assert_eq!(check_task(&slot, "t2"), text("OpenCode task id does not match active task"));
    assert_eq!(
        task_cleanup_inner(&mut slot, "t2").err(),
        text("OpenCode task id does not match active task"),
    );
    assert!(slot.is_some());
    assert_eq!(task_cleanup_inner(&mut slot, "t1").ok().expect("ended").id, "t1");
    assert!(slot.is_none());
    assert_eq!(task_cleanup_inner(&mut slot, "t1").err(), text("no active OpenCode task"));
    assert_eq!(check_task(&slot, "t1"), text("no active OpenCode task"));
    // after its end another can start, and can be cancelled
    assert!(task_start_inner(&mut slot, task("t3")).is_ok());
    assert_eq!(cancel_task(&mut slot).expect("cancelled").id, "t3");
    assert!(slot.is_none());
    assert!(cancel_task(&mut slot).is_none());
}

#[test]
fn a_turn_runs_in_the_shadow_with_its_own_agent() {
    let mut slot = Some(task("t1"));
    let plan = task_turn_plan(&slot, "t1", "see /real/project/a.ts", None).ok().expect("a plan");
    assert_eq!(plan.cwd, "/tmp/shadow");
    assert_eq!(
        plan.args[..11].join(" "),
        "run --auto --agent rlm-shadow -m ollama/test --dir /tmp/shadow --format default see ./a.ts\n\n## Disposable worktree tool rules\nYou are already inside the disposable worktree. Use repository-relative paths only (for example `src/file.ts`); never use an absolute path.\nCall exactly one tool with exactly one JSON argument object at a time. If you need two files, call `read` separately and wait for each result before the next call.\nMake edits only in this worktree; the real project is intentionally inaccessible.",
    );
    assert_eq!(plan.args.len(), 11);
    assert!(plan.config.contains("rlm-shadow"));
    task_turn_ran(&mut slot);
    let again = task_turn_plan(&slot, "t1", "go on", text("ollama/test")).ok().expect("a plan");
    assert_eq!(again.args[10], "--continue");
    assert_eq!(again.args.len(), 12);
    assert!(task_turn_plan(&slot, "t1", "go on", text("  ")).is_ok());
    assert_eq!(
        task_turn_plan(&slot, "t1", "go on", text("ollama/other")).err(),
        Some(format!(
            "OpenCode task model is pinned at start; end this {} before switching models",
            "task",
        )),
    );
    assert_eq!(
        task_turn_plan(&slot, "t2", "x", None).err(),
        text("OpenCode task id does not match active task"),
    );
    assert_eq!(task_turn_plan(&None, "t1", "x", None).err(), text("no active OpenCode task"));
    let mut odd = task("t1");
    odd.model = "other/x".to_string();
    assert_eq!(
        task_turn_plan(&Some(odd), "t1", "x", None).err(),
        text("Ollama provider/model mismatch"),
    );
}

#[test]
fn a_task_collects_what_changed_in_its_shadow() {
    let slot = Some(task("t1"));
    let mut current = TextMap::new();
    current.set("a.ts".to_string(), "new".to_string());
    let changes = task_collect_inner(&slot, "t1", &current).ok().expect("changes");
    assert_eq!(changes.len(), 1);
    assert_eq!(
        (changes[0].relative.as_str(), changes[0].previous.as_str(), changes[0].content.as_str()),
        ("a.ts", "old", "new"),
    );
    assert_eq!(
        task_collect_inner(&slot, "t9", &current).err(),
        text("OpenCode task id does not match active task"),
    );
    assert_eq!(task_collect_inner(&None, "t1", &current).err(), text("no active OpenCode task"));
    assert_eq!(
        task_collect_json(&changes),
        "[{\"content\":\"new\",\"path\":\"a.ts\",\"previous\":\"old\",\"relative\":\"a.ts\"}]",
    );
}

#[test]
fn replies_about_a_task_are_documents() {
    assert_eq!(required_task_id(text("t")), Ok("t".to_string()));
    assert_eq!(required_task_id(None), Err("taskId required".to_string()));
    assert_eq!(task_turn_json("a \"b\"".to_string()), "{\"output\":\"a \\\"b\\\"\"}");
    assert_eq!(task_cleanup_json(), "{\"ok\":true}");
}

// ---------------------------------------------------------------------------
// Configuration and providers
// ---------------------------------------------------------------------------

#[test]
fn task_agent_caps_tool_iterations_and_rejects_a_doom_loop() {
    let config: Value = serde_json::from_str(
        &build_task_opencode_config("ollama/test", &ollama()).expect("task config"),
    ).expect("JSON config");
    assert_eq!(config["agent"]["rlm-shadow"]["steps"], 12);
    assert_eq!(config["agent"]["rlm-shadow"]["temperature"], 0.1);
    assert_eq!(config["permission"]["doom_loop"], "deny");
    assert_eq!(config["agent"]["rlm-shadow"]["permission"]["doom_loop"], "deny");
}

#[test]
fn a_run_may_read_but_not_write() {
    let text = build_rlm_opencode_config(
        "ollama/test",
        &TaskProvider::Ollama { base_url: Some(" http://h:1// ".to_string()) },
    ).expect("config");
    let config: Value = serde_json::from_str(&text).expect("JSON config");
    assert!(text.starts_with("{\n  \"$schema\": \"https://opencode.ai/config.json\""));
    assert_eq!(config["model"], "ollama/test");
    for denied in ["*", "edit", "bash", "webfetch", "websearch", "external_directory",
        "todowrite", "question", "task", "skill", "lsp"]
    {
        assert_eq!(config["permission"][denied], "deny", "{denied}");
    }
    for allowed in ["read", "grep", "glob"] {
        assert_eq!(config["permission"][allowed], "allow");
    }
    assert_eq!(config["permission"].as_object().unwrap().len(), 14);
    assert_eq!(config["provider"]["ollama"]["options"]["baseURL"], "http://h:1/v1");
    assert_eq!(config["provider"]["ollama"]["options"]["apiKey"], "ollama");
    assert_eq!(config["provider"]["ollama"]["models"]["test"]["name"], "test");
    assert_eq!(value(&build_proposal_permissions())["edit"], "deny");
}

#[test]
fn a_task_may_edit_and_run_its_checks() {
    let edge = TaskProvider::Edge { proxy_url: "http://127.0.0.1:9/v1".to_string(), api_key: "k".to_string() };
    let config: Value = serde_json::from_str(
        &build_task_opencode_config("rlm-edge/@cf/x", &edge).expect("config"),
    ).expect("JSON config");
    assert_eq!(config["permission"]["edit"], "allow");
    assert_eq!(config["permission"]["bash"]["git diff*"], "allow");
    assert_eq!(config["permission"]["bash"]["*"], "deny");
    assert_eq!(config["permission"]["external_directory"], "deny");
    assert_eq!(config["default_agent"], "rlm-shadow");
    assert_eq!(config["agent"]["rlm-shadow"]["mode"], "primary");
    assert_eq!(config["agent"]["rlm-shadow"]["permission"], config["permission"]);
    assert_eq!(config["provider"]["rlm-edge"]["options"]["baseURL"], "http://127.0.0.1:9/v1");
    assert_eq!(config["provider"]["rlm-edge"]["options"]["apiKey"], "k");
    assert_eq!(config["provider"]["rlm-edge"]["models"]["@cf/x"]["name"], "@cf/x");
    assert_eq!(value(&build_task_permissions()), config["permission"]);
    assert_eq!(
        build_task_opencode_config("ollama/x", &edge),
        Err("edge provider/model mismatch".to_string()),
    );
    assert_eq!(
        build_rlm_opencode_config("other/x", &ollama()),
        Err("Ollama provider/model mismatch".to_string()),
    );
    let local: Value = serde_json::from_str(
        &build_rlm_opencode_config("ollama/x", &ollama()).expect("config"),
    ).expect("JSON config");
    assert_eq!(local["provider"]["ollama"]["options"]["baseURL"], "http://127.0.0.1:11434/v1");
}

#[test]
fn providers_go_with_their_models() {
    let plan = |model: &str, base: Option<String>, provider: Option<OpenCodeProvider>| {
        resolve_task_provider(model, base, provider)
    };
    assert!(matches!(
        plan("ollama/x", text("b"), None),
        Ok(ProviderPlan::Ollama { base_url: Some(b) }) if b == "b"
    ));
    assert!(matches!(
        plan("ollama/x", text("b"), Some(OpenCodeProvider::Ollama { base_url: text("c") })),
        Ok(ProviderPlan::Ollama { base_url: Some(c) }) if c == "c"
    ));
    assert!(matches!(
        plan("ollama/x", text("b"), Some(OpenCodeProvider::Ollama { base_url: None })),
        Ok(ProviderPlan::Ollama { base_url: Some(b) }) if b == "b"
    ));
    assert_eq!(
        plan("rlm-edge/x", None, Some(OpenCodeProvider::Ollama { base_url: None })).err(),
        text("Ollama task provider requires an ollama/... model"),
    );
    let edge = || OpenCodeProvider::Edge {
        worker_url: "https://w".to_string(),
        owner_key: text("o"),
        context_window: Some(4_096),
    };
    match plan("rlm-edge/@cf/x", None, Some(edge())) {
        Ok(ProviderPlan::Edge { worker_url, owner_key, model_id, context_window }) => {
            assert_eq!((worker_url.as_str(), model_id.as_str()), ("https://w", "@cf/x"));
            assert_eq!((owner_key, context_window), (text("o"), Some(4_096)));
        }
        _ => panic!("an edge plan"),
    }
    assert_eq!(
        plan("ollama/x", None, Some(edge())).err(),
        text("edge task provider requires an rlm-edge/... model"),
    );
    assert_eq!(
        plan("rlm-edge/x", None, None).err(),
        text("no native OpenCode provider adapter was supplied for this model"),
    );
}

#[test]
fn the_owner_key_comes_from_the_nearest_source() {
    assert_eq!(
        resolve_owner_infer_key(text(" c "), text("e"), text("f"), text("g")),
        text("c"),
    );
    assert_eq!(resolve_owner_infer_key(text(" "), text(" e "), text("f"), text("g")), text("e"));
    assert_eq!(resolve_owner_infer_key(None, text(""), text("f"), text("g")), text("f"));
    assert_eq!(resolve_owner_infer_key(None, None, None, text("g\n")), text("g"));
    assert_eq!(resolve_owner_infer_key(None, None, None, text("\n")), None);
    assert_eq!(resolve_owner_infer_key(None, None, None, None), None);
}

#[test]
fn an_edge_proxy_needs_a_worker_and_a_model() {
    assert_eq!(
        check_edge_proxy("nowhere", "m"),
        text("edge worker URL must start with http:// or https://"),
    );
    assert_eq!(check_edge_proxy("https://w", "  "), text("edge model id required"));
    assert_eq!(check_edge_proxy("https://w", "m"), None);
    assert_eq!(edge_base_url(8080), "http://127.0.0.1:8080/v1");
    let cfg: EdgeProxyConfig = edge_proxy_config("https://w".to_string(), None, "m".to_string(), None, "k".to_string());
    assert_eq!((cfg.context_window, cfg.api_key.as_str()), (7_968, "k"));
    let made = prepare_edge_proxy("https://w".to_string(), text("o"), "m".to_string(), Some(32_000))
        .ok().expect("a proxy");
    assert_eq!(made.api_key.len(), 48);
    assert!(made.api_key.chars().all(|c| c.is_ascii_hexdigit() && !c.is_ascii_uppercase()));
    assert_eq!((made.context_window, made.owner_key), (32_000, text("o")));
    let other = prepare_edge_proxy("https://w".to_string(), None, "m".to_string(), None)
        .ok().expect("a proxy");
    assert_ne!(other.api_key, made.api_key);
    assert_eq!(
        prepare_edge_proxy("https://w".to_string(), None, " ".to_string(), None).err(),
        text("edge model id required"),
    );
}

// ---------------------------------------------------------------------------
// Runs
// ---------------------------------------------------------------------------

#[test]
fn a_run_needs_a_directory_and_a_message() {
    let request = run_inner(text("/p"), true, " do it ", None).ok().expect("a request");
    assert_eq!(
        (request.cwd.as_str(), request.message.as_str(), request.model.as_str()),
        ("/p", "do it", "ollama/qwen2.5-coder:7b"),
    );
    assert_eq!(run_inner(text("/p"), true, "x", text(" m ")).ok().expect("a request").model, "m");
    assert_eq!(
        run_inner(None, true, "x", None).err(),
        text("projectPath required for opencode run"),
    );
    assert_eq!(
        run_inner(text("/p"), false, "", None).err(),
        text("projectPath required for opencode run"),
    );
    assert_eq!(run_inner(text("/p"), true, " \n", None).err(), text("message required"));
    let args = run_args(&request);
    assert_eq!(args[..8].join(" "), "run --auto -m ollama/qwen2.5-coder:7b --dir /p --format default");
    assert_eq!(args.len(), 9);
    assert_eq!(args[8], run_prompt("/p", "do it"));
    assert!(args[8].starts_with("You are the GRAPH CODER implementer (OpenCode multi-step tools) for project /p.\nRules:\n- IMPLEMENT"));
    assert!(args[8].contains("\n{\"name\":\"write\",\"arguments\":{\"filePath\":\"/p/src/example.ts\",\"content\":\"export const x = 1;\\n\"}}\n"));
    assert!(args[8].ends_with("- No extra deps unless the task requires them.\n\nTASK:\ndo it"));
}

#[test]
fn a_run_is_watched_until_it_ends() {
    assert!(matches!(wait_step(true, true, 9), RunStep::Collect));
    assert!(matches!(wait_step(false, false, 9), RunStep::Wait));
    assert!(matches!(
        wait_step(false, true, 120),
        RunStep::Kill(reason) if reason == "command timed out after 120s"
    ));
    assert!(matches!(run_step(RunLook::Exited), RunStep::Collect));
    assert!(matches!(run_step(RunLook::Running { late: false }), RunStep::Wait));
    assert!(matches!(
        run_step(RunLook::Running { late: true }),
        RunStep::Kill(e) if e == "opencode run timed out (180s)"
    ));
    assert!(matches!(
        run_step(RunLook::Failed("gone".to_string())),
        RunStep::Fail(e) if e == "wait: gone"
    ));
    assert_eq!(run_text(" out ", "err", "0"), "out");
    assert_eq!(run_text(" ", " err ", "0"), "err");
    assert_eq!(run_text("", "", "exit status: 3"), "(no output, exit exit status: 3)");
}

#[test]
fn a_run_that_proposes_counts_as_a_success() {
    let proposal = write_proposal_json("a.ts", "/p/a.ts", "new", "old");
    let result = value(&run_result("said".to_string(), vec![proposal], "m", false, None));
    assert_eq!(result["ok"], true);
    assert_eq!(result["code"], -1);
    assert_eq!(result["output"], "said\n\n[rlmlocal] proposed write(s) — Approve to land: a.ts");
    assert_eq!(result["proposed"][0]["path"], "/p/a.ts");
    assert_eq!(result["proposed"][0]["previous"], "old");
    let quiet = value(&run_result("x".repeat(9_000), Vec::new(), "m", false, Some(2)));
    assert_eq!(quiet["ok"], false);
    assert_eq!(quiet["code"], 2);
    assert_eq!(quiet["output"].as_str().unwrap().len(), 8_000);
}

// ---------------------------------------------------------------------------
// Proposals
// ---------------------------------------------------------------------------

#[test]
fn json_object_scan_ignores_braces_inside_strings() {
    let text = r#"here {"name":"write","arguments":{"filePath":"/p/a.ts","content":"export function f() {\n  return 1;\n}\n"}} tail"#;
    let (s, e) = next_json_object(text, 0).expect("object");
    let slice = &text[s..e];
    assert!(slice.starts_with('{') && slice.ends_with('}'));
    assert!(slice.contains("export function f()"));
    // Must not close at the first `}` inside the content string
    assert!(slice.contains("return 1"));
}

#[test]
fn objects_are_found_one_after_the_other() {
    assert_eq!(json_objects("é {\"a\":\"}\"} x {\"b\":{}} {"), vec!["{\"a\":\"}\"}", "{\"b\":{}}"]);
    assert_eq!(next_json_object("é{}", 0), Some((2, 4)));
    assert_eq!(next_json_object("{}", 2), None);
    assert_eq!(next_json_object("{\"a\\\"}", 0), None);
    assert_eq!(next_json_object("}{\"\\\\\"}", 0), Some((1, 7)));
    assert_eq!(next_object(b"x{{}}", 2), Some((2, 4)));
}

#[test]
fn parse_write_with_braces_in_content() {
    let text = r#"{"name":"write","arguments":{"filePath":"src/x.ts","content":"export function f() {\n  return { a: 1 };\n}\n"}}"#;
    let props = parse_emitted_write_tools("/tmp/rlm-oc-parse-test", text);
    assert_eq!(props.len(), 1);
    assert_eq!(props[0].relative, "src/x.ts");
    assert!(props[0].content.contains("return { a: 1 }"));
}

#[test]
fn only_write_calls_are_proposals() {
    let output = "{\"name\":\"read\",\"arguments\":{\"filePath\":\"a\",\"content\":\"x\"}}\n\
                  {\"name\":\"create_file\",\"args\":{\"path\":\"b\",\"contents\":\"y\"}}\n\
                  {\"write\":\"write\"}\n\
                  {\"name\":\"write_file\",\"arguments\":{\"file\":\"c\",\"content\":\"it\\'s\"}}\n\
                  {\"name\":\"write\",\"arguments\":{\"file\":\"d\"}}";
    let calls = emitted_write_calls(output);
    let shape: Vec<(&str, &str)> = calls.iter().map(|c| (c.raw_path.as_str(), c.content.as_str())).collect();
    assert_eq!(shape, vec![("b", "y"), ("c", "it's")]);
}

#[test]
fn broken_calls_are_read_loosely() {
    // a raw line end makes the document invalid
    let blob = "{\"name\":\"write\",\"arguments\":{\"filePath\": \"a.ts\",\"content\":\"one\ntwo\\tx\\q\"}}";
    let call = parse_write_call(blob).expect("a call");
    assert_eq!((call.raw_path.as_str(), call.content.as_str()), ("a.ts", "one\ntwo\tx\\q"));
    assert_eq!(extract_json_string_field("{\"a\" : \"x\\\"y\" }", "a"), text("x\"y"));
    assert_eq!(extract_json_string_field("{\"a\":\"\"}", "a"), text(""));
    assert_eq!(extract_json_string_field("{\"a\":\"", "a"), None);
    assert_eq!(extract_json_string_field("{\"a\":1}", "a"), None);
    assert_eq!(extract_json_string_field("{\"b\":\"x\"}", "a"), None);
    assert_eq!(extract_json_string_field("{\"a\":\"open", "a"), text("open"));
    assert!(write_call_of_broken("{\"path\":\"p\"}").is_none());
    let loose = write_call_of_broken("\"path\":\"p\" \"contents\":\"c\"").expect("a call");
    assert_eq!((loose.raw_path.as_str(), loose.content.as_str()), ("p", "c"));
    assert!(write_call_of_json(&Json::object().put("name", Json::text("write"))).is_none());
}

#[test]
fn targets_stay_in_the_project() {
    let target = |raw: &str, stripped: Option<&str>, name: Option<&str>| {
        write_target(raw, "/p", stripped.map(String::from), name.map(String::from))
    };
    assert_eq!(target("/path/to/x.ts", None, Some("x.ts")), text("x.ts"));
    assert_eq!(target("/path/", None, None), text("DOGFOOD-OPENCODE.md"));
    assert_eq!(target(" /p/src/x.ts ", Some("src/x.ts"), Some("x.ts")), text("src/x.ts"));
    assert_eq!(target("/p//x.ts", None, None), text("x.ts"));
    assert_eq!(target("/elsewhere/x.ts", None, Some("x.ts")), text("x.ts"));
    assert_eq!(target("/", None, None), text("out.txt"));
    assert_eq!(target("./././src/x.ts", None, None), text("src/x.ts"));
    assert_eq!(target("../x.ts", None, None), None);
    assert_eq!(target("a/../../x.ts", None, None), None);
    assert_eq!(target("  ", None, None), None);
    assert_eq!(write_relative("/p/src/x.ts", "/p"), text("src/x.ts"));
    assert_eq!(write_relative("/q/src/x.ts", "/p"), text("x.ts"));
    assert_eq!(write_relative("/p", "/p"), None);
    // a directory that only starts alike is elsewhere
    assert_eq!(write_relative("/project/x.ts", "/p"), text("x.ts"));
    assert_eq!(write_relative("/proj2/x.ts", "/proj"), text("x.ts"));
    assert_eq!(write_relative("./src/x.ts", "/p"), text("src/x.ts"));
    assert_eq!(write_relative("/p/src/x.ts", "/p/"), text("src/x.ts"));
    assert_eq!(write_relative("/p//x.ts", "/p"), text("x.ts"));
}
