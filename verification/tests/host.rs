//! The server's life, step by step.

use rlm_sandbox::host::{
    resolve_binary, ensure_inner, health_request, parse_http_response, probe_healthy,
    reap_if_exited, start_inner, start_inner_with_config, start_polled, start_probed,
    start_resolved, start_spawned, status_inner, stop_inner, ChildExit, ChildWait, EnsureStep,
    HostState, StartNext, StartPoll, Waiting, OPENCODE_PORT,
};
use rlm_sandbox::provider::TaskProvider;
use rlm_sandbox::task::{task_start_inner, AgentTask};
use rlm_sandbox::textmap::TextMap;

fn agent_task(id: &str) -> AgentTask {
    AgentTask {
        id: id.to_string(),
        real_root: "/p".to_string(),
        shadow_root: "/s".to_string(),
        baseline: TextMap::new(),
        continued: false,
        model: "ollama/test".to_string(),
        provider: TaskProvider::Ollama { base_url: None },
    }
}

fn waiting() -> Waiting {
    Waiting { binary: "/bin/opencode".to_string(), cwd: "/p".to_string(), pid: 7 }
}

#[test]
fn the_port_leaves_room_for_other_tools() {
    assert_eq!(OPENCODE_PORT, 4097);
}

#[test]
fn health_is_asked_over_plain_http() {
    assert_eq!(
        health_request(4097),
        "GET /global/health HTTP/1.1\r\nHost: 127.0.0.1:4097\r\nConnection: close\r\n\r\n",
    );
    assert_eq!(
        parse_http_response("HTTP/1.1 200 OK\r\nA: b\r\n\r\n{\"healthy\":true}"),
        (200, "{\"healthy\":true}".to_string()),
    );
    assert_eq!(parse_http_response("HTTP/1.1 +404"), (404, "HTTP/1.1 +404".to_string()));
    assert_eq!(parse_http_response("HTTP/1.1 70000 x").0, 0);
    assert_eq!(parse_http_response("HTTP/1.1 2x0").0, 0);
    assert_eq!(parse_http_response("HTTP/1.1\n200"), (0, "HTTP/1.1\n200".to_string()));
    assert_eq!(parse_http_response(""), (0, String::new()));
}

#[test]
fn a_server_is_up_when_it_says_so_or_listens() {
    let said = |text: &str| Some(text.to_string());
    assert!(probe_healthy(&said("HTTP/1.1 200 OK\r\n\r\n{\"healthy\":true}"), false));
    assert!(probe_healthy(&said("HTTP/1.1 200 OK\r\n\r\n{\"version\":\"1\"}"), false));
    assert!(!probe_healthy(&said("HTTP/1.1 200 OK\r\n\r\nno"), false));
    assert!(probe_healthy(&said("HTTP/1.1 200 OK\r\n\r\nno"), true));
    assert!(probe_healthy(&said("HTTP/1.1 503 x\r\n\r\n"), true));
    assert!(probe_healthy(&said("noise"), true));
    assert!(!probe_healthy(&said("noise"), false));
    assert!(probe_healthy(&None, true));
    assert!(!probe_healthy(&None, false));
}

#[test]
fn a_process_that_ended_is_reaped() {
    let mut st = HostState::new();
    st.child = Some(7);
    reap_if_exited(&mut st, &ChildWait::Running);
    assert_eq!(st.child, Some(7));
    reap_if_exited(&mut st, &ChildWait::Exited("exit status: 1".to_string()));
    assert_eq!(st.child, None);
    assert_eq!(st.last_error, Some("opencode exited: exit status: 1".to_string()));
    st.child = Some(8);
    reap_if_exited(&mut st, &ChildWait::Failed("denied".to_string()));
    assert_eq!(st.child, None);
    assert_eq!(st.last_error, Some("try_wait: denied".to_string()));
    // without a process there is nothing to reap
    reap_if_exited(&mut st, &ChildWait::Exited("again".to_string()));
    assert_eq!(st.last_error, Some("try_wait: denied".to_string()));
}

#[test]
fn the_status_tells_what_is_known() {
    let mut st = HostState::new();
    let idle = status_inner(&mut st, &ChildWait::Running, false, Some("/found".to_string()));
    assert!(!idle.running && !idle.healthy);
    assert_eq!(idle.binary, Some("/found".to_string()));
    assert_eq!((idle.port, idle.pid, idle.version_hint.is_none()), (4097, None, true));
    st.child = Some(9);
    st.binary = Some("/own".to_string());
    st.project_path = Some("/p".to_string());
    let started = status_inner(&mut st, &ChildWait::Running, false, Some("/found".to_string()));
    assert!(started.running && !started.healthy);
    assert_eq!(started.pid, Some(9));
    assert_eq!(started.binary, Some("/own".to_string()));
    assert_eq!(started.project_path, Some("/p".to_string()));
    let foreign = status_inner(&mut HostState::new(), &ChildWait::Running, true, None);
    assert!(foreign.running && foreign.healthy);
    let gone = status_inner(&mut st, &ChildWait::Exited("x".to_string()), false, None);
    assert_eq!(gone.pid, None);
    assert_eq!(gone.last_error, Some("opencode exited: x".to_string()));
}

#[test]
fn stopping_forgets_the_process() {
    let mut st = HostState::new();
    st.last_error = Some("old".to_string());
    let mut slot: Option<AgentTask> = None;
    let (child, task) = stop_inner(&mut st, &mut slot);
    assert!(child.is_none() && task.is_none());
    assert_eq!(st.last_error, Some("old".to_string()));
    st.child = Some(3);
    let mut slot = Some(agent_task("t1"));
    let (child, task) = stop_inner(&mut st, &mut slot);
    assert_eq!(child, Some(3));
    assert_eq!(task.expect("cancelled").id, "t1");
    assert_eq!(st.child, None);
    // the next task is not refused
    assert!(slot.is_none());
    assert!(task_start_inner(&mut slot, agent_task("t2")).is_ok());
    assert_eq!(st.last_error, None);
}

#[test]
fn the_binary_is_named_or_found() {
    let places = vec![("/a".to_string(), false), ("/b".to_string(), true), ("/c".to_string(), true)];
    assert_eq!(
        resolve_binary(Some(("/named".to_string(), true)), &places),
        Ok("/named".to_string()),
    );
    assert_eq!(
        resolve_binary(Some(("/named".to_string(), false)), &places),
        Err("OPENCODE_BIN set but not a file: /named".to_string()),
    );
    assert_eq!(resolve_binary(None, &places), Ok("/b".to_string()));
    assert_eq!(
        resolve_binary(None, &vec![("/a".to_string(), false)]),
        Err("opencode CLI not found — install it (curl -fsSL https://opencode.ai/install | bash) or set OPENCODE_BIN to the binary path".to_string()),
    );
}

#[test]
fn a_server_that_is_up_is_not_started_twice() {
    let mut st = HostState::new();
    st.last_error = Some("old".to_string());
    let next = start_probed(start_inner(Some("/p".to_string())), &mut st, true);
    assert!(matches!(next, StartNext::Up));
    assert_eq!(st.project_path, Some("/p".to_string()));
    assert_eq!(st.last_error, None);
    // a project that was not named does not replace the one that is known
    assert!(matches!(start_probed(start_inner(None), &mut st, true), StartNext::Up));
    assert_eq!(st.project_path, Some("/p".to_string()));
    st.child = Some(4);
    assert!(matches!(start_probed(start_inner(Some("/q".to_string())), &mut st, true), StartNext::Up));
    assert_eq!(st.project_path, Some("/p".to_string()));
    assert!(matches!(start_probed(start_inner(None), &mut st, false), StartNext::Launch(_)));
}

#[test]
fn a_launch_needs_a_binary_and_a_directory() {
    let mut st = HostState::new();
    st.child = Some(4);
    let request = || start_inner_with_config(Some("/p".to_string()), Some("{}".to_string()));
    assert_eq!(
        start_resolved(request(), &mut st, Err("none".to_string()), true).err(),
        Some("none".to_string()),
    );
    let refusal = "projectPath required and must be an existing directory (set path in exec console)";
    assert_eq!(
        start_resolved(request(), &mut st, Ok("/b".to_string()), false).err(),
        Some(refusal.to_string()),
    );
    assert_eq!(
        start_resolved(start_inner(None), &mut st, Ok("/b".to_string()), true).err(),
        Some(refusal.to_string()),
    );
    assert_eq!(st.child, Some(4));
    let (older, plan) = start_resolved(request(), &mut st, Ok("/b".to_string()), true)
        .ok().expect("a launch");
    assert_eq!(older, Some(4));
    assert_eq!(st.child, None);
    assert_eq!(plan.program, "/b");
    assert_eq!(plan.cwd, "/p");
    assert_eq!(plan.set_env, vec![("OPENCODE_CONFIG_CONTENT".to_string(), "{}".to_string())]);
    assert_eq!(plan.removed_env, vec!["OPENCODE_SERVER_PASSWORD".to_string()]);
    assert_eq!(
        plan.args.join(" "),
        "serve --hostname 127.0.0.1 --port 4097 --cors http://localhost:5173 --cors http://127.0.0.1:5173 --cors https://rlmlocal.com --cors https://www.rlmlocal.com",
    );
    let started = start_spawned(&plan, Ok(11)).ok().expect("started");
    assert_eq!((started.binary.as_str(), started.cwd.as_str(), started.pid), ("/b", "/p", 11));
    assert_eq!(
        start_spawned(&plan, Err("denied".to_string())).err(),
        Some("failed to spawn /b: denied".to_string()),
    );
}

#[test]
fn a_started_server_is_waited_for() {
    let mut st = HostState::new();
    assert!(matches!(start_polled(&waiting(), &mut st, false, false, None), StartPoll::Wait));
    assert!(matches!(start_polled(&waiting(), &mut st, false, true, None), StartPoll::Settled));
    assert_eq!(st.child, Some(7));
    assert_eq!(st.binary, Some("/bin/opencode".to_string()));
    assert_eq!(st.project_path, Some("/p".to_string()));
    assert_eq!(st.last_error, None);
    let mut late = HostState::new();
    assert!(matches!(start_polled(&waiting(), &mut late, true, false, None), StartPoll::Settled));
    assert_eq!(late.child, Some(7));
    assert_eq!(
        late.last_error,
        Some("spawned but health check timed out (8s) — check OpenCode install / port 4096".to_string()),
    );
    let mut failed = HostState::new();
    let exit = ChildExit { status: "exit status: 1".to_string(), stderr: Some("e".repeat(500)) };
    let poll = start_polled(&waiting(), &mut failed, false, false, Some(exit));
    let expected = format!("opencode exited early: exit status: 1: {}", "e".repeat(400));
    assert!(matches!(&poll, StartPoll::Failed(e) if *e == expected));
    assert_eq!(failed.last_error, Some(expected));
    assert_eq!(failed.child, None);
    let quiet = ChildExit { status: "signal: 9".to_string(), stderr: Some(String::new()) };
    let poll = start_polled(&waiting(), &mut failed, false, false, Some(quiet));
    assert!(matches!(poll, StartPoll::Failed(e) if e == "opencode exited early: signal: 9"));
}

#[test]
fn a_healthy_server_is_left_alone() {
    let healthy = status_inner(&mut HostState::new(), &ChildWait::Running, true, None);
    assert!(matches!(ensure_inner(healthy, Some("/p".to_string())), EnsureStep::Up(_)));
    let idle = status_inner(&mut HostState::new(), &ChildWait::Running, false, None);
    match ensure_inner(idle, Some("/p".to_string())) {
        EnsureStep::Start(request) => assert_eq!(request.project_path, Some("/p".to_string())),
        EnsureStep::Up(_) => panic!("not up"),
    }
}
