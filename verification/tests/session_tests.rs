//! Storage, manager, and control-protocol tests.

use remote_agents::manager::ManagerError;
use remote_agents::msg_store::stdout_chunks_of;
use remote_agents::peer::{
    allow_payload, can_use_tool_route, classify_line, deny_payload, error_response_frame,
    hook_ask_payload, hook_auto_approve_payload, initialize_frame, interrupt_frame,
    set_permission_mode_frame, success_response_frame, user_message_frame, ApprovalError,
    ControlRequest, InboundClass, PermissionMode, ToolRoute,
};
use remote_agents::storage::{
    now, ExecutionContext, MemoryStorage, SessionFilter, SessionId, SessionStatus, SessionStorage,
    SqliteStorage, StorageError,
};
use remote_agents::{LogMsg, SessionManager};

#[test]
fn status_is_monotone_once_terminal() {
    let mut st = MemoryStorage::new();
    let id = st.create(&ExecutionContext::new(String::from("/w"))).unwrap();
    st.update_status(id, SessionStatus::Completed).unwrap();
    // terminal statuses are absorbing: a later update is a no-op
    st.update_status(id, SessionStatus::Running).unwrap();
    let s = st.get(id).unwrap().unwrap();
    assert!(matches!(s.status, SessionStatus::Completed));
    st.update_status(id, SessionStatus::Cancelled).unwrap();
    let s = st.get(id).unwrap().unwrap();
    assert!(matches!(s.status, SessionStatus::Completed));
}

#[test]
fn finish_session_is_idempotent_on_status() {
    let mut mgr = SessionManager::new(MemoryStorage::new());
    let id = mgr.start_session(&ExecutionContext::new(String::from("/w"))).unwrap();
    mgr.finish_session(id, false).unwrap();
    mgr.finish_session(id, true).unwrap();
    let hist = mgr.get_msg_store(id).unwrap().get_history();
    // the status set first wins; each finish still records its sentinel
    assert!(hist.iter().filter(|m| **m == LogMsg::Finished).count() == 2);
}

#[test]
fn storage_create_get_update() {
    let mut st = MemoryStorage::new();
    let ctx = ExecutionContext::new(String::from("/work"));
    let id = st.create(&ctx).unwrap();
    let s = st.get(id).unwrap().unwrap();
    assert!(matches!(s.status, SessionStatus::Pending));
    assert_eq!(s.context.working_dir, "/work");
    assert!(s.agent_session_id.is_none());
    assert!(s.created_at >= 0 && s.updated_at == s.created_at);

    st.update_status(id, SessionStatus::Running).unwrap();
    let s = st.get(id).unwrap().unwrap();
    assert!(matches!(s.status, SessionStatus::Running));

    st.set_agent_session_id(id, String::from("agent-77")).unwrap();
    let s = st.get(id).unwrap().unwrap();
    assert_eq!(s.agent_session_id.as_deref(), Some("agent-77"));
}

#[test]
fn storage_ids_are_distinct() {
    let mut st = MemoryStorage::new();
    let ctx = ExecutionContext::new(String::from("/w"));
    let a = st.create(&ctx).unwrap();
    let b = st.create(&ctx).unwrap();
    let c = st.create(&ctx).unwrap();
    assert!(a != b && b != c && a != c);
}

#[test]
fn storage_not_found_errors() {
    let mut st = MemoryStorage::new();
    let ghost_id = SessionId(42);
    assert!(st.get(ghost_id).unwrap().is_none());
    assert!(matches!(
        st.update_status(ghost_id, SessionStatus::Failed),
        Err(StorageError::NotFound(_))
    ));
    assert!(matches!(
        st.append_output(ghost_id, b"x"),
        Err(StorageError::NotFound(_))
    ));
    assert!(matches!(st.get_output(ghost_id), Err(StorageError::NotFound(_))));
}

#[test]
fn storage_output_blob_appends() {
    let mut st = MemoryStorage::new();
    let id = st.create(&ExecutionContext::new(String::from("/w"))).unwrap();
    assert_eq!(st.get_output(id).unwrap(), Vec::<u8>::new());
    st.append_output(id, b"ab").unwrap();
    st.append_output(id, b"cd").unwrap();
    assert_eq!(st.get_output(id).unwrap(), b"abcd".to_vec());
}

#[test]
fn storage_list_filters_and_sorts() {
    let mut st = MemoryStorage::new();
    let id1 = st.create(&ExecutionContext::new(String::from("/one"))).unwrap();
    let id2 = st.create(&ExecutionContext::new(String::from("/two"))).unwrap();
    let _id3 = st.create(&ExecutionContext::new(String::from("/one"))).unwrap();
    st.update_status(id2, SessionStatus::Running).unwrap();

    let all = st.list(&SessionFilter::default()).unwrap();
    assert_eq!(all.len(), 3);
    for w in all.windows(2) {
        assert!(w[0].created_at >= w[1].created_at);
    }

    let filter = SessionFilter {
        status: Some(SessionStatus::Pending),
        working_dir: Some(String::from("/one")),
        limit: None,
    };
    let picked = st.list(&filter).unwrap();
    assert_eq!(picked.len(), 2);
    assert!(picked.iter().all(|s| s.context.working_dir == "/one"));
    assert!(picked.iter().any(|s| s.id == id1));

    let limited = st
        .list(&SessionFilter { status: None, working_dir: None, limit: Some(2) })
        .unwrap();
    assert_eq!(limited.len(), 2);
}

#[test]
fn sqlite_stub_reports_internal() {
    assert!(matches!(SqliteStorage::new("sqlite://x"), Err(StorageError::Internal(_))));
    let mut st = SqliteStorage {};
    assert!(st.create(&ExecutionContext::new(String::from("/w"))).is_err());
}

#[test]
fn metadata_roundtrip() {
    let v: serde_json::Value = serde_json::from_str("{\"k\":1}").unwrap();
    let mut ctx = ExecutionContext::new(String::from("/w"));
    assert!(ctx.get_metadata(&String::from("app")).is_none());
    ctx.set_metadata(String::from("app"), v.clone());
    assert_eq!(ctx.get_metadata(&String::from("app")), Some(&v));
    let v2: serde_json::Value = serde_json::from_str("2").unwrap();
    ctx.set_metadata(String::from("app"), v2.clone());
    assert_eq!(ctx.metadata.len(), 1);
    assert_eq!(ctx.get_metadata(&String::from("app")), Some(&v2));
    let v3: serde_json::Value = serde_json::from_str("[3]").unwrap();
    ctx.set_metadata(String::from("other"), v3.clone());
    assert_eq!(ctx.get_metadata(&String::from("app")), Some(&v2));
    assert_eq!(ctx.get_metadata(&String::from("other")), Some(&v3));
}

#[test]
fn now_is_nonnegative() {
    assert!(now() >= 0);
}

#[test]
fn manager_session_lifecycle() {
    let mut mgr = SessionManager::new(MemoryStorage::new());
    let ctx = ExecutionContext::new(String::from("/w"));
    let id = mgr.start_session(&ctx).unwrap();
    assert!(mgr.get_msg_store(id).is_some());
    assert!(mgr.get_msg_store(SessionId(7)).is_none());

    assert!(mgr.push_msg(id, LogMsg::Stdout(String::from("hello"))));
    assert!(!mgr.push_msg(SessionId(7), LogMsg::Finished));

    // interrupt is recorded once and handed out once
    mgr.interrupt_session(id).unwrap();
    mgr.interrupt_session(id).unwrap();
    mgr.interrupt_session(SessionId(7)).unwrap();
    assert!(mgr.take_interrupt(id));
    assert!(!mgr.take_interrupt(id));

    mgr.finish_session(id, true).unwrap();
    let hist = mgr.get_msg_store(id).unwrap().get_history();
    assert!(hist.last().unwrap() == &LogMsg::Finished);
    let chunks = stdout_chunks_of(&hist);
    assert_eq!(chunks, vec![String::from("hello")]);
}

#[test]
fn manager_follow_up_requires_agent_id() {
    let mut mgr = SessionManager::new(MemoryStorage::new());
    let ctx = ExecutionContext::new(String::from("/w"));
    let id = mgr.start_session(&ctx).unwrap();

    assert!(matches!(
        mgr.start_follow_up(SessionId(1)),
        Err(ManagerError::NotFound(_))
    ));
    assert!(matches!(mgr.start_follow_up(id), Err(ManagerError::NotFound(_))));

    mgr.record_agent_session(id, String::from("agent-9")).unwrap();
    let (new_id, agent) = mgr.start_follow_up(id).unwrap();
    assert_eq!(agent, "agent-9");
    assert!(new_id != id);
    assert!(mgr.get_msg_store(new_id).is_some());
}

#[test]
fn approval_flow_allow() {
    let line = "{\"type\":\"control_request\",\"request_id\":\"r1\",\"request\":{\"subtype\":\"can_use_tool\",\"tool_name\":\"bash\",\"input\":{\"cmd\":\"ls\"},\"tool_use_id\":\"t1\"}}";
    let class = classify_line(line);
    let (request_id, request) = match class {
        InboundClass::Request { request_id, request } => (request_id, request),
        _ => panic!("expected a control request"),
    };
    assert_eq!(request_id, "r1");
    let (tool_name, input, tool_use_id) = match request {
        ControlRequest::CanUseTool { tool_name, input, tool_use_id } => {
            (tool_name, input, tool_use_id)
        },
        _ => panic!("expected can_use_tool"),
    };
    assert_eq!(tool_name, "bash");
    assert_eq!(tool_use_id.as_deref(), Some("t1"));
    assert!(matches!(
        can_use_tool_route(true, &tool_use_id),
        ToolRoute::Ask
    ));
    assert!(matches!(can_use_tool_route(false, &tool_use_id), ToolRoute::AllowUnchanged));
    assert!(matches!(can_use_tool_route(true, &None), ToolRoute::AllowUnchanged));

    // auto-approve: allow with the input unchanged
    let input_json = serde_json::to_string(&input).unwrap();
    let payload = String::from_utf8(allow_payload(&input_json)).unwrap();
    let frame = String::from_utf8(success_response_frame(&request_id, &payload)).unwrap();
    assert_eq!(
        frame,
        "{\"type\":\"control_response\",\"response\":{\"subtype\":\"success\",\"request_id\":\"r1\",\"response\":{\"behavior\":\"allow\",\"updatedInput\":{\"cmd\":\"ls\"},\"updatedPermissions\":null}}}"
    );
}

#[test]
fn approval_flow_deny() {
    let payload = String::from_utf8(deny_payload("nope", Some(true))).unwrap();
    assert_eq!(payload, "{\"behavior\":\"deny\",\"message\":\"nope\",\"interrupt\":true}");
    let frame = String::from_utf8(success_response_frame("r1", &payload)).unwrap();
    assert!(frame.contains("\"request_id\":\"r1\""));
    assert!(frame.contains("\"behavior\":\"deny\""));
    let no_interrupt = String::from_utf8(deny_payload("no", None)).unwrap();
    assert_eq!(no_interrupt, "{\"behavior\":\"deny\",\"message\":\"no\"}");
}

#[test]
fn error_response_carries_handler_error() {
    let err = ApprovalError::RequestFailed(String::from("boom"));
    let frame = String::from_utf8(error_response_frame("r2", &err.message())).unwrap();
    assert_eq!(
        frame,
        "{\"type\":\"control_response\",\"response\":{\"subtype\":\"error\",\"request_id\":\"r2\",\"error\":\"Approval request failed: boom\"}}"
    );
}

#[test]
fn classify_line_shapes() {
    assert!(matches!(classify_line("   \t"), InboundClass::Blank));
    assert!(matches!(classify_line(""), InboundClass::Blank));
    assert!(matches!(classify_line("{\"type\":\"result\"}"), InboundClass::Terminal));
    assert!(matches!(
        classify_line("{\"type\":\"control_response\"}"),
        InboundClass::Response
    ));
    assert!(matches!(classify_line("plain text"), InboundClass::Opaque));
    assert!(matches!(classify_line("{\"type\":\"assistant\"}"), InboundClass::Opaque));
    // a malformed control request is forwarded raw, not answered
    assert!(matches!(
        classify_line("{\"type\":\"control_request\"}"),
        InboundClass::Opaque
    ));
    assert!(matches!(
        classify_line(
            "{\"type\":\"control_request\",\"request_id\":\"r\",\"request\":{\"subtype\":\"mystery\"}}"
        ),
        InboundClass::Opaque
    ));
    // a hook callback is routed with its callback id
    let class = classify_line(
        "{\"type\":\"control_request\",\"request_id\":\"r9\",\"request\":{\"subtype\":\"hook_callback\",\"callback_id\":\"cb\",\"input\":{}}}"
    );
    match class {
        InboundClass::Request { request_id, request } => {
            assert_eq!(request_id, "r9");
            match request {
                ControlRequest::HookCallback { callback_id, tool_use_id, .. } => {
                    assert_eq!(callback_id, "cb");
                    assert!(tool_use_id.is_none());
                },
                _ => panic!("expected hook_callback"),
            }
        },
        _ => panic!("expected a control request"),
    }
}

#[test]
fn hook_payloads() {
    let auto = String::from_utf8(hook_auto_approve_payload()).unwrap();
    assert!(auto.contains("\"permissionDecision\":\"allow\""));
    assert!(auto.contains("Auto-approved"));
    let ask = String::from_utf8(hook_ask_payload("cb-1")).unwrap();
    assert_eq!(
        ask,
        "{\"hookSpecificOutput\":{\"hookEventName\":\"PreToolUse\",\"permissionDecision\":\"ask\",\"permissionDecisionReason\":\"Forwarding cb-1 to approval handler\"}}"
    );
}

#[test]
fn peer_request_frames() {
    let interrupt = String::from_utf8(interrupt_frame()).unwrap();
    assert_eq!(
        interrupt,
        "{\"type\":\"control_request\",\"request\":{\"subtype\":\"interrupt\"}}"
    );
    let init = String::from_utf8(initialize_frame(None)).unwrap();
    assert_eq!(
        init,
        "{\"type\":\"control_request\",\"request\":{\"subtype\":\"initialize\"}}"
    );
    let init_hooks = String::from_utf8(initialize_frame(Some("{\"h\":1}"))).unwrap();
    assert_eq!(
        init_hooks,
        "{\"type\":\"control_request\",\"request\":{\"subtype\":\"initialize\",\"hooks\":{\"h\":1}}}"
    );
    let mode = String::from_utf8(set_permission_mode_frame(PermissionMode::AcceptEdits)).unwrap();
    assert_eq!(
        mode,
        "{\"type\":\"control_request\",\"request\":{\"subtype\":\"set_permission_mode\",\"mode\":\"acceptEdits\"}}"
    );
    let user = String::from_utf8(user_message_frame("run \"it\"")).unwrap();
    assert_eq!(user, "{\"type\":\"user\",\"content\":\"run \\\"it\\\"\"}");
}
