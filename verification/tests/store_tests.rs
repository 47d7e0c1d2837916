//! Message store tests: eviction, fan-out, reconnect seam, chunked views.

use remote_agents::log_msg::LogMsg;
use remote_agents::msg_store::{stdout_chunks_of, MsgStore, RecvResult};

fn payload(n: usize, c: u8) -> String {
    String::from_utf8(vec![c; n]).unwrap()
}

#[test]
fn history_eviction_budget() {
    let mut store = MsgStore::with_budget(1024);
    for k in 0..10u8 {
        store.push_stdout(payload(200, b'a' + k));
        if k == 5 {
            // after the sixth push the oldest must be gone
            assert_eq!(store.get_history().len(), 5);
        }
    }
    let hist = store.get_history();
    assert_eq!(hist.len(), 5);
    for (idx, m) in hist.iter().enumerate() {
        assert!(*m == LogMsg::Stdout(payload(200, b'a' + 5 + idx as u8)));
    }
    let total = store.total_bytes();
    assert!((1000..=1024).contains(&total));
}

#[test]
fn oversized_message_is_still_retained() {
    let mut store = MsgStore::with_budget(16);
    store.push_stdout(payload(4, b'x'));
    store.push_stdout(payload(100, b'y'));
    let hist = store.get_history();
    assert_eq!(hist.len(), 1);
    assert!(hist[0] == LogMsg::Stdout(payload(100, b'y')));
}

#[test]
fn reconnect_seam() {
    let mut store = MsgStore::new();
    let a = store.get_receiver();
    store.push_stdout(String::from("a"));
    store.push_stdout(String::from("b"));
    let mut b = store.history_plus_stream();
    store.push_stdout(String::from("c"));

    let mut got_a: Vec<LogMsg> = Vec::new();
    loop {
        match store.try_recv(a) {
            RecvResult::Msg(m) => got_a.push(m),
            RecvResult::Lagged => continue,
            RecvResult::Empty => break,
        }
    }
    assert_eq!(got_a.len(), 3);
    assert!(got_a[0] == LogMsg::Stdout(String::from("a")));
    assert!(got_a[1] == LogMsg::Stdout(String::from("b")));
    assert!(got_a[2] == LogMsg::Stdout(String::from("c")));

    let mut got_b: Vec<LogMsg> = Vec::new();
    while let Some(m) = b.next(&mut store) {
        got_b.push(m);
    }
    assert_eq!(got_b.len(), 3);
    assert!(got_b[0] == LogMsg::Stdout(String::from("a")));
    assert!(got_b[1] == LogMsg::Stdout(String::from("b")));
    assert!(got_b[2] == LogMsg::Stdout(String::from("c")));
}

#[test]
fn finished_terminates_chunked_stream() {
    let mut store = MsgStore::new();
    store.push_stdout(String::from("x"));
    store.push_finished();
    store.push_stdout(String::from("y"));

    let mut t = store.stdout_chunked_stream();
    assert_eq!(t.next(&mut store), Some(String::from("x")));
    assert_eq!(t.next(&mut store), None);
    assert_eq!(t.next(&mut store), None);

    let chunks = stdout_chunks_of(&store.get_history());
    assert_eq!(chunks, vec![String::from("x")]);
}

#[test]
fn stderr_chunked_stream_filters_kind() {
    let mut store = MsgStore::new();
    store.push_stdout(String::from("out"));
    store.push_stderr(String::from("err1"));
    store.push_stderr(String::from("err2"));
    let mut t = store.stderr_chunked_stream();
    assert_eq!(t.next(&mut store), Some(String::from("err1")));
    assert_eq!(t.next(&mut store), Some(String::from("err2")));
    assert_eq!(t.next(&mut store), None);
}

#[test]
fn subscriber_receives_in_push_order() {
    let mut store = MsgStore::new();
    let s = store.get_receiver();
    store.push_session_id(String::from("agent-1"));
    store.push_stderr(String::from("e"));
    store.push_finished();
    let mut got: Vec<LogMsg> = Vec::new();
    loop {
        match store.try_recv(s) {
            RecvResult::Msg(m) => got.push(m),
            RecvResult::Lagged => continue,
            RecvResult::Empty => break,
        }
    }
    assert_eq!(got.len(), 3);
    assert!(got[0] == LogMsg::SessionId(String::from("agent-1")));
    assert!(got[1] == LogMsg::Stderr(String::from("e")));
    assert!(got[2] == LogMsg::Finished);
}

#[test]
fn push_patch_retains_serialized_patch() {
    let patch: json_patch::Patch = serde_json::from_str("[]").unwrap();
    let mut store = MsgStore::new();
    store.push_patch(&patch);
    let hist = store.get_history();
    assert_eq!(hist.len(), 1);
    assert!(hist[0] == LogMsg::JsonPatch(String::from("[]")));
}

#[test]
fn approx_bytes_costs() {
    assert_eq!(LogMsg::Stdout(String::from("abcd")).approx_bytes(), 8);
    assert_eq!(LogMsg::Finished.approx_bytes(), 8);
    assert_eq!(LogMsg::JsonPatch(String::from("[]")).approx_bytes(), 2);
}
