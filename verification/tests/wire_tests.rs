//! Wire protocol tests: base64 payload round trips and the JSON codec.

use remote_agents::wire::{decode_client, decode_server, encode_client, encode_server};
use remote_agents::{ClientMessage, ServerMessage};

#[test]
fn test_input_roundtrip() {
    let original = b"Hello, World!";
    let msg = ClientMessage::input(original);
    let decoded = msg.decode_input().unwrap();
    assert_eq!(decoded, original);
}

#[test]
fn test_output_roundtrip() {
    let original = b"Response data";
    let msg = ServerMessage::output(original);
    let decoded = msg.decode_output().unwrap();
    assert_eq!(decoded, original);
}

#[test]
fn test_message_serialization() {
    let msg = ClientMessage::Resize { cols: 80, rows: 24 };
    let json = String::from_utf8(encode_client(&msg)).unwrap();
    assert!(json.contains("resize"));

    let parsed: ClientMessage = decode_client(json.as_bytes()).unwrap();
    if let ClientMessage::Resize { cols, rows } = parsed {
        assert_eq!(cols, 80);
        assert_eq!(rows, 24);
    } else {
        panic!("Wrong message type");
    }
}

#[test]
fn wire_roundtrip_binary_input() {
    let msg = ClientMessage::input(b"\x00\xff\x10");
    let json = encode_client(&msg);
    let parsed = decode_client(&json).unwrap();
    let decoded = parsed.decode_input().unwrap();
    assert_eq!(decoded, b"\x00\xff\x10");
}

#[test]
fn input_roundtrip_empty() {
    let msg = ClientMessage::input(b"");
    assert_eq!(msg.decode_input().unwrap(), b"");
}

#[test]
fn decode_input_rejects_other_frames() {
    assert!(ClientMessage::Ping.decode_input().is_none());
    assert!(ClientMessage::Interrupt.decode_input().is_none());
}

#[test]
fn decode_input_rejects_bad_base64() {
    let msg = ClientMessage::Input { data: String::from("not base64 !!") };
    assert!(msg.decode_input().is_none());
}

#[test]
fn client_json_shapes() {
    let json = String::from_utf8(encode_client(&ClientMessage::Ping)).unwrap();
    assert_eq!(json, "{\"type\":\"ping\"}");
    let json = String::from_utf8(encode_client(&ClientMessage::Interrupt)).unwrap();
    assert_eq!(json, "{\"type\":\"interrupt\"}");
    let json = String::from_utf8(encode_client(&ClientMessage::Resize { cols: 80, rows: 24 }))
        .unwrap();
    assert_eq!(json, "{\"type\":\"resize\",\"cols\":80,\"rows\":24}");
}

#[test]
fn client_roundtrip_all_variants() {
    let msgs = vec![
        ClientMessage::input(b"abc"),
        ClientMessage::Resize { cols: 1, rows: 65535 },
        ClientMessage::StartSession {
            working_dir: String::from("/tmp/w d"),
            prompt: String::from("say \"hi\"\nplease \\ now"),
        },
        ClientMessage::ContinueSession {
            session_id: String::from("123e4567"),
            prompt: String::from("continue"),
        },
        ClientMessage::Interrupt,
        ClientMessage::Ping,
    ];
    for m in msgs {
        let json = encode_client(&m);
        let parsed = decode_client(&json).unwrap();
        assert!(parsed == m);
    }
}

#[test]
fn server_roundtrip_all_variants() {
    let msgs = vec![
        ServerMessage::output(b"\x01\x02"),
        ServerMessage::SessionStarted { session_id: String::from("sid-1") },
        ServerMessage::SessionEnded { session_id: String::from("sid-1"), success: true },
        ServerMessage::SessionEnded { session_id: String::from("sid-2"), success: false },
        ServerMessage::Error { message: String::from("bad \"frame\"") },
        ServerMessage::Pong,
    ];
    for m in msgs {
        let json = encode_server(&m);
        let parsed = decode_server(&json).unwrap();
        assert!(parsed == m);
    }
}

#[test]
fn server_json_shapes() {
    let json = String::from_utf8(encode_server(&ServerMessage::SessionEnded {
        session_id: String::from("s"),
        success: false,
    }))
    .unwrap();
    assert_eq!(
        json,
        "{\"type\":\"session_ended\",\"session_id\":\"s\",\"success\":false}"
    );
    let json = String::from_utf8(encode_server(&ServerMessage::Pong)).unwrap();
    assert_eq!(json, "{\"type\":\"pong\"}");
}

#[test]
fn decode_rejects_garbage() {
    assert!(decode_client(b"not json").is_none());
    assert!(decode_client(b"{\"type\":\"ping\"} ").is_none());
    assert!(decode_server(b"{\"type\":\"unknown\"}").is_none());
    assert!(decode_client(b"").is_none());
}
