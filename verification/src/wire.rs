//! Client/server wire protocol: typed frames with base64 payloads and a
//! canonical JSON codec with a proved round trip.

use vstd::prelude::*;
use vstd::string::StringSliceAdditionalSpecFns;
use vstd::utf8::{decode_utf8, encode_utf8};

use crate::jsontext::{
    bytes_eq, dec_digits, eat_lit, json_escape, lemma_parse_of_dec, lemma_unesc_of_escaped,
    parse_u16_at, put_escaped, put_lit, put_u16, scan_string, scan_u16, string_from_utf8,
    unesc_at,
};

verus! {

broadcast use {
    vstd::string::is_ascii_spec_bytes,
    vstd::utf8::encode_utf8_valid_utf8,
    vstd::utf8::encode_utf8_decode_utf8,
};

/// What standard base64 (RFC 4648 alphabet, canonical padding) makes of a
/// byte string.
pub uninterp spec fn b64_of(b: Seq<u8>) -> Seq<char>;

/// Relies on base64's STANDARD engine encode: RFC 4648 standard alphabet
/// with padding; the result is a function of the input bytes alone.
#[verifier::external_body]
fn b64_encode(data: &[u8]) -> (r: String)
    ensures
        r@ == b64_of(data@),
{
    base64::Engine::encode(&base64::engine::general_purpose::STANDARD, data)
}

/// Relies on base64's STANDARD engine decode: with canonical padding
/// required and trailing bits rejected, decoding succeeds exactly on the
/// encoder's outputs and inverts the encoding.
#[verifier::external_body]
fn b64_decode(data: &str) -> (r: Option<Vec<u8>>)
    ensures
        r is Some <==> exists|b: Seq<u8>| data@ == b64_of(b),
        r matches Some(v) ==> forall|b: Seq<u8>| data@ == #[trigger] b64_of(b) ==> v@ == b,
{
    match base64::Engine::decode(&base64::engine::general_purpose::STANDARD, data) {
        Ok(v) => Some(v),
        Err(_) => None,
    }
}

/// Mathematical value of a client frame.
pub enum ClientMessageView {
    Input { data: Seq<char> },
    Resize { cols: u16, rows: u16 },
    StartSession { working_dir: Seq<char>, prompt: Seq<char> },
    ContinueSession { session_id: Seq<char>, prompt: Seq<char> },
    Interrupt,
    Ping,
}

/// Message from client to server.
#[derive(Debug)]
pub enum ClientMessage {
    /// Terminal input data (base64 encoded).
    Input { data: String },
    /// Resize the terminal.
    Resize { cols: u16, rows: u16 },
    /// Start a new session.
    StartSession { working_dir: String, prompt: String },
    /// Continue an existing session.
    ContinueSession { session_id: String, prompt: String },
    /// Interrupt the current session.
    Interrupt,
    /// Ping for keepalive.
    Ping,
}

impl View for ClientMessage {
    type V = ClientMessageView;

    open spec fn view(&self) -> ClientMessageView {
        match self {
            ClientMessage::Input { data } => ClientMessageView::Input { data: data@ },
            ClientMessage::Resize { cols, rows } => ClientMessageView::Resize {
                cols: *cols,
                rows: *rows,
            },
            ClientMessage::StartSession { working_dir, prompt } => ClientMessageView::StartSession {
                working_dir: working_dir@,
                prompt: prompt@,
            },
            ClientMessage::ContinueSession { session_id, prompt } => ClientMessageView::ContinueSession {
                session_id: session_id@,
                prompt: prompt@,
            },
            ClientMessage::Interrupt => ClientMessageView::Interrupt,
            ClientMessage::Ping => ClientMessageView::Ping,
        }
    }
}

impl Clone for ClientMessage {
    fn clone(&self) -> (r: Self)
        ensures
            r@ == self@,
    {
        match self {
            ClientMessage::Input { data } => ClientMessage::Input { data: data.clone() },
            ClientMessage::Resize { cols, rows } => ClientMessage::Resize {
                cols: *cols,
                rows: *rows,
            },
            ClientMessage::StartSession { working_dir, prompt } => ClientMessage::StartSession {
                working_dir: working_dir.clone(),
                prompt: prompt.clone(),
            },
            ClientMessage::ContinueSession { session_id, prompt } => ClientMessage::ContinueSession {
                session_id: session_id.clone(),
                prompt: prompt.clone(),
            },
            ClientMessage::Interrupt => ClientMessage::Interrupt,
            ClientMessage::Ping => ClientMessage::Ping,
        }
    }
}

impl PartialEq for ClientMessage {
    fn eq(&self, other: &Self) -> (r: bool) {
        match self {
            ClientMessage::Input { data } => match other {
                ClientMessage::Input { data: d2 } => *data == *d2,
                _ => false,
            },
            ClientMessage::Resize { cols, rows } => match other {
                ClientMessage::Resize { cols: c2, rows: r2 } => *cols == *c2 && *rows == *r2,
                _ => false,
            },
            ClientMessage::StartSession { working_dir, prompt } => match other {
                ClientMessage::StartSession { working_dir: w2, prompt: p2 } => *working_dir == *w2
                    && *prompt == *p2,
                _ => false,
            },
            ClientMessage::ContinueSession { session_id, prompt } => match other {
                ClientMessage::ContinueSession { session_id: s2, prompt: p2 } => *session_id == *s2
                    && *prompt == *p2,
                _ => false,
            },
            ClientMessage::Interrupt => match other {
                ClientMessage::Interrupt => true,
                _ => false,
            },
            ClientMessage::Ping => match other {
                ClientMessage::Ping => true,
                _ => false,
            },
        }
    }
}

impl vstd::std_specs::cmp::PartialEqSpecImpl for ClientMessage {
    open spec fn obeys_eq_spec() -> bool {
        true
    }

    open spec fn eq_spec(&self, other: &Self) -> bool {
        self@ == other@
    }
}

/// The canonical JSON frame for a client message.
pub open spec fn client_json(m: ClientMessageView) -> Seq<u8> {
    match m {
        ClientMessageView::Input { data } => ("{\"type\":\"input\",\"data\":\"").spec_bytes() + (
        json_escape(encode_utf8(data)) + ("\"}").spec_bytes()),
        ClientMessageView::Resize { cols, rows } => ("{\"type\":\"resize\",\"cols\":").spec_bytes()
            + (dec_digits(cols as nat) + ((",\"rows\":").spec_bytes() + (dec_digits(rows as nat)
            + ("}").spec_bytes()))),
        ClientMessageView::StartSession { working_dir, prompt } => (
        "{\"type\":\"start_session\",\"working_dir\":\"").spec_bytes() + (json_escape(
            encode_utf8(working_dir),
        ) + (("\",\"prompt\":\"").spec_bytes() + (json_escape(encode_utf8(prompt)) + (
        "\"}").spec_bytes()))),
        ClientMessageView::ContinueSession { session_id, prompt } => (
        "{\"type\":\"continue_session\",\"session_id\":\"").spec_bytes() + (json_escape(
            encode_utf8(session_id),
        ) + (("\",\"prompt\":\"").spec_bytes() + (json_escape(encode_utf8(prompt)) + (
        "\"}").spec_bytes()))),
        ClientMessageView::Interrupt => ("{\"type\":\"interrupt\"}").spec_bytes(),
        ClientMessageView::Ping => ("{\"type\":\"ping\"}").spec_bytes(),
    }
}

/// Serialize a client message to its canonical JSON frame.
pub fn encode_client(m: &ClientMessage) -> (r: Vec<u8>)
    ensures
        r@ == client_json(m@),
{
    let mut out: Vec<u8> = Vec::new();
    match m {
        ClientMessage::Input { data } => {
            put_lit(&mut out, "{\"type\":\"input\",\"data\":\"");
            put_escaped(&mut out, data.as_str().as_bytes());
            put_lit(&mut out, "\"}");
        },
        ClientMessage::Resize { cols, rows } => {
            put_lit(&mut out, "{\"type\":\"resize\",\"cols\":");
            put_u16(&mut out, *cols);
            put_lit(&mut out, ",\"rows\":");
            put_u16(&mut out, *rows);
            put_lit(&mut out, "}");
        },
        ClientMessage::StartSession { working_dir, prompt } => {
            put_lit(&mut out, "{\"type\":\"start_session\",\"working_dir\":\"");
            put_escaped(&mut out, working_dir.as_str().as_bytes());
            put_lit(&mut out, "\",\"prompt\":\"");
            put_escaped(&mut out, prompt.as_str().as_bytes());
            put_lit(&mut out, "\"}");
        },
        ClientMessage::ContinueSession { session_id, prompt } => {
            put_lit(&mut out, "{\"type\":\"continue_session\",\"session_id\":\"");
            put_escaped(&mut out, session_id.as_str().as_bytes());
            put_lit(&mut out, "\",\"prompt\":\"");
            put_escaped(&mut out, prompt.as_str().as_bytes());
            put_lit(&mut out, "\"}");
        },
        ClientMessage::Interrupt => {
            put_lit(&mut out, "{\"type\":\"interrupt\"}");
        },
        ClientMessage::Ping => {
            put_lit(&mut out, "{\"type\":\"ping\"}");
        },
    }
    proof {
        assert(out@ =~= client_json(m@));
    }
    out
}

proof fn lemma_prefix_chars_agree(iv: Seq<u8>, a: &str, b: &str, k: int)
    requires
        vstd::string::is_ascii(a),
        vstd::string::is_ascii(b),
        a.spec_bytes().len() <= iv.len(),
        b.spec_bytes().len() <= iv.len(),
        iv.subrange(0, a.spec_bytes().len() as int) == a.spec_bytes(),
        iv.subrange(0, b.spec_bytes().len() as int) == b.spec_bytes(),
        0 <= k < a@.len(),
        k < b@.len(),
    ensures
        (a@[k] as u8) == (b@[k] as u8),
{
    assert(iv.subrange(0, a.spec_bytes().len() as int)[k] == iv[k]);
    assert(iv.subrange(0, b.spec_bytes().len() as int)[k] == iv[k]);
    assert(a.spec_bytes()[k] == a@[k] as u8);
    assert(b.spec_bytes()[k] == b@[k] as u8);
}

/// The branch literal that opens each kind of client frame.
spec fn client_lit(m: ClientMessageView) -> &'static str {
    match m {
        ClientMessageView::Input { .. } => "{\"type\":\"input\",\"data\":\"",
        ClientMessageView::Resize { .. } => "{\"type\":\"resize\",\"cols\":",
        ClientMessageView::StartSession { .. } => "{\"type\":\"start_session\",\"working_dir\":\"",
        ClientMessageView::ContinueSession { .. } => "{\"type\":\"continue_session\",\"session_id\":\"",
        ClientMessageView::Interrupt => "{\"type\":\"interrupt\"}",
        ClientMessageView::Ping => "{\"type\":\"ping\"}",
    }
}

proof fn lemma_client_lit_prefix(mv: ClientMessageView, iv: Seq<u8>)
    requires
        iv == client_json(mv),
    ensures
        client_lit(mv).spec_bytes().len() <= iv.len(),
        iv.subrange(0, client_lit(mv).spec_bytes().len() as int) == client_lit(mv).spec_bytes(),
{
    let lb = client_lit(mv).spec_bytes();
    match mv {
        ClientMessageView::Input { .. } => {
            assert(iv.subrange(0, lb.len() as int) =~= lb);
        },
        ClientMessageView::Resize { .. } => {
            assert(iv.subrange(0, lb.len() as int) =~= lb);
        },
        ClientMessageView::StartSession { .. } => {
            assert(iv.subrange(0, lb.len() as int) =~= lb);
        },
        ClientMessageView::ContinueSession { .. } => {
            assert(iv.subrange(0, lb.len() as int) =~= lb);
        },
        ClientMessageView::Interrupt => {
            assert(iv.subrange(0, lb.len() as int) =~= lb);
        },
        ClientMessageView::Ping => {
            assert(iv.subrange(0, lb.len() as int) =~= lb);
        },
    }
}

proof fn reveal_client_lits()
    ensures
        vstd::string::is_ascii("{\"type\":\"input\",\"data\":\""),
        vstd::string::is_ascii("{\"type\":\"resize\",\"cols\":"),
        vstd::string::is_ascii("{\"type\":\"start_session\",\"working_dir\":\""),
        vstd::string::is_ascii("{\"type\":\"continue_session\",\"session_id\":\""),
        vstd::string::is_ascii("{\"type\":\"interrupt\"}"),
        vstd::string::is_ascii("{\"type\":\"ping\"}"),
        ("{\"type\":\"input\",\"data\":\""@)[9] == 'i',
        ("{\"type\":\"input\",\"data\":\""@)[11] == 'p',
        ("{\"type\":\"input\",\"data\":\""@).len() == 24,
        ("{\"type\":\"resize\",\"cols\":"@)[9] == 'r',
        ("{\"type\":\"resize\",\"cols\":"@).len() == 24,
        ("{\"type\":\"start_session\",\"working_dir\":\""@)[9] == 's',
        ("{\"type\":\"start_session\",\"working_dir\":\""@).len() == 39,
        ("{\"type\":\"continue_session\",\"session_id\":\""@)[9] == 'c',
        ("{\"type\":\"continue_session\",\"session_id\":\""@).len() == 41,
        ("{\"type\":\"interrupt\"}"@)[9] == 'i',
        ("{\"type\":\"interrupt\"}"@)[11] == 't',
        ("{\"type\":\"interrupt\"}"@).len() == 20,
        ("{\"type\":\"ping\"}"@)[9] == 'p',
        ("{\"type\":\"ping\"}"@).len() == 15,
{
    reveal_strlit("{\"type\":\"input\",\"data\":\"");
    reveal_strlit("{\"type\":\"resize\",\"cols\":");
    reveal_strlit("{\"type\":\"start_session\",\"working_dir\":\"");
    reveal_strlit("{\"type\":\"continue_session\",\"session_id\":\"");
    reveal_strlit("{\"type\":\"interrupt\"}");
    reveal_strlit("{\"type\":\"ping\"}");
}

proof fn lemma_quote_lits()
    ensures
        vstd::string::is_ascii("\"}"),
        vstd::string::is_ascii("}"),
        vstd::string::is_ascii(",\"rows\":"),
        vstd::string::is_ascii("\",\"prompt\":\""),
        vstd::string::is_ascii(",\"prompt\":\""),
        ("\"}").spec_bytes() =~= seq![0x22u8, 0x7du8],
        ("}").spec_bytes() =~= seq![0x7du8],
        (",\"rows\":").spec_bytes().len() == 8,
        (",\"rows\":").spec_bytes()[0] == 0x2cu8,
        ("\",\"prompt\":\"").spec_bytes() =~= seq![0x22u8] + (",\"prompt\":\"").spec_bytes(),
        (",\"prompt\":\"").spec_bytes().len() == 11,
{
    reveal_strlit("\"}");
    reveal_strlit("}");
    reveal_strlit(",\"rows\":");
    reveal_strlit("\",\"prompt\":\"");
    reveal_strlit(",\"prompt\":\"");
    assert(("\"}").is_ascii());
    assert(("}").is_ascii());
    assert((",\"rows\":").is_ascii());
    assert(("\",\"prompt\":\"").is_ascii());
    assert((",\"prompt\":\"").is_ascii());
    assert(("\"}").spec_bytes() =~= seq![0x22u8, 0x7du8]);
    assert(("}").spec_bytes() =~= seq![0x7du8]);
    assert(("\",\"prompt\":\"").spec_bytes() =~= seq![0x22u8] + (",\"prompt\":\"").spec_bytes());
}

proof fn lemma_input_frame_parts(iv: Seq<u8>, data: Seq<char>)
    requires
        iv == client_json(ClientMessageView::Input { data }),
    ensures
        ({
            let l = ("{\"type\":\"input\",\"data\":\"").spec_bytes().len() as int;
            let e = json_escape(encode_utf8(data)).len() as int;
            &&& iv.len() == l + e + 2
            &&& unesc_at(iv.skip(l)) == Some((encode_utf8(data), e + 1))
            &&& iv.subrange(l + e + 1, l + e + 2) == ("}").spec_bytes()
        }),
{
    lemma_quote_lits();
    let l = ("{\"type\":\"input\",\"data\":\"").spec_bytes().len() as int;
    let e = json_escape(encode_utf8(data)).len() as int;
    assert(iv.skip(l) =~= json_escape(encode_utf8(data)) + seq![0x22u8] + seq![0x7du8]);
    lemma_unesc_of_escaped(encode_utf8(data), seq![0x7du8]);
    assert(iv.subrange(l + e + 1, l + e + 2) =~= seq![0x7du8]);
}

proof fn lemma_resize_frame_parts(iv: Seq<u8>, cols: u16, rows: u16)
    requires
        iv == client_json(ClientMessageView::Resize { cols, rows }),
    ensures
        ({
            let l = ("{\"type\":\"resize\",\"cols\":").spec_bytes().len() as int;
            let d1 = dec_digits(cols as nat).len() as int;
            let lm = (",\"rows\":").spec_bytes().len() as int;
            let d2 = dec_digits(rows as nat).len() as int;
            &&& iv.len() == l + d1 + lm + d2 + 1
            &&& parse_u16_at(iv.skip(l)) == Some((cols, d1))
            &&& iv.subrange(l + d1, l + d1 + lm) == (",\"rows\":").spec_bytes()
            &&& parse_u16_at(iv.skip(l + d1 + lm)) == Some((rows, d2))
            &&& iv.subrange(l + d1 + lm + d2, l + d1 + lm + d2 + 1) == ("}").spec_bytes()
        }),
{
    lemma_quote_lits();
    let l = ("{\"type\":\"resize\",\"cols\":").spec_bytes().len() as int;
    let d1 = dec_digits(cols as nat).len() as int;
    let lm = (",\"rows\":").spec_bytes().len() as int;
    let d2 = dec_digits(rows as nat).len() as int;
    let rest1 = (",\"rows\":").spec_bytes() + (dec_digits(rows as nat) + ("}").spec_bytes());
    assert(iv.skip(l) =~= dec_digits(cols as nat) + rest1);
    assert(rest1[0] == 0x2cu8);
    assert(!crate::jsontext::is_digit(rest1[0]));
    lemma_parse_of_dec(cols, rest1);
    assert(iv.subrange(l + d1, l + d1 + lm) =~= (",\"rows\":").spec_bytes());
    let rest2 = ("}").spec_bytes();
    assert(iv.skip(l + d1 + lm) =~= dec_digits(rows as nat) + rest2);
    assert(rest2[0] == 0x7du8);
    lemma_parse_of_dec(rows, rest2);
    assert(iv.subrange(l + d1 + lm + d2, l + d1 + lm + d2 + 1) =~= seq![0x7du8]);
}

proof fn lemma_two_string_frame_parts(iv: Seq<u8>, lit: &str, first: Seq<char>, second: Seq<char>)
    requires
        iv == lit.spec_bytes() + (json_escape(encode_utf8(first)) + (("\",\"prompt\":\"").spec_bytes() + (
        json_escape(encode_utf8(second)) + ("\"}").spec_bytes()))),
    ensures
        ({
            let l = lit.spec_bytes().len() as int;
            let e1 = json_escape(encode_utf8(first)).len() as int;
            let lm = (",\"prompt\":\"").spec_bytes().len() as int;
            let e2 = json_escape(encode_utf8(second)).len() as int;
            &&& iv.len() == l + e1 + 1 + lm + e2 + 2
            &&& unesc_at(iv.skip(l)) == Some((encode_utf8(first), e1 + 1))
            &&& iv.subrange(l + e1 + 1, l + e1 + 1 + lm) == (",\"prompt\":\"").spec_bytes()
            &&& unesc_at(iv.skip(l + e1 + 1 + lm)) == Some((encode_utf8(second), e2 + 1))
            &&& iv.subrange(l + e1 + 1 + lm + e2 + 1, l + e1 + 1 + lm + e2 + 2) == (
            "}").spec_bytes()
        }),
{
    lemma_quote_lits();
    let l = lit.spec_bytes().len() as int;
    let e1 = json_escape(encode_utf8(first)).len() as int;
    let lm = (",\"prompt\":\"").spec_bytes().len() as int;
    let e2 = json_escape(encode_utf8(second)).len() as int;
    let tail1 = (",\"prompt\":\"").spec_bytes() + (json_escape(encode_utf8(second)) + seq![
        0x22u8,
    ] + seq![0x7du8]);
    assert(iv.skip(l) =~= json_escape(encode_utf8(first)) + seq![0x22u8] + tail1);
    lemma_unesc_of_escaped(encode_utf8(first), tail1);
    assert(iv.subrange(l + e1 + 1, l + e1 + 1 + lm) =~= (",\"prompt\":\"").spec_bytes());
    assert(iv.skip(l + e1 + 1 + lm) =~= json_escape(encode_utf8(second)) + seq![0x22u8] + seq![
        0x7du8,
    ]);
    lemma_unesc_of_escaped(encode_utf8(second), seq![0x7du8]);
    assert(iv.subrange(l + e1 + 1 + lm + e2 + 1, l + e1 + 1 + lm + e2 + 2) =~= seq![0x7du8]);
}

#[verifier::rlimit(100)]
fn parse_client(input: &[u8]) -> (r: Option<ClientMessage>)
    ensures
        forall|mv: ClientMessageView| input@ == client_json(mv) ==> (r matches Some(m2) && m2@
            == mv),
{
    let ghost iv = input@;
    let n = input.len();
    if let Some(p1) = eat_lit(input, 0, "{\"type\":\"input\",\"data\":\"") {
        proof {
            reveal_client_lits();
            assert forall|mv: ClientMessageView| iv == client_json(mv) implies mv is Input by {
                lemma_client_lit_prefix(mv, iv);
                match mv {
                    ClientMessageView::Resize { .. } => {
                        lemma_prefix_chars_agree(
                            iv,
                            "{\"type\":\"input\",\"data\":\"",
                            "{\"type\":\"resize\",\"cols\":",
                            9,
                        );
                    },
                    ClientMessageView::StartSession { .. } => {
                        lemma_prefix_chars_agree(
                            iv,
                            "{\"type\":\"input\",\"data\":\"",
                            "{\"type\":\"start_session\",\"working_dir\":\"",
                            9,
                        );
                    },
                    ClientMessageView::ContinueSession { .. } => {
                        lemma_prefix_chars_agree(
                            iv,
                            "{\"type\":\"input\",\"data\":\"",
                            "{\"type\":\"continue_session\",\"session_id\":\"",
                            9,
                        );
                    },
                    ClientMessageView::Interrupt => {
                        lemma_prefix_chars_agree(
                            iv,
                            "{\"type\":\"input\",\"data\":\"",
                            "{\"type\":\"interrupt\"}",
                            11,
                        );
                    },
                    ClientMessageView::Ping => {
                        lemma_prefix_chars_agree(
                            iv,
                            "{\"type\":\"input\",\"data\":\"",
                            "{\"type\":\"ping\"}",
                            9,
                        );
                    },
                    _ => {},
                }
            }
            assert forall|mv: ClientMessageView| iv == client_json(mv) implies match mv {
                ClientMessageView::Input { data } => {
                    let e = json_escape(encode_utf8(data)).len() as int;
                    &&& iv.len() == p1 + e + 2
                    &&& unesc_at(iv.skip(p1 as int)) == Some((encode_utf8(data), e + 1))
                    &&& iv.subrange(p1 + e + 1, p1 + e + 2) == ("}").spec_bytes()
                },
                _ => false,
            } by {
                if let ClientMessageView::Input { data } = mv {
                    lemma_input_frame_parts(iv, data);
                }
            }
        }
        match scan_string(input, p1) {
            Some((bytes, p2)) => {
                if let Some(p3) = eat_lit(input, p2, "}") {
                    if p3 == n {
                        match string_from_utf8(bytes) {
                            Some(s) => {
                                return Some(ClientMessage::Input { data: s });
                            },
                            None => {
                                return None;
                            },
                        }
                    }
                }
                return None;
            },
            None => {
                return None;
            },
        }
    }
    if let Some(p1) = eat_lit(input, 0, "{\"type\":\"resize\",\"cols\":") {
        proof {
            reveal_client_lits();
            assert forall|mv: ClientMessageView| iv == client_json(mv) implies mv is Resize by {
                lemma_client_lit_prefix(mv, iv);
                match mv {
                    ClientMessageView::Input { .. } => {
                        lemma_prefix_chars_agree(
                            iv,
                            "{\"type\":\"resize\",\"cols\":",
                            "{\"type\":\"input\",\"data\":\"",
                            9,
                        );
                    },
                    ClientMessageView::StartSession { .. } => {
                        lemma_prefix_chars_agree(
                            iv,
                            "{\"type\":\"resize\",\"cols\":",
                            "{\"type\":\"start_session\",\"working_dir\":\"",
                            9,
                        );
                    },
                    ClientMessageView::ContinueSession { .. } => {
                        lemma_prefix_chars_agree(
                            iv,
                            "{\"type\":\"resize\",\"cols\":",
                            "{\"type\":\"continue_session\",\"session_id\":\"",
                            9,
                        );
                    },
                    ClientMessageView::Interrupt => {
                        lemma_prefix_chars_agree(
                            iv,
                            "{\"type\":\"resize\",\"cols\":",
                            "{\"type\":\"interrupt\"}",
                            9,
                        );
                    },
                    ClientMessageView::Ping => {
                        lemma_prefix_chars_agree(
                            iv,
                            "{\"type\":\"resize\",\"cols\":",
                            "{\"type\":\"ping\"}",
                            9,
                        );
                    },
                    _ => {},
                }
            }
            assert forall|mv: ClientMessageView| iv == client_json(mv) implies match mv {
                ClientMessageView::Resize { cols, rows } => {
                    let d1 = dec_digits(cols as nat).len() as int;
                    let lm = (",\"rows\":").spec_bytes().len() as int;
                    let d2 = dec_digits(rows as nat).len() as int;
                    &&& iv.len() == p1 + d1 + lm + d2 + 1
                    &&& parse_u16_at(iv.skip(p1 as int)) == Some((cols, d1))
                    &&& iv.subrange(p1 + d1, p1 + d1 + lm) == (",\"rows\":").spec_bytes()
                    &&& parse_u16_at(iv.skip(p1 + d1 + lm)) == Some((rows, d2))
                    &&& iv.subrange(p1 + d1 + lm + d2, p1 + d1 + lm + d2 + 1) == (
                    "}").spec_bytes()
                },
                _ => false,
            } by {
                if let ClientMessageView::Resize { cols, rows } = mv {
                    lemma_resize_frame_parts(iv, cols, rows);
                }
            }
        }
        match scan_u16(input, p1) {
            Some((cols, p2)) => {
                if let Some(p3) = eat_lit(input, p2, ",\"rows\":") {
                    match scan_u16(input, p3) {
                        Some((rows, p4)) => {
                            if let Some(p5) = eat_lit(input, p4, "}") {
                                if p5 == n {
                                    return Some(ClientMessage::Resize { cols, rows });
                                }
                            }
                            return None;
                        },
                        None => {
                            return None;
                        },
                    }
                }
                return None;
            },
            None => {
                return None;
            },
        }
    }
    if let Some(p1) = eat_lit(input, 0, "{\"type\":\"start_session\",\"working_dir\":\"") {
        proof {
            reveal_client_lits();
            assert forall|mv: ClientMessageView| iv == client_json(mv) implies mv
                is StartSession by {
                lemma_client_lit_prefix(mv, iv);
                match mv {
                    ClientMessageView::Input { .. } => {
                        lemma_prefix_chars_agree(
                            iv,
                            "{\"type\":\"start_session\",\"working_dir\":\"",
                            "{\"type\":\"input\",\"data\":\"",
                            9,
                        );
                    },
                    ClientMessageView::Resize { .. } => {
                        lemma_prefix_chars_agree(
                            iv,
                            "{\"type\":\"start_session\",\"working_dir\":\"",
                            "{\"type\":\"resize\",\"cols\":",
                            9,
                        );
                    },
                    ClientMessageView::ContinueSession { .. } => {
                        lemma_prefix_chars_agree(
                            iv,
                            "{\"type\":\"start_session\",\"working_dir\":\"",
                            "{\"type\":\"continue_session\",\"session_id\":\"",
                            9,
                        );
                    },
                    ClientMessageView::Interrupt => {
                        lemma_prefix_chars_agree(
                            iv,
                            "{\"type\":\"start_session\",\"working_dir\":\"",
                            "{\"type\":\"interrupt\"}",
                            9,
                        );
                    },
                    ClientMessageView::Ping => {
                        lemma_prefix_chars_agree(
                            iv,
                            "{\"type\":\"start_session\",\"working_dir\":\"",
                            "{\"type\":\"ping\"}",
                            9,
                        );
                    },
                    _ => {},
                }
            }
            assert forall|mv: ClientMessageView| iv == client_json(mv) implies match mv {
                ClientMessageView::StartSession { working_dir, prompt } => {
                    let e1 = json_escape(encode_utf8(working_dir)).len() as int;
                    let lm = (",\"prompt\":\"").spec_bytes().len() as int;
                    let e2 = json_escape(encode_utf8(prompt)).len() as int;
                    &&& iv.len() == p1 + e1 + 1 + lm + e2 + 2
                    &&& unesc_at(iv.skip(p1 as int)) == Some((encode_utf8(working_dir), e1 + 1))
                    &&& iv.subrange(p1 + e1 + 1, p1 + e1 + 1 + lm) == (
                    ",\"prompt\":\"").spec_bytes()
                    &&& unesc_at(iv.skip(p1 + e1 + 1 + lm)) == Some(
                        (encode_utf8(prompt), e2 + 1),
                    )
                    &&& iv.subrange(p1 + e1 + 1 + lm + e2 + 1, p1 + e1 + 1 + lm + e2 + 2) == (
                    "}").spec_bytes()
                },
                _ => false,
            } by {
                if let ClientMessageView::StartSession { working_dir, prompt } = mv {
                    lemma_two_string_frame_parts(
                        iv,
                        "{\"type\":\"start_session\",\"working_dir\":\"",
                        working_dir,
                        prompt,
                    );
                }
            }
        }
        match scan_string(input, p1) {
            Some((wd_bytes, p2)) => {
                if let Some(p3) = eat_lit(input, p2, ",\"prompt\":\"") {
                    match scan_string(input, p3) {
                        Some((pr_bytes, p4)) => {
                            if let Some(p5) = eat_lit(input, p4, "}") {
                                if p5 == n {
                                    match string_from_utf8(wd_bytes) {
                                        Some(wd) => {
                                            match string_from_utf8(pr_bytes) {
                                                Some(pr) => {
                                                    return Some(
                                                        ClientMessage::StartSession {
                                                            working_dir: wd,
                                                            prompt: pr,
                                                        },
                                                    );
                                                },
                                                None => {
                                                    return None;
                                                },
                                            }
                                        },
                                        None => {
                                            return None;
                                        },
                                    }
                                }
                            }
                            return None;
                        },
                        None => {
                            return None;
                        },
                    }
                }
                return None;
            },
            None => {
                return None;
            },
        }
    }
    if let Some(p1) = eat_lit(input, 0, "{\"type\":\"continue_session\",\"session_id\":\"") {
        proof {
            reveal_client_lits();
            assert forall|mv: ClientMessageView| iv == client_json(mv) implies mv
                is ContinueSession by {
                lemma_client_lit_prefix(mv, iv);
                match mv {
                    ClientMessageView::Input { .. } => {
                        lemma_prefix_chars_agree(
                            iv,
                            "{\"type\":\"continue_session\",\"session_id\":\"",
                            "{\"type\":\"input\",\"data\":\"",
                            9,
                        );
                    },
                    ClientMessageView::Resize { .. } => {
                        lemma_prefix_chars_agree(
                            iv,
                            "{\"type\":\"continue_session\",\"session_id\":\"",
                            "{\"type\":\"resize\",\"cols\":",
                            9,
                        );
                    },
                    ClientMessageView::StartSession { .. } => {
                        lemma_prefix_chars_agree(
                            iv,
                            "{\"type\":\"continue_session\",\"session_id\":\"",
                            "{\"type\":\"start_session\",\"working_dir\":\"",
                            9,
                        );
                    },
                    ClientMessageView::Interrupt => {
                        lemma_prefix_chars_agree(
                            iv,
                            "{\"type\":\"continue_session\",\"session_id\":\"",
                            "{\"type\":\"interrupt\"}",
                            9,
                        );
                    },
                    ClientMessageView::Ping => {
                        lemma_prefix_chars_agree(
                            iv,
                            "{\"type\":\"continue_session\",\"session_id\":\"",
                            "{\"type\":\"ping\"}",
                            9,
                        );
                    },
                    _ => {},
                }
            }
            assert forall|mv: ClientMessageView| iv == client_json(mv) implies match mv {
                ClientMessageView::ContinueSession { session_id, prompt } => {
                    let e1 = json_escape(encode_utf8(session_id)).len() as int;
                    let lm = (",\"prompt\":\"").spec_bytes().len() as int;
                    let e2 = json_escape(encode_utf8(prompt)).len() as int;
                    &&& iv.len() == p1 + e1 + 1 + lm + e2 + 2
                    &&& unesc_at(iv.skip(p1 as int)) == Some((encode_utf8(session_id), e1 + 1))
                    &&& iv.subrange(p1 + e1 + 1, p1 + e1 + 1 + lm) == (
                    ",\"prompt\":\"").spec_bytes()
                    &&& unesc_at(iv.skip(p1 + e1 + 1 + lm)) == Some(
                        (encode_utf8(prompt), e2 + 1),
                    )
                    &&& iv.subrange(p1 + e1 + 1 + lm + e2 + 1, p1 + e1 + 1 + lm + e2 + 2) == (
                    "}").spec_bytes()
                },
                _ => false,
            } by {
                if let ClientMessageView::ContinueSession { session_id, prompt } = mv {
                    lemma_two_string_frame_parts(
                        iv,
                        "{\"type\":\"continue_session\",\"session_id\":\"",
                        session_id,
                        prompt,
                    );
                }
            }
        }
        match scan_string(input, p1) {
            Some((sid_bytes, p2)) => {
                if let Some(p3) = eat_lit(input, p2, ",\"prompt\":\"") {
                    match scan_string(input, p3) {
                        Some((pr_bytes, p4)) => {
                            if let Some(p5) = eat_lit(input, p4, "}") {
                                if p5 == n {
                                    match string_from_utf8(sid_bytes) {
                                        Some(sid) => {
                                            match string_from_utf8(pr_bytes) {
                                                Some(pr) => {
                                                    return Some(
                                                        ClientMessage::ContinueSession {
                                                            session_id: sid,
                                                            prompt: pr,
                                                        },
                                                    );
                                                },
                                                None => {
                                                    return None;
                                                },
                                            }
                                        },
                                        None => {
                                            return None;
                                        },
                                    }
                                }
                            }
                            return None;
                        },
                        None => {
                            return None;
                        },
                    }
                }
                return None;
            },
            None => {
                return None;
            },
        }
    }
    if let Some(p1) = eat_lit(input, 0, "{\"type\":\"interrupt\"}") {
        if p1 == n {
            proof {
                reveal_client_lits();
                assert forall|mv: ClientMessageView| iv == client_json(mv) implies mv
                    is Interrupt by {
                    lemma_client_lit_prefix(mv, iv);
                    match mv {
                        ClientMessageView::Input { .. } => {
                            lemma_prefix_chars_agree(
                                iv,
                                "{\"type\":\"interrupt\"}",
                                "{\"type\":\"input\",\"data\":\"",
                                11,
                            );
                        },
                        ClientMessageView::Resize { .. } => {
                            lemma_prefix_chars_agree(
                                iv,
                                "{\"type\":\"interrupt\"}",
                                "{\"type\":\"resize\",\"cols\":",
                                9,
                            );
                        },
                        ClientMessageView::StartSession { .. } => {
                            lemma_prefix_chars_agree(
                                iv,
                                "{\"type\":\"interrupt\"}",
                                "{\"type\":\"start_session\",\"working_dir\":\"",
                                9,
                            );
                        },
                        ClientMessageView::ContinueSession { .. } => {
                            lemma_prefix_chars_agree(
                                iv,
                                "{\"type\":\"interrupt\"}",
                                "{\"type\":\"continue_session\",\"session_id\":\"",
                                9,
                            );
                        },
                        ClientMessageView::Ping => {
                            lemma_prefix_chars_agree(
                                iv,
                                "{\"type\":\"interrupt\"}",
                                "{\"type\":\"ping\"}",
                                9,
                            );
                        },
                        _ => {},
                    }
                }
            }
            return Some(ClientMessage::Interrupt);
        }
        proof {
            reveal_client_lits();
            assert forall|mv: ClientMessageView| iv != client_json(mv) by {
                if iv == client_json(mv) {
                    lemma_client_lit_prefix(mv, iv);
                    match mv {
                        ClientMessageView::Input { .. } => {
                            lemma_prefix_chars_agree(
                                iv,
                                "{\"type\":\"interrupt\"}",
                                "{\"type\":\"input\",\"data\":\"",
                                11,
                            );
                        },
                        ClientMessageView::Resize { .. } => {
                            lemma_prefix_chars_agree(
                                iv,
                                "{\"type\":\"interrupt\"}",
                                "{\"type\":\"resize\",\"cols\":",
                                9,
                            );
                        },
                        ClientMessageView::StartSession { .. } => {
                            lemma_prefix_chars_agree(
                                iv,
                                "{\"type\":\"interrupt\"}",
                                "{\"type\":\"start_session\",\"working_dir\":\"",
                                9,
                            );
                        },
                        ClientMessageView::ContinueSession { .. } => {
                            lemma_prefix_chars_agree(
                                iv,
                                "{\"type\":\"interrupt\"}",
                                "{\"type\":\"continue_session\",\"session_id\":\"",
                                9,
                            );
                        },
                        ClientMessageView::Ping => {
                            lemma_prefix_chars_agree(
                                iv,
                                "{\"type\":\"interrupt\"}",
                                "{\"type\":\"ping\"}",
                                9,
                            );
                        },
                        _ => {},
                    }
                }
            }
        }
        return None;
    }
    if let Some(p1) = eat_lit(input, 0, "{\"type\":\"ping\"}") {
        if p1 == n {
            proof {
                reveal_client_lits();
                assert forall|mv: ClientMessageView| iv == client_json(mv) implies mv is Ping by {
                    lemma_client_lit_prefix(mv, iv);
                    match mv {
                        ClientMessageView::Input { .. } => {
                            lemma_prefix_chars_agree(
                                iv,
                                "{\"type\":\"ping\"}",
                                "{\"type\":\"input\",\"data\":\"",
                                9,
                            );
                        },
                        ClientMessageView::Resize { .. } => {
                            lemma_prefix_chars_agree(
                                iv,
                                "{\"type\":\"ping\"}",
                                "{\"type\":\"resize\",\"cols\":",
                                9,
                            );
                        },
                        ClientMessageView::StartSession { .. } => {
                            lemma_prefix_chars_agree(
                                iv,
                                "{\"type\":\"ping\"}",
                                "{\"type\":\"start_session\",\"working_dir\":\"",
                                9,
                            );
                        },
                        ClientMessageView::ContinueSession { .. } => {
                            lemma_prefix_chars_agree(
                                iv,
                                "{\"type\":\"ping\"}",
                                "{\"type\":\"continue_session\",\"session_id\":\"",
                                9,
                            );
                        },
                        ClientMessageView::Interrupt => {
                            lemma_prefix_chars_agree(
                                iv,
                                "{\"type\":\"ping\"}",
                                "{\"type\":\"interrupt\"}",
                                9,
                            );
                        },
                        _ => {},
                    }
                }
            }
            return Some(ClientMessage::Ping);
        }
        proof {
            reveal_client_lits();
            assert forall|mv: ClientMessageView| iv != client_json(mv) by {
                if iv == client_json(mv) {
                    lemma_client_lit_prefix(mv, iv);
                    match mv {
                        ClientMessageView::Input { .. } => {
                            lemma_prefix_chars_agree(
                                iv,
                                "{\"type\":\"ping\"}",
                                "{\"type\":\"input\",\"data\":\"",
                                9,
                            );
                        },
                        ClientMessageView::Resize { .. } => {
                            lemma_prefix_chars_agree(
                                iv,
                                "{\"type\":\"ping\"}",
                                "{\"type\":\"resize\",\"cols\":",
                                9,
                            );
                        },
                        ClientMessageView::StartSession { .. } => {
                            lemma_prefix_chars_agree(
                                iv,
                                "{\"type\":\"ping\"}",
                                "{\"type\":\"start_session\",\"working_dir\":\"",
                                9,
                            );
                        },
                        ClientMessageView::ContinueSession { .. } => {
                            lemma_prefix_chars_agree(
                                iv,
                                "{\"type\":\"ping\"}",
                                "{\"type\":\"continue_session\",\"session_id\":\"",
                                9,
                            );
                        },
                        ClientMessageView::Interrupt => {
                            lemma_prefix_chars_agree(
                                iv,
                                "{\"type\":\"ping\"}",
                                "{\"type\":\"interrupt\"}",
                                9,
                            );
                        },
                        _ => {},
                    }
                }
            }
        }
        return None;
    }
    proof {
        reveal_client_lits();
        assert forall|mv: ClientMessageView| iv != client_json(mv) by {
            if iv == client_json(mv) {
                lemma_client_lit_prefix(mv, iv);
            }
        }
    }
    None
}

/// Parse a client frame from its canonical JSON bytes: returns `Some(m)`
/// exactly when the input is the canonical encoding of `m`. The narrowing
/// to the canonical spelling (fixed member order, no extra whitespace,
/// canonical escapes) is deliberate: it is the spelling `encode_client`
/// emits, and it keeps the accepted language exactly characterized; a
/// frame in another JSON spelling is rejected and draws the protocol's
/// error reply.
pub fn decode_client(input: &[u8]) -> (r: Option<ClientMessage>)
    ensures
        r matches Some(m) ==> input@ == client_json(m@),
        forall|mv: ClientMessageView| input@ == client_json(mv) ==> (r matches Some(m2) && m2@
            == mv),
{
    match parse_client(input) {
        Some(m) => {
            let re = encode_client(&m);
            if crate::jsontext::slice_eq(input, re.as_slice()) {
                Some(m)
            } else {
                None
            }
        },
        None => None,
    }
}


/// Mathematical value of a server frame.
pub enum ServerMessageView {
    Output { data: Seq<char> },
    SessionStarted { session_id: Seq<char> },
    SessionEnded { session_id: Seq<char>, success: bool },
    Error { message: Seq<char> },
    Pong,
}

/// Message from server to client.
#[derive(Debug)]
pub enum ServerMessage {
    /// Terminal output data (base64 encoded).
    Output { data: String },
    /// A session has started.
    SessionStarted { session_id: String },
    /// A session has ended.
    SessionEnded { session_id: String, success: bool },
    /// An error message.
    Error { message: String },
    /// Pong response to a ping.
    Pong,
}

impl View for ServerMessage {
    type V = ServerMessageView;

    open spec fn view(&self) -> ServerMessageView {
        match self {
            ServerMessage::Output { data } => ServerMessageView::Output { data: data@ },
            ServerMessage::SessionStarted { session_id } => ServerMessageView::SessionStarted {
                session_id: session_id@,
            },
            ServerMessage::SessionEnded { session_id, success } => ServerMessageView::SessionEnded {
                session_id: session_id@,
                success: *success,
            },
            ServerMessage::Error { message } => ServerMessageView::Error { message: message@ },
            ServerMessage::Pong => ServerMessageView::Pong,
        }
    }
}

impl Clone for ServerMessage {
    fn clone(&self) -> (r: Self)
        ensures
            r@ == self@,
    {
        match self {
            ServerMessage::Output { data } => ServerMessage::Output { data: data.clone() },
            ServerMessage::SessionStarted { session_id } => ServerMessage::SessionStarted {
                session_id: session_id.clone(),
            },
            ServerMessage::SessionEnded { session_id, success } => ServerMessage::SessionEnded {
                session_id: session_id.clone(),
                success: *success,
            },
            ServerMessage::Error { message } => ServerMessage::Error { message: message.clone() },
            ServerMessage::Pong => ServerMessage::Pong,
        }
    }
}

impl PartialEq for ServerMessage {
    fn eq(&self, other: &Self) -> (r: bool) {
        match self {
            ServerMessage::Output { data } => match other {
                ServerMessage::Output { data: d2 } => *data == *d2,
                _ => false,
            },
            ServerMessage::SessionStarted { session_id } => match other {
                ServerMessage::SessionStarted { session_id: s2 } => *session_id == *s2,
                _ => false,
            },
            ServerMessage::SessionEnded { session_id, success } => match other {
                ServerMessage::SessionEnded { session_id: s2, success: u2 } => *session_id == *s2
                    && *success == *u2,
                _ => false,
            },
            ServerMessage::Error { message } => match other {
                ServerMessage::Error { message: m2 } => *message == *m2,
                _ => false,
            },
            ServerMessage::Pong => match other {
                ServerMessage::Pong => true,
                _ => false,
            },
        }
    }
}

impl vstd::std_specs::cmp::PartialEqSpecImpl for ServerMessage {
    open spec fn obeys_eq_spec() -> bool {
        true
    }

    open spec fn eq_spec(&self, other: &Self) -> bool {
        self@ == other@
    }
}

/// The canonical JSON frame for a server message.
pub open spec fn server_json(m: ServerMessageView) -> Seq<u8> {
    match m {
        ServerMessageView::Output { data } => ("{\"type\":\"output\",\"data\":\"").spec_bytes() + (
        json_escape(encode_utf8(data)) + ("\"}").spec_bytes()),
        ServerMessageView::SessionStarted { session_id } => (
        "{\"type\":\"session_started\",\"session_id\":\"").spec_bytes() + (json_escape(
            encode_utf8(session_id),
        ) + ("\"}").spec_bytes()),
        ServerMessageView::SessionEnded { session_id, success } => (
        "{\"type\":\"session_ended\",\"session_id\":\"").spec_bytes() + (json_escape(
            encode_utf8(session_id),
        ) + (("\",\"success\":").spec_bytes() + ((if success {
            "true"
        } else {
            "false"
        }).spec_bytes() + ("}").spec_bytes()))),
        ServerMessageView::Error { message } => ("{\"type\":\"error\",\"message\":\"").spec_bytes()
            + (json_escape(encode_utf8(message)) + ("\"}").spec_bytes()),
        ServerMessageView::Pong => ("{\"type\":\"pong\"}").spec_bytes(),
    }
}

/// Serialize a server message to its canonical JSON frame.
pub fn encode_server(m: &ServerMessage) -> (r: Vec<u8>)
    ensures
        r@ == server_json(m@),
{
    let mut out: Vec<u8> = Vec::new();
    match m {
        ServerMessage::Output { data } => {
            put_lit(&mut out, "{\"type\":\"output\",\"data\":\"");
            put_escaped(&mut out, data.as_str().as_bytes());
            put_lit(&mut out, "\"}");
        },
        ServerMessage::SessionStarted { session_id } => {
            put_lit(&mut out, "{\"type\":\"session_started\",\"session_id\":\"");
            put_escaped(&mut out, session_id.as_str().as_bytes());
            put_lit(&mut out, "\"}");
        },
        ServerMessage::SessionEnded { session_id, success } => {
            put_lit(&mut out, "{\"type\":\"session_ended\",\"session_id\":\"");
            put_escaped(&mut out, session_id.as_str().as_bytes());
            put_lit(&mut out, "\",\"success\":");
            if *success {
                put_lit(&mut out, "true");
            } else {
                put_lit(&mut out, "false");
            }
            put_lit(&mut out, "}");
        },
        ServerMessage::Error { message } => {
            put_lit(&mut out, "{\"type\":\"error\",\"message\":\"");
            put_escaped(&mut out, message.as_str().as_bytes());
            put_lit(&mut out, "\"}");
        },
        ServerMessage::Pong => {
            put_lit(&mut out, "{\"type\":\"pong\"}");
        },
    }
    proof {
        assert(out@ =~= server_json(m@));
    }
    out
}

/// The branch literal that opens each kind of server frame.
spec fn server_lit(m: ServerMessageView) -> &'static str {
    match m {
        ServerMessageView::Output { .. } => "{\"type\":\"output\",\"data\":\"",
        ServerMessageView::SessionStarted { .. } => "{\"type\":\"session_started\",\"session_id\":\"",
        ServerMessageView::SessionEnded { .. } => "{\"type\":\"session_ended\",\"session_id\":\"",
        ServerMessageView::Error { .. } => "{\"type\":\"error\",\"message\":\"",
        ServerMessageView::Pong => "{\"type\":\"pong\"}",
    }
}

proof fn lemma_server_lit_prefix(mv: ServerMessageView, iv: Seq<u8>)
    requires
        iv == server_json(mv),
    ensures
        server_lit(mv).spec_bytes().len() <= iv.len(),
        iv.subrange(0, server_lit(mv).spec_bytes().len() as int) == server_lit(mv).spec_bytes(),
{
    let lb = server_lit(mv).spec_bytes();
    match mv {
        ServerMessageView::Output { .. } => {
            assert(iv.subrange(0, lb.len() as int) =~= lb);
        },
        ServerMessageView::SessionStarted { .. } => {
            assert(iv.subrange(0, lb.len() as int) =~= lb);
        },
        ServerMessageView::SessionEnded { .. } => {
            assert(iv.subrange(0, lb.len() as int) =~= lb);
        },
        ServerMessageView::Error { .. } => {
            assert(iv.subrange(0, lb.len() as int) =~= lb);
        },
        ServerMessageView::Pong => {
            assert(iv.subrange(0, lb.len() as int) =~= lb);
        },
    }
}

proof fn reveal_server_lits()
    ensures
        vstd::string::is_ascii("{\"type\":\"output\",\"data\":\""),
        vstd::string::is_ascii("{\"type\":\"session_started\",\"session_id\":\""),
        vstd::string::is_ascii("{\"type\":\"session_ended\",\"session_id\":\""),
        vstd::string::is_ascii("{\"type\":\"error\",\"message\":\""),
        vstd::string::is_ascii("{\"type\":\"pong\"}"),
        ("{\"type\":\"output\",\"data\":\""@)[9] == 'o',
        ("{\"type\":\"output\",\"data\":\""@).len() == 25,
        ("{\"type\":\"session_started\",\"session_id\":\""@)[9] == 's',
        ("{\"type\":\"session_started\",\"session_id\":\""@)[17] == 's',
        ("{\"type\":\"session_started\",\"session_id\":\""@).len() == 40,
        ("{\"type\":\"session_ended\",\"session_id\":\""@)[9] == 's',
        ("{\"type\":\"session_ended\",\"session_id\":\""@)[17] == 'e',
        ("{\"type\":\"session_ended\",\"session_id\":\""@).len() == 38,
        ("{\"type\":\"error\",\"message\":\""@)[9] == 'e',
        ("{\"type\":\"error\",\"message\":\""@).len() == 27,
        ("{\"type\":\"pong\"}"@)[9] == 'p',
        ("{\"type\":\"pong\"}"@).len() == 15,
{
    reveal_strlit("{\"type\":\"output\",\"data\":\"");
    reveal_strlit("{\"type\":\"session_started\",\"session_id\":\"");
    reveal_strlit("{\"type\":\"session_ended\",\"session_id\":\"");
    reveal_strlit("{\"type\":\"error\",\"message\":\"");
    reveal_strlit("{\"type\":\"pong\"}");
}

proof fn lemma_success_lits()
    ensures
        vstd::string::is_ascii(",\"success\":"),
        vstd::string::is_ascii("true"),
        vstd::string::is_ascii("false"),
        ("\",\"success\":").spec_bytes() =~= seq![0x22u8] + (",\"success\":").spec_bytes(),
        (",\"success\":").spec_bytes().len() == 11,
        ("true").spec_bytes() =~= seq![0x74u8, 0x72u8, 0x75u8, 0x65u8],
        ("false").spec_bytes() =~= seq![0x66u8, 0x61u8, 0x6cu8, 0x73u8, 0x65u8],
{
    reveal_strlit("\",\"success\":");
    reveal_strlit(",\"success\":");
    reveal_strlit("true");
    reveal_strlit("false");
    assert(("\",\"success\":").is_ascii());
    assert((",\"success\":").is_ascii());
    assert(("true").is_ascii());
    assert(("false").is_ascii());
    assert(("\",\"success\":").spec_bytes() =~= seq![0x22u8] + (",\"success\":").spec_bytes());
    assert(("true").spec_bytes() =~= seq![0x74u8, 0x72u8, 0x75u8, 0x65u8]);
    assert(("false").spec_bytes() =~= seq![0x66u8, 0x61u8, 0x6cu8, 0x73u8, 0x65u8]);
}

proof fn lemma_string_frame_parts(iv: Seq<u8>, lit: &str, payload: Seq<char>)
    requires
        iv == lit.spec_bytes() + (json_escape(encode_utf8(payload)) + ("\"}").spec_bytes()),
    ensures
        ({
            let l = lit.spec_bytes().len() as int;
            let e = json_escape(encode_utf8(payload)).len() as int;
            &&& iv.len() == l + e + 2
            &&& unesc_at(iv.skip(l)) == Some((encode_utf8(payload), e + 1))
            &&& iv.subrange(l + e + 1, l + e + 2) == ("}").spec_bytes()
        }),
{
    lemma_quote_lits();
    let l = lit.spec_bytes().len() as int;
    let e = json_escape(encode_utf8(payload)).len() as int;
    assert(iv.skip(l) =~= json_escape(encode_utf8(payload)) + seq![0x22u8] + seq![0x7du8]);
    lemma_unesc_of_escaped(encode_utf8(payload), seq![0x7du8]);
    assert(iv.subrange(l + e + 1, l + e + 2) =~= seq![0x7du8]);
}

#[verifier::rlimit(60)]
proof fn lemma_ended_frame_parts(iv: Seq<u8>, session_id: Seq<char>, success: bool)
    requires
        iv == server_json(ServerMessageView::SessionEnded { session_id, success }),
    ensures
        ({
            let l = ("{\"type\":\"session_ended\",\"session_id\":\"").spec_bytes().len() as int;
            let e = json_escape(encode_utf8(session_id)).len() as int;
            let lm = (",\"success\":").spec_bytes().len() as int;
            let bl = (if success {
                ("true").spec_bytes().len() as int
            } else {
                ("false").spec_bytes().len() as int
            });
            &&& iv.len() == l + e + 1 + lm + bl + 1
            &&& unesc_at(iv.skip(l)) == Some((encode_utf8(session_id), e + 1))
            &&& iv.subrange(l + e + 1, l + e + 1 + lm) == (",\"success\":").spec_bytes()
            &&& (success ==> iv.subrange(l + e + 1 + lm, l + e + 1 + lm + bl) == (
            "true").spec_bytes())
            &&& (!success ==> iv.subrange(l + e + 1 + lm, l + e + 1 + lm + bl) == (
            "false").spec_bytes())
            &&& iv[l + e + 1 + lm] == (if success {
                0x74u8
            } else {
                0x66u8
            })
            &&& iv.subrange(l + e + 1 + lm + bl, l + e + 1 + lm + bl + 1) == ("}").spec_bytes()
        }),
{
    lemma_quote_lits();
    lemma_success_lits();
    let l = ("{\"type\":\"session_ended\",\"session_id\":\"").spec_bytes().len() as int;
    let e = json_escape(encode_utf8(session_id)).len() as int;
    let lm = (",\"success\":").spec_bytes().len() as int;
    let bs = (if success {
        ("true").spec_bytes()
    } else {
        ("false").spec_bytes()
    });
    let tail1 = (",\"success\":").spec_bytes() + (bs + seq![0x7du8]);
    assert(iv.skip(l) =~= json_escape(encode_utf8(session_id)) + seq![0x22u8] + tail1);
    lemma_unesc_of_escaped(encode_utf8(session_id), tail1);
    assert(iv.subrange(l + e + 1, l + e + 1 + lm) =~= (",\"success\":").spec_bytes());
    assert(iv.subrange(l + e + 1 + lm, l + e + 1 + lm + bs.len() as int) =~= bs);
    assert(iv[l + e + 1 + lm] == bs[0]);
    assert(iv.subrange(
        l + e + 1 + lm + bs.len() as int,
        l + e + 1 + lm + bs.len() as int + 1,
    ) =~= seq![0x7du8]);
}

#[verifier::rlimit(100)]
fn parse_server(input: &[u8]) -> (r: Option<ServerMessage>)
    ensures
        forall|mv: ServerMessageView| input@ == server_json(mv) ==> (r matches Some(m2) && m2@
            == mv),
{
    let ghost iv = input@;
    let n = input.len();
    if let Some(p1) = eat_lit(input, 0, "{\"type\":\"output\",\"data\":\"") {
        proof {
            reveal_server_lits();
            assert forall|mv: ServerMessageView| iv == server_json(mv) implies mv is Output by {
                lemma_server_lit_prefix(mv, iv);
                match mv {
                    ServerMessageView::SessionStarted { .. } => {
                        lemma_prefix_chars_agree(
                            iv,
                            "{\"type\":\"output\",\"data\":\"",
                            "{\"type\":\"session_started\",\"session_id\":\"",
                            9,
                        );
                    },
                    ServerMessageView::SessionEnded { .. } => {
                        lemma_prefix_chars_agree(
                            iv,
                            "{\"type\":\"output\",\"data\":\"",
                            "{\"type\":\"session_ended\",\"session_id\":\"",
                            9,
                        );
                    },
                    ServerMessageView::Error { .. } => {
                        lemma_prefix_chars_agree(
                            iv,
                            "{\"type\":\"output\",\"data\":\"",
                            "{\"type\":\"error\",\"message\":\"",
                            9,
                        );
                    },
                    ServerMessageView::Pong => {
                        lemma_prefix_chars_agree(
                            iv,
                            "{\"type\":\"output\",\"data\":\"",
                            "{\"type\":\"pong\"}",
                            9,
                        );
                    },
                    _ => {},
                }
            }
            assert forall|mv: ServerMessageView| iv == server_json(mv) implies match mv {
                ServerMessageView::Output { data } => {
                    let e = json_escape(encode_utf8(data)).len() as int;
                    &&& iv.len() == p1 + e + 2
                    &&& unesc_at(iv.skip(p1 as int)) == Some((encode_utf8(data), e + 1))
                    &&& iv.subrange(p1 + e + 1, p1 + e + 2) == ("}").spec_bytes()
                },
                _ => false,
            } by {
                if let ServerMessageView::Output { data } = mv {
                    lemma_string_frame_parts(iv, "{\"type\":\"output\",\"data\":\"", data);
                }
            }
        }
        match scan_string(input, p1) {
            Some((bytes, p2)) => {
                if let Some(p3) = eat_lit(input, p2, "}") {
                    if p3 == n {
                        match string_from_utf8(bytes) {
                            Some(s) => {
                                return Some(ServerMessage::Output { data: s });
                            },
                            None => {
                                return None;
                            },
                        }
                    }
                }
                return None;
            },
            None => {
                return None;
            },
        }
    }
    if let Some(p1) = eat_lit(input, 0, "{\"type\":\"session_started\",\"session_id\":\"") {
        proof {
            reveal_server_lits();
            assert forall|mv: ServerMessageView| iv == server_json(mv) implies mv is SessionStarted by {
                lemma_server_lit_prefix(mv, iv);
                match mv {
                    ServerMessageView::Output { .. } => {
                        lemma_prefix_chars_agree(
                            iv,
                            "{\"type\":\"session_started\",\"session_id\":\"",
                            "{\"type\":\"output\",\"data\":\"",
                            9,
                        );
                    },
                    ServerMessageView::SessionEnded { .. } => {
                        lemma_prefix_chars_agree(
                            iv,
                            "{\"type\":\"session_started\",\"session_id\":\"",
                            "{\"type\":\"session_ended\",\"session_id\":\"",
                            17,
                        );
                    },
                    ServerMessageView::Error { .. } => {
                        lemma_prefix_chars_agree(
                            iv,
                            "{\"type\":\"session_started\",\"session_id\":\"",
                            "{\"type\":\"error\",\"message\":\"",
                            9,
                        );
                    },
                    ServerMessageView::Pong => {
                        lemma_prefix_chars_agree(
                            iv,
                            "{\"type\":\"session_started\",\"session_id\":\"",
                            "{\"type\":\"pong\"}",
                            9,
                        );
                    },
                    _ => {},
                }
            }
            assert forall|mv: ServerMessageView| iv == server_json(mv) implies match mv {
                ServerMessageView::SessionStarted { session_id } => {
                    let e = json_escape(encode_utf8(session_id)).len() as int;
                    &&& iv.len() == p1 + e + 2
                    &&& unesc_at(iv.skip(p1 as int)) == Some((encode_utf8(session_id), e + 1))
                    &&& iv.subrange(p1 + e + 1, p1 + e + 2) == ("}").spec_bytes()
                },
                _ => false,
            } by {
                if let ServerMessageView::SessionStarted { session_id } = mv {
                    lemma_string_frame_parts(iv, "{\"type\":\"session_started\",\"session_id\":\"", session_id);
                }
            }
        }
        match scan_string(input, p1) {
            Some((bytes, p2)) => {
                if let Some(p3) = eat_lit(input, p2, "}") {
                    if p3 == n {
                        match string_from_utf8(bytes) {
                            Some(s) => {
                                return Some(ServerMessage::SessionStarted { session_id: s });
                            },
                            None => {
                                return None;
                            },
                        }
                    }
                }
                return None;
            },
            None => {
                return None;
            },
        }
    }
    if let Some(p1) = eat_lit(input, 0, "{\"type\":\"session_ended\",\"session_id\":\"") {
        proof {
            reveal_server_lits();
            assert forall|mv: ServerMessageView| iv == server_json(mv) implies mv is SessionEnded by {
                lemma_server_lit_prefix(mv, iv);
                match mv {
                    ServerMessageView::Output { .. } => {
                        lemma_prefix_chars_agree(
                            iv,
                            "{\"type\":\"session_ended\",\"session_id\":\"",
                            "{\"type\":\"output\",\"data\":\"",
                            9,
                        );
                    },
                    ServerMessageView::SessionStarted { .. } => {
                        lemma_prefix_chars_agree(
                            iv,
                            "{\"type\":\"session_ended\",\"session_id\":\"",
                            "{\"type\":\"session_started\",\"session_id\":\"",
                            17,
                        );
                    },
                    ServerMessageView::Error { .. } => {
                        lemma_prefix_chars_agree(
                            iv,
                            "{\"type\":\"session_ended\",\"session_id\":\"",
                            "{\"type\":\"error\",\"message\":\"",
                            9,
                        );
                    },
                    ServerMessageView::Pong => {
                        lemma_prefix_chars_agree(
                            iv,
                            "{\"type\":\"session_ended\",\"session_id\":\"",
                            "{\"type\":\"pong\"}",
                            9,
                        );
                    },
                    _ => {},
                }
            }
            lemma_success_lits();
            assert forall|mv: ServerMessageView| iv == server_json(mv) implies match mv {
                ServerMessageView::SessionEnded { session_id, success } => {
                    let e = json_escape(encode_utf8(session_id)).len() as int;
                    let lm = (",\"success\":").spec_bytes().len() as int;
                    let bl = (if success {
                        4int
                    } else {
                        5int
                    });
                    &&& iv.len() == p1 + e + 1 + lm + bl + 1
                    &&& unesc_at(iv.skip(p1 as int)) == Some((encode_utf8(session_id), e + 1))
                    &&& iv.subrange(p1 + e + 1, p1 + e + 1 + lm) == (",\"success\":").spec_bytes()
                    &&& (success ==> iv.subrange(p1 + e + 1 + lm, p1 + e + 1 + lm + 4) == ("true").spec_bytes())
                    &&& (!success ==> iv.subrange(p1 + e + 1 + lm, p1 + e + 1 + lm + 5) == ("false").spec_bytes())
                    &&& iv[p1 + e + 1 + lm] == (if success {
                        0x74u8
                    } else {
                        0x66u8
                    })
                    &&& iv.subrange(p1 + e + 1 + lm + bl, p1 + e + 1 + lm + bl + 1) == ("}").spec_bytes()
                },
                _ => false,
            } by {
                if let ServerMessageView::SessionEnded { session_id, success } = mv {
                    lemma_ended_frame_parts(iv, session_id, success);
                }
            }
        }
        match scan_string(input, p1) {
            Some((sid_bytes, p2)) => {
                if let Some(p3) = eat_lit(input, p2, ",\"success\":") {
                    if let Some(p4) = eat_lit(input, p3, "true") {
                        if let Some(p5) = eat_lit(input, p4, "}") {
                            if p5 == n {
                                match string_from_utf8(sid_bytes) {
                                    Some(sid) => {
                                        return Some(
                                            ServerMessage::SessionEnded {
                                                session_id: sid,
                                                success: true,
                                            },
                                        );
                                    },
                                    None => {
                                        return None;
                                    },
                                }
                            }
                        }
                        return None;
                    }
                    if let Some(p4) = eat_lit(input, p3, "false") {
                        if let Some(p5) = eat_lit(input, p4, "}") {
                            if p5 == n {
                                match string_from_utf8(sid_bytes) {
                                    Some(sid) => {
                                        return Some(
                                            ServerMessage::SessionEnded {
                                                session_id: sid,
                                                success: false,
                                            },
                                        );
                                    },
                                    None => {
                                        return None;
                                    },
                                }
                            }
                        }
                        return None;
                    }
                    proof {
                        lemma_success_lits();
                        reveal_strlit("true");
                        reveal_strlit("false");
                    }
                    return None;
                }
                return None;
            },
            None => {
                return None;
            },
        }
    }
    if let Some(p1) = eat_lit(input, 0, "{\"type\":\"error\",\"message\":\"") {
        proof {
            reveal_server_lits();
            assert forall|mv: ServerMessageView| iv == server_json(mv) implies mv is Error by {
                lemma_server_lit_prefix(mv, iv);
                match mv {
                    ServerMessageView::Output { .. } => {
                        lemma_prefix_chars_agree(
                            iv,
                            "{\"type\":\"error\",\"message\":\"",
                            "{\"type\":\"output\",\"data\":\"",
                            9,
                        );
                    },
                    ServerMessageView::SessionStarted { .. } => {
                        lemma_prefix_chars_agree(
                            iv,
                            "{\"type\":\"error\",\"message\":\"",
                            "{\"type\":\"session_started\",\"session_id\":\"",
                            9,
                        );
                    },
                    ServerMessageView::SessionEnded { .. } => {
                        lemma_prefix_chars_agree(
                            iv,
                            "{\"type\":\"error\",\"message\":\"",
                            "{\"type\":\"session_ended\",\"session_id\":\"",
                            9,
                        );
                    },
                    ServerMessageView::Pong => {
                        lemma_prefix_chars_agree(
                            iv,
                            "{\"type\":\"error\",\"message\":\"",
                            "{\"type\":\"pong\"}",
                            9,
                        );
                    },
                    _ => {},
                }
            }
            assert forall|mv: ServerMessageView| iv == server_json(mv) implies match mv {
                ServerMessageView::Error { message } => {
                    let e = json_escape(encode_utf8(message)).len() as int;
                    &&& iv.len() == p1 + e + 2
                    &&& unesc_at(iv.skip(p1 as int)) == Some((encode_utf8(message), e + 1))
                    &&& iv.subrange(p1 + e + 1, p1 + e + 2) == ("}").spec_bytes()
                },
                _ => false,
            } by {
                if let ServerMessageView::Error { message } = mv {
                    lemma_string_frame_parts(iv, "{\"type\":\"error\",\"message\":\"", message);
                }
            }
        }
        match scan_string(input, p1) {
            Some((bytes, p2)) => {
                if let Some(p3) = eat_lit(input, p2, "}") {
                    if p3 == n {
                        match string_from_utf8(bytes) {
                            Some(s) => {
                                return Some(ServerMessage::Error { message: s });
                            },
                            None => {
                                return None;
                            },
                        }
                    }
                }
                return None;
            },
            None => {
                return None;
            },
        }
    }
    if let Some(p1) = eat_lit(input, 0, "{\"type\":\"pong\"}") {
        if p1 == n {
        proof {
            reveal_server_lits();
            assert forall|mv: ServerMessageView| iv == server_json(mv) implies mv is Pong by {
                lemma_server_lit_prefix(mv, iv);
                match mv {
                    ServerMessageView::Output { .. } => {
                        lemma_prefix_chars_agree(
                            iv,
                            "{\"type\":\"pong\"}",
                            "{\"type\":\"output\",\"data\":\"",
                            9,
                        );
                    },
                    ServerMessageView::SessionStarted { .. } => {
                        lemma_prefix_chars_agree(
                            iv,
                            "{\"type\":\"pong\"}",
                            "{\"type\":\"session_started\",\"session_id\":\"",
                            9,
                        );
                    },
                    ServerMessageView::SessionEnded { .. } => {
                        lemma_prefix_chars_agree(
                            iv,
                            "{\"type\":\"pong\"}",
                            "{\"type\":\"session_ended\",\"session_id\":\"",
                            9,
                        );
                    },
                    ServerMessageView::Error { .. } => {
                        lemma_prefix_chars_agree(
                            iv,
                            "{\"type\":\"pong\"}",
                            "{\"type\":\"error\",\"message\":\"",
                            9,
                        );
                    },
                    _ => {},
                }
            }
            }
            return Some(ServerMessage::Pong);
        }
        proof {
            reveal_server_lits();
            assert forall|mv: ServerMessageView| iv != server_json(mv) by {
                if iv == server_json(mv) {
                    lemma_server_lit_prefix(mv, iv);
                    match mv {
                        ServerMessageView::Output { .. } => {
                            lemma_prefix_chars_agree(iv, "{\"type\":\"pong\"}", "{\"type\":\"output\",\"data\":\"", 9);
                        },
                        ServerMessageView::SessionStarted { .. } => {
                            lemma_prefix_chars_agree(iv, "{\"type\":\"pong\"}", "{\"type\":\"session_started\",\"session_id\":\"", 9);
                        },
                        ServerMessageView::SessionEnded { .. } => {
                            lemma_prefix_chars_agree(iv, "{\"type\":\"pong\"}", "{\"type\":\"session_ended\",\"session_id\":\"", 9);
                        },
                        ServerMessageView::Error { .. } => {
                            lemma_prefix_chars_agree(iv, "{\"type\":\"pong\"}", "{\"type\":\"error\",\"message\":\"", 9);
                        },
                        _ => {},
                    }
                }
            }
        }
        return None;
    }
    proof {
        assert forall|mv: ServerMessageView| iv != server_json(mv) by {
            if iv == server_json(mv) {
                lemma_server_lit_prefix(mv, iv);
            }
        }
    }
    None
}

/// Parse a server frame from its canonical JSON bytes: returns `Some(m)`
/// exactly when the input is the canonical encoding of `m`. As with client
/// frames, only the canonical spelling emitted by `encode_server` is
/// accepted, deliberately.
pub fn decode_server(input: &[u8]) -> (r: Option<ServerMessage>)
    ensures
        r matches Some(m) ==> input@ == server_json(m@),
        forall|mv: ServerMessageView| input@ == server_json(mv) ==> (r matches Some(m2) && m2@
            == mv),
{
    match parse_server(input) {
        Some(m) => {
            let re = encode_server(&m);
            if crate::jsontext::slice_eq(input, re.as_slice()) {
                Some(m)
            } else {
                None
            }
        },
        None => None,
    }
}

impl ClientMessage {
    /// Build an `Input` frame carrying the base64 encoding of `data`.
    pub fn input(data: &[u8]) -> (r: Self)
        ensures
            r@ == (ClientMessageView::Input { data: b64_of(data@) }),
    {
        ClientMessage::Input { data: b64_encode(data) }
    }

    /// Decode the base64 payload of an `Input` frame: for a frame built by
    /// `input(bytes)` this returns exactly `bytes`; it returns `None` for
    /// any other frame kind and for text that is not canonical base64.
    pub fn decode_input(&self) -> (r: Option<Vec<u8>>)
        ensures
            self@ matches ClientMessageView::Input { data } ==> {
                &&& (r is Some <==> exists|b: Seq<u8>| data == b64_of(b))
                &&& forall|b: Seq<u8>| data == #[trigger] b64_of(b) ==> (r matches Some(v) && v@
                    == b)
            },
            !(self@ is Input) ==> r is None,
    {
        match self {
            ClientMessage::Input { data } => b64_decode(data.as_str()),
            _ => None,
        }
    }
}

impl ServerMessage {
    /// Build an `Output` frame carrying the base64 encoding of `data`.
    pub fn output(data: &[u8]) -> (r: Self)
        ensures
            r@ == (ServerMessageView::Output { data: b64_of(data@) }),
    {
        ServerMessage::Output { data: b64_encode(data) }
    }

    /// Decode the base64 payload of an `Output` frame: for a frame built by
    /// `output(bytes)` this returns exactly `bytes`; it returns `None` for
    /// any other frame kind and for text that is not canonical base64.
    pub fn decode_output(&self) -> (r: Option<Vec<u8>>)
        ensures
            self@ matches ServerMessageView::Output { data } ==> {
                &&& (r is Some <==> exists|b: Seq<u8>| data == b64_of(b))
                &&& forall|b: Seq<u8>| data == #[trigger] b64_of(b) ==> (r matches Some(v) && v@
                    == b)
            },
            !(self@ is Output) ==> r is None,
    {
        match self {
            ServerMessage::Output { data } => b64_decode(data.as_str()),
            _ => None,
        }
    }
}

/// Shared state handed to a WebSocket upgrade handler.
pub struct WsState<S> {
    /// Application state shared across connections.
    pub app_state: std::sync::Arc<S>,
}

impl<S> WsState<S> {
    /// Create new WebSocket handler state.
    pub fn new(app_state: std::sync::Arc<S>) -> (r: Self)
        ensures
            r.app_state == app_state,
    {
        WsState { app_state }
    }
}

impl<S> Clone for WsState<S> {
    fn clone(&self) -> (r: Self)
        ensures
            r.app_state == self.app_state,
    {
        WsState { app_state: std::sync::Arc::clone(&self.app_state) }
    }
}

} // verus!
