//! Agent control protocol: line classification, tool-approval dispatch
//! rules, and the exact JSON frames the peer writes to the agent's stdin.
//!
//! The surrounding application owns the child's stdio and the read loop;
//! the decisions and the frames are made here.

use vstd::prelude::*;
use vstd::string::StringSliceAdditionalSpecFns;
use vstd::utf8::encode_utf8;

use crate::jsontext::{is_blank_bytes, json_escape, put_escaped, put_lit, str_is_blank};
use crate::jsonval::{get_member2_str, get_member2_value, get_member_str, json_has_member2, json_member2_str, json_member_str};

verus! {

/// Approval status for a tool invocation.
#[derive(Debug)]
pub enum ApprovalStatus {
    /// The invocation is approved.
    Approved,
    /// The invocation is denied, with an optional reason.
    Denied { reason: Option<String> },
    /// The approval request timed out.
    TimedOut,
    /// The approval is still pending.
    Pending,
}

/// Result of an approval request.
#[derive(Debug)]
pub enum ApprovalResult {
    /// Allow the tool invocation with (possibly rewritten) input.
    Allow { updated_input: serde_json::Value },
    /// Deny the tool invocation.
    Deny { message: String, interrupt: Option<bool> },
}

/// Approval failure.
#[derive(Debug)]
pub enum ApprovalError {
    /// The approval service is unavailable.
    ServiceUnavailable,
    /// The approval request failed, with detail.
    RequestFailed(String),
    /// The approval request timed out.
    TimedOut,
}

impl ApprovalError {
    /// The error as human-readable text.
    pub fn message(&self) -> (r: String)
        ensures
            self is ServiceUnavailable ==> r@ == ("Approval service unavailable"@),
            self matches ApprovalError::RequestFailed(d) ==> r@ == ("Approval request failed: "@)
                + d@,
            self is TimedOut ==> r@ == ("Approval request timed out"@),
    {
        match self {
            ApprovalError::ServiceUnavailable => <String as vstd::string::StringExecFns>::from_str(
                "Approval service unavailable",
            ),
            ApprovalError::RequestFailed(d) => <String as vstd::string::StringExecFns>::from_str(
                "Approval request failed: ",
            ).concat(d.as_str()),
            ApprovalError::TimedOut => <String as vstd::string::StringExecFns>::from_str(
                "Approval request timed out",
            ),
        }
    }
}

/// Host-side policy for tool approvals: the broker provides the protocol,
/// the application implements the decision.
pub trait ApprovalHandler {
    /// Decide whether the tool invocation may proceed.
    fn request_approval(
        &mut self,
        tool_name: &str,
        tool_input: serde_json::Value,
        tool_call_id: &str,
    ) -> Result<ApprovalResult, ApprovalError>;
}

/// Approval handler that allows every tool invocation unchanged.
#[derive(Debug, Default)]
pub struct AutoApproveHandler;

impl ApprovalHandler for AutoApproveHandler {
    fn request_approval(
        &mut self,
        tool_name: &str,
        tool_input: serde_json::Value,
        tool_call_id: &str,
    ) -> Result<ApprovalResult, ApprovalError> {
        Ok(ApprovalResult::Allow { updated_input: tool_input })
    }
}

/// Client-side failure while serving the agent.
#[derive(Debug)]
pub enum ClientError {
    /// No approval handler is available.
    ApprovalUnavailable,
    /// The approval handler failed, with detail.
    ApprovalFailed(String),
    /// An I/O failure, described in text.
    Io(String),
}

/// Protocol-level failure.
#[derive(Debug)]
pub enum ProtocolError {
    /// An I/O failure, described in text.
    Io(String),
    /// A JSON failure, described in text.
    Json(String),
}

/// Permission mode requested of the agent.
#[derive(Debug, Clone, Copy, PartialEq, Eq, Structural)]
pub enum PermissionMode {
    /// The agent's default permission handling.
    DefaultMode,
    /// Edits are accepted without asking.
    AcceptEdits,
    /// All permission checks are bypassed.
    BypassPermissions,
    /// Plan mode.
    Plan,
}

/// The wire word for each permission mode.
pub open spec fn mode_word(m: PermissionMode) -> &'static str {
    match m {
        PermissionMode::DefaultMode => "default",
        PermissionMode::AcceptEdits => "acceptEdits",
        PermissionMode::BypassPermissions => "bypassPermissions",
        PermissionMode::Plan => "plan",
    }
}

/// A control request carried by an inbound `control_request` line.
#[derive(Debug)]
pub enum ControlRequest {
    /// The agent asks whether it may use a tool.
    CanUseTool { tool_name: String, input: serde_json::Value, tool_use_id: Option<String> },
    /// The agent fires a hook callback.
    HookCallback { callback_id: String, input: serde_json::Value, tool_use_id: Option<String> },
}

/// What one inbound line means to the peer.
#[derive(Debug)]
pub enum InboundClass {
    /// Whitespace only: skipped.
    Blank,
    /// A control request to answer.
    Request { request_id: String, request: ControlRequest },
    /// A response to one of the peer's own requests: ignored.
    Response,
    /// A terminal `result` line: forwarded raw, then the reader exits.
    Terminal,
    /// Any other line: forwarded raw to the log sink.
    Opaque,
}

proof fn lemma_tag_views()
    ensures
        ("result"@).len() == 6,
        ("control_response"@).len() == 16,
        ("control_request"@).len() == 15,
        ("can_use_tool"@).len() == 12,
        ("hook_callback"@).len() == 13,
{
    reveal_strlit("result");
    reveal_strlit("control_response");
    reveal_strlit("control_request");
    reveal_strlit("can_use_tool");
    reveal_strlit("hook_callback");
}

/// The shape of a routable control-request line: the `control_request`
/// type tag, a string request id, and one of the two known request
/// subtypes with the members it requires. A line of any other shape is
/// forwarded raw.
pub open spec fn request_shape(line: Seq<char>) -> bool {
    &&& json_member_str(line, "type"@) == Some("control_request"@)
    &&& json_member_str(line, "request_id"@) is Some
    &&& ({
        ||| {
            &&& json_member2_str(line, "request"@, "subtype"@) == Some("can_use_tool"@)
            &&& json_member2_str(line, "request"@, "tool_name"@) is Some
            &&& json_has_member2(line, "request"@, "input"@)
        }
        ||| {
            &&& json_member2_str(line, "request"@, "subtype"@) == Some("hook_callback"@)
            &&& json_member2_str(line, "request"@, "callback_id"@) is Some
            &&& json_has_member2(line, "request"@, "input"@)
        }
    })
}

/// Classify an inbound line from the agent's stdout: blank lines are
/// skipped; `result` lines are terminal; `control_response` lines are
/// ignored; well-formed `control_request` lines are routed with their
/// request id and request; everything else is forwarded raw.
pub fn classify_line(line: &str) -> (r: InboundClass)
    ensures
        r is Blank <==> is_blank_bytes(line.spec_bytes()),
        r is Terminal <==> (!is_blank_bytes(line.spec_bytes()) && json_member_str(line@, "type"@)
            == Some("result"@)),
        r is Response <==> (!is_blank_bytes(line.spec_bytes()) && json_member_str(line@, "type"@)
            == Some("control_response"@)),
        r is Request <==> (!is_blank_bytes(line.spec_bytes()) && request_shape(line@)),
        r is Opaque <==> (!is_blank_bytes(line.spec_bytes()) && json_member_str(line@, "type"@)
            != Some("result"@) && json_member_str(line@, "type"@) != Some("control_response"@)
            && !request_shape(line@)),
        r matches InboundClass::Request { request_id, request } ==> {
            &&& json_member_str(line@, "request_id"@) == Some(request_id@)
            &&& match request {
                ControlRequest::CanUseTool { tool_name, input, tool_use_id } => {
                    &&& json_member2_str(line@, "request"@, "subtype"@) == Some("can_use_tool"@)
                    &&& json_member2_str(line@, "request"@, "tool_name"@) == Some(tool_name@)
                    &&& json_has_member2(line@, "request"@, "input"@)
                    &&& (match tool_use_id {
                        Some(t) => json_member2_str(line@, "request"@, "tool_use_id"@) == Some(
                            t@,
                        ),
                        None => json_member2_str(line@, "request"@, "tool_use_id"@) is None,
                    })
                },
                ControlRequest::HookCallback { callback_id, input, tool_use_id } => {
                    &&& json_member2_str(line@, "request"@, "subtype"@) == Some("hook_callback"@)
                    &&& json_member2_str(line@, "request"@, "callback_id"@) == Some(callback_id@)
                    &&& json_has_member2(line@, "request"@, "input"@)
                    &&& (match tool_use_id {
                        Some(t) => json_member2_str(line@, "request"@, "tool_use_id"@) == Some(
                            t@,
                        ),
                        None => json_member2_str(line@, "request"@, "tool_use_id"@) is None,
                    })
                },
            }
        },
{
    if str_is_blank(line) {
        return InboundClass::Blank;
    }
    proof {
        lemma_tag_views();
    }
    let ty = match get_member_str(line, "type") {
        Some(t) => t,
        None => {
            return InboundClass::Opaque;
        },
    };
    if ty == <String as vstd::string::StringExecFns>::from_str("result") {
        return InboundClass::Terminal;
    }
    if ty == <String as vstd::string::StringExecFns>::from_str("control_response") {
        return InboundClass::Response;
    }
    if ty == <String as vstd::string::StringExecFns>::from_str("control_request") {
        let request_id = match get_member_str(line, "request_id") {
            Some(x) => x,
            None => {
                return InboundClass::Opaque;
            },
        };
        let subtype = match get_member2_str(line, "request", "subtype") {
            Some(x) => x,
            None => {
                return InboundClass::Opaque;
            },
        };
        if subtype == <String as vstd::string::StringExecFns>::from_str("can_use_tool") {
            let tool_name = match get_member2_str(line, "request", "tool_name") {
                Some(x) => x,
                None => {
                    return InboundClass::Opaque;
                },
            };
            let input = match get_member2_value(line, "request", "input") {
                Some(v) => v,
                None => {
                    return InboundClass::Opaque;
                },
            };
            let tool_use_id = get_member2_str(line, "request", "tool_use_id");
            return InboundClass::Request {
                request_id,
                request: ControlRequest::CanUseTool { tool_name, input, tool_use_id },
            };
        }
        if subtype == <String as vstd::string::StringExecFns>::from_str("hook_callback") {
            let callback_id = match get_member2_str(line, "request", "callback_id") {
                Some(x) => x,
                None => {
                    return InboundClass::Opaque;
                },
            };
            let input = match get_member2_value(line, "request", "input") {
                Some(v) => v,
                None => {
                    return InboundClass::Opaque;
                },
            };
            let tool_use_id = get_member2_str(line, "request", "tool_use_id");
            return InboundClass::Request {
                request_id,
                request: ControlRequest::HookCallback { callback_id, input, tool_use_id },
            };
        }
        return InboundClass::Opaque;
    }
    InboundClass::Opaque
}

/// How a `can_use_tool` request is served.
#[derive(Debug, Clone, Copy, PartialEq, Eq, Structural)]
pub enum ToolRoute {
    /// Reply allow with the input unchanged, without consulting a handler.
    AllowUnchanged,
    /// Ask the approval handler.
    Ask,
}

/// The dispatch rule for `can_use_tool`: the handler is consulted exactly
/// when one is configured and the request carries a tool-use id; otherwise
/// the invocation is allowed with its input unchanged.
pub fn can_use_tool_route(has_handler: bool, tool_use_id: &Option<String>) -> (r: ToolRoute)
    ensures
        r is Ask <==> (has_handler && tool_use_id is Some),
{
    if has_handler {
        match tool_use_id {
            Some(_) => ToolRoute::Ask,
            None => ToolRoute::AllowUnchanged,
        }
    } else {
        ToolRoute::AllowUnchanged
    }
}

/// The peer's `interrupt` control request, as one JSON line.
pub fn interrupt_frame() -> (r: Vec<u8>)
    ensures
        r@ == ("{\"type\":\"control_request\",\"request\":{\"subtype\":\"interrupt\"}}").spec_bytes(),
{
    let mut out: Vec<u8> = Vec::new();
    put_lit(&mut out, "{\"type\":\"control_request\",\"request\":{\"subtype\":\"interrupt\"}}");
    proof {
        assert(out@ =~= ("{\"type\":\"control_request\",\"request\":{\"subtype\":\"interrupt\"}}").spec_bytes());
    }
    out
}

/// The peer's `initialize` control request; hooks, when given, are the
/// serialized JSON text to embed.
pub fn initialize_frame(hooks_json: Option<&str>) -> (r: Vec<u8>)
    ensures
        hooks_json is None ==> r@ == (
        "{\"type\":\"control_request\",\"request\":{\"subtype\":\"initialize\"}}").spec_bytes(),
        hooks_json matches Some(h) ==> r@ == (
        "{\"type\":\"control_request\",\"request\":{\"subtype\":\"initialize\",\"hooks\":").spec_bytes()
            + (encode_utf8(h@) + ("}}").spec_bytes()),
{
    let mut out: Vec<u8> = Vec::new();
    match hooks_json {
        None => {
            put_lit(&mut out, "{\"type\":\"control_request\",\"request\":{\"subtype\":\"initialize\"}}");
        },
        Some(h) => {
            put_lit(
                &mut out,
                "{\"type\":\"control_request\",\"request\":{\"subtype\":\"initialize\",\"hooks\":",
            );
            put_raw(&mut out, h);
            put_lit(&mut out, "}}");
        },
    }
    proof {
        if hooks_json is None {
            assert(out@ =~= (
            "{\"type\":\"control_request\",\"request\":{\"subtype\":\"initialize\"}}").spec_bytes());
        }
    }
    out
}

/// The peer's `set_permission_mode` control request.
pub fn set_permission_mode_frame(mode: PermissionMode) -> (r: Vec<u8>)
    ensures
        r@ == ("{\"type\":\"control_request\",\"request\":{\"subtype\":\"set_permission_mode\",\"mode\":\"").spec_bytes()
            + (mode_word(mode).spec_bytes() + ("\"}}").spec_bytes()),
{
    let mut out: Vec<u8> = Vec::new();
    put_lit(
        &mut out,
        "{\"type\":\"control_request\",\"request\":{\"subtype\":\"set_permission_mode\",\"mode\":\"",
    );
    match mode {
        PermissionMode::DefaultMode => put_lit(&mut out, "default"),
        PermissionMode::AcceptEdits => put_lit(&mut out, "acceptEdits"),
        PermissionMode::BypassPermissions => put_lit(&mut out, "bypassPermissions"),
        PermissionMode::Plan => put_lit(&mut out, "plan"),
    }
    put_lit(&mut out, "\"}}");
    proof {
        assert(out@ =~= ("{\"type\":\"control_request\",\"request\":{\"subtype\":\"set_permission_mode\",\"mode\":\"").spec_bytes()
            + (mode_word(mode).spec_bytes() + ("\"}}").spec_bytes()));
    }
    out
}

/// A `user` message carrying a prompt for the agent.
pub fn user_message_frame(content: &str) -> (r: Vec<u8>)
    ensures
        r@ == ("{\"type\":\"user\",\"content\":\"").spec_bytes() + (json_escape(
            encode_utf8(content@),
        ) + ("\"}").spec_bytes()),
{
    let mut out: Vec<u8> = Vec::new();
    put_lit(&mut out, "{\"type\":\"user\",\"content\":\"");
    put_escaped(&mut out, content.as_bytes());
    put_lit(&mut out, "\"}");
    proof {
        assert(out@ =~= ("{\"type\":\"user\",\"content\":\"").spec_bytes() + (json_escape(
            encode_utf8(content@),
        ) + ("\"}").spec_bytes()));
    }
    out
}

/// A successful control response: the `response` member is the serialized
/// JSON payload handed in.
pub fn success_response_frame(request_id: &str, payload_json: &str) -> (r: Vec<u8>)
    ensures
        r@ == ("{\"type\":\"control_response\",\"response\":{\"subtype\":\"success\",\"request_id\":\"").spec_bytes()
            + (json_escape(encode_utf8(request_id@)) + (("\",\"response\":").spec_bytes() + (
        encode_utf8(payload_json@) + ("}}").spec_bytes()))),
{
    let mut out: Vec<u8> = Vec::new();
    put_lit(
        &mut out,
        "{\"type\":\"control_response\",\"response\":{\"subtype\":\"success\",\"request_id\":\"",
    );
    put_escaped(&mut out, request_id.as_bytes());
    put_lit(&mut out, "\",\"response\":");
    put_raw(&mut out, payload_json);
    put_lit(&mut out, "}}");
    proof {
        assert(out@ =~= ("{\"type\":\"control_response\",\"response\":{\"subtype\":\"success\",\"request_id\":\"").spec_bytes()
            + (json_escape(encode_utf8(request_id@)) + (("\",\"response\":").spec_bytes() + (
        encode_utf8(payload_json@) + ("}}").spec_bytes()))));
    }
    out
}

/// An error control response carrying the error text.
pub fn error_response_frame(request_id: &str, error: &str) -> (r: Vec<u8>)
    ensures
        r@ == ("{\"type\":\"control_response\",\"response\":{\"subtype\":\"error\",\"request_id\":\"").spec_bytes()
            + (json_escape(encode_utf8(request_id@)) + (("\",\"error\":\"").spec_bytes() + (
        json_escape(encode_utf8(error@)) + ("\"}}").spec_bytes()))),
{
    let mut out: Vec<u8> = Vec::new();
    put_lit(
        &mut out,
        "{\"type\":\"control_response\",\"response\":{\"subtype\":\"error\",\"request_id\":\"",
    );
    put_escaped(&mut out, request_id.as_bytes());
    put_lit(&mut out, "\",\"error\":\"");
    put_escaped(&mut out, error.as_bytes());
    put_lit(&mut out, "\"}}");
    proof {
        assert(out@ =~= ("{\"type\":\"control_response\",\"response\":{\"subtype\":\"error\",\"request_id\":\"").spec_bytes()
            + (json_escape(encode_utf8(request_id@)) + (("\",\"error\":\"").spec_bytes() + (
        json_escape(encode_utf8(error@)) + ("\"}}").spec_bytes()))));
    }
    out
}

/// The permission-result payload that allows a tool call: the updated input
/// is the serialized JSON text handed in.
pub fn allow_payload(updated_input_json: &str) -> (r: Vec<u8>)
    ensures
        r@ == ("{\"behavior\":\"allow\",\"updatedInput\":").spec_bytes() + (encode_utf8(
            updated_input_json@,
        ) + (",\"updatedPermissions\":null}").spec_bytes()),
{
    let mut out: Vec<u8> = Vec::new();
    put_lit(&mut out, "{\"behavior\":\"allow\",\"updatedInput\":");
    put_raw(&mut out, updated_input_json);
    put_lit(&mut out, ",\"updatedPermissions\":null}");
    proof {
        assert(out@ =~= ("{\"behavior\":\"allow\",\"updatedInput\":").spec_bytes() + (encode_utf8(
            updated_input_json@,
        ) + (",\"updatedPermissions\":null}").spec_bytes()));
    }
    out
}

/// The permission-result payload that denies a tool call.
pub fn deny_payload(message: &str, interrupt: Option<bool>) -> (r: Vec<u8>)
    ensures
        interrupt is None ==> r@ == ("{\"behavior\":\"deny\",\"message\":\"").spec_bytes() + (
        json_escape(encode_utf8(message@)) + ("\"}").spec_bytes()),
        interrupt matches Some(b) ==> r@ == ("{\"behavior\":\"deny\",\"message\":\"").spec_bytes()
            + (json_escape(encode_utf8(message@)) + (("\",\"interrupt\":").spec_bytes() + ((if b {
            "true"
        } else {
            "false"
        }).spec_bytes() + ("}").spec_bytes()))),
{
    let mut out: Vec<u8> = Vec::new();
    put_lit(&mut out, "{\"behavior\":\"deny\",\"message\":\"");
    put_escaped(&mut out, message.as_bytes());
    match interrupt {
        None => {
            put_lit(&mut out, "\"}");
            proof {
                assert(out@ =~= ("{\"behavior\":\"deny\",\"message\":\"").spec_bytes() + (
                json_escape(encode_utf8(message@)) + ("\"}").spec_bytes()));
            }
        },
        Some(b) => {
            put_lit(&mut out, "\",\"interrupt\":");
            if b {
                put_lit(&mut out, "true");
            } else {
                put_lit(&mut out, "false");
            }
            put_lit(&mut out, "}");
            proof {
                assert(out@ =~= ("{\"behavior\":\"deny\",\"message\":\"").spec_bytes() + (
                json_escape(encode_utf8(message@)) + (("\",\"interrupt\":").spec_bytes() + ((if b {
                    "true"
                } else {
                    "false"
                }).spec_bytes() + ("}").spec_bytes()))));
            }
        },
    }
    out
}

/// The canned hook output used when no approval handler is configured:
/// the hook is auto-approved.
pub fn hook_auto_approve_payload() -> (r: Vec<u8>)
    ensures
        r@ == ("{\"hookSpecificOutput\":{\"hookEventName\":\"PreToolUse\",\"permissionDecision\":\"allow\",\"permissionDecisionReason\":\"Auto-approved\"}}").spec_bytes(),
{
    let mut out: Vec<u8> = Vec::new();
    put_lit(
        &mut out,
        "{\"hookSpecificOutput\":{\"hookEventName\":\"PreToolUse\",\"permissionDecision\":\"allow\",\"permissionDecisionReason\":\"Auto-approved\"}}",
    );
    proof {
        assert(out@ =~= ("{\"hookSpecificOutput\":{\"hookEventName\":\"PreToolUse\",\"permissionDecision\":\"allow\",\"permissionDecisionReason\":\"Auto-approved\"}}").spec_bytes());
    }
    out
}

/// The hook output that defers the decision to the approval pathway, naming
/// the callback being forwarded.
pub fn hook_ask_payload(callback_id: &str) -> (r: Vec<u8>)
    ensures
        r@ == ("{\"hookSpecificOutput\":{\"hookEventName\":\"PreToolUse\",\"permissionDecision\":\"ask\",\"permissionDecisionReason\":\"Forwarding ").spec_bytes()
            + (json_escape(encode_utf8(callback_id@)) + (
        " to approval handler\"}}").spec_bytes()),
{
    let mut out: Vec<u8> = Vec::new();
    put_lit(
        &mut out,
        "{\"hookSpecificOutput\":{\"hookEventName\":\"PreToolUse\",\"permissionDecision\":\"ask\",\"permissionDecisionReason\":\"Forwarding ",
    );
    put_escaped(&mut out, callback_id.as_bytes());
    put_lit(&mut out, " to approval handler\"}}");
    proof {
        assert(out@ =~= ("{\"hookSpecificOutput\":{\"hookEventName\":\"PreToolUse\",\"permissionDecision\":\"ask\",\"permissionDecisionReason\":\"Forwarding ").spec_bytes()
            + (json_escape(encode_utf8(callback_id@)) + (
        " to approval handler\"}}").spec_bytes()));
    }
    out
}

/// Append the raw bytes of already-serialized JSON.
fn put_raw(out: &mut Vec<u8>, s: &str)
    ensures
        final(out)@ == old(out)@ + encode_utf8(s@),
{
    put_lit(out, s);
}

} // verus!
