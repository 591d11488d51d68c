//! The decisions of the MCP JSON-RPC surface shared by the stdio and HTTP
//! transports: which method a request names, which tool a `tools/call` asks for,
//! and whether a `review_plan` call's arguments can be reviewed. Reading and
//! writing JSON stays with the transports.
use vstd::prelude::*;

use crate::schema::{LensResult, ReviewRequest, ReviewResponse};
use crate::strs::{chars_of, is_blank, opt_str_view, str_eq, trim};
use crate::{lens_views, review, run_lens_spec, summary_spec};
use crate::schema::Lens;

verus! {

/// A JSON-RPC error.
#[derive(Debug, Clone)]
pub struct RpcError {
    pub code: i32,
    pub message: String,
}

/// What a JSON-RPC request asks the server for.
#[derive(Debug, Clone, Copy, PartialEq, Eq, Structural)]
pub enum RpcAction {
    /// `initialize`: the server's description.
    Initialize,
    /// `notifications/initialized`: an empty result.
    Initialized,
    /// `tools/list`: the tool catalogue.
    ListTools,
    /// `tools/call` of `review_plan`.
    ReviewPlan,
    /// `tools/call` of `review_team`.
    ReviewTeam,
}

/// The server's name in its `initialize` answer.
pub const SERVER_NAME: &'static str = "laura-mcp";

/// The MCP protocol version the server speaks.
pub const PROTOCOL_VERSION: &'static str = "2024-11-05";

/// JSON-RPC: the request could not be parsed.
pub const PARSE_ERROR: i32 = -32700;

/// JSON-RPC: invalid params.
pub const INVALID_PARAMS: i32 = -32602;

/// JSON-RPC: method not found.
pub const METHOD_NOT_FOUND: i32 = -32601;

/// A tool call that failed.
pub const TOOL_ERROR: i32 = -32000;

/// The answer to a request naming `method`, where `tool` is the `name` string of
/// its parameters when there is one: the action, or the error code and message.
pub open spec fn route_spec(method: Seq<char>, tool: Option<Seq<char>>) -> Result<
    RpcAction,
    (i32, Seq<char>),
> {
    if method == "initialize"@ {
        Ok(RpcAction::Initialize)
    } else if method == "notifications/initialized"@ {
        Ok(RpcAction::Initialized)
    } else if method == "tools/list"@ {
        Ok(RpcAction::ListTools)
    } else if method == "tools/call"@ {
        match tool {
            None => Err((INVALID_PARAMS, "missing tool name"@)),
            Some(n) => if n == "review_plan"@ {
                Ok(RpcAction::ReviewPlan)
            } else if n == "review_team"@ {
                Ok(RpcAction::ReviewTeam)
            } else {
                Err((TOOL_ERROR, "unknown tool: "@ + n))
            },
        }
    } else {
        Err((METHOD_NOT_FOUND, "method not found: "@ + method))
    }
}

pub open spec fn rpc_result_view(r: Result<RpcAction, RpcError>) -> Result<RpcAction, (i32, Seq<char>)> {
    match r {
        Ok(a) => Ok(a),
        Err(e) => Err((e.code, e.message@)),
    }
}

fn rpc_error(code: i32, head: &str, tail: &str) -> (e: RpcError)
    ensures
        e.code == code,
        e.message@ == head@ + tail@,
{
    let mut message = String::from_str(head);
    message.append(tail);
    RpcError { code, message }
}

/// Routes a request naming `method`; `tool_name` is the `name` string of its
/// parameters, when there is one (only `tools/call` reads it).
pub fn route(method: &str, tool_name: Option<&str>) -> (r: Result<RpcAction, RpcError>)
    ensures
        rpc_result_view(r) == route_spec(method@, opt_str_view(tool_name)),
{
    if str_eq(method, "initialize") {
        Ok(RpcAction::Initialize)
    } else if str_eq(method, "notifications/initialized") {
        Ok(RpcAction::Initialized)
    } else if str_eq(method, "tools/list") {
        Ok(RpcAction::ListTools)
    } else if str_eq(method, "tools/call") {
        match tool_name {
            None => Err(RpcError { code: INVALID_PARAMS, message: String::from_str("missing tool name") }),
            Some(n) => {
                if str_eq(n, "review_plan") {
                    Ok(RpcAction::ReviewPlan)
                } else if str_eq(n, "review_team") {
                    Ok(RpcAction::ReviewTeam)
                } else {
                    Err(rpc_error(TOOL_ERROR, "unknown tool: ", n))
                }
            },
        }
    } else {
        Err(rpc_error(METHOD_NOT_FOUND, "method not found: ", method))
    }
}

pub open spec fn empty_text_message() -> Seq<char> {
    "text must not be empty"@
}

pub open spec fn empty_lenses_message() -> Seq<char> {
    "lenses must not be an empty array — omit the field entirely to run all four"@
}

/// The `review_plan` tool: refuses a blank text and an empty lens list, and
/// otherwise reviews the request (the resonance lens's result is passed in).
pub fn review_plan(req: &ReviewRequest, resonance: &LensResult) -> (r: Result<ReviewResponse, String>)
    requires
        req.lenses@.len() * (4 * req.text@.len() + 16 + resonance.findings@.len()) <= usize::MAX,
        crate::lenses::resonance::resonance_result_for(req.text@, resonance@),
    ensures
        trim(req.text@).len() == 0 ==> (r matches Err(m) && m@ == empty_text_message()),
        trim(req.text@).len() > 0 && req.lenses@.len() == 0 ==> (r matches Err(m) && m@
            == empty_lenses_message()),
        r is Ok <==> trim(req.text@).len() > 0 && req.lenses@.len() > 0,
        r matches Ok(resp) ==> lens_views(resp.lenses@) == req.lenses@.map_values(
            |l: Lens| run_lens_spec(l, req.text@, resonance@),
        ) && resp.summary@ == summary_spec(lens_views(resp.lenses@)),
{
    let t = chars_of(req.text.as_str());
    if is_blank(&t) {
        return Err(String::from_str("text must not be empty"));
    }
    if req.lenses.len() == 0 {
        return Err(
            String::from_str(
                "lenses must not be an empty array — omit the field entirely to run all four",
            ),
        );
    }
    Ok(review(req, resonance))
}

} // verus!
