//! The record of how a question was answered: what was planned, how each tool
//! fared, what was said, and how often the model was asked.

use vstd::prelude::*;

use crate::grounding::GroundedNarration;
use crate::orchestrator::ToolPlan;
use crate::text;
use crate::trace;

verus! {

/// How one planned tool fared. One that failed has no trace, and an error.
#[derive(Debug)]
pub struct ToolResult {
    pub tool: String,
    pub trace_id: String,
    pub latency_ms: u64,
    pub success: bool,
    pub error: Option<String>,
}

/// How the check of the narration came out.
#[derive(Debug)]
pub struct GroundingStatus {
    pub passed: bool,
    pub warnings: Vec<String>,
    pub retry_count: u32,
}

impl Default for GroundingStatus {
    fn default() -> (res: GroundingStatus)
        ensures
            !res.passed,
            res.warnings@.len() == 0,
            res.retry_count == 0,
    {
        GroundingStatus { passed: false, warnings: Vec::new(), retry_count: 0 }
    }
}

/// The check passed exactly where a narration comes without warnings.
pub fn grounding_status(narration: &GroundedNarration, retry_count: u32) -> (res: GroundingStatus)
    ensures
        res.passed == (narration.grounding_warnings@.len() == 0),
        text::views(res.warnings@) == text::views(narration.grounding_warnings@),
        res.retry_count == retry_count,
{
    GroundingStatus {
        passed: narration.grounding_warnings.len() == 0,
        warnings: text::copy_all(&narration.grounding_warnings),
        retry_count,
    }
}

/// How often the model is asked for one answer: once for the plan, once for
/// the narration and once more for every retry, and once for the suggestion.
pub fn gemini_calls(retry_count: u32) -> (res: u32)
    requires
        retry_count <= crate::grounding::MAX_RETRIES,
    ensures
        res == 3 + retry_count,
{
    1 + (1 + retry_count) + 1
}

/// The record of how a question was answered.
#[derive(Debug)]
pub struct AgentExecutionTrace {
    pub id: String,
    pub created_at: String,
    pub user_message: String,
    /// The reply to the planning request as it came, also where it could not
    /// be read.
    pub planning_response_raw: String,
    pub tool_plans: Vec<ToolPlan>,
    pub tool_results: Vec<ToolResult>,
    pub narration: String,
    pub grounding_status: GroundingStatus,
    pub suggestion: String,
    pub total_latency_ms: u64,
    pub gemini_calls: u32,
}

/// Puts the record of an answer together, with a fresh identifier.
pub fn execution_trace(
    created_at: String,
    user_message: &str,
    planning_response_raw: String,
    tool_plans: Vec<ToolPlan>,
    tool_results: Vec<ToolResult>,
    narration: &GroundedNarration,
    retry_count: u32,
    suggestion: &str,
    total_latency_ms: u64,
) -> (res: AgentExecutionTrace)
    requires
        retry_count <= crate::grounding::MAX_RETRIES,
    ensures
        trace::is_random_uuid(res.id@),
        res.created_at == created_at,
        res.user_message@ == user_message@,
        res.planning_response_raw == planning_response_raw,
        res.tool_plans == tool_plans,
        res.tool_results == tool_results,
        res.narration@ == narration.narration@,
        res.grounding_status.passed == (narration.grounding_warnings@.len() == 0),
        text::views(res.grounding_status.warnings@) == text::views(narration.grounding_warnings@),
        res.grounding_status.retry_count == retry_count,
        res.suggestion@ == suggestion@,
        res.total_latency_ms == total_latency_ms,
        res.gemini_calls == 3 + retry_count,
{
    AgentExecutionTrace {
        id: trace::new_trace_id(),
        created_at,
        user_message: text::copy(user_message),
        planning_response_raw,
        tool_plans,
        tool_results,
        narration: text::copy(narration.narration.as_str()),
        grounding_status: grounding_status(narration, retry_count),
        suggestion: text::copy(suggestion),
        total_latency_ms,
        gemini_calls: gemini_calls(retry_count),
    }
}

} // verus!
