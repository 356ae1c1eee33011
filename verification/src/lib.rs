//! Verified runtime logic of an LLM agent: steering queues, error
//! classification, permission rules and session approvals, tool-call
//! assembly, batching and authorization, hook matching, streaming argument
//! interception, context budgeting and projection, cache-break detection,
//! and the texts the agent injects into its conversation.
use vstd::prelude::*;

pub mod text;
pub mod plan_arg_interceptor;
pub mod message_queue;
pub mod api_errors;
pub mod glob;
pub mod permissions;
pub mod approval_cache;
pub mod message_injection;
pub mod json_args;
pub mod dispatcher;
pub mod accumulator;
pub mod iteration_check;
pub mod context_budget;
pub mod llm_plugin;
pub mod anthropic_stream;
pub mod tool_recovery;
pub mod skill_injection;
pub mod hook_config;
pub mod hook_executor;
pub mod cache_break_detection;
pub mod goal_prompts;
pub mod lsp_actions;
pub mod file_persistence;
pub mod context_assembly;
pub mod model_critic;
pub mod magic_docs;
pub mod context_projection;
pub mod mode_attachments;
pub mod cost_tracker;
pub mod agent_step;
pub mod end_turn;
pub mod llm_call;
pub mod orchestrator;

verus! {
} // verus!
