//! Verified core of a portfolio-risk copilot: market-data alignment, the
//! decisions around the factor model, the experiments, risk policies, the
//! request/plan/grounding logic of the conversational layer, and the rules
//! of the HTTP surface.
//!
//! Floating-point arithmetic is not done here. A double is carried as a
//! [`double::Double`], which knows its order and its exact value but has no
//! arithmetic; wherever a number has to be computed, the function takes the
//! computed number as an argument and decides what follows from it.

pub mod api;
pub mod conversation;
pub mod cvar;
pub mod data;
pub mod dates;
pub mod dispatch;
pub mod double;
pub mod drift;
pub mod error;
pub mod execution_trace;
pub mod experiments;
pub mod format;
pub mod gemini;
pub mod grounding;
pub mod inputs;
pub mod json;
pub mod message;
pub mod model;
pub mod narrate;
pub mod orchestrator;
pub mod parse;
pub mod performance;
pub mod pipeline;
pub mod policy;
pub mod portfolio;
pub mod regime;
pub mod report;
pub mod reverse_stress;
pub mod routes;
pub mod scenarios;
pub mod schema;
pub mod select;
pub mod store;
pub mod suggest;
pub mod table;
pub mod text;
pub mod trace;
pub mod upload;
pub mod validate;
