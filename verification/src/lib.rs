//! Verified core of a multi-backend chat client: message model, context
//! trimming, response-cache keying, JSON-RPC framing and correlation, a tool
//! registry with a permission mode, and the tool-orchestration state machine.
pub mod strutil;
pub mod messages;
pub mod tools;
pub mod context;
pub mod cache;
pub mod framing;
pub mod rpc;
pub mod settings;
pub mod orchestrate;
pub mod passthrough;
pub mod render;

