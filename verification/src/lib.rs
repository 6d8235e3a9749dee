//! Reduction of code-mode script output on its way into model context.
pub mod actionable_state;
pub mod assoc;
pub mod bridge;
pub mod capabilities;
pub mod context;
pub mod endpoint;
pub mod identity;
pub mod items;
pub mod json;
pub mod miser_reducer;
pub mod parent_intent;
pub mod payload;
pub mod post_tool_use;
pub mod reducer;
pub mod reduction;
pub mod response;
pub mod retrieval;
pub mod service;
pub mod text;
pub mod token_miser;
pub mod transfer;
