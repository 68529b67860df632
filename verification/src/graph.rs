//! What a chart asks for and what it gets back.

pub mod graph_axis;
pub mod graph_state_request;
