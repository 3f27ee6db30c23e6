//! Decisions of a terminal multiplexer for coding agents: those of its client,
//! and those of the server that holds the session.

pub mod agent_resume;
pub mod endpoint;
pub mod endpoint_navigation;
pub mod exposure_laws;
pub mod geometry;
pub mod going_laws;
pub mod input_bytes;
pub mod launch_laws;
pub mod navigation_laws;
pub mod paths;
pub mod resume_laws;
pub mod resume_round;
pub mod run_laws;
pub mod search;
pub mod session;
pub mod shell_command;
pub mod shell_state;
pub mod sidebar_laws;
pub mod startup;
pub mod stop_laws;
pub mod text;
