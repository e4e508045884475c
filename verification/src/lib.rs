//! Validation and planning logic for the controlled-world commands of the
//! Steel server: clear regions, materialization plans, block-state syntax,
//! and the step-by-step decisions that drive world mutation.

pub mod region;
pub mod error;
mod fxset;
pub mod parity;
pub mod flat_navigation;
pub mod block_state;
pub mod clearing;
pub mod world;
pub mod fixture;
pub mod descriptor;
pub mod materialize;
