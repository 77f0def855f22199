//! The passes that the control loop runs over the world.

pub mod lcn_command_executor;
pub mod lifecycle;
pub mod request_processor;
pub mod scheduler;
pub mod status_reporter;
