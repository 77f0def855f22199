//! The requests that callers make of the control loop, and its replies.

use crate::components::{LcnCommand, Schedule};
use crate::systems::status_reporter::TaskStatus;
use crate::world::Entity;
use vstd::prelude::*;

verus! {

/// What a new task is made of.
#[derive(Debug)]
pub struct TaskRequest {
    pub schedule: Schedule,
    pub cmd: LcnCommand,
}

/// A request to the control loop.
#[derive(Debug)]
pub enum Request {
    /// Create a task and reply with its entity.
    NewTask(TaskRequest),
    /// Remove a task and reply whether there was one to remove.
    RemoveTask(Entity),
    /// Reply with the summary of every task.
    GetStatus,
}

/// The reply to a request.
#[derive(Debug)]
pub enum Response {
    NewTask(Entity),
    RemoveTask(bool),
    GetStatus(Vec<TaskStatus>),
}

} // verus!
