//! Scheduling of recurring and one-shot automation tasks.
//!
//! Tasks live in a small entity/component store ([`world::World`]). The
//! scheduler turns each task's weekly [`components::Schedule`] into concrete
//! activation timestamps and drives its [`components::ActivationState`]
//! through the activation lifecycle.

pub mod components;
pub mod lcn;
pub mod lcn_config;
pub mod local_time;
pub mod marked;
pub mod requests;
pub mod systems;
pub mod world;
