//! The controller of an organization: its governance modules, its voting
//! module, its configuration and its item registry.

pub mod addr;
pub mod auth;
pub mod contract;
pub mod error;
pub mod items;
pub mod laws;
pub mod modules;
pub mod msg;
pub mod order;
pub mod ordered_map;
pub mod passthrough;
pub mod query;
pub mod replies;
pub mod state;
pub mod voting;
