//! An employee directory driven by a text menu, a median and mode
//! calculator, and a few small companions: text slices, generic maxima,
//! summaries of news items.

pub mod directory;
pub mod menu;
pub mod stats;

pub mod aggregator;
pub mod control_flow;
pub mod functions;
pub mod generics;
pub mod lifetimes;
pub mod ownership;
pub mod slices;
pub mod users;
