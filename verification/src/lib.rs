//! Power-supply monitoring: wire decoding, alerting, energy accounting and client views.
pub mod alerts;
pub mod arith;
pub mod bounded;
pub mod calendar;
pub mod cli;
pub mod clock;
pub mod desktop;
pub mod device;
pub mod history;
pub mod ipc;
pub mod measurements;
pub mod model;
pub mod notify;
pub mod ordered_map;
pub mod plugin;
pub mod pricing;
pub mod protocol;
pub mod runtime;
pub mod text;
pub mod tone;
pub mod wire;
