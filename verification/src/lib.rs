//! Control logic for a motorised two-axis antenna dish driven over a
//! line-oriented serial protocol: the wire codec, the telemetry store, the
//! planning of maneuvers and the dispatch rules, all on plain values.

pub mod angle;
pub mod dish_actions;
pub mod dish_controller;
pub mod dish_driver;
pub mod dispatcher;
pub mod number;
pub mod pattern;
pub mod rfss;
pub mod scan_laws;
pub mod text;
pub mod waits;
