pub mod control;
pub mod controller;
pub mod links;
pub mod sequencer;
