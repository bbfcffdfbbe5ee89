pub mod data_structures;
pub mod text;
pub mod command;
pub mod controller;
pub mod dmx_output;
pub mod tui;
