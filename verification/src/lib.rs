pub mod cli;
pub mod controls;
pub mod probe;
pub mod profile;
pub mod service;
pub mod table;
pub mod models;
pub mod text;
pub mod tui;
pub mod usb;
