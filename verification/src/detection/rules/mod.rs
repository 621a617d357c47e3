//! Per-family scoring rules.
pub mod antminer;
pub mod avalon;
pub mod bitaxe;
pub mod cgminer;
pub mod whatsminer;
