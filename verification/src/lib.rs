//! Decision logic of a rule-based browser chooser: browser discovery helpers,
//! URL rule matching, command parsing and XDG / registry integration data.
pub mod text;
pub mod browser_discovery;
pub mod platform;
pub mod gui;
pub mod rules;
pub mod commands;
pub mod diagnostics;
