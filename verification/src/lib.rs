//! A shell history picker: history file parsing, filtering, selection and
//! the shell hooks that bind it to Ctrl-R.
pub mod text;
pub mod history;
pub mod app;
pub mod input;
pub mod cli;
pub mod startup;
pub mod ui;
