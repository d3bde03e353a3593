//! Parsing of OpenSSH client configuration, construction of `ssh` command
//! lines, and the selection model of the configuration import dialog.

pub mod text;
pub mod types;
pub mod ssh_config;
pub mod ssh_command;
pub mod import_dialog;
