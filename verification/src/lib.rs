//! `ke`: a macOS Keychain secrets manager, as a verified library. It holds
//! the project's logic: name rules, `.env` and shell quoting, the project
//! index, the Keychain backend's cache and command protocol, the CLI's
//! argument handling and the TUI's state machine. The program around it
//! does the I/O.
pub mod app;
pub mod cli;
pub mod config;
pub mod display;
pub mod dotenv;
pub mod envfile;
pub mod keychain;
pub mod names;
pub mod order;
pub mod store;
pub mod text;
