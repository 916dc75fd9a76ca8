//! `andro` — run Android apps from the macOS command line on a native,
//! disposable Android emulator.
//!
//! Everything (a Temurin JDK, the Android SDK, and the AVDs) is provisioned
//! self-contained under `~/.andro`. This library holds the decisions: the
//! layout of that home and the environment the tools run with, the resolved
//! configuration, the adb arguments of every command, the parsing of what adb
//! and the AVD files say, and what `autoclean` may remove. Running the tools
//! and touching the filesystem is left to the command-line program.
pub mod text;
pub mod emulator;
pub mod sdk;
pub mod config;
pub mod provision;
pub mod commands;
pub mod autoclean;
