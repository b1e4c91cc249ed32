//! The logic of NativeTerm, a session manager for the terminal the
//! operating system already has: what is open and where, what every command
//! and report does to it, what the dialogs make of what is typed, and the
//! files window. Everything here is decided on plain values; the program
//! around it draws the windows, serves the pipe, drives Terminal, keeps
//! `state.db` and talks to servers, hands over what came in, and does what
//! is answered.

pub mod actions;
pub mod agent;
pub mod app;
pub mod cleanup;
pub mod commands;
pub mod commands_import;
pub mod connect_queue;
pub mod control;
pub mod credential_sets;
pub mod data_dir;
pub mod data_lock;
pub mod dates;
pub mod diag;
pub mod dialogs;
pub mod dock;
pub mod fab;
pub mod files_edit;
pub mod files_jobs;
pub mod files_list;
pub mod files_sync;
pub mod files_tab;
pub mod files_text;
pub mod files_tree;
pub mod files_window;
pub mod fuzzy;
pub mod i18n;
pub mod icons;
pub mod import;
pub mod import_dialog;
pub mod key_dialog;
pub mod looks;
pub mod message;
pub mod notes;
pub mod opening;
pub mod options_dialog;
pub mod order;
pub mod orders;
pub mod paths;
pub mod pipe;
pub mod plink_dialog;
pub mod previews;
pub mod quick;
pub mod refresh;
pub mod registry;
pub mod session;
pub mod sessions;
pub mod start;
pub mod tabs;
pub mod text;
pub mod wizard;

pub use control::SendReport;
pub use session::{unique_label, Location, SessionView, State};
pub use sessions::{Core, HostRequest, CLOSE_ON_EXIT_SETTING};
