//! Workspace sidebar model for a terminal multiplexer: merging configured
//! and live workspaces, per-workspace defaults, persistence encoding,
//! row building and the editing state of the sidebar dialogs.

pub mod text;
pub mod strmap;
pub mod spawn_config;
pub mod workspace_defaults;
pub mod sidebar;
pub mod sidebar_dialog;
pub mod sidebar_rows;
pub mod sidebar_menu;
pub mod command_injection;
pub mod sidebar_persist;
