//! Verified core of a terminal coding workbench.

pub mod apply_patch_tool;
pub mod atomic_write;
pub mod display;
pub mod fork_tab;
pub mod goal_setup;
pub mod journal;
pub mod json;
pub mod loaded_threads;
pub mod mention_lines;
pub mod mention_popup;
pub mod mention_search;
pub mod model_provider;
pub mod mount_targets;
pub mod order;
pub mod paths;
pub mod pet_picker;
pub mod powershell;
pub mod preserved_path;
pub mod sandbox_launch;
pub mod sandbox_summary;
pub mod session_lines;
pub mod session_picker;
pub mod session_rows;
pub mod session_state;
pub mod slash_commands;
pub mod span_telemetry;
pub mod spans;
pub mod stream;
pub mod table_escape;
pub mod table_laws;
pub mod table_layout;
pub mod table_normal;
pub mod table_render;
pub mod table_source;
pub mod terminal_probe;
pub mod text;
pub mod thread_goal;
pub mod thread_id;
pub mod thread_store;
pub mod web;
pub mod windows_metadata;
pub mod windows_paths;
pub mod windows_programs;
pub mod workspace_command;
