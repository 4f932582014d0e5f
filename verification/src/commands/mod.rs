//! The commands.

pub mod add;
pub mod add_tui;
pub mod common;
pub mod diff;
pub mod files;
pub mod init;
pub mod init_flow;
pub mod installed_variants;
pub mod multi_target;
pub mod picker;
pub mod pin;
pub mod remove;
pub mod resolve;
pub mod search;
pub mod search_tui;
pub mod skill_preview;
pub mod sort;
pub mod status;
pub mod styled;
pub mod text_map;
pub mod validate;
