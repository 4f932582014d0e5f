//! The logic of a manager for AI skills and agents that are declared in a `Skillfile`.

pub mod add_laws;
pub mod bytes;
pub mod cli;
pub mod command_laws;
pub mod commands;
pub mod config;
pub mod conflict;
pub mod edit_laws;
pub mod error;
pub mod hunk_laws;
pub mod init_laws;
pub mod lines;
pub mod list_laws;
pub mod lock;
pub mod manifest_laws;
pub mod merge_laws;
pub mod models;
pub mod numbers;
pub mod order_laws;
pub mod output;
pub mod parser;
pub mod parser_laws;
pub mod patch;
pub mod patch_laws;
pub mod patch_paths;
pub mod path_order;
pub mod paths;
pub mod place_laws;
pub mod platforms;
pub mod preview_laws;
pub mod registry;
pub mod search_laws;
pub mod setup_laws;
pub mod show_laws;
pub mod sort_laws;
pub mod sorted;
pub mod status_laws;
pub mod text;
pub mod text_laws;
pub mod unified;
pub mod update_check;
pub mod validity_laws;
pub mod version_laws;
