//! Commands and the options they take.

pub mod bitmap_commands;
pub mod command_doc;
pub mod command_info;
pub mod command_info_manager;
pub mod graph_commands;
pub mod server_commands;
pub mod server_management;
pub mod server_options;
