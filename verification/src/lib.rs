pub mod template_helpers;
pub mod text;
pub mod board;
pub mod cli;
pub mod config;
pub mod digest;
pub mod error;
pub mod graph;
pub mod helpers;
pub mod human;
pub mod layout;
pub mod makefiles;
pub mod model;
pub mod mount;
pub mod numbers;
pub mod omake_output;
pub mod order;
pub mod paths;
pub mod pdf_build;
pub mod process;
pub mod progress;
pub mod protocol;
pub mod rebuild;
pub mod scheduler;
pub mod server;
pub mod setlist;
