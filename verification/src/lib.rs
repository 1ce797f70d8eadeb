//! Hive: project layout, detection and configuration logic for a local
//! development orchestrator, with its contracts proved by Verus.

pub mod commands;
pub mod completion;
pub mod detector;
pub mod doctor;
pub mod dotenv;
pub mod expose;
pub mod init;
pub mod logs;
pub mod maps;
pub mod models;
pub mod paths;
pub mod process;
pub mod project;
pub mod projects;
pub mod registry;
pub mod scripts;
pub mod status;
pub mod text;
