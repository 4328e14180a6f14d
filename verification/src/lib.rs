pub mod text;
pub mod pids;
pub mod types;
pub mod winws;
pub mod autoaccept;
pub mod hotkeys;
pub mod hosts;
pub mod helper;
pub mod procs;
pub mod bypass;
pub mod files;
pub mod domains;
pub mod clipboard;
pub mod config;
pub mod services;
pub mod releases;
pub mod launch;
pub mod hosts_cycle;
pub mod hotkey_laws;
