//! Core logic of a dashboard that aggregates Docker container metrics
//! collected from several VMs grouped into environments.

pub mod selected_vm;
pub mod text;
pub mod str_map;
pub mod metrics_history;
pub mod models;
pub mod metrics_cache;
pub mod data_cache_by_env;
pub mod settings;
pub mod ssh_settings;
pub mod server_settings;
pub mod ssh_certs_cache;
pub mod show_logs;
pub mod dialog_state;
pub mod main_state;
pub mod timers;
pub mod dashboard;
