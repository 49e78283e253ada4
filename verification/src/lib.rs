//! Multi-group Raft: the rules of a node, its log file, its snapshots and its plugins.

pub mod catalog;
pub mod catalog_laws;
pub mod cluster_glue;
pub mod config;
pub mod disk_laws;
pub mod durability;
pub mod duration;
pub mod error;
pub mod file_log;
pub mod flush;
pub mod frames;
pub mod group_setup;
pub mod log_laws;
pub mod log_open;
pub mod log_table;
pub mod member_laws;
pub mod membership;
pub mod metrics_laws;
pub mod multiraft;
pub mod node;
pub mod order;
pub mod plugin;
pub mod plugin_archive;
pub mod plugin_auth;
pub mod plugin_hooks;
pub mod plugin_laws;
pub mod plugin_metrics;
pub mod plugin_ops;
pub mod plugin_transition;
pub mod proposals;
pub mod recovery;
pub mod recovery_laws;
pub mod request_laws;
pub mod rewrite;
pub mod router;
pub mod setup_laws;
pub mod snapshot;
pub mod stage_metrics;
pub mod standby_throttle;
pub mod store_laws;
pub mod stream_control;
pub mod table_laws;
pub mod text;
pub mod text_laws;
pub mod transition_loop;
pub mod type_config;
pub mod wording_laws;
