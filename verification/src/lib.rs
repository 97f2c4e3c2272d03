pub mod json;
pub mod text;

pub mod sing_box;
pub mod managed;
pub mod license_policy;
pub mod maintenance;
pub mod loopback;
pub mod frontend_log;
pub mod numbers;
pub mod xray_stats;
pub mod broker_identity;
pub mod digest;
pub mod credentials;
pub mod platform;
pub mod desktop;
pub mod sorted_texts;
pub mod license_session;
pub mod xray;
pub mod yaml;
pub mod mihomo;
pub mod config_sources;
pub mod privileges;
pub mod xray_users;
pub mod update_schedule;
pub mod refresh;
pub mod xray_balancers;
pub mod credential_reconcile;
pub mod settings;
pub mod log_rotation;
pub mod broker_protocol;
pub mod program_transactions;
pub mod text_map;
pub mod callback_book;
