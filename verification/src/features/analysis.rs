pub mod event_log_info;
pub mod patterns;
