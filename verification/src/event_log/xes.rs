pub mod reader;
pub mod simple;
pub mod xes_event_log_writer;
pub mod xes_event_log;
