pub mod simple_event_log;
pub mod standard_lifecycle;
pub mod xes;
