pub mod context_keys;
pub mod patterns_parts;
