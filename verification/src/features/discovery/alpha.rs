pub mod alpha;
pub mod alpha_plus_nfc;
pub mod alpha_provider;
pub mod alpha_set;
pub mod alpha_plus;
