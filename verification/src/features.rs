pub mod analysis;
pub mod discovery;
pub mod petri_net;
