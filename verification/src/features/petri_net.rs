pub mod marking;
pub mod net;
pub mod replay;
pub mod pnml_serialization;
