pub mod one_set;
