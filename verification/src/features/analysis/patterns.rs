pub mod contexts;
