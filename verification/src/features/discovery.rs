pub mod alpha;
