pub mod interval;
pub mod strings;
pub mod vec_utils;
pub mod graph;
pub mod suffix_tree_slice;
pub mod xml_utils;
pub mod graph_clusters;
pub mod sets;
pub mod decimal;
