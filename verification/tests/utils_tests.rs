use ficus::pipelines::context_keys::{ContextKeys, ContextValueType, CONTEXT_KEYS_COUNT};
use ficus::utils::graph::Graph;
use ficus::utils::interval::Interval;
use ficus::utils::sets::one_set::{OneSet, OneSetIds};
use ficus::utils::strings::string_less;
use ficus::utils::suffix_tree_slice::{MultipleWordsSuffixTreeSlice, SingleWordSuffixTreeSlice, SuffixTreeSlice};
use ficus::utils::vec_utils::sort_by_first;

fn text_graph(count: usize) -> Graph<String, String> {
    let mut graph: Graph<String, String> = Graph::empty();
    for i in 0..count {
        graph.add_node(Some(format!("n{}", i)));
    }
    graph
}

fn edge_text(graph: &Graph<String, String>, from: u64, to: u64) -> Option<String> {
    graph
        .all_edges()
        .into_iter()
        .find(|e| e.from_node == from && e.to_node == to)
        .map(|e| e.data.unwrap().clone())
}

#[test]
fn test_graph_add_node_ids() {
    let mut graph: Graph<String, String> = Graph::empty();
    assert_eq!(graph.add_node(Some("a".to_string())), 0);
    assert_eq!(graph.add_node(None), 1);
    assert_eq!(graph.all_nodes().len(), 2);
    assert_eq!(graph.node(&0).unwrap().data(), Some(&"a".to_string()));
    assert_eq!(graph.node(&1).unwrap().data(), None);
    assert!(graph.node(&2).is_none());
}

#[test]
fn test_graph_connect_and_disconnect() {
    let mut graph = text_graph(3);
    graph.connect_nodes(&0, &1, Some("x".to_string()));
    graph.connect_nodes(&0, &1, Some("y".to_string()));
    graph.connect_nodes(&0, &7, None);
    assert!(graph.are_nodes_connected(&0, &1));
    assert!(!graph.are_nodes_connected(&1, &0));
    assert!(!graph.are_nodes_connected(&0, &7));
    assert_eq!(edge_text(&graph, 0, 1), Some("x".to_string()));
    assert_eq!(graph.all_edges().len(), 1);

    assert!(graph.disconnect_nodes(&0, &1));
    assert!(!graph.disconnect_nodes(&0, &1));
    assert!(!graph.are_nodes_connected(&0, &1));
    assert_eq!(graph.all_edges().len(), 0);
}

#[test]
fn test_graph_neighbours() {
    let mut graph = text_graph(3);
    graph.connect_nodes(&0, &1, None);
    graph.connect_nodes(&0, &2, None);
    graph.connect_nodes(&2, &0, None);
    let outgoing: Vec<u64> = graph.outgoing_nodes(&0).into_iter().map(|x| *x).collect();
    assert_eq!(outgoing, vec![1, 2]);
    let incoming: Vec<u64> = graph.incoming_edges(&0).into_iter().map(|x| *x).collect();
    assert_eq!(incoming, vec![2]);
}

fn merge_texts(data: Vec<Option<&String>>) -> Option<String> {
    Some(data.iter().map(|d| d.unwrap().clone()).collect::<Vec<String>>().join("+"))
}

fn merge_edge_texts(data: &Vec<Option<&String>>) -> Option<String> {
    Some(data.iter().map(|d| d.unwrap().clone()).collect::<Vec<String>>().join(","))
}

#[test]
fn test_merge_nodes_into_one() {
    let mut graph = text_graph(5);
    graph.connect_nodes(&0, &1, Some("a".to_string()));
    graph.connect_nodes(&0, &2, Some("b".to_string()));
    graph.connect_nodes(&1, &2, Some("c".to_string()));
    graph.connect_nodes(&2, &3, Some("d".to_string()));
    graph.connect_nodes(&1, &3, Some("e".to_string()));
    graph.connect_nodes(&3, &1, Some("f".to_string()));
    graph.connect_nodes(&4, &4, Some("g".to_string()));

    graph.merge_nodes_into_one(&vec![1, 2], |d| merge_texts(d), |d| merge_edge_texts(d));

    let mut ids: Vec<u64> = graph.all_nodes().iter().map(|n| *n.id()).collect();
    ids.sort();
    assert_eq!(ids, vec![0, 3, 4, 5]);
    assert_eq!(graph.node(&5).unwrap().data(), Some(&"n1+n2".to_string()));
    assert_eq!(graph.node(&3).unwrap().data(), Some(&"n3".to_string()));

    assert_eq!(graph.all_edges().len(), 4);
    assert_eq!(edge_text(&graph, 0, 5), Some("a,b".to_string()));
    assert_eq!(edge_text(&graph, 5, 3), Some("e,d".to_string()));
    assert_eq!(edge_text(&graph, 3, 5), Some("f".to_string()));
    assert_eq!(edge_text(&graph, 4, 4), Some("g".to_string()));
    assert!(!graph.are_nodes_connected(&5, &5));
}

#[test]
fn test_merge_nodes_without_edges() {
    let mut graph = text_graph(2);
    graph.merge_nodes_into_one(&vec![0, 1], |d| merge_texts(d), |d| merge_edge_texts(d));
    let ids: Vec<u64> = graph.all_nodes().iter().map(|n| *n.id()).collect();
    assert_eq!(ids, vec![2]);
    assert_eq!(graph.node(&2).unwrap().data(), Some(&"n0+n1".to_string()));
    assert_eq!(graph.all_edges().len(), 0);
}

#[test]
fn test_interval_contains() {
    let interval: Interval<u64, u64> = Interval::new(1, 5);
    assert!(interval.contains(1));
    assert!(interval.contains(3));
    assert!(interval.contains(5));
    assert!(!interval.contains(0));
    assert!(!interval.contains(6));
    assert_eq!(interval.data, None);
    let with_data: Interval<u64, u64> = Interval::new_with_data(2, 2, Some(7));
    assert_eq!(with_data.data, Some(7));
    assert!(with_data.contains(2));
}

#[test]
fn test_string_less() {
    assert!(string_less(&"a".to_string(), &"b".to_string()));
    assert!(!string_less(&"b".to_string(), &"a".to_string()));
    assert!(!string_less(&"a".to_string(), &"a".to_string()));
    assert!(string_less(&"a".to_string(), &"ab".to_string()));
    assert!(string_less(&"ab".to_string(), &"b".to_string()));
    assert!(string_less(&"".to_string(), &"a".to_string()));
}

#[test]
fn test_sort_by_first_is_stable() {
    let a = "a".to_string();
    let b = "b".to_string();
    let mut pairs = vec![(&b, 1), (&a, 2), (&b, 3), (&a, 4)];
    sort_by_first(&mut pairs);
    assert_eq!(pairs, vec![(&a, 2), (&a, 4), (&b, 1), (&b, 3)]);
}

#[test]
fn test_single_word_suffix_tree_slice() {
    let word = [1, 2, 1];
    let slice = SingleWordSuffixTreeSlice::new(&word);
    assert_eq!(slice.len(), 4);
    assert_eq!(slice.get(0), Some(1));
    assert_eq!(slice.get(3), None);
    assert!(slice.equals(0, 2));
    assert!(!slice.equals(0, 1));
    assert!(!slice.equals(0, 3));
    assert_eq!(slice.sub_slice(0, 2), Some(&word[0..2]));
}

#[test]
fn test_multiple_words_suffix_tree_slice() {
    let first = [1, 2];
    let second = [3];
    let slice = MultipleWordsSuffixTreeSlice::new(vec![&first[..], &second[..]]);
    assert_eq!(slice.len(), 5);
    assert_eq!(slice.get(1), Some(2));
    assert_eq!(slice.get(2), None);
    assert_eq!(slice.get(3), Some(3));
    assert_eq!(slice.get(9), None);
    assert_eq!(slice.get_slice_info_for(0), Some((0, Some(0))));
    assert_eq!(slice.get_slice_info_for(2), Some((0, None)));
    assert_eq!(slice.get_slice_info_for(3), Some((1, Some(0))));
    assert_eq!(slice.get_slice_info_for(4), Some((1, None)));
    assert_eq!(slice.get_slice_info_for(5), None);
    assert_eq!(slice.get_slice_part_len(0), 2);
    assert_eq!(slice.get_slice_part_len(1), 1);
    assert!(slice.equals(2, 4));
    assert!(!slice.equals(0, 3));
    assert_eq!(slice.sub_slice(0, 2), Some(&first[..]));
    assert_eq!(slice.sub_slice(1, 2), Some(&first[1..2]));
    assert_eq!(slice.sub_slice(0, 3), None);
    assert_eq!(slice.sub_slice(2, 2), None);
}

#[test]
fn test_context_keys_lookup() {
    let keys = ContextKeys::new();
    assert_eq!(keys.len(), CONTEXT_KEYS_COUNT);
    assert_eq!(keys.len(), 63);
    assert!(keys.find_key("bytes").is_none());
    assert!(keys.find_key("system_metadata").is_none());
    assert!(keys.find_key("log_serialization_format").is_none());
    assert!(keys.find_key("traces_repr_source").is_some());
    let path = keys.find_key("path").unwrap();
    assert_eq!(path.name(), "path");
    assert_eq!(path.id(), 0);
    assert!(keys.find_key("no_such_key").is_none());
    let concrete = keys.find_concrete_key("path", ContextValueType::Text).unwrap();
    assert_eq!(concrete.id(), 0);
    assert!(keys.is_path(keys.path()));
    assert!(!keys.is_path(keys.event_log()));
}

#[test]
fn test_one_sets_get_successive_ids() {
    let mut ids = OneSetIds::new();
    let single = OneSet::new(3u64, &mut ids);
    let pair = OneSet::new_two_elements(1u64, 3u64, &mut ids);
    let empty: OneSet<u64> = OneSet::empty(&mut ids);
    assert_eq!(*single.id(), 0);
    assert_eq!(*pair.id(), 1);
    assert_eq!(*empty.id(), 2);
    assert_eq!(single.set().iter().copied().collect::<Vec<u64>>(), vec![3]);
    assert_eq!(pair.set().iter().copied().collect::<Vec<u64>>(), vec![1, 3]);
    assert!(empty.set().is_empty());
}

#[test]
fn test_one_set_merge_and_insert() {
    let mut ids = OneSetIds::new();
    let first = OneSet::new_two_elements("b".to_string(), "a".to_string(), &mut ids);
    let second = OneSet::new("c".to_string(), &mut ids);
    let mut merged = first.merge(&second, &mut ids);
    assert_eq!(*merged.id(), 2);
    assert_eq!(merged.set().iter().cloned().collect::<Vec<String>>(), vec!["a", "b", "c"]);
    merged.insert("a".to_string());
    merged.insert("d".to_string());
    assert_eq!(*merged.id(), 2);
    assert_eq!(merged.set().len(), 4);
    assert_eq!(ids.take(), 3);
}

#[test]
fn one_sets_with_the_same_elements_are_equal() {
    let mut ids = OneSetIds::new();
    let a = OneSet::new_two_elements(1u64, 2u64, &mut ids);
    let b = OneSet::new_two_elements(2u64, 1u64, &mut ids);
    let mut c = OneSet::new(1u64, &mut ids);
    assert_ne!(a.id(), b.id());
    assert!(a == b);
    assert!(a != c);
    c.insert(2u64);
    assert!(a == c);
    let empty: OneSet<u64> = OneSet::empty(&mut ids);
    assert!(empty != a);
}

#[test]
fn one_set_iterates_in_ascending_order() {
    let mut ids = OneSetIds::new();
    let mut set = OneSet::new(5u64, &mut ids);
    set.insert(1);
    set.insert(9);
    set.insert(5);
    let order: Vec<u64> = set.set().iter().cloned().collect();
    assert_eq!(order, vec![1, 5, 9]);
    let other = OneSet::new_two_elements(2u64, 3u64, &mut ids);
    assert_ne!(set.id(), other.id());
}
