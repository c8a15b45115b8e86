use binomial_tree::binomial_tree_map::{BinomialTreeMap, BinomialTreeStack};
use binomial_tree::capacity::{calculate_capacity, calculate_step_capacity};
use binomial_tree::dynamic::DynamicBinomialTreeMap;
use binomial_tree::nodes::{NodeName, NodeName2, UpDown};
use binomial_tree::static_binomial_tree_map::StaticBinomialTreeMap;

fn node2(moves: &str) -> NodeName2 {
    NodeName2 { name: NodeName::try_from(moves).unwrap().name, direction: None }
}

#[test]
fn static_test_static_binomial_tree() {
}

#[test]
fn static_binomial_tree_map_test_static_binomial_tree() {
}

#[test]
fn dynamic_test_stack_map_size() {
    assert_eq!(DynamicBinomialTreeMap::new(3).len(), calculate_capacity(3));
    assert_eq!(DynamicBinomialTreeMap::new(4).len(), calculate_capacity(4));
    assert_eq!(DynamicBinomialTreeMap::new(5).len(), calculate_capacity(5));
    assert_eq!(DynamicBinomialTreeMap::new(6).len(), calculate_capacity(6));
    assert_eq!(DynamicBinomialTreeMap::new(7).len(), calculate_capacity(7));
    assert_eq!(DynamicBinomialTreeMap::new(8).len(), calculate_capacity(8));
}

#[test]
fn binomial_tree_map_test_stack_map_size() {
    assert_eq!(DynamicBinomialTreeMap::new(3).len(), calculate_capacity(3));
    assert_eq!(DynamicBinomialTreeMap::new(4).len(), calculate_capacity(4));
    assert_eq!(DynamicBinomialTreeMap::new(5).len(), calculate_capacity(5));
    assert_eq!(DynamicBinomialTreeMap::new(6).len(), calculate_capacity(6));
    assert_eq!(DynamicBinomialTreeMap::new(7).len(), calculate_capacity(7));
    assert_eq!(DynamicBinomialTreeMap::new(8).len(), calculate_capacity(8));
}

#[test]
fn dynamic_test_stack_map() {
    let tree: DynamicBinomialTreeMap = DynamicBinomialTreeMap::new(3);
    // The deepest level, most ups first, then up the levels to the root.
    assert_eq!(tree.node_at(3, 3), node2("UUU"));
    assert_eq!(tree.node_at(3, 2), node2("UUD"));
    assert_eq!(tree.node_at(3, 1), node2("UDD"));
    assert_eq!(tree.node_at(3, 0), node2("DDD"));
    assert_eq!(tree.node_at(2, 2), node2("UU"));
    assert_eq!(tree.node_at(2, 1), node2("UD"));
    assert_eq!(tree.node_at(2, 0), node2("DD"));
    assert_eq!(tree.node_at(1, 1), node2("U"));
    assert_eq!(tree.node_at(1, 0), node2("D"));
    assert_eq!(tree.node_at(0, 0), node2(""));

    assert_eq!(tree.len(), 10);
    assert!(tree.get(&node2("UUU")).is_some());
    assert!(tree.get(&node2("UUD")).is_some());
    assert!(tree.get(&node2("UDD")).is_some());
    assert!(tree.get(&node2("DDD")).is_some());
    assert!(tree.get(&node2("UU")).is_some());
    assert!(tree.get(&node2("UD")).is_some());
    assert!(tree.get(&node2("DD")).is_some());
    assert!(tree.get(&node2("D")).is_some());
    assert!(tree.get(&node2("U")).is_some());
    assert!(tree.get(&node2("")).is_some());
}

#[test]
fn binomial_tree_map_test_stack_map() {
    let tree: DynamicBinomialTreeMap = DynamicBinomialTreeMap::new(3);
    assert_eq!(tree.node_at(3, 3), node2("UUU"));
    assert_eq!(tree.node_at(3, 2), node2("UUD"));
    assert_eq!(tree.node_at(3, 1), node2("UDD"));
    assert_eq!(tree.node_at(3, 0), node2("DDD"));
    assert_eq!(tree.len(), 10);
    assert!(tree.get(&node2("UUU")).is_some());
    assert!(tree.get(&node2("")).is_some());
}

#[test]
fn test_capacity_closed_form() {
    // (n + 1)(n + 2) / 2 nodes over the depths 0..=n.
    assert_eq!(calculate_capacity(0), 1);
    assert_eq!(calculate_capacity(1), 3);
    assert_eq!(calculate_capacity(2), 6);
    assert_eq!(calculate_capacity(3), 10);
    assert_eq!(calculate_capacity(100), 5151);
    assert_eq!(calculate_step_capacity(0), 1);
    assert_eq!(calculate_step_capacity(1), 1);
    assert_eq!(calculate_step_capacity(2), 3);
    assert_eq!(calculate_step_capacity(7), 8);
}

#[test]
fn test_static_stack_levels() {
    let stack = StaticBinomialTreeMap::with_capacity(3);
    assert_eq!(stack.max_depth(), 3);
    assert_eq!(stack.stack.len(), 4);
    for d in 0..4 {
        assert_eq!(stack.stack[d].len(), d + 1);
    }
    assert_eq!(stack.stack[2][0], node2("UU"));
    assert_eq!(stack.stack[2][1], node2("UD"));
    assert_eq!(stack.stack[2][2], node2("DD"));
    assert_eq!(stack.node_at(2, 2), node2("UU"));
    // The total node count over all levels is the closed-form capacity.
    let total: usize = (0..stack.stack.len()).map(|d| stack.stack[d].len()).sum();
    assert_eq!(total, calculate_capacity(3));

    let sliced = StaticBinomialTreeMap::new::<4>();
    assert_eq!(sliced.max_depth(), 3);
    assert_eq!(sliced.stack.len(), 4);
}

#[test]
fn test_container_lookup_rules() {
    // A fresh container: every address of the lattice is registered with
    // an unwritten slot, and an address deeper than the lattice is not
    // found at all.
    let stack = StaticBinomialTreeMap::with_capacity(2);
    let mut container = stack.fresh_container();
    assert_eq!(container.get(&node2("UD")), Some(None));
    assert_eq!(container.get(&node2("UUD")), None);

    container.set(&node2("UD"), 7.5f32.to_bits());
    assert_eq!(container.get(&node2("UD")), Some(Some(7.5f32.to_bits())));
    // The recombined address one up and one down move away reads the same
    // slot.
    assert_eq!(container.get(&node2("DU")), Some(Some(7.5f32.to_bits())));
    assert_eq!(container.get_next_step(&node2("")), Some(Some(7.5f32.to_bits())));

    let dyn_stack = DynamicBinomialTreeMap::new(2);
    let mut dyn_container = dyn_stack.fresh_container();
    assert_eq!(dyn_container.get(&node2("UD")), Some(None));
    assert_eq!(dyn_container.get(&node2("UUD")), None);
    dyn_container.set(&node2("UD"), 7.5f32.to_bits());
    assert_eq!(dyn_container.get(&node2("UD")), Some(Some(7.5f32.to_bits())));
    assert_eq!(dyn_container.get_next_step(&node2("")), Some(Some(7.5f32.to_bits())));
}
