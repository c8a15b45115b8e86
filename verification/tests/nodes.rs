use binomial_tree::nodes::{NodeName, NodeName2, UpDown};

#[test]
fn nodes_test_tree_updown_from() {
    assert_eq!(UpDown::try_from('I').unwrap(), UpDown::Initial);
    assert_eq!(UpDown::try_from('U').unwrap(), UpDown::Up);
    assert_eq!(UpDown::try_from('D').unwrap(), UpDown::Down);

    assert_eq!(
        NodeName::try_from("IUD").unwrap(),
        NodeName { name: vec![UpDown::Initial, UpDown::Up, UpDown::Down] }
    );
    assert_eq!(
        NodeName::try_from("IUDD").unwrap(),
        NodeName { name: vec![UpDown::Initial, UpDown::Up, UpDown::Down, UpDown::Down] }
    );
}

#[test]
fn tree_test_tree_updown_from() {
    assert_eq!(UpDown::try_from('I').unwrap(), UpDown::Initial);
    assert_eq!(UpDown::try_from('U').unwrap(), UpDown::Up);
    assert_eq!(UpDown::try_from('D').unwrap(), UpDown::Down);

    assert_eq!(
        NodeName::try_from("IUD").unwrap(),
        NodeName { name: vec![UpDown::Initial, UpDown::Up, UpDown::Down] }
    );
    assert_eq!(
        NodeName::try_from("IUDD").unwrap(),
        NodeName { name: vec![UpDown::Initial, UpDown::Up, UpDown::Down, UpDown::Down] }
    );
}

#[test]
fn nodes_test_node_name_up_down() {
    let name = NodeName { name: vec![] };

    assert_eq!(name.up(), NodeName { name: vec![UpDown::Up] });
    assert_eq!(name.down(), NodeName { name: vec![UpDown::Down] });

    let up_name = name.up();
    assert_eq!(up_name.up(), NodeName { name: vec![UpDown::Up, UpDown::Up] });
    assert_eq!(up_name.down(), NodeName { name: vec![UpDown::Up, UpDown::Down] });

    let down_name = name.down();
    assert_eq!(down_name.up(), NodeName { name: vec![UpDown::Up, UpDown::Down] });
    assert_eq!(down_name.down(), NodeName { name: vec![UpDown::Down, UpDown::Down] });
}

#[test]
fn test_node_name_recombination() {
    // Up then down and down then up from any address spell the identical list.
    let root = NodeName { name: vec![] };
    assert_eq!(root.up().down(), root.down().up());
    let deep = NodeName::try_from("UUD").unwrap();
    assert_eq!(deep.up().down(), deep.down().up());
}

#[test]
fn test_node_name2_folded_equality() {
    // A derived address equals the stored form of the node it denotes,
    // whichever move is pending.
    let ud = NodeName2::new(vec![UpDown::Up, UpDown::Down]);
    let u = NodeName2::new(vec![UpDown::Up]);
    let d = NodeName2::new(vec![UpDown::Down]);
    assert_eq!(u.down(), ud);
    assert_eq!(ud, u.down());
    assert_eq!(d.up(), ud);
    assert_eq!(ud, d.up());
    // Recombination: a pending down move after an up move and a pending
    // up move after a down move denote the same node.
    assert_eq!(u.down(), d.up());
    // Order of the recorded moves never matters.
    assert_eq!(NodeName2::new(vec![UpDown::Down, UpDown::Up]), ud);
    // Different nodes stay different, pending moves folded in: one node
    // at depth two, the other at depth one.
    assert_ne!(u.down(), NodeName2::default().up());
    assert_ne!(u.up(), ud);
    assert_ne!(NodeName2::default(), NodeName2::default().down());
    assert_eq!(NodeName2 { name: vec![UpDown::Down], direction: None }, NodeName2::default().down());
}

#[test]
fn test_node_name2_counts() {
    let node = NodeName2::new(vec![UpDown::Up, UpDown::Up, UpDown::Down]);
    assert_eq!(node.counts(), (3, 2));
    assert_eq!(node.up().counts(), (4, 3));
    assert_eq!(node.down().counts(), (4, 2));
    assert_eq!(NodeName2::canonical(2, 1), node);
    assert_eq!(node.iter(), vec![UpDown::Up, UpDown::Up, UpDown::Down]);
    assert_eq!(node.up().iter(), vec![UpDown::Up, UpDown::Up, UpDown::Down, UpDown::Up]);
}

#[test]
fn test_move_parsing_rejects_other_letters() {
    assert_eq!(UpDown::try_from('X'), Err(()));
    assert_eq!(NodeName::try_from("UXD"), Err(()));
    assert_eq!(NodeName::try_from("").unwrap(), NodeName { name: vec![] });
}

#[test]
fn test_node_name_value_multiplies_moves() {
    // Two ups and one down from 100: 100 * 2 * 2 * 0.5 = 200.
    let multiply = |a: u32, b: u32| (f32::from_bits(a) * f32::from_bits(b)).to_bits();
    let name = NodeName::try_from("UUD").unwrap();
    let r = name.value(
        100.0f32.to_bits(),
        2.0f32.to_bits(),
        0.5f32.to_bits(),
        multiply,
    );
    assert_eq!(f32::from_bits(r), 200.0);
    // The root mark multiplies nothing in.
    let marked = NodeName::try_from("IU").unwrap();
    let r2 = marked.value(3.0f32.to_bits(), 2.0f32.to_bits(), 0.5f32.to_bits(), multiply);
    assert_eq!(f32::from_bits(r2), 6.0);
    // A pending move is folded in by NodeName2::value.
    let node2 = NodeName2::new(vec![UpDown::Up]).up();
    let r3 = node2.value(1.0f32.to_bits(), 2.0f32.to_bits(), 0.5f32.to_bits(), multiply);
    assert_eq!(f32::from_bits(r3), 4.0);
}
