use sprite_pack::bounds::Bounds;
use sprite_pack::node::{Node, NodeState};
use sprite_pack::pack::{pack, PackOptions};
use sprite_pack::sprite::Sprite;

fn placements(node: Node<u8>) -> Vec<(u8, Bounds)> {
    node.into_packed_sprites().into_iter().map(|p| (p.id, p.bounds)).collect()
}

#[test]
fn root_holds_first_sprite_with_gutter() {
    let root = Node::root(Sprite { id: 7u8, size: (10, 20) }, (2, 3));
    assert_eq!(root.bounds, Bounds::new(0, 0, 12, 23));
    assert!(root.state.is_used());
    assert!(root.children.is_none());
    assert_eq!(placements(root), vec![(7, Bounds::new(0, 0, 10, 20))]);
}

#[test]
fn unused_node_is_free() {
    let node: Node<u8> = Node::unused(1, 2, 3, 4);
    assert!(!node.state.is_used());
    assert!(matches!(node.state, NodeState::Unused));
    assert_eq!(node.bounds, Bounds::new(1, 2, 3, 4));
    assert!(placements(node).is_empty());
}

#[test]
fn insert_grows_then_fills() {
    let spacing = (0, 0);
    let mut root = Node::root(Sprite { id: 0u8, size: (10, 10) }, spacing);
    // No free node yet: the tree grows right to 20 x 10.
    root.insert(Sprite { id: 1, size: (10, 10) }, spacing);
    assert_eq!(root.bounds, Bounds::new(0, 0, 20, 10));
    assert!(matches!(root.state, NodeState::Used));
    // 20 + 5 > 10 and 10 + 5 <= 20: growing down keeps it squarer.
    root.insert(Sprite { id: 2, size: (5, 5) }, spacing);
    assert_eq!(root.bounds, Bounds::new(0, 0, 20, 15));
    // The strip left beside sprite 2 takes sprite 3 without growth.
    root.insert(Sprite { id: 3, size: (5, 5) }, spacing);
    assert_eq!(root.bounds, Bounds::new(0, 0, 20, 15));
    let mut placed = placements(root);
    placed.sort_by_key(|(id, _)| *id);
    assert_eq!(
        placed,
        vec![
            (0, Bounds::new(0, 0, 10, 10)),
            (1, Bounds::new(10, 0, 10, 10)),
            (2, Bounds::new(0, 10, 5, 5)),
            (3, Bounds::new(5, 10, 5, 5)),
        ]
    );
}

#[test]
fn placements_list_node_then_lower_then_right() {
    let spacing = (0, 0);
    let mut root = Node::root(Sprite { id: 0u8, size: (10, 10) }, spacing);
    root.insert(Sprite { id: 1, size: (10, 10) }, spacing);
    root.insert(Sprite { id: 2, size: (5, 5) }, spacing);
    // Root (grown down) -> right: the tree grown right -> down: sprite 0,
    // right: sprite 1; root -> down: sprite 2.
    let ids: Vec<u8> = placements(root).into_iter().map(|(id, _)| id).collect();
    assert_eq!(ids, vec![2, 0, 1]);
}

#[test]
fn packing_sorted_input_matches_packing_input() {
    let input = vec![
        Sprite { id: 'a', size: (3, 9) },
        Sprite { id: 'b', size: (12, 2) },
        Sprite { id: 'c', size: (9, 9) },
        Sprite { id: 'd', size: (4, 4) },
    ];
    let sorted = vec![
        Sprite { id: 'b', size: (12, 2) },
        Sprite { id: 'a', size: (3, 9) },
        Sprite { id: 'c', size: (9, 9) },
        Sprite { id: 'd', size: (4, 4) },
    ];
    let options = PackOptions { spacing: (1, 1), padding: (0, 0) };
    let from_input = pack(input, &options).unwrap();
    let from_sorted = pack(sorted, &options).unwrap();
    assert_eq!(from_input.size, from_sorted.size);
    let left: Vec<(char, Bounds)> = from_input.sprites.iter().map(|p| (p.id, p.bounds)).collect();
    let right: Vec<(char, Bounds)> = from_sorted.sprites.iter().map(|p| (p.id, p.bounds)).collect();
    assert_eq!(left, right);
}
