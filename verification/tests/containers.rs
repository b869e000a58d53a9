use glyphflow::binary_tree::{Node as TreeNode, NodeIter};
use glyphflow::binarytree::Node as LeafTree;
use glyphflow::entries::Entries;
use glyphflow::events::LoopAction;
use glyphflow::grid::PixelGrid;
use glyphflow::lru::LruSlots;
use glyphflow::pixel::{BWPixel, Pixel};
use glyphflow::sprite::FillMode;

#[test]
fn entries_keep_their_handles() {
    let mut entries = Entries::with_capacity(10);
    entries.push("hello");
    let index = entries.push("world");
    assert_eq!(index, 1);
    assert_eq!("hello", entries.remove(0));
    let actual = *entries.get(index);
    assert_eq!("world", actual);
}

#[test]
fn entries_reuse_the_slot_vacated_last() {
    let mut entries = Entries::new();
    for v in 0..5 {
        assert_eq!(entries.push(v * 10), v as usize);
    }
    assert_eq!(entries.remove(1), 10);
    assert_eq!(entries.remove(3), 30);
    assert!(!entries.is_occupied(1));
    assert!(!entries.is_occupied(3));
    assert!(!entries.is_occupied(9));
    assert!(entries.is_occupied(2));
    assert_eq!(entries.push(31), 3);
    assert_eq!(entries.push(11), 1);
    assert_eq!(entries.push(50), 5);
    assert_eq!(entries.slot_count(), 6);
    assert_eq!(*entries.get(3), 31);
    assert_eq!(*entries.get(1), 11);
    assert_eq!(*entries.get(4), 40);
}

#[test]
fn lru_slots_keep_the_order_of_use() {
    let mut slots = LruSlots::new();
    slots.push_back('a');
    slots.push_back('b');
    slots.push_back('c');
    slots.push_back('d');
    slots.move_to_back(1);
    let order: Vec<char> = (0..slots.len()).map(|i| *slots.get(i)).collect();
    assert_eq!(order, vec!['a', 'c', 'd', 'b']);
    assert_eq!(slots.pop_front(), 'a');
    assert_eq!(slots.remove(1), 'd');
    slots.push_back('e');
    let order: Vec<char> = (0..slots.len()).map(|i| *slots.get(i)).collect();
    assert_eq!(order, vec!['c', 'b', 'e']);
}

#[test]
fn tree_walk_meets_the_node_then_right_then_left() {
    let mut root = TreeNode::new(1);
    root.insert_left(2);
    root.insert_right(3);
    assert_eq!(*root.as_ref(), 1);
    assert_eq!(*root.left().unwrap().as_ref(), 2);
    assert_eq!(*root.right().unwrap().as_ref(), 3);
    let mut walk = root.iter();
    assert_eq!(walk.next(), Some(&1));
    assert_eq!(walk.next(), Some(&3));
    assert_eq!(walk.next(), Some(&2));
    assert_eq!(walk.next(), None);
    assert_eq!(walk.next(), None);
    *root.as_mut() = 10;
    let mut walk = NodeIter::new(&root);
    assert_eq!(walk.next(), Some(&10));
}

#[test]
fn inserting_a_child_replaces_the_child() {
    let mut root = TreeNode::new('r');
    root.insert_left('a');
    root.insert_left('b');
    assert_eq!(*root.left().unwrap().as_ref(), 'b');
    assert!(root.left().unwrap().left().is_none());
    assert!(root.right().is_none());
}

#[test]
fn splitting_a_leaf_makes_a_branch_of_two_leaves() {
    let mut tree = LeafTree::Leaf(1);
    tree.split(1, 2);
    assert!(matches!(&tree, LeafTree::Branch { left, right }
        if matches!(**left, LeafTree::Leaf(1)) && matches!(**right, LeafTree::Leaf(2))));
    tree.split(2, 3);
    tree.split(7, 8);
    tree.remove(1);
    let shown = format!("{:?}", tree);
    assert_eq!(
        shown,
        "Branch { left: Leaf(1), right: Branch { left: Leaf(2), right: Leaf(3) } }"
    );
}

#[test]
fn splitting_takes_the_first_leaf_from_the_left() {
    let mut tree = LeafTree::Branch {
        left: Box::new(LeafTree::Leaf(5)),
        right: Box::new(LeafTree::Leaf(5)),
    };
    tree.split(5, 6);
    let shown = format!("{:?}", tree);
    assert_eq!(
        shown,
        "Branch { left: Branch { left: Leaf(5), right: Leaf(6) }, right: Leaf(5) }"
    );
}

#[test]
fn pixel_colours() {
    assert_eq!(Pixel::white(), Pixel { r: 255, g: 255, b: 255, a: 255 });
    assert_eq!(Pixel::black(), Pixel { r: 0, g: 0, b: 0, a: 255 });
    assert_eq!(Pixel::transparent(), Pixel { r: 0, g: 0, b: 0, a: 0 });
    assert_eq!(Pixel::default(), Pixel::black());
    assert_eq!(Pixel::from_channels([1, 2, 3, 4]), Pixel { r: 1, g: 2, b: 3, a: 4 });
    assert_eq!(BWPixel(7), BWPixel(7));
    assert_ne!(FillMode::Stretch, FillMode::Repeat);
    assert_ne!(LoopAction::Continue, LoopAction::Quit);
}

#[test]
fn grid_write_and_read() {
    let mut grid = PixelGrid::new(3, 2);
    assert_eq!(grid.dimensions(), (3, 2));
    assert_eq!(grid.as_bytes(), &[0, 0, 0, 0, 0, 0]);
    grid.write_region((1, 0), (2, 2), &[1, 2, 3, 4, 5, 6]);
    assert_eq!(grid.as_bytes(), &[0, 1, 2, 0, 3, 4]);
    assert_eq!(grid.get(2, 1), 4);
    assert_eq!(grid.get(0, 1), 0);
}
