use mate_rov::video_tree::{DisplayNode, VideoLayout, VideoNode};

fn leaves(node: &VideoNode, out: &mut Vec<u64>) {
    match node {
        VideoNode::Leaf(e) => out.push(*e),
        VideoNode::Branch(children) => {
            for child in children {
                leaves(child, out);
            }
        }
    }
}

fn leaves_of(node: &VideoNode) -> Vec<u64> {
    let mut out = Vec::new();
    leaves(node, &mut out);
    out
}

#[test]
fn first_camera_becomes_the_root() {
    let mut tree = VideoNode::new();
    assert_eq!(tree.count_children(), 0);
    tree.insert(7);
    assert!(matches!(tree, VideoNode::Leaf(7)));
    assert_eq!(tree.count_children(), 1);
}

#[test]
fn cameras_fill_the_root_then_split_children() {
    let mut tree = VideoNode::new();
    for e in 1..=5 {
        tree.insert(e);
        assert_eq!(tree.count_children(), e as u32);
    }
    let mut got = leaves_of(&tree);
    got.sort();
    assert_eq!(got, vec![1, 2, 3, 4, 5]);
    match &tree {
        VideoNode::Branch(children) => {
            assert_eq!(children.len(), 3);
            // The fourth camera split the first child, the fifth the second.
            assert!(matches!(&children[0], VideoNode::Branch(c) if c.len() == 2));
            assert!(matches!(&children[1], VideoNode::Branch(c) if c.len() == 2));
            assert!(matches!(&children[2], VideoNode::Leaf(3)));
        }
        VideoNode::Leaf(_) => panic!("expected a branch"),
    }
}

#[test]
fn removing_cameras_collapses_the_tree() {
    let mut tree = VideoNode::new();
    for e in 1..=4 {
        tree.insert(e);
    }
    tree.remove(4);
    assert_eq!(leaves_of(&tree), vec![1, 2, 3]);
    tree.remove(2);
    assert_eq!(leaves_of(&tree), vec![1, 3]);
    tree.remove(1);
    assert!(matches!(tree, VideoNode::Leaf(3)));
    tree.remove(3);
    assert!(matches!(&tree, VideoNode::Branch(c) if c.is_empty()));
    assert_eq!(tree.count_children(), 0);
}

#[test]
fn removing_an_unknown_camera_keeps_the_cameras() {
    let mut tree = VideoNode::new();
    for e in [10, 20, 30] {
        tree.insert(e);
    }
    tree.remove(99);
    assert_eq!(leaves_of(&tree), vec![10, 20, 30]);
}

#[test]
fn layout_alternates() {
    assert_eq!(VideoLayout::Horizontal.opposite(), VideoLayout::Vertical);
    assert_eq!(VideoLayout::Vertical.opposite(), VideoLayout::Horizontal);
    assert_eq!(VideoLayout::Horizontal.opposite().opposite(), VideoLayout::Horizontal);
}

fn is_container(node: &DisplayNode, layout: VideoLayout, camera: u64) -> bool {
    matches!(node, DisplayNode::Container(l, e) if *l == layout && *e == camera)
}

fn is_separator(node: &DisplayNode, layout: VideoLayout) -> bool {
    matches!(node, DisplayNode::Separator(l) if *l == layout)
}

#[test]
fn display_of_a_single_camera() {
    let mut tree = VideoNode::new();
    tree.insert(5);
    let items = DisplayNode::build(&tree, VideoLayout::Horizontal);
    assert_eq!(items.len(), 1);
    assert!(is_container(&items[0], VideoLayout::Horizontal, 5));
}

#[test]
fn display_separates_sub_areas_in_alternating_directions() {
    let mut tree = VideoNode::new();
    for e in [1, 2, 3] {
        tree.insert(e);
    }
    let items = DisplayNode::build(&tree, VideoLayout::Horizontal);
    assert_eq!(items.len(), 5);
    assert!(is_separator(&items[1], VideoLayout::Horizontal));
    assert!(is_separator(&items[3], VideoLayout::Horizontal));
    for (index, camera) in [(0, 1), (2, 2), (4, 3)] {
        match &items[index] {
            DisplayNode::Subroot(layout, inner) => {
                assert_eq!(*layout, VideoLayout::Vertical);
                assert_eq!(inner.len(), 1);
                assert!(is_container(&inner[0], VideoLayout::Vertical, camera));
            }
            _ => panic!("expected a sub-area"),
        }
    }
}

#[test]
fn empty_tree_displays_nothing() {
    let tree = VideoNode::new();
    assert!(DisplayNode::build(&tree, VideoLayout::Vertical).is_empty());
}
