use rray::bvh::BVHTree;
use rray::shading::{Background, ToneMapping};

fn tree() -> BVHTree<(i32, i32)> {
    let mut t = BVHTree::new((0, 1), Some("a".to_string()));
    for (lo, hi, name) in [(5, 6, "b"), (10, 12, "c")] {
        let enclosing = (t.node.0.min(lo), t.node.1.max(hi));
        t = t.insert(enclosing, (lo, hi), name.to_string());
    }
    t
}

#[test]
fn insert_builds_a_left_chain() {
    let t = tree();
    assert_eq!(t.node, (0, 12));
    assert!(t.object.is_none());
    let right = t.right.as_ref().unwrap();
    assert_eq!(right.object.as_deref(), Some("c"));
    assert_eq!(right.node, (10, 12));
    let left = t.left.as_ref().unwrap();
    assert_eq!(left.node, (0, 6));
    assert_eq!(left.right.as_ref().unwrap().object.as_deref(), Some("b"));
    assert_eq!(left.left.as_ref().unwrap().object.as_deref(), Some("a"));
}

#[test]
fn walk_collects_every_object_when_all_boxes_pass() {
    let t = tree();
    assert_eq!(t.intersect(&|_: &(i32, i32)| true), vec!["a", "b", "c"]);
}

#[test]
fn walk_prunes_by_box() {
    let t = tree();
    let probe = 5;
    let hits = |b: &(i32, i32)| b.0 <= probe && probe <= b.1;
    assert_eq!(t.intersect(&hits), vec!["b"]);
}

#[test]
fn walk_missing_every_box_finds_nothing() {
    let t = tree();
    let hits = |b: &(i32, i32)| b.0 <= 20 && 20 <= b.1;
    assert!(t.intersect(&hits).is_empty());
}

#[test]
fn background_and_tone_mapping_exist() {
    let _ = Background::new();
    assert!(matches!(ToneMapping::Linear, ToneMapping::Linear));
}

#[test]
fn contain_fills_left_then_right_then_refuses() {
    let mut t = BVHTree::new((0, 10), None);
    assert!(t.contain((1, 2), "a".to_string(), true).is_none());
    assert_eq!(t.left.as_ref().unwrap().object.as_deref(), Some("a"));
    assert!(t.right.is_none());
    assert!(t.contain((3, 4), "b".to_string(), true).is_none());
    assert_eq!(t.right.as_ref().unwrap().node, (3, 4));
    assert_eq!(t.contain((5, 6), "c".to_string(), true), Some(((5, 6), "c".to_string())));
    assert_eq!(t.node, (0, 10));
}

#[test]
fn contain_refuses_a_box_that_does_not_fit() {
    let mut t = BVHTree::new((0, 10), None);
    assert_eq!(t.contain((20, 30), "x".to_string(), false), Some(((20, 30), "x".to_string())));
    assert!(t.left.is_none() && t.right.is_none());
}
