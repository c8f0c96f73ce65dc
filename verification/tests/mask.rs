use terrain::mask::BoundingBox;
use terrain::mask::MaskArena;
use terrain::mask::MaskNode;
use terrain::mask::NodeTransform;
use terrain::mask::PixelCollider;
use terrain::mask::ROT_ONE;
use terrain::mask::update_pixel_colliders;

fn identity_at(tx: i32, ty: i32) -> NodeTransform {
    NodeTransform { translation: (tx, ty), rot_cos: ROT_ONE, rot_sin: 0 }
}

fn boxed(center: (i32, i32), half: (i32, i32), t: NodeTransform, children: Vec<usize>) -> MaskNode {
    MaskNode { bbox: Some(BoundingBox { center, half_extents: half, }), transform: t, children }
}

fn unboxed(t: NodeTransform, children: Vec<usize>) -> MaskNode {
    MaskNode { bbox: None, transform: t, children }
}

#[test]
fn three_boxed_children_give_three_translated_corners() {
    // the entity sits at (100, 200); each child's world transform is the
    // parent position plus the child's own offset, with no rotation
    let parent_pos = (100, 200);
    let mut arena = MaskArena::new();
    // a 2 x 10 part left of the body
    let left = arena
        .add_node(boxed((0, 0), (1, 5), identity_at(parent_pos.0 - 4, parent_pos.1), vec![]))
        .unwrap();
    // a 2 x 10 part right of the body
    let right = arena
        .add_node(boxed((0, 0), (1, 5), identity_at(parent_pos.0 + 4, parent_pos.1), vec![]))
        .unwrap();
    // a 2 x 8 part ahead of the body
    let front = arena
        .add_node(boxed((0, 4), (1, 4), identity_at(parent_pos.0, parent_pos.1), vec![]))
        .unwrap();
    let root = arena
        .add_node(unboxed(identity_at(parent_pos.0, parent_pos.1), vec![left, right, front]))
        .unwrap();

    let mut collider = PixelCollider::new();
    arena.rebuild(root, &mut collider);
    assert_eq!(
        collider.pixels,
        vec![
            (-1 + parent_pos.0 - 4, 5 + parent_pos.1),
            (-1 + parent_pos.0 + 4, 5 + parent_pos.1),
            (-1 + parent_pos.0, 8 + parent_pos.1),
        ]
    );
}

#[test]
fn quarter_turn_rotates_the_corner() {
    // top-left of the box is (3, 1); a quarter turn sends (x, y) to (-y, x)
    let t = NodeTransform { translation: (10, 20), rot_cos: 0, rot_sin: ROT_ONE };
    let mut arena = MaskArena::new();
    let root = arena.add_node(boxed((4, 0), (1, 1), t, vec![])).unwrap();
    let mut collider = PixelCollider::new();
    arena.rebuild(root, &mut collider);
    assert_eq!(collider.pixels, vec![(-1 + 10, 3 + 20)]);
}

#[test]
fn unboxed_nodes_contribute_nothing() {
    let mut arena = MaskArena::new();
    let leaf = arena.add_node(boxed((0, 0), (2, 2), identity_at(7, 9), vec![])).unwrap();
    let middle = arena.add_node(unboxed(identity_at(0, 0), vec![leaf])).unwrap();
    let root = arena.add_node(unboxed(identity_at(0, 0), vec![middle])).unwrap();
    let mut collider = PixelCollider::new();
    arena.rebuild(root, &mut collider);
    assert_eq!(collider.pixels, vec![(-2 + 7, 2 + 9)]);
}

#[test]
fn rebuild_clears_the_previous_mask() {
    let mut arena = MaskArena::new();
    let root = arena.add_node(unboxed(identity_at(0, 0), vec![])).unwrap();
    let mut collider = PixelCollider::new();
    collider.pixels.push((123, 456));
    collider.pixels.push((7, 8));
    arena.rebuild(root, &mut collider);
    assert_eq!(collider.pixels, Vec::<(i32, i32)>::new());
}

#[test]
fn traversal_is_depth_first_parent_before_children() {
    let mut arena = MaskArena::new();
    let grandchild = arena.add_node(boxed((30, 0), (0, 0), identity_at(0, 0), vec![])).unwrap();
    let first = arena
        .add_node(boxed((10, 0), (0, 0), identity_at(0, 0), vec![grandchild]))
        .unwrap();
    let second = arena.add_node(boxed((20, 0), (0, 0), identity_at(0, 0), vec![])).unwrap();
    let root = arena
        .add_node(boxed((0, 0), (0, 0), identity_at(0, 0), vec![first, second]))
        .unwrap();
    let mut collider = PixelCollider::new();
    arena.rebuild(root, &mut collider);
    assert_eq!(collider.pixels, vec![(0, 0), (10, 0), (30, 0), (20, 0)]);
}

#[test]
fn add_node_rejects_a_forward_child_index() {
    let mut arena = MaskArena::new();
    assert_eq!(arena.add_node(unboxed(identity_at(0, 0), vec![0])), None);
    let a = arena.add_node(unboxed(identity_at(0, 0), vec![])).unwrap();
    assert_eq!(a, 0);
    assert_eq!(arena.add_node(unboxed(identity_at(0, 0), vec![1])), None);
    assert_eq!(arena.add_node(unboxed(identity_at(0, 0), vec![0])), Some(1));
    assert_eq!(arena.len(), 2);
}

#[test]
fn update_pass_rebuilds_one_mask_per_entity() {
    let mut arena = MaskArena::new();
    let a = arena.add_node(boxed((1, 0), (0, 0), identity_at(0, 0), vec![])).unwrap();
    let b = arena.add_node(boxed((2, 0), (0, 0), identity_at(0, 0), vec![])).unwrap();
    let ent1 = arena.add_node(boxed((0, 0), (0, 0), identity_at(0, 0), vec![a])).unwrap();
    let ent2 = arena.add_node(unboxed(identity_at(0, 0), vec![b])).unwrap();
    let roots = vec![ent1, ent2];
    let mut colliders = vec![PixelCollider::new()];
    colliders[0].pixels.push((99, 99));
    update_pixel_colliders(&arena, &roots, &mut colliders);
    assert_eq!(colliders.len(), 2);
    assert_eq!(colliders[0].pixels, vec![(0, 0), (1, 0)]);
    assert_eq!(colliders[1].pixels, vec![(2, 0)]);
}
