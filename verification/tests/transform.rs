use cgmath::{Matrix4, Rad, SquareMatrix, Vector4};
use utils::component::Component;
use utils::components::{Placement, Transform, TransformArena, Vector3, ONE_BITS, TRANSFORM};

fn vec3(x: f32, y: f32, z: f32) -> Vector3 {
    Vector3 { x: x.to_bits(), y: y.to_bits(), z: z.to_bits() }
}

fn placed_at(x: f32, y: f32, z: f32) -> Transform {
    let mut t = Transform::new();
    let mut p = t.placement();
    p.position = vec3(x, y, z);
    t.set_placement(p);
    t
}

fn local_matrix(p: Placement) -> Matrix4<f32> {
    let position = cgmath::Vector3::new(
        f32::from_bits(p.position.x),
        f32::from_bits(p.position.y),
        f32::from_bits(p.position.z),
    );
    Matrix4::from_translation(position)
        * Matrix4::from_angle_x(Rad(f32::from_bits(p.rotation.x)))
        * Matrix4::from_angle_y(Rad(f32::from_bits(p.rotation.y)))
        * Matrix4::from_angle_z(Rad(f32::from_bits(p.rotation.z)))
        * Matrix4::from_nonuniform_scale(
            f32::from_bits(p.scale.x),
            f32::from_bits(p.scale.y),
            f32::from_bits(p.scale.z),
        )
}

fn world_matrix(arena: &TransformArena, n: usize) -> Matrix4<f32> {
    let mut world: Option<Matrix4<f32>> = None;
    for h in arena.lineage(n) {
        let local = local_matrix(arena.get(h).unwrap().placement());
        world = Some(match world {
            Some(above) => above * local,
            None => local,
        });
    }
    world.unwrap()
}

fn children(arena: &TransformArena, n: usize) -> Vec<usize> {
    let t = arena.get(n).unwrap();
    let mut all = Vec::new();
    let mut i = 0;
    while let Some(c) = t.get_child(i) {
        all.push(c);
        i += 1;
    }
    assert_eq!(all.len(), t.child_count());
    all
}

#[test]
fn new_transform_changes_nothing() {
    let t = Transform::new();
    assert_eq!(t.placement().position, Vector3 { x: 0, y: 0, z: 0 });
    assert_eq!(t.placement().rotation, Vector3 { x: 0, y: 0, z: 0 });
    assert_eq!(t.placement().scale, Vector3 { x: ONE_BITS, y: ONE_BITS, z: ONE_BITS });
    assert_eq!(f32::from_bits(ONE_BITS), 1.0);
    assert_eq!(t.get_parent(), None);
    assert_eq!(t.get_child(0), None);
    assert_eq!(t.child_count(), 0);
    assert!(!t.has_parent());
    assert_eq!(t.type_id(), TRANSFORM);
    assert_eq!(t.priority(), 0);
    assert_eq!(local_matrix(t.placement()), Matrix4::identity());
}

#[test]
fn world_matrix_of_a_root_is_its_local_matrix() {
    let mut arena = TransformArena::new();
    let root = arena.insert(placed_at(1.0, 0.0, 0.0));
    assert_eq!(arena.lineage(root), vec![root]);
    assert_eq!(world_matrix(&arena, root), local_matrix(arena.get(root).unwrap().placement()));
}

#[test]
fn world_matrix_of_a_child_is_parent_world_times_child_local() {
    let mut arena = TransformArena::new();
    let parent = arena.insert(placed_at(1.0, 0.0, 0.0));
    let child = arena.insert(placed_at(0.0, 1.0, 0.0));
    assert!(arena.add_child(parent, child));
    assert_eq!(arena.lineage(child), vec![parent, child]);
    let world = world_matrix(&arena, child);
    assert_eq!(
        world,
        world_matrix(&arena, parent) * local_matrix(arena.get(child).unwrap().placement())
    );
    assert_eq!(world.w, Vector4::new(1.0, 1.0, 0.0, 1.0));
}

#[test]
fn lineage_runs_from_the_root_down() {
    let mut arena = TransformArena::new();
    let a = arena.insert(Transform::new());
    let b = arena.insert(Transform::new());
    let c = arena.insert(Transform::new());
    assert!(arena.add_child(a, b));
    assert!(arena.add_child(b, c));
    assert_eq!(arena.lineage(c), vec![a, b, c]);
    assert_eq!(arena.lineage(b), vec![a, b]);
    assert_eq!(arena.lineage(7), Vec::<usize>::new());
    assert_eq!(arena.len(), 3);
}

#[test]
fn self_parenting_is_refused() {
    let mut arena = TransformArena::new();
    let t = arena.insert(Transform::new());
    let other = arena.insert(Transform::new());
    assert!(arena.add_child(t, other));
    assert!(!arena.add_child(t, t));
    assert_eq!(children(&arena, t), vec![other]);
    assert_eq!(arena.get(t).unwrap().get_parent(), None);
}

#[test]
fn an_ancestor_cannot_become_a_descendant() {
    let mut arena = TransformArena::new();
    let a = arena.insert(Transform::new());
    let b = arena.insert(Transform::new());
    let c = arena.insert(Transform::new());
    assert!(arena.add_child(a, b));
    assert!(arena.add_child(b, c));
    assert!(!arena.add_child(b, a));
    assert!(!arena.add_child(c, a));
    assert!(arena.is_ancestor(c, a));
    assert!(arena.is_ancestor(c, c));
    assert!(!arena.is_ancestor(a, c));
    assert!(!arena.is_ancestor(9, a));
    assert_eq!(children(&arena, a), vec![b]);
    assert_eq!(children(&arena, c), Vec::<usize>::new());
    assert!(!arena.add_child(a, 9));
    assert!(!arena.add_child(9, a));
}

#[test]
fn reparenting_moves_the_child_once() {
    let mut arena = TransformArena::new();
    let a = arena.insert(Transform::new());
    let b = arena.insert(Transform::new());
    let x = arena.insert(Transform::new());
    let y = arena.insert(Transform::new());
    let z = arena.insert(Transform::new());
    assert!(arena.add_child(a, x));
    assert!(arena.add_child(a, y));
    assert!(arena.add_child(b, z));
    assert!(arena.add_child(b, x));
    assert_eq!(children(&arena, a), vec![y]);
    assert_eq!(children(&arena, b), vec![z, x]);
    assert_eq!(arena.get(x).unwrap().get_parent(), Some(b));
    assert!(arena.get(x).unwrap().has_parent());
    assert!(!arena.get(a).unwrap().has_parent());
    assert!(arena.add_child(b, z));
    assert_eq!(children(&arena, b), vec![x, z]);
}

#[test]
fn children_are_cut_by_handle_and_by_position() {
    let mut arena = TransformArena::new();
    let a = arena.insert(Transform::new());
    let x = arena.insert(Transform::new());
    let y = arena.insert(Transform::new());
    let z = arena.insert(Transform::new());
    assert!(arena.add_child(a, x));
    assert!(arena.add_child(a, y));
    assert!(arena.add_child(a, z));
    assert_eq!(arena.rm_child(a, y), Some(y));
    assert_eq!(arena.rm_child(a, y), None);
    assert_eq!(arena.rm_child(x, z), None);
    assert_eq!(arena.rm_child(a, 9), None);
    assert_eq!(arena.get(y).unwrap().get_parent(), None);
    assert_eq!(children(&arena, a), vec![x, z]);
    assert_eq!(arena.remove(a, 2), None);
    assert_eq!(arena.remove(9, 0), None);
    assert_eq!(arena.remove(a, 0), Some(x));
    assert_eq!(arena.get(x).unwrap().get_parent(), None);
    assert_eq!(children(&arena, a), vec![z]);
    assert_eq!(arena.lineage(x), vec![x]);
}

#[test]
fn placement_is_set_through_the_arena() {
    let mut arena = TransformArena::new();
    let a = arena.insert(Transform::new());
    let b = arena.insert(Transform::new());
    assert!(arena.add_child(a, b));
    let mut p = arena.get(b).unwrap().placement();
    p.scale = vec3(2.0, 3.0, 4.0);
    assert!(arena.set_placement(b, p));
    assert!(!arena.set_placement(5, p));
    assert_eq!(arena.get(b).unwrap().placement(), p);
    assert_eq!(arena.get(b).unwrap().get_parent(), Some(a));
    assert!(arena.get(5).is_none());
    let m = local_matrix(p);
    assert_eq!((m.x.x, m.y.y, m.z.z), (2.0, 3.0, 4.0));
}

#[test]
fn a_node_keeps_its_entity_in_the_arena() {
    let mut t = placed_at(1.0, 2.0, 3.0);
    t.on_reg(6);
    t.on_add();
    let kept = t.placement();
    assert_eq!(t.get_parent(), None);
    let mut arena = TransformArena::new();
    let root = arena.insert(Transform::new());
    let n = arena.insert(t);
    assert!(arena.add_child(root, n));
    let node = arena.get(n).unwrap();
    assert_eq!(node.object(), Ok(6));
    assert_eq!(node.placement(), kept);
    assert_eq!(arena.get(root).unwrap().object().is_err(), true);
}
