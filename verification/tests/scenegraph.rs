use chariot_client::scenegraph::{SceneNode, VecStorage, World, NULL_ENTITY};

#[test]
fn storage_insert_get_remove() {
    let mut s: VecStorage<u64> = VecStorage::new();
    assert_eq!(s.len(), 0);
    assert!(!s.contains(3));
    s.insert_unchecked(3, 30);
    s.insert_unchecked(7, 70);
    s.insert_unchecked(0, 5);
    assert!(s.contains(3));
    assert!(s.contains(7));
    assert!(s.contains(0));
    assert!(!s.contains(1));
    assert_eq!(*s.get_unchecked(7), 70);
    assert_eq!(s.get(3), Some(&30));
    assert_eq!(s.get(4), None);
    assert_eq!(s.len(), 3);
    s.remove_unchecked(3);
    assert!(!s.contains(3));
    assert_eq!(s.get(7), Some(&70));
    assert_eq!(s.get(0), Some(&5));
    assert_eq!(s.len(), 2);
}

#[test]
fn storage_remove_swaps_last_into_place() {
    let mut s: VecStorage<char> = VecStorage::new();
    s.insert_unchecked(1, 'a');
    s.insert_unchecked(2, 'b');
    s.insert_unchecked(3, 'c');
    s.remove_unchecked(1);
    let (ents, vals) = s.iter_with_entity();
    assert_eq!(ents, &[3, 2]);
    assert_eq!(vals, &['c', 'b']);
    s.remove_unchecked(2);
    let (ents, vals) = s.iter_with_entity();
    assert_eq!(ents, &[3]);
    assert_eq!(vals, &['c']);
    s.remove_unchecked(3);
    assert_eq!(s.len(), 0);
    assert!(!s.contains(3));
}

#[test]
fn storage_insert_replaces() {
    let mut s: VecStorage<i32> = VecStorage::new();
    s.insert(5, 1);
    s.insert(5, 2);
    assert_eq!(s.len(), 1);
    assert_eq!(s.get(5), Some(&2));
    s.remove(5);
    s.remove(5);
    assert_eq!(s.get(5), None);
    assert_eq!(s.iter(), &[] as &[i32]);
}

#[test]
fn storage_mutation_through_accessors() {
    let mut s: VecStorage<i32> = VecStorage::new();
    s.insert_unchecked(4, 10);
    s.insert_unchecked(9, 20);
    *s.get_unchecked_mut(9) += 1;
    {
        let (ents, vals) = s.iter_with_entity_mut();
        assert_eq!(ents, &[4, 9]);
        for v in vals.iter_mut() {
            *v *= 2;
        }
    }
    assert_eq!(s.iter(), &[20, 42]);
    assert_eq!(s.get(9), Some(&42));
}

#[test]
fn world_new_has_root() {
    let w = World::new();
    assert_eq!(w.root(), 0);
    assert_eq!(w.next_entity(), 1);
    assert_eq!(w.dfs(w.root()), vec![0]);
    let n = SceneNode::default();
    assert_eq!(n.first, NULL_ENTITY);
    assert_eq!(n.next, NULL_ENTITY);
    assert_eq!(n.prev, NULL_ENTITY);
    assert_eq!(n.parent, NULL_ENTITY);
}

fn small_world() -> World {
    let mut w = World::new();
    let root = w.root();
    let b1 = w.builder();
    b1.attach(&mut w, root);
    let b2 = w.builder();
    b2.attach(&mut w, root);
    let b3 = w.builder();
    b3.attach(&mut w, 1);
    assert_eq!((b1.build(), b2.build(), b3.build()), (1, 2, 3));
    w
}

#[test]
fn world_builder_hands_out_fresh_entities() {
    let mut w = World::new();
    let a = w.builder().build();
    let b = w.builder().build();
    assert_eq!(a, 1);
    assert_eq!(b, 2);
    assert_eq!(w.next_entity(), 3);
}

#[test]
fn world_dfs_visits_oldest_child_first() {
    let w = small_world();
    assert_eq!(w.dfs(0), vec![0, 1, 3, 2]);
    assert_eq!(w.dfs(1), vec![1, 3]);
    assert_eq!(w.dfs(2), vec![2]);
    assert_eq!(w.dfs(NULL_ENTITY), vec![NULL_ENTITY]);
    assert_eq!(w.dfs(42), vec![42]);
}

#[test]
fn world_attach_links_nodes() {
    let w = small_world();
    let root = w.scene_node(0).unwrap();
    assert_eq!(root.first, 2);
    let two = w.scene_node(2).unwrap();
    assert_eq!((two.parent, two.next, two.prev, two.first), (0, 1, NULL_ENTITY, NULL_ENTITY));
    let one = w.scene_node(1).unwrap();
    assert_eq!((one.parent, one.next, one.prev, one.first), (0, NULL_ENTITY, 2, 3));
    let three = w.scene_node(3).unwrap();
    assert_eq!(three.parent, 1);
    assert!(w.scene_node(4).is_none());
}

#[test]
fn world_dfs_acc_accumulates_from_parents() {
    let w = small_world();
    let out = w.dfs_acc(0, 100u64, |e: u32, acc: &u64| *acc + e as u64);
    assert_eq!(out, vec![(1, 101), (3, 104), (2, 102)]);
    let sub = w.dfs_acc(1, 0u64, |e: u32, acc: &u64| *acc * 10 + e as u64);
    assert_eq!(sub, vec![(3, 3)]);
}

#[test]
fn world_components_through_builder() {
    let mut w = World::new();
    let mut names: VecStorage<&'static str> = w.register();
    let b = w.builder();
    b.with(&mut names, "chair");
    let e = b.build();
    assert_eq!(names.get(e), Some(&"chair"));
    assert_eq!(names.get(0), None);
}

#[test]
fn builders_hand_out_consecutive_ids_and_root_stays() {
    let mut w = World::new();
    let root = w.root();
    for n in 1..=5u32 {
        let b = w.builder();
        assert_eq!(b.build(), n);
        if n % 2 == 0 {
            b.attach(&mut w, root);
        }
        assert_eq!(w.root(), 0);
    }
    assert_eq!(w.next_entity(), 6);
}

#[test]
fn attach_keeps_prev_links() {
    let mut w = World::new();
    let b1 = w.builder();
    b1.attach(&mut w, 0);
    let b2 = w.builder();
    b2.attach(&mut w, 0);
    let one = *w.scene_node(1).unwrap();
    let two = *w.scene_node(2).unwrap();
    assert_eq!(w.scene_node(0).unwrap().first, 2);
    assert_eq!(two.prev, NULL_ENTITY);
    assert_eq!(two.next, 1);
    assert_eq!(one.prev, 2);
    assert_eq!(one.next, NULL_ENTITY);
    assert_eq!((one.parent, two.parent), (0, 0));
}
