use ecs_core::components::Position;
use ecs_core::storage::DenseStorage;
use ecs_core::storage::FlagStorage;
use ecs_core::world::World;

#[test]
fn dense_insert_overwrites_silently() {
    let mut s: DenseStorage<u32> = DenseStorage::new();
    s.insert(4, 40);
    s.insert(4, 41);
    assert_eq!(s.get(4).copied(), Some(41));
    assert_eq!(s.num(), 1);
}

#[test]
fn dense_remove_of_absent_is_a_no_op() {
    let mut s: DenseStorage<u32> = DenseStorage::new();
    s.insert(1, 10);
    s.remove(2);
    s.remove(100);
    assert_eq!(s.get(1).copied(), Some(10));
    assert_eq!(s.num(), 1);
}

#[test]
fn dense_compaction_keeps_all_remaining_values() {
    // Insert on many entity indices, remove in arbitrary order, and check
    // that no lookup is corrupted by the swap-remove compaction.
    let mut s: DenseStorage<u32> = DenseStorage::new();
    let mut k: usize = 0;
    while k < 16 {
        s.insert(k, (k as u32) * 100);
        k += 1;
    }
    let removals = [3usize, 15, 0, 7, 8, 1];
    for r in removals {
        s.remove(r);
    }
    // Walking the dense slots visits each surviving pair consistently.
    let mut k: usize = 0;
    while k < s.num() {
        let e = s.entity_at(k);
        assert_eq!(*s.value_at(k), (e as u32) * 100);
        k += 1;
    }
    let mut k: usize = 0;
    while k < 16 {
        if removals.contains(&k) {
            assert_eq!(s.get(k), None);
        } else {
            assert_eq!(s.get(k).copied(), Some((k as u32) * 100));
        }
        k += 1;
    }
    assert_eq!(s.num(), 10);
}

#[test]
fn flag_storage_is_a_set_of_indices() {
    let mut s = FlagStorage::new();
    s.insert(2);
    s.insert(5);
    s.insert(2);
    assert!(s.contains_index(2));
    assert!(s.contains_index(5));
    assert!(!s.contains_index(3));
    assert_eq!(s.num(), 2);
    s.remove(2);
    assert!(!s.contains_index(2));
    assert!(s.contains_index(5));
    s.remove(2);
    assert_eq!(s.num(), 1);
}

#[test]
fn world_compaction_after_mixed_removals() {
    let mut w = World::new();
    let mut handles = Vec::new();
    let mut k: i32 = 0;
    while k < 10 {
        let e = w.create_entity();
        w.insert_position(e, Position { x: k, y: -k });
        handles.push(e);
        k += 1;
    }
    // Destroy a few in scattered order; the dense storage compacts each
    // time.
    w.destroy(handles[9]);
    w.destroy(handles[0]);
    w.destroy(handles[4]);
    let mut k: usize = 0;
    while k < 10 {
        let expected = if k == 9 || k == 0 || k == 4 {
            None
        } else {
            Some(Position { x: k as i32, y: -(k as i32) })
        };
        assert_eq!(w.get_position(handles[k]), expected);
        k += 1;
    }
}
