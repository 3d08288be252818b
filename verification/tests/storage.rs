use ecs_core::components::Components;
use ecs_core::query::common_live_ids;
use ecs_core::query::live_ids;
use ecs_core::query::query1;
use ecs_core::query::query2;
use ecs_core::query::query3;
use ecs_core::sparse_array::sync_array;
use ecs_core::sparse_array::ArrayOp;
use ecs_core::sparse_array::SyncSparseArray;
use ecs_core::sparse_array::apply_ops;
use ecs_core::sparse_array::BUCKET_DENSITY;
use ecs_core::sparse_array::MAX_ITEMS_PER_ARRAY;

#[test]
fn test_bucket_lock_api() {
    let id = 5000;

    // Single insert, then surrender the bucket.
    let mut array = sync_array();
    let mut bucket = array.bucket_lock(id);
    assert_eq!(bucket.set(id, String::from("value for id 123")), None);
    assert_eq!(array.min_relaxed(), u32::MAX as usize);
    assert_eq!(array.max_relaxed(), 0);
    assert_eq!(bucket.bits(), 1 << (id % 64));
    assert!(bucket.has(id));
    array.unlock(bucket);
    assert_eq!(array.get_bits(id), 1 << (id % 64));

    // min-max changed only after the bucket is surrendered.
    assert_eq!(array.min_relaxed(), 5000 / BUCKET_DENSITY * BUCKET_DENSITY);
    assert_eq!(
        array.max_relaxed(),
        (5000 / BUCKET_DENSITY * BUCKET_DENSITY) + BUCKET_DENSITY - 1
    );

    drop(array);

    // Insert then delete while the bucket is held: nothing was occupied at
    // release time, so the bounds stay at the empty sentinel.
    let mut array = sync_array();
    let mut bucket = array.bucket_lock(id);
    assert_eq!(bucket.set(id, String::from("value for id 123")), None);

    let value = match bucket.get_clone(id) {
        Some(v) => v + " with additional info",
        None => panic!("value must exist"),
    };
    bucket.set(id, value.clone());

    assert_eq!(
        Some(value.clone()),
        Some(String::from("value for id 123 with additional info"))
    );
    assert_eq!(bucket.delete(id), Some(value.clone()));
    assert_eq!(array.min_relaxed(), u32::MAX as usize);
    assert_eq!(array.max_relaxed(), 0);
    assert_eq!(bucket.bits(), 0);
    assert!(!bucket.has(id));
    array.unlock(bucket);
    assert_eq!(array.get_bits(id), 0);
    assert_eq!(array.min_relaxed(), u32::MAX as usize);
    assert_eq!(array.max_relaxed(), 0);
}

#[test]
fn sync_sparse_array_min_max() {
    let mut array = sync_array();
    for id in 1..MAX_ITEMS_PER_ARRAY {
        array.set_in_place(id, id);
        assert_eq!(array.min_relaxed(), 0);
        assert_eq!(
            array.max_relaxed(),
            (id / 64) * BUCKET_DENSITY + BUCKET_DENSITY - 1
        );
    }
}

#[test]
fn set_and_delete_round() {
    let mut array: SyncSparseArray<u32> = sync_array();
    assert_eq!(array.set_in_place(10, 111), None);
    assert_eq!(array.set_in_place(10, 222), Some(111));
    assert!(array.has(10));
    assert_eq!(array.delete_in_place(10), Some(222));
    assert_eq!(array.delete_in_place(10), None);
    assert!(!array.has(10));
}

#[test]
fn ops_fold_matches_live_set() {
    let ops: Vec<ArrayOp<u32>> = vec![
        ArrayOp::Insert { id: 3, data: 30 },
        ArrayOp::Insert { id: 70, data: 700 },
        ArrayOp::Insert { id: 3, data: 31 },
        ArrayOp::Remove { id: 70 },
        ArrayOp::Insert { id: 200, data: 2000 },
        ArrayOp::Remove { id: 9 },
    ];
    let array = apply_ops(ops);
    assert!(array.has(3));
    assert!(!array.has(70));
    assert!(array.has(200));
    assert!(!array.has(9));
    assert_eq!(live_ids(&array), vec![3, 200]);
    // The surviving values are what the last insert wrote.
    assert_eq!(array.bucket(3).get_copy(3), Some(31));
    assert_eq!(array.bucket(200).get_copy(200), Some(2000));
}

#[test]
fn range_scan_covers_live() {
    // Range-safety: scanning only between the reported bounds and following
    // the occupancy masks finds every live id.
    let mut array: SyncSparseArray<usize> = sync_array();
    let inserted = [1usize, 63, 64, 130, 1029, 4096, 8191];
    for id in inserted {
        array.set_in_place(id, id);
    }
    array.delete_in_place(130);
    let mut found: Vec<usize> = Vec::new();
    let lo = array.min_relaxed();
    let hi = array.max_relaxed();
    let mut id = lo;
    while id <= hi {
        if id / 64 < array.bucket_count() && array.get_bits(id) & (1 << (id % 64)) != 0 {
            found.push(id);
        }
        id += 1;
    }
    assert_eq!(found, vec![1, 63, 64, 1029, 4096, 8191]);
    assert_eq!(found, live_ids(&array));
}

#[test]
fn dispose_narrows_empty_edges() {
    let mut array: SyncSparseArray<u32> = sync_array();
    array.set_in_place(10, 1);
    array.set_in_place(300, 2);
    assert_eq!(array.min_relaxed(), 0);
    assert_eq!(array.max_relaxed(), 319);
    array.delete_in_place(10);
    // Deletion alone never narrows the range.
    assert_eq!(array.min_relaxed(), 0);
    assert_eq!(array.max_relaxed(), 319);
    array.dispose_pass();
    // The dispose pass proves the low edge bucket empty and narrows it.
    assert_eq!(array.min_relaxed(), 64);
    assert_eq!(array.max_relaxed(), 319);
    assert!(!array.is_updated);
    assert_eq!(array.min_updated_id, u32::MAX);
    assert_eq!(array.max_updated_id, 0);
}

#[test]
fn components_dispose() {
    let mut components: Components<Box<u32>> = Components::new();

    components.set(1, 109, Box::new(u32::MAX));
    components.set(1, 253, Box::new(u32::MIN));

    assert_eq!(components.is_updated, true);
    let (found, pos) = components.store.search(1);
    assert!(found);
    let arch = components.store.array_at(pos);

    assert_eq!(arch.min_relaxed(), 64);
    assert_eq!(arch.max_relaxed(), 255);
    assert_eq!(arch.min_updated_id, 64);
    assert_eq!(arch.max_updated_id, 255);
    assert_eq!(arch.is_updated, true);

    components.dispose_frame();
    assert_eq!(components.is_updated, false);
    let (found, pos) = components.store.search(1);
    assert!(found);
    let arch = components.store.array_at(pos);

    assert_eq!(arch.min_relaxed(), 64);
    assert_eq!(arch.max_relaxed(), 255);
    assert_eq!(arch.min_updated_id, u32::MAX);
    assert_eq!(arch.max_updated_id, u32::MIN);
    assert_eq!(arch.is_updated, false);
}

#[test]
fn dispose_twice_is_noop() {
    let mut components: Components<u32> = Components::new();
    components.set(1, 5, 50);
    assert!(components.dispose_frame());
    let min_after = {
        let (_, pos) = components.store.search(1);
        components.store.array_at(pos).min_relaxed()
    };
    // Second pass with no intervening mutation: a no-op that reports false.
    assert!(!components.dispose_frame());
    assert!(!components.is_updated);
    let (_, pos) = components.store.search(1);
    let arch = components.store.array_at(pos);
    assert_eq!(arch.min_relaxed(), min_after);
    assert_eq!(arch.min_updated_id, u32::MAX);
    assert_eq!(arch.max_updated_id, 0);
}

fn create_data(
    archs_amount: usize,
    components_per_arch: usize,
) -> (Box<Components<(u32, u32)>>, Box<Components<u64>>) {
    assert!(archs_amount >= 1);
    assert!(components_per_arch < u16::MAX as usize);

    let mut position: Components<(u32, u32)> = Components::new();
    let mut hero: Components<u64> = Components::new();

    for arch_id in 1..=archs_amount {
        for entity_id in 1..=components_per_arch {
            position.set(arch_id, entity_id, (entity_id as u32, entity_id as u32));
            hero.set(arch_id, entity_id, u64::MAX);
        }
    }

    (Box::new(position), Box::new(hero))
}

#[test]
fn query_create_data() {
    // Initial state.
    let (_, mut hero) = create_data(1, 5);
    assert_eq!(hero.store.chunk_count(), 1);
    assert_eq!(hero.len(), 5);

    // Updating an existing slot grows nothing.
    hero.set(1, 5, u64::MAX);
    assert_eq!(hero.store.chunk_count(), 1);
    assert_eq!(hero.len(), 5);

    // A new component for an existing archetype.
    hero.set(1, 6, u64::MAX);
    assert_eq!(hero.store.chunk_count(), 1);
    assert_eq!(hero.len(), 6);

    // A new component for a new archetype.
    hero.set(2, 1, u64::MAX);
    assert_eq!(hero.store.chunk_count(), 2);
    assert_eq!(hero.len(), 7);

    // Directory stays sorted as archetypes arrive out of order.
    hero.set(10, 1, u64::MAX);
    assert_eq!(hero.store.chunk_count(), 3);
    assert_eq!(hero.len(), 8);

    // A new slot in a new archetype occupies one more slot: the live
    // counter grows exactly once per newly-occupied slot.
    hero.set(5, 1, u64::MAX);
    assert_eq!(hero.store.chunk_count(), 4);
    assert_eq!(hero.len(), 9);

    let mut ids: Vec<usize> = Vec::new();
    for i in 0..hero.store.chunk_count() {
        ids.push(hero.store.arch_id_at(i));
    }
    assert_eq!(vec![1, 2, 5, 10], ids);
}

#[test]
fn query_iterate_entities() {
    let (position, hero) = create_data(10, 10);

    // Simple iterate over two stores.
    let result = query2(&position, &hero).len();
    assert_eq!(result, 100);

    let mut stats: Components<()> = Components::new();
    for i in 0..10 {
        stats.set(150, 150 + i, ());
    }

    // Iterate over fewer than 64 items.
    let result = query1(&stats).len();
    assert_eq!(result, 10);

    // Iterate over views of different sizes: no shared entities.
    let result = query3(&position, &hero, &stats).len();
    assert_eq!(result, 0);
}

#[test]
fn new_items_while_iterations() {
    let (mut position, mut hero) = create_data(10, 10);

    let mut result = 0;
    let max_arch = 10usize;
    assert_eq!(position.len(), 100);
    assert_eq!(position.len(), 100);
    for _pair in query2(&position, &hero) {
        if result < max_arch {
            position.set(11 + result * result, 100, (0, 0));
            hero.set(11 + result * result, 100, 0);
        }
        result += 1;
    }
    assert_eq!(result, 100);
    assert_eq!(position.len(), 110);
    assert_eq!(hero.len(), 110);

    let mut result = 0;
    for _pair in query2(&position, &hero) {
        result += 1;
    }
    assert_eq!(result, 110);
}

#[test]
fn query_two_stores_half_overlap() {
    // One store with entities at slots 1..=100 of archetype 1, one with
    // entities only at slots 1..=50: the query visits exactly 50.
    let mut full: Components<u32> = Components::new();
    let mut half: Components<u32> = Components::new();
    for id in 1..=100 {
        full.set(1, id, id as u32);
    }
    for id in 1..=50 {
        half.set(1, id, id as u32);
    }
    let pairs = query2(&full, &half);
    assert_eq!(pairs.len(), 50);
    for (k, pair) in pairs.iter().enumerate() {
        assert_eq!(*pair, (1, k + 1));
    }
}

#[test]
fn common_ids_intersection() {
    let mut a: SyncSparseArray<u32> = sync_array();
    let mut b: SyncSparseArray<u32> = sync_array();
    for id in [1usize, 5, 64, 200] {
        a.set_in_place(id, 0);
    }
    for id in [5usize, 64, 300] {
        b.set_in_place(id, 0);
    }
    assert_eq!(common_live_ids(&a, &b), vec![5, 64]);
    assert_eq!(common_live_ids(&b, &a), vec![5, 64]);
}

#[test]
fn components_get_copy_and_has() {
    let mut c: Components<u32> = Components::new();
    assert!(!c.has(4, 7));
    assert_eq!(c.get_copy(4, 7), None);
    c.set(4, 7, 42);
    assert!(c.has(4, 7));
    assert_eq!(c.get_copy(4, 7), Some(42));
    assert_eq!(c.get_copy(4, 8), None);
    assert_eq!(c.get_copy(5, 7), None);
}
