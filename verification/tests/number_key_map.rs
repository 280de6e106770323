use orengine_utils::number_key_map::{NumberKeyMap, VACANT_KEY};
use std::cell::Cell;
use std::rc::Rc;

#[derive(Debug)]
struct DropCounter(usize, Rc<Cell<usize>>);

impl Drop for DropCounter {
    fn drop(&mut self) {
        self.1.set(self.1.get() + 1);
    }
}

#[test]
fn test_number_key_map_insert_and_get() {
    const N: usize = 1_000_000;

    let mut m = NumberKeyMap::new();
    let drops = Rc::new(Cell::new(0));

    for i in 0..N {
        m.insert(i, DropCounter(i, drops.clone())).unwrap();

        assert_eq!(m.get(i).map(|v| v.0), Some(i));
        assert_eq!(m.get_mut(i).map(|v| v.0), Some(i));
    }

    for i in 0..N {
        assert_eq!(m.get(i).map(|v| v.0), Some(i));
    }

    assert_eq!(drops.get(), 0);

    for i in 0..N / 2 {
        assert!(m.remove(i).is_some());
        assert!(m.remove(i).is_none());
    }

    assert_eq!(drops.get(), N / 2);

    for i in 0..N / 2 {
        assert!(m.get(i).is_none());
    }
    for i in N / 2..N {
        assert_eq!(m.get(i).map(|v| v.0), Some(i));
    }

    drop(m);

    assert_eq!(drops.get(), N);
}

#[test]
fn test_number_key_map_duplicate_key_returns_err() {
    let mut m = NumberKeyMap::new();
    let k = 1usize;
    let drops = Rc::new(Cell::new(0));

    m.insert(k, DropCounter(10, drops.clone())).unwrap();
    assert!(m.insert(k, DropCounter(20, drops.clone())).is_err());

    // the first value remains
    assert_eq!(m.get(k).map(|v| v.0), Some(10));

    assert_eq!(drops.get(), 1);

    drop(m);

    assert_eq!(drops.get(), 2);
}

#[test]
fn test_number_key_map_clear() {
    let mut m = NumberKeyMap::new();
    let drops = Rc::new(Cell::new(0));

    for i in 0..1_000_000 {
        m.insert(i, DropCounter(i, drops.clone())).unwrap();
    }

    assert_eq!(drops.get(), 0);

    m.clear();

    assert_eq!(drops.get(), 1_000_000);

    m.clear_with(|_| panic!("Not cleared"));

    assert_eq!(drops.get(), 1_000_000);
}

#[test]
fn test_number_key_map_iter() {
    let mut m = NumberKeyMap::new();
    let drops = Rc::new(Cell::new(0));

    for i in 0..10 {
        m.insert(i, DropCounter(i, drops.clone())).unwrap();
    }

    let mut seen = Vec::new();
    for (k, v) in m.iter() {
        seen.push((k, v.0));
    }

    seen.sort_by_key(|x| x.0);

    assert_eq!(seen, (0..10).map(|i| (i, i)).collect::<Vec<_>>());
    assert_eq!(drops.get(), 0); // iter() should not drop
}

#[test]
fn test_number_key_map_iter_mut() {
    let mut m = NumberKeyMap::new();
    let drops = Rc::new(Cell::new(0));

    for i in 0..10 {
        m.insert(i, DropCounter(i, drops.clone())).unwrap();
    }

    for (_, v) in m.iter_mut() {
        v.0 *= 2;
    }

    let mut collected = m.iter().into_iter().map(|(_, v)| v.0).collect::<Vec<_>>();

    collected.sort_by_key(|x| *x);

    assert_eq!(collected, (0..10).map(|i| i * 2).collect::<Vec<_>>());
    assert_eq!(drops.get(), 0); // iter_mut() should not drop
}

#[test]
fn test_number_key_map_into_iter() {
    let drops = Rc::new(Cell::new(0));
    let mut m = NumberKeyMap::new();

    for i in 0..10 {
        m.insert(i, DropCounter(i, drops.clone())).unwrap();
    }

    assert_eq!(drops.get(), 0);

    let mut seen = Vec::new();
    let mut walk = m.into_iter();
    while let Some((k, v)) = walk.next() {
        seen.push((k, v.0));
    }
    drop(walk);

    // after into_iter, the map is consumed
    seen.sort_by_key(|x| x.0);

    assert_eq!(seen, (0..10).map(|i| (i, i)).collect::<Vec<_>>());

    // all values must be dropped exactly once
    assert_eq!(drops.get(), 10);
}

#[test]
fn test_number_map_drain() {
    let drops = Rc::new(Cell::new(0));
    let mut m = NumberKeyMap::new();

    for i in 0..10 {
        m.insert(i, DropCounter(i, drops.clone())).unwrap();
    }

    assert_eq!(drops.get(), 0);

    let mut seen = Vec::new();
    let mut walk = m.drain();
    while let Some((k, v)) = walk.next() {
        seen.push((k, v.0));
    }

    // after drain, the map is consumed
    seen.sort_by_key(|x| x.0);

    assert_eq!(seen, (0..10).map(|i| (i, i)).collect::<Vec<_>>());

    drop(m);

    // all values must be dropped exactly once
    assert_eq!(drops.get(), 10);

    let mut m = NumberKeyMap::new();

    for i in 0..10 {
        m.insert(i, DropCounter(i, drops.clone())).unwrap();
    }

    let iter = m.drain();

    drop(iter);

    assert_eq!(drops.get(), 10);
}

#[test]
fn abandoned_drain_leaves_the_rest_in_the_map() {
    let drops = Rc::new(Cell::new(0));
    let mut m = NumberKeyMap::new();
    for i in 0..10 {
        m.insert(i, DropCounter(i * 3, drops.clone())).unwrap();
    }
    let cap = m.capacity();

    let mut walk = m.drain();
    let (k0, v0) = walk.next().unwrap();
    let (k1, v1) = walk.next().unwrap();
    drop(walk);

    assert_eq!(m.capacity(), cap);
    assert_eq!(v0.0, k0 * 3);
    assert_eq!(v1.0, k1 * 3);
    assert!(k0 % cap < k1 % cap);
    assert!(m.get(k0).is_none());
    assert!(m.get(k1).is_none());
    for i in 0..10 {
        if i != k0 && i != k1 {
            assert_eq!(m.get(i).map(|v| v.0), Some(i * 3));
        }
    }
    assert_eq!(drops.get(), 0);
    drop(v0);
    drop(v1);
    assert_eq!(drops.get(), 2);
    drop(m);
    assert_eq!(drops.get(), 10);
}

#[test]
fn drain_to_the_end_empties_the_map_and_keeps_the_table() {
    let mut m = NumberKeyMap::new();
    for i in 0..50usize {
        m.insert(i * 7, i).unwrap();
    }
    let cap = m.capacity();
    let mut walk = m.drain();
    let mut n = 0;
    let mut last_slot = None;
    while let Some((k, v)) = walk.next() {
        assert_eq!(k, v * 7);
        let slot = k % cap;
        if let Some(prev) = last_slot {
            assert!(prev < slot);
        }
        last_slot = Some(slot);
        n += 1;
    }
    assert!(walk.next().is_none());
    assert_eq!(n, 50);
    assert_eq!(m.capacity(), cap);
    assert!(m.iter().is_empty());
    for i in 0..50usize {
        assert!(m.get(i * 7).is_none());
    }
}

#[test]
fn new_map_owns_no_table() {
    let mut m: NumberKeyMap<u32> = NumberKeyMap::new();
    assert_eq!(m.capacity(), 0);
    assert!(m.get(0).is_none());
    assert!(m.get_mut(5).is_none());
    assert!(m.remove(3).is_none());
    assert!(m.iter().is_empty());
    m.clear();
    assert_eq!(m.capacity(), 0);
}

#[test]
fn first_insert_makes_a_table_of_one_slot() {
    let mut m = NumberKeyMap::new();
    assert_eq!(m.insert(42, "a"), Ok(()));
    assert_eq!(m.capacity(), 1);
    assert_eq!(m.get(42), Some(&"a"));
    assert_eq!(m.get(41), None);
}

#[test]
fn growth_policy_steps() {
    assert_eq!(NumberKeyMap::<u8>::greater_capacity(0), 2);
    assert_eq!(NumberKeyMap::<u8>::greater_capacity(1), 4);
    assert_eq!(NumberKeyMap::<u8>::greater_capacity(4), 10);
    assert_eq!(NumberKeyMap::<u8>::greater_capacity(10), 22);
    assert_eq!(NumberKeyMap::<u8>::greater_capacity(15), 32);
    // from 16 on: times eight, by seven, rounded down
    assert_eq!(NumberKeyMap::<u8>::greater_capacity(16), 18);
    assert_eq!(NumberKeyMap::<u8>::greater_capacity(22), 25);
    assert_eq!(NumberKeyMap::<u8>::greater_capacity(25), 28);
    // 28 * 8 / 7 = 32 is a power of two and is stepped over
    assert_eq!(NumberKeyMap::<u8>::greater_capacity(28), 33);
    assert_eq!(NumberKeyMap::<u8>::greater_capacity(56), 65);
    assert_eq!(NumberKeyMap::<u8>::greater_capacity(100), 114);
    // held at the greatest capacity there is
    assert_eq!(NumberKeyMap::<u8>::greater_capacity(usize::MAX), usize::MAX);
    assert_eq!(NumberKeyMap::<u8>::greater_capacity(usize::MAX - 1), usize::MAX);
    let large = usize::MAX / 8 * 7;
    assert_eq!(NumberKeyMap::<u8>::greater_capacity(large), large / 7 * 8);
}

#[test]
fn direct_index_is_key_mod_capacity() {
    assert_eq!(NumberKeyMap::<u8>::get_started_slot_idx_for_key(0, 1), 0);
    assert_eq!(NumberKeyMap::<u8>::get_started_slot_idx_for_key(17, 10), 7);
    assert_eq!(
        NumberKeyMap::<u8>::get_started_slot_idx_for_key(usize::MAX - 1, usize::MAX),
        usize::MAX - 1
    );
}

#[test]
fn validate_key_refuses_the_vacant_key_only() {
    assert!(NumberKeyMap::<u8>::validate_key(0));
    assert!(NumberKeyMap::<u8>::validate_key(usize::MAX - 1));
    assert!(!NumberKeyMap::<u8>::validate_key(usize::MAX));
    assert_eq!(VACANT_KEY, usize::MAX);
}

#[test]
fn collision_forces_a_resize_to_the_first_capacity_that_fits() {
    let mut m = NumberKeyMap::new();
    m.insert(0, 'a').unwrap();
    assert_eq!(m.capacity(), 1);
    // 4 % 1 == 0: the slot of key 0. The policy proposes 4, where 0 and 4
    // collide again, then 10, where they do not.
    m.insert(4, 'b').unwrap();
    assert_eq!(m.capacity(), 10);
    assert_eq!(m.get(0), Some(&'a'));
    assert_eq!(m.get(4), Some(&'b'));
    // 14 % 10 == 4: collides with key 4. 22 fits: 0, 4, 14.
    m.insert(14, 'c').unwrap();
    assert_eq!(m.capacity(), 22);
    // 3 has a free slot: no growth.
    m.insert(3, 'd').unwrap();
    assert_eq!(m.capacity(), 22);
    // 22 collides with 0 at 22, 25 fits (22 % 25 = 22).
    m.insert(22, 'e').unwrap();
    assert_eq!(m.capacity(), 25);
    for (k, v) in [(0, 'a'), (4, 'b'), (14, 'c'), (3, 'd'), (22, 'e')] {
        assert_eq!(m.get(k), Some(&v));
    }
}

#[test]
fn keys_that_are_multiples_of_the_capacity_stay_retrievable() {
    let mut m = NumberKeyMap::new();
    let mut caps = vec![m.capacity()];
    for i in 0..40usize {
        let key = i * 10;
        m.insert(key, key + 1).unwrap();
        assert!(m.capacity() >= *caps.last().unwrap());
        caps.push(m.capacity());
        for j in 0..=i {
            assert_eq!(m.get(j * 10), Some(&(j * 10 + 1)));
        }
    }
    assert!(m.capacity() > 1);
    // every key sits in the slot that one probe finds
    let cap = m.capacity();
    let listed: Vec<usize> = m.iter().into_iter().map(|(k, _)| k % cap).collect();
    for w in listed.windows(2) {
        assert!(w[0] < w[1]);
    }
    assert_eq!(listed.len(), 40);
}

#[test]
fn duplicate_is_rejected_without_growth_and_value_comes_back() {
    let mut m = NumberKeyMap::new();
    m.insert(7, String::from("first")).unwrap();
    m.insert(8, String::from("other")).unwrap();
    let cap = m.capacity();
    let back = m.insert(7, String::from("second"));
    assert_eq!(back, Err(String::from("second")));
    assert_eq!(m.get(7).map(|s| s.as_str()), Some("first"));
    assert_eq!(m.capacity(), cap);
}

#[test]
fn slow_insert_of_a_present_key_grows_and_rejects() {
    let mut m = NumberKeyMap::new();
    m.insert(0, 1u8).unwrap();
    m.insert(4, 2u8).unwrap();
    assert_eq!(m.capacity(), 10);
    assert_eq!(m.slow_insert(4, 9u8), Err(9u8));
    assert_eq!(m.capacity(), 22);
    assert_eq!(m.get(0), Some(&1));
    assert_eq!(m.get(4), Some(&2));
    assert_eq!(m.slow_insert(5, 3u8), Ok(()));
    assert_eq!(m.capacity(), 25);
    assert_eq!(m.get(5), Some(&3));
}

#[test]
fn remove_takes_only_the_key_that_matches() {
    let mut m = NumberKeyMap::new();
    m.insert(3, "three").unwrap();
    m.insert(5, "five").unwrap();
    let cap = m.capacity();
    // 3 + cap has the slot of 3 and is no key of the map
    assert_eq!(m.remove(3 + cap), None);
    assert_eq!(m.get(3), Some(&"three"));
    assert_eq!(m.remove(3), Some("three"));
    assert_eq!(m.remove(3), None);
    assert_eq!(m.get(3), None);
    assert_eq!(m.get(5), Some(&"five"));
    assert_eq!(m.capacity(), cap);
    // the freed slot takes a new key without growth
    m.insert(3 + cap, "again").unwrap();
    assert_eq!(m.capacity(), cap);
    assert_eq!(m.get(3 + cap), Some(&"again"));
}

#[test]
fn get_mut_changes_the_value_in_place() {
    let mut m = NumberKeyMap::new();
    m.insert(9, 1u32).unwrap();
    m.insert(10, 2u32).unwrap();
    *m.get_mut(9).unwrap() += 40;
    assert_eq!(m.get(9), Some(&41));
    assert_eq!(m.get(10), Some(&2));
    assert!(m.get_mut(11).is_none());
}

#[test]
fn clear_with_hands_over_every_pair_in_slot_order() {
    let mut m = NumberKeyMap::new();
    for k in [12usize, 1, 30, 7] {
        m.insert(k, k * 2).unwrap();
    }
    let cap = m.capacity();
    let expected: Vec<(usize, usize)> = m.iter().into_iter().map(|(k, v)| (k, *v)).collect();
    let seen = std::cell::RefCell::new(Vec::new());
    m.clear_with(|pair| seen.borrow_mut().push(pair));
    assert_eq!(*seen.borrow(), expected);
    assert_eq!(seen.borrow().len(), 4);
    assert_eq!(m.capacity(), cap);
    for k in [12usize, 1, 30, 7] {
        assert!(m.get(k).is_none());
    }
    assert!(m.iter().is_empty());
}

#[test]
fn capacity_never_decreases() {
    let mut m = NumberKeyMap::new();
    let mut last = m.capacity();
    for i in 0..200usize {
        let key = (i * 37) % 1009;
        let _ = m.insert(key, i);
        assert!(m.capacity() >= last);
        last = m.capacity();
        if i % 3 == 0 {
            let _ = m.remove((i * 11) % 1009);
            assert_eq!(m.capacity(), last);
        }
    }
    m.clear();
    assert_eq!(m.capacity(), last);
    let mut walk = m.drain();
    while walk.next().is_some() {}
    assert_eq!(m.capacity(), last);
}

#[test]
fn into_iter_walks_in_slot_order_and_drops_the_rest() {
    let drops = Rc::new(Cell::new(0));
    let mut m = NumberKeyMap::new();
    for i in 0..6usize {
        m.insert(i * 5, DropCounter(i, drops.clone())).unwrap();
    }
    let cap = m.capacity();
    let order: Vec<usize> = m.iter().into_iter().map(|(k, _)| k).collect();
    let mut walk = m.into_iter();
    let (k, v) = walk.next().unwrap();
    assert_eq!(k, order[0]);
    assert_eq!(v.0 * 5, k);
    assert!(order.windows(2).all(|w| w[0] % cap < w[1] % cap));
    drop(v);
    assert_eq!(drops.get(), 1);
    drop(walk);
    assert_eq!(drops.get(), 6);
}
