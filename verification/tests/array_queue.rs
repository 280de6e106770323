use orengine_utils::ArrayQueue;

#[test]
fn test_array_queue() {
    let mut queue = ArrayQueue::<u32, 4>::new();

    queue.push_unchecked(1);
    assert_eq!(queue.len(), 1);

    queue.push_unchecked(2);
    assert_eq!(queue.len(), 2);

    queue.push(3).unwrap();
    assert_eq!(queue.len(), 3);

    assert_eq!(queue.pop(), Some(1));
    assert_eq!(queue.len(), 2);

    queue.push_unchecked(4);
    assert_eq!(queue.len(), 3);

    queue.push_unchecked(5);
    assert_eq!(queue.len(), 4);

    assert_eq!(queue.push(6), Err(6));

    assert_eq!(queue.pop(), Some(2));
    assert_eq!(queue.pop(), Some(3));
    assert_eq!(queue.pop(), Some(4));
    assert_eq!(queue.pop(), Some(5));
    assert_eq!(queue.pop(), None);
}

#[test]
fn test_array_queue_iterators() {
    let mut queue = ArrayQueue::<u32, 4>::new();

    queue.push_unchecked(1);
    queue.push_unchecked(2);
    queue.push_unchecked(3);
    queue.push_unchecked(4);

    assert_eq!(queue.iter().into_iter().collect::<Vec<_>>(), vec![&1, &2, &3, &4]);
    assert_eq!(
        queue.iter_mut().into_iter().collect::<Vec<_>>(),
        vec![&mut 1, &mut 2, &mut 3, &mut 4]
    );
}

#[test]
fn test_array_queue_extend_from_slice() {
    // --- CASE 1: without wraparound ---
    {
        let mut q = ArrayQueue::<usize, 8>::new();

        q.extend_from_slice(&[1, 2, 3]).unwrap();

        assert_eq!(q.len(), 3);

        assert_eq!(q.pop().unwrap(), 1);
        assert_eq!(q.pop().unwrap(), 2);
        assert_eq!(q.pop().unwrap(), 3);

        // With the updated head index

        q.extend_from_slice(&[1, 2, 3]).unwrap();

        assert_eq!(q.len(), 3);

        assert_eq!(q.pop().unwrap(), 1);
        assert_eq!(q.pop().unwrap(), 2);
        assert_eq!(q.pop().unwrap(), 3);
    }

    // --- CASE 2: wraparound ---
    {
        let mut q = ArrayQueue::<usize, 8>::new();

        q.extend_from_slice(&[1, 2, 3, 4, 5, 6, 7]).unwrap();

        q.pop().unwrap();
        q.pop().unwrap();
        q.pop().unwrap();
        q.pop().unwrap();

        assert_eq!(q.len(), 3);

        q.extend_from_slice(&[50, 51, 52, 53, 54]).unwrap();

        assert_eq!(q.len(), 8);

        let mut actual = Vec::new();
        while let Some(value) = q.pop() {
            actual.push(value);
        }

        assert_eq!(&actual, &[5, 6, 7, 50, 51, 52, 53, 54]);
    }

    // --- CASE 4: overflow → Err ---
    {
        let mut q = ArrayQueue::<usize, 4>::new();

        q.extend_from_slice(&[1, 2, 3]).unwrap();

        assert!(q.extend_from_slice(&[9, 9]).is_err());
        assert_eq!(q.len(), 3, "len must remain unchanged");
    }
}

#[test]
fn array_queue_starts_empty_with_its_capacity() {
    let queue = ArrayQueue::<String, 5>::new();
    assert_eq!(queue.capacity(), 5);
    assert_eq!(queue.len(), 0);
    assert!(queue.is_empty());
    assert_eq!(queue.to_physical_idx_from_head(0), 0);
    assert_eq!(queue.to_physical_idx_from_head(4), 4);
    assert_eq!(queue.to_physical_idx_from_head(5), 0);
    let by_default: ArrayQueue<String, 5> = ArrayQueue::default();
    assert!(by_default.is_empty());
}

#[test]
fn array_queue_physical_index_wraps_round_the_ring() {
    let mut queue = ArrayQueue::<u8, 4>::new();
    for i in 0..4 {
        queue.push(i).unwrap();
    }
    queue.pop().unwrap();
    queue.pop().unwrap();
    queue.pop().unwrap();
    // the head stands at cell 3
    assert_eq!(queue.to_physical_idx_from_head(0), 3);
    assert_eq!(queue.to_physical_idx_from_head(1), 0);
    assert_eq!(queue.to_physical_idx_from_head(2), 1);
    assert_eq!(queue.to_physical_idx_from_head(4), 3);
}

#[test]
fn array_queue_priority_values_go_to_the_front() {
    let mut queue = ArrayQueue::<u32, 3>::new();

    queue.push_priority_value(1).unwrap(); // [1, _, _]
    queue.push(2).unwrap(); // [1, 2, _]
    queue.push_priority_value(3).unwrap(); // [3, 1, 2]
    assert_eq!(queue.push_priority_value(4), Err(4));

    assert_eq!(queue.pop(), Some(3));
    assert_eq!(queue.pop(), Some(1));
    assert_eq!(queue.pop(), Some(2));
    assert_eq!(queue.pop(), None);
}

#[test]
fn array_queue_pops_at_the_back_too() {
    let mut queue = ArrayQueue::<u32, 3>::new();

    queue.push(1).unwrap();
    queue.push(2).unwrap();
    queue.push(3).unwrap();

    assert_eq!(queue.pop_less_priority_value(), Some(3));
    assert_eq!(queue.pop(), Some(1));
    assert_eq!(queue.pop(), Some(2));
    assert_eq!(queue.pop_less_priority_value(), None);
}

#[test]
fn array_queue_as_slices_splits_at_the_end_of_the_ring() {
    let mut queue = ArrayQueue::<u32, 4>::new();

    assert_eq!(queue.as_slices(), (vec![], vec![]));

    queue.push(1).unwrap();
    queue.push(2).unwrap();

    assert_eq!(queue.as_slices(), (vec![&1, &2], vec![]));

    queue.push(3).unwrap();
    queue.push(4).unwrap();

    assert_eq!(queue.pop(), Some(1));
    assert_eq!(queue.pop(), Some(2));

    queue.push(5).unwrap();

    assert_eq!(queue.as_slices(), (vec![&3, &4], vec![&5]));

    queue.push(6).unwrap();
    assert_eq!(queue.as_slices(), (vec![&3, &4], vec![&5, &6]));
}

#[test]
fn array_queue_as_mut_slices_writes_through() {
    let mut queue = ArrayQueue::from([1u32, 2, 3, 4]);
    queue.pop().unwrap();
    queue.pop().unwrap();
    queue.push(5).unwrap();
    {
        let (first, second) = queue.as_mut_slices();
        assert_eq!(first.len(), 2);
        assert_eq!(second.len(), 1);
        for x in first {
            *x *= 10;
        }
        for x in second {
            *x += 1;
        }
    }
    assert_eq!(queue.iter(), vec![&30, &40, &6]);
}

#[test]
fn array_queue_inc_head_and_dec_len() {
    let mut queue = ArrayQueue::from([1u32, 2, 3, 4]);

    queue.pop().unwrap();
    queue.push(5).unwrap();
    assert_eq!(queue.iter(), vec![&2, &3, &4, &5]);

    queue.inc_head_by(3);
    assert_eq!(queue.len(), 1);
    assert_eq!(queue.iter(), vec![&5]);
    assert_eq!(queue.to_physical_idx_from_head(0), 0);

    let mut queue = ArrayQueue::from([1u32, 2, 3, 4]);
    queue.pop().unwrap();
    queue.pop().unwrap();
    queue.push(5).unwrap();
    queue.push(6).unwrap();
    queue.dec_len_by(2);
    assert_eq!(queue.iter(), vec![&3, &4]);
    assert_eq!(queue.len(), 2);
}

#[test]
fn array_queue_clear_with_goes_from_the_first() {
    let mut queue = ArrayQueue::<u32, 4>::new();
    for i in 1..=4 {
        queue.push(i).unwrap();
    }
    queue.pop().unwrap();
    queue.push(5).unwrap();
    let mut seen = Vec::new();
    queue.clear_with(|x| seen.push(x));
    assert_eq!(seen, vec![2, 3, 4, 5]);
    assert!(queue.is_empty());
    // the head stays where it was
    assert_eq!(queue.to_physical_idx_from_head(0), 1);
    queue.push(7).unwrap();
    assert_eq!(queue.pop(), Some(7));
    queue.push(8).unwrap();
    queue.clear();
    assert_eq!(queue.len(), 0);
    assert_eq!(queue.pop(), None);
}

#[test]
fn array_queue_iter_mut_writes_through_in_queue_order() {
    let mut queue = ArrayQueue::from([1u32, 2, 3]);
    queue.pop().unwrap();
    queue.push(4).unwrap();
    for (i, x) in queue.iter_mut().into_iter().enumerate() {
        *x += 100 * i as u32;
    }
    assert_eq!(queue.pop(), Some(2));
    assert_eq!(queue.pop(), Some(103));
    assert_eq!(queue.pop(), Some(204));
}

#[test]
fn array_queue_from_array_is_full() {
    let mut queue = ArrayQueue::from([7u8, 8]);
    assert_eq!(queue.len(), 2);
    assert_eq!(queue.push(9), Err(9));
    assert_eq!(queue.pop(), Some(7));
    assert_eq!(queue.pop(), Some(8));
}

#[test]
fn array_queue_of_no_room_takes_nothing() {
    let mut queue = ArrayQueue::<u8, 0>::new();
    assert_eq!(queue.push(1), Err(1));
    assert_eq!(queue.push_priority_value(1), Err(1));
    assert_eq!(queue.pop(), None);
    assert!(queue.extend_from_slice(&[1]).is_err());
    assert!(queue.extend_from_slice(&[]).is_ok());
}

#[test]
fn not_enough_space_says_so() {
    let mut queue = ArrayQueue::<u8, 1>::new();
    let err = queue.extend_from_slice(&[1, 2]).unwrap_err();
    assert_eq!(err.message(), "Not enough space");
}
