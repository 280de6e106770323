use orengine_utils::ArrayBuffer;
use std::ops::DerefMut;

#[test]
fn test_array_buffer_pop_push_len() {
    let mut buffer = ArrayBuffer::<u32, 4>::new();

    buffer.push_unchecked(1);
    assert_eq!(buffer.len(), 1);
    assert_eq!((*buffer).len(), 1);

    buffer.push_unchecked(2);
    assert_eq!(buffer.len(), 2);
    assert_eq!((*buffer).len(), 2);

    buffer.push(3).unwrap();
    assert_eq!(buffer.len(), 3);
    assert_eq!(buffer.as_ref().len(), 3);

    assert_eq!(buffer.pop(), Some(3));
    assert_eq!(buffer.len(), 2);
    assert_eq!(buffer.as_mut().len(), 2);

    buffer.push_unchecked(4);
    assert_eq!(buffer.len(), 3);
    assert_eq!(buffer.deref_mut().len(), 3);

    buffer.push_unchecked(5);
    assert_eq!(buffer.len(), 4);
    assert_eq!(buffer.deref_mut().len(), 4);

    assert_eq!(buffer.push(6), Err(6));

    assert_eq!(buffer.pop(), Some(5));
    assert_eq!(buffer.pop(), Some(4));
    assert_eq!(buffer.pop(), Some(2));
    assert_eq!(buffer.pop(), Some(1));
    assert_eq!(buffer.pop(), None);
}

#[test]
fn test_array_buffer_iterators() {
    let mut buffer = ArrayBuffer::<u32, 4>::new();

    buffer.push_unchecked(1);
    buffer.push_unchecked(2);
    buffer.push_unchecked(3);
    buffer.push_unchecked(4);

    assert_eq!(buffer.iter().into_iter().collect::<Vec<_>>(), vec![&1, &2, &3, &4]);
    assert_eq!(
        buffer.iter_mut().into_iter().collect::<Vec<_>>(),
        vec![&mut 1, &mut 2, &mut 3, &mut 4]
    );
}

#[test]
fn array_buffer_starts_empty_with_its_capacity() {
    let buffer = ArrayBuffer::<String, 3>::new();
    assert_eq!(buffer.capacity(), 3);
    assert_eq!(buffer.len(), 0);
    assert!(buffer.is_empty());
    let by_default: ArrayBuffer<String, 3> = ArrayBuffer::default();
    assert!(by_default.is_empty());
}

#[test]
fn array_buffer_from_array_is_full() {
    let mut buffer = ArrayBuffer::from([10u8, 20, 30]);
    assert_eq!(buffer.len(), 3);
    assert_eq!(buffer.capacity(), 3);
    assert!(!buffer.is_empty());
    assert_eq!(buffer.push(40), Err(40));
    assert_eq!(&*buffer, &[10, 20, 30]);
    assert_eq!(buffer.pop(), Some(30));
}

#[test]
fn array_buffer_clear_with_goes_from_the_oldest() {
    let mut buffer = ArrayBuffer::<u32, 5>::new();
    for i in [3, 1, 4, 1] {
        buffer.push(i).unwrap();
    }
    let mut seen = Vec::new();
    buffer.clear_with(|x| seen.push(x));
    assert_eq!(seen, vec![3, 1, 4, 1]);
    assert!(buffer.is_empty());
    buffer.push(9).unwrap();
    buffer.clear();
    assert_eq!(buffer.len(), 0);
    assert_eq!(buffer.pop(), None);
}

#[test]
fn array_buffer_iter_mut_writes_through() {
    let mut buffer = ArrayBuffer::from([1u32, 2, 3]);
    for x in buffer.iter_mut() {
        *x += 10;
    }
    buffer[0] = 5;
    assert_eq!(buffer.as_ref(), &[5, 12, 13]);
}

#[test]
fn array_buffer_of_no_room_takes_nothing() {
    let mut buffer = ArrayBuffer::<u8, 0>::new();
    assert_eq!(buffer.push(1), Err(1));
    assert_eq!(buffer.pop(), None);
}
