use ringbuf_rs::{mask_modulo, push_decimal, Buffer, RingBuffer, RingBufferError};

#[test]
fn test_full_and_empty() {
    let mut buffer: RingBuffer<u32, 10> = RingBuffer::new();

    for i in 1..12 {
        buffer.push(i);
    }

    assert!(buffer.is_full());

    for _ in 1..11 {
        buffer.get();
    }

    assert!(buffer.is_empty());
}

#[test]
fn test_buffer_overflow() {
    let mut buffer: RingBuffer<u32, 5> = RingBuffer::new();

    for i in 1..7 {
        buffer.push(i);
    }

    assert_eq!(
        buffer.get(),
        Some(2),
        "Buffer's latest read ptr should be at 2"
    )
}

#[test]
fn eleventh_insert_evicts_first() {
    let mut buffer: RingBuffer<u32, 10> = RingBuffer::new();
    for i in 1..11 {
        assert_eq!(buffer.push(i), None);
    }
    assert!(buffer.is_full());
    assert_eq!(buffer.push(11), Some(1));
    assert!(buffer.is_full());
    for expected in 2..12 {
        assert_eq!(buffer.get(), Some(expected));
    }
    assert!(buffer.is_empty());
    assert_eq!(buffer.get(), None);
}

#[test]
fn sixth_insert_evicts_first() {
    let mut buffer: RingBuffer<u32, 5> = RingBuffer::new();
    for i in 1..6 {
        assert_eq!(buffer.push(i), None);
    }
    assert_eq!(buffer.push(6), Some(1));
    assert_eq!(buffer.get(), Some(2));
}

#[test]
fn capacity_three_wraps() {
    let mut buffer: RingBuffer<u32, 3> = RingBuffer::new();
    assert_eq!(buffer.push(1), None);
    assert_eq!(buffer.push(2), None);
    assert_eq!(buffer.push(3), None);
    assert_eq!(buffer.push(4), Some(1));
    assert_eq!(buffer.get(), Some(2));
    assert_eq!(buffer.get(), Some(3));
    assert_eq!(buffer.get(), Some(4));
    assert_eq!(buffer.get(), None);
}

#[test]
fn capacity_one_evicts_each_time() {
    let mut buffer: RingBuffer<char, 1> = RingBuffer::new();
    assert_eq!(buffer.push('a'), None);
    assert!(buffer.is_full());
    assert_eq!(buffer.push('b'), Some('a'));
    assert_eq!(buffer.get(), Some('b'));
    assert!(buffer.is_empty());
    assert_eq!(buffer.get(), None);
}

#[test]
fn fill_then_drain_keeps_order() {
    let values = [17u64, 4, 99, 23, 8, 61, 5];
    let mut buffer: RingBuffer<u64, 7> = RingBuffer::new();
    for v in values {
        assert_eq!(buffer.push(v), None);
    }
    assert!(buffer.is_full());
    for v in values {
        assert_eq!(buffer.get(), Some(v));
    }
    assert!(buffer.is_empty());
}

#[test]
fn interleaved_calls_stay_first_in_first_out() {
    let mut buffer: RingBuffer<i32, 3> = RingBuffer::new();
    let mut handed_back = Vec::new();
    let ops: [Option<i32>; 10] = [
        Some(1),
        Some(2),
        None,
        Some(3),
        Some(4),
        Some(5),
        None,
        Some(6),
        None,
        None,
    ];
    for op in ops {
        let out = match op {
            Some(v) => buffer.push(v),
            None => buffer.get(),
        };
        if let Some(v) = out {
            handed_back.push(v);
        }
    }
    while let Some(v) = buffer.get() {
        handed_back.push(v);
    }
    assert_eq!(handed_back, vec![1, 2, 3, 4, 5, 6]);
}

#[test]
fn removing_from_empty_changes_nothing() {
    let mut buffer: RingBuffer<u8, 4> = RingBuffer::new();
    buffer.push(7);
    buffer.push(8);
    assert_eq!(buffer.get(), Some(7));
    assert_eq!(buffer.get(), Some(8));
    let before = buffer.debug_string();
    for _ in 0..5 {
        assert_eq!(buffer.get(), None);
        assert!(buffer.is_empty());
        assert_eq!(buffer.debug_string(), before);
    }
    assert_eq!(before, "RingBuffer { len: 0, writeptr: 2, readptr: 2 }");
}

#[test]
fn count_moves_by_one_at_most() {
    let mut buffer: RingBuffer<u32, 2> = RingBuffer::new();
    assert!(buffer.is_empty() && !buffer.is_full());
    buffer.push(1);
    assert!(!buffer.is_empty() && !buffer.is_full());
    buffer.push(2);
    assert!(buffer.is_full());
    buffer.push(3);
    assert!(buffer.is_full());
    buffer.get();
    assert!(!buffer.is_empty() && !buffer.is_full());
    buffer.get();
    assert!(buffer.is_empty());
}

#[test]
fn debug_string_of_new_buffer() {
    let buffer: RingBuffer<u32, 3> = RingBuffer::new();
    assert_eq!(buffer.debug_string(), "RingBuffer { len: 0, writeptr: 0, readptr: 0 }");
}

#[test]
fn debug_string_after_wraparound() {
    let mut buffer: RingBuffer<u32, 3> = RingBuffer::new();
    for i in 1..5 {
        buffer.push(i);
    }
    assert_eq!(buffer.debug_string(), "RingBuffer { len: 3, writeptr: 1, readptr: 1 }");
    buffer.get();
    assert_eq!(buffer.debug_string(), "RingBuffer { len: 2, writeptr: 1, readptr: 2 }");
}

#[test]
fn debug_string_with_two_digit_count() {
    let mut buffer: RingBuffer<u32, 12> = RingBuffer::new();
    for i in 0..12 {
        buffer.push(i);
    }
    assert_eq!(buffer.debug_string(), "RingBuffer { len: 12, writeptr: 0, readptr: 0 }");
}

#[test]
fn decimal_digits_are_written_in_order() {
    let mut s = String::from("n=");
    push_decimal(&mut s, 1230);
    assert_eq!(s, "n=1230");
    let mut z = String::new();
    push_decimal(&mut z, 0);
    assert_eq!(z, "0");
    let mut m = String::new();
    push_decimal(&mut m, usize::MAX);
    assert_eq!(m, usize::MAX.to_string());
}

#[test]
fn mask_modulo_wraps() {
    assert_eq!(mask_modulo(0, 5), 0);
    assert_eq!(mask_modulo(4, 5), 4);
    assert_eq!(mask_modulo(5, 5), 0);
    assert_eq!(mask_modulo(13, 5), 3);
}

#[test]
fn zero_capacity_is_refused() {
    let r = RingBuffer::<u32, 0>::try_new();
    assert!(matches!(r, Err(RingBufferError::InvalidCapacity)));
}

#[test]
fn positive_capacity_builds_empty_buffer() {
    let r = RingBuffer::<u32, 4>::try_new();
    match r {
        Ok(b) => {
            assert!(b.is_empty());
            assert_eq!(b.debug_string(), "RingBuffer { len: 0, writeptr: 0, readptr: 0 }");
        }
        Err(_) => panic!("a buffer of capacity four should build"),
    }
}
