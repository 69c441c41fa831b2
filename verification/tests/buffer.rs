use circular_buffer::{CircularBuffer, Error};

#[test]
fn read_from_new_buffer_reports_empty() {
    for capacity in 1..=8 {
        let mut buffer: CircularBuffer<i32> = CircularBuffer::new(capacity);
        assert_eq!(buffer.read(), Err(Error::EmptyBuffer));
    }
}

#[test]
fn read_from_empty_buffer_keeps_reporting_empty() {
    let mut buffer: CircularBuffer<i32> = CircularBuffer::new(2);
    assert_eq!(buffer.read(), Err(Error::EmptyBuffer));
    assert_eq!(buffer.read(), Err(Error::EmptyBuffer));
    assert_eq!(buffer.write(7), Ok(()));
    assert_eq!(buffer.read(), Ok(7));
}

#[test]
fn write_then_read_single_element() {
    let mut buffer = CircularBuffer::new(1);
    assert_eq!(buffer.write(1), Ok(()));
    assert_eq!(buffer.read(), Ok(1));
    assert_eq!(buffer.read(), Err(Error::EmptyBuffer));
}

#[test]
fn buffer_takes_as_many_writes_as_it_has_slots() {
    for capacity in 1..=8usize {
        let mut buffer: CircularBuffer<usize> = CircularBuffer::new(capacity);
        for element in 0..capacity {
            assert_eq!(buffer.write(element), Ok(()));
        }
        assert_eq!(buffer.write(capacity), Err((Error::FullBuffer, capacity)));
        for element in 0..capacity {
            assert_eq!(buffer.read(), Ok(element));
        }
        assert_eq!(buffer.read(), Err(Error::EmptyBuffer));
    }
}

#[test]
fn failed_write_changes_nothing() {
    let mut buffer = CircularBuffer::new(2);
    assert_eq!(buffer.write('a'), Ok(()));
    assert_eq!(buffer.write('b'), Ok(()));
    assert_eq!(buffer.write('c'), Err((Error::FullBuffer, 'c')));
    assert_eq!(buffer.write('d'), Err((Error::FullBuffer, 'd')));
    assert_eq!(buffer.read(), Ok('a'));
    assert_eq!(buffer.read(), Ok('b'));
    assert_eq!(buffer.read(), Err(Error::EmptyBuffer));
}

#[test]
fn elements_come_out_in_the_order_written() {
    let mut buffer = CircularBuffer::new(5);
    for element in [10, 20, 30, 40] {
        assert_eq!(buffer.write(element), Ok(()));
    }
    assert_eq!(buffer.read(), Ok(10));
    assert_eq!(buffer.read(), Ok(20));
    assert_eq!(buffer.read(), Ok(30));
    assert_eq!(buffer.read(), Ok(40));
    assert_eq!(buffer.read(), Err(Error::EmptyBuffer));
}

#[test]
fn alternating_write_and_read_goes_round() {
    for capacity in 1..=6usize {
        let mut buffer: CircularBuffer<usize> = CircularBuffer::new(capacity);
        for element in 0..capacity + 5 {
            assert_eq!(buffer.write(element), Ok(()));
            assert_eq!(buffer.read(), Ok(element));
        }
        assert_eq!(buffer.read(), Err(Error::EmptyBuffer));
    }
}

#[test]
fn read_frees_a_slot_for_the_next_write() {
    let mut buffer = CircularBuffer::new(3);
    assert_eq!(buffer.write(1), Ok(()));
    assert_eq!(buffer.write(2), Ok(()));
    assert_eq!(buffer.write(3), Ok(()));
    assert_eq!(buffer.read(), Ok(1));
    assert_eq!(buffer.write(4), Ok(()));
    assert_eq!(buffer.write(5), Err((Error::FullBuffer, 5)));
    assert_eq!(buffer.read(), Ok(2));
    assert_eq!(buffer.read(), Ok(3));
    assert_eq!(buffer.read(), Ok(4));
    assert_eq!(buffer.read(), Err(Error::EmptyBuffer));
}

#[test]
fn partly_filled_buffer_goes_round_in_order() {
    let mut buffer = CircularBuffer::new(4);
    let mut next_written = 0;
    let mut next_read = 0;
    for _ in 0..10 {
        for _ in 0..3 {
            assert_eq!(buffer.write(next_written), Ok(()));
            next_written += 1;
        }
        for _ in 0..3 {
            assert_eq!(buffer.read(), Ok(next_read));
            next_read += 1;
        }
    }
    assert_eq!(buffer.read(), Err(Error::EmptyBuffer));
}

#[test]
fn overwrite_with_a_free_slot_is_a_write() {
    let mut buffer = CircularBuffer::new(2);
    assert_eq!(buffer.write(1), Ok(()));
    buffer.overwrite(2);
    assert_eq!(buffer.write(3), Err((Error::FullBuffer, 3)));
    assert_eq!(buffer.read(), Ok(1));
    assert_eq!(buffer.read(), Ok(2));
    assert_eq!(buffer.read(), Err(Error::EmptyBuffer));
}

#[test]
fn overwrite_on_empty_buffer_stores_the_element() {
    let mut buffer = CircularBuffer::new(3);
    buffer.overwrite(9);
    assert_eq!(buffer.read(), Ok(9));
    assert_eq!(buffer.read(), Err(Error::EmptyBuffer));
}

#[test]
fn overwrite_on_full_buffer_drops_the_oldest() {
    for capacity in 1..=6usize {
        let mut buffer: CircularBuffer<usize> = CircularBuffer::new(capacity);
        for element in 1..=capacity {
            assert_eq!(buffer.write(element), Ok(()));
        }
        buffer.overwrite(100);
        for element in 2..=capacity {
            assert_eq!(buffer.read(), Ok(element));
        }
        assert_eq!(buffer.read(), Ok(100));
        assert_eq!(buffer.read(), Err(Error::EmptyBuffer));
    }
}

#[test]
fn overwrite_on_full_buffer_keeps_it_full() {
    let mut buffer = CircularBuffer::new(2);
    assert_eq!(buffer.write(1), Ok(()));
    assert_eq!(buffer.write(2), Ok(()));
    buffer.overwrite(3);
    assert_eq!(buffer.write(4), Err((Error::FullBuffer, 4)));
    assert_eq!(buffer.read(), Ok(2));
    assert_eq!(buffer.read(), Ok(3));
    assert_eq!(buffer.read(), Err(Error::EmptyBuffer));
}

#[test]
fn repeated_overwrite_keeps_the_newest_elements() {
    let mut buffer = CircularBuffer::new(3);
    for element in 1..=10 {
        buffer.overwrite(element);
    }
    assert_eq!(buffer.read(), Ok(8));
    assert_eq!(buffer.read(), Ok(9));
    assert_eq!(buffer.read(), Ok(10));
    assert_eq!(buffer.read(), Err(Error::EmptyBuffer));
}

#[test]
fn write_after_overwrite_and_read_lands_behind_the_newest() {
    let mut buffer = CircularBuffer::new(3);
    assert_eq!(buffer.write(1), Ok(()));
    assert_eq!(buffer.write(2), Ok(()));
    assert_eq!(buffer.write(3), Ok(()));
    buffer.overwrite(4);
    assert_eq!(buffer.read(), Ok(2));
    assert_eq!(buffer.write(5), Ok(()));
    assert_eq!(buffer.write(6), Err((Error::FullBuffer, 6)));
    assert_eq!(buffer.read(), Ok(3));
    assert_eq!(buffer.read(), Ok(4));
    assert_eq!(buffer.read(), Ok(5));
    assert_eq!(buffer.read(), Err(Error::EmptyBuffer));
}

#[test]
fn overwrite_after_reads_on_a_wrapped_buffer() {
    let mut buffer = CircularBuffer::new(3);
    assert_eq!(buffer.write(1), Ok(()));
    assert_eq!(buffer.write(2), Ok(()));
    assert_eq!(buffer.read(), Ok(1));
    assert_eq!(buffer.write(3), Ok(()));
    assert_eq!(buffer.write(4), Ok(()));
    buffer.overwrite(5);
    buffer.overwrite(6);
    assert_eq!(buffer.read(), Ok(4));
    assert_eq!(buffer.read(), Ok(5));
    assert_eq!(buffer.read(), Ok(6));
    assert_eq!(buffer.read(), Err(Error::EmptyBuffer));
}

#[test]
fn clear_empties_the_buffer() {
    let mut buffer = CircularBuffer::new(3);
    assert_eq!(buffer.write(1), Ok(()));
    assert_eq!(buffer.write(2), Ok(()));
    buffer.clear();
    assert_eq!(buffer.read(), Err(Error::EmptyBuffer));
}

#[test]
fn clear_keeps_the_capacity() {
    for capacity in 1..=6usize {
        let mut buffer: CircularBuffer<usize> = CircularBuffer::new(capacity);
        for element in 0..capacity {
            assert_eq!(buffer.write(element), Ok(()));
        }
        assert_eq!(buffer.read(), Ok(0));
        buffer.clear();
        assert_eq!(buffer.read(), Err(Error::EmptyBuffer));
        for element in 0..capacity {
            assert_eq!(buffer.write(element + 50), Ok(()));
        }
        assert_eq!(buffer.write(99), Err((Error::FullBuffer, 99)));
        for element in 0..capacity {
            assert_eq!(buffer.read(), Ok(element + 50));
        }
        assert_eq!(buffer.read(), Err(Error::EmptyBuffer));
    }
}

#[test]
fn clear_on_empty_buffer_changes_nothing() {
    let mut buffer: CircularBuffer<i32> = CircularBuffer::new(2);
    buffer.clear();
    assert_eq!(buffer.read(), Err(Error::EmptyBuffer));
    assert_eq!(buffer.write(1), Ok(()));
    assert_eq!(buffer.write(2), Ok(()));
    assert_eq!(buffer.write(3), Err((Error::FullBuffer, 3)));
}

#[test]
fn clearing_twice_is_clearing_once() {
    let mut once = CircularBuffer::new(3);
    let mut twice = CircularBuffer::new(3);
    for element in [1, 2, 3] {
        assert_eq!(once.write(element), Ok(()));
        assert_eq!(twice.write(element), Ok(()));
    }
    assert_eq!(once.read(), Ok(1));
    assert_eq!(twice.read(), Ok(1));
    once.clear();
    twice.clear();
    twice.clear();
    assert_eq!(once.read(), Err(Error::EmptyBuffer));
    assert_eq!(twice.read(), Err(Error::EmptyBuffer));
    for element in [4, 5, 6] {
        assert_eq!(once.write(element), Ok(()));
        assert_eq!(twice.write(element), Ok(()));
    }
    assert_eq!(once.write(7), Err((Error::FullBuffer, 7)));
    assert_eq!(twice.write(7), Err((Error::FullBuffer, 7)));
    for element in [4, 5, 6] {
        assert_eq!(once.read(), Ok(element));
        assert_eq!(twice.read(), Ok(element));
    }
}

#[test]
fn full_then_overwrite_then_drain() {
    let mut buffer = CircularBuffer::new(3);
    assert_eq!(buffer.write(1), Ok(()));
    assert_eq!(buffer.write(2), Ok(()));
    assert_eq!(buffer.write(3), Ok(()));
    assert_eq!(buffer.write(4), Err((Error::FullBuffer, 4)));
    buffer.overwrite(4);
    assert_eq!(buffer.read(), Ok(2));
    assert_eq!(buffer.read(), Ok(3));
    assert_eq!(buffer.read(), Ok(4));
    assert_eq!(buffer.read(), Err(Error::EmptyBuffer));
}

#[test]
fn buffer_without_slots_is_full_and_empty() {
    let mut buffer: CircularBuffer<i32> = CircularBuffer::new(0);
    assert_eq!(buffer.write(1), Err((Error::FullBuffer, 1)));
    assert_eq!(buffer.read(), Err(Error::EmptyBuffer));
    buffer.clear();
    assert_eq!(buffer.write(2), Err((Error::FullBuffer, 2)));
    assert_eq!(buffer.read(), Err(Error::EmptyBuffer));
}

#[test]
fn overwrite_on_buffer_without_slots_does_nothing() {
    let mut buffer: CircularBuffer<i32> = CircularBuffer::new(0);
    buffer.overwrite(1);
    buffer.overwrite(2);
    assert_eq!(buffer.read(), Err(Error::EmptyBuffer));
    assert_eq!(buffer.write(3), Err((Error::FullBuffer, 3)));
}

#[test]
fn error_kinds_are_distinct() {
    assert_ne!(Error::EmptyBuffer, Error::FullBuffer);
    assert_eq!(format!("{:?}", Error::EmptyBuffer), "EmptyBuffer");
    assert_eq!(format!("{:?}", Error::FullBuffer), "FullBuffer");
}
