use ringbuffer::RingBufferU;

struct ZST;

#[derive(Debug, PartialEq)]
struct Token(u32);

#[test]
fn ringbufferu_push_pop_test() {
    let mut rb = RingBufferU::with_capacity(2);
    assert_eq!(rb.pop(), None);
    rb.push(3);
    assert_eq!(rb.pop(), Some(3));
    assert_eq!(rb.pop(), None);
}

#[test]
fn ringbufferu_overwrite_test() {
    let mut rb = RingBufferU::with_capacity(3);
    rb.push(1);
    rb.push(2);
    rb.push(3);
    rb.push(4);
    assert_eq!(rb.pop(), Some(2));
    assert_eq!(rb.pop(), Some(3));
    assert_eq!(rb.pop(), Some(4));
}

#[test]
fn ringbufferu_iter_test() {
    let mut rb = RingBufferU::with_capacity(7);
    for i in 0..7 {
        rb.push(i)
    }
    assert_eq!(rb.pop(), Some(0));
    assert_eq!(rb.pop(), Some(1));
    rb.push(7);
    let mut it = rb.into_iter();
    assert_eq!(
        Vec::from_iter(std::iter::from_fn(|| it.next())),
        vec![2, 3, 4, 5, 6, 7]
    );
}

#[test]
fn ringbufferu_zero_sized_types_test() {
    let mut rb = RingBufferU::with_capacity(3);
    rb.push(ZST {});
    rb.push(ZST {});
    rb.push(ZST {});
    rb.pop();
    assert_eq!(rb.capacity(), usize::MAX);
    let mut it = rb.into_iter();
    assert_eq!(Vec::from_iter(std::iter::from_fn(|| it.next())).len(), 2);
}

#[test]
fn ringbufferu_fifo_within_capacity() {
    let mut rb = RingBufferU::with_capacity(5);
    for i in 10..15 {
        rb.push(i);
    }
    for i in 10..15 {
        assert_eq!(rb.pop(), Some(i));
    }
    assert_eq!(rb.pop(), None);
}

#[test]
fn ringbufferu_capacity_never_changes() {
    let mut rb = RingBufferU::with_capacity(4);
    assert_eq!(rb.capacity(), 4);
    for i in 0..9 {
        rb.push(i);
        assert_eq!(rb.capacity(), 4);
    }
    rb.pop();
    rb.pop();
    assert_eq!(rb.capacity(), 4);
}

#[test]
fn ringbufferu_pop_on_empty_keeps_buffer_usable() {
    let mut rb = RingBufferU::with_capacity(2);
    assert_eq!(rb.pop(), None);
    assert_eq!(rb.pop(), None);
    rb.push(5);
    rb.push(6);
    rb.push(7);
    assert_eq!(rb.pop(), Some(6));
    assert_eq!(rb.pop(), Some(7));
    assert_eq!(rb.pop(), None);
}

#[test]
fn ringbufferu_size_follows_pushes_and_pops() {
    let mut rb = RingBufferU::with_capacity(3);
    for i in 0..5 {
        rb.push(i);
    }
    rb.pop();
    let v = rb.into_iter().collect_vec();
    assert_eq!(v.len(), 2);
    assert_eq!(v, vec![3, 4]);
}

#[test]
fn ringbufferu_capacity_zero_keeps_nothing() {
    let mut rb = RingBufferU::with_capacity(0);
    assert_eq!(rb.capacity(), 0);
    rb.push(1);
    rb.push(2);
    assert_eq!(rb.pop(), None);
}

#[test]
fn ringbufferu_capacity_one_keeps_last() {
    let mut rb = RingBufferU::with_capacity(1);
    rb.push(1);
    rb.push(2);
    rb.push(3);
    assert_eq!(rb.pop(), Some(3));
    assert_eq!(rb.pop(), None);
}

#[test]
fn ringbufferu_wrap_around_many_times() {
    let mut rb = RingBufferU::with_capacity(3);
    for i in 0..100u32 {
        rb.push(i);
        if i % 2 == 0 {
            rb.pop();
        }
    }
    assert_eq!(rb.into_iter().collect_vec(), vec![97, 98, 99]);
}

#[test]
fn ringbufferu_collect_reproduces_contents() {
    let mut rb = RingBufferU::with_capacity(4);
    for i in 0..6 {
        rb.push(Token(i));
    }
    assert_eq!(rb.into_iter().collect_vec(), vec![Token(2), Token(3), Token(4), Token(5)]);
}

#[test]
fn ringbufferu_iterator_ends_and_stays_ended() {
    let mut rb = RingBufferU::with_capacity(2);
    rb.push(1);
    let mut it = rb.into_iter();
    assert_eq!(it.next(), Some(1));
    assert_eq!(it.next(), None);
    assert_eq!(it.next(), None);
}

#[test]
fn ringbufferu_zero_sized_never_evicts() {
    let mut rb = RingBufferU::with_capacity(2);
    for _ in 0..1000 {
        rb.push(());
    }
    assert_eq!(rb.capacity(), usize::MAX);
    assert_eq!(rb.into_iter().collect_vec().len(), 1000);
}
