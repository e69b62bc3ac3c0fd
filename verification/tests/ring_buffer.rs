use mfl_audit::ringbuf::RingBuffer;

#[derive(Copy, Clone, Debug, PartialEq, Eq)]
struct Payload {
    id: u32,
    val: u64,
}

#[test]
fn spsc_basic() {
    let mut rb = RingBuffer::<u32>::new(8);
    assert!(rb.is_empty());
    assert!(rb.dequeue().is_none());
    assert!(rb.enqueue(42));
    assert_eq!(rb.len(), 1);
    assert_eq!(rb.dequeue(), Some(42));
    assert!(rb.is_empty());
}

#[test]
fn capacity_rounds_up_to_a_power_of_two() {
    assert_eq!(RingBuffer::<u8>::new(0).capacity(), 2);
    assert_eq!(RingBuffer::<u8>::new(1).capacity(), 2);
    assert_eq!(RingBuffer::<u8>::new(2).capacity(), 2);
    assert_eq!(RingBuffer::<u8>::new(5).capacity(), 8);
    assert_eq!(RingBuffer::<u8>::new(8).capacity(), 8);
    assert_eq!(RingBuffer::<u8>::new(9).capacity(), 16);
    assert_eq!(RingBuffer::<u8>::new(1000).capacity(), 1024);
}

#[test]
fn full_buffer_refuses_and_keeps_contents() {
    let mut rb = RingBuffer::<u32>::new(4);
    for i in 0..4 {
        assert!(rb.enqueue(i));
    }
    assert_eq!(rb.len(), 4);
    assert!(!rb.enqueue(99));
    assert_eq!(rb.len(), 4);
    for i in 0..4 {
        assert_eq!(rb.dequeue(), Some(i));
    }
    assert!(rb.dequeue().is_none());
}

#[test]
fn spsc_sequencing_interleaved() {
    let mut rb = RingBuffer::<Payload>::new(16);
    const N: u32 = 100_000;
    let mut next = 0u32;
    let mut seen = Vec::with_capacity(N as usize);
    while seen.len() < N as usize {
        // Produce in bursts that wrap around the buffer, then drain some.
        for _ in 0..11 {
            if next < N {
                let p = Payload { id: next, val: next as u64 * 2 };
                if rb.enqueue(p) {
                    next += 1;
                }
            }
        }
        for _ in 0..7 {
            if let Some(p) = rb.dequeue() {
                seen.push(p);
            }
        }
        if next == N {
            while let Some(p) = rb.dequeue() {
                seen.push(p);
            }
        }
    }
    assert_eq!(seen.len() as u32, N);
    for (i, p) in seen.iter().enumerate() {
        assert_eq!(p.id, i as u32);
        assert_eq!(p.val, (i as u64) * 2);
    }
}

#[test]
fn fifo_round_trip_on_empty_buffer() {
    let mut rb = RingBuffer::<i64>::new(3);
    let items = [5i64, -7, 11, 0];
    for &x in &items {
        assert!(rb.enqueue(x));
    }
    let mut out = Vec::new();
    while let Some(x) = rb.dequeue() {
        out.push(x);
    }
    assert_eq!(out, items.to_vec());
    assert!(rb.is_empty());
}
