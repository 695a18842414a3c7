use vdw_simulation::ring_buffer::RingBuffer;

#[test]
fn push_evicts_the_oldest_once_full() {
    let mut b: RingBuffer<u32> = RingBuffer::with_capacity(3);
    assert_eq!(b.push(1), None);
    assert_eq!(b.push(2), None);
    assert_eq!(b.push(3), None);
    assert_eq!(b.len(), 3);
    assert_eq!(b.push(4), Some(1));
    assert_eq!(b.len(), 3);
    assert_eq!(b.elem(0), Some(&2));
    assert_eq!(b.elem(1), Some(&3));
    assert_eq!(b.elem(2), Some(&4));
    assert_eq!(b.elem(3), None);
    assert_eq!(b.peak(), Some(&4));
    assert_eq!(b.capacity(), 3);
}

#[test]
fn new_buffer_is_empty() {
    let b: RingBuffer<i64> = RingBuffer::with_capacity(5);
    assert_eq!(b.len(), 0);
    assert_eq!(b.capacity(), 5);
    assert_eq!(b.peak(), None);
    assert_eq!(b.elem(0), None);
    assert_eq!(b.iter().count(), 0);
}

#[test]
fn capacity_zero_hands_every_value_back() {
    let mut b: RingBuffer<u8> = RingBuffer::with_capacity(0);
    assert_eq!(b.push(7), Some(7));
    assert_eq!(b.push(8), Some(8));
    assert_eq!(b.len(), 0);
    assert_eq!(b.peak(), None);
}

#[test]
fn capacity_one_keeps_the_newest() {
    let mut b: RingBuffer<u8> = RingBuffer::with_capacity(1);
    assert_eq!(b.push(7), None);
    assert_eq!(b.push(8), Some(7));
    assert_eq!(b.push(9), Some(8));
    assert_eq!(b.len(), 1);
    assert_eq!(b.peak(), Some(&9));
}

#[test]
fn pop_takes_the_newest() {
    let mut b: RingBuffer<u32> = RingBuffer::with_capacity(4);
    assert_eq!(b.pop(), None);
    b.push(10);
    b.push(20);
    b.push(30);
    assert_eq!(b.pop(), Some(30));
    assert_eq!(b.len(), 2);
    assert_eq!(b.peak(), Some(&20));
    assert_eq!(b.pop(), Some(20));
    assert_eq!(b.pop(), Some(10));
    assert_eq!(b.pop(), None);
    assert_eq!(b.len(), 0);
}

#[test]
fn peak_mut_changes_only_the_newest() {
    let mut b: RingBuffer<u32> = RingBuffer::with_capacity(3);
    assert!(b.peak_mut().is_none());
    b.push(1);
    b.push(2);
    match b.peak_mut() {
        Some(v) => *v = 50,
        None => panic!("a buffer with two values has a newest one"),
    }
    assert_eq!(b.elem(0), Some(&1));
    assert_eq!(b.elem(1), Some(&50));
    assert_eq!(b.len(), 2);
}

#[test]
fn iter_runs_from_oldest_to_newest() {
    let mut b: RingBuffer<u32> = RingBuffer::with_capacity(3);
    for v in 1..=5u32 {
        b.push(v);
    }
    let seen: Vec<u32> = b.iter().copied().collect();
    assert_eq!(seen, vec![3, 4, 5]);
}

#[test]
fn iter_mut_changes_values_in_place() {
    let mut b: RingBuffer<u32> = RingBuffer::with_capacity(3);
    b.push(1);
    b.push(2);
    b.push(3);
    for v in b.iter_mut() {
        *v *= 10;
    }
    let seen: Vec<u32> = b.iter().copied().collect();
    assert_eq!(seen, vec![10, 20, 30]);
    assert_eq!(b.len(), 3);
    assert_eq!(b.capacity(), 3);
}

#[test]
fn clone_is_independent() {
    let mut b: RingBuffer<u32> = RingBuffer::with_capacity(2);
    b.push(1);
    let mut c = b.clone();
    c.push(2);
    assert_eq!(b.len(), 1);
    assert_eq!(c.len(), 2);
    assert_eq!(c.capacity(), 2);
}

#[test]
fn many_pushes_keep_the_latest_values() {
    let cap = 4usize;
    let mut b: RingBuffer<usize> = RingBuffer::with_capacity(cap);
    let mut pushed: Vec<usize> = Vec::new();
    for v in 0..11usize {
        let out = b.push(v * v);
        pushed.push(v * v);
        if pushed.len() > cap {
            assert_eq!(out, Some(pushed[pushed.len() - cap - 1]));
        } else {
            assert_eq!(out, None);
        }
        let from = pushed.len().saturating_sub(cap);
        let held: Vec<usize> = b.iter().copied().collect();
        assert_eq!(held, pushed[from..].to_vec());
    }
}

#[test]
fn running_sum_matches_fresh_sum_after_overflow() {
    let k = 8usize;
    let mut b: RingBuffer<f32> = RingBuffer::with_capacity(k);
    let mut running = 0.0f32;
    let mut all: Vec<f32> = Vec::new();
    for i in 0..(k + 5) {
        let v = 0.25f32 * (i as f32) + 1.0;
        running -= b.push(v).unwrap_or(0.0);
        running += v;
        all.push(v);
    }
    let fresh: f32 = b.iter().sum();
    assert!((running - fresh).abs() < 1e-4);
    let window = &all[all.len() - k..];
    let mean: f32 = window.iter().sum::<f32>() / (k as f32);
    assert_eq!(b.len(), k);
    assert!((running / (b.len() as f32) - mean).abs() < 1e-5);
    assert_eq!(b.elem(0), Some(&window[0]));
    assert_eq!(b.peak(), Some(&window[k - 1]));
}

#[test]
fn running_integer_sum_is_exact() {
    let mut b: RingBuffer<i64> = RingBuffer::with_capacity(3);
    let mut running: i64 = 0;
    for v in [5i64, -2, 9, 4, 4, -7, 1] {
        running -= b.push(v).unwrap_or(0);
        running += v;
        let fresh: i64 = b.iter().sum();
        assert_eq!(running, fresh);
    }
    assert_eq!(running, 4 - 7 + 1);
}
