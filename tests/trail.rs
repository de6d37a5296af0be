use gravity_sim::trail::Trail;

fn points<P: Copy>(t: &Trail<P>) -> Vec<P> {
    t.points.iter().copied().collect()
}

#[test]
fn new_trail_is_empty() {
    let t: Trail<(f32, f32)> = Trail::new(30);
    assert_eq!(t.len(), 0);
    assert_eq!(t.length, 30);
}

#[test]
fn record_below_capacity_keeps_everything() {
    let mut t = Trail::new(4);
    t.record(1u32);
    t.record(2u32);
    t.record(3u32);
    assert_eq!(points(&t), vec![1, 2, 3]);
}

#[test]
fn record_at_capacity_drops_oldest() {
    let mut t = Trail::new(3);
    for tick in 1..=5u32 {
        t.record(tick);
    }
    assert_eq!(t.len(), 3);
    assert_eq!(points(&t), vec![3, 4, 5]);
}

#[test]
fn trail_bound_after_many_ticks() {
    // after N > capacity ticks the trail holds exactly `capacity` points and
    // the oldest is the one of tick N - capacity + 1
    let capacity: u32 = 7;
    let n: u32 = 20;
    let mut t = Trail::new(capacity);
    for tick in 1..=n {
        t.record((tick as f32, -(tick as f32)));
    }
    assert_eq!(t.len(), capacity as usize);
    assert_eq!(t.points[0], ((n - capacity + 1) as f32, -((n - capacity + 1) as f32)));
    assert_eq!(*t.points.back().unwrap(), (n as f32, -(n as f32)));
}

#[test]
fn seeded_trail_over_capacity_is_cut_back() {
    let mut t = Trail::new(1);
    t.points.push_back(10u32);
    t.points.push_back(11u32);
    t.record(12);
    assert_eq!(points(&t), vec![12]);
}

#[test]
fn zero_capacity_keeps_nothing() {
    let mut t = Trail::new(0);
    t.record(5u8);
    t.record(6u8);
    assert_eq!(t.len(), 0);
}
