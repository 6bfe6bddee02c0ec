use prproj_consolidate::time_range::{optimize_time_ranges, TimeRange, TICKS_PER_SECOND};

#[test]
fn test_time_range_merge() {
    let r1 = TimeRange::new(0, 100);
    let r2 = TimeRange::new(90, 200);
    let r3 = TimeRange::new(300, 400);

    assert!(r1.merge_with(&r2, 0).is_some());
    assert!(r1.merge_with(&r3, 0).is_none());
    assert!(r1.merge_with(&r3, 200).is_some());
}

#[test]
fn test_optimize_ranges() {
    let ranges = vec![
        TimeRange::new(0, 100),
        TimeRange::new(50, 150),
        TimeRange::new(200, 300),
    ];

    let optimized = optimize_time_ranges(&ranges, 0);
    assert_eq!(optimized.len(), 2);
    assert_eq!(optimized[0].start_ticks, 0);
    assert_eq!(optimized[0].end_ticks, 150);
}

#[test]
fn new_orders_endpoints() {
    let r = TimeRange::new(500, 100);
    assert_eq!((r.start_ticks, r.end_ticks), (100, 500));
    assert_eq!(r.duration(), 400);
}

#[test]
fn merge_is_symmetric_and_gives_hull() {
    let a = TimeRange::new(10, 20);
    let b = TimeRange::new(25, 40);
    assert!(a.merge_with(&b, 4).is_none());
    assert!(b.merge_with(&a, 4).is_none());
    let m1 = a.merge_with(&b, 5).unwrap();
    let m2 = b.merge_with(&a, 5).unwrap();
    assert_eq!(m1, m2);
    assert_eq!((m1.start_ticks, m1.end_ticks), (10, 40));
}

#[test]
fn merge_touching_ranges_without_tolerance() {
    let a = TimeRange::new(0, 10);
    let b = TimeRange::new(10, 20);
    let m = a.merge_with(&b, 0).unwrap();
    assert_eq!((m.start_ticks, m.end_ticks), (0, 20));
}

#[test]
fn optimize_empty_and_unsorted() {
    assert!(optimize_time_ranges(&[], 0).is_empty());
    let ranges = vec![TimeRange::new(300, 400), TimeRange::new(0, 10), TimeRange::new(5, 50)];
    let o = optimize_time_ranges(&ranges, 0);
    assert_eq!(o, vec![TimeRange::new(0, 50), TimeRange::new(300, 400)]);
}

#[test]
fn optimize_is_idempotent_and_separated() {
    let ranges = vec![
        TimeRange::new(40, 60),
        TimeRange::new(0, 10),
        TimeRange::new(100, 120),
        TimeRange::new(55, 70),
        TimeRange::new(10, 12),
    ];
    let once = optimize_time_ranges(&ranges, 0);
    let twice = optimize_time_ranges(&once, 0);
    assert_eq!(once, twice);
    for w in once.windows(2) {
        assert!(w[0].end_ticks < w[1].start_ticks);
    }
}

#[test]
fn optimize_total_within_hull() {
    let ranges = vec![TimeRange::new(0, 10), TimeRange::new(5, 20), TimeRange::new(50, 60)];
    let total: i64 = optimize_time_ranges(&ranges, 0).iter().map(|r| r.duration()).sum();
    assert_eq!(total, 30);
    assert!(total <= 60);
}

#[test]
fn optimize_with_gap_tolerance() {
    let ranges = vec![TimeRange::new(0, 10), TimeRange::new(15, 20)];
    assert_eq!(optimize_time_ranges(&ranges, 5), vec![TimeRange::new(0, 20)]);
    assert_eq!(optimize_time_ranges(&ranges, 4).len(), 2);
}

#[test]
fn handles_clamp_to_media() {
    let r = TimeRange::new(100, 200);
    let h = r.with_handles(50, 220);
    assert_eq!((h.start_ticks, h.end_ticks), (50, 220));
    let z = TimeRange::new(10, 20).with_handles(30, i64::MAX);
    assert_eq!((z.start_ticks, z.end_ticks), (0, 50));
}

#[test]
fn frames_round_toward_zero() {
    let r = TimeRange::new(-25, 25);
    assert_eq!(r.to_frames(10), (-2, 2));
    let one_second = TimeRange::new(0, TICKS_PER_SECOND);
    assert_eq!(one_second.to_frames(TICKS_PER_SECOND / 24), (0, 24));
}
