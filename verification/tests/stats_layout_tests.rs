use ratatosk::layout::{centered_rect, Rect};
use ratatosk::stats::RouteStats;

#[test]
fn route_stats_average() {
    let mut s = RouteStats::with_capacity(128);
    assert_eq!(s.average(), 0);
    s.add(10);
    s.add(21);
    assert_eq!(s.average(), 15);
    assert_eq!(s.sum, 31);
    for _ in 0..200 {
        s.add(u64::MAX);
    }
    assert_eq!(s.samples.len(), 128);
    assert_eq!(s.average(), u64::MAX);
}

#[test]
fn centered_rect_takes_the_middle() {
    let r = centered_rect(60, 50, Rect { x: 0, y: 0, width: 100, height: 40 });
    assert!(r == Rect { x: 20, y: 10, width: 60, height: 20 });
    let full = centered_rect(100, 100, Rect { x: 3, y: 4, width: 10, height: 10 });
    assert!(full == Rect { x: 3, y: 4, width: 10, height: 10 });
}
