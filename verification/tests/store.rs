use rt_graph::{Error, Point, Store};

fn pt(t: u32, vs: &[u16]) -> Point {
    Point { t, vs: vs.to_vec() }
}

fn times(ps: &[Point]) -> Vec<u32> {
    ps.iter().map(|p| p.t()).collect()
}

#[test]
fn ingest_then_query_range_returns_points_in_order() {
    let mut s = Store::new(1);
    assert_eq!(s.ingest(&[pt(10, &[100]), pt(20, &[200])]), Ok(()));
    let r = s.query_range(0, 30).unwrap();
    assert_eq!(r.len(), 2);
    assert_eq!(r[0].t(), 10);
    assert_eq!(r[0].vals(), &[100]);
    assert_eq!(r[1].t(), 20);
    assert_eq!(r[1].vals(), &[200]);
    assert_eq!(s.last_t(), 20);
}

#[test]
fn ingest_equal_time_fails_with_invalid_order() {
    let mut s = Store::new(2);
    assert_eq!(s.ingest(&[pt(5, &[1, 2])]), Ok(()));
    assert_eq!(s.ingest(&[pt(5, &[3, 4])]), Err(Error::InvalidOrder));
    assert_eq!(s.last_t(), 5);
    let r = s.query_range(0, 100).unwrap();
    assert_eq!(r.len(), 1);
    assert_eq!(r[0].vals(), &[1, 2]);
}

#[test]
fn ingest_earlier_time_leaves_contents_unchanged() {
    let mut s = Store::new(1);
    s.ingest(&[pt(10, &[1]), pt(20, &[2])]).unwrap();
    assert_eq!(s.ingest(&[pt(15, &[9])]), Err(Error::InvalidOrder));
    assert_eq!(times(&s.query_range(0, u32::MAX).unwrap()), vec![10, 20]);
    assert_eq!(s.last_t(), 20);
}

#[test]
fn ingest_time_zero_into_new_store_is_refused() {
    let mut s = Store::new(1);
    assert_eq!(s.ingest(&[pt(0, &[1])]), Err(Error::InvalidOrder));
    assert_eq!(s.last_t(), 0);
    assert!(s.query_range(0, 10).unwrap().is_empty());
}

#[test]
fn ingest_keeps_points_before_the_failing_one() {
    let mut s = Store::new(1);
    let r = s.ingest(&[pt(1, &[1]), pt(2, &[2]), pt(2, &[3]), pt(7, &[4])]);
    assert_eq!(r, Err(Error::InvalidOrder));
    assert_eq!(times(&s.query_range(0, 100).unwrap()), vec![1, 2]);
    assert_eq!(s.last_t(), 2);
    // the store goes on from where it stopped
    assert_eq!(s.ingest(&[pt(7, &[4])]), Ok(()));
    assert_eq!(times(&s.query_range(0, 100).unwrap()), vec![1, 2, 7]);
}

#[test]
fn ingest_wrong_channel_count_fails_with_channel_mismatch() {
    let mut s = Store::new(2);
    let r = s.ingest(&[pt(1, &[1, 2]), pt(2, &[3]), pt(3, &[4, 5])]);
    assert_eq!(r, Err(Error::ChannelMismatch));
    assert_eq!(times(&s.query_range(0, 100).unwrap()), vec![1]);
    assert_eq!(s.last_t(), 1);
}

#[test]
fn ingest_late_point_with_wrong_channel_count_is_invalid_order() {
    let mut s = Store::new(2);
    s.ingest(&[pt(5, &[1, 2])]).unwrap();
    assert_eq!(s.ingest(&[pt(4, &[1])]), Err(Error::InvalidOrder));
}

#[test]
fn ingest_empty_batch_changes_nothing() {
    let mut s = Store::new(1);
    s.ingest(&[pt(3, &[1])]).unwrap();
    assert_eq!(s.ingest(&[]), Ok(()));
    assert_eq!(s.last_t(), 3);
    assert_eq!(times(&s.query_range(0, 100).unwrap()), vec![3]);
}

#[test]
fn query_range_is_half_open() {
    let mut s = Store::new(1);
    s.ingest(&[pt(10, &[1]), pt(20, &[2]), pt(30, &[3])]).unwrap();
    assert_eq!(times(&s.query_range(10, 30).unwrap()), vec![10, 20]);
    assert_eq!(times(&s.query_range(11, 31).unwrap()), vec![20, 30]);
    assert_eq!(times(&s.query_range(20, 20).unwrap()), Vec::<u32>::new());
    assert_eq!(times(&s.query_range(30, 10).unwrap()), Vec::<u32>::new());
    assert_eq!(times(&s.query_range(31, u32::MAX).unwrap()), Vec::<u32>::new());
}

#[test]
fn query_range_on_empty_store_is_empty() {
    let s = Store::new(3);
    assert!(s.query_range(0, u32::MAX).unwrap().is_empty());
}

#[test]
fn query_range_returns_strictly_increasing_times_within_range() {
    let mut s = Store::new(1);
    let ps: Vec<Point> = (1..=50u32).map(|i| pt(i * 3, &[i as u16])).collect();
    s.ingest(&ps).unwrap();
    let r = s.query_range(20, 100).unwrap();
    assert_eq!(r.len(), 27);
    for w in r.windows(2) {
        assert!(w[0].t() < w[1].t());
    }
    for p in &r {
        assert!(20 <= p.t() && p.t() < 100);
        assert_eq!(p.vals(), &[(p.t() / 3) as u16]);
    }
}

#[test]
fn query_point_returns_first_point_at_or_after() {
    let mut s = Store::new(1);
    s.ingest(&[pt(10, &[1]), pt(20, &[2]), pt(30, &[3])]).unwrap();
    assert_eq!(s.query_point(0).unwrap().unwrap().t(), 10);
    assert_eq!(s.query_point(10).unwrap().unwrap().t(), 10);
    assert_eq!(s.query_point(11).unwrap().unwrap().t(), 20);
    let p = s.query_point(30).unwrap().unwrap();
    assert_eq!(p.t(), 30);
    assert_eq!(p.vals(), &[3]);
    assert!(s.query_point(31).unwrap().is_none());
}

#[test]
fn query_point_on_empty_store_is_none() {
    let s = Store::new(1);
    assert!(s.query_point(0).unwrap().is_none());
}

#[test]
fn query_point_round_trip() {
    let mut s = Store::new(2);
    let ps: Vec<Point> = (1..=20u32).map(|i| pt(i * i, &[i as u16, (2 * i) as u16])).collect();
    s.ingest(&ps).unwrap();
    for p in &ps {
        let q = s.query_point(p.t()).unwrap().unwrap();
        assert_eq!(q.t(), p.t());
        assert_eq!(q.vals(), p.vals());
    }
}

#[test]
fn discard_removes_range_and_keeps_the_rest() {
    let mut s = Store::new(1);
    s.ingest(&[pt(10, &[1]), pt(20, &[2]), pt(30, &[3]), pt(40, &[4])]).unwrap();
    assert_eq!(s.discard(20, 40), Ok(()));
    assert!(s.query_range(20, 40).unwrap().is_empty());
    assert_eq!(times(&s.query_range(0, u32::MAX).unwrap()), vec![10, 40]);
    assert_eq!(s.query_point(10).unwrap().unwrap().vals(), &[1]);
    assert_eq!(s.query_point(40).unwrap().unwrap().vals(), &[4]);
    assert_eq!(s.query_point(11).unwrap().unwrap().t(), 40);
}

#[test]
fn discard_without_match_is_a_no_op() {
    let mut s = Store::new(1);
    s.ingest(&[pt(10, &[1]), pt(20, &[2])]).unwrap();
    assert_eq!(s.discard(11, 20), Ok(()));
    assert_eq!(s.discard(30, 5), Ok(()));
    assert_eq!(s.discard(21, u32::MAX), Ok(()));
    assert_eq!(times(&s.query_range(0, u32::MAX).unwrap()), vec![10, 20]);
}

#[test]
fn discard_does_not_lower_last_t() {
    let mut s = Store::new(1);
    s.ingest(&[pt(10, &[1]), pt(20, &[2])]).unwrap();
    s.discard(0, u32::MAX).unwrap();
    assert!(s.query_range(0, u32::MAX).unwrap().is_empty());
    assert_eq!(s.last_t(), 20);
    assert_eq!(s.ingest(&[pt(20, &[3])]), Err(Error::InvalidOrder));
    assert_eq!(s.ingest(&[pt(21, &[3])]), Ok(()));
}

#[test]
fn first_t_is_earliest_retained_or_zero() {
    let mut s = Store::new(1);
    assert_eq!(s.first_t(), 0);
    s.ingest(&[pt(10, &[1]), pt(20, &[2])]).unwrap();
    assert_eq!(s.first_t(), 10);
    s.discard(0, 15).unwrap();
    assert_eq!(s.first_t(), 20);
    s.discard(0, 25).unwrap();
    assert_eq!(s.first_t(), 0);
}

#[test]
fn val_len_is_fixed() {
    let mut s = Store::new(3);
    assert_eq!(s.val_len(), 3);
    s.ingest(&[pt(1, &[1, 2, 3])]).unwrap();
    assert_eq!(s.val_len(), 3);
}

#[test]
fn zero_channel_store_takes_points_without_values() {
    let mut s = Store::new(0);
    assert_eq!(s.ingest(&[pt(1, &[]), pt(2, &[])]), Ok(()));
    assert_eq!(s.ingest(&[pt(3, &[1])]), Err(Error::ChannelMismatch));
    assert_eq!(times(&s.query_range(0, 10).unwrap()), vec![1, 2]);
}
