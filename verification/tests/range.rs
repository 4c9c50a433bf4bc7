use slp_search::range::{IllegalRange, Range};

#[test]
fn make_accepts_ordered_bounds() {
    assert_eq!(Range::make(3, 7), Ok(Range { start: 3, end: 7 }));
    assert_eq!(Range::make(5, 5), Ok(Range { start: 5, end: 5 }));
    assert_eq!(Range::make(0, u32::MAX), Ok(Range { start: 0, end: u32::MAX }));
}

#[test]
fn make_refuses_bounds_out_of_order() {
    assert_eq!(Range::make(7, 3), Err(IllegalRange { start: 7, end: 3 }));
    assert_eq!(Range::make(1, 0), Err(IllegalRange { start: 1, end: 0 }));
}

#[test]
fn contains_is_inclusive() {
    let r = Range::make(3, 7).unwrap();
    assert!(!r.contains(2));
    assert!(r.contains(3));
    assert!(r.contains(5));
    assert!(r.contains(7));
    assert!(!r.contains(8));
    assert!(!r.contains(0));
    assert!(!r.contains(u32::MAX));
}

#[test]
fn range_of_one_number() {
    let r = Range::make(9, 9).unwrap();
    assert!(r.contains(9));
    assert!(!r.contains(8));
    assert!(!r.contains(10));
}

#[test]
fn contains_agrees_with_bounds_everywhere_nearby() {
    for start in 0u32..6 {
        for end in start..6 {
            let r = Range::make(start, end).unwrap();
            for n in 0u32..8 {
                assert_eq!(r.contains(n), start <= n && n <= end);
            }
        }
    }
}
