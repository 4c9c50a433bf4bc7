use slp_search::query::{FrameGap, Predicate, Role};
use slp_search::range::Range;
use slp_search::search_string::{action, frame_gap, percent, query};

#[test]
fn test_frame_gap() {
    let s1 = b"fg3..7";
    let s2 = b"fg..30";
    let s3 = b"fg=2";

    let fg1 = FrameGap { range: Range { start: 3, end: 7 } };
    let fg2 = FrameGap { range: Range { start: 0, end: 30 } };
    let fg3 = FrameGap { range: Range { start: 2, end: 2 } };

    let r1 = frame_gap(s1).unwrap().1;
    let r2 = frame_gap(s2).unwrap().1;
    let r3 = frame_gap(s3).unwrap().1;

    assert_eq!(r1, fg1);
    assert_eq!(r2, fg2);
    assert_eq!(r3, fg3);
}

#[test]
fn test_action() {
    let s1 = b".p14";

    let a1 = Predicate::ActionState { role: Role::Primary, state_id: 14 };

    let r1 = action(s1).unwrap().1;

    assert_eq!(r1, a1);
}

#[test]
fn test_percent() {
    let s1 = b"%p3..7";
    let s2 = b"%o..30";
    let s3 = b"%p=2";

    let p1 = Predicate::Percent { role: Role::Primary, range: Range { start: 3, end: 7 } };
    let p2 = Predicate::Percent { role: Role::Secondary, range: Range { start: 0, end: 30 } };
    let p3 = Predicate::Percent { role: Role::Primary, range: Range { start: 2, end: 2 } };

    let r1 = percent(s1).unwrap().1;
    let r2 = percent(s2).unwrap().1;
    let r3 = percent(s3).unwrap().1;

    assert_eq!(r1, p1);
    assert_eq!(r2, p2);
    assert_eq!(r3, p3);
}

#[test]
fn test_query() {
    let s1 = b"%p3..7";
    let s2 = b".p14%o..30%p10..300";
    let s3 = b".p14fg=10.o14";
    let s4 = b".p65%o70..150fg..90.p63fg..60.o4"; // nair -> upsmash kill

    query(s1).unwrap();
    query(s2).unwrap();
    query(s3).unwrap();
    query(s4).unwrap();
}
