use slp_search::finder::{check_timeline, find, find_all, group_matches, MatchSpan, Searcher};
use slp_search::frame::{evaluate, resolve_state, Frame, RoleMapping, Slot, State};
use slp_search::query::{Predicate, PredicateGroup, Query, Role};
use slp_search::range::Range;

const FOX: u8 = 1;
const MARTH: u8 = 18;

fn slot(character_id: u8, action_state_id: u16, damage: i64) -> Slot {
    Slot { character_id, action_state_id, damage }
}

/// A frame whose primary player sits in slot 0 and whose secondary player
/// sits in slot 1.
fn frame(index: i32, primary: (u16, i64), secondary: (u16, i64)) -> Frame {
    Frame {
        index,
        slots: vec![slot(FOX, primary.0, primary.1), slot(MARTH, secondary.0, secondary.1)],
    }
}

fn mapping() -> RoleMapping {
    RoleMapping { primary: 0, secondary: 1 }
}

fn span(start_frame: i64, end_frame: i64) -> MatchSpan {
    MatchSpan { start_frame, end_frame }
}

/// A timeline of `len` frames, numbered from 0, in which the primary player
/// is in the state that `state` gives and the secondary player has the
/// damage that `damage` gives.
fn timeline(len: i32, state: fn(i32) -> u16, damage: fn(i32) -> i64) -> Vec<Frame> {
    (0..len).map(|i| frame(i, (state(i), 0), (0, damage(i)))).collect()
}

#[test]
fn chain_of_three_groups_is_found_once() {
    let frames = timeline(
        100,
        |i| if i == 10 { 14 } else if i == 55 { 4 } else { 0 },
        |i| if (50..=60).contains(&i) { 100 } else { 0 },
    );
    let query = Query::parse(".p14 fg30..50 %o70..150 fg5..10 .p4").unwrap();
    assert!(check_timeline(&frames, &mapping()));
    assert_eq!(find_all(&mapping(), &query, &frames), vec![span(10, 55)]);
    assert_eq!(find(&mapping(), &query, &frames), Some(span(10, 55)));
}

#[test]
fn searching_twice_gives_the_same_occurrences() {
    let frames = timeline(60, |i| if i % 7 == 0 { 14 } else { 3 }, |i| (i as i64) * 3);
    let query = Query::parse(".p14 fg1..3 %o20..90").unwrap();
    let first = find_all(&mapping(), &query, &frames);
    let second = find_all(&mapping(), &query, &frames);
    assert!(!first.is_empty());
    assert_eq!(first, second);
    let mut searcher = Searcher::new(&frames, &query, mapping());
    let mut third = Vec::new();
    while let Some(found) = searcher.next_match() {
        third.push(found);
    }
    assert_eq!(first, third);
    assert_eq!(searcher.next_match(), None);
}

#[test]
fn gap_from_zero_to_zero_asks_for_the_same_frame() {
    let mut frames = timeline(10, |i| if i == 4 { 14 } else { 0 }, |i| if i == 4 { 80 } else { 0 });
    let query = Query::parse(".p14 fg=0 %o80..80").unwrap();
    assert_eq!(find_all(&mapping(), &query, &frames), vec![span(4, 4)]);
    // The damage shows one frame later only: the window has closed by then.
    frames[4].slots[1].damage = 0;
    frames[5].slots[1].damage = 80;
    assert_eq!(find_all(&mapping(), &query, &frames), vec![]);
    let next = Query::parse(".p14 fg=1 %o80..80").unwrap();
    assert_eq!(find_all(&mapping(), &next, &frames), vec![span(4, 5)]);
}

#[test]
fn exact_gap_asks_for_one_frame() {
    let frames = timeline(
        30,
        |i| if i == 3 || i == 10 { 14 } else { 0 },
        |i| if i == 9 || i == 15 { 50 } else { 0 },
    );
    let query = Query::parse(".p14 fg=5 %o=50").unwrap();
    // Anchor 3 asks for frame 8, which does not fit; anchor 10 asks for 15.
    assert_eq!(find_all(&mapping(), &query, &frames), vec![span(10, 15)]);
}

#[test]
fn window_takes_its_first_frame_that_fits() {
    let frames = timeline(
        40,
        |i| if i == 2 { 14 } else if i == 20 { 7 } else { 0 },
        |i| if i == 5 || i == 8 || i == 12 { 50 } else { 0 },
    );
    // From anchor 2 the window 3..=12 is first met at 5; from 5 the window
    // 15..=20 reaches frame 20.
    let query = Query::parse(".p14 fg1..10 %o=50 fg10..15 .p7").unwrap();
    assert_eq!(find_all(&mapping(), &query, &frames), vec![span(2, 20)]);
    // From 5 the window 16..=19 misses frame 20, though from 8 it would not:
    // the first frame of the window is the one that counts.
    let query = Query::parse(".p14 fg1..10 %o=50 fg11..14 .p7").unwrap();
    assert_eq!(find_all(&mapping(), &query, &frames), vec![]);
}

#[test]
fn failed_anchor_gives_way_to_the_next_one() {
    let frames = timeline(
        50,
        |i| if i == 5 || i == 30 { 14 } else { 0 },
        |i| if i == 33 { 90 } else { 0 },
    );
    let query = Query::parse(".p14 fg1..5 %o90..90").unwrap();
    assert_eq!(find_all(&mapping(), &query, &frames), vec![span(30, 33)]);
}

#[test]
fn occurrences_do_not_overlap() {
    // Anchors at every frame; each occurrence ends two frames behind its anchor.
    let frames = timeline(10, |_| 14, |_| 0);
    let query = Query::parse(".p14 fg=2 .p14").unwrap();
    assert_eq!(
        find_all(&mapping(), &query, &frames),
        vec![span(0, 2), span(3, 5), span(6, 8)]
    );
    let single = Query::parse(".p14").unwrap();
    let all = find_all(&mapping(), &single, &frames);
    assert_eq!(all.len(), 10);
    for (i, found) in all.iter().enumerate() {
        assert_eq!(*found, span(i as i64, i as i64));
    }
}

#[test]
fn short_or_empty_timeline_gives_nothing() {
    let query = Query::parse(".p14 fg100..200 .p14").unwrap();
    let frames = timeline(50, |_| 14, |_| 0);
    assert_eq!(find_all(&mapping(), &query, &frames), vec![]);
    assert_eq!(find(&mapping(), &query, &frames), None);
    let none: Vec<Frame> = Vec::new();
    assert!(check_timeline(&none, &mapping()));
    assert_eq!(find_all(&mapping(), &query, &none), vec![]);
    assert_eq!(find(&mapping(), &query, &none), None);
}

#[test]
fn windows_go_by_frame_numbers() {
    // Frames 0, 10, 20, 30: the numbers count, not the places.
    let frames: Vec<Frame> = (0..4)
        .map(|i| frame(i * 10, (if i == 0 { 14 } else { 0 }, 0), (0, if i == 2 { 50 } else { 0 })))
        .collect();
    let near = Query::parse(".p14 fg1..3 %o=50").unwrap();
    assert_eq!(find_all(&mapping(), &near, &frames), vec![]);
    let far = Query::parse(".p14 fg15..25 %o=50").unwrap();
    assert_eq!(find_all(&mapping(), &far, &frames), vec![span(0, 20)]);
}

#[test]
fn frame_numbers_may_be_negative() {
    let frames: Vec<Frame> = (-123..-100)
        .map(|i| frame(i, (if i == -120 { 14 } else { 0 }, 0), (0, if i == -110 { 9 } else { 0 })))
        .collect();
    let query = Query::parse(".p14 fg..10 %o=9").unwrap();
    assert_eq!(find_all(&mapping(), &query, &frames), vec![span(-120, -110)]);
}

#[test]
fn roles_follow_the_mapping() {
    let frames = timeline(5, |i| if i == 2 { 14 } else { 0 }, |_| 0);
    let query = Query::parse(".p14").unwrap();
    assert_eq!(find_all(&mapping(), &query, &frames), vec![span(2, 2)]);
    let swapped = RoleMapping { primary: 1, secondary: 0 };
    assert_eq!(find_all(&swapped, &query, &frames), vec![]);
    let other = Query::parse(".o14").unwrap();
    assert_eq!(find_all(&swapped, &other, &frames), vec![span(2, 2)]);
}

#[test]
fn check_timeline_refuses_what_cannot_be_searched() {
    let good = timeline(5, |_| 0, |_| 0);
    assert!(check_timeline(&good, &mapping()));
    assert!(!check_timeline(&good, &RoleMapping { primary: 0, secondary: 2 }));
    assert!(!check_timeline(&good, &RoleMapping { primary: 2, secondary: 0 }));
    let mut repeated = timeline(5, |_| 0, |_| 0);
    repeated[3].index = 2;
    assert!(!check_timeline(&repeated, &mapping()));
    let mut falling = timeline(5, |_| 0, |_| 0);
    falling[4].index = 0;
    assert!(!check_timeline(&falling, &mapping()));
    let mut short = timeline(5, |_| 0, |_| 0);
    short[1].slots.pop();
    assert!(!check_timeline(&short, &mapping()));
}

#[test]
fn group_holds_when_all_its_predicates_hold() {
    let f = frame(0, (14, 40), (20, 95));
    let both = PredicateGroup {
        predicates: vec![
            Predicate::ActionState { role: Role::Primary, state_id: 14 },
            Predicate::Percent { role: Role::Secondary, range: Range { start: 90, end: 100 } },
        ],
    };
    assert!(group_matches(&both, &f, &mapping()));
    let one_fails = PredicateGroup {
        predicates: vec![
            Predicate::ActionState { role: Role::Primary, state_id: 14 },
            Predicate::Percent { role: Role::Secondary, range: Range { start: 96, end: 100 } },
        ],
    };
    assert!(!group_matches(&one_fails, &f, &mapping()));
    let order_turned = PredicateGroup {
        predicates: vec![
            Predicate::Percent { role: Role::Secondary, range: Range { start: 90, end: 100 } },
            Predicate::ActionState { role: Role::Primary, state_id: 14 },
        ],
    };
    assert!(group_matches(&order_turned, &f, &mapping()));
}

#[test]
fn evaluate_reads_the_slot_of_the_role() {
    let f = frame(0, (14, 40), (341, 95));
    let m = mapping();
    assert!(evaluate(&Predicate::ActionState { role: Role::Primary, state_id: 14 }, &f, &m));
    assert!(!evaluate(&Predicate::ActionState { role: Role::Secondary, state_id: 14 }, &f, &m));
    assert!(evaluate(&Predicate::ActionState { role: Role::Secondary, state_id: 341 }, &f, &m));
    assert!(!evaluate(&Predicate::ActionState { role: Role::Primary, state_id: 341 }, &f, &m));
    let in_range = Predicate::Percent { role: Role::Primary, range: Range { start: 40, end: 40 } };
    assert!(evaluate(&in_range, &f, &m));
    let above = Predicate::Percent { role: Role::Primary, range: Range { start: 41, end: 50 } };
    assert!(!evaluate(&above, &f, &m));
    let below = Predicate::Percent { role: Role::Secondary, range: Range { start: 0, end: 94 } };
    assert!(!evaluate(&below, &f, &m));
}

#[test]
fn damage_outside_the_numbers_of_a_range_never_fits() {
    let all = Predicate::Percent { role: Role::Primary, range: Range { start: 0, end: u32::MAX } };
    let m = mapping();
    assert!(!evaluate(&all, &frame(0, (0, -1), (0, 0)), &m));
    assert!(evaluate(&all, &frame(0, (0, 0), (0, 0)), &m));
    assert!(evaluate(&all, &frame(0, (0, u32::MAX as i64), (0, 0)), &m));
    assert!(!evaluate(&all, &frame(0, (0, u32::MAX as i64 + 1), (0, 0)), &m));
    assert!(!evaluate(&all, &frame(0, (0, i64::MIN), (0, 0)), &m));
    assert!(!evaluate(&all, &frame(0, (0, i64::MAX), (0, 0)), &m));
}

#[test]
fn states_up_to_340_are_shared() {
    assert_eq!(resolve_state(0, FOX), State::Common(0));
    assert_eq!(resolve_state(14, MARTH), State::Common(14));
    assert_eq!(resolve_state(340, FOX), State::Common(340));
    assert_eq!(resolve_state(341, FOX), State::Own { character: FOX, id: 341 });
    assert_eq!(resolve_state(341, MARTH), State::Own { character: MARTH, id: 341 });
    assert_eq!(resolve_state(65535, FOX), State::Own { character: FOX, id: 65535 });
    assert_eq!(resolve_state(14, FOX), resolve_state(14, MARTH));
    assert_ne!(resolve_state(350, FOX), resolve_state(350, MARTH));
}

#[test]
fn mapping_from_ports() {
    assert_eq!(RoleMapping::from_ports(0, 1), Some(RoleMapping { primary: 0, secondary: 1 }));
    assert_eq!(RoleMapping::from_ports(3, 1), Some(RoleMapping { primary: 1, secondary: 0 }));
    assert_eq!(RoleMapping::from_ports(2, 2), None);
    let m = RoleMapping::from_ports(1, 3).unwrap();
    assert_eq!(m.slot(Role::Primary), 0);
    assert_eq!(m.slot(Role::Secondary), 1);
}
