use slp_search::decimal::push_decimal;
use slp_search::query::{FrameGap, Link, Predicate, PredicateGroup, Query, Role};
use slp_search::range::Range;
use slp_search::search_string::{action, frame_gap, percent, query, SearchParseError};

fn act(role: Role, state_id: u16) -> Predicate {
    Predicate::ActionState { role, state_id }
}

fn pct(role: Role, start: u32, end: u32) -> Predicate {
    Predicate::Percent { role, range: Range { start, end } }
}

fn group(predicates: Vec<Predicate>) -> PredicateGroup {
    PredicateGroup { predicates }
}

fn link(start: u32, end: u32, predicates: Vec<Predicate>) -> Link {
    Link { gap: FrameGap { range: Range { start, end } }, group: group(predicates) }
}

#[test]
fn frame_gap_in_its_three_forms() {
    assert_eq!(frame_gap(b"fg3..7").unwrap().1, FrameGap { range: Range { start: 3, end: 7 } });
    assert_eq!(frame_gap(b"fg=2").unwrap().1, FrameGap { range: Range { start: 2, end: 2 } });
    assert_eq!(frame_gap(b"fg..30").unwrap().1, FrameGap { range: Range { start: 0, end: 30 } });
}

#[test]
fn action_and_percent_predicates() {
    assert_eq!(action(b".p14").unwrap().1, act(Role::Primary, 14));
    assert_eq!(action(b".o0").unwrap().1, act(Role::Secondary, 0));
    assert_eq!(percent(b"%o..30").unwrap().1, pct(Role::Secondary, 0, 30));
    assert_eq!(percent(b"%p=2").unwrap().1, pct(Role::Primary, 2, 2));
}

#[test]
fn query_with_one_link() {
    let q = Query::parse(".p14 fg=1 %p50..200").unwrap();
    assert_eq!(q.first, group(vec![act(Role::Primary, 14)]));
    assert_eq!(q.chain.len(), 1);
    assert_eq!(q.chain[0], link(1, 1, vec![pct(Role::Primary, 50, 200)]));
}

#[test]
fn query_with_two_links() {
    let q = Query::parse(".p65%o70..150 fg..90 .p63 fg..60 .o4").unwrap();
    assert_eq!(
        q,
        Query {
            first: group(vec![act(Role::Primary, 65), pct(Role::Secondary, 70, 150)]),
            chain: vec![
                link(0, 90, vec![act(Role::Primary, 63)]),
                link(0, 60, vec![act(Role::Secondary, 4)]),
            ],
        }
    );
}

#[test]
fn query_of_one_group() {
    let q = Query::parse("%p3..7").unwrap();
    assert_eq!(q, Query { first: group(vec![pct(Role::Primary, 3, 7)]), chain: vec![] });
    let q = Query::parse(".p14%o..30%p10..300").unwrap();
    assert_eq!(
        q.first,
        group(vec![act(Role::Primary, 14), pct(Role::Secondary, 0, 30), pct(Role::Primary, 10, 300)])
    );
    assert!(q.chain.is_empty());
}

#[test]
fn blanks_are_optional_around_a_gap() {
    let tight = Query::parse(".p14fg=10.o14").unwrap();
    let loose = Query::parse(".p14 \t fg=10 \n .o14").unwrap();
    assert_eq!(tight, loose);
    assert_eq!(tight.chain, vec![link(10, 10, vec![act(Role::Secondary, 14)])]);
}

#[test]
fn rest_is_what_the_parser_leaves() {
    let (rest, gap) = frame_gap(b"fg3..7.p1").unwrap();
    assert_eq!(rest, b".p1");
    assert_eq!(gap.range, Range { start: 3, end: 7 });
    let (rest, p) = action(b".p14%o=3").unwrap();
    assert_eq!(rest, b"%o=3");
    assert_eq!(p, act(Role::Primary, 14));
    let (rest, q) = query(b".p14").unwrap();
    assert!(rest.is_empty());
    assert_eq!(q, Query { first: group(vec![act(Role::Primary, 14)]), chain: vec![] });
    let (rest, q) = query(b".p14 fg=1 .o2").unwrap();
    assert!(rest.is_empty());
    assert_eq!(q.chain.len(), 1);
}

#[test]
fn query_refuses_a_text_that_goes_on() {
    assert_eq!(query(b".p14xyz"), Err(SearchParseError::GrammarMismatch { position: 4 }));
    assert_eq!(query(b".p14 xyz"), Err(SearchParseError::GrammarMismatch { position: 4 }));
    assert_eq!(query(b".p14 fg=1 .o2  "), Err(SearchParseError::GrammarMismatch { position: 13 }));
    assert_eq!(query(b".p14 fg=1 .o2x"), Err(SearchParseError::GrammarMismatch { position: 13 }));
    assert_eq!(query(b""), Err(SearchParseError::GrammarMismatch { position: 0 }));
    assert_eq!(query(b".p14%o9..1"), Err(SearchParseError::IllegalRange { position: 6 }));
    for text in [".p14xyz", ".p14 ", "%p3..7 fg", ".p1 fg=2 .o3 fg"] {
        assert_eq!(query(text.as_bytes()).map(|found| found.1), Query::parse(text));
    }
}

#[test]
fn illegal_range_is_reported_where_the_range_starts() {
    assert_eq!(frame_gap(b"fg7..3"), Err(SearchParseError::IllegalRange { position: 2 }));
    assert_eq!(percent(b"%p9..1"), Err(SearchParseError::IllegalRange { position: 2 }));
    assert_eq!(Query::parse("%p9..1"), Err(SearchParseError::IllegalRange { position: 2 }));
    assert_eq!(
        Query::parse(".p14%o30..20"),
        Err(SearchParseError::IllegalRange { position: 6 })
    );
    assert_eq!(
        Query::parse(".p14 fg5..4 .o1"),
        Err(SearchParseError::IllegalRange { position: 7 })
    );
}

#[test]
fn grammar_mismatch_is_reported_at_the_offending_byte() {
    assert_eq!(Query::parse(""), Err(SearchParseError::GrammarMismatch { position: 0 }));
    assert_eq!(Query::parse("x"), Err(SearchParseError::GrammarMismatch { position: 0 }));
    assert_eq!(Query::parse("."), Err(SearchParseError::GrammarMismatch { position: 1 }));
    assert_eq!(Query::parse(".x1"), Err(SearchParseError::GrammarMismatch { position: 1 }));
    assert_eq!(Query::parse(".p"), Err(SearchParseError::GrammarMismatch { position: 2 }));
    assert_eq!(Query::parse(".px"), Err(SearchParseError::GrammarMismatch { position: 2 }));
    assert_eq!(Query::parse("%p"), Err(SearchParseError::GrammarMismatch { position: 2 }));
    assert_eq!(Query::parse("%p="), Err(SearchParseError::GrammarMismatch { position: 3 }));
    assert_eq!(Query::parse("%p3"), Err(SearchParseError::GrammarMismatch { position: 3 }));
    assert_eq!(Query::parse("%p3."), Err(SearchParseError::GrammarMismatch { position: 4 }));
    assert_eq!(Query::parse("%p3.."), Err(SearchParseError::GrammarMismatch { position: 5 }));
    assert_eq!(Query::parse("%p.3"), Err(SearchParseError::GrammarMismatch { position: 3 }));
    assert_eq!(Query::parse("%p.."), Err(SearchParseError::GrammarMismatch { position: 4 }));
    assert_eq!(Query::parse(".p14 "), Err(SearchParseError::GrammarMismatch { position: 4 }));
    assert_eq!(Query::parse(".p14 fx"), Err(SearchParseError::GrammarMismatch { position: 4 }));
    assert_eq!(Query::parse(".p14 fg"), Err(SearchParseError::GrammarMismatch { position: 7 }));
    assert_eq!(Query::parse(".p14 fg=1"), Err(SearchParseError::GrammarMismatch { position: 9 }));
    assert_eq!(Query::parse(".p14 fg=1 "), Err(SearchParseError::GrammarMismatch { position: 10 }));
    assert_eq!(Query::parse(" .p14"), Err(SearchParseError::GrammarMismatch { position: 0 }));
    assert_eq!(frame_gap(b"gf=1"), Err(SearchParseError::GrammarMismatch { position: 0 }));
    assert_eq!(frame_gap(b"f=1"), Err(SearchParseError::GrammarMismatch { position: 1 }));
    assert_eq!(action(b"%p=1"), Err(SearchParseError::GrammarMismatch { position: 0 }));
    assert_eq!(percent(b".p1"), Err(SearchParseError::GrammarMismatch { position: 0 }));
}

#[test]
fn numbers_have_to_fit() {
    assert_eq!(action(b".p65535").unwrap().1, act(Role::Primary, 65535));
    assert_eq!(action(b".p65536"), Err(SearchParseError::GrammarMismatch { position: 2 }));
    assert_eq!(action(b".p000014").unwrap().1, act(Role::Primary, 14));
    assert_eq!(percent(b"%p=4294967295").unwrap().1, pct(Role::Primary, u32::MAX, u32::MAX));
    assert_eq!(percent(b"%p=4294967296"), Err(SearchParseError::GrammarMismatch { position: 3 }));
    assert_eq!(
        percent(b"%p1..99999999999"),
        Err(SearchParseError::GrammarMismatch { position: 5 })
    );
    assert_eq!(percent(b"%p007..0010").unwrap().1, pct(Role::Primary, 7, 10));
}

#[test]
fn a_number_is_read_to_its_last_digit() {
    let (rest, p) = action(b".p12a").unwrap();
    assert_eq!(p, act(Role::Primary, 12));
    assert_eq!(rest, b"a");
    let (rest, p) = percent(b"%o5..17fg").unwrap();
    assert_eq!(p, pct(Role::Secondary, 5, 17));
    assert_eq!(rest, b"fg");
}

#[test]
fn decimal_digits_are_written_without_leading_zeros() {
    let mut out: Vec<u8> = Vec::new();
    push_decimal(&mut out, 0);
    assert_eq!(out, b"0");
    push_decimal(&mut out, 7);
    push_decimal(&mut out, 10);
    push_decimal(&mut out, 4294967295);
    assert_eq!(out, b"07104294967295");
}

#[test]
fn to_bytes_writes_the_text_of_a_query() {
    let q = Query {
        first: group(vec![act(Role::Primary, 65), pct(Role::Secondary, 70, 150)]),
        chain: vec![
            link(0, 90, vec![act(Role::Primary, 63)]),
            link(2, 2, vec![act(Role::Secondary, 4), pct(Role::Primary, 0, 0)]),
        ],
    };
    assert_eq!(q.to_bytes(), b".p65%o70..150 fg0..90 .p63 fg2..2 .o4%p0..0");
}

#[test]
fn text_of_a_query_reads_back_as_the_query() {
    let texts = [
        "%p3..7",
        ".p14%o..30%p10..300",
        ".p14fg=10.o14",
        ".p65%o70..150 fg..90 .p63 fg..60 .o4",
        ".p14 fg=1 %p50..200",
        ".o65535%p=4294967295 fg0..4294967295 .p0",
    ];
    for text in texts {
        let first = Query::parse(text).unwrap();
        let written = String::from_utf8(first.to_bytes()).unwrap();
        let second = Query::parse(&written).unwrap();
        assert_eq!(first, second);
        let (rest, third) = query(written.as_bytes()).unwrap();
        assert!(rest.is_empty());
        assert_eq!(first, third);
    }
}

#[test]
fn parsed_ranges_are_in_order() {
    let q = Query::parse("%p3..7%o=4 fg..9 %p0..0").unwrap();
    for p in q.first.predicates.iter().chain(q.chain[0].group.predicates.iter()) {
        if let Predicate::Percent { range, .. } = p {
            assert!(range.start <= range.end);
        }
    }
    assert!(q.chain[0].gap.range.start <= q.chain[0].gap.range.end);
}

#[test]
fn dash_starts_no_frame_gap() {
    assert_eq!(frame_gap(b"-3..7"), Err(SearchParseError::GrammarMismatch { position: 0 }));
    assert_eq!(query(b".p14-=10.o14"), Err(SearchParseError::GrammarMismatch { position: 4 }));
    assert_eq!(Query::parse(".p14-=10.o14"), Err(SearchParseError::GrammarMismatch { position: 4 }));
}

#[test]
fn failure_tells_its_position() {
    assert_eq!(Query::parse(".p14 fg5..4 .o1").unwrap_err().position(), 7);
    assert_eq!(Query::parse(".p14 fx").unwrap_err().position(), 4);
    assert_eq!(SearchParseError::IllegalRange { position: 3 }.position(), 3);
    assert_eq!(SearchParseError::GrammarMismatch { position: 0 }.position(), 0);
}
