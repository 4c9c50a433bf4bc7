//! The search of a timeline for the occurrences of a query.
//!
//! An occurrence starts at an anchor, a frame that meets the first group of
//! the query. Each link of the chain then asks for a frame in its window, the
//! frames whose number lies between the number of the frame before plus the
//! lower bound of the gap and that number plus the upper bound; the first
//! frame of the window that meets the group of the link is taken. Where a
//! window holds no such frame, there is no occurrence at that anchor.

use vstd::prelude::*;
use crate::frame::{Frame, RoleMapping, covers, evaluate, holds_in};
use crate::query::{
    FrameGap, Link, LinkView, Predicate, PredicateGroup, Query, QueryView, chain_view,
};

verus! {

/// One occurrence of a query: the number of its anchor frame and the number
/// of the frame that meets its last group.
#[derive(Clone, Copy, Debug, PartialEq, Eq, Structural)]
pub struct MatchSpan {
    /// The number of the frame that meets the first group.
    pub start_frame: i64,
    /// The number of the frame that meets the last group.
    pub end_frame: i64,
}

/// A timeline that can be searched with `mapping`: each frame has a slot for
/// both roles, and the numbers of the frames rise.
pub open spec fn timeline_wf(frames: Seq<Frame>, mapping: RoleMapping) -> bool {
    &&& forall|i: int| 0 <= i < frames.len() ==> covers(#[trigger] frames[i], mapping)
    &&& forall|i: int, j: int|
        0 <= i < j < frames.len() ==> (#[trigger] frames[i]).index < (#[trigger] frames[j]).index
}

/// Whether all predicates of `group` hold in `frame`.
pub open spec fn group_holds(group: Seq<Predicate>, frame: Frame, mapping: RoleMapping) -> bool {
    forall|i: int| 0 <= i < group.len() ==> holds_in(#[trigger] group[i], frame, mapping)
}

/// Whether a frame with the number `index` lies in the window that `gap`
/// opens behind a frame with the number `prev`.
pub open spec fn in_window(index: int, prev: int, gap: FrameGap) -> bool {
    prev + gap.range.start <= index <= prev + gap.range.end
}

/// Whether the frame at the place `at` lies in the window of `link` behind
/// the frame at the place `prev` and meets the group of `link`.
pub open spec fn hits(
    frames: Seq<Frame>,
    link: LinkView,
    mapping: RoleMapping,
    prev: int,
    at: int,
) -> bool {
    &&& 0 <= at < frames.len()
    &&& in_window(frames[at].index as int, frames[prev].index as int, link.gap)
    &&& group_holds(link.group, frames[at], mapping)
}

/// The first place from `from` on that `link` hits behind `prev`.
pub open spec fn first_hit(
    frames: Seq<Frame>,
    link: LinkView,
    mapping: RoleMapping,
    prev: int,
    from: int,
) -> Option<int>
    decreases frames.len() - from,
{
    if from >= frames.len() {
        None
    } else if hits(frames, link, mapping, prev, from) {
        Some(from)
    } else {
        first_hit(frames, link, mapping, prev, from + 1)
    }
}

/// The place where the chain ends when its links from number `k` on are
/// followed from the place `prev`, each to the first frame that it hits.
pub open spec fn follow(
    frames: Seq<Frame>,
    chain: Seq<LinkView>,
    mapping: RoleMapping,
    k: int,
    prev: int,
) -> Option<int>
    decreases chain.len() - k,
{
    if k < 0 || k >= chain.len() {
        Some(prev)
    } else {
        match first_hit(frames, chain[k], mapping, prev, 0) {
            None => None,
            Some(at) => follow(frames, chain, mapping, k + 1, at),
        }
    }
}

/// The place where the occurrence that is anchored at `anchor` ends, if
/// there is one.
pub open spec fn occurrence_at(
    frames: Seq<Frame>,
    query: QueryView,
    mapping: RoleMapping,
    anchor: int,
) -> Option<int> {
    if 0 <= anchor < frames.len() && group_holds(query.first, frames[anchor], mapping) {
        follow(frames, query.chain, mapping, 0, anchor)
    } else {
        None
    }
}

/// The first occurrence whose anchor is at `cursor` or behind it: the places
/// of its anchor and of its end.
pub open spec fn next_occurrence(
    frames: Seq<Frame>,
    query: QueryView,
    mapping: RoleMapping,
    cursor: int,
) -> Option<(int, int)>
    decreases frames.len() - cursor,
{
    if cursor < 0 || cursor >= frames.len() {
        None
    } else {
        match occurrence_at(frames, query, mapping, cursor) {
            Some(end) => Some((cursor, end)),
            None => next_occurrence(frames, query, mapping, cursor + 1),
        }
    }
}

/// The span between the frames at the places `start` and `end`.
pub open spec fn span_of(frames: Seq<Frame>, start: int, end: int) -> MatchSpan {
    MatchSpan { start_frame: frames[start].index as i64, end_frame: frames[end].index as i64 }
}

/// All occurrences from `cursor` on, each searched behind the end of the one
/// before.
pub open spec fn occurrences(
    frames: Seq<Frame>,
    query: QueryView,
    mapping: RoleMapping,
    cursor: int,
) -> Seq<MatchSpan>
    decreases frames.len() - cursor,
{
    match next_occurrence(frames, query, mapping, cursor) {
        None => Seq::empty(),
        Some((start, end)) => {
            if cursor <= end < frames.len() {
                seq![span_of(frames, start, end)] + occurrences(frames, query, mapping, end + 1)
            } else {
                Seq::empty()
            }
        },
    }
}

/// Where no place from `from` on is hit, there is no first hit.
pub proof fn lemma_no_hit(
    frames: Seq<Frame>,
    link: LinkView,
    mapping: RoleMapping,
    prev: int,
    from: int,
)
    requires
        forall|at: int| from <= at < frames.len() ==> !hits(frames, link, mapping, prev, at),
    ensures
        first_hit(frames, link, mapping, prev, from) is None,
    decreases frames.len() - from,
{
    if from < frames.len() {
        lemma_no_hit(frames, link, mapping, prev, from + 1);
    }
}

/// Places that are not hit can be passed over.
pub proof fn lemma_hit_behind(
    frames: Seq<Frame>,
    link: LinkView,
    mapping: RoleMapping,
    prev: int,
    from: int,
    to: int,
)
    requires
        from <= to <= frames.len(),
        forall|at: int| from <= at < to ==> !hits(frames, link, mapping, prev, at),
    ensures
        first_hit(frames, link, mapping, prev, from) == first_hit(frames, link, mapping, prev, to),
    decreases to - from,
{
    if from < to {
        lemma_hit_behind(frames, link, mapping, prev, from + 1, to);
    }
}

/// The first hit is a hit, and no place between `from` and it is one.
pub proof fn lemma_first_hit(
    frames: Seq<Frame>,
    link: LinkView,
    mapping: RoleMapping,
    prev: int,
    from: int,
)
    requires
        0 <= from,
    ensures
        match first_hit(frames, link, mapping, prev, from) {
            Some(at) => {
                &&& from <= at < frames.len()
                &&& hits(frames, link, mapping, prev, at)
                &&& forall|p: int| from <= p < at ==> !hits(frames, link, mapping, prev, p)
            },
            None => forall|p: int| from <= p ==> !hits(frames, link, mapping, prev, p),
        },
    decreases frames.len() - from,
{
    if from < frames.len() && !hits(frames, link, mapping, prev, from) {
        lemma_first_hit(frames, link, mapping, prev, from + 1);
    }
}

/// Tests a group on one frame: all of its predicates have to hold.
pub fn group_matches(group: &PredicateGroup, frame: &Frame, mapping: &RoleMapping) -> (b: bool)
    requires
        covers(*frame, *mapping),
    ensures
        b == group_holds(group@, *frame, *mapping),
{
    let mut i: usize = 0;
    while i < group.predicates.len()
        invariant
            i <= group.predicates.len(),
            covers(*frame, *mapping),
            forall|j: int| 0 <= j < i ==> holds_in(#[trigger] group@[j], *frame, *mapping),
        decreases group.predicates.len() - i,
    {
        if !evaluate(&group.predicates[i], frame, mapping) {
            return false;
        }
        i = i + 1;
    }
    true
}

/// Searches the window of `link` behind the frame at `prev` for the first
/// frame that meets the group of `link`.
fn find_link(frames: &Vec<Frame>, link: &Link, mapping: &RoleMapping, prev: usize) -> (r: Option<
    usize,
>)
    requires
        timeline_wf(frames@, *mapping),
        prev < frames.len(),
    ensures
        r matches Some(at) ==> prev <= at < frames.len(),
        match r {
            Some(at) => first_hit(frames@, link@, *mapping, prev as int, 0) == Some(at as int),
            None => first_hit(frames@, link@, *mapping, prev as int, 0) is None,
        },
{
    let base: i64 = frames[prev].index as i64;
    let low: i64 = base + link.gap.range.start as i64;
    let high: i64 = base + link.gap.range.end as i64;
    let mut at: usize = prev;
    proof {
        lemma_hit_behind(frames@, link@, *mapping, prev as int, 0, prev as int);
    }
    while at < frames.len()
        invariant
            prev <= at <= frames.len(),
            timeline_wf(frames@, *mapping),
            low == frames@[prev as int].index + link.gap.range.start,
            high == frames@[prev as int].index + link.gap.range.end,
            first_hit(frames@, link@, *mapping, prev as int, 0) == first_hit(
                frames@,
                link@,
                *mapping,
                prev as int,
                at as int,
            ),
        decreases frames.len() - at,
    {
        let index: i64 = frames[at].index as i64;
        if index > high {
            proof {
                lemma_no_hit(frames@, link@, *mapping, prev as int, at as int);
            }
            return None;
        }
        if index >= low && group_matches(&link.group, &frames[at], mapping) {
            return Some(at);
        }
        at = at + 1;
    }
    None
}

/// Follows the chain from the anchor at `anchor` and gives the place where
/// it ends, if every link hits a frame.
fn follow_chain(frames: &Vec<Frame>, chain: &Vec<Link>, mapping: &RoleMapping, anchor: usize) -> (r:
    Option<usize>)
    requires
        timeline_wf(frames@, *mapping),
        anchor < frames.len(),
    ensures
        r matches Some(end) ==> anchor <= end < frames.len(),
        match r {
            Some(end) => follow(frames@, chain_view(chain@), *mapping, 0, anchor as int) == Some(
                end as int,
            ),
            None => follow(frames@, chain_view(chain@), *mapping, 0, anchor as int) is None,
        },
{
    let mut prev: usize = anchor;
    let mut k: usize = 0;
    while k < chain.len()
        invariant
            k <= chain.len(),
            anchor <= prev < frames.len(),
            timeline_wf(frames@, *mapping),
            follow(frames@, chain_view(chain@), *mapping, 0, anchor as int) == follow(
                frames@,
                chain_view(chain@),
                *mapping,
                k as int,
                prev as int,
            ),
        decreases chain.len() - k,
    {
        assert(chain_view(chain@)[k as int] == chain@[k as int]@);
        match find_link(frames, &chain[k], mapping, prev) {
            None => {
                return None;
            },
            Some(at) => {
                prev = at;
                k = k + 1;
            },
        }
    }
    Some(prev)
}

/// Tests whether the numbers of the frames rise and each frame has a slot
/// for both roles.
pub fn check_timeline(frames: &Vec<Frame>, mapping: &RoleMapping) -> (b: bool)
    ensures
        b == timeline_wf(frames@, *mapping),
{
    let mut i: usize = 0;
    while i < frames.len()
        invariant
            i <= frames.len(),
            forall|j: int| 0 <= j < i ==> covers(#[trigger] frames@[j], *mapping),
            forall|j: int, k: int|
                0 <= j < k < i ==> (#[trigger] frames@[j]).index < (#[trigger] frames@[k]).index,
        decreases frames.len() - i,
    {
        let frame = &frames[i];
        if !(mapping.primary < frame.slots.len() && mapping.secondary < frame.slots.len()) {
            return false;
        }
        if i > 0 && frames[i - 1].index >= frame.index {
            assert(!(frames@[i - 1].index < frames@[i as int].index));
            return false;
        }
        assert forall|j: int, k: int| 0 <= j < k < i + 1 implies (#[trigger] frames@[j]).index < (
        #[trigger] frames@[k]).index by {
            if k == i && j < i - 1 {
                assert(frames@[j].index < frames@[i - 1].index);
            }
        }
        i = i + 1;
    }
    true
}

/// A search in progress: a timeline, a query, and the place from which the
/// next anchor is looked for. It walks the timeline once; to start over, make
/// a new search.
pub struct Searcher<'a> {
    frames: &'a Vec<Frame>,
    query: &'a Query,
    mapping: RoleMapping,
    cursor: usize,
}

impl<'a> Searcher<'a> {
    /// The timeline that is searched.
    pub closed spec fn frames(&self) -> Seq<Frame> {
        self.frames@
    }

    /// The query that is searched for.
    pub closed spec fn query(&self) -> QueryView {
        self.query@
    }

    /// The slots of the two roles.
    pub closed spec fn mapping(&self) -> RoleMapping {
        self.mapping
    }

    /// The place from which the next anchor is looked for.
    pub closed spec fn cursor(&self) -> int {
        self.cursor as int
    }

    /// The timeline can be searched and the cursor lies within it or at its
    /// end.
    pub open spec fn wf(&self) -> bool {
        &&& timeline_wf(self.frames(), self.mapping())
        &&& 0 <= self.cursor() <= self.frames().len()
    }

    /// A search of `frames` for `query` that starts at the first frame.
    pub fn new(frames: &'a Vec<Frame>, query: &'a Query, mapping: RoleMapping) -> (search: Self)
        requires
            timeline_wf(frames@, mapping),
        ensures
            search.wf(),
            search.frames() == frames@,
            search.query() == query@,
            search.mapping() == mapping,
            search.cursor() == 0,
    {
        Searcher { frames, query, mapping, cursor: 0 }
    }

    /// The next occurrence: the first one whose anchor lies at the cursor or
    /// behind it. The cursor moves behind the end of the occurrence, or to
    /// the end of the timeline when there is none.
    pub fn next_match(&mut self) -> (r: Option<MatchSpan>)
        requires
            old(self).wf(),
        ensures
            final(self).wf(),
            final(self).frames() == old(self).frames(),
            final(self).query() == old(self).query(),
            final(self).mapping() == old(self).mapping(),
            match next_occurrence(
                old(self).frames(),
                old(self).query(),
                old(self).mapping(),
                old(self).cursor(),
            ) {
                Some((start, end)) => {
                    &&& r == Some(span_of(old(self).frames(), start, end))
                    &&& old(self).cursor() <= start <= end < old(self).frames().len()
                    &&& final(self).cursor() == end + 1
                },
                None => r.is_none() && final(self).cursor() == old(self).frames().len(),
            },
    {
        let mut at: usize = self.cursor;
        while at < self.frames.len()
            invariant
                self.cursor <= at <= self.frames.len(),
                self.wf(),
                *self == *old(self),
                next_occurrence(self.frames@, self.query@, self.mapping, self.cursor as int)
                    == next_occurrence(self.frames@, self.query@, self.mapping, at as int),
            decreases self.frames.len() - at,
        {
            if group_matches(&self.query.first, &self.frames[at], &self.mapping) {
                match follow_chain(self.frames, &self.query.chain, &self.mapping, at) {
                    Some(end) => {
                        let span = MatchSpan {
                            start_frame: self.frames[at].index as i64,
                            end_frame: self.frames[end].index as i64,
                        };
                        self.cursor = end + 1;
                        return Some(span);
                    },
                    None => {},
                }
            }
            at = at + 1;
        }
        self.cursor = at;
        None
    }
}

/// The first occurrence of `query` in `frames`.
pub fn find(mapping: &RoleMapping, query: &Query, frames: &Vec<Frame>) -> (r: Option<MatchSpan>)
    requires
        timeline_wf(frames@, *mapping),
    ensures
        match next_occurrence(frames@, query@, *mapping, 0) {
            Some((start, end)) => r == Some(span_of(frames@, start, end)),
            None => r.is_none(),
        },
{
    let mut search = Searcher::new(frames, query, *mapping);
    search.next_match()
}

/// All occurrences of `query` in `frames`, in the order of the timeline.
pub fn find_all(mapping: &RoleMapping, query: &Query, frames: &Vec<Frame>) -> (r: Vec<MatchSpan>)
    requires
        timeline_wf(frames@, *mapping),
    ensures
        r@ == occurrences(frames@, query@, *mapping, 0),
{
    let mut search = Searcher::new(frames, query, *mapping);
    let mut found: Vec<MatchSpan> = Vec::new();
    loop
        invariant
            search.wf(),
            search.frames() == frames@,
            search.query() == query@,
            search.mapping() == *mapping,
            found@ + occurrences(frames@, query@, *mapping, search.cursor()) == occurrences(
                frames@,
                query@,
                *mapping,
                0,
            ),
        decreases frames.len() - search.cursor(),
    {
        let ghost before = search.cursor();
        match search.next_match() {
            None => {
                assert(found@ + Seq::<MatchSpan>::empty() =~= found@);
                return found;
            },
            Some(span) => {
                proof {
                    let tail = occurrences(frames@, query@, *mapping, search.cursor());
                    assert(found@.push(span) + tail =~= found@ + (seq![span] + tail));
                }
                found.push(span);
            },
        }
    }
}

/// A chain that is followed from a frame ends at that frame or behind it.
pub proof fn lemma_follow_stays(
    frames: Seq<Frame>,
    chain: Seq<LinkView>,
    mapping: RoleMapping,
    k: int,
    prev: int,
)
    requires
        timeline_wf(frames, mapping),
        0 <= prev < frames.len(),
        0 <= k,
    ensures
        follow(frames, chain, mapping, k, prev) matches Some(end) ==> prev <= end < frames.len(),
    decreases chain.len() - k,
{
    if k < chain.len() {
        lemma_first_hit(frames, chain[k], mapping, prev, 0);
        match first_hit(frames, chain[k], mapping, prev, 0) {
            Some(at) => {
                if at < prev {
                    assert(frames[at].index < frames[prev].index);
                }
                lemma_follow_stays(frames, chain, mapping, k + 1, at);
            },
            None => {},
        }
    }
}

/// The next occurrence is the earliest: it is anchored at the first place
/// from the cursor on at which an occurrence starts.
pub proof fn lemma_next_occurrence_is_earliest(
    frames: Seq<Frame>,
    query: QueryView,
    mapping: RoleMapping,
    cursor: int,
)
    requires
        timeline_wf(frames, mapping),
        0 <= cursor,
    ensures
        match next_occurrence(frames, query, mapping, cursor) {
            Some((start, end)) => {
                &&& cursor <= start <= end < frames.len()
                &&& occurrence_at(frames, query, mapping, start) == Some(end)
                &&& forall|a: int|
                    cursor <= a < start ==> occurrence_at(frames, query, mapping, a) is None
            },
            None => forall|a: int| cursor <= a ==> occurrence_at(frames, query, mapping, a) is None,
        },
    decreases frames.len() - cursor,
{
    if cursor < frames.len() {
        match occurrence_at(frames, query, mapping, cursor) {
            Some(end) => {
                lemma_follow_stays(frames, query.chain, mapping, 0, cursor);
            },
            None => {
                lemma_next_occurrence_is_earliest(frames, query, mapping, cursor + 1);
            },
        }
    }
}

/// The occurrences of a search do not overlap and come in the order of the
/// timeline: each one ends at its anchor or behind it, and the next one is
/// anchored behind that end. None is anchored before the cursor.
pub proof fn lemma_occurrences_rise(
    frames: Seq<Frame>,
    query: QueryView,
    mapping: RoleMapping,
    cursor: int,
)
    requires
        timeline_wf(frames, mapping),
        0 <= cursor,
    ensures
        ({
            let found = occurrences(frames, query, mapping, cursor);
            &&& forall|i: int|
                0 <= i < found.len() ==> (#[trigger] found[i]).start_frame <= found[i].end_frame
            &&& forall|i: int, j: int|
                0 <= i < j < found.len() ==> (#[trigger] found[i]).end_frame < (
                #[trigger] found[j]).start_frame
            &&& forall|i: int|
                0 <= i < found.len() ==> cursor < frames.len() && frames[cursor].index <= (
                #[trigger] found[i]).start_frame
        }),
    decreases frames.len() - cursor,
{
    lemma_next_occurrence_is_earliest(frames, query, mapping, cursor);
    match next_occurrence(frames, query, mapping, cursor) {
        None => {},
        Some((start, end)) => {
            let head = span_of(frames, start, end);
            let tail = occurrences(frames, query, mapping, end + 1);
            let found = occurrences(frames, query, mapping, cursor);
            lemma_occurrences_rise(frames, query, mapping, end + 1);
            assert(found == seq![head] + tail);
            if cursor < start {
                assert(frames[cursor].index < frames[start].index);
            }
            if start < end {
                assert(frames[start].index < frames[end].index);
            }
            assert forall|i: int| 0 <= i < found.len() implies cursor < frames.len()
                && frames[cursor].index <= (#[trigger] found[i]).start_frame
                && found[i].start_frame <= found[i].end_frame by {
                if i > 0 {
                    assert(found[i] == tail[i - 1]);
                    assert(frames[end].index < frames[end + 1].index);
                }
            }
            assert forall|i: int, j: int| 0 <= i < j < found.len() implies (
            #[trigger] found[i]).end_frame < (#[trigger] found[j]).start_frame by {
                assert(found[j] == tail[j - 1]);
                assert(frames[end].index < frames[end + 1].index);
                if i > 0 {
                    assert(found[i] == tail[i - 1]);
                }
            }
        },
    }
}

/// A gap whose bounds are one number leaves the next group one frame: the
/// frame whose number is that much above the number of the frame before.
/// Where the timeline has no such frame, or the group does not hold in it,
/// the link hits nothing and no occurrence goes through it.
pub proof fn lemma_exact_gap(
    frames: Seq<Frame>,
    link: LinkView,
    mapping: RoleMapping,
    prev: int,
)
    requires
        timeline_wf(frames, mapping),
        0 <= prev < frames.len(),
        link.gap.range.start == link.gap.range.end,
    ensures
        match first_hit(frames, link, mapping, prev, 0) {
            Some(at) => {
                &&& 0 <= at < frames.len()
                &&& frames[at].index == frames[prev].index + link.gap.range.start
                &&& group_holds(link.group, frames[at], mapping)
            },
            None => forall|at: int|
                0 <= at < frames.len() && frames[at].index == frames[prev].index
                    + link.gap.range.start ==> !group_holds(link.group, #[trigger] frames[at], mapping),
        },
{
    lemma_first_hit(frames, link, mapping, prev, 0);
    if first_hit(frames, link, mapping, prev, 0) is None {
        assert forall|at: int|
            0 <= at < frames.len() && frames[at].index == frames[prev].index
                + link.gap.range.start implies !group_holds(
            link.group,
            #[trigger] frames[at],
            mapping,
        ) by {
            assert(!hits(frames, link, mapping, prev, at));
        }
    }
}

/// A gap from 0 to 0 asks the next group to hold in the very frame that met
/// the group before.
pub proof fn lemma_zero_gap(frames: Seq<Frame>, link: LinkView, mapping: RoleMapping, prev: int)
    requires
        timeline_wf(frames, mapping),
        0 <= prev < frames.len(),
        link.gap.range.start == 0,
        link.gap.range.end == 0,
    ensures
        first_hit(frames, link, mapping, prev, 0) == if group_holds(
            link.group,
            frames[prev],
            mapping,
        ) {
            Some(prev)
        } else {
            None::<int>
        },
{
    lemma_first_hit(frames, link, mapping, prev, 0);
    match first_hit(frames, link, mapping, prev, 0) {
        Some(at) => {
            if at < prev {
                assert(frames[at].index < frames[prev].index);
            }
            if prev < at {
                assert(frames[prev].index < frames[at].index);
            }
        },
        None => {
            assert(!hits(frames, link, mapping, prev, prev));
        },
    }
}

/// Where a link hits no frame, the chain ends there: no occurrence goes
/// through that link from that frame.
pub proof fn lemma_missed_link_ends_chain(
    frames: Seq<Frame>,
    chain: Seq<LinkView>,
    mapping: RoleMapping,
    k: int,
    prev: int,
)
    requires
        0 <= k < chain.len(),
        first_hit(frames, chain[k], mapping, prev, 0) is None,
    ensures
        follow(frames, chain, mapping, k, prev) is None,
{
}

/// A query of one group occurs wherever the group holds, and each of its
/// occurrences ends in the frame in which it starts.
pub proof fn lemma_single_group(
    frames: Seq<Frame>,
    query: QueryView,
    mapping: RoleMapping,
    anchor: int,
)
    requires
        query.chain.len() == 0,
        0 <= anchor < frames.len(),
    ensures
        occurrence_at(frames, query, mapping, anchor) == if group_holds(
            query.first,
            frames[anchor],
            mapping,
        ) {
            Some(anchor)
        } else {
            None::<int>
        },
{
}

/// Two searches of one timeline for one query, each from its first frame,
/// report the same occurrences in the same order.
pub proof fn lemma_search_repeats(
    frames: Seq<Frame>,
    query: QueryView,
    mapping: RoleMapping,
    first: Seq<MatchSpan>,
    second: Seq<MatchSpan>,
)
    requires
        first == occurrences(frames, query, mapping, 0),
        second == occurrences(frames, query, mapping, 0),
    ensures
        first == second,
{
}

} // verus!
