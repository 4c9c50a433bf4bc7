//! The text form of a query and its parser.
//!
//! ```text
//! range      := "=" number | number ".." number | ".." number
//! role       := "p" | "o"
//! action     := "." role number
//! percent    := "%" role range
//! predicate  := action | percent
//! group      := predicate+
//! frame_gap  := "fg" range
//! query      := group (blank* frame_gap blank* group)*
//! ```
//!
//! A number is the longest run of decimal digits at its place. The first byte
//! of a production decides which alternative is read, so every failure is
//! reported at the byte where the text leaves the grammar.

use vstd::prelude::*;
use vstd::slice::slice_subrange;
use vstd::string::StringSliceAdditionalSpecFns;
use crate::decimal::{leading_number, lemma_digit_run_bound, lex_u16, lex_u32};
use crate::query::{
    FrameGap, Link, LinkView, Predicate, PredicateGroup, Query, QueryView, Role, chain_view,
    group_wf,
};
use crate::range::Range;

verus! {

/// The byte `=`.
pub const EQUALS: u8 = 0x3d;

/// The byte `.`.
pub const DOT: u8 = 0x2e;

/// The byte `%`.
pub const PERCENT: u8 = 0x25;

/// The byte `p`.
pub const LETTER_P: u8 = 0x70;

/// The byte `o`.
pub const LETTER_O: u8 = 0x6f;

/// The byte `f`.
pub const LETTER_F: u8 = 0x66;

/// The byte `g`.
pub const LETTER_G: u8 = 0x67;

/// The byte of a space.
pub const SPACE: u8 = 0x20;

/// Why a text is no query, and the index of the byte at which it shows.
#[derive(Clone, Copy, Debug, PartialEq, Eq, Structural)]
pub enum SearchParseError {
    /// The text does not follow the grammar from this byte on.
    GrammarMismatch { position: usize },
    /// The range that starts at this byte has its lower bound above its
    /// upper bound.
    IllegalRange { position: usize },
}

impl SearchParseError {
    /// The index of the byte at which the failure shows.
    pub open spec fn spec_position(&self) -> usize {
        match *self {
            SearchParseError::GrammarMismatch { position } => position,
            SearchParseError::IllegalRange { position } => position,
        }
    }

    /// The index of the byte at which the failure shows.
    #[verifier::when_used_as_spec(spec_position)]
    pub fn position(&self) -> (position: usize)
        ensures
            position == self.spec_position(),
    {
        match *self {
            SearchParseError::GrammarMismatch { position } => position,
            SearchParseError::IllegalRange { position } => position,
        }
    }
}

/// What reading a production at some place gives: the value and the place
/// behind it, or the failure.
pub type Parsed<T> = Result<(T, int), SearchParseError>;

/// The failure of the grammar at `pos`.
pub open spec fn mismatch<T>(pos: int) -> Parsed<T> {
    Err(SearchParseError::GrammarMismatch { position: pos as usize })
}

/// Whether the byte `b` stands at `pos`.
pub open spec fn byte_at(s: Seq<u8>, pos: int, b: u8) -> bool {
    0 <= pos < s.len() && s[pos] == b
}

/// Whether `b` is a space, a tab, a line feed or a carriage return.
pub open spec fn is_blank(b: u8) -> bool {
    b == 0x20 || b == 0x09 || b == 0x0a || b == 0x0d
}

/// The number at `pos`, if it is at most `max`, and the place behind it.
pub open spec fn number_at(s: Seq<u8>, pos: int, max: nat) -> Option<(nat, int)> {
    if 0 <= pos <= s.len() {
        match leading_number(s.skip(pos), max) {
            Some((value, run)) => Some((value, pos + run)),
            None => None,
        }
    } else {
        None
    }
}

/// `"=" number`: the range of that one number.
pub open spec fn range_single_at(s: Seq<u8>, pos: int) -> Parsed<Range> {
    if !byte_at(s, pos, EQUALS) {
        mismatch(pos)
    } else {
        match number_at(s, pos + 1, u32::MAX as nat) {
            Some((n, next)) => Ok((Range { start: n as u32, end: n as u32 }, next)),
            None => mismatch(pos + 1),
        }
    }
}

/// `number ".." number`: the two bounds as they are written, in order or not.
pub open spec fn range_multiple_at(s: Seq<u8>, pos: int) -> Parsed<Range> {
    match number_at(s, pos, u32::MAX as nat) {
        None => mismatch(pos),
        Some((low, dots)) => {
            if !byte_at(s, dots, DOT) {
                mismatch(dots)
            } else if !byte_at(s, dots + 1, DOT) {
                mismatch(dots + 1)
            } else {
                match number_at(s, dots + 2, u32::MAX as nat) {
                    None => mismatch(dots + 2),
                    Some((high, next)) => Ok(
                        (Range { start: low as u32, end: high as u32 }, next),
                    ),
                }
            }
        },
    }
}

/// `".." number`: the range from 0 to the number.
pub open spec fn range_capped_at(s: Seq<u8>, pos: int) -> Parsed<Range> {
    if !byte_at(s, pos, DOT) {
        mismatch(pos)
    } else if !byte_at(s, pos + 1, DOT) {
        mismatch(pos + 1)
    } else {
        match number_at(s, pos + 2, u32::MAX as nat) {
            Some((n, next)) => Ok((Range { start: 0, end: n as u32 }, next)),
            None => mismatch(pos + 2),
        }
    }
}

/// A range in one of its three forms. Bounds out of order are refused.
pub open spec fn range_at(s: Seq<u8>, pos: int) -> Parsed<Range> {
    let found = if byte_at(s, pos, EQUALS) {
        range_single_at(s, pos)
    } else if byte_at(s, pos, DOT) {
        range_capped_at(s, pos)
    } else {
        range_multiple_at(s, pos)
    };
    match found {
        Err(e) => Err(e),
        Ok((range, next)) => {
            if range.start > range.end {
                Err(SearchParseError::IllegalRange { position: pos as usize })
            } else {
                Ok((range, next))
            }
        },
    }
}

/// `"p"` for the primary role, `"o"` for the secondary one.
pub open spec fn role_at(s: Seq<u8>, pos: int) -> Parsed<Role> {
    if byte_at(s, pos, LETTER_P) {
        Ok((Role::Primary, pos + 1))
    } else if byte_at(s, pos, LETTER_O) {
        Ok((Role::Secondary, pos + 1))
    } else {
        mismatch(pos)
    }
}

/// `"." role number`: the role is in the action state of that number.
pub open spec fn action_at(s: Seq<u8>, pos: int) -> Parsed<Predicate> {
    if !byte_at(s, pos, DOT) {
        mismatch(pos)
    } else {
        match role_at(s, pos + 1) {
            Err(e) => Err(e),
            Ok((role, digits)) => match number_at(s, digits, u16::MAX as nat) {
                Some((n, next)) => Ok((Predicate::ActionState { role, state_id: n as u16 }, next)),
                None => mismatch(digits),
            },
        }
    }
}

/// `"%" role range`: the role's damage lies in the range.
pub open spec fn percent_at(s: Seq<u8>, pos: int) -> Parsed<Predicate> {
    if !byte_at(s, pos, PERCENT) {
        mismatch(pos)
    } else {
        match role_at(s, pos + 1) {
            Err(e) => Err(e),
            Ok((role, bounds)) => match range_at(s, bounds) {
                Ok((range, next)) => Ok((Predicate::Percent { role, range }, next)),
                Err(e) => Err(e),
            },
        }
    }
}

/// Whether a predicate starts at `pos`, by its first byte.
pub open spec fn starts_predicate(s: Seq<u8>, pos: int) -> bool {
    byte_at(s, pos, DOT) || byte_at(s, pos, PERCENT)
}

/// An action or a percent predicate.
pub open spec fn predicate_at(s: Seq<u8>, pos: int) -> Parsed<Predicate> {
    if byte_at(s, pos, DOT) {
        action_at(s, pos)
    } else {
        percent_at(s, pos)
    }
}

/// The predicates that follow one another from `pos` on, behind those of
/// `seen`.
pub open spec fn group_from(s: Seq<u8>, pos: int, seen: Seq<Predicate>) -> Parsed<Seq<Predicate>>
    decreases s.len() - pos,
{
    if starts_predicate(s, pos) {
        match predicate_at(s, pos) {
            Err(e) => Err(e),
            Ok((predicate, next)) => {
                if pos < next <= s.len() {
                    group_from(s, next, seen.push(predicate))
                } else {
                    mismatch(pos)
                }
            },
        }
    } else {
        Ok((seen, pos))
    }
}

/// One predicate or more, with nothing between them.
pub open spec fn group_at(s: Seq<u8>, pos: int) -> Parsed<Seq<Predicate>> {
    if starts_predicate(s, pos) {
        group_from(s, pos, Seq::empty())
    } else {
        mismatch(pos)
    }
}

/// The first place from `pos` on where no blank stands.
pub open spec fn skip_blanks(s: Seq<u8>, pos: int) -> int
    decreases s.len() - pos,
{
    if 0 <= pos < s.len() && is_blank(s[pos]) {
        skip_blanks(s, pos + 1)
    } else {
        pos
    }
}

/// Whether a frame gap starts at `pos`, by its two letters.
pub open spec fn starts_gap(s: Seq<u8>, pos: int) -> bool {
    byte_at(s, pos, LETTER_F) && byte_at(s, pos + 1, LETTER_G)
}

/// `"fg" range`: the frames that may pass before the next group.
pub open spec fn frame_gap_at(s: Seq<u8>, pos: int) -> Parsed<FrameGap> {
    if !byte_at(s, pos, LETTER_F) {
        mismatch(pos)
    } else if !byte_at(s, pos + 1, LETTER_G) {
        mismatch(pos + 1)
    } else {
        match range_at(s, pos + 2) {
            Ok((range, next)) => Ok((FrameGap { range }, next)),
            Err(e) => Err(e),
        }
    }
}

/// A frame gap, blanks if there are any, and the group behind them.
pub open spec fn link_at(s: Seq<u8>, pos: int) -> Parsed<LinkView> {
    match frame_gap_at(s, pos) {
        Err(e) => Err(e),
        Ok((gap, blanks)) => match group_at(s, skip_blanks(s, blanks)) {
            Err(e) => Err(e),
            Ok((group, next)) => Ok((LinkView { gap, group }, next)),
        },
    }
}

/// The links that follow one another from `pos` on, behind those of `seen`.
/// Blanks may stand before each of them; where no frame gap follows, the
/// chain ends at `pos`.
pub open spec fn chain_from(s: Seq<u8>, pos: int, seen: Seq<LinkView>) -> Parsed<Seq<LinkView>>
    decreases s.len() - pos,
{
    let gap = skip_blanks(s, pos);
    if starts_gap(s, gap) {
        match link_at(s, gap) {
            Err(e) => Err(e),
            Ok((link, next)) => {
                if pos < next <= s.len() {
                    chain_from(s, next, seen.push(link))
                } else {
                    mismatch(pos)
                }
            },
        }
    } else {
        Ok((seen, pos))
    }
}

/// The longest query that starts at `pos`.
pub open spec fn query_at(s: Seq<u8>, pos: int) -> Parsed<QueryView> {
    match group_at(s, pos) {
        Err(e) => Err(e),
        Ok((first, links)) => match chain_from(s, links, Seq::empty()) {
            Err(e) => Err(e),
            Ok((chain, next)) => Ok((QueryView { first, chain }, next)),
        },
    }
}

/// The query that the whole of `s` writes.
pub open spec fn query_of(s: Seq<u8>) -> Result<QueryView, SearchParseError> {
    match query_at(s, 0) {
        Err(e) => Err(e),
        Ok((query, next)) => {
            if next == s.len() {
                Ok(query)
            } else {
                Err(SearchParseError::GrammarMismatch { position: next as usize })
            }
        },
    }
}

/// Whether what the parser returned is what the grammar gives.
pub open spec fn agrees<T>(r: Result<(T, usize), SearchParseError>, s: Parsed<T>) -> bool {
    match (r, s) {
        (Ok((value, next)), Ok((v, n))) => value == v && next as int == n,
        (Err(e), Err(f)) => e == f,
        _ => false,
    }
}

/// Whether the view of what the parser returned is what the grammar gives.
pub open spec fn agrees_in_view<T: View>(
    r: Result<(T, usize), SearchParseError>,
    s: Parsed<T::V>,
) -> bool {
    match (r, s) {
        (Ok((value, next)), Ok((v, n))) => value@ == v && next as int == n,
        (Err(e), Err(f)) => e == f,
        _ => false,
    }
}

/// Whether `r` lies behind `pos` and within a text of `len` bytes.
pub open spec fn advances<T>(r: Result<(T, usize), SearchParseError>, pos: usize, len: usize) -> bool {
    r matches Ok((_, next)) ==> pos < next <= len
}

/// The predicates that are read behind well-formed ones are well formed,
/// and there is one more of them at least where a predicate starts.
proof fn lemma_group_from_wf(s: Seq<u8>, pos: int, seen: Seq<Predicate>)
    requires
        forall|i: int| 0 <= i < seen.len() ==> (#[trigger] seen[i]).wf(),
        group_from(s, pos, seen) is Ok,
    ensures
        ({
            let group = group_from(s, pos, seen)->Ok_0.0;
            &&& group.len() >= seen.len()
            &&& starts_predicate(s, pos) ==> group.len() > seen.len()
            &&& forall|i: int| 0 <= i < group.len() ==> (#[trigger] group[i]).wf()
        }),
    decreases s.len() - pos,
{
    if starts_predicate(s, pos) {
        let (predicate, next) = predicate_at(s, pos)->Ok_0;
        let more = seen.push(predicate);
        assert forall|i: int| 0 <= i < more.len() implies (#[trigger] more[i]).wf() by {
            if i < seen.len() {
                assert(more[i] == seen[i]);
            }
        }
        lemma_group_from_wf(s, next, more);
    }
}

/// The links that are read behind well-formed ones are well formed.
proof fn lemma_chain_from_wf(s: Seq<u8>, pos: int, seen: Seq<LinkView>)
    requires
        forall|i: int| 0 <= i < seen.len() ==> (#[trigger] seen[i]).wf(),
        chain_from(s, pos, seen) is Ok,
    ensures
        forall|i: int|
            0 <= i < chain_from(s, pos, seen)->Ok_0.0.len() ==> (#[trigger] chain_from(
                s,
                pos,
                seen,
            )->Ok_0.0[i]).wf(),
    decreases s.len() - pos,
{
    let gap = skip_blanks(s, pos);
    if starts_gap(s, gap) {
        let (link, next) = link_at(s, gap)->Ok_0;
        let blanks = frame_gap_at(s, gap)->Ok_0.1;
        lemma_group_from_wf(s, skip_blanks(s, blanks), Seq::empty());
        let more = seen.push(link);
        assert forall|i: int| 0 <= i < more.len() implies (#[trigger] more[i]).wf() by {
            if i < seen.len() {
                assert(more[i] == seen[i]);
            }
        }
        lemma_chain_from_wf(s, next, more);
    }
}

/// What the grammar reads as a query is well formed: every group has a
/// predicate and every range has its bounds in order.
pub proof fn lemma_read_query_wf(s: Seq<u8>, pos: int)
    requires
        query_at(s, pos) is Ok,
    ensures
        query_at(s, pos)->Ok_0.0.wf(),
{
    lemma_group_from_wf(s, pos, Seq::empty());
    let links = group_at(s, pos)->Ok_0.1;
    lemma_chain_from_wf(s, links, Seq::empty());
}

/// Whether a failure `r` shows at `pos` or behind it, and within a text of
/// `len` bytes or at its end.
pub open spec fn fails_within<T>(
    r: Result<(T, usize), SearchParseError>,
    pos: usize,
    len: usize,
) -> bool {
    r matches Err(e) ==> pos <= e.spec_position() <= len
}

/// Tests whether the byte `b` stands at `pos`.
fn byte_is(input: &[u8], pos: usize, b: u8) -> (r: bool)
    ensures
        r == byte_at(input@, pos as int, b),
{
    pos < input.len() && input[pos] == b
}

/// Reads a number that fits a `u32` at `pos`.
fn number_u32(input: &[u8], pos: usize) -> (r: Option<(u32, usize)>)
    requires
        pos <= input.len(),
    ensures
        match r {
            Some((value, next)) => {
                &&& number_at(input@, pos as int, u32::MAX as nat) == Some((value as nat, next as int))
                &&& pos < next <= input.len()
            },
            None => number_at(input@, pos as int, u32::MAX as nat) is None,
        },
{
    let tail = slice_subrange(input, pos, input.len());
    proof {
        assert(tail@ =~= input@.skip(pos as int));
        lemma_digit_run_bound(tail@);
    }
    match lex_u32(tail) {
        Some((rest, value)) => {
            let next: usize = input.len() - rest.len();
            Some((value, next))
        },
        None => None,
    }
}

/// Reads a number that fits a `u16` at `pos`.
fn number_u16(input: &[u8], pos: usize) -> (r: Option<(u16, usize)>)
    requires
        pos <= input.len(),
    ensures
        match r {
            Some((value, next)) => {
                &&& number_at(input@, pos as int, u16::MAX as nat) == Some((value as nat, next as int))
                &&& pos < next <= input.len()
            },
            None => number_at(input@, pos as int, u16::MAX as nat) is None,
        },
{
    let tail = slice_subrange(input, pos, input.len());
    proof {
        assert(tail@ =~= input@.skip(pos as int));
        lemma_digit_run_bound(tail@);
    }
    match lex_u16(tail) {
        Some((rest, value)) => {
            let next: usize = input.len() - rest.len();
            Some((value, next))
        },
        None => None,
    }
}

/// Reads `"=" number` at `pos`.
fn range_single(input: &[u8], pos: usize) -> (r: Result<(Range, usize), SearchParseError>)
    requires
        pos <= input.len(),
    ensures
        agrees(r, range_single_at(input@, pos as int)),
        advances(r, pos, input.len()),
        fails_within(r, pos, input.len()),
{
    if !byte_is(input, pos, EQUALS) {
        return Err(SearchParseError::GrammarMismatch { position: pos });
    }
    match number_u32(input, pos + 1) {
        Some((n, next)) => Ok((Range { start: n, end: n }, next)),
        None => Err(SearchParseError::GrammarMismatch { position: pos + 1 }),
    }
}

/// Reads `number ".." number` at `pos`.
fn range_multiple(input: &[u8], pos: usize) -> (r: Result<(Range, usize), SearchParseError>)
    requires
        pos <= input.len(),
    ensures
        agrees(r, range_multiple_at(input@, pos as int)),
        advances(r, pos, input.len()),
        fails_within(r, pos, input.len()),
{
    match number_u32(input, pos) {
        None => Err(SearchParseError::GrammarMismatch { position: pos }),
        Some((low, dots)) => {
            if !byte_is(input, dots, DOT) {
                return Err(SearchParseError::GrammarMismatch { position: dots });
            }
            if !byte_is(input, dots + 1, DOT) {
                return Err(SearchParseError::GrammarMismatch { position: dots + 1 });
            }
            match number_u32(input, dots + 2) {
                None => Err(SearchParseError::GrammarMismatch { position: dots + 2 }),
                Some((high, next)) => Ok((Range { start: low, end: high }, next)),
            }
        },
    }
}

/// Reads `".." number` at `pos`.
fn range_capped(input: &[u8], pos: usize) -> (r: Result<(Range, usize), SearchParseError>)
    requires
        pos <= input.len(),
    ensures
        agrees(r, range_capped_at(input@, pos as int)),
        advances(r, pos, input.len()),
        fails_within(r, pos, input.len()),
{
    if !byte_is(input, pos, DOT) {
        return Err(SearchParseError::GrammarMismatch { position: pos });
    }
    if !byte_is(input, pos + 1, DOT) {
        return Err(SearchParseError::GrammarMismatch { position: pos + 1 });
    }
    match number_u32(input, pos + 2) {
        Some((n, next)) => Ok((Range { start: 0, end: n }, next)),
        None => Err(SearchParseError::GrammarMismatch { position: pos + 2 }),
    }
}

/// Reads a range at `pos` and refuses bounds that are out of order.
fn range(input: &[u8], pos: usize) -> (r: Result<(Range, usize), SearchParseError>)
    requires
        pos <= input.len(),
    ensures
        agrees(r, range_at(input@, pos as int)),
        advances(r, pos, input.len()),
        fails_within(r, pos, input.len()),
        r matches Ok((range, _)) ==> range.wf(),
{
    let found = if byte_is(input, pos, EQUALS) {
        range_single(input, pos)
    } else if byte_is(input, pos, DOT) {
        range_capped(input, pos)
    } else {
        range_multiple(input, pos)
    };
    match found {
        Err(e) => Err(e),
        Ok((range, next)) => {
            if range.start > range.end {
                Err(SearchParseError::IllegalRange { position: pos })
            } else {
                Ok((range, next))
            }
        },
    }
}

/// Reads a role at `pos`.
fn role(input: &[u8], pos: usize) -> (r: Result<(Role, usize), SearchParseError>)
    requires
        pos <= input.len(),
    ensures
        agrees(r, role_at(input@, pos as int)),
        advances(r, pos, input.len()),
        fails_within(r, pos, input.len()),
{
    if byte_is(input, pos, LETTER_P) {
        Ok((Role::Primary, pos + 1))
    } else if byte_is(input, pos, LETTER_O) {
        Ok((Role::Secondary, pos + 1))
    } else {
        Err(SearchParseError::GrammarMismatch { position: pos })
    }
}

/// Reads an action predicate at `pos`.
fn action_from(input: &[u8], pos: usize) -> (r: Result<(Predicate, usize), SearchParseError>)
    requires
        pos <= input.len(),
    ensures
        agrees(r, action_at(input@, pos as int)),
        advances(r, pos, input.len()),
        fails_within(r, pos, input.len()),
        r matches Ok((predicate, _)) ==> predicate.wf(),
{
    if !byte_is(input, pos, DOT) {
        return Err(SearchParseError::GrammarMismatch { position: pos });
    }
    match role(input, pos + 1) {
        Err(e) => Err(e),
        Ok((role, digits)) => match number_u16(input, digits) {
            Some((n, next)) => Ok((Predicate::ActionState { role, state_id: n }, next)),
            None => Err(SearchParseError::GrammarMismatch { position: digits }),
        },
    }
}

/// Reads a percent predicate at `pos`.
fn percent_from(input: &[u8], pos: usize) -> (r: Result<(Predicate, usize), SearchParseError>)
    requires
        pos <= input.len(),
    ensures
        agrees(r, percent_at(input@, pos as int)),
        advances(r, pos, input.len()),
        fails_within(r, pos, input.len()),
        r matches Ok((predicate, _)) ==> predicate.wf(),
{
    if !byte_is(input, pos, PERCENT) {
        return Err(SearchParseError::GrammarMismatch { position: pos });
    }
    match role(input, pos + 1) {
        Err(e) => Err(e),
        Ok((role, bounds)) => match range(input, bounds) {
            Ok((range, next)) => Ok((Predicate::Percent { role, range }, next)),
            Err(e) => Err(e),
        },
    }
}

/// Reads a predicate at `pos`: an action where a dot stands, else a percent.
fn predicate(input: &[u8], pos: usize) -> (r: Result<(Predicate, usize), SearchParseError>)
    requires
        pos <= input.len(),
    ensures
        agrees(r, predicate_at(input@, pos as int)),
        advances(r, pos, input.len()),
        fails_within(r, pos, input.len()),
        r matches Ok((predicate, _)) ==> predicate.wf(),
{
    if byte_is(input, pos, DOT) {
        action_from(input, pos)
    } else {
        percent_from(input, pos)
    }
}

/// Reads a group at `pos`: predicates as long as one starts.
fn group(input: &[u8], pos: usize) -> (r: Result<(PredicateGroup, usize), SearchParseError>)
    requires
        pos <= input.len(),
    ensures
        agrees_in_view(r, group_at(input@, pos as int)),
        advances(r, pos, input.len()),
        fails_within(r, pos, input.len()),
        r matches Ok((group, _)) ==> group_wf(group@),
{
    if !(byte_is(input, pos, DOT) || byte_is(input, pos, PERCENT)) {
        return Err(SearchParseError::GrammarMismatch { position: pos });
    }
    let mut predicates: Vec<Predicate> = Vec::new();
    let mut at: usize = pos;
    while byte_is(input, at, DOT) || byte_is(input, at, PERCENT)
        invariant
            pos <= at <= input.len(),
            at == pos ==> predicates@.len() == 0,
            at > pos ==> predicates@.len() > 0,
            forall|i: int| 0 <= i < predicates@.len() ==> (#[trigger] predicates@[i]).wf(),
            group_from(input@, pos as int, Seq::empty()) == group_from(
                input@,
                at as int,
                predicates@,
            ),
        decreases input.len() - at,
    {
        match predicate(input, at) {
            Err(e) => {
                return Err(e);
            },
            Ok((found, next)) => {
                predicates.push(found);
                at = next;
            },
        }
    }
    Ok((PredicateGroup { predicates }, at))
}

/// Passes over the blanks that stand at `pos`.
fn skip_blank(input: &[u8], pos: usize) -> (r: usize)
    requires
        pos <= input.len(),
    ensures
        r as int == skip_blanks(input@, pos as int),
        pos <= r <= input.len(),
{
    let mut at: usize = pos;
    while at < input.len() && (input[at] == 0x20 || input[at] == 0x09 || input[at] == 0x0a
        || input[at] == 0x0d)
        invariant
            pos <= at <= input.len(),
            skip_blanks(input@, pos as int) == skip_blanks(input@, at as int),
        decreases input.len() - at,
    {
        at = at + 1;
    }
    at
}

/// Reads a frame gap at `pos`.
fn frame_gap_from(input: &[u8], pos: usize) -> (r: Result<(FrameGap, usize), SearchParseError>)
    requires
        pos <= input.len(),
    ensures
        agrees(r, frame_gap_at(input@, pos as int)),
        advances(r, pos, input.len()),
        fails_within(r, pos, input.len()),
        r matches Ok((gap, _)) ==> gap.range.wf(),
{
    if !byte_is(input, pos, LETTER_F) {
        return Err(SearchParseError::GrammarMismatch { position: pos });
    }
    if !byte_is(input, pos + 1, LETTER_G) {
        return Err(SearchParseError::GrammarMismatch { position: pos + 1 });
    }
    match range(input, pos + 2) {
        Ok((range, next)) => Ok((FrameGap { range }, next)),
        Err(e) => Err(e),
    }
}

/// Reads a frame gap at `pos`, and behind it and the blanks that follow it a
/// group.
fn link(input: &[u8], pos: usize) -> (r: Result<(Link, usize), SearchParseError>)
    requires
        pos <= input.len(),
    ensures
        agrees_in_view(r, link_at(input@, pos as int)),
        advances(r, pos, input.len()),
        fails_within(r, pos, input.len()),
        r matches Ok((link, _)) ==> link@.wf(),
{
    match frame_gap_from(input, pos) {
        Err(e) => Err(e),
        Ok((gap, blanks)) => {
            let start: usize = skip_blank(input, blanks);
            match group(input, start) {
                Err(e) => Err(e),
                Ok((group, next)) => Ok((Link { gap, group }, next)),
            }
        },
    }
}

/// Reads links from `pos` on, as long as a frame gap starts behind the
/// blanks.
fn chain(input: &[u8], pos: usize) -> (r: Result<(Vec<Link>, usize), SearchParseError>)
    requires
        pos <= input.len(),
    ensures
        match (r, chain_from(input@, pos as int, Seq::empty())) {
            (Ok((links, next)), Ok((l, n))) => chain_view(links@) == l && next as int == n,
            (Err(e), Err(f)) => e == f,
            _ => false,
        },
        r matches Ok((links, next)) ==> {
            &&& pos <= next <= input.len()
            &&& forall|i: int| 0 <= i < links@.len() ==> (#[trigger] chain_view(links@)[i]).wf()
        },
        fails_within(r, pos, input.len()),
{
    let mut links: Vec<Link> = Vec::new();
    let mut at: usize = pos;
    assert(chain_view(links@) =~= Seq::<LinkView>::empty());
    loop
        invariant
            pos <= at <= input.len(),
            forall|i: int| 0 <= i < links@.len() ==> (#[trigger] chain_view(links@)[i]).wf(),
            chain_from(input@, pos as int, Seq::empty()) == chain_from(
                input@,
                at as int,
                chain_view(links@),
            ),
        decreases input.len() - at,
    {
        let gap: usize = skip_blank(input, at);
        if !(byte_is(input, gap, LETTER_F) && byte_is(input, gap + 1, LETTER_G)) {
            return Ok((links, at));
        }
        match link(input, gap) {
            Err(e) => {
                return Err(e);
            },
            Ok((found, next)) => {
                proof {
                    let before = chain_view(links@);
                    let after = chain_view(links@.push(found));
                    assert(after =~= before.push(found@));
                }
                links.push(found);
                at = next;
            },
        }
    }
}

/// Reads the longest query that starts at `pos`.
fn query_from(input: &[u8], pos: usize) -> (r: Result<(Query, usize), SearchParseError>)
    requires
        pos <= input.len(),
    ensures
        agrees_in_view(r, query_at(input@, pos as int)),
        advances(r, pos, input.len()),
        fails_within(r, pos, input.len()),
        r matches Ok((query, _)) ==> query.wf(),
{
    match group(input, pos) {
        Err(e) => Err(e),
        Ok((first, links)) => match chain(input, links) {
            Err(e) => Err(e),
            Ok((chain, next)) => Ok((Query { first, chain }, next)),
        },
    }
}

/// What is left of `i` behind the first `next` bytes.
fn rest_of<'a>(i: &'a [u8], next: usize) -> (rest: &'a [u8])
    requires
        next <= i.len(),
    ensures
        rest@ == i@.skip(next as int),
{
    let rest = slice_subrange(i, next, i.len());
    assert(rest@ =~= i@.skip(next as int));
    rest
}

/// Reads a frame gap at the head of `i` and gives it with the rest of `i`.
pub fn frame_gap<'a>(i: &'a [u8]) -> (r: Result<(&'a [u8], FrameGap), SearchParseError>)
    ensures
        match frame_gap_at(i@, 0) {
            Ok((gap, next)) => r matches Ok((rest, found)) && found == gap && rest@ == i@.skip(next)
                && gap.range.wf(),
            Err(e) => r matches Err(f) && f == e && e.spec_position() <= i@.len(),
        },
{
    match frame_gap_from(i, 0) {
        Ok((gap, next)) => Ok((rest_of(i, next), gap)),
        Err(e) => Err(e),
    }
}

/// Reads an action predicate at the head of `i` and gives it with the rest of
/// `i`.
pub fn action<'a>(i: &'a [u8]) -> (r: Result<(&'a [u8], Predicate), SearchParseError>)
    ensures
        match action_at(i@, 0) {
            Ok((predicate, next)) => r matches Ok((rest, found)) && found == predicate && rest@
                == i@.skip(next) && predicate is ActionState,
            Err(e) => r matches Err(f) && f == e && e.spec_position() <= i@.len(),
        },
{
    match action_from(i, 0) {
        Ok((predicate, next)) => Ok((rest_of(i, next), predicate)),
        Err(e) => Err(e),
    }
}

/// Reads a percent predicate at the head of `i` and gives it with the rest of
/// `i`.
pub fn percent<'a>(i: &'a [u8]) -> (r: Result<(&'a [u8], Predicate), SearchParseError>)
    ensures
        match percent_at(i@, 0) {
            Ok((predicate, next)) => r matches Ok((rest, found)) && found == predicate && rest@
                == i@.skip(next) && predicate is Percent && predicate.wf(),
            Err(e) => r matches Err(f) && f == e && e.spec_position() <= i@.len(),
        },
{
    match percent_from(i, 0) {
        Ok((predicate, next)) => Ok((rest_of(i, next), predicate)),
        Err(e) => Err(e),
    }
}

/// Reads `i` as a query. The whole of `i` has to be the query: what is given
/// with it as the rest is empty, and a text that goes on behind its longest
/// query fails at the first byte that the query leaves.
pub fn query<'a>(i: &'a [u8]) -> (r: Result<(&'a [u8], Query), SearchParseError>)
    ensures
        match query_of(i@) {
            Ok(query) => r matches Ok((rest, found)) && found@ == query && found.wf() && rest@
                == Seq::<u8>::empty(),
            Err(e) => r matches Err(f) && f == e && e.spec_position() <= i@.len(),
        },
{
    match query_from(i, 0) {
        Err(e) => Err(e),
        Ok((query, next)) => {
            if next == i.len() {
                Ok((rest_of(i, next), query))
            } else {
                Err(SearchParseError::GrammarMismatch { position: next })
            }
        },
    }
}

impl Query {
    /// The query that the whole of `text` writes. A text that goes on behind
    /// its longest query fails at the first byte that the query leaves.
    pub fn parse(text: &str) -> (r: Result<Query, SearchParseError>)
        ensures
            match query_of(text.spec_bytes()) {
                Ok(query) => r matches Ok(found) && found@ == query && found.wf(),
                Err(e) => r matches Err(f) && f == e && e.spec_position()
                    <= text.spec_bytes().len(),
            },
    {
        match query(text.as_bytes()) {
            Ok((_, query)) => Ok(query),
            Err(e) => Err(e),
        }
    }
}

} // verus!
