//! Writing a query as text, and the proof that the parser reads the text
//! back as the same query.

use vstd::prelude::*;
use crate::decimal::{
    decimal_digits, is_digit, lemma_decimal_digits, lemma_digit_run_of_digits, push_decimal,
};
use crate::query::{Link, LinkView, Predicate, PredicateGroup, Query, QueryView, Role, chain_view};
use crate::range::Range;
use crate::search_string::{
    DOT, LETTER_F, LETTER_G, LETTER_O, LETTER_P, PERCENT, SPACE, SearchParseError, chain_from,
    group_from, is_blank, lemma_read_query_wf, link_at, number_at, predicate_at, query_at,
    query_of, range_at, role_at, skip_blanks, starts_gap, starts_predicate,
};

verus! {

/// A range as text: its two bounds with two dots between them.
pub open spec fn range_text(range: Range) -> Seq<u8> {
    decimal_digits(range.start as nat) + seq![DOT, DOT] + decimal_digits(range.end as nat)
}

/// A role as text: one letter.
pub open spec fn role_text(role: Role) -> Seq<u8> {
    match role {
        Role::Primary => seq![LETTER_P],
        Role::Secondary => seq![LETTER_O],
    }
}

/// A predicate as text: its mark, its role and its number or range.
pub open spec fn predicate_text(predicate: Predicate) -> Seq<u8> {
    match predicate {
        Predicate::ActionState { role, state_id } => seq![DOT] + role_text(role) + decimal_digits(
            state_id as nat,
        ),
        Predicate::Percent { role, range } => seq![PERCENT] + role_text(role) + range_text(range),
    }
}

/// A group as text: its predicates one behind the other.
pub open spec fn group_text(group: Seq<Predicate>) -> Seq<u8>
    decreases group.len(),
{
    if group.len() == 0 {
        Seq::empty()
    } else {
        predicate_text(group[0]) + group_text(group.skip(1))
    }
}

/// A link as text: a space, the frame gap, a space and the group.
pub open spec fn link_text(link: LinkView) -> Seq<u8> {
    seq![SPACE, LETTER_F, LETTER_G] + range_text(link.gap.range) + seq![SPACE] + group_text(
        link.group,
    )
}

/// A chain as text: its links one behind the other.
pub open spec fn chain_text(chain: Seq<LinkView>) -> Seq<u8>
    decreases chain.len(),
{
    if chain.len() == 0 {
        Seq::empty()
    } else {
        link_text(chain[0]) + chain_text(chain.skip(1))
    }
}

/// A query as text: the first group and the chain behind it.
pub open spec fn query_text(query: QueryView) -> Seq<u8> {
    group_text(query.first) + chain_text(query.chain)
}

/// Writes a range at the end of `out`.
fn push_range(out: &mut Vec<u8>, range: &Range)
    ensures
        final(out)@ == old(out)@ + range_text(*range),
{
    push_decimal(out, range.start);
    out.push(DOT);
    out.push(DOT);
    push_decimal(out, range.end);
    assert(final(out)@ =~= old(out)@ + range_text(*range));
}

/// Writes a role at the end of `out`.
fn push_role(out: &mut Vec<u8>, role: Role)
    ensures
        final(out)@ == old(out)@ + role_text(role),
{
    match role {
        Role::Primary => out.push(LETTER_P),
        Role::Secondary => out.push(LETTER_O),
    }
    assert(final(out)@ =~= old(out)@ + role_text(role));
}

/// Writes a predicate at the end of `out`.
fn push_predicate(out: &mut Vec<u8>, predicate: &Predicate)
    ensures
        final(out)@ == old(out)@ + predicate_text(*predicate),
{
    match predicate {
        Predicate::ActionState { role, state_id } => {
            out.push(DOT);
            push_role(out, *role);
            let id: u32 = *state_id as u32;
            push_decimal(out, id);
        },
        Predicate::Percent { role, range } => {
            out.push(PERCENT);
            push_role(out, *role);
            push_range(out, range);
        },
    }
    assert(final(out)@ =~= old(out)@ + predicate_text(*predicate));
}

/// Writes a group at the end of `out`.
fn push_group(out: &mut Vec<u8>, group: &PredicateGroup)
    ensures
        final(out)@ == old(out)@ + group_text(group@),
{
    let mut i: usize = 0;
    assert(group@.skip(0) =~= group@);
    while i < group.predicates.len()
        invariant
            i <= group.predicates.len(),
            out@ + group_text(group@.skip(i as int)) == old(out)@ + group_text(group@),
        decreases group.predicates.len() - i,
    {
        let ghost before = out@;
        push_predicate(out, &group.predicates[i]);
        proof {
            let tail = group@.skip(i as int);
            assert(tail[0] == group@[i as int]);
            assert(tail.skip(1) =~= group@.skip(i + 1));
            assert(out@ + group_text(group@.skip(i + 1)) =~= before + group_text(tail));
        }
        i = i + 1;
    }
    assert(out@ =~= out@ + group_text(group@.skip(i as int)));
}

/// Writes a link at the end of `out`.
fn push_link(out: &mut Vec<u8>, link: &Link)
    ensures
        final(out)@ == old(out)@ + link_text(link@),
{
    out.push(SPACE);
    out.push(LETTER_F);
    out.push(LETTER_G);
    push_range(out, &link.gap.range);
    out.push(SPACE);
    push_group(out, &link.group);
    assert(final(out)@ =~= old(out)@ + link_text(link@));
}

impl Query {
    /// The query as text, in a form that `Query::parse` reads back as this
    /// query.
    pub fn to_bytes(&self) -> (out: Vec<u8>)
        ensures
            out@ == query_text(self@),
    {
        let mut out: Vec<u8> = Vec::new();
        push_group(&mut out, &self.first);
        let ghost chain = chain_view(self.chain@);
        let ghost head = out@;
        let mut i: usize = 0;
        assert(chain.skip(0) =~= chain);
        while i < self.chain.len()
            invariant
                i <= self.chain.len(),
                chain == chain_view(self.chain@),
                out@ + chain_text(chain.skip(i as int)) == head + chain_text(chain),
            decreases self.chain.len() - i,
        {
            let ghost before = out@;
            push_link(&mut out, &self.chain[i]);
            proof {
                let tail = chain.skip(i as int);
                assert(tail[0] == self.chain@[i as int]@);
                assert(tail.skip(1) =~= chain.skip(i + 1));
                assert(out@ + chain_text(chain.skip(i + 1)) =~= before + chain_text(tail));
            }
            i = i + 1;
        }
        assert(out@ =~= out@ + chain_text(chain.skip(i as int)));
        assert(head =~= group_text(self.first@));
        out
    }
}

/// Whether the bytes of `text` stand in `s` from `pos` on.
pub open spec fn stands_at(s: Seq<u8>, pos: int, text: Seq<u8>) -> bool {
    &&& 0 <= pos
    &&& pos + text.len() <= s.len()
    &&& s.subrange(pos, pos + text.len()) == text
}

/// Whether a number that ends before `pos` ends there: no digit follows.
pub open spec fn ends_number(s: Seq<u8>, pos: int) -> bool {
    pos >= s.len() || !is_digit(s[pos])
}

/// Whether a group that ends before `pos` ends there: neither a digit nor a
/// predicate follows.
pub open spec fn ends_group(s: Seq<u8>, pos: int) -> bool {
    ends_number(s, pos) && !starts_predicate(s, pos)
}

/// Whether a chain that ends before `pos` ends there: behind the group and
/// the blanks after it no frame gap follows.
pub open spec fn ends_chain(s: Seq<u8>, pos: int) -> bool {
    ends_group(s, pos) && !starts_gap(s, skip_blanks(s, pos))
}

/// Where two texts stand one behind the other, each of them stands at its
/// place.
proof fn lemma_stands_split(s: Seq<u8>, pos: int, a: Seq<u8>, b: Seq<u8>)
    requires
        stands_at(s, pos, a + b),
    ensures
        stands_at(s, pos, a),
        stands_at(s, pos + a.len(), b),
{
    let whole = s.subrange(pos, pos + (a + b).len());
    assert(s.subrange(pos, pos + a.len()) =~= whole.subrange(0, a.len() as int));
    assert(whole.subrange(0, a.len() as int) =~= a);
    assert(s.subrange(pos + a.len(), pos + a.len() + b.len()) =~= whole.subrange(
        a.len() as int,
        (a + b).len() as int,
    ));
    assert(whole.subrange(a.len() as int, (a + b).len() as int) =~= b);
}

/// Where a text stands, each of its bytes stands.
proof fn lemma_stands_byte(s: Seq<u8>, pos: int, text: Seq<u8>, i: int)
    requires
        stands_at(s, pos, text),
        0 <= i < text.len(),
    ensures
        0 <= pos + i < s.len(),
        s[pos + i] == text[i],
{
    assert(s.subrange(pos, pos + text.len())[i] == s[pos + i]);
}

/// The digits of a number, with no digit behind them, are read as the
/// number.
proof fn lemma_reads_number(s: Seq<u8>, pos: int, n: nat, max: nat)
    requires
        stands_at(s, pos, decimal_digits(n)),
        ends_number(s, pos + decimal_digits(n).len()),
        n <= max,
    ensures
        number_at(s, pos, max) == Some((n, pos + decimal_digits(n).len())),
{
    let d = decimal_digits(n);
    let rest = s.skip(pos + d.len());
    lemma_decimal_digits(n);
    assert(s.skip(pos) =~= d + rest);
    if rest.len() > 0 {
        assert(rest[0] == s[pos + d.len()]);
    }
    lemma_digit_run_of_digits(d, rest);
    assert((d + rest).take(d.len() as int) =~= d);
}

/// The text of a well-formed range, with no digit behind it, is read as the
/// range.
proof fn lemma_reads_range(s: Seq<u8>, pos: int, range: Range)
    requires
        range.wf(),
        stands_at(s, pos, range_text(range)),
        ends_number(s, pos + range_text(range).len()),
    ensures
        range_at(s, pos) == Ok::<(Range, int), SearchParseError>(
            (range, pos + range_text(range).len()),
        ),
{
    let low = decimal_digits(range.start as nat);
    let high = decimal_digits(range.end as nat);
    let dots = seq![DOT, DOT];
    lemma_decimal_digits(range.start as nat);
    lemma_decimal_digits(range.end as nat);
    lemma_stands_split(s, pos, low + dots, high);
    lemma_stands_split(s, pos, low, dots);
    lemma_stands_byte(s, pos, low, 0);
    lemma_stands_byte(s, pos + low.len(), dots, 0);
    lemma_stands_byte(s, pos + low.len(), dots, 1);
    assert(is_digit(low[0]));
    lemma_reads_number(s, pos, range.start as nat, u32::MAX as nat);
    lemma_reads_number(s, pos + low.len() + 2, range.end as nat, u32::MAX as nat);
}

/// The text of a role is read as the role.
proof fn lemma_reads_role(s: Seq<u8>, pos: int, role: Role)
    requires
        stands_at(s, pos, role_text(role)),
    ensures
        role_at(s, pos) == Ok::<(Role, int), SearchParseError>((role, pos + 1)),
{
    lemma_stands_byte(s, pos, role_text(role), 0);
}

/// The text of a predicate starts with its mark and is three bytes long at
/// least.
proof fn lemma_predicate_text(predicate: Predicate)
    ensures
        predicate_text(predicate).len() >= 3,
        predicate_text(predicate)[0] == DOT || predicate_text(predicate)[0] == PERCENT,
        predicate is ActionState <==> predicate_text(predicate)[0] == DOT,
{
    match predicate {
        Predicate::ActionState { role, state_id } => {
            lemma_decimal_digits(state_id as nat);
        },
        Predicate::Percent { role, range } => {
            lemma_decimal_digits(range.start as nat);
            lemma_decimal_digits(range.end as nat);
        },
    }
}

/// The text of a well-formed predicate, with no digit behind it, is read as
/// the predicate.
proof fn lemma_reads_predicate(s: Seq<u8>, pos: int, predicate: Predicate)
    requires
        predicate.wf(),
        stands_at(s, pos, predicate_text(predicate)),
        ends_number(s, pos + predicate_text(predicate).len()),
    ensures
        starts_predicate(s, pos),
        predicate_at(s, pos) == Ok::<(Predicate, int), SearchParseError>(
            (predicate, pos + predicate_text(predicate).len()),
        ),
{
    lemma_predicate_text(predicate);
    lemma_stands_byte(s, pos, predicate_text(predicate), 0);
    match predicate {
        Predicate::ActionState { role, state_id } => {
            let digits = decimal_digits(state_id as nat);
            lemma_stands_split(s, pos, seq![DOT] + role_text(role), digits);
            lemma_stands_split(s, pos, seq![DOT], role_text(role));
            lemma_reads_role(s, pos + 1, role);
            lemma_reads_number(s, pos + 2, state_id as nat, u16::MAX as nat);
        },
        Predicate::Percent { role, range } => {
            lemma_stands_split(s, pos, seq![PERCENT] + role_text(role), range_text(range));
            lemma_stands_split(s, pos, seq![PERCENT], role_text(role));
            lemma_reads_role(s, pos + 1, role);
            lemma_reads_range(s, pos + 2, range);
        },
    }
}

/// The text of well-formed predicates, with the end of a group behind it, is
/// read as those predicates.
proof fn lemma_reads_group(s: Seq<u8>, pos: int, group: Seq<Predicate>, seen: Seq<Predicate>)
    requires
        forall|i: int| 0 <= i < group.len() ==> (#[trigger] group[i]).wf(),
        stands_at(s, pos, group_text(group)),
        ends_group(s, pos + group_text(group).len()),
    ensures
        group_from(s, pos, seen) == Ok::<(Seq<Predicate>, int), SearchParseError>(
            (seen + group, pos + group_text(group).len()),
        ),
    decreases group.len(),
{
    if group.len() == 0 {
        assert(seen + group =~= seen);
    } else {
        let head = predicate_text(group[0]);
        let tail = group.skip(1);
        lemma_predicate_text(group[0]);
        lemma_stands_split(s, pos, head, group_text(tail));
        if tail.len() > 0 {
            lemma_predicate_text(tail[0]);
            lemma_stands_byte(s, pos + head.len(), group_text(tail), 0);
        }
        lemma_reads_predicate(s, pos, group[0]);
        assert forall|i: int| 0 <= i < tail.len() implies (#[trigger] tail[i]).wf() by {
            assert(tail[i] == group[i + 1]);
        }
        lemma_reads_group(s, pos + head.len(), tail, seen.push(group[0]));
        assert(seen.push(group[0]) + tail =~= seen + group);
    }
}

/// The text of a well-formed link, with the end of a group behind it, is
/// read as the link, behind the one blank that it starts with.
proof fn lemma_reads_link(s: Seq<u8>, pos: int, link: LinkView)
    requires
        link.wf(),
        stands_at(s, pos, link_text(link)),
        ends_group(s, pos + link_text(link).len()),
    ensures
        skip_blanks(s, pos) == pos + 1,
        starts_gap(s, pos + 1),
        link_at(s, pos + 1) == Ok::<(LinkView, int), SearchParseError>(
            (link, pos + link_text(link).len()),
        ),
{
    let mark = seq![SPACE, LETTER_F, LETTER_G];
    let bounds = range_text(link.gap.range);
    let group = group_text(link.group);
    lemma_stands_split(s, pos, mark + bounds + seq![SPACE], group);
    lemma_stands_split(s, pos, mark + bounds, seq![SPACE]);
    lemma_stands_split(s, pos, mark, bounds);
    lemma_stands_byte(s, pos, mark, 0);
    lemma_stands_byte(s, pos, mark, 1);
    lemma_stands_byte(s, pos, mark, 2);
    let blank = pos + 3 + bounds.len();
    lemma_stands_byte(s, blank, seq![SPACE], 0);
    lemma_predicate_text(link.group[0]);
    lemma_stands_byte(s, blank + 1, group, 0);
    assert(skip_blanks(s, pos) == pos + 1) by {
        assert(is_blank(s[pos]));
        assert(!is_blank(s[pos + 1]));
        assert(skip_blanks(s, pos + 1) == pos + 1);
    }
    assert(skip_blanks(s, blank) == blank + 1) by {
        assert(is_blank(s[blank]));
        assert(!is_blank(s[blank + 1]));
        assert(skip_blanks(s, blank + 1) == blank + 1);
    }
    lemma_reads_range(s, pos + 3, link.gap.range);
    lemma_reads_group(s, blank + 1, link.group, Seq::empty());
    assert(Seq::<Predicate>::empty() + link.group =~= link.group);
}

/// The text of well-formed links, with the end of a chain behind it, is read
/// as those links.
proof fn lemma_reads_chain(s: Seq<u8>, pos: int, chain: Seq<LinkView>, seen: Seq<LinkView>)
    requires
        forall|i: int| 0 <= i < chain.len() ==> (#[trigger] chain[i]).wf(),
        stands_at(s, pos, chain_text(chain)),
        ends_chain(s, pos + chain_text(chain).len()),
    ensures
        chain_from(s, pos, seen) == Ok::<(Seq<LinkView>, int), SearchParseError>(
            (seen + chain, pos + chain_text(chain).len()),
        ),
    decreases chain.len(),
{
    if chain.len() == 0 {
        assert(seen + chain =~= seen);
    } else {
        let head = link_text(chain[0]);
        let tail = chain.skip(1);
        lemma_stands_split(s, pos, head, chain_text(tail));
        if tail.len() > 0 {
            lemma_stands_byte(s, pos + head.len(), chain_text(tail), 0);
        }
        lemma_reads_link(s, pos, chain[0]);
        assert forall|i: int| 0 <= i < tail.len() implies (#[trigger] tail[i]).wf() by {
            assert(tail[i] == chain[i + 1]);
        }
        lemma_reads_chain(s, pos + head.len(), tail, seen.push(chain[0]));
        assert(seen.push(chain[0]) + tail =~= seen + chain);
    }
}

/// Where the text of a well-formed query stands in `s` at `pos`, and the
/// chain ends behind it, the parser reads that query there.
pub proof fn lemma_reads_query(s: Seq<u8>, pos: int, query: QueryView)
    requires
        query.wf(),
        stands_at(s, pos, query_text(query)),
        ends_chain(s, pos + query_text(query).len()),
    ensures
        query_at(s, pos) == Ok::<(QueryView, int), SearchParseError>(
            (query, pos + query_text(query).len()),
        ),
{
    let first = group_text(query.first);
    let chain = chain_text(query.chain);
    lemma_stands_split(s, pos, first, chain);
    lemma_predicate_text(query.first[0]);
    lemma_stands_byte(s, pos, first, 0);
    if query.chain.len() > 0 {
        lemma_stands_byte(s, pos + first.len(), chain, 0);
    }
    lemma_reads_group(s, pos, query.first, Seq::empty());
    assert(Seq::<Predicate>::empty() + query.first =~= query.first);
    lemma_reads_chain(s, pos + first.len(), query.chain, Seq::empty());
    assert(Seq::<LinkView>::empty() + query.chain =~= query.chain);
}

/// The text of a well-formed query reads back as that query.
pub proof fn lemma_text_reads_back(query: QueryView)
    requires
        query.wf(),
    ensures
        query_of(query_text(query)) == Ok::<QueryView, SearchParseError>(query),
{
    let s = query_text(query);
    assert(s.subrange(0, s.len() as int) =~= s);
    lemma_reads_query(s, 0, query);
}

/// A text that is a query, written anew from the query that it gives, gives
/// the same query again.
pub proof fn lemma_parse_write_parse(s: Seq<u8>)
    requires
        query_of(s) is Ok,
    ensures
        query_of(query_text(query_of(s)->Ok_0)) == query_of(s),
{
    lemma_read_query_wf(s, 0);
    lemma_text_reads_back(query_of(s)->Ok_0);
}

} // verus!
