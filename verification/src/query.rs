//! The parts of a search: roles, predicates, groups, frame gaps and the query
//! built from them.

use vstd::prelude::*;
use crate::range::Range;

verus! {

/// One of the two sides of a search, whatever slot each of them plays in.
#[derive(Clone, Copy, Debug, PartialEq, Eq, Structural)]
pub enum Role {
    /// The player who is searched for.
    Primary,
    /// The player on the other side.
    Secondary,
}

/// A condition on what one role does in one frame.
#[derive(Clone, Copy, Debug, PartialEq, Eq, Structural)]
pub enum Predicate {
    /// The role is in the action state with this number.
    ActionState { role: Role, state_id: u16 },
    /// The role's damage, without its fraction, lies in the range.
    Percent { role: Role, range: Range },
}

impl Predicate {
    /// The role that the predicate speaks of.
    pub open spec fn spec_role(&self) -> Role {
        match *self {
            Predicate::ActionState { role, .. } => role,
            Predicate::Percent { role, .. } => role,
        }
    }

    /// A predicate is well formed when its range, if it has one, is.
    pub open spec fn wf(self) -> bool {
        match self {
            Predicate::ActionState { .. } => true,
            Predicate::Percent { range, .. } => range.wf(),
        }
    }

    /// The role that the predicate speaks of.
    #[verifier::when_used_as_spec(spec_role)]
    pub fn role(&self) -> (r: Role)
        ensures
            r == self.spec_role(),
    {
        match self {
            Predicate::ActionState { role, .. } => *role,
            Predicate::Percent { role, .. } => *role,
        }
    }
}

/// How many frames may pass from the frame that meets one group to the frame
/// that meets the next.
#[derive(Clone, Copy, Debug, PartialEq, Eq, Structural)]
pub struct FrameGap {
    /// The least and the greatest number of frames.
    pub range: Range,
}

/// Predicates that have to hold together in one frame.
#[derive(Clone, Debug, PartialEq, Eq)]
pub struct PredicateGroup {
    /// The predicates, in the order in which they were written.
    pub predicates: Vec<Predicate>,
}

impl View for PredicateGroup {
    type V = Seq<Predicate>;

    open spec fn view(&self) -> Seq<Predicate> {
        self.predicates@
    }
}

/// Whether `group` has a predicate and all of its predicates are well formed.
pub open spec fn group_wf(group: Seq<Predicate>) -> bool {
    &&& group.len() > 0
    &&& forall|i: int| 0 <= i < group.len() ==> (#[trigger] group[i]).wf()
}

/// A step of a chain as a mathematical value.
pub struct LinkView {
    /// The frames that may pass before the group.
    pub gap: FrameGap,
    /// The predicates of the group.
    pub group: Seq<Predicate>,
}

impl LinkView {
    /// The range of the gap is in order and the group is well formed.
    pub open spec fn wf(self) -> bool {
        self.gap.range.wf() && group_wf(self.group)
    }
}

/// A step of a chain: a gap, and the group that has to hold after it.
#[derive(Clone, Debug, PartialEq, Eq)]
pub struct Link {
    /// The frames that may pass before the group.
    pub gap: FrameGap,
    /// The group that has to hold behind the gap.
    pub group: PredicateGroup,
}

impl View for Link {
    type V = LinkView;

    open spec fn view(&self) -> LinkView {
        LinkView { gap: self.gap, group: self.group@ }
    }
}

/// A query as a mathematical value.
pub struct QueryView {
    /// The predicates of the first group.
    pub first: Seq<Predicate>,
    /// The steps that follow the first group.
    pub chain: Seq<LinkView>,
}

impl QueryView {
    /// Every group has a predicate and every range is in order.
    pub open spec fn wf(self) -> bool {
        &&& group_wf(self.first)
        &&& forall|i: int| 0 <= i < self.chain.len() ==> (#[trigger] self.chain[i]).wf()
    }
}

/// A first group and the chain of gaps and groups that follows it.
#[derive(Clone, Debug, PartialEq, Eq)]
pub struct Query {
    /// The group that an occurrence starts with.
    pub first: PredicateGroup,
    /// The steps that follow the first group. A query of one group has none.
    pub chain: Vec<Link>,
}

/// The steps of a chain as mathematical values.
pub open spec fn chain_view(chain: Seq<Link>) -> Seq<LinkView> {
    Seq::new(chain.len(), |i: int| chain[i]@)
}

impl View for Query {
    type V = QueryView;

    open spec fn view(&self) -> QueryView {
        QueryView { first: self.first@, chain: chain_view(self.chain@) }
    }
}

impl Query {
    /// Every group has a predicate and every range is in order.
    pub open spec fn wf(&self) -> bool {
        self@.wf()
    }
}

} // verus!
