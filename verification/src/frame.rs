//! Frames of a match as the searcher reads them, and the test of one
//! predicate on one frame.

use vstd::prelude::*;
use crate::query::{Predicate, Role};

verus! {

/// The largest number of an action state that all characters share. Numbers
/// above it mean another state for each character.
pub const LAST_COMMON_STATE: u16 = 340;

/// An action state, told apart from the states of other characters that
/// carry the same number.
#[derive(Clone, Copy, Debug, PartialEq, Eq, Structural)]
pub enum State {
    /// A state that all characters share.
    Common(u16),
    /// A state of one character's own.
    Own { character: u8, id: u16 },
}

/// The state that the number `state_id` means for the character
/// `character_id`.
pub open spec fn effective_state(state_id: u16, character_id: u8) -> State {
    if state_id <= LAST_COMMON_STATE {
        State::Common(state_id)
    } else {
        State::Own { character: character_id, id: state_id }
    }
}

/// `ssbm_data::action_state::Common::try_from`, asked only whether it knows
/// the number: the states that all characters share are numbered from 0 to
/// `LAST_COMMON_STATE` without a gap.
#[verifier::external_body]
fn is_common_state(state_id: u16) -> (r: bool)
    ensures
        r == (state_id <= LAST_COMMON_STATE),
{
    ssbm_data::action_state::Common::try_from(state_id).is_ok()
}

/// The state that the number `state_id` means for the character
/// `character_id`.
pub fn resolve_state(state_id: u16, character_id: u8) -> (state: State)
    ensures
        state == effective_state(state_id, character_id),
{
    if is_common_state(state_id) {
        State::Common(state_id)
    } else {
        State::Own { character: character_id, id: state_id }
    }
}

/// For one character, two numbers mean the same state only if they are the
/// same number.
pub proof fn lemma_effective_state_tells_numbers_apart(a: u16, b: u16, character_id: u8)
    ensures
        effective_state(a, character_id) == effective_state(b, character_id) <==> a == b,
{
}

/// What one frame shows of the player in one slot.
#[derive(Clone, Copy, Debug, PartialEq, Eq, Structural)]
pub struct Slot {
    /// The character that plays in the slot.
    pub character_id: u8,
    /// The number of the action state that the character is in.
    pub action_state_id: u16,
    /// The damage of the player, cut off at the decimal point.
    pub damage: i64,
}

/// One step of a recorded match.
#[derive(Clone, Debug, PartialEq, Eq)]
pub struct Frame {
    /// The number of the frame. It grows along the timeline.
    pub index: i32,
    /// The players of the match, slot by slot.
    pub slots: Vec<Slot>,
}

/// The slot that each role plays in.
#[derive(Clone, Copy, Debug, PartialEq, Eq, Structural)]
pub struct RoleMapping {
    /// The slot of the primary role.
    pub primary: usize,
    /// The slot of the secondary role.
    pub secondary: usize,
}

impl RoleMapping {
    /// The two roles play in two slots.
    pub open spec fn wf(self) -> bool {
        self.primary != self.secondary
    }

    /// The slot of `role`.
    pub open spec fn slot_of(self, role: Role) -> usize {
        match role {
            Role::Primary => self.primary,
            Role::Secondary => self.secondary,
        }
    }

    /// The slot of `role`.
    pub fn slot(&self, role: Role) -> (slot: usize)
        ensures
            slot == self.slot_of(role),
    {
        match role {
            Role::Primary => self.primary,
            Role::Secondary => self.secondary,
        }
    }

    /// The mapping for a match of two players whose frames list the players
    /// by rising port: the role on the lower port plays in slot 0, the other
    /// in slot 1. Two roles on one port have no mapping.
    pub fn from_ports(primary_port: u8, secondary_port: u8) -> (r: Option<RoleMapping>)
        ensures
            primary_port < secondary_port ==> r == Some(RoleMapping { primary: 0, secondary: 1 }),
            primary_port > secondary_port ==> r == Some(RoleMapping { primary: 1, secondary: 0 }),
            primary_port == secondary_port ==> r.is_none(),
            r matches Some(mapping) ==> mapping.wf(),
    {
        if primary_port < secondary_port {
            Some(RoleMapping { primary: 0, secondary: 1 })
        } else if primary_port > secondary_port {
            Some(RoleMapping { primary: 1, secondary: 0 })
        } else {
            None
        }
    }
}

/// Whether `frame` has a slot for each of the two roles.
pub open spec fn covers(frame: Frame, mapping: RoleMapping) -> bool {
    mapping.primary < frame.slots@.len() && mapping.secondary < frame.slots@.len()
}

/// Whether `predicate` holds of what `slot` shows.
pub open spec fn holds_of(predicate: Predicate, slot: Slot) -> bool {
    match predicate {
        Predicate::ActionState { state_id, .. } => effective_state(state_id, slot.character_id)
            == effective_state(slot.action_state_id, slot.character_id),
        Predicate::Percent { range, .. } => range.holds(slot.damage as int),
    }
}

/// Whether `predicate` holds in `frame`, of the slot that its role plays in.
pub open spec fn holds_in(predicate: Predicate, frame: Frame, mapping: RoleMapping) -> bool {
    holds_of(predicate, frame.slots@[mapping.slot_of(predicate.spec_role()) as int])
}

/// Tests one predicate on one frame.
pub fn evaluate(predicate: &Predicate, frame: &Frame, mapping: &RoleMapping) -> (b: bool)
    requires
        covers(*frame, *mapping),
    ensures
        b == holds_in(*predicate, *frame, *mapping),
{
    let slot = &frame.slots[mapping.slot(predicate.role())];
    match predicate {
        Predicate::ActionState { state_id, .. } => resolve_state(*state_id, slot.character_id)
            == resolve_state(slot.action_state_id, slot.character_id),
        Predicate::Percent { range, .. } => {
            if slot.damage < 0 || slot.damage > u32::MAX as i64 {
                false
            } else {
                range.contains(slot.damage as u32)
            }
        },
    }
}

/// An action predicate holds exactly where the slot shows its number.
pub proof fn lemma_action_holds_of_same_number(role: Role, state_id: u16, slot: Slot)
    ensures
        holds_of(Predicate::ActionState { role, state_id }, slot) <==> state_id
            == slot.action_state_id,
{
}

} // verus!
