//! Filters on the players, the stage and the size of a match.

use vstd::prelude::*;
use itertools::Itertools;
use itertools::structs::Permutations;
use std::ops::Range;
use crate::game;
use crate::resolver::{match_text, text_meets};

verus! {

/// Something that accepts some candidates and refuses the others.
pub trait Filter {
    /// What the filter is asked about.
    type Candidate;

    /// Whether the filter accepts `c`.
    spec fn matches(&self, c: &Self::Candidate) -> bool;

    /// Asks the filter about `c`.
    fn is_match(&self, c: &Self::Candidate) -> (b: bool)
        ensures
            b == self.matches(c),
    ;
}

/// What is asked of one player. A condition that is `None` asks nothing.
#[derive(Clone, Debug)]
pub struct Player {
    /// The number of the character.
    pub character: Option<u8>,
    /// The name in online play.
    pub name: Option<String>,
    /// The connect code in online play.
    pub code: Option<String>,
}

/// Whether `filter` accepts `candidate`: the character is the one asked for,
/// and so are the name and the code, letter for letter or, where
/// `ignorecase` is set, but for the case of ASCII letters. A player without
/// an online identity has no name and no code to show: where one of them is
/// asked for, the player is refused.
pub open spec fn accepts(filter: Player, candidate: game::Player, ignorecase: bool) -> bool {
    &&& filter.character matches Some(character) ==> character == candidate.character
    &&& if filter.name.is_none() && filter.code.is_none() {
        true
    } else {
        candidate.netplay matches Some(netplay) && text_meets(
            filter.name,
            netplay.name,
            ignorecase,
        ) && text_meets(filter.code, netplay.code, ignorecase)
    }
}

impl Player {
    /// Asks the filter about `c`, with or without regard to the case of
    /// ASCII letters in the name and the code.
    pub fn is_match_with(&self, c: &game::Player, ignorecase: bool) -> (b: bool)
        ensures
            b == accepts(*self, *c, ignorecase),
    {
        let character = match self.character {
            Some(character) => character == c.character,
            None => true,
        };
        if !character {
            return false;
        }
        if self.name.is_none() && self.code.is_none() {
            return true;
        }
        match &c.netplay {
            None => false,
            Some(netplay) => match_text(&self.name, &netplay.name, ignorecase) && match_text(
                &self.code,
                &netplay.code,
                ignorecase,
            ),
        }
    }
}

impl Filter for Player {
    type Candidate = game::Player;

    /// The filter accepts `c`, names and codes compared letter for letter.
    open spec fn matches(&self, c: &game::Player) -> bool {
        accepts(*self, *c, false)
    }

    fn is_match(&self, c: &game::Player) -> (b: bool) {
        self.is_match_with(c, false)
    }
}

/// `itertools::structs::Permutations`, carried through as it is.
#[verifier::external_type_specification]
#[verifier::external_body]
#[verifier::reject_recursive_types(I)]
pub struct ExPermutations<I: Iterator>(Permutations<I>);

/// The permutations that `it` gives from now on until it says that none is
/// left, in the order in which it gives them.
pub uninterp spec fn pending(it: Permutations<Range<usize>>) -> Seq<Seq<usize>>;

/// Whether `picks` takes `k` different numbers below `n`.
pub open spec fn is_arrangement(picks: Seq<usize>, n: int, k: int) -> bool {
    &&& picks.len() == k
    &&& forall|i: int| 0 <= i < picks.len() ==> (#[trigger] picks[i]) < n
    &&& forall|i: int, j: int| 0 <= i < j < picks.len() ==> picks[i] != picks[j]
}

/// Whether `picks` is one of `list`.
pub open spec fn lists(list: Seq<Seq<usize>>, picks: Seq<usize>) -> bool {
    exists|i: int| 0 <= i < list.len() && #[trigger] list[i] == picks
}

/// `Itertools::permutations` on the numbers below `n`: an iterator over all
/// ways to take `k` different numbers below `n`, in some order.
#[verifier::external_body]
fn arrangements(n: usize, k: usize) -> (it: Permutations<Range<usize>>)
    ensures
        forall|i: int| 0 <= i < pending(it).len() ==> is_arrangement(#[trigger] pending(it)[i], n as int, k as int),
        forall|picks: Seq<usize>| #[trigger] is_arrangement(picks, n as int, k as int) ==> lists(pending(it), picks),
{
    (0..n).permutations(k)
}

/// `Iterator::next` of `Permutations`: the first of the permutations that
/// are pending, which then is pending no more, or `None` where none is.
#[verifier::external_body]
fn next_arrangement(it: &mut Permutations<Range<usize>>) -> (r: Option<Vec<usize>>)
    ensures
        match r {
            Some(picks) => {
                &&& pending(*old(it)).len() > 0
                &&& picks@ == pending(*old(it))[0]
                &&& pending(*final(it)) == pending(*old(it)).skip(1)
            },
            None => pending(*old(it)).len() == 0,
        },
{
    it.next()
}

/// Whether `picks` pairs every one of the fewer with one of the more, no one
/// twice, so that each filter accepts the player that it is paired with.
/// Where the filters are at least as many as the players, `picks` names a
/// filter for each player; else it names a player for each filter.
pub open spec fn pairs_up(
    filters: Seq<Player>,
    players: Seq<game::Player>,
    picks: Seq<usize>,
    ignorecase: bool,
) -> bool {
    if filters.len() >= players.len() {
        &&& is_arrangement(picks, filters.len() as int, players.len() as int)
        &&& forall|j: int|
            0 <= j < players.len() ==> accepts(
                filters[(#[trigger] picks[j]) as int],
                players[j],
                ignorecase,
            )
    } else {
        &&& is_arrangement(picks, players.len() as int, filters.len() as int)
        &&& forall|i: int|
            0 <= i < filters.len() ==> accepts(
                filters[i],
                players[(#[trigger] picks[i]) as int],
                ignorecase,
            )
    }
}

/// Whether the filters and the players can be paired up.
pub open spec fn can_pair_up(
    filters: Seq<Player>,
    players: Seq<game::Player>,
    ignorecase: bool,
) -> bool {
    exists|picks: Seq<usize>| pairs_up(filters, players, picks, ignorecase)
}

/// Tests whether `picks` pairs the filters and the players up.
pub fn check_pairing(
    filters: &Vec<Player>,
    players: &Vec<game::Player>,
    picks: &Vec<usize>,
    ignorecase: bool,
) -> (b: bool)
    requires
        filters.len() >= players.len() ==> is_arrangement(
            picks@,
            filters.len() as int,
            players.len() as int,
        ),
        filters.len() < players.len() ==> is_arrangement(
            picks@,
            players.len() as int,
            filters.len() as int,
        ),
    ensures
        b == pairs_up(filters@, players@, picks@, ignorecase),
{
    let mut i: usize = 0;
    if filters.len() >= players.len() {
        while i < players.len()
            invariant
                i <= players.len(),
                filters.len() >= players.len(),
                picks@.len() == players.len(),
                forall|j: int| 0 <= j < picks@.len() ==> (#[trigger] picks@[j]) < filters.len(),
                forall|j: int|
                    0 <= j < i ==> accepts(
                        filters@[(#[trigger] picks@[j]) as int],
                        players@[j],
                        ignorecase,
                    ),
            decreases players.len() - i,
        {
            if !filters[picks[i]].is_match_with(&players[i], ignorecase) {
                assert(!accepts(filters@[picks@[i as int] as int], players@[i as int], ignorecase));
                return false;
            }
            i = i + 1;
        }
    } else {
        while i < filters.len()
            invariant
                i <= filters.len(),
                filters.len() < players.len(),
                picks@.len() == filters.len(),
                forall|j: int| 0 <= j < picks@.len() ==> (#[trigger] picks@[j]) < players.len(),
                forall|j: int|
                    0 <= j < i ==> accepts(
                        filters@[j],
                        players@[(#[trigger] picks@[j]) as int],
                        ignorecase,
                    ),
            decreases filters.len() - i,
        {
            if !filters[i].is_match_with(&players[picks[i]], ignorecase) {
                assert(!accepts(filters@[i as int], players@[picks@[i as int] as int], ignorecase));
                return false;
            }
            i = i + 1;
        }
    }
    true
}

/// What is asked of a match: of its players, of their number and of its
/// stage.
#[derive(Clone, Debug)]
pub struct Game {
    players: Vec<Player>,
    num_players: Option<u8>,
    stage: Option<u16>,
    ignorecase: bool,
}

impl Game {
    /// What is asked of the players.
    pub closed spec fn filters(&self) -> Seq<Player> {
        self.players@
    }

    /// The number of players that is asked for, if one is.
    pub closed spec fn wanted_players(&self) -> Option<u8> {
        self.num_players
    }

    /// The stage that is asked for, if one is.
    pub closed spec fn wanted_stage(&self) -> Option<u16> {
        self.stage
    }

    /// Whether names and codes are compared without regard to the case of
    /// ASCII letters.
    pub closed spec fn ignores_case(&self) -> bool {
        self.ignorecase
    }

    /// A number of players that is asked for lies between 2 and 4.
    pub open spec fn wf(&self) -> bool {
        self.wanted_players() matches Some(n) ==> 2 <= n <= 4
    }

    /// A filter that asks nothing.
    pub fn new() -> (filter: Self)
        ensures
            filter.filters() == Seq::<Player>::empty(),
            filter.wanted_players().is_none(),
            filter.wanted_stage().is_none(),
            !filter.ignores_case(),
            filter.wf(),
    {
        Self { players: vec![], num_players: None, stage: None, ignorecase: false }
    }

    /// Asks for one more player that meets `player`.
    pub fn add_player(&mut self, player: Player)
        ensures
            final(self).filters() == old(self).filters().push(player),
            final(self).wanted_players() == old(self).wanted_players(),
            final(self).wanted_stage() == old(self).wanted_stage(),
            final(self).ignores_case() == old(self).ignores_case(),
    {
        self.players.push(player);
    }

    /// Asks for a match of `n` players.
    pub fn num_players(&mut self, n: u8)
        requires
            2 <= n <= 4,
        ensures
            final(self).wanted_players() == Some(n),
            final(self).filters() == old(self).filters(),
            final(self).wanted_stage() == old(self).wanted_stage(),
            final(self).ignores_case() == old(self).ignores_case(),
            final(self).wf(),
    {
        self.num_players = Some(n);
    }

    /// Asks for a match on `stage`.
    pub fn set_stage(&mut self, stage: u16)
        ensures
            final(self).wanted_stage() == Some(stage),
            final(self).filters() == old(self).filters(),
            final(self).wanted_players() == old(self).wanted_players(),
            final(self).ignores_case() == old(self).ignores_case(),
    {
        self.stage = Some(stage);
    }

    /// Says whether names and codes are compared without regard to the case
    /// of ASCII letters.
    pub fn ignore_case(&mut self, ignorecase: bool)
        ensures
            final(self).ignores_case() == ignorecase,
            final(self).filters() == old(self).filters(),
            final(self).wanted_players() == old(self).wanted_players(),
            final(self).wanted_stage() == old(self).wanted_stage(),
    {
        self.ignorecase = ignorecase;
    }
}

impl Filter for Game {
    type Candidate = game::Game;

    /// The stage and the number of players are those asked for, and the
    /// filters and the players can be paired up.
    open spec fn matches(&self, game: &game::Game) -> bool {
        &&& self.wanted_stage() matches Some(stage) ==> stage == game.stage
        &&& self.wanted_players() matches Some(n) ==> n as int == game.players@.len()
        &&& can_pair_up(self.filters(), game.players@, self.ignores_case())
    }

    fn is_match(&self, game: &game::Game) -> (b: bool) {
        let stage = match self.stage {
            Some(stage) => stage == game.stage,
            None => true,
        };
        let number = match self.num_players {
            Some(n) => n as usize == game.players.len(),
            None => true,
        };
        if !(stage && number) {
            return false;
        }
        let filters = &self.players;
        let players = &game.players;
        let ignorecase = self.ignorecase;
        let (n, k): (usize, usize) = if filters.len() >= players.len() {
            (filters.len(), players.len())
        } else {
            (players.len(), filters.len())
        };
        let mut it = arrangements(n, k);
        loop
            invariant
                filters@ == self.filters(),
                players@ == game.players@,
                ignorecase == self.ignores_case(),
                self.wanted_stage() matches Some(stage) ==> stage == game.stage,
                self.wanted_players() matches Some(n) ==> n as int == game.players@.len(),
                filters.len() >= players.len() ==> n == filters.len() && k == players.len(),
                filters.len() < players.len() ==> n == players.len() && k == filters.len(),
                forall|i: int|
                    0 <= i < pending(it).len() ==> is_arrangement(
                        #[trigger] pending(it)[i],
                        n as int,
                        k as int,
                    ),
                forall|picks: Seq<usize>| #[trigger]
                    is_arrangement(picks, n as int, k as int) ==> lists(pending(it), picks)
                        || !pairs_up(filters@, players@, picks, ignorecase),
            decreases pending(it).len(),
        {
            let ghost before = pending(it);
            match next_arrangement(&mut it) {
                None => {
                    assert forall|picks: Seq<usize>| !pairs_up(filters@, players@, picks, ignorecase) by {
                        if is_arrangement(picks, n as int, k as int) {
                            assert(!lists(before, picks));
                        }
                    }
                    return false;
                },
                Some(picks) => {
                    assert(is_arrangement(before[0], n as int, k as int));
                    if check_pairing(filters, players, &picks, ignorecase) {
                        return true;
                    }
                    proof {
                        let after = pending(it);
                        assert forall|i: int| 0 <= i < after.len() implies is_arrangement(
                            #[trigger] after[i],
                            n as int,
                            k as int,
                        ) by {
                            assert(after[i] == before[i + 1]);
                        }
                        assert forall|other: Seq<usize>| #[trigger]
                            is_arrangement(other, n as int, k as int) implies lists(after, other)
                            || !pairs_up(filters@, players@, other, ignorecase) by {
                            if lists(before, other) && other != picks@ {
                                let i = choose|i: int| 0 <= i < before.len() && before[i] == other;
                                assert(after[i - 1] == other);
                            }
                        }
                    }
                },
            }
        }
    }
}

} // verus!
