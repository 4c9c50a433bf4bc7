//! Which players of a match play the two roles of a search, and whether a
//! match is played on the stage that is asked for.

use vstd::prelude::*;
use vstd::string::{StrSliceExecFns, StringExecFns};
use crate::args;
use crate::frame::RoleMapping;
use crate::game;

verus! {

/// How the players of a match can take the two roles.
#[derive(Clone, Copy, Debug, PartialEq, Eq, Structural)]
pub enum MatchedPlayers {
    /// The player on the first port can be the primary role and the player
    /// on the second port the secondary one, but not the other way round.
    OneWay(u8, u8),
    /// The players on the two ports can take the roles either way round.
    Both(u8, u8),
    /// The players cannot take the roles.
    NoMatch,
}

impl MatchedPlayers {
    /// The slots of the two roles in the frames of the match, where the
    /// players can take the roles on two different ports.
    pub fn mapping(&self) -> (r: Option<RoleMapping>)
        ensures
            match *self {
                MatchedPlayers::OneWay(primary, secondary) | MatchedPlayers::Both(
                    primary,
                    secondary,
                ) => {
                    &&& primary < secondary ==> r == Some(RoleMapping { primary: 0, secondary: 1 })
                    &&& primary > secondary ==> r == Some(RoleMapping { primary: 1, secondary: 0 })
                    &&& primary == secondary ==> r.is_none()
                },
                MatchedPlayers::NoMatch => r.is_none(),
            },
            r matches Some(mapping) ==> mapping.wf(),
    {
        match *self {
            MatchedPlayers::OneWay(primary, secondary) => RoleMapping::from_ports(
                primary,
                secondary,
            ),
            MatchedPlayers::Both(primary, secondary) => RoleMapping::from_ports(primary, secondary),
            MatchedPlayers::NoMatch => None,
        }
    }
}

/// The upper-case letter of an ASCII lower-case letter, and every other
/// character as it is.
pub open spec fn upper_char(c: char) -> char {
    if 'a' <= c && c <= 'z' {
        ((c as u32) - 32) as char
    } else {
        c
    }
}

/// `s` with its ASCII letters in upper case.
pub open spec fn upper(s: Seq<char>) -> Seq<char> {
    s.map_values(|c: char| upper_char(c))
}

/// Whether two texts are the same: letter for letter, or, where the case of
/// ASCII letters is not to count, after both are brought to upper case.
pub open spec fn same_text(a: Seq<char>, b: Seq<char>, ignorecase: bool) -> bool {
    if ignorecase {
        upper(a) == upper(b)
    } else {
        a == b
    }
}

/// `s` with the text `to` in the place of each character `from`.
pub open spec fn substitute(s: Seq<char>, from: char, to: Seq<char>) -> Seq<char>
    decreases s.len(),
{
    if s.len() == 0 {
        Seq::empty()
    } else {
        substitute(s.drop_last(), from, to) + if s.last() == from {
            to
        } else {
            seq![s.last()]
        }
    }
}

/// A name as a user writes it, brought to the form in which names are
/// compared: an underscore for each space, and ASCII letters in upper case.
pub open spec fn written_name(given: Seq<char>) -> Seq<char> {
    upper(substitute(given, ' ', seq!['_']))
}

/// Whether `c` is an ASCII upper-case letter.
pub open spec fn is_upper(c: char) -> bool {
    'A' <= c && c <= 'Z'
}

/// A name that starts each of its words with an upper-case letter, with an
/// underscore between the words: one before each upper-case letter but the
/// first character.
pub open spec fn snake(name: Seq<char>) -> Seq<char>
    decreases name.len(),
{
    if name.len() == 0 {
        Seq::empty()
    } else {
        snake(name.drop_last()) + if name.len() > 1 && is_upper(name.last()) {
            seq!['_', name.last()]
        } else {
            seq![name.last()]
        }
    }
}

/// A name of the tables in upper snake case: `CaptainFalcon` becomes
/// `CAPTAIN_FALCON`.
pub open spec fn upper_snake(name: Seq<char>) -> Seq<char> {
    upper(snake(name))
}

/// Whether `given` writes the name `name` of the tables: with its spaces as
/// underscores and in upper case it is that name in upper snake case.
pub open spec fn same_name(given: Seq<char>, name: Seq<char>) -> bool {
    written_name(given) == upper_snake(name)
}

/// The name of the character with the number `id`, as the table of
/// characters spells it; `None` where the table has no such number.
pub uninterp spec fn character_name(id: u8) -> Option<Seq<char>>;

/// The name of the stage with the number `id`, as the table of stages spells
/// it; `None` where the table has no such number.
pub uninterp spec fn stage_name(id: u16) -> Option<Seq<char>>;

/// `str::to_ascii_uppercase`: a copy of the text with each ASCII lower-case
/// letter replaced by its upper-case letter.
#[verifier::external_body]
fn to_upper(s: &str) -> (r: String)
    ensures
        r@ == upper(s@),
{
    s.to_ascii_uppercase()
}

/// `str::replace` with a character as the pattern: a copy of the text with
/// `to` in the place of each `from`.
#[verifier::external_body]
fn replaced(s: &str, from: char, to: &str) -> (r: String)
    ensures
        r@ == substitute(s@, from, to@),
{
    s.replace(from, to)
}

/// `ssbm_data::character::External::try_from` and the name of the variant
/// that it gives, as `Debug` writes it.
#[verifier::external_body]
fn lookup_character(id: u8) -> (r: Option<String>)
    ensures
        match r {
            Some(name) => character_name(id) == Some(name@),
            None => character_name(id).is_none(),
        },
{
    match ssbm_data::character::External::try_from(id) {
        Ok(character) => Some(format!("{:?}", character)),
        Err(_) => None,
    }
}

/// `ssbm_data::stage::Stage::try_from` and the name of the variant that it
/// gives, as `Debug` writes it.
#[verifier::external_body]
fn lookup_stage(id: u16) -> (r: Option<String>)
    ensures
        match r {
            Some(name) => stage_name(id) == Some(name@),
            None => stage_name(id).is_none(),
        },
{
    match ssbm_data::stage::Stage::try_from(id) {
        Ok(stage) => Some(format!("{:?}", stage)),
        Err(_) => None,
    }
}

/// Compares two texts without regard to the case of ASCII letters.
pub fn equals_ignorecase(s1: &str, s2: &str) -> (b: bool)
    ensures
        b == (upper(s1@) == upper(s2@)),
        b == same_text(s1@, s2@, true),
{
    to_upper(s1) == to_upper(s2)
}

/// Brings a name as a user writes it to the form in which names are
/// compared.
fn normalize(given: &str) -> (r: String)
    ensures
        r@ == written_name(given@),
{
    proof {
        reveal_strlit("_");
        assert("_"@ =~= seq!['_']);
    }
    let joined = replaced(given, ' ', "_");
    to_upper(joined.as_str())
}

/// Puts an underscore before each upper-case letter of `name` but its first
/// character.
fn snake_case(name: &str) -> (r: String)
    ensures
        r@ == snake(name@),
{
    let len: usize = name.unicode_len();
    let mut out = String::new();
    let mut i: usize = 0;
    proof {
        reveal_strlit("_");
        assert(name@.take(0) =~= Seq::<char>::empty());
    }
    while i < len
        invariant
            i <= len,
            len == name@.len(),
            "_"@.len() == 1,
            "_"@[0] == '_',
            out@ == snake(name@.take(i as int)),
        decreases len - i,
    {
        let c = name.get_char(i);
        let ghost before = out@;
        if i > 0 && 'A' <= c && c <= 'Z' {
            out.append("_");
        }
        out.append(name.substring_char(i, i + 1));
        proof {
            let head = name@.take(i + 1);
            assert(head.drop_last() =~= name@.take(i as int));
            assert(head.last() == c);
            assert(name@.subrange(i as int, i + 1) =~= seq![c]);
            assert("_"@ =~= seq!['_']);
            assert(out@ =~= snake(head));
        }
        i = i + 1;
    }
    assert(name@.take(len as int) =~= name@);
    out
}

/// Compares a name as a user writes it with a name of the tables. The tables
/// start each word of a name with an upper-case letter and put nothing
/// between the words; a user puts a space or an underscore between them and
/// writes in any case.
pub fn names_agree(given: &str, name: &str) -> (b: bool)
    ensures
        b == same_name(given@, name@),
{
    let snake = snake_case(name);
    normalize(given) == to_upper(snake.as_str())
}

/// Whether `given` names the stage with the number `id`.
pub open spec fn stage_is(given: Seq<char>, id: u16) -> bool {
    stage_name(id) matches Some(name) && same_name(given, name)
}

/// Whether `given` names the character with the number `id`.
pub open spec fn character_is(given: Seq<char>, id: u8) -> bool {
    character_name(id) matches Some(name) && same_name(given, name)
}

/// Tests whether `stage` names the stage with the number `id`.
pub fn match_stage(stage: &str, id: u16) -> (b: bool)
    ensures
        b == stage_is(stage@, id),
{
    match lookup_stage(id) {
        Some(name) => names_agree(stage, name.as_str()),
        None => false,
    }
}

/// Tests whether `character` names the character with the number `id`.
pub fn match_character(character: &str, id: u8) -> (b: bool)
    ensures
        b == character_is(character@, id),
{
    match lookup_character(id) {
        Some(name) => names_agree(character, name.as_str()),
        None => false,
    }
}

/// Tests whether `game` is played on the stage that the filter asks for. A
/// filter without a stage accepts every match.
pub fn do_filter(game: &game::Game, filter_args: &args::Filter) -> (b: bool)
    ensures
        b == (filter_args.stage matches Some(stage) ==> stage_is(stage@, game.stage)),
{
    match &filter_args.stage {
        Some(stage) => match_stage(stage.as_str(), game.stage),
        None => true,
    }
}

/// Whether `found` is the text that is asked for, if any is.
pub open spec fn text_meets(wanted: Option<String>, found: String, ignorecase: bool) -> bool {
    wanted matches Some(text) ==> same_text(text@, found@, ignorecase)
}

/// Whether `player` has the character, the name and the code that are asked
/// for. A player without an online identity meets no condition on a name or
/// a code.
pub open spec fn player_meets(
    player: game::Player,
    ignorecase: bool,
    car: Option<String>,
    name: Option<String>,
    code: Option<String>,
) -> bool {
    &&& car matches Some(character) ==> character_is(character@, player.character)
    &&& if name.is_none() && code.is_none() {
        true
    } else {
        player.netplay matches Some(netplay) && text_meets(name, netplay.name, ignorecase)
            && text_meets(code, netplay.code, ignorecase)
    }
}

/// Tests whether `found` is the text that is asked for, if any is.
pub fn match_text(wanted: &Option<String>, found: &String, ignorecase: bool) -> (b: bool)
    ensures
        b == text_meets(*wanted, *found, ignorecase),
{
    match wanted {
        None => true,
        Some(text) => {
            if ignorecase {
                equals_ignorecase(text.as_str(), found.as_str())
            } else {
                *text == *found
            }
        },
    }
}

/// Tests one player against the conditions on one role.
pub fn match_player(
    player: &game::Player,
    ignorecase: bool,
    car: &Option<String>,
    name: &Option<String>,
    code: &Option<String>,
) -> (b: bool)
    ensures
        b == player_meets(*player, ignorecase, *car, *name, *code),
{
    let character = match car {
        None => true,
        Some(c) => match_character(c.as_str(), player.character),
    };
    if !character {
        return false;
    }
    if name.is_none() && code.is_none() {
        return true;
    }
    match &player.netplay {
        None => false,
        Some(netplay) => match_text(name, &netplay.name, ignorecase) && match_text(
            code,
            &netplay.code,
            ignorecase,
        ),
    }
}

/// How two players take the roles, from which of them meets the conditions
/// on which role. The forward way puts the first player in the primary role
/// and the second in the secondary one; the other way swaps them.
pub open spec fn roles_of(
    primary_first: bool,
    primary_second: bool,
    secondary_first: bool,
    secondary_second: bool,
    first_port: u8,
    second_port: u8,
) -> MatchedPlayers {
    let forward = primary_first && secondary_second;
    let swapped = primary_second && secondary_first;
    if forward && swapped {
        MatchedPlayers::Both(first_port, second_port)
    } else if forward {
        MatchedPlayers::OneWay(first_port, second_port)
    } else if swapped {
        MatchedPlayers::OneWay(second_port, first_port)
    } else {
        MatchedPlayers::NoMatch
    }
}

/// Decides how two players take the roles, from which of them meets the
/// conditions on which role.
pub fn assign_roles(
    primary_first: bool,
    primary_second: bool,
    secondary_first: bool,
    secondary_second: bool,
    first_port: u8,
    second_port: u8,
) -> (r: MatchedPlayers)
    ensures
        r == roles_of(
            primary_first,
            primary_second,
            secondary_first,
            secondary_second,
            first_port,
            second_port,
        ),
{
    match (primary_first, primary_second, secondary_first, secondary_second) {
        (true, true, true, true) => MatchedPlayers::Both(first_port, second_port),
        (true, _, _, true) => MatchedPlayers::OneWay(first_port, second_port),
        (_, true, true, _) => MatchedPlayers::OneWay(second_port, first_port),
        _ => MatchedPlayers::NoMatch,
    }
}

/// How the players of `game` take the two roles under the conditions
/// (`pchar`, `pname`, `pcode`) on the primary role and (`ochar`, `oname`,
/// `ocode`) on the secondary one.
pub open spec fn resolved(
    game: game::Game,
    ignorecase: bool,
    pchar: Option<String>,
    pname: Option<String>,
    pcode: Option<String>,
    ochar: Option<String>,
    oname: Option<String>,
    ocode: Option<String>,
) -> MatchedPlayers {
    let players = game.players@;
    if players.len() != 2 {
        MatchedPlayers::NoMatch
    } else {
        roles_of(
            player_meets(players[0], ignorecase, pchar, pname, pcode),
            player_meets(players[1], ignorecase, pchar, pname, pcode),
            player_meets(players[0], ignorecase, ochar, oname, ocode),
            player_meets(players[1], ignorecase, ochar, oname, ocode),
            players[0].port,
            players[1].port,
        )
    }
}

/// Finds out how the players of `game` take the two roles. Only a match of
/// two players has roles to give.
pub fn match_players(
    game: &game::Game,
    ignorecase: bool,
    pchar: &Option<String>,
    pname: &Option<String>,
    pcode: &Option<String>,
    ochar: &Option<String>,
    oname: &Option<String>,
    ocode: &Option<String>,
) -> (r: MatchedPlayers)
    ensures
        r == resolved(*game, ignorecase, *pchar, *pname, *pcode, *ochar, *oname, *ocode),
{
    let players = &game.players;

    if players.len() != 2 {
        return MatchedPlayers::NoMatch;
    }
    let p1 = &players[0];
    let p2 = &players[1];

    let player_matches1 = match_player(p1, ignorecase, pchar, pname, pcode);
    let player_matches2 = match_player(p2, ignorecase, pchar, pname, pcode);
    let oppon_matches1 = match_player(p1, ignorecase, ochar, oname, ocode);
    let oppon_matches2 = match_player(p2, ignorecase, ochar, oname, ocode);

    assign_roles(
        player_matches1,
        player_matches2,
        oppon_matches1,
        oppon_matches2,
        p1.port,
        p2.port,
    )
}

} // verus!
