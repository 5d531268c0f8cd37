//! The initiative tracker: turn order arithmetic, rolling initiative, adding
//! combatants and pulling the party into a fight.
use vstd::prelude::*;

use super::{at_least, required_text, FormError};
use crate::dice::{parse, roll, DiceError};
use crate::json::list_contains;
use crate::models::Character;
use crate::rules::{ability_modifier, clamp, clamp_spec, modifier_spec};
use crate::text::trimmed;

verus! {

/// Turn pointer and round after advancing one turn.
pub open spec fn advance_spec(turn_index: int, round: int, combatant_count: int) -> (int, int) {
    if combatant_count <= 0 {
        (0, round)
    } else if turn_index + 1 >= combatant_count {
        (0, round + 1)
    } else {
        (turn_index + 1, round)
    }
}

/// Turn pointer and round after stepping back one turn.
pub open spec fn rewind_spec(turn_index: int, round: int, combatant_count: int) -> (int, int) {
    if combatant_count <= 0 {
        (0, round)
    } else if turn_index == 0 {
        if round <= 1 {
            (0, 1)
        } else {
            (combatant_count - 1, round - 1)
        }
    } else {
        (turn_index - 1, round)
    }
}

/// Advance the turn pointer, wrapping to the next round at the end of the order.
pub fn advance_turn(turn_index: i64, round: i64, combatant_count: i64) -> (r: (i64, i64))
    requires
        combatant_count > 0 ==> turn_index < i64::MAX,
        combatant_count > 0 && turn_index + 1 >= combatant_count ==> round < i64::MAX,
    ensures
        (r.0 as int, r.1 as int) == advance_spec(
            turn_index as int,
            round as int,
            combatant_count as int,
        ),
{
    if combatant_count <= 0 {
        return (0, round);
    }
    let next = turn_index + 1;
    if next >= combatant_count {
        (0, round + 1)
    } else {
        (next, round)
    }
}

/// Step back a turn, unwinding into the previous round if needed.
pub fn rewind_turn(turn_index: i64, round: i64, combatant_count: i64) -> (r: (i64, i64))
    requires
        combatant_count > 0 ==> turn_index > i64::MIN,
    ensures
        (r.0 as int, r.1 as int) == rewind_spec(
            turn_index as int,
            round as int,
            combatant_count as int,
        ),
{
    if combatant_count <= 0 {
        return (0, round);
    }
    if turn_index == 0 {
        // Never go back past the start of the fight.
        if round <= 1 {
            (0, 1)
        } else {
            (combatant_count - 1, round - 1)
        }
    } else {
        (turn_index - 1, round)
    }
}

/// From any position in the order, advancing stays in the order, the round
/// moves on by exactly one when (and only when) the order wraps, and stepping
/// back undoes the advance.
pub proof fn lemma_advance_then_rewind(turn_index: int, round: int, combatant_count: int)
    requires
        0 <= turn_index < combatant_count,
        round >= 1,
    ensures
        ({
            let (t, r) = advance_spec(turn_index, round, combatant_count);
            &&& 0 <= t < combatant_count
            &&& r == if turn_index == combatant_count - 1 {
                round + 1
            } else {
                round
            }
            &&& rewind_spec(t, r, combatant_count) == (turn_index, round)
        }),
{
}

/// Stepping back from anywhere but the very first turn of the fight, then
/// advancing, returns to the same position; at the first turn, stepping back
/// stays put.
pub proof fn lemma_rewind_then_advance(turn_index: int, round: int, combatant_count: int)
    requires
        0 <= turn_index < combatant_count,
        round >= 1,
    ensures
        (turn_index, round) != (0int, 1int) ==> ({
            let (t, r) = rewind_spec(turn_index, round, combatant_count);
            &&& 0 <= t < combatant_count
            &&& r >= 1
            &&& advance_spec(t, r, combatant_count) == (turn_index, round)
        }),
        (turn_index, round) == (0int, 1int) ==> rewind_spec(turn_index, round, combatant_count) == (
            0int,
            1int,
        ),
{
}

/// An initiative roll for a combatant with Dexterity `dex_score`: a d20 plus
/// the Dexterity modifier.
pub fn roll_initiative(dex_score: i64) -> (r: Result<i64, DiceError>)
    requires
        dex_score >= i64::MIN + 10,
    ensures
        r matches Ok(v) && 1 <= v - modifier_spec(dex_score as int) <= 20,
{
    proof {
        crate::dice::lemma_parse_d20();
    }
    let d20 = match parse("d20") {
        Ok(e) => e,
        Err(e) => return Err(e),
    };
    let outcome = roll(d20);
    assert(d20.count == 1 && d20.sides == 20 && d20.modifier == 0);
    assert(outcome.rolls@.len() == 1);
    assert(outcome.rolls@.drop_last() =~= Seq::<u32>::empty());
    assert(crate::dice::roll_sum(Seq::<u32>::empty()) == 0);
    assert(1 <= outcome.rolls@[0] <= 20);
    assert(crate::dice::roll_sum(outcome.rolls@) == outcome.rolls@[0]);
    Ok(outcome.total + ability_modifier(dex_score))
}

/// The fields of a combatant added by hand.
#[derive(Debug, Clone)]
pub struct NewCombatant {
    pub name: String,
    pub initiative: i64,
    pub hp_max: i64,
    pub armor_class: i64,
    pub dex_score: i64,
}

/// Validate a combatant: it needs a name; the name is trimmed, max HP is at
/// least 1, Dexterity is held to 1..=30 and AC to at least 0.
pub fn new_combatant(
    name: &str,
    initiative: i64,
    hp_max: i64,
    armor_class: i64,
    dex_score: i64,
) -> (r: Result<NewCombatant, FormError>)
    ensures
        trimmed(name@).len() == 0 ==> r is Err && r->Err_0 == FormError::CombatantNameMissing,
        trimmed(name@).len() > 0 ==> (r matches Ok(c) && c.name@ == trimmed(name@) && c.initiative
            == initiative && c.hp_max == (if hp_max < 1 {
            1
        } else {
            hp_max
        }) && c.armor_class == (if armor_class < 0 {
            0
        } else {
            armor_class
        }) && c.dex_score == clamp_spec(dex_score as int, 1, 30)),
{
    let name = match required_text(name, FormError::CombatantNameMissing) {
        Ok(n) => n,
        Err(e) => return Err(e),
    };
    Ok(NewCombatant {
        name,
        initiative,
        hp_max: at_least(hp_max, 1),
        armor_class: at_least(armor_class, 0),
        dex_score: clamp(dex_score, 1, 30),
    })
}

/// The party members not already in the encounter, in the order given.
pub open spec fn not_yet_in(already: Seq<Seq<char>>) -> spec_fn(Character) -> bool {
    |c: Character| !already.contains(c.id@)
}

/// The active characters to pull into an encounter: every one whose id is not
/// already among the encounter's combatants, in the order given.
pub fn members_to_add(characters: Vec<Character>, already: &Vec<String>) -> (out: Vec<Character>)
    ensures
        out@ == characters@.filter(not_yet_in(already.deep_view())),
{
    let ghost all = characters@;
    let ghost p = not_yet_in(already.deep_view());
    let mut out: Vec<Character> = Vec::new();
    for c in it: characters
        invariant
            it.seq() == all,
            p == not_yet_in(already.deep_view()),
            out@ == all.take(it.index() as int).filter(p),
    {
        let ghost i = it.index() as int;
        proof {
            assert(all.take(i + 1) =~= all.take(i).push(all[i]));
            all.take(i).lemma_filter_push(all[i], p);
        }
        if !list_contains(already, c.id.as_str()) {
            out.push(c);
        }
    }
    assert(all.take(all.len() as int) =~= all);
    out
}

} // verus!
