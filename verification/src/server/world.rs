//! Locations, factions and NPCs.
use vstd::prelude::*;

use super::{at_least, required_text, FormError};
use crate::rules::{clamp, clamp_spec};
use crate::text::{trim, trimmed};

verus! {

/// An empty or whitespace-only form value means "not set"; anything else is
/// kept, trimmed.
pub open spec fn blank_to_none_spec(value: Seq<char>) -> Option<Seq<char>> {
    if trimmed(value).len() == 0 {
        None
    } else {
        Some(trimmed(value))
    }
}

/// An empty or whitespace-only form value means "not set".
pub fn blank_to_none(value: String) -> (r: Option<String>)
    ensures
        r is None <==> blank_to_none_spec(value@) is None,
        r matches Some(s) ==> blank_to_none_spec(value@) == Some(s@),
{
    let trimmed_value = trim(value.as_str());
    if trimmed_value.as_str().is_empty() {
        None
    } else {
        Some(trimmed_value)
    }
}

/// Attitude toward the party, held to -100..=100.
pub fn clamp_attitude(attitude: i64) -> (a: i64)
    ensures
        a == clamp_spec(attitude as int, -100, 100),
{
    clamp(attitude, -100, 100)
}

/// The fields of a new location.
#[derive(Debug, Clone)]
pub struct NewLocation {
    pub name: String,
    pub kind: String,
    pub description: String,
}

/// Validate a new location: it needs a name; text is trimmed.
pub fn new_location(name: &str, kind: &str, description: &str) -> (r: Result<
    NewLocation,
    FormError,
>)
    ensures
        trimmed(name@).len() == 0 ==> r is Err && r->Err_0 == FormError::LocationNameMissing,
        trimmed(name@).len() > 0 ==> (r matches Ok(l) && l.name@ == trimmed(name@) && l.kind@
            == trimmed(kind@) && l.description@ == trimmed(description@)),
{
    let name = match required_text(name, FormError::LocationNameMissing) {
        Ok(n) => n,
        Err(e) => return Err(e),
    };
    Ok(NewLocation { name, kind: trim(kind), description: trim(description) })
}

/// The fields of a new faction.
#[derive(Debug, Clone)]
pub struct NewFaction {
    pub name: String,
    pub description: String,
    pub attitude: i64,
}

/// Validate a new faction: it needs a name; text is trimmed and the attitude
/// held to -100..=100.
pub fn new_faction(name: &str, description: &str, attitude: i64) -> (r: Result<
    NewFaction,
    FormError,
>)
    ensures
        trimmed(name@).len() == 0 ==> r is Err && r->Err_0 == FormError::FactionNameMissing,
        trimmed(name@).len() > 0 ==> (r matches Ok(f) && f.name@ == trimmed(name@)
            && f.description@ == trimmed(description@) && f.attitude == clamp_spec(
            attitude as int,
            -100,
            100,
        )),
{
    let name = match required_text(name, FormError::FactionNameMissing) {
        Ok(n) => n,
        Err(e) => return Err(e),
    };
    Ok(NewFaction { name, description: trim(description), attitude: clamp_attitude(attitude) })
}

/// The fields of a new NPC.
#[derive(Debug, Clone)]
pub struct NewNpc {
    pub name: String,
    pub race: String,
    pub role: String,
    pub location_id: Option<String>,
    pub faction_id: Option<String>,
    pub attitude: i64,
    pub armor_class: i64,
    pub hp_max: i64,
    pub challenge_rating: String,
    pub description: String,
    pub secrets: String,
}

/// The view of an optional text field.
pub open spec fn opt_view(o: Option<String>) -> Option<Seq<char>> {
    match o {
        Some(s) => Some(s@),
        None => None,
    }
}

/// `n` is the NPC entered with these values once validated.
pub open spec fn is_new_npc(
    n: NewNpc,
    name: Seq<char>,
    race: Seq<char>,
    role: Seq<char>,
    location_id: Seq<char>,
    faction_id: Seq<char>,
    attitude: int,
    armor_class: int,
    hp_max: int,
    challenge_rating: Seq<char>,
    description: Seq<char>,
    secrets: Seq<char>,
) -> bool {
    &&& n.name@ == trimmed(name)
    &&& n.race@ == trimmed(race)
    &&& n.role@ == trimmed(role)
    &&& opt_view(n.location_id) == blank_to_none_spec(location_id)
    &&& opt_view(n.faction_id) == blank_to_none_spec(faction_id)
    &&& n.attitude == clamp_spec(attitude, -100, 100)
    &&& n.armor_class == if armor_class < 0 {
        0
    } else {
        armor_class
    }
    &&& n.hp_max == if hp_max < 1 {
        1
    } else {
        hp_max
    }
    &&& n.challenge_rating@ == trimmed(challenge_rating)
    &&& n.description@ == trimmed(description)
    &&& n.secrets@ == trimmed(secrets)
}

/// Validate a new NPC: it needs a name; text is trimmed, blank location and
/// faction mean unassigned, the attitude is held to -100..=100, AC to at least
/// 0 and max HP to at least 1.
pub fn new_npc(
    name: &str,
    race: &str,
    role: &str,
    location_id: String,
    faction_id: String,
    attitude: i64,
    armor_class: i64,
    hp_max: i64,
    challenge_rating: &str,
    description: &str,
    secrets: &str,
) -> (r: Result<NewNpc, FormError>)
    ensures
        trimmed(name@).len() == 0 ==> r is Err && r->Err_0 == FormError::NpcNameMissing,
        trimmed(name@).len() > 0 ==> (r matches Ok(n) && is_new_npc(
            n,
            name@,
            race@,
            role@,
            location_id@,
            faction_id@,
            attitude as int,
            armor_class as int,
            hp_max as int,
            challenge_rating@,
            description@,
            secrets@,
        )),
{
    let name = match required_text(name, FormError::NpcNameMissing) {
        Ok(n) => n,
        Err(e) => return Err(e),
    };
    Ok(NewNpc {
        name,
        race: trim(race),
        role: trim(role),
        location_id: blank_to_none(location_id),
        faction_id: blank_to_none(faction_id),
        attitude: clamp_attitude(attitude),
        armor_class: at_least(armor_class, 0),
        hp_max: at_least(hp_max, 1),
        challenge_rating: trim(challenge_rating),
        description: trim(description),
        secrets: trim(secrets),
    })
}

} // verus!
