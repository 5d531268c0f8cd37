//! The decisions behind each server action: validating and normalizing form
//! input, HP and turn arithmetic, and which records an action touches. The
//! actions themselves (database reads and writes) call into these.
use vstd::prelude::*;

use crate::text::{trim, trimmed};

pub mod characters;
pub mod combat;
pub mod journal;
pub mod world;

verus! {

/// A form that cannot be saved, and why.
#[derive(Debug, Clone, Copy, PartialEq, Eq, Structural)]
pub enum FormError {
    CharacterNameMissing,
    ItemNameMissing,
    EncounterNameMissing,
    CombatantNameMissing,
    QuestTitleMissing,
    SessionTitleMissing,
    LocationNameMissing,
    FactionNameMissing,
    NpcNameMissing,
}

impl FormError {
    pub open spec fn spec_message(&self) -> Seq<char> {
        match self {
            FormError::CharacterNameMissing => "Character needs a name"@,
            FormError::ItemNameMissing => "Item needs a name"@,
            FormError::EncounterNameMissing => "Encounter needs a name"@,
            FormError::CombatantNameMissing => "Combatant needs a name"@,
            FormError::QuestTitleMissing => "Quest needs a title"@,
            FormError::SessionTitleMissing => "Session needs a title"@,
            FormError::LocationNameMissing => "Location needs a name"@,
            FormError::FactionNameMissing => "Faction needs a name"@,
            FormError::NpcNameMissing => "NPC needs a name"@,
        }
    }

    /// The message shown to the user.
    pub fn message(&self) -> (m: &'static str)
        ensures
            m@ == self.spec_message(),
    {
        match self {
            FormError::CharacterNameMissing => "Character needs a name",
            FormError::ItemNameMissing => "Item needs a name",
            FormError::EncounterNameMissing => "Encounter needs a name",
            FormError::CombatantNameMissing => "Combatant needs a name",
            FormError::QuestTitleMissing => "Quest needs a title",
            FormError::SessionTitleMissing => "Session needs a title",
            FormError::LocationNameMissing => "Location needs a name",
            FormError::FactionNameMissing => "Faction needs a name",
            FormError::NpcNameMissing => "NPC needs a name",
        }
    }
}

/// The trimmed value of a required field, or `missing` when nothing but
/// whitespace was entered.
pub fn required_text(value: &str, missing: FormError) -> (r: Result<String, FormError>)
    ensures
        trimmed(value@).len() == 0 ==> r == Err::<String, FormError>(missing),
        trimmed(value@).len() > 0 ==> (r matches Ok(s) && s@ == trimmed(value@)),
{
    let t = trim(value);
    if t.as_str().is_empty() {
        Err(missing)
    } else {
        Ok(t)
    }
}

/// `max(x, lo)`.
pub fn at_least(x: i64, lo: i64) -> (r: i64)
    ensures
        r == if x < lo {
            lo
        } else {
            x
        },
{
    if x < lo {
        lo
    } else {
        x
    }
}

} // verus!
