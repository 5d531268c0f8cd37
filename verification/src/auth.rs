//! Authorization seam.
//!
//! The dashboard runs local and single-user today, so `current_actor` always
//! returns the DM. Every permission question goes through `Actor`.
use vstd::prelude::*;

use crate::text::same_text;

verus! {

#[derive(Debug, Clone, PartialEq, Eq)]
pub enum Actor {
    /// Full read/write across the whole campaign.
    Dm,
    /// Can read shared world info and write only their own character.
    Player { user_id: String },
}

impl Actor {
    pub fn is_dm(&self) -> (b: bool)
        ensures
            b == (*self is Dm),
    {
        match self {
            Actor::Dm => true,
            Actor::Player { .. } => false,
        }
    }

    /// The `owner_id` this actor writes as, if any.
    pub fn owner_id(&self) -> (o: Option<&str>)
        ensures
            match *self {
                Actor::Dm => o is None,
                Actor::Player { user_id } => o matches Some(id) && id@ == user_id@,
            },
    {
        match self {
            Actor::Dm => None,
            Actor::Player { user_id } => Some(user_id.as_str()),
        }
    }

    /// Whether this actor may edit a record with the given owner: the DM edits
    /// anything, a player only records that they own.
    pub open spec fn spec_can_edit(&self, owner_id: Option<Seq<char>>) -> bool {
        match *self {
            Actor::Dm => true,
            Actor::Player { user_id } => owner_id == Some(user_id@),
        }
    }

    /// Whether this actor may edit a record with the given owner.
    pub fn can_edit(&self, owner_id: Option<&str>) -> (b: bool)
        ensures
            b == self.spec_can_edit(
                match owner_id {
                    Some(o) => Some(o@),
                    None => None,
                },
            ),
    {
        match self {
            Actor::Dm => true,
            Actor::Player { user_id } => match owner_id {
                Some(o) => same_text(o, user_id.as_str()),
                None => false,
            },
        }
    }

    /// Whether this actor may see DM-only fields (NPC secrets, undiscovered
    /// locations, hidden quest notes).
    pub fn sees_secrets(&self) -> (b: bool)
        ensures
            b == (*self is Dm),
    {
        self.is_dm()
    }
}

/// Today: always the DM.
pub fn current_actor() -> (a: Actor)
    ensures
        a is Dm,
{
    Actor::Dm
}

} // verus!
