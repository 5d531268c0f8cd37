//! Quests, the session log and the party's treasury.
use vstd::prelude::*;

use super::{at_least, required_text, FormError};
use crate::json::owned;
use crate::text::{lower_ascii_seq, same_text, to_lower_ascii_string, trim, trimmed};

verus! {

/// One of the statuses a quest may have.
pub open spec fn is_quest_status(s: Seq<char>) -> bool {
    s == "active"@ || s == "completed"@ || s == "failed"@ || s == "rumor"@
}

/// The stored status for what was entered: trimmed and lower-cased when it is
/// a known status, `active` otherwise.
pub open spec fn normalized_status(status: Seq<char>) -> Seq<char> {
    let lowered = lower_ascii_seq(trimmed(status));
    if is_quest_status(lowered) {
        lowered
    } else {
        "active"@
    }
}

/// Keep unknown values out of the status column.
pub fn normalize_status(status: &str) -> (r: String)
    ensures
        r@ == normalized_status(status@),
        is_quest_status(r@),
{
    let lowered = to_lower_ascii_string(trim(status).as_str());
    let known = same_text(lowered.as_str(), "active") || same_text(lowered.as_str(), "completed")
        || same_text(lowered.as_str(), "failed") || same_text(lowered.as_str(), "rumor");
    if known {
        lowered
    } else {
        owned("active")
    }
}

/// Whether a quest in status `status` gets a completion date: it does once it
/// has left the active list (anything but `active` and `rumor`).
pub fn stamps_completion(status: &str) -> (b: bool)
    ensures
        b == !(status@ == "active"@ || status@ == "rumor"@),
{
    !(same_text(status, "active") || same_text(status, "rumor"))
}

/// The fields of a new quest.
#[derive(Debug, Clone)]
pub struct NewQuest {
    pub title: String,
    pub status: String,
    pub description: String,
    pub reward: String,
}

/// Validate a new quest: it needs a title; text is trimmed and the status
/// normalized.
pub fn new_quest(title: &str, description: &str, reward: &str, status: &str) -> (r: Result<
    NewQuest,
    FormError,
>)
    ensures
        trimmed(title@).len() == 0 ==> r is Err && r->Err_0 == FormError::QuestTitleMissing,
        trimmed(title@).len() > 0 ==> (r matches Ok(q) && q.title@ == trimmed(title@) && q.status@
            == normalized_status(status@) && q.description@ == trimmed(description@) && q.reward@
            == trimmed(reward@)),
{
    let title = match required_text(title, FormError::QuestTitleMissing) {
        Ok(t) => t,
        Err(e) => return Err(e),
    };
    Ok(NewQuest {
        title,
        status: normalize_status(status),
        description: trim(description),
        reward: trim(reward),
    })
}

/// The fields of a new session-log entry (its number is assigned on insert).
#[derive(Debug, Clone)]
pub struct NewSession {
    pub title: String,
    pub played_on: String,
    pub summary: String,
    pub notes: String,
    pub xp_awarded: i64,
}

/// Validate a new session: it needs a title; text is trimmed, a blank date
/// means `today`, and the XP award is at least 0.
pub fn new_session(
    title: &str,
    played_on: &str,
    summary: &str,
    notes: &str,
    xp_awarded: i64,
    today: &str,
) -> (r: Result<NewSession, FormError>)
    ensures
        trimmed(title@).len() == 0 ==> r is Err && r->Err_0 == FormError::SessionTitleMissing,
        trimmed(title@).len() > 0 ==> (r matches Ok(s) && s.title@ == trimmed(title@)
            && s.played_on@ == (if trimmed(played_on@).len() == 0 {
            today@
        } else {
            trimmed(played_on@)
        }) && s.summary@ == trimmed(summary@) && s.notes@ == trimmed(notes@) && s.xp_awarded == (
        if xp_awarded < 0 {
            0
        } else {
            xp_awarded
        })),
{
    let title = match required_text(title, FormError::SessionTitleMissing) {
        Ok(t) => t,
        Err(e) => return Err(e),
    };
    let date = trim(played_on);
    let played_on = if date.as_str().is_empty() {
        owned(today)
    } else {
        date
    };
    Ok(NewSession {
        title,
        played_on,
        summary: trim(summary),
        notes: trim(notes),
        xp_awarded: at_least(xp_awarded, 0),
    })
}

proof fn lemma_status_is_its_own_normal_form(s: Seq<char>)
    requires
        is_quest_status(s),
    ensures
        trimmed(s) == s,
        lower_ascii_seq(s) == s,
{
    reveal_strlit("active");
    reveal_strlit("completed");
    reveal_strlit("failed");
    reveal_strlit("rumor");
    assert(!crate::text::is_white_space(s[0]));
    assert(!crate::text::is_white_space(s.last()));
    assert(crate::text::trim_start_seq(s) == s);
    assert(crate::text::trim_end_seq(s) == s);
    assert(lower_ascii_seq(s) =~= s);
}

/// Normalizing a status always gives one of the known statuses, and
/// normalizing it again changes nothing.
pub proof fn lemma_normalize_status_idempotent(status: Seq<char>)
    ensures
        is_quest_status(normalized_status(status)),
        normalized_status(normalized_status(status)) == normalized_status(status),
{
    let n = normalized_status(status);
    reveal_strlit("active");
    lemma_status_is_its_own_normal_form(n);
}

} // verus!
