//! Character sheets: HP changes, form validation, proficiency toggles.
use vstd::prelude::*;

use super::{at_least, required_text, FormError};
use crate::rules::{clamp, clamp_spec};
use crate::text::{trim, trimmed};

pub use crate::json::toggled_json_array;

verus! {

/// HP and temporary HP after a change of `delta` (damage when negative,
/// healing otherwise).
pub open spec fn hp_after(hp_current: int, hp_temp: int, hp_max: int, delta: int) -> (int, int) {
    if delta >= 0 {
        (if hp_current + delta < hp_max {
            hp_current + delta
        } else {
            hp_max
        }, hp_temp)
    } else {
        let damage = -delta;
        let absorbed = if damage < hp_temp {
            damage
        } else {
            hp_temp
        };
        let through = damage - absorbed;
        (if hp_current - through > 0 {
            hp_current - through
        } else {
            0
        }, hp_temp - absorbed)
    }
}

/// The arithmetic of a change stays within `i64`.
pub open spec fn hp_delta_fits(hp_current: int, hp_temp: int, delta: int) -> bool {
    if delta >= 0 {
        hp_current + delta <= i64::MAX
    } else {
        let damage = -delta;
        let absorbed = if damage < hp_temp {
            damage
        } else {
            hp_temp
        };
        &&& delta > i64::MIN
        &&& damage - absorbed <= i64::MAX
        &&& hp_current - (damage - absorbed) >= i64::MIN
    }
}

/// Damage eats temporary hit points first; healing never exceeds max HP and
/// never restores temp HP.
pub fn apply_hp_delta(hp_current: i64, hp_temp: i64, hp_max: i64, delta: i64) -> (r: (i64, i64))
    requires
        hp_delta_fits(hp_current as int, hp_temp as int, delta as int),
    ensures
        (r.0 as int, r.1 as int) == hp_after(
            hp_current as int,
            hp_temp as int,
            hp_max as int,
            delta as int,
        ),
        delta >= 0 ==> r.0 <= hp_max && r.0 <= hp_current + delta && (r.0 == hp_max || r.0
            == hp_current + delta) && r.1 == hp_temp,
{
    if delta >= 0 {
        let healed = hp_current + delta;
        return (if healed < hp_max {
            healed
        } else {
            hp_max
        }, hp_temp);
    }
    let mut damage = -delta;
    let absorbed = if damage < hp_temp {
        damage
    } else {
        hp_temp
    };
    damage = damage - absorbed;
    let left = hp_current - damage;
    (if left > 0 {
        left
    } else {
        0
    }, hp_temp - absorbed)
}

/// The HP rules: healing is capped at max HP and leaves temporary HP alone;
/// damage is taken from temporary HP first and only the rest from HP, which
/// never drops below zero.
pub proof fn lemma_hp_rules(hp_current: int, hp_temp: int, hp_max: int, delta: int)
    requires
        0 <= hp_current,
        0 <= hp_temp,
    ensures
        delta >= 0 ==> hp_after(hp_current, hp_temp, hp_max, delta).0 <= hp_max,
        delta >= 0 ==> hp_after(hp_current, hp_temp, hp_max, delta).1 == hp_temp,
        delta >= 0 && hp_current + delta <= hp_max ==> hp_after(hp_current, hp_temp, hp_max, delta).0
            == hp_current + delta,
        delta < 0 && -delta <= hp_temp ==> hp_after(hp_current, hp_temp, hp_max, delta) == (
            hp_current,
            hp_temp + delta,
        ),
        delta < 0 && -delta > hp_temp ==> hp_after(hp_current, hp_temp, hp_max, delta) == (
            if hp_current + hp_temp + delta > 0 {
                hp_current + hp_temp + delta
            } else {
                0
            },
            0int,
        ),
{
}

/// Healing tops out at max HP: the new HP is the smaller of the healed value
/// and max HP (never above either, and equal to one of them), and temporary
/// HP is untouched. Damage never raises HP or temporary HP, and HP only falls
/// once temporary HP is used up.
pub proof fn lemma_healing_tops_out(hp_current: int, hp_temp: int, hp_max: int, delta: int)
    ensures
        delta >= 0 ==> {
            let (hp, temp) = hp_after(hp_current, hp_temp, hp_max, delta);
            &&& hp <= hp_max
            &&& hp <= hp_current + delta
            &&& (hp == hp_max || hp == hp_current + delta)
            &&& (hp_current + delta >= hp_max ==> hp == hp_max)
            &&& temp == hp_temp
        },
        delta < 0 && hp_temp >= 0 ==> {
            let (hp, temp) = hp_after(hp_current, hp_temp, hp_max, delta);
            &&& temp <= hp_temp
            &&& 0 <= temp
            &&& (hp_current >= 0 ==> 0 <= hp <= hp_current)
            &&& (hp < hp_current ==> temp == 0)
            &&& (hp_current >= 0 ==> hp == if hp_current + hp_temp + delta - temp > 0 {
                hp_current + hp_temp + delta - temp
            } else {
                0
            })
        },
{
}

/// Each submitted number is held to its range: a value inside the range is
/// kept as it was, one below it becomes the lower end and one above it the
/// upper end. Every ability score reads the same ability's submitted score.
pub proof fn lemma_sanitize_holds_each_field(edit: CharacterEdit, out: CharacterEdit)
    requires
        is_sanitized_edit(edit, out),
    ensures
        1 <= edit.str_score <= 30 ==> out.str_score == edit.str_score,
        1 <= edit.dex_score <= 30 ==> out.dex_score == edit.dex_score,
        1 <= edit.con_score <= 30 ==> out.con_score == edit.con_score,
        1 <= edit.int_score <= 30 ==> out.int_score == edit.int_score,
        1 <= edit.wis_score <= 30 ==> out.wis_score == edit.wis_score,
        1 <= edit.cha_score <= 30 ==> out.cha_score == edit.cha_score,
        edit.str_score < 1 ==> out.str_score == 1,
        edit.dex_score < 1 ==> out.dex_score == 1,
        edit.con_score < 1 ==> out.con_score == 1,
        edit.int_score < 1 ==> out.int_score == 1,
        edit.wis_score < 1 ==> out.wis_score == 1,
        edit.cha_score < 1 ==> out.cha_score == 1,
        edit.str_score > 30 ==> out.str_score == 30,
        edit.dex_score > 30 ==> out.dex_score == 30,
        edit.con_score > 30 ==> out.con_score == 30,
        edit.int_score > 30 ==> out.int_score == 30,
        edit.wis_score > 30 ==> out.wis_score == 30,
        edit.cha_score > 30 ==> out.cha_score == 30,
        1 <= edit.level <= 20 ==> out.level == edit.level,
        edit.level < 1 ==> out.level == 1,
        edit.level > 20 ==> out.level == 20,
        edit.hp_max >= 1 ==> out.hp_max == edit.hp_max,
        edit.hp_max < 1 ==> out.hp_max == 1,
        0 <= edit.hp_current <= out.hp_max ==> out.hp_current == edit.hp_current,
        edit.hp_current < 0 ==> out.hp_current == 0,
        edit.hp_current > out.hp_max ==> out.hp_current == out.hp_max,
        edit.xp >= 0 ==> out.xp == edit.xp,
        edit.xp < 0 ==> out.xp == 0,
        edit.hp_temp >= 0 ==> out.hp_temp == edit.hp_temp,
        edit.hp_temp < 0 ==> out.hp_temp == 0,
        edit.armor_class >= 0 ==> out.armor_class == edit.armor_class,
        edit.armor_class < 0 ==> out.armor_class == 0,
        edit.speed >= 0 ==> out.speed == edit.speed,
        edit.speed < 0 ==> out.speed == 0,
{
}

/// The fields of a new character.
#[derive(Debug, Clone)]
pub struct NewCharacter {
    pub name: String,
    pub class: String,
    pub race: String,
    pub level: i64,
}

/// Validate a new character: it needs a name; text is trimmed and the level
/// held to 1..=20.
pub fn new_character(name: &str, class: &str, race: &str, level: i64) -> (r: Result<
    NewCharacter,
    FormError,
>)
    ensures
        trimmed(name@).len() == 0 ==> r is Err && r->Err_0 == FormError::CharacterNameMissing,
        trimmed(name@).len() > 0 ==> (r matches Ok(c) && c.name@ == trimmed(name@) && c.class@
            == trimmed(class@) && c.race@ == trimmed(race@) && c.level == clamp_spec(
            level as int,
            1,
            20,
        )),
{
    let name = match required_text(name, FormError::CharacterNameMissing) {
        Ok(n) => n,
        Err(e) => return Err(e),
    };
    Ok(NewCharacter { name, class: trim(class), race: trim(race), level: clamp(level, 1, 20) })
}

/// The editable fields of a character sheet, as submitted.
#[derive(Debug, Clone)]
pub struct CharacterEdit {
    pub id: String,
    pub name: String,
    pub player_name: String,
    pub class: String,
    pub subclass: String,
    pub race: String,
    pub background: String,
    pub alignment: String,
    pub level: i64,
    pub xp: i64,
    pub str_score: i64,
    pub dex_score: i64,
    pub con_score: i64,
    pub int_score: i64,
    pub wis_score: i64,
    pub cha_score: i64,
    pub hp_max: i64,
    pub hp_current: i64,
    pub hp_temp: i64,
    pub armor_class: i64,
    pub speed: i64,
    pub hit_dice: String,
    pub notes: String,
}

/// `out` is the sheet `edit` once its text is trimmed and its numbers are
/// held to their ranges.
pub open spec fn is_sanitized_edit(edit: CharacterEdit, out: CharacterEdit) -> bool {
    let max_hp = if edit.hp_max < 1 {
        1
    } else {
        edit.hp_max as int
    };
    &&& out.id@ == edit.id@
    &&& out.name@ == trimmed(edit.name@)
    &&& out.player_name@ == trimmed(edit.player_name@)
    &&& out.class@ == trimmed(edit.class@)
    &&& out.subclass@ == trimmed(edit.subclass@)
    &&& out.race@ == trimmed(edit.race@)
    &&& out.background@ == trimmed(edit.background@)
    &&& out.alignment@ == trimmed(edit.alignment@)
    &&& out.level == clamp_spec(edit.level as int, 1, 20)
    &&& out.xp == if edit.xp < 0 {
        0
    } else {
        edit.xp
    }
    &&& out.str_score == clamp_spec(edit.str_score as int, 1, 30)
    &&& out.dex_score == clamp_spec(edit.dex_score as int, 1, 30)
    &&& out.con_score == clamp_spec(edit.con_score as int, 1, 30)
    &&& out.int_score == clamp_spec(edit.int_score as int, 1, 30)
    &&& out.wis_score == clamp_spec(edit.wis_score as int, 1, 30)
    &&& out.cha_score == clamp_spec(edit.cha_score as int, 1, 30)
    &&& out.hp_max == max_hp
    &&& out.hp_current == clamp_spec(edit.hp_current as int, 0, max_hp)
    &&& out.hp_temp == if edit.hp_temp < 0 {
        0
    } else {
        edit.hp_temp
    }
    &&& out.armor_class == if edit.armor_class < 0 {
        0
    } else {
        edit.armor_class
    }
    &&& out.speed == if edit.speed < 0 {
        0
    } else {
        edit.speed
    }
    &&& out.hit_dice@ == trimmed(edit.hit_dice@)
    &&& out.notes@ == edit.notes@
}

/// Validate an edited sheet: it needs a name; text is trimmed, the level held
/// to 1..=20, ability scores to 1..=30, max HP to at least 1, current HP to
/// 0..=max HP, and XP, temp HP, AC and speed to at least 0.
pub fn sanitize_character_edit(edit: CharacterEdit) -> (r: Result<CharacterEdit, FormError>)
    ensures
        trimmed(edit.name@).len() == 0 ==> r is Err && r->Err_0 == FormError::CharacterNameMissing,
        trimmed(edit.name@).len() > 0 ==> (r matches Ok(out) && is_sanitized_edit(edit, out)),
{
    let name = match required_text(edit.name.as_str(), FormError::CharacterNameMissing) {
        Ok(n) => n,
        Err(e) => return Err(e),
    };
    let hp_max = at_least(edit.hp_max, 1);
    Ok(CharacterEdit {
        name,
        player_name: trim(edit.player_name.as_str()),
        class: trim(edit.class.as_str()),
        subclass: trim(edit.subclass.as_str()),
        race: trim(edit.race.as_str()),
        background: trim(edit.background.as_str()),
        alignment: trim(edit.alignment.as_str()),
        level: clamp(edit.level, 1, 20),
        xp: at_least(edit.xp, 0),
        str_score: clamp(edit.str_score, 1, 30),
        dex_score: clamp(edit.dex_score, 1, 30),
        con_score: clamp(edit.con_score, 1, 30),
        int_score: clamp(edit.int_score, 1, 30),
        wis_score: clamp(edit.wis_score, 1, 30),
        cha_score: clamp(edit.cha_score, 1, 30),
        hp_max,
        hp_current: clamp(edit.hp_current, 0, hp_max),
        hp_temp: at_least(edit.hp_temp, 0),
        armor_class: at_least(edit.armor_class, 0),
        speed: at_least(edit.speed, 0),
        hit_dice: trim(edit.hit_dice.as_str()),
        notes: edit.notes,
        id: edit.id,
    })
}

/// Death-save counts held to 0..=3.
pub fn death_save_counts(successes: i64, failures: i64) -> (r: (i64, i64))
    ensures
        r.0 == clamp_spec(successes as int, 0, 3),
        r.1 == clamp_spec(failures as int, 0, 3),
{
    (clamp(successes, 0, 3), clamp(failures, 0, 3))
}

/// The fields of a new inventory item (its weight is kept apart).
#[derive(Debug, Clone)]
pub struct NewItem {
    pub name: String,
    pub quantity: i64,
    pub description: String,
}

/// Validate a new item: it needs a name; text is trimmed and the quantity is
/// at least 1.
pub fn new_item(name: &str, quantity: i64, description: &str) -> (r: Result<NewItem, FormError>)
    ensures
        trimmed(name@).len() == 0 ==> r is Err && r->Err_0 == FormError::ItemNameMissing,
        trimmed(name@).len() > 0 ==> (r matches Ok(item) && item.name@ == trimmed(name@)
            && item.quantity == (if quantity < 1 {
            1
        } else {
            quantity
        }) && item.description@ == trimmed(description@)),
{
    let name = match required_text(name, FormError::ItemNameMissing) {
        Ok(n) => n,
        Err(e) => return Err(e),
    };
    Ok(NewItem { name, quantity: at_least(quantity, 1), description: trim(description) })
}

} // verus!
