use dnd_dashboard::rules::{
    ability_modifier, clamp, death_save_after_click, format_bonus, level_for_xp, passive_score,
    proficiency_bonus, save_bonus, skill_ability, skill_bonus, Ability, CONDITIONS,
    SKILLS, XP_THRESHOLDS,
};

#[test]
fn modifiers_round_down_for_low_scores() {
    assert_eq!(ability_modifier(1), -5);
    assert_eq!(ability_modifier(7), -2);
    assert_eq!(ability_modifier(8), -1);
    assert_eq!(ability_modifier(9), -1);
    assert_eq!(ability_modifier(10), 0);
    assert_eq!(ability_modifier(11), 0);
    assert_eq!(ability_modifier(12), 1);
    assert_eq!(ability_modifier(20), 5);
    assert_eq!(ability_modifier(30), 10);
}

#[test]
fn proficiency_steps_every_four_levels() {
    assert_eq!(proficiency_bonus(1), 2);
    assert_eq!(proficiency_bonus(4), 2);
    assert_eq!(proficiency_bonus(5), 3);
    assert_eq!(proficiency_bonus(9), 4);
    assert_eq!(proficiency_bonus(13), 5);
    assert_eq!(proficiency_bonus(17), 6);
    assert_eq!(proficiency_bonus(20), 6);
}

#[test]
fn expertise_doubles_proficiency() {
    // Level 5 rogue, Dex 18: +4 mod, +3 prof.
    assert_eq!(skill_bonus(18, 5, false, false), 4);
    assert_eq!(skill_bonus(18, 5, true, false), 7);
    assert_eq!(skill_bonus(18, 5, true, true), 10);
}

#[test]
fn passive_perception_matches_sheet() {
    // Wis 14 (+2), level 1, proficient (+2) => bonus 4 => passive 14.
    assert_eq!(passive_score(skill_bonus(14, 1, true, false)), 14);
}

#[test]
fn xp_maps_to_level() {
    assert_eq!(level_for_xp(0), 1);
    assert_eq!(level_for_xp(299), 1);
    assert_eq!(level_for_xp(300), 2);
    assert_eq!(level_for_xp(6499), 4);
    assert_eq!(level_for_xp(6500), 5);
    assert_eq!(level_for_xp(355000), 20);
    assert_eq!(level_for_xp(999999), 20);
}

#[test]
fn bonuses_are_always_signed() {
    assert_eq!(format_bonus(3), "+3");
    assert_eq!(format_bonus(0), "+0");
    assert_eq!(format_bonus(-1), "-1");
}

#[test]
fn every_skill_has_a_unique_key() {
    let mut keys: Vec<&str> = SKILLS.iter().map(|(k, _, _)| *k).collect();
    keys.sort_unstable();
    let count = keys.len();
    keys.dedup();
    assert_eq!(keys.len(), count);
}

#[test]
fn modifiers_at_the_extremes() {
    assert_eq!(ability_modifier(0), -5);
    assert_eq!(ability_modifier(-1), -6);
    assert_eq!(ability_modifier(i64::MIN + 10), (i64::MIN + 10 - 10) / 2);
    assert_eq!(ability_modifier(i64::MAX), (i64::MAX - 10) / 2);
}

#[test]
fn proficiency_clamps_out_of_range_levels() {
    assert_eq!(proficiency_bonus(0), 2);
    assert_eq!(proficiency_bonus(-50), 2);
    assert_eq!(proficiency_bonus(25), 6);
    assert_eq!(proficiency_bonus(i64::MAX), 6);
}

#[test]
fn saves_add_proficiency_only_when_proficient() {
    assert_eq!(save_bonus(16, 9, true), 7);
    assert_eq!(save_bonus(16, 9, false), 3);
    assert_eq!(save_bonus(3, 1, false), -4);
}

#[test]
fn every_threshold_starts_its_level() {
    for (i, t) in XP_THRESHOLDS.iter().enumerate() {
        assert_eq!(level_for_xp(*t), i as i64 + 1);
        if i > 0 {
            assert_eq!(level_for_xp(*t - 1), i as i64);
        }
    }
    assert_eq!(level_for_xp(-5), 1);
    assert_eq!(level_for_xp(i64::MIN), 1);
    assert_eq!(level_for_xp(i64::MAX), 20);
}

#[test]
fn big_bonuses_format_in_full() {
    assert_eq!(format_bonus(1234567), "+1234567");
    assert_eq!(format_bonus(-40), "-40");
    assert_eq!(format_bonus(i64::MIN), "-9223372036854775808");
    assert_eq!(format_bonus(i64::MAX), "+9223372036854775807");
}

#[test]
fn ability_keys_round_trip() {
    for a in Ability::ALL {
        assert_eq!(Ability::from_key(a.key()), Some(a));
    }
    assert_eq!(Ability::from_key("STR"), None);
    assert_eq!(Ability::from_key(""), None);
    assert_eq!(Ability::Wis.label(), "Wisdom");
    assert_eq!(Ability::Cha.key(), "cha");
}

#[test]
fn skills_key_off_their_abilities() {
    assert_eq!(skill_ability("perception"), Some(Ability::Wis));
    assert_eq!(skill_ability("sleight_of_hand"), Some(Ability::Dex));
    assert_eq!(skill_ability("athletics"), Some(Ability::Str));
    assert_eq!(skill_ability("Athletics"), None);
    assert_eq!(SKILLS.len(), 18);
    assert_eq!(CONDITIONS.len(), 15);
}

#[test]
fn clamping_holds_values_to_a_range() {
    assert_eq!(clamp(-3, 1, 20), 1);
    assert_eq!(clamp(7, 1, 20), 7);
    assert_eq!(clamp(99, 1, 20), 20);
}

#[test]
fn clicking_a_filled_pip_clears_back_to_it() {
    assert_eq!(death_save_after_click(0, 1), 1);
    assert_eq!(death_save_after_click(2, 2), 1);
    assert_eq!(death_save_after_click(3, 1), 0);
    assert_eq!(death_save_after_click(1, 3), 3);
}
