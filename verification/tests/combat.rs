use dnd_dashboard::models::Character;
use dnd_dashboard::server::combat::{
    advance_turn, members_to_add, new_combatant, rewind_turn, roll_initiative,
};
use dnd_dashboard::server::{required_text, FormError};

#[test]
fn turns_cycle_and_increment_the_round() {
    // 3 combatants: 0 -> 1 -> 2 -> back to 0 on round 2.
    assert_eq!(advance_turn(0, 1, 3), (1, 1));
    assert_eq!(advance_turn(1, 1, 3), (2, 1));
    assert_eq!(advance_turn(2, 1, 3), (0, 2));
}

#[test]
fn advancing_an_empty_encounter_is_a_no_op() {
    assert_eq!(advance_turn(0, 1, 0), (0, 1));
}

#[test]
fn rewinding_unwinds_into_the_previous_round() {
    assert_eq!(rewind_turn(1, 2, 3), (0, 2));
    assert_eq!(rewind_turn(0, 2, 3), (2, 1));
}

#[test]
fn rewinding_stops_at_the_start_of_the_fight() {
    assert_eq!(rewind_turn(0, 1, 3), (0, 1));
}

#[test]
fn a_single_combatant_advances_the_round_every_turn() {
    assert_eq!(advance_turn(0, 1, 1), (0, 2));
    assert_eq!(advance_turn(0, 2, 1), (0, 3));
}

#[test]
fn advancing_then_rewinding_returns_to_the_same_turn() {
    for n in 1..5i64 {
        for t in 0..n {
            for r in 1..4i64 {
                let (t2, r2) = advance_turn(t, r, n);
                assert_eq!(rewind_turn(t2, r2, n), (t, r));
            }
        }
    }
}

#[test]
fn rewinding_an_empty_encounter_resets_the_pointer() {
    assert_eq!(rewind_turn(4, 3, 0), (0, 3));
}

#[test]
fn initiative_is_a_d20_plus_dexterity() {
    for _ in 0..50 {
        let v = roll_initiative(14).unwrap();
        assert!((3..=22).contains(&v));
        let low = roll_initiative(3).unwrap();
        assert!((-3..=16).contains(&low));
    }
}

#[test]
fn combatants_are_validated() {
    let c = new_combatant("  Goblin ", 14, 0, -1, 40).unwrap();
    assert_eq!(c.name, "Goblin");
    assert_eq!((c.initiative, c.hp_max, c.armor_class, c.dex_score), (14, 1, 0, 30));
    assert_eq!(new_combatant("", 1, 1, 1, 1).unwrap_err(), FormError::CombatantNameMissing);
    assert_eq!(FormError::CombatantNameMissing.message(), "Combatant needs a name");
}

#[test]
fn encounter_names_are_required() {
    assert_eq!(required_text("  Ambush ", FormError::EncounterNameMissing).unwrap(), "Ambush");
    assert_eq!(
        required_text("\n", FormError::EncounterNameMissing).unwrap_err(),
        FormError::EncounterNameMissing
    );
}

fn character(id: &str) -> Character {
    Character {
        id: id.to_string(),
        party_id: None,
        owner_id: None,
        name: id.to_uppercase(),
        player_name: String::new(),
        class: String::new(),
        subclass: String::new(),
        race: String::new(),
        background: String::new(),
        alignment: String::new(),
        level: 1,
        xp: 0,
        str_score: 10,
        dex_score: 10,
        con_score: 10,
        int_score: 10,
        wis_score: 10,
        cha_score: 10,
        hp_max: 8,
        hp_current: 8,
        hp_temp: 0,
        armor_class: 12,
        speed: 30,
        hit_dice: String::new(),
        death_save_successes: 0,
        death_save_failures: 0,
        inspiration: 0,
        skill_proficiencies: "[]".into(),
        skill_expertise: "[]".into(),
        save_proficiencies: "[]".into(),
        notes: String::new(),
        is_active: 1,
        created_at: String::new(),
        updated_at: String::new(),
    }
}

#[test]
fn only_absent_party_members_are_added() {
    let party = vec![character("a"), character("b"), character("c")];
    let already = vec!["b".to_string(), "zz".to_string()];
    let ids: Vec<String> = members_to_add(party, &already).into_iter().map(|c| c.id).collect();
    assert_eq!(ids, vec!["a".to_string(), "c".to_string()]);
    let none = members_to_add(vec![character("b")], &already);
    assert!(none.is_empty());
}
