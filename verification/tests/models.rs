use dnd_dashboard::models::{
    active_quests, attitude_label, party_summary, sort_initiative, Character, Combatant, Quest,
};
use dnd_dashboard::rules::Ability;

fn combatant(name: &str, initiative: i64, dex: i64) -> Combatant {
    Combatant {
        id: name.to_string(),
        encounter_id: "e".into(),
        character_id: None,
        name: name.to_string(),
        initiative,
        dex_score: dex,
        hp_max: 10,
        hp_current: 10,
        hp_temp: 0,
        armor_class: 10,
        conditions: "[]".into(),
        concentrating: 0,
        is_pc: 0,
        notes: String::new(),
    }
}

fn character(name: &str, level: i64, hp_current: i64) -> Character {
    Character {
        id: format!("id-{name}"),
        party_id: None,
        owner_id: None,
        name: name.to_string(),
        player_name: String::new(),
        class: "Rogue".into(),
        subclass: String::new(),
        race: "Halfling".into(),
        background: String::new(),
        alignment: String::new(),
        level,
        xp: 0,
        str_score: 10,
        dex_score: 18,
        con_score: 12,
        int_score: 13,
        wis_score: 14,
        cha_score: 8,
        hp_max: 30,
        hp_current,
        hp_temp: 5,
        armor_class: 15,
        speed: 25,
        hit_dice: "5d8".into(),
        death_save_successes: 0,
        death_save_failures: 0,
        inspiration: 0,
        skill_proficiencies: r#"["perception","stealth"]"#.into(),
        skill_expertise: r#"["stealth"]"#.into(),
        save_proficiencies: r#"["dex","int"]"#.into(),
        notes: String::new(),
        is_active: 1,
        created_at: String::new(),
        updated_at: String::new(),
    }
}

fn quest(title: &str, status: &str) -> Quest {
    Quest {
        id: title.to_string(),
        party_id: None,
        title: title.to_string(),
        status: status.to_string(),
        description: String::new(),
        reward: String::new(),
        giver_npc_id: None,
        location_id: None,
        created_at: String::new(),
        completed_at: None,
    }
}

#[test]
fn initiative_sorts_high_to_low_with_dex_tiebreak() {
    let mut c = vec![
        combatant("Goblin", 12, 14),
        combatant("Rogue", 19, 18),
        combatant("Bear", 12, 16),
    ];
    sort_initiative(&mut c);
    let order: Vec<&str> = c.iter().map(|x| x.name.as_str()).collect();
    assert_eq!(order, vec!["Rogue", "Bear", "Goblin"]);
}

#[test]
fn identical_initiative_and_dex_sorts_by_name() {
    let mut c = vec![combatant("Zara", 10, 10), combatant("Alix", 10, 10)];
    sort_initiative(&mut c);
    assert_eq!(c[0].name, "Alix");
}

#[test]
fn attitude_buckets() {
    assert_eq!(attitude_label(100), "Devoted");
    assert_eq!(attitude_label(30), "Friendly");
    assert_eq!(attitude_label(0), "Neutral");
    assert_eq!(attitude_label(-30), "Unfriendly");
    assert_eq!(attitude_label(-80), "Hostile");
}

#[test]
fn corrupt_json_columns_degrade_to_empty() {
    let mut c = combatant("X", 0, 10);
    c.conditions = "not json".into();
    assert!(c.condition_list().is_empty());
}

#[test]
fn attitude_bucket_edges() {
    assert_eq!(attitude_label(60), "Devoted");
    assert_eq!(attitude_label(59), "Friendly");
    assert_eq!(attitude_label(25), "Friendly");
    assert_eq!(attitude_label(24), "Neutral");
    assert_eq!(attitude_label(-24), "Neutral");
    assert_eq!(attitude_label(-25), "Unfriendly");
    assert_eq!(attitude_label(-59), "Unfriendly");
    assert_eq!(attitude_label(-60), "Hostile");
}

#[test]
fn ties_on_every_key_keep_their_order() {
    let mut first = combatant("Wolf", 15, 12);
    first.id = "wolf-1".into();
    let mut second = combatant("Wolf", 15, 12);
    second.id = "wolf-2".into();
    let mut c = vec![combatant("Ogre", 3, 8), first, combatant("Bard", 15, 12), second];
    sort_initiative(&mut c);
    let ids: Vec<&str> = c.iter().map(|x| x.id.as_str()).collect();
    assert_eq!(ids, vec!["Bard", "wolf-1", "wolf-2", "Ogre"]);
}

#[test]
fn names_compare_by_character() {
    let mut c = vec![
        combatant("b", 1, 1),
        combatant("ab", 1, 1),
        combatant("a", 1, 1),
        combatant("Éowyn", 1, 1),
        combatant("Z", 1, 1),
    ];
    sort_initiative(&mut c);
    let order: Vec<&str> = c.iter().map(|x| x.name.as_str()).collect();
    assert_eq!(order, vec!["Z", "a", "ab", "b", "Éowyn"]);
}

#[test]
fn empty_and_single_orders_are_unchanged() {
    let mut none: Vec<Combatant> = Vec::new();
    sort_initiative(&mut none);
    assert!(none.is_empty());
    let mut one = vec![combatant("Solo", -4, 3)];
    sort_initiative(&mut one);
    assert_eq!(one[0].name, "Solo");
}

#[test]
fn conditions_are_read_from_the_json_column() {
    let mut c = combatant("X", 0, 10);
    c.conditions = r#"["Prone","Poisoned"]"#.into();
    assert_eq!(c.condition_list(), vec!["Prone".to_string(), "Poisoned".to_string()]);
    assert!(c.has_condition("Prone"));
    assert!(!c.has_condition("prone"));
    assert!(!c.has_condition("Stunned"));
    c.hp_current = 0;
    assert!(c.is_down());
}

#[test]
fn sheet_numbers_follow_the_rules() {
    let c = character("Pip", 5, 20);
    assert_eq!(c.ability_score(Ability::Dex), 18);
    assert_eq!(c.ability_modifier(Ability::Cha), -1);
    assert_eq!(c.proficiency_bonus(), 3);
    assert_eq!(c.initiative_bonus(), 4);
    assert!(c.is_skill_proficient("stealth"));
    assert!(c.has_expertise("stealth"));
    assert!(!c.has_expertise("perception"));
    assert_eq!(c.skill_bonus("stealth"), Some(10));
    assert_eq!(c.skill_bonus("arcana"), Some(1));
    assert_eq!(c.skill_bonus("juggling"), None);
    assert_eq!(c.passive_perception(), 15);
    assert!(c.is_save_proficient(Ability::Dex));
    assert!(!c.is_save_proficient(Ability::Wis));
    assert_eq!(c.save_bonus(Ability::Dex), 7);
    assert_eq!(c.save_bonus(Ability::Wis), 2);
    assert_eq!(c.effective_hp(), 25);
    assert!(!c.is_unconscious());
    assert_eq!(c.skill_proficiency_keys(), vec!["perception".to_string(), "stealth".to_string()]);
    assert_eq!(c.skill_expertise_keys(), vec!["stealth".to_string()]);
    assert_eq!(c.save_proficiency_keys(), vec!["dex".to_string(), "int".to_string()]);
}

#[test]
fn corrupt_sheet_columns_mean_untrained() {
    let mut c = character("Pip", 5, 0);
    c.skill_proficiencies = "{oops".into();
    assert!(!c.is_skill_proficient("stealth"));
    assert!(c.skill_proficiency_keys().is_empty());
    assert!(c.is_unconscious());
}

#[test]
fn party_summary_counts_levels_and_the_fallen() {
    let party = vec![character("A", 3, 10), character("B", 4, 0), character("C", 6, -2)];
    assert_eq!(party_summary(&party), (3, 4, 2));
    let odd = vec![character("A", 1, 1), character("B", 2, 1)];
    assert_eq!(party_summary(&odd), (2, 1, 0));
    let negative = vec![character("A", -3, 1), character("B", 0, 1)];
    assert_eq!(party_summary(&negative), (2, -1, 0));
}

#[test]
fn overview_board_lists_the_first_active_quests() {
    let quests = vec![
        quest("a", "active"),
        quest("b", "rumor"),
        quest("c", "active"),
        quest("d", "active"),
    ];
    let shown: Vec<String> = active_quests(quests.clone(), 2).into_iter().map(|q| q.title).collect();
    assert_eq!(shown, vec!["a".to_string(), "c".to_string()]);
    let all: Vec<String> = active_quests(quests, 6).into_iter().map(|q| q.title).collect();
    assert_eq!(all, vec!["a".to_string(), "c".to_string(), "d".to_string()]);
}
