use dnd_dashboard::server::characters::{
    apply_hp_delta, death_save_counts, new_character, new_item, sanitize_character_edit,
    toggled_json_array, CharacterEdit,
};
use dnd_dashboard::server::FormError;

#[test]
fn healing_caps_at_max() {
    assert_eq!(apply_hp_delta(5, 0, 10, 100), (10, 0));
}

#[test]
fn damage_consumes_temp_hp_first() {
    // 5 damage against 3 temp: temp gone, 2 carries through to real HP.
    assert_eq!(apply_hp_delta(10, 3, 10, -5), (8, 0));
}

#[test]
fn temp_hp_can_fully_absorb() {
    assert_eq!(apply_hp_delta(10, 8, 10, -5), (10, 3));
}

#[test]
fn hp_floors_at_zero() {
    assert_eq!(apply_hp_delta(3, 0, 10, -99), (0, 0));
}

#[test]
fn healing_does_not_add_temp_hp() {
    assert_eq!(apply_hp_delta(4, 2, 10, 3), (7, 2));
}

#[test]
fn toggling_adds_then_removes() {
    let once = toggled_json_array("[]", "stealth");
    assert_eq!(once, r#"["stealth"]"#);
    assert_eq!(toggled_json_array(&once, "stealth"), "[]");
}

#[test]
fn toggling_survives_corrupt_json() {
    assert_eq!(toggled_json_array("garbage", "arcana"), r#"["arcana"]"#);
}

#[test]
fn toggling_removes_from_the_middle_and_appends_at_the_end() {
    assert_eq!(toggled_json_array(r#"["a","b","c"]"#, "b"), r#"["a","c"]"#);
    assert_eq!(toggled_json_array(r#"["a","c"]"#, "b"), r#"["a","c","b"]"#);
    assert_eq!(toggled_json_array(r#"["q\"uote"]"#, "x"), r#"["q\"uote","x"]"#);
}

#[test]
fn zero_delta_changes_nothing() {
    assert_eq!(apply_hp_delta(6, 4, 10, 0), (6, 4));
    assert_eq!(apply_hp_delta(12, 0, 10, 0), (10, 0));
}

#[test]
fn exact_temp_hp_is_used_up() {
    assert_eq!(apply_hp_delta(9, 5, 10, -5), (9, 0));
    assert_eq!(apply_hp_delta(9, 5, 10, -6), (8, 0));
}

fn edit() -> CharacterEdit {
    CharacterEdit {
        id: "c1".into(),
        name: "  Pip  ".into(),
        player_name: " Sam ".into(),
        class: "Rogue ".into(),
        subclass: " Thief".into(),
        race: "Halfling".into(),
        background: "\tUrchin\n".into(),
        alignment: "CG".into(),
        level: 25,
        xp: -40,
        str_score: 0,
        dex_score: 18,
        con_score: 31,
        int_score: 12,
        wis_score: -3,
        cha_score: 30,
        hp_max: 0,
        hp_current: 7,
        hp_temp: -1,
        armor_class: -2,
        speed: -5,
        hit_dice: " 5d8 ".into(),
        notes: "  keep my spaces  ".into(),
    }
}

#[test]
fn edited_sheets_are_held_to_their_ranges() {
    let out = sanitize_character_edit(edit()).unwrap();
    assert_eq!(out.id, "c1");
    assert_eq!(out.name, "Pip");
    assert_eq!(out.player_name, "Sam");
    assert_eq!(out.class, "Rogue");
    assert_eq!(out.subclass, "Thief");
    assert_eq!(out.background, "Urchin");
    assert_eq!(out.level, 20);
    assert_eq!(out.xp, 0);
    assert_eq!(out.str_score, 1);
    assert_eq!(out.dex_score, 18);
    assert_eq!(out.con_score, 30);
    assert_eq!(out.wis_score, 1);
    assert_eq!(out.cha_score, 30);
    assert_eq!(out.hp_max, 1);
    assert_eq!(out.hp_current, 1);
    assert_eq!(out.hp_temp, 0);
    assert_eq!(out.armor_class, 0);
    assert_eq!(out.speed, 0);
    assert_eq!(out.hit_dice, "5d8");
    assert_eq!(out.notes, "  keep my spaces  ");
}

#[test]
fn sheets_need_a_name() {
    let mut e = edit();
    e.name = " \u{2003} ".into();
    let err = sanitize_character_edit(e).unwrap_err();
    assert_eq!(err, FormError::CharacterNameMissing);
    assert_eq!(err.message(), "Character needs a name");
}

#[test]
fn new_characters_are_trimmed_and_levelled() {
    let c = new_character(" Mira ", " Wizard", "Elf ", 0).unwrap();
    assert_eq!((c.name.as_str(), c.class.as_str(), c.race.as_str(), c.level), ("Mira", "Wizard", "Elf", 1));
    assert_eq!(new_character("x", "", "", 99).unwrap().level, 20);
    assert_eq!(new_character("   ", "a", "b", 3).unwrap_err(), FormError::CharacterNameMissing);
}

#[test]
fn death_saves_are_held_to_three() {
    assert_eq!(death_save_counts(-1, 5), (0, 3));
    assert_eq!(death_save_counts(2, 1), (2, 1));
}

#[test]
fn items_need_a_name_and_a_quantity() {
    let item = new_item(" Rope ", 0, " 50 ft ").unwrap();
    assert_eq!((item.name.as_str(), item.quantity, item.description.as_str()), ("Rope", 1, "50 ft"));
    assert_eq!(new_item("", 3, "x").unwrap_err(), FormError::ItemNameMissing);
    assert_eq!(FormError::ItemNameMissing.message(), "Item needs a name");
}
