use dnd_dashboard::server::world::{blank_to_none, clamp_attitude, new_faction, new_location, new_npc};
use dnd_dashboard::server::FormError;

#[test]
fn blank_selects_become_null() {
    assert_eq!(blank_to_none(String::new()), None);
    assert_eq!(blank_to_none("   ".into()), None);
    assert_eq!(blank_to_none(" abc ".into()), Some("abc".to_string()));
}

#[test]
fn unicode_blanks_become_null_too() {
    assert_eq!(blank_to_none("\u{a0}\u{2028}\t".into()), None);
    assert_eq!(blank_to_none("\u{200b}".into()), Some("\u{200b}".to_string()));
}

#[test]
fn attitudes_are_held_to_a_hundred() {
    assert_eq!(clamp_attitude(250), 100);
    assert_eq!(clamp_attitude(-101), -100);
    assert_eq!(clamp_attitude(-7), -7);
}

#[test]
fn places_and_factions_need_names() {
    let l = new_location(" Tavern ", " inn ", "  warm ").unwrap();
    assert_eq!((l.name.as_str(), l.kind.as_str(), l.description.as_str()), ("Tavern", "inn", "warm"));
    assert_eq!(new_location("", "", "").unwrap_err(), FormError::LocationNameMissing);
    let f = new_faction("Guild", " thieves ", -300).unwrap();
    assert_eq!((f.name.as_str(), f.description.as_str(), f.attitude), ("Guild", "thieves", -100));
    assert_eq!(new_faction(" ", "", 0).unwrap_err(), FormError::FactionNameMissing);
    assert_eq!(FormError::FactionNameMissing.message(), "Faction needs a name");
}

#[test]
fn npcs_are_validated() {
    let n = new_npc(
        " Bree ", " Human", " innkeeper ", "  ".into(), " f1 ".into(), 70, -3, 0, " 1/8 ",
        " kind ", " owes money ",
    )
    .unwrap();
    assert_eq!(n.name, "Bree");
    assert_eq!(n.race, "Human");
    assert_eq!(n.role, "innkeeper");
    assert_eq!(n.location_id, None);
    assert_eq!(n.faction_id, Some("f1".to_string()));
    assert_eq!((n.attitude, n.armor_class, n.hp_max), (70, 0, 1));
    assert_eq!(n.challenge_rating, "1/8");
    assert_eq!(n.description, "kind");
    assert_eq!(n.secrets, "owes money");
    assert_eq!(
        new_npc("", "", "", String::new(), String::new(), 0, 0, 0, "", "", "").unwrap_err(),
        FormError::NpcNameMissing
    );
}
