use dnd_dashboard::auth::{current_actor, Actor};

#[test]
fn dm_edits_anything() {
    assert!(Actor::Dm.can_edit(None));
    assert!(Actor::Dm.can_edit(Some("someone")));
    assert!(Actor::Dm.sees_secrets());
}

#[test]
fn player_edits_only_their_own() {
    let player = Actor::Player {
        user_id: "alex".into(),
    };
    assert!(player.can_edit(Some("alex")));
    assert!(!player.can_edit(Some("sam")));
    assert!(!player.can_edit(None));
    assert!(!player.sees_secrets());
}

#[test]
fn owner_ids_follow_the_actor() {
    let player = Actor::Player {
        user_id: "alex".into(),
    };
    assert_eq!(player.owner_id(), Some("alex"));
    assert_eq!(Actor::Dm.owner_id(), None);
    assert!(Actor::Dm.is_dm());
    assert!(!player.is_dm());
}

#[test]
fn the_current_actor_is_the_dm() {
    assert_eq!(current_actor(), Actor::Dm);
}

#[test]
fn player_ids_compare_exactly() {
    let player = Actor::Player {
        user_id: "alex".into(),
    };
    assert!(!player.can_edit(Some("alex ")));
    assert!(!player.can_edit(Some("Alex")));
    assert!(!player.can_edit(Some("")));
}
