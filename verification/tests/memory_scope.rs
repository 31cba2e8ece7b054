use twitch_1337::memory::scope::{
    classify_role, is_write_allowed, seed_confidence, trust_level_for, Badge, Scope, TrustLevel,
    UserRole,
};

fn badges(names: &[&str]) -> Vec<Badge> {
    names
        .iter()
        .map(|b| Badge { name: (*b).to_string(), version: "1".to_string() })
        .collect()
}

fn user(id: &str) -> Scope {
    Scope::User { subject_id: id.to_string() }
}

fn pref(id: &str) -> Scope {
    Scope::Pref { subject_id: id.to_string() }
}

#[test]
fn scope_tags_and_subjects() {
    assert_eq!(user("12345").tag(), "user");
    assert_eq!(user("12345").subject_id(), Some("12345"));
    assert_eq!(pref("9").tag(), "pref");
    assert_eq!(pref("9").subject_id(), Some("9"));
    assert_eq!(Scope::Lore.tag(), "lore");
    assert_eq!(Scope::Lore.subject_id(), None);
}

#[test]
fn user_role_broadcaster_outranks_moderator() {
    assert!(UserRole::Broadcaster > UserRole::Moderator);
    assert!(UserRole::Moderator > UserRole::Regular);
}

#[test]
fn classify_role_regular_default() {
    assert_eq!(classify_role(&badges(&[])), UserRole::Regular);
}

#[test]
fn classify_role_moderator_badge() {
    assert_eq!(classify_role(&badges(&["moderator"])), UserRole::Moderator);
}

#[test]
fn classify_role_broadcaster_beats_moderator() {
    assert_eq!(
        classify_role(&badges(&["moderator", "broadcaster"])),
        UserRole::Broadcaster
    );
}

#[test]
fn permission_matrix_table() {
    let uid_a = "1".to_string();
    let uid_b = "2".to_string();

    // Regular
    assert!(is_write_allowed(UserRole::Regular, &user(&uid_a), &uid_a));
    assert!(!is_write_allowed(UserRole::Regular, &user(&uid_b), &uid_a));
    assert!(is_write_allowed(UserRole::Regular, &pref(&uid_a), &uid_a));
    assert!(!is_write_allowed(UserRole::Regular, &pref(&uid_b), &uid_a));
    assert!(!is_write_allowed(UserRole::Regular, &Scope::Lore, &uid_a));

    // Moderator
    assert!(is_write_allowed(UserRole::Moderator, &user(&uid_b), &uid_a));
    assert!(is_write_allowed(UserRole::Moderator, &Scope::Lore, &uid_a));
    // Pref stays self-only even for mod:
    assert!(is_write_allowed(UserRole::Moderator, &pref(&uid_a), &uid_a));
    assert!(!is_write_allowed(UserRole::Moderator, &pref(&uid_b), &uid_a));

    // Broadcaster: same as mod
    assert!(is_write_allowed(UserRole::Broadcaster, &user(&uid_b), &uid_a));
    assert!(is_write_allowed(UserRole::Broadcaster, &Scope::Lore, &uid_a));
    assert!(is_write_allowed(UserRole::Broadcaster, &pref(&uid_a), &uid_a));
    assert!(!is_write_allowed(UserRole::Broadcaster, &pref(&uid_b), &uid_a));
}

#[test]
fn trust_level_regular_self_is_self_claim() {
    assert_eq!(trust_level_for(UserRole::Regular, &user("1"), "1"), TrustLevel::SelfClaim);
}

#[test]
fn trust_level_moderator_other_user_is_mod_broadcaster() {
    assert_eq!(
        trust_level_for(UserRole::Moderator, &user("2"), "1"),
        TrustLevel::ModBroadcaster
    );
}

#[test]
fn trust_level_moderator_self_user_is_self_claim() {
    assert_eq!(trust_level_for(UserRole::Moderator, &user("1"), "1"), TrustLevel::SelfClaim);
}

#[test]
fn trust_level_moderator_lore_is_mod_broadcaster() {
    assert_eq!(
        trust_level_for(UserRole::Moderator, &Scope::Lore, "1"),
        TrustLevel::ModBroadcaster
    );
}

#[test]
fn trust_level_broadcaster_self_pref_is_self_claim() {
    assert_eq!(trust_level_for(UserRole::Broadcaster, &pref("1"), "1"), TrustLevel::SelfClaim);
}

#[test]
fn trust_level_regular_lore_is_self_claim() {
    assert_eq!(trust_level_for(UserRole::Regular, &Scope::Lore, "1"), TrustLevel::SelfClaim);
}

#[test]
fn seed_confidence_values() {
    assert_eq!(seed_confidence(TrustLevel::SelfClaim), 70);
    assert_eq!(seed_confidence(TrustLevel::ModBroadcaster), 90);
    assert_eq!(seed_confidence(TrustLevel::ThirdParty), 30);
}
