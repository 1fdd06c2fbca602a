use sensor_profiles::store::{Player, Profile, Profiles};

fn make_profile(thresholds: [i32; 4]) -> Profile {
    Profile { thresholds }
}

fn make_profiles_single(
    name: &str,
    thresholds: [i32; 4],
    current: &str,
    default_: &str,
) -> Profiles {
    Profiles {
        profiles: vec![(name.to_string(), Profile { thresholds })],
        current_profile: current.to_string(),
        default_profile: default_.to_string(),
        players: Vec::new(),
        current_player: String::new(),
    }
}

#[test]
fn test_profile_debug() {
    let profile = make_profile([100, 200, 300, 400]);

    let debug_str = format!("{:?}", profile);
    assert!(debug_str.contains("100"));
    assert!(debug_str.contains("200"));
    assert!(debug_str.contains("300"));
    assert!(debug_str.contains("400"));
}

#[test]
fn test_profile_clone() {
    let original = make_profile([100, 200, 300, 400]);

    let cloned = original.clone();
    assert_eq!(original, cloned);
    assert_eq!(original.thresholds, cloned.thresholds);
}

#[test]
fn test_player_debug() {
    let player = Player {
        name: "Player1".to_string(),
        profile: "Profile1".to_string(),
    };

    let debug_str = format!("{:?}", player);
    assert!(debug_str.contains("Player1"));
    assert!(debug_str.contains("Profile1"));
}

#[test]
fn test_player_clone() {
    let original = Player {
        name: "Player1".to_string(),
        profile: "Profile1".to_string(),
    };

    let cloned = original.clone();
    assert_eq!(original, cloned);
    assert_eq!(original.name, cloned.name);
    assert_eq!(original.profile, cloned.profile);
}

#[test]
fn test_profiles_equality() {
    let profiles1 = make_profiles_single("Profile1", [10, 20, 30, 40], "Profile1", "");
    let profiles2 = make_profiles_single("Profile1", [10, 20, 30, 40], "Profile1", "");
    let profiles3 = make_profiles_single("Profile2", [10, 20, 30, 40], "Profile1", "");

    assert_eq!(profiles1, profiles2);
    assert_ne!(profiles1, profiles3);
}

#[test]
fn test_profiles_debug() {
    let profiles = make_profiles_single("Profile1", [10, 20, 30, 40], "Profile1", "");

    let debug_str = format!("{:?}", profiles);
    assert!(debug_str.contains("Profile1"));
    assert!(debug_str.contains("10"));
    assert!(debug_str.contains("20"));
    assert!(debug_str.contains("30"));
    assert!(debug_str.contains("40"));
}

#[test]
fn test_profiles_clone() {
    let original = make_profiles_single("Profile1", [10, 20, 30, 40], "Profile1", "");

    let cloned = original.clone();
    assert_eq!(original, cloned);
    assert_eq!(original.profiles.len(), cloned.profiles.len());
    assert_eq!(original.current_profile, cloned.current_profile);
}

#[test]
fn test_store_lookup_and_update() {
    let mut profiles = make_profiles_single("Profile1", [10, 20, 30, 40], "Profile1", "");
    let name = "Profile1".to_string();
    assert!(profiles.has_profile(&name));
    assert_eq!(profiles.profile_thresholds(&name), Some([10, 20, 30, 40]));

    profiles.update_profile_threshold(&name, 2, 35);
    assert_eq!(profiles.profile_thresholds(&name), Some([10, 20, 35, 40]));

    let other = "Profile2".to_string();
    assert!(!profiles.has_profile(&other));
    profiles.add_profile(&other, [1, 2, 3, 4]);
    assert!(profiles.has_profile(&other));
    profiles.remove_profile(&other);
    assert!(!profiles.has_profile(&other));
}

#[test]
fn test_store_players() {
    let mut profiles = make_profiles_single("Profile1", [10, 20, 30, 40], "Profile1", "");
    let player = "Player1".to_string();
    let prof = "Profile1".to_string();
    assert!(!profiles.has_player(&player));
    profiles.add_player(&player, &prof);
    assert!(profiles.has_player(&player));
    assert_eq!(profiles.player_profile(&player), Some("Profile1".to_string()));

    let prof2 = "Profile2".to_string();
    profiles.set_player_profile(&player, &prof2);
    assert_eq!(profiles.player_profile(&player), Some("Profile2".to_string()));
}
