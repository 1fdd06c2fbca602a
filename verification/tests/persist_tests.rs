use sensor_profiles::persist::{decode_store, encode_store};
use sensor_profiles::store::{Player, Profile, Profiles};

fn two_profile_store() -> Profiles {
    Profiles {
        profiles: vec![
            ("Profile1".to_string(), Profile { thresholds: [10, 20, 30, 40] }),
            ("Profile2".to_string(), Profile { thresholds: [50, 60, 70, 80] }),
        ],
        current_profile: "Profile1".to_string(),
        default_profile: String::new(),
        players: vec![
            (
                "Player1".to_string(),
                Player { name: "Player1".to_string(), profile: "Profile1".to_string() },
            ),
            (
                "Player2".to_string(),
                Player { name: "Player2".to_string(), profile: "Profile2".to_string() },
            ),
        ],
        current_player: "Player1".to_string(),
    }
}

#[test]
fn test_profiles_serialization() {
    let profiles = Profiles {
        profiles: vec![("Profile1".to_string(), Profile { thresholds: [10, 20, 30, 40] })],
        current_profile: "Profile1".to_string(),
        default_profile: String::new(),
        players: Vec::new(),
        current_player: String::new(),
    };

    let json = encode_store(&profiles);
    let deserialized = decode_store(&json).expect("read back");

    assert_eq!(profiles, deserialized);
    assert_eq!(deserialized.profiles.len(), 1);
    assert_eq!(deserialized.current_profile, "Profile1");
}

#[test]
fn test_profiles_with_players() {
    let profiles = two_profile_store();

    let json = encode_store(&profiles);
    let deserialized = decode_store(&json).expect("read back");

    assert_eq!(profiles, deserialized);
    assert_eq!(deserialized.profiles.len(), 2);
    assert_eq!(deserialized.players.len(), 2);
    assert_eq!(deserialized.current_profile, "Profile1");
    assert_eq!(deserialized.current_player, "Player1");
}

#[test]
fn test_encode_shape_is_json() {
    let profiles = Profiles {
        profiles: vec![("A".to_string(), Profile { thresholds: [1, -2, 3, -4] })],
        current_profile: "A".to_string(),
        default_profile: String::new(),
        players: Vec::new(),
        current_player: String::new(),
    };
    let json = encode_store(&profiles);
    assert_eq!(
        json,
        "{\"profiles\":{\"A\":{\"thresholds\":[1,-2,3,-4]}},\"current_profile\":\"A\",\
         \"default_profile\":\"\",\"players\":{},\"current_player\":\"\"}"
    );
}

#[test]
fn test_roundtrip_with_escapes_and_extremes() {
    let odd_name = "a\"b\\c\nd".to_string();
    let profiles = Profiles {
        profiles: vec![(
            odd_name.clone(),
            Profile { thresholds: [i32::MIN, i32::MAX, 0, -1] },
        )],
        current_profile: odd_name.clone(),
        default_profile: odd_name.clone(),
        players: vec![(
            odd_name.clone(),
            Player { name: odd_name.clone(), profile: odd_name.clone() },
        )],
        current_player: odd_name.clone(),
    };
    let json = encode_store(&profiles);
    let deserialized = decode_store(&json).expect("read back");
    assert_eq!(profiles, deserialized);
}

#[test]
fn test_unicode_characters() {
    let name = "Spieler \u{3b1}\u{1f3ae}".to_string();
    let profiles = Profiles {
        profiles: vec![(name.clone(), Profile { thresholds: [100, 200, 300, 400] })],
        current_profile: name.clone(),
        default_profile: String::new(),
        players: Vec::new(),
        current_player: String::new(),
    };
    let json = encode_store(&profiles);
    let deserialized = decode_store(&json).expect("read back");
    assert_eq!(profiles, deserialized);
    assert_eq!(deserialized.profiles[0].1.thresholds, [100, 200, 300, 400]);
}

#[test]
fn test_threshold_overflow() {
    let profiles = Profiles {
        profiles: vec![(
            "A".to_string(),
            Profile { thresholds: [i32::MAX, i32::MAX, i32::MAX, i32::MAX] },
        )],
        current_profile: "A".to_string(),
        default_profile: String::new(),
        players: Vec::new(),
        current_player: String::new(),
    };
    let json = encode_store(&profiles);
    let deserialized = decode_store(&json).expect("read back");
    assert_eq!(
        deserialized.profiles[0].1.thresholds,
        [i32::MAX, i32::MAX, i32::MAX, i32::MAX]
    );
    assert_eq!(profiles, deserialized);
}

#[test]
fn test_empty_strings() {
    let profiles = Profiles {
        profiles: vec![("".to_string(), Profile { thresholds: [0, 0, 0, 0] })],
        current_profile: String::new(),
        default_profile: String::new(),
        players: Vec::new(),
        current_player: String::new(),
    };
    let json = encode_store(&profiles);
    let deserialized = decode_store(&json).expect("read back");
    assert_eq!(deserialized.profiles[0].1.thresholds, [0, 0, 0, 0]);
    assert_eq!(profiles, deserialized);
}

#[test]
fn test_decode_refuses_junk() {
    assert!(decode_store("").is_none());
    assert!(decode_store("not json").is_none());
    assert!(decode_store("{\"profiles\":{}").is_none());
    assert!(decode_store("{\"profiles\":{},\"current_profile\":\"\",\"default_profile\":\"\",\"players\":{},\"current_player\":\"\"}x").is_none());
}

#[test]
fn test_decode_refuses_duplicate_names() {
    let doc = "{\"profiles\":{\"A\":{\"thresholds\":[1,2,3,4]},\"A\":{\"thresholds\":[5,6,7,8]}},\
               \"current_profile\":\"A\",\"default_profile\":\"\",\"players\":{},\"current_player\":\"\"}";
    assert!(decode_store(doc).is_none());
}
