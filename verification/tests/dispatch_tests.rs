use sensor_profiles::command::{Command, Response};
use sensor_profiles::device::{DummySerialPort, MockSerialPort};
use sensor_profiles::dispatch::{connection_response, ensure_default_profile, handle_command,
    presence_response, save_failed_response, telemetry_tick, CmdOutcome};
use sensor_profiles::protocol::get_current_thresholds_from_device;
use sensor_profiles::store::{Player, Profile, Profiles};

fn make_profiles_single(name: &str, thresholds: [i32; 4]) -> Profiles {
    Profiles {
        profiles: vec![(name.to_string(), Profile { thresholds })],
        current_profile: name.to_string(),
        default_profile: name.to_string(),
        players: Vec::new(),
        current_player: String::new(),
    }
}

fn make_profiles_two(
    name1: &str,
    thresholds1: [i32; 4],
    name2: &str,
    thresholds2: [i32; 4],
    current: &str,
    default_: &str,
) -> Profiles {
    Profiles {
        profiles: vec![
            (name1.to_string(), Profile { thresholds: thresholds1 }),
            (name2.to_string(), Profile { thresholds: thresholds2 }),
        ],
        current_profile: current.to_string(),
        default_profile: default_.to_string(),
        players: Vec::new(),
        current_player: String::new(),
    }
}

fn make_profiles_empty() -> Profiles {
    Profiles {
        profiles: Vec::new(),
        current_profile: String::new(),
        default_profile: String::new(),
        players: Vec::new(),
        current_player: String::new(),
    }
}

fn with_current_player(mut profiles: Profiles, name: &str, player_profile: &str) -> Profiles {
    profiles.players.push((
        name.to_string(),
        Player {
            name: name.to_string(),
            profile: player_profile.to_string(),
        },
    ));
    profiles.current_player = name.to_string();
    profiles
}

fn response_of(outcome: CmdOutcome) -> Response {
    match outcome {
        CmdOutcome::Done(r) => r,
        CmdOutcome::NeedsSave(r) => r,
    }
}

#[test]
fn test_command_debug() {
    let command = Command::UpdateThreshold {
        profile_name: "Profile1".to_string(),
        threshold_index: 0,
        value: 100,
    };

    let debug_str = format!("{:?}", command);
    assert!(debug_str.contains("Profile1"));
    assert!(debug_str.contains("0"));
    assert!(debug_str.contains("100"));
}

#[test]
fn test_change_player_command_debug() {
    let command = Command::ChangePlayer {
        name: "Player1".to_string(),
    };

    let debug_str = format!("{:?}", command);
    assert!(debug_str.contains("Player1"));
}

#[test]
fn test_response_debug() {
    let response = Response {
        success: true,
        message: "Success".to_string(),
        data: Some(make_profiles_single("Profile1", [10, 20, 30, 40])),
        sensor_values: None,
        response_type: Some("command_response".to_string()),
    };

    let debug_str = format!("{:?}", response);
    assert!(debug_str.contains("Success"));
    assert!(debug_str.contains("Profile1"));
    assert!(debug_str.contains("10"));
    assert!(debug_str.contains("20"));
    assert!(debug_str.contains("30"));
    assert!(debug_str.contains("40"));
}

#[test]
fn test_get_current_thresholds() {
    let mut profiles = make_profiles_two(
        "Profile1",
        [10, 20, 30, 40],
        "Profile2",
        [50, 60, 70, 80],
        "Profile1",
        "Profile1",
    );

    let mut mock_port = DummySerialPort;
    let mut stream_control = true;

    let response = response_of(handle_command(
        Command::GetCurrentThresholds,
        &mut profiles,
        &mut mock_port,
        &mut stream_control,
    ));

    assert!(
        response
            .message
            .contains("Failed to read thresholds from device")
            || response.message.contains("device synchronized")
            || response
                .message
                .contains("device was out of sync, now fixed")
    );
}

#[test]
fn test_get_current_thresholds_no_profile() {
    let mut profiles = make_profiles_empty();
    let mut mock_port = DummySerialPort;
    let mut stream_control = true;

    let response = response_of(handle_command(
        Command::GetCurrentThresholds,
        &mut profiles,
        &mut mock_port,
        &mut stream_control,
    ));
    assert!(!response.success);
    assert!(response.message.contains("No current profile selected"));
}

#[test]
fn test_start_sensor_stream() {
    let mut profiles = make_profiles_single("Profile1", [10, 20, 30, 40]);
    let mut mock_port = DummySerialPort;
    let mut stream_control = false;

    let response = response_of(handle_command(
        Command::StartSensorStream,
        &mut profiles,
        &mut mock_port,
        &mut stream_control,
    ));
    assert!(response.success);
    assert!(response.message.contains("Sensor stream started"));
    assert!(stream_control);
}

#[test]
fn test_stop_sensor_stream() {
    let mut profiles = make_profiles_single("Profile1", [10, 20, 30, 40]);
    let mut mock_port = DummySerialPort;
    let mut stream_control = true;

    let response = response_of(handle_command(
        Command::StopSensorStream,
        &mut profiles,
        &mut mock_port,
        &mut stream_control,
    ));
    assert!(response.success);
    assert!(response.message.contains("Sensor stream stopped"));
    assert!(!stream_control);
}

#[test]
fn test_update_threshold_with_serial() {
    let mut profiles = make_profiles_single("Profile1", [10, 20, 30, 40]);
    let mut mock_port = DummySerialPort;
    let mut stream_control = false;

    let response = response_of(handle_command(
        Command::UpdateThreshold {
            profile_name: "Profile1".to_string(),
            threshold_index: 0,
            value: 123,
        },
        &mut profiles,
        &mut mock_port,
        &mut stream_control,
    ));

    assert!(
        response
            .message
            .contains("Failed to set threshold on serial device")
            || response
                .message
                .contains("Updated threshold 0 to 123 for profile Profile1 and serial device")
    );
}

#[test]
fn test_change_profile_with_serial() {
    let mut profiles = make_profiles_two(
        "Profile1",
        [10, 20, 30, 40],
        "Profile2",
        [50, 60, 70, 80],
        "Profile1",
        "Profile1",
    );
    let mut mock_port = DummySerialPort;
    let mut stream_control = false;

    let response = response_of(handle_command(
        Command::ChangeProfile {
            name: "Profile2".to_string(),
        },
        &mut profiles,
        &mut mock_port,
        &mut stream_control,
    ));

    assert!(
        response
            .message
            .contains("Failed to set thresholds on serial device")
            || response.message.contains(
                "Changed to profile 'Profile2' and set all thresholds on serial device"
            )
    );
}

#[test]
fn test_change_profile_with_current_player() {
    let profiles_base = make_profiles_two(
        "Profile1",
        [10, 20, 30, 40],
        "Profile2",
        [50, 60, 70, 80],
        "Profile1",
        "Profile1",
    );
    let mut profiles = with_current_player(profiles_base, "Player1", "Profile1");
    let mut mock_port = DummySerialPort;
    let mut stream_control = false;

    let response = response_of(handle_command(
        Command::ChangeProfile {
            name: "Profile2".to_string(),
        },
        &mut profiles,
        &mut mock_port,
        &mut stream_control,
    ));

    assert!(
        response
            .message
            .contains("Failed to set thresholds on serial device")
            || response.message.contains(
                "Changed to profile 'Profile2' and set all thresholds on serial device (updated current player 'Player1' profile)"
            )
    );

    if response.success {
        if let Some(player) = profiles.players.iter().find(|e| e.0 == "Player1") {
            assert_eq!(player.1.profile, "Profile2");
        } else {
            panic!("Player1 not found in players");
        }
    } else {
        if let Some(player) = profiles.players.iter().find(|e| e.0 == "Player1") {
            assert_eq!(player.1.profile, "Profile1");
        } else {
            panic!("Player1 not found in players");
        }
    }
}

#[test]
fn test_get_current_thresholds_with_device_sync() {
    let mut profiles = make_profiles_single("Profile1", [10, 20, 30, 40]);
    let mut mock_port = DummySerialPort;
    let mut stream_control = false;

    let response = response_of(handle_command(
        Command::GetCurrentThresholds,
        &mut profiles,
        &mut mock_port,
        &mut stream_control,
    ));

    assert!(
        response
            .message
            .contains("Failed to read thresholds from device")
            || response.message.contains("device synchronized")
            || response
                .message
                .contains("device was out of sync, now fixed")
    );
}

#[test]
fn test_change_player() {
    let mut profiles = make_profiles_two(
        "Profile1",
        [10, 20, 30, 40],
        "Profile2",
        [50, 60, 70, 80],
        "Profile1",
        "Profile1",
    );
    let mut mock_port = DummySerialPort;
    let mut stream_control = false;

    let response = response_of(handle_command(
        Command::ChangePlayer {
            name: "Player1".to_string(),
        },
        &mut profiles,
        &mut mock_port,
        &mut stream_control,
    ));

    assert!(
        response
            .message
            .contains("Failed to set thresholds on serial device")
            || response
                .message
                .contains("Created new player 'Player1' with profile 'Profile1'")
    );

    let response = response_of(handle_command(
        Command::ChangePlayer {
            name: "Player1".to_string(),
        },
        &mut profiles,
        &mut mock_port,
        &mut stream_control,
    ));

    assert!(
        response
            .message
            .contains("Failed to set thresholds on serial device")
            || response
                .message
                .contains("Switched to player 'Player1' with profile 'Profile1'")
    );
}

#[test]
fn test_active_player_broadcast() {
    let mut base_profiles = make_profiles_two(
        "Profile1",
        [10, 20, 30, 40],
        "Profile2",
        [50, 60, 70, 80],
        "Profile1",
        "Profile1",
    );
    base_profiles.players = vec![
        (
            "Player1".to_string(),
            Player {
                name: "Player1".to_string(),
                profile: "Profile1".to_string(),
            },
        ),
        (
            "Player2".to_string(),
            Player {
                name: "Player2".to_string(),
                profile: "Profile2".to_string(),
            },
        ),
    ];
    base_profiles.current_player = "Player1".to_string();

    let response = presence_response(&base_profiles);
    assert_eq!(
        response.response_type,
        Some("active_player_broadcast".to_string())
    );
    assert!(response.message.contains("Active player: Player1"));
    assert!(response.data.is_some());
}

#[test]
fn test_update_threshold_applies_on_echoing_device() {
    let mut profiles = Profiles {
        profiles: vec![(
            "DEFAULT".to_string(),
            Profile { thresholds: [100, 200, 300, 400] },
        )],
        current_profile: "DEFAULT".to_string(),
        default_profile: String::new(),
        players: Vec::new(),
        current_player: String::new(),
    };
    let mut port = MockSerialPort::new([100, 200, 300, 400]);
    let mut stream_control = false;

    let outcome = handle_command(
        Command::UpdateThreshold {
            profile_name: "DEFAULT".to_string(),
            threshold_index: 2,
            value: 999,
        },
        &mut profiles,
        &mut port,
        &mut stream_control,
    );

    let pending = matches!(outcome, CmdOutcome::NeedsSave(_));
    let response = response_of(outcome);
    assert!(pending);
    assert!(response.success);
    assert!(response
        .message
        .contains("Updated threshold 2 to 999 for profile DEFAULT and serial device"));
    let name = "DEFAULT".to_string();
    assert_eq!(
        profiles.profile_thresholds(&name),
        Some([100, 200, 999, 400])
    );
    let saved = response.data.expect("snapshot");
    assert_eq!(saved.profile_thresholds(&name), Some([100, 200, 999, 400]));
    assert_eq!(
        get_current_thresholds_from_device(&mut port).unwrap(),
        [100, 200, 999, 400]
    );
}

#[test]
fn test_change_profile_writes_all_four() {
    let mut profiles = make_profiles_two(
        "A",
        [10, 20, 30, 40],
        "B",
        [50, 60, 70, 80],
        "A",
        "",
    );
    let mut port = MockSerialPort::new([10, 20, 30, 40]);
    let mut stream_control = false;

    let response = response_of(handle_command(
        Command::ChangeProfile { name: "B".to_string() },
        &mut profiles,
        &mut port,
        &mut stream_control,
    ));
    assert!(response.success);
    assert_eq!(profiles.current_profile, "B");
    assert_eq!(
        get_current_thresholds_from_device(&mut port).unwrap(),
        [50, 60, 70, 80]
    );
}

#[test]
fn test_remove_current_profile_refused() {
    let mut profiles = make_profiles_two(
        "A",
        [10, 20, 30, 40],
        "B",
        [50, 60, 70, 80],
        "A",
        "",
    );
    let before = profiles.clone();
    let mut port = MockSerialPort::new([10, 20, 30, 40]);
    let mut stream_control = false;

    let outcome = handle_command(
        Command::RemoveProfile { name: "A".to_string() },
        &mut profiles,
        &mut port,
        &mut stream_control,
    );
    let done = matches!(outcome, CmdOutcome::Done(_));
    let response = response_of(outcome);
    assert!(done);
    assert!(!response.success);
    assert!(response
        .message
        .contains("Cannot remove the currently selected profile"));
    assert_eq!(profiles, before);
}

#[test]
fn test_remove_other_profile() {
    let mut profiles = make_profiles_two(
        "A",
        [10, 20, 30, 40],
        "B",
        [50, 60, 70, 80],
        "A",
        "",
    );
    let mut port = MockSerialPort::new([10, 20, 30, 40]);
    let mut stream_control = false;

    let response = response_of(handle_command(
        Command::RemoveProfile { name: "B".to_string() },
        &mut profiles,
        &mut port,
        &mut stream_control,
    ));
    assert!(response.success);
    assert!(response.message.contains("Removed profile 'B'"));
    let gone = "B".to_string();
    assert!(!profiles.has_profile(&gone));
}

#[test]
fn test_add_profile_and_duplicate() {
    let mut profiles = make_profiles_empty();
    let mut port = MockSerialPort::new([0, 0, 0, 0]);
    let mut stream_control = false;

    let response = response_of(handle_command(
        Command::AddProfile { name: "A".to_string(), thresholds: [1, 2, 3, 4] },
        &mut profiles,
        &mut port,
        &mut stream_control,
    ));
    assert!(response.success);
    assert!(response.message.contains("Added profile 'A'"));
    assert_eq!(profiles.current_profile, "A");

    let response = response_of(handle_command(
        Command::AddProfile { name: "A".to_string(), thresholds: [5, 6, 7, 8] },
        &mut profiles,
        &mut port,
        &mut stream_control,
    ));
    assert!(!response.success);
    assert!(response.message.contains("Profile 'A' already exists"));
}

#[test]
fn test_set_default_profile() {
    let mut profiles = make_profiles_two(
        "A",
        [10, 20, 30, 40],
        "B",
        [50, 60, 70, 80],
        "A",
        "",
    );
    let mut port = MockSerialPort::new([10, 20, 30, 40]);
    let mut stream_control = false;

    let response = response_of(handle_command(
        Command::SetDefaultProfile { name: "B".to_string() },
        &mut profiles,
        &mut port,
        &mut stream_control,
    ));
    assert!(response.success);
    assert!(response.message.contains("Set 'B' as default profile"));
    assert_eq!(profiles.default_profile, "B");

    let response = response_of(handle_command(
        Command::SetDefaultProfile { name: "C".to_string() },
        &mut profiles,
        &mut port,
        &mut stream_control,
    ));
    assert!(!response.success);
    assert!(response.message.contains("Profile 'C' not found"));
}

#[test]
fn test_change_player_uses_default_then_current() {
    let mut profiles = make_profiles_two(
        "A",
        [10, 20, 30, 40],
        "B",
        [50, 60, 70, 80],
        "A",
        "B",
    );
    let mut port = MockSerialPort::new([10, 20, 30, 40]);
    let mut stream_control = false;

    let response = response_of(handle_command(
        Command::ChangePlayer { name: "P1".to_string() },
        &mut profiles,
        &mut port,
        &mut stream_control,
    ));
    assert!(response.success);
    assert!(response
        .message
        .contains("Created new player 'P1' with profile 'B'"));
    assert_eq!(profiles.current_player, "P1");
    assert_eq!(profiles.current_profile, "B");
    assert_eq!(profiles.players.len(), 1);

    let mut no_default = make_profiles_two(
        "A",
        [10, 20, 30, 40],
        "B",
        [50, 60, 70, 80],
        "A",
        "",
    );
    let response = response_of(handle_command(
        Command::ChangePlayer { name: "P2".to_string() },
        &mut no_default,
        &mut port,
        &mut stream_control,
    ));
    assert!(response.success);
    assert!(response
        .message
        .contains("Created new player 'P2' with profile 'A'"));

    let mut empty = make_profiles_empty();
    let response = response_of(handle_command(
        Command::ChangePlayer { name: "P3".to_string() },
        &mut empty,
        &mut port,
        &mut stream_control,
    ));
    assert!(!response.success);
    assert!(response
        .message
        .contains("No default profile or current profile available to assign to new player"));
    assert!(empty.players.is_empty());
}

#[test]
fn test_get_current_thresholds_synchronized_and_repair() {
    let mut profiles = make_profiles_single("A", [10, 20, 30, 40]);
    profiles.default_profile = String::new();
    let mut port = MockSerialPort::new([10, 20, 30, 40]);
    let mut stream_control = false;

    let response = response_of(handle_command(
        Command::GetCurrentThresholds,
        &mut profiles,
        &mut port,
        &mut stream_control,
    ));
    assert!(response.success);
    assert!(response.message.contains("device synchronized"));

    let mut drifted = MockSerialPort::new([1, 1, 1, 1]);
    let response = response_of(handle_command(
        Command::GetCurrentThresholds,
        &mut profiles,
        &mut drifted,
        &mut stream_control,
    ));
    assert!(response.success);
    assert!(response.message.contains("device was out of sync, now fixed"));
    assert_eq!(
        get_current_thresholds_from_device(&mut drifted).unwrap(),
        [10, 20, 30, 40]
    );
}

#[test]
fn test_stream_stop_leaves_telemetry_idle() {
    let mut profiles = make_profiles_single("A", [10, 20, 30, 40]);
    let mut port = MockSerialPort::new([10, 20, 30, 40]);
    let mut stream_control = false;

    let response = response_of(handle_command(
        Command::StartSensorStream,
        &mut profiles,
        &mut port,
        &mut stream_control,
    ));
    assert!(response.success);
    assert!(stream_control);

    let response = response_of(handle_command(
        Command::StopSensorStream,
        &mut profiles,
        &mut port,
        &mut stream_control,
    ));
    assert!(response.success);
    assert!(!stream_control);

    assert!(telemetry_tick(&mut port, stream_control).is_none());
}

#[test]
fn test_telemetry_tick_publishes_when_enabled() {
    let mut port = MockSerialPort::new([10, 20, 30, 40]);
    let response = telemetry_tick(&mut port, true).expect("sample");
    assert!(response.success);
    assert_eq!(response.message, "Sensor stream data");
    assert_eq!(response.response_type, Some("sensor_stream".to_string()));
    let values = response.sensor_values.expect("values");
    for v in values {
        assert!(v >= 0 && v <= 1023);
    }

    let mut dummy = DummySerialPort;
    assert!(telemetry_tick(&mut dummy, true).is_none());
}

#[test]
fn test_subscribe_not_supported() {
    let mut profiles = make_profiles_empty();
    let mut port = DummySerialPort;
    let mut stream_control = false;

    let response = response_of(handle_command(
        Command::Subscribe { event_types: vec!["telemetry".to_string()] },
        &mut profiles,
        &mut port,
        &mut stream_control,
    ));
    assert!(!response.success);
    assert!(response.message.contains("Command not supported"));
}

#[test]
fn test_update_threshold_bad_index() {
    let mut profiles = make_profiles_single("A", [10, 20, 30, 40]);
    let before = profiles.clone();
    let mut port = MockSerialPort::new([10, 20, 30, 40]);
    let mut stream_control = false;

    let response = response_of(handle_command(
        Command::UpdateThreshold {
            profile_name: "A".to_string(),
            threshold_index: 4,
            value: 1,
        },
        &mut profiles,
        &mut port,
        &mut stream_control,
    ));
    assert!(!response.success);
    assert!(response.message.contains("Threshold index must be 0-3"));
    assert_eq!(profiles, before);

    let response = response_of(handle_command(
        Command::UpdateThreshold {
            profile_name: "Missing".to_string(),
            threshold_index: 0,
            value: 1,
        },
        &mut profiles,
        &mut port,
        &mut stream_control,
    ));
    assert!(!response.success);
    assert!(response.message.contains("Profile 'Missing' not found"));
}

#[test]
fn test_save_failed_response_text() {
    let response = save_failed_response("disk full".to_string());
    assert!(!response.success);
    assert_eq!(response.message, "Failed to save profiles: disk full");
    assert!(response.data.is_none());
}

#[test]
fn test_connection_response_snapshot() {
    let profiles = make_profiles_single("A", [10, 20, 30, 40]);
    let response = connection_response(&profiles);
    assert!(response.success);
    assert_eq!(response.message, "Connected to profile manager");
    assert_eq!(response.data.as_ref().map(|p| p.profiles.len()), Some(1));
    assert_eq!(
        response.response_type,
        Some("command_response".to_string())
    );
}

#[test]
fn test_ensure_default_profile_seeds_empty_store() {
    let mut profiles = make_profiles_empty();
    assert!(ensure_default_profile(&mut profiles));
    assert_eq!(profiles.current_profile, "DEFAULT");
    let name = "DEFAULT".to_string();
    assert_eq!(profiles.profile_thresholds(&name), Some([100, 200, 300, 400]));

    let mut seeded = make_profiles_single("A", [1, 2, 3, 4]);
    assert!(!ensure_default_profile(&mut seeded));
    assert_eq!(seeded.profiles.len(), 1);
}

#[test]
fn test_response_clone() {
    let response = Response {
        success: true,
        message: "Success".to_string(),
        data: Some(make_profiles_single("Profile1", [10, 20, 30, 40])),
        sensor_values: Some([1, 2, 3, 4]),
        response_type: Some("command_response".to_string()),
    };
    let cloned = response.clone();
    assert_eq!(cloned.success, response.success);
    assert_eq!(cloned.message, response.message);
    assert_eq!(cloned.sensor_values, response.sensor_values);
    assert_eq!(cloned.response_type, response.response_type);
    assert_eq!(cloned.data.unwrap(), response.data.unwrap());
}
