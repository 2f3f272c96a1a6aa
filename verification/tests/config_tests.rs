use ruma::IdParseError;
use welcome_bot::{
    key_import_plan, parse_room_list, session_plan, Config, ConfigError, ConfigVars, KeyImportPlan,
    RoomListError, SessionPlan,
};

fn s(text: &str) -> String {
    text.to_string()
}

fn no_vars() -> ConfigVars {
    ConfigVars {
        homeserver: None,
        username: None,
        password: None,
        recovery_key: None,
        passphrase: None,
        target_rooms: None,
        trigger_rooms: None,
        session_file: None,
        key_export_file: None,
        crypto_store_path: None,
        diagnostic_key_file: None,
        welcome_trigger: None,
        debounce_seconds: None,
    }
}

fn required_vars() -> ConfigVars {
    let mut v = no_vars();
    v.username = Some(s("bot"));
    v.password = Some(s("secret"));
    v.target_rooms = Some(s("!one:example.org,!two:example.org"));
    v.trigger_rooms = Some(s("!lobby:example.org"));
    v
}

#[test]
fn room_list_single_entry() {
    assert_eq!(parse_room_list("!room1:matrix.org"), Ok(vec![s("!room1:matrix.org")]));
}

#[test]
fn room_list_trims_and_drops_empty_entries() {
    assert_eq!(
        parse_room_list("  !a:x.org , ,,\t!b:x.org\n,"),
        Ok(vec![s("!a:x.org"), s("!b:x.org")])
    );
}

#[test]
fn room_list_trims_unicode_white_space() {
    assert_eq!(parse_room_list("\u{a0}!a:x.org\u{3000}"), Ok(vec![s("!a:x.org")]));
}

#[test]
fn room_list_keeps_first_occurrence_once() {
    assert_eq!(
        parse_room_list("!b:x.org,!a:x.org, !b:x.org ,!a:x.org,!c:x.org"),
        Ok(vec![s("!b:x.org"), s("!a:x.org"), s("!c:x.org")])
    );
}

#[test]
fn room_list_accepts_id_without_server_name() {
    assert_eq!(parse_room_list("!opaque"), Ok(vec![s("!opaque")]));
}

#[test]
fn room_list_accepts_long_ids() {
    let long = format!("!{}:example.org", "a".repeat(400));
    assert_eq!(parse_room_list(&long), Ok(vec![long.clone()]));
}

#[test]
fn room_list_rejects_missing_sigil() {
    assert_eq!(
        parse_room_list("!ok:x.org,  #alias:x.org  ,!later:x.org"),
        Err(RoomListError::InvalidRoomId {
            entry: s("#alias:x.org"),
            error: IdParseError::MissingLeadingSigil,
        })
    );
}

#[test]
fn room_list_rejects_first_invalid_entry() {
    assert_eq!(
        parse_room_list("bad1, bad2"),
        Err(RoomListError::InvalidRoomId { entry: s("bad1"), error: IdParseError::MissingLeadingSigil })
    );
}

#[test]
fn room_list_rejects_nul_character() {
    assert_eq!(
        parse_room_list("!a\0b:x.org"),
        Err(RoomListError::InvalidRoomId {
            entry: s("!a\0b:x.org"),
            error: IdParseError::InvalidCharacters,
        })
    );
}

#[test]
fn room_list_rejects_list_without_rooms() {
    assert_eq!(parse_room_list(""), Err(RoomListError::NoRooms));
    assert_eq!(parse_room_list(" , ,\t,"), Err(RoomListError::NoRooms));
}

#[test]
fn config_requires_username_first() {
    assert_eq!(
        Config::from_vars(no_vars()).err(),
        Some(ConfigError::MissingVariable(s("MATRIX_USERNAME")))
    );
}

#[test]
fn config_requires_password() {
    let mut v = required_vars();
    v.password = None;
    assert_eq!(
        Config::from_vars(v).err(),
        Some(ConfigError::MissingVariable(s("MATRIX_PASSWORD")))
    );
}

#[test]
fn config_requires_target_rooms() {
    let mut v = required_vars();
    v.target_rooms = None;
    assert_eq!(
        Config::from_vars(v).err(),
        Some(ConfigError::MissingVariable(s("SPACE_CHILD_ROOMS")))
    );
}

#[test]
fn config_requires_trigger_rooms() {
    let mut v = required_vars();
    v.trigger_rooms = None;
    assert_eq!(
        Config::from_vars(v).err(),
        Some(ConfigError::MissingVariable(s("TRIGGER_ROOMS")))
    );
}

#[test]
fn config_reports_bad_target_room() {
    let mut v = required_vars();
    v.target_rooms = Some(s("!ok:x.org,nope"));
    v.trigger_rooms = Some(s(""));
    assert_eq!(
        Config::from_vars(v).err(),
        Some(ConfigError::BadRoomList {
            variable: s("SPACE_CHILD_ROOMS"),
            error: RoomListError::InvalidRoomId {
                entry: s("nope"),
                error: IdParseError::MissingLeadingSigil,
            },
        })
    );
}

#[test]
fn config_reports_empty_trigger_rooms() {
    let mut v = required_vars();
    v.trigger_rooms = Some(s(" , "));
    assert_eq!(
        Config::from_vars(v).err(),
        Some(ConfigError::BadRoomList { variable: s("TRIGGER_ROOMS"), error: RoomListError::NoRooms })
    );
}

#[test]
fn config_defaults() {
    let cfg = Config::from_vars(required_vars()).ok().unwrap();
    assert_eq!(cfg.homeserver, "https://matrix.org");
    assert_eq!(cfg.username, "bot");
    assert_eq!(cfg.password, "secret");
    assert_eq!(cfg.recovery_key, "");
    assert_eq!(cfg.passphrase, "");
    assert_eq!(cfg.target_rooms, vec![s("!one:example.org"), s("!two:example.org")]);
    assert_eq!(cfg.trigger_rooms, vec![s("!lobby:example.org")]);
    assert_eq!(cfg.session_file, "./session.json");
    assert_eq!(cfg.key_export_file, "./element-keys-shareable.txt");
    assert_eq!(cfg.crypto_store_path, "./bot-store");
    assert_eq!(cfg.diagnostic_key_file, "./diagnostic-keys.txt");
    assert_eq!(cfg.welcome_trigger, "!welcome");
    assert_eq!(cfg.debounce_seconds, 30);
    assert!(!cfg.wants_recovery());
}

#[test]
fn config_takes_every_variable() {
    let mut v = required_vars();
    v.homeserver = Some(s("https://hs.example"));
    v.recovery_key = Some(s("EsT1 abcd"));
    v.passphrase = Some(s("pass"));
    v.session_file = Some(s("/data/session.json"));
    v.key_export_file = Some(s("/data/keys.txt"));
    v.crypto_store_path = Some(s("/data/store"));
    v.diagnostic_key_file = Some(s("/data/diag.txt"));
    v.welcome_trigger = Some(s("!hello"));
    v.debounce_seconds = Some(s("5"));
    let cfg = Config::from_vars(v).ok().unwrap();
    assert_eq!(cfg.homeserver, "https://hs.example");
    assert_eq!(cfg.recovery_key, "EsT1 abcd");
    assert_eq!(cfg.passphrase, "pass");
    assert_eq!(cfg.session_file, "/data/session.json");
    assert_eq!(cfg.key_export_file, "/data/keys.txt");
    assert_eq!(cfg.crypto_store_path, "/data/store");
    assert_eq!(cfg.diagnostic_key_file, "/data/diag.txt");
    assert_eq!(cfg.welcome_trigger, "!hello");
    assert_eq!(cfg.debounce_seconds, 5);
    assert!(cfg.wants_recovery());
}

#[test]
fn config_debounce_accepts_plus_sign_and_maximum() {
    let mut v = required_vars();
    v.debounce_seconds = Some(s("+42"));
    assert_eq!(Config::from_vars(v).ok().unwrap().debounce_seconds, 42);
    let mut v = required_vars();
    v.debounce_seconds = Some(s("18446744073709551615"));
    assert_eq!(Config::from_vars(v).ok().unwrap().debounce_seconds, u64::MAX);
}

#[test]
fn config_rejects_bad_debounce() {
    for bad in ["", "abc", " 30", "30 ", "-5", "+", "3_0", "18446744073709551616"] {
        let mut v = required_vars();
        v.debounce_seconds = Some(s(bad));
        assert_eq!(
            Config::from_vars(v).err(),
            Some(ConfigError::InvalidDebounce {
                text: s(bad),
                reason: bad.parse::<u64>().unwrap_err(),
            }),
            "{bad:?}"
        );
    }
}

#[test]
fn session_restored_when_saved() {
    assert_eq!(session_plan(true), SessionPlan::Restore);
    assert_eq!(session_plan(false), SessionPlan::FreshLogin);
}

#[test]
fn key_import_needs_file_and_passphrase() {
    assert_eq!(key_import_plan(false, "pw"), KeyImportPlan::NoExportFile);
    assert_eq!(key_import_plan(false, ""), KeyImportPlan::NoExportFile);
    assert_eq!(key_import_plan(true, ""), KeyImportPlan::NoPassphrase);
    assert_eq!(key_import_plan(true, "pw"), KeyImportPlan::Import);
}

#[test]
fn room_list_joined_result_parses_back() {
    let rooms = parse_room_list(" !b:x.org,, !a:x.org ,\t!b:x.org").unwrap();
    assert_eq!(rooms, vec![s("!b:x.org"), s("!a:x.org")]);
    assert_eq!(parse_room_list(&rooms.join(",")), Ok(rooms.clone()));
}

#[test]
fn room_list_blank_and_repeated_entries_change_nothing() {
    let raw = "!a:x.org, !b:x.org";
    let rooms = parse_room_list(raw).unwrap();
    let longer = format!("{raw}, ,,  ,  !b:x.org ,!a:x.org\u{a0}");
    assert_eq!(parse_room_list(&longer), Ok(rooms));
}

#[test]
fn room_list_error_keeps_ruma_reason() {
    let err = parse_room_list("!ok:x.org,room").unwrap_err();
    match err {
        RoomListError::InvalidRoomId { entry, error } => {
            assert_eq!(entry, "room");
            assert_eq!(error.to_string(), "leading sigil is incorrect or missing");
        }
        RoomListError::NoRooms => panic!("expected an invalid room ID"),
    }
}
