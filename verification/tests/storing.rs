//! How the library is written down, and what profiles are made of.
use chrono::{DateTime, Utc};

use cp2077_mod_tui::models::{
    GameInstall, LoadoutEntry, ModKind, ModRelease, Profile, SaveSet, Timestamp,
};
use cp2077_mod_tui::profiles::{create, create_with_id, default_profile, ProfileError};
use cp2077_mod_tui::records::{
    adjusted_entry, entry_of_mod, game_install, mod_by_archive_sha, mod_release, mod_row,
    moment_or_now, next_priority, prioritized_entry, priority_has_room, profile_by_name_or_id,
    profile_row, read_mod_row, read_profile_row, read_save_set_row, request_entry, save_set_row,
};
use cp2077_mod_tui::text_map::TextMap;

const NOW: Timestamp = Timestamp { seconds: 1_700_000_000, nanos: 123_000_000 };
const LATER: Timestamp = Timestamp { seconds: 1_800_000_000, nanos: 0 };

fn game() -> GameInstall {
    GameInstall {
        id: "g".into(),
        library: "/steam".into(),
        root: "/steam/game".into(),
        manifest: "/steam/app.acf".into(),
        build_id: "42".into(),
        phantom_liberty: true,
        redmod: false,
        writable: false,
    }
}

fn release() -> ModRelease {
    ModRelease {
        id: "m".into(),
        name: "Test Mod".into(),
        version: "1".into(),
        kind: ModKind::Mixed,
        archive_sha256: "abc".into(),
        layer_path: "/managed/m".into(),
        source: "/inbox/m.zip".into(),
        installed_at: NOW,
    }
}

fn entry(id: &str, priority: i64) -> LoadoutEntry {
    LoadoutEntry {
        profile_id: "p".into(),
        mod_id: id.into(),
        priority,
        requested_enabled: true,
    }
}

#[test]
fn a_release_is_read_back_from_its_row() {
    let row = mod_row(&release()).unwrap();
    assert_eq!(row.kind, "mixed");
    assert_eq!(row.installed_at, "2023-11-14T22:13:20.123+00:00");
    assert_eq!(read_mod_row(row, LATER), release());
}

#[test]
fn a_save_set_is_read_back_from_its_row() {
    let set = SaveSet { id: "s".into(), name: "Modded".into(), created_at: NOW };
    let row = save_set_row(&set).unwrap();
    assert_eq!(read_save_set_row(row, LATER), set);
    let mut broken = save_set_row(&set).unwrap();
    broken.created_at = "yesterday".into();
    assert_eq!(read_save_set_row(broken, LATER).created_at, LATER);
}

#[test]
fn a_profile_is_read_back_from_its_row() {
    let mut environment = TextMap::new();
    environment.insert("B", "two \"quoted\"");
    environment.insert("A", "");
    let profile = Profile {
        id: "p".into(),
        name: "Default".into(),
        game_install_id: "g".into(),
        game_build_id: "42".into(),
        runner: "UMU-Proton".into(),
        launch_args: vec!["-modded".into(), "a\nb".into()],
        environment,
        created_at: NOW,
    };
    let row = profile_row(&profile).unwrap();
    assert_eq!(row.launch_args, "[\"-modded\",\"a\\nb\"]");
    assert_eq!(row.environment, "{\"A\":\"\",\"B\":\"two \\\"quoted\\\"\"}");
    let read = read_profile_row(row, LATER);
    assert_eq!(read.id, "p");
    assert_eq!(read.launch_args, profile.launch_args);
    assert_eq!(read.environment.pairs(), profile.environment.pairs());
    assert_eq!(read.created_at, NOW);
    let mut broken = profile_row(&profile).unwrap();
    broken.launch_args = "nonsense".into();
    broken.environment = "[]".into();
    let read = read_profile_row(broken, LATER);
    assert!(read.launch_args.is_empty());
    assert!(read.environment.pairs().is_empty());
}

#[test]
fn moments_are_those_of_chrono() {
    for text in ["2023-11-14T22:13:20.123+00:00", "2023-11-15T00:13:20.123+02:00"] {
        assert_eq!(moment_or_now(text, LATER), NOW);
        let read = DateTime::parse_from_rfc3339(text).unwrap().with_timezone(&Utc);
        assert_eq!(read.timestamp(), NOW.seconds);
    }
    assert_eq!(moment_or_now("not a date", LATER), LATER);
    let far = Timestamp { seconds: i64::MAX, nanos: 0 };
    let mut release = release();
    release.installed_at = far;
    assert!(mod_row(&release).is_none());
}

#[test]
fn records_are_found_by_their_keys() {
    assert_eq!(game_install(&[game()], "g"), Some(0));
    assert_eq!(game_install(&[game()], "h"), None);
    assert_eq!(mod_release(&[release()], "m"), Some(0));
    assert_eq!(mod_by_archive_sha(&[release()], "abc"), Some(0));
    assert_eq!(mod_by_archive_sha(&[release()], "abd"), None);
    let first = create_with_id("one".into(), &game(), "Two", "r", NOW).unwrap();
    let second = create_with_id("Two".into(), &game(), "Other", "r", NOW).unwrap();
    let profiles = vec![first, second];
    assert_eq!(profile_by_name_or_id(&profiles, "Two"), Some(0));
    assert_eq!(profile_by_name_or_id(&profiles, "Other"), Some(1));
    assert_eq!(profile_by_name_or_id(&profiles, "nobody"), None);
}

#[test]
fn a_new_mod_goes_on_top() {
    let entries = vec![entry("a", 30), entry("b", -5)];
    assert!(priority_has_room(&entries));
    assert_eq!(next_priority(&entries), 40);
    assert_eq!(next_priority(&[]), 10);
    assert_eq!(next_priority(&[entry("a", -50)]), -40);
    let new = request_entry(&entries, "p", "c", true);
    assert_eq!(new.priority, 40);
    assert!(new.requested_enabled);
    let old = request_entry(&entries, "p", "b", false);
    assert_eq!(old.priority, -5);
    assert!(!old.requested_enabled);
    assert!(!priority_has_room(&[entry("a", i64::MAX - 9)]));
    assert!(priority_has_room(&[entry("a", i64::MAX - 10)]));
    assert_eq!(entry_of_mod(&entries, "b"), Some(1));
}

#[test]
fn priorities_stay_in_range() {
    let entries = vec![entry("a", i64::MAX - 3), entry("b", i64::MIN + 3)];
    assert_eq!(adjusted_entry(&entries, "a", 10).unwrap().priority, i64::MAX);
    assert_eq!(adjusted_entry(&entries, "b", -10).unwrap().priority, i64::MIN);
    assert_eq!(adjusted_entry(&entries, "c", 10), None);
    assert_eq!(prioritized_entry(&entries, "b", 7).unwrap(), entry("b", 7));
    assert_eq!(prioritized_entry(&entries, "c", 7), None);
}

#[test]
fn profiles_are_named_and_numbered() {
    let made = create(&game(), "  Netrunner ", "UMU-Proton", NOW).unwrap();
    assert_eq!(made.name, "Netrunner");
    assert_eq!(made.game_build_id, "42");
    assert_eq!(made.id.len(), 36);
    assert!(made.id.chars().enumerate().all(|(i, c)| match i {
        8 | 13 | 18 | 23 => c == '-',
        _ => c.is_ascii_digit() || ('a'..='f').contains(&c),
    }));
    let other = create(&game(), "Netrunner", "UMU-Proton", NOW).unwrap();
    assert_ne!(made.id, other.id);
    let refused = create(&game(), " \t", "UMU-Proton", NOW).unwrap_err();
    assert_eq!(refused, ProfileError::EmptyName);
    assert_eq!(refused.message(), "profile name cannot be empty");
}

#[test]
fn the_first_profile_is_made_by_itself() {
    let made = default_profile(&Vec::new(), &[game()], NOW).unwrap();
    assert_eq!(made.name, "Default");
    assert_eq!(made.runner, "UMU-Proton");
    assert!(default_profile(&vec![made], &[game()], NOW).is_none());
    assert!(default_profile(&Vec::new(), &[], NOW).is_none());
}
