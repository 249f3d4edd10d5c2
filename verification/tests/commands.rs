//! What the commands decide and print, and what the doctor finds.
use cp2077_mod_tui::catalog::find_framework;
use cp2077_mod_tui::cli::{
    all_disabled_line, check_lines, chosen_profile, conflict_line, created_line, dry_run_lines,
    enabled_line, enabled_reason, exited_line, framework_line, imported_line, installed_line, mod_line,
    prepared_line, priority_line, private_line, profile_line, restored_line, saves_exported_lines,
    saves_imported_lines, set_enabled, set_priority, shared_lines, theme_line, CommandError,
};
use cp2077_mod_tui::doctor::{artifact_paths, command_places, describe_game, run, Check, SystemFacts};
use cp2077_mod_tui::launcher::LaunchPlan;
use cp2077_mod_tui::loadout::MaterializedLoadout;
use cp2077_mod_tui::models::{
    GameInstall, LoadoutEntry, ModKind, ModRelease, Profile, SaveSet, Timestamp,
};
use cp2077_mod_tui::saves::{ShareResult, TransferResult};
use cp2077_mod_tui::text_map::TextMap;
use cp2077_mod_tui::theme::{default_theme, find_theme, next_theme, presets, Rgb};

const NOW: Timestamp = Timestamp { seconds: 1_700_000_000, nanos: 0 };

fn profile() -> Profile {
    Profile {
        id: "p".into(),
        name: "Default".into(),
        game_install_id: "g".into(),
        game_build_id: "42".into(),
        runner: "UMU-Proton".into(),
        launch_args: Vec::new(),
        environment: TextMap::new(),
        created_at: NOW,
    }
}

fn release() -> ModRelease {
    ModRelease {
        id: "m".into(),
        name: "Mod".into(),
        version: "2".into(),
        kind: ModKind::Redmod,
        archive_sha256: "x".into(),
        layer_path: "/l".into(),
        source: "/s".into(),
        installed_at: NOW,
    }
}

fn entry(priority: i64) -> LoadoutEntry {
    LoadoutEntry {
        profile_id: "p".into(),
        mod_id: "m".into(),
        priority,
        requested_enabled: true,
    }
}

#[test]
fn gradient_uses_endpoints() {
    let theme = presets().remove(0);
    assert_eq!(theme.gradient(0, 10), theme.primary);
    assert_eq!(theme.gradient(10, 10), theme.accent);
}

#[test]
fn gradients_mix_their_ends() {
    let mut theme = default_theme();
    theme.primary = Rgb(0, 100, 255);
    theme.accent = Rgb(100, 0, 255);
    assert_eq!(theme.gradient(1, 2), Rgb(50, 50, 255));
    assert_eq!(theme.gradient(5, 0), theme.gradient(1, 1));
}

#[test]
fn themes_are_found_in_any_case() {
    let first = &presets()[0];
    assert_eq!(find_theme(&first.name.to_uppercase()).unwrap().name, first.name);
    assert!(find_theme("no such theme").is_none());
    assert_eq!(next_theme("no such theme").name, presets()[1].name);
    assert_eq!(default_theme().name, first.name);
}

#[test]
fn mods_are_turned_on_and_off() {
    let mods = vec![release()];
    let new = set_enabled(&profile(), &mods, &[], "m", true).unwrap();
    assert_eq!(new, entry(10));
    let off = set_enabled(&profile(), &mods, &[entry(70)], "m", false).unwrap();
    assert_eq!(off.priority, 70);
    assert!(!off.requested_enabled);
    assert_eq!(
        set_enabled(&profile(), &[], &[], "m", true).unwrap_err(),
        CommandError::NoMod
    );
    assert_eq!(
        set_enabled(&profile(), &mods, &[entry(i64::MAX)], "m", true).unwrap_err(),
        CommandError::NoPriority
    );
    assert_eq!(set_priority(&mods, &[entry(70)], "m", 5).unwrap(), entry(5));
    assert_eq!(set_priority(&[], &[entry(70)], "m", 5).unwrap_err(), CommandError::NoMod);
    let refused = set_priority(&mods, &[], "m", 5).unwrap_err();
    assert_eq!(
        refused.message(),
        "mod is not part of this profile; enable or disable it first"
    );
    assert_eq!(enabled_reason(true), "enable mod from CLI");
    assert_eq!(enabled_reason(false), "disable mod from CLI");
}

#[test]
fn profiles_are_named_by_commands() {
    let profiles = vec![profile()];
    assert_eq!(chosen_profile(&profiles, "Default", CommandError::NoProfile), Ok(0));
    let refused = chosen_profile(&profiles, "x", CommandError::NoTarget).unwrap_err();
    assert_eq!(refused.message(), "target profile not found");
}

#[test]
fn lines_are_printed_as_promised() {
    assert_eq!(imported_line(&release(), 3), "Imported Mod 2 as m (3 files)");
    assert_eq!(profile_line(&profile()), "p\tDefault\tbuild=42\trunner=UMU-Proton");
    assert_eq!(created_line(&profile()), "Created profile Default (p)");
    assert_eq!(mod_line(&release()), "m\tMod\t2\tredmod");
    assert_eq!(
        all_disabled_line(&profile(), 4, "rev"),
        "Disabled 4 mod(s) in Default (revision rev)"
    );
    assert_eq!(
        enabled_line(&profile(), "m", true, "rev"),
        "Enabled m in Default (revision rev)"
    );
    assert_eq!(
        priority_line(&profile(), "m", -7, "rev"),
        "Set m priority to -7 in Default (revision rev)"
    );
    assert_eq!(installed_line(&release()), "Installed Mod 2");
    assert_eq!(
        conflict_line("a/b", &vec!["x".to_string(), "y".to_string()]),
        "a/b\tx > y"
    );
    assert_eq!(prepared_line(&profile()), "Prepared isolated prefix for Default");
    assert_eq!(private_line(&profile(), true), "Default now uses a private save copy");
    assert_eq!(private_line(&profile(), false), "Default already uses private saves");
    assert_eq!(restored_line("/b"), "Restored /b");
    assert_eq!(theme_line("Night City"), "Theme set to Night City");
    assert_eq!(exited_line("exit status: 1"), "Cyberpunk exited with exit status: 1");
    let framework = find_framework("redscript").unwrap();
    assert_eq!(
        framework_line(&framework, &[]),
        format!("{:9} {:22} {}", "available", framework.name, framework.repository)
    );
    let result = ShareResult {
        save_set: SaveSet { id: "s".into(), name: "Set".into(), created_at: NOW },
        detached_target: Some("/d".into()),
    };
    assert_eq!(
        shared_lines(&profile(), &profile(), &result),
        vec!["Default and Default now share 'Set'", "Previous target saves preserved at /d"]
    );
    let moved = TransferResult { save_slots: 2, backup: None };
    assert_eq!(
        saves_imported_lines(&profile(), &moved),
        vec!["Imported 2 Steam save slot(s) into Default"]
    );
    let moved = TransferResult { save_slots: 2, backup: Some("/b".into()) };
    assert_eq!(
        saves_exported_lines(&profile(), &moved),
        vec![
            "Exported 2 save slot(s) from Default to Steam",
            "Previous Steam saves backed up to /b",
        ]
    );
}

#[test]
fn dry_runs_show_the_command() {
    let plan = LaunchPlan {
        executable: "umu-run".into(),
        args: vec!["/m/x.exe".into(), "-modded".into()],
        environment: TextMap::new(),
        mountpoint: "/m".into(),
        redmod_command: Some(vec!["deploy".into()]),
        conflicts: 2,
    };
    let loadout = MaterializedLoadout {
        revision: "rev".into(),
        layer: "/l".into(),
        entries: Vec::new(),
        conflicts: Vec::new(),
        redmods: Vec::new(),
        owners: Vec::new(),
    };
    assert_eq!(
        dry_run_lines(&plan, &loadout),
        vec![
            "mount: /m",
            "command: umu-run \"/m/x.exe\" \"-modded\"",
            "loadout revision: rev",
            "conflicts: 2",
            "redmod: umu-run \"deploy\"",
        ]
    );
}

#[test]
fn checks_are_aligned() {
    let check = Check {
        name: "Größe".into(),
        ok: false,
        detail: "missing".into(),
        remedy: Some("install it".into()),
    };
    assert_eq!(
        check_lines(&check),
        vec![format!("{:4} {:22} {}", "WARN", "Größe", "missing"), "     remedy: install it".into()]
    );
    let check = Check {
        name: "A name that is longer than its column".into(),
        ok: true,
        detail: "x".into(),
        remedy: None,
    };
    assert_eq!(
        check_lines(&check),
        vec![format!("{:4} {:22} {}", "OK", "A name that is longer than its column", "x")]
    );
}

#[test]
fn the_doctor_looks_everything_over() {
    let facts = SystemFacts {
        steam: Some("/usr/bin/steam".into()),
        umu: None,
        overlay: Some("/usr/bin/fuse-overlayfs".into()),
        winetricks: Some("/usr/bin/winetricks".into()),
        bsdtar: Some("/usr/bin/bsdtar".into()),
        display: true,
        session_type: Some("wayland".into()),
        desktop: None,
        artifacts: vec!["r6/scripts".into(), "archive/pc/mod".into()],
    };
    let checks = run(&[], &facts);
    assert_eq!(checks.len(), 7);
    assert!(checks[0].ok);
    assert_eq!(checks[0].detail, "/usr/bin/steam");
    assert_eq!(checks[1].detail, "umu-run not found in PATH");
    assert_eq!(
        checks[1].remedy.as_deref(),
        Some("Install with: sudo pacman -S umu-launcher")
    );
    assert_eq!(checks[5].detail, "wayland / unknown");
    assert_eq!(checks[6].detail, "Steam app 1091500 was not found");
    let game = GameInstall {
        id: "g".into(),
        library: "/s".into(),
        root: "/s/game".into(),
        manifest: "/s/m".into(),
        build_id: "42".into(),
        phantom_liberty: true,
        redmod: false,
        writable: false,
    };
    assert_eq!(
        describe_game(&game),
        "/s/game (build 42, Phantom Liberty, read-only)"
    );
    let checks = run(&[game], &facts);
    assert_eq!(checks.len(), 9);
    assert!(!checks[7].ok);
    assert_eq!(checks[8].detail, "Unmanaged artifacts: r6/scripts, archive/pc/mod");
    assert_eq!(command_places("/a:/b", "x"), vec!["/a/x", "/b/x"]);
    assert_eq!(artifact_paths().len(), 7);
}
