//! How the game is started.
use std::collections::BTreeMap;

use cp2077_mod_tui::launcher::{
    are_by_path, first_stage, lock_holder, lock_path, lock_step, lock_text, manifest_owners,
    manifest_text, mount_wait, mountpoint, next_stage, overlay_escape, ownership_path, parked_dir,
    plan, plan_overlay, prepare_environment, prepare_winetricks_args, prepared_marker, process_path,
    reconcile_moves, run_command, shell_display, stage_error, wine_path, LaunchStage, LockStep,
    MountWait,
};
use cp2077_mod_tui::loadout::LoadoutTables;
use cp2077_mod_tui::models::{
    Dependency, FileOwner, GameInstall, LoadoutEntry, ModKind, ModRelease, Profile, Timestamp,
};
use cp2077_mod_tui::paths::AppPaths;
use cp2077_mod_tui::text_map::TextMap;

const NOW: Timestamp = Timestamp { seconds: 1_700_000_000, nanos: 0 };

fn paths() -> AppPaths {
    AppPaths {
        config_dir: "/c".into(),
        data_dir: "/d".into(),
        cache_dir: "/k".into(),
        runtime_dir: "/r".into(),
    }
}

fn profile() -> Profile {
    Profile {
        id: "p".into(),
        name: "Default".into(),
        game_install_id: "g".into(),
        game_build_id: "1".into(),
        runner: "UMU-Proton".into(),
        launch_args: vec!["-skipStartScreen".into()],
        environment: TextMap::new(),
        created_at: NOW,
    }
}

fn game() -> GameInstall {
    GameInstall {
        id: "g".into(),
        library: "/steam".into(),
        root: "/steam/game".into(),
        manifest: "/steam/app.acf".into(),
        build_id: "1".into(),
        phantom_liberty: false,
        redmod: true,
        writable: true,
    }
}

fn tables() -> LoadoutTables {
    LoadoutTables {
        entries: vec![LoadoutEntry {
            profile_id: "p".into(),
            mod_id: "m".into(),
            priority: 10,
            requested_enabled: true,
        }],
        dependencies: Vec::new(),
        mods: vec![ModRelease {
            id: "m".into(),
            name: "Cool".into(),
            version: "1".into(),
            kind: ModKind::Redmod,
            archive_sha256: "x".into(),
            layer_path: "/layers/m".into(),
            source: "/in/m.zip".into(),
            installed_at: NOW,
        }],
        files: vec![FileOwner {
            mod_id: "m".into(),
            relative_path: "mods/Cool/info.json".into(),
            sha256: "x".into(),
            size: 2,
        }],
    }
}

#[test]
fn converts_linux_path_for_redmod() {
    assert_eq!(wine_path("/tmp/Night City/game"), "Z:\\tmp\\Night City\\game");
}

#[test]
fn escapes_overlay_separators() {
    assert_eq!(overlay_escape("/tmp/a:b,c"), "/tmp/a\\:b\\,c");
}

#[test]
fn prepares_prefix_directly_with_winetricks() {
    assert_eq!(
        prepare_winetricks_args(false),
        ["winetricks", "-q", "vcrun2022", "d3dcompiler_47"]
    );
}

#[test]
fn adds_dotnet_for_redmod_prefixes() {
    assert_eq!(
        prepare_winetricks_args(true),
        ["winetricks", "-q", "vcrun2022", "d3dcompiler_47", "dotnet6"]
    );
}

#[test]
fn a_launch_with_redmods_deploys_them() {
    let (plan, loadout, links) = plan(&tables(), &paths(), &profile(), &game(), false, false).unwrap();
    assert_eq!(plan.executable, "umu-run");
    assert!(plan.args[0].ends_with("Cyberpunk2077.exe"));
    assert!(plan.args.contains(&"-modded".to_string()));
    assert_eq!(plan.args.last().unwrap(), "-skipStartScreen");
    assert_eq!(plan.conflicts, 0);
    assert_eq!(plan.mountpoint, mountpoint(&paths(), "p"));
    assert!(plan.redmod_command.is_some());
    assert_eq!(loadout.redmods, vec!["Cool"]);
    assert_eq!(links.len(), 1);
    assert!(run_command(&plan).starts_with("umu-run "));
    let overlay = plan_overlay(&paths(), &profile(), &game(), &loadout);
    assert!(overlay.options.contains("lowerdir="));
    assert!(overlay.options.contains("/steam/game"));
    assert!(overlay.ready.starts_with(&overlay.mountpoint));
}

#[test]
fn a_launch_is_refused_for_cause() {
    let mut newer = game();
    newer.build_id = "2".into();
    let refused = plan(&tables(), &paths(), &profile(), &newer, false, false).unwrap_err();
    assert_eq!(
        refused.message(),
        "game build changed from 1 to 2; review framework compatibility or use --force"
    );
    assert!(plan(&tables(), &paths(), &profile(), &newer, true, false).is_ok());
    assert!(plan(&tables(), &paths(), &profile(), &newer, false, true).is_ok());
    let mut without = game();
    without.redmod = false;
    let refused = plan(&tables(), &paths(), &profile(), &without, false, false).unwrap_err();
    assert!(refused.message().contains("2060310"));
    let mut blocked = tables();
    blocked.dependencies.push(Dependency {
        mod_id: "m".into(),
        requires_id: "absent".into(),
        inferred: false,
    });
    let refused = plan(&blocked, &paths(), &profile(), &game(), false, false).unwrap_err();
    assert!(refused.message().starts_with("loadout has disabled dependents: "));
    let mut broken = tables();
    broken.mods.clear();
    assert!(plan(&broken, &paths(), &profile(), &game(), false, false).is_err());
}

#[test]
fn the_environment_names_the_prefix() {
    let environment = prepare_environment(&paths(), &profile());
    assert!(environment.get("WINEPREFIX").unwrap().starts_with("/d/profiles/p/"));
    assert!(prepared_marker(&paths(), "p").starts_with("/d/profiles/p/"));
}

#[test]
fn arguments_are_shown_as_literals() {
    let args = vec!["a b".to_string(), "say \"hi\"".to_string(), "back\\slash".to_string()];
    assert_eq!(shell_display(&args), "\"a b\" \"say \\\"hi\\\"\" \"back\\\\slash\"");
}

fn owner(path: &str, id: &str) -> (String, String) {
    (path.to_string(), id.to_string())
}

#[test]
fn state_follows_its_owner() {
    let before = vec![owner("a.ini", "one"), owner("b.ini", "two")];
    let after = vec![owner("a.ini", "three"), owner("b.ini", "two")];
    let (park, restore) = reconcile_moves(&before, &after, "/up", "/park");
    assert_eq!(park.len(), 1);
    assert_eq!(park[0].source, "/up/a.ini");
    assert!(park[0].destination.starts_with("/park/"));
    let (_, back) = reconcile_moves(&after, &before, "/up", "/park");
    assert!(back.iter().any(|item| item.source == park[0].destination
        && item.destination == park[0].source));
    assert!(restore.iter().all(|item| item.destination.starts_with("/up/")));
    let (none, _) = reconcile_moves(&before, &before, "/up", "/park");
    assert!(none.is_empty());
}

fn reconcile(
    disk: &mut BTreeMap<String, &'static str>,
    before: &Vec<(String, String)>,
    after: &Vec<(String, String)>,
) {
    let (park, restore) =
        reconcile_moves(before, after, "/d/profiles/p/runtime-upper", "/d/profiles/p/parked-state");
    for item in park {
        if let Some(contents) = disk.remove(&item.source) {
            disk.insert(item.destination, contents);
        }
    }
    for item in restore {
        if !disk.contains_key(&item.destination) {
            if let Some(contents) = disk.remove(&item.source) {
                disk.insert(item.destination, contents);
            }
        }
    }
}

#[test]
fn changes_are_put_aside_and_come_back() {
    let first = vec![owner("a.ini", "one"), owner("b.ini", "two")];
    let second = vec![owner("a.ini", "three"), owner("b.ini", "two")];
    let used = "/d/profiles/p/runtime-upper/a.ini".to_string();
    let mut disk = BTreeMap::new();
    disk.insert(used.clone(), "of one");
    reconcile(&mut disk, &first, &second);
    assert_eq!(disk.get("/d/profiles/p/parked-state/one/a.ini"), Some(&"of one"));
    assert!(!disk.contains_key(&used));
    disk.insert(used.clone(), "of three");
    reconcile(&mut disk, &second, &first);
    assert_eq!(disk.get(&used), Some(&"of one"));
    assert_eq!(disk.get("/d/profiles/p/parked-state/three/a.ini"), Some(&"of three"));
}

#[test]
fn the_state_of_runs_stands_with_the_profile() {
    assert_eq!(parked_dir(&paths(), "p"), "/d/profiles/p/parked-state");
    assert_eq!(ownership_path(&paths(), "p"), "/d/profiles/p/runtime-ownership.json");
}

#[test]
fn owners_are_read_back_from_their_manifest() {
    let owners = vec![owner("archive/a", "one"), owner("r6/b \"x\"", "two")];
    let text = manifest_text(&owners);
    assert!(text.contains("archive/a"));
    assert_ne!(text, "");
    assert_eq!(manifest_owners(&Some(text)), owners);
    assert!(manifest_owners(&None).is_empty());
    assert!(manifest_owners(&Some("not json".to_string())).is_empty());
    let read = manifest_owners(&Some("{\"b/x\": \"2\", \"b\": \"1\", \"a\": \"0\"}".to_string()));
    assert_eq!(read, vec![owner("a", "0"), owner("b", "1"), owner("b/x", "2")]);
}

#[test]
fn owners_in_order_are_told_from_others() {
    assert!(are_by_path(&vec![]));
    assert!(are_by_path(&vec![owner("b", "1")]));
    assert!(are_by_path(&vec![owner("a", "2"), owner("b/x", "1"), owner("b-x", "1")]));
    assert!(!are_by_path(&vec![owner("b", "1"), owner("a", "2")]));
    assert!(!are_by_path(&vec![owner("a/b", "1"), owner("a//b", "2")]));
}

#[test]
fn escaped_separators_stand_in_marked_pairs() {
    assert_eq!(overlay_escape("a\\:b"), "a\\\\\\:b");
    assert_eq!(overlay_escape("\\\\,"), "\\\\\\\\\\,");
}

#[test]
fn a_lock_names_its_process() {
    assert_eq!(lock_holder(&lock_text(4711)), Some(4711));
    assert_eq!(lock_holder("nobody"), None);
    assert_eq!(process_path(12), "/proc/12");
    assert_eq!(lock_path(&paths(), "p"), "/d/profiles/p/run.lock");
    assert_eq!(lock_step(false, None, false), LockStep::Take);
    assert_eq!(lock_step(true, Some(1), true), LockStep::Refuse);
    assert_eq!(lock_step(true, Some(1), false), LockStep::Replace);
    assert_eq!(lock_step(true, None, false), LockStep::Replace);
}

#[test]
fn the_mount_is_waited_for() {
    assert_eq!(mount_wait(true, 0), MountWait::Ready);
    assert_eq!(mount_wait(false, 0), MountWait::Again);
    assert_eq!(mount_wait(false, 60_000), MountWait::TimedOut);
}

#[test]
fn the_game_starts_behind_its_gates() {
    let mut stage = first_stage(false, false);
    let mut seen = Vec::new();
    while stage != LaunchStage::Done && seen.len() < 40 {
        seen.push(stage);
        stage = next_stage(stage, true, true);
    }
    assert_eq!(stage, LaunchStage::Done);
    let place = |wanted: LaunchStage| seen.iter().position(|stage| *stage == wanted).unwrap();
    assert!(place(LaunchStage::CheckPrepared) < place(LaunchStage::Mount));
    assert!(place(LaunchStage::Lock) < place(LaunchStage::Mount));
    assert!(place(LaunchStage::BackUpProfile) < place(LaunchStage::Spawn));
    assert!(place(LaunchStage::Mount) < place(LaunchStage::Spawn));
    assert!(place(LaunchStage::Spawn) < place(LaunchStage::Unmount));
    assert!(!seen.contains(&LaunchStage::RecordOverride));
    assert_eq!(first_stage(true, true), LaunchStage::RecordOverride);
    let error = stage_error(LaunchStage::CheckPrepared, &profile()).unwrap();
    assert_eq!(
        error.message(),
        "profile prefix is not prepared; run `cp2077-mod-tui prepare Default` first"
    );
    assert!(stage_error(LaunchStage::Wait, &profile()).is_none());
}
