//! Saves and backups.
use std::collections::BTreeMap;

use chrono::DateTime;

use cp2077_mod_tui::backup::{
    backup_dir, check_archive, command_failed, create, create_save_set, create_steam_saves, list, prune,
    restore, safe_label, validate_restore_archive, BackupError, ProfileFacts, RestoreError, RestoreFacts,
};
use cp2077_mod_tui::models::{GameInstall, Profile, SaveSet, Timestamp};
use cp2077_mod_tui::paths::AppPaths;
use cp2077_mod_tui::save_steps::{SaveAction, SaveStep};
use cp2077_mod_tui::saves::{
    copy_item, copy_save_item, count_save_slots, ensure_link, ensure_managed_link, ensure_no_link,
    ensure_profile_idle, ensure_staged, ensure_transfer_idle, export_start, export_to_steam,
    import_from_steam, is_game_process, link_failed, make_private, managed_save_dir, profile_save_dir,
    replace_save_tree, replace_with_id, share, share_with_id, steam_save_dir, Activity, CopyAction,
    DestinationFacts, SaveItem, SaveItemKind, SavePath, SavesFault, ShareFacts,
};
use cp2077_mod_tui::text_map::TextMap;

const NOW: Timestamp = Timestamp { seconds: 1_700_000_000, nanos: 123_000_000 };

fn paths() -> AppPaths {
    AppPaths {
        config_dir: "/c".into(),
        data_dir: "/d".into(),
        cache_dir: "/k".into(),
        runtime_dir: "/r".into(),
    }
}

fn profile(id: &str, name: &str) -> Profile {
    Profile {
        id: id.into(),
        name: name.into(),
        game_install_id: "game".into(),
        game_build_id: "1".into(),
        runner: "UMU-Proton".into(),
        launch_args: Vec::new(),
        environment: TextMap::new(),
        created_at: NOW,
    }
}

fn game() -> GameInstall {
    GameInstall {
        id: "game".into(),
        library: "/steam".into(),
        root: "/steam/game".into(),
        manifest: "/steam/app.acf".into(),
        build_id: "1".into(),
        phantom_liberty: false,
        redmod: false,
        writable: true,
    }
}

fn set(id: &str) -> SaveSet {
    SaveSet { id: id.into(), name: format!("set {id}"), created_at: NOW }
}

fn idle() -> Activity {
    Activity { profile: false, steam: false, game: false }
}

fn share_facts() -> ShareFacts {
    ShareFacts {
        source_locked: false,
        target_locked: false,
        source_set: None,
        target_set: None,
        source_has_saves: true,
        target_path: SavePath::Private,
    }
}

fn kinds(steps: &[SaveStep]) -> Vec<String> {
    steps
        .iter()
        .map(|step| {
            let text = format!("{:?}", step.action);
            text.split(' ').next().unwrap().to_string()
        })
        .collect()
}

/// A disk in memory: the contents of files and the targets of links, by their paths.
#[derive(Default)]
struct Disk {
    files: BTreeMap<String, Vec<u8>>,
    links: BTreeMap<String, String>,
}

impl Disk {
    fn write(&mut self, path: &str, contents: &[u8]) {
        self.files.insert(path.to_string(), contents.to_vec());
    }

    fn read(&self, path: &str) -> Option<Vec<u8>> {
        for (link, target) in &self.links {
            if let Some(rest) = path.strip_prefix(link.as_str()) {
                return self.files.get(&format!("{target}{rest}")).cloned();
            }
        }
        self.files.get(path).cloned()
    }

    fn below(&self, place: &str) -> Vec<(String, Vec<u8>)> {
        self.files
            .iter()
            .filter_map(|(path, contents)| {
                let rest = path.strip_prefix(place)?.strip_prefix('/')?;
                Some((rest.to_string(), contents.clone()))
            })
            .collect()
    }

    fn remove(&mut self, place: &str) {
        self.links.remove(place);
        let inside = format!("{place}/");
        self.files.retain(|path, _| path != place && !path.starts_with(&inside));
    }

    fn copy(&mut self, from: &str, to: &str, keeps: impl Fn(&str) -> bool) {
        for (rest, contents) in self.below(from) {
            if keeps(&rest) {
                self.write(&format!("{to}/{rest}"), &contents);
            }
        }
    }

    fn carry_out(&mut self, steps: &[SaveStep]) {
        for step in steps {
            match &step.action {
                SaveAction::Move { from, to } => {
                    let link = self.links.get(from).cloned();
                    self.copy(from, to, |_| true);
                    self.remove(from);
                    if let Some(target) = link {
                        self.links.insert(to.clone(), target);
                    }
                }
                SaveAction::MoveFile { name, from, to } => {
                    let contents = self.files.remove(&format!("{from}/{name}")).unwrap();
                    self.write(&format!("{to}/{name}"), &contents);
                }
                SaveAction::Link { at, to } => {
                    self.links.insert(at.clone(), to.clone());
                }
                SaveAction::RemoveFile { at } | SaveAction::RemoveTree { at } => self.remove(at),
                SaveAction::CopyTree { from, to } => self.copy(from, to, |_| true),
                SaveAction::CopySaves { from, to } => self.copy(from, to, |rest| {
                    rest.split('/').all(|name| {
                        let item = SaveItem { name: name.into(), kind: SaveItemKind::File };
                        copy_save_item(&item, rest).unwrap() != CopyAction::Skip
                    })
                }),
                _ => {}
            }
        }
    }
}

#[test]
fn shares_saves_without_touching_target_private_copy() {
    let source = profile("source", "Source");
    let target = profile("target", "Target");
    let source_save = profile_save_dir(&paths(), &source.id);
    let target_save = profile_save_dir(&paths(), &target.id);
    let mut disk = Disk::default();
    disk.write(&format!("{source_save}/ManualSave-0/sav.dat"), b"source");
    disk.write(&format!("{target_save}/user.gls"), b"target");

    let (result, steps) = share(&paths(), &source, &target, &share_facts(), NOW).unwrap();
    disk.carry_out(&steps);

    let slot = format!("{target_save}/ManualSave-0/sav.dat");
    assert_eq!(disk.read(&slot).unwrap(), b"source");
    let managed = managed_save_dir(&paths(), &result.save_set.id);
    assert_eq!(disk.links.get(&source_save), Some(&managed));
    assert_eq!(disk.links.get(&target_save), Some(&managed));
    let detached = result.detached_target.unwrap();
    assert_eq!(disk.read(&format!("{detached}/user.gls")).unwrap(), b"target");
    match &steps.last().unwrap().action {
        SaveAction::Attach { profile_id, save_set_id } => {
            assert_eq!(profile_id, "target");
            assert_eq!(save_set_id, &result.save_set.id);
        }
        other => panic!("{other:?}"),
    }
}

#[test]
fn staged_export_preserves_steam_control_file() {
    let mut disk = Disk::default();
    disk.write("/t/modded/ManualSave-0/sav.dat", b"modded");
    disk.write("/t/modded/steam_autocloud.vdf", b"must-not-copy");
    disk.write("/t/steam/QuickSave-0/sav.dat", b"vanilla");
    disk.write("/t/steam/steam_autocloud.vdf", b"steam-owned");

    let facts = DestinationFacts { exists: true, is_link: false, has_control: true };
    disk.carry_out(&replace_save_tree("/t/modded", "/t/steam", true, &facts).unwrap());

    assert_eq!(disk.read("/t/steam/ManualSave-0/sav.dat").unwrap(), b"modded");
    assert!(disk.below("/t/steam/QuickSave-0").is_empty());
    assert_eq!(disk.read("/t/steam/steam_autocloud.vdf").unwrap(), b"steam-owned");
    assert_eq!(disk.below("/t").len(), 4);
}

#[test]
fn sharing_stays_in_the_directory_of_the_application() {
    let source = profile("source", "Source");
    let target = profile("target", "Target");
    let (_, steps) = share(&paths(), &source, &target, &share_facts(), NOW).unwrap();
    for step in &steps {
        let text = format!("{:?} {:?}", step.action, step.undo);
        assert!(!text.contains("\"/steam/"), "{text}");
    }
}

#[test]
fn imports_only_read_the_saves_of_steam() {
    let own = profile("p", "P");
    let steps = import_from_steam(&paths(), &own, &game(), &idle(), &None, 1).unwrap();
    match &steps[1].action {
        SaveAction::ReplaceTree { from, to, keep_control } => {
            assert_eq!(from, &steam_save_dir(&game()));
            assert_eq!(to, &profile_save_dir(&paths(), "p"));
            assert!(!keep_control);
        }
        other => panic!("{other:?}"),
    }
}

#[test]
fn made_backups_are_listed() {
    let facts = ProfileFacts { is_dir: true, has_upper: true, has_saves: true };
    let plan = create(&paths(), "p", "before v1.0", &facts, NOW).unwrap();
    let files = Some(vec!["/d/backups/p/notes.txt".to_string(), plan.archive.clone()]);
    assert_eq!(list(&files), vec![plan.archive.clone()]);
    assert!(check_archive(true, &plan.archive, &paths().backups_dir()).is_ok());
}

#[test]
fn saves_stand_below_their_owners() {
    assert_eq!(
        profile_save_dir(&paths(), "p"),
        "/d/profiles/p/prefix/drive_c/users/steamuser/Saved Games/CD Projekt Red/Cyberpunk 2077"
    );
    assert_eq!(managed_save_dir(&paths(), "s"), "/d/save-sets/s/Cyberpunk 2077");
    assert_eq!(
        steam_save_dir(&game()),
        "/steam/steamapps/compatdata/1091500/pfx/drive_c/users/steamuser/Saved Games/CD Projekt Red/Cyberpunk 2077"
    );
}

#[test]
fn sharing_backs_up_moves_and_links() {
    let source = profile("source", "Source");
    let target = profile("target", "Target");
    let (result, steps) =
        share_with_id("12345678-rest", &paths(), &source, &target, &share_facts(), NOW).unwrap();
    assert_eq!(result.save_set.id, "12345678-rest");
    assert_eq!(result.save_set.name, "Source modded saves (12345678)");
    assert_eq!(
        result.detached_target.as_deref(),
        Some("/d/profiles/target/detached-saves/20231114-221320.123")
    );
    assert_eq!(
        kinds(&steps),
        vec![
            "BackupProfile",
            "BackupProfile",
            "CheckNoLink",
            "MakeDir",
            "Move",
            "Link",
            "RecordSet",
            "BackupSet",
            "MakeDir",
            "Move",
            "Link",
            "Attach",
        ]
    );
    match &steps[9].action {
        SaveAction::Move { from, to } => {
            assert_eq!(from, &profile_save_dir(&paths(), "target"));
            assert_eq!(Some(to), result.detached_target.as_ref());
        }
        other => panic!("{other:?}"),
    }
    assert_eq!(steps[11].undo.len(), 2);
    assert_eq!(
        steps[11].context.as_deref(),
        Some("record shared save set for target profile")
    );
}

#[test]
fn sharing_again_only_mends_the_links() {
    let mut facts = share_facts();
    facts.source_set = Some(set("s"));
    facts.target_set = Some(set("s"));
    let (result, steps) =
        share(&paths(), &profile("a", "A"), &profile("b", "B"), &facts, NOW).unwrap();
    assert_eq!(result.save_set, set("s"));
    assert_eq!(result.detached_target, None);
    assert_eq!(
        kinds(&steps),
        vec!["BackupProfile", "BackupProfile", "EnsureLink", "BackupSet", "EnsureLink"]
    );
    facts.target_set = Some(set("t"));
    facts.target_path = SavePath::Link("/elsewhere".into());
    let (_, steps) = share(&paths(), &profile("a", "A"), &profile("b", "B"), &facts, NOW).unwrap();
    assert_eq!(
        kinds(&steps),
        vec![
            "BackupProfile",
            "BackupProfile",
            "EnsureLink",
            "BackupSet",
            "BackupSet",
            "RemoveFile",
            "Link",
            "Attach",
        ]
    );
}

#[test]
fn sharing_is_refused_for_cause() {
    let one = profile("a", "A");
    let two = profile("b", "B");
    let error = share(&paths(), &one, &one, &share_facts(), NOW).unwrap_err();
    assert_eq!(error.fault, SavesFault::SameProfile);
    assert_eq!(error.message(), "choose two different profiles");
    let mut facts = share_facts();
    facts.target_locked = true;
    let error = share(&paths(), &one, &two, &facts, NOW).unwrap_err();
    assert_eq!(
        error.message(),
        "profile B is running; stop it before changing save sharing"
    );
    facts.source_locked = true;
    let error = share(&paths(), &one, &two, &facts, NOW).unwrap_err();
    assert_eq!(error.about, "A");
    let far = Timestamp { seconds: i64::MAX, nanos: 0 };
    let error = share(&paths(), &one, &two, &share_facts(), far).unwrap_err();
    assert_eq!(error.fault, SavesFault::NoDate);
    assert!(share(&paths(), &one, &two, &share_facts(), NOW).is_ok());
}

#[test]
fn new_save_sets_get_fresh_ids() {
    let one = profile("a", "A");
    let two = profile("b", "B");
    let first = share(&paths(), &one, &two, &share_facts(), NOW).unwrap().0.save_set;
    let second = share(&paths(), &one, &two, &share_facts(), NOW).unwrap().0.save_set;
    assert_eq!(first.id.len(), 36);
    assert_ne!(first.id, second.id);
    assert_eq!(first.name, format!("A modded saves ({})", &first.id[..8]));
}

#[test]
fn private_saves_are_copied_behind_backups() {
    let own = profile("a", "A");
    assert!(make_private(&paths(), &own, false, &None).unwrap().is_none());
    let steps = make_private(&paths(), &own, false, &Some(set("s"))).unwrap().unwrap();
    assert_eq!(
        kinds(&steps),
        vec!["BackupSet", "BackupProfile", "CheckLink", "RemoveFile", "CopyTree", "Detach"]
    );
    assert_eq!(steps[4].undo.len(), 2);
    assert_eq!(
        steps[5].context.as_deref(),
        Some("detach save set from profile")
    );
    let error = make_private(&paths(), &own, true, &None).unwrap_err();
    assert_eq!(error.fault, SavesFault::Running);
}

#[test]
fn transfers_need_save_slots_and_rest() {
    let own = profile("a", "A");
    let error = import_from_steam(&paths(), &own, &game(), &idle(), &None, 0).unwrap_err();
    assert_eq!(error.fault, SavesFault::NoSteamSlots);
    assert!(error.message().ends_with("CD Projekt Red/Cyberpunk 2077"));
    let mut busy = idle();
    busy.game = true;
    let error = import_from_steam(&paths(), &own, &game(), &busy, &None, 3).unwrap_err();
    assert_eq!(
        error.message(),
        "Cyberpunk is still running; exit it before transferring saves"
    );
    busy.steam = true;
    let error = ensure_transfer_idle(&own, &busy).unwrap_err();
    assert_eq!(error.fault, SavesFault::SteamRunning);
    busy.profile = true;
    let error = export_start(&paths(), &own, &busy, &None).unwrap_err();
    assert_eq!(error.fault, SavesFault::Running);
    assert!(ensure_profile_idle(&own, false).is_ok());

    let steps = import_from_steam(&paths(), &own, &game(), &idle(), &None, 3).unwrap();
    assert_eq!(kinds(&steps), vec!["BackupProfile", "ReplaceTree"]);
    let steps = import_from_steam(&paths(), &own, &game(), &idle(), &Some(set("s")), 3).unwrap();
    assert_eq!(kinds(&steps), vec!["EnsureLink", "BackupSet", "ReplaceTree"]);
    match &steps[2].action {
        SaveAction::ReplaceTree { from, to, keep_control } => {
            assert_eq!(from, &steam_save_dir(&game()));
            assert_eq!(to, &managed_save_dir(&paths(), "s"));
            assert!(!keep_control);
        }
        other => panic!("{other:?}"),
    }

    let (from, first) = export_start(&paths(), &own, &idle(), &Some(set("s"))).unwrap();
    assert_eq!(kinds(&first), vec!["EnsureLink"]);
    assert_eq!(from, managed_save_dir(&paths(), "s"));
    let (from, first) = export_start(&paths(), &own, &idle(), &None).unwrap();
    assert!(first.is_empty());
    let error = export_to_steam(&from, &game(), 0, true).unwrap_err();
    assert_eq!(error.message(), format!("profile contains no Cyberpunk save slots: {from}"));
    assert_eq!(
        kinds(&export_to_steam(&from, &game(), 1, true).unwrap()),
        vec!["BackupSteam", "ReplaceTree"]
    );
    assert_eq!(
        kinds(&export_to_steam(&from, &game(), 1, false).unwrap()),
        vec!["ReplaceTree"]
    );
}

#[test]
fn replaced_saves_keep_the_control_file() {
    let facts = DestinationFacts { exists: true, is_link: false, has_control: true };
    let steps = replace_with_id("id", "/from", "/there/saves", true, &facts).unwrap();
    assert_eq!(
        kinds(&steps),
        vec!["MakeDir", "CopySaves", "CheckSlots", "Move", "Move", "MoveFile", "RemoveTree"]
    );
    match &steps[5].action {
        SaveAction::MoveFile { name, from, to } => {
            assert_eq!(name, "steam_autocloud.vdf");
            assert_eq!(from, "/there/.cp2077-mod-tui-replaced-id");
            assert_eq!(to, "/there/saves");
        }
        other => panic!("{other:?}"),
    }
    match &steps[1].action {
        SaveAction::CopySaves { from, to } => {
            assert_eq!(from, "/from");
            assert_eq!(to, "/there/.cp2077-mod-tui-stage-id");
        }
        other => panic!("{other:?}"),
    }
    let link = DestinationFacts { exists: true, is_link: true, has_control: true };
    let steps = replace_with_id("id", "/from", "/there/saves", false, &link).unwrap();
    assert_eq!(
        kinds(&steps),
        vec!["MakeDir", "CopySaves", "CheckSlots", "Move", "Move", "RemoveFile"]
    );
    let none = DestinationFacts { exists: false, is_link: false, has_control: false };
    let steps = replace_save_tree("/from", "/there/saves", true, &none).unwrap();
    assert_eq!(kinds(&steps), vec!["MakeDir", "CopySaves", "CheckSlots", "Move"]);
    let error = replace_save_tree("/from", "/", true, &none).unwrap_err();
    assert_eq!(error.fault, SavesFault::NoParent);
}

#[test]
fn items_of_saves_are_copied_or_refused() {
    let item = |name: &str, kind: SaveItemKind| SaveItem { name: name.into(), kind };
    let file = item("sav.dat", SaveItemKind::File);
    assert_eq!(copy_save_item(&file, "/x").unwrap(), CopyAction::Copy);
    let control = item("steam_autocloud.vdf", SaveItemKind::File);
    assert_eq!(copy_save_item(&control, "/x").unwrap(), CopyAction::Skip);
    assert_eq!(copy_item(&control, "/x").unwrap(), CopyAction::Copy);
    let directory = item("ManualSave-0", SaveItemKind::Directory);
    assert_eq!(copy_save_item(&directory, "/x").unwrap(), CopyAction::Descend);
    assert_eq!(copy_item(&directory, "/x").unwrap(), CopyAction::Descend);
    let other = item("pipe", SaveItemKind::Other);
    assert_eq!(
        copy_save_item(&other, "/x/pipe").unwrap_err().message(),
        "unsupported item in save transfer: /x/pipe"
    );
    assert_eq!(
        copy_item(&other, "/x/pipe").unwrap_err().message(),
        "unsupported item in save set: /x/pipe"
    );
    let items = vec![
        file,
        directory,
        item("sav.dat", SaveItemKind::Directory),
        item("SAV.DAT", SaveItemKind::File),
        item("sav.dat", SaveItemKind::File),
    ];
    assert_eq!(count_save_slots(&items), 2);
    assert!(ensure_staged("/s", 2).is_ok());
    assert_eq!(
        ensure_staged("/s", 0).unwrap_err().fault,
        SavesFault::NoStagedSlots
    );
}

#[test]
fn links_to_save_sets_are_checked() {
    let managed = "/d/save-sets/s/Cyberpunk 2077";
    let good = SavePath::Link("/d/save-sets/s//Cyberpunk 2077/".into());
    assert!(ensure_managed_link("/own", managed, &good).is_ok());
    let foreign = SavePath::Link("/other".into());
    let error = ensure_managed_link("/own", managed, &foreign).unwrap_err();
    assert_eq!(
        error.message(),
        "profile save link points outside its managed save set: /other"
    );
    let error = ensure_managed_link("/own", managed, &SavePath::Private).unwrap_err();
    assert_eq!(error.fault, SavesFault::PrivateInPlace);
    let error = ensure_managed_link("/own", managed, &SavePath::Missing).unwrap_err();
    assert_eq!(error.fault, SavesFault::NoLink);

    assert!(!ensure_link(&paths(), "p", &None, false, &SavePath::Missing).unwrap());
    assert!(ensure_link(&paths(), "p", &Some(set("s")), true, &SavePath::Missing).unwrap());
    assert!(!ensure_link(&paths(), "p", &Some(set("s")), true, &good).unwrap());
    let error = ensure_link(&paths(), "p", &Some(set("s")), false, &good).unwrap_err();
    assert_eq!(error.message(), format!("managed save set is missing: {managed}"));
    assert!(ensure_no_link("/own", &SavePath::Private).is_ok());
    let error = ensure_no_link("/own", &foreign).unwrap_err();
    assert_eq!(
        error.message(),
        "profile save path is already an unmanaged symbolic link"
    );
    assert_eq!(link_failed("/a", "/b"), "link profile saves /a to /b");
}

#[test]
fn the_game_is_known_by_its_process() {
    let command = Some("Z:\\Game\\Cyberpunk2077.EXE\0-modded".to_string());
    assert!(is_game_process("4711", &command));
    assert!(!is_game_process("self", &command));
    assert!(!is_game_process("4711", &Some("steam".to_string())));
    assert!(!is_game_process("4711", &None));
}

#[test]
fn labels_of_backups_are_plain() {
    assert_eq!(safe_label("before/Ünd after"), "before--nd-after");
    assert_eq!(safe_label("pre-restore"), "pre-restore");
}

#[test]
fn profile_backups_hold_what_there_is() {
    let facts = ProfileFacts { is_dir: true, has_upper: false, has_saves: true };
    let plan = create(&paths(), "p", "manual!", &facts, NOW).unwrap();
    let date = DateTime::from_timestamp(NOW.seconds, NOW.nanos).unwrap();
    assert_eq!(
        plan.archive,
        format!("/d/backups/p/{}-manual-.tar.zst", date.format("%Y%m%d-%H%M%S"))
    );
    assert_eq!(plan.archive, "/d/backups/p/20231114-221320-manual-.tar.zst");
    assert_eq!(plan.directory, backup_dir(&paths(), "p"));
    assert_eq!(
        plan.members,
        vec!["p/backup-marker.txt", "p/prefix/drive_c/users/steamuser/Saved Games"]
    );
    assert_eq!(plan.keep, 10);
    let marker = plan.marker.as_ref().unwrap();
    assert_eq!(marker.path, "/d/profiles/p/backup-marker.txt");
    assert_eq!(marker.text, "profile=p\ncreated=2023-11-14T22:13:20.123+00:00\n");
    assert_eq!(
        plan.args()[..4],
        ["-caf", "/d/backups/p/20231114-221320-manual-.tar.zst", "-C", "/d/profiles"]
    );
    assert_eq!(plan.args().len(), 6);
    let listing = plan.members.join("\n");
    assert!(validate_restore_archive(&listing, "p").is_ok());

    let none = ProfileFacts { is_dir: false, has_upper: true, has_saves: true };
    let error = create(&paths(), "p", "x", &none, NOW).unwrap_err();
    assert_eq!(error.message("/d/profiles/p"), "profile state does not exist: /d/profiles/p");
    let far = Timestamp { seconds: i64::MAX, nanos: 0 };
    assert_eq!(create(&paths(), "p", "x", &facts, far).unwrap_err(), BackupError::NoDate);
}

#[test]
fn backups_of_saves_carry_milliseconds() {
    let plan = create_save_set(&paths(), "s", "before-attach", true, NOW).unwrap();
    assert_eq!(
        plan.archive,
        "/d/backups/save-sets/s/20231114-221320.123-before-attach.tar.zst"
    );
    assert_eq!(plan.base, "/d/save-sets");
    assert_eq!(plan.members, vec!["s"]);
    assert_eq!(plan.keep, 20);
    assert!(plan.marker.is_none());
    let error = create_save_set(&paths(), "s", "x", false, NOW).unwrap_err();
    assert_eq!(error.message("/d/save-sets/s"), "managed save set does not exist: /d/save-sets/s");

    let source = steam_save_dir(&game());
    let plan = create_steam_saves(&paths(), &source, "x", true, NOW).unwrap();
    assert_eq!(plan.members, vec!["Cyberpunk 2077"]);
    assert_eq!(format!("{}/Cyberpunk 2077", plan.base), source);
    assert_eq!(plan.directory, "/d/backups/steam-saves");
    let error = create_steam_saves(&paths(), "/", "x", true, NOW).unwrap_err();
    assert_eq!(error, BackupError::NoParent);
    let error = create_steam_saves(&paths(), "/a/..", "x", true, NOW).unwrap_err();
    assert_eq!(error, BackupError::NoName);
    let error = create_steam_saves(&paths(), &source, "x", false, NOW).unwrap_err();
    assert_eq!(error, BackupError::NoSteamSaves);
}

#[test]
fn the_newest_backups_are_kept() {
    let files: Vec<String> = ["b/2.tar.zst", "b/3.tar.zst", "b/1.tar.zst", "b/notes.txt"]
        .iter()
        .map(|text| text.to_string())
        .collect();
    assert_eq!(
        list(&Some(files.clone())),
        vec!["b/3.tar.zst", "b/2.tar.zst", "b/1.tar.zst"]
    );
    assert!(list(&None).is_empty());
    assert_eq!(prune(files.clone(), 2), vec!["b/2.tar.zst", "b/1.tar.zst"]);
    assert_eq!(prune(files.clone(), 0).len(), 4);
    assert!(prune(files, 9).is_empty());
}

#[test]
fn restores_stay_in_their_profile() {
    assert_eq!(validate_restore_archive("", "p").unwrap_err(), RestoreError::Empty);
    assert_eq!(validate_restore_archive("/p/a\n", "p").unwrap_err(), RestoreError::Absolute);
    assert_eq!(validate_restore_archive("p/../q\n", "p").unwrap_err(), RestoreError::Traversal);
    assert_eq!(validate_restore_archive("p/a\nq/b\n", "p").unwrap_err(), RestoreError::OtherProfile);
    assert_eq!(validate_restore_archive("pp/a\n", "p").unwrap_err(), RestoreError::OtherProfile);
    assert!(validate_restore_archive("p/\np/a\n", "p").is_ok());
    assert_eq!(
        check_archive(false, "/d/backups/p/a", "/d/backups").unwrap_err(),
        RestoreError::Missing
    );
    assert_eq!(
        check_archive(true, "/tmp/a", "/d/backups").unwrap_err().message(),
        "refusing to restore an archive outside the managed backup directory"
    );
    let mut facts = RestoreFacts {
        is_file: true,
        archive: "/d/backups/p/a.tar.zst".into(),
        backup_root: "/d/backups".into(),
        listing: "p/backup-marker.txt\n".into(),
        has_state: true,
    };
    let plan = restore(&paths(), "p", &facts).unwrap();
    assert_eq!(plan.backup_first.as_deref(), Some("pre-restore"));
    assert_eq!(plan.args, vec!["-xf", "/d/backups/p/a.tar.zst", "-C", "/d/profiles"]);
    facts.has_state = false;
    assert_eq!(restore(&paths(), "p", &facts).unwrap().backup_first, None);
    assert_eq!(restore(&paths(), "q", &facts).unwrap_err(), RestoreError::OtherProfile);
    assert_eq!(command_failed("restore failed: ", " no space\n"), "restore failed: no space");
}
