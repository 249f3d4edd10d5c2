//! How mods come into the library.
use cp2077_mod_tui::import::{
    archive_extension, archive_place, check_destination, check_source, collect_files, detect_framework,
    detect_kind, find_effective_root, import, plan_import, plan_layer, plan_layer_named, redmod_name,
    safe_component, slash_form, validate_archive_listing, validate_extracted_tree,
    validate_relative_path, ImportFacts, ImportOptions, InfoFile, ItemKind, LayerPlan, RawEntry,
    RootStep, TreeItem,
};
use cp2077_mod_tui::inbox::{default_directory, is_supported_archive, scan, CandidateKind, InboxEntry};
use cp2077_mod_tui::models::{ModKind, ModRelease, Timestamp};
use cp2077_mod_tui::paths::AppPaths;

const NOW: Timestamp = Timestamp { seconds: 1_700_000_000, nanos: 0 };

fn paths() -> AppPaths {
    AppPaths {
        config_dir: "/c".into(),
        data_dir: "/d".into(),
        cache_dir: "/k".into(),
        runtime_dir: "/r".into(),
    }
}

fn directory(name: &str) -> RawEntry {
    RawEntry { name: name.into(), is_dir: true, is_file: false, has_info: false }
}

fn plain_file(name: &str) -> RawEntry {
    RawEntry { name: name.into(), is_dir: false, is_file: true, has_info: false }
}

#[test]
fn rejects_traversal() {
    assert!(validate_relative_path("../../etc/passwd").is_err());
    assert!(validate_relative_path("/etc/passwd").is_err());
    assert!(validate_relative_path("archive/pc/mod/a.archive").is_ok());
}

#[test]
fn classifies_redmod_and_legacy() {
    assert_eq!(detect_kind(&["mods/foo/info.json".into()], false), ModKind::Redmod);
    assert_eq!(
        detect_kind(&["mods/foo/info.json".into(), "r6/scripts/foo.reds".into()], false),
        ModKind::Mixed
    );
}

#[test]
fn finds_wrapped_game_root() {
    match find_effective_root(0, "/tmp/x", &[directory("foo-1.0")]) {
        RootStep::Into(0) => {}
        other => panic!("{other:?}"),
    }
    match find_effective_root(1, "/tmp/x/foo-1.0", &[directory("archive")]) {
        RootStep::Found => {}
        other => panic!("{other:?}"),
    }
    match find_effective_root(0, "/tmp/x", &[directory("one"), directory("two")]) {
        RootStep::Failed(error) => assert!(error.message().contains("/tmp/x")),
        other => panic!("{other:?}"),
    }
    match find_effective_root(0, "/tmp/x", &[directory("one"), plain_file("readme.txt")]) {
        RootStep::Failed(_) => {}
        other => panic!("{other:?}"),
    }
    match find_effective_root(6, "/tmp/x", &[directory("archive")]) {
        RootStep::Failed(_) => {}
        other => panic!("{other:?}"),
    }
}

#[test]
fn listings_of_archives_are_checked() {
    assert!(validate_archive_listing("archive/\narchive/pc/mod/a.archive\n").is_ok());
    assert!(validate_archive_listing("").is_err());
    assert!(validate_archive_listing("a\n../b\n").is_err());
    assert!(validate_archive_listing("a\n/b\n").unwrap_err().message().contains("/b"));
}

#[test]
fn trees_with_links_are_refused() {
    let file = |path: &str, kind: ItemKind, size: u64| TreeItem {
        relative_path: path.into(),
        kind,
        size,
    };
    assert!(validate_extracted_tree(&[
        file("r6", ItemKind::Directory, 0),
        file("r6/a.reds", ItemKind::File, 10),
    ])
    .is_ok());
    assert!(validate_extracted_tree(&[file("x", ItemKind::SymbolicLink, 0)]).is_err());
    assert!(validate_extracted_tree(&[file("x", ItemKind::Special, 0)]).is_err());
    assert!(validate_extracted_tree(&[file("x", ItemKind::File, u64::MAX)]).is_err());
}

#[test]
fn names_become_safe_components() {
    assert_eq!(safe_component("My Mod: 2077!"), safe_component(&safe_component("My Mod: 2077!")));
    assert!(!safe_component("a/b").contains('/'));
    assert!(!safe_component("").is_empty());
}

#[test]
fn redmods_are_recognised_by_their_info() {
    let info = InfoFile::Text("{\"name\": \"Cool Mod\", \"version\": \"1\"}".into());
    assert_eq!(redmod_name(&info).as_deref(), Some("Cool Mod"));
    assert_eq!(redmod_name(&InfoFile::Text("{\"name\": 3}".into())), None);
    assert_eq!(redmod_name(&InfoFile::Text("not json".into())), None);
    assert_eq!(redmod_name(&InfoFile::Absent), None);
    match plan_layer(&info, &[]) {
        LayerPlan::Redmod(place) => {
            assert_eq!(place, format!("mods/{}", safe_component("Cool Mod")))
        }
        other => panic!("{other:?}"),
    }
    let mut one = directory("CoolMod");
    one.has_info = true;
    match plan_layer(&InfoFile::Absent, &[one]) {
        LayerPlan::RedmodDirs => {}
        other => panic!("{other:?}"),
    }
    match plan_layer_named(false, &None, &[directory("archive")]) {
        LayerPlan::GameTree => {}
        other => panic!("{other:?}"),
    }
    match plan_layer_named(true, &None, &[]) {
        LayerPlan::Redmod(place) => assert_eq!(place, "mods/ImportedREDmod"),
        other => panic!("{other:?}"),
    }
}

fn facts<'a>(
    source: &'a str,
    relative_paths: &'a Vec<String>,
    mods: &'a Vec<ModRelease>,
) -> ImportFacts<'a> {
    ImportFacts { source, relative_paths, archive_sha256: "abc", now: NOW, mods }
}

#[test]
fn an_import_is_put_on_record() {
    let files = vec!["r6/scripts/example.reds".to_string()];
    let mods = Vec::new();
    let options = ImportOptions { name: Some("Example".into()), version: "1.0".into() };
    let plan = plan_import(&paths(), &facts("/in/source", &files, &mods), options, "fresh".into())
        .unwrap();
    assert_eq!(plan.release.id, "fresh");
    assert_eq!(plan.release.name, "Example");
    assert_eq!(plan.release.version, "1.0");
    assert_eq!(plan.release.kind, ModKind::Legacy);
    assert_eq!(plan.release.source, "/in/source");
    assert_eq!(plan.release.installed_at, NOW);
    assert!(plan.release.layer_path.starts_with("/d/releases/"));
    assert!(plan
        .dependencies
        .iter()
        .any(|dependency| dependency.requires_id == "redscript" && dependency.inferred));
    assert!(check_destination(&plan, false).is_ok());
    assert!(check_destination(&plan, true).is_err());
}

#[test]
fn imports_go_into_managed_storage() {
    let files = vec!["r6/scripts/example.reds".to_string()];
    let mods = Vec::new();
    let options = ImportOptions { name: None, version: "1.0 beta/2".into() };
    let release = import(&paths(), &facts("/in/source", &files, &mods), options).unwrap().release;
    assert_eq!(release.layer_path, format!("/d/releases/{}/1.0_beta_2", release.id));
}

#[test]
fn an_import_gets_a_fresh_id() {
    let files = vec!["archive/pc/mod/a.archive".to_string()];
    let mods = Vec::new();
    let first = import(&paths(), &facts("/in/a.zip", &files, &mods), ImportOptions::default());
    let second = import(&paths(), &facts("/in/a.zip", &files, &mods), ImportOptions::default());
    let (first, second) = (first.unwrap().release, second.unwrap().release);
    assert_eq!(first.id.len(), 36);
    assert_ne!(first.id, second.id);
    assert_eq!(first.name, "a");
    assert_eq!(first.version, "unknown");
}

#[test]
fn imports_without_files_are_refused() {
    let files = Vec::new();
    let mods = Vec::new();
    let refused = import(&paths(), &facts("/in/a.zip", &files, &mods), ImportOptions::default());
    assert!(refused.is_err());
    assert!(check_source("/in/a.zip", true).is_ok());
    assert!(check_source("/in/a.zip", false).unwrap_err().message().contains("/in/a.zip"));
}

#[test]
fn frameworks_are_detected_by_their_files() {
    let files: Vec<String> = collect_files(vec![
        "red4ext/RED4ext.dll".into(),
        "bin/x64/winmm.dll".into(),
    ]);
    assert_eq!(files[0], "bin/x64/winmm.dll");
    let framework = detect_framework(&files).unwrap();
    assert_eq!(framework.id, "red4ext");
    assert_eq!(detect_kind(&files, true), ModKind::Framework);
    assert!(detect_framework(&["archive/pc/mod/a.archive".to_string()]).is_none());
}

#[test]
fn archives_are_kept_under_their_digest() {
    assert_eq!(archive_extension("/in/Mod.ZIP"), archive_extension("/in/other.ZIP"));
    assert!(archive_place(&paths(), "abc", "zip").starts_with("/d/archives/"));
    assert_eq!(slash_form("a\\b"), "a/b");
}

fn found(path: &str, is_dir: bool) -> InboxEntry {
    InboxEntry { path: path.into(), is_dir, is_file: !is_dir }
}

#[test]
fn scans_directories_and_supported_archives_only() {
    let candidates = scan(vec![
        found("/in/Extracted Mod", true),
        found("/in/packed.zip", false),
        found("/in/notes.txt", false),
    ]);
    assert_eq!(candidates.len(), 2);
    assert_eq!(candidates[0].kind, CandidateKind::Directory);
    assert_eq!(candidates[1].kind, CandidateKind::Archive);
}

#[test]
fn inbox_lists_directories_and_archives() {
    let candidates = scan(vec![
        found("/in/packed.zip", false),
        found("/in/notes.txt", false),
        found("/in/Extracted Mod", true),
    ]);
    assert_eq!(candidates.len(), 2);
    assert_eq!(candidates[0].path, "/in/Extracted Mod");
    assert_eq!(candidates[0].kind, CandidateKind::Directory);
    assert_eq!(candidates[1].kind, CandidateKind::Archive);
    assert!(is_supported_archive("/in/a.7Z"));
    assert!(!is_supported_archive("/in/zip"));
    assert!(default_directory("/here").starts_with("/here"));
}
