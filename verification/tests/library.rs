//! Mods, their dependencies and the loadouts that are made of them.
use cp2077_mod_tui::catalog::{
    accept_download, choose_asset, dependencies, digest_agrees, download_agrees, fetch, find_framework,
    frameworks, infer_requirements, is_installed, matching_releases, metadata_path, metadata_url,
    plan_download, requirement_label, ReleaseAsset,
};
use cp2077_mod_tui::deps::resolve;
use cp2077_mod_tui::digest::{sha256_hex, short_digest};
use cp2077_mod_tui::loadout::{
    conflicts_for_profile, index_places, materialize, revision_dir, verify_index, IndexedFile,
    LoadoutTables,
};
use cp2077_mod_tui::models::{
    Dependency, FileOwner, LoadoutEntry, ModKind, ModRelease, Timestamp,
};
use cp2077_mod_tui::paths::AppPaths;

const NOW: Timestamp = Timestamp { seconds: 1_700_000_000, nanos: 0 };

fn paths() -> AppPaths {
    AppPaths {
        config_dir: "/c".into(),
        data_dir: "/d".into(),
        cache_dir: "/k".into(),
        runtime_dir: "/r".into(),
    }
}

fn entry(id: &str, enabled: bool) -> LoadoutEntry {
    LoadoutEntry {
        profile_id: "p".into(),
        mod_id: id.into(),
        priority: 0,
        requested_enabled: enabled,
    }
}

fn needs(id: &str, requires: &str) -> Dependency {
    Dependency { mod_id: id.into(), requires_id: requires.into(), inferred: false }
}

fn release(id: &str, name: &str) -> ModRelease {
    ModRelease {
        id: id.into(),
        name: name.into(),
        version: "1.0".into(),
        kind: ModKind::Legacy,
        archive_sha256: format!("sha-{id}"),
        layer_path: format!("/layers/{id}"),
        source: format!("/inbox/{id}.zip"),
        installed_at: NOW,
    }
}

fn file(id: &str, path: &str) -> FileOwner {
    FileOwner { mod_id: id.into(), relative_path: path.into(), sha256: "x".into(), size: 1 }
}

#[test]
fn infers_high_confidence_dependencies() {
    let result = infer_requirements(&[
        "bin/x64/plugins/cyber_engine_tweaks/mods/foo/init.lua".into(),
        "r6/scripts/foo.reds".into(),
        "archive/pc/mod/foo.archive.xl".into(),
    ]);
    assert_eq!(result, vec!["archivexl", "cyber-engine-tweaks", "redscript"]);
}

#[test]
fn matches_frameworks_by_stable_id_or_name() {
    let uuid_copy = ModRelease {
        id: "not-redscript".into(),
        name: "redscript".into(),
        version: "1.0".into(),
        kind: ModKind::Framework,
        archive_sha256: "abc".into(),
        layer_path: "/tmp/layer".into(),
        source: "/tmp/src".into(),
        installed_at: NOW,
    };
    let all = frameworks();
    let framework = all.iter().find(|item| item.id == "redscript").unwrap();
    assert!(is_installed(std::slice::from_ref(&uuid_copy), framework));
    assert_eq!(matching_releases(&[uuid_copy], framework).len(), 1);
}

#[test]
fn cascade_disables_but_preserves_request() {
    let entries = vec![entry("red4ext", false), entry("archivexl", true)];
    let deps = vec![Dependency {
        mod_id: "archivexl".into(),
        requires_id: "red4ext".into(),
        inferred: false,
    }];
    let result = resolve(&entries, &deps);
    assert!(!result[1].effective_enabled);
    assert!(result[1].entry.requested_enabled);
    assert!(result[1].disabled_reason.as_deref().unwrap().contains("red4ext"));
}

#[test]
fn reports_cycles() {
    let entries = vec![entry("a", true), entry("b", true)];
    let deps = vec![
        Dependency { mod_id: "a".into(), requires_id: "b".into(), inferred: false },
        Dependency { mod_id: "b".into(), requires_id: "a".into(), inferred: false },
    ];
    assert!(resolve(&entries, &deps).iter().all(|entry| !entry.effective_enabled));
}

#[test]
fn chains_of_requirements_are_named_in_the_reason() {
    let entries = vec![entry("a", true), entry("b", true), entry("c", false), entry("d", true)];
    let deps = vec![needs("a", "b"), needs("b", "c")];
    let result = resolve(&entries, &deps);
    assert_eq!(
        result[1].disabled_reason.as_deref(),
        Some("requires disabled or missing c")
    );
    assert_eq!(
        result[0].disabled_reason.as_deref(),
        Some("requires b: requires disabled or missing c")
    );
    assert_eq!(result[2].disabled_reason.as_deref(), Some("disabled by user"));
    assert!(!result[2].effective_enabled);
    assert!(result[3].effective_enabled);
}

#[test]
fn enabled_mods_have_all_that_they_need() {
    let entries = vec![entry("a", true), entry("b", true), entry("c", true)];
    let deps = vec![needs("a", "b"), needs("b", "c"), needs("a", "c")];
    let result = resolve(&entries, &deps);
    assert!(result.iter().all(|entry| entry.effective_enabled));
    assert!(result.iter().all(|entry| entry.disabled_reason.is_none()));
}

#[test]
fn digests_are_those_of_sha_256() {
    assert_eq!(
        sha256_hex(b"abc"),
        "ba7816bf8f01cfea414140de5dae2223b00361a396177a9cb410ff61f20015ad"
    );
    assert_eq!(short_digest(b"abc"), "ba7816bf8f01cfea414140de");
    assert_eq!(
        sha256_hex(b""),
        "e3b0c44298fc1c149afbf4c8996fb92427ae41e4649b934ca495991b7852b855"
    );
}

#[test]
fn requirements_are_named_after_frameworks() {
    assert_eq!(requirement_label("cyber-engine-tweaks"), "Cyber Engine Tweaks");
    assert_eq!(requirement_label("some-mod"), "some-mod");
    let table = dependencies();
    let all = frameworks();
    assert_eq!(table.len(), all.len());
    for framework in &all {
        let row = table.iter().find(|row| row.0 == framework.id).unwrap();
        assert_eq!(row.1, framework.requires);
    }
}

#[test]
fn unknown_frameworks_are_not_fetched() {
    assert!(find_framework("redscript").is_some());
    let error = fetch("nope").unwrap_err();
    assert_eq!(error.message(), "unknown framework nope");
    assert_eq!(fetch("redscript").unwrap().id, "redscript");
}

fn asset(name: &str, digest: Option<&str>) -> ReleaseAsset {
    ReleaseAsset {
        name: name.into(),
        download_url: format!("https://example.invalid/{name}"),
        digest: digest.map(|text| text.to_string()),
    }
}

#[test]
fn downloads_are_planned_and_checked() {
    let framework = find_framework("redscript").unwrap();
    let good = "sha256:ba7816bf8f01cfea414140de5dae2223b00361a396177a9cb410ff61f20015ad";
    let assets = vec![asset("notes.txt", None), asset("redscript-mod-v1.zip", Some(good))];
    let chosen = choose_asset("redscript", &assets);
    assert_eq!(chosen, Some(1));
    let plan = plan_download(&paths(), &framework, "v1", &assets).unwrap();
    assert_eq!(plan.asset, 1);
    assert_eq!(plan.downloaded.version, "1");
    assert!(plan.downloaded.path.ends_with("redscript-mod-v1.zip"));
    assert!(accept_download(&assets[1], b"abc").is_ok());
    let refused = accept_download(&assets[1], b"abd").unwrap_err();
    assert!(refused.message().contains("redscript-mod-v1.zip"));
    assert!(plan_download(&paths(), &framework, "v1", &assets[..1]).is_err());
    assert!(digest_agrees(&None, "anything"));
    assert!(download_agrees(&Some(good.to_string()), b"abc"));
    assert!(!download_agrees(&Some(good.to_string()), b"abcd"));
    assert!(metadata_url(&framework).contains(framework.repository));
    assert!(metadata_path(&paths(), "redscript").starts_with("/k/"));
}

#[test]
fn kinds_are_read_back_from_their_names() {
    for kind in [ModKind::Legacy, ModKind::Redmod, ModKind::Framework, ModKind::Mixed] {
        assert_eq!(ModKind::parse(kind.as_str()), kind);
    }
    assert_eq!(ModKind::parse("unheard of"), ModKind::Legacy);
}

fn tables() -> LoadoutTables {
    let mut low = entry("low", true);
    low.priority = 10;
    let mut high = entry("high", true);
    high.priority = 20;
    let mut off = entry("off", false);
    off.priority = 90;
    LoadoutTables {
        entries: vec![high, low, off],
        dependencies: Vec::new(),
        mods: vec![release("low", "Low"), release("high", "High"), release("off", "Off")],
        files: vec![
            file("low", "archive/pc/mod/a.archive"),
            file("low", "r6/scripts/only.reds"),
            file("high", "archive/pc/mod/a.archive"),
            file("high", "mods/Cool/info.json"),
            file("off", "r6/scripts/only.reds"),
        ],
    }
}

#[test]
fn highest_priority_wins_a_path() {
    let (loadout, links) = materialize(&tables(), &paths(), "p").unwrap();
    assert_eq!(loadout.conflicts.len(), 1);
    assert_eq!(loadout.conflicts[0].path, "archive/pc/mod/a.archive");
    assert_eq!(loadout.conflicts[0].winner, "high");
    assert_eq!(loadout.conflicts[0].shadowed, vec!["low"]);
    assert_eq!(loadout.redmods, vec!["Cool"]);
    assert_eq!(loadout.owners.len(), 3);
    assert_eq!(links.len(), 3);
    let link = links.iter().find(|link| link.destination.ends_with("a.archive")).unwrap();
    assert_eq!(link.source, "/layers/high/archive/pc/mod/a.archive");
    assert!(loadout.layer.starts_with(&revision_dir(&paths(), "p", &loadout.revision)));
    assert_eq!(loadout.revision.len(), 24);
    assert!(links.iter().all(|link| link.destination.starts_with(&format!("{}/", loadout.layer))));
}

#[test]
fn contested_paths_list_their_claimants() {
    let tables = tables();
    let found = conflicts_for_profile(&tables.entries, &tables.dependencies, &tables.files);
    assert_eq!(found.len(), 1);
    assert_eq!(found[0].0, "archive/pc/mod/a.archive");
    assert_eq!(found[0].1, vec!["high", "low"]);
}

#[test]
fn the_first_claimant_wins_and_the_rest_are_shadowed() {
    let mut tables = tables();
    tables.entries.pop();
    for (id, priority) in [("third", 5), ("tied", 5)] {
        let mut more = entry(id, true);
        more.priority = priority;
        tables.entries.push(more);
        tables.mods.push(release(id, id));
        tables.files.push(file(id, "archive/pc/mod/a.archive"));
    }
    let conflicts = materialize(&tables, &paths(), "p").unwrap().0.conflicts;
    let found = conflicts_for_profile(&tables.entries, &tables.dependencies, &tables.files);
    assert_eq!(found.len(), conflicts.len());
    for (contested, conflict) in found.iter().zip(&conflicts) {
        assert_eq!(contested.0, conflict.path);
        assert_eq!(contested.1[0], conflict.winner);
        assert_eq!(contested.1[1..], conflict.shadowed[..]);
    }
    assert_eq!(found[0].1, vec!["high", "low", "third", "tied"]);
}

#[test]
fn a_revision_changes_with_the_loadout() {
    let first = materialize(&tables(), &paths(), "p").unwrap().0.revision;
    let mut changed = tables();
    changed.entries[0].priority = 30;
    let second = materialize(&changed, &paths(), "p").unwrap().0.revision;
    assert_ne!(first, second);
    assert_eq!(first, materialize(&tables(), &paths(), "p").unwrap().0.revision);
}

#[test]
fn a_loadout_without_its_release_is_refused() {
    let mut broken = tables();
    broken.mods.remove(0);
    let error = materialize(&broken, &paths(), "p").unwrap_err();
    assert!(error.message().contains("low"));
}

#[test]
fn missing_files_of_a_release_are_reported() {
    let files = vec![file("low", "a.archive"), file("low", "b/c.reds")];
    let places = index_places(&release("low", "Low"), &files);
    assert_eq!(places, vec!["/layers/low/a.archive", "/layers/low/b/c.reds"]);
    let good = vec![IndexedFile { relative_path: "a.archive".into(), present: true }];
    assert!(verify_index(&good).is_ok());
    let bad = vec![
        IndexedFile { relative_path: "a.archive".into(), present: true },
        IndexedFile { relative_path: "b/c.reds".into(), present: false },
    ];
    assert!(verify_index(&bad).unwrap_err().message().contains("b/c.reds"));
}
