//! Finding the game in the libraries of Steam.
use cp2077_mod_tui::digest::short_digest;
use cp2077_mod_tui::steam::{
    discover, executable_path, folders_path, found_game, game_root, is_writable, libraries,
    manifest_path, parent_mount_is_rw, path_set, quoted_values, root_places, steam_roots, vdf_value,
    vdf_values, LibraryFacts, SteamRoot, CYBERPUNK_APP_ID,
};

#[test]
fn parses_vdf_values_and_escapes() {
    let input = r#"
            "path" "/mnt/Games/SteamLibrary"
            "installdir" "Cyberpunk 2077"
            "path" "D:\\Steam"
        "#;
    assert_eq!(
        vdf_values(input, "path"),
        vec!["/mnt/Games/SteamLibrary", "D:\\Steam"]
    );
    assert_eq!(
        vdf_value(input, "installdir").as_deref(),
        Some("Cyberpunk 2077")
    );
}

#[test]
fn quoted_values_follow_their_marks() {
    assert_eq!(quoted_values("\"a\" \"b\\\"c\\\\\""), vec!["a", "b\"c\\"]);
    assert_eq!(quoted_values("\"open"), Vec::<String>::new());
    assert_eq!(quoted_values("\"a\" \"open\\"), vec!["a"]);
    assert_eq!(quoted_values("x \\\"a\" \"b\""), vec!["a", "b"]);
    assert_eq!(quoted_values("\"\""), vec![""]);
    assert_eq!(vdf_value("\"PATH\" \"/x\"", "path").as_deref(), Some("/x"));
    assert_eq!(vdf_value("\"path\"", "path"), None);
}

fn owned(list: &[&str]) -> Vec<String> {
    list.iter().map(|text| text.to_string()).collect()
}

#[test]
fn places_are_kept_once_and_in_order() {
    assert_eq!(
        path_set(&owned(&["/b", "/a/x", "/b/", "/a", "/a//x"])),
        owned(&["/a", "/a/x", "/b"])
    );
    let places = root_places(&Some("/home/v".to_string()));
    assert_eq!(places[0], "/home/v/.local/share/Steam");
    assert!(root_places(&None).is_empty());
    assert_eq!(
        steam_roots(&places, &vec![true, false, true]),
        owned(&[
            "/home/v/.local/share/Steam",
            "/home/v/.var/app/com.valvesoftware.Steam/data/Steam",
        ])
    );
}

#[test]
fn libraries_are_gathered_from_all_roots() {
    let roots = vec![
        SteamRoot {
            path: "/s".into(),
            folders: Some("\"path\" \"/mnt/lib\"\n\"path\" \"/s\"\n\"path\" \"D:\\\\\\\\x\"".into()),
        },
        SteamRoot { path: "/a".into(), folders: None },
    ];
    assert_eq!(libraries(&roots), owned(&["/a", "/mnt/lib", "/s", "D:\\x"]));
    assert_eq!(folders_path("/s"), "/s/steamapps/libraryfolders.vdf");
    assert_eq!(
        manifest_path("/s"),
        format!("/s/steamapps/appmanifest_{CYBERPUNK_APP_ID}.acf")
    );
    assert_eq!(game_root("/s", ""), "/s/steamapps/common/Cyberpunk 2077");
    assert_eq!(game_root("/s", "\"installdir\" \"CP\""), "/s/steamapps/common/CP");
    assert_eq!(executable_path("/g"), "/g/bin/x64/Cyberpunk2077.exe");
}

const MOUNTS: &str = "22 1 0:21 / / ro,relatime shared:1 - ext4 /dev/a ro
30 22 0:30 / /mnt rw,relatime shared:2 - ext4 /dev/b rw
31 30 0:31 / /mnt/My\\040Games ro,noatime shared:3 - ext4 /dev/c ro
short line
32 30 0:32 / /mnt rw shared:4 - ext4 /dev/d rw
";

#[test]
fn the_deepest_mount_decides() {
    let mounts = Some(MOUNTS.to_string());
    assert!(!parent_mount_is_rw(&mounts, "/opt/game"));
    assert!(parent_mount_is_rw(&mounts, "/mnt/game"));
    assert!(parent_mount_is_rw(&mounts, "/mnt/My"));
    assert!(!parent_mount_is_rw(&mounts, "/mnt/My Games/x"));
    assert!(parent_mount_is_rw(&None, "/anything"));
    assert!(parent_mount_is_rw(&Some(String::new()), "/anything"));
    assert!(!is_writable(false, &mounts, "/mnt/game"));
    assert!(is_writable(true, &mounts, "/mnt/game"));
}

fn facts(library: &str, canonical: Option<&str>) -> LibraryFacts {
    LibraryFacts {
        library: library.into(),
        manifest: Some("\"buildid\" \"77\"\n\"2138330\"\n{\n".into()),
        executable: true,
        canonical: canonical.map(|text| text.to_string()),
        expansion: false,
        redmod: true,
        mode_allows: true,
        mounts: None,
    }
}

#[test]
fn games_are_found_once_and_in_order() {
    let game = found_game(&facts("/s", Some("/real"))).unwrap();
    assert_eq!(game.root, "/real");
    assert_eq!(game.id, short_digest(b"/real"));
    assert_eq!(game.build_id, "77");
    assert!(game.phantom_liberty);
    assert!(game.writable);
    let mut without = facts("/s", None);
    without.manifest = Some("".into());
    let plain = found_game(&without).unwrap();
    assert_eq!(plain.root, "/s/steamapps/common/Cyberpunk 2077");
    assert_eq!(plain.build_id, "unknown");
    assert!(!plain.phantom_liberty);
    without.executable = false;
    assert!(found_game(&without).is_none());
    let mut empty = facts("/t", None);
    empty.manifest = None;
    let found = discover(&vec![
        facts("/z", Some("/real/two")),
        facts("/b", Some("/real")),
        empty,
        facts("/a", Some("/real/")),
    ]);
    let roots: Vec<&str> = found.iter().map(|game| game.root.as_str()).collect();
    assert_eq!(roots, vec!["/real", "/real/two"]);
    assert_eq!(found[0].library, "/b");
}
