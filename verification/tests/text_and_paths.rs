//! Text and paths, held against what the standard library does with them.
use std::path::{Component, Path};

use cp2077_mod_tui::order::{add_text, sort, text_before, ByText};
use cp2077_mod_tui::path::{
    components, extension, file_name, file_stem, is_absolute, join, parent, path_before, same_path,
    starts_with, ByPath, PathPart,
};
use cp2077_mod_tui::paths::{AppPaths, BaseDirs, APP_ID};
use cp2077_mod_tui::text::{
    begins_with, char_is_white, decimal_signed_text, decimal_text, finishes_with, has_piece, has_text,
    join_texts, replace_text, same_ignoring_case, split_lines, split_text, split_words, to_lower, trim,
    trim_start, CharClass,
};
use cp2077_mod_tui::text_map::TextMap;

const TEXTS: [&str; 14] = [
    "",
    " ",
    "a",
    "a b  c",
    "\tNight  City\n",
    "Größe ÄÖÜ",
    "one\ntwo\r\nthree",
    "one\n\ntwo\n",
    "\r\n",
    "a,b,,c,",
    "aaaa",
    "V’s \u{3000} journal",
    "no newline\r",
    "'quoted'",
];

const PATHS: [&str; 22] = [
    "",
    "/",
    "//",
    ".",
    "./",
    "..",
    "/..",
    "a",
    "a/",
    "a/b",
    "a//b/",
    "./a",
    "a/./b",
    "a/.",
    "a/..",
    "/a",
    "//a",
    "/a/./b/.",
    "../../etc/passwd",
    "archive/pc/mod/foo.archive.xl",
    ".hidden",
    "dir.d/noext.",
];

fn owned(list: &[&str]) -> Vec<String> {
    list.iter().map(|text| text.to_string()).collect()
}

#[test]
fn text_operations_agree_with_the_standard_library() {
    for text in TEXTS {
        assert_eq!(to_lower(text), text.to_ascii_lowercase());
        assert_eq!(split_lines(text), owned(&text.lines().collect::<Vec<_>>()));
        assert_eq!(split_words(text), owned(&text.split_whitespace().collect::<Vec<_>>()));
        assert_eq!(split_text(text, ','), owned(&text.split(',').collect::<Vec<_>>()));
        assert_eq!(trim(text, &CharClass::White), text.trim());
        assert_eq!(trim_start(text, &CharClass::White), text.trim_start());
        assert_eq!(trim(text, &CharClass::Quote), text.trim_matches(|c| c == '\'' || c == '"'));
        assert_eq!(trim(text, &CharClass::Only('a')), text.trim_matches('a'));
        for other in TEXTS {
            assert_eq!(begins_with(text, other), text.starts_with(other));
            assert_eq!(finishes_with(text, other), text.ends_with(other));
            assert_eq!(has_piece(text, other), text.contains(other));
            assert_eq!(same_ignoring_case(text, other), text.eq_ignore_ascii_case(other));
            assert_eq!(text_before(text, other), text < other);
            if !other.is_empty() {
                assert_eq!(replace_text(text, other, "<>"), text.replace(other, "<>"));
            }
        }
    }
    assert_eq!(replace_text("aaa", "aa", "b"), "ba");
}

#[test]
fn white_space_is_that_of_unicode() {
    for number in 0..=0x10ffff_u32 {
        if let Some(c) = char::from_u32(number) {
            assert_eq!(char_is_white(c), c.is_whitespace(), "{number:x}");
        }
    }
}

#[test]
fn numbers_are_written_in_decimal() {
    assert_eq!(decimal_text(0), "0");
    assert_eq!(decimal_text(1090), "1090");
    assert_eq!(decimal_text(u128::MAX), u128::MAX.to_string());
    assert_eq!(decimal_signed_text(-10), "-10");
    assert_eq!(decimal_signed_text(i64::MIN), i64::MIN.to_string());
    assert_eq!(decimal_signed_text(i64::MAX), i64::MAX.to_string());
}

#[test]
fn lists_are_joined_and_searched() {
    let list = owned(&["a", "", "c"]);
    assert_eq!(join_texts(&list, ", "), list.join(", "));
    assert_eq!(join_texts(&Vec::new(), ", "), "");
    assert!(has_text(&list, "c"));
    assert!(!has_text(&list, "C"));
}

#[test]
fn path_operations_agree_with_the_standard_library() {
    for text in PATHS {
        let path = Path::new(text);
        let expected: Vec<String> = path
            .components()
            .map(|part| match part {
                Component::RootDir => "/".to_string(),
                Component::CurDir => ".".to_string(),
                Component::ParentDir => "..".to_string(),
                other => other.as_os_str().to_str().unwrap().to_string(),
            })
            .collect();
        let found: Vec<String> = components(text)
            .into_iter()
            .map(|part| match part {
                PathPart::Root => "/".to_string(),
                PathPart::Current => ".".to_string(),
                PathPart::Parent => "..".to_string(),
                PathPart::Name(name) => name,
            })
            .collect();
        assert_eq!(found, expected, "{text}");
        assert_eq!(is_absolute(text), path.is_absolute(), "{text}");
        assert_eq!(
            file_name(text).as_deref(),
            path.file_name().and_then(|name| name.to_str()),
            "{text}"
        );
        assert_eq!(
            extension(text).as_deref(),
            path.extension().and_then(|name| name.to_str()),
            "{text}"
        );
        assert_eq!(
            file_stem(text).as_deref(),
            path.file_stem().and_then(|name| name.to_str()),
            "{text}"
        );
        assert_eq!(
            parent(text).as_deref(),
            path.parent().map(|above| above.to_str().unwrap()),
            "{text}"
        );
        for more in PATHS {
            let other = Path::new(more);
            assert_eq!(join(text, more), path.join(other).to_str().unwrap(), "{text} {more}");
            assert_eq!(starts_with(text, more), path.starts_with(other), "{text} {more}");
            assert_eq!(same_path(text, more), path == other, "{text} {more}");
            assert_eq!(path_before(text, more), path < other, "{text} {more}");
        }
    }
}

#[test]
fn sorting_keeps_ties_in_place() {
    let sorted = sort::<String, ByText>(owned(&["b", "a", "c", "a"]));
    assert_eq!(sorted, owned(&["a", "a", "b", "c"]));
    let sorted = sort::<String, ByPath>(owned(&["b/", "a/z", "b", "a.x", "/"]));
    assert_eq!(sorted, owned(&["/", "a/z", "a.x", "b/", "b"]));
}

#[test]
fn ascending_lists_hold_each_text_once() {
    let mut list: Vec<String> = Vec::new();
    for text in ["redscript", "archivexl", "redscript", "codeware"] {
        add_text(&mut list, text.to_string());
    }
    assert_eq!(list, owned(&["archivexl", "codeware", "redscript"]));
}

#[test]
fn maps_of_texts_keep_the_last_value() {
    let mut map = TextMap::new();
    map.insert("b", "1");
    map.insert("a", "2");
    map.insert("b", "3");
    assert_eq!(map.get("b").as_deref(), Some("3"));
    assert_eq!(map.get("c"), None);
    let pairs: Vec<(String, String)> = map.copy().pairs();
    assert_eq!(
        pairs,
        vec![("a".to_string(), "2".to_string()), ("b".to_string(), "3".to_string())]
    );
}

#[test]
fn directories_follow_the_environment() {
    let mut base = BaseDirs {
        home: Some("/home/v".into()),
        config_home: None,
        data_home: None,
        cache_home: Some("/cache".into()),
        runtime_dir: None,
    };
    let paths = AppPaths::discover(&base).unwrap();
    assert_eq!(paths.config_dir, "/home/v/.config/cp2077-mod-tui");
    assert_eq!(paths.data_dir, "/home/v/.local/share/cp2077-mod-tui");
    assert_eq!(paths.cache_dir, format!("/cache/{APP_ID}"));
    assert_eq!(
        paths.runtime_dir,
        "/home/v/.local/share/cp2077-mod-tui/runtime/cp2077-mod-tui"
    );
    assert_eq!(paths.db_path(), "/home/v/.local/share/cp2077-mod-tui/library.sqlite3");
    assert_eq!(paths.config_path(), "/home/v/.config/cp2077-mod-tui/config.toml");
    assert_eq!(paths.ensure().len(), 9);
    assert_eq!(
        paths.save_set_dir("set"),
        "/home/v/.local/share/cp2077-mod-tui/save-sets/set"
    );
    assert_eq!(
        paths.profile_dir("p"),
        "/home/v/.local/share/cp2077-mod-tui/profiles/p"
    );
    assert!(paths.is_managed_path("/cache/cp2077-mod-tui/downloads"));
    assert!(!paths.is_managed_path("/cache/cp2077-mod-tui2"));
    assert!(!paths.is_managed_path("/steam/game"));
    base.home = None;
    assert!(AppPaths::discover(&base).is_none());
}
