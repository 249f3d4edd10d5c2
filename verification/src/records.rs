//! How the library looks things up and writes them down.
use vstd::prelude::*;

use crate::models::{
    kind_name, kind_named, GameInstall, LoadoutEntry, ModKind, ModRelease, Profile, SaveSet,
    Timestamp,
};
use crate::order::{ascending, finds, first_at};
use crate::outside::{
    common_era, json_list_of, json_list_text, json_object_of, json_object_text, list_json,
    moment_of, moment_text, object_json, pair_views, parse_json_list, parse_json_object,
    parse_moment, rfc3339_of,
};
use crate::text::{same_text, views};
use crate::text_map::{keys_of, TextMap};

verus! {

/// Where the game with an id stands.
pub fn game_install(games: &[GameInstall], id: &str) -> (r: Option<usize>)
    ensures
        finds(games@, |game: GameInstall| game.id@ == id@, r),
{
    let mut i: usize = 0;
    while i < games.len()
        invariant
            i <= games@.len(),
            forall|j: int| 0 <= j < i ==> (#[trigger] games@[j]).id@ != id@,
        decreases games@.len() - i,
    {
        if same_text(&games[i].id, id) {
            return Some(i);
        }
        i += 1;
    }
    None
}

/// Where the release with an id stands.
pub fn mod_release(mods: &[ModRelease], id: &str) -> (r: Option<usize>)
    ensures
        finds(mods@, |release: ModRelease| release.id@ == id@, r),
{
    let mut i: usize = 0;
    while i < mods.len()
        invariant
            i <= mods@.len(),
            forall|j: int| 0 <= j < i ==> (#[trigger] mods@[j]).id@ != id@,
        decreases mods@.len() - i,
    {
        if same_text(&mods[i].id, id) {
            return Some(i);
        }
        i += 1;
    }
    None
}

/// Where the release from an archive with a digest stands.
pub fn mod_by_archive_sha(mods: &[ModRelease], sha256: &str) -> (r: Option<usize>)
    ensures
        finds(mods@, |release: ModRelease| release.archive_sha256@ == sha256@, r),
{
    let mut i: usize = 0;
    while i < mods.len()
        invariant
            i <= mods@.len(),
            forall|j: int| 0 <= j < i ==> (#[trigger] mods@[j]).archive_sha256@ != sha256@,
        decreases mods@.len() - i,
    {
        if same_text(&mods[i].archive_sha256, sha256) {
            return Some(i);
        }
        i += 1;
    }
    None
}

/// Where the profile with an id or a name stands.
pub fn profile_by_name_or_id(profiles: &[Profile], value: &str) -> (r: Option<usize>)
    ensures
        finds(profiles@, |profile: Profile| profile.id@ == value@ || profile.name@ == value@, r),
{
    let mut i: usize = 0;
    while i < profiles.len()
        invariant
            i <= profiles@.len(),
            forall|j: int|
                0 <= j < i ==> (#[trigger] profiles@[j]).id@ != value@ && profiles@[j].name@ != value@,
        decreases profiles@.len() - i,
    {
        if same_text(&profiles[i].id, value) || same_text(&profiles[i].name, value) {
            return Some(i);
        }
        i += 1;
    }
    None
}

/// Whether the entry at `i` is the first of a mod.
pub open spec fn entry_stands(entries: Seq<LoadoutEntry>, mod_id: Seq<char>, i: int) -> bool {
    first_at(entries, |entry: LoadoutEntry| entry.mod_id@ == mod_id, i)
}

/// Where the entry of a mod stands.
pub fn entry_of_mod(entries: &[LoadoutEntry], mod_id: &str) -> (r: Option<usize>)
    ensures
        finds(entries@, |entry: LoadoutEntry| entry.mod_id@ == mod_id@, r),
{
    let mut i: usize = 0;
    while i < entries.len()
        invariant
            i <= entries@.len(),
            forall|j: int| 0 <= j < i ==> (#[trigger] entries@[j]).mod_id@ != mod_id@,
        decreases entries@.len() - i,
    {
        if same_text(&entries[i].mod_id, mod_id) {
            return Some(i);
        }
        i += 1;
    }
    None
}

/// The highest priority among entries.
pub open spec fn top_priority(entries: Seq<LoadoutEntry>) -> Option<int>
    decreases entries.len(),
{
    if entries.len() == 0 {
        None
    } else {
        let last = entries.last().priority as int;
        match top_priority(entries.drop_last()) {
            Some(top) => Some(
                if last > top {
                    last
                } else {
                    top
                },
            ),
            None => Some(last),
        }
    }
}

/// The priority of the next mod of a loadout: ten above the highest, or above zero
/// where there is none.
pub open spec fn following_priority(entries: Seq<LoadoutEntry>) -> int {
    match top_priority(entries) {
        Some(top) => top + 10,
        None => 10,
    }
}

/// Whether there is a number for the priority of the next mod.
pub open spec fn has_room(entries: Seq<LoadoutEntry>) -> bool {
    following_priority(entries) <= i64::MAX
}

fn highest(entries: &[LoadoutEntry]) -> (r: Option<i64>)
    ensures
        match r {
            Some(top) => top_priority(entries@) == Some(top as int),
            None => top_priority(entries@) is None,
        },
{
    let mut top: Option<i64> = None;
    let mut i: usize = 0;
    while i < entries.len()
        invariant
            i <= entries@.len(),
            match top {
                Some(top) => top_priority(entries@.take(i as int)) == Some(top as int),
                None => top_priority(entries@.take(i as int)) is None,
            },
        decreases entries@.len() - i,
    {
        assert(entries@.take(i + 1).drop_last() =~= entries@.take(i as int));
        let last = entries[i].priority;
        top = match top {
            Some(top) => Some(
                if last > top {
                    last
                } else {
                    top
                },
            ),
            None => Some(last),
        };
        i += 1;
    }
    assert(entries@.take(i as int) =~= entries@);
    top
}

/// Whether there is a number for the priority of the next mod.
pub fn priority_has_room(entries: &[LoadoutEntry]) -> (r: bool)
    ensures
        r == has_room(entries@),
{
    match highest(entries) {
        Some(top) => top <= 0x7fff_ffff_ffff_fff5,
        None => true,
    }
}

/// The priority of the next mod of a loadout.
pub fn next_priority(entries: &[LoadoutEntry]) -> (r: i64)
    requires
        has_room(entries@),
    ensures
        r == following_priority(entries@),
{
    match highest(entries) {
        Some(top) => top + 10,
        None => 10,
    }
}

/// The next mod of a loadout goes before all that are in it.
pub proof fn law_next_priority_is_highest(entries: Seq<LoadoutEntry>, i: int)
    requires
        0 <= i < entries.len(),
    ensures
        entries[i].priority < following_priority(entries),
    decreases entries.len(),
{
    let front = entries.drop_last();
    if i < front.len() {
        law_next_priority_is_highest(front, i);
        assert(front[i] == entries[i]);
    }
}

/// Whether an entry is the one that turns a mod of a loadout on or off: the one
/// that the mod has, or else a new one with the next priority.
pub open spec fn is_request(
    r: LoadoutEntry,
    entries: Seq<LoadoutEntry>,
    profile_id: Seq<char>,
    mod_id: Seq<char>,
    on: bool,
) -> bool {
    &&& r.requested_enabled == on
    &&& r.mod_id@ == mod_id
    &&& if exists|i: int| entry_stands(entries, mod_id, i) {
        exists|i: int| #[trigger]
            entry_stands(entries, mod_id, i) && r.priority == entries[i].priority && r.profile_id@
                == entries[i].profile_id@
    } else {
        r.priority == following_priority(entries) && r.profile_id@ == profile_id
    }
}

/// The entry that turns a mod of a loadout on or off.
pub fn request_entry(entries: &[LoadoutEntry], profile_id: &str, mod_id: &str, on: bool) -> (r:
    LoadoutEntry)
    requires
        has_room(entries@),
    ensures
        is_request(r, entries@, profile_id@, mod_id@, on),
{
    let next = next_priority(entries);
    match entry_of_mod(entries, mod_id) {
        Some(i) => {
            assert(entry_stands(entries@, mod_id@, i as int));
            LoadoutEntry {
                profile_id: entries[i].profile_id.clone(),
                mod_id: entries[i].mod_id.clone(),
                priority: entries[i].priority,
                requested_enabled: on,
            }
        },
        None => {
            assert forall|i: int| !(#[trigger] entry_stands(entries@, mod_id@, i)) by {
                if entry_stands(entries@, mod_id@, i) {
                    assert(entries@[i].mod_id@ == mod_id@);
                }
            }
            LoadoutEntry {
                profile_id: profile_id.to_owned(),
                mod_id: mod_id.to_owned(),
                priority: next,
                requested_enabled: on,
            }
        },
    }
}

/// A number of 64 bits plus another, kept in range.
pub open spec fn kept_in_range(n: int) -> int {
    if n > i64::MAX {
        i64::MAX as int
    } else if n < i64::MIN {
        i64::MIN as int
    } else {
        n
    }
}

/// The entry of a mod with its priority changed. `None` where the mod has none.
pub fn adjusted_entry(entries: &[LoadoutEntry], mod_id: &str, delta: i64) -> (r: Option<LoadoutEntry>)
    ensures
        match r {
            Some(entry) => exists|i: int| #[trigger]
                entry_stands(entries@, mod_id@, i) && entry.priority
                    == kept_in_range(entries@[i].priority + delta) && entry == (LoadoutEntry {
                    priority: entry.priority,
                    ..entries@[i]
                }),
            None => forall|i: int|
                0 <= i < entries@.len() ==> (#[trigger] entries@[i]).mod_id@ != mod_id@,
        },
{
    match entry_of_mod(entries, mod_id) {
        None => None,
        Some(i) => {
            assert(entry_stands(entries@, mod_id@, i as int));
            let mut entry = entries[i].clone();
            let wide: i128 = (entry.priority as i128) + (delta as i128);
            entry.priority = if wide > 0x7fff_ffff_ffff_ffff {
                0x7fff_ffff_ffff_ffff
            } else if wide < -0x8000_0000_0000_0000 {
                -0x8000_0000_0000_0000
            } else {
                wide as i64
            };
            Some(entry)
        },
    }
}

/// The entry of a mod with another priority. `None` where the mod has none.
pub fn prioritized_entry(entries: &[LoadoutEntry], mod_id: &str, priority: i64) -> (r: Option<
    LoadoutEntry,
>)
    ensures
        match r {
            Some(entry) => exists|i: int| #[trigger]
                entry_stands(entries@, mod_id@, i) && entry == (
                LoadoutEntry { priority, ..entries@[i] }),
            None => forall|i: int|
                0 <= i < entries@.len() ==> (#[trigger] entries@[i]).mod_id@ != mod_id@,
        },
{
    match entry_of_mod(entries, mod_id) {
        None => None,
        Some(i) => {
            assert(entry_stands(entries@, mod_id@, i as int));
            let mut entry = entries[i].clone();
            entry.priority = priority;
            Some(entry)
        },
    }
}

/// A release as it is written down.
#[derive(Debug)]
pub struct ModRow {
    pub id: String,
    pub name: String,
    pub version: String,
    pub kind: String,
    pub archive_sha256: String,
    pub layer_path: String,
    pub source: String,
    pub installed_at: String,
}

/// A moment that was written down; `now` where it cannot be read.
pub open spec fn read_moment(text: Seq<char>, now: Timestamp) -> Timestamp {
    match moment_of(text) {
        Some(at) => at,
        None => now,
    }
}

/// Reads a moment that was written down.
pub fn moment_or_now(text: &str, now: Timestamp) -> (r: Timestamp)
    ensures
        r == read_moment(text@, now),
{
    match parse_moment(text) {
        Some(at) => at,
        None => now,
    }
}

/// Whether a release is what a row says.
pub open spec fn is_read_release(release: ModRelease, row: ModRow, now: Timestamp) -> bool {
    &&& release.id@ == row.id@
    &&& release.name@ == row.name@
    &&& release.version@ == row.version@
    &&& release.kind == kind_named(row.kind@)
    &&& release.archive_sha256@ == row.archive_sha256@
    &&& release.layer_path@ == row.layer_path@
    &&& release.source@ == row.source@
    &&& release.installed_at == read_moment(row.installed_at@, now)
}

/// Writes a release down. `None` where its moment has no written form. A release of
/// the years 1970 to 9999 has a row, and is read back from it.
pub fn mod_row(release: &ModRelease) -> (r: Option<ModRow>)
    ensures
        r is Some <==> rfc3339_of(release.installed_at) is Some,
        r is Some ==> {
            let row = r->0;
            &&& row.id@ == release.id@
            &&& row.name@ == release.name@
            &&& row.version@ == release.version@
            &&& row.kind@ == kind_name(release.kind)
            &&& row.archive_sha256@ == release.archive_sha256@
            &&& row.layer_path@ == release.layer_path@
            &&& row.source@ == release.source@
            &&& Some(row.installed_at@) == rfc3339_of(release.installed_at)
        },
        common_era(release.installed_at) ==> r is Some && forall|now: Timestamp| #[trigger]
            is_read_release(*release, r->0, now),
{
    proof {
        crate::models::law_kind_round_trip(release.kind);
    }
    match moment_text(release.installed_at) {
        None => None,
        Some(installed_at) => Some(
            ModRow {
                id: release.id.clone(),
                name: release.name.clone(),
                version: release.version.clone(),
                kind: release.kind.as_str().to_owned(),
                archive_sha256: release.archive_sha256.clone(),
                layer_path: release.layer_path.clone(),
                source: release.source.clone(),
                installed_at,
            },
        ),
    }
}

/// Reads a release.
pub fn read_mod_row(row: ModRow, now: Timestamp) -> (r: ModRelease)
    ensures
        is_read_release(r, row, now),
{
    let kind = ModKind::parse(&row.kind);
    let installed_at = moment_or_now(&row.installed_at, now);
    ModRelease {
        id: row.id,
        name: row.name,
        version: row.version,
        kind,
        archive_sha256: row.archive_sha256,
        layer_path: row.layer_path,
        source: row.source,
        installed_at,
    }
}

/// A save set as it is written down.
#[derive(Debug)]
pub struct SaveSetRow {
    pub id: String,
    pub name: String,
    pub created_at: String,
}

/// Whether a save set is what a row says.
pub open spec fn is_read_save_set(set: SaveSet, row: SaveSetRow, now: Timestamp) -> bool {
    &&& set.id@ == row.id@
    &&& set.name@ == row.name@
    &&& set.created_at == read_moment(row.created_at@, now)
}

/// Writes a save set down. `None` where its moment has no written form. One of the
/// years 1970 to 9999 has a row, and is read back from it.
pub fn save_set_row(set: &SaveSet) -> (r: Option<SaveSetRow>)
    ensures
        r is Some <==> rfc3339_of(set.created_at) is Some,
        r is Some ==> r->0.id@ == set.id@ && r->0.name@ == set.name@ && Some(r->0.created_at@)
            == rfc3339_of(set.created_at),
        common_era(set.created_at) ==> r is Some && forall|now: Timestamp| #[trigger]
            is_read_save_set(*set, r->0, now),
{
    match moment_text(set.created_at) {
        None => None,
        Some(created_at) => Some(
            SaveSetRow { id: set.id.clone(), name: set.name.clone(), created_at },
        ),
    }
}

/// Reads a save set.
pub fn read_save_set_row(row: SaveSetRow, now: Timestamp) -> (r: SaveSet)
    ensures
        is_read_save_set(r, row, now),
{
    let created_at = moment_or_now(&row.created_at, now);
    SaveSet { id: row.id, name: row.name, created_at }
}

/// A profile as it is written down.
#[derive(Debug)]
pub struct ProfileRow {
    pub id: String,
    pub name: String,
    pub game_install_id: String,
    pub game_build_id: String,
    pub runner: String,
    pub launch_args: String,
    pub environment: String,
    pub created_at: String,
}

/// The map that a list of entries makes, a later entry before an earlier one.
pub open spec fn map_from(list: Seq<(Seq<char>, Seq<char>)>) -> Map<Seq<char>, Seq<char>>
    decreases list.len(),
{
    if list.len() == 0 {
        Map::empty()
    } else {
        map_from(list.drop_last()).insert(list.last().0, list.last().1)
    }
}

/// The arguments that were written down; none where they cannot be read.
pub open spec fn read_args(text: Seq<char>) -> Seq<Seq<char>> {
    match json_list_of(text) {
        Some(list) => list,
        None => Seq::empty(),
    }
}

/// The environment that was written down; an empty one where it cannot be read.
pub open spec fn read_environment(text: Seq<char>) -> Map<Seq<char>, Seq<char>> {
    match json_object_of(text) {
        Some(list) => map_from(list),
        None => Map::empty(),
    }
}

/// Whether a profile is what a row says.
pub open spec fn is_read_profile(profile: Profile, row: ProfileRow, now: Timestamp) -> bool {
    &&& profile.id@ == row.id@
    &&& profile.name@ == row.name@
    &&& profile.game_install_id@ == row.game_install_id@
    &&& profile.game_build_id@ == row.game_build_id@
    &&& profile.runner@ == row.runner@
    &&& views(profile.launch_args@) == read_args(row.launch_args@)
    &&& profile.environment@ == read_environment(row.environment@)
    &&& profile.created_at == read_moment(row.created_at@, now)
}

proof fn lemma_map_from(list: Seq<(String, String)>)
    requires
        ascending(keys_of(list)),
    ensures
        map_from(pair_views(list)).dom() == keys_of(list).to_set(),
        forall|i: int|
            0 <= i < list.len() ==> map_from(pair_views(list))[(#[trigger] list[i]).0@] == list[i].1@,
    decreases list.len(),
{
    let pairs = pair_views(list);
    let keys = keys_of(list);
    if list.len() == 0 {
        assert(map_from(pairs).dom() =~= keys.to_set());
    } else {
        let front = list.drop_last();
        assert(keys_of(front) =~= keys.drop_last());
        assert forall|i: int, j: int| 0 <= i < j < keys_of(front).len() implies crate::order::text_lt(
            #[trigger] keys_of(front)[i],
            #[trigger] keys_of(front)[j],
        ) by {
            assert(crate::order::text_lt(keys[i], keys[j]));
        }
        lemma_map_from(front);
        assert(pair_views(front) =~= pairs.drop_last());
        let last = list.last();
        crate::order::lemma_text_order();
        let lt = |a: Seq<char>, b: Seq<char>| crate::order::text_lt(a, b);
        assert forall|i: int| 0 <= i < list.len() implies map_from(pairs)[(#[trigger] list[i]).0@]
            == list[i].1@ by {
            if i < front.len() {
                assert(front[i] == list[i]);
                assert(lt(keys[i], keys[list.len() - 1]));
            }
        }
        assert(map_from(pairs).dom() =~= keys.to_set()) by {
            assert forall|k: Seq<char>| map_from(pairs).dom().contains(k) == keys.to_set().contains(k) by {
                assert(keys_of(front).to_set().contains(k) == keys_of(front).contains(k));
                if keys_of(front).contains(k) {
                    let i = choose|i: int| 0 <= i < front.len() && keys_of(front)[i] == k;
                    assert(keys[i] == k);
                }
                if keys.contains(k) && k != last.0@ {
                    let i = choose|i: int| 0 <= i < keys.len() && keys[i] == k;
                    assert(keys_of(front)[i] == k);
                }
                if k == last.0@ {
                    assert(keys[list.len() - 1] == k);
                }
            }
        }
    }
}

fn text_map(list: &Vec<(String, String)>) -> (r: TextMap)
    ensures
        r@ == map_from(pair_views(list@)),
{
    let mut r = TextMap::new();
    let mut i: usize = 0;
    while i < list.len()
        invariant
            i <= list@.len(),
            r@ == map_from(pair_views(list@).take(i as int)),
        decreases list@.len() - i,
    {
        assert(pair_views(list@).take(i + 1).drop_last() =~= pair_views(list@).take(i as int));
        r.insert(&list[i].0, &list[i].1);
        i += 1;
    }
    assert(pair_views(list@).take(i as int) =~= pair_views(list@));
    r
}

/// Whether a text is an environment as it is written down: its entries as a JSON
/// object, in the order of their keys and each key once.
pub open spec fn is_written_environment(text: Seq<char>, map: Map<Seq<char>, Seq<char>>) -> bool {
    exists|list: Seq<(Seq<char>, Seq<char>)>|
        text == #[trigger] object_json(list) && map_from(list) == map && ascending(
            list.map_values(|pair: (Seq<char>, Seq<char>)| pair.0),
        )
}

/// Writes a profile down. `None` where its moment has no written form. A profile of
/// the years 1970 to 9999 has a row, and is read back from it.
pub fn profile_row(profile: &Profile) -> (r: Option<ProfileRow>)
    ensures
        r is Some <==> rfc3339_of(profile.created_at) is Some,
        r is Some ==> {
            let row = r->0;
            &&& row.id@ == profile.id@
            &&& row.name@ == profile.name@
            &&& row.game_install_id@ == profile.game_install_id@
            &&& row.game_build_id@ == profile.game_build_id@
            &&& row.runner@ == profile.runner@
            &&& row.launch_args@ == list_json(views(profile.launch_args@))
            &&& is_written_environment(row.environment@, profile.environment@)
            &&& read_environment(row.environment@) == profile.environment@
            &&& Some(row.created_at@) == rfc3339_of(profile.created_at)
        },
        common_era(profile.created_at) ==> r is Some && forall|now: Timestamp| #[trigger]
            is_read_profile(*profile, r->0, now),
{
    let launch_args = json_list_text(&profile.launch_args);
    let pairs = profile.environment.pairs();
    let environment = json_object_text(&pairs);
    proof {
        lemma_map_from(pairs@);
        let read = map_from(pair_views(pairs@));
        assert forall|k: Seq<char>| read.dom().contains(k) implies read[k] == profile.environment@[k] by {
            assert(keys_of(pairs@).to_set().contains(k));
            let i = choose|i: int| 0 <= i < pairs@.len() && keys_of(pairs@)[i] == k;
            assert(pairs@[i].0@ == k);
        }
        assert(read =~= profile.environment@);
        let keys = pair_views(pairs@).map_values(|pair: (Seq<char>, Seq<char>)| pair.0);
        assert(keys =~= keys_of(pairs@));
        assert(is_written_environment(environment@, profile.environment@));
    }
    match moment_text(profile.created_at) {
        None => None,
        Some(created_at) => Some(
            ProfileRow {
                id: profile.id.clone(),
                name: profile.name.clone(),
                game_install_id: profile.game_install_id.clone(),
                game_build_id: profile.game_build_id.clone(),
                runner: profile.runner.clone(),
                launch_args,
                environment,
                created_at,
            },
        ),
    }
}

/// Reads a profile.
pub fn read_profile_row(row: ProfileRow, now: Timestamp) -> (r: Profile)
    ensures
        is_read_profile(r, row, now),
{
    let launch_args = match parse_json_list(&row.launch_args) {
        Some(list) => list,
        None => {
            let none: Vec<String> = Vec::new();
            assert(views(none@) =~= Seq::<Seq<char>>::empty());
            none
        },
    };
    let environment = match parse_json_object(&row.environment) {
        Some(list) => text_map(&list),
        None => TextMap::new(),
    };
    let created_at = moment_or_now(&row.created_at, now);
    Profile {
        id: row.id,
        name: row.name,
        game_install_id: row.game_install_id,
        game_build_id: row.game_build_id,
        runner: row.runner,
        launch_args,
        environment,
        created_at,
    }
}

/// Turning a mod on or off changes nothing of its place: an entry that the mod has keeps
/// its priority and its profile. A mod without an entry gets one that goes before all
/// others, in the profile that was asked for.
pub proof fn law_requests_keep_their_place(
    r: LoadoutEntry,
    entries: Seq<LoadoutEntry>,
    profile_id: Seq<char>,
    mod_id: Seq<char>,
    on: bool,
)
    requires
        is_request(r, entries, profile_id, mod_id, on),
    ensures
        r.requested_enabled == on,
        r.mod_id@ == mod_id,
        forall|i: int|
            0 <= i < entries.len() && (#[trigger] entries[i]).mod_id@ == mod_id && (forall|j: int|
                0 <= j < i ==> (#[trigger] entries[j]).mod_id@ != mod_id) ==> r.priority
                == entries[i].priority && r.profile_id@ == entries[i].profile_id@,
        (forall|i: int| 0 <= i < entries.len() ==> (#[trigger] entries[i]).mod_id@ != mod_id) ==> {
            &&& r.profile_id@ == profile_id
            &&& r.priority > 0 || entries.len() > 0
            &&& forall|i: int| 0 <= i < entries.len() ==> (#[trigger] entries[i]).priority < r.priority
        },
{
    let keep = |entry: LoadoutEntry| entry.mod_id@ == mod_id;
    assert forall|i: int|
        0 <= i < entries.len() && (#[trigger] entries[i]).mod_id@ == mod_id && (forall|j: int|
            0 <= j < i ==> (#[trigger] entries[j]).mod_id@ != mod_id) implies r.priority
        == entries[i].priority && r.profile_id@ == entries[i].profile_id@ by {
        assert(entry_stands(entries, mod_id, i));
        let k = choose|k: int| #[trigger]
            entry_stands(entries, mod_id, k) && r.priority == entries[k].priority && r.profile_id@
                == entries[k].profile_id@;
        if k < i {
            assert(entries[k].mod_id@ == mod_id);
        }
        if i < k {
            assert(!keep(entries[i]));
        }
    }
    if forall|i: int| 0 <= i < entries.len() ==> (#[trigger] entries[i]).mod_id@ != mod_id {
        assert forall|i: int| !entry_stands(entries, mod_id, i) by {}
        assert forall|i: int| 0 <= i < entries.len() implies (#[trigger] entries[i]).priority
            < r.priority by {
            law_next_priority_is_highest(entries, i);
        }
    }
}

/// A priority that is changed stays what it is plus the change, where that is a number of
/// 64 bits, and stops at the end of these where it is not.
pub proof fn law_priorities_stop_at_the_ends(n: int)
    ensures
        i64::MIN <= n <= i64::MAX ==> kept_in_range(n) == n,
        i64::MIN <= kept_in_range(n) <= i64::MAX,
        n > i64::MAX ==> kept_in_range(n) == i64::MAX,
        n < i64::MIN ==> kept_in_range(n) == i64::MIN,
{
}

} // verus!
