//! How a profile is launched: the plan, the overlay, the lock and the order of the
//! steps.
use vstd::prelude::*;

use crate::deps::{reason, resolution, satisfied};
use crate::loadout::{
    are_links_of, first_missing, is_loadout_of, materialize, redmods, Link, LoadoutError,
    LoadoutTables, MaterializedLoadout,
};
use crate::models::{Dependency, GameInstall, LoadoutEntry, Profile, ResolvedEntry};
use crate::outside::{
    by_path, debug_text, owners_json, owners_json_text, owners_of_json, pair_views,
    parse_owners_json, quoted,
};
use crate::path::{
    components, is_name, join, join_path, lemma_parts_order, parts, parts_before, parts_lt, path_before,
    path_lt, same_parts, same_place, Part,
};
use crate::parking::state_dirs;
use crate::paths::AppPaths;
use crate::saves::profile_saves;
use crate::text::{
    chars_of, decimal, decimal_text, digit, is_white, join_texts, joined, same_text, trim,
    trim_start, trimmed, trimmed_end, trimmed_start, views, CharClass,
};
use crate::text_map::TextMap;

verus! {

/// How the game is started.
#[derive(Debug)]
pub struct LaunchPlan {
    pub executable: String,
    pub args: Vec<String>,
    pub environment: TextMap,
    pub mountpoint: String,
    pub redmod_command: Option<Vec<String>>,
    pub conflicts: usize,
}

/// Why a profile cannot be launched.
#[derive(Debug)]
pub enum LaunchError {
    BuildChanged { from: String, to: String },
    Loadout(LoadoutError),
    DisabledDependents(String),
    RedmodMissing,
    CommandMissing(String),
    NotPrepared(String),
    AlreadyRunning,
    OverlayTimeout,
}

impl LaunchError {
    /// What went wrong, in words.
    pub open spec fn text(self) -> Seq<char> {
        match self {
            LaunchError::BuildChanged { from, to } => "game build changed from "@ + from@ + " to "@
                + to@ + "; review framework compatibility or use --force"@,
            LaunchError::Loadout(error) => error.text(),
            LaunchError::DisabledDependents(list) => "loadout has disabled dependents: "@ + list@,
            LaunchError::RedmodMissing =>
                "profile contains REDmods but Steam DLC 2060310 is not installed"@,
            LaunchError::CommandMissing(command) => "required command is missing: "@ + command@,
            LaunchError::NotPrepared(name) =>
                "profile prefix is not prepared; run `cp2077-mod-tui prepare "@ + name@ + "` first"@,
            LaunchError::AlreadyRunning => "profile is already running"@,
            LaunchError::OverlayTimeout =>
                "overlay mount did not become ready within five seconds"@,
        }
    }

    /// What went wrong, in words.
    pub fn message(&self) -> (r: String)
        ensures
            r@ == self.text(),
    {
        match self {
            LaunchError::BuildChanged { from, to } => "game build changed from ".to_owned().concat(
                from,
            ).concat(" to ").concat(to).concat("; review framework compatibility or use --force"),
            LaunchError::Loadout(error) => error.message(),
            LaunchError::DisabledDependents(list) => "loadout has disabled dependents: ".to_owned().concat(
                list,
            ),
            LaunchError::RedmodMissing =>
                "profile contains REDmods but Steam DLC 2060310 is not installed".to_owned(),
            LaunchError::CommandMissing(command) => "required command is missing: ".to_owned().concat(
                command,
            ),
            LaunchError::NotPrepared(name) =>
                "profile prefix is not prepared; run `cp2077-mod-tui prepare ".to_owned().concat(
                name,
            ).concat("` first"),
            LaunchError::AlreadyRunning => "profile is already running".to_owned(),
            LaunchError::OverlayTimeout =>
                "overlay mount did not become ready within five seconds".to_owned(),
        }
    }
}

/// Whether the game is of another build than the profile was made for, with
/// nothing to excuse it.
pub open spec fn build_blocks(profile: Profile, game: GameInstall, force: bool, excused: bool) -> bool {
    profile.game_build_id@ != game.build_id@ && !force && !excused
}

/// The entries that are requested and cannot be enabled.
pub open spec fn blocked(entries: Seq<LoadoutEntry>, deps: Seq<Dependency>) -> Seq<LoadoutEntry> {
    entries.filter(
        |entry: LoadoutEntry|
            entry.requested_enabled && !satisfied(entries, deps, entry.mod_id@),
    )
}

/// The blocked entries in words, each with its reason.
pub open spec fn blocked_texts(entries: Seq<LoadoutEntry>, deps: Seq<Dependency>) -> Seq<Seq<char>> {
    blocked(entries, deps).map_values(
        |entry: LoadoutEntry|
            entry.mod_id@ + " ("@ + reason(entries, deps, entry.mod_id@, Seq::empty()) + ")"@,
    )
}

fn describe_blocked(resolved: &Vec<ResolvedEntry>, tables: &LoadoutTables) -> (r: Vec<String>)
    requires
        resolved@.len() == tables.entries@.len(),
        forall|i: int|
            0 <= i < resolved@.len() ==> resolution(
                tables.entries@,
                tables.dependencies@,
                tables.entries@[i],
                #[trigger] resolved@[i],
            ),
    ensures
        views(r@) == blocked_texts(tables.entries@, tables.dependencies@),
{
    let ghost entries = tables.entries@;
    let ghost deps = tables.dependencies@;
    let ghost keep = |entry: LoadoutEntry|
        entry.requested_enabled && !satisfied(entries, deps, entry.mod_id@);
    let ghost turn = |entry: LoadoutEntry|
        entry.mod_id@ + " ("@ + reason(entries, deps, entry.mod_id@, Seq::empty()) + ")"@;
    let mut r: Vec<String> = Vec::new();
    let mut i: usize = 0;
    assert(views(r@) =~= entries.take(0).filter(keep).map_values(turn)) by {
        reveal(Seq::filter);
    }
    while i < resolved.len()
        invariant
            i <= resolved@.len(),
            entries == tables.entries@,
            deps == tables.dependencies@,
            resolved@.len() == entries.len(),
            forall|j: int|
                0 <= j < resolved@.len() ==> resolution(
                    entries,
                    deps,
                    entries[j],
                    #[trigger] resolved@[j],
                ),
            keep == (|entry: LoadoutEntry|
                entry.requested_enabled && !satisfied(entries, deps, entry.mod_id@)),
            turn == (|entry: LoadoutEntry|
                entry.mod_id@ + " ("@ + reason(entries, deps, entry.mod_id@, Seq::empty()) + ")"@),
            views(r@) == entries.take(i as int).filter(keep).map_values(turn),
        decreases resolved@.len() - i,
    {
        let ghost had = views(r@);
        let ghost before = entries.take(i as int).filter(keep);
        let ghost now = entries.take(i + 1);
        assert(resolution(entries, deps, entries[i as int], resolved@[i as int]));
        assert(now.drop_last() =~= entries.take(i as int));
        assert(now.filter(keep) == if keep(entries[i as int]) {
            before.push(entries[i as int])
        } else {
            before
        }) by {
            reveal(Seq::filter);
        }
        let entry = &resolved[i];
        if entry.entry.requested_enabled && !entry.effective_enabled {
            let why = match &entry.disabled_reason {
                Some(why) => why.clone(),
                None => "unknown".to_owned(),
            };
            r.push(entry.entry.mod_id.clone().concat(" (").concat(&why).concat(")"));
            assert(views(r@) =~= had.push(turn(entries[i as int])));
            assert(now.filter(keep).map_values(turn) =~= before.map_values(turn).push(
                turn(entries[i as int]),
            ));
        }
        i += 1;
    }
    assert(entries.take(i as int) =~= entries);
    r
}

/// The prefix of a profile.
pub open spec fn prefix_place(paths: AppPaths, profile_id: Seq<char>) -> Seq<char> {
    join_path(paths.profile_place(profile_id), "prefix"@)
}

/// Where the game of a profile is mounted.
pub open spec fn mount_place(paths: AppPaths, profile_id: Seq<char>) -> Seq<char> {
    join_path(join_path(paths.runtime_dir@, profile_id), "game"@)
}

/// Where the game of a profile is mounted.
pub fn mountpoint(paths: &AppPaths, profile_id: &str) -> (r: String)
    ensures
        r@ == mount_place(*paths, profile_id@),
{
    join(&join(&paths.runtime_dir, profile_id), "game")
}

/// An environment with the runner of a profile, unless it is the usual one.
pub open spec fn with_runner(
    environment: Map<Seq<char>, Seq<char>>,
    runner: Seq<char>,
) -> Map<Seq<char>, Seq<char>> {
    if runner.len() > 0 && runner != "UMU-Proton"@ {
        environment.insert("PROTONPATH"@, runner)
    } else {
        environment
    }
}

fn set_runner(environment: &mut TextMap, runner: &str)
    ensures
        final(environment)@ == with_runner(old(environment)@, runner@),
{
    if !runner.is_empty() && !same_text(runner, "UMU-Proton") {
        environment.insert("PROTONPATH", runner);
    }
}

/// The environment that the game runs in: that of the profile, with what UMU and
/// Steam need.
pub open spec fn launch_environment(paths: AppPaths, profile: Profile) -> Map<Seq<char>, Seq<char>> {
    with_runner(
        profile.environment@.insert("WINEPREFIX"@, prefix_place(paths, profile.id@)).insert(
            "GAMEID"@,
            "umu-1091500"@,
        ).insert("STORE"@, "steam"@).insert("SteamAppId"@, "1091500"@).insert(
            "SteamGameId"@,
            "1091500"@,
        ).insert("STEAM_COMPAT_APP_ID"@, "1091500"@).insert(
            "WINEDLLOVERRIDES"@,
            "winmm,version=n,b"@,
        ),
        profile.runner@,
    )
}

/// The arguments that the game is started with.
pub open spec fn launch_args(mountpoint: Seq<char>, modded: bool, own: Seq<Seq<char>>) -> Seq<Seq<char>> {
    seq![join_path(mountpoint, "bin/x64/Cyberpunk2077.exe"@)] + (if modded {
        seq!["-modded"@]
    } else {
        Seq::empty()
    }) + own
}

/// The command that deploys REDmods.
pub open spec fn deploy_command(mountpoint: Seq<char>, names: Seq<Seq<char>>) -> Seq<Seq<char>> {
    seq![
        join_path(mountpoint, "tools/redmod/bin/redMod.exe"@),
        "deploy"@,
        "-root="@ + wine_form(mountpoint),
        "-mod="@ + joined(names, ","@),
    ]
}

/// Whether a plan is what the tables make of a profile.
pub open spec fn is_plan_of(
    plan: LaunchPlan,
    paths: AppPaths,
    profile: Profile,
    loadout: MaterializedLoadout,
) -> bool {
    let mount = mount_place(paths, profile.id@);
    let modded = loadout.redmods@.len() > 0;
    &&& plan.executable@ == "umu-run"@
    &&& plan.mountpoint@ == mount
    &&& plan.environment@ == launch_environment(paths, profile)
    &&& views(plan.args@) == launch_args(mount, modded, views(profile.launch_args@))
    &&& match plan.redmod_command {
        Some(command) => modded && views(command@) == deploy_command(mount, views(loadout.redmods@)),
        None => !modded,
    }
    &&& plan.conflicts == loadout.conflicts@.len()
}

/// The plan for a loadout that can be launched.
pub fn plan_for(paths: &AppPaths, profile: &Profile, loadout: &MaterializedLoadout) -> (r: LaunchPlan)
    ensures
        is_plan_of(r, *paths, *profile, *loadout),
{
    let mount = mountpoint(paths, &profile.id);
    let prefix = join(&paths.profile_dir(&profile.id), "prefix");
    let mut environment = profile.environment.copy();
    environment.insert("WINEPREFIX", &prefix);
    environment.insert("GAMEID", "umu-1091500");
    environment.insert("STORE", "steam");
    environment.insert("SteamAppId", "1091500");
    environment.insert("SteamGameId", "1091500");
    environment.insert("STEAM_COMPAT_APP_ID", "1091500");
    environment.insert("WINEDLLOVERRIDES", "winmm,version=n,b");
    set_runner(&mut environment, &profile.runner);
    let modded = loadout.redmods.len() > 0;
    let mut args: Vec<String> = Vec::new();
    args.push(join(&mount, "bin/x64/Cyberpunk2077.exe"));
    if modded {
        args.push("-modded".to_owned());
    }
    let ghost front = seq![join_path(mount@, "bin/x64/Cyberpunk2077.exe"@)] + (if modded {
        seq!["-modded"@]
    } else {
        Seq::empty()
    });
    assert(views(args@) =~= front);
    let mut i: usize = 0;
    assert(views(profile.launch_args@).take(0) =~= Seq::<Seq<char>>::empty());
    assert(front + Seq::<Seq<char>>::empty() =~= front);
    while i < profile.launch_args.len()
        invariant
            i <= profile.launch_args@.len(),
            views(args@) == front + views(profile.launch_args@).take(i as int),
        decreases profile.launch_args@.len() - i,
    {
        let ghost had = views(args@);
        args.push(profile.launch_args[i].clone());
        assert(views(args@) =~= had.push(views(profile.launch_args@)[i as int]));
        assert(views(profile.launch_args@).take(i + 1) =~= views(profile.launch_args@).take(
            i as int,
        ).push(views(profile.launch_args@)[i as int]));
        assert(views(args@) =~= front + views(profile.launch_args@).take(i + 1));
        i += 1;
    }
    assert(views(profile.launch_args@).take(i as int) =~= views(profile.launch_args@));
    let redmod_command = if modded {
        let mut command: Vec<String> = Vec::new();
        command.push(join(&mount, "tools/redmod/bin/redMod.exe"));
        command.push("deploy".to_owned());
        command.push("-root=".to_owned().concat(&wine_path(&mount)));
        command.push("-mod=".to_owned().concat(&join_texts(&loadout.redmods, ",")));
        assert(views(command@) =~= deploy_command(mount@, views(loadout.redmods@)));
        Some(command)
    } else {
        None
    };
    LaunchPlan {
        executable: "umu-run".to_owned(),
        args,
        environment,
        mountpoint: mount,
        redmod_command,
        conflicts: loadout.conflicts.len(),
    }
}

/// Plans the launch of a profile, or says why it cannot be launched. `excused`
/// tells whether an earlier launch accepted this build for the profile.
pub fn plan(
    tables: &LoadoutTables,
    paths: &AppPaths,
    profile: &Profile,
    game: &GameInstall,
    force: bool,
    excused: bool,
) -> (r: Result<(LaunchPlan, MaterializedLoadout, Vec<Link>), LaunchError>)
    ensures
        match r {
            Ok((plan, loadout, links)) => {
                &&& !build_blocks(*profile, *game, force, excused)
                &&& forall|i: int| !first_missing(tables.enabled(), tables.mods@, i)
                &&& blocked(tables.entries@, tables.dependencies@).len() == 0
                &&& redmods(tables.claims()).len() > 0 ==> game.redmod
                &&& is_loadout_of(loadout, *tables, *paths, profile.id@)
                &&& are_links_of(links@, loadout, *tables)
                &&& is_plan_of(plan, *paths, *profile, loadout)
            },
            Err(error) => if build_blocks(*profile, *game, force, excused) {
                &&& error is BuildChanged
                &&& error->from@ == profile.game_build_id@
                &&& error->to@ == game.build_id@
            } else if exists|i: int| first_missing(tables.enabled(), tables.mods@, i) {
                &&& error is Loadout
                &&& error->Loadout_0 is MissingRelease
                &&& exists|i: int|
                    #[trigger]
                    first_missing(tables.enabled(), tables.mods@, i) && tables.enabled()[i].mod_id@
                        == error->Loadout_0->MissingRelease_0@
            } else if blocked(tables.entries@, tables.dependencies@).len() > 0 {
                &&& error is DisabledDependents
                &&& error->DisabledDependents_0@ == joined(
                    blocked_texts(tables.entries@, tables.dependencies@),
                    ", "@,
                )
            } else {
                &&& error is RedmodMissing
                &&& redmods(tables.claims()).len() > 0
                &&& !game.redmod
            },
        },
{
    if profile.game_build_id != game.build_id && !force && !excused {
        return Err(
            LaunchError::BuildChanged {
                from: profile.game_build_id.clone(),
                to: game.build_id.clone(),
            },
        );
    }
    match materialize(tables, paths, &profile.id) {
        Err(error) => {
            Err(LaunchError::Loadout(error))
        },
        Ok((loadout, links)) => {
            let broken = describe_blocked(&loadout.entries, tables);
            assert(views(broken@).len() == blocked(tables.entries@, tables.dependencies@).len());
            if broken.len() > 0 {
                return Err(LaunchError::DisabledDependents(join_texts(&broken, ", ")));
            }
            assert(views(loadout.redmods@).len() == loadout.redmods@.len());
            if loadout.redmods.len() > 0 && !game.redmod {
                return Err(LaunchError::RedmodMissing);
            }
            let plan = plan_for(paths, profile, &loadout);
            Ok((plan, loadout, links))
        },
    }
}

/// A path in the form that Wine knows it by: on the drive `Z:`, with backslashes.
pub open spec fn wine_form(path: Seq<char>) -> Seq<char> {
    "Z:\\"@ + trimmed_start(path, CharClass::Only('/')).map_values(
        |c: char|
            if c == '/' {
                '\\'
            } else {
                c
            },
    )
}

/// A path in the form that Wine knows it by.
pub fn wine_path(path: &str) -> (r: String)
    ensures
        r@ == wine_form(path@),
{
    let rest = trim_start(path, &CharClass::Only('/'));
    let ghost turn = |c: char|
        if c == '/' {
            '\\'
        } else {
            c
        };
    let mut r = "Z:\\".to_owned();
    let ghost front = r@;
    let chars = chars_of(&rest);
    let mut i: usize = 0;
    assert(r@ =~= front + chars@.take(0).map_values(turn));
    while i < chars.len()
        invariant
            i <= chars@.len(),
            turn == (|c: char|
                if c == '/' {
                    '\\'
                } else {
                    c
                }),
            r@ == front + chars@.take(i as int).map_values(turn),
        decreases chars@.len() - i,
    {
        r.push(
            if chars[i] == '/' {
                '\\'
            } else {
                chars[i]
            },
        );
        assert(front + chars@.take(i + 1).map_values(turn) =~= (front + chars@.take(
            i as int,
        ).map_values(turn)).push(turn(chars@[i as int])));
        i += 1;
    }
    assert(chars@.take(i as int) =~= rest@);
    r
}

/// How a character is written in an option of the overlay.
pub open spec fn escaped_char(c: char) -> Seq<char> {
    if c == '\\' || c == ':' || c == ',' {
        seq!['\\', c]
    } else {
        seq![c]
    }
}

/// A text with a backslash before every backslash, colon and comma.
pub open spec fn escaped(text: Seq<char>) -> Seq<char>
    decreases text.len(),
{
    if text.len() == 0 {
        Seq::empty()
    } else {
        escaped_char(text[0]) + escaped(text.drop_first())
    }
}

/// What an escaped text says: a backslash makes the next character count as it is.
pub open spec fn unescaped(text: Seq<char>) -> Seq<char>
    decreases text.len(),
{
    if text.len() == 0 {
        Seq::empty()
    } else if text[0] == '\\' && text.len() > 1 {
        seq![text[1]] + unescaped(text.skip(2))
    } else {
        seq![text[0]] + unescaped(text.drop_first())
    }
}

/// Writes a path for an option of the overlay.
pub fn overlay_escape(path: &str) -> (r: String)
    ensures
        r@ == escaped(path@),
{
    let chars = chars_of(path);
    let mut r = String::new();
    let mut i: usize = 0;
    assert(path@.skip(0) =~= path@);
    assert(r@ + escaped(path@) =~= escaped(path@));
    while i < chars.len()
        invariant
            i <= chars@.len(),
            chars@ == path@,
            r@ + escaped(path@.skip(i as int)) == escaped(path@),
        decreases chars@.len() - i,
    {
        let ghost had = r@;
        let ghost rest = path@.skip(i as int);
        let c = chars[i];
        if c == '\\' || c == ':' || c == ',' {
            r.push('\\');
        }
        r.push(c);
        assert(rest[0] == c);
        assert(rest.drop_first() =~= path@.skip(i + 1));
        assert(r@ =~= had + escaped_char(c));
        assert(had + (escaped_char(c) + escaped(path@.skip(i + 1))) =~= r@ + escaped(
            path@.skip(i + 1),
        ));
        i += 1;
    }
    assert(path@.skip(i as int) =~= Seq::<char>::empty());
    assert(r@ + Seq::<char>::empty() =~= r@);
    r
}

/// An escaped path is read back as it was.
pub proof fn law_escape_is_undone(text: Seq<char>)
    ensures
        unescaped(escaped(text)) == text,
    decreases text.len(),
{
    if text.len() > 0 {
        let rest = text.drop_first();
        law_escape_is_undone(rest);
        let whole = escaped(text);
        if escaped_char(text[0]).len() == 2 {
            assert(whole.skip(2) =~= escaped(rest));
        } else {
            assert(whole.drop_first() =~= escaped(rest));
        }
        assert(text =~= seq![text[0]] + rest);
    }
}

/// The characters of an escaped text that no backslash marks.
pub open spec fn unmarked(text: Seq<char>) -> Seq<char>
    decreases text.len(),
{
    if text.len() == 0 {
        Seq::empty()
    } else if text[0] == '\\' && text.len() > 1 {
        unmarked(text.skip(2))
    } else {
        seq![text[0]] + unmarked(text.drop_first())
    }
}

/// Every colon, comma and backslash that a path holds stands in an option of the
/// overlay behind a backslash that marks it: read from the left, none is left outside
/// such a pair.
pub proof fn law_escaped_separators_are_marked(text: Seq<char>)
    ensures
        forall|i: int|
            0 <= i < unmarked(escaped(text)).len() ==> {
                let c = #[trigger] unmarked(escaped(text))[i];
                c != ':' && c != ',' && c != '\\'
            },
    decreases text.len(),
{
    if text.len() > 0 {
        let rest = text.drop_first();
        law_escaped_separators_are_marked(rest);
        let whole = escaped(text);
        if escaped_char(text[0]).len() == 2 {
            assert(whole[0] == '\\');
            assert(whole.skip(2) =~= escaped(rest));
            assert(unmarked(whole) == unmarked(escaped(rest)));
        } else {
            assert(whole[0] == text[0]);
            assert(whole.drop_first() =~= escaped(rest));
            assert(unmarked(whole) == seq![text[0]] + unmarked(escaped(rest)));
            assert forall|i: int| 0 <= i < unmarked(whole).len() implies {
                let c = #[trigger] unmarked(whole)[i];
                c != ':' && c != ',' && c != '\\'
            } by {
                if i > 0 {
                    assert(unmarked(whole)[i] == unmarked(escaped(rest))[i - 1]);
                }
            }
        }
    }
}

/// The options of the overlay: the layer over the game, with what is changed kept
/// apart.
pub open spec fn overlay_form(
    layer: Seq<char>,
    root: Seq<char>,
    upper: Seq<char>,
    work: Seq<char>,
) -> Seq<char> {
    "lowerdir="@ + escaped(layer) + ":"@ + escaped(root) + ",upperdir="@ + escaped(upper)
        + ",workdir="@ + escaped(work)
}

/// The pieces of an option between the separators that no backslash marks.
pub open spec fn cut_at(text: Seq<char>, separator: char) -> Seq<Seq<char>>
    decreases text.len(),
{
    if text.len() == 0 {
        seq![Seq::empty()]
    } else if text[0] == '\\' && text.len() > 1 {
        let rest = cut_at(text.skip(2), separator);
        rest.update(0, text.take(2) + rest[0])
    } else if text[0] == separator {
        seq![Seq::empty()] + cut_at(text.drop_first(), separator)
    } else {
        let rest = cut_at(text.drop_first(), separator);
        rest.update(0, seq![text[0]] + rest[0])
    }
}

/// What an option of a mount is set to, where it is among several.
pub open spec fn setting(options: Seq<Seq<char>>, name: Seq<char>) -> Option<Seq<char>>
    decreases options.len(),
{
    let front = name + seq!['='];
    if options.len() == 0 {
        None
    } else if front.is_prefix_of(options[0]) {
        Some(options[0].skip(front.len() as int))
    } else {
        setting(options.drop_first(), name)
    }
}

/// The directories that a mount reads an option as: separated by colons, with commas
/// between options.
pub open spec fn directories(options: Seq<char>, name: Seq<char>) -> Seq<Seq<char>> {
    match setting(cut_at(options, ','), name) {
        Some(value) => cut_at(value, ':').map_values(|piece: Seq<char>| unescaped(piece)),
        None => Seq::empty(),
    }
}

/// What the first of several directories that has a file at a path has there.
pub open spec fn first_with(
    dirs: Seq<Seq<char>>,
    disk: spec_fn(Seq<char>, Seq<char>) -> Option<int>,
    path: Seq<char>,
) -> Option<int>
    decreases dirs.len(),
{
    if dirs.len() == 0 {
        None
    } else if disk(dirs[0], path) is Some {
        disk(dirs[0], path)
    } else {
        first_with(dirs.drop_first(), disk, path)
    }
}

/// What a mount shows at a path: what was changed there, or else what the first of its
/// lower directories has. A disk tells what a directory has at a path.
pub open spec fn mount_shows(
    options: Seq<char>,
    disk: spec_fn(Seq<char>, Seq<char>) -> Option<int>,
    path: Seq<char>,
) -> Option<int> {
    first_with(
        directories(options, "upperdir"@) + directories(options, "lowerdir"@),
        disk,
        path,
    )
}

/// Whether a mount shows the files of a layer over those of a game, and what was changed
/// over both.
pub open spec fn lies_over(
    options: Seq<char>,
    upper: Seq<char>,
    layer: Seq<char>,
    root: Seq<char>,
) -> bool {
    forall|disk: spec_fn(Seq<char>, Seq<char>) -> Option<int>, path: Seq<char>|
        #[trigger] mount_shows(options, disk, path) == if disk(upper, path) is Some {
            disk(upper, path)
        } else if disk(layer, path) is Some {
            disk(layer, path)
        } else {
            disk(root, path)
        }
}

proof fn lemma_cut_some(text: Seq<char>, separator: char)
    ensures
        cut_at(text, separator).len() > 0,
    decreases text.len(),
{
    if text.len() > 0 {
        if text[0] == '\\' && text.len() > 1 {
            lemma_cut_some(text.skip(2), separator);
        } else {
            lemma_cut_some(text.drop_first(), separator);
        }
    }
}

proof fn lemma_cut_plain(plain: Seq<char>, rest: Seq<char>, separator: char)
    requires
        forall|i: int| 0 <= i < plain.len() ==> plain[i] != '\\' && plain[i] != separator,
    ensures
        cut_at(rest, separator).len() > 0,
        cut_at(plain + rest, separator) == cut_at(rest, separator).update(
            0,
            plain + cut_at(rest, separator)[0],
        ),
    decreases plain.len(),
{
    let cut = cut_at(rest, separator);
    lemma_cut_some(rest, separator);
    if plain.len() == 0 {
        assert(plain + rest =~= rest);
        assert(plain + cut[0] =~= cut[0]);
        assert(cut.update(0, cut[0]) =~= cut);
    } else {
        let whole = plain + rest;
        assert(whole[0] == plain[0]);
        assert(whole.drop_first() =~= plain.drop_first() + rest);
        lemma_cut_plain(plain.drop_first(), rest, separator);
        assert(seq![plain[0]] + (plain.drop_first() + cut[0]) =~= plain + cut[0]);
        assert(cut_at(whole, separator) =~= cut.update(0, plain + cut[0]));
    }
}

proof fn lemma_cut_escaped(text: Seq<char>, rest: Seq<char>, separator: char)
    requires
        separator == ':' || separator == ',',
    ensures
        cut_at(rest, separator).len() > 0,
        cut_at(escaped(text) + rest, separator) == cut_at(rest, separator).update(
            0,
            escaped(text) + cut_at(rest, separator)[0],
        ),
    decreases text.len(),
{
    let cut = cut_at(rest, separator);
    lemma_cut_some(rest, separator);
    if text.len() == 0 {
        assert(escaped(text) + rest =~= rest);
        assert(escaped(text) + cut[0] =~= cut[0]);
        assert(cut.update(0, cut[0]) =~= cut);
    } else {
        let more = text.drop_first();
        let whole = escaped(text) + rest;
        lemma_cut_escaped(more, rest, separator);
        assert(escaped_char(text[0]) + (escaped(more) + cut[0]) =~= escaped(text) + cut[0]);
        if escaped_char(text[0]).len() == 2 {
            assert(whole[0] == '\\');
            assert(whole.take(2) =~= escaped_char(text[0]));
            assert(whole.skip(2) =~= escaped(more) + rest);
        } else {
            assert(whole[0] == text[0]);
            assert(whole.drop_first() =~= escaped(more) + rest);
        }
        assert(cut_at(whole, separator) =~= cut.update(0, escaped(text) + cut[0]));
    }
}

proof fn lemma_cut_separator(rest: Seq<char>, separator: char)
    requires
        separator != '\\',
    ensures
        cut_at(seq![separator] + rest, separator) == seq![Seq::<char>::empty()] + cut_at(
            rest,
            separator,
        ),
{
    let whole = seq![separator] + rest;
    assert(whole[0] == separator);
    assert(whole.drop_first() =~= rest);
}

proof fn lemma_cut_last(text: Seq<char>, separator: char)
    requires
        separator == ':' || separator == ',',
    ensures
        cut_at(escaped(text), separator) == seq![escaped(text)],
{
    let none = Seq::<char>::empty();
    lemma_cut_escaped(text, none, separator);
    assert(escaped(text) + none =~= escaped(text));
    assert(cut_at(none, separator)[0] =~= none);
    assert(cut_at(none, separator).update(0, escaped(text) + none) =~= seq![escaped(text)]);
}

proof fn lemma_options(
    layer: Seq<char>,
    root: Seq<char>,
    upper: Seq<char>,
    work: Seq<char>,
)
    ensures
        cut_at(overlay_form(layer, root, upper, work), ',') == seq![
            "lowerdir="@ + escaped(layer) + ":"@ + escaped(root),
            "upperdir="@ + escaped(upper),
            "workdir="@ + escaped(work),
        ],
{
    reveal_strlit("lowerdir=");
    reveal_strlit(":");
    reveal_strlit(",upperdir=");
    reveal_strlit("upperdir=");
    reveal_strlit(",workdir=");
    reveal_strlit("workdir=");
    let comma = seq![','];
    let none = Seq::<char>::empty();
    let third = "workdir="@ + escaped(work);
    lemma_cut_last(work, ',');
    lemma_cut_plain("workdir="@, escaped(work), ',');
    assert(cut_at(third, ',') =~= seq![third]);
    let behind = comma + third;
    lemma_cut_separator(third, ',');
    assert(cut_at(behind, ',') =~= seq![none, third]);
    lemma_cut_escaped(upper, behind, ',');
    lemma_cut_plain("upperdir="@, escaped(upper) + behind, ',');
    let second = "upperdir="@ + escaped(upper);
    let two = "upperdir="@ + (escaped(upper) + behind);
    assert("upperdir="@ + (escaped(upper) + none) =~= second);
    assert(cut_at(two, ',') =~= seq![second, third]);
    let after = comma + two;
    lemma_cut_separator(two, ',');
    assert(cut_at(after, ',') =~= seq![none, second, third]);
    lemma_cut_escaped(root, after, ',');
    lemma_cut_plain(":"@, escaped(root) + after, ',');
    lemma_cut_escaped(layer, ":"@ + (escaped(root) + after), ',');
    lemma_cut_plain("lowerdir="@, escaped(layer) + (":"@ + (escaped(root) + after)), ',');
    let whole = "lowerdir="@ + (escaped(layer) + (":"@ + (escaped(root) + after)));
    let first = "lowerdir="@ + escaped(layer) + ":"@ + escaped(root);
    assert("lowerdir="@ + (escaped(layer) + (":"@ + (escaped(root) + none))) =~= first);
    assert(cut_at(whole, ',') =~= seq![first, second, third]);
    assert(whole =~= overlay_form(layer, root, upper, work));
}

/// The options of a mount are read back as the directories that it is made of: the layer
/// before the game, the directory of changes and that of work.
pub proof fn law_options_name_their_directories(
    layer: Seq<char>,
    root: Seq<char>,
    upper: Seq<char>,
    work: Seq<char>,
)
    ensures
        directories(overlay_form(layer, root, upper, work), "lowerdir"@) == seq![layer, root],
        directories(overlay_form(layer, root, upper, work), "upperdir"@) == seq![upper],
        directories(overlay_form(layer, root, upper, work), "workdir"@) == seq![work],
{
    reveal_strlit("lowerdir=");
    reveal_strlit("upperdir=");
    reveal_strlit("workdir=");
    reveal_strlit("lowerdir");
    reveal_strlit("upperdir");
    reveal_strlit("workdir");
    reveal_strlit(":");
    let options = overlay_form(layer, root, upper, work);
    let pieces = cut_at(options, ',');
    let none = Seq::<char>::empty();
    lemma_options(layer, root, upper, work);
    assert("lowerdir"@ + seq!['='] =~= "lowerdir="@);
    assert("upperdir"@ + seq!['='] =~= "upperdir="@);
    assert("workdir"@ + seq!['='] =~= "workdir="@);
    let lower = escaped(layer) + ":"@ + escaped(root);
    assert(pieces[0] =~= "lowerdir="@ + lower);
    assert("lowerdir="@.is_prefix_of(pieces[0]));
    assert(pieces[0].skip("lowerdir="@.len() as int) =~= lower);
    assert(pieces[0][0] == 'l' && pieces[1][0] == 'u' && pieces[2][0] == 'w');
    assert(!"upperdir="@.is_prefix_of(pieces[0]));
    assert(!"workdir="@.is_prefix_of(pieces[0]));
    assert(!"workdir="@.is_prefix_of(pieces[1]));
    let tail = pieces.drop_first();
    assert(tail[0] == pieces[1] && tail.drop_first()[0] == pieces[2]);
    assert("upperdir="@.is_prefix_of(pieces[1]));
    assert("workdir="@.is_prefix_of(pieces[2]));
    assert(pieces[1].skip("upperdir="@.len() as int) =~= escaped(upper));
    assert(pieces[2].skip("workdir="@.len() as int) =~= escaped(work));
    reveal_with_fuel(setting, 4);
    assert(setting(pieces, "lowerdir"@) == Some(lower));
    assert(setting(pieces, "upperdir"@) == Some(escaped(upper)));
    assert(setting(pieces, "workdir"@) == Some(escaped(work)));
    lemma_cut_last(upper, ':');
    lemma_cut_last(work, ':');
    lemma_cut_last(root, ':');
    lemma_cut_separator(escaped(root), ':');
    assert(seq![':'] =~= ":"@);
    lemma_cut_escaped(layer, ":"@ + escaped(root), ':');
    assert(escaped(layer) + (":"@ + escaped(root)) =~= lower);
    assert(escaped(layer) + none =~= escaped(layer));
    assert(cut_at(lower, ':') =~= seq![escaped(layer), escaped(root)]);
    law_escape_is_undone(layer);
    law_escape_is_undone(root);
    law_escape_is_undone(upper);
    law_escape_is_undone(work);
    assert(directories(options, "lowerdir"@) =~= seq![layer, root]);
    assert(directories(options, "upperdir"@) =~= seq![upper]);
    assert(directories(options, "workdir"@) =~= seq![work]);
}

/// Mods replace files of the game: the mount shows what was changed at a path, or else
/// what the layer of the loadout has there, and the file of the game only where neither
/// has one.
pub proof fn law_mods_lie_over_the_game(
    layer: Seq<char>,
    root: Seq<char>,
    upper: Seq<char>,
    work: Seq<char>,
)
    ensures
        lies_over(overlay_form(layer, root, upper, work), upper, layer, root),
{
    let options = overlay_form(layer, root, upper, work);
    law_options_name_their_directories(layer, root, upper, work);
    let dirs = directories(options, "upperdir"@) + directories(options, "lowerdir"@);
    assert(dirs =~= seq![upper, layer, root]);
    assert forall|disk: spec_fn(Seq<char>, Seq<char>) -> Option<int>, path: Seq<char>|
        #[trigger] mount_shows(options, disk, path) == if disk(upper, path) is Some {
            disk(upper, path)
        } else if disk(layer, path) is Some {
            disk(layer, path)
        } else {
            disk(root, path)
        } by {
        reveal_with_fuel(first_with, 4);
        assert(dirs.drop_first() =~= seq![layer, root]);
        assert(dirs.drop_first().drop_first() =~= seq![root]);
        assert(dirs.drop_first().drop_first().drop_first() =~= Seq::<Seq<char>>::empty());
    }
}

/// The directories that a mount works with, and its options.
#[derive(Debug)]
pub struct OverlayPlan {
    pub upper: String,
    pub work: String,
    pub mountpoint: String,
    pub options: String,
    /// The file whose presence shows that the mount is ready.
    pub ready: String,
}

/// Plans the mount of a loadout over the game.
pub fn plan_overlay(
    paths: &AppPaths,
    profile: &Profile,
    game: &GameInstall,
    loadout: &MaterializedLoadout,
) -> (r: OverlayPlan)
    ensures
        r.upper@ == join_path(paths.profile_place(profile.id@), "runtime-upper"@),
        r.upper@ == state_dirs(paths.profile_place(profile.id@)).0,
        r.work@ == join_path(paths.profile_place(profile.id@), "runtime-work"@),
        r.mountpoint@ == mount_place(*paths, profile.id@),
        r.options@ == overlay_form(loadout.layer@, game.root@, r.upper@, r.work@),
        lies_over(r.options@, r.upper@, loadout.layer@, game.root@),
        r.ready@ == join_path(r.mountpoint@, "bin/x64/Cyberpunk2077.exe"@),
{
    let profile_dir = paths.profile_dir(&profile.id);
    let upper = join(&profile_dir, "runtime-upper");
    let work = join(&profile_dir, "runtime-work");
    let mountpoint = mountpoint(paths, &profile.id);
    let options = "lowerdir=".to_owned().concat(&overlay_escape(&loadout.layer)).concat(":").concat(
        &overlay_escape(&game.root),
    ).concat(",upperdir=").concat(&overlay_escape(&upper)).concat(",workdir=").concat(
        &overlay_escape(&work),
    );
    let ready = join(&mountpoint, "bin/x64/Cyberpunk2077.exe");
    proof {
        law_mods_lie_over_the_game(loadout.layer@, game.root@, upper@, work@);
    }
    OverlayPlan { upper, work, mountpoint, options, ready }
}

/// The verbs that prepare a prefix.
pub fn prepare_winetricks_args(redmod: bool) -> (r: Vec<&'static str>)
    ensures
        crate::catalog::literal_views(r@) == seq![
            "winetricks"@,
            "-q"@,
            "vcrun2022"@,
            "d3dcompiler_47"@,
        ] + (if redmod {
            seq!["dotnet6"@]
        } else {
            Seq::empty()
        }),
{
    let mut verbs = vec!["winetricks", "-q", "vcrun2022", "d3dcompiler_47"];
    if redmod {
        verbs.push("dotnet6");
    }
    assert(crate::catalog::literal_views(verbs@) =~= seq![
        "winetricks"@,
        "-q"@,
        "vcrun2022"@,
        "d3dcompiler_47"@,
    ] + (if redmod {
        seq!["dotnet6"@]
    } else {
        Seq::empty()
    }));
    verbs
}

proof fn lemma_keys_differ()
    ensures
        "WINEPREFIX"@ != "GAMEID"@ && "WINEPREFIX"@ != "STORE"@ && "WINEPREFIX"@ != "PROTONPATH"@,
        "WINEPREFIX"@ != "SteamAppId"@ && "WINEPREFIX"@ != "SteamGameId"@,
        "WINEPREFIX"@ != "STEAM_COMPAT_APP_ID"@ && "WINEPREFIX"@ != "WINEDLLOVERRIDES"@,
        "GAMEID"@ != "STORE"@ && "GAMEID"@ != "PROTONPATH"@ && "GAMEID"@ != "SteamAppId"@,
        "GAMEID"@ != "SteamGameId"@ && "GAMEID"@ != "STEAM_COMPAT_APP_ID"@,
        "GAMEID"@ != "WINEDLLOVERRIDES"@,
        "STORE"@ != "PROTONPATH"@ && "STORE"@ != "SteamAppId"@ && "STORE"@ != "SteamGameId"@,
        "STORE"@ != "STEAM_COMPAT_APP_ID"@ && "STORE"@ != "WINEDLLOVERRIDES"@,
{
    reveal_strlit("WINEPREFIX");
    reveal_strlit("GAMEID");
    reveal_strlit("STORE");
    reveal_strlit("SteamAppId");
    reveal_strlit("SteamGameId");
    reveal_strlit("STEAM_COMPAT_APP_ID");
    reveal_strlit("WINEDLLOVERRIDES");
    reveal_strlit("PROTONPATH");
    assert("WINEPREFIX"@[0] == 'W' && "GAMEID"@[0] == 'G' && "STORE"@[0] == 'S');
    assert("PROTONPATH"@[0] == 'P' && "SteamAppId"@[0] == 'S' && "SteamGameId"@[0] == 'S');
    assert("STEAM_COMPAT_APP_ID"@[0] == 'S' && "WINEDLLOVERRIDES"@[0] == 'W');
    assert("STORE"@.len() == 5 && "WINEDLLOVERRIDES"@.len() == 16 && "WINEPREFIX"@.len() == 10);
    assert("SteamAppId"@.len() == 10 && "SteamGameId"@.len() == 11);
}

/// The environment that a prefix is prepared in.
pub fn prepare_environment(paths: &AppPaths, profile: &Profile) -> (r: TextMap)
    ensures
        r@ == with_runner(
            Map::<Seq<char>, Seq<char>>::empty().insert(
                "WINEPREFIX"@,
                prefix_place(*paths, profile.id@),
            ).insert("GAMEID"@, "umu-1091500"@).insert("STORE"@, "steam"@),
            profile.runner@,
        ),
        r@.dom().contains("WINEPREFIX"@),
        forall|key: Seq<char>| #[trigger]
            r@.dom().contains(key) ==> launch_environment(*paths, *profile).dom().contains(key)
                && launch_environment(*paths, *profile)[key] == r@[key],
{
    let mut environment = TextMap::new();
    environment.insert("WINEPREFIX", &join(&paths.profile_dir(&profile.id), "prefix"));
    environment.insert("GAMEID", "umu-1091500");
    environment.insert("STORE", "steam");
    set_runner(&mut environment, &profile.runner);
    proof {
        lemma_keys_differ();
    }
    environment
}

/// The file that marks a prepared profile.
pub fn prepared_marker(paths: &AppPaths, profile_id: &str) -> (r: String)
    ensures
        r@ == join_path(paths.profile_place(profile_id@), "prepared.marker"@),
{
    join(&paths.profile_dir(profile_id), "prepared.marker")
}

/// The record of a started game: the executable and its arguments as a list of
/// string literals.
pub fn run_command(plan: &LaunchPlan) -> (r: String)
    ensures
        r@ == plan.executable@ + " ["@ + joined(
            views(plan.args@).map_values(|arg: Seq<char>| quoted(arg)),
            ", "@,
        ) + "]"@,
{
    let args = quote_all(&plan.args);
    plan.executable.clone().concat(" [").concat(&join_texts(&args, ", ")).concat("]")
}

fn quote_all(list: &Vec<String>) -> (r: Vec<String>)
    ensures
        views(r@) == views(list@).map_values(|arg: Seq<char>| quoted(arg)),
{
    let mut r: Vec<String> = Vec::new();
    let mut i: usize = 0;
    let ghost turn = |arg: Seq<char>| quoted(arg);
    while i < list.len()
        invariant
            i <= list@.len(),
            turn == (|arg: Seq<char>| quoted(arg)),
            r@.len() == i,
            forall|j: int| 0 <= j < i ==> (#[trigger] r@[j])@ == quoted(list@[j]@),
        decreases list@.len() - i,
    {
        r.push(debug_text(&list[i]));
        i += 1;
    }
    assert(views(r@) =~= views(list@).map_values(turn));
    r
}

/// Arguments as a line of string literals.
pub open spec fn shown_args(args: Seq<Seq<char>>) -> Seq<char> {
    joined(args.map_values(|arg: Seq<char>| quoted(arg)), " "@)
}

/// Arguments as a line of string literals.
pub fn shell_display(args: &Vec<String>) -> (r: String)
    ensures
        r@ == shown_args(views(args@)),
{
    join_texts(&quote_all(args), " ")
}

/// A file to be moved.
#[derive(Debug)]
pub struct Move {
    pub source: String,
    pub destination: String,
}

/// A list of moves, as pairs of paths.
pub open spec fn move_views(list: Seq<Move>) -> Seq<(Seq<char>, Seq<char>)> {
    list.map_values(|m: Move| (m.source@, m.destination@))
}

/// Whether a list of owned paths gives a path to an owner.
pub open spec fn owns(current: Seq<(String, String)>, path: Seq<char>, owner: Seq<char>) -> bool {
    exists|i: int|
        0 <= i < current.len() && same_place((#[trigger] current[i]).0@, path) && current[i].1@ == owner
}

/// Where the changed state of an owner's path is kept while it is not in use.
pub open spec fn parked_place(parked: Seq<char>, path: Seq<char>, owner: Seq<char>) -> Seq<char> {
    join_path(join_path(parked, owner), path)
}

/// The move that takes the changed state of a path out of use.
pub open spec fn park_move(
    upper: Seq<char>,
    parked: Seq<char>,
    path: Seq<char>,
    owner: Seq<char>,
) -> (Seq<char>, Seq<char>) {
    (join_path(upper, path), parked_place(parked, path, owner))
}

/// The move that brings the kept state of a path back into use.
pub open spec fn restore_move(
    upper: Seq<char>,
    parked: Seq<char>,
    path: Seq<char>,
    owner: Seq<char>,
) -> (Seq<char>, Seq<char>) {
    (parked_place(parked, path, owner), join_path(upper, path))
}

/// The moves that take out of use what the former owners of paths changed.
pub open spec fn park_moves(
    previous: Seq<(String, String)>,
    current: Seq<(String, String)>,
    upper: Seq<char>,
    parked: Seq<char>,
) -> Seq<(Seq<char>, Seq<char>)> {
    previous.filter(|p: (String, String)| !owns(current, p.0@, p.1@)).map_values(
        |p: (String, String)| park_move(upper, parked, p.0@, p.1@),
    )
}

/// The moves that bring back what the present owners of paths changed.
pub open spec fn restore_moves(
    current: Seq<(String, String)>,
    upper: Seq<char>,
    parked: Seq<char>,
) -> Seq<(Seq<char>, Seq<char>)> {
    current.map_values(|p: (String, String)| restore_move(upper, parked, p.0@, p.1@))
}

/// While the owners of paths stay the same nothing is put aside.
pub proof fn law_same_owners_park_nothing(
    owners: Seq<(String, String)>,
    upper: Seq<char>,
    parked: Seq<char>,
)
    ensures
        park_moves(owners, owners, upper, parked).len() == 0,
{
    let keep = |p: (String, String)| !owns(owners, p.0@, p.1@);
    if owners.filter(keep).len() > 0 {
        let k = crate::order::lemma_filtered(owners, keep, 0);
        assert(same_place(owners[k].0@, owners[k].0@));
    }
}

fn find_path(current: &Vec<(String, String)>, path: &str) -> (r: Option<usize>)
    requires
        by_path(current@),
    ensures
        match r {
            Some(i) => i < current@.len() && same_place(current@[i as int].0@, path@),
            None => forall|i: int|
                0 <= i < current@.len() ==> !same_place((#[trigger] current@[i]).0@, path@),
        },
{
    let key = components(path);
    let ghost wanted = parts(path@);
    let ghost lt = |a: Seq<Part>, b: Seq<Part>| parts_lt(a, b);
    proof {
        lemma_parts_order();
    }
    let mut low: usize = 0;
    let mut high: usize = current.len();
    while low < high
        invariant
            low <= high <= current@.len(),
            by_path(current@),
            wanted == parts(path@),
            crate::path::part_views(key@) == wanted,
            lt == (|a: Seq<Part>, b: Seq<Part>| parts_lt(a, b)),
            crate::order::strict_total(lt),
            forall|i: int| 0 <= i < low ==> parts((#[trigger] current@[i]).0@) != wanted,
            forall|i: int|
                high <= i < current@.len() ==> parts((#[trigger] current@[i]).0@) != wanted,
        decreases high - low,
    {
        let middle: usize = low + (high - low) / 2;
        let here = components(&current[middle].0);
        let ghost at = parts(current@[middle as int].0@);
        if same_parts(&here, &key) {
            return Some(middle);
        }
        if parts_before(&here, &key) {
            assert forall|i: int| 0 <= i < middle + 1 implies parts((#[trigger] current@[i]).0@)
                != wanted by {
                if i < middle {
                    assert(path_lt(current@[i].0@, current@[middle as int].0@));
                    assert(lt(parts(current@[i].0@), at) && lt(at, wanted));
                    assert(lt(parts(current@[i].0@), wanted));
                }
            }
            low = middle + 1;
        } else {
            assert forall|i: int| middle <= i < current@.len() implies parts(
                (#[trigger] current@[i]).0@,
            ) != wanted by {
                assert(lt(at, wanted) || lt(wanted, at));
                if i > middle {
                    assert(path_lt(current@[middle as int].0@, current@[i].0@));
                    assert(lt(wanted, at) && lt(at, parts(current@[i].0@)));
                    assert(lt(wanted, parts(current@[i].0@)));
                }
            }
            high = middle;
        }
    }
    None
}

fn is_owner(current: &Vec<(String, String)>, path: &str, owner: &String) -> (r: bool)
    requires
        by_path(current@),
    ensures
        r == owns(current@, path@, owner@),
{
    match find_path(current, path) {
        None => false,
        Some(i) => {
            proof {
                lemma_parts_order();
                let lt = |a: Seq<Part>, b: Seq<Part>| parts_lt(a, b);
                assert forall|j: int|
                    0 <= j < current@.len() && same_place((#[trigger] current@[j]).0@, path@) implies j
                    == i by {
                    if j < i {
                        assert(path_lt(current@[j].0@, current@[i as int].0@));
                        assert(lt(parts(path@), parts(path@)));
                    }
                    if i < j {
                        assert(path_lt(current@[i as int].0@, current@[j].0@));
                        assert(lt(parts(path@), parts(path@)));
                    }
                }
            }
            current[i].1 == *owner
        },
    }
}

/// What to move out of the upper directory before a mount, and what to move back
/// into it. Each move is made where its source is there; one of the second list
/// only where nothing is at its destination.
pub fn reconcile_moves(
    previous: &Vec<(String, String)>,
    current: &Vec<(String, String)>,
    upper: &str,
    parked: &str,
) -> (r: (Vec<Move>, Vec<Move>))
    requires
        by_path(current@),
    ensures
        move_views(r.0@) == park_moves(previous@, current@, upper@, parked@),
        move_views(r.1@) == restore_moves(current@, upper@, parked@),
{
    let mut out: Vec<Move> = Vec::new();
    let ghost keep = |p: (String, String)| !owns(current@, p.0@, p.1@);
    let ghost turn = |p: (String, String)| park_move(upper@, parked@, p.0@, p.1@);
    let mut i: usize = 0;
    assert(move_views(out@) =~= previous@.take(0).filter(keep).map_values(turn)) by {
        reveal(Seq::filter);
    }
    while i < previous.len()
        invariant
            i <= previous@.len(),
            by_path(current@),
            keep == (|p: (String, String)| !owns(current@, p.0@, p.1@)),
            turn == (|p: (String, String)| park_move(upper@, parked@, p.0@, p.1@)),
            move_views(out@) == previous@.take(i as int).filter(keep).map_values(turn),
        decreases previous@.len() - i,
    {
        let ghost had = move_views(out@);
        let ghost before = previous@.take(i as int).filter(keep);
        let ghost now = previous@.take(i + 1);
        assert(now.drop_last() =~= previous@.take(i as int));
        assert(now.filter(keep) == if keep(previous@[i as int]) {
            before.push(previous@[i as int])
        } else {
            before
        }) by {
            reveal(Seq::filter);
        }
        let path = &previous[i].0;
        let owner = &previous[i].1;
        if !is_owner(current, path, owner) {
            out.push(
                Move { source: join(upper, path), destination: join(&join(parked, owner), path) },
            );
            assert(move_views(out@) =~= had.push(turn(previous@[i as int])));
            assert(now.filter(keep).map_values(turn) =~= before.map_values(turn).push(
                turn(previous@[i as int]),
            ));
        }
        i += 1;
    }
    assert(previous@.take(i as int) =~= previous@);
    let mut back: Vec<Move> = Vec::new();
    let mut k: usize = 0;
    while k < current.len()
        invariant
            k <= current@.len(),
            back@.len() == k,
            forall|j: int|
                0 <= j < k ==> ((#[trigger] back@[j]).source@, back@[j].destination@) == restore_move(
                    upper@,
                    parked@,
                    current@[j].0@,
                    current@[j].1@,
                ),
        decreases current@.len() - k,
    {
        let path = &current[k].0;
        let owner = &current[k].1;
        back.push(
            Move { source: join(&join(parked, owner), path), destination: join(upper, path) },
        );
        k += 1;
    }
    assert(move_views(back@) =~= restore_moves(current@, upper@, parked@));
    (out, back)
}

/// Whether owners stand in the order of their paths, each path once.
pub fn are_by_path(owners: &Vec<(String, String)>) -> (r: bool)
    ensures
        r == by_path(owners@),
{
    let mut i: usize = 1;
    while i < owners.len()
        invariant
            1 <= i,
            owners@.len() > 0 ==> i <= owners@.len(),
            forall|j: int, k: int|
                0 <= j < k < i && k < owners@.len() ==> path_lt(
                    (#[trigger] owners@[j]).0@,
                    (#[trigger] owners@[k]).0@,
                ),
        decreases owners@.len() - i,
    {
        if !path_before(&owners[i - 1].0, &owners[i].0) {
            assert(!path_lt(owners@[i - 1].0@, owners@[i as int].0@));
            return false;
        }
        proof {
            lemma_parts_order();
            let lt = |a: Seq<Part>, b: Seq<Part>| parts_lt(a, b);
            let last = parts(owners@[i as int].0@);
            let before = parts(owners@[i - 1].0@);
            assert(lt(before, last));
            assert forall|j: int| 0 <= j < i implies path_lt(
                (#[trigger] owners@[j]).0@,
                owners@[i as int].0@,
            ) by {
                if j < i - 1 {
                    assert(path_lt(owners@[j].0@, owners@[i - 1].0@));
                    assert(lt(parts(owners@[j].0@), before));
                    assert(lt(parts(owners@[j].0@), last));
                }
            }
        }
        i += 1;
    }
    true
}

/// The owners that a manifest of an earlier run names; none where there is no
/// manifest or it cannot be read.
pub fn manifest_owners(manifest: &Option<String>) -> (r: Vec<(String, String)>)
    ensures
        pair_views(r@) == match *manifest {
            Some(text) => match owners_of_json(text@) {
                Some(owners) => owners,
                None => Seq::empty(),
            },
            None => Seq::empty(),
        },
        by_path(r@),
{
    if let Some(text) = manifest {
        if let Some(owners) = parse_owners_json(text) {
            return owners;
        }
    }
    let none: Vec<(String, String)> = Vec::new();
    assert(pair_views(none@) =~= Seq::empty());
    none
}

/// The manifest that names the owners of paths, which are read back from it.
pub fn manifest_text(owners: &Vec<(String, String)>) -> (r: String)
    requires
        by_path(owners@),
    ensures
        r@ == owners_json(pair_views(owners@)),
        owners_of_json(r@) == Some(pair_views(owners@)),
{
    owners_json_text(owners)
}

/// Where the changed state of mods that do not own their paths is kept.
pub fn parked_dir(paths: &AppPaths, profile_id: &str) -> (r: String)
    ensures
        r@ == join_path(paths.profile_place(profile_id@), "parked-state"@),
        r@ == state_dirs(paths.profile_place(profile_id@)).1,
{
    join(&paths.profile_dir(profile_id), "parked-state")
}

/// The file that names the owners of paths of the last run.
pub fn ownership_path(paths: &AppPaths, profile_id: &str) -> (r: String)
    ensures
        r@ == join_path(paths.profile_place(profile_id@), "runtime-ownership.json"@),
{
    join(&paths.profile_dir(profile_id), "runtime-ownership.json")
}

/// The file that locks a profile while it runs.
pub fn lock_path(paths: &AppPaths, profile_id: &str) -> (r: String)
    ensures
        r@ == join_path(paths.profile_place(profile_id@), "run.lock"@),
{
    join(&paths.profile_dir(profile_id), "run.lock")
}

/// Whether a text holds decimal digits and nothing else.
pub open spec fn all_digits(text: Seq<char>) -> bool {
    forall|i: int| 0 <= i < text.len() ==> '0' <= #[trigger] text[i] && text[i] <= '9'
}

/// The number that decimal digits stand for.
pub open spec fn digits_value(text: Seq<char>) -> nat
    decreases text.len(),
{
    if text.len() == 0 {
        0
    } else {
        digits_value(text.drop_last()) * 10 + (text.last() as u32 - '0' as u32) as nat
    }
}

/// A text without a plus sign at its beginning.
pub open spec fn without_plus(text: Seq<char>) -> Seq<char> {
    if text.len() > 0 && text[0] == '+' {
        text.drop_first()
    } else {
        text
    }
}

/// The number of 32 bits that a text holds.
pub open spec fn number_in(text: Seq<char>) -> Option<u32> {
    let digits = without_plus(text);
    if digits.len() > 0 && all_digits(digits) && digits_value(digits) <= u32::MAX {
        Some(digits_value(digits) as u32)
    } else {
        None
    }
}

proof fn lemma_value_grows(text: Seq<char>, n: int)
    requires
        0 <= n <= text.len(),
    ensures
        digits_value(text.take(n)) <= digits_value(text),
    decreases text.len() - n,
{
    if n < text.len() {
        lemma_value_grows(text, n + 1);
        assert(text.take(n + 1).drop_last() =~= text.take(n));
    } else {
        assert(text.take(n) =~= text);
    }
}

fn parse_number(text: &str) -> (r: Option<u32>)
    ensures
        r == number_in(text@),
{
    let chars = chars_of(text);
    let start: usize = if chars.len() > 0 && chars[0] == '+' {
        1
    } else {
        0
    };
    let ghost digits = without_plus(text@);
    assert(digits =~= chars@.skip(start as int));
    if start >= chars.len() {
        return None;
    }
    let mut value: u64 = 0;
    let mut i: usize = start;
    assert(digits.take(0) =~= Seq::<char>::empty());
    while i < chars.len()
        invariant
            start <= i <= chars@.len(),
            digits == without_plus(text@),
            digits == chars@.skip(start as int),
            value <= u32::MAX,
            value == digits_value(digits.take(i - start)),
            forall|j: int| 0 <= j < i - start ==> '0' <= #[trigger] digits[j] && digits[j] <= '9',
        decreases chars@.len() - i,
    {
        let c = chars[i];
        assert(digits[i - start] == c);
        if !('0' <= c && c <= '9') {
            return None;
        }
        let ghost now = digits.take(i - start + 1);
        assert(now.drop_last() =~= digits.take(i - start));
        value = value * 10 + ((c as u32) - ('0' as u32)) as u64;
        if value > 0xffff_ffff {
            proof {
                lemma_value_grows(digits, i - start + 1);
            }
            return None;
        }
        i += 1;
    }
    assert(digits.take(i - start) =~= digits);
    Some(value as u32)
}

/// The process that a lock names.
pub open spec fn holder_in(contents: Seq<char>) -> Option<u32> {
    number_in(trimmed(contents, CharClass::White))
}

/// The process that a lock names.
pub fn lock_holder(contents: &str) -> (r: Option<u32>)
    ensures
        r == holder_in(contents@),
{
    parse_number(&trim(contents, &CharClass::White))
}

/// What a process writes into its lock.
pub open spec fn lock_form(pid: u32) -> Seq<char> {
    decimal(pid as nat) + "\n"@
}

/// What a process writes into its lock.
pub fn lock_text(pid: u32) -> (r: String)
    ensures
        r@ == lock_form(pid),
{
    decimal_text(pid as u128).concat("\n")
}

/// The directory that is there while a process runs.
pub fn process_path(pid: u32) -> (r: String)
    ensures
        r@ == join_path("/proc"@, decimal(pid as nat)),
{
    join("/proc", &decimal_text(pid as u128))
}

proof fn lemma_decimal(n: nat)
    ensures
        decimal(n).len() > 0,
        all_digits(decimal(n)),
        digits_value(decimal(n)) == n,
    decreases n,
{
    if n >= 10 {
        lemma_decimal(n / 10);
        assert(decimal(n).drop_last() =~= decimal(n / 10));
        assert(digit(n % 10) as u32 == '0' as u32 + n % 10);
    } else {
        assert(decimal(n).drop_last() =~= Seq::<char>::empty());
        assert(digit(n) as u32 == '0' as u32 + n);
        assert(digits_value(Seq::<char>::empty()) == 0);
    }
}

/// A lock names the process that wrote it.
pub proof fn law_lock_names_its_writer(pid: u32)
    ensures
        holder_in(lock_form(pid)) == Some(pid),
{
    let digits = decimal(pid as nat);
    lemma_decimal(pid as nat);
    reveal_strlit("\n");
    let whole = lock_form(pid);
    assert(whole[0] == digits[0]);
    assert(trimmed_start(whole, CharClass::White) == whole);
    assert(whole.last() == '\n');
    assert(whole.drop_last() =~= digits);
    assert(!is_white(digits[digits.len() - 1]));
    assert(trimmed_end(digits, CharClass::White) == digits);
    assert(trimmed(whole, CharClass::White) == digits);
    assert(without_plus(digits) == digits);
}

/// What to do about the lock of a profile.
#[derive(Debug, Clone, Copy, PartialEq, Eq, Structural)]
pub enum LockStep {
    /// The profile runs already.
    Refuse,
    /// The lock was left behind.
    Replace,
    /// There is no lock.
    Take,
}

/// Decides on the lock of a profile. `alive` tells whether the holder runs.
pub fn lock_step(present: bool, holder: Option<u32>, alive: bool) -> (r: LockStep)
    ensures
        r == if !present {
            LockStep::Take
        } else if holder is Some && alive {
            LockStep::Refuse
        } else {
            LockStep::Replace
        },
        r == LockStep::Refuse <==> present && holder is Some && alive,
        r == LockStep::Take <==> !present,
{
    if !present {
        LockStep::Take
    } else if holder.is_some() && alive {
        LockStep::Refuse
    } else {
        LockStep::Replace
    }
}

/// How the wait for a mount goes on.
#[derive(Debug, Clone, Copy, PartialEq, Eq, Structural)]
pub enum MountWait {
    Ready,
    Again,
    TimedOut,
}

/// Decides on the wait for a mount, of which some milliseconds have passed.
pub fn mount_wait(ready: bool, elapsed: u64) -> (r: MountWait)
    ensures
        r == if elapsed >= 5000 {
            MountWait::TimedOut
        } else if ready {
            MountWait::Ready
        } else {
            MountWait::Again
        },
        r == MountWait::Ready <==> ready && elapsed < 5000,
{
    if elapsed >= 5000 {
        MountWait::TimedOut
    } else if ready {
        MountWait::Ready
    } else {
        MountWait::Again
    }
}

/// The steps of a launch.
#[derive(Debug, Clone, Copy, PartialEq, Eq, Structural)]
pub enum LaunchStage {
    RecordOverride,
    FindUmu,
    FindOverlay,
    FindFusermount,
    CheckPrepared,
    Lock,
    LinkSaves,
    BackUpProfile,
    BackUpSaves,
    StartSteam,
    Mount,
    DeployRedmods,
    RecordStart,
    Spawn,
    Wait,
    RecordFinish,
    Unmount,
    RecordFailure,
    Done,
    Failed,
}

/// The first step of a launch: a forced build is put on record.
pub open spec fn opening_stage(force: bool, build_changed: bool) -> LaunchStage {
    if force && build_changed {
        LaunchStage::RecordOverride
    } else {
        LaunchStage::FindUmu
    }
}

/// The step after a step that succeeded or not.
pub open spec fn stage_after(stage: LaunchStage, ok: bool, redmod: bool) -> LaunchStage {
    match stage {
        LaunchStage::BackUpProfile => LaunchStage::BackUpSaves,
        LaunchStage::StartSteam => LaunchStage::Mount,
        LaunchStage::RecordFailure => LaunchStage::Failed,
        LaunchStage::Done => LaunchStage::Done,
        LaunchStage::Failed => LaunchStage::Failed,
        LaunchStage::Spawn => if ok {
            LaunchStage::Wait
        } else {
            LaunchStage::RecordFailure
        },
        _ => if !ok {
            LaunchStage::Failed
        } else {
            match stage {
                LaunchStage::RecordOverride => LaunchStage::FindUmu,
                LaunchStage::FindUmu => LaunchStage::FindOverlay,
                LaunchStage::FindOverlay => LaunchStage::FindFusermount,
                LaunchStage::FindFusermount => LaunchStage::CheckPrepared,
                LaunchStage::CheckPrepared => LaunchStage::Lock,
                LaunchStage::Lock => LaunchStage::LinkSaves,
                LaunchStage::LinkSaves => LaunchStage::BackUpProfile,
                LaunchStage::BackUpSaves => LaunchStage::StartSteam,
                LaunchStage::Mount => if redmod {
                    LaunchStage::DeployRedmods
                } else {
                    LaunchStage::RecordStart
                },
                LaunchStage::DeployRedmods => LaunchStage::RecordStart,
                LaunchStage::RecordStart => LaunchStage::Spawn,
                LaunchStage::Wait => LaunchStage::RecordFinish,
                LaunchStage::RecordFinish => LaunchStage::Unmount,
                _ => LaunchStage::Done,
            }
        },
    }
}

/// The first step of a launch.
pub fn first_stage(force: bool, build_changed: bool) -> (r: LaunchStage)
    ensures
        r == opening_stage(force, build_changed),
{
    if force && build_changed {
        LaunchStage::RecordOverride
    } else {
        LaunchStage::FindUmu
    }
}

/// The step after a step that succeeded or not.
pub fn next_stage(stage: LaunchStage, ok: bool, redmod: bool) -> (r: LaunchStage)
    ensures
        r == stage_after(stage, ok, redmod),
{
    match stage {
        LaunchStage::BackUpProfile => LaunchStage::BackUpSaves,
        LaunchStage::StartSteam => LaunchStage::Mount,
        LaunchStage::RecordFailure => LaunchStage::Failed,
        LaunchStage::Done => LaunchStage::Done,
        LaunchStage::Failed => LaunchStage::Failed,
        LaunchStage::Spawn => if ok {
            LaunchStage::Wait
        } else {
            LaunchStage::RecordFailure
        },
        _ => if !ok {
            LaunchStage::Failed
        } else {
            match stage {
                LaunchStage::RecordOverride => LaunchStage::FindUmu,
                LaunchStage::FindUmu => LaunchStage::FindOverlay,
                LaunchStage::FindOverlay => LaunchStage::FindFusermount,
                LaunchStage::FindFusermount => LaunchStage::CheckPrepared,
                LaunchStage::CheckPrepared => LaunchStage::Lock,
                LaunchStage::Lock => LaunchStage::LinkSaves,
                LaunchStage::LinkSaves => LaunchStage::BackUpProfile,
                LaunchStage::BackUpSaves => LaunchStage::StartSteam,
                LaunchStage::Mount => if redmod {
                    LaunchStage::DeployRedmods
                } else {
                    LaunchStage::RecordStart
                },
                LaunchStage::DeployRedmods => LaunchStage::RecordStart,
                LaunchStage::RecordStart => LaunchStage::Spawn,
                LaunchStage::Wait => LaunchStage::RecordFinish,
                LaunchStage::RecordFinish => LaunchStage::Unmount,
                _ => LaunchStage::Done,
            }
        },
    }
}

/// Where a launch stands after some steps with their outcomes.
pub open spec fn stage_reached(start: LaunchStage, outcomes: Seq<bool>, redmod: bool) -> LaunchStage
    decreases outcomes.len(),
{
    if outcomes.len() == 0 {
        start
    } else {
        stage_after(
            stage_reached(start, outcomes.drop_last(), redmod),
            outcomes.last(),
            redmod,
        )
    }
}

/// Whether a launch went through a step with success.
pub open spec fn passed(
    start: LaunchStage,
    outcomes: Seq<bool>,
    redmod: bool,
    stage: LaunchStage,
) -> bool {
    exists|i: int|
        0 <= i < outcomes.len() && #[trigger] outcomes[i] && stage_reached(
            start,
            outcomes.take(i),
            redmod,
        ) == stage
}

spec fn rank(stage: LaunchStage) -> int {
    match stage {
        LaunchStage::RecordOverride => 0,
        LaunchStage::FindUmu => 1,
        LaunchStage::FindOverlay => 2,
        LaunchStage::FindFusermount => 3,
        LaunchStage::CheckPrepared => 4,
        LaunchStage::Lock => 5,
        LaunchStage::LinkSaves => 6,
        LaunchStage::BackUpProfile => 7,
        LaunchStage::BackUpSaves => 8,
        LaunchStage::StartSteam => 9,
        LaunchStage::Mount => 10,
        LaunchStage::DeployRedmods => 11,
        LaunchStage::RecordStart => 12,
        LaunchStage::Spawn => 13,
        LaunchStage::Wait => 14,
        LaunchStage::RecordFinish => 15,
        LaunchStage::Unmount => 16,
        LaunchStage::RecordFailure => 17,
        LaunchStage::Done => 18,
        LaunchStage::Failed => -1,
    }
}

proof fn lemma_passed(
    start: LaunchStage,
    outcomes: Seq<bool>,
    redmod: bool,
    gate: LaunchStage,
)
    requires
        start == LaunchStage::RecordOverride || start == LaunchStage::FindUmu,
        2 <= rank(gate) < 13,
        gate != LaunchStage::BackUpProfile,
        gate != LaunchStage::StartSteam,
        gate == LaunchStage::DeployRedmods ==> redmod,
        rank(stage_reached(start, outcomes, redmod)) > rank(gate),
    ensures
        passed(start, outcomes, redmod, gate),
    decreases outcomes.len(),
{
    let front = outcomes.drop_last();
    let before = stage_reached(start, front, redmod);
    let n = outcomes.len() - 1;
    assert(outcomes.take(n) =~= front);
    if before == gate {
        assert(outcomes[n]);
    } else {
        lemma_passed(start, front, redmod, gate);
        let i = choose|i: int|
            0 <= i < front.len() && #[trigger] front[i] && stage_reached(
                start,
                front.take(i),
                redmod,
            ) == gate;
        assert(outcomes[i] == front[i]);
        assert(outcomes.take(i) =~= front.take(i));
    }
}

/// The game is started only for a prepared profile that no other run holds, with
/// its saves linked and backed up, the loadout mounted and its REDmods deployed.
pub proof fn law_game_starts_behind_the_gates(
    force: bool,
    build_changed: bool,
    outcomes: Seq<bool>,
    redmod: bool,
)
    requires
        stage_reached(opening_stage(force, build_changed), outcomes, redmod) == LaunchStage::Spawn,
    ensures
        passed(opening_stage(force, build_changed), outcomes, redmod, LaunchStage::CheckPrepared),
        passed(opening_stage(force, build_changed), outcomes, redmod, LaunchStage::Lock),
        passed(opening_stage(force, build_changed), outcomes, redmod, LaunchStage::LinkSaves),
        passed(opening_stage(force, build_changed), outcomes, redmod, LaunchStage::BackUpSaves),
        passed(opening_stage(force, build_changed), outcomes, redmod, LaunchStage::Mount),
        redmod ==> passed(
            opening_stage(force, build_changed),
            outcomes,
            redmod,
            LaunchStage::DeployRedmods,
        ),
{
    let start = opening_stage(force, build_changed);
    lemma_passed(start, outcomes, redmod, LaunchStage::CheckPrepared);
    lemma_passed(start, outcomes, redmod, LaunchStage::Lock);
    lemma_passed(start, outcomes, redmod, LaunchStage::LinkSaves);
    lemma_passed(start, outcomes, redmod, LaunchStage::BackUpSaves);
    lemma_passed(start, outcomes, redmod, LaunchStage::Mount);
    if redmod {
        lemma_passed(start, outcomes, redmod, LaunchStage::DeployRedmods);
    }
}

/// Why a launch failed at a step that asks for something that is not there.
pub fn stage_error(stage: LaunchStage, profile: &Profile) -> (r: Option<LaunchError>)
    ensures
        match stage {
            LaunchStage::FindUmu => r is Some && r->0 is CommandMissing && r->0->CommandMissing_0@
                == "umu-run"@,
            LaunchStage::FindOverlay => r is Some && r->0 is CommandMissing
                && r->0->CommandMissing_0@ == "fuse-overlayfs"@,
            LaunchStage::FindFusermount => r is Some && r->0 is CommandMissing
                && r->0->CommandMissing_0@ == "fusermount3"@,
            LaunchStage::CheckPrepared => r is Some && r->0 is NotPrepared && r->0->NotPrepared_0@
                == profile.name@,
            LaunchStage::Lock => r is Some && r->0 is AlreadyRunning,
            LaunchStage::Mount => r is Some && r->0 is OverlayTimeout,
            _ => r is None,
        },
{
    match stage {
        LaunchStage::FindUmu => Some(LaunchError::CommandMissing("umu-run".to_owned())),
        LaunchStage::FindOverlay => Some(LaunchError::CommandMissing("fuse-overlayfs".to_owned())),
        LaunchStage::FindFusermount => Some(LaunchError::CommandMissing("fusermount3".to_owned())),
        LaunchStage::CheckPrepared => Some(LaunchError::NotPrepared(profile.name.clone())),
        LaunchStage::Lock => Some(LaunchError::AlreadyRunning),
        LaunchStage::Mount => Some(LaunchError::OverlayTimeout),
        _ => None,
    }
}

/// The game runs in the prefix of its profile, where its saves are looked for; it knows
/// itself by the number that Steam has for it; and it loads the files through which mods
/// reach it. A runner of its own is used where the profile names one. All else of the
/// environment is what the profile says.
pub proof fn law_game_runs_as_its_profile_says(paths: AppPaths, profile: Profile, key: Seq<char>)
    requires
        is_name(profile.id@),
    ensures
        ({
            let environment = launch_environment(paths, profile);
            let own = profile.environment@;
            let given = profile.runner@.len() > 0 && profile.runner@ != "UMU-Proton"@;
            &&& environment.dom().contains("WINEPREFIX"@)
            &&& join_path(
                environment["WINEPREFIX"@],
                "drive_c/users/steamuser/Saved Games/CD Projekt Red/Cyberpunk 2077"@,
            ) == profile_saves(paths, profile.id@)
            &&& environment.dom().contains("GAMEID"@) && environment["GAMEID"@] == "umu-1091500"@
            &&& environment.dom().contains("STORE"@) && environment["STORE"@] == "steam"@
            &&& environment.dom().contains("SteamAppId"@) && environment["SteamAppId"@]
                == "1091500"@
            &&& environment.dom().contains("SteamGameId"@) && environment["SteamGameId"@]
                == "1091500"@
            &&& environment.dom().contains("STEAM_COMPAT_APP_ID"@)
                && environment["STEAM_COMPAT_APP_ID"@] == "1091500"@
            &&& environment.dom().contains("WINEDLLOVERRIDES"@) && environment["WINEDLLOVERRIDES"@]
                == "winmm,version=n,b"@
            &&& given ==> environment.dom().contains("PROTONPATH"@) && environment["PROTONPATH"@]
                == profile.runner@
            &&& key != "WINEPREFIX"@ && key != "GAMEID"@ && key != "STORE"@ && key != "SteamAppId"@
                && key != "SteamGameId"@ && key != "STEAM_COMPAT_APP_ID"@ && key
                != "WINEDLLOVERRIDES"@ && !(given && key == "PROTONPATH"@) ==> (
            environment.dom().contains(key) <==> own.dom().contains(key)) && (own.dom().contains(
                key,
            ) ==> environment[key] == own[key])
        }),
{
    reveal_strlit("WINEPREFIX");
    reveal_strlit("GAMEID");
    reveal_strlit("STORE");
    reveal_strlit("SteamAppId");
    reveal_strlit("SteamGameId");
    reveal_strlit("STEAM_COMPAT_APP_ID");
    reveal_strlit("WINEDLLOVERRIDES");
    reveal_strlit("PROTONPATH");
    reveal_strlit("prefix");
    reveal_strlit("drive_c/users/steamuser/Saved Games/CD Projekt Red/Cyberpunk 2077");
    reveal_strlit("prefix/drive_c/users/steamuser/Saved Games/CD Projekt Red/Cyberpunk 2077");
    assert("WINEPREFIX"@[0] == 'W' && "GAMEID"@[0] == 'G' && "STORE"@[0] == 'S');
    assert("PROTONPATH"@[0] == 'P' && "SteamAppId"@[5] == 'A' && "SteamGameId"@[5] == 'G');
    assert("STEAM_COMPAT_APP_ID"@[1] == 'T' && "STEAM_COMPAT_APP_ID"@.len() == 19);
    assert("STORE"@.len() == 5 && "WINEDLLOVERRIDES"@.len() == 16 && "WINEPREFIX"@.len() == 10);
    assert("SteamAppId"@.len() == 10 && "SteamGameId"@.len() == 11 && "SteamAppId"@[0] == 'S');
    let id = profile.id@;
    assert(id.contains(id[0]) && id.contains(id.last()));
    let own = paths.profile_place(id);
    assert(own.last() == id.last());
    assert(join_path(
        join_path(own, "prefix"@),
        "drive_c/users/steamuser/Saved Games/CD Projekt Red/Cyberpunk 2077"@,
    ) =~= profile_saves(paths, id));
}

/// A plan starts the game that is mounted for the profile: its executable comes first,
/// then the mark of a modded game where there are REDmods, then the arguments of the
/// profile as they are. REDmods are deployed where there are any, all of them by their
/// names, into the mounted game.
pub proof fn law_plan_starts_the_mounted_game(
    plan: LaunchPlan,
    paths: AppPaths,
    profile: Profile,
    loadout: MaterializedLoadout,
)
    requires
        is_plan_of(plan, paths, profile, loadout),
    ensures
        ({
            let own = profile.launch_args@;
            let front = plan.args@.len() - own.len();
            let modded = loadout.redmods@.len() > 0;
            &&& plan.executable@ == "umu-run"@
            &&& plan.mountpoint@ == join_path(join_path(paths.runtime_dir@, profile.id@), "game"@)
            &&& plan.args@.len() > own.len()
            &&& plan.args@[0]@ == join_path(plan.mountpoint@, "bin/x64/Cyberpunk2077.exe"@)
            &&& front == if modded {
                2int
            } else {
                1
            }
            &&& modded ==> plan.args@[1]@ == "-modded"@
            &&& forall|i: int| 0 <= i < own.len() ==> plan.args@[front + i]@ == (#[trigger] own[i])@
            &&& plan.redmod_command is Some <==> modded
            &&& modded ==> {
                let command = plan.redmod_command->0@;
                &&& command.len() == 4
                &&& command[0]@ == join_path(plan.mountpoint@, "tools/redmod/bin/redMod.exe"@)
                &&& command[1]@ == "deploy"@
                &&& command[2]@ == "-root="@ + wine_form(plan.mountpoint@)
                &&& command[3]@ == "-mod="@ + joined(views(loadout.redmods@), ","@)
            }
            &&& plan.conflicts == loadout.conflicts@.len()
        }),
{
    let own = profile.launch_args@;
    let args = views(plan.args@);
    let modded = loadout.redmods@.len() > 0;
    assert(args.len() == plan.args@.len());
    assert(views(own).len() == own.len());
    assert(args[0] == plan.args@[0]@);
    if modded {
        assert(args[1] == plan.args@[1]@);
        let command = plan.redmod_command->0@;
        assert(views(command).len() == command.len());
        assert(views(command)[0] == command[0]@);
        assert(views(command)[1] == command[1]@);
        assert(views(command)[2] == command[2]@);
        assert(views(command)[3] == command[3]@);
    }
    let front = args.len() - own.len();
    assert forall|i: int| 0 <= i < own.len() implies plan.args@[front + i]@ == (#[trigger] own[i])@ by {
        assert(args[front + i] == plan.args@[front + i]@);
        assert(args[front + i] == views(own)[i]);
    }
}

/// A path as Wine knows it is on the drive `Z:` and leads back to the path: with slashes
/// for its backslashes, what stands behind the drive is the path itself.
pub proof fn law_wine_paths_lead_back(path: Seq<char>)
    requires
        path.len() > 0 && path[0] == '/',
        path.len() > 1 ==> path[1] != '/',
        !path.contains('\\'),
    ensures
        wine_form(path).len() == path.len() + 2,
        wine_form(path)[0] == 'Z' && wine_form(path)[1] == ':',
        forall|i: int|
            0 <= i < path.len() ==> #[trigger] path[i] == if wine_form(path)[i + 2] == '\\' {
                '/'
            } else {
                wine_form(path)[i + 2]
            },
{
    reveal_strlit("Z:\\");
    let class = CharClass::Only('/');
    let rest = path.drop_first();
    assert(trimmed_start(path, class) == trimmed_start(rest, class));
    assert(trimmed_start(rest, class) == rest);
    assert forall|i: int| 0 <= i < path.len() implies #[trigger] path[i] == if wine_form(path)[i + 2]
        == '\\' {
        '/'
    } else {
        wine_form(path)[i + 2]
    } by {
        if i > 0 {
            assert(rest[i - 1] == path[i]);
            assert(path.contains(path[i]));
        }
    }
}

/// Every step of a launch but the backup of the profile and the start of Steam has to
/// succeed: where one fails before the game was started, the launch fails; where the game
/// itself cannot be started, that is put on record first.
pub proof fn law_failed_steps_end_the_launch(stage: LaunchStage, redmod: bool)
    ensures
        stage != LaunchStage::BackUpProfile && stage != LaunchStage::StartSteam && stage
            != LaunchStage::Spawn && stage != LaunchStage::Done ==> stage_after(stage, false, redmod)
            == LaunchStage::Failed,
        stage_after(LaunchStage::BackUpProfile, false, redmod) == stage_after(
            LaunchStage::BackUpProfile,
            true,
            redmod,
        ),
        stage_after(LaunchStage::StartSteam, false, redmod) == stage_after(
            LaunchStage::StartSteam,
            true,
            redmod,
        ),
        stage_after(LaunchStage::Spawn, false, redmod) == LaunchStage::RecordFailure,
        stage_after(LaunchStage::RecordFailure, true, redmod) == LaunchStage::Failed,
        stage_after(LaunchStage::Failed, true, redmod) == LaunchStage::Failed,
{
}

/// A launch that is done went through all of it: the tools were there, the profile was
/// prepared and locked, its saves were linked and backed up, the game was mounted, its
/// start put on record, started, waited for, its end put on record, and unmounted. A
/// changed build that was forced is put on record first of all.
pub proof fn law_done_launches_went_through_all(
    force: bool,
    build_changed: bool,
    outcomes: Seq<bool>,
    redmod: bool,
    start: LaunchStage,
)
    requires
        start == opening_stage(force, build_changed),
        stage_reached(start, outcomes, redmod) == LaunchStage::Done,
    ensures
        passed(start, outcomes, redmod, LaunchStage::FindUmu),
        passed(start, outcomes, redmod, LaunchStage::FindOverlay),
        passed(start, outcomes, redmod, LaunchStage::FindFusermount),
        passed(start, outcomes, redmod, LaunchStage::CheckPrepared),
        passed(start, outcomes, redmod, LaunchStage::Lock),
        passed(start, outcomes, redmod, LaunchStage::LinkSaves),
        passed(start, outcomes, redmod, LaunchStage::BackUpSaves),
        passed(start, outcomes, redmod, LaunchStage::Mount),
        redmod ==> passed(start, outcomes, redmod, LaunchStage::DeployRedmods),
        passed(start, outcomes, redmod, LaunchStage::RecordStart),
        passed(start, outcomes, redmod, LaunchStage::Spawn),
        passed(start, outcomes, redmod, LaunchStage::Wait),
        passed(start, outcomes, redmod, LaunchStage::RecordFinish),
        passed(start, outcomes, redmod, LaunchStage::Unmount),
        force && build_changed <==> start == LaunchStage::RecordOverride,
{
    lemma_done_passed(start, outcomes, redmod, LaunchStage::FindUmu);
    lemma_done_passed(start, outcomes, redmod, LaunchStage::FindOverlay);
    lemma_done_passed(start, outcomes, redmod, LaunchStage::FindFusermount);
    lemma_done_passed(start, outcomes, redmod, LaunchStage::CheckPrepared);
    lemma_done_passed(start, outcomes, redmod, LaunchStage::Lock);
    lemma_done_passed(start, outcomes, redmod, LaunchStage::LinkSaves);
    lemma_done_passed(start, outcomes, redmod, LaunchStage::BackUpSaves);
    lemma_done_passed(start, outcomes, redmod, LaunchStage::Mount);
    if redmod {
        lemma_done_passed(start, outcomes, redmod, LaunchStage::DeployRedmods);
    }
    lemma_done_passed(start, outcomes, redmod, LaunchStage::RecordStart);
    lemma_done_passed(start, outcomes, redmod, LaunchStage::Spawn);
    lemma_done_passed(start, outcomes, redmod, LaunchStage::Wait);
    lemma_done_passed(start, outcomes, redmod, LaunchStage::RecordFinish);
    lemma_done_passed(start, outcomes, redmod, LaunchStage::Unmount);
}

proof fn lemma_done_passed(
    start: LaunchStage,
    outcomes: Seq<bool>,
    redmod: bool,
    gate: LaunchStage,
)
    requires
        start == LaunchStage::RecordOverride || start == LaunchStage::FindUmu,
        1 <= rank(gate) <= 16,
        gate != LaunchStage::BackUpProfile,
        gate != LaunchStage::StartSteam,
        gate == LaunchStage::DeployRedmods ==> redmod,
        rank(stage_reached(start, outcomes, redmod)) > rank(gate),
        stage_reached(start, outcomes, redmod) != LaunchStage::RecordFailure,
    ensures
        passed(start, outcomes, redmod, gate),
    decreases outcomes.len(),
{
    if outcomes.len() > 0 {
        let front = outcomes.drop_last();
        let before = stage_reached(start, front, redmod);
        let n = outcomes.len() - 1;
        assert(outcomes.take(n) =~= front);
        if before == gate {
            assert(outcomes[n]);
        } else {
            lemma_done_passed(start, front, redmod, gate);
            let i = choose|i: int|
                0 <= i < front.len() && #[trigger] front[i] && stage_reached(
                    start,
                    front.take(i),
                    redmod,
                ) == gate;
            assert(outcomes[i] == front[i]);
            assert(outcomes.take(i) =~= front.take(i));
        }
    }
}

/// A launch is refused for its mods exactly where a mod that was asked for cannot be
/// enabled.
pub proof fn law_blocked_mods_are_named(
    entries: Seq<LoadoutEntry>,
    deps: Seq<Dependency>,
)
    ensures
        blocked(entries, deps).len() > 0 <==> exists|i: int|
            0 <= i < entries.len() && (#[trigger] entries[i]).requested_enabled && !satisfied(
                entries,
                deps,
                entries[i].mod_id@,
            ),
        blocked_texts(entries, deps).len() == blocked(entries, deps).len(),
        forall|i: int|
            0 <= i < blocked_texts(entries, deps).len() ==> {
                let name = blocked(entries, deps)[i].mod_id@;
                &&& (name + " ("@).is_prefix_of(#[trigger] blocked_texts(entries, deps)[i])
                &&& blocked_texts(entries, deps)[i].last() == ')'
            },
{
    reveal_strlit(")");
    let keep = |entry: LoadoutEntry|
        entry.requested_enabled && !satisfied(entries, deps, entry.mod_id@);
    let list = blocked(entries, deps);
    if list.len() > 0 {
        let k = crate::order::lemma_filtered(entries, keep, 0);
        assert(entries[k].requested_enabled);
    }
    if exists|i: int|
        0 <= i < entries.len() && (#[trigger] entries[i]).requested_enabled && !satisfied(
            entries,
            deps,
            entries[i].mod_id@,
        ) {
        let i = choose|i: int|
            0 <= i < entries.len() && (#[trigger] entries[i]).requested_enabled && !satisfied(
                entries,
                deps,
                entries[i].mod_id@,
            );
        entries.lemma_filter_contains(keep, i);
    }
    assert forall|i: int| 0 <= i < blocked_texts(entries, deps).len() implies {
        let name = list[i].mod_id@;
        &&& (name + " ("@).is_prefix_of(#[trigger] blocked_texts(entries, deps)[i])
        &&& blocked_texts(entries, deps)[i].last() == ')'
    } by {
        let text = blocked_texts(entries, deps)[i];
        let name = list[i].mod_id@;
        assert(name + " ("@ =~= text.subrange(0, (name + " ("@).len() as int));
    }
}

/// A changed build stops a launch, unless it is forced or was accepted before; the same
/// build never does.
pub proof fn law_changed_builds_need_consent(
    profile: Profile,
    game: GameInstall,
    force: bool,
    excused: bool,
)
    ensures
        profile.game_build_id@ == game.build_id@ ==> !build_blocks(profile, game, force, excused),
        force || excused ==> !build_blocks(profile, game, force, excused),
        profile.game_build_id@ != game.build_id@ ==> build_blocks(profile, game, false, false),
{
}

/// The steps of a launch come in their order: the tools are looked for, the profile is
/// looked over and locked before its saves are touched, these are linked and then backed
/// up, the game is mounted with all that in place, REDmods are deployed into the mount,
/// and the mount goes when the game has ended.
pub proof fn law_launch_steps_come_in_order(redmod: bool)
    ensures
        stage_after(LaunchStage::RecordOverride, true, redmod) == LaunchStage::FindUmu,
        stage_after(LaunchStage::FindUmu, true, redmod) == LaunchStage::FindOverlay,
        stage_after(LaunchStage::FindOverlay, true, redmod) == LaunchStage::FindFusermount,
        stage_after(LaunchStage::FindFusermount, true, redmod) == LaunchStage::CheckPrepared,
        stage_after(LaunchStage::CheckPrepared, true, redmod) == LaunchStage::Lock,
        stage_after(LaunchStage::Lock, true, redmod) == LaunchStage::LinkSaves,
        stage_after(LaunchStage::LinkSaves, true, redmod) == LaunchStage::BackUpProfile,
        stage_after(LaunchStage::BackUpProfile, true, redmod) == LaunchStage::BackUpSaves,
        stage_after(LaunchStage::BackUpSaves, true, redmod) == LaunchStage::StartSteam,
        stage_after(LaunchStage::StartSteam, true, redmod) == LaunchStage::Mount,
        stage_after(LaunchStage::Mount, true, true) == LaunchStage::DeployRedmods,
        stage_after(LaunchStage::Mount, true, false) == LaunchStage::RecordStart,
        stage_after(LaunchStage::DeployRedmods, true, redmod) == LaunchStage::RecordStart,
        stage_after(LaunchStage::RecordStart, true, redmod) == LaunchStage::Spawn,
        stage_after(LaunchStage::Spawn, true, redmod) == LaunchStage::Wait,
        stage_after(LaunchStage::Wait, true, redmod) == LaunchStage::RecordFinish,
        stage_after(LaunchStage::RecordFinish, true, redmod) == LaunchStage::Unmount,
        stage_after(LaunchStage::Unmount, true, redmod) == LaunchStage::Done,
{
}

} // verus!
