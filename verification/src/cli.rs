//! What the commands decide and print.
use vstd::prelude::*;

use crate::catalog::FrameworkDescriptor;
use crate::doctor::{Check, Finding};
use crate::launcher::{shell_display, shown_args, LaunchPlan};
use crate::loadout::MaterializedLoadout;
use crate::models::{kind_name, LoadoutEntry, ModRelease, Profile};
use crate::order::finds;
use crate::records::{
    entry_stands, has_room, is_request, mod_release, prioritized_entry, priority_has_room,
    profile_by_name_or_id, request_entry,
};
use crate::saves::{ShareResult, TransferResult};
use crate::text::{
    chars_of, decimal, decimal_signed, decimal_signed_text, decimal_text, join_texts, joined, views,
};

verus! {

/// Why a command cannot be carried out.
#[derive(Debug, Clone, Copy, PartialEq, Eq, Structural)]
pub enum CommandError {
    NoProfile,
    NoSource,
    NoTarget,
    NoMod,
    /// The mod has no place in the profile.
    NoEntry,
    /// The priorities of the profile leave no number for one more mod.
    NoPriority,
    NoGame,
    NoInstall,
    NoFramework,
    NoTheme,
}

impl CommandError {
    /// What is missing, in words.
    pub fn message(self) -> (r: &'static str)
        ensures
            r@ == match self {
                CommandError::NoProfile => "profile not found"@,
                CommandError::NoSource => "source profile not found"@,
                CommandError::NoTarget => "target profile not found"@,
                CommandError::NoMod => "mod not found"@,
                CommandError::NoEntry =>
                    "mod is not part of this profile; enable or disable it first"@,
                CommandError::NoPriority => "no priority is left above those of this profile"@,
                CommandError::NoGame => "game install not found"@,
                CommandError::NoInstall => "Cyberpunk is not installed"@,
                CommandError::NoFramework => "unknown framework"@,
                CommandError::NoTheme => "unknown theme"@,
            },
    {
        match self {
            CommandError::NoProfile => "profile not found",
            CommandError::NoSource => "source profile not found",
            CommandError::NoTarget => "target profile not found",
            CommandError::NoMod => "mod not found",
            CommandError::NoEntry => "mod is not part of this profile; enable or disable it first",
            CommandError::NoPriority => "no priority is left above those of this profile",
            CommandError::NoGame => "game install not found",
            CommandError::NoInstall => "Cyberpunk is not installed",
            CommandError::NoFramework => "unknown framework",
            CommandError::NoTheme => "unknown theme",
        }
    }
}

/// Where the profile stands that a command names; `missing` where there is none.
pub fn chosen_profile(profiles: &[Profile], value: &str, missing: CommandError) -> (r: Result<
    usize,
    CommandError,
>)
    ensures
        match r {
            Ok(i) => finds(
                profiles@,
                |profile: Profile| profile.id@ == value@ || profile.name@ == value@,
                Some(i),
            ),
            Err(error) => error == missing && finds(
                profiles@,
                |profile: Profile| profile.id@ == value@ || profile.name@ == value@,
                None,
            ),
        },
{
    match profile_by_name_or_id(profiles, value) {
        Some(i) => Ok(i),
        None => Err(missing),
    }
}

/// Whether a library has a mod.
pub open spec fn has_mod(mods: Seq<ModRelease>, id: Seq<char>) -> bool {
    exists|i: int| 0 <= i < mods.len() && (#[trigger] mods[i]).id@ == id
}

fn knows_mod(mods: &[ModRelease], id: &str) -> (r: bool)
    ensures
        r == has_mod(mods@, id@),
{
    match mod_release(mods, id) {
        Some(i) => {
            assert(mods@[i as int].id@ == id@);
            true
        },
        None => {
            assert forall|i: int| 0 <= i < mods@.len() implies (#[trigger] mods@[i]).id@ != id@ by {
                let keep = |release: ModRelease| release.id@ == id@;
                assert(!keep(mods@[i]));
            }
            false
        },
    }
}

/// The entry that turns a mod of a profile on or off.
pub fn set_enabled(
    profile: &Profile,
    mods: &[ModRelease],
    entries: &[LoadoutEntry],
    mod_id: &str,
    enabled: bool,
) -> (r: Result<LoadoutEntry, CommandError>)
    ensures
        match r {
            Ok(entry) => has_mod(mods@, mod_id@) && has_room(entries@) && is_request(
                entry,
                entries@,
                profile.id@,
                mod_id@,
                enabled,
            ),
            Err(error) => if has_mod(mods@, mod_id@) {
                !has_room(entries@) && error == CommandError::NoPriority
            } else {
                error == CommandError::NoMod
            },
        },
{
    if !knows_mod(mods, mod_id) {
        return Err(CommandError::NoMod);
    }
    if !priority_has_room(entries) {
        return Err(CommandError::NoPriority);
    }
    Ok(request_entry(entries, &profile.id, mod_id, enabled))
}

/// Whether a loadout has an entry of a mod.
pub open spec fn has_entry(entries: Seq<LoadoutEntry>, mod_id: Seq<char>) -> bool {
    exists|i: int| 0 <= i < entries.len() && (#[trigger] entries[i]).mod_id@ == mod_id
}

/// The entry that gives a mod of a profile another priority.
pub fn set_priority(
    mods: &[ModRelease],
    entries: &[LoadoutEntry],
    mod_id: &str,
    priority: i64,
) -> (r: Result<LoadoutEntry, CommandError>)
    ensures
        match r {
            Ok(entry) => has_mod(mods@, mod_id@) && exists|i: int| #[trigger]
                entry_stands(entries@, mod_id@, i) && entry == (
                LoadoutEntry { priority, ..entries@[i] }),
            Err(error) => if has_mod(mods@, mod_id@) {
                !has_entry(entries@, mod_id@) && error == CommandError::NoEntry
            } else {
                error == CommandError::NoMod
            },
        },
{
    if !knows_mod(mods, mod_id) {
        return Err(CommandError::NoMod);
    }
    match prioritized_entry(entries, mod_id, priority) {
        Some(entry) => Ok(entry),
        None => Err(CommandError::NoEntry),
    }
}

/// Why the revision is made when a mod is turned on or off.
pub fn enabled_reason(enabled: bool) -> (r: &'static str)
    ensures
        r@ == if enabled {
            "enable mod from CLI"@
        } else {
            "disable mod from CLI"@
        },
{
    if enabled {
        "enable mod from CLI"
    } else {
        "disable mod from CLI"
    }
}

/// A text with blanks behind it up to a width.
pub open spec fn padded(text: Seq<char>, width: nat) -> Seq<char> {
    text + Seq::new(
        if width > text.len() {
            (width - text.len()) as nat
        } else {
            0
        },
        |i: int| ' ',
    )
}

fn pad(text: &str, width: usize) -> (r: String)
    ensures
        r@ == padded(text@, width as nat),
{
    let mut r = text.to_owned();
    let mut n: usize = chars_of(text).len();
    let ghost goal = padded(text@, width as nat);
    assert(r@ =~= text@ + Seq::new(0, |i: int| ' '));
    while n < width
        invariant
            text@.len() <= n,
            n <= width || n == text@.len(),
            r@ =~= text@ + Seq::new((n - text@.len()) as nat, |i: int| ' '),
        decreases width - n,
    {
        r.push(' ');
        n += 1;
    }
    r
}

/// The lines on a finding.
pub open spec fn finding_lines(finding: Finding) -> Seq<Seq<char>> {
    seq![
        padded(
            if finding.ok {
                "OK"@
            } else {
                "WARN"@
            },
            4,
        ) + " "@ + padded(finding.name, 22) + " "@ + finding.detail,
    ] + match finding.remedy {
        Some(remedy) => seq!["     remedy: "@ + remedy],
        None => Seq::empty(),
    }
}

/// The lines on a check.
pub fn check_lines(check: &Check) -> (r: Vec<String>)
    ensures
        views(r@) == finding_lines(check@),
{
    let state = if check.ok {
        "OK"
    } else {
        "WARN"
    };
    let mut r: Vec<String> = Vec::new();
    r.push(pad(state, 4).concat(" ").concat(&pad(&check.name, 22)).concat(" ").concat(&check.detail));
    if let Some(remedy) = &check.remedy {
        r.push("     remedy: ".to_owned().concat(remedy));
    }
    assert(views(r@) =~= finding_lines(check@));
    r
}

/// The line on a mod that was imported.
pub fn imported_line(release: &ModRelease, files: usize) -> (r: String)
    ensures
        r@ == "Imported "@ + release.name@ + " "@ + release.version@ + " as "@ + release.id@ + " ("@
            + decimal(files as nat) + " files)"@,
{
    "Imported ".to_owned().concat(&release.name).concat(" ").concat(&release.version).concat(
        " as ",
    ).concat(&release.id).concat(" (").concat(&decimal_text(files as u128)).concat(" files)")
}

/// The line of a profile in the list of profiles.
pub fn profile_line(profile: &Profile) -> (r: String)
    ensures
        r@ == profile.id@ + "\t"@ + profile.name@ + "\tbuild="@ + profile.game_build_id@
            + "\trunner="@ + profile.runner@,
{
    profile.id.clone().concat("\t").concat(&profile.name).concat("\tbuild=").concat(
        &profile.game_build_id,
    ).concat("\trunner=").concat(&profile.runner)
}

/// The line on a profile that was made.
pub fn created_line(profile: &Profile) -> (r: String)
    ensures
        r@ == "Created profile "@ + profile.name@ + " ("@ + profile.id@ + ")"@,
{
    "Created profile ".to_owned().concat(&profile.name).concat(" (").concat(&profile.id).concat(")")
}

/// The lines on saves that are shared.
pub fn shared_lines(source: &Profile, target: &Profile, result: &ShareResult) -> (r: Vec<String>)
    ensures
        views(r@) == seq![
            source.name@ + " and "@ + target.name@ + " now share '"@ + result.save_set.name@ + "'"@,
        ] + match result.detached_target {
            Some(place) => seq!["Previous target saves preserved at "@ + place@],
            None => Seq::empty(),
        },
{
    let mut r: Vec<String> = Vec::new();
    r.push(
        source.name.clone().concat(" and ").concat(&target.name).concat(" now share '").concat(
            &result.save_set.name,
        ).concat("'"),
    );
    if let Some(place) = &result.detached_target {
        r.push("Previous target saves preserved at ".to_owned().concat(place));
    }
    assert(views(r@) =~= seq![
        source.name@ + " and "@ + target.name@ + " now share '"@ + result.save_set.name@ + "'"@,
    ] + match result.detached_target {
        Some(place) => seq!["Previous target saves preserved at "@ + place@],
        None => Seq::empty(),
    });
    r
}

/// The line on a profile that is to have saves of its own.
pub fn private_line(profile: &Profile, changed: bool) -> (r: String)
    ensures
        r@ == profile.name@ + if changed {
            " now uses a private save copy"@
        } else {
            " already uses private saves"@
        },
{
    profile.name.clone().concat(
        if changed {
            " now uses a private save copy"
        } else {
            " already uses private saves"
        },
    )
}

/// The lines on saves that came from Steam.
pub fn saves_imported_lines(profile: &Profile, result: &TransferResult) -> (r: Vec<String>)
    ensures
        views(r@) == seq![
            "Imported "@ + decimal(result.save_slots as nat) + " Steam save slot(s) into "@
                + profile.name@,
        ] + match result.backup {
            Some(backup) => seq!["Previous modded saves backed up to "@ + backup@],
            None => Seq::empty(),
        },
{
    let mut r: Vec<String> = Vec::new();
    r.push(
        "Imported ".to_owned().concat(&decimal_text(result.save_slots as u128)).concat(
            " Steam save slot(s) into ",
        ).concat(&profile.name),
    );
    if let Some(backup) = &result.backup {
        r.push("Previous modded saves backed up to ".to_owned().concat(backup));
    }
    assert(views(r@) =~= seq![
        "Imported "@ + decimal(result.save_slots as nat) + " Steam save slot(s) into "@ + profile.name@,
    ] + match result.backup {
        Some(backup) => seq!["Previous modded saves backed up to "@ + backup@],
        None => Seq::empty(),
    });
    r
}

/// The lines on saves that went to Steam.
pub fn saves_exported_lines(profile: &Profile, result: &TransferResult) -> (r: Vec<String>)
    ensures
        views(r@) == seq![
            "Exported "@ + decimal(result.save_slots as nat) + " save slot(s) from "@ + profile.name@
                + " to Steam"@,
        ] + match result.backup {
            Some(backup) => seq!["Previous Steam saves backed up to "@ + backup@],
            None => Seq::empty(),
        },
{
    let mut r: Vec<String> = Vec::new();
    r.push(
        "Exported ".to_owned().concat(&decimal_text(result.save_slots as u128)).concat(
            " save slot(s) from ",
        ).concat(&profile.name).concat(" to Steam"),
    );
    if let Some(backup) = &result.backup {
        r.push("Previous Steam saves backed up to ".to_owned().concat(backup));
    }
    assert(views(r@) =~= seq![
        "Exported "@ + decimal(result.save_slots as nat) + " save slot(s) from "@ + profile.name@
            + " to Steam"@,
    ] + match result.backup {
        Some(backup) => seq!["Previous Steam saves backed up to "@ + backup@],
        None => Seq::empty(),
    });
    r
}

/// The line of a mod in the list of mods.
pub fn mod_line(release: &ModRelease) -> (r: String)
    ensures
        r@ == release.id@ + "\t"@ + release.name@ + "\t"@ + release.version@ + "\t"@ + kind_name(
            release.kind,
        ),
{
    release.id.clone().concat("\t").concat(&release.name).concat("\t").concat(&release.version).concat(
        "\t",
    ).concat(release.kind.as_str())
}

/// The line on a profile all mods of which were turned off.
pub fn all_disabled_line(profile: &Profile, changed: usize, revision: &str) -> (r: String)
    ensures
        r@ == "Disabled "@ + decimal(changed as nat) + " mod(s) in "@ + profile.name@ + " (revision "@
            + revision@ + ")"@,
{
    "Disabled ".to_owned().concat(&decimal_text(changed as u128)).concat(" mod(s) in ").concat(
        &profile.name,
    ).concat(" (revision ").concat(revision).concat(")")
}

/// The line on a mod that was turned on or off.
pub fn enabled_line(profile: &Profile, mod_id: &str, enabled: bool, revision: &str) -> (r: String)
    ensures
        r@ == (if enabled {
            "Enabled"@
        } else {
            "Disabled"@
        }) + " "@ + mod_id@ + " in "@ + profile.name@ + " (revision "@ + revision@ + ")"@,
{
    let what = if enabled {
        "Enabled"
    } else {
        "Disabled"
    };
    what.to_owned().concat(" ").concat(mod_id).concat(" in ").concat(&profile.name).concat(
        " (revision ",
    ).concat(revision).concat(")")
}

/// The line on a mod that was given another priority.
pub fn priority_line(profile: &Profile, mod_id: &str, priority: i64, revision: &str) -> (r: String)
    ensures
        r@ == "Set "@ + mod_id@ + " priority to "@ + decimal_signed(priority as int) + " in "@
            + profile.name@ + " (revision "@ + revision@ + ")"@,
{
    "Set ".to_owned().concat(mod_id).concat(" priority to ").concat(
        &decimal_signed_text(priority),
    ).concat(" in ").concat(&profile.name).concat(" (revision ").concat(revision).concat(")")
}

/// The line of a framework in the list of frameworks.
pub fn framework_line(framework: &FrameworkDescriptor, mods: &[ModRelease]) -> (r: String)
    ensures
        r@ == padded(
            if has_mod(mods@, framework@.id) {
                "installed"@
            } else {
                "available"@
            },
            9,
        ) + " "@ + padded(framework@.name, 22) + " "@ + framework@.repository,
{
    let state = if knows_mod(mods, framework.id) {
        "installed"
    } else {
        "available"
    };
    pad(state, 9).concat(" ").concat(&pad(framework.name, 22)).concat(" ").concat(framework.repository)
}

/// The line on a framework that was installed.
pub fn installed_line(release: &ModRelease) -> (r: String)
    ensures
        r@ == "Installed "@ + release.name@ + " "@ + release.version@,
{
    "Installed ".to_owned().concat(&release.name).concat(" ").concat(&release.version)
}

/// The line on a contested path.
pub fn conflict_line(path: &str, owners: &Vec<String>) -> (r: String)
    ensures
        r@ == path@ + "\t"@ + joined(views(owners@), " > "@),
{
    path.to_owned().concat("\t").concat(&join_texts(owners, " > "))
}

/// The line on a profile that was prepared.
pub fn prepared_line(profile: &Profile) -> (r: String)
    ensures
        r@ == "Prepared isolated prefix for "@ + profile.name@,
{
    "Prepared isolated prefix for ".to_owned().concat(&profile.name)
}

/// What is shown of a launch that is not carried out.
pub open spec fn dry_run_text(plan: LaunchPlan, loadout: MaterializedLoadout) -> Seq<Seq<char>> {
    seq![
        "mount: "@ + plan.mountpoint@,
        "command: "@ + plan.executable@ + " "@ + shown_args(views(plan.args@)),
        "loadout revision: "@ + loadout.revision@,
        "conflicts: "@ + decimal(plan.conflicts as nat),
    ] + match plan.redmod_command {
        Some(command) => seq!["redmod: umu-run "@ + shown_args(views(command@))],
        None => Seq::empty(),
    }
}

/// What is shown of a launch that is not carried out.
pub fn dry_run_lines(plan: &LaunchPlan, loadout: &MaterializedLoadout) -> (r: Vec<String>)
    ensures
        views(r@) == dry_run_text(*plan, *loadout),
{
    let mut r: Vec<String> = Vec::new();
    r.push("mount: ".to_owned().concat(&plan.mountpoint));
    r.push(
        "command: ".to_owned().concat(&plan.executable).concat(" ").concat(&shell_display(&plan.args)),
    );
    r.push("loadout revision: ".to_owned().concat(&loadout.revision));
    r.push("conflicts: ".to_owned().concat(&decimal_text(plan.conflicts as u128)));
    if let Some(command) = &plan.redmod_command {
        r.push("redmod: umu-run ".to_owned().concat(&shell_display(command)));
    }
    assert(views(r@) =~= dry_run_text(*plan, *loadout));
    r
}

/// The line on a backup that was restored.
pub fn restored_line(archive: &str) -> (r: String)
    ensures
        r@ == "Restored "@ + archive@,
{
    "Restored ".to_owned().concat(archive)
}

/// The line on a theme that was chosen.
pub fn theme_line(name: &str) -> (r: String)
    ensures
        r@ == "Theme set to "@ + name@,
{
    "Theme set to ".to_owned().concat(name)
}

/// The line on the end of the game.
pub fn exited_line(status: &str) -> (r: String)
    ensures
        r@ == "Cyberpunk exited with "@ + status@,
{
    "Cyberpunk exited with ".to_owned().concat(status)
}

/// A finding is printed as one that is in order or as a warning, and what is to be done
/// about it, where there is anything, on a line of its own.
pub proof fn law_findings_are_marked(finding: Finding)
    ensures
        finding.ok ==> "OK"@.is_prefix_of(finding_lines(finding)[0]),
        !finding.ok ==> "WARN"@.is_prefix_of(finding_lines(finding)[0]),
        finding.remedy is None ==> finding_lines(finding).len() == 1,
        finding.remedy is Some ==> finding_lines(finding).len() == 2 && finding_lines(finding)[1]
            == "     remedy: "@ + finding.remedy->0,
{
    let line = finding_lines(finding)[0];
    let mark = if finding.ok {
        "OK"@
    } else {
        "WARN"@
    };
    assert(mark =~= line.subrange(0, mark.len() as int));
}

} // verus!
