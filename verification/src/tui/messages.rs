//! What the status line says of what was done.
use vstd::prelude::*;

use crate::catalog::{label_of, requirement_label};
use crate::path::option_view;
use crate::text::{decimal, decimal_signed, decimal_signed_text, decimal_text};

verus! {

/// What failed and why.
pub fn failed(what: &str, why: &str) -> (r: String)
    ensures
        r@ == what@ + ": "@ + why@,
{
    what.to_owned().concat(": ").concat(why)
}

/// Every mod of a profile was disabled.
pub fn vanilla_selected(profile: &str, changed: usize) -> (r: String)
    ensures
        r@ == "Vanilla loadout selected for "@ + profile@ + ": disabled "@ + decimal(changed as nat) + " mod(s). Normal Steam was already untouched."@,
{
    "Vanilla loadout selected for ".to_owned().concat(profile).concat(": disabled ").concat(&decimal_text(changed as u128)).concat(" mod(s). Normal Steam was already untouched.")
}

/// A backup is being restored.
pub fn restoring(archive: &str) -> (r: String)
    ensures
        r@ == "Restoring "@ + archive@ + "…"@,
{
    "Restoring ".to_owned().concat(archive).concat("…")
}

/// A backup was restored.
pub fn restored(profile: &str) -> (r: String)
    ensures
        r@ == "Restored backup for "@ + profile@ + "."@,
{
    "Restored backup for ".to_owned().concat(profile).concat(".")
}

/// Saves are being shared.
pub fn sharing(source: &str, target: &str) -> (r: String)
    ensures
        r@ == "Sharing "@ + source@ + " saves with "@ + target@ + "…"@,
{
    "Sharing ".to_owned().concat(source).concat(" saves with ").concat(target).concat("…")
}

/// Saves are being made private.
pub fn making_private(profile: &str) -> (r: String)
    ensures
        r@ == "Copying shared saves into "@ + profile@ + " private storage…"@,
{
    "Copying shared saves into ".to_owned().concat(profile).concat(" private storage…")
}

/// Saves were made private.
pub fn made_private(profile: &str) -> (r: String)
    ensures
        r@ == profile@ + " now has a private save copy."@,
{
    profile.to_owned().concat(" now has a private save copy.")
}

/// Saves are private already.
pub fn already_private(profile: &str) -> (r: String)
    ensures
        r@ == profile@ + " already uses private saves."@,
{
    profile.to_owned().concat(" already uses private saves.")
}

/// Steam saves are being imported.
pub fn importing_saves(profile: &str) -> (r: String)
    ensures
        r@ == "Importing Steam saves into "@ + profile@ + "…"@,
{
    "Importing Steam saves into ".to_owned().concat(profile).concat("…")
}

/// Saves are being exported to Steam.
pub fn exporting_saves(profile: &str) -> (r: String)
    ensures
        r@ == "Exporting "@ + profile@ + " saves to Steam…"@,
{
    "Exporting ".to_owned().concat(profile).concat(" saves to Steam…")
}

/// A framework that was there is enabled.
pub fn enabled_existing(framework_id: &str, profile: &str) -> (r: String)
    ensures
        r@ == "Enabled existing "@ + label_of(framework_id@) + " in "@ + profile@ + "."@,
{
    "Enabled existing ".to_owned().concat(&requirement_label(framework_id)).concat(" in ").concat(profile).concat(".")
}

/// A profile is being prepared.
pub fn preparing(profile: &str) -> (r: String)
    ensures
        r@ == "Preparing "@ + profile@ + ". This can take several minutes…"@,
{
    "Preparing ".to_owned().concat(profile).concat(". This can take several minutes…")
}

/// A profile was prepared.
pub fn prepared(profile: &str) -> (r: String)
    ensures
        r@ == "Prepared isolated runtime for "@ + profile@ + "."@,
{
    "Prepared isolated runtime for ".to_owned().concat(profile).concat(".")
}

/// A profile is being backed up.
pub fn backing_up(profile: &str) -> (r: String)
    ensures
        r@ == "Backing up isolated state for "@ + profile@ + "…"@,
{
    "Backing up isolated state for ".to_owned().concat(profile).concat("…")
}

/// A file was made.
pub fn created(path: &str) -> (r: String)
    ensures
        r@ == "Created "@ + path@ + "."@,
{
    "Created ".to_owned().concat(path).concat(".")
}

/// Something is being imported.
pub fn importing(path: &str) -> (r: String)
    ensures
        r@ == "Importing "@ + path@ + "…"@,
{
    "Importing ".to_owned().concat(path).concat("…")
}

/// The inbox holds nothing.
pub fn nothing_to_import(root: &str) -> (r: String)
    ensures
        r@ == "No mods found in "@ + root@ + ". Add one there or press a to enter another path."@,
{
    "No mods found in ".to_owned().concat(root).concat(". Add one there or press a to enter another path.")
}

/// The inbox was scanned.
pub fn rescanned(root: &str) -> (r: String)
    ensures
        r@ == "Rescanned "@ + root@ + "."@,
{
    "Rescanned ".to_owned().concat(root).concat(".")
}

/// A mod was disabled.
pub fn disabled(name: &str) -> (r: String)
    ensures
        r@ == "Disabled "@ + name@ + "."@,
{
    "Disabled ".to_owned().concat(name).concat(".")
}

/// The priority of a mod was changed.
pub fn priority_changed(name: &str, priority: i64) -> (r: String)
    ensures
        r@ == name@ + " priority is now "@ + decimal_signed(priority as int) + "."@,
{
    name.to_owned().concat(" priority is now ").concat(&decimal_signed_text(priority)).concat(".")
}

/// Releases were removed.
pub fn removed(count: usize, label: &str) -> (r: String)
    ensures
        r@ == "Removed "@ + decimal(count as nat) + " release(s): "@ + label@ + "."@,
{
    "Removed ".to_owned().concat(&decimal_text(count as u128)).concat(" release(s): ").concat(label).concat(".")
}

/// A release could not be removed.
pub fn could_not_remove(name: &str, why: &str) -> (r: String)
    ensures
        r@ == "Could not remove "@ + name@ + ": "@ + why@,
{
    "Could not remove ".to_owned().concat(name).concat(": ").concat(why)
}

/// A framework was installed and enabled.
pub fn framework_installed(framework: &str, version: &str, profile: &str) -> (r: String)
    ensures
        r@ == framework@ + " "@ + version@ + " is installed and enabled in "@ + profile@ + "."@,
{
    framework.to_owned().concat(" ").concat(version).concat(" is installed and enabled in ").concat(profile).concat(".")
}

/// Saves were shared. `detached` is where the former saves of the target are.
pub fn shared(source: &str, target: &str, set: &str, detached: &Option<String>) -> (r: String)
    ensures
        r@ == source@ + " and "@ + target@ + " now use '"@ + set@ + "'."@ + match *detached {
            Some(path) => " Previous target state: "@ + path@,
            None => Seq::empty(),
        },
{
    let head = source.to_owned().concat(" and ").concat(target).concat(" now use '").concat(
        set,
    ).concat("'.");
    match detached {
        Some(path) => {
            let tail = " Previous target state: ".to_owned().concat(path);
            head.concat(&tail)
        },
        None => {
            assert(head@ + Seq::<char>::empty() =~= head@);
            head
        },
    }
}

/// Steam saves were imported. `backup` is where the former saves are.
pub fn saves_imported(slots: usize, profile: &str, backup: &Option<String>) -> (r: String)
    ensures
        r@ == "Imported "@ + decimal(slots as nat) + " Steam save slot(s) into "@ + profile@
            + ". Backup: "@ + match option_view(*backup) {
            Some(path) => path,
            None => "not needed"@,
        },
{
    let head = "Imported ".to_owned().concat(&decimal_text(slots as u128)).concat(
        " Steam save slot(s) into ",
    ).concat(profile).concat(". Backup: ");
    match backup {
        Some(path) => head.concat(path),
        None => head.concat("not needed"),
    }
}

/// Saves were exported to Steam. `backup` is where the former saves are.
pub fn saves_exported(slots: usize, profile: &str, backup: &Option<String>) -> (r: String)
    ensures
        r@ == "Exported "@ + decimal(slots as nat) + " save slot(s) from "@ + profile@
            + " to Steam. Backup: "@ + match option_view(*backup) {
            Some(path) => path,
            None => "Steam had no previous local saves"@,
        },
{
    let head = "Exported ".to_owned().concat(&decimal_text(slots as u128)).concat(
        " save slot(s) from ",
    ).concat(profile).concat(" to Steam. Backup: ");
    match backup {
        Some(path) => head.concat(path),
        None => head.concat("Steam had no previous local saves"),
    }
}

/// A mod was imported, or found in the library, and enabled.
pub fn imported_and_enabled(newly: bool, name: &str, profile: &str) -> (r: String)
    ensures
        r@ == (if newly {
            "Imported"@
        } else {
            "Found existing"@
        }) + " "@ + name@ + " and enabled it in "@ + profile@ + "."@,
{
    let head = if newly {
        "Imported".to_owned()
    } else {
        "Found existing".to_owned()
    };
    head.concat(" ").concat(name).concat(" and enabled it in ").concat(profile).concat(".")
}

} // verus!
