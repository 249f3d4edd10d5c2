//! The records that the library keeps.
use vstd::prelude::*;

use crate::text::same_text;
use crate::text_map::TextMap;

verus! {

/// A moment in UTC, as seconds since 1970 and the nanoseconds of the second.
#[derive(Debug, Clone, Copy, PartialEq, Eq, Structural)]
pub struct Timestamp {
    pub seconds: i64,
    pub nanos: u32,
}

/// An installed game.
#[derive(Debug, PartialEq, Eq)]
pub struct GameInstall {
    pub id: String,
    pub library: String,
    pub root: String,
    pub manifest: String,
    pub build_id: String,
    pub phantom_liberty: bool,
    pub redmod: bool,
    pub writable: bool,
}

/// What a mod is made of.
#[derive(Debug, Clone, Copy, PartialEq, Eq, Structural)]
pub enum ModKind {
    Legacy,
    Redmod,
    Framework,
    Mixed,
}

/// The name under which a kind is stored.
pub open spec fn kind_name(kind: ModKind) -> Seq<char> {
    match kind {
        ModKind::Legacy => "legacy"@,
        ModKind::Redmod => "redmod"@,
        ModKind::Framework => "framework"@,
        ModKind::Mixed => "mixed"@,
    }
}

/// The kind that a stored name stands for; every unknown name stands for a
/// legacy mod.
pub open spec fn kind_named(name: Seq<char>) -> ModKind {
    if name == "redmod"@ {
        ModKind::Redmod
    } else if name == "framework"@ {
        ModKind::Framework
    } else if name == "mixed"@ {
        ModKind::Mixed
    } else {
        ModKind::Legacy
    }
}

impl ModKind {
    /// The name under which the kind is stored.
    pub fn as_str(&self) -> (r: &'static str)
        ensures
            r@ == kind_name(*self),
    {
        match self {
            ModKind::Legacy => "legacy",
            ModKind::Redmod => "redmod",
            ModKind::Framework => "framework",
            ModKind::Mixed => "mixed",
        }
    }

    /// The kind that a stored name stands for.
    pub fn parse(value: &str) -> (r: ModKind)
        ensures
            r == kind_named(value@),
    {
        if same_text(value, "redmod") {
            ModKind::Redmod
        } else if same_text(value, "framework") {
            ModKind::Framework
        } else if same_text(value, "mixed") {
            ModKind::Mixed
        } else {
            ModKind::Legacy
        }
    }
}

/// A kind is read back from the name that it is stored under.
pub proof fn law_kind_round_trip(kind: ModKind)
    ensures
        kind_named(kind_name(kind)) == kind,
{
    reveal_strlit("legacy");
    reveal_strlit("redmod");
    reveal_strlit("framework");
    reveal_strlit("mixed");
    assert("legacy"@[0] == 'l' && "redmod"@[0] == 'r' && "framework"@[0] == 'f' && "mixed"@[0] == 'm');
}

/// A mod in the library.
#[derive(Debug, PartialEq, Eq)]
pub struct ModRelease {
    pub id: String,
    pub name: String,
    pub version: String,
    pub kind: ModKind,
    pub archive_sha256: String,
    pub layer_path: String,
    pub source: String,
    pub installed_at: Timestamp,
}

impl Clone for ModRelease {
    fn clone(&self) -> (r: Self)
        ensures
            r == *self,
    {
        ModRelease {
            id: self.id.clone(),
            name: self.name.clone(),
            version: self.version.clone(),
            kind: self.kind,
            archive_sha256: self.archive_sha256.clone(),
            layer_path: self.layer_path.clone(),
            source: self.source.clone(),
            installed_at: self.installed_at,
        }
    }
}

/// That one mod cannot work without another.
#[derive(Debug, PartialEq, Eq)]
pub struct Dependency {
    pub mod_id: String,
    pub requires_id: String,
    pub inferred: bool,
}

/// A separate state of the game: its loadout, its prefix and its saves.
#[derive(Debug)]
pub struct Profile {
    pub id: String,
    pub name: String,
    pub game_install_id: String,
    pub game_build_id: String,
    pub runner: String,
    pub launch_args: Vec<String>,
    pub environment: TextMap,
    pub created_at: Timestamp,
}

/// Saves that several profiles share.
#[derive(Debug, PartialEq, Eq)]
pub struct SaveSet {
    pub id: String,
    pub name: String,
    pub created_at: Timestamp,
}

/// The place of a mod in a profile.
#[derive(Debug, PartialEq, Eq)]
pub struct LoadoutEntry {
    pub profile_id: String,
    pub mod_id: String,
    pub priority: i64,
    pub requested_enabled: bool,
}

impl Clone for LoadoutEntry {
    fn clone(&self) -> (r: Self)
        ensures
            r == *self,
    {
        LoadoutEntry {
            profile_id: self.profile_id.clone(),
            mod_id: self.mod_id.clone(),
            priority: self.priority,
            requested_enabled: self.requested_enabled,
        }
    }
}

/// A loadout entry with what its dependencies make of it.
#[derive(Debug, PartialEq, Eq)]
pub struct ResolvedEntry {
    pub entry: LoadoutEntry,
    pub effective_enabled: bool,
    pub disabled_reason: Option<String>,
}

/// A file that a mod brings into the game tree.
#[derive(Debug, PartialEq, Eq)]
pub struct FileOwner {
    pub mod_id: String,
    pub relative_path: String,
    pub sha256: String,
    pub size: u64,
}

/// One run of the game.
#[derive(Debug, PartialEq, Eq)]
pub struct RunRecord {
    pub id: String,
    pub profile_id: String,
    pub started_at: Timestamp,
    pub finished_at: Option<Timestamp>,
    pub exit_code: Option<i32>,
    pub command: Vec<String>,
}

/// The kinds are stored under these names, and no two under one.
pub proof fn law_kinds_have_their_names(a: ModKind, b: ModKind)
    ensures
        kind_name(ModKind::Legacy) == "legacy"@,
        kind_name(ModKind::Redmod) == "redmod"@,
        kind_name(ModKind::Framework) == "framework"@,
        kind_name(ModKind::Mixed) == "mixed"@,
        kind_name(a) == kind_name(b) ==> a == b,
{
    law_kind_round_trip(a);
    law_kind_round_trip(b);
}

} // verus!
