//! Where the application keeps its state.
use vstd::prelude::*;

use crate::path::{join, join_path, lies_under, starts_with};
use crate::text::views;

verus! {

/// The name of the application in the directories of the user.
pub const APP_ID: &'static str = "cp2077-mod-tui";

/// The base directories that the environment names.
pub struct BaseDirs {
    pub home: Option<String>,
    pub config_home: Option<String>,
    pub data_home: Option<String>,
    pub cache_home: Option<String>,
    pub runtime_dir: Option<String>,
}

/// The directories of the application.
#[derive(Debug)]
pub struct AppPaths {
    pub config_dir: String,
    pub data_dir: String,
    pub cache_dir: String,
    pub runtime_dir: String,
}

/// The directory that is set, or else the one below `base`.
pub open spec fn set_or_below(set: Option<String>, base: Seq<char>, more: Seq<char>) -> Seq<char> {
    match set {
        Some(dir) => dir@,
        None => join_path(base, more),
    }
}

fn dir_or_below(set: &Option<String>, base: &str, more: &str) -> (r: String)
    ensures
        r@ == set_or_below(*set, base@, more@),
{
    match set {
        Some(dir) => dir.clone(),
        None => join(base, more),
    }
}

impl AppPaths {
    /// Derives the directories of the application from those of the user. `None`
    /// where the home directory is not known.
    pub fn discover(base: &BaseDirs) -> (r: Option<AppPaths>)
        ensures
            r is Some <==> base.home is Some,
            r is Some ==> {
                let home = base.home->0@;
                let data = set_or_below(base.data_home, home, ".local/share"@);
                let runtime = set_or_below(
                    base.runtime_dir,
                    join_path(data, APP_ID@),
                    "runtime"@,
                );
                &&& r->0.config_dir@ == join_path(
                    set_or_below(base.config_home, home, ".config"@),
                    APP_ID@,
                )
                &&& r->0.data_dir@ == join_path(data, APP_ID@)
                &&& r->0.cache_dir@ == join_path(
                    set_or_below(base.cache_home, home, ".cache"@),
                    APP_ID@,
                )
                &&& r->0.runtime_dir@ == join_path(runtime, APP_ID@)
            },
    {
        match &base.home {
            None => None,
            Some(home) => {
                let config = dir_or_below(&base.config_home, home, ".config");
                let data = dir_or_below(&base.data_home, home, ".local/share");
                let cache = dir_or_below(&base.cache_home, home, ".cache");
                let own = join(&data, APP_ID);
                let runtime = dir_or_below(&base.runtime_dir, &own, "runtime");
                Some(
                    AppPaths {
                        config_dir: join(&config, APP_ID),
                        data_dir: own,
                        cache_dir: join(&cache, APP_ID),
                        runtime_dir: join(&runtime, APP_ID),
                    },
                )
            },
        }
    }

    /// The directories that have to exist, in the order in which they are made.
    pub fn ensure(&self) -> (r: Vec<String>)
        ensures
            views(r@) == seq![
                self.config_dir@,
                self.data_dir@,
                self.cache_dir@,
                self.runtime_dir@,
                join_path(self.data_dir@, "archives"@),
                join_path(self.data_dir@, "releases"@),
                join_path(self.data_dir@, "profiles"@),
                join_path(self.data_dir@, "backups"@),
                join_path(self.data_dir@, "save-sets"@),
            ],
    {
        let r = vec![
            self.config_dir.clone(),
            self.data_dir.clone(),
            self.cache_dir.clone(),
            self.runtime_dir.clone(),
            self.archives_dir(),
            self.releases_dir(),
            self.profiles_dir(),
            self.backups_dir(),
            self.save_sets_dir(),
        ];
        assert(views(r@) =~= seq![
            self.config_dir@,
            self.data_dir@,
            self.cache_dir@,
            self.runtime_dir@,
            join_path(self.data_dir@, "archives"@),
            join_path(self.data_dir@, "releases"@),
            join_path(self.data_dir@, "profiles"@),
            join_path(self.data_dir@, "backups"@),
            join_path(self.data_dir@, "save-sets"@),
        ]);
        r
    }

    /// The file of the database.
    pub fn db_path(&self) -> (r: String)
        ensures
            r@ == join_path(self.data_dir@, "library.sqlite3"@),
    {
        join(&self.data_dir, "library.sqlite3")
    }

    /// The file of the configuration.
    pub fn config_path(&self) -> (r: String)
        ensures
            r@ == join_path(self.config_dir@, "config.toml"@),
    {
        join(&self.config_dir, "config.toml")
    }

    /// Where the archives that mods came in are kept.
    pub fn archives_dir(&self) -> (r: String)
        ensures
            r@ == join_path(self.data_dir@, "archives"@),
    {
        join(&self.data_dir, "archives")
    }

    /// Where the files of mods are kept.
    pub fn releases_dir(&self) -> (r: String)
        ensures
            r@ == join_path(self.data_dir@, "releases"@),
    {
        join(&self.data_dir, "releases")
    }

    /// Where the state of profiles is kept.
    pub fn profiles_dir(&self) -> (r: String)
        ensures
            r@ == join_path(self.data_dir@, "profiles"@),
    {
        join(&self.data_dir, "profiles")
    }

    /// Where backups are kept.
    pub fn backups_dir(&self) -> (r: String)
        ensures
            r@ == join_path(self.data_dir@, "backups"@),
    {
        join(&self.data_dir, "backups")
    }

    /// Where shared saves are kept.
    pub fn save_sets_dir(&self) -> (r: String)
        ensures
            r@ == join_path(self.data_dir@, "save-sets"@),
    {
        join(&self.data_dir, "save-sets")
    }

    /// The directory of a save set, as a path.
    pub open spec fn save_set_place(self, save_set_id: Seq<char>) -> Seq<char> {
        join_path(join_path(self.data_dir@, "save-sets"@), save_set_id)
    }

    /// The directory of a save set.
    pub fn save_set_dir(&self, save_set_id: &str) -> (r: String)
        ensures
            r@ == self.save_set_place(save_set_id@),
    {
        join(&self.save_sets_dir(), save_set_id)
    }

    /// The directory of a profile, as a path.
    pub open spec fn profile_place(self, profile_id: Seq<char>) -> Seq<char> {
        join_path(join_path(self.data_dir@, "profiles"@), profile_id)
    }

    /// The directory of a profile.
    pub fn profile_dir(&self, profile_id: &str) -> (r: String)
        ensures
            r@ == self.profile_place(profile_id@),
    {
        join(&self.profiles_dir(), profile_id)
    }

    /// Whether a path lies in a directory that the application may change.
    pub fn is_managed_path(&self, path: &str) -> (r: bool)
        ensures
            r == (lies_under(path@, self.data_dir@) || lies_under(path@, self.cache_dir@)
                || lies_under(path@, self.runtime_dir@)),
    {
        starts_with(path, &self.data_dir) || starts_with(path, &self.cache_dir) || starts_with(
            path,
            &self.runtime_dir,
        )
    }
}

/// A directory that the user set is taken as it is; without one it lies below the given
/// place.
pub proof fn law_set_directories_are_taken(set: String, base: Seq<char>, more: Seq<char>)
    ensures
        set_or_below(Some(set), base, more) == set@,
        set_or_below(None, base, more) == join_path(base, more),
{
}

} // verus!
