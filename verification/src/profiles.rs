//! Making profiles.
use vstd::prelude::*;

use crate::launcher::build_blocks;
use crate::models::{GameInstall, Profile, Timestamp};
use crate::outside::{fresh_id, uuid_form};
use crate::text::{is_white, law_trimming_frees_the_ends, trim, trimmed, views, CharClass};
use crate::text_map::TextMap;

verus! {

/// Why a profile cannot be made.
#[derive(Debug, Clone, Copy, PartialEq, Eq, Structural)]
pub enum ProfileError {
    EmptyName,
}

impl ProfileError {
    /// What went wrong, in words.
    pub fn message(self) -> (r: &'static str)
        ensures
            r@ == "profile name cannot be empty"@,
    {
        "profile name cannot be empty"
    }
}

/// Whether a profile is the new one with an id.
pub open spec fn is_new_profile(
    profile: Profile,
    id: Seq<char>,
    game: GameInstall,
    name: Seq<char>,
    runner: Seq<char>,
    now: Timestamp,
) -> bool {
    &&& profile.id@ == id
    &&& profile.name@ == trimmed(name, CharClass::White)
    &&& profile.game_install_id@ == game.id@
    &&& profile.game_build_id@ == game.build_id@
    &&& profile.runner@ == runner
    &&& views(profile.launch_args@) == Seq::<Seq<char>>::empty()
    &&& profile.environment@ == Map::<Seq<char>, Seq<char>>::empty()
    &&& profile.created_at == now
}

/// A new profile with an id. The name is taken without the white space around it
/// and must not be empty.
pub fn create_with_id(
    id: String,
    game: &GameInstall,
    name: &str,
    runner: &str,
    now: Timestamp,
) -> (r: Result<Profile, ProfileError>)
    ensures
        r is Err <==> trimmed(name@, CharClass::White).len() == 0,
        r is Ok ==> is_new_profile(r->Ok_0, id@, *game, name@, runner@, now),
{
    let name = trim(name, &CharClass::White);
    if name.as_str().is_empty() {
        return Err(ProfileError::EmptyName);
    }
    let launch_args: Vec<String> = Vec::new();
    assert(views(launch_args@) =~= Seq::<Seq<char>>::empty());
    Ok(
        Profile {
            id,
            name,
            game_install_id: game.id.clone(),
            game_build_id: game.build_id.clone(),
            runner: runner.to_owned(),
            launch_args,
            environment: TextMap::new(),
            created_at: now,
        },
    )
}

/// A new profile with a fresh id.
pub fn create(game: &GameInstall, name: &str, runner: &str, now: Timestamp) -> (r: Result<
    Profile,
    ProfileError,
>)
    ensures
        r is Err <==> trimmed(name@, CharClass::White).len() == 0,
        r is Ok ==> uuid_form(r->Ok_0.id@) && is_new_profile(
            r->Ok_0,
            r->Ok_0.id@,
            *game,
            name@,
            runner@,
            now,
        ),
{
    create_with_id(fresh_id(), game, name, runner, now)
}

/// The profile that is made where there is a game and no profile.
pub fn default_profile(profiles: &Vec<Profile>, games: &[GameInstall], now: Timestamp) -> (r: Option<
    Profile,
>)
    ensures
        r is Some <==> profiles@.len() == 0 && games@.len() > 0,
        r is Some ==> uuid_form(r->0.id@) && is_new_profile(
            r->0,
            r->0.id@,
            games@[0],
            "Default"@,
            "UMU-Proton"@,
            now,
        ),
{
    if profiles.len() == 0 && games.len() > 0 {
        let made = create(&games[0], "Default", "UMU-Proton", now);
        proof {
            reveal_strlit("Default");
            let name = "Default"@;
            assert(name.len() == 7 && name[0] == 'D' && name.last() == 't');
            assert(crate::text::trimmed_start(name, CharClass::White) == name);
            assert(crate::text::trimmed_end(name, CharClass::White) == name);
        }
        match made {
            Ok(profile) => Some(profile),
            Err(_) => None,
        }
    } else {
        None
    }
}

/// A new profile is for the game that it is made for, and for its present build, so that
/// nothing stands in the way of its launch on that account. It has the name that was given,
/// without white space at its ends, the runner that was given, no arguments and no
/// environment of its own.
pub proof fn law_new_profiles_fit_their_game(
    profile: Profile,
    id: Seq<char>,
    game: GameInstall,
    name: Seq<char>,
    runner: Seq<char>,
    now: Timestamp,
    force: bool,
    excused: bool,
)
    requires
        is_new_profile(profile, id, game, name, runner, now),
    ensures
        profile.id@ == id,
        profile.game_install_id@ == game.id@,
        !build_blocks(profile, game, force, excused),
        profile.game_build_id@ == game.build_id@,
        profile.runner@ == runner,
        profile.created_at == now,
        profile.launch_args@.len() == 0,
        forall|key: Seq<char>| !profile.environment@.dom().contains(key),
        exists|a: int, b: int|
            0 <= a <= b <= name.len() && profile.name@ == #[trigger] name.subrange(a, b),
        profile.name@.len() > 0 ==> !is_white(profile.name@[0]) && !is_white(profile.name@.last()),
{
    let (a, b) = law_trimming_frees_the_ends(name, CharClass::White);
    assert(profile.name@ == name.subrange(a, b));
    assert(views(profile.launch_args@).len() == profile.launch_args@.len());
}

} // verus!
