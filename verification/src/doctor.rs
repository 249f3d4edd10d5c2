//! Whether the machine has what the game and its mods need.
use vstd::prelude::*;

use crate::catalog::literal_views;
use crate::models::GameInstall;
use crate::path::{join, join_path, option_view};
use crate::text::{join_texts, joined, split_on, split_text, views};

verus! {

/// What was found out about one thing.
#[derive(Debug)]
pub struct Check {
    pub name: String,
    pub ok: bool,
    pub detail: String,
    pub remedy: Option<String>,
}

/// What was found out about one thing, as sequences of characters.
pub struct Finding {
    pub name: Seq<char>,
    pub ok: bool,
    pub detail: Seq<char>,
    pub remedy: Option<Seq<char>>,
}

impl View for Check {
    type V = Finding;

    open spec fn view(&self) -> Finding {
        Finding {
            name: self.name@,
            ok: self.ok,
            detail: self.detail@,
            remedy: option_view(self.remedy),
        }
    }
}

/// What the machine is like. A command is the path that it was found at.
pub struct SystemFacts {
    pub steam: Option<String>,
    pub umu: Option<String>,
    pub overlay: Option<String>,
    pub winetricks: Option<String>,
    pub bsdtar: Option<String>,
    /// Whether there is a display to draw on.
    pub display: bool,
    pub session_type: Option<String>,
    pub desktop: Option<String>,
    /// What mods left in the tree of the first game.
    pub artifacts: Vec<String>,
}

/// Where a command is looked for: in each directory of the search path.
pub fn command_places(search_path: &str, command: &str) -> (r: Vec<String>)
    ensures
        views(r@) == split_on(search_path@, ':').map_values(
            |directory: Seq<char>| join_path(directory, command@),
        ),
{
    let directories = split_text(search_path, ':');
    let ghost turn = |directory: Seq<char>| join_path(directory, command@);
    let mut r: Vec<String> = Vec::new();
    let mut i: usize = 0;
    while i < directories.len()
        invariant
            i <= directories@.len(),
            views(directories@) == split_on(search_path@, ':'),
            turn == (|directory: Seq<char>| join_path(directory, command@)),
            r@.len() == i,
            forall|j: int|
                0 <= j < i ==> (#[trigger] r@[j])@ == join_path(directories@[j]@, command@),
        decreases directories@.len() - i,
    {
        r.push(join(&directories[i], command));
        i += 1;
    }
    assert(views(r@) =~= views(directories@).map_values(turn));
    r
}

/// The finding on a command.
pub open spec fn command_finding(
    name: Seq<char>,
    command: Seq<char>,
    remedy: Seq<char>,
    found: Option<Seq<char>>,
) -> Finding {
    match found {
        Some(path) => Finding { name, ok: true, detail: path, remedy: None },
        None => Finding {
            name,
            ok: false,
            detail: command + " not found in PATH"@,
            remedy: Some(remedy),
        },
    }
}

fn command_check(name: &str, command: &str, remedy: &str, found: &Option<String>) -> (r: Check)
    ensures
        r@ == command_finding(name@, command@, remedy@, option_view(*found)),
{
    match found {
        Some(path) => Check { name: name.to_owned(), ok: true, detail: path.clone(), remedy: None },
        None => Check {
            name: name.to_owned(),
            ok: false,
            detail: command.to_owned().concat(" not found in PATH"),
            remedy: Some(remedy.to_owned()),
        },
    }
}

/// A text or `unknown`.
pub open spec fn or_unknown(text: Option<Seq<char>>) -> Seq<char> {
    match text {
        Some(text) => text,
        None => "unknown"@,
    }
}

fn text_or_unknown(text: &Option<String>) -> (r: String)
    ensures
        r@ == or_unknown(option_view(*text)),
{
    match text {
        Some(text) => text.clone(),
        None => "unknown".to_owned(),
    }
}

/// A game in words.
pub open spec fn game_text(game: GameInstall) -> Seq<char> {
    game.root@ + " (build "@ + game.build_id@ + ", "@ + (if game.phantom_liberty {
        "Phantom Liberty"@
    } else {
        "base game"@
    }) + ", "@ + (if game.writable {
        "writable"@
    } else {
        "read-only"@
    }) + ")"@
}

/// The findings on the commands and the session.
pub open spec fn system_findings(facts: SystemFacts) -> Seq<Finding> {
    seq![
        command_finding(
            "Steam"@,
            "steam"@,
            "Install native Steam or expose the Steam library manually."@,
            option_view(facts.steam),
        ),
        command_finding(
            "UMU launcher"@,
            "umu-run"@,
            "Install with: sudo pacman -S umu-launcher"@,
            option_view(facts.umu),
        ),
        command_finding(
            "FUSE overlay"@,
            "fuse-overlayfs"@,
            "Install with: sudo pacman -S fuse-overlayfs"@,
            option_view(facts.overlay),
        ),
        command_finding(
            "Winetricks"@,
            "winetricks"@,
            "Install with: sudo pacman -S winetricks"@,
            option_view(facts.winetricks),
        ),
        command_finding(
            "Archive extractor"@,
            "bsdtar"@,
            "Install with: sudo pacman -S libarchive"@,
            option_view(facts.bsdtar),
        ),
        Finding {
            name: "Wayland/Hyprland session"@,
            ok: facts.display,
            detail: or_unknown(option_view(facts.session_type)) + " / "@ + or_unknown(
                option_view(facts.desktop),
            ),
            remedy: None,
        },
    ]
}

/// The findings on the first game.
pub open spec fn game_findings(games: Seq<GameInstall>, artifacts: Seq<Seq<char>>) -> Seq<Finding> {
    if games.len() == 0 {
        seq![
            Finding {
                name: "Cyberpunk 2077"@,
                ok: false,
                detail: "Steam app 1091500 was not found"@,
                remedy: Some("Install Cyberpunk 2077 in a discoverable Steam library."@),
            },
        ]
    } else {
        let game = games[0];
        seq![
            Finding {
                name: "Cyberpunk 2077"@,
                ok: true,
                detail: game_text(game),
                remedy: None,
            },
            Finding {
                name: "REDmod DLC"@,
                ok: game.redmod,
                detail: if game.redmod {
                    "tools/redmod/bin/redMod.exe is present"@
                } else {
                    "Free Steam DLC 2060310 is not installed"@
                },
                remedy: if game.redmod {
                    None
                } else {
                    Some(
                        "Install Cyberpunk 2077 REDmod from Steam; the Steam library must be writable."@,
                    )
                },
            },
            Finding {
                name: "Vanilla tree"@,
                ok: artifacts.len() == 0,
                detail: if artifacts.len() == 0 {
                    "No managed-framework artifacts found in the vanilla tree"@
                } else {
                    "Unmanaged artifacts: "@ + joined(artifacts, ", "@)
                },
                remedy: if artifacts.len() == 0 {
                    None
                } else {
                    Some(
                        "Import existing mods, remove them from the vanilla tree, then verify with Steam."@,
                    )
                },
            },
        ]
    }
}

/// A list of checks, as sequences of characters.
pub open spec fn check_views(list: Seq<Check>) -> Seq<Finding> {
    list.map_values(|check: Check| check@)
}

/// What mods leave in the tree of a game.
pub fn artifact_paths() -> (r: Vec<&'static str>)
    ensures
        literal_views(r@) == seq![
            "bin/x64/version.dll"@,
            "bin/x64/winmm.dll"@,
            "bin/x64/plugins/cyber_engine_tweaks"@,
            "red4ext/RED4ext.dll"@,
            "archive/pc/mod"@,
            "r6/scripts"@,
            "r6/tweaks"@,
        ],
{
    let r = vec![
        "bin/x64/version.dll",
        "bin/x64/winmm.dll",
        "bin/x64/plugins/cyber_engine_tweaks",
        "red4ext/RED4ext.dll",
        "archive/pc/mod",
        "r6/scripts",
        "r6/tweaks",
    ];
    assert(literal_views(r@) =~= seq![
        "bin/x64/version.dll"@,
        "bin/x64/winmm.dll"@,
        "bin/x64/plugins/cyber_engine_tweaks"@,
        "red4ext/RED4ext.dll"@,
        "archive/pc/mod"@,
        "r6/scripts"@,
        "r6/tweaks"@,
    ]);
    r
}

/// A game in words.
pub fn describe_game(game: &GameInstall) -> (r: String)
    ensures
        r@ == game_text(*game),
{
    let edition = if game.phantom_liberty {
        "Phantom Liberty"
    } else {
        "base game"
    };
    let access = if game.writable {
        "writable"
    } else {
        "read-only"
    };
    game.root.clone().concat(" (build ").concat(&game.build_id).concat(", ").concat(edition).concat(
        ", ",
    ).concat(access).concat(")")
}

fn push_game_checks(checks: &mut Vec<Check>, games: &[GameInstall], artifacts: &Vec<String>)
    ensures
        check_views(final(checks)@) == check_views(old(checks)@) + game_findings(
            games@,
            views(artifacts@),
        ),
{
    let ghost had = check_views(checks@);
    assert(views(artifacts@).len() == artifacts@.len());
    if games.len() == 0 {
        checks.push(
            Check {
                name: "Cyberpunk 2077".to_owned(),
                ok: false,
                detail: "Steam app 1091500 was not found".to_owned(),
                remedy: Some("Install Cyberpunk 2077 in a discoverable Steam library.".to_owned()),
            },
        );
    } else {
        let game = &games[0];
        let clean = artifacts.len() == 0;
        checks.push(
            Check {
                name: "Cyberpunk 2077".to_owned(),
                ok: true,
                detail: describe_game(game),
                remedy: None,
            },
        );
        checks.push(
            Check {
                name: "REDmod DLC".to_owned(),
                ok: game.redmod,
                detail: if game.redmod {
                    "tools/redmod/bin/redMod.exe is present".to_owned()
                } else {
                    "Free Steam DLC 2060310 is not installed".to_owned()
                },
                remedy: if game.redmod {
                    None
                } else {
                    Some(
                        "Install Cyberpunk 2077 REDmod from Steam; the Steam library must be writable.".to_owned(),
                    )
                },
            },
        );
        checks.push(
            Check {
                name: "Vanilla tree".to_owned(),
                ok: clean,
                detail: if clean {
                    "No managed-framework artifacts found in the vanilla tree".to_owned()
                } else {
                    "Unmanaged artifacts: ".to_owned().concat(&join_texts(artifacts, ", "))
                },
                remedy: if clean {
                    None
                } else {
                    Some(
                        "Import existing mods, remove them from the vanilla tree, then verify with Steam.".to_owned(),
                    )
                },
            },
        );
    }
    assert(check_views(checks@) =~= had + game_findings(games@, views(artifacts@)));
}

/// Looks the machine and the first game over.
pub fn run(games: &[GameInstall], facts: &SystemFacts) -> (r: Vec<Check>)
    ensures
        check_views(r@) == system_findings(*facts) + game_findings(games@, views(facts.artifacts@)),
{
    let mut checks: Vec<Check> = Vec::new();
    checks.push(
        command_check(
            "Steam",
            "steam",
            "Install native Steam or expose the Steam library manually.",
            &facts.steam,
        ),
    );
    checks.push(
        command_check(
            "UMU launcher",
            "umu-run",
            "Install with: sudo pacman -S umu-launcher",
            &facts.umu,
        ),
    );
    checks.push(
        command_check(
            "FUSE overlay",
            "fuse-overlayfs",
            "Install with: sudo pacman -S fuse-overlayfs",
            &facts.overlay,
        ),
    );
    checks.push(
        command_check(
            "Winetricks",
            "winetricks",
            "Install with: sudo pacman -S winetricks",
            &facts.winetricks,
        ),
    );
    checks.push(
        command_check(
            "Archive extractor",
            "bsdtar",
            "Install with: sudo pacman -S libarchive",
            &facts.bsdtar,
        ),
    );
    checks.push(
        Check {
            name: "Wayland/Hyprland session".to_owned(),
            ok: facts.display,
            detail: text_or_unknown(&facts.session_type).concat(" / ").concat(
                &text_or_unknown(&facts.desktop),
            ),
            remedy: None,
        },
    );
    assert(check_views(checks@) =~= system_findings(*facts));
    push_game_checks(&mut checks, games, &facts.artifacts);
    checks
}

/// The machine is looked over for all that a launch needs: Steam, the launcher, the
/// overlay, the tool that prepares prefixes and the one that unpacks archives. Each is in
/// order exactly where it was found, and what is missing comes with a remedy.
pub proof fn law_tools_are_checked(facts: SystemFacts, k: int)
    requires
        0 <= k < 5,
    ensures
        ({
            let found = seq![facts.steam, facts.umu, facts.overlay, facts.winetricks, facts.bsdtar][k];
            let names = seq![
                "Steam"@,
                "UMU launcher"@,
                "FUSE overlay"@,
                "Winetricks"@,
                "Archive extractor"@,
            ];
            let commands = seq![
                "steam"@,
                "umu-run"@,
                "fuse-overlayfs"@,
                "winetricks"@,
                "bsdtar"@,
            ];
            let finding = system_findings(facts)[k];
            &&& finding.name == names[k]
            &&& finding.ok <==> found is Some
            &&& finding.ok <==> finding.remedy is None
            &&& finding.ok ==> finding.detail == found->0@
            &&& !finding.ok ==> finding.detail == commands[k] + " not found in PATH"@
        }),
        system_findings(facts).len() == 6,
        system_findings(facts)[5].ok == facts.display,
{
}

/// The game is in order where one was found, its REDmod where it is installed, its tree
/// where no mod left anything in it; what is not in order comes with a remedy. Without a
/// game nothing is said of the other two.
pub proof fn law_first_game_is_checked(games: Seq<GameInstall>, artifacts: Seq<Seq<char>>, k: int)
    ensures
        ({
            let findings = game_findings(games, artifacts);
            &&& findings.len() == if games.len() > 0 {
                3int
            } else {
                1
            }
            &&& findings[0].name == "Cyberpunk 2077"@
            &&& findings[0].ok <==> games.len() > 0
            &&& games.len() > 0 ==> {
                &&& findings[1].name == "REDmod DLC"@
                &&& findings[1].ok == games[0].redmod
                &&& findings[2].name == "Vanilla tree"@
                &&& findings[2].ok <==> artifacts.len() == 0
            }
            &&& 0 <= k < findings.len() ==> (findings[k].ok <==> findings[k].remedy is None)
        }),
{
}

} // verus!
