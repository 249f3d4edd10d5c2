//! What the dialogs say and where they stand.
use vstd::prelude::*;

use super::state::{App, PendingAction, Question};
use crate::catalog::{label_of, requirement_label};
use crate::models::Profile;
use crate::outside::pair_views;
use crate::path::{file_name, last_name};
use crate::text::{chars_of, decimal, decimal_text, if_so, join_texts, joined, same_text, views};

verus! {

/// Whether the profile at `i` is the first with an id.
pub open spec fn profile_at(profiles: Seq<Profile>, id: Seq<char>, i: int) -> bool {
    &&& 0 <= i < profiles.len()
    &&& profiles[i].id@ == id
    &&& forall|j: int| 0 <= j < i ==> (#[trigger] profiles[j]).id@ != id
}

/// The name of the profile with an id, or another name where there is none.
pub open spec fn profile_name(profiles: Seq<Profile>, id: Seq<char>, other: Seq<char>) -> Seq<char> {
    if exists|i: int| profile_at(profiles, id, i) {
        profiles[choose|i: int| profile_at(profiles, id, i)].name@
    } else {
        other
    }
}

fn find_name(profiles: &Vec<Profile>, id: &str, other: &str) -> (r: String)
    ensures
        r@ == profile_name(profiles@, id@, other@),
{
    let mut i: usize = 0;
    while i < profiles.len()
        invariant
            i <= profiles@.len(),
            forall|j: int| 0 <= j < i ==> (#[trigger] profiles@[j]).id@ != id@,
        decreases profiles@.len() - i,
    {
        if same_text(&profiles[i].id, id) {
            assert(profile_at(profiles@, id@, i as int));
            proof {
                let k = choose|k: int| profile_at(profiles@, id@, k);
                assert(k == i);
            }
            return profiles[i].name.clone();
        }
        i += 1;
    }
    assert forall|k: int| !profile_at(profiles@, id@, k) by {
        if profile_at(profiles@, id@, k) {
            assert(profiles@[k].id@ == id@);
        }
    }
    other.to_owned()
}

/// The second texts of pairs.
pub open spec fn names_in(pairs: Seq<(Seq<char>, Seq<char>)>) -> Seq<Seq<char>> {
    pairs.map_values(|p: (Seq<char>, Seq<char>)| p.1)
}

fn names_of(pairs: &Vec<(String, String)>) -> (r: Vec<String>)
    ensures
        views(r@) == names_in(pair_views(pairs@)),
{
    let mut r: Vec<String> = Vec::new();
    let mut i: usize = 0;
    while i < pairs.len()
        invariant
            i <= pairs@.len(),
            r@.len() == i,
            forall|j: int| 0 <= j < i ==> (#[trigger] r@[j])@ == pairs@[j].1@,
        decreases pairs@.len() - i,
    {
        r.push(pairs[i].1.clone());
        i += 1;
    }
    assert(views(r@) =~= names_in(pair_views(pairs@)));
    r
}

/// What a question about enabling a mod says, line by line.
pub open spec fn enable_lines(
    name: Seq<char>,
    enable: Seq<(Seq<char>, Seq<char>)>,
    missing: Seq<Seq<char>>,
    disable: Seq<(Seq<char>, Seq<char>)>,
) -> Seq<Seq<char>> {
    seq!["Enable "@ + name + "?"@] + if_so(
        enable.len() > 0,
        "y also enables: "@ + joined(names_in(enable), ", "@) + "."@,
    ) + if_so(
        missing.len() > 0,
        "Not in the library (fetch from Add, then f): "@ + joined(missing, ", "@) + "."@,
    ) + if_so(
        disable.len() > 0,
        "y disables duplicate copy: "@ + joined(names_in(disable), ", "@) + "."@,
    ) + seq!["n enables only this row. Esc cancels."@]
}

/// What a dialog says of a question.
pub open spec fn question_text(profiles: Seq<Profile>, question: Question) -> Seq<char> {
    match question {
        Question::DisableAllMods =>
            "Disable all mods in the selected profile?\n\nThis creates a reversible vanilla loadout revision. The Steam game remains untouched."@,
        Question::RestoreBackup(path) => "Restore "@ + (match last_name(path) {
            Some(name) => name,
            None => Seq::empty(),
        }) + "?\n\nA pre-restore backup will be created first."@,
        Question::ShareSaves(source, target) => "Share "@ + profile_name(
            profiles,
            source,
            "source profile"@,
        ) + "'s modded saves with "@ + profile_name(profiles, target, "target profile"@)
            + "?\n\nBoth private states are backed up first. Steam's vanilla saves are never accessed."@,
        Question::MakeSavesPrivate(id) => "Detach "@ + profile_name(profiles, id, "profile"@)
            + " from its shared save set?\n\nThe current shared saves are copied into private profile storage."@,
        Question::ImportSteamSaves(id) => "Replace "@ + profile_name(profiles, id, "profile"@)
            + "'s modded saves with the current local Steam saves?\n\nThe modded destination is backed up first. Steam must be fully closed. Steam files are only read."@,
        Question::ExportSteamSaves(id) => "Replace the local vanilla Steam saves with "@
            + profile_name(profiles, id, "profile"@)
            + "'s modded saves?\n\nSteam's destination is backed up first. Steam must be fully closed. Steam Cloud may present a conflict afterward."@,
        Question::FrameworkPresent(framework, _, version, copies) => label_of(framework) + " "@
            + version + " is already in the library ("@ + decimal(copies) + " cop"@ + (if copies
            == 1 {
            "y"@
        } else {
            "ies"@
        })
            + ").\n\nPress y to enable the existing copy in this profile, r to fetch the latest release and replace, or n to cancel."@,
        Question::DeleteMods(_, label, used_by) => "Delete "@ + label
            + " from the library?\n\n"@ + (if used_by.len() == 0 {
            "It is not in any profile loadout."@
        } else {
            "Used by: "@ + joined(used_by, ", "@) + "."@
        })
            + " Loadout entries are removed from every profile. The vanilla Steam tree is not touched."@,
        Question::EnableMod(_, name, enable, missing, disable) => joined(
            enable_lines(name, enable, missing, disable),
            "\n"@,
        ),
    }
}

fn enable_message(
    name: &String,
    enable: &Vec<(String, String)>,
    missing: &Vec<String>,
    disable: &Vec<(String, String)>,
) -> (r: String)
    ensures
        r@ == joined(
            enable_lines(name@, pair_views(enable@), views(missing@), pair_views(disable@)),
            "\n"@,
        ),
{
    let mut lines: Vec<String> = Vec::new();
    lines.push("Enable ".to_owned().concat(name).concat("?"));
    assert(views(lines@) =~= seq!["Enable "@ + name@ + "?"@]);
    assert(pair_views(enable@).len() == enable@.len());
    assert(views(missing@).len() == missing@.len());
    assert(pair_views(disable@).len() == disable@.len());
    let enables = "y also enables: ".to_owned().concat(&join_texts(&names_of(enable), ", ")).concat(
        ".",
    );
    let misses = "Not in the library (fetch from Add, then f): ".to_owned().concat(
        &join_texts(missing, ", "),
    ).concat(".");
    let disables = "y disables duplicate copy: ".to_owned().concat(
        &join_texts(&names_of(disable), ", "),
    ).concat(".");
    crate::text::add_if(&mut lines, enable.len() > 0, &enables);
    crate::text::add_if(&mut lines, missing.len() > 0, &misses);
    crate::text::add_if(&mut lines, disable.len() > 0, &disables);
    let ghost had = views(lines@);
    lines.push("n enables only this row. Esc cancels.".to_owned());
    assert(views(lines@) =~= had + seq!["n enables only this row. Esc cancels."@]);
    join_texts(&lines, "\n")
}

/// What the dialog says of a question.
pub fn confirmation_message(app: &App, action: &PendingAction) -> (r: String)
    ensures
        r@ == question_text(app.profiles@, action@),
{
    match action {
        PendingAction::DisableAllMods =>
            "Disable all mods in the selected profile?\n\nThis creates a reversible vanilla loadout revision. The Steam game remains untouched.".to_owned(),
        PendingAction::RestoreBackup(path) => {
            let name = match file_name(path) {
                Some(name) => name,
                None => String::new(),
            };
            "Restore ".to_owned().concat(&name).concat(
                "?\n\nA pre-restore backup will be created first.",
            )
        },
        PendingAction::ShareSaves { source_id, target_id } => {
            let source = find_name(&app.profiles, source_id, "source profile");
            let target = find_name(&app.profiles, target_id, "target profile");
            "Share ".to_owned().concat(&source).concat("'s modded saves with ").concat(
                &target,
            ).concat(
                "?\n\nBoth private states are backed up first. Steam's vanilla saves are never accessed.",
            )
        },
        PendingAction::MakeSavesPrivate { profile_id } => {
            let name = find_name(&app.profiles, profile_id, "profile");
            "Detach ".to_owned().concat(&name).concat(
                " from its shared save set?\n\nThe current shared saves are copied into private profile storage.",
            )
        },
        PendingAction::ImportSteamSaves { profile_id } => {
            let name = find_name(&app.profiles, profile_id, "profile");
            "Replace ".to_owned().concat(&name).concat(
                "'s modded saves with the current local Steam saves?\n\nThe modded destination is backed up first. Steam must be fully closed. Steam files are only read.",
            )
        },
        PendingAction::ExportSteamSaves { profile_id } => {
            let name = find_name(&app.profiles, profile_id, "profile");
            "Replace the local vanilla Steam saves with ".to_owned().concat(&name).concat(
                "'s modded saves?\n\nSteam's destination is backed up first. Steam must be fully closed. Steam Cloud may present a conflict afterward.",
            )
        },
        PendingAction::FrameworkPresent { framework_id, release_id: _, version, copies } => {
            requirement_label(framework_id).concat(" ").concat(version).concat(
                " is already in the library (",
            ).concat(&decimal_text(*copies as u128)).concat(" cop").concat(
                if *copies == 1 {
                    "y"
                } else {
                    "ies"
                },
            ).concat(
                ").\n\nPress y to enable the existing copy in this profile, r to fetch the latest release and replace, or n to cancel.",
            )
        },
        PendingAction::DeleteMods { ids: _, label, used_by } => {
            assert(views(used_by@).len() == used_by@.len());
            let users = if used_by.len() == 0 {
                "It is not in any profile loadout.".to_owned()
            } else {
                "Used by: ".to_owned().concat(&join_texts(used_by, ", ")).concat(".")
            };
            "Delete ".to_owned().concat(label).concat(" from the library?\n\n").concat(
                &users,
            ).concat(
                " Loadout entries are removed from every profile. The vanilla Steam tree is not touched.",
            )
        },
        PendingAction::EnableMod {
            release_id: _,
            release_name,
            enable_deps,
            missing_deps,
            disable_dups,
        } => enable_message(release_name, enable_deps, missing_deps, disable_dups),
    }
}

/// The title of the dialog: which keys answer the question.
pub fn confirmation_title(action: &PendingAction) -> (r: &'static str)
    ensures
        r@ == match action@ {
            Question::FrameworkPresent(_, _, _, _) =>
                " CONFIRM // Y ENABLE // R REPLACE // N OR ESC CANCELS "@,
            Question::EnableMod(_, _, _, _, _) =>
                " CONFIRM // Y FIX // N ENABLE ONLY // ESC CANCELS "@,
            _ => " CONFIRM // Y YES // N OR ESC CANCELS "@,
        },
{
    match action {
        PendingAction::FrameworkPresent { .. } =>
            " CONFIRM // Y ENABLE // R REPLACE // N OR ESC CANCELS ",
        PendingAction::EnableMod { .. } => " CONFIRM // Y FIX // N ENABLE ONLY // ESC CANCELS ",
        _ => " CONFIRM // Y YES // N OR ESC CANCELS ",
    }
}

/// A part of the screen.
#[derive(Debug, Clone, Copy, PartialEq, Eq, Structural)]
pub struct Area {
    pub x: u16,
    pub y: u16,
    pub width: u16,
    pub height: u16,
}

/// Whether the right and the lower edge of an area have a number.
pub open spec fn has_edges(area: Area) -> bool {
    area.x + area.width <= 65535 && area.y + area.height <= 65535
}

/// Whether an area lies inside another.
pub open spec fn inside(inner: Area, outer: Area) -> bool {
    &&& outer.x <= inner.x
    &&& outer.y <= inner.y
    &&& inner.x + inner.width <= outer.x + outer.width
    &&& inner.y + inner.height <= outer.y + outer.height
}

/// One number less another, but not below zero.
pub open spec fn less(a: int, b: int) -> int {
    if a > b {
        a - b
    } else {
        0
    }
}

/// An area of some size in the middle of another.
pub open spec fn middle(outer: Area, width: int, height: int) -> Area {
    Area {
        x: (outer.x + less(outer.width as int, width) / 2) as u16,
        y: (outer.y + less(outer.height as int, height) / 2) as u16,
        width: width as u16,
        height: height as u16,
    }
}

/// A number between two others.
pub open spec fn between(n: int, low: int, high: int) -> int {
    if n < low {
        low
    } else if n > high {
        high
    } else {
        n
    }
}

/// The area of a dialog: as wide as the screen less four columns, but not wider
/// than `widest`, and as high as asked for and the screen allows.
pub open spec fn dialog(outer: Area, widest: int, height: int) -> Area {
    middle(
        outer,
        between(less(outer.width as int, 4), 1, widest),
        if height < outer.height {
            height
        } else {
            outer.height as int
        },
    )
}

/// The area of a dialog. On a screen with a column and a row it lies inside the
/// screen.
pub fn dialog_area(outer: Area, widest: u16, height: u16) -> (r: Area)
    requires
        has_edges(outer),
        widest > 0,
    ensures
        r == dialog(outer, widest as int, height as int),
        outer.width > 0 ==> inside(r, outer),
{
    let spare: u16 = if outer.width > 4 {
        outer.width - 4
    } else {
        0
    };
    let width: u16 = if spare < 1 {
        1
    } else if spare > widest {
        widest
    } else {
        spare
    };
    let tall: u16 = if height < outer.height {
        height
    } else {
        outer.height
    };
    let beside: u16 = if outer.width > width {
        outer.width - width
    } else {
        0
    };
    Area {
        x: outer.x + beside / 2,
        y: outer.y + (outer.height - tall) / 2,
        width,
        height: tall,
    }
}

/// The area of the dialog for a question.
pub fn confirmation_area(outer: Area) -> (r: Area)
    requires
        has_edges(outer),
    ensures
        r == dialog(outer, 86, 10),
{
    dialog_area(outer, 86, 10)
}

/// The area of a prompt.
pub fn prompt_area(outer: Area) -> (r: Area)
    requires
        has_edges(outer),
    ensures
        r == dialog(outer, 96, 5),
{
    dialog_area(outer, 96, 5)
}

/// Where the cursor stands in a prompt: behind what was typed, but inside the
/// prompt.
pub fn prompt_cursor(area: Area, input: &str) -> (r: (u16, u16))
    requires
        has_edges(area),
        area.width > 0,
        area.y < 65535,
    ensures
        r.1 == area.y + 1,
        r.0 == area.x + 1 + if input@.len() < less(area.width as int, 3) {
            input@.len() as int
        } else {
            less(area.width as int, 3)
        },
{
    let most: u16 = if area.width > 3 {
        area.width - 3
    } else {
        0
    };
    let typed = chars_of(input).len();
    let offset: u16 = if typed < most as usize {
        typed as u16
    } else {
        most
    };
    (area.x + 1 + offset, area.y + 1)
}

/// An area in the middle of another, at most so wide and so high, with a margin
/// and at least one column and one row.
pub open spec fn centered_in(outer: Area, width: int, height: int) -> Area {
    let room_x = less(outer.width as int, 2);
    let room_y = less(outer.height as int, 2);
    middle(
        outer,
        between(width, 1, if room_x > 1 { room_x } else { 1 }),
        between(height, 1, if room_y > 1 { room_y } else { 1 }),
    )
}

/// An area in the middle of another, at most so wide and so high, with a margin
/// and at least one column and one row.
pub fn centered(outer: Area, width: u16, height: u16) -> (r: Area)
    requires
        has_edges(outer),
    ensures
        r == centered_in(outer, width as int, height as int),
        outer.width > 0 && outer.height > 0 ==> inside(r, outer),
{
    let room_x: u16 = if outer.width > 2 {
        outer.width - 2
    } else {
        0
    };
    let room_y: u16 = if outer.height > 2 {
        outer.height - 2
    } else {
        0
    };
    let mut wide: u16 = if width < room_x {
        width
    } else {
        room_x
    };
    if wide == 0 {
        wide = 1;
    }
    let mut tall: u16 = if height < room_y {
        height
    } else {
        room_y
    };
    if tall == 0 {
        tall = 1;
    }
    let beside: u16 = if outer.width > wide {
        outer.width - wide
    } else {
        0
    };
    let above: u16 = if outer.height > tall {
        outer.height - tall
    } else {
        0
    };
    Area { x: outer.x + beside / 2, y: outer.y + above / 2, width: wide, height: tall }
}

/// The width of the sidebar.
pub fn sidebar_width(total_width: u16) -> (r: u16)
    ensures
        r == if total_width < 100 {
            16u16
        } else {
            22u16
        },
{
    if total_width < 100 {
        16
    } else {
        22
    }
}

/// The height of the list of frameworks: up to twelve rows, eight at least, with
/// eight left for the inbox.
pub fn core_height(height: u16) -> (r: u16)
    ensures
        r == between(less(height as int, 8), 8, 12),
{
    let spare: u16 = if height > 8 {
        height - 8
    } else {
        0
    };
    if spare < 8 {
        8
    } else if spare > 12 {
        12
    } else {
        spare
    }
}

/// A dialog says what is about to happen, and to whom: which backup is restored, whose
/// saves go to whom, whose saves are replaced by which, and which mods are deleted.
pub proof fn law_dialogs_name_what_they_are_about(
    profiles: Seq<Profile>,
    a: int,
    b: int,
    path: Seq<char>,
    label: Seq<char>,
    ids: Seq<Seq<char>>,
    used: Seq<Seq<char>>,
)
    requires
        0 <= a < profiles.len(),
        0 <= b < profiles.len(),
        forall|i: int, j: int|
            0 <= i < j < profiles.len() ==> (#[trigger] profiles[i]).id@ != (
            #[trigger] profiles[j]).id@,
    ensures
        ({
            let one = profiles[a];
            let two = profiles[b];
            &&& ("Share "@ + one.name@ + "'s modded saves with "@ + two.name@ + "?"@).is_prefix_of(
                question_text(profiles, Question::ShareSaves(one.id@, two.id@)),
            )
            &&& ("Detach "@ + one.name@ + " from its shared save set?"@).is_prefix_of(
                question_text(profiles, Question::MakeSavesPrivate(one.id@)),
            )
            &&& ("Replace "@ + one.name@
                + "'s modded saves with the current local Steam saves?"@).is_prefix_of(
                question_text(profiles, Question::ImportSteamSaves(one.id@)),
            )
            &&& ("Replace the local vanilla Steam saves with "@ + one.name@
                + "'s modded saves?"@).is_prefix_of(
                question_text(profiles, Question::ExportSteamSaves(one.id@)),
            )
            &&& ("Delete "@ + label + " from the library?"@).is_prefix_of(
                question_text(profiles, Question::DeleteMods(ids, label, used)),
            )
            &&& last_name(path) is Some ==> ("Restore "@ + last_name(path)->0 + "?"@).is_prefix_of(
                question_text(profiles, Question::RestoreBackup(path)),
            )
        }),
{
    let one = profiles[a];
    let two = profiles[b];
    lemma_named(profiles, a, "source profile"@);
    lemma_named(profiles, a, "profile"@);
    lemma_named(profiles, b, "target profile"@);
    reveal_strlit("?");
    reveal_strlit(
        "?\n\nBoth private states are backed up first. Steam's vanilla saves are never accessed.",
    );
    reveal_strlit(" from its shared save set?");
    reveal_strlit(
        " from its shared save set?\n\nThe current shared saves are copied into private profile storage.",
    );
    reveal_strlit("'s modded saves with the current local Steam saves?");
    reveal_strlit(
        "'s modded saves with the current local Steam saves?\n\nThe modded destination is backed up first. Steam must be fully closed. Steam files are only read.",
    );
    reveal_strlit("'s modded saves?");
    reveal_strlit(
        "'s modded saves?\n\nSteam's destination is backed up first. Steam must be fully closed. Steam Cloud may present a conflict afterward.",
    );
    reveal_strlit(" from the library?");
    reveal_strlit(" from the library?\n\n");
    reveal_strlit("?\n\nA pre-restore backup will be created first.");
    let t = question_text(profiles, Question::ShareSaves(one.id@, two.id@));
    let f = "Share "@ + one.name@ + "'s modded saves with "@ + two.name@ + "?"@;
    assert(f =~= t.subrange(0, f.len() as int));
    let t = question_text(profiles, Question::MakeSavesPrivate(one.id@));
    let f = "Detach "@ + one.name@ + " from its shared save set?"@;
    assert(f =~= t.subrange(0, f.len() as int));
    let t = question_text(profiles, Question::ImportSteamSaves(one.id@));
    let f = "Replace "@ + one.name@ + "'s modded saves with the current local Steam saves?"@;
    assert(f =~= t.subrange(0, f.len() as int));
    let t = question_text(profiles, Question::ExportSteamSaves(one.id@));
    let f = "Replace the local vanilla Steam saves with "@ + one.name@ + "'s modded saves?"@;
    assert(f =~= t.subrange(0, f.len() as int));
    let t = question_text(profiles, Question::DeleteMods(ids, label, used));
    let f = "Delete "@ + label + " from the library?"@;
    assert(f =~= t.subrange(0, f.len() as int));
    if last_name(path) is Some {
        let t = question_text(profiles, Question::RestoreBackup(path));
        let f = "Restore "@ + last_name(path)->0 + "?"@;
        assert(f =~= t.subrange(0, f.len() as int));
    }
}

proof fn lemma_named(profiles: Seq<Profile>, a: int, other: Seq<char>)
    requires
        0 <= a < profiles.len(),
        forall|i: int, j: int|
            0 <= i < j < profiles.len() ==> (#[trigger] profiles[i]).id@ != (
            #[trigger] profiles[j]).id@,
    ensures
        profile_name(profiles, profiles[a].id@, other) == profiles[a].name@,
{
    let id = profiles[a].id@;
    assert(profile_at(profiles, id, a));
    let k = choose|k: int| profile_at(profiles, id, k);
    assert(profile_at(profiles, id, k));
    if k < a {
        assert(profiles[k].id@ != profiles[a].id@);
    }
    if a < k {
        assert(profiles[a].id@ != profiles[k].id@);
    }
}

} // verus!
