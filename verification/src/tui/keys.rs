//! What the keys do while no prompt is open.
use vstd::prelude::*;

use super::state::{same_data, shown_conflicts, visible_conflicts, App, Mode, Pane, Screen};
use crate::catalog::{catalog, frameworks};

verus! {

/// A key of the keyboard.
#[derive(Debug, Clone, Copy, PartialEq, Eq, Structural)]
pub enum Key {
    Char(char),
    Esc,
    Enter,
    Backspace,
    Left,
    Right,
    Up,
    Down,
    Tab,
    BackTab,
    Other,
}

/// Who gets the next key.
#[derive(Debug, Clone, Copy, PartialEq, Eq, Structural)]
pub enum Focus {
    PathPrompt,
    NamePrompt,
    Question,
    Help,
    Page,
}

/// Who gets the next key: a prompt before a question, a question before the help,
/// the help before the page.
pub open spec fn focus_of(app: App) -> Focus {
    if app.import_path_input is Some {
        Focus::PathPrompt
    } else if app.profile_name_input is Some {
        Focus::NamePrompt
    } else if app.pending_action is Some {
        Focus::Question
    } else if app.screen.help_open {
        Focus::Help
    } else {
        Focus::Page
    }
}

/// Who gets the next key.
pub fn key_focus(app: &App) -> (r: Focus)
    ensures
        r == focus_of(*app),
{
    if app.import_path_input.is_some() {
        Focus::PathPrompt
    } else if app.profile_name_input.is_some() {
        Focus::NamePrompt
    } else if app.pending_action.is_some() {
        Focus::Question
    } else if app.screen.help_open {
        Focus::Help
    } else {
        Focus::Page
    }
}

/// What a key asks for.
#[derive(Debug, Clone, Copy, PartialEq, Eq, Structural)]
pub enum Binding {
    Nothing,
    Quit,
    Open(Mode),
    FocusLeft,
    FocusRight,
    Next,
    Previous,
    Toggle,
    Raise,
    Lower,
    Conflicts,
    AllConflicts,
    Rescan,
    AskPath,
    ImportSelected,
    InstallFramework,
    DeleteMod,
    DeleteFramework,
    EnterPage,
    AskRestore,
    SelectProfile,
    AskName,
    AskShare,
    AskPrivate,
    AskImportSaves,
    AskExportSaves,
    Prepare,
    BackUp,
    AskDisableAll,
    Launch,
    NextTheme,
    Help,
}

/// What a character asks for on a page.
pub open spec fn char_binding(mode: Mode, pane: Pane, c: char) -> Binding {
    let loadout = mode == Mode::Loadout;
    let add = mode == Mode::Add;
    let runtime = mode == Mode::Runtime;
    let primary = pane == Pane::Primary;
    let secondary = pane == Pane::Secondary;
    if c == 'q' {
        Binding::Quit
    } else if c == '1' {
        Binding::Open(Mode::Loadout)
    } else if c == '2' {
        Binding::Open(Mode::Add)
    } else if c == '3' {
        Binding::Open(Mode::Runtime)
    } else if c == 'h' {
        Binding::FocusLeft
    } else if c == 'l' {
        Binding::FocusRight
    } else if c == 'j' {
        Binding::Next
    } else if c == 'k' {
        Binding::Previous
    } else if c == ' ' && loadout && primary {
        Binding::Toggle
    } else if (c == '+' || c == '=') && loadout && primary {
        Binding::Raise
    } else if c == '-' && loadout && primary {
        Binding::Lower
    } else if c == 'c' && loadout {
        Binding::Conflicts
    } else if c == 'C' && loadout {
        Binding::AllConflicts
    } else if c == 'r' && add && secondary {
        Binding::Rescan
    } else if c == 'a' && add {
        Binding::AskPath
    } else if c == 'i' && add && secondary {
        Binding::ImportSelected
    } else if c == 'f' && add && primary {
        Binding::InstallFramework
    } else if c == 'd' && loadout && primary {
        Binding::DeleteMod
    } else if c == 'd' && add && primary {
        Binding::DeleteFramework
    } else if c == 'n' && runtime {
        Binding::AskName
    } else if c == 's' && runtime {
        Binding::AskShare
    } else if c == 'u' && runtime {
        Binding::AskPrivate
    } else if c == 'i' && runtime {
        Binding::AskImportSaves
    } else if c == 'e' && runtime {
        Binding::AskExportSaves
    } else if c == 'p' && (loadout || runtime) {
        Binding::Prepare
    } else if c == 'b' && runtime {
        Binding::BackUp
    } else if (c == 'x' || c == 'v') && loadout {
        Binding::AskDisableAll
    } else if c == 'L' {
        Binding::Launch
    } else if c == 't' {
        Binding::NextTheme
    } else if c == '?' {
        Binding::Help
    } else {
        Binding::Nothing
    }
}

/// What the enter key asks for on a page.
pub open spec fn enter_binding(mode: Mode, pane: Pane) -> Binding {
    if pane == Pane::Sidebar {
        Binding::EnterPage
    } else if mode == Mode::Add && pane == Pane::Secondary {
        Binding::ImportSelected
    } else if mode == Mode::Runtime && pane == Pane::Secondary {
        Binding::AskRestore
    } else if mode == Mode::Runtime && pane == Pane::Primary {
        Binding::SelectProfile
    } else {
        Binding::Nothing
    }
}

/// What a key asks for on a page.
pub open spec fn key_binding(mode: Mode, pane: Pane, key: Key) -> Binding {
    match key {
        Key::Char(c) => char_binding(mode, pane, c),
        Key::Esc => Binding::Quit,
        Key::Enter => enter_binding(mode, pane),
        Key::Left | Key::BackTab => Binding::FocusLeft,
        Key::Right | Key::Tab => Binding::FocusRight,
        Key::Down => Binding::Next,
        Key::Up => Binding::Previous,
        Key::Backspace | Key::Other => Binding::Nothing,
    }
}

fn bind_char(mode: Mode, pane: Pane, c: char) -> (r: Binding)
    ensures
        r == char_binding(mode, pane, c),
{
    let loadout = mode == Mode::Loadout;
    let add = mode == Mode::Add;
    let runtime = mode == Mode::Runtime;
    let primary = pane == Pane::Primary;
    let secondary = pane == Pane::Secondary;
    match c {
        'q' => Binding::Quit,
        '1' => Binding::Open(Mode::Loadout),
        '2' => Binding::Open(Mode::Add),
        '3' => Binding::Open(Mode::Runtime),
        'h' => Binding::FocusLeft,
        'l' => Binding::FocusRight,
        'j' => Binding::Next,
        'k' => Binding::Previous,
        ' ' if loadout && primary => Binding::Toggle,
        '+' if loadout && primary => Binding::Raise,
        '=' if loadout && primary => Binding::Raise,
        '-' if loadout && primary => Binding::Lower,
        'c' if loadout => Binding::Conflicts,
        'C' if loadout => Binding::AllConflicts,
        'r' if add && secondary => Binding::Rescan,
        'a' if add => Binding::AskPath,
        'i' if add && secondary => Binding::ImportSelected,
        'f' if add && primary => Binding::InstallFramework,
        'd' if loadout && primary => Binding::DeleteMod,
        'd' if add && primary => Binding::DeleteFramework,
        'n' if runtime => Binding::AskName,
        's' if runtime => Binding::AskShare,
        'u' if runtime => Binding::AskPrivate,
        'i' if runtime => Binding::AskImportSaves,
        'e' if runtime => Binding::AskExportSaves,
        'p' if loadout || runtime => Binding::Prepare,
        'b' if runtime => Binding::BackUp,
        'x' if loadout => Binding::AskDisableAll,
        'v' if loadout => Binding::AskDisableAll,
        'L' => Binding::Launch,
        't' => Binding::NextTheme,
        '?' => Binding::Help,
        _ => Binding::Nothing,
    }
}

/// What a key asks for on a page.
pub fn bind(mode: Mode, pane: Pane, key: Key) -> (r: Binding)
    ensures
        r == key_binding(mode, pane, key),
{
    match key {
        Key::Char(c) => bind_char(mode, pane, c),
        Key::Esc => Binding::Quit,
        Key::Enter => if pane == Pane::Sidebar {
            Binding::EnterPage
        } else if mode == Mode::Add && pane == Pane::Secondary {
            Binding::ImportSelected
        } else if mode == Mode::Runtime && pane == Pane::Secondary {
            Binding::AskRestore
        } else if mode == Mode::Runtime && pane == Pane::Primary {
            Binding::SelectProfile
        } else {
            Binding::Nothing
        },
        Key::Left | Key::BackTab => Binding::FocusLeft,
        Key::Right | Key::Tab => Binding::FocusRight,
        Key::Down => Binding::Next,
        Key::Up => Binding::Previous,
        Key::Backspace | Key::Other => Binding::Nothing,
    }
}

/// The place `index`, or the last one where there are fewer.
pub open spec fn clamped(index: usize, count: nat) -> usize {
    if count == 0 {
        0
    } else if index < count {
        index
    } else {
        (count - 1) as usize
    }
}

/// The place `index`, or the last one where there are fewer.
pub fn clamp(index: usize, count: usize) -> (r: usize)
    ensures
        r == clamped(index, count as nat),
{
    if count == 0 {
        0
    } else if index < count {
        index
    } else {
        count - 1
    }
}

/// How many places the pane with the focus has.
pub open spec fn places_in(app: App) -> nat {
    match (app.screen.mode, app.screen.pane) {
        (_, Pane::Sidebar) => 0,
        (Mode::Loadout, Pane::Primary) => app.mods@.len(),
        (Mode::Loadout, Pane::Secondary) => shown_conflicts(app).len(),
        (Mode::Add, Pane::Primary) => catalog().len(),
        (Mode::Add, Pane::Secondary) => app.import_candidates@.len(),
        (Mode::Runtime, Pane::Primary) => app.profiles@.len(),
        (Mode::Runtime, Pane::Secondary) => app.backups@.len(),
    }
}

/// How many places the pane with the focus has.
pub fn pane_len(app: &App) -> (r: usize)
    ensures
        r == places_in(*app),
{
    match (app.screen.mode, app.screen.pane) {
        (_, Pane::Sidebar) => 0,
        (Mode::Loadout, Pane::Primary) => app.mods.len(),
        (Mode::Loadout, Pane::Secondary) => {
            let shown = visible_conflicts(app);
            assert(super::state::behind(shown@).len() == shown@.len());
            shown.len()
        },
        (Mode::Add, Pane::Primary) => {
            let all = frameworks();
            assert(crate::catalog::framework_views(all@).len() == all@.len());
            all.len()
        },
        (Mode::Add, Pane::Secondary) => app.import_candidates.len(),
        (Mode::Runtime, Pane::Primary) => app.profiles.len(),
        (Mode::Runtime, Pane::Secondary) => app.backups.len(),
    }
}

/// The place that is highlighted in the pane with the focus.
pub open spec fn place_in(screen: Screen) -> usize {
    match (screen.mode, screen.pane) {
        (_, Pane::Sidebar) => screen.loadout_index,
        (Mode::Loadout, Pane::Primary) => screen.loadout_index,
        (Mode::Loadout, Pane::Secondary) => screen.conflict_index,
        (Mode::Add, Pane::Primary) => screen.core_index,
        (Mode::Add, Pane::Secondary) => screen.inbox_index,
        (Mode::Runtime, Pane::Primary) => screen.profile_cursor,
        (Mode::Runtime, Pane::Secondary) => screen.backup_index,
    }
}

/// The screen with another place highlighted in the pane with the focus. Another
/// mod begins with its first conflict.
pub open spec fn with_place(screen: Screen, place: usize) -> Screen {
    match (screen.mode, screen.pane) {
        (_, Pane::Sidebar) => screen,
        (Mode::Loadout, Pane::Primary) => Screen {
            loadout_index: place,
            conflict_index: 0,
            ..screen
        },
        (Mode::Loadout, Pane::Secondary) => Screen { conflict_index: place, ..screen },
        (Mode::Add, Pane::Primary) => Screen { core_index: place, ..screen },
        (Mode::Add, Pane::Secondary) => Screen { inbox_index: place, ..screen },
        (Mode::Runtime, Pane::Primary) => Screen { profile_cursor: place, ..screen },
        (Mode::Runtime, Pane::Secondary) => Screen { backup_index: place, ..screen },
    }
}

/// The screen after a step to the next or the previous place.
pub open spec fn moved(app: App, forward: bool) -> Screen {
    let count = places_in(app);
    let place = place_in(app.screen);
    if count == 0 {
        app.screen
    } else if forward {
        with_place(
            app.screen,
            if place + 1 < count {
                (place + 1) as usize
            } else {
                (count - 1) as usize
            },
        )
    } else {
        with_place(
            app.screen,
            if place > 0 {
                (place - 1) as usize
            } else {
                0
            },
        )
    }
}

fn current_place(screen: &Screen) -> (r: usize)
    ensures
        r == place_in(*screen),
{
    match (screen.mode, screen.pane) {
        (_, Pane::Sidebar) => screen.loadout_index,
        (Mode::Loadout, Pane::Primary) => screen.loadout_index,
        (Mode::Loadout, Pane::Secondary) => screen.conflict_index,
        (Mode::Add, Pane::Primary) => screen.core_index,
        (Mode::Add, Pane::Secondary) => screen.inbox_index,
        (Mode::Runtime, Pane::Primary) => screen.profile_cursor,
        (Mode::Runtime, Pane::Secondary) => screen.backup_index,
    }
}

fn put_place(screen: &mut Screen, place: usize)
    ensures
        *final(screen) == with_place(*old(screen), place),
{
    match (screen.mode, screen.pane) {
        (_, Pane::Sidebar) => {},
        (Mode::Loadout, Pane::Primary) => {
            screen.loadout_index = place;
            screen.conflict_index = 0;
        },
        (Mode::Loadout, Pane::Secondary) => {
            screen.conflict_index = place;
        },
        (Mode::Add, Pane::Primary) => {
            screen.core_index = place;
        },
        (Mode::Add, Pane::Secondary) => {
            screen.inbox_index = place;
        },
        (Mode::Runtime, Pane::Primary) => {
            screen.profile_cursor = place;
        },
        (Mode::Runtime, Pane::Secondary) => {
            screen.backup_index = place;
        },
    }
}

/// Steps to the next or the previous place of the pane with the focus.
pub fn move_selection(app: &App, forward: bool) -> (r: Screen)
    ensures
        r == moved(*app, forward),
{
    let count = pane_len(app);
    let mut screen = app.screen;
    if count == 0 {
        return screen;
    }
    let place = current_place(&screen);
    if forward {
        put_place(
            &mut screen,
            if place < count - 1 {
                place + 1
            } else {
                count - 1
            },
        );
    } else {
        put_place(
            &mut screen,
            if place > 0 {
                place - 1
            } else {
                0
            },
        );
    }
    screen
}

/// Whether every highlighted place is there, or is the first of an empty list.
pub open spec fn in_range(app: App) -> bool {
    let s = app.screen;
    &&& s.loadout_index == clamped(s.loadout_index, app.mods@.len())
    &&& s.conflict_index == clamped(s.conflict_index, shown_conflicts(app).len())
    &&& s.core_index == clamped(s.core_index, catalog().len())
    &&& s.inbox_index == clamped(s.inbox_index, app.import_candidates@.len())
    &&& s.profile_cursor == clamped(s.profile_cursor, app.profiles@.len())
    &&& s.backup_index == clamped(s.backup_index, app.backups@.len())
}

/// A step from a place that is there leads to a place that is there.
pub proof fn law_steps_stay_in_range(app: App, forward: bool)
    requires
        places_in(app) <= usize::MAX,
        place_in(app.screen) == clamped(place_in(app.screen), places_in(app)),
    ensures
        app.screen.pane != Pane::Sidebar ==> place_in(moved(app, forward)) == clamped(
            place_in(moved(app, forward)),
            places_in(app),
        ),
        moved(app, forward).mode == app.screen.mode,
        moved(app, forward).pane == app.screen.pane,
        moved(app, forward).profile_index == app.screen.profile_index,
{
}

/// The screen with every place brought into range. The conflicts are those shown
/// for the mod that is then highlighted.
pub fn clamp_all_selections(app: &mut App)
    ensures
        in_range(*final(app)),
        same_data(*old(app), *final(app)),
        final(app).screen.loadout_index == clamped(
            old(app).screen.loadout_index,
            old(app).mods@.len(),
        ),
        final(app).screen.core_index == clamped(old(app).screen.core_index, catalog().len()),
        final(app).screen.inbox_index == clamped(
            old(app).screen.inbox_index,
            old(app).import_candidates@.len(),
        ),
        final(app).screen.profile_cursor == clamped(
            old(app).screen.profile_cursor,
            old(app).profiles@.len(),
        ),
        final(app).screen.backup_index == clamped(
            old(app).screen.backup_index,
            old(app).backups@.len(),
        ),
        final(app).screen.conflict_index == clamped(
            old(app).screen.conflict_index,
            shown_conflicts(*final(app)).len(),
        ),
        final(app).screen == (Screen {
            loadout_index: final(app).screen.loadout_index,
            conflict_index: final(app).screen.conflict_index,
            core_index: final(app).screen.core_index,
            inbox_index: final(app).screen.inbox_index,
            profile_cursor: final(app).screen.profile_cursor,
            backup_index: final(app).screen.backup_index,
            ..old(app).screen
        }),
        final(app).status == old(app).status,
        final(app).import_path_input == old(app).import_path_input,
        final(app).profile_name_input == old(app).profile_name_input,
        final(app).pending_action == old(app).pending_action,
        final(app).theme == old(app).theme,
{
    let ghost before = *app;
    app.screen.loadout_index = clamp(app.screen.loadout_index, app.mods.len());
    let shown = visible_conflicts(app).len();
    proof {
        assert(shown == shown_conflicts(*app).len());
    }
    let ghost middle = *app;
    app.screen.conflict_index = clamp(app.screen.conflict_index, shown);
    let total = frameworks().len();
    assert(total == catalog().len());
    app.screen.core_index = clamp(app.screen.core_index, total);
    app.screen.inbox_index = clamp(app.screen.inbox_index, app.import_candidates.len());
    app.screen.profile_cursor = clamp(app.screen.profile_cursor, app.profiles.len());
    app.screen.backup_index = clamp(app.screen.backup_index, app.backups.len());
    assert(shown_conflicts(*app) == shown_conflicts(middle));
}

/// A step moves the highlight of the pane with the focus by one place, to the next or the
/// previous, and stops at the last and at the first; no other highlight moves. Another mod
/// begins with its first conflict.
pub proof fn law_steps_move_one_highlight(app: App, forward: bool)
    requires
        app.mods@.len() <= usize::MAX,
        shown_conflicts(app).len() <= usize::MAX,
        app.import_candidates@.len() <= usize::MAX,
        app.profiles@.len() <= usize::MAX,
        app.backups@.len() <= usize::MAX,
    ensures
        ({
            let s = app.screen;
            let after = moved(app, forward);
            let next = |place: usize, count: nat|
                if count == 0 {
                    place as int
                } else if !forward {
                    if place > 0 {
                        place - 1
                    } else {
                        0
                    }
                } else if place + 1 < count {
                    place + 1
                } else {
                    count - 1
                };
            let primary = s.pane == Pane::Primary;
            let secondary = s.pane == Pane::Secondary;
            &&& after.loadout_index == if s.mode == Mode::Loadout && primary {
                next(s.loadout_index, app.mods@.len())
            } else {
                s.loadout_index as int
            }
            &&& after.conflict_index == if s.mode == Mode::Loadout && secondary {
                next(s.conflict_index, shown_conflicts(app).len())
            } else if s.mode == Mode::Loadout && primary && app.mods@.len() > 0 {
                0
            } else {
                s.conflict_index as int
            }
            &&& after.core_index == if s.mode == Mode::Add && primary {
                next(s.core_index, 6)
            } else {
                s.core_index as int
            }
            &&& after.inbox_index == if s.mode == Mode::Add && secondary {
                next(s.inbox_index, app.import_candidates@.len())
            } else {
                s.inbox_index as int
            }
            &&& after.profile_cursor == if s.mode == Mode::Runtime && primary {
                next(s.profile_cursor, app.profiles@.len())
            } else {
                s.profile_cursor as int
            }
            &&& after.backup_index == if s.mode == Mode::Runtime && secondary {
                next(s.backup_index, app.backups@.len())
            } else {
                s.backup_index as int
            }
            &&& after.profile_index == s.profile_index
            &&& after.mode == s.mode && after.pane == s.pane
            &&& after.help_open == s.help_open && after.show_all_conflicts == s.show_all_conflicts
        }),
{
}

/// Every key does on its page what the help says of it, and only there; the keys that end
/// the application, turn pages, move and launch do it on every page.
pub proof fn law_keys_have_their_meaning(mode: Mode, pane: Pane)
    ensures
        ({
            let loadout = mode == Mode::Loadout;
            let add = mode == Mode::Add;
            let runtime = mode == Mode::Runtime;
            let primary = pane == Pane::Primary;
            let secondary = pane == Pane::Secondary;
            let does = |c: char| key_binding(mode, pane, Key::Char(c));
            &&& does('q') == Binding::Quit && key_binding(mode, pane, Key::Esc) == Binding::Quit
            &&& does('1') == Binding::Open(Mode::Loadout)
            &&& does('2') == Binding::Open(Mode::Add)
            &&& does('3') == Binding::Open(Mode::Runtime)
            &&& does('h') == Binding::FocusLeft && key_binding(mode, pane, Key::Left)
                == Binding::FocusLeft && key_binding(mode, pane, Key::BackTab) == Binding::FocusLeft
            &&& does('l') == Binding::FocusRight && key_binding(mode, pane, Key::Right)
                == Binding::FocusRight && key_binding(mode, pane, Key::Tab) == Binding::FocusRight
            &&& does('j') == Binding::Next && key_binding(mode, pane, Key::Down) == Binding::Next
            &&& does('k') == Binding::Previous && key_binding(mode, pane, Key::Up)
                == Binding::Previous
            &&& does('L') == Binding::Launch
            &&& does('t') == Binding::NextTheme
            &&& does('?') == Binding::Help
            &&& does(' ') == Binding::Toggle <==> loadout && primary
            &&& does('+') == Binding::Raise <==> loadout && primary
            &&& does('=') == Binding::Raise <==> loadout && primary
            &&& does('-') == Binding::Lower <==> loadout && primary
            &&& does('c') == Binding::Conflicts <==> loadout
            &&& does('C') == Binding::AllConflicts <==> loadout
            &&& does('d') == Binding::DeleteMod <==> loadout && primary
            &&& does('d') == Binding::DeleteFramework <==> add && primary
            &&& does('x') == Binding::AskDisableAll <==> loadout
            &&& does('v') == Binding::AskDisableAll <==> loadout
            &&& does('p') == Binding::Prepare <==> loadout || runtime
            &&& does('f') == Binding::InstallFramework <==> add && primary
            &&& does('r') == Binding::Rescan <==> add && secondary
            &&& does('a') == Binding::AskPath <==> add
            &&& does('i') == Binding::ImportSelected <==> add && secondary
            &&& does('i') == Binding::AskImportSaves <==> runtime
            &&& does('e') == Binding::AskExportSaves <==> runtime
            &&& does('s') == Binding::AskShare <==> runtime
            &&& does('u') == Binding::AskPrivate <==> runtime
            &&& does('n') == Binding::AskName <==> runtime
            &&& does('b') == Binding::BackUp <==> runtime
            &&& key_binding(mode, pane, Key::Enter) == if pane == Pane::Sidebar {
                Binding::EnterPage
            } else if add && secondary {
                Binding::ImportSelected
            } else if runtime && secondary {
                Binding::AskRestore
            } else if runtime {
                Binding::SelectProfile
            } else {
                Binding::Nothing
            }
        }),
{
}

/// While a prompt is open it gets every key, then a question, then the help; the page gets
/// one only while none of them is open.
pub proof fn law_prompts_come_before_the_page(app: App)
    ensures
        focus_of(app) == Focus::Page <==> app.import_path_input is None && app.profile_name_input
            is None && app.pending_action is None && !app.screen.help_open,
        app.import_path_input is Some ==> focus_of(app) == Focus::PathPrompt,
        app.import_path_input is None && app.profile_name_input is Some ==> focus_of(app)
            == Focus::NamePrompt,
        app.import_path_input is None && app.profile_name_input is None && app.pending_action is Some
            ==> focus_of(app) == Focus::Question,
{
}

/// A highlighted place that is there stays; one behind the end becomes the last.
pub proof fn law_places_are_brought_into_range(index: usize, count: nat)
    requires
        count <= usize::MAX,
    ensures
        index < count ==> clamped(index, count) == index,
        0 < count <= index ==> clamped(index, count) == count - 1,
        count == 0 ==> clamped(index, count) == 0,
{
}

} // verus!
