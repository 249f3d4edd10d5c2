//! The page: what the screen becomes when one of its keys is pressed.
use vstd::prelude::*;

use super::keys::{bind, clamped, key_binding, move_selection, moved, Binding, Key};
use super::state::{
    find_save_set, focus_left, focus_right, left_of, question_of, right_of, same_data, save_set_of,
    selected_profile_is_prepared, selection_prepared, App, Mode, Pane, PendingAction, Question,
    Screen,
};
use crate::inbox::ImportCandidate;
use crate::models::Profile;
use crate::path::option_view;
use crate::text::views;
use crate::theme::{index_of_theme, next_theme, palettes, Palette};

verus! {

/// What has to be done outside the screen.
#[derive(Debug, Clone, Copy, PartialEq, Eq, Structural)]
pub enum Command {
    /// Nothing.
    Stay,
    /// The application ends.
    Quit,
    /// The application ends and the selected profile is launched.
    Launch,
    /// The backups of the profile under the cursor are listed.
    ReloadBackups,
    /// The state of the selected profile is read.
    ReloadProfile,
    /// The highlighted mod is enabled or disabled.
    Toggle,
    /// The priority of the highlighted mod is raised.
    Raise,
    /// The priority of the highlighted mod is lowered.
    Lower,
    /// The inbox is scanned.
    Rescan,
    /// The highlighted candidate is imported.
    ImportSelected,
    /// The highlighted framework is fetched.
    InstallFramework,
    /// The highlighted mod is to be deleted.
    DeleteMod,
    /// The highlighted framework is to be deleted.
    DeleteFramework,
    /// The prefix of the selected profile is prepared.
    Prepare,
    /// The profile under the cursor is backed up.
    BackUp,
    /// The theme is written to the configuration.
    SaveTheme,
}

/// The page `forward` or backward of a page, around the end.
pub open spec fn neighbor(mode: Mode, forward: bool) -> Mode {
    match mode {
        Mode::Loadout => if forward {
            Mode::Add
        } else {
            Mode::Runtime
        },
        Mode::Add => if forward {
            Mode::Runtime
        } else {
            Mode::Loadout
        },
        Mode::Runtime => if forward {
            Mode::Loadout
        } else {
            Mode::Add
        },
    }
}

/// The page forward or backward of a page, around the end.
pub fn shift_mode(mode: Mode, forward: bool) -> (r: Mode)
    ensures
        r == neighbor(mode, forward),
{
    match mode {
        Mode::Loadout => if forward {
            Mode::Add
        } else {
            Mode::Runtime
        },
        Mode::Add => if forward {
            Mode::Runtime
        } else {
            Mode::Loadout
        },
        Mode::Runtime => if forward {
            Mode::Loadout
        } else {
            Mode::Add
        },
    }
}

/// Three steps lead around all pages, and a step back undoes a step.
pub proof fn law_pages_go_around(mode: Mode, forward: bool)
    ensures
        neighbor(neighbor(neighbor(mode, forward), forward), forward) == mode,
        neighbor(neighbor(mode, forward), !forward) == mode,
{
}

/// The screen with another page. On the page of profiles the cursor begins at the
/// selected one.
pub open spec fn on_page(screen: Screen, mode: Mode, pane: Pane) -> Screen {
    Screen {
        mode,
        pane,
        profile_cursor: if mode == Mode::Runtime {
            screen.profile_index
        } else {
            screen.profile_cursor
        },
        ..screen
    }
}

fn turn_to(screen: &mut Screen, mode: Mode, pane: Pane)
    ensures
        *final(screen) == on_page(*old(screen), mode, pane),
{
    screen.mode = mode;
    screen.pane = pane;
    if mode == Mode::Runtime {
        screen.profile_cursor = screen.profile_index;
    }
}

/// The screen after a step down or up.
pub open spec fn stepped(app: App, forward: bool) -> Screen {
    if app.screen.pane == Pane::Sidebar {
        on_page(app.screen, neighbor(app.screen.mode, forward), Pane::Sidebar)
    } else {
        moved(app, forward)
    }
}

/// The screen after what a key asks for.
pub open spec fn screen_after(app: App, binding: Binding) -> Screen {
    let s = app.screen;
    match binding {
        Binding::Open(mode) => on_page(s, mode, Pane::Primary),
        Binding::FocusLeft => Screen { pane: left_of(s.pane), ..s },
        Binding::FocusRight => Screen { pane: right_of(s.pane), ..s },
        Binding::Next => stepped(app, true),
        Binding::Previous => stepped(app, false),
        Binding::Conflicts => if s.pane == Pane::Secondary {
            Screen { pane: Pane::Primary, ..s }
        } else {
            Screen { pane: Pane::Secondary, conflict_index: 0, ..s }
        },
        Binding::AllConflicts => Screen {
            show_all_conflicts: !s.show_all_conflicts,
            pane: Pane::Secondary,
            conflict_index: 0,
            ..s
        },
        Binding::EnterPage => Screen { pane: Pane::Primary, ..s },
        Binding::SelectProfile => Screen {
            profile_index: clamped(s.profile_cursor, app.profiles@.len()),
            ..s
        },
        Binding::Help => Screen { help_open: true, ..s },
        _ => s,
    }
}

/// The profile under the cursor.
pub open spec fn cursor_profile(app: App) -> Option<Profile> {
    if app.screen.profile_cursor < app.profiles@.len() {
        Some(app.profiles@[app.screen.profile_cursor as int])
    } else {
        None
    }
}

/// The selected profile.
pub open spec fn selected_profile(app: App) -> Option<Profile> {
    if app.screen.profile_index < app.profiles@.len() {
        Some(app.profiles@[app.screen.profile_index as int])
    } else {
        None
    }
}

/// The question that is asked, with what the status line says of it. Where none is
/// asked, what the status line says instead, if anything.
pub open spec fn asked(app: App, binding: Binding) -> (Option<Question>, Option<Seq<char>>) {
    match binding {
        Binding::AskRestore => if app.screen.backup_index < app.backups@.len() {
            (
                Some(
                    Question::RestoreBackup(app.backups@[app.screen.backup_index as int]@),
                ),
                Some("Restore selected backup? Press y to confirm or n to cancel."@),
            )
        } else {
            (None, None)
        },
        Binding::AskShare => match (selected_profile(app), cursor_profile(app)) {
            (Some(source), Some(target)) => if source.id@ != target.id@ {
                (
                    Some(Question::ShareSaves(source.id@, target.id@)),
                    Some(
                        "Share "@ + source.name@ + " saves with "@ + target.name@
                            + "? Press y to confirm or n to cancel."@,
                    ),
                )
            } else {
                (
                    None,
                    Some(
                        "Move the cursor to another profile without pressing Enter, then press s."@,
                    ),
                )
            },
            _ => (None, Some("Two profiles are required for save sharing."@)),
        },
        Binding::AskPrivate => match cursor_profile(app) {
            Some(profile) => if save_set_of(app.save_sets@, profile.id@) is Some {
                (
                    Some(Question::MakeSavesPrivate(profile.id@)),
                    Some(
                        "Make "@ + profile.name@
                            + " saves private? Press y to confirm or n to cancel."@,
                    ),
                )
            } else {
                (None, Some(profile.name@ + " already uses private saves."@))
            },
            None => (None, None),
        },
        Binding::AskImportSaves => match cursor_profile(app) {
            Some(profile) => (
                Some(Question::ImportSteamSaves(profile.id@)),
                Some(
                    "Import Steam saves into "@ + profile.name@
                        + "? Press y to confirm or n to cancel."@,
                ),
            ),
            None => (None, None),
        },
        Binding::AskExportSaves => match cursor_profile(app) {
            Some(profile) => (
                Some(Question::ExportSteamSaves(profile.id@)),
                Some(
                    "Export "@ + profile.name@
                        + " saves to Steam? Press y to confirm or n to cancel."@,
                ),
            ),
            None => (None, None),
        },
        Binding::AskDisableAll => (
            Some(Question::DisableAllMods),
            Some("Disable every mod in this profile? Press y to confirm or n to cancel."@),
        ),
        _ => (None, None),
    }
}

/// What the status line says after what a key asks for; `None` where it stays as
/// it is.
pub open spec fn said(app: App, binding: Binding) -> Option<Seq<char>> {
    match binding {
        Binding::Conflicts => Some(
            if app.screen.pane == Pane::Secondary {
                "Mods table."@
            } else if app.screen.show_all_conflicts {
                "File conflicts (all). Press C to filter to the highlighted mod, c to return."@
            } else {
                "File conflicts for the highlighted mod. Press C for all, c to return."@
            },
        ),
        Binding::AllConflicts => Some(
            if app.screen.show_all_conflicts {
                "Showing conflicts for the highlighted mod."@
            } else {
                "Showing all file conflicts."@
            },
        ),
        Binding::AskPath => Some("Enter a mod directory or archive path; Esc cancels."@),
        Binding::AskName => Some("Enter a name for the new isolated profile; Esc cancels."@),
        Binding::SelectProfile => if app.profiles@.len() > 0 {
            Some(
                "Selected profile "@ + app.profiles@[clamped(
                    app.screen.profile_cursor,
                    app.profiles@.len(),
                ) as int].name@ + "."@,
            )
        } else {
            None
        },
        Binding::Launch => if app.profiles@.len() == 0 {
            Some("Create a profile before launching."@)
        } else if !selection_prepared(app) {
            Some("Profile is not prepared. Press p to prepare it first."@)
        } else {
            None
        },
        Binding::NextTheme => Some("Theme changed to "@ + theme_after(app, binding).name + "."@),
        _ => asked(app, binding).1,
    }
}

/// The theme after what a key asks for.
pub open spec fn theme_after(app: App, binding: Binding) -> Palette {
    if binding == Binding::NextTheme {
        palettes()[(index_of_theme(app.theme.name@) + 1) % 4]
    } else {
        app.theme@
    }
}

/// What has to be done outside the screen for what a key asks for.
pub open spec fn command_after(app: App, binding: Binding) -> Command {
    match binding {
        Binding::Quit => Command::Quit,
        Binding::Open(mode) => if mode == Mode::Runtime {
            Command::ReloadBackups
        } else {
            Command::Stay
        },
        Binding::Next | Binding::Previous => if screen_after(app, binding).mode == Mode::Runtime && (
        app.screen.pane == Pane::Sidebar || app.screen.pane == Pane::Primary) {
            Command::ReloadBackups
        } else {
            Command::Stay
        },
        Binding::Toggle => Command::Toggle,
        Binding::Raise => Command::Raise,
        Binding::Lower => Command::Lower,
        Binding::Rescan => Command::Rescan,
        Binding::ImportSelected => Command::ImportSelected,
        Binding::InstallFramework => Command::InstallFramework,
        Binding::DeleteMod => Command::DeleteMod,
        Binding::DeleteFramework => Command::DeleteFramework,
        Binding::SelectProfile => Command::ReloadProfile,
        Binding::Prepare => Command::Prepare,
        Binding::BackUp => Command::BackUp,
        Binding::Launch => if selection_prepared(app) {
            Command::Launch
        } else {
            Command::Stay
        },
        Binding::NextTheme => Command::SaveTheme,
        _ => Command::Stay,
    }
}

/// A game is launched only for a selected profile that is prepared.
pub proof fn law_launch_needs_a_prepared_profile(app: App, binding: Binding)
    requires
        command_after(app, binding) == Command::Launch,
    ensures
        selected_profile(app) is Some,
        selection_prepared(app),
{
}

/// What changes saves, backups or the whole loadout is asked about first: none of
/// the keys that lead to it has a command of its own.
pub proof fn law_far_reaching_keys_only_ask(app: App, binding: Binding)
    requires
        asked(app, binding).0 is Some,
    ensures
        command_after(app, binding) == Command::Stay,
        screen_after(app, binding) == app.screen,
{
}

fn ask(app: &App, binding: Binding) -> (r: (Option<PendingAction>, Option<String>))
    ensures
        question_of(r.0) == asked(*app, binding).0,
        option_view(r.1) == asked(*app, binding).1,
{
    let cursor = app.screen.profile_cursor;
    let here = cursor < app.profiles.len();
    match binding {
        Binding::AskRestore => if app.screen.backup_index < app.backups.len() {
            (
                Some(PendingAction::RestoreBackup(app.backups[app.screen.backup_index].clone())),
                Some("Restore selected backup? Press y to confirm or n to cancel.".to_owned()),
            )
        } else {
            (None, None)
        },
        Binding::AskShare => if app.screen.profile_index < app.profiles.len() && here {
            let source = &app.profiles[app.screen.profile_index];
            let target = &app.profiles[cursor];
            if source.id != target.id {
                (
                    Some(
                        PendingAction::ShareSaves {
                            source_id: source.id.clone(),
                            target_id: target.id.clone(),
                        },
                    ),
                    Some(
                        "Share ".to_owned().concat(&source.name).concat(" saves with ").concat(
                            &target.name,
                        ).concat("? Press y to confirm or n to cancel."),
                    ),
                )
            } else {
                (
                    None,
                    Some(
                        "Move the cursor to another profile without pressing Enter, then press s.".to_owned(),
                    ),
                )
            }
        } else {
            (None, Some("Two profiles are required for save sharing.".to_owned()))
        },
        Binding::AskPrivate => if here {
            let profile = &app.profiles[cursor];
            if find_save_set(&app.save_sets, &profile.id).is_some() {
                (
                    Some(PendingAction::MakeSavesPrivate { profile_id: profile.id.clone() }),
                    Some(
                        "Make ".to_owned().concat(&profile.name).concat(
                            " saves private? Press y to confirm or n to cancel.",
                        ),
                    ),
                )
            } else {
                (None, Some(profile.name.clone().concat(" already uses private saves.")))
            }
        } else {
            (None, None)
        },
        Binding::AskImportSaves => if here {
            let profile = &app.profiles[cursor];
            (
                Some(PendingAction::ImportSteamSaves { profile_id: profile.id.clone() }),
                Some(
                    "Import Steam saves into ".to_owned().concat(&profile.name).concat(
                        "? Press y to confirm or n to cancel.",
                    ),
                ),
            )
        } else {
            (None, None)
        },
        Binding::AskExportSaves => if here {
            let profile = &app.profiles[cursor];
            (
                Some(PendingAction::ExportSteamSaves { profile_id: profile.id.clone() }),
                Some(
                    "Export ".to_owned().concat(&profile.name).concat(
                        " saves to Steam? Press y to confirm or n to cancel.",
                    ),
                ),
            )
        } else {
            (None, None)
        },
        Binding::AskDisableAll => (
            Some(PendingAction::DisableAllMods),
            Some(
                "Disable every mod in this profile? Press y to confirm or n to cancel.".to_owned(),
            ),
        ),
        _ => (None, None),
    }
}

/// What the status line says, given what it said.
pub open spec fn status_or(said: Option<Seq<char>>, before: Seq<char>) -> Seq<char> {
    match said {
        Some(text) => text,
        None => before,
    }
}

/// Whether a state is what a key that asks for something makes of another.
pub open spec fn follows(before: App, after: App, binding: Binding) -> bool {
    &&& same_data(before, after)
    &&& after.screen == screen_after(before, binding)
    &&& after.status@ == status_or(said(before, binding), before.status@)
    &&& question_of(after.pending_action) == match asked(before, binding).0 {
        Some(question) => Some(question),
        None => question_of(before.pending_action),
    }
    &&& option_view(after.import_path_input) == if binding == Binding::AskPath {
        Some(Seq::<char>::empty())
    } else {
        option_view(before.import_path_input)
    }
    &&& option_view(after.profile_name_input) == if binding == Binding::AskName {
        Some(Seq::<char>::empty())
    } else {
        option_view(before.profile_name_input)
    }
    &&& after.theme@ == theme_after(before, binding)
}

fn new_screen(app: &App, binding: Binding) -> (r: Screen)
    ensures
        r == screen_after(*app, binding),
{
    let mut s = app.screen;
    match binding {
        Binding::Open(mode) => {
            turn_to(&mut s, mode, Pane::Primary);
        },
        Binding::FocusLeft => {
            s.pane = focus_left(s.pane);
        },
        Binding::FocusRight => {
            s.pane = focus_right(s.pane);
        },
        Binding::Next => {
            if s.pane == Pane::Sidebar {
                let mode = shift_mode(s.mode, true);
                turn_to(&mut s, mode, Pane::Sidebar);
            } else {
                s = move_selection(app, true);
            }
        },
        Binding::Previous => {
            if s.pane == Pane::Sidebar {
                let mode = shift_mode(s.mode, false);
                turn_to(&mut s, mode, Pane::Sidebar);
            } else {
                s = move_selection(app, false);
            }
        },
        Binding::Conflicts => {
            if s.pane == Pane::Secondary {
                s.pane = Pane::Primary;
            } else {
                s.pane = Pane::Secondary;
                s.conflict_index = 0;
            }
        },
        Binding::AllConflicts => {
            s.show_all_conflicts = !s.show_all_conflicts;
            s.pane = Pane::Secondary;
            s.conflict_index = 0;
        },
        Binding::EnterPage => {
            s.pane = Pane::Primary;
        },
        Binding::SelectProfile => {
            s.profile_index = super::keys::clamp(s.profile_cursor, app.profiles.len());
        },
        Binding::Help => {
            s.help_open = true;
        },
        _ => {},
    }
    s
}

fn new_command(app: &App, binding: Binding, after: &Screen) -> (r: Command)
    requires
        *after == screen_after(*app, binding),
    ensures
        r == command_after(*app, binding),
{
    match binding {
        Binding::Quit => Command::Quit,
        Binding::Open(mode) => if mode == Mode::Runtime {
            Command::ReloadBackups
        } else {
            Command::Stay
        },
        Binding::Next | Binding::Previous => if after.mode == Mode::Runtime && (app.screen.pane
            == Pane::Sidebar || app.screen.pane == Pane::Primary) {
            Command::ReloadBackups
        } else {
            Command::Stay
        },
        Binding::Toggle => Command::Toggle,
        Binding::Raise => Command::Raise,
        Binding::Lower => Command::Lower,
        Binding::Rescan => Command::Rescan,
        Binding::ImportSelected => Command::ImportSelected,
        Binding::InstallFramework => Command::InstallFramework,
        Binding::DeleteMod => Command::DeleteMod,
        Binding::DeleteFramework => Command::DeleteFramework,
        Binding::SelectProfile => Command::ReloadProfile,
        Binding::Prepare => Command::Prepare,
        Binding::BackUp => Command::BackUp,
        Binding::Launch => if selected_profile_is_prepared(app) {
            Command::Launch
        } else {
            Command::Stay
        },
        Binding::NextTheme => Command::SaveTheme,
        _ => Command::Stay,
    }
}

fn new_status(app: &App, binding: Binding) -> (r: Option<String>)
    requires
        asked(*app, binding).1 is None,
        binding != Binding::NextTheme,
    ensures
        option_view(r) == said(*app, binding),
{
    match binding {
        Binding::Conflicts => Some(
            if app.screen.pane == Pane::Secondary {
                "Mods table.".to_owned()
            } else if app.screen.show_all_conflicts {
                "File conflicts (all). Press C to filter to the highlighted mod, c to return.".to_owned()
            } else {
                "File conflicts for the highlighted mod. Press C for all, c to return.".to_owned()
            },
        ),
        Binding::AllConflicts => Some(
            if app.screen.show_all_conflicts {
                "Showing conflicts for the highlighted mod.".to_owned()
            } else {
                "Showing all file conflicts.".to_owned()
            },
        ),
        Binding::AskPath => Some("Enter a mod directory or archive path; Esc cancels.".to_owned()),
        Binding::AskName => Some(
            "Enter a name for the new isolated profile; Esc cancels.".to_owned(),
        ),
        Binding::SelectProfile => if app.profiles.len() > 0 {
            let at = super::keys::clamp(app.screen.profile_cursor, app.profiles.len());
            Some("Selected profile ".to_owned().concat(&app.profiles[at].name).concat("."))
        } else {
            None
        },
        Binding::Launch => if app.profiles.len() == 0 {
            Some("Create a profile before launching.".to_owned())
        } else if !selected_profile_is_prepared(app) {
            Some("Profile is not prepared. Press p to prepare it first.".to_owned())
        } else {
            None
        },
        _ => None,
    }
}

/// Does what a key asks for, and says what has to be done outside the screen.
pub fn perform(app: &mut App, binding: Binding) -> (r: Command)
    ensures
        follows(*old(app), *final(app), binding),
        r == command_after(*old(app), binding),
{
    let ghost before = *app;
    let screen = new_screen(app, binding);
    let command = new_command(app, binding, &screen);
    let (question, remark) = ask(app, binding);
    if let Some(text) = remark {
        app.status = text;
    } else if binding == Binding::NextTheme {
        let theme = next_theme(&app.theme.name);
        app.status = "Theme changed to ".to_owned().concat(&theme.name).concat(".");
        app.theme = theme;
    } else {
        if let Some(text) = new_status(app, binding) {
            app.status = text;
        }
    }
    if question.is_some() {
        app.pending_action = question;
    }
    if binding == Binding::AskPath {
        app.import_path_input = Some(String::new());
    }
    if binding == Binding::AskName {
        app.profile_name_input = Some(String::new());
    }
    app.screen = screen;
    command
}

/// Handles a key of the page.
pub fn page_key(app: &mut App, key: Key) -> (r: Command)
    ensures
        follows(
            *old(app),
            *final(app),
            key_binding(old(app).screen.mode, old(app).screen.pane, key),
        ),
        r == command_after(
            *old(app),
            key_binding(old(app).screen.mode, old(app).screen.pane, key),
        ),
{
    let binding = bind(app.screen.mode, app.screen.pane, key);
    perform(app, binding)
}

/// Handles a key while the help is open: it closes the help, ends the application
/// or does nothing.
pub fn help_key(app: &mut App, key: Key) -> (r: Command)
    ensures
        same_data(*old(app), *final(app)),
        final(app).screen == (Screen {
            help_open: old(app).screen.help_open && key != Key::Char('?') && key != Key::Esc,
            ..old(app).screen
        }),
        final(app).status == old(app).status,
        final(app).import_path_input == old(app).import_path_input,
        final(app).profile_name_input == old(app).profile_name_input,
        final(app).pending_action == old(app).pending_action,
        final(app).theme == old(app).theme,
        r == if key == Key::Char('q') {
            Command::Quit
        } else {
            Command::Stay
        },
{
    match key {
        Key::Char('?') | Key::Esc => {
            app.screen.help_open = false;
            Command::Stay
        },
        Key::Char('q') => Command::Quit,
        _ => Command::Stay,
    }
}

/// Takes in the backups of the profile under the cursor.
pub fn reload_detail_backups(app: &mut App, backups: Vec<String>)
    ensures
        final(app).backups == backups,
        final(app).screen == (Screen {
            backup_index: clamped(old(app).screen.backup_index, backups@.len()),
            ..old(app).screen
        }),
        same_data(App { backups: old(app).backups, ..*final(app) }, *old(app)),
        final(app).status == old(app).status,
        final(app).import_path_input == old(app).import_path_input,
        final(app).profile_name_input == old(app).profile_name_input,
        final(app).pending_action == old(app).pending_action,
        final(app).theme == old(app).theme,
{
    app.screen.backup_index = super::keys::clamp(app.screen.backup_index, backups.len());
    app.backups = backups;
}

/// Takes in the candidates of the inbox.
pub fn refresh_imports(app: &mut App, candidates: Vec<ImportCandidate>)
    ensures
        final(app).import_candidates == candidates,
        final(app).screen == (Screen {
            inbox_index: clamped(old(app).screen.inbox_index, candidates@.len()),
            ..old(app).screen
        }),
        same_data(
            App { import_candidates: old(app).import_candidates, ..*final(app) },
            *old(app),
        ),
        final(app).status == old(app).status,
        final(app).import_path_input == old(app).import_path_input,
        final(app).profile_name_input == old(app).profile_name_input,
        final(app).pending_action == old(app).pending_action,
        final(app).theme == old(app).theme,
{
    app.screen.inbox_index = super::keys::clamp(app.screen.inbox_index, candidates.len());
    app.import_candidates = candidates;
}

/// What keys of the page do outside the screen: the highlighted mod is turned on or off,
/// raised or lowered, or offered for deletion; the inbox is read again; what is highlighted
/// is imported or fetched; the selected profile is prepared, the one under the cursor backed
/// up; and a prepared profile is launched.
pub proof fn law_commands_follow_their_keys(app: App)
    ensures
        command_after(app, Binding::Quit) == Command::Quit,
        command_after(app, Binding::Toggle) == Command::Toggle,
        command_after(app, Binding::Raise) == Command::Raise,
        command_after(app, Binding::Lower) == Command::Lower,
        command_after(app, Binding::DeleteMod) == Command::DeleteMod,
        command_after(app, Binding::DeleteFramework) == Command::DeleteFramework,
        command_after(app, Binding::Rescan) == Command::Rescan,
        command_after(app, Binding::ImportSelected) == Command::ImportSelected,
        command_after(app, Binding::InstallFramework) == Command::InstallFramework,
        command_after(app, Binding::Prepare) == Command::Prepare,
        command_after(app, Binding::BackUp) == Command::BackUp,
        command_after(app, Binding::SelectProfile) == Command::ReloadProfile,
        command_after(app, Binding::NextTheme) == Command::SaveTheme,
        command_after(app, Binding::Open(Mode::Runtime)) == Command::ReloadBackups,
        app.screen.profile_index < app.profiles@.len() && views(app.prepared_profiles@).contains(
            app.profiles@[app.screen.profile_index as int].id@,
        ) ==> command_after(app, Binding::Launch) == Command::Launch,
        app.screen.profile_index >= app.profiles@.len() || !views(
            app.prepared_profiles@,
        ).contains(app.profiles@[app.screen.profile_index as int].id@) ==> command_after(
            app,
            Binding::Launch,
        ) == Command::Stay,
{
}

/// Keys that turn pages open them with the focus on their first table; those that move the
/// focus go one pane to the side; choosing a profile selects the one under the cursor. The
/// cursor of the page of profiles begins at the selected one.
pub proof fn law_pages_open_where_they_should(app: App, mode: Mode)
    requires
        app.profiles@.len() <= usize::MAX,
    ensures
        ({
            let s = app.screen;
            let opened = screen_after(app, Binding::Open(mode));
            let left = screen_after(app, Binding::FocusLeft);
            let right = screen_after(app, Binding::FocusRight);
            let chosen = screen_after(app, Binding::SelectProfile);
            &&& opened.mode == mode && opened.pane == Pane::Primary && opened.profile_index
                == s.profile_index
            &&& mode == Mode::Runtime ==> opened.profile_cursor == s.profile_index
            &&& mode != Mode::Runtime ==> opened.profile_cursor == s.profile_cursor
            &&& opened.loadout_index == s.loadout_index && opened.backup_index == s.backup_index
            &&& left.mode == s.mode && right.mode == s.mode
            &&& s.pane == Pane::Secondary ==> left.pane == Pane::Primary && right.pane
                == Pane::Secondary
            &&& s.pane == Pane::Primary ==> left.pane == Pane::Sidebar && right.pane
                == Pane::Secondary
            &&& s.pane == Pane::Sidebar ==> left.pane == Pane::Sidebar && right.pane == Pane::Primary
            &&& s.profile_cursor < app.profiles@.len() ==> chosen.profile_index == s.profile_cursor
            &&& chosen.mode == s.mode && chosen.pane == s.pane && chosen.profile_cursor
                == s.profile_cursor
            &&& screen_after(app, Binding::Help).help_open
            &&& screen_after(app, Binding::AllConflicts).show_all_conflicts
                == !s.show_all_conflicts
        }),
{
}

/// In the sidebar a step turns to the next or the previous page, around the end.
pub proof fn law_sidebar_steps_turn_pages(app: App)
    requires
        app.screen.pane == Pane::Sidebar,
    ensures
        ({
            let down = screen_after(app, Binding::Next);
            let up = screen_after(app, Binding::Previous);
            &&& app.screen.mode == Mode::Loadout ==> down.mode == Mode::Add && up.mode
                == Mode::Runtime
            &&& app.screen.mode == Mode::Add ==> down.mode == Mode::Runtime && up.mode
                == Mode::Loadout
            &&& app.screen.mode == Mode::Runtime ==> down.mode == Mode::Loadout && up.mode
                == Mode::Add
            &&& down.pane == Pane::Sidebar && up.pane == Pane::Sidebar
        }),
{
}

/// The keys for a path and for a name open an empty prompt for them, and no other key does;
/// what is shown stays what it is.
pub proof fn law_prompts_open_empty(before: App, after: App, binding: Binding)
    requires
        follows(before, after, binding),
        before.import_path_input is None,
        before.profile_name_input is None,
    ensures
        after.import_path_input is Some <==> binding == Binding::AskPath,
        after.profile_name_input is Some <==> binding == Binding::AskName,
        after.import_path_input is Some ==> after.import_path_input->0@.len() == 0,
        after.profile_name_input is Some ==> after.profile_name_input->0@.len() == 0,
        after.mods == before.mods && after.profiles == before.profiles && after.backups
            == before.backups && after.conflicts == before.conflicts,
        binding != Binding::NextTheme ==> after.theme@ == before.theme@,
{
}

} // verus!
