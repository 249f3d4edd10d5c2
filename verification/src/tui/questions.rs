//! The answers to what waits for a yes or a no.
use vstd::prelude::*;

use super::keys::{key_binding, Key};
use super::page::{cursor_profile, follows, selected_profile};
use super::plan::EnablePlan;
use super::state::{question_of, same_data, save_set_of, App, Mode, Pane, PendingAction, Question};
use crate::outside::pair_views;
use crate::text::views;

verus! {

/// What has to be done outside the screen after an answer.
#[derive(Debug)]
pub enum Task {
    Nothing,
    /// A mod is enabled; with the changes of the plan where that is `safe`.
    EnableMod { release_id: String, plan: EnablePlan, safe: bool },
    DeleteMods { ids: Vec<String>, label: String },
    DisableAllMods,
    /// A backup is restored for the profile at a place.
    RestoreBackup { archive: String, profile: usize },
    ShareSaves { source_id: String, target_id: String },
    MakeSavesPrivate { profile_id: String },
    ImportSteamSaves { profile_id: String },
    ExportSteamSaves { profile_id: String },
    EnableExisting { framework_id: String, release_id: String },
    ReplaceFramework { framework_id: String },
}

/// What has to be done outside the screen after an answer, as sequences of
/// characters.
pub enum Errand {
    Nothing,
    EnableMod(
        Seq<char>,
        Seq<(Seq<char>, Seq<char>)>,
        Seq<Seq<char>>,
        Seq<(Seq<char>, Seq<char>)>,
        bool,
    ),
    DeleteMods(Seq<Seq<char>>, Seq<char>),
    DisableAllMods,
    RestoreBackup(Seq<char>, int),
    ShareSaves(Seq<char>, Seq<char>),
    MakeSavesPrivate(Seq<char>),
    ImportSteamSaves(Seq<char>),
    ExportSteamSaves(Seq<char>),
    EnableExisting(Seq<char>, Seq<char>),
    ReplaceFramework(Seq<char>),
}

impl View for Task {
    type V = Errand;

    open spec fn view(&self) -> Errand {
        match self {
            Task::Nothing => Errand::Nothing,
            Task::EnableMod { release_id, plan, safe } => Errand::EnableMod(
                release_id@,
                pair_views(plan.enable_deps@),
                views(plan.missing_deps@),
                pair_views(plan.disable_dups@),
                *safe,
            ),
            Task::DeleteMods { ids, label } => Errand::DeleteMods(views(ids@), label@),
            Task::DisableAllMods => Errand::DisableAllMods,
            Task::RestoreBackup { archive, profile } => Errand::RestoreBackup(
                archive@,
                *profile as int,
            ),
            Task::ShareSaves { source_id, target_id } => Errand::ShareSaves(source_id@, target_id@),
            Task::MakeSavesPrivate { profile_id } => Errand::MakeSavesPrivate(profile_id@),
            Task::ImportSteamSaves { profile_id } => Errand::ImportSteamSaves(profile_id@),
            Task::ExportSteamSaves { profile_id } => Errand::ExportSteamSaves(profile_id@),
            Task::EnableExisting { framework_id, release_id } => Errand::EnableExisting(
                framework_id@,
                release_id@,
            ),
            Task::ReplaceFramework { framework_id } => Errand::ReplaceFramework(framework_id@),
        }
    }
}

/// What a key says to a question.
#[derive(Debug, Clone, Copy, PartialEq, Eq, Structural)]
pub enum Reply {
    /// Nothing: the question stays.
    Unanswered,
    Cancel,
    Yes,
    /// The other way of saying yes: only the one mod, or the latest release.
    Other,
}

/// What a key says to a question. A mod can be enabled alone with `n`, and a
/// framework replaced with `r`.
pub open spec fn reply_to(question: Question, key: Key) -> Reply {
    if question is EnableMod {
        if key == Key::Esc {
            Reply::Cancel
        } else if key == Key::Char('y') {
            Reply::Yes
        } else if key == Key::Char('n') {
            Reply::Other
        } else {
            Reply::Unanswered
        }
    } else if key == Key::Esc || key == Key::Char('n') {
        Reply::Cancel
    } else if key == Key::Char('y') {
        Reply::Yes
    } else if question is FrameworkPresent && key == Key::Char('r') {
        Reply::Other
    } else {
        Reply::Unanswered
    }
}

/// What a question is about once it is answered with yes or the other way.
pub open spec fn errand_of(app: App, question: Question, reply: Reply) -> Errand {
    match question {
        Question::DisableAllMods => Errand::DisableAllMods,
        Question::RestoreBackup(archive) => Errand::RestoreBackup(
            archive,
            if cursor_profile(app) is Some {
                app.screen.profile_cursor as int
            } else {
                app.screen.profile_index as int
            },
        ),
        Question::ShareSaves(source, target) => Errand::ShareSaves(source, target),
        Question::MakeSavesPrivate(id) => Errand::MakeSavesPrivate(id),
        Question::ImportSteamSaves(id) => Errand::ImportSteamSaves(id),
        Question::ExportSteamSaves(id) => Errand::ExportSteamSaves(id),
        Question::FrameworkPresent(framework, release, _, _) => if reply == Reply::Other {
            Errand::ReplaceFramework(framework)
        } else {
            Errand::EnableExisting(framework, release)
        },
        Question::DeleteMods(ids, label, _) => Errand::DeleteMods(ids, label),
        Question::EnableMod(id, _, enable, missing, disable) => Errand::EnableMod(
            id,
            enable,
            missing,
            disable,
            reply == Reply::Yes,
        ),
    }
}

/// Whether an answer leads to nothing for want of a selected profile.
pub open spec fn lacks_profile(app: App, question: Question) -> bool {
    !(question is DeleteMods) && selected_profile(app) is None
}

/// What an answer to the open question leads to.
pub open spec fn answered(app: App, key: Key) -> Errand {
    match question_of(app.pending_action) {
        None => Errand::Nothing,
        Some(question) => {
            let reply = reply_to(question, key);
            if reply == Reply::Unanswered || reply == Reply::Cancel || lacks_profile(app, question) {
                Errand::Nothing
            } else {
                errand_of(app, question, reply)
            }
        },
    }
}

/// What the status line says after an answer.
pub open spec fn answer_status(app: App, key: Key) -> Seq<char> {
    match question_of(app.pending_action) {
        None => app.status@,
        Some(question) => {
            let reply = reply_to(question, key);
            if reply == Reply::Unanswered {
                app.status@
            } else if reply == Reply::Cancel {
                if question is EnableMod {
                    "Enable cancelled."@
                } else {
                    "Action cancelled."@
                }
            } else if lacks_profile(app, question) {
                "No profile is selected."@
            } else {
                app.status@
            }
        },
    }
}

/// A question that no key has answered stays open.
pub open spec fn still_open(app: App, key: Key) -> bool {
    match question_of(app.pending_action) {
        None => false,
        Some(question) => reply_to(question, key) == Reply::Unanswered,
    }
}

/// Nothing is done before it is confirmed: only `y` leads to an errand, but for
/// `n` where a mod is enabled alone and `r` where a framework is replaced.
pub proof fn law_errands_are_confirmed(app: App, key: Key)
    requires
        !(answered(app, key) is Nothing),
    ensures
        key == Key::Char('y') || (key == Key::Char('n') && answered(app, key) is EnableMod) || (key
            == Key::Char('r') && answered(app, key) is ReplaceFramework),
{
}

fn read_reply(action: &PendingAction, key: Key) -> (r: Reply)
    ensures
        r == reply_to(action@, key),
{
    let enable = match action {
        PendingAction::EnableMod { .. } => true,
        _ => false,
    };
    let framework = match action {
        PendingAction::FrameworkPresent { .. } => true,
        _ => false,
    };
    match key {
        Key::Esc => Reply::Cancel,
        Key::Char('y') => Reply::Yes,
        Key::Char('n') => if enable {
            Reply::Other
        } else {
            Reply::Cancel
        },
        Key::Char('r') => if framework {
            Reply::Other
        } else {
            Reply::Unanswered
        },
        _ => Reply::Unanswered,
    }
}

fn task_of(app: &App, action: PendingAction, reply: Reply) -> (r: Task)
    ensures
        r@ == errand_of(*app, action@, reply),
{
    match action {
        PendingAction::DisableAllMods => Task::DisableAllMods,
        PendingAction::RestoreBackup(archive) => Task::RestoreBackup {
            archive,
            profile: if app.screen.profile_cursor < app.profiles.len() {
                app.screen.profile_cursor
            } else {
                app.screen.profile_index
            },
        },
        PendingAction::ShareSaves { source_id, target_id } => Task::ShareSaves {
            source_id,
            target_id,
        },
        PendingAction::MakeSavesPrivate { profile_id } => Task::MakeSavesPrivate { profile_id },
        PendingAction::ImportSteamSaves { profile_id } => Task::ImportSteamSaves { profile_id },
        PendingAction::ExportSteamSaves { profile_id } => Task::ExportSteamSaves { profile_id },
        PendingAction::FrameworkPresent { framework_id, release_id, version: _, copies: _ } => if reply
            == Reply::Other {
            Task::ReplaceFramework { framework_id }
        } else {
            Task::EnableExisting { framework_id, release_id }
        },
        PendingAction::DeleteMods { ids, label, used_by: _ } => Task::DeleteMods { ids, label },
        PendingAction::EnableMod {
            release_id,
            release_name: _,
            enable_deps,
            missing_deps,
            disable_dups,
        } => Task::EnableMod {
            release_id,
            plan: EnablePlan { enable_deps, missing_deps, disable_dups },
            safe: reply == Reply::Yes,
        },
    }
}

/// Handles a key while a question is open.
pub fn handle_pending_action(app: &mut App, key: Key) -> (r: Task)
    ensures
        same_data(*old(app), *final(app)),
        final(app).screen == old(app).screen,
        final(app).theme == old(app).theme,
        final(app).import_path_input == old(app).import_path_input,
        final(app).profile_name_input == old(app).profile_name_input,
        question_of(final(app).pending_action) == if still_open(*old(app), key) {
            question_of(old(app).pending_action)
        } else {
            None
        },
        final(app).status@ == answer_status(*old(app), key),
        r@ == answered(*old(app), key),
{
    let ghost before = *app;
    let mut taken: Option<PendingAction> = None;
    std::mem::swap(&mut taken, &mut app.pending_action);
    match taken {
        None => Task::Nothing,
        Some(action) => {
            let reply = read_reply(&action, key);
            let enable = match &action {
                PendingAction::EnableMod { .. } => true,
                _ => false,
            };
            let delete = match &action {
                PendingAction::DeleteMods { .. } => true,
                _ => false,
            };
            if reply == Reply::Unanswered {
                app.pending_action = Some(action);
                return Task::Nothing;
            }
            if reply == Reply::Cancel {
                app.status = if enable {
                    "Enable cancelled.".to_owned()
                } else {
                    "Action cancelled.".to_owned()
                };
                return Task::Nothing;
            }
            if !delete && app.screen.profile_index >= app.profiles.len() {
                app.status = "No profile is selected.".to_owned();
                return Task::Nothing;
            }
            task_of(app, action, reply)
        },
    }
}

/// What was asked for and confirmed is done, for the profiles and the backup that the user
/// sees: saves are shared from the selected profile to the one under the cursor; those of
/// the profile under the cursor are made private, taken from Steam or given to it; the
/// highlighted backup is restored for it; all mods are turned off. A refusal does nothing.
pub proof fn law_confirmed_keys_do_what_they_say(before: App, after: App, key: Key)
    requires
        before.screen.profile_index < before.profiles@.len(),
        before.screen.profile_cursor < before.profiles@.len(),
        follows(before, after, key_binding(before.screen.mode, before.screen.pane, key)),
        before.pending_action is None,
    ensures
        ({
            let s = before.screen;
            let selected = before.profiles@[s.profile_index as int].id@;
            let cursor = before.profiles@[s.profile_cursor as int].id@;
            let runtime = s.mode == Mode::Runtime;
            let yes = answered(after, Key::Char('y'));
            &&& runtime && key == Key::Char('s') && selected != cursor ==> yes
                == Errand::ShareSaves(selected, cursor)
            &&& runtime && key == Key::Char('s') && selected == cursor ==> yes is Nothing
            &&& runtime && key == Key::Char('i') ==> yes == Errand::ImportSteamSaves(cursor)
            &&& runtime && key == Key::Char('e') ==> yes == Errand::ExportSteamSaves(cursor)
            &&& runtime && key == Key::Char('u') && save_set_of(before.save_sets@, cursor) is Some
                ==> yes == Errand::MakeSavesPrivate(cursor)
            &&& runtime && key == Key::Char('u') && save_set_of(before.save_sets@, cursor) is None
                ==> yes is Nothing
            &&& runtime && s.pane == Pane::Secondary && key == Key::Enter && s.backup_index
                < before.backups@.len() ==> yes == Errand::RestoreBackup(
                before.backups@[s.backup_index as int]@,
                s.profile_cursor as int,
            )
            &&& s.mode == Mode::Loadout && (key == Key::Char('x') || key == Key::Char('v')) ==> yes
                == Errand::DisableAllMods
            &&& answered(after, Key::Esc) is Nothing
            &&& answered(after, Key::Char('n')) is Nothing
        }),
{
}

/// The answer to a question about mods does what the question was about: a deletion takes
/// the mods that it named; a framework that is there is enabled with `y` and replaced with
/// `r`; a mod is enabled with the changes of its plan with `y` and alone with `n`.
pub proof fn law_answers_do_what_was_asked(app: App)
    ensures
        ({
            let question = question_of(app.pending_action);
            let yes = answered(app, Key::Char('y'));
            let ready = app.screen.profile_index < app.profiles@.len();
            &&& question matches Some(Question::DeleteMods(ids, label, used)) ==> yes
                == Errand::DeleteMods(ids, label)
            &&& question matches Some(Question::FrameworkPresent(framework, release, version, n))
                ==> ready ==> yes == Errand::EnableExisting(framework, release) && answered(
                app,
                Key::Char('r'),
            ) == Errand::ReplaceFramework(framework)
            &&& question matches Some(Question::EnableMod(id, name, enable, missing, disable))
                ==> ready ==> yes == Errand::EnableMod(id, enable, missing, disable, true)
                && answered(app, Key::Char('n')) == Errand::EnableMod(
                id,
                enable,
                missing,
                disable,
                false,
            )
            &&& answered(app, Key::Esc) is Nothing
            &&& !ready && !(question is Some && question->0 is DeleteMods) ==> yes is Nothing
        }),
{
}

} // verus!
