//! What the screen shows and what keys do to it.
use cp2077_mod_tui::doctor::Check;
use cp2077_mod_tui::inbox::{CandidateKind, ImportCandidate};
use cp2077_mod_tui::models::{
    Dependency, GameInstall, LoadoutEntry, ModKind, ModRelease, Profile, ResolvedEntry, SaveSet,
    Timestamp,
};
use cp2077_mod_tui::text_map::TextMap;
use cp2077_mod_tui::theme::presets;
use cp2077_mod_tui::tui::actions::{
    begin_replacement, count_copies, enable_changes, enabled_status, find_source, framework_copies,
    gather_names, profile_created, release_name, request_delete_selected_framework,
    request_delete_selected_mod, request_framework_install, request_toggle_selected, InstallStep,
    ToggleStep,
};
use cp2077_mod_tui::tui::confirm::{
    centered, confirmation_area, confirmation_message, confirmation_title, core_height, prompt_area,
    prompt_cursor, sidebar_width, Area,
};
use cp2077_mod_tui::tui::health::{
    duplicate_reason, issue_flags, next_action, page_badge, selected_mod_detail, warn_count,
};
use cp2077_mod_tui::tui::keys::{bind, clamp_all_selections, key_focus, move_selection, pane_len, Binding, Focus, Key};
use cp2077_mod_tui::tui::messages;
use cp2077_mod_tui::tui::page::{
    help_key, page_key, refresh_imports, reload_detail_backups, shift_mode, Command,
};
use cp2077_mod_tui::tui::plan::{enable_plan, release_satisfies, same_logical_mod};
use cp2077_mod_tui::tui::prompts::{import_path_key, profile_name_key, resolve_user_path, UserPathError};
use cp2077_mod_tui::tui::questions::{handle_pending_action, Task};
use cp2077_mod_tui::tui::rows::{
    backup_lines, candidate_rows, check_rows, conflict_rows, conflicts_title, framework_rows,
    frameworks_title, help_lines, inbox_title, list_highlight, loadout_header, mod_rows, mods_title,
    nav_gap, nav_label, no_conflicts_text, profile_detail_lines, profile_lines, runtime_parts,
    sidebar_footer, sidebar_head, status_title, RuntimeParts,
};
use cp2077_mod_tui::tui::state::{
    blocked_count, clash_count, core_installed_count, enabled_count, focus_left, focus_right,
    selected_profile_is_prepared, visible_conflicts, App, Mode, Pane, PendingAction, Screen,
};

const NOW: Timestamp = Timestamp { seconds: 1_700_000_000, nanos: 0 };

fn test_app() -> App {
    App {
        screen: Screen {
            mode: Mode::Loadout,
            pane: Pane::Primary,
            loadout_index: 0,
            conflict_index: 0,
            show_all_conflicts: false,
            core_index: 0,
            inbox_index: 0,
            profile_index: 0,
            profile_cursor: 0,
            backup_index: 0,
            help_open: false,
        },
        status: "Ready. Press ? for keys.".into(),
        mods: Vec::new(),
        profiles: Vec::new(),
        resolved: Vec::new(),
        import_root: "/tmp/mods".into(),
        import_candidates: Vec::new(),
        import_path_input: None,
        profile_name_input: None,
        pending_action: None,
        prepared_profiles: Vec::new(),
        save_sets: Vec::new(),
        backups: Vec::new(),
        conflicts: vec![("archive/mod.archive".into(), vec!["a".into()])],
        health_checks: vec![Check {
            name: "Steam".into(),
            ok: false,
            detail: "missing".into(),
            remedy: Some("Install native Steam.".into()),
        }],
        theme: presets().remove(0),
    }
}

fn sample_game() -> GameInstall {
    GameInstall {
        id: "game".into(),
        library: "/games".into(),
        root: "/games/Cyberpunk 2077".into(),
        manifest: "/games/appmanifest".into(),
        build_id: "20770477".into(),
        phantom_liberty: true,
        redmod: true,
        writable: true,
    }
}

fn release(id: &str, name: &str, sha: &str) -> ModRelease {
    ModRelease {
        id: id.into(),
        name: name.into(),
        version: "1".into(),
        kind: ModKind::Legacy,
        archive_sha256: sha.into(),
        layer_path: "/tmp".into(),
        source: "/tmp".into(),
        installed_at: NOW,
    }
}

fn profile(id: &str, name: &str) -> Profile {
    Profile {
        id: id.into(),
        name: name.into(),
        game_install_id: "game".into(),
        game_build_id: "20770477".into(),
        runner: "UMU-Proton".into(),
        launch_args: Vec::new(),
        environment: TextMap::new(),
        created_at: NOW,
    }
}

fn resolved(id: &str, requested: bool, effective: bool, reason: Option<&str>) -> ResolvedEntry {
    ResolvedEntry {
        entry: LoadoutEntry {
            profile_id: "p".into(),
            mod_id: id.into(),
            priority: 10,
            requested_enabled: requested,
        },
        effective_enabled: effective,
        disabled_reason: reason.map(|text| text.to_string()),
    }
}

#[test]
fn three_named_modes() {
    assert_eq!(Mode::ALL.len(), 3);
    assert_eq!(Mode::Loadout.number(), 1);
    assert_eq!(Mode::Add.number(), 2);
    assert_eq!(Mode::Runtime.number(), 3);
    assert_eq!(Mode::Loadout.title(), "Loadout");
    assert_eq!(Mode::Add.title(), "Add");
    assert_eq!(Mode::Runtime.title(), "Runtime");
}

#[test]
fn next_action_follows_launch_gate_order() {
    let mut app = test_app();
    assert_eq!(
        next_action(&app, &[]),
        "Install Cyberpunk 2077 in a discoverable Steam library."
    );
    let games = [sample_game()];
    assert_eq!(next_action(&app, &games), "Install native Steam.");
    app.health_checks[0].ok = true;
    assert_eq!(
        next_action(&app, &games),
        "Press 2, then f to fetch Core frameworks."
    );
}

#[test]
fn launch_is_advised_when_nothing_is_left_to_do() {
    let mut app = test_app();
    let games = [sample_game()];
    app.health_checks[0].ok = true;
    app.mods.push(release("redscript", "redscript", "x"));
    assert_eq!(
        next_action(&app, &games),
        "Press p to prepare the isolated runtime."
    );
    app.profiles.push(profile("p", "Default"));
    app.prepared_profiles.push("p".into());
    app.resolved.push(resolved("redscript", true, false, None));
    assert!(next_action(&app, &games).starts_with("Blocked mods"));
    app.resolved.clear();
    assert!(next_action(&app, &games).starts_with("Press c to inspect"));
    app.conflicts.clear();
    assert_eq!(
        next_action(&app, &games),
        "Shift-L launches the selected profile."
    );
    app.health_checks[0].ok = false;
    app.health_checks[0].remedy = None;
    assert_eq!(next_action(&app, &games), "Resolve Steam.");
}

#[test]
fn badges_report_warns_and_conflicts() {
    let app = test_app();
    assert_eq!(page_badge(Mode::Loadout, &app).as_deref(), Some("1"));
    assert_eq!(page_badge(Mode::Add, &app), None);
    assert_eq!(page_badge(Mode::Runtime, &app), None);
}

#[test]
fn unprepared_profiles_are_badged() {
    let mut app = test_app();
    app.profiles.push(profile("p", "Default"));
    assert_eq!(page_badge(Mode::Runtime, &app).as_deref(), Some("prep"));
    assert_eq!(warn_count(&app), 2);
    assert!(!selected_profile_is_prepared(&app));
    app.prepared_profiles.push("p".into());
    assert_eq!(page_badge(Mode::Runtime, &app), None);
    assert_eq!(warn_count(&app), 1);
    app.conflicts.clear();
    assert_eq!(page_badge(Mode::Loadout, &app), None);
}

#[test]
fn enable_plan_collects_disabled_deps_and_dups() {
    let target = ModRelease {
        id: "ui".into(),
        name: "Native Settings UI".into(),
        version: "1".into(),
        kind: ModKind::Legacy,
        archive_sha256: "1".into(),
        layer_path: "/tmp/ui".into(),
        source: "/tmp/ui".into(),
        installed_at: NOW,
    };
    let redscript = ModRelease {
        id: "redscript".into(),
        name: "redscript".into(),
        version: "1".into(),
        kind: ModKind::Framework,
        archive_sha256: "2".into(),
        layer_path: "/tmp/rs".into(),
        source: "/tmp/rs".into(),
        installed_at: NOW,
    };
    let copy = ModRelease {
        id: "ui-copy".into(),
        name: "Native Settings UI".into(),
        version: "1".into(),
        kind: ModKind::Legacy,
        archive_sha256: "1".into(),
        layer_path: "/tmp/ui2".into(),
        source: "/tmp/ui2".into(),
        installed_at: NOW,
    };
    let mods = vec![target.clone(), redscript, copy];
    let loadout = vec![LoadoutEntry {
        profile_id: "p".into(),
        mod_id: "ui-copy".into(),
        priority: 10,
        requested_enabled: true,
    }];
    let deps = vec![Dependency {
        mod_id: "ui".into(),
        requires_id: "redscript".into(),
        inferred: true,
    }];
    let plan = enable_plan(&target, &mods, &loadout, &deps);
    assert_eq!(plan.enable_deps[0].0, "redscript");
    assert!(plan.missing_deps.is_empty());
    assert_eq!(plan.disable_dups[0].0, "ui-copy");
    assert!(plan.needs_prompt());
}

#[test]
fn enable_plan_follows_requirements_to_their_end() {
    let mods = vec![
        release("top", "Top", "a"),
        release("middle", "Middle", "b"),
        release("end", "End", "c"),
    ];
    let needs = |id: &str, requirement: &str| Dependency {
        mod_id: id.into(),
        requires_id: requirement.into(),
        inferred: false,
    };
    let deps = vec![needs("top", "middle"), needs("middle", "end")];
    let plan = enable_plan(&mods[0], &mods, &[], &deps);
    let ids: Vec<&str> = plan.enable_deps.iter().map(|pair| pair.0.as_str()).collect();
    assert_eq!(ids, vec!["end", "middle"]);
    assert!(plan.missing_deps.is_empty());
}

#[test]
fn enable_plan_names_missing_core() {
    let target = ModRelease {
        id: "ui".into(),
        name: "Native Settings UI".into(),
        version: "1".into(),
        kind: ModKind::Legacy,
        archive_sha256: "1".into(),
        layer_path: "/tmp/ui".into(),
        source: "/tmp/ui".into(),
        installed_at: NOW,
    };
    let plan = enable_plan(
        &target,
        std::slice::from_ref(&target),
        &[],
        &[Dependency {
            mod_id: "ui".into(),
            requires_id: "redscript".into(),
            inferred: true,
        }],
    );
    assert_eq!(plan.missing_deps, vec!["redscript"]);
    assert!(plan.enable_deps.is_empty());
}

#[test]
fn issue_flags_mark_file_clashes() {
    let mut app = test_app();
    app.mods.push(ModRelease {
        id: "a".into(),
        name: "Alpha".into(),
        version: "1".into(),
        kind: ModKind::Legacy,
        archive_sha256: "x".into(),
        layer_path: "/tmp".into(),
        source: "/tmp".into(),
        installed_at: NOW,
    });
    assert_eq!(issue_flags(&app.mods[0], &app), "clash");
    assert!(selected_mod_detail(&app).contains("file conflict"));
}

#[test]
fn pane_chain_is_sidebar_primary_secondary() {
    assert_eq!(focus_left(Pane::Secondary), Pane::Primary);
    assert_eq!(focus_left(Pane::Primary), Pane::Sidebar);
    assert_eq!(focus_left(Pane::Sidebar), Pane::Sidebar);
    assert_eq!(focus_right(Pane::Sidebar), Pane::Primary);
    assert_eq!(focus_right(Pane::Primary), Pane::Secondary);
    assert_eq!(focus_right(Pane::Secondary), Pane::Secondary);
}

#[test]
fn copies_of_a_mod_are_recognised() {
    let one = release("1", "Alpha", "x");
    let mut two = release("2", "ALPHA", "y");
    assert!(same_logical_mod(&one, &two));
    assert!(same_logical_mod(&two, &one));
    two.version = "2".into();
    assert!(!same_logical_mod(&one, &two));
    assert!(same_logical_mod(&release("3", "Other", "x"), &one));
    assert!(same_logical_mod(
        &release("redscript", "anything", "1"),
        &release("9", "RedScript", "2")
    ));
    assert!(release_satisfies(&release("9", "REDscript", "2"), "redscript"));
    assert!(!release_satisfies(&one, "redscript"));
    assert_eq!(
        duplicate_reason(&one, &[one.clone(), release("4", "Alpha", "z")]).as_deref(),
        Some("duplicate of Alpha")
    );
    assert_eq!(duplicate_reason(&one, &[one.clone()]), None);
}

#[test]
fn blocked_mods_are_flagged_with_their_reason() {
    let mut app = test_app();
    app.conflicts.clear();
    app.mods.push(release("a", "Alpha", "x"));
    app.mods.push(release("b", "Beta", "y"));
    app.resolved.push(resolved("a", true, false, Some("requires disabled or missing c")));
    app.resolved.push(resolved("b", true, true, None));
    assert_eq!(issue_flags(&app.mods[0], &app), "dep");
    assert_eq!(
        selected_mod_detail(&app),
        "Alpha: requires disabled or missing c"
    );
    assert_eq!(blocked_count(&app), 1);
    assert_eq!(enabled_count(&app), 1);
    assert_eq!(clash_count("a", &app), 0);
    app.screen.loadout_index = 1;
    assert_eq!(selected_mod_detail(&app), "Beta: OK");
    app.screen.loadout_index = 7;
    assert_eq!(selected_mod_detail(&app), "No mod selected.");
    let rows = mod_rows(&app);
    assert_eq!(rows[0], vec!["[--]", "dep", "Alpha", "1", "legacy", "10"]);
    assert_eq!(rows[1], vec!["[ON]", "", "Beta", "1", "legacy", "10"]);
    app.resolved.clear();
    assert_eq!(mod_rows(&app)[0], vec!["[  ]", "", "Alpha", "1", "legacy", ""]);
}

#[test]
fn keys_are_bound_by_page_and_pane() {
    assert_eq!(bind(Mode::Loadout, Pane::Primary, Key::Char(' ')), Binding::Toggle);
    assert_eq!(bind(Mode::Loadout, Pane::Secondary, Key::Char(' ')), Binding::Nothing);
    assert_eq!(bind(Mode::Loadout, Pane::Primary, Key::Char('=')), Binding::Raise);
    assert_eq!(bind(Mode::Add, Pane::Primary, Key::Char('d')), Binding::DeleteFramework);
    assert_eq!(bind(Mode::Add, Pane::Secondary, Key::Char('d')), Binding::Nothing);
    assert_eq!(bind(Mode::Runtime, Pane::Sidebar, Key::Enter), Binding::EnterPage);
    assert_eq!(bind(Mode::Runtime, Pane::Secondary, Key::Enter), Binding::AskRestore);
    assert_eq!(bind(Mode::Add, Pane::Secondary, Key::Char('i')), Binding::ImportSelected);
    assert_eq!(bind(Mode::Runtime, Pane::Primary, Key::Char('i')), Binding::AskImportSaves);
    assert_eq!(bind(Mode::Loadout, Pane::Primary, Key::Esc), Binding::Quit);
    assert_eq!(bind(Mode::Add, Pane::Primary, Key::Char('p')), Binding::Nothing);
}

#[test]
fn pages_go_around() {
    assert_eq!(shift_mode(Mode::Loadout, true), Mode::Add);
    assert_eq!(shift_mode(Mode::Runtime, true), Mode::Loadout);
    assert_eq!(shift_mode(Mode::Loadout, false), Mode::Runtime);
    let mut app = test_app();
    app.screen.pane = Pane::Sidebar;
    assert_eq!(page_key(&mut app, Key::Up), Command::ReloadBackups);
    assert_eq!(app.screen.mode, Mode::Runtime);
    assert_eq!(page_key(&mut app, Key::Char('1')), Command::Stay);
    assert_eq!(app.screen.pane, Pane::Primary);
}

#[test]
fn selections_stay_in_their_lists() {
    let mut app = test_app();
    app.mods.push(release("a", "Alpha", "x"));
    app.mods.push(release("b", "Beta", "y"));
    assert_eq!(pane_len(&app), 2);
    app.screen = move_selection(&app, true);
    app.screen = move_selection(&app, true);
    assert_eq!(app.screen.loadout_index, 1);
    app.screen = move_selection(&app, false);
    app.screen = move_selection(&app, false);
    assert_eq!(app.screen.loadout_index, 0);
    app.screen.loadout_index = 9;
    app.screen.backup_index = 9;
    clamp_all_selections(&mut app);
    assert_eq!(app.screen.loadout_index, 1);
    assert_eq!(app.screen.backup_index, 0);
    reload_detail_backups(&mut app, vec!["/b/1".into()]);
    assert_eq!(app.backups.len(), 1);
    refresh_imports(&mut app, Vec::new());
    assert_eq!(app.screen.inbox_index, 0);
}

#[test]
fn launching_needs_a_prepared_profile() {
    let mut app = test_app();
    assert_eq!(page_key(&mut app, Key::Char('L')), Command::Stay);
    assert_eq!(app.status, "Create a profile before launching.");
    app.profiles.push(profile("p", "Default"));
    assert_eq!(page_key(&mut app, Key::Char('L')), Command::Stay);
    assert_eq!(
        app.status,
        "Profile is not prepared. Press p to prepare it first."
    );
    app.prepared_profiles.push("p".into());
    assert_eq!(page_key(&mut app, Key::Char('L')), Command::Launch);
}

#[test]
fn far_reaching_keys_ask_first() {
    let mut app = test_app();
    app.profiles.push(profile("p", "Default"));
    assert_eq!(page_key(&mut app, Key::Char('x')), Command::Stay);
    assert!(matches!(app.pending_action, Some(PendingAction::DisableAllMods)));
    assert_eq!(key_focus(&app), Focus::Question);
    assert!(matches!(handle_pending_action(&mut app, Key::Char('z')), Task::Nothing));
    assert!(app.pending_action.is_some());
    assert!(matches!(handle_pending_action(&mut app, Key::Char('n')), Task::Nothing));
    assert_eq!(app.status, "Action cancelled.");
    assert!(app.pending_action.is_none());
    page_key(&mut app, Key::Char('v'));
    assert!(matches!(
        handle_pending_action(&mut app, Key::Char('y')),
        Task::DisableAllMods
    ));
    assert!(app.pending_action.is_none());
}

#[test]
fn questions_become_errands() {
    let mut app = test_app();
    app.pending_action = Some(PendingAction::DeleteMods {
        ids: vec!["a".into()],
        label: "Alpha 1".into(),
        used_by: Vec::new(),
    });
    match handle_pending_action(&mut app, Key::Char('y')) {
        Task::DeleteMods { ids, label } => {
            assert_eq!(ids, vec!["a"]);
            assert_eq!(label, "Alpha 1");
        }
        other => panic!("{other:?}"),
    }
    app.pending_action = Some(PendingAction::RestoreBackup("/b/1".into()));
    assert!(matches!(handle_pending_action(&mut app, Key::Char('y')), Task::Nothing));
    assert_eq!(app.status, "No profile is selected.");
    app.profiles.push(profile("p", "Default"));
    app.pending_action = Some(PendingAction::RestoreBackup("/b/1".into()));
    match handle_pending_action(&mut app, Key::Char('y')) {
        Task::RestoreBackup { archive, profile } => {
            assert_eq!(archive, "/b/1");
            assert_eq!(profile, 0);
        }
        other => panic!("{other:?}"),
    }
    app.pending_action = Some(PendingAction::FrameworkPresent {
        framework_id: "redscript".into(),
        release_id: "r".into(),
        version: "1".into(),
        copies: 1,
    });
    match handle_pending_action(&mut app, Key::Char('r')) {
        Task::ReplaceFramework { framework_id } => assert_eq!(framework_id, "redscript"),
        other => panic!("{other:?}"),
    }
    app.pending_action = Some(PendingAction::EnableMod {
        release_id: "a".into(),
        release_name: "Alpha".into(),
        enable_deps: vec![("b".into(), "Beta".into())],
        missing_deps: Vec::new(),
        disable_dups: Vec::new(),
    });
    match handle_pending_action(&mut app, Key::Char('n')) {
        Task::EnableMod { release_id, plan, safe } => {
            assert_eq!(release_id, "a");
            assert!(!safe);
            assert_eq!(enable_changes(&release_id, &plan, safe), vec![("a".to_string(), true)]);
            assert_eq!(
                enable_changes(&release_id, &plan, true),
                vec![("a".to_string(), true), ("b".to_string(), true)]
            );
        }
        other => panic!("{other:?}"),
    }
}

#[test]
fn toggling_asks_where_more_is_to_be_done() {
    let mut app = test_app();
    app.mods.push(release("a", "Alpha", "x"));
    assert!(matches!(request_toggle_selected(&mut app, &[], &[]), ToggleStep::Nothing));
    assert_eq!(app.status, "Create a profile first.");
    app.profiles.push(profile("p", "Default"));
    match request_toggle_selected(&mut app, &[], &[]) {
        ToggleStep::Enable { mod_id, plan } => {
            assert_eq!(mod_id, "a");
            assert!(!plan.needs_prompt());
            assert_eq!(
                enabled_status(&app, &mod_id, &plan, true),
                "Enabled Alpha. 1 file conflict(s). Press c. +/- sets the winner."
            );
        }
        other => panic!("{other:?}"),
    }
    let on = LoadoutEntry {
        profile_id: "p".into(),
        mod_id: "a".into(),
        priority: 10,
        requested_enabled: true,
    };
    match request_toggle_selected(&mut app, &[on], &[]) {
        ToggleStep::Disable { mod_id, name } => {
            assert_eq!(mod_id, "a");
            assert_eq!(name, "Alpha");
        }
        other => panic!("{other:?}"),
    }
    let deps = vec![Dependency {
        mod_id: "a".into(),
        requires_id: "redscript".into(),
        inferred: true,
    }];
    assert!(matches!(request_toggle_selected(&mut app, &[], &deps), ToggleStep::Nothing));
    let question = app.pending_action.take().unwrap();
    assert_eq!(
        confirmation_title(&question),
        " CONFIRM // Y FIX // N ENABLE ONLY // ESC CANCELS "
    );
    assert_eq!(
        confirmation_message(&app, &question),
        "Enable Alpha?\nNot in the library (fetch from Add, then f): redscript.\nn enables only this row. Esc cancels."
    );
}

#[test]
fn frameworks_are_installed_replaced_and_deleted() {
    let mut app = test_app();
    assert_eq!(request_framework_install(&mut app), InstallStep::Fetch);
    assert!(app.status.starts_with("Fetching "));
    app.mods.push(release("redscript", "redscript", "x"));
    app.screen.core_index = framework_rows(&app)
        .iter()
        .position(|row| row[0] == "INSTALLED")
        .unwrap();
    assert_eq!(core_installed_count(&app), 1);
    assert_eq!(request_framework_install(&mut app), InstallStep::Nothing);
    assert!(app.status.contains("(1 copy)"));
    assert_eq!(framework_copies(&app), vec!["redscript"]);
    request_delete_selected_framework(&mut app, gather_names(&vec![
        vec!["B".to_string(), "A".to_string()],
        vec!["A".to_string()],
    ]));
    match &app.pending_action {
        Some(PendingAction::DeleteMods { ids, used_by, .. }) => {
            assert_eq!(ids, &vec!["redscript"]);
            assert_eq!(used_by, &vec!["A", "B"]);
        }
        other => panic!("{other:?}"),
    }
    app.screen.mode = Mode::Runtime;
    assert!(begin_replacement(&mut app, "redscript").is_some());
    assert_eq!(app.screen.mode, Mode::Add);
    assert!(begin_replacement(&mut app, "nothing").is_none());
    assert_eq!(count_copies(2), "2 copies");
}

#[test]
fn deletions_name_the_mod() {
    let mut app = test_app();
    request_delete_selected_mod(&mut app, Vec::new());
    assert_eq!(app.status, "No mod is selected.");
    app.mods.push(release("a", "Alpha", "x"));
    request_delete_selected_mod(&mut app, vec!["Default".into()]);
    let question = app.pending_action.take().unwrap();
    assert_eq!(
        confirmation_message(&app, &question),
        "Delete Alpha 1 from the library?\n\nUsed by: Default. Loadout entries are removed from every profile. The vanilla Steam tree is not touched."
    );
    assert_eq!(release_name(&app.mods, "a"), "Alpha");
    assert_eq!(release_name(&app.mods, "b"), "b");
}

#[test]
fn prompts_take_what_is_typed() {
    let mut app = test_app();
    app.screen.mode = Mode::Add;
    page_key(&mut app, Key::Char('a'));
    assert_eq!(key_focus(&app), Focus::PathPrompt);
    for c in "~/x".chars() {
        assert!(import_path_key(&mut app, Key::Char(c)).is_none());
    }
    import_path_key(&mut app, Key::Backspace);
    assert_eq!(app.import_path_input.as_deref(), Some("~/"));
    assert_eq!(import_path_key(&mut app, Key::Enter).as_deref(), Some("~/"));
    assert!(app.import_path_input.is_none());
    app.import_path_input = Some("  ".into());
    assert!(import_path_key(&mut app, Key::Enter).is_none());
    assert_eq!(app.status, "No import path was entered.");
    app.profile_name_input = Some("V".into());
    assert_eq!(key_focus(&app), Focus::NamePrompt);
    assert!(profile_name_key(&mut app, Key::Esc).is_none());
    assert_eq!(app.status, "Profile creation cancelled.");
    app.profile_name_input = Some("V".into());
    assert_eq!(profile_name_key(&mut app, Key::Enter).as_deref(), Some("V"));
    profile_created(&mut app, vec![profile("o", "Other"), profile("n", "New")], "n", "New");
    assert_eq!(app.screen.profile_index, 1);
    assert_eq!(app.status, "Created and selected New. Press p to prepare it.");
}

#[test]
fn typed_paths_are_resolved() {
    let home = Some("/home/v".to_string());
    let here = Some("/work".to_string());
    assert_eq!(resolve_user_path(" '~/mods' ", &home, &here).unwrap(), "/home/v/mods");
    assert_eq!(resolve_user_path("~", &home, &here).unwrap(), "/home/v");
    assert_eq!(resolve_user_path("a.zip", &home, &here).unwrap(), "/work/a.zip");
    assert_eq!(resolve_user_path("\"/x\"", &None, &None).unwrap(), "/x");
    assert_eq!(
        resolve_user_path("~/a", &None, &here).unwrap_err(),
        UserPathError::NoHome
    );
    assert_eq!(
        resolve_user_path("a", &home, &None).unwrap_err(),
        UserPathError::NoCurrentDir
    );
}

#[test]
fn help_overlay_lists_three_modes() {
    let mut app = test_app();
    app.screen.help_open = true;
    let text = help_lines(&app).join("\n");
    assert!(text.contains("1 Loadout"));
    assert!(text.contains("ISSUE flags"));
    assert!(text.contains("t cycle theme"));
}

#[test]
fn help_is_closed_by_its_keys() {
    let mut app = test_app();
    page_key(&mut app, Key::Char('?'));
    assert_eq!(key_focus(&app), Focus::Help);
    assert_eq!(help_key(&mut app, Key::Char('x')), Command::Stay);
    assert!(app.screen.help_open);
    assert_eq!(help_key(&mut app, Key::Char('q')), Command::Quit);
    assert_eq!(help_key(&mut app, Key::Esc), Command::Stay);
    assert!(!app.screen.help_open);
    let lines = help_lines(&app);
    assert_eq!(lines[0], "1 Loadout   2 Add   3 Runtime   q quit");
    assert!(lines[5].starts_with("ISSUE flags"));
    assert!(lines[10].starts_with("t cycle theme"));
    assert_eq!(lines[12], format!("Active theme: {}", app.theme.name));
}

#[test]
fn themes_are_cycled_through() {
    let mut app = test_app();
    let names: Vec<String> = presets().into_iter().map(|theme| theme.name).collect();
    for step in 1..=names.len() {
        assert_eq!(page_key(&mut app, Key::Char('t')), Command::SaveTheme);
        assert_eq!(app.theme.name, names[step % names.len()]);
    }
}

#[test]
fn conflicts_are_filtered_by_the_highlighted_mod() {
    let mut app = test_app();
    assert_eq!(visible_conflicts(&app).len(), 1);
    app.mods.push(release("b", "Beta", "y"));
    assert!(visible_conflicts(&app).is_empty());
    assert_eq!(
        no_conflicts_text(&app),
        "No collisions for the highlighted mod. Press c to show all."
    );
    assert_eq!(
        conflicts_title(&app),
        " FILE CONFLICTS // 0 FOR MOD // SHIFT-C ALL // C BACK "
    );
    app.mods.push(release("a", "Alpha", "x"));
    app.screen.loadout_index = 1;
    app.conflicts[0].1.push("b".into());
    app.conflicts[0].1.push("gone".into());
    assert_eq!(conflict_rows(&app), vec![vec!["archive/mod.archive", "Alpha > Beta > gone"]]);
    app.screen.show_all_conflicts = true;
    assert_eq!(
        conflicts_title(&app),
        " FILE CONFLICTS // 1 ALL // SHIFT-C FILTER // C BACK "
    );
    assert_eq!(
        mods_title(&app),
        " MODS // 1 CLASHES // SPACE TOGGLE // D DELETE // C CONFLICTS "
    );
}

#[test]
fn the_inbox_marks_what_was_imported() {
    let mut app = test_app();
    assert_eq!(inbox_title(&app), " INBOX /tmp/mods ");
    app.import_candidates.push(ImportCandidate {
        path: "/tmp/mods/a.zip".into(),
        kind: CandidateKind::Archive,
    });
    app.import_candidates.push(ImportCandidate {
        path: "/tmp/mods/b".into(),
        kind: CandidateKind::Directory,
    });
    let sources = vec!["/real/a.zip".to_string()];
    let rows = candidate_rows(&app, &sources, &vec!["/real//a.zip".to_string()]);
    assert_eq!(rows[0], vec!["IMPORTED", "a.zip", "archive", "/tmp/mods/a.zip"]);
    assert_eq!(rows[1], vec!["NEW", "b", "directory", "/tmp/mods/b"]);
    assert_eq!(find_source(&sources, "/real/./a.zip"), Some(0));
    assert_eq!(
        inbox_title(&app),
        " INBOX /tmp/mods // ENTER/I IMPORT // A OTHER PATH // R RESCAN "
    );
}

#[test]
fn lists_say_what_they_hold() {
    let mut app = test_app();
    assert_eq!(sidebar_head(&app), "● none");
    assert_eq!(status_title(&app), " STATUS // none ");
    assert_eq!(
        profile_detail_lines(&app),
        vec!["No profile selected. Press n to create one."]
    );
    app.profiles.push(profile("p", "Default"));
    app.profiles.push(profile("q", "Other"));
    app.prepared_profiles.push("q".into());
    app.save_sets.push((
        "q".into(),
        SaveSet { id: "s".into(), name: "Shared".into(), created_at: NOW },
    ));
    let lines = profile_lines(&app);
    assert_eq!(
        lines[0],
        "● Default  [NEEDS PREP]  saves=private  build=20770477  runner=UMU-Proton"
    );
    assert_eq!(
        lines[1],
        "○ Other  [PREPARED]  saves=Shared  build=20770477  runner=UMU-Proton"
    );
    assert_eq!(profile_detail_lines(&app)[0], "Default  [NEEDS PREP]");
    app.backups.push("/b/1.tar.zst".into());
    app.backups.push("/".into());
    assert_eq!(backup_lines(&app), vec!["1.tar.zst", "/"]);
    assert_eq!(sidebar_head(&app), "● Default");
    assert_eq!(sidebar_footer(&app, 15)[2], "? help  L");
    assert_eq!(sidebar_footer(&app, 16)[2], "L launch");
    let header = loadout_header(&app, &[sample_game()]);
    assert_eq!(
        header[0],
        format!(
            "LOADOUT  0 active / 0 blocked / 1 conflicts   CORE 0/{}   WARN 2",
            framework_rows(&app).len()
        )
    );
    assert_eq!(header[1], "Install native Steam.");
    assert!(frameworks_title(&app).starts_with(" CORE FRAMEWORKS // 0 / "));
    let checks = check_rows(&app);
    assert_eq!(checks[0], vec!["WARN", "Steam", "missing", "Install native Steam."]);
    assert_eq!(checks[1][2], "Isolated runtime needs preparation");
    assert_eq!(checks[2], vec!["OK", "Dependencies", "All requested mods can be enabled", ""]);
    assert_eq!(checks[3][0], "INFO");
    assert_eq!(checks[3][2], "1 exact-path conflict(s)");
}

#[test]
fn frameworks_show_what_they_need() {
    let rows = framework_rows(&test_app());
    assert!(rows.iter().all(|row| row[0] == "AVAILABLE"));
    let archivexl = rows.iter().find(|row| row[1] == "ArchiveXL").unwrap();
    assert!(archivexl[2].contains("red4ext"));
    assert!(rows.iter().any(|row| row[2] == "—"));
}

#[test]
fn the_sidebar_marks_the_page() {
    let mut app = test_app();
    assert_eq!(nav_label(Mode::Loadout, &app, false), " 1 Loadout");
    app.screen.pane = Pane::Sidebar;
    assert_eq!(nav_label(Mode::Loadout, &app, true), "▶1 Load");
    assert_eq!(nav_label(Mode::Add, &app, false), " 2 Add");
    assert_eq!(nav_gap("▶1 Load", "12", 20), 11);
    assert_eq!(nav_gap("▶1 Load", "12", 5), 1);
    assert_eq!(list_highlight(&app, Pane::Primary), "  ");
    assert_eq!(list_highlight(&app, Pane::Sidebar), "▶ ");
    assert_eq!(runtime_parts(70, Pane::Secondary), RuntimeParts::Both);
    assert_eq!(runtime_parts(69, Pane::Secondary), RuntimeParts::Detail);
    assert_eq!(runtime_parts(69, Pane::Primary), RuntimeParts::Profiles);
}

#[test]
fn dialogs_stand_in_the_middle() {
    let outer = Area { x: 0, y: 0, width: 120, height: 36 };
    assert_eq!(confirmation_area(outer), Area { x: 17, y: 13, width: 86, height: 10 });
    assert_eq!(prompt_area(outer), Area { x: 12, y: 15, width: 96, height: 5 });
    assert_eq!(centered(outer, 78, 20), Area { x: 21, y: 8, width: 78, height: 20 });
    let small = Area { x: 3, y: 4, width: 1, height: 1 };
    assert_eq!(centered(small, 78, 20), Area { x: 3, y: 4, width: 1, height: 1 });
    assert_eq!(prompt_cursor(prompt_area(outer), "abc"), (16, 16));
    assert_eq!(sidebar_width(99), 16);
    assert_eq!(sidebar_width(100), 22);
    assert_eq!(core_height(10), 8);
    assert_eq!(core_height(18), 10);
    assert_eq!(core_height(60), 12);
}

#[test]
fn messages_name_what_was_done() {
    assert_eq!(messages::failed("Restore failed", "no space"), "Restore failed: no space");
    assert_eq!(
        messages::shared("A", "B", "Set", &Some("/d".to_string())),
        "A and B now use 'Set'. Previous target state: /d"
    );
    assert_eq!(messages::shared("A", "B", "Set", &None), "A and B now use 'Set'.");
    assert_eq!(
        messages::saves_imported(2, "A", &None),
        "Imported 2 Steam save slot(s) into A. Backup: not needed"
    );
    assert_eq!(
        messages::saves_exported(2, "A", &Some("/b".to_string())),
        "Exported 2 save slot(s) from A to Steam. Backup: /b"
    );
    assert_eq!(
        messages::imported_and_enabled(false, "Alpha", "A"),
        "Found existing Alpha and enabled it in A."
    );
    assert_eq!(messages::priority_changed("Alpha", -10), "Alpha priority is now -10.");
    assert_eq!(messages::removed(2, "Alpha 1"), "Removed 2 release(s): Alpha 1.");
}
