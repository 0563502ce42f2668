use facl_rs::app::{
    screen, Action, App, ConfirmAction, Dialog, Focus, InputTarget, ListFilter, Outcome, Pending, SaveStage,
    Screen, StatusLevel,
};
use facl_rs::backend::{parse_getfacl, AclHandle};
use facl_rs::cli::{Cli, MaskPolicy};
use facl_rs::event::{AppEvent, KeyCode, KeyEvent};
use facl_rs::model::{Acl, AclEntry, EntryKind, ObjectInfo, Permissions, Scope};

fn p(s: &str) -> Permissions {
    Permissions::from_perm_string(s).unwrap()
}

fn object(path: &str, is_directory: bool) -> ObjectInfo {
    ObjectInfo {
        path: path.to_string(),
        file_type: if is_directory { "directory".to_string() } else { "regular file".to_string() },
        is_directory,
        owner: "me".to_string(),
        group: "staff".to_string(),
        mode: "775".to_string(),
    }
}

fn sample_acl() -> Acl {
    Acl::new(vec![
        AclEntry::new(Scope::Access, EntryKind::Owner, None, p("rwx")),
        AclEntry::new(Scope::Access, EntryKind::NamedUser, Some("nobody".into()), p("rwx")),
        AclEntry::new(Scope::Access, EntryKind::OwningGroup, None, p("r-x")),
        AclEntry::new(Scope::Access, EntryKind::Mask, None, p("rwx")),
        AclEntry::new(Scope::Access, EntryKind::Other, None, p("r--")),
    ])
}

fn app_for(path: &str, is_directory: bool, read_only: bool, acl: Acl) -> App {
    let cli = Cli { path: path.to_string(), read_only, mask: MaskPolicy::Auto };
    let handle = AclHandle { object: object(path, is_directory), acl };
    App::new(cli, handle, Some(1000), Some(1000))
}

/// An app on a directory carrying an extended ACL (a named user plus a mask).
fn test_app() -> App {
    app_for("/tmp/facl_rs_app_test", true, false, sample_acl())
}

fn key(code: KeyCode) -> AppEvent {
    AppEvent::Key(KeyEvent::new(code))
}

fn add_state(app: &App) -> (usize, bool, String, bool, bool, bool) {
    match &app.dialog {
        Some(Dialog::Add(ad)) => (ad.cursor, ad.is_user, ad.name.clone(), ad.read, ad.write, ad.execute),
        other => panic!("expected the Add dialog, got {other:?}"),
    }
}

/// Performs the save chain the way the terminal loop does, with the object's
/// ACL written as `setfacl` text and read back.
fn run_save(app: &mut App, first: Action) -> Vec<String> {
    let mut seen = Vec::new();
    let mut action = first;
    let mut written: Option<String> = None;
    loop {
        action = match action {
            Action::Nothing => break,
            Action::Backup { path, .. } => {
                seen.push("backup".to_string());
                app.resume(Outcome::BackedUp(Ok(format!("/cache{path}.acl.bak"))))
            }
            Action::Chown { .. } => {
                seen.push("chown".to_string());
                app.resume(Outcome::Ran(Ok(())))
            }
            Action::WriteAcl { acl, .. } => {
                seen.push("write".to_string());
                written = Some(acl.to_setfacl_text());
                app.resume(Outcome::Ran(Ok(())))
            }
            Action::Read { path } => {
                seen.push("read".to_string());
                let acl = parse_getfacl(written.as_deref().unwrap()).unwrap();
                let mut o = object(&path, true);
                o.owner = app.owner.clone();
                o.group = app.group.clone();
                app.resume(Outcome::Loaded(Ok(AclHandle { object: o, acl })))
            }
            other => panic!("unexpected action {other:?}"),
        };
    }
    seen
}

#[test]
fn new_loads_entries_unmodified() {
    let app = test_app();
    assert!(app.working.in_scope(Scope::Access).len() >= 5);
    assert!(app.working.mask(Scope::Access).is_some());
    assert!(!app.is_modified());
    assert_eq!(app.screen, Screen::Editor);
    assert_eq!(app.selected, 0);
}

#[test]
fn down_selects_next_and_space_marks_modified() {
    let mut app = test_app();
    app.handle_event(key(KeyCode::Down));
    assert_eq!(app.selected, 1);
    app.handle_event(key(KeyCode::Char(' ')));
    assert!(app.is_modified());
}

#[test]
fn f_cycles_the_list_filter() {
    let mut app = test_app();
    assert_eq!(app.list_filter, ListFilter::All);
    app.handle_event(key(KeyCode::Char('f')));
    assert_eq!(app.list_filter, ListFilter::Access);
}

#[test]
fn a_opens_the_add_dialog() {
    let mut app = test_app();
    app.handle_event(key(KeyCode::Char('a')));
    assert!(matches!(app.dialog, Some(Dialog::Add(_))));
}

#[test]
fn p_toggles_preview_then_back() {
    let mut app = test_app();
    app.handle_event(key(KeyCode::Char('p')));
    assert_eq!(app.screen, Screen::Preview);
    app.handle_event(key(KeyCode::Char('q')));
    assert_eq!(app.screen, Screen::Editor);
}

#[test]
fn preview_reports_diff_after_an_edit() {
    let mut app = test_app();
    app.handle_event(key(KeyCode::Char(' ')));
    let preview = app.build_preview().join("\n");
    assert!(preview.contains('+') && preview.contains('-'), "preview: {preview}");
}

#[test]
fn save_then_reopen_persists_change() {
    let mut app = test_app();
    app.handle_event(key(KeyCode::Char(' ')));
    assert!(app.is_modified());
    let first = app.try_save();
    let steps = run_save(&mut app, first);
    assert_eq!(steps, vec!["backup", "write", "read"]);
    assert!(!app.is_modified(), "should be clean after save");
    assert_eq!(app.working.entries()[0].permissions, p("-wx"));
    assert!(app.backup_path.is_some());
    assert_eq!(app.status.level, StatusLevel::Success);
    assert_eq!(app.status.message, "saved (backup at /cache/tmp/facl_rs_app_test.acl.bak)");
}

#[test]
fn add_dialog_arrows_navigate_and_space_toggles() {
    let mut app = test_app();
    app.handle_event(key(KeyCode::Char('a')));
    // Starts on Scope (cursor 0), default to a named user with read on.
    assert_eq!(add_state(&app), (0, true, String::new(), true, false, false));
    app.handle_event(key(KeyCode::Right)); // -> Type
    app.handle_event(key(KeyCode::Char(' '))); // is_user -> false
    app.handle_event(key(KeyCode::Down)); // -> Name
    app.handle_event(key(KeyCode::Char('b')));
    app.handle_event(key(KeyCode::Char('a')));
    app.handle_event(key(KeyCode::Char('c')));
    app.handle_event(key(KeyCode::Down)); // -> Read
    app.handle_event(key(KeyCode::Char(' '))); // read -> false
    app.handle_event(key(KeyCode::Right)); // -> Write
    app.handle_event(key(KeyCode::Char(' '))); // write -> true
    assert_eq!(add_state(&app), (4, false, "bac".to_string(), false, true, false));
}

#[test]
fn add_dialog_navigation_wraps_around() {
    let mut app = test_app();
    app.handle_event(key(KeyCode::Char('a')));
    // Walk to the last field (Execute, cursor 5).
    for _ in 0..5 {
        app.handle_event(key(KeyCode::Down));
    }
    assert_eq!(add_state(&app).0, 5);
    // Tab at the end wraps back to the first field (Scope, cursor 0).
    app.handle_event(key(KeyCode::Tab));
    assert_eq!(add_state(&app).0, 0);
    // BackTab at the start wraps to the last field (cursor 5).
    app.handle_event(key(KeyCode::BackTab));
    assert_eq!(add_state(&app).0, 5);
}

#[test]
fn toggle_recursive_flips_the_flag() {
    let mut app = test_app();
    assert!(!app.recursive);
    app.handle_event(key(KeyCode::Char('t')));
    assert!(app.recursive);
    app.handle_event(key(KeyCode::Char('t')));
    assert!(!app.recursive);
}

#[test]
fn toggle_recursive_is_a_noop_for_a_file() {
    let acl = parse_getfacl("user::rw-\ngroup::r--\nother::r--\n").unwrap();
    let mut app = app_for("/tmp/facl_rs_file", false, false, acl);
    assert!(!app.object.is_directory);
    app.handle_event(key(KeyCode::Char('t')));
    assert!(!app.recursive, "toggling recursive on a single file must be a no-op");
}

#[test]
fn preview_shows_recursive_mode() {
    let mut app = test_app();
    app.recursive = true;
    let preview = app.build_preview().join("\n");
    assert!(preview.contains("Recursive: yes"));
    assert!(preview.contains("setfacl --set-file=<generated-acl> -R"));
}

// ---------------------------------------------------------------------------

#[test]
fn read_only_app_refuses_edits() {
    let mut app = app_for("/tmp/ro", true, true, sample_acl());
    assert!(app.read_only);
    app.handle_event(key(KeyCode::Char(' ')));
    assert!(!app.is_modified());
    assert_eq!(app.status.level, StatusLevel::Error);
    assert_eq!(app.status.message, "read-only mode: saving is disabled");
    app.handle_event(key(KeyCode::Char('a')));
    assert!(app.dialog.is_none());
    assert_eq!(app.status.message, "read-only mode");
    assert!(matches!(app.try_save(), Action::Nothing));
}

#[test]
fn app_is_read_only_when_the_user_does_not_own_the_object() {
    let cli = Cli { path: "/etc".to_string(), read_only: false, mask: MaskPolicy::Auto };
    let handle = AclHandle { object: object("/etc", true), acl: sample_acl() };
    let app = App::new(cli, handle, Some(1000), Some(0));
    assert!(app.read_only);
    assert_eq!(app.status.message, "read-only: you do not own this object; ACL changes are not permitted");
    let cli = Cli { path: "/etc".to_string(), read_only: false, mask: MaskPolicy::Auto };
    let handle = AclHandle { object: object("/etc", true), acl: sample_acl() };
    let root = App::new(cli, handle, Some(0), Some(1));
    assert!(!root.read_only);
    assert_eq!(root.status.message, "loaded");
}

#[test]
fn selection_wraps_both_ways_and_reports_effective_permission() {
    let mut app = test_app();
    app.handle_event(key(KeyCode::Up));
    assert_eq!(app.selected, 4);
    app.handle_event(key(KeyCode::Char('j')));
    assert_eq!(app.selected, 0);
    app.handle_event(key(KeyCode::Char('j')));
    assert_eq!(app.selected, 1);
    assert_eq!(app.status.message, "user:nobody  requested rwx  effective rwx");
}

#[test]
fn status_shows_the_mask_cap() {
    let acl = parse_getfacl("user::rwx\nuser:alice:rwx\ngroup::r-x\nmask::r--\nother::---\n").unwrap();
    let mut app = app_for("/d", true, false, acl);
    app.handle_event(key(KeyCode::Down));
    assert_eq!(app.status.message, "user:alice  requested rwx  effective r--  (capped by mask::r--)");
}

#[test]
fn adding_an_entry_waits_for_the_lookup() {
    let mut app = test_app();
    app.handle_event(key(KeyCode::Char('a')));
    app.handle_event(key(KeyCode::Down));
    app.handle_event(key(KeyCode::Down));
    for c in " carol ".chars() {
        app.handle_event(key(KeyCode::Char(c)));
    }
    let action = app.handle_event(key(KeyCode::Enter));
    assert!(app.dialog.is_none());
    match &action {
        Action::LookupUser(name) => assert_eq!(name, "carol"),
        other => panic!("expected a user lookup, got {other:?}"),
    }
    assert!(matches!(app.pending, Some(Pending::AddEntry(_))));
    let next = app.resume(Outcome::Lookup(Some("carol:x:1002:1002::/home/carol:/bin/sh\n".to_string())));
    assert!(matches!(next, Action::Nothing));
    assert!(app.pending.is_none());
    let carol = app.working.find(Scope::Access, EntryKind::NamedUser, Some("carol")).unwrap();
    assert_eq!(carol.permissions, p("r--"));
    assert_eq!(app.status.message, "added carol");
    assert_eq!(app.selected_entry().unwrap().identity.as_deref(), Some("carol"));
}

#[test]
fn adding_an_unknown_identity_changes_nothing() {
    let mut app = test_app();
    app.handle_event(key(KeyCode::Char('a')));
    app.handle_event(key(KeyCode::Tab));
    app.handle_event(key(KeyCode::Tab));
    app.handle_event(key(KeyCode::Char('z')));
    let action = app.handle_event(key(KeyCode::Enter));
    assert!(matches!(action, Action::LookupUser(_)));
    app.resume(Outcome::Lookup(None));
    assert!(!app.is_modified());
    // An existing slot is not added twice either.
    app.handle_event(key(KeyCode::Char('a')));
    app.handle_event(key(KeyCode::Tab));
    app.handle_event(key(KeyCode::Tab));
    for c in "nobody".chars() {
        app.handle_event(key(KeyCode::Char(c)));
    }
    app.handle_event(key(KeyCode::Enter));
    app.resume(Outcome::Lookup(Some("nobody:x:65534:65534::/:/bin/false\n".to_string())));
    assert!(!app.is_modified());
}

#[test]
fn adding_an_empty_name_closes_the_dialog() {
    let mut app = test_app();
    app.handle_event(key(KeyCode::Char('a')));
    let action = app.handle_event(key(KeyCode::Enter));
    assert!(matches!(action, Action::Nothing));
    assert!(app.dialog.is_none());
    assert!(app.pending.is_none());
}

#[test]
fn adding_a_default_entry_widens_the_filter() {
    let mut app = test_app();
    app.handle_event(key(KeyCode::Char('f')));
    assert_eq!(app.list_filter, ListFilter::Access);
    app.handle_event(key(KeyCode::Char('a')));
    app.handle_event(key(KeyCode::Char(' '))); // scope -> Default
    app.handle_event(key(KeyCode::Down));
    app.handle_event(key(KeyCode::Down));
    app.handle_event(key(KeyCode::Char('d')));
    app.handle_event(key(KeyCode::Enter));
    app.resume(Outcome::Lookup(Some("d:x:5:5::/:/bin/sh".to_string())));
    assert_eq!(app.list_filter, ListFilter::All);
    // The new default scope gets its own mask.
    assert_eq!(app.working.mask(Scope::Default), Some(p("r--")));
}

#[test]
fn owner_change_checks_the_name() {
    let mut app = test_app();
    app.handle_event(key(KeyCode::Char('o')));
    for _ in 0..2 {
        app.handle_event(key(KeyCode::Backspace));
    }
    let action = app.handle_event(key(KeyCode::Enter));
    // The value "" is refused before any lookup.
    assert!(matches!(action, Action::Nothing));
    match &app.dialog {
        Some(Dialog::Input(d)) => assert_eq!(d.error.as_deref(), Some("value is required")),
        other => panic!("expected the input dialog, got {other:?}"),
    }
    for c in "bob".chars() {
        app.handle_event(key(KeyCode::Char(c)));
    }
    let action = app.handle_event(key(KeyCode::Enter));
    assert!(matches!(action, Action::LookupUser(ref n) if n == "bob"));
    app.resume(Outcome::Lookup(None));
    match &app.dialog {
        Some(Dialog::Input(d)) => assert_eq!(d.error.as_deref(), Some("no user 'bob'")),
        other => panic!("expected the input dialog, got {other:?}"),
    }
    app.handle_event(key(KeyCode::Enter));
    app.resume(Outcome::Lookup(Some("bob:x:1001:1001::/:/bin/sh\n".to_string())));
    assert!(app.dialog.is_none());
    assert_eq!(app.owner, "bob");
    assert_eq!(app.status.message, "owner updated (pending)");
    assert!(app.is_modified());
}

#[test]
fn save_with_an_ownership_change_runs_chown_first() {
    let mut app = test_app();
    app.group = "wheel".to_string();
    let first = app.try_save();
    let steps = run_save(&mut app, first);
    assert_eq!(steps, vec!["backup", "chown", "write", "read"]);
    assert_eq!(app.original_group, "wheel");
    assert!(!app.is_modified());
}

#[test]
fn chown_action_carries_only_what_changed() {
    let mut app = test_app();
    app.group = "wheel".to_string();
    let first = app.try_save();
    assert!(matches!(first, Action::Backup { recursive: false, .. }));
    match app.resume(Outcome::BackedUp(Ok("/b".to_string()))) {
        Action::Chown { owner, group, .. } => {
            assert_eq!(owner, None);
            assert_eq!(group.as_deref(), Some("wheel"));
        }
        other => panic!("expected chown, got {other:?}"),
    }
    match &app.pending {
        Some(Pending::Save(s)) => assert_eq!(s.stage, SaveStage::Chown),
        _ => panic!("expected a save in progress"),
    }
}

#[test]
fn failed_save_keeps_the_edits() {
    let mut app = test_app();
    app.handle_event(key(KeyCode::Char(' ')));
    let first = app.try_save();
    assert!(matches!(first, Action::Backup { .. }));
    let next = app.resume(Outcome::BackedUp(Err("disk full".to_string())));
    assert!(matches!(next, Action::Nothing));
    assert!(app.is_modified());
    assert_eq!(app.status.level, StatusLevel::Error);
    assert_eq!(app.status.message, "save failed: disk full");
}

#[test]
fn save_without_changes_does_nothing() {
    let mut app = test_app();
    assert!(matches!(app.try_save(), Action::Nothing));
    assert_eq!(app.status.message, "no pending changes");
}

#[test]
fn recursive_save_asks_first() {
    let mut app = test_app();
    app.handle_event(key(KeyCode::Char(' ')));
    app.handle_event(key(KeyCode::Char('t')));
    let action = app.handle_event(key(KeyCode::Char('S')));
    assert!(matches!(action, Action::Nothing));
    match &app.dialog {
        Some(Dialog::Confirm(c)) => {
            assert_eq!(c.title, "Apply recursively");
            assert_eq!(
                c.body,
                "Apply the ACL to every descendant of /tmp/facl_rs_app_test?\nThis modifies many objects at once."
            );
            assert_eq!(c.choices.len(), 2);
        }
        other => panic!("expected a confirmation, got {other:?}"),
    }
    let action = app.handle_event(key(KeyCode::Char('y')));
    assert!(matches!(action, Action::Backup { recursive: true, .. }));
}

#[test]
fn quitting_with_changes_asks_and_can_discard() {
    let mut app = test_app();
    app.handle_event(key(KeyCode::Char(' ')));
    app.handle_event(key(KeyCode::Char('q')));
    assert!(app.running);
    match &app.dialog {
        Some(Dialog::Confirm(c)) => {
            assert_eq!(c.title, "Unsaved ACL changes");
            assert_eq!(c.choices[0].action, ConfirmAction::SaveAndQuit);
        }
        other => panic!("expected a confirmation, got {other:?}"),
    }
    app.handle_event(key(KeyCode::Down));
    app.handle_event(key(KeyCode::Enter));
    assert!(!app.running);
}

#[test]
fn quitting_without_changes_stops_at_once() {
    let mut app = test_app();
    app.handle_event(key(KeyCode::Char('q')));
    assert!(!app.running);
}

#[test]
fn save_and_quit_stops_even_when_the_save_fails() {
    let mut app = test_app();
    app.handle_event(key(KeyCode::Char(' ')));
    app.handle_event(key(KeyCode::Char('q')));
    let action = app.handle_event(key(KeyCode::Char('s')));
    assert!(matches!(action, Action::Backup { .. }));
    assert!(app.running);
    app.resume(Outcome::BackedUp(Err("no space".to_string())));
    assert!(!app.running);
}

#[test]
fn delete_asks_then_removes_the_entry_and_its_mask() {
    let mut app = test_app();
    app.handle_event(key(KeyCode::Down));
    app.handle_event(key(KeyCode::Char('d')));
    match &app.dialog {
        Some(Dialog::Confirm(c)) => assert_eq!(c.body, "Delete user:nobody? This is pending until you save."),
        other => panic!("expected a confirmation, got {other:?}"),
    }
    app.handle_event(key(KeyCode::Enter));
    assert!(app.working.find(Scope::Access, EntryKind::NamedUser, Some("nobody")).is_none());
    assert!(app.working.mask(Scope::Access).is_none());
    assert_eq!(app.status.message, "deleted user:nobody (pending)");
    assert_eq!(app.working.len(), 3);
}

#[test]
fn base_entries_cannot_be_deleted() {
    let mut app = test_app();
    app.handle_event(key(KeyCode::Char('d')));
    assert!(app.dialog.is_none());
    assert_eq!(app.status.message, "only named user/group entries can be deleted");
}

#[test]
fn identity_edit_renames_the_entry() {
    let mut app = test_app();
    app.handle_event(key(KeyCode::Down));
    app.handle_event(key(KeyCode::Char('e')));
    match &app.dialog {
        Some(Dialog::Input(d)) => {
            assert_eq!(d.title, "Edit user:nobody");
            assert_eq!(d.value, "nobody");
            assert!(matches!(d.target, InputTarget::Identity(Scope::Access, EntryKind::NamedUser, _)));
        }
        other => panic!("expected the input dialog, got {other:?}"),
    }
    for _ in 0.."nobody".len() {
        app.handle_event(key(KeyCode::Backspace));
    }
    for c in "dave".chars() {
        app.handle_event(key(KeyCode::Char(c)));
    }
    let action = app.handle_event(key(KeyCode::Enter));
    assert!(matches!(action, Action::LookupUser(ref n) if n == "dave"));
    app.resume(Outcome::Lookup(Some("dave:x:1003:1003::/:/bin/sh".to_string())));
    assert!(app.dialog.is_none());
    assert!(app.working.find(Scope::Access, EntryKind::NamedUser, Some("dave")).is_some());
    assert!(app.working.find(Scope::Access, EntryKind::NamedUser, Some("nobody")).is_none());
    assert_eq!(app.status.message, "identity updated (pending)");
}

#[test]
fn jump_to_mask_selects_the_mask() {
    let mut app = test_app();
    app.handle_event(key(KeyCode::Char('m')));
    assert_eq!(app.selected, 3);
    assert_eq!(app.status.message, "mask::rwx (Access)");
    let acl = parse_getfacl("user::rw-\ngroup::r--\nother::r--\n").unwrap();
    let mut plain = app_for("/f", false, false, acl);
    plain.handle_event(key(KeyCode::Char('m')));
    assert_eq!(plain.status.message, "no mask entry in this scope (no named entries)");
}

#[test]
fn permission_cursor_stays_on_the_three_bits() {
    let mut app = test_app();
    app.handle_event(key(KeyCode::Left));
    assert_eq!(app.perm_cursor, 0);
    for _ in 0..5 {
        app.handle_event(key(KeyCode::Right));
    }
    assert_eq!(app.perm_cursor, 2);
    app.handle_event(key(KeyCode::Char(' ')));
    assert_eq!(app.working.entries()[0].permissions, p("rw-"));
    assert!(app.is_well_formed());
    app.handle_event(key(KeyCode::Tab));
    assert_eq!(app.focus, Focus::Editor);
    app.handle_event(key(KeyCode::BackTab));
    assert_eq!(app.focus, Focus::List);
}

#[test]
fn reload_with_changes_asks_first() {
    let mut app = test_app();
    let action = app.handle_event(key(KeyCode::Char('R')));
    assert!(matches!(action, Action::Read { ref path } if path == "/tmp/facl_rs_app_test"));
    app.resume(Outcome::Loaded(Err("gone".to_string())));
    assert_eq!(app.status.message, "reload failed: gone");
    app.handle_event(key(KeyCode::Char(' ')));
    let action = app.handle_event(key(KeyCode::Char('R')));
    assert!(matches!(action, Action::Nothing));
    assert!(matches!(app.dialog, Some(Dialog::Confirm(_))));
    let action = app.handle_event(key(KeyCode::Char('y')));
    assert!(matches!(action, Action::Read { .. }));
    let handle = AclHandle { object: object("/tmp/facl_rs_app_test", true), acl: sample_acl() };
    app.resume(Outcome::Loaded(Ok(handle)));
    assert!(!app.is_modified());
    assert_eq!(app.status.message, "reloaded from filesystem");
}

#[test]
fn help_screen_opens_and_closes() {
    let mut app = test_app();
    app.handle_event(key(KeyCode::Char('?')));
    assert_eq!(app.screen, Screen::Help);
    app.handle_event(key(KeyCode::Char('x')));
    assert_eq!(app.screen, Screen::Help);
    app.handle_event(key(KeyCode::Esc));
    assert_eq!(app.screen, Screen::Editor);
    let lines = App::help_lines();
    assert_eq!(lines.len(), 27);
    assert_eq!(lines[0], "POSIX ACL Editor - key bindings");
}

#[test]
fn resize_and_tick_change_nothing() {
    let mut app = test_app();
    assert!(matches!(app.handle_event(AppEvent::Resize(80, 24)), Action::Nothing));
    assert!(matches!(app.handle_event(AppEvent::Tick), Action::Nothing));
    assert_eq!(app.selected, 0);
    assert!(!app.is_modified());
}

#[test]
fn preview_lists_every_section() {
    let mut app = test_app();
    app.handle_event(key(KeyCode::Char(' ')));
    app.owner = "bob".to_string();
    let lines = app.build_preview();
    let expected: Vec<String> = vec![
        "Preview changes: /tmp/facl_rs_app_test",
        "",
        "Ownership:",
        "  owner:  me -> bob",
        "",
        "Access ACL:",
        "  - user::rwx",
        "  + user::-wx",
        "",
        "Default ACL:",
        "  unchanged",
        "",
        "Mask policy: auto (recalculate)",
        "Recursive: no (this object only)",
        "",
        "Command-equivalent:",
        "  setfacl --set-file=<generated-acl> -- /tmp/facl_rs_app_test",
        "  chown bob -- /tmp/facl_rs_app_test",
    ]
    .into_iter()
    .map(String::from)
    .collect();
    assert_eq!(lines, expected);
    assert_eq!(app.chown_spec(), "bob");
}

#[test]
fn mask_warnings_name_capped_entries() {
    let acl = parse_getfacl("user::rwx\nuser:alice:rwx\ngroup::r-x\nmask::r--\nother::---\n").unwrap();
    let app = app_for("/d", true, false, acl);
    assert_eq!(
        app.mask_warnings(),
        vec![
            "Access user:alice: requested rwx exceeds mask::r--".to_string(),
            "Access owning-group: requested r-x exceeds mask::r--".to_string(),
        ]
    );
    let preview = app.build_preview();
    assert!(preview.contains(&"Mask warnings:".to_string()));
    assert!(preview.contains(&"  ! Access user:alice: requested rwx exceeds mask::r--".to_string()));
}

#[test]
fn save_recalculates_the_mask_under_auto() {
    let acl = parse_getfacl("user::rwx\nuser:alice:rwx\ngroup::r-x\nmask::r--\nother::---\n").unwrap();
    let app = app_for("/d", true, false, acl);
    let saved = app.build_save_acl();
    assert_eq!(saved.mask(Scope::Access), Some(p("rwx")));
    let cli = Cli { path: "/d".to_string(), read_only: false, mask: MaskPolicy::Preserve };
    let acl = parse_getfacl("user::rwx\nuser:alice:rwx\ngroup::r-x\nmask::r--\nother::---\n").unwrap();
    let handle = AclHandle { object: object("/d", true), acl };
    let keep = App::new(cli, handle, Some(0), None);
    assert_eq!(keep.build_save_acl().mask(Scope::Access), Some(p("r--")));
}

#[test]
fn preview_of_an_unmodified_object_shows_no_change() {
    let app = test_app();
    let lines = app.build_preview();
    assert_eq!(lines[2], "Ownership:");
    assert_eq!(lines[3], "  unchanged");
    assert_eq!(lines[6], "  unchanged");
    assert_eq!(lines[9], "  unchanged");
    assert!(!lines.iter().any(|l| l.starts_with("  chown")));
}

#[test]
fn every_save_starts_with_a_backup() {
    let mut app = test_app();
    app.handle_event(key(KeyCode::Char(' ')));
    app.owner = "bob".to_string();
    let first = app.handle_event(key(KeyCode::Char('S')));
    assert!(matches!(first, Action::Backup { .. }));
    match &app.pending {
        Some(Pending::Save(s)) => {
            assert_eq!(s.stage, SaveStage::Backup);
            assert!(s.backup.is_none());
            assert_eq!(s.owner.as_deref(), Some("bob"));
            assert_eq!(s.group, None);
        }
        _ => panic!("expected a save in progress"),
    }
    // An outcome of the wrong kind drops the save instead of writing.
    let next = app.resume(Outcome::Ran(Ok(())));
    assert!(matches!(next, Action::Nothing));
    assert!(app.pending.is_none());
    assert!(app.is_modified());
}

#[test]
fn entries_equal_to_the_mask_get_no_warning() {
    let acl = parse_getfacl("user::rwx\nuser:alice:r--\ngroup::r--\nmask::r--\nother::---\n").unwrap();
    let app = app_for("/d", true, false, acl);
    assert!(app.mask_warnings().is_empty());
}

#[test]
fn header_marks_follow_the_state() {
    let mut app = test_app();
    assert_eq!(app.title_marks(), (false, false));
    assert_eq!(app.recursive_mark().as_deref(), Some("   [ ] recursive (t)"));
    app.handle_event(key(KeyCode::Char('t')));
    assert_eq!(app.recursive_mark().as_deref(), Some("   [x] recursive (t)"));
    app.handle_event(key(KeyCode::Char(' ')));
    assert_eq!(app.title_marks(), (true, false));
    let file = app_for("/tmp/facl_rs_file", false, true, sample_acl());
    assert_eq!(file.recursive_mark(), None);
    assert_eq!(file.title_marks(), (false, true));
}

#[test]
fn add_dialog_offers_default_only_on_a_directory() {
    let mut app = test_app();
    app.handle_event(key(KeyCode::Char('a')));
    match &app.dialog {
        Some(Dialog::Add(ad)) => {
            assert_eq!(screen::scope_radios(ad), vec!["(*) Access  ".to_string(), "( ) Default  ".to_string()]);
            assert!(screen::add_field_active(ad, 0));
            assert!(!screen::add_field_active(ad, 2));
        }
        other => panic!("expected the Add dialog, got {other:?}"),
    }
    let mut file = app_for("/tmp/facl_rs_file", false, false, sample_acl());
    file.handle_event(key(KeyCode::Char('a')));
    match &file.dialog {
        Some(Dialog::Add(ad)) => assert_eq!(screen::scope_radios(ad), vec!["(*) Access  ".to_string()]),
        other => panic!("expected the Add dialog, got {other:?}"),
    }
}

#[test]
fn confirmation_lines_mark_the_cursor() {
    let mut app = test_app();
    app.handle_event(key(KeyCode::Char(' ')));
    app.handle_event(key(KeyCode::Char('q')));
    app.handle_event(key(KeyCode::Down));
    match &app.dialog {
        Some(Dialog::Confirm(c)) => assert_eq!(
            screen::choice_lines(c),
            vec![
                "  (s) Save and quit".to_string(),
                "> (d) Discard and quit".to_string(),
                "  (c) Return to editor".to_string(),
            ]
        ),
        other => panic!("expected a confirmation, got {other:?}"),
    }
}
