//! What holds of the editor across keys and outcomes.
use vstd::prelude::*;

use super::dispatch::{editor_key_spec, key_spec};
use super::effects::{added, changed, reloaded, resume_spec, save_acl_view, start_save_spec};
use super::keys::{
    bit_at, confirm_delete_spec, cycle_filter_spec, delete_selected_spec, edit_identity_spec,
    jump_to_mask_spec, toggle_perm_spec,
};
use super::preview::{diff_lines, diff_slots, ownership_lines, scope_diff_view, slot_lines};
use super::{
    app_wf, lemma_visible, modified, selected_by, selected_position, visible_positions, ActionView,
    AppView, DialogView, HandleView, ListFilter, OutcomeView, PendingView, SaveStage, Screen,
};
use crate::backend::posix_acl::{entry_wf, lemma_written_acl_reads_back, spec_parse_getfacl};
use crate::backend::ParseErrorKind;
use crate::event::{KeyCode, KeyEvent};
use crate::model::acl::{
    has_mask, has_named, is_mask_of, is_sorted, normalize_step, normalize_view, setfacl_text,
};
use crate::model::entry::kind_is_named;
use crate::model::permissions::{lemma_toggle_involution, toggled};
use crate::model::{EntryKind, EntryView, Scope};

verus! {

/// Once the object has been read again, nothing is pending: the working ACL
/// and ownership are those on disk.
pub proof fn lemma_reload_leaves_nothing_pending(v: AppView, h: HandleView)
    ensures
        !modified(reloaded(v, h)),
        reloaded(v, h).working == h.acl,
        reloaded(v, h).object == h.object,
{
}

/// `q` in the editor quits at once when nothing is pending; with unsaved
/// changes it keeps running and asks first.
pub proof fn lemma_quit_asks_when_modified(v: AppView)
    requires
        v.dialog is None,
        v.screen == Screen::Editor,
    ensures
        !modified(v) ==> !key_spec(v, KeyEvent { code: KeyCode::Char('q') }).0.running,
        modified(v) ==> {
            let w = key_spec(v, KeyEvent { code: KeyCode::Char('q') }).0;
            &&& w.running == v.running
            &&& w.working == v.working
            &&& w.dialog matches Some(DialogView::Confirm(c))
            &&& c.title == "Unsaved ACL changes"@
        },
{
}

/// A save writes the working ACL with the mask policy applied, changing
/// ownership first only when it changed; once the object has been read
/// again nothing is pending and the backup is recorded.
pub proof fn lemma_save_chain(v: AppView, quit_after: bool, b: Seq<char>, h: HandleView)
    ensures
        ({
            let (v1, a1) = start_save_spec(v, quit_after);
            let (v2, a2) = resume_spec(v1, OutcomeView::BackedUp(Ok(b)));
            let write = ActionView::WriteAcl {
                path: v.object.path,
                acl: save_acl_view(v.working, v.mask_policy),
                recursive: v.recursive,
            };
            let owner = changed(v.owner, v.original_owner);
            let group = changed(v.group, v.original_group);
            &&& a1 == ActionView::Backup { path: v.object.path, recursive: v.recursive }
            &&& (owner is None && group is None) ==> a2 == write
            &&& (owner is Some || group is Some) ==> {
                &&& a2 == ActionView::Chown { path: v.object.path, owner, group, recursive: v.recursive }
                &&& resume_spec(v2, OutcomeView::Ran(Ok(()))).1 == write
            }
        }),
        ({
            let v1 = start_save_spec(v, quit_after).0;
            let s = match v1.pending {
                Some(PendingView::Save(s)) => s,
                _ => arbitrary(),
            };
            let at_read = AppView {
                pending: Some(
                    PendingView::Save(
                        super::SaveView { stage: SaveStage::Read, backup: Some(b), ..s },
                    ),
                ),
                ..v
            };
            let (v4, a4) = resume_spec(at_read, OutcomeView::Loaded(Ok(h)));
            &&& a4 == ActionView::Nothing
            &&& !modified(v4)
            &&& v4.pending is None
            &&& v4.backup_path == Some(b)
            &&& v4.working == h.acl
            &&& v4.running == (v.running && !quit_after)
        }),
{
}

/// A failed step of a save keeps the pending changes: the working ACL and
/// ownership stay as they were, and the failure is reported unless the app
/// quits after the save.
pub proof fn lemma_failed_save_keeps_edits(v: AppView, e: Seq<char>)
    requires
        v.pending matches Some(PendingView::Save(_)),
    ensures
        ({
            let s = match v.pending {
                Some(PendingView::Save(s)) => s,
                _ => arbitrary(),
            };
            let o = match s.stage {
                SaveStage::Backup => OutcomeView::BackedUp(Err(e)),
                SaveStage::Read => OutcomeView::Loaded(Err(e)),
                _ => OutcomeView::Ran(Err(e)),
            };
            let (w, a) = resume_spec(v, o);
            &&& a == ActionView::Nothing
            &&& w.pending is None
            &&& w.working == v.working
            &&& w.owner == v.owner
            &&& w.group == v.group
            &&& w.original == v.original
            &&& !s.quit_after ==> w.status.message == "save failed: "@ + e && w.running == v.running
            &&& s.quit_after ==> !w.running
        }),
{
}

/// An editor in read-only mode with nothing pending and no dialog open.
pub open spec fn calm_read_only(v: AppView) -> bool {
    &&& v.read_only
    &&& !modified(v)
    &&& v.dialog is None
    &&& (v.pending is None || v.pending == Some(PendingView::Reload))
}

proof fn lemma_read_only_editor(v: AppView, key: KeyEvent)
    requires
        calm_read_only(v),
    ensures
        calm_read_only(editor_key_spec(v, key).0),
        editor_key_spec(v, key).0.working == v.working,
        editor_key_spec(v, key).0.owner == v.owner,
        editor_key_spec(v, key).0.group == v.group,
        editor_key_spec(v, key).1 is Nothing || editor_key_spec(v, key).1 is Read,
{
    let c = key.code;
    if c == KeyCode::Char('j') || c == KeyCode::Down {
        assert(selected_by(v, 1).working == v.working);
    } else if c == KeyCode::Char('k') || c == KeyCode::Up {
        assert(selected_by(v, -1).working == v.working);
    } else if c == KeyCode::Char('f') {
        assert(cycle_filter_spec(v).working == v.working);
    } else if c == KeyCode::Char('m') {
        assert(jump_to_mask_spec(v).working == v.working);
    }
}

/// In read-only mode no key changes the ACL or ownership or asks for
/// anything to be written: the only outside work it hands out is reading
/// the object again.
pub proof fn lemma_read_only_never_writes(v: AppView, key: KeyEvent)
    requires
        calm_read_only(v),
        app_wf(v),
    ensures
        calm_read_only(key_spec(v, key).0),
        key_spec(v, key).0.working == v.working,
        key_spec(v, key).0.owner == v.owner,
        key_spec(v, key).0.group == v.group,
        key_spec(v, key).1 is Nothing || key_spec(v, key).1 is Read,
{
    lemma_read_only_editor(v, key);
    lemma_read_only_editor(AppView { screen: Screen::Editor, ..v }, KeyEvent { code: KeyCode::Char('S') });
}

/// In read-only mode the outcome of a read keeps the editor read-only with
/// nothing pending.
pub proof fn lemma_read_only_resume(v: AppView, o: OutcomeView)
    requires
        calm_read_only(v),
    ensures
        calm_read_only(resume_spec(v, o).0),
        resume_spec(v, o).1 is Nothing,
{
}

/// Whether each scope has a mask exactly when it has named entries: the
/// state `normalize` leaves an ACL in.
pub open spec fn masks_in_sync(s: Seq<EntryView>) -> bool {
    &&& (has_mask(s, Scope::Access) <==> has_named(s, Scope::Access))
    &&& (has_mask(s, Scope::Default) <==> has_named(s, Scope::Default))
}

/// Entries at the same positions with the same scope and kind.
pub open spec fn same_shape(a: Seq<EntryView>, b: Seq<EntryView>) -> bool {
    &&& a.len() == b.len()
    &&& forall|i: int| 0 <= i < a.len() ==> (#[trigger] a[i]).scope == b[i].scope && a[i].kind == b[i].kind
}

proof fn lemma_same_shape_facts(a: Seq<EntryView>, b: Seq<EntryView>, scope: Scope)
    requires
        same_shape(a, b),
    ensures
        has_mask(a, scope) == has_mask(b, scope),
        has_named(a, scope) == has_named(b, scope),
{
    if has_mask(a, scope) {
        let i = choose|i: int| 0 <= i < a.len() && is_mask_of(#[trigger] a[i], scope);
        assert(is_mask_of(b[i], scope));
    }
    if has_mask(b, scope) {
        let i = choose|i: int| 0 <= i < b.len() && is_mask_of(#[trigger] b[i], scope);
        assert(is_mask_of(a[i], scope));
    }
    if has_named(a, scope) {
        let i = choose|i: int| 0 <= i < a.len() && #[trigger] a[i].scope == scope && kind_is_named(a[i].kind);
        assert(b[i].scope == scope && kind_is_named(b[i].kind));
    }
    if has_named(b, scope) {
        let i = choose|i: int| 0 <= i < b.len() && #[trigger] b[i].scope == scope && kind_is_named(b[i].kind);
        assert(a[i].scope == scope && kind_is_named(a[i].kind));
    }
}

proof fn lemma_same_shape_visible(a: Seq<EntryView>, b: Seq<EntryView>, f: ListFilter)
    requires
        same_shape(a, b),
    ensures
        visible_positions(a, f) == visible_positions(b, f),
    decreases a.len(),
{
    if a.len() > 0 {
        lemma_same_shape_visible(a.drop_last(), b.drop_last(), f);
        assert(a.last().scope == b.last().scope);
    }
}

/// Space twice on the same entry gives the working ACL back and keeps the
/// selection, when the masks are in step with the named entries (as
/// `normalize` leaves them).
pub proof fn lemma_toggle_twice_restores(v: AppView)
    requires
        masks_in_sync(v.working),
    ensures
        toggle_perm_spec(toggle_perm_spec(v)).working == v.working,
        toggle_perm_spec(toggle_perm_spec(v)).selected == v.selected,
        toggle_perm_spec(toggle_perm_spec(v)).list_filter == v.list_filter,
{
    if !v.read_only {
        match selected_position(v) {
            None => {},
            Some(p) => {
                let w = v.working;
                lemma_visible(w, v.list_filter);
                let e = w[p];
                let w1 = w.update(p, EntryView { permissions: toggled(e.permissions, bit_at(v.perm_cursor)), ..e });
                assert(same_shape(w, w1));
                lemma_same_shape_facts(w, w1, Scope::Access);
                lemma_same_shape_facts(w, w1, Scope::Default);
                assert(normalize_step(w1, Scope::Access) == w1);
                assert(normalize_step(w1, Scope::Default) == w1);
                assert(normalize_view(w1) == w1);
                lemma_same_shape_visible(w, w1, v.list_filter);
                let v1 = toggle_perm_spec(v);
                assert(v1.working == w1);
                assert(selected_position(v1) == Some(p));
                lemma_toggle_involution(e.permissions, bit_at(v.perm_cursor));
                let w2 = w1.update(p, EntryView { permissions: toggled(w1[p].permissions, bit_at(v.perm_cursor)), ..w1[p] });
                assert(w2 =~= w);
                assert(normalize_step(w, Scope::Access) == w);
                assert(normalize_step(w, Scope::Default) == w);
            },
        }
    }
}

proof fn lemma_diff_lines_same(o: Seq<EntryView>, scope: Scope, slots: Seq<(EntryKind, Option<Seq<char>>)>)
    ensures
        diff_lines(o, o, scope, slots) == Seq::<Seq<char>>::empty(),
    decreases slots.len(),
{
    if slots.len() > 0 {
        lemma_diff_lines_same(o, scope, slots.drop_last());
        assert(slot_lines(o, o, scope, slots.last()) == Seq::<Seq<char>>::empty());
        assert(Seq::<Seq<char>>::empty() + Seq::<Seq<char>>::empty() =~= Seq::<Seq<char>>::empty());
    }
}

/// With nothing pending, the preview shows every scope unchanged and
/// ownership unchanged.
pub proof fn lemma_preview_clean_when_unmodified(v: AppView, scope: Scope)
    requires
        !modified(v),
    ensures
        scope_diff_view(v, scope) == seq!["unchanged"@],
        ownership_lines(v) == seq!["Ownership:"@, "  unchanged"@, Seq::<char>::empty()],
{
    lemma_diff_lines_same(v.original, scope, diff_slots(v, scope));
    assert(ownership_lines(v) =~= seq!["Ownership:"@, "  unchanged"@, Seq::<char>::empty()]);
}

/// A save in progress past its first step has its backup recorded.
pub open spec fn backed_up_before_writing(v: AppView) -> bool {
    match v.pending {
        Some(PendingView::Save(s)) => s.stage != SaveStage::Backup ==> s.backup is Some,
        _ => true,
    }
}

proof fn lemma_editor_never_writes(v: AppView, key: KeyEvent)
    requires
        backed_up_before_writing(v),
    ensures
        backed_up_before_writing(editor_key_spec(v, key).0),
        !(editor_key_spec(v, key).1 is WriteAcl),
        !(editor_key_spec(v, key).1 is Chown),
{
    let c = key.code;
    if c == KeyCode::Char('j') || c == KeyCode::Down {
        assert(selected_by(v, 1).pending == v.pending);
    } else if c == KeyCode::Char('k') || c == KeyCode::Up {
        assert(selected_by(v, -1).pending == v.pending);
    } else if c == KeyCode::Char(' ') {
        assert(toggle_perm_spec(v).pending == v.pending);
    } else if c == KeyCode::Char('f') {
        assert(cycle_filter_spec(v).pending == v.pending);
    } else if c == KeyCode::Char('m') {
        assert(jump_to_mask_spec(v).pending == v.pending);
    } else if c == KeyCode::Char('d') {
        assert(confirm_delete_spec(v).pending == v.pending);
    } else if c == KeyCode::Char('e') {
        assert(edit_identity_spec(v).pending == v.pending);
    }
}

proof fn lemma_dialog_never_writes(v: AppView, key: KeyEvent)
    requires
        backed_up_before_writing(v),
        v.dialog is Some,
    ensures
        backed_up_before_writing(key_spec(v, key).0),
        !(key_spec(v, key).1 is WriteAcl),
        !(key_spec(v, key).1 is Chown),
{
    let closed = AppView { dialog: None, ..v };
    match v.dialog {
        Some(DialogView::Confirm(c)) => {
            assert(delete_selected_spec(closed).pending == closed.pending);
        },
        _ => {},
    }
}

/// Every save backs the ACL up first: no key hands out an ownership change
/// or an ACL write.
pub proof fn lemma_keys_never_write(v: AppView, key: KeyEvent)
    requires
        backed_up_before_writing(v),
    ensures
        backed_up_before_writing(key_spec(v, key).0),
        !(key_spec(v, key).1 is WriteAcl),
        !(key_spec(v, key).1 is Chown),
{
    if v.dialog is Some {
        lemma_dialog_never_writes(v, key);
    } else {
        lemma_editor_never_writes(v, key);
        lemma_editor_never_writes(AppView { screen: Screen::Editor, ..v }, KeyEvent { code: KeyCode::Char('S') });
    }
}

/// Every save backs the ACL up first: the outcome of a step hands out an
/// ownership change or an ACL write only for a save whose backup is
/// recorded.
pub proof fn lemma_write_after_backup(v: AppView, o: OutcomeView)
    requires
        backed_up_before_writing(v),
    ensures
        backed_up_before_writing(resume_spec(v, o).0),
        (resume_spec(v, o).1 is WriteAcl || resume_spec(v, o).1 is Chown) ==> (resume_spec(v, o).0.pending matches Some(
            PendingView::Save(s),
        ) && s.backup is Some),
{
    let idle = AppView { pending: None, ..v };
    match v.pending {
        Some(PendingView::AddEntry(e)) => {
            assert(added(idle, e).pending is None);
        },
        Some(PendingView::Reload) => {
            match o {
                OutcomeView::Loaded(Ok(h)) => {
                    assert(reloaded(idle, h).pending is None);
                },
                _ => {},
            }
        },
        Some(PendingView::Save(s)) => {
            match o {
                OutcomeView::Loaded(Ok(h)) => {
                    assert(reloaded(idle, h).pending is None);
                },
                _ => {},
            }
        },
        _ => {},
    }
}

/// What a save writes, reading it back gives: the ACL a save hands to
/// `setfacl` reads back from its text unchanged, whatever the mask policy
/// (for working ACLs in canonical order with well-formed entries, as parsing
/// and editing leave them).
pub proof fn lemma_save_reads_back(v: AppView, quit_after: bool)
    requires
        is_sorted(v.working),
        forall|i: int| 0 <= i < v.working.len() ==> entry_wf(#[trigger] v.working[i]),
    ensures
        ({
            let acl = save_acl_view(v.working, v.mask_policy);
            &&& start_save_spec(v, quit_after).0.pending == Some(
                PendingView::Save(
                    super::SaveView {
                        stage: SaveStage::Backup,
                        acl,
                        owner: changed(v.owner, v.original_owner),
                        group: changed(v.group, v.original_group),
                        recursive: v.recursive,
                        quit_after,
                        backup: None,
                    },
                ),
            )
            &&& spec_parse_getfacl(setfacl_text(acl)) == Ok::<Seq<EntryView>, (ParseErrorKind, Seq<char>)>(acl)
        }),
{
    lemma_written_acl_reads_back(v.working);
}

} // verus!
