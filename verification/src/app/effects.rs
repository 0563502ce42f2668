//! Saving, reloading and quitting, and the confirmations they ask for.
//!
//! A save is a chain of outside steps (backup, ownership change, `setfacl`,
//! reading the object again); the state machine hands out one step at a time
//! as an [`Action`] and continues when its [`Outcome`] comes back.
use vstd::prelude::*;

use super::keys::{choice, delete_selected_spec, visible_index_of};
use super::{
    app_wf, clamped, modified, opt_seq, synced, with_status, Action, ActionView, App, AppView,
    ChoiceView, ConfirmAction, ConfirmDialog, ConfirmView, Dialog, DialogView, HandleView,
    InputDialog, InputTarget, InputView, ListFilter, Outcome, OutcomeView, Pending, PendingView,
    SaveStage, SaveState, SaveView, StatusLevel, TargetView,
};
use crate::backend::identity::spec_parse_line;
use crate::backend::{lookup_group, lookup_user, AclHandle};
use crate::cli::MaskPolicy;
use crate::model::acl::{auto_masks_view, first_in_slot, normalize_view, opt_str_view, sort_view};
use crate::model::entry::{copy_identity, identity_chars, kind_is_named, same_identity};
use crate::model::{Acl, AclEntry, EntryKind, EntryView, Scope};
use crate::text::{push_str, string_of, trim, trimmed};

verus! {

/// The ACL a save writes: the working ACL normalized and, under the `Auto`
/// mask policy, with the mask of each scope that has named entries set to
/// the union of its group class (access scope first, then default).
pub open spec fn save_acl_view(working: Seq<EntryView>, policy: MaskPolicy) -> Seq<EntryView> {
    if policy == MaskPolicy::Auto {
        auto_masks_view(working)
    } else {
        normalize_view(working)
    }
}

/// `new` when it differs from `old`.
pub open spec fn changed(new: Seq<char>, old: Seq<char>) -> Option<Seq<char>> {
    if new != old {
        Some(new)
    } else {
        None
    }
}

/// The first step of a save: back up the ACL of the object, remembering what
/// the later steps write.
pub open spec fn start_save_spec(v: AppView, quit_after: bool) -> (AppView, ActionView) {
    (
        AppView {
            pending: Some(
                PendingView::Save(
                    SaveView {
                        stage: SaveStage::Backup,
                        acl: save_acl_view(v.working, v.mask_policy),
                        owner: changed(v.owner, v.original_owner),
                        group: changed(v.group, v.original_group),
                        recursive: v.recursive,
                        quit_after,
                        backup: None,
                    },
                ),
            ),
            ..v
        },
        ActionView::Backup { path: v.object.path, recursive: v.recursive },
    )
}

/// The first step of a reload: read the object again.
pub open spec fn start_reload_spec(v: AppView) -> (AppView, ActionView) {
    (AppView { pending: Some(PendingView::Reload), ..v }, ActionView::Read { path: v.object.path })
}

/// The state once the object has been read again: its metadata and ACL
/// become both the baseline and the working copy, dropping pending changes.
pub open spec fn reloaded(v: AppView, h: HandleView) -> AppView {
    synced(
        clamped(
            AppView {
                object: h.object,
                original: h.acl,
                original_owner: h.object.owner,
                original_group: h.object.group,
                working: h.acl,
                owner: h.object.owner,
                group: h.object.group,
                ..v
            },
        ),
    )
}

/// `S` in the editor: refused in read-only mode, nothing to do without
/// changes, confirmed first when it applies to every descendant.
pub open spec fn try_save_spec(v: AppView) -> (AppView, ActionView) {
    if v.read_only {
        (with_status(v, StatusLevel::Error, "read-only mode: saving is disabled"@), ActionView::Nothing)
    } else if !modified(v) {
        (with_status(v, StatusLevel::Info, "no pending changes"@), ActionView::Nothing)
    } else if v.recursive {
        (
            AppView {
                dialog: Some(
                    DialogView::Confirm(
                        ConfirmView {
                            title: "Apply recursively"@,
                            body: "Apply the ACL to every descendant of "@ + v.object.path
                                + "?\nThis modifies many objects at once."@,
                            cursor: 0,
                            choices: seq![
                                ChoiceView { key: 'y', label: "Apply"@, action: ConfirmAction::Save },
                                ChoiceView { key: 'n', label: "Cancel"@, action: ConfirmAction::Cancel },
                            ],
                        },
                    ),
                ),
                ..v
            },
            ActionView::Nothing,
        )
    } else {
        start_save_spec(v, false)
    }
}

/// `R` in the editor: pending changes are only dropped after a confirmation.
pub open spec fn reload_or_confirm_spec(v: AppView) -> (AppView, ActionView) {
    if modified(v) {
        (
            AppView {
                dialog: Some(
                    DialogView::Confirm(
                        ConfirmView {
                            title: "Discard changes"@,
                            body: "Reload from the filesystem and discard pending changes?"@,
                            cursor: 0,
                            choices: seq![
                                ChoiceView { key: 'y', label: "Reload"@, action: ConfirmAction::Reload },
                                ChoiceView { key: 'c', label: "Cancel"@, action: ConfirmAction::Cancel },
                            ],
                        },
                    ),
                ),
                ..v
            },
            ActionView::Nothing,
        )
    } else {
        start_reload_spec(v)
    }
}

/// `q` in the editor: quitting with unsaved changes asks first.
pub open spec fn quit_or_confirm_spec(v: AppView) -> AppView {
    if modified(v) {
        AppView {
            dialog: Some(
                DialogView::Confirm(
                    ConfirmView {
                        title: "Unsaved ACL changes"@,
                        body: "You have unsaved changes to "@ + v.object.path + "."@,
                        cursor: 0,
                        choices: seq![
                            ChoiceView { key: 's', label: "Save and quit"@, action: ConfirmAction::SaveAndQuit },
                            ChoiceView { key: 'd', label: "Discard and quit"@, action: ConfirmAction::Quit },
                            ChoiceView { key: 'c', label: "Return to editor"@, action: ConfirmAction::Cancel },
                        ],
                    },
                ),
            ),
            ..v
        }
    } else {
        AppView { running: false, ..v }
    }
}

/// What a confirmed choice does.
pub open spec fn perform_spec(v: AppView, a: ConfirmAction) -> (AppView, ActionView) {
    match a {
        ConfirmAction::Quit => (AppView { running: false, ..v }, ActionView::Nothing),
        ConfirmAction::Save => start_save_spec(v, false),
        ConfirmAction::SaveAndQuit => start_save_spec(v, true),
        ConfirmAction::Cancel => (with_status(v, StatusLevel::Info, "cancelled"@), ActionView::Nothing),
        ConfirmAction::DeleteEntry => (delete_selected_spec(v), ActionView::Nothing),
        ConfirmAction::Reload => start_reload_spec(v),
    }
}

/// The filter widened to `All` when it would hide `scope`.
pub open spec fn widened_filter(f: ListFilter, scope: Scope) -> ListFilter {
    match f {
        ListFilter::All => f,
        ListFilter::Access => if scope == Scope::Default {
            ListFilter::All
        } else {
            f
        },
        ListFilter::Default => if scope == Scope::Access {
            ListFilter::All
        } else {
            f
        },
    }
}

/// The state once `e` is added: the entry is inserted in canonical order and
/// the masks normalized, the filter widened to show it, and the selection
/// moved onto it.
pub open spec fn added(v: AppView, e: EntryView) -> AppView {
    let w = normalize_view(sort_view(v.working.push(e)));
    let v1 = AppView { working: w, list_filter: widened_filter(v.list_filter, e.scope), ..v };
    let v2 = match first_in_slot(w, e.scope, e.kind, e.identity) {
        Some(p) => match visible_index_of(v1, p) {
            Some(k) => AppView { selected: k as usize, ..v1 },
            None => v1,
        },
        None => v1,
    };
    synced(clamped(v2))
}

/// Whether `getent` found an entry: it succeeded and printed a line that
/// reads as one.
pub open spec fn resolves(out: Option<Seq<char>>) -> bool {
    match out {
        Some(t) => spec_parse_line(t) is Some,
        None => false,
    }
}

/// Whether the value of an input dialog names an identity its target
/// accepts: an entry's identity is only looked up for named entries.
pub open spec fn found_for(target: TargetView, out: Option<Seq<char>>) -> bool {
    match target {
        TargetView::Identity(_, kind, _) => kind_is_named(kind) && resolves(out),
        _ => resolves(out),
    }
}

/// The input dialog `d` kept open with an error.
pub open spec fn input_error(v: AppView, d: InputView, m: Seq<char>) -> AppView {
    AppView { dialog: Some(DialogView::Input(InputView { error: Some(m), ..d })), ..v }
}

/// `w` with the identity of the first entry in the slot
/// `(scope, kind, current)` replaced by `value`, sorted again.
pub open spec fn renamed(
    w: Seq<EntryView>,
    scope: Scope,
    kind: EntryKind,
    current: Option<Seq<char>>,
    value: Seq<char>,
) -> Seq<EntryView> {
    match first_in_slot(w, scope, kind, current) {
        Some(p) => sort_view(w.update(p, EntryView { identity: Some(value), ..w[p] })),
        None => w,
    }
}

/// The state once the value of the open input dialog `d` has been looked up
/// (`found`): the change is made and the dialog closes, or the dialog stays
/// open with the reason.
pub open spec fn input_resolved(v: AppView, d: InputView, found: bool) -> AppView {
    let value = trim(d.value);
    match d.target {
        TargetView::Owner => if found {
            with_status(AppView { owner: value, dialog: None, ..v }, StatusLevel::Success, "owner updated (pending)"@)
        } else {
            input_error(v, d, "no user '"@ + value + "'"@)
        },
        TargetView::Group => if found {
            with_status(AppView { group: value, dialog: None, ..v }, StatusLevel::Success, "group updated (pending)"@)
        } else {
            input_error(v, d, "no group '"@ + value + "'"@)
        },
        TargetView::Identity(scope, kind, current) => if !found {
            input_error(v, d, "'"@ + value + "' not found"@)
        } else if first_in_slot(v.working, scope, kind, Some(value)) is Some && Some(value) != current {
            input_error(v, d, "entry already exists"@)
        } else {
            with_status(
                AppView { working: renamed(v.working, scope, kind, current, value), dialog: None, ..v },
                StatusLevel::Success,
                "identity updated (pending)"@,
            )
        },
    }
}

/// The characters of an optional string, empty when there is none.
pub open spec fn opt_chars(o: Option<Seq<char>>) -> Seq<char> {
    match o {
        Some(s) => s,
        None => Seq::empty(),
    }
}

/// A failed save step: reported, or silently ended when the app quits after
/// the save.
pub open spec fn save_failed(v: AppView, s: SaveView, e: Seq<char>) -> (AppView, ActionView) {
    if s.quit_after {
        (AppView { running: false, ..v }, ActionView::Nothing)
    } else {
        (with_status(v, StatusLevel::Error, "save failed: "@ + e), ActionView::Nothing)
    }
}

/// The last step of a save: the object as read again becomes the baseline,
/// and the backup is reported.
pub open spec fn saved(v: AppView, s: SaveView, h: HandleView) -> AppView {
    let r = with_status(
        AppView { backup_path: s.backup, ..reloaded(v, h) },
        StatusLevel::Success,
        "saved (backup at "@ + opt_chars(s.backup) + ")"@,
    );
    if s.quit_after {
        AppView { running: false, ..r }
    } else {
        r
    }
}

/// The save `s` moved on to `stage`.
pub open spec fn save_at(v: AppView, s: SaveView, stage: SaveStage) -> AppView {
    AppView { pending: Some(PendingView::Save(SaveView { stage, ..s })), ..v }
}

/// How a save goes on from the outcome of its current step: backup, then
/// the ownership change when there is one, then `setfacl`, then reading the
/// object again.
pub open spec fn save_step_spec(v: AppView, s: SaveView, o: OutcomeView) -> (AppView, ActionView) {
    let write = ActionView::WriteAcl { path: v.object.path, acl: s.acl, recursive: s.recursive };
    match s.stage {
        SaveStage::Backup => match o {
            OutcomeView::BackedUp(Ok(b)) => {
                let s2 = SaveView { backup: Some(b), ..s };
                if s.owner is Some || s.group is Some {
                    (
                        save_at(v, s2, SaveStage::Chown),
                        ActionView::Chown { path: v.object.path, owner: s.owner, group: s.group, recursive: s.recursive },
                    )
                } else {
                    (save_at(v, s2, SaveStage::Write), write)
                }
            },
            OutcomeView::BackedUp(Err(e)) => save_failed(v, s, e),
            _ => (v, ActionView::Nothing),
        },
        SaveStage::Chown => match o {
            OutcomeView::Ran(Ok(_)) => (save_at(v, s, SaveStage::Write), write),
            OutcomeView::Ran(Err(e)) => save_failed(v, s, e),
            _ => (v, ActionView::Nothing),
        },
        SaveStage::Write => match o {
            OutcomeView::Ran(Ok(_)) => (save_at(v, s, SaveStage::Read), ActionView::Read { path: v.object.path }),
            OutcomeView::Ran(Err(e)) => save_failed(v, s, e),
            _ => (v, ActionView::Nothing),
        },
        SaveStage::Read => match o {
            OutcomeView::Loaded(Ok(h)) => (saved(v, s, h), ActionView::Nothing),
            OutcomeView::Loaded(Err(e)) => save_failed(v, s, e),
            _ => (v, ActionView::Nothing),
        },
    }
}

/// The state machine given the outcome of the action it handed out last. An
/// outcome of another kind than the one awaited drops what was pending.
pub open spec fn resume_spec(v: AppView, o: OutcomeView) -> (AppView, ActionView) {
    let idle = AppView { pending: None, ..v };
    match v.pending {
        None => (v, ActionView::Nothing),
        Some(PendingView::Reload) => match o {
            OutcomeView::Loaded(Ok(h)) => (
                with_status(reloaded(idle, h), StatusLevel::Success, "reloaded from filesystem"@),
                ActionView::Nothing,
            ),
            OutcomeView::Loaded(Err(e)) => (
                with_status(idle, StatusLevel::Error, "reload failed: "@ + e),
                ActionView::Nothing,
            ),
            _ => (idle, ActionView::Nothing),
        },
        Some(PendingView::AddEntry(e)) => match o {
            OutcomeView::Lookup(out) => (
                if resolves(out) && first_in_slot(v.working, e.scope, e.kind, e.identity) is None {
                    with_status(added(idle, e), StatusLevel::Success, "added "@ + identity_chars(e))
                } else {
                    idle
                },
                ActionView::Nothing,
            ),
            _ => (idle, ActionView::Nothing),
        },
        Some(PendingView::Input) => match (o, v.dialog) {
            (OutcomeView::Lookup(out), Some(DialogView::Input(d))) => (
                input_resolved(idle, d, found_for(d.target, out)),
                ActionView::Nothing,
            ),
            _ => (idle, ActionView::Nothing),
        },
        Some(PendingView::Save(s)) => save_step_spec(idle, s, o),
    }
}

pub proof fn lemma_perform_wf(v: AppView, a: ConfirmAction)
    requires
        app_wf(v),
    ensures
        app_wf(perform_spec(v, a).0),
{
}

proof fn lemma_reloaded_wf(v: AppView, h: HandleView)
    requires
        app_wf(v),
    ensures
        app_wf(reloaded(v, h)),
{
}

proof fn lemma_added_wf(v: AppView, e: EntryView)
    requires
        app_wf(v),
    ensures
        app_wf(added(v, e)),
{
}

proof fn lemma_input_resolved_wf(v: AppView, d: InputView, found: bool)
    requires
        app_wf(v),
    ensures
        app_wf(input_resolved(v, d, found)),
{
}

proof fn lemma_save_step_wf(v: AppView, s: SaveView, o: OutcomeView)
    requires
        app_wf(v),
    ensures
        app_wf(save_step_spec(v, s, o).0),
{
    match o {
        OutcomeView::Loaded(Ok(h)) => lemma_reloaded_wf(v, h),
        _ => {},
    }
}

/// Every outcome keeps the state one the key handlers accept.
pub proof fn lemma_resume_keeps_wf(v: AppView, o: OutcomeView)
    requires
        app_wf(v),
    ensures
        app_wf(resume_spec(v, o).0),
{
    let idle = AppView { pending: None, ..v };
    match v.pending {
        None => {},
        Some(PendingView::Reload) => match o {
            OutcomeView::Loaded(Ok(h)) => lemma_reloaded_wf(idle, h),
            _ => {},
        },
        Some(PendingView::AddEntry(e)) => lemma_added_wf(idle, e),
        Some(PendingView::Input) => match (o, v.dialog) {
            (OutcomeView::Lookup(out), Some(DialogView::Input(d))) => lemma_input_resolved_wf(idle, d, found_for(d.target, out)),
            _ => {},
        },
        Some(PendingView::Save(s)) => lemma_save_step_wf(idle, s, o),
    }
}

impl App {
    /// Apply the mask policy to a copy of the working ACL, for saving.
    pub fn build_save_acl(&self) -> (r: Acl)
        ensures
            r@ == save_acl_view(self.working@, self.mask_policy),
    {
        let mut acl = self.working.clone();
        acl.normalize();
        if self.mask_policy == MaskPolicy::Auto {
            if acl.has_named_entries(Scope::Access) {
                let m = acl.recalculate_mask(Scope::Access);
                acl.set_mask(Scope::Access, m);
            }
            if acl.has_named_entries(Scope::Default) {
                let m = acl.recalculate_mask(Scope::Default);
                acl.set_mask(Scope::Default, m);
            }
        }
        acl
    }

    /// Begin persisting pending changes: back up the original first. With
    /// `quit_after`, the app stops once the save is over, whatever its result.
    pub fn start_save(&mut self, quit_after: bool) -> (r: Action)
        ensures
            (final(self)@, r@) == start_save_spec(old(self)@, quit_after),
    {
        let acl = self.build_save_acl();
        let owner = if !(self.owner == self.original_owner) {
            Some(self.owner.clone())
        } else {
            None
        };
        let group = if !(self.group == self.original_group) {
            Some(self.group.clone())
        } else {
            None
        };
        self.pending = Some(Pending::Save(SaveState {
            stage: SaveStage::Backup,
            acl,
            owner,
            group,
            recursive: self.recursive,
            quit_after,
            backup: None,
        }));
        Action::Backup { path: self.object.path.clone(), recursive: self.recursive }
    }

    /// Begin reading the object again.
    pub fn start_reload(&mut self) -> (r: Action)
        ensures
            (final(self)@, r@) == start_reload_spec(old(self)@),
    {
        self.pending = Some(Pending::Reload);
        Action::Read { path: self.object.path.clone() }
    }

    /// Take the object as read again, dropping any pending changes.
    pub fn reload_from(&mut self, handle: AclHandle)
        ensures
            final(self)@ == reloaded(old(self)@, HandleView { object: handle.object@, acl: handle.acl@ }),
    {
        let object = handle.object;
        self.original_owner = object.owner.clone();
        self.original_group = object.group.clone();
        self.owner = object.owner.clone();
        self.group = object.group.clone();
        self.original = handle.acl.clone();
        self.working = handle.acl;
        self.object = object;
        self.clamp_selection();
        self.sync_status_to_selection();
    }

    /// `S` in the editor.
    pub fn try_save(&mut self) -> (r: Action)
        ensures
            (final(self)@, r@) == try_save_spec(old(self)@),
    {
        if self.read_only {
            self.set_error(string_of("read-only mode: saving is disabled"));
            return Action::Nothing;
        }
        if !self.is_modified() {
            self.set_status(string_of("no pending changes"));
            return Action::Nothing;
        }
        // Recursive saves touch many objects, so ask first.
        if self.recursive {
            let mut body = string_of("Apply the ACL to every descendant of ");
            push_str(&mut body, self.object.path.as_str());
            push_str(&mut body, "?\nThis modifies many objects at once.");
            let mut choices = Vec::new();
            choices.push(choice('y', "Apply", ConfirmAction::Save));
            choices.push(choice('n', "Cancel", ConfirmAction::Cancel));
            assert(super::choices_view(choices@) =~= seq![
                ChoiceView { key: 'y', label: "Apply"@, action: ConfirmAction::Save },
                ChoiceView { key: 'n', label: "Cancel"@, action: ConfirmAction::Cancel },
            ]);
            self.dialog = Some(Dialog::Confirm(ConfirmDialog {
                title: string_of("Apply recursively"),
                body,
                cursor: 0,
                choices,
            }));
            return Action::Nothing;
        }
        self.start_save(false)
    }

    /// `R` in the editor.
    pub fn reload_or_confirm(&mut self) -> (r: Action)
        ensures
            (final(self)@, r@) == reload_or_confirm_spec(old(self)@),
    {
        if self.is_modified() {
            let mut choices = Vec::new();
            choices.push(choice('y', "Reload", ConfirmAction::Reload));
            choices.push(choice('c', "Cancel", ConfirmAction::Cancel));
            assert(super::choices_view(choices@) =~= seq![
                ChoiceView { key: 'y', label: "Reload"@, action: ConfirmAction::Reload },
                ChoiceView { key: 'c', label: "Cancel"@, action: ConfirmAction::Cancel },
            ]);
            self.dialog = Some(Dialog::Confirm(ConfirmDialog {
                title: string_of("Discard changes"),
                body: string_of("Reload from the filesystem and discard pending changes?"),
                cursor: 0,
                choices,
            }));
            Action::Nothing
        } else {
            self.start_reload()
        }
    }

    /// `q` in the editor.
    pub fn quit_or_confirm(&mut self)
        ensures
            final(self)@ == quit_or_confirm_spec(old(self)@),
    {
        if self.is_modified() {
            let mut body = string_of("You have unsaved changes to ");
            push_str(&mut body, self.object.path.as_str());
            push_str(&mut body, ".");
            let mut choices = Vec::new();
            choices.push(choice('s', "Save and quit", ConfirmAction::SaveAndQuit));
            choices.push(choice('d', "Discard and quit", ConfirmAction::Quit));
            choices.push(choice('c', "Return to editor", ConfirmAction::Cancel));
            assert(super::choices_view(choices@) =~= seq![
                ChoiceView { key: 's', label: "Save and quit"@, action: ConfirmAction::SaveAndQuit },
                ChoiceView { key: 'd', label: "Discard and quit"@, action: ConfirmAction::Quit },
                ChoiceView { key: 'c', label: "Return to editor"@, action: ConfirmAction::Cancel },
            ]);
            self.dialog = Some(Dialog::Confirm(ConfirmDialog {
                title: string_of("Unsaved ACL changes"),
                body,
                cursor: 0,
                choices,
            }));
        } else {
            self.running = false;
        }
    }

    /// Carry out a confirmed choice.
    pub fn perform_confirm(&mut self, action: ConfirmAction) -> (r: Action)
        ensures
            (final(self)@, r@) == perform_spec(old(self)@, action),
    {
        match action {
            ConfirmAction::Quit => {
                self.running = false;
                Action::Nothing
            },
            ConfirmAction::Save => self.start_save(false),
            ConfirmAction::SaveAndQuit => self.start_save(true),
            ConfirmAction::Cancel => {
                self.set_status(string_of("cancelled"));
                Action::Nothing
            },
            ConfirmAction::DeleteEntry => {
                self.delete_selected();
                Action::Nothing
            },
            ConfirmAction::Reload => self.start_reload(),
        }
    }

    /// Widen the filter if it would hide the scope an entry was just added to.
    pub fn adjust_filter_for(&mut self, scope: Scope)
        ensures
            final(self)@ == (AppView { list_filter: widened_filter(old(self)@.list_filter, scope), ..old(self)@ }),
    {
        let conflict = match self.list_filter {
            ListFilter::All => false,
            ListFilter::Access => scope == Scope::Default,
            ListFilter::Default => scope == Scope::Access,
        };
        if conflict {
            self.list_filter = ListFilter::All;
        }
    }

    /// Add an entry to the working ACL and select it.
    pub fn add_entry(&mut self, entry: AclEntry)
        ensures
            final(self)@ == added(old(self)@, entry@),
    {
        let scope = entry.scope;
        let kind = entry.kind;
        let identity = copy_identity(&entry.identity);
        self.working.insert(entry);
        self.working.normalize();
        self.adjust_filter_for(scope);
        let id: Option<&str> = match &identity {
            Some(s) => Some(s.as_str()),
            None => None,
        };
        assert(opt_str_view(id) == entry@.identity);
        match self.working.position(scope, kind, id) {
            Some(p) => match self.visible_index(p) {
                Some(vi) => {
                    self.selected = vi;
                },
                None => {},
            },
            None => {},
        }
        self.clamp_selection();
        self.sync_status_to_selection();
    }

    /// A new named entry whose identity `getent` was asked about (`out`): it
    /// is added when the identity resolves and its slot is free.
    pub fn finish_add(&mut self, entry: AclEntry, out: &Option<String>)
        ensures
            final(self)@ == if resolves(opt_seq(*out)) && first_in_slot(old(self)@.working, entry@.scope, entry@.kind, entry@.identity) is None {
                with_status(added(old(self)@, entry@), StatusLevel::Success, "added "@ + identity_chars(entry@))
            } else {
                old(self)@
            },
    {
        let found = match out {
            Some(t) => if entry.kind == EntryKind::NamedUser {
                lookup_user(t.as_str()).is_ok()
            } else {
                lookup_group(t.as_str()).is_ok()
            },
            None => false,
        };
        if !found {
            return;
        }
        let name = match &entry.identity {
            Some(s) => s.clone(),
            None => String::new(),
        };
        let taken = {
            let id: Option<&str> = match &entry.identity {
                Some(s) => Some(s.as_str()),
                None => None,
            };
            assert(opt_str_view(id) == entry@.identity);
            self.working.find(entry.scope, entry.kind, id).is_some()
        };
        if taken {
            return;
        }
        self.add_entry(entry);
        let mut m = string_of("added ");
        push_str(&mut m, name.as_str());
        self.set_ok(m);
    }

    /// The open input dialog `id` once `getent` was asked about its value
    /// (`out`).
    pub fn finish_input(&mut self, mut id: InputDialog, out: &Option<String>)
        ensures
            final(self)@ == input_resolved(
                AppView { dialog: Some(DialogView::Input(id@)), ..old(self)@ },
                id@,
                found_for(id@.target, opt_seq(*out)),
            ),
    {
        let value = trimmed(id.value.as_str());
        let found = match out {
            Some(t) => match &id.target {
                InputTarget::Owner => lookup_user(t.as_str()).is_ok(),
                InputTarget::Group => lookup_group(t.as_str()).is_ok(),
                InputTarget::Identity(_, kind, _) => match kind {
                    EntryKind::NamedUser => lookup_user(t.as_str()).is_ok(),
                    EntryKind::NamedGroup => lookup_group(t.as_str()).is_ok(),
                    _ => false,
                },
            },
            None => false,
        };
        assert(found == found_for(id@.target, opt_seq(*out)));
        match &id.target {
            InputTarget::Owner => {
                if !found {
                    let mut m = string_of("no user '");
                    push_str(&mut m, value.as_str());
                    push_str(&mut m, "'");
                    id.error = Some(m);
                    self.dialog = Some(Dialog::Input(id));
                    return;
                }
                self.owner = value;
                self.dialog = None;
                self.set_ok(string_of("owner updated (pending)"));
            },
            InputTarget::Group => {
                if !found {
                    let mut m = string_of("no group '");
                    push_str(&mut m, value.as_str());
                    push_str(&mut m, "'");
                    id.error = Some(m);
                    self.dialog = Some(Dialog::Input(id));
                    return;
                }
                self.group = value;
                self.dialog = None;
                self.set_ok(string_of("group updated (pending)"));
            },
            InputTarget::Identity(scope, kind, current) => {
                let scope = *scope;
                let kind = *kind;
                let current = copy_identity(current);
                if !found {
                    let mut m = string_of("'");
                    push_str(&mut m, value.as_str());
                    push_str(&mut m, "' not found");
                    id.error = Some(m);
                    self.dialog = Some(Dialog::Input(id));
                    return;
                }
                if self.identity_clash(scope, kind, value.as_str(), &current) {
                    id.error = Some(string_of("entry already exists"));
                    self.dialog = Some(Dialog::Input(id));
                    return;
                }
                self.rename_identity(scope, kind, &current, value);
                self.dialog = None;
                self.set_ok(string_of("identity updated (pending)"));
            },
        }
    }

    /// Whether another entry already occupies the slot `(scope, kind, value)`.
    pub fn identity_clash(&self, scope: Scope, kind: EntryKind, value: &str, current: &Option<String>) -> (r: bool)
        ensures
            r == (first_in_slot(self.working@, scope, kind, Some(value@)) is Some && Some(value@) != opt_seq(*current)),
    {
        proof {
            crate::model::acl::lemma_first_in_slot(self.working@, scope, kind, Some(value@));
        }
        match self.working.find(scope, kind, Some(value)) {
            Some(existing) => !same_identity(&existing.identity, current),
            None => false,
        }
    }

    /// Give the first entry in the slot `(scope, kind, current)` the identity
    /// `value`, keeping the list sorted.
    pub fn rename_identity(&mut self, scope: Scope, kind: EntryKind, current: &Option<String>, value: String)
        ensures
            final(self)@ == (AppView {
                working: renamed(old(self)@.working, scope, kind, opt_seq(*current), value@),
                ..old(self)@
            }),
    {
        let cur: Option<&str> = match current {
            Some(s) => Some(s.as_str()),
            None => None,
        };
        assert(opt_str_view(cur) == opt_seq(*current));
        proof {
            crate::model::acl::lemma_first_in_slot(self.working@, scope, kind, opt_seq(*current));
        }
        match self.working.position(scope, kind, cur) {
            Some(pos) => {
                let ghost w0 = self.working@;
                let mut e = self.working.get(pos).clone();
                e.identity = Some(value);
                let ghost ev = e@;
                {
                    let es = self.working.entries_mut();
                    es.set(pos, e);
                }
                assert(self.working@ =~= w0.update(pos as int, ev));
                self.working.sort();
            },
            None => {},
        }
    }

    /// Report a failed save step, or end quietly when the app quits after the
    /// save.
    fn fail_save(&mut self, quit_after: bool, e: String)
        ensures
            final(self)@ == if quit_after {
                AppView { running: false, ..old(self)@ }
            } else {
                with_status(old(self)@, StatusLevel::Error, "save failed: "@ + e@)
            },
    {
        if quit_after {
            self.running = false;
        } else {
            let mut m = string_of("save failed: ");
            push_str(&mut m, e.as_str());
            self.set_error(m);
        }
    }

    /// Go on with the save `s` given the outcome of its current step.
    pub fn save_step(&mut self, s: SaveState, outcome: Outcome) -> (r: Action)
        ensures
            (final(self)@, r@) == save_step_spec(old(self)@, s@, outcome@),
    {
        match s.stage {
            SaveStage::Backup => match outcome {
                Outcome::BackedUp(Ok(b)) => {
                    let next = if s.owner.is_some() || s.group.is_some() {
                        SaveStage::Chown
                    } else {
                        SaveStage::Write
                    };
                    let action = if s.owner.is_some() || s.group.is_some() {
                        Action::Chown {
                            path: self.object.path.clone(),
                            owner: copy_identity(&s.owner),
                            group: copy_identity(&s.group),
                            recursive: s.recursive,
                        }
                    } else {
                        Action::WriteAcl {
                            path: self.object.path.clone(),
                            acl: s.acl.clone(),
                            recursive: s.recursive,
                        }
                    };
                    self.pending = Some(Pending::Save(SaveState {
                        stage: next,
                        acl: s.acl,
                        owner: s.owner,
                        group: s.group,
                        recursive: s.recursive,
                        quit_after: s.quit_after,
                        backup: Some(b),
                    }));
                    action
                },
                Outcome::BackedUp(Err(e)) => {
                    self.fail_save(s.quit_after, e);
                    Action::Nothing
                },
                _ => Action::Nothing,
            },
            SaveStage::Chown => match outcome {
                Outcome::Ran(Ok(_)) => {
                    let action = Action::WriteAcl {
                        path: self.object.path.clone(),
                        acl: s.acl.clone(),
                        recursive: s.recursive,
                    };
                    self.pending = Some(Pending::Save(SaveState {
                        stage: SaveStage::Write,
                        acl: s.acl,
                        owner: s.owner,
                        group: s.group,
                        recursive: s.recursive,
                        quit_after: s.quit_after,
                        backup: s.backup,
                    }));
                    action
                },
                Outcome::Ran(Err(e)) => {
                    self.fail_save(s.quit_after, e);
                    Action::Nothing
                },
                _ => Action::Nothing,
            },
            SaveStage::Write => match outcome {
                Outcome::Ran(Ok(_)) => {
                    let action = Action::Read { path: self.object.path.clone() };
                    self.pending = Some(Pending::Save(SaveState {
                        stage: SaveStage::Read,
                        acl: s.acl,
                        owner: s.owner,
                        group: s.group,
                        recursive: s.recursive,
                        quit_after: s.quit_after,
                        backup: s.backup,
                    }));
                    action
                },
                Outcome::Ran(Err(e)) => {
                    self.fail_save(s.quit_after, e);
                    Action::Nothing
                },
                _ => Action::Nothing,
            },
            SaveStage::Read => match outcome {
                Outcome::Loaded(Ok(h)) => {
                    self.reload_from(h);
                    let shown = match &s.backup {
                        Some(b) => b.clone(),
                        None => String::new(),
                    };
                    self.backup_path = s.backup;
                    let mut m = string_of("saved (backup at ");
                    push_str(&mut m, shown.as_str());
                    push_str(&mut m, ")");
                    self.set_ok(m);
                    if s.quit_after {
                        self.running = false;
                    }
                    Action::Nothing
                },
                Outcome::Loaded(Err(e)) => {
                    self.fail_save(s.quit_after, e);
                    Action::Nothing
                },
                _ => Action::Nothing,
            },
        }
    }

    /// Go on from the outcome of the action handed out last.
    pub fn resume(&mut self, outcome: Outcome) -> (r: Action)
        ensures
            (final(self)@, r@) == resume_spec(old(self)@, outcome@),
            app_wf(old(self)@) ==> app_wf(final(self)@),
    {
        proof {
            if app_wf(self@) {
                lemma_resume_keeps_wf(self@, outcome@);
            }
        }
        let pending = self.pending.take();
        match pending {
            None => Action::Nothing,
            Some(Pending::Reload) => match outcome {
                Outcome::Loaded(Ok(h)) => {
                    self.reload_from(h);
                    self.set_ok(string_of("reloaded from filesystem"));
                    Action::Nothing
                },
                Outcome::Loaded(Err(e)) => {
                    let mut m = string_of("reload failed: ");
                    push_str(&mut m, e.as_str());
                    self.set_error(m);
                    Action::Nothing
                },
                _ => Action::Nothing,
            },
            Some(Pending::AddEntry(entry)) => match outcome {
                Outcome::Lookup(out) => {
                    self.finish_add(entry, &out);
                    Action::Nothing
                },
                _ => Action::Nothing,
            },
            Some(Pending::Input) => match outcome {
                Outcome::Lookup(out) => {
                    let d = self.dialog.take();
                    match d {
                        Some(Dialog::Input(id)) => self.finish_input(id, &out),
                        other => {
                            self.dialog = other;
                        },
                    }
                    Action::Nothing
                },
                _ => Action::Nothing,
            },
            Some(Pending::Save(s)) => self.save_step(s, outcome),
        }
    }
}

} // verus!
