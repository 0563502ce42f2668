//! Editor actions bound to keys.
use vstd::prelude::*;

use super::{
    clamped, selected_position, selected_view, synced, visible_positions,
    with_status, AddDialog, AddView, App, AppView, ChoiceView, ConfirmAction, ConfirmChoice,
    ConfirmDialog, ConfirmView, Dialog, DialogView, InputDialog, InputTarget, InputView,
    ListFilter, Screen, StatusLevel, TargetView,
};
use crate::model::acl::{first_mask, normalize_view, remove_view};
use crate::model::entry::{entry_who, identity_chars, kind_is_named};
use crate::model::permissions::{perm_chars, toggled};
use crate::model::{EntryView, PermBit, Scope};
use crate::text::{push_str, string_of};

verus! {

/// The bit under the permission cursor.
pub open spec fn bit_at(cursor: usize) -> PermBit {
    if cursor == 0 {
        PermBit::Read
    } else if cursor == 1 {
        PermBit::Write
    } else {
        PermBit::Execute
    }
}

/// Space in the editor: flip the bit under the cursor of the selected entry.
pub open spec fn toggle_perm_spec(v: AppView) -> AppView {
    if v.read_only {
        with_status(v, StatusLevel::Error, "read-only mode: saving is disabled"@)
    } else {
        match selected_position(v) {
            None => v,
            Some(p) => {
                let e = v.working[p];
                let w = v.working.update(
                    p,
                    EntryView { permissions: toggled(e.permissions, bit_at(v.perm_cursor)), ..e },
                );
                synced(AppView { working: normalize_view(w), ..v })
            },
        }
    }
}

pub open spec fn filter_label(f: ListFilter) -> Seq<char> {
    match f {
        ListFilter::All => "All"@,
        ListFilter::Access => "Access"@,
        ListFilter::Default => "Default"@,
    }
}

pub open spec fn scope_label(s: Scope) -> Seq<char> {
    match s {
        Scope::Access => "Access"@,
        Scope::Default => "Default"@,
    }
}

/// The filter after `f` in the cycle All, Access, Default (directories only).
pub open spec fn next_filter(f: ListFilter, is_directory: bool) -> ListFilter {
    match f {
        ListFilter::All => ListFilter::Access,
        ListFilter::Access => if is_directory {
            ListFilter::Default
        } else {
            ListFilter::All
        },
        ListFilter::Default => ListFilter::All,
    }
}

pub open spec fn cycle_filter_spec(v: AppView) -> AppView {
    let f = next_filter(v.list_filter, v.object.is_directory);
    with_status(clamped(AppView { list_filter: f, ..v }), StatusLevel::Info, "showing "@ + filter_label(f))
}

pub open spec fn edit_identity_spec(v: AppView) -> AppView {
    if v.read_only {
        with_status(v, StatusLevel::Error, "read-only mode"@)
    } else {
        match selected_view(v) {
            None => v,
            Some(e) => if !kind_is_named(e.kind) {
                with_status(v, StatusLevel::Error, "identity only applies to named user/group entries"@)
            } else {
                AppView {
                    dialog: Some(
                        DialogView::Input(
                            InputView {
                                title: "Edit "@ + entry_who(e),
                                target: TargetView::Identity(e.scope, e.kind, e.identity),
                                value: identity_chars(e),
                                error: None,
                            },
                        ),
                    ),
                    ..v
                }
            },
        }
    }
}

pub open spec fn open_add_spec(v: AppView) -> AppView {
    if v.read_only {
        with_status(v, StatusLevel::Error, "read-only mode"@)
    } else {
        let can_default = v.object.is_directory;
        let scope = if can_default && v.list_filter == ListFilter::Default {
            Scope::Default
        } else {
            Scope::Access
        };
        AppView {
            dialog: Some(
                DialogView::Add(
                    AddView {
                        can_default,
                        scope,
                        is_user: true,
                        name: Seq::empty(),
                        read: true,
                        write: false,
                        execute: false,
                        cursor: 0,
                        error: None,
                    },
                ),
            ),
            ..v
        }
    }
}

pub open spec fn confirm_delete_spec(v: AppView) -> AppView {
    if v.read_only {
        with_status(v, StatusLevel::Error, "read-only mode"@)
    } else {
        match selected_view(v) {
            None => v,
            Some(e) => if !kind_is_named(e.kind) {
                with_status(v, StatusLevel::Error, "only named user/group entries can be deleted"@)
            } else {
                AppView {
                    dialog: Some(
                        DialogView::Confirm(
                            ConfirmView {
                                title: "Delete entry"@,
                                body: "Delete "@ + entry_who(e) + "? This is pending until you save."@,
                                cursor: 0,
                                choices: seq![
                                    ChoiceView { key: 'y', label: "Delete"@, action: ConfirmAction::DeleteEntry },
                                    ChoiceView { key: 'c', label: "Cancel"@, action: ConfirmAction::Cancel },
                                ],
                            },
                        ),
                    ),
                    ..v
                }
            },
        }
    }
}

pub open spec fn delete_selected_spec(v: AppView) -> AppView {
    match selected_view(v) {
        Some(e) => if kind_is_named(e.kind) {
            let w = normalize_view(remove_view(v.working, e.scope, e.kind, e.identity));
            with_status(
                synced(clamped(AppView { working: w, ..v })),
                StatusLevel::Success,
                "deleted "@ + entry_who(e) + " (pending)"@,
            )
        } else {
            v
        },
        None => v,
    }
}

pub open spec fn open_owner_input_spec(v: AppView) -> AppView {
    if v.read_only {
        with_status(v, StatusLevel::Error, "read-only mode"@)
    } else {
        AppView {
            dialog: Some(
                DialogView::Input(
                    InputView { title: "Change owner"@, target: TargetView::Owner, value: v.owner, error: None },
                ),
            ),
            ..v
        }
    }
}

pub open spec fn open_group_input_spec(v: AppView) -> AppView {
    if v.read_only {
        with_status(v, StatusLevel::Error, "read-only mode"@)
    } else {
        AppView {
            dialog: Some(
                DialogView::Input(
                    InputView {
                        title: "Change owning group"@,
                        target: TargetView::Group,
                        value: v.group,
                        error: None,
                    },
                ),
            ),
            ..v
        }
    }
}

/// The index in the visible list of position `p` of the working ACL.
pub open spec fn visible_index_of(v: AppView, p: int) -> Option<int> {
    let pos = visible_positions(v.working, v.list_filter);
    if exists|k: int| 0 <= k < pos.len() && pos[k] == p {
        Some(choose|k: int| 0 <= k < pos.len() && pos[k] == p)
    } else {
        None
    }
}

pub open spec fn jump_to_mask_spec(v: AppView) -> AppView {
    match selected_view(v) {
        None => v,
        Some(e) => match first_mask(v.working, e.scope) {
            None => with_status(v, StatusLevel::Info, "no mask entry in this scope (no named entries)"@),
            Some(p) => match visible_index_of(v, p) {
                Some(k) => with_status(
                    AppView { selected: k as usize, ..v },
                    StatusLevel::Info,
                    "mask::"@ + perm_chars(v.working[p].permissions) + " ("@ + scope_label(e.scope) + ")"@,
                ),
                None => with_status(v, StatusLevel::Info, "mask entry is hidden by the current filter"@),
            },
        },
    }
}

pub open spec fn toggle_recursive_spec(v: AppView) -> AppView {
    if !v.object.is_directory {
        with_status(v, StatusLevel::Info, "recursive only applies to directories"@)
    } else if !v.recursive {
        with_status(
            AppView { recursive: true, ..v },
            StatusLevel::Info,
            "recursive: on (saving applies to all descendants)"@,
        )
    } else {
        with_status(AppView { recursive: false, ..v }, StatusLevel::Info, "recursive: off (this object only)"@)
    }
}

/// Builds a confirmation choice.
pub fn choice(key: char, label: &str, action: ConfirmAction) -> (r: ConfirmChoice)
    ensures
        r@ == (ChoiceView { key, label: label@, action }),
{
    ConfirmChoice { key, label: string_of(label), action }
}

impl App {
    pub fn toggle_perm(&mut self)
        requires
            old(self).perm_cursor < 3,
        ensures
            final(self)@ == toggle_perm_spec(old(self)@),
    {
        if self.read_only {
            self.set_error(string_of("read-only mode: saving is disabled"));
            return;
        }
        let bits = PermBit::all();
        let bit = bits[self.perm_cursor];
        match self.selected_working_index() {
            Some(idx) => {
                let ghost w0 = self.working@;
                let mut e = self.working.get(idx).clone();
                e.permissions.toggle(bit);
                let ghost ev = e@;
                {
                    let es = self.working.entries_mut();
                    es.set(idx, e);
                }
                assert(self.working@ =~= w0.update(idx as int, ev));
                self.working.normalize();
                self.sync_status_to_selection();
            },
            None => {},
        }
    }

    pub fn cycle_filter(&mut self)
        ensures
            final(self)@ == cycle_filter_spec(old(self)@),
    {
        self.list_filter = match self.list_filter {
            ListFilter::All => ListFilter::Access,
            ListFilter::Access => {
                if self.object.is_directory {
                    ListFilter::Default
                } else {
                    ListFilter::All
                }
            },
            ListFilter::Default => ListFilter::All,
        };
        self.clamp_selection();
        let label = match self.list_filter {
            ListFilter::All => "All",
            ListFilter::Access => "Access",
            ListFilter::Default => "Default",
        };
        let mut m = string_of("showing ");
        push_str(&mut m, label);
        self.set_status(m);
    }

    pub fn edit_identity(&mut self)
        ensures
            final(self)@ == edit_identity_spec(old(self)@),
    {
        if self.read_only {
            self.set_error(string_of("read-only mode"));
            return;
        }
        let (scope, kind, identity, who) = match self.selected_entry() {
            None => {
                return;
            },
            Some(e) => (e.scope, e.kind, crate::model::entry::copy_identity(&e.identity), e.who()),
        };
        if !kind.is_named() {
            self.set_error(string_of("identity only applies to named user/group entries"));
            return;
        }
        let mut title = string_of("Edit ");
        push_str(&mut title, who.as_str());
        let value = match &identity {
            Some(s) => s.clone(),
            None => String::new(),
        };
        self.dialog = Some(Dialog::Input(InputDialog {
            title,
            target: InputTarget::Identity(scope, kind, identity),
            value,
            error: None,
        }));
    }

    pub fn open_add(&mut self)
        ensures
            final(self)@ == open_add_spec(old(self)@),
    {
        if self.read_only {
            self.set_error(string_of("read-only mode"));
            return;
        }
        let can_default = self.object.is_directory;
        let scope = if can_default {
            match self.list_filter {
                ListFilter::Default => Scope::Default,
                _ => Scope::Access,
            }
        } else {
            Scope::Access
        };
        self.dialog = Some(Dialog::Add(AddDialog {
            can_default,
            scope,
            is_user: true,
            name: String::new(),
            read: true,
            write: false,
            execute: false,
            cursor: 0,
            error: None,
        }));
    }

    pub fn confirm_delete(&mut self)
        ensures
            final(self)@ == confirm_delete_spec(old(self)@),
    {
        if self.read_only {
            self.set_error(string_of("read-only mode"));
            return;
        }
        let (kind, desc) = match self.selected_entry() {
            None => {
                return;
            },
            Some(e) => (e.kind, e.who()),
        };
        if !kind.is_named() {
            self.set_error(string_of("only named user/group entries can be deleted"));
            return;
        }
        let mut body = string_of("Delete ");
        push_str(&mut body, desc.as_str());
        push_str(&mut body, "? This is pending until you save.");
        let mut choices: Vec<ConfirmChoice> = Vec::new();
        choices.push(choice('y', "Delete", ConfirmAction::DeleteEntry));
        choices.push(choice('c', "Cancel", ConfirmAction::Cancel));
        let ghost cv = super::choices_view(choices@);
        assert(cv =~= seq![
            ChoiceView { key: 'y', label: "Delete"@, action: ConfirmAction::DeleteEntry },
            ChoiceView { key: 'c', label: "Cancel"@, action: ConfirmAction::Cancel },
        ]);
        self.dialog = Some(Dialog::Confirm(ConfirmDialog {
            title: string_of("Delete entry"),
            body,
            cursor: 0,
            choices,
        }));
    }

    pub fn delete_selected(&mut self)
        ensures
            final(self)@ == delete_selected_spec(old(self)@),
    {
        let (scope, kind, identity, desc) = match self.selected_entry() {
            None => {
                return;
            },
            Some(e) => (e.scope, e.kind, crate::model::entry::copy_identity(&e.identity), e.who()),
        };
        if kind.is_named() {
            let id: Option<&str> = match &identity {
                Some(s) => Some(s.as_str()),
                None => None,
            };
            self.working.remove_slot(scope, kind, id);
            self.working.normalize();
            self.clamp_selection();
            self.sync_status_to_selection();
            let mut m = string_of("deleted ");
            push_str(&mut m, desc.as_str());
            push_str(&mut m, " (pending)");
            self.set_ok(m);
        }
    }

    pub fn open_owner_input(&mut self)
        ensures
            final(self)@ == open_owner_input_spec(old(self)@),
    {
        if self.read_only {
            self.set_error(string_of("read-only mode"));
            return;
        }
        self.dialog = Some(Dialog::Input(InputDialog {
            title: string_of("Change owner"),
            target: InputTarget::Owner,
            value: self.owner.clone(),
            error: None,
        }));
    }

    pub fn open_group_input(&mut self)
        ensures
            final(self)@ == open_group_input_spec(old(self)@),
    {
        if self.read_only {
            self.set_error(string_of("read-only mode"));
            return;
        }
        self.dialog = Some(Dialog::Input(InputDialog {
            title: string_of("Change owning group"),
            target: InputTarget::Group,
            value: self.group.clone(),
            error: None,
        }));
    }

    /// The index in the visible list of position `p` of the working ACL.
    pub fn visible_index(&self, p: usize) -> (r: Option<usize>)
        ensures
            match visible_index_of(self@, p as int) {
                Some(k) => r == Some(k as usize),
                None => r is None,
            },
    {
        let idx = self.visible_indices();
        proof {
            super::lemma_visible(self.working@, self.list_filter);
        }
        let ghost pos = visible_positions(self.working@, self.list_filter);
        let mut k: usize = 0;
        while k < idx.len()
            invariant
                k <= idx@.len(),
                idx@.len() == pos.len(),
                pos == visible_positions(self.working@, self.list_filter),
                forall|j: int| 0 <= j < idx@.len() ==> idx@[j] as int == #[trigger] pos[j],
                forall|j: int| 0 <= j < k ==> pos[j] != p,
                forall|a: int, b: int| 0 <= a < b < pos.len() ==> pos[a] < pos[b],
            decreases idx.len() - k,
        {
            if idx[k] == p {
                proof {
                    assert(pos[k as int] == p);
                    let c = choose|j: int| 0 <= j < pos.len() && pos[j] == p;
                    if c != k {
                        if c < k {
                            assert(pos[c] != p);
                        } else {
                            assert(pos[k as int] < pos[c]);
                        }
                    }
                    assert(c == k);
                    assert(visible_index_of(self@, p as int) == Some(c));
                }
                return Some(k);
            }
            k = k + 1;
        }
        None
    }

    pub fn jump_to_mask(&mut self)
        ensures
            final(self)@ == jump_to_mask_spec(old(self)@),
    {
        let scope = match self.selected_entry() {
            None => {
                return;
            },
            Some(e) => e.scope,
        };
        let pos = match self.working.mask_index(scope) {
            None => {
                self.set_status(string_of("no mask entry in this scope (no named entries)"));
                return;
            },
            Some(p) => p,
        };
        let perms = self.working.get(pos).permissions;
        match self.visible_index(pos) {
            Some(vi) => {
                self.selected = vi;
                let mut m = string_of("mask::");
                let ps = perms.to_string();
                push_str(&mut m, ps.as_str());
                push_str(&mut m, " (");
                push_str(&mut m, scope.label());
                push_str(&mut m, ")");
                self.set_status(m);
            },
            None => {
                self.set_status(string_of("mask entry is hidden by the current filter"));
            },
        }
    }

    pub fn toggle_recursive(&mut self)
        ensures
            final(self)@ == toggle_recursive_spec(old(self)@),
    {
        if !self.object.is_directory {
            self.set_status(string_of("recursive only applies to directories"));
            return;
        }
        self.recursive = !self.recursive;
        self.set_status(
            if self.recursive {
                string_of("recursive: on (saving applies to all descendants)")
            } else {
                string_of("recursive: off (this object only)")
            },
        );
    }

    pub fn open_preview(&mut self)
        ensures
            final(self)@ == (AppView { screen: Screen::Preview, ..old(self)@ }),
    {
        self.screen = Screen::Preview;
    }
}

} // verus!
