//! The text of the preview and help screens.
use vstd::prelude::*;

use super::effects::changed;
use super::keys::scope_label;
use super::{App, AppView};
use crate::backend::ownership::{chown_spec_view, strings_view};
use crate::cli::MaskPolicy;
use crate::model::acl::{filter_scope, first_in_slot, mask_view, opt_str_view, ref_views};
use crate::model::entry::{
    copy_identity, entry_text, entry_who, kind_is_group_class, opt_view, same_identity,
};
use crate::model::permissions::{perm_and, perm_chars};
use crate::model::{AclEntry, EntryKind, EntryView, Permissions, Scope};
use crate::text::{push_char, push_str, string_of};

verus! {

/// Whether `e` asks for more than the mask `m` of its scope lets through.
pub open spec fn flagged(e: EntryView, m: Permissions) -> bool {
    kind_is_group_class(e.kind) && perm_and(m, e.permissions) != e.permissions
}

/// The warning for an entry that asks for more than the mask `m` grants.
pub open spec fn warning_text(e: EntryView, m: Permissions) -> Seq<char> {
    scope_label(e.scope) + " "@ + entry_who(e) + ": requested "@ + perm_chars(e.permissions)
        + " exceeds mask::"@ + perm_chars(m)
}

/// The warnings for the entries of `s` that the mask `m` caps.
pub open spec fn warnings_of(s: Seq<EntryView>, m: Permissions) -> Seq<Seq<char>>
    decreases s.len(),
{
    if s.len() == 0 {
        Seq::empty()
    } else if flagged(s.last(), m) {
        warnings_of(s.drop_last(), m).push(warning_text(s.last(), m))
    } else {
        warnings_of(s.drop_last(), m)
    }
}

/// The warnings of one scope: none when it has no mask.
pub open spec fn scope_warnings_view(w: Seq<EntryView>, scope: Scope) -> Seq<Seq<char>> {
    match mask_view(w, scope) {
        Some(m) => warnings_of(filter_scope(w, scope), m),
        None => Seq::empty(),
    }
}

/// The warnings of both scopes, access first.
pub open spec fn mask_warnings_view(w: Seq<EntryView>) -> Seq<Seq<char>> {
    scope_warnings_view(w, Scope::Access) + scope_warnings_view(w, Scope::Default)
}

/// The help screen, line by line.
pub open spec fn help_view() -> Seq<Seq<char>> {
    seq![
        "POSIX ACL Editor - key bindings"@,
        ""@,
        "Navigation"@,
        "  Up/Down or j/k     Select ACL entry"@,
        "  Left/Right         Move permission cursor (Read/Write/Execute)"@,
        "  Space              Toggle the permission under the cursor"@,
        "  Tab / Shift+Tab    Move focus: list <-> editor"@,
        "  f                  Cycle list filter: All / Access / Default"@,
        ""@,
        "Entry CRUD"@,
        "  a                  Add a named user/group entry"@,
        "  d                  Delete selected named entry"@,
        "  e                  Edit selected user/group identity"@,
        "  o                  Change file owner"@,
        "  g                  Change owning group"@,
        "  m                  Jump to the mask entry of the selected scope"@,
        ""@,
        "Save / rollback"@,
        "  t                  Toggle recursive (apply to all descendants)"@,
        "  p                  Preview pending changes"@,
        "  S                  Save (backup + chown + setfacl)"@,
        "  R                  Reload from filesystem"@,
        "  ?                  This help"@,
        "  q                  Quit (confirms if modified)"@,
        ""@,
        "The mask caps named users, the owning group and named groups."@,
        "The detail pane shows requested vs. effective permission."@,
    ]
}

/// The views of a list of string slices.
pub open spec fn strs_view(v: Seq<&str>) -> Seq<Seq<char>> {
    v.map_values(|s: &str| s@)
}

/// The slot of an entry within its scope: its kind and identity.
pub open spec fn slot_of(e: EntryView) -> (EntryKind, Option<Seq<char>>) {
    (e.kind, e.identity)
}

/// `acc` followed by the slots of `s` it does not hold yet, in order of
/// first occurrence.
pub open spec fn add_slots(acc: Seq<(EntryKind, Option<Seq<char>>)>, s: Seq<EntryView>) -> Seq<
    (EntryKind, Option<Seq<char>>),
>
    decreases s.len(),
{
    if s.len() == 0 {
        acc
    } else {
        let a = add_slots(acc, s.drop_last());
        if a.contains(slot_of(s.last())) {
            a
        } else {
            a.push(slot_of(s.last()))
        }
    }
}

/// The slots a diff of `scope` walks: those of the original ACL, then the
/// new ones of the working ACL.
pub open spec fn diff_slots(v: AppView, scope: Scope) -> Seq<(EntryKind, Option<Seq<char>>)> {
    add_slots(add_slots(Seq::empty(), filter_scope(v.original, scope)), filter_scope(v.working, scope))
}

/// The diff lines of one slot: its removed (`-`) and added (`+`) text.
pub open spec fn slot_lines(
    o: Seq<EntryView>,
    w: Seq<EntryView>,
    scope: Scope,
    slot: (EntryKind, Option<Seq<char>>),
) -> Seq<Seq<char>> {
    match (first_in_slot(o, scope, slot.0, slot.1), first_in_slot(w, scope, slot.0, slot.1)) {
        (Some(i), Some(j)) => if o[i].permissions == w[j].permissions {
            Seq::empty()
        } else {
            seq!["- "@ + entry_text(o[i]), "+ "@ + entry_text(w[j])]
        },
        (Some(i), None) => seq!["- "@ + entry_text(o[i])],
        (None, Some(j)) => seq!["+ "@ + entry_text(w[j])],
        (None, None) => Seq::empty(),
    }
}

/// The diff lines of a list of slots.
pub open spec fn diff_lines(
    o: Seq<EntryView>,
    w: Seq<EntryView>,
    scope: Scope,
    slots: Seq<(EntryKind, Option<Seq<char>>)>,
) -> Seq<Seq<char>>
    decreases slots.len(),
{
    if slots.len() == 0 {
        Seq::empty()
    } else {
        diff_lines(o, w, scope, slots.drop_last()) + slot_lines(o, w, scope, slots.last())
    }
}

/// A `+`/`-` line diff between the original and working ACLs in one scope,
/// or `unchanged`.
pub open spec fn scope_diff_view(v: AppView, scope: Scope) -> Seq<Seq<char>> {
    let d = diff_lines(v.original, v.working, scope, diff_slots(v, scope));
    if d.len() == 0 {
        seq!["unchanged"@]
    } else {
        d
    }
}

/// The ownership spec given to `chown` for the pending changes.
pub open spec fn chown_text(v: AppView) -> Seq<char> {
    match chown_spec_view(changed(v.owner, v.original_owner), changed(v.group, v.original_group)) {
        Some(t) => t,
        None => Seq::empty(),
    }
}

/// Each line behind `prefix`.
pub open spec fn indented(lines: Seq<Seq<char>>, prefix: Seq<char>) -> Seq<Seq<char>> {
    lines.map_values(|l: Seq<char>| prefix + l)
}

/// The ownership part of the preview.
pub open spec fn ownership_lines(v: AppView) -> Seq<Seq<char>> {
    seq!["Ownership:"@] + (if v.owner != v.original_owner {
        seq!["  owner:  "@ + v.original_owner + " -> "@ + v.owner]
    } else {
        Seq::empty()
    }) + (if v.group != v.original_group {
        seq!["  group:  "@ + v.original_group + " -> "@ + v.group]
    } else {
        Seq::empty()
    }) + (if v.owner == v.original_owner && v.group == v.original_group {
        seq!["  unchanged"@]
    } else {
        Seq::empty()
    }) + seq![Seq::<char>::empty()]
}

/// The part of the preview for one scope.
pub open spec fn scope_section(v: AppView, scope: Scope, title: Seq<char>) -> Seq<Seq<char>> {
    seq![title] + indented(scope_diff_view(v, scope), "  "@) + seq![Seq::<char>::empty()]
}

/// The ACL part of the preview: the access scope, and the default scope of a
/// directory.
pub open spec fn acl_lines(v: AppView) -> Seq<Seq<char>> {
    scope_section(v, Scope::Access, "Access ACL:"@) + if v.object.is_directory {
        scope_section(v, Scope::Default, "Default ACL:"@)
    } else {
        Seq::empty()
    }
}

/// The mask warnings part of the preview, when there are any.
pub open spec fn warning_lines(v: AppView) -> Seq<Seq<char>> {
    let w = mask_warnings_view(v.working);
    if w.len() > 0 {
        seq!["Mask warnings:"@] + indented(w, "  ! "@) + seq![Seq::<char>::empty()]
    } else {
        Seq::empty()
    }
}

pub open spec fn policy_label(p: MaskPolicy) -> Seq<char> {
    match p {
        MaskPolicy::Auto => "auto (recalculate)"@,
        MaskPolicy::Preserve => "preserve"@,
        MaskPolicy::Manual => "manual"@,
    }
}

/// The closing part of the preview: the mask policy, the recursion, and the
/// commands a save amounts to.
pub open spec fn command_lines(v: AppView) -> Seq<Seq<char>> {
    let r = if v.recursive {
        " -R"@
    } else {
        Seq::empty()
    };
    seq![
        "Mask policy: "@ + policy_label(v.mask_policy),
        "Recursive: "@ + if v.recursive {
            "yes (applies to all descendants)"@
        } else {
            "no (this object only)"@
        },
        Seq::<char>::empty(),
        "Command-equivalent:"@,
        "  setfacl --set-file=<generated-acl>"@ + r + " -- "@ + v.object.path,
    ] + if v.owner != v.original_owner || v.group != v.original_group {
        seq!["  chown"@ + r + " "@ + chown_text(v) + " -- "@ + v.object.path]
    } else {
        Seq::empty()
    }
}

/// The preview screen, line by line.
pub open spec fn preview_view(v: AppView) -> Seq<Seq<char>> {
    seq!["Preview changes: "@ + v.object.path, Seq::<char>::empty()] + (if v.read_only {
        seq!["Read-only mode: saving is disabled."@, Seq::<char>::empty()]
    } else {
        Seq::empty()
    }) + ownership_lines(v) + acl_lines(v) + warning_lines(v) + command_lines(v)
}

/// The views of the slots collected by a diff.
pub open spec fn slots_view(v: Seq<(EntryKind, Option<String>)>) -> Seq<(EntryKind, Option<Seq<char>>)> {
    v.map_values(|p: (EntryKind, Option<String>)| (p.0, opt_view(p.1)))
}

/// Whether `slots` holds the slot `(kind, identity)`.
fn has_slot(slots: &Vec<(EntryKind, Option<String>)>, kind: EntryKind, identity: &Option<String>) -> (r: bool)
    ensures
        r == slots_view(slots@).contains((kind, opt_view(*identity))),
{
    let ghost sv = slots_view(slots@);
    let mut i: usize = 0;
    while i < slots.len()
        invariant
            i <= slots@.len(),
            sv == slots_view(slots@),
            forall|k: int| 0 <= k < i ==> sv[k] != (kind, opt_view(*identity)),
        decreases slots.len() - i,
    {
        let (k, id) = &slots[i];
        assert(sv[i as int] == (*k, opt_view(*id)));
        if *k == kind && same_identity(id, identity) {
            assert(sv[i as int] == (kind, opt_view(*identity)));
            return true;
        }
        i = i + 1;
    }
    false
}

/// Appends to `slots` the slots of `es` it does not hold yet.
fn collect_slots(slots: &mut Vec<(EntryKind, Option<String>)>, es: &Vec<&AclEntry>)
    ensures
        slots_view(final(slots)@) == add_slots(slots_view(old(slots)@), ref_views(es@)),
{
    let ghost start = slots_view(slots@);
    let ghost s = ref_views(es@);
    let mut i: usize = 0;
    while i < es.len()
        invariant
            i <= es@.len(),
            s == ref_views(es@),
            slots_view(slots@) == add_slots(start, s.take(i as int)),
        decreases es.len() - i,
    {
        let e = es[i];
        proof {
            assert(s.take(i + 1).drop_last() =~= s.take(i as int));
            assert(s.take(i + 1).last() == e@);
        }
        if !has_slot(slots, e.kind, &e.identity) {
            let ghost before = slots_view(slots@);
            slots.push((e.kind, copy_identity(&e.identity)));
            assert(slots_view(slots@) =~= before.push(slot_of(e@)));
        }
        i = i + 1;
    }
    assert(s.take(i as int) =~= s);
}

impl App {
    /// Appends the warnings of one scope.
    fn push_scope_warnings(&self, out: &mut Vec<String>, scope: Scope)
        ensures
            strings_view(final(out)@) == strings_view(old(out)@) + scope_warnings_view(self.working@, scope),
    {
        let ghost start = strings_view(out@);
        let mask = match self.working.mask(scope) {
            None => {
                assert(strings_view(out@) =~= start + Seq::<Seq<char>>::empty());
                return;
            },
            Some(m) => m,
        };
        let es = self.working.in_scope(scope);
        let ghost s = ref_views(es@);
        let mut i: usize = 0;
        while i < es.len()
            invariant
                i <= es@.len(),
                s == ref_views(es@),
                s == filter_scope(self.working@, scope),
                strings_view(out@) == start + warnings_of(s.take(i as int), mask),
            decreases es.len() - i,
        {
            let e = es[i];
            proof {
                assert(s.take(i + 1).drop_last() =~= s.take(i as int));
                assert(s.take(i + 1).last() == e@);
            }
            if e.kind.is_maskable() && !(e.kind == EntryKind::Mask)
                && !(mask.intersect(e.permissions) == e.permissions) {
                let mut m = string_of(e.scope.label());
                push_str(&mut m, " ");
                let who = e.who();
                push_str(&mut m, who.as_str());
                push_str(&mut m, ": requested ");
                let p = e.permissions.to_string();
                push_str(&mut m, p.as_str());
                push_str(&mut m, " exceeds mask::");
                let q = mask.to_string();
                push_str(&mut m, q.as_str());
                let ghost before = strings_view(out@);
                out.push(m);
                assert(strings_view(out@) =~= before.push(warning_text(e@, mask)));
            }
            i = i + 1;
            assert(strings_view(out@) =~= start + warnings_of(s.take(i as int), mask));
        }
        assert(s.take(i as int) =~= s);
    }

    /// Warnings for entries whose requested permission exceeds their scope's
    /// mask, relevant when the mask policy is manual/preserve.
    pub fn mask_warnings(&self) -> (r: Vec<String>)
        ensures
            strings_view(r@) == mask_warnings_view(self.working@),
    {
        let mut warnings: Vec<String> = Vec::new();
        assert(strings_view(warnings@) =~= Seq::<Seq<char>>::empty());
        self.push_scope_warnings(&mut warnings, Scope::Access);
        self.push_scope_warnings(&mut warnings, Scope::Default);
        assert(strings_view(warnings@) =~= mask_warnings_view(self.working@));
        warnings
    }

    /// The static help text shown on the Help screen.
    pub fn help_lines() -> (r: Vec<&'static str>)
        ensures
            strs_view(r@) == help_view(),
    {
        let mut v: Vec<&'static str> = Vec::new();
        v.push("POSIX ACL Editor - key bindings");
        v.push("");
        v.push("Navigation");
        v.push("  Up/Down or j/k     Select ACL entry");
        v.push("  Left/Right         Move permission cursor (Read/Write/Execute)");
        v.push("  Space              Toggle the permission under the cursor");
        v.push("  Tab / Shift+Tab    Move focus: list <-> editor");
        v.push("  f                  Cycle list filter: All / Access / Default");
        v.push("");
        v.push("Entry CRUD");
        v.push("  a                  Add a named user/group entry");
        v.push("  d                  Delete selected named entry");
        v.push("  e                  Edit selected user/group identity");
        v.push("  o                  Change file owner");
        v.push("  g                  Change owning group");
        v.push("  m                  Jump to the mask entry of the selected scope");
        v.push("");
        v.push("Save / rollback");
        v.push("  t                  Toggle recursive (apply to all descendants)");
        v.push("  p                  Preview pending changes");
        v.push("  S                  Save (backup + chown + setfacl)");
        v.push("  R                  Reload from filesystem");
        v.push("  ?                  This help");
        v.push("  q                  Quit (confirms if modified)");
        v.push("");
        v.push("The mask caps named users, the owning group and named groups.");
        v.push("The detail pane shows requested vs. effective permission.");
        assert(strs_view(v@) =~= help_view());
        v
    }

    /// The diff lines of one slot.
    fn push_slot_lines(&self, out: &mut Vec<String>, scope: Scope, kind: EntryKind, identity: &Option<String>)
        ensures
            strings_view(final(out)@) == strings_view(old(out)@) + slot_lines(
                self.original@,
                self.working@,
                scope,
                (kind, opt_view(*identity)),
            ),
    {
        let ghost start = strings_view(out@);
        let id: Option<&str> = match identity {
            Some(s) => Some(s.as_str()),
            None => None,
        };
        assert(opt_str_view(id) == opt_view(*identity));
        let original = self.original.find(scope, kind, id);
        let working = self.working.find(scope, kind, id);
        match (original, working) {
            (Some(o), Some(w)) => {
                if !(o.permissions == w.permissions) {
                    let mut a = string_of("- ");
                    let t = o.to_text();
                    push_str(&mut a, t.as_str());
                    let mut b = string_of("+ ");
                    let u = w.to_text();
                    push_str(&mut b, u.as_str());
                    out.push(a);
                    out.push(b);
                }
            },
            (Some(o), None) => {
                let mut a = string_of("- ");
                let t = o.to_text();
                push_str(&mut a, t.as_str());
                out.push(a);
            },
            (None, Some(w)) => {
                let mut b = string_of("+ ");
                let u = w.to_text();
                push_str(&mut b, u.as_str());
                out.push(b);
            },
            (None, None) => {},
        }
        assert(strings_view(out@) =~= start + slot_lines(
            self.original@,
            self.working@,
            scope,
            (kind, opt_view(*identity)),
        ));
    }

    /// A `+`/`-` line diff between the original and working ACLs in one scope.
    pub fn scope_diff(&self, scope: Scope) -> (r: Vec<String>)
        ensures
            strings_view(r@) == scope_diff_view(self@, scope),
    {
        let mut slots: Vec<(EntryKind, Option<String>)> = Vec::new();
        assert(slots_view(slots@) =~= Seq::<(EntryKind, Option<Seq<char>>)>::empty());
        let o = self.original.in_scope(scope);
        collect_slots(&mut slots, &o);
        let w = self.working.in_scope(scope);
        collect_slots(&mut slots, &w);
        let ghost sv = slots_view(slots@);
        assert(sv == diff_slots(self@, scope));
        let mut out: Vec<String> = Vec::new();
        let mut k: usize = 0;
        while k < slots.len()
            invariant
                k <= slots@.len(),
                sv == slots_view(slots@),
                strings_view(out@) == diff_lines(self.original@, self.working@, scope, sv.take(k as int)),
            decreases slots.len() - k,
        {
            let (kind, identity) = &slots[k];
            proof {
                assert(sv.take(k + 1).drop_last() =~= sv.take(k as int));
                assert(sv.take(k + 1).last() == (*kind, opt_view(*identity)));
            }
            self.push_slot_lines(&mut out, scope, *kind, identity);
            k = k + 1;
        }
        assert(sv.take(k as int) =~= sv);
        if out.len() == 0 {
            out.push(string_of("unchanged"));
            assert(strings_view(out@) =~= seq!["unchanged"@]);
        }
        out
    }

    /// The `chown` spec for pending ownership changes.
    pub fn chown_spec(&self) -> (r: String)
        ensures
            r@ == chown_text(self@),
    {
        let owner_changed = !(self.owner == self.original_owner);
        let group_changed = !(self.group == self.original_group);
        if owner_changed && group_changed {
            let mut s = self.owner.clone();
            push_char(&mut s, ':');
            push_str(&mut s, self.group.as_str());
            s
        } else if owner_changed {
            self.owner.clone()
        } else if group_changed {
            let mut s = String::new();
            push_char(&mut s, ':');
            push_str(&mut s, self.group.as_str());
            assert(s@ =~= seq![':'] + self.group@);
            s
        } else {
            String::new()
        }
    }

    /// Appends each of `lines` behind `prefix`.
    fn push_indented(out: &mut Vec<String>, lines: &Vec<String>, prefix: &str)
        ensures
            strings_view(final(out)@) == strings_view(old(out)@) + indented(strings_view(lines@), prefix@),
    {
        let ghost start = strings_view(out@);
        let ghost ls = strings_view(lines@);
        let mut i: usize = 0;
        while i < lines.len()
            invariant
                i <= lines@.len(),
                ls == strings_view(lines@),
                strings_view(out@) == start + indented(ls.take(i as int), prefix@),
            decreases lines.len() - i,
        {
            let mut l = string_of(prefix);
            push_str(&mut l, lines[i].as_str());
            let ghost before = strings_view(out@);
            out.push(l);
            i = i + 1;
            assert(indented(ls.take(i as int), prefix@) =~= indented(ls.take(i - 1), prefix@).push(prefix@ + ls[i - 1]));
            assert(strings_view(out@) =~= before.push(prefix@ + ls[i - 1]));
        }
        assert(ls.take(i as int) =~= ls);
    }

    fn push_ownership_lines(&self, out: &mut Vec<String>)
        ensures
            strings_view(final(out)@) == strings_view(old(out)@) + ownership_lines(self@),
    {
        let ghost start = strings_view(out@);
        out.push(string_of("Ownership:"));
        let owner_same = self.owner == self.original_owner;
        let group_same = self.group == self.original_group;
        let ghost a = strings_view(out@);
        if !owner_same {
            let mut l = string_of("  owner:  ");
            push_str(&mut l, self.original_owner.as_str());
            push_str(&mut l, " -> ");
            push_str(&mut l, self.owner.as_str());
            out.push(l);
        }
        let ghost b = strings_view(out@);
        if !group_same {
            let mut l = string_of("  group:  ");
            push_str(&mut l, self.original_group.as_str());
            push_str(&mut l, " -> ");
            push_str(&mut l, self.group.as_str());
            out.push(l);
        }
        let ghost c = strings_view(out@);
        if owner_same && group_same {
            out.push(string_of("  unchanged"));
        }
        let ghost d = strings_view(out@);
        out.push(String::new());
        assert(strings_view(out@) =~= start + ownership_lines(self@));
    }

    fn push_scope_section(&self, out: &mut Vec<String>, scope: Scope, title: &str)
        ensures
            strings_view(final(out)@) == strings_view(old(out)@) + scope_section(self@, scope, title@),
    {
        let ghost start = strings_view(out@);
        out.push(string_of(title));
        let ghost s1 = strings_view(out@);
        assert(s1 =~= start.push(title@));
        let diff = self.scope_diff(scope);
        App::push_indented(out, &diff, "  ");
        let ghost s2 = strings_view(out@);
        assert(s2 == s1 + indented(scope_diff_view(self@, scope), "  "@));
        out.push(String::new());
        assert(strings_view(out@) =~= s2.push(Seq::<char>::empty()));
        assert(strings_view(out@) =~= start + scope_section(self@, scope, title@));
    }

    fn push_warning_lines(&self, out: &mut Vec<String>)
        ensures
            strings_view(final(out)@) == strings_view(old(out)@) + warning_lines(self@),
    {
        let ghost start = strings_view(out@);
        let warnings = self.mask_warnings();
        if warnings.len() > 0 {
            out.push(string_of("Mask warnings:"));
            let ghost s1 = strings_view(out@);
            assert(s1 =~= start.push("Mask warnings:"@));
            App::push_indented(out, &warnings, "  ! ");
            let ghost s2 = strings_view(out@);
            assert(s2 == s1 + indented(mask_warnings_view(self.working@), "  ! "@));
            out.push(String::new());
            assert(strings_view(out@) =~= s2.push(Seq::<char>::empty()));
            assert(strings_view(out@) =~= start + warning_lines(self@));
        } else {
            assert(strings_view(out@) =~= start + warning_lines(self@));
        }
    }

    fn push_command_lines(&self, out: &mut Vec<String>)
        ensures
            strings_view(final(out)@) == strings_view(old(out)@) + command_lines(self@),
    {
        let ghost start = strings_view(out@);
        let policy = match self.mask_policy {
            MaskPolicy::Auto => "auto (recalculate)",
            MaskPolicy::Preserve => "preserve",
            MaskPolicy::Manual => "manual",
        };
        let mut l = string_of("Mask policy: ");
        push_str(&mut l, policy);
        out.push(l);
        let mut l = string_of("Recursive: ");
        push_str(&mut l, if self.recursive {
            "yes (applies to all descendants)"
        } else {
            "no (this object only)"
        });
        out.push(l);
        out.push(String::new());
        let r = if self.recursive {
            string_of(" -R")
        } else {
            String::new()
        };
        out.push(string_of("Command-equivalent:"));
        let mut l = string_of("  setfacl --set-file=<generated-acl>");
        push_str(&mut l, r.as_str());
        push_str(&mut l, " -- ");
        push_str(&mut l, self.object.path.as_str());
        out.push(l);
        let ghost mid = strings_view(out@);
        if !(self.owner == self.original_owner) || !(self.group == self.original_group) {
            let mut l = string_of("  chown");
            push_str(&mut l, r.as_str());
            push_str(&mut l, " ");
            let spec = self.chown_spec();
            push_str(&mut l, spec.as_str());
            push_str(&mut l, " -- ");
            push_str(&mut l, self.object.path.as_str());
            out.push(l);
        }
        assert(strings_view(out@) =~= start + command_lines(self@));
    }

    /// The text shown on the Preview screen: a per-line diff of ownership and
    /// each ACL scope, plus mask warnings and the command equivalent.
    pub fn build_preview(&self) -> (r: Vec<String>)
        ensures
            strings_view(r@) == preview_view(self@),
    {
        let mut lines: Vec<String> = Vec::new();
        let mut head = string_of("Preview changes: ");
        push_str(&mut head, self.object.path.as_str());
        lines.push(head);
        lines.push(String::new());
        if self.read_only {
            lines.push(string_of("Read-only mode: saving is disabled."));
            lines.push(String::new());
        }
        let ghost a = strings_view(lines@);
        self.push_ownership_lines(&mut lines);
        self.push_scope_section(&mut lines, Scope::Access, "Access ACL:");
        let ghost b = strings_view(lines@);
        if self.object.is_directory {
            self.push_scope_section(&mut lines, Scope::Default, "Default ACL:");
        }
        assert(strings_view(lines@) =~= a + ownership_lines(self@) + acl_lines(self@));
        self.push_warning_lines(&mut lines);
        self.push_command_lines(&mut lines);
        assert(strings_view(lines@) =~= preview_view(self@));
        lines
    }
}

} // verus!
