//! What the editing operations do to the ACL, stated over their inputs and
//! results: the diff shows every change, Space flips the bit under the
//! cursor, a save touches the mask only under the `auto` policy, an added
//! entry has the bits that were checked, and every capped entry is warned of.
use vstd::prelude::*;

use super::dialogs::submit_add_spec;
use super::effects::{resolves, resume_spec, save_acl_view};
use super::keys::{scope_label, toggle_perm_spec};
use super::preview::{
    add_slots, diff_lines, diff_slots, flagged, mask_warnings_view, scope_diff_view,
    scope_warnings_view, slot_lines, slot_of, warning_text, warnings_of,
};
use super::{selected_position, lemma_visible, ActionView, AddView, AppView, OutcomeView, PendingView};
use crate::cli::MaskPolicy;
use crate::model::acl::{
    filter_scope, first_in_slot, has_mask, has_named, is_sorted, lemma_filter_scope_contains,
    lemma_first_in_slot, lemma_normalize_keeps_entry, lemma_normalize_law, lemma_sorted_push_contents,
    mask_view, normalize_view, stray_masks_plain,
};
use crate::model::entry::{entry_text, entry_who, kind_is_group_class, kind_is_named};
use crate::model::permissions::{perm_and, perm_chars};
use crate::model::{EntryKind, EntryView, Permissions, Scope};
use crate::text::trim;

verus! {

proof fn lemma_add_slots_contains(acc: Seq<(EntryKind, Option<Seq<char>>)>, s: Seq<EntryView>)
    ensures
        forall|x: (EntryKind, Option<Seq<char>>)| #[trigger] acc.contains(x) ==> add_slots(acc, s).contains(x),
        forall|j: int| 0 <= j < s.len() ==> add_slots(acc, s).contains(slot_of(#[trigger] s[j])),
    decreases s.len(),
{
    if s.len() > 0 {
        let d = s.drop_last();
        lemma_add_slots_contains(acc, d);
        let a = add_slots(acc, d);
        assert forall|x: (EntryKind, Option<Seq<char>>)| a.contains(x) implies #[trigger] add_slots(acc, s).contains(x) by {
            vstd::seq_lib::lemma_seq_contains_after_push(a, slot_of(s.last()), x);
        }
        assert forall|j: int| 0 <= j < s.len() implies add_slots(acc, s).contains(slot_of(#[trigger] s[j])) by {
            vstd::seq_lib::lemma_seq_contains_after_push(a, slot_of(s.last()), slot_of(s[j]));
            if j < d.len() {
                assert(d[j] == s[j]);
            }
        }
    }
}

proof fn lemma_concat_contains<A>(a: Seq<A>, b: Seq<A>, x: A)
    ensures
        (a + b).contains(x) <==> (a.contains(x) || b.contains(x)),
{
    if a.contains(x) {
        let i = choose|i: int| 0 <= i < a.len() && a[i] == x;
        assert((a + b)[i] == x);
    }
    if b.contains(x) {
        let i = choose|i: int| 0 <= i < b.len() && b[i] == x;
        assert((a + b)[a.len() + i] == x);
    }
    if (a + b).contains(x) {
        let i = choose|i: int| 0 <= i < (a + b).len() && (a + b)[i] == x;
        if i < a.len() {
            assert(a[i] == x);
        } else {
            assert(b[i - a.len()] == x);
        }
    }
}

proof fn lemma_diff_lines_contains(
    o: Seq<EntryView>,
    w: Seq<EntryView>,
    scope: Scope,
    slots: Seq<(EntryKind, Option<Seq<char>>)>,
    sl: (EntryKind, Option<Seq<char>>),
    line: Seq<char>,
)
    requires
        slots.contains(sl),
        slot_lines(o, w, scope, sl).contains(line),
    ensures
        diff_lines(o, w, scope, slots).contains(line),
    decreases slots.len(),
{
    let d = slots.drop_last();
    lemma_concat_contains(diff_lines(o, w, scope, d), slot_lines(o, w, scope, slots.last()), line);
    if sl != slots.last() {
        let i = choose|i: int| 0 <= i < slots.len() && slots[i] == sl;
        assert(i < d.len());
        assert(d[i] == sl);
        lemma_diff_lines_contains(o, w, scope, d, sl, line);
    }
}

/// The slot `(kind, identity)` of `scope` is among those the diff walks when
/// the original or the working ACL has an entry in it.
proof fn lemma_slot_walked(v: AppView, scope: Scope, kind: EntryKind, identity: Option<Seq<char>>)
    requires
        first_in_slot(v.original, scope, kind, identity) is Some || first_in_slot(v.working, scope, kind, identity) is Some,
    ensures
        diff_slots(v, scope).contains((kind, identity)),
{
    let fo = filter_scope(v.original, scope);
    let fw = filter_scope(v.working, scope);
    lemma_filter_scope_contains(v.original, scope);
    lemma_filter_scope_contains(v.working, scope);
    lemma_add_slots_contains(Seq::empty(), fo);
    let a = add_slots(Seq::empty(), fo);
    lemma_add_slots_contains(a, fw);
    lemma_first_in_slot(v.original, scope, kind, identity);
    lemma_first_in_slot(v.working, scope, kind, identity);
    if first_in_slot(v.original, scope, kind, identity) is Some {
        let i = first_in_slot(v.original, scope, kind, identity)->0;
        assert(v.original.contains(v.original[i]));
        assert(fo.contains(v.original[i]));
        let j = choose|j: int| 0 <= j < fo.len() && fo[j] == v.original[i];
        assert(slot_of(fo[j]) == (kind, identity));
        assert(a.contains(slot_of(fo[j])));
    } else {
        let i = first_in_slot(v.working, scope, kind, identity)->0;
        assert(v.working.contains(v.working[i]));
        assert(fw.contains(v.working[i]));
        let j = choose|j: int| 0 <= j < fw.len() && fw[j] == v.working[i];
        assert(slot_of(fw[j]) == (kind, identity));
    }
}

/// The preview's diff of a scope shows every change to a slot
/// `(kind, identity)`: an entry the working ACL no longer has is listed
/// with `- ` and its text, a new entry with `+ ` and its text, and an entry
/// whose permissions changed with both lines; so the diff reads `unchanged`
/// only when no slot of the scope changed.
pub proof fn lemma_diff_shows_every_change(v: AppView, scope: Scope, kind: EntryKind, identity: Option<Seq<char>>)
    ensures
        match (first_in_slot(v.original, scope, kind, identity), first_in_slot(v.working, scope, kind, identity)) {
            (Some(i), None) => scope_diff_view(v, scope).contains("- "@ + entry_text(v.original[i])),
            (None, Some(j)) => scope_diff_view(v, scope).contains("+ "@ + entry_text(v.working[j])),
            (Some(i), Some(j)) => v.original[i].permissions != v.working[j].permissions ==> {
                &&& scope_diff_view(v, scope).contains("- "@ + entry_text(v.original[i]))
                &&& scope_diff_view(v, scope).contains("+ "@ + entry_text(v.working[j]))
            },
            (None, None) => true,
        },
{
    let fi = first_in_slot(v.original, scope, kind, identity);
    let fj = first_in_slot(v.working, scope, kind, identity);
    if fi is Some || fj is Some {
        lemma_slot_walked(v, scope, kind, identity);
        let sl = (kind, identity);
        let lines = slot_lines(v.original, v.working, scope, sl);
        let slots = diff_slots(v, scope);
        let d = diff_lines(v.original, v.working, scope, slots);
        assert forall|line: Seq<char>| #[trigger] lines.contains(line) implies d.contains(line) && scope_diff_view(
            v,
            scope,
        ).contains(line) by {
            lemma_diff_lines_contains(v.original, v.working, scope, slots, sl, line);
            assert(d.len() > 0);
        }
        match (fi, fj) {
            (Some(i), None) => {
                assert(lines[0] == "- "@ + entry_text(v.original[i]));
                assert(lines.contains(lines[0]));
            },
            (None, Some(j)) => {
                assert(lines[0] == "+ "@ + entry_text(v.working[j]));
                assert(lines.contains(lines[0]));
            },
            (Some(i), Some(j)) => {
                if v.original[i].permissions != v.working[j].permissions {
                    assert(lines[0] == "- "@ + entry_text(v.original[i]));
                    assert(lines[1] == "+ "@ + entry_text(v.working[j]));
                    assert(lines.contains(lines[0]));
                    assert(lines.contains(lines[1]));
                }
            },
            (None, None) => {},
        }
    }
}

/// The permissions after Space with the permission cursor on `cursor`:
/// read for 0, write for 1, execute for 2 flips, the other two stay.
pub open spec fn flipped_at(p: Permissions, cursor: usize) -> Permissions {
    Permissions {
        read: if cursor == 0 {
            !p.read
        } else {
            p.read
        },
        write: if cursor == 1 {
            !p.write
        } else {
            p.write
        },
        execute: if cursor == 2 {
            !p.execute
        } else {
            p.execute
        },
    }
}

/// Space flips exactly the bit under the permission cursor of the selected
/// entry (read, write, execute for 0, 1, 2) and leaves the other bits, and
/// every other entry but masks, as they were. A mask entry survives only in a
/// scope with named entries.
pub proof fn lemma_space_flips_the_bit_under_the_cursor(v: AppView)
    requires
        !v.read_only,
        v.perm_cursor < 3,
        selected_position(v) is Some,
    ensures
        ({
            let p = selected_position(v)->0;
            let e = v.working[p];
            let after = toggle_perm_spec(v).working;
            &&& (e.kind != EntryKind::Mask || has_named(v.working, e.scope)) ==> after.contains(
                EntryView { permissions: flipped_at(e.permissions, v.perm_cursor), ..e },
            )
            &&& forall|k: int|
                0 <= k < v.working.len() && k != p && (#[trigger] v.working[k]).kind != EntryKind::Mask
                    ==> after.contains(v.working[k])
        }),
{
    lemma_visible(v.working, v.list_filter);
    let p = selected_position(v)->0;
    assert(0 <= p < v.working.len());
    let e = v.working[p];
    let e2 = EntryView { permissions: flipped_at(e.permissions, v.perm_cursor), ..e };
    let w = v.working.update(p, e2);
    assert(toggle_perm_spec(v).working == normalize_view(w));
    assert(w[p] == e2);
    assert(w.contains(e2));
    if e.kind == EntryKind::Mask && has_named(v.working, e.scope) {
        let q = choose|q: int| 0 <= q < v.working.len() && #[trigger] v.working[q].scope == e.scope && kind_is_named(v.working[q].kind);
        assert(q != p);
        assert(w[q] == v.working[q]);
        assert(has_named(w, e.scope));
    }
    if e.kind != EntryKind::Mask || has_named(v.working, e.scope) {
        lemma_normalize_keeps_entry(w, e2);
    }
    assert forall|k: int|
        0 <= k < v.working.len() && k != p && (#[trigger] v.working[k]).kind != EntryKind::Mask implies toggle_perm_spec(
        v,
    ).working.contains(v.working[k]) by {
        assert(w[k] == v.working[k]);
        assert(w.contains(v.working[k]));
        lemma_normalize_keeps_entry(w, v.working[k]);
    }
}

/// Under any mask policy but `auto`, a save writes the working ACL
/// normalized: no mask is recalculated, and a mask of a scope with named
/// entries keeps its permissions.
pub proof fn lemma_only_auto_touches_the_mask(w: Seq<EntryView>, policy: MaskPolicy, scope: Scope)
    requires
        policy != MaskPolicy::Auto,
    ensures
        save_acl_view(w, policy) == normalize_view(w),
        is_sorted(w) && stray_masks_plain(w) && has_named(w, scope) && has_mask(w, scope) ==> mask_view(
            save_acl_view(w, policy),
            scope,
        ) == mask_view(w, scope),
{
    if is_sorted(w) && stray_masks_plain(w) {
        lemma_normalize_law(w, scope);
    }
}

/// Enter in the add dialog with a name asks for that name to be looked up
/// as a user or a group; once the lookup finds it, the working ACL holds the
/// entry in the dialog's scope with exactly the bits that were checked.
pub proof fn lemma_added_entry_has_the_checked_bits(v: AppView, d: AddView, out: Option<Seq<char>>)
    requires
        trim(d.name).len() > 0,
    ensures
        ({
            let name = trim(d.name);
            let kind = if d.is_user {
                EntryKind::NamedUser
            } else {
                EntryKind::NamedGroup
            };
            let e = EntryView {
                scope: d.scope,
                kind,
                identity: Some(name),
                permissions: Permissions { read: d.read, write: d.write, execute: d.execute },
            };
            let (v1, a) = submit_add_spec(v, d);
            &&& a == (if d.is_user {
                ActionView::LookupUser(name)
            } else {
                ActionView::LookupGroup(name)
            })
            &&& v1.working == v.working
            &&& resolves(out) && first_in_slot(v.working, d.scope, kind, Some(name)) is None ==> resume_spec(
                v1,
                OutcomeView::Lookup(out),
            ).0.working.contains(e)
        }),
{
    let name = trim(d.name);
    let kind = if d.is_user {
        EntryKind::NamedUser
    } else {
        EntryKind::NamedGroup
    };
    let e = EntryView {
        scope: d.scope,
        kind,
        identity: Some(name),
        permissions: Permissions { read: d.read, write: d.write, execute: d.execute },
    };
    let (v1, a) = submit_add_spec(v, d);
    assert(v1.pending == Some(PendingView::AddEntry(e)));
    if resolves(out) && first_in_slot(v.working, d.scope, kind, Some(name)) is None {
        let s = super::effects::added(AppView { pending: None, ..v1 }, e);
        lemma_sorted_push_contents(v.working, e);
        let t = crate::model::acl::sort_view(v.working.push(e));
        assert(t.contains(e));
        lemma_normalize_keeps_entry(t, e);
        assert(s.working == normalize_view(t));
    }
}

proof fn lemma_warnings_of_contains(s: Seq<EntryView>, m: Permissions, x: EntryView)
    requires
        s.contains(x),
        flagged(x, m),
    ensures
        warnings_of(s, m).contains(warning_text(x, m)),
    decreases s.len(),
{
    let d = s.drop_last();
    vstd::seq_lib::lemma_seq_contains_after_push(d, s.last(), x);
    assert(s =~= d.push(s.last()));
    if x == s.last() {
        vstd::seq_lib::lemma_seq_contains_after_push(warnings_of(d, m), warning_text(x, m), warning_text(x, m));
    } else {
        lemma_warnings_of_contains(d, m, x);
        vstd::seq_lib::lemma_seq_contains_after_push(
            warnings_of(d, m),
            warning_text(s.last(), m),
            warning_text(x, m),
        );
    }
}

proof fn lemma_warnings_of_source(s: Seq<EntryView>, m: Permissions, line: Seq<char>)
    requires
        warnings_of(s, m).contains(line),
    ensures
        exists|k: int| 0 <= k < s.len() && flagged(#[trigger] s[k], m) && line == warning_text(s[k], m),
    decreases s.len(),
{
    let d = s.drop_last();
    if flagged(s.last(), m) {
        vstd::seq_lib::lemma_seq_contains_after_push(warnings_of(d, m), warning_text(s.last(), m), line);
    }
    if line == warning_text(s.last(), m) && flagged(s.last(), m) {
        assert(s[s.len() - 1] == s.last());
    } else {
        lemma_warnings_of_source(d, m, line);
        let k = choose|k: int| 0 <= k < d.len() && flagged(#[trigger] d[k], m) && line == warning_text(d[k], m);
        assert(s[k] == d[k]);
    }
}

/// Every entry of the group class that asks for more than the mask of its
/// scope grants, in either scope, is warned of with its scope, who it is,
/// what it requests and the mask.
pub proof fn lemma_capped_entries_are_warned(w: Seq<EntryView>, e: EntryView, m: Permissions)
    requires
        w.contains(e),
        mask_view(w, e.scope) == Some(m),
        kind_is_group_class(e.kind),
        perm_and(m, e.permissions) != e.permissions,
    ensures
        mask_warnings_view(w).contains(
            scope_label(e.scope) + " "@ + entry_who(e) + ": requested "@ + perm_chars(e.permissions)
                + " exceeds mask::"@ + perm_chars(m),
        ),
{
    lemma_filter_scope_contains(w, e.scope);
    lemma_warnings_of_contains(filter_scope(w, e.scope), m, e);
    lemma_concat_contains(
        scope_warnings_view(w, Scope::Access),
        scope_warnings_view(w, Scope::Default),
        warning_text(e, m),
    );
}

/// Every warning comes from an entry of the group class that asks for more
/// than the mask of its scope grants.
pub proof fn lemma_every_warning_is_a_capped_entry(w: Seq<EntryView>, line: Seq<char>)
    requires
        mask_warnings_view(w).contains(line),
    ensures
        exists|k: int|
            0 <= k < w.len() && mask_view(w, (#[trigger] w[k]).scope) is Some && kind_is_group_class(w[k].kind)
                && perm_and(mask_view(w, w[k].scope)->0, w[k].permissions) != w[k].permissions && line
                == scope_label(w[k].scope) + " "@ + entry_who(w[k]) + ": requested "@ + perm_chars(
                w[k].permissions,
            ) + " exceeds mask::"@ + perm_chars(mask_view(w, w[k].scope)->0),
{
    lemma_concat_contains(scope_warnings_view(w, Scope::Access), scope_warnings_view(w, Scope::Default), line);
    let scope = if scope_warnings_view(w, Scope::Access).contains(line) {
        Scope::Access
    } else {
        Scope::Default
    };
    let m = mask_view(w, scope)->0;
    let f = filter_scope(w, scope);
    lemma_warnings_of_source(f, m, line);
    let k = choose|k: int| 0 <= k < f.len() && flagged(#[trigger] f[k], m) && line == warning_text(f[k], m);
    lemma_filter_scope_contains(w, scope);
    assert(f.contains(f[k]));
    let i = choose|i: int| 0 <= i < w.len() && w[i] == f[k];
    assert(w[i].scope == scope);
}

} // verus!
