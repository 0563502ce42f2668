//! The complete POSIX ACL of one filesystem object.
use vstd::prelude::*;

use super::entry::{
    entry_text, in_slot, key_le, kind_is_group_class, kind_is_named, kw_mask, scope_prefix, AclEntry,
    EntryKind, EntryView, Scope, identity_matches,
};
use super::permissions::{grants_all, perm_and, perm_chars, Permissions};
use crate::text::{push_char, push_str};

verus! {

/// Static metadata about the filesystem object being edited, gathered from
/// `stat`.
#[derive(Debug, PartialEq, Eq)]
pub struct ObjectInfo {
    /// Resolved absolute path, displayed in the header.
    pub path: String,
    pub file_type: String,
    pub is_directory: bool,
    /// Owner name (or uid if unresolvable).
    pub owner: String,
    /// Owning group name (or gid if unresolvable).
    pub group: String,
    /// Octal mode string, e.g. `"0750"`.
    pub mode: String,
}

/// The mathematical value of an [`ObjectInfo`].
pub struct ObjectView {
    pub path: Seq<char>,
    pub file_type: Seq<char>,
    pub is_directory: bool,
    pub owner: Seq<char>,
    pub group: Seq<char>,
    pub mode: Seq<char>,
}

impl View for ObjectInfo {
    type V = ObjectView;

    open spec fn view(&self) -> ObjectView {
        ObjectView {
            path: self.path@,
            file_type: self.file_type@,
            is_directory: self.is_directory,
            owner: self.owner@,
            group: self.group@,
            mode: self.mode@,
        }
    }
}

impl Clone for ObjectInfo {
    fn clone(&self) -> (r: Self)
        ensures
            r@ == self@,
    {
        ObjectInfo {
            path: self.path.clone(),
            file_type: self.file_type.clone(),
            is_directory: self.is_directory,
            owner: self.owner.clone(),
            group: self.group.clone(),
            mode: self.mode.clone(),
        }
    }
}

/// The views of a sequence of entries.
pub open spec fn views(v: Seq<AclEntry>) -> Seq<EntryView> {
    v.map_values(|e: AclEntry| e@)
}

/// The views of a sequence of entry references.
pub open spec fn ref_views(v: Seq<&AclEntry>) -> Seq<EntryView> {
    v.map_values(|e: &AclEntry| e@)
}

// ---------------------------------------------------------------------------
// The canonical order.

/// `s` with `x` inserted after every element that sorts no later than it;
/// applied to a sorted `s`, this is one step of a stable insertion sort.
pub open spec fn insert_sorted(s: Seq<EntryView>, x: EntryView) -> Seq<EntryView>
    decreases s.len(),
{
    if s.len() == 0 {
        seq![x]
    } else if key_le(s.last(), x) {
        s.push(x)
    } else {
        insert_sorted(s.drop_last(), x).push(s.last())
    }
}

/// The stable sort of `s` by [`key_le`]: entries with equal keys keep their
/// relative order, as with `sort_by_key`.
pub open spec fn sort_view(s: Seq<EntryView>) -> Seq<EntryView>
    decreases s.len(),
{
    if s.len() == 0 {
        s
    } else {
        insert_sorted(sort_view(s.drop_last()), s.last())
    }
}

/// Whether `s` is in canonical order.
pub open spec fn is_sorted(s: Seq<EntryView>) -> bool {
    forall|i: int, j: int| 0 <= i < j < s.len() ==> key_le(s[i], s[j])
}

proof fn lemma_insert_sorted_at(s: Seq<EntryView>, x: EntryView, j: int)
    requires
        0 <= j <= s.len(),
        j == 0 || key_le(s[j - 1], x),
        forall|k: int| j <= k < s.len() ==> !key_le(#[trigger] s[k], x),
    ensures
        insert_sorted(s, x) == s.insert(j, x),
    decreases s.len(),
{
    if s.len() == 0 {
        assert(s.insert(j, x) =~= seq![x]);
    } else if key_le(s.last(), x) {
        assert(j == s.len());
        assert(s.insert(j, x) =~= s.push(x));
    } else {
        let d = s.drop_last();
        assert(j < s.len());
        assert forall|k: int| j <= k < d.len() implies !key_le(#[trigger] d[k], x) by {
            assert(d[k] == s[k]);
        }
        lemma_insert_sorted_at(d, x, j);
        assert(d.insert(j, x).push(s.last()) =~= s.insert(j, x));
    }
}

pub proof fn lemma_insert_sorted_len(s: Seq<EntryView>, x: EntryView)
    ensures
        insert_sorted(s, x).len() == s.len() + 1,
    decreases s.len(),
{
    if s.len() > 0 && !key_le(s.last(), x) {
        lemma_insert_sorted_len(s.drop_last(), x);
    }
}

proof fn lemma_insert_sorted_bound(s: Seq<EntryView>, x: EntryView, y: EntryView)
    requires
        forall|i: int| 0 <= i < s.len() ==> key_le(#[trigger] s[i], y),
        key_le(x, y),
    ensures
        forall|k: int| 0 <= k < insert_sorted(s, x).len() ==> key_le(#[trigger] insert_sorted(s, x)[k], y),
    decreases s.len(),
{
    lemma_insert_sorted_len(s, x);
    if s.len() == 0 {
    } else if key_le(s.last(), x) {
        assert forall|k: int| 0 <= k < insert_sorted(s, x).len() implies key_le(#[trigger] insert_sorted(s, x)[k], y) by {
            if k < s.len() {
                assert(insert_sorted(s, x)[k] == s[k]);
            }
        }
    } else {
        let d = s.drop_last();
        assert forall|i: int| 0 <= i < d.len() implies key_le(#[trigger] d[i], y) by {
            assert(d[i] == s[i]);
        }
        lemma_insert_sorted_bound(d, x, y);
        lemma_insert_sorted_len(d, x);
        assert forall|k: int| 0 <= k < insert_sorted(s, x).len() implies key_le(#[trigger] insert_sorted(s, x)[k], y) by {
            if k < insert_sorted(d, x).len() {
                assert(insert_sorted(s, x)[k] == insert_sorted(d, x)[k]);
            }
        }
    }
}

/// Inserting into a sorted sequence keeps it sorted.
pub proof fn lemma_insert_sorted_sorted(s: Seq<EntryView>, x: EntryView)
    requires
        is_sorted(s),
    ensures
        is_sorted(insert_sorted(s, x)),
    decreases s.len(),
{
    lemma_insert_sorted_len(s, x);
    if s.len() == 0 {
    } else if key_le(s.last(), x) {
        let t = s.push(x);
        assert forall|i: int, j: int| 0 <= i < j < t.len() implies key_le(t[i], t[j]) by {
            if j == s.len() {
                if i < s.len() - 1 {
                    super::entry::lemma_key_le_trans(s[i], s.last(), x);
                }
            }
        }
    } else {
        let d = s.drop_last();
        lemma_insert_sorted_sorted(d, x);
        super::entry::lemma_key_le_total(s.last(), x);
        assert forall|i: int| 0 <= i < d.len() implies key_le(#[trigger] d[i], s.last()) by {
            assert(d[i] == s[i]);
        }
        lemma_insert_sorted_bound(d, x, s.last());
        let u = insert_sorted(d, x);
        lemma_insert_sorted_len(d, x);
        let t = u.push(s.last());
        assert forall|i: int, j: int| 0 <= i < j < t.len() implies key_le(t[i], t[j]) by {
            if j == u.len() {
                assert(key_le(u[i], s.last()));
            } else {
                assert(key_le(u[i], u[j]));
            }
        }
    }
}

/// The canonical order is a stable sort: the result is sorted.
pub proof fn lemma_sort_view_sorted(s: Seq<EntryView>)
    ensures
        is_sorted(sort_view(s)),
    decreases s.len(),
{
    if s.len() > 0 {
        lemma_sort_view_sorted(s.drop_last());
        lemma_insert_sorted_sorted(sort_view(s.drop_last()), s.last());
    }
}

proof fn lemma_insert_sorted_multiset(s: Seq<EntryView>, x: EntryView)
    ensures
        insert_sorted(s, x).to_multiset() == s.to_multiset().insert(x),
    decreases s.len(),
{
    broadcast use vstd::seq_lib::group_to_multiset_ensures;

    if s.len() == 0 {
        assert(seq![x] =~= Seq::<EntryView>::empty().push(x));
    } else if key_le(s.last(), x) {
    } else {
        let d = s.drop_last();
        lemma_insert_sorted_multiset(d, x);
        assert(s =~= d.push(s.last()));
        assert(insert_sorted(s, x).to_multiset() =~= s.to_multiset().insert(x));
    }
}

/// The canonical order only reorders: it keeps every entry, as often as it occurs.
pub proof fn lemma_sort_view_multiset(s: Seq<EntryView>)
    ensures
        sort_view(s).to_multiset() == s.to_multiset(),
        sort_view(s).len() == s.len(),
    decreases s.len(),
{
    broadcast use vstd::seq_lib::group_to_multiset_ensures;

    if s.len() > 0 {
        lemma_sort_view_multiset(s.drop_last());
        lemma_insert_sorted_multiset(sort_view(s.drop_last()), s.last());
        lemma_insert_sorted_len(sort_view(s.drop_last()), s.last());
        assert(s =~= s.drop_last().push(s.last()));
    } else {
    }
}

/// Sorting an already sorted sequence leaves it unchanged.
pub proof fn lemma_sort_view_sorted_id(s: Seq<EntryView>)
    requires
        is_sorted(s),
    ensures
        sort_view(s) == s,
    decreases s.len(),
{
    if s.len() > 0 {
        let d = s.drop_last();
        assert(is_sorted(d));
        lemma_sort_view_sorted_id(d);
        if d.len() > 0 {
            assert(key_le(d.last(), s.last()));
        }
        assert(d.push(s.last()) =~= s);
    }
}

/// Inserts `x` into `out` at the place that [`insert_sorted`] gives.
fn insert_entry(out: &mut Vec<AclEntry>, x: AclEntry)
    ensures
        views(final(out)@) == insert_sorted(views(old(out)@), x@),
{
    let mut j: usize = out.len();
    while j > 0 && !out[j - 1].order_le(&x)
        invariant
            j <= out.len(),
            forall|k: int| j <= k < out@.len() ==> !key_le(#[trigger] views(out@)[k], x@),
        decreases j,
    {
        j = j - 1;
    }
    proof {
        lemma_insert_sorted_at(views(out@), x@, j as int);
    }
    let ghost before = out@;
    out.insert(j, x);
    assert(views(out@) =~= views(before).insert(j as int, x@));
}

/// Sorts `input` stably by [`key_le`].
fn sort_entries(input: Vec<AclEntry>) -> (r: Vec<AclEntry>)
    ensures
        views(r@) == sort_view(views(input@)),
{
    let ghost all = views(input@);
    let n = input.len();
    let mut rest = input;
    let mut out: Vec<AclEntry> = Vec::new();
    let mut k: usize = 0;
    while rest.len() > 0
        invariant
            all.len() == n,
            k + rest@.len() == all.len(),
            views(rest@) == all.skip(k as int),
            views(out@) == sort_view(all.take(k as int)),
        decreases rest.len(),
    {
        let ghost before = rest@;
        let x = rest.remove(0);
        proof {
            assert(views(before)[0] == before[0]@);
            assert(all.skip(k as int)[0] == all[k as int]);
            assert(x@ == all[k as int]);
            assert(all.take(k + 1).drop_last() =~= all.take(k as int));
            assert(all.take(k + 1).last() == all[k as int]);
        }
        insert_entry(&mut out, x);
        proof {
            assert forall|j: int| 0 <= j < rest@.len() implies views(rest@)[j] == all.skip(k + 1)[j] by {
                assert(rest@[j] == before[j + 1]);
                assert(views(before)[j + 1] == before[j + 1]@);
                assert(all.skip(k as int)[j + 1] == all.skip(k + 1)[j]);
            }
        }
        k = k + 1;
        assert(views(rest@) =~= all.skip(k as int));
    }
    assert(all.take(k as int) =~= all);
    out
}

// ---------------------------------------------------------------------------
// Queries on sequences of entries.

/// The entries of `s` in `scope`, in order.
pub open spec fn filter_scope(s: Seq<EntryView>, scope: Scope) -> Seq<EntryView>
    decreases s.len(),
{
    if s.len() == 0 {
        s
    } else if s.last().scope == scope {
        filter_scope(s.drop_last(), scope).push(s.last())
    } else {
        filter_scope(s.drop_last(), scope)
    }
}

/// `s` without the entries in the slot `(scope, kind, identity)`.
pub open spec fn remove_view(
    s: Seq<EntryView>,
    scope: Scope,
    kind: EntryKind,
    identity: Option<Seq<char>>,
) -> Seq<EntryView>
    decreases s.len(),
{
    if s.len() == 0 {
        s
    } else if in_slot(s.last(), scope, kind, identity) {
        remove_view(s.drop_last(), scope, kind, identity)
    } else {
        remove_view(s.drop_last(), scope, kind, identity).push(s.last())
    }
}

/// The index of the first entry of `s` in the slot `(scope, kind, identity)`.
pub open spec fn first_in_slot(
    s: Seq<EntryView>,
    scope: Scope,
    kind: EntryKind,
    identity: Option<Seq<char>>,
) -> Option<int>
    decreases s.len(),
{
    if s.len() == 0 {
        None
    } else if in_slot(s[0], scope, kind, identity) {
        Some(0)
    } else {
        match first_in_slot(s.drop_first(), scope, kind, identity) {
            Some(i) => Some(i + 1),
            None => None,
        }
    }
}

/// Whether `e` is a mask entry of `scope` (whatever its identity).
pub open spec fn is_mask_of(e: EntryView, scope: Scope) -> bool {
    e.scope == scope && e.kind == EntryKind::Mask
}

/// The index of the first mask entry of `scope`.
pub open spec fn first_mask(s: Seq<EntryView>, scope: Scope) -> Option<int>
    decreases s.len(),
{
    if s.len() == 0 {
        None
    } else if is_mask_of(s[0], scope) {
        Some(0)
    } else {
        match first_mask(s.drop_first(), scope) {
            Some(i) => Some(i + 1),
            None => None,
        }
    }
}

pub proof fn lemma_first_in_slot(
    s: Seq<EntryView>,
    scope: Scope,
    kind: EntryKind,
    identity: Option<Seq<char>>,
)
    ensures
        match first_in_slot(s, scope, kind, identity) {
            Some(i) => 0 <= i < s.len() && in_slot(s[i], scope, kind, identity) && forall|k: int|
                0 <= k < i ==> !in_slot(#[trigger] s[k], scope, kind, identity),
            None => forall|k: int|
                0 <= k < s.len() ==> !in_slot(#[trigger] s[k], scope, kind, identity),
        },
    decreases s.len(),
{
    if s.len() > 0 {
        lemma_first_in_slot(s.drop_first(), scope, kind, identity);
        assert forall|k: int| 0 < k < s.len() implies s[k] == s.drop_first()[k - 1] by {}
    }
}

pub proof fn lemma_first_mask(s: Seq<EntryView>, scope: Scope)
    ensures
        match first_mask(s, scope) {
            Some(i) => 0 <= i < s.len() && is_mask_of(s[i], scope) && forall|k: int|
                0 <= k < i ==> !is_mask_of(#[trigger] s[k], scope),
            None => forall|k: int| 0 <= k < s.len() ==> !is_mask_of(#[trigger] s[k], scope),
        },
    decreases s.len(),
{
    if s.len() > 0 {
        lemma_first_mask(s.drop_first(), scope);
        assert forall|k: int| 0 < k < s.len() implies s[k] == s.drop_first()[k - 1] by {}
    }
}

/// Whether some entry of `scope` is a mask.
pub open spec fn has_mask(s: Seq<EntryView>, scope: Scope) -> bool {
    exists|i: int| 0 <= i < s.len() && is_mask_of(#[trigger] s[i], scope)
}

/// Whether some entry of `scope` is a named user or named group.
pub open spec fn has_named(s: Seq<EntryView>, scope: Scope) -> bool {
    exists|i: int| 0 <= i < s.len() && #[trigger] s[i].scope == scope && kind_is_named(s[i].kind)
}

/// The permissions of the first mask entry of `scope`.
pub open spec fn mask_view(s: Seq<EntryView>, scope: Scope) -> Option<Permissions> {
    match first_mask(s, scope) {
        Some(i) => Some(s[i].permissions),
        None => None,
    }
}

/// Whether `e` is a group-class entry (named user, owning group, named group)
/// of `scope`.
pub open spec fn is_group_class_of(e: EntryView, scope: Scope) -> bool {
    e.scope == scope && kind_is_group_class(e.kind)
}

/// The union of the group-class entries of `scope`: a bit is set when some
/// group-class entry of the scope grants it.
pub open spec fn recalc_view(s: Seq<EntryView>, scope: Scope) -> Permissions {
    Permissions {
        read: exists|i: int|
            0 <= i < s.len() && is_group_class_of(#[trigger] s[i], scope) && s[i].permissions.read,
        write: exists|i: int|
            0 <= i < s.len() && is_group_class_of(#[trigger] s[i], scope) && s[i].permissions.write,
        execute: exists|i: int|
            0 <= i < s.len() && is_group_class_of(#[trigger] s[i], scope)
                && s[i].permissions.execute,
    }
}

/// The permission `e` grants once the mask of its scope in `s` is applied.
pub open spec fn effective_view(s: Seq<EntryView>, e: EntryView) -> Permissions {
    if kind_is_group_class(e.kind) {
        match mask_view(s, e.scope) {
            Some(m) => perm_and(e.permissions, m),
            None => e.permissions,
        }
    } else {
        e.permissions
    }
}

/// The mask entry of `scope` with permissions `m`.
pub open spec fn mask_entry(scope: Scope, m: Permissions) -> EntryView {
    EntryView { scope, kind: EntryKind::Mask, identity: None, permissions: m }
}

/// [`Acl::set_mask`]: update the first mask entry of `scope`, or insert one.
pub open spec fn set_mask_view(s: Seq<EntryView>, scope: Scope, m: Permissions) -> Seq<EntryView> {
    match first_mask(s, scope) {
        Some(i) => s.update(i, EntryView { permissions: m, ..s[i] }),
        None => sort_view(s.push(mask_entry(scope, m))),
    }
}

/// One scope of [`Acl::normalize`].
pub open spec fn normalize_step(s: Seq<EntryView>, scope: Scope) -> Seq<EntryView> {
    if has_named(s, scope) && !has_mask(s, scope) {
        set_mask_view(s, scope, recalc_view(s, scope))
    } else if !has_named(s, scope) && has_mask(s, scope) {
        remove_view(s, scope, EntryKind::Mask, None)
    } else {
        s
    }
}

/// [`Acl::normalize`]: the access scope, then the default scope.
pub open spec fn normalize_view(s: Seq<EntryView>) -> Seq<EntryView> {
    normalize_step(normalize_step(s, Scope::Access), Scope::Default)
}

/// The `mask::` line that `setfacl` text gets for a scope without a mask.
pub open spec fn mask_line(scope: Scope, m: Permissions) -> Seq<char> {
    scope_prefix(scope) + kw_mask() + seq![':', ':'] + perm_chars(m)
}

/// The text of each entry.
pub open spec fn entry_lines(s: Seq<EntryView>) -> Seq<Seq<char>>
    decreases s.len(),
{
    if s.len() == 0 {
        Seq::empty()
    } else {
        entry_lines(s.drop_last()).push(entry_text(s.last()))
    }
}

/// The lines of one scope in `setfacl` text: its entries, then a computed
/// mask line when it has named entries but no mask.
pub open spec fn scope_lines(s: Seq<EntryView>, scope: Scope) -> Seq<Seq<char>> {
    entry_lines(filter_scope(s, scope)) + if has_named(s, scope) && !has_mask(s, scope) {
        seq![mask_line(scope, recalc_view(s, scope))]
    } else {
        Seq::empty()
    }
}

/// Each line followed by a newline.
pub open spec fn join_lines(lines: Seq<Seq<char>>) -> Seq<char>
    decreases lines.len(),
{
    if lines.len() == 0 {
        Seq::empty()
    } else {
        join_lines(lines.drop_last()) + lines.last() + seq!['\n']
    }
}

/// The text `setfacl --set-file` reads for `s`.
pub open spec fn setfacl_text(s: Seq<EntryView>) -> Seq<char> {
    join_lines(scope_lines(s, Scope::Access) + scope_lines(s, Scope::Default))
}

pub proof fn lemma_join_lines_add(a: Seq<Seq<char>>, b: Seq<Seq<char>>)
    ensures
        join_lines(a + b) == join_lines(a) + join_lines(b),
    decreases b.len(),
{
    if b.len() == 0 {
        assert(a + b =~= a);
        assert(join_lines(b) =~= Seq::<char>::empty());
        assert(join_lines(a) + join_lines(b) =~= join_lines(a));
    } else {
        lemma_join_lines_add(a, b.drop_last());
        assert((a + b).drop_last() =~= a + b.drop_last());
        assert((a + b).last() == b.last());
        assert(join_lines(a + b) =~= join_lines(a) + join_lines(b));
    }
}

// ---------------------------------------------------------------------------

/// The complete POSIX ACL of one filesystem object: its access entries and,
/// for directories, its default entries, in one list.
#[derive(Debug, PartialEq, Eq)]
pub struct Acl {
    entries: Vec<AclEntry>,
}

impl View for Acl {
    type V = Seq<EntryView>;

    closed spec fn view(&self) -> Seq<EntryView> {
        views(self.entries@)
    }
}

impl Clone for Acl {
    fn clone(&self) -> (r: Self)
        ensures
            r@ == self@,
    {
        let mut out: Vec<AclEntry> = Vec::new();
        let mut i: usize = 0;
        while i < self.entries.len()
            invariant
                i <= self.entries@.len(),
                views(out@) == views(self.entries@).take(i as int),
            decreases self.entries.len() - i,
        {
            let e = self.entries[i].clone();
            let ghost before = out@;
            out.push(e);
            proof {
                assert(views(out@) =~= views(before).push(e@));
                assert(views(self.entries@).take(i + 1) =~= views(self.entries@).take(i as int).push(self.entries@[i as int]@));
            }
            i = i + 1;
            assert(views(out@) =~= views(self.entries@).take(i as int));
        }
        assert(views(self.entries@).take(i as int) =~= views(self.entries@));
        Acl { entries: out }
    }
}

impl Default for Acl {
    fn default() -> (r: Self)
        ensures
            r@ == Seq::<EntryView>::empty(),
    {
        let r = Acl { entries: Vec::new() };
        assert(r@ =~= Seq::<EntryView>::empty());
        r
    }
}

impl Acl {
    /// An ACL holding `entries`, sorted into canonical order.
    pub fn new(entries: Vec<AclEntry>) -> (r: Self)
        ensures
            r@ == sort_view(views(entries@)),
            is_sorted(r@),
    {
        proof {
            lemma_sort_view_sorted(views(entries@));
        }
        Acl { entries: sort_entries(entries) }
    }

    pub fn entries(&self) -> (r: &[AclEntry])
        ensures
            views(r@) == self@,
    {
        self.entries.as_slice()
    }

    pub fn entries_mut(&mut self) -> (r: &mut Vec<AclEntry>)
        ensures
            views(r@) == old(self)@,
            final(self)@ == views(final(r)@),
    {
        &mut self.entries
    }

    /// Whether two ACLs hold the same entries in the same order.
    pub fn same_as(&self, other: &Acl) -> (r: bool)
        ensures
            r == (self@ == other@),
    {
        if self.entries.len() != other.entries.len() {
            assert(self@.len() != other@.len());
            return false;
        }
        let mut i: usize = 0;
        while i < self.entries.len()
            invariant
                i <= self.entries@.len(),
                self.entries@.len() == other.entries@.len(),
                self@.len() == self.entries@.len(),
                other@.len() == other.entries@.len(),
                forall|k: int| 0 <= k < i ==> self@[k] == other@[k],
            decreases self.entries.len() - i,
        {
            let a = &self.entries[i];
            let b = &other.entries[i];
            if !(a.scope == b.scope && a.kind == b.kind && super::entry::same_identity(&a.identity, &b.identity)
                && a.permissions == b.permissions) {
                assert(self@[i as int] != other@[i as int]);
                return false;
            }
            assert(self@[i as int] == other@[i as int]);
            i = i + 1;
        }
        assert(self@ =~= other@);
        true
    }

    /// The number of entries.
    pub fn len(&self) -> (r: usize)
        ensures
            r == self@.len(),
    {
        self.entries.len()
    }

    /// The entry at position `i`.
    pub fn get(&self, i: usize) -> (r: &AclEntry)
        requires
            i < self@.len(),
        ensures
            r@ == self@[i as int],
    {
        &self.entries[i]
    }

    /// All entries in the given scope.
    pub fn in_scope(&self, scope: Scope) -> (r: Vec<&AclEntry>)
        ensures
            ref_views(r@) == filter_scope(self@, scope),
    {
        let mut out: Vec<&AclEntry> = Vec::new();
        let mut i: usize = 0;
        while i < self.entries.len()
            invariant
                i <= self.entries@.len(),
                ref_views(out@) == filter_scope(self@.take(i as int), scope),
            decreases self.entries.len() - i,
        {
            let e = &self.entries[i];
            proof {
                assert(self@.take(i + 1).drop_last() =~= self@.take(i as int));
                assert(self@.take(i + 1).last() == e@);
            }
            if e.scope == scope {
                out.push(e);
            }
            i = i + 1;
            assert(ref_views(out@) =~= filter_scope(self@.take(i as int), scope));
        }
        assert(self@.take(i as int) =~= self@);
        out
    }

    /// Whether the ACL has any default entries.
    pub fn has_default(&self) -> (r: bool)
        ensures
            r == exists|i: int| 0 <= i < self@.len() && (#[trigger] self@[i]).scope == Scope::Default,
    {
        let mut i: usize = 0;
        while i < self.entries.len()
            invariant
                i <= self.entries@.len(),
                forall|k: int| 0 <= k < i ==> (#[trigger] self@[k]).scope != Scope::Default,
            decreases self.entries.len() - i,
        {
            if self.entries[i].scope == Scope::Default {
                assert(self@[i as int].scope == Scope::Default);
                return true;
            }
            i = i + 1;
        }
        false
    }

    /// Sort the entries into a stable canonical order (scope, kind, identity).
    pub fn sort(&mut self)
        ensures
            final(self)@ == sort_view(old(self)@),
            is_sorted(final(self)@),
    {
        proof {
            lemma_sort_view_sorted(self@);
        }
        let mut taken: Vec<AclEntry> = Vec::new();
        std::mem::swap(&mut taken, &mut self.entries);
        self.entries = sort_entries(taken);
    }

    /// The position of the first entry in the slot `(scope, kind, identity)`.
    pub fn position(&self, scope: Scope, kind: EntryKind, identity: Option<&str>) -> (r: Option<usize>)
        ensures
            match r {
                Some(i) => first_in_slot(self@, scope, kind, opt_str_view(identity)) == Some(i as int),
                None => first_in_slot(self@, scope, kind, opt_str_view(identity)) is None,
            },
    {
        proof {
            lemma_first_in_slot(self@, scope, kind, opt_str_view(identity));
        }
        let mut i: usize = 0;
        while i < self.entries.len()
            invariant
                i <= self.entries@.len(),
                forall|k: int|
                    0 <= k < i ==> !in_slot(#[trigger] self@[k], scope, kind, opt_str_view(identity)),
                match first_in_slot(self@, scope, kind, opt_str_view(identity)) {
                    Some(j) => 0 <= j < self@.len() && in_slot(self@[j], scope, kind, opt_str_view(identity)) && forall|k: int|
                        0 <= k < j ==> !in_slot(#[trigger] self@[k], scope, kind, opt_str_view(identity)),
                    None => forall|k: int|
                        0 <= k < self@.len() ==> !in_slot(#[trigger] self@[k], scope, kind, opt_str_view(identity)),
                },
            decreases self.entries.len() - i,
        {
            let e = &self.entries[i];
            if e.scope == scope && e.kind == kind && identity_matches(&e.identity, identity) {
                proof {
                    assert(in_slot(self@[i as int], scope, kind, opt_str_view(identity)));
                    match first_in_slot(self@, scope, kind, opt_str_view(identity)) {
                        Some(j) => {
                            if j > i {
                                assert(!in_slot(self@[i as int], scope, kind, opt_str_view(identity)));
                            }
                        },
                        None => {},
                    }
                }
                return Some(i);
            }
            i = i + 1;
        }
        None
    }

    /// Find an entry by scope, kind and (for named entries) identity.
    pub fn find(&self, scope: Scope, kind: EntryKind, identity: Option<&str>) -> (r: Option<&AclEntry>)
        ensures
            match first_in_slot(self@, scope, kind, opt_str_view(identity)) {
                Some(i) => r is Some && r->0@ == self@[i],
                None => r is None,
            },
    {
        proof {
            lemma_first_in_slot(self@, scope, kind, opt_str_view(identity));
            assert(self@.len() == self.entries@.len());
        }
        match self.position(scope, kind, identity) {
            Some(i) => {
                assert(self@[i as int] == self.entries@[i as int]@);
                assert(first_in_slot(self@, scope, kind, opt_str_view(identity)) == Some(i as int));
                Some(&self.entries[i])
            },
            None => None,
        }
    }

    /// Insert an entry, keeping the list sorted.
    pub fn insert(&mut self, entry: AclEntry)
        ensures
            final(self)@ == sort_view(old(self)@.push(entry@)),
            is_sorted(final(self)@),
    {
        let ghost before = self@;
        self.entries.push(entry);
        assert(self@ =~= before.push(entry@));
        self.sort();
    }

    /// Remove the entries occupying the same slot (scope + kind + identity).
    ///
    /// Returns `true` if an entry was removed.
    pub fn remove_slot(&mut self, scope: Scope, kind: EntryKind, identity: Option<&str>) -> (r: bool)
        ensures
            final(self)@ == remove_view(old(self)@, scope, kind, opt_str_view(identity)),
            r == exists|i: int|
                0 <= i < old(self)@.len() && in_slot(#[trigger] old(self)@[i], scope, kind, opt_str_view(identity)),
            is_sorted(old(self)@) ==> is_sorted(final(self)@),
    {
        proof {
            if is_sorted(self@) {
                lemma_remove_view_sorted(self@, scope, kind, opt_str_view(identity));
            }
        }
        let ghost id = opt_str_view(identity);
        let ghost all = self@;
        let mut rest: Vec<AclEntry> = Vec::new();
        std::mem::swap(&mut rest, &mut self.entries);
        let mut out: Vec<AclEntry> = Vec::new();
        let mut k: usize = 0;
        let mut removed = false;
        let n = rest.len();
        while rest.len() > 0
            invariant
                all.len() == n,
                k + rest@.len() == all.len(),
                views(rest@) == all.skip(k as int),
                views(out@) == remove_view(all.take(k as int), scope, kind, id),
                id == opt_str_view(identity),
                removed == exists|i: int| 0 <= i < k && in_slot(#[trigger] all[i], scope, kind, id),
            decreases rest.len(),
        {
            let ghost before = rest@;
            let x = rest.remove(0);
            proof {
                assert(views(before)[0] == before[0]@);
                assert(all.skip(k as int)[0] == all[k as int]);
                assert(x@ == all[k as int]);
                assert(all.take(k + 1).drop_last() =~= all.take(k as int));
                assert(all.take(k + 1).last() == all[k as int]);
            }
            proof {
                assert forall|j: int| 0 <= j < rest@.len() implies views(rest@)[j] == all.skip(k + 1)[j] by {
                    assert(rest@[j] == before[j + 1]);
                    assert(views(before)[j + 1] == before[j + 1]@);
                    assert(all.skip(k as int)[j + 1] == all.skip(k + 1)[j]);
                }
            }
            if x.scope == scope && x.kind == kind && identity_matches(&x.identity, identity) {
                removed = true;
            } else {
                out.push(x);
            }
            k = k + 1;
            assert(views(rest@) =~= all.skip(k as int));
            assert(views(out@) =~= remove_view(all.take(k as int), scope, kind, id));
        }
        assert(all.take(k as int) =~= all);
        self.entries = out;
        removed
    }

    /// The mask entry for a scope, if present.
    pub fn mask(&self, scope: Scope) -> (r: Option<Permissions>)
        ensures
            r == mask_view(self@, scope),
    {
        proof {
            lemma_first_mask(self@, scope);
            assert(self@.len() == self.entries@.len());
        }
        match self.mask_position(scope) {
            Some(i) => {
                assert(self@[i as int] == self.entries@[i as int]@);
                Some(self.entries[i].permissions)
            },
            None => None,
        }
    }

    /// The position of the first mask entry of `scope`.
    fn mask_position(&self, scope: Scope) -> (r: Option<usize>)
        ensures
            match r {
                Some(i) => first_mask(self@, scope) == Some(i as int),
                None => first_mask(self@, scope) is None,
            },
    {
        proof {
            lemma_first_mask(self@, scope);
        }
        let mut i: usize = 0;
        while i < self.entries.len()
            invariant
                i <= self.entries@.len(),
                forall|k: int| 0 <= k < i ==> !is_mask_of(#[trigger] self@[k], scope),
                match first_mask(self@, scope) {
                    Some(j) => 0 <= j < self@.len() && is_mask_of(self@[j], scope) && forall|k: int|
                        0 <= k < j ==> !is_mask_of(#[trigger] self@[k], scope),
                    None => forall|k: int| 0 <= k < self@.len() ==> !is_mask_of(#[trigger] self@[k], scope),
                },
            decreases self.entries.len() - i,
        {
            if self.entries[i].scope == scope && self.entries[i].kind == EntryKind::Mask {
                proof {
                    assert(is_mask_of(self@[i as int], scope));
                    match first_mask(self@, scope) {
                        Some(j) => {
                            if j > i {
                                assert(!is_mask_of(self@[i as int], scope));
                            }
                        },
                        None => {},
                    }
                }
                return Some(i);
            }
            i = i + 1;
        }
        None
    }

    /// The position of the first mask entry of `scope`.
    pub fn mask_index(&self, scope: Scope) -> (r: Option<usize>)
        ensures
            match r {
                Some(i) => first_mask(self@, scope) == Some(i as int) && i < self@.len(),
                None => first_mask(self@, scope) is None,
            },
    {
        proof {
            lemma_first_mask(self@, scope);
        }
        self.mask_position(scope)
    }

    /// Whether a scope has a mask entry.
    pub fn has_mask(&self, scope: Scope) -> (r: bool)
        ensures
            r == has_mask(self@, scope),
    {
        proof {
            lemma_first_mask(self@, scope);
        }
        let r = self.mask_position(scope).is_some();
        proof {
            if has_mask(self@, scope) {
                let i = choose|i: int| 0 <= i < self@.len() && is_mask_of(#[trigger] self@[i], scope);
                assert(is_mask_of(self@[i], scope));
            }
        }
        r
    }

    /// Union of the group-class entries for a scope; this is the mask value
    /// `setfacl` computes when none is given explicitly.
    pub fn recalculate_mask(&self, scope: Scope) -> (r: Permissions)
        ensures
            r == recalc_view(self@, scope),
    {
        let mut mask = Permissions::none();
        let mut i: usize = 0;
        while i < self.entries.len()
            invariant
                i <= self.entries@.len(),
                mask == recalc_view(self@.take(i as int), scope),
            decreases self.entries.len() - i,
        {
            let e = &self.entries[i];
            proof {
                let t = self@.take(i + 1);
                assert forall|k: int| 0 <= k < i implies t[k] == self@.take(i as int)[k] by {}
                assert(t[i as int] == e@);
            }
            if e.scope == scope {
                match e.kind {
                    EntryKind::NamedUser | EntryKind::OwningGroup | EntryKind::NamedGroup => {
                        mask = mask.union(e.permissions);
                    },
                    _ => {},
                }
            }
            i = i + 1;
            proof {
                let t = self@.take(i as int);
                let p = self@.take(i - 1);
                assert forall|k: int| 0 <= k < i - 1 implies t[k] == p[k] by {}
                if mask.read {
                    if !is_group_class_of(t[i - 1], scope) || !t[i - 1].permissions.read {
                        let w = choose|w: int| 0 <= w < p.len() && is_group_class_of(#[trigger] p[w], scope) && p[w].permissions.read;
                        assert(is_group_class_of(t[w], scope) && t[w].permissions.read);
                    }
                }
                if recalc_view(t, scope).read {
                    let w = choose|w: int| 0 <= w < t.len() && is_group_class_of(#[trigger] t[w], scope) && t[w].permissions.read;
                    if w < i - 1 {
                        assert(is_group_class_of(p[w], scope));
                    }
                }
                if mask.write {
                    if !is_group_class_of(t[i - 1], scope) || !t[i - 1].permissions.write {
                        let w = choose|w: int| 0 <= w < p.len() && is_group_class_of(#[trigger] p[w], scope) && p[w].permissions.write;
                        assert(is_group_class_of(t[w], scope) && t[w].permissions.write);
                    }
                }
                if recalc_view(t, scope).write {
                    let w = choose|w: int| 0 <= w < t.len() && is_group_class_of(#[trigger] t[w], scope) && t[w].permissions.write;
                    if w < i - 1 {
                        assert(is_group_class_of(p[w], scope));
                    }
                }
                if mask.execute {
                    if !is_group_class_of(t[i - 1], scope) || !t[i - 1].permissions.execute {
                        let w = choose|w: int| 0 <= w < p.len() && is_group_class_of(#[trigger] p[w], scope) && p[w].permissions.execute;
                        assert(is_group_class_of(t[w], scope) && t[w].permissions.execute);
                    }
                }
                if recalc_view(t, scope).execute {
                    let w = choose|w: int| 0 <= w < t.len() && is_group_class_of(#[trigger] t[w], scope) && t[w].permissions.execute;
                    if w < i - 1 {
                        assert(is_group_class_of(p[w], scope));
                    }
                }
            }
        }
        assert(self@.take(i as int) =~= self@);
        mask
    }

    /// The permission an entry grants after the mask is applied. Base entries
    /// (owner, other) and the mask itself are never capped.
    pub fn effective(&self, entry: &AclEntry) -> (r: Permissions)
        ensures
            r == effective_view(self@, entry@),
    {
        let capped = match entry.kind {
            EntryKind::NamedUser | EntryKind::OwningGroup | EntryKind::NamedGroup => true,
            _ => false,
        };
        if capped {
            if let Some(mask) = self.mask(entry.scope) {
                return entry.permissions.intersect(mask);
            }
        }
        entry.permissions
    }

    /// Whether a scope has any extended (named) entries requiring a mask line.
    pub fn has_named_entries(&self, scope: Scope) -> (r: bool)
        ensures
            r == has_named(self@, scope),
    {
        let mut i: usize = 0;
        while i < self.entries.len()
            invariant
                i <= self.entries@.len(),
                forall|k: int|
                    0 <= k < i ==> !((#[trigger] self@[k]).scope == scope && kind_is_named(self@[k].kind)),
            decreases self.entries.len() - i,
        {
            let e = &self.entries[i];
            if e.scope == scope && e.kind.is_named() {
                assert(self@[i as int].scope == scope && kind_is_named(self@[i as int].kind));
                return true;
            }
            i = i + 1;
        }
        false
    }

    /// Insert or update the mask entry for a scope.
    pub fn set_mask(&mut self, scope: Scope, mask: Permissions)
        ensures
            final(self)@ == set_mask_view(old(self)@, scope, mask),
            is_sorted(old(self)@) ==> is_sorted(final(self)@),
    {
        proof {
            if is_sorted(self@) {
                lemma_set_mask_facts(self@, scope, other_scope(scope), mask);
            }
            lemma_first_mask(self@, scope);
            assert(self@.len() == self.entries@.len());
        }
        match self.mask_position(scope) {
            Some(i) => {
                let ghost before = self@;
                self.entries[i].permissions = mask;
                assert(self@ =~= before.update(i as int, EntryView { permissions: mask, ..before[i as int] }));
            },
            None => {
                let e = AclEntry::new(scope, EntryKind::Mask, None, mask);
                assert(e@ == mask_entry(scope, mask));
                self.insert(e);
            },
        }
    }

    /// One scope of [`Acl::normalize`].
    fn normalize_scope(&mut self, scope: Scope)
        ensures
            final(self)@ == normalize_step(old(self)@, scope),
    {
        let has_mask = self.has_mask(scope);
        let named = self.has_named_entries(scope);
        if named && !has_mask {
            let m = self.recalculate_mask(scope);
            self.set_mask(scope, m);
        } else if !named && has_mask {
            self.remove_slot(scope, EntryKind::Mask, None);
        }
    }

    /// Keep the mask entry in sync with the named entries of each scope: add a
    /// mask when a scope has named entries but no mask, and remove the mask when
    /// a scope no longer has any (so it falls back to plain owner/group/other).
    pub fn normalize(&mut self)
        ensures
            final(self)@ == normalize_view(old(self)@),
            is_sorted(old(self)@) ==> is_sorted(final(self)@),
    {
        proof {
            if is_sorted(self@) {
                lemma_normalize_step_facts(self@, Scope::Access, Scope::Default);
                lemma_normalize_step_facts(normalize_step(self@, Scope::Access), Scope::Default, Scope::Access);
            }
        }
        self.normalize_scope(Scope::Access);
        self.normalize_scope(Scope::Default);
    }

    /// Serialize the ACL to the text format accepted by `setfacl --set-file`.
    pub fn to_setfacl_text(&self) -> (r: String)
        ensures
            r@ == setfacl_text(self@),
    {
        let mut s = String::new();
        self.push_scope_lines(&mut s, Scope::Access);
        self.push_scope_lines(&mut s, Scope::Default);
        proof {
            lemma_join_lines_add(scope_lines(self@, Scope::Access), scope_lines(self@, Scope::Default));
        }
        assert(s@ =~= setfacl_text(self@));
        s
    }

    /// Appends the lines of one scope, each followed by a newline.
    fn push_scope_lines(&self, s: &mut String, scope: Scope)
        ensures
            final(s)@ == old(s)@ + join_lines(scope_lines(self@, scope)),
    {
        let ghost start = s@;
        let mut i: usize = 0;
        while i < self.entries.len()
            invariant
                i <= self.entries@.len(),
                s@ == start + join_lines(entry_lines(filter_scope(self@.take(i as int), scope))),
            decreases self.entries.len() - i,
        {
            let e = &self.entries[i];
            proof {
                assert(self@.take(i + 1).drop_last() =~= self@.take(i as int));
                assert(self@.take(i + 1).last() == e@);
            }
            let ghost before = s@;
            let ghost prev = filter_scope(self@.take(i as int), scope);
            if e.scope == scope {
                let t = e.to_text();
                push_str(s, t.as_str());
                push_char(s, '\n');
                proof {
                    assert(filter_scope(self@.take(i + 1), scope) == prev.push(e@));
                    assert(prev.push(e@).drop_last() =~= prev);
                    assert(entry_lines(prev.push(e@)) == entry_lines(prev).push(entry_text(e@)));
                    assert(entry_lines(prev).push(entry_text(e@)).drop_last() =~= entry_lines(prev));
                    assert(join_lines(entry_lines(prev.push(e@))) == join_lines(entry_lines(prev)) + entry_text(e@) + seq!['\n']);
                }
            } else {
                assert(filter_scope(self@.take(i + 1), scope) == prev);
            }
            i = i + 1;
            assert(s@ =~= start + join_lines(entry_lines(filter_scope(self@.take(i as int), scope))));
        }
        assert(self@.take(i as int) =~= self@);
        let ghost mid = s@;
        if self.has_named_entries(scope) && !self.has_mask(scope) {
            push_str(s, scope.prefix());
            proof {
                reveal_strlit("mask::");
            }
            push_str(s, "mask::");
            let m = self.recalculate_mask(scope).to_string();
            push_str(s, m.as_str());
            push_char(s, '\n');
            proof {
                let extra = seq![mask_line(scope, recalc_view(self@, scope))];
                lemma_join_lines_add(entry_lines(filter_scope(self@, scope)), extra);
                assert(extra.drop_last() =~= Seq::<Seq<char>>::empty());
                assert(join_lines(extra.drop_last()) =~= Seq::<char>::empty());
                assert(join_lines(extra) =~= mask_line(scope, recalc_view(self@, scope)) + seq!['\n']);
            }
            assert(s@ =~= start + join_lines(scope_lines(self@, scope)));
        } else {
            assert(scope_lines(self@, scope) =~= entry_lines(filter_scope(self@, scope)));
        }
    }
}

/// The view of an optional string slice.
pub open spec fn opt_str_view(o: Option<&str>) -> Option<Seq<char>> {
    match o {
        Some(s) => Some(s@),
        None => None,
    }
}

// ---------------------------------------------------------------------------
// Laws of the ACL model.

/// The mask only ever takes permission away: what an entry effectively
/// grants is within what it asks for, and owner, other and mask entries, as
/// well as entries of a scope without a mask, are never capped.
pub proof fn lemma_effective_within_request(s: Seq<EntryView>, e: EntryView)
    ensures
        grants_all(e.permissions, effective_view(s, e)),
        !kind_is_group_class(e.kind) ==> effective_view(s, e) == e.permissions,
        mask_view(s, e.scope) is None ==> effective_view(s, e) == e.permissions,
        kind_is_group_class(e.kind) && mask_view(s, e.scope) is Some ==> effective_view(s, e) == perm_and(
            e.permissions,
            mask_view(s, e.scope)->0,
        ),
{
}

/// The recalculated mask is the union of the group class of its scope: it
/// grants all of every group-class entry, and any set that grants all of
/// each of them grants all of it.
pub proof fn lemma_recalc_is_union(s: Seq<EntryView>, scope: Scope, m: Permissions)
    ensures
        forall|i: int|
            0 <= i < s.len() && is_group_class_of(#[trigger] s[i], scope) ==> grants_all(
                recalc_view(s, scope),
                s[i].permissions,
            ),
        (forall|i: int|
            0 <= i < s.len() && is_group_class_of(#[trigger] s[i], scope) ==> grants_all(m, s[i].permissions))
            ==> grants_all(m, recalc_view(s, scope)),
{
    assert forall|i: int|
        0 <= i < s.len() && is_group_class_of(#[trigger] s[i], scope) implies grants_all(
        recalc_view(s, scope),
        s[i].permissions,
    ) by {
        if s[i].permissions.read {
            assert(recalc_view(s, scope).read);
        }
        if s[i].permissions.write {
            assert(recalc_view(s, scope).write);
        }
        if s[i].permissions.execute {
            assert(recalc_view(s, scope).execute);
        }
    }
}

/// Removing a slot drops exactly the entries in that slot and keeps every
/// other entry.
pub proof fn lemma_remove_slot_contents(
    s: Seq<EntryView>,
    scope: Scope,
    kind: EntryKind,
    identity: Option<Seq<char>>,
)
    ensures
        forall|x: EntryView|
            #[trigger] remove_view(s, scope, kind, identity).contains(x) <==> (s.contains(x) && !in_slot(
                x,
                scope,
                kind,
                identity,
            )),
    decreases s.len(),
{
    if s.len() > 0 {
        let d = s.drop_last();
        lemma_remove_slot_contents(d, scope, kind, identity);
        let r = remove_view(s, scope, kind, identity);
        let rd = remove_view(d, scope, kind, identity);
        assert forall|x: EntryView| #[trigger] r.contains(x) <==> (s.contains(x) && !in_slot(x, scope, kind, identity)) by {
            if s.contains(x) {
                let i = choose|i: int| 0 <= i < s.len() && s[i] == x;
                if i < s.len() - 1 {
                    assert(d[i] == x);
                    assert(d.contains(x));
                }
            }
            if d.contains(x) {
                let i = choose|i: int| 0 <= i < d.len() && d[i] == x;
                assert(s[i] == x);
            }
            if in_slot(s.last(), scope, kind, identity) {
                assert(r == rd);
            } else {
                assert(r == rd.push(s.last()));
                if rd.contains(x) {
                    let i = choose|i: int| 0 <= i < rd.len() && rd[i] == x;
                    assert(r[i] == x);
                }
                if r.contains(x) && x != s.last() {
                    let i = choose|i: int| 0 <= i < r.len() && r[i] == x;
                    assert(i < rd.len());
                    assert(rd[i] == x);
                }
                if x == s.last() {
                    assert(r[rd.len() as int] == x);
                }
            }
        }
    }
}

/// Inserting keeps the canonical order and adds exactly the new entry;
/// sorting a list already in canonical order leaves it as it is.
pub proof fn lemma_insert_contents(s: Seq<EntryView>, e: EntryView)
    ensures
        is_sorted(sort_view(s.push(e))),
        sort_view(s.push(e)).to_multiset() == s.to_multiset().insert(e),
        is_sorted(s) ==> sort_view(s) == s,
{
    broadcast use vstd::seq_lib::group_to_multiset_ensures;

    lemma_sort_view_sorted(s.push(e));
    lemma_sort_view_multiset(s.push(e));
    if is_sorted(s) {
        lemma_sort_view_sorted_id(s);
    }
}

/// The entries of the sorted `s.push(x)` are those of `s` and `x`.
pub proof fn lemma_sorted_push_contents(s: Seq<EntryView>, x: EntryView)
    ensures
        forall|y: EntryView| #[trigger] sort_view(s.push(x)).contains(y) <==> (s.contains(y) || y == x),
{
    broadcast use vstd::seq_lib::group_to_multiset_ensures;
    broadcast use vstd::multiset::group_multiset_axioms;

    lemma_sort_view_multiset(s.push(x));
    let t = sort_view(s.push(x));
    assert forall|y: EntryView| #[trigger] t.contains(y) <==> (s.contains(y) || y == x) by {
        assert(t.to_multiset().count(y) == s.push(x).to_multiset().count(y));
        assert(s.push(x).to_multiset() == s.to_multiset().insert(x));
    }
}

/// After setting the mask of a scope, the mask of that scope is the value
/// set.
pub proof fn lemma_set_mask_then_mask(s: Seq<EntryView>, scope: Scope, m: Permissions)
    ensures
        mask_view(set_mask_view(s, scope, m), scope) == Some(m),
{
    lemma_first_mask(s, scope);
    let t = set_mask_view(s, scope, m);
    lemma_first_mask(t, scope);
    match first_mask(s, scope) {
        Some(i) => {
            assert(is_mask_of(t[i], scope));
            match first_mask(t, scope) {
                Some(j) => {
                    if j < i {
                        assert(t[j] == s[j]);
                    }
                    if j > i {
                        assert(!is_mask_of(t[i], scope));
                    }
                },
                None => {
                    assert(!is_mask_of(t[i], scope));
                },
            }
        },
        None => {
            let me = mask_entry(scope, m);
            lemma_sorted_push_contents(s, me);
            assert(s.push(me)[s.len() as int] == me);
            assert(t.contains(me));
            let w = choose|w: int| 0 <= w < t.len() && t[w] == me;
            match first_mask(t, scope) {
                Some(j) => {
                    assert(t.contains(t[j]));
                    if t[j] != me {
                        assert(s.contains(t[j]));
                        let k = choose|k: int| 0 <= k < s.len() && s[k] == t[j];
                        assert(!is_mask_of(s[k], scope));
                    }
                },
                None => {
                    assert(!is_mask_of(t[w], scope));
                },
            }
        },
    }
}

/// Mask entries carry no identity, as `getfacl` prints them.
pub open spec fn masks_plain(s: Seq<EntryView>) -> bool {
    forall|i: int| 0 <= i < s.len() && (#[trigger] s[i]).kind == EntryKind::Mask ==> s[i].identity is None
}

/// A mask with an identity stands only in a scope that has named entries:
/// every mask of a scope without named entries carries no identity.
pub open spec fn stray_masks_plain(s: Seq<EntryView>) -> bool {
    forall|i: int|
        0 <= i < s.len() && (#[trigger] s[i]).kind == EntryKind::Mask && !has_named(s, s[i].scope)
            ==> s[i].identity is None
}

/// Whether the mask facts of `scope` and the plainness of masks carry from
/// `t` to `s` when every entry of `t` is one of `s`.
proof fn lemma_facts_transfer(s: Seq<EntryView>, t: Seq<EntryView>, scope: Scope)
    requires
        forall|y: EntryView| #[trigger] t.contains(y) ==> s.contains(y),
    ensures
        has_mask(t, scope) ==> has_mask(s, scope),
        has_named(t, scope) ==> has_named(s, scope),
        masks_plain(s) ==> masks_plain(t),
{
    if has_mask(t, scope) {
        let i = choose|i: int| 0 <= i < t.len() && is_mask_of(#[trigger] t[i], scope);
        assert(t.contains(t[i]));
        let j = choose|j: int| 0 <= j < s.len() && s[j] == t[i];
        assert(is_mask_of(s[j], scope));
    }
    if has_named(t, scope) {
        let i = choose|i: int| 0 <= i < t.len() && #[trigger] t[i].scope == scope && kind_is_named(t[i].kind);
        assert(t.contains(t[i]));
        let j = choose|j: int| 0 <= j < s.len() && s[j] == t[i];
        assert(s[j].scope == scope && kind_is_named(s[j].kind));
    }
    if masks_plain(s) {
        assert forall|i: int| 0 <= i < t.len() && (#[trigger] t[i]).kind == EntryKind::Mask implies t[i].identity is None by {
            assert(t.contains(t[i]));
            let j = choose|j: int| 0 <= j < s.len() && s[j] == t[i];
            assert(s[j].kind == EntryKind::Mask);
        }
    }
}

/// One step of `normalize` brings the mask of its scope in line with the
/// named entries and leaves the facts of the other scope alone.
proof fn lemma_normalize_step(s: Seq<EntryView>, scope: Scope, other: Scope)
    requires
        stray_masks_plain(s),
        other != scope,
    ensures
        masks_plain(s) ==> masks_plain(normalize_step(s, scope)),
        stray_masks_plain(normalize_step(s, scope)),
        has_mask(normalize_step(s, scope), scope) <==> has_named(normalize_step(s, scope), scope),
        has_named(normalize_step(s, scope), scope) == has_named(s, scope),
        has_mask(normalize_step(s, scope), other) == has_mask(s, other),
        has_named(normalize_step(s, scope), other) == has_named(s, other),
{
    let t = normalize_step(s, scope);
    if has_named(s, scope) && !has_mask(s, scope) {
        lemma_first_mask(s, scope);
        if first_mask(s, scope) is Some {
            let i = first_mask(s, scope)->0;
            assert(is_mask_of(s[i], scope));
        }
        let me = mask_entry(scope, recalc_view(s, scope));
        let p = s.push(me);
        lemma_sorted_push_contents(s, me);
        assert(t == sort_view(p));
        assert forall|y: EntryView| #[trigger] t.contains(y) implies p.contains(y) by {
            if s.contains(y) {
                let i = choose|i: int| 0 <= i < s.len() && s[i] == y;
                assert(p[i] == y);
            } else {
                assert(p[s.len() as int] == y);
            }
        }
        assert forall|y: EntryView| #[trigger] p.contains(y) implies t.contains(y) by {
            let i = choose|i: int| 0 <= i < p.len() && p[i] == y;
            if i < s.len() {
                assert(s[i] == y);
                assert(s.contains(y));
            }
        }
        if masks_plain(s) {
            assert(masks_plain(p));
        }
        lemma_facts_transfer(p, t, scope);
        lemma_facts_transfer(p, t, other);
        lemma_facts_transfer(t, p, scope);
        lemma_facts_transfer(t, p, other);
        assert(is_mask_of(p[s.len() as int], scope));
        assert(has_mask(p, scope));
        if has_named(p, scope) {
            let i = choose|i: int| 0 <= i < p.len() && #[trigger] p[i].scope == scope && kind_is_named(p[i].kind);
            assert(i < s.len());
            assert(p[i] == s[i]);
        }
        if has_named(s, scope) {
            let i = choose|i: int| 0 <= i < s.len() && #[trigger] s[i].scope == scope && kind_is_named(s[i].kind);
            assert(p[i] == s[i]);
        }
        if has_named(s, other) {
            let i = choose|i: int| 0 <= i < s.len() && #[trigger] s[i].scope == other && kind_is_named(s[i].kind);
            assert(p[i] == s[i]);
        }
        if has_named(p, other) {
            let i = choose|i: int| 0 <= i < p.len() && #[trigger] p[i].scope == other && kind_is_named(p[i].kind);
            assert(i < s.len());
            assert(p[i] == s[i]);
        }
        if has_mask(s, other) {
            let i = choose|i: int| 0 <= i < s.len() && is_mask_of(#[trigger] s[i], other);
            assert(p[i] == s[i]);
        }
        if has_mask(p, other) {
            let i = choose|i: int| 0 <= i < p.len() && is_mask_of(#[trigger] p[i], other);
            assert(i < s.len());
            assert(p[i] == s[i]);
        }
        assert forall|k: int|
            0 <= k < t.len() && (#[trigger] t[k]).kind == EntryKind::Mask && !has_named(t, t[k].scope) implies t[k].identity
            is None by {
            assert(t.contains(t[k]));
            let j = choose|j: int| 0 <= j < p.len() && p[j] == t[k];
            if t[k].scope != scope {
                assert(t[k].scope == other);
            }
            assert(j < s.len());
            assert(s[j] == t[k]);
        }
    } else if !has_named(s, scope) && has_mask(s, scope) {
        lemma_remove_slot_contents(s, scope, EntryKind::Mask, None);
        assert forall|y: EntryView| #[trigger] t.contains(y) implies s.contains(y) by {}
        lemma_facts_transfer(s, t, scope);
        lemma_facts_transfer(s, t, other);
        if has_mask(t, scope) {
            let i = choose|i: int| 0 <= i < t.len() && is_mask_of(#[trigger] t[i], scope);
            assert(t.contains(t[i]));
            let j = choose|j: int| 0 <= j < s.len() && s[j] == t[i];
            assert(s[j].kind == EntryKind::Mask);
            assert(in_slot(t[i], scope, EntryKind::Mask, None));
        }
        if has_mask(s, other) {
            let i = choose|i: int| 0 <= i < s.len() && is_mask_of(#[trigger] s[i], other);
            assert(s.contains(s[i]));
            assert(t.contains(s[i]));
            let j = choose|j: int| 0 <= j < t.len() && t[j] == s[i];
            assert(is_mask_of(t[j], other));
        }
        if has_named(s, other) {
            let i = choose|i: int| 0 <= i < s.len() && #[trigger] s[i].scope == other && kind_is_named(s[i].kind);
            assert(s.contains(s[i]));
            assert(t.contains(s[i]));
            let j = choose|j: int| 0 <= j < t.len() && t[j] == s[i];
            assert(t[j].scope == other && kind_is_named(t[j].kind));
        }
        assert forall|k: int|
            0 <= k < t.len() && (#[trigger] t[k]).kind == EntryKind::Mask && !has_named(t, t[k].scope) implies t[k].identity
            is None by {
            assert(t.contains(t[k]));
            let j = choose|j: int| 0 <= j < s.len() && s[j] == t[k];
            if t[k].scope != scope {
                assert(t[k].scope == other);
            }
        }
    }
}

/// After `normalize`, each scope has a mask exactly when it has named
/// entries; named entries are neither added nor removed; masks without an
/// identity stay so. This holds of ACLs in which a mask with an identity
/// stands only in a scope with named entries.
pub proof fn lemma_normalize_syncs_mask(s: Seq<EntryView>)
    requires
        stray_masks_plain(s),
    ensures
        masks_plain(s) ==> masks_plain(normalize_view(s)),
        stray_masks_plain(normalize_view(s)),
        has_mask(normalize_view(s), Scope::Access) <==> has_named(normalize_view(s), Scope::Access),
        has_mask(normalize_view(s), Scope::Default) <==> has_named(normalize_view(s), Scope::Default),
        has_named(normalize_view(s), Scope::Access) == has_named(s, Scope::Access),
        has_named(normalize_view(s), Scope::Default) == has_named(s, Scope::Default),
{
    lemma_normalize_step(s, Scope::Access, Scope::Default);
    lemma_normalize_step(normalize_step(s, Scope::Access), Scope::Default, Scope::Access);
}

/// Whether `s` and `t` hold the same entries apart from masks.
pub open spec fn same_unmasked(s: Seq<EntryView>, t: Seq<EntryView>) -> bool {
    forall|y: EntryView| y.kind != EntryKind::Mask ==> (#[trigger] s.contains(y) <==> t.contains(y))
}

proof fn lemma_same_unmasked_facts(s: Seq<EntryView>, t: Seq<EntryView>, scope: Scope)
    requires
        same_unmasked(s, t),
    ensures
        recalc_view(s, scope) == recalc_view(t, scope),
        has_named(s, scope) == has_named(t, scope),
{
    assert forall|a: Seq<EntryView>, b: Seq<EntryView>| #![trigger same_unmasked(a, b)] same_unmasked(a, b) implies {
        &&& recalc_view(a, scope).read ==> recalc_view(b, scope).read
        &&& recalc_view(a, scope).write ==> recalc_view(b, scope).write
        &&& recalc_view(a, scope).execute ==> recalc_view(b, scope).execute
        &&& has_named(a, scope) ==> has_named(b, scope)
    } by {
        if recalc_view(a, scope).read {
            let i = choose|i: int| 0 <= i < a.len() && is_group_class_of(#[trigger] a[i], scope) && a[i].permissions.read;
            assert(a.contains(a[i]));
            assert(b.contains(a[i]));
            let j = choose|j: int| 0 <= j < b.len() && b[j] == a[i];
            assert(is_group_class_of(b[j], scope) && b[j].permissions.read);
        }
        if recalc_view(a, scope).write {
            let i = choose|i: int| 0 <= i < a.len() && is_group_class_of(#[trigger] a[i], scope) && a[i].permissions.write;
            assert(a.contains(a[i]));
            assert(b.contains(a[i]));
            let j = choose|j: int| 0 <= j < b.len() && b[j] == a[i];
            assert(is_group_class_of(b[j], scope) && b[j].permissions.write);
        }
        if recalc_view(a, scope).execute {
            let i = choose|i: int| 0 <= i < a.len() && is_group_class_of(#[trigger] a[i], scope) && a[i].permissions.execute;
            assert(a.contains(a[i]));
            assert(b.contains(a[i]));
            let j = choose|j: int| 0 <= j < b.len() && b[j] == a[i];
            assert(is_group_class_of(b[j], scope) && b[j].permissions.execute);
        }
        if has_named(a, scope) {
            let i = choose|i: int| 0 <= i < a.len() && #[trigger] a[i].scope == scope && kind_is_named(a[i].kind);
            assert(a.contains(a[i]));
            assert(b.contains(a[i]));
            let j = choose|j: int| 0 <= j < b.len() && b[j] == a[i];
            assert(b[j].scope == scope && kind_is_named(b[j].kind));
        }
    }
    assert(same_unmasked(t, s));
}

/// Removing entries from a sorted list keeps it sorted.
proof fn lemma_remove_view_sorted(s: Seq<EntryView>, scope: Scope, kind: EntryKind, identity: Option<Seq<char>>)
    requires
        is_sorted(s),
    ensures
        is_sorted(remove_view(s, scope, kind, identity)),
    decreases s.len(),
{
    if s.len() > 0 {
        let d = s.drop_last();
        assert(is_sorted(d));
        lemma_remove_view_sorted(d, scope, kind, identity);
        if !in_slot(s.last(), scope, kind, identity) {
            let r = remove_view(d, scope, kind, identity);
            lemma_remove_slot_contents(d, scope, kind, identity);
            let t = r.push(s.last());
            assert forall|i: int, j: int| 0 <= i < j < t.len() implies key_le(t[i], t[j]) by {
                if j == r.len() {
                    assert(r.contains(r[i]));
                    assert(d.contains(r[i]));
                    let k = choose|k: int| 0 <= k < d.len() && d[k] == r[i];
                    assert(key_le(s[k], s[s.len() - 1]));
                } else {
                    assert(t[i] == r[i] && t[j] == r[j]);
                }
            }
        }
    }
}

/// Where `x` goes in the sorted `s`: after every entry that sorts no later
/// than it.
proof fn lemma_split_point(s: Seq<EntryView>, x: EntryView) -> (j: int)
    requires
        is_sorted(s),
    ensures
        0 <= j <= s.len(),
        j == 0 || key_le(s[j - 1], x),
        forall|k: int| j <= k < s.len() ==> !key_le(#[trigger] s[k], x),
    decreases s.len(),
{
    if s.len() == 0 {
        0
    } else if key_le(s.last(), x) {
        s.len() as int
    } else {
        let d = s.drop_last();
        assert(is_sorted(d));
        let j = lemma_split_point(d, x);
        assert forall|k: int| j <= k < s.len() implies !key_le(#[trigger] s[k], x) by {
            if k < d.len() {
                assert(s[k] == d[k]);
            }
        }
        j
    }
}

/// Inserting `x` with another scope than `scope` into a sorted list leaves
/// the mask of `scope` alone.
proof fn lemma_insert_other_mask(s: Seq<EntryView>, x: EntryView, scope: Scope)
    requires
        is_sorted(s),
        x.scope != scope,
    ensures
        mask_view(sort_view(s.push(x)), scope) == mask_view(s, scope),
{
    lemma_sort_view_sorted_id(s);
    assert(s.push(x).drop_last() =~= s);
    let j = lemma_split_point(s, x);
    lemma_insert_sorted_at(s, x, j);
    let t = s.insert(j, x);
    assert(sort_view(s.push(x)) == t);
    lemma_first_mask(s, scope);
    lemma_first_mask(t, scope);
    assert forall|k: int| 0 <= k < j implies t[k] == s[k] by {}
    assert forall|k: int| j < k < t.len() implies t[k] == s[k - 1] by {}
    match first_mask(s, scope) {
        Some(i) => {
            let i2 = if i < j {
                i
            } else {
                i + 1
            };
            assert(t[i2] == s[i]);
            match first_mask(t, scope) {
                Some(f) => {
                    if f < i2 {
                        if f < j {
                            assert(!is_mask_of(s[f], scope));
                        } else if f > j {
                            assert(!is_mask_of(s[f - 1], scope));
                        }
                    }
                    if f > i2 {
                        assert(!is_mask_of(t[i2], scope));
                    }
                },
                None => {
                    assert(!is_mask_of(t[i2], scope));
                },
            }
        },
        None => {
            match first_mask(t, scope) {
                Some(f) => {
                    if f < j {
                        assert(!is_mask_of(s[f], scope));
                    } else if f > j {
                        assert(!is_mask_of(s[f - 1], scope));
                    }
                },
                None => {},
            }
        },
    }
}

/// Setting the mask of `scope` in a sorted list keeps it sorted, keeps every
/// other entry, and leaves the mask of the other scope alone.
proof fn lemma_set_mask_facts(s: Seq<EntryView>, scope: Scope, other: Scope, m: Permissions)
    requires
        is_sorted(s),
        other != scope,
    ensures
        is_sorted(set_mask_view(s, scope, m)),
        same_unmasked(s, set_mask_view(s, scope, m)),
        mask_view(set_mask_view(s, scope, m), other) == mask_view(s, other),
{
    let t = set_mask_view(s, scope, m);
    lemma_first_mask(s, scope);
    match first_mask(s, scope) {
        Some(i) => {
            assert forall|a: int, b: int| 0 <= a < b < t.len() implies key_le(t[a], t[b]) by {
                assert(key_le(s[a], s[b]));
            }
            assert forall|y: EntryView| y.kind != EntryKind::Mask implies (#[trigger] s.contains(y) <==> t.contains(y)) by {
                if s.contains(y) {
                    let k = choose|k: int| 0 <= k < s.len() && s[k] == y;
                    assert(t[k] == y);
                }
                if t.contains(y) {
                    let k = choose|k: int| 0 <= k < t.len() && t[k] == y;
                    assert(s[k] == y);
                }
            }
            lemma_first_mask(t, other);
            lemma_first_mask(s, other);
            assert(forall|k: int| 0 <= k < s.len() ==> (is_mask_of(#[trigger] t[k], other) <==> is_mask_of(s[k], other)));
            match first_mask(s, other) {
                Some(f) => {
                    match first_mask(t, other) {
                        Some(g) => {
                            if g < f {
                                assert(!is_mask_of(s[g], other));
                            }
                            if g > f {
                                assert(!is_mask_of(t[f], other));
                            }
                            assert(t[f] == s[f]);
                        },
                        None => {
                            assert(!is_mask_of(t[f], other));
                        },
                    }
                },
                None => {
                    match first_mask(t, other) {
                        Some(g) => {
                            assert(!is_mask_of(s[g], other));
                        },
                        None => {},
                    }
                },
            }
        },
        None => {
            let me = mask_entry(scope, m);
            lemma_sort_view_sorted(s.push(me));
            lemma_sorted_push_contents(s, me);
            lemma_insert_other_mask(s, me, other);
        },
    }
}

/// One step of `normalize` keeps a sorted list sorted and keeps every entry
/// but masks.
proof fn lemma_normalize_step_facts(s: Seq<EntryView>, scope: Scope, other: Scope)
    requires
        is_sorted(s),
        other != scope,
    ensures
        is_sorted(normalize_step(s, scope)),
        same_unmasked(s, normalize_step(s, scope)),
{
    if has_named(s, scope) && !has_mask(s, scope) {
        lemma_set_mask_facts(s, scope, other, recalc_view(s, scope));
    } else if !has_named(s, scope) && has_mask(s, scope) {
        lemma_remove_view_sorted(s, scope, EntryKind::Mask, None);
        lemma_remove_slot_contents(s, scope, EntryKind::Mask, None);
    }
}

/// The ACL normalized, then with the mask of each scope that has named
/// entries set to the union of its group class, access scope first: what a
/// save writes under the `Auto` mask policy.
pub open spec fn auto_masks_view(w: Seq<EntryView>) -> Seq<EntryView> {
    let n = normalize_view(w);
    let a = if has_named(n, Scope::Access) {
        set_mask_view(n, Scope::Access, recalc_view(n, Scope::Access))
    } else {
        n
    };
    if has_named(a, Scope::Default) {
        set_mask_view(a, Scope::Default, recalc_view(a, Scope::Default))
    } else {
        a
    }
}

/// With the masks recalculated, every scope with named entries has a mask
/// that is the union of its group class, so no group-class entry is capped;
/// the named entries are the ones of the ACL. This holds of ACLs in
/// canonical order, as every edit keeps them.
pub proof fn lemma_auto_masks_cover(w: Seq<EntryView>, scope: Scope)
    requires
        is_sorted(w),
    ensures
        has_named(auto_masks_view(w), scope) == has_named(w, scope),
        has_named(w, scope) ==> mask_view(auto_masks_view(w), scope) == Some(
            recalc_view(auto_masks_view(w), scope),
        ),
        forall|i: int|
            0 <= i < auto_masks_view(w).len() && has_named(w, scope) && is_group_class_of(
                #[trigger] auto_masks_view(w)[i],
                scope,
            ) ==> effective_view(auto_masks_view(w), auto_masks_view(w)[i])
                == auto_masks_view(w)[i].permissions,
{
    let n1 = normalize_step(w, Scope::Access);
    lemma_normalize_step_facts(w, Scope::Access, Scope::Default);
    let n = normalize_step(n1, Scope::Default);
    lemma_normalize_step_facts(n1, Scope::Default, Scope::Access);
    assert(n == normalize_view(w));
    lemma_same_unmasked_facts(w, n1, scope);
    lemma_same_unmasked_facts(n1, n, scope);
    let a = if has_named(n, Scope::Access) {
        set_mask_view(n, Scope::Access, recalc_view(n, Scope::Access))
    } else {
        n
    };
    if has_named(n, Scope::Access) {
        lemma_set_mask_facts(n, Scope::Access, Scope::Default, recalc_view(n, Scope::Access));
        lemma_set_mask_then_mask(n, Scope::Access, recalc_view(n, Scope::Access));
    }
    lemma_same_unmasked_facts(n, a, scope);
    lemma_same_unmasked_facts(n, a, Scope::Access);
    let d = auto_masks_view(w);
    if has_named(a, Scope::Default) {
        lemma_set_mask_facts(a, Scope::Default, Scope::Access, recalc_view(a, Scope::Default));
        lemma_set_mask_then_mask(a, Scope::Default, recalc_view(a, Scope::Default));
    }
    lemma_same_unmasked_facts(a, d, scope);
    lemma_same_unmasked_facts(a, d, Scope::Access);
    lemma_same_unmasked_facts(a, d, Scope::Default);
    if has_named(w, scope) {
        assert(mask_view(d, scope) == Some(recalc_view(d, scope)));
        lemma_recalc_is_union(d, scope, recalc_view(d, scope));
        assert forall|i: int|
            0 <= i < d.len() && is_group_class_of(#[trigger] d[i], scope) implies effective_view(d, d[i])
            == d[i].permissions by {
            assert(grants_all(recalc_view(d, scope), d[i].permissions));
        }
    }
}

/// Every entry of `t` is one of `s` or a mask without identity.
pub open spec fn from_or_mask(s: Seq<EntryView>, t: Seq<EntryView>) -> bool {
    forall|y: EntryView|
        #[trigger] t.contains(y) ==> s.contains(y) || (y.kind == EntryKind::Mask && y.identity is None)
}

proof fn lemma_has_mask_view(s: Seq<EntryView>, scope: Scope)
    ensures
        has_mask(s, scope) <==> mask_view(s, scope) is Some,
{
    lemma_first_mask(s, scope);
    if has_mask(s, scope) {
        let i = choose|i: int| 0 <= i < s.len() && is_mask_of(#[trigger] s[i], scope);
        assert(is_mask_of(s[i], scope));
    }
    if mask_view(s, scope) is Some {
        let i = first_mask(s, scope)->0;
        assert(is_mask_of(s[i], scope));
    }
}

proof fn lemma_set_mask_from(s: Seq<EntryView>, scope: Scope, m: Permissions)
    requires
        masks_plain(s),
    ensures
        from_or_mask(s, set_mask_view(s, scope, m)),
{
    let t = set_mask_view(s, scope, m);
    lemma_first_mask(s, scope);
    match first_mask(s, scope) {
        Some(i) => {
            assert forall|y: EntryView| #[trigger] t.contains(y) implies s.contains(y) || (y.kind
                == EntryKind::Mask && y.identity is None) by {
                let k = choose|k: int| 0 <= k < t.len() && t[k] == y;
                if k != i {
                    assert(s[k] == y);
                } else {
                    assert(s[i].kind == EntryKind::Mask);
                    assert(s[i].identity is None);
                }
            }
        },
        None => {
            lemma_sorted_push_contents(s, mask_entry(scope, m));
        },
    }
}

proof fn lemma_normalize_step_from(s: Seq<EntryView>, scope: Scope)
    requires
        masks_plain(s),
    ensures
        from_or_mask(s, normalize_step(s, scope)),
{
    if has_named(s, scope) && !has_mask(s, scope) {
        lemma_set_mask_from(s, scope, recalc_view(s, scope));
    } else if !has_named(s, scope) && has_mask(s, scope) {
        lemma_remove_slot_contents(s, scope, EntryKind::Mask, None);
    }
}

proof fn lemma_from_or_mask_plain(s: Seq<EntryView>, t: Seq<EntryView>)
    requires
        from_or_mask(s, t),
        masks_plain(s),
    ensures
        masks_plain(t),
{
    assert forall|i: int| 0 <= i < t.len() && (#[trigger] t[i]).kind == EntryKind::Mask implies t[i].identity is None by {
        assert(t.contains(t[i]));
        if s.contains(t[i]) {
            let k = choose|k: int| 0 <= k < s.len() && s[k] == t[i];
            assert(s[k].kind == EntryKind::Mask);
        }
    }
}

proof fn lemma_from_or_mask_trans(a: Seq<EntryView>, b: Seq<EntryView>, c: Seq<EntryView>)
    requires
        from_or_mask(a, b),
        from_or_mask(b, c),
    ensures
        from_or_mask(a, c),
{
}

/// Normalizing, and recalculating the masks, keep an ACL in canonical order,
/// add no entry but plain masks, and leave a mask in every scope with named
/// entries (for ACLs whose masks carry no identity).
pub proof fn lemma_written_form(w: Seq<EntryView>)
    requires
        is_sorted(w),
        masks_plain(w),
    ensures
        is_sorted(normalize_view(w)),
        is_sorted(auto_masks_view(w)),
        from_or_mask(w, normalize_view(w)),
        from_or_mask(w, auto_masks_view(w)),
        has_named(normalize_view(w), Scope::Access) ==> has_mask(normalize_view(w), Scope::Access),
        has_named(normalize_view(w), Scope::Default) ==> has_mask(normalize_view(w), Scope::Default),
        has_named(auto_masks_view(w), Scope::Access) ==> has_mask(auto_masks_view(w), Scope::Access),
        has_named(auto_masks_view(w), Scope::Default) ==> has_mask(auto_masks_view(w), Scope::Default),
{
    let n1 = normalize_step(w, Scope::Access);
    lemma_normalize_step_facts(w, Scope::Access, Scope::Default);
    lemma_normalize_step(w, Scope::Access, Scope::Default);
    lemma_normalize_step_from(w, Scope::Access);
    let n = normalize_step(n1, Scope::Default);
    lemma_normalize_step_facts(n1, Scope::Default, Scope::Access);
    lemma_normalize_step_from(n1, Scope::Default);
    lemma_from_or_mask_trans(w, n1, n);
    lemma_normalize_syncs_mask(w);
    let a = if has_named(n, Scope::Access) {
        set_mask_view(n, Scope::Access, recalc_view(n, Scope::Access))
    } else {
        n
    };
    if has_named(n, Scope::Access) {
        lemma_set_mask_facts(n, Scope::Access, Scope::Default, recalc_view(n, Scope::Access));
        lemma_set_mask_then_mask(n, Scope::Access, recalc_view(n, Scope::Access));
        lemma_set_mask_from(n, Scope::Access, recalc_view(n, Scope::Access));
        lemma_from_or_mask_trans(w, n, a);
        lemma_from_or_mask_plain(n, a);
    }
    lemma_same_unmasked_facts(n, a, Scope::Access);
    lemma_same_unmasked_facts(n, a, Scope::Default);
    lemma_has_mask_view(n, Scope::Access);
    lemma_has_mask_view(n, Scope::Default);
    lemma_has_mask_view(a, Scope::Access);
    lemma_has_mask_view(a, Scope::Default);
    let d = auto_masks_view(w);
    if has_named(a, Scope::Default) {
        lemma_set_mask_facts(a, Scope::Default, Scope::Access, recalc_view(a, Scope::Default));
        lemma_set_mask_then_mask(a, Scope::Default, recalc_view(a, Scope::Default));
        lemma_set_mask_from(a, Scope::Default, recalc_view(a, Scope::Default));
        lemma_from_or_mask_trans(w, a, d);
    }
    lemma_same_unmasked_facts(a, d, Scope::Access);
    lemma_same_unmasked_facts(a, d, Scope::Default);
    lemma_has_mask_view(d, Scope::Access);
    lemma_has_mask_view(d, Scope::Default);
}

/// The scope that is not `scope`.
pub open spec fn other_scope(scope: Scope) -> Scope {
    match scope {
        Scope::Access => Scope::Default,
        Scope::Default => Scope::Access,
    }
}

/// Every edit keeps an ACL in canonical order: building, inserting and
/// sorting give a sorted list, and removing a slot, setting a mask and
/// normalizing keep a sorted list sorted.
pub proof fn lemma_edits_keep_order(
    s: Seq<EntryView>,
    e: EntryView,
    scope: Scope,
    kind: EntryKind,
    identity: Option<Seq<char>>,
    m: Permissions,
)
    ensures
        is_sorted(sort_view(s)),
        is_sorted(sort_view(s.push(e))),
        is_sorted(s) ==> is_sorted(remove_view(s, scope, kind, identity)),
        is_sorted(s) ==> is_sorted(set_mask_view(s, scope, m)),
        is_sorted(s) ==> is_sorted(normalize_view(s)),
{
    lemma_sort_view_sorted(s);
    lemma_sort_view_sorted(s.push(e));
    if is_sorted(s) {
        lemma_remove_view_sorted(s, scope, kind, identity);
        lemma_set_mask_facts(s, scope, other_scope(scope), m);
        lemma_normalize_step_facts(s, Scope::Access, Scope::Default);
        lemma_normalize_step_facts(normalize_step(s, Scope::Access), Scope::Default, Scope::Access);
    }
}

/// The entries of `s` that are not masks, in order.
pub open spec fn unmasked(s: Seq<EntryView>) -> Seq<EntryView>
    decreases s.len(),
{
    if s.len() == 0 {
        s
    } else if s.last().kind == EntryKind::Mask {
        unmasked(s.drop_last())
    } else {
        unmasked(s.drop_last()).push(s.last())
    }
}

proof fn lemma_unmasked_add(a: Seq<EntryView>, b: Seq<EntryView>)
    ensures
        unmasked(a + b) == unmasked(a) + unmasked(b),
    decreases b.len(),
{
    if b.len() == 0 {
        assert(a + b =~= a);
        assert(unmasked(a) + unmasked(b) =~= unmasked(a));
    } else {
        lemma_unmasked_add(a, b.drop_last());
        assert((a + b).drop_last() =~= a + b.drop_last());
        assert((a + b).last() == b.last());
        assert(unmasked(a + b) =~= unmasked(a) + unmasked(b));
    }
}

proof fn lemma_filter_scope_add(a: Seq<EntryView>, b: Seq<EntryView>, scope: Scope)
    ensures
        filter_scope(a + b, scope) == filter_scope(a, scope) + filter_scope(b, scope),
    decreases b.len(),
{
    if b.len() == 0 {
        assert(a + b =~= a);
        assert(filter_scope(a, scope) + filter_scope(b, scope) =~= filter_scope(a, scope));
    } else {
        lemma_filter_scope_add(a, b.drop_last(), scope);
        assert((a + b).drop_last() =~= a + b.drop_last());
        assert((a + b).last() == b.last());
        assert(filter_scope(a + b, scope) =~= filter_scope(a, scope) + filter_scope(b, scope));
    }
}

proof fn lemma_single_mask(x: EntryView, other: Scope)
    requires
        x.kind == EntryKind::Mask,
        x.scope != other,
    ensures
        unmasked(seq![x]) == Seq::<EntryView>::empty(),
        filter_scope(seq![x], other) == Seq::<EntryView>::empty(),
{
    let t = seq![x];
    assert(t.drop_last() =~= Seq::<EntryView>::empty());
    assert(t.last() == x);
    assert(unmasked(Seq::<EntryView>::empty()) == Seq::<EntryView>::empty());
    assert(filter_scope(Seq::<EntryView>::empty(), other) == Seq::<EntryView>::empty());
}

/// The entries of one scope are exactly the entries of the ACL in that scope.
pub proof fn lemma_filter_scope_contains(s: Seq<EntryView>, scope: Scope)
    ensures
        forall|x: EntryView| #[trigger] filter_scope(s, scope).contains(x) <==> (s.contains(x) && x.scope == scope),
    decreases s.len(),
{
    if s.len() > 0 {
        let d = s.drop_last();
        lemma_filter_scope_contains(d, scope);
        assert(s =~= d.push(s.last()));
        assert forall|x: EntryView| #[trigger] filter_scope(s, scope).contains(x) <==> (s.contains(x) && x.scope == scope) by {
            vstd::seq_lib::lemma_seq_contains_after_push(d, s.last(), x);
            vstd::seq_lib::lemma_seq_contains_after_push(filter_scope(d, scope), s.last(), x);
        }
    }
}

/// One step of `normalize` keeps every entry but a mask of its scope, and
/// keeps that too when the scope has named entries.
proof fn lemma_step_keeps_entry(s: Seq<EntryView>, scope: Scope, x: EntryView)
    requires
        s.contains(x),
        x.kind != EntryKind::Mask || x.scope != scope || has_named(s, scope),
    ensures
        normalize_step(s, scope).contains(x),
{
    if has_named(s, scope) && !has_mask(s, scope) {
        lemma_first_mask(s, scope);
        if first_mask(s, scope) is Some {
            assert(is_mask_of(s[first_mask(s, scope)->0], scope));
        }
        lemma_sorted_push_contents(s, mask_entry(scope, recalc_view(s, scope)));
    } else if !has_named(s, scope) && has_mask(s, scope) {
        lemma_remove_slot_contents(s, scope, EntryKind::Mask, None);
    }
}

/// `normalize` keeps every entry but masks, and keeps a mask of a scope
/// that has named entries.
pub proof fn lemma_normalize_keeps_entry(s: Seq<EntryView>, x: EntryView)
    requires
        s.contains(x),
        x.kind != EntryKind::Mask || has_named(s, x.scope),
    ensures
        normalize_view(s).contains(x),
{
    lemma_step_keeps_entry(s, Scope::Access, x);
    let n1 = normalize_step(s, Scope::Access);
    if x.kind == EntryKind::Mask {
        let i = choose|i: int| 0 <= i < s.len() && #[trigger] s[i].scope == x.scope && kind_is_named(s[i].kind);
        assert(s.contains(s[i]));
        lemma_step_keeps_entry(s, Scope::Access, s[i]);
        let j = choose|j: int| 0 <= j < n1.len() && n1[j] == s[i];
        assert(n1[j].scope == x.scope && kind_is_named(n1[j].kind));
    }
    lemma_step_keeps_entry(n1, Scope::Default, x);
}

/// An edit of an ACL by one of its methods: `insert`, `remove_slot`,
/// `set_mask`, `normalize` or `sort`.
pub enum AclEdit {
    Insert(EntryView),
    RemoveSlot(Scope, EntryKind, Option<Seq<char>>),
    SetMask(Scope, Permissions),
    Normalize,
    Sort,
}

/// The entries after one edit, as the method's contract gives them.
pub open spec fn apply_edit(s: Seq<EntryView>, edit: AclEdit) -> Seq<EntryView> {
    match edit {
        AclEdit::Insert(e) => sort_view(s.push(e)),
        AclEdit::RemoveSlot(scope, kind, identity) => remove_view(s, scope, kind, identity),
        AclEdit::SetMask(scope, m) => set_mask_view(s, scope, m),
        AclEdit::Normalize => normalize_view(s),
        AclEdit::Sort => sort_view(s),
    }
}

/// The entries after a series of edits, first to last.
pub open spec fn apply_edits(s: Seq<EntryView>, edits: Seq<AclEdit>) -> Seq<EntryView>
    decreases edits.len(),
{
    if edits.len() == 0 {
        s
    } else {
        apply_edit(apply_edits(s, edits.drop_last()), edits.last())
    }
}

proof fn lemma_sorted_stays_sorted(s: Seq<EntryView>, edits: Seq<AclEdit>)
    requires
        is_sorted(s),
    ensures
        is_sorted(apply_edits(s, edits)),
    decreases edits.len(),
{
    if edits.len() > 0 {
        lemma_sorted_stays_sorted(s, edits.drop_last());
        let t = apply_edits(s, edits.drop_last());
        let z = Permissions { read: false, write: false, execute: false };
        let x = mask_entry(Scope::Access, z);
        match edits.last() {
            AclEdit::Insert(e) => lemma_edits_keep_order(t, e, Scope::Access, EntryKind::Mask, None, z),
            AclEdit::RemoveSlot(scope, kind, identity) => lemma_edits_keep_order(t, x, scope, kind, identity, z),
            AclEdit::SetMask(scope, m) => lemma_edits_keep_order(t, x, scope, EntryKind::Mask, None, m),
            AclEdit::Normalize => lemma_edits_keep_order(t, x, Scope::Access, EntryKind::Mask, None, z),
            AclEdit::Sort => lemma_edits_keep_order(t, x, Scope::Access, EntryKind::Mask, None, z),
        }
    }
}

/// The ACL is one list in canonical order: one built by `Acl::new` or
/// `Acl::default` and then changed only by `insert`, `remove_slot`,
/// `set_mask`, `normalize` and `sort` stays sorted by (scope, kind,
/// identity), whatever the edits.
pub proof fn lemma_acl_stays_sorted(entries: Seq<EntryView>, edits: Seq<AclEdit>)
    ensures
        is_sorted(apply_edits(sort_view(entries), edits)),
        is_sorted(apply_edits(Seq::<EntryView>::empty(), edits)),
{
    lemma_sort_view_sorted(entries);
    lemma_sorted_stays_sorted(sort_view(entries), edits);
    assert(is_sorted(Seq::<EntryView>::empty()));
    lemma_sorted_stays_sorted(Seq::<EntryView>::empty(), edits);
}

/// Inserting a mask of `scope` into a sorted list leaves the unmasked
/// entries and the entries of every other scope as they were.
proof fn lemma_insert_mask_keeps(s: Seq<EntryView>, x: EntryView, other: Scope)
    requires
        is_sorted(s),
        x.kind == EntryKind::Mask,
        x.scope != other,
    ensures
        unmasked(sort_view(s.push(x))) == unmasked(s),
        filter_scope(sort_view(s.push(x)), other) == filter_scope(s, other),
{
    lemma_sort_view_sorted_id(s);
    assert(s.push(x).drop_last() =~= s);
    let j = lemma_split_point(s, x);
    lemma_insert_sorted_at(s, x, j);
    let a = s.take(j);
    let c = s.skip(j);
    assert(s =~= a + c);
    assert(s.insert(j, x) =~= a + seq![x] + c);
    lemma_unmasked_add(a, c);
    lemma_unmasked_add(a + seq![x], c);
    lemma_unmasked_add(a, seq![x]);
    lemma_single_mask(x, other);
    assert(unmasked(a) + Seq::<EntryView>::empty() =~= unmasked(a));
    lemma_filter_scope_add(a, c, other);
    lemma_filter_scope_add(a + seq![x], c, other);
    lemma_filter_scope_add(a, seq![x], other);
    assert(filter_scope(a, other) + Seq::<EntryView>::empty() =~= filter_scope(a, other));
}

/// Removing a slot of masks of `scope` leaves the unmasked entries and the
/// entries of every other scope as they were.
proof fn lemma_remove_masks_keeps(s: Seq<EntryView>, scope: Scope, identity: Option<Seq<char>>, other: Scope)
    requires
        scope != other,
    ensures
        unmasked(remove_view(s, scope, EntryKind::Mask, identity)) == unmasked(s),
        filter_scope(remove_view(s, scope, EntryKind::Mask, identity), other) == filter_scope(s, other),
    decreases s.len(),
{
    if s.len() > 0 {
        let d = s.drop_last();
        lemma_remove_masks_keeps(d, scope, identity, other);
        let r = remove_view(d, scope, EntryKind::Mask, identity);
        assert(r.push(s.last()).drop_last() =~= r);
        assert(r.push(s.last()).last() == s.last());
    }
}

/// The mask of `scope` after appending `x`.
proof fn lemma_mask_view_push(s: Seq<EntryView>, x: EntryView, scope: Scope)
    ensures
        mask_view(s.push(x), scope) == if mask_view(s, scope) is Some {
            mask_view(s, scope)
        } else if is_mask_of(x, scope) {
            Some(x.permissions)
        } else {
            None
        },
{
    let t = s.push(x);
    lemma_first_mask(s, scope);
    lemma_first_mask(t, scope);
    assert forall|k: int| 0 <= k < s.len() implies t[k] == s[k] by {}
    match first_mask(s, scope) {
        Some(i) => {
            match first_mask(t, scope) {
                Some(j) => {
                    if j < i {
                        assert(!is_mask_of(s[j], scope));
                    }
                    if j > i {
                        assert(!is_mask_of(t[i], scope));
                    }
                },
                None => {
                    assert(!is_mask_of(t[i], scope));
                },
            }
        },
        None => {
            match first_mask(t, scope) {
                Some(j) => {
                    if j < s.len() {
                        assert(!is_mask_of(s[j], scope));
                    }
                },
                None => {
                    if is_mask_of(x, scope) {
                        assert(!is_mask_of(t[s.len() as int], scope));
                    }
                },
            }
        },
    }
}

/// The mask of a scope is read off the entries of that scope alone.
proof fn lemma_mask_view_scope(s: Seq<EntryView>, scope: Scope)
    ensures
        mask_view(s, scope) == mask_view(filter_scope(s, scope), scope),
    decreases s.len(),
{
    if s.len() > 0 {
        let d = s.drop_last();
        lemma_mask_view_scope(d, scope);
        assert(s == d.push(s.last()));
        lemma_mask_view_push(d, s.last(), scope);
        if s.last().scope == scope {
            lemma_mask_view_push(filter_scope(d, scope), s.last(), scope);
        }
    } else {
        assert(filter_scope(s, scope) == s);
    }
}

/// One step of `normalize` on a sorted list keeps the unmasked entries in
/// order and leaves the other scope alone.
proof fn lemma_normalize_step_keeps(s: Seq<EntryView>, scope: Scope, other: Scope)
    requires
        is_sorted(s),
        scope != other,
    ensures
        unmasked(normalize_step(s, scope)) == unmasked(s),
        filter_scope(normalize_step(s, scope), other) == filter_scope(s, other),
        mask_view(normalize_step(s, scope), other) == mask_view(s, other),
{
    if has_named(s, scope) && !has_mask(s, scope) {
        lemma_first_mask(s, scope);
        if first_mask(s, scope) is Some {
            assert(is_mask_of(s[first_mask(s, scope)->0], scope));
        }
        lemma_insert_mask_keeps(s, mask_entry(scope, recalc_view(s, scope)), other);
    } else if !has_named(s, scope) && has_mask(s, scope) {
        lemma_remove_masks_keeps(s, scope, None, other);
    }
    lemma_mask_view_scope(s, other);
    lemma_mask_view_scope(normalize_step(s, scope), other);
}

/// `normalize` keeps every entry but masks, in order; leaves the mask of a
/// scope with named entries as it was; gives a scope with named entries and
/// no mask the union of its group class as mask; leaves a mask exactly in
/// the scopes with named entries; and a second `normalize` changes nothing.
/// This holds of ACLs in canonical order in which a mask with an identity
/// stands only in a scope with named entries.
pub proof fn lemma_normalize_law(s: Seq<EntryView>, scope: Scope)
    requires
        is_sorted(s),
        stray_masks_plain(s),
    ensures
        is_sorted(normalize_view(s)),
        unmasked(normalize_view(s)) == unmasked(s),
        has_mask(normalize_view(s), scope) <==> has_named(normalize_view(s), scope),
        has_named(normalize_view(s), scope) == has_named(s, scope),
        has_named(s, scope) && has_mask(s, scope) ==> mask_view(normalize_view(s), scope) == mask_view(s, scope),
        has_named(s, scope) && !has_mask(s, scope) ==> mask_view(normalize_view(s), scope) == Some(
            recalc_view(s, scope),
        ),
        normalize_view(normalize_view(s)) == normalize_view(s),
{
    let n1 = normalize_step(s, Scope::Access);
    let n = normalize_step(n1, Scope::Default);
    lemma_normalize_syncs_mask(s);
    lemma_normalize_step(s, Scope::Access, Scope::Default);
    lemma_normalize_step(n1, Scope::Default, Scope::Access);
    lemma_normalize_step_facts(s, Scope::Access, Scope::Default);
    lemma_normalize_step_facts(n1, Scope::Default, Scope::Access);
    lemma_normalize_step_keeps(s, Scope::Access, Scope::Default);
    lemma_normalize_step_keeps(n1, Scope::Default, Scope::Access);
    lemma_same_unmasked_facts(s, n1, Scope::Default);
    lemma_same_unmasked_facts(s, n1, Scope::Access);
    if has_named(s, Scope::Access) && !has_mask(s, Scope::Access) {
        lemma_set_mask_then_mask(s, Scope::Access, recalc_view(s, Scope::Access));
    }
    if has_named(n1, Scope::Default) && !has_mask(n1, Scope::Default) {
        lemma_set_mask_then_mask(n1, Scope::Default, recalc_view(n1, Scope::Default));
    }
    assert(normalize_step(n, Scope::Access) == n);
    assert(normalize_step(n, Scope::Default) == n);
}

} // verus!
