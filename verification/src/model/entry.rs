//! One ACL entry: its scope, its kind, an optional identity and its bits.
use vstd::prelude::*;

use super::permissions::{perm_chars, Permissions};
use crate::text::{chars_le, chars_of, push_char, push_str, seq_le, string_of};

verus! {

/// Which ACL set an entry belongs to.
///
/// Access ACLs govern the object itself. Default ACLs only exist on
/// directories and are inherited by newly created children.
#[derive(Debug, Clone, Copy, PartialEq, Eq, Structural)]
pub enum Scope {
    Access,
    Default,
}

/// `default:`, the text prefix of a default-scope entry.
pub open spec fn default_prefix() -> Seq<char> {
    seq!['d', 'e', 'f', 'a', 'u', 'l', 't', ':']
}

/// The `getfacl`/`setfacl` text prefix of a scope.
pub open spec fn scope_prefix(scope: Scope) -> Seq<char> {
    match scope {
        Scope::Access => Seq::empty(),
        Scope::Default => default_prefix(),
    }
}

impl Scope {
    /// The single character shown in the list's scope column.
    pub fn short(self) -> (r: char)
        ensures
            r == (match self {
                Scope::Access => 'A',
                Scope::Default => 'D',
            }),
    {
        match self {
            Scope::Access => 'A',
            Scope::Default => 'D',
        }
    }

    pub fn label(self) -> (r: &'static str)
        ensures
            r@ == (match self {
                Scope::Access => "Access"@,
                Scope::Default => "Default"@,
            }),
    {
        match self {
            Scope::Access => "Access",
            Scope::Default => "Default",
        }
    }

    /// The `getfacl`/`setfacl` text prefix for this scope.
    pub fn prefix(self) -> (r: &'static str)
        ensures
            r@ == scope_prefix(self),
    {
        match self {
            Scope::Access => {
                proof {
                    reveal_strlit("");
                }
                ""
            },
            Scope::Default => {
                proof {
                    reveal_strlit("default:");
                }
                "default:"
            },
        }
    }
}

/// The logical kind of an ACL entry.
#[derive(Debug, Clone, Copy, PartialEq, Eq, Structural)]
pub enum EntryKind {
    /// The file owner (`user::`).
    Owner,
    /// A named user (`user:name:`).
    NamedUser,
    /// The owning group (`group::`).
    OwningGroup,
    /// A named group (`group:name:`).
    NamedGroup,
    /// The ACL mask (`mask::`).
    Mask,
    /// Permissions for "other" (`other::`).
    Other,
}

pub open spec fn kw_user() -> Seq<char> {
    seq!['u', 's', 'e', 'r']
}

pub open spec fn kw_group() -> Seq<char> {
    seq!['g', 'r', 'o', 'u', 'p']
}

pub open spec fn kw_mask() -> Seq<char> {
    seq!['m', 'a', 's', 'k']
}

pub open spec fn kw_other() -> Seq<char> {
    seq!['o', 't', 'h', 'e', 'r']
}

/// The `getfacl`/`setfacl` keyword of a kind.
pub open spec fn kind_keyword(kind: EntryKind) -> Seq<char> {
    match kind {
        EntryKind::Owner | EntryKind::NamedUser => kw_user(),
        EntryKind::OwningGroup | EntryKind::NamedGroup => kw_group(),
        EntryKind::Mask => kw_mask(),
        EntryKind::Other => kw_other(),
    }
}

/// The compact label of a kind, as the list's Type column shows it.
pub open spec fn kind_short(kind: EntryKind) -> Seq<char> {
    match kind {
        EntryKind::Owner => "owning-user"@,
        EntryKind::NamedUser => "user"@,
        EntryKind::OwningGroup => "owning-group"@,
        EntryKind::NamedGroup => "group"@,
        EntryKind::Mask => "mask"@,
        EntryKind::Other => "other"@,
    }
}

/// Named entries carry an identity.
pub open spec fn kind_is_named(kind: EntryKind) -> bool {
    kind == EntryKind::NamedUser || kind == EntryKind::NamedGroup
}

/// The group class: the entries whose effective permission the mask caps.
pub open spec fn kind_is_group_class(kind: EntryKind) -> bool {
    kind == EntryKind::NamedUser || kind == EntryKind::OwningGroup || kind
        == EntryKind::NamedGroup
}

impl EntryKind {
    /// The `getfacl`/`setfacl` keyword for this kind.
    pub fn keyword(self) -> (r: &'static str)
        ensures
            r@ == kind_keyword(self),
    {
        match self {
            EntryKind::Owner | EntryKind::NamedUser => {
                proof {
                    reveal_strlit("user");
                }
                "user"
            },
            EntryKind::OwningGroup | EntryKind::NamedGroup => {
                proof {
                    reveal_strlit("group");
                }
                "group"
            },
            EntryKind::Mask => {
                proof {
                    reveal_strlit("mask");
                }
                "mask"
            },
            EntryKind::Other => {
                proof {
                    reveal_strlit("other");
                }
                "other"
            },
        }
    }

    /// The compact label shown in the list's Type column.
    pub fn short(self) -> (r: &'static str)
        ensures
            r@ == kind_short(self),
    {
        match self {
            EntryKind::Owner => "owning-user",
            EntryKind::NamedUser => "user",
            EntryKind::OwningGroup => "owning-group",
            EntryKind::NamedGroup => "group",
            EntryKind::Mask => "mask",
            EntryKind::Other => "other",
        }
    }

    /// The long label shown in the entry editor.
    pub fn label(self) -> (r: &'static str)
        ensures
            r@ == (match self {
                EntryKind::Owner => "Owning user"@,
                EntryKind::NamedUser => "Named user"@,
                EntryKind::OwningGroup => "Owning group"@,
                EntryKind::NamedGroup => "Named group"@,
                EntryKind::Mask => "Mask"@,
                EntryKind::Other => "Other"@,
            }),
    {
        match self {
            EntryKind::Owner => "Owning user",
            EntryKind::NamedUser => "Named user",
            EntryKind::OwningGroup => "Owning group",
            EntryKind::NamedGroup => "Named group",
            EntryKind::Mask => "Mask",
            EntryKind::Other => "Other",
        }
    }

    /// Base entries always exist in an access ACL and cannot be added/removed.
    pub fn is_base(self) -> (r: bool)
        ensures
            r == (self == EntryKind::Owner || self == EntryKind::OwningGroup || self
                == EntryKind::Other),
    {
        match self {
            EntryKind::Owner | EntryKind::OwningGroup | EntryKind::Other => true,
            _ => false,
        }
    }

    /// Named entries carry an identity and can be added/removed.
    pub fn is_named(self) -> (r: bool)
        ensures
            r == kind_is_named(self),
    {
        match self {
            EntryKind::NamedUser | EntryKind::NamedGroup => true,
            _ => false,
        }
    }

    /// Entries whose effective permission is capped by the mask, and the mask.
    pub fn is_maskable(self) -> (r: bool)
        ensures
            r == (kind_is_group_class(self) || self == EntryKind::Mask),
    {
        match self {
            EntryKind::NamedUser | EntryKind::OwningGroup | EntryKind::NamedGroup
            | EntryKind::Mask => true,
            _ => false,
        }
    }
}

/// The mathematical value of an [`AclEntry`].
pub struct EntryView {
    pub scope: Scope,
    pub kind: EntryKind,
    pub identity: Option<Seq<char>>,
    pub permissions: Permissions,
}

/// One POSIX ACL entry.
#[derive(Debug, PartialEq, Eq)]
pub struct AclEntry {
    pub scope: Scope,
    pub kind: EntryKind,
    /// The user or group identity for named entries; `None` otherwise.
    pub identity: Option<String>,
    pub permissions: Permissions,
}

pub open spec fn opt_view(o: Option<String>) -> Option<Seq<char>> {
    match o {
        Some(s) => Some(s@),
        None => None,
    }
}

impl View for AclEntry {
    type V = EntryView;

    open spec fn view(&self) -> EntryView {
        EntryView {
            scope: self.scope,
            kind: self.kind,
            identity: opt_view(self.identity),
            permissions: self.permissions,
        }
    }
}

/// The identity text of an entry, empty when it has none.
pub open spec fn identity_chars(e: EntryView) -> Seq<char> {
    match e.identity {
        Some(s) => s,
        None => Seq::empty(),
    }
}

/// The `setfacl`/`getfacl` line of an entry: `[default:]keyword:identity:rwx`.
pub open spec fn entry_text(e: EntryView) -> Seq<char> {
    scope_prefix(e.scope) + kind_keyword(e.kind) + seq![':'] + identity_chars(e) + seq![':']
        + perm_chars(e.permissions)
}

/// The human-readable description of an entry, e.g. `user:alice`.
pub open spec fn entry_who(e: EntryView) -> Seq<char> {
    match e.identity {
        Some(name) => kind_short(e.kind) + seq![':'] + name,
        None => kind_short(e.kind),
    }
}

pub open spec fn scope_rank(s: Scope) -> u8 {
    match s {
        Scope::Access => 0,
        Scope::Default => 1,
    }
}

pub open spec fn kind_rank(k: EntryKind) -> u8 {
    match k {
        EntryKind::Owner => 0,
        EntryKind::NamedUser => 1,
        EntryKind::OwningGroup => 2,
        EntryKind::NamedGroup => 3,
        EntryKind::Mask => 4,
        EntryKind::Other => 5,
    }
}

/// The canonical POSIX order: scope, then kind (owner, named users, owning
/// group, named groups, mask, other), then the identity name. It is the order
/// of the tuple that [`AclEntry::order_key`] returns.
pub open spec fn key_le(a: EntryView, b: EntryView) -> bool {
    if scope_rank(a.scope) != scope_rank(b.scope) {
        scope_rank(a.scope) < scope_rank(b.scope)
    } else if kind_rank(a.kind) != kind_rank(b.kind) {
        kind_rank(a.kind) < kind_rank(b.kind)
    } else {
        seq_le(identity_chars(a), identity_chars(b))
    }
}

pub proof fn lemma_key_le_refl(a: EntryView)
    ensures
        key_le(a, a),
{
    crate::text::lemma_seq_le_refl(identity_chars(a));
}

pub proof fn lemma_key_le_total(a: EntryView, b: EntryView)
    ensures
        key_le(a, b) || key_le(b, a),
{
    crate::text::lemma_seq_le_total(identity_chars(a), identity_chars(b));
}

pub proof fn lemma_key_le_trans(a: EntryView, b: EntryView, c: EntryView)
    requires
        key_le(a, b),
        key_le(b, c),
    ensures
        key_le(a, c),
{
    if scope_rank(a.scope) == scope_rank(b.scope) && scope_rank(b.scope) == scope_rank(c.scope)
        && kind_rank(a.kind) == kind_rank(b.kind) && kind_rank(b.kind) == kind_rank(c.kind) {
        crate::text::lemma_seq_le_trans(identity_chars(a), identity_chars(b), identity_chars(c));
    }
}

/// Whether an entry occupies the slot `(scope, kind, identity)`.
pub open spec fn in_slot(
    e: EntryView,
    scope: Scope,
    kind: EntryKind,
    identity: Option<Seq<char>>,
) -> bool {
    e.scope == scope && e.kind == kind && e.identity == identity
}

/// Whether two optional identities are equal.
pub fn same_identity(a: &Option<String>, b: &Option<String>) -> (r: bool)
    ensures
        r == (opt_view(*a) == opt_view(*b)),
{
    match (a, b) {
        (Some(x), Some(y)) => {
            let r = *x == *y;
            r
        },
        (None, None) => true,
        _ => false,
    }
}

/// Whether an optional identity equals an optional string slice.
pub fn identity_matches(a: &Option<String>, b: Option<&str>) -> (r: bool)
    ensures
        r == (opt_view(*a) == match b {
            Some(s) => Some(s@),
            None => None::<Seq<char>>,
        }),
{
    match (a, b) {
        (Some(x), Some(y)) => crate::text::str_eq(x.as_str(), y),
        (None, None) => true,
        _ => false,
    }
}

/// Copies an optional identity.
pub fn copy_identity(a: &Option<String>) -> (r: Option<String>)
    ensures
        opt_view(r) == opt_view(*a),
{
    match a {
        Some(s) => Some(s.clone()),
        None => None,
    }
}

impl Clone for AclEntry {
    fn clone(&self) -> (r: Self)
        ensures
            r@ == self@,
    {
        AclEntry {
            scope: self.scope,
            kind: self.kind,
            identity: copy_identity(&self.identity),
            permissions: self.permissions,
        }
    }
}

impl AclEntry {
    pub fn new(scope: Scope, kind: EntryKind, identity: Option<String>, permissions: Permissions) -> (r: Self)
        ensures
            r.scope == scope,
            r.kind == kind,
            r.identity == identity,
            r.permissions == permissions,
            r@ == (EntryView { scope, kind, identity: opt_view(identity), permissions }),
    {
        Self { scope, kind, identity, permissions }
    }

    /// A human-readable description of the entry, e.g. `user:alice`.
    pub fn who(&self) -> (r: String)
        ensures
            r@ == entry_who(self@),
    {
        let mut s = string_of(self.kind.short());
        match &self.identity {
            Some(name) => {
                push_char(&mut s, ':');
                push_str(&mut s, name.as_str());
            },
            None => {},
        }
        s
    }

    /// The `setfacl`/`getfacl` textual form of this entry.
    pub fn to_text(&self) -> (r: String)
        ensures
            r@ == entry_text(self@),
    {
        let mut s = string_of(self.scope.prefix());
        push_str(&mut s, self.kind.keyword());
        push_char(&mut s, ':');
        match &self.identity {
            Some(name) => push_str(&mut s, name.as_str()),
            None => {},
        }
        push_char(&mut s, ':');
        let p = self.permissions.to_string();
        push_str(&mut s, p.as_str());
        assert(s@ =~= entry_text(self@));
        s
    }

    /// Whether two entries address the same slot (scope + kind + identity).
    pub fn same_slot(&self, other: &AclEntry) -> (r: bool)
        ensures
            r == in_slot(self@, other.scope, other.kind, opt_view(other.identity)),
    {
        self.scope == other.scope && self.kind == other.kind && same_identity(
            &self.identity,
            &other.identity,
        )
    }

    /// A sortable key giving the canonical POSIX order: scope, then kind
    /// (owner, named users, owning group, named groups, mask, other), then the
    /// identity name.
    pub fn order_key(&self) -> (r: (u8, u8, String))
        ensures
            r.0 == scope_rank(self.scope),
            r.1 == kind_rank(self.kind),
            r.2@ == identity_chars(self@),
    {
        let scope: u8 = match self.scope {
            Scope::Access => 0,
            Scope::Default => 1,
        };
        let kind: u8 = match self.kind {
            EntryKind::Owner => 0,
            EntryKind::NamedUser => 1,
            EntryKind::OwningGroup => 2,
            EntryKind::NamedGroup => 3,
            EntryKind::Mask => 4,
            EntryKind::Other => 5,
        };
        let name = match &self.identity {
            Some(s) => s.clone(),
            None => String::new(),
        };
        (scope, kind, name)
    }

    /// Whether `self` comes no later than `other` in the canonical order.
    pub fn order_le(&self, other: &AclEntry) -> (r: bool)
        ensures
            r == key_le(self@, other@),
    {
        let a = self.order_key();
        let b = other.order_key();
        if a.0 != b.0 {
            a.0 < b.0
        } else if a.1 != b.1 {
            a.1 < b.1
        } else {
            let x = chars_of(a.2.as_str());
            let y = chars_of(b.2.as_str());
            chars_le(&x, &y)
        }
    }
}

} // verus!
