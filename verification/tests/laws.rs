use facl_rs::backend::parse_getfacl;
use facl_rs::model::{Acl, AclEntry, EntryKind, PermBit, Permissions, Scope};

fn p(s: &str) -> Permissions {
    Permissions::from_perm_string(s).unwrap()
}

fn all_sets() -> Vec<Permissions> {
    (0u8..8).map(Permissions::from_bits).collect()
}

#[test]
fn numeric_value_round_trips() {
    for b in 0u8..8 {
        assert_eq!(Permissions::from_bits(b).bits(), b);
    }
    for q in all_sets() {
        assert_eq!(Permissions::from_bits(q.bits()), q);
    }
}

#[test]
fn text_round_trips() {
    for q in all_sets() {
        assert_eq!(Permissions::from_perm_string(&q.to_string()).unwrap(), q);
    }
}

#[test]
fn toggling_twice_restores() {
    for q in all_sets() {
        for bit in PermBit::all() {
            let mut r = q;
            r.toggle(bit);
            assert_ne!(r, q);
            r.toggle(bit);
            assert_eq!(r, q);
        }
    }
}

#[test]
fn covers_means_a_strict_superset() {
    assert!(p("rwx").covers(p("r-x")));
    assert!(!p("r-x").covers(p("rwx")));
    assert!(!p("rwx").covers(p("rwx")));
    assert!(!p("r--").covers(p("-w-")));
    assert!(p("r--").covers(p("---")));
}

#[test]
fn union_and_intersection_bound_their_arguments() {
    for a in all_sets() {
        for b in all_sets() {
            assert_eq!(a.union(b).intersect(a), a);
            assert_eq!(a.union(b).intersect(b), b);
            assert_eq!(a.intersect(a.intersect(b)), a.intersect(b));
            assert_eq!(a.covers(b), a.intersect(b) == b && a != b);
            assert!(!a.covers(a));
            assert_eq!(a.union(b), b.union(a));
        }
    }
}

fn named_acl(mask: &str) -> Acl {
    Acl::new(vec![
        AclEntry::new(Scope::Access, EntryKind::Owner, None, p("rwx")),
        AclEntry::new(Scope::Access, EntryKind::NamedUser, Some("alice".into()), p("rwx")),
        AclEntry::new(Scope::Access, EntryKind::OwningGroup, None, p("r--")),
        AclEntry::new(Scope::Access, EntryKind::Mask, None, p(mask)),
        AclEntry::new(Scope::Access, EntryKind::Other, None, p("--x")),
    ])
}

#[test]
fn effective_never_exceeds_the_request() {
    let acl = named_acl("r-x");
    for e in acl.entries() {
        let eff = acl.effective(e);
        assert_eq!(e.permissions.intersect(eff), eff);
    }
    let other = acl.find(Scope::Access, EntryKind::Other, None).unwrap();
    assert_eq!(acl.effective(other), p("--x"));
    let alice = acl.find(Scope::Access, EntryKind::NamedUser, Some("alice")).unwrap();
    assert_eq!(acl.effective(alice), p("r-x"));
}

#[test]
fn recalculated_mask_is_the_union_of_the_group_class() {
    let acl = named_acl("---");
    let m = acl.recalculate_mask(Scope::Access);
    assert_eq!(m, p("rwx"));
    for e in acl.in_scope(Scope::Access) {
        if e.kind.is_maskable() && e.kind != EntryKind::Mask {
            assert_eq!(m.intersect(e.permissions), e.permissions);
        }
    }
}

#[test]
fn set_mask_then_mask_reads_it_back() {
    let mut acl = named_acl("r--");
    acl.set_mask(Scope::Access, p("-w-"));
    assert_eq!(acl.mask(Scope::Access), Some(p("-w-")));
    acl.set_mask(Scope::Default, p("r-x"));
    assert_eq!(acl.mask(Scope::Default), Some(p("r-x")));
    assert_eq!(acl.mask(Scope::Access), Some(p("-w-")));
}

#[test]
fn remove_slot_drops_only_that_slot() {
    let mut acl = named_acl("rwx");
    let before = acl.len();
    assert!(acl.remove_slot(Scope::Access, EntryKind::NamedUser, Some("alice")));
    assert_eq!(acl.len(), before - 1);
    assert!(acl.find(Scope::Access, EntryKind::NamedUser, Some("alice")).is_none());
    assert!(acl.find(Scope::Access, EntryKind::OwningGroup, None).is_some());
    assert!(!acl.remove_slot(Scope::Default, EntryKind::Owner, None));
}

#[test]
fn insert_keeps_canonical_order() {
    let mut acl = named_acl("rwx");
    acl.insert(AclEntry::new(Scope::Access, EntryKind::NamedGroup, Some("staff".into()), p("r--")));
    acl.insert(AclEntry::new(Scope::Access, EntryKind::NamedUser, Some("aaron".into()), p("r--")));
    let kinds: Vec<EntryKind> = acl.entries().iter().map(|e| e.kind).collect();
    assert_eq!(
        kinds,
        vec![
            EntryKind::Owner,
            EntryKind::NamedUser,
            EntryKind::NamedUser,
            EntryKind::OwningGroup,
            EntryKind::NamedGroup,
            EntryKind::Mask,
            EntryKind::Other
        ]
    );
    assert_eq!(acl.entries()[1].identity.as_deref(), Some("aaron"));
    let mut again = acl.clone();
    again.sort();
    assert_eq!(again, acl);
}

#[test]
fn normalize_keeps_masks_in_step_with_named_entries() {
    let mut acl = Acl::new(vec![
        AclEntry::new(Scope::Access, EntryKind::Owner, None, p("rwx")),
        AclEntry::new(Scope::Access, EntryKind::OwningGroup, None, p("r--")),
        AclEntry::new(Scope::Access, EntryKind::Mask, None, p("r--")),
        AclEntry::new(Scope::Access, EntryKind::Other, None, p("---")),
        AclEntry::new(Scope::Default, EntryKind::NamedGroup, Some("g".into()), p("-wx")),
    ]);
    acl.normalize();
    assert!(acl.mask(Scope::Access).is_none());
    assert_eq!(acl.mask(Scope::Default), Some(p("-wx")));
    assert!(acl.has_named_entries(Scope::Default));
}

#[test]
fn setfacl_text_reads_back_as_the_same_acl() {
    let acl = Acl::new(vec![
        AclEntry::new(Scope::Access, EntryKind::Owner, None, p("rw-")),
        AclEntry::new(Scope::Access, EntryKind::NamedUser, Some("nobody".into()), p("r-x")),
        AclEntry::new(Scope::Access, EntryKind::OwningGroup, None, p("r--")),
        AclEntry::new(Scope::Access, EntryKind::NamedGroup, Some("staff".into()), p("---")),
        AclEntry::new(Scope::Access, EntryKind::Mask, None, p("r-x")),
        AclEntry::new(Scope::Access, EntryKind::Other, None, p("r--")),
        AclEntry::new(Scope::Default, EntryKind::Owner, None, p("rwx")),
        AclEntry::new(Scope::Default, EntryKind::OwningGroup, None, p("r-x")),
        AclEntry::new(Scope::Default, EntryKind::Other, None, p("---")),
    ]);
    let text = acl.to_setfacl_text();
    assert_eq!(parse_getfacl(&text).unwrap(), acl);
}

fn is_sorted(acl: &Acl) -> bool {
    acl.entries().windows(2).all(|w| w[0].order_key() <= w[1].order_key())
}

#[test]
fn edits_keep_the_list_sorted() {
    let mut acl = named_acl("r--");
    acl.insert(AclEntry::new(Scope::Default, EntryKind::NamedGroup, Some("wheel".into()), p("r-x")));
    acl.insert(AclEntry::new(Scope::Default, EntryKind::Owner, None, p("rwx")));
    assert!(is_sorted(&acl));
    acl.set_mask(Scope::Default, p("rw-"));
    assert!(is_sorted(&acl));
    assert!(acl.remove_slot(Scope::Access, EntryKind::NamedUser, Some("alice")));
    assert!(is_sorted(&acl));
    acl.normalize();
    assert!(is_sorted(&acl));
    acl.set_mask(Scope::Access, p("--x"));
    assert!(is_sorted(&acl));
}

#[test]
fn normalize_law_on_both_scopes() {
    let before = Acl::new(vec![
        AclEntry::new(Scope::Access, EntryKind::Owner, None, p("rwx")),
        AclEntry::new(Scope::Access, EntryKind::NamedUser, Some("alice".into()), p("rwx")),
        AclEntry::new(Scope::Access, EntryKind::OwningGroup, None, p("r--")),
        AclEntry::new(Scope::Access, EntryKind::Mask, None, p("r--")),
        AclEntry::new(Scope::Access, EntryKind::Other, None, p("---")),
        AclEntry::new(Scope::Default, EntryKind::Owner, None, p("rwx")),
        AclEntry::new(Scope::Default, EntryKind::OwningGroup, None, p("--x")),
        AclEntry::new(Scope::Default, EntryKind::NamedGroup, Some("wheel".into()), p("rw-")),
        AclEntry::new(Scope::Default, EntryKind::Other, None, p("---")),
    ]);
    let mut acl = before.clone();
    acl.normalize();
    // A mask exactly where there are named entries.
    for s in [Scope::Access, Scope::Default] {
        assert_eq!(acl.mask(s).is_some(), acl.has_named_entries(s));
    }
    // The kept mask keeps its permissions; the added one is the group-class union.
    assert_eq!(acl.mask(Scope::Access), Some(p("r--")));
    assert_eq!(acl.mask(Scope::Default), Some(before.recalculate_mask(Scope::Default)));
    assert_eq!(acl.mask(Scope::Default), Some(p("rwx")));
    // Every other entry stays, in the same order.
    let unmasked = |a: &Acl| -> Vec<AclEntry> {
        a.entries().iter().filter(|e| e.kind != EntryKind::Mask).cloned().collect()
    };
    assert_eq!(unmasked(&acl), unmasked(&before));
    assert!(is_sorted(&acl));
    // A second pass changes nothing.
    let mut again = acl.clone();
    again.normalize();
    assert_eq!(again, acl);
}

#[test]
fn normalize_drops_a_mask_without_named_entries() {
    let mut acl = Acl::new(vec![
        AclEntry::new(Scope::Default, EntryKind::Owner, None, p("rwx")),
        AclEntry::new(Scope::Default, EntryKind::OwningGroup, None, p("r--")),
        AclEntry::new(Scope::Default, EntryKind::Mask, None, p("rw-")),
        AclEntry::new(Scope::Default, EntryKind::Other, None, p("---")),
    ]);
    acl.normalize();
    assert_eq!(acl.mask(Scope::Default), None);
    assert_eq!(acl.len(), 3);
}

#[test]
fn normalize_keeps_a_mask_with_an_identity_beside_named_entries() {
    let before = Acl::new(vec![
        AclEntry::new(Scope::Access, EntryKind::Owner, None, p("rwx")),
        AclEntry::new(Scope::Access, EntryKind::NamedUser, Some("alice".into()), p("rwx")),
        AclEntry::new(Scope::Access, EntryKind::OwningGroup, None, p("r--")),
        AclEntry::new(Scope::Access, EntryKind::Mask, Some("x".into()), p("r-x")),
        AclEntry::new(Scope::Access, EntryKind::Other, None, p("---")),
    ]);
    let mut acl = before.clone();
    acl.normalize();
    assert_eq!(acl, before);
    assert_eq!(acl.mask(Scope::Access), Some(p("r-x")));
    assert!(acl.has_named_entries(Scope::Access));
    let mut again = acl.clone();
    again.normalize();
    assert_eq!(again, acl);
}
