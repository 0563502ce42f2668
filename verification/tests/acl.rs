use facl_rs::model::{Acl, AclEntry, EntryKind, Permissions, Scope};

fn p(s: &str) -> Permissions {
    Permissions::from_perm_string(s).unwrap()
}

fn sample() -> Acl {
    Acl::new(vec![
        AclEntry::new(Scope::Access, EntryKind::Owner, None, p("rwx")),
        AclEntry::new(Scope::Access, EntryKind::NamedUser, Some("alice".into()), p("rwx")),
        AclEntry::new(Scope::Access, EntryKind::OwningGroup, None, p("r-x")),
        AclEntry::new(Scope::Access, EntryKind::NamedGroup, Some("backup".into()), p("r-x")),
        AclEntry::new(Scope::Access, EntryKind::Mask, None, p("r-x")),
        AclEntry::new(Scope::Access, EntryKind::Other, None, p("---")),
        AclEntry::new(Scope::Default, EntryKind::Owner, None, p("rwx")),
        AclEntry::new(Scope::Default, EntryKind::OwningGroup, None, p("r-x")),
        AclEntry::new(Scope::Default, EntryKind::Mask, None, p("r-x")),
        AclEntry::new(Scope::Default, EntryKind::Other, None, p("---")),
    ])
}

#[test]
fn effective_caps_named_entries() {
    let acl = sample();
    let alice = acl.find(Scope::Access, EntryKind::NamedUser, Some("alice")).unwrap();
    assert_eq!(acl.effective(alice), p("r-x"));
    let owner = acl.find(Scope::Access, EntryKind::Owner, None).unwrap();
    assert_eq!(acl.effective(owner), p("rwx"));
}

#[test]
fn recalc_mask_unions_group_class() {
    let acl = sample();
    // alice(rwx) | group-own(r-x) | backup(r-x) = rwx
    assert_eq!(acl.recalculate_mask(Scope::Access), p("rwx"));
}

#[test]
fn serialize_round_trip() {
    let acl = sample();
    let text = acl.to_setfacl_text();
    let expected = "\
user::rwx
user:alice:rwx
group::r-x
group:backup:r-x
mask::r-x
other::---
default:user::rwx
default:group::r-x
default:mask::r-x
default:other::---
";
    assert_eq!(text, expected);
}

#[test]
fn synthesize_missing_mask() {
    let mut acl = sample();
    acl.remove_slot(Scope::Access, EntryKind::Mask, None);
    let text = acl.to_setfacl_text();
    assert!(text.contains("mask::rwx"), "expected synthesized mask, got:\n{text}");
}

#[test]
fn sorting_is_canonical() {
    let acl = Acl::new(vec![
        AclEntry::new(Scope::Access, EntryKind::Other, None, p("---")),
        AclEntry::new(Scope::Access, EntryKind::Owner, None, p("rwx")),
        AclEntry::new(Scope::Access, EntryKind::NamedUser, Some("bob".into()), p("r-x")),
    ]);
    assert_eq!(
        acl.entries().iter().map(|e| e.kind).collect::<Vec<_>>(),
        vec![EntryKind::Owner, EntryKind::NamedUser, EntryKind::Other]
    );
}

#[test]
fn remove_slot_is_scoped() {
    let mut acl = sample();
    assert!(acl.remove_slot(Scope::Access, EntryKind::NamedUser, Some("alice")));
    assert!(!acl.remove_slot(Scope::Access, EntryKind::NamedUser, Some("alice")));
    // default owner untouched by an access-scope removal
    assert!(acl.find(Scope::Default, EntryKind::Owner, None).is_some());
}

#[test]
fn normalize_removes_mask_once_named_entries_gone() {
    let mut acl = sample();
    assert!(acl.mask(Scope::Access).is_some());
    acl.remove_slot(Scope::Access, EntryKind::NamedUser, Some("alice"));
    acl.remove_slot(Scope::Access, EntryKind::NamedGroup, Some("backup"));
    acl.normalize();
    assert!(acl.mask(Scope::Access).is_none(), "mask should be removed with no named entries");
    assert!(!acl.to_setfacl_text().contains("mask::"));
}

#[test]
fn normalize_readds_mask_after_inserting_named_entry() {
    let mut acl = sample();
    acl.remove_slot(Scope::Access, EntryKind::NamedUser, Some("alice"));
    acl.remove_slot(Scope::Access, EntryKind::NamedGroup, Some("backup"));
    acl.normalize();
    assert!(acl.mask(Scope::Access).is_none());
    acl.insert(AclEntry::new(Scope::Access, EntryKind::NamedUser, Some("carol".into()), p("r-x")));
    acl.normalize();
    assert_eq!(acl.mask(Scope::Access), Some(p("r-x")));
}
