use facl_rs::backend::{backup, getfacl_args, parse_getfacl, restore, ParseErrorKind};
use facl_rs::model::{EntryKind, PermError, Permissions, Scope};

fn p(s: &str) -> Permissions {
    Permissions::from_perm_string(s).unwrap()
}

#[test]
fn parses_extended_dir_acl() {
    let text = "\
# file: srv/share
# owner: root
# group: storage
# flags: -b-
user::rwx
user:alice:rwx
group::r-x
group:backup:r-x
mask::r-x
other::---
default:user::rwx
default:group::r-x
default:mask::r-x
default:other::---
";
    let acl = parse_getfacl(text).unwrap();
    assert_eq!(acl.in_scope(Scope::Access).len(), 6);
    assert_eq!(acl.in_scope(Scope::Default).len(), 4);
    let alice = acl.find(Scope::Access, EntryKind::NamedUser, Some("alice")).unwrap();
    assert_eq!(alice.permissions, p("rwx"));
    assert_eq!(acl.mask(Scope::Access), Some(p("r-x")));
    assert_eq!(acl.mask(Scope::Default), Some(p("r-x")));
}

#[test]
fn parses_plain_file_acl_without_mask() {
    let text = "\
# file: notes.txt
# owner: bob
# group: staff
user::rw-
group::r--
other::r--
";
    let acl = parse_getfacl(text).unwrap();
    assert_eq!(acl.in_scope(Scope::Access).len(), 3);
    assert!(!acl.has_default());
    assert!(acl.mask(Scope::Access).is_none());
}

#[test]
fn round_trips_through_setfacl_text() {
    let text = "\
user::rwx
user:alice:rwx
group::r-x
mask::rwx
other::---
";
    let acl = parse_getfacl(text).unwrap();
    assert_eq!(acl.to_setfacl_text(), text);
}

#[test]
fn rejects_unknown_keyword() {
    assert!(parse_getfacl("nobody::rwx\n").is_err());
}

#[test]
fn refusals_name_the_offending_part() {
    let e = parse_getfacl("# c\n  nobody::rwx  \n").unwrap_err();
    assert_eq!(e.kind, ParseErrorKind::UnknownKeyword);
    assert_eq!(e.line, "nobody::rwx");
    assert_eq!(e.field(), "nobody");
    let e = parse_getfacl("default:user:alice:rwz\n").unwrap_err();
    assert_eq!(e.kind, ParseErrorKind::InvalidPermissions(PermError::InvalidChar(b'z')));
    assert_eq!(e.field(), "rwz");
    let e = parse_getfacl("user:rwx\n").unwrap_err();
    assert_eq!(e.kind, ParseErrorKind::Malformed);
    assert_eq!(e.field(), "");
    let e = parse_getfacl("user::rw\n").unwrap_err();
    assert_eq!(e.kind, ParseErrorKind::InvalidPermissions(PermError::WrongLength));
}

#[test]
fn getfacl_and_setfacl_arguments() {
    assert_eq!(getfacl_args("/srv/a b"), vec!["-p", "--", "/srv/a b"]);
    let (args, text) = facl_rs::backend::posix_acl::write(
        "/srv",
        &parse_getfacl("user::rwx\ngroup::r-x\nother::---\n").unwrap(),
        true,
    );
    assert_eq!(args, vec!["--set-file=-", "-R", "--", "/srv"]);
    assert_eq!(text, "user::rwx\ngroup::r-x\nother::---\n");
    let (args, name) = backup("/srv/share", true);
    assert_eq!(args, vec!["-R", "-p", "--", "/srv/share"]);
    assert_eq!(name, "_srv_share_R.acl.bak");
    let (args, name) = backup("/srv/share", false);
    assert_eq!(args, vec!["-p", "--", "/srv/share"]);
    assert_eq!(name, "_srv_share.acl.bak");
    assert_eq!(restore("/srv", "/b/x.acl.bak"), vec!["--set-file", "/b/x.acl.bak", "--", "/srv"]);
}
