use facl_rs::backend::{can_modify, chown, current_uid, lookup_user, parse_stat, stat, StatError};

/// A system-owned object (root:/etc/passwd) is not modifiable unless we are
/// root; a non-root user must be denied.
#[test]
fn cannot_modify_a_root_owned_file_as_non_root() {
    // What `id -u` prints for an ordinary user.
    let uid = current_uid("1000\n").unwrap();
    // What `stat --printf %F|%U|%G|%a -- /etc/passwd` prints.
    let fields = parse_stat("regular file|root|root|644").unwrap();
    let object = stat(fields, "/etc/passwd\n");
    // What `getent passwd root` prints.
    let owner_uid = lookup_user("root:x:0:0:root:/root:/bin/bash\n").ok().map(|id| id.id);
    assert_eq!(object.owner, "root");
    assert!(!can_modify(uid, owner_uid));
}

#[test]
fn root_and_the_owner_may_modify() {
    assert!(can_modify(0, None));
    assert!(can_modify(1000, Some(1000)));
    assert!(!can_modify(1000, None));
    assert!(!can_modify(1000, Some(1001)));
}

#[test]
fn stat_output_is_split_into_four_fields() {
    let f = parse_stat("directory|alice|staff|750\n").unwrap();
    assert_eq!(f.file_type, "directory");
    assert_eq!(f.owner, "alice");
    assert_eq!(f.group, "staff");
    assert_eq!(f.mode, "750");
    let o = stat(f, "  /srv/share\n");
    assert_eq!(o.path, "/srv/share");
    assert!(o.is_directory);
    assert_eq!(o.mode, "750");
}

#[test]
fn stat_refuses_links_and_odd_output() {
    assert_eq!(parse_stat("symbolic link|a|b|777").unwrap_err(), StatError::SymbolicLink);
    assert_eq!(parse_stat("regular file|a|b").unwrap_err(), StatError::UnexpectedOutput);
}

#[test]
fn current_uid_reads_a_number() {
    assert_eq!(current_uid(" 0 \n"), Some(0));
    assert_eq!(current_uid("abc"), None);
}

#[test]
fn chown_builds_the_ownership_spec() {
    let args = chown("/tmp/x", Some("alice"), Some("staff"), false).unwrap();
    assert_eq!(args, vec!["--", "alice:staff", "/tmp/x"]);
    let args = chown("/tmp/x", Some("alice"), None, true).unwrap();
    assert_eq!(args, vec!["-R", "--", "alice", "/tmp/x"]);
    let args = chown("/tmp/x", None, Some("staff"), false).unwrap();
    assert_eq!(args, vec!["--", ":staff", "/tmp/x"]);
    assert!(chown("/tmp/x", None, None, true).is_none());
}
