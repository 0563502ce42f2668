use facl_rs::backend::{list_groups, list_users, lookup_group, lookup_user, parse_line, LookupError};

#[test]
fn parses_passwd_line() {
    let id = parse_line("alice:x:1000:1000:Alice:/home/alice:/bin/sh").unwrap();
    assert_eq!(id.name, "alice");
    assert_eq!(id.id, 1000);
}

#[test]
fn parses_group_line() {
    let id = parse_line("backup:*:1001:alice,bob").unwrap();
    assert_eq!(id.name, "backup");
    assert_eq!(id.id, 1001);
}

#[test]
fn rejects_bad_id() {
    assert!(parse_line("nobody:x:notanumber:x").is_none());
    assert!(parse_line("short:x").is_none());
}

/// Names and numeric ids are both accepted for lookups: `getent` answers a
/// numeric id with the entry it names, and prints nothing for an unknown one.
#[test]
fn lookup_accepts_numeric_ids() {
    // What `getent passwd 0` and `getent group 0` print on a standard system.
    assert_eq!(lookup_user("root:x:0:0:root:/root:/bin/bash\n").unwrap().name, "root");
    assert_eq!(lookup_group("root:x:0:\n").unwrap().name, "root");
    // `getent passwd 999999999` prints nothing (and fails).
    assert!(lookup_user("").is_err());
}

#[test]
fn lookup_reports_not_found() {
    assert_eq!(lookup_user("garbage").unwrap_err(), LookupError::NotFound);
    assert_eq!(lookup_group("a:b").unwrap_err(), LookupError::NotFound);
}

#[test]
fn parse_line_takes_the_third_field_only() {
    // The gecos field may hold colons; only the id field is parsed.
    let id = parse_line("svc:x:42:42:a:b:c:d").unwrap();
    assert_eq!(id.name, "svc");
    assert_eq!(id.id, 42);
    // Exactly three fields is enough.
    let id = parse_line("g:x:7").unwrap();
    assert_eq!(id.id, 7);
    // An id past u32::MAX is refused.
    assert!(parse_line("big:x:4294967296").is_none());
    assert_eq!(parse_line("max:x:4294967295").unwrap().id, 4294967295);
}

#[test]
fn lists_every_parsable_line() {
    let out = "root:x:0:0:root:/root:/bin/sh\nbroken line\nalice:x:1000:1000::/home/alice:/bin/sh\r\n";
    let users = list_users(out);
    assert_eq!(users.len(), 2);
    assert_eq!(users[0].name, "root");
    assert_eq!(users[1].name, "alice");
    assert_eq!(users[1].id, 1000);
    // A carriage return ends a line only before a newline.
    assert_eq!(list_users("a:x:1\r\n").len(), 1);
    assert_eq!(list_users("a:x:1\r").len(), 0);
    let groups = list_groups("wheel:x:10:alice\n");
    assert_eq!(groups.len(), 1);
    assert_eq!(groups[0].id, 10);
}
