use facl_rs::model::{PermBit, Permissions};

#[test]
fn parse_round_trip() {
    for s in ["rwx", "r-x", "---", "r--", "--x", "rw-", "r-x", "-w-", "-wx"] {
        let p = Permissions::from_perm_string(s).unwrap();
        assert_eq!(p.to_string(), s, "round-trip failed for {s}");
    }
}

#[test]
fn rejects_bad_strings() {
    assert!(Permissions::from_perm_string("rw").is_err());
    assert!(Permissions::from_perm_string("xyz").is_err());
    assert!(Permissions::from_perm_string("r--x").is_err());
}

#[test]
fn bits_round_trip() {
    assert_eq!(Permissions::all().bits(), 7);
    assert_eq!(Permissions::none().bits(), 0);
    assert_eq!(Permissions::from_bits(5), Permissions::from_perm_string("r-x").unwrap());
    assert_eq!(Permissions::from_bits(3), Permissions::from_perm_string("-wx").unwrap());
}

#[test]
fn set_ops() {
    let a = Permissions::from_perm_string("rwx").unwrap();
    let b = Permissions::from_perm_string("r-x").unwrap();
    assert_eq!(a.union(b), a);
    assert_eq!(a.intersect(b), b);
    assert!(a.covers(b));
    assert!(!b.covers(a));
}

#[test]
fn toggle_flips_single_bit() {
    let mut p = Permissions::from_perm_string("r-x").unwrap();
    p.toggle(PermBit::Write);
    assert_eq!(p, Permissions::all());
    p.toggle(PermBit::Read);
    assert_eq!(p, Permissions::from_perm_string("-wx").unwrap());
}
