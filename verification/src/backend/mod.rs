//! What the tool reads from and hands to the system tools (`stat`, `getfacl`,
//! `setfacl`, `chown`, `getent`, `id`): parsers for their output and the
//! arguments and input they are given. Running them is the caller's part.
pub mod identity;
pub mod ownership;
pub mod posix_acl;
pub use ownership::{can_modify, chown, current_uid, parse_stat, stat, StatError, StatFields};
pub use identity::{list_groups, list_users, lookup_group, lookup_user, parse_line, Identity, LookupError};



pub use posix_acl::{backup, getfacl_args, parse_getfacl, read, restore, AclHandle, ParseError, ParseErrorKind};
