//! Pure data types for POSIX ACLs: permission bits, entries and whole ACLs.
pub mod acl;
pub mod entry;
pub mod permissions;

pub use acl::{Acl, ObjectInfo};
pub use entry::{AclEntry, EntryKind, EntryView, Scope};
pub use permissions::{PermBit, PermError, Permissions};
