//! The `getfacl` text format and the `setfacl` invocation.
use vstd::prelude::*;

use crate::model::acl::{
    auto_masks_view, entry_lines, filter_scope, from_or_mask, has_mask, has_named, is_sorted,
    join_lines, lemma_written_form, masks_plain, normalize_view, setfacl_text, sort_view, views,
    scope_lines,
};
use crate::model::entry::{
    default_prefix, entry_text, identity_chars, key_le, kind_is_named, kind_keyword, kw_group,
    kw_mask, kw_other, kw_user, scope_prefix, scope_rank,
};
use crate::model::permissions::{perm_chars, spec_parse_perms, PermError};
use crate::model::{Acl, AclEntry, EntryKind, EntryView, ObjectInfo, Permissions, Scope};
use crate::backend::ownership::strings_view;
use crate::text::{
    push_char, push_str, string_of,
    chars_of, find_char, find_from, is_ws, range_eq, split_chars, split_on, starts_with,
    string_from, trim, trim_bounds,
};

verus! {

/// Why a line of `getfacl` text was refused.
#[derive(Debug, Clone, Copy, PartialEq, Eq, Structural)]
pub enum ParseErrorKind {
    /// The line does not have the `keyword:identity:permissions` shape.
    Malformed,
    /// The keyword is not `user`, `group`, `mask` or `other`.
    UnknownKeyword,
    /// The permission field is not a valid `rwx` string.
    InvalidPermissions(PermError),
}

/// A refused line of `getfacl` text and the reason.
#[derive(Debug)]
pub struct ParseError {
    pub kind: ParseErrorKind,
    /// The offending line, trimmed.
    pub line: String,
}

/// The result of reading one object: its metadata plus its current ACL.
#[derive(Debug)]
pub struct AclHandle {
    pub object: ObjectInfo,
    pub acl: Acl,
}

/// The entry a `getfacl` line describes, or why it is refused.
pub open spec fn spec_parse_entry(line: Seq<char>) -> Result<EntryView, ParseErrorKind> {
    let scope = if line.len() >= 8 && line.take(8) == default_prefix() {
        Scope::Default
    } else {
        Scope::Access
    };
    let rest = if scope == Scope::Default {
        line.skip(8)
    } else {
        line
    };
    match find_char(rest, ':') {
        None => Err(ParseErrorKind::Malformed),
        Some(i) => {
            let keyword = rest.take(i);
            let after = rest.skip(i + 1);
            match find_char(after, ':') {
                None => Err(ParseErrorKind::Malformed),
                Some(j) => {
                    let identity = after.take(j);
                    let perms = after.skip(j + 1);
                    let kind = if keyword == kw_user() {
                        Some(
                            if identity.len() == 0 {
                                EntryKind::Owner
                            } else {
                                EntryKind::NamedUser
                            },
                        )
                    } else if keyword == kw_group() {
                        Some(
                            if identity.len() == 0 {
                                EntryKind::OwningGroup
                            } else {
                                EntryKind::NamedGroup
                            },
                        )
                    } else if keyword == kw_mask() {
                        Some(EntryKind::Mask)
                    } else if keyword == kw_other() {
                        Some(EntryKind::Other)
                    } else {
                        None
                    };
                    match kind {
                        None => Err(ParseErrorKind::UnknownKeyword),
                        Some(kind) => match spec_parse_perms(vstd::utf8::encode_utf8(perms)) {
                            Err(e) => Err(ParseErrorKind::InvalidPermissions(e)),
                            Ok(p) => Ok(
                                EntryView {
                                    scope,
                                    kind,
                                    identity: if identity.len() == 0 {
                                        None
                                    } else {
                                        Some(identity)
                                    },
                                    permissions: p,
                                },
                            ),
                        },
                    }
                },
            }
        },
    }
}

/// Whether a trimmed line carries no entry: it is empty or a `#` comment.
pub open spec fn is_skipped(line: Seq<char>) -> bool {
    line.len() == 0 || line[0] == '#'
}

/// The entries of `lines`, in order, or the first refused line and why.
pub open spec fn parse_lines(lines: Seq<Seq<char>>) -> Result<Seq<EntryView>, (ParseErrorKind, Seq<char>)>
    decreases lines.len(),
{
    if lines.len() == 0 {
        Ok(Seq::empty())
    } else {
        let line = trim(lines[0]);
        if is_skipped(line) {
            parse_lines(lines.drop_first())
        } else {
            match spec_parse_entry(line) {
                Err(k) => Err((k, line)),
                Ok(e) => match parse_lines(lines.drop_first()) {
                    Ok(rest) => Ok(seq![e] + rest),
                    Err(x) => Err(x),
                },
            }
        }
    }
}

/// What [`parse_getfacl`] gives for `text`: the entries of its lines in
/// canonical order, or the first refused line.
pub open spec fn spec_parse_getfacl(text: Seq<char>) -> Result<Seq<EntryView>, (ParseErrorKind, Seq<char>)> {
    match parse_lines(split_on(text, '\n')) {
        Ok(es) => Ok(sort_view(es)),
        Err(x) => Err(x),
    }
}

/// `acc` followed by the outcome of the remaining lines.
pub open spec fn then_lines(
    acc: Seq<EntryView>,
    r: Result<Seq<EntryView>, (ParseErrorKind, Seq<char>)>,
) -> Result<Seq<EntryView>, (ParseErrorKind, Seq<char>)> {
    match r {
        Ok(rest) => Ok(acc + rest),
        Err(x) => Err(x),
    }
}

fn kind_for(line: &Vec<char>, from: usize, to: usize, identity_empty: bool) -> (r: Option<EntryKind>)
    requires
        from <= to <= line.len(),
    ensures
        ({
            let keyword = line@.subrange(from as int, to as int);
            r == if keyword == kw_user() {
                Some(
                    if identity_empty {
                        EntryKind::Owner
                    } else {
                        EntryKind::NamedUser
                    },
                )
            } else if keyword == kw_group() {
                Some(
                    if identity_empty {
                        EntryKind::OwningGroup
                    } else {
                        EntryKind::NamedGroup
                    },
                )
            } else if keyword == kw_mask() {
                Some(EntryKind::Mask)
            } else if keyword == kw_other() {
                Some(EntryKind::Other)
            } else {
                None
            }
        }),
{
    let user = vec!['u', 's', 'e', 'r'];
    let group = vec!['g', 'r', 'o', 'u', 'p'];
    let mask = vec!['m', 'a', 's', 'k'];
    let other = vec!['o', 't', 'h', 'e', 'r'];
    assert(user@ =~= kw_user());
    assert(group@ =~= kw_group());
    assert(mask@ =~= kw_mask());
    assert(other@ =~= kw_other());
    if range_eq(line, from, to, &user) {
        Some(
            if identity_empty {
                EntryKind::Owner
            } else {
                EntryKind::NamedUser
            },
        )
    } else if range_eq(line, from, to, &group) {
        Some(
            if identity_empty {
                EntryKind::OwningGroup
            } else {
                EntryKind::NamedGroup
            },
        )
    } else if range_eq(line, from, to, &mask) {
        Some(EntryKind::Mask)
    } else if range_eq(line, from, to, &other) {
        Some(EntryKind::Other)
    } else {
        None
    }
}

/// Parses one trimmed, non-comment line of `getfacl` text.
fn parse_entry(line: &Vec<char>) -> (r: Result<AclEntry, ParseErrorKind>)
    ensures
        match spec_parse_entry(line@) {
            Ok(e) => r is Ok && r->Ok_0@ == e,
            Err(k) => r == Err::<AclEntry, ParseErrorKind>(k),
        },
{
    let prefix = vec!['d', 'e', 'f', 'a', 'u', 'l', 't', ':'];
    assert(prefix@ =~= default_prefix());
    let is_default = starts_with(line, &prefix);
    let scope = if is_default {
        Scope::Default
    } else {
        Scope::Access
    };
    let off: usize = if is_default {
        8
    } else {
        0
    };
    let ghost rest = line@.subrange(off as int, line@.len() as int);
    assert(rest =~= if is_default {
        line@.skip(8)
    } else {
        line@
    });
    let i = match find_from(line, off, ':') {
        None => {
            return Err(ParseErrorKind::Malformed);
        },
        Some(i) => i,
    };
    proof {
        crate::text::lemma_find_char(rest, ':');
    }
    let ghost after = rest.skip(i - off + 1);
    assert(after =~= line@.subrange(i + 1, line@.len() as int));
    let j = match find_from(line, i + 1, ':') {
        None => {
            return Err(ParseErrorKind::Malformed);
        },
        Some(j) => j,
    };
    proof {
        crate::text::lemma_find_char(after, ':');
    }
    assert(rest.take(i - off) =~= line@.subrange(off as int, i as int));
    assert(after.take(j - i - 1) =~= line@.subrange(i + 1, j as int));
    assert(after.skip(j - i - 1 + 1) =~= line@.subrange(j + 1, line@.len() as int));
    let identity_empty = j == i + 1;
    let kind = match kind_for(line, off, i, identity_empty) {
        None => {
            return Err(ParseErrorKind::UnknownKeyword);
        },
        Some(k) => k,
    };
    let perm_text = string_from(line, j + 1, line.len());
    let permissions = match Permissions::from_perm_string(perm_text.as_str()) {
        Err(e) => {
            return Err(ParseErrorKind::InvalidPermissions(e));
        },
        Ok(p) => p,
    };
    let identity = if identity_empty {
        None
    } else {
        Some(string_from(line, i + 1, j))
    };
    Ok(AclEntry::new(scope, kind, identity, permissions))
}

/// Parse `getfacl` text output into an [`Acl`].
///
/// Comment lines (the `# file:` / `# owner:` header) and blank lines are
/// skipped; every other line must be a valid ACL entry.
pub fn parse_getfacl(text: &str) -> (r: Result<Acl, ParseError>)
    ensures
        match spec_parse_getfacl(text@) {
            Ok(es) => r is Ok && r->Ok_0@ == es,
            Err(x) => r is Err && r->Err_0.kind == x.0 && r->Err_0.line@ == x.1,
        },
{
    let chars = chars_of(text);
    let lines = split_chars(&chars, '\n');
    let ghost all = split_on(text@, '\n');
    assert(lines@.len() == all.len());
    let mut entries: Vec<AclEntry> = Vec::new();
    let mut i: usize = 0;
    proof {
        assert(all.skip(0) =~= all);
        assert(views(entries@) =~= Seq::<EntryView>::empty());
        match parse_lines(all) {
            Ok(r) => {
                assert(Seq::<EntryView>::empty() + r =~= r);
            },
            Err(x) => {},
        }
    }
    while i < lines.len()
        invariant
            i <= lines@.len(),
            lines@.len() == all.len(),
            all == split_on(text@, '\n'),
            forall|k: int| 0 <= k < lines@.len() ==> #[trigger] lines@[k]@ == all[k],
            parse_lines(all) == then_lines(views(entries@), parse_lines(all.skip(i as int))),
        decreases lines.len() - i,
    {
        let line = &lines[i];
        let (a, b) = trim_bounds(line);
        let ghost t = trim(all[i as int]);
        proof {
            assert(all.skip(i as int).drop_first() =~= all.skip(i + 1));
            assert(all.skip(i as int)[0] == all[i as int]);
            assert(lines@[i as int]@ == all[i as int]);
        }
        if a == b || line[a] == '#' {
            assert(is_skipped(t));
        } else {
            let trimmed = if a == 0 && b == line.len() {
                line.clone()
            } else {
                let mut v: Vec<char> = Vec::new();
                let mut k: usize = a;
                while k < b
                    invariant
                        a <= k <= b <= line.len(),
                        v@ == line@.subrange(a as int, k as int),
                    decreases b - k,
                {
                    v.push(line[k]);
                    k = k + 1;
                    assert(v@ =~= line@.subrange(a as int, k as int));
                }
                v
            };
            assert(trimmed@ == t);
            assert(!is_skipped(t));
            match parse_entry(&trimmed) {
                Err(kind) => {
                    assert(parse_lines(all.skip(i as int)) == Err::<Seq<EntryView>, (ParseErrorKind, Seq<char>)>((kind, t)));
                    let s = string_from(&trimmed, 0, trimmed.len());
                    assert(trimmed@.subrange(0, trimmed@.len() as int) =~= trimmed@);
                    assert(parse_lines(all) == Err::<Seq<EntryView>, (ParseErrorKind, Seq<char>)>((kind, t)));
                    assert(s@ == t);
                    return Err(ParseError { kind, line: s });
                },
                Ok(e) => {
                    let ghost before = entries@;
                    entries.push(e);
                    proof {
                        assert(views(entries@) =~= views(before) + seq![e@]);
                        let rest = parse_lines(all.skip(i + 1));
                        match rest {
                            Ok(r) => {
                                assert(views(before) + (seq![e@] + r) =~= views(entries@) + r);
                            },
                            Err(x) => {},
                        }
                    }
                },
            }
        }
        i = i + 1;
    }
    assert(all.skip(i as int) =~= Seq::<Seq<char>>::empty());
    assert(views(entries@) + Seq::<EntryView>::empty() =~= views(entries@));
    Ok(Acl::new(entries))
}

/// The part of a refused line that the refusal is about: the keyword of a
/// line with an unknown keyword, the permission text of a line with invalid
/// permissions, nothing for a malformed line.
pub open spec fn error_field_view(kind: ParseErrorKind, line: Seq<char>) -> Seq<char> {
    let rest = if line.len() >= 8 && line.take(8) == default_prefix() {
        line.skip(8)
    } else {
        line
    };
    match find_char(rest, ':') {
        None => Seq::empty(),
        Some(i) => match kind {
            ParseErrorKind::Malformed => Seq::empty(),
            ParseErrorKind::UnknownKeyword => rest.take(i),
            ParseErrorKind::InvalidPermissions(_) => {
                let after = rest.skip(i + 1);
                match find_char(after, ':') {
                    Some(j) => after.skip(j + 1),
                    None => Seq::empty(),
                }
            },
        },
    }
}

impl ParseError {
    /// The part of the line the refusal is about (see [`error_field_view`]).
    pub fn field(&self) -> (r: String)
        ensures
            r@ == error_field_view(self.kind, self.line@),
    {
        let line = chars_of(self.line.as_str());
        let prefix = vec!['d', 'e', 'f', 'a', 'u', 'l', 't', ':'];
        assert(prefix@ =~= default_prefix());
        let off: usize = if starts_with(&line, &prefix) {
            8
        } else {
            0
        };
        let ghost rest = line@.subrange(off as int, line@.len() as int);
        assert(rest =~= if line@.len() >= 8 && line@.take(8) == default_prefix() {
            line@.skip(8)
        } else {
            line@
        });
        let i = match find_from(&line, off, ':') {
            None => {
                return String::new();
            },
            Some(i) => i,
        };
        proof {
            crate::text::lemma_find_char(rest, ':');
        }
        match self.kind {
            ParseErrorKind::Malformed => String::new(),
            ParseErrorKind::UnknownKeyword => {
                assert(rest.take(i - off) =~= line@.subrange(off as int, i as int));
                string_from(&line, off, i)
            },
            ParseErrorKind::InvalidPermissions(_) => {
                let ghost after = rest.skip(i - off + 1);
                assert(after =~= line@.subrange(i + 1, line@.len() as int));
                match find_from(&line, i + 1, ':') {
                    None => String::new(),
                    Some(j) => {
                        proof {
                            crate::text::lemma_find_char(after, ':');
                        }
                        assert(after.skip(j - i - 1 + 1) =~= line@.subrange(j + 1, line@.len() as int));
                        string_from(&line, j + 1, line.len())
                    },
                }
            },
        }
    }
}

/// The arguments of `getfacl` that print the ACL of `path`.
pub fn getfacl_args(path: &str) -> (r: Vec<String>)
    ensures
        strings_view(r@) == seq!["-p"@, "--"@, path@],
{
    let mut args: Vec<String> = Vec::new();
    args.push(string_of("-p"));
    args.push(string_of("--"));
    args.push(string_of(path));
    assert(strings_view(args@) =~= seq!["-p"@, "--"@, path@]);
    args
}

/// The object's metadata together with its ACL, read from the `getfacl`
/// output for it.
pub fn read(object: ObjectInfo, getfacl_output: &str) -> (r: Result<AclHandle, ParseError>)
    ensures
        match spec_parse_getfacl(getfacl_output@) {
            Ok(es) => r is Ok && r->Ok_0.acl@ == es && r->Ok_0.object == object,
            Err(x) => r is Err && r->Err_0.kind == x.0 && r->Err_0.line@ == x.1,
        },
{
    match parse_getfacl(getfacl_output) {
        Ok(acl) => Ok(AclHandle { object, acl }),
        Err(e) => Err(e),
    }
}

/// What `setfacl` is run with to apply the full ACL of `acl` to `path`,
/// replacing whatever is set: its arguments and the text on its standard
/// input. With `recursive`, the ACL is applied to every descendant of `path`
/// (`setfacl -R`).
pub fn write(path: &str, acl: &Acl, recursive: bool) -> (r: (Vec<String>, String))
    ensures
        strings_view(r.0@) == seq!["--set-file=-"@] + (if recursive {
            seq!["-R"@]
        } else {
            Seq::empty()
        }) + seq!["--"@, path@],
        r.1@ == setfacl_text(acl@),
{
    let text = acl.to_setfacl_text();
    let mut args: Vec<String> = Vec::new();
    args.push(string_of("--set-file=-"));
    if recursive {
        args.push(string_of("-R"));
    }
    let ghost pre = strings_view(args@);
    assert(pre =~= seq!["--set-file=-"@] + (if recursive {
        seq!["-R"@]
    } else {
        Seq::empty()
    }));
    args.push(string_of("--"));
    args.push(string_of(path));
    assert(strings_view(args@) =~= pre + seq!["--"@, path@]);
    (args, text)
}

/// `path` with every `/` and `\` replaced by `_`.
pub open spec fn sanitize_view(path: Seq<char>) -> Seq<char> {
    path.map_values(|c: char| if c == '/' || c == '\\' { '_' } else { c })
}

/// The name of the backup file of `path`: `<sanitized path>[_R].acl.bak`.
pub open spec fn backup_name_view(path: Seq<char>, recursive: bool) -> Seq<char> {
    sanitize_view(path) + (if recursive {
        "_R"@
    } else {
        Seq::empty()
    }) + ".acl.bak"@
}

/// What capturing the ACL of `path` for a later restore takes: the arguments
/// of `getfacl` (the whole subtree with `recursive`) and the name of the
/// backup file its output goes to.
pub fn backup(path: &str, recursive: bool) -> (r: (Vec<String>, String))
    ensures
        strings_view(r.0@) == (if recursive {
            seq!["-R"@]
        } else {
            Seq::empty()
        }) + seq!["-p"@, "--"@, path@],
        r.1@ == backup_name_view(path@, recursive),
{
    let mut args: Vec<String> = Vec::new();
    if recursive {
        args.push(string_of("-R"));
    }
    let ghost pre = strings_view(args@);
    assert(pre =~= if recursive {
        seq!["-R"@]
    } else {
        Seq::empty()
    });
    args.push(string_of("-p"));
    args.push(string_of("--"));
    args.push(string_of(path));
    assert(strings_view(args@) =~= pre + seq!["-p"@, "--"@, path@]);
    let v = chars_of(path);
    let mut name = String::new();
    let mut i: usize = 0;
    while i < v.len()
        invariant
            i <= v.len(),
            v@ == path@,
            name@ == sanitize_view(path@).take(i as int),
        decreases v.len() - i,
    {
        let c = v[i];
        push_char(&mut name, if c == '/' || c == '\\' { '_' } else { c });
        i = i + 1;
        assert(name@ =~= sanitize_view(path@).take(i as int));
    }
    assert(sanitize_view(path@).take(i as int) =~= sanitize_view(path@));
    let ghost base = name@;
    if recursive {
        push_str(&mut name, "_R");
    }
    push_str(&mut name, ".acl.bak");
    assert(name@ =~= backup_name_view(path@, recursive));
    (args, name)
}

/// The arguments of `setfacl` that restore the ACL of `path` from a backup
/// file written by [`backup`].
pub fn restore(path: &str, backup_file: &str) -> (r: Vec<String>)
    ensures
        strings_view(r@) == seq!["--set-file"@, backup_file@, "--"@, path@],
{
    let mut args: Vec<String> = Vec::new();
    args.push(string_of("--set-file"));
    args.push(string_of(backup_file));
    args.push(string_of("--"));
    args.push(string_of(path));
    assert(strings_view(args@) =~= seq!["--set-file"@, backup_file@, "--"@, path@]);
    args
}

// ---------------------------------------------------------------------------
// Reading back what `to_setfacl_text` writes.

/// An entry that its text line describes exactly: named kinds, and only they,
/// carry an identity, which is non-empty and holds no `:` and no line break.
pub open spec fn entry_wf(e: EntryView) -> bool {
    &&& (kind_is_named(e.kind) <==> e.identity is Some)
    &&& match e.identity {
        Some(id) => id.len() > 0 && forall|k: int|
            0 <= k < id.len() ==> id[k] != ':' && id[k] != '\n',
        None => true,
    }
}

/// An ACL in the form the tool keeps: canonical order, well-formed entries,
/// and a mask in every scope that has named entries.
pub open spec fn acl_wf(s: Seq<EntryView>) -> bool {
    &&& is_sorted(s)
    &&& forall|i: int| 0 <= i < s.len() ==> entry_wf(#[trigger] s[i])
    &&& has_named(s, Scope::Access) ==> has_mask(s, Scope::Access)
    &&& has_named(s, Scope::Default) ==> has_mask(s, Scope::Default)
}

proof fn lemma_parse_lines_add(a: Seq<Seq<char>>, b: Seq<Seq<char>>)
    ensures
        parse_lines(a + b) == match parse_lines(a) {
            Ok(x) => then_lines(x, parse_lines(b)),
            Err(e) => Err(e),
        },
    decreases a.len(),
{
    if a.len() == 0 {
        assert(a + b =~= b);
        match parse_lines(b) {
            Ok(r) => {
                assert(Seq::<EntryView>::empty() + r =~= r);
            },
            Err(_) => {},
        }
    } else {
        assert((a + b).drop_first() =~= a.drop_first() + b);
        assert((a + b)[0] == a[0]);
        lemma_parse_lines_add(a.drop_first(), b);
        match parse_lines(a.drop_first()) {
            Ok(x) => match parse_lines(b) {
                Ok(r) => {
                    let line = trim(a[0]);
                    if !is_skipped(line) {
                        match spec_parse_entry(line) {
                            Ok(e) => {
                                assert(seq![e] + (x + r) =~= (seq![e] + x) + r);
                            },
                            Err(_) => {},
                        }
                    }
                },
                Err(_) => {},
            },
            Err(_) => {},
        }
    }
}

proof fn lemma_keyword_facts(kind: EntryKind)
    ensures
        kind_keyword(kind).len() >= 4,
        forall|k: int| 0 <= k < kind_keyword(kind).len() ==> kind_keyword(kind)[k] != ':',
        kind_keyword(kind)[0] != 'd',
        !is_ws(kind_keyword(kind)[0]),
        kind_keyword(kind) == kw_user() <==> (kind == EntryKind::Owner || kind == EntryKind::NamedUser),
        kind_keyword(kind) == kw_group() <==> (kind == EntryKind::OwningGroup || kind == EntryKind::NamedGroup),
        kind_keyword(kind) == kw_mask() <==> kind == EntryKind::Mask,
        kind_keyword(kind) == kw_other() <==> kind == EntryKind::Other,
{
    let u = kw_user();
    let g = kw_group();
    let m = kw_mask();
    let o = kw_other();
    assert(u[0] == 'u' && g[0] == 'g' && m[0] == 'm' && o[0] == 'o');
    assert(u.len() == 4 && g.len() == 5 && m.len() == 4 && o.len() == 5);
}

/// The line of a well-formed entry reads back as that entry.
pub proof fn lemma_parse_entry_text(e: EntryView)
    requires
        entry_wf(e),
    ensures
        trim(entry_text(e)) == entry_text(e),
        !is_skipped(entry_text(e)),
        spec_parse_entry(entry_text(e)) == Ok::<EntryView, ParseErrorKind>(e),
{
    let t = entry_text(e);
    let kw = kind_keyword(e.kind);
    let id = identity_chars(e);
    let pc = perm_chars(e.permissions);
    let r = kw + seq![':'] + id + seq![':'] + pc;
    lemma_keyword_facts(e.kind);
    assert(t =~= scope_prefix(e.scope) + r);
    assert(t.last() == pc[2]);
    assert(!is_ws(pc[2]));
    if e.scope == Scope::Default {
        assert(t[0] == 'd');
    } else {
        assert(t[0] == kw[0]);
    }
    crate::text::lemma_trim_noop(t);
    let rest = if t.len() >= 8 && t.take(8) == default_prefix() {
        t.skip(8)
    } else {
        t
    };
    if e.scope == Scope::Default {
        assert(t.take(8) =~= default_prefix());
        assert(t.skip(8) =~= r);
    } else {
        assert(t =~= r);
        if t.len() >= 8 && t.take(8) == default_prefix() {
            assert(t.take(8)[0] == 'd');
        }
    }
    assert(rest == r);
    let kl = kw.len() as int;
    assert(r[kl] == ':');
    assert forall|k: int| 0 <= k < kl implies r[k] != ':' by {
        assert(r[k] == kw[k]);
    }
    crate::text::lemma_find_char_at(r, ':', kl);
    assert(r.take(kl) =~= kw);
    let after = r.skip(kl + 1);
    assert(after =~= id + seq![':'] + pc);
    let il = id.len() as int;
    assert(after[il] == ':');
    assert forall|k: int| 0 <= k < il implies after[k] != ':' by {
        assert(after[k] == id[k]);
    }
    crate::text::lemma_find_char_at(after, ':', il);
    assert(after.take(il) =~= id);
    assert(after.skip(il + 1) =~= pc);
    crate::model::permissions::lemma_perm_text_round_trip(e.permissions);
    match e.identity {
        Some(x) => {
            assert(id == x);
        },
        None => {
            assert(id.len() == 0);
        },
    }
}

/// Each line of well-formed entries reads back as its entry, in order.
proof fn lemma_parse_entry_lines(s: Seq<EntryView>)
    requires
        forall|i: int| 0 <= i < s.len() ==> entry_wf(#[trigger] s[i]),
    ensures
        parse_lines(entry_lines(s)) == Ok::<Seq<EntryView>, (ParseErrorKind, Seq<char>)>(s),
    decreases s.len(),
{
    if s.len() == 0 {
        assert(entry_lines(s) =~= Seq::<Seq<char>>::empty());
        assert(s =~= Seq::<EntryView>::empty());
    } else {
        let d = s.drop_last();
        assert forall|i: int| 0 <= i < d.len() implies entry_wf(#[trigger] d[i]) by {
            assert(d[i] == s[i]);
        }
        lemma_parse_entry_lines(d);
        let one = seq![entry_text(s.last())];
        assert(entry_lines(s) =~= entry_lines(d) + one);
        lemma_parse_lines_add(entry_lines(d), one);
        lemma_parse_entry_text(s.last());
        assert(one.drop_first() =~= Seq::<Seq<char>>::empty());
        assert(parse_lines(one.drop_first()) == Ok::<Seq<EntryView>, (ParseErrorKind, Seq<char>)>(Seq::empty()));
        assert(seq![s.last()] + Seq::<EntryView>::empty() =~= seq![s.last()]);
        assert(one[0] == entry_text(s.last()));
        assert(parse_lines(one) == Ok::<Seq<EntryView>, (ParseErrorKind, Seq<char>)>(seq![s.last()]));
        assert(d + seq![s.last()] =~= s);
        assert(then_lines(d, parse_lines(one)) == Ok::<Seq<EntryView>, (ParseErrorKind, Seq<char>)>(s));
    }
}

proof fn lemma_entry_lines_add(a: Seq<EntryView>, b: Seq<EntryView>)
    ensures
        entry_lines(a + b) == entry_lines(a) + entry_lines(b),
    decreases b.len(),
{
    if b.len() == 0 {
        assert(a + b =~= a);
        assert(entry_lines(b) =~= Seq::<Seq<char>>::empty());
        assert(entry_lines(a) + entry_lines(b) =~= entry_lines(a));
    } else {
        lemma_entry_lines_add(a, b.drop_last());
        assert((a + b).drop_last() =~= a + b.drop_last());
        assert((a + b).last() == b.last());
        assert(entry_lines(a + b) =~= entry_lines(a) + entry_lines(b));
    }
}

proof fn lemma_filter_scope_all(s: Seq<EntryView>, scope: Scope)
    requires
        forall|i: int| 0 <= i < s.len() ==> (#[trigger] s[i]).scope == scope,
    ensures
        filter_scope(s, scope) == s,
        filter_scope(s, if scope == Scope::Access { Scope::Default } else { Scope::Access }) == Seq::<EntryView>::empty(),
    decreases s.len(),
{
    if s.len() > 0 {
        let d = s.drop_last();
        assert forall|i: int| 0 <= i < d.len() implies (#[trigger] d[i]).scope == scope by {
            assert(d[i] == s[i]);
        }
        lemma_filter_scope_all(d, scope);
        assert(d.push(s.last()) =~= s);
    }
}

/// In canonical order the access entries come first, then the default ones.
proof fn lemma_filter_scope_split(s: Seq<EntryView>)
    requires
        is_sorted(s),
    ensures
        filter_scope(s, Scope::Access) + filter_scope(s, Scope::Default) == s,
    decreases s.len(),
{
    if s.len() == 0 {
        assert(s + s =~= s);
    } else {
        let d = s.drop_last();
        let x = s.last();
        assert(is_sorted(d));
        if x.scope == Scope::Default {
            lemma_filter_scope_split(d);
            assert(filter_scope(d, Scope::Access) + filter_scope(d, Scope::Default).push(x) =~= d.push(x));
            assert(d.push(x) =~= s);
        } else {
            assert forall|i: int| 0 <= i < d.len() implies (#[trigger] d[i]).scope == Scope::Access by {
                assert(key_le(s[i], s[s.len() - 1]));
                assert(d[i] == s[i]);
                assert(scope_rank(d[i].scope) <= scope_rank(x.scope));
            }
            lemma_filter_scope_all(d, Scope::Access);
            assert(d.push(x) + Seq::<EntryView>::empty() =~= s);
        }
    }
}

proof fn lemma_split_join(lines: Seq<Seq<char>>)
    requires
        forall|i: int, k: int| 0 <= i < lines.len() && 0 <= k < lines[i].len() ==> #[trigger] lines[i][k] != '\n',
    ensures
        split_on(join_lines(lines), '\n') == lines.push(Seq::empty()),
    decreases lines.len(),
{
    if lines.len() == 0 {
        assert(split_on(Seq::<char>::empty(), '\n') =~= seq![Seq::<char>::empty()]);
        assert(lines.push(Seq::empty()) =~= seq![Seq::<char>::empty()]);
    } else {
        let d = lines.drop_last();
        let w = lines.last();
        assert forall|i: int, k: int| 0 <= i < d.len() && 0 <= k < d[i].len() implies #[trigger] d[i][k] != '\n' by {
            assert(d[i] == lines[i]);
        }
        lemma_split_join(d);
        let a = join_lines(d);
        assert forall|k: int| 0 <= k < w.len() implies w[k] != '\n' by {
            assert(lines[lines.len() - 1][k] == w[k]);
        }
        crate::text::lemma_split_on_append(a, w, '\n');
        crate::text::lemma_split_on_sep(a + w, '\n');
        assert(join_lines(lines) =~= (a + w).push('\n'));
        let p = d.push(Seq::<char>::empty());
        assert(p.last() + w =~= w);
        assert(p.update(p.len() - 1, w) =~= lines);
    }
}

/// Reading back the `setfacl` text of a well-formed ACL gives that ACL: what
/// is written is what is read.
pub proof fn lemma_setfacl_text_round_trip(s: Seq<EntryView>)
    requires
        acl_wf(s),
    ensures
        spec_parse_getfacl(setfacl_text(s)) == Ok::<Seq<EntryView>, (ParseErrorKind, Seq<char>)>(s),
{
    let a = filter_scope(s, Scope::Access);
    let d = filter_scope(s, Scope::Default);
    assert(scope_lines(s, Scope::Access) =~= entry_lines(a));
    assert(scope_lines(s, Scope::Default) =~= entry_lines(d));
    lemma_filter_scope_split(s);
    lemma_entry_lines_add(a, d);
    let lines = entry_lines(s);
    assert(setfacl_text(s) == join_lines(lines));
    lemma_entry_lines_facts(s);
    lemma_split_join(lines);
    assert(lines.push(Seq::<char>::empty()) =~= lines + seq![Seq::<char>::empty()]);
    assert(split_on(setfacl_text(s), '\n') == lines + seq![Seq::<char>::empty()]);
    lemma_parse_lines_add(lines, seq![Seq::<char>::empty()]);
    lemma_parse_entry_lines(s);
    assert(seq![Seq::<char>::empty()].drop_first() =~= Seq::<Seq<char>>::empty());
    assert(crate::text::trim_start(Seq::<char>::empty()) =~= Seq::<char>::empty());
    assert(crate::text::trim_end(Seq::<char>::empty()) =~= Seq::<char>::empty());
    assert(trim(seq![Seq::<char>::empty()][0]) =~= Seq::<char>::empty());
    assert(parse_lines(Seq::<Seq<char>>::empty()) == Ok::<Seq<EntryView>, (ParseErrorKind, Seq<char>)>(Seq::empty()));
    assert(parse_lines(seq![Seq::<char>::empty()]) == Ok::<Seq<EntryView>, (ParseErrorKind, Seq<char>)>(Seq::empty()));
    assert(s + Seq::<EntryView>::empty() =~= s);
    assert(parse_lines(lines + seq![Seq::<char>::empty()]) == Ok::<Seq<EntryView>, (ParseErrorKind, Seq<char>)>(s));
    crate::model::acl::lemma_sort_view_sorted_id(s);
}

proof fn lemma_written_wf(w: Seq<EntryView>, t: Seq<EntryView>)
    requires
        forall|i: int| 0 <= i < w.len() ==> entry_wf(#[trigger] w[i]),
        from_or_mask(w, t),
        is_sorted(t),
        has_named(t, Scope::Access) ==> has_mask(t, Scope::Access),
        has_named(t, Scope::Default) ==> has_mask(t, Scope::Default),
    ensures
        acl_wf(t),
{
    assert forall|i: int| 0 <= i < t.len() implies entry_wf(#[trigger] t[i]) by {
        assert(t.contains(t[i]));
        if w.contains(t[i]) {
            let k = choose|k: int| 0 <= k < w.len() && w[k] == t[i];
            assert(entry_wf(w[k]));
        }
    }
}

/// What is written on a save reads back as itself: the ACL normalized, with
/// or without its masks recalculated, is in the form whose `setfacl` text
/// `getfacl` reads back unchanged. This holds of ACLs in canonical order
/// whose entries are well formed, as parsing and editing leave them.
pub proof fn lemma_written_acl_reads_back(w: Seq<EntryView>)
    requires
        is_sorted(w),
        forall|i: int| 0 <= i < w.len() ==> entry_wf(#[trigger] w[i]),
    ensures
        spec_parse_getfacl(setfacl_text(normalize_view(w))) == Ok::<Seq<EntryView>, (ParseErrorKind, Seq<char>)>(
            normalize_view(w),
        ),
        spec_parse_getfacl(setfacl_text(auto_masks_view(w))) == Ok::<Seq<EntryView>, (ParseErrorKind, Seq<char>)>(
            auto_masks_view(w),
        ),
{
    assert forall|i: int| 0 <= i < w.len() && (#[trigger] w[i]).kind == EntryKind::Mask implies w[i].identity is None by {
        assert(entry_wf(w[i]));
    }
    assert(masks_plain(w));
    lemma_written_form(w);
    lemma_written_wf(w, normalize_view(w));
    lemma_written_wf(w, auto_masks_view(w));
    lemma_setfacl_text_round_trip(normalize_view(w));
    lemma_setfacl_text_round_trip(auto_masks_view(w));
}

proof fn lemma_entry_lines_facts(s: Seq<EntryView>)
    requires
        forall|i: int| 0 <= i < s.len() ==> entry_wf(#[trigger] s[i]),
    ensures
        entry_lines(s).len() == s.len(),
        forall|i: int| 0 <= i < s.len() ==> #[trigger] entry_lines(s)[i] == entry_text(s[i]),
        forall|i: int, k: int|
            0 <= i < entry_lines(s).len() && 0 <= k < entry_lines(s)[i].len() ==> #[trigger] entry_lines(s)[i][k] != '\n',
    decreases s.len(),
{
    if s.len() > 0 {
        let d = s.drop_last();
        assert forall|i: int| 0 <= i < d.len() implies entry_wf(#[trigger] d[i]) by {
            assert(d[i] == s[i]);
        }
        lemma_entry_lines_facts(d);
        let e = s.last();
        let t = entry_text(e);
        lemma_keyword_facts(e.kind);
        assert forall|k: int| 0 <= k < t.len() implies t[k] != '\n' by {
            let kw = kind_keyword(e.kind);
            let id = identity_chars(e);
            let pc = perm_chars(e.permissions);
            let pre = scope_prefix(e.scope);
            assert(t =~= pre + kw + seq![':'] + id + seq![':'] + pc);
            if k < pre.len() {
            } else if k < pre.len() + kw.len() {
                assert(t[k] == kw[k - pre.len()]);
                assert(kw == kw_user() || kw == kw_group() || kw == kw_mask() || kw == kw_other());
            } else if k == pre.len() + kw.len() {
            } else if k < pre.len() + kw.len() + 1 + id.len() {
                assert(t[k] == id[k - pre.len() - kw.len() - 1]);
            } else if k == pre.len() + kw.len() + 1 + id.len() {
            } else {
                assert(t[k] == pc[k - pre.len() - kw.len() - 2 - id.len()]);
            }
        }
        assert forall|i: int| 0 <= i < s.len() implies #[trigger] entry_lines(s)[i] == entry_text(s[i]) by {
            if i < d.len() {
                assert(entry_lines(s)[i] == entry_lines(d)[i]);
                assert(d[i] == s[i]);
            }
        }
    }
}

} // verus!
