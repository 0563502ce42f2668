//! Ownership: `stat` metadata, `chown` arguments and the permission check.
use vstd::prelude::*;

use crate::model::ObjectInfo;
use crate::text::{chars_of, find_char, find_from, parse_u32, push_char, push_str, spec_parse_u32, str_eq, string_from, string_of, trim, trim_bounds};

verus! {

/// The four fields `stat --printf '%F|%U|%G|%a'` prints.
#[derive(Debug)]
pub struct StatFields {
    pub file_type: String,
    pub owner: String,
    pub group: String,
    pub mode: String,
}

/// Why `stat` output was refused.
#[derive(Debug, Clone, Copy, PartialEq, Eq, Structural)]
pub enum StatError {
    /// The output does not have four `|`-separated fields.
    UnexpectedOutput,
    /// The object is a symbolic link, which the tool does not edit.
    SymbolicLink,
}

/// `s` without its trailing newlines, as `trim_end_matches('\n')` gives it.
pub open spec fn strip_newlines(s: Seq<char>) -> Seq<char>
    decreases s.len(),
{
    if s.len() > 0 && s.last() == '\n' {
        strip_newlines(s.drop_last())
    } else {
        s
    }
}

/// The four fields of `splitn(4, '|')`, when there are four.
pub open spec fn stat_parts(t: Seq<char>) -> Option<(Seq<char>, Seq<char>, Seq<char>, Seq<char>)> {
    match find_char(t, '|') {
        None => None,
        Some(a) => {
            let r1 = t.skip(a + 1);
            match find_char(r1, '|') {
                None => None,
                Some(b) => {
                    let r2 = r1.skip(b + 1);
                    match find_char(r2, '|') {
                        None => None,
                        Some(c) => Some((t.take(a), r1.take(b), r2.take(c), r2.skip(c + 1))),
                    }
                },
            }
        },
    }
}

/// What [`parse_stat`] gives for the output `out`.
pub open spec fn spec_parse_stat(out: Seq<char>) -> Result<(Seq<char>, Seq<char>, Seq<char>, Seq<char>), StatError> {
    match stat_parts(strip_newlines(out)) {
        None => Err(StatError::UnexpectedOutput),
        Some(p) => if p.0 == "symbolic link"@ {
            Err(StatError::SymbolicLink)
        } else {
            Ok(p)
        },
    }
}

/// The view of the fields.
pub open spec fn fields_view(f: StatFields) -> (Seq<char>, Seq<char>, Seq<char>, Seq<char>) {
    (f.file_type@, f.owner@, f.group@, f.mode@)
}

/// The positions of the first three `|` of `w`, as [`stat_parts`] cuts it.
fn split_bars(w: &Vec<char>) -> (r: Option<(usize, usize, usize)>)
    ensures
        match stat_parts(w@) {
            None => r is None,
            Some(p) => r is Some && ({
                let (a, b, c) = r->0;
                &&& a < b < c < w@.len()
                &&& p == (
                    w@.subrange(0, a as int),
                    w@.subrange(a + 1, b as int),
                    w@.subrange(b + 1, c as int),
                    w@.subrange(c + 1, w@.len() as int),
                )
            }),
        },
{
    let ghost t = w@;
    assert(w@.subrange(0, w@.len() as int) =~= t);
    proof {
        crate::text::lemma_find_char(t, '|');
    }
    let a = match find_from(w, 0, '|') {
        None => {
            return None;
        },
        Some(a) => a,
    };
    let ghost r1 = t.skip(a + 1);
    assert(r1 =~= w@.subrange(a + 1, w@.len() as int));
    proof {
        crate::text::lemma_find_char(r1, '|');
    }
    let b = match find_from(w, a + 1, '|') {
        None => {
            return None;
        },
        Some(b) => b,
    };
    let ghost r2 = r1.skip(b - a - 1 + 1);
    assert(r2 =~= w@.subrange(b + 1, w@.len() as int));
    proof {
        crate::text::lemma_find_char(r2, '|');
    }
    let c = match find_from(w, b + 1, '|') {
        None => {
            return None;
        },
        Some(c) => c,
    };
    assert(t.take(a as int) =~= w@.subrange(0, a as int));
    assert(r1.take(b - a - 1) =~= w@.subrange(a + 1, b as int));
    assert(r2.take(c - b - 1) =~= w@.subrange(b + 1, c as int));
    assert(r2.skip(c - b - 1 + 1) =~= w@.subrange(c + 1, w@.len() as int));
    Some((a, b, c))
}

/// Reads the output of `stat --printf '%F|%U|%G|%a' -- <path>`; a symbolic
/// link is refused.
pub fn parse_stat(out: &str) -> (r: Result<StatFields, StatError>)
    ensures
        match spec_parse_stat(out@) {
            Ok(p) => r is Ok && fields_view(r->Ok_0) == p,
            Err(e) => r is Err && r->Err_0 == e,
        },
{
    let v = chars_of(out);
    let mut n: usize = v.len();
    assert(v@.take(n as int) =~= v@);
    while n > 0 && v[n - 1] == '\n'
        invariant
            n <= v.len(),
            strip_newlines(v@) == strip_newlines(v@.take(n as int)),
        decreases n,
    {
        assert(v@.take(n as int).drop_last() =~= v@.take(n - 1));
        n = n - 1;
    }
    let ghost t = v@.take(n as int);
    assert(strip_newlines(t) == t);
    let mut w: Vec<char> = Vec::new();
    let mut k: usize = 0;
    while k < n
        invariant
            k <= n <= v.len(),
            w@ == v@.take(k as int),
        decreases n - k,
    {
        w.push(v[k]);
        k = k + 1;
        assert(w@ =~= v@.take(k as int));
    }
    assert(w@ == t);
    let (a, b, c) = match split_bars(&w) {
        None => {
            return Err(StatError::UnexpectedOutput);
        },
        Some(x) => x,
    };
    let file_type = string_from(&w, 0, a);
    if str_eq(file_type.as_str(), "symbolic link") {
        return Err(StatError::SymbolicLink);
    }
    Ok(StatFields {
        file_type,
        owner: string_from(&w, a + 1, b),
        group: string_from(&w, b + 1, c),
        mode: string_from(&w, c + 1, w.len()),
    })
}

/// The view of the object metadata.
pub open spec fn object_view(o: ObjectInfo) -> (Seq<char>, Seq<char>, bool, Seq<char>, Seq<char>, Seq<char>) {
    (o.path@, o.file_type@, o.is_directory, o.owner@, o.group@, o.mode@)
}

/// Gathers the metadata of an object from its `stat` fields and the output
/// of `realpath -s -- <path>`, which makes the displayed path absolute
/// without resolving symlinks.
pub fn stat(fields: StatFields, realpath_output: &str) -> (r: ObjectInfo)
    ensures
        object_view(r) == (
            trim(realpath_output@),
            fields.file_type@,
            fields.file_type@ == "directory"@,
            fields.owner@,
            fields.group@,
            fields.mode@,
        ),
{
    let v = chars_of(realpath_output);
    let (a, b) = trim_bounds(&v);
    let path = string_from(&v, a, b);
    let is_directory = str_eq(fields.file_type.as_str(), "directory");
    ObjectInfo {
        path,
        file_type: fields.file_type,
        is_directory,
        owner: fields.owner,
        group: fields.group,
        mode: fields.mode,
    }
}

/// The ownership spec `chown` takes: `owner:group`, `owner`, or `:group`.
pub open spec fn chown_spec_view(owner: Option<Seq<char>>, group: Option<Seq<char>>) -> Option<Seq<char>> {
    match (owner, group) {
        (Some(o), Some(g)) => Some(o + seq![':'] + g),
        (Some(o), None) => Some(o),
        (None, Some(g)) => Some(seq![':'] + g),
        (None, None) => None,
    }
}

pub open spec fn opt_str(o: Option<&str>) -> Option<Seq<char>> {
    match o {
        Some(s) => Some(s@),
        None => None,
    }
}

/// The views of a list of strings.
pub open spec fn strings_view(v: Seq<String>) -> Seq<Seq<char>> {
    v.map_values(|s: String| s@)
}

/// The arguments of `chown` that change the owner and/or owning group of
/// `path`; `None` when neither changes, so there is nothing to run. With
/// `recursive`, every descendant changes too (`chown -R`).
pub fn chown(path: &str, owner: Option<&str>, group: Option<&str>, recursive: bool) -> (r: Option<Vec<String>>)
    ensures
        match chown_spec_view(opt_str(owner), opt_str(group)) {
            None => r is None,
            Some(spec) => r is Some && strings_view(r->0@) == (if recursive {
                seq!["-R"@]
            } else {
                Seq::empty()
            }) + seq!["--"@, spec, path@],
        },
{
    let spec = match (owner, group) {
        (Some(o), Some(g)) => {
            let mut s = string_of(o);
            push_char(&mut s, ':');
            push_str(&mut s, g);
            s
        },
        (Some(o), None) => string_of(o),
        (None, Some(g)) => {
            let mut s = String::new();
            push_char(&mut s, ':');
            push_str(&mut s, g);
            assert(s@ =~= seq![':'] + g@);
            s
        },
        (None, None) => {
            return None;
        },
    };
    assert(spec@ == chown_spec_view(opt_str(owner), opt_str(group))->0);
    let mut args: Vec<String> = Vec::new();
    if recursive {
        args.push(string_of("-R"));
    }
    let ghost pre = strings_view(args@);
    assert(pre =~= if recursive { seq!["-R"@] } else { Seq::empty() });
    args.push(string_of("--"));
    args.push(spec);
    args.push(string_of(path));
    assert(strings_view(args@) =~= pre + seq!["--"@, chown_spec_view(opt_str(owner), opt_str(group))->0, path@]);
    assert(strings_view(args@) =~= (if recursive {
        seq!["-R"@]
    } else {
        Seq::empty()
    }) + seq!["--"@, chown_spec_view(opt_str(owner), opt_str(group))->0, path@]);
    Some(args)
}

/// The effective user id of the current process, from the output of `id -u`;
/// `None` when the output is not a number.
pub fn current_uid(id_output: &str) -> (r: Option<u32>)
    ensures
        r == spec_parse_u32(trim(id_output@)),
{
    let v = chars_of(id_output);
    let (a, b) = trim_bounds(&v);
    let mut w: Vec<char> = Vec::new();
    let mut k: usize = a;
    while k < b
        invariant
            a <= k <= b <= v.len(),
            w@ == v@.subrange(a as int, k as int),
        decreases b - k,
    {
        w.push(v[k]);
        k = k + 1;
        assert(w@ =~= v@.subrange(a as int, k as int));
    }
    parse_u32(&w)
}

/// Whether the current user (uid `uid`) may modify the ACL and ownership of
/// an object whose owner resolves to `owner_uid` (`None` when the owner name
/// does not resolve). On Linux, changing an ACL requires being the file owner
/// or the superuser.
pub fn can_modify(uid: u32, owner_uid: Option<u32>) -> (r: bool)
    ensures
        r == (uid == 0 || owner_uid == Some(uid)),
{
    if uid == 0 {
        return true;
    }
    match owner_uid {
        Some(o) => o == uid,
        None => false,
    }
}

} // verus!
