//! User and group identities, as `getent` prints them.
use vstd::prelude::*;

use crate::text::{chars_of, find_char, find_from, parse_u32, spec_parse_u32, split_chars, split_on, string_from};

verus! {

/// A resolved user or group identity.
#[derive(Debug, PartialEq, Eq)]
pub struct Identity {
    pub name: String,
    pub id: u32,
}

/// The fields of a `getent` line `name:password:numeric_id:...` as
/// `splitn(4, ':')` cuts them: the name and the third field, or `None` when
/// the line has fewer than three fields.
pub open spec fn getent_fields(line: Seq<char>) -> Option<(Seq<char>, Seq<char>)> {
    match find_char(line, ':') {
        None => None,
        Some(i) => {
            let after = line.skip(i + 1);
            match find_char(after, ':') {
                None => None,
                Some(j) => {
                    let rest = after.skip(j + 1);
                    let third = match find_char(rest, ':') {
                        Some(k) => rest.take(k),
                        None => rest,
                    };
                    Some((line.take(i), third))
                },
            }
        },
    }
}

/// The identity a `getent` line describes: its name and numeric id, or
/// `None` when the line has fewer than three fields or the id is not a `u32`.
pub open spec fn spec_parse_line(line: Seq<char>) -> Option<(Seq<char>, u32)> {
    match getent_fields(line) {
        None => None,
        Some((name, third)) => match spec_parse_u32(third) {
            Some(id) => Some((name, id)),
            None => None,
        },
    }
}

/// Parses the characters of a `getent` line.
fn parse_chars(v: &Vec<char>) -> (r: Option<Identity>)
    ensures
        match spec_parse_line(v@) {
            Some((name, id)) => r is Some && r->0.name@ == name && r->0.id == id,
            None => r is None,
        },
{
    let i = match find_from(v, 0, ':') {
        None => {
            assert(v@.subrange(0, v@.len() as int) =~= v@);
            return None;
        },
        Some(i) => i,
    };
    assert(v@.subrange(0, v@.len() as int) =~= v@);
    proof {
        crate::text::lemma_find_char(v@, ':');
    }
    let ghost after = v@.skip(i + 1);
    assert(after =~= v@.subrange(i + 1, v@.len() as int));
    let j = match find_from(v, i + 1, ':') {
        None => {
            return None;
        },
        Some(j) => j,
    };
    proof {
        crate::text::lemma_find_char(after, ':');
    }
    let ghost rest = after.skip(j - i - 1 + 1);
    assert(rest =~= v@.subrange(j + 1, v@.len() as int));
    let end = match find_from(v, j + 1, ':') {
        Some(k) => k,
        None => v.len(),
    };
    proof {
        crate::text::lemma_find_char(rest, ':');
    }
    let ghost third = match find_char(rest, ':') {
        Some(k) => rest.take(k),
        None => rest,
    };
    assert(third =~= v@.subrange(j + 1, end as int));
    let mut field: Vec<char> = Vec::new();
    let mut k: usize = j + 1;
    while k < end
        invariant
            j + 1 <= k <= end <= v.len(),
            field@ == v@.subrange(j + 1, k as int),
        decreases end - k,
    {
        field.push(v[k]);
        k = k + 1;
        assert(field@ =~= v@.subrange(j + 1, k as int));
    }
    assert(v@.take(i as int) =~= v@.subrange(0, i as int));
    match parse_u32(&field) {
        Some(id) => Some(Identity { name: string_from(v, 0, i), id }),
        None => None,
    }
}

/// Parse a single `getent` line: `name:password:numeric_id:...`.
pub fn parse_line(line: &str) -> (r: Option<Identity>)
    ensures
        match spec_parse_line(line@) {
            Some((name, id)) => r is Some && r->0.name@ == name && r->0.id == id,
            None => r is None,
        },
{
    let v = chars_of(line);
    parse_chars(&v)
}

/// Why a lookup found no identity.
#[derive(Debug, Clone, Copy, PartialEq, Eq, Structural)]
pub enum LookupError {
    /// `getent` printed nothing that reads as an entry of the database.
    NotFound,
}

/// Look up a user by name or numeric id: `getent_output` is what
/// `getent passwd <name_or_id>` printed. `getent` takes names and numeric ids
/// alike, so a raw uid can stand for a user.
pub fn lookup_user(getent_output: &str) -> (r: Result<Identity, LookupError>)
    ensures
        match spec_parse_line(getent_output@) {
            Some((name, id)) => r is Ok && r->Ok_0.name@ == name && r->Ok_0.id == id,
            None => r == Err::<Identity, LookupError>(LookupError::NotFound),
        },
{
    match parse_line(getent_output) {
        Some(id) => Ok(id),
        None => Err(LookupError::NotFound),
    }
}

/// Look up a group by name or numeric id: `getent_output` is what
/// `getent group <name_or_id>` printed.
pub fn lookup_group(getent_output: &str) -> (r: Result<Identity, LookupError>)
    ensures
        match spec_parse_line(getent_output@) {
            Some((name, id)) => r is Ok && r->Ok_0.name@ == name && r->Ok_0.id == id,
            None => r == Err::<Identity, LookupError>(LookupError::NotFound),
        },
{
    lookup_user(getent_output)
}

/// A line without its trailing carriage return, if it has one.
pub open spec fn strip_cr(line: Seq<char>) -> Seq<char> {
    if line.len() > 0 && line.last() == '\r' {
        line.drop_last()
    } else {
        line
    }
}

/// The lines of `text` as `str::lines` yields them: split at each `\n`, a
/// `\r` before a `\n` dropped. (A final empty piece, which `str::lines` does
/// not yield, describes no identity.)
pub open spec fn text_lines(text: Seq<char>) -> Seq<Seq<char>> {
    let p = split_on(text, '\n');
    Seq::new(p.len(), |k: int| if k < p.len() - 1 { strip_cr(p[k]) } else { p[k] })
}

/// The identities that `lines` describe, in order; lines that do not parse
/// are skipped.
pub open spec fn parse_all(lines: Seq<Seq<char>>) -> Seq<(Seq<char>, u32)>
    decreases lines.len(),
{
    if lines.len() == 0 {
        Seq::empty()
    } else {
        let prev = parse_all(lines.drop_last());
        match spec_parse_line(lines.last()) {
            Some(x) => prev.push(x),
            None => prev,
        }
    }
}

/// The identities listed in the output of `getent passwd` or `getent group`.
pub open spec fn spec_list(text: Seq<char>) -> Seq<(Seq<char>, u32)> {
    parse_all(text_lines(text))
}

/// The view of an identity.
pub open spec fn identity_view(i: Identity) -> (Seq<char>, u32) {
    (i.name@, i.id)
}

fn list(text: &str) -> (r: Vec<Identity>)
    ensures
        r@.map_values(|i: Identity| identity_view(i)) == spec_list(text@),
{
    let chars = chars_of(text);
    let pieces = split_chars(&chars, '\n');
    let ghost all = text_lines(text@);
    let ghost raw = split_on(text@, '\n');
    let mut out: Vec<Identity> = Vec::new();
    let mut i: usize = 0;
    while i < pieces.len()
        invariant
            i <= pieces@.len(),
            pieces@.len() == raw.len(),
            all.len() == raw.len(),
            all == text_lines(text@),
            raw == split_on(text@, '\n'),
            forall|k: int| 0 <= k < pieces@.len() ==> #[trigger] pieces@[k]@ == raw[k],
            out@.map_values(|x: Identity| identity_view(x)) == parse_all(all.take(i as int)),
        decreases pieces.len() - i,
    {
        let piece = &pieces[i];
        let n = piece.len();
        // A carriage return is part of the line ending only before a newline.
        let line: Vec<char> = if i + 1 < pieces.len() && n > 0 && piece[n - 1] == '\r' {
            let mut v: Vec<char> = Vec::new();
            let mut k: usize = 0;
            while k < n - 1
                invariant
                    n == piece.len(),
                    n > 0,
                    k <= n - 1,
                    v@ == piece@.subrange(0, k as int),
                decreases n - 1 - k,
            {
                v.push(piece[k]);
                k = k + 1;
                assert(v@ =~= piece@.subrange(0, k as int));
            }
            assert(v@ =~= piece@.drop_last());
            v
        } else {
            piece.clone()
        };
        proof {
            assert(pieces@[i as int]@ == raw[i as int]);
            assert(line@ == all[i as int]);
            assert(all.take(i + 1).drop_last() =~= all.take(i as int));
            assert(all.take(i + 1).last() == all[i as int]);
        }
        let ghost before = out@;
        match parse_chars(&line) {
            Some(id) => {
                out.push(id);
                assert(out@.map_values(|x: Identity| identity_view(x)) =~= before.map_values(
                    |x: Identity| identity_view(x),
                ).push(identity_view(out@.last())));
            },
            None => {},
        }
        i = i + 1;
    }
    assert(all.take(i as int) =~= all);
    out
}

/// All users known to the system: `getent_output` is what `getent passwd`
/// printed.
pub fn list_users(getent_output: &str) -> (r: Vec<Identity>)
    ensures
        r@.map_values(|i: Identity| identity_view(i)) == spec_list(getent_output@),
{
    list(getent_output)
}

/// All groups known to the system: `getent_output` is what `getent group`
/// printed.
pub fn list_groups(getent_output: &str) -> (r: Vec<Identity>)
    ensures
        r@.map_values(|i: Identity| identity_view(i)) == spec_list(getent_output@),
{
    list(getent_output)
}

} // verus!
