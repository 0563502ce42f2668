//! Character-level helpers shared by the parsers and printers.
//!
//! Every string is reasoned about through its view, a `Seq<char>`.
use vstd::prelude::*;

verus! {

/// Appends one character to a `String`.
///
/// Trusted: `String::push` appends `c` to the end of `s` (std documentation).
#[verifier::external_body]
pub(crate) fn push_char(s: &mut String, c: char)
    ensures
        final(s)@ == old(s)@.push(c),
{
    s.push(c);
}

/// Removes the last character of a `String`, if any.
///
/// Trusted: `String::pop` removes and returns the last character, and leaves
/// an empty string unchanged (std documentation).
#[verifier::external_body]
pub(crate) fn pop_char(s: &mut String)
    ensures
        final(s)@ == if old(s)@.len() > 0 {
            old(s)@.drop_last()
        } else {
            old(s)@
        },
{
    s.pop();
}

/// The characters of a string slice, in order.
pub fn chars_of(s: &str) -> (v: Vec<char>)
    ensures
        v@ == s@,
{
    let mut v: Vec<char> = Vec::new();
    for c in it: s.chars()
        invariant
            v@ == it.seq().take(it.index() as int),
    {
        v.push(c);
    }
    v
}

/// A `String` holding `v[from..to]`.
pub fn string_from(v: &Vec<char>, from: usize, to: usize) -> (s: String)
    requires
        from <= to <= v.len(),
    ensures
        s@ == v@.subrange(from as int, to as int),
{
    let mut s = String::new();
    let mut i: usize = from;
    while i < to
        invariant
            from <= i <= to <= v.len(),
            s@ == v@.subrange(from as int, i as int),
        decreases to - i,
    {
        push_char(&mut s, v[i]);
        i = i + 1;
        assert(s@ =~= v@.subrange(from as int, i as int));
    }
    s
}

/// Appends all characters of `v` to `s`.
pub(crate) fn push_chars(s: &mut String, v: &Vec<char>)
    ensures
        final(s)@ == old(s)@ + v@,
{
    let ghost start = s@;
    let mut i: usize = 0;
    while i < v.len()
        invariant
            i <= v.len(),
            s@ == start + v@.subrange(0, i as int),
        decreases v.len() - i,
    {
        push_char(s, v[i]);
        i = i + 1;
        assert(s@ =~= start + v@.subrange(0, i as int));
    }
    assert(v@.subrange(0, v@.len() as int) =~= v@);
}

/// Appends the characters of a string slice to `s`.
pub fn push_str(s: &mut String, t: &str)
    ensures
        final(s)@ == old(s)@ + t@,
{
    let v = chars_of(t);
    push_chars(s, &v);
}

/// A fresh `String` with the characters of `t`.
pub fn string_of(t: &str) -> (s: String)
    ensures
        s@ == t@,
{
    let mut s = String::new();
    push_str(&mut s, t);
    assert(s@ =~= t@);
    s
}

/// Whether two strings hold the same characters.
pub fn str_eq(a: &str, b: &str) -> (r: bool)
    ensures
        r == (a@ == b@),
{
    let va = chars_of(a);
    let vb = chars_of(b);
    chars_eq(&va, &vb)
}

/// Whether two character vectors are equal.
pub fn chars_eq(a: &Vec<char>, b: &Vec<char>) -> (r: bool)
    ensures
        r == (a@ == b@),
{
    if a.len() != b.len() {
        return false;
    }
    let mut i: usize = 0;
    while i < a.len()
        invariant
            a.len() == b.len(),
            i <= a.len(),
            forall|k: int| 0 <= k < i ==> a@[k] == b@[k],
        decreases a.len() - i,
    {
        if a[i] != b[i] {
            return false;
        }
        i = i + 1;
    }
    assert(a@ =~= b@);
    true
}

/// Unicode `White_Space`, the set that `char::is_whitespace` and `str::trim` use.
pub open spec fn is_ws(c: char) -> bool {
    ||| '\u{9}' <= c <= '\u{d}'
    ||| c == ' '
    ||| c == '\u{85}'
    ||| c == '\u{a0}'
    ||| c == '\u{1680}'
    ||| '\u{2000}' <= c <= '\u{200a}'
    ||| c == '\u{2028}'
    ||| c == '\u{2029}'
    ||| c == '\u{202f}'
    ||| c == '\u{205f}'
    ||| c == '\u{3000}'
}

pub fn is_whitespace(c: char) -> (r: bool)
    ensures
        r == is_ws(c),
{
    ('\u{9}' <= c && c <= '\u{d}') || c == ' ' || c == '\u{85}' || c == '\u{a0}' || c
        == '\u{1680}' || ('\u{2000}' <= c && c <= '\u{200a}') || c == '\u{2028}' || c
        == '\u{2029}' || c == '\u{202f}' || c == '\u{205f}' || c == '\u{3000}'
}

/// `s` without its leading whitespace.
pub open spec fn trim_start(s: Seq<char>) -> Seq<char>
    decreases s.len(),
{
    if s.len() > 0 && is_ws(s[0]) {
        trim_start(s.drop_first())
    } else {
        s
    }
}

/// `s` without its trailing whitespace.
pub open spec fn trim_end(s: Seq<char>) -> Seq<char>
    decreases s.len(),
{
    if s.len() > 0 && is_ws(s.last()) {
        trim_end(s.drop_last())
    } else {
        s
    }
}

/// `s` without leading and trailing whitespace, as `str::trim` gives it.
pub open spec fn trim(s: Seq<char>) -> Seq<char> {
    trim_end(trim_start(s))
}

proof fn lemma_trim_start_skip(s: Seq<char>, i: int)
    requires
        0 <= i <= s.len(),
        forall|k: int| 0 <= k < i ==> is_ws(#[trigger] s[k]),
    ensures
        trim_start(s) == trim_start(s.subrange(i, s.len() as int)),
    decreases i,
{
    if i > 0 {
        assert(s.drop_first() =~= s.subrange(1, s.len() as int));
        lemma_trim_start_skip(s.drop_first(), i - 1);
        assert(s.drop_first().subrange(i - 1, s.drop_first().len() as int) =~= s.subrange(
            i,
            s.len() as int,
        ));
    } else {
        assert(s.subrange(0, s.len() as int) =~= s);
    }
}

proof fn lemma_trim_end_take(s: Seq<char>, j: int)
    requires
        0 <= j <= s.len(),
        forall|k: int| j <= k < s.len() ==> is_ws(#[trigger] s[k]),
    ensures
        trim_end(s) == trim_end(s.subrange(0, j)),
    decreases s.len() - j,
{
    if j < s.len() {
        assert(s.drop_last() =~= s.subrange(0, s.len() - 1));
        lemma_trim_end_take(s.drop_last(), j);
        assert(s.drop_last().subrange(0, j) =~= s.subrange(0, j));
    } else {
        assert(s.subrange(0, j) =~= s);
    }
}

/// The bounds `[start, end)` of `trim(v@)` within `v`.
pub fn trim_bounds(v: &Vec<char>) -> (r: (usize, usize))
    ensures
        r.0 <= r.1 <= v.len(),
        v@.subrange(r.0 as int, r.1 as int) == trim(v@),
{
    let mut i: usize = 0;
    while i < v.len() && is_whitespace(v[i])
        invariant
            i <= v.len(),
            forall|k: int| 0 <= k < i ==> is_ws(#[trigger] v@[k]),
        decreases v.len() - i,
    {
        i = i + 1;
    }
    proof {
        lemma_trim_start_skip(v@, i as int);
    }
    let ghost rest = v@.subrange(i as int, v.len() as int);
    assert(trim_start(rest) == rest);
    let mut j: usize = v.len();
    while j > i && is_whitespace(v[j - 1])
        invariant
            i <= j <= v.len(),
            forall|k: int| j <= k < v.len() ==> is_ws(#[trigger] v@[k]),
        decreases j,
    {
        j = j - 1;
    }
    proof {
        assert forall|k: int| j - i <= k < rest.len() implies is_ws(#[trigger] rest[k]) by {
            assert(rest[k] == v@[k + i]);
        }
        lemma_trim_end_take(rest, j - i);
        assert(rest.subrange(0, j - i) =~= v@.subrange(i as int, j as int));
        let t = v@.subrange(i as int, j as int);
        if t.len() > 0 {
            assert(t.last() == v@[j - 1]);
        }
    }
    (i, j)
}

/// `s` without leading and trailing whitespace, as a new `String`.
pub fn trimmed(s: &str) -> (r: String)
    ensures
        r@ == trim(s@),
{
    let v = chars_of(s);
    let (a, b) = trim_bounds(&v);
    string_from(&v, a, b)
}

/// Splits `s` at every occurrence of `sep`, as `str::split` does: the result
/// has one more piece than `s` has separators.
pub open spec fn split_on(s: Seq<char>, sep: char) -> Seq<Seq<char>>
    decreases s.len(),
{
    if s.len() == 0 {
        seq![Seq::empty()]
    } else {
        let pieces = split_on(s.drop_last(), sep);
        if s.last() == sep {
            pieces.push(Seq::empty())
        } else {
            pieces.update(pieces.len() - 1, pieces.last().push(s.last()))
        }
    }
}

pub proof fn lemma_split_on_nonempty(s: Seq<char>, sep: char)
    ensures
        split_on(s, sep).len() >= 1,
    decreases s.len(),
{
    if s.len() > 0 {
        lemma_split_on_nonempty(s.drop_last(), sep);
    }
}

/// Splits `v` at every `sep`.
pub fn split_chars(v: &Vec<char>, sep: char) -> (r: Vec<Vec<char>>)
    ensures
        r@.len() == split_on(v@, sep).len(),
        forall|k: int| 0 <= k < r@.len() ==> #[trigger] r@[k]@ == split_on(v@, sep)[k],
{
    let mut done: Vec<Vec<char>> = Vec::new();
    let mut cur: Vec<char> = Vec::new();
    let mut i: usize = 0;
    while i < v.len()
        invariant
            i <= v.len(),
            split_on(v@.take(i as int), sep).len() == done@.len() + 1,
            forall|k: int|
                0 <= k < done@.len() ==> #[trigger] done@[k]@ == split_on(v@.take(i as int), sep)[k],
            cur@ == split_on(v@.take(i as int), sep).last(),
        decreases v.len() - i,
    {
        let c = v[i];
        proof {
            lemma_split_on_nonempty(v@.take(i as int), sep);
            assert(v@.take(i + 1).drop_last() =~= v@.take(i as int));
            assert(v@.take(i + 1).last() == c);
        }
        if c == sep {
            let finished = cur;
            done.push(finished);
            cur = Vec::new();
            assert(cur@ =~= Seq::<char>::empty());
        } else {
            cur.push(c);
        }
        i = i + 1;
    }
    assert(v@.take(v@.len() as int) =~= v@);
    done.push(cur);
    done
}

/// Appending text without separators extends the last piece.
pub proof fn lemma_split_on_append(a: Seq<char>, w: Seq<char>, sep: char)
    requires
        forall|k: int| 0 <= k < w.len() ==> w[k] != sep,
    ensures
        split_on(a + w, sep) == split_on(a, sep).update(
            split_on(a, sep).len() - 1,
            split_on(a, sep).last() + w,
        ),
    decreases w.len(),
{
    lemma_split_on_nonempty(a, sep);
    if w.len() == 0 {
        assert(a + w =~= a);
        assert(split_on(a, sep).last() + w =~= split_on(a, sep).last());
        assert(split_on(a, sep).update(split_on(a, sep).len() - 1, split_on(a, sep).last())
            =~= split_on(a, sep));
    } else {
        let wd = w.drop_last();
        lemma_split_on_append(a, wd, sep);
        assert((a + w).drop_last() =~= a + wd);
        assert((a + w).last() == w.last());
        lemma_split_on_nonempty(a + wd, sep);
        let p = split_on(a, sep);
        assert(p.update(p.len() - 1, p.last() + wd).update(p.len() - 1, (p.last() + wd).push(w.last()))
            =~= p.update(p.len() - 1, p.last() + w)) by {
            assert((p.last() + wd).push(w.last()) =~= p.last() + w);
        }
    }
}

/// A separator at the end starts a new, empty piece.
pub proof fn lemma_split_on_sep(a: Seq<char>, sep: char)
    ensures
        split_on(a.push(sep), sep) == split_on(a, sep).push(Seq::empty()),
{
    assert(a.push(sep).drop_last() =~= a);
}

/// Trimming leaves a string alone when it neither starts nor ends with whitespace.
pub proof fn lemma_trim_noop(s: Seq<char>)
    requires
        s.len() > 0,
        !is_ws(s[0]),
        !is_ws(s.last()),
    ensures
        trim(s) == s,
{
}

/// The position of the first `c` in `s`, if any.
pub open spec fn find_char(s: Seq<char>, c: char) -> Option<int>
    decreases s.len(),
{
    if s.len() == 0 {
        None
    } else if s[0] == c {
        Some(0)
    } else {
        match find_char(s.drop_first(), c) {
            Some(k) => Some(k + 1),
            None => None,
        }
    }
}

pub proof fn lemma_find_char(s: Seq<char>, c: char)
    ensures
        match find_char(s, c) {
            Some(i) => 0 <= i < s.len() && s[i] == c && forall|k: int| 0 <= k < i ==> s[k] != c,
            None => forall|k: int| 0 <= k < s.len() ==> s[k] != c,
        },
    decreases s.len(),
{
    if s.len() > 0 {
        lemma_find_char(s.drop_first(), c);
        if s[0] != c {
            match find_char(s.drop_first(), c) {
                Some(i) => {
                    assert forall|k: int| 0 <= k < i + 1 implies s[k] != c by {
                        if k > 0 {
                            assert(s[k] == s.drop_first()[k - 1]);
                        }
                    }
                },
                None => {
                    assert forall|k: int| 0 <= k < s.len() implies s[k] != c by {
                        if k > 0 {
                            assert(s[k] == s.drop_first()[k - 1]);
                        }
                    }
                },
            }
        }
    }
}

pub proof fn lemma_find_char_at(s: Seq<char>, c: char, i: int)
    requires
        0 <= i < s.len(),
        s[i] == c,
        forall|k: int| 0 <= k < i ==> s[k] != c,
    ensures
        find_char(s, c) == Some(i),
{
    lemma_find_char(s, c);
    match find_char(s, c) {
        Some(j) => {
            if j < i {
                assert(s[j] != c);
            } else if j > i {
                assert(s[i] != c);
            }
        },
        None => {
            assert(s[i] != c);
        },
    }
}

pub proof fn lemma_find_char_none(s: Seq<char>, c: char)
    requires
        forall|k: int| 0 <= k < s.len() ==> s[k] != c,
    ensures
        find_char(s, c) is None,
{
    lemma_find_char(s, c);
    match find_char(s, c) {
        Some(j) => {
            assert(s[j] != c);
        },
        None => {},
    }
}

/// The position of the first `c` in `v[from..]`, counted from the start of `v`.
pub fn find_from(v: &Vec<char>, from: usize, c: char) -> (r: Option<usize>)
    requires
        from <= v.len(),
    ensures
        match find_char(v@.subrange(from as int, v.len() as int), c) {
            Some(k) => r == Some((k + from) as usize),
            None => r is None,
        },
{
    let ghost s = v@.subrange(from as int, v.len() as int);
    let mut i: usize = from;
    while i < v.len()
        invariant
            from <= i <= v.len(),
            s == v@.subrange(from as int, v.len() as int),
            forall|k: int| from <= k < i ==> v@[k] != c,
        decreases v.len() - i,
    {
        if v[i] == c {
            proof {
                assert forall|k: int| 0 <= k < i - from implies s[k] != c by {
                    assert(s[k] == v@[k + from]);
                }
                lemma_find_char_at(s, c, i - from);
            }
            return Some(i);
        }
        i = i + 1;
    }
    proof {
        assert forall|k: int| 0 <= k < s.len() implies s[k] != c by {
            assert(s[k] == v@[k + from]);
        }
        lemma_find_char_none(s, c);
    }
    None
}

/// Whether `v[from..to]` equals `w`.
pub fn range_eq(v: &Vec<char>, from: usize, to: usize, w: &Vec<char>) -> (r: bool)
    requires
        from <= to <= v.len(),
    ensures
        r == (v@.subrange(from as int, to as int) == w@),
{
    if to - from != w.len() {
        return false;
    }
    let mut i: usize = 0;
    while i < w.len()
        invariant
            from <= to <= v.len(),
            to - from == w.len(),
            i <= w.len(),
            forall|k: int| 0 <= k < i ==> v@[from + k] == w@[k],
        decreases w.len() - i,
    {
        if v[from + i] != w[i] {
            assert(v@.subrange(from as int, to as int)[i as int] != w@[i as int]);
            return false;
        }
        i = i + 1;
    }
    assert(v@.subrange(from as int, to as int) =~= w@);
    true
}

/// Whether `v` starts with `prefix`.
pub fn starts_with(v: &Vec<char>, prefix: &Vec<char>) -> (r: bool)
    ensures
        r == (prefix@.len() <= v@.len() && v@.take(prefix@.len() as int) == prefix@),
{
    if prefix.len() > v.len() {
        return false;
    }
    let mut i: usize = 0;
    while i < prefix.len()
        invariant
            prefix.len() <= v.len(),
            i <= prefix.len(),
            forall|k: int| 0 <= k < i ==> v@[k] == prefix@[k],
        decreases prefix.len() - i,
    {
        if v[i] != prefix[i] {
            assert(v@.take(prefix@.len() as int)[i as int] != prefix@[i as int]);
            return false;
        }
        i = i + 1;
    }
    assert(v@.take(prefix@.len() as int) =~= prefix@);
    true
}

/// Lexicographic order on character sequences, by code point; this is the
/// order of `String`'s `Ord`, since UTF-8 preserves code-point order.
pub open spec fn seq_le(a: Seq<char>, b: Seq<char>) -> bool
    decreases a.len(),
{
    if a.len() == 0 {
        true
    } else if b.len() == 0 {
        false
    } else if a[0] != b[0] {
        a[0] < b[0]
    } else {
        seq_le(a.drop_first(), b.drop_first())
    }
}

pub proof fn lemma_seq_le_refl(a: Seq<char>)
    ensures
        seq_le(a, a),
    decreases a.len(),
{
    if a.len() > 0 {
        lemma_seq_le_refl(a.drop_first());
    }
}

pub proof fn lemma_seq_le_total(a: Seq<char>, b: Seq<char>)
    ensures
        seq_le(a, b) || seq_le(b, a),
    decreases a.len(),
{
    if a.len() > 0 && b.len() > 0 && a[0] == b[0] {
        lemma_seq_le_total(a.drop_first(), b.drop_first());
    }
}

pub proof fn lemma_seq_le_trans(a: Seq<char>, b: Seq<char>, c: Seq<char>)
    requires
        seq_le(a, b),
        seq_le(b, c),
    ensures
        seq_le(a, c),
    decreases a.len(),
{
    if a.len() > 0 && b.len() > 0 && c.len() > 0 && a[0] == b[0] && b[0] == c[0] {
        lemma_seq_le_trans(a.drop_first(), b.drop_first(), c.drop_first());
    }
}

pub proof fn lemma_seq_le_antisym(a: Seq<char>, b: Seq<char>)
    requires
        seq_le(a, b),
        seq_le(b, a),
    ensures
        a == b,
    decreases a.len(),
{
    if a.len() == 0 {
        assert(b.len() == 0);
        assert(a =~= b);
    } else {
        assert(b.len() > 0);
        assert(a[0] == b[0]);
        lemma_seq_le_antisym(a.drop_first(), b.drop_first());
        assert forall|k: int| 0 <= k < a.len() implies a[k] == b[k] by {
            if k > 0 {
                assert(a[k] == a.drop_first()[k - 1]);
                assert(b[k] == b.drop_first()[k - 1]);
            }
        }
        assert(a =~= b);
    }
}

/// Whether `a <= b` in the lexicographic order of [`seq_le`].
pub fn chars_le(a: &Vec<char>, b: &Vec<char>) -> (r: bool)
    ensures
        r == seq_le(a@, b@),
{
    let mut i: usize = 0;
    assert(a@.skip(0) =~= a@ && b@.skip(0) =~= b@);
    while i < a.len() && i < b.len() && a[i] == b[i]
        invariant
            i <= a.len(),
            i <= b.len(),
            seq_le(a@, b@) == seq_le(a@.skip(i as int), b@.skip(i as int)),
        decreases a.len() - i,
    {
        proof {
            assert(a@.skip(i as int).drop_first() =~= a@.skip(i + 1));
            assert(b@.skip(i as int).drop_first() =~= b@.skip(i + 1));
        }
        i = i + 1;
    }
    if i == a.len() {
        true
    } else if i == b.len() {
        false
    } else {
        a[i] < b[i]
    }
}

/// Decimal digits of an unsigned integer, as `u32::from_str` reads them:
/// an optional `+`, then at least one ASCII digit.
pub open spec fn digits_of(s: Seq<char>) -> Seq<char> {
    if s.len() > 0 && s[0] == '+' {
        s.drop_first()
    } else {
        s
    }
}

pub open spec fn is_digit(c: char) -> bool {
    '0' <= c <= '9'
}

/// The value of a string of decimal digits.
pub open spec fn digits_value(s: Seq<char>) -> nat
    decreases s.len(),
{
    if s.len() == 0 {
        0
    } else {
        digits_value(s.drop_last()) * 10 + ((s.last() as u32) - ('0' as u32)) as nat
    }
}

/// What `u32::from_str` returns for `s`: `None` when it reports an error.
pub open spec fn spec_parse_u32(s: Seq<char>) -> Option<u32> {
    let d = digits_of(s);
    if d.len() > 0 && (forall|k: int| 0 <= k < d.len() ==> is_digit(#[trigger] d[k]))
        && digits_value(d) <= u32::MAX {
        Some(digits_value(d) as u32)
    } else {
        None
    }
}

proof fn lemma_digits_value_mono(s: Seq<char>, i: int)
    requires
        0 <= i <= s.len(),
        forall|k: int| 0 <= k < s.len() ==> is_digit(#[trigger] s[k]),
    ensures
        digits_value(s.take(i)) <= digits_value(s),
    decreases s.len() - i,
{
    if i < s.len() {
        assert(s.drop_last().take(i) =~= s.take(i));
        lemma_digits_value_mono(s.drop_last(), i);
    } else {
        assert(s.take(i) =~= s);
    }
}

/// Parses `v` as `u32::from_str` does.
pub fn parse_u32(v: &Vec<char>) -> (r: Option<u32>)
    ensures
        r == spec_parse_u32(v@),
{
    let ghost d = digits_of(v@);
    let start: usize = if v.len() > 0 && v[0] == '+' {
        1
    } else {
        0
    };
    assert(d =~= v@.skip(start as int));
    if start == v.len() {
        return None;
    }
    let mut acc: u64 = 0;
    let mut i: usize = start;
    while i < v.len()
        invariant
            start <= i <= v.len(),
            d == v@.skip(start as int),
            d == digits_of(v@),
            forall|k: int| start <= k < i ==> is_digit(#[trigger] v@[k]),
            acc as nat == digits_value(v@.subrange(start as int, i as int)),
            acc <= u32::MAX,
        decreases v.len() - i,
    {
        let c = v[i];
        if !('0' <= c && c <= '9') {
            proof {
                assert(d[i - start] == c);
                assert(!is_digit(d[i - start]));
                assert(d == digits_of(v@));
                assert(!(forall|k: int| 0 <= k < d.len() ==> is_digit(#[trigger] d[k])));
                assert(spec_parse_u32(v@) is None);
            }
            return None;
        }
        let digit: u64 = ((c as u32) - ('0' as u32)) as u64;
        proof {
            let t = v@.subrange(start as int, i + 1);
            assert(t.drop_last() =~= v@.subrange(start as int, i as int));
            assert(t.last() == c);
        }
        let next: u64 = acc * 10 + digit;
        if next > 4294967295u64 {
            proof {
                let t = v@.subrange(start as int, i + 1);
                assert(digits_value(t) == digits_value(t.drop_last()) * 10 + digit);
                assert(digits_value(t) == next);
                if forall|k: int| 0 <= k < d.len() ==> is_digit(#[trigger] d[k]) {
                    assert(d.take(i + 1 - start) =~= t);
                    lemma_digits_value_mono(d, i + 1 - start);
                }
            }
            return None;
        }
        acc = next;
        i = i + 1;
    }
    assert(v@.subrange(start as int, v.len() as int) =~= d);
    Some(acc as u32)
}

} // verus!
