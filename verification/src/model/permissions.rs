//! Read/write/execute permission bits.
use vstd::prelude::*;

use crate::text::push_char;

verus! {

/// A single permission bit, in the fixed r, w, x order.
#[derive(Debug, Clone, Copy, PartialEq, Eq, Structural)]
pub enum PermBit {
    Read,
    Write,
    Execute,
}

impl PermBit {
    /// The three bits in display order.
    pub fn all() -> (r: [PermBit; 3])
        ensures
            r@ == seq![PermBit::Read, PermBit::Write, PermBit::Execute],
    {
        let r = [PermBit::Read, PermBit::Write, PermBit::Execute];
        assert(r@ =~= seq![PermBit::Read, PermBit::Write, PermBit::Execute]);
        r
    }

    pub fn label(self) -> (r: &'static str)
        ensures
            r@ == match self {
                PermBit::Read => "Read"@,
                PermBit::Write => "Write"@,
                PermBit::Execute => "Execute"@,
            },
    {
        match self {
            PermBit::Read => "Read",
            PermBit::Write => "Write",
            PermBit::Execute => "Execute",
        }
    }

    /// The single-character representation used in `getfacl` output.
    pub open spec fn spec_on_char(self) -> char {
        match self {
            PermBit::Read => 'r',
            PermBit::Write => 'w',
            PermBit::Execute => 'x',
        }
    }

    #[verifier::when_used_as_spec(spec_on_char)]
    pub fn on_char(self) -> (r: char)
        ensures
            r == self.spec_on_char(),
    {
        match self {
            PermBit::Read => 'r',
            PermBit::Write => 'w',
            PermBit::Execute => 'x',
        }
    }

    /// The value of this bit within a [`Permissions`].
    pub open spec fn spec_get(self, p: Permissions) -> bool {
        match self {
            PermBit::Read => p.read,
            PermBit::Write => p.write,
            PermBit::Execute => p.execute,
        }
    }

    #[verifier::when_used_as_spec(spec_get)]
    pub fn get(self, p: Permissions) -> (r: bool)
        ensures
            r == self.spec_get(p),
    {
        match self {
            PermBit::Read => p.read,
            PermBit::Write => p.write,
            PermBit::Execute => p.execute,
        }
    }
}

/// Why a permission string was refused.
#[derive(Debug, Clone, Copy, PartialEq, Eq, Structural)]
pub enum PermError {
    /// The string is not exactly three bytes long.
    WrongLength,
    /// The byte is not allowed at its position.
    InvalidChar(u8),
}

/// The three classic read/write/execute permission bits for one ACL entry.
#[derive(Debug, Clone, Copy, PartialEq, Eq, Structural)]
pub struct Permissions {
    pub read: bool,
    pub write: bool,
    pub execute: bool,
}

/// What a permission byte means at a position whose letter is `on`.
pub open spec fn spec_bit_byte(c: u8, on: u8) -> Option<bool> {
    if c == on {
        Some(true)
    } else if c == 0x2d {
        Some(false)
    } else {
        None
    }
}

/// The execute position also takes the setuid and sticky letters.
pub open spec fn spec_exec_byte(c: u8) -> Option<bool> {
    if c == 0x78 || c == 0x73 || c == 0x74 {
        Some(true)
    } else if c == 0x2d {
        Some(false)
    } else {
        None
    }
}

/// The result of [`Permissions::from_perm_string`] on the UTF-8 bytes `b`.
pub open spec fn spec_parse_perms(b: Seq<u8>) -> Result<Permissions, PermError> {
    if b.len() != 3 {
        Err(PermError::WrongLength)
    } else if spec_bit_byte(b[0], 0x72) is None {
        Err(PermError::InvalidChar(b[0]))
    } else if spec_bit_byte(b[1], 0x77) is None {
        Err(PermError::InvalidChar(b[1]))
    } else if spec_exec_byte(b[2]) is None {
        Err(PermError::InvalidChar(b[2]))
    } else {
        Ok(
            Permissions {
                read: spec_bit_byte(b[0], 0x72)->0,
                write: spec_bit_byte(b[1], 0x77)->0,
                execute: spec_exec_byte(b[2])->0,
            },
        )
    }
}

/// The `rwx` text of a permission set: each letter or `-`.
pub open spec fn perm_chars(p: Permissions) -> Seq<char> {
    seq![
        if p.read { 'r' } else { '-' },
        if p.write { 'w' } else { '-' },
        if p.execute { 'x' } else { '-' },
    ]
}

/// Bitwise OR of two permission sets.
pub open spec fn perm_or(a: Permissions, b: Permissions) -> Permissions {
    Permissions { read: a.read || b.read, write: a.write || b.write, execute: a.execute || b.execute }
}

/// Bitwise AND of two permission sets.
pub open spec fn perm_and(a: Permissions, b: Permissions) -> Permissions {
    Permissions { read: a.read && b.read, write: a.write && b.write, execute: a.execute && b.execute }
}

/// Whether `m` grants every bit of `p` (`m` may equal `p`).
pub open spec fn grants_all(m: Permissions, p: Permissions) -> bool {
    (p.read ==> m.read) && (p.write ==> m.write) && (p.execute ==> m.execute)
}

/// `p` with `bit` flipped.
pub open spec fn toggled(p: Permissions, bit: PermBit) -> Permissions {
    match bit {
        PermBit::Read => Permissions { read: !p.read, ..p },
        PermBit::Write => Permissions { write: !p.write, ..p },
        PermBit::Execute => Permissions { execute: !p.execute, ..p },
    }
}

/// The permission set a numeric value stands for: bit 4 read, 2 write,
/// 1 execute.
pub open spec fn from_bits_view(bits: u8) -> Permissions {
    Permissions { read: bits & 4 != 0, write: bits & 2 != 0, execute: bits & 1 != 0 }
}

/// The numeric 0-7 value of a permission set.
pub open spec fn perm_value(p: Permissions) -> u8 {
    ((if p.read { 4u8 } else { 0u8 }) + (if p.write { 2u8 } else { 0u8 }) + (if p.execute {
        1u8
    } else {
        0u8
    })) as u8
}

fn parse_bit(c: u8, on: u8) -> (r: Result<bool, PermError>)
    ensures
        match spec_bit_byte(c, on) {
            Some(b) => r == Ok::<bool, PermError>(b),
            None => r == Err::<bool, PermError>(PermError::InvalidChar(c)),
        },
{
    if c == on {
        Ok(true)
    } else if c == 0x2d {
        Ok(false)
    } else {
        Err(PermError::InvalidChar(c))
    }
}

impl Permissions {
    /// No bit set.
    pub fn none() -> (r: Self)
        ensures
            r == (Permissions { read: false, write: false, execute: false }),
    {
        Permissions { read: false, write: false, execute: false }
    }

    /// Every bit set.
    pub fn all() -> (r: Self)
        ensures
            r == (Permissions { read: true, write: true, execute: true }),
    {
        Permissions { read: true, write: true, execute: true }
    }

    pub fn new(read: bool, write: bool, execute: bool) -> (r: Self)
        ensures
            r == (Permissions { read, write, execute }),
    {
        Self { read, write, execute }
    }

    pub fn from_bits(bits: u8) -> (r: Self)
        ensures
            r == from_bits_view(bits),
    {
        Self { read: bits & 4 != 0, write: bits & 2 != 0, execute: bits & 1 != 0 }
    }

    /// The numeric 0-7 value of these bits.
    pub fn bits(self) -> (r: u8)
        ensures
            r == perm_value(self),
    {
        let mut b: u8 = 0;
        if self.read {
            assert(0u8 | 4u8 == 4u8) by (bit_vector);
            b = b | 4;
        }
        let ghost b1 = b;
        if self.write {
            assert(b1 == 0 || b1 == 4);
            assert((0u8 | 2u8) == 2u8 && (4u8 | 2u8) == 6u8) by (bit_vector);
            b = b | 2;
        }
        let ghost b2 = b;
        if self.execute {
            assert(b2 == 0 || b2 == 2 || b2 == 4 || b2 == 6);
            assert((0u8 | 1u8) == 1u8 && (2u8 | 1u8) == 3u8 && (4u8 | 1u8) == 5u8 && (6u8 | 1u8)
                == 7u8) by (bit_vector);
            b = b | 1;
        }
        b
    }

    /// Parse a three-character permission string such as `"r-x"` or `"rwx"`.
    pub fn from_perm_string(s: &str) -> (r: Result<Self, PermError>)
        ensures
            r == spec_parse_perms(vstd::utf8::encode_utf8(s@)),
    {
        let bytes = s.as_bytes();
        if bytes.len() != 3 {
            return Err(PermError::WrongLength);
        }
        let read = match parse_bit(bytes[0], 0x72) {
            Ok(b) => b,
            Err(e) => {
                return Err(e);
            },
        };
        let write = match parse_bit(bytes[1], 0x77) {
            Ok(b) => b,
            Err(e) => {
                return Err(e);
            },
        };
        // Accept 'x' as well as 's' / 't' (setuid/sticky exec) as the execute bit.
        let c = bytes[2];
        let execute = if c == 0x78 || c == 0x73 || c == 0x74 {
            true
        } else if c == 0x2d {
            false
        } else {
            return Err(PermError::InvalidChar(c));
        };
        Ok(Self { read, write, execute })
    }

    /// Bitwise OR of two permission sets.
    pub fn union(self, other: Self) -> (r: Self)
        ensures
            r == perm_or(self, other),
    {
        Self {
            read: self.read || other.read,
            write: self.write || other.write,
            execute: self.execute || other.execute,
        }
    }

    /// Bitwise AND of two permission sets.
    pub fn intersect(self, other: Self) -> (r: Self)
        ensures
            r == perm_and(self, other),
    {
        Self {
            read: self.read && other.read,
            write: self.write && other.write,
            execute: self.execute && other.execute,
        }
    }

    /// Flip a single bit, used by the permission checkboxes.
    pub fn toggle(&mut self, bit: PermBit)
        ensures
            *final(self) == toggled(*old(self), bit),
    {
        match bit {
            PermBit::Read => self.read = !self.read,
            PermBit::Write => self.write = !self.write,
            PermBit::Execute => self.execute = !self.execute,
        }
    }

    pub fn is_none(self) -> (r: bool)
        ensures
            r == (!self.read && !self.write && !self.execute),
    {
        !self.read && !self.write && !self.execute
    }

    pub fn is_all(self) -> (r: bool)
        ensures
            r == (self.read && self.write && self.execute),
    {
        self.read && self.write && self.execute
    }

    /// `true` when `self` grants a strict superset of `other`: every bit of
    /// `other`, and something more.
    pub fn covers(self, other: Self) -> (r: bool)
        ensures
            r == (perm_and(self, other) == other && self != other),
    {
        let i = self.intersect(other);
        i == other && self != other
    }

    /// The `rwx` text, e.g. `r-x`; the form `getfacl` prints.
    pub fn to_string(&self) -> (r: String)
        ensures
            r@ == perm_chars(*self),
    {
        let mut s = String::new();
        let all = PermBit::all();
        let mut i: usize = 0;
        while i < 3
            invariant
                i <= 3,
                all@ == seq![PermBit::Read, PermBit::Write, PermBit::Execute],
                s@ == perm_chars(*self).take(i as int),
            decreases 3 - i,
        {
            let bit = all[i];
            push_char(&mut s, if bit.get(*self) { bit.on_char() } else { '-' });
            i = i + 1;
            assert(s@ =~= perm_chars(*self).take(i as int));
        }
        assert(perm_chars(*self).take(3) =~= perm_chars(*self));
        s
    }
}

impl Default for Permissions {
    fn default() -> (r: Self)
        ensures
            r == (Permissions { read: false, write: false, execute: false }),
    {
        Permissions { read: false, write: false, execute: false }
    }
}

/// The numeric value of a permission set stands for the same set, and each
/// value from 0 to 7 is the value of the set it stands for.
pub proof fn lemma_bits_round_trip(p: Permissions, b: u8)
    ensures
        from_bits_view(perm_value(p)) == p,
        b < 8 ==> perm_value(from_bits_view(b)) == b,
{
    let r = p.read;
    let w = p.write;
    let x = p.execute;
    let v = perm_value(p);
    assert(v == ((if r { 4u8 } else { 0u8 }) + (if w { 2u8 } else { 0u8 }) + (if x { 1u8 } else { 0u8 })) as u8);
    assert({
        let v = ((if r { 4u8 } else { 0u8 }) + (if w { 2u8 } else { 0u8 }) + (if x { 1u8 } else { 0u8 })) as u8;
        (v & 4 != 0) == r && (v & 2 != 0) == w && (v & 1 != 0) == x
    }) by (bit_vector);
    assert(b < 8 ==> ((if b & 4 != 0 { 4u8 } else { 0u8 }) + (if b & 2 != 0 { 2u8 } else { 0u8 }) + (if b & 1
        != 0 { 1u8 } else { 0u8 })) as u8 == b) by (bit_vector);
}

/// Flipping a bit twice gives the set back, and flipping one bit leaves the
/// other two alone.
pub proof fn lemma_toggle_involution(p: Permissions, bit: PermBit)
    ensures
        toggled(toggled(p, bit), bit) == p,
        toggled(p, bit) != p,
        forall|other: PermBit| other != bit ==> other.spec_get(toggled(p, bit)) == other.spec_get(p),
{
}

/// The union grants what either set grants and the intersection what both
/// grant; a set grants all of another exactly when intersecting them gives
/// the other back, and covers it (a strict superset) when it also grants
/// something the other does not.
pub proof fn lemma_union_intersect(a: Permissions, b: Permissions)
    ensures
        grants_all(perm_or(a, b), a),
        grants_all(perm_or(a, b), b),
        grants_all(a, perm_and(a, b)),
        grants_all(b, perm_and(a, b)),
        grants_all(a, b) <==> perm_and(a, b) == b,
        (perm_and(a, b) == b && a != b) <==> (grants_all(a, b) && !grants_all(b, a)),
        perm_or(a, b) == perm_or(b, a),
        perm_and(a, b) == perm_and(b, a),
{
}

/// Reading the text of a permission set gives the same set back.
pub proof fn lemma_perm_text_round_trip(p: Permissions)
    ensures
        vstd::utf8::encode_utf8(perm_chars(p)) == seq![
            (if p.read { 0x72u8 } else { 0x2du8 }),
            (if p.write { 0x77u8 } else { 0x2du8 }),
            (if p.execute { 0x78u8 } else { 0x2du8 }),
        ],
        spec_parse_perms(vstd::utf8::encode_utf8(perm_chars(p))) == Ok::<Permissions, PermError>(p),
{
    let c = perm_chars(p);
    assert(vstd::utf8::is_ascii_chars(c));
    vstd::utf8::is_ascii_chars_encode_utf8(c);
    let b = seq![
        (if p.read { 0x72u8 } else { 0x2du8 }),
        (if p.write { 0x77u8 } else { 0x2du8 }),
        (if p.execute { 0x78u8 } else { 0x2du8 }),
    ];
    assert(vstd::utf8::encode_utf8(c)[0] == c[0] as u8);
    assert(vstd::utf8::encode_utf8(c)[1] == c[1] as u8);
    assert(vstd::utf8::encode_utf8(c)[2] == c[2] as u8);
    assert(vstd::utf8::encode_utf8(c) =~= b);
}

} // verus!
