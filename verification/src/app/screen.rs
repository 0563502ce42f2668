//! What the terminal shows, as geometry and text; drawing it is the
//! terminal layer's part.
use vstd::prelude::*;

use super::keys::filter_label;
use super::{modified, AddDialog, AddView, App, AppView, ConfirmDialog, ConfirmView, ListFilter};
use crate::backend::ownership::strings_view;
use crate::model::acl::{effective_view, mask_view};
use crate::model::entry::{identity_chars, EntryView};
use crate::model::permissions::perm_chars;
use crate::model::{AclEntry, EntryKind, Scope};
use crate::text::{push_char, push_str, string_of};

verus! {

/// The largest panel drawn; a larger terminal keeps the panel at this size
/// in its top-left corner.
pub const MAX_WIDTH: u16 = 120;
pub const MAX_HEIGHT: u16 = 40;
/// Below this size a notice is shown instead of the editor.
pub const MIN_WIDTH: u16 = 72;
pub const MIN_HEIGHT: u16 = 22;

/// The smaller of two sizes.
pub open spec fn min_u16(a: u16, b: u16) -> u16 {
    if a < b {
        a
    } else {
        b
    }
}

/// The terminal area `(x, y, width, height)` clamped to the largest panel, anchored to its top-left
/// corner.
pub fn restrict(x: u16, y: u16, width: u16, height: u16) -> (r: (u16, u16, u16, u16))
    ensures
        r == (x, y, min_u16(width, MAX_WIDTH), min_u16(height, MAX_HEIGHT)),
{
    let w = if width < MAX_WIDTH {
        width
    } else {
        MAX_WIDTH
    };
    let h = if height < MAX_HEIGHT {
        height
    } else {
        MAX_HEIGHT
    };
    (x, y, w, h)
}

/// A `width` by `height` rectangle (clamped to the area) centred in the area
/// `(x, y, aw, ah)`.
pub fn centered(x: u16, y: u16, aw: u16, ah: u16, width: u16, height: u16) -> (r: (u16, u16, u16, u16))
    requires
        x + (aw - min_u16(width, aw)) / 2 <= u16::MAX,
        y + (ah - min_u16(height, ah)) / 2 <= u16::MAX,
    ensures
        r.2 == min_u16(width, aw),
        r.3 == min_u16(height, ah),
        r.0 == x + (aw - r.2) / 2,
        r.1 == y + (ah - r.3) / 2,
{
    let w = if width < aw {
        width
    } else {
        aw
    };
    let h = if height < ah {
        height
    } else {
        ah
    };
    (x + (aw - w) / 2, y + (ah - h) / 2, w, h)
}

/// Whether the terminal is too small for the editor.
pub fn too_small(width: u16, height: u16) -> (r: bool)
    ensures
        r == (width < MIN_WIDTH || height < MIN_HEIGHT),
{
    width < MIN_WIDTH || height < MIN_HEIGHT
}

/// The decimal digit of `d`.
pub open spec fn digit(d: nat) -> char {
    if d == 0 {
        '0'
    } else if d == 1 {
        '1'
    } else if d == 2 {
        '2'
    } else if d == 3 {
        '3'
    } else if d == 4 {
        '4'
    } else if d == 5 {
        '5'
    } else if d == 6 {
        '6'
    } else if d == 7 {
        '7'
    } else if d == 8 {
        '8'
    } else {
        '9'
    }
}

/// The decimal text of `n`, without leading zeros.
pub open spec fn decimal(n: nat) -> Seq<char>
    decreases n,
{
    if n < 10 {
        seq![digit(n)]
    } else {
        decimal(n / 10).push(digit(n % 10))
    }
}

/// Appends the decimal text of `n`.
pub fn push_decimal(s: &mut String, n: u16)
    ensures
        final(s)@ == old(s)@ + decimal(n as nat),
    decreases n,
{
    if n >= 10 {
        push_decimal(s, n / 10);
    }
    let d = n % 10;
    let c = if d == 0 {
        '0'
    } else if d == 1 {
        '1'
    } else if d == 2 {
        '2'
    } else if d == 3 {
        '3'
    } else if d == 4 {
        '4'
    } else if d == 5 {
        '5'
    } else if d == 6 {
        '6'
    } else if d == 7 {
        '7'
    } else if d == 8 {
        '8'
    } else {
        '9'
    };
    push_char(s, c);
    assert(s@ =~= old(s)@ + decimal(n as nat));
}

/// The notice shown on a terminal that is too small.
pub open spec fn too_small_text(width: u16, height: u16) -> Seq<char> {
    "Terminal too small: need at least "@ + decimal(MIN_WIDTH as nat) + "x"@ + decimal(MIN_HEIGHT as nat)
        + ", have "@ + decimal(width as nat) + "x"@ + decimal(height as nat) + ". Enlarge the terminal."@
}

/// The notice shown on a terminal that is too small: the minimum and the
/// actual size.
pub fn too_small_message(width: u16, height: u16) -> (r: String)
    ensures
        r@ == too_small_text(width, height),
{
    let mut s = string_of("Terminal too small: need at least ");
    push_decimal(&mut s, MIN_WIDTH);
    push_str(&mut s, "x");
    push_decimal(&mut s, MIN_HEIGHT);
    push_str(&mut s, ", have ");
    push_decimal(&mut s, width);
    push_str(&mut s, "x");
    push_decimal(&mut s, height);
    push_str(&mut s, ". Enlarge the terminal.");
    s
}

/// The title of the entry list, naming the filter.
pub fn list_title(filter: ListFilter) -> (r: String)
    ensures
        r@ == "ACL entries ["@ + filter_label(filter) + "]"@,
{
    let mut s = string_of("ACL entries [");
    push_str(
        &mut s,
        match filter {
            ListFilter::All => "All",
            ListFilter::Access => "Access",
            ListFilter::Default => "Default",
        },
    );
    push_str(&mut s, "]");
    s
}

/// A checkbox: `[x]` or `[ ]` and the label, padded by a space each side.
pub open spec fn checkbox_text(on: bool, label: Seq<char>) -> Seq<char> {
    " "@ + (if on {
        "[x]"@
    } else {
        "[ ]"@
    }) + " "@ + label + " "@
}

pub fn checkbox(on: bool, label: &str) -> (r: String)
    ensures
        r@ == checkbox_text(on, label@),
{
    let mut s = string_of(" ");
    push_str(&mut s, if on {
        "[x]"
    } else {
        "[ ]"
    });
    push_str(&mut s, " ");
    push_str(&mut s, label);
    push_str(&mut s, " ");
    s
}

/// A radio button: `(*)` or `( )`, the label and two spaces.
pub open spec fn radio_text(on: bool, label: Seq<char>) -> Seq<char> {
    (if on {
        "(*)"@
    } else {
        "( )"@
    }) + " "@ + label + "  "@
}

pub fn radio(on: bool, label: &str) -> (r: String)
    ensures
        r@ == radio_text(on, label@),
{
    let mut s = string_of(if on {
        "(*)"
    } else {
        "( )"
    });
    push_str(&mut s, " ");
    push_str(&mut s, label);
    push_str(&mut s, "  ");
    s
}

/// A text field: its label and the value in brackets.
pub fn text_field(label: &str, value: &str) -> (r: String)
    ensures
        r@ == label@ + ": ["@ + value@ + "]"@,
{
    let mut s = string_of(label);
    push_str(&mut s, ": [");
    push_str(&mut s, value);
    push_str(&mut s, "]");
    s
}

/// A line of a confirmation: the cursor mark, the key and the label.
pub fn choice_line(active: bool, key: char, label: &str) -> (r: String)
    ensures
        r@ == (if active {
            "> "@
        } else {
            "  "@
        }) + "("@ + seq![key] + ") "@ + label@,
{
    let mut s = string_of(if active {
        "> "
    } else {
        "  "
    });
    push_str(&mut s, "(");
    push_char(&mut s, key);
    push_str(&mut s, ") ");
    push_str(&mut s, label);
    s
}

/// The identity shown for an entry: the object's owner or owning group for
/// the base entries, the entry's identity otherwise.
pub open spec fn shown_identity(v: AppView, e: EntryView) -> Seq<char> {
    if e.kind == EntryKind::Owner {
        v.owner
    } else if e.kind == EntryKind::OwningGroup {
        v.group
    } else {
        identity_chars(e)
    }
}

/// What the detail pane says of the effective permission, with the mask
/// when it caps the entry.
pub open spec fn effective_text(v: AppView, e: EntryView) -> Seq<char> {
    let eff = effective_view(v.working, e);
    "Effective after mask: "@ + perm_chars(eff) + if eff != e.permissions && mask_view(v.working, e.scope) is Some {
        "  (mask::"@ + perm_chars(mask_view(v.working, e.scope)->0) + ")"@
    } else {
        Seq::empty()
    }
}

impl App {
    /// The identity column of an entry.
    pub fn shown_identity(&self, e: &AclEntry) -> (r: String)
        ensures
            r@ == shown_identity(self@, e@),
    {
        match e.kind {
            EntryKind::Owner => self.owner.clone(),
            EntryKind::OwningGroup => self.group.clone(),
            _ => match &e.identity {
                Some(s) => s.clone(),
                None => String::new(),
            },
        }
    }

    /// The label of the identity field of the detail pane.
    pub fn identity_label(e: &AclEntry) -> (r: &'static str)
        ensures
            r@ == (if e.kind == EntryKind::Owner {
                "Owner"@
            } else if e.kind == EntryKind::OwningGroup {
                "Owning group"@
            } else {
                "Identity"@
            }),
    {
        match e.kind {
            EntryKind::Owner => "Owner",
            EntryKind::OwningGroup => "Owning group",
            _ => "Identity",
        }
    }

    /// The effective-permission line of the detail pane.
    pub fn effective_line(&self, e: &AclEntry) -> (r: String)
        ensures
            r@ == effective_text(self@, e@),
    {
        let effective = self.working.effective(e);
        let mut line = string_of("Effective after mask: ");
        let t = effective.to_string();
        push_str(&mut line, t.as_str());
        let ghost base = line@;
        if !(effective == e.permissions) {
            if let Some(mask) = self.working.mask(e.scope) {
                push_str(&mut line, "  (mask::");
                let m = mask.to_string();
                push_str(&mut line, m.as_str());
                push_str(&mut line, ")");
            }
        }
        assert(line@ =~= effective_text(self@, e@));
        line
    }
}

/// The recursive mark of the header: only a directory has one.
pub open spec fn recursive_mark_text(v: AppView) -> Option<Seq<char>> {
    if v.object.is_directory {
        Some("   "@ + (if v.recursive {
            "[x]"@
        } else {
            "[ ]"@
        }) + " recursive (t)"@)
    } else {
        None
    }
}

/// The scope radios of the add dialog: `Default` only where the object can
/// have a default ACL.
pub open spec fn scope_radios_text(d: AddView) -> Seq<Seq<char>> {
    seq![radio_text(d.scope == Scope::Access, "Access"@)] + if d.can_default {
        seq![radio_text(d.scope == Scope::Default, "Default"@)]
    } else {
        Seq::empty()
    }
}

/// The lines of a confirmation's choices, the one under the cursor marked.
pub open spec fn choice_lines_text(c: ConfirmView) -> Seq<Seq<char>> {
    Seq::new(
        c.choices.len(),
        |i: int|
            (if i == c.cursor {
                "> "@
            } else {
                "  "@
            }) + "("@ + seq![c.choices[i].key] + ") "@ + c.choices[i].label,
    )
}

impl App {
    /// The marks after the title: whether changes are pending, and whether
    /// the editor is read-only.
    pub fn title_marks(&self) -> (r: (bool, bool))
        ensures
            r == (modified(self@), self.read_only),
    {
        (self.is_modified(), self.read_only)
    }

    /// The recursive mark of the header.
    pub fn recursive_mark(&self) -> (r: Option<String>)
        ensures
            match recursive_mark_text(self@) {
                Some(t) => r is Some && r->0@ == t,
                None => r is None,
            },
    {
        if self.object.is_directory {
            let mut m = string_of("   ");
            push_str(&mut m, if self.recursive {
                "[x]"
            } else {
                "[ ]"
            });
            push_str(&mut m, " recursive (t)");
            Some(m)
        } else {
            None
        }
    }
}

/// The scope radios of the add dialog.
pub fn scope_radios(d: &AddDialog) -> (r: Vec<String>)
    ensures
        strings_view(r@) == scope_radios_text(d@),
{
    let mut v: Vec<String> = Vec::new();
    v.push(radio(d.scope == Scope::Access, "Access"));
    if d.can_default {
        v.push(radio(d.scope == Scope::Default, "Default"));
    }
    assert(strings_view(v@) =~= scope_radios_text(d@));
    v
}

/// Whether field `field` of the add dialog is under the cursor (0 scope,
/// 1 kind, 2 name, 3 to 5 the permission bits).
pub fn add_field_active(d: &AddDialog, field: usize) -> (r: bool)
    ensures
        r == (d.cursor == field),
{
    d.cursor == field
}

/// The lines of a confirmation's choices.
pub fn choice_lines(c: &ConfirmDialog) -> (r: Vec<String>)
    ensures
        strings_view(r@) == choice_lines_text(c@),
{
    let mut v: Vec<String> = Vec::new();
    let mut i: usize = 0;
    while i < c.choices.len()
        invariant
            i <= c.choices@.len(),
            c@.choices.len() == c.choices@.len(),
            strings_view(v@) == choice_lines_text(c@).take(i as int),
        decreases c.choices.len() - i,
    {
        let ch = &c.choices[i];
        assert(c@.choices[i as int] == ch@);
        let line = choice_line(i == c.cursor, ch.key, ch.label.as_str());
        let ghost before = v@;
        v.push(line);
        proof {
            assert(v@ =~= before.push(line));
            assert(strings_view(v@) =~= strings_view(before).push(line@));
            assert(choice_lines_text(c@).take(i + 1) =~= choice_lines_text(c@).take(i as int).push(
                choice_lines_text(c@)[i as int],
            ));
        }
        i = i + 1;
    }
    assert(choice_lines_text(c@).take(i as int) =~= choice_lines_text(c@));
    v
}

} // verus!
