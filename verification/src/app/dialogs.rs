//! How the open dialog reacts to a key.
//!
//! Each step takes the dialog out of the state; it is put back unless the key
//! closed it.
use vstd::prelude::*;

use super::effects::{lemma_perform_wf, perform_spec};
use super::{
    app_wf, Action, ActionView, AddDialog, AddView, App, AppView, ChoiceView, ConfirmDialog,
    ConfirmView, Dialog, DialogView, InputDialog, InputTarget, InputView, Pending, PendingView,
    TargetView,
};
use crate::event::{KeyCode, KeyEvent};
use crate::model::{AclEntry, EntryKind, EntryView, Permissions, Scope};
use crate::text::{chars_of, pop_char, push_char, push_str, string_of, trim, trimmed};

verus! {

/// The state with the add dialog `d` open.
pub open spec fn with_add(v: AppView, d: AddView) -> AppView {
    AppView { dialog: Some(DialogView::Add(d)), ..v }
}

/// The state with the input dialog `d` open.
pub open spec fn with_input(v: AppView, d: InputView) -> AppView {
    AppView { dialog: Some(DialogView::Input(d)), ..v }
}

/// The state with the confirmation `c` open.
pub open spec fn with_confirm(v: AppView, c: ConfirmView) -> AppView {
    AppView { dialog: Some(DialogView::Confirm(c)), ..v }
}

/// `s` without its last character, if it has one.
pub open spec fn popped(s: Seq<char>) -> Seq<char> {
    if s.len() > 0 {
        s.drop_last()
    } else {
        s
    }
}

/// The other scope.
pub open spec fn flipped(s: Scope) -> Scope {
    match s {
        Scope::Access => Scope::Default,
        Scope::Default => Scope::Access,
    }
}

/// Space in the add dialog: the field under the cursor changes (the scope
/// only where the object can have a default ACL; the name field is text).
pub open spec fn toggled_field(d: AddView) -> AddView {
    if d.cursor == 0 {
        if d.can_default {
            AddView { scope: flipped(d.scope), ..d }
        } else {
            d
        }
    } else if d.cursor == 1 {
        AddView { is_user: !d.is_user, ..d }
    } else if d.cursor == 3 {
        AddView { read: !d.read, ..d }
    } else if d.cursor == 4 {
        AddView { write: !d.write, ..d }
    } else if d.cursor == 5 {
        AddView { execute: !d.execute, ..d }
    } else {
        d
    }
}

/// Enter in the add dialog: the dialog closes; with a name, the entry waits
/// for its identity to be looked up.
pub open spec fn submit_add_spec(v: AppView, d: AddView) -> (AppView, ActionView) {
    let name = trim(d.name);
    if name.len() == 0 {
        (v, ActionView::Nothing)
    } else {
        let e = EntryView {
            scope: d.scope,
            kind: if d.is_user {
                EntryKind::NamedUser
            } else {
                EntryKind::NamedGroup
            },
            identity: Some(name),
            permissions: Permissions { read: d.read, write: d.write, execute: d.execute },
        };
        (
            AppView { pending: Some(PendingView::AddEntry(e)), ..v },
            if d.is_user {
                ActionView::LookupUser(name)
            } else {
                ActionView::LookupGroup(name)
            },
        )
    }
}

/// A key other than Esc, Enter and the arrows in the add dialog: the name
/// field takes text, and Space changes any other field under the cursor.
pub open spec fn edited(d: AddView, c: KeyCode) -> AddView {
    if d.cursor == 2 {
        match c {
            KeyCode::Char(ch) => AddView { name: d.name.push(ch), ..d },
            KeyCode::Backspace => AddView { name: popped(d.name), ..d },
            _ => d,
        }
    } else if c == KeyCode::Char(' ') {
        toggled_field(d)
    } else {
        d
    }
}

/// A key in the add dialog `d`; `v` is the state with the dialog taken out.
/// Arrows and Tab walk the six fields and wrap around at both ends, the name
/// field takes text, and Space changes the field under the cursor.
pub open spec fn add_step_spec(v: AppView, d: AddView, key: KeyEvent) -> (AppView, ActionView) {
    let c = key.code;
    let d0 = AddView { error: None, ..d };
    if c == KeyCode::Esc {
        (v, ActionView::Nothing)
    } else if c == KeyCode::Enter {
        submit_add_spec(v, d)
    } else if c == KeyCode::Up || c == KeyCode::Left || c == KeyCode::BackTab {
        (with_add(v, AddView { cursor: ((d.cursor + 5) % 6) as usize, ..d0 }), ActionView::Nothing)
    } else if c == KeyCode::Down || c == KeyCode::Right || c == KeyCode::Tab {
        (with_add(v, AddView { cursor: ((d.cursor + 1) % 6) as usize, ..d0 }), ActionView::Nothing)
    } else {
        (with_add(v, edited(d0, c)), ActionView::Nothing)
    }
}

/// A key in the input dialog `d`; `v` is the state with the dialog taken out.
/// Enter asks for the trimmed value to be looked up, keeping the dialog open
/// until the answer comes.
pub open spec fn input_step_spec(v: AppView, d: InputView, key: KeyEvent) -> (AppView, ActionView) {
    let c = key.code;
    if c == KeyCode::Esc {
        (v, ActionView::Nothing)
    } else if c == KeyCode::Enter {
        let value = trim(d.value);
        let waiting = AppView { pending: Some(PendingView::Input), ..with_input(v, d) };
        if value.len() == 0 {
            (with_input(v, InputView { error: Some("value is required"@), ..d }), ActionView::Nothing)
        } else {
            match d.target {
                TargetView::Owner => (waiting, ActionView::LookupUser(value)),
                TargetView::Group => (waiting, ActionView::LookupGroup(value)),
                TargetView::Identity(_, kind, _) => if kind == EntryKind::NamedUser {
                    (waiting, ActionView::LookupUser(value))
                } else if kind == EntryKind::NamedGroup {
                    (waiting, ActionView::LookupGroup(value))
                } else {
                    (
                        with_input(v, InputView { error: Some("'"@ + value + "' not found"@), ..d }),
                        ActionView::Nothing,
                    )
                },
            }
        }
    } else if c == KeyCode::Backspace {
        (with_input(v, InputView { value: popped(d.value), error: None, ..d }), ActionView::Nothing)
    } else {
        match c {
            KeyCode::Char(ch) => (
                with_input(v, InputView { value: d.value.push(ch), error: None, ..d }),
                ActionView::Nothing,
            ),
            _ => (with_input(v, d), ActionView::Nothing),
        }
    }
}

/// The index of the first choice bound to `k`.
pub open spec fn first_choice(cs: Seq<ChoiceView>, k: char) -> Option<int>
    decreases cs.len(),
{
    if cs.len() == 0 {
        None
    } else if cs[0].key == k {
        Some(0)
    } else {
        match first_choice(cs.drop_first(), k) {
            Some(i) => Some(i + 1),
            None => None,
        }
    }
}

pub proof fn lemma_first_choice(cs: Seq<ChoiceView>, k: char)
    ensures
        match first_choice(cs, k) {
            Some(i) => 0 <= i < cs.len() && cs[i].key == k && forall|j: int| 0 <= j < i ==> (#[trigger] cs[j]).key != k,
            None => forall|j: int| 0 <= j < cs.len() ==> (#[trigger] cs[j]).key != k,
        },
    decreases cs.len(),
{
    if cs.len() > 0 {
        lemma_first_choice(cs.drop_first(), k);
        assert forall|j: int| 0 < j < cs.len() implies cs[j] == cs.drop_first()[j - 1] by {}
    }
}

/// A key in the confirmation `c`; `v` is the state with the dialog taken
/// out. Up and Down move the cursor round the choices; Enter, or the key of
/// a choice, carries it out and closes the dialog.
pub open spec fn confirm_step_spec(v: AppView, c: ConfirmView, key: KeyEvent) -> (AppView, ActionView) {
    let n = c.choices.len();
    if n == 0 || key.code == KeyCode::Esc {
        (v, ActionView::Nothing)
    } else if key.code == KeyCode::Up {
        (with_confirm(v, ConfirmView { cursor: ((c.cursor + n - 1) % (n as int)) as usize, ..c }), ActionView::Nothing)
    } else if key.code == KeyCode::Down {
        (with_confirm(v, ConfirmView { cursor: ((c.cursor + 1) % (n as int)) as usize, ..c }), ActionView::Nothing)
    } else if key.code == KeyCode::Enter {
        perform_spec(v, c.choices[c.cursor as int].action)
    } else {
        match key.code {
            KeyCode::Char(k) => match first_choice(c.choices, k) {
                Some(i) => perform_spec(v, c.choices[i].action),
                None => (with_confirm(v, c), ActionView::Nothing),
            },
            _ => (with_confirm(v, c), ActionView::Nothing),
        }
    }
}

pub proof fn lemma_add_step_wf(v: AppView, d: AddView, key: KeyEvent)
    requires
        app_wf(v),
    ensures
        app_wf(add_step_spec(v, d, key).0),
{
}

pub proof fn lemma_input_step_wf(v: AppView, d: InputView, key: KeyEvent)
    requires
        app_wf(v),
    ensures
        app_wf(input_step_spec(v, d, key).0),
{
}

pub proof fn lemma_confirm_step_wf(v: AppView, c: ConfirmView, key: KeyEvent)
    requires
        app_wf(v),
        c.choices.len() == 0 || c.cursor < c.choices.len(),
    ensures
        app_wf(confirm_step_spec(v, c, key).0),
{
    let n = c.choices.len();
    if n > 0 {
        assert(0 <= (c.cursor + n - 1) % (n as int) < n);
        assert(0 <= (c.cursor + 1) % (n as int) < n);
        if key.code == KeyCode::Enter {
            lemma_perform_wf(v, c.choices[c.cursor as int].action);
        } else {
            match key.code {
                KeyCode::Char(k) => {
                    lemma_first_choice(c.choices, k);
                    match first_choice(c.choices, k) {
                        Some(i) => lemma_perform_wf(v, c.choices[i].action),
                        None => {},
                    }
                },
                _ => {},
            }
        }
    }
}

impl App {
    /// Enter in the add dialog.
    pub fn submit_add(&mut self, ad: AddDialog) -> (r: Action)
        ensures
            (final(self)@, r@) == submit_add_spec(old(self)@, ad@),
    {
        let name = trimmed(ad.name.as_str());
        let chars = chars_of(name.as_str());
        if chars.len() == 0 {
            return Action::Nothing;
        }
        let kind = if ad.is_user {
            EntryKind::NamedUser
        } else {
            EntryKind::NamedGroup
        };
        let entry = AclEntry::new(
            ad.scope,
            kind,
            Some(name.clone()),
            Permissions::new(ad.read, ad.write, ad.execute),
        );
        self.pending = Some(Pending::AddEntry(entry));
        if ad.is_user {
            Action::LookupUser(name)
        } else {
            Action::LookupGroup(name)
        }
    }

    /// Step the add dialog.
    pub fn step_add(&mut self, ad: AddDialog, key: KeyEvent) -> (r: Action)
        ensures
            (final(self)@, r@) == add_step_spec(old(self)@, ad@, key),
    {
        // The field list: Scope, Type, Name, Read, Write, Execute.
        let mut ad = ad;
        if key.code == KeyCode::Esc {
            return Action::Nothing;
        }
        if key.code == KeyCode::Enter {
            return self.submit_add(ad);
        }
        ad.error = None;
        let k = ad.cursor % 6;
        proof {
            vstd::arithmetic::div_mod::lemma_add_mod_noop(ad.cursor as int, 5, 6);
            vstd::arithmetic::div_mod::lemma_add_mod_noop(ad.cursor as int, 1, 6);
        }
        // Navigation: arrows and Tab walk the field list and wrap around at
        // both ends. Space is the only key that changes a value.
        match key.code {
            KeyCode::Up | KeyCode::Left | KeyCode::BackTab => {
                ad.cursor = (k + 5) % 6;
                self.dialog = Some(Dialog::Add(ad));
                return Action::Nothing;
            },
            KeyCode::Down | KeyCode::Right | KeyCode::Tab => {
                ad.cursor = (k + 1) % 6;
                self.dialog = Some(Dialog::Add(ad));
                return Action::Nothing;
            },
            _ => {},
        }
        App::edit_add(&mut ad, key.code);
        self.dialog = Some(Dialog::Add(ad));
        Action::Nothing
    }

    /// A key other than Esc, Enter and the arrows in the add dialog.
    pub fn edit_add(ad: &mut AddDialog, c: KeyCode)
        ensures
            final(ad)@ == edited(old(ad)@, c),
    {
        // The Name field is free text; type into it directly.
        if ad.cursor == 2 {
            match c {
                KeyCode::Char(ch) => push_char(&mut ad.name, ch),
                KeyCode::Backspace => pop_char(&mut ad.name),
                _ => {},
            }
            return;
        }
        // Space toggles the field under the cursor.
        if c == KeyCode::Char(' ') {
            if ad.cursor == 0 {
                if ad.can_default {
                    ad.scope = match ad.scope {
                        Scope::Access => Scope::Default,
                        Scope::Default => Scope::Access,
                    };
                }
            } else if ad.cursor == 1 {
                ad.is_user = !ad.is_user;
            } else if ad.cursor == 3 {
                ad.read = !ad.read;
            } else if ad.cursor == 4 {
                ad.write = !ad.write;
            } else if ad.cursor == 5 {
                ad.execute = !ad.execute;
            }
        }
    }

    /// Step the input dialog.
    pub fn step_input(&mut self, id: InputDialog, key: KeyEvent) -> (r: Action)
        ensures
            (final(self)@, r@) == input_step_spec(old(self)@, id@, key),
    {
        let mut id = id;
        match key.code {
            KeyCode::Esc => Action::Nothing,
            KeyCode::Enter => {
                let value = trimmed(id.value.as_str());
                let chars = chars_of(value.as_str());
                if chars.len() == 0 {
                    id.error = Some(string_of("value is required"));
                    self.dialog = Some(Dialog::Input(id));
                    return Action::Nothing;
                }
                let user = match &id.target {
                    InputTarget::Owner => Some(true),
                    InputTarget::Group => Some(false),
                    InputTarget::Identity(_, kind, _) => match kind {
                        EntryKind::NamedUser => Some(true),
                        EntryKind::NamedGroup => Some(false),
                        _ => None,
                    },
                };
                match user {
                    Some(u) => {
                        self.dialog = Some(Dialog::Input(id));
                        self.pending = Some(Pending::Input);
                        if u {
                            Action::LookupUser(value)
                        } else {
                            Action::LookupGroup(value)
                        }
                    },
                    None => {
                        let mut m = string_of("'");
                        push_str(&mut m, value.as_str());
                        push_str(&mut m, "' not found");
                        id.error = Some(m);
                        self.dialog = Some(Dialog::Input(id));
                        Action::Nothing
                    },
                }
            },
            KeyCode::Backspace => {
                pop_char(&mut id.value);
                id.error = None;
                self.dialog = Some(Dialog::Input(id));
                Action::Nothing
            },
            KeyCode::Char(c) => {
                push_char(&mut id.value, c);
                id.error = None;
                self.dialog = Some(Dialog::Input(id));
                Action::Nothing
            },
            _ => {
                self.dialog = Some(Dialog::Input(id));
                Action::Nothing
            },
        }
    }

    /// The index of the first choice bound to `k`.
    pub fn choice_for(cd: &ConfirmDialog, k: char) -> (r: Option<usize>)
        ensures
            match r {
                Some(i) => first_choice(cd@.choices, k) == Some(i as int) && i < cd.choices@.len(),
                None => first_choice(cd@.choices, k) is None,
            },
    {
        let ghost cs = cd@.choices;
        proof {
            lemma_first_choice(cs, k);
        }
        let mut i: usize = 0;
        while i < cd.choices.len()
            invariant
                i <= cd.choices@.len(),
                cs == cd@.choices,
                cs.len() == cd.choices@.len(),
                forall|j: int| 0 <= j < cs.len() ==> (#[trigger] cs[j]) == cd.choices@[j]@,
                forall|j: int| 0 <= j < i ==> (#[trigger] cs[j]).key != k,
                match first_choice(cs, k) {
                    Some(f) => 0 <= f < cs.len() && cs[f].key == k && forall|j: int| 0 <= j < f ==> (#[trigger] cs[j]).key != k,
                    None => forall|j: int| 0 <= j < cs.len() ==> (#[trigger] cs[j]).key != k,
                },
            decreases cd.choices.len() - i,
        {
            if cd.choices[i].key == k {
                proof {
                    assert(cs[i as int].key == k);
                    match first_choice(cs, k) {
                        Some(f) => {
                            if f > i {
                                assert(cs[i as int].key != k);
                            }
                        },
                        None => {},
                    }
                }
                return Some(i);
            }
            assert(cs[i as int].key != k);
            i = i + 1;
        }
        None
    }

    /// Step the confirmation dialog.
    pub fn step_confirm(&mut self, cd: ConfirmDialog, key: KeyEvent) -> (r: Action)
        requires
            cd.choices@.len() == 0 || cd.cursor < cd.choices@.len(),
        ensures
            (final(self)@, r@) == confirm_step_spec(old(self)@, cd@, key),
    {
        let mut cd = cd;
        let n = cd.choices.len();
        if n == 0 {
            return Action::Nothing;
        }
        match key.code {
            KeyCode::Esc => {
                assert(confirm_step_spec(old(self)@, cd@, key) == (old(self)@, ActionView::Nothing));
                Action::Nothing
            },
            KeyCode::Up => {
                proof {
                    if cd.cursor == 0 {
                        vstd::arithmetic::div_mod::lemma_small_mod((n - 1) as nat, n as nat);
                    } else {
                        vstd::arithmetic::div_mod::lemma_add_mod_noop(cd.cursor - 1, n as int, n as int);
                        vstd::arithmetic::div_mod::lemma_small_mod((cd.cursor - 1) as nat, n as nat);
                        vstd::arithmetic::div_mod::lemma_small_mod(0, n as nat);
                    }
                }
                cd.cursor = if cd.cursor == 0 {
                    n - 1
                } else {
                    cd.cursor - 1
                };
                self.dialog = Some(Dialog::Confirm(cd));
                Action::Nothing
            },
            KeyCode::Down => {
                proof {
                    if cd.cursor + 1 < n {
                        vstd::arithmetic::div_mod::lemma_small_mod((cd.cursor + 1) as nat, n as nat);
                    }
                }
                cd.cursor = if cd.cursor + 1 < n {
                    cd.cursor + 1
                } else {
                    0
                };
                self.dialog = Some(Dialog::Confirm(cd));
                Action::Nothing
            },
            KeyCode::Enter => {
                let action = cd.choices[cd.cursor].action;
                self.perform_confirm(action)
            },
            KeyCode::Char(c) => {
                match App::choice_for(&cd, c) {
                    Some(i) => {
                        let action = cd.choices[i].action;
                        self.perform_confirm(action)
                    },
                    None => {
                        self.dialog = Some(Dialog::Confirm(cd));
                        Action::Nothing
                    },
                }
            },
            _ => {
                self.dialog = Some(Dialog::Confirm(cd));
                Action::Nothing
            },
        }
    }
}

} // verus!
