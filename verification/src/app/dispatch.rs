//! Which action each key triggers on each screen.
use vstd::prelude::*;

use super::dialogs::{
    add_step_spec, confirm_step_spec, input_step_spec, lemma_add_step_wf, lemma_confirm_step_wf,
    lemma_input_step_wf,
};
use super::effects::{quit_or_confirm_spec, reload_or_confirm_spec, try_save_spec};
use super::keys::{
    confirm_delete_spec, cycle_filter_spec, edit_identity_spec, jump_to_mask_spec, open_add_spec,
    open_group_input_spec, open_owner_input_spec, toggle_perm_spec, toggle_recursive_spec,
};
use super::{
    app_wf, selected_by, Action, ActionView, App, AppView, Dialog, DialogView, Focus, Screen,
};
use crate::event::{AppEvent, KeyCode, KeyEvent};

verus! {

/// A key on the editor screen.
pub open spec fn editor_key_spec(v: AppView, key: KeyEvent) -> (AppView, ActionView) {
    let c = key.code;
    let none = ActionView::Nothing;
    if c == KeyCode::Char('q') {
        (quit_or_confirm_spec(v), none)
    } else if c == KeyCode::Char('?') {
        (AppView { screen: Screen::Help, ..v }, none)
    } else if c == KeyCode::Char('j') || c == KeyCode::Down {
        (selected_by(v, 1), none)
    } else if c == KeyCode::Char('k') || c == KeyCode::Up {
        (selected_by(v, -1), none)
    } else if c == KeyCode::Left {
        (AppView { perm_cursor: if v.perm_cursor > 0 { (v.perm_cursor - 1) as usize } else { 0 }, ..v }, none)
    } else if c == KeyCode::Right {
        (if v.perm_cursor < 2 { AppView { perm_cursor: (v.perm_cursor + 1) as usize, ..v } } else { v }, none)
    } else if c == KeyCode::Char(' ') {
        (toggle_perm_spec(v), none)
    } else if c == KeyCode::Tab {
        (AppView { focus: Focus::Editor, ..v }, none)
    } else if c == KeyCode::BackTab {
        (AppView { focus: Focus::List, ..v }, none)
    } else if c == KeyCode::Char('f') {
        (cycle_filter_spec(v), none)
    } else if c == KeyCode::Char('e') {
        (edit_identity_spec(v), none)
    } else if c == KeyCode::Char('a') {
        (open_add_spec(v), none)
    } else if c == KeyCode::Char('d') {
        (confirm_delete_spec(v), none)
    } else if c == KeyCode::Char('o') {
        (open_owner_input_spec(v), none)
    } else if c == KeyCode::Char('g') {
        (open_group_input_spec(v), none)
    } else if c == KeyCode::Char('m') {
        (jump_to_mask_spec(v), none)
    } else if c == KeyCode::Char('t') {
        (toggle_recursive_spec(v), none)
    } else if c == KeyCode::Char('p') {
        (AppView { screen: Screen::Preview, ..v }, none)
    } else if c == KeyCode::Char('S') {
        try_save_spec(v)
    } else if c == KeyCode::Char('R') {
        reload_or_confirm_spec(v)
    } else {
        (v, none)
    }
}

/// A key on the preview screen: back to the editor, or save from there.
pub open spec fn preview_key_spec(v: AppView, key: KeyEvent) -> (AppView, ActionView) {
    let c = key.code;
    if c == KeyCode::Esc || c == KeyCode::Char('q') || c == KeyCode::Char('p') {
        (AppView { screen: Screen::Editor, ..v }, ActionView::Nothing)
    } else if c == KeyCode::Enter {
        try_save_spec(AppView { screen: Screen::Editor, ..v })
    } else {
        (v, ActionView::Nothing)
    }
}

/// A key on the help screen: back to the editor.
pub open spec fn help_key_spec(v: AppView, key: KeyEvent) -> AppView {
    let c = key.code;
    if c == KeyCode::Esc || c == KeyCode::Char('q') || c == KeyCode::Char('?') {
        AppView { screen: Screen::Editor, ..v }
    } else {
        v
    }
}

/// A key: the open dialog takes it, otherwise the current screen.
pub open spec fn key_spec(v: AppView, key: KeyEvent) -> (AppView, ActionView) {
    let closed = AppView { dialog: None, ..v };
    match v.dialog {
        Some(DialogView::Add(d)) => add_step_spec(closed, d, key),
        Some(DialogView::Input(d)) => input_step_spec(closed, d, key),
        Some(DialogView::Confirm(c)) => confirm_step_spec(closed, c, key),
        None => match v.screen {
            Screen::Editor => editor_key_spec(v, key),
            Screen::Preview => preview_key_spec(v, key),
            Screen::Help => (help_key_spec(v, key), ActionView::Nothing),
        },
    }
}

/// An event: keys are handled, resizes and ticks change nothing (the
/// terminal redraws each loop).
pub open spec fn event_spec(v: AppView, e: AppEvent) -> (AppView, ActionView) {
    match e {
        AppEvent::Key(k) => key_spec(v, k),
        _ => (v, ActionView::Nothing),
    }
}

proof fn lemma_editor_actions_wf(v: AppView)
    requires
        app_wf(v),
    ensures
        app_wf(quit_or_confirm_spec(v)),
        app_wf(selected_by(v, 1)),
        app_wf(selected_by(v, -1)),
        app_wf(toggle_perm_spec(v)),
        app_wf(cycle_filter_spec(v)),
        app_wf(edit_identity_spec(v)),
        app_wf(open_add_spec(v)),
        app_wf(confirm_delete_spec(v)),
        app_wf(open_owner_input_spec(v)),
        app_wf(open_group_input_spec(v)),
        app_wf(jump_to_mask_spec(v)),
        app_wf(toggle_recursive_spec(v)),
        app_wf(try_save_spec(v).0),
        app_wf(reload_or_confirm_spec(v).0),
{
}

proof fn lemma_editor_key_wf(v: AppView, key: KeyEvent)
    requires
        app_wf(v),
    ensures
        app_wf(editor_key_spec(v, key).0),
{
    lemma_editor_actions_wf(v);
}

proof fn lemma_other_screens_wf(v: AppView, key: KeyEvent)
    requires
        app_wf(v),
    ensures
        app_wf(preview_key_spec(v, key).0),
        app_wf(help_key_spec(v, key)),
{
    lemma_editor_actions_wf(AppView { screen: Screen::Editor, ..v });
}

/// Every key keeps the state one the key handlers accept: the permission
/// cursor stays on one of the three bits, and an open confirmation keeps its
/// cursor on one of its choices.
pub proof fn lemma_key_keeps_wf(v: AppView, key: KeyEvent)
    requires
        app_wf(v),
    ensures
        app_wf(key_spec(v, key).0),
{
    let closed = AppView { dialog: None, ..v };
    match v.dialog {
        Some(DialogView::Add(d)) => lemma_add_step_wf(closed, d, key),
        Some(DialogView::Input(d)) => lemma_input_step_wf(closed, d, key),
        Some(DialogView::Confirm(c)) => lemma_confirm_step_wf(closed, c, key),
        None => {
            lemma_editor_key_wf(v, key);
            lemma_other_screens_wf(v, key);
        },
    }
}

impl App {
    /// A key on the editor screen.
    pub fn handle_editor_key(&mut self, key: KeyEvent) -> (r: Action)
        requires
            old(self).perm_cursor < 3,
        ensures
            (final(self)@, r@) == editor_key_spec(old(self)@, key),
    {
        match key.code {
            KeyCode::Char('q') => self.quit_or_confirm(),
            KeyCode::Char('?') => self.screen = Screen::Help,
            KeyCode::Char('j') | KeyCode::Down => self.select(1),
            KeyCode::Char('k') | KeyCode::Up => self.select(-1),
            KeyCode::Left => {
                if self.perm_cursor > 0 {
                    self.perm_cursor = self.perm_cursor - 1;
                }
            },
            KeyCode::Right => {
                if self.perm_cursor < 2 {
                    self.perm_cursor = self.perm_cursor + 1;
                }
            },
            KeyCode::Char(' ') => self.toggle_perm(),
            KeyCode::Tab => self.focus = Focus::Editor,
            KeyCode::BackTab => self.focus = Focus::List,
            KeyCode::Char('f') => self.cycle_filter(),
            KeyCode::Char('e') => self.edit_identity(),
            KeyCode::Char('a') => self.open_add(),
            KeyCode::Char('d') => self.confirm_delete(),
            KeyCode::Char('o') => self.open_owner_input(),
            KeyCode::Char('g') => self.open_group_input(),
            KeyCode::Char('m') => self.jump_to_mask(),
            KeyCode::Char('t') => self.toggle_recursive(),
            KeyCode::Char('p') => self.open_preview(),
            KeyCode::Char('S') => {
                return self.try_save();
            },
            KeyCode::Char('R') => {
                return self.reload_or_confirm();
            },
            _ => {},
        }
        Action::Nothing
    }

    /// A key on the preview screen.
    pub fn handle_preview_key(&mut self, key: KeyEvent) -> (r: Action)
        ensures
            (final(self)@, r@) == preview_key_spec(old(self)@, key),
    {
        match key.code {
            KeyCode::Esc | KeyCode::Char('q') | KeyCode::Char('p') => {
                self.screen = Screen::Editor;
                Action::Nothing
            },
            KeyCode::Enter => {
                self.screen = Screen::Editor;
                self.try_save()
            },
            _ => Action::Nothing,
        }
    }

    /// A key on the help screen.
    pub fn handle_help_key(&mut self, key: KeyEvent)
        ensures
            final(self)@ == help_key_spec(old(self)@, key),
    {
        match key.code {
            KeyCode::Esc | KeyCode::Char('q') | KeyCode::Char('?') => self.screen = Screen::Editor,
            _ => {},
        }
    }

    /// Whether the state is one the key handlers accept (see [`app_wf`]).
    pub fn is_well_formed(&self) -> (r: bool)
        ensures
            r == app_wf(self@),
    {
        let cursor_ok = match &self.dialog {
            Some(Dialog::Confirm(c)) => c.choices.len() == 0 || c.cursor < c.choices.len(),
            _ => true,
        };
        self.perm_cursor < 3 && cursor_ok
    }

    /// React to one key: the open dialog takes it, otherwise the current
    /// screen.
    pub fn handle_key(&mut self, key: KeyEvent) -> (r: Action)
        requires
            app_wf(old(self)@),
        ensures
            (final(self)@, r@) == key_spec(old(self)@, key),
            app_wf(final(self)@),
    {
        proof {
            lemma_key_keeps_wf(self@, key);
        }
        let d = self.dialog.take();
        match d {
            Some(Dialog::Add(ad)) => self.step_add(ad, key),
            Some(Dialog::Input(id)) => self.step_input(id, key),
            Some(Dialog::Confirm(cd)) => self.step_confirm(cd, key),
            None => match self.screen {
                Screen::Editor => self.handle_editor_key(key),
                Screen::Preview => self.handle_preview_key(key),
                Screen::Help => {
                    self.handle_help_key(key);
                    Action::Nothing
                },
            },
        }
    }

    /// React to one polled event; the returned action is to be performed and
    /// its outcome handed to [`App::resume`].
    pub fn handle_event(&mut self, event: AppEvent) -> (r: Action)
        requires
            app_wf(old(self)@),
        ensures
            (final(self)@, r@) == event_spec(old(self)@, event),
            app_wf(final(self)@),
    {
        match event.key() {
            Some(key) => self.handle_key(key),
            None => Action::Nothing,
        }
    }
}

} // verus!
