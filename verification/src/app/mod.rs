//! The editor's state and how it reacts to keys.
//!
//! The state machine decides; the terminal loop around it performs the
//! work an [`Action`] asks for (looking up identities, backing up, changing
//! ownership, writing and reading ACLs) and hands the result back as an
//! [`Outcome`].
use vstd::prelude::*;

use crate::backend::AclHandle;
use crate::cli::{Cli, MaskPolicy};
use crate::model::acl::{effective_view, mask_view, ObjectView};
use crate::model::entry::entry_who;
use crate::model::permissions::perm_chars;
use crate::text::{push_str, string_of};
use crate::model::{Acl, AclEntry, EntryKind, EntryView, ObjectInfo, Scope};

pub mod dialogs;
pub mod dispatch;
pub mod edit_laws;
pub mod effects;
pub mod keys;
pub mod laws;
pub mod preview;
pub mod screen;

verus! {

#[derive(Debug, Clone, Copy, PartialEq, Eq, Structural)]
pub enum Screen {
    Editor,
    Preview,
    Help,
}

#[derive(Debug, Clone, Copy, PartialEq, Eq, Structural)]
pub enum Focus {
    List,
    Editor,
}

#[derive(Debug, Clone, Copy, PartialEq, Eq, Structural)]
pub enum ListFilter {
    All,
    Access,
    Default,
}

#[derive(Debug, Clone, Copy, PartialEq, Eq, Structural)]
pub enum StatusLevel {
    Info,
    Success,
    Error,
}

#[derive(Debug)]
pub struct Status {
    pub level: StatusLevel,
    pub message: String,
}

#[derive(Debug)]
pub enum Dialog {
    Add(AddDialog),
    Input(InputDialog),
    Confirm(ConfirmDialog),
}

#[derive(Debug)]
pub struct AddDialog {
    /// Whether the object supports a default ACL (i.e. it is a directory).
    pub can_default: bool,
    pub scope: Scope,
    /// `true` for a named user, `false` for a named group.
    pub is_user: bool,
    pub name: String,
    pub read: bool,
    pub write: bool,
    pub execute: bool,
    /// 0 = Scope, 1 = Kind, 2 = Name, 3 = Read, 4 = Write, 5 = Execute.
    pub cursor: usize,
    pub error: Option<String>,
}

#[derive(Debug)]
pub struct InputDialog {
    pub title: String,
    pub target: InputTarget,
    pub value: String,
    pub error: Option<String>,
}

#[derive(Debug)]
pub enum InputTarget {
    Owner,
    Group,
    /// Edit the identity of an existing named entry.
    Identity(Scope, EntryKind, Option<String>),
}

#[derive(Debug)]
pub struct ConfirmDialog {
    pub title: String,
    pub body: String,
    pub cursor: usize,
    pub choices: Vec<ConfirmChoice>,
}

#[derive(Debug)]
pub struct ConfirmChoice {
    pub key: char,
    pub label: String,
    pub action: ConfirmAction,
}

#[derive(Debug, Clone, Copy, PartialEq, Eq, Structural)]
pub enum ConfirmAction {
    Quit,
    Save,
    SaveAndQuit,
    Cancel,
    DeleteEntry,
    Reload,
}

/// Where a save stands: the step whose result is awaited.
#[derive(Debug, Clone, Copy, PartialEq, Eq, Structural)]
pub enum SaveStage {
    Backup,
    Chown,
    Write,
    Read,
}

/// A save in progress.
#[derive(Debug)]
pub struct SaveState {
    pub stage: SaveStage,
    /// The ACL being written, with the mask policy applied.
    pub acl: Acl,
    /// The new owner, when it changes.
    pub owner: Option<String>,
    /// The new owning group, when it changes.
    pub group: Option<String>,
    pub recursive: bool,
    /// Quit once the save is over, whatever its result.
    pub quit_after: bool,
    /// The backup file, once written.
    pub backup: Option<String>,
}

/// What the state machine waits for after handing out an [`Action`].
#[derive(Debug)]
pub enum Pending {
    /// A new named entry, waiting for its identity to resolve.
    AddEntry(AclEntry),
    /// The open input dialog, waiting for its value to resolve.
    Input,
    /// A save in progress.
    Save(SaveState),
    /// A reload from the filesystem.
    Reload,
}

/// Work the state machine needs done outside: each is answered by one
/// [`Outcome`].
#[derive(Debug)]
pub enum Action {
    /// Nothing to do.
    Nothing,
    /// Run `getent passwd <name>`; answer with [`Outcome::Lookup`].
    LookupUser(String),
    /// Run `getent group <name>`; answer with [`Outcome::Lookup`].
    LookupGroup(String),
    /// Back up the ACL of `path`; answer with [`Outcome::BackedUp`].
    Backup { path: String, recursive: bool },
    /// Change ownership of `path`; answer with [`Outcome::Ran`].
    Chown { path: String, owner: Option<String>, group: Option<String>, recursive: bool },
    /// Apply `acl` to `path`; answer with [`Outcome::Ran`].
    WriteAcl { path: String, acl: Acl, recursive: bool },
    /// Read the metadata and ACL of `path`; answer with [`Outcome::Loaded`].
    Read { path: String },
}

/// The result of an [`Action`].
#[derive(Debug)]
pub enum Outcome {
    /// What `getent` printed, or `None` when it failed.
    Lookup(Option<String>),
    /// The path of the backup file, or why the backup failed.
    BackedUp(Result<String, String>),
    /// `chown` or `setfacl` ran, or why it failed.
    Ran(Result<(), String>),
    /// The object as read again, or why reading failed.
    Loaded(Result<AclHandle, String>),
}

/// The whole application state: the object being edited, the original and
/// working ACLs, ownership, UI focus/selection, and any open dialog.
pub struct App {
    pub running: bool,
    pub object: ObjectInfo,
    /// The ACL as first read from disk; the baseline for change detection.
    pub original: Acl,
    pub original_owner: String,
    pub original_group: String,
    /// The ACL being edited; becomes `original` after a save or reload.
    pub working: Acl,
    pub owner: String,
    pub group: String,
    pub screen: Screen,
    pub focus: Focus,
    /// Index into the *visible* (filtered) entry list.
    pub selected: usize,
    /// Which permission bit the cursor is on: 0 = read, 1 = write, 2 = execute.
    pub perm_cursor: usize,
    pub list_filter: ListFilter,
    pub status: Status,
    pub dialog: Option<Dialog>,
    pub read_only: bool,
    pub mask_policy: MaskPolicy,
    /// When true, saving applies the ACL to every descendant of the object.
    pub recursive: bool,
    pub backup_path: Option<String>,
    /// What the state machine waits for, if anything.
    pub pending: Option<Pending>,
}

// ---------------------------------------------------------------------------
// Views.

pub open spec fn opt_seq(o: Option<String>) -> Option<Seq<char>> {
    match o {
        Some(s) => Some(s@),
        None => None,
    }
}

pub struct StatusView {
    pub level: StatusLevel,
    pub message: Seq<char>,
}

pub struct AddView {
    pub can_default: bool,
    pub scope: Scope,
    pub is_user: bool,
    pub name: Seq<char>,
    pub read: bool,
    pub write: bool,
    pub execute: bool,
    pub cursor: usize,
    pub error: Option<Seq<char>>,
}

pub enum TargetView {
    Owner,
    Group,
    Identity(Scope, EntryKind, Option<Seq<char>>),
}

pub struct InputView {
    pub title: Seq<char>,
    pub target: TargetView,
    pub value: Seq<char>,
    pub error: Option<Seq<char>>,
}

pub struct ChoiceView {
    pub key: char,
    pub label: Seq<char>,
    pub action: ConfirmAction,
}

pub struct ConfirmView {
    pub title: Seq<char>,
    pub body: Seq<char>,
    pub cursor: usize,
    pub choices: Seq<ChoiceView>,
}

pub enum DialogView {
    Add(AddView),
    Input(InputView),
    Confirm(ConfirmView),
}

pub struct SaveView {
    pub stage: SaveStage,
    pub acl: Seq<EntryView>,
    pub owner: Option<Seq<char>>,
    pub group: Option<Seq<char>>,
    pub recursive: bool,
    pub quit_after: bool,
    pub backup: Option<Seq<char>>,
}

pub enum PendingView {
    AddEntry(EntryView),
    Input,
    Save(SaveView),
    Reload,
}

pub enum ActionView {
    Nothing,
    LookupUser(Seq<char>),
    LookupGroup(Seq<char>),
    Backup { path: Seq<char>, recursive: bool },
    Chown { path: Seq<char>, owner: Option<Seq<char>>, group: Option<Seq<char>>, recursive: bool },
    WriteAcl { path: Seq<char>, acl: Seq<EntryView>, recursive: bool },
    Read { path: Seq<char> },
}

pub struct HandleView {
    pub object: ObjectView,
    pub acl: Seq<EntryView>,
}

pub enum OutcomeView {
    Lookup(Option<Seq<char>>),
    BackedUp(Result<Seq<char>, Seq<char>>),
    Ran(Result<(), Seq<char>>),
    Loaded(Result<HandleView, Seq<char>>),
}

pub struct AppView {
    pub running: bool,
    pub object: ObjectView,
    pub original: Seq<EntryView>,
    pub original_owner: Seq<char>,
    pub original_group: Seq<char>,
    pub working: Seq<EntryView>,
    pub owner: Seq<char>,
    pub group: Seq<char>,
    pub screen: Screen,
    pub focus: Focus,
    pub selected: usize,
    pub perm_cursor: usize,
    pub list_filter: ListFilter,
    pub status: StatusView,
    pub dialog: Option<DialogView>,
    pub read_only: bool,
    pub mask_policy: MaskPolicy,
    pub recursive: bool,
    pub backup_path: Option<Seq<char>>,
    pub pending: Option<PendingView>,
}

impl View for Status {
    type V = StatusView;

    open spec fn view(&self) -> StatusView {
        StatusView { level: self.level, message: self.message@ }
    }
}

impl View for AddDialog {
    type V = AddView;

    open spec fn view(&self) -> AddView {
        AddView {
            can_default: self.can_default,
            scope: self.scope,
            is_user: self.is_user,
            name: self.name@,
            read: self.read,
            write: self.write,
            execute: self.execute,
            cursor: self.cursor,
            error: opt_seq(self.error),
        }
    }
}

impl View for InputTarget {
    type V = TargetView;

    open spec fn view(&self) -> TargetView {
        match *self {
            InputTarget::Owner => TargetView::Owner,
            InputTarget::Group => TargetView::Group,
            InputTarget::Identity(s, k, i) => TargetView::Identity(s, k, opt_seq(i)),
        }
    }
}

impl View for InputDialog {
    type V = InputView;

    open spec fn view(&self) -> InputView {
        InputView {
            title: self.title@,
            target: self.target@,
            value: self.value@,
            error: opt_seq(self.error),
        }
    }
}

impl View for ConfirmChoice {
    type V = ChoiceView;

    open spec fn view(&self) -> ChoiceView {
        ChoiceView { key: self.key, label: self.label@, action: self.action }
    }
}

pub open spec fn choices_view(v: Seq<ConfirmChoice>) -> Seq<ChoiceView> {
    v.map_values(|c: ConfirmChoice| c@)
}

impl View for ConfirmDialog {
    type V = ConfirmView;

    open spec fn view(&self) -> ConfirmView {
        ConfirmView {
            title: self.title@,
            body: self.body@,
            cursor: self.cursor,
            choices: choices_view(self.choices@),
        }
    }
}

impl View for Dialog {
    type V = DialogView;

    open spec fn view(&self) -> DialogView {
        match *self {
            Dialog::Add(d) => DialogView::Add(d@),
            Dialog::Input(d) => DialogView::Input(d@),
            Dialog::Confirm(d) => DialogView::Confirm(d@),
        }
    }
}

impl View for SaveState {
    type V = SaveView;

    open spec fn view(&self) -> SaveView {
        SaveView {
            stage: self.stage,
            acl: self.acl@,
            owner: opt_seq(self.owner),
            group: opt_seq(self.group),
            recursive: self.recursive,
            quit_after: self.quit_after,
            backup: opt_seq(self.backup),
        }
    }
}

impl View for Pending {
    type V = PendingView;

    open spec fn view(&self) -> PendingView {
        match *self {
            Pending::AddEntry(e) => PendingView::AddEntry(e@),
            Pending::Input => PendingView::Input,
            Pending::Save(s) => PendingView::Save(s@),
            Pending::Reload => PendingView::Reload,
        }
    }
}

impl View for Action {
    type V = ActionView;

    open spec fn view(&self) -> ActionView {
        match *self {
            Action::Nothing => ActionView::Nothing,
            Action::LookupUser(n) => ActionView::LookupUser(n@),
            Action::LookupGroup(n) => ActionView::LookupGroup(n@),
            Action::Backup { path, recursive } => ActionView::Backup { path: path@, recursive },
            Action::Chown { path, owner, group, recursive } => ActionView::Chown {
                path: path@,
                owner: opt_seq(owner),
                group: opt_seq(group),
                recursive,
            },
            Action::WriteAcl { path, acl, recursive } => ActionView::WriteAcl {
                path: path@,
                acl: acl@,
                recursive,
            },
            Action::Read { path } => ActionView::Read { path: path@ },
        }
    }
}

impl View for Outcome {
    type V = OutcomeView;

    open spec fn view(&self) -> OutcomeView {
        match *self {
            Outcome::Lookup(o) => OutcomeView::Lookup(opt_seq(o)),
            Outcome::BackedUp(r) => OutcomeView::BackedUp(
                match r {
                    Ok(p) => Ok(p@),
                    Err(e) => Err(e@),
                },
            ),
            Outcome::Ran(r) => OutcomeView::Ran(
                match r {
                    Ok(_) => Ok(()),
                    Err(e) => Err(e@),
                },
            ),
            Outcome::Loaded(r) => OutcomeView::Loaded(
                match r {
                    Ok(h) => Ok(HandleView { object: h.object@, acl: h.acl@ }),
                    Err(e) => Err(e@),
                },
            ),
        }
    }
}

pub open spec fn opt_dialog(d: Option<Dialog>) -> Option<DialogView> {
    match d {
        Some(x) => Some(x@),
        None => None,
    }
}

pub open spec fn opt_pending(p: Option<Pending>) -> Option<PendingView> {
    match p {
        Some(x) => Some(x@),
        None => None,
    }
}

impl View for App {
    type V = AppView;

    open spec fn view(&self) -> AppView {
        AppView {
            running: self.running,
            object: self.object@,
            original: self.original@,
            original_owner: self.original_owner@,
            original_group: self.original_group@,
            working: self.working@,
            owner: self.owner@,
            group: self.group@,
            screen: self.screen,
            focus: self.focus,
            selected: self.selected,
            perm_cursor: self.perm_cursor,
            list_filter: self.list_filter,
            status: self.status@,
            dialog: opt_dialog(self.dialog),
            read_only: self.read_only,
            mask_policy: self.mask_policy,
            recursive: self.recursive,
            backup_path: opt_seq(self.backup_path),
            pending: opt_pending(self.pending),
        }
    }
}

// ---------------------------------------------------------------------------
// What the list shows.

/// Whether the filter shows `e`.
pub open spec fn passes(e: EntryView, f: ListFilter) -> bool {
    match f {
        ListFilter::All => true,
        ListFilter::Access => e.scope == Scope::Access,
        ListFilter::Default => e.scope == Scope::Default,
    }
}

/// The entries the list shows, in order.
pub open spec fn visible_view(s: Seq<EntryView>, f: ListFilter) -> Seq<EntryView>
    decreases s.len(),
{
    if s.len() == 0 {
        s
    } else if passes(s.last(), f) {
        visible_view(s.drop_last(), f).push(s.last())
    } else {
        visible_view(s.drop_last(), f)
    }
}

/// The positions in `s` of the entries the list shows.
pub open spec fn visible_positions(s: Seq<EntryView>, f: ListFilter) -> Seq<int>
    decreases s.len(),
{
    if s.len() == 0 {
        Seq::empty()
    } else if passes(s.last(), f) {
        visible_positions(s.drop_last(), f).push(s.len() - 1)
    } else {
        visible_positions(s.drop_last(), f)
    }
}

pub proof fn lemma_visible(s: Seq<EntryView>, f: ListFilter)
    ensures
        visible_positions(s, f).len() == visible_view(s, f).len(),
        visible_view(s, f).len() <= s.len(),
        forall|k: int| 0 <= k < visible_positions(s, f).len() ==> {
            &&& 0 <= #[trigger] visible_positions(s, f)[k] < s.len()
            &&& visible_view(s, f)[k] == s[visible_positions(s, f)[k]]
        },
        forall|k: int, l: int| 0 <= k < l < visible_positions(s, f).len() ==> visible_positions(s, f)[k] < visible_positions(s, f)[l],
        forall|p: int| 0 <= p < s.len() && passes(s[p], f) ==> exists|k: int| 0 <= k < visible_positions(s, f).len() && visible_positions(s, f)[k] == p,
    decreases s.len(),
{
    if s.len() > 0 {
        let d = s.drop_last();
        lemma_visible(d, f);
        assert forall|k: int| 0 <= k < visible_positions(d, f).len() implies d[visible_positions(d, f)[k]] == s[visible_positions(d, f)[k]] by {}
        if passes(s.last(), f) {
            let q = visible_positions(d, f);
            assert forall|p: int| 0 <= p < s.len() && passes(s[p], f) implies exists|k: int| 0 <= k < visible_positions(s, f).len() && visible_positions(s, f)[k] == p by {
                if p < s.len() - 1 {
                    assert(d[p] == s[p]);
                    let k = choose|k: int| 0 <= k < q.len() && q[k] == p;
                    assert(visible_positions(s, f)[k] == p);
                } else {
                    assert(visible_positions(s, f)[q.len() as int] == p);
                }
            }
        } else {
            let q = visible_positions(d, f);
            assert forall|p: int| 0 <= p < s.len() && passes(s[p], f) implies exists|k: int| 0 <= k < visible_positions(s, f).len() && visible_positions(s, f)[k] == p by {
                assert(p < s.len() - 1);
                assert(d[p] == s[p]);
                let k = choose|k: int| 0 <= k < q.len() && q[k] == p;
                assert(visible_positions(s, f)[k] == p);
            }
        }
    }
}

/// The entry under the selection, if the selection is on an entry.
pub open spec fn selected_view(v: AppView) -> Option<EntryView> {
    let vis = visible_view(v.working, v.list_filter);
    if v.selected < vis.len() {
        Some(vis[v.selected as int])
    } else {
        None
    }
}

/// The position in the working ACL of the entry under the selection.
pub open spec fn selected_position(v: AppView) -> Option<int> {
    let pos = visible_positions(v.working, v.list_filter);
    if v.selected < pos.len() {
        Some(pos[v.selected as int])
    } else {
        None
    }
}

/// What the status bar says of the selected entry: requested and effective
/// permission, and the mask when it caps the entry.
pub open spec fn selection_message(v: AppView) -> Option<Seq<char>> {
    match selected_view(v) {
        None => None,
        Some(e) => {
            let eff = effective_view(v.working, e);
            let base = entry_who(e) + "  requested "@ + perm_chars(e.permissions) + "  effective "@
                + perm_chars(eff);
            Some(
                if eff != e.permissions && mask_view(v.working, e.scope) is Some {
                    base + "  (capped by mask::"@ + perm_chars(mask_view(v.working, e.scope)->0)
                        + ")"@
                } else {
                    base
                },
            )
        },
    }
}

/// The state once the status bar points at the selected entry.
pub open spec fn synced(v: AppView) -> AppView {
    match selection_message(v) {
        Some(m) => AppView { status: StatusView { level: StatusLevel::Info, message: m }, ..v },
        None => v,
    }
}

/// The state with the selection kept on the list: on its last entry when it
/// was past the end, on 0 when the list is empty.
pub open spec fn clamped(v: AppView) -> AppView {
    let n = visible_view(v.working, v.list_filter).len();
    if n == 0 {
        AppView { selected: 0, ..v }
    } else if v.selected >= n {
        AppView { selected: (n - 1) as usize, ..v }
    } else {
        v
    }
}

/// The state with the selection moved by `delta`, wrapping around the
/// visible list (Euclidean remainder), and the status bar pointing at it.
pub open spec fn selected_by(v: AppView, delta: int) -> AppView {
    let n = visible_view(v.working, v.list_filter).len();
    if n == 0 {
        AppView { selected: 0, ..v }
    } else {
        synced(AppView { selected: ((v.selected + delta) % (n as int)) as usize, ..v })
    }
}

/// The state with a new status line.
pub open spec fn with_status(v: AppView, level: StatusLevel, message: Seq<char>) -> AppView {
    AppView { status: StatusView { level, message }, ..v }
}

/// Whether any pending change (ACL or ownership) differs from the disk.
pub open spec fn modified(v: AppView) -> bool {
    v.working != v.original || v.owner != v.original_owner || v.group != v.original_group
}

/// What the state machine needs of its state: the permission cursor is on
/// one of the three bits, and an open confirmation has its cursor on one of
/// its choices.
pub open spec fn app_wf(v: AppView) -> bool {
    &&& v.perm_cursor < 3
    &&& match v.dialog {
        Some(DialogView::Confirm(c)) => c.choices.len() == 0 || c.cursor < c.choices.len(),
        _ => true,
    }
}

impl App {
    /// The state after reading the object (`handle`). `uid` is the current
    /// user id (`None` when it could not be determined) and `owner_uid` the
    /// uid the object's owner resolves to. The app is read-only when asked
    /// to be, or when the current user may not modify the object.
    pub fn new(cli: Cli, handle: AclHandle, uid: Option<u32>, owner_uid: Option<u32>) -> (r: Self)
        ensures
            ({
                let writable = match uid {
                    Some(u) => u == 0 || owner_uid == Some(u),
                    None => false,
                };
                r@ == AppView {
                    running: true,
                    object: handle.object@,
                    original: handle.acl@,
                    original_owner: handle.object.owner@,
                    original_group: handle.object.group@,
                    working: handle.acl@,
                    owner: handle.object.owner@,
                    group: handle.object.group@,
                    screen: Screen::Editor,
                    focus: Focus::List,
                    selected: 0,
                    perm_cursor: 0,
                    list_filter: ListFilter::All,
                    status: StatusView {
                        level: StatusLevel::Info,
                        message: if !writable && !cli.read_only {
                            "read-only: you do not own this object; ACL changes are not permitted"@
                        } else {
                            "loaded"@
                        },
                    },
                    dialog: None,
                    read_only: cli.read_only || !writable,
                    mask_policy: cli.mask,
                    recursive: false,
                    backup_path: None,
                    pending: None,
                }
            }),
            app_wf(r@),
    {
        let object = handle.object;
        let original_owner = object.owner.clone();
        let original_group = object.group.clone();
        let owner = original_owner.clone();
        let group = original_group.clone();
        // Enter read-only mode when requested on the command line or when the
        // current user is not allowed to modify this object's ACL.
        let writable = match uid {
            Some(u) => crate::backend::can_modify(u, owner_uid),
            None => false,
        };
        let read_only = cli.read_only || !writable;
        let status = if !writable && !cli.read_only {
            Status {
                level: StatusLevel::Info,
                message: string_of("read-only: you do not own this object; ACL changes are not permitted"),
            }
        } else {
            Status { level: StatusLevel::Info, message: string_of("loaded") }
        };
        App {
            running: true,
            object,
            original: handle.acl.clone(),
            original_owner,
            original_group,
            working: handle.acl,
            owner,
            group,
            screen: Screen::Editor,
            focus: Focus::List,
            selected: 0,
            perm_cursor: 0,
            list_filter: ListFilter::All,
            status,
            dialog: None,
            read_only,
            mask_policy: cli.mask,
            recursive: false,
            backup_path: None,
            pending: None,
        }
    }

    /// The positions in the working ACL of the entries the list shows.
    pub fn visible_indices(&self) -> (r: Vec<usize>)
        ensures
            r@.len() == visible_positions(self.working@, self.list_filter).len(),
            forall|k: int| 0 <= k < r@.len() ==> r@[k] as int == #[trigger] visible_positions(self.working@, self.list_filter)[k],
    {
        let mut out: Vec<usize> = Vec::new();
        let mut i: usize = 0;
        let n = self.working.len();
        while i < n
            invariant
                n == self.working@.len(),
                i <= n,
                out@.len() == visible_positions(self.working@.take(i as int), self.list_filter).len(),
                forall|k: int| 0 <= k < out@.len() ==> out@[k] as int == #[trigger] visible_positions(self.working@.take(i as int), self.list_filter)[k],
            decreases n - i,
        {
            let e = self.working.get(i);
            proof {
                assert(self.working@.take(i + 1).drop_last() =~= self.working@.take(i as int));
                assert(self.working@.take(i + 1).last() == e@);
            }
            let pass = match self.list_filter {
                ListFilter::All => true,
                ListFilter::Access => e.scope == Scope::Access,
                ListFilter::Default => e.scope == Scope::Default,
            };
            if pass {
                out.push(i);
            }
            i = i + 1;
        }
        assert(self.working@.take(n as int) =~= self.working@);
        out
    }

    /// The entries currently shown in the list, honoring the active filter.
    pub fn visible_entries(&self) -> (r: Vec<&AclEntry>)
        ensures
            crate::model::acl::ref_views(r@) == visible_view(self.working@, self.list_filter),
    {
        let mut out: Vec<&AclEntry> = Vec::new();
        let mut i: usize = 0;
        let n = self.working.len();
        while i < n
            invariant
                n == self.working@.len(),
                i <= n,
                crate::model::acl::ref_views(out@) == visible_view(self.working@.take(i as int), self.list_filter),
            decreases n - i,
        {
            let e = self.working.get(i);
            proof {
                assert(self.working@.take(i + 1).drop_last() =~= self.working@.take(i as int));
                assert(self.working@.take(i + 1).last() == e@);
            }
            let pass = match self.list_filter {
                ListFilter::All => true,
                ListFilter::Access => e.scope == Scope::Access,
                ListFilter::Default => e.scope == Scope::Default,
            };
            if pass {
                out.push(e);
            }
            i = i + 1;
            assert(crate::model::acl::ref_views(out@) =~= visible_view(self.working@.take(i as int), self.list_filter));
        }
        assert(self.working@.take(n as int) =~= self.working@);
        out
    }

    /// The position in the working ACL of the selected entry.
    pub fn selected_working_index(&self) -> (r: Option<usize>)
        ensures
            match r {
                Some(i) => selected_position(self@) == Some(i as int) && i < self.working@.len(),
                None => selected_position(self@) is None,
            },
    {
        let idx = self.visible_indices();
        proof {
            lemma_visible(self.working@, self.list_filter);
        }
        if self.selected < idx.len() {
            assert(0 <= visible_positions(self.working@, self.list_filter)[self.selected as int] < self.working@.len());
            Some(idx[self.selected])
        } else {
            None
        }
    }

    pub fn selected_entry(&self) -> (r: Option<&AclEntry>)
        ensures
            match selected_view(self@) {
                Some(e) => r is Some && r->0@ == e,
                None => r is None,
            },
    {
        proof {
            lemma_visible(self.working@, self.list_filter);
        }
        match self.selected_working_index() {
            Some(i) => {
                let ghost k = self.selected as int;
                assert(0 <= visible_positions(self.working@, self.list_filter)[k] < self.working@.len());
                assert(visible_view(self.working@, self.list_filter)[k] == self.working@[visible_positions(self.working@, self.list_filter)[k]]);
                assert(selected_position(self@) == Some(visible_positions(self.working@, self.list_filter)[k]));
                assert(i as int == visible_positions(self.working@, self.list_filter)[k]);
                assert(k < visible_view(self.working@, self.list_filter).len());
                assert(self@.working == self.working@);
                assert(selected_view(self@) == Some(self.working@[i as int]));
                Some(self.working.get(i))
            },
            None => {
                assert(selected_view(self@) is None);
                None
            },
        }
    }

    /// The number of entries the list shows.
    pub fn visible_count(&self) -> (r: usize)
        ensures
            r == visible_view(self.working@, self.list_filter).len(),
    {
        proof {
            lemma_visible(self.working@, self.list_filter);
        }
        self.visible_indices().len()
    }

    /// Whether any pending change (ACL or ownership) differs from the disk.
    pub fn is_modified(&self) -> (r: bool)
        ensures
            r == modified(self@),
    {
        !self.working.same_as(&self.original) || !(self.owner == self.original_owner) || !(self.group
            == self.original_group)
    }

    pub fn set_status(&mut self, message: String)
        ensures
            final(self)@ == with_status(old(self)@, StatusLevel::Info, message@),
    {
        self.status = Status { level: StatusLevel::Info, message };
    }

    pub fn set_ok(&mut self, message: String)
        ensures
            final(self)@ == with_status(old(self)@, StatusLevel::Success, message@),
    {
        self.status = Status { level: StatusLevel::Success, message };
    }

    pub fn set_error(&mut self, message: String)
        ensures
            final(self)@ == with_status(old(self)@, StatusLevel::Error, message@),
    {
        self.status = Status { level: StatusLevel::Error, message };
    }

    /// Keep the selection on the list.
    pub fn clamp_selection(&mut self)
        ensures
            final(self)@ == clamped(old(self)@),
    {
        let n = self.visible_count();
        if n == 0 {
            self.selected = 0;
        } else if self.selected >= n {
            self.selected = n - 1;
        }
    }

    /// Point the status bar at the selected entry, showing requested vs.
    /// effective permission and any mask capping.
    pub fn sync_status_to_selection(&mut self)
        ensures
            final(self)@ == synced(old(self)@),
    {
        let (mut message, requested, effective, scope) = match self.selected_entry() {
            Some(e) => (e.who(), e.permissions, self.working.effective(e), e.scope),
            None => {
                return;
            },
        };
        push_str(&mut message, "  requested ");
        let r = requested.to_string();
        push_str(&mut message, r.as_str());
        push_str(&mut message, "  effective ");
        let f = effective.to_string();
        push_str(&mut message, f.as_str());
        if !(effective == requested) {
            if let Some(mask) = self.working.mask(scope) {
                push_str(&mut message, "  (capped by mask::");
                let m = mask.to_string();
                push_str(&mut message, m.as_str());
                push_str(&mut message, ")");
            }
        }
        self.status = Status { level: StatusLevel::Info, message };
    }

    /// Move the selection by `delta`, wrapping around the visible list.
    pub fn select(&mut self, delta: isize)
        ensures
            final(self)@ == selected_by(old(self)@, delta as int),
    {
        let n = self.visible_count();
        if n == 0 {
            self.selected = 0;
            return;
        }
        let x: i128 = self.selected as i128 + delta as i128;
        let m: u128 = if x >= 0 {
            (x as u128) % (n as u128)
        } else {
            let y: u128 = (0 - x) as u128;
            let b: u128 = y % (n as u128);
            proof {
                let a = (y as int) / (n as int);
                vstd::arithmetic::div_mod::lemma_fundamental_div_mod(y as int, n as int);
                if b == 0 {
                    assert(x == (-a) * (n as int) + 0) by (nonlinear_arith)
                        requires
                            y == (n as int) * a + b,
                            x == -(y as int),
                            b == 0,
                    ;
                    vstd::arithmetic::div_mod::lemma_fundamental_div_mod_converse(x as int, n as int, -a, 0);
                } else {
                    assert(x == (-a - 1) * (n as int) + (n - b)) by (nonlinear_arith)
                        requires
                            y == (n as int) * a + b,
                            x == -(y as int),
                    ;
                    vstd::arithmetic::div_mod::lemma_fundamental_div_mod_converse(x as int, n as int, -a - 1, n - b);
                }
            }
            if b == 0 {
                0
            } else {
                (n as u128) - b
            }
        };
        assert(m == (self.selected + delta) % (n as int));
        self.selected = m as usize;
        self.sync_status_to_selection();
    }
}

} // verus!
