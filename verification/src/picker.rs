//! The navigation state machine of the picker: a stack of scopes, one per
//! directory level that is open, driven by one key at a time.

use crate::render::{
    append_ops, clear_ops, clear_terminal, count_of, frame_ops, leave_ops, leave_ops_spec,
    lemma_clear_ops_kinds, lemma_count_concat, lemma_frame_ops_kinds, lemma_leave_ops_restore, ops_view,
    print_range, OpView, TermOp,
};
use crate::tree::{
    indices, lemma_path_prefix, lemma_path_push, lemma_toggled_at, lemma_toggled_twice, lemma_toggled_wf,
    trees, Node, Tree,
};
use crate::window::{calculate_table, lemma_window_bounds, min_of, window_of, MAX_SIZE};
use vstd::arithmetic::div_mod::{lemma_mod_add_multiples_vanish, lemma_mod_self_0, lemma_small_mod};
use vstd::pervasive::unreached;
use vstd::prelude::*;

verus! {

/// A key of the keyboard, as far as the picker tells keys apart.
#[derive(Clone, Copy, Debug, PartialEq, Eq, Structural)]
pub enum Key {
    Char(char),
    Enter,
    Up,
    Down,
    Left,
    Right,
    Other,
}

/// One key event: the key, whether the control key was held, and whether
/// the event is a press (not a release or a repeat).
#[derive(Clone, Copy, Debug, PartialEq, Eq, Structural)]
pub struct KeyInput {
    pub key: Key,
    pub control: bool,
    pub pressed: bool,
}

/// What a key event asks of the picker.
#[derive(Clone, Copy, Debug, PartialEq, Eq, Structural)]
pub enum Command {
    /// The interrupt key: end the whole session as cancelled.
    Abort,
    /// Accept: end the whole session as confirmed.
    Confirm,
    Down,
    Up,
    /// Open the highlighted directory.
    Descend,
    /// Leave the directory that is open.
    Ascend,
    /// Flip the selection of the highlighted entry.
    Toggle,
    /// Any other key: nothing happens.
    Ignore,
}

/// Why a session ended.
#[derive(Clone, Copy, Debug, PartialEq, Eq, Structural)]
pub enum FinishReason {
    Confirmed,
    Cancelled,
}

/// Whether a session is still taking keys.
#[derive(Clone, Copy, Debug, PartialEq, Eq, Structural)]
pub enum Status {
    Browsing,
    Finished(FinishReason),
}

/// The command that a key event stands for.  Control with `c` aborts,
/// whatever the kind of the event; every other key counts only when
/// pressed.
pub open spec fn command_of(input: KeyInput) -> Command {
    if input.key == Key::Char('c') && input.control {
        Command::Abort
    } else if !input.pressed {
        Command::Ignore
    } else {
        match input.key {
            Key::Enter => Command::Confirm,
            Key::Down => Command::Down,
            Key::Up => Command::Up,
            Key::Right => Command::Descend,
            Key::Left => Command::Ascend,
            Key::Char(c) => if c == ' ' {
                Command::Toggle
            } else {
                Command::Ignore
            },
            Key::Other => Command::Ignore,
        }
    }
}

/// Tells which command a key event stands for.
pub fn classify(input: &KeyInput) -> (cmd: Command)
    ensures
        cmd == command_of(*input),
{
    let is_c = match input.key {
        Key::Char(c) => c == 'c',
        _ => false,
    };
    if is_c && input.control {
        Command::Abort
    } else if !input.pressed {
        Command::Ignore
    } else {
        match input.key {
            Key::Enter => Command::Confirm,
            Key::Down => Command::Down,
            Key::Up => Command::Up,
            Key::Right => Command::Descend,
            Key::Left => Command::Ascend,
            Key::Char(c) => if c == ' ' {
                Command::Toggle
            } else {
                Command::Ignore
            },
            Key::Other => Command::Ignore,
        }
    }
}

/// The model of a scope: the cursor position in the list that is browsed
/// and the window that was last computed for it.
pub struct ScopeView {
    pub selected: int,
    pub start: int,
    pub end: int,
    pub highlight: int,
}

/// The scope with the cursor on entry `selected` of a list of `len`
/// entries, with the window that belongs to it.
pub open spec fn scope_at(selected: int, len: int) -> ScopeView {
    let w = window_of(selected, MAX_SIZE as int, len);
    ScopeView { selected, start: w.start, end: w.end, highlight: w.highlight }
}

/// The model of a picker session.
pub struct PickerView {
    /// The whole tree.
    pub root: Tree,
    /// The open scopes, the root's first.  The scope at depth `d` browses
    /// the children of the entry that the scope above it has its cursor on.
    pub scopes: Seq<ScopeView>,
    pub status: Status,
    /// The screen row of the first entry.
    pub anchor: int,
}

impl PickerView {
    /// The cursor positions of the open scopes, from the root's down: the
    /// index path from the root to the highlighted entry.
    pub open spec fn trail(self) -> Seq<int> {
        self.scopes.map_values(|s: ScopeView| s.selected)
    }

    pub open spec fn browsing(self) -> bool {
        self.status is Browsing
    }

    /// The directory whose children the scope at `depth` browses.
    pub open spec fn dir(self, depth: int) -> Tree {
        self.root.at(self.trail().take(depth))
    }

    /// The list that the innermost scope browses.
    pub open spec fn items(self) -> Seq<Tree> {
        self.dir(self.scopes.len() - 1).children
    }

    /// The innermost scope.
    pub open spec fn top(self) -> ScopeView {
        self.scopes.last()
    }

    /// What holds of the scope at `depth`: its cursor is on an entry of its
    /// list (on row 0 of an empty list), its window is the one that belongs
    /// to that position, and, unless it is the innermost, its cursor is on
    /// the directory that the next scope has open.
    pub open spec fn scope_ok(self, depth: int) -> bool {
        let len = self.dir(depth).children.len() as int;
        let s = self.scopes[depth];
        &&& s == scope_at(s.selected, len)
        &&& 0 <= s.selected
        &&& s.selected < len || (len == 0 && s.selected == 0)
        &&& depth < self.scopes.len() - 1 ==> s.selected < len && self.dir(depth).children[s.selected].is_dir
    }

    /// The invariant of a session.
    pub open spec fn wf(self) -> bool {
        &&& 0 <= self.anchor
        &&& self.anchor + MAX_SIZE + 1 <= u16::MAX
        &&& self.browsing() <==> self.scopes.len() > 0
        &&& self.scopes.len() > 0 ==> self.root.valid_path(self.trail().drop_last())
        &&& forall|d: int| 0 <= d < self.scopes.len() ==> #[trigger] self.scope_ok(d)
    }

    /// The first state of a session: one scope over the root's children,
    /// the cursor on the first of them.
    pub open spec fn initial(root: Tree, anchor: int) -> PickerView {
        PickerView {
            root,
            scopes: seq![scope_at(0, root.children.len() as int)],
            status: Status::Browsing,
            anchor,
        }
    }

    /// Whether `cmd` does anything in this state.  Nothing does once the
    /// session has ended; moving and toggling need an entry under the
    /// cursor; only a directory can be opened.
    pub open spec fn applies(self, cmd: Command) -> bool {
        self.browsing() && match cmd {
            Command::Abort | Command::Confirm | Command::Ascend => true,
            Command::Down | Command::Up | Command::Toggle => self.items().len() > 0,
            Command::Descend => self.items().len() > 0 && self.items()[self.top().selected].is_dir,
            Command::Ignore => false,
        }
    }

    /// This session ended for `reason`: no scope is left open.
    pub open spec fn finished(self, reason: FinishReason) -> PickerView {
        PickerView { scopes: Seq::empty(), status: Status::Finished(reason), ..self }
    }

    /// This session with the cursor of the innermost scope on `selected`.
    pub open spec fn moved_to(self, selected: int) -> PickerView {
        PickerView {
            scopes: self.scopes.drop_last().push(scope_at(selected, self.items().len() as int)),
            ..self
        }
    }

    /// The state after `cmd`.
    pub open spec fn next(self, cmd: Command) -> PickerView {
        if !self.applies(cmd) {
            self
        } else {
            let len = self.items().len() as int;
            let selected = self.top().selected;
            match cmd {
                Command::Abort => self.finished(FinishReason::Cancelled),
                Command::Confirm => self.finished(FinishReason::Confirmed),
                Command::Down => self.moved_to((selected + 1) % len),
                Command::Up => self.moved_to((selected + len - 1) % len),
                Command::Descend => PickerView {
                    scopes: self.scopes.push(scope_at(0, self.items()[selected].children.len() as int)),
                    ..self
                },
                Command::Ascend => if self.scopes.len() > 1 {
                    PickerView { scopes: self.scopes.drop_last(), ..self }
                } else {
                    self.finished(FinishReason::Cancelled)
                },
                Command::Toggle => PickerView { root: self.root.toggled(self.trail()), ..self },
                Command::Ignore => self,
            }
        }
    }

    /// Erasing the rows that the innermost scope has drawn: one per
    /// visible entry and the row of the key hint.
    pub open spec fn cleared(self) -> Seq<OpView> {
        clear_ops(self.anchor, self.anchor + min_of(self.items().len() as int, MAX_SIZE as int) + 1)
    }

    /// Drawing the window of the innermost scope.
    pub open spec fn frame(self) -> Seq<OpView> {
        frame_ops(self.anchor, self.top().highlight, self.items().subrange(self.top().start, self.top().end))
    }

    /// The state after the terminal was given back because the session
    /// cannot go on: a session that still took keys has ended as
    /// cancelled; one that had ended is as it was.
    pub open spec fn released(self) -> PickerView {
        if self.browsing() {
            self.finished(FinishReason::Cancelled)
        } else {
            self
        }
    }

    /// What giving the terminal back does to it: it is restored if the
    /// session still held it, and left alone otherwise.
    pub open spec fn release_output(self) -> Seq<OpView> {
        if self.browsing() {
            leave_ops_spec(self.anchor)
        } else {
            Seq::empty()
        }
    }

    /// What `cmd` does to the terminal.  A command that applies erases the
    /// rows of the scope it was given in; then the scope that is innermost
    /// afterwards is drawn, or, where the session ends, the terminal is
    /// restored.
    pub open spec fn output(self, cmd: Command) -> Seq<OpView> {
        if !self.applies(cmd) {
            Seq::empty()
        } else if self.next(cmd).browsing() {
            self.cleared() + self.next(cmd).frame()
        } else {
            self.cleared() + leave_ops_spec(self.anchor)
        }
    }
}

/// Every command keeps the invariant of a session.
pub proof fn lemma_next_wf(s: PickerView, cmd: Command)
    requires
        s.wf(),
    ensures
        s.next(cmd).wf(),
{
    let n = s.scopes.len() as int;
    let after = s.next(cmd);
    if s.applies(cmd) {
        let len = s.items().len() as int;
        let selected = s.top().selected;
        let trail = s.trail();
        assert(s.scope_ok(n - 1));
        assert(trail.take(n - 1) =~= trail.drop_last());
        assert(trail =~= trail.drop_last().push(selected));
        lemma_path_push(s.root, trail.drop_last(), selected);
        match cmd {
            Command::Down | Command::Up => {
                assert(after.trail().drop_last() =~= trail.drop_last());
                assert forall|d: int| 0 <= d < n implies #[trigger] after.scope_ok(d) by {
                    assert(s.scope_ok(d));
                    assert(after.trail().take(d) =~= trail.take(d));
                }
            },
            Command::Descend => {
                assert(after.trail().drop_last() =~= trail);
                assert forall|d: int| 0 <= d < n + 1 implies #[trigger] after.scope_ok(d) by {
                    if d < n {
                        assert(s.scope_ok(d));
                        assert(after.trail().take(d) =~= trail.take(d));
                    } else {
                        assert(after.trail().take(d) =~= trail);
                    }
                }
            },
            Command::Ascend => {
                if n > 1 {
                    assert(after.trail() =~= trail.drop_last());
                    lemma_path_prefix(s.root, trail.drop_last(), n - 2);
                    assert(after.trail().drop_last() =~= trail.drop_last().take(n - 2));
                    assert forall|d: int| 0 <= d < n - 1 implies #[trigger] after.scope_ok(d) by {
                        assert(s.scope_ok(d));
                        assert(after.trail().take(d) =~= trail.take(d));
                    }
                }
            },
            Command::Toggle => {
                assert(after.trail() == trail);
                lemma_toggled_at(s.root, trail, trail.drop_last());
                assert forall|d: int| 0 <= d < n implies #[trigger] after.scope_ok(d) by {
                    assert(s.scope_ok(d));
                    lemma_path_prefix(s.root, trail, d);
                    lemma_toggled_at(s.root, trail, trail.take(d));
                    if d < n - 1 {
                        lemma_path_prefix(s.root, trail, d + 1);
                        lemma_toggled_at(s.root, trail, trail.take(d + 1));
                        assert(trail.take(d + 1) =~= trail.take(d).push(trail[d]));
                        lemma_path_push(s.root, trail.take(d), trail[d]);
                        lemma_path_push(after.root, trail.take(d), trail[d]);
                    }
                }
            },
            _ => {},
        }
    }
}

/// No command changes the shape of the tree: a tree in which only
/// directories have children stays one.
pub proof fn lemma_next_keeps_tree(s: PickerView, cmd: Command)
    requires
        s.wf(),
        s.root.wf(),
    ensures
        s.next(cmd).root.wf(),
{
    if s.applies(cmd) && cmd == Command::Toggle {
        let n = s.scopes.len() as int;
        let trail = s.trail();
        assert(s.scope_ok(n - 1));
        assert(trail.take(n - 1) =~= trail.drop_last());
        assert(trail =~= trail.drop_last().push(s.top().selected));
        lemma_path_push(s.root, trail.drop_last(), s.top().selected);
        lemma_toggled_wf(s.root, trail);
    }
}

/// Toggling the highlighted entry twice leaves the session as it was.
pub proof fn lemma_toggle_twice(s: PickerView)
    requires
        s.wf(),
    ensures
        s.next(Command::Toggle).next(Command::Toggle) == s,
{
    if s.applies(Command::Toggle) {
        let n = s.scopes.len() as int;
        let trail = s.trail();
        let once = s.next(Command::Toggle);
        assert(s.scope_ok(n - 1));
        assert(trail.take(n - 1) =~= trail.drop_last());
        assert(trail =~= trail.drop_last().push(s.top().selected));
        lemma_path_push(s.root, trail.drop_last(), s.top().selected);
        lemma_toggled_at(s.root, trail, trail.take(n - 1));
        lemma_toggled_twice(s.root, trail);
        assert(once.applies(Command::Toggle));
    }
}

/// Opening the highlighted directory puts a new scope over its children
/// with the cursor on the first of them, and leaving it again gives back
/// the session as it was: the scope above has kept its cursor and window.
pub proof fn lemma_descend_then_ascend(s: PickerView)
    requires
        s.wf(),
        s.applies(Command::Descend),
    ensures
        s.next(Command::Descend).scopes.len() == s.scopes.len() + 1,
        s.next(Command::Descend).top() == scope_at(0, s.items()[s.top().selected].children.len() as int),
        s.next(Command::Descend).items() == s.items()[s.top().selected].children,
        s.next(Command::Descend).next(Command::Ascend) == s,
{
    let n = s.scopes.len() as int;
    let trail = s.trail();
    let inner = s.next(Command::Descend);
    assert(s.scope_ok(n - 1));
    assert(trail.take(n - 1) =~= trail.drop_last());
    assert(trail =~= trail.drop_last().push(s.top().selected));
    lemma_path_push(s.root, trail.drop_last(), s.top().selected);
    assert(inner.trail().take(n) =~= trail);
    assert(inner.scopes.drop_last() =~= s.scopes);
}

/// The interrupt key ends a session at any depth: no scope stays open, the
/// reason is `Cancelled`, and the terminal is restored once.  After that
/// no key does anything.
pub proof fn lemma_abort_ends_session(s: PickerView, later: Command)
    requires
        s.wf(),
        s.browsing(),
    ensures
        s.next(Command::Abort).status == Status::Finished(FinishReason::Cancelled),
        s.next(Command::Abort).scopes.len() == 0,
        s.output(Command::Abort) == s.cleared() + leave_ops_spec(s.anchor),
        count_of(s.output(Command::Abort), OpView::ShowCursor) == 1,
        count_of(s.output(Command::Abort), OpView::DisableRawMode) == 1,
        s.next(Command::Abort).next(later) == s.next(Command::Abort),
        s.next(Command::Abort).output(later).len() == 0,
{
    let end = s.anchor + min_of(s.items().len() as int, MAX_SIZE as int) + 1;
    lemma_leave_ops_restore(s.anchor);
    lemma_clear_ops_kinds(s.anchor, end, OpView::ShowCursor);
    lemma_clear_ops_kinds(s.anchor, end, OpView::DisableRawMode);
    lemma_count_concat(s.cleared(), leave_ops_spec(s.anchor), OpView::ShowCursor);
    lemma_count_concat(s.cleared(), leave_ops_spec(s.anchor), OpView::DisableRawMode);
}

/// The session after a run of commands, with everything that the run did
/// to the terminal.
pub open spec fn run(s: PickerView, cmds: Seq<Command>) -> (PickerView, Seq<OpView>)
    decreases cmds.len(),
{
    if cmds.len() == 0 {
        (s, Seq::empty())
    } else {
        let (before, ops) = run(s, cmds.drop_last());
        (before.next(cmds.last()), ops + before.output(cmds.last()))
    }
}

/// Whatever keys come, the terminal is restored exactly when the session
/// ends, and only once: a run that leaves the session open has not shown
/// the cursor nor left raw mode, and a run that ends it has done each
/// once.
pub proof fn lemma_restored_once(s: PickerView, cmds: Seq<Command>)
    requires
        s.wf(),
        s.browsing(),
    ensures
        run(s, cmds).0.wf(),
        count_of(run(s, cmds).1, OpView::ShowCursor) == if run(s, cmds).0.browsing() {
            0nat
        } else {
            1nat
        },
        count_of(run(s, cmds).1, OpView::DisableRawMode) == if run(s, cmds).0.browsing() {
            0nat
        } else {
            1nat
        },
    decreases cmds.len(),
{
    if cmds.len() > 0 {
        let cmd = cmds.last();
        lemma_restored_once(s, cmds.drop_last());
        let (before, ops) = run(s, cmds.drop_last());
        lemma_next_wf(before, cmd);
        let after = before.next(cmd);
        let out = before.output(cmd);
        lemma_count_concat(ops, out, OpView::ShowCursor);
        lemma_count_concat(ops, out, OpView::DisableRawMode);
        if before.applies(cmd) {
            let end = before.anchor + min_of(before.items().len() as int, MAX_SIZE as int) + 1;
            lemma_clear_ops_kinds(before.anchor, end, OpView::ShowCursor);
            lemma_clear_ops_kinds(before.anchor, end, OpView::DisableRawMode);
            if after.browsing() {
                let visible = after.items().subrange(after.top().start, after.top().end);
                lemma_frame_ops_kinds(after.anchor, after.top().highlight, visible, OpView::ShowCursor);
                lemma_frame_ops_kinds(after.anchor, after.top().highlight, visible, OpView::DisableRawMode);
                lemma_count_concat(before.cleared(), after.frame(), OpView::ShowCursor);
                lemma_count_concat(before.cleared(), after.frame(), OpView::DisableRawMode);
            } else {
                lemma_leave_ops_restore(before.anchor);
                lemma_count_concat(before.cleared(), leave_ops_spec(before.anchor), OpView::ShowCursor);
                lemma_count_concat(before.cleared(), leave_ops_spec(before.anchor), OpView::DisableRawMode);
            }
        }
    }
}

/// However a session ends, by a key or because it cannot go on, the
/// terminal has been restored exactly once when it was given back: after
/// any run of commands and a release, the cursor was shown once and raw
/// mode was left once, and a second release does nothing.
pub proof fn lemma_released_once(s: PickerView, cmds: Seq<Command>)
    requires
        s.wf(),
        s.browsing(),
    ensures
        !run(s, cmds).0.released().browsing(),
        count_of(run(s, cmds).1 + run(s, cmds).0.release_output(), OpView::ShowCursor) == 1,
        count_of(run(s, cmds).1 + run(s, cmds).0.release_output(), OpView::DisableRawMode) == 1,
        run(s, cmds).0.released().release_output().len() == 0,
{
    let (end, ops) = run(s, cmds);
    lemma_restored_once(s, cmds);
    lemma_leave_ops_restore(end.anchor);
    lemma_count_concat(ops, end.release_output(), OpView::ShowCursor);
    lemma_count_concat(ops, end.release_output(), OpView::DisableRawMode);
}

/// In an empty directory the window is empty and nothing is drawn.
pub proof fn lemma_empty_directory(s: PickerView)
    requires
        s.wf(),
        s.browsing(),
        s.items().len() == 0,
    ensures
        s.top().start == s.top().end,
        s.frame().len() == 0,
{
    assert(s.scope_ok(s.scopes.len() - 1));
}

/// One open directory level: the cursor position in its list and the
/// window that was last computed for it.
#[derive(Clone, Copy, Debug, PartialEq, Eq, Structural)]
pub struct Scope {
    pub selected: usize,
    pub start: usize,
    pub end: usize,
    pub highlight: usize,
}

impl View for Scope {
    type V = ScopeView;

    open spec fn view(&self) -> ScopeView {
        ScopeView {
            selected: self.selected as int,
            start: self.start as int,
            end: self.end as int,
            highlight: self.highlight as int,
        }
    }
}

/// The models of a stack of scopes.
pub open spec fn scopes_view(scopes: Seq<Scope>) -> Seq<ScopeView> {
    scopes.map_values(|s: Scope| s@)
}

fn make_scope(selected: usize, len: usize) -> (scope: Scope)
    ensures
        scope@ == scope_at(selected as int, len as int),
{
    let (range, highlight) = calculate_table(selected, MAX_SIZE, len);
    Scope { selected, start: range.start, end: range.end, highlight }
}

/// A picker session: the tree, the stack of open scopes, and whether the
/// session still takes keys.  While it does, the terminal is held in raw
/// mode; the operations that end the session give it back.
pub struct Picker {
    root: Node,
    scopes: Vec<Scope>,
    status: Status,
    anchor: u16,
}

impl View for Picker {
    type V = PickerView;

    closed spec fn view(&self) -> PickerView {
        PickerView {
            root: self.root@,
            scopes: scopes_view(self.scopes@),
            status: self.status,
            anchor: self.anchor as int,
        }
    }
}

impl Picker {
    /// Starts a session on `root` with the first entry drawn at row
    /// `anchor`, and gives the operations that draw the first frame.
    pub fn open(root: Node, anchor: u16) -> (res: (Picker, Vec<TermOp>))
        requires
            anchor + MAX_SIZE + 1 <= u16::MAX,
        ensures
            res.0@ == PickerView::initial(root@, anchor as int),
            res.0@.wf(),
            ops_view(res.1@) == res.0@.frame(),
    {
        let first = make_scope(0, root.children().len());
        let mut scopes: Vec<Scope> = Vec::new();
        scopes.push(first);
        let picker = Picker { root, scopes, status: Status::Browsing, anchor };
        proof {
            let s = picker@;
            assert(s.scopes =~= seq![scope_at(0, root@.children.len() as int)]);
            assert(s.trail().drop_last() =~= Seq::<int>::empty());
            assert(s.trail().take(0) =~= Seq::<int>::empty());
            assert(s.scope_ok(0));
        }
        let ops = picker.draw();
        (picker, ops)
    }

    /// Whether the session still takes keys, or why it ended.
    pub fn status(&self) -> (status: Status)
        ensures
            status == self@.status,
    {
        self.status
    }

    /// The number of open scopes.
    pub fn depth(&self) -> (depth: usize)
        ensures
            depth == self@.scopes.len(),
    {
        self.scopes.len()
    }

    /// The innermost scope, if the session still has one.
    pub fn scope(&self) -> (scope: Option<Scope>)
        ensures
            scope is Some <==> self@.scopes.len() > 0,
            scope matches Some(s) ==> s@ == self@.top(),
    {
        let n = self.scopes.len();
        if n == 0 {
            None
        } else {
            Some(self.scopes[n - 1])
        }
    }

    /// The tree.
    pub fn root(&self) -> (root: &Node)
        ensures
            root@ == self@.root,
    {
        &self.root
    }

    /// Ends the use of the picker and hands the tree out.
    pub fn into_root(self) -> (root: Node)
        ensures
            root@ == self@.root,
    {
        self.root
    }

    fn trail(&self, count: usize) -> (path: Vec<usize>)
        requires
            count <= self.scopes@.len(),
        ensures
            indices(path@) == self@.trail().take(count as int),
    {
        let mut path: Vec<usize> = Vec::new();
        let mut i: usize = 0;
        assert(indices(path@) =~= self@.trail().take(0));
        while i < count
            invariant
                i <= count <= self.scopes@.len(),
                indices(path@) == self@.trail().take(i as int),
            decreases count - i,
        {
            let ghost shorter = path@;
            path.push(self.scopes[i].selected);
            proof {
                assert(self@.trail()[i as int] == self.scopes@[i as int].selected as int);
                assert(indices(path@) =~= indices(shorter).push(self.scopes@[i as int].selected as int));
                assert(self@.trail().take(i as int + 1) =~= self@.trail().take(i as int).push(
                    self@.trail()[i as int],
                ));
            }
            i = i + 1;
        }
        path
    }

    fn items(&self) -> (items: &Vec<Node>)
        requires
            self@.wf(),
            self@.browsing(),
        ensures
            trees(items@) == self@.items(),
    {
        let n = self.scopes.len();
        let path = self.trail(n - 1);
        proof {
            assert(self@.trail().take(n - 1) =~= self@.trail().drop_last());
        }
        match self.root.node_at(&path) {
            Some(dir) => dir.children(),
            None => unreached(),
        }
    }

    fn draw(&self) -> (ops: Vec<TermOp>)
        requires
            self@.wf(),
            self@.browsing(),
        ensures
            ops_view(ops@) == self@.frame(),
    {
        let n = self.scopes.len();
        let top = self.scopes[n - 1];
        let items = self.items();
        proof {
            assert(self@.scope_ok(n - 1));
            lemma_window_bounds(top.selected as int, MAX_SIZE as int, items@.len() as int);
        }
        let visible = &items.as_slice()[top.start..top.end];
        proof {
            assert(trees(visible@) =~= trees(items@).subrange(top.start as int, top.end as int));
        }
        print_range(self.anchor, top.highlight, visible)
    }

    fn erase(&self) -> (ops: Vec<TermOp>)
        requires
            self@.wf(),
            self@.browsing(),
        ensures
            ops_view(ops@) == self@.cleared(),
    {
        let len = self.items().len();
        let size: u16 = if len < MAX_SIZE {
            len as u16
        } else {
            MAX_SIZE as u16
        };
        clear_terminal(self.anchor, self.anchor + size + 1)
    }

    fn finish(&mut self, reason: FinishReason)
        ensures
            final(self)@ == old(self)@.finished(reason),
    {
        self.scopes = Vec::new();
        self.status = Status::Finished(reason);
        assert(self@.scopes =~= Seq::<ScopeView>::empty());
    }

    fn move_to(&mut self, selected: usize, len: usize)
        requires
            old(self)@.scopes.len() > 0,
            len == old(self)@.items().len(),
        ensures
            final(self)@ == old(self)@.moved_to(selected as int),
    {
        let scope = make_scope(selected, len);
        self.scopes.pop();
        self.scopes.push(scope);
        assert(self@.scopes =~= old(self)@.scopes.drop_last().push(scope@));
    }

    /// Takes one key event: moves to the state that follows and gives the
    /// operations that bring the screen up to date.
    pub fn step(&mut self, input: &KeyInput) -> (ops: Vec<TermOp>)
        requires
            old(self)@.wf(),
        ensures
            final(self)@.wf(),
            final(self)@ == old(self)@.next(command_of(*input)),
            ops_view(ops@) == old(self)@.output(command_of(*input)),
    {
        let cmd = classify(input);
        let ghost before = self@;
        proof {
            lemma_next_wf(before, cmd);
        }
        let mut ops: Vec<TermOp> = Vec::new();
        assert(ops_view(ops@) =~= Seq::<OpView>::empty());
        match self.status {
            Status::Finished(_) => {
                return ops;
            },
            Status::Browsing => {},
        }
        let n = self.scopes.len();
        let top = self.scopes[n - 1];
        assert(before.scope_ok(n - 1));
        let items = self.items();
        let len = items.len();
        let on_dir = len > 0 && items[top.selected].is_dir();
        let below = if len > 0 {
            items[top.selected].children().len()
        } else {
            0
        };
        let applies = match cmd {
            Command::Abort | Command::Confirm | Command::Ascend => true,
            Command::Down | Command::Up | Command::Toggle => len > 0,
            Command::Descend => on_dir,
            Command::Ignore => false,
        };
        if !applies {
            return ops;
        }
        let erased = self.erase();
        append_ops(&mut ops, erased);
        match cmd {
            Command::Abort => {
                self.finish(FinishReason::Cancelled);
            },
            Command::Confirm => {
                self.finish(FinishReason::Confirmed);
            },
            Command::Down => {
                let target = if top.selected + 1 == len {
                    0
                } else {
                    top.selected + 1
                };
                proof {
                    if top.selected + 1 == len {
                        lemma_mod_self_0(len as int);
                    } else {
                        lemma_small_mod((top.selected + 1) as nat, len as nat);
                    }
                }
                self.move_to(target, len);
            },
            Command::Up => {
                let target = if top.selected == 0 {
                    len - 1
                } else {
                    top.selected - 1
                };
                proof {
                    if top.selected == 0 {
                        lemma_small_mod((len - 1) as nat, len as nat);
                    } else {
                        lemma_mod_add_multiples_vanish(top.selected - 1, len as int);
                        lemma_small_mod((top.selected - 1) as nat, len as nat);
                    }
                }
                self.move_to(target, len);
            },
            Command::Descend => {
                let scope = make_scope(0, below);
                self.scopes.push(scope);
                assert(self@.scopes =~= before.scopes.push(scope@));
            },
            Command::Ascend => {
                if n > 1 {
                    self.scopes.pop();
                    assert(self@.scopes =~= before.scopes.drop_last());
                } else {
                    self.finish(FinishReason::Cancelled);
                }
            },
            Command::Toggle => {
                let path = self.trail(n);
                proof {
                    assert(before.trail().take(n as int) =~= before.trail());
                    assert(before.trail().take(n - 1) =~= before.trail().drop_last());
                    assert(before.trail() =~= before.trail().drop_last().push(top.selected as int));
                    lemma_path_push(before.root, before.trail().drop_last(), top.selected as int);
                }
                self.root.toggle_at(&path);
            },
            Command::Ignore => {},
        }
        assert(self@ == before.next(cmd));
        match self.status {
            Status::Browsing => {
                let frame = self.draw();
                append_ops(&mut ops, frame);
            },
            Status::Finished(_) => {
                append_ops(&mut ops, leave_ops(self.anchor));
            },
        }
        ops
    }

    /// Gives the terminal back when the session cannot go on: ends a
    /// session that still takes keys as cancelled and gives the operations
    /// that restore the terminal.  A session that has ended already gave
    /// them: nothing is left to do.
    pub fn release(&mut self) -> (ops: Vec<TermOp>)
        requires
            old(self)@.wf(),
        ensures
            final(self)@.wf(),
            final(self)@ == old(self)@.released(),
            ops_view(ops@) == old(self)@.release_output(),
    {
        match self.status {
            Status::Browsing => {
                self.finish(FinishReason::Cancelled);
                leave_ops(self.anchor)
            },
            Status::Finished(_) => {
                let ops: Vec<TermOp> = Vec::new();
                assert(ops_view(ops@) =~= Seq::<OpView>::empty());
                ops
            },
        }
    }
}

} // verus!
