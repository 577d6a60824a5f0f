//! What is read from and done to the repository, as plain values: changed
//! files with their state, what is to be done to the index for the ones
//! that were chosen, and the local branches.

use crate::render::{spans, Colour, Span, SpanView};
use vstd::prelude::*;
use vstd::string::StringExecFns;

verus! {

/// The status bits of a file, as git numbers them.
pub const INDEX_NEW: u32 = 1;

pub const INDEX_MODIFIED: u32 = 2;

pub const INDEX_DELETED: u32 = 4;

pub const WT_NEW: u32 = 128;

pub const WT_MODIFIED: u32 = 256;

pub const WT_DELETED: u32 = 512;

/// A file that differs from what is recorded, with its status bits.
#[derive(Clone, Debug, PartialEq, Eq)]
pub struct Change {
    pub path: String,
    pub status: u32,
}

/// Whether all bits of `flag` are set in `status`.
pub open spec fn has_all(status: u32, flag: u32) -> bool {
    status & flag == flag
}

/// Whether a bit of `mask` is set in `status`.
pub open spec fn has_any(status: u32, mask: u32) -> bool {
    status & mask != 0
}

/// Whether the file differs in the working tree: new, modified or deleted
/// there.
pub open spec fn in_worktree(status: u32) -> bool {
    has_any(status, WT_NEW | WT_MODIFIED | WT_DELETED)
}

/// Whether the file differs in the index: new, modified or deleted there.
pub open spec fn in_index(status: u32) -> bool {
    has_any(status, INDEX_NEW | INDEX_MODIFIED | INDEX_DELETED)
}

/// The word for the state of a file in the working tree.  Where several
/// bits are set, new goes before modified and modified before deleted.
pub open spec fn status_word(status: u32) -> Seq<char> {
    if has_all(status, WT_NEW) {
        "new"@
    } else if has_all(status, WT_MODIFIED) {
        "modified"@
    } else if has_all(status, WT_DELETED) {
        "deleted"@
    } else {
        "?"@
    }
}

/// One status entry as read from the repository: the path, if it is valid
/// text, and the status bits.
pub struct StatusEntry {
    pub path: Option<String>,
    pub status: u32,
}

/// The entries of `entries` that have a path and whose status `keep`
/// accepts, as changes, in order.
pub open spec fn selected_changes(entries: Seq<StatusEntry>, keep: spec_fn(u32) -> bool) -> Seq<Change>
    decreases entries.len(),
{
    if entries.len() == 0 {
        Seq::empty()
    } else {
        let rest = selected_changes(entries.drop_last(), keep);
        let last = entries.last();
        match last.path {
            Some(path) => if keep(last.status) {
                rest.push(Change { path, status: last.status })
            } else {
                rest
            },
            None => rest,
        }
    }
}

/// What is done to the index for one chosen file.
#[derive(Clone, Debug, PartialEq, Eq)]
pub enum IndexAction {
    /// Take the path out of the index.
    Remove(String),
    /// Put the file at the path into the index.
    Add(String),
}

/// What is done to the index for `change`: a file whose status is exactly
/// "deleted in the working tree" is removed, any other is added.
pub open spec fn action_for(change: Change) -> IndexAction {
    if change.status == WT_DELETED {
        IndexAction::Remove(change.path)
    } else {
        IndexAction::Add(change.path)
    }
}

impl Change {
    /// The line that names this change: the word for its state, a colon,
    /// and the path.
    pub open spec fn description(&self) -> Seq<char> {
        status_word(self.status) + ": "@ + self.path@
    }

    /// The line that names this change.
    pub fn describe(&self) -> (line: String)
        ensures
            line@ == self.description(),
    {
        let word = if self.status & WT_NEW == WT_NEW {
            "new"
        } else if self.status & WT_MODIFIED == WT_MODIFIED {
            "modified"
        } else if self.status & WT_DELETED == WT_DELETED {
            "deleted"
        } else {
            "?"
        };
        let mut line = String::from_str(word);
        line.append(": ");
        line.append(self.path.as_str());
        line
    }
}

/// Sorts status entries into the files that differ in the working tree and
/// the files that differ in the index.  A file can be in both lists; an
/// entry without a path is in neither.
pub fn get_changes(entries: &Vec<StatusEntry>) -> (res: (Vec<Change>, Vec<Change>))
    ensures
        res.0@ == selected_changes(entries@, |s: u32| in_worktree(s)),
        res.1@ == selected_changes(entries@, |s: u32| in_index(s)),
{
    let mut untracked: Vec<Change> = Vec::new();
    let mut staged: Vec<Change> = Vec::new();
    let mut i: usize = 0;
    assert(entries@.take(0) =~= Seq::<StatusEntry>::empty());
    while i < entries.len()
        invariant
            i <= entries.len(),
            untracked@ == selected_changes(entries@.take(i as int), |s: u32| in_worktree(s)),
            staged@ == selected_changes(entries@.take(i as int), |s: u32| in_index(s)),
        decreases entries.len() - i,
    {
        proof {
            assert(entries@.take(i as int + 1).drop_last() =~= entries@.take(i as int));
        }
        let entry = &entries[i];
        match &entry.path {
            Some(path) => {
                let status = entry.status;
                if status & (WT_NEW | WT_MODIFIED | WT_DELETED) != 0 {
                    untracked.push(Change { path: path.clone(), status });
                }
                if status & (INDEX_NEW | INDEX_MODIFIED | INDEX_DELETED) != 0 {
                    staged.push(Change { path: path.clone(), status });
                }
            },
            None => {},
        }
        i = i + 1;
    }
    assert(entries@.take(i as int) =~= entries@);
    (untracked, staged)
}

/// What is to be done to the index for the chosen files, file by file.
pub fn add_files(selected_files: &Vec<Change>) -> (actions: Vec<IndexAction>)
    ensures
        actions@ == selected_files@.map_values(|c: Change| action_for(c)),
{
    let mut actions: Vec<IndexAction> = Vec::new();
    let mut i: usize = 0;
    while i < selected_files.len()
        invariant
            i <= selected_files.len(),
            actions@ == selected_files@.take(i as int).map_values(|c: Change| action_for(c)),
        decreases selected_files.len() - i,
    {
        let change = &selected_files[i];
        let action = if change.status == WT_DELETED {
            IndexAction::Remove(change.path.clone())
        } else {
            IndexAction::Add(change.path.clone())
        };
        actions.push(action);
        i = i + 1;
        assert(actions@ =~= selected_files@.take(i as int).map_values(|c: Change| action_for(c)));
    }
    assert(selected_files@.take(i as int) =~= selected_files@);
    actions
}

/// What is said, in place of a choice, when there is nothing to choose
/// from.
pub fn nothing_to_stage(changes: &Vec<Change>) -> (notice: Option<&'static str>)
    ensures
        changes@.len() == 0 ==> (notice matches Some(text) && text@ == "No untracked or modified files found."@),
        changes@.len() > 0 ==> notice is None,
{
    if changes.len() == 0 {
        Some("No untracked or modified files found.")
    } else {
        None
    }
}

/// What is said, in place of staging, when nothing was chosen.
pub fn nothing_selected(selected: &Vec<Change>) -> (notice: Option<&'static str>)
    ensures
        selected@.len() == 0 ==> (notice matches Some(text) && text@ == "No files selected."@),
        selected@.len() > 0 ==> notice is None,
{
    if selected.len() == 0 {
        Some("No files selected.")
    } else {
        None
    }
}

/// What is said, in place of a commit, when nothing is staged.
pub fn nothing_staged(staged: &Vec<Change>) -> (notice: Option<&'static str>)
    ensures
        staged@.len() == 0 ==> (notice matches Some(text) && text@ == "No staged files found."@),
        staged@.len() > 0 ==> notice is None,
{
    if staged.len() == 0 {
        Some("No staged files found.")
    } else {
        None
    }
}

/// A local branch.
#[derive(Clone, Debug, PartialEq, Eq)]
pub struct BranchInfo {
    pub name: String,
    pub is_current: bool,
    pub upstream: bool,
}

/// The name shown for a branch whose name is not valid text.
pub open spec fn unnamed() -> Seq<char> {
    "Unnamed branch"@
}

/// The line that lists a branch: a star in front of the current branch, the
/// name (green if current), and a red note where no upstream is set.
pub open spec fn branch_spans(name: Seq<char>, is_current: bool, upstream: bool) -> Seq<SpanView> {
    seq![
        SpanView {
            text: if is_current {
                "* "@
            } else {
                "  "@
            },
            colour: Colour::Plain,
        },
        SpanView {
            text: name,
            colour: if is_current {
                Colour::Green
            } else {
                Colour::Plain
            },
        },
        if upstream {
            SpanView { text: ""@, colour: Colour::Plain }
        } else {
            SpanView { text: " (no upstream)"@, colour: Colour::Red }
        },
    ]
}

impl BranchInfo {
    /// The entry for a branch called `name`, where `current` is the name
    /// of the branch that is checked out.  A branch without a name in valid
    /// text is listed as unnamed.
    pub fn new(name: Option<String>, upstream: bool, current: &Option<String>) -> (info: BranchInfo)
        ensures
            info.name@ == (match name {
                Some(n) => n@,
                None => unnamed(),
            }),
            info.upstream == upstream,
            info.is_current == (match *current {
                Some(c) => c@ == info.name@,
                None => false,
            }),
    {
        let name = match name {
            Some(n) => n,
            None => String::from_str("Unnamed branch"),
        };
        let is_current = match current {
            Some(c) => *c == name,
            None => false,
        };
        BranchInfo { name, is_current, upstream }
    }

    /// The line that lists this branch.
    pub fn line(&self) -> (line: Vec<Span>)
        ensures
            spans(line@) == branch_spans(self.name@, self.is_current, self.upstream),
    {
        let mut line: Vec<Span> = Vec::new();
        let mark = if self.is_current {
            "* "
        } else {
            "  "
        };
        line.push(Span { text: String::from_str(mark), colour: Colour::Plain });
        line.push(
            Span {
                text: self.name.clone(),
                colour: if self.is_current {
                    Colour::Green
                } else {
                    Colour::Plain
                },
            },
        );
        if self.upstream {
            line.push(Span { text: String::from_str(""), colour: Colour::Plain });
        } else {
            line.push(Span { text: String::from_str(" (no upstream)"), colour: Colour::Red });
        }
        assert(spans(line@) =~= branch_spans(self.name@, self.is_current, self.upstream));
        line
    }
}

} // verus!
