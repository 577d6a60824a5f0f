//! Writing a commit: which questions are asked, how the message is put
//! together from the answers, and how it is shown before it is confirmed.

use crate::pattern::{find_first, first_match, pattern_accepted, InvalidPattern};
use crate::text::{lines, lines_of, texts};
use vstd::prelude::*;
use vstd::string::StrSliceExecFns;
use vstd::string::StringExecFns;
use vstd::utf8::encode_utf8;

verus! {

/// One thing to do on the way to a commit message.
#[derive(Clone, Copy, Debug, PartialEq, Eq, Structural)]
pub enum CommitStep {
    /// Ask for the commit type.
    AskType,
    /// Ask for the scope.
    AskScope,
    /// Look up the name of the current branch, for the ticket.
    ReadBranch,
    /// Ask for the subject line.
    AskSubject,
    /// Ask for the body.
    AskBody,
    /// Ask whether the change is a breaking one.
    AskBreaking,
    /// Ask what breaks.
    AskBreakingDescription,
    /// Show the message and ask whether to commit.
    AskConfirm,
    /// Nothing is left to ask.
    Done,
}

/// The first step: the type, where commits follow the convention; else
/// the branch, where tickets are noted; else the subject.
pub open spec fn first_step(conventional: bool, ticket_suffix: bool) -> CommitStep {
    if conventional {
        CommitStep::AskType
    } else if ticket_suffix {
        CommitStep::ReadBranch
    } else {
        CommitStep::AskSubject
    }
}

/// The step that follows `step`, where `breaking` is the answer to
/// [`CommitStep::AskBreaking`] once it was given.
pub open spec fn step_after(conventional: bool, ticket_suffix: bool, step: CommitStep, breaking: bool) -> CommitStep {
    match step {
        CommitStep::AskType => CommitStep::AskScope,
        CommitStep::AskScope => if ticket_suffix {
            CommitStep::ReadBranch
        } else {
            CommitStep::AskSubject
        },
        CommitStep::ReadBranch => CommitStep::AskSubject,
        CommitStep::AskSubject => if conventional {
            CommitStep::AskBody
        } else {
            CommitStep::AskConfirm
        },
        CommitStep::AskBody => CommitStep::AskBreaking,
        CommitStep::AskBreaking => if breaking {
            CommitStep::AskBreakingDescription
        } else {
            CommitStep::AskConfirm
        },
        CommitStep::AskBreakingDescription => CommitStep::AskConfirm,
        CommitStep::AskConfirm => CommitStep::Done,
        CommitStep::Done => CommitStep::Done,
    }
}

/// How far a step is from the end.
pub open spec fn steps_left(step: CommitStep) -> nat {
    match step {
        CommitStep::AskType => 8,
        CommitStep::AskScope => 7,
        CommitStep::ReadBranch => 6,
        CommitStep::AskSubject => 5,
        CommitStep::AskBody => 4,
        CommitStep::AskBreaking => 3,
        CommitStep::AskBreakingDescription => 2,
        CommitStep::AskConfirm => 1,
        CommitStep::Done => 0,
    }
}

/// Every step leads nearer to the end: the questions come to an end.
pub proof fn lemma_steps_end(conventional: bool, ticket_suffix: bool, step: CommitStep, breaking: bool)
    requires
        step != CommitStep::Done,
    ensures
        steps_left(step_after(conventional, ticket_suffix, step, breaking)) < steps_left(step),
{
}

/// The first thing to do.
pub fn first_commit_step(conventional: bool, ticket_suffix: bool) -> (step: CommitStep)
    ensures
        step == first_step(conventional, ticket_suffix),
{
    if conventional {
        CommitStep::AskType
    } else if ticket_suffix {
        CommitStep::ReadBranch
    } else {
        CommitStep::AskSubject
    }
}

/// The thing to do after `step`.
pub fn next_commit_step(conventional: bool, ticket_suffix: bool, step: CommitStep, breaking: bool) -> (next:
    CommitStep)
    ensures
        next == step_after(conventional, ticket_suffix, step, breaking),
{
    match step {
        CommitStep::AskType => CommitStep::AskScope,
        CommitStep::AskScope => if ticket_suffix {
            CommitStep::ReadBranch
        } else {
            CommitStep::AskSubject
        },
        CommitStep::ReadBranch => CommitStep::AskSubject,
        CommitStep::AskSubject => if conventional {
            CommitStep::AskBody
        } else {
            CommitStep::AskConfirm
        },
        CommitStep::AskBody => CommitStep::AskBreaking,
        CommitStep::AskBreaking => if breaking {
            CommitStep::AskBreakingDescription
        } else {
            CommitStep::AskConfirm
        },
        CommitStep::AskBreakingDescription => CommitStep::AskConfirm,
        CommitStep::AskConfirm => CommitStep::Done,
        CommitStep::Done => CommitStep::Done,
    }
}

/// The commit type with the scope in brackets behind it, where a scope was
/// given.
pub open spec fn type_and_scope(commit_type: Seq<char>, scope: Seq<char>) -> Seq<char> {
    if scope.len() == 0 {
        commit_type
    } else {
        commit_type + "("@ + scope + ")"@
    }
}

/// The pattern of a ticket: capital letters, a hyphen, digits.
pub open spec fn ticket_pattern() -> Seq<char> {
    "[A-Z]+-[0-9]+"@
}

/// The note behind the subject that names the ticket, in brackets after a
/// space; nothing where no ticket was found.
pub open spec fn ticket_note(ticket: Option<Seq<char>>) -> Seq<char> {
    match ticket {
        Some(t) => " ("@ + t + ")"@,
        None => Seq::empty(),
    }
}

/// The answers a commit message is made of.
#[derive(Clone, Debug, PartialEq, Eq)]
pub struct CommitParts {
    /// Whether the message follows the convention of a typed header.
    pub conventional: bool,
    /// The type, with the scope if there is one.
    pub type_and_scope: String,
    pub subject: String,
    /// The note that names the ticket, or nothing.
    pub ticket: String,
    pub body: String,
    /// What breaks, if the change is a breaking one.
    pub breaking: Option<String>,
}

/// The message for the given answers.  A conventional message begins with
/// the type and scope, an exclamation mark if the change is a breaking
/// one, and a colon; after the subject and the ticket come, each after an
/// empty line, the body, if there is one, and the note on what breaks.  An
/// unconventional message is the subject and the ticket.
pub open spec fn message_of(
    conventional: bool,
    type_and_scope: Seq<char>,
    subject: Seq<char>,
    ticket: Seq<char>,
    body: Seq<char>,
    breaking: Option<Seq<char>>,
) -> Seq<char> {
    if conventional {
        let mark = if breaking is Some {
            "!"@
        } else {
            Seq::empty()
        };
        let text = if body.len() > 0 {
            "\n\n"@ + body
        } else {
            Seq::empty()
        };
        let footer = match breaking {
            Some(what) => "\n\nBREAKING CHANGE: "@ + what,
            None => Seq::empty(),
        };
        type_and_scope + mark + ": "@ + subject + ticket + text + footer
    } else {
        subject + ticket
    }
}

/// `piece` written `n` times.
pub open spec fn repeated(piece: Seq<char>, n: nat) -> Seq<char>
    decreases n,
{
    if n == 0 {
        Seq::empty()
    } else {
        repeated(piece, (n - 1) as nat) + piece
    }
}

/// The length of a line in bytes.
pub open spec fn byte_len(line: Seq<char>) -> nat {
    encode_utf8(line).len()
}

/// The greatest length in bytes among `lines`.
pub open spec fn widest(lines: Seq<Seq<char>>) -> nat
    decreases lines.len(),
{
    if lines.len() == 0 {
        0
    } else if widest(lines.drop_last()) >= byte_len(lines.last()) {
        widest(lines.drop_last())
    } else {
        byte_len(lines.last())
    }
}

/// A line of the box: the text between two bars, filled up with spaces to
/// `width` characters where it has fewer.
pub open spec fn box_row(line: Seq<char>, width: nat) -> Seq<char> {
    "│ "@ + line + repeated(" "@, if width > line.len() {
        (width - line.len()) as nat
    } else {
        0
    }) + " │"@
}

/// The rows of the box for `lines`, `width` wide.
pub open spec fn box_rows(lines: Seq<Seq<char>>, width: nat) -> Seq<Seq<char>> {
    lines.map_values(|line: Seq<char>| box_row(line, width))
}

/// The box around `lines`: an upper edge, a row per line, a lower edge.
/// The box is as wide as the longest line has bytes.
pub open spec fn boxed(lines: Seq<Seq<char>>) -> Seq<Seq<char>> {
    let width = widest(lines);
    seq!["┌"@ + repeated("─"@, width + 2) + "┐"@] + box_rows(lines, width) + seq![
        "└"@ + repeated("─"@, width + 2) + "┘"@,
    ]
}

fn repeat(piece: &str, n: usize) -> (res: String)
    ensures
        res@ == repeated(piece@, n as nat),
{
    let mut res = String::from_str("");
    let mut i: usize = 0;
    proof {
        reveal_strlit("");
        assert(res@ =~= repeated(piece@, 0));
    }
    while i < n
        invariant
            i <= n,
            res@ == repeated(piece@, i as nat),
        decreases n - i,
    {
        res.append(piece);
        i = i + 1;
    }
    res
}

/// Joins the commit type and the scope.
pub fn get_type_and_scope(commit_type: &str, scope: &str) -> (res: String)
    ensures
        res@ == type_and_scope(commit_type@, scope@),
{
    let mut res = String::from_str(commit_type);
    if !scope.is_empty() {
        res.append("(");
        res.append(scope);
        res.append(")");
    }
    res
}

/// The note that names the ticket `found` in the branch name.
pub fn ticket_suffix(found: Option<&str>) -> (note: String)
    ensures
        note@ == ticket_note(
            match found {
                Some(t) => Some(t@),
                None => None,
            },
        ),
{
    match found {
        Some(ticket) => {
            let mut note = String::from_str(" (");
            note.append(ticket);
            note.append(")");
            note
        },
        None => {
            proof {
                reveal_strlit("");
                assert(""@ =~= Seq::<char>::empty());
            }
            String::from_str("")
        },
    }
}

/// The note for the first ticket named in `branch`.
pub fn ticket_for(branch: &str) -> (res: Result<String, InvalidPattern>)
    ensures
        res is Ok <==> pattern_accepted(ticket_pattern()),
        res matches Ok(note) ==> note@ == ticket_note(first_match(ticket_pattern(), branch@)),
{
    match find_first("[A-Z]+-[0-9]+", branch) {
        Ok(Some(ticket)) => Ok(ticket_suffix(Some(ticket.as_str()))),
        Ok(None) => Ok(ticket_suffix(None)),
        Err(e) => Err(e),
    }
}

impl CommitParts {
    /// The message these answers make.
    pub open spec fn message(&self) -> Seq<char> {
        message_of(
            self.conventional,
            self.type_and_scope@,
            self.subject@,
            self.ticket@,
            self.body@,
            match self.breaking {
                Some(what) => Some(what@),
                None => None,
            },
        )
    }

    /// Puts the message together.
    pub fn compose(&self) -> (message: String)
        ensures
            message@ == self.message(),
    {
        if self.conventional {
            let mut message = self.type_and_scope.clone();
            let ghost start = message@;
            match &self.breaking {
                Some(_) => {
                    message.append("!");
                },
                None => {
                    assert(start =~= start + Seq::<char>::empty());
                },
            }
            message.append(": ");
            message.append(self.subject.as_str());
            message.append(self.ticket.as_str());
            let ghost head = message@;
            if !self.body.as_str().is_empty() {
                message.append("\n\n");
                message.append(self.body.as_str());
                assert(message@ =~= head + ("\n\n"@ + self.body@));
            } else {
                assert(head =~= head + Seq::<char>::empty());
            }
            let ghost upper = message@;
            match &self.breaking {
                Some(what) => {
                    message.append("\n\nBREAKING CHANGE: ");
                    message.append(what.as_str());
                    assert(message@ =~= upper + ("\n\nBREAKING CHANGE: "@ + what@));
                },
                None => {
                    assert(upper =~= upper + Seq::<char>::empty());
                },
            }
            message
        } else {
            let mut message = self.subject.clone();
            message.append(self.ticket.as_str());
            message
        }
    }
}

/// The lines that show `message` in a box.
pub fn print_in_box(message: &str) -> (rows: Vec<String>)
    ensures
        texts(rows@) == boxed(lines_of(message@)),
{
    let all = lines(message);
    let ghost content = texts(all@);
    let mut width: usize = 0;
    let mut i: usize = 0;
    assert(content.take(0) =~= Seq::<Seq<char>>::empty());
    while i < all.len()
        invariant
            i <= all.len(),
            content == texts(all@),
            width == widest(content.take(i as int)),
        decreases all.len() - i,
    {
        proof {
            assert(content.take(i as int + 1).drop_last() =~= content.take(i as int));
            assert(content.take(i as int + 1).last() == all@[i as int]@);
        }
        let len = all[i].as_str().as_bytes().len();
        if len > width {
            width = len;
        }
        i = i + 1;
    }
    assert(content.take(i as int) =~= content);
    let mut edge = repeat("─", width);
    edge.append("─");
    edge.append("─");
    proof {
        assert(repeated("─"@, (width + 2) as nat) == repeated("─"@, (width + 1) as nat) + "─"@);
        assert(repeated("─"@, (width + 1) as nat) == repeated("─"@, width as nat) + "─"@);
        assert(edge@ =~= repeated("─"@, (width + 2) as nat));
    }
    let mut rows: Vec<String> = Vec::new();
    let mut top = String::from_str("┌");
    top.append(edge.as_str());
    top.append("┐");
    rows.push(top);
    let ghost first = seq![top@];
    assert(texts(rows@) =~= first + box_rows(content.take(0), width as nat));
    let mut k: usize = 0;
    while k < all.len()
        invariant
            k <= all.len(),
            content == texts(all@),
            texts(rows@) == first + box_rows(content.take(k as int), width as nat),
        decreases all.len() - k,
    {
        let line = all[k].as_str();
        let count = line.unicode_len();
        let fill = if width > count {
            repeat(" ", width - count)
        } else {
            repeat(" ", 0)
        };
        let mut row = String::from_str("│ ");
        row.append(line);
        row.append(fill.as_str());
        row.append(" │");
        let ghost before = texts(rows@);
        rows.push(row);
        k = k + 1;
        proof {
            assert(row@ =~= box_row(line@, width as nat));
            assert(texts(rows@) =~= before.push(row@));
            assert(box_rows(content.take(k as int), width as nat) =~= box_rows(
                content.take(k as int - 1),
                width as nat,
            ).push(row@));
        }
    }
    assert(content.take(k as int) =~= content);
    let mut bottom = String::from_str("└");
    bottom.append(edge.as_str());
    bottom.append("┘");
    let ghost upper = texts(rows@);
    rows.push(bottom);
    proof {
        assert(texts(rows@) =~= upper.push(bottom@));
        assert(texts(rows@) =~= boxed(content));
    }
    rows
}

} // verus!
