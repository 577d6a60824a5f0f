//! The commits offered for reverting, read from the log.

use crate::text::{chars_of, first_index, lines, lines_of, position, texts};
use vstd::prelude::*;
use vstd::string::StrSliceExecFns;
use vstd::string::StringExecFns;

verus! {

/// One commit of the log.
#[derive(Clone, Debug, PartialEq, Eq)]
pub struct Commit {
    pub hash: String,
    pub message: String,
}

/// The model of a [`Commit`].
pub struct CommitView {
    pub hash: Seq<char>,
    pub message: Seq<char>,
}

impl View for Commit {
    type V = CommitView;

    open spec fn view(&self) -> CommitView {
        CommitView { hash: self.hash@, message: self.message@ }
    }
}

/// The character that separates the fields of a log line.
pub open spec fn field_separator() -> char {
    '\0'
}

/// The commit on a log line: the hash is what stands before the first
/// separator, the message what stands between it and the next one, or the
/// end of the line.  A line without a separator holds no commit.
pub open spec fn commit_on(line: Seq<char>) -> Option<CommitView> {
    let k = first_index(line, field_separator());
    if k >= line.len() {
        None
    } else {
        let rest = line.skip(k + 1);
        Some(CommitView { hash: line.take(k), message: rest.take(first_index(rest, field_separator())) })
    }
}

/// The commits on the given lines, if each line holds one.
pub open spec fn commits_on(lines: Seq<Seq<char>>) -> Option<Seq<CommitView>>
    decreases lines.len(),
{
    if lines.len() == 0 {
        Some(Seq::empty())
    } else {
        match (commits_on(lines.drop_last()), commit_on(lines.last())) {
            (Some(before), Some(last)) => Some(before.push(last)),
            _ => None,
        }
    }
}

/// The models of a list of commits.
pub open spec fn commit_views(commits: Seq<Commit>) -> Seq<CommitView> {
    commits.map_values(|c: Commit| c@)
}

impl Commit {
    /// What a commit is listed as: its message.
    pub fn label(&self) -> (label: &str)
        ensures
            label@ == self.message@,
    {
        self.message.as_str()
    }

    /// The arguments that ask git to revert this commit without
    /// committing.
    pub fn revert_arguments(&self) -> (args: Vec<String>)
        ensures
            texts(args@) == seq!["revert"@, "--no-commit"@, self.hash@, "-m"@],
    {
        let mut args: Vec<String> = Vec::new();
        args.push(String::from_str("revert"));
        args.push(String::from_str("--no-commit"));
        args.push(self.hash.clone());
        args.push(String::from_str("-m"));
        assert(texts(args@) =~= seq!["revert"@, "--no-commit"@, self.hash@, "-m"@]);
        args
    }

    /// The message of the commit that reverts this one: the subject, an
    /// empty line, and the commit that is undone.
    pub fn revert_message(&self) -> (message: String)
        ensures
            message@ == "revert: \""@ + self.message@ + "\""@ + "\n\n"@ + "This reverts commit: "@
                + self.hash@,
    {
        let (subject, body) = self.revert_notice();
        let mut message = subject;
        message.append("\n\n");
        message.append(body.as_str());
        assert(message@ =~= "revert: \""@ + self.message@ + "\""@ + "\n\n"@ + "This reverts commit: "@
            + self.hash@);
        message
    }

    /// The two lines that announce the revert: its subject and the commit
    /// it undoes.
    pub fn revert_notice(&self) -> (lines: (String, String))
        ensures
            lines.0@ == "revert: \""@ + self.message@ + "\""@,
            lines.1@ == "This reverts commit: "@ + self.hash@,
    {
        let mut subject = String::from_str("revert: \"");
        subject.append(self.message.as_str());
        subject.append("\"");
        let mut body = String::from_str("This reverts commit: ");
        body.append(self.hash.as_str());
        (subject, body)
    }
}

/// Reads the commit on one line of the log.
pub fn parse_log_line(line: &str) -> (commit: Option<Commit>)
    ensures
        (match commit {
            Some(c) => Some(c@),
            None => None,
        }) == commit_on(line@),
{
    let chars = chars_of(line);
    let n = chars.len();
    let first = position(&chars, 0, '\0');
    proof {
        assert(line@.skip(0) =~= line@);
    }
    if first >= n {
        return None;
    }
    let second = position(&chars, first + 1, '\0');
    let hash = String::from_str(line.substring_char(0, first));
    let message = String::from_str(line.substring_char(first + 1, second));
    proof {
        let rest = line@.skip(first as int + 1);
        assert(line@.subrange(0, first as int) =~= line@.take(first as int));
        assert(line@.subrange(first as int + 1, second as int) =~= rest.take(second - first - 1));
    }
    Some(Commit { hash, message })
}

/// Reads the commits of a log, one per line.  Nothing is read where a line
/// holds no commit.
pub fn parse_log(output: &str) -> (commits: Option<Vec<Commit>>)
    ensures
        (match commits {
            Some(list) => Some(commit_views(list@)),
            None => None,
        }) == commits_on(lines_of(output@)),
{
    let all = lines(output);
    let ghost rows = texts(all@);
    let mut commits: Vec<Commit> = Vec::new();
    let mut i: usize = 0;
    assert(rows.take(0) =~= Seq::<Seq<char>>::empty());
    assert(commit_views(commits@) =~= Seq::<CommitView>::empty());
    while i < all.len()
        invariant
            i <= all.len(),
            rows == texts(all@),
            rows == lines_of(output@),
            commits_on(rows.take(i as int)) == Some(commit_views(commits@)),
        decreases all.len() - i,
    {
        let ghost before = commit_views(commits@);
        proof {
            assert(rows.take(i as int + 1).drop_last() =~= rows.take(i as int));
            assert(rows.take(i as int + 1).last() == all@[i as int]@);
        }
        match parse_log_line(all[i].as_str()) {
            Some(commit) => {
                commits.push(commit);
                assert(commit_views(commits@) =~= before.push(commit@));
            },
            None => {
                proof {
                    lemma_commits_on_prefix(rows, i as int + 1);
                }
                return None;
            },
        }
        i = i + 1;
    }
    assert(rows.take(i as int) =~= rows);
    Some(commits)
}

/// Where the first lines of a log hold no list of commits, the whole log
/// holds none.
pub proof fn lemma_commits_on_prefix(lines: Seq<Seq<char>>, k: int)
    requires
        0 <= k <= lines.len(),
        commits_on(lines.take(k)) is None,
    ensures
        commits_on(lines) is None,
    decreases lines.len(),
{
    if k < lines.len() {
        assert(lines.drop_last().take(k) =~= lines.take(k));
        lemma_commits_on_prefix(lines.drop_last(), k);
    } else {
        assert(lines.take(k) =~= lines);
    }
}

} // verus!
