//! The configuration in sections: one for commits, one for branches.

use crate::text::texts;
use vstd::prelude::*;
use vstd::string::StringExecFns;

verus! {

/// The commit types offered when nothing else is configured.
pub open spec fn default_commit_types() -> Seq<Seq<char>> {
    seq![
        "build"@,
        "ci"@,
        "docs"@,
        "feat"@,
        "fix"@,
        "perf"@,
        "refactor"@,
        "style"@,
        "test"@,
        "revert"@,
    ]
}

/// The branch types offered when nothing else is configured.
pub open spec fn default_branch_types() -> Seq<Seq<char>> {
    seq!["feature"@, "bugfix"@, "hotfix"@, "release"@, "chore"@]
}

/// How commits are written.
#[derive(Clone, Debug, PartialEq, Eq)]
pub struct Commit {
    pub conventional_commits: bool,
    pub ticket_suffix: bool,
    pub types: Vec<String>,
}

/// How branches are named.
#[derive(Clone, Debug, PartialEq, Eq)]
pub struct Branch {
    pub conventional_branches: bool,
    pub types: Vec<String>,
}

/// The whole configuration.
#[derive(Clone, Debug, PartialEq, Eq)]
pub struct Config {
    pub commit: Commit,
    pub branch: Branch,
}

impl Commit {
    /// What a configuration is before anything was chosen.
    pub open spec fn is_default(&self) -> bool {
        &&& !self.conventional_commits
        &&& !self.ticket_suffix
        &&& texts(self.types@) == default_commit_types()
    }
}

impl Branch {
    /// What a configuration is before anything was chosen.
    pub open spec fn is_default(&self) -> bool {
        &&& !self.conventional_branches
        &&& texts(self.types@) == default_branch_types()
    }
}

impl Default for Commit {
    fn default() -> (commit: Commit)
        ensures
            commit.is_default(),
    {
        let mut types: Vec<String> = Vec::new();
        types.push(String::from_str("build"));
        types.push(String::from_str("ci"));
        types.push(String::from_str("docs"));
        types.push(String::from_str("feat"));
        types.push(String::from_str("fix"));
        types.push(String::from_str("perf"));
        types.push(String::from_str("refactor"));
        types.push(String::from_str("style"));
        types.push(String::from_str("test"));
        types.push(String::from_str("revert"));
        assert(texts(types@) =~= default_commit_types());
        Commit { conventional_commits: false, ticket_suffix: false, types }
    }
}

impl Default for Branch {
    fn default() -> (branch: Branch)
        ensures
            branch.is_default(),
    {
        let mut types: Vec<String> = Vec::new();
        types.push(String::from_str("feature"));
        types.push(String::from_str("bugfix"));
        types.push(String::from_str("hotfix"));
        types.push(String::from_str("release"));
        types.push(String::from_str("chore"));
        assert(texts(types@) =~= default_branch_types());
        Branch { conventional_branches: false, types }
    }
}

impl Default for Config {
    fn default() -> (config: Config)
        ensures
            config.commit.is_default(),
            config.branch.is_default(),
    {
        Config { commit: Commit::default(), branch: Branch::default() }
    }
}

/// One of the switches that the set-up asks about, in the order in which it
/// asks.
#[derive(Clone, Copy, Debug, PartialEq, Eq, Structural)]
pub enum Setting {
    ConventionalCommits,
    TicketSuffix,
    ConventionalBranches,
}

impl Setting {
    /// The question that is asked for this switch.
    pub open spec fn label_spec(self) -> Seq<char> {
        match self {
            Setting::ConventionalCommits => "Use conventional commits?"@,
            Setting::TicketSuffix => "Use ticket suffix?"@,
            Setting::ConventionalBranches => "Use conventional branches?"@,
        }
    }

    /// The position of this switch in `config`.
    pub open spec fn get_spec(self, config: Config) -> bool {
        match self {
            Setting::ConventionalCommits => config.commit.conventional_commits,
            Setting::TicketSuffix => config.commit.ticket_suffix,
            Setting::ConventionalBranches => config.branch.conventional_branches,
        }
    }

    /// The question that is asked for this switch.
    pub fn label(self) -> (label: &'static str)
        ensures
            label@ == self.label_spec(),
    {
        match self {
            Setting::ConventionalCommits => "Use conventional commits?",
            Setting::TicketSuffix => "Use ticket suffix?",
            Setting::ConventionalBranches => "Use conventional branches?",
        }
    }

    /// The position of this switch in `config`: the answer that is offered.
    pub fn get(self, config: &Config) -> (on: bool)
        ensures
            on == self.get_spec(*config),
    {
        match self {
            Setting::ConventionalCommits => config.commit.conventional_commits,
            Setting::TicketSuffix => config.commit.ticket_suffix,
            Setting::ConventionalBranches => config.branch.conventional_branches,
        }
    }

    /// Puts this switch of `config` in the position `on` and leaves
    /// everything else as it was.
    pub fn set(self, config: &mut Config, on: bool)
        ensures
            self.get_spec(*final(config)) == on,
            final(config).commit.types == old(config).commit.types,
            final(config).branch.types == old(config).branch.types,
            forall|other: Setting| other != self ==> other.get_spec(*final(config)) == other.get_spec(*old(config)),
    {
        match self {
            Setting::ConventionalCommits => {
                config.commit.conventional_commits = on;
            },
            Setting::TicketSuffix => {
                config.commit.ticket_suffix = on;
            },
            Setting::ConventionalBranches => {
                config.branch.conventional_branches = on;
            },
        }
    }
}

/// The switches that the set-up asks about, in order.
pub fn settings() -> (all: Vec<Setting>)
    ensures
        all@ == seq![Setting::ConventionalCommits, Setting::TicketSuffix, Setting::ConventionalBranches],
{
    let mut all: Vec<Setting> = Vec::new();
    all.push(Setting::ConventionalCommits);
    all.push(Setting::TicketSuffix);
    all.push(Setting::ConventionalBranches);
    assert(all@ =~= seq![Setting::ConventionalCommits, Setting::TicketSuffix, Setting::ConventionalBranches]);
    all
}

} // verus!
