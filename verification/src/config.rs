//! The flat configuration: two switches.

use crate::text::texts;
use vstd::prelude::*;

verus! {

/// The name under which the first switch is offered and stored.
pub open spec fn conventional_commits_key() -> Seq<char> {
    "conventional_commits"@
}

/// The name under which the second switch is offered and stored.
pub open spec fn ticket_prefix_key() -> Seq<char> {
    "ticket_prefix"@
}

/// The contents of a list of string slices.
pub open spec fn slices(items: Seq<&str>) -> Seq<Seq<char>> {
    items.map_values(|s: &str| s@)
}

/// Which conventions the tool follows.
#[derive(Clone, Copy, Debug, PartialEq, Eq, Structural)]
pub struct Config {
    pub conventional_commits: bool,
    pub ticket_prefix: bool,
}

impl Config {
    /// Both switches off.
    pub fn default() -> (config: Config)
        ensures
            config == (Config { conventional_commits: false, ticket_prefix: false }),
    {
        Config { conventional_commits: false, ticket_prefix: false }
    }

    /// The configuration in which exactly the switches named in `chosen`
    /// are on.
    pub fn from_selection(chosen: &Vec<String>) -> (config: Config)
        ensures
            config.conventional_commits == texts(chosen@).contains(conventional_commits_key()),
            config.ticket_prefix == texts(chosen@).contains(ticket_prefix_key()),
    {
        Config {
            conventional_commits: contains_text(chosen, "conventional_commits"),
            ticket_prefix: contains_text(chosen, "ticket_prefix"),
        }
    }
}

/// The switches that can be chosen, in the order in which they are offered.
pub fn settings() -> (names: Vec<&'static str>)
    ensures
        slices(names@) == seq![conventional_commits_key(), ticket_prefix_key()],
{
    let mut names: Vec<&'static str> = Vec::new();
    names.push("conventional_commits");
    names.push("ticket_prefix");
    assert(slices(names@) =~= seq![conventional_commits_key(), ticket_prefix_key()]);
    names
}

/// Whether one of `items` reads `wanted`.
pub fn contains_text(items: &Vec<String>, wanted: &str) -> (found: bool)
    ensures
        found == texts(items@).contains(wanted@),
{
    let ghost all = texts(items@);
    let mut i: usize = 0;
    while i < items.len()
        invariant
            i <= items.len(),
            all == texts(items@),
            forall|k: int| 0 <= k < i ==> all[k] != wanted@,
        decreases items.len() - i,
    {
        if same_text(items[i].as_str(), wanted) {
            assert(all[i as int] == wanted@);
            return true;
        }
        i = i + 1;
    }
    false
}

/// Whether two string slices read the same.
pub fn same_text(a: &str, b: &str) -> (same: bool)
    ensures
        same == (a@ == b@),
{
    let left = a.to_owned();
    let right = b.to_owned();
    left == right
}

} // verus!
