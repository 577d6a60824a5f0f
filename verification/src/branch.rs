//! Branches: which can be chosen or deleted, and how a new one is named.

use crate::git_operations::BranchInfo;
use crate::pattern::{all_replaced, pattern_accepted, replace_every, InvalidPattern};
use crate::text::{starts_with_char, texts, trim, trimmed};
use vstd::prelude::*;
use vstd::string::StringExecFns;

verus! {

/// The branches of `branches` that are not the current one, in order.
pub open spec fn others(branches: Seq<BranchInfo>) -> Seq<BranchInfo>
    decreases branches.len(),
{
    if branches.len() == 0 {
        Seq::empty()
    } else if branches.last().is_current {
        others(branches.drop_last())
    } else {
        others(branches.drop_last()).push(branches.last())
    }
}

/// The branch names in the lines of a branch listing, without the line of
/// the current branch, which a star marks.
pub open spec fn unstarred(lines: Seq<Seq<char>>) -> Seq<Seq<char>>
    decreases lines.len(),
{
    if lines.len() == 0 {
        Seq::empty()
    } else {
        let name = trimmed(lines.last());
        if name.len() > 0 && name[0] == '*' {
            unstarred(lines.drop_last())
        } else {
            unstarred(lines.drop_last()).push(name)
        }
    }
}

/// The pattern for a run of spaces.
pub open spec fn spaces() -> Seq<char> {
    " +"@
}

/// The full name of a new branch: the type and a slash in front of the
/// name, where a type was chosen.
pub open spec fn full_name(branch_type: Option<Seq<char>>, name: Seq<char>) -> Seq<char> {
    match branch_type {
        Some(t) => t + "/"@ + name,
        None => name,
    }
}

/// The branches that can be switched to: all but the current one.
pub fn available_branches(branches: &Vec<BranchInfo>) -> (kept: Vec<&BranchInfo>)
    ensures
        kept@.map_values(|b: &BranchInfo| *b) == others(branches@),
{
    let mut kept: Vec<&BranchInfo> = Vec::new();
    let mut i: usize = 0;
    assert(branches@.take(0) =~= Seq::<BranchInfo>::empty());
    assert(kept@.map_values(|b: &BranchInfo| *b) =~= Seq::<BranchInfo>::empty());
    while i < branches.len()
        invariant
            i <= branches.len(),
            kept@.map_values(|b: &BranchInfo| *b) == others(branches@.take(i as int)),
        decreases branches.len() - i,
    {
        let ghost before = kept@.map_values(|b: &BranchInfo| *b);
        proof {
            assert(branches@.take(i as int + 1).drop_last() =~= branches@.take(i as int));
        }
        if !branches[i].is_current {
            kept.push(&branches[i]);
            assert(kept@.map_values(|b: &BranchInfo| *b) =~= before.push(branches@[i as int]));
        }
        i = i + 1;
    }
    assert(branches@.take(i as int) =~= branches@);
    kept
}

/// The branches that can be deleted, from the lines of a branch listing:
/// each line without the white space around it, the starred line of the
/// current branch left out.
pub fn deletable_branches(lines: &Vec<String>) -> (names: Vec<String>)
    ensures
        texts(names@) == unstarred(texts(lines@)),
{
    let ghost all = texts(lines@);
    let mut names: Vec<String> = Vec::new();
    let mut i: usize = 0;
    assert(all.take(0) =~= Seq::<Seq<char>>::empty());
    assert(texts(names@) =~= Seq::<Seq<char>>::empty());
    while i < lines.len()
        invariant
            i <= lines.len(),
            all == texts(lines@),
            texts(names@) == unstarred(all.take(i as int)),
        decreases lines.len() - i,
    {
        let ghost before = texts(names@);
        let name = trim(lines[i].as_str());
        proof {
            assert(all.take(i as int + 1).drop_last() =~= all.take(i as int));
            assert(all.take(i as int + 1).last() == lines@[i as int]@);
        }
        if !starts_with_char(name, '*') {
            names.push(String::from_str(name));
            assert(texts(names@) =~= before.push(name@));
        }
        i = i + 1;
    }
    assert(all.take(i as int) =~= all);
    names
}

/// The flag that deletes a branch: the careful one if `delete` was asked
/// for, the forcing one otherwise.
pub fn delete_flag(delete: bool) -> (flag: &'static str)
    ensures
        flag@ == (if delete {
            "-d"@
        } else {
            "-D"@
        }),
{
    if delete {
        "-d"
    } else {
        "-D"
    }
}

/// The branch name in what was typed: the white space around it dropped,
/// each run of spaces inside it turned into one hyphen.
pub fn branch_name(input: &str) -> (res: Result<String, InvalidPattern>)
    ensures
        res is Ok <==> pattern_accepted(spaces()),
        res matches Ok(name) ==> name@ == all_replaced(spaces(), trimmed(input@), "-"@),
{
    replace_every(" +", trim(input), "-")
}

/// The full name of a new branch.
pub fn full_branch_name(branch_type: Option<&str>, name: &str) -> (full: String)
    ensures
        full@ == full_name(
            match branch_type {
                Some(t) => Some(t@),
                None => None,
            },
            name@,
        ),
{
    match branch_type {
        Some(t) => {
            let mut full = String::from_str(t);
            full.append("/");
            full.append(name);
            full
        },
        None => String::from_str(name),
    }
}

} // verus!
