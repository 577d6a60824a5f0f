use supergit::branch::{
    available_branches, branch_name, delete_flag, deletable_branches, full_branch_name,
};
use supergit::git_operations::BranchInfo;
use supergit::pattern::{find_first, replace_every, InvalidPattern};
use supergit::render::{Colour, Span};

fn span(text: &str, colour: Colour) -> Span {
    Span { text: text.to_string(), colour }
}

fn branch(name: &str, is_current: bool, upstream: bool) -> BranchInfo {
    BranchInfo { name: name.to_string(), is_current, upstream }
}

#[test]
fn branch_that_is_checked_out_is_current() {
    let current = Some("main".to_string());
    let info = BranchInfo::new(Some("main".to_string()), true, &current);
    assert_eq!(info, branch("main", true, true));
    let info = BranchInfo::new(Some("dev".to_string()), false, &current);
    assert_eq!(info, branch("dev", false, false));
}

#[test]
fn branch_without_head_is_never_current() {
    let info = BranchInfo::new(Some("main".to_string()), true, &None);
    assert!(!info.is_current);
}

#[test]
fn branch_without_a_name_is_unnamed() {
    let info = BranchInfo::new(None, false, &Some("main".to_string()));
    assert_eq!(info.name, "Unnamed branch");
    assert!(!info.is_current);
    let info = BranchInfo::new(None, false, &Some("Unnamed branch".to_string()));
    assert!(info.is_current);
}

#[test]
fn current_branch_line_has_star_and_green_name() {
    assert_eq!(
        branch("main", true, true).line(),
        vec![span("* ", Colour::Plain), span("main", Colour::Green), span("", Colour::Plain)]
    );
}

#[test]
fn branch_without_upstream_says_so_in_red() {
    assert_eq!(
        branch("dev", false, false).line(),
        vec![
            span("  ", Colour::Plain),
            span("dev", Colour::Plain),
            span(" (no upstream)", Colour::Red)
        ]
    );
}

#[test]
fn available_branches_leave_the_current_out() {
    let all = vec![branch("a", false, true), branch("b", true, true), branch("c", false, false)];
    let kept = available_branches(&all);
    assert_eq!(kept, vec![&all[0], &all[2]]);
    assert!(available_branches(&vec![branch("only", true, true)]).is_empty());
    assert!(available_branches(&vec![]).is_empty());
}

#[test]
fn deletable_branches_are_trimmed_and_unstarred() {
    let listing = vec!["* main".to_string(), "  feature/x".to_string(), "  bugfix ".to_string()];
    assert_eq!(deletable_branches(&listing), vec!["feature/x", "bugfix"]);
    let listing = vec!["  *odd".to_string(), "".to_string(), "a*b".to_string()];
    assert_eq!(deletable_branches(&listing), vec!["", "a*b"]);
}

#[test]
fn delete_flag_is_careful_when_asked() {
    assert_eq!(delete_flag(true), "-d");
    assert_eq!(delete_flag(false), "-D");
}

#[test]
fn branch_name_turns_spaces_into_hyphens() {
    assert_eq!(branch_name("  my new   branch "), Ok("my-new-branch".to_string()));
    assert_eq!(branch_name("plain"), Ok("plain".to_string()));
    assert_eq!(branch_name("a b"), Ok("a-b".to_string()));
    assert_eq!(branch_name("tab\there"), Ok("tab\there".to_string()));
    assert_eq!(branch_name("   "), Ok("".to_string()));
}

#[test]
fn full_branch_name_puts_the_type_in_front() {
    assert_eq!(full_branch_name(Some("feature"), "login"), "feature/login");
    assert_eq!(full_branch_name(None, "login"), "login");
    assert_eq!(full_branch_name(Some(""), "x"), "/x");
}

#[test]
fn find_first_gives_the_leftmost_match() {
    assert_eq!(find_first("[0-9]+", "ab12cd345"), Ok(Some("12".to_string())));
    assert_eq!(find_first("[0-9]+", "abcd"), Ok(None));
    assert_eq!(find_first("a|ab", "xab"), Ok(Some("a".to_string())));
}

#[test]
fn replace_every_replaces_each_match() {
    assert_eq!(replace_every("o", "foo boo", "0"), Ok("f00 b00".to_string()));
    assert_eq!(replace_every(" +", "a  b c", "-"), Ok("a-b-c".to_string()));
    assert_eq!(replace_every("x", "abc", "y"), Ok("abc".to_string()));
    assert_eq!(replace_every("(a)(b)", "ab", "$2$1"), Ok("ba".to_string()));
}

#[test]
fn invalid_pattern_is_refused() {
    assert_eq!(find_first("(", "text"), Err(InvalidPattern));
    assert_eq!(replace_every("[a-", "text", "x"), Err(InvalidPattern));
}
