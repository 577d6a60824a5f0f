use supergit::commit::{
    first_commit_step, get_type_and_scope, next_commit_step, print_in_box, ticket_for, ticket_suffix,
    CommitParts, CommitStep,
};

fn walk(conventional: bool, ticket: bool, breaking: bool) -> Vec<CommitStep> {
    let mut steps = vec![];
    let mut step = first_commit_step(conventional, ticket);
    while step != CommitStep::Done {
        steps.push(step);
        step = next_commit_step(conventional, ticket, step, breaking);
        assert!(steps.len() <= 8);
    }
    steps
}

fn parts(conventional: bool, header: &str, subject: &str, ticket: &str, body: &str, breaking: Option<&str>) -> CommitParts {
    CommitParts {
        conventional,
        type_and_scope: header.to_string(),
        subject: subject.to_string(),
        ticket: ticket.to_string(),
        body: body.to_string(),
        breaking: breaking.map(|b| b.to_string()),
    }
}

#[test]
fn plain_commit_asks_subject_and_confirmation() {
    assert_eq!(walk(false, false, false), vec![CommitStep::AskSubject, CommitStep::AskConfirm]);
    assert_eq!(walk(false, false, true), vec![CommitStep::AskSubject, CommitStep::AskConfirm]);
}

#[test]
fn ticket_needs_the_branch_first() {
    assert_eq!(
        walk(false, true, false),
        vec![CommitStep::ReadBranch, CommitStep::AskSubject, CommitStep::AskConfirm]
    );
}

#[test]
fn conventional_commit_asks_everything() {
    assert_eq!(
        walk(true, true, true),
        vec![
            CommitStep::AskType,
            CommitStep::AskScope,
            CommitStep::ReadBranch,
            CommitStep::AskSubject,
            CommitStep::AskBody,
            CommitStep::AskBreaking,
            CommitStep::AskBreakingDescription,
            CommitStep::AskConfirm,
        ]
    );
}

#[test]
fn description_is_asked_only_of_breaking_changes() {
    assert_eq!(
        walk(true, false, false),
        vec![
            CommitStep::AskType,
            CommitStep::AskScope,
            CommitStep::AskSubject,
            CommitStep::AskBody,
            CommitStep::AskBreaking,
            CommitStep::AskConfirm,
        ]
    );
}

#[test]
fn done_stays_done() {
    assert_eq!(next_commit_step(true, true, CommitStep::Done, true), CommitStep::Done);
    assert_eq!(next_commit_step(false, false, CommitStep::AskConfirm, false), CommitStep::Done);
}

#[test]
fn scope_goes_in_brackets() {
    assert_eq!(get_type_and_scope("feat", "api"), "feat(api)");
    assert_eq!(get_type_and_scope("fix", ""), "fix");
    assert_eq!(get_type_and_scope("", "x"), "(x)");
}

#[test]
fn ticket_note_is_in_brackets_after_a_space() {
    assert_eq!(ticket_suffix(Some("ABC-12")), " (ABC-12)");
    assert_eq!(ticket_suffix(None), "");
}

#[test]
fn ticket_is_found_in_the_branch_name() {
    assert_eq!(ticket_for("feature/ABC-123-login"), Ok(" (ABC-123)".to_string()));
    assert_eq!(ticket_for("PROJ-7"), Ok(" (PROJ-7)".to_string()));
    assert_eq!(ticket_for("X-1-and-Y-2"), Ok(" (X-1)".to_string()));
    assert_eq!(ticket_for("main"), Ok("".to_string()));
    assert_eq!(ticket_for("abc-123"), Ok("".to_string()));
}

#[test]
fn plain_message_is_subject_and_ticket() {
    assert_eq!(parts(false, "", "fix it", " (AB-1)", "", None).compose(), "fix it (AB-1)");
    assert_eq!(parts(false, "feat", "fix it", "", "body", Some("all")).compose(), "fix it");
}

#[test]
fn conventional_message_has_a_typed_header() {
    assert_eq!(parts(true, "feat(api)", "add x", "", "", None).compose(), "feat(api): add x");
    assert_eq!(
        parts(true, "feat", "add x", " (AB-1)", "why", None).compose(),
        "feat: add x (AB-1)\n\nwhy"
    );
}

#[test]
fn breaking_change_is_marked_and_noted() {
    assert_eq!(
        parts(true, "feat(api)", "add x", " (ABC-1)", "body", Some("old calls fail")).compose(),
        "feat(api)!: add x (ABC-1)\n\nbody\n\nBREAKING CHANGE: old calls fail"
    );
    assert_eq!(
        parts(true, "fix", "s", "", "", Some("")).compose(),
        "fix!: s\n\nBREAKING CHANGE: "
    );
}

#[test]
fn box_is_as_wide_as_the_longest_line() {
    assert_eq!(
        print_in_box("hi\nthere"),
        vec!["┌───────┐", "│ hi    │", "│ there │", "└───────┘"]
    );
}

#[test]
fn box_of_nothing_is_two_edges() {
    assert_eq!(print_in_box(""), vec!["┌──┐", "└──┘"]);
}

#[test]
fn box_counts_bytes_for_width_and_characters_for_filling() {
    assert_eq!(print_in_box("\u{e9}"), vec!["┌────┐", "│ \u{e9}  │", "└────┘"]);
    assert_eq!(
        print_in_box("\u{e9}\u{e9}\nabc"),
        vec!["┌──────┐", "│ \u{e9}\u{e9}   │", "│ abc  │", "└──────┘"]
    );
}

#[test]
fn box_agrees_with_formatting() {
    let message = "feat: x\n\nlonger body line\nshort";
    let width = message.lines().map(|line| line.len()).max().unwrap_or(0);
    let mut expected = vec![format!("┌{}┐", "─".repeat(width + 2))];
    for line in message.lines() {
        expected.push(format!("│ {:width$} │", line, width = width));
    }
    expected.push(format!("└{}┘", "─".repeat(width + 2)));
    assert_eq!(print_in_box(message), expected);
}
