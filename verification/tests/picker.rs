use supergit::picker::{classify, Command, FinishReason, Key, KeyInput, Picker, Scope, Status};
use supergit::render::{clear_terminal, hint_line, leave_ops, print_range, row_line, TermOp};
use supergit::tree::{collect_files, Node};

fn press(key: Key) -> KeyInput {
    KeyInput { key, control: false, pressed: true }
}

fn abort() -> KeyInput {
    KeyInput { key: Key::Char('c'), control: true, pressed: true }
}

fn file(name: &str) -> Node {
    Node::new(name.to_string(), false)
}

fn dir(name: &str, children: Vec<Node>) -> Node {
    let mut node = Node::new(name.to_string(), true);
    for child in children {
        assert!(node.push_child(child).is_none());
    }
    node
}

fn ten_files() -> Node {
    dir("root", (0..10).map(|i| file(&format!("f{}", i))).collect())
}

fn nested() -> Node {
    dir(
        "root",
        vec![
            file("A"),
            dir("B", vec![file("C"), dir("D", vec![file("E"), file("F")])]),
            file("G"),
        ],
    )
}

fn count(ops: &[TermOp], wanted: &TermOp) -> usize {
    ops.iter().filter(|op| *op == wanted).count()
}

#[test]
fn keys_are_told_apart() {
    assert_eq!(classify(&press(Key::Enter)), Command::Confirm);
    assert_eq!(classify(&press(Key::Down)), Command::Down);
    assert_eq!(classify(&press(Key::Up)), Command::Up);
    assert_eq!(classify(&press(Key::Right)), Command::Descend);
    assert_eq!(classify(&press(Key::Left)), Command::Ascend);
    assert_eq!(classify(&press(Key::Char(' '))), Command::Toggle);
    assert_eq!(classify(&press(Key::Char('x'))), Command::Ignore);
    assert_eq!(classify(&press(Key::Char('c'))), Command::Ignore);
    assert_eq!(classify(&press(Key::Other)), Command::Ignore);
    assert_eq!(classify(&abort()), Command::Abort);
}

#[test]
fn only_presses_count_except_for_abort() {
    let release = KeyInput { key: Key::Enter, control: false, pressed: false };
    assert_eq!(classify(&release), Command::Ignore);
    let release = KeyInput { key: Key::Down, control: false, pressed: false };
    assert_eq!(classify(&release), Command::Ignore);
    let release = KeyInput { key: Key::Char('c'), control: true, pressed: false };
    assert_eq!(classify(&release), Command::Abort);
    let held = KeyInput { key: Key::Char(' '), control: true, pressed: true };
    assert_eq!(classify(&held), Command::Toggle);
}

#[test]
fn open_starts_at_first_entry() {
    let (picker, ops) = Picker::open(ten_files(), 5);
    assert_eq!(picker.status(), Status::Browsing);
    assert_eq!(picker.depth(), 1);
    assert_eq!(picker.scope(), Some(Scope { selected: 0, start: 0, end: 7, highlight: 0 }));
    assert_eq!(ops, print_range(5, 0, &picker.root().children()[0..7]));
    assert_eq!(ops.len(), 16);
}

#[test]
fn nine_downs_reach_last_of_ten() {
    let (mut picker, _) = Picker::open(ten_files(), 1);
    for _ in 0..9 {
        picker.step(&press(Key::Down));
    }
    assert_eq!(picker.scope(), Some(Scope { selected: 9, start: 3, end: 10, highlight: 6 }));
}

#[test]
fn down_wraps_to_the_first_entry() {
    let (mut picker, _) = Picker::open(ten_files(), 1);
    for _ in 0..10 {
        picker.step(&press(Key::Down));
    }
    assert_eq!(picker.scope(), Some(Scope { selected: 0, start: 0, end: 7, highlight: 0 }));
}

#[test]
fn up_wraps_to_the_last_entry() {
    let (mut picker, _) = Picker::open(ten_files(), 1);
    picker.step(&press(Key::Up));
    assert_eq!(picker.scope(), Some(Scope { selected: 9, start: 3, end: 10, highlight: 6 }));
    picker.step(&press(Key::Up));
    assert_eq!(picker.scope(), Some(Scope { selected: 8, start: 3, end: 10, highlight: 5 }));
}

#[test]
fn down_clears_then_redraws() {
    let (mut picker, _) = Picker::open(nested(), 4);
    let ops = picker.step(&press(Key::Down));
    let mut expected = clear_terminal(4, 8);
    expected.extend(print_range(4, 1, picker.root().children()));
    assert_eq!(ops, expected);
    assert_eq!(
        ops[8..],
        [
            TermOp::MoveTo { column: 0, row: 4 },
            TermOp::PrintLine(row_line(false, false, "A")),
            TermOp::MoveTo { column: 0, row: 5 },
            TermOp::PrintLine(row_line(true, false, "B")),
            TermOp::MoveTo { column: 0, row: 6 },
            TermOp::PrintLine(row_line(false, false, "G")),
            TermOp::MoveTo { column: 0, row: 7 },
            TermOp::PrintLine(hint_line()),
        ]
    );
}

#[test]
fn right_then_left_restores_parent_scope() {
    let (mut picker, _) = Picker::open(nested(), 2);
    picker.step(&press(Key::Down));
    let parent = picker.scope();
    assert_eq!(parent, Some(Scope { selected: 1, start: 0, end: 3, highlight: 1 }));
    picker.step(&press(Key::Right));
    assert_eq!(picker.depth(), 2);
    assert_eq!(picker.scope(), Some(Scope { selected: 0, start: 0, end: 2, highlight: 0 }));
    let ops = picker.step(&press(Key::Left));
    assert_eq!(picker.depth(), 1);
    assert_eq!(picker.scope(), parent);
    assert_eq!(picker.status(), Status::Browsing);
    let mut expected = clear_terminal(2, 5);
    expected.extend(print_range(2, 1, picker.root().children()));
    assert_eq!(ops, expected);
}

#[test]
fn right_on_a_file_does_nothing() {
    let (mut picker, _) = Picker::open(nested(), 2);
    let ops = picker.step(&press(Key::Right));
    assert!(ops.is_empty());
    assert_eq!(picker.depth(), 1);
    assert_eq!(picker.scope(), Some(Scope { selected: 0, start: 0, end: 3, highlight: 0 }));
}

#[test]
fn abort_three_scopes_deep_ends_everything_once() {
    let (mut picker, _) = Picker::open(nested(), 3);
    picker.step(&press(Key::Down));
    picker.step(&press(Key::Right));
    picker.step(&press(Key::Down));
    picker.step(&press(Key::Right));
    assert_eq!(picker.depth(), 3);
    let ops = picker.step(&abort());
    assert_eq!(picker.status(), Status::Finished(FinishReason::Cancelled));
    assert_eq!(picker.depth(), 0);
    assert_eq!(picker.scope(), None);
    assert_eq!(count(&ops, &TermOp::ShowCursor), 1);
    assert_eq!(count(&ops, &TermOp::DisableRawMode), 1);
    let mut expected = clear_terminal(3, 6);
    expected.extend(leave_ops(3));
    assert_eq!(ops, expected);
    assert!(picker.step(&abort()).is_empty());
    assert!(picker.step(&press(Key::Enter)).is_empty());
    assert!(picker.step(&press(Key::Left)).is_empty());
    assert!(picker.release().is_empty());
    assert_eq!(picker.status(), Status::Finished(FinishReason::Cancelled));
}

#[test]
fn enter_confirms_from_a_nested_scope() {
    let (mut picker, _) = Picker::open(nested(), 3);
    picker.step(&press(Key::Down));
    picker.step(&press(Key::Right));
    let ops = picker.step(&press(Key::Enter));
    assert_eq!(picker.status(), Status::Finished(FinishReason::Confirmed));
    assert_eq!(picker.depth(), 0);
    assert_eq!(count(&ops, &TermOp::DisableRawMode), 1);
    assert_eq!(ops[ops.len() - 3..], leave_ops(3)[..]);
}

#[test]
fn left_at_the_root_cancels() {
    let (mut picker, _) = Picker::open(nested(), 3);
    let ops = picker.step(&press(Key::Left));
    assert_eq!(picker.status(), Status::Finished(FinishReason::Cancelled));
    let mut expected = clear_terminal(3, 7);
    expected.extend(leave_ops(3));
    assert_eq!(ops, expected);
}

#[test]
fn space_toggles_the_highlighted_entry() {
    let (mut picker, _) = Picker::open(nested(), 3);
    let before = picker.scope();
    let ops = picker.step(&press(Key::Char(' ')));
    assert!(picker.root().children()[0].is_selected());
    assert_eq!(picker.scope(), before);
    assert_eq!(ops[9], TermOp::PrintLine(row_line(true, true, "A")));
    picker.step(&press(Key::Char(' ')));
    assert!(!picker.root().children()[0].is_selected());
}

#[test]
fn selection_in_nested_scopes_is_collected() {
    let (mut picker, _) = Picker::open(nested(), 3);
    picker.step(&press(Key::Char(' ')));
    picker.step(&press(Key::Down));
    picker.step(&press(Key::Right));
    picker.step(&press(Key::Char(' ')));
    picker.step(&press(Key::Enter));
    assert_eq!(picker.status(), Status::Finished(FinishReason::Confirmed));
    let root = picker.into_root();
    assert_eq!(collect_files(&root), vec!["A".to_string(), "B/C".to_string()]);
}

#[test]
fn empty_directory_draws_nothing() {
    let (mut picker, ops) = Picker::open(dir("root", vec![]), 3);
    assert!(ops.is_empty());
    assert_eq!(picker.scope(), Some(Scope { selected: 0, start: 0, end: 0, highlight: 0 }));
    assert!(picker.step(&press(Key::Down)).is_empty());
    assert!(picker.step(&press(Key::Up)).is_empty());
    assert!(picker.step(&press(Key::Char(' '))).is_empty());
    assert!(picker.step(&press(Key::Right)).is_empty());
    assert_eq!(picker.status(), Status::Browsing);
    assert!(print_range(3, 0, &[]).is_empty());
}

#[test]
fn other_keys_are_ignored() {
    let (mut picker, _) = Picker::open(nested(), 3);
    assert!(picker.step(&press(Key::Other)).is_empty());
    assert!(picker.step(&press(Key::Char('q'))).is_empty());
    let release = KeyInput { key: Key::Down, control: false, pressed: false };
    assert!(picker.step(&release).is_empty());
    assert_eq!(picker.scope(), Some(Scope { selected: 0, start: 0, end: 3, highlight: 0 }));
}

#[test]
fn release_gives_the_terminal_back_once() {
    let (mut picker, _) = Picker::open(nested(), 9);
    let ops = picker.release();
    assert_eq!(ops, leave_ops(9));
    assert_eq!(
        ops,
        vec![TermOp::MoveTo { column: 0, row: 9 }, TermOp::ShowCursor, TermOp::DisableRawMode]
    );
    assert_eq!(picker.status(), Status::Finished(FinishReason::Cancelled));
    assert!(picker.release().is_empty());
}
