//! What the picker writes to the terminal, as a list of terminal
//! operations for the caller to perform in order.

use crate::tree::{trees, Node, Tree};
use vstd::prelude::*;
use vstd::string::StringExecFns;

verus! {

/// The colour a piece of text is shown in.
#[derive(Clone, Copy, Debug, PartialEq, Eq, Structural)]
pub enum Colour {
    Plain,
    Cyan,
    Green,
    Red,
}

/// A piece of text in one colour.
#[derive(Clone, Debug, PartialEq, Eq)]
pub struct Span {
    pub text: String,
    pub colour: Colour,
}

/// The model of a [`Span`].
pub struct SpanView {
    pub text: Seq<char>,
    pub colour: Colour,
}

impl View for Span {
    type V = SpanView;

    open spec fn view(&self) -> SpanView {
        SpanView { text: self.text@, colour: self.colour }
    }
}

/// The models of the spans of a line.
pub open spec fn spans(line: Seq<Span>) -> Seq<SpanView> {
    line.map_values(|s: Span| s@)
}

/// One operation on the terminal.
#[derive(Clone, Debug, PartialEq, Eq)]
pub enum TermOp {
    /// Switch the terminal to raw input mode.
    EnableRawMode,
    /// Switch the terminal back to cooked input mode.
    DisableRawMode,
    HideCursor,
    ShowCursor,
    /// Put the cursor at a column and a row of the screen.
    MoveTo { column: u16, row: u16 },
    /// Erase the line the cursor is on.
    ClearLine,
    /// Write the spans one after the other, then end the line.
    PrintLine(Vec<Span>),
}

/// The model of a [`TermOp`].
pub enum OpView {
    EnableRawMode,
    DisableRawMode,
    HideCursor,
    ShowCursor,
    MoveTo { column: int, row: int },
    ClearLine,
    PrintLine(Seq<SpanView>),
}

impl View for TermOp {
    type V = OpView;

    open spec fn view(&self) -> OpView {
        match *self {
            TermOp::EnableRawMode => OpView::EnableRawMode,
            TermOp::DisableRawMode => OpView::DisableRawMode,
            TermOp::HideCursor => OpView::HideCursor,
            TermOp::ShowCursor => OpView::ShowCursor,
            TermOp::MoveTo { column, row } => OpView::MoveTo { column: column as int, row: row as int },
            TermOp::ClearLine => OpView::ClearLine,
            TermOp::PrintLine(line) => OpView::PrintLine(spans(line@)),
        }
    }
}

/// The models of a list of operations.
pub open spec fn ops_view(ops: Seq<TermOp>) -> Seq<OpView> {
    ops.map_values(|o: TermOp| o@)
}

/// The mark in front of an entry's name: checked or unchecked.
pub open spec fn marker(selected: bool) -> Seq<char> {
    if selected {
        "[x]"@
    } else {
        "[ ]"@
    }
}

/// The line shown for one entry: the cursor mark on the highlighted row,
/// the selection mark, and the entry's name.  The highlighted row is cyan.
pub open spec fn row_spans(highlighted: bool, selected: bool, name: Seq<char>) -> Seq<SpanView> {
    if highlighted {
        seq![
            SpanView { text: ">"@, colour: Colour::Cyan },
            SpanView { text: " "@, colour: Colour::Plain },
            SpanView { text: marker(selected), colour: Colour::Cyan },
            SpanView { text: " "@, colour: Colour::Plain },
            SpanView { text: name, colour: Colour::Cyan },
        ]
    } else {
        seq![
            SpanView { text: "  "@, colour: Colour::Plain },
            SpanView { text: marker(selected), colour: Colour::Plain },
            SpanView { text: " "@, colour: Colour::Plain },
            SpanView { text: name, colour: Colour::Plain },
        ]
    }
}

/// The line under the entries that names the keys.
pub open spec fn hint_spans() -> Seq<SpanView> {
    seq![SpanView { text: "[↑↓ to move, → to expand, ← to collapse]"@, colour: Colour::Cyan }]
}

/// The line above the entries that asks the question.
pub open spec fn header_spans() -> Seq<SpanView> {
    seq![
        SpanView { text: "? "@, colour: Colour::Green },
        SpanView { text: "Select items to ignore:"@, colour: Colour::Plain },
    ]
}

/// Erasing the rows from `start` up to, not including, `end`.
pub open spec fn clear_ops(start: int, end: int) -> Seq<OpView>
    decreases end - start,
{
    if start >= end {
        Seq::empty()
    } else {
        clear_ops(start, end - 1) + seq![OpView::MoveTo { column: 0, row: end - 1 }, OpView::ClearLine]
    }
}

/// Writing one line per entry at consecutive rows from `origin` on.
pub open spec fn row_ops(origin: int, highlight: int, entries: Seq<Tree>) -> Seq<OpView>
    decreases entries.len(),
{
    if entries.len() == 0 {
        Seq::empty()
    } else {
        let i = entries.len() - 1;
        row_ops(origin, highlight, entries.drop_last()) + seq![
            OpView::MoveTo { column: 0, row: origin + i },
            OpView::PrintLine(row_spans(highlight == i, entries[i].is_selected, entries[i].name)),
        ]
    }
}

/// Drawing a visible slice: its rows, then the key hint on the row below
/// them.  Nothing at all is drawn for an empty slice.
pub open spec fn frame_ops(origin: int, highlight: int, entries: Seq<Tree>) -> Seq<OpView> {
    if entries.len() == 0 {
        Seq::empty()
    } else {
        row_ops(origin, highlight, entries) + seq![
            OpView::MoveTo { column: 0, row: origin + entries.len() },
            OpView::PrintLine(hint_spans()),
        ]
    }
}

/// What is done to the terminal when a session begins.
pub open spec fn enter_ops_spec() -> Seq<OpView> {
    seq![OpView::EnableRawMode, OpView::HideCursor, OpView::PrintLine(header_spans())]
}

/// What is done to the terminal when a session ends: the cursor goes back
/// to the anchor row and is shown again, and input is cooked again.
pub open spec fn leave_ops_spec(anchor: int) -> Seq<OpView> {
    seq![OpView::MoveTo { column: 0, row: anchor }, OpView::ShowCursor, OpView::DisableRawMode]
}

/// What is done to the terminal when a session fails before its anchor
/// row is known: the cursor is shown again and input is cooked again.
pub open spec fn abandon_ops_spec() -> Seq<OpView> {
    seq![OpView::ShowCursor, OpView::DisableRawMode]
}

/// Appends one operation.
pub fn push_op(ops: &mut Vec<TermOp>, op: TermOp)
    ensures
        ops_view(final(ops)@) == ops_view(old(ops)@).push(op@),
{
    ops.push(op);
    assert(ops_view(ops@) =~= ops_view(old(ops)@).push(op@));
}

/// Appends the operations of `more`.
pub fn append_ops(ops: &mut Vec<TermOp>, more: Vec<TermOp>)
    ensures
        ops_view(final(ops)@) == ops_view(old(ops)@) + ops_view(more@),
{
    let mut rest = more;
    let ghost added = rest@;
    ops.append(&mut rest);
    assert(ops_view(ops@) =~= ops_view(old(ops)@) + ops_view(added));
}

fn span(text: &str, colour: Colour) -> (s: Span)
    ensures
        s@ == (SpanView { text: text@, colour }),
{
    Span { text: String::from_str(text), colour }
}

/// The spans of the line for one entry.
pub fn row_line(highlighted: bool, selected: bool, name: &str) -> (line: Vec<Span>)
    ensures
        spans(line@) == row_spans(highlighted, selected, name@),
{
    let mark = if selected { "[x]" } else { "[ ]" };
    let mut line: Vec<Span> = Vec::new();
    if highlighted {
        line.push(span(">", Colour::Cyan));
        line.push(span(" ", Colour::Plain));
        line.push(span(mark, Colour::Cyan));
        line.push(span(" ", Colour::Plain));
        line.push(span(name, Colour::Cyan));
    } else {
        line.push(span("  ", Colour::Plain));
        line.push(span(mark, Colour::Plain));
        line.push(span(" ", Colour::Plain));
        line.push(span(name, Colour::Plain));
    }
    assert(spans(line@) =~= row_spans(highlighted, selected, name@));
    line
}

/// The spans of the key hint.
pub fn hint_line() -> (line: Vec<Span>)
    ensures
        spans(line@) == hint_spans(),
{
    let mut line: Vec<Span> = Vec::new();
    line.push(span("[↑↓ to move, → to expand, ← to collapse]", Colour::Cyan));
    assert(spans(line@) =~= hint_spans());
    line
}

/// The spans of the question above the entries.
pub fn header_line() -> (line: Vec<Span>)
    ensures
        spans(line@) == header_spans(),
{
    let mut line: Vec<Span> = Vec::new();
    line.push(span("? ", Colour::Green));
    line.push(span("Select items to ignore:", Colour::Plain));
    assert(spans(line@) =~= header_spans());
    line
}

/// The operations that erase the rows from `start` up to, not including,
/// `end`: for each row, the cursor is put at its first column and the line
/// is erased.
pub fn clear_terminal(start: u16, end: u16) -> (ops: Vec<TermOp>)
    ensures
        ops_view(ops@) == clear_ops(start as int, end as int),
{
    let mut ops: Vec<TermOp> = Vec::new();
    let mut row: u16 = start;
    assert(ops_view(ops@) =~= Seq::<OpView>::empty());
    while row < end
        invariant
            start <= row <= end || (start > end && row == start),
            ops_view(ops@) == clear_ops(start as int, row as int),
        decreases end - row,
    {
        push_op(&mut ops, TermOp::MoveTo { column: 0, row });
        push_op(&mut ops, TermOp::ClearLine);
        row = row + 1;
        assert(ops_view(ops@) =~= clear_ops(start as int, row as int));
    }
    proof {
        if start > end {
            assert(clear_ops(start as int, end as int) =~= Seq::<OpView>::empty());
        }
    }
    ops
}

/// The operations that draw the visible slice `items` at consecutive rows
/// from `start` on, the row `highlight_row` of the slice as the cursor's
/// row, and the key hint below the last entry.  An empty slice draws
/// nothing.
pub fn print_range(start: u16, highlight_row: usize, items: &[Node]) -> (ops: Vec<TermOp>)
    requires
        start + items@.len() <= u16::MAX,
    ensures
        ops_view(ops@) == frame_ops(start as int, highlight_row as int, trees(items@)),
{
    let ghost entries = trees(items@);
    let mut ops: Vec<TermOp> = Vec::new();
    let mut i: usize = 0;
    assert(ops_view(ops@) =~= Seq::<OpView>::empty());
    assert(entries.take(0) =~= Seq::<Tree>::empty());
    while i < items.len()
        invariant
            i <= items@.len(),
            start + items@.len() <= u16::MAX,
            entries == trees(items@),
            ops_view(ops@) == row_ops(start as int, highlight_row as int, entries.take(i as int)),
        decreases items@.len() - i,
    {
        let item = &items[i];
        let line = row_line(highlight_row == i, item.is_selected(), item.file_name());
        push_op(&mut ops, TermOp::MoveTo { column: 0, row: start + i as u16 });
        push_op(&mut ops, TermOp::PrintLine(line));
        proof {
            assert(entries.take(i as int + 1).drop_last() =~= entries.take(i as int));
            assert(entries.take(i as int + 1)[i as int] == item@);
        }
        i = i + 1;
    }
    assert(entries.take(i as int) =~= entries);
    if i > 0 {
        push_op(&mut ops, TermOp::MoveTo { column: 0, row: start + i as u16 });
        push_op(&mut ops, TermOp::PrintLine(hint_line()));
    }
    ops
}

/// The operations that begin a session: raw input mode, no cursor, and the
/// question.  The row the cursor is on afterwards is the anchor row.
pub fn enter_ops() -> (ops: Vec<TermOp>)
    ensures
        ops_view(ops@) == enter_ops_spec(),
{
    let mut ops: Vec<TermOp> = Vec::new();
    assert(ops_view(ops@) =~= Seq::<OpView>::empty());
    push_op(&mut ops, TermOp::EnableRawMode);
    push_op(&mut ops, TermOp::HideCursor);
    push_op(&mut ops, TermOp::PrintLine(header_line()));
    assert(ops_view(ops@) =~= enter_ops_spec());
    ops
}

/// The operations that end a session.
pub fn leave_ops(anchor: u16) -> (ops: Vec<TermOp>)
    ensures
        ops_view(ops@) == leave_ops_spec(anchor as int),
{
    let mut ops: Vec<TermOp> = Vec::new();
    assert(ops_view(ops@) =~= Seq::<OpView>::empty());
    push_op(&mut ops, TermOp::MoveTo { column: 0, row: anchor });
    push_op(&mut ops, TermOp::ShowCursor);
    push_op(&mut ops, TermOp::DisableRawMode);
    assert(ops_view(ops@) =~= leave_ops_spec(anchor as int));
    ops
}

/// The operations that give the terminal back when a session fails before
/// its anchor row is known.
pub fn abandon_ops() -> (ops: Vec<TermOp>)
    ensures
        ops_view(ops@) == abandon_ops_spec(),
{
    let mut ops: Vec<TermOp> = Vec::new();
    assert(ops_view(ops@) =~= Seq::<OpView>::empty());
    push_op(&mut ops, TermOp::ShowCursor);
    push_op(&mut ops, TermOp::DisableRawMode);
    assert(ops_view(ops@) =~= abandon_ops_spec());
    ops
}

/// How often `op` occurs in `ops`.
pub open spec fn count_of(ops: Seq<OpView>, op: OpView) -> nat
    decreases ops.len(),
{
    if ops.len() == 0 {
        0
    } else {
        count_of(ops.drop_last(), op) + if ops.last() == op {
            1nat
        } else {
            0nat
        }
    }
}

/// Occurrences add up over a concatenation.
pub proof fn lemma_count_concat(a: Seq<OpView>, b: Seq<OpView>, op: OpView)
    ensures
        count_of(a + b, op) == count_of(a, op) + count_of(b, op),
    decreases b.len(),
{
    if b.len() == 0 {
        assert(a + b =~= a);
    } else {
        assert((a + b).drop_last() =~= a + b.drop_last());
        lemma_count_concat(a, b.drop_last(), op);
    }
}

/// One more operation at the end counts one more if it is the one counted.
pub proof fn lemma_count_push(ops: Seq<OpView>, last: OpView, op: OpView)
    ensures
        count_of(ops.push(last), op) == count_of(ops, op) + if last == op {
            1nat
        } else {
            0nat
        },
{
    assert(ops.push(last).drop_last() =~= ops);
}

proof fn lemma_count_pair(first: OpView, second: OpView, op: OpView)
    ensures
        count_of(seq![first, second], op) == (if first == op {
            1nat
        } else {
            0nat
        }) + if second == op {
            1nat
        } else {
            0nat
        },
{
    let none = Seq::<OpView>::empty();
    lemma_count_push(none, first, op);
    lemma_count_push(none.push(first), second, op);
    assert(seq![first, second] =~= none.push(first).push(second));
}

/// Erasing rows only moves the cursor and erases lines.
pub proof fn lemma_clear_ops_kinds(start: int, end: int, op: OpView)
    requires
        !(op is MoveTo),
        !(op is ClearLine),
    ensures
        count_of(clear_ops(start, end), op) == 0,
    decreases end - start,
{
    if start < end {
        lemma_clear_ops_kinds(start, end - 1, op);
        let step = seq![OpView::MoveTo { column: 0, row: end - 1 }, OpView::ClearLine];
        lemma_count_concat(clear_ops(start, end - 1), step, op);
        lemma_count_pair(OpView::MoveTo { column: 0, row: end - 1 }, OpView::ClearLine, op);
    }
}

/// Drawing rows only moves the cursor and writes lines.
pub proof fn lemma_row_ops_kinds(origin: int, highlight: int, entries: Seq<Tree>, op: OpView)
    requires
        !(op is MoveTo),
        !(op is PrintLine),
    ensures
        count_of(row_ops(origin, highlight, entries), op) == 0,
    decreases entries.len(),
{
    if entries.len() > 0 {
        let i = entries.len() - 1;
        lemma_row_ops_kinds(origin, highlight, entries.drop_last(), op);
        let step = seq![
            OpView::MoveTo { column: 0, row: origin + i },
            OpView::PrintLine(row_spans(highlight == i, entries[i].is_selected, entries[i].name)),
        ];
        lemma_count_concat(row_ops(origin, highlight, entries.drop_last()), step, op);
        lemma_count_pair(step[0], step[1], op);
        assert(step =~= seq![step[0], step[1]]);
    }
}

/// Drawing a frame only moves the cursor and writes lines: it never
/// touches the input mode or the cursor's visibility.
pub proof fn lemma_frame_ops_kinds(origin: int, highlight: int, entries: Seq<Tree>, op: OpView)
    requires
        !(op is MoveTo),
        !(op is PrintLine),
    ensures
        count_of(frame_ops(origin, highlight, entries), op) == 0,
{
    if entries.len() > 0 {
        lemma_row_ops_kinds(origin, highlight, entries, op);
        let step = seq![
            OpView::MoveTo { column: 0, row: origin + entries.len() },
            OpView::PrintLine(hint_spans()),
        ];
        lemma_count_concat(row_ops(origin, highlight, entries), step, op);
        lemma_count_pair(step[0], step[1], op);
        assert(step =~= seq![step[0], step[1]]);
    }
}

/// Ending a session shows the cursor once and leaves raw mode once.
pub proof fn lemma_leave_ops_restore(anchor: int)
    ensures
        count_of(leave_ops_spec(anchor), OpView::ShowCursor) == 1,
        count_of(leave_ops_spec(anchor), OpView::DisableRawMode) == 1,
{
    let ops = leave_ops_spec(anchor);
    let first = seq![OpView::MoveTo { column: 0, row: anchor }, OpView::ShowCursor];
    assert(ops =~= first.push(OpView::DisableRawMode));
    lemma_count_pair(OpView::MoveTo { column: 0, row: anchor }, OpView::ShowCursor, OpView::ShowCursor);
    lemma_count_pair(OpView::MoveTo { column: 0, row: anchor }, OpView::ShowCursor, OpView::DisableRawMode);
    lemma_count_push(first, OpView::DisableRawMode, OpView::ShowCursor);
    lemma_count_push(first, OpView::DisableRawMode, OpView::DisableRawMode);
}

/// Nothing is drawn for an empty slice.
pub proof fn lemma_empty_frame(origin: int, highlight: int)
    ensures
        frame_ops(origin, highlight, Seq::empty()).len() == 0,
{
}

} // verus!
