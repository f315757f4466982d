//! Looking through the output of a session: line by line, with the wheel or the
//! arrow keys, and marking text in it with the mouse.
use crate::client::DETACH_KEY;
use crate::input;
use crate::input::{split_input, Report, Token};
use vstd::prelude::*;

verus! {

/// Where in the output a reader of it is: in text, or in a control sequence.
#[derive(Clone, Copy, Debug, PartialEq, Eq, Structural)]
pub enum Scan {
    /// In text.
    Plain,
    /// Behind an ESC.
    Escape,
    /// In a sequence of an ESC, bytes from 0x20 to 0x2f and one more byte.
    Designation,
    /// In a sequence that began with `ESC [`.
    Control,
    /// In a command that began with `ESC ]`, and ends with a BEL or `ESC \`.
    Command,
    /// In a string that began with `ESC P`, `ESC X`, `ESC ^` or `ESC _`, and ends
    /// with `ESC \`.
    ControlString,
}

/// Where a reader is behind an ESC and one more byte.
pub open spec fn scan_escape(byte: u8) -> Scan {
    if 0x20 <= byte <= 0x2f {
        Scan::Designation
    } else if byte == 0x5b {
        Scan::Control
    } else if byte == 0x5d {
        Scan::Command
    } else if byte == 0x50 || byte == 0x58 || byte == 0x5e || byte == 0x5f {
        Scan::ControlString
    } else {
        Scan::Plain
    }
}

/// Where a reader is behind one more byte. An ESC begins a sequence wherever it
/// stands, and CAN and SUB end any.
pub open spec fn scan_next(scan: Scan, byte: u8) -> Scan {
    if byte == 0x1b {
        Scan::Escape
    } else if byte == 0x18 || byte == 0x1a {
        Scan::Plain
    } else {
        match scan {
            Scan::Plain => Scan::Plain,
            Scan::Escape => scan_escape(byte),
            Scan::Designation => if 0x20 <= byte <= 0x2f {
                Scan::Designation
            } else {
                Scan::Plain
            },
            Scan::Control => if 0x40 <= byte <= 0x7e {
                Scan::Plain
            } else {
                Scan::Control
            },
            Scan::Command => if byte == 0x07 {
                Scan::Plain
            } else {
                Scan::Command
            },
            Scan::ControlString => Scan::ControlString,
        }
    }
}

/// A byte of text: a printed one, a tab, or the end of a line.
pub open spec fn is_text(scan: Scan, byte: u8) -> bool {
    scan == Scan::Plain && (byte == 9 || byte == 10 || (0x20 <= byte && byte != 0x7f))
}

/// Where a reader of `bytes` is at their end.
pub open spec fn scan_of(bytes: Seq<u8>) -> Scan
    decreases bytes.len(),
{
    if bytes.len() == 0 {
        Scan::Plain
    } else {
        scan_next(scan_of(bytes.drop_last()), bytes.last())
    }
}

/// The text in some output, without control sequences and control characters.
pub open spec fn text_of(bytes: Seq<u8>) -> Seq<u8>
    decreases bytes.len(),
{
    if bytes.len() == 0 {
        seq![]
    } else if is_text(scan_of(bytes.drop_last()), bytes.last()) {
        text_of(bytes.drop_last()).push(bytes.last())
    } else {
        text_of(bytes.drop_last())
    }
}

/// The lines of a text: one more than it has line ends.
pub open spec fn lines_of(bytes: Seq<u8>) -> Seq<Seq<u8>>
    decreases bytes.len(),
{
    if bytes.len() == 0 {
        seq![seq![]]
    } else {
        let before = lines_of(bytes.drop_last());
        if bytes.last() == 10 {
            before.push(seq![])
        } else {
            before.drop_last().push(before.last().push(bytes.last()))
        }
    }
}

/// Lines with a line end between them.
pub open spec fn joined_lines(lines: Seq<Seq<u8>>, end: Seq<u8>) -> Seq<u8>
    decreases lines.len(),
{
    if lines.len() == 0 {
        seq![]
    } else if lines.len() == 1 {
        lines[0]
    } else {
        joined_lines(lines.drop_last(), end) + end + lines.last()
    }
}

/// Where in a key sequence the input is.
#[derive(Clone, Copy, Debug, PartialEq, Eq, Structural)]
pub enum KeyScan {
    /// Between keys.
    Between,
    /// Behind an ESC.
    Escape,
    /// Behind `ESC [` or `ESC O`.
    Arrow,
}

/// A character on a line of the output: both counted from zero.
#[derive(Clone, Copy, Debug, PartialEq, Eq, Structural)]
pub struct Cell {
    pub line: usize,
    pub col: usize,
}

/// Text that is marked: where the mouse began, and where it is.
#[derive(Clone, Copy, Debug, PartialEq, Eq, Structural)]
pub struct Mark {
    pub from: Cell,
    pub to: Cell,
}

/// A look at the lines of some output.
pub struct Browser {
    lines: Vec<Vec<u8>>,
    rows: usize,
    back: usize,
    mark: Option<Mark>,
    chosen: bool,
    keys: KeyScan,
    held: Vec<u8>,
}

/// A character on a line of the output.
pub struct CellView {
    pub line: nat,
    pub col: nat,
}

/// Text that is marked.
pub struct MarkView {
    pub from: CellView,
    pub to: CellView,
}

/// The contents of a look at some output: the lines, how many of them are shown,
/// how many are below those, which text is marked, whether it was just chosen,
/// where in a key sequence the input is, and the report that it has not finished.
#[verifier::ext_equal]
pub struct BrowseView {
    pub lines: Seq<Seq<u8>>,
    pub rows: nat,
    pub back: nat,
    pub mark: Option<MarkView>,
    pub chosen: bool,
    pub keys: KeyScan,
    pub held: Seq<u8>,
}

impl View for Cell {
    type V = CellView;

    open spec fn view(&self) -> CellView {
        CellView { line: self.line as nat, col: self.col as nat }
    }
}

impl View for Mark {
    type V = MarkView;

    open spec fn view(&self) -> MarkView {
        MarkView { from: self.from@, to: self.to@ }
    }
}

/// The bytes of each line.
spec fn line_bytes(lines: Seq<Vec<u8>>) -> Seq<Seq<u8>> {
    Seq::new(lines.len(), |i: int| lines[i]@)
}

/// The text that is marked, if any is.
spec fn mark_view(mark: Option<Mark>) -> Option<MarkView> {
    match mark {
        Some(mark) => Some(mark@),
        None => None,
    }
}

impl View for Browser {
    type V = BrowseView;

    closed spec fn view(&self) -> BrowseView {
        BrowseView {
            lines: line_bytes(self.lines@),
            rows: self.rows as nat,
            back: self.back as nat,
            mark: mark_view(self.mark),
            chosen: self.chosen,
            keys: self.keys,
            held: self.held@,
        }
    }
}

/// As many lines as can be below those that are shown.
pub open spec fn max_back(view: BrowseView) -> nat {
    if view.lines.len() > view.rows {
        (view.lines.len() - view.rows) as nat
    } else {
        0
    }
}

/// A look at some output that shows as many lines as there is room for, and marks
/// nothing but what is there.
pub open spec fn in_range(view: BrowseView) -> bool {
    &&& view.rows >= 1
    &&& view.lines.len() >= 1
    &&& view.back <= max_back(view)
    &&& view.mark matches Some(mark) ==> mark.from.line < view.lines.len() && mark.to.line
        < view.lines.len()
}

/// The first line that is shown.
pub open spec fn first_line(view: BrowseView) -> nat {
    let end = view.lines.len() - view.back;
    if end > view.rows {
        (end - view.rows) as nat
    } else {
        0
    }
}

/// The lines that are shown.
pub open spec fn visible(view: BrowseView) -> Seq<Seq<u8>> {
    view.lines.subrange(first_line(view) as int, view.lines.len() - view.back)
}

/// The look at the end of some output, on a screen with the given number of rows.
pub open spec fn fresh(output: Seq<u8>, rows: u16) -> BrowseView {
    BrowseView {
        lines: lines_of(text_of(output)),
        rows: if rows == 0 {
            1
        } else {
            rows as nat
        },
        back: 0,
        mark: None,
        chosen: false,
        keys: KeyScan::Between,
        held: seq![],
    }
}

/// One line further back, as long as there is one.
pub open spec fn moved_up(view: BrowseView) -> BrowseView {
    BrowseView {
        back: if view.back < max_back(view) {
            view.back + 1
        } else {
            view.back
        },
        ..view
    }
}

/// One line further on, as long as there is one.
pub open spec fn moved_down(view: BrowseView) -> BrowseView {
    BrowseView {
        back: if view.back > 0 {
            (view.back - 1) as nat
        } else {
            0
        },
        ..view
    }
}

/// A look at some output after one more byte that a key sent.
pub open spec fn after_key(view: BrowseView, byte: u8) -> BrowseView {
    match view.keys {
        KeyScan::Between => BrowseView {
            keys: if byte == 0x1b {
                KeyScan::Escape
            } else {
                KeyScan::Between
            },
            ..view
        },
        KeyScan::Escape => BrowseView {
            keys: if byte == 0x5b || byte == 0x4f {
                KeyScan::Arrow
            } else {
                KeyScan::Between
            },
            ..view
        },
        KeyScan::Arrow => BrowseView {
            keys: KeyScan::Between,
            ..(if byte == 0x41 {
                moved_up(view)
            } else if byte == 0x42 {
                moved_down(view)
            } else {
                view
            })
        },
    }
}

/// The character that the mouse is on, where rows and columns count from one; below
/// the last line it is on the last line.
pub open spec fn cell_at(view: BrowseView, report: Report) -> CellView {
    let last = (visible(view).len() - 1) as nat;
    CellView {
        line: first_line(view) + (if report.row == 0 {
            0
        } else if report.row - 1 > last {
            last
        } else {
            (report.row - 1) as nat
        }),
        col: if report.col == 0 {
            0
        } else {
            (report.col - 1) as nat
        },
    }
}

/// The button of a wheel that turns back.
pub const WHEEL_UP: u32 = 64;

/// The button of a wheel that turns on.
pub const WHEEL_DOWN: u32 = 65;

/// The left button.
pub const LEFT: u32 = 0;

/// The left button, held while the mouse moves.
pub const LEFT_DRAG: u32 = 32;

/// The marking goes on to where the mouse is. At the top edge the look moves back by
/// a line first, at the bottom edge it moves on by one.
pub open spec fn dragged(view: BrowseView, report: Report) -> BrowseView {
    match view.mark {
        Some(mark) => {
            let there = if report.row <= 1 {
                moved_up(view)
            } else if report.row >= view.rows {
                moved_down(view)
            } else {
                view
            };
            BrowseView {
                mark: Some(MarkView { from: mark.from, to: cell_at(there, report) }),
                ..there
            }
        },
        None => view,
    }
}

/// A look at some output after a report of the mouse: the wheel moves it by a line,
/// the left button marks text, from where it is pressed to where it is released. A
/// click that did not move marks nothing.
pub open spec fn after_report(view: BrowseView, report: Report) -> BrowseView {
    if report.button == WHEEL_UP {
        moved_up(view)
    } else if report.button == WHEEL_DOWN {
        moved_down(view)
    } else if report.button == LEFT && report.pressed {
        BrowseView {
            mark: Some(MarkView { from: cell_at(view, report), to: cell_at(view, report) }),
            chosen: false,
            ..view
        }
    } else if report.button == LEFT_DRAG {
        dragged(view, report)
    } else if report.button == LEFT {
        match view.mark {
            Some(mark) if mark.from != mark.to => BrowseView { chosen: true, ..view },
            _ => BrowseView { mark: None, ..view },
        }
    } else {
        view
    }
}

/// A look at some output after a piece of the input.
pub open spec fn after_piece(view: BrowseView, piece: Token) -> BrowseView {
    match piece {
        Token::Key(byte) => after_key(view, byte),
        Token::Mouse(report) => after_report(view, report),
    }
}

/// A look at some output after some pieces of the input.
pub open spec fn after_pieces(view: BrowseView, pieces: Seq<Token>) -> BrowseView
    decreases pieces.len(),
{
    if pieces.len() == 0 {
        view
    } else {
        after_piece(after_pieces(view, pieces.drop_last()), pieces.last())
    }
}

/// A look at some output after some input.
pub open spec fn after_keys(view: BrowseView, input: Seq<u8>) -> BrowseView {
    let all = view.held + input;
    BrowseView {
        held: input::kept_back(all, 0),
        ..after_pieces(view, input::tokens(all, 0))
    }
}

/// The input ends the look at the output: it is over, or holds the key to leave.
pub open spec fn leaves(input: Seq<u8>) -> bool {
    input.len() == 0 || input.contains(DETACH_KEY)
}

/// Where a reader is behind one more byte.
fn next_scan(scan: Scan, byte: u8) -> (next: Scan)
    ensures
        next == scan_next(scan, byte),
{
    if byte == 0x1b {
        return Scan::Escape;
    }
    if byte == 0x18 || byte == 0x1a {
        return Scan::Plain;
    }
    match scan {
        Scan::Plain => Scan::Plain,
        Scan::Escape => match byte {
            0x20..=0x2f => Scan::Designation,
            0x5b => Scan::Control,
            0x5d => Scan::Command,
            0x50 | 0x58 | 0x5e | 0x5f => Scan::ControlString,
            _ => Scan::Plain,
        },
        Scan::Designation => if 0x20 <= byte && byte <= 0x2f {
            Scan::Designation
        } else {
            Scan::Plain
        },
        Scan::Control => if 0x40 <= byte && byte <= 0x7e {
            Scan::Plain
        } else {
            Scan::Control
        },
        Scan::Command => if byte == 0x07 {
            Scan::Plain
        } else {
            Scan::Command
        },
        Scan::ControlString => Scan::ControlString,
    }
}

/// The text in some output, without control sequences and control characters.
pub fn plain_text(bytes: &[u8]) -> (plain: Vec<u8>)
    ensures
        plain@ == text_of(bytes@),
{
    let mut plain: Vec<u8> = Vec::new();
    let mut scan = Scan::Plain;
    let mut i: usize = 0;
    assert(bytes@.take(0) =~= seq![]);
    while i < bytes.len()
        invariant
            i <= bytes@.len(),
            scan == scan_of(bytes@.take(i as int)),
            plain@ == text_of(bytes@.take(i as int)),
        decreases bytes@.len() - i,
    {
        let byte = bytes[i];
        let ghost next = bytes@.take(i + 1);
        assert(next.drop_last() =~= bytes@.take(i as int));
        if scan == Scan::Plain && (byte == 9 || byte == 10 || (0x20 <= byte && byte != 0x7f)) {
            plain.push(byte);
        }
        scan = next_scan(scan, byte);
        i = i + 1;
    }
    assert(bytes@.take(i as int) =~= bytes@);
    plain
}

/// The lines of a text.
fn split_lines(bytes: &Vec<u8>) -> (lines: Vec<Vec<u8>>)
    ensures
        line_bytes(lines@) == lines_of(bytes@),
{
    let mut lines: Vec<Vec<u8>> = Vec::new();
    let mut line: Vec<u8> = Vec::new();
    let mut i: usize = 0;
    assert(bytes@.take(0) =~= seq![]);
    assert(line_bytes(lines@).push(line@) =~= lines_of(bytes@.take(0)));
    while i < bytes.len()
        invariant
            i <= bytes@.len(),
            line_bytes(lines@).push(line@) == lines_of(bytes@.take(i as int)),
        decreases bytes@.len() - i,
    {
        let ghost so_far = line_bytes(lines@);
        let ghost last = line@;
        let ghost next = bytes@.take(i + 1);
        assert(next.drop_last() =~= bytes@.take(i as int));
        assert(so_far.push(last).drop_last() =~= so_far);
        if bytes[i] == 10 {
            lines.push(line);
            line = Vec::new();
            assert(line_bytes(lines@) =~= so_far.push(last));
            assert(line@ =~= seq![]);
        } else {
            line.push(bytes[i]);
        }
        i = i + 1;
        assert(line_bytes(lines@).push(line@) =~= lines_of(bytes@.take(i as int)));
    }
    assert(bytes@.take(i as int) =~= bytes@);
    let ghost so_far = line_bytes(lines@);
    let ghost last = line@;
    lines.push(line);
    assert(line_bytes(lines@) =~= so_far.push(last));
    lines
}

/// Where the character with the number `col`, counted from `at`, begins in a line;
/// the end of the line where it has fewer. Bytes that go on with a character begin
/// none.
pub open spec fn column_at(line: Seq<u8>, col: nat, at: int) -> int
    decreases line.len() - at,
{
    if at < 0 || at >= line.len() {
        line.len() as int
    } else if 0x80 <= line[at] <= 0xbf {
        column_at(line, col, at + 1)
    } else if col == 0 {
        at
    } else {
        column_at(line, (col - 1) as nat, at + 1)
    }
}

/// The marking ends where it began, or further on.
pub open spec fn is_forward(mark: MarkView) -> bool {
    mark.from.line < mark.to.line || (mark.from.line == mark.to.line && mark.from.col
        <= mark.to.col)
}

/// The first character that is marked.
pub open spec fn marked_first(mark: MarkView) -> CellView {
    if is_forward(mark) {
        mark.from
    } else {
        mark.to
    }
}

/// The last character that is marked.
pub open spec fn marked_last(mark: MarkView) -> CellView {
    if is_forward(mark) {
        mark.to
    } else {
        mark.from
    }
}

/// How much of a line is marked: from one byte up to another. On the first line it
/// starts with the first character that is marked, on the last line it ends with
/// the last one, and the lines between are marked whole.
pub open spec fn marked_range(view: BrowseView, index: int) -> (int, int) {
    match view.mark {
        Some(mark) => {
            let first = marked_first(mark);
            let last = marked_last(mark);
            let line = view.lines[index];
            if index < first.line || index > last.line {
                (0, 0)
            } else {
                let start = if index == first.line {
                    column_at(line, first.col, 0)
                } else {
                    0
                };
                let end = if index == last.line {
                    column_at(line, last.col + 1, 0)
                } else {
                    line.len() as int
                };
                (start, if end < start {
                    start
                } else {
                    end
                })
            }
        },
        None => (0, 0),
    }
}

/// What is marked of each line from the first to the last that is.
pub open spec fn marked_lines(view: BrowseView) -> Seq<Seq<u8>> {
    match view.mark {
        Some(mark) => {
            let first = marked_first(mark).line;
            let last = marked_last(mark).line;
            Seq::new(
                (last - first + 1) as nat,
                |i: int|
                    {
                        let range = marked_range(view, first + i);
                        view.lines[first + i].subrange(range.0, range.1)
                    },
            )
        },
        None => seq![],
    }
}

/// The text that is marked.
pub open spec fn marked_text(view: BrowseView) -> Seq<u8> {
    joined_lines(marked_lines(view), seq![10u8])
}

/// A line as it is shown: what is marked of it is in reverse, between `ESC [ 7 m` and
/// `ESC [ 2 7 m`.
pub open spec fn shown_line(view: BrowseView, index: int) -> Seq<u8> {
    let line = view.lines[index];
    let (from, to) = marked_range(view, index);
    if from < to {
        line.take(from) + seq![0x1bu8, 0x5bu8, 0x37u8, 0x6du8] + line.subrange(from, to)
            + seq![0x1bu8, 0x5bu8, 0x32u8, 0x37u8, 0x6du8] + line.skip(to)
    } else {
        line
    }
}

/// The lines that are shown, as they are shown.
pub open spec fn shown(view: BrowseView) -> Seq<Seq<u8>> {
    Seq::new(visible(view).len(), |i: int| shown_line(view, first_line(view) + i))
}

/// A look at the end of the output, with nothing marked.
pub open spec fn is_at_rest(view: BrowseView) -> bool {
    view.back == 0 && view.mark is None
}

/// Where a character begins in a line.
fn find_column(line: &Vec<u8>, col: usize, from: usize) -> (at: usize)
    requires
        from <= line@.len(),
    ensures
        at == column_at(line@, col as nat, from as int),
        from <= at <= line@.len(),
{
    let mut i: usize = from;
    let mut left: usize = col;
    while i < line.len()
        invariant
            from <= i <= line@.len(),
            column_at(line@, left as nat, i as int) == column_at(line@, col as nat, from as int),
        decreases line@.len() - i,
    {
        let byte = line[i];
        if !(0x80 <= byte && byte <= 0xbf) {
            if left == 0 {
                return i;
            }
            left = left - 1;
        }
        i = i + 1;
    }
    i
}

/// Where a character ends in a line.
fn find_column_behind(line: &Vec<u8>, col: usize) -> (at: usize)
    ensures
        at == column_at(line@, col as nat + 1, 0),
        at <= line@.len(),
{
    let len: usize = line.len();
    if col >= len {
        proof {
            lemma_few_columns(line@, col as nat + 1, 0);
        }
        return len;
    }
    find_column(line, col + 1, 0)
}

/// A line has no more characters than bytes.
proof fn lemma_few_columns(line: Seq<u8>, col: nat, at: int)
    requires
        0 <= at <= line.len(),
        col >= line.len() - at,
    ensures
        column_at(line, col, at) == line.len(),
    decreases line.len() - at,
{
    if at < line.len() {
        if 0x80 <= line[at] <= 0xbf {
            lemma_few_columns(line, col, at + 1);
        } else {
            lemma_few_columns(line, (col - 1) as nat, at + 1);
        }
    }
}

/// Whether the input ends the look at the output.
fn is_leaving(input: &[u8]) -> (leaving: bool)
    ensures
        leaving == leaves(input@),
{
    let mut i: usize = 0;
    while i < input.len()
        invariant
            i <= input@.len(),
            forall|k: int| 0 <= k < i ==> input@[k] != DETACH_KEY,
        decreases input@.len() - i,
    {
        if input[i] == DETACH_KEY {
            assert(input@.contains(DETACH_KEY));
            return true;
        }
        i = i + 1;
    }
    input.len() == 0
}

impl Browser {
    /// A look at the end of some output, on a screen with the given number of rows.
    pub fn new(output: &[u8], rows: u16) -> (browser: Self)
        ensures
            browser@ == fresh(output@, rows),
            in_range(browser@),
    {
        let plain = plain_text(output);
        proof {
            lemma_lines(plain@);
        }
        Browser {
            lines: split_lines(&plain),
            rows: if rows == 0 {
                1
            } else {
                rows as usize
            },
            back: 0,
            mark: None,
            chosen: false,
            keys: KeyScan::Between,
            held: Vec::new(),
        }
    }

    /// Moves back by a line, as long as there is one.
    fn move_up(&mut self)
        requires
            in_range(old(self)@),
        ensures
            final(self)@ == moved_up(old(self)@),
            in_range(final(self)@),
    {
        if self.lines.len() > self.rows && self.back < self.lines.len() - self.rows {
            self.back = self.back + 1;
        }
    }

    /// Moves on by a line, as long as there is one.
    fn move_down(&mut self)
        requires
            in_range(old(self)@),
        ensures
            final(self)@ == moved_down(old(self)@),
            in_range(final(self)@),
    {
        if self.back > 0 {
            self.back = self.back - 1;
        }
    }

    /// Takes in one byte that a key sent.
    fn take_key(&mut self, byte: u8)
        requires
            in_range(old(self)@),
        ensures
            final(self)@ == after_key(old(self)@, byte),
            in_range(final(self)@),
    {
        match self.keys {
            KeyScan::Between => {
                if byte == 0x1b {
                    self.keys = KeyScan::Escape;
                }
            },
            KeyScan::Escape => {
                if byte == 0x5b || byte == 0x4f {
                    self.keys = KeyScan::Arrow;
                } else {
                    self.keys = KeyScan::Between;
                }
            },
            KeyScan::Arrow => {
                self.keys = KeyScan::Between;
                if byte == 0x41 {
                    self.move_up();
                } else if byte == 0x42 {
                    self.move_down();
                }
            },
        }
    }

    /// The first line that is shown.
    fn first(&self) -> (first: usize)
        requires
            in_range(self@),
        ensures
            first == first_line(self@),
            first < self.lines@.len() - self.back,
    {
        let end: usize = self.lines.len() - self.back;
        if end > self.rows {
            end - self.rows
        } else {
            0
        }
    }

    /// The character that the mouse is on.
    fn cell(&self, report: Report) -> (cell: Cell)
        requires
            in_range(self@),
        ensures
            cell@ == cell_at(self@, report),
            cell.line < self.lines@.len(),
    {
        let first = self.first();
        let last: usize = self.lines.len() - self.back - 1 - first;
        let down: usize = if report.row == 0 {
            0
        } else if (report.row - 1) as usize > last {
            last
        } else {
            (report.row - 1) as usize
        };
        Cell {
            line: first + down,
            col: if report.col == 0 {
                0
            } else {
                (report.col - 1) as usize
            },
        }
    }

    /// Takes in a report of the mouse.
    pub fn take_report(&mut self, report: Report)
        requires
            in_range(old(self)@),
        ensures
            final(self)@ == after_report(old(self)@, report),
            in_range(final(self)@),
    {
        if report.button == WHEEL_UP {
            self.move_up();
        } else if report.button == WHEEL_DOWN {
            self.move_down();
        } else if report.button == LEFT && report.pressed {
            let cell = self.cell(report);
            self.mark = Some(Mark { from: cell, to: cell });
            self.chosen = false;
        } else if report.button == LEFT_DRAG {
            if let Some(mark) = self.mark {
                if report.row <= 1 {
                    self.move_up();
                } else if report.row as usize >= self.rows {
                    self.move_down();
                }
                let cell = self.cell(report);
                self.mark = Some(Mark { from: mark.from, to: cell });
            }
        } else if report.button == LEFT {
            match self.mark {
                Some(mark) => {
                    if mark.from.line != mark.to.line || mark.from.col != mark.to.col {
                        self.chosen = true;
                    } else {
                        self.mark = None;
                    }
                },
                None => {},
            }
        }
    }

    /// Takes in what came from the keyboard and the mouse: the wheel and the arrow
    /// keys move by a line each, the left button marks text, and every other key but
    /// the one to leave is ignored. `false` when the look is over.
    pub fn on_input(&mut self, input: &[u8]) -> (stays: bool)
        requires
            in_range(old(self)@),
        ensures
            final(self)@ == after_keys(old(self)@, input@),
            in_range(final(self)@),
            stays == !leaves(input@),
    {
        let mut all: Vec<u8> = Vec::new();
        all.extend_from_slice(self.held.as_slice());
        all.extend_from_slice(input);
        assert(all@ =~= old(self)@.held + input@);
        let (pieces, kept) = split_input(all.as_slice());
        let mut i: usize = 0;
        assert(pieces@.take(0) =~= seq![]);
        while i < pieces.len()
            invariant
                i <= pieces@.len(),
                in_range(self@),
                self@ == after_pieces(old(self)@, pieces@.take(i as int)),
            decreases pieces@.len() - i,
        {
            assert(pieces@.take(i + 1).drop_last() =~= pieces@.take(i as int));
            match pieces[i] {
                Token::Key(byte) => self.take_key(byte),
                Token::Mouse(report) => self.take_report(report),
            }
            i = i + 1;
        }
        assert(pieces@.take(i as int) =~= pieces@);
        self.held = kept;
        !is_leaving(input)
    }

    /// How much of the line `index` is marked: from one byte up to another.
    fn marked(&self, index: usize) -> (range: (usize, usize))
        requires
            in_range(self@),
            index < self.lines@.len(),
        ensures
            (range.0 as int, range.1 as int) == marked_range(self@, index as int),
            range.0 <= range.1 <= self@.lines[index as int].len(),
    {
        match self.mark {
            Some(mark) => {
                let forward = mark.from.line < mark.to.line || (mark.from.line == mark.to.line
                    && mark.from.col <= mark.to.col);
                let (first, last) = if forward {
                    (mark.from, mark.to)
                } else {
                    (mark.to, mark.from)
                };
                if index < first.line || index > last.line {
                    return (0, 0);
                }
                let line = &self.lines[index];
                let start: usize = if index == first.line {
                    find_column(line, first.col, 0)
                } else {
                    0
                };
                let end: usize = if index == last.line {
                    find_column_behind(line, last.col)
                } else {
                    line.len()
                };
                (start, if end < start {
                    start
                } else {
                    end
                })
            },
            None => (0, 0),
        }
    }

    /// The lines that are shown, for a terminal in raw mode.
    pub fn page(&self) -> (page: Vec<u8>)
        requires
            in_range(self@),
        ensures
            page@ == joined_lines(shown(self@), seq![13u8, 10u8]),
    {
        let end: usize = self.lines.len() - self.back;
        let start = self.first();
        let mut page: Vec<u8> = Vec::new();
        let ghost all = shown(self@);
        let mut i: usize = start;
        assert(all.take(0) =~= seq![]);
        while i < end
            invariant
                start <= i <= end <= self.lines@.len(),
                in_range(self@),
                start == first_line(self@),
                end == self@.lines.len() - self@.back,
                all == shown(self@),
                page@ == joined_lines(all.take(i - start), seq![13u8, 10u8]),
            decreases end - i,
        {
            let ghost done = all.take(i - start);
            let ghost next = all.take(i - start + 1);
            assert(next.drop_last() =~= done);
            assert(next.last() == shown_line(self@, i as int));
            if i > start {
                page.push(13);
                page.push(10);
            }
            let ghost so_far = page@;
            let (from, to) = self.marked(i);
            let line = &self.lines[i];
            if from < to {
                page.extend_from_slice(&line.as_slice()[0..from]);
                page.push(0x1b);
                page.push(0x5b);
                page.push(0x37);
                page.push(0x6d);
                page.extend_from_slice(&line.as_slice()[from..to]);
                page.push(0x1b);
                page.push(0x5b);
                page.push(0x32);
                page.push(0x37);
                page.push(0x6d);
                page.extend_from_slice(&line.as_slice()[to..line.len()]);
            } else {
                page.extend_from_slice(line.as_slice());
            }
            assert(page@ =~= so_far + shown_line(self@, i as int));
            assert(page@ =~= joined_lines(next, seq![13u8, 10u8]));
            i = i + 1;
        }
        assert(all.take(i - start) =~= all);
        page
    }

    /// The text that is marked, its lines with a line end between them.
    pub fn selection(&self) -> (text: Vec<u8>)
        requires
            in_range(self@),
        ensures
            text@ == marked_text(self@),
    {
        let mut text: Vec<u8> = Vec::new();
        let (first, last) = match self.mark {
            Some(mark) => if mark.from.line <= mark.to.line {
                (mark.from.line, mark.to.line)
            } else {
                (mark.to.line, mark.from.line)
            },
            None => {
                return text;
            },
        };
        let count: usize = self.lines.len();
        let ghost all = marked_lines(self@);
        let mut i: usize = first;
        assert(all.take(0) =~= seq![]);
        while i <= last
            invariant
                first <= i <= last + 1 <= count,
                count == self.lines@.len(),
                in_range(self@),
                self@.mark is Some,
                first == marked_first(self@.mark->0).line,
                last == marked_last(self@.mark->0).line,
                all == marked_lines(self@),
                text@ == joined_lines(all.take(i - first), seq![10u8]),
            decreases last + 1 - i,
        {
            let ghost next = all.take(i - first + 1);
            assert(next.drop_last() =~= all.take(i - first));
            if i > first {
                text.push(10);
            }
            let ghost so_far = text@;
            let (from, to) = self.marked(i);
            text.extend_from_slice(&self.lines[i].as_slice()[from..to]);
            assert(text@ =~= so_far + next.last());
            assert(text@ =~= joined_lines(next, seq![10u8]));
            i = i + 1;
        }
        assert(all.take(i - first) =~= all);
        text
    }

    /// Hands out the marked text once it was chosen: when the button is released,
    /// and only once.
    pub fn take_chosen(&mut self) -> (text: Option<Vec<u8>>)
        requires
            in_range(old(self)@),
        ensures
            in_range(final(self)@),
            final(self)@ == (BrowseView { chosen: false, ..old(self)@ }),
            match text {
                Some(text) => old(self)@.chosen && text@ == marked_text(old(self)@),
                None => !old(self)@.chosen,
            },
    {
        if self.chosen {
            let text = self.selection();
            self.chosen = false;
            Some(text)
        } else {
            None
        }
    }

    /// Whether this is a look at the end of the output, with nothing marked.
    pub fn at_rest(&self) -> (rest: bool)
        ensures
            rest == is_at_rest(self@),
    {
        self.back == 0 && self.mark.is_none()
    }
}

/// There is always a line.
pub proof fn lemma_lines(bytes: Seq<u8>)
    ensures
        lines_of(bytes).len() >= 1,
    decreases bytes.len(),
{
    if bytes.len() > 0 {
        lemma_lines(bytes.drop_last());
    }
}

/// The lines of a text, put together again, are the text.
pub proof fn law_lines_make_the_text(bytes: Seq<u8>)
    ensures
        joined_lines(lines_of(bytes), seq![10u8]) == bytes,
    decreases bytes.len(),
{
    if bytes.len() == 0 {
        assert(lines_of(bytes)[0] =~= bytes);
    } else {
        let before = bytes.drop_last();
        let lines = lines_of(before);
        let after = lines_of(bytes);
        lemma_lines(before);
        law_lines_make_the_text(before);
        assert(before.push(bytes.last()) =~= bytes);
        if bytes.last() == 10 {
            assert(after.drop_last() =~= lines);
            assert(joined_lines(after, seq![10u8]) =~= bytes);
        } else {
            assert(after.drop_last() =~= lines.drop_last());
            assert(joined_lines(after, seq![10u8]) =~= bytes);
        }
    }
}

/// A look at the output after `n` moves back.
pub open spec fn moved_up_by(view: BrowseView, n: nat) -> BrowseView
    decreases n,
{
    if n == 0 {
        view
    } else {
        moved_up(moved_up_by(view, (n - 1) as nat))
    }
}

/// How far back `n` moves lead.
proof fn lemma_moved_up_by(view: BrowseView, n: nat)
    requires
        in_range(view),
    ensures
        moved_up_by(view, n) == (BrowseView {
            back: if view.back + n <= max_back(view) {
                view.back + n
            } else {
                max_back(view)
            },
            ..view
        }),
    decreases n,
{
    if n > 0 {
        lemma_moved_up_by(view, (n - 1) as nat);
    }
}

/// The input of `n` arrow keys that point up.
pub open spec fn arrow_ups(n: nat) -> Seq<u8>
    decreases n,
{
    if n == 0 {
        seq![]
    } else {
        arrow_ups((n - 1) as nat) + seq![0x1bu8, 0x5bu8, 0x41u8]
    }
}

/// The keys that sent some bytes.
pub open spec fn as_keys(bytes: Seq<u8>) -> Seq<Token> {
    Seq::new(bytes.len(), |i: int| Token::Key(bytes[i]))
}

/// Arrow keys send no report of the mouse.
proof fn lemma_arrow_ups_are_keys(n: nat)
    ensures
        forall|i: int| 0 <= i < arrow_ups(n).len() ==> #[trigger] arrow_ups(n)[i] != 0x3c,
        input::tokens(arrow_ups(n), 0) == as_keys(arrow_ups(n)),
        input::kept_back(arrow_ups(n), 0) == Seq::<u8>::empty(),
    decreases n,
{
    let bytes = arrow_ups(n);
    if n > 0 {
        let before = arrow_ups((n - 1) as nat);
        lemma_arrow_ups_are_keys((n - 1) as nat);
        assert forall|i: int| 0 <= i < bytes.len() implies #[trigger] bytes[i] != 0x3c by {
            if i < before.len() {
                assert(before[i] != 0x3c);
            }
        }
    }
    assert forall|i: int| 0 <= i < bytes.len() implies #[trigger] input::no_report(bytes, i) by {
        if i + 2 < bytes.len() {
            assert(bytes[i + 2] != 0x3c);
        }
    }
    input::lemma_tokens_are_keys(bytes, 0);
    assert(input::tokens(bytes, 0) =~= as_keys(bytes));
}

/// Each arrow key that points up moves back by a line.
proof fn lemma_arrow_ups(view: BrowseView, n: nat)
    requires
        view.keys == KeyScan::Between,
    ensures
        after_pieces(view, as_keys(arrow_ups(n))) == moved_up_by(view, n),
    decreases n,
{
    let pieces = as_keys(arrow_ups(n));
    if n == 0 {
        assert(pieces =~= seq![]);
    } else {
        let before = (n - 1) as nat;
        lemma_arrow_ups(view, before);
        lemma_moves_keep_keys(view, before);
        let three = pieces;
        let two = three.drop_last();
        let one = two.drop_last();
        assert(one.drop_last() =~= as_keys(arrow_ups(before)));
        assert(one.last() == Token::Key(0x1b));
        assert(two.last() == Token::Key(0x5b));
        assert(three.last() == Token::Key(0x41));
        let there = moved_up_by(view, before);
        assert(after_pieces(view, one) == after_key(there, 0x1b));
        assert(after_pieces(view, two) == after_key(after_key(there, 0x1b), 0x5b));
        assert(after_pieces(view, three) == moved_up(there));
    }
}

/// Moves do not touch the input.
proof fn lemma_moves_keep_keys(view: BrowseView, n: nat)
    ensures
        moved_up_by(view, n).keys == view.keys,
    decreases n,
{
    if n > 0 {
        lemma_moves_keep_keys(view, (n - 1) as nat);
    }
}

/// As many moves back as bring a line onto the screen.
proof fn lemma_line_is_shown(view: BrowseView, line: int) -> (n: nat)
    requires
        in_range(view),
        view.back == 0,
        0 <= line < view.lines.len(),
    ensures
        forall|there: BrowseView|
            there.lines == view.lines && there.rows == view.rows && there.back == moved_up_by(
                view,
                n,
            ).back ==> #[trigger] visible(there).contains(view.lines[line]),
{
    let len = view.lines.len();
    let n: nat = if len - line > view.rows {
        (len - line - view.rows) as nat
    } else {
        0
    };
    lemma_moved_up_by(view, n);
    let back = moved_up_by(view, n).back;
    assert forall|there: BrowseView|
        there.lines == view.lines && there.rows == view.rows && there.back == back implies
        #[trigger] visible(there).contains(view.lines[line]) by {
        assert(visible(there)[line - first_line(there)] == view.lines[line]);
    }
    n
}

/// Whichever line of the output is asked for, pressing the arrow key that points up
/// often enough brings it onto the screen.
pub proof fn law_every_line_can_be_reached(view: BrowseView, line: int)
    requires
        in_range(view),
        view.back == 0,
        view.keys == KeyScan::Between,
        view.held.len() == 0,
        0 <= line < view.lines.len(),
    ensures
        exists|n: nat| #[trigger]
            visible(after_keys(view, arrow_ups(n))).contains(view.lines[line]),
{
    let n = lemma_line_is_shown(view, line);
    lemma_arrow_ups_are_keys(n);
    lemma_arrow_ups(view, n);
    lemma_moved_up_by(view, n);
    assert(view.held + arrow_ups(n) =~= arrow_ups(n));
    let there = after_keys(view, arrow_ups(n));
    assert(visible(there).contains(view.lines[line]));
}

/// The same report of the mouse, `n` times.
pub open spec fn repeated(report: Report, n: nat) -> Seq<Token> {
    Seq::new(n, |i: int| Token::Mouse(report))
}

/// A wheel that turns back, and a drag at the top edge, move back by a line each.
proof fn lemma_reports_move_up(view: BrowseView, report: Report, n: nat)
    requires
        report.button == WHEEL_UP || (report.button == LEFT_DRAG && report.row <= 1
            && view.mark is Some),
    ensures
        ({
            let there = after_pieces(view, repeated(report, n));
            &&& there.lines == view.lines
            &&& there.rows == view.rows
            &&& there.back == moved_up_by(view, n).back
            &&& there.mark is Some == view.mark is Some
            &&& moved_up_by(view, n).lines == view.lines
            &&& moved_up_by(view, n).rows == view.rows
        }),
    decreases n,
{
    if n > 0 {
        let before = (n - 1) as nat;
        lemma_reports_move_up(view, report, before);
        assert(repeated(report, n).drop_last() =~= repeated(report, before));
    }
}

/// Whichever line of the output is asked for, turning the wheel back often enough
/// brings it onto the screen.
pub proof fn law_wheel_reaches_every_line(view: BrowseView, report: Report, line: int)
    requires
        in_range(view),
        view.back == 0,
        report.button == WHEEL_UP,
        0 <= line < view.lines.len(),
    ensures
        exists|n: nat| #[trigger]
            visible(after_pieces(view, repeated(report, n))).contains(view.lines[line]),
{
    let n = lemma_line_is_shown(view, line);
    lemma_reports_move_up(view, report, n);
    assert(visible(after_pieces(view, repeated(report, n))).contains(view.lines[line]));
}

/// Whichever line of the output is asked for, dragging at the top edge long enough
/// brings it onto the screen, and the marking still begins where it began.
pub proof fn law_drag_reaches_every_line(view: BrowseView, report: Report, line: int)
    requires
        in_range(view),
        view.back == 0,
        view.mark is Some,
        report.button == LEFT_DRAG,
        report.row <= 1,
        0 <= line < view.lines.len(),
    ensures
        exists|n: nat| #[trigger]
            visible(after_pieces(view, repeated(report, n))).contains(view.lines[line])
                && after_pieces(view, repeated(report, n)).mark->0.from == view.mark->0.from,
{
    let n = lemma_line_is_shown(view, line);
    lemma_reports_move_up(view, report, n);
    lemma_drag_keeps_start(view, report, n);
    assert(visible(after_pieces(view, repeated(report, n))).contains(view.lines[line]));
}

/// A wheel that turns on, and a drag at the bottom edge, move on by a line each.
proof fn lemma_reports_move_down(view: BrowseView, report: Report, n: nat)
    requires
        n <= view.back,
        report.button == WHEEL_DOWN || (report.button == LEFT_DRAG && 1 < report.row
            && view.rows <= report.row && view.mark is Some),
    ensures
        ({
            let there = after_pieces(view, repeated(report, n));
            &&& there.lines == view.lines
            &&& there.rows == view.rows
            &&& there.back == view.back - n
            &&& there.mark is Some == view.mark is Some
        }),
    decreases n,
{
    if n > 0 {
        let before = (n - 1) as nat;
        lemma_reports_move_down(view, report, before);
        assert(repeated(report, n).drop_last() =~= repeated(report, before));
    }
}

/// However far back a look is, turning the wheel on often enough, or dragging at the
/// bottom edge long enough, leads to the end of the output.
pub proof fn law_end_can_be_reached(view: BrowseView, report: Report)
    requires
        in_range(view),
        report.button == WHEEL_DOWN || (report.button == LEFT_DRAG && 1 < report.row
            && view.rows <= report.row && view.mark is Some),
    ensures
        exists|n: nat| (#[trigger] after_pieces(view, repeated(report, n))).back == 0,
{
    lemma_reports_move_down(view, report, view.back);
    assert(after_pieces(view, repeated(report, view.back)).back == 0);
}

/// However often the mouse is dragged, the marking begins where it began.
proof fn lemma_drag_keeps_start(view: BrowseView, report: Report, n: nat)
    requires
        view.mark is Some,
        report.button == LEFT_DRAG,
    ensures
        after_pieces(view, repeated(report, n)).mark is Some,
        after_pieces(view, repeated(report, n)).mark->0.from == view.mark->0.from,
    decreases n,
{
    if n > 0 {
        lemma_drag_keeps_start(view, report, (n - 1) as nat);
        assert(repeated(report, n).drop_last() =~= repeated(report, (n - 1) as nat));
    }
}

/// Where nothing is marked, the lines are shown as they are.
pub proof fn law_unmarked_lines_are_shown_as_they_are(view: BrowseView)
    requires
        in_range(view),
        view.mark is None,
    ensures
        shown(view) == visible(view),
{
    assert(shown(view) =~= visible(view));
}

/// As many lines are shown as there is room for, or all of them; and moving back
/// and on again shows what was shown before, unless the beginning was reached.
pub proof fn law_screen_is_filled(view: BrowseView)
    requires
        in_range(view),
    ensures
        visible(view).len() == (if view.lines.len() < view.rows {
            view.lines.len()
        } else {
            view.rows
        }),
        view.back < max_back(view) ==> moved_down(moved_up(view)) == view,
        in_range(moved_up(view)),
        in_range(moved_down(view)),
{
}

/// Behind a place where a reader is in text, it reads on as from the beginning.
pub proof fn law_text_of_parts(a: Seq<u8>, b: Seq<u8>)
    requires
        scan_of(a) == Scan::Plain,
    ensures
        text_of(a + b) == text_of(a) + text_of(b),
        scan_of(a + b) == scan_of(b),
    decreases b.len(),
{
    if b.len() == 0 {
        assert(a + b =~= a);
        assert(text_of(a) + text_of(b) =~= text_of(a));
    } else {
        assert((a + b).drop_last() =~= a + b.drop_last());
        law_text_of_parts(a, b.drop_last());
        assert(text_of(a + b) =~= text_of(a) + text_of(b));
    }
}

/// Output without control characters other than tabs and line ends is text, byte for
/// byte.
pub proof fn law_plain_output_is_text(bytes: Seq<u8>)
    requires
        forall|i: int|
            0 <= i < bytes.len() ==> (#[trigger] bytes[i] == 9 || bytes[i] == 10 || (bytes[i]
                >= 0x20 && bytes[i] != 0x7f)),
    ensures
        text_of(bytes) == bytes,
        scan_of(bytes) == Scan::Plain,
    decreases bytes.len(),
{
    if bytes.len() == 0 {
        assert(text_of(bytes) =~= bytes);
    } else {
        let before = bytes.drop_last();
        assert forall|i: int| 0 <= i < before.len() implies (#[trigger] before[i] == 9 || before[i]
            == 10 || (before[i] >= 0x20 && before[i] != 0x7f)) by {
            assert(before[i] == bytes[i]);
        }
        law_plain_output_is_text(before);
        let last = bytes[bytes.len() - 1];
        assert(before.push(last) =~= bytes);
    }
}

/// Of the bytes in a sequence that is not over, none is text.
proof fn lemma_inside(start: Seq<u8>, inside: Scan, body: Seq<u8>)
    requires
        scan_of(start) == inside,
        inside != Scan::Plain,
        forall|i: int| 0 <= i < body.len() ==> scan_next(inside, #[trigger] body[i]) == inside,
    ensures
        scan_of(start + body) == inside,
        text_of(start + body) == text_of(start),
    decreases body.len(),
{
    if body.len() == 0 {
        assert(start + body =~= start);
    } else {
        let before = body.drop_last();
        assert forall|i: int| 0 <= i < before.len() implies scan_next(inside, #[trigger] before[i])
            == inside by {
            assert(before[i] == body[i]);
        }
        lemma_inside(start, inside, before);
        assert((start + body).drop_last() =~= start + before);
        assert(scan_next(inside, body[body.len() - 1]) == inside);
    }
}

/// Of a byte that begins or ends a sequence, nothing is text.
proof fn lemma_one_more(bytes: Seq<u8>, byte: u8)
    ensures
        scan_of(bytes.push(byte)) == scan_next(scan_of(bytes), byte),
        scan_of(bytes) != Scan::Plain || byte == 0x1b ==> text_of(bytes.push(byte)) == text_of(
            bytes,
        ),
{
    assert(bytes.push(byte).drop_last() =~= bytes);
}

/// A control sequence is no text, and text goes on behind it: `ESC [`, any parameters,
/// and a letter.
pub proof fn law_control_sequence_is_no_text(before: Seq<u8>, body: Seq<u8>, last: u8)
    requires
        scan_of(before) == Scan::Plain,
        forall|i: int| 0 <= i < body.len() ==> 0x20 <= #[trigger] body[i] <= 0x3f,
        0x40 <= last <= 0x7e,
    ensures
        ({
            let all = before.push(0x1b).push(0x5b) + body;
            &&& text_of(all.push(last)) == text_of(before)
            &&& scan_of(all.push(last)) == Scan::Plain
        }),
{
    let start = before.push(0x1b).push(0x5b);
    lemma_one_more(before, 0x1b);
    lemma_one_more(before.push(0x1b), 0x5b);
    lemma_inside(start, Scan::Control, body);
    lemma_one_more(start + body, last);
}

/// A command is no text, and text goes on behind it: `ESC ]`, anything, and a BEL.
pub proof fn law_command_is_no_text(before: Seq<u8>, body: Seq<u8>)
    requires
        scan_of(before) == Scan::Plain,
        forall|i: int|
            0 <= i < body.len() ==> (#[trigger] body[i]) != 0x1b && body[i] != 0x07 && body[i]
                != 0x18 && body[i] != 0x1a,
    ensures
        ({
            let all = before.push(0x1b).push(0x5d) + body;
            &&& text_of(all.push(0x07)) == text_of(before)
            &&& scan_of(all.push(0x07)) == Scan::Plain
            &&& text_of(all.push(0x1b).push(0x5c)) == text_of(before)
            &&& scan_of(all.push(0x1b).push(0x5c)) == Scan::Plain
        }),
{
    let start = before.push(0x1b).push(0x5d);
    lemma_one_more(before, 0x1b);
    lemma_one_more(before.push(0x1b), 0x5d);
    lemma_inside(start, Scan::Command, body);
    lemma_one_more(start + body, 0x07);
    lemma_one_more(start + body, 0x1b);
    lemma_one_more((start + body).push(0x1b), 0x5c);
}

/// A string for the terminal is no text, and text goes on behind it: an ESC with `P`,
/// `X`, `^` or `_`, anything, and `ESC \`. A character set that is chosen is none
/// either: an ESC, bytes from 0x20 to 0x2f, and one more.
pub proof fn law_terminal_string_is_no_text(
    before: Seq<u8>,
    kind: u8,
    body: Seq<u8>,
    set: Seq<u8>,
    last: u8,
)
    requires
        scan_of(before) == Scan::Plain,
        kind == 0x50 || kind == 0x58 || kind == 0x5e || kind == 0x5f,
        forall|i: int|
            0 <= i < body.len() ==> (#[trigger] body[i]) != 0x1b && body[i] != 0x18 && body[i]
                != 0x1a,
        set.len() > 0,
        forall|i: int| 0 <= i < set.len() ==> 0x20 <= #[trigger] set[i] <= 0x2f,
        0x30 <= last <= 0x7e,
    ensures
        ({
            let all = before.push(0x1b).push(kind) + body;
            let chosen = before.push(0x1b) + set;
            &&& text_of(all.push(0x1b).push(0x5c)) == text_of(before)
            &&& scan_of(all.push(0x1b).push(0x5c)) == Scan::Plain
            &&& text_of(chosen.push(last)) == text_of(before)
            &&& scan_of(chosen.push(last)) == Scan::Plain
        }),
{
    let start = before.push(0x1b).push(kind);
    lemma_one_more(before, 0x1b);
    lemma_one_more(before.push(0x1b), kind);
    lemma_inside(start, Scan::ControlString, body);
    lemma_one_more(start + body, 0x1b);
    lemma_one_more((start + body).push(0x1b), 0x5c);
    let first = before.push(0x1b).push(set[0]);
    let rest = set.drop_first();
    lemma_one_more(before.push(0x1b), set[0]);
    assert forall|i: int| 0 <= i < rest.len() implies scan_next(
        Scan::Designation,
        #[trigger] rest[i],
    ) == Scan::Designation by {
        assert(rest[i] == set[i + 1]);
    }
    lemma_inside(first, Scan::Designation, rest);
    assert(first + rest =~= before.push(0x1b) + set);
    lemma_one_more(first + rest, last);
}

/// A line holds no line end: the text is cut at every one of them.
pub proof fn law_text_is_cut_at_every_line_end(bytes: Seq<u8>)
    ensures
        lines_of(bytes).len() >= 1,
        forall|i: int|
            0 <= i < lines_of(bytes).len() ==> !(#[trigger] lines_of(bytes)[i]).contains(10),
    decreases bytes.len(),
{
    lemma_lines(bytes);
    if bytes.len() > 0 {
        let before = bytes.drop_last();
        law_text_is_cut_at_every_line_end(before);
        lemma_lines(before);
        let lines = lines_of(before);
        let after = lines_of(bytes);
        assert forall|i: int| 0 <= i < after.len() implies !(#[trigger] after[i]).contains(10) by {
            if bytes.last() == 10 {
                if i < lines.len() {
                    assert(after[i] == lines[i]);
                }
            } else {
                if i < lines.len() - 1 {
                    assert(after[i] == lines[i]);
                } else {
                    assert(after[i] == lines.last().push(bytes.last()));
                    assert(!lines[lines.len() - 1].contains(10));
                    assert forall|k: int| 0 <= k < after[i].len() implies after[i][k] != 10 by {
                        if k < lines.last().len() {
                            assert(lines.last()[k] == after[i][k]);
                        }
                    }
                }
            }
        }
    }
}

/// What is on the screen is a stretch of the lines: as many as there are rows, or all of
/// them, and below it as many as the look has moved back. The look begins at the end.
pub proof fn law_screen_shows_a_stretch(view: BrowseView, output: Seq<u8>, rows: u16)
    requires
        in_range(view),
    ensures
        forall|i: int|
            0 <= i < visible(view).len() ==> #[trigger] visible(view)[i] == view.lines[view.lines.len()
                - view.back - visible(view).len() + i],
        view.lines.len() <= view.rows ==> visible(view) == view.lines,
        fresh(output, rows).back == 0,
        fresh(output, rows).lines == lines_of(text_of(output)),
        rows > 0 ==> fresh(output, rows).rows == rows,
        fresh(output, rows).mark is None,
{
    if view.lines.len() <= view.rows {
        assert(visible(view) =~= view.lines);
    }
}

/// The wheel moves by one line, and only as far as there are lines; so do the arrow
/// keys. Neither changes the lines or what is marked.
pub proof fn law_one_step_is_one_line(view: BrowseView, report: Report)
    requires
        in_range(view),
    ensures
        report.button == 64 && view.back + view.rows < view.lines.len() ==> after_report(
            view,
            report,
        ) == (BrowseView { back: view.back + 1, ..view }),
        report.button == 64 && view.back + view.rows >= view.lines.len() ==> after_report(
            view,
            report,
        ) == view,
        report.button == 65 && view.back > 0 ==> after_report(view, report) == (BrowseView {
            back: (view.back - 1) as nat,
            ..view
        }),
        report.button == 65 && view.back == 0 ==> after_report(view, report) == view,
        view.keys == KeyScan::Between ==> {
            &&& after_key(after_key(after_key(view, 0x1b), 0x5b), 0x41) == moved_up(view)
            &&& after_key(after_key(after_key(view, 0x1b), 0x5b), 0x42) == moved_down(view)
            &&& after_key(after_key(after_key(view, 0x1b), 0x4f), 0x41) == moved_up(view)
            &&& after_key(after_key(after_key(view, 0x1b), 0x4f), 0x42) == moved_down(view)
        },
        view.back + view.rows < view.lines.len() ==> moved_up(view) == (BrowseView {
            back: view.back + 1,
            ..view
        }),
        view.back > 0 ==> moved_down(view) == (BrowseView { back: (view.back - 1) as nat, ..view }),
{
}

/// The input ends the look if it is over or holds Ctrl+A, and only then.
pub proof fn law_look_ends_by_the_key(input: Seq<u8>)
    ensures
        leaves(input) <==> input.len() == 0 || input.contains(1u8),
{
}

/// On a line of ASCII, the characters are the bytes.
proof fn lemma_ascii_columns(line: Seq<u8>, col: nat, at: int)
    requires
        forall|i: int| 0 <= i < line.len() ==> #[trigger] line[i] < 0x80,
        0 <= at <= line.len(),
    ensures
        column_at(line, col, at) == (if at + col <= line.len() {
            at + col
        } else {
            line.len() as int
        }),
    decreases line.len() - at,
{
    if at < line.len() {
        assert(line[at] < 0x80);
        if col > 0 {
            lemma_ascii_columns(line, (col - 1) as nat, at + 1);
        }
    }
}

/// Dragging along a line marks the characters from where the button was pressed to where
/// the mouse is, both of them too, whichever way it went.
pub proof fn law_drag_marks_the_characters(view: BrowseView, line: nat, from: nat, to: nat)
    requires
        line < view.lines.len(),
        from <= to < view.lines[line as int].len(),
        forall|i: int|
            0 <= i < view.lines[line as int].len() ==> #[trigger] view.lines[line as int][i] < 0x80,
    ensures
        ({
            let a = CellView { line, col: from };
            let b = CellView { line, col: to };
            let there = BrowseView { mark: Some(MarkView { from: a, to: b }), ..view };
            let back = BrowseView { mark: Some(MarkView { from: b, to: a }), ..view };
            &&& marked_text(there) == view.lines[line as int].subrange(from as int, to as int + 1)
            &&& marked_text(back) == view.lines[line as int].subrange(from as int, to as int + 1)
        }),
{
    let text = view.lines[line as int];
    lemma_ascii_columns(text, from, 0);
    lemma_ascii_columns(text, to + 1, 0);
    let a = CellView { line, col: from };
    let b = CellView { line, col: to };
    let there = BrowseView { mark: Some(MarkView { from: a, to: b }), ..view };
    let back = BrowseView { mark: Some(MarkView { from: b, to: a }), ..view };
    assert(marked_lines(there) =~= seq![text.subrange(from as int, to as int + 1)]);
    assert(marked_lines(back) =~= seq![text.subrange(from as int, to as int + 1)]);
}

/// A press of the left button begins a marking where the mouse is, and a release where
/// it went elsewhere chooses what is marked; a click marks nothing.
pub proof fn law_button_marks(view: BrowseView, report: Report)
    requires
        report.button == 0,
    ensures
        report.pressed ==> after_report(view, report).mark == Some(
            MarkView { from: cell_at(view, report), to: cell_at(view, report) },
        ) && after_report(view, report).back == view.back,
        !report.pressed && view.mark is Some && view.mark->0.from != view.mark->0.to
            ==> after_report(view, report) == (BrowseView { chosen: true, ..view }),
        !report.pressed && (view.mark is None || view.mark->0.from == view.mark->0.to)
            ==> after_report(view, report) == (BrowseView { mark: None, ..view }),
{
}

} // verus!
