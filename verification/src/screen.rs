//! What the user sees on the way into a session and out of it.
use crate::text;
use crate::text::{push_decimal, push_repeated, ACCENT, BOLD, DIM, RESET};
use vstd::prelude::*;
use vstd::string::*;
use vstd::utf8::*;

verus! {

/// Switches to the alternate screen.
pub const ALT_SCREEN_ENTER: &'static str = "\x1b[?1049h";

/// Switches back from the alternate screen.
pub const ALT_SCREEN_EXIT: &'static str = "\x1b[?1049l";

/// Clears the screen and puts the cursor into its corner.
pub const CLEAR_SCREEN: &'static str = "\x1b[2J\x1b[H";

/// Hides the cursor.
pub const HIDE_CURSOR: &'static str = "\x1b[?25l";

/// Shows the cursor.
pub const SHOW_CURSOR: &'static str = "\x1b[?25h";

/// Delay between transition animation frames, in milliseconds. Lower is faster.
pub const FRAME_DELAY_MS: u64 = 36;

/// The last frame of the transition.
pub const LAST_FRAME: usize = 8;

/// `a` less `b`, and at least `low`.
pub open spec fn less(a: int, b: int, low: int) -> int {
    if a - b < low {
        low
    } else {
        a - b
    }
}

/// The lesser of two numbers.
pub open spec fn least(a: int, b: int) -> int {
    if a < b {
        a
    } else {
        b
    }
}

/// The greater of two numbers.
pub open spec fn most(a: int, b: int) -> int {
    if a < b {
        b
    } else {
        a
    }
}

/// The width that a box grows to: the screen without a margin, but no more than 72
/// columns unless its label is wider.
pub open spec fn full_width(cols: int, label_len: int) -> int {
    let available = less(cols, 4, 1);
    most(least(available, 72), least(label_len, available))
}

/// The height that a box grows to: the screen without a margin, but no more than
/// 11 rows.
pub open spec fn full_height(rows: int) -> int {
    least(less(rows, 6, 1), 11)
}

/// A length that grows from one to `full` in `last` steps, at step `frame`.
pub open spec fn grown(full: int, frame: int, last: int) -> int {
    1 + ((full - 1) * frame) / most(last, 1)
}

/// The first of `total` rows or columns, counted from one, that puts something of
/// length `len` into the middle.
pub open spec fn centered(total: int, len: int) -> int {
    most(less(total, len, 0) / 2, 1)
}

/// Where a frame of the transition is drawn.
#[derive(Clone, Copy, Debug, PartialEq, Eq, Structural)]
pub struct FrameBox {
    pub width: usize,
    pub height: usize,
    pub row: usize,
    pub col: usize,
    pub label_row: usize,
    pub label_col: usize,
}

/// The box of a frame on a screen of the given size.
pub open spec fn is_frame_box(
    frame_box: FrameBox,
    rows: int,
    cols: int,
    label_len: int,
    frame: int,
    last: int,
) -> bool {
    &&& frame_box.width == grown(full_width(cols, label_len), frame, last)
    &&& frame_box.height == grown(full_height(rows), frame, last)
    &&& frame_box.row == centered(rows, frame_box.height as int)
    &&& frame_box.col == centered(cols, frame_box.width as int)
    &&& frame_box.label_row == less(frame_box.row as int, 2, 1)
    &&& frame_box.label_col == centered(cols, label_len)
}

/// The numbers of a frame can be computed on this machine.
pub open spec fn frame_fits(
    rows: int,
    cols: int,
    label_len: int,
    frame: int,
    last: int,
) -> bool {
    &&& (full_width(cols, label_len) - 1) * frame <= usize::MAX
    &&& grown(full_width(cols, label_len), frame, last) <= usize::MAX
    &&& (full_height(rows) - 1) * frame <= usize::MAX
    &&& grown(full_height(rows), frame, last) <= usize::MAX
}

/// The first of `total` rows or columns that puts something into the middle.
fn center(total: u16, len: usize) -> (at: usize)
    ensures
        at == centered(total as int, len as int),
{
    let room: usize = if total as usize > len {
        (total as usize - len) / 2
    } else {
        0
    };
    if room < 1 {
        1
    } else {
        room
    }
}

/// A length that grows from one to `full`, at step `frame`.
fn grow(full: usize, frame: usize, last: usize) -> (len: usize)
    requires
        full >= 1,
        (full - 1) * frame <= usize::MAX,
        grown(full as int, frame as int, last as int) <= usize::MAX,
    ensures
        len == grown(full as int, frame as int, last as int),
        len >= 1,
{
    proof {
        vstd::arithmetic::mul::lemma_mul_nonnegative(full - 1, frame as int);
    }
    let product: usize = (full - 1) * frame;
    let steps: usize = if last < 1 {
        1
    } else {
        last
    };
    1 + product / steps
}

/// The box of a frame on a screen of the given size.
pub fn frame_box(rows: u16, cols: u16, label: &str, frame: usize, last: usize) -> (frame_box:
    FrameBox)
    requires
        frame_fits(
            rows as int,
            cols as int,
            encode_utf8(label@).len() as int,
            frame as int,
            last as int,
        ),
    ensures
        is_frame_box(
            frame_box,
            rows as int,
            cols as int,
            encode_utf8(label@).len() as int,
            frame as int,
            last as int,
        ),
{
    let label_len: usize = label.as_bytes().len();
    let available_width: usize = if cols > 5 {
        (cols - 4) as usize
    } else {
        1
    };
    let available_height: usize = if rows > 7 {
        (rows - 6) as usize
    } else {
        1
    };
    let label_width: usize = if label_len < available_width {
        label_len
    } else {
        available_width
    };
    let usual_width: usize = if available_width < 72 {
        available_width
    } else {
        72
    };
    let max_width: usize = if usual_width < label_width {
        label_width
    } else {
        usual_width
    };
    let max_height: usize = if available_height < 11 {
        available_height
    } else {
        11
    };
    let width = grow(max_width, frame, last);
    let height = grow(max_height, frame, last);
    let row = center(rows, height);
    let col = center(cols, width);
    let label_row: usize = if row > 3 {
        row - 2
    } else {
        1
    };
    FrameBox { width, height, row, col, label_row, label_col: center(cols, label_len) }
}

/// Puts the cursor to a row and a column.
pub open spec fn cursor_to(row: nat, col: nat) -> Seq<char> {
    "\x1b["@ + text::decimal(row) + ";"@ + text::decimal(col) + "H"@
}

/// One row of a box: its upper and lower edge are drawn through, the rows between
/// them at both ends.
pub open spec fn box_row(width: nat, height: nat, offset: int) -> Seq<char> {
    if offset == 0 || offset + 1 == height || width <= 2 {
        text::repeated('#', width)
    } else {
        seq!['#'] + text::repeated(' ', (width - 2) as nat) + seq!['#']
    }
}

/// The first `count` rows of a box, each put where it belongs.
pub open spec fn box_rows(b: FrameBox, count: int) -> Seq<char>
    decreases count,
{
    if count <= 0 {
        seq![]
    } else {
        box_rows(b, count - 1) + cursor_to((b.row + count - 1) as nat, b.col as nat) + ACCENT@
            + BOLD@ + box_row(b.width as nat, b.height as nat, count - 1) + RESET@
    }
}

/// A frame of the transition: an empty screen with the label and the box on it.
pub open spec fn frame_text(label: Seq<char>, b: FrameBox) -> Seq<char> {
    HIDE_CURSOR@ + CLEAR_SCREEN@ + cursor_to(b.label_row as nat, b.label_col as nat) + DIM@ + label
        + RESET@ + box_rows(b, b.height as int)
}

/// Puts the cursor to a row and a column.
fn push_cursor(out: &mut String, row: usize, col: usize)
    ensures
        final(out)@ == old(out)@ + cursor_to(row as nat, col as nat),
{
    out.append("\x1b[");
    push_decimal(out, row);
    out.append(";");
    push_decimal(out, col);
    out.append("H");
    assert(out@ =~= old(out)@ + cursor_to(row as nat, col as nat));
}

/// Writes one row of a box behind `out`.
fn push_box_row(out: &mut String, width: usize, height: usize, offset: usize)
    requires
        offset < height,
    ensures
        final(out)@ == old(out)@ + box_row(width as nat, height as nat, offset as int),
{
    if offset == 0 || offset + 1 == height || width <= 2 {
        push_repeated(out, '#', width);
    } else {
        out.push('#');
        push_repeated(out, ' ', width - 2);
        out.push('#');
        assert(out@ =~= old(out)@ + box_row(width as nat, height as nat, offset as int));
    }
}

/// A frame of the transition as it is drawn in a box.
fn draw_box(label: &str, b: FrameBox) -> (drawn: String)
    requires
        b.row + b.height <= usize::MAX + 1,
    ensures
        drawn@ == frame_text(label@, b),
{
    let mut drawn = String::new();
    drawn.append(HIDE_CURSOR);
    drawn.append(CLEAR_SCREEN);
    push_cursor(&mut drawn, b.label_row, b.label_col);
    drawn.append(DIM);
    drawn.append(label);
    drawn.append(RESET);
    let ghost head = drawn@;
    assert(head =~= HIDE_CURSOR@ + CLEAR_SCREEN@ + cursor_to(
        b.label_row as nat,
        b.label_col as nat,
    ) + DIM@ + label@ + RESET@);
    assert(head + box_rows(b, 0) =~= head);
    let mut offset: usize = 0;
    while offset < b.height
        invariant
            offset <= b.height,
            b.row + b.height <= usize::MAX + 1,
            drawn@ == head + box_rows(b, offset as int),
        decreases b.height - offset,
    {
        let ghost before = drawn@;
        push_cursor(&mut drawn, b.row + offset, b.col);
        drawn.append(ACCENT);
        drawn.append(BOLD);
        push_box_row(&mut drawn, b.width, b.height, offset);
        drawn.append(RESET);
        offset = offset + 1;
        assert(drawn@ =~= head + box_rows(b, offset as int));
    }
    drawn
}

/// A frame of the transition on a screen of the given size.
pub fn draw_pixel_frame(label: &str, frame: usize, last: usize, rows: u16, cols: u16) -> (drawn:
    String)
    requires
        frame_fits(
            rows as int,
            cols as int,
            encode_utf8(label@).len() as int,
            frame as int,
            last as int,
        ),
    ensures
        exists|b: FrameBox|
            {
                &&& is_frame_box(
                    b,
                    rows as int,
                    cols as int,
                    encode_utf8(label@).len() as int,
                    frame as int,
                    last as int,
                )
                &&& drawn@ == #[trigger] frame_text(label@, b)
            },
{
    let b = frame_box(rows, cols, label, frame, last);
    draw_box(label, b)
}

/// What stands above the box on the way in, and on the way out.
pub open spec fn label_text(name: Seq<char>, entering: bool) -> Seq<char> {
    if entering {
        "inside: "@ + name
    } else {
        "outside"@
    }
}

/// What stands above the box on the way in, and on the way out.
pub fn transition_label(name: &str, entering: bool) -> (label: String)
    ensures
        label@ == label_text(name@, entering),
{
    if entering {
        let mut label = String::new();
        label.append("inside: ");
        label.append(name);
        assert(label@ =~= label_text(name@, entering));
        label
    } else {
        "outside".to_owned()
    }
}

/// The frames in the order in which they are drawn: growing on the way in,
/// shrinking on the way out.
pub open spec fn frame_order(entering: bool) -> Seq<usize> {
    if entering {
        seq![0usize, 1, 2, 3, 4, 5, 6, 7, 8]
    } else {
        seq![8usize, 7, 6, 5, 4, 3, 2, 1, 0]
    }
}

/// The frames in the order in which they are drawn.
pub fn transition_frames(entering: bool) -> (frames: Vec<usize>)
    ensures
        frames@ == frame_order(entering),
{
    let frames: Vec<usize> = if entering {
        vec![0usize, 1, 2, 3, 4, 5, 6, 7, 8]
    } else {
        vec![8usize, 7, 6, 5, 4, 3, 2, 1, 0]
    };
    assert(frames@ =~= frame_order(entering));
    frames
}

/// What is on the screen when a session is entered.
pub open spec fn inside_text(name: Seq<char>, message: Seq<char>) -> Seq<char> {
    CLEAR_SCREEN@ + DIM@ + "stay:"@ + name + "  |  inside  |  Ctrl+A to return"@ + RESET@ + "\n"@
        + (if message.len() > 0 {
        message
    } else {
        "\n"@
    })
}

/// What is on the screen when a session is entered.
pub fn enter_world(name: &str, message: &str) -> (screen: String)
    ensures
        screen@ == inside_text(name@, message@),
{
    let mut screen = String::new();
    screen.append(CLEAR_SCREEN);
    screen.append(DIM);
    screen.append("stay:");
    screen.append(name);
    screen.append("  |  inside  |  Ctrl+A to return");
    screen.append(RESET);
    screen.append("\n");
    if message.is_empty() {
        screen.append("\n");
    } else {
        screen.append(message);
    }
    assert(screen@ =~= inside_text(name@, message@));
    screen
}

/// What is written when a session was left.
pub fn leave_world() -> (screen: String)
    ensures
        screen@ == ALT_SCREEN_EXIT@ + SHOW_CURSOR@,
{
    let mut screen = String::new();
    screen.append(ALT_SCREEN_EXIT);
    screen.append(SHOW_CURSOR);
    assert(screen@ =~= ALT_SCREEN_EXIT@ + SHOW_CURSOR@);
    screen
}

/// The size of the screen, from what the terminal answered, if it did: 24 rows of
/// 80 columns where the answer is of no use.
pub fn terminal_size(answer: Option<(u16, u16)>) -> (size: (u16, u16))
    ensures
        size == (match answer {
            Some((rows, cols)) => if rows > 0 && cols > 0 {
                (rows, cols)
            } else {
                (24u16, 80u16)
            },
            None => (24u16, 80u16),
        }),
{
    match answer {
        Some((rows, cols)) => if rows > 0 && cols > 0 {
            (rows, cols)
        } else {
            (24, 80)
        },
        None => (24, 80),
    }
}

/// A length grows from one to its full size, and not beyond.
proof fn lemma_grown(full: int, frame: int, last: int)
    requires
        full >= 1,
        0 <= frame <= last,
    ensures
        1 <= grown(full, frame, last) <= full,
{
    let steps = most(last, 1);
    vstd::arithmetic::mul::lemma_mul_nonnegative(full - 1, frame);
    vstd::arithmetic::mul::lemma_mul_inequality(frame, steps, full - 1);
    vstd::arithmetic::mul::lemma_mul_is_commutative(full - 1, frame);
    vstd::arithmetic::mul::lemma_mul_is_commutative(full - 1, steps);
    vstd::arithmetic::div_mod::lemma_div_is_ordered((full - 1) * frame, (full - 1) * steps, steps);
    vstd::arithmetic::div_mod::lemma_div_multiples_vanish(full - 1, steps);
    vstd::arithmetic::div_mod::lemma_div_pos_is_pos((full - 1) * frame, steps);
}

/// On a screen with at least one row and one column, every frame of the transition
/// is drawn on the screen.
pub proof fn law_frame_stays_on_screen(
    b: FrameBox,
    rows: int,
    cols: int,
    label_len: int,
    frame: int,
    last: int,
)
    requires
        rows >= 1,
        cols >= 1,
        label_len >= 0,
        0 <= frame <= last,
        is_frame_box(b, rows, cols, label_len, frame, last),
    ensures
        1 <= b.row,
        b.row + b.height <= rows + 1,
        1 <= b.col,
        b.col + b.width <= cols + 1,
        1 <= b.label_row <= b.row,
        1 <= b.label_col <= cols,
{
    lemma_grown(full_width(cols, label_len), frame, last);
    lemma_grown(full_height(rows), frame, last);
}

/// Every frame of the transition can be computed, whatever the size of the screen
/// and the length of the label.
pub proof fn law_frames_can_be_computed(
    rows: int,
    cols: int,
    label_len: int,
    frame: int,
    last: int,
)
    requires
        0 <= rows <= u16::MAX,
        0 <= cols <= u16::MAX,
        0 <= label_len,
        0 <= frame <= last <= LAST_FRAME,
    ensures
        frame_fits(rows, cols, label_len, frame, last),
{
    let width = full_width(cols, label_len);
    let height = full_height(rows);
    lemma_grown(width, frame, last);
    lemma_grown(height, frame, last);
    vstd::arithmetic::mul::lemma_mul_upper_bound(width - 1, u16::MAX as int, frame, 8);
    vstd::arithmetic::mul::lemma_mul_upper_bound(height - 1, u16::MAX as int, frame, 8);
}

/// The way out shows the frames of the way in backwards.
pub proof fn law_way_out_is_way_in_backwards()
    ensures
        frame_order(false) == frame_order(true).reverse(),
{
    assert(frame_order(false) =~= frame_order(true).reverse());
}

/// The way in starts with a single character, and its last frame has the full
/// size.
pub proof fn law_box_grows_to_full_size(full: int, last: int)
    requires
        full >= 1,
        last >= 1,
    ensures
        grown(full, 0, last) == 1,
        grown(full, last, last) == full,
{
    vstd::arithmetic::mul::lemma_mul_basics(full - 1);
    vstd::arithmetic::div_mod::lemma_div_basics(last);
    vstd::arithmetic::mul::lemma_mul_is_commutative(full - 1, last);
    vstd::arithmetic::div_mod::lemma_div_multiples_vanish(full - 1, last);
}

/// Where there is room for it, a box grows to 72 columns and 11 rows; where there is
/// not, to the screen without four columns and six rows; and for a wide label as wide
/// as the label, if the screen has the room.
pub proof fn law_box_fits_the_screen(rows: int, cols: int, label_len: int)
    requires
        rows >= 0,
        cols >= 0,
        label_len >= 0,
    ensures
        cols >= 76 && label_len <= 72 ==> full_width(cols, label_len) == 72,
        5 <= cols < 76 ==> full_width(cols, label_len) == cols - 4,
        cols < 5 ==> full_width(cols, label_len) == 1,
        cols >= 76 && 72 < label_len <= cols - 4 ==> full_width(cols, label_len) == label_len,
        cols >= 76 && label_len > cols - 4 ==> full_width(cols, label_len) == cols - 4,
        rows >= 17 ==> full_height(rows) == 11,
        7 <= rows < 17 ==> full_height(rows) == rows - 6,
        rows < 7 ==> full_height(rows) == 1,
{
}

/// What is put into the middle has as much room before it as behind it, but for two at
/// most, and stands in the corner where there is no room.
pub proof fn law_middle_is_the_middle(total: int, len: int)
    requires
        total >= 0,
        len >= 0,
    ensures
        total - len >= 2 ==> 2 * centered(total, len) <= total - len <= 2 * centered(total, len)
            + 1,
        total - len < 2 ==> centered(total, len) == 1,
{
}

/// A row of a box is as wide as the box, and begins and ends with `#`; it is drawn
/// through at the top and at the bottom, and empty between.
pub proof fn law_box_is_drawn_as_a_frame(width: nat, height: nat, offset: int)
    requires
        width >= 1,
        0 <= offset < height,
    ensures
        box_row(width, height, offset).len() == width,
        box_row(width, height, offset)[0] == '#',
        box_row(width, height, offset)[width - 1] == '#',
        forall|i: int|
            0 < i < width - 1 ==> #[trigger] box_row(width, height, offset)[i] == (if offset == 0
                || offset == height - 1 {
                '#'
            } else {
                ' '
            }),
{
}

/// The frames are drawn one after the other: nine of them, growing on the way in and
/// shrinking on the way out.
pub proof fn law_frames_are_drawn_in_order()
    ensures
        frame_order(true).len() == 9,
        frame_order(false).len() == 9,
        forall|i: int| 0 <= i < 9 ==> #[trigger] frame_order(true)[i] == i,
        forall|i: int| 0 <= i < 9 ==> #[trigger] frame_order(false)[i] == 8 - i,
        LAST_FRAME == 8,
{
}

/// Inside a session the first line names it and tells how to leave; below it stands the
/// message, or an empty line where there is none.
pub proof fn law_inside_names_the_session(name: Seq<char>, message: Seq<char>)
    ensures
        ({
            let head = "\x1b[2J\x1b[H"@ + "\x1b[2m"@ + "stay:"@ + name
                + "  |  inside  |  Ctrl+A to return"@ + "\x1b[0m"@ + "\n"@;
            &&& message.len() > 0 ==> inside_text(name, message) == head + message
            &&& message.len() == 0 ==> inside_text(name, message) == head + "\n"@
        }),
        label_text(name, true) == "inside: "@ + name,
        label_text(name, false) == "outside"@,
{
}

/// The cursor is put to a row and a column by `ESC [`, the row, a semicolon, the column
/// and an `H`.
pub proof fn law_cursor_is_put(row: nat, col: nat)
    ensures
        cursor_to(row, col) == "\x1b["@ + text::decimal(row) + ";"@ + text::decimal(col) + "H"@,
{
}

/// A frame is drawn on an empty screen: the label at its place, and then the rows of the
/// box, each below the one before.
pub proof fn law_frame_has_every_row(label: Seq<char>, b: FrameBox, count: int)
    requires
        count >= 0,
    ensures
        frame_text(label, b) == "\x1b[?25l"@ + "\x1b[2J\x1b[H"@ + cursor_to(
            b.label_row as nat,
            b.label_col as nat,
        ) + "\x1b[2m"@ + label + "\x1b[0m"@ + box_rows(b, b.height as int),
        box_rows(b, 0) == Seq::<char>::empty(),
        box_rows(b, count + 1) == box_rows(b, count) + cursor_to(
            (b.row + count) as nat,
            b.col as nat,
        ) + "\x1b[36m"@ + "\x1b[1m"@ + box_row(b.width as nat, b.height as nat, count)
            + "\x1b[0m"@,
{
}

/// The box of a frame stands in the middle of the screen, in the size that it has grown
/// to, and its label in the middle of a row above it, two rows up where there are so
/// many.
pub proof fn law_frame_box_is_in_the_middle(
    b: FrameBox,
    rows: int,
    cols: int,
    label_len: int,
    frame: int,
    last: int,
)
    requires
        is_frame_box(b, rows, cols, label_len, frame, last),
    ensures
        b.width == grown(full_width(cols, label_len), frame, last),
        b.height == grown(full_height(rows), frame, last),
        b.row == centered(rows, b.height as int),
        b.col == centered(cols, b.width as int),
        b.label_col == centered(cols, label_len),
        b.label_row == (if b.row > 3 {
            b.row - 2
        } else {
            1
        }),
{
}

/// From frame to frame a box never shrinks.
pub proof fn law_box_never_shrinks(full: int, frame: int, later: int, last: int)
    requires
        full >= 1,
        0 <= frame <= later,
        last >= 1,
    ensures
        grown(full, frame, last) <= grown(full, later, last),
        grown(full, frame, last) == 1 + ((full - 1) * frame) / last,
{
    vstd::arithmetic::mul::lemma_mul_inequality(frame, later, full - 1);
    vstd::arithmetic::mul::lemma_mul_is_commutative(full - 1, frame);
    vstd::arithmetic::mul::lemma_mul_is_commutative(full - 1, later);
    vstd::arithmetic::div_mod::lemma_div_is_ordered((full - 1) * frame, (full - 1) * later, last);
}

/// What is written to the terminal to switch its screens and to show the cursor.
pub proof fn law_screen_codes()
    ensures
        ALT_SCREEN_ENTER@ == "\x1b[?1049h"@,
        ALT_SCREEN_EXIT@ == "\x1b[?1049l"@,
        CLEAR_SCREEN@ == "\x1b[2J\x1b[H"@,
        HIDE_CURSOR@ == "\x1b[?25l"@,
        SHOW_CURSOR@ == "\x1b[?25h"@,
        FRAME_DELAY_MS == 36,
{
}

} // verus!
