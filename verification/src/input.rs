//! What comes from the keyboard and the mouse: keys, and reports of the mouse
//! among them.
use vstd::prelude::*;

verus! {

/// Makes the terminal report the wheel, the buttons and drags with one held.
pub const MOUSE_ON: &'static str = "\x1b[?1002h\x1b[?1006h";

/// Ends the reports of the mouse.
pub const MOUSE_OFF: &'static str = "\x1b[?1006l\x1b[?1002l";

/// The most digits that a number in a report has.
pub const MAX_DIGITS: usize = 5;

/// One report of the mouse: `ESC [ < button ; column ; row`, and `M` for a press or
/// a drag, `m` for a release.
#[derive(Clone, Copy, Debug, PartialEq, Eq, Structural)]
pub struct Report {
    pub button: u32,
    pub col: u32,
    pub row: u32,
    pub pressed: bool,
}

/// A piece of the input.
#[derive(Clone, Copy, Debug, PartialEq, Eq, Structural)]
pub enum Token {
    /// A byte that a key sent.
    Key(u8),
    /// A report of the mouse.
    Mouse(Report),
}

/// A decimal digit.
pub open spec fn is_digit(byte: u8) -> bool {
    0x30 <= byte <= 0x39
}

/// Where the digits end that start at `at`.
pub open spec fn digits_end(input: Seq<u8>, at: int) -> int
    decreases input.len() - at,
{
    if 0 <= at < input.len() && is_digit(input[at]) {
        digits_end(input, at + 1)
    } else {
        at
    }
}

/// The number that the digits from `from` up to `to` make.
pub open spec fn number(input: Seq<u8>, from: int, to: int) -> nat
    decreases to - from,
{
    if from >= to {
        0
    } else {
        number(input, from, to - 1) * 10 + (input[to - 1] - 0x30) as nat
    }
}

/// The number of a report that starts at `at`, and where it ends: one to five
/// digits.
pub open spec fn number_at(input: Seq<u8>, at: int) -> Option<(u32, int)> {
    let end = digits_end(input, at);
    if at < end <= at + MAX_DIGITS {
        Some((number(input, at, end) as u32, end))
    } else {
        None
    }
}

/// The byte at `at` is `byte`.
pub open spec fn has_byte(input: Seq<u8>, at: int, byte: u8) -> bool {
    0 <= at < input.len() && input[at] == byte
}

/// The report of the mouse that starts at `at`, and where it ends.
pub open spec fn report_at(input: Seq<u8>, at: int) -> Option<(Report, int)> {
    if has_byte(input, at, 0x1b) && has_byte(input, at + 1, 0x5b) && has_byte(input, at + 2, 0x3c) {
        match number_at(input, at + 3) {
            Some((button, first)) if has_byte(input, first, 0x3b) => match number_at(
                input,
                first + 1,
            ) {
                Some((col, second)) if has_byte(input, second, 0x3b) => match number_at(
                    input,
                    second + 1,
                ) {
                    Some((row, third)) if has_byte(input, third, 0x4d) || has_byte(
                        input,
                        third,
                        0x6d,
                    ) => Some(
                        (Report { button, col, row, pressed: input[third] == 0x4d }, third + 1),
                    ),
                    _ => None,
                },
                _ => None,
            },
            _ => None,
        }
    } else {
        None
    }
}

/// The most bytes that a report has before the letter that ends it.
pub const MAX_REPORT: usize = 20;

/// Up to the end of the input, the bytes from `at` on are digits and semicolons.
pub open spec fn only_numbers(input: Seq<u8>, at: int) -> bool {
    forall|i: int| at <= i < input.len() ==> (is_digit(#[trigger] input[i]) || input[i] == 0x3b)
}

/// The input ends within a report that starts at `at`.
pub open spec fn unfinished(input: Seq<u8>, at: int) -> bool {
    &&& has_byte(input, at, 0x1b)
    &&& has_byte(input, at + 1, 0x5b)
    &&& has_byte(input, at + 2, 0x3c)
    &&& input.len() - at <= MAX_REPORT
    &&& only_numbers(input, at + 3)
}

/// The pieces of the input from `at` on: a report where one starts, a key's byte
/// where none does. A report that the input does not finish is no piece yet.
pub open spec fn tokens(input: Seq<u8>, at: int) -> Seq<Token>
    decreases input.len() - at,
{
    if at < 0 || at >= input.len() || unfinished(input, at) {
        seq![]
    } else {
        match report_at(input, at) {
            Some((report, end)) if end > at => seq![Token::Mouse(report)] + tokens(input, end),
            _ => seq![Token::Key(input[at])] + tokens(input, at + 1),
        }
    }
}

/// What is kept of the input from `at` on until more of it comes: a report that it
/// does not finish.
pub open spec fn kept_back(input: Seq<u8>, at: int) -> Seq<u8>
    decreases input.len() - at,
{
    if at < 0 || at >= input.len() {
        seq![]
    } else if unfinished(input, at) {
        input.skip(at)
    } else {
        match report_at(input, at) {
            Some((report, end)) if end > at => kept_back(input, end),
            _ => kept_back(input, at + 1),
        }
    }
}

/// The bytes that keys sent.
pub open spec fn keys_of(pieces: Seq<Token>) -> Seq<u8>
    decreases pieces.len(),
{
    if pieces.len() == 0 {
        seq![]
    } else {
        match pieces.last() {
            Token::Key(byte) => keys_of(pieces.drop_last()).push(byte),
            Token::Mouse(_) => keys_of(pieces.drop_last()),
        }
    }
}

/// A number of five digits at most.
proof fn lemma_number_bound(input: Seq<u8>, from: int, to: int)
    requires
        0 <= from <= to <= input.len(),
        to <= from + MAX_DIGITS,
        forall|i: int| from <= i < to ==> is_digit(#[trigger] input[i]),
    ensures
        number(input, from, to) <= 99999,
        to <= from + 4 ==> number(input, from, to) <= 9999,
        to <= from + 3 ==> number(input, from, to) <= 999,
        to <= from + 2 ==> number(input, from, to) <= 99,
        to <= from + 1 ==> number(input, from, to) <= 9,
    decreases to - from,
{
    if from < to {
        lemma_number_bound(input, from, to - 1);
        assert(is_digit(input[to - 1]));
        if to - 1 == from {
            assert(number(input, from, to - 1) == 0);
        }
    }
}

/// Reads the number of a report.
fn read_number(input: &[u8], at: usize) -> (found: Option<(u32, usize)>)
    requires
        at <= input@.len(),
    ensures
        match found {
            Some((value, end)) => number_at(input@, at as int) == Some((value, end as int)) && at
                < end <= input@.len(),
            None => number_at(input@, at as int) is None,
        },
{
    let mut end: usize = at;
    let mut value: u32 = 0;
    while end < input.len() && end - at < MAX_DIGITS && 0x30 <= input[end] && input[end] <= 0x39
        invariant
            at <= end <= input@.len(),
            end - at <= MAX_DIGITS,
            forall|i: int| at <= i < end ==> is_digit(#[trigger] input@[i]),
            digits_end(input@, at as int) == digits_end(input@, end as int),
            value == number(input@, at as int, end as int),
        decreases input@.len() - end,
    {
        proof {
            lemma_number_bound(input@, at as int, end as int);
        }
        value = value * 10 + (input[end] - 0x30) as u32;
        end = end + 1;
    }
    proof {
        lemma_number_bound(input@, at as int, end as int);
        lemma_digits_end(input@, end as int);
    }
    if end == at {
        return None;
    }
    if end < input.len() && 0x30 <= input[end] && input[end] <= 0x39 {
        assert(digits_end(input@, end as int) > end);
        return None;
    }
    Some((value, end))
}

/// Digits do not end before they start.
proof fn lemma_digits_end(input: Seq<u8>, at: int)
    ensures
        digits_end(input, at) >= at,
        0 <= at < input.len() && is_digit(input[at]) ==> digits_end(input, at) > at,
    decreases input.len() - at,
{
    if 0 <= at < input.len() && is_digit(input[at]) {
        lemma_digits_end(input, at + 1);
    }
}

/// Reads the report of the mouse that starts at `at`.
fn read_report(input: &[u8], at: usize) -> (found: Option<(Report, usize)>)
    requires
        at < input@.len(),
    ensures
        match found {
            Some((report, end)) => report_at(input@, at as int) == Some((report, end as int)) && at
                < end <= input@.len(),
            None => report_at(input@, at as int) is None,
        },
{
    if input.len() - at < 3 || input[at] != 0x1b || input[at + 1] != 0x5b || input[at + 2] != 0x3c {
        return None;
    }
    let (button, first) = match read_number(input, at + 3) {
        Some(found) => found,
        None => {
            return None;
        },
    };
    if first == input.len() || input[first] != 0x3b {
        return None;
    }
    let (col, second) = match read_number(input, first + 1) {
        Some(found) => found,
        None => {
            return None;
        },
    };
    if second == input.len() || input[second] != 0x3b {
        return None;
    }
    let (row, third) = match read_number(input, second + 1) {
        Some(found) => found,
        None => {
            return None;
        },
    };
    if third == input.len() || (input[third] != 0x4d && input[third] != 0x6d) {
        return None;
    }
    Some((Report { button, col, row, pressed: input[third] == 0x4d }, third + 1))
}

/// Whether the input ends within a report that starts at `at`.
fn is_unfinished(input: &[u8], at: usize) -> (cut: bool)
    requires
        at < input@.len(),
    ensures
        cut == unfinished(input@, at as int),
{
    let len: usize = input.len() - at;
    if len < 3 || len > MAX_REPORT || input[at] != 0x1b || input[at + 1] != 0x5b || input[at + 2]
        != 0x3c {
        return false;
    }
    let mut i: usize = at + 3;
    while i < input.len()
        invariant
            at + 3 <= i <= input@.len(),
            forall|k: int|
                at + 3 <= k < i ==> (is_digit(#[trigger] input@[k]) || input@[k] == 0x3b),
        decreases input@.len() - i,
    {
        let byte = input[i];
        if !((0x30 <= byte && byte <= 0x39) || byte == 0x3b) {
            assert(!is_digit(input@[i as int]));
            return false;
        }
        i = i + 1;
    }
    true
}

/// Takes the input apart into keys and reports of the mouse; the second part is
/// what is kept until more comes.
pub fn split_input(input: &[u8]) -> (split: (Vec<Token>, Vec<u8>))
    ensures
        split.0@ == tokens(input@, 0),
        split.1@ == kept_back(input@, 0),
{
    let mut pieces: Vec<Token> = Vec::new();
    let mut at: usize = 0;
    while at < input.len()
        invariant
            at <= input@.len(),
            pieces@ + tokens(input@, at as int) == tokens(input@, 0),
            kept_back(input@, at as int) == kept_back(input@, 0),
        decreases input@.len() - at,
    {
        let ghost before = pieces@;
        let ghost start = at as int;
        if is_unfinished(input, at) {
            let mut kept: Vec<u8> = Vec::new();
            kept.extend_from_slice(&input[at..input.len()]);
            assert(kept@ =~= input@.skip(start));
            assert(pieces@ =~= tokens(input@, 0));
            return (pieces, kept);
        }
        match read_report(input, at) {
            Some((report, end)) => {
                pieces.push(Token::Mouse(report));
                at = end;
            },
            None => {
                pieces.push(Token::Key(input[at]));
                at = at + 1;
            },
        }
        assert(pieces@ + tokens(input@, at as int) =~= before + tokens(input@, start));
    }
    assert(pieces@ =~= tokens(input@, 0));
    (pieces, Vec::new())
}

/// The bytes that keys sent.
pub fn typed_keys(pieces: &Vec<Token>) -> (keys: Vec<u8>)
    ensures
        keys@ == keys_of(pieces@),
{
    let mut keys: Vec<u8> = Vec::new();
    let mut i: usize = 0;
    assert(pieces@.take(0) =~= seq![]);
    while i < pieces.len()
        invariant
            i <= pieces@.len(),
            keys@ == keys_of(pieces@.take(i as int)),
        decreases pieces@.len() - i,
    {
        assert(pieces@.take(i + 1).drop_last() =~= pieces@.take(i as int));
        match pieces[i] {
            Token::Key(byte) => keys.push(byte),
            Token::Mouse(_) => {},
        }
        i = i + 1;
    }
    assert(pieces@.take(i as int) =~= pieces@);
    keys
}

/// No report starts at `at`, whole or unfinished.
pub open spec fn no_report(input: Seq<u8>, at: int) -> bool {
    report_at(input, at) is None && !unfinished(input, at)
}

/// Where no report starts, every byte is one of a key.
pub proof fn lemma_tokens_are_keys(input: Seq<u8>, at: int)
    requires
        0 <= at <= input.len(),
        forall|i: int| at <= i < input.len() ==> #[trigger] no_report(input, i),
    ensures
        kept_back(input, at) == Seq::<u8>::empty(),
        tokens(input, at) == Seq::new(
            (input.len() - at) as nat,
            |k: int| Token::Key(input[at + k]),
        ),
    decreases input.len() - at,
{
    if at < input.len() {
        assert(no_report(input, at));
        lemma_tokens_are_keys(input, at + 1);
    }
    assert(tokens(input, at) =~= Seq::new(
        (input.len() - at) as nat,
        |k: int| Token::Key(input[at + k]),
    ));
}

/// The bytes of keys, where there is nothing else, are the bytes.
proof fn lemma_keys_of_keys(input: Seq<u8>, len: nat)
    requires
        len <= input.len(),
    ensures
        keys_of(Seq::new(len, |k: int| Token::Key(input[k]))) == input.take(len as int),
    decreases len,
{
    let pieces = Seq::new(len, |k: int| Token::Key(input[k]));
    if len == 0 {
        assert(input.take(0) =~= seq![]);
    } else {
        let before = (len - 1) as nat;
        lemma_keys_of_keys(input, before);
        assert(pieces.drop_last() =~= Seq::new(before, |k: int| Token::Key(input[k])));
        assert(keys_of(pieces) =~= input.take(len as int));
    }
}

/// Input without a report of the mouse is what the keys sent, byte for byte, and
/// nothing of it is kept back.
pub proof fn law_input_without_mouse_is_untouched(input: Seq<u8>)
    requires
        forall|i: int| 0 <= i < input.len() ==> #[trigger] no_report(input, i),
    ensures
        keys_of(tokens(input, 0)) == input,
        kept_back(input, 0) == Seq::<u8>::empty(),
{
    lemma_tokens_are_keys(input, 0);
    assert(tokens(input, 0) =~= Seq::new(input.len(), |k: int| Token::Key(input[k])));
    lemma_keys_of_keys(input, input.len());
    assert(input.take(input.len() as int) =~= input);
}

/// A number in decimal digits.
pub open spec fn digits(n: nat) -> Seq<u8>
    decreases n,
{
    if n < 10 {
        seq![(0x30 + n) as u8]
    } else {
        digits(n / 10).push((0x30 + n % 10) as u8)
    }
}

/// A report as a terminal sends it.
pub open spec fn report_bytes(report: Report) -> Seq<u8> {
    seq![0x1bu8, 0x5bu8, 0x3cu8] + digits(report.button as nat) + seq![0x3bu8] + digits(
        report.col as nat,
    ) + seq![0x3bu8] + digits(report.row as nat) + seq![
        if report.pressed {
            0x4du8
        } else {
            0x6du8
        },
    ]
}

/// A number of five digits at most has five digits at most.
proof fn lemma_digits(n: nat)
    requires
        n <= 99999,
    ensures
        1 <= digits(n).len() <= MAX_DIGITS,
        n <= 9999 ==> digits(n).len() <= 4,
        n <= 999 ==> digits(n).len() <= 3,
        n <= 99 ==> digits(n).len() <= 2,
        n <= 9 ==> digits(n).len() <= 1,
        forall|i: int| 0 <= i < digits(n).len() ==> is_digit(#[trigger] digits(n)[i]),
    decreases n,
{
    if n >= 10 {
        lemma_digits(n / 10);
    }
}

/// The digits of a number make the number.
proof fn lemma_digits_make_number(input: Seq<u8>, at: int, n: nat)
    requires
        0 <= at,
        at + digits(n).len() <= input.len(),
        input.subrange(at, at + digits(n).len()) == digits(n),
    ensures
        number(input, at, at + digits(n).len()) == n,
    decreases n,
{
    let end = at + digits(n).len();
    let here = input.subrange(at, end);
    assert(input[end - 1] == here[end - 1 - at]);
    if n < 10 {
        assert(number(input, at, at) == 0);
        assert(number(input, at, at + 1) == n);
    } else {
        assert(input.subrange(at, end - 1) =~= here.drop_last());
        assert(here.drop_last() =~= digits(n / 10));
        lemma_digits_make_number(input, at, n / 10);
    }
}

/// Digits end where something else stands.
proof fn lemma_digits_end_at(input: Seq<u8>, at: int, end: int)
    requires
        0 <= at <= end < input.len(),
        forall|i: int| at <= i < end ==> is_digit(#[trigger] input[i]),
        !is_digit(input[end]),
    ensures
        digits_end(input, at) == end,
    decreases end - at,
{
    if at < end {
        assert(is_digit(input[at]));
        lemma_digits_end_at(input, at + 1, end);
    }
}

/// A number in decimal digits, with something else behind it, is read back.
proof fn lemma_number_reads_back(input: Seq<u8>, at: int, n: u32)
    requires
        n <= 99999,
        0 <= at,
        at + digits(n as nat).len() < input.len(),
        input.subrange(at, at + digits(n as nat).len()) == digits(n as nat),
        !is_digit(input[at + digits(n as nat).len()]),
    ensures
        number_at(input, at) == Some((n, at + digits(n as nat).len())),
{
    let end = at + digits(n as nat).len();
    let here = input.subrange(at, end);
    lemma_digits(n as nat);
    assert forall|i: int| at <= i < end implies is_digit(#[trigger] input[i]) by {
        assert(input[i] == here[i - at]);
        assert(is_digit(digits(n as nat)[i - at]));
    }
    lemma_digits_end_at(input, at, end);
    lemma_digits_make_number(input, at, n as nat);
}

/// A report, as a terminal sends it, is read back, and is one piece of the input.
pub proof fn law_report_reads_back(report: Report)
    requires
        report.button <= 99999,
        report.col <= 99999,
        report.row <= 99999,
    ensures
        tokens(report_bytes(report), 0) == seq![Token::Mouse(report)],
        kept_back(report_bytes(report), 0) == Seq::<u8>::empty(),
{
    let bytes = report_bytes(report);
    let first: int = 3 + digits(report.button as nat).len() as int;
    let second: int = first + 1 + digits(report.col as nat).len();
    let third: int = second + 1 + digits(report.row as nat).len();
    assert(bytes.len() == third + 1);
    assert(bytes.subrange(3, first) =~= digits(report.button as nat));
    assert(bytes.subrange(first + 1, second) =~= digits(report.col as nat));
    assert(bytes.subrange(second + 1, third) =~= digits(report.row as nat));
    assert(bytes[first] == 0x3b);
    assert(bytes[second] == 0x3b);
    assert(bytes[third] == 0x4d || bytes[third] == 0x6d);
    assert(bytes[0] == 0x1b && bytes[1] == 0x5b && bytes[2] == 0x3c);
    lemma_number_reads_back(bytes, 3, report.button);
    lemma_number_reads_back(bytes, first + 1, report.col);
    lemma_number_reads_back(bytes, second + 1, report.row);
    assert(report_at(bytes, 0) == Some((report, third + 1)));
    assert(!unfinished(bytes, 0)) by {
        assert(!is_digit(bytes[third]));
    }
    assert(tokens(bytes, third + 1) =~= seq![]);
    assert(kept_back(bytes, third + 1) =~= seq![]);
    assert(tokens(bytes, 0) =~= seq![Token::Mouse(report)]);
}

/// Where every piece is a report of the mouse, no key sent anything.
pub proof fn law_reports_are_not_keys(pieces: Seq<Token>)
    requires
        forall|i: int| 0 <= i < pieces.len() ==> #[trigger] pieces[i] is Mouse,
    ensures
        keys_of(pieces) == Seq::<u8>::empty(),
    decreases pieces.len(),
{
    if pieces.len() > 0 {
        let before = pieces.drop_last();
        assert forall|i: int| 0 <= i < before.len() implies #[trigger] before[i] is Mouse by {
            assert(pieces[i] is Mouse);
        }
        law_reports_are_not_keys(before);
        assert(pieces[pieces.len() - 1] is Mouse);
    }
}

/// Digits end at the same place, whatever stands before them.
proof fn lemma_digits_end_behind(front: Seq<u8>, input: Seq<u8>, at: int)
    requires
        0 <= at,
    ensures
        digits_end(front + input, front.len() + at) == front.len() + digits_end(input, at),
        digits_end(input, at) >= at,
    decreases input.len() - at,
{
    let all = front + input;
    if at < input.len() {
        assert(all[front.len() + at] == input[at]);
        if is_digit(input[at]) {
            lemma_digits_end_behind(front, input, at + 1);
        }
    }
}

/// Digits make the same number, whatever stands before them.
proof fn lemma_number_behind(front: Seq<u8>, input: Seq<u8>, from: int, to: int)
    requires
        0 <= from,
        to <= input.len(),
    ensures
        number(front + input, front.len() + from, front.len() + to) == number(input, from, to),
    decreases to - from,
{
    if from < to {
        lemma_number_behind(front, input, from, to - 1);
        assert((front + input)[front.len() + to - 1] == input[to - 1]);
    }
}

/// Digits do not end behind the input.
proof fn lemma_digits_end_inside(input: Seq<u8>, at: int)
    requires
        0 <= at <= input.len(),
    ensures
        at <= digits_end(input, at) <= input.len(),
    decreases input.len() - at,
{
    if at < input.len() && is_digit(input[at]) {
        lemma_digits_end_inside(input, at + 1);
    }
}

/// The number of a report is the same, whatever stands before it.
proof fn lemma_number_at_behind(front: Seq<u8>, input: Seq<u8>, at: int)
    requires
        0 <= at <= input.len(),
    ensures
        number_at(front + input, front.len() + at) == (match number_at(input, at) {
            Some((value, end)) => Some((value, front.len() + end)),
            None => None,
        }),
        number_at(input, at) matches Some((value, end)) ==> at < end <= input.len(),
{
    lemma_digits_end_behind(front, input, at);
    lemma_digits_end_inside(input, at);
    lemma_number_behind(front, input, at, digits_end(input, at));
}

/// A byte of the input is the same, whatever stands before the input.
proof fn lemma_byte_behind(front: Seq<u8>, input: Seq<u8>, at: int, byte: u8)
    requires
        0 <= at,
    ensures
        has_byte(front + input, front.len() + at, byte) == has_byte(input, at, byte),
{
    if at < input.len() {
        assert((front + input)[front.len() + at] == input[at]);
    }
}

/// A report is the same, whatever stands before it.
proof fn lemma_report_behind(front: Seq<u8>, input: Seq<u8>, at: int)
    requires
        0 <= at <= input.len(),
    ensures
        report_at(front + input, front.len() + at) == (match report_at(input, at) {
            Some((report, end)) => Some((report, front.len() + end)),
            None => None,
        }),
        report_at(input, at) matches Some((report, end)) ==> at < end <= input.len(),
        unfinished(front + input, front.len() + at) == unfinished(input, at),
{
    let all = front + input;
    let shift = front.len() as int;
    lemma_byte_behind(front, input, at, 0x1b);
    lemma_byte_behind(front, input, at + 1, 0x5b);
    lemma_byte_behind(front, input, at + 2, 0x3c);
    if has_byte(input, at, 0x1b) && has_byte(input, at + 1, 0x5b) && has_byte(
        input,
        at + 2,
        0x3c,
    ) {
        lemma_number_at_behind(front, input, at + 3);
        if let Some((button, first)) = number_at(input, at + 3) {
            lemma_byte_behind(front, input, first, 0x3b);
            if has_byte(input, first, 0x3b) {
                lemma_number_at_behind(front, input, first + 1);
                if let Some((col, second)) = number_at(input, first + 1) {
                    lemma_byte_behind(front, input, second, 0x3b);
                    if has_byte(input, second, 0x3b) {
                        lemma_number_at_behind(front, input, second + 1);
                        if let Some((row, third)) = number_at(input, second + 1) {
                            lemma_byte_behind(front, input, third, 0x4d);
                            lemma_byte_behind(front, input, third, 0x6d);
                        }
                    }
                }
            }
        }
        assert(only_numbers(all, shift + at + 3) == only_numbers(input, at + 3)) by {
            if only_numbers(input, at + 3) {
                assert forall|i: int| shift + at + 3 <= i < all.len() implies (is_digit(
                    #[trigger] all[i],
                ) || all[i] == 0x3b) by {
                    assert(all[i] == input[i - shift]);
                }
            }
            if only_numbers(all, shift + at + 3) {
                assert forall|i: int| at + 3 <= i < input.len() implies (is_digit(
                    #[trigger] input[i],
                ) || input[i] == 0x3b) by {
                    assert(all[i + shift] == input[i]);
                }
            }
        }
    }
}

/// The pieces of the input are the same, whatever stands before it.
proof fn lemma_tokens_behind(front: Seq<u8>, input: Seq<u8>, at: int)
    requires
        0 <= at <= input.len(),
    ensures
        tokens(front + input, front.len() + at) == tokens(input, at),
        kept_back(front + input, front.len() + at) == kept_back(input, at),
    decreases input.len() - at,
{
    let all = front + input;
    let shift = front.len() as int;
    lemma_report_behind(front, input, at);
    if at < input.len() {
        assert(all[shift + at] == input[at]);
        if unfinished(input, at) {
            assert(all.skip(shift + at) =~= input.skip(at));
        } else {
            match report_at(input, at) {
                Some((report, end)) => {
                    lemma_tokens_behind(front, input, end);
                },
                None => {
                    lemma_tokens_behind(front, input, at + 1);
                },
            }
        }
    }
}

/// A report that stands in front of other input is read as that report, and the rest as
/// if the report were not there: neither a key nor a further report behind it is lost.
pub proof fn law_report_is_taken_out(report: Report, rest: Seq<u8>)
    requires
        report.button <= 99999,
        report.col <= 99999,
        report.row <= 99999,
    ensures
        tokens(report_bytes(report) + rest, 0) == seq![Token::Mouse(report)] + tokens(rest, 0),
        kept_back(report_bytes(report) + rest, 0) == kept_back(rest, 0),
        keys_of(tokens(report_bytes(report) + rest, 0)) == keys_of(tokens(rest, 0)),
{
    let bytes = report_bytes(report);
    let all = bytes + rest;
    let first: int = 3 + digits(report.button as nat).len() as int;
    let second: int = first + 1 + digits(report.col as nat).len();
    let third: int = second + 1 + digits(report.row as nat).len();
    assert(bytes.len() == third + 1);
    assert(all.subrange(3, first) =~= digits(report.button as nat));
    assert(all.subrange(first + 1, second) =~= digits(report.col as nat));
    assert(all.subrange(second + 1, third) =~= digits(report.row as nat));
    assert(bytes[first] == 0x3b && all[first] == 0x3b);
    assert(bytes[second] == 0x3b && all[second] == 0x3b);
    assert(all[third] == bytes[third] && (bytes[third] == 0x4d || bytes[third] == 0x6d));
    assert(all[0] == 0x1b && all[1] == 0x5b && all[2] == 0x3c);
    lemma_number_reads_back(all, 3, report.button);
    lemma_number_reads_back(all, first + 1, report.col);
    lemma_number_reads_back(all, second + 1, report.row);
    assert(report_at(all, 0) == Some((report, third + 1)));
    assert(!unfinished(all, 0)) by {
        assert(!is_digit(all[third]));
    }
    lemma_tokens_behind(bytes, rest, 0);
    lemma_keys_behind(Token::Mouse(report), tokens(rest, 0));
}

/// A byte that is no ESC is a byte of a key, and what stands behind it is read as if it
/// were not there.
pub proof fn law_key_is_taken_out(byte: u8, rest: Seq<u8>)
    requires
        byte != 0x1b,
    ensures
        tokens(seq![byte] + rest, 0) == seq![Token::Key(byte)] + tokens(rest, 0),
        kept_back(seq![byte] + rest, 0) == kept_back(rest, 0),
        keys_of(tokens(seq![byte] + rest, 0)) == seq![byte] + keys_of(tokens(rest, 0)),
{
    let all = seq![byte] + rest;
    assert(all[0] == byte);
    lemma_tokens_behind(seq![byte], rest, 0);
    lemma_keys_behind(Token::Key(byte), tokens(rest, 0));
}

/// The bytes of keys in a piece and what stands behind it.
proof fn lemma_keys_behind(piece: Token, pieces: Seq<Token>)
    ensures
        keys_of(seq![piece] + pieces) == (match piece {
            Token::Key(byte) => seq![byte] + keys_of(pieces),
            Token::Mouse(_) => keys_of(pieces),
        }),
    decreases pieces.len(),
{
    let all = seq![piece] + pieces;
    if pieces.len() == 0 {
        assert(all.drop_last() =~= seq![]);
        assert(keys_of(all.drop_last()) =~= seq![]);
        assert(keys_of(all) =~= (match piece {
            Token::Key(byte) => seq![byte] + keys_of(pieces),
            Token::Mouse(_) => keys_of(pieces),
        }));
    } else {
        assert(all.drop_last() =~= seq![piece] + pieces.drop_last());
        lemma_keys_behind(piece, pieces.drop_last());
        assert(keys_of(all) =~= (match piece {
            Token::Key(byte) => seq![byte] + keys_of(pieces),
            Token::Mouse(_) => keys_of(pieces),
        }));
    }
}

} // verus!
