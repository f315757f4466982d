//! Handing marked text to the clipboard of the terminal.
use vstd::prelude::*;

verus! {

/// The symbol for a number below 64.
pub open spec fn symbol(n: int) -> u8 {
    if n < 26 {
        (0x41 + n) as u8
    } else if n < 52 {
        (0x61 + n - 26) as u8
    } else if n < 62 {
        (0x30 + n - 52) as u8
    } else if n == 62 {
        0x2b
    } else {
        0x2f
    }
}

/// Bytes in base 64: four symbols for three bytes, and at the end two symbols and
/// `==` for one byte, three symbols and `=` for two.
pub open spec fn base64(bytes: Seq<u8>) -> Seq<u8>
    decreases bytes.len(),
{
    if bytes.len() == 0 {
        seq![]
    } else if bytes.len() == 1 {
        seq![symbol((bytes[0] / 4) as int), symbol(bytes[0] % 4 * 16), 0x3du8, 0x3du8]
    } else if bytes.len() == 2 {
        seq![
            symbol((bytes[0] / 4) as int),
            symbol(bytes[0] % 4 * 16 + bytes[1] / 16),
            symbol(bytes[1] % 16 * 4),
            0x3du8,
        ]
    } else {
        seq![
            symbol((bytes[0] / 4) as int),
            symbol(bytes[0] % 4 * 16 + bytes[1] / 16),
            symbol(bytes[1] % 16 * 4 + bytes[2] / 64),
            symbol((bytes[2] % 64) as int),
        ] + base64(bytes.skip(3))
    }
}

/// What makes a terminal put some text on its clipboard: `ESC ] 5 2 ; c ;`, the text
/// in base 64, and a BEL.
pub open spec fn copy_command(text: Seq<u8>) -> Seq<u8> {
    seq![0x1bu8, 0x5du8, 0x35u8, 0x32u8, 0x3bu8, 0x63u8, 0x3bu8] + base64(text) + seq![0x07u8]
}

/// The symbol for a number below 64.
fn symbol_for(n: u8) -> (byte: u8)
    requires
        n < 64,
    ensures
        byte == symbol(n as int),
{
    if n < 26 {
        0x41 + n
    } else if n < 52 {
        0x61 + (n - 26)
    } else if n < 62 {
        0x30 + (n - 52)
    } else if n == 62 {
        0x2b
    } else {
        0x2f
    }
}

/// Bytes in base 64.
pub fn to_base64(bytes: &[u8]) -> (symbols: Vec<u8>)
    ensures
        symbols@ == base64(bytes@),
{
    let mut symbols: Vec<u8> = Vec::new();
    let mut i: usize = 0;
    assert(bytes@.skip(0) =~= bytes@);
    while bytes.len() - i >= 3
        invariant
            i <= bytes@.len(),
            symbols@ + base64(bytes@.skip(i as int)) == base64(bytes@),
        decreases bytes@.len() - i,
    {
        let ghost before = symbols@;
        let ghost rest = bytes@.skip(i as int);
        let (a, b, c) = (bytes[i], bytes[i + 1], bytes[i + 2]);
        symbols.push(symbol_for(a / 4));
        symbols.push(symbol_for(a % 4 * 16 + b / 16));
        symbols.push(symbol_for(b % 16 * 4 + c / 64));
        symbols.push(symbol_for(c % 64));
        i = i + 3;
        assert(rest.skip(3) =~= bytes@.skip(i as int));
        assert(symbols@ + base64(bytes@.skip(i as int)) =~= before + base64(rest));
    }
    let ghost before = symbols@;
    let ghost rest = bytes@.skip(i as int);
    if bytes.len() - i == 1 {
        symbols.push(symbol_for(bytes[i] / 4));
        symbols.push(symbol_for(bytes[i] % 4 * 16));
        symbols.push(0x3d);
        symbols.push(0x3d);
    } else if bytes.len() - i == 2 {
        let (a, b) = (bytes[i], bytes[i + 1]);
        symbols.push(symbol_for(a / 4));
        symbols.push(symbol_for(a % 4 * 16 + b / 16));
        symbols.push(symbol_for(b % 16 * 4));
        symbols.push(0x3d);
    }
    assert(symbols@ =~= before + base64(rest));
    symbols
}

/// What makes a terminal put some text on its clipboard.
pub fn copy_text(text: &[u8]) -> (command: Vec<u8>)
    ensures
        command@ == copy_command(text@),
{
    let mut command: Vec<u8> = Vec::new();
    command.push(0x1b);
    command.push(0x5d);
    command.push(0x35);
    command.push(0x32);
    command.push(0x3b);
    command.push(0x63);
    command.push(0x3b);
    command.extend_from_slice(to_base64(text).as_slice());
    command.push(0x07);
    assert(command@ =~= copy_command(text@));
    command
}

/// The number that a symbol stands for.
pub open spec fn number_of(byte: u8) -> int {
    if 0x41 <= byte <= 0x5a {
        byte - 0x41
    } else if 0x61 <= byte <= 0x7a {
        byte - 0x61 + 26
    } else if 0x30 <= byte <= 0x39 {
        byte - 0x30 + 52
    } else if byte == 0x2b {
        62
    } else {
        63
    }
}

/// The bytes that symbols in base 64 stand for.
pub open spec fn from_base64(symbols: Seq<u8>) -> Seq<u8>
    decreases symbols.len(),
{
    if symbols.len() < 4 {
        seq![]
    } else {
        let a = number_of(symbols[0]);
        let b = number_of(symbols[1]);
        let c = number_of(symbols[2]);
        let d = number_of(symbols[3]);
        let first = (a * 4 + b / 16) as u8;
        let second = (b % 16 * 16 + c / 4) as u8;
        let third = (c % 4 * 64 + d) as u8;
        if symbols[2] == 0x3d {
            seq![first]
        } else if symbols[3] == 0x3d {
            seq![first, second]
        } else {
            seq![first, second, third] + from_base64(symbols.skip(4))
        }
    }
}

/// A symbol stands for its number, and is not the sign that fills up.
proof fn lemma_symbol(n: int)
    requires
        0 <= n < 64,
    ensures
        number_of(symbol(n)) == n,
        symbol(n) != 0x3d,
{
}

/// The text on the clipboard is the text that was marked, byte for byte.
pub proof fn law_clipboard_holds_the_text(bytes: Seq<u8>)
    ensures
        from_base64(base64(bytes)) == bytes,
    decreases bytes.len(),
{
    let symbols = base64(bytes);
    if bytes.len() > 0 {
        lemma_symbol((bytes[0] / 4) as int);
        if bytes.len() == 1 {
            lemma_symbol(bytes[0] % 4 * 16);
        } else {
            lemma_symbol(bytes[0] % 4 * 16 + bytes[1] / 16);
            if bytes.len() == 2 {
                lemma_symbol(bytes[1] % 16 * 4);
            } else {
                lemma_symbol(bytes[1] % 16 * 4 + bytes[2] / 64);
                lemma_symbol((bytes[2] % 64) as int);
                law_clipboard_holds_the_text(bytes.skip(3));
                assert(symbols.skip(4) =~= base64(bytes.skip(3)));
            }
        }
    }
    assert(from_base64(symbols) =~= bytes);
}

} // verus!
