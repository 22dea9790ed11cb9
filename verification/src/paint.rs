//! The pieces of console text: colour, padding, rules, numbers and hex.

use vstd::prelude::*;
use vstd::string::*;

verus! {

/// The escape sequence that switches the console to cyan.
pub open spec fn cyan() -> Seq<char> {
    seq!['\u{1b}', '[', '3', '6', 'm']
}

/// The escape sequence that switches the console to underlined cyan.
pub open spec fn cyan_underlined() -> Seq<char> {
    seq!['\u{1b}', '[', '4', ';', '3', '6', 'm']
}

/// The escape sequence that switches all styles off.
pub open spec fn reset() -> Seq<char> {
    seq!['\u{1b}', '[', '0', 'm']
}

/// `text` in cyan.
pub open spec fn painted(text: Seq<char>) -> Seq<char> {
    cyan() + text + reset()
}

/// `text` in underlined cyan.
pub open spec fn painted_underlined(text: Seq<char>) -> Seq<char> {
    cyan_underlined() + text + reset()
}

/// Calls `Colour::paint` of the crate ansi_term on `Cyan` and writes the
/// result out: the text between the escape sequence for a cyan foreground
/// and the one that resets all styles.
#[verifier::external_body]
pub(crate) fn paint(text: &str) -> (out: String)
    ensures
        out@ == painted(text@),
{
    ansi_term::Colour::Cyan.paint(text).to_string()
}

/// Calls `Colour::underline` and `Style::paint` of the crate ansi_term on
/// `Cyan` and writes the result out: the text between the escape sequence
/// for underline with a cyan foreground and the one that resets all styles.
#[verifier::external_body]
pub(crate) fn paint_underlined(text: &str) -> (out: String)
    ensures
        out@ == painted_underlined(text@),
{
    ansi_term::Colour::Cyan.underline().paint(text).to_string()
}

/// `count` times the character `c`.
pub open spec fn repeated(c: char, count: nat) -> Seq<char> {
    Seq::new(count, |i: int| c)
}

/// `text` filled up with blanks on the right to `width` characters; a longer
/// text stays as it is.
pub open spec fn padded(text: Seq<char>, width: nat) -> Seq<char> {
    if text.len() >= width {
        text
    } else {
        text + repeated(' ', (width - text.len()) as nat)
    }
}

/// Appends `count` times the one-character text `piece` to `out`.
fn append_repeated(out: &mut String, piece: &str, count: usize)
    requires
        piece@.len() == 1,
    ensures
        final(out)@ == old(out)@ + repeated(piece@[0], count as nat),
{
    let ghost start = out@;
    let mut i: usize = 0;
    assert(out@ =~= start + repeated(piece@[0], 0));
    while i < count
        invariant
            i <= count,
            piece@.len() == 1,
            out@ == start + repeated(piece@[0], i as nat),
        decreases count - i,
    {
        out.append(piece);
        i += 1;
        assert(out@ =~= start + repeated(piece@[0], i as nat));
    }
}

/// Fills `text` up with blanks on the right to `width` characters.
pub fn pad(text: String, width: usize) -> (out: String)
    ensures
        out@ == padded(text@, width as nat),
{
    let len = text.as_str().unicode_len();
    let mut out = text;
    if len < width {
        proof {
            reveal_strlit(" ");
        }
        append_repeated(&mut out, " ", width - len);
    }
    out
}

/// A line of `cols` dashes, without its line end.
pub fn rule(cols: usize) -> (out: String)
    ensures
        out@ == repeated('-', cols as nat),
{
    let mut out = String::new();
    proof {
        reveal_strlit("-");
    }
    append_repeated(&mut out, "-", cols);
    assert(out@ =~= repeated('-', cols as nat));
    out
}

/// The ten digits.
pub open spec fn digits() -> Seq<char> {
    seq!['0', '1', '2', '3', '4', '5', '6', '7', '8', '9']
}

/// The decimal form of a natural number, without leading zeros.
pub open spec fn decimal(n: nat) -> Seq<char>
    decreases n,
{
    if n < 10 {
        seq![digits()[n as int]]
    } else {
        decimal(n / 10).push(digits()[(n % 10) as int])
    }
}

/// The decimal form of an integer, with a minus sign where it is negative.
pub open spec fn signed_decimal(i: int) -> Seq<char> {
    if i < 0 {
        seq!['-'] + decimal((-i) as nat)
    } else {
        decimal(i as nat)
    }
}

/// The text of one digit.
fn digit_text(d: u64) -> (out: &'static str)
    requires
        d < 10,
    ensures
        out@ == seq![digits()[d as int]],
{
    proof {
        reveal_strlit("0");
        reveal_strlit("1");
        reveal_strlit("2");
        reveal_strlit("3");
        reveal_strlit("4");
        reveal_strlit("5");
        reveal_strlit("6");
        reveal_strlit("7");
        reveal_strlit("8");
        reveal_strlit("9");
    }
    let out = if d == 0 {
        "0"
    } else if d == 1 {
        "1"
    } else if d == 2 {
        "2"
    } else if d == 3 {
        "3"
    } else if d == 4 {
        "4"
    } else if d == 5 {
        "5"
    } else if d == 6 {
        "6"
    } else if d == 7 {
        "7"
    } else if d == 8 {
        "8"
    } else {
        "9"
    };
    assert(out@ =~= seq![digits()[d as int]]);
    out
}

/// Writes a number in decimal.
pub fn decimal_text(n: u64) -> (out: String)
    ensures
        out@ == decimal(n as nat),
    decreases n,
{
    if n < 10 {
        digit_text(n).to_owned()
    } else {
        let mut out = decimal_text(n / 10);
        out.append(digit_text(n % 10));
        out
    }
}

/// Writes an integer in decimal.
pub fn signed_decimal_text(i: i64) -> (out: String)
    ensures
        out@ == signed_decimal(i as int),
{
    if i < 0 {
        let magnitude: u64 = if i == i64::MIN {
            9223372036854775808u64
        } else {
            (-i) as u64
        };
        proof {
            reveal_strlit("-");
        }
        let mut out = "-".to_owned();
        out.append(decimal_text(magnitude).as_str());
        out
    } else {
        decimal_text(i as u64)
    }
}

/// The sixteen hexadecimal digits, in lower case.
pub open spec fn hex_digits() -> Seq<char> {
    seq!['0', '1', '2', '3', '4', '5', '6', '7', '8', '9', 'a', 'b', 'c', 'd', 'e', 'f']
}

/// The hexadecimal form of a byte string: two digits for each byte, the
/// high half first.
pub open spec fn hex_of(bytes: Seq<u8>) -> Seq<char> {
    Seq::new(
        2 * bytes.len(),
        |i: int|
            if i % 2 == 0 {
                hex_digits()[bytes[i / 2] as int / 16]
            } else {
                hex_digits()[bytes[i / 2] as int % 16]
            },
    )
}

/// Calls `hex::encode` of the crate hex, which writes each byte as two
/// lower-case hexadecimal digits.
#[verifier::external_body]
pub(crate) fn hex_text(bytes: &Vec<u8>) -> (out: String)
    ensures
        out@ == hex_of(bytes@),
{
    hex::encode(bytes)
}

} // verus!
