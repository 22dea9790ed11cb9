//! What the user types: words between white space, brought to lower case
//! for keywords and search terms.

use vstd::prelude::*;
use vstd::string::*;
use crate::keywords::texts;
use crate::text::{chars_of, lowercased, to_lowercase};

verus! {

/// Whether a character is white space: one of the characters with the
/// Unicode property White_Space, which are the controls from tab to carriage
/// return, the blank, next line, the no-break blank, the Ogham space mark,
/// the blanks from en quad to hair space, the line and paragraph separators,
/// the narrow no-break blank, the medium mathematical blank and the
/// ideographic blank.
pub open spec fn is_white_space(c: char) -> bool {
    let n = c as int;
    ||| 0x09 <= n <= 0x0d
    ||| n == 0x20
    ||| n == 0x85
    ||| n == 0xa0
    ||| n == 0x1680
    ||| 0x2000 <= n <= 0x200a
    ||| n == 0x2028
    ||| n == 0x2029
    ||| n == 0x202f
    ||| n == 0x205f
    ||| n == 0x3000
}

/// Whether a character is white space.
pub fn white_space(c: char) -> (out: bool)
    ensures
        out == is_white_space(c),
{
    let n: u32 = c as u32;
    (0x09 <= n && n <= 0x0d) || n == 0x20 || n == 0x85 || n == 0xa0 || n == 0x1680 || (0x2000 <= n
        && n <= 0x200a) || n == 0x2028 || n == 0x2029 || n == 0x202f || n == 0x205f || n == 0x3000
}

/// The words of a text: its longest stretches without white space, in
/// order. Read from the left, a character that is white space ends a word,
/// one that follows a character of a word goes on with that word, and any
/// other begins a word.
pub open spec fn words(s: Seq<char>) -> Seq<Seq<char>>
    decreases s.len(),
{
    if s.len() == 0 {
        Seq::empty()
    } else {
        let before = words(s.drop_last());
        if is_white_space(s.last()) {
            before
        } else if s.len() >= 2 && !is_white_space(s[s.len() - 2]) && before.len() > 0 {
            before.drop_last().push(before.last().push(s.last()))
        } else {
            before.push(seq![s.last()])
        }
    }
}

/// Each word followed by one blank.
pub open spec fn spaced(ws: Seq<Seq<char>>) -> Seq<char>
    decreases ws.len(),
{
    if ws.len() == 0 {
        Seq::empty()
    } else {
        spaced(ws.drop_last()) + ws.last() + seq![' ']
    }
}

/// Each string in lower case.
pub open spec fn all_lowercased(ws: Seq<Seq<char>>) -> Seq<Seq<char>> {
    Seq::new(ws.len(), |i: int| lowercased(ws[i]))
}

/// The words of `text`.
pub fn words_of(text: &str) -> (out: Vec<String>)
    ensures
        texts(out@) == words(text@),
{
    let chars = chars_of(text);
    let mut out: Vec<String> = Vec::new();
    let mut start: usize = 0;
    let mut in_word = false;
    let mut i: usize = 0;
    assert(texts(out@) =~= words(text@.take(0)));
    while i < chars.len()
        invariant
            chars@ == text@,
            i <= chars.len(),
            in_word ==> start < i && !is_white_space(chars@[i - 1]),
            !in_word ==> i == 0 || is_white_space(chars@[i - 1]),
            words(text@.take(i as int)) == if in_word {
                texts(out@).push(text@.subrange(start as int, i as int))
            } else {
                texts(out@)
            },
        decreases chars.len() - i,
    {
        let c: char = chars[i];
        let ghost held = texts(out@);
        let ghost seen = text@.take(i as int);
        let ghost next = text@.take(i + 1);
        proof {
            assert(next.drop_last() =~= seen);
            assert(next.last() == c);
            if i > 0 {
                assert(next[next.len() - 2] == chars@[i - 1]);
            }
        }
        if white_space(c) {
            if in_word {
                let word = text.substring_char(start, i).to_owned();
                out.push(word);
                assert(texts(out@) =~= held.push(word@));
                in_word = false;
            }
        } else {
            if !in_word {
                start = i;
                in_word = true;
                assert(text@.subrange(i as int, i + 1) =~= seq![c]);
            } else {
                let ghost word = text@.subrange(start as int, i as int);
                assert(held.push(word).drop_last() =~= held);
                assert(text@.subrange(start as int, i + 1) =~= word.push(c));
            }
        }
        i += 1;
    }
    assert(text@.take(i as int) =~= text@);
    if in_word {
        let ghost held = texts(out@);
        let word = text.substring_char(start, i).to_owned();
        out.push(word);
        assert(texts(out@) =~= held.push(word@));
    }
    out
}

/// The words of `raw`, each followed by one blank: the text of an entry as
/// it is kept, whatever line ends and runs of blanks were typed.
pub fn collapse(raw: &str) -> (out: String)
    ensures
        out@ == spaced(words(raw@)),
{
    let ws = words_of(raw);
    let ghost all = texts(ws@);
    let mut out = String::new();
    let mut i: usize = 0;
    assert(all.take(0) =~= Seq::empty());
    while i < ws.len()
        invariant
            i <= ws.len(),
            all == texts(ws@),
            out@ == spaced(all.take(i as int)),
        decreases ws.len() - i,
    {
        proof {
            reveal_strlit(" ");
            assert(all.take(i + 1).drop_last() =~= all.take(i as int));
        }
        out.append(ws[i].as_str());
        out.append(" ");
        i += 1;
        assert(out@ =~= spaced(all.take(i as int)));
    }
    assert(all.take(i as int) =~= all);
    out
}

/// Each string of `list` in lower case.
pub fn lowercase_all(list: &Vec<String>) -> (out: Vec<String>)
    ensures
        texts(out@) == all_lowercased(texts(list@)),
{
    let mut out: Vec<String> = Vec::new();
    let mut i: usize = 0;
    while i < list.len()
        invariant
            i <= list.len(),
            texts(out@) == all_lowercased(texts(list@)).take(i as int),
        decreases list.len() - i,
    {
        let ghost held = texts(out@);
        let word = to_lowercase(list[i].as_str());
        out.push(word);
        assert(texts(out@) =~= held.push(word@));
        i += 1;
        assert(texts(out@) =~= all_lowercased(texts(list@)).take(i as int));
    }
    assert(all_lowercased(texts(list@)).take(i as int) =~= all_lowercased(texts(list@)));
    out
}

/// The keywords that a typed line names: its words, in lower case.
pub fn keywords_from_line(line: &str) -> (out: Vec<String>)
    ensures
        texts(out@) == all_lowercased(words(line@)),
{
    let ws = words_of(line);
    lowercase_all(&ws)
}

/// The number of white-space characters at the start of `s`.
pub open spec fn leading_blanks(s: Seq<char>) -> nat
    decreases s.len(),
{
    if s.len() > 0 && is_white_space(s[0]) {
        1 + leading_blanks(s.drop_first())
    } else {
        0
    }
}

/// The number of white-space characters at the end of `s`.
pub open spec fn trailing_blanks(s: Seq<char>) -> nat
    decreases s.len(),
{
    if s.len() > 0 && is_white_space(s.last()) {
        1 + trailing_blanks(s.drop_last())
    } else {
        0
    }
}

/// `s` without the white space at its start and at its end.
pub open spec fn trimmed(s: Seq<char>) -> Seq<char> {
    if leading_blanks(s) >= s.len() {
        Seq::empty()
    } else {
        s.subrange(leading_blanks(s) as int, s.len() - trailing_blanks(s))
    }
}

/// `text` without the white space at its start and at its end.
pub fn trim(text: &str) -> (out: String)
    ensures
        out@ == trimmed(text@),
{
    let chars = chars_of(text);
    let ghost s = text@;
    let mut a: usize = 0;
    assert(s.skip(0) =~= s);
    while a < chars.len() && white_space(chars[a])
        invariant
            chars@ == s,
            a <= chars.len(),
            leading_blanks(s) == a + leading_blanks(s.skip(a as int)),
        decreases chars.len() - a,
    {
        assert(s.skip(a as int).drop_first() =~= s.skip(a + 1));
        a += 1;
    }
    if a == chars.len() {
        return String::new();
    }
    let mut b: usize = chars.len();
    assert(s.take(b as int) =~= s);
    while b > a + 1 && white_space(chars[b - 1])
        invariant
            chars@ == s,
            a < b <= chars.len(),
            trailing_blanks(s) == (chars.len() - b) + trailing_blanks(s.take(b as int)),
        decreases b,
    {
        assert(s.take(b as int).drop_last() =~= s.take(b - 1));
        b -= 1;
    }
    assert(s.take(b as int).last() == s[b - 1]);
    text.substring_char(a, b).to_owned()
}

} // verus!
