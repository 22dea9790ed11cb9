//! Keyword lists: their normal form (sorted, nothing twice) and the text in
//! which the table keeps them.

use vstd::prelude::*;
use vstd::string::*;
use crate::text::{chars_of, precedes, precedes_irreflexive, precedes_total, precedes_transitive, rank, Rank};

verus! {

/// The character sequences of a list of strings.
pub open spec fn texts(v: Seq<String>) -> Seq<Seq<char>> {
    Seq::new(v.len(), |i: int| v[i]@)
}

/// Each string precedes every later one in dictionary order, so none occurs
/// twice.
pub open spec fn strictly_sorted(ks: Seq<Seq<char>>) -> bool {
    forall|i: int, j: int| 0 <= i < j < ks.len() ==> precedes(#[trigger] ks[i], #[trigger] ks[j])
}

/// `a` and `b` hold the same strings, whatever their order and number.
pub open spec fn same_members(a: Seq<Seq<char>>, b: Seq<Seq<char>>) -> bool {
    forall|s: Seq<char>| a.contains(s) <==> b.contains(s)
}

/// `out` is the normal form of `input`: the strings of `input`, each once,
/// in dictionary order.
pub open spec fn is_normal_form(out: Seq<Seq<char>>, input: Seq<Seq<char>>) -> bool {
    strictly_sorted(out) && same_members(out, input)
}

/// A list has one normal form only.
pub proof fn normal_form_unique(a: Seq<Seq<char>>, b: Seq<Seq<char>>, input: Seq<Seq<char>>)
    requires
        is_normal_form(a, input),
        is_normal_form(b, input),
    ensures
        a == b,
{
    assert(same_members(a, b)) by {
        assert forall|s: Seq<char>| a.contains(s) <==> b.contains(s) by {
            assert(a.contains(s) <==> input.contains(s));
            assert(b.contains(s) <==> input.contains(s));
        }
    }
    sorted_lists_with_same_members_agree(a, b);
}

/// The first string of a sorted list is not among the others, and precedes
/// them all.
proof fn head_of_sorted(a: Seq<Seq<char>>, s: Seq<char>)
    requires
        strictly_sorted(a),
        a.len() > 0,
        a.contains(s),
    ensures
        s == a[0] || precedes(a[0], s),
        a.drop_first().contains(s) <==> s != a[0],
        strictly_sorted(a.drop_first()),
{
    let rest = a.drop_first();
    let i = choose|i: int| 0 <= i < a.len() && a[i] == s;
    if i > 0 {
        assert(precedes(a[0], a[i]));
        assert(rest[i - 1] == s);
        precedes_irreflexive(s);
    }
    if rest.contains(s) {
        let j = choose|j: int| 0 <= j < rest.len() && rest[j] == s;
        assert(precedes(a[0], a[j + 1]));
        precedes_irreflexive(s);
    }
    assert forall|i: int, j: int| 0 <= i < j < rest.len() implies precedes(
        #[trigger] rest[i],
        #[trigger] rest[j],
    ) by {
        assert(precedes(a[i + 1], a[j + 1]));
    }
}

/// Two sorted lists that hold the same strings are the same list.
proof fn sorted_lists_with_same_members_agree(a: Seq<Seq<char>>, b: Seq<Seq<char>>)
    requires
        strictly_sorted(a),
        strictly_sorted(b),
        same_members(a, b),
    ensures
        a == b,
    decreases a.len(),
{
    if a.len() == 0 {
        if b.len() > 0 {
            assert(b.contains(b[0]));
            assert(a.contains(b[0]));
        }
        assert(a =~= b);
    } else {
        assert(a.contains(a[0]));
        assert(b.contains(a[0]));
        assert(b.contains(b[0]));
        assert(a.contains(b[0]));
        head_of_sorted(a, b[0]);
        head_of_sorted(b, a[0]);
        head_of_sorted(a, a[0]);
        head_of_sorted(b, b[0]);
        if a[0] != b[0] {
            precedes_transitive(a[0], b[0], a[0]);
            precedes_irreflexive(a[0]);
        }
        let ra = a.drop_first();
        let rb = b.drop_first();
        assert forall|s: Seq<char>| ra.contains(s) <==> rb.contains(s) by {
            if ra.contains(s) {
                let i = choose|i: int| 0 <= i < ra.len() && ra[i] == s;
                assert(a[i + 1] == s);
                assert(a.contains(s));
                head_of_sorted(a, s);
                head_of_sorted(b, s);
            }
            if rb.contains(s) {
                let i = choose|i: int| 0 <= i < rb.len() && rb[i] == s;
                assert(b[i + 1] == s);
                assert(b.contains(s));
                head_of_sorted(a, s);
                head_of_sorted(b, s);
            }
        }
        sorted_lists_with_same_members_agree(ra, rb);
        assert(a =~= seq![a[0]] + ra);
        assert(b =~= seq![b[0]] + rb);
    }
}

/// Puts `word` into the sorted list `out` at its place, unless it is there
/// already.
fn insert_sorted(out: &mut Vec<String>, word: String)
    requires
        strictly_sorted(texts(old(out)@)),
    ensures
        strictly_sorted(texts(final(out)@)),
        forall|s: Seq<char>|
            texts(final(out)@).contains(s) <==> (texts(old(out)@).contains(s) || s == word@),
{
    let ghost before = texts(out@);
    let w = chars_of(word.as_str());
    let mut p: usize = 0;
    while p < out.len()
        invariant
            p <= out.len(),
            w@ == word@,
            texts(out@) == before,
            strictly_sorted(before),
            forall|i: int| 0 <= i < p ==> precedes(#[trigger] before[i], w@),
        ensures
            p < out.len() ==> precedes(w@, before[p as int]),
        decreases out.len() - p,
    {
        let here = chars_of(out[p].as_str());
        assert(here@ == before[p as int]);
        match rank(&here, &w) {
            Rank::Before => {
                p += 1;
            },
            Rank::Same => {
                proof {
                    assert(here@ =~= w@);
                    assert(before.contains(w@));
                }
                return ;
            },
            Rank::After => {
                proof {
                    precedes_total(here@, w@);
                }
                break ;
            },
        }
    }
    proof {
        assert forall|j: int| p <= j < before.len() implies precedes(w@, #[trigger] before[j]) by {
            if j > p {
                assert(precedes(before[p as int], before[j]));
                precedes_transitive(w@, before[p as int], before[j]);
            }
        }
    }
    out.insert(p, word);
    proof {
        let after = texts(out@);
        assert(after =~= before.insert(p as int, w@));
        assert forall|i: int, j: int| 0 <= i < j < after.len() implies precedes(
            #[trigger] after[i],
            #[trigger] after[j],
        ) by {
            if j < p {
                assert(precedes(before[i], before[j]));
            } else if j == p {
                assert(precedes(before[i], w@));
            } else if i < p {
                assert(precedes(before[i], before[j - 1]));
            } else if i == p {
                assert(precedes(w@, before[j - 1]));
            } else {
                assert(precedes(before[i - 1], before[j - 1]));
            }
        }
        assert forall|s: Seq<char>| after.contains(s) <==> (before.contains(s) || s == w@) by {
            if after.contains(s) {
                let i = choose|i: int| 0 <= i < after.len() && after[i] == s;
                if i < p {
                    assert(before[i] == s);
                } else if i > p {
                    assert(before[i - 1] == s);
                }
            }
            if before.contains(s) {
                let i = choose|i: int| 0 <= i < before.len() && before[i] == s;
                if i < p {
                    assert(after[i] == s);
                } else {
                    assert(after[i + 1] == s);
                }
            }
            if s == w@ {
                assert(after[p as int] == s);
            }
        }
    }
}

/// Sorts the keywords in dictionary order and drops what occurs twice.
pub fn normalize(keywords: Vec<String>) -> (out: Vec<String>)
    ensures
        is_normal_form(texts(out@), texts(keywords@)),
{
    let ghost input = texts(keywords@);
    let mut out: Vec<String> = Vec::new();
    let mut i: usize = 0;
    while i < keywords.len()
        invariant
            i <= keywords.len(),
            input == texts(keywords@),
            strictly_sorted(texts(out@)),
            forall|s: Seq<char>| texts(out@).contains(s) <==> input.take(i as int).contains(s),
        decreases keywords.len() - i,
    {
        let ghost seen = input.take(i as int);
        let ghost held = texts(out@);
        let word = keywords[i].clone();
        assert(word@ == input[i as int]);
        insert_sorted(&mut out, word);
        i += 1;
        proof {
            let now = input.take(i as int);
            assert(now =~= seen.push(word@));
            assert forall|s: Seq<char>| texts(out@).contains(s) <==> now.contains(s) by {
                assert(held.contains(s) <==> seen.contains(s));
                if now.contains(s) {
                    let k = choose|k: int| 0 <= k < now.len() && now[k] == s;
                    if k < seen.len() {
                        assert(seen[k] == s);
                    }
                }
                if seen.contains(s) {
                    let k = choose|k: int| 0 <= k < seen.len() && seen[k] == s;
                    assert(now[k] == s);
                }
                if s == word@ {
                    assert(now[i - 1] == s);
                }
            }
        }
    }
    assert(input.take(i as int) =~= input);
    out
}

/// The character that stands between two keywords in the stored text.
pub const SEPARATOR: char = ';';

/// The stored text of a keyword list: the keywords in order, with a
/// separator between each two.
pub open spec fn joined(ks: Seq<Seq<char>>) -> Seq<char>
    decreases ks.len(),
{
    if ks.len() == 0 {
        Seq::empty()
    } else if ks.len() == 1 {
        ks[0]
    } else {
        ks[0] + seq![SEPARATOR] + joined(ks.drop_first())
    }
}

/// The position of the first separator in `s`, or the length of `s` where it
/// holds none.
pub open spec fn first_separator(s: Seq<char>) -> int
    decreases s.len(),
{
    if s.len() == 0 || s[0] == SEPARATOR {
        0
    } else {
        1 + first_separator(s.drop_first())
    }
}

/// The keyword list of a stored text: the stretches between its separators,
/// so one more than it holds separators.
pub open spec fn split(s: Seq<char>) -> Seq<Seq<char>>
    decreases s.len(),
{
    let k = first_separator(s);
    if 0 <= k < s.len() {
        seq![s.take(k)] + split(s.skip(k + 1))
    } else {
        seq![s]
    }
}

/// No string of `ks` holds a separator.
pub open spec fn separator_free(ks: Seq<Seq<char>>) -> bool {
    forall|i: int| 0 <= i < ks.len() ==> !(#[trigger] ks[i]).contains(SEPARATOR)
}

/// `first_separator` is the position of a separator with none before it, or
/// the length of a string that holds none.
pub proof fn first_separator_is_first(s: Seq<char>)
    ensures
        0 <= first_separator(s) <= s.len(),
        first_separator(s) < s.len() ==> s[first_separator(s)] == SEPARATOR,
        forall|i: int| 0 <= i < first_separator(s) ==> s[i] != SEPARATOR,
    decreases s.len(),
{
    if s.len() > 0 && s[0] != SEPARATOR {
        let rest = s.drop_first();
        first_separator_is_first(rest);
        assert forall|i: int| 0 <= i < first_separator(s) implies s[i] != SEPARATOR by {
            if i > 0 {
                assert(rest[i - 1] == s[i]);
            }
        }
    }
}

/// A position that holds a separator, or is the end, with no separator before
/// it, is what `first_separator` gives.
pub proof fn first_separator_at(s: Seq<char>, k: int)
    requires
        0 <= k <= s.len(),
        k < s.len() ==> s[k] == SEPARATOR,
        forall|i: int| 0 <= i < k ==> s[i] != SEPARATOR,
    ensures
        first_separator(s) == k,
{
    first_separator_is_first(s);
    let f = first_separator(s);
    if f < k {
        assert(s[f] != SEPARATOR);
    }
}

/// A list with one more keyword at its end is joined by putting a separator
/// and that keyword behind the text of the list, unless the list was empty.
pub proof fn joined_push(ks: Seq<Seq<char>>, k: Seq<char>)
    ensures
        joined(ks.push(k)) == if ks.len() == 0 {
            k
        } else {
            joined(ks) + seq![SEPARATOR] + k
        },
    decreases ks.len(),
{
    let all = ks.push(k);
    if ks.len() == 0 {
    } else if ks.len() == 1 {
        assert(all.drop_first() =~= seq![k]);
        assert(joined(all.drop_first()) == k);
    } else {
        let rest = ks.drop_first();
        joined_push(rest, k);
        assert(all.drop_first() =~= rest.push(k));
        assert(joined(all) =~= joined(ks) + seq![SEPARATOR] + k);
    }
}

/// Reading a stored text and writing it again gives the same text.
pub proof fn split_then_join(s: Seq<char>)
    ensures
        joined(split(s)) == s,
        split(s).len() >= 1,
    decreases s.len(),
{
    first_separator_is_first(s);
    let k = first_separator(s);
    if k < s.len() {
        let tail = s.skip(k + 1);
        split_then_join(tail);
        assert(split(s).drop_first() =~= split(tail));
        assert(s =~= s.take(k) + seq![SEPARATOR] + tail);
    }
}

/// Writing a keyword list and reading it again gives the same list, where the
/// list is not empty and no keyword holds a separator.
pub proof fn join_then_split(ks: Seq<Seq<char>>)
    requires
        ks.len() >= 1,
        separator_free(ks),
    ensures
        split(joined(ks)) == ks,
    decreases ks.len(),
{
    let text = joined(ks);
    assert(!ks[0].contains(SEPARATOR));
    if ks.len() == 1 {
        assert forall|i: int| 0 <= i < text.len() implies text[i] != SEPARATOR by {
            assert(ks[0].contains(text[i]));
        }
        first_separator_at(text, text.len() as int);
        assert(split(text) =~= ks);
    } else {
        let rest = ks.drop_first();
        let k = ks[0].len() as int;
        assert forall|i: int| 0 <= i < k implies text[i] != SEPARATOR by {
            assert(ks[0].contains(ks[0][i]));
        }
        first_separator_at(text, k);
        assert(separator_free(rest)) by {
            assert forall|i: int| 0 <= i < rest.len() implies !(#[trigger] rest[i]).contains(
                SEPARATOR,
            ) by {
                assert(rest[i] == ks[i + 1]);
            }
        }
        join_then_split(rest);
        assert(text.take(k) =~= ks[0]);
        assert(text.skip(k + 1) =~= joined(rest));
        assert(split(text) =~= ks);
    }
}

/// The keyword list that a stored text stands for: no keyword for the empty
/// text, else the stretches between its separators.
pub open spec fn stored_list(text: Seq<char>) -> Seq<Seq<char>> {
    if text.len() == 0 {
        Seq::empty()
    } else {
        split(text)
    }
}

/// `ks` is the list that holds the empty keyword and nothing else, whose
/// stored text is that of the empty list.
pub open spec fn only_the_empty_keyword(ks: Seq<Seq<char>>) -> bool {
    ks.len() == 1 && ks[0].len() == 0
}

/// Writing a keyword list and reading it back gives the same list, the
/// empty list too, where no keyword holds a separator and the list is not
/// the one that holds only the empty keyword.
pub proof fn keywords_read_back(ks: Seq<Seq<char>>)
    requires
        separator_free(ks),
        !only_the_empty_keyword(ks),
    ensures
        stored_list(joined(ks)) == ks,
{
    if ks.len() == 0 {
        assert(ks =~= Seq::empty());
    } else {
        join_then_split(ks);
        if ks.len() >= 2 {
            assert(joined(ks).len() >= 1);
        }
    }
}

/// Reading a stored text and writing the list again gives the same text.
pub proof fn stored_text_written_back(text: Seq<char>)
    ensures
        joined(stored_list(text)) == text,
{
    if text.len() == 0 {
        assert(text =~= Seq::empty());
    } else {
        split_then_join(text);
    }
}

/// Writes a keyword list as one text, with a separator between each two.
pub fn join(keywords: &Vec<String>) -> (out: String)
    ensures
        out@ == joined(texts(keywords@)),
{
    let ghost ks = texts(keywords@);
    let mut out = String::new();
    let mut i: usize = 0;
    while i < keywords.len()
        invariant
            i <= keywords.len(),
            ks == texts(keywords@),
            out@ == joined(ks.take(i as int)),
        decreases keywords.len() - i,
    {
        if i > 0 {
            proof {
                reveal_strlit(";");
            }
            out.append(";");
            assert(out@ =~= joined(ks.take(i as int)) + seq![SEPARATOR]);
        }
        out.append(keywords[i].as_str());
        proof {
            joined_push(ks.take(i as int), ks[i as int]);
            assert(ks.take(i + 1) =~= ks.take(i as int).push(ks[i as int]));
        }
        i += 1;
    }
    assert(ks.take(i as int) =~= ks);
    out
}

/// Reads a stored text as a keyword list, cutting it at each separator.
pub fn parse(text: &str) -> (out: Vec<String>)
    ensures
        texts(out@) == split(text@),
{
    let chars = chars_of(text);
    let mut out: Vec<String> = Vec::new();
    let mut start: usize = 0;
    let mut i: usize = 0;
    assert(text@.skip(0) =~= text@);
    assert(texts(out@) + split(text@) =~= split(text@));
    while i < chars.len()
        invariant
            chars@ == text@,
            start <= i <= chars.len(),
            forall|j: int| start <= j < i ==> chars@[j] != SEPARATOR,
            split(text@) == texts(out@) + split(text@.skip(start as int)),
        decreases chars.len() - i,
    {
        if chars[i] == SEPARATOR {
            let piece = text.substring_char(start, i).to_owned();
            proof {
                let tail = text@.skip(start as int);
                first_separator_at(tail, i - start);
                assert(tail.take(i - start) =~= piece@);
                assert(tail.skip(i - start + 1) =~= text@.skip(i + 1));
                assert(texts(out@.push(piece)) =~= texts(out@) + seq![piece@]);
            }
            out.push(piece);
            start = i + 1;
        }
        i += 1;
    }
    let piece = text.substring_char(start, i).to_owned();
    proof {
        let tail = text@.skip(start as int);
        first_separator_at(tail, tail.len() as int);
        assert(tail =~= piece@);
        assert(texts(out@.push(piece)) =~= texts(out@) + seq![piece@]);
    }
    out.push(piece);
    out
}

/// Reads the keyword list that a stored text stands for: no keyword for the
/// empty text, else the stretches between its separators.
pub fn read_stored(text: &str) -> (out: Vec<String>)
    ensures
        texts(out@) == stored_list(text@),
{
    if text.is_empty() {
        let out: Vec<String> = Vec::new();
        assert(texts(out@) =~= Seq::empty());
        out
    } else {
        parse(text)
    }
}

} // verus!
