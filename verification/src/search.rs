//! Search: which entries a list of terms finds.

use vstd::prelude::*;
use crate::entry::{views, Entry, EntryView};
use crate::keywords::texts;
use crate::lists::{filter_members, filter_push};
use crate::text::{chars_of, find, includes, lowercased, to_lowercase};

verus! {

/// A term finds an entry by its title, where the lower-case title holds the
/// term as a substring, or by a keyword, where one keyword is the term.
pub open spec fn term_finds(lowered_title: Seq<char>, keywords: Seq<Seq<char>>, term: Seq<char>) -> bool {
    includes(lowered_title, term) || keywords.contains(term)
}

/// One term at least finds the entry with this lower-case title and these
/// keywords.
pub open spec fn any_term_finds(
    lowered_title: Seq<char>,
    keywords: Seq<Seq<char>>,
    terms: Seq<Seq<char>>,
) -> bool {
    exists|i: int| 0 <= i < terms.len() && term_finds(lowered_title, keywords, #[trigger] terms[i])
}

/// The terms find the entry.
pub open spec fn entry_found(entry: EntryView, terms: Seq<Seq<char>>) -> bool {
    any_term_finds(lowercased(entry.title), entry.keywords, terms)
}

/// The test by which a search with `terms` keeps an entry.
pub open spec fn found_by(terms: Seq<Seq<char>>) -> spec_fn(EntryView) -> bool {
    |entry: EntryView| entry_found(entry, terms)
}

/// What a search with `terms` gives on `entries`: the entries found, each
/// once, in the order of the table.
pub open spec fn search_result(entries: Seq<EntryView>, terms: Seq<Seq<char>>) -> Seq<EntryView> {
    entries.filter(found_by(terms))
}

/// Whether one of the keywords is the term.
fn has_keyword(keywords: &Vec<String>, term: &String) -> (found: bool)
    ensures
        found == texts(keywords@).contains(term@),
{
    let mut j: usize = 0;
    while j < keywords.len()
        invariant
            j <= keywords.len(),
            forall|i: int| 0 <= i < j ==> texts(keywords@)[i] != term@,
        decreases keywords.len() - j,
    {
        if keywords[j] == *term {
            assert(texts(keywords@)[j as int] == term@);
            return true;
        }
        j += 1;
    }
    false
}

/// Whether one of the terms finds an entry, given the entry's title in lower
/// case and its keywords.
pub fn any_term_matches(
    lowered_title: &str,
    keywords: &Vec<String>,
    terms: &Vec<String>,
) -> (found: bool)
    ensures
        found == any_term_finds(lowered_title@, texts(keywords@), texts(terms@)),
{
    let title = chars_of(lowered_title);
    let mut i: usize = 0;
    while i < terms.len()
        invariant
            i <= terms.len(),
            title@ == lowered_title@,
            forall|k: int|
                0 <= k < i ==> !term_finds(
                    lowered_title@,
                    texts(keywords@),
                    #[trigger] texts(terms@)[k],
                ),
        decreases terms.len() - i,
    {
        let term = chars_of(terms[i].as_str());
        assert(term@ == texts(terms@)[i as int]);
        if find(&title, &term) || has_keyword(keywords, &terms[i]) {
            return true;
        }
        i += 1;
    }
    false
}

impl Entry {
    /// Whether a search with `terms` finds this entry.
    pub fn matches(&self, terms: &Vec<String>) -> (found: bool)
        ensures
            found == entry_found(self@, texts(terms@)),
    {
        let lowered = to_lowercase(self.title.as_str());
        any_term_matches(lowered.as_str(), &self.keywords, terms)
    }
}

/// The entries that a search with `terms` finds, in the order of `entries`.
pub fn search_entries(entries: &Vec<Entry>, terms: &Vec<String>) -> (out: Vec<Entry>)
    ensures
        views(out@) == search_result(views(entries@), texts(terms@)),
{
    let ghost all = views(entries@);
    let ghost keep = found_by(texts(terms@));
    let mut out: Vec<Entry> = Vec::new();
    let mut i: usize = 0;
    assert(views(out@) =~= all.take(0).filter(keep)) by {
        reveal(Seq::filter);
    }
    while i < entries.len()
        invariant
            i <= entries.len(),
            all == views(entries@),
            keep == found_by(texts(terms@)),
            views(out@) == all.take(i as int).filter(keep),
        decreases entries.len() - i,
    {
        let ghost before = views(out@);
        proof {
            filter_push(all.take(i as int), all[i as int], keep);
            assert(all.take(i + 1) =~= all.take(i as int).push(all[i as int]));
        }
        if entries[i].matches(terms) {
            let copy = entries[i].clone();
            out.push(copy);
            assert(views(out@) =~= before.push(all[i as int]));
        }
        i += 1;
    }
    assert(all.take(i as int) =~= all);
    out
}

/// The numbers of the entries rise strictly along the list.
pub open spec fn numbers_rise(entries: Seq<EntryView>) -> bool {
    forall|i: int, j: int|
        0 <= i < j < entries.len() ==> (#[trigger] entries[i]).id < (#[trigger] entries[j]).id
}

/// A filter keeps the order of a list whose numbers rise.
pub proof fn filter_keeps_order(entries: Seq<EntryView>, keep: spec_fn(EntryView) -> bool)
    requires
        numbers_rise(entries),
    ensures
        numbers_rise(entries.filter(keep)),
    decreases entries.len(),
{
    reveal(Seq::filter);
    if entries.len() > 0 {
        let init = entries.drop_last();
        let kept = init.filter(keep);
        assert(numbers_rise(init)) by {
            assert forall|i: int, j: int| 0 <= i < j < init.len() implies (#[trigger] init[i]).id
                < (#[trigger] init[j]).id by {
                assert(entries[i].id < entries[j].id);
            }
        }
        filter_keeps_order(init, keep);
        filter_members(init, keep);
        let all = entries.filter(keep);
        assert forall|i: int, j: int| 0 <= i < j < all.len() implies (#[trigger] all[i]).id < (
        #[trigger] all[j]).id by {
            if j < kept.len() {
                assert(kept[i].id < kept[j].id);
            } else {
                assert(kept.contains(kept[i]));
                assert(init.contains(all[i]));
                let k = choose|k: int| 0 <= k < init.len() && init[k] == all[i];
                assert(entries[k].id < entries[entries.len() - 1].id);
            }
        }
    }
}

/// A search gives the entries of the table that the terms find and no
/// others, and gives none twice, however many terms find it and whether by
/// its title or by a keyword: the numbers of what it gives rise strictly.
pub proof fn search_gives_each_entry_once(entries: Seq<EntryView>, terms: Seq<Seq<char>>)
    requires
        numbers_rise(entries),
    ensures
        numbers_rise(search_result(entries, terms)),
        forall|entry: EntryView|
            search_result(entries, terms).contains(entry) <==> entries.contains(entry)
                && entry_found(entry, terms),
{
    filter_keeps_order(entries, found_by(terms));
    filter_members(entries, found_by(terms));
}

} // verus!
