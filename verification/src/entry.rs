//! One diary entry.

use vstd::prelude::*;
use crate::digest::{fingerprint, fingerprint_of, DIGEST_LEN};
use crate::keywords::{join, joined, read_stored, stored_list, texts};

verus! {

/// A diary entry as the table holds it.
#[derive(Debug)]
pub struct Entry {
    /// The number that the diary gave the entry; positive, and never given
    /// twice.
    pub id: i64,
    /// The fingerprint taken when the entry was written.
    pub hash: Vec<u8>,
    /// The time of writing, as text with a zone offset.
    pub date: String,
    /// The keywords, in lower case.
    pub keywords: Vec<String>,
    pub title: String,
    pub content: String,
    /// Whether listings leave the entry out.
    pub hidden: bool,
}

/// What an entry holds, as mathematical values.
pub struct EntryView {
    pub id: int,
    pub hash: Seq<u8>,
    pub date: Seq<char>,
    pub keywords: Seq<Seq<char>>,
    pub title: Seq<char>,
    pub content: Seq<char>,
    pub hidden: bool,
}

impl View for Entry {
    type V = EntryView;

    open spec fn view(&self) -> EntryView {
        EntryView {
            id: self.id as int,
            hash: self.hash@,
            date: self.date@,
            keywords: texts(self.keywords@),
            title: self.title@,
            content: self.content@,
            hidden: self.hidden,
        }
    }
}

/// The views of a list of entries.
pub open spec fn views(entries: Seq<Entry>) -> Seq<EntryView> {
    Seq::new(entries.len(), |i: int| entries[i]@)
}

/// A copy of a list of strings.
pub fn copy_strings(v: &Vec<String>) -> (out: Vec<String>)
    ensures
        texts(out@) == texts(v@),
{
    let mut out: Vec<String> = Vec::new();
    let mut i: usize = 0;
    while i < v.len()
        invariant
            i <= v.len(),
            texts(out@) == texts(v@).take(i as int),
        decreases v.len() - i,
    {
        let ghost before = texts(out@);
        let word = v[i].clone();
        out.push(word);
        assert(texts(out@) =~= before.push(word@));
        i += 1;
        assert(texts(out@) =~= texts(v@).take(i as int));
    }
    assert(texts(v@).take(i as int) =~= texts(v@));
    out
}

/// A copy of a byte string.
pub fn copy_bytes(v: &Vec<u8>) -> (out: Vec<u8>)
    ensures
        out@ == v@,
{
    let mut out: Vec<u8> = Vec::new();
    let mut i: usize = 0;
    while i < v.len()
        invariant
            i <= v.len(),
            out@ == v@.take(i as int),
        decreases v.len() - i,
    {
        out.push(v[i]);
        i += 1;
        assert(out@ =~= v@.take(i as int));
    }
    assert(v@.take(i as int) =~= v@);
    out
}

impl Clone for Entry {
    fn clone(&self) -> (out: Self)
        ensures
            out@ == self@,
    {
        Entry {
            id: self.id,
            hash: copy_bytes(&self.hash),
            date: self.date.clone(),
            keywords: copy_strings(&self.keywords),
            title: self.title.clone(),
            content: self.content.clone(),
            hidden: self.hidden,
        }
    }
}

impl Entry {
    /// A fresh, visible entry: its fingerprint, of the one fixed length, is
    /// taken over the stored text of `keywords`, the title, the content and
    /// the timestamp.
    pub fn compose(
        id: i64,
        keywords: Vec<String>,
        title: String,
        content: String,
        date: String,
    ) -> (out: Self)
        ensures
            out@ == (EntryView {
                id: id as int,
                hash: fingerprint_of(joined(texts(keywords@)), title@, content@, date@),
                date: date@,
                keywords: texts(keywords@),
                title: title@,
                content: content@,
                hidden: false,
            }),
            out@.hash.len() == DIGEST_LEN,
    {
        let stored = join(&keywords);
        let hash = fingerprint(stored.as_str(), title.as_str(), content.as_str(), date.as_str());
        Entry { id, hash, date, keywords, title, content, hidden: false }
    }

    /// The entry of one table row: an empty keyword column stands for no
    /// keyword, any other is cut at its separators.
    pub fn from_row(
        id: i64,
        hash: Vec<u8>,
        date: String,
        keywords: &str,
        title: String,
        content: String,
        hidden: bool,
    ) -> (out: Self)
        ensures
            out@ == (EntryView {
                id: id as int,
                hash: hash@,
                date: date@,
                keywords: stored_list(keywords@),
                title: title@,
                content: content@,
                hidden,
            }),
    {
        Entry { id, hash, date, keywords: read_stored(keywords), title, content, hidden }
    }

    /// The text of the keyword column for this entry.
    pub fn keywords_text(&self) -> (out: String)
        ensures
            out@ == joined(self@.keywords),
    {
        join(&self.keywords)
    }
}

} // verus!
