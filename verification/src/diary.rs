//! The diary: one table of entries in the order in which they were written.

use vstd::prelude::*;
use crate::clock::timestamp_now;
use crate::digest::{fingerprint_of, DIGEST_LEN};
use crate::entry::{views, Entry, EntryView};
use crate::error::StoreError;
use crate::keywords::{is_normal_form, joined, normal_form_unique, normalize, texts};
use crate::lists::{filter_empty, filter_push};
use crate::search::{search_entries, search_result};

verus! {

/// The table of a diary, as mathematical values.
pub struct DiaryView {
    /// The entries in storage order.
    pub entries: Seq<EntryView>,
    /// The highest number given to an entry so far; 0 where none was given.
    pub last_id: int,
}

/// The numbers of the entries are positive, rise strictly along the table,
/// and none is above the highest number given.
pub open spec fn in_storage_order(entries: Seq<EntryView>, last_id: int) -> bool {
    &&& forall|i: int| 0 <= i < entries.len() ==> 0 < (#[trigger] entries[i]).id <= last_id
    &&& forall|i: int, j: int|
        0 <= i < j < entries.len() ==> (#[trigger] entries[i]).id < (#[trigger] entries[j]).id
}

/// What every table of a diary satisfies.
pub open spec fn well_formed(table: DiaryView) -> bool {
    &&& 0 <= table.last_id <= i64::MAX
    &&& in_storage_order(table.entries, table.last_id)
}

/// The table with no entry.
pub open spec fn empty_table() -> DiaryView {
    DiaryView { entries: Seq::empty(), last_id: 0 }
}

/// The number of the last entry of a list, or 0 for the empty list.
pub open spec fn last_number(entries: Seq<EntryView>) -> int {
    if entries.len() == 0 {
        0
    } else {
        entries.last().id
    }
}

/// `entry` is what writing `keywords`, `title` and `content` at the time
/// `date` puts at the end of `table`: it has the next number, the keywords in
/// normal form, the fingerprint of its texts, which has the one fixed length,
/// and is visible.
pub open spec fn is_new_entry(
    entry: EntryView,
    table: DiaryView,
    keywords: Seq<Seq<char>>,
    title: Seq<char>,
    content: Seq<char>,
    date: Seq<char>,
) -> bool {
    &&& entry.id == table.last_id + 1
    &&& is_normal_form(entry.keywords, keywords)
    &&& entry.title == title
    &&& entry.content == content
    &&& entry.date == date
    &&& entry.hash == fingerprint_of(joined(entry.keywords), title, content, date)
    &&& entry.hash.len() == DIGEST_LEN
    &&& !entry.hidden
}

/// `after` is `before` with `entry` written at its end.
pub open spec fn appended(before: DiaryView, after: DiaryView, entry: EntryView) -> bool {
    &&& after.entries == before.entries.push(entry)
    &&& after.last_id == entry.id
}

/// The table holds an entry with the number `id`.
pub open spec fn has_number(entries: Seq<EntryView>, id: int) -> bool {
    exists|i: int| 0 <= i < entries.len() && (#[trigger] entries[i]).id == id
}

/// The list `ids` names the number `id`.
pub open spec fn names(ids: Seq<i64>, id: int) -> bool {
    exists|k: int| 0 <= k < ids.len() && #[trigger] ids[k] == id
}

/// The test by which an id counts as a row of the table.
pub open spec fn in_table(entries: Seq<EntryView>) -> spec_fn(i64) -> bool {
    |id: i64| has_number(entries, id as int)
}

/// How many rows a change of the entries named by `ids` touches: one for
/// each place in `ids` that names an entry of the table.
pub open spec fn rows_touched(entries: Seq<EntryView>, ids: Seq<i64>) -> nat {
    ids.filter(in_table(entries)).len()
}

/// The entry with its flag set to `hidden` and nothing else changed.
pub open spec fn with_hidden(entry: EntryView, hidden: bool) -> EntryView {
    EntryView { hidden, ..entry }
}

/// The table after the entries named by `ids` had their flag set to
/// `hidden`.
pub open spec fn with_flags_set(entries: Seq<EntryView>, ids: Seq<i64>, hidden: bool) -> Seq<EntryView> {
    Seq::new(
        entries.len(),
        |i: int|
            if names(ids, entries[i].id) {
                with_hidden(entries[i], hidden)
            } else {
                entries[i]
            },
    )
}

/// Writing an entry puts exactly one entry behind those that the table held,
/// which stay as they were: a visible entry with the keywords in normal form
/// and the fingerprint of its texts.
pub proof fn add_puts_one_entry_last(
    before: DiaryView,
    after: DiaryView,
    entry: EntryView,
    keywords: Seq<Seq<char>>,
    title: Seq<char>,
    content: Seq<char>,
    date: Seq<char>,
)
    requires
        appended(before, after, entry),
        is_new_entry(entry, before, keywords, title, content, date),
    ensures
        after.entries.len() == before.entries.len() + 1,
        after.entries.take(before.entries.len() as int) == before.entries,
        after.entries.last() == entry,
        is_normal_form(entry.keywords, keywords),
        !entry.hidden,
        entry.hash == fingerprint_of(joined(entry.keywords), title, content, date),
        entry.hash.len() == DIGEST_LEN,
{
    assert(after.entries.take(before.entries.len() as int) =~= before.entries);
}

/// What is written depends on the table, the keywords, the title, the
/// content and the timestamp alone: two entries that may be written for the
/// same are equal, fingerprint and all.
pub proof fn new_entry_is_determined(
    a: EntryView,
    b: EntryView,
    table: DiaryView,
    keywords: Seq<Seq<char>>,
    title: Seq<char>,
    content: Seq<char>,
    date: Seq<char>,
)
    requires
        is_new_entry(a, table, keywords, title, content, date),
        is_new_entry(b, table, keywords, title, content, date),
    ensures
        a == b,
{
    normal_form_unique(a.keywords, b.keywords, keywords);
}

/// The number of a new entry is above every number in the table and above
/// every number given before, and the table stays well formed: numbers rise
/// from entry to entry and none is given twice.
pub proof fn numbers_rise_with_each_entry(before: DiaryView, after: DiaryView, entry: EntryView)
    requires
        well_formed(before),
        before.last_id < i64::MAX,
        appended(before, after, entry),
        entry.id == before.last_id + 1,
    ensures
        well_formed(after),
        after.last_id > before.last_id,
        forall|i: int| 0 <= i < before.entries.len() ==> (#[trigger] before.entries[i]).id < entry.id,
        !has_number(before.entries, entry.id),
{
}

/// The flag of an entry after those named by `ids` had theirs set to
/// `hidden`.
pub open spec fn flag_after(entry: EntryView, ids: Seq<i64>, hidden: bool) -> bool {
    if names(ids, entry.id) {
        hidden
    } else {
        entry.hidden
    }
}

/// Setting flags takes no entry away, adds none, and changes nothing of an
/// entry but its flag, so the numbers given stay given.
pub proof fn flags_keep_the_rest(entries: Seq<EntryView>, ids: Seq<i64>, hidden: bool)
    ensures
        with_flags_set(entries, ids, hidden).len() == entries.len(),
        forall|i: int|
            0 <= i < entries.len() ==> #[trigger] with_flags_set(entries, ids, hidden)[i]
                == with_hidden(entries[i], flag_after(entries[i], ids, hidden)),
{
}

/// A diary.
pub struct Diary {
    entries: Vec<Entry>,
    last_id: i64,
}

impl View for Diary {
    type V = DiaryView;

    closed spec fn view(&self) -> DiaryView {
        DiaryView { entries: views(self.entries@), last_id: self.last_id as int }
    }
}

impl Diary {
    /// Makes a new, empty diary, unless the place for it is `occupied`.
    pub fn create(occupied: bool) -> (out: Result<Diary, StoreError>)
        ensures
            occupied ==> out == Err::<Diary, StoreError>(StoreError::AlreadyExists),
            !occupied ==> out is Ok && out->Ok_0@ == empty_table() && well_formed(out->Ok_0@),
    {
        if occupied {
            Err(StoreError::AlreadyExists)
        } else {
            let entries: Vec<Entry> = Vec::new();
            assert(views(entries@) =~= Seq::empty());
            Ok(Diary { entries, last_id: 0 })
        }
    }
}

/// Whether the numbers of `rows` are positive and rise strictly.
fn rows_in_order(rows: &Vec<Entry>) -> (ok: bool)
    ensures
        ok == in_storage_order(views(rows@), last_number(views(rows@))),
{
    let ghost all = views(rows@);
    let mut previous: i64 = 0;
    let mut i: usize = 0;
    while i < rows.len()
        invariant
            i <= rows.len(),
            all == views(rows@),
            previous == last_number(all.take(i as int)),
            0 <= previous,
            in_storage_order(all.take(i as int), previous as int),
        decreases rows.len() - i,
    {
        let id = rows[i].id;
        assert(id == all[i as int].id);
        if id <= previous {
            proof {
                if in_storage_order(all, last_number(all)) {
                    if i > 0 {
                        assert(all.take(i as int).last() == all[i - 1]);
                        assert(all[i - 1].id < all[i as int].id);
                    }
                }
            }
            return false;
        }
        proof {
            let now = all.take(i + 1);
            assert forall|a: int, b: int| 0 <= a < b < now.len() implies (#[trigger] now[a]).id < (
            #[trigger] now[b]).id by {
                if b < i {
                    assert(all.take(i as int)[a] == now[a]);
                    assert(all.take(i as int)[b] == now[b]);
                } else {
                    assert(all.take(i as int)[a] == now[a]);
                }
            }
            assert forall|a: int| 0 <= a < now.len() implies 0 < (#[trigger] now[a]).id <= id by {
                if a < i {
                    assert(all.take(i as int)[a] == now[a]);
                }
            }
        }
        previous = id;
        i += 1;
    }
    assert(all.take(i as int) =~= all);
    true
}

impl Diary {
    /// Opens the diary whose table holds `stored`, the rows in storage order;
    /// `None` says that no table was found.
    pub fn open(stored: Option<Vec<Entry>>) -> (out: Result<Diary, StoreError>)
        ensures
            match stored {
                None => out == Err::<Diary, StoreError>(StoreError::NotFound),
                Some(rows) => if in_storage_order(views(rows@), last_number(views(rows@))) {
                    &&& out is Ok
                    &&& out->Ok_0@.entries == views(rows@)
                    &&& out->Ok_0@.last_id == last_number(views(rows@))
                    &&& well_formed(out->Ok_0@)
                } else {
                    out == Err::<Diary, StoreError>(StoreError::Storage)
                },
            },
    {
        match stored {
            None => Err(StoreError::NotFound),
            Some(rows) => {
                if rows_in_order(&rows) {
                    let last_id: i64 = if rows.len() == 0 {
                        0
                    } else {
                        rows[rows.len() - 1].id
                    };
                    proof {
                        let all = views(rows@);
                        if all.len() > 0 {
                            assert(all.last() == all[all.len() - 1]);
                        }
                    }
                    Ok(Diary { entries: rows, last_id })
                } else {
                    Err(StoreError::Storage)
                }
            },
        }
    }

    /// Every entry of the table in storage order, the hidden ones too.
    pub fn list_all(&self) -> (out: Vec<Entry>)
        ensures
            views(out@) == self@.entries,
    {
        let mut out: Vec<Entry> = Vec::new();
        let mut i: usize = 0;
        while i < self.entries.len()
            invariant
                i <= self.entries.len(),
                views(out@) == views(self.entries@).take(i as int),
            decreases self.entries.len() - i,
        {
            let ghost before = views(out@);
            let copy = self.entries[i].clone();
            out.push(copy);
            assert(views(out@) =~= before.push(copy@));
            i += 1;
            assert(views(out@) =~= views(self.entries@).take(i as int));
        }
        assert(views(self.entries@).take(i as int) =~= views(self.entries@));
        out
    }

    /// The entries that the terms find: those whose lower-case title holds a
    /// term, or one of whose keywords is a term; each once, in storage order.
    pub fn search(&self, terms: Vec<String>) -> (out: Vec<Entry>)
        ensures
            views(out@) == search_result(self@.entries, texts(terms@)),
    {
        search_entries(&self.entries, &terms)
    }

    /// Writes a new entry with the timestamp `date` at the end of the table
    /// and gives its number. Fails, and leaves the table as it is, where no
    /// number is left to give.
    pub fn add_dated(
        &mut self,
        keywords: Vec<String>,
        title: String,
        content: String,
        date: String,
    ) -> (out: Result<i64, StoreError>)
        requires
            well_formed(old(self)@),
        ensures
            well_formed(final(self)@),
            old(self)@.last_id < i64::MAX ==> out == Ok::<i64, StoreError>(
                (old(self)@.last_id + 1) as i64,
            ) && exists|entry: EntryView|
                #![auto]
                appended(old(self)@, final(self)@, entry) && is_new_entry(
                    entry,
                    old(self)@,
                    texts(keywords@),
                    title@,
                    content@,
                    date@,
                ),
            old(self)@.last_id >= i64::MAX ==> out == Err::<i64, StoreError>(StoreError::Storage)
                && final(self)@ == old(self)@,
    {
        if self.last_id == i64::MAX {
            return Err(StoreError::Storage);
        }
        let id: i64 = self.last_id + 1;
        let ghost before = self@;
        let entry = Entry::compose(id, normalize(keywords), title, content, date);
        let ghost written = entry@;
        self.last_id = id;
        self.entries.push(entry);
        proof {
            assert(self@.entries =~= before.entries.push(written));
            assert(appended(before, self@, written));
            assert(is_new_entry(written, before, texts(keywords@), title@, content@, date@));
        }
        Ok(id)
    }
}

/// The place of the entry with the number `id`, if the table holds one.
fn position_of(entries: &Vec<Entry>, id: i64) -> (out: Option<usize>)
    ensures
        match out {
            Some(i) => i < entries.len() && views(entries@)[i as int].id == id,
            None => !has_number(views(entries@), id as int),
        },
{
    let mut i: usize = 0;
    while i < entries.len()
        invariant
            i <= entries.len(),
            forall|k: int| 0 <= k < i ==> (#[trigger] views(entries@)[k]).id != id,
        decreases entries.len() - i,
    {
        if entries[i].id == id {
            return Some(i);
        }
        i += 1;
    }
    None
}

impl Diary {
    /// Writes a new entry with the current local time as its timestamp at the
    /// end of the table and gives its number. Fails, and leaves the table as
    /// it is, where no number is left to give.
    pub fn add(&mut self, keywords: Vec<String>, title: String, content: String) -> (out: Result<i64, StoreError>)
        requires
            well_formed(old(self)@),
        ensures
            well_formed(final(self)@),
            old(self)@.last_id < i64::MAX ==> out == Ok::<i64, StoreError>(
                (old(self)@.last_id + 1) as i64,
            ) && exists|entry: EntryView|
                #![auto]
                appended(old(self)@, final(self)@, entry) && is_new_entry(
                    entry,
                    old(self)@,
                    texts(keywords@),
                    title@,
                    content@,
                    entry.date,
                ),
            old(self)@.last_id >= i64::MAX ==> out == Err::<i64, StoreError>(StoreError::Storage)
                && final(self)@ == old(self)@,
    {
        let date = timestamp_now();
        self.add_dated(keywords, title, content, date)
    }

    /// Sets the flag of every entry that `ids` names to `set`, and gives the
    /// number of rows touched: a number that names no entry touches none,
    /// and one that stands twice in `ids` counts twice.
    pub fn set_hidden(&mut self, ids: Vec<i64>, set: bool) -> (count: usize)
        requires
            well_formed(old(self)@),
        ensures
            well_formed(final(self)@),
            final(self)@.entries == with_flags_set(old(self)@.entries, ids@, set),
            final(self)@.last_id == old(self)@.last_id,
            count == rows_touched(old(self)@.entries, ids@),
    {
        let ghost first = self@.entries;
        let ghost rows = in_table(first);
        let mut count: usize = 0;
        let mut k: usize = 0;
        proof {
            filter_empty(rows);
            assert(ids@.take(0) =~= Seq::empty());
            assert(self@.entries =~= with_flags_set(first, ids@.take(0), set));
        }
        while k < ids.len()
            invariant
                k <= ids.len(),
                count <= k,
                rows == in_table(first),
                in_storage_order(first, self@.last_id),
                well_formed(self@),
                self@.last_id == old(self)@.last_id,
                self@.entries == with_flags_set(first, ids@.take(k as int), set),
                count == ids@.take(k as int).filter(rows).len(),
            decreases ids.len() - k,
        {
            let id = ids[k];
            let ghost seen = ids@.take(k as int);
            let ghost now = ids@.take(k + 1);
            let ghost current = self@.entries;
            proof {
                assert(current.len() == first.len());
                assert forall|i: int| 0 <= i < first.len() implies (#[trigger] current[i]).id
                    == first[i].id by {}
                filter_push(seen, id, rows);
                assert(now =~= seen.push(id));
                assert forall|x: int| names(now, x) <==> (names(seen, x) || x == id) by {
                    if names(now, x) {
                        let j = choose|j: int| 0 <= j < now.len() && #[trigger] now[j] == x;
                        if j < k {
                            assert(seen[j] == x);
                        }
                    }
                    if names(seen, x) {
                        let j = choose|j: int| 0 <= j < seen.len() && #[trigger] seen[j] == x;
                        assert(now[j] == x);
                    }
                    if x == id {
                        assert(now[k as int] == x);
                    }
                }
            }
            match position_of(&self.entries, id) {
                Some(at) => {
                    self.entries[at].hidden = set;
                    count += 1;
                    proof {
                        assert(current[at as int].id == first[at as int].id);
                        assert(has_number(first, id as int));
                        assert(self@.entries[at as int] == with_hidden(current[at as int], set));
                        assert forall|i: int| 0 <= i < first.len() && i != at implies first[i].id
                            != id by {
                            if i < at {
                                assert(first[i].id < first[at as int].id);
                            } else {
                                assert(first[at as int].id < first[i].id);
                            }
                        }
                        let target = with_flags_set(first, now, set);
                        assert(self@.entries.len() == target.len());
                        assert forall|i: int| 0 <= i < first.len() implies self@.entries[i]
                            == target[i] by {
                            if i == at {
                                assert(names(now, first[i].id));
                                assert(current[i] == first[i] || current[i] == with_hidden(
                                    first[i],
                                    set,
                                ));
                            } else {
                                assert(self@.entries[i] == current[i]);
                                assert(names(now, first[i].id) == names(seen, first[i].id));
                            }
                        }
                        assert(self@.entries =~= target);
                    }
                },
                None => {
                    proof {
                        assert(!has_number(first, id as int)) by {
                            if has_number(first, id as int) {
                                let i = choose|i: int|
                                    0 <= i < first.len() && (#[trigger] first[i]).id == id;
                                assert(current[i].id == id);
                            }
                        }
                        assert(self@.entries =~= with_flags_set(first, now, set));
                    }
                },
            }
            k += 1;
        }
        assert(ids@.take(k as int) =~= ids@);
        count
    }
}

impl Diary {
    /// The number of entries in the table.
    pub fn len(&self) -> (out: usize)
        ensures
            out == self@.entries.len(),
    {
        self.entries.len()
    }

    /// The highest number given to an entry so far; 0 where none was given.
    pub fn last_id(&self) -> (out: i64)
        ensures
            out == self@.last_id,
    {
        self.last_id
    }

    /// The entry with the number `id`, if the table holds one.
    pub fn get(&self, id: i64) -> (out: Option<Entry>)
        ensures
            out is Some <==> has_number(self@.entries, id as int),
            out is Some ==> out->Some_0@.id == id && self@.entries.contains(out->Some_0@),
    {
        match position_of(&self.entries, id) {
            Some(at) => {
                let found = self.entries[at].clone();
                assert(self@.entries[at as int] == found@);
                Some(found)
            },
            None => None,
        }
    }
}

} // verus!
