//! Listings for the console: which entries are shown, and how each is
//! written.

use vstd::prelude::*;
use vstd::string::*;
use crate::clock::local_rfc2822;
use crate::entry::{views, Entry, EntryView};
use crate::keywords::texts;
use crate::lists::{filter_empty, filter_members, filter_push};
use crate::paint::{
    decimal, decimal_text, hex_of, hex_text, pad, padded, paint, paint_underlined, painted,
    painted_underlined, repeated, rule, signed_decimal, signed_decimal_text,
};

verus! {

/// The width to which a title is filled up.
pub const TITLE_WIDTH: usize = 40;

/// The width to which an entry's number is filled up.
pub const ID_WIDTH: usize = 20;

/// What a listing shows of each entry, and whether it shows hidden entries.
#[derive(Clone, Copy, Debug, PartialEq, Eq, Structural)]
pub struct DisplayOptions {
    pub date: bool,
    pub id: bool,
    pub hash: bool,
    pub keywords: bool,
    pub content: bool,
    pub hidden: bool,
}

impl DisplayOptions {
    /// The options that the switches of a listing command ask for: date and
    /// content are shown unless switched off, the rest only when switched on.
    pub fn from_flags(
        nocontent: bool,
        id: bool,
        hash: bool,
        keywords: bool,
        nodate: bool,
        hidden: bool,
    ) -> (out: Self)
        ensures
            out == (DisplayOptions {
                date: !nodate,
                id,
                hash,
                keywords,
                content: !nocontent,
                hidden,
            }),
    {
        DisplayOptions { date: !nodate, id, hash, keywords, content: !nocontent, hidden }
    }
}

/// An entry is shown unless it is hidden and hidden entries are not asked
/// for.
pub open spec fn is_visible(entry: EntryView, show_hidden: bool) -> bool {
    !entry.hidden || show_hidden
}

/// The test by which a listing keeps an entry.
pub open spec fn shown_when(show_hidden: bool) -> spec_fn(EntryView) -> bool {
    |entry: EntryView| is_visible(entry, show_hidden)
}

/// The entries that a listing shows, in their order.
pub open spec fn visible(entries: Seq<EntryView>, show_hidden: bool) -> Seq<EntryView> {
    entries.filter(shown_when(show_hidden))
}

/// The entries that a listing shows, in their order.
pub fn visible_entries(entries: &Vec<Entry>, show_hidden: bool) -> (out: Vec<Entry>)
    ensures
        views(out@) == visible(views(entries@), show_hidden),
{
    let ghost all = views(entries@);
    let ghost keep = shown_when(show_hidden);
    let mut out: Vec<Entry> = Vec::new();
    let mut i: usize = 0;
    proof {
        filter_empty(keep);
        assert(all.take(0) =~= Seq::empty());
        assert(views(out@) =~= Seq::empty());
    }
    while i < entries.len()
        invariant
            i <= entries.len(),
            all == views(entries@),
            keep == shown_when(show_hidden),
            views(out@) == all.take(i as int).filter(keep),
        decreases entries.len() - i,
    {
        let ghost before = views(out@);
        proof {
            filter_push(all.take(i as int), all[i as int], keep);
            assert(all.take(i + 1) =~= all.take(i as int).push(all[i as int]));
        }
        if !entries[i].hidden || show_hidden {
            let copy = entries[i].clone();
            out.push(copy);
            assert(views(out@) =~= before.push(all[i as int]));
        }
        i += 1;
    }
    assert(all.take(i as int) =~= all);
    out
}

/// A listing shows the entries that are not hidden, and the hidden ones too
/// where they are asked for; then it shows the whole list.
pub proof fn listing_shows_the_visible(entries: Seq<EntryView>, show_hidden: bool)
    ensures
        forall|entry: EntryView|
            visible(entries, show_hidden).contains(entry) <==> entries.contains(entry) && (
            !entry.hidden || show_hidden),
        show_hidden ==> visible(entries, show_hidden) == entries,
    decreases entries.len(),
{
    let keep = shown_when(show_hidden);
    filter_members(entries, keep);
    if entries.len() == 0 {
        filter_empty(keep);
        assert(entries =~= Seq::empty());
    } else {
        listing_shows_the_visible(entries.drop_last(), show_hidden);
        filter_push(entries.drop_last(), entries.last(), keep);
        assert(entries =~= entries.drop_last().push(entries.last()));
    }
}

/// The first `upto` keywords in cyan, each but those equal to the last
/// keyword followed by a comma and a blank.
pub open spec fn keyword_items(keywords: Seq<Seq<char>>, upto: int) -> Seq<char>
    decreases upto,
{
    if upto <= 0 {
        Seq::empty()
    } else {
        keyword_items(keywords, upto - 1) + painted(keywords[upto - 1]) + if keywords[upto - 1]
            != keywords.last() {
            ", "@
        } else {
            Seq::empty()
        }
    }
}

/// The line that shows the keywords of an entry.
pub open spec fn keywords_line(keywords: Seq<Seq<char>>) -> Seq<char> {
    "Keywords: "@ + keyword_items(keywords, keywords.len() as int) + "\n"@
}

/// The first line of an entry: its title, underlined and filled up, then,
/// as far as asked for, the date label, the number and the fingerprint.
pub open spec fn head_line(entry: EntryView, label: Seq<char>, options: DisplayOptions) -> Seq<char> {
    padded(painted_underlined(entry.title), TITLE_WIDTH as nat) + (if options.date {
        painted(label) + " "@
    } else {
        Seq::empty()
    }) + (if options.id {
        padded(painted("["@ + signed_decimal(entry.id) + "]"@), ID_WIDTH as nat)
    } else {
        Seq::empty()
    }) + (if options.hash {
        painted("["@ + hex_of(entry.hash) + "]"@)
    } else {
        Seq::empty()
    }) + "\n"@
}

/// All that a listing writes for one entry: a rule of `cols` dashes, an
/// empty line, the first line, the keywords and the content as far as asked
/// for, and an empty line.
pub open spec fn entry_block(
    entry: EntryView,
    label: Seq<char>,
    options: DisplayOptions,
    cols: nat,
) -> Seq<char> {
    repeated('-', cols) + "\n\n"@ + head_line(entry, label, options) + (if options.keywords {
        keywords_line(entry.keywords)
    } else {
        Seq::empty()
    }) + (if options.content {
        entry.content + "\n"@
    } else {
        Seq::empty()
    }) + "\n"@
}

/// The blocks of the entries in order, each with the label at its place.
pub open spec fn blocks(
    entries: Seq<EntryView>,
    labels: Seq<Seq<char>>,
    options: DisplayOptions,
    cols: nat,
) -> Seq<char>
    decreases entries.len(),
{
    if entries.len() == 0 {
        Seq::empty()
    } else {
        blocks(entries.drop_last(), labels.drop_last(), options, cols) + entry_block(
            entries.last(),
            labels.last(),
            options,
            cols,
        )
    }
}

/// The word for `count` entries.
pub open spec fn entries_word(count: nat) -> Seq<char> {
    if count == 1 {
        " entry."@
    } else {
        " entries."@
    }
}

/// The line that closes a listing.
pub open spec fn found_line(count: nat) -> Seq<char> {
    "Found "@ + painted(decimal(count)) + entries_word(count) + "\n"@
}

/// A whole listing of the entries `shown`: their blocks, a closing rule
/// where there is any block, and the line that counts them.
pub open spec fn listing(
    shown: Seq<EntryView>,
    labels: Seq<Seq<char>>,
    options: DisplayOptions,
    cols: nat,
) -> Seq<char> {
    blocks(shown, labels, options, cols) + (if shown.len() > 0 {
        repeated('-', cols) + "\n"@
    } else {
        Seq::empty()
    }) + found_line(shown.len())
}

/// Writes the line that shows the keywords of an entry.
fn render_keywords(keywords: &Vec<String>) -> (out: String)
    ensures
        out@ == keywords_line(texts(keywords@)),
{
    let ghost ks = texts(keywords@);
    let mut out = "Keywords: ".to_owned();
    let mut i: usize = 0;
    assert(out@ =~= "Keywords: "@ + keyword_items(ks, 0));
    while i < keywords.len()
        invariant
            i <= keywords.len(),
            ks == texts(keywords@),
            out@ == "Keywords: "@ + keyword_items(ks, i as int),
        decreases keywords.len() - i,
    {
        let ghost before = out@;
        let item = paint(keywords[i].as_str());
        out.append(item.as_str());
        let is_last = keywords[i] == keywords[keywords.len() - 1];
        assert(is_last == (ks[i as int] == ks.last()));
        if !is_last {
            out.append(", ");
        }
        i += 1;
        assert(out@ =~= "Keywords: "@ + keyword_items(ks, i as int));
    }
    out.append("\n");
    out
}

/// Writes the first line of an entry.
fn render_head(entry: &Entry, label: &str, options: &DisplayOptions) -> (out: String)
    ensures
        out@ == head_line(entry@, label@, *options),
{
    let mut out = pad(paint_underlined(entry.title.as_str()), TITLE_WIDTH);
    if options.date {
        out.append(paint(label).as_str());
        out.append(" ");
    }
    if options.id {
        let mut number = "[".to_owned();
        number.append(signed_decimal_text(entry.id).as_str());
        number.append("]");
        out.append(pad(paint(number.as_str()), ID_WIDTH).as_str());
    }
    if options.hash {
        let mut print = "[".to_owned();
        print.append(hex_text(&entry.hash).as_str());
        print.append("]");
        out.append(paint(print.as_str()).as_str());
    }
    out.append("\n");
    assert(out@ =~= head_line(entry@, label@, *options));
    out
}

/// Writes all that a listing shows of one entry, on a console `cols`
/// characters wide, with `label` as the entry's date.
pub fn render_entry(entry: &Entry, label: &str, options: &DisplayOptions, cols: usize) -> (out: String)
    ensures
        out@ == entry_block(entry@, label@, *options, cols as nat),
{
    let mut out = rule(cols);
    out.append("\n\n");
    out.append(render_head(entry, label, options).as_str());
    if options.keywords {
        out.append(render_keywords(&entry.keywords).as_str());
    }
    if options.content {
        out.append(entry.content.as_str());
        out.append("\n");
    }
    out.append("\n");
    assert(out@ =~= entry_block(entry@, label@, *options, cols as nat));
    out
}

/// Writes the line that closes a listing of `count` entries.
pub fn render_found(count: usize) -> (out: String)
    ensures
        out@ == found_line(count as nat),
{
    let mut out = "Found ".to_owned();
    out.append(paint(decimal_text(count as u64).as_str()).as_str());
    if count == 1 {
        out.append(" entry.");
    } else {
        out.append(" entries.");
    }
    out.append("\n");
    assert(out@ =~= found_line(count as nat));
    out
}

/// A listing as text, and the number of entries that it shows.
#[derive(Debug)]
pub struct Listing {
    pub text: String,
    pub shown: usize,
}

/// The labels of a listing that shows no dates: as many empty texts as it
/// has entries.
pub open spec fn blank_labels(count: nat) -> Seq<Seq<char>> {
    Seq::new(count, |i: int| Seq::<char>::empty())
}

/// `out` is a listing of `entries` under `options` for a console `cols`
/// characters wide: it shows the visible entries in their order and counts
/// them, each with some date label, which is empty where no dates are shown.
pub open spec fn is_listing_of(out: Listing, entries: Seq<EntryView>, options: DisplayOptions, cols: nat) -> bool {
    let shown = visible(entries, options.hidden);
    &&& out.shown == shown.len()
    &&& exists|labels: Seq<Seq<char>>|
        {
            &&& labels.len() == shown.len()
            &&& !options.date ==> labels == blank_labels(shown.len())
            &&& out.text@ == #[trigger] listing(shown, labels, options, cols)
        }
}

/// The date label for a stored timestamp, given what its conversion to the
/// long form gave: that form, or the stored text where there is none.
pub open spec fn label_of(converted: Option<Seq<char>>, stored: Seq<char>) -> Seq<char> {
    match converted {
        Some(label) => label,
        None => stored,
    }
}

/// The text of an optional string.
pub open spec fn text_of(s: Option<String>) -> Option<Seq<char>> {
    match s {
        Some(text) => Some(text@),
        None => None,
    }
}

/// Chooses the date label for a stored timestamp from what its conversion to
/// the long form gave: that form, or the stored text where there is none.
pub fn label_from(converted: Option<String>, stored: &str) -> (out: String)
    ensures
        out@ == label_of(text_of(converted), stored@),
{
    match converted {
        Some(label) => label,
        None => stored.to_owned(),
    }
}

/// The date label of an entry: its timestamp in the RFC 2822 form and the
/// machine's time zone, or the timestamp as it is where it has no such form.
/// The form depends on the machine's time zone, so nothing is promised of the
/// label; `label_from` says how it follows from what the conversion gave.
fn date_label(entry: &Entry) -> (out: String) {
    label_from(local_rfc2822(entry.date.as_str()), entry.date.as_str())
}

/// Writes the listing of `entries` under `options` for a console `cols`
/// characters wide: the block of each visible entry, a closing rule where
/// there is any block, and the line that counts them.
pub fn render_entries(entries: &Vec<Entry>, options: &DisplayOptions, cols: usize) -> (out: Listing)
    ensures
        is_listing_of(out, views(entries@), *options, cols as nat),
{
    let shown = visible_entries(entries, options.hidden);
    let ghost all = views(shown@);
    let ghost mut labels: Seq<Seq<char>> = Seq::empty();
    let mut text = String::new();
    let mut i: usize = 0;
    assert(all.take(0) =~= Seq::empty());
    assert(labels =~= blank_labels(0));
    assert(text@ =~= blocks(all.take(0), labels, *options, cols as nat));
    while i < shown.len()
        invariant
            i <= shown.len(),
            all == views(shown@),
            labels.len() == i,
            !options.date ==> labels == blank_labels(i as nat),
            text@ == blocks(all.take(i as int), labels, *options, cols as nat),
        decreases shown.len() - i,
    {
        let label = if options.date {
            date_label(&shown[i])
        } else {
            String::new()
        };
        let block = render_entry(&shown[i], label.as_str(), options, cols);
        text.append(block.as_str());
        proof {
            let before = labels;
            labels = labels.push(label@);
            assert(labels.drop_last() =~= before);
            assert(all.take(i + 1).drop_last() =~= all.take(i as int));
            assert(all.take(i + 1).last() == all[i as int]);
            if !options.date {
                assert(labels =~= blank_labels((i + 1) as nat));
            }
        }
        i += 1;
    }
    assert(all.take(i as int) =~= all);
    if shown.len() > 0 {
        text.append(rule(cols).as_str());
        text.append("\n");
    }
    text.append(render_found(shown.len()).as_str());
    let out = Listing { text, shown: shown.len() };
    proof {
        assert(out.text@ =~= listing(all, labels, *options, cols as nat));
    }
    out
}

/// The line that reports how many entries a change of flags touched.
pub open spec fn changed_line(count: nat) -> Seq<char> {
    "Changed "@ + painted(decimal(count)) + entries_word(count) + "\n"@
}

/// Writes the line that reports how many entries a change of flags touched.
pub fn render_changed(count: usize) -> (out: String)
    ensures
        out@ == changed_line(count as nat),
{
    let mut out = "Changed ".to_owned();
    out.append(paint(decimal_text(count as u64).as_str()).as_str());
    if count == 1 {
        out.append(" entry.");
    } else {
        out.append(" entries.");
    }
    out.append("\n");
    assert(out@ =~= changed_line(count as nat));
    out
}

/// The line that reports a new entry.
pub open spec fn added_line(title: Seq<char>) -> Seq<char> {
    "Added "@ + painted(title) + "!\n"@
}

/// Writes the line that reports a new entry.
pub fn render_added(title: &str) -> (out: String)
    ensures
        out@ == added_line(title@),
{
    let mut out = "Added ".to_owned();
    out.append(paint(title).as_str());
    out.append("!\n");
    assert(out@ =~= added_line(title@));
    out
}

/// The greeting of an opened diary, with an empty line behind it.
pub open spec fn welcome_line(user: Seq<char>, location: Seq<char>) -> Seq<char> {
    "Welcome "@ + painted(user) + " at '"@ + painted(location) + "'!\n\n"@
}

/// Writes the greeting of an opened diary.
pub fn render_welcome(user: &str, location: &str) -> (out: String)
    ensures
        out@ == welcome_line(user@, location@),
{
    let mut out = "Welcome ".to_owned();
    out.append(paint(user).as_str());
    out.append(" at '");
    out.append(paint(location).as_str());
    out.append("'!\n\n");
    assert(out@ =~= welcome_line(user@, location@));
    out
}

/// The line that reports a new diary.
pub open spec fn created_line(location: Seq<char>) -> Seq<char> {
    "Created database at '"@ + painted(location) + "'!\n"@
}

/// Writes the line that reports a new diary.
pub fn render_created(location: &str) -> (out: String)
    ensures
        out@ == created_line(location@),
{
    let mut out = "Created database at '".to_owned();
    out.append(paint(location).as_str());
    out.append("'!\n");
    assert(out@ =~= created_line(location@));
    out
}

} // verus!
