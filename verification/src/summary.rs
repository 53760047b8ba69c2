//! What a notification says about a batch of new messages: their subjects,
//! newest first, under a title that counts the whole search result.

use crate::clock::{local_now, parse_date, stated_instant, Instant};
use crate::headers::{first_value, get_first_value, parse_headers, parsed_headers};
use crate::markup::{escaped, to_markup};
use crate::text::{decimal, push_decimal, trim_end, trimmed_end};
use vstd::prelude::*;
use vstd::string::*;

verus! {

/// One message as a notification lists it.
#[derive(Debug)]
pub struct Entry {
    pub date: Instant,
    pub subject: String,
}

/// An [`Entry`] as plain values.
pub struct EntryView {
    pub date: Instant,
    pub subject: Seq<char>,
}

impl View for Entry {
    type V = EntryView;

    open spec fn view(&self) -> EntryView {
        EntryView { date: self.date, subject: self.subject@ }
    }
}

/// The entries of a list as plain values.
pub open spec fn views(entries: Seq<Entry>) -> Seq<EntryView> {
    Seq::new(entries.len(), |i: int| entries[i]@)
}

/// `sorted` with `entry` put in by date: behind every entry that is not
/// older than it, before every entry that is.
pub open spec fn placed(sorted: Seq<EntryView>, entry: EntryView) -> Seq<EntryView>
    decreases sorted.len(),
{
    if sorted.len() > 0 && sorted.last().date.before(entry.date) {
        placed(sorted.drop_last(), entry).push(sorted.last())
    } else {
        sorted.push(entry)
    }
}

/// `entries` ordered newest first; entries of the same date stay in the order
/// they came in.
pub open spec fn newest_first(entries: Seq<EntryView>) -> Seq<EntryView>
    decreases entries.len(),
{
    if entries.len() == 0 {
        entries
    } else {
        placed(newest_first(entries.drop_last()), entries.last())
    }
}

/// Whether no entry of `entries` stands before a newer one.
pub open spec fn is_newest_first(entries: Seq<EntryView>) -> bool {
    forall|i: int, j: int|
        0 <= i < j < entries.len() ==> !(#[trigger] entries[i]).date.before(
            (#[trigger] entries[j]).date,
        )
}

/// Where `placed` puts an entry: at `k`, when everything from `k` on is older
/// and the entry just before `k` is not.
proof fn lemma_placed_at(sorted: Seq<EntryView>, entry: EntryView, k: int)
    requires
        0 <= k <= sorted.len(),
        forall|j: int| k <= j < sorted.len() ==> sorted[j].date.before(entry.date),
        k > 0 ==> !sorted[k - 1].date.before(entry.date),
    ensures
        placed(sorted, entry) == sorted.insert(k, entry),
    decreases sorted.len(),
{
    if k < sorted.len() {
        let rest = sorted.drop_last();
        lemma_placed_at(rest, entry, k);
        assert(rest.insert(k, entry).push(sorted.last()) =~= sorted.insert(k, entry));
    } else {
        assert(sorted.push(entry) =~= sorted.insert(k, entry));
    }
}

/// Placing an entry keeps a list ordered newest first, and adds just that
/// entry to it.
pub proof fn lemma_placed_keeps_order(sorted: Seq<EntryView>, entry: EntryView)
    requires
        is_newest_first(sorted),
    ensures
        is_newest_first(placed(sorted, entry)),
        placed(sorted, entry).to_multiset() == sorted.to_multiset().insert(entry),
    decreases sorted.len(),
{
    broadcast use vstd::seq_lib::group_to_multiset_ensures;

    if sorted.len() > 0 && sorted.last().date.before(entry.date) {
        let rest = sorted.drop_last();
        let last = sorted.last();
        assert(is_newest_first(rest)) by {
            assert forall|i: int, j: int| 0 <= i < j < rest.len() implies !(#[trigger] rest[i]).date.before(
                (#[trigger] rest[j]).date,
            ) by {
                assert(rest[i] == sorted[i] && rest[j] == sorted[j]);
            }
        }
        lemma_placed_keeps_order(rest, entry);
        let inner = placed(rest, entry);
        let out = inner.push(last);
        assert(sorted =~= rest.push(last));
        assert(out.to_multiset() =~= sorted.to_multiset().insert(entry));
        assert forall|i: int, j: int| 0 <= i < j < out.len() implies !(#[trigger] out[i]).date.before(
            (#[trigger] out[j]).date,
        ) by {
            if j < inner.len() {
                assert(out[i] == inner[i] && out[j] == inner[j]);
            } else {
                assert(out[i] == inner[i]);
                assert(inner.to_multiset().count(inner[i]) > 0);
                if inner[i] != entry {
                    assert(rest.to_multiset().count(inner[i]) > 0);
                    assert(rest.contains(inner[i]));
                    let m = rest.index_of(inner[i]);
                    assert(sorted[m] == inner[i]);
                    assert(!sorted[m].date.before(sorted[sorted.len() - 1].date));
                }
            }
        }
    } else {
        let out = sorted.push(entry);
        assert forall|i: int, j: int| 0 <= i < j < out.len() implies !(#[trigger] out[i]).date.before(
            (#[trigger] out[j]).date,
        ) by {
            if j < sorted.len() {
                assert(out[i] == sorted[i] && out[j] == sorted[j]);
            } else if sorted.len() > 0 {
                assert(out[i] == sorted[i]);
                if i < sorted.len() - 1 {
                    assert(!sorted[i].date.before(sorted[sorted.len() - 1].date));
                }
            }
        }
    }
}

/// Ordering newest first rearranges the entries and loses or adds none.
pub proof fn lemma_newest_first_orders(entries: Seq<EntryView>)
    ensures
        is_newest_first(newest_first(entries)),
        newest_first(entries).to_multiset() == entries.to_multiset(),
        newest_first(entries).len() == entries.len(),
    decreases entries.len(),
{
    broadcast use vstd::seq_lib::group_to_multiset_ensures;

    if entries.len() > 0 {
        let rest = entries.drop_last();
        lemma_newest_first_orders(rest);
        lemma_placed_keeps_order(newest_first(rest), entries.last());
        assert(entries =~= rest.push(entries.last()));
        assert(newest_first(entries).to_multiset() =~= entries.to_multiset());
    }
    newest_first(entries).to_multiset_ensures();
    entries.to_multiset_ensures();
}

/// The entries of `entries` that are dated `at`, in their order.
pub open spec fn dated(entries: Seq<EntryView>, at: Instant) -> Seq<EntryView> {
    entries.filter(|entry: EntryView| entry.date == at)
}

/// Placing an entry puts it behind the entries of its own date and leaves
/// the order among the others alone.
pub proof fn lemma_placed_is_stable(sorted: Seq<EntryView>, entry: EntryView, at: Instant)
    ensures
        dated(placed(sorted, entry), at) == if entry.date == at {
            dated(sorted, at).push(entry)
        } else {
            dated(sorted, at)
        },
    decreases sorted.len(),
{
    let on = |entry: EntryView| entry.date == at;
    if sorted.len() > 0 && sorted.last().date.before(entry.date) {
        let rest = sorted.drop_last();
        let last = sorted.last();
        lemma_placed_is_stable(rest, entry, at);
        placed(rest, entry).lemma_filter_push(last, on);
        rest.lemma_filter_push(last, on);
        assert(sorted =~= rest.push(last));
    } else {
        sorted.lemma_filter_push(entry, on);
    }
}

/// Ordering newest first keeps the entries of one date in the order they
/// came in.
pub proof fn lemma_newest_first_is_stable(entries: Seq<EntryView>, at: Instant)
    ensures
        dated(newest_first(entries), at) == dated(entries, at),
    decreases entries.len(),
{
    let on = |entry: EntryView| entry.date == at;
    if entries.len() > 0 {
        let rest = entries.drop_last();
        lemma_newest_first_is_stable(rest, at);
        lemma_placed_is_stable(newest_first(rest), entries.last(), at);
        rest.lemma_filter_push(entries.last(), on);
        assert(entries =~= rest.push(entries.last()));
    } else {
        assert(newest_first(entries) =~= entries);
    }
}

/// Puts `entry` into a list by date: behind every entry that is not older
/// than it.
pub fn place(sorted: &mut Vec<Entry>, entry: Entry)
    ensures
        views(final(sorted)@) == placed(views(old(sorted)@), entry@),
{
    let ghost before = views(sorted@);
    let mut k: usize = sorted.len();
    while k > 0 && sorted[k - 1].date.is_before(&entry.date)
        invariant
            k <= sorted@.len(),
            sorted@ == old(sorted)@,
            before == views(sorted@),
            forall|j: int| k <= j < before.len() ==> before[j].date.before(entry.date),
        decreases k,
    {
        k -= 1;
    }
    proof {
        lemma_placed_at(before, entry@, k as int);
    }
    sorted.insert(k, entry);
    proof {
        assert(views(sorted@) =~= before.insert(k as int, entry@));
    }
}

/// The entries ordered newest first.
pub fn sort_newest_first(entries: &Vec<Entry>) -> (sorted: Vec<Entry>)
    ensures
        views(sorted@) == newest_first(views(entries@)),
{
    let mut sorted: Vec<Entry> = Vec::new();
    let mut i: usize = 0;
    proof {
        assert(views(entries@).take(0) =~= Seq::<EntryView>::empty());
        assert(views(sorted@) =~= Seq::<EntryView>::empty());
    }
    while i < entries.len()
        invariant
            i <= entries@.len(),
            views(sorted@) == newest_first(views(entries@).take(i as int)),
        decreases entries@.len() - i,
    {
        let entry = Entry { date: entries[i].date, subject: entries[i].subject.clone() };
        proof {
            let upto = views(entries@).take(i + 1);
            assert(upto.drop_last() =~= views(entries@).take(i as int));
            assert(upto.last() == entry@);
        }
        place(&mut sorted, entry);
        i += 1;
    }
    proof {
        assert(views(entries@).take(i as int) =~= views(entries@));
    }
    sorted
}

/// The subject shown for a message: its own, or a stand-in when it has none.
pub open spec fn subject_or_default(subject: Option<Seq<char>>) -> Seq<char> {
    match subject {
        Some(text) => text,
        None => "<no subject>"@,
    }
}

impl Entry {
    /// The entry for a message with the given subject and date: a message
    /// without a subject is listed as `<no subject>`, one without a date is
    /// dated `now`.
    pub fn new(subject: Option<String>, date: Option<Instant>, now: Instant) -> (entry: Entry)
        ensures
            entry.subject@ == subject_or_default(
                match subject {
                    Some(text) => Some(text@),
                    None => None,
                },
            ),
            entry.date == (match date {
                Some(at) => at,
                None => now,
            }),
    {
        let subject = match subject {
            Some(text) => text,
            None => String::from_str("<no subject>"),
        };
        let date = match date {
            Some(at) => at,
            None => now,
        };
        Entry { date, subject }
    }
}

/// The date that the header fields of a message state, if they state one
/// that can be read.
pub open spec fn stated_date(fields: Seq<(Seq<char>, Seq<char>)>) -> Option<Instant> {
    match first_value(fields, "Date"@) {
        Some(text) => stated_instant(text),
        None => None,
    }
}

/// Whether `entry` lists the message with the header fields `fields`: under
/// its subject, and under its date where the fields state one. The date of a
/// message that states none is not fixed: such a message is dated by the
/// clock.
pub open spec fn describes(fields: Seq<(Seq<char>, Seq<char>)>, entry: EntryView) -> bool {
    &&& entry.subject == subject_or_default(first_value(fields, "Subject"@))
    &&& stated_date(fields) matches Some(at) ==> entry.date == at
}

/// Reads the entry for one message from its raw header block. A block that
/// cannot be parsed gives no entry.
pub fn read_entry(raw: &[u8]) -> (entry: Option<Entry>)
    ensures
        match entry {
            Some(e) => parsed_headers(raw@) matches Some(fields) && describes(fields, e@),
            None => parsed_headers(raw@) is None,
        },
{
    match parse_headers(raw) {
        Ok(headers) => {
            let subject = get_first_value(&headers, "Subject");
            let date = match get_first_value(&headers, "Date") {
                Some(text) => parse_date(text.as_str()),
                None => None,
            };
            let now = match date {
                Some(at) => at,
                None => local_now(),
            };
            Some(Entry::new(subject, date, now))
        },
        Err(_) => None,
    }
}

/// The header blocks of fetched messages as plain values; `None` stands for
/// a message that came without one.
pub open spec fn blocks(raws: Seq<Option<Vec<u8>>>) -> Seq<Option<Seq<u8>>> {
    Seq::new(
        raws.len(),
        |i: int|
            match raws[i] {
                Some(raw) => Some(raw@),
                None => None,
            },
    )
}

/// Whether `entries` lists the messages with the header blocks `raws`, in
/// their order, leaving out those without a block and those whose block
/// cannot be parsed.
pub open spec fn lists(raws: Seq<Option<Seq<u8>>>, entries: Seq<EntryView>) -> bool
    decreases raws.len(),
{
    if raws.len() == 0 {
        entries.len() == 0
    } else {
        match raws.last() {
            Some(raw) => match parsed_headers(raw) {
                Some(fields) => {
                    &&& entries.len() > 0
                    &&& describes(fields, entries.last())
                    &&& lists(raws.drop_last(), entries.drop_last())
                },
                None => lists(raws.drop_last(), entries),
            },
            None => lists(raws.drop_last(), entries),
        }
    }
}

/// Reads the entries of a batch of fetched messages, in the order fetched.
/// Messages without a header block, or with one that cannot be parsed, are
/// left out; the rest of the batch is still read.
pub fn digest(raws: &Vec<Option<Vec<u8>>>) -> (entries: Vec<Entry>)
    ensures
        lists(blocks(raws@), views(entries@)),
{
    let mut entries: Vec<Entry> = Vec::new();
    let mut i: usize = 0;
    proof {
        assert(blocks(raws@).take(0) =~= Seq::<Option<Seq<u8>>>::empty());
    }
    while i < raws.len()
        invariant
            i <= raws@.len(),
            lists(blocks(raws@).take(i as int), views(entries@)),
        decreases raws@.len() - i,
    {
        let ghost before = views(entries@);
        proof {
            let upto = blocks(raws@).take(i + 1);
            assert(upto.drop_last() =~= blocks(raws@).take(i as int));
        }
        match &raws[i] {
            Some(raw) => {
                match read_entry(raw.as_slice()) {
                    Some(entry) => {
                        entries.push(entry);
                        proof {
                            assert(views(entries@).drop_last() =~= before);
                        }
                    },
                    None => {},
                }
            },
            None => {},
        }
        i += 1;
    }
    proof {
        assert(blocks(raws@).take(i as int) =~= blocks(raws@));
    }
    entries
}

/// The title of a notification: the account's name and the size of the
/// whole search result.
pub open spec fn title_text(name: Seq<char>, count: nat) -> Seq<char> {
    "@"@ + name + " has new mail ("@ + decimal(count) + ")"@
}

/// One line for each entry, in their order: a marker, the subject, a line
/// break.
pub open spec fn listing(entries: Seq<EntryView>) -> Seq<char>
    decreases entries.len(),
{
    if entries.len() == 0 {
        Seq::empty()
    } else {
        listing(entries.drop_last()) + "> "@ + entries.last().subject + "\n"@
    }
}

/// The body of a notification: the listing of its entries, without the white
/// space at its end.
pub open spec fn body_text(entries: Seq<EntryView>) -> Seq<char> {
    trimmed_end(listing(entries))
}

/// The title of the notification for `count` matching messages in the
/// account called `name`.
pub fn title(name: &str, count: usize) -> (text: String)
    ensures
        text@ == title_text(name@, count as nat),
{
    let mut text = String::from_str("@");
    text.append(name);
    text.append(" has new mail (");
    push_decimal(&mut text, count as u64);
    text.append(")");
    text
}

/// The body of the notification that lists `entries` in their order.
pub fn body(entries: &Vec<Entry>) -> (text: String)
    ensures
        text@ == body_text(views(entries@)),
{
    let mut lines = String::new();
    let mut i: usize = 0;
    proof {
        assert(views(entries@).take(0) =~= Seq::<EntryView>::empty());
    }
    while i < entries.len()
        invariant
            i <= entries@.len(),
            lines@ == listing(views(entries@).take(i as int)),
        decreases entries@.len() - i,
    {
        proof {
            let upto = views(entries@).take(i + 1);
            assert(upto.drop_last() =~= views(entries@).take(i as int));
            assert(upto.last().subject == entries@[i as int].subject@);
        }
        lines.append("> ");
        lines.append(entries[i].subject.as_str());
        lines.append("\n");
        i += 1;
    }
    proof {
        assert(views(entries@).take(i as int) =~= views(entries@));
    }
    trim_end(lines.as_str()).to_owned()
}

/// What a notification shows.
#[derive(Debug)]
pub struct Notice {
    /// The headline: the account and how many messages match the search.
    pub title: String,
    /// The subjects of the messages not announced before, newest first.
    pub body: String,
    /// The body as markup, for a notification server that reads it so.
    pub markup: String,
}

impl Notice {
    /// The notice for an account called `name` in which `count` messages
    /// match the search and `entries`, ordered as they are to be shown, were
    /// not announced before.
    pub fn compose(name: &str, count: usize, entries: &Vec<Entry>) -> (notice: Notice)
        ensures
            notice.title@ == title_text(name@, count as nat),
            notice.body@ == body_text(views(entries@)),
            notice.markup@ == escaped(body_text(views(entries@))),
    {
        let title = title(name, count);
        let body = body(entries);
        let markup = to_markup(body.as_str());
        Notice { title, body, markup }
    }
}

} // verus!
