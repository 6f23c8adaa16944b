//! Which instruments are active, read off their metadata records.

use vstd::prelude::*;
use vstd::string::*;
use crate::naming::{instrument_of_key, last_segment};
use crate::text::{ascending, chars_of, lemma_ascending, sort_texts, sorted, texts};

verus! {

/// What was read of one instrument's metadata record: its key, and the value
/// of the attribute that tells whether the instrument is active.
#[derive(Clone, Debug, PartialEq, Eq)]
pub struct MetadataEntry {
    pub key: String,
    pub status: String,
}

/// A [`MetadataEntry`] as texts.
pub struct EntryView {
    pub key: Seq<char>,
    pub status: Seq<char>,
}

impl View for MetadataEntry {
    type V = EntryView;

    open spec fn view(&self) -> EntryView {
        EntryView { key: self.key@, status: self.status@ }
    }
}

/// Whether a status value marks an instrument as active: it does when it is
/// the one character `1`.
pub open spec fn is_truthy(status: Seq<char>) -> bool {
    status == seq!['1']
}

impl EntryView {
    /// Whether the record marks its instrument as active.
    pub open spec fn active(self) -> bool {
        is_truthy(self.status)
    }

    /// The instrument that the record describes: the last segment of its key.
    pub open spec fn instrument(self) -> Seq<char> {
        last_segment(self.key)
    }
}

/// The views of a sequence of entries.
pub open spec fn entry_views(entries: Seq<MetadataEntry>) -> Seq<EntryView> {
    entries.map_values(|e: MetadataEntry| e@)
}

/// The instruments of the active entries, in the order of the entries.
pub open spec fn active_ids(entries: Seq<EntryView>) -> Seq<Seq<char>> {
    entries.filter(|e: EntryView| e.active()).map_values(|e: EntryView| e.instrument())
}

/// The texts of `s`, each once, in the order in which they first occur.
pub open spec fn distinct(s: Seq<Seq<char>>) -> Seq<Seq<char>>
    decreases s.len(),
{
    if s.len() == 0 {
        s
    } else if distinct(s.drop_last()).contains(s.last()) {
        distinct(s.drop_last())
    } else {
        distinct(s.drop_last()).push(s.last())
    }
}

/// The set of active instruments in ascending order: what one run works
/// through.
pub open spec fn active_sorted(entries: Seq<EntryView>) -> Seq<Seq<char>> {
    ascending(distinct(active_ids(entries)))
}

/// `distinct(s)` holds what `s` holds, and nothing twice.
pub proof fn lemma_distinct(s: Seq<Seq<char>>)
    ensures
        distinct(s).no_duplicates(),
        forall|x: Seq<char>| distinct(s).contains(x) <==> s.contains(x),
    decreases s.len(),
{
    if s.len() > 0 {
        let init = s.drop_last();
        let d = distinct(init);
        lemma_distinct(init);
        assert forall|x: Seq<char>| distinct(s).contains(x) <==> s.contains(x) by {
            if s.contains(x) {
                let k = choose|k: int| 0 <= k < s.len() && s[k] == x;
                if k < init.len() {
                    assert(init[k] == x);
                    assert(init.contains(x));
                    let p = choose|p: int| 0 <= p < d.len() && d[p] == x;
                    assert(distinct(s)[p] == x);
                } else if !d.contains(x) {
                    assert(distinct(s)[d.len() as int] == x);
                }
            }
            if distinct(s).contains(x) {
                let p = choose|p: int| 0 <= p < distinct(s).len() && distinct(s)[p] == x;
                if p < d.len() {
                    assert(init.contains(x));
                }
            }
        }
        if !d.contains(s.last()) {
            assert forall|i: int, j: int|
                0 <= i < d.push(s.last()).len() && 0 <= j < d.push(s.last()).len() && i
                    != j implies d.push(s.last())[i] != d.push(s.last())[j] by {}
        }
    }
}

/// One more entry adds its instrument at the end if it is active, and
/// nothing otherwise.
pub proof fn lemma_active_ids_push(entries: Seq<EntryView>, e: EntryView)
    ensures
        active_ids(entries.push(e)) == if e.active() {
            active_ids(entries).push(e.instrument())
        } else {
            active_ids(entries)
        },
{
    let keep = |e: EntryView| e.active();
    let id = |e: EntryView| e.instrument();
    entries.lemma_filter_push(e, keep);
    if e.active() {
        entries.filter(keep).lemma_push_map_commute(id, e);
    }
}

/// No entries, no instruments.
pub proof fn lemma_active_ids_empty()
    ensures
        active_ids(Seq::<EntryView>::empty()) == Seq::<Seq<char>>::empty(),
{
    reveal(Seq::filter);
}

/// An instrument is among `active_ids` exactly when some entry describes it
/// and marks it active.
pub proof fn lemma_active_ids_contains(entries: Seq<EntryView>, id: Seq<char>)
    ensures
        active_ids(entries).contains(id) <==> exists|k: int|
            0 <= k < entries.len() && (#[trigger] entries[k]).active() && entries[k].instrument()
                == id,
    decreases entries.len(),
{
    if entries.len() == 0 {
        lemma_active_ids_empty();
    } else {
        let init = entries.drop_last();
        let e = entries.last();
        assert(entries =~= init.push(e));
        lemma_active_ids_push(init, e);
        lemma_active_ids_contains(init, id);
        let ids = active_ids(entries);
        let before = active_ids(init);
        if ids.contains(id) {
            let p = choose|p: int| 0 <= p < ids.len() && ids[p] == id;
            if e.active() && p == before.len() {
                assert(entries[entries.len() - 1].active() && entries[entries.len()
                    - 1].instrument() == id);
            } else {
                let k = choose|k: int|
                    0 <= k < init.len() && (#[trigger] init[k]).active() && init[k].instrument()
                        == id;
                assert(entries[k] == init[k]);
            }
        }
        if exists|k: int|
            0 <= k < entries.len() && (#[trigger] entries[k]).active() && entries[k].instrument()
                == id {
            let k = choose|k: int|
                0 <= k < entries.len() && (#[trigger] entries[k]).active()
                    && entries[k].instrument() == id;
            if k == entries.len() - 1 {
                assert(ids[ids.len() - 1] == id);
            } else {
                let p = choose|p: int| 0 <= p < before.len() && before[p] == id;
                assert(ids[p] == id);
            }
        }
    }
}

/// The instruments of one run: each is described by an entry that marks it
/// active, and every such instrument is among them.
pub proof fn lemma_active_sorted_contains(entries: Seq<EntryView>, id: Seq<char>)
    ensures
        active_sorted(entries).contains(id) <==> exists|k: int|
            0 <= k < entries.len() && (#[trigger] entries[k]).active() && entries[k].instrument()
                == id,
{
    lemma_ascending(distinct(active_ids(entries)));
    lemma_distinct(active_ids(entries));
    lemma_active_ids_contains(entries, id);
}

/// The instruments of one run come in ascending order.
pub proof fn lemma_active_sorted_ascends(entries: Seq<EntryView>)
    ensures
        sorted(active_sorted(entries)),
{
    lemma_ascending(distinct(active_ids(entries)));
}

/// No instrument occurs twice in one run.
pub proof fn lemma_active_sorted_distinct(entries: Seq<EntryView>)
    ensures
        active_sorted(entries).no_duplicates(),
{
    let ids = distinct(active_ids(entries));
    lemma_distinct(active_ids(entries));
    lemma_ascending(ids);
    ids.lemma_multiset_has_no_duplicates();
    active_sorted(entries).lemma_multiset_has_no_duplicates_conv();
}

/// Whether `status` marks an instrument as active.
pub fn truthy(status: &str) -> (r: bool)
    ensures
        r == is_truthy(status@),
{
    let chars = chars_of(status);
    let r = chars.len() == 1 && chars[0] == '1';
    proof {
        if r {
            assert(status@ =~= seq!['1']);
        }
    }
    r
}

/// Whether `items` holds the text of `wanted`.
fn holds(items: &Vec<String>, wanted: &String) -> (r: bool)
    ensures
        r == texts(items@).contains(wanted@),
{
    let mut n: usize = 0;
    while n < items.len()
        invariant
            n <= items.len(),
            forall|k: int| 0 <= k < n ==> #[trigger] texts(items@)[k] != wanted@,
        decreases items.len() - n,
    {
        if items[n] == *wanted {
            assert(texts(items@)[n as int] == wanted@);
            return true;
        }
        n += 1;
    }
    false
}

/// The set of active instruments among `entries`, in ascending order: an
/// instrument is in the result exactly when an entry describes it and marks
/// it active, and then once.
pub fn active_instruments(entries: &Vec<MetadataEntry>) -> (out: Vec<String>)
    ensures
        texts(out@) == active_sorted(entry_views(entries@)),
        sorted(texts(out@)),
        texts(out@).no_duplicates(),
        forall|id: Seq<char>|
            texts(out@).contains(id) <==> exists|k: int|
                0 <= k < entries.len() && (#[trigger] entry_views(entries@)[k]).active()
                    && entry_views(entries@)[k].instrument() == id,
{
    let mut ids: Vec<String> = Vec::new();
    let mut n: usize = 0;
    proof {
        lemma_active_ids_empty();
    }
    while n < entries.len()
        invariant
            n <= entries.len(),
            texts(ids@) == distinct(active_ids(entry_views(entries@.take(n as int)))),
        decreases entries.len() - n,
    {
        let entry = &entries[n];
        proof {
            let seen = entry_views(entries@.take(n as int));
            assert(entry_views(entries@.take(n + 1)) =~= seen.push(entry@));
            lemma_active_ids_push(seen, entry@);
            assert(active_ids(seen).push(entry@.instrument()).drop_last() =~= active_ids(seen));
        }
        if truthy(entry.status.as_str()) {
            let id = instrument_of_key(entry.key.as_str());
            if !holds(&ids, &id) {
                ids.push(id);
            }
        }
        n += 1;
    }
    proof {
        let all = entry_views(entries@);
        assert(entries@.take(n as int) =~= entries@);
        lemma_active_sorted_ascends(all);
        lemma_active_sorted_distinct(all);
        assert forall|id: Seq<char>|
            active_sorted(all).contains(id) <==> exists|k: int|
                0 <= k < entries.len() && (#[trigger] all[k]).active() && all[k].instrument()
                    == id by {
            lemma_active_sorted_contains(all, id);
        }
    }
    sort_texts(&ids)
}

} // verus!
