//! A memory for the landing probes, keyed by the object ids that determine them.
//!
//! Both probes are pure functions of object ids: the **answer** for one checkout
//! is determined by head, trunk name and trunk, and the **trunk patch ids** by
//! fork point and trunk. Anything that could change an answer moves an id and so
//! changes the key, so there is no expiry and nothing to invalidate.
//!
//! [`VERSION`] is the exception. If the probes themselves change, every stored
//! answer was computed by code that no longer exists, so the version is bumped
//! and what was stored is discarded.

use vstd::prelude::*;

use crate::config;
use crate::config::Environment;
use crate::model::{Landed, Text};
use crate::paths;
use crate::strings;

verus! {

/// Bumped whenever the probes change, which discards every stored answer.
pub const VERSION: u32 = 1;

/// How many landing answers to keep. One per checkout per trunk position, so a
/// few hundred covers a large session's history several times over.
pub const MAX_ANSWERS: usize = 512;

/// How many trunk ranges to keep. Each is a list of patch ids, one per trunk
/// commit, so this is deliberately small.
pub const MAX_RANGES: usize = 16;

/// Trunk ranges longer than this are computed and not stored.
pub const MAX_IDS_PER_RANGE: usize = 20_000;

// ---------------------------------------------------------------------------
// Keys
// ---------------------------------------------------------------------------

pub open spec fn answer_key_text(head: Text, trunk_name: Text, trunk: Text) -> Text {
    head + " "@ + trunk_name + " "@ + trunk
}

pub open spec fn range_key_text(base: Text, trunk: Text) -> Text {
    base + ".."@ + trunk
}

// ---------------------------------------------------------------------------
// Entries
// ---------------------------------------------------------------------------

/// Something remembered, with the run that last used it: not the run that wrote
/// it, because an answer used every day should outlive one written yesterday and
/// never read.
#[derive(Debug, PartialEq, Eq)]
pub struct Entry<T> {
    pub used: u64,
    pub value: T,
}

impl<T: View> View for Entry<T> {
    type V = Entry<T::V>;

    open spec fn view(&self) -> Entry<T::V> {
        Entry { used: self.used, value: self.value@ }
    }
}

/// The patch ids of a trunk range: each patch with the commit that carries it.
#[derive(Debug, PartialEq, Eq)]
pub struct Ids {
    pub ids: Vec<(String, String)>,
}

impl View for Ids {
    type V = Seq<(Text, Text)>;

    open spec fn view(&self) -> Seq<(Text, Text)> {
        strings::views(self.ids@)
    }
}

fn copy_pair(pair: &(String, String)) -> (out: (String, String))
    ensures
        out@ == pair@,
{
    (pair.0.clone(), pair.1.clone())
}

impl Clone for Ids {
    fn clone(&self) -> (out: Self)
        ensures
            out@ == self@,
    {
        broadcast use strings::group_lists;

        let ghost all = strings::views(self.ids@);
        let mut ids: Vec<(String, String)> = Vec::new();
        for i in 0..self.ids.len()
            invariant
                all == strings::views(self.ids@),
                strings::views(ids@) == all.take(i as int),
        {
            broadcast use strings::group_lists;

            ids.push(copy_pair(&self.ids[i]));
            assert(all.take(i as int).push(all[i as int]) == all.take(i + 1));
        }
        assert(all.take(all.len() as int) =~= all);
        Ids { ids }
    }
}

/// What a list of entries says under each key: the last one of a key counts.
pub open spec fn table<V>(entries: Seq<(Text, Entry<V>)>) -> Map<Text, Entry<V>>
    decreases entries.len(),
{
    if entries.len() == 0 {
        Map::empty()
    } else {
        table(entries.drop_last()).insert(entries.last().0, entries.last().1)
    }
}

/// Whether no key occurs twice.
pub open spec fn keys_differ<V>(entries: Seq<(Text, Entry<V>)>) -> bool {
    forall|i: int, j: int|
        0 <= i < j < entries.len() ==> (#[trigger] entries[i]).0 != (#[trigger] entries[j]).0
}

proof fn lemma_table<V>(entries: Seq<(Text, Entry<V>)>)
    requires
        keys_differ(entries),
    ensures
        table(entries).dom().finite(),
        table(entries).dom().len() == entries.len(),
        forall|i: int|
            0 <= i < entries.len() ==> table(entries).dom().contains((#[trigger] entries[i]).0)
                && table(entries)[entries[i].0] == entries[i].1,
        forall|key: Text|
            #![trigger table(entries).dom().contains(key)]
            table(entries).dom().contains(key) ==> exists|i: int|
                0 <= i < entries.len() && (#[trigger] entries[i]).0 == key,
    decreases entries.len(),
{
    if entries.len() > 0 {
        let before = entries.drop_last();
        lemma_table(before);
        assert forall|i: int| 0 <= i < entries.len() implies table(entries).dom().contains(
            (#[trigger] entries[i]).0,
        ) && table(entries)[entries[i].0] == entries[i].1 by {
            if i < before.len() {
                assert(before[i] == entries[i]);
            }
        }
        assert forall|key: Text|
            #![trigger table(entries).dom().contains(key)]
            table(entries).dom().contains(key) implies exists|i: int|
            0 <= i < entries.len() && (#[trigger] entries[i]).0 == key by {
            if key == entries.last().0 {
                assert(entries[entries.len() - 1].0 == key);
            } else {
                assert(table(before).dom().contains(key));
                let i = choose|i: int| 0 <= i < before.len() && (#[trigger] before[i]).0 == key;
                assert(entries[i].0 == key);
            }
        }
        if table(before).dom().contains(entries.last().0) {
            let i = choose|i: int|
                0 <= i < before.len() && (#[trigger] before[i]).0 == entries.last().0;
            assert(entries[i].0 == entries[entries.len() - 1].0);
        }
    }
}

/// A table of entries, one for each key.
#[derive(Debug, PartialEq, Eq)]
pub struct Shelf<T: View> {
    entries: Vec<(String, Entry<T>)>,
}

impl<T: View> View for Shelf<T> {
    type V = Map<Text, Entry<T::V>>;

    closed spec fn view(&self) -> Map<Text, Entry<T::V>> {
        table(strings::views(self.entries@))
    }
}

impl<T: View> Shelf<T> {
    #[verifier::type_invariant]
    spec fn keys_are_unique(&self) -> bool {
        keys_differ(strings::views(self.entries@))
    }

    pub fn new() -> (out: Shelf<T>)
        ensures
            out@ == Map::<Text, Entry<T::V>>::empty(),
    {
        Shelf { entries: Vec::new() }
    }

    /// The entries as they stand, each key once.
    pub fn entries(&self) -> (out: &Vec<(String, Entry<T>)>)
        ensures
            keys_differ(strings::views(out@)),
            table(strings::views(out@)) == self@,
    {
        proof {
            use_type_invariant(self);
        }
        &self.entries
    }

    fn position(&self, key: &str) -> (out: Option<usize>)
        ensures
            match out {
                Some(i) => i < self.entries@.len() && self.entries@[i as int].0@ == key@,
                None => !self@.dom().contains(key@),
            },
    {
        proof {
            use_type_invariant(self);
            lemma_table(strings::views(self.entries@));
        }
        let ghost all = strings::views(self.entries@);
        for i in 0..self.entries.len()
            invariant
                all == strings::views(self.entries@),
                forall|k: int| 0 <= k < i ==> (#[trigger] all[k]).0 != key@,
        {
            assert(all[i as int] == self.entries@[i as int]@);
            if strings::same(self.entries[i].0.as_str(), key) {
                return Some(i);
            }
        }
        None
    }

    /// What stands under a key.
    pub fn get(&self, key: &str) -> (out: Option<&Entry<T>>)
        ensures
            match out {
                Some(entry) => self@.dom().contains(key@) && self@[key@] == entry@,
                None => !self@.dom().contains(key@),
            },
    {
        match self.position(key) {
            Some(i) => {
                proof {
                    use_type_invariant(self);
                    lemma_table(strings::views(self.entries@));
                    assert(strings::views(self.entries@)[i as int] == self.entries@[i as int]@);
                }
                Some(&self.entries[i].1)
            },
            None => None,
        }
    }

    /// Puts an entry under a key, in place of any other.
    pub fn put(self, key: String, entry: Entry<T>) -> (out: Shelf<T>)
        ensures
            out@ == self@.insert(key@, entry@),
    {
        broadcast use strings::group_lists;

        let ghost before = strings::views(self.entries@);
        proof {
            use_type_invariant(&self);
            lemma_table(before);
        }
        let found = self.position(key.as_str());
        let mut entries = self.entries;
        match found {
            Some(i) => {
                entries.set(i, (key, entry));
                proof {
                    let after = strings::views(entries@);
                    assert(after =~= before.update(i as int, (key@, entry@)));
                    assert(before[i as int].0 == key@);
                    assert(keys_differ(after));
                    lemma_table(after);
                    assert(table(after) =~= table(before).insert(key@, entry@)) by {
                        assert forall|k: Text|
                            table(after).dom().contains(k) <==> table(before).insert(
                                key@,
                                entry@,
                            ).dom().contains(k) by {
                            if table(after).dom().contains(k) {
                                let j = choose|j: int|
                                    0 <= j < after.len() && (#[trigger] after[j]).0 == k;
                                assert(before[j].0 == k);
                            }
                            if table(before).dom().contains(k) {
                                let j = choose|j: int|
                                    0 <= j < before.len() && (#[trigger] before[j]).0 == k;
                                assert(after[j].0 == k);
                            }
                            assert(after[i as int].0 == key@);
                        }
                        assert forall|k: Text| table(after).dom().contains(k) implies table(
                            after,
                        )[k] == table(before).insert(key@, entry@)[k] by {
                            let j = choose|j: int|
                                0 <= j < after.len() && (#[trigger] after[j]).0 == k;
                            if j != i {
                                assert(before[j] == after[j]);
                                assert(before[j].0 != before[i as int].0);
                            }
                        }
                    }
                }
            },
            None => {
                entries.push((key, entry));
                proof {
                    let after = strings::views(entries@);
                    assert(after.drop_last() =~= before);
                    assert forall|i: int, j: int| 0 <= i < j < after.len() implies (
                    #[trigger] after[i]).0 != (#[trigger] after[j]).0 by {
                        if j == before.len() {
                            assert(before[i] == after[i]);
                            assert(table(before).dom().contains(before[i].0));
                        } else {
                            assert(before[i] == after[i]);
                            assert(before[j] == after[j]);
                        }
                    }
                }
            },
        }
        Shelf { entries }
    }

    /// A table out of a list, in which the last entry of a key counts.
    pub fn of(list: Vec<(String, Entry<T>)>) -> (out: Shelf<T>)
        ensures
            out@ == table(strings::views(list@)),
    {
        broadcast use strings::group_lists;

        let mut shelf = Shelf::new();
        let mut list = list;
        let ghost all = strings::views(list@);
        let mut reversed: Vec<(String, Entry<T>)> = Vec::new();
        while list.len() > 0
            invariant
                strings::views(list@) == all.take(list@.len() as int),
                list@.len() <= all.len(),
                strings::views(reversed@) == all.skip(list@.len() as int).reverse(),
            decreases list@.len(),
        {
            broadcast use strings::group_lists;

            let ghost n = list@.len() as int;
            assert(all.take(n)[n - 1] == list@[n - 1]@);
            if let Some(entry) = list.pop() {
                reversed.push(entry);
            }
            assert(strings::views(list@) =~= all.take(n - 1));
            assert(all.skip(n - 1).reverse() =~= all.skip(n).reverse().push(all[n - 1]));
        }
        assert(all.skip(0) =~= all);
        while reversed.len() > 0
            invariant
                reversed@.len() <= all.len(),
                strings::views(reversed@) == all.reverse().take(reversed@.len() as int),
                shelf@ == table(all.take(all.len() - reversed@.len())),
            decreases reversed@.len(),
        {
            broadcast use strings::group_lists;

            let ghost n = reversed@.len() as int;
            let ghost done = all.len() - n;
            assert(all.reverse().take(n)[n - 1] == reversed@[n - 1]@);
            assert(all[done] == reversed@[n - 1]@);
            assert(all.take(done + 1).drop_last() =~= all.take(done));
            if let Some((key, entry)) = reversed.pop() {
                shelf = shelf.put(key, entry);
            }
            assert(strings::views(reversed@) =~= all.reverse().take(n - 1));
        }
        assert(all.take(all.len() as int) =~= all);
        shelf
    }
}

// ---------------------------------------------------------------------------
// Keeping the most recently used
// ---------------------------------------------------------------------------

/// Whether one entry goes before another where not all can be kept: most
/// recently used first, then by key, so two runs with the same contents keep the
/// same entries.
pub open spec fn outranks<V>(entries: Map<Text, Entry<V>>, a: Text, b: Text) -> bool {
    ||| entries[a].used > entries[b].used
    ||| entries[a].used == entries[b].used && strings::precedes(a, b)
}

/// Those that go before the entry of a key.
pub open spec fn ahead_of<V>(entries: Map<Text, Entry<V>>, key: Text) -> Set<Text> {
    entries.dom().filter(|other: Text| outranks(entries, other, key))
}

/// The `max` most recently used entries.
pub open spec fn kept<V>(entries: Map<Text, Entry<V>>, max: nat) -> Map<Text, Entry<V>> {
    entries.restrict(entries.dom().filter(|key: Text| ahead_of(entries, key).len() < max))
}

spec fn ahead_among<V>(
    entries: Seq<(Text, Entry<V>)>,
    all: Map<Text, Entry<V>>,
    key: Text,
) -> Set<Text>
    decreases entries.len(),
{
    if entries.len() == 0 {
        Set::empty()
    } else {
        let before = ahead_among(entries.drop_last(), all, key);
        if outranks(all, entries.last().0, key) {
            before.insert(entries.last().0)
        } else {
            before
        }
    }
}

proof fn lemma_ahead_among<V>(
    entries: Seq<(Text, Entry<V>)>,
    all: Map<Text, Entry<V>>,
    key: Text,
)
    ensures
        ahead_among(entries, all, key).finite(),
        forall|other: Text|
            #![trigger ahead_among(entries, all, key).contains(other)]
            ahead_among(entries, all, key).contains(other) <==> outranks(all, other, key)
                && exists|i: int| 0 <= i < entries.len() && (#[trigger] entries[i]).0 == other,
    decreases entries.len(),
{
    if entries.len() > 0 {
        let before = entries.drop_last();
        lemma_ahead_among(before, all, key);
        assert forall|other: Text|
            #![trigger ahead_among(entries, all, key).contains(other)]
            ahead_among(entries, all, key).contains(other) <==> outranks(all, other, key)
                && exists|i: int| 0 <= i < entries.len() && (#[trigger] entries[i]).0 == other by {
            if ahead_among(before, all, key).contains(other) {
                let i = choose|i: int| 0 <= i < before.len() && (#[trigger] before[i]).0 == other;
                assert(entries[i].0 == other);
            }
            if exists|i: int| 0 <= i < entries.len() && (#[trigger] entries[i]).0 == other {
                let i = choose|i: int|
                    0 <= i < entries.len() && (#[trigger] entries[i]).0 == other;
                if i < before.len() {
                    assert(before[i].0 == other);
                }
            }
            assert(entries[entries.len() - 1].0 == entries.last().0);
        }
    }
}

impl<T: View> Shelf<T> {
    /// How many entries go before the one at a position.
    fn rank(&self, at: usize) -> (count: usize)
        requires
            at < self.entries@.len(),
        ensures
            count == ahead_of(self@, self.entries@[at as int].0@).len(),
            count < self.entries@.len(),
    {
        broadcast use strings::group_lists;

        proof {
            use_type_invariant(self);
        }
        let ghost all = strings::views(self.entries@);
        let ghost entries = table(all);
        let ghost key = self.entries@[at as int].0@;
        proof {
            lemma_table(all);
            assert(all[at as int].0 == key);
        }
        let mut count: usize = 0;
        for i in 0..self.entries.len()
            invariant
                at < self.entries@.len(),
                all == strings::views(self.entries@),
                entries == table(all),
                keys_differ(all),
                key == self.entries@[at as int].0@,
                forall|k: int|
                    0 <= k < all.len() ==> entries.dom().contains((#[trigger] all[k]).0)
                        && entries[all[k].0] == all[k].1,
                count <= i,
                i > at ==> count < i,
                count == ahead_among(all.take(i as int), entries, key).len(),
        {
            broadcast use strings::group_lists;

            assert(all[i as int] == self.entries@[i as int]@);
            assert(all[at as int] == self.entries@[at as int]@);
            assert(all.take(i + 1).drop_last() =~= all.take(i as int));
            let other = &self.entries[i];
            let this = &self.entries[at];
            let before = if other.1.used > this.1.used {
                true
            } else {
                other.1.used == this.1.used && strings::comes_first(
                    other.0.as_str(),
                    this.0.as_str(),
                )
            };
            proof {
                strings::law_precedes_is_a_strict_total_order(key, key, key);
                lemma_ahead_among(all.take(i as int), entries, key);
                if ahead_among(all.take(i as int), entries, key).contains(all[i as int].0) {
                    let k = choose|k: int|
                        0 <= k < all.take(i as int).len() && (#[trigger] all.take(i as int)[k]).0
                            == all[i as int].0;
                    assert(all[k].0 == all[i as int].0);
                }
            }
            if before {
                count = count + 1;
            }
        }
        proof {
            assert(all.take(all.len() as int) =~= all);
            lemma_ahead_among(all, entries, key);
            assert(ahead_among(all, entries, key) =~= ahead_of(entries, key)) by {
                assert forall|other: Text|
                    ahead_among(all, entries, key).contains(other) <==> #[trigger] ahead_of(
                        entries,
                        key,
                    ).contains(other) by {
                    if ahead_among(all, entries, key).contains(other) {
                        let i = choose|i: int|
                            0 <= i < all.len() && (#[trigger] all[i]).0 == other;
                        assert(entries.dom().contains(all[i].0));
                    }
                }
            }
        }
        count
    }

    /// Keeps the `max` most recently used entries.
    pub fn evict(self, max: usize) -> (out: Shelf<T>)
        ensures
            out@ == kept(self@, max as nat),
    {
        broadcast use strings::group_lists;

        let ghost all = strings::views(self.entries@);
        let ghost entries = table(all);
        proof {
            use_type_invariant(&self);
            lemma_table(all);
        }
        let mut stays: Vec<bool> = Vec::new();
        for i in 0..self.entries.len()
            invariant
                all == strings::views(self.entries@),
                entries == table(all),
                entries == self@,
                stays@.len() == i,
                forall|k: int|
                    0 <= k < i ==> #[trigger] stays@[k] == (ahead_of(entries, all[k].0).len()
                        < max),
        {
            assert(all[i as int] == self.entries@[i as int]@);
            let rank = self.rank(i);
            stays.push(rank < max);
        }
        let mut list = self.entries;
        let mut shelf = Shelf::new();
        let ghost keeps = |key: Text| ahead_of(entries, key).len() < max;
        assert(table(all.skip(all.len() as int)) =~= Map::empty());
        assert(shelf@ =~= Map::empty());
        while list.len() > 0
            invariant
                list@.len() <= all.len(),
                strings::views(list@) == all.take(list@.len() as int),
                stays@.len() == all.len(),
                keys_differ(all),
                forall|k: int|
                    0 <= k < all.len() ==> entries.dom().contains((#[trigger] all[k]).0)
                        && entries[all[k].0] == all[k].1,
                forall|k: int|
                    0 <= k < all.len() ==> #[trigger] stays@[k] == (ahead_of(
                        entries,
                        all[k].0,
                    ).len() < max),
                forall|key: Text|
                    #![trigger shelf@.dom().contains(key)]
                    shelf@.dom().contains(key) <==> ahead_of(entries, key).len() < max && exists|
                        k: int,
                    | list@.len() <= k < all.len() && (#[trigger] all[k]).0 == key,
                forall|key: Text|
                    #![trigger shelf@.dom().contains(key)]
                    shelf@.dom().contains(key) ==> shelf@[key] == entries[key],
            decreases list@.len(),
        {
            broadcast use strings::group_lists;

            let ghost n = list@.len() as int;
            let ghost before = shelf@;
            assert(all.take(n)[n - 1] == list@[n - 1]@);
            assert(all[n - 1] == list@[n - 1]@);
            let i = list.len() - 1;
            if let Some((key, entry)) = list.pop() {
                if stays[i] {
                    shelf = shelf.put(key, entry);
                }
            }
            assert(strings::views(list@) =~= all.take(n - 1));
            proof {
                assert forall|key: Text|
                    #![trigger shelf@.dom().contains(key)]
                    shelf@.dom().contains(key) <==> ahead_of(entries, key).len() < max && exists|
                        k: int,
                    | n - 1 <= k < all.len() && (#[trigger] all[k]).0 == key by {
                    if before.dom().contains(key) {
                        let k = choose|k: int|
                            n <= k < all.len() && (#[trigger] all[k]).0 == key;
                        assert(n - 1 <= k < all.len() && all[k].0 == key);
                    }
                    if exists|k: int| n - 1 <= k < all.len() && (#[trigger] all[k]).0 == key {
                        let k = choose|k: int|
                            n - 1 <= k < all.len() && (#[trigger] all[k]).0 == key;
                        if k >= n {
                            assert(n <= k < all.len() && all[k].0 == key);
                        }
                    }
                    assert(all[n - 1].0 == all[n - 1].0);
                }
            }
        }
        proof {
            let expected = kept(entries, max as nat);
            assert forall|key: Text| shelf@.dom().contains(key) <==> expected.dom().contains(
                key,
            ) by {
                if shelf@.dom().contains(key) {
                    let k = choose|k: int| 0 <= k < all.len() && (#[trigger] all[k]).0 == key;
                    assert(entries.dom().contains(all[k].0));
                }
                if expected.dom().contains(key) {
                    let k = choose|k: int| 0 <= k < all.len() && (#[trigger] all[k]).0 == key;
                    assert(all[k].0 == key);
                }
            }
            assert(shelf@ =~= expected);
        }
        shelf
    }
}

// ---------------------------------------------------------------------------
// The cache
// ---------------------------------------------------------------------------

/// What is kept on disk.
#[derive(Debug, PartialEq, Eq)]
pub struct Stored {
    pub version: u32,
    pub runs: u64,
    pub answers: Vec<(String, Entry<Landed>)>,
    pub ranges: Vec<(String, Entry<Ids>)>,
}

/// The memory of one run.
#[derive(Debug, PartialEq, Eq)]
pub struct Cache {
    /// `None` for a cache that touches no disk: it still spares a run its own
    /// repeated work.
    path: Option<String>,
    /// This run's sequence number, stamped on every entry it uses.
    run: u64,
    answers: Shelf<Landed>,
    ranges: Shelf<Ids>,
    dirty: bool,
}

#[verifier::ext_equal]
pub struct CacheView {
    pub path: Option<Text>,
    pub run: u64,
    pub answers: Map<Text, Entry<Landed<Text>>>,
    pub ranges: Map<Text, Entry<Seq<(Text, Text)>>>,
    pub dirty: bool,
}

impl View for Cache {
    type V = CacheView;

    closed spec fn view(&self) -> CacheView {
        CacheView {
            path: strings::view_of(self.path),
            run: self.run,
            answers: self.answers@,
            ranges: self.ranges@,
            dirty: self.dirty,
        }
    }
}

/// What a table remembers under a key.
pub open spec fn recalled<V>(entries: Map<Text, Entry<V>>, key: Text) -> Option<V> {
    if entries.dom().contains(key) {
        Some(entries[key].value)
    } else {
        None
    }
}

/// A table in which an entry has been used by a run.
pub open spec fn touched<V>(
    entries: Map<Text, Entry<V>>,
    key: Text,
    run: u64,
) -> Map<Text, Entry<V>> {
    if entries.dom().contains(key) {
        entries.insert(key, Entry { used: run, value: entries[key].value })
    } else {
        entries
    }
}

/// Whether using an entry changes it.
pub open spec fn moves<V>(entries: Map<Text, Entry<V>>, key: Text, run: u64) -> bool {
    entries.dom().contains(key) && entries[key].used != run
}

impl CacheView {
    pub open spec fn empty(path: Option<Text>) -> CacheView {
        CacheView { path, run: 1, answers: Map::empty(), ranges: Map::empty(), dirty: false }
    }

    pub open spec fn after_answer(self, key: Text) -> CacheView {
        CacheView {
            answers: touched(self.answers, key, self.run),
            dirty: self.dirty || moves(self.answers, key, self.run),
            ..self
        }
    }

    pub open spec fn after_range(self, key: Text) -> CacheView {
        CacheView {
            ranges: touched(self.ranges, key, self.run),
            dirty: self.dirty || moves(self.ranges, key, self.run),
            ..self
        }
    }

    pub open spec fn with_answer(self, key: Text, landed: Landed<Text>) -> CacheView {
        CacheView {
            answers: self.answers.insert(key, Entry { used: self.run, value: landed }),
            dirty: true,
            ..self
        }
    }

    pub open spec fn with_range(self, key: Text, ids: Seq<(Text, Text)>) -> CacheView {
        if ids.len() > MAX_IDS_PER_RANGE {
            self
        } else {
            CacheView {
                ranges: self.ranges.insert(key, Entry { used: self.run, value: ids }),
                dirty: true,
                ..self
            }
        }
    }

    pub open spec fn evicted(self) -> CacheView {
        CacheView {
            answers: kept(self.answers, MAX_ANSWERS as nat),
            ranges: kept(self.ranges, MAX_RANGES as nat),
            ..self
        }
    }
}

/// The state in which a cache starts out from what was stored. What another
/// version stored is as good as nothing.
pub open spec fn started(path: Text, stored: Option<Stored>) -> CacheView {
    match stored {
        Some(stored) => if stored.version == VERSION {
            CacheView {
                path: Some(path),
                run: if stored.runs == u64::MAX {
                    u64::MAX
                } else {
                    (stored.runs + 1) as u64
                },
                answers: table(strings::views(stored.answers@)),
                ranges: table(strings::views(stored.ranges@)),
                dirty: false,
            }
        } else {
            CacheView::empty(Some(path))
        },
        None => CacheView::empty(Some(path)),
    }
}

fn copy_entries<T: View + Clone>(entries: &Vec<(String, Entry<T>)>) -> (out: Vec<
    (String, Entry<T>),
>)
    requires
        forall|a: T, b: T| #[trigger] vstd::pervasive::cloned(a, b) ==> a@ == b@,
    ensures
        strings::views(out@) == strings::views(entries@),
{
    broadcast use strings::group_lists;

    let ghost all = strings::views(entries@);
    let mut out: Vec<(String, Entry<T>)> = Vec::new();
    for i in 0..entries.len()
        invariant
            forall|a: T, b: T| #[trigger] vstd::pervasive::cloned(a, b) ==> a@ == b@,
            all == strings::views(entries@),
            strings::views(out@) == all.take(i as int),
    {
        broadcast use strings::group_lists;

        let entry = &entries[i];
        let value = entry.1.value.clone();
        assert(vstd::pervasive::cloned(entry.1.value, value));
        out.push((entry.0.clone(), Entry { used: entry.1.used, value }));
        assert(all[i as int] == entry@);
        assert(all.take(i as int).push(all[i as int]) == all.take(i + 1));
    }
    assert(all.take(all.len() as int) =~= all);
    out
}

impl Cache {
    /// A cache that remembers within one run and writes nothing.
    pub fn in_memory() -> (out: Cache)
        ensures
            out@ == CacheView::empty(None),
    {
        Cache { path: None, run: 1, answers: Shelf::new(), ranges: Shelf::new(), dirty: false }
    }

    /// The persistent cache, in the plugin's own state directory, with what was
    /// read there.
    pub fn load(environment: &Environment, stored: Option<Stored>) -> (out: Cache)
        ensures
            out@ == started(paths::below(environment@.state(), "plumbing-cache.json"@), stored),
    {
        Cache::at(config::cache_file(environment), stored)
    }

    /// The persistent cache at a path, with what was read there. Anything
    /// unreadable is treated as an empty cache.
    pub fn at(path: String, stored: Option<Stored>) -> (out: Cache)
        ensures
            out@ == started(path@, stored),
    {
        match stored {
            Some(stored) => if stored.version == VERSION {
                return Cache {
                    path: Some(path),
                    run: if stored.runs == u64::MAX {
                        u64::MAX
                    } else {
                        stored.runs + 1
                    },
                    answers: Shelf::of(stored.answers),
                    ranges: Shelf::of(stored.ranges),
                    dirty: false,
                };
            },
            None => {},
        }
        Cache {
            path: Some(path),
            run: 1,
            answers: Shelf::new(),
            ranges: Shelf::new(),
            dirty: false,
        }
    }

    /// The key for one checkout's landing answer. The trunk's *name* is in it as
    /// well as its id, because the answer names the branch it is about.
    pub fn answer_key(head: &str, trunk_name: &str, trunk: &str) -> (out: String)
        ensures
            out@ == answer_key_text(head@, trunk_name@, trunk@),
    {
        strings::cat5(head, " ", trunk_name, " ", trunk)
    }

    /// The key for the patch ids of a trunk range.
    pub fn range_key(base: &str, trunk: &str) -> (out: String)
        ensures
            out@ == range_key_text(base@, trunk@),
    {
        strings::cat3(base, "..", trunk)
    }

    /// The answer under a key. Recording the hit is what keeps an answer read
    /// every day from being evicted by one written yesterday and never used
    /// again.
    pub fn answer(&mut self, key: &str) -> (out: Option<Landed>)
        ensures
            strings::view_of(out) == recalled(old(self)@.answers, key@),
            final(self)@ == old(self)@.after_answer(key@),
    {
        let found = match self.answers.get(key) {
            Some(entry) => Some((entry.used, entry.value.clone())),
            None => None,
        };
        match found {
            Some((used, value)) => {
                self.dirty = self.dirty || used != self.run;
                self.put_answer(key.to_string(), value.clone());
                Some(value)
            },
            None => None,
        }
    }

    fn put_answer(&mut self, key: String, landed: Landed)
        ensures
            final(self)@ == (CacheView {
                answers: old(self)@.answers.insert(
                    key@,
                    Entry { used: old(self)@.run, value: landed@ },
                ),
                ..old(self)@
            }),
    {
        let mut shelf: Shelf<Landed> = Shelf::new();
        std::mem::swap(&mut shelf, &mut self.answers);
        self.answers = shelf.put(key, Entry { used: self.run, value: landed });
    }

    fn put_range(&mut self, key: String, ids: Ids)
        ensures
            final(self)@ == (CacheView {
                ranges: old(self)@.ranges.insert(
                    key@,
                    Entry { used: old(self)@.run, value: ids@ },
                ),
                ..old(self)@
            }),
    {
        let mut shelf: Shelf<Ids> = Shelf::new();
        std::mem::swap(&mut shelf, &mut self.ranges);
        self.ranges = shelf.put(key, Entry { used: self.run, value: ids });
    }

    pub fn remember_answer(&mut self, key: String, value: Landed)
        ensures
            final(self)@ == old(self)@.with_answer(key@, value@),
    {
        self.put_answer(key, value);
        self.dirty = true;
    }

    /// The patch ids under a key.
    pub fn range(&mut self, key: &str) -> (out: Option<Ids>)
        ensures
            strings::view_of(out) == recalled(old(self)@.ranges, key@),
            final(self)@ == old(self)@.after_range(key@),
    {
        let found = match self.ranges.get(key) {
            Some(entry) => Some((entry.used, entry.value.clone())),
            None => None,
        };
        match found {
            Some((used, value)) => {
                self.dirty = self.dirty || used != self.run;
                self.put_range(key.to_string(), value.clone());
                Some(value)
            },
            None => None,
        }
    }

    /// Remembers the patch ids of a trunk range, unless there are too many.
    pub fn remember_range(&mut self, key: String, value: Ids)
        ensures
            final(self)@ == old(self)@.with_range(key@, value@),
    {
        assert(value@.len() == value.ids@.len());
        if value.ids.len() > MAX_IDS_PER_RANGE {
            return ;
        }
        self.put_range(key, value);
        self.dirty = true;
    }

    /// What to write, and where: nothing for a cache that touches no disk or
    /// that has not changed. What is not among the most recently used is dropped
    /// first.
    pub fn save(&mut self) -> (out: Option<(String, Stored)>)
        ensures
            match out {
                None => (old(self)@.path is None || !old(self)@.dirty) && final(self)@ == old(
                    self,
                )@,
                Some((path, stored)) => {
                    &&& old(self)@.dirty
                    &&& old(self)@.path == Some(path@)
                    &&& final(self)@ == old(self)@.evicted()
                    &&& stored.version == VERSION
                    &&& stored.runs == old(self)@.run
                    &&& table(strings::views(stored.answers@)) == old(self)@.evicted().answers
                    &&& table(strings::views(stored.ranges@)) == old(self)@.evicted().ranges
                },
            },
    {
        if !self.dirty {
            return None;
        }
        let path = match &self.path {
            Some(path) => path.clone(),
            None => {
                return None;
            },
        };
        let mut answers: Shelf<Landed> = Shelf::new();
        std::mem::swap(&mut answers, &mut self.answers);
        self.answers = answers.evict(MAX_ANSWERS);
        let mut ranges: Shelf<Ids> = Shelf::new();
        std::mem::swap(&mut ranges, &mut self.ranges);
        self.ranges = ranges.evict(MAX_RANGES);
        let stored = Stored {
            version: VERSION,
            runs: self.run,
            answers: copy_entries(self.answers.entries()),
            ranges: copy_entries(self.ranges.entries()),
        };
        Some((path, stored))
    }

    /// Takes note that what [`Cache::save`] gave has been written.
    pub fn saved(&mut self)
        ensures
            final(self)@ == (CacheView { dirty: false, ..old(self)@ }),
    {
        self.dirty = false;
    }
}

// ---------------------------------------------------------------------------
// Laws
// ---------------------------------------------------------------------------

/// Whether a text has none of the characters that keys are put together with,
/// as an object id has none.
pub open spec fn unbroken(s: Text) -> bool {
    forall|i: int| 0 <= i < s.len() ==> #[trigger] s[i] != ' ' && s[i] != '.'
}

proof fn lemma_same_front(a: Text, b: Text, rest: Text, other: Text)
    requires
        unbroken(a),
        unbroken(b),
        rest.len() > 0 && (rest[0] == ' ' || rest[0] == '.'),
        other.len() > 0 && (other[0] == ' ' || other[0] == '.'),
        a + rest == b + other,
    ensures
        a == b,
        rest == other,
{
    if a.len() < b.len() {
        assert((a + rest)[a.len() as int] == rest[0]);
        assert((b + other)[a.len() as int] == b[a.len() as int]);
    } else if b.len() < a.len() {
        assert((a + rest)[b.len() as int] == a[b.len() as int]);
        assert((b + other)[b.len() as int] == other[0]);
    }
    assert((a + rest).take(a.len() as int) =~= a);
    assert((b + other).take(b.len() as int) =~= b);
    assert((a + rest).skip(a.len() as int) =~= rest);
    assert((b + other).skip(b.len() as int) =~= other);
}

proof fn lemma_same_back(a: Text, b: Text, rest: Text, other: Text)
    requires
        unbroken(a),
        unbroken(b),
        rest.len() > 0 && (rest.last() == ' ' || rest.last() == '.'),
        other.len() > 0 && (other.last() == ' ' || other.last() == '.'),
        rest + a == other + b,
    ensures
        a == b,
        rest == other,
{
    let whole = rest + a;
    if a.len() < b.len() {
        let at = whole.len() - a.len() - 1;
        assert(whole[at] == rest.last());
        assert((other + b)[at] == b[b.len() - a.len() - 1]);
    } else if b.len() < a.len() {
        let at = whole.len() - b.len() - 1;
        assert((other + b)[at] == other.last());
        assert(whole[at] == a[a.len() - b.len() - 1]);
    }
    assert((rest + a).skip(rest.len() as int) =~= a);
    assert((other + b).skip(other.len() as int) =~= b);
    assert((rest + a).take(rest.len() as int) =~= rest);
    assert((other + b).take(other.len() as int) =~= other);
}

/// Anything that could change an answer changes its key: two answers stand under
/// one key only if the commits and the trunk are the same.
pub proof fn law_another_commit_is_another_key(
    head: Text,
    name: Text,
    trunk: Text,
    other_head: Text,
    other_name: Text,
    other_trunk: Text,
)
    requires
        unbroken(head),
        unbroken(trunk),
        unbroken(other_head),
        unbroken(other_trunk),
    ensures
        answer_key_text(head, name, trunk) == answer_key_text(other_head, other_name, other_trunk)
            ==> head == other_head && name == other_name && trunk == other_trunk,
        range_key_text(head, trunk) == range_key_text(other_head, other_trunk) ==> head
            == other_head && trunk == other_trunk,
{
    reveal_strlit(" ");
    reveal_strlit("..");
    if answer_key_text(head, name, trunk) == answer_key_text(other_head, other_name, other_trunk) {
        let rest = " "@ + name + " "@;
        let other = " "@ + other_name + " "@;
        assert(answer_key_text(head, name, trunk) =~= head + (rest + trunk));
        assert(answer_key_text(other_head, other_name, other_trunk) =~= other_head + (other
            + other_trunk));
        lemma_same_front(head, other_head, rest + trunk, other + other_trunk);
        lemma_same_back(trunk, other_trunk, rest, other);
        assert(rest.subrange(1, rest.len() - 1) =~= name);
        assert(other.subrange(1, other.len() - 1) =~= other_name);
    }
    if range_key_text(head, trunk) == range_key_text(other_head, other_trunk) {
        assert(range_key_text(head, trunk) =~= head + (".."@ + trunk));
        assert(range_key_text(other_head, other_trunk) =~= other_head + (".."@ + other_trunk));
        lemma_same_front(head, other_head, ".."@ + trunk, ".."@ + other_trunk);
        lemma_same_back(trunk, other_trunk, ".."@, ".."@);
    }
}

/// A hit gives back what was remembered under the key, and remembering it
/// changes nothing that stands under another.
pub proof fn law_an_answer_is_given_back(
    cache: CacheView,
    key: Text,
    landed: Landed<Text>,
    other: Text,
)
    ensures
        recalled(cache.with_answer(key, landed).answers, key) == Some(landed),
        other != key ==> recalled(cache.with_answer(key, landed).answers, other) == recalled(
            cache.answers,
            other,
        ),
        cache.with_answer(key, landed).ranges == cache.ranges,
{
}

/// The same for a trunk range that is short enough to be kept.
pub proof fn law_a_range_is_given_back(
    cache: CacheView,
    key: Text,
    ids: Seq<(Text, Text)>,
    other: Text,
)
    requires
        ids.len() <= MAX_IDS_PER_RANGE,
    ensures
        recalled(cache.with_range(key, ids).ranges, key) == Some(ids),
        other != key ==> recalled(cache.with_range(key, ids).ranges, other) == recalled(
            cache.ranges,
            other,
        ),
        cache.with_range(key, ids).answers == cache.answers,
{
}

/// Looking something up changes no answer.
pub proof fn law_looking_up_changes_no_answer(cache: CacheView, key: Text, other: Text)
    ensures
        recalled(cache.after_answer(key).answers, other) == recalled(cache.answers, other),
        recalled(cache.after_range(key).ranges, other) == recalled(cache.ranges, other),
{
}

proof fn lemma_outranks<V>(entries: Map<Text, Entry<V>>, a: Text, b: Text, c: Text)
    ensures
        !outranks(entries, a, a),
        outranks(entries, a, b) && outranks(entries, b, c) ==> outranks(entries, a, c),
        a != b ==> outranks(entries, a, b) || outranks(entries, b, a),
{
    strings::law_precedes_is_a_strict_total_order(a, b, c);
    strings::law_precedes_is_a_strict_total_order(a, a, a);
    strings::law_precedes_is_a_strict_total_order(b, a, c);
}

/// What is dropped is the least recently used: no entry is kept while one that
/// goes before it is dropped.
pub proof fn law_eviction_drops_the_least_recently_used<V>(
    entries: Map<Text, Entry<V>>,
    max: nat,
    a: Text,
    b: Text,
)
    requires
        entries.dom().finite(),
        entries.dom().contains(a),
        outranks(entries, a, b),
        kept(entries, max).dom().contains(b),
    ensures
        kept(entries, max).dom().contains(a),
{
    assert(ahead_of(entries, a).subset_of(ahead_of(entries, b))) by {
        assert forall|other: Text| ahead_of(entries, a).contains(other) implies ahead_of(
            entries,
            b,
        ).contains(other) by {
            lemma_outranks(entries, other, a, b);
        }
    }
    vstd::set_lib::lemma_len_subset(ahead_of(entries, a), ahead_of(entries, b));
}

/// Some entry of a finite, non-empty selection goes behind all others of it.
proof fn lemma_last_exists<V>(entries: Map<Text, Entry<V>>, keys: Set<Text>) -> (last: Text)
    requires
        keys.finite(),
        keys.len() > 0,
    ensures
        keys.contains(last),
        forall|other: Text| #[trigger]
            keys.contains(other) && other != last ==> outranks(entries, other, last),
    decreases keys.len(),
{
    let one = keys.choose();
    assert(keys.contains(one));
    let rest = keys.remove(one);
    if rest.len() == 0 {
        assert forall|other: Text| #[trigger] keys.contains(other) && other != one implies outranks(
            entries,
            other,
            one,
        ) by {
            assert(rest.contains(other));
        }
        one
    } else {
        let last = lemma_last_exists(entries, rest);
        lemma_outranks(entries, one, last, last);
        if outranks(entries, one, last) {
            assert forall|other: Text| #[trigger]
                keys.contains(other) && other != last implies outranks(entries, other, last) by {
                if other != one {
                    assert(rest.contains(other));
                }
            }
            last
        } else {
            assert forall|other: Text| #[trigger]
                keys.contains(other) && other != one implies outranks(entries, other, one) by {
                if other != last {
                    assert(rest.contains(other));
                    lemma_outranks(entries, other, last, one);
                }
            }
            one
        }
    }
}

proof fn lemma_first_exists<V>(entries: Map<Text, Entry<V>>, keys: Set<Text>) -> (first: Text)
    requires
        keys.finite(),
        keys.len() > 0,
    ensures
        keys.contains(first),
        forall|other: Text| #[trigger]
            keys.contains(other) && other != first ==> !outranks(entries, other, first),
    decreases keys.len(),
{
    let one = keys.choose();
    assert(keys.contains(one));
    let rest = keys.remove(one);
    if rest.len() == 0 {
        assert forall|other: Text| #[trigger] keys.contains(other) && other
            != one implies !outranks(entries, other, one) by {
            assert(rest.contains(other));
        }
        one
    } else {
        let first = lemma_first_exists(entries, rest);
        if outranks(entries, one, first) {
            assert forall|other: Text| #[trigger] keys.contains(other) && other
                != one implies !outranks(entries, other, one) by {
                assert(rest.contains(other));
                lemma_outranks(entries, other, one, first);
                lemma_outranks(entries, first, one, first);
            }
            one
        } else {
            assert forall|other: Text| #[trigger] keys.contains(other) && other
                != first implies !outranks(entries, other, first) by {
                if other != one {
                    assert(rest.contains(other));
                }
            }
            first
        }
    }
}

/// As many entries are kept as there are, up to `max`; and where there are no
/// more than that, all of them are.
pub proof fn law_eviction_keeps_as_many_as_asked<V>(entries: Map<Text, Entry<V>>, max: nat)
    requires
        entries.dom().finite(),
    ensures
        kept(entries, max).dom().finite(),
        kept(entries, max).dom().len() == if entries.dom().len() < max {
            entries.dom().len()
        } else {
            max
        },
        entries.dom().len() <= max ==> kept(entries, max) == entries,
{
    let keys = kept(entries, max).dom();
    assert(keys =~= entries.dom().filter(|key: Text| ahead_of(entries, key).len() < max));
    entries.dom().lemma_len_filter(|key: Text| ahead_of(entries, key).len() < max);
    if keys.len() > 0 {
        let last = lemma_last_exists(entries, keys);
        let others = keys.remove(last);
        assert(others.subset_of(ahead_of(entries, last))) by {
            assert forall|other: Text| others.contains(other) implies ahead_of(
                entries,
                last,
            ).contains(other) by {
                assert(keys.contains(other));
            }
        }
        vstd::set_lib::lemma_len_subset(others, ahead_of(entries, last));
    }
    let dropped = entries.dom().difference(keys);
    if dropped.len() > 0 && keys.len() < max {
        // Everything ahead of the first that is dropped is kept, so it would
        // have been kept too.
        let first = lemma_first_exists(entries, dropped);
        assert(ahead_of(entries, first).subset_of(keys)) by {
            assert forall|other: Text| ahead_of(entries, first).contains(
                other,
            ) implies keys.contains(other) by {
                lemma_outranks(entries, first, first, first);
                if !keys.contains(other) {
                    assert(dropped.contains(other));
                }
            }
        }
        vstd::set_lib::lemma_len_subset(ahead_of(entries, first), keys);
        assert(keys.contains(first));
    }
    vstd::set_lib::lemma_len_subset(keys, entries.dom());
    if dropped.len() == 0 {
        assert(keys =~= entries.dom()) by {
            assert forall|key: Text| entries.dom().contains(key) implies keys.contains(key) by {
                if !keys.contains(key) {
                    assert(dropped.contains(key));
                }
            }
        }
        assert(kept(entries, max) =~= entries);
    } else {
        assert(keys.len() == max);
        let one = dropped.choose();
        assert(dropped.contains(one));
        assert(keys.insert(one).subset_of(entries.dom()));
        vstd::set_lib::lemma_len_subset(keys.insert(one), entries.dom());
    }
}

/// A table holds the entries of a list under their keys, the last one for each.
pub proof fn law_a_table_holds_the_last_entry<V>(
    entries: Seq<(Text, Entry<V>)>,
    key: Text,
    entry: Entry<V>,
    other: Text,
)
    ensures
        recalled(table(entries.push((key, entry))), key) == Some(entry.value),
        table(entries.push((key, entry)))[key].used == entry.used,
        other != key ==> recalled(table(entries.push((key, entry))), other) == recalled(
            table(entries),
            other,
        ),
        recalled(table(Seq::<(Text, Entry<V>)>::empty()), key) is None,
{
    assert(entries.push((key, entry)).drop_last() =~= entries);
}

/// A cache goes on from what was stored by the same version, one run later;
/// anything else starts over.
pub proof fn law_a_cache_goes_on_from_the_run_before(path: Text, stored: Stored)
    ensures
        ({
            let next = started(path, Some(stored));
            &&& stored.version != VERSION ==> next == started(path, None)
            &&& stored.version == VERSION && stored.runs < u64::MAX ==> next.run == stored.runs + 1
            &&& stored.version == VERSION ==> next.answers == table(strings::views(stored.answers@))
                && next.ranges == table(strings::views(stored.ranges@))
            &&& started(path, None).answers == Map::<Text, Entry<Landed<Text>>>::empty()
            &&& started(path, None).run == 1
            &&& next.path == Some(path)
            &&& !next.dirty
        }),
{
}

/// What is looked up counts as used in this run, and so does what is stored; the
/// entries that were not touched stay as they are, and the cache is to be written
/// wherever that changed anything.
pub proof fn law_what_is_used_is_fresh(
    cache: CacheView,
    key: Text,
    other: Text,
    landed: Landed<Text>,
    ids: Seq<(Text, Text)>,
)
    ensures
        ({
            let after = cache.after_answer(key);
            &&& cache.answers.dom().contains(key) ==> after.answers[key].used == cache.run
            &&& other != key && cache.answers.dom().contains(other) ==> after.answers[other]
                == cache.answers[other]
            &&& after.answers.dom() == cache.answers.dom()
            &&& after.answers != cache.answers || cache.dirty ==> after.dirty
            &&& after.run == cache.run && after.ranges == cache.ranges && after.path == cache.path
        }),
        ({
            let after = cache.after_range(key);
            &&& cache.ranges.dom().contains(key) ==> after.ranges[key].used == cache.run
            &&& other != key && cache.ranges.dom().contains(other) ==> after.ranges[other]
                == cache.ranges[other]
            &&& after.ranges.dom() == cache.ranges.dom()
            &&& after.ranges != cache.ranges || cache.dirty ==> after.dirty
            &&& after.run == cache.run && after.answers == cache.answers && after.path == cache.path
        }),
        cache.with_answer(key, landed).answers[key].used == cache.run,
        cache.with_answer(key, landed).dirty,
        ids.len() <= MAX_IDS_PER_RANGE ==> cache.with_range(key, ids).ranges[key].used == cache.run
            && cache.with_range(key, ids).dirty,
        ids.len() > MAX_IDS_PER_RANGE ==> cache.with_range(key, ids) == cache,
{
    if cache.answers.dom().contains(key) && cache.answers[key].used == cache.run {
        assert(cache.after_answer(key).answers =~= cache.answers);
    }
    if cache.ranges.dom().contains(key) && cache.ranges[key].used == cache.run {
        assert(cache.after_range(key).ranges =~= cache.ranges);
    }
    assert(cache.after_answer(key).answers.dom() =~= cache.answers.dom());
    assert(cache.after_range(key).ranges.dom() =~= cache.ranges.dom());
}

/// What outlives an eviction is what it was, and no run is older than what it
/// drops.
pub proof fn law_eviction_changes_nothing_it_keeps<V>(
    entries: Map<Text, Entry<V>>,
    max: nat,
    a: Text,
    b: Text,
)
    requires
        entries.dom().finite(),
        entries.dom().contains(a),
        kept(entries, max).dom().contains(b),
        !kept(entries, max).dom().contains(a),
    ensures
        entries.dom().contains(b),
        kept(entries, max)[b] == entries[b],
        entries[b].used >= entries[a].used,
{
    if entries[a].used > entries[b].used {
        law_eviction_drops_the_least_recently_used(entries, max, a, b);
    }
}

} // verus!
