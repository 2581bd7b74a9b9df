//! A key-value store whose writes carry an ordinal.
//!
//! The store keeps every write in the order it was issued. A read at an
//! ordinal sees the most recent write of the key whose ordinal is not greater
//! than the one asked for; `get_last` sees the most recent write of the key.
//! Reading a key that was never written gives `None`.
use crate::decimal::{lemma_same_value_trans, lemma_sum_congruent, plus, same_value, sum, Decimal};
use crate::text::copy_texts;
use vstd::prelude::*;

verus! {

pub struct Write<V> {
    pub ordinal: u64,
    pub key: String,
    pub value: V,
}

/// The value of the most recent write of `key` in `log`.
pub open spec fn lookup_last<V>(log: Seq<Write<V>>, key: Seq<char>) -> Option<V>
    decreases log.len(),
{
    if log.len() == 0 {
        None
    } else if log.last().key@ == key {
        Some(log.last().value)
    } else {
        lookup_last(log.drop_last(), key)
    }
}

/// The position of the write of `key` in `log` with the greatest ordinal
/// that is at most `ordinal`; of several such, the latest written.
pub open spec fn best_at<V>(log: Seq<Write<V>>, ordinal: int, key: Seq<char>) -> Option<int>
    decreases log.len(),
{
    if log.len() == 0 {
        None
    } else {
        let rest = best_at(log.drop_last(), ordinal, key);
        let w = log.last();
        if w.key@ == key && w.ordinal <= ordinal && (match rest {
            None => true,
            Some(j) => log[j].ordinal <= w.ordinal,
        }) {
            Some(log.len() - 1)
        } else {
            rest
        }
    }
}

/// The value of the write of `key` with the greatest ordinal at most
/// `ordinal` (the latest written of several such).
pub open spec fn lookup_at<V>(log: Seq<Write<V>>, ordinal: int, key: Seq<char>) -> Option<V> {
    match best_at(log, ordinal, key) {
        Some(j) => Some(log[j].value),
        None => None,
    }
}

/// The write `best_at` picks is a write of `key` at most at `ordinal`, and
/// no write of `key` at most at `ordinal` has a greater ordinal.
pub proof fn lemma_best_at<V>(log: Seq<Write<V>>, ordinal: int, key: Seq<char>)
    ensures
        best_at(log, ordinal, key) matches Some(j) ==> 0 <= j < log.len() && log[j].key@ == key
            && log[j].ordinal <= ordinal && (forall|i: int|
            0 <= i < log.len() && (#[trigger] log[i]).key@ == key && log[i].ordinal <= ordinal
                ==> log[i].ordinal <= log[j].ordinal),
        best_at(log, ordinal, key) is None ==> forall|i: int|
            0 <= i < log.len() && (#[trigger] log[i]).key@ == key ==> log[i].ordinal > ordinal,
    decreases log.len(),
{
    if log.len() > 0 {
        let p = log.drop_last();
        let n = log.len() - 1;
        lemma_best_at(p, ordinal, key);
        let w = log[n];
        assert(log.last() == w);
        let rest = best_at(p, ordinal, key);
        match best_at(log, ordinal, key) {
            Some(j) => {
                assert forall|i: int|
                    0 <= i < log.len() && (#[trigger] log[i]).key@ == key && log[i].ordinal <= ordinal
                        implies log[i].ordinal <= log[j].ordinal by {
                    if i < n {
                        assert(log[i] == p[i]);
                        if let Some(jr) = rest {
                            assert(log[jr] == p[jr]);
                        }
                    }
                }
                if j < n {
                    assert(log[j] == p[j]);
                }
            },
            None => {
                assert forall|i: int| 0 <= i < log.len() && (#[trigger] log[i]).key@ == key
                    implies log[i].ordinal > ordinal by {
                    if i < n {
                        assert(log[i] == p[i]);
                    }
                }
            },
        }
    }
}

/// The writes of `log` with each value replaced by its view.
pub open spec fn viewed<V: View>(log: Seq<Write<V>>) -> Seq<(u64, Seq<char>, V::V)> {
    log.map_values(|w: Write<V>| (w.ordinal, w.key@, w.value@))
}

pub proof fn lemma_viewed_push<V: View>(log: Seq<Write<V>>, w: Write<V>)
    ensures
        viewed(log.push(w)) == viewed(log).push((w.ordinal, w.key@, w.value@)),
{
    assert(viewed(log.push(w)) =~= viewed(log).push((w.ordinal, w.key@, w.value@)));
}

/// The number held under `key`, zero where the key was never written.
pub open spec fn number_last(log: Seq<Write<Decimal>>, key: Seq<char>) -> (int, int) {
    match lookup_last(log, key) {
        Some(d) => d@,
        None => (0, 0),
    }
}

/// The list held under `key`, empty where the key was never written.
pub open spec fn list_last(log: Seq<Write<Vec<String>>>, key: Seq<char>) -> Seq<String> {
    match lookup_last(log, key) {
        Some(l) => l@,
        None => Seq::empty(),
    }
}

pub struct VersionedStore<V> {
    writes: Vec<Write<V>>,
}

impl<V> View for VersionedStore<V> {
    type V = Seq<Write<V>>;

    closed spec fn view(&self) -> Seq<Write<V>> {
        self.writes@
    }
}

impl<V> VersionedStore<V> {
    pub fn new() -> (r: Self)
        ensures
            r@ == Seq::<Write<V>>::empty(),
    {
        VersionedStore { writes: Vec::new() }
    }

    /// Records `value` under `key` at `ordinal`.
    pub fn set(&mut self, ordinal: u64, key: String, value: V)
        ensures
            final(self)@ == old(self)@.push(Write { ordinal, key, value }),
    {
        self.writes.push(Write { ordinal, key, value });
    }

    /// The value of the most recent write of `key`.
    pub fn get_last(&self, key: &String) -> (r: Option<&V>)
        ensures
            r is Some <==> lookup_last(self@, key@) is Some,
            r matches Some(v) ==> lookup_last(self@, key@) == Some(*v),
    {
        let mut i = self.writes.len();
        proof {
            assert(self@.take(i as int) =~= self@);
        }
        while i > 0
            invariant
                i <= self.writes@.len(),
                lookup_last(self@, key@) == lookup_last(self@.take(i as int), key@),
            decreases i,
        {
            let w = &self.writes[i - 1];
            proof {
                assert(self@.take(i as int).drop_last() =~= self@.take(i - 1));
                assert(self@.take(i as int).last() == self@[i - 1]);
            }
            if w.key == *key {
                return Some(&w.value);
            }
            i = i - 1;
        }
        proof {
            assert(self@.take(0).len() == 0);
        }
        None
    }

    /// The value of the most recent write of `key` whose ordinal is at most `ordinal`.
    pub fn get_at(&self, ordinal: u64, key: &String) -> (r: Option<&V>)
        ensures
            r is Some <==> lookup_at(self@, ordinal as int, key@) is Some,
            r matches Some(v) ==> lookup_at(self@, ordinal as int, key@) == Some(*v),
    {
        let n = self.writes.len();
        let mut best: Option<usize> = None;
        let mut i: usize = 0;
        while i < n
            invariant
                n == self@.len(),
                i <= n,
                best_at(self@.take(i as int), ordinal as int, key@) == (match best {
                    Some(j) => Some(j as int),
                    None => None,
                }),
                best matches Some(j) ==> j < i,
            decreases n - i,
        {
            let w = &self.writes[i];
            proof {
                assert(self@.take(i + 1).drop_last() =~= self@.take(i as int));
                assert(self@.take(i + 1).last() == self@[i as int]);
                if let Some(j) = best {
                    assert(self@.take(i + 1)[j as int] == self@[j as int]);
                }
            }
            if w.ordinal <= ordinal && w.key == *key {
                let better = match best {
                    None => true,
                    Some(j) => self.writes[j].ordinal <= w.ordinal,
                };
                if better {
                    best = Some(i);
                }
            }
            i = i + 1;
        }
        proof {
            assert(self@.take(n as int) =~= self@);
        }
        match best {
            Some(j) => Some(&self.writes[j].value),
            None => None,
        }
    }
}

impl VersionedStore<Decimal> {
    pub open spec fn numbers_wf(&self) -> bool {
        forall|i: int| 0 <= i < self@.len() ==> (#[trigger] self@[i]).value.wf()
    }

    /// Adds `delta` to the number held under `key` (zero where there is none).
    pub fn add(&mut self, ordinal: u64, key: String, delta: &Decimal)
        requires
            old(self).numbers_wf(),
            delta.wf(),
        ensures
            final(self).numbers_wf(),
            final(self)@.len() == old(self)@.len() + 1,
            final(self)@.drop_last() == old(self)@,
            final(self)@.last().ordinal == ordinal,
            final(self)@.last().key == key,
            same_value(final(self)@.last().value@, sum(number_last(old(self)@, key@), delta@)),
    {
        let total = match self.get_last(&key) {
            Some(prev) => {
                proof {
                    lemma_lookup_last_in_log(self@, key@);
                }
                plus(prev, delta)
            },
            None => plus(&Decimal::zero(), delta),
        };
        let ghost before = self@;
        self.set(ordinal, key, total);
        proof {
            assert(self@.drop_last() =~= before);
            assert forall|i: int| 0 <= i < self@.len() implies (#[trigger] self@[i]).value.wf() by {
                if i < before.len() {
                    assert(self@[i] == before[i]);
                }
            }
        }
    }
}

impl VersionedStore<Vec<String>> {
    /// Appends `item` to the list held under `key` (empty where there is none).
    pub fn append(&mut self, ordinal: u64, key: String, item: String)
        ensures
            final(self)@.len() == old(self)@.len() + 1,
            final(self)@.drop_last() == old(self)@,
            final(self)@.last().ordinal == ordinal,
            final(self)@.last().key == key,
            final(self)@.last().value@ == list_last(old(self)@, key@).push(item),
    {
        let mut list: Vec<String> = match self.get_last(&key) {
            Some(prev) => copy_texts(prev),
            None => Vec::new(),
        };
        list.push(item);
        let ghost before = self@;
        self.set(ordinal, key, list);
        proof {
            assert(self@.drop_last() =~= before);
        }
    }
}

/// A value found by `lookup_last` is the value of a write in the log.
pub proof fn lemma_lookup_last_in_log<V>(log: Seq<Write<V>>, key: Seq<char>)
    requires
        lookup_last(log, key) is Some,
    ensures
        exists|i: int| 0 <= i < log.len() && lookup_last(log, key) == Some(#[trigger] log[i].value),
    decreases log.len(),
{
    if log.last().key@ != key {
        lemma_lookup_last_in_log(log.drop_last(), key);
        let i = choose|i: int| 0 <= i < log.drop_last().len() && lookup_last(log.drop_last(), key) == Some(#[trigger] log.drop_last()[i].value);
        assert(log[i] == log.drop_last()[i]);
    } else {
        assert(log[log.len() - 1] == log.last());
    }
}

/// A value found by `lookup_at` is the value of a write in the log.
pub proof fn lemma_lookup_at_in_log<V>(log: Seq<Write<V>>, ordinal: int, key: Seq<char>)
    requires
        lookup_at(log, ordinal, key) is Some,
    ensures
        exists|i: int| 0 <= i < log.len() && lookup_at(log, ordinal, key) == Some(#[trigger] log[i].value),
{
    lemma_best_at(log, ordinal, key);
    let j = best_at(log, ordinal, key)->Some_0;
    assert(lookup_at(log, ordinal, key) == Some(log[j].value));
}

/// Every number read from a store of well-formed numbers is well formed.
pub proof fn lemma_numbers_found_wf(store: &VersionedStore<Decimal>, ordinal: int, key: Seq<char>)
    requires
        store.numbers_wf(),
    ensures
        lookup_last(store@, key) matches Some(d) ==> d.wf(),
        lookup_at(store@, ordinal, key) matches Some(d) ==> d.wf(),
{
    if lookup_last(store@, key) is Some {
        lemma_lookup_last_in_log(store@, key);
    }
    if lookup_at(store@, ordinal, key) is Some {
        lemma_lookup_at_in_log(store@, ordinal, key);
    }
}

/// `new` is `old` followed by one write per addition of `adds`, in order:
/// each at the addition's ordinal and key, holding the number held under that
/// key before it plus the addition's amount.
pub open spec fn additions_applied(
    old: Seq<Write<Decimal>>,
    new: Seq<Write<Decimal>>,
    adds: Seq<(u64, Seq<char>, (int, int))>,
) -> bool {
    &&& new.len() == old.len() + adds.len()
    &&& new.take(old.len() as int) == old
    &&& forall|k: int|
        0 <= k < adds.len() ==> {
            let w = #[trigger] new[old.len() + k];
            &&& w.ordinal == adds[k].0
            &&& w.key@ == adds[k].1
            &&& same_value(
                w.value@,
                sum(number_last(new.take(old.len() + k), adds[k].1), adds[k].2),
            )
        }
}

/// The number `base` plus the amounts of the additions of `adds` to `key`, in order.
pub open spec fn total_for(base: (int, int), adds: Seq<(u64, Seq<char>, (int, int))>, key: Seq<char>) -> (
    int,
    int,
)
    decreases adds.len(),
{
    if adds.len() == 0 {
        base
    } else if adds.last().1 == key {
        sum(total_for(base, adds.drop_last(), key), adds.last().2)
    } else {
        total_for(base, adds.drop_last(), key)
    }
}

pub proof fn lemma_additions_extend(
    old: Seq<Write<Decimal>>,
    mid: Seq<Write<Decimal>>,
    new: Seq<Write<Decimal>>,
    adds: Seq<(u64, Seq<char>, (int, int))>,
    a: (u64, Seq<char>, (int, int)),
)
    requires
        additions_applied(old, mid, adds),
        new.len() == mid.len() + 1,
        new.drop_last() == mid,
        new.last().ordinal == a.0,
        new.last().key@ == a.1,
        same_value(new.last().value@, sum(number_last(mid, a.1), a.2)),
    ensures
        additions_applied(old, new, adds.push(a)),
{
    let adds2 = adds.push(a);
    assert(new.take(old.len() as int) =~= mid.take(old.len() as int));
    assert forall|k: int| 0 <= k < adds2.len() implies {
        let w = #[trigger] new[old.len() + k];
        &&& w.ordinal == adds2[k].0
        &&& w.key@ == adds2[k].1
        &&& same_value(w.value@, sum(number_last(new.take(old.len() + k), adds2[k].1), adds2[k].2))
    } by {
        if k < adds.len() {
            assert(new[old.len() + k] == mid[old.len() + k]);
            assert(new.take(old.len() + k) =~= mid.take(old.len() + k));
            assert(adds2[k] == adds[k]);
        } else {
            assert(new.take(old.len() + k) =~= mid);
            assert(new[old.len() + k] == new.last());
        }
    }
}

/// After additions, the number under a key is the number before plus the
/// amounts added to that key, in order.
pub proof fn lemma_additions_total(
    old: Seq<Write<Decimal>>,
    new: Seq<Write<Decimal>>,
    adds: Seq<(u64, Seq<char>, (int, int))>,
    key: Seq<char>,
)
    requires
        additions_applied(old, new, adds),
    ensures
        same_value(number_last(new, key), total_for(number_last(old, key), adds, key)),
    decreases adds.len(),
{
    if adds.len() == 0 {
        assert(new =~= old) by {
            assert(new.take(old.len() as int) =~= new);
        }
    } else {
        let n = adds.len() - 1;
        let mid = new.drop_last();
        let adds1 = adds.drop_last();
        assert(additions_applied(old, mid, adds1)) by {
            assert(mid.take(old.len() as int) =~= new.take(old.len() as int));
            assert forall|k: int| 0 <= k < adds1.len() implies {
                let w = #[trigger] mid[old.len() + k];
                &&& w.ordinal == adds1[k].0
                &&& w.key@ == adds1[k].1
                &&& same_value(w.value@, sum(number_last(mid.take(old.len() + k), adds1[k].1), adds1[k].2))
            } by {
                assert(mid[old.len() + k] == new[old.len() + k]);
                assert(mid.take(old.len() + k) =~= new.take(old.len() + k));
            }
        }
        lemma_additions_total(old, mid, adds1, key);
        let w = new[old.len() + n];
        assert(w == new.last());
        assert(new.take(old.len() + n) =~= mid);
        if adds.last().1 == key {
            assert(number_last(new, key) == w.value@);
            lemma_sum_congruent(
                number_last(mid, key),
                total_for(number_last(old, key), adds1, key),
                adds.last().2,
                adds.last().2,
            );
            lemma_same_value_trans(
                w.value@,
                sum(number_last(mid, key), adds.last().2),
                sum(total_for(number_last(old, key), adds1, key), adds.last().2),
            );
        } else {
            assert(number_last(new, key) == number_last(mid, key));
        }
    }
}

/// The writes of `log` are, in order, at the ordinals and keys of
/// `expected` and hold its numbers.
pub open spec fn numbers_match(log: Seq<Write<Decimal>>, expected: Seq<(u64, Seq<char>, (int, int))>) -> bool {
    &&& log.len() == expected.len()
    &&& forall|k: int|
        0 <= k < log.len() ==> {
            &&& (#[trigger] log[k]).ordinal == expected[k].0
            &&& log[k].key@ == expected[k].1
            &&& same_value(log[k].value@, expected[k].2)
        }
}

/// The texts in the list held under `key`, empty where there is none.
pub open spec fn texts_last(log: Seq<Write<Vec<String>>>, key: Seq<char>) -> Seq<Seq<char>> {
    list_last(log, key).map_values(|s: String| s@)
}

/// `new` is `old` followed by one write per item of `items`, in order: each
/// at the item's ordinal and key, holding the list held under that key
/// before it with the item's text appended.
pub open spec fn appends_applied(
    old: Seq<Write<Vec<String>>>,
    new: Seq<Write<Vec<String>>>,
    items: Seq<(u64, Seq<char>, Seq<char>)>,
) -> bool {
    &&& new.len() == old.len() + items.len()
    &&& new.take(old.len() as int) == old
    &&& forall|k: int|
        0 <= k < items.len() ==> {
            let w = #[trigger] new[old.len() + k];
            &&& w.ordinal == items[k].0
            &&& w.key@ == items[k].1
            &&& w.value@.map_values(|s: String| s@) == texts_last(
                new.take(old.len() + k),
                items[k].1,
            ).push(items[k].2)
        }
}

pub proof fn lemma_appends_extend(
    old: Seq<Write<Vec<String>>>,
    mid: Seq<Write<Vec<String>>>,
    new: Seq<Write<Vec<String>>>,
    items: Seq<(u64, Seq<char>, Seq<char>)>,
    item: String,
    ordinal: u64,
    key: Seq<char>,
)
    requires
        appends_applied(old, mid, items),
        new.len() == mid.len() + 1,
        new.drop_last() == mid,
        new.last().ordinal == ordinal,
        new.last().key@ == key,
        new.last().value@ == list_last(mid, key).push(item),
    ensures
        appends_applied(old, new, items.push((ordinal, key, item@))),
{
    let items2 = items.push((ordinal, key, item@));
    assert(new.take(old.len() as int) =~= mid.take(old.len() as int));
    assert forall|k: int| 0 <= k < items2.len() implies {
        let w = #[trigger] new[old.len() + k];
        &&& w.ordinal == items2[k].0
        &&& w.key@ == items2[k].1
        &&& w.value@.map_values(|s: String| s@) == texts_last(new.take(old.len() + k), items2[k].1).push(
            items2[k].2,
        )
    } by {
        if k < items.len() {
            assert(new[old.len() + k] == mid[old.len() + k]);
            assert(new.take(old.len() + k) =~= mid.take(old.len() + k));
            assert(items2[k] == items[k]);
        } else {
            assert(new.take(old.len() + k) =~= mid);
            assert(new[old.len() + k] == new.last());
            assert(new.last().value@.map_values(|s: String| s@) =~= texts_last(mid, key).push(item@));
        }
    }
}

/// Writes of one key at two ordinals `o1 < o2`, the only writes of that
/// key: a read at an ordinal in `[o1, o2)` sees the first value, and a read
/// at `o2` or later the second.
pub proof fn lemma_reads_follow_ordinals<V>(
    log: Seq<Write<V>>,
    key: String,
    o1: u64,
    v1: V,
    o2: u64,
    v2: V,
    o: int,
)
    requires
        forall|i: int| 0 <= i < log.len() ==> (#[trigger] log[i]).key@ != key@,
        o1 < o2,
        o1 <= o,
    ensures
        ({
            let after = log.push(Write { ordinal: o1, key, value: v1 }).push(
                Write { ordinal: o2, key, value: v2 },
            );
            &&& o < o2 ==> lookup_at(after, o, key@) == Some(v1)
            &&& o2 <= o ==> lookup_at(after, o, key@) == Some(v2)
        }),
{
    let mid = log.push(Write { ordinal: o1, key, value: v1 });
    let after = mid.push(Write { ordinal: o2, key, value: v2 });
    lemma_best_at(log, o, key@);
    assert(after.drop_last() == mid);
    assert(mid.drop_last() == log);
    assert(best_at(log, o, key@) is None);
    assert(best_at(mid, o, key@) == Some(log.len() as int));
    assert(mid[log.len() as int].ordinal == o1);
    assert(after[log.len() as int] == mid[log.len() as int]);
}

} // verus!
