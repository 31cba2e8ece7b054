//! A cache whose entries live for a while, with room for a number of them.
use vstd::prelude::*;
use crate::text;
use crate::time;
use crate::time::{Duration, Instant};

verus! {

#[derive(Debug, Clone)]
struct CacheEntry<V> {
    key: String,
    value: V,
    inserted_at: Instant,
}

/// A cache from text keys to values. No key occurs twice; where there is no room, the
/// oldest entry goes.
#[derive(Debug, Clone)]
pub struct TtlCache<V> {
    ttl: Duration,
    capacity: usize,
    entries: Vec<CacheEntry<V>>,
}

/// An entry of a cache: its key, its value, and when it was inserted, in nanoseconds.
#[verifier::ext_equal]
pub ghost struct Slot<V> {
    pub key: Seq<char>,
    pub value: V,
    pub at: int,
}

/// The entries that have not expired.
pub open spec fn fresh<V>(slots: Seq<Slot<V>>, ttl: int, now: int) -> Seq<Slot<V>>
    decreases slots.len(),
{
    if slots.len() == 0 {
        Seq::empty()
    } else {
        let rest = fresh(slots.drop_last(), ttl, now);
        if time::passed(now, slots.last().at) > ttl {
            rest
        } else {
            rest.push(slots.last())
        }
    }
}

/// The entries without those under a key.
pub open spec fn without<V>(slots: Seq<Slot<V>>, key: Seq<char>) -> Seq<Slot<V>>
    decreases slots.len(),
{
    if slots.len() == 0 {
        Seq::empty()
    } else {
        let rest = without(slots.drop_last(), key);
        if slots.last().key == key {
            rest
        } else {
            rest.push(slots.last())
        }
    }
}

/// The newest entries, up to a number.
pub open spec fn newest<V>(slots: Seq<Slot<V>>, capacity: nat) -> Seq<Slot<V>> {
    if slots.len() > capacity {
        slots.skip(slots.len() - capacity)
    } else {
        slots
    }
}

/// The entries after one was inserted: what has expired goes, the new entry comes last,
/// and the oldest go where there is no room.
pub open spec fn inserted<V>(
    slots: Seq<Slot<V>>,
    ttl: int,
    capacity: nat,
    key: Seq<char>,
    value: V,
    now: int,
) -> Seq<Slot<V>> {
    newest(without(fresh(slots, ttl, now), key).push(Slot { key, value, at: now }), capacity)
}

/// Whether no key occurs twice.
pub open spec fn distinct_keys<V>(slots: Seq<Slot<V>>) -> bool {
    forall|i: int, j: int|
        0 <= i < slots.len() && 0 <= j < slots.len() && i != j ==> #[trigger] slots[i].key
            != #[trigger] slots[j].key
}

/// What a cache holds under a key.
pub open spec fn found<V>(slots: Seq<Slot<V>>, key: Seq<char>) -> Option<V>
    decreases slots.len(),
{
    if slots.len() == 0 {
        None
    } else if slots.last().key == key {
        Some(slots.last().value)
    } else {
        found(slots.drop_last(), key)
    }
}

impl<V> TtlCache<V> {
    /// How long an entry lives, in nanoseconds.
    pub closed spec fn lifetime(&self) -> int {
        self.ttl@
    }

    /// How many entries there is room for.
    pub closed spec fn room(&self) -> nat {
        self.capacity as nat
    }

    /// The entries, oldest first.
    pub closed spec fn view(&self) -> Seq<Slot<V>> {
        Seq::new(
            self.entries@.len(),
            |i: int|
                Slot {
                    key: self.entries@[i].key@,
                    value: self.entries@[i].value,
                    at: self.entries@[i].inserted_at@,
                },
        )
    }

    /// No key twice, and no more entries than there is room for.
    pub open spec fn wf(&self) -> bool {
        distinct_keys(self@) && self@.len() <= self.room()
    }

    pub fn new(ttl: Duration, capacity: usize) -> (r: TtlCache<V>)
        ensures
            r.wf(),
            r.lifetime() == ttl@,
            r.room() == capacity,
            r@ == Seq::<Slot<V>>::empty(),
    {
        let r = TtlCache { ttl, capacity, entries: Vec::new() };
        assert(r@ =~= Seq::<Slot<V>>::empty());
        r
    }

    /// Drops the entries that have expired.
    fn purge_expired(&mut self, now: Instant)
        ensures
            final(self).ttl == old(self).ttl,
            final(self).capacity == old(self).capacity,
            final(self)@ == fresh(old(self)@, old(self).lifetime(), now@),
    {
        let ghost all = self@;
        let ghost mut done: int = 0;
        let mut i: usize = 0;
        proof {
            assert(all.take(0) =~= Seq::<Slot<V>>::empty());
            assert(self@.take(0) =~= Seq::<Slot<V>>::empty());
            assert(self@.skip(0) =~= all.skip(0));
        }
        while i < self.entries.len()
            invariant
                self.ttl == old(self).ttl,
                self.capacity == old(self).capacity,
                0 <= i <= self.entries@.len(),
                0 <= done <= all.len(),
                all == old(self)@,
                self@.take(i as int) == fresh(all.take(done), self.ttl@, now@),
                self@.skip(i as int) == all.skip(done),
            decreases self.entries@.len() - i,
        {
            let ghost before = self@;
            proof {
                assert(before.len() == self.entries@.len());
                assert(all.skip(done).len() == before.len() - i);
                assert(before.skip(i as int)[0] == before[i as int]);
                assert(all.skip(done)[0] == all[done]);
                assert(all.take(done + 1).drop_last() =~= all.take(done));
                assert(all.skip(done).drop_first() =~= all.skip(done + 1));
                assert(before.skip(i as int).drop_first() =~= before.skip(i + 1));
            }
            let age = now.since(&self.entries[i].inserted_at);
            if age.nanos > self.ttl.nanos {
                let _gone = self.entries.remove(i);
                proof {
                    assert(self@ =~= before.remove(i as int));
                    assert(self@.take(i as int) =~= before.take(i as int));
                    assert(self@.skip(i as int) =~= before.skip(i + 1));
                }
            } else {
                proof {
                    assert(self@.take(i + 1) =~= before.take(i as int).push(before[i as int]));
                }
                i = i + 1;
            }
            proof {
                done = done + 1;
            }
        }
        proof {
            assert(self@.skip(i as int).len() == 0);
            assert(all.take(done) =~= all);
            assert(self@.take(i as int) =~= self@);
        }
    }

    /// Drops the entries under a key.
    fn drop_key(&mut self, key: &str)
        ensures
            final(self).ttl == old(self).ttl,
            final(self).capacity == old(self).capacity,
            final(self)@ == without(old(self)@, key@),
    {
        let ghost all = self@;
        let ghost mut done: int = 0;
        let mut i: usize = 0;
        proof {
            assert(all.take(0) =~= Seq::<Slot<V>>::empty());
            assert(self@.take(0) =~= Seq::<Slot<V>>::empty());
            assert(self@.skip(0) =~= all.skip(0));
        }
        while i < self.entries.len()
            invariant
                self.ttl == old(self).ttl,
                self.capacity == old(self).capacity,
                0 <= i <= self.entries@.len(),
                0 <= done <= all.len(),
                all == old(self)@,
                self@.take(i as int) == without(all.take(done), key@),
                self@.skip(i as int) == all.skip(done),
            decreases self.entries@.len() - i,
        {
            let ghost before = self@;
            proof {
                assert(before.len() == self.entries@.len());
                assert(all.skip(done).len() == before.len() - i);
                assert(before.skip(i as int)[0] == before[i as int]);
                assert(all.skip(done)[0] == all[done]);
                assert(all.take(done + 1).drop_last() =~= all.take(done));
                assert(all.skip(done).drop_first() =~= all.skip(done + 1));
                assert(before.skip(i as int).drop_first() =~= before.skip(i + 1));
            }
            if text::same(self.entries[i].key.as_str(), key) {
                let _gone = self.entries.remove(i);
                proof {
                    assert(self@ =~= before.remove(i as int));
                    assert(self@.take(i as int) =~= before.take(i as int));
                    assert(self@.skip(i as int) =~= before.skip(i + 1));
                }
            } else {
                proof {
                    assert(self@.take(i + 1) =~= before.take(i as int).push(before[i as int]));
                }
                i = i + 1;
            }
            proof {
                done = done + 1;
            }
        }
        proof {
            assert(self@.skip(i as int).len() == 0);
            assert(all.take(done) =~= all);
            assert(self@.take(i as int) =~= self@);
        }
    }

    /// What is under a key and has not expired. What has expired is dropped.
    pub fn get(&mut self, key: &str, now: Instant) -> (r: Option<&V>)
        requires
            old(self).wf(),
        ensures
            final(self).wf(),
            final(self).lifetime() == old(self).lifetime(),
            final(self).room() == old(self).room(),
            final(self)@ == fresh(old(self)@, old(self).lifetime(), now@),
            match r {
                Some(v) => found(final(self)@, key@) == Some(*v),
                None => found(final(self)@, key@) is None,
            },
    {
        proof {
            lemma_fresh(self@, self.lifetime(), now@);
        }
        self.purge_expired(now);
        match self.position(key) {
            Some(i) => Some(&self.entries[i].value),
            None => None,
        }
    }

    /// The position of the last entry under a key.
    fn position(&self, key: &str) -> (r: Option<usize>)
        ensures
            match r {
                Some(i) => i < self.entries@.len() && found(self@, key@) == Some(
                    self.entries@[i as int].value,
                ),
                None => found(self@, key@) is None,
            },
    {
        let ghost all = self@;
        let mut i: usize = self.entries.len();
        assert(all.take(i as int) =~= all);
        while i > 0
            invariant
                all == self@,
                i <= self.entries@.len(),
                found(all, key@) == found(all.take(i as int), key@),
            decreases i,
        {
            assert(all.take(i as int).drop_last() =~= all.take(i - 1));
            assert(all.take(i as int).last() == all[i - 1]);
            if text::same(self.entries[i - 1].key.as_str(), key) {
                return Some(i - 1);
            }
            i = i - 1;
        }
        None
    }

    /// Puts a value under a key, as the newest entry. What has expired is dropped, and so
    /// are the oldest entries where there is no room.
    pub fn insert(&mut self, key: String, value: V, now: Instant)
        requires
            old(self).wf(),
        ensures
            final(self).wf(),
            final(self).lifetime() == old(self).lifetime(),
            final(self).room() == old(self).room(),
            final(self)@ == inserted(
                old(self)@,
                old(self).lifetime(),
                old(self).room(),
                key@,
                value,
                now@,
            ),
    {
        let ghost k = key@;
        let ghost kept = fresh(self@, self.lifetime(), now@);
        proof {
            lemma_fresh(self@, self.lifetime(), now@);
            lemma_without(kept, k);
        }
        self.purge_expired(now);
        self.drop_key(key.as_str());
        let ghost rest = self@;
        self.entries.push(CacheEntry { key, value, inserted_at: now });
        let ghost full = self@;
        assert(full =~= rest.push(Slot { key: k, value, at: now@ }));
        assert(distinct_keys(full));
        while self.entries.len() > self.capacity
            invariant
                self.ttl == old(self).ttl,
                self.capacity == old(self).capacity,
                self@.len() <= full.len(),
                self@ == full.skip(full.len() - self@.len()),
                full.len() > self.capacity ==> self@.len() >= self.capacity,
                full.len() <= self.capacity ==> self@.len() == full.len(),
            decreases self.entries@.len(),
        {
            let ghost before = self@;
            let _oldest = self.entries.remove(0);
            proof {
                assert(self@ =~= before.remove(0));
                assert(self@ =~= full.skip(full.len() - self@.len()));
            }
        }
        assert(self@ =~= newest(full, self.room()));
    }
}

proof fn lemma_fresh<V>(slots: Seq<Slot<V>>, ttl: int, now: int)
    ensures
        fresh(slots, ttl, now).len() <= slots.len(),
        distinct_keys(slots) ==> distinct_keys(fresh(slots, ttl, now)),
        forall|i: int|
            0 <= i < fresh(slots, ttl, now).len() ==> slots.contains(
                #[trigger] fresh(slots, ttl, now)[i],
            ),
    decreases slots.len(),
{
    if slots.len() > 0 {
        let shorter = slots.drop_last();
        lemma_fresh(shorter, ttl, now);
        let rest = fresh(shorter, ttl, now);
        let all = fresh(slots, ttl, now);
        assert forall|i: int| 0 <= i < all.len() implies slots.contains(#[trigger] all[i]) by {
            if i < rest.len() {
                let j = shorter.index_of(rest[i]);
                assert(slots[j] == all[i]);
            } else {
                assert(slots[slots.len() - 1] == all[i]);
            }
        }
        if distinct_keys(slots) {
            assert(distinct_keys(shorter));
            assert forall|i: int, j: int|
                0 <= i < all.len() && 0 <= j < all.len() && i != j implies #[trigger] all[i].key
                != #[trigger] all[j].key by {
                lemma_not_last(slots, rest, i);
                lemma_not_last(slots, rest, j);
            }
        }
    }
}

proof fn lemma_not_last<V>(slots: Seq<Slot<V>>, rest: Seq<Slot<V>>, i: int)
    requires
        slots.len() > 0,
        distinct_keys(slots),
        forall|k: int| 0 <= k < rest.len() ==> slots.drop_last().contains(#[trigger] rest[k]),
    ensures
        0 <= i < rest.len() ==> rest[i].key != slots.last().key,
{
    if 0 <= i < rest.len() {
        let j = slots.drop_last().index_of(rest[i]);
        assert(slots[j] == rest[i]);
    }
}

proof fn lemma_without<V>(slots: Seq<Slot<V>>, key: Seq<char>)
    ensures
        without(slots, key).len() <= slots.len(),
        distinct_keys(slots) ==> distinct_keys(without(slots, key)),
        forall|i: int|
            0 <= i < without(slots, key).len() ==> slots.contains(#[trigger] without(slots, key)[i])
                && without(slots, key)[i].key != key,
    decreases slots.len(),
{
    if slots.len() > 0 {
        let shorter = slots.drop_last();
        lemma_without(shorter, key);
        let rest = without(shorter, key);
        let all = without(slots, key);
        assert forall|i: int| 0 <= i < all.len() implies slots.contains(#[trigger] all[i])
            && all[i].key != key by {
            if i < rest.len() {
                let j = shorter.index_of(rest[i]);
                assert(slots[j] == all[i]);
            } else {
                assert(slots[slots.len() - 1] == all[i]);
            }
        }
        if distinct_keys(slots) {
            assert(distinct_keys(shorter));
            assert forall|i: int, j: int|
                0 <= i < all.len() && 0 <= j < all.len() && i != j implies #[trigger] all[i].key
                != #[trigger] all[j].key by {
                lemma_not_last(slots, rest, i);
                lemma_not_last(slots, rest, j);
            }
        }
    }
}

proof fn lemma_found_fresh<V>(slots: Seq<Slot<V>>, ttl: int, now: int, key: Seq<char>)
    requires
        slots.len() > 0,
        slots.last().key == key,
        time::passed(now, slots.last().at) <= ttl,
    ensures
        found(fresh(slots, ttl, now), key) == Some(slots.last().value),
{
}

/// What was just inserted is found until it expires, where there is room for anything.
pub proof fn law_inserted_is_found<V>(
    slots: Seq<Slot<V>>,
    ttl: int,
    capacity: nat,
    key: Seq<char>,
    value: V,
    now: int,
    later: int,
)
    requires
        capacity > 0,
        now <= later <= now + ttl,
    ensures
        found(fresh(inserted(slots, ttl, capacity, key, value, now), ttl, later), key) == Some(
            value,
        ),
{
    let after = inserted(slots, ttl, capacity, key, value, now);
    let all = without(fresh(slots, ttl, now), key).push(Slot { key, value, at: now });
    assert(after.len() > 0);
    assert(after.last() == all.last());
    lemma_found_fresh(after, ttl, later, key);
}

proof fn lemma_all_fresh<V>(slots: Seq<Slot<V>>, ttl: int, now: int)
    ensures
        forall|i: int|
            0 <= i < fresh(slots, ttl, now).len() ==> time::passed(
                now,
                (#[trigger] fresh(slots, ttl, now)[i]).at,
            ) <= ttl,
    decreases slots.len(),
{
    if slots.len() > 0 {
        lemma_all_fresh(slots.drop_last(), ttl, now);
        let rest = fresh(slots.drop_last(), ttl, now);
        let all = fresh(slots, ttl, now);
        assert forall|i: int| 0 <= i < all.len() implies time::passed(now, (#[trigger] all[i]).at)
            <= ttl by {
            if i < rest.len() {
                assert(all[i] == rest[i]);
            }
        }
    }
}

/// Nothing that has expired is left after a look at the cache.
pub proof fn law_expired_is_gone<V>(slots: Seq<Slot<V>>, ttl: int, now: int, i: int)
    requires
        0 <= i < fresh(slots, ttl, now).len(),
    ensures
        time::passed(now, fresh(slots, ttl, now)[i].at) <= ttl,
{
    lemma_all_fresh(slots, ttl, now);
}

// ---------------------------------------------------------------------------
// A cache over its history
// ---------------------------------------------------------------------------

/// What is done with a cache, and when.
#[verifier::ext_equal]
pub ghost enum Event<V> {
    Insert { key: Seq<char>, value: V, at: int },
    Get { at: int },
}

impl<V> Event<V> {
    pub open spec fn time(self) -> int {
        match self {
            Event::Insert { at, .. } => at,
            Event::Get { at } => at,
        }
    }
}

/// The entries of a cache that was empty at first, after all that was done with it.
pub open spec fn after<V>(history: Seq<Event<V>>, ttl: int, capacity: nat) -> Seq<Slot<V>>
    decreases history.len(),
{
    if history.len() == 0 {
        Seq::empty()
    } else {
        let before = after(history.drop_last(), ttl, capacity);
        match history.last() {
            Event::Insert { key, value, at } => inserted(before, ttl, capacity, key, value, at),
            Event::Get { at } => fresh(before, ttl, at),
        }
    }
}

/// Whether the times of a history do not run backwards and none is later than now.
pub open spec fn in_time<V>(history: Seq<Event<V>>, now: int) -> bool {
    &&& forall|i: int, j: int|
        0 <= i <= j < history.len() ==> (#[trigger] history[i]).time() <= (
        #[trigger] history[j]).time()
    &&& forall|i: int| 0 <= i < history.len() ==> (#[trigger] history[i]).time() <= now
}

/// The value that was last inserted under a key, and when.
pub open spec fn last_insert<V>(history: Seq<Event<V>>, key: Seq<char>) -> Option<(V, int)>
    decreases history.len(),
{
    if history.len() == 0 {
        None
    } else {
        match history.last() {
            Event::Insert { key: k, value, at } => if k == key {
                Some((value, at))
            } else {
                last_insert(history.drop_last(), key)
            },
            Event::Get { .. } => last_insert(history.drop_last(), key),
        }
    }
}

/// The other keys under which something was inserted since the last insert under a key.
pub open spec fn keys_since<V>(history: Seq<Event<V>>, key: Seq<char>) -> Set<Seq<char>>
    decreases history.len(),
{
    if history.len() == 0 {
        Set::empty()
    } else {
        let before = keys_since(history.drop_last(), key);
        match history.last() {
            Event::Insert { key: k, .. } => if k == key {
                Set::empty()
            } else {
                before.insert(k)
            },
            Event::Get { .. } => before,
        }
    }
}

/// What a cache without bounds would hold: the last insert under each key, in order.
spec fn latest<V>(history: Seq<Event<V>>) -> Seq<Slot<V>>
    decreases history.len(),
{
    if history.len() == 0 {
        Seq::empty()
    } else {
        let before = latest(history.drop_last());
        match history.last() {
            Event::Insert { key, value, at } => without(before, key).push(Slot { key, value, at }),
            Event::Get { .. } => before,
        }
    }
}

/// Whether entries stand in the order of their times, none of which is later than now.
spec fn by_time<V>(slots: Seq<Slot<V>>, now: int) -> bool {
    &&& forall|i: int, j: int|
        0 <= i <= j < slots.len() ==> (#[trigger] slots[i]).at <= (#[trigger] slots[j]).at
    &&& forall|i: int| 0 <= i < slots.len() ==> (#[trigger] slots[i]).at <= now
}

/// Whether the entries before a position have expired, and the others have not.
spec fn expire_before<V>(slots: Seq<Slot<V>>, ttl: int, now: int, n: int) -> bool {
    &&& 0 <= n <= slots.len()
    &&& forall|i: int|
        0 <= i < slots.len() ==> (i >= n <==> time::passed(now, (#[trigger] slots[i]).at) <= ttl)
}

proof fn lemma_fresh_is<V>(slots: Seq<Slot<V>>, ttl: int, now: int, n: int)
    requires
        expire_before(slots, ttl, now, n),
    ensures
        fresh(slots, ttl, now) == slots.skip(n),
    decreases slots.len(),
{
    if slots.len() > 0 {
        let rest = slots.drop_last();
        assert forall|i: int| 0 <= i < rest.len() implies rest[i] == #[trigger] slots[i] by {}
        if n == slots.len() {
            assert(time::passed(now, slots[slots.len() - 1].at) > ttl);
            assert(expire_before(rest, ttl, now, n - 1)) by {
                assert forall|i: int| 0 <= i < rest.len() implies (i >= n - 1 <==> time::passed(
                    now,
                    (#[trigger] rest[i]).at,
                ) <= ttl) by {
                    assert(rest[i] == slots[i]);
                }
            }
            lemma_fresh_is(rest, ttl, now, n - 1);
            assert(rest.skip(n - 1) =~= slots.skip(n));
        } else {
            assert(time::passed(now, slots[slots.len() - 1].at) <= ttl);
            assert(expire_before(rest, ttl, now, n)) by {
                assert forall|i: int| 0 <= i < rest.len() implies (i >= n <==> time::passed(
                    now,
                    (#[trigger] rest[i]).at,
                ) <= ttl) by {
                    assert(rest[i] == slots[i]);
                }
            }
            lemma_fresh_is(rest, ttl, now, n);
            assert(rest.skip(n).push(slots.last()) =~= slots.skip(n));
        }
    } else {
        assert(slots.skip(n) =~= slots);
    }
}

/// Entries in the order of their times expire from the front.
proof fn lemma_cutoff<V>(slots: Seq<Slot<V>>, ttl: int, now: int) -> (n: int)
    requires
        by_time(slots, now),
    ensures
        expire_before(slots, ttl, now, n),
    decreases slots.len(),
{
    if slots.len() == 0 {
        0
    } else {
        let rest = slots.drop_last();
        assert(by_time(rest, now)) by {
            assert forall|i: int, j: int| 0 <= i <= j < rest.len() implies (#[trigger] rest[i]).at
                <= (#[trigger] rest[j]).at by {
                assert(slots[i].at <= slots[j].at);
            }
            assert forall|i: int| 0 <= i < rest.len() implies (#[trigger] rest[i]).at <= now by {
                assert(slots[i].at <= now);
            }
        }
        let m = lemma_cutoff(rest, ttl, now);
        let last = slots.len() - 1;
        let n = if time::passed(now, slots[last].at) > ttl {
            slots.len() as int
        } else {
            m
        };
        assert forall|i: int| 0 <= i < slots.len() implies (i >= n <==> time::passed(
            now,
            (#[trigger] slots[i]).at,
        ) <= ttl) by {
            assert(slots[i].at <= slots[last].at);
            if i < last {
                assert(rest[i] == slots[i]);
            }
        }
        n
    }
}

/// The larger of two positions.
spec fn later_of(a: int, b: int) -> int {
    if a >= b {
        a
    } else {
        b
    }
}

proof fn lemma_skip_skip<V>(slots: Seq<Slot<V>>, a: int, b: int)
    requires
        0 <= a <= b <= slots.len(),
    ensures
        slots.skip(a).skip(b - a) == slots.skip(b),
{
    assert(slots.skip(a).skip(b - a) =~= slots.skip(b));
}

/// The newest of the entries that have not expired.
proof fn lemma_newest_fresh<V>(slots: Seq<Slot<V>>, ttl: int, now: int, capacity: nat, n: int)
    requires
        expire_before(slots, ttl, now, n),
    ensures
        newest(fresh(slots, ttl, now), capacity) == slots.skip(
            later_of(n, slots.len() - capacity),
        ),
{
    lemma_fresh_is(slots, ttl, now, n);
    if slots.len() - n > capacity {
        lemma_skip_skip(slots, n, slots.len() - capacity);
    }
}

/// Dropping what has expired from a rest of the entries.
proof fn lemma_fresh_rest<V>(slots: Seq<Slot<V>>, ttl: int, now: int, n: int, m: int)
    requires
        expire_before(slots, ttl, now, n),
        0 <= m <= slots.len(),
    ensures
        fresh(slots.skip(m), ttl, now) == slots.skip(later_of(n, m)),
{
    let rest = slots.skip(m);
    let k = later_of(n, m) - m;
    assert(expire_before(rest, ttl, now, k)) by {
        assert forall|i: int| 0 <= i < rest.len() implies (i >= k <==> time::passed(
            now,
            (#[trigger] rest[i]).at,
        ) <= ttl) by {
            assert(rest[i] == slots[m + i]);
        }
    }
    lemma_fresh_is(rest, ttl, now, k);
    lemma_skip_skip(slots, m, later_of(n, m));
}

spec fn has_key<V>(slots: Seq<Slot<V>>, key: Seq<char>) -> bool {
    exists|i: int| 0 <= i < slots.len() && (#[trigger] slots[i]).key == key
}

proof fn lemma_without_absent<V>(slots: Seq<Slot<V>>, key: Seq<char>)
    requires
        !has_key(slots, key),
    ensures
        without(slots, key) == slots,
    decreases slots.len(),
{
    if slots.len() > 0 {
        let rest = slots.drop_last();
        assert(slots[slots.len() - 1].key != key);
        assert(!has_key(rest, key)) by {
            if has_key(rest, key) {
                let i = choose|i: int| 0 <= i < rest.len() && (#[trigger] rest[i]).key == key;
                assert(slots[i].key == key);
            }
        }
        lemma_without_absent(rest, key);
        assert(rest.push(slots.last()) =~= slots);
    }
}

proof fn lemma_without_at<V>(slots: Seq<Slot<V>>, key: Seq<char>, p: int)
    requires
        distinct_keys(slots),
        0 <= p < slots.len(),
        slots[p].key == key,
    ensures
        without(slots, key) == slots.remove(p),
    decreases slots.len(),
{
    let rest = slots.drop_last();
    let last = slots.len() - 1;
    assert(distinct_keys(rest)) by {
        assert forall|i: int, j: int|
            0 <= i < rest.len() && 0 <= j < rest.len() && i != j implies #[trigger] rest[i].key
            != #[trigger] rest[j].key by {
            assert(slots[i].key != slots[j].key);
        }
    }
    if p == last {
        assert(!has_key(rest, key)) by {
            if has_key(rest, key) {
                let i = choose|i: int| 0 <= i < rest.len() && (#[trigger] rest[i]).key == key;
                assert(slots[i].key != slots[last].key);
            }
        }
        lemma_without_absent(rest, key);
        assert(slots.remove(p) =~= rest);
    } else {
        assert(slots[p].key != slots[last].key);
        lemma_without_at(rest, key, p);
        assert(rest.remove(p).push(slots.last()) =~= slots.remove(p));
    }
}

proof fn lemma_found_at<V>(slots: Seq<Slot<V>>, key: Seq<char>, p: int)
    requires
        distinct_keys(slots),
        0 <= p < slots.len(),
        slots[p].key == key,
    ensures
        found(slots, key) == Some(slots[p].value),
    decreases slots.len(),
{
    let rest = slots.drop_last();
    if p < slots.len() - 1 {
        assert(slots[p].key != slots[slots.len() - 1].key);
        assert(distinct_keys(rest)) by {
            assert forall|i: int, j: int|
                0 <= i < rest.len() && 0 <= j < rest.len() && i != j implies #[trigger] rest[i].key
                != #[trigger] rest[j].key by {
                assert(slots[i].key != slots[j].key);
            }
        }
        lemma_found_at(rest, key, p);
    }
}

proof fn lemma_found_nowhere<V>(slots: Seq<Slot<V>>, key: Seq<char>)
    requires
        !has_key(slots, key),
    ensures
        found(slots, key) is None,
    decreases slots.len(),
{
    if slots.len() > 0 {
        let rest = slots.drop_last();
        assert(slots[slots.len() - 1].key != key);
        assert(!has_key(rest, key)) by {
            if has_key(rest, key) {
                let i = choose|i: int| 0 <= i < rest.len() && (#[trigger] rest[i]).key == key;
                assert(slots[i].key == key);
            }
        }
        lemma_found_nowhere(rest, key);
    }
}

proof fn lemma_in_time<V>(history: Seq<Event<V>>, now: int)
    requires
        history.len() > 0,
        in_time(history, now),
    ensures
        in_time(history.drop_last(), history.last().time()),
        history.last().time() <= now,
{
    let h = history.drop_last();
    assert forall|i: int, j: int| 0 <= i <= j < h.len() implies (#[trigger] h[i]).time() <= (
    #[trigger] h[j]).time() by {
        assert(history[i].time() <= history[j].time());
    }
    assert forall|i: int| 0 <= i < h.len() implies (#[trigger] h[i]).time()
        <= history.last().time() by {
        assert(history[i].time() <= history[history.len() - 1].time());
    }
    assert(history[history.len() - 1].time() <= now);
}

/// The last inserts have different keys and stand in the order of their times.
proof fn lemma_latest<V>(history: Seq<Event<V>>, now: int)
    requires
        in_time(history, now),
    ensures
        distinct_keys(latest(history)),
        by_time(latest(history), now),
    decreases history.len(),
{
    if history.len() > 0 {
        let h = history.drop_last();
        lemma_in_time(history, now);
        lemma_latest(h, history.last().time());
        let before = latest(h);
        let all = latest(history);
        match history.last() {
            Event::Insert { key, value, at } => {
                lemma_without(before, key);
                let rest = without(before, key);
                assert(by_time(rest, at)) by {
                    if has_key(before, key) {
                        let p = choose|p: int|
                            0 <= p < before.len() && (#[trigger] before[p]).key == key;
                        lemma_without_at(before, key, p);
                        assert forall|i: int, j: int| 0 <= i <= j < rest.len() implies (
                        #[trigger] rest[i]).at <= (#[trigger] rest[j]).at by {
                            let a = if i < p {
                                i
                            } else {
                                i + 1
                            };
                            let b = if j < p {
                                j
                            } else {
                                j + 1
                            };
                            assert(before[a].at <= before[b].at);
                        }
                        assert forall|i: int| 0 <= i < rest.len() implies (#[trigger] rest[i]).at
                            <= at by {
                            let a = if i < p {
                                i
                            } else {
                                i + 1
                            };
                            assert(before[a].at <= at);
                        }
                    } else {
                        lemma_without_absent(before, key);
                    }
                }
                assert forall|i: int, j: int| 0 <= i <= j < all.len() implies (
                #[trigger] all[i]).at <= (#[trigger] all[j]).at by {
                    if j < rest.len() {
                        assert(rest[i].at <= rest[j].at);
                    } else if i < rest.len() {
                        assert(rest[i].at <= at);
                    }
                }
                assert forall|i: int| 0 <= i < all.len() implies (#[trigger] all[i]).at <= now by {
                    if i < rest.len() {
                        assert(rest[i].at <= at);
                    }
                }
            },
            Event::Get { at } => {
                assert forall|i: int| 0 <= i < all.len() implies (#[trigger] all[i]).at <= now by {
                    assert(before[i].at <= at);
                }
            },
        }
    }
}

/// The cache holds the newest of the last inserts that have not expired.
proof fn lemma_after<V>(history: Seq<Event<V>>, ttl: int, capacity: nat, now: int)
    requires
        in_time(history, now),
        history.len() > 0 ==> history.last().time() == now,
        ttl >= 0,
    ensures
        after(history, ttl, capacity) == newest(fresh(latest(history), ttl, now), capacity),
    decreases history.len(),
{
    if history.len() > 0 {
        let h = history.drop_last();
        let all = latest(h);
        lemma_in_time(history, now);
        lemma_latest(h, now);
        let n = lemma_cutoff(all, ttl, now);
        let len = all.len() as int;
        // What the cache held before, without what has expired by now.
        let low = later_of(n, len - capacity);
        assert(fresh(after(h, ttl, capacity), ttl, now) == all.skip(low)) by {
            if h.len() > 0 {
                let then = h.last().time();
                assert(h.last() == history[h.len() - 1]);
                assert(in_time(h, then)) by {
                    assert forall|i: int| 0 <= i < h.len() implies (#[trigger] h[i]).time()
                        <= then by {
                        assert(history[i].time() <= history[h.len() - 1].time());
                    }
                }
                lemma_after(h, ttl, capacity, then);
                lemma_latest(h, then);
                let m = lemma_cutoff(all, ttl, then);
                lemma_newest_fresh(all, ttl, then, capacity, m);
                let k = later_of(m, len - capacity);
                lemma_fresh_rest(all, ttl, now, n, k);
                assert(m <= n) by {
                    if n < m {
                        assert(time::passed(now, all[n].at) <= ttl);
                        assert(time::passed(then, all[n].at) <= ttl);
                    }
                }
            } else {
                assert(all.skip(low) =~= Seq::<Slot<V>>::empty());
                assert(after(h, ttl, capacity) =~= Seq::<Slot<V>>::empty());
            }
        }
        match history.last() {
            Event::Insert { key, value, at } => {
                lemma_after_insert(all, ttl, capacity, n, key, value, at);
            },
            Event::Get { at } => {
                lemma_newest_fresh(all, ttl, now, capacity, n);
            },
        }
    }
}

proof fn lemma_after_insert<V>(
    all: Seq<Slot<V>>,
    ttl: int,
    capacity: nat,
    n: int,
    key: Seq<char>,
    value: V,
    now: int,
)
    requires
        distinct_keys(all),
        by_time(all, now),
        expire_before(all, ttl, now, n),
        ttl >= 0,
    ensures
        ({
            let slot = Slot { key, value, at: now };
            newest(
                without(all.skip(later_of(n, all.len() - capacity)), key).push(slot),
                capacity,
            ) == newest(fresh(without(all, key).push(slot), ttl, now), capacity)
        }),
{
    let slot = Slot { key, value, at: now };
    let len = all.len() as int;
    let low = later_of(n, len - capacity);
    let kept = all.skip(low);
    if has_key(all, key) {
        let p = choose|p: int| 0 <= p < all.len() && (#[trigger] all[p]).key == key;
        lemma_without_at(all, key, p);
        let next = all.remove(p).push(slot);
        let m = if p < n {
            n - 1
        } else {
            n
        };
        assert(expire_before(next, ttl, now, m)) by {
            assert forall|i: int| 0 <= i < next.len() implies (i >= m <==> time::passed(
                now,
                (#[trigger] next[i]).at,
            ) <= ttl) by {
                if i < p {
                    assert(next[i] == all[i]);
                } else if i < len - 1 {
                    assert(next[i] == all[i + 1]);
                }
            }
        }
        lemma_newest_fresh(next, ttl, now, capacity, m);
        if p >= low {
            assert(distinct_keys(kept)) by {
                assert forall|i: int, j: int|
                    0 <= i < kept.len() && 0 <= j < kept.len() && i != j implies #[trigger] kept[i].key
                    != #[trigger] kept[j].key by {
                    assert(all[low + i].key != all[low + j].key);
                }
            }
            lemma_without_at(kept, key, p - low);
            assert(kept.remove(p - low).push(slot) =~= next.skip(low));
        } else {
            assert(!has_key(kept, key)) by {
                if has_key(kept, key) {
                    let i = choose|i: int| 0 <= i < kept.len() && (#[trigger] kept[i]).key == key;
                    assert(all[low + i].key != all[p].key);
                }
            }
            lemma_without_absent(kept, key);
            assert(kept.push(slot) =~= next.skip(low - 1));
            if len - low + 1 > capacity {
                lemma_skip_skip(next, low - 1, len - capacity);
            }
        }
    } else {
        lemma_without_absent(all, key);
        assert(!has_key(kept, key)) by {
            if has_key(kept, key) {
                let i = choose|i: int| 0 <= i < kept.len() && (#[trigger] kept[i]).key == key;
                assert(all[low + i].key == key);
            }
        }
        lemma_without_absent(kept, key);
        let next = all.push(slot);
        assert(expire_before(next, ttl, now, n)) by {
            assert forall|i: int| 0 <= i < next.len() implies (i >= n <==> time::passed(
                now,
                (#[trigger] next[i]).at,
            ) <= ttl) by {
                if i < len {
                    assert(next[i] == all[i]);
                }
            }
        }
        lemma_newest_fresh(next, ttl, now, capacity, n);
        assert(kept.push(slot) =~= next.skip(low));
        if len - low + 1 > capacity {
            lemma_skip_skip(next, low, len + 1 - capacity);
        }
    }
}

/// The keys of some entries.
spec fn keys_of<V>(slots: Seq<Slot<V>>) -> Seq<Seq<char>> {
    slots.map_values(|s: Slot<V>| s.key)
}

/// Where the last insert under a key stands, and what stands behind it.
proof fn lemma_place<V>(history: Seq<Event<V>>, key: Seq<char>, now: int) -> (p: int)
    requires
        in_time(history, now),
    ensures
        match last_insert(history, key) {
            Some((value, at)) => {
                let all = latest(history);
                &&& 0 <= p < all.len()
                &&& all[p] == (Slot { key, value, at })
                &&& keys_of(all.skip(p + 1)).to_set() == keys_since(history, key)
            },
            None => !has_key(latest(history), key),
        },
    decreases history.len(),
{
    if history.len() == 0 {
        0
    } else {
        let h = history.drop_last();
        lemma_in_time(history, now);
        lemma_latest(h, history.last().time());
        let q = lemma_place(h, key, history.last().time());
        let before = latest(h);
        let all = latest(history);
        match history.last() {
            Event::Get { .. } => q,
            Event::Insert { key: k, value, at } => {
                let slot = Slot { key: k, value, at };
                if k == key {
                    let p = all.len() - 1;
                    assert(keys_of(all.skip(p + 1)).to_set() =~= Set::<Seq<char>>::empty());
                    p
                } else {
                    lemma_place_insert(before, key, slot);
                    if last_insert(h, key) is None {
                        q
                    } else if has_key(before, k) {
                        let x = choose|x: int|
                            0 <= x < before.len() && (#[trigger] before[x]).key == k;
                        lemma_without_at(before, k, x);
                        let p = if x < q {
                            q - 1
                        } else {
                            q
                        };
                        lemma_tail_keys(before, slot, q, x);
                        p
                    } else {
                        lemma_without_absent(before, k);
                        let tail = before.skip(q + 1);
                        assert(all.skip(q + 1) =~= tail.push(slot));
                        assert(keys_of(tail.push(slot)) =~= keys_of(tail).push(k));
                        lemma_push_set(keys_of(tail), k);
                        q
                    }
                }
            },
        }
    }
}

/// A key that was not there is not there either once something came under another key.
proof fn lemma_place_insert<V>(before: Seq<Slot<V>>, key: Seq<char>, slot: Slot<V>)
    requires
        slot.key != key,
    ensures
        !has_key(before, key) ==> !has_key(without(before, slot.key).push(slot), key),
{
    if !has_key(before, key) {
        let rest = without(before, slot.key);
        let all = rest.push(slot);
        lemma_without(before, slot.key);
        if has_key(all, key) {
            let i = choose|i: int| 0 <= i < all.len() && (#[trigger] all[i]).key == key;
            if i < rest.len() {
                assert(before.contains(rest[i]));
                let j = before.index_of(rest[i]);
                assert(before[j].key == key);
            }
        }
    }
}

proof fn lemma_push_set(keys: Seq<Seq<char>>, k: Seq<char>)
    ensures
        keys.push(k).to_set() == keys.to_set().insert(k),
{
    assert forall|x: Seq<char>| keys.push(k).to_set().contains(x) <==> keys.to_set().insert(
        k,
    ).contains(x) by {
        if keys.contains(x) {
            let i = keys.index_of(x);
            assert(keys.push(k)[i] == x);
        }
        assert(keys.push(k)[keys.len() as int] == k);
        if keys.push(k).contains(x) && x != k {
            let i = keys.push(k).index_of(x);
            assert(keys[i] == x);
        }
    }
    assert(keys.push(k).to_set() =~= keys.to_set().insert(k));
}

/// The keys behind a position, once the entry at another one has moved to the end.
proof fn lemma_tail_keys<V>(before: Seq<Slot<V>>, slot: Slot<V>, q: int, x: int)
    requires
        0 <= q < before.len(),
        0 <= x < before.len(),
        x != q,
        before[x].key == slot.key,
    ensures
        ({
            let all = before.remove(x).push(slot);
            let p = if x < q {
                q - 1
            } else {
                q
            };
            &&& all[p] == before[q]
            &&& keys_of(all.skip(p + 1)).to_set() == keys_of(before.skip(q + 1)).to_set().insert(
                slot.key,
            )
        }),
{
    let all = before.remove(x).push(slot);
    let tail = before.skip(q + 1);
    if x < q {
        assert(all.skip(q) =~= tail.push(slot));
        assert(keys_of(tail.push(slot)) =~= keys_of(tail).push(slot.key));
        lemma_push_set(keys_of(tail), slot.key);
    } else {
        let y = x - q - 1;
        assert(all.skip(q + 1) =~= tail.remove(y).push(slot));
        let ks = keys_of(tail);
        assert(ks[y] == slot.key);
        assert(keys_of(tail.remove(y).push(slot)) =~= ks.remove(y).push(slot.key));
        lemma_push_set(ks.remove(y), slot.key);
        assert(ks.remove(y).to_set().insert(slot.key) =~= ks.to_set().insert(slot.key)) by {
            assert forall|k: Seq<char>| k != slot.key implies (ks.remove(y).contains(k)
                <==> ks.contains(k)) by {
                if ks.contains(k) {
                    let i = ks.index_of(k);
                    if i < y {
                        assert(ks.remove(y)[i] == k);
                    } else {
                        assert(ks.remove(y)[i - 1] == k);
                    }
                }
                if ks.remove(y).contains(k) {
                    let i = ks.remove(y).index_of(k);
                    if i < y {
                        assert(ks[i] == k);
                    } else {
                        assert(ks[i + 1] == k);
                    }
                }
            }
        }
    }
}

/// Whatever was done with a cache, a read gives the value that was last inserted under the
/// key, if that has not expired and fewer other keys were inserted since than there is
/// room for; and nothing otherwise.
pub proof fn law_read_gives_last_insert<V>(
    history: Seq<Event<V>>,
    ttl: int,
    capacity: nat,
    key: Seq<char>,
    now: int,
)
    requires
        in_time(history, now),
        ttl >= 0,
    ensures
        found(fresh(after(history, ttl, capacity), ttl, now), key) == match last_insert(
            history,
            key,
        ) {
            Some((value, at)) => if now - at <= ttl && keys_since(history, key).len() < capacity {
                Some(value)
            } else {
                None
            },
            None => None,
        },
{
    let all = latest(history);
    let len = all.len() as int;
    lemma_latest(history, now);
    let n = lemma_cutoff(all, ttl, now);
    let low = later_of(n, len - capacity);
    // A look at the cache leaves what an empty step at this time would.
    let looked = history.push(Event::Get { at: now });
    assert(looked.drop_last() =~= history);
    assert(in_time(looked, now)) by {
        assert forall|i: int, j: int| 0 <= i <= j < looked.len() implies (
        #[trigger] looked[i]).time() <= (#[trigger] looked[j]).time() by {
            if j < history.len() {
                assert(history[i].time() <= history[j].time());
            } else if i < history.len() {
                assert(history[i].time() <= now);
            }
        }
        assert forall|i: int| 0 <= i < looked.len() implies (#[trigger] looked[i]).time()
            <= now by {
            if i < history.len() {
                assert(history[i].time() <= now);
            }
        }
    }
    lemma_after(looked, ttl, capacity, now);
    assert(latest(looked) == all);
    lemma_newest_fresh(all, ttl, now, capacity, n);
    let held = all.skip(low);
    assert(fresh(after(history, ttl, capacity), ttl, now) == held);
    assert(distinct_keys(held)) by {
        assert forall|i: int, j: int|
            0 <= i < held.len() && 0 <= j < held.len() && i != j implies #[trigger] held[i].key
            != #[trigger] held[j].key by {
            assert(all[low + i].key != all[low + j].key);
        }
    }
    let p = lemma_place(history, key, now);
    match last_insert(history, key) {
        Some((value, at)) => {
            let tail = keys_of(all.skip(p + 1));
            assert(tail.no_duplicates()) by {
                assert forall|i: int, j: int|
                    0 <= i < tail.len() && 0 <= j < tail.len() && i != j implies tail[i]
                    != tail[j] by {
                    assert(all[p + 1 + i].key != all[p + 1 + j].key);
                }
            }
            tail.unique_seq_to_set();
            assert(keys_since(history, key).len() == len - 1 - p);
            assert(all[p].at <= now);
            if p >= low {
                assert(held[p - low] == all[p]);
                lemma_found_at(held, key, p - low);
            } else {
                assert(!has_key(held, key)) by {
                    if has_key(held, key) {
                        let i = choose|i: int|
                            0 <= i < held.len() && (#[trigger] held[i]).key == key;
                        assert(all[low + i].key != all[p].key);
                    }
                }
                lemma_found_nowhere(held, key);
            }
        },
        None => {
            assert(!has_key(held, key)) by {
                if has_key(held, key) {
                    let i = choose|i: int| 0 <= i < held.len() && (#[trigger] held[i]).key == key;
                    assert(all[low + i].key == key);
                }
            }
            lemma_found_nowhere(held, key);
        },
    }
}

} // verus!
