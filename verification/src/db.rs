//! The store: values by key, each with an optional instant at which it
//! expires, and an index of the expirations that keeps the nearest at hand.
//!
//! Instants are milliseconds on a clock that the caller reads; the store
//! never reads a clock itself.

use vstd::hash_map::StringHashMap;
use vstd::prelude::*;

verus! {

/// A stored value and the instant at which it expires, if it does.
struct Entry {
    data: Vec<u8>,
    expires_at: Option<u64>,
}

/// The mathematical value of a stored entry.
pub struct EntryView {
    pub data: Seq<u8>,
    pub expires_at: Option<u64>,
}

impl View for Entry {
    type V = EntryView;

    closed spec fn view(&self) -> EntryView {
        EntryView { data: self.data@, expires_at: self.expires_at }
    }
}

/// The contents of a store: its entries by key.
pub type Entries = Map<Seq<char>, EntryView>;

/// Whether an entry has expired at `now`: its instant has been reached.
pub open spec fn expired(entry: EntryView, now: u64) -> bool {
    entry.expires_at matches Some(when) && when <= now
}

/// The instant at which a value set at `now` expires.
pub open spec fn deadline(expire: Option<u64>, now: u64) -> Option<u64> {
    match expire {
        Some(ttl) => Some((now + ttl) as u64),
        None => None,
    }
}

/// Whether `next` is the nearest expiration among `entries`: none, where no
/// entry expires; else an instant at which some entry expires and before
/// which none does.
pub open spec fn is_next_expiration(entries: Entries, next: Option<u64>) -> bool {
    match next {
        None => forall|k: Seq<char>|
            entries.contains_key(k) ==> (#[trigger] entries[k]).expires_at is None,
        Some(when) => {
            &&& exists|k: Seq<char>|
                entries.contains_key(k) && (#[trigger] entries[k]).expires_at == Some(when)
            &&& forall|k: Seq<char>|
                entries.contains_key(k) ==> ((#[trigger] entries[k]).expires_at matches Some(other)
                    ==> when <= other)
        },
    }
}

/// Whether setting a value that expires at `expires_at` brings the nearest
/// expiration forward: it expires, and strictly before every entry that is
/// there already.
pub open spec fn should_wake(entries: Entries, expires_at: Option<u64>) -> bool {
    expires_at matches Some(when) && forall|k: Seq<char>|
        entries.contains_key(k) ==> ((#[trigger] entries[k]).expires_at matches Some(other) ==> when
            < other)
}

/// The entries that are left once those expired at `now` are gone.
pub open spec fn purged(entries: Entries, now: u64) -> Entries {
    Map::new(
        |k: Seq<char>| entries.contains_key(k) && !expired(entries[k], now),
        |k: Seq<char>| entries[k],
    )
}

/// An index of expirations: pairs of an instant and the key that expires
/// then.
type Index = Seq<(u64, String)>;

/// Whether the index holds the pair of `when` and `key`.
spec fn holds(index: Index, when: u64, key: Seq<char>) -> bool {
    exists|i: int| 0 <= i < index.len() && #[trigger] pair(index, i) == (when, key)
}

/// The pair at a position of the index, its key as a value.
spec fn pair(index: Index, i: int) -> (u64, Seq<char>) {
    (index[i].0, index[i].1@)
}

/// The index is in order, latest first, and names no key twice.
spec fn ordered(index: Index) -> bool {
    &&& forall|i: int, j: int|
        0 <= i < j < index.len() ==> (#[trigger] pair(index, i)).0 >= (#[trigger] pair(index, j)).0
    &&& forall|i: int, j: int|
        0 <= i < j < index.len() ==> (#[trigger] pair(index, i)).1 != (#[trigger] pair(index, j)).1
}

/// The index and the entries are in step: the index holds a pair exactly
/// where the entry under that key expires at that instant.
spec fn in_step(entries: Map<Seq<char>, Entry>, index: Index) -> bool {
    forall|when: u64, key: Seq<char>| #[trigger]
        holds(index, when, key) <==> entries.contains_key(key) && entries[key].expires_at == Some(
            when,
        )
}

/// Takes the pair that names `key` out of the index.
fn unlist(index: &mut Vec<(u64, String)>, key: &String)
    requires
        ordered(old(index)@),
        exists|when: u64| holds(old(index)@, when, key@),
    ensures
        ordered(final(index)@),
        forall|when: u64, k: Seq<char>| #[trigger]
            holds(final(index)@, when, k) <==> holds(old(index)@, when, k) && k != key@,
{
    let mut i: usize = 0;
    proof {
        let when = choose|when: u64| holds(old(index)@, when, key@);
        let at = choose|at: int|
            0 <= at < index@.len() && #[trigger] pair(index@, at) == (when, key@);
        assert(pair(index@, at).1 == key@);
    }
    while i < index.len() && index[i].1 != *key
        invariant
            *index == *old(index),
            i <= index@.len(),
            forall|j: int| 0 <= j < i ==> (#[trigger] pair(index@, j)).1 != key@,
            exists|at: int| 0 <= at < index@.len() && (#[trigger] pair(index@, at)).1 == key@,
        decreases index@.len() - i,
    {
        i += 1;
    }
    let _ = index.remove(i);
    proof {
        let before = old(index)@;
        let after = index@;
        assert forall|a: int| 0 <= a < after.len() implies #[trigger] pair(after, a) == pair(
            before,
            if a < i { a } else { a + 1 },
        ) by {}
        assert forall|when: u64, k: Seq<char>| #[trigger]
            holds(after, when, k) <==> holds(before, when, k) && k != key@ by {
            if holds(after, when, k) {
                let a = choose|a: int|
                    0 <= a < after.len() && #[trigger] pair(after, a) == (when, k);
                let b = if a < i { a } else { a + 1 };
                assert(pair(before, b) == (when, k));
                assert(pair(before, if b < i { b } else { i as int }).1 != pair(
                    before,
                    if b < i { i as int } else { b },
                ).1);
            }
            if holds(before, when, k) && k != key@ {
                let b = choose|b: int|
                    0 <= b < before.len() && #[trigger] pair(before, b) == (when, k);
                let a = if b < i { b } else { b - 1 };
                assert(pair(after, a) == (when, k));
            }
        }
    }
}

/// Puts a pair into the index, behind every pair that expires later or at
/// the same instant.
fn list(index: &mut Vec<(u64, String)>, when: u64, key: String)
    requires
        ordered(old(index)@),
        forall|other: u64| !holds(old(index)@, other, key@),
    ensures
        ordered(final(index)@),
        forall|w: u64, k: Seq<char>| #[trigger]
            holds(final(index)@, w, k) <==> holds(old(index)@, w, k) || (w == when && k == key@),
{
    let mut i: usize = index.len();
    while i > 0 && index[i - 1].0 < when
        invariant
            *index == *old(index),
            i <= index@.len(),
            forall|j: int| i <= j < index@.len() ==> (#[trigger] pair(index@, j)).0 < when,
        decreases i,
    {
        i -= 1;
    }
    index.insert(i, (when, key));
    proof {
        let before = old(index)@;
        let after = index@;
        assert(pair(after, i as int) == (when, key@));
        assert forall|w: u64, k: Seq<char>| #[trigger]
            holds(after, w, k) <==> holds(before, w, k) || (w == when && k == key@) by {
            if holds(after, w, k) {
                let a = choose|a: int|
                    0 <= a < after.len() && #[trigger] pair(after, a) == (w, k);
                if a != i {
                    assert(pair(before, if a < i { a } else { a - 1 }) == (w, k));
                }
            }
            if holds(before, w, k) {
                let b = choose|b: int|
                    0 <= b < before.len() && #[trigger] pair(before, b) == (w, k);
                assert(pair(after, if b < i { b } else { b + 1 }) == (w, k));
            }
        }
        assert forall|a: int, b: int| 0 <= a < b < after.len() implies (#[trigger] pair(after, a)).0
            >= (#[trigger] pair(after, b)).0 && pair(after, a).1 != pair(after, b).1 by {
            let oa = if a < i { a } else { a - 1 };
            let ob = if b < i { b } else { b - 1 };
            if a != i && b != i {
                assert(pair(before, oa).0 >= pair(before, ob).0);
                assert(pair(before, oa).1 != pair(before, ob).1);
            } else if a == i {
                assert(pair(before, ob).0 < when);
                assert(!holds(before, pair(before, ob).0, key@));
            } else {
                assert(pair(before, oa).0 >= pair(before, i - 1).0);
                assert(!holds(before, pair(before, oa).0, key@));
            }
        }
    }
}

/// The nearest expiration among the entries is that of the last pair of
/// their index.
proof fn lemma_nearest(entries: Map<Seq<char>, Entry>, index: Index)
    requires
        ordered(index),
        in_step(entries, index),
    ensures
        index.len() == 0 ==> forall|k: Seq<char>|
            entries.contains_key(k) ==> (#[trigger] entries[k]).expires_at is None,
        index.len() > 0 ==> {
            let last = pair(index, index.len() - 1);
            &&& entries.contains_key(last.1)
            &&& entries[last.1].expires_at == Some(last.0)
            &&& forall|k: Seq<char>|
                entries.contains_key(k) ==> ((#[trigger] entries[k]).expires_at matches Some(other)
                    ==> last.0 <= other)
        },
{
    let n = index.len() as int;
    if n == 0 {
        assert forall|k: Seq<char>| entries.contains_key(k) implies (
        #[trigger] entries[k]).expires_at is None by {
            if let Some(when) = entries[k].expires_at {
                assert(holds(index, when, k));
            }
        }
    } else {
        let last = pair(index, n - 1);
        assert(holds(index, last.0, last.1));
        assert forall|k: Seq<char>| entries.contains_key(k) implies ((
        #[trigger] entries[k]).expires_at matches Some(other) ==> last.0 <= other) by {
            if let Some(other) = entries[k].expires_at {
                assert(holds(index, other, k));
                let i = choose|i: int|
                    0 <= i < index.len() && #[trigger] pair(index, i) == (other, k);
                assert(i < n - 1 ==> pair(index, i).0 >= pair(index, n - 1).0);
            }
        }
    }
}

/// A store of values by key.
pub struct Db {
    /// The entries by key.
    entries: StringHashMap<Entry>,
    /// For each entry that expires, the pair of its instant and its key:
    /// in the order of the instants, the latest first, so that the nearest
    /// is at the end and leaves in constant time.
    expirations: Vec<(u64, String)>,
    /// Whether the store was shut down.
    shutdown: bool,
}

impl View for Db {
    type V = Entries;

    closed spec fn view(&self) -> Entries {
        Map::new(|k: Seq<char>| self.entries@.contains_key(k), |k: Seq<char>| self.entries@[k]@)
    }
}

impl Db {
    /// The store is well formed: its index of expirations is in order and
    /// holds exactly the expirations of its entries.
    pub closed spec fn wf(&self) -> bool {
        &&& ordered(self.expirations@)
        &&& in_step(self.entries@, self.expirations@)
    }

    /// Whether the store was shut down.
    pub closed spec fn closed(&self) -> bool {
        self.shutdown
    }

    /// An empty store.
    pub fn new() -> (db: Db)
        ensures
            db.wf(),
            db@ == Entries::empty(),
            !db.closed(),
    {
        Db { entries: StringHashMap::new(), expirations: Vec::new(), shutdown: false }
    }

    /// A copy of the value under `key`, if there is an entry. An entry
    /// whose instant has passed is there until a purge removes it.
    pub fn get(&self, key: &str) -> (r: Option<Vec<u8>>)
        requires
            self.wf(),
        ensures
            match r {
                Some(data) => self@.contains_key(key@) && data@ == self@[key@].data,
                None => !self@.contains_key(key@),
            },
    {
        match self.entries.get(key) {
            Some(entry) => Some(entry.data.clone()),
            None => None,
        }
    }

    /// The nearest expiration among the entries.
    pub fn next_expiration(&self) -> (r: Option<u64>)
        requires
            self.wf(),
        ensures
            is_next_expiration(self@, r),
    {
        proof {
            lemma_nearest(self.entries@, self.expirations@);
        }
        let n = self.expirations.len();
        if n == 0 {
            None
        } else {
            let when = self.expirations[n - 1].0;
            proof {
                let last = pair(self.expirations@, n - 1);
                assert(self@.contains_key(last.1) && self@[last.1].expires_at == Some(when));
            }
            Some(when)
        }
    }

    /// Sets the value under `key`, replacing the entry that was there. With
    /// `expire`, a time to live in milliseconds, the entry expires that long
    /// after `now`; without, it does not expire.
    ///
    /// Returns whether the nearest expiration has come forward, so that
    /// whoever waits for it has to be woken: the new entry expires, and
    /// strictly before every entry that was there, the replaced one
    /// included.
    pub fn set(&mut self, key: String, value: Vec<u8>, expire: Option<u64>, now: u64) -> (wake:
        bool)
        requires
            old(self).wf(),
            expire matches Some(ttl) ==> now + ttl <= u64::MAX,
        ensures
            final(self).wf(),
            final(self)@ == old(self)@.insert(
                key@,
                EntryView { data: value@, expires_at: deadline(expire, now) },
            ),
            final(self).closed() == old(self).closed(),
            wake == should_wake(old(self)@, deadline(expire, now)),
    {
        let expires_at = match expire {
            Some(ttl) => Some(now + ttl),
            None => None,
        };
        let notify = match expires_at {
            None => false,
            Some(when) => match self.next_expiration() {
                None => true,
                Some(next) => when < next,
            },
        };
        let prev = match self.entries.get(key.as_str()) {
            Some(entry) => entry.expires_at,
            None => None,
        };
        if let Some(when) = prev {
            assert(holds(self.expirations@, when, key@));
            unlist(&mut self.expirations, &key);
        }
        self.entries.insert(key.clone(), Entry { data: value, expires_at });
        if let Some(when) = expires_at {
            list(&mut self.expirations, when, key);
        }
        notify
    }

    /// Whether the store was shut down.
    pub fn is_shutdown(&self) -> (r: bool)
        ensures
            r == self.closed(),
    {
        self.shutdown
    }

    /// Shuts the store down: from now on no purge removes anything. The
    /// flag is never taken back.
    pub fn shutdown(&mut self)
        ensures
            final(self).closed(),
            final(self)@ == old(self)@,
            final(self).wf() == old(self).wf(),
    {
        self.shutdown = true;
    }

    /// Removes the entries that have expired at `now`, and returns the
    /// nearest expiration among those that are left. A store that was shut
    /// down keeps what it has and returns nothing.
    pub fn purge_expired_keys(&mut self, now: u64) -> (r: Option<u64>)
        requires
            old(self).wf(),
        ensures
            final(self).wf(),
            final(self).closed() == old(self).closed(),
            old(self).closed() ==> final(self)@ == old(self)@ && r is None,
            !old(self).closed() ==> final(self)@ == purged(old(self)@, now) && is_next_expiration(
                final(self)@,
                r,
            ),
    {
        if self.shutdown {
            return None;
        }
        while self.expirations.len() > 0
            invariant
                self.wf(),
                !self.shutdown,
                !old(self).shutdown,
                forall|k: Seq<char>| #[trigger]
                    self.entries@.contains_key(k) ==> old(self).entries@.contains_key(k)
                        && self.entries@[k] == old(self).entries@[k],
                forall|k: Seq<char>|
                    old(self).entries@.contains_key(k) && !(#[trigger] self.entries@.contains_key(
                        k,
                    )) ==> expired(old(self).entries@[k]@, now),
            decreases self.expirations@.len(),
        {
            let n = self.expirations.len();
            let when = self.expirations[n - 1].0;
            let ghost index = self.expirations@;
            let ghost last = pair(index, n - 1);
            proof {
                lemma_nearest(self.entries@, index);
            }
            if when > now {
                proof {
                    assert(self@.contains_key(last.1) && self@[last.1].expires_at == Some(when));
                }
                return Some(when);
            }
            let gone = self.expirations.pop();
            match gone {
                Some(p) => {
                    self.entries.remove(p.1.as_str());
                },
                None => {},
            }
            proof {
                let rest = self.expirations@;
                assert forall|a: int| 0 <= a < rest.len() implies #[trigger] pair(rest, a) == pair(
                    index,
                    a,
                ) by {}
                assert forall|w: u64, k: Seq<char>| #[trigger]
                    holds(rest, w, k) <==> holds(index, w, k) && k != last.1 by {
                    if holds(rest, w, k) {
                        let a = choose|a: int|
                            0 <= a < rest.len() && #[trigger] pair(rest, a) == (w, k);
                        assert(pair(index, a) == (w, k));
                        assert(pair(index, a).1 != pair(index, n - 1).1);
                    }
                    if holds(index, w, k) && k != last.1 {
                        let b = choose|b: int|
                            0 <= b < index.len() && #[trigger] pair(index, b) == (w, k);
                        assert(pair(rest, b) == (w, k));
                    }
                }
            }
        }
        proof {
            lemma_nearest(self.entries@, self.expirations@);
        }
        None
    }
}

/// What the task that purges expired entries does next.
#[derive(Debug, Clone, Copy, PartialEq, Eq, Structural)]
pub enum Purge {
    /// Sleep until the instant, or until woken; then purge again.
    Until(u64),
    /// Sleep until woken; then purge again.
    Idle,
    /// Stop for good.
    Done,
}

/// One turn of the task that purges expired entries: where the store was
/// shut down it stops; else it removes what has expired at `now` and sleeps
/// until the nearest expiration that is left, or, where none is left, until
/// it is woken.
pub fn purge_expired_tasks(db: &mut Db, now: u64) -> (next: Purge)
    requires
        old(db).wf(),
    ensures
        final(db).wf(),
        final(db).closed() == old(db).closed(),
        old(db).closed() ==> next == Purge::Done && final(db)@ == old(db)@,
        !old(db).closed() ==> final(db)@ == purged(old(db)@, now) && match next {
            Purge::Until(when) => is_next_expiration(final(db)@, Some(when)),
            Purge::Idle => is_next_expiration(final(db)@, None),
            Purge::Done => false,
        },
{
    if db.is_shutdown() {
        return Purge::Done;
    }
    match db.purge_expired_keys(now) {
        Some(when) => Purge::Until(when),
        None => Purge::Idle,
    }
}

/// One change of a store's contents.
pub enum Change {
    /// A value is set under `key`, with a time to live or without.
    Write { key: Seq<char>, value: Seq<u8>, expire: Option<u64>, now: u64 },
    /// The entries expired at `now` are purged.
    Purge { now: u64 },
}

/// The contents after a change.
pub open spec fn change(entries: Entries, c: Change) -> Entries {
    match c {
        Change::Write { key, value, expire, now } => entries.insert(
            key,
            EntryView { data: value, expires_at: deadline(expire, now) },
        ),
        Change::Purge { now } => purged(entries, now),
    }
}

/// The contents after a run of changes, the first of them first.
pub open spec fn change_all(entries: Entries, changes: Seq<Change>) -> Entries
    decreases changes.len(),
{
    if changes.len() == 0 {
        entries
    } else {
        change(change_all(entries, changes.drop_last()), changes.last())
    }
}

/// Whether none of the changes sets a value under `key`.
pub open spec fn leaves(changes: Seq<Change>, key: Seq<char>) -> bool {
    forall|i: int|
        0 <= i < changes.len() ==> !((#[trigger] changes[i]) matches Change::Write { key: k, .. }
            && k == key)
}

/// No spontaneous eviction: a value set without a time to live is there,
/// unchanged, after any run of purges and of sets under other keys.
pub proof fn lemma_kept_without_expiry(
    entries: Entries,
    key: Seq<char>,
    value: Seq<u8>,
    now: u64,
    changes: Seq<Change>,
)
    requires
        leaves(changes, key),
    ensures
        ({
            let first = Change::Write { key, value, expire: None, now };
            let later = change_all(change(entries, first), changes);
            later.contains_key(key) && later[key] == EntryView { data: value, expires_at: None }
        }),
    decreases changes.len(),
{
    if changes.len() > 0 {
        lemma_kept_without_expiry(entries, key, value, now, changes.drop_last());
    }
}

/// Expiry: a value set with a time to live is there right away and through
/// every purge before its instant, and gone after a purge at or after its
/// instant.
pub proof fn lemma_expires(
    entries: Entries,
    key: Seq<char>,
    value: Seq<u8>,
    ttl: u64,
    now: u64,
    later: u64,
)
    requires
        now + ttl <= u64::MAX,
    ensures
        ({
            let fresh = change(entries, Change::Write { key, value, expire: Some(ttl), now });
            let after = purged(fresh, later);
            &&& fresh.contains_key(key) && fresh[key].data == value
            &&& later < now + ttl ==> after.contains_key(key) && after[key].data == value
            &&& later >= now + ttl ==> !after.contains_key(key)
        }),
{
}

/// Expiry replaced: once a key that was to expire is set again without a
/// time to live, no purge removes it, whenever it comes.
pub proof fn lemma_expiry_replaced(
    entries: Entries,
    key: Seq<char>,
    first: Seq<u8>,
    ttl: u64,
    second: Seq<u8>,
    now: u64,
    then: u64,
    changes: Seq<Change>,
)
    requires
        leaves(changes, key),
    ensures
        ({
            let short = change(
                entries,
                Change::Write { key, value: first, expire: Some(ttl), now },
            );
            let again = change(
                short,
                Change::Write { key, value: second, expire: None, now: then },
            );
            let later = change_all(again, changes);
            later.contains_key(key) && later[key] == EntryView { data: second, expires_at: None }
        }),
{
    let short = change(entries, Change::Write { key, value: first, expire: Some(ttl), now });
    lemma_kept_without_expiry(short, key, second, then, changes);
}

} // verus!
