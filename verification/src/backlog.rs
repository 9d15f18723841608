//! Releases that are withheld until a press cancels them or their time comes.

use vstd::prelude::*;

verus! {

/// A withheld release of `key`, to be handed on at `scheduled_release_time`
/// (microseconds since the epoch) unless a press cancels it first.
#[derive(Clone, Copy, Debug, PartialEq, Eq, Structural)]
pub struct BacklogEntry {
    pub key: u16,
    pub scheduled_release_time: u64,
}

/// Some entry of `s` is for `key`.
pub open spec fn holds_key(s: Seq<BacklogEntry>, key: u16) -> bool {
    exists|i: int| 0 <= i < s.len() && (#[trigger] s[i]).key == key
}

/// The place of an entry for `key` in `s`.
pub open spec fn index_of_key(s: Seq<BacklogEntry>, key: u16) -> int {
    choose|i: int| 0 <= i < s.len() && (#[trigger] s[i]).key == key
}

/// When the withheld release of `key` is due, `None` where none is withheld.
pub open spec fn pending(s: Seq<BacklogEntry>, key: u16) -> Option<u64> {
    if holds_key(s, key) {
        Some(s[index_of_key(s, key)].scheduled_release_time)
    } else {
        None
    }
}

/// `s` without its entry for `key`.
pub open spec fn without_key(s: Seq<BacklogEntry>, key: u16) -> Seq<BacklogEntry> {
    if holds_key(s, key) {
        s.remove(index_of_key(s, key))
    } else {
        s
    }
}

/// The entries come in the order in which they are due.
pub open spec fn sorted(s: Seq<BacklogEntry>) -> bool {
    forall|i: int, j: int|
        #![trigger s[i], s[j]]
        0 <= i < j < s.len() ==> s[i].scheduled_release_time <= s[j].scheduled_release_time
}

/// No two entries are for the same key.
pub open spec fn distinct_keys(s: Seq<BacklogEntry>) -> bool {
    forall|i: int, j: int| #![trigger s[i], s[j]] 0 <= i < j < s.len() ==> s[i].key != s[j].key
}

/// What every backlog keeps: due order, and one entry per key at most.
pub open spec fn well_formed(s: Seq<BacklogEntry>) -> bool {
    sorted(s) && distinct_keys(s)
}

/// `p` is where an entry due at `at` goes: behind all that are due no
/// later, before all that are due later.
pub open spec fn is_slot(s: Seq<BacklogEntry>, at: u64, p: int) -> bool {
    &&& 0 <= p <= s.len()
    &&& forall|i: int| 0 <= i < p ==> (#[trigger] s[i]).scheduled_release_time <= at
    &&& forall|i: int| p <= i < s.len() ==> (#[trigger] s[i]).scheduled_release_time > at
}

/// The place in `s` for an entry due at `at`.
pub open spec fn slot_for(s: Seq<BacklogEntry>, at: u64) -> int {
    choose|p: int| is_slot(s, at, p)
}

/// `s` with `e` put in at its place.
pub open spec fn with_entry(s: Seq<BacklogEntry>, e: BacklogEntry) -> Seq<BacklogEntry> {
    s.insert(slot_for(s, e.scheduled_release_time), e)
}

/// With distinct keys, the entry at `i` is the one found for its key.
pub proof fn lemma_key_at(s: Seq<BacklogEntry>, i: int)
    requires
        distinct_keys(s),
        0 <= i < s.len(),
    ensures
        holds_key(s, s[i].key),
        index_of_key(s, s[i].key) == i,
        pending(s, s[i].key) == Some(s[i].scheduled_release_time),
{
    let j = index_of_key(s, s[i].key);
    assert(0 <= j < s.len() && s[j].key == s[i].key);
    if j < i {
        assert(s[j].key != s[i].key);
    }
    if i < j {
        assert(s[i].key != s[j].key);
    }
}

/// A sorted sequence has a place for every due time.
pub proof fn lemma_slot_exists(s: Seq<BacklogEntry>, at: u64)
    requires
        sorted(s),
    ensures
        is_slot(s, at, slot_for(s, at)),
    decreases s.len(),
{
    if s.len() == 0 {
        assert(is_slot(s, at, 0));
    } else if s.last().scheduled_release_time <= at {
        let n = s.len() as int;
        assert forall|i: int| 0 <= i < n implies (#[trigger] s[i]).scheduled_release_time <= at by {
            if i < n - 1 {
                assert(s[i].scheduled_release_time <= s[n - 1].scheduled_release_time);
            }
        }
        assert(is_slot(s, at, n));
    } else {
        let t = s.drop_last();
        assert forall|i: int, j: int| 0 <= i < j < t.len() implies t[i].scheduled_release_time
            <= t[j].scheduled_release_time by {
            assert(s[i].scheduled_release_time <= s[j].scheduled_release_time);
        }
        lemma_slot_exists(t, at);
        let p = slot_for(t, at);
        assert forall|i: int| 0 <= i < p implies (#[trigger] s[i]).scheduled_release_time <= at by {
            assert(t[i].scheduled_release_time <= at);
        }
        assert forall|i: int| p <= i < s.len() implies (#[trigger] s[i]).scheduled_release_time
            > at by {
            if i < t.len() {
                assert(t[i].scheduled_release_time > at);
            }
        }
        assert(is_slot(s, at, p));
    }
}

/// There is one such place only.
pub proof fn lemma_slot_unique(s: Seq<BacklogEntry>, at: u64, p: int, q: int)
    requires
        is_slot(s, at, p),
        is_slot(s, at, q),
    ensures
        p == q,
{
    if p < q {
        assert(s[p].scheduled_release_time <= at);
        assert(s[p].scheduled_release_time > at);
    }
    if q < p {
        assert(s[q].scheduled_release_time <= at);
        assert(s[q].scheduled_release_time > at);
    }
}

/// Putting an entry in keeps the order and the keys apart, changes what is
/// pending for its own key only, and is undone by taking that key out.
pub proof fn lemma_with_entry(s: Seq<BacklogEntry>, e: BacklogEntry)
    requires
        well_formed(s),
        !holds_key(s, e.key),
    ensures
        well_formed(with_entry(s, e)),
        with_entry(s, e).len() == s.len() + 1,
        forall|k: u16| #[trigger]
            pending(with_entry(s, e), k) == if k == e.key {
                Some(e.scheduled_release_time)
            } else {
                pending(s, k)
            },
        without_key(with_entry(s, e), e.key) == s,
{
    lemma_slot_exists(s, e.scheduled_release_time);
    let p = slot_for(s, e.scheduled_release_time);
    let r = with_entry(s, e);
    s.insert_ensures(p, e);
    assert forall|i: int| 0 <= i < r.len() implies #[trigger] r[i] == (if i < p {
        s[i]
    } else if i == p {
        e
    } else {
        s[i - 1]
    }) by {
        if i > p {
            assert(r[(i - 1) + 1] == s[i - 1]);
        }
    }
    assert forall|i: int| 0 <= i < s.len() implies (#[trigger] s[i]).key != e.key by {}
    assert forall|i: int, j: int| 0 <= i < j < r.len() implies r[i].scheduled_release_time
        <= r[j].scheduled_release_time by {
        let a = if i < p { i } else { i - 1 };
        let b = if j < p { j } else { j - 1 };
        if i != p && j != p {
            assert(a < b);
            assert(s[a].scheduled_release_time <= s[b].scheduled_release_time);
        } else if i == p {
            assert(s[b].scheduled_release_time > e.scheduled_release_time);
        } else {
            assert(s[a].scheduled_release_time <= e.scheduled_release_time);
        }
    }
    assert forall|i: int, j: int| 0 <= i < j < r.len() implies r[i].key != r[j].key by {
        let a = if i < p { i } else { i - 1 };
        let b = if j < p { j } else { j - 1 };
        if i != p && j != p {
            assert(a < b);
            assert(s[a].key != s[b].key);
        } else if i == p {
            assert(s[b].key != e.key);
        } else {
            assert(s[a].key != e.key);
        }
    }
    assert forall|k: u16| #[trigger]
        pending(r, k) == if k == e.key {
            Some(e.scheduled_release_time)
        } else {
            pending(s, k)
        } by {
        if k == e.key {
            lemma_key_at(r, p);
        } else if holds_key(s, k) {
            let i = index_of_key(s, k);
            let m = if i < p { i } else { i + 1 };
            assert(r[m] == s[i]);
            lemma_key_at(r, m);
        } else if holds_key(r, k) {
            let j = index_of_key(r, k);
            let a = if j < p { j } else { j - 1 };
            assert(r[j] == s[a]);
            assert(s[a].key == k);
        }
    }
    lemma_key_at(r, p);
    assert(r.remove(p) =~= s);
}

/// Taking a key out keeps the order and the keys apart, and changes what
/// is pending for that key only.
pub proof fn lemma_without_key(s: Seq<BacklogEntry>, key: u16)
    requires
        well_formed(s),
    ensures
        well_formed(without_key(s, key)),
        forall|k: u16| #[trigger]
            pending(without_key(s, key), k) == if k == key {
                None
            } else {
                pending(s, k)
            },
{
    if holds_key(s, key) {
        let p = index_of_key(s, key);
        let r = without_key(s, key);
        s.remove_ensures(p);
        assert forall|i: int| 0 <= i < r.len() implies #[trigger] r[i] == (if i < p {
            s[i]
        } else {
            s[i + 1]
        }) by {}
        assert forall|i: int, j: int| 0 <= i < j < r.len() implies r[i].scheduled_release_time
            <= r[j].scheduled_release_time by {
            let a = if i < p { i } else { i + 1 };
            let b = if j < p { j } else { j + 1 };
            assert(s[a].scheduled_release_time <= s[b].scheduled_release_time);
        }
        assert forall|i: int, j: int| 0 <= i < j < r.len() implies r[i].key != r[j].key by {
            let a = if i < p { i } else { i + 1 };
            let b = if j < p { j } else { j + 1 };
            assert(s[a].key != s[b].key);
        }
        assert forall|k: u16| #[trigger]
            pending(r, k) == if k == key {
                None
            } else {
                pending(s, k)
            } by {
            if holds_key(r, k) {
                let j = index_of_key(r, k);
                let a = if j < p { j } else { j + 1 };
                assert(r[j] == s[a]);
                lemma_key_at(s, a);
                lemma_key_at(s, p);
                lemma_key_at(r, j);
            } else if k != key && holds_key(s, k) {
                let i = index_of_key(s, k);
                let m = if i < p { i } else { i - 1 };
                assert(r[m] == s[i]);
            }
        }
    }
}

/// In a well-formed backlog, dropping the first entry is taking its key out.
pub proof fn lemma_drop_first(s: Seq<BacklogEntry>)
    requires
        distinct_keys(s),
        s.len() > 0,
    ensures
        s.drop_first() == without_key(s, s[0].key),
{
    lemma_key_at(s, 0);
    assert(s.drop_first() =~= s.remove(0));
}

/// The withheld releases, earliest first.
pub struct Backlog {
    entries: Vec<BacklogEntry>,
}

impl View for Backlog {
    type V = Seq<BacklogEntry>;

    closed spec fn view(&self) -> Seq<BacklogEntry> {
        self.entries@
    }
}

impl Backlog {
    /// The entries are in due order and no key occurs twice.
    pub open spec fn wf(&self) -> bool {
        well_formed(self@)
    }

    /// A backlog that withholds nothing.
    pub fn new() -> (b: Backlog)
        ensures
            b@ == Seq::<BacklogEntry>::empty(),
            b.wf(),
    {
        Backlog { entries: Vec::new() }
    }

    /// How many releases are withheld.
    pub fn len(&self) -> (n: usize)
        ensures
            n == self@.len(),
    {
        self.entries.len()
    }

    /// Whether nothing is withheld.
    pub fn is_empty(&self) -> (b: bool)
        ensures
            b == (self@.len() == 0),
    {
        self.entries.len() == 0
    }

    /// The place of the first entry for `key`.
    fn position(&self, key: u16) -> (r: Option<usize>)
        ensures
            match r {
                Some(i) => i < self@.len() && self@[i as int].key == key,
                None => !holds_key(self@, key),
            },
    {
        let mut i: usize = 0;
        while i < self.entries.len()
            invariant
                i <= self.entries@.len(),
                forall|j: int| 0 <= j < i ==> (#[trigger] self.entries@[j]).key != key,
            decreases self.entries@.len() - i,
        {
            if self.entries[i].key == key {
                return Some(i);
            }
            i += 1;
        }
        None
    }

    /// Whether a release of `key` is withheld.
    pub fn contains_key(&self, key: u16) -> (b: bool)
        ensures
            b == holds_key(self@, key),
    {
        self.position(key).is_some()
    }

    /// Puts `entry` in behind the entries that are due no later than it.
    pub fn push(&mut self, entry: BacklogEntry)
        requires
            old(self).wf(),
            !holds_key(old(self)@, entry.key),
        ensures
            final(self)@ == with_entry(old(self)@, entry),
            final(self).wf(),
    {
        let mut i: usize = self.entries.len();
        while i > 0 && self.entries[i - 1].scheduled_release_time > entry.scheduled_release_time
            invariant
                i <= self.entries@.len(),
                self.entries@ == old(self)@,
                forall|j: int|
                    i <= j < self.entries@.len() ==> (
                    #[trigger] self.entries@[j]).scheduled_release_time
                        > entry.scheduled_release_time,
            decreases i,
        {
            i -= 1;
        }
        proof {
            let s = old(self)@;
            assert forall|j: int| 0 <= j < i implies (#[trigger] s[j]).scheduled_release_time
                <= entry.scheduled_release_time by {
                if j < i - 1 {
                    assert(s[j].scheduled_release_time <= s[i - 1].scheduled_release_time);
                }
            }
            assert(is_slot(s, entry.scheduled_release_time, i as int));
            let at = entry.scheduled_release_time;
            lemma_slot_exists(s, at);
            lemma_slot_unique(s, at, i as int, slot_for(s, at));
            lemma_with_entry(s, entry);
        }
        self.entries.insert(i, entry);
    }

    /// Takes out the entry for `key` and returns it, if there is one.
    pub fn remove_by_key(&mut self, key: u16) -> (r: Option<BacklogEntry>)
        requires
            old(self).wf(),
        ensures
            final(self)@ == without_key(old(self)@, key),
            final(self).wf(),
            r == match pending(old(self)@, key) {
                Some(t) => Some(BacklogEntry { key, scheduled_release_time: t }),
                None => None,
            },
    {
        proof {
            lemma_without_key(self@, key);
        }
        match self.position(key) {
            Some(i) => {
                proof {
                    lemma_key_at(self@, i as int);
                }
                let e = self.entries.remove(i);
                Some(e)
            },
            None => None,
        }
    }

    /// The entry that is due first, if any: the first one, and in a
    /// well-formed backlog none is due before it.
    pub fn peek_earliest(&self) -> (r: Option<BacklogEntry>)
        ensures
            r == if self@.len() > 0 {
                Some(self@[0])
            } else {
                None
            },
            self.wf() ==> forall|i: int|
                0 <= i < self@.len() ==> self@[0].scheduled_release_time <= (
                #[trigger] self@[i]).scheduled_release_time,
    {
        proof {
            if self.wf() {
                assert forall|i: int| 0 <= i < self@.len() implies self@[0].scheduled_release_time
                    <= (#[trigger] self@[i]).scheduled_release_time by {
                    lemma_first_is_earliest(self@, i);
                }
            }
        }
        if self.entries.len() > 0 {
            Some(self.entries[0])
        } else {
            None
        }
    }

    /// Takes out the entry that is due first and returns it.
    pub fn pop_earliest(&mut self) -> (e: BacklogEntry)
        requires
            old(self).wf(),
            old(self)@.len() > 0,
        ensures
            e == old(self)@[0],
            final(self)@ == old(self)@.drop_first(),
            final(self).wf(),
    {
        proof {
            lemma_drop_first(self@);
            lemma_without_key(self@, self@[0].key);
            assert(self@.drop_first() =~= self@.remove(0));
        }
        self.entries.remove(0)
    }
}

/// The first entry of a sorted backlog is due no later than any other.
pub proof fn lemma_first_is_earliest(s: Seq<BacklogEntry>, i: int)
    requires
        sorted(s),
        0 <= i < s.len(),
    ensures
        s[0].scheduled_release_time <= s[i].scheduled_release_time,
{
    if i > 0 {
        assert(s[0].scheduled_release_time <= s[i].scheduled_release_time);
    }
}

} // verus!
