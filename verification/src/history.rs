//! The time of each key's last press.

use vstd::prelude::*;

verus! {

/// Number of key identifiers that the default table covers.
pub const KEY_CAPACITY: usize = 0x2e7;

/// For each key below the capacity, when it was last pressed, if ever.
pub struct PressHistory {
    times: Vec<Option<u64>>,
}

impl View for PressHistory {
    type V = Seq<Option<u64>>;

    closed spec fn view(&self) -> Seq<Option<u64>> {
        self.times@
    }
}

/// The instant that stands for "never pressed": the epoch.
pub open spec fn spec_press_time(slot: Option<u64>) -> u64 {
    match slot {
        Some(t) => t,
        None => 0,
    }
}

impl PressHistory {
    /// A table for the keys `0 .. capacity`, none of them pressed yet.
    pub fn new(capacity: usize) -> (h: PressHistory)
        ensures
            h@.len() == capacity,
            forall|k: int| 0 <= k < capacity ==> h@[k] == None::<u64>,
    {
        let mut times: Vec<Option<u64>> = Vec::new();
        let mut i: usize = 0;
        while i < capacity
            invariant
                i <= capacity,
                times@.len() == i,
                forall|k: int| 0 <= k < i ==> times@[k] == None::<u64>,
            decreases capacity - i,
        {
            times.push(None);
            i += 1;
        }
        PressHistory { times }
    }

    /// How many keys the table covers.
    pub fn capacity(&self) -> (n: usize)
        ensures
            n == self@.len(),
    {
        self.times.len()
    }

    /// Whether the table covers `key`.
    pub fn covers(&self, key: u16) -> (b: bool)
        ensures
            b == (key < self@.len()),
    {
        (key as usize) < self.times.len()
    }

    /// Overwrites the time stored for `key`.
    pub fn record_press(&mut self, key: u16, time: u64)
        requires
            key < old(self)@.len(),
        ensures
            final(self)@ == old(self)@.update(key as int, Some(time)),
    {
        self.times[key as usize] = Some(time);
    }

    /// The stored press of `key`, `None` while there was none.
    pub fn lookup(&self, key: u16) -> (slot: Option<u64>)
        requires
            key < self@.len(),
        ensures
            slot == self@[key as int],
    {
        self.times[key as usize]
    }

    /// When `key` was last pressed; the epoch while it never was.
    pub fn last_press(&self, key: u16) -> (t: u64)
        requires
            key < self@.len(),
        ensures
            t == spec_press_time(self@[key as int]),
    {
        match self.times[key as usize] {
            Some(t) => t,
            None => 0,
        }
    }
}

} // verus!
