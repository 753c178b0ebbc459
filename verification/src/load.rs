//! The counters of pending connections, one for each backend address.
//!
//! A counter belongs to an address, not to a snapshot: it is there whether or
//! not the address is a member at the moment, so a change of the membership
//! never touches a count.

use crate::target::SocketAddress;
use vstd::prelude::*;

verus! {

/// The count of one address.
#[derive(Clone, Copy, Debug)]
pub struct LoadEntry {
    pub identity: SocketAddress,
    pub pending: u64,
}

/// The counters. An address without an entry has the count zero.
#[derive(Debug)]
pub struct PendingLoads {
    entries: Vec<LoadEntry>,
}

/// Whether `entries` has an entry for `identity` at `place`.
pub open spec fn entry_at(entries: Seq<LoadEntry>, identity: SocketAddress, place: int) -> bool {
    0 <= place < entries.len() && entries[place].identity == identity
}

/// The count that `entries` holds for `identity`.
pub open spec fn count_in(entries: Seq<LoadEntry>, identity: SocketAddress) -> nat {
    if exists|place: int| entry_at(entries, identity, place) {
        entries[choose|place: int| entry_at(entries, identity, place)].pending as nat
    } else {
        0
    }
}

/// Whether no address has two entries.
pub open spec fn one_entry_each(entries: Seq<LoadEntry>) -> bool {
    forall|i: int, j: int|
        0 <= i < j < entries.len() ==> (#[trigger] entries[i]).identity != (
        #[trigger] entries[j]).identity
}

/// With one entry for each address, the entry at a place gives the count of
/// its address.
pub proof fn lemma_count_at(entries: Seq<LoadEntry>, place: int)
    requires
        one_entry_each(entries),
        0 <= place < entries.len(),
    ensures
        count_in(entries, entries[place].identity) == entries[place].pending,
{
    assert(entry_at(entries, entries[place].identity, place));
}

impl PendingLoads {
    /// The count of `identity`.
    pub closed spec fn pending(&self, identity: SocketAddress) -> nat {
        count_in(self.entries@, identity)
    }

    /// What holds of every table of counters: no address has two entries.
    pub closed spec fn well_formed(&self) -> bool {
        one_entry_each(self.entries@)
    }

    /// Counters that are all zero.
    pub fn new() -> (loads: PendingLoads)
        ensures
            loads.well_formed(),
            forall|identity: SocketAddress| loads.pending(identity) == 0,
    {
        PendingLoads { entries: Vec::new() }
    }

    fn find(&self, identity: SocketAddress) -> (place: Option<usize>)
        ensures
            match place {
                Some(i) => entry_at(self.entries@, identity, i as int),
                None => forall|k: int| !entry_at(self.entries@, identity, k),
            },
    {
        let mut i: usize = 0;
        while i < self.entries.len()
            invariant
                i <= self.entries.len(),
                forall|k: int| 0 <= k < i ==> !entry_at(self.entries@, identity, k),
            decreases self.entries.len() - i,
        {
            if self.entries[i].identity == identity {
                return Some(i);
            }
            i += 1;
        }
        None
    }

    pub fn get(&self, identity: SocketAddress) -> (count: u64)
        requires
            self.well_formed(),
        ensures
            count == self.pending(identity),
    {
        match self.find(identity) {
            Some(i) => {
                proof {
                    lemma_count_at(self.entries@, i as int);
                }
                self.entries[i].pending
            },
            None => 0,
        }
    }

    /// Counts one more for `identity`.
    pub fn increment(&mut self, identity: SocketAddress)
        requires
            old(self).well_formed(),
            old(self).pending(identity) < u64::MAX,
        ensures
            final(self).well_formed(),
            forall|other: SocketAddress|
                #[trigger] final(self).pending(other) == old(self).pending(other) + (if other
                    == identity {
                    1nat
                } else {
                    0nat
                }),
    {
        let ghost before = self.entries@;
        match self.find(identity) {
            Some(i) => {
                proof {
                    lemma_count_at(before, i as int);
                }
                let entry = self.entries[i];
                self.entries.set(i, LoadEntry { identity, pending: entry.pending + 1 });
                proof {
                    let after = self.entries@;
                    assert forall|other: SocketAddress|
                        count_in(after, other) == count_in(before, other) + (if other == identity {
                            1nat
                        } else {
                            0nat
                        }) by {
                        assert forall|k: int|
                            entry_at(after, other, k) == entry_at(before, other, k) by {}
                        if other == identity {
                            lemma_count_at(after, i as int);
                        } else if exists|k: int| entry_at(before, other, k) {
                            let k = choose|k: int| entry_at(before, other, k);
                            assert(entry_at(after, other, k));
                            lemma_count_at(before, k);
                            lemma_count_at(after, k);
                        }
                    }
                }
            },
            None => {
                self.entries.push(LoadEntry { identity, pending: 1 });
                proof {
                    let after = self.entries@;
                    let last = after.len() - 1;
                    assert(one_entry_each(after)) by {
                        assert forall|i: int, j: int| 0 <= i < j < after.len() implies (
                        #[trigger] after[i]).identity != (#[trigger] after[j]).identity by {
                            if j == last {
                                assert(!entry_at(before, identity, i));
                            } else {
                                assert(before[i] == after[i] && before[j] == after[j]);
                            }
                        }
                    }
                    assert forall|other: SocketAddress|
                        count_in(after, other) == count_in(before, other) + (if other == identity {
                            1nat
                        } else {
                            0nat
                        }) by {
                        if other == identity {
                            lemma_count_at(after, last);
                        } else if exists|k: int| entry_at(before, other, k) {
                            let k = choose|k: int| entry_at(before, other, k);
                            assert(entry_at(after, other, k));
                            lemma_count_at(before, k);
                            lemma_count_at(after, k);
                        } else {
                            assert forall|k: int| !entry_at(after, other, k) by {
                                if 0 <= k < before.len() {
                                    assert(!entry_at(before, other, k));
                                }
                            }
                        }
                    }
                }
            },
        }
    }

    /// Counts one less for `identity`; a count of zero stays.
    pub fn decrement(&mut self, identity: SocketAddress)
        requires
            old(self).well_formed(),
        ensures
            final(self).well_formed(),
            forall|other: SocketAddress|
                #[trigger] final(self).pending(other) == (if other == identity && old(
                    self,
                ).pending(other) > 0 {
                    (old(self).pending(other) - 1) as nat
                } else {
                    old(self).pending(other)
                }),
    {
        let ghost before = self.entries@;
        match self.find(identity) {
            Some(i) => {
                proof {
                    lemma_count_at(before, i as int);
                }
                let entry = self.entries[i];
                if entry.pending > 0 {
                    self.entries.set(i, LoadEntry { identity, pending: entry.pending - 1 });
                }
                proof {
                    let after = self.entries@;
                    assert forall|other: SocketAddress|
                        count_in(after, other) == (if other == identity && count_in(before, other)
                            > 0 {
                            (count_in(before, other) - 1) as nat
                        } else {
                            count_in(before, other)
                        }) by {
                        assert forall|k: int|
                            entry_at(after, other, k) == entry_at(before, other, k) by {}
                        if other == identity {
                            lemma_count_at(after, i as int);
                        } else if exists|k: int| entry_at(before, other, k) {
                            let k = choose|k: int| entry_at(before, other, k);
                            assert(entry_at(after, other, k));
                            lemma_count_at(before, k);
                            lemma_count_at(after, k);
                        }
                    }
                }
            },
            None => {},
        }
    }
}

} // verus!
