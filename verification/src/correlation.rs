//! The table of pending requests, keyed by sequence number.
//!
//! Each entry holds the completion slot of one query that waits for its response.
//! An entry leaves the table exactly once: when its response comes, when its caller
//! gives up, when a later query takes its sequence number, or when the connection
//! closes.

use crate::search::{
    distinct, first_index, lemma_first_index, lemma_first_index_is, lemma_first_index_push,
    lemma_first_index_remove,
};
use crate::wire::words_view;
use vstd::prelude::*;

verus! {

/// One query that waits for its response.
#[derive(Debug)]
pub struct Pending<S> {
    sequence: u32,
    query: Vec<Vec<u8>>,
    slot: S,
}

/// A pending request as a mathematical value.
pub struct PendingView<S> {
    pub sequence: u32,
    /// The words that were sent.
    pub query: Seq<Seq<u8>>,
    /// The completion slot of the caller.
    pub slot: S,
}

/// The pending requests of one connection.
#[derive(Debug)]
pub struct PendingTable<S> {
    entries: Vec<Pending<S>>,
}

impl<S> View for Pending<S> {
    type V = PendingView<S>;

    closed spec fn view(&self) -> PendingView<S> {
        PendingView { sequence: self.sequence, query: words_view(self.query@), slot: self.slot }
    }
}

/// The sequence numbers of the entries, in order.
pub open spec fn sequences_of<S>(entries: Seq<PendingView<S>>) -> Seq<u32> {
    Seq::new(entries.len(), |i: int| entries[i].sequence)
}

/// The completion slots of the entries, in order.
pub open spec fn slots_of<S>(entries: Seq<PendingView<S>>) -> Seq<S> {
    Seq::new(entries.len(), |i: int| entries[i].slot)
}

/// No sequence number occurs twice.
pub open spec fn distinct_sequences<S>(entries: Seq<PendingView<S>>) -> bool {
    distinct(sequences_of(entries))
}

/// Where the entry for `sequence` stands; the number of entries if there is none.
pub open spec fn position<S>(entries: Seq<PendingView<S>>, sequence: u32) -> nat {
    first_index(sequences_of(entries), sequence)
}

/// The entry for `sequence`, if there is one.
pub open spec fn lookup<S>(entries: Seq<PendingView<S>>, sequence: u32) -> Option<PendingView<S>> {
    if position(entries, sequence) < entries.len() {
        Some(entries[position(entries, sequence) as int])
    } else {
        None
    }
}

/// The entries without the one for `sequence`.
pub open spec fn without<S>(entries: Seq<PendingView<S>>, sequence: u32) -> Seq<PendingView<S>> {
    if position(entries, sequence) < entries.len() {
        entries.remove(position(entries, sequence) as int)
    } else {
        entries
    }
}

/// Taking out the entry for one sequence number leaves no entry for it, and leaves
/// the entry of every other sequence number as it was.
pub proof fn lemma_without<S>(entries: Seq<PendingView<S>>, sequence: u32, other: u32)
    requires
        distinct_sequences(entries),
    ensures
        distinct_sequences(without(entries, sequence)),
        lookup(without(entries, sequence), sequence) is None,
        other != sequence ==> lookup(without(entries, sequence), other) == lookup(entries, other),
        without(entries, sequence).len() == if lookup(entries, sequence) is Some {
            entries.len() - 1
        } else {
            entries.len() as int
        },
{
    let keys = sequences_of(entries);
    let at = position(entries, sequence) as int;
    let rest = without(entries, sequence);
    lemma_first_index(keys, sequence);
    lemma_first_index(keys, other);
    if at < entries.len() {
        assert(sequences_of(rest) =~= keys.remove(at));
        lemma_first_index_remove(keys, at, sequence);
        lemma_first_index_remove(keys, at, other);
        assert forall|i: int, j: int| 0 <= i < j < rest.len() implies rest[i].sequence
            != rest[j].sequence by {
            assert(sequences_of(rest)[i] != sequences_of(rest)[j]);
        }
    }
}

/// A new entry at the end is found under its own sequence number, where that number
/// was free, and changes the entry of no other.
pub proof fn lemma_push<S>(entries: Seq<PendingView<S>>, entry: PendingView<S>, other: u32)
    requires
        distinct_sequences(entries),
        lookup(entries, entry.sequence) is None,
    ensures
        distinct_sequences(entries.push(entry)),
        lookup(entries.push(entry), entry.sequence) == Some(entry),
        other != entry.sequence ==> lookup(entries.push(entry), other) == lookup(entries, other),
{
    let keys = sequences_of(entries);
    let longer = entries.push(entry);
    lemma_first_index(keys, entry.sequence);
    lemma_first_index(keys, other);
    assert(sequences_of(longer) =~= keys.push(entry.sequence));
    lemma_first_index_push(keys, entry.sequence, entry.sequence);
    lemma_first_index_push(keys, entry.sequence, other);
    assert forall|i: int, j: int| 0 <= i < j < longer.len() implies longer[i].sequence
        != longer[j].sequence by {
        assert(keys[i] != entry.sequence);
        if j < entries.len() {
            assert(keys[i] != keys[j]);
        }
    }
}

/// The entries as mathematical values.
pub closed spec fn entries_view<S>(entries: Seq<Pending<S>>) -> Seq<PendingView<S>> {
    Seq::new(entries.len(), |i: int| entries[i]@)
}

impl<S> View for PendingTable<S> {
    type V = Seq<PendingView<S>>;

    closed spec fn view(&self) -> Seq<PendingView<S>> {
        entries_view(self.entries@)
    }
}

impl<S> PendingTable<S> {
    /// No two entries have the same sequence number.
    #[verifier::type_invariant]
    pub open spec fn well_formed(self) -> bool {
        distinct_sequences(self@)
    }

    /// A table without entries.
    pub fn new() -> (table: PendingTable<S>)
        ensures
            table@.len() == 0,
    {
        PendingTable { entries: Vec::new() }
    }

    /// How many requests are pending.
    pub fn len(&self) -> (count: usize)
        ensures
            count == self@.len(),
            distinct_sequences(self@),
    {
        proof {
            use_type_invariant(self);
        }
        self.entries.len()
    }

    /// Where the entry for `sequence` stands.
    fn find(&self, sequence: u32) -> (at: usize)
        ensures
            at == position(self@, sequence),
            at <= self.entries@.len(),
            distinct_sequences(self@),
    {
        proof {
            use_type_invariant(self);
        }
        let ghost keys = sequences_of(self@);
        let mut at: usize = 0;
        while at < self.entries.len()
            invariant
                at <= self.entries@.len(),
                distinct_sequences(self@),
                keys == sequences_of(self@),
                forall|i: int| 0 <= i < at ==> keys[i] != sequence,
            decreases self.entries@.len() - at,
        {
            if self.entries[at].sequence == sequence {
                proof {
                    lemma_first_index_is(keys, sequence, at as int);
                }
                return at;
            }
            at = at + 1;
        }
        proof {
            lemma_first_index_is(keys, sequence, at as int);
        }
        at
    }

    /// Whether a request with this sequence number is pending.
    pub fn contains(&self, sequence: u32) -> (found: bool)
        ensures
            found == (lookup(self@, sequence) is Some),
    {
        self.find(sequence) < self.entries.len()
    }

    /// Takes the entries out, to work on them, and leaves none behind.
    fn take_entries(&mut self) -> (taken: Vec<Pending<S>>)
        ensures
            entries_view(taken@) == old(self)@,
            final(self)@.len() == 0,
            distinct_sequences(old(self)@),
    {
        proof {
            use_type_invariant(&*self);
        }
        let mut taken: Vec<Pending<S>> = Vec::new();
        core::mem::swap(&mut self.entries, &mut taken);
        taken
    }

    /// Takes out the entry for `sequence`, if there is one, and gives its query and
    /// slot.
    pub fn remove(&mut self, sequence: u32) -> (removed: Option<(Vec<Vec<u8>>, S)>)
        ensures
            final(self)@ == without(old(self)@, sequence),
            distinct_sequences(old(self)@),
            distinct_sequences(final(self)@),
            match removed {
                Some((query, slot)) => lookup(old(self)@, sequence) == Some(
                    PendingView { sequence, query: words_view(query@), slot },
                ),
                None => lookup(old(self)@, sequence) is None,
            },
    {
        let at = self.find(sequence);
        let ghost before = self@;
        proof {
            lemma_without(before, sequence, sequence);
            lemma_first_index(sequences_of(before), sequence);
        }
        if at >= self.entries.len() {
            return None;
        }
        let mut entries = self.take_entries();
        let entry = entries.remove(at);
        proof {
            assert(entries_view(entries@) =~= before.remove(at as int));
            assert(sequences_of(before)[at as int] == sequence);
        }
        self.entries = entries;
        Some((entry.query, entry.slot))
    }

    /// Puts in an entry for `sequence`. An entry that was there under the same
    /// number leaves the table, and its slot is given back.
    pub fn insert(&mut self, sequence: u32, query: Vec<Vec<u8>>, slot: S) -> (displaced: Option<S>)
        ensures
            final(self)@ == without(old(self)@, sequence).push(
                PendingView { sequence, query: words_view(query@), slot },
            ),
            distinct_sequences(old(self)@),
            distinct_sequences(final(self)@),
            match displaced {
                Some(old_slot) => lookup(old(self)@, sequence) matches Some(entry) && entry.slot
                    == old_slot,
                None => lookup(old(self)@, sequence) is None,
            },
    {
        let ghost before = self@;
        let displaced = match self.remove(sequence) {
            Some((_, old_slot)) => Some(old_slot),
            None => None,
        };
        let ghost rest = self@;
        let entry = Pending { sequence, query, slot };
        proof {
            lemma_without(before, sequence, sequence);
            lemma_push(rest, entry@, sequence);
        }
        let mut entries = self.take_entries();
        entries.push(entry);
        proof {
            assert(entries_view(entries@) =~= rest.push(entry@));
        }
        self.entries = entries;
        displaced
    }

    /// Takes out every entry and gives the slots, one for each entry, in the order
    /// of the entries.
    pub fn drain(&mut self) -> (slots: Vec<S>)
        ensures
            slots@ == slots_of(old(self)@),
            final(self)@.len() == 0,
    {
        let ghost before = self@;
        let mut entries = self.take_entries();
        let mut slots: Vec<S> = Vec::new();
        while entries.len() > 0
            invariant
                entries@.len() <= before.len(),
                slots@.len() + entries@.len() == before.len(),
                forall|i: int| 0 <= i < slots@.len() ==> slots@[i] == before[i].slot,
                forall|i: int|
                    0 <= i < entries@.len() ==> (#[trigger] entries@[i])@ == before[slots@.len()
                        + i],
            decreases entries@.len(),
        {
            let ghost done = slots@.len();
            let ghost left = entries@;
            let entry = entries.remove(0);
            assert(entry@ == before[done as int]);
            assert forall|i: int| 0 <= i < entries@.len() implies (#[trigger] entries@[i])@
                == before[done + 1 + i] by {
                assert(entries@[i] == left[i + 1]);
            }
            slots.push(entry.slot);
        }
        assert(slots@ =~= slots_of(before));
        slots
    }
}

} // verus!
