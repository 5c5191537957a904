use vstd::prelude::*;
use vstd::bytes::lemma_auto_spec_u64_to_from_le_bytes;
use vstd::bytes::spec_u64_from_le_bytes;
use vstd::bytes::spec_u64_to_le_bytes;
use vstd::bytes::u64_from_le_bytes;
use vstd::bytes::u64_to_le_bytes;
use vstd::slice::slice_subrange;

use crate::error::Error;

verus! {

/// An account on the host chain, reduced to the identity that the lifecycle
/// rules compare.
pub type AccountId = u64;

/// The ledger (collection contract) that holds a token of record.
pub type LedgerId = u64;

/// A token's identifier on its ledger.
pub type TokenId = u64;

/// One token placed under timed lifecycle management.
///
/// `index` is the registry-assigned identifier; it equals the slot the entry
/// occupies and is never reused. `burnt` is a one-way flag: the sweep sets it
/// and nothing clears it.
#[derive(Clone, Copy, Debug, PartialEq, Eq, Structural)]
pub struct ScheduledEntry {
    /// Registry-assigned identifier, unique and strictly increasing.
    pub index: u64,
    /// Timestamp after which the entry is eligible for the sweep-burn.
    pub expiry: u64,
    /// The ledger that holds the token of record.
    pub ledger: LedgerId,
    /// The token's identifier on that ledger.
    pub token_id: TokenId,
    /// Whether the sweep has already burnt the underlying token.
    pub burnt: bool,
}

/// The persisted form of an entry: the four scalars little-endian, then one
/// flag byte.
pub open spec fn entry_bytes(e: ScheduledEntry) -> Seq<u8> {
    spec_u64_to_le_bytes(e.index) + spec_u64_to_le_bytes(e.expiry) + spec_u64_to_le_bytes(e.ledger)
        + spec_u64_to_le_bytes(e.token_id) + seq![if e.burnt { 1u8 } else { 0u8 }]
}

/// Whether a byte string is the persisted form of some entry.
pub open spec fn wf_entry_bytes(s: Seq<u8>) -> bool {
    s.len() == 33 && (s[32] == 0 || s[32] == 1)
}

/// The entry a well-formed byte string persists.
pub open spec fn entry_of_bytes(s: Seq<u8>) -> ScheduledEntry
    recommends
        wf_entry_bytes(s),
{
    ScheduledEntry {
        index: spec_u64_from_le_bytes(s.subrange(0, 8)),
        expiry: spec_u64_from_le_bytes(s.subrange(8, 16)),
        ledger: spec_u64_from_le_bytes(s.subrange(16, 24)),
        token_id: spec_u64_from_le_bytes(s.subrange(24, 32)),
        burnt: s[32] == 1,
    }
}

/// Persistence round-trip fidelity: an entry survives encoding and decoding
/// unchanged, and a well-formed byte string survives decoding and encoding
/// unchanged.
pub proof fn lemma_entry_bytes_roundtrip(e: ScheduledEntry, s: Seq<u8>)
    requires
        wf_entry_bytes(s),
    ensures
        wf_entry_bytes(entry_bytes(e)),
        entry_of_bytes(entry_bytes(e)) == e,
        entry_bytes(entry_of_bytes(s)) == s,
{
    lemma_auto_spec_u64_to_from_le_bytes();
    let b = entry_bytes(e);
    assert(b.subrange(0, 8) =~= spec_u64_to_le_bytes(e.index));
    assert(b.subrange(8, 16) =~= spec_u64_to_le_bytes(e.expiry));
    assert(b.subrange(16, 24) =~= spec_u64_to_le_bytes(e.ledger));
    assert(b.subrange(24, 32) =~= spec_u64_to_le_bytes(e.token_id));
    assert(b[32] == (if e.burnt { 1u8 } else { 0u8 }));
    assert(spec_u64_to_le_bytes(spec_u64_from_le_bytes(s.subrange(0, 8))) == s.subrange(0, 8));
    assert(spec_u64_to_le_bytes(spec_u64_from_le_bytes(s.subrange(8, 16))) == s.subrange(8, 16));
    assert(spec_u64_to_le_bytes(spec_u64_from_le_bytes(s.subrange(16, 24))) == s.subrange(16, 24));
    assert(spec_u64_to_le_bytes(spec_u64_from_le_bytes(s.subrange(24, 32))) == s.subrange(24, 32));
    assert(entry_bytes(entry_of_bytes(s)) =~= s);
}

/// Persists one entry: 33 bytes, round-trip faithful.
pub fn encode_entry(e: &ScheduledEntry) -> (r: Vec<u8>)
    ensures
        r@ == entry_bytes(*e),
{
    let mut out = u64_to_le_bytes(e.index);
    let mut expiry = u64_to_le_bytes(e.expiry);
    out.append(&mut expiry);
    let mut ledger = u64_to_le_bytes(e.ledger);
    out.append(&mut ledger);
    let mut token_id = u64_to_le_bytes(e.token_id);
    out.append(&mut token_id);
    out.push(if e.burnt {
        1
    } else {
        0
    });
    proof {
        assert(out@ =~= entry_bytes(*e));
    }
    out
}

/// Reads one persisted entry back. Succeeds exactly on the byte strings the
/// encoder can produce; anything else is a storage inconsistency.
pub fn decode_entry(bytes: &Vec<u8>) -> (r: Result<ScheduledEntry, Error>)
    ensures
        match r {
            Ok(e) => wf_entry_bytes(bytes@) && e == entry_of_bytes(bytes@),
            Err(er) => !wf_entry_bytes(bytes@) && er == Error::FatalError,
        },
{
    if bytes.len() != 33 {
        return Err(Error::FatalError);
    }
    let flag = bytes[32];
    if flag != 0 && flag != 1 {
        return Err(Error::FatalError);
    }
    let s = bytes.as_slice();
    let index = u64_from_le_bytes(slice_subrange(s, 0, 8));
    let expiry = u64_from_le_bytes(slice_subrange(s, 8, 16));
    let ledger = u64_from_le_bytes(slice_subrange(s, 16, 24));
    let token_id = u64_from_le_bytes(slice_subrange(s, 24, 32));
    Ok(ScheduledEntry { index, expiry, ledger, token_id, burnt: flag == 1 })
}

/// The append-only, index-addressed store of scheduled entries plus the
/// monotonic counter that assigns indices.
///
/// A slot may be empty: a creation step that fails after index allocation
/// leaves its index permanently unused. No entry is ever deleted.
pub struct Registry {
    entries: Vec<Option<ScheduledEntry>>,
    next_index: u64,
}

impl Registry {
    /// The slots in allocation order; slot `k` holds the entry with index `k`
    /// or nothing.
    pub closed spec fn entries(self) -> Seq<Option<ScheduledEntry>> {
        self.entries@
    }

    /// The next index the counter will assign.
    pub closed spec fn next(self) -> u64 {
        self.next_index
    }

    /// Every stored entry sits in the slot named by its own index, and only
    /// allocated indices have slots.
    pub open spec fn wf(self) -> bool {
        &&& self.entries().len() <= self.next()
        &&& forall|k: int|
            0 <= k < self.entries().len() && self.entries()[k] is Some
                ==> (#[trigger] self.entries()[k])->Some_0.index == k
    }

    /// A fresh registry: counter at zero, no entries.
    pub fn new() -> (r: Registry)
        ensures
            r.wf(),
            r.next() == 0,
            r.entries() =~= Seq::<Option<ScheduledEntry>>::empty(),
    {
        Registry { entries: Vec::new(), next_index: 0 }
    }

    /// Returns the current counter value and increments the counter. Each
    /// call yields a fresh index; no index is ever handed out twice.
    pub fn allocate_index(&mut self) -> (index: u64)
        requires
            old(self).next() < u64::MAX,
        ensures
            index == old(self).next(),
            final(self).next() == old(self).next() + 1,
            final(self).entries() == old(self).entries(),
            old(self).wf() ==> final(self).wf(),
    {
        let index = self.next_index;
        self.next_index = self.next_index + 1;
        index
    }

    /// Inserts or overwrites the entry at `index`, which must already be
    /// allocated. Slots between the old end and `index` stay empty.
    pub fn put(&mut self, index: u64, entry: ScheduledEntry)
        requires
            index < old(self).next(),
            entry.index == index,
        ensures
            final(self).next() == old(self).next(),
            final(self).entries().len() == vstd::math::max(
                old(self).entries().len() as int,
                index + 1,
            ),
            final(self).entries()[index as int] == Some(entry),
            forall|k: int|
                0 <= k < final(self).entries().len() && k != index
                    ==> #[trigger] final(self).entries()[k] == (if k
                    < old(self).entries().len() {
                    old(self).entries()[k]
                } else {
                    None::<ScheduledEntry>
                }),
            old(self).wf() ==> final(self).wf(),
    {
        while (self.entries.len() as u64) <= index
            invariant
                index < self.next_index,
                self.entries@.len() <= vstd::math::max(old(self).entries().len() as int, index + 1),
                self.next_index == old(self).next(),
                forall|k: int|
                    0 <= k < old(self).entries().len() ==> #[trigger] self.entries@[k] == old(
                        self,
                    ).entries()[k],
                forall|k: int|
                    old(self).entries().len() <= k < self.entries@.len()
                        ==> #[trigger] self.entries@[k] is None,
                old(self).entries().len() <= self.entries@.len(),
            decreases index + 1 - self.entries@.len(),
        {
            self.entries.push(None);
        }
        self.entries.set(index as usize, Some(entry));
    }

    /// Looks the entry at `index` up; an absent index is a valid, non-fatal
    /// outcome.
    pub fn get(&self, index: u64) -> (r: Option<ScheduledEntry>)
        ensures
            r == (if index < self.entries().len() {
                self.entries()[index as int]
            } else {
                None::<ScheduledEntry>
            }),
    {
        if index < self.entries.len() as u64 {
            self.entries[index as usize]
        } else {
            None
        }
    }

    /// The next index the counter will assign, as a value.
    pub fn counter(&self) -> (n: u64)
        ensures
            n == self.next(),
    {
        self.next_index
    }

    /// The number of slots the registry has materialised so far.
    pub fn len(&self) -> (n: usize)
        ensures
            n == self.entries().len(),
    {
        self.entries.len()
    }

    /// The occupied slots of `s` whose index lies in `[lo, hi)`, in ascending
    /// index order.
    pub open spec fn scan_spec(s: Seq<Option<ScheduledEntry>>, lo: int, hi: int) -> Seq<
        (u64, ScheduledEntry),
    >
        decreases hi - lo,
    {
        if lo >= hi {
            Seq::empty()
        } else {
            Self::scan_spec(s, lo, hi - 1) + (if 0 <= hi - 1 < s.len() && s[hi - 1] is Some {
                seq![((hi - 1) as u64, s[hi - 1]->Some_0)]
            } else {
                Seq::empty()
            })
        }
    }

    /// Enumerates the entries with index in `[lo, hi)` in ascending order.
    /// The scan is restartable: it reads nothing but the slots it reports.
    pub fn scan(&self, lo: u64, hi: u64) -> (r: Vec<(u64, ScheduledEntry)>)
        requires
            lo <= hi,
        ensures
            r@ == Self::scan_spec(self.entries(), lo as int, hi as int),
    {
        let mut out: Vec<(u64, ScheduledEntry)> = Vec::new();
        let mut i = lo;
        proof {
            assert(out@ =~= Self::scan_spec(self.entries(), lo as int, lo as int));
        }
        while i < hi
            invariant
                lo <= i <= hi,
                out@ == Self::scan_spec(self.entries(), lo as int, i as int),
            decreases hi - i,
        {
            if i < self.entries.len() as u64 {
                match self.entries[i as usize] {
                    Some(entry) => {
                        out.push((i, entry));
                    },
                    None => {},
                }
            }
            proof {
                assert(out@ =~= Self::scan_spec(self.entries(), lo as int, i + 1 as int));
            }
            i = i + 1;
        }
        out
    }
}

} // verus!
