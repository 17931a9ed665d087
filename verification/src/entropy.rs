//! Source diversity of one window: who sent how much, and the exact quantities
//! from which the normalized Shannon entropy of the window is computed.
//!
//! The normalized entropy of a window of `n` packets from `u` sources, of which
//! source `i` sent `c_i`, is
//!
//! ```text
//! H = -(c_1/n * log2(c_1/n) + ... + c_u/n * log2(c_u/n)) / log2(u)
//! ```
//!
//! a number between 0 (one source sent everything) and 1 (all sources sent
//! equally much). The counts, `n` and `u` are computed here; the logarithms are
//! the caller's. What can be said exactly of the value is proved in
//! [`crate::entropy_laws`].
use vstd::prelude::*;

use crate::address::AddressIndex;
use crate::address::IpAddr;
use crate::tally;

verus! {

/// Packets below which the entropy of a window says little.
pub const MIN_PACKETS_FOR_ENTROPY: usize = 20;

/// Packet counts by source.
#[derive(Debug)]
pub struct SourceCounts {
    index: AddressIndex,
    counts: Vec<u32>,
}

impl View for SourceCounts {
    type V = tally::Tally<IpAddr>;

    closed spec fn view(&self) -> tally::Tally<IpAddr> {
        Seq::new(self.index@.len(), |i: int| (self.index@[i], self.counts@[i] as nat))
    }
}

impl SourceCounts {
    /// The index is sound and there is one count for each of its addresses.
    pub closed spec fn wf(&self) -> bool {
        self.index.wf() && self.counts@.len() == self.index@.len()
    }

    /// No source is listed twice, and each count fits its type.
    pub proof fn lemma_distinct(&self)
        requires
            self.wf(),
        ensures
            tally::distinct(self@),
            forall|i: int| 0 <= i < self@.len() ==> (#[trigger] self@[i]).1 <= u32::MAX,
    {
        self.index.lemma_no_duplicates();
    }

    /// No source at all.
    pub fn new() -> (counts: SourceCounts)
        ensures
            counts.wf(),
            counts@ == tally::Tally::<IpAddr>::empty(),
    {
        let counts = SourceCounts { index: AddressIndex::new(), counts: Vec::new() };
        assert(counts@ =~= tally::Tally::<IpAddr>::empty());
        counts
    }

    /// The number of different sources.
    pub fn len(&self) -> (n: usize)
        ensures
            n == self@.len(),
    {
        self.index.len()
    }

    /// The address and the count of an entry.
    pub fn entry(&self, i: usize) -> (entry: (IpAddr, u32))
        requires
            self.wf(),
            i < self@.len(),
        ensures
            entry.0 == self@[i as int].0,
            entry.1 == self@[i as int].1,
    {
        (self.index.address(i), self.counts[i])
    }

    /// The count of a source: 0 if it is not listed.
    pub fn count(&self, ip: IpAddr) -> (count: u32)
        requires
            self.wf(),
        ensures
            count == tally::count_of(self@, ip),
    {
        proof {
            self.lemma_distinct();
        }
        match self.index.find(ip) {
            Some(i) => {
                proof {
                    tally::lemma_slot_is(self@, i as int);
                }
                self.counts[i]
            },
            None => {
                assert forall|i: int| 0 <= i < self@.len() implies (#[trigger] self@[i]).0
                    != ip by {
                    assert(self.index@[i] != ip);
                }
                0
            },
        }
    }

    /// Sets the count of a source.
    pub fn insert(&mut self, ip: IpAddr, count: u32)
        requires
            old(self).wf(),
        ensures
            final(self).wf(),
            final(self)@ == tally::with_count(old(self)@, ip, count as nat),
    {
        let ghost before = self@;
        proof {
            self.lemma_distinct();
        }
        let known: usize = self.index.len();
        let ghost addresses = self.index@;
        let i: usize = self.index.intern(ip);
        if i < known {
            proof {
                assert(before[i as int].0 == addresses[i as int]);
                if !addresses.contains(ip) {
                    assert(self.index@ == addresses.push(ip));
                    assert(self.index@[i as int] == addresses[i as int]);
                }
                tally::lemma_slot_is(before, i as int);
            }
            self.counts[i] = count;
        } else {
            proof {
                assert(!addresses.contains(ip));
                assert forall|j: int| 0 <= j < before.len() implies (#[trigger] before[j]).0
                    != ip by {
                    assert(addresses[j] != ip);
                }
            }
            self.counts.push(count);
        }
        assert(self@ =~= tally::with_count(before, ip, count as nat));
    }

    /// Counts one packet from a source.
    pub fn increment(&mut self, ip: IpAddr)
        requires
            old(self).wf(),
            tally::count_of(old(self)@, ip) < u32::MAX,
        ensures
            final(self).wf(),
            final(self)@ == tally::with_packet(old(self)@, ip),
    {
        let count: u32 = self.count(ip);
        self.insert(ip, count + 1);
    }

    /// The source with the largest count, the first of them if there are
    /// several; none if nothing is listed.
    pub fn busiest(&self) -> (entry: Option<(IpAddr, u32)>)
        requires
            self.wf(),
        ensures
            match entry {
                Some(e) => exists|i: int| #[trigger]
                    tally::is_busiest(self@, i) && e.0 == self@[i].0 && e.1 == self@[i].1,
                None => self@.len() == 0,
            },
    {
        let n: usize = self.len();
        if n == 0 {
            return None;
        }
        let mut best: usize = 0;
        let mut i: usize = 1;
        while i < n
            invariant
                self.wf(),
                n == self@.len(),
                1 <= i <= n,
                best < i,
                forall|j: int| 0 <= j < i ==> (#[trigger] self@[j]).1 <= self@[best as int].1,
                forall|j: int| 0 <= j < best ==> (#[trigger] self@[j]).1 < self@[best as int].1,
            decreases n - i,
        {
            if self.counts[i] > self.counts[best] {
                assert(self@[i as int].1 > self@[best as int].1);
                best = i;
            } else {
                assert(self@[i as int].1 <= self@[best as int].1);
            }
            i = i + 1;
        }
        assert(tally::is_busiest(self@, best as int));
        Some(self.entry(best))
    }

    /// Forgets every source.
    pub fn clear(&mut self)
        ensures
            final(self).wf(),
            final(self)@ == tally::Tally::<IpAddr>::empty(),
    {
        self.index.clear();
        self.counts.clear();
        assert(self@ =~= tally::Tally::<IpAddr>::empty());
    }
}

/// The counts from which the entropy of a window is computed.
#[derive(Debug)]
pub struct EntropyTerms {
    /// The packets of each source that sent any.
    pub counts: Vec<u32>,
    /// All packets of the window.
    pub total: usize,
    /// The number of different sources.
    pub sources: usize,
}

/// The normalized entropy of a window.
#[derive(Debug)]
pub enum NormalizedEntropy {
    /// The value is 0: there was no packet, or at most one source.
    Zero,
    /// The value is the sum of `-c/total * log2(c/total)` over the counts,
    /// divided by `log2(sources)`.
    Ratio(EntropyTerms),
}

/// `h` is the normalized entropy of the listed counts in a window of `packets`
/// packets.
pub open spec fn is_normalized_entropy(h: NormalizedEntropy, tally: tally::Tally<IpAddr>, packets: nat) -> bool {
    match h {
        NormalizedEntropy::Zero => packets == 0 || tally.len() <= 1,
        NormalizedEntropy::Ratio(terms) => {
            &&& packets > 0 && tally.len() > 1
            &&& terms.total == packets
            &&& terms.sources == tally.len()
            &&& terms.counts@.map_values(|c: u32| c as nat) == tally::positive_counts(tally)
        },
    }
}

/// The normalized entropy of a frequency list and a number of packets.
pub fn compute_normalized_entropy(counts: &SourceCounts, total_packets: usize) -> (h:
    NormalizedEntropy)
    requires
        counts.wf(),
    ensures
        is_normalized_entropy(h, counts@, total_packets as nat),
{
    if total_packets == 0 {
        return NormalizedEntropy::Zero;
    }
    let sources: usize = counts.len();
    if sources <= 1 {
        return NormalizedEntropy::Zero;
    }
    let mut positive: Vec<u32> = Vec::new();
    let mut i: usize = 0;
    assert(positive@.map_values(|c: u32| c as nat) =~= Seq::<nat>::empty());
    while i < sources
        invariant
            counts.wf(),
            sources == counts@.len(),
            i <= sources,
            positive@.map_values(|c: u32| c as nat) == tally::positive_counts(counts@.take(i as int)),
        decreases sources - i,
    {
        let entry = counts.entry(i);
        let ghost before = positive@;
        let ghost upto = counts@.take(i as int + 1);
        assert(upto.drop_last() =~= counts@.take(i as int));
        if entry.1 > 0 {
            positive.push(entry.1);
            assert(positive@.map_values(|c: u32| c as nat) =~= before.map_values(
                |c: u32| c as nat,
            ).push(entry.1 as nat));
        }
        i = i + 1;
    }
    assert(counts@.take(sources as int) =~= counts@);
    NormalizedEntropy::Ratio(EntropyTerms { counts: positive, total: total_packets, sources })
}

/// Collects the sources of one window.
#[derive(Debug)]
pub struct EntropyAccumulator {
    counts: SourceCounts,
    packet_count: usize,
}

impl EntropyAccumulator {
    /// The sources of the window so far.
    pub closed spec fn tally(&self) -> tally::Tally<IpAddr> {
        self.counts@
    }

    /// The packets of the window so far.
    pub closed spec fn packets(&self) -> nat {
        self.packet_count as nat
    }

    /// Each listed source has sent something, and the counts add up to the
    /// packets.
    pub closed spec fn wf(&self) -> bool {
        &&& self.counts.wf()
        &&& tally::all_positive(self.counts@)
        &&& tally::total(self.counts@) == self.packet_count
    }

    /// What holds of a well-formed accumulator.
    pub proof fn lemma_wf(&self)
        requires
            self.wf(),
        ensures
            tally::distinct(self.tally()),
            tally::all_positive(self.tally()),
            tally::total(self.tally()) == self.packets(),
    {
        self.counts.lemma_distinct();
    }

    /// An accumulator for a window that has not begun.
    pub fn new() -> (acc: EntropyAccumulator)
        ensures
            acc.wf(),
            acc.tally() == tally::Tally::<IpAddr>::empty(),
            acc.packets() == 0,
    {
        EntropyAccumulator { counts: SourceCounts::new(), packet_count: 0 }
    }

    /// Whether one more packet from a source can be counted.
    pub fn has_room_for(&self, src_ip: IpAddr) -> (room: bool)
        requires
            self.wf(),
        ensures
            room == (tally::count_of(self.tally(), src_ip) < u32::MAX && self.packets() < usize::MAX),
    {
        self.counts.count(src_ip) < u32::MAX && self.packet_count < usize::MAX
    }

    /// Counts one packet of the window.
    pub fn add_packet(&mut self, src_ip: IpAddr)
        requires
            old(self).wf(),
            tally::count_of(old(self).tally(), src_ip) < u32::MAX,
            old(self).packets() < usize::MAX,
        ensures
            final(self).wf(),
            final(self).tally() == tally::with_packet(old(self).tally(), src_ip),
            final(self).packets() == old(self).packets() + 1,
    {
        proof {
            self.counts.lemma_distinct();
            tally::lemma_with_packet(self.counts@, src_ip);
        }
        self.counts.increment(src_ip);
        self.packet_count = self.packet_count + 1;
    }

    /// The normalized entropy of the window, which ends here: the accumulator
    /// is as new afterwards.
    pub fn compute_and_reset(&mut self) -> (h: NormalizedEntropy)
        requires
            old(self).wf(),
        ensures
            is_normalized_entropy(h, old(self).tally(), old(self).packets()),
            final(self).wf(),
            final(self).tally() == tally::Tally::<IpAddr>::empty(),
            final(self).packets() == 0,
    {
        let h = compute_normalized_entropy(&self.counts, self.packet_count);
        self.counts.clear();
        self.packet_count = 0;
        h
    }

    /// The packets of the window so far.
    pub fn packet_count(&self) -> (n: usize)
        ensures
            n == self.packets(),
    {
        self.packet_count
    }

    /// The source that has sent most, the first of them if there are several;
    /// none before the first packet.
    pub fn dominant_source(&self) -> (entry: Option<(IpAddr, u32)>)
        requires
            self.wf(),
        ensures
            match entry {
                Some(e) => exists|i: int| #[trigger]
                    tally::is_busiest(self.tally(), i) && e.0 == self.tally()[i].0 && e.1
                        == self.tally()[i].1,
                None => self.tally().len() == 0,
            },
    {
        assert(self.tally() == self.counts@);
        self.counts.busiest()
    }
}

impl Default for EntropyAccumulator {
    fn default() -> (acc: EntropyAccumulator)
        ensures
            acc.wf(),
            acc.tally() == tally::Tally::<IpAddr>::empty(),
            acc.packets() == 0,
    {
        EntropyAccumulator::new()
    }
}

} // verus!
