//! Which flows are active: packets by source, port and protocol, the busiest of
//! them, and the text in which they are shown.
use std::collections::HashMap;
use vstd::prelude::*;

use crate::address::AddressIndex;
use crate::address::IpAddr;
use crate::packet;
use crate::tally;
use crate::text;

verus! {

broadcast use vstd::std_specs::hash::group_hash_axioms;

/// Flows that a listing shows at most.
pub const TOP_FLOWS: usize = 20;

/// Seconds between two listings: 10.0, as the bits of a double.
pub const LISTING_SECONDS: u64 = 0x4024_0000_0000_0000;

/// A source that sends to a port with a protocol.
#[derive(Clone, Copy, Debug, PartialEq, Eq, Structural)]
pub struct Flow {
    /// Who sends.
    pub ip: IpAddr,
    /// To which port.
    pub port: u16,
    /// With which protocol, by its number.
    pub protocol: u8,
}

/// Numbers a flow by the number of its source, its port and its protocol.
pub open spec fn flow_key(number: nat, port: u16, protocol: u8) -> nat {
    number * 0x100_0000 + port as nat * 0x100 + protocol as nat
}

/// Entry `i` comes before entry `j` in a listing: it has the larger count, or
/// the same count and the earlier first packet.
pub open spec fn ahead(counts: tally::Tally<Flow>, i: int, j: int) -> bool {
    counts[i].1 > counts[j].1 || (counts[i].1 == counts[j].1 && i < j)
}

/// `picks` are the entries of a listing of at most `limit` flows, in order.
pub open spec fn is_listing(counts: tally::Tally<Flow>, picks: Seq<int>, limit: nat) -> bool {
    &&& picks.len() == if counts.len() < limit {
        counts.len()
    } else {
        limit
    }
    &&& forall|a: int| 0 <= a < picks.len() ==> 0 <= #[trigger] picks[a] < counts.len()
    &&& forall|a: int, b: int|
        0 <= a < b < picks.len() ==> ahead(counts, #[trigger] picks[a], #[trigger] picks[b])
    &&& forall|a: int, i: int|
        0 <= a < picks.len() && 0 <= i < counts.len() && !picks.contains(i) ==> #[trigger] ahead(
            counts,
            picks[a],
            i,
        )
}

/// `flows` is what a listing shows of the picked entries.
pub open spec fn shows(
    counts: tally::Tally<Flow>,
    picks: Seq<int>,
    flows: Seq<(Flow, u32)>,
) -> bool {
    &&& flows.len() == picks.len()
    &&& forall|a: int|
        0 <= a < picks.len() ==> (#[trigger] flows[a]).0 == counts[picks[a]].0 && flows[a].1
            == counts[picks[a]].1
}

/// `flows` are the busiest flows, at most twenty, the busiest first and among
/// equals the one with the earliest first packet.
pub open spec fn lists_busiest(counts: tally::Tally<Flow>, flows: Seq<(Flow, u32)>) -> bool {
    exists|picks: Seq<int>| #[trigger]
        is_listing(counts, picks, TOP_FLOWS as nat) && shows(counts, picks, flows)
}

/// Packet counts by flow.
pub struct FlowCounts {
    index: AddressIndex,
    slots: HashMap<u128, usize>,
    keys: Ghost<Seq<u128>>,
    flows: Vec<Flow>,
    counts: Vec<u32>,
}

impl View for FlowCounts {
    type V = tally::Tally<Flow>;

    closed spec fn view(&self) -> tally::Tally<Flow> {
        Seq::new(self.flows@.len(), |i: int| (self.flows@[i], self.counts@[i] as nat))
    }
}

/// `key` is the number of the flow.
spec fn numbers(addresses: Seq<IpAddr>, flow: Flow, key: u128) -> bool {
    exists|n: int|
        0 <= n < addresses.len() && #[trigger] addresses[n] == flow.ip && key == flow_key(
            n as nat,
            flow.port,
            flow.protocol,
        )
}

/// A key is the number of one flow only.
proof fn lemma_key_of_one_flow(addresses: Seq<IpAddr>, a: Flow, b: Flow, key: u128)
    requires
        numbers(addresses, a, key),
        numbers(addresses, b, key),
    ensures
        a == b,
{
    let n = choose|n: int|
        0 <= n < addresses.len() && #[trigger] addresses[n] == a.ip && key == flow_key(
            n as nat,
            a.port,
            a.protocol,
        );
    let m = choose|m: int|
        0 <= m < addresses.len() && #[trigger] addresses[m] == b.ip && key == flow_key(
            m as nat,
            b.port,
            b.protocol,
        );
    assert(n == m && a.port == b.port && a.protocol == b.protocol);
}

/// A flow has one key only.
proof fn lemma_one_key_of_flow(addresses: Seq<IpAddr>, flow: Flow, a: u128, b: u128)
    requires
        addresses.no_duplicates(),
        numbers(addresses, flow, a),
        numbers(addresses, flow, b),
    ensures
        a == b,
{
    let n = choose|n: int|
        0 <= n < addresses.len() && #[trigger] addresses[n] == flow.ip && a == flow_key(
            n as nat,
            flow.port,
            flow.protocol,
        );
    let m = choose|m: int|
        0 <= m < addresses.len() && #[trigger] addresses[m] == flow.ip && b == flow_key(
            m as nat,
            flow.port,
            flow.protocol,
        );
    assert(n == m);
}

impl FlowCounts {
    /// Each flow is found under its number, and nothing else is.
    pub closed spec fn wf(&self) -> bool {
        &&& self.index.wf()
        &&& self.counts@.len() == self.flows@.len()
        &&& forall|k: u128| #[trigger]
            self.slots@.contains_key(k) ==> self.slots@[k] < self.flows@.len() && numbers(
                self.index@,
                self.flows@[self.slots@[k] as int],
                k,
            )
        &&& self.keys@.len() == self.flows@.len()
        &&& forall|i: int|
            #![trigger self.flows@[i]]
            #![trigger self.keys@[i]]
            0 <= i < self.flows@.len() ==> self.slots@.contains_key(self.keys@[i])
                && self.slots@[self.keys@[i]] == i && numbers(
                self.index@,
                self.flows@[i],
                self.keys@[i],
            )
    }

    /// No flow is listed twice.
    pub proof fn lemma_distinct(&self)
        requires
            self.wf(),
        ensures
            tally::distinct(self@),
    {
        self.index.lemma_no_duplicates();
        assert forall|i: int, j: int|
            0 <= i < self@.len() && 0 <= j < self@.len() && i != j implies (
        #[trigger] self@[i]).0 != (#[trigger] self@[j]).0 by {
            if self.flows@[i] == self.flows@[j] {
                lemma_one_key_of_flow(self.index@, self.flows@[i], self.keys@[i], self.keys@[j]);
            }
        }
    }

    /// No flow at all.
    pub fn new() -> (counts: FlowCounts)
        ensures
            counts.wf(),
            counts@ == tally::Tally::<Flow>::empty(),
    {
        let counts = FlowCounts {
            index: AddressIndex::new(),
            slots: HashMap::new(),
            keys: Ghost(Seq::empty()),
            flows: Vec::new(),
            counts: Vec::new(),
        };
        assert(counts@ =~= tally::Tally::<Flow>::empty());
        counts
    }

    /// How many flows there are.
    pub fn len(&self) -> (n: usize)
        ensures
            n == self@.len(),
    {
        self.flows.len()
    }

    /// A flow and its count.
    pub fn entry(&self, i: usize) -> (entry: (Flow, u32))
        requires
            self.wf(),
            i < self@.len(),
        ensures
            entry.0 == self@[i as int].0,
            entry.1 == self@[i as int].1,
    {
        (self.flows[i], self.counts[i])
    }

    /// Where a flow is listed, if it is.
    fn find(&self, flow: Flow) -> (place: Option<usize>)
        requires
            self.wf(),
        ensures
            match place {
                Some(i) => i < self@.len() && self@[i as int].0 == flow,
                None => !tally::listed(self@, flow),
            },
    {
        proof {
            self.index.lemma_no_duplicates();
        }
        let number: usize = match self.index.find(flow.ip) {
            Some(n) => n,
            None => {
                assert forall|i: int| 0 <= i < self@.len() implies (#[trigger] self@[i]).0
                    != flow by {
                    assert(self.flows@[i] == self@[i].0);
                }
                return None;
            },
        };
        let key: u128 = key_of(number, flow);
        assert(self.index@[number as int] == flow.ip);
        assert(numbers(self.index@, flow, key));
        match self.slots.get(&key) {
            Some(i) => {
                proof {
                    lemma_key_of_one_flow(self.index@, self.flows@[*i as int], flow, key);
                }
                Some(*i)
            },
            None => {
                assert forall|i: int| 0 <= i < self@.len() implies (#[trigger] self@[i]).0
                    != flow by {
                    if self.flows@[i] == flow {
                        lemma_one_key_of_flow(self.index@, flow, self.keys@[i], key);
                    }
                }
                None
            },
        }
    }

    /// The count of a flow: 0 if it is not listed.
    pub fn count(&self, flow: Flow) -> (count: u32)
        requires
            self.wf(),
        ensures
            count == tally::count_of(self@, flow),
    {
        match self.find(flow) {
            Some(i) => {
                proof {
                    self.lemma_distinct();
                    tally::lemma_slot_is(self@, i as int);
                }
                self.counts[i]
            },
            None => 0,
        }
    }

    /// Counts one packet of a flow.
    pub fn increment(&mut self, flow: Flow)
        requires
            old(self).wf(),
            tally::count_of(old(self)@, flow) < u32::MAX,
        ensures
            final(self).wf(),
            final(self)@ == tally::with_packet(old(self)@, flow),
    {
        let ghost before = self@;
        proof {
            self.lemma_distinct();
        }
        match self.find(flow) {
            Some(i) => {
                proof {
                    tally::lemma_slot_is(before, i as int);
                }
                let count: u32 = self.counts[i];
                self.counts[i] = count + 1;
                assert(self@ =~= tally::with_packet(before, flow));
            },
            None => {
                let ghost addresses = self.index@;
                let ghost slots = self.slots@;
                let ghost flows = self.flows@;
                let ghost keys = self.keys@;
                let number: usize = self.index.intern(flow.ip);
                let key: u128 = key_of(number, flow);
                proof {
                    assert(self.index@[number as int] == flow.ip);
                    assert(numbers(self.index@, flow, key));
                    assert forall|f: Flow, k: u128| numbers(addresses, f, k) implies numbers(
                        self.index@,
                        f,
                        k,
                    ) by {
                        let n = choose|n: int|
                            0 <= n < addresses.len() && #[trigger] addresses[n] == f.ip && k
                                == flow_key(n as nat, f.port, f.protocol);
                        assert(self.index@[n] == f.ip);
                    }
                    assert(!slots.contains_key(key)) by {
                        if slots.contains_key(key) {
                            let i = slots[key] as int;
                            assert(numbers(addresses, flows[i], key));
                            lemma_key_of_one_flow(self.index@, flows[i], flow, key);
                            assert(before[i].0 == flow);
                        }
                    }
                }
                self.slots.insert(key, self.flows.len());
                self.keys = Ghost(keys.push(key));
                self.flows.push(flow);
                self.counts.push(1);
                proof {
                    assert forall|k: u128| #[trigger] self.slots@.contains_key(k) implies
                        self.slots@[k] < self.flows@.len() && numbers(
                        self.index@,
                        self.flows@[self.slots@[k] as int],
                        k,
                    ) by {
                        if k != key {
                            assert(slots.contains_key(k));
                            assert(numbers(addresses, flows[slots[k] as int], k));
                        }
                    }
                    assert forall|i: int| 0 <= i < self.flows@.len() implies
                        self.slots@.contains_key(#[trigger] self.keys@[i])
                        && self.slots@[self.keys@[i]] == i && numbers(
                        self.index@,
                        self.flows@[i],
                        self.keys@[i],
                    ) by {
                        if i < flows.len() {
                            assert(self.keys@[i] == keys[i] && self.flows@[i] == flows[i]);
                            assert(numbers(addresses, flows[i], keys[i]));
                        }
                    }
                }
                assert(self@ =~= tally::with_packet(before, flow));
            },
        }
    }

    /// The busiest flows, at most twenty, the busiest first.
    pub fn top_flows(&self) -> (flows: Vec<(Flow, u32)>)
        requires
            self.wf(),
        ensures
            lists_busiest(self@, flows@),
    {
        let n: usize = self.flows.len();
        let limit: usize = if n < TOP_FLOWS {
            n
        } else {
            TOP_FLOWS
        };
        let mut taken: Vec<bool> = Vec::new();
        let mut i: usize = 0;
        while i < n
            invariant
                i <= n,
                taken@.len() == i,
                forall|j: int| 0 <= j < i ==> !taken@[j],
            decreases n - i,
        {
            taken.push(false);
            i = i + 1;
        }
        let ghost mut picks: Seq<int> = Seq::empty();
        let mut flows: Vec<(Flow, u32)> = Vec::new();
        let mut round: usize = 0;
        while round < limit
            invariant
                self.wf(),
                n == self@.len(),
                limit <= n,
                round <= limit,
                taken@.len() == n,
                picks.len() == round,
                picks.no_duplicates(),
                forall|j: int| 0 <= j < n ==> #[trigger] taken@[j] == picks.contains(j),
                forall|a: int| 0 <= a < round ==> 0 <= #[trigger] picks[a] < n,
                forall|a: int, b: int|
                    0 <= a < b < round ==> ahead(self@, #[trigger] picks[a], #[trigger] picks[b]),
                forall|a: int, j: int|
                    0 <= a < round && 0 <= j < n && !picks.contains(j) ==> #[trigger] ahead(
                        self@,
                        picks[a],
                        j,
                    ),
                shows(self@, picks, flows@),
            decreases limit - round,
        {
            proof {
                lemma_one_is_left(picks, n as nat);
                let j = choose|j: int| 0 <= j < n && !#[trigger] picks.contains(j);
                assert(!taken@[j]);
            }
            let best: usize = self.best_left(&taken);
            let ghost before = picks;
            flows.push(self.entry(best));
            taken[best] = true;
            proof {
                assert(!before.contains(best as int));
                picks = before.push(best as int);
                assert(picks[round as int] == best);
                assert forall|j: int| 0 <= j < n implies #[trigger] taken@[j] == picks.contains(
                    j,
                ) by {
                    if before.contains(j) {
                        let a = choose|a: int| 0 <= a < before.len() && before[a] == j;
                        assert(picks[a] == j);
                    }
                    if picks.contains(j) && j != best {
                        let a = choose|a: int| 0 <= a < picks.len() && picks[a] == j;
                        assert(before[a] == j);
                    }
                }
                assert forall|a: int, j: int|
                    0 <= a < picks.len() && 0 <= j < n && !picks.contains(j) implies #[trigger] ahead(
                    self@,
                    picks[a],
                    j,
                ) by {
                    assert(!taken@[j]);
                    if before.contains(j) {
                        assert(taken@[j]);
                    }
                    if a < before.len() {
                        assert(ahead(self@, before[a], j));
                    }
                }
                assert forall|a: int, b: int| 0 <= a < b < picks.len() implies ahead(
                    self@,
                    #[trigger] picks[a],
                    #[trigger] picks[b],
                ) by {
                    if b == round {
                        assert(ahead(self@, before[a], best as int));
                    } else {
                        assert(ahead(self@, before[a], before[b]));
                    }
                }
                assert(shows(self@, picks, flows@));
            }
            round = round + 1;
        }
        assert(is_listing(self@, picks, TOP_FLOWS as nat));
        flows
    }

    /// The first entry in the order of a listing that is not taken yet.
    fn best_left(&self, taken: &Vec<bool>) -> (best: usize)
        requires
            self.wf(),
            taken@.len() == self@.len(),
            exists|j: int| 0 <= j < self@.len() && !#[trigger] taken@[j],
        ensures
            best < self@.len(),
            !taken@[best as int],
            forall|j: int|
                0 <= j < self@.len() && j != best && !#[trigger] taken@[j] ==> ahead(
                    self@,
                    best as int,
                    j,
                ),
    {
        let n: usize = self.flows.len();
        let mut best: Option<usize> = None;
        let mut i: usize = 0;
        while i < n
            invariant
                self.wf(),
                n == self@.len(),
                taken@.len() == n,
                i <= n,
                match best {
                    Some(b) => b < i && !taken@[b as int] && forall|j: int|
                        0 <= j < i && j != b && !#[trigger] taken@[j] ==> ahead(
                            self@,
                            b as int,
                            j,
                        ),
                    None => forall|j: int| 0 <= j < i ==> #[trigger] taken@[j],
                },
            decreases n - i,
        {
            if !taken[i] {
                match best {
                    Some(b) => {
                        assert(self@[b as int].1 == self.counts@[b as int]);
                        assert(self@[i as int].1 == self.counts@[i as int]);
                        if self.counts[i] > self.counts[b] {
                            best = Some(i);
                        }
                    },
                    None => {
                        best = Some(i);
                    },
                }
            }
            i = i + 1;
        }
        match best {
            Some(b) => b,
            None => 0,
        }
    }

    /// Forgets every flow.
    pub fn clear(&mut self)
        ensures
            final(self).wf(),
            final(self)@ == tally::Tally::<Flow>::empty(),
    {
        self.index.clear();
        self.slots.clear();
        self.keys = Ghost(Seq::empty());
        self.flows.clear();
        self.counts.clear();
        assert(self@ =~= tally::Tally::<Flow>::empty());
    }
}

/// While fewer entries are picked than there are, one is left.
proof fn lemma_one_is_left(picks: Seq<int>, n: nat)
    requires
        picks.no_duplicates(),
        picks.len() < n,
    ensures
        exists|j: int| 0 <= j < n && !#[trigger] picks.contains(j),
{
    if forall|j: int| 0 <= j < n ==> #[trigger] picks.contains(j) {
        let all = Seq::new(n, |j: int| j);
        assert(all.to_set().subset_of(picks.to_set())) by {
            assert forall|j: int| all.to_set().contains(j) implies picks.to_set().contains(j) by {
                let a = choose|a: int| 0 <= a < all.len() && all[a] == j;
                assert(picks.contains(j));
            }
        }
        all.unique_seq_to_set();
        picks.unique_seq_to_set();
        vstd::set_lib::lemma_len_subset(all.to_set(), picks.to_set());
    }
}

/// Entries that are picked once each and leave one out are fewer than there
/// are.
pub(crate) proof fn lemma_one_is_left_out(picks: Seq<int>, n: nat, i: int)
    requires
        forall|a: int| 0 <= a < picks.len() ==> 0 <= #[trigger] picks[a] < n,
        picks.no_duplicates(),
        0 <= i < n,
        !picks.contains(i),
    ensures
        picks.len() < n,
{
    let all = vstd::set_lib::set_int_range(0, n as int);
    vstd::set_lib::lemma_int_range(0, n as int);
    picks.unique_seq_to_set();
    assert(picks.to_set().subset_of(all.remove(i))) by {
        assert forall|j: int| picks.to_set().contains(j) implies all.remove(i).contains(j) by {
            let a = choose|a: int| 0 <= a < picks.len() && picks[a] == j;
            assert(0 <= picks[a] < n);
        }
    }
    vstd::set_lib::lemma_len_subset(picks.to_set(), all.remove(i));
}

/// What a listing shows is determined by the counts: no two listings of the
/// same counts differ.
pub proof fn law_listing_is_determined(
    counts: tally::Tally<Flow>,
    p: Seq<int>,
    q: Seq<int>,
    limit: nat,
)
    requires
        is_listing(counts, p, limit),
        is_listing(counts, q, limit),
    ensures
        p == q,
{
    assert forall|a: int| 0 <= a < p.len() implies p[a] == q[a] by {
        lemma_listings_agree(counts, p, q, limit, a);
    }
    assert(p =~= q);
}

/// Two listings agree in each place.
proof fn lemma_listings_agree(
    counts: tally::Tally<Flow>,
    p: Seq<int>,
    q: Seq<int>,
    limit: nat,
    a: int,
)
    requires
        is_listing(counts, p, limit),
        is_listing(counts, q, limit),
        0 <= a < p.len(),
    ensures
        p[a] == q[a],
    decreases a,
{
    assert forall|b: int| 0 <= b < a implies p[b] == q[b] by {
        lemma_listings_agree(counts, p, q, limit, b);
    }
    if p[a] != q[a] {
        lemma_later_or_not_at_all(counts, p, q, limit, a);
        lemma_later_or_not_at_all(counts, q, p, limit, a);
    }
}

/// Where two listings first differ, the entry of one is behind that of the
/// other.
proof fn lemma_later_or_not_at_all(
    counts: tally::Tally<Flow>,
    p: Seq<int>,
    q: Seq<int>,
    limit: nat,
    a: int,
)
    requires
        is_listing(counts, p, limit),
        is_listing(counts, q, limit),
        0 <= a < p.len(),
        forall|b: int| 0 <= b < a ==> p[b] == q[b],
        p[a] != q[a],
    ensures
        ahead(counts, q[a], p[a]),
{
    if q.contains(p[a]) {
        let c = choose|c: int| 0 <= c < q.len() && q[c] == p[a];
        if c < a {
            assert(ahead(counts, p[c], p[a]));
        }
        assert(ahead(counts, q[a], q[c]));
    } else {
        assert(ahead(counts, q[a], p[a]));
    }
}

/// A listing shows the busiest flows: what is not shown of a well-formed count
/// has no more packets than anything that is shown, the counts never rise from
/// one line to the next, and no flow is shown twice.
pub proof fn law_listing_shows_the_busiest(
    counts: tally::Tally<Flow>,
    picks: Seq<int>,
    limit: nat,
)
    requires
        tally::distinct(counts),
        is_listing(counts, picks, limit),
    ensures
        picks.len() <= limit,
        forall|a: int, b: int|
            0 <= a < b < picks.len() ==> counts[#[trigger] picks[a]].1 >= counts[#[trigger] picks[b]].1
                && counts[picks[a]].0 != counts[picks[b]].0,
        forall|a: int, i: int|
            #![trigger picks[a], counts[i]]
            0 <= a < picks.len() && 0 <= i < counts.len() && !picks.contains(i)
                ==> counts[picks[a]].1 >= counts[i].1,
{
    assert forall|a: int, b: int| 0 <= a < b < picks.len() implies counts[#[trigger] picks[a]].1
        >= counts[#[trigger] picks[b]].1 && counts[picks[a]].0 != counts[picks[b]].0 by {
        assert(ahead(counts, picks[a], picks[b]));
    }
    assert forall|a: int, i: int|
        #![trigger picks[a], counts[i]]
        0 <= a < picks.len() && 0 <= i < counts.len() && !picks.contains(
            i,
        ) implies counts[picks[a]].1 >= counts[i].1 by {
        assert(ahead(counts, picks[a], i));
    }
}

/// One line of a listing. The rate is in packets per second over the ten
/// seconds that a listing covers, with one decimal.
pub open spec fn flow_line(ip: Seq<char>, flow: Flow, count: nat) -> Seq<char> {
    "    {\"ip\": \""@ + ip + "\", \"port\": "@ + text::decimal(flow.port as nat)
        + ", \"proto\": \""@ + packet::name_of(flow.protocol) + "\", \"rate\": "@
        + text::decimal(count / 10) + "."@ + text::decimal(count % 10) + "}"@
}

/// The lines of a listing, given the text of each address.
pub open spec fn flow_lines(ips: Seq<Seq<char>>, flows: Seq<(Flow, u32)>) -> Seq<Seq<char>> {
    Seq::new(flows.len(), |i: int| flow_line(ips[i], flows[i].0, flows[i].1 as nat))
}

/// A listing as JSON, given the text of its time and of each address.
pub open spec fn listing_text(
    timestamp: Seq<char>,
    ips: Seq<Seq<char>>,
    flows: Seq<(Flow, u32)>,
) -> Seq<char> {
    "{\n  \"timestamp\": "@ + timestamp + ",\n  \"active_ips\": [\n"@ + text::joined(
        flow_lines(ips, flows),
        ",\n"@,
    ) + "\n  ]\n}"@
}

/// One line of a listing.
fn render_line(ip: &str, flow: Flow, count: u32) -> (line: String)
    ensures
        line@ == flow_line(ip@, flow, count as nat),
{
    let mut line = String::new();
    line.append("    {\"ip\": \"");
    line.append(ip);
    line.append("\", \"port\": ");
    text::append_decimal(&mut line, flow.port as u64);
    line.append(", \"proto\": \"");
    line.append(packet::protocol_name(flow.protocol));
    line.append("\", \"rate\": ");
    text::append_decimal(&mut line, (count / 10) as u64);
    line.append(".");
    text::append_decimal(&mut line, (count % 10) as u64);
    line.append("}");
    assert(line@ =~= flow_line(ip@, flow, count as nat));
    line
}

/// A listing as JSON. `timestamp` is its time and `ips` are the addresses of
/// the flows, as text.
pub fn render_active_flows(timestamp: &str, ips: &Vec<String>, flows: &Vec<(Flow, u32)>) -> (json:
    String)
    requires
        ips@.len() == flows@.len(),
    ensures
        json@ == listing_text(timestamp@, text::texts(ips@), flows@),
{
    let n: usize = flows.len();
    let mut lines: Vec<String> = Vec::new();
    let mut i: usize = 0;
    let ghost wanted = flow_lines(text::texts(ips@), flows@);
    while i < n
        invariant
            i <= n,
            n == flows@.len(),
            ips@.len() == n,
            wanted == flow_lines(text::texts(ips@), flows@),
            lines@.len() == i,
            forall|j: int| 0 <= j < i ==> (#[trigger] lines@[j])@ == wanted[j],
        decreases n - i,
    {
        let line = render_line(ips[i].as_str(), flows[i].0, flows[i].1);
        assert(line@ == wanted[i as int]);
        lines.push(line);
        i = i + 1;
    }
    assert(text::texts(lines@) =~= wanted);
    let mut json = String::new();
    json.append("{\n  \"timestamp\": ");
    json.append(timestamp);
    json.append(",\n  \"active_ips\": [\n");
    json.append(text::join(&lines, ",\n").as_str());
    json.append("\n  ]\n}");
    assert(json@ =~= listing_text(timestamp@, text::texts(ips@), flows@));
    json
}

/// The number of a flow whose source has the given number.
fn key_of(number: usize, flow: Flow) -> (key: u128)
    ensures
        key == flow_key(number as nat, flow.port, flow.protocol),
{
    number as u128 * 0x100_0000 + flow.port as u128 * 0x100 + flow.protocol as u128
}

} // verus!
