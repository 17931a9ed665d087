//! Layers 1 and 2: what every packet adds, and what is known of a window when
//! it closes.
use vstd::prelude::*;

use crate::address::IpAddr;
use crate::entropy;
use crate::entropy::EntropyAccumulator;
use crate::entropy::NormalizedEntropy;
use crate::flows;
use crate::flows::Flow;
use crate::flows::FlowCounts;
use crate::ipc::SOCKET_PATH;
use crate::packet;
use crate::packet::PacketMeta;
use crate::packet::Protocol;
use crate::scalar::Scalar;
use crate::tally;
use crate::text;

verus! {

/// Packets of a window.
pub const WINDOW_SIZE: usize = 50;

/// 2.0 standard deviations: the multiplier of the anomaly boundaries.
pub const DEFAULT_K: u64 = 0x4000_0000_0000_0000;

/// 0.125: the smoothing factor of the packet rate.
pub const DEFAULT_ALPHA: u64 = 0x3FC0_0000_0000_0000;

/// The first line of a training file.
pub const TRAINING_HEADER: &'static str = "entropy,ewma_rate,mean_h,mean_r,sigma_h,sigma_r,proto_ratio,dominant_ip_ratio,timestamp,label";

/// What the analysis is run with.
#[derive(Debug, Clone)]
pub struct AnalysisConfig {
    /// Multiplier of the anomaly boundaries.
    pub k: Scalar,
    /// Smoothing factor of the packet rate.
    pub ewma_alpha: Scalar,
    /// Where stage 2 listens.
    pub socket_path: String,
    /// Whom the traffic is for; shown, not used.
    pub victim_ip: String,
    /// The file that collects training rows, if any.
    pub train_csv: Option<String>,
    /// The class of the training rows: 0 normal, 1 flash crowd, 2 attack.
    pub train_label: u8,
}

impl Default for AnalysisConfig {
    fn default() -> (cfg: AnalysisConfig)
        ensures
            cfg.k.bits == DEFAULT_K,
            cfg.ewma_alpha.bits == DEFAULT_ALPHA,
            cfg.socket_path@ == SOCKET_PATH@,
            cfg.victim_ip@ == "(not set)"@,
            cfg.train_csv is None,
            cfg.train_label == 0,
    {
        AnalysisConfig {
            k: Scalar::from_bits(DEFAULT_K),
            ewma_alpha: Scalar::from_bits(DEFAULT_ALPHA),
            socket_path: SOCKET_PATH.to_owned(),
            victim_ip: "(not set)".to_owned(),
            train_csv: None,
            train_label: 0,
        }
    }
}

/// The sources of a run of packets.
pub open spec fn sources(packets: Seq<PacketMeta>) -> Seq<IpAddr> {
    packets.map_values(|p: PacketMeta| p.src_ip)
}

/// The flow that a packet belongs to.
pub open spec fn flow_of(p: PacketMeta) -> Flow {
    Flow { ip: p.src_ip, port: p.dst_port, protocol: packet::protocol_number(p.protocol) }
}

/// The flows of a run of packets.
pub open spec fn flows_of(packets: Seq<PacketMeta>) -> Seq<Flow> {
    packets.map_values(|p: PacketMeta| flow_of(p))
}

/// How many of the packets have a protocol.
pub open spec fn protocol_count(packets: Seq<PacketMeta>, protocol: Protocol) -> nat
    decreases packets.len(),
{
    if packets.len() == 0 {
        0
    } else {
        protocol_count(packets.drop_last(), protocol) + if packets.last().protocol == protocol {
            1nat
        } else {
            0nat
        }
    }
}

/// What is known of a window when it closes.
#[derive(Debug)]
pub struct WindowSummary {
    /// The number of the window, from 1 on.
    pub window_id: u64,
    /// The packets of the window.
    pub packets: usize,
    /// The diversity of its sources.
    pub entropy: NormalizedEntropy,
    /// The busiest source.
    pub dominant_ip: IpAddr,
    /// The packets of the busiest source.
    pub dominant_count: u32,
    /// The TCP packets.
    pub tcp_count: u32,
    /// The packets of a known protocol.
    pub tracked_count: u32,
}

/// `s` is what is to be said of a window that consists of `packets`.
pub open spec fn summarizes(s: WindowSummary, packets: Seq<PacketMeta>) -> bool {
    let senders = tally::tally_of(sources(packets));
    &&& s.packets == packets.len()
    &&& entropy::is_normalized_entropy(s.entropy, senders, packets.len())
    &&& exists|i: int| #[trigger]
        tally::is_busiest(senders, i) && s.dominant_ip == senders[i].0 && s.dominant_count
            == senders[i].1
    &&& s.tcp_count == protocol_count(packets, Protocol::Tcp)
    &&& s.tracked_count == protocol_count(packets, Protocol::Tcp) + protocol_count(
        packets,
        Protocol::Udp,
    ) + protocol_count(packets, Protocol::Icmp)
}

/// Every packet is of one protocol.
proof fn lemma_protocol_counts(packets: Seq<PacketMeta>)
    ensures
        protocol_count(packets, Protocol::Tcp) + protocol_count(packets, Protocol::Udp)
            + protocol_count(packets, Protocol::Icmp) + protocol_count(packets, Protocol::Other)
            == packets.len(),
    decreases packets.len(),
{
    if packets.len() > 0 {
        lemma_protocol_counts(packets.drop_last());
    }
}

/// The windows that have closed and the packets of the open one, after one more
/// packet.
pub open spec fn after_packet(closed: nat, open: Seq<PacketMeta>, p: PacketMeta) -> (
    nat,
    Seq<PacketMeta>,
) {
    if open.len() + 1 < WINDOW_SIZE {
        (closed, open.push(p))
    } else {
        (closed + 1, Seq::empty())
    }
}

/// The memory of layers 1 and 2: the window that is open, and the flows since
/// the last listing.
pub struct Analysis {
    entropy: EntropyAccumulator,
    tcp_count: u32,
    udp_count: u32,
    icmp_count: u32,
    window_id: u64,
    flow_counts: FlowCounts,
    window: Ghost<Seq<PacketMeta>>,
    since_listing: Ghost<Seq<PacketMeta>>,
}

impl Analysis {
    /// The packets of the open window.
    pub closed spec fn window(&self) -> Seq<PacketMeta> {
        self.window@
    }

    /// The packets since the last listing of flows.
    pub closed spec fn since_listing(&self) -> Seq<PacketMeta> {
        self.since_listing@
    }

    /// The windows that have closed.
    pub closed spec fn windows(&self) -> nat {
        self.window_id as nat
    }

    /// The packets of a flow since the last listing.
    pub open spec fn flow_packets(&self, p: PacketMeta) -> nat {
        tally::count_of(tally::tally_of(flows_of(self.since_listing())), flow_of(p))
    }

    /// The counters are those of the packets, and the window is not full.
    pub closed spec fn wf(&self) -> bool {
        &&& self.entropy.wf()
        &&& self.flow_counts.wf()
        &&& self.window@.len() < WINDOW_SIZE
        &&& self.entropy.tally() == tally::tally_of(sources(self.window@))
        &&& self.entropy.packets() == self.window@.len()
        &&& self.tcp_count == protocol_count(self.window@, Protocol::Tcp)
        &&& self.udp_count == protocol_count(self.window@, Protocol::Udp)
        &&& self.icmp_count == protocol_count(self.window@, Protocol::Icmp)
        &&& self.flow_counts@ == tally::tally_of(flows_of(self.since_listing@))
    }

    /// Before the first packet.
    pub fn new() -> (a: Analysis)
        ensures
            a.wf(),
            a.window() == Seq::<PacketMeta>::empty(),
            a.since_listing() == Seq::<PacketMeta>::empty(),
            a.windows() == 0,
    {
        let a = Analysis {
            entropy: EntropyAccumulator::new(),
            tcp_count: 0,
            udp_count: 0,
            icmp_count: 0,
            window_id: 0,
            flow_counts: FlowCounts::new(),
            window: Ghost(Seq::empty()),
            since_listing: Ghost(Seq::empty()),
        };
        a
    }

    /// The windows that have closed.
    pub fn window_count(&self) -> (n: u64)
        ensures
            n == self.windows(),
    {
        self.window_id
    }

    /// Whether the counters can take one more packet.
    pub fn has_room_for(&self, p: &PacketMeta) -> (room: bool)
        requires
            self.wf(),
        ensures
            room == (self.flow_packets(*p) < u32::MAX && self.windows() < u64::MAX),
    {
        let flow = Flow { ip: p.src_ip, port: p.dst_port, protocol: p.protocol.number() };
        self.flow_counts.count(flow) < u32::MAX && self.window_id < u64::MAX
    }

    /// Counts a packet. The fiftieth packet of a window closes it: the result
    /// is then what is known of the window, and the next packet opens another.
    pub fn on_packet(&mut self, p: &PacketMeta) -> (closed: Option<WindowSummary>)
        requires
            old(self).wf(),
            old(self).flow_packets(*p) < u32::MAX,
            old(self).windows() < u64::MAX,
        ensures
            final(self).wf(),
            final(self).since_listing() == old(self).since_listing().push(*p),
            (final(self).windows(), final(self).window()) == after_packet(
                old(self).windows(),
                old(self).window(),
                *p,
            ),
            match closed {
                None => old(self).window().len() + 1 < WINDOW_SIZE,
                Some(s) => {
                    &&& old(self).window().len() + 1 == WINDOW_SIZE
                    &&& summarizes(s, old(self).window().push(*p))
                    &&& s.window_id == final(self).windows()
                },
            },
    {
        let ghost before = self.window@;
        let ghost after = before.push(*p);
        proof {
            self.entropy.lemma_wf();
            if tally::listed(self.entropy.tally(), p.src_ip) {
                tally::lemma_count_within_total(
                    self.entropy.tally(),
                    tally::slot(self.entropy.tally(), p.src_ip),
                );
            }
            lemma_protocol_counts(before);
            assert(after.drop_last() =~= before);
            assert(sources(after).drop_last() =~= sources(before));
            assert(sources(after).last() == p.src_ip);
            let listing = self.since_listing@.push(*p);
            assert(flows_of(listing).drop_last() =~= flows_of(self.since_listing@));
            assert(flows_of(listing).last() == flow_of(*p));
        }
        self.entropy.add_packet(p.src_ip);
        self.flow_counts.increment(
            Flow { ip: p.src_ip, port: p.dst_port, protocol: p.protocol.number() },
        );
        self.since_listing = Ghost(self.since_listing@.push(*p));
        match p.protocol {
            Protocol::Tcp => {
                self.tcp_count = self.tcp_count + 1;
            },
            Protocol::Udp => {
                self.udp_count = self.udp_count + 1;
            },
            Protocol::Icmp => {
                self.icmp_count = self.icmp_count + 1;
            },
            Protocol::Other => {},
        }
        self.window = Ghost(after);
        if self.entropy.packet_count() < WINDOW_SIZE {
            return None;
        }
        self.window_id = self.window_id + 1;
        let packets: usize = self.entropy.packet_count();
        let dominant = match self.entropy.dominant_source() {
            Some(entry) => entry,
            None => (IpAddr::V4(0), 0),
        };
        proof {
            lemma_protocol_counts(after);
            self.entropy.lemma_wf();
            assert(tally::total(self.entropy.tally()) == WINDOW_SIZE);
        }
        let tracked_count: u32 = self.tcp_count + self.udp_count + self.icmp_count;
        let entropy = self.entropy.compute_and_reset();
        let summary = WindowSummary {
            window_id: self.window_id,
            packets,
            entropy,
            dominant_ip: dominant.0,
            dominant_count: dominant.1,
            tcp_count: self.tcp_count,
            tracked_count,
        };
        self.tcp_count = 0;
        self.udp_count = 0;
        self.icmp_count = 0;
        self.window = Ghost(Seq::empty());
        Some(summary)
    }

    /// The busiest flows since the last listing; the next listing starts from
    /// nothing.
    pub fn take_listing(&mut self) -> (listing: Vec<(Flow, u32)>)
        requires
            old(self).wf(),
        ensures
            final(self).wf(),
            flows::lists_busiest(
                tally::tally_of(flows_of(old(self).since_listing())),
                listing@,
            ),
            final(self).since_listing() == Seq::<PacketMeta>::empty(),
            final(self).window() == old(self).window(),
            final(self).windows() == old(self).windows(),
    {
        let listing = self.flow_counts.top_flows();
        assert(self.flow_counts@ == tally::tally_of(flows_of(old(self).since_listing())));
        self.flow_counts.clear();
        self.since_listing = Ghost(Seq::empty());
        listing
    }
}

/// The windows that have closed after a run of packets, and the packets of the
/// one that is open.
pub open spec fn windowed(packets: Seq<PacketMeta>) -> (nat, Seq<PacketMeta>)
    decreases packets.len(),
{
    if packets.len() == 0 {
        (0, Seq::empty())
    } else {
        let (closed, open) = windowed(packets.drop_last());
        after_packet(closed, open, packets.last())
    }
}

/// A window closes with every fiftieth packet: after any run of packets their
/// number is fifty for each closed window and the length of the open one,
/// which holds the latest packets in order.
pub proof fn law_windows_close_every_fifty_packets(packets: Seq<PacketMeta>)
    ensures
        windowed(packets).0 == packets.len() / WINDOW_SIZE as nat,
        windowed(packets).1 == packets.skip(WINDOW_SIZE * windowed(packets).0),
        windowed(packets).1.len() < WINDOW_SIZE,
        packets.len() == WINDOW_SIZE * windowed(packets).0 + windowed(packets).1.len(),
    decreases packets.len(),
{
    if packets.len() > 0 {
        law_windows_close_every_fifty_packets(packets.drop_last());
    }
    assert(windowed(packets).1 =~= packets.skip(WINDOW_SIZE * windowed(packets).0));
}

/// The shares that go to stage 2 are between 0 and 1: the busiest source has
/// sent at least one packet and no more than all, no other source has sent
/// more, and TCP is part of what is tracked, which is part of the window.
pub proof fn law_shares_are_fractions(s: WindowSummary, packets: Seq<PacketMeta>)
    requires
        summarizes(s, packets),
    ensures
        0 < s.dominant_count <= s.packets,
        forall|ip: IpAddr| #[trigger]
            sources(packets).to_multiset().count(ip) <= s.dominant_count,
        sources(packets).to_multiset().count(s.dominant_ip) == s.dominant_count,
        s.tcp_count <= s.tracked_count <= s.packets,
{
    let senders = tally::tally_of(sources(packets));
    let i = choose|i: int| #[trigger]
        tally::is_busiest(senders, i) && s.dominant_ip == senders[i].0 && s.dominant_count
            == senders[i].1;
    tally::law_tally_counts_every_packet(sources(packets));
    tally::lemma_count_within_total(senders, i);
    tally::lemma_slot_is(senders, i);
    lemma_protocol_counts(packets);
    assert(tally::count_of(senders, s.dominant_ip) == s.dominant_count);
    assert forall|ip: IpAddr| #[trigger]
        sources(packets).to_multiset().count(ip) <= s.dominant_count by {
        assert(tally::count_of(senders, ip) == sources(packets).to_multiset().count(ip));
        if tally::listed(senders, ip) {
            let j = tally::slot(senders, ip);
            assert(senders[j].1 <= senders[i].1);
        }
    }
}

/// The share of TCP among the packets of a known protocol, 0 if there are none:
/// `tcp_over_tracked` is the quotient of the two counts.
pub fn tcp_share(tracked_count: u32, tcp_over_tracked: Scalar) -> (share: Scalar)
    ensures
        share.bits == if tracked_count > 0 {
            tcp_over_tracked.bits
        } else {
            0
        },
{
    if tracked_count > 0 {
        tcp_over_tracked
    } else {
        Scalar::from_bits(0)
    }
}

/// Whether it is time for another listing.
pub fn listing_due(elapsed: Scalar) -> (due: bool)
    ensures
        due == elapsed.reaches(Scalar { bits: flows::LISTING_SECONDS }),
{
    elapsed.has_reached(Scalar::from_bits(flows::LISTING_SECONDS))
}

/// A row of a training file: the nine features as text, then the label. The
/// texts are those of [`crate::ipc::FeatureVector::numbers`], in that order,
/// which is the order of the columns in [`TRAINING_HEADER`].
pub open spec fn training_text(features: Seq<Seq<char>>, label: u8) -> Seq<char> {
    text::joined(features, ","@) + ","@ + text::decimal(label as nat)
}

/// A row of a training file, given the texts of the nine numbers that
/// [`crate::ipc::FeatureVector::values`] gives, in that order.
pub fn training_row(features: &Vec<String>, label: u8) -> (row: String)
    ensures
        row@ == training_text(text::texts(features@), label),
{
    let mut row = text::join(features, ",");
    row.append(",");
    text::append_decimal(&mut row, label as u64);
    assert(row@ =~= training_text(text::texts(features@), label));
    row
}

} // verus!
