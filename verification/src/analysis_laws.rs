//! What the operations of layers 1 and 2 do, told by the packets themselves:
//! how many there are of which kind.
use vstd::prelude::*;

use crate::address::IpAddr;
use crate::analysis;
use crate::analysis::listing_due;
use crate::analysis::tcp_share;
use crate::analysis::Analysis;
use crate::analysis::WindowSummary;
use crate::detector;
use crate::entropy::compute_normalized_entropy;
use crate::entropy::EntropyAccumulator;
use crate::entropy::NormalizedEntropy;
use crate::entropy::SourceCounts;
use crate::entropy_laws;
use crate::flows;
use crate::flows::Flow;
use crate::flows::FlowCounts;
use crate::packet::PacketMeta;
use crate::packet::Protocol;
use crate::scalar::Scalar;
use crate::tally;

verus! {

/// How many of the packets are of a kind.
pub open spec fn how_many(packets: Seq<PacketMeta>, kind: spec_fn(PacketMeta) -> bool) -> nat {
    packets.filter(kind).len()
}

/// The packets of a source.
pub open spec fn from_source(ip: IpAddr) -> spec_fn(PacketMeta) -> bool {
    |p: PacketMeta| p.src_ip == ip
}

/// The packets of a protocol.
pub open spec fn of_protocol(protocol: Protocol) -> spec_fn(PacketMeta) -> bool {
    |p: PacketMeta| p.protocol == protocol
}

/// The packets of a known protocol.
pub open spec fn of_known_protocol() -> spec_fn(PacketMeta) -> bool {
    |p: PacketMeta| p.protocol != Protocol::Other
}

/// Two packets have the source, the port and the protocol in common.
pub open spec fn alike(p: PacketMeta, q: PacketMeta) -> bool {
    p.src_ip == q.src_ip && p.dst_port == q.dst_port && p.protocol == q.protocol
}

/// A packet belongs to a flow: source, port and protocol agree, the protocol by
/// its number.
pub open spec fn belongs(p: PacketMeta, f: Flow) -> bool {
    &&& p.src_ip == f.ip
    &&& p.dst_port == f.port
    &&& f.protocol == (match p.protocol {
        Protocol::Tcp => 6u8,
        Protocol::Udp => 17u8,
        Protocol::Icmp => 1u8,
        Protocol::Other => 0u8,
    })
}

/// The packets of a flow.
pub open spec fn in_flow(f: Flow) -> spec_fn(PacketMeta) -> bool {
    |p: PacketMeta| belongs(p, f)
}

/// One more packet counts where it is of the kind.
proof fn lemma_how_many(packets: Seq<PacketMeta>, kind: spec_fn(PacketMeta) -> bool)
    requires
        packets.len() > 0,
    ensures
        how_many(packets, kind) == how_many(packets.drop_last(), kind) + if kind(packets.last()) {
            1nat
        } else {
            0nat
        },
{
    reveal(Seq::filter);
}

/// No packets are none of any kind.
proof fn lemma_how_many_of_none(kind: spec_fn(PacketMeta) -> bool)
    ensures
        how_many(Seq::empty(), kind) == 0,
{
    reveal(Seq::filter);
}

/// A packet of the kind makes it at least one.
proof fn lemma_some(packets: Seq<PacketMeta>, kind: spec_fn(PacketMeta) -> bool, i: int)
    requires
        0 <= i < packets.len(),
        kind(packets[i]),
    ensures
        how_many(packets, kind) > 0,
    decreases packets.len(),
{
    lemma_how_many(packets, kind);
    if i < packets.len() - 1 {
        lemma_some(packets.drop_last(), kind, i);
    }
}

/// At least one makes a packet of the kind.
proof fn lemma_one_of(packets: Seq<PacketMeta>, kind: spec_fn(PacketMeta) -> bool) -> (i: int)
    requires
        how_many(packets, kind) > 0,
    ensures
        0 <= i < packets.len(),
        kind(packets[i]),
    decreases packets.len(),
{
    if packets.len() == 0 {
        lemma_how_many_of_none(kind);
        assert(packets =~= Seq::empty());
        0
    } else {
        lemma_how_many(packets, kind);
        if kind(packets.last()) {
            packets.len() - 1
        } else {
            lemma_one_of(packets.drop_last(), kind)
        }
    }
}

/// A packet belongs to its own flow and to no other: the flow has the packet's
/// source, port and protocol number, so that two packets share a flow exactly
/// when source, port and protocol agree.
pub proof fn law_flow_is_the_packets_own(p: PacketMeta, q: PacketMeta, f: Flow)
    ensures
        analysis::flow_of(p).ip == p.src_ip,
        analysis::flow_of(p).port == p.dst_port,
        analysis::flow_of(p) == f <==> belongs(p, f),
        analysis::flow_of(p) == analysis::flow_of(q) <==> alike(p, q),
{
}

/// The list of the sources counts the packets of each.
proof fn lemma_sources_counted(packets: Seq<PacketMeta>, ip: IpAddr)
    ensures
        tally::count_of(tally::tally_of(analysis::sources(packets)), ip) == how_many(
            packets,
            from_source(ip),
        ),
    decreases packets.len(),
{
    let keys = analysis::sources(packets);
    if packets.len() == 0 {
        lemma_how_many_of_none(from_source(ip));
        assert(packets =~= Seq::empty());
        assert(!tally::listed(tally::tally_of(keys), ip));
    } else {
        let before = packets.drop_last();
        lemma_sources_counted(before, ip);
        lemma_how_many(packets, from_source(ip));
        assert(keys.drop_last() =~= analysis::sources(before));
        assert(keys.last() == packets.last().src_ip);
        tally::law_tally_counts_every_packet(analysis::sources(before));
        tally::lemma_with_packet(tally::tally_of(analysis::sources(before)), keys.last());
    }
}

/// The list of the flows counts the packets of each.
proof fn lemma_flows_counted(packets: Seq<PacketMeta>, f: Flow)
    ensures
        tally::count_of(tally::tally_of(analysis::flows_of(packets)), f) == how_many(
            packets,
            in_flow(f),
        ),
    decreases packets.len(),
{
    let keys = analysis::flows_of(packets);
    if packets.len() == 0 {
        lemma_how_many_of_none(in_flow(f));
        assert(packets =~= Seq::empty());
        assert(!tally::listed(tally::tally_of(keys), f));
    } else {
        let before = packets.drop_last();
        lemma_flows_counted(before, f);
        lemma_how_many(packets, in_flow(f));
        assert(keys.drop_last() =~= analysis::flows_of(before));
        assert(keys.last() == analysis::flow_of(packets.last()));
        law_flow_is_the_packets_own(packets.last(), packets.last(), f);
        tally::law_tally_counts_every_packet(analysis::flows_of(before));
        tally::lemma_with_packet(tally::tally_of(analysis::flows_of(before)), keys.last());
    }
}

/// The counters count the packets of each protocol.
proof fn lemma_protocols_counted(packets: Seq<PacketMeta>, protocol: Protocol)
    ensures
        analysis::protocol_count(packets, protocol) == how_many(packets, of_protocol(protocol)),
        how_many(packets, of_known_protocol()) == how_many(packets, of_protocol(Protocol::Tcp))
            + how_many(packets, of_protocol(Protocol::Udp)) + how_many(
            packets,
            of_protocol(Protocol::Icmp),
        ),
    decreases packets.len(),
{
    if packets.len() == 0 {
        assert(packets =~= Seq::empty());
        lemma_how_many_of_none(of_protocol(protocol));
        lemma_how_many_of_none(of_known_protocol());
        lemma_how_many_of_none(of_protocol(Protocol::Tcp));
        lemma_how_many_of_none(of_protocol(Protocol::Udp));
        lemma_how_many_of_none(of_protocol(Protocol::Icmp));
    } else {
        lemma_protocols_counted(packets.drop_last(), protocol);
        lemma_how_many(packets, of_protocol(protocol));
        lemma_how_many(packets, of_known_protocol());
        lemma_how_many(packets, of_protocol(Protocol::Tcp));
        lemma_how_many(packets, of_protocol(Protocol::Udp));
        lemma_how_many(packets, of_protocol(Protocol::Icmp));
    }
}

/// The counts of a summary are those of the packets.
proof fn lemma_known_protocols_counted(s: WindowSummary, packets: Seq<PacketMeta>)
    requires
        analysis::summarizes(s, packets),
    ensures
        s.tcp_count == how_many(packets, of_protocol(Protocol::Tcp)),
        s.tracked_count == how_many(packets, of_known_protocol()),
{
    lemma_protocols_counted(packets, Protocol::Tcp);
    lemma_protocols_counted(packets, Protocol::Udp);
    lemma_protocols_counted(packets, Protocol::Icmp);
}

/// A packet counts in its own flow and in no other: of any packet, those with
/// the same source, port and protocol since the last listing are one more if it
/// is like the one that came, and as many as before if it is not.
pub proof fn law_packet_counts_in_its_own_flow(
    a: &mut Analysis,
    p: &PacketMeta,
    closed: Option<WindowSummary>,
    q: PacketMeta,
)
    requires
        old(a).wf(),
        call_ensures(Analysis::on_packet, (a, p), closed),
    ensures
        final(a).wf(),
        final(a).since_listing() == old(a).since_listing().push(*p),
        old(a).flow_packets(q) == how_many(old(a).since_listing(), in_flow(analysis::flow_of(q))),
        final(a).flow_packets(q) == old(a).flow_packets(q) + if alike(*p, q) {
            1nat
        } else {
            0nat
        },
{
    let f = analysis::flow_of(q);
    let after = final(a).since_listing();
    lemma_flows_counted(old(a).since_listing(), f);
    lemma_flows_counted(after, f);
    lemma_how_many(after, in_flow(f));
    assert(after.drop_last() =~= old(a).since_listing());
    law_flow_is_the_packets_own(*p, q, f);
}

/// There is room for a packet as long as its flow has not filled a 32-bit
/// counter and the windows have not filled a 64-bit one.
pub proof fn law_room_for_a_packet(a: &Analysis, p: &PacketMeta, room: bool)
    requires
        a.wf(),
        call_ensures(Analysis::has_room_for, (a, p), room),
    ensures
        room <==> how_many(a.since_listing(), in_flow(analysis::flow_of(*p))) < 0xFFFF_FFFF
            && a.windows() < 0xFFFF_FFFF_FFFF_FFFF,
{
    lemma_flows_counted(a.since_listing(), analysis::flow_of(*p));
}

/// A packet is added to the open window. Up to 49 the window stays open and
/// nothing is said of it; the fiftieth closes it, the next starts empty, and
/// the windows are one more.
pub proof fn law_fiftieth_packet_closes(
    a: &mut Analysis,
    p: &PacketMeta,
    closed: Option<WindowSummary>,
)
    requires
        old(a).wf(),
        call_ensures(Analysis::on_packet, (a, p), closed),
    ensures
        old(a).window().len() < 49 ==> closed is None && final(a).window() == old(
            a,
        ).window().push(*p) && final(a).windows() == old(a).windows(),
        old(a).window().len() >= 49 ==> closed is Some && final(a).window() == Seq::<
            PacketMeta,
        >::empty() && final(a).windows() == old(a).windows() + 1,
        closed matches Some(s) ==> s.packets == 50 && s.window_id == final(a).windows(),
{
}

/// `counts` are the packets of `senders`, each of them one of the sources and
/// none of them twice, and there is no other source.
pub open spec fn spread(
    packets: Seq<PacketMeta>,
    senders: Seq<IpAddr>,
    counts: Seq<u32>,
) -> bool {
    &&& senders.len() == counts.len()
    &&& senders.no_duplicates()
    &&& forall|i: int|
        0 <= i < senders.len() ==> #[trigger] counts[i] == how_many(
            packets,
            from_source(senders[i]),
        ) && counts[i] > 0
    &&& forall|i: int| 0 <= i < packets.len() ==> senders.contains((#[trigger] packets[i]).src_ip)
}

/// What is said of a closed window is true of its packets: the TCP packets and
/// those of a known protocol are as many as there are; the busiest source has
/// sent as many as is said, and no source more; the entropy is 0 exactly when
/// there is one source, and its terms are the packets of each source.
pub proof fn law_summary_is_true_of_its_window(
    a: &mut Analysis,
    p: &PacketMeta,
    s: WindowSummary,
    ip: IpAddr,
)
    requires
        old(a).wf(),
        call_ensures(Analysis::on_packet, (a, p), Some(s)),
    ensures
        ({
            let packets = old(a).window().push(*p);
            &&& packets.len() == 50
            &&& s.tcp_count == how_many(packets, of_protocol(Protocol::Tcp))
            &&& s.tracked_count == how_many(packets, of_known_protocol())
            &&& s.dominant_count == how_many(packets, from_source(s.dominant_ip))
            &&& s.dominant_count > 0
            &&& how_many(packets, from_source(ip)) <= s.dominant_count
            &&& s.entropy is Zero <==> forall|i: int|
                0 <= i < packets.len() ==> (#[trigger] packets[i]).src_ip == p.src_ip
            &&& s.entropy matches NormalizedEntropy::Ratio(terms) ==> {
                &&& terms.total == 50
                &&& terms.sources == terms.counts@.len()
                &&& exists|senders: Seq<IpAddr>| #[trigger]
                    spread(packets, senders, terms.counts@)
            }
        }),
{
    let packets = old(a).window().push(*p);
    let keys = analysis::sources(packets);
    let senders = tally::tally_of(keys);
    lemma_known_protocols_counted(s, packets);
    tally::law_tally_counts_every_packet(keys);
    let i = choose|i: int| #[trigger]
        tally::is_busiest(senders, i) && s.dominant_ip == senders[i].0 && s.dominant_count
            == senders[i].1;
    tally::lemma_slot_is(senders, i);
    lemma_sources_counted(packets, s.dominant_ip);
    lemma_sources_counted(packets, ip);
    if tally::listed(senders, ip) {
        let j = tally::slot(senders, ip);
        assert(senders[j].1 <= senders[i].1);
    }
    assert(packets.last() == *p);
    assert forall|k: int| 0 <= k < packets.len() implies tally::listed(
        senders,
        (#[trigger] packets[k]).src_ip,
    ) by {
        lemma_sources_counted(packets, packets[k].src_ip);
        lemma_some(packets, from_source(packets[k].src_ip), k);
    }
    assert(s.entropy is Zero <==> senders.len() <= 1);
    if senders.len() <= 1 {
        assert forall|k: int| 0 <= k < packets.len() implies (#[trigger] packets[k]).src_ip
            == p.src_ip by {
            assert(tally::listed(senders, packets[k].src_ip));
            assert(tally::listed(senders, packets[packets.len() - 1].src_ip));
        }
    } else {
        let x = senders[0].0;
        let y = senders[1].0;
        assert(x != y);
        tally::lemma_slot_is(senders, 0);
        tally::lemma_slot_is(senders, 1);
        lemma_sources_counted(packets, x);
        lemma_sources_counted(packets, y);
        let k = lemma_one_of(packets, from_source(x));
        let l = lemma_one_of(packets, from_source(y));
        assert(packets[k].src_ip == x && packets[l].src_ip == y);
        let terms = s.entropy->Ratio_0;
        let names = senders.map_values(|e: (IpAddr, nat)| e.0);
        entropy_laws::lemma_positive_counts(senders);
        let mapped = terms.counts@.map_values(|c: u32| c as nat);
        assert(mapped == entropy_laws::counts_of(senders));
        assert(terms.counts@.len() == mapped.len());
        assert forall|n: int| 0 <= n < names.len() implies #[trigger] terms.counts@[n] == how_many(
            packets,
            from_source(names[n]),
        ) && terms.counts@[n] > 0 by {
            assert(mapped[n] == terms.counts@[n] as nat);
            assert(mapped[n] == senders[n].1);
            tally::lemma_slot_is(senders, n);
            lemma_sources_counted(packets, names[n]);
        }
        assert forall|n: int| 0 <= n < packets.len() implies names.contains(
            (#[trigger] packets[n]).src_ip,
        ) by {
            let m = tally::slot(senders, packets[n].src_ip);
            assert(tally::listed(senders, packets[n].src_ip));
            assert(names[m] == packets[n].src_ip);
        }
        assert(names.no_duplicates());
        assert(spread(packets, names, terms.counts@));
    }
}

/// A listing is true of the packets since the last one: each line has as many
/// packets as its flow, and at least one; no flow is listed twice; the counts
/// never rise; at most twenty flows are listed, and a packet whose flow is not
/// listed belongs to a flow with no more packets than any of the twenty. The
/// next listing starts from nothing, and the open window stays what it is.
pub proof fn law_listing_is_true_of_the_packets(
    a: &mut Analysis,
    listing: Vec<(Flow, u32)>,
    f: Flow,
)
    requires
        old(a).wf(),
        call_ensures(Analysis::take_listing, (a,), listing),
    ensures
        listing@.len() <= 20,
        forall|k: int|
            0 <= k < listing@.len() ==> (#[trigger] listing@[k]).1 == how_many(
                old(a).since_listing(),
                in_flow(listing@[k].0),
            ) && listing@[k].1 > 0,
        forall|k: int, l: int|
            0 <= k < l < listing@.len() ==> (#[trigger] listing@[k]).1 >= (#[trigger] listing@[l]).1
                && listing@[k].0 != listing@[l].0,
        (exists|k: int| 0 <= k < listing@.len() && (#[trigger] listing@[k]).0 == f) || how_many(
            old(a).since_listing(),
            in_flow(f),
        ) == 0 || (listing@.len() == 20 && forall|k: int|
            0 <= k < 20 ==> (#[trigger] listing@[k]).1 >= how_many(
                old(a).since_listing(),
                in_flow(f),
            )),
        final(a).since_listing() == Seq::<PacketMeta>::empty(),
        final(a).window() == old(a).window(),
        final(a).windows() == old(a).windows(),
{
    let packets = old(a).since_listing();
    let keys = analysis::flows_of(packets);
    let counts = tally::tally_of(keys);
    tally::law_tally_counts_every_packet(keys);
    let picks = choose|picks: Seq<int>| #[trigger]
        flows::is_listing(counts, picks, flows::TOP_FLOWS as nat) && flows::shows(
            counts,
            picks,
            listing@,
        );
    flows::law_listing_shows_the_busiest(counts, picks, flows::TOP_FLOWS as nat);
    assert forall|k: int| 0 <= k < listing@.len() implies (#[trigger] listing@[k]).1 == how_many(
        packets,
        in_flow(listing@[k].0),
    ) && listing@[k].1 > 0 by {
        tally::lemma_slot_is(counts, picks[k]);
        lemma_flows_counted(packets, listing@[k].0);
    }
    assert forall|k: int, l: int| 0 <= k < l < listing@.len() implies (#[trigger] listing@[k]).1
        >= (#[trigger] listing@[l]).1 && listing@[k].0 != listing@[l].0 by {
        assert(counts[picks[k]].1 >= counts[picks[l]].1);
    }
    lemma_flows_counted(packets, f);
    if how_many(packets, in_flow(f)) > 0 {
        assert(tally::listed(counts, f));
        let i = tally::slot(counts, f);
        if picks.contains(i) {
            let k = choose|k: int| 0 <= k < picks.len() && picks[k] == i;
            assert(listing@[k].0 == f);
        } else {
            if counts.len() < 20 {
                lemma_picks_once_each(counts, picks);
                flows::lemma_one_is_left_out(picks, counts.len(), i);
            }
            assert forall|k: int| 0 <= k < 20 implies (#[trigger] listing@[k]).1 >= how_many(
                packets,
                in_flow(f),
            ) by {
                assert(counts[picks[k]].1 >= counts[i].1);
            }
        }
    }
}

/// The share of TCP is the quotient where packets of a known protocol were
/// seen, and 0 where there were none.
pub proof fn law_tcp_share(tracked_count: u32, quotient: Scalar, share: Scalar)
    requires
        call_ensures(tcp_share, (tracked_count, quotient), share),
    ensures
        tracked_count > 0 ==> share == quotient,
        tracked_count == 0 ==> share == detector::number(detector::ZERO),
{
}

/// A listing is due once ten seconds have passed, and stays due.
pub proof fn law_listing_is_due_after_ten_seconds(
    early: Scalar,
    late: Scalar,
    early_due: bool,
    late_due: bool,
)
    requires
        call_ensures(listing_due, (early,), early_due),
        call_ensures(listing_due, (late,), late_due),
    ensures
        early_due <==> early.reaches(detector::number(detector::HEARTBEAT_SECONDS)),
        early_due && late.reaches(early) ==> late_due,
{
}

/// The entropy of a frequency list is 0 exactly without packets or with at most
/// one entry; otherwise its terms are the counts that are not zero, in order,
/// the number of packets and the number of entries.
pub proof fn law_entropy_terms(counts: &SourceCounts, packets: usize, h: NormalizedEntropy)
    requires
        counts.wf(),
        call_ensures(compute_normalized_entropy, (counts, packets), h),
    ensures
        h is Zero <==> packets == 0 || counts@.len() <= 1,
        h matches NormalizedEntropy::Ratio(terms) ==> {
            &&& terms.total == packets
            &&& terms.sources == counts@.len()
            &&& terms.counts@.map_values(|c: u32| c as nat) == entropy_laws::counts_of(
                counts@,
            ).filter(|c: nat| c > 0)
        },
{
    lemma_positive_is_filter(counts@);
}

/// The counts that are not zero are what a filter leaves.
proof fn lemma_positive_is_filter(t: tally::Tally<IpAddr>)
    ensures
        tally::positive_counts(t) == entropy_laws::counts_of(t).filter(|c: nat| c > 0),
    decreases t.len(),
{
    reveal(Seq::filter);
    let all = entropy_laws::counts_of(t);
    if t.len() > 0 {
        lemma_positive_is_filter(t.drop_last());
        assert(all.drop_last() =~= entropy_laws::counts_of(t.drop_last()));
        assert(all.last() == t.last().1);
    } else {
        assert(all =~= Seq::empty());
    }
}

/// Closing a window gives the entropy of what was collected, and leaves nothing
/// behind.
pub proof fn law_closing_a_window_starts_over(
    acc: &mut EntropyAccumulator,
    h: NormalizedEntropy,
    before: usize,
    after: usize,
)
    requires
        old(acc).wf(),
        call_ensures(EntropyAccumulator::packet_count, (&*old(acc),), before),
        call_ensures(EntropyAccumulator::compute_and_reset, (acc,), h),
        call_ensures(EntropyAccumulator::packet_count, (&*final(acc),), after),
    ensures
        after == 0,
        final(acc).tally().len() == 0,
        h is Zero <==> old(acc).tally().len() <= 1,
        h matches NormalizedEntropy::Ratio(terms) ==> {
            &&& terms.total == before
            &&& terms.sources == old(acc).tally().len()
            &&& terms.counts@.map_values(|c: u32| c as nat) == entropy_laws::counts_of(
                old(acc).tally(),
            )
        },
{
    old(acc).lemma_wf();
    entropy_laws::lemma_positive_counts(old(acc).tally());
    if old(acc).packets() == 0 && old(acc).tally().len() > 0 {
        tally::lemma_count_within_total(old(acc).tally(), 0);
    }
}

/// A packet adds one to the packets of the window and to those of its source,
/// and nothing to those of any other.
pub proof fn law_packet_counts_for_its_source(
    acc: &mut EntropyAccumulator,
    src_ip: IpAddr,
    ip: IpAddr,
    before: usize,
    after: usize,
)
    requires
        old(acc).wf(),
        call_ensures(EntropyAccumulator::packet_count, (&*old(acc),), before),
        call_ensures(EntropyAccumulator::add_packet, (acc, src_ip), ()),
        call_ensures(EntropyAccumulator::packet_count, (&*final(acc),), after),
    ensures
        after == before + 1,
        tally::count_of(final(acc).tally(), ip) == tally::count_of(old(acc).tally(), ip) + if ip
            == src_ip {
            1nat
        } else {
            0nat
        },
{
    old(acc).lemma_wf();
    tally::lemma_with_packet(old(acc).tally(), src_ip);
}

/// The dominant source has sent as many packets as is said, and no source has
/// sent more; there is one as soon as there is a packet.
pub proof fn law_dominant_source_sent_most(
    acc: &EntropyAccumulator,
    entry: Option<(IpAddr, u32)>,
    ip: IpAddr,
)
    requires
        acc.wf(),
        call_ensures(EntropyAccumulator::dominant_source, (acc,), entry),
    ensures
        entry is None <==> acc.packets() == 0,
        entry matches Some(e) ==> e.1 == tally::count_of(acc.tally(), e.0) && tally::count_of(
            acc.tally(),
            ip,
        ) <= e.1,
{
    acc.lemma_wf();
    if acc.tally().len() > 0 {
        tally::lemma_count_within_total(acc.tally(), 0);
        let e = entry.unwrap();
        let i = choose|i: int| #[trigger]
            tally::is_busiest(acc.tally(), i) && e.0 == acc.tally()[i].0 && e.1
                == acc.tally()[i].1;
        tally::lemma_slot_is(acc.tally(), i);
        if tally::listed(acc.tally(), ip) {
            let j = tally::slot(acc.tally(), ip);
            assert(acc.tally()[j].1 <= acc.tally()[i].1);
        }
    }
}

/// A count that was set is what is found, and no other source is affected.
pub proof fn law_count_that_was_set_is_found(
    counts: &mut SourceCounts,
    ip: IpAddr,
    count: u32,
    other: IpAddr,
    before: u32,
    found: u32,
    after: u32,
)
    requires
        old(counts).wf(),
        call_ensures(SourceCounts::count, (&*old(counts), other), before),
        call_ensures(SourceCounts::insert, (counts, ip, count), ()),
        call_ensures(SourceCounts::count, (&*final(counts), ip), found),
        call_ensures(SourceCounts::count, (&*final(counts), other), after),
    ensures
        found == count,
        other != ip ==> after == before,
{
    old(counts).lemma_distinct();
    tally::law_setting_a_count(old(counts)@, ip, count as nat, other);
}

/// A packet adds one to its flow and nothing to any other.
pub proof fn law_flow_count_grows_by_one(
    counts: &mut FlowCounts,
    flow: Flow,
    other: Flow,
    before: u32,
    after: u32,
)
    requires
        old(counts).wf(),
        call_ensures(FlowCounts::count, (&*old(counts), other), before),
        call_ensures(FlowCounts::increment, (counts, flow), ()),
        call_ensures(FlowCounts::count, (&*final(counts), other), after),
    ensures
        other == flow ==> after == before + 1,
        other != flow ==> after == before,
{
    old(counts).lemma_distinct();
    tally::lemma_with_packet(old(counts)@, flow);
}

/// One more packet of a source adds one to it and nothing to any other.
pub proof fn law_source_count_grows_by_one(
    counts: &mut SourceCounts,
    ip: IpAddr,
    other: IpAddr,
    before: u32,
    after: u32,
)
    requires
        old(counts).wf(),
        call_ensures(SourceCounts::count, (&*old(counts), other), before),
        call_ensures(SourceCounts::increment, (counts, ip), ()),
        call_ensures(SourceCounts::count, (&*final(counts), other), after),
    ensures
        other == ip ==> after == before + 1,
        other != ip ==> after == before,
{
    old(counts).lemma_distinct();
    tally::lemma_with_packet(old(counts)@, ip);
}

/// The busiest source has the count that is said, no source has more, and there
/// is one unless nothing is listed.
pub proof fn law_busiest_source_has_most(
    counts: &SourceCounts,
    entry: Option<(IpAddr, u32)>,
    n: usize,
    ip: IpAddr,
    count: u32,
)
    requires
        counts.wf(),
        call_ensures(SourceCounts::busiest, (counts,), entry),
        call_ensures(SourceCounts::len, (counts,), n),
        call_ensures(SourceCounts::count, (counts, ip), count),
    ensures
        entry is None <==> n == 0,
        entry matches Some(e) ==> count <= e.1 && (ip == e.0 ==> count == e.1),
{
    counts.lemma_distinct();
    if counts@.len() > 0 {
        let e = entry.unwrap();
        let i = choose|i: int| #[trigger]
            tally::is_busiest(counts@, i) && e.0 == counts@[i].0 && e.1 == counts@[i].1;
        tally::lemma_slot_is(counts@, i);
        if tally::listed(counts@, ip) {
            let j = tally::slot(counts@, ip);
            assert(counts@[j].1 <= counts@[i].1);
        }
    }
}

/// An entry is a source with its count, and no source has two entries.
pub proof fn law_entries_are_the_counts(
    counts: &SourceCounts,
    i: usize,
    j: usize,
    entry: (IpAddr, u32),
    other: (IpAddr, u32),
    count: u32,
)
    requires
        counts.wf(),
        i < j < counts@.len(),
        call_ensures(SourceCounts::entry, (counts, i), entry),
        call_ensures(SourceCounts::entry, (counts, j), other),
        call_ensures(SourceCounts::count, (counts, entry.0), count),
    ensures
        count == entry.1,
        entry.0 != other.0,
{
    counts.lemma_distinct();
    tally::lemma_slot_is(counts@, i as int);
}

/// What is new or was cleared counts nothing.
pub proof fn law_nothing_is_counted_at_first(
    cleared: &mut SourceCounts,
    cleared_flows: &mut FlowCounts,
    new: SourceCounts,
    new_flows: FlowCounts,
    ip: IpAddr,
    flow: Flow,
    sources: (u32, u32),
    in_flows: (u32, u32),
)
    requires
        call_ensures(SourceCounts::new, (), new),
        call_ensures(SourceCounts::clear, (cleared,), ()),
        call_ensures(FlowCounts::new, (), new_flows),
        call_ensures(FlowCounts::clear, (cleared_flows,), ()),
        call_ensures(SourceCounts::count, (&new, ip), sources.0),
        call_ensures(SourceCounts::count, (&*final(cleared), ip), sources.1),
        call_ensures(FlowCounts::count, (&new_flows, flow), in_flows.0),
        call_ensures(FlowCounts::count, (&*final(cleared_flows), flow), in_flows.1),
    ensures
        sources == (0u32, 0u32),
        in_flows == (0u32, 0u32),
{
}

/// There is room for a packet of a source as long as neither its counter nor
/// that of the window is full.
pub proof fn law_room_for_a_source(
    acc: &EntropyAccumulator,
    src_ip: IpAddr,
    packets: usize,
    room: bool,
)
    requires
        acc.wf(),
        call_ensures(EntropyAccumulator::packet_count, (acc,), packets),
        call_ensures(EntropyAccumulator::has_room_for, (acc, src_ip), room),
    ensures
        room <==> tally::count_of(acc.tally(), src_ip) < 0xFFFF_FFFF && packets < usize::MAX,
{
}

/// The flows that come first are those with the largest counts: each is shown
/// with its own count, no count rises, none is shown twice, and what is not
/// shown has no more than any of the twenty that are.
pub proof fn law_top_flows_have_most(
    counts: &FlowCounts,
    top: Vec<(Flow, u32)>,
    flow: Flow,
    count: u32,
)
    requires
        counts.wf(),
        call_ensures(FlowCounts::top_flows, (counts,), top),
        call_ensures(FlowCounts::count, (counts, flow), count),
    ensures
        top@.len() <= 20,
        forall|k: int| 0 <= k < top@.len() && (#[trigger] top@[k]).0 == flow ==> top@[k].1 == count,
        forall|k: int, l: int|
            0 <= k < l < top@.len() ==> (#[trigger] top@[k]).1 >= (#[trigger] top@[l]).1
                && top@[k].0 != top@[l].0,
        (exists|k: int| 0 <= k < top@.len() && (#[trigger] top@[k]).0 == flow) || count == 0 || (
        top@.len() == 20 && forall|k: int| 0 <= k < 20 ==> (#[trigger] top@[k]).1 >= count),
{
    let t = counts@;
    counts.lemma_distinct();
    let picks = choose|picks: Seq<int>| #[trigger]
        flows::is_listing(t, picks, flows::TOP_FLOWS as nat) && flows::shows(t, picks, top@);
    flows::law_listing_shows_the_busiest(t, picks, flows::TOP_FLOWS as nat);
    assert forall|k: int| 0 <= k < top@.len() && (#[trigger] top@[k]).0 == flow implies top@[k].1
        == count by {
        tally::lemma_slot_is(t, picks[k]);
    }
    assert forall|k: int, l: int| 0 <= k < l < top@.len() implies (#[trigger] top@[k]).1 >= (
    #[trigger] top@[l]).1 && top@[k].0 != top@[l].0 by {
        assert(t[picks[k]].1 >= t[picks[l]].1);
    }
    if count > 0 {
        let i = tally::slot(t, flow);
        if picks.contains(i) {
            let k = choose|k: int| 0 <= k < picks.len() && picks[k] == i;
            assert(top@[k].0 == flow);
        } else {
            if t.len() < 20 {
                lemma_picks_once_each(t, picks);
                flows::lemma_one_is_left_out(picks, t.len(), i);
            }
            assert forall|k: int| 0 <= k < 20 implies (#[trigger] top@[k]).1 >= count by {
                assert(t[picks[k]].1 >= t[i].1);
            }
        }
    }
}

/// A listing picks no entry twice.
proof fn lemma_picks_once_each(t: tally::Tally<Flow>, picks: Seq<int>)
    requires
        flows::is_listing(t, picks, flows::TOP_FLOWS as nat),
    ensures
        picks.no_duplicates(),
{
    assert forall|k: int, l: int|
        0 <= k < picks.len() && 0 <= l < picks.len() && k != l implies picks[k] != picks[l] by {
        if k < l {
            assert(flows::ahead(t, picks[k], picks[l]));
        } else {
            assert(flows::ahead(t, picks[l], picks[k]));
        }
    }
}

} // verus!
