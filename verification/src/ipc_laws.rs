//! What goes over the wire, told by the bytes, and how the steps of the socket
//! follow from one another.
use vstd::arithmetic::power::*;
use vstd::prelude::*;

use crate::address::IpAddr;
use crate::ipc;
use crate::ipc::ConnectStep;
use crate::ipc::FeatureVector;
use crate::ipc::IpcSocket;
use crate::ipc::Report;
use crate::ipc::SendStep;
use crate::scalar::Scalar;
use crate::wire;

verus! {

/// The number that eight bytes stand for, the first of them counting least.
pub open spec fn eight_bytes(b: Seq<u8>, at: int) -> int {
    b[at] + 0x100 * b[at + 1] + 0x1_0000 * b[at + 2] + 0x100_0000 * b[at + 3] + 0x1_0000_0000 * b[at
        + 4] + 0x100_0000_0000 * b[at + 5] + 0x1_0000_0000_0000 * b[at + 6]
        + 0x100_0000_0000_0000 * b[at + 7]
}

/// The number that four bytes stand for, the first of them counting most.
pub open spec fn four_bytes(b: Seq<u8>, at: int) -> int {
    0x100_0000 * b[at] + 0x1_0000 * b[at + 1] + 0x100 * b[at + 2] + b[at + 3]
}

/// Digit `i` of a number in base 256 is what remains of the number after `i`
/// divisions by 256, modulo 256.
pub proof fn law_digits(n: nat, width: nat, i: int)
    requires
        0 <= i < width,
    ensures
        wire::little_endian(n, width).len() == width,
        wire::little_endian(n, width)[i] == (n as int / pow(256, i as nat)) % 256,
        wire::big_endian(n, width).len() == width,
        wire::big_endian(n, width)[width - 1 - i] == (n as int / pow(256, i as nat)) % 256,
    decreases width,
{
    wire::lemma_little_endian_len(n, width);
    let rest = wire::little_endian(n / 256, (width - 1) as nat);
    if i == 0 {
        lemma_pow0(256);
        assert(n as int / 1 == n as int);
    } else {
        law_digits(n / 256, (width - 1) as nat, i - 1);
        assert(wire::little_endian(n, width)[i] == rest[i - 1]);
        let p = pow(256, (i - 1) as nat);
        lemma_pow_positive(256, (i - 1) as nat);
        assert(pow(256, i as nat) == 256 * p) by {
            reveal(pow);
        }
        vstd::arithmetic::div_mod::lemma_div_denominator(n as int, 256, p);
    }
}

/// Eight digits of a number give the number back.
proof fn lemma_eight_bytes(n: nat, b: Seq<u8>, at: int)
    requires
        n < 0x1_0000_0000_0000_0000,
        0 <= at,
        at + 8 <= b.len(),
        b.subrange(at, at + 8) == wire::little_endian(n, 8),
    ensures
        eight_bytes(b, at) == n,
{
    let s = b.subrange(at, at + 8);
    wire::lemma_widths();
    wire::law_little_endian_round_trip(n, 8);
    assert(s[0] == b[at] && s[1] == b[at + 1] && s[2] == b[at + 2] && s[3] == b[at + 3]);
    assert(s[4] == b[at + 4] && s[5] == b[at + 5] && s[6] == b[at + 6] && s[7] == b[at + 7]);
    let s1 = s.drop_first();
    let s2 = s1.drop_first();
    let s3 = s2.drop_first();
    let s4 = s3.drop_first();
    let s5 = s4.drop_first();
    let s6 = s5.drop_first();
    let s7 = s6.drop_first();
    assert(wire::number_of(s7.drop_first()) == 0);
    assert(wire::number_of(s7) == s[7]);
    assert(wire::number_of(s6) == s[6] + 256 * wire::number_of(s7));
    assert(wire::number_of(s5) == s[5] + 256 * wire::number_of(s6));
    assert(wire::number_of(s4) == s[4] + 256 * wire::number_of(s5));
    assert(wire::number_of(s3) == s[3] + 256 * wire::number_of(s4));
    assert(wire::number_of(s2) == s[2] + 256 * wire::number_of(s3));
    assert(wire::number_of(s1) == s[1] + 256 * wire::number_of(s2));
    assert(wire::number_of(s) == s[0] + 256 * wire::number_of(s1));
}

/// The numbers of a frame stand where they can be read back.
proof fn lemma_field(fv: FeatureVector, i: int)
    requires
        0 <= i < 9,
    ensures
        ipc::frame(fv.numbers()).len() == 72,
        eight_bytes(ipc::frame(fv.numbers()), 8 * i) == fv.numbers()[i].bits,
{
    ipc::law_vector_layout(fv, i);
    lemma_eight_bytes(fv.numbers()[i].bits as nat, ipc::frame(fv.numbers()), 8 * i);
}

/// Each field of a vector stands in its own eight bytes, the least significant
/// first: entropy, rate, the two means, the two deviations, the two shares and
/// the time, in this order and without gaps.
pub proof fn law_fields_on_the_wire(fv: &FeatureVector, bytes: [u8; 72])
    requires
        call_ensures(FeatureVector::to_bytes, (fv,), bytes),
    ensures
        eight_bytes(bytes@, 0) == fv.entropy.bits,
        eight_bytes(bytes@, 8) == fv.ewma_rate.bits,
        eight_bytes(bytes@, 16) == fv.mean_h.bits,
        eight_bytes(bytes@, 24) == fv.mean_r.bits,
        eight_bytes(bytes@, 32) == fv.sigma_h.bits,
        eight_bytes(bytes@, 40) == fv.sigma_r.bits,
        eight_bytes(bytes@, 48) == fv.proto_ratio.bits,
        eight_bytes(bytes@, 56) == fv.dominant_ip_ratio.bits,
        eight_bytes(bytes@, 64) == fv.timestamp.bits,
{
    lemma_field(*fv, 0);
    lemma_field(*fv, 1);
    lemma_field(*fv, 2);
    lemma_field(*fv, 3);
    lemma_field(*fv, 4);
    lemma_field(*fv, 5);
    lemma_field(*fv, 6);
    lemma_field(*fv, 7);
    lemma_field(*fv, 8);
}

/// The values of a vector are its fields, in the order of the wire.
pub proof fn law_values_are_the_fields(fv: &FeatureVector, v: [Scalar; 9])
    requires
        call_ensures(FeatureVector::values, (fv,), v),
    ensures
        v@[0] == fv.entropy && v@[1] == fv.ewma_rate && v@[2] == fv.mean_h,
        v@[3] == fv.mean_r && v@[4] == fv.sigma_h && v@[5] == fv.sigma_r,
        v@[6] == fv.proto_ratio && v@[7] == fv.dominant_ip_ratio && v@[8] == fv.timestamp,
{
}

/// A report is the bytes of its vector and then sixteen octets: those of an
/// IPv6 address, or ten zeros, two times 255 and the four octets of an IPv4
/// address, in each case the most significant first.
pub proof fn law_report_on_the_wire(
    report: &Report,
    bytes: [u8; 88],
    vector: [u8; 72],
    i: int,
)
    requires
        0 <= i < 16,
        call_ensures(Report::to_bytes, (report,), bytes),
        call_ensures(FeatureVector::to_bytes, (&report.features,), vector),
    ensures
        bytes@.take(72) == vector@,
        report.dominant_ip matches IpAddr::V6(v) ==> bytes@[87 - i] == (v as int / pow(
            256,
            i as nat,
        )) % 256,
        report.dominant_ip matches IpAddr::V4(v) ==> {
            &&& i < 10 ==> bytes@[72 + i] == 0
            &&& bytes@[82] == 255 && bytes@[83] == 255
            &&& four_bytes(bytes@, 84) == v
        },
{
    let n = report.dominant_ip.embedded();
    let octets = wire::big_endian(n, 16);
    ipc::law_vector_layout(report.features, 0);
    ipc::law_report_layout(*report);
    assert(bytes@.skip(72) =~= octets);
    law_digits(n, 16, i);
    assert(bytes@[87 - i] == octets[15 - i]);
    if let IpAddr::V4(v) = report.dominant_ip {
        lemma_embedded_octets(v);
        assert(bytes@[72 + i] == octets[i]);
        assert(bytes@[82] == octets[10] && bytes@[83] == octets[11]);
        assert(bytes@[84] == octets[12] && bytes@[85] == octets[13]);
        assert(bytes@[86] == octets[14] && bytes@[87] == octets[15]);
        assert(forall|k: int| 0 <= k < 10 ==> #[trigger] octets[k] == 0);
    }
}

/// The octets of an IPv4 address that is embedded in an IPv6 one.
proof fn lemma_embedded_octets(v: u32)
    ensures
        ({
            let octets = wire::big_endian(0xFFFF_0000_0000 + v as nat, 16);
            &&& octets.len() == 16
            &&& forall|k: int| 0 <= k < 10 ==> #[trigger] octets[k] == 0
            &&& octets[10] == 255 && octets[11] == 255
            &&& four_bytes(octets, 12) == v
        }),
{
    let n = 0xFFFF_0000_0000 + v as nat;
    let d = wire::little_endian(n, 16);
    let octets = wire::big_endian(n, 16);
    wire::lemma_little_endian_len(n, 16);
    let n1 = n / 256;
    let n2 = n1 / 256;
    let n3 = n2 / 256;
    let n4 = n3 / 256;
    let n5 = n4 / 256;
    let n6 = n5 / 256;
    assert(n4 == 0xFFFF && n5 == 0xFF && n6 == 0);
    let d1 = wire::little_endian(n1, 15);
    let d2 = wire::little_endian(n2, 14);
    let d3 = wire::little_endian(n3, 13);
    let d4 = wire::little_endian(n4, 12);
    let d5 = wire::little_endian(n5, 11);
    let d6 = wire::little_endian(n6, 10);
    assert(d =~= seq![(n % 256) as u8] + d1);
    assert(d1 =~= seq![(n1 % 256) as u8] + d2);
    assert(d2 =~= seq![(n2 % 256) as u8] + d3);
    assert(d3 =~= seq![(n3 % 256) as u8] + d4);
    assert(d4 =~= seq![(n4 % 256) as u8] + d5);
    assert(d5 =~= seq![(n5 % 256) as u8] + d6);
    lemma_digits_of_zero(10);
    assert(d6.len() == 10);
    assert(octets =~= d.reverse());
    assert forall|k: int| 0 <= k < 10 implies #[trigger] octets[k] == 0 by {
        assert(octets[k] == d[15 - k]);
        assert(d[15 - k] == d6[9 - k]);
    }
    assert(octets[15] == d[0] && octets[14] == d[1] && octets[13] == d[2] && octets[12] == d[3]);
    assert(octets[11] == d[4] && octets[10] == d[5]);
    assert(d[0] == n % 256 && d[1] == n1 % 256 && d[2] == n2 % 256 && d[3] == n3 % 256);
    assert(d[4] == n4 % 256 && d[5] == n5 % 256);
}

/// All digits of zero are zero.
proof fn lemma_digits_of_zero(width: nat)
    ensures
        wire::little_endian(0, width).len() == width,
        forall|k: int| 0 <= k < width ==> #[trigger] wire::little_endian(0, width)[k] == 0,
    decreases width,
{
    if width > 0 {
        lemma_digits_of_zero((width - 1) as nat);
    }
}

/// The octets of an address are the parts that it was made of, the first the
/// most significant.
pub proof fn law_address_from_octets(a: u8, b: u8, c: u8, d: u8, ip: IpAddr)
    requires
        call_ensures(IpAddr::from_octets, (a, b, c, d), ip),
    ensures
        ip is V4,
        ip matches IpAddr::V4(v) ==> v == four_bytes(seq![a, b, c, d], 0),
{
}

/// What is sent is the bytes of what was to be sent; nothing is, as long as
/// there is no connection, and it is as soon as there is one.
pub proof fn law_sending_needs_a_connection(
    socket: &IpcSocket,
    fv: &FeatureVector,
    report: &Report,
    ready: ConnectStep,
    step: SendStep,
    report_step: SendStep,
    bytes: [u8; 72],
    report_bytes: [u8; 88],
)
    requires
        call_ensures(IpcSocket::ensure_connected, (socket,), ready),
        call_ensures(IpcSocket::send, (socket, fv), step),
        call_ensures(IpcSocket::send_report, (socket, report), report_step),
        call_ensures(FeatureVector::to_bytes, (fv,), bytes),
        call_ensures(Report::to_bytes, (report,), report_bytes),
    ensures
        ready == ConnectStep::Ready <==> socket.connected(),
        step is Write <==> socket.connected(),
        report_step is Write <==> socket.connected(),
        step matches SendStep::Write(b) ==> b@ == bytes@,
        report_step matches SendStep::Write(b) ==> b@ == report_bytes@,
{
}

/// There is a connection after connecting exactly if that succeeded, and after
/// writing exactly if there was one and the write succeeded; the answer is what
/// is reported, and the path stays what it is.
pub proof fn law_connection_follows_the_outcome(
    socket: &mut IpcSocket,
    written: &mut IpcSocket,
    success: bool,
    ready: bool,
    sent: bool,
)
    requires
        call_ensures(IpcSocket::connect_done, (socket, success), ready),
        call_ensures(IpcSocket::write_done, (written, success), sent),
    ensures
        ready == success,
        sent == success,
        final(socket).connected() <==> success,
        final(written).connected() <==> old(written).connected() && success,
        final(socket).path() == old(socket).path(),
        final(written).path() == old(written).path(),
{
}

/// A socket starts without a connection, at the path that it is given or at
/// the usual one.
pub proof fn law_socket_starts_unconnected(path: String, usual: IpcSocket, other: IpcSocket)
    requires
        call_ensures(IpcSocket::new, (), usual),
        call_ensures(IpcSocket::with_path, (path,), other),
    ensures
        !usual.connected() && !other.connected(),
        usual.path() == "/tmp/ddos_stage1.sock"@,
        other.path() == path@,
{
}

} // verus!
