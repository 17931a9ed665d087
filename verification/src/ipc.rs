//! The hand-over to stage 2: the bytes of a feature vector, and the steps by
//! which they reach a Unix domain socket that may come and go.
//!
//! All numbers are doubles, least significant byte first, in the order of the
//! fields and without padding. Python reads a vector with
//! `struct.unpack('<9d', data)` and a report with `struct.unpack('<9d16s', data)`.
use vstd::prelude::*;

use crate::address::IpAddr;
use crate::scalar::Scalar;
use crate::wire;

verus! {

/// Where stage 2 listens unless told otherwise.
pub const SOCKET_PATH: &'static str = "/tmp/ddos_stage1.sock";

/// Bytes of a feature vector on the wire: nine numbers of eight bytes.
pub const FEATURE_VECTOR_BYTES: usize = 72;

/// Bytes of a report on the wire: a feature vector and an address.
pub const REPORT_BYTES: usize = 88;

/// The smoothed rate lies above its boundary.
pub const FLAG_RATE_ANOMALY: u8 = 0x01;

/// The entropy lies below its boundary.
pub const FLAG_ENTROPY_ANOMALY: u8 = 0x02;

/// What stage 2 learns of a window.
#[derive(Clone, Copy, Debug, PartialEq, Eq, Structural)]
pub struct FeatureVector {
    /// Normalized entropy of the sources.
    pub entropy: Scalar,
    /// Smoothed packet rate.
    pub ewma_rate: Scalar,
    /// Mean entropy of the baseline.
    pub mean_h: Scalar,
    /// Mean rate of the baseline.
    pub mean_r: Scalar,
    /// Standard deviation of the entropy.
    pub sigma_h: Scalar,
    /// Standard deviation of the rate.
    pub sigma_r: Scalar,
    /// Share of TCP among the packets of a known protocol.
    pub proto_ratio: Scalar,
    /// Share of the busiest source among all packets.
    pub dominant_ip_ratio: Scalar,
    /// When the window closed, in seconds since the epoch.
    pub timestamp: Scalar,
}

/// The numbers of a frame one after the other, eight bytes each.
pub open spec fn frame(numbers: Seq<Scalar>) -> Seq<u8>
    decreases numbers.len(),
{
    if numbers.len() == 0 {
        Seq::empty()
    } else {
        frame(numbers.drop_last()) + wire::little_endian(numbers.last().bits as nat, 8)
    }
}

impl FeatureVector {
    /// The nine numbers in the order of the wire.
    pub open spec fn numbers(self) -> Seq<Scalar> {
        seq![
            self.entropy,
            self.ewma_rate,
            self.mean_h,
            self.mean_r,
            self.sigma_h,
            self.sigma_r,
            self.proto_ratio,
            self.dominant_ip_ratio,
            self.timestamp,
        ]
    }

    /// The nine numbers in the order of the wire.
    pub fn values(&self) -> (v: [Scalar; 9])
        ensures
            v@ == self.numbers(),
    {
        let v: [Scalar; 9] = [
            self.entropy,
            self.ewma_rate,
            self.mean_h,
            self.mean_r,
            self.sigma_h,
            self.sigma_r,
            self.proto_ratio,
            self.dominant_ip_ratio,
            self.timestamp,
        ];
        assert(v@ =~= self.numbers());
        v
    }

    /// The bytes of the vector.
    pub fn to_bytes(&self) -> (bytes: [u8; FEATURE_VECTOR_BYTES])
        ensures
            bytes@ == frame(self.numbers()),
    {
        let buf = self.to_vec();
        let mut bytes: [u8; FEATURE_VECTOR_BYTES] = [0u8;72];
        let mut i: usize = 0;
        while i < FEATURE_VECTOR_BYTES
            invariant
                i <= FEATURE_VECTOR_BYTES,
                buf@.len() == FEATURE_VECTOR_BYTES,
                bytes@.len() == FEATURE_VECTOR_BYTES,
                forall|j: int| 0 <= j < i ==> bytes@[j] == buf@[j],
            decreases FEATURE_VECTOR_BYTES - i,
        {
            bytes[i] = buf[i];
            i = i + 1;
        }
        assert(bytes@ =~= buf@);
        bytes
    }

    /// The bytes of the vector, as a vector.
    fn to_vec(&self) -> (buf: Vec<u8>)
        ensures
            buf@ == frame(self.numbers()),
            buf@.len() == FEATURE_VECTOR_BYTES,
    {
        let numbers: [Scalar; 9] = self.values();
        let mut buf: Vec<u8> = Vec::with_capacity(FEATURE_VECTOR_BYTES);
        let mut i: usize = 0;
        while i < 9
            invariant
                i <= 9,
                numbers@ == self.numbers(),
                buf@ == frame(self.numbers().take(i as int)),
                buf@.len() == 8 * i,
            decreases 9 - i,
        {
            proof {
                wire::lemma_little_endian_len(numbers@[i as int].bits as nat, 8);
                assert(self.numbers().take(i + 1).drop_last() =~= self.numbers().take(i as int));
            }
            wire::append_u64(&mut buf, numbers[i].bits);
            i = i + 1;
        }
        assert(self.numbers().take(9) =~= self.numbers());
        buf
    }
}

/// A report to stage 2: a feature vector, and the source to act against.
#[derive(Clone, Copy, Debug, PartialEq, Eq, Structural)]
pub struct Report {
    /// What stage 2 learns of the window.
    pub features: FeatureVector,
    /// The busiest source of the window.
    pub dominant_ip: IpAddr,
}

impl Report {
    /// The bytes of a report: those of the vector, then the sixteen octets of
    /// the address, an IPv4 address embedded in an IPv6 one.
    pub open spec fn frame(self) -> Seq<u8> {
        frame(self.features.numbers()) + wire::big_endian(self.dominant_ip.embedded(), 16)
    }

    /// The bytes of the report.
    pub fn to_bytes(&self) -> (bytes: [u8; REPORT_BYTES])
        ensures
            bytes@ == self.frame(),
    {
        let buf = self.to_vec();
        let mut bytes: [u8; REPORT_BYTES] = [0u8;88];
        let mut i: usize = 0;
        while i < REPORT_BYTES
            invariant
                i <= REPORT_BYTES,
                buf@.len() == REPORT_BYTES,
                bytes@.len() == REPORT_BYTES,
                forall|j: int| 0 <= j < i ==> bytes@[j] == buf@[j],
            decreases REPORT_BYTES - i,
        {
            bytes[i] = buf[i];
            i = i + 1;
        }
        assert(bytes@ =~= buf@);
        bytes
    }

    /// The bytes of the report, as a vector.
    fn to_vec(&self) -> (buf: Vec<u8>)
        ensures
            buf@ == self.frame(),
            buf@.len() == REPORT_BYTES,
    {
        let mut buf: Vec<u8> = self.features.to_vec();
        wire::append_u128_big_endian(&mut buf, self.dominant_ip.to_embedded());
        proof {
            wire::lemma_little_endian_len(self.dominant_ip.embedded(), 16);
        }
        buf
    }
}

/// The lengths of frames, and where in a frame each number stands.
proof fn lemma_frame_offsets(numbers: Seq<Scalar>, i: int)
    ensures
        frame(numbers).len() == 8 * numbers.len(),
        0 <= i < numbers.len() ==> frame(numbers).subrange(8 * i, 8 * i + 8) == wire::little_endian(
            numbers[i].bits as nat,
            8,
        ),
    decreases numbers.len(),
{
    if numbers.len() > 0 {
        let before = numbers.drop_last();
        let last = wire::little_endian(numbers.last().bits as nat, 8);
        lemma_frame_offsets(before, i);
        wire::lemma_little_endian_len(numbers.last().bits as nat, 8);
        if 0 <= i < before.len() {
            assert(frame(numbers).subrange(8 * i, 8 * i + 8) =~= frame(before).subrange(
                8 * i,
                8 * i + 8,
            ));
        } else if i == before.len() {
            assert(frame(numbers).subrange(8 * i, 8 * i + 8) =~= last);
        }
    }
}

/// A feature vector takes 72 bytes; its field `i` stands in the eight bytes
/// from `8 * i` on and can be read back from them.
pub proof fn law_vector_layout(fv: FeatureVector, i: int)
    requires
        0 <= i < 9,
    ensures
        frame(fv.numbers()).len() == FEATURE_VECTOR_BYTES,
        frame(fv.numbers()).subrange(8 * i, 8 * i + 8) == wire::little_endian(
            fv.numbers()[i].bits as nat,
            8,
        ),
        wire::number_of(frame(fv.numbers()).subrange(8 * i, 8 * i + 8)) == fv.numbers()[i].bits,
{
    lemma_frame_offsets(fv.numbers(), i);
    wire::lemma_widths();
    wire::law_little_endian_round_trip(fv.numbers()[i].bits as nat, 8);
}

/// Different feature vectors have different bytes.
pub proof fn law_vector_bytes_tell_vectors_apart(a: FeatureVector, b: FeatureVector)
    requires
        frame(a.numbers()) == frame(b.numbers()),
    ensures
        a == b,
{
    assert forall|i: int| 0 <= i < 9 implies #[trigger] a.numbers()[i] == b.numbers()[i] by {
        law_vector_layout(a, i);
        law_vector_layout(b, i);
    }
    assert(a.numbers()[0] == b.numbers()[0]);
    assert(a.numbers()[1] == b.numbers()[1]);
    assert(a.numbers()[2] == b.numbers()[2]);
    assert(a.numbers()[3] == b.numbers()[3]);
    assert(a.numbers()[4] == b.numbers()[4]);
    assert(a.numbers()[5] == b.numbers()[5]);
    assert(a.numbers()[6] == b.numbers()[6]);
    assert(a.numbers()[7] == b.numbers()[7]);
    assert(a.numbers()[8] == b.numbers()[8]);
}

/// A report takes 88 bytes: it begins with its feature vector and ends with
/// its address, which can be read back from the last sixteen bytes.
pub proof fn law_report_layout(report: Report)
    ensures
        report.frame().len() == REPORT_BYTES,
        report.frame().take(72) == frame(report.features.numbers()),
        wire::number_of(report.frame().skip(72).reverse()) == report.dominant_ip.embedded(),
{
    let octets = wire::little_endian(report.dominant_ip.embedded(), 16);
    lemma_frame_offsets(report.features.numbers(), 0);
    wire::lemma_widths();
    wire::law_little_endian_round_trip(report.dominant_ip.embedded(), 16);
    assert(report.frame().take(72) =~= frame(report.features.numbers()));
    assert(report.frame().skip(72) =~= octets.reverse());
    assert(octets.reverse().reverse() =~= octets);
}

/// What it takes to have a connection.
#[derive(Clone, Copy, Debug, PartialEq, Eq, Structural)]
pub enum ConnectStep {
    /// Nothing: there is one.
    Ready,
    /// Connect to the path, then say how it went.
    Connect,
}

/// What it takes to send a frame.
#[derive(Debug)]
pub enum SendStep {
    /// A connection first.
    Connect,
    /// Write these bytes, then say how it went.
    Write(Vec<u8>),
}

/// The connection to stage 2, which is made when first needed and made again
/// after it broke. The socket itself is the caller's: here is what to do with
/// it and what to remember of it.
pub struct IpcSocket {
    connected: bool,
    path: String,
}

impl IpcSocket {
    /// There is a connection.
    pub closed spec fn connected(&self) -> bool {
        self.connected
    }

    /// Where stage 2 listens.
    pub closed spec fn path(&self) -> Seq<char> {
        self.path@
    }

    /// A socket at the default path, not yet connected.
    pub fn new() -> (socket: IpcSocket)
        ensures
            !socket.connected(),
            socket.path() == SOCKET_PATH@,
    {
        IpcSocket { connected: false, path: SOCKET_PATH.to_owned() }
    }

    /// A socket at another path, not yet connected.
    pub fn with_path(path: String) -> (socket: IpcSocket)
        ensures
            !socket.connected(),
            socket.path() == path@,
    {
        IpcSocket { connected: false, path }
    }

    /// Where stage 2 listens.
    pub fn socket_path(&self) -> (path: &str)
        ensures
            path@ == self.path(),
    {
        self.path.as_str()
    }

    /// Whether there is a connection.
    pub fn is_connected(&self) -> (connected: bool)
        ensures
            connected == self.connected(),
    {
        self.connected
    }

    /// What is missing before a frame can be sent.
    pub fn ensure_connected(&self) -> (step: ConnectStep)
        ensures
            step == if self.connected() {
                ConnectStep::Ready
            } else {
                ConnectStep::Connect
            },
    {
        if self.connected {
            ConnectStep::Ready
        } else {
            ConnectStep::Connect
        }
    }

    /// Takes note of how an attempt to connect went; the result is whether the
    /// socket is ready for use.
    pub fn connect_done(&mut self, success: bool) -> (ready: bool)
        ensures
            ready == success,
            final(self).connected() == connected_after_connect(success),
            final(self).path() == old(self).path(),
    {
        self.connected = success;
        success
    }

    /// What is to be done to send a feature vector.
    pub fn send(&self, fv: &FeatureVector) -> (step: SendStep)
        ensures
            match step {
                SendStep::Connect => !self.connected(),
                SendStep::Write(bytes) => self.connected() && bytes@ == frame(fv.numbers()),
            },
    {
        match self.ensure_connected() {
            ConnectStep::Connect => SendStep::Connect,
            ConnectStep::Ready => SendStep::Write(fv.to_vec()),
        }
    }

    /// What is to be done to send a report.
    pub fn send_report(&self, report: &Report) -> (step: SendStep)
        ensures
            match step {
                SendStep::Connect => !self.connected(),
                SendStep::Write(bytes) => self.connected() && bytes@ == report.frame(),
            },
    {
        match self.ensure_connected() {
            ConnectStep::Connect => SendStep::Connect,
            ConnectStep::Ready => SendStep::Write(report.to_vec()),
        }
    }

    /// Takes note of how a write went; the result is whether the frame was
    /// sent. A connection that failed is dropped.
    pub fn write_done(&mut self, success: bool) -> (sent: bool)
        ensures
            sent == success,
            final(self).connected() == connected_after_write(old(self).connected(), success),
            final(self).path() == old(self).path(),
    {
        if !success {
            self.connected = false;
        }
        success
    }
}

impl Default for IpcSocket {
    fn default() -> (socket: IpcSocket)
        ensures
            !socket.connected(),
            socket.path() == SOCKET_PATH@,
    {
        IpcSocket::new()
    }
}

/// Whether there is a connection after an attempt to connect.
pub open spec fn connected_after_connect(success: bool) -> bool {
    success
}

/// Whether there is a connection after an attempt to write.
pub open spec fn connected_after_write(connected: bool, success: bool) -> bool {
    connected && success
}

/// The connection after an attempt to send, and whether the frame was sent,
/// given how the connecting, if it is needed, and the writing, if it comes to
/// that, turn out.
pub open spec fn send_run(connected: bool, connecting: bool, writing: bool) -> (bool, bool) {
    let ready = if connected {
        connected
    } else {
        connected_after_connect(connecting)
    };
    if ready {
        (connected_after_write(ready, writing), writing)
    } else {
        (ready, false)
    }
}

/// A frame is sent exactly when there is, or can be made, a connection and the
/// write succeeds; and a connection is left behind exactly when the frame was
/// sent, so that after a failure the next attempt connects anew.
pub proof fn law_failed_send_reconnects(connected: bool, connecting: bool, writing: bool)
    ensures
        send_run(connected, connecting, writing).1 == ((connected || connecting) && writing),
        send_run(connected, connecting, writing).0 == send_run(connected, connecting, writing).1,
{
}

} // verus!
