//! The SNTP client: a single-shot request/reply exchange over a datagram
//! socket, the fixed 48-byte packet layout, and the four-timestamp clock
//! offset computation in milliseconds. No retry, no averaging, no sanity
//! checks on the reply beyond its length.

use vstd::prelude::*;
use crate::stack::{SocketAddr, TcpError, TcpStack, UdpSocket};

verus! {

/// Powers of 256, for byte arithmetic.
pub open spec fn pow256(n: int) -> int
    decreases n,
{
    if n <= 0 {
        1
    } else {
        256 * pow256(n - 1)
    }
}

/// The `n` big-endian bytes of a number.
pub open spec fn be_bytes(v: int, n: int) -> Seq<u8>
    decreases n,
{
    if n <= 0 {
        Seq::empty()
    } else {
        be_bytes(v / 256, n - 1).push((v % 256) as u8)
    }
}

/// The number a big-endian byte string spells.
pub open spec fn dec_be(s: Seq<u8>) -> int
    decreases s.len(),
{
    if s.len() == 0 {
        0
    } else {
        dec_be(s.drop_last()) * 256 + s.last()
    }
}

/// A byte string spells a nonnegative number below the power of its length.
pub proof fn lemma_dec_be_bounds(s: Seq<u8>)
    ensures
        0 <= dec_be(s) < pow256(s.len() as int),
    decreases s.len(),
{
    if s.len() > 0 {
        lemma_dec_be_bounds(s.drop_last());
        assert(dec_be(s.drop_last()) * 256 + s.last() < pow256(s.len() as int)) by (
        nonlinear_arith)
            requires
                0 <= dec_be(s.drop_last()) < pow256(s.len() - 1),
                s.last() < 256,
                pow256(s.len() as int) == 256 * pow256(s.len() - 1),
        ;
        assert(dec_be(s.drop_last()) * 256 >= 0) by (nonlinear_arith)
            requires
                dec_be(s.drop_last()) >= 0,
        ;
    }
}

/// Reading back the big-endian bytes of a number below the power of their
/// count gives the number itself.
pub proof fn lemma_dec_be_of_be_bytes(v: int, n: int)
    requires
        0 <= v < pow256(n),
        n >= 0,
    ensures
        be_bytes(v, n).len() == n,
        dec_be(be_bytes(v, n)) == v,
    decreases n,
{
    if n == 0 {
    } else {
        assert(v / 256 < pow256(n - 1) && v / 256 >= 0) by (nonlinear_arith)
            requires
                0 <= v < pow256(n),
                pow256(n) == 256 * pow256(n - 1),
        ;
        lemma_dec_be_of_be_bytes(v / 256, n - 1);
        let t = be_bytes(v, n);
        assert(t.drop_last() =~= be_bytes(v / 256, n - 1));
        assert(t.last() == (v % 256) as u8);
        assert(v == (v / 256) * 256 + v % 256);
    }
}

/// Appends the `n` big-endian bytes of a number.
fn push_be_bytes(v: u64, n: usize, out: &mut Vec<u8>)
    requires
        n <= 8,
    ensures
        final(out)@ == old(out)@ + be_bytes(v as int, n as int),
    decreases n,
{
    if n > 0 {
        push_be_bytes(v / 256, n - 1, out);
        out.push((v % 256) as u8);
        assert(old(out)@ + be_bytes(v as int / 256, n - 1) + seq![(v as int % 256) as u8]
            =~= old(out)@ + be_bytes(v as int, n as int));
    } else {
        assert(old(out)@ + be_bytes(v as int, 0) =~= old(out)@);
    }
}

/// Reads the eight big-endian bytes at a position as a number.
fn read_u64_be(s: &[u8], from: usize) -> (r: u64)
    requires
        from + 8 <= s@.len(),
    ensures
        r == dec_be(s@.subrange(from as int, from as int + 8)),
{
    let n = s.len();
    let end = from + 8;
    let mut acc: u64 = 0;
    let mut i: usize = from;
    proof {
        assert(s@.subrange(from as int, from as int) =~= Seq::<u8>::empty());
        lemma_pow256_8();
    }
    while i < end
        invariant
            end == from + 8,
            from <= i <= end,
            end <= s@.len(),
            acc == dec_be(s@.subrange(from as int, i as int)),
            acc < pow256(i - from),
            pow256(i - from) <= pow256(8),
            pow256(8) == 0x1_0000_0000_0000_0000,
        decreases end - i,
    {
        let b = s[i];
        proof {
            let pre = s@.subrange(from as int, i + 1);
            assert(pre.drop_last() =~= s@.subrange(from as int, i as int));
            assert(dec_be(pre) == acc * 256 + b);
            assert(acc * 256 + b < pow256(i + 1 - from)) by (nonlinear_arith)
                requires
                    acc < pow256(i - from),
                    b < 256,
                    pow256(i + 1 - from) == 256 * pow256(i - from),
                    acc >= 0,
            ;
            assert(pow256(i + 1 - from) <= pow256(8)) by {
                lemma_pow256_increases(i + 1 - from, 8);
            }
        }
        acc = acc * 256 + (b as u64);
        i = i + 1;
    }
    acc
}

/// Powers of 256 do not shrink as the exponent grows.
proof fn lemma_pow256_increases(a: int, b: int)
    requires
        0 <= a <= b,
    ensures
        pow256(a) <= pow256(b),
    decreases b,
{
    if a < b {
        lemma_pow256_increases(a, b - 1);
        lemma_pow256_pos(b - 1);
        assert(pow256(b - 1) <= 256 * pow256(b - 1)) by (nonlinear_arith)
            requires
                pow256(b - 1) >= 1,
        ;
    }
}

/// Powers of 256 are positive.
proof fn lemma_pow256_pos(n: int)
    ensures
        pow256(n) >= 1,
    decreases n,
{
    if n > 0 {
        lemma_pow256_pos(n - 1);
        assert(256 * pow256(n - 1) >= pow256(n - 1)) by (nonlinear_arith)
            requires
                pow256(n - 1) >= 1,
        ;
    }
}

/// The eighth power of 256, spelled out.
proof fn lemma_pow256_8()
    ensures
        pow256(8) == 0x1_0000_0000_0000_0000,
{
    assert(pow256(0) == 1);
    assert(pow256(1) == 0x100);
    assert(pow256(2) == 0x1_0000);
    assert(pow256(3) == 0x100_0000);
    assert(pow256(4) == 0x1_0000_0000);
    assert(pow256(5) == 0x100_0000_0000);
    assert(pow256(6) == 0x1_0000_0000_0000);
    assert(pow256(7) == 0x100_0000_0000_0000);
    assert(pow256(8) == 0x1_0000_0000_0000_0000);
}

/// A timestamp in NTP representation: an unsigned fixed-point number of
/// seconds since the NTP epoch, thirty-two integer bits and thirty-two
/// fraction bits.
#[derive(Debug, Copy, Clone, PartialEq, Eq, Structural)]
pub struct NtpEpochTime {
    pub value: u64,
}

/// How many seconds the NTP epoch precedes the Unix epoch.
pub open spec fn ntp_unix_offset() -> int {
    2208988800
}

/// The whole milliseconds a fixed-point NTP value stands for.
pub open spec fn ntp_milliseconds(value: int) -> int {
    (value * 1000) / 0x1_0000_0000
}

impl NtpEpochTime {
    /// A timestamp from a raw fixed-point value.
    pub fn new(value: u64) -> (r: NtpEpochTime)
        ensures
            r.value == value,
    {
        NtpEpochTime { value }
    }

    /// A timestamp from whole seconds since the Unix epoch.
    pub fn from_unix_seconds(s: u64) -> (r: NtpEpochTime)
        requires
            s + ntp_unix_offset() < 0x1_0000_0000,
        ensures
            r.value == (s + ntp_unix_offset()) * 0x1_0000_0000,
    {
        (NtpEpochTime { value: (s + 2208988800) * 0x1_0000_0000 })
    }

    /// The whole seconds since the Unix epoch this timestamp stands for.
    pub fn to_unix_seconds(&self) -> (r: u64)
        requires
            self.value / 0x1_0000_0000 >= ntp_unix_offset(),
        ensures
            r == self.value / 0x1_0000_0000 - ntp_unix_offset(),
    {
        self.value / 0x1_0000_0000 - 2208988800
    }

    /// The whole milliseconds this timestamp stands for.
    pub fn milliseconds(&self) -> (r: u64)
        ensures
            r == ntp_milliseconds(self.value as int),
            r < 0x400_0000_0000,
    {
        proof {
            assert(self.value * 1000 <= 0xFFFF_FFFF_FFFF_FFFF * 1000) by (nonlinear_arith)
                requires
                    self.value <= 0xFFFF_FFFF_FFFF_FFFF,
            ;
        }
        let wide: u128 = (self.value as u128) * 1000;
        (wide / 0x1_0000_0000) as u64
    }
}

/// Half of a number, rounded toward zero.
pub open spec fn half_toward_zero(s: int) -> int {
    if s >= 0 {
        s / 2
    } else {
        -((-s) / 2)
    }
}

/// The standard four-timestamp offset formula, in milliseconds: the mean of
/// (receive − originate) and (transmit − destination).
pub open spec fn offset_formula(t1: int, t2: int, t3: int, t4: int) -> int {
    half_toward_zero((t2 - t1) + (t3 - t4))
}

/// A 48-byte SNTP packet. Constructed for send; decoded from a reply.
#[derive(Debug, Clone)]
pub struct SntpData {
    data: Vec<u8>,
}

/// The exact bytes of a client request carrying an originate timestamp: the
/// leap-indicator/version/mode byte first, the timestamp at its fixed
/// offset, zeros elsewhere.
pub open spec fn request_bytes(now: u64) -> Seq<u8> {
    Seq::new(
        48,
        |i: int|
            if i == 0 {
                0x23u8
            } else if 24 <= i < 32 {
                be_bytes(now as int, 8)[i - 24]
            } else {
                0u8
            },
    )
}

impl SntpData {
    /// The packet's bytes.
    pub closed spec fn spec_data(&self) -> Seq<u8> {
        self.data@
    }

    /// A packet is exactly forty-eight bytes.
    pub closed spec fn wf(&self) -> bool {
        self.data@.len() == 48
    }

    /// Builds a client request stamped with the given current time.
    pub fn new_request_sec(now: NtpEpochTime) -> (r: SntpData)
        ensures
            r.wf(),
            r.spec_data() == request_bytes(now.value),
    {
        let mut data: Vec<u8> = Vec::new();
        data.push(0x23u8);
        let mut k: usize = 1;
        while k < 24
            invariant
                1 <= k <= 24,
                data@.len() == k,
                data@[0] == 0x23u8,
                forall|i: int| 1 <= i < k ==> data@[i] == 0u8,
            decreases 24 - k,
        {
            data.push(0u8);
            k = k + 1;
        }
        push_be_bytes(now.value, 8, &mut data);
        proof {
            lemma_pow256_8();
            lemma_dec_be_of_be_bytes(now.value as int, 8);
        }
        let mut k: usize = 32;
        while k < 48
            invariant
                32 <= k <= 48,
                data@.len() == k,
                data@[0] == 0x23u8,
                forall|i: int| 1 <= i < 24 ==> data@[i] == 0u8,
                forall|i: int| 24 <= i < 32 ==> data@[i] == be_bytes(now.value as int, 8)[i - 24],
                forall|i: int| 32 <= i < k ==> data@[i] == 0u8,
            decreases 48 - k,
        {
            data.push(0u8);
            k = k + 1;
        }
        let r = SntpData { data };
        proof {
            assert(r.spec_data() =~= request_bytes(now.value));
        }
        r
    }

    /// The raw bytes, for sending.
    pub fn get_data(&self) -> (r: &Vec<u8>)
        ensures
            r@ == self.spec_data(),
    {
        &self.data
    }

    /// Adopts a received buffer as a packet; anything but exactly
    /// forty-eight bytes is refused.
    pub fn from_buffer(buf: &[u8]) -> (r: Option<SntpData>)
        ensures
            match r {
                Some(p) => buf@.len() == 48 && p.wf() && p.spec_data() == buf@,
                None => buf@.len() != 48,
            },
    {
        if buf.len() != 48 {
            return None;
        }
        Some(SntpData { data: vstd::slice::slice_to_vec(buf) })
    }

    /// The originate timestamp field.
    pub fn originate_time(&self) -> (r: NtpEpochTime)
        requires
            self.wf(),
        ensures
            r.value == dec_be(self.spec_data().subrange(24, 32)),
    {
        proof {
            lemma_dec_be_bounds(self.data@.subrange(24, 32));
        }
        NtpEpochTime { value: read_u64_be(self.data.as_slice(), 24) }
    }

    /// The receive timestamp field.
    pub fn receive_time(&self) -> (r: NtpEpochTime)
        requires
            self.wf(),
        ensures
            r.value == dec_be(self.spec_data().subrange(32, 40)),
    {
        proof {
            lemma_dec_be_bounds(self.data@.subrange(32, 40));
        }
        NtpEpochTime { value: read_u64_be(self.data.as_slice(), 32) }
    }

    /// The transmit timestamp field.
    pub fn transmit_time(&self) -> (r: NtpEpochTime)
        requires
            self.wf(),
        ensures
            r.value == dec_be(self.spec_data().subrange(40, 48)),
    {
        proof {
            lemma_dec_be_bounds(self.data@.subrange(40, 48));
        }
        NtpEpochTime { value: read_u64_be(self.data.as_slice(), 40) }
    }

    /// The clock offset this reply reports against the local receive time,
    /// in milliseconds: exactly the four-timestamp formula over the packet's
    /// originate, receive and transmit fields and the given destination
    /// time.
    pub fn local_time_offset(&self, received_at: NtpEpochTime) -> (r: i64)
        requires
            self.wf(),
        ensures
            r == offset_formula(
                ntp_milliseconds(dec_be(self.spec_data().subrange(24, 32))),
                ntp_milliseconds(dec_be(self.spec_data().subrange(32, 40))),
                ntp_milliseconds(dec_be(self.spec_data().subrange(40, 48))),
                ntp_milliseconds(received_at.value as int),
            ),
    {
        let t1 = self.originate_time().milliseconds();
        let t2 = self.receive_time().milliseconds();
        let t3 = self.transmit_time().milliseconds();
        let t4 = received_at.milliseconds();
        let d1: i64 = (t2 as i64) - (t1 as i64);
        let d2: i64 = (t3 as i64) - (t4 as i64);
        let sum: i64 = d1 + d2;
        if sum >= 0 {
            let mag = (sum as u64) / 2;
            mag as i64
        } else {
            let mag = ((-sum) as u64) / 2;
            -(mag as i64)
        }
    }
}

/// A computed clock offset, in milliseconds: positive when the remote clock
/// is ahead.
#[derive(Debug, Copy, Clone, PartialEq, Eq, PartialOrd, Structural)]
pub struct SntpTimeOffset {
    milliseconds: i64,
}

impl View for SntpTimeOffset {
    type V = int;

    closed spec fn view(&self) -> int {
        self.milliseconds as int
    }
}

impl SntpTimeOffset {
    /// The offset in milliseconds.
    pub fn milliseconds(&self) -> (r: i64)
        ensures
            r == self@,
    {
        self.milliseconds
    }
}

/// The offset a 48-byte reply yields against a local receive time.
pub open spec fn offset_of_reply(reply: Seq<u8>, received_at: u64) -> int {
    offset_formula(
        ntp_milliseconds(dec_be(reply.subrange(24, 32))),
        ntp_milliseconds(dec_be(reply.subrange(32, 40))),
        ntp_milliseconds(dec_be(reply.subrange(40, 48))),
        ntp_milliseconds(received_at as int),
    )
}

/// Performs one SNTP exchange: sends a request stamped with the injected
/// clock's time, awaits exactly one reply datagram, stamps the arrival with
/// the clock again, and computes the offset. A reply of anything but
/// forty-eight bytes is an `Unknown` transport error. Whatever reply and
/// arrival time the exchange sees, a returned offset is exactly the
/// four-timestamp formula over them.
pub fn get_sntp_time_offset<S: TcpStack, F: Fn() -> NtpEpochTime>(
    stack: &mut S,
    sntp_server: SocketAddr,
    get_current_time: F,
) -> (r: Result<SntpTimeOffset, TcpError>)
    requires
        get_current_time.requires(()),
    ensures
        r matches Ok(off) ==> exists|reply: Seq<u8>, received: u64|
            reply.len() == 48 && off@ == #[trigger] offset_of_reply(reply, received),
{
    let mut socket = match stack.create_udp_socket() {
        Ok(s) => s,
        Err(e) => {
            return Err(e);
        },
    };
    let now = get_current_time();
    let req = SntpData::new_request_sec(now);
    match socket.send_to(sntp_server, req.get_data().as_slice()) {
        Ok(_) => (),
        Err(e) => {
            return Err(e);
        },
    }
    let mut buf: Vec<u8> = vec![0u8; 48];
    let (recv, _address) = match socket.read_from(&mut buf) {
        Ok(p) => p,
        Err(e) => {
            return Err(e);
        },
    };
    if recv != 48 {
        return Err(TcpError::Unknown);
    }
    let received_at = get_current_time();
    let sntp_resp = match SntpData::from_buffer(buf.as_slice()) {
        Some(p) => p,
        None => {
            return Err(TcpError::Unknown);
        },
    };
    let offset = sntp_resp.local_time_offset(received_at);
    proof {
        assert(offset == offset_of_reply(sntp_resp.spec_data(), received_at.value));
    }
    Ok(SntpTimeOffset { milliseconds: offset })
}

} // verus!
