use mininet::sntp::{get_sntp_time_offset, NtpEpochTime, SntpData};
use mininet::stack::{SocketAddr, TcpError, TcpListen, TcpSocket, TcpStack, UdpSocket};

const SECOND: u64 = 0x1_0000_0000;

// Just over a tenth of a second in fixed point: enough that the floored
// millisecond difference is exactly one hundred.
const AHEAD_100MS: u64 = 429496730;

// Just under a tenth of a second in fixed point: subtracting it moves the
// floored milliseconds down by exactly one hundred.
const BEHIND_100MS: u64 = 429496729;

fn reply_with(originate: u64, receive: u64, transmit: u64) -> Vec<u8> {
    let mut buf = vec![0u8; 48];
    buf[0] = 0x24;
    buf[24..32].copy_from_slice(&originate.to_be_bytes());
    buf[32..40].copy_from_slice(&receive.to_be_bytes());
    buf[40..48].copy_from_slice(&transmit.to_be_bytes());
    buf
}

#[test]
fn offset_sign_remote_ahead() {
    let t1 = 10 * SECOND;
    let reply = reply_with(t1, t1 + AHEAD_100MS, t1 + AHEAD_100MS);
    let packet = SntpData::from_buffer(&reply).unwrap();
    let offset = packet.local_time_offset(NtpEpochTime::new(t1));
    assert_eq!(100, offset);
}

#[test]
fn offset_sign_remote_behind() {
    let t1 = 10 * SECOND;
    let reply = reply_with(t1, t1 - BEHIND_100MS, t1 - BEHIND_100MS);
    let packet = SntpData::from_buffer(&reply).unwrap();
    let offset = packet.local_time_offset(NtpEpochTime::new(t1));
    assert_eq!(-100, offset);
}

#[test]
fn offset_zero_for_agreeing_clocks() {
    let t1 = 77 * SECOND;
    let reply = reply_with(t1, t1, t1);
    let packet = SntpData::from_buffer(&reply).unwrap();
    assert_eq!(0, packet.local_time_offset(NtpEpochTime::new(t1)));
}

#[test]
fn request_packet_layout() {
    let now = NtpEpochTime::from_unix_seconds(1_000_000);
    let req = SntpData::new_request_sec(now);
    let data = req.get_data();
    assert_eq!(48, data.len());
    assert_eq!(0x23, data[0]);
    for i in 1..24 {
        assert_eq!(0, data[i]);
    }
    assert_eq!(now.value.to_be_bytes().to_vec(), data[24..32].to_vec());
    for i in 32..48 {
        assert_eq!(0, data[i]);
    }
}

#[test]
fn packet_field_accessors() {
    let reply = reply_with(111 * SECOND, 222 * SECOND, 333 * SECOND);
    let packet = SntpData::from_buffer(&reply).unwrap();
    assert_eq!(111 * SECOND, packet.originate_time().value);
    assert_eq!(222 * SECOND, packet.receive_time().value);
    assert_eq!(333 * SECOND, packet.transmit_time().value);
}

#[test]
fn from_buffer_wants_exactly_48_bytes() {
    assert!(SntpData::from_buffer(&[0u8; 47]).is_none());
    assert!(SntpData::from_buffer(&[0u8; 49]).is_none());
    assert!(SntpData::from_buffer(&[0u8; 48]).is_some());
}

#[test]
fn unix_seconds_round_trip_and_milliseconds() {
    let t = NtpEpochTime::from_unix_seconds(1_600_000_000);
    assert_eq!(1_600_000_000, t.to_unix_seconds());
    let half = NtpEpochTime::new(3 * SECOND + SECOND / 2);
    assert_eq!(3500, half.milliseconds());
}

struct NoTcpSocket;

impl TcpSocket for NoTcpSocket {
    fn read(&mut self, _buf: &mut Vec<u8>) -> Result<usize, TcpError> {
        Err(TcpError::Closed)
    }

    fn read_to_end(&mut self) -> Result<Vec<u8>, TcpError> {
        Err(TcpError::Closed)
    }

    fn send(&mut self, _data: &[u8]) -> Result<usize, TcpError> {
        Err(TcpError::Closed)
    }
}

struct NoListener;

impl TcpListen for NoListener {
    type TcpSocket = NoTcpSocket;

    fn accept(&mut self) -> Result<(NoTcpSocket, SocketAddr), TcpError> {
        Err(TcpError::Closed)
    }
}

struct ReplayUdp {
    reply: Vec<u8>,
    reply_len: usize,
}

impl UdpSocket for ReplayUdp {
    fn read_from(&mut self, buf: &mut Vec<u8>) -> Result<(usize, SocketAddr), TcpError> {
        let n = self.reply_len.min(buf.len()).min(self.reply.len());
        buf[..n].copy_from_slice(&self.reply[..n]);
        Ok((self.reply_len.min(buf.len()), SocketAddr::new(1, 2, 3, 4, 123)))
    }

    fn send_to(&mut self, _addr: SocketAddr, data: &[u8]) -> Result<usize, TcpError> {
        Ok(data.len())
    }
}

struct UdpStack {
    reply: Vec<u8>,
    reply_len: usize,
}

impl TcpStack for UdpStack {
    type TcpSocket = NoTcpSocket;
    type UdpSocket = ReplayUdp;
    type TcpListener = NoListener;

    fn create_socket_listener(&mut self, _addr: SocketAddr) -> Result<NoListener, TcpError> {
        Ok(NoListener)
    }

    fn create_socket_connected(&mut self, _addr: SocketAddr) -> Result<NoTcpSocket, TcpError> {
        Ok(NoTcpSocket)
    }

    fn get_socket_address(&self, _host_and_port: &str) -> Result<SocketAddr, TcpError> {
        Err(TcpError::Unknown)
    }

    fn create_udp_socket(&mut self) -> Result<ReplayUdp, TcpError> {
        Ok(ReplayUdp { reply: self.reply.clone(), reply_len: self.reply_len })
    }
}

#[test]
fn exchange_computes_the_offset() {
    let t = 50 * SECOND;
    let reply = reply_with(t, t + AHEAD_100MS, t + AHEAD_100MS);
    let mut stack = UdpStack { reply, reply_len: 48 };
    let server = SocketAddr::new(10, 0, 0, 1, 123);
    let offset = get_sntp_time_offset(&mut stack, server, || NtpEpochTime::new(t)).unwrap();
    assert_eq!(100, offset.milliseconds());
}

#[test]
fn short_reply_is_a_transport_error() {
    let t = 50 * SECOND;
    let reply = reply_with(t, t, t);
    let mut stack = UdpStack { reply, reply_len: 40 };
    let server = SocketAddr::new(10, 0, 0, 1, 123);
    let r = get_sntp_time_offset(&mut stack, server, || NtpEpochTime::new(t));
    assert!(matches!(r, Err(TcpError::Unknown)));
}
