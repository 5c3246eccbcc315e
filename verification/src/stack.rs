//! Transport capability layer: the error kind that every backend reports, the
//! socket address value type, the capability traits that sockets, listeners
//! and stack factories must support, and the decision rule of the timeout
//! combinator.

use vstd::prelude::*;

verus! {

/// The three-way error kind shared by every transport backend: the peer
/// closed the connection, the operation was raced against a timer and lost,
/// or an opaque backend failure occurred.
#[derive(Debug, Copy, Clone, PartialEq, Eq, Structural)]
pub enum TcpError {
    Closed,
    Timeout,
    Unknown,
}

/// An IPv4 address, as four octets.
#[derive(Debug, Copy, Clone, PartialEq, Eq, Structural)]
pub struct Ipv4Addr {
    pub a: u8,
    pub b: u8,
    pub c: u8,
    pub d: u8,
}

/// An IPv4 socket address: host octets plus a port. Immutable value type.
#[derive(Debug, Copy, Clone, PartialEq, Eq, Structural)]
pub struct SocketAddr {
    pub ip: Ipv4Addr,
    pub port: u16,
}

impl SocketAddr {
    /// Builds a socket address from four host octets and a port.
    pub fn new(a: u8, b: u8, c: u8, d: u8, port: u16) -> (r: SocketAddr)
        ensures
            r.ip == (Ipv4Addr { a, b, c, d }),
            r.port == port,
    {
        SocketAddr { ip: Ipv4Addr { a, b, c, d }, port }
    }
}

/// The capability of a bound endpoint awaiting incoming connections.
/// Backends implement it; each `accept` hands out one connected socket and
/// the peer's address, or fails fatally.
pub trait TcpListen where Self: Sized {
    type TcpSocket: TcpSocket;

    /// Waits for one incoming connection.
    fn accept(&mut self) -> Result<(Self::TcpSocket, SocketAddr), TcpError>;
}

/// The capability of a connected transport endpoint. Backends implement it;
/// reads may return fewer bytes than the buffer holds, and a read of zero
/// bytes signals that the peer closed.
pub trait TcpSocket where Self: Sized {
    /// Reads at most `buf.len()` bytes into the front of `buf`, returning how
    /// many arrived; zero means the peer closed.
    fn read(&mut self, buf: &mut Vec<u8>) -> (r: Result<usize, TcpError>)
        ensures
            final(buf)@.len() == old(buf)@.len(),
            r matches Ok(n) ==> n <= old(buf)@.len(),
    ;

    /// Reads until the peer closes, returning everything received.
    fn read_to_end(&mut self) -> Result<Vec<u8>, TcpError>;

    /// Writes bytes, returning how many were taken.
    fn send(&mut self, data: &[u8]) -> (r: Result<usize, TcpError>)
        ensures
            r matches Ok(n) ==> n <= data@.len(),
    ;
}

/// The capability of an unconnected datagram endpoint.
pub trait UdpSocket where Self: Sized {
    /// Waits for one datagram, reading at most `buf.len()` bytes of it into
    /// the front of `buf`, and returns how many arrived and from where.
    fn read_from(&mut self, buf: &mut Vec<u8>) -> (r: Result<(usize, SocketAddr), TcpError>)
        ensures
            final(buf)@.len() == old(buf)@.len(),
            r matches Ok(p) ==> p.0 <= old(buf)@.len(),
    ;

    /// Sends one datagram to the given address, returning how many bytes
    /// were taken.
    fn send_to(&mut self, addr: SocketAddr, data: &[u8]) -> (r: Result<usize, TcpError>)
        ensures
            r matches Ok(n) ==> n <= data@.len(),
    ;
}

/// The stack factory capability: resolving names, opening listeners and
/// connected sockets, and opening datagram sockets. One implementation per
/// backend; all protocol code is generic over this.
pub trait TcpStack {
    type TcpSocket: TcpSocket;
    type UdpSocket: UdpSocket;
    type TcpListener: TcpListen;

    /// Binds a listener on the given address.
    fn create_socket_listener(&mut self, addr: SocketAddr) -> Result<Self::TcpListener, TcpError>;

    /// Opens a connection to the given address.
    fn create_socket_connected(&mut self, addr: SocketAddr) -> Result<Self::TcpSocket, TcpError>;

    /// Resolves a `host:port` string to a socket address.
    fn get_socket_address(&self, host_and_port: &str) -> Result<SocketAddr, TcpError>;

    /// Opens a datagram socket.
    fn create_udp_socket(&mut self) -> Result<Self::UdpSocket, TcpError>;
}

/// The outcome of racing an operation against a timer: either the operation
/// finished first with its result, or the timer fired first.
pub enum RaceWinner<T> {
    Operation(T),
    Timer,
}

/// The decision rule of the timeout combinator: the operation's result is
/// passed through when it wins the race, and the timer winning is reported as
/// a timeout error.
pub fn race_result<T>(winner: RaceWinner<T>) -> (r: Result<T, TcpError>)
    ensures
        match winner {
            RaceWinner::Operation(v) => r == Result::<T, TcpError>::Ok(v),
            RaceWinner::Timer => r == Result::<T, TcpError>::Err(TcpError::Timeout),
        },
{
    match winner {
        RaceWinner::Operation(v) => Ok(v),
        RaceWinner::Timer => Err(TcpError::Timeout),
    }
}

} // verus!
