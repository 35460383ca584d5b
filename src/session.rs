use vstd::prelude::*;

use crate::dns::{query_post, DNS};
use crate::header::{copy_range, head_of, parse_head, Head};
use crate::relay::Transfer;

verus! {

/// What the client is sent once a tunnel's target connection stands:
/// `HTTP/1.1 200 Connection established` and an empty line, CRLF-ended.
pub open spec fn tunnel_reply_bytes() -> Seq<u8> {
    seq![72u8, 84u8, 84u8, 80u8, 47u8, 49u8, 46u8, 49u8, 32u8, 50u8, 48u8, 48u8, 32u8, 67u8, 111u8, 110u8, 110u8, 101u8, 99u8, 116u8, 105u8, 111u8, 110u8, 32u8, 101u8, 115u8, 116u8, 97u8, 98u8, 108u8, 105u8, 115u8, 104u8, 101u8, 100u8, 13u8, 10u8, 13u8, 10u8]
}

/// Why a session cannot go on now.
#[derive(PartialEq, Eq, Structural, Clone, Copy, Debug)]
pub enum ProxyError {
    /// No progress now; wait for the next readiness event. Not a failure.
    WouldBlock,
    /// A peer closed its side.
    Eof,
    /// The target host has no usable address.
    Resolution,
    /// The target connection failed.
    Connect,
    /// The request head is malformed.
    Protocol,
    /// A system call failed.
    System,
}

/// The phase of a session.
#[derive(PartialEq, Eq, Structural, Clone, Copy, Debug)]
pub enum State {
    /// Both sockets stand and bytes flow between them.
    Piping,
    /// The request head is being read, or the target connection confirmed.
    Head,
}

/// Where to open the target connection.
pub struct Endpoint {
    pub address: String,
    pub port: u16,
}

/// What the target socket says of its connection attempt.
#[derive(PartialEq, Eq, Structural, Clone, Copy, Debug)]
pub enum Probe {
    Connected,
    /// Not connected yet: the attempt is still in flight.
    NotConnected,
    Failed,
}

/// Bytes that a session asks to have written.
pub enum Outgoing {
    Nothing,
    ToClient(Vec<u8>),
    ToTarget(Vec<u8>),
}

/// Which way a readable identity moves bytes.
#[derive(PartialEq, Eq, Structural, Clone, Copy, Debug)]
pub enum Direction {
    DownToUp,
    UpToDown,
    Neither,
}

/// What a readable event on a session calls for.
#[derive(PartialEq, Eq, Structural, Clone, Copy, Debug)]
pub enum ReadAction {
    /// Read more of the request head and try to connect.
    ReadHead,
    /// The target connection is in flight: wait for it to be confirmed.
    Wait,
    /// Relay bytes the given way.
    Relay(Direction),
}

/// One client's proxying context. The sockets themselves belong to the
/// event loop; a session knows them by their identities, and `up_sock_id`
/// is 0 until a target connection exists.
pub struct Session {
    pub down_sock_id: usize,
    pub up_sock_id: usize,
    pub state: State,
    pub connect_header_buf: Vec<u8>,
    pub is_https: bool,
    pub host: Vec<u8>,
}

/// The address a connect attempt produced, if any.
pub open spec fn endpoint_address(r: Result<Endpoint, ProxyError>) -> Option<String> {
    match r {
        Ok(e) => Some(e.address),
        Err(_) => None,
    }
}

/// A relaying session has its target connection.
pub open spec fn session_wf(s: Session) -> bool {
    s.state == State::Piping ==> s.up_sock_id != 0
}

/// What reading the request head does to a session and to the cache `d0`
/// (which becomes `d1`): an incomplete head asks to wait and a malformed one
/// fails, both changing nothing; a complete one records the target's host and
/// tunnel flag and queries the cache for the host, failing when it has no
/// address and otherwise giving that address and the target's port.
pub open spec fn connect_post(
    s0: Session,
    s1: Session,
    d0: Map<Seq<u8>, Seq<String>>,
    d1: Map<Seq<u8>, Seq<String>>,
    r: Result<Endpoint, ProxyError>,
) -> bool {
    &&& s1.down_sock_id == s0.down_sock_id
    &&& s1.up_sock_id == s0.up_sock_id
    &&& s1.state == s0.state
    &&& s1.connect_header_buf == s0.connect_header_buf
    &&& match head_of(s0.connect_header_buf@) {
        Some(None) => r == Err::<Endpoint, ProxyError>(ProxyError::WouldBlock) && d1 == d0 && s1 == s0,
        None => r == Err::<Endpoint, ProxyError>(ProxyError::Protocol) && d1 == d0 && s1 == s0,
        Some(Some((host, port, tunnel))) => {
            &&& s1.host@ == host
            &&& s1.is_https == tunnel
            &&& query_post(d0, d1, host, endpoint_address(r))
            &&& r matches Ok(e) ==> e.port == port
            &&& r matches Err(e) ==> e == ProxyError::Resolution
        },
    }
}

/// What a writable event on identity `token` does to a session, given what
/// the target socket says of its connection. Without a target connection
/// nothing happens. An attempt still in flight asks to wait, a failed one
/// fails. Once the target's own writable event confirms the connection of a
/// session still reading its head, a tunnel sends the client exactly the
/// tunnel reply and a plain request goes to the target exactly as it was
/// read; the session then relays. Any other event does nothing.
pub open spec fn write_post(
    s0: Session,
    s1: Session,
    token: usize,
    probe: Probe,
    r: Result<Outgoing, ProxyError>,
) -> bool {
    &&& s1.down_sock_id == s0.down_sock_id
    &&& s1.up_sock_id == s0.up_sock_id
    &&& s1.connect_header_buf == s0.connect_header_buf
    &&& s1.is_https == s0.is_https
    &&& s1.host == s0.host
    &&& if s0.up_sock_id == 0 {
        (r matches Ok(Outgoing::Nothing)) && s1.state == s0.state
    } else {
        match probe {
            Probe::NotConnected => r == Err::<Outgoing, ProxyError>(ProxyError::WouldBlock) && s1.state == s0.state,
            Probe::Failed => r == Err::<Outgoing, ProxyError>(ProxyError::Connect) && s1.state == s0.state,
            Probe::Connected => if s0.state == State::Head && token == s0.up_sock_id {
                &&& s1.state == State::Piping
                &&& s0.is_https ==> (r matches Ok(Outgoing::ToClient(b)) && b@ == tunnel_reply_bytes())
                &&& !s0.is_https ==> (r matches Ok(Outgoing::ToTarget(b)) && b@ == s0.connect_header_buf@)
            } else {
                (r matches Ok(Outgoing::Nothing)) && s1.state == s0.state
            },
        }
    }
}

/// What a transfer's outcome means to a session.
pub open spec fn transfer_result(t: Transfer) -> Result<u64, ProxyError> {
    match t {
        Transfer::Moved(n) => if n > 0 {
            Ok(n)
        } else {
            Err(ProxyError::Eof)
        },
        Transfer::WouldBlock => Err(ProxyError::WouldBlock),
        Transfer::Eof => Err(ProxyError::Eof),
        Transfer::Failed => Err(ProxyError::System),
    }
}

fn result_of(t: Transfer) -> (r: Result<u64, ProxyError>)
    ensures
        r == transfer_result(t),
{
    match t {
        Transfer::Moved(n) => if n > 0 {
            Ok(n)
        } else {
            Err(ProxyError::Eof)
        },
        Transfer::WouldBlock => Err(ProxyError::WouldBlock),
        Transfer::Eof => Err(ProxyError::Eof),
        Transfer::Failed => Err(ProxyError::System),
    }
}

/// The reply that confirms a tunnel.
pub fn tunnel_reply() -> (r: Vec<u8>)
    ensures
        r@ == tunnel_reply_bytes(),
{
    let r = vec![72u8, 84u8, 84u8, 80u8, 47u8, 49u8, 46u8, 49u8, 32u8, 50u8, 48u8, 48u8, 32u8, 67u8, 111u8, 110u8, 110u8, 101u8, 99u8, 116u8, 105u8, 111u8, 110u8, 32u8, 101u8, 115u8, 116u8, 97u8, 98u8, 108u8, 105u8, 115u8, 104u8, 101u8, 100u8, 13u8, 10u8, 13u8, 10u8];
    assert(r@ =~= tunnel_reply_bytes());
    r
}

impl Session {
    /// A session for a client socket, reading its request head.
    pub fn new(down_sock_id: usize) -> (r: Session)
        ensures
            r.down_sock_id == down_sock_id,
            r.up_sock_id == 0,
            r.state == State::Head,
            r.connect_header_buf@.len() == 0,
            !r.is_https,
            r.host@.len() == 0,
    {
        Session {
            down_sock_id,
            up_sock_id: 0,
            state: State::Head,
            connect_header_buf: Vec::new(),
            is_https: false,
            host: Vec::new(),
        }
    }

    /// Adds bytes read from the client to the request head.
    pub fn append_head_bytes(&mut self, bytes: &[u8])
        ensures
            final(self).connect_header_buf@ == old(self).connect_header_buf@ + bytes@,
            final(self).down_sock_id == old(self).down_sock_id,
            final(self).up_sock_id == old(self).up_sock_id,
            final(self).state == old(self).state,
            final(self).is_https == old(self).is_https,
            final(self).host == old(self).host,
    {
        let mut i: usize = 0;
        while i < bytes.len()
            invariant
                i <= bytes@.len(),
                self.connect_header_buf@ == old(self).connect_header_buf@ + bytes@.subrange(0, i as int),
                self.down_sock_id == old(self).down_sock_id,
                self.up_sock_id == old(self).up_sock_id,
                self.state == old(self).state,
                self.is_https == old(self).is_https,
                self.host == old(self).host,
            decreases bytes@.len() - i,
        {
            self.connect_header_buf.push(bytes[i]);
            i = i + 1;
            assert(self.connect_header_buf@ =~= old(self).connect_header_buf@ + bytes@.subrange(0, i as int));
        }
        assert(bytes@.subrange(0, i as int) =~= bytes@);
    }

    /// What the request head read so far holds.
    pub fn parse_header_line(&self) -> (r: Head)
        ensures
            r@ == head_of(self.connect_header_buf@),
    {
        parse_head(self.connect_header_buf.as_slice())
    }

    /// Decides the target of a session whose request head is complete, and
    /// resolves its host: an incomplete head asks to wait, a malformed one
    /// fails, and so does a host without an address.
    pub fn connect(&mut self, dns: &mut DNS) -> (r: Result<Endpoint, ProxyError>)
        requires
            old(dns).wf(),
        ensures
            final(dns).wf(),
            connect_post(*old(self), *final(self), old(dns)@, final(dns)@, r),
            head_of(old(self).connect_header_buf@) matches Some(None) ==> *final(dns) == *old(dns),
            head_of(old(self).connect_header_buf@) is None ==> *final(dns) == *old(dns),
    {
        match self.parse_header_line() {
            Head::Incomplete => Err(ProxyError::WouldBlock),
            Head::Malformed => Err(ProxyError::Protocol),
            Head::Ready(q) => {
                self.is_https = q.is_tunnel;
                let addr = dns.query(q.host.as_slice());
                self.host = q.host;
                match addr {
                    Some(address) => Ok(Endpoint { address, port: q.port }),
                    None => Err(ProxyError::Resolution),
                }
            },
        }
    }

    /// Records the identity of the target connection that was opened.
    pub fn attach_upstream(&mut self, up_sock_id: usize)
        ensures
            final(self).up_sock_id == up_sock_id,
            final(self).down_sock_id == old(self).down_sock_id,
            final(self).state == old(self).state,
            final(self).connect_header_buf == old(self).connect_header_buf,
            final(self).is_https == old(self).is_https,
            final(self).host == old(self).host,
    {
        self.up_sock_id = up_sock_id;
    }

    /// Handles a writable event on identity `token`, given what the target
    /// socket says of its connection. Once the target connection is confirmed
    /// by its own writable event, a tunnel sends the client the tunnel reply
    /// and a plain request goes to the target as it was read; the session
    /// then relays.
    pub fn handle_write(&mut self, token: usize, probe: Probe) -> (r: Result<Outgoing, ProxyError>)
        ensures
            write_post(*old(self), *final(self), token, probe, r),
    {
        if self.up_sock_id == 0 {
            return Ok(Outgoing::Nothing);
        }
        match probe {
            Probe::NotConnected => Err(ProxyError::WouldBlock),
            Probe::Failed => Err(ProxyError::Connect),
            Probe::Connected => {
                if self.state == State::Head && token == self.up_sock_id {
                    self.state = State::Piping;
                    if self.is_https {
                        Ok(Outgoing::ToClient(tunnel_reply()))
                    } else {
                        let b = copy_range(self.connect_header_buf.as_slice(), 0, self.connect_header_buf.len());
                        assert(b@ =~= self.connect_header_buf@);
                        Ok(Outgoing::ToTarget(b))
                    }
                } else {
                    Ok(Outgoing::Nothing)
                }
            },
        }
    }

    /// What a readable event on `sock_id` calls for: while the head is read
    /// and no target connection exists, reading the head; while one is in
    /// flight, waiting; once relaying, a transfer the way `pipe` gives.
    pub fn on_readable(&self, sock_id: usize) -> (r: ReadAction)
        ensures
            r == (match self.state {
                State::Head => if self.up_sock_id == 0 {
                    ReadAction::ReadHead
                } else {
                    ReadAction::Wait
                },
                State::Piping => ReadAction::Relay(
                    if sock_id == self.down_sock_id {
                        Direction::DownToUp
                    } else if sock_id == self.up_sock_id && self.up_sock_id != 0 {
                        Direction::UpToDown
                    } else {
                        Direction::Neither
                    },
                ),
            }),
    {
        match self.state {
            State::Head => if self.up_sock_id == 0 {
                ReadAction::ReadHead
            } else {
                ReadAction::Wait
            },
            State::Piping => ReadAction::Relay(self.pipe(sock_id)),
        }
    }

    /// The way a readable event on `sock_id` moves bytes.
    pub fn pipe(&self, sock_id: usize) -> (r: Direction)
        ensures
            r == (if sock_id == self.down_sock_id {
                Direction::DownToUp
            } else if sock_id == self.up_sock_id && self.up_sock_id != 0 {
                Direction::UpToDown
            } else {
                Direction::Neither
            }),
    {
        if sock_id == self.down_sock_id {
            Direction::DownToUp
        } else if sock_id == self.up_sock_id && self.up_sock_id != 0 {
            Direction::UpToDown
        } else {
            Direction::Neither
        }
    }

    /// The result of a transfer from client to target: bytes moved, or why the
    /// session waits or ends. Without a target connection it fails.
    pub fn down2up(&self, t: Transfer) -> (r: Result<u64, ProxyError>)
        ensures
            self.up_sock_id == 0 ==> r == Err::<u64, ProxyError>(ProxyError::System),
            self.up_sock_id != 0 ==> r == transfer_result(t),
    {
        if self.up_sock_id == 0 {
            return Err(ProxyError::System);
        }
        result_of(t)
    }

    /// The result of a transfer from target to client, as `down2up` gives it.
    pub fn up2down(&self, t: Transfer) -> (r: Result<u64, ProxyError>)
        ensures
            self.up_sock_id == 0 ==> r == Err::<u64, ProxyError>(ProxyError::System),
            self.up_sock_id != 0 ==> r == transfer_result(t),
    {
        if self.up_sock_id == 0 {
            return Err(ProxyError::System);
        }
        result_of(t)
    }
}

} // verus!
