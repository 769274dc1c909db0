//! The per-client connection state: lifecycle flags, the activity timestamp
//! used for idle eviction, and the buffered bytes from which whole frames are
//! extracted.
//!
//! A connection is open from the moment it is accepted until it is closed by
//! an interactive command, by the peer, or by the idle sweep; once closed it
//! is never read from or written to again, and it is removed from the live
//! set on the next housekeeping pass.

use vstd::prelude::*;

use crate::codec::{spec_u16_from_be, u16_from_be, spec_u16_be, u16_be, push_bytes};
use crate::resolver::{SockAddr, is_local_peer, spec_is_loopback};

verus! {

/// One accepted client connection, as the event loop tracks it. The socket
/// itself stays outside; the event loop hands received bytes in and takes
/// bytes to write out.
pub struct Connection {
    /// closed and safe to drop from the live set
    pub can_remove: bool,
    /// still open for reading and writing
    pub open: bool,
    /// do not evict for idleness
    pub keep: bool,
    /// time of the last activity, in seconds
    pub mod_time: u64,
    /// the remote peer's address
    pub peer_addr: SockAddr,
    /// the peer connected over loopback or over this server's own address
    pub local_peer: bool,
    /// received bytes not yet consumed as a frame
    pub read_buffer: Vec<u8>,
}

/// The total length of the frame at the head of a buffer — its two-byte
/// big-endian length prefix plus the declared payload length — as soon as the
/// prefix itself has arrived.
pub open spec fn spec_frame_len(buf: Seq<u8>) -> int {
    2 + spec_u16_from_be(buf[0], buf[1])
}

/// The mathematical value of a connection.
pub struct ConnModel {
    pub can_remove: bool,
    pub open: bool,
    pub keep: bool,
    pub mod_time: u64,
    pub peer_addr: SockAddr,
    pub local_peer: bool,
    pub read_buffer: Seq<u8>,
}

impl View for Connection {
    type V = ConnModel;

    open spec fn view(&self) -> ConnModel {
        ConnModel {
            can_remove: self.can_remove,
            open: self.open,
            keep: self.keep,
            mod_time: self.mod_time,
            peer_addr: self.peer_addr,
            local_peer: self.local_peer,
            read_buffer: self.read_buffer@,
        }
    }
}

impl ConnModel {
    /// True when the connection has been idle longer than the packet timeout.
    pub open spec fn expired(self, now: u64, timeout: u64) -> bool {
        self.mod_time + timeout < now
    }

    /// The same connection closed: no longer open, not kept, and ready to be
    /// dropped from the live set.
    pub open spec fn closed(self) -> ConnModel {
        ConnModel { can_remove: true, open: false, keep: false, ..self }
    }
}

impl Connection {
    /// A freshly accepted connection: open, not kept, empty buffer, with the
    /// accept time as its last activity.
    pub fn new(peer_addr: SockAddr, local_addr: SockAddr, now: u64) -> (c: Connection)
        ensures
            !c.can_remove,
            c.open,
            !c.keep,
            c.mod_time == now,
            c.peer_addr == peer_addr,
            c.local_peer == (spec_is_loopback(peer_addr.ip) || peer_addr.ip == local_addr.ip),
            c.read_buffer@ =~= Seq::<u8>::empty(),
    {
        Connection {
            can_remove: false,
            open: true,
            keep: false,
            mod_time: now,
            peer_addr,
            local_peer: is_local_peer(&peer_addr, &local_addr),
            read_buffer: Vec::new(),
        }
    }

    /// Appends bytes received from the socket and refreshes the activity
    /// timestamp.
    pub fn feed(&mut self, data: &[u8], now: u64)
        requires
            old(self).open,
        ensures
            final(self).read_buffer@ == old(self).read_buffer@ + data@,
            final(self).mod_time == now,
            final(self).can_remove == old(self).can_remove,
            final(self).open == old(self).open,
            final(self).keep == old(self).keep,
            final(self).peer_addr == old(self).peer_addr,
            final(self).local_peer == old(self).local_peer,
    {
        push_bytes(&mut self.read_buffer, data);
        self.mod_time = now;
    }

    /// Extracts exactly one complete frame — length prefix included — from
    /// the head of the buffer, when one whole frame has arrived.
    pub fn take_frame(&mut self) -> (r: Option<Vec<u8>>)
        ensures
            match r {
                Option::Some(f) => {
                    let buf = old(self).read_buffer@;
                    &&& buf.len() >= 2
                    &&& spec_frame_len(buf) <= buf.len()
                    &&& f@.len() == spec_frame_len(buf)
                    &&& f@ == buf.subrange(0, spec_frame_len(buf))
                    &&& final(self).read_buffer@ == buf.subrange(
                        spec_frame_len(buf),
                        buf.len() as int,
                    )
                },
                Option::None => {
                    let buf = old(self).read_buffer@;
                    &&& (buf.len() < 2 || buf.len() < spec_frame_len(buf))
                    &&& final(self).read_buffer@ == buf
                },
            },
            final(self).can_remove == old(self).can_remove,
            final(self).open == old(self).open,
            final(self).keep == old(self).keep,
            final(self).mod_time == old(self).mod_time,
            final(self).peer_addr == old(self).peer_addr,
            final(self).local_peer == old(self).local_peer,
    {
        if self.read_buffer.len() < 2 {
            return Option::None;
        }
        let declared = u16_from_be(self.read_buffer[0], self.read_buffer[1]) as usize;
        let flen = 2 + declared;
        if self.read_buffer.len() < flen {
            return Option::None;
        }
        let frame = vstd::slice::slice_to_vec(
            vstd::slice::slice_subrange(self.read_buffer.as_slice(), 0, flen),
        );
        let rest = vstd::slice::slice_to_vec(
            vstd::slice::slice_subrange(self.read_buffer.as_slice(), flen, self.read_buffer.len()),
        );
        self.read_buffer = rest;
        Option::Some(frame)
    }

    /// Closes the connection: it will not be read or written again, and the
    /// next housekeeping pass removes it.
    pub fn close(&mut self)
        ensures
            final(self).can_remove,
            !final(self).open,
            !final(self).keep,
            final(self).mod_time == old(self).mod_time,
            final(self).peer_addr == old(self).peer_addr,
            final(self).local_peer == old(self).local_peer,
            final(self).read_buffer@ == old(self).read_buffer@,
    {
        self.keep = false;
        self.open = false;
        self.can_remove = true;
    }

    /// Whether the connection has been idle longer than the packet timeout.
    pub fn expired(&self, now: u64, timeout: u64) -> (r: bool)
        ensures
            r == self@.expired(now, timeout),
    {
        if timeout <= u64::MAX - self.mod_time {
            self.mod_time + timeout < now
        } else {
            false
        }
    }
}

/// A transport frame: a two-byte big-endian length prefix, then the payload.
pub open spec fn spec_frame_of(payload: Seq<u8>) -> Seq<u8> {
    spec_u16_be(payload.len() as u16) + payload
}

/// Wraps a payload in a transport frame.
pub fn frame_bytes(payload: &Vec<u8>) -> (out: Vec<u8>)
    requires
        payload@.len() <= 0xFFFF,
    ensures
        out@ == spec_frame_of(payload@),
{
    let mut out: Vec<u8> = Vec::new();
    let prefix = u16_be(payload.len() as u16);
    push_bytes(&mut out, prefix.as_slice());
    push_bytes(&mut out, payload.as_slice());
    assert(out@ =~= spec_frame_of(payload@));
    out
}

/// A whole frame round trip: framing a payload and reading the frame length
/// back yields the frame's exact extent, so a framed payload followed by
/// more bytes is cut at the payload's end.
pub proof fn lemma_frame_round_trip(payload: Seq<u8>, rest: Seq<u8>)
    requires
        payload.len() <= 0xFFFF,
    ensures
        ({
            let buf = spec_frame_of(payload) + rest;
            &&& buf.len() >= 2
            &&& spec_frame_len(buf) == 2 + payload.len()
            &&& buf.subrange(0, spec_frame_len(buf)) == spec_frame_of(payload)
            &&& buf.subrange(spec_frame_len(buf), buf.len() as int) == rest
        }),
{
    let buf = spec_frame_of(payload) + rest;
    let n = payload.len() as u16;
    assert(buf[0] == (n / 256) as u8);
    assert(buf[1] == (n % 256) as u8);
    crate::codec::lemma_u16_be_round_trip(n);
    assert(buf.subrange(0, spec_frame_len(buf)) =~= spec_frame_of(payload));
    assert(buf.subrange(spec_frame_len(buf), buf.len() as int) =~= rest);
}

} // verus!
