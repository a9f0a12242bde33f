//! The connection registry: all live connections keyed by identifier, with
//! one dispatcher per readiness event. Identifiers are assigned at accept
//! time, grow monotonically, and are never reused; a connection whose phase
//! becomes `Closed` leaves the registry during the dispatch that closed it.
use vstd::prelude::*;

use crate::WsError;
use crate::clone_bytes;
use crate::connection::Connection;
use crate::connection::Phase;
use crate::connection::Message;
use crate::connection::msgs_model;
use crate::connection::frag_model;
use crate::connection::spec_pump;
use crate::connection::handshake_response;
use crate::handshake::spec_lookup;
use crate::handshake::name_eq;
use crate::handshake::spec_valid_upgrade;
use crate::handshake::client_key_of;

verus! {

/// One live connection under its identifier.
pub struct Entry {
    pub id: u64,
    pub conn: Connection,
}

/// The registry: the identifier counter and the live connections, in accept
/// order.
pub struct Registry {
    pub next_id: u64,
    pub entries: Vec<Entry>,
}

/// The first index holding `id`.
pub open spec fn spec_find_id(s: Seq<Entry>, id: u64) -> Option<int>
    decreases s.len(),
{
    if s.len() == 0 {
        None
    } else if s[0].id == id {
        Some(0)
    } else {
        match spec_find_id(s.drop_first(), id) {
            Some(i) => Some(i + 1),
            None => None,
        }
    }
}

impl Registry {
    /// Identifiers are unique and below the counter (so never reused), and
    /// every stored connection is well formed and not closed.
    pub open spec fn wf(self) -> bool {
        &&& forall|i: int, j: int|
            0 <= i < j < self.entries@.len() ==> self.entries@[i].id != self.entries@[j].id
        &&& forall|i: int|
            0 <= i < self.entries@.len() ==> (#[trigger] self.entries@[i]).id < self.next_id
        &&& forall|i: int|
            0 <= i < self.entries@.len() ==> (#[trigger] self.entries@[i]).conn.wf() && !(
            self.entries@[i].conn.phase is Closed)
    }

    /// An empty registry. Identifier 0 stays with the listening endpoint, so
    /// connections start at 1.
    pub fn new() -> (r: Registry)
        ensures
            r.wf(),
            r.next_id == 1,
            r.entries@.len() == 0,
    {
        Registry { next_id: 1, entries: Vec::new() }
    }

    /// The index of the connection with this identifier.
    fn find(&self, id: u64) -> (r: Option<usize>)
        ensures
            (match r {
                Some(i) => spec_find_id(self.entries@, id) == Some(i as int),
                None => spec_find_id(self.entries@, id) is None,
            }),
            (match r {
                Some(i) => i < self.entries@.len() && self.entries@[i as int].id == id,
                None => forall|j: int|
                    0 <= j < self.entries@.len() ==> (#[trigger] self.entries@[j]).id != id,
            }),
    {
        let mut i: usize = 0;
        proof {
            assert(self.entries@.skip(0) =~= self.entries@);
        }
        while i < self.entries.len()
            invariant
                i <= self.entries@.len(),
                forall|j: int| 0 <= j < i ==> (#[trigger] self.entries@[j]).id != id,
                spec_find_id(self.entries@, id) == (match spec_find_id(
                    self.entries@.skip(i as int),
                    id,
                ) {
                    Some(k) => Some(k + i),
                    None => None::<int>,
                }),
            decreases self.entries@.len() - i,
        {
            if self.entries[i].id == id {
                proof {
                    assert(self.entries@.skip(i as int)[0] == self.entries@[i as int]);
                }
                return Some(i);
            }
            proof {
                assert(self.entries@.skip(i as int)[0] == self.entries@[i as int]);
                assert(self.entries@.skip(i as int).drop_first() =~= self.entries@.skip(i + 1));
            }
            i += 1;
        }
        proof {
            assert(self.entries@.skip(i as int) =~= Seq::<Entry>::empty());
        }
        None
    }

    /// Whether a connection with this identifier is registered.
    pub fn contains(&self, id: u64) -> (r: bool)
        ensures
            r == (spec_find_id(self.entries@, id) is Some),
    {
        match self.find(id) {
            Some(_) => true,
            None => false,
        }
    }

    /// Accepts a new connection: it gets the next identifier, a fresh
    /// handshake-awaiting state, and read interest.
    pub fn accept(&mut self) -> (id: u64)
        requires
            old(self).wf(),
            old(self).next_id < u64::MAX,
        ensures
            final(self).wf(),
            id == old(self).next_id,
            final(self).next_id == old(self).next_id + 1,
            final(self).entries@.len() == old(self).entries@.len() + 1,
            final(self).entries@.subrange(0, old(self).entries@.len() as int) == old(
                self,
            ).entries@,
            ({
                let e = final(self).entries@.last();
                &&& e.id == id
                &&& e.conn.wf()
                &&& e.conn.phase == Phase::AwaitingHandshake
                &&& e.conn.want_read
                &&& !e.conn.want_write
            }),
    {
        let id = self.next_id;
        self.next_id = self.next_id + 1;
        self.entries.push(Entry { id, conn: Connection::new() });
        proof {
            assert(final(self).entries@.subrange(0, old(self).entries@.len() as int) =~= old(
                self,
            ).entries@);
        }
        id
    }

    /// The interest set of a connection: (readable, writable).
    pub fn interest_of(&self, id: u64) -> (r: Option<(bool, bool)>)
        ensures
            (match spec_find_id(self.entries@, id) {
                Some(i) => r == Some(
                    (self.entries@[i].conn.want_read, self.entries@[i].conn.want_write),
                ),
                None => r is None,
            }),
    {
        match self.find(id) {
            Some(i) => Some((self.entries[i].conn.want_read, self.entries[i].conn.want_write)),
            None => None,
        }
    }

    /// The bytes a connection has queued for its peer.
    pub fn output_of(&self, id: u64) -> (r: Option<Vec<u8>>)
        ensures
            (match spec_find_id(self.entries@, id) {
                Some(i) => r matches Some(v) && v@ == self.entries@[i].conn.outbuf@,
                None => r is None,
            }),
    {
        match self.find(id) {
            Some(i) => Some(clone_bytes(&self.entries[i].conn.outbuf)),
            None => None,
        }
    }

    /// Routes one header pair the parser emitted to its connection. Ignored
    /// for an unknown identifier or a connection past the handshake.
    pub fn dispatch_header(&mut self, id: u64, name: Vec<u8>, value: Vec<u8>)
        requires
            old(self).wf(),
        ensures
            final(self).wf(),
            final(self).next_id == old(self).next_id,
            (match spec_find_id(old(self).entries@, id) {
                None => *final(self) == *old(self),
                Some(i) => {
                    let c0 = old(self).entries@[i].conn;
                    if c0.phase is AwaitingHandshake {
                        &&& final(self).entries@.len() == old(self).entries@.len()
                        &&& (forall|j: int|
                            0 <= j < old(self).entries@.len() && j != i
                                ==> final(self).entries@[j] == old(self).entries@[j])
                        &&& final(self).entries@[i].id == id
                        &&& ({
                            let c1 = final(self).entries@[i].conn;
                            &&& c1.phase == c0.phase
                            &&& forall|n: Seq<u8>|
                                spec_lookup(#[trigger] c1.headers.model(), n) == (if name_eq(
                                    n,
                                    name@,
                                ) {
                                    Some(value@)
                                } else {
                                    spec_lookup(c0.headers.model(), n)
                                })
                        })
                    } else {
                        *final(self) == *old(self)
                    }
                },
            }),
    {
        let i = match self.find(id) {
            Some(i) => i,
            None => {
                return ;
            },
        };
        let awaiting = match self.entries[i].conn.phase {
            Phase::AwaitingHandshake => true,
            _ => false,
        };
        if !awaiting {
            return ;
        }
        let e = &mut self.entries[i];
        e.conn.on_header(name, value);
    }

    /// Routes the headers-complete signal: the connection validates the
    /// request and either queues its 101 response, flipping interest to
    /// write, or fails the handshake and leaves the registry.
    pub fn dispatch_headers_complete(&mut self, id: u64) -> (r: Option<Result<(), WsError>>)
        requires
            old(self).wf(),
        ensures
            final(self).wf(),
            final(self).next_id == old(self).next_id,
            (match spec_find_id(old(self).entries@, id) {
                None => r is None && *final(self) == *old(self),
                Some(i) => {
                    let c0 = old(self).entries@[i].conn;
                    if c0.phase is AwaitingHandshake {
                        if spec_valid_upgrade(c0.headers.model()) {
                            &&& r == Some(Result::<(), WsError>::Ok(()))
                            &&& final(self).entries@.len() == old(self).entries@.len()
                            &&& (forall|j: int|
                                0 <= j < old(self).entries@.len() && j != i
                                    ==> final(self).entries@[j] == old(self).entries@[j])
                            &&& final(self).entries@[i].id == id
                            &&& ({
                                let c1 = final(self).entries@[i].conn;
                                &&& c1.phase is HandshakeResponsePending
                                &&& c1.outbuf@ == handshake_response(
                                    client_key_of(c0.headers.model()),
                                )
                                &&& !c1.want_read
                                &&& c1.want_write
                            })
                        } else {
                            &&& r == Some(Result::<(), WsError>::Err(WsError::BadHandshake))
                            &&& final(self).entries@ == old(self).entries@.remove(i)
                        }
                    } else {
                        r is None && *final(self) == *old(self)
                    }
                },
            }),
    {
        let i = match self.find(id) {
            Some(i) => i,
            None => {
                return None;
            },
        };
        let awaiting = match self.entries[i].conn.phase {
            Phase::AwaitingHandshake => true,
            _ => false,
        };
        if !awaiting {
            return None;
        }
        let e = &mut self.entries[i];
        let r = e.conn.on_headers_complete();
        match r {
            Ok(()) => Some(Ok(())),
            Err(err) => {
                let _ = self.entries.remove(i);
                Some(Err(err))
            },
        }
    }

    /// Removes a connection outright, as the dispatch loop does when its
    /// socket faults.
    pub fn remove(&mut self, id: u64)
        requires
            old(self).wf(),
        ensures
            final(self).wf(),
            final(self).next_id == old(self).next_id,
            (match spec_find_id(old(self).entries@, id) {
                None => *final(self) == *old(self),
                Some(i) => final(self).entries@ == old(self).entries@.remove(i),
            }),
    {
        match self.find(id) {
            Some(i) => {
                let _ = self.entries.remove(i);
            },
            None => {
            },
        }
    }

    /// Routes arrived bytes to an open connection and hands back the
    /// complete messages. A connection the bytes closed leaves the registry,
    /// and its last queued bytes (the close reply) come back with the
    /// messages so the loop can still try to write them. Ignored for an
    /// unknown identifier or a connection not open.
    pub fn dispatch_readable(&mut self, id: u64, data: &Vec<u8>) -> (r: Option<
        (Vec<Message>, Option<Vec<u8>>),
    >)
        requires
            old(self).wf(),
        ensures
            final(self).wf(),
            final(self).next_id == old(self).next_id,
            (match spec_find_id(old(self).entries@, id) {
                None => r is None && *final(self) == *old(self),
                Some(i) => {
                    let c0 = old(self).entries@[i].conn;
                    if c0.phase is Open {
                        let p = spec_pump(frag_model(c0.frag), c0.inbuf@ + data@);
                        &&& (r matches Some(ms) && msgs_model(ms.0@) == p.msgs && (match ms.1 {
                            Some(out) => p.phase is Closed && out@ == c0.outbuf@ + p.out,
                            None => !(p.phase is Closed),
                        }))
                        &&& (p.phase is Closed ==> final(self).entries@ == old(
                            self,
                        ).entries@.remove(i))
                        &&& (!(p.phase is Closed) ==> {
                            &&& final(self).entries@.len() == old(self).entries@.len()
                            &&& (forall|j: int|
                                0 <= j < old(self).entries@.len() && j != i
                                    ==> final(self).entries@[j] == old(self).entries@[j])
                            &&& final(self).entries@[i].id == id
                            &&& ({
                                let c1 = final(self).entries@[i].conn;
                                &&& c1.phase == p.phase
                                &&& c1.inbuf@ == p.rest
                                &&& c1.outbuf@ == c0.outbuf@ + p.out
                                &&& frag_model(c1.frag) == p.frag
                            })
                        })
                    } else {
                        r is None && *final(self) == *old(self)
                    }
                },
            }),
    {
        let i = match self.find(id) {
            Some(i) => i,
            None => {
                return None;
            },
        };
        let open = match self.entries[i].conn.phase {
            Phase::Open => true,
            _ => false,
        };
        if !open {
            return None;
        }
        let e = &mut self.entries[i];
        let (msgs, _reason) = e.conn.handle_readable(data);
        let closed = match self.entries[i].conn.phase {
            Phase::Closed => true,
            _ => false,
        };
        if closed {
            let last_out = clone_bytes(&self.entries[i].conn.outbuf);
            let _ = self.entries.remove(i);
            Some((msgs, Some(last_out)))
        } else {
            Some((msgs, None))
        }
    }

    /// Records that the socket accepted `n` bytes of a connection's queued
    /// output. A fully flushed handshake response opens the connection; a
    /// fully flushed close completes the teardown and the connection leaves
    /// the registry. Ignored for an unknown identifier or an `n` beyond what
    /// was queued.
    pub fn dispatch_written(&mut self, id: u64, n: usize)
        requires
            old(self).wf(),
        ensures
            final(self).wf(),
            final(self).next_id == old(self).next_id,
            (match spec_find_id(old(self).entries@, id) {
                None => *final(self) == *old(self),
                Some(i) => {
                    let c0 = old(self).entries@[i].conn;
                    if n <= c0.outbuf@.len() {
                        let done = c0.outbuf@.len() == n;
                        let moved = (if done {
                            (match c0.phase {
                                Phase::HandshakeResponsePending => Phase::Open,
                                Phase::ClosingSent => Phase::Closed,
                                q => q,
                            })
                        } else {
                            c0.phase
                        });
                        &&& (moved is Closed ==> final(self).entries@ == old(self).entries@.remove(
                            i,
                        ))
                        &&& (!(moved is Closed) ==> {
                            &&& final(self).entries@.len() == old(self).entries@.len()
                            &&& (forall|j: int|
                                0 <= j < old(self).entries@.len() && j != i
                                    ==> final(self).entries@[j] == old(self).entries@[j])
                            &&& final(self).entries@[i].id == id
                            &&& ({
                                let c1 = final(self).entries@[i].conn;
                                &&& c1.phase == moved
                                &&& c1.outbuf@ == c0.outbuf@.skip(n as int)
                                &&& c1.inbuf == c0.inbuf
                                &&& c1.frag == c0.frag
                            })
                        })
                    } else {
                        *final(self) == *old(self)
                    }
                },
            }),
    {
        let i = match self.find(id) {
            Some(i) => i,
            None => {
                return ;
            },
        };
        if n > self.entries[i].conn.outbuf.len() {
            return ;
        }
        let e = &mut self.entries[i];
        e.conn.on_written(n);
        let closed = match self.entries[i].conn.phase {
            Phase::Closed => true,
            _ => false,
        };
        if closed {
            let _ = self.entries.remove(i);
        }
    }
}

} // verus!
