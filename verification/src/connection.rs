//! The per-connection protocol state machine: the phase, the buffered bytes
//! in each direction, the interest set and the fragmentation accumulator,
//! with one handler per event the dispatch loop can deliver. The handlers
//! decide; reading and writing the socket, and tokenizing the HTTP request,
//! happen outside and hand plain bytes in and out.
use vstd::prelude::*;
use vstd::pervasive::unreached;
use vstd::string::StrSliceExecFns;
use vstd::string::StringSliceAdditionalSpecFns;

use crate::WsError;
use crate::clone_bytes;
use crate::frame::OpCode;
use crate::frame::FrameModel;
use crate::frame::DecodeOutcome;
use crate::frame::SpecDecodeOutcome;
use crate::frame::spec_decode;
use crate::frame::spec_encode;
use crate::frame::decode_frame;
use crate::frame::encode_frame;
use crate::frame::append_bytes;
use crate::frame::lemma_decode_consumed;
use crate::frame::lemma_decode_frame_facts;
use crate::handshake::HeaderMap;
use crate::handshake::spec_lookup;
use crate::handshake::name_eq;
use crate::handshake::spec_valid_upgrade;
use crate::handshake::client_key_of;
use crate::handshake::accept_token_of;
use crate::handshake::validate_upgrade;

verus! {

/// The protocol phase of one connection. Exactly one at a time; `Closed` is
/// terminal.
#[derive(Clone, Copy, Debug, PartialEq, Eq, Structural)]
pub enum Phase {
    AwaitingHandshake,
    HandshakeResponsePending,
    Open,
    ClosingSent,
    Closed,
}

/// A complete message delivered to the application boundary.
pub struct Message {
    pub opcode: OpCode,
    pub data: Vec<u8>,
}

#[verifier::ext_equal]
pub struct MessageModel {
    pub opcode: OpCode,
    pub data: Seq<u8>,
}

impl View for Message {
    type V = MessageModel;

    open spec fn view(&self) -> MessageModel {
        MessageModel { opcode: self.opcode, data: self.data@ }
    }
}

pub open spec fn msgs_model(v: Seq<Message>) -> Seq<MessageModel> {
    Seq::new(v.len(), |i: int| v[i]@)
}

/// An in-progress fragmented message: the opcode of its first frame and the
/// payload accumulated so far.
pub struct Fragment {
    pub opcode: OpCode,
    pub data: Vec<u8>,
}

#[verifier::ext_equal]
pub struct FragmentModel {
    pub opcode: OpCode,
    pub data: Seq<u8>,
}

impl View for Fragment {
    type V = FragmentModel;

    open spec fn view(&self) -> FragmentModel {
        FragmentModel { opcode: self.opcode, data: self.data@ }
    }
}

pub open spec fn frag_model(f: Option<Fragment>) -> Option<FragmentModel> {
    match f {
        Some(fr) => Some(fr@),
        None => None,
    }
}

/// The close-frame payload for a protocol error: status code 1002 in two
/// big-endian bytes.
pub open spec fn close_1002() -> Seq<u8> {
    seq![3u8, 234u8]
}

/// What handling one decoded frame does: messages delivered, bytes queued
/// for the peer, the new accumulator, whether the connection closed (a close
/// frame was answered), and whether the frame was a protocol violation (a
/// continuation with no message in progress).
#[verifier::ext_equal]
pub struct StepModel {
    pub msgs: Seq<MessageModel>,
    pub out: Seq<u8>,
    pub frag: Option<FragmentModel>,
    pub close: bool,
    pub error: bool,
}

/// One frame against the accumulator: a continuation extends it and, when
/// final, delivers the accumulated message under its original opcode; a
/// non-final text or binary frame starts or replaces it; a final text or
/// binary frame is delivered at once; a ping is answered with a pong echoing
/// its payload; a pong is ignored; a close is answered with a close echoing
/// its payload and ends the connection.
pub open spec fn spec_handle_frame(frag: Option<FragmentModel>, f: FrameModel) -> StepModel {
    match f.opcode {
        OpCode::Continuation => match frag {
            None => StepModel {
                msgs: seq![],
                out: seq![],
                frag: None,
                close: false,
                error: true,
            },
            Some(acc) => {
                let data = acc.data + f.payload;
                if f.fin {
                    StepModel {
                        msgs: seq![MessageModel { opcode: acc.opcode, data }],
                        out: seq![],
                        frag: None,
                        close: false,
                        error: false,
                    }
                } else {
                    StepModel {
                        msgs: seq![],
                        out: seq![],
                        frag: Some(FragmentModel { opcode: acc.opcode, data }),
                        close: false,
                        error: false,
                    }
                }
            },
        },
        OpCode::Text | OpCode::Binary => if f.fin {
            StepModel {
                msgs: seq![MessageModel { opcode: f.opcode, data: f.payload }],
                out: seq![],
                frag,
                close: false,
                error: false,
            }
        } else {
            StepModel {
                msgs: seq![],
                out: seq![],
                frag: Some(FragmentModel { opcode: f.opcode, data: f.payload }),
                close: false,
                error: false,
            }
        },
        OpCode::Ping => StepModel {
            msgs: seq![],
            out: spec_encode(true, OpCode::Pong, f.payload),
            frag,
            close: false,
            error: false,
        },
        OpCode::Pong => StepModel {
            msgs: seq![],
            out: seq![],
            frag,
            close: false,
            error: false,
        },
        OpCode::Close => StepModel {
            msgs: seq![],
            out: spec_encode(true, OpCode::Close, f.payload),
            frag,
            close: true,
            error: false,
        },
    }
}

/// What one readable event does to an open connection.
#[verifier::ext_equal]
pub struct PumpModel {
    pub msgs: Seq<MessageModel>,
    pub out: Seq<u8>,
    pub rest: Seq<u8>,
    pub frag: Option<FragmentModel>,
    pub phase: Phase,
}

/// Frames are decoded from the buffer until no complete one is left. A
/// protocol violation queues a close frame with status 1002, discards the
/// buffer and moves to `ClosingSent`; an answered close discards the buffer
/// and moves to `Closed`; otherwise the connection stays `Open` and the
/// bytes of an incomplete trailing frame remain buffered.
pub open spec fn spec_pump(frag: Option<FragmentModel>, buf: Seq<u8>) -> PumpModel
    decreases buf.len(),
    via spec_pump_decreases
{
    match spec_decode(buf) {
        SpecDecodeOutcome::NeedMoreData => PumpModel {
            msgs: seq![],
            out: seq![],
            rest: buf,
            frag,
            phase: Phase::Open,
        },
        SpecDecodeOutcome::ProtocolError => PumpModel {
            msgs: seq![],
            out: spec_encode(true, OpCode::Close, close_1002()),
            rest: seq![],
            frag: None,
            phase: Phase::ClosingSent,
        },
        SpecDecodeOutcome::Decoded(f, consumed) => {
            let step = spec_handle_frame(frag, f);
            if step.error {
                PumpModel {
                    msgs: seq![],
                    out: spec_encode(true, OpCode::Close, close_1002()),
                    rest: seq![],
                    frag: None,
                    phase: Phase::ClosingSent,
                }
            } else if step.close {
                PumpModel {
                    msgs: step.msgs,
                    out: step.out,
                    rest: seq![],
                    frag: None,
                    phase: Phase::Closed,
                }
            } else {
                let rec = spec_pump(step.frag, buf.subrange(consumed, buf.len() as int));
                PumpModel {
                    msgs: step.msgs + rec.msgs,
                    out: step.out + rec.out,
                    rest: rec.rest,
                    frag: rec.frag,
                    phase: rec.phase,
                }
            }
        },
    }
}

#[via_fn]
proof fn spec_pump_decreases(frag: Option<FragmentModel>, buf: Seq<u8>) {
    lemma_decode_consumed(buf);
}

pub open spec fn pump_join(msgs: Seq<MessageModel>, out: Seq<u8>, p: PumpModel) -> PumpModel {
    PumpModel { msgs: msgs + p.msgs, out: out + p.out, rest: p.rest, frag: p.frag, phase: p.phase }
}

/// The literal 101 response around the accept token owed to a key.
pub open spec fn handshake_response(key: Seq<u8>) -> Seq<u8> {
    "HTTP/1.1 101 Switching Protocols\r\nConnection: Upgrade\r\nSec-WebSocket-Accept: ".spec_bytes()
        + accept_token_of(key) + "\r\nUpgrade: websocket\r\n\r\n".spec_bytes()
}

/// One live connection, between the socket (outside) and the application
/// boundary: its phase, the headers while the handshake is parsed, the bytes
/// not yet parsed into a frame, the bytes not yet written out, the
/// fragmentation accumulator, and the interest set the dispatch loop should
/// register next.
pub struct Connection {
    pub phase: Phase,
    pub headers: HeaderMap,
    pub inbuf: Vec<u8>,
    pub outbuf: Vec<u8>,
    pub frag: Option<Fragment>,
    pub want_read: bool,
    pub want_write: bool,
}

impl Connection {
    /// Phase and interest set are consistent: a handshake phase wants only
    /// the one direction it works in, an open connection always reads and
    /// wants to write exactly while bytes are pending, and a closing one
    /// only flushes.
    pub open spec fn wf(self) -> bool {
        &&& self.headers.wf()
        &&& match self.phase {
            Phase::AwaitingHandshake => self.want_read && !self.want_write && self.outbuf@.len()
                == 0 && self.inbuf@.len() == 0 && self.frag is None,
            Phase::HandshakeResponsePending => !self.want_read && self.want_write && self.inbuf@.len()
                == 0 && self.frag is None,
            Phase::Open => self.want_read && (self.want_write <==> self.outbuf@.len() > 0),
            Phase::ClosingSent => !self.want_read && self.want_write,
            Phase::Closed => !self.want_read && !self.want_write,
        }
    }

    /// A fresh connection awaiting its handshake, interested in reading.
    pub fn new() -> (r: Connection)
        ensures
            r.wf(),
            r.phase == Phase::AwaitingHandshake,
            r.headers.model() == Seq::<(Seq<u8>, Seq<u8>)>::empty(),
            r.inbuf@.len() == 0,
            r.outbuf@.len() == 0,
            r.frag is None,
            r.want_read,
            !r.want_write,
    {
        Connection {
            phase: Phase::AwaitingHandshake,
            headers: HeaderMap::new(),
            inbuf: Vec::new(),
            outbuf: Vec::new(),
            frag: None,
            want_read: true,
            want_write: false,
        }
    }

    /// The bytes queued for the peer, to be handed to the socket when it is
    /// writable.
    pub fn pending_output(&self) -> (r: &Vec<u8>)
        ensures
            r@ == self.outbuf@,
    {
        &self.outbuf
    }

    /// Records one header pair the HTTP parser emitted; a repeated name
    /// replaces the earlier value.
    pub fn on_header(&mut self, name: Vec<u8>, value: Vec<u8>)
        requires
            old(self).wf(),
            old(self).phase == Phase::AwaitingHandshake,
        ensures
            final(self).wf(),
            final(self).phase == Phase::AwaitingHandshake,
            final(self).inbuf == old(self).inbuf,
            final(self).outbuf == old(self).outbuf,
            final(self).frag == old(self).frag,
            final(self).want_read == old(self).want_read,
            final(self).want_write == old(self).want_write,
            forall|n: Seq<u8>|
                spec_lookup(#[trigger] final(self).headers.model(), n) == (if name_eq(n, name@) {
                    Some(value@)
                } else {
                    spec_lookup(old(self).headers.model(), n)
                }),
    {
        self.headers.insert(name, value);
    }

    /// The parser signalled headers-complete: validate the upgrade request.
    /// A valid one queues the 101 response with the accept token, moves to
    /// `HandshakeResponsePending` and flips interest from read to write; an
    /// invalid one is `BadHandshake`, and the connection is closed for
    /// teardown.
    pub fn on_headers_complete(&mut self) -> (r: Result<(), WsError>)
        requires
            old(self).wf(),
            old(self).phase == Phase::AwaitingHandshake,
        ensures
            final(self).wf(),
            final(self).inbuf == old(self).inbuf,
            final(self).frag == old(self).frag,
            (match r {
                Ok(()) => spec_valid_upgrade(old(self).headers.model()) && final(self).phase
                    == Phase::HandshakeResponsePending && final(self).outbuf@
                    == handshake_response(client_key_of(old(self).headers.model()))
                    && !final(self).want_read && final(self).want_write,
                Err(e) => !spec_valid_upgrade(old(self).headers.model()) && e
                    == WsError::BadHandshake && final(self).phase == Phase::Closed
                    && !final(self).want_read && !final(self).want_write,
            }),
    {
        match validate_upgrade(&self.headers) {
            Ok(token) => {
                let mut resp =
                    "HTTP/1.1 101 Switching Protocols\r\nConnection: Upgrade\r\nSec-WebSocket-Accept: ".as_bytes_vec();
                let mut tok = token;
                resp.append(&mut tok);
                let mut tail = "\r\nUpgrade: websocket\r\n\r\n".as_bytes_vec();
                resp.append(&mut tail);
                self.outbuf = resp;
                self.phase = Phase::HandshakeResponsePending;
                self.want_read = false;
                self.want_write = true;
                Ok(())
            },
            Err(e) => {
                self.phase = Phase::Closed;
                self.want_read = false;
                self.want_write = false;
                Err(e)
            },
        }
    }

    /// Bytes arrived on an open connection: they join the inbound buffer,
    /// and every complete frame in it is handled, exactly as `spec_pump`
    /// says of the buffered and the new bytes together. The complete
    /// messages are returned for the application; pong and close answers are
    /// queued on the outbound buffer. A protocol violation is reported
    /// beside the messages that completed before it.
    #[verifier::rlimit(100)]
    pub fn handle_readable(&mut self, data: &Vec<u8>) -> (r: (Vec<Message>, Option<WsError>))
        requires
            old(self).wf(),
            old(self).phase == Phase::Open,
        ensures
            final(self).wf(),
            final(self).headers == old(self).headers,
            ({
                let p = spec_pump(frag_model(old(self).frag), old(self).inbuf@ + data@);
                &&& msgs_model(r.0@) == p.msgs
                &&& r.1 == (if p.phase is ClosingSent {
                    Some(WsError::ProtocolError)
                } else {
                    None::<WsError>
                })
                &&& final(self).outbuf@ == old(self).outbuf@ + p.out
                &&& final(self).inbuf@ == p.rest
                &&& frag_model(final(self).frag) == p.frag
                &&& final(self).phase == p.phase
            }),
    {
        let ghost buf0 = old(self).inbuf@ + data@;
        let ghost frag0 = frag_model(old(self).frag);
        let ghost out0 = old(self).outbuf@;
        let mut incoming = clone_bytes(data);
        self.inbuf.append(&mut incoming);
        let mut msgs: Vec<Message> = Vec::new();
        proof {
            assert(self.inbuf@ == buf0);
            assert(msgs_model(msgs@) =~= Seq::<MessageModel>::empty());
            assert(self.outbuf@.skip(out0.len() as int) =~= Seq::<u8>::empty());
            assert(self.outbuf@.subrange(0, out0.len() as int) =~= out0);
            assert(spec_pump(frag0, buf0) =~~= pump_join(
                msgs_model(msgs@),
                self.outbuf@.skip(out0.len() as int),
                spec_pump(frag_model(self.frag), self.inbuf@),
            ));
        }
        loop
            invariant
                self.phase == Phase::Open,
                self.headers == old(self).headers,
                old(self).headers.wf(),
                self.want_read,
                out0 == old(self).outbuf@,
                buf0 == old(self).inbuf@ + data@,
                frag0 == frag_model(old(self).frag),
                out0.len() <= self.outbuf@.len(),
                self.outbuf@.subrange(0, out0.len() as int) == out0,
                spec_pump(frag0, buf0) == pump_join(
                    msgs_model(msgs@),
                    self.outbuf@.skip(out0.len() as int),
                    spec_pump(frag_model(self.frag), self.inbuf@),
                ),
            decreases self.inbuf@.len(),
        {
            let ghost cb = self.inbuf@;
            let ghost cf = frag_model(self.frag);
            let ghost gmsgs = msgs_model(msgs@);
            let ghost gout = self.outbuf@.skip(out0.len() as int);
            let outcome = decode_frame(&self.inbuf);
            match outcome {
                DecodeOutcome::NeedMoreData => {
                    self.want_write = self.outbuf.len() > 0;
                    proof {
                        assert(spec_pump(cf, cb) =~~= (PumpModel {
                            msgs: seq![],
                            out: seq![],
                            rest: cb,
                            frag: cf,
                            phase: Phase::Open,
                        }));
                        assert(gmsgs + Seq::<MessageModel>::empty() =~= gmsgs);
                        assert(gout + Seq::<u8>::empty() =~= gout);
                        assert(self.outbuf@ =~= out0 + gout);
                    }
                    return (msgs, None);
                },
                DecodeOutcome::ProtocolError => {
                    push_close_1002(&mut self.outbuf);
                    self.inbuf.clear();
                    self.frag = None;
                    self.phase = Phase::ClosingSent;
                    self.want_read = false;
                    self.want_write = true;
                    proof {
                        let close = spec_encode(true, OpCode::Close, close_1002());
                        assert(spec_pump(cf, cb) =~~= (PumpModel {
                            msgs: seq![],
                            out: close,
                            rest: seq![],
                            frag: None,
                            phase: Phase::ClosingSent,
                        }));
                        assert(gmsgs + Seq::<MessageModel>::empty() =~= gmsgs);
                        assert(self.outbuf@.skip(out0.len() as int) =~= gout + close);
                        assert(self.outbuf@ =~= out0 + (gout + close));
                        assert(self.inbuf@ =~= Seq::<u8>::empty());
                    }
                    return (msgs, Some(WsError::ProtocolError));
                },
                DecodeOutcome::Decoded(frame, consumed) => {
                    proof {
                        lemma_decode_consumed(cb);
                        lemma_decode_frame_facts(cb);
                    }
                    let ghost fm = frame@;
                    let ghost step = spec_handle_frame(cf, fm);
                    let rest = self.inbuf.split_off(consumed);
                    self.inbuf = rest;
                    proof {
                        assert(self.inbuf@ == cb.subrange(consumed as int, cb.len() as int));
                    }
                    match frame.opcode {
                        OpCode::Continuation => {
                            let taken = self.frag.take();
                            match taken {
                                None => {
                                    // a continuation with no message in progress
                                    push_close_1002(&mut self.outbuf);
                                    self.inbuf.clear();
                                    self.phase = Phase::ClosingSent;
                                    self.want_read = false;
                                    self.want_write = true;
                                    proof {
                                        let close = spec_encode(true, OpCode::Close, close_1002());
                                        assert(step.error);
                                        assert(spec_pump(cf, cb) =~~= (PumpModel {
                                            msgs: seq![],
                                            out: close,
                                            rest: seq![],
                                            frag: None,
                                            phase: Phase::ClosingSent,
                                        }));
                                        assert(gmsgs + Seq::<MessageModel>::empty() =~= gmsgs);
                                        assert(self.outbuf@.skip(out0.len() as int) =~= gout
                                            + close);
                                        assert(self.outbuf@ =~= out0 + (gout + close));
                                        assert(self.inbuf@ =~= Seq::<u8>::empty());
                                    }
                                    return (msgs, Some(WsError::ProtocolError));
                                },
                                Some(acc) => {
                                    let mut acc_data = acc.data;
                                    let mut pl = frame.payload;
                                    acc_data.append(&mut pl);
                                    if frame.fin {
                                        msgs.push(Message { opcode: acc.opcode, data: acc_data });
                                        proof {
                                            assert(msgs_model(msgs@) =~~= gmsgs + step.msgs);
                                            assert(gout + step.out =~= gout);
                                            assert(frag_model(self.frag) == step.frag);
                                        }
                                    } else {
                                        self.frag = Some(
                                            Fragment { opcode: acc.opcode, data: acc_data },
                                        );
                                        proof {
                                            assert(msgs_model(msgs@) =~~= gmsgs + step.msgs);
                                            assert(gout + step.out =~= gout);
                                            assert(frag_model(self.frag) == step.frag);
                                        }
                                    }
                                },
                            }
                        },
                        OpCode::Text => {
                            if frame.fin {
                                msgs.push(Message { opcode: OpCode::Text, data: frame.payload });
                            } else {
                                self.frag = Some(
                                    Fragment { opcode: OpCode::Text, data: frame.payload },
                                );
                            }
                            proof {
                                assert(msgs_model(msgs@) =~~= gmsgs + step.msgs);
                                assert(gout + step.out =~= gout);
                                assert(frag_model(self.frag) == step.frag);
                            }
                        },
                        OpCode::Binary => {
                            if frame.fin {
                                msgs.push(Message { opcode: OpCode::Binary, data: frame.payload });
                            } else {
                                self.frag = Some(
                                    Fragment { opcode: OpCode::Binary, data: frame.payload },
                                );
                            }
                            proof {
                                assert(msgs_model(msgs@) =~~= gmsgs + step.msgs);
                                assert(gout + step.out =~= gout);
                                assert(frag_model(self.frag) == step.frag);
                            }
                        },
                        OpCode::Ping => {
                            let pong = match encode_frame(true, OpCode::Pong, &frame.payload) {
                                Ok(b) => b,
                                Err(_) => unreached(),
                            };
                            append_bytes(&mut self.outbuf, &pong);
                            proof {
                                assert(msgs_model(msgs@) =~= gmsgs + step.msgs);
                                assert(self.outbuf@.skip(out0.len() as int) =~= gout + step.out);
                                assert(self.outbuf@.subrange(0, out0.len() as int) =~= out0);
                                assert(frag_model(self.frag) == step.frag);
                            }
                        },
                        OpCode::Pong => {
                            proof {
                                assert(msgs_model(msgs@) =~= gmsgs + step.msgs);
                                assert(gout + step.out =~= gout);
                                assert(frag_model(self.frag) == step.frag);
                            }
                        },
                        OpCode::Close => {
                            let reply = match encode_frame(true, OpCode::Close, &frame.payload) {
                                Ok(b) => b,
                                Err(_) => unreached(),
                            };
                            append_bytes(&mut self.outbuf, &reply);
                            self.inbuf.clear();
                            self.frag = None;
                            self.phase = Phase::Closed;
                            self.want_read = false;
                            self.want_write = false;
                            proof {
                                assert(step.close && !step.error);
                                assert(spec_pump(cf, cb) =~~= (PumpModel {
                                    msgs: step.msgs,
                                    out: step.out,
                                    rest: seq![],
                                    frag: None,
                                    phase: Phase::Closed,
                                }));
                                assert(msgs_model(msgs@) =~= gmsgs + step.msgs);
                                assert(self.outbuf@.skip(out0.len() as int) =~= gout + step.out);
                                assert(self.outbuf@ =~= out0 + (gout + step.out));
                                assert(self.inbuf@ =~= Seq::<u8>::empty());
                            }
                            return (msgs, None);
                        },
                    }
                    // the frame neither closed the connection nor violated
                    // the protocol: fold it into the accumulated result
                    proof {
                        assert(!step.error && !step.close);
                        let rec = spec_pump(step.frag, cb.subrange(consumed as int, cb.len() as int));
                        assert(spec_pump(cf, cb) =~~= (PumpModel {
                            msgs: step.msgs + rec.msgs,
                            out: step.out + rec.out,
                            rest: rec.rest,
                            frag: rec.frag,
                            phase: rec.phase,
                        }));
                        assert(pump_join(gmsgs, gout, spec_pump(cf, cb)) =~~= pump_join(
                            gmsgs + step.msgs,
                            gout + step.out,
                            rec,
                        ));
                        assert(self.outbuf@.subrange(0, out0.len() as int) =~= out0);
                    }
                },
            }
        }
    }

    /// The socket accepted `n` bytes of the queued output. When everything
    /// is flushed, a pending handshake response opens the connection and
    /// flips interest from write to read, and a sent close completes the
    /// teardown.
    pub fn on_written(&mut self, n: usize)
        requires
            old(self).wf(),
            n <= old(self).outbuf@.len(),
        ensures
            final(self).wf(),
            final(self).outbuf@ == old(self).outbuf@.skip(n as int),
            final(self).inbuf == old(self).inbuf,
            final(self).headers == old(self).headers,
            final(self).frag == old(self).frag,
            final(self).phase == (if old(self).outbuf@.len() == n {
                (match old(self).phase {
                    Phase::HandshakeResponsePending => Phase::Open,
                    Phase::ClosingSent => Phase::Closed,
                    p => p,
                })
            } else {
                old(self).phase
            }),
    {
        let rest = self.outbuf.split_off(n);
        self.outbuf = rest;
        proof {
            assert(self.outbuf@ =~= old(self).outbuf@.skip(n as int));
        }
        if self.outbuf.len() == 0 {
            match self.phase {
                Phase::HandshakeResponsePending => {
                    self.phase = Phase::Open;
                    self.want_read = true;
                    self.want_write = false;
                },
                Phase::ClosingSent => {
                    self.phase = Phase::Closed;
                    self.want_read = false;
                    self.want_write = false;
                },
                Phase::Open => {
                    self.want_write = false;
                },
                _ => {
                },
            }
        }
    }
}

/// The two-byte 1002 close payload.
fn close_1002_payload() -> (r: Vec<u8>)
    ensures
        r@ == close_1002(),
{
    let mut v: Vec<u8> = Vec::new();
    v.push(3);
    v.push(234);
    proof {
        assert(v@ =~= close_1002());
    }
    v
}

/// Queues an unmasked close frame with status 1002.
fn push_close_1002(out: &mut Vec<u8>)
    ensures
        final(out)@ == old(out)@ + spec_encode(true, OpCode::Close, close_1002()),
{
    let payload = close_1002_payload();
    let bytes = match encode_frame(true, OpCode::Close, &payload) {
        Ok(b) => b,
        Err(_) => unreached(),
    };
    append_bytes(out, &bytes);
}

} // verus!
