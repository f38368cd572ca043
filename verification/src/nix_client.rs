//! The daemon-facing half of a proxy session.
//!
//! The application connects this endpoint to the daemon subprocess's
//! byte pipes: bytes from the daemon are fed into the receive buffer,
//! and the transmit buffer is sent on to the daemon. This type runs
//! the client side of the handshake and carries worker operations,
//! framed payloads, stderr messages and responses across.

use crate::serialize::{dec_u64, u64_le, Error, NixDeserializer, NixSerializer, Wire};
use crate::stderr::Msg;
use crate::worker_op::{enc_op, op_framed_enc, op_wf, Resp, WorkerOp};
use crate::{PROTOCOL_VERSION, WORKER_MAGIC_1, WORKER_MAGIC_2};
use vstd::prelude::*;

verus! {

/// How far the client side of the handshake has come.
#[derive(Clone, Copy, Debug, PartialEq, Eq, Structural)]
pub enum ClientState {
    /// Nothing sent yet.
    Hello,
    /// Magic sent; waiting for the daemon's magic and version.
    AwaitAck,
    /// Version acknowledged; waiting for the daemon's identification.
    AwaitId,
    /// Draining the daemon's initial stderr stream.
    Draining,
    /// Handshake complete; operations may be sent.
    Ready,
}

impl ClientState {
    /// The phases in order.
    pub open spec fn rank(self) -> int {
        match self {
            ClientState::Hello => 0,
            ClientState::AwaitAck => 1,
            ClientState::AwaitId => 2,
            ClientState::Draining => 3,
            ClientState::Ready => 4,
        }
    }
}

/// The words this side sends after accepting the daemon's version: its
/// own version and the two obsolete fields, as zero.
pub open spec fn client_ack() -> Seq<u8> {
    u64_le(PROTOCOL_VERSION) + (u64_le(0) + u64_le(0))
}

/// The daemon-facing session endpoint.
pub struct NixDaemonClient {
    pub rx_from_daemon: NixDeserializer,
    pub tx_to_daemon: NixSerializer,
    pub state: ClientState,
    pub tx_op_count: u64,
}

impl NixDaemonClient {
    pub open spec fn wf(self) -> bool {
        self.rx_from_daemon.wf()
    }

    /// A fresh endpoint that has not yet greeted the daemon.
    pub fn new() -> (r: Self)
        ensures
            r.wf(),
            r.state == ClientState::Hello,
            r.rx_from_daemon.data@ == Seq::<u8>::empty(),
            r.rx_from_daemon.pos == 0,
            r.tx_to_daemon.out@ == Seq::<u8>::empty(),
            r.tx_op_count == 0,
    {
        NixDaemonClient {
            rx_from_daemon: NixDeserializer::new(Vec::new()),
            tx_to_daemon: NixSerializer::new(),
            state: ClientState::Hello,
            tx_op_count: 0,
        }
    }

    /// Hand further bytes from the daemon to the session.
    pub fn feed_from_daemon(&mut self, more: &[u8])
        requires
            old(self).wf(),
        ensures
            final(self).wf(),
            final(self).rx_from_daemon.data@ == old(self).rx_from_daemon.data@ + more@,
            final(self).rx_from_daemon.pos == old(self).rx_from_daemon.pos,
            *final(self) == (NixDaemonClient {
                rx_from_daemon: final(self).rx_from_daemon,
                ..*old(self)
            }),
    {
        self.rx_from_daemon.feed(more);
    }

    /// Take the bytes owed to the daemon; the application sends them.
    pub fn flush(&mut self) -> (r: Vec<u8>)
        ensures
            r == old(self).tx_to_daemon.out,
            final(self).tx_to_daemon.out@ == Seq::<u8>::empty(),
            *final(self) == (NixDaemonClient {
                tx_to_daemon: final(self).tx_to_daemon,
                ..*old(self)
            }),
    {
        self.tx_to_daemon.take_output()
    }

    /// Run the client side of the handshake as far as the input
    /// allows: send the magic word, check the daemon's magic and
    /// version, send this side's version and the two obsolete zero
    /// words, read the daemon's identification, and drain its initial
    /// stderr stream up to the closing Last. Returns true once ready,
    /// false if more daemon bytes are needed.
    pub fn handshake_with_daemon(&mut self) -> (res: Result<bool, Error>)
        requires
            old(self).wf(),
            old(self).state != ClientState::Ready,
        ensures
            final(self).wf(),
            final(self).rx_from_daemon.data == old(self).rx_from_daemon.data,
            final(self).tx_op_count == old(self).tx_op_count,
            old(self).rx_from_daemon.pos <= final(self).rx_from_daemon.pos,
            old(self).state.rank() <= final(self).state.rank(),
            // everything written is determined by how far the handshake came
            final(self).tx_to_daemon.out@ == old(self).tx_to_daemon.out@ + (
            if old(self).state == ClientState::Hello {
                u64_le(WORKER_MAGIC_1)
            } else {
                Seq::<u8>::empty()
            }) + (
            if old(self).state.rank() <= 1 && final(self).state.rank() >= 2 {
                client_ack()
            } else {
                Seq::<u8>::empty()
            }),
            res == Ok::<bool, Error>(true) <==> final(self).state == ClientState::Ready,
            // a truncation is never fatal: it only ever asks for more input
            res matches Err(e) ==> e != Error::Truncated,
            // the acknowledgement phase is decided exactly by the
            // daemon's magic and version words
            old(self).state.rank() <= 1 ==> match dec_u64(
                old(self).rx_from_daemon.data@,
                old(self).rx_from_daemon.pos as int,
            ) {
                Option::None => res == Ok::<bool, Error>(false) && final(self).state.rank() <= 1
                    && final(self).rx_from_daemon.pos == old(self).rx_from_daemon.pos,
                Option::Some((m, p1)) => if m != WORKER_MAGIC_2 {
                    res == Err::<bool, Error>(Error::BadMagic(m))
                } else {
                    match dec_u64(old(self).rx_from_daemon.data@, p1) {
                        Option::None => res == Ok::<bool, Error>(false) && final(self).state.rank() <= 1 && final(self).rx_from_daemon.pos == old(self).rx_from_daemon.pos,
                        Option::Some((v, p2)) => if v < PROTOCOL_VERSION {
                            res == Err::<bool, Error>(Error::OldVersion(v))
                        } else {
                            final(self).state.rank() >= 2 && final(self).rx_from_daemon.pos >= p2
                        },
                    }
                },
            },
            // the identification phase completes once the daemon's
            // whole identification string is buffered
            (old(self).state == ClientState::AwaitId && crate::serialize::rec_bytes(
                old(self).rx_from_daemon.data@,
                old(self).rx_from_daemon.pos as int,
            ) is Some) ==> final(self).state.rank() >= 3,
            // waiting mid-drain means no whole message is buffered at
            // the cursor
            res == Ok::<bool, Error>(false) && final(self).state == ClientState::Draining
                ==> <Msg as Wire>::rec(
                old(self).rx_from_daemon.data@,
                final(self).rx_from_daemon.pos as int,
            ) is None,
            res == Ok::<bool, Error>(false) && final(self).state == ClientState::AwaitId
                ==> crate::serialize::dec_bytes(
                old(self).rx_from_daemon.data@,
                final(self).rx_from_daemon.pos as int,
            ) is None,
    {
        let ghost tx0 = self.tx_to_daemon.out@;
        if match self.state {
            ClientState::Hello => true,
            _ => false,
        } {
            self.tx_to_daemon.write_u64(WORKER_MAGIC_1);
            self.state = ClientState::AwaitAck;
        }
        proof {
            assert(self.tx_to_daemon.out@ =~= tx0 + (
            if old(self).state == ClientState::Hello {
                u64_le(WORKER_MAGIC_1)
            } else {
                Seq::<u8>::empty()
            }));
        }
        let ghost tx1 = self.tx_to_daemon.out@;
        if match self.state {
            ClientState::AwaitAck => true,
            _ => false,
        } {
            let start = self.rx_from_daemon.pos;
            let two_ok = {
                let magic = match self.rx_from_daemon.read_u64() {
                    Ok(m) => m,
                    Err(_) => {
                        self.rx_from_daemon.pos = start;
                        proof {
                            assert(self.tx_to_daemon.out@ =~= tx1 + Seq::<u8>::empty());
                        }
                        return Ok(false);
                    },
                };
                if magic != WORKER_MAGIC_2 {
                    return Err(Error::BadMagic(magic));
                }
                let version = match self.rx_from_daemon.read_u64() {
                    Ok(v) => v,
                    Err(_) => {
                        self.rx_from_daemon.pos = start;
                        proof {
                            assert(self.tx_to_daemon.out@ =~= tx1 + Seq::<u8>::empty());
                        }
                        return Ok(false);
                    },
                };
                if version < PROTOCOL_VERSION {
                    return Err(Error::OldVersion(version));
                }
                true
            };
            if two_ok {
                self.tx_to_daemon.write_u64(PROTOCOL_VERSION);
                self.tx_to_daemon.write_u64(0);
                self.tx_to_daemon.write_u64(0);
                self.state = ClientState::AwaitId;
                proof {
                    assert(self.tx_to_daemon.out@ =~= tx1 + client_ack());
                }
            }
        }
        let ghost tx2 = self.tx_to_daemon.out@;
        if match self.state {
            ClientState::AwaitId => true,
            _ => false,
        } {
            let start = self.rx_from_daemon.pos;
            match self.rx_from_daemon.read_byte_buf() {
                Ok(_) => {
                    self.state = ClientState::Draining;
                },
                Err(e) => {
                    if match e {
                        Error::Truncated => true,
                        _ => false,
                    } {
                        self.rx_from_daemon.pos = start;
                        proof {
                            assert(self.tx_to_daemon.out@ =~= tx2 + Seq::<u8>::empty());
                        }
                        return Ok(false);
                    }
                    self.rx_from_daemon.pos = start;
                    return Err(e);
                },
            }
        }
        let mut draining = match self.state {
            ClientState::Draining => true,
            _ => false,
        };
        while draining
            invariant
                draining == (self.state == ClientState::Draining),
                old(self).state.rank() <= 1 ==> (dec_u64(
                    old(self).rx_from_daemon.data@,
                    old(self).rx_from_daemon.pos as int,
                ) matches Some((m, p1)) && m == WORKER_MAGIC_2 && (dec_u64(
                    old(self).rx_from_daemon.data@,
                    p1,
                ) matches Some((v, p2)) && v >= PROTOCOL_VERSION && self.rx_from_daemon.pos
                    >= p2)),
                self.wf(),
                self.rx_from_daemon.data == old(self).rx_from_daemon.data,
                self.tx_to_daemon.out@ == tx2,
                tx2 == old(self).tx_to_daemon.out@ + (
                if old(self).state == ClientState::Hello {
                    u64_le(WORKER_MAGIC_1)
                } else {
                    Seq::<u8>::empty()
                }) + (
                if old(self).state.rank() <= 1 {
                    client_ack()
                } else {
                    Seq::<u8>::empty()
                }),
                old(self).state.rank() <= 3,
                self.tx_op_count == old(self).tx_op_count,
                old(self).rx_from_daemon.pos <= self.rx_from_daemon.pos,
                self.state == ClientState::Draining || self.state == ClientState::Ready,
            decreases self.rx_from_daemon.data@.len() - self.rx_from_daemon.pos + 1 + (
            if self.state == ClientState::Draining {
                1int
            } else {
                0int
            }),
        {
            let start = self.rx_from_daemon.pos;
            let msg = match <Msg as Wire>::decode(&mut self.rx_from_daemon) {
                Ok(m) => m,
                Err(e) => {
                    if match e {
                        Error::Truncated => true,
                        _ => false,
                    } {
                        self.rx_from_daemon.pos = start;
                        proof {
                            assert(self.tx_to_daemon.out@ =~= tx2 + Seq::<u8>::empty());
                        }
                        return Ok(false);
                    }
                    self.rx_from_daemon.pos = start;
                    return Err(e);
                },
            };
            if msg.is_last() {
                self.state = ClientState::Ready;
                draining = false;
            }
            proof {
                // a message occupies at least its opcode word
                crate::serialize::lemma_le_bytes_len(msg.tag() as nat, 8);
                assert(msg.enc().len() >= 8);
                assert(self.rx_from_daemon.pos > start);
            }
        }
        proof {
            assert(self.tx_to_daemon.out@ =~= tx2 + Seq::<u8>::empty());
        }
        if match self.state {
            ClientState::Ready => true,
            _ => false,
        } {
            Ok(true)
        } else {
            Ok(false)
        }
    }

    /// Send one worker operation, with its framed payload if it has
    /// one, to the daemon.
    pub fn send_worker_op_to_daemon(&mut self, worker_op: &WorkerOp) -> (res: Result<(), Error>)
        requires
            old(self).wf(),
            op_wf(*worker_op),
        ensures
            final(self).wf(),
            res is Ok,
            final(self).tx_to_daemon.out@ == old(self).tx_to_daemon.out@ + enc_op(*worker_op)
                + op_framed_enc(*worker_op),
            final(self).rx_from_daemon == old(self).rx_from_daemon,
            final(self).state == old(self).state,
            final(self).tx_op_count as int == (if old(self).tx_op_count < u64::MAX {
                old(self).tx_op_count as int + 1
            } else {
                old(self).tx_op_count as int
            }),
    {
        worker_op.write(&mut self.tx_to_daemon);
        if self.tx_op_count < u64::MAX {
            self.tx_op_count = self.tx_op_count + 1;
        }
        Ok(())
    }

    /// Forward one framed-stream length word to the daemon.
    pub fn streaming_write_len(&mut self, len: u64) -> (res: Result<(), Error>)
        ensures
            res is Ok,
            final(self).tx_to_daemon.out@ == old(self).tx_to_daemon.out@ + u64_le(len),
            final(self).rx_from_daemon == old(self).rx_from_daemon,
            final(self).state == old(self).state,
    {
        self.tx_to_daemon.write_u64(len);
        Ok(())
    }

    /// Forward the first chunk_len raw bytes of buf to the daemon.
    pub fn streaming_write_buff(&mut self, buf: &[u8], chunk_len: usize) -> (res: Result<
        (),
        Error,
    >)
        requires
            chunk_len <= buf@.len(),
        ensures
            res is Ok,
            final(self).tx_to_daemon.out@ == old(self).tx_to_daemon.out@ + buf@.subrange(
                0,
                chunk_len as int,
            ),
            final(self).rx_from_daemon == old(self).rx_from_daemon,
            final(self).state == old(self).state,
    {
        let mut i: usize = 0;
        while i < chunk_len
            invariant
                i <= chunk_len <= buf@.len(),
                self.tx_to_daemon.out@ == old(self).tx_to_daemon.out@ + buf@.subrange(
                    0,
                    i as int,
                ),
                self.rx_from_daemon == old(self).rx_from_daemon,
                self.state == old(self).state,
                self.tx_op_count == old(self).tx_op_count,
            decreases chunk_len - i,
        {
            let b = buf[i];
            self.tx_to_daemon.out.push(b);
            i = i + 1;
            proof {
                assert(self.tx_to_daemon.out@ =~= old(self).tx_to_daemon.out@ + buf@.subrange(
                    0,
                    i as int,
                ));
            }
        }
        Ok(())
    }

    /// Read one stderr message from the daemon. A tag naming no
    /// message is a protocol error carrying the tag.
    pub fn read_error_msg(&mut self) -> (res: Result<Msg, Error>)
        requires
            old(self).wf(),
        ensures
            final(self).wf(),
            final(self).rx_from_daemon.data == old(self).rx_from_daemon.data,
            final(self).tx_to_daemon == old(self).tx_to_daemon,
            final(self).state == old(self).state,
            final(self).tx_op_count == old(self).tx_op_count,
            match res {
                Ok(m) => {
                    &&& <Msg as Wire>::rec(
                        old(self).rx_from_daemon.data@,
                        old(self).rx_from_daemon.pos as int,
                    ) == Some(final(self).rx_from_daemon.pos as int)
                    &&& old(self).rx_from_daemon.pos <= final(self).rx_from_daemon.pos
                    &&& old(self).rx_from_daemon.data@.subrange(
                        old(self).rx_from_daemon.pos as int,
                        final(self).rx_from_daemon.pos as int,
                    ) == m.enc()
                },
                Err(_) => <Msg as Wire>::rec(
                    old(self).rx_from_daemon.data@,
                    old(self).rx_from_daemon.pos as int,
                ) is None,
            },
            dec_u64(old(self).rx_from_daemon.data@, old(self).rx_from_daemon.pos as int) is None
                ==> res == Err::<Msg, Error>(Error::Truncated),
            dec_u64(old(self).rx_from_daemon.data@, old(self).rx_from_daemon.pos as int) matches
                Some((t, _)) ==> (crate::stderr::stderr_tag(t) || res == Err::<Msg, Error>(
                Error::UnknownTag(t),
            )),
    {
        Msg::read(&mut self.rx_from_daemon)
    }

    /// Read one stderr message, or None when the input is exhausted at
    /// a message boundary.
    pub fn read_error_msg_or_eof(&mut self) -> (res: Result<Option<Msg>, Error>)
        requires
            old(self).wf(),
        ensures
            old(self).rx_from_daemon.pos == old(self).rx_from_daemon.data@.len() ==> res == Ok::<
                Option<Msg>,
                Error,
            >(None),
            final(self).wf(),
            final(self).rx_from_daemon.data == old(self).rx_from_daemon.data,
            final(self).tx_to_daemon == old(self).tx_to_daemon,
            final(self).state == old(self).state,
            final(self).tx_op_count == old(self).tx_op_count,
            match res {
                Ok(Option::None) => {
                    &&& old(self).rx_from_daemon.pos == old(self).rx_from_daemon.data@.len()
                    &&& *final(self) == *old(self)
                },
                Ok(Option::Some(m)) => {
                    &&& old(self).rx_from_daemon.pos <= final(self).rx_from_daemon.pos
                    &&& old(self).rx_from_daemon.data@.subrange(
                        old(self).rx_from_daemon.pos as int,
                        final(self).rx_from_daemon.pos as int,
                    ) == m.enc()
                },
                Err(_) => <Msg as Wire>::rec(
                    old(self).rx_from_daemon.data@,
                    old(self).rx_from_daemon.pos as int,
                ) is None,
            },
    {
        if self.rx_from_daemon.pos == self.rx_from_daemon.data.len() {
            return Ok(None);
        }
        match <Msg as Wire>::decode(&mut self.rx_from_daemon) {
            Ok(m) => Ok(Some(m)),
            Err(e) => Err(e),
        }
    }

    /// Read one typed response from the daemon; the marker names the
    /// type.
    pub fn read_build_response_from_daemon<T: Wire>(&mut self, _resp: &Resp<T>) -> (res: Result<
        T,
        Error,
    >)
        requires
            old(self).wf(),
        ensures
            final(self).wf(),
            final(self).rx_from_daemon.data == old(self).rx_from_daemon.data,
            final(self).tx_to_daemon == old(self).tx_to_daemon,
            final(self).state == old(self).state,
            final(self).tx_op_count == old(self).tx_op_count,
            match res {
                Ok(v) => {
                    &&& T::rec(
                        old(self).rx_from_daemon.data@,
                        old(self).rx_from_daemon.pos as int,
                    ) == Some(final(self).rx_from_daemon.pos as int)
                    &&& old(self).rx_from_daemon.pos <= final(self).rx_from_daemon.pos
                    &&& final(self).rx_from_daemon.pos - old(self).rx_from_daemon.pos
                        == v.enc().len()
                    &&& T::exact() ==> old(self).rx_from_daemon.data@.subrange(
                        old(self).rx_from_daemon.pos as int,
                        final(self).rx_from_daemon.pos as int,
                    ) == v.enc()
                },
                Err(_) => T::rec(
                    old(self).rx_from_daemon.data@,
                    old(self).rx_from_daemon.pos as int,
                ) is None,
            },
    {
        T::decode(&mut self.rx_from_daemon)
    }

    /// The input buffer, for streaming a response through directly.
    pub fn reader(&mut self) -> (r: &mut NixDeserializer)
        ensures
            *r == old(self).rx_from_daemon,
            *final(self) == (NixDaemonClient { rx_from_daemon: *final(r), ..*old(self) }),
    {
        &mut self.rx_from_daemon
    }

    /// The output buffer, for writing to the daemon directly.
    pub fn writer(&mut self) -> (w: &mut NixSerializer)
        ensures
            *w == old(self).tx_to_daemon,
            *final(self) == (NixDaemonClient { tx_to_daemon: *final(w), ..*old(self) }),
    {
        &mut self.tx_to_daemon
    }
}

} // verus!
