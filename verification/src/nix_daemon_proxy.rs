//! The client-facing half of a proxy session.
//!
//! The application appends bytes arriving from the client to the
//! receive buffer and sends the transmit buffer on to the client; this
//! type does everything in between: the server side of the handshake,
//! reading worker operations, and writing stderr messages and
//! responses back.

use crate::serialize::{
    dec_u64, enc_bytes, u64_le, Error, NixDeserializer, NixSerializer, Wire,
};
use crate::stderr::Msg;
use crate::worker_op::WorkerOp;
use crate::{PROTOCOL_VERSION, WORKER_MAGIC_1, WORKER_MAGIC_2};
use vstd::prelude::*;

verus! {

/// How far the server side of the handshake has come.
#[derive(Clone, Copy, Debug, PartialEq, Eq, Structural)]
pub enum ProxyState {
    /// Waiting for the client's magic word.
    Greeting,
    /// Magic answered; waiting for the client's version and the two
    /// obsolete fields.
    VersionWait,
    /// Handshake complete; worker operations may follow.
    Idle,
}

/// The bytes the server sends on seeing the client's magic: its own
/// magic word and the protocol version it speaks.
pub open spec fn server_hello() -> Seq<u8> {
    u64_le(WORKER_MAGIC_2) + u64_le(PROTOCOL_VERSION)
}

/// The bytes the server sends once the client's version is accepted:
/// its self-identification string and an empty stderr stream.
pub open spec fn server_welcome(id: Seq<u8>) -> Seq<u8> {
    enc_bytes(id) + Msg::Last.enc()
}


/// The handshake cannot go further on this input: the words the
/// current phase needs are not all buffered.
pub open spec fn handshake_blocked(pre: NixDaemonProxy) -> bool {
    let data = pre.rx_from_client.data@;
    let pos = pre.rx_from_client.pos as int;
    if pre.state == ProxyState::Greeting {
        match dec_u64(data, pos) {
            Option::None => true,
            Option::Some((m, p1)) => m == WORKER_MAGIC_1 && version_words_short(data, p1),
        }
    } else {
        version_words_short(data, pos)
    }
}

/// The version word and the two obsolete words are not all buffered
/// (an acceptable version taken as read).
pub open spec fn version_words_short(data: Seq<u8>, p: int) -> bool {
    match dec_u64(data, p) {
        Option::None => true,
        Option::Some((v, p1)) => v >= PROTOCOL_VERSION && (match dec_u64(data, p1) {
            Option::None => true,
            Option::Some((_, p2)) => dec_u64(data, p2) is None,
        }),
    }
}

/// The client-facing session endpoint.
pub struct NixDaemonProxy {
    pub rx_from_client: NixDeserializer,
    pub tx_to_client: NixSerializer,
    pub state: ProxyState,
    pub self_id: Vec<u8>,
    pub rx_op_count: u64,
}

impl NixDaemonProxy {
    pub open spec fn wf(self) -> bool {
        self.rx_from_client.wf()
    }

    /// A fresh session in the greeting state, announcing itself with
    /// the given identification string.
    pub fn new(self_id: Vec<u8>) -> (r: Self)
        ensures
            r.wf(),
            r.state == ProxyState::Greeting,
            r.self_id == self_id,
            r.rx_from_client.data@ == Seq::<u8>::empty(),
            r.rx_from_client.pos == 0,
            r.tx_to_client.out@ == Seq::<u8>::empty(),
            r.rx_op_count == 0,
    {
        NixDaemonProxy {
            rx_from_client: NixDeserializer::new(Vec::new()),
            tx_to_client: NixSerializer::new(),
            state: ProxyState::Greeting,
            self_id,
            rx_op_count: 0,
        }
    }

    /// Hand further bytes from the client to the session.
    pub fn feed_from_client(&mut self, more: &[u8])
        requires
            old(self).wf(),
        ensures
            final(self).wf(),
            final(self).rx_from_client.data@ == old(self).rx_from_client.data@ + more@,
            final(self).rx_from_client.pos == old(self).rx_from_client.pos,
            *final(self) == (NixDaemonProxy {
                rx_from_client: final(self).rx_from_client,
                ..*old(self)
            }),
    {
        self.rx_from_client.feed(more);
    }

    /// Take the bytes owed to the client; the application sends them.
    pub fn flush_tx_to_client(&mut self) -> (r: Vec<u8>)
        ensures
            r == old(self).tx_to_client.out,
            final(self).tx_to_client.out@ == Seq::<u8>::empty(),
            *final(self) == (NixDaemonProxy { tx_to_client: final(self).tx_to_client, ..*old(self) }),
    {
        self.tx_to_client.take_output()
    }

    /// Run the server side of the handshake as far as the input
    /// allows. Returns true once the handshake is complete, false if
    /// more client bytes are needed. On the client's magic word this
    /// side answers at once with its own magic, its version, its
    /// identification string, and an empty stderr stream; it then
    /// reads the client's version — rejecting one below its own — and
    /// reads and discards the two obsolete words after it.
    pub fn handshake_with_client(&mut self) -> (res: Result<bool, Error>)
        requires
            old(self).wf(),
            old(self).state != ProxyState::Idle,
        ensures
            final(self).wf(),
            final(self).rx_from_client.data == old(self).rx_from_client.data,
            final(self).self_id == old(self).self_id,
            final(self).rx_op_count == old(self).rx_op_count,
            old(self).rx_from_client.pos <= final(self).rx_from_client.pos,
            // everything written is determined by whether the greeting
            // phase completed in this call
            final(self).tx_to_client.out@ == old(self).tx_to_client.out@ + (
            if old(self).state == ProxyState::Greeting && final(self).state
                != ProxyState::Greeting {
                server_hello() + server_welcome(old(self).self_id@)
            } else {
                Seq::<u8>::empty()
            }),
            // the greeting phase: consume the magic word, exactly
            old(self).state == ProxyState::Greeting ==> match dec_u64(
                old(self).rx_from_client.data@,
                old(self).rx_from_client.pos as int,
            ) {
                Option::None => res == Ok::<bool, Error>(false) && *final(self) == *old(self),
                Option::Some((m, p1)) => if m != WORKER_MAGIC_1 {
                    res == Err::<bool, Error>(Error::BadMagic(m))
                } else {
                    final(self).state != ProxyState::Greeting
                },
            },
            final(self).state == ProxyState::Idle ==> res == Ok::<bool, Error>(true),
            res == Ok::<bool, Error>(true) ==> final(self).state == ProxyState::Idle,
            res == Ok::<bool, Error>(false) ==> handshake_blocked(*old(self)),
            // the version phase is decided exactly by the three words
            // at its start: a too-old version is refused, three whole
            // words complete the handshake, fewer leave it waiting
            // with nothing consumed
            ({
                let p = if old(self).state == ProxyState::Greeting {
                    old(self).rx_from_client.pos + 8
                } else {
                    old(self).rx_from_client.pos as int
                };
                let magic_ok = old(self).state == ProxyState::VersionWait || (dec_u64(
                    old(self).rx_from_client.data@,
                    old(self).rx_from_client.pos as int,
                ) matches Some((m, _)) && m == WORKER_MAGIC_1);
                magic_ok ==> match dec_u64(old(self).rx_from_client.data@, p) {
                    Option::None => res == Ok::<bool, Error>(false) && final(self).rx_from_client.pos == p,
                    Option::Some((v, p1)) => if v < PROTOCOL_VERSION {
                        res == Err::<bool, Error>(Error::OldVersion(v))
                    } else {
                        match dec_u64(old(self).rx_from_client.data@, p1) {
                            Option::None => res == Ok::<bool, Error>(false),
                            Option::Some((_, p2)) => match dec_u64(
                                old(self).rx_from_client.data@,
                                p2,
                            ) {
                                Option::None => res == Ok::<bool, Error>(false),
                                Option::Some((_, p3)) => res == Ok::<bool, Error>(true) && final(self).rx_from_client.pos == p3,
                            },
                        }
                    },
                }
            }),
            res matches Err(e) ==> ((e matches Error::BadMagic(m) && old(self).state
                == ProxyState::Greeting) || (e matches Error::OldVersion(v) && v
                < PROTOCOL_VERSION)),
    {
        let ghost tx0 = self.tx_to_client.out@;
        if match self.state {
            ProxyState::Greeting => true,
            _ => false,
        } {
            let magic = match self.rx_from_client.read_u64() {
                Ok(m) => m,
                Err(_) => {
                    return Ok(false);
                },
            };
            if magic != WORKER_MAGIC_1 {
                return Err(Error::BadMagic(magic));
            }
            self.tx_to_client.write_u64(WORKER_MAGIC_2);
            self.tx_to_client.write_u64(PROTOCOL_VERSION);
            self.tx_to_client.write_byte_buf(self.self_id.as_slice());
            let last = Msg::Last;
            last.encode(&mut self.tx_to_client);
            self.state = ProxyState::VersionWait;
            proof {
                assert(self.tx_to_client.out@ =~= tx0 + (server_hello() + server_welcome(
                    self.self_id@,
                )));
            }
        }
        let ghost tx1 = self.tx_to_client.out@;
        let start = self.rx_from_client.pos;
        let client_version = match self.rx_from_client.read_u64() {
            Ok(v) => v,
            Err(_) => {
                self.rx_from_client.pos = start;
                proof {
                    assert(tx1 + Seq::<u8>::empty() =~= tx1);
                }
                return Ok(false);
            },
        };
        if client_version < PROTOCOL_VERSION {
            return Err(Error::OldVersion(client_version));
        }
        let obsolete_ok = match self.rx_from_client.read_u64() {
            Ok(_) => match self.rx_from_client.read_u64() {
                Ok(_) => true,
                Err(_) => false,
            },
            Err(_) => false,
        };
        if !obsolete_ok {
            self.rx_from_client.pos = start;
            proof {
                assert(tx1 + Seq::<u8>::empty() =~= tx1);
            }
            return Ok(false);
        }
        self.state = ProxyState::Idle;
        Ok(true)
    }

    /// Read the next worker operation from the client, including any
    /// framed payload that follows it. On failure nothing is consumed;
    /// a Truncated error at the start of an operation is the clean way
    /// to see the end of the session.
    pub fn receive_next_op_from_client(&mut self) -> (res: Result<WorkerOp, Error>)
        requires
            old(self).wf(),
            old(self).state == ProxyState::Idle,
        ensures
            final(self).wf(),
            final(self).state == ProxyState::Idle,
            final(self).self_id == old(self).self_id,
            final(self).rx_from_client.data == old(self).rx_from_client.data,
            final(self).tx_to_client == old(self).tx_to_client,
            match res {
                Ok(op) => {
                    &&& crate::worker_op::op_wf(op)
                    &&& old(self).rx_from_client.pos <= final(self).rx_from_client.pos
                    &&& final(self).rx_op_count as int == (if old(self).rx_op_count < u64::MAX {
                        old(self).rx_op_count as int + 1
                    } else {
                        old(self).rx_op_count as int
                    })
                    &&& crate::worker_op::op_exact(op) ==> old(self).rx_from_client.data@.subrange(
                        old(self).rx_from_client.pos as int,
                        final(self).rx_from_client.pos as int,
                    ) == crate::worker_op::enc_op(op) + crate::worker_op::op_framed_enc(op)
                },
                Err(_) => {
                    // nothing consumed, and no complete operation (with
                    // its framed payload, where one follows) stands at
                    // the cursor
                    &&& *final(self) == *old(self)
                    &&& {
                        ||| crate::worker_op::rec_op(
                            old(self).rx_from_client.data@,
                            old(self).rx_from_client.pos as int,
                        ) is None
                        ||| (dec_u64(
                            old(self).rx_from_client.data@,
                            old(self).rx_from_client.pos as int,
                        ) matches Some((t, _)) && crate::worker_op::tag_streams(t)
                            && crate::framed_data::dec_framed(
                            old(self).rx_from_client.data@,
                            crate::worker_op::rec_op(
                                old(self).rx_from_client.data@,
                                old(self).rx_from_client.pos as int,
                            )->Some_0,
                        ) is None)
                    }
                },
            },
            dec_u64(old(self).rx_from_client.data@, old(self).rx_from_client.pos as int) is None
                ==> res == Err::<WorkerOp, Error>(Error::Truncated),
            dec_u64(old(self).rx_from_client.data@, old(self).rx_from_client.pos as int) matches
                Some((t, _)) ==> (crate::worker_op::known_op(t) || res == Err::<WorkerOp, Error>(
                Error::UnknownTag(t),
            )),
            // reading what write wrote succeeds
            forall|o: WorkerOp|
                (#[trigger] crate::serialize::enc_at(
                    old(self).rx_from_client.data@,
                    old(self).rx_from_client.pos as int,
                    crate::worker_op::enc_op(o),
                ) && !crate::worker_op::op_streams(o)) ==> {
                    &&& res is Ok
                    &&& final(self).rx_from_client.pos == old(self).rx_from_client.pos
                        + crate::worker_op::enc_op(o).len()
                    &&& (crate::worker_op::op_exact(o) ==> (res matches Ok(op2)
                        && crate::worker_op::enc_op(op2) == crate::worker_op::enc_op(o)))
                },
    {
        let start = self.rx_from_client.pos;
        let res = WorkerOp::read(&mut self.rx_from_client);
        match res {
            Ok(_) => {
                if self.rx_op_count < u64::MAX {
                    self.rx_op_count = self.rx_op_count + 1;
                }
            },
            Err(_) => {
                self.rx_from_client.pos = start;
            },
        }
        res
    }

    /// Read a framed-stream length word from the client.
    pub fn streaming_length(&mut self) -> (res: Result<u64, Error>)
        requires
            old(self).wf(),
        ensures
            final(self).wf(),
            final(self).rx_from_client.data == old(self).rx_from_client.data,
            final(self).tx_to_client == old(self).tx_to_client,
            final(self).state == old(self).state,
            final(self).self_id == old(self).self_id,
            final(self).rx_op_count == old(self).rx_op_count,
            match res {
                Ok(n) => dec_u64(
                    old(self).rx_from_client.data@,
                    old(self).rx_from_client.pos as int,
                ) == Some((n, final(self).rx_from_client.pos as int)),
                Err(e) => {
                    &&& dec_u64(
                        old(self).rx_from_client.data@,
                        old(self).rx_from_client.pos as int,
                    ) is None
                    &&& e == Error::Truncated
                    &&& *final(self) == *old(self)
                },
            },
    {
        self.rx_from_client.read_u64()
    }

    /// Copy the next chunk_len raw bytes from the client into buff.
    pub fn get_stream(&mut self, chunk_len: usize, buff: &mut Vec<u8>) -> (res: Result<(), Error>)
        requires
            old(self).wf(),
        ensures
            final(self).wf(),
            final(self).rx_from_client.data == old(self).rx_from_client.data,
            final(self).tx_to_client == old(self).tx_to_client,
            final(self).state == old(self).state,
            final(self).self_id == old(self).self_id,
            final(self).rx_op_count == old(self).rx_op_count,
            match res {
                Ok(_) => {
                    &&& old(self).rx_from_client.pos + chunk_len <= old(
                        self,
                    ).rx_from_client.data@.len()
                    &&& final(self).rx_from_client.pos == old(self).rx_from_client.pos + chunk_len
                    &&& final(buff)@ == old(self).rx_from_client.data@.subrange(
                        old(self).rx_from_client.pos as int,
                        final(self).rx_from_client.pos as int,
                    )
                },
                Err(e) => {
                    &&& e == Error::Truncated
                    &&& old(self).rx_from_client.pos + chunk_len > old(
                        self,
                    ).rx_from_client.data@.len()
                    &&& *final(self) == *old(self)
                },
            },
    {
        if self.rx_from_client.data.len() - self.rx_from_client.pos < chunk_len {
            return Err(Error::Truncated);
        }
        let mut out: Vec<u8> = Vec::new();
        let start = self.rx_from_client.pos;
        let avail = self.rx_from_client.data.len();
        let mut i: usize = 0;
        while i < chunk_len
            invariant
                self.rx_from_client.pos == start,
                self.rx_from_client.data == old(self).rx_from_client.data,
                self.tx_to_client == old(self).tx_to_client,
                self.state == old(self).state,
                self.self_id == old(self).self_id,
                self.rx_op_count == old(self).rx_op_count,
                start + chunk_len <= avail,
                avail == self.rx_from_client.data@.len(),
                i <= chunk_len,
                out@ == self.rx_from_client.data@.subrange(start as int, start as int + i as int),
            decreases chunk_len - i,
        {
            let b = self.rx_from_client.data[start + i];
            out.push(b);
            i = i + 1;
            proof {
                assert(out@ =~= self.rx_from_client.data@.subrange(
                    start as int,
                    start as int + i as int,
                ));
            }
        }
        self.rx_from_client.pos = start + chunk_len;
        *buff = out;
        Ok(())
    }

    /// Write one stderr message to the client.
    pub fn send_error_to_client(&mut self, error_msg: &Msg) -> (res: Result<(), Error>)
        requires
            old(self).wf(),
        ensures
            final(self).wf(),
            res is Ok,
            final(self).tx_to_client.out@ == old(self).tx_to_client.out@ + error_msg.enc(),
            final(self).rx_from_client == old(self).rx_from_client,
            final(self).state == old(self).state,
            final(self).self_id == old(self).self_id,
            final(self).rx_op_count == old(self).rx_op_count,
    {
        error_msg.encode(&mut self.tx_to_client);
        Ok(())
    }

    /// The output buffer, for writing a response directly.
    pub fn writer(&mut self) -> (w: &mut NixSerializer)
        ensures
            *w == old(self).tx_to_client,
            *final(self) == (NixDaemonProxy { tx_to_client: *final(w), ..*old(self) }),
    {
        &mut self.tx_to_client
    }
}

} // verus!
