//! The proxy driver: one client-facing session glued to one
//! daemon-facing session.
//!
//! The driver owns the session sequencing: both handshakes, then for
//! each operation the request, its framed payload if it has one, the
//! daemon's stderr stream up to `Last`, and the typed response — or,
//! for NarFromPath, the NAR stream. Every byte it emits on one side is
//! a byte it consumed on the other, forwarded verbatim: requests and
//! payloads are teed to the daemon exactly as the client sent them,
//! and stderr messages and responses are teed to the client exactly as
//! the daemon sent them. A stderr stream that carried an `Error`
//! message announces that no response follows: its `Last` closes the
//! operation out and the driver skips the response phase. A session
//! standing between operations has answered every operation it
//! accepted — one response each, after one Last-terminated stderr
//! stream — except those closed out by such an `Error`.
//!
//! The application runs the loop: it calls [`NixProxy::step`], feeds
//! in bytes from whichever side the driver asks for, and sends out
//! whatever the transmit buffers hold.

use crate::nix_client::{ClientState, NixDaemonClient};
use crate::nix_daemon_proxy::{NixDaemonProxy, ProxyState};
use crate::serialize::{copy_range, Error, Wire};
use crate::stderr::Msg;
use crate::worker_op::{StreamingRecv, WorkerOp};
use vstd::prelude::*;

verus! {

/// Where the session stands.
#[derive(Debug)]
pub enum Phase {
    /// Shaking hands with the client.
    FrontHandshake,
    /// Shaking hands with the daemon.
    BackHandshake,
    /// Between operations, waiting for the client's next opcode.
    Idle,
    /// Forwarding the current operation's framed payload to the daemon,
    /// a bounded chunk at a time.
    Streaming,
    /// Forwarding the daemon's stderr stream for the current operation.
    Draining,
    /// Forwarding the current operation's response.
    Responding,
    /// The session ended on an error.
    Closed,
}

/// What one step of the driver came to.
#[derive(Debug, Clone, Copy, PartialEq, Eq, Structural)]
pub enum StepResult {
    /// Something was consumed or produced; step again.
    Progress,
    /// More bytes from the client are needed.
    NeedFrontInput,
    /// More bytes from the daemon are needed.
    NeedBackInput,
}

/// A whole proxied connection: the two sessions and the phase.
pub struct NixProxy {
    pub front: NixDaemonProxy,
    pub back: NixDaemonClient,
    pub phase: Phase,
    pub pending: Option<WorkerOp>,
    /// Bytes left of the current frame while a payload is streaming;
    /// zero at a frame boundary, where a length word comes next.
    pub stream_remaining: u64,
    /// Whether the current operation's stderr stream has carried an
    /// `Error` message; such a stream's `Last` ends the operation with
    /// no response to follow.
    pub stderr_error: bool,
    pub ops_started: u64,
    pub responses_done: u64,
    /// Operations closed out by a stderr `Error`, with no response.
    pub ops_skipped: u64,
}

impl NixProxy {
    /// The driver invariant. In particular: a response is pending
    /// exactly while an operation is in flight, so a session standing
    /// between operations has answered — or, on a stderr `Error`,
    /// skipped — every operation it accepted.
    pub open spec fn wf(self) -> bool {
        &&& self.front.wf()
        &&& self.back.wf()
        &&& (self.phase is FrontHandshake ==> self.front.state != ProxyState::Idle)
        &&& (self.phase is FrontHandshake ==> self.back.state == ClientState::Hello)
        &&& (self.phase is BackHandshake || self.phase is Idle || self.phase is Streaming
            || self.phase is Draining || self.phase is Responding) ==> self.front.state
            == ProxyState::Idle
        &&& (self.phase is BackHandshake ==> self.back.state != ClientState::Ready)
        &&& (self.phase is Idle || self.phase is Streaming || self.phase is Draining
            || self.phase is Responding) ==> self.back.state == ClientState::Ready
        &&& (self.phase is Streaming || self.phase is Draining || self.phase is Responding)
            ==> self.pending is Some
        &&& (self.phase is Responding ==> !self.stderr_error)
        &&& ((self.phase is FrontHandshake || self.phase is BackHandshake || self.phase is Idle)
            ==> self.pending is None && self.ops_started == self.responses_done
            + self.ops_skipped)
        &&& ((self.phase is Streaming || self.phase is Draining || self.phase is Responding)
            ==> self.ops_started == self.responses_done + self.ops_skipped + 1)
    }

    /// A fresh connection, before either handshake.
    pub fn new(self_id: Vec<u8>) -> (r: Self)
        ensures
            r.wf(),
            r.phase is FrontHandshake,
            r.ops_started == 0,
            r.responses_done == 0,
            r.ops_skipped == 0,
    {
        NixProxy {
            front: NixDaemonProxy::new(self_id),
            back: NixDaemonClient::new(),
            phase: Phase::FrontHandshake,
            pending: None,
            stream_remaining: 0,
            stderr_error: false,
            ops_started: 0,
            responses_done: 0,
            ops_skipped: 0,
        }
    }

    /// Drive the session one step: finish a handshake phase, accept
    /// one operation and forward it, forward one stderr message, or
    /// forward one response. Bytes only ever move across, verbatim.
    /// Asking for more input happens only when the buffered input
    /// really is short, and changes nothing. An error other than
    /// wanting more input closes the session.
    #[verifier::spinoff_prover]
    #[verifier::rlimit(100)]
    pub fn step(&mut self) -> (res: Result<StepResult, Error>)
        requires
            old(self).wf(),
            !(old(self).phase is Closed),
        ensures
            final(self).wf(),
            final(self).front.rx_from_client.data == old(self).front.rx_from_client.data,
            final(self).back.rx_from_daemon.data == old(self).back.rx_from_daemon.data,
            // an operation is accepted only in Idle, and its bytes —
            // its framed payload chunk by chunk after it — are teed to
            // the daemon exactly as the client sent them
            (old(self).phase is Idle || old(self).phase is Streaming) && res == Ok::<
                StepResult,
                Error,
            >(StepResult::Progress) ==> {
                &&& old(self).front.rx_from_client.pos <= final(self).front.rx_from_client.pos
                &&& final(self).back.tx_to_daemon.out@ == old(self).back.tx_to_daemon.out@ + old(
                    self,
                ).front.rx_from_client.data@.subrange(
                    old(self).front.rx_from_client.pos as int,
                    final(self).front.rx_from_client.pos as int,
                )
                &&& final(self).front.tx_to_client == old(self).front.tx_to_client
            },
            old(self).phase is Idle && res == Ok::<StepResult, Error>(StepResult::Progress) ==> {
                &&& final(self).ops_started == old(self).ops_started + 1
                &&& (final(self).phase is Draining || final(self).phase is Streaming)
                &&& !final(self).stderr_error
            },
            // the streaming phase asks for input only with nothing
            // usable buffered, and changes nothing when it does
            res == Ok::<StepResult, Error>(StepResult::NeedFrontInput) && old(self).phase
                is Streaming ==> *final(self) == *old(self) && (if old(self).stream_remaining == 0 {
                crate::serialize::dec_u64(
                    old(self).front.rx_from_client.data@,
                    old(self).front.rx_from_client.pos as int,
                ) is None
            } else {
                old(self).front.rx_from_client.pos == old(self).front.rx_from_client.data@.len()
            }),
            // stderr messages and responses move to the client exactly
            // as the daemon sent them
            (old(self).phase is Draining || old(self).phase is Responding) && res == Ok::<
                StepResult,
                Error,
            >(StepResult::Progress) ==> {
                &&& old(self).back.rx_from_daemon.pos <= final(self).back.rx_from_daemon.pos
                &&& final(self).front.tx_to_client.out@ == old(self).front.tx_to_client.out@ + old(
                    self,
                ).back.rx_from_daemon.data@.subrange(
                    old(self).back.rx_from_daemon.pos as int,
                    final(self).back.rx_from_daemon.pos as int,
                )
                &&& final(self).back.tx_to_daemon == old(self).back.tx_to_daemon
            },
            // a drained stderr stream either goes on, reaches the
            // response on its Last, or — after carrying an Error —
            // closes the operation out with no response to follow
            old(self).phase is Draining && res == Ok::<StepResult, Error>(StepResult::Progress)
                ==> {
                &&& final(self).responses_done == old(self).responses_done
                &&& final(self).ops_started == old(self).ops_started
                &&& (final(self).phase is Draining || final(self).phase is Responding || final(self).phase is Idle)
                &&& (final(self).phase is Responding ==> !final(self).stderr_error && final(self).ops_skipped == old(self).ops_skipped)
                &&& (final(self).phase is Idle ==> final(self).stderr_error && final(self).ops_skipped as int == old(self).ops_skipped as int + 1 && final(self).pending
                    is None)
            },
            // completing a response closes out exactly one operation
            old(self).phase is Responding && res == Ok::<StepResult, Error>(StepResult::Progress)
                ==> {
                &&& final(self).responses_done == old(self).responses_done + 1
                &&& final(self).ops_skipped == old(self).ops_skipped
                &&& final(self).phase is Idle
            },
            // asking for more input changes nothing, and happens only
            // when the buffered input really is short
            // neither handshake stalls with its words buffered
            res == Ok::<StepResult, Error>(StepResult::NeedFrontInput) && old(self).phase
                is FrontHandshake ==> final(self).phase is FrontHandshake
                && crate::nix_daemon_proxy::handshake_blocked(old(self).front),
            res == Ok::<StepResult, Error>(StepResult::NeedBackInput) && old(self).phase
                is BackHandshake ==> {
                &&& final(self).phase is BackHandshake
                &&& (final(self).back.state == ClientState::Draining ==> <Msg as Wire>::rec(
                    old(self).back.rx_from_daemon.data@,
                    final(self).back.rx_from_daemon.pos as int,
                ) is None)
                &&& (final(self).back.state == ClientState::AwaitId
                    ==> crate::serialize::dec_bytes(
                    old(self).back.rx_from_daemon.data@,
                    final(self).back.rx_from_daemon.pos as int,
                ) is None)
                &&& (final(self).back.state.rank() <= 1 ==> match crate::serialize::dec_u64(
                    old(self).back.rx_from_daemon.data@,
                    old(self).back.rx_from_daemon.pos as int,
                ) {
                    Option::None => true,
                    Option::Some((m, p1)) => m == crate::WORKER_MAGIC_2
                        && crate::serialize::dec_u64(old(self).back.rx_from_daemon.data@, p1)
                        is None,
                })
            },
            res == Ok::<StepResult, Error>(StepResult::NeedFrontInput) && old(self).phase is Idle
                ==> *final(self) == *old(self) && crate::worker_op::rec_op(
                old(self).front.rx_from_client.data@,
                old(self).front.rx_from_client.pos as int,
            ) is None,
            res == Ok::<StepResult, Error>(StepResult::NeedBackInput) && old(self).phase
                is Draining ==> *final(self) == *old(self) && <Msg as Wire>::rec(
                old(self).back.rx_from_daemon.data@,
                old(self).back.rx_from_daemon.pos as int,
            ) is None,
            res == Ok::<StepResult, Error>(StepResult::NeedBackInput) && old(self).phase
                is Responding ==> *final(self) == *old(self) && (old(self).pending matches Some(op)
                && op.resp_complete(
                old(self).back.rx_from_daemon.data@,
                old(self).back.rx_from_daemon.pos as int,
                0,
                false,
            )),
            res is Err ==> final(self).phase is Closed,
    {
        match self.phase {
            Phase::FrontHandshake => {
                let done = match self.front.handshake_with_client() {
                    Ok(d) => d,
                    Err(e) => {
                        self.phase = Phase::Closed;
                        return Err(e);
                    },
                };
                if done {
                    self.phase = Phase::BackHandshake;
                    Ok(StepResult::Progress)
                } else {
                    Ok(StepResult::NeedFrontInput)
                }
            },
            Phase::BackHandshake => {
                let done = match self.back.handshake_with_daemon() {
                    Ok(d) => d,
                    Err(e) => {
                        self.phase = Phase::Closed;
                        return Err(e);
                    },
                };
                if done {
                    self.phase = Phase::Idle;
                    Ok(StepResult::Progress)
                } else {
                    Ok(StepResult::NeedBackInput)
                }
            },
            Phase::Idle => {
                let start = self.front.rx_from_client.pos;
                let op = match WorkerOp::decode_op(&mut self.front.rx_from_client) {
                    Ok(op) => op,
                    Err(e) => {
                        self.front.rx_from_client.pos = start;
                        if match e {
                            Error::Truncated => true,
                            _ => false,
                        } {
                            return Ok(StepResult::NeedFrontInput);
                        }
                        self.phase = Phase::Closed;
                        return Err(e);
                    },
                };
                if self.ops_started == u64::MAX {
                    self.phase = Phase::Closed;
                    return Err(Error::Truncated);
                }
                // tee the opcode and request to the daemon exactly as
                // received; a framed payload follows chunk by chunk
                copy_range(&self.front.rx_from_client, &mut self.back.tx_to_daemon, start);
                let streams = op.requires_streaming();
                self.pending = Some(op);
                self.stderr_error = false;
                self.stream_remaining = 0;
                self.ops_started = self.ops_started + 1;
                if streams {
                    self.phase = Phase::Streaming;
                } else {
                    self.phase = Phase::Draining;
                }
                Ok(StepResult::Progress)
            },
            Phase::Streaming => {
                if self.stream_remaining == 0 {
                    // at a frame boundary: forward the next length word
                    let len = match self.front.streaming_length() {
                        Ok(n) => n,
                        Err(_) => {
                            return Ok(StepResult::NeedFrontInput);
                        },
                    };
                    match self.back.streaming_write_len(len) {
                        Ok(_) => {},
                        Err(e) => {
                            self.phase = Phase::Closed;
                            return Err(e);
                        },
                    }
                    proof {
                        crate::serialize::lemma_dec_u64_sound(
                            old(self).front.rx_from_client.data@,
                            old(self).front.rx_from_client.pos as int,
                        );
                        crate::serialize::lemma_le_bytes_len(len as nat, 8);
                        assert(old(self).front.rx_from_client.data@.subrange(
                            old(self).front.rx_from_client.pos as int,
                            self.front.rx_from_client.pos as int,
                        ) == crate::serialize::u64_le(len));
                        assert(self.back.tx_to_daemon.out@ == old(self).back.tx_to_daemon.out@
                            + crate::serialize::u64_le(len));
                    }
                    if len == 0 {
                        // the zero frame ends the payload
                        self.phase = Phase::Draining;
                    } else {
                        self.stream_remaining = len;
                    }
                    Ok(StepResult::Progress)
                } else {
                    // inside a frame: copy a bounded chunk across
                    let avail = self.front.rx_from_client.data.len()
                        - self.front.rx_from_client.pos;
                    if avail == 0 {
                        return Ok(StepResult::NeedFrontInput);
                    }
                    let cap: usize = if self.stream_remaining > 4096 {
                        4096
                    } else {
                        self.stream_remaining as usize
                    };
                    let chunk_len: usize = if avail < cap {
                        avail
                    } else {
                        cap
                    };
                    let mut buf: Vec<u8> = Vec::new();
                    match self.front.get_stream(chunk_len, &mut buf) {
                        Ok(_) => {},
                        Err(e) => {
                            self.phase = Phase::Closed;
                            return Err(e);
                        },
                    }
                    match self.back.streaming_write_buff(buf.as_slice(), chunk_len) {
                        Ok(_) => {},
                        Err(e) => {
                            self.phase = Phase::Closed;
                            return Err(e);
                        },
                    }
                    proof {
                        assert(buf@.subrange(0, chunk_len as int) =~= buf@);
                        assert(self.back.tx_to_daemon.out@ == old(self).back.tx_to_daemon.out@
                            + old(self).front.rx_from_client.data@.subrange(
                            old(self).front.rx_from_client.pos as int,
                            self.front.rx_from_client.pos as int,
                        ));
                    }
                    self.stream_remaining = self.stream_remaining - chunk_len as u64;
                    Ok(StepResult::Progress)
                }
            },
            Phase::Draining => {
                let start = self.back.rx_from_daemon.pos;
                let msg = match self.back.read_error_msg() {
                    Ok(m) => m,
                    Err(e) => {
                        if match e {
                            Error::Truncated => true,
                            _ => false,
                        } {
                            self.back.rx_from_daemon.pos = start;
                            return Ok(StepResult::NeedBackInput);
                        }
                        self.phase = Phase::Closed;
                        return Err(e);
                    },
                };
                match self.front.send_error_to_client(&msg) {
                    Ok(_) => {},
                    Err(e) => {
                        self.phase = Phase::Closed;
                        return Err(e);
                    },
                }
                if match msg {
                    Msg::Error(_) => true,
                    _ => false,
                } {
                    self.stderr_error = true;
                }
                if msg.is_last() {
                    if self.stderr_error {
                        // the daemon reported a failure: no response
                        // follows this stream
                        if self.ops_skipped == u64::MAX {
                            self.phase = Phase::Closed;
                            return Err(Error::Truncated);
                        }
                        self.ops_skipped = self.ops_skipped + 1;
                        self.pending = None;
                        self.phase = Phase::Idle;
                    } else {
                        self.phase = Phase::Responding;
                    }
                }
                Ok(StepResult::Progress)
            },
            Phase::Responding => {
                let start = self.back.rx_from_daemon.pos;
                let mut taken: Option<WorkerOp> = None;
                core::mem::swap(&mut taken, &mut self.pending);
                let op = match taken {
                    Some(op) => op,
                    None => {
                        self.phase = Phase::Closed;
                        return Err(Error::Truncated);
                    },
                };
                let outcome = op.proxy_response(
                    &mut self.back.rx_from_daemon,
                    &mut self.front.tx_to_client,
                );
                match outcome {
                    Ok(_) => {
                        if self.responses_done == u64::MAX {
                            self.phase = Phase::Closed;
                            return Err(Error::Truncated);
                        }
                        self.responses_done = self.responses_done + 1;
                        self.pending = None;
                        self.phase = Phase::Idle;
                        Ok(StepResult::Progress)
                    },
                    Err(e) => {
                        if match e {
                            Error::Truncated => true,
                            _ => false,
                        } {
                            self.back.rx_from_daemon.pos = start;
                            self.pending = Some(op);
                            return Ok(StepResult::NeedBackInput);
                        }
                        self.phase = Phase::Closed;
                        Err(e)
                    },
                }
            },
            Phase::Closed => {
                self.phase = Phase::Closed;
                Err(Error::Truncated)
            },
        }
    }
}

} // verus!
