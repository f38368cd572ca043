//! Whole-session scenarios driven through the proxy.

use nix_remote::proxy::{NixProxy, StepResult};
use nix_remote::serialize::Error;
use nix_remote::{PROTOCOL_VERSION, WORKER_MAGIC_1, WORKER_MAGIC_2};

const STDERR_LAST: u64 = 0x616c7473;
const STDERR_ERROR: u64 = 0x63787470;

fn put_u64(out: &mut Vec<u8>, n: u64) {
    out.extend_from_slice(&n.to_le_bytes());
}

fn put_str(out: &mut Vec<u8>, s: &[u8]) {
    put_u64(out, s.len() as u64);
    out.extend_from_slice(s);
    if s.len() % 8 != 0 {
        for _ in 0..(8 - s.len() % 8) {
            out.push(0);
        }
    }
}

/// What the client sends to complete the handshake.
fn client_hello() -> Vec<u8> {
    let mut v = Vec::new();
    put_u64(&mut v, WORKER_MAGIC_1);
    put_u64(&mut v, PROTOCOL_VERSION);
    put_u64(&mut v, 0);
    put_u64(&mut v, 0);
    v
}

/// What the daemon sends to complete the handshake: its magic, its
/// version, its identification, and an empty stderr stream.
fn daemon_hello() -> Vec<u8> {
    let mut v = Vec::new();
    put_u64(&mut v, WORKER_MAGIC_2);
    put_u64(&mut v, PROTOCOL_VERSION);
    put_str(&mut v, b"nix-daemon 2.18");
    put_u64(&mut v, STDERR_LAST);
    v
}

/// Step the driver until it waits for input or closes; panics on a
/// session error other than the expected ones.
fn run_until_wait(p: &mut NixProxy) -> Result<StepResult, Error> {
    loop {
        match p.step() {
            Ok(StepResult::Progress) => continue,
            other => return other,
        }
    }
}

/// Run both handshakes to completion.
fn handshaken() -> NixProxy {
    let mut p = NixProxy::new(b"rust-nix-proxy-test".to_vec());
    p.front.feed_from_client(&client_hello());
    assert_eq!(run_until_wait(&mut p), Ok(StepResult::NeedBackInput));
    p.back.feed_from_daemon(&daemon_hello());
    assert_eq!(run_until_wait(&mut p), Ok(StepResult::NeedFrontInput));
    p
}

#[test]
fn handshake_only() {
    // the client sends its magic word and nothing else
    let mut p = NixProxy::new(b"rust-nix-proxy-test".to_vec());
    let mut magic = Vec::new();
    put_u64(&mut magic, WORKER_MAGIC_1);
    p.front.feed_from_client(&magic);
    assert_eq!(run_until_wait(&mut p), Ok(StepResult::NeedFrontInput));

    // the server answers at once with its magic, its version, a
    // nonempty identification string, and a single stderr Last
    let written = p.front.flush_tx_to_client();
    let mut expected = Vec::new();
    put_u64(&mut expected, WORKER_MAGIC_2);
    put_u64(&mut expected, 0x122);
    put_str(&mut expected, b"rust-nix-proxy-test");
    put_u64(&mut expected, STDERR_LAST);
    assert_eq!(written, expected);
}

#[test]
fn old_client_version_is_rejected() {
    let mut p = NixProxy::new(b"rust-nix-proxy-test".to_vec());
    let mut hello = Vec::new();
    put_u64(&mut hello, WORKER_MAGIC_1);
    put_u64(&mut hello, 0x100);
    put_u64(&mut hello, 0);
    put_u64(&mut hello, 0);
    p.front.feed_from_client(&hello);
    assert_eq!(run_until_wait(&mut p), Err(Error::OldVersion(0x100)));
}

#[test]
fn bad_magic_is_rejected() {
    let mut p = NixProxy::new(b"rust-nix-proxy-test".to_vec());
    let mut hello = Vec::new();
    put_u64(&mut hello, 0x1234);
    p.front.feed_from_client(&hello);
    assert_eq!(run_until_wait(&mut p), Err(Error::BadMagic(0x1234)));
}

#[test]
fn is_valid_path_round() {
    let mut p = handshaken();
    p.front.flush_tx_to_client();
    p.back.flush();

    // the client asks IsValidPath for the seed store path
    let mut req = Vec::new();
    put_u64(&mut req, 1);
    put_str(&mut req, b"/nix/store/g1w7hy3qg1w7hy3qg1w7hy3qg1w7hy3q-foo");
    p.front.feed_from_client(&req);
    assert_eq!(run_until_wait(&mut p), Ok(StepResult::NeedBackInput));

    // the whole request went to the daemon unchanged
    assert_eq!(p.back.flush(), req);

    // the daemon answers with an empty stderr stream and `true`
    let mut reply = Vec::new();
    put_u64(&mut reply, STDERR_LAST);
    put_u64(&mut reply, 1);
    p.back.feed_from_daemon(&reply);
    assert_eq!(run_until_wait(&mut p), Ok(StepResult::NeedFrontInput));

    // both were forwarded to the client unchanged
    assert_eq!(p.front.flush_tx_to_client(), reply);
    assert_eq!(p.responses_done, 1);
}

#[test]
fn add_to_store_payload_is_forwarded_byte_exact() {
    let mut p = handshaken();
    p.front.flush_tx_to_client();
    p.back.flush();

    // opcode 7, the request record, then a framed stream of ten
    // 1 MiB chunks and the zero terminator
    let mut req = Vec::new();
    put_u64(&mut req, 7);
    put_str(&mut req, b"foo");
    put_str(&mut req, b"fixed:r:sha256");
    put_u64(&mut req, 0);  // no references
    put_u64(&mut req, 0);  // repair = false
    let framed_start = req.len();
    let chunk = vec![0xabu8; 1 << 20];
    for _ in 0..10 {
        put_u64(&mut req, chunk.len() as u64);
        req.extend_from_slice(&chunk);
    }
    put_u64(&mut req, 0);
    p.front.feed_from_client(&req);
    assert_eq!(run_until_wait(&mut p), Ok(StepResult::NeedBackInput));

    // the framed region reached the daemon byte for byte
    let sent = p.back.flush();
    assert_eq!(sent.len(), req.len());
    assert_eq!(&sent[framed_start..], &req[framed_start..]);
    assert_eq!(sent, req);
}

#[test]
fn nar_from_path_response_is_streamed() {
    let mut p = handshaken();
    p.front.flush_tx_to_client();
    p.back.flush();

    let mut req = Vec::new();
    put_u64(&mut req, 38);
    put_str(&mut req, b"/nix/store/g1w7hy3qg1w7hy3qg1w7hy3qg1w7hy3q-foo");
    p.front.feed_from_client(&req);
    assert_eq!(run_until_wait(&mut p), Ok(StepResult::NeedBackInput));
    assert_eq!(p.back.flush(), req);

    // the daemon answers with an empty stderr stream, then the archive
    let mut nar = Vec::new();
    put_str(&mut nar, b"nix-archive-1");
    put_str(&mut nar, b"(");
    put_str(&mut nar, b"type");
    put_str(&mut nar, b"directory");
    put_str(&mut nar, b"entry");
    put_str(&mut nar, b"(");
    put_str(&mut nar, b"name");
    put_str(&mut nar, b"run");
    put_str(&mut nar, b"node");
    put_str(&mut nar, b"(");
    put_str(&mut nar, b"type");
    put_str(&mut nar, b"regular");
    put_str(&mut nar, b"executable");
    put_str(&mut nar, b"");
    put_str(&mut nar, b"contents");
    put_str(&mut nar, b"hello");
    put_str(&mut nar, b")");
    put_str(&mut nar, b")");
    put_str(&mut nar, b")");

    let mut reply = Vec::new();
    put_u64(&mut reply, STDERR_LAST);
    reply.extend_from_slice(&nar);
    p.back.feed_from_daemon(&reply);
    assert_eq!(run_until_wait(&mut p), Ok(StepResult::NeedFrontInput));

    // the exact bytes of the NAR follow the forwarded Last
    let forwarded = p.front.flush_tx_to_client();
    assert_eq!(forwarded, reply);
    // end detection happened exactly at the final token
    assert_eq!(p.back.rx_from_daemon.pos, p.back.rx_from_daemon.data.len());
    assert_eq!(p.responses_done, 1);
}

#[test]
fn unknown_opcode_ends_the_session() {
    let mut p = handshaken();
    p.front.flush_tx_to_client();
    p.back.flush();

    let mut req = Vec::new();
    put_u64(&mut req, 0xFFFF_FFFF_FFFF_FFFF);
    p.front.feed_from_client(&req);
    assert_eq!(
        run_until_wait(&mut p),
        Err(Error::UnknownTag(0xFFFF_FFFF_FFFF_FFFF))
    );
    // no response bytes were written after the error
    assert_eq!(p.front.flush_tx_to_client(), Vec::<u8>::new());
    assert_eq!(p.back.flush(), Vec::<u8>::new());
}

#[test]
fn stderr_error_is_passed_through() {
    let mut p = handshaken();
    p.front.flush_tx_to_client();
    p.back.flush();

    let mut req = Vec::new();
    put_u64(&mut req, 1);
    put_str(&mut req, b"/nix/store/g1w7hy3qg1w7hy3qg1w7hy3qg1w7hy3q-foo");
    p.front.feed_from_client(&req);
    assert_eq!(run_until_wait(&mut p), Ok(StepResult::NeedBackInput));
    p.back.flush();

    // the daemon reports a build failure, then closes its stream
    let mut reply = Vec::new();
    put_u64(&mut reply, STDERR_ERROR);
    put_str(&mut reply, b"Error");  // typ
    put_u64(&mut reply, 0);  // level
    put_str(&mut reply, b"build-failed");  // name
    put_str(&mut reply, b"nope");  // message
    put_u64(&mut reply, 0);  // have_pos
    put_u64(&mut reply, 0);  // no traces
    put_u64(&mut reply, STDERR_LAST);
    p.back.feed_from_daemon(&reply);
    // both messages are forwarded in order; no response follows an
    // Error-carrying stream, so the operation is closed out and the
    // session goes back to waiting for the client
    assert_eq!(run_until_wait(&mut p), Ok(StepResult::NeedFrontInput));
    assert_eq!(p.front.flush_tx_to_client(), reply);
    assert_eq!(p.responses_done, 0);
    assert_eq!(p.ops_skipped, 1);

    // the session is still usable: the next operation goes through
    let mut req2 = Vec::new();
    put_u64(&mut req2, 1);
    put_str(&mut req2, b"/nix/store/g1w7hy3qg1w7hy3qg1w7hy3qg1w7hy3q-foo");
    p.front.feed_from_client(&req2);
    assert_eq!(run_until_wait(&mut p), Ok(StepResult::NeedBackInput));
    let mut reply2 = Vec::new();
    put_u64(&mut reply2, STDERR_LAST);
    put_u64(&mut reply2, 1);
    p.back.feed_from_daemon(&reply2);
    assert_eq!(run_until_wait(&mut p), Ok(StepResult::NeedFrontInput));
    assert_eq!(p.front.flush_tx_to_client(), reply2);
    assert_eq!(p.responses_done, 1);
}

#[test]
fn nar_response_arriving_in_pieces() {
    // a NAR that has not fully arrived only asks for more input
    let mut p = handshaken();
    p.front.flush_tx_to_client();
    p.back.flush();

    let mut req = Vec::new();
    put_u64(&mut req, 38);
    put_str(&mut req, b"/nix/store/g1w7hy3qg1w7hy3qg1w7hy3qg1w7hy3q-foo");
    p.front.feed_from_client(&req);
    assert_eq!(run_until_wait(&mut p), Ok(StepResult::NeedBackInput));
    p.back.flush();

    let mut nar = Vec::new();
    put_str(&mut nar, b"nix-archive-1");
    put_str(&mut nar, b"(");
    put_str(&mut nar, b"type");
    put_str(&mut nar, b"regular");
    put_str(&mut nar, b"contents");
    put_str(&mut nar, b"hello");
    put_str(&mut nar, b")");

    let mut reply = Vec::new();
    put_u64(&mut reply, STDERR_LAST);
    reply.extend_from_slice(&nar);

    // feed everything but the last byte: the driver keeps waiting
    p.back.feed_from_daemon(&reply[..reply.len() - 1]);
    assert_eq!(run_until_wait(&mut p), Ok(StepResult::NeedBackInput));
    assert_eq!(p.responses_done, 0);
    // the last byte completes the archive
    p.back.feed_from_daemon(&reply[reply.len() - 1..]);
    assert_eq!(run_until_wait(&mut p), Ok(StepResult::NeedFrontInput));
    assert_eq!(p.front.flush_tx_to_client(), reply);
    assert_eq!(p.responses_done, 1);
}

#[test]
fn two_operations_two_responses() {
    // a session that completes two operations writes exactly two
    // responses, each after exactly one Last-terminated stderr stream
    let mut p = handshaken();
    p.front.flush_tx_to_client();
    p.back.flush();

    for round in 0..2u64 {
        let mut req = Vec::new();
        put_u64(&mut req, 1);
        put_str(&mut req, b"/nix/store/g1w7hy3qg1w7hy3qg1w7hy3qg1w7hy3q-foo");
        p.front.feed_from_client(&req);
        assert_eq!(run_until_wait(&mut p), Ok(StepResult::NeedBackInput));
        assert_eq!(p.back.flush(), req);

        let mut reply = Vec::new();
        put_u64(&mut reply, STDERR_LAST);
        put_u64(&mut reply, 1);
        p.back.feed_from_daemon(&reply);
        assert_eq!(run_until_wait(&mut p), Ok(StepResult::NeedFrontInput));
        assert_eq!(p.front.flush_tx_to_client(), reply);
        assert_eq!(p.responses_done, round + 1);
        assert_eq!(p.ops_started, round + 1);
    }
}
