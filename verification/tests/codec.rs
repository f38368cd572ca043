//! Round trips and edge cases of the primitive codec and the worker
//! operation records.

use nix_remote::framed_data::FramedData;
use nix_remote::serialize::{Error, NixDeserializer, NixSerializer, Wire};
use nix_remote::worker_op::{
    AddToStore, BuildMode, BuildPaths, Plain, Resp, SetOptions, Verbosity, VerifyStore,
    WithFramedSource, WorkerOp,
};
use nix_remote::{NixString, StorePath, StorePathSet};

fn ns(s: &[u8]) -> NixString {
    NixString::from_bytes(s)
}

fn sample_options() -> SetOptions {
    SetOptions {
        keep_failing: true,
        keep_going: false,
        try_fallback: true,
        verbosity: Verbosity::Vomit,
        max_build_jobs: 77,
        max_silent_time: 77,
        use_build_hook: 77,
        build_verbosity: Verbosity::Error,
        log_type: 77,
        print_build_trace: 77,
        build_cores: 77,
        use_substitutes: false,
        options: vec![(ns(b"buf1"), ns(b"buf2"))],
    }
}

#[test]
fn test_serialize() {
    let options = sample_options();
    let mut w = NixSerializer::new();
    options.encode(&mut w);
    let mut r = NixDeserializer::new(w.out);
    assert_eq!(options, <SetOptions as Wire>::decode(&mut r).unwrap());
    assert_eq!(r.pos, r.data.len());
}

#[test]
fn worker_op_test_serialize() {
    let options = sample_options();
    let mut w = NixSerializer::new();
    options.encode(&mut w);
    let mut r = NixDeserializer::new(w.out);
    let back = <SetOptions as Wire>::decode(&mut r).unwrap();
    assert_eq!(options, back);
    // and re-serializing gives the same bytes
    let mut w2 = NixSerializer::new();
    back.encode(&mut w2);
    assert_eq!(w2.out, r.data);
}

#[test]
fn test_roundtrip() {
    let samples: Vec<WorkerOp> = vec![
        WorkerOp::IsValidPath(
            Plain(StorePath(ns(b"/nix/store/g1w7hy3qg1w7hy3qg1w7hy3qg1w7hy3q-foo"))),
            Resp::new(),
        ),
        WorkerOp::SetOptions(Plain(sample_options()), Resp::new()),
        WorkerOp::VerifyStore(
            Plain(VerifyStore { check_contents: true, repair: false }),
            Resp::new(),
        ),
        WorkerOp::BuildPaths(
            Plain(BuildPaths {
                paths: vec![StorePath(ns(b"/nix/store/x-a")), StorePath(ns(b"/nix/store/y-b"))],
                build_mode: BuildMode::Check,
            }),
            Resp::new(),
        ),
        WorkerOp::QueryAllValidPaths(Plain(()), Resp::new()),
        WorkerOp::AddToStore(
            WithFramedSource(AddToStore {
                name: StorePath(ns(b"foo")),
                cam_str: StorePath(ns(b"fixed:r:sha256")),
                refs: StorePathSet { paths: vec![] },
                repair: false,
                framed: FramedData { data: vec![vec![1, 2, 3], vec![4, 5]] },
            }),
            Resp::new(),
        ),
    ];
    for op in samples {
        let mut w = NixSerializer::new();
        op.write(&mut w);
        let mut r = NixDeserializer::new(w.out);
        let back = WorkerOp::read(&mut r).unwrap();
        assert_eq!(op, back);
        assert_eq!(r.pos, r.data.len());
    }
}

#[test]
fn u64_round_trip() {
    let mut w = NixSerializer::new();
    w.write_u64(0);
    w.write_u64(1);
    w.write_u64(0x6e697863);
    w.write_u64(u64::MAX);
    assert_eq!(
        w.out[0..8],
        [0, 0, 0, 0, 0, 0, 0, 0]
    );
    assert_eq!(w.out[8..16], [1, 0, 0, 0, 0, 0, 0, 0]);
    assert_eq!(w.out[16..24], [0x63, 0x78, 0x69, 0x6e, 0, 0, 0, 0]);
    let mut r = NixDeserializer::new(w.out);
    assert_eq!(r.read_u64().unwrap(), 0);
    assert_eq!(r.read_u64().unwrap(), 1);
    assert_eq!(r.read_u64().unwrap(), 0x6e697863);
    assert_eq!(r.read_u64().unwrap(), u64::MAX);
    assert_eq!(r.read_u64(), Err(Error::Truncated));
}

#[test]
fn byte_buf_padding() {
    // empty: length word only, no pad
    let mut w = NixSerializer::new();
    w.write_byte_buf(b"");
    assert_eq!(w.out.len(), 8);
    // one byte: seven pad bytes
    let mut w = NixSerializer::new();
    w.write_byte_buf(b"x");
    assert_eq!(w.out.len(), 16);
    assert_eq!(&w.out[8..16], &[b'x', 0, 0, 0, 0, 0, 0, 0]);
    // eight bytes: no pad
    let mut w = NixSerializer::new();
    w.write_byte_buf(b"exactly8");
    assert_eq!(w.out.len(), 16);

    let mut r = NixDeserializer::new(w.out);
    assert_eq!(r.read_byte_buf().unwrap(), b"exactly8".to_vec());
}

#[test]
fn byte_buf_bad_padding() {
    let mut data = vec![1, 0, 0, 0, 0, 0, 0, 0, b'x'];
    data.extend_from_slice(&[0, 0, 0, 0, 0, 0, 9]);  // nonzero pad byte
    let mut r = NixDeserializer::new(data);
    assert_eq!(r.read_byte_buf(), Err(Error::BadPadding));
}

#[test]
fn byte_buf_truncated() {
    let data = vec![9, 0, 0, 0, 0, 0, 0, 0, b'x'];
    let mut r = NixDeserializer::new(data);
    assert_eq!(r.read_byte_buf(), Err(Error::Truncated));
}

#[test]
fn bool_words() {
    // encoding writes 0 or 1; any nonzero word decodes as true
    let mut w = NixSerializer::new();
    true.encode(&mut w);
    false.encode(&mut w);
    w.write_u64(2);
    w.write_u64(u64::MAX);
    let mut r = NixDeserializer::new(w.out);
    assert_eq!(&r.data[0..8], &[1, 0, 0, 0, 0, 0, 0, 0]);
    assert_eq!(&r.data[8..16], &[0, 0, 0, 0, 0, 0, 0, 0]);
    assert_eq!(<bool as Wire>::decode(&mut r), Ok(true));
    assert_eq!(<bool as Wire>::decode(&mut r), Ok(false));
    assert_eq!(<bool as Wire>::decode(&mut r), Ok(true));
    assert_eq!(<bool as Wire>::decode(&mut r), Ok(true));
    assert_eq!(r.pos, 32);
}

#[test]
fn option_tags() {
    let mut w = NixSerializer::new();
    let none: Option<u64> = None;
    let some: Option<u64> = Some(7);
    none.encode(&mut w);
    some.encode(&mut w);
    w.write_u64(2);
    let mut r = NixDeserializer::new(w.out);
    assert_eq!(<Option<u64> as Wire>::decode(&mut r), Ok(None));
    assert_eq!(<Option<u64> as Wire>::decode(&mut r), Ok(Some(7)));
    assert_eq!(<Option<u64> as Wire>::decode(&mut r), Err(Error::BadOptionTag(2)));
}

#[test]
fn empty_sequence() {
    let v: Vec<NixString> = vec![];
    let mut w = NixSerializer::new();
    v.encode(&mut w);
    assert_eq!(w.out, vec![0, 0, 0, 0, 0, 0, 0, 0]);
    let mut r = NixDeserializer::new(w.out);
    assert_eq!(<Vec<NixString> as Wire>::decode(&mut r).unwrap(), v);
}

#[test]
fn verbosity_tags() {
    let mut w = NixSerializer::new();
    Verbosity::Error.encode(&mut w);
    Verbosity::Vomit.encode(&mut w);
    w.write_u64(8);
    let mut r = NixDeserializer::new(w.out);
    assert_eq!(<Verbosity as Wire>::decode(&mut r), Ok(Verbosity::Error));
    assert_eq!(<Verbosity as Wire>::decode(&mut r), Ok(Verbosity::Vomit));
    assert_eq!(<Verbosity as Wire>::decode(&mut r), Err(Error::UnknownTag(8)));
}

#[test]
fn unknown_opcode() {
    let mut w = NixSerializer::new();
    w.write_u64(u64::MAX);
    let mut r = NixDeserializer::new(w.out);
    assert_eq!(WorkerOp::read(&mut r), Err(Error::UnknownTag(u64::MAX)));
}

#[test]
fn nar_hash_base32() {
    // one zero byte: two zero digits
    let h = nix_remote::NarHash::from_bytes(&[0]);
    assert_eq!(h.data, b"00".to_vec());
    // 0xff: 0b11111111 = 0b111_11111 -> digits 7 and 31
    let h = nix_remote::NarHash::from_bytes(&[0xff]);
    assert_eq!(h.data, vec![b'7', b'z']);
}
