//! Decoding fixture byte strings of the worker protocol and
//! re-serializing them byte-exactly.

use nix_remote::serialize::{NixDeserializer, NixSerializer, Wire};
use nix_remote::worker_op::{BuildMode, BuildResult, BuildStatus, DrvOutputs, ValidPathInfo};
use nix_remote::{
    DerivedPath, NarHash, NixString, Realisation, StorePath, StorePathSet, StringSet,
    ValidPathInfoWithPath,
};

/// Append a 64-bit little-endian word.
fn put_u64(out: &mut Vec<u8>, n: u64) {
    out.extend_from_slice(&n.to_le_bytes());
}

/// Append a wire byte string: length, bytes, zero-padding to 8.
fn put_str(out: &mut Vec<u8>, s: &[u8]) {
    put_u64(out, s.len() as u64);
    out.extend_from_slice(s);
    if s.len() % 8 != 0 {
        for _ in 0..(8 - s.len() % 8) {
            out.push(0);
        }
    }
}

fn reader(data: &[u8]) -> NixDeserializer {
    NixDeserializer::new(data.to_vec())
}

fn ns(s: &[u8]) -> NixString {
    NixString::from_bytes(s)
}

fn sp(s: &[u8]) -> StorePath {
    StorePath(ns(s))
}

#[test]
fn string() {
    let mut data = Vec::new();
    put_str(&mut data, b"");
    put_str(&mut data, b"hi");
    put_str(&mut data, b"white rabbit");
    put_str(&mut data, "\u{5927}\u{767d}\u{5154}".as_bytes());
    put_str(&mut data, b"oh no ");

    let mut r = reader(&data);
    let mut got: Vec<NixString> = Vec::new();
    for _ in 0..5 {
        got.push(<NixString as Wire>::decode(&mut r).unwrap());
    }
    assert_eq!(r.pos, data.len());
    assert_eq!(got[0], ns(b""));
    assert_eq!(got[1], ns(b"hi"));
    assert_eq!(got[2], ns(b"white rabbit"));
    assert_eq!(got[3], ns("\u{5927}\u{767d}\u{5154}".as_bytes()));
    assert_eq!(got[4], ns(b"oh no "));

    let mut w = NixSerializer::new();
    for s in &got {
        s.encode(&mut w);
    }
    assert_eq!(w.out, data);
}

#[test]
fn store_path() {
    let mut data = Vec::new();
    put_str(&mut data, b"/nix/store/g1w7hy3qg1w7hy3qg1w7hy3qg1w7hy3q-foo");
    put_str(&mut data, b"/nix/store/g1w7hy3qg1w7hy3qg1w7hy3qg1w7hy3q-foo-bar");

    let mut r = reader(&data);
    let a = <StorePath as Wire>::decode(&mut r).unwrap();
    let b = <StorePath as Wire>::decode(&mut r).unwrap();
    assert_eq!(a, sp(b"/nix/store/g1w7hy3qg1w7hy3qg1w7hy3qg1w7hy3q-foo"));
    assert_eq!(b, sp(b"/nix/store/g1w7hy3qg1w7hy3qg1w7hy3qg1w7hy3q-foo-bar"));

    let mut w = NixSerializer::new();
    a.encode(&mut w);
    b.encode(&mut w);
    assert_eq!(w.out, data);
}

#[test]
fn derived_path() {
    let paths: [&[u8]; 4] = [
        b"/nix/store/g1w7hy3qg1w7hy3qg1w7hy3qg1w7hy3q-foo",
        b"/nix/store/g1w7hy3qg1w7hy3qg1w7hy3qg1w7hy3q-foo.drv",
        b"/nix/store/g1w7hy3qg1w7hy3qg1w7hy3qg1w7hy3q-bar.drv!*",
        b"/nix/store/g1w7hy3qg1w7hy3qg1w7hy3qg1w7hy3q-bar.drv!x,y",
    ];
    let mut data = Vec::new();
    for p in &paths {
        put_str(&mut data, p);
    }
    let mut r = reader(&data);
    let mut w = NixSerializer::new();
    for p in &paths {
        let d = <DerivedPath as Wire>::decode(&mut r).unwrap();
        assert_eq!(d, DerivedPath(ns(p)));
        d.encode(&mut w);
    }
    assert_eq!(w.out, data);
}

#[test]
fn drv_output() {
    let outs: [&[u8]; 2] = [
        b"sha256:15e3c560894cbb27085cf65b5a2ecb18488c999497f4531b6907a7581ce6d527!baz",
        b"sha256:6f869f9ea2823bda165e06076fd0de4366dead2c0e8d2dbbad277d4f15c373f5!quux",
    ];
    let mut data = Vec::new();
    for o in &outs {
        put_str(&mut data, o);
    }
    let mut r = reader(&data);
    let mut w = NixSerializer::new();
    for o in &outs {
        let s = <NixString as Wire>::decode(&mut r).unwrap();
        assert_eq!(s, ns(o));
        s.encode(&mut w);
    }
    assert_eq!(w.out, data);
}

#[test]
fn realisation() {
    let a = br#"{"dependentRealisations":{},"id":"sha256:15e3c560894cbb27085cf65b5a2ecb18488c999497f4531b6907a7581ce6d527!baz","outPath":"g1w7hy3qg1w7hy3qg1w7hy3qg1w7hy3q-foo","signatures":["asdf","qwer"]}"#;
    let b = br#"{"dependentRealisations":{"sha256:6f869f9ea2823bda165e06076fd0de4366dead2c0e8d2dbbad277d4f15c373f5!quux":"g1w7hy3qg1w7hy3qg1w7hy3qg1w7hy3q-foo"},"id":"sha256:15e3c560894cbb27085cf65b5a2ecb18488c999497f4531b6907a7581ce6d527!baz","outPath":"g1w7hy3qg1w7hy3qg1w7hy3qg1w7hy3q-foo","signatures":["asdf","qwer"]}"#;
    let mut data = Vec::new();
    put_str(&mut data, a);
    put_str(&mut data, b);
    let mut r = reader(&data);
    let ra = <Realisation as Wire>::decode(&mut r).unwrap();
    let rb = <Realisation as Wire>::decode(&mut r).unwrap();
    assert_eq!(ra, Realisation(ns(a)));
    assert_eq!(rb, Realisation(ns(b)));
    let mut w = NixSerializer::new();
    ra.encode(&mut w);
    rb.encode(&mut w);
    assert_eq!(w.out, data);
}

fn put_build_result(
    out: &mut Vec<u8>,
    status: u64,
    error_msg: &[u8],
    times_built: u64,
    non_det: bool,
    start: u64,
    stop: u64,
    outputs: &[(&[u8], &[u8])],
) {
    put_u64(out, status);
    put_str(out, error_msg);
    put_u64(out, times_built);
    put_u64(out, if non_det { 1 } else { 0 });
    put_u64(out, start);
    put_u64(out, stop);
    put_u64(out, outputs.len() as u64);
    for (k, v) in outputs {
        put_str(out, k);
        put_str(out, v);
    }
}

#[test]
fn build_result() {
    let mut data = Vec::new();
    put_build_result(&mut data, 5, b"no idea why", 0, false, 0, 0, &[]);
    put_build_result(&mut data, 12, b"no idea why", 3, true, 30, 50, &[]);
    let out1: (&[u8], &[u8]) = (
        b"sha256:6f869f9ea2823bda165e06076fd0de4366dead2c0e8d2dbbad277d4f15c373f5!bar",
        br#"{"dependentRealisations":{},"id":"sha256:6f869f9ea2823bda165e06076fd0de4366dead2c0e8d2dbbad277d4f15c373f5!bar","outPath":"g1w7hy3qg1w7hy3qg1w7hy3qg1w7hy3q-bar","signatures":[]}"#,
    );
    let out2: (&[u8], &[u8]) = (
        b"sha256:6f869f9ea2823bda165e06076fd0de4366dead2c0e8d2dbbad277d4f15c373f5!foo",
        br#"{"dependentRealisations":{},"id":"sha256:6f869f9ea2823bda165e06076fd0de4366dead2c0e8d2dbbad277d4f15c373f5!foo","outPath":"g1w7hy3qg1w7hy3qg1w7hy3qg1w7hy3q-foo","signatures":[]}"#,
    );
    put_build_result(&mut data, 0, b"", 1, false, 30, 50, &[out1, out2]);

    let mut r = reader(&data);
    let b1 = <BuildResult as Wire>::decode(&mut r).unwrap();
    let b2 = <BuildResult as Wire>::decode(&mut r).unwrap();
    let b3 = <BuildResult as Wire>::decode(&mut r).unwrap();

    assert_eq!(b1.status, BuildStatus::OutputRejected);
    assert_eq!(b1.error_msg, ns(b"no idea why"));
    assert_eq!(b1.times_built, 0);
    assert!(!b1.is_non_deterministic);
    assert_eq!((b1.start_time, b1.stop_time), (0, 0));
    assert_eq!(b1.built_outputs, DrvOutputs(vec![]));

    assert_eq!(b2.status, BuildStatus::NotDeterministic);
    assert_eq!(b2.times_built, 3);
    assert!(b2.is_non_deterministic);
    assert_eq!((b2.start_time, b2.stop_time), (30, 50));

    assert_eq!(b3.status, BuildStatus::Built);
    assert_eq!(b3.error_msg, ns(b""));
    assert_eq!(b3.built_outputs.0.len(), 2);
    assert_eq!(b3.built_outputs.0[0].0, ns(out1.0));
    assert_eq!(b3.built_outputs.0[0].1, Realisation(ns(out1.1)));
    assert_eq!(b3.built_outputs.0[1].0, ns(out2.0));
    assert_eq!(b3.built_outputs.0[1].1, Realisation(ns(out2.1)));

    let mut w = NixSerializer::new();
    b1.encode(&mut w);
    b2.encode(&mut w);
    b3.encode(&mut w);
    assert_eq!(w.out, data);
}

#[test]
fn keyed_build_result() {
    let mut data = Vec::new();
    put_str(&mut data, b"/nix/store/g1w7hy3qg1w7hy3qg1w7hy3qg1w7hy3q-xxx");
    put_build_result(&mut data, 5, b"no idea why", 0, false, 0, 0, &[]);
    put_str(&mut data, b"/nix/store/g1w7hy3qg1w7hy3qg1w7hy3qg1w7hy3q-bar.drv!out");
    put_build_result(&mut data, 12, b"no idea why", 3, true, 30, 50, &[]);

    let mut r = reader(&data);
    let k1 = <(DerivedPath, BuildResult) as Wire>::decode(&mut r).unwrap();
    let k2 = <(DerivedPath, BuildResult) as Wire>::decode(&mut r).unwrap();
    assert_eq!(k1.0, DerivedPath(ns(b"/nix/store/g1w7hy3qg1w7hy3qg1w7hy3qg1w7hy3q-xxx")));
    assert_eq!(k1.1.status, BuildStatus::OutputRejected);
    assert_eq!(
        k2.0,
        DerivedPath(ns(b"/nix/store/g1w7hy3qg1w7hy3qg1w7hy3qg1w7hy3q-bar.drv!out"))
    );
    assert_eq!(k2.1.status, BuildStatus::NotDeterministic);
    assert!(k2.1.is_non_deterministic);

    let mut w = NixSerializer::new();
    k1.encode(&mut w);
    k2.encode(&mut w);
    assert_eq!(w.out, data);
}

const HASH: &[u8] = b"15e3c560894cbb27085cf65b5a2ecb18488c999497f4531b6907a7581ce6d527";

fn put_valid_path_info(
    out: &mut Vec<u8>,
    path: &[u8],
    deriver: &[u8],
    refs: &[&[u8]],
    ultimate: bool,
    sigs: &[&[u8]],
    ca: &[u8],
) {
    put_str(out, path);
    put_str(out, deriver);
    put_str(out, HASH);
    put_u64(out, refs.len() as u64);
    for r in refs {
        put_str(out, r);
    }
    put_u64(out, 23423);
    put_u64(out, 34878);
    put_u64(out, if ultimate { 1 } else { 0 });
    put_u64(out, sigs.len() as u64);
    for s in sigs {
        put_str(out, s);
    }
    put_str(out, ca);
}

#[test]
fn valid_path_info() {
    let bar: &[u8] = b"/nix/store/g1w7hy3qg1w7hy3qg1w7hy3qg1w7hy3q-bar";
    let foo1: &[u8] = b"/nix/store/g1w7hyyyy1w7hy3qg1w7hy3qgqqqqy3q-foo";
    let foo2: &[u8] = b"/nix/store/n5wkd9frr45pa74if5gpz9j7mifg27fh-foo";
    let mut data = Vec::new();
    put_valid_path_info(&mut data, bar, b"", &[], true, &[], b"");
    put_valid_path_info(
        &mut data,
        bar,
        b"/nix/store/g1w7hy3qg1w7hy3qg1w7hy3qg1w7hy3q-bar.drv",
        &[bar, foo1],
        false,
        &[b"fake-sig-1", b"fake-sig-2"],
        b"",
    );
    put_valid_path_info(
        &mut data,
        foo2,
        b"",
        &[bar, foo2],
        false,
        &[],
        b"fixed:r:sha256:1lr187v6dck1rjh2j6svpikcfz53wyl3qrlcbb405zlh13x0khhh",
    );

    let mut r = reader(&data);
    let v1 = <ValidPathInfoWithPath as Wire>::decode(&mut r).unwrap();
    let v2 = <ValidPathInfoWithPath as Wire>::decode(&mut r).unwrap();
    let v3 = <ValidPathInfoWithPath as Wire>::decode(&mut r).unwrap();

    let expected1 = ValidPathInfoWithPath {
        path: sp(bar),
        info: ValidPathInfo {
            deriver: sp(b""),
            hash: NarHash { data: HASH.to_vec() },
            references: StorePathSet { paths: vec![] },
            registration_time: 23423,
            nar_size: 34878,
            ultimate: true,
            sigs: StringSet { paths: vec![] },
            content_address: ns(b""),
        },
    };
    assert_eq!(v1, expected1);
    assert_eq!(
        v2.info.deriver,
        sp(b"/nix/store/g1w7hy3qg1w7hy3qg1w7hy3qg1w7hy3q-bar.drv")
    );
    assert_eq!(
        v2.info.references,
        StorePathSet { paths: vec![sp(bar), sp(foo1)] }
    );
    assert_eq!(
        v2.info.sigs,
        StringSet { paths: vec![ns(b"fake-sig-1"), ns(b"fake-sig-2")] }
    );
    assert!(!v2.info.ultimate);
    assert_eq!(v3.path, sp(foo2));
    assert_eq!(
        v3.info.content_address,
        ns(b"fixed:r:sha256:1lr187v6dck1rjh2j6svpikcfz53wyl3qrlcbb405zlh13x0khhh")
    );

    let mut w = NixSerializer::new();
    v1.encode(&mut w);
    v2.encode(&mut w);
    v3.encode(&mut w);
    assert_eq!(w.out, data);
}

#[test]
fn build_mode() {
    let mut data = Vec::new();
    put_u64(&mut data, 0);
    put_u64(&mut data, 1);
    put_u64(&mut data, 2);
    let mut r = reader(&data);
    let m1 = <BuildMode as Wire>::decode(&mut r).unwrap();
    let m2 = <BuildMode as Wire>::decode(&mut r).unwrap();
    let m3 = <BuildMode as Wire>::decode(&mut r).unwrap();
    assert_eq!(m1, BuildMode::Normal);
    assert_eq!(m2, BuildMode::Repair);
    assert_eq!(m3, BuildMode::Check);
    let mut w = NixSerializer::new();
    m1.encode(&mut w);
    m2.encode(&mut w);
    m3.encode(&mut w);
    assert_eq!(w.out, data);
}

fn put_string_list(out: &mut Vec<u8>, items: &[&[u8]]) {
    put_u64(out, items.len() as u64);
    for i in items {
        put_str(out, i);
    }
}

#[test]
fn vector() {
    let mut data = Vec::new();
    put_string_list(&mut data, &[]);
    put_string_list(&mut data, &[b""]);
    put_string_list(&mut data, &[b"", b"foo", b"bar"]);
    // a vector of vectors
    put_u64(&mut data, 3);
    put_string_list(&mut data, &[]);
    put_string_list(&mut data, &[b""]);
    put_string_list(&mut data, &[b"", b"1", b"2"]);

    let mut r = reader(&data);
    let v1 = <Vec<NixString> as Wire>::decode(&mut r).unwrap();
    let v2 = <Vec<NixString> as Wire>::decode(&mut r).unwrap();
    let v3 = <Vec<NixString> as Wire>::decode(&mut r).unwrap();
    let v4 = <Vec<Vec<NixString>> as Wire>::decode(&mut r).unwrap();
    assert_eq!(v1, vec![]);
    assert_eq!(v2, vec![ns(b"")]);
    assert_eq!(v3, vec![ns(b""), ns(b"foo"), ns(b"bar")]);
    assert_eq!(
        v4,
        vec![vec![], vec![ns(b"")], vec![ns(b""), ns(b"1"), ns(b"2")]]
    );

    let mut w = NixSerializer::new();
    v1.encode(&mut w);
    v2.encode(&mut w);
    v3.encode(&mut w);
    v4.encode(&mut w);
    assert_eq!(w.out, data);
}

#[test]
fn set() {
    // sets travel as sorted runs of strings
    let mut data = Vec::new();
    put_string_list(&mut data, &[]);
    put_string_list(&mut data, &[b""]);
    put_string_list(&mut data, &[b"", b"bar", b"foo"]);
    // a set of sets
    put_u64(&mut data, 3);
    put_string_list(&mut data, &[]);
    put_string_list(&mut data, &[b""]);
    put_string_list(&mut data, &[b"", b"1", b"2"]);

    let mut r = reader(&data);
    let s1 = <Vec<NixString> as Wire>::decode(&mut r).unwrap();
    let s2 = <Vec<NixString> as Wire>::decode(&mut r).unwrap();
    let s3 = <Vec<NixString> as Wire>::decode(&mut r).unwrap();
    let s4 = <Vec<Vec<NixString>> as Wire>::decode(&mut r).unwrap();
    assert_eq!(s1, vec![]);
    assert_eq!(s2, vec![ns(b"")]);
    assert_eq!(s3, vec![ns(b""), ns(b"bar"), ns(b"foo")]);
    // the elements stay in ascending order
    let mut sorted = s3.clone();
    sorted.sort();
    assert_eq!(s3, sorted);
    assert_eq!(
        s4,
        vec![vec![], vec![ns(b"")], vec![ns(b""), ns(b"1"), ns(b"2")]]
    );

    let mut w = NixSerializer::new();
    s1.encode(&mut w);
    s2.encode(&mut w);
    s3.encode(&mut w);
    s4.encode(&mut w);
    assert_eq!(w.out, data);
}

#[test]
fn optional_store_path() {
    // an absent store path travels as the empty string
    let mut data = Vec::new();
    put_str(&mut data, b"");
    put_str(&mut data, b"/nix/store/g1w7hy3qg1w7hy3qg1w7hy3qg1w7hy3q-foo-bar");
    let mut r = reader(&data);
    let p1 = <StorePath as Wire>::decode(&mut r).unwrap();
    let p2 = <StorePath as Wire>::decode(&mut r).unwrap();
    assert_eq!(p1, sp(b""));
    assert_eq!(p2, sp(b"/nix/store/g1w7hy3qg1w7hy3qg1w7hy3qg1w7hy3q-foo-bar"));
    let mut w = NixSerializer::new();
    p1.encode(&mut w);
    p2.encode(&mut w);
    assert_eq!(w.out, data);
}
