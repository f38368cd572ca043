//! Framed streams and NAR archives: copies are byte-exact and end
//! detection lands on the archive's last byte.

use nix_remote::framed_data::{stream as framed_stream, FramedData};
use nix_remote::nar::{
    read_nar, stream as nar_stream, write_nar, Nar, NarDirectoryEntry, NarFile,
};
use nix_remote::serialize::{Error, NixDeserializer, NixSerializer};
use nix_remote::NixString;

fn put_u64(out: &mut Vec<u8>, n: u64) {
    out.extend_from_slice(&n.to_le_bytes());
}

fn put_str(out: &mut Vec<u8>, s: &[u8]) {
    put_u64(out, s.len() as u64);
    out.extend_from_slice(s);
    if s.len() % 8 != 0 {
        for _ in 0..(8 - s.len() % 8) {
            out.push(0);
        }
    }
}

fn ns(s: &[u8]) -> NixString {
    NixString::from_bytes(s)
}

#[test]
fn framed_copy_is_byte_exact() {
    let mut data = Vec::new();
    put_u64(&mut data, 3);
    data.extend_from_slice(b"abc");  // frames are unpadded
    put_u64(&mut data, 5);
    data.extend_from_slice(b"defgh");
    put_u64(&mut data, 0);
    data.extend_from_slice(b"trailing");

    let mut r = NixDeserializer::new(data.clone());
    let mut w = NixSerializer::new();
    framed_stream(&mut r, &mut w).unwrap();
    assert_eq!(w.out, &data[0..data.len() - 8]);
    assert_eq!(r.pos, data.len() - 8);
}

#[test]
fn framed_first_frame_is_terminator() {
    let mut data = Vec::new();
    put_u64(&mut data, 0);
    let mut r = NixDeserializer::new(data.clone());
    let mut w = NixSerializer::new();
    framed_stream(&mut r, &mut w).unwrap();
    assert_eq!(w.out, data);
    assert_eq!(r.pos, 8);
}

#[test]
fn framed_read_and_write() {
    let mut data = Vec::new();
    put_u64(&mut data, 2);
    data.extend_from_slice(b"hi");
    put_u64(&mut data, 0);
    let mut r = NixDeserializer::new(data.clone());
    let f = FramedData::read(&mut r).unwrap();
    assert_eq!(f.data, vec![b"hi".to_vec()]);
    let mut w = NixSerializer::new();
    f.write(&mut w);
    assert_eq!(w.out, data);
}

#[test]
fn framed_truncated_body() {
    let mut data = Vec::new();
    put_u64(&mut data, 4);
    data.extend_from_slice(b"ab");
    let mut r = NixDeserializer::new(data);
    let mut w = NixSerializer::new();
    assert_eq!(framed_stream(&mut r, &mut w), Err(Error::Truncated));
}

/// The seed archive: one directory with one executable file `run`
/// whose contents are `hello`.
fn seed_nar_bytes() -> Vec<u8> {
    let mut data = Vec::new();
    put_str(&mut data, b"nix-archive-1");
    put_str(&mut data, b"(");
    put_str(&mut data, b"type");
    put_str(&mut data, b"directory");
    put_str(&mut data, b"entry");
    put_str(&mut data, b"(");
    put_str(&mut data, b"name");
    put_str(&mut data, b"run");
    put_str(&mut data, b"node");
    put_str(&mut data, b"(");
    put_str(&mut data, b"type");
    put_str(&mut data, b"regular");
    put_str(&mut data, b"executable");
    put_str(&mut data, b"");
    put_str(&mut data, b"contents");
    put_str(&mut data, b"hello");
    put_str(&mut data, b")");
    put_str(&mut data, b")");
    put_str(&mut data, b")");
    data
}

fn seed_nar() -> Nar {
    Nar::Directory(vec![NarDirectoryEntry {
        name: ns(b"run"),
        node: Nar::Contents(NarFile { contents: ns(b"hello"), executable: true }),
    }])
}

#[test]
fn nar_copy_ends_exactly_at_the_last_byte() {
    let mut data = seed_nar_bytes();
    let end = data.len();
    data.extend_from_slice(b"junk after the archive");
    let mut r = NixDeserializer::new(data.clone());
    let mut w = NixSerializer::new();
    nar_stream(&mut r, &mut w).unwrap();
    assert_eq!(r.pos, end);
    assert_eq!(w.out, &data[0..end]);
}

#[test]
fn nar_parse_and_reserialize() {
    let data = seed_nar_bytes();
    let mut r = NixDeserializer::new(data.clone());
    let nar = read_nar(&mut r).unwrap();
    assert_eq!(nar, seed_nar());
    let mut w = NixSerializer::new();
    write_nar(&nar, &mut w);
    assert_eq!(w.out, data);
}

#[test]
fn nar_round_trip_symlink() {
    let nar = Nar::Target(ns(b"/nix/store/g1w7hy3qg1w7hy3qg1w7hy3qg1w7hy3q-foo/bin/foo"));
    let mut w = NixSerializer::new();
    write_nar(&nar, &mut w);
    let mut r = NixDeserializer::new(w.out);
    assert_eq!(read_nar(&mut r).unwrap(), nar);
    assert_eq!(r.pos, r.data.len());
}

#[test]
fn nar_empty_file_contents() {
    let nar = Nar::Contents(NarFile { contents: ns(b""), executable: false });
    let mut w = NixSerializer::new();
    write_nar(&nar, &mut w);
    let mut r = NixDeserializer::new(w.out);
    assert_eq!(read_nar(&mut r).unwrap(), nar);
}

#[test]
fn nar_empty_directory() {
    let nar = Nar::Directory(vec![]);
    let mut w = NixSerializer::new();
    write_nar(&nar, &mut w);
    let mut r = NixDeserializer::new(w.out);
    assert_eq!(read_nar(&mut r).unwrap(), nar);
    assert_eq!(r.pos, r.data.len());
}

#[test]
fn nar_file_without_contents_token() {
    // the parser tolerates a regular file closed without "contents"
    let mut data = Vec::new();
    put_str(&mut data, b"nix-archive-1");
    put_str(&mut data, b"(");
    put_str(&mut data, b"type");
    put_str(&mut data, b"regular");
    put_str(&mut data, b")");
    let mut r = NixDeserializer::new(data);
    let nar = read_nar(&mut r).unwrap();
    assert_eq!(nar, Nar::Contents(NarFile { contents: ns(b""), executable: false }));
}

#[test]
fn nar_bad_token_is_an_error() {
    let mut data = Vec::new();
    put_str(&mut data, b"nix-archive-1");
    put_str(&mut data, b"(");
    put_str(&mut data, b"type");
    put_str(&mut data, b"socket");
    put_str(&mut data, b")");
    let mut r = NixDeserializer::new(data);
    assert_eq!(read_nar(&mut r), Err(Error::BadArchive));
}

#[test]
fn nar_sort_orders_entries_recursively() {
    let mut nar = Nar::Directory(vec![
        NarDirectoryEntry {
            name: ns(b"zeta"),
            node: Nar::Directory(vec![
                NarDirectoryEntry {
                    name: ns(b"b"),
                    node: Nar::Contents(NarFile { contents: ns(b"2"), executable: false }),
                },
                NarDirectoryEntry {
                    name: ns(b"a"),
                    node: Nar::Contents(NarFile { contents: ns(b"1"), executable: false }),
                },
            ]),
        },
        NarDirectoryEntry { name: ns(b"alpha"), node: Nar::Target(ns(b"zeta/a")) },
        NarDirectoryEntry { name: ns(b"alp"), node: Nar::Directory(vec![]) },
    ]);
    nar.sort();
    let expected = Nar::Directory(vec![
        NarDirectoryEntry { name: ns(b"alp"), node: Nar::Directory(vec![]) },
        NarDirectoryEntry { name: ns(b"alpha"), node: Nar::Target(ns(b"zeta/a")) },
        NarDirectoryEntry {
            name: ns(b"zeta"),
            node: Nar::Directory(vec![
                NarDirectoryEntry {
                    name: ns(b"a"),
                    node: Nar::Contents(NarFile { contents: ns(b"1"), executable: false }),
                },
                NarDirectoryEntry {
                    name: ns(b"b"),
                    node: Nar::Contents(NarFile { contents: ns(b"2"), executable: false }),
                },
            ]),
        },
    ]);
    assert_eq!(nar, expected);
}
