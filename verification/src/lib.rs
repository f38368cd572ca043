//! A verified implementation of the Nix remote-worker wire protocol:
//! the length-prefixed, padded binary encoding spoken between a Nix
//! client and a Nix daemon, together with the framed-data and NAR
//! streaming sub-protocols and the proxy session state machine.
//!
//! All values live in byte buffers; the surrounding application performs
//! the actual pipe I/O and feeds bytes in and out of the types here.

pub mod framed_data;
pub mod nar;
pub mod nix_client;
pub mod nix_daemon_proxy;
pub mod proxy;
pub mod serialize;
pub mod worker_op;
pub mod stderr;

use crate::serialize::{
    dec_u64, enc_at, enc_bytes, lemma_dec_bytes_complete, lemma_dec_bytes_sound,
    lemma_le_bytes_len, lemma_pow256_8, pow256, rec_bytes, spec_vec_len_bound, u64_le, Error,
    NixDeserializer, NixSerializer, Wire,
};
use vstd::prelude::*;

verus! {

/// First handshake magic word, sent by the client.
pub const WORKER_MAGIC_1: u64 = 0x6e697863;

/// Second handshake magic word, sent by the server in reply.
pub const WORKER_MAGIC_2: u64 = 0x6478696f;

/// The protocol version this implementation speaks, as the wire word
/// `(major << 8) | minor`: major 1, minor 34.
pub const PROTOCOL_VERSION: u64 = 0x122;

/// A string from nix.
///
/// Strings in the nix protocol are not necessarily UTF-8, so this is
/// different from the rust standard `String`.
#[derive(Clone, Debug, PartialEq, Eq, Hash, PartialOrd, Ord)]
pub struct NixString(pub Vec<u8>);

impl NixString {
    pub fn from_bytes(bytes: &[u8]) -> (r: Self)
        ensures
            r.0@ == bytes@,
    {
        let mut v: Vec<u8> = Vec::new();
        let mut i: usize = 0;
        while i < bytes.len()
            invariant
                i <= bytes.len(),
                v@ == bytes@.subrange(0, i as int),
            decreases bytes.len() - i,
        {
            let b = bytes[i];
            v.push(b);
            i = i + 1;
            proof {
                assert(v@ =~= bytes@.subrange(0, i as int));
            }
        }
        proof {
            assert(bytes@.subrange(0, bytes@.len() as int) =~= bytes@);
        }
        NixString(v)
    }
}

impl Wire for NixString {
    open spec fn enc(self) -> Seq<u8> {
        enc_bytes(self.0@)
    }

    open spec fn rec(data: Seq<u8>, pos: int) -> Option<int> {
        rec_bytes(data, pos)
    }

    open spec fn exact() -> bool {
        true
    }

    proof fn lemma_complete(data: Seq<u8>, pos: int, v: Self) {
        spec_vec_len_bound(&v.0);
        lemma_dec_bytes_complete(data, pos, v.0@);
    }

    fn encode(&self, w: &mut NixSerializer) {
        w.write_byte_buf(self.0.as_slice());
    }

    fn decode(r: &mut NixDeserializer) -> (res: Result<Self, Error>) {
        let v = match r.read_byte_buf() {
            Ok(v) => v,
            Err(e) => {
                return Err(e);
            },
        };
        proof {
            lemma_dec_bytes_sound(old(r).data@, old(r).pos as int);
        }
        Ok(NixString(v))
    }
}

/// A store path, carried on the wire as a plain byte string.
#[derive(Clone, Debug, PartialEq, Eq, Hash)]
pub struct StorePath(pub NixString);

impl Wire for StorePath {
    open spec fn enc(self) -> Seq<u8> {
        self.0.enc()
    }

    open spec fn rec(data: Seq<u8>, pos: int) -> Option<int> {
        <NixString as Wire>::rec(data, pos)
    }

    open spec fn exact() -> bool {
        <NixString as Wire>::exact()
    }

    proof fn lemma_complete(data: Seq<u8>, pos: int, v: Self) {
        <NixString as Wire>::lemma_complete(data, pos, v.0);
    }

    fn encode(&self, w: &mut NixSerializer) {
        self.0.encode(w);
    }

    fn decode(r: &mut NixDeserializer) -> (res: Result<Self, Error>) {
        match <NixString as Wire>::decode(r) {
            Ok(s) => Ok(StorePath(s)),
            Err(e) => Err(e),
        }
    }
}

/// A filesystem path, carried on the wire as a plain byte string.
#[derive(Clone, Debug, PartialEq, Eq)]
pub struct Path(pub NixString);

impl Wire for Path {
    open spec fn enc(self) -> Seq<u8> {
        self.0.enc()
    }

    open spec fn rec(data: Seq<u8>, pos: int) -> Option<int> {
        <NixString as Wire>::rec(data, pos)
    }

    open spec fn exact() -> bool {
        <NixString as Wire>::exact()
    }

    proof fn lemma_complete(data: Seq<u8>, pos: int, v: Self) {
        <NixString as Wire>::lemma_complete(data, pos, v.0);
    }

    fn encode(&self, w: &mut NixSerializer) {
        self.0.encode(w);
    }

    fn decode(r: &mut NixDeserializer) -> (res: Result<Self, Error>) {
        match <NixString as Wire>::decode(r) {
            Ok(s) => Ok(Path(s)),
            Err(e) => Err(e),
        }
    }
}

/// A derived path, carried on the wire as a plain byte string.
#[derive(Clone, Debug, PartialEq, Eq)]
pub struct DerivedPath(pub NixString);

impl Wire for DerivedPath {
    open spec fn enc(self) -> Seq<u8> {
        self.0.enc()
    }

    open spec fn rec(data: Seq<u8>, pos: int) -> Option<int> {
        <NixString as Wire>::rec(data, pos)
    }

    open spec fn exact() -> bool {
        <NixString as Wire>::exact()
    }

    proof fn lemma_complete(data: Seq<u8>, pos: int, v: Self) {
        <NixString as Wire>::lemma_complete(data, pos, v.0);
    }

    fn encode(&self, w: &mut NixSerializer) {
        self.0.encode(w);
    }

    fn decode(r: &mut NixDeserializer) -> (res: Result<Self, Error>) {
        match <NixString as Wire>::decode(r) {
            Ok(s) => Ok(DerivedPath(s)),
            Err(e) => Err(e),
        }
    }
}

/// A realisation record, carried as an opaque byte string.
#[derive(Clone, Debug, PartialEq, Eq)]
pub struct Realisation(pub NixString);

impl Wire for Realisation {
    open spec fn enc(self) -> Seq<u8> {
        self.0.enc()
    }

    open spec fn rec(data: Seq<u8>, pos: int) -> Option<int> {
        <NixString as Wire>::rec(data, pos)
    }

    open spec fn exact() -> bool {
        <NixString as Wire>::exact()
    }

    proof fn lemma_complete(data: Seq<u8>, pos: int, v: Self) {
        <NixString as Wire>::lemma_complete(data, pos, v.0);
    }

    fn encode(&self, w: &mut NixSerializer) {
        self.0.encode(w);
    }

    fn decode(r: &mut NixDeserializer) -> (res: Result<Self, Error>) {
        match <NixString as Wire>::decode(r) {
            Ok(s) => Ok(Realisation(s)),
            Err(e) => Err(e),
        }
    }
}

/// A set of paths.
#[derive(Clone, Debug, PartialEq, Eq)]
pub struct PathSet {
    pub paths: Vec<Path>,
}

impl Wire for PathSet {
    open spec fn enc(self) -> Seq<u8> {
        self.paths.enc()
    }

    open spec fn rec(data: Seq<u8>, pos: int) -> Option<int> {
        <Vec<Path> as Wire>::rec(data, pos)
    }

    open spec fn exact() -> bool {
        <Vec<Path> as Wire>::exact()
    }

    proof fn lemma_complete(data: Seq<u8>, pos: int, v: Self) {
        <Vec<Path> as Wire>::lemma_complete(data, pos, v.paths);
    }

    fn encode(&self, w: &mut NixSerializer) {
        self.paths.encode(w);
    }

    fn decode(r: &mut NixDeserializer) -> (res: Result<Self, Error>) {
        match <Vec<Path> as Wire>::decode(r) {
            Ok(paths) => Ok(PathSet { paths }),
            Err(e) => Err(e),
        }
    }
}

/// A set of store paths.
#[derive(Clone, Debug, PartialEq, Eq)]
pub struct StorePathSet {
    pub paths: Vec<StorePath>,
}

impl Wire for StorePathSet {
    open spec fn enc(self) -> Seq<u8> {
        self.paths.enc()
    }

    open spec fn rec(data: Seq<u8>, pos: int) -> Option<int> {
        <Vec<StorePath> as Wire>::rec(data, pos)
    }

    open spec fn exact() -> bool {
        <Vec<StorePath> as Wire>::exact()
    }

    proof fn lemma_complete(data: Seq<u8>, pos: int, v: Self) {
        <Vec<StorePath> as Wire>::lemma_complete(data, pos, v.paths);
    }

    fn encode(&self, w: &mut NixSerializer) {
        self.paths.encode(w);
    }

    fn decode(r: &mut NixDeserializer) -> (res: Result<Self, Error>) {
        match <Vec<StorePath> as Wire>::decode(r) {
            Ok(paths) => Ok(StorePathSet { paths }),
            Err(e) => Err(e),
        }
    }
}

/// A set of strings.
#[derive(Clone, Debug, PartialEq, Eq)]
pub struct StringSet {
    pub paths: Vec<NixString>,
}

impl Wire for StringSet {
    open spec fn enc(self) -> Seq<u8> {
        self.paths.enc()
    }

    open spec fn rec(data: Seq<u8>, pos: int) -> Option<int> {
        <Vec<NixString> as Wire>::rec(data, pos)
    }

    open spec fn exact() -> bool {
        <Vec<NixString> as Wire>::exact()
    }

    proof fn lemma_complete(data: Seq<u8>, pos: int, v: Self) {
        <Vec<NixString> as Wire>::lemma_complete(data, pos, v.paths);
    }

    fn encode(&self, w: &mut NixSerializer) {
        self.paths.encode(w);
    }

    fn decode(r: &mut NixDeserializer) -> (res: Result<Self, Error>) {
        match <Vec<NixString> as Wire>::decode(r) {
            Ok(paths) => Ok(StringSet { paths }),
            Err(e) => Err(e),
        }
    }
}

/// A set of realisations.
#[derive(Clone, Debug, PartialEq, Eq)]
pub struct RealisationSet {
    pub realisations: Vec<Realisation>,
}

impl Wire for RealisationSet {
    open spec fn enc(self) -> Seq<u8> {
        self.realisations.enc()
    }

    open spec fn rec(data: Seq<u8>, pos: int) -> Option<int> {
        <Vec<Realisation> as Wire>::rec(data, pos)
    }

    open spec fn exact() -> bool {
        <Vec<Realisation> as Wire>::exact()
    }

    proof fn lemma_complete(data: Seq<u8>, pos: int, v: Self) {
        <Vec<Realisation> as Wire>::lemma_complete(data, pos, v.realisations);
    }

    fn encode(&self, w: &mut NixSerializer) {
        self.realisations.encode(w);
    }

    fn decode(r: &mut NixDeserializer) -> (res: Result<Self, Error>) {
        match <Vec<Realisation> as Wire>::decode(r) {
            Ok(realisations) => Ok(RealisationSet { realisations }),
            Err(e) => Err(e),
        }
    }
}

/// A nar hash: unvalidated bytes copied from the wire.
#[derive(Clone, Debug, PartialEq, Eq)]
pub struct NarHash {
    pub data: Vec<u8>,
}

impl Wire for NarHash {
    open spec fn enc(self) -> Seq<u8> {
        enc_bytes(self.data@)
    }

    open spec fn rec(data: Seq<u8>, pos: int) -> Option<int> {
        rec_bytes(data, pos)
    }

    open spec fn exact() -> bool {
        true
    }

    proof fn lemma_complete(data: Seq<u8>, pos: int, v: Self) {
        spec_vec_len_bound(&v.data);
        lemma_dec_bytes_complete(data, pos, v.data@);
    }

    fn encode(&self, w: &mut NixSerializer) {
        w.write_byte_buf(self.data.as_slice());
    }

    fn decode(r: &mut NixDeserializer) -> (res: Result<Self, Error>) {
        let v = match r.read_byte_buf() {
            Ok(v) => v,
            Err(e) => {
                return Err(e);
            },
        };
        proof {
            lemma_dec_bytes_sound(old(r).data@, old(r).pos as int);
        }
        Ok(NarHash { data: v })
    }
}


/// A valid-path-info record together with the store path it describes.
#[derive(Clone, Debug, PartialEq, Eq)]
pub struct ValidPathInfoWithPath {
    pub path: StorePath,
    pub info: crate::worker_op::ValidPathInfo,
}

impl ValidPathInfoWithPath {
    pub open spec fn repr(self) -> (StorePath, crate::worker_op::ValidPathInfo) {
        (self.path, self.info)
    }
}

impl Wire for ValidPathInfoWithPath {
    open spec fn enc(self) -> Seq<u8> {
        self.repr().enc()
    }

    open spec fn rec(data: Seq<u8>, pos: int) -> Option<int> {
        <(StorePath, crate::worker_op::ValidPathInfo) as Wire>::rec(data, pos)
    }

    open spec fn exact() -> bool {
        <(StorePath, crate::worker_op::ValidPathInfo) as Wire>::exact()
    }

    proof fn lemma_complete(data: Seq<u8>, pos: int, v: Self) {
        <(StorePath, crate::worker_op::ValidPathInfo) as Wire>::lemma_complete(data, pos, v.repr());
    }

    fn encode(&self, w: &mut NixSerializer) {
        self.path.encode(w);
        self.info.encode(w);
        proof {
            assert(final(w).out@ =~= old(w).out@ + self.repr().enc());
        }
    }

    fn decode(r: &mut NixDeserializer) -> (res: Result<Self, Error>) {
        match <(StorePath, crate::worker_op::ValidPathInfo) as Wire>::decode(r) {
            Ok((path, info)) => Ok(ValidPathInfoWithPath { path, info }),
            Err(e) => Err(e),
        }
    }
}


/// A wrapper around an input buffer, reading the nix wire format.
pub struct NixRead {
    pub inner: NixDeserializer,
}

impl NixRead {
    pub fn new(data: Vec<u8>) -> (r: Self)
        ensures
            r.inner.data == data,
            r.inner.pos == 0,
            r.inner.wf(),
    {
        NixRead { inner: NixDeserializer::new(data) }
    }

    /// Read an integer from the wire.
    pub fn read_u64(&mut self) -> (res: Result<u64, Error>)
        requires
            old(self).inner.wf(),
        ensures
            final(self).inner.wf(),
            final(self).inner.data == old(self).inner.data,
            match res {
                Ok(n) => dec_u64(old(self).inner.data@, old(self).inner.pos as int) == Some(
                    (n, final(self).inner.pos as int),
                ),
                Err(e) => {
                    &&& dec_u64(old(self).inner.data@, old(self).inner.pos as int) is None
                    &&& e == Error::Truncated
                },
            },
    {
        self.inner.read_u64()
    }

    /// Read a "string" (really, a byte buffer) from the wire.
    pub fn read_string(&mut self) -> (res: Result<NixString, Error>)
        requires
            old(self).inner.wf(),
        ensures
            final(self).inner.wf(),
            final(self).inner.data == old(self).inner.data,
            match res {
                Ok(s) => crate::serialize::dec_bytes(
                    old(self).inner.data@,
                    old(self).inner.pos as int,
                ) == Some((s.0@, final(self).inner.pos as int)),
                Err(_) => crate::serialize::dec_bytes(
                    old(self).inner.data@,
                    old(self).inner.pos as int,
                ) is None,
            },
    {
        match self.inner.read_byte_buf() {
            Ok(v) => Ok(NixString(v)),
            Err(e) => Err(e),
        }
    }

    /// Read any wire-encodable value.
    pub fn read_nix<T: Wire>(&mut self) -> (res: Result<T, Error>)
        requires
            old(self).inner.wf(),
        ensures
            final(self).inner.wf(),
            final(self).inner.data == old(self).inner.data,
            match res {
                Ok(v) => {
                    &&& T::rec(old(self).inner.data@, old(self).inner.pos as int) == Some(
                        final(self).inner.pos as int,
                    )
                    &&& old(self).inner.pos <= final(self).inner.pos
                    &&& final(self).inner.pos - old(self).inner.pos == v.enc().len()
                    &&& T::exact() ==> old(self).inner.data@.subrange(
                        old(self).inner.pos as int,
                        final(self).inner.pos as int,
                    ) == v.enc()
                },
                Err(_) => T::rec(old(self).inner.data@, old(self).inner.pos as int) is None,
            },
            forall|w: T|
                #[trigger] enc_at(old(self).inner.data@, old(self).inner.pos as int, w.enc())
                    ==> res is Ok && final(self).inner.pos == old(self).inner.pos + w.enc().len(),
    {
        crate::serialize::parse::<T>(&mut self.inner)
    }
}

/// A wrapper around an output buffer, writing the nix wire format.
pub struct NixWrite {
    pub inner: NixSerializer,
}

impl NixWrite {
    pub fn new() -> (r: Self)
        ensures
            r.inner.out@ == Seq::<u8>::empty(),
    {
        NixWrite { inner: NixSerializer::new() }
    }

    /// Write an integer to the wire.
    pub fn write_u64(&mut self, n: u64) -> (res: Result<(), Error>)
        ensures
            res is Ok,
            final(self).inner.out@ == old(self).inner.out@ + u64_le(n),
    {
        self.inner.write_u64(n);
        Ok(())
    }

    /// Write a "string" (really, a byte buffer) to the wire.
    pub fn write_string(&mut self, s: &[u8]) -> (res: Result<(), Error>)
        ensures
            res is Ok,
            final(self).inner.out@ == old(self).inner.out@ + enc_bytes(s@),
    {
        self.inner.write_byte_buf(s);
        Ok(())
    }

    /// Write any wire-encodable value.
    pub fn write_nix<T: Wire>(&mut self, data: &T) -> (res: Result<(), Error>)
        ensures
            res is Ok,
            final(self).inner.out@ == old(self).inner.out@ + data.enc(),
    {
        data.encode(&mut self.inner);
        Ok(())
    }

    /// Settle the buffered output; the application sends it on.
    pub fn flush(&mut self) -> (r: Vec<u8>)
        ensures
            r == old(self).inner.out,
            final(self).inner.out@ == Seq::<u8>::empty(),
    {
        self.inner.take_output()
    }
}


/// The 32 digits of nix's base-32 alphabet.
pub open spec fn base32_chars() -> Seq<u8> {
    seq![
        48u8,
        49u8,
        50u8,
        51u8,
        52u8,
        53u8,
        54u8,
        55u8,
        56u8,
        57u8,
        97u8,
        98u8,
        99u8,
        100u8,
        102u8,
        103u8,
        104u8,
        105u8,
        106u8,
        107u8,
        108u8,
        109u8,
        110u8,
        112u8,
        113u8,
        114u8,
        115u8,
        118u8,
        119u8,
        120u8,
        121u8,
        122u8,
    ]
}

/// The value of the n-th base-32 digit of a byte string, counting from
/// the least significant: five bits starting at bit n*5, read across a
/// byte boundary where needed.
pub open spec fn base32_digit(bytes: Seq<u8>, n: int) -> u8 {
    let b = n * 5;
    let i = b / 8;
    let j = b % 8;
    let v1 = bytes[i] >> (j as u8);
    let v2 = if i >= bytes.len() - 1 || j == 0 {
        0u8
    } else {
        bytes[i + 1] << ((8 - j) as u8)
    };
    v1 | v2
}

/// How many base-32 digits a byte string of the given length has.
pub open spec fn base32_len(blen: nat) -> nat
    recommends
        blen > 0,
{
    ((blen * 8 - 1) / 5 + 1) as nat
}

impl NarHash {
    /// Render bytes in nix's base-32 alphabet, most significant digit
    /// first.
    pub fn from_bytes(bytes: &[u8]) -> (r: NarHash)
        requires
            bytes@.len() > 0,
            bytes@.len() * 8 <= usize::MAX,
        ensures
            r.data@.len() == base32_len(bytes@.len()),
            forall|k: int|
                0 <= k < r.data@.len() ==> #[trigger] r.data@[k] == base32_chars()[(base32_digit(
                    bytes@,
                    r.data@.len() - 1 - k,
                ) % 32) as int],
    {
        let mut table: Vec<u8> = Vec::new();
        table.push(48);
        table.push(49);
        table.push(50);
        table.push(51);
        table.push(52);
        table.push(53);
        table.push(54);
        table.push(55);
        table.push(56);
        table.push(57);
        table.push(97);
        table.push(98);
        table.push(99);
        table.push(100);
        table.push(102);
        table.push(103);
        table.push(104);
        table.push(105);
        table.push(106);
        table.push(107);
        table.push(108);
        table.push(109);
        table.push(110);
        table.push(112);
        table.push(113);
        table.push(114);
        table.push(115);
        table.push(118);
        table.push(119);
        table.push(120);
        table.push(121);
        table.push(122);
        proof {
            assert(table@ =~= base32_chars());
        }
        let len = (bytes.len() * 8 - 1) / 5 + 1;
        let mut data: Vec<u8> = Vec::new();
        let mut idx: usize = 0;
        while idx < len
            invariant
                len == base32_len(bytes@.len()),
                bytes@.len() > 0,
                bytes@.len() * 8 <= usize::MAX,
                table@ == base32_chars(),
                idx <= len,
                data@.len() == idx,
                forall|k: int|
                    0 <= k < idx ==> #[trigger] data@[k] == base32_chars()[(base32_digit(
                        bytes@,
                        len - 1 - k,
                    ) % 32) as int],
            decreases len - idx,
        {
            let n = len - 1 - idx;
            let b = n * 5;
            let i = b / 8;
            let j = b % 8;
            proof {
                assert(n * 5 <= (len - 1) * 5) by (nonlinear_arith)
                    requires
                        n <= len - 1,
                ;
                assert((len - 1) * 5 <= bytes@.len() * 8 - 1) by (nonlinear_arith)
                    requires
                        len == (bytes@.len() * 8 - 1) / 5 + 1,
                        bytes@.len() > 0,
                ;
                assert(i < bytes@.len()) by (nonlinear_arith)
                    requires
                        i == b / 8,
                        b <= bytes@.len() * 8 - 1,
                        bytes@.len() > 0,
                ;
            }
            let v1 = bytes[i] >> (j as u32);
            let v2 = if i + 1 >= bytes.len() || j == 0 {
                0u8
            } else {
                bytes[i + 1] << ((8 - j) as u32)
            };
            let v = v1 | v2;
            let c = table[(v % 32) as usize];
            data.push(c);
            idx = idx + 1;
            proof {
                assert(v == base32_digit(bytes@, n as int));
            }
        }
        NarHash { data }
    }
}

/// A protocol version split into its major and minor parts. The wire
/// word is `(major << 8) | minor`.
#[derive(Debug, Clone, Copy, PartialEq, Eq, Structural)]
pub struct DaemonVersion {
    pub major: u8,
    pub minor: u8,
}

impl DaemonVersion {
    /// The version word this side advertises.
    pub fn ours() -> (r: DaemonVersion)
        ensures
            r.word() == PROTOCOL_VERSION,
    {
        let r = DaemonVersion { major: 1, minor: 34 };
        proof {
            assert(r.word() == 0x122);
        }
        r
    }

    /// The wire word of this version.
    pub open spec fn word(self) -> u64 {
        (self.major as u64 * 256 + self.minor as u64) as u64
    }
}

impl From<u64> for DaemonVersion {
    fn from(x: u64) -> (r: DaemonVersion) {
        DaemonVersion { major: ((x >> 8) & 0xff) as u8, minor: (x & 0xff) as u8 }
    }
}

impl vstd::std_specs::convert::FromSpecImpl<u64> for DaemonVersion {
    open spec fn obeys_from_spec() -> bool {
        true
    }

    open spec fn from_spec(x: u64) -> DaemonVersion {
        DaemonVersion { major: ((x >> 8) & 0xff) as u8, minor: (x & 0xff) as u8 }
    }
}

impl From<DaemonVersion> for u64 {
    fn from(v: DaemonVersion) -> (r: u64) {
        (v.major as u64) * 256 + (v.minor as u64)
    }
}

impl vstd::std_specs::convert::FromSpecImpl<DaemonVersion> for u64 {
    open spec fn obeys_from_spec() -> bool {
        true
    }

    open spec fn from_spec(v: DaemonVersion) -> u64 {
        v.word()
    }
}

} // verus!
