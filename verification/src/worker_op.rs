//! The worker operations of the Nix remote protocol.
//!
//! Each operation is a 64-bit opcode followed by the request record for
//! that operation. Four operations are followed by a framed bulk
//! payload. The expected response type of each operation is carried by
//! a zero-sized [`Resp`] marker in its variant, and [`WorkerOp::proxy_response`]
//! relays exactly one response of that type from the daemon side to the
//! client side, byte for byte.

use crate::framed_data::{dec_framed, enc_framed, framed_wf, FramedData};
use crate::serialize::{
    dec_u64, enc_at, lemma_dec_u64_complete, lemma_dec_u64_sound, lemma_enc_at_split,
    lemma_le_bytes_len, lemma_subrange_concat, relay, u64_le, Error, NixDeserializer,
    NixSerializer, Wire,
};
use crate::{
    DerivedPath, NixString, Path, PathSet, Realisation, RealisationSet, StorePath, StorePathSet,
    StringSet, ValidPathInfoWithPath,
};
use crate::nar::{enc_nar, Nar};
use crate::NarHash;
use vstd::prelude::*;

verus! {

/// A zero-sized marker naming the expected response type of an
/// operation variant.
#[derive(Debug, PartialEq, Eq)]
pub struct Resp<T> {
    marker: core::marker::PhantomData<T>,
}

impl<T> Resp<T> {
    pub fn new() -> (r: Resp<T>) {
        Resp { marker: core::marker::PhantomData }
    }

    /// Pin a value to this marker's type.
    pub fn ty(&self, v: T) -> (r: T)
        ensures
            r == v,
    {
        v
    }
}

/// A request that is complete in itself.
#[derive(Debug, Clone, PartialEq, Eq)]
pub struct Plain<T>(pub T);

impl<T: Wire> Wire for Plain<T> {
    open spec fn enc(self) -> Seq<u8> {
        self.0.enc()
    }

    open spec fn rec(data: Seq<u8>, pos: int) -> Option<int> {
        T::rec(data, pos)
    }

    open spec fn exact() -> bool {
        T::exact()
    }

    proof fn lemma_complete(data: Seq<u8>, pos: int, v: Self) {
        T::lemma_complete(data, pos, v.0);
    }

    fn encode(&self, w: &mut NixSerializer) {
        self.0.encode(w);
    }

    fn decode(r: &mut NixDeserializer) -> (res: Result<Self, Error>) {
        match T::decode(r) {
            Ok(v) => Ok(Plain(v)),
            Err(e) => Err(e),
        }
    }
}

/// A request whose record is followed by a framed byte stream.
#[derive(Debug, Clone, PartialEq, Eq)]
pub struct WithFramedSource<T>(pub T);

impl<T: Wire> Wire for WithFramedSource<T> {
    open spec fn enc(self) -> Seq<u8> {
        self.0.enc()
    }

    open spec fn rec(data: Seq<u8>, pos: int) -> Option<int> {
        T::rec(data, pos)
    }

    open spec fn exact() -> bool {
        T::exact()
    }

    proof fn lemma_complete(data: Seq<u8>, pos: int, v: Self) {
        T::lemma_complete(data, pos, v.0);
    }

    fn encode(&self, w: &mut NixSerializer) {
        self.0.encode(w);
    }

    fn decode(r: &mut NixDeserializer) -> (res: Result<Self, Error>) {
        match T::decode(r) {
            Ok(v) => Ok(WithFramedSource(v)),
            Err(e) => Err(e),
        }
    }
}

/// The verbosity level carried in client options.
#[derive(Debug, Clone, Copy, PartialEq, Eq, Structural)]
pub enum Verbosity {
    Error,
    Warn,
    Notice,
    Info,
    Talkative,
    Chatty,
    Debug,
    Vomit,
}

impl Verbosity {
    /// The wire tag of this variant.
    pub open spec fn tag(self) -> u64 {
        match self {
            Verbosity::Error => 0,
            Verbosity::Warn => 1,
            Verbosity::Notice => 2,
            Verbosity::Info => 3,
            Verbosity::Talkative => 4,
            Verbosity::Chatty => 5,
            Verbosity::Debug => 6,
            Verbosity::Vomit => 7,
        }
    }
}

impl Wire for Verbosity {
    open spec fn enc(self) -> Seq<u8> {
        u64_le(self.tag())
    }

    open spec fn rec(data: Seq<u8>, pos: int) -> Option<int> {
        match dec_u64(data, pos) {
            Option::None => Option::None,
            Option::Some((t, p)) => if t < 8 {
                Option::Some(p)
            } else {
                Option::None
            },
        }
    }

    open spec fn exact() -> bool {
        true
    }

    proof fn lemma_complete(data: Seq<u8>, pos: int, v: Self) {
        lemma_dec_u64_complete(data, pos, v.tag());
        lemma_le_bytes_len(v.tag() as nat, 8);
    }

    fn encode(&self, w: &mut NixSerializer) {
        match self {
            Verbosity::Error => {
                w.write_u64(0);
            },
            Verbosity::Warn => {
                w.write_u64(1);
            },
            Verbosity::Notice => {
                w.write_u64(2);
            },
            Verbosity::Info => {
                w.write_u64(3);
            },
            Verbosity::Talkative => {
                w.write_u64(4);
            },
            Verbosity::Chatty => {
                w.write_u64(5);
            },
            Verbosity::Debug => {
                w.write_u64(6);
            },
            Verbosity::Vomit => {
                w.write_u64(7);
            },
        }
    }

    fn decode(r: &mut NixDeserializer) -> (res: Result<Self, Error>) {
        let t = match r.read_u64() {
            Ok(t) => t,
            Err(e) => {
                return Err(e);
            },
        };
        if t >= 8 {
            return Err(Error::UnknownTag(t));
        }
        proof {
            lemma_dec_u64_sound(old(r).data@, old(r).pos as int);
            lemma_le_bytes_len(t as nat, 8);
        }
        let v = match t {
            0 => Verbosity::Error,
            1 => Verbosity::Warn,
            2 => Verbosity::Notice,
            3 => Verbosity::Info,
            4 => Verbosity::Talkative,
            5 => Verbosity::Chatty,
            6 => Verbosity::Debug,
            7 => Verbosity::Vomit,
            _ => {
                return Err(Error::UnknownTag(t));
            },
        };
        Ok(v)
    }
}

/// How builds are performed.
#[derive(Debug, Clone, Copy, PartialEq, Eq, Structural)]
pub enum BuildMode {
    Normal,
    Repair,
    Check,
}

impl BuildMode {
    /// The wire tag of this variant.
    pub open spec fn tag(self) -> u64 {
        match self {
            BuildMode::Normal => 0,
            BuildMode::Repair => 1,
            BuildMode::Check => 2,
        }
    }
}

impl Wire for BuildMode {
    open spec fn enc(self) -> Seq<u8> {
        u64_le(self.tag())
    }

    open spec fn rec(data: Seq<u8>, pos: int) -> Option<int> {
        match dec_u64(data, pos) {
            Option::None => Option::None,
            Option::Some((t, p)) => if t < 3 {
                Option::Some(p)
            } else {
                Option::None
            },
        }
    }

    open spec fn exact() -> bool {
        true
    }

    proof fn lemma_complete(data: Seq<u8>, pos: int, v: Self) {
        lemma_dec_u64_complete(data, pos, v.tag());
        lemma_le_bytes_len(v.tag() as nat, 8);
    }

    fn encode(&self, w: &mut NixSerializer) {
        match self {
            BuildMode::Normal => {
                w.write_u64(0);
            },
            BuildMode::Repair => {
                w.write_u64(1);
            },
            BuildMode::Check => {
                w.write_u64(2);
            },
        }
    }

    fn decode(r: &mut NixDeserializer) -> (res: Result<Self, Error>) {
        let t = match r.read_u64() {
            Ok(t) => t,
            Err(e) => {
                return Err(e);
            },
        };
        if t >= 3 {
            return Err(Error::UnknownTag(t));
        }
        proof {
            lemma_dec_u64_sound(old(r).data@, old(r).pos as int);
            lemma_le_bytes_len(t as nat, 8);
        }
        let v = match t {
            0 => BuildMode::Normal,
            1 => BuildMode::Repair,
            2 => BuildMode::Check,
            _ => {
                return Err(Error::UnknownTag(t));
            },
        };
        Ok(v)
    }
}

/// The outcome of one build.
#[derive(Debug, Clone, Copy, PartialEq, Eq, Structural)]
pub enum BuildStatus {
    Built,
    Substituted,
    AlreadyValid,
    PermanentFailure,
    InputRejected,
    OutputRejected,
    TransientFailure,
    CachedFailure,
    TimedOut,
    MiscFailure,
    DependencyFailed,
    LogLimitExceeded,
    NotDeterministic,
    ResolvesToAlreadyValid,
    NoSubstituters,
}

impl BuildStatus {
    /// The wire tag of this variant.
    pub open spec fn tag(self) -> u64 {
        match self {
            BuildStatus::Built => 0,
            BuildStatus::Substituted => 1,
            BuildStatus::AlreadyValid => 2,
            BuildStatus::PermanentFailure => 3,
            BuildStatus::InputRejected => 4,
            BuildStatus::OutputRejected => 5,
            BuildStatus::TransientFailure => 6,
            BuildStatus::CachedFailure => 7,
            BuildStatus::TimedOut => 8,
            BuildStatus::MiscFailure => 9,
            BuildStatus::DependencyFailed => 10,
            BuildStatus::LogLimitExceeded => 11,
            BuildStatus::NotDeterministic => 12,
            BuildStatus::ResolvesToAlreadyValid => 13,
            BuildStatus::NoSubstituters => 14,
        }
    }
}

impl Wire for BuildStatus {
    open spec fn enc(self) -> Seq<u8> {
        u64_le(self.tag())
    }

    open spec fn rec(data: Seq<u8>, pos: int) -> Option<int> {
        match dec_u64(data, pos) {
            Option::None => Option::None,
            Option::Some((t, p)) => if t < 15 {
                Option::Some(p)
            } else {
                Option::None
            },
        }
    }

    open spec fn exact() -> bool {
        true
    }

    proof fn lemma_complete(data: Seq<u8>, pos: int, v: Self) {
        lemma_dec_u64_complete(data, pos, v.tag());
        lemma_le_bytes_len(v.tag() as nat, 8);
    }

    fn encode(&self, w: &mut NixSerializer) {
        match self {
            BuildStatus::Built => {
                w.write_u64(0);
            },
            BuildStatus::Substituted => {
                w.write_u64(1);
            },
            BuildStatus::AlreadyValid => {
                w.write_u64(2);
            },
            BuildStatus::PermanentFailure => {
                w.write_u64(3);
            },
            BuildStatus::InputRejected => {
                w.write_u64(4);
            },
            BuildStatus::OutputRejected => {
                w.write_u64(5);
            },
            BuildStatus::TransientFailure => {
                w.write_u64(6);
            },
            BuildStatus::CachedFailure => {
                w.write_u64(7);
            },
            BuildStatus::TimedOut => {
                w.write_u64(8);
            },
            BuildStatus::MiscFailure => {
                w.write_u64(9);
            },
            BuildStatus::DependencyFailed => {
                w.write_u64(10);
            },
            BuildStatus::LogLimitExceeded => {
                w.write_u64(11);
            },
            BuildStatus::NotDeterministic => {
                w.write_u64(12);
            },
            BuildStatus::ResolvesToAlreadyValid => {
                w.write_u64(13);
            },
            BuildStatus::NoSubstituters => {
                w.write_u64(14);
            },
        }
    }

    fn decode(r: &mut NixDeserializer) -> (res: Result<Self, Error>) {
        let t = match r.read_u64() {
            Ok(t) => t,
            Err(e) => {
                return Err(e);
            },
        };
        if t >= 15 {
            return Err(Error::UnknownTag(t));
        }
        proof {
            lemma_dec_u64_sound(old(r).data@, old(r).pos as int);
            lemma_le_bytes_len(t as nat, 8);
        }
        let v = match t {
            0 => BuildStatus::Built,
            1 => BuildStatus::Substituted,
            2 => BuildStatus::AlreadyValid,
            3 => BuildStatus::PermanentFailure,
            4 => BuildStatus::InputRejected,
            5 => BuildStatus::OutputRejected,
            6 => BuildStatus::TransientFailure,
            7 => BuildStatus::CachedFailure,
            8 => BuildStatus::TimedOut,
            9 => BuildStatus::MiscFailure,
            10 => BuildStatus::DependencyFailed,
            11 => BuildStatus::LogLimitExceeded,
            12 => BuildStatus::NotDeterministic,
            13 => BuildStatus::ResolvesToAlreadyValid,
            14 => BuildStatus::NoSubstituters,
            _ => {
                return Err(Error::UnknownTag(t));
            },
        };
        Ok(v)
    }
}

/// What the garbage collector is asked to do.
#[derive(Debug, Clone, Copy, PartialEq, Eq, Structural)]
pub enum GcAction {
    ReturnLive,
    ReturnDead,
    DeleteDead,
    DeleteSpecific,
}

impl GcAction {
    /// The wire tag of this variant.
    pub open spec fn tag(self) -> u64 {
        match self {
            GcAction::ReturnLive => 0,
            GcAction::ReturnDead => 1,
            GcAction::DeleteDead => 2,
            GcAction::DeleteSpecific => 3,
        }
    }
}

impl Wire for GcAction {
    open spec fn enc(self) -> Seq<u8> {
        u64_le(self.tag())
    }

    open spec fn rec(data: Seq<u8>, pos: int) -> Option<int> {
        match dec_u64(data, pos) {
            Option::None => Option::None,
            Option::Some((t, p)) => if t < 4 {
                Option::Some(p)
            } else {
                Option::None
            },
        }
    }

    open spec fn exact() -> bool {
        true
    }

    proof fn lemma_complete(data: Seq<u8>, pos: int, v: Self) {
        lemma_dec_u64_complete(data, pos, v.tag());
        lemma_le_bytes_len(v.tag() as nat, 8);
    }

    fn encode(&self, w: &mut NixSerializer) {
        match self {
            GcAction::ReturnLive => {
                w.write_u64(0);
            },
            GcAction::ReturnDead => {
                w.write_u64(1);
            },
            GcAction::DeleteDead => {
                w.write_u64(2);
            },
            GcAction::DeleteSpecific => {
                w.write_u64(3);
            },
        }
    }

    fn decode(r: &mut NixDeserializer) -> (res: Result<Self, Error>) {
        let t = match r.read_u64() {
            Ok(t) => t,
            Err(e) => {
                return Err(e);
            },
        };
        if t >= 4 {
            return Err(Error::UnknownTag(t));
        }
        proof {
            lemma_dec_u64_sound(old(r).data@, old(r).pos as int);
            lemma_le_bytes_len(t as nat, 8);
        }
        let v = match t {
            0 => GcAction::ReturnLive,
            1 => GcAction::ReturnDead,
            2 => GcAction::DeleteDead,
            3 => GcAction::DeleteSpecific,
            _ => {
                return Err(Error::UnknownTag(t));
            },
        };
        Ok(v)
    }
}

/// The client's option block.
#[derive(Debug, Clone, PartialEq, Eq)]
pub struct SetOptions {
    pub keep_failing: bool,
    pub keep_going: bool,
    pub try_fallback: bool,
    pub verbosity: Verbosity,
    pub max_build_jobs: u64,
    pub max_silent_time: u64,
    pub use_build_hook: u64,
    pub build_verbosity: Verbosity,
    pub log_type: u64,
    pub print_build_trace: u64,
    pub build_cores: u64,
    pub use_substitutes: bool,
    pub options: Vec<(NixString, NixString)>,
}

impl SetOptions {
    pub open spec fn repr(self) -> (bool, (bool, (bool, (Verbosity, (u64, (u64, (u64, (Verbosity, (u64, (u64, (u64, (bool, Vec<(NixString, NixString)>)))))))))))) {
        (self.keep_failing, (self.keep_going, (self.try_fallback, (self.verbosity, (self.max_build_jobs, (self.max_silent_time, (self.use_build_hook, (self.build_verbosity, (self.log_type, (self.print_build_trace, (self.build_cores, (self.use_substitutes, self.options))))))))))))
    }
}

impl Wire for SetOptions {
    open spec fn enc(self) -> Seq<u8> {
        self.repr().enc()
    }

    open spec fn rec(data: Seq<u8>, pos: int) -> Option<int> {
        <(bool, (bool, (bool, (Verbosity, (u64, (u64, (u64, (Verbosity, (u64, (u64, (u64, (bool, Vec<(NixString, NixString)>)))))))))))) as Wire>::rec(data, pos)
    }

    open spec fn exact() -> bool {
        <(bool, (bool, (bool, (Verbosity, (u64, (u64, (u64, (Verbosity, (u64, (u64, (u64, (bool, Vec<(NixString, NixString)>)))))))))))) as Wire>::exact()
    }

    proof fn lemma_complete(data: Seq<u8>, pos: int, v: Self) {
        <(bool, (bool, (bool, (Verbosity, (u64, (u64, (u64, (Verbosity, (u64, (u64, (u64, (bool, Vec<(NixString, NixString)>)))))))))))) as Wire>::lemma_complete(data, pos, v.repr());
    }

    #[verifier::rlimit(100)]
    fn encode(&self, w: &mut NixSerializer) {
        self.keep_failing.encode(w);
        self.keep_going.encode(w);
        self.try_fallback.encode(w);
        self.verbosity.encode(w);
        self.max_build_jobs.encode(w);
        self.max_silent_time.encode(w);
        self.use_build_hook.encode(w);
        self.build_verbosity.encode(w);
        self.log_type.encode(w);
        self.print_build_trace.encode(w);
        self.build_cores.encode(w);
        self.use_substitutes.encode(w);
        self.options.encode(w);
        proof {
            crate::serialize::lemma_assoc13(
                old(w).out@,
                self.keep_failing.enc(),
                self.keep_going.enc(),
                self.try_fallback.enc(),
                self.verbosity.enc(),
                self.max_build_jobs.enc(),
                self.max_silent_time.enc(),
                self.use_build_hook.enc(),
                self.build_verbosity.enc(),
                self.log_type.enc(),
                self.print_build_trace.enc(),
                self.build_cores.enc(),
                self.use_substitutes.enc(),
                self.options.enc(),
            );
        }
    }

    #[verifier::rlimit(100)]
    fn decode(r: &mut NixDeserializer) -> (res: Result<Self, Error>) {
        match <(bool, (bool, (bool, (Verbosity, (u64, (u64, (u64, (Verbosity, (u64, (u64, (u64, (bool, Vec<(NixString, NixString)>)))))))))))) as Wire>::decode(r) {
            Ok((keep_failing, (keep_going, (try_fallback, (verbosity, (max_build_jobs, (max_silent_time, (use_build_hook, (build_verbosity, (log_type, (print_build_trace, (build_cores, (use_substitutes, options))))))))))))) => Ok(SetOptions { keep_failing, keep_going, try_fallback, verbosity, max_build_jobs, max_silent_time, use_build_hook, build_verbosity, log_type, print_build_trace, build_cores, use_substitutes, options }),
            Err(e) => Err(e),
        }
    }
}

/// The request head of an AddToStore operation; the bulk\n/// payload follows as a framed stream.
#[derive(Debug, Clone, PartialEq, Eq)]
pub struct AddToStore {
    pub name: StorePath,
    pub cam_str: StorePath,
    pub refs: StorePathSet,
    pub repair: bool,
    pub framed: FramedData,
}

impl AddToStore {
    pub open spec fn repr(self) -> (StorePath, (StorePath, (StorePathSet, bool))) {
        (self.name, (self.cam_str, (self.refs, self.repair)))
    }
}

impl Wire for AddToStore {
    open spec fn enc(self) -> Seq<u8> {
        self.repr().enc()
    }

    open spec fn rec(data: Seq<u8>, pos: int) -> Option<int> {
        <(StorePath, (StorePath, (StorePathSet, bool))) as Wire>::rec(data, pos)
    }

    open spec fn exact() -> bool {
        <(StorePath, (StorePath, (StorePathSet, bool))) as Wire>::exact()
    }

    proof fn lemma_complete(data: Seq<u8>, pos: int, v: Self) {
        <(StorePath, (StorePath, (StorePathSet, bool))) as Wire>::lemma_complete(data, pos, v.repr());
    }

    fn encode(&self, w: &mut NixSerializer) {
        self.name.encode(w);
        self.cam_str.encode(w);
        self.refs.encode(w);
        self.repair.encode(w);
        proof {
            crate::serialize::lemma_assoc4(
                old(w).out@,
                self.name.enc(),
                self.cam_str.enc(),
                self.refs.enc(),
                self.repair.enc(),
            );
        }
    }

    fn decode(r: &mut NixDeserializer) -> (res: Result<Self, Error>) {
        match <(StorePath, (StorePath, (StorePathSet, bool))) as Wire>::decode(r) {
            Ok((name, (cam_str, (refs, repair)))) => Ok(AddToStore { name, cam_str, refs, repair, framed: FramedData::new() }),
            Err(e) => Err(e),
        }
    }
}

/// A request to build a list of paths.
#[derive(Debug, Clone, PartialEq, Eq)]
pub struct BuildPaths {
    pub paths: Vec<StorePath>,
    pub build_mode: BuildMode,
}

impl BuildPaths {
    pub open spec fn repr(self) -> (Vec<StorePath>, BuildMode) {
        (self.paths, self.build_mode)
    }
}

impl Wire for BuildPaths {
    open spec fn enc(self) -> Seq<u8> {
        self.repr().enc()
    }

    open spec fn rec(data: Seq<u8>, pos: int) -> Option<int> {
        <(Vec<StorePath>, BuildMode) as Wire>::rec(data, pos)
    }

    open spec fn exact() -> bool {
        <(Vec<StorePath>, BuildMode) as Wire>::exact()
    }

    proof fn lemma_complete(data: Seq<u8>, pos: int, v: Self) {
        <(Vec<StorePath>, BuildMode) as Wire>::lemma_complete(data, pos, v.repr());
    }

    fn encode(&self, w: &mut NixSerializer) {
        self.paths.encode(w);
        self.build_mode.encode(w);
        proof {
            crate::serialize::lemma_assoc2(
                old(w).out@,
                self.paths.enc(),
                self.build_mode.enc(),
            );
        }
    }

    fn decode(r: &mut NixDeserializer) -> (res: Result<Self, Error>) {
        match <(Vec<StorePath>, BuildMode) as Wire>::decode(r) {
            Ok((paths, build_mode)) => Ok(BuildPaths { paths, build_mode }),
            Err(e) => Err(e),
        }
    }
}

/// A request for what a build would still need.
#[derive(Debug, Clone, PartialEq, Eq)]
pub struct QueryMissing {
    pub paths: Vec<StorePath>,
}

impl QueryMissing {
    pub open spec fn repr(self) -> Vec<StorePath> {
        self.paths
    }
}

impl Wire for QueryMissing {
    open spec fn enc(self) -> Seq<u8> {
        self.repr().enc()
    }

    open spec fn rec(data: Seq<u8>, pos: int) -> Option<int> {
        <Vec<StorePath> as Wire>::rec(data, pos)
    }

    open spec fn exact() -> bool {
        <Vec<StorePath> as Wire>::exact()
    }

    proof fn lemma_complete(data: Seq<u8>, pos: int, v: Self) {
        <Vec<StorePath> as Wire>::lemma_complete(data, pos, v.repr());
    }

    fn encode(&self, w: &mut NixSerializer) {
        self.paths.encode(w);
        proof {
            assert(final(w).out@ =~= old(w).out@ + self.repr().enc());
        }
    }

    fn decode(r: &mut NixDeserializer) -> (res: Result<Self, Error>) {
        match <Vec<StorePath> as Wire>::decode(r) {
            Ok(paths) => Ok(QueryMissing { paths }),
            Err(e) => Err(e),
        }
    }
}

/// The optional path info returned by QueryPathInfo.
#[derive(Debug, Clone, PartialEq, Eq)]
pub struct QueryPathInfoResponse {
    pub path: Option<ValidPathInfo>,
}

impl QueryPathInfoResponse {
    pub open spec fn repr(self) -> Option<ValidPathInfo> {
        self.path
    }
}

impl Wire for QueryPathInfoResponse {
    open spec fn enc(self) -> Seq<u8> {
        self.repr().enc()
    }

    open spec fn rec(data: Seq<u8>, pos: int) -> Option<int> {
        <Option<ValidPathInfo> as Wire>::rec(data, pos)
    }

    open spec fn exact() -> bool {
        <Option<ValidPathInfo> as Wire>::exact()
    }

    proof fn lemma_complete(data: Seq<u8>, pos: int, v: Self) {
        <Option<ValidPathInfo> as Wire>::lemma_complete(data, pos, v.repr());
    }

    fn encode(&self, w: &mut NixSerializer) {
        self.path.encode(w);
        proof {
            assert(final(w).out@ =~= old(w).out@ + self.repr().enc());
        }
    }

    fn decode(r: &mut NixDeserializer) -> (res: Result<Self, Error>) {
        match <Option<ValidPathInfo> as Wire>::decode(r) {
            Ok(path) => Ok(QueryPathInfoResponse { path }),
            Err(e) => Err(e),
        }
    }
}

/// What a build would still need.
#[derive(Debug, Clone, PartialEq, Eq)]
pub struct QueryMissingResponse {
    pub will_build: StorePathSet,
    pub will_substitute: StorePathSet,
    pub unknown: StorePathSet,
    pub download_size: u64,
    pub nar_size: u64,
}

impl QueryMissingResponse {
    pub open spec fn repr(self) -> (StorePathSet, (StorePathSet, (StorePathSet, (u64, u64)))) {
        (self.will_build, (self.will_substitute, (self.unknown, (self.download_size, self.nar_size))))
    }
}

impl Wire for QueryMissingResponse {
    open spec fn enc(self) -> Seq<u8> {
        self.repr().enc()
    }

    open spec fn rec(data: Seq<u8>, pos: int) -> Option<int> {
        <(StorePathSet, (StorePathSet, (StorePathSet, (u64, u64)))) as Wire>::rec(data, pos)
    }

    open spec fn exact() -> bool {
        <(StorePathSet, (StorePathSet, (StorePathSet, (u64, u64)))) as Wire>::exact()
    }

    proof fn lemma_complete(data: Seq<u8>, pos: int, v: Self) {
        <(StorePathSet, (StorePathSet, (StorePathSet, (u64, u64)))) as Wire>::lemma_complete(data, pos, v.repr());
    }

    fn encode(&self, w: &mut NixSerializer) {
        self.will_build.encode(w);
        self.will_substitute.encode(w);
        self.unknown.encode(w);
        self.download_size.encode(w);
        self.nar_size.encode(w);
        proof {
            crate::serialize::lemma_assoc5(
                old(w).out@,
                self.will_build.enc(),
                self.will_substitute.enc(),
                self.unknown.enc(),
                self.download_size.enc(),
                self.nar_size.enc(),
            );
        }
    }

    fn decode(r: &mut NixDeserializer) -> (res: Result<Self, Error>) {
        match <(StorePathSet, (StorePathSet, (StorePathSet, (u64, u64)))) as Wire>::decode(r) {
            Ok((will_build, (will_substitute, (unknown, (download_size, nar_size))))) => Ok(QueryMissingResponse { will_build, will_substitute, unknown, download_size, nar_size }),
            Err(e) => Err(e),
        }
    }
}

/// The realised outputs of a build, keyed by output id.
#[derive(Debug, Clone, PartialEq, Eq)]
pub struct DrvOutputs(pub Vec<(NixString, Realisation)>);

impl Wire for DrvOutputs {
    open spec fn enc(self) -> Seq<u8> {
        self.0.enc()
    }

    open spec fn rec(data: Seq<u8>, pos: int) -> Option<int> {
        <Vec<(NixString, Realisation)> as Wire>::rec(data, pos)
    }

    open spec fn exact() -> bool {
        <Vec<(NixString, Realisation)> as Wire>::exact()
    }

    proof fn lemma_complete(data: Seq<u8>, pos: int, v: Self) {
        <Vec<(NixString, Realisation)> as Wire>::lemma_complete(data, pos, v.0);
    }

    fn encode(&self, w: &mut NixSerializer) {
        self.0.encode(w);
    }

    fn decode(r: &mut NixDeserializer) -> (res: Result<Self, Error>) {
        match <Vec<(NixString, Realisation)> as Wire>::decode(r) {
            Ok(v) => Ok(DrvOutputs(v)),
            Err(e) => Err(e),
        }
    }
}

/// The outcome of building one derivation.
#[derive(Debug, Clone, PartialEq, Eq)]
pub struct BuildResult {
    pub status: BuildStatus,
    pub error_msg: NixString,
    pub times_built: u64,
    pub is_non_deterministic: bool,
    pub start_time: u64,
    pub stop_time: u64,
    pub built_outputs: DrvOutputs,
}

impl BuildResult {
    pub open spec fn repr(self) -> (BuildStatus, (NixString, (u64, (bool, (u64, (u64, DrvOutputs)))))) {
        (self.status, (self.error_msg, (self.times_built, (self.is_non_deterministic, (self.start_time, (self.stop_time, self.built_outputs))))))
    }
}

impl Wire for BuildResult {
    open spec fn enc(self) -> Seq<u8> {
        self.repr().enc()
    }

    open spec fn rec(data: Seq<u8>, pos: int) -> Option<int> {
        <(BuildStatus, (NixString, (u64, (bool, (u64, (u64, DrvOutputs)))))) as Wire>::rec(data, pos)
    }

    open spec fn exact() -> bool {
        <(BuildStatus, (NixString, (u64, (bool, (u64, (u64, DrvOutputs)))))) as Wire>::exact()
    }

    proof fn lemma_complete(data: Seq<u8>, pos: int, v: Self) {
        <(BuildStatus, (NixString, (u64, (bool, (u64, (u64, DrvOutputs)))))) as Wire>::lemma_complete(data, pos, v.repr());
    }

    fn encode(&self, w: &mut NixSerializer) {
        self.status.encode(w);
        self.error_msg.encode(w);
        self.times_built.encode(w);
        self.is_non_deterministic.encode(w);
        self.start_time.encode(w);
        self.stop_time.encode(w);
        self.built_outputs.encode(w);
        proof {
            crate::serialize::lemma_assoc7(
                old(w).out@,
                self.status.enc(),
                self.error_msg.enc(),
                self.times_built.enc(),
                self.is_non_deterministic.enc(),
                self.start_time.enc(),
                self.stop_time.enc(),
                self.built_outputs.enc(),
            );
        }
    }

    fn decode(r: &mut NixDeserializer) -> (res: Result<Self, Error>) {
        match <(BuildStatus, (NixString, (u64, (bool, (u64, (u64, DrvOutputs)))))) as Wire>::decode(r) {
            Ok((status, (error_msg, (times_built, (is_non_deterministic, (start_time, (stop_time, built_outputs))))))) => Ok(BuildResult { status, error_msg, times_built, is_non_deterministic, start_time, stop_time, built_outputs }),
            Err(e) => Err(e),
        }
    }
}

/// A garbage-collection request.
#[derive(Debug, Clone, PartialEq, Eq)]
pub struct CollectGarbage {
    pub action: GcAction,
    pub paths_to_delete: StorePathSet,
    pub ignore_liveness: bool,
    pub max_freed: u64,
    pub obsolete0: u64,
    pub obsolete1: u64,
    pub obsolete2: u64,
}

impl CollectGarbage {
    pub open spec fn repr(self) -> (GcAction, (StorePathSet, (bool, (u64, (u64, (u64, u64)))))) {
        (self.action, (self.paths_to_delete, (self.ignore_liveness, (self.max_freed, (self.obsolete0, (self.obsolete1, self.obsolete2))))))
    }
}

impl Wire for CollectGarbage {
    open spec fn enc(self) -> Seq<u8> {
        self.repr().enc()
    }

    open spec fn rec(data: Seq<u8>, pos: int) -> Option<int> {
        <(GcAction, (StorePathSet, (bool, (u64, (u64, (u64, u64)))))) as Wire>::rec(data, pos)
    }

    open spec fn exact() -> bool {
        <(GcAction, (StorePathSet, (bool, (u64, (u64, (u64, u64)))))) as Wire>::exact()
    }

    proof fn lemma_complete(data: Seq<u8>, pos: int, v: Self) {
        <(GcAction, (StorePathSet, (bool, (u64, (u64, (u64, u64)))))) as Wire>::lemma_complete(data, pos, v.repr());
    }

    fn encode(&self, w: &mut NixSerializer) {
        self.action.encode(w);
        self.paths_to_delete.encode(w);
        self.ignore_liveness.encode(w);
        self.max_freed.encode(w);
        self.obsolete0.encode(w);
        self.obsolete1.encode(w);
        self.obsolete2.encode(w);
        proof {
            crate::serialize::lemma_assoc7(
                old(w).out@,
                self.action.enc(),
                self.paths_to_delete.enc(),
                self.ignore_liveness.enc(),
                self.max_freed.enc(),
                self.obsolete0.enc(),
                self.obsolete1.enc(),
                self.obsolete2.enc(),
            );
        }
    }

    fn decode(r: &mut NixDeserializer) -> (res: Result<Self, Error>) {
        match <(GcAction, (StorePathSet, (bool, (u64, (u64, (u64, u64)))))) as Wire>::decode(r) {
            Ok((action, (paths_to_delete, (ignore_liveness, (max_freed, (obsolete0, (obsolete1, obsolete2))))))) => Ok(CollectGarbage { action, paths_to_delete, ignore_liveness, max_freed, obsolete0, obsolete1, obsolete2 }),
            Err(e) => Err(e),
        }
    }
}

/// Output names mapped to optional store paths.
#[derive(Debug, Clone, PartialEq, Eq)]
pub struct DerivationOutputMap {
    pub paths: Vec<(NixString, StorePath)>,
}

impl DerivationOutputMap {
    pub open spec fn repr(self) -> Vec<(NixString, StorePath)> {
        self.paths
    }
}

impl Wire for DerivationOutputMap {
    open spec fn enc(self) -> Seq<u8> {
        self.repr().enc()
    }

    open spec fn rec(data: Seq<u8>, pos: int) -> Option<int> {
        <Vec<(NixString, StorePath)> as Wire>::rec(data, pos)
    }

    open spec fn exact() -> bool {
        <Vec<(NixString, StorePath)> as Wire>::exact()
    }

    proof fn lemma_complete(data: Seq<u8>, pos: int, v: Self) {
        <Vec<(NixString, StorePath)> as Wire>::lemma_complete(data, pos, v.repr());
    }

    fn encode(&self, w: &mut NixSerializer) {
        self.paths.encode(w);
        proof {
            assert(final(w).out@ =~= old(w).out@ + self.repr().enc());
        }
    }

    fn decode(r: &mut NixDeserializer) -> (res: Result<Self, Error>) {
        match <Vec<(NixString, StorePath)> as Wire>::decode(r) {
            Ok(paths) => Ok(DerivationOutputMap { paths }),
            Err(e) => Err(e),
        }
    }
}

/// What the garbage collector freed.
#[derive(Debug, Clone, PartialEq, Eq)]
pub struct CollectGarbageResponse {
    pub paths: PathSet,
    pub bytes_freed: u64,
    pub obsolete: u64,
}

impl CollectGarbageResponse {
    pub open spec fn repr(self) -> (PathSet, (u64, u64)) {
        (self.paths, (self.bytes_freed, self.obsolete))
    }
}

impl Wire for CollectGarbageResponse {
    open spec fn enc(self) -> Seq<u8> {
        self.repr().enc()
    }

    open spec fn rec(data: Seq<u8>, pos: int) -> Option<int> {
        <(PathSet, (u64, u64)) as Wire>::rec(data, pos)
    }

    open spec fn exact() -> bool {
        <(PathSet, (u64, u64)) as Wire>::exact()
    }

    proof fn lemma_complete(data: Seq<u8>, pos: int, v: Self) {
        <(PathSet, (u64, u64)) as Wire>::lemma_complete(data, pos, v.repr());
    }

    fn encode(&self, w: &mut NixSerializer) {
        self.paths.encode(w);
        self.bytes_freed.encode(w);
        self.obsolete.encode(w);
        proof {
            crate::serialize::lemma_assoc3(
                old(w).out@,
                self.paths.enc(),
                self.bytes_freed.enc(),
                self.obsolete.enc(),
            );
        }
    }

    fn decode(r: &mut NixDeserializer) -> (res: Result<Self, Error>) {
        match <(PathSet, (u64, u64)) as Wire>::decode(r) {
            Ok((paths, (bytes_freed, obsolete))) => Ok(CollectGarbageResponse { paths, bytes_freed, obsolete }),
            Err(e) => Err(e),
        }
    }
}

/// The request head of an AddToStoreNar operation; the NAR\n/// payload follows as a framed stream.
#[derive(Debug, Clone, PartialEq, Eq)]
pub struct AddToStoreNar {
    pub path: StorePath,
    pub deriver: StorePath,
    pub nar_hash: NixString,
    pub references: StorePathSet,
    pub registration_time: u64,
    pub nar_size: u64,
    pub ultimate: bool,
    pub sigs: StringSet,
    pub content_address: NixString,
    pub repair: bool,
    pub dont_check_sigs: bool,
    pub framed: FramedData,
}

impl AddToStoreNar {
    pub open spec fn repr(self) -> (StorePath, (StorePath, (NixString, (StorePathSet, (u64, (u64, (bool, (StringSet, (NixString, (bool, bool)))))))))) {
        (self.path, (self.deriver, (self.nar_hash, (self.references, (self.registration_time, (self.nar_size, (self.ultimate, (self.sigs, (self.content_address, (self.repair, self.dont_check_sigs))))))))))
    }
}

impl Wire for AddToStoreNar {
    open spec fn enc(self) -> Seq<u8> {
        self.repr().enc()
    }

    open spec fn rec(data: Seq<u8>, pos: int) -> Option<int> {
        <(StorePath, (StorePath, (NixString, (StorePathSet, (u64, (u64, (bool, (StringSet, (NixString, (bool, bool)))))))))) as Wire>::rec(data, pos)
    }

    open spec fn exact() -> bool {
        <(StorePath, (StorePath, (NixString, (StorePathSet, (u64, (u64, (bool, (StringSet, (NixString, (bool, bool)))))))))) as Wire>::exact()
    }

    proof fn lemma_complete(data: Seq<u8>, pos: int, v: Self) {
        <(StorePath, (StorePath, (NixString, (StorePathSet, (u64, (u64, (bool, (StringSet, (NixString, (bool, bool)))))))))) as Wire>::lemma_complete(data, pos, v.repr());
    }

    #[verifier::rlimit(100)]
    fn encode(&self, w: &mut NixSerializer) {
        self.path.encode(w);
        self.deriver.encode(w);
        self.nar_hash.encode(w);
        self.references.encode(w);
        self.registration_time.encode(w);
        self.nar_size.encode(w);
        self.ultimate.encode(w);
        self.sigs.encode(w);
        self.content_address.encode(w);
        self.repair.encode(w);
        self.dont_check_sigs.encode(w);
        proof {
            crate::serialize::lemma_assoc11(
                old(w).out@,
                self.path.enc(),
                self.deriver.enc(),
                self.nar_hash.enc(),
                self.references.enc(),
                self.registration_time.enc(),
                self.nar_size.enc(),
                self.ultimate.enc(),
                self.sigs.enc(),
                self.content_address.enc(),
                self.repair.enc(),
                self.dont_check_sigs.enc(),
            );
        }
    }

    #[verifier::rlimit(100)]
    fn decode(r: &mut NixDeserializer) -> (res: Result<Self, Error>) {
        match <(StorePath, (StorePath, (NixString, (StorePathSet, (u64, (u64, (bool, (StringSet, (NixString, (bool, bool)))))))))) as Wire>::decode(r) {
            Ok((path, (deriver, (nar_hash, (references, (registration_time, (nar_size, (ultimate, (sigs, (content_address, (repair, dont_check_sigs))))))))))) => Ok(AddToStoreNar { path, deriver, nar_hash, references, registration_time, nar_size, ultimate, sigs, content_address, repair, dont_check_sigs, framed: FramedData::new() }),
            Err(e) => Err(e),
        }
    }
}

/// The garbage-collector roots.
#[derive(Debug, Clone, PartialEq, Eq)]
pub struct FindRootsResponse {
    pub roots: Vec<(Path, StorePath)>,
}

impl FindRootsResponse {
    pub open spec fn repr(self) -> Vec<(Path, StorePath)> {
        self.roots
    }
}

impl Wire for FindRootsResponse {
    open spec fn enc(self) -> Seq<u8> {
        self.repr().enc()
    }

    open spec fn rec(data: Seq<u8>, pos: int) -> Option<int> {
        <Vec<(Path, StorePath)> as Wire>::rec(data, pos)
    }

    open spec fn exact() -> bool {
        <Vec<(Path, StorePath)> as Wire>::exact()
    }

    proof fn lemma_complete(data: Seq<u8>, pos: int, v: Self) {
        <Vec<(Path, StorePath)> as Wire>::lemma_complete(data, pos, v.repr());
    }

    fn encode(&self, w: &mut NixSerializer) {
        self.roots.encode(w);
        proof {
            assert(final(w).out@ =~= old(w).out@ + self.repr().enc());
        }
    }

    fn decode(r: &mut NixDeserializer) -> (res: Result<Self, Error>) {
        match <Vec<(Path, StorePath)> as Wire>::decode(r) {
            Ok(roots) => Ok(FindRootsResponse { roots }),
            Err(e) => Err(e),
        }
    }
}

/// A validity query over a set of paths.
#[derive(Debug, Clone, PartialEq, Eq)]
pub struct QueryValidPaths {
    pub paths: StorePathSet,
    pub builders_use_substitutes: bool,
}

impl QueryValidPaths {
    pub open spec fn repr(self) -> (StorePathSet, bool) {
        (self.paths, self.builders_use_substitutes)
    }
}

impl Wire for QueryValidPaths {
    open spec fn enc(self) -> Seq<u8> {
        self.repr().enc()
    }

    open spec fn rec(data: Seq<u8>, pos: int) -> Option<int> {
        <(StorePathSet, bool) as Wire>::rec(data, pos)
    }

    open spec fn exact() -> bool {
        <(StorePathSet, bool) as Wire>::exact()
    }

    proof fn lemma_complete(data: Seq<u8>, pos: int, v: Self) {
        <(StorePathSet, bool) as Wire>::lemma_complete(data, pos, v.repr());
    }

    fn encode(&self, w: &mut NixSerializer) {
        self.paths.encode(w);
        self.builders_use_substitutes.encode(w);
        proof {
            crate::serialize::lemma_assoc2(
                old(w).out@,
                self.paths.enc(),
                self.builders_use_substitutes.enc(),
            );
        }
    }

    fn decode(r: &mut NixDeserializer) -> (res: Result<Self, Error>) {
        match <(StorePathSet, bool) as Wire>::decode(r) {
            Ok((paths, builders_use_substitutes)) => Ok(QueryValidPaths { paths, builders_use_substitutes }),
            Err(e) => Err(e),
        }
    }
}

/// The request head of an AddMultipleToStore operation; the\n/// payload follows as a framed stream.
#[derive(Debug, Clone, PartialEq, Eq)]
pub struct AddMultipleToStore {
    pub repair: bool,
    pub dont_check_sigs: bool,
    pub framed: FramedData,
}

impl AddMultipleToStore {
    pub open spec fn repr(self) -> (bool, bool) {
        (self.repair, self.dont_check_sigs)
    }
}

impl Wire for AddMultipleToStore {
    open spec fn enc(self) -> Seq<u8> {
        self.repr().enc()
    }

    open spec fn rec(data: Seq<u8>, pos: int) -> Option<int> {
        <(bool, bool) as Wire>::rec(data, pos)
    }

    open spec fn exact() -> bool {
        <(bool, bool) as Wire>::exact()
    }

    proof fn lemma_complete(data: Seq<u8>, pos: int, v: Self) {
        <(bool, bool) as Wire>::lemma_complete(data, pos, v.repr());
    }

    fn encode(&self, w: &mut NixSerializer) {
        self.repair.encode(w);
        self.dont_check_sigs.encode(w);
        proof {
            crate::serialize::lemma_assoc2(
                old(w).out@,
                self.repair.enc(),
                self.dont_check_sigs.enc(),
            );
        }
    }

    fn decode(r: &mut NixDeserializer) -> (res: Result<Self, Error>) {
        match <(bool, bool) as Wire>::decode(r) {
            Ok((repair, dont_check_sigs)) => Ok(AddMultipleToStore { repair, dont_check_sigs, framed: FramedData::new() }),
            Err(e) => Err(e),
        }
    }
}

/// Everything the daemon records about a valid path.
#[derive(Debug, Clone, PartialEq, Eq)]
pub struct ValidPathInfo {
    pub deriver: StorePath,
    pub hash: NarHash,
    pub references: StorePathSet,
    pub registration_time: u64,
    pub nar_size: u64,
    pub ultimate: bool,
    pub sigs: StringSet,
    pub content_address: NixString,
}

impl ValidPathInfo {
    pub open spec fn repr(self) -> (StorePath, (NarHash, (StorePathSet, (u64, (u64, (bool, (StringSet, NixString))))))) {
        (self.deriver, (self.hash, (self.references, (self.registration_time, (self.nar_size, (self.ultimate, (self.sigs, self.content_address)))))))
    }
}

impl Wire for ValidPathInfo {
    open spec fn enc(self) -> Seq<u8> {
        self.repr().enc()
    }

    open spec fn rec(data: Seq<u8>, pos: int) -> Option<int> {
        <(StorePath, (NarHash, (StorePathSet, (u64, (u64, (bool, (StringSet, NixString))))))) as Wire>::rec(data, pos)
    }

    open spec fn exact() -> bool {
        <(StorePath, (NarHash, (StorePathSet, (u64, (u64, (bool, (StringSet, NixString))))))) as Wire>::exact()
    }

    proof fn lemma_complete(data: Seq<u8>, pos: int, v: Self) {
        <(StorePath, (NarHash, (StorePathSet, (u64, (u64, (bool, (StringSet, NixString))))))) as Wire>::lemma_complete(data, pos, v.repr());
    }

    #[verifier::rlimit(100)]
    fn encode(&self, w: &mut NixSerializer) {
        self.deriver.encode(w);
        self.hash.encode(w);
        self.references.encode(w);
        self.registration_time.encode(w);
        self.nar_size.encode(w);
        self.ultimate.encode(w);
        self.sigs.encode(w);
        self.content_address.encode(w);
        proof {
            crate::serialize::lemma_assoc8(
                old(w).out@,
                self.deriver.enc(),
                self.hash.enc(),
                self.references.enc(),
                self.registration_time.enc(),
                self.nar_size.enc(),
                self.ultimate.enc(),
                self.sigs.enc(),
                self.content_address.enc(),
            );
        }
    }

    #[verifier::rlimit(100)]
    fn decode(r: &mut NixDeserializer) -> (res: Result<Self, Error>) {
        match <(StorePath, (NarHash, (StorePathSet, (u64, (u64, (bool, (StringSet, NixString))))))) as Wire>::decode(r) {
            Ok((deriver, (hash, (references, (registration_time, (nar_size, (ultimate, (sigs, content_address)))))))) => Ok(ValidPathInfo { deriver, hash, references, registration_time, nar_size, ultimate, sigs, content_address }),
            Err(e) => Err(e),
        }
    }
}

/// A store-verification request.
#[derive(Debug, Clone, PartialEq, Eq)]
pub struct VerifyStore {
    pub check_contents: bool,
    pub repair: bool,
}

impl VerifyStore {
    pub open spec fn repr(self) -> (bool, bool) {
        (self.check_contents, self.repair)
    }
}

impl Wire for VerifyStore {
    open spec fn enc(self) -> Seq<u8> {
        self.repr().enc()
    }

    open spec fn rec(data: Seq<u8>, pos: int) -> Option<int> {
        <(bool, bool) as Wire>::rec(data, pos)
    }

    open spec fn exact() -> bool {
        <(bool, bool) as Wire>::exact()
    }

    proof fn lemma_complete(data: Seq<u8>, pos: int, v: Self) {
        <(bool, bool) as Wire>::lemma_complete(data, pos, v.repr());
    }

    fn encode(&self, w: &mut NixSerializer) {
        self.check_contents.encode(w);
        self.repair.encode(w);
        proof {
            crate::serialize::lemma_assoc2(
                old(w).out@,
                self.check_contents.enc(),
                self.repair.enc(),
            );
        }
    }

    fn decode(r: &mut NixDeserializer) -> (res: Result<Self, Error>) {
        match <(bool, bool) as Wire>::decode(r) {
            Ok((check_contents, repair)) => Ok(VerifyStore { check_contents, repair }),
            Err(e) => Err(e),
        }
    }
}

/// A request to add signatures to a path.
#[derive(Debug, Clone, PartialEq, Eq)]
pub struct AddSignatures {
    pub path: StorePath,
    pub signatures: StringSet,
}

impl AddSignatures {
    pub open spec fn repr(self) -> (StorePath, StringSet) {
        (self.path, self.signatures)
    }
}

impl Wire for AddSignatures {
    open spec fn enc(self) -> Seq<u8> {
        self.repr().enc()
    }

    open spec fn rec(data: Seq<u8>, pos: int) -> Option<int> {
        <(StorePath, StringSet) as Wire>::rec(data, pos)
    }

    open spec fn exact() -> bool {
        <(StorePath, StringSet) as Wire>::exact()
    }

    proof fn lemma_complete(data: Seq<u8>, pos: int, v: Self) {
        <(StorePath, StringSet) as Wire>::lemma_complete(data, pos, v.repr());
    }

    fn encode(&self, w: &mut NixSerializer) {
        self.path.encode(w);
        self.signatures.encode(w);
        proof {
            crate::serialize::lemma_assoc2(
                old(w).out@,
                self.path.enc(),
                self.signatures.enc(),
            );
        }
    }

    fn decode(r: &mut NixDeserializer) -> (res: Result<Self, Error>) {
        match <(StorePath, StringSet) as Wire>::decode(r) {
            Ok((path, signatures)) => Ok(AddSignatures { path, signatures }),
            Err(e) => Err(e),
        }
    }
}

/// The request head of an AddBuildLog operation; the log\n/// follows as a framed stream.
#[derive(Debug, Clone, PartialEq, Eq)]
pub struct AddBuildLog {
    pub path: StorePath,
    pub framed: FramedData,
}

impl AddBuildLog {
    pub open spec fn repr(self) -> StorePath {
        self.path
    }
}

impl Wire for AddBuildLog {
    open spec fn enc(self) -> Seq<u8> {
        self.repr().enc()
    }

    open spec fn rec(data: Seq<u8>, pos: int) -> Option<int> {
        <StorePath as Wire>::rec(data, pos)
    }

    open spec fn exact() -> bool {
        <StorePath as Wire>::exact()
    }

    proof fn lemma_complete(data: Seq<u8>, pos: int, v: Self) {
        <StorePath as Wire>::lemma_complete(data, pos, v.repr());
    }

    fn encode(&self, w: &mut NixSerializer) {
        self.path.encode(w);
        proof {
            assert(final(w).out@ =~= old(w).out@ + self.repr().enc());
        }
    }

    fn decode(r: &mut NixDeserializer) -> (res: Result<Self, Error>) {
        match <StorePath as Wire>::decode(r) {
            Ok(path) => Ok(AddBuildLog { path, framed: FramedData::new() }),
            Err(e) => Err(e),
        }
    }
}

/// A request to build one derivation.
#[derive(Debug, Clone, PartialEq, Eq)]
pub struct BuildDerivation {
    pub store_path: StorePath,
    pub derivation: Derivation,
    pub build_mode: BuildMode,
}

impl BuildDerivation {
    pub open spec fn repr(self) -> (StorePath, (Derivation, BuildMode)) {
        (self.store_path, (self.derivation, self.build_mode))
    }
}

impl Wire for BuildDerivation {
    open spec fn enc(self) -> Seq<u8> {
        self.repr().enc()
    }

    open spec fn rec(data: Seq<u8>, pos: int) -> Option<int> {
        <(StorePath, (Derivation, BuildMode)) as Wire>::rec(data, pos)
    }

    open spec fn exact() -> bool {
        <(StorePath, (Derivation, BuildMode)) as Wire>::exact()
    }

    proof fn lemma_complete(data: Seq<u8>, pos: int, v: Self) {
        <(StorePath, (Derivation, BuildMode)) as Wire>::lemma_complete(data, pos, v.repr());
    }

    fn encode(&self, w: &mut NixSerializer) {
        self.store_path.encode(w);
        self.derivation.encode(w);
        self.build_mode.encode(w);
        proof {
            crate::serialize::lemma_assoc3(
                old(w).out@,
                self.store_path.enc(),
                self.derivation.enc(),
                self.build_mode.enc(),
            );
        }
    }

    fn decode(r: &mut NixDeserializer) -> (res: Result<Self, Error>) {
        match <(StorePath, (Derivation, BuildMode)) as Wire>::decode(r) {
            Ok((store_path, (derivation, build_mode))) => Ok(BuildDerivation { store_path, derivation, build_mode }),
            Err(e) => Err(e),
        }
    }
}

/// An unparsed derivation.
#[derive(Debug, Clone, PartialEq, Eq)]
pub struct Derivation {
    pub outputs: Vec<(NixString, DerivationOutput)>,
    pub input_sources: StorePathSet,
    pub platform: NixString,
    pub builder: Path,
    pub args: StringSet,
    pub env: Vec<(NixString, NixString)>,
}

impl Derivation {
    pub open spec fn repr(self) -> (Vec<(NixString, DerivationOutput)>, (StorePathSet, (NixString, (Path, (StringSet, Vec<(NixString, NixString)>))))) {
        (self.outputs, (self.input_sources, (self.platform, (self.builder, (self.args, self.env)))))
    }
}

impl Wire for Derivation {
    open spec fn enc(self) -> Seq<u8> {
        self.repr().enc()
    }

    open spec fn rec(data: Seq<u8>, pos: int) -> Option<int> {
        <(Vec<(NixString, DerivationOutput)>, (StorePathSet, (NixString, (Path, (StringSet, Vec<(NixString, NixString)>))))) as Wire>::rec(data, pos)
    }

    open spec fn exact() -> bool {
        <(Vec<(NixString, DerivationOutput)>, (StorePathSet, (NixString, (Path, (StringSet, Vec<(NixString, NixString)>))))) as Wire>::exact()
    }

    proof fn lemma_complete(data: Seq<u8>, pos: int, v: Self) {
        <(Vec<(NixString, DerivationOutput)>, (StorePathSet, (NixString, (Path, (StringSet, Vec<(NixString, NixString)>))))) as Wire>::lemma_complete(data, pos, v.repr());
    }

    fn encode(&self, w: &mut NixSerializer) {
        self.outputs.encode(w);
        self.input_sources.encode(w);
        self.platform.encode(w);
        self.builder.encode(w);
        self.args.encode(w);
        self.env.encode(w);
        proof {
            crate::serialize::lemma_assoc6(
                old(w).out@,
                self.outputs.enc(),
                self.input_sources.enc(),
                self.platform.enc(),
                self.builder.enc(),
                self.args.enc(),
                self.env.enc(),
            );
        }
    }

    fn decode(r: &mut NixDeserializer) -> (res: Result<Self, Error>) {
        match <(Vec<(NixString, DerivationOutput)>, (StorePathSet, (NixString, (Path, (StringSet, Vec<(NixString, NixString)>))))) as Wire>::decode(r) {
            Ok((outputs, (input_sources, (platform, (builder, (args, env)))))) => Ok(Derivation { outputs, input_sources, platform, builder, args, env }),
            Err(e) => Err(e),
        }
    }
}

/// One output of a derivation.
#[derive(Debug, Clone, PartialEq, Eq)]
pub struct DerivationOutput {
    pub store_path: StorePath,
    pub method_or_hash: NixString,
    pub hash_or_impure: NixString,
}

impl DerivationOutput {
    pub open spec fn repr(self) -> (StorePath, (NixString, NixString)) {
        (self.store_path, (self.method_or_hash, self.hash_or_impure))
    }
}

impl Wire for DerivationOutput {
    open spec fn enc(self) -> Seq<u8> {
        self.repr().enc()
    }

    open spec fn rec(data: Seq<u8>, pos: int) -> Option<int> {
        <(StorePath, (NixString, NixString)) as Wire>::rec(data, pos)
    }

    open spec fn exact() -> bool {
        <(StorePath, (NixString, NixString)) as Wire>::exact()
    }

    proof fn lemma_complete(data: Seq<u8>, pos: int, v: Self) {
        <(StorePath, (NixString, NixString)) as Wire>::lemma_complete(data, pos, v.repr());
    }

    fn encode(&self, w: &mut NixSerializer) {
        self.store_path.encode(w);
        self.method_or_hash.encode(w);
        self.hash_or_impure.encode(w);
        proof {
            crate::serialize::lemma_assoc3(
                old(w).out@,
                self.store_path.enc(),
                self.method_or_hash.enc(),
                self.hash_or_impure.enc(),
            );
        }
    }

    fn decode(r: &mut NixDeserializer) -> (res: Result<Self, Error>) {
        match <(StorePath, (NixString, NixString)) as Wire>::decode(r) {
            Ok((store_path, (method_or_hash, hash_or_impure))) => Ok(DerivationOutput { store_path, method_or_hash, hash_or_impure }),
            Err(e) => Err(e),
        }
    }
}

/// The different worker operations.
///
/// On the wire, each is its opcode followed by the request body. The
/// second member of each variant marks the expected response type.
#[derive(Debug, PartialEq, Eq)]
pub enum WorkerOp {
    IsValidPath(Plain<StorePath>, Resp<bool>),
    QueryReferrers(Plain<StorePath>, Resp<StorePathSet>),
    AddToStore(WithFramedSource<AddToStore>, Resp<ValidPathInfoWithPath>),
    BuildPaths(Plain<BuildPaths>, Resp<u64>),
    EnsurePath(Plain<StorePath>, Resp<u64>),
    AddTempRoot(Plain<StorePath>, Resp<u64>),
    FindRoots(Plain<()>, Resp<FindRootsResponse>),
    SetOptions(Plain<SetOptions>, Resp<()>),
    CollectGarbage(Plain<CollectGarbage>, Resp<CollectGarbageResponse>),
    QueryAllValidPaths(Plain<()>, Resp<StorePathSet>),
    QueryPathInfo(Plain<StorePath>, Resp<QueryPathInfoResponse>),
    QueryPathFromHashPart(Plain<NixString>, Resp<StorePath>),
    QueryValidPaths(Plain<QueryValidPaths>, Resp<StorePathSet>),
    QuerySubstitutablePaths(Plain<StorePathSet>, Resp<StorePathSet>),
    QueryValidDerivers(Plain<StorePath>, Resp<StorePathSet>),
    OptimiseStore(Plain<()>, Resp<u64>),
    VerifyStore(Plain<VerifyStore>, Resp<bool>),
    BuildDerivation(Plain<BuildDerivation>, Resp<BuildResult>),
    AddSignatures(Plain<AddSignatures>, Resp<u64>),
    NarFromPath(Plain<StorePath>, Resp<Nar>),
    AddToStoreNar(WithFramedSource<AddToStoreNar>, Resp<()>),
    QueryMissing(Plain<QueryMissing>, Resp<QueryMissingResponse>),
    QueryDerivationOutputMap(Plain<StorePath>, Resp<DerivationOutputMap>),
    RegisterDrvOutput(Plain<Realisation>, Resp<()>),
    QueryRealisation(Plain<NixString>, Resp<RealisationSet>),
    AddMultipleToStore(WithFramedSource<AddMultipleToStore>, Resp<()>),
    AddBuildLog(WithFramedSource<AddBuildLog>, Resp<u64>),
    BuildPathsWithResults(Plain<BuildPaths>, Resp<Vec<(DerivedPath, BuildResult)>>),
}

/// A type whose request may be followed by a framed byte stream.
pub trait StreamingRecv {
    /// Whether a framed stream follows the request.
    spec fn streams(&self) -> bool;

    /// Whether a framed stream follows the request.
    fn requires_streaming(&self) -> (r: bool)
        ensures
            r == self.streams(),
    ;
}

impl StreamingRecv for WorkerOp {
    open spec fn streams(&self) -> bool {
        op_streams(*self)
    }

    fn requires_streaming(&self) -> (r: bool) {
        match self {
            WorkerOp::IsValidPath(_, _) => false,
            WorkerOp::QueryReferrers(_, _) => false,
            WorkerOp::AddToStore(_, _) => true,
            WorkerOp::BuildPaths(_, _) => false,
            WorkerOp::EnsurePath(_, _) => false,
            WorkerOp::AddTempRoot(_, _) => false,
            WorkerOp::FindRoots(_, _) => false,
            WorkerOp::SetOptions(_, _) => false,
            WorkerOp::CollectGarbage(_, _) => false,
            WorkerOp::QueryAllValidPaths(_, _) => false,
            WorkerOp::QueryPathInfo(_, _) => false,
            WorkerOp::QueryPathFromHashPart(_, _) => false,
            WorkerOp::QueryValidPaths(_, _) => false,
            WorkerOp::QuerySubstitutablePaths(_, _) => false,
            WorkerOp::QueryValidDerivers(_, _) => false,
            WorkerOp::OptimiseStore(_, _) => false,
            WorkerOp::VerifyStore(_, _) => false,
            WorkerOp::BuildDerivation(_, _) => false,
            WorkerOp::AddSignatures(_, _) => false,
            WorkerOp::NarFromPath(_, _) => false,
            WorkerOp::AddToStoreNar(_, _) => true,
            WorkerOp::QueryMissing(_, _) => false,
            WorkerOp::QueryDerivationOutputMap(_, _) => false,
            WorkerOp::RegisterDrvOutput(_, _) => false,
            WorkerOp::QueryRealisation(_, _) => false,
            WorkerOp::AddMultipleToStore(_, _) => true,
            WorkerOp::AddBuildLog(_, _) => true,
            WorkerOp::BuildPathsWithResults(_, _) => false,
        }
    }
}

/// The opcode of an operation.
pub open spec fn op_tag(op: WorkerOp) -> u64 {
    match op {
            WorkerOp::IsValidPath(_, _) => 1,
            WorkerOp::QueryReferrers(_, _) => 6,
            WorkerOp::AddToStore(_, _) => 7,
            WorkerOp::BuildPaths(_, _) => 9,
            WorkerOp::EnsurePath(_, _) => 10,
            WorkerOp::AddTempRoot(_, _) => 11,
            WorkerOp::FindRoots(_, _) => 14,
            WorkerOp::SetOptions(_, _) => 19,
            WorkerOp::CollectGarbage(_, _) => 20,
            WorkerOp::QueryAllValidPaths(_, _) => 23,
            WorkerOp::QueryPathInfo(_, _) => 26,
            WorkerOp::QueryPathFromHashPart(_, _) => 29,
            WorkerOp::QueryValidPaths(_, _) => 31,
            WorkerOp::QuerySubstitutablePaths(_, _) => 32,
            WorkerOp::QueryValidDerivers(_, _) => 33,
            WorkerOp::OptimiseStore(_, _) => 34,
            WorkerOp::VerifyStore(_, _) => 35,
            WorkerOp::BuildDerivation(_, _) => 36,
            WorkerOp::AddSignatures(_, _) => 37,
            WorkerOp::NarFromPath(_, _) => 38,
            WorkerOp::AddToStoreNar(_, _) => 39,
            WorkerOp::QueryMissing(_, _) => 40,
            WorkerOp::QueryDerivationOutputMap(_, _) => 41,
            WorkerOp::RegisterDrvOutput(_, _) => 42,
            WorkerOp::QueryRealisation(_, _) => 43,
            WorkerOp::AddMultipleToStore(_, _) => 44,
            WorkerOp::AddBuildLog(_, _) => 45,
            WorkerOp::BuildPathsWithResults(_, _) => 46,
    }
}

/// The encoding of an operation: its opcode, then its request body.
/// A framed payload, where one follows, is not part of this encoding.
pub open spec fn enc_op(op: WorkerOp) -> Seq<u8> {
    match op {
            WorkerOp::IsValidPath(x, _) => u64_le(1) + x.enc(),
            WorkerOp::QueryReferrers(x, _) => u64_le(6) + x.enc(),
            WorkerOp::AddToStore(x, _) => u64_le(7) + x.enc(),
            WorkerOp::BuildPaths(x, _) => u64_le(9) + x.enc(),
            WorkerOp::EnsurePath(x, _) => u64_le(10) + x.enc(),
            WorkerOp::AddTempRoot(x, _) => u64_le(11) + x.enc(),
            WorkerOp::FindRoots(x, _) => u64_le(14) + x.enc(),
            WorkerOp::SetOptions(x, _) => u64_le(19) + x.enc(),
            WorkerOp::CollectGarbage(x, _) => u64_le(20) + x.enc(),
            WorkerOp::QueryAllValidPaths(x, _) => u64_le(23) + x.enc(),
            WorkerOp::QueryPathInfo(x, _) => u64_le(26) + x.enc(),
            WorkerOp::QueryPathFromHashPart(x, _) => u64_le(29) + x.enc(),
            WorkerOp::QueryValidPaths(x, _) => u64_le(31) + x.enc(),
            WorkerOp::QuerySubstitutablePaths(x, _) => u64_le(32) + x.enc(),
            WorkerOp::QueryValidDerivers(x, _) => u64_le(33) + x.enc(),
            WorkerOp::OptimiseStore(x, _) => u64_le(34) + x.enc(),
            WorkerOp::VerifyStore(x, _) => u64_le(35) + x.enc(),
            WorkerOp::BuildDerivation(x, _) => u64_le(36) + x.enc(),
            WorkerOp::AddSignatures(x, _) => u64_le(37) + x.enc(),
            WorkerOp::NarFromPath(x, _) => u64_le(38) + x.enc(),
            WorkerOp::AddToStoreNar(x, _) => u64_le(39) + x.enc(),
            WorkerOp::QueryMissing(x, _) => u64_le(40) + x.enc(),
            WorkerOp::QueryDerivationOutputMap(x, _) => u64_le(41) + x.enc(),
            WorkerOp::RegisterDrvOutput(x, _) => u64_le(42) + x.enc(),
            WorkerOp::QueryRealisation(x, _) => u64_le(43) + x.enc(),
            WorkerOp::AddMultipleToStore(x, _) => u64_le(44) + x.enc(),
            WorkerOp::AddBuildLog(x, _) => u64_le(45) + x.enc(),
            WorkerOp::BuildPathsWithResults(x, _) => u64_le(46) + x.enc(),
    }
}

/// Whether an opcode names an operation.
pub open spec fn known_op(t: u64) -> bool {
    ||| t == 1
        ||| t == 6
        ||| t == 7
        ||| t == 9
        ||| t == 10
        ||| t == 11
        ||| t == 14
        ||| t == 19
        ||| t == 20
        ||| t == 23
        ||| t == 26
        ||| t == 29
        ||| t == 31
        ||| t == 32
        ||| t == 33
        ||| t == 34
        ||| t == 35
        ||| t == 36
        ||| t == 37
        ||| t == 38
        ||| t == 39
        ||| t == 40
        ||| t == 41
        ||| t == 42
        ||| t == 43
        ||| t == 44
        ||| t == 45
        ||| t == 46
}

/// The end of a well-formed opcode-and-request encoding at pos.
pub open spec fn rec_op(data: Seq<u8>, pos: int) -> Option<int> {
    match dec_u64(data, pos) {
        Option::None => Option::None,
        Option::Some((t, p)) => {
            if t == 1 {
                <StorePath as Wire>::rec(data, p)
            } else if t == 6 {
                <StorePath as Wire>::rec(data, p)
            } else if t == 7 {
                <AddToStore as Wire>::rec(data, p)
            } else if t == 9 {
                <BuildPaths as Wire>::rec(data, p)
            } else if t == 10 {
                <StorePath as Wire>::rec(data, p)
            } else if t == 11 {
                <StorePath as Wire>::rec(data, p)
            } else if t == 14 {
                <() as Wire>::rec(data, p)
            } else if t == 19 {
                <SetOptions as Wire>::rec(data, p)
            } else if t == 20 {
                <CollectGarbage as Wire>::rec(data, p)
            } else if t == 23 {
                <() as Wire>::rec(data, p)
            } else if t == 26 {
                <StorePath as Wire>::rec(data, p)
            } else if t == 29 {
                <NixString as Wire>::rec(data, p)
            } else if t == 31 {
                <QueryValidPaths as Wire>::rec(data, p)
            } else if t == 32 {
                <StorePathSet as Wire>::rec(data, p)
            } else if t == 33 {
                <StorePath as Wire>::rec(data, p)
            } else if t == 34 {
                <() as Wire>::rec(data, p)
            } else if t == 35 {
                <VerifyStore as Wire>::rec(data, p)
            } else if t == 36 {
                <BuildDerivation as Wire>::rec(data, p)
            } else if t == 37 {
                <AddSignatures as Wire>::rec(data, p)
            } else if t == 38 {
                <StorePath as Wire>::rec(data, p)
            } else if t == 39 {
                <AddToStoreNar as Wire>::rec(data, p)
            } else if t == 40 {
                <QueryMissing as Wire>::rec(data, p)
            } else if t == 41 {
                <StorePath as Wire>::rec(data, p)
            } else if t == 42 {
                <Realisation as Wire>::rec(data, p)
            } else if t == 43 {
                <NixString as Wire>::rec(data, p)
            } else if t == 44 {
                <AddMultipleToStore as Wire>::rec(data, p)
            } else if t == 45 {
                <AddBuildLog as Wire>::rec(data, p)
            } else if t == 46 {
                <BuildPaths as Wire>::rec(data, p)
            } else {
                Option::None
            }
        },
    }
}

/// Whether a framed stream follows the request.
pub open spec fn op_streams(op: WorkerOp) -> bool {
    match op {
            WorkerOp::IsValidPath(_, _) => false,
            WorkerOp::QueryReferrers(_, _) => false,
            WorkerOp::AddToStore(_, _) => true,
            WorkerOp::BuildPaths(_, _) => false,
            WorkerOp::EnsurePath(_, _) => false,
            WorkerOp::AddTempRoot(_, _) => false,
            WorkerOp::FindRoots(_, _) => false,
            WorkerOp::SetOptions(_, _) => false,
            WorkerOp::CollectGarbage(_, _) => false,
            WorkerOp::QueryAllValidPaths(_, _) => false,
            WorkerOp::QueryPathInfo(_, _) => false,
            WorkerOp::QueryPathFromHashPart(_, _) => false,
            WorkerOp::QueryValidPaths(_, _) => false,
            WorkerOp::QuerySubstitutablePaths(_, _) => false,
            WorkerOp::QueryValidDerivers(_, _) => false,
            WorkerOp::OptimiseStore(_, _) => false,
            WorkerOp::VerifyStore(_, _) => false,
            WorkerOp::BuildDerivation(_, _) => false,
            WorkerOp::AddSignatures(_, _) => false,
            WorkerOp::NarFromPath(_, _) => false,
            WorkerOp::AddToStoreNar(_, _) => true,
            WorkerOp::QueryMissing(_, _) => false,
            WorkerOp::QueryDerivationOutputMap(_, _) => false,
            WorkerOp::RegisterDrvOutput(_, _) => false,
            WorkerOp::QueryRealisation(_, _) => false,
            WorkerOp::AddMultipleToStore(_, _) => true,
            WorkerOp::AddBuildLog(_, _) => true,
            WorkerOp::BuildPathsWithResults(_, _) => false,
    }
}

/// The framed payload chunks carried by a streaming operation.
pub open spec fn op_chunks(op: WorkerOp) -> Seq<Seq<u8>> {
    match op {
            WorkerOp::AddToStore(x, _) => x.0.framed.chunks(),
            WorkerOp::AddToStoreNar(x, _) => x.0.framed.chunks(),
            WorkerOp::AddMultipleToStore(x, _) => x.0.framed.chunks(),
            WorkerOp::AddBuildLog(x, _) => x.0.framed.chunks(),
            _ => Seq::empty(),
    }
}

/// The bytes of the framed payload that follow a streaming operation's
/// request on the wire; empty for the other operations.
pub open spec fn op_framed_enc(op: WorkerOp) -> Seq<u8> {
    if op_streams(op) {
        enc_framed(op_chunks(op))
    } else {
        Seq::empty()
    }
}


/// Whether a framed stream follows the request with this opcode.
pub open spec fn tag_streams(t: u64) -> bool {
    t == 7 || t == 39 || t == 44 || t == 45
}

/// Whether decoding this operation's request is byte-exact; requests
/// holding boolean fields are not, since any nonzero word reads as
/// true.
pub open spec fn op_exact(op: WorkerOp) -> bool {
    match op {
        WorkerOp::IsValidPath(_, _) => <Plain<StorePath> as Wire>::exact(),
        WorkerOp::QueryReferrers(_, _) => <Plain<StorePath> as Wire>::exact(),
        WorkerOp::AddToStore(_, _) => <WithFramedSource<AddToStore> as Wire>::exact(),
        WorkerOp::BuildPaths(_, _) => <Plain<BuildPaths> as Wire>::exact(),
        WorkerOp::EnsurePath(_, _) => <Plain<StorePath> as Wire>::exact(),
        WorkerOp::AddTempRoot(_, _) => <Plain<StorePath> as Wire>::exact(),
        WorkerOp::FindRoots(_, _) => <Plain<()> as Wire>::exact(),
        WorkerOp::SetOptions(_, _) => <Plain<SetOptions> as Wire>::exact(),
        WorkerOp::CollectGarbage(_, _) => <Plain<CollectGarbage> as Wire>::exact(),
        WorkerOp::QueryAllValidPaths(_, _) => <Plain<()> as Wire>::exact(),
        WorkerOp::QueryPathInfo(_, _) => <Plain<StorePath> as Wire>::exact(),
        WorkerOp::QueryPathFromHashPart(_, _) => <Plain<NixString> as Wire>::exact(),
        WorkerOp::QueryValidPaths(_, _) => <Plain<QueryValidPaths> as Wire>::exact(),
        WorkerOp::QuerySubstitutablePaths(_, _) => <Plain<StorePathSet> as Wire>::exact(),
        WorkerOp::QueryValidDerivers(_, _) => <Plain<StorePath> as Wire>::exact(),
        WorkerOp::OptimiseStore(_, _) => <Plain<()> as Wire>::exact(),
        WorkerOp::VerifyStore(_, _) => <Plain<VerifyStore> as Wire>::exact(),
        WorkerOp::BuildDerivation(_, _) => <Plain<BuildDerivation> as Wire>::exact(),
        WorkerOp::AddSignatures(_, _) => <Plain<AddSignatures> as Wire>::exact(),
        WorkerOp::NarFromPath(_, _) => <Plain<StorePath> as Wire>::exact(),
        WorkerOp::AddToStoreNar(_, _) => <WithFramedSource<AddToStoreNar> as Wire>::exact(),
        WorkerOp::QueryMissing(_, _) => <Plain<QueryMissing> as Wire>::exact(),
        WorkerOp::QueryDerivationOutputMap(_, _) => <Plain<StorePath> as Wire>::exact(),
        WorkerOp::RegisterDrvOutput(_, _) => <Plain<Realisation> as Wire>::exact(),
        WorkerOp::QueryRealisation(_, _) => <Plain<NixString> as Wire>::exact(),
        WorkerOp::AddMultipleToStore(_, _) => <WithFramedSource<AddMultipleToStore> as Wire>::exact(),
        WorkerOp::AddBuildLog(_, _) => <WithFramedSource<AddBuildLog> as Wire>::exact(),
        WorkerOp::BuildPathsWithResults(_, _) => <Plain<BuildPaths> as Wire>::exact(),
    }
}

/// An operation is well formed when its framed payload, if any, has no
/// empty chunk.
pub open spec fn op_wf(op: WorkerOp) -> bool {
    op_streams(op) ==> framed_wf(op_chunks(op))
}

/// An operation's encoding starts with its opcode word.
pub proof fn lemma_op_tag_word(data: Seq<u8>, pos: int, o: WorkerOp)
    requires
        enc_at(data, pos, enc_op(o)),
    ensures
        dec_u64(data, pos) == Some((op_tag(o), pos + 8)),
        op_streams(o) == tag_streams(op_tag(o)),
    decreases o,
{
    let body = match o {
        WorkerOp::IsValidPath(x, _) => x.enc(),
        WorkerOp::QueryReferrers(x, _) => x.enc(),
        WorkerOp::AddToStore(x, _) => x.enc(),
        WorkerOp::BuildPaths(x, _) => x.enc(),
        WorkerOp::EnsurePath(x, _) => x.enc(),
        WorkerOp::AddTempRoot(x, _) => x.enc(),
        WorkerOp::FindRoots(x, _) => x.enc(),
        WorkerOp::SetOptions(x, _) => x.enc(),
        WorkerOp::CollectGarbage(x, _) => x.enc(),
        WorkerOp::QueryAllValidPaths(x, _) => x.enc(),
        WorkerOp::QueryPathInfo(x, _) => x.enc(),
        WorkerOp::QueryPathFromHashPart(x, _) => x.enc(),
        WorkerOp::QueryValidPaths(x, _) => x.enc(),
        WorkerOp::QuerySubstitutablePaths(x, _) => x.enc(),
        WorkerOp::QueryValidDerivers(x, _) => x.enc(),
        WorkerOp::OptimiseStore(x, _) => x.enc(),
        WorkerOp::VerifyStore(x, _) => x.enc(),
        WorkerOp::BuildDerivation(x, _) => x.enc(),
        WorkerOp::AddSignatures(x, _) => x.enc(),
        WorkerOp::NarFromPath(x, _) => x.enc(),
        WorkerOp::AddToStoreNar(x, _) => x.enc(),
        WorkerOp::QueryMissing(x, _) => x.enc(),
        WorkerOp::QueryDerivationOutputMap(x, _) => x.enc(),
        WorkerOp::RegisterDrvOutput(x, _) => x.enc(),
        WorkerOp::QueryRealisation(x, _) => x.enc(),
        WorkerOp::AddMultipleToStore(x, _) => x.enc(),
        WorkerOp::AddBuildLog(x, _) => x.enc(),
        WorkerOp::BuildPathsWithResults(x, _) => x.enc(),
    };
    assert(enc_op(o) == u64_le(op_tag(o)) + body);
    lemma_enc_at_split(data, pos, u64_le(op_tag(o)), body);
    lemma_dec_u64_complete(data, pos, op_tag(o));
}

/// The recognizer accepts every opcode-and-request encoding, exactly.
#[verifier::spinoff_prover]
#[verifier::rlimit(100)]
pub proof fn lemma_op_complete(data: Seq<u8>, pos: int, o: WorkerOp)
    requires
        enc_at(data, pos, enc_op(o)),
    ensures
        rec_op(data, pos) == Some(pos + enc_op(o).len() as int),
{
    match o {
            WorkerOp::IsValidPath(x, _) => {
                lemma_le_bytes_len(1, 8);
                lemma_enc_at_split(data, pos, u64_le(1), x.enc());
                lemma_dec_u64_complete(data, pos, 1);
                <Plain<StorePath> as Wire>::lemma_complete(data, pos + 8, x);
            },
            WorkerOp::QueryReferrers(x, _) => {
                lemma_le_bytes_len(6, 8);
                lemma_enc_at_split(data, pos, u64_le(6), x.enc());
                lemma_dec_u64_complete(data, pos, 6);
                <Plain<StorePath> as Wire>::lemma_complete(data, pos + 8, x);
            },
            WorkerOp::AddToStore(x, _) => {
                lemma_le_bytes_len(7, 8);
                lemma_enc_at_split(data, pos, u64_le(7), x.enc());
                lemma_dec_u64_complete(data, pos, 7);
                <WithFramedSource<AddToStore> as Wire>::lemma_complete(data, pos + 8, x);
            },
            WorkerOp::BuildPaths(x, _) => {
                lemma_le_bytes_len(9, 8);
                lemma_enc_at_split(data, pos, u64_le(9), x.enc());
                lemma_dec_u64_complete(data, pos, 9);
                <Plain<BuildPaths> as Wire>::lemma_complete(data, pos + 8, x);
            },
            WorkerOp::EnsurePath(x, _) => {
                lemma_le_bytes_len(10, 8);
                lemma_enc_at_split(data, pos, u64_le(10), x.enc());
                lemma_dec_u64_complete(data, pos, 10);
                <Plain<StorePath> as Wire>::lemma_complete(data, pos + 8, x);
            },
            WorkerOp::AddTempRoot(x, _) => {
                lemma_le_bytes_len(11, 8);
                lemma_enc_at_split(data, pos, u64_le(11), x.enc());
                lemma_dec_u64_complete(data, pos, 11);
                <Plain<StorePath> as Wire>::lemma_complete(data, pos + 8, x);
            },
            WorkerOp::FindRoots(x, _) => {
                lemma_le_bytes_len(14, 8);
                lemma_enc_at_split(data, pos, u64_le(14), x.enc());
                lemma_dec_u64_complete(data, pos, 14);
                <Plain<()> as Wire>::lemma_complete(data, pos + 8, x);
            },
            WorkerOp::SetOptions(x, _) => {
                lemma_le_bytes_len(19, 8);
                lemma_enc_at_split(data, pos, u64_le(19), x.enc());
                lemma_dec_u64_complete(data, pos, 19);
                <Plain<SetOptions> as Wire>::lemma_complete(data, pos + 8, x);
            },
            WorkerOp::CollectGarbage(x, _) => {
                lemma_le_bytes_len(20, 8);
                lemma_enc_at_split(data, pos, u64_le(20), x.enc());
                lemma_dec_u64_complete(data, pos, 20);
                <Plain<CollectGarbage> as Wire>::lemma_complete(data, pos + 8, x);
            },
            WorkerOp::QueryAllValidPaths(x, _) => {
                lemma_le_bytes_len(23, 8);
                lemma_enc_at_split(data, pos, u64_le(23), x.enc());
                lemma_dec_u64_complete(data, pos, 23);
                <Plain<()> as Wire>::lemma_complete(data, pos + 8, x);
            },
            WorkerOp::QueryPathInfo(x, _) => {
                lemma_le_bytes_len(26, 8);
                lemma_enc_at_split(data, pos, u64_le(26), x.enc());
                lemma_dec_u64_complete(data, pos, 26);
                <Plain<StorePath> as Wire>::lemma_complete(data, pos + 8, x);
            },
            WorkerOp::QueryPathFromHashPart(x, _) => {
                lemma_le_bytes_len(29, 8);
                lemma_enc_at_split(data, pos, u64_le(29), x.enc());
                lemma_dec_u64_complete(data, pos, 29);
                <Plain<NixString> as Wire>::lemma_complete(data, pos + 8, x);
            },
            WorkerOp::QueryValidPaths(x, _) => {
                lemma_le_bytes_len(31, 8);
                lemma_enc_at_split(data, pos, u64_le(31), x.enc());
                lemma_dec_u64_complete(data, pos, 31);
                <Plain<QueryValidPaths> as Wire>::lemma_complete(data, pos + 8, x);
            },
            WorkerOp::QuerySubstitutablePaths(x, _) => {
                lemma_le_bytes_len(32, 8);
                lemma_enc_at_split(data, pos, u64_le(32), x.enc());
                lemma_dec_u64_complete(data, pos, 32);
                <Plain<StorePathSet> as Wire>::lemma_complete(data, pos + 8, x);
            },
            WorkerOp::QueryValidDerivers(x, _) => {
                lemma_le_bytes_len(33, 8);
                lemma_enc_at_split(data, pos, u64_le(33), x.enc());
                lemma_dec_u64_complete(data, pos, 33);
                <Plain<StorePath> as Wire>::lemma_complete(data, pos + 8, x);
            },
            WorkerOp::OptimiseStore(x, _) => {
                lemma_le_bytes_len(34, 8);
                lemma_enc_at_split(data, pos, u64_le(34), x.enc());
                lemma_dec_u64_complete(data, pos, 34);
                <Plain<()> as Wire>::lemma_complete(data, pos + 8, x);
            },
            WorkerOp::VerifyStore(x, _) => {
                lemma_le_bytes_len(35, 8);
                lemma_enc_at_split(data, pos, u64_le(35), x.enc());
                lemma_dec_u64_complete(data, pos, 35);
                <Plain<VerifyStore> as Wire>::lemma_complete(data, pos + 8, x);
            },
            WorkerOp::BuildDerivation(x, _) => {
                lemma_le_bytes_len(36, 8);
                lemma_enc_at_split(data, pos, u64_le(36), x.enc());
                lemma_dec_u64_complete(data, pos, 36);
                <Plain<BuildDerivation> as Wire>::lemma_complete(data, pos + 8, x);
            },
            WorkerOp::AddSignatures(x, _) => {
                lemma_le_bytes_len(37, 8);
                lemma_enc_at_split(data, pos, u64_le(37), x.enc());
                lemma_dec_u64_complete(data, pos, 37);
                <Plain<AddSignatures> as Wire>::lemma_complete(data, pos + 8, x);
            },
            WorkerOp::NarFromPath(x, _) => {
                lemma_le_bytes_len(38, 8);
                lemma_enc_at_split(data, pos, u64_le(38), x.enc());
                lemma_dec_u64_complete(data, pos, 38);
                <Plain<StorePath> as Wire>::lemma_complete(data, pos + 8, x);
            },
            WorkerOp::AddToStoreNar(x, _) => {
                lemma_le_bytes_len(39, 8);
                lemma_enc_at_split(data, pos, u64_le(39), x.enc());
                lemma_dec_u64_complete(data, pos, 39);
                <WithFramedSource<AddToStoreNar> as Wire>::lemma_complete(data, pos + 8, x);
            },
            WorkerOp::QueryMissing(x, _) => {
                lemma_le_bytes_len(40, 8);
                lemma_enc_at_split(data, pos, u64_le(40), x.enc());
                lemma_dec_u64_complete(data, pos, 40);
                <Plain<QueryMissing> as Wire>::lemma_complete(data, pos + 8, x);
            },
            WorkerOp::QueryDerivationOutputMap(x, _) => {
                lemma_le_bytes_len(41, 8);
                lemma_enc_at_split(data, pos, u64_le(41), x.enc());
                lemma_dec_u64_complete(data, pos, 41);
                <Plain<StorePath> as Wire>::lemma_complete(data, pos + 8, x);
            },
            WorkerOp::RegisterDrvOutput(x, _) => {
                lemma_le_bytes_len(42, 8);
                lemma_enc_at_split(data, pos, u64_le(42), x.enc());
                lemma_dec_u64_complete(data, pos, 42);
                <Plain<Realisation> as Wire>::lemma_complete(data, pos + 8, x);
            },
            WorkerOp::QueryRealisation(x, _) => {
                lemma_le_bytes_len(43, 8);
                lemma_enc_at_split(data, pos, u64_le(43), x.enc());
                lemma_dec_u64_complete(data, pos, 43);
                <Plain<NixString> as Wire>::lemma_complete(data, pos + 8, x);
            },
            WorkerOp::AddMultipleToStore(x, _) => {
                lemma_le_bytes_len(44, 8);
                lemma_enc_at_split(data, pos, u64_le(44), x.enc());
                lemma_dec_u64_complete(data, pos, 44);
                <WithFramedSource<AddMultipleToStore> as Wire>::lemma_complete(data, pos + 8, x);
            },
            WorkerOp::AddBuildLog(x, _) => {
                lemma_le_bytes_len(45, 8);
                lemma_enc_at_split(data, pos, u64_le(45), x.enc());
                lemma_dec_u64_complete(data, pos, 45);
                <WithFramedSource<AddBuildLog> as Wire>::lemma_complete(data, pos + 8, x);
            },
            WorkerOp::BuildPathsWithResults(x, _) => {
                lemma_le_bytes_len(46, 8);
                lemma_enc_at_split(data, pos, u64_le(46), x.enc());
                lemma_dec_u64_complete(data, pos, 46);
                <Plain<BuildPaths> as Wire>::lemma_complete(data, pos + 8, x);
            },
    }
}


/// Decode one request body after its opcode: the consumed bytes, with
/// the opcode word before them, are exactly the opcode-and-request
/// encoding.
fn parse_body<T: Wire>(
    r: &mut NixDeserializer,
    Ghost(gpos): Ghost<int>,
    Ghost(t): Ghost<u64>,
) -> (res: Result<T, Error>)
    requires
        old(r).wf(),
        dec_u64(old(r).data@, gpos) == Some((t, old(r).pos as int)),
    ensures
        final(r).wf(),
        final(r).data == old(r).data,
        match res {
            Ok(v) => {
                &&& old(r).pos <= final(r).pos
                &&& gpos <= old(r).pos as int
                &&& T::rec(old(r).data@, old(r).pos as int) == Some(final(r).pos as int)
                &&& final(r).pos - gpos == 8 + v.enc().len()
                &&& T::exact() ==> old(r).data@.subrange(gpos, final(r).pos as int) == u64_le(t)
                    + v.enc()
            },
            Err(_) => T::rec(old(r).data@, old(r).pos as int) is None,
        },
{
    let ghost data = old(r).data@;
    let ghost mid = old(r).pos as int;
    let res = T::decode(r);
    proof {
        if res is Ok {
            lemma_dec_u64_sound(data, gpos);
            lemma_le_bytes_len(t as nat, 8);
            if T::exact() {
                lemma_subrange_concat(data, gpos, mid, r.pos as int);
            }
        }
    }
    res
}

impl WorkerOp {
    /// Decode an opcode and its request body, without any framed
    /// payload. An opcode that names no operation is a protocol error
    /// carrying the opcode.
    pub fn decode_op(r: &mut NixDeserializer) -> (res: Result<WorkerOp, Error>)
        requires
            old(r).wf(),
        ensures
            final(r).wf(),
            final(r).data == old(r).data,
            match res {
                Ok(op) => {
                    &&& old(r).pos <= final(r).pos
                    &&& rec_op(old(r).data@, old(r).pos as int) == Some(final(r).pos as int)
                    &&& final(r).pos - old(r).pos == enc_op(op).len()
                    &&& (dec_u64(old(r).data@, old(r).pos as int) matches Some((t, _)) && op_tag(
                        op,
                    ) == t)
                    &&& op_exact(op) ==> old(r).data@.subrange(
                        old(r).pos as int,
                        final(r).pos as int,
                    ) == enc_op(op)
                },
                Err(_) => rec_op(old(r).data@, old(r).pos as int) is None,
            },
            dec_u64(old(r).data@, old(r).pos as int) is None ==> res == Err::<WorkerOp, Error>(
                Error::Truncated,
            ),
            dec_u64(old(r).data@, old(r).pos as int) matches Some((t, _)) ==> (known_op(t)
                || res == Err::<WorkerOp, Error>(Error::UnknownTag(t))),
    {
        let ghost gpos = old(r).pos as int;
        let t = match r.read_u64() {
            Ok(t) => t,
            Err(e) => {
                return Err(e);
            },
        };
        if t == 1 || t == 6 || t == 7 || t == 9 || t == 10 || t == 11 || t == 14 {
            WorkerOp::decode_group_0(r, Ghost(gpos), t)
        } else if t == 19 || t == 20 || t == 23 || t == 26 || t == 29 || t == 31 || t == 32 {
            WorkerOp::decode_group_1(r, Ghost(gpos), t)
        } else if t == 33 || t == 34 || t == 35 || t == 36 || t == 37 || t == 38 || t == 39 {
            WorkerOp::decode_group_2(r, Ghost(gpos), t)
        } else if t == 40 || t == 41 || t == 42 || t == 43 || t == 44 || t == 45 || t == 46 {
            WorkerOp::decode_group_3(r, Ghost(gpos), t)
        } else {
            Err(Error::UnknownTag(t))
        }
    }

    /// Decode the request body of one opcode group.
    #[verifier::spinoff_prover]
    #[verifier::rlimit(100)]
    fn decode_group_0(r: &mut NixDeserializer, Ghost(gpos): Ghost<int>, t: u64) -> (res: Result<
        WorkerOp,
        Error,
    >)
        requires
            old(r).wf(),
            dec_u64(old(r).data@, gpos) == Some((t, old(r).pos as int)),
            t == 1 || t == 6 || t == 7 || t == 9 || t == 10 || t == 11 || t == 14,
        ensures
            final(r).wf(),
            final(r).data == old(r).data,
            match res {
                Ok(op) => {
                    &&& old(r).pos <= final(r).pos
                    &&& gpos <= old(r).pos as int
                    &&& rec_op(old(r).data@, gpos) == Some(final(r).pos as int)
                    &&& final(r).pos - gpos == enc_op(op).len()
                    &&& op_tag(op) == t
                    &&& op_exact(op) ==> old(r).data@.subrange(gpos, final(r).pos as int)
                        == enc_op(op)
                },
                Err(_) => rec_op(old(r).data@, gpos) is None,
            },
    {
        if t == 1 {
            match parse_body::<Plain<StorePath>>(r, Ghost(gpos), Ghost(t)) {
                Ok(x) => {
                    proof {
                        lemma_le_bytes_len(t as nat, 8);
                    }
                    Ok(WorkerOp::IsValidPath(x, Resp::new()))
                },
                Err(e) => Err(e),
            }
        } else if t == 6 {
            match parse_body::<Plain<StorePath>>(r, Ghost(gpos), Ghost(t)) {
                Ok(x) => {
                    proof {
                        lemma_le_bytes_len(t as nat, 8);
                    }
                    Ok(WorkerOp::QueryReferrers(x, Resp::new()))
                },
                Err(e) => Err(e),
            }
        } else if t == 7 {
            match parse_body::<WithFramedSource<AddToStore>>(r, Ghost(gpos), Ghost(t)) {
                Ok(x) => {
                    proof {
                        lemma_le_bytes_len(t as nat, 8);
                    }
                    Ok(WorkerOp::AddToStore(x, Resp::new()))
                },
                Err(e) => Err(e),
            }
        } else if t == 9 {
            match parse_body::<Plain<BuildPaths>>(r, Ghost(gpos), Ghost(t)) {
                Ok(x) => {
                    proof {
                        lemma_le_bytes_len(t as nat, 8);
                    }
                    Ok(WorkerOp::BuildPaths(x, Resp::new()))
                },
                Err(e) => Err(e),
            }
        } else if t == 10 {
            match parse_body::<Plain<StorePath>>(r, Ghost(gpos), Ghost(t)) {
                Ok(x) => {
                    proof {
                        lemma_le_bytes_len(t as nat, 8);
                    }
                    Ok(WorkerOp::EnsurePath(x, Resp::new()))
                },
                Err(e) => Err(e),
            }
        } else if t == 11 {
            match parse_body::<Plain<StorePath>>(r, Ghost(gpos), Ghost(t)) {
                Ok(x) => {
                    proof {
                        lemma_le_bytes_len(t as nat, 8);
                    }
                    Ok(WorkerOp::AddTempRoot(x, Resp::new()))
                },
                Err(e) => Err(e),
            }
        } else if t == 14 {
            match parse_body::<Plain<()>>(r, Ghost(gpos), Ghost(t)) {
                Ok(x) => {
                    proof {
                        lemma_le_bytes_len(t as nat, 8);
                    }
                    Ok(WorkerOp::FindRoots(x, Resp::new()))
                },
                Err(e) => Err(e),
            }
        } else {
            Err(Error::UnknownTag(t))
        }
    }

    /// Decode the request body of one opcode group.
    #[verifier::spinoff_prover]
    #[verifier::rlimit(100)]
    fn decode_group_1(r: &mut NixDeserializer, Ghost(gpos): Ghost<int>, t: u64) -> (res: Result<
        WorkerOp,
        Error,
    >)
        requires
            old(r).wf(),
            dec_u64(old(r).data@, gpos) == Some((t, old(r).pos as int)),
            t == 19 || t == 20 || t == 23 || t == 26 || t == 29 || t == 31 || t == 32,
        ensures
            final(r).wf(),
            final(r).data == old(r).data,
            match res {
                Ok(op) => {
                    &&& old(r).pos <= final(r).pos
                    &&& gpos <= old(r).pos as int
                    &&& rec_op(old(r).data@, gpos) == Some(final(r).pos as int)
                    &&& final(r).pos - gpos == enc_op(op).len()
                    &&& op_tag(op) == t
                    &&& op_exact(op) ==> old(r).data@.subrange(gpos, final(r).pos as int)
                        == enc_op(op)
                },
                Err(_) => rec_op(old(r).data@, gpos) is None,
            },
    {
        if t == 19 {
            match parse_body::<Plain<SetOptions>>(r, Ghost(gpos), Ghost(t)) {
                Ok(x) => {
                    proof {
                        lemma_le_bytes_len(t as nat, 8);
                    }
                    Ok(WorkerOp::SetOptions(x, Resp::new()))
                },
                Err(e) => Err(e),
            }
        } else if t == 20 {
            match parse_body::<Plain<CollectGarbage>>(r, Ghost(gpos), Ghost(t)) {
                Ok(x) => {
                    proof {
                        lemma_le_bytes_len(t as nat, 8);
                    }
                    Ok(WorkerOp::CollectGarbage(x, Resp::new()))
                },
                Err(e) => Err(e),
            }
        } else if t == 23 {
            match parse_body::<Plain<()>>(r, Ghost(gpos), Ghost(t)) {
                Ok(x) => {
                    proof {
                        lemma_le_bytes_len(t as nat, 8);
                    }
                    Ok(WorkerOp::QueryAllValidPaths(x, Resp::new()))
                },
                Err(e) => Err(e),
            }
        } else if t == 26 {
            match parse_body::<Plain<StorePath>>(r, Ghost(gpos), Ghost(t)) {
                Ok(x) => {
                    proof {
                        lemma_le_bytes_len(t as nat, 8);
                    }
                    Ok(WorkerOp::QueryPathInfo(x, Resp::new()))
                },
                Err(e) => Err(e),
            }
        } else if t == 29 {
            match parse_body::<Plain<NixString>>(r, Ghost(gpos), Ghost(t)) {
                Ok(x) => {
                    proof {
                        lemma_le_bytes_len(t as nat, 8);
                    }
                    Ok(WorkerOp::QueryPathFromHashPart(x, Resp::new()))
                },
                Err(e) => Err(e),
            }
        } else if t == 31 {
            match parse_body::<Plain<QueryValidPaths>>(r, Ghost(gpos), Ghost(t)) {
                Ok(x) => {
                    proof {
                        lemma_le_bytes_len(t as nat, 8);
                    }
                    Ok(WorkerOp::QueryValidPaths(x, Resp::new()))
                },
                Err(e) => Err(e),
            }
        } else if t == 32 {
            match parse_body::<Plain<StorePathSet>>(r, Ghost(gpos), Ghost(t)) {
                Ok(x) => {
                    proof {
                        lemma_le_bytes_len(t as nat, 8);
                    }
                    Ok(WorkerOp::QuerySubstitutablePaths(x, Resp::new()))
                },
                Err(e) => Err(e),
            }
        } else {
            Err(Error::UnknownTag(t))
        }
    }

    /// Decode the request body of one opcode group.
    #[verifier::spinoff_prover]
    #[verifier::rlimit(100)]
    fn decode_group_2(r: &mut NixDeserializer, Ghost(gpos): Ghost<int>, t: u64) -> (res: Result<
        WorkerOp,
        Error,
    >)
        requires
            old(r).wf(),
            dec_u64(old(r).data@, gpos) == Some((t, old(r).pos as int)),
            t == 33 || t == 34 || t == 35 || t == 36 || t == 37 || t == 38 || t == 39,
        ensures
            final(r).wf(),
            final(r).data == old(r).data,
            match res {
                Ok(op) => {
                    &&& old(r).pos <= final(r).pos
                    &&& gpos <= old(r).pos as int
                    &&& rec_op(old(r).data@, gpos) == Some(final(r).pos as int)
                    &&& final(r).pos - gpos == enc_op(op).len()
                    &&& op_tag(op) == t
                    &&& op_exact(op) ==> old(r).data@.subrange(gpos, final(r).pos as int)
                        == enc_op(op)
                },
                Err(_) => rec_op(old(r).data@, gpos) is None,
            },
    {
        if t == 33 {
            match parse_body::<Plain<StorePath>>(r, Ghost(gpos), Ghost(t)) {
                Ok(x) => {
                    proof {
                        lemma_le_bytes_len(t as nat, 8);
                    }
                    Ok(WorkerOp::QueryValidDerivers(x, Resp::new()))
                },
                Err(e) => Err(e),
            }
        } else if t == 34 {
            match parse_body::<Plain<()>>(r, Ghost(gpos), Ghost(t)) {
                Ok(x) => {
                    proof {
                        lemma_le_bytes_len(t as nat, 8);
                    }
                    Ok(WorkerOp::OptimiseStore(x, Resp::new()))
                },
                Err(e) => Err(e),
            }
        } else if t == 35 {
            match parse_body::<Plain<VerifyStore>>(r, Ghost(gpos), Ghost(t)) {
                Ok(x) => {
                    proof {
                        lemma_le_bytes_len(t as nat, 8);
                    }
                    Ok(WorkerOp::VerifyStore(x, Resp::new()))
                },
                Err(e) => Err(e),
            }
        } else if t == 36 {
            match parse_body::<Plain<BuildDerivation>>(r, Ghost(gpos), Ghost(t)) {
                Ok(x) => {
                    proof {
                        lemma_le_bytes_len(t as nat, 8);
                    }
                    Ok(WorkerOp::BuildDerivation(x, Resp::new()))
                },
                Err(e) => Err(e),
            }
        } else if t == 37 {
            match parse_body::<Plain<AddSignatures>>(r, Ghost(gpos), Ghost(t)) {
                Ok(x) => {
                    proof {
                        lemma_le_bytes_len(t as nat, 8);
                    }
                    Ok(WorkerOp::AddSignatures(x, Resp::new()))
                },
                Err(e) => Err(e),
            }
        } else if t == 38 {
            match parse_body::<Plain<StorePath>>(r, Ghost(gpos), Ghost(t)) {
                Ok(x) => {
                    proof {
                        lemma_le_bytes_len(t as nat, 8);
                    }
                    Ok(WorkerOp::NarFromPath(x, Resp::new()))
                },
                Err(e) => Err(e),
            }
        } else if t == 39 {
            match parse_body::<WithFramedSource<AddToStoreNar>>(r, Ghost(gpos), Ghost(t)) {
                Ok(x) => {
                    proof {
                        lemma_le_bytes_len(t as nat, 8);
                    }
                    Ok(WorkerOp::AddToStoreNar(x, Resp::new()))
                },
                Err(e) => Err(e),
            }
        } else {
            Err(Error::UnknownTag(t))
        }
    }

    /// Decode the request body of one opcode group.
    #[verifier::spinoff_prover]
    #[verifier::rlimit(100)]
    fn decode_group_3(r: &mut NixDeserializer, Ghost(gpos): Ghost<int>, t: u64) -> (res: Result<
        WorkerOp,
        Error,
    >)
        requires
            old(r).wf(),
            dec_u64(old(r).data@, gpos) == Some((t, old(r).pos as int)),
            t == 40 || t == 41 || t == 42 || t == 43 || t == 44 || t == 45 || t == 46,
        ensures
            final(r).wf(),
            final(r).data == old(r).data,
            match res {
                Ok(op) => {
                    &&& old(r).pos <= final(r).pos
                    &&& gpos <= old(r).pos as int
                    &&& rec_op(old(r).data@, gpos) == Some(final(r).pos as int)
                    &&& final(r).pos - gpos == enc_op(op).len()
                    &&& op_tag(op) == t
                    &&& op_exact(op) ==> old(r).data@.subrange(gpos, final(r).pos as int)
                        == enc_op(op)
                },
                Err(_) => rec_op(old(r).data@, gpos) is None,
            },
    {
        if t == 40 {
            match parse_body::<Plain<QueryMissing>>(r, Ghost(gpos), Ghost(t)) {
                Ok(x) => {
                    proof {
                        lemma_le_bytes_len(t as nat, 8);
                    }
                    Ok(WorkerOp::QueryMissing(x, Resp::new()))
                },
                Err(e) => Err(e),
            }
        } else if t == 41 {
            match parse_body::<Plain<StorePath>>(r, Ghost(gpos), Ghost(t)) {
                Ok(x) => {
                    proof {
                        lemma_le_bytes_len(t as nat, 8);
                    }
                    Ok(WorkerOp::QueryDerivationOutputMap(x, Resp::new()))
                },
                Err(e) => Err(e),
            }
        } else if t == 42 {
            match parse_body::<Plain<Realisation>>(r, Ghost(gpos), Ghost(t)) {
                Ok(x) => {
                    proof {
                        lemma_le_bytes_len(t as nat, 8);
                    }
                    Ok(WorkerOp::RegisterDrvOutput(x, Resp::new()))
                },
                Err(e) => Err(e),
            }
        } else if t == 43 {
            match parse_body::<Plain<NixString>>(r, Ghost(gpos), Ghost(t)) {
                Ok(x) => {
                    proof {
                        lemma_le_bytes_len(t as nat, 8);
                    }
                    Ok(WorkerOp::QueryRealisation(x, Resp::new()))
                },
                Err(e) => Err(e),
            }
        } else if t == 44 {
            match parse_body::<WithFramedSource<AddMultipleToStore>>(r, Ghost(gpos), Ghost(t)) {
                Ok(x) => {
                    proof {
                        lemma_le_bytes_len(t as nat, 8);
                    }
                    Ok(WorkerOp::AddMultipleToStore(x, Resp::new()))
                },
                Err(e) => Err(e),
            }
        } else if t == 45 {
            match parse_body::<WithFramedSource<AddBuildLog>>(r, Ghost(gpos), Ghost(t)) {
                Ok(x) => {
                    proof {
                        lemma_le_bytes_len(t as nat, 8);
                    }
                    Ok(WorkerOp::AddBuildLog(x, Resp::new()))
                },
                Err(e) => Err(e),
            }
        } else if t == 46 {
            match parse_body::<Plain<BuildPaths>>(r, Ghost(gpos), Ghost(t)) {
                Ok(x) => {
                    proof {
                        lemma_le_bytes_len(t as nat, 8);
                    }
                    Ok(WorkerOp::BuildPathsWithResults(x, Resp::new()))
                },
                Err(e) => Err(e),
            }
        } else {
            Err(Error::UnknownTag(t))
        }
    }

    /// Read one operation from the wire: the opcode, the request body,
    /// and, for the streaming operations, the framed payload that
    /// follows.
    #[verifier::spinoff_prover]
    #[verifier::rlimit(100)]
    pub fn read(r: &mut NixDeserializer) -> (res: Result<WorkerOp, Error>)
        requires
            old(r).wf(),
        ensures
            final(r).wf(),
            final(r).data == old(r).data,
            match res {
                Ok(op) => {
                    &&& old(r).pos <= final(r).pos
                    &&& rec_op(old(r).data@, old(r).pos as int) is Some
                    &&& op_wf(op)
                    &&& {
                        let mid = rec_op(old(r).data@, old(r).pos as int)->Some_0;
                        &&& mid - old(r).pos == enc_op(op).len()
                        &&& op_exact(op) ==> old(r).data@.subrange(old(r).pos as int, mid)
                            == enc_op(op)
                        &&& if op_streams(op) {
                            dec_framed(old(r).data@, mid) == Some(
                                (op_chunks(op), final(r).pos as int),
                            )
                        } else {
                            final(r).pos as int == mid
                        }
                        &&& op_exact(op) ==> old(r).data@.subrange(
                            old(r).pos as int,
                            final(r).pos as int,
                        ) == enc_op(op) + op_framed_enc(op)
                    }
                },
                Err(_) => {
                    // no complete operation stands at the cursor: its
                    // head is missing or malformed, or its framed
                    // payload is
                    ||| rec_op(old(r).data@, old(r).pos as int) is None
                    ||| (dec_u64(old(r).data@, old(r).pos as int) matches Some((t, _))
                        && tag_streams(t) && dec_framed(
                        old(r).data@,
                        rec_op(old(r).data@, old(r).pos as int)->Some_0,
                    ) is None)
                },
            },
            dec_u64(old(r).data@, old(r).pos as int) is None ==> res == Err::<WorkerOp, Error>(
                Error::Truncated,
            ),
            dec_u64(old(r).data@, old(r).pos as int) matches Some((t, _)) ==> (known_op(t)
                || res == Err::<WorkerOp, Error>(Error::UnknownTag(t))),
            // reading what write wrote succeeds: a buffer holding the
            // encoding of an operation without a framed payload is
            // accepted whole, and a byte-exact one comes back with
            // exactly that encoding
            forall|o: WorkerOp|
                (#[trigger] enc_at(old(r).data@, old(r).pos as int, enc_op(o)) && !op_streams(o))
                    ==> {
                    &&& res is Ok
                    &&& final(r).pos == old(r).pos + enc_op(o).len()
                    &&& (op_exact(o) ==> (res matches Ok(op2) && enc_op(op2) == enc_op(o)))
                },
    {
        let ghost data = old(r).data@;
        let ghost gpos = old(r).pos as int;
        let op = match WorkerOp::decode_op(r) {
            Ok(op) => op,
            Err(e) => {
                proof {
                    assert forall|o: WorkerOp|
                        #[trigger] enc_at(data, gpos, enc_op(o)) && !op_streams(o) implies false by {
                        lemma_op_complete(data, gpos, o);
                    };
                }
                return Err(e);
            },
        };
        let ghost mid = r.pos as int;
        proof {
            assert(tag_streams(op_tag(op)) == op_streams(op));
        }
        if !op.requires_streaming() {
            proof {
                if op_exact(op) {
                    assert(data.subrange(gpos, mid) + Seq::<u8>::empty() =~= data.subrange(
                        gpos,
                        mid,
                    ));
                }
                assert forall|o: WorkerOp|
                    #[trigger] enc_at(data, gpos, enc_op(o)) && !op_streams(o) implies {
                    &&& r.pos == gpos + enc_op(o).len()
                    &&& (op_exact(o) ==> enc_op(op) == enc_op(o))
                } by {
                    lemma_op_complete(data, gpos, o);
                    lemma_op_tag_word(data, gpos, o);
                    assert(op_tag(op) == op_tag(o));
                    assert(op_exact(op) == op_exact(o));
                    if op_exact(o) {
                        assert(data.subrange(gpos, mid) == enc_op(op));
                        assert(data.subrange(gpos, gpos + enc_op(o).len() as int) == enc_op(o));
                    }
                };
            }
            return Ok(op);
        }
        proof {
            // a framed payload follows: no payload-free operation is
            // encoded here
            assert forall|o: WorkerOp|
                #[trigger] enc_at(data, gpos, enc_op(o)) && !op_streams(o) implies false by {
                lemma_op_complete(data, gpos, o);
                lemma_op_tag_word(data, gpos, o);
                assert(op_tag(op) == op_tag(o));
            };
        }
        let res = match op {
            WorkerOp::AddToStore(x, resp) => {
                let mut x = x;
                match FramedData::read(r) {
                    Ok(f) => {
                        x.0.framed = f;
                        Ok(WorkerOp::AddToStore(x, resp))
                    },
                    Err(e) => Err(e),
                }
            },
            WorkerOp::AddToStoreNar(x, resp) => {
                let mut x = x;
                match FramedData::read(r) {
                    Ok(f) => {
                        x.0.framed = f;
                        Ok(WorkerOp::AddToStoreNar(x, resp))
                    },
                    Err(e) => Err(e),
                }
            },
            WorkerOp::AddMultipleToStore(x, resp) => {
                let mut x = x;
                match FramedData::read(r) {
                    Ok(f) => {
                        x.0.framed = f;
                        Ok(WorkerOp::AddMultipleToStore(x, resp))
                    },
                    Err(e) => Err(e),
                }
            },
            WorkerOp::AddBuildLog(x, resp) => {
                let mut x = x;
                match FramedData::read(r) {
                    Ok(f) => {
                        x.0.framed = f;
                        Ok(WorkerOp::AddBuildLog(x, resp))
                    },
                    Err(e) => Err(e),
                }
            },
            _ => {
                return Err(Error::BadArchive);
            },
        };
        proof {
            if res is Ok {
                if op_exact(res->Ok_0) {
                    lemma_subrange_concat(data, gpos, mid, r.pos as int);
                }
            }
        }
        res
    }

    /// Write one operation to the wire: the opcode, the request body,
    /// and, for the streaming operations, the framed payload.
    #[verifier::spinoff_prover]
    #[verifier::rlimit(100)]
    pub fn write(&self, w: &mut NixSerializer)
        requires
            op_wf(*self),
        ensures
            final(w).out@ == old(w).out@ + enc_op(*self) + op_framed_enc(*self),
    {
        match self {
            WorkerOp::IsValidPath(x, _) => {
                w.write_u64(1);
                x.encode(w);
            },
            WorkerOp::QueryReferrers(x, _) => {
                w.write_u64(6);
                x.encode(w);
            },
            WorkerOp::AddToStore(x, _) => {
                w.write_u64(7);
                x.encode(w);
            },
            WorkerOp::BuildPaths(x, _) => {
                w.write_u64(9);
                x.encode(w);
            },
            WorkerOp::EnsurePath(x, _) => {
                w.write_u64(10);
                x.encode(w);
            },
            WorkerOp::AddTempRoot(x, _) => {
                w.write_u64(11);
                x.encode(w);
            },
            WorkerOp::FindRoots(x, _) => {
                w.write_u64(14);
                x.encode(w);
            },
            WorkerOp::SetOptions(x, _) => {
                w.write_u64(19);
                x.encode(w);
            },
            WorkerOp::CollectGarbage(x, _) => {
                w.write_u64(20);
                x.encode(w);
            },
            WorkerOp::QueryAllValidPaths(x, _) => {
                w.write_u64(23);
                x.encode(w);
            },
            WorkerOp::QueryPathInfo(x, _) => {
                w.write_u64(26);
                x.encode(w);
            },
            WorkerOp::QueryPathFromHashPart(x, _) => {
                w.write_u64(29);
                x.encode(w);
            },
            WorkerOp::QueryValidPaths(x, _) => {
                w.write_u64(31);
                x.encode(w);
            },
            WorkerOp::QuerySubstitutablePaths(x, _) => {
                w.write_u64(32);
                x.encode(w);
            },
            WorkerOp::QueryValidDerivers(x, _) => {
                w.write_u64(33);
                x.encode(w);
            },
            WorkerOp::OptimiseStore(x, _) => {
                w.write_u64(34);
                x.encode(w);
            },
            WorkerOp::VerifyStore(x, _) => {
                w.write_u64(35);
                x.encode(w);
            },
            WorkerOp::BuildDerivation(x, _) => {
                w.write_u64(36);
                x.encode(w);
            },
            WorkerOp::AddSignatures(x, _) => {
                w.write_u64(37);
                x.encode(w);
            },
            WorkerOp::NarFromPath(x, _) => {
                w.write_u64(38);
                x.encode(w);
            },
            WorkerOp::AddToStoreNar(x, _) => {
                w.write_u64(39);
                x.encode(w);
            },
            WorkerOp::QueryMissing(x, _) => {
                w.write_u64(40);
                x.encode(w);
            },
            WorkerOp::QueryDerivationOutputMap(x, _) => {
                w.write_u64(41);
                x.encode(w);
            },
            WorkerOp::RegisterDrvOutput(x, _) => {
                w.write_u64(42);
                x.encode(w);
            },
            WorkerOp::QueryRealisation(x, _) => {
                w.write_u64(43);
                x.encode(w);
            },
            WorkerOp::AddMultipleToStore(x, _) => {
                w.write_u64(44);
                x.encode(w);
            },
            WorkerOp::AddBuildLog(x, _) => {
                w.write_u64(45);
                x.encode(w);
            },
            WorkerOp::BuildPathsWithResults(x, _) => {
                w.write_u64(46);
                x.encode(w);
            },
        }
        proof {
            assert(w.out@ =~= old(w).out@ + enc_op(*self));
        }
        if self.requires_streaming() {
            match self {
            WorkerOp::AddToStore(x, _) => {
                x.0.framed.write(w);
            },
            WorkerOp::AddToStoreNar(x, _) => {
                x.0.framed.write(w);
            },
            WorkerOp::AddMultipleToStore(x, _) => {
                x.0.framed.write(w);
            },
            WorkerOp::AddBuildLog(x, _) => {
                x.0.framed.write(w);
            },
                _ => {},
            }
        }
        proof {
            assert(final(w).out@ =~= old(w).out@ + enc_op(*self) + op_framed_enc(*self));
        }
    }

    /// Whatever response this operation's contract names: true exactly
    /// when the relayed bytes form one complete response of that type,
    /// ending at endpos.
    pub open spec fn resp_complete(
        self,
        data: Seq<u8>,
        pos: int,
        endpos: int,
        ok: bool,
    ) -> bool {
        match self {
            WorkerOp::IsValidPath(_, _) => forall|v: bool|
                #[trigger] enc_at(data, pos, v.enc()) ==> ok && endpos == pos + v.enc().len(),
            WorkerOp::QueryReferrers(_, _) => forall|v: StorePathSet|
                #[trigger] enc_at(data, pos, v.enc()) ==> ok && endpos == pos + v.enc().len(),
            WorkerOp::AddToStore(_, _) => forall|v: ValidPathInfoWithPath|
                #[trigger] enc_at(data, pos, v.enc()) ==> ok && endpos == pos + v.enc().len(),
            WorkerOp::BuildPaths(_, _) => forall|v: u64|
                #[trigger] enc_at(data, pos, v.enc()) ==> ok && endpos == pos + v.enc().len(),
            WorkerOp::EnsurePath(_, _) => forall|v: u64|
                #[trigger] enc_at(data, pos, v.enc()) ==> ok && endpos == pos + v.enc().len(),
            WorkerOp::AddTempRoot(_, _) => forall|v: u64|
                #[trigger] enc_at(data, pos, v.enc()) ==> ok && endpos == pos + v.enc().len(),
            WorkerOp::FindRoots(_, _) => forall|v: FindRootsResponse|
                #[trigger] enc_at(data, pos, v.enc()) ==> ok && endpos == pos + v.enc().len(),
            WorkerOp::SetOptions(_, _) => forall|v: ()|
                #[trigger] enc_at(data, pos, v.enc()) ==> ok && endpos == pos + v.enc().len(),
            WorkerOp::CollectGarbage(_, _) => forall|v: CollectGarbageResponse|
                #[trigger] enc_at(data, pos, v.enc()) ==> ok && endpos == pos + v.enc().len(),
            WorkerOp::QueryAllValidPaths(_, _) => forall|v: StorePathSet|
                #[trigger] enc_at(data, pos, v.enc()) ==> ok && endpos == pos + v.enc().len(),
            WorkerOp::QueryPathInfo(_, _) => forall|v: QueryPathInfoResponse|
                #[trigger] enc_at(data, pos, v.enc()) ==> ok && endpos == pos + v.enc().len(),
            WorkerOp::QueryPathFromHashPart(_, _) => forall|v: StorePath|
                #[trigger] enc_at(data, pos, v.enc()) ==> ok && endpos == pos + v.enc().len(),
            WorkerOp::QueryValidPaths(_, _) => forall|v: StorePathSet|
                #[trigger] enc_at(data, pos, v.enc()) ==> ok && endpos == pos + v.enc().len(),
            WorkerOp::QuerySubstitutablePaths(_, _) => forall|v: StorePathSet|
                #[trigger] enc_at(data, pos, v.enc()) ==> ok && endpos == pos + v.enc().len(),
            WorkerOp::QueryValidDerivers(_, _) => forall|v: StorePathSet|
                #[trigger] enc_at(data, pos, v.enc()) ==> ok && endpos == pos + v.enc().len(),
            WorkerOp::OptimiseStore(_, _) => forall|v: u64|
                #[trigger] enc_at(data, pos, v.enc()) ==> ok && endpos == pos + v.enc().len(),
            WorkerOp::VerifyStore(_, _) => forall|v: bool|
                #[trigger] enc_at(data, pos, v.enc()) ==> ok && endpos == pos + v.enc().len(),
            WorkerOp::BuildDerivation(_, _) => forall|v: BuildResult|
                #[trigger] enc_at(data, pos, v.enc()) ==> ok && endpos == pos + v.enc().len(),
            WorkerOp::AddSignatures(_, _) => forall|v: u64|
                #[trigger] enc_at(data, pos, v.enc()) ==> ok && endpos == pos + v.enc().len(),
            WorkerOp::NarFromPath(_, _) => forall|v: Nar|
                #[trigger] enc_at(data, pos, enc_nar(v)) ==> ok && endpos == pos + enc_nar(
                    v,
                ).len(),
            WorkerOp::AddToStoreNar(_, _) => forall|v: ()|
                #[trigger] enc_at(data, pos, v.enc()) ==> ok && endpos == pos + v.enc().len(),
            WorkerOp::QueryMissing(_, _) => forall|v: QueryMissingResponse|
                #[trigger] enc_at(data, pos, v.enc()) ==> ok && endpos == pos + v.enc().len(),
            WorkerOp::QueryDerivationOutputMap(_, _) => forall|v: DerivationOutputMap|
                #[trigger] enc_at(data, pos, v.enc()) ==> ok && endpos == pos + v.enc().len(),
            WorkerOp::RegisterDrvOutput(_, _) => forall|v: ()|
                #[trigger] enc_at(data, pos, v.enc()) ==> ok && endpos == pos + v.enc().len(),
            WorkerOp::QueryRealisation(_, _) => forall|v: RealisationSet|
                #[trigger] enc_at(data, pos, v.enc()) ==> ok && endpos == pos + v.enc().len(),
            WorkerOp::AddMultipleToStore(_, _) => forall|v: ()|
                #[trigger] enc_at(data, pos, v.enc()) ==> ok && endpos == pos + v.enc().len(),
            WorkerOp::AddBuildLog(_, _) => forall|v: u64|
                #[trigger] enc_at(data, pos, v.enc()) ==> ok && endpos == pos + v.enc().len(),
            WorkerOp::BuildPathsWithResults(_, _) => forall|v: Vec<(DerivedPath, BuildResult)>|
                #[trigger] enc_at(data, pos, v.enc()) ==> ok && endpos == pos + v.enc().len(),
        }
    }

    /// Relay this operation's response from the daemon-side input to
    /// the client-side output, byte for byte: decode one response of
    /// the type this opcode's contract names and re-encode it; for
    /// NarFromPath, copy the NAR stream through while parsing it.
    #[verifier::spinoff_prover]
    #[verifier::rlimit(100)]
    pub fn proxy_response(&self, r: &mut NixDeserializer, w: &mut NixSerializer) -> (res: Result<
        (),
        Error,
    >)
        requires
            old(r).wf(),
        ensures
            final(r).wf(),
            final(r).data == old(r).data,
            res is Ok ==> old(r).pos <= final(r).pos && final(w).out@ == old(w).out@ + old(
                r,
            ).data@.subrange(old(r).pos as int, final(r).pos as int),
            res is Err ==> *final(w) == *old(w),
            self.resp_complete(old(r).data@, old(r).pos as int, final(r).pos as int, res is Ok),
    {
        match self {
            WorkerOp::IsValidPath(_, _) => relay::<bool>(r, w),
            WorkerOp::QueryReferrers(_, _) => relay::<StorePathSet>(r, w),
            WorkerOp::AddToStore(_, _) => relay::<ValidPathInfoWithPath>(r, w),
            WorkerOp::BuildPaths(_, _) => relay::<u64>(r, w),
            WorkerOp::EnsurePath(_, _) => relay::<u64>(r, w),
            WorkerOp::AddTempRoot(_, _) => relay::<u64>(r, w),
            WorkerOp::FindRoots(_, _) => relay::<FindRootsResponse>(r, w),
            WorkerOp::SetOptions(_, _) => relay::<()>(r, w),
            WorkerOp::CollectGarbage(_, _) => relay::<CollectGarbageResponse>(r, w),
            WorkerOp::QueryAllValidPaths(_, _) => relay::<StorePathSet>(r, w),
            WorkerOp::QueryPathInfo(_, _) => relay::<QueryPathInfoResponse>(r, w),
            WorkerOp::QueryPathFromHashPart(_, _) => relay::<StorePath>(r, w),
            WorkerOp::QueryValidPaths(_, _) => relay::<StorePathSet>(r, w),
            WorkerOp::QuerySubstitutablePaths(_, _) => relay::<StorePathSet>(r, w),
            WorkerOp::QueryValidDerivers(_, _) => relay::<StorePathSet>(r, w),
            WorkerOp::OptimiseStore(_, _) => relay::<u64>(r, w),
            WorkerOp::VerifyStore(_, _) => relay::<bool>(r, w),
            WorkerOp::BuildDerivation(_, _) => relay::<BuildResult>(r, w),
            WorkerOp::AddSignatures(_, _) => relay::<u64>(r, w),
            WorkerOp::NarFromPath(_, _) => crate::nar::stream(r, w),
            WorkerOp::AddToStoreNar(_, _) => relay::<()>(r, w),
            WorkerOp::QueryMissing(_, _) => relay::<QueryMissingResponse>(r, w),
            WorkerOp::QueryDerivationOutputMap(_, _) => relay::<DerivationOutputMap>(r, w),
            WorkerOp::RegisterDrvOutput(_, _) => relay::<()>(r, w),
            WorkerOp::QueryRealisation(_, _) => relay::<RealisationSet>(r, w),
            WorkerOp::AddMultipleToStore(_, _) => relay::<()>(r, w),
            WorkerOp::AddBuildLog(_, _) => relay::<u64>(r, w),
            WorkerOp::BuildPathsWithResults(_, _) => relay::<Vec<(DerivedPath, BuildResult)>>(r, w),
        }
    }
}

} // verus!
