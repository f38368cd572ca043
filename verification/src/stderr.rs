//! Log messages from the nix daemon.
//!
//! The daemon answers each worker operation with a run of stderr
//! messages — diagnostics, progress, activity records — closed by one
//! `Last` message, and only then the typed response. Each message is a
//! 64-bit opcode followed by the body of that variant.

use crate::serialize::{
    dec_u64, lemma_dec_u64_complete, lemma_dec_u64_sound, lemma_enc_at_split, lemma_le_bytes_len,
    lemma_subrange_concat, u64_le, Error, NixDeserializer, NixSerializer, Wire,
};
use crate::NixString;
use vstd::prelude::*;

verus! {

/// A structured error record carried in a stderr `Error` message.
#[derive(Debug, Clone, PartialEq, Eq)]
pub struct StderrError {
    pub typ: NixString,
    pub level: u64,
    pub name: NixString,
    pub message: NixString,
    pub have_pos: u64,
    pub traces: Vec<Trace>,
}

impl StderrError {
    pub open spec fn repr(self) -> (NixString, (u64, (NixString, (NixString, (u64, Vec<Trace>))))) {
        (self.typ, (self.level, (self.name, (self.message, (self.have_pos, self.traces)))))
    }
}

impl Wire for StderrError {
    open spec fn enc(self) -> Seq<u8> {
        self.repr().enc()
    }

    open spec fn rec(data: Seq<u8>, pos: int) -> Option<int> {
        <(NixString, (u64, (NixString, (NixString, (u64, Vec<Trace>))))) as Wire>::rec(data, pos)
    }

    open spec fn exact() -> bool {
        <(NixString, (u64, (NixString, (NixString, (u64, Vec<Trace>))))) as Wire>::exact()
    }

    proof fn lemma_complete(data: Seq<u8>, pos: int, v: Self) {
        <(NixString, (u64, (NixString, (NixString, (u64, Vec<Trace>))))) as Wire>::lemma_complete(
            data,
            pos,
            v.repr(),
        );
    }

    fn encode(&self, w: &mut NixSerializer) {
        self.typ.encode(w);
        self.level.encode(w);
        self.name.encode(w);
        self.message.encode(w);
        self.have_pos.encode(w);
        self.traces.encode(w);
        proof {
            assert(final(w).out@ =~= old(w).out@ + self.repr().enc());
        }
    }

    fn decode(r: &mut NixDeserializer) -> (res: Result<Self, Error>) {
        match <(NixString, (u64, (NixString, (NixString, (u64, Vec<Trace>))))) as Wire>::decode(r) {
            Ok((typ, (level, (name, (message, (have_pos, traces)))))) => Ok(
                StderrError { typ, level, name, message, have_pos, traces },
            ),
            Err(e) => Err(e),
        }
    }
}

/// One backtrace entry of a stderr error.
#[derive(Debug, Clone, PartialEq, Eq)]
pub struct Trace {
    pub have_pos: u64,
    pub trace: NixString,
}

impl Trace {
    pub open spec fn repr(self) -> (u64, NixString) {
        (self.have_pos, self.trace)
    }
}

impl Wire for Trace {
    open spec fn enc(self) -> Seq<u8> {
        self.repr().enc()
    }

    open spec fn rec(data: Seq<u8>, pos: int) -> Option<int> {
        <(u64, NixString) as Wire>::rec(data, pos)
    }

    open spec fn exact() -> bool {
        <(u64, NixString) as Wire>::exact()
    }

    proof fn lemma_complete(data: Seq<u8>, pos: int, v: Self) {
        <(u64, NixString) as Wire>::lemma_complete(data, pos, v.repr());
    }

    fn encode(&self, w: &mut NixSerializer) {
        self.have_pos.encode(w);
        self.trace.encode(w);
        proof {
            assert(final(w).out@ =~= old(w).out@ + self.repr().enc());
        }
    }

    fn decode(r: &mut NixDeserializer) -> (res: Result<Self, Error>) {
        match <(u64, NixString) as Wire>::decode(r) {
            Ok((have_pos, trace)) => Ok(Trace { have_pos, trace }),
            Err(e) => Err(e),
        }
    }
}

/// The body of a stderr `StartActivity` message.
#[derive(Debug, Clone, PartialEq, Eq)]
pub struct StderrStartActivity {
    pub act: u64,
    pub lvl: u64,
    pub typ: u64,
    pub s: NixString,
    pub fields: LoggerFields,
    pub parent: u64,
}

impl StderrStartActivity {
    pub open spec fn repr(self) -> (u64, (u64, (u64, (NixString, (LoggerFields, u64))))) {
        (self.act, (self.lvl, (self.typ, (self.s, (self.fields, self.parent)))))
    }
}

impl Wire for StderrStartActivity {
    open spec fn enc(self) -> Seq<u8> {
        self.repr().enc()
    }

    open spec fn rec(data: Seq<u8>, pos: int) -> Option<int> {
        <(u64, (u64, (u64, (NixString, (LoggerFields, u64))))) as Wire>::rec(data, pos)
    }

    open spec fn exact() -> bool {
        <(u64, (u64, (u64, (NixString, (LoggerFields, u64))))) as Wire>::exact()
    }

    proof fn lemma_complete(data: Seq<u8>, pos: int, v: Self) {
        <(u64, (u64, (u64, (NixString, (LoggerFields, u64))))) as Wire>::lemma_complete(
            data,
            pos,
            v.repr(),
        );
    }

    fn encode(&self, w: &mut NixSerializer) {
        self.act.encode(w);
        self.lvl.encode(w);
        self.typ.encode(w);
        self.s.encode(w);
        self.fields.encode(w);
        self.parent.encode(w);
        proof {
            assert(final(w).out@ =~= old(w).out@ + self.repr().enc());
        }
    }

    fn decode(r: &mut NixDeserializer) -> (res: Result<Self, Error>) {
        match <(u64, (u64, (u64, (NixString, (LoggerFields, u64))))) as Wire>::decode(r) {
            Ok((act, (lvl, (typ, (s, (fields, parent)))))) => Ok(
                StderrStartActivity { act, lvl, typ, s, fields, parent },
            ),
            Err(e) => Err(e),
        }
    }
}

/// The body of a stderr `Result` message.
#[derive(Debug, Clone, PartialEq, Eq)]
pub struct StderrResult {
    pub act: u64,
    pub typ: u64,
    pub fields: LoggerFields,
}

impl StderrResult {
    pub open spec fn repr(self) -> (u64, (u64, LoggerFields)) {
        (self.act, (self.typ, self.fields))
    }
}

impl Wire for StderrResult {
    open spec fn enc(self) -> Seq<u8> {
        self.repr().enc()
    }

    open spec fn rec(data: Seq<u8>, pos: int) -> Option<int> {
        <(u64, (u64, LoggerFields)) as Wire>::rec(data, pos)
    }

    open spec fn exact() -> bool {
        <(u64, (u64, LoggerFields)) as Wire>::exact()
    }

    proof fn lemma_complete(data: Seq<u8>, pos: int, v: Self) {
        <(u64, (u64, LoggerFields)) as Wire>::lemma_complete(data, pos, v.repr());
    }

    fn encode(&self, w: &mut NixSerializer) {
        self.act.encode(w);
        self.typ.encode(w);
        self.fields.encode(w);
        proof {
            assert(final(w).out@ =~= old(w).out@ + self.repr().enc());
        }
    }

    fn decode(r: &mut NixDeserializer) -> (res: Result<Self, Error>) {
        match <(u64, (u64, LoggerFields)) as Wire>::decode(r) {
            Ok((act, (typ, fields))) => Ok(StderrResult { act, typ, fields }),
            Err(e) => Err(e),
        }
    }
}

/// The field list carried by activity and result messages.
#[derive(Debug, Clone, PartialEq, Eq)]
pub struct LoggerFields {
    pub fields: Vec<LoggerField>,
}

impl Wire for LoggerFields {
    open spec fn enc(self) -> Seq<u8> {
        self.fields.enc()
    }

    open spec fn rec(data: Seq<u8>, pos: int) -> Option<int> {
        <Vec<LoggerField> as Wire>::rec(data, pos)
    }

    open spec fn exact() -> bool {
        <Vec<LoggerField> as Wire>::exact()
    }

    proof fn lemma_complete(data: Seq<u8>, pos: int, v: Self) {
        <Vec<LoggerField> as Wire>::lemma_complete(data, pos, v.fields);
    }

    fn encode(&self, w: &mut NixSerializer) {
        self.fields.encode(w);
    }

    fn decode(r: &mut NixDeserializer) -> (res: Result<Self, Error>) {
        match <Vec<LoggerField> as Wire>::decode(r) {
            Ok(fields) => Ok(LoggerFields { fields }),
            Err(e) => Err(e),
        }
    }
}

/// One logger field: an integer (tag 0) or a string (tag 1).
#[derive(Debug, Clone, PartialEq, Eq)]
pub enum LoggerField {
    Int(u64),
    String(NixString),
}

impl LoggerField {
    pub open spec fn tag(self) -> u64 {
        match self {
            LoggerField::Int(_) => 0,
            LoggerField::String(_) => 1,
        }
    }
}

impl Wire for LoggerField {
    open spec fn enc(self) -> Seq<u8> {
        match self {
            LoggerField::Int(n) => u64_le(0) + n.enc(),
            LoggerField::String(s) => u64_le(1) + s.enc(),
        }
    }

    open spec fn rec(data: Seq<u8>, pos: int) -> Option<int> {
        match dec_u64(data, pos) {
            Option::None => Option::None,
            Option::Some((t, p)) => if t == 0 {
                <u64 as Wire>::rec(data, p)
            } else if t == 1 {
                <NixString as Wire>::rec(data, p)
            } else {
                Option::None
            },
        }
    }

    open spec fn exact() -> bool {
        true
    }

    proof fn lemma_complete(data: Seq<u8>, pos: int, v: Self) {
        lemma_le_bytes_len(v.tag() as nat, 8);
        match v {
            LoggerField::Int(n) => {
                lemma_enc_at_split(data, pos, u64_le(0), n.enc());
                lemma_dec_u64_complete(data, pos, 0);
                <u64 as Wire>::lemma_complete(data, pos + 8, n);
            },
            LoggerField::String(s) => {
                lemma_enc_at_split(data, pos, u64_le(1), s.enc());
                lemma_dec_u64_complete(data, pos, 1);
                <NixString as Wire>::lemma_complete(data, pos + 8, s);
            },
        }
    }

    fn encode(&self, w: &mut NixSerializer) {
        match self {
            LoggerField::Int(n) => {
                w.write_u64(0);
                n.encode(w);
                proof {
                    assert(final(w).out@ =~= old(w).out@ + (u64_le(0) + n.enc()));
                }
            },
            LoggerField::String(s) => {
                w.write_u64(1);
                s.encode(w);
                proof {
                    assert(final(w).out@ =~= old(w).out@ + (u64_le(1) + s.enc()));
                }
            },
        }
    }

    fn decode(r: &mut NixDeserializer) -> (res: Result<Self, Error>) {
        let ghost data = old(r).data@;
        let ghost gpos = old(r).pos as int;
        let t = match r.read_u64() {
            Ok(t) => t,
            Err(e) => {
                return Err(e);
            },
        };
        proof {
            lemma_dec_u64_sound(data, gpos);
            lemma_le_bytes_len(t as nat, 8);
        }
        let ghost mid = r.pos as int;
        if t == 0 {
            match <u64 as Wire>::decode(r) {
                Ok(n) => {
                    proof {
                        lemma_subrange_concat(data, gpos, mid, r.pos as int);
                    }
                    Ok(LoggerField::Int(n))
                },
                Err(e) => Err(e),
            }
        } else if t == 1 {
            match <NixString as Wire>::decode(r) {
                Ok(s) => {
                    proof {
                        lemma_subrange_concat(data, gpos, mid, r.pos as int);
                    }
                    Ok(LoggerField::String(s))
                },
                Err(e) => Err(e),
            }
        } else {
            Err(Error::UnknownTag(t))
        }
    }
}

/// The stderr message opcodes.
pub const STDERR_WRITE: u64 = 0x64617416;

pub const STDERR_ERROR: u64 = 0x63787470;

pub const STDERR_NEXT: u64 = 0x6f6c6d67;

pub const STDERR_START_ACTIVITY: u64 = 0x53545254;

pub const STDERR_STOP_ACTIVITY: u64 = 0x53544f50;

pub const STDERR_RESULT: u64 = 0x52534c54;

pub const STDERR_LAST: u64 = 0x616c7473;

/// The different stderr messages.
///
/// On the wire, they are represented as the opcode followed by the body.
#[derive(Debug, Clone, PartialEq, Eq)]
pub enum Msg {
    Write(NixString),
    Error(StderrError),
    Next(NixString),
    StartActivity(StderrStartActivity),
    StopActivity(u64),
    Result(StderrResult),
    Last,
}

impl Msg {
    /// The opcode of this message.
    pub open spec fn tag(self) -> u64 {
        match self {
            Msg::Write(_) => STDERR_WRITE,
            Msg::Error(_) => STDERR_ERROR,
            Msg::Next(_) => STDERR_NEXT,
            Msg::StartActivity(_) => STDERR_START_ACTIVITY,
            Msg::StopActivity(_) => STDERR_STOP_ACTIVITY,
            Msg::Result(_) => STDERR_RESULT,
            Msg::Last => STDERR_LAST,
        }
    }

    /// Whether this is the terminating message of a stderr stream.
    pub fn is_last(&self) -> (r: bool)
        ensures
            r == (*self is Last),
    {
        match self {
            Msg::Last => true,
            _ => false,
        }
    }
}

/// Whether a word names a stderr message.
pub open spec fn stderr_tag(t: u64) -> bool {
    t == STDERR_WRITE || t == STDERR_ERROR || t == STDERR_NEXT || t == STDERR_START_ACTIVITY || t
        == STDERR_STOP_ACTIVITY || t == STDERR_RESULT || t == STDERR_LAST
}

impl Msg {
    /// Read one stderr message. A tag naming no message is a protocol
    /// error carrying the tag; input ending short of a whole message is
    /// a truncation.
    pub fn read(r: &mut NixDeserializer) -> (res: Result<Msg, Error>)
        requires
            old(r).wf(),
        ensures
            final(r).wf(),
            final(r).data == old(r).data,
            match res {
                Ok(v) => {
                    &&& <Msg as Wire>::rec(old(r).data@, old(r).pos as int) == Some(
                        final(r).pos as int,
                    )
                    &&& old(r).pos <= final(r).pos
                    &&& final(r).pos - old(r).pos == v.enc().len()
                    &&& old(r).data@.subrange(old(r).pos as int, final(r).pos as int) == v.enc()
                },
                Err(_) => <Msg as Wire>::rec(old(r).data@, old(r).pos as int) is None,
            },
            dec_u64(old(r).data@, old(r).pos as int) is None ==> res == Err::<Msg, Error>(
                Error::Truncated,
            ),
            dec_u64(old(r).data@, old(r).pos as int) matches Some((t, _)) ==> (stderr_tag(t)
                || res == Err::<Msg, Error>(Error::UnknownTag(t))),
    {
        let ghost data = old(r).data@;
        let ghost gpos = old(r).pos as int;
        let t = match r.read_u64() {
            Ok(t) => t,
            Err(e) => {
                return Err(e);
            },
        };
        proof {
            lemma_dec_u64_sound(data, gpos);
            lemma_le_bytes_len(t as nat, 8);
        }
        let ghost mid = r.pos as int;
        if t == STDERR_WRITE {
            match <NixString as Wire>::decode(r) {
                Ok(s) => {
                    proof {
                        lemma_subrange_concat(data, gpos, mid, r.pos as int);
                    }
                    Ok(Msg::Write(s))
                },
                Err(e) => Err(e),
            }
        } else if t == STDERR_ERROR {
            match <StderrError as Wire>::decode(r) {
                Ok(e) => {
                    proof {
                        lemma_subrange_concat(data, gpos, mid, r.pos as int);
                    }
                    Ok(Msg::Error(e))
                },
                Err(e) => Err(e),
            }
        } else if t == STDERR_NEXT {
            match <NixString as Wire>::decode(r) {
                Ok(s) => {
                    proof {
                        lemma_subrange_concat(data, gpos, mid, r.pos as int);
                    }
                    Ok(Msg::Next(s))
                },
                Err(e) => Err(e),
            }
        } else if t == STDERR_START_ACTIVITY {
            match <StderrStartActivity as Wire>::decode(r) {
                Ok(a) => {
                    proof {
                        lemma_subrange_concat(data, gpos, mid, r.pos as int);
                    }
                    Ok(Msg::StartActivity(a))
                },
                Err(e) => Err(e),
            }
        } else if t == STDERR_STOP_ACTIVITY {
            match <u64 as Wire>::decode(r) {
                Ok(n) => {
                    proof {
                        lemma_subrange_concat(data, gpos, mid, r.pos as int);
                    }
                    Ok(Msg::StopActivity(n))
                },
                Err(e) => Err(e),
            }
        } else if t == STDERR_RESULT {
            match <StderrResult as Wire>::decode(r) {
                Ok(x) => {
                    proof {
                        lemma_subrange_concat(data, gpos, mid, r.pos as int);
                    }
                    Ok(Msg::Result(x))
                },
                Err(e) => Err(e),
            }
        } else if t == STDERR_LAST {
            Ok(Msg::Last)
        } else {
            Err(Error::UnknownTag(t))
        }
    }
}

impl Wire for Msg {
    open spec fn enc(self) -> Seq<u8> {
        match self {
            Msg::Write(s) => u64_le(STDERR_WRITE) + s.enc(),
            Msg::Error(e) => u64_le(STDERR_ERROR) + e.enc(),
            Msg::Next(s) => u64_le(STDERR_NEXT) + s.enc(),
            Msg::StartActivity(a) => u64_le(STDERR_START_ACTIVITY) + a.enc(),
            Msg::StopActivity(n) => u64_le(STDERR_STOP_ACTIVITY) + n.enc(),
            Msg::Result(x) => u64_le(STDERR_RESULT) + x.enc(),
            Msg::Last => u64_le(STDERR_LAST),
        }
    }

    open spec fn rec(data: Seq<u8>, pos: int) -> Option<int> {
        match dec_u64(data, pos) {
            Option::None => Option::None,
            Option::Some((t, p)) => if t == STDERR_WRITE {
                <NixString as Wire>::rec(data, p)
            } else if t == STDERR_ERROR {
                <StderrError as Wire>::rec(data, p)
            } else if t == STDERR_NEXT {
                <NixString as Wire>::rec(data, p)
            } else if t == STDERR_START_ACTIVITY {
                <StderrStartActivity as Wire>::rec(data, p)
            } else if t == STDERR_STOP_ACTIVITY {
                <u64 as Wire>::rec(data, p)
            } else if t == STDERR_RESULT {
                <StderrResult as Wire>::rec(data, p)
            } else if t == STDERR_LAST {
                Option::Some(p)
            } else {
                Option::None
            },
        }
    }

    open spec fn exact() -> bool {
        true
    }

    #[verifier::spinoff_prover]
    #[verifier::rlimit(100)]
    proof fn lemma_complete(data: Seq<u8>, pos: int, v: Self) {
        lemma_le_bytes_len(v.tag() as nat, 8);
        match v {
            Msg::Write(s) => {
                lemma_enc_at_split(data, pos, u64_le(STDERR_WRITE), s.enc());
                lemma_dec_u64_complete(data, pos, STDERR_WRITE);
                <NixString as Wire>::lemma_complete(data, pos + 8, s);
            },
            Msg::Error(e) => {
                lemma_enc_at_split(data, pos, u64_le(STDERR_ERROR), e.enc());
                lemma_dec_u64_complete(data, pos, STDERR_ERROR);
                <StderrError as Wire>::lemma_complete(data, pos + 8, e);
            },
            Msg::Next(s) => {
                lemma_enc_at_split(data, pos, u64_le(STDERR_NEXT), s.enc());
                lemma_dec_u64_complete(data, pos, STDERR_NEXT);
                <NixString as Wire>::lemma_complete(data, pos + 8, s);
            },
            Msg::StartActivity(a) => {
                lemma_enc_at_split(data, pos, u64_le(STDERR_START_ACTIVITY), a.enc());
                lemma_dec_u64_complete(data, pos, STDERR_START_ACTIVITY);
                <StderrStartActivity as Wire>::lemma_complete(data, pos + 8, a);
            },
            Msg::StopActivity(n) => {
                lemma_enc_at_split(data, pos, u64_le(STDERR_STOP_ACTIVITY), n.enc());
                lemma_dec_u64_complete(data, pos, STDERR_STOP_ACTIVITY);
                <u64 as Wire>::lemma_complete(data, pos + 8, n);
            },
            Msg::Result(x) => {
                lemma_enc_at_split(data, pos, u64_le(STDERR_RESULT), x.enc());
                lemma_dec_u64_complete(data, pos, STDERR_RESULT);
                <StderrResult as Wire>::lemma_complete(data, pos + 8, x);
            },
            Msg::Last => {
                lemma_dec_u64_complete(data, pos, STDERR_LAST);
            },
        }
    }

    fn encode(&self, w: &mut NixSerializer) {
        match self {
            Msg::Write(s) => {
                w.write_u64(STDERR_WRITE);
                s.encode(w);
                proof {
                    assert(final(w).out@ =~= old(w).out@ + (u64_le(STDERR_WRITE) + s.enc()));
                }
            },
            Msg::Error(e) => {
                w.write_u64(STDERR_ERROR);
                e.encode(w);
                proof {
                    assert(final(w).out@ =~= old(w).out@ + (u64_le(STDERR_ERROR) + e.enc()));
                }
            },
            Msg::Next(s) => {
                w.write_u64(STDERR_NEXT);
                s.encode(w);
                proof {
                    assert(final(w).out@ =~= old(w).out@ + (u64_le(STDERR_NEXT) + s.enc()));
                }
            },
            Msg::StartActivity(a) => {
                w.write_u64(STDERR_START_ACTIVITY);
                a.encode(w);
                proof {
                    assert(final(w).out@ =~= old(w).out@ + (u64_le(STDERR_START_ACTIVITY)
                        + a.enc()));
                }
            },
            Msg::StopActivity(n) => {
                w.write_u64(STDERR_STOP_ACTIVITY);
                n.encode(w);
                proof {
                    assert(final(w).out@ =~= old(w).out@ + (u64_le(STDERR_STOP_ACTIVITY)
                        + n.enc()));
                }
            },
            Msg::Result(x) => {
                w.write_u64(STDERR_RESULT);
                x.encode(w);
                proof {
                    assert(final(w).out@ =~= old(w).out@ + (u64_le(STDERR_RESULT) + x.enc()));
                }
            },
            Msg::Last => {
                w.write_u64(STDERR_LAST);
            },
        }
    }

    fn decode(r: &mut NixDeserializer) -> (res: Result<Self, Error>) {
        Msg::read(r)
    }

}

} // verus!
