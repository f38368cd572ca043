//! The NAR archive format.
//!
//! A NAR serializes a filesystem tree. Every token is a padded byte
//! string from the primitive codec. The grammar is
//!
//! ```text
//! archive  := "nix-archive-1" node
//! node     := "(" "type" kind body ")"
//! kind     := "regular" | "symlink" | "directory"
//! regular  := ("executable" "")? "contents" bytes
//! symlink  := "target" bytes
//! directory := ( "entry" "(" "name" bytes "node" node ")" )*
//! ```
//!
//! A NAR is not framed: to know where one ends it must be parsed. The
//! [`stream`] function parses just far enough to find the end while
//! copying every consumed byte to the output.

use crate::serialize::{
    dec_bytes, enc_at, enc_bytes, lemma_dec_bytes_complete, lemma_enc_at_split, lemma_pow256_8,
    spec_vec_len_bound, Error, NixDeserializer, NixSerializer,
};
use crate::NixString;
use vstd::multiset::Multiset;
use vstd::prelude::*;

verus! {

broadcast use vstd::std_specs::vec::group_vec_axioms;

/// A regular file in a NAR: contents plus the executable bit.
#[derive(Clone, Debug, PartialEq, Eq)]
pub struct NarFile {
    pub contents: NixString,
    pub executable: bool,
}

/// A NAR node: a regular file, a symlink target, or a directory.
#[derive(Debug, PartialEq, Eq)]
pub enum Nar {
    Contents(NarFile),
    Target(NixString),
    Directory(Vec<NarDirectoryEntry>),
}

/// A named child of a NAR directory.
#[derive(Debug, PartialEq, Eq)]
pub struct NarDirectoryEntry {
    pub name: NixString,
    pub node: Nar,
}

/// The fixed tokens of the NAR grammar.
#[derive(Clone, Copy, Debug, PartialEq, Eq, Structural)]
pub enum Token {
    Archive,
    Open,
    Close,
    Type,
    Regular,
    Executable,
    Empty,
    Contents,
    Symlink,
    Target,
    Directory,
    Entry,
    Name,
    Node,
}

/// The bytes of each grammar token.
pub open spec fn tok(t: Token) -> Seq<u8> {
    match t {
        Token::Archive => seq![
            110u8,
            105u8,
            120u8,
            45u8,
            97u8,
            114u8,
            99u8,
            104u8,
            105u8,
            118u8,
            101u8,
            45u8,
            49u8,
        ],
        Token::Open => seq![40u8],
        Token::Close => seq![41u8],
        Token::Type => seq![116u8, 121u8, 112u8, 101u8],
        Token::Regular => seq![114u8, 101u8, 103u8, 117u8, 108u8, 97u8, 114u8],
        Token::Executable => seq![
            101u8,
            120u8,
            101u8,
            99u8,
            117u8,
            116u8,
            97u8,
            98u8,
            108u8,
            101u8,
        ],
        Token::Empty => Seq::empty(),
        Token::Contents => seq![99u8, 111u8, 110u8, 116u8, 101u8, 110u8, 116u8, 115u8],
        Token::Symlink => seq![115u8, 121u8, 109u8, 108u8, 105u8, 110u8, 107u8],
        Token::Target => seq![116u8, 97u8, 114u8, 103u8, 101u8, 116u8],
        Token::Directory => seq![100u8, 105u8, 114u8, 101u8, 99u8, 116u8, 111u8, 114u8, 121u8],
        Token::Entry => seq![101u8, 110u8, 116u8, 114u8, 121u8],
        Token::Name => seq![110u8, 97u8, 109u8, 101u8],
        Token::Node => seq![110u8, 111u8, 100u8, 101u8],
    }
}

/// The token's bytes, as a vector.
pub fn token_bytes(t: Token) -> (v: Vec<u8>)
    ensures
        v@ == tok(t),
{
    let mut v: Vec<u8> = Vec::new();
    match t {
        Token::Archive => {
            v.push(110);
            v.push(105);
            v.push(120);
            v.push(45);
            v.push(97);
            v.push(114);
            v.push(99);
            v.push(104);
            v.push(105);
            v.push(118);
            v.push(101);
            v.push(45);
            v.push(49);
        },
        Token::Open => {
            v.push(40);
        },
        Token::Close => {
            v.push(41);
        },
        Token::Type => {
            v.push(116);
            v.push(121);
            v.push(112);
            v.push(101);
        },
        Token::Regular => {
            v.push(114);
            v.push(101);
            v.push(103);
            v.push(117);
            v.push(108);
            v.push(97);
            v.push(114);
        },
        Token::Executable => {
            v.push(101);
            v.push(120);
            v.push(101);
            v.push(99);
            v.push(117);
            v.push(116);
            v.push(97);
            v.push(98);
            v.push(108);
            v.push(101);
        },
        Token::Empty => {},
        Token::Contents => {
            v.push(99);
            v.push(111);
            v.push(110);
            v.push(116);
            v.push(101);
            v.push(110);
            v.push(116);
            v.push(115);
        },
        Token::Symlink => {
            v.push(115);
            v.push(121);
            v.push(109);
            v.push(108);
            v.push(105);
            v.push(110);
            v.push(107);
        },
        Token::Target => {
            v.push(116);
            v.push(97);
            v.push(114);
            v.push(103);
            v.push(101);
            v.push(116);
        },
        Token::Directory => {
            v.push(100);
            v.push(105);
            v.push(114);
            v.push(101);
            v.push(99);
            v.push(116);
            v.push(111);
            v.push(114);
            v.push(121);
        },
        Token::Entry => {
            v.push(101);
            v.push(110);
            v.push(116);
            v.push(114);
            v.push(121);
        },
        Token::Name => {
            v.push(110);
            v.push(97);
            v.push(109);
            v.push(101);
        },
        Token::Node => {
            v.push(110);
            v.push(111);
            v.push(100);
            v.push(101);
        },
    }
    proof {
        assert(v@ =~= tok(t));
    }
    v
}

/// Write one grammar token as a padded byte string.
pub fn write_token(w: &mut NixSerializer, t: Token)
    ensures
        final(w).out@ == old(w).out@ + enc_bytes(tok(t)),
{
    let v = token_bytes(t);
    w.write_byte_buf(v.as_slice());
}

/// Whether two byte vectors hold the same bytes.
pub fn bytes_eq(a: &Vec<u8>, b: &Vec<u8>) -> (r: bool)
    ensures
        r == (a@ == b@),
{
    if a.len() != b.len() {
        proof {
            assert(a@.len() != b@.len());
        }
        return false;
    }
    let n = a.len();
    let mut i: usize = 0;
    while i < n
        invariant
            n == a@.len() == b@.len(),
            i <= n,
            forall|k: int| 0 <= k < i ==> a@[k] == b@[k],
        decreases n - i,
    {
        if a[i] != b[i] {
            return false;
        }
        i = i + 1;
    }
    proof {
        assert(a@ =~= b@);
    }
    true
}

/// Whether a byte vector holds exactly one grammar token.
pub fn is_token(v: &Vec<u8>, t: Token) -> (r: bool)
    ensures
        r == (v@ == tok(t)),
{
    let tb = token_bytes(t);
    bytes_eq(v, &tb)
}

/// The encoding of the part of a regular-file body before "contents".
pub open spec fn enc_executable(executable: bool) -> Seq<u8> {
    if executable {
        enc_bytes(tok(Token::Executable)) + enc_bytes(tok(Token::Empty))
    } else {
        Seq::empty()
    }
}

/// The encoding of a regular-file body, after the "type" token.
pub open spec fn enc_file_body(f: NarFile) -> Seq<u8> {
    enc_bytes(tok(Token::Regular)) + (enc_executable(f.executable) + (enc_bytes(
        tok(Token::Contents),
    ) + (enc_bytes(f.contents.0@) + enc_bytes(tok(Token::Close)))))
}

/// The encoding of a symlink body, after the "type" token.
pub open spec fn enc_symlink_body(s: NixString) -> Seq<u8> {
    enc_bytes(tok(Token::Symlink)) + (enc_bytes(tok(Token::Target)) + (enc_bytes(s.0@)
        + enc_bytes(tok(Token::Close))))
}

/// The encoding of one node of the NAR grammar.
pub open spec fn enc_node(n: Nar) -> Seq<u8>
    decreases n, 1int, 0int,
{
    enc_bytes(tok(Token::Open)) + (enc_bytes(tok(Token::Type)) + (match n {
        Nar::Contents(f) => enc_file_body(f),
        Nar::Target(s) => enc_symlink_body(s),
        Nar::Directory(es) => enc_bytes(tok(Token::Directory)) + (enc_entries(es@, 0) + enc_bytes(
            tok(Token::Close),
        )),
    }))
}

/// The encodings of a directory's entries from index i on.
pub open spec fn enc_entries(es: Seq<NarDirectoryEntry>, i: int) -> Seq<u8>
    decreases es, 0int, (es.len() - i),
{
    if 0 <= i < es.len() {
        enc_entry(es[i]) + enc_entries(es, i + 1)
    } else {
        Seq::empty()
    }
}

/// The encoding of one directory entry.
pub open spec fn enc_entry(e: NarDirectoryEntry) -> Seq<u8>
    decreases e, 2int, 0int,
{
    enc_bytes(tok(Token::Entry)) + (enc_bytes(tok(Token::Open)) + (enc_bytes(tok(Token::Name)) + (
    enc_bytes(e.name.0@) + (enc_bytes(tok(Token::Node)) + (enc_node(e.node) + enc_bytes(
        tok(Token::Close),
    ))))))
}

/// The encoding of a whole archive.
pub open spec fn enc_nar(n: Nar) -> Seq<u8> {
    enc_bytes(tok(Token::Archive)) + enc_node(n)
}

/// Serialize a regular-file body.
fn write_file_body(f: &NarFile, w: &mut NixSerializer)
    ensures
        final(w).out@ == old(w).out@ + enc_file_body(*f),
{
    write_token(w, Token::Regular);
    if f.executable {
        write_token(w, Token::Executable);
        write_token(w, Token::Empty);
        proof {
            assert(w.out@ =~= old(w).out@ + (enc_bytes(tok(Token::Regular)) + enc_executable(
                f.executable,
            )));
        }
    } else {
        proof {
            assert(w.out@ =~= old(w).out@ + (enc_bytes(tok(Token::Regular)) + enc_executable(
                f.executable,
            )));
        }
    }
    let ghost mid = w.out@;
    write_token(w, Token::Contents);
    w.write_byte_buf(f.contents.0.as_slice());
    write_token(w, Token::Close);
    proof {
        assert(w.out@ =~= mid + (enc_bytes(tok(Token::Contents)) + (enc_bytes(f.contents.0@)
            + enc_bytes(tok(Token::Close)))));
        assert(w.out@ =~= old(w).out@ + enc_file_body(*f));
    }
}

/// Serialize a symlink body.
fn write_symlink_body(s: &NixString, w: &mut NixSerializer)
    ensures
        final(w).out@ == old(w).out@ + enc_symlink_body(*s),
{
    write_token(w, Token::Symlink);
    write_token(w, Token::Target);
    w.write_byte_buf(s.0.as_slice());
    write_token(w, Token::Close);
    proof {
        assert(final(w).out@ =~= old(w).out@ + enc_symlink_body(*s));
    }
}

/// Serialize one node.
#[verifier::spinoff_prover]
#[verifier::rlimit(100)]
pub fn write_node(n: &Nar, w: &mut NixSerializer)
    ensures
        final(w).out@ == old(w).out@ + enc_node(*n),
    decreases *n, 1int, 0int,
{
    write_token(w, Token::Open);
    write_token(w, Token::Type);
    match n {
        Nar::Contents(f) => {
            write_file_body(f, w);
            proof {
                assert(final(w).out@ =~= old(w).out@ + enc_node(*n));
            }
        },
        Nar::Target(s) => {
            write_symlink_body(s, w);
            proof {
                assert(final(w).out@ =~= old(w).out@ + enc_node(*n));
            }
        },
        Nar::Directory(es) => {
            write_token(w, Token::Directory);
            let ghost mid = w.out@;
            let m = es.len();
            let mut i: usize = 0;
            while i < m
                invariant
                    m == es@.len(),
                    *n == Nar::Directory(*es),
                    i <= m,
                    w.out@ == mid + enc_entries_upto(es@, i as int),
                decreases m - i,
            {
                let ghost before = w.out@;
                let e = &es[i];
                proof {
                    assert(decreases_to!(*n => n->Directory_0));
                    assert(n->Directory_0 == *es);
                    assert(decreases_to!(*es => es@));
                    assert(decreases_to!(es@ => es@[i as int]));
                    assert(decreases_to!(es@[i as int] => es@[i as int].node));
                }
                write_token(w, Token::Entry);
                write_token(w, Token::Open);
                write_token(w, Token::Name);
                w.write_byte_buf(e.name.0.as_slice());
                write_token(w, Token::Node);
                write_node(&e.node, w);
                write_token(w, Token::Close);
                i = i + 1;
                proof {
                    crate::serialize::lemma_assoc7(
                        before,
                        enc_bytes(tok(Token::Entry)),
                        enc_bytes(tok(Token::Open)),
                        enc_bytes(tok(Token::Name)),
                        enc_bytes(es@[i - 1].name.0@),
                        enc_bytes(tok(Token::Node)),
                        enc_node(es@[i - 1].node),
                        enc_bytes(tok(Token::Close)),
                    );
                    assert(w.out@ == before + enc_entry(es@[i - 1]));
                    lemma_enc_entries_upto_snoc(es@, i as int);
                    assert((mid + enc_entries_upto(es@, i - 1)) + enc_entry(es@[i - 1]) =~= mid
                        + enc_entries_upto(es@, i as int));
                }
            }
            write_token(w, Token::Close);
            proof {
                lemma_enc_entries_upto_all(es@);
                assert(w.out@ =~= mid + (enc_entries(es@, 0) + enc_bytes(tok(Token::Close))));
                assert(w.out@ =~= old(w).out@ + enc_node(*n));
            }
        },
    }
}

/// The encodings of a directory's entries before index i.
pub open spec fn enc_entries_upto(es: Seq<NarDirectoryEntry>, i: int) -> Seq<u8>
    decreases i,
{
    if 0 < i <= es.len() {
        enc_entries_upto(es, i - 1) + enc_entry(es[i - 1])
    } else {
        Seq::empty()
    }
}

proof fn lemma_enc_entries_upto_snoc(es: Seq<NarDirectoryEntry>, i: int)
    requires
        0 < i <= es.len(),
    ensures
        enc_entries_upto(es, i) == enc_entries_upto(es, i - 1) + enc_entry(es[i - 1]),
{
}

/// Walking the entries forward and backward encodes the same bytes.
proof fn lemma_enc_entries_split(es: Seq<NarDirectoryEntry>, i: int)
    requires
        0 <= i <= es.len(),
    ensures
        enc_entries(es, 0) == enc_entries_upto(es, i) + enc_entries(es, i),
    decreases i,
{
    if i == 0 {
        assert(Seq::<u8>::empty() + enc_entries(es, 0) =~= enc_entries(es, 0));
    } else {
        lemma_enc_entries_split(es, i - 1);
        assert(enc_entries(es, i - 1) == enc_entry(es[i - 1]) + enc_entries(es, i));
        assert((enc_entries_upto(es, i - 1) + enc_entry(es[i - 1])) + enc_entries(es, i)
            =~= enc_entries_upto(es, i - 1) + (enc_entry(es[i - 1]) + enc_entries(es, i)));
    }
}

proof fn lemma_enc_entries_upto_all(es: Seq<NarDirectoryEntry>)
    ensures
        enc_entries_upto(es, es.len() as int) == enc_entries(es, 0),
{
    lemma_enc_entries_split(es, es.len() as int);
    assert(enc_entries(es, es.len() as int) == Seq::<u8>::empty());
    assert(enc_entries_upto(es, es.len() as int) + Seq::<u8>::empty() =~= enc_entries_upto(
        es,
        es.len() as int,
    ));
}

/// Serialize a whole archive.
pub fn write_nar(n: &Nar, w: &mut NixSerializer)
    ensures
        final(w).out@ == old(w).out@ + enc_nar(*n),
{
    write_token(w, Token::Archive);
    write_node(n, w);
}


/// The grammar token that names a node's kind.
pub open spec fn kind_tok(n: Nar) -> Token {
    match n {
        Nar::Contents(_) => Token::Regular,
        Nar::Target(_) => Token::Symlink,
        Nar::Directory(_) => Token::Directory,
    }
}

/// The encoding of a node after its kind token.
pub open spec fn node_rest(n: Nar) -> Seq<u8> {
    match n {
        Nar::Contents(f) => enc_executable(f.executable) + (enc_bytes(tok(Token::Contents)) + (
        enc_bytes(f.contents.0@) + enc_bytes(tok(Token::Close)))),
        Nar::Target(s) => enc_bytes(tok(Token::Target)) + (enc_bytes(s.0@) + enc_bytes(
            tok(Token::Close),
        )),
        Nar::Directory(es) => enc_entries(es@, 0) + enc_bytes(tok(Token::Close)),
    }
}

proof fn lemma_node_shape(n: Nar)
    ensures
        enc_node(n) == enc_bytes(tok(Token::Open)) + (enc_bytes(tok(Token::Type)) + (enc_bytes(
            tok(kind_tok(n)),
        ) + node_rest(n))),
{
}

/// Every grammar token is short.
proof fn lemma_tok_complete(data: Seq<u8>, pos: int, t: Token)
    requires
        enc_at(data, pos, enc_bytes(tok(t))),
    ensures
        dec_bytes(data, pos) == Some((tok(t), pos + enc_bytes(tok(t)).len() as int)),
{
    lemma_pow256_8();
    assert(tok(t).len() <= 13);
    lemma_dec_bytes_complete(data, pos, tok(t));
}

/// The head of every node encoding: "(", "type", and the kind token,
/// followed by the rest of the node.
proof fn lemma_node_head(data: Seq<u8>, p0: int, v: Nar)
    requires
        enc_at(data, p0, enc_node(v)),
    ensures
        ({
            let pa = p0 + enc_bytes(tok(Token::Open)).len();
            let pb = pa + enc_bytes(tok(Token::Type)).len();
            let pc = pb + enc_bytes(tok(kind_tok(v))).len();
            &&& dec_bytes(data, p0) == Some((tok(Token::Open), pa))
            &&& dec_bytes(data, pa) == Some((tok(Token::Type), pb))
            &&& dec_bytes(data, pb) == Some((tok(kind_tok(v)), pc))
            &&& enc_at(data, pc, node_rest(v))
            &&& p0 + enc_node(v).len() == pc + node_rest(v).len()
        }),
{
    lemma_node_shape(v);
    let a = enc_bytes(tok(Token::Open));
    let b = enc_bytes(tok(Token::Type));
    let k = enc_bytes(tok(kind_tok(v)));
    let rest = node_rest(v);
    lemma_enc_at_split(data, p0, a, b + (k + rest));
    lemma_tok_complete(data, p0, Token::Open);
    lemma_enc_at_split(data, p0 + a.len(), b, k + rest);
    lemma_tok_complete(data, p0 + a.len(), Token::Type);
    lemma_enc_at_split(data, p0 + a.len() + b.len(), k, rest);
    lemma_tok_complete(data, p0 + a.len() + b.len(), kind_tok(v));
}

/// The head of every directory-entry encoding.
proof fn lemma_entry_head(data: Seq<u8>, p: int, e: NarDirectoryEntry)
    requires
        enc_at(data, p, enc_entry(e)),
    ensures
        ({
            let p1 = p + enc_bytes(tok(Token::Entry)).len();
            let p2 = p1 + enc_bytes(tok(Token::Open)).len();
            let p3 = p2 + enc_bytes(tok(Token::Name)).len();
            let p4 = p3 + enc_bytes(e.name.0@).len();
            let p5 = p4 + enc_bytes(tok(Token::Node)).len();
            let p6 = p5 + enc_node(e.node).len();
            &&& dec_bytes(data, p) == Some((tok(Token::Entry), p1))
            &&& dec_bytes(data, p1) == Some((tok(Token::Open), p2))
            &&& dec_bytes(data, p2) == Some((tok(Token::Name), p3))
            &&& dec_bytes(data, p3) == Some((e.name.0@, p4))
            &&& dec_bytes(data, p4) == Some((tok(Token::Node), p5))
            &&& enc_at(data, p5, enc_node(e.node))
            &&& dec_bytes(data, p6) == Some((tok(Token::Close), p6 + enc_bytes(
                tok(Token::Close),
            ).len()))
            &&& p + enc_entry(e).len() == p6 + enc_bytes(tok(Token::Close)).len()
        }),
{
    let t1 = enc_bytes(tok(Token::Entry));
    let t2 = enc_bytes(tok(Token::Open));
    let t3 = enc_bytes(tok(Token::Name));
    let nm = enc_bytes(e.name.0@);
    let t5 = enc_bytes(tok(Token::Node));
    let nd = enc_node(e.node);
    let t7 = enc_bytes(tok(Token::Close));
    lemma_enc_at_split(data, p, t1, t2 + (t3 + (nm + (t5 + (nd + t7)))));
    lemma_tok_complete(data, p, Token::Entry);
    let p1 = p + t1.len();
    lemma_enc_at_split(data, p1, t2, t3 + (nm + (t5 + (nd + t7))));
    lemma_tok_complete(data, p1, Token::Open);
    let p2 = p1 + t2.len();
    lemma_enc_at_split(data, p2, t3, nm + (t5 + (nd + t7)));
    lemma_tok_complete(data, p2, Token::Name);
    let p3 = p2 + t3.len();
    lemma_enc_at_split(data, p3, nm, t5 + (nd + t7));
    spec_vec_len_bound(&e.name.0);
    lemma_pow256_8();
    lemma_dec_bytes_complete(data, p3, e.name.0@);
    let p4 = p3 + nm.len();
    lemma_enc_at_split(data, p4, t5, nd + t7);
    lemma_tok_complete(data, p4, Token::Node);
    let p5 = p4 + t5.len();
    lemma_enc_at_split(data, p5, nd, t7);
    lemma_tok_complete(data, p5 + nd.len(), Token::Close);
}

/// Expect one exact grammar token.
pub fn expect_token(r: &mut NixDeserializer, t: Token) -> (res: Result<(), Error>)
    requires
        old(r).wf(),
    ensures
        final(r).wf(),
        final(r).data == old(r).data,
        old(r).pos <= final(r).pos,
        match res {
            Ok(_) => dec_bytes(old(r).data@, old(r).pos as int) == Some(
                (tok(t), final(r).pos as int),
            ),
            Err(_) => !(dec_bytes(old(r).data@, old(r).pos as int) matches Some((s, _)) && s == tok(
                t,
            )),
        },
{
    let v = match r.read_byte_buf() {
        Ok(v) => v,
        Err(e) => {
            return Err(e);
        },
    };
    if is_token(&v, t) {
        proof {
            crate::serialize::lemma_dec_bytes_sound(old(r).data@, old(r).pos as int);
        }
        Ok(())
    } else {
        Err(Error::BadArchive)
    }
}

/// The parser either accepts a whole node and says where it ends, or
/// fails; on any buffer that holds a node encoding at the cursor it
/// accepts, stops exactly at that encoding's end, and returns a node
/// with exactly that encoding — names, targets, contents, executable
/// flags and entry order all reproduced.
pub open spec fn node_complete(data: Seq<u8>, pos: int, endpos: int, res: Result<Nar, Error>) -> bool {
    forall|v: Nar|
        #[trigger] enc_at(data, pos, enc_node(v)) ==> {
            &&& endpos == pos + enc_node(v).len()
            &&& (res matches Ok(n) && enc_node(n) == enc_node(v))
        }
}

/// Concatenated entry encodings grow at the end one entry at a time.
proof fn lemma_enc_entries_push(s: Seq<NarDirectoryEntry>, x: NarDirectoryEntry, i: int)
    requires
        0 <= i <= s.len(),
    ensures
        enc_entries(s.push(x), i) == enc_entries(s, i) + enc_entry(x),
    decreases s.len() - i,
{
    if i < s.len() {
        lemma_enc_entries_push(s, x, i + 1);
        assert(s.push(x)[i] == s[i]);
        assert(enc_entry(s[i]) + (enc_entries(s, i + 1) + enc_entry(x)) =~= (enc_entry(s[i])
            + enc_entries(s, i + 1)) + enc_entry(x));
    } else {
        assert(s.push(x)[i] == x);
        assert(enc_entries(s.push(x), i + 1) =~= Seq::<u8>::empty());
        assert(enc_entry(x) + Seq::<u8>::empty() =~= enc_entry(x));
        assert(enc_entries(s, i) + enc_entry(x) =~= enc_entry(x));
    }
}

/// Parse one node of the NAR grammar, tolerating repeated
/// "executable" markers and a regular file without "contents".
#[verifier::spinoff_prover]
#[verifier::rlimit(100)]
pub fn read_node(r: &mut NixDeserializer) -> (res: Result<Nar, Error>)
    requires
        old(r).wf(),
    ensures
        final(r).wf(),
        final(r).data == old(r).data,
        old(r).pos <= final(r).pos,
        node_complete(old(r).data@, old(r).pos as int, final(r).pos as int, res),
    decreases r.data.len() - r.pos,
{
    let ghost data = old(r).data@;
    let ghost p0 = old(r).pos as int;
    match expect_token(r, Token::Open) {
        Ok(_) => {},
        Err(e) => {
        proof {
            assert forall|v: Nar| #[trigger] enc_at(data, p0, enc_node(v)) implies false by {
                lemma_node_head(data, p0, v);
            };
        }
        return Err(e);
    },
    }
    match expect_token(r, Token::Type) {
        Ok(_) => {},
        Err(e) => {
        proof {
            assert forall|v: Nar| #[trigger] enc_at(data, p0, enc_node(v)) implies false by {
                lemma_node_head(data, p0, v);
            };
        }
        return Err(e);
    },
    }
    let kind = match r.read_byte_buf() {
        Ok(v) => v,
        Err(e) => {
            proof {
                assert forall|v: Nar| #[trigger] enc_at(data, p0, enc_node(v)) implies false by {
                    lemma_node_head(data, p0, v);
                };
            }
            return Err(e);
        },
    };
    let ghost prest = r.pos as int;
    proof {
        assert forall|v: Nar| #[trigger] enc_at(data, p0, enc_node(v)) implies {
            &&& kind@ == tok(kind_tok(v))
            &&& enc_at(data, prest, node_rest(v))
            &&& p0 + enc_node(v).len() == prest + node_rest(v).len()
        } by {
            lemma_node_head(data, p0, v);
        };
    }
    if is_token(&kind, Token::Regular) {
        read_regular_rest(r, Ghost(data), Ghost(p0))
    } else if is_token(&kind, Token::Symlink) {
        read_symlink_rest(r, Ghost(data), Ghost(p0))
    } else if is_token(&kind, Token::Directory) {
        read_directory_rest(r, Ghost(data), Ghost(p0))
    } else {
        proof {
            assert forall|v: Nar| #[trigger] enc_at(data, p0, enc_node(v)) implies false by {
                lemma_node_head(data, p0, v);
            };
        }
        Err(Error::BadArchive)
    }
}


proof fn lemma_file_rest_head(data: Seq<u8>, p: int, f: NarFile)
    requires
        enc_at(data, p, node_rest(Nar::Contents(f))),
    ensures
        ({
            let pe = p + enc_executable(f.executable).len();
            let pc = pe + enc_bytes(tok(Token::Contents)).len();
            let pd = pc + enc_bytes(f.contents.0@).len();
            &&& f.executable ==> dec_bytes(data, p) == Some(
                (tok(Token::Executable), p + enc_bytes(tok(Token::Executable)).len() as int),
            )
            &&& f.executable ==> dec_bytes(
                data,
                p + enc_bytes(tok(Token::Executable)).len() as int,
            ) == Some((tok(Token::Empty), pe))
            &&& !f.executable ==> pe == p
            &&& dec_bytes(data, pe) == Some((tok(Token::Contents), pc))
            &&& dec_bytes(data, pc) == Some((f.contents.0@, pd))
            &&& dec_bytes(data, pd) == Some(
                (tok(Token::Close), pd + enc_bytes(tok(Token::Close)).len() as int),
            )
            &&& p + node_rest(Nar::Contents(f)).len() == pd + enc_bytes(tok(Token::Close)).len()
        }),
{
    let rest = node_rest(Nar::Contents(f));
    let tc = enc_bytes(tok(Token::Contents));
    let cb = enc_bytes(f.contents.0@);
    let cl = enc_bytes(tok(Token::Close));
    if f.executable {
        let te = enc_bytes(tok(Token::Executable));
        let tm = enc_bytes(tok(Token::Empty));
        assert(rest =~= te + (tm + (tc + (cb + cl))));
        lemma_enc_at_split(data, p, te, tm + (tc + (cb + cl)));
        lemma_tok_complete(data, p, Token::Executable);
        lemma_enc_at_split(data, p + te.len(), tm, tc + (cb + cl));
        lemma_tok_complete(data, p + te.len(), Token::Empty);
        let pe = p + te.len() + tm.len();
        lemma_enc_at_split(data, pe, tc, cb + cl);
        lemma_tok_complete(data, pe, Token::Contents);
        lemma_enc_at_split(data, pe + tc.len(), cb, cl);
        spec_vec_len_bound(&f.contents.0);
        lemma_pow256_8();
        lemma_dec_bytes_complete(data, pe + tc.len(), f.contents.0@);
        lemma_tok_complete(data, pe + tc.len() + cb.len(), Token::Close);
    } else {
        assert(rest =~= tc + (cb + cl));
        lemma_enc_at_split(data, p, tc, cb + cl);
        lemma_tok_complete(data, p, Token::Contents);
        lemma_enc_at_split(data, p + tc.len(), cb, cl);
        spec_vec_len_bound(&f.contents.0);
        lemma_pow256_8();
        lemma_dec_bytes_complete(data, p + tc.len(), f.contents.0@);
        lemma_tok_complete(data, p + tc.len() + cb.len(), Token::Close);
    }
}

proof fn lemma_symlink_rest_head(data: Seq<u8>, p: int, s: NixString)
    requires
        enc_at(data, p, node_rest(Nar::Target(s))),
    ensures
        ({
            let p1 = p + enc_bytes(tok(Token::Target)).len();
            let p2 = p1 + enc_bytes(s.0@).len();
            &&& dec_bytes(data, p) == Some((tok(Token::Target), p1))
            &&& dec_bytes(data, p1) == Some((s.0@, p2))
            &&& dec_bytes(data, p2) == Some(
                (tok(Token::Close), p2 + enc_bytes(tok(Token::Close)).len() as int),
            )
            &&& p + node_rest(Nar::Target(s)).len() == p2 + enc_bytes(tok(Token::Close)).len()
        }),
{
    let tt = enc_bytes(tok(Token::Target));
    let sb = enc_bytes(s.0@);
    let cl = enc_bytes(tok(Token::Close));
    lemma_enc_at_split(data, p, tt, sb + cl);
    lemma_tok_complete(data, p, Token::Target);
    lemma_enc_at_split(data, p + tt.len(), sb, cl);
    spec_vec_len_bound(&s.0);
    lemma_pow256_8();
    lemma_dec_bytes_complete(data, p + tt.len(), s.0@);
    lemma_tok_complete(data, p + tt.len() + sb.len(), Token::Close);
}

/// Parse the rest of a regular-file node, after the "regular" token.
#[verifier::spinoff_prover]
#[verifier::rlimit(100)]
fn read_regular_rest(r: &mut NixDeserializer, Ghost(data): Ghost<Seq<u8>>, Ghost(p0): Ghost<int>) -> (res:
    Result<Nar, Error>)
    requires
        old(r).wf(),
        old(r).data@ == data,
        forall|v: Nar|
            #[trigger] enc_at(data, p0, enc_node(v)) ==> v is Contents && enc_at(
                data,
                old(r).pos as int,
                node_rest(v),
            ) && p0 + enc_node(v).len() == old(r).pos + node_rest(v).len(),
    ensures
        final(r).wf(),
        final(r).data == old(r).data,
        old(r).pos <= final(r).pos,
        node_complete(data, p0, final(r).pos as int, res),
    decreases r.data.len() - r.pos,
{
    let ghost pr = r.pos as int;
    let mut executable = false;
    let mut tag = match r.read_byte_buf() {
        Ok(v) => v,
        Err(e) => {
            proof {
                assert forall|v: Nar| #[trigger] enc_at(data, p0, enc_node(v)) implies false by {
                    lemma_file_rest_head(data, pr, v->Contents_0);
                };
            }
            return Err(e);
        },
    };
    if is_token(&tag, Token::Executable) {
        executable = true;
        proof {
            assert forall|v: Nar| #[trigger] enc_at(data, p0, enc_node(v)) implies
                v->Contents_0.executable by {
                lemma_file_rest_head(data, pr, v->Contents_0);
                assert(tok(Token::Contents).len() != tok(Token::Executable).len());
            };
        }
        match expect_token(r, Token::Empty) {
            Ok(_) => {},
            Err(e) => {
            proof {
                assert forall|v: Nar| #[trigger] enc_at(data, p0, enc_node(v)) implies false by {
                    lemma_file_rest_head(data, pr, v->Contents_0);
                };
            }
            return Err(e);
        },
        }
        tag = match r.read_byte_buf() {
            Ok(v) => v,
            Err(e) => {
                proof {
                    assert forall|v: Nar| #[trigger] enc_at(data, p0, enc_node(v)) implies false by {
                        lemma_file_rest_head(data, pr, v->Contents_0);
                    };
                }
                return Err(e);
            },
        };
        proof {
            assert forall|v: Nar| #[trigger] enc_at(data, p0, enc_node(v)) implies {
                let f = v->Contents_0;
                &&& f.executable == executable
                &&& tag@ == tok(Token::Contents)
                &&& enc_at(data, r.pos as int, enc_bytes(f.contents.0@) + enc_bytes(
                    tok(Token::Close),
                ))
                &&& p0 + enc_node(v).len() == r.pos + (enc_bytes(f.contents.0@) + enc_bytes(
                    tok(Token::Close),
                )).len()
            } by {
                lemma_file_rest_head(data, pr, v->Contents_0);
                let f = v->Contents_0;
                let pe = pr + enc_executable(f.executable).len();
                assert(node_rest(v) =~= enc_executable(f.executable) + (enc_bytes(
                    tok(Token::Contents),
                ) + (enc_bytes(f.contents.0@) + enc_bytes(tok(Token::Close)))));
                lemma_enc_at_split(data, pr, enc_executable(f.executable), enc_bytes(
                    tok(Token::Contents),
                ) + (enc_bytes(f.contents.0@) + enc_bytes(tok(Token::Close))));
                lemma_enc_at_split(data, pe, enc_bytes(tok(Token::Contents)), enc_bytes(
                    f.contents.0@,
                ) + enc_bytes(tok(Token::Close)));
            };
        }
        while is_token(&tag, Token::Executable)
            invariant
                r.wf(),
                r.data == old(r).data,
                data == old(r).data@,
                old(r).pos <= r.pos,
                forall|v: Nar| #[trigger] enc_at(data, p0, enc_node(v)) ==> tag@ == tok(
                    Token::Contents,
                ),
                forall|v: Nar| #[trigger] enc_at(data, p0, enc_node(v)) ==> {
                    let f = v->Contents_0;
                    &&& v is Contents
                    &&& f.executable == executable
                    &&& enc_at(data, r.pos as int, enc_bytes(f.contents.0@) + enc_bytes(
                        tok(Token::Close),
                    ))
                    &&& p0 + enc_node(v).len() == r.pos + (enc_bytes(f.contents.0@) + enc_bytes(
                        tok(Token::Close),
                    )).len()
                },
            decreases r.data.len() - r.pos,
        {
            proof {
                assert forall|v: Nar| #[trigger] enc_at(data, p0, enc_node(v)) implies false by {
                    assert(tok(Token::Contents).len() != tok(Token::Executable).len());
                };
            }
            match expect_token(r, Token::Empty) {
                Ok(_) => {},
                Err(e) => {
                return Err(e);
            },
            }
            tag = match r.read_byte_buf() {
                Ok(v) => v,
                Err(e) => {
                    return Err(e);
                },
            };
        }
    } else {
        proof {
            assert forall|v: Nar| #[trigger] enc_at(data, p0, enc_node(v)) implies {
                let f = v->Contents_0;
                &&& f.executable == executable
                &&& tag@ == tok(Token::Contents)
                &&& enc_at(data, r.pos as int, enc_bytes(f.contents.0@) + enc_bytes(
                    tok(Token::Close),
                ))
                &&& p0 + enc_node(v).len() == r.pos + (enc_bytes(f.contents.0@) + enc_bytes(
                    tok(Token::Close),
                )).len()
            } by {
                lemma_file_rest_head(data, pr, v->Contents_0);
                let f = v->Contents_0;
                if f.executable {
                    assert(tag@ == tok(Token::Executable));
                    assert(false);
                }
                let pe = pr;
                assert(node_rest(v) =~= enc_executable(f.executable) + (enc_bytes(
                    tok(Token::Contents),
                ) + (enc_bytes(f.contents.0@) + enc_bytes(tok(Token::Close)))));
                lemma_enc_at_split(data, pr, enc_executable(f.executable), enc_bytes(
                    tok(Token::Contents),
                ) + (enc_bytes(f.contents.0@) + enc_bytes(tok(Token::Close))));
                lemma_enc_at_split(data, pe, enc_bytes(tok(Token::Contents)), enc_bytes(
                    f.contents.0@,
                ) + enc_bytes(tok(Token::Close)));
            };
        }
    }
    // tag is now the token after any executable markers; on a canonical
    // encoding it is "contents".
    if is_token(&tag, Token::Contents) {
        let ghost cpos = r.pos as int;
        let contents = match r.read_byte_buf() {
            Ok(v) => v,
            Err(e) => {
                proof {
                    assert forall|v: Nar| #[trigger] enc_at(data, p0, enc_node(v)) implies false by {
                        let f = v->Contents_0;
                        lemma_enc_at_split(data, cpos, enc_bytes(f.contents.0@), enc_bytes(
                            tok(Token::Close),
                        ));
                        spec_vec_len_bound(&f.contents.0);
                        lemma_pow256_8();
                        lemma_dec_bytes_complete(data, cpos, f.contents.0@);
                    };
                }
                return Err(e);
            },
        };
        match expect_token(r, Token::Close) {
            Ok(_) => {},
            Err(e) => {
            proof {
                assert forall|v: Nar| #[trigger] enc_at(data, p0, enc_node(v)) implies false by {
                    let f = v->Contents_0;
                    lemma_enc_at_split(data, cpos, enc_bytes(f.contents.0@), enc_bytes(
                        tok(Token::Close),
                    ));
                    spec_vec_len_bound(&f.contents.0);
                    lemma_pow256_8();
                    lemma_dec_bytes_complete(data, cpos, f.contents.0@);
                    lemma_tok_complete(data, cpos + enc_bytes(f.contents.0@).len(), Token::Close);
                };
            }
            return Err(e);
        },
        }
        let ret = Nar::Contents(NarFile { contents: NixString(contents), executable });
        proof {
            assert forall|v: Nar| #[trigger] enc_at(data, p0, enc_node(v)) implies final(r).pos
                as int == p0 + enc_node(v).len() && enc_node(ret) == enc_node(v) by {
                let f = v->Contents_0;
                lemma_enc_at_split(data, cpos, enc_bytes(f.contents.0@), enc_bytes(
                    tok(Token::Close),
                ));
                spec_vec_len_bound(&f.contents.0);
                lemma_pow256_8();
                lemma_dec_bytes_complete(data, cpos, f.contents.0@);
                lemma_tok_complete(data, cpos + enc_bytes(f.contents.0@).len(), Token::Close);
                assert(contents@ == f.contents.0@);
                assert(ret->Contents_0.executable == f.executable);
                assert(enc_node(ret) == enc_node(v));
            };
        }
        Ok(ret)
    } else if is_token(&tag, Token::Close) {
        proof {
            assert forall|v: Nar| #[trigger] enc_at(data, p0, enc_node(v)) implies false by {
                assert(tok(Token::Contents).len() != tok(Token::Close).len());
            };
        }
        Ok(Nar::Contents(NarFile { contents: NixString(Vec::new()), executable }))
    } else {
        proof {
            assert forall|v: Nar| #[trigger] enc_at(data, p0, enc_node(v)) implies false by {
            };
        }
        Err(Error::BadArchive)
    }
}

/// Parse the rest of a symlink node, after the "symlink" token.
#[verifier::spinoff_prover]
#[verifier::rlimit(100)]
fn read_symlink_rest(r: &mut NixDeserializer, Ghost(data): Ghost<Seq<u8>>, Ghost(p0): Ghost<int>) -> (res:
    Result<Nar, Error>)
    requires
        old(r).wf(),
        old(r).data@ == data,
        forall|v: Nar|
            #[trigger] enc_at(data, p0, enc_node(v)) ==> v is Target && enc_at(
                data,
                old(r).pos as int,
                node_rest(v),
            ) && p0 + enc_node(v).len() == old(r).pos + node_rest(v).len(),
    ensures
        final(r).wf(),
        final(r).data == old(r).data,
        old(r).pos <= final(r).pos,
        node_complete(data, p0, final(r).pos as int, res),
{
    let ghost pr = r.pos as int;
    match expect_token(r, Token::Target) {
        Ok(_) => {},
        Err(e) => {
        proof {
            assert forall|v: Nar| #[trigger] enc_at(data, p0, enc_node(v)) implies false by {
                lemma_symlink_rest_head(data, pr, v->Target_0);
            };
        }
        return Err(e);
    },
    }
    let target = match r.read_byte_buf() {
        Ok(v) => v,
        Err(e) => {
            proof {
                assert forall|v: Nar| #[trigger] enc_at(data, p0, enc_node(v)) implies false by {
                    lemma_symlink_rest_head(data, pr, v->Target_0);
                };
            }
            return Err(e);
        },
    };
    match expect_token(r, Token::Close) {
        Ok(_) => {},
        Err(e) => {
        proof {
            assert forall|v: Nar| #[trigger] enc_at(data, p0, enc_node(v)) implies false by {
                lemma_symlink_rest_head(data, pr, v->Target_0);
            };
        }
        return Err(e);
    },
    }
    let ret = Nar::Target(NixString(target));
    proof {
        assert forall|v: Nar| #[trigger] enc_at(data, p0, enc_node(v)) implies final(r).pos as int
            == p0 + enc_node(v).len() && enc_node(ret) == enc_node(v) by {
            lemma_symlink_rest_head(data, pr, v->Target_0);
            assert(target@ == v->Target_0.0@);
            assert(enc_node(ret) == enc_node(v));
        };
    }
    Ok(ret)
}

/// Parse the rest of a directory node, after the "directory" token.
#[verifier::spinoff_prover]
#[verifier::rlimit(100)]
fn read_directory_rest(r: &mut NixDeserializer, Ghost(data): Ghost<Seq<u8>>, Ghost(p0): Ghost<int>) -> (res:
    Result<Nar, Error>)
    requires
        old(r).wf(),
        old(r).data@ == data,
        forall|v: Nar|
            #[trigger] enc_at(data, p0, enc_node(v)) ==> v is Directory && enc_at(
                data,
                old(r).pos as int,
                node_rest(v),
            ) && p0 + enc_node(v).len() == old(r).pos + node_rest(v).len(),
    ensures
        final(r).wf(),
        final(r).data == old(r).data,
        old(r).pos <= final(r).pos,
        node_complete(data, p0, final(r).pos as int, res),
    decreases r.data.len() - r.pos,
{
    let mut entries: Vec<NarDirectoryEntry> = Vec::new();
    loop
        invariant
            r.wf(),
            r.data == old(r).data,
            data == old(r).data@,
            old(r).pos <= r.pos,
            forall|v: Nar| #[trigger] enc_at(data, p0, enc_node(v)) ==> {
                let es = v->Directory_0@;
                &&& v is Directory
                &&& entries@.len() <= es.len()
                &&& enc_entries(entries@, 0) == enc_entries_upto(es, entries@.len() as int)
                &&& enc_at(data, r.pos as int, enc_entries(es, entries@.len() as int) + enc_bytes(
                    tok(Token::Close),
                ))
                &&& p0 + enc_node(v).len() == r.pos + (enc_entries(es, entries@.len() as int)
                    + enc_bytes(tok(Token::Close))).len()
            },
        decreases r.data.len() - r.pos,
    {
        let ghost k = entries@.len() as int;
        let ghost tagpos = r.pos as int;
        let tag = match r.read_byte_buf() {
            Ok(v) => v,
            Err(e) => {
                proof {
                    assert forall|v: Nar| #[trigger] enc_at(data, p0, enc_node(v)) implies false by {
                        lemma_dir_tag(data, tagpos, v->Directory_0@, k);
                    };
                }
                return Err(e);
            },
        };
        proof {
            assert(r.pos >= tagpos + 8) by {
                crate::serialize::lemma_dec_bytes_sound(data, tagpos);
                crate::serialize::lemma_le_bytes_len(tag@.len(), 8);
            };
        }
        if is_token(&tag, Token::Close) {
            let ret = Nar::Directory(entries);
            proof {
                assert forall|v: Nar| #[trigger] enc_at(data, p0, enc_node(v)) implies r.pos as int
                    == p0 + enc_node(v).len() && enc_node(ret) == enc_node(v) by {
                    let es = v->Directory_0@;
                    lemma_dir_tag(data, tagpos, es, k);
                    if k < es.len() {
                        assert(tag@ == tok(Token::Entry));
                        assert(tok(Token::Entry).len() != tok(Token::Close).len());
                        assert(false);
                    }
                    assert(k == es.len());
                    lemma_enc_entries_upto_all(es);
                    assert(enc_entries(ret->Directory_0@, 0) == enc_entries(es, 0));
                    assert(enc_node(ret) == enc_node(v));
                };
            }
            return Ok(ret);
        } else if is_token(&tag, Token::Entry) {
            proof {
                assert forall|v: Nar| #[trigger] enc_at(data, p0, enc_node(v)) implies {
                    let es = v->Directory_0@;
                    &&& k < es.len()
                    &&& enc_at(data, tagpos, enc_entry(es[k]))
                    &&& dec_bytes(data, tagpos) == Some((tok(Token::Entry), r.pos as int))
                    &&& enc_at(
                        data,
                        tagpos + enc_entry(es[k]).len(),
                        enc_entries(es, k + 1) + enc_bytes(tok(Token::Close)),
                    )
                    &&& p0 + enc_node(v).len() == tagpos + enc_entry(es[k]).len() + (enc_entries(
                        es,
                        k + 1,
                    ) + enc_bytes(tok(Token::Close))).len()
                } by {
                    let es = v->Directory_0@;
                    lemma_dir_tag(data, tagpos, es, k);
                    if k >= es.len() {
                        assert(tag@ == tok(Token::Close));
                        assert(tok(Token::Entry).len() != tok(Token::Close).len());
                        assert(false);
                    }
                };
            }
            let entry = match read_one_entry(r, Ghost(data), Ghost(p0), Ghost(tagpos), Ghost(k)) {
                Ok(e) => e,
                Err(e) => {
                    return Err(e);
                },
            };
            let ghost entries_before = entries@;
            entries.push(entry);
            proof {
                assert forall|v: Nar| #[trigger] enc_at(data, p0, enc_node(v)) implies {
                    let es = v->Directory_0@;
                    &&& v is Directory
                    &&& entries@.len() <= es.len()
                    &&& enc_entries(entries@, 0) == enc_entries_upto(es, entries@.len() as int)
                    &&& enc_at(
                        data,
                        r.pos as int,
                        enc_entries(es, entries@.len() as int) + enc_bytes(tok(Token::Close)),
                    )
                    &&& p0 + enc_node(v).len() == r.pos + (enc_entries(es, entries@.len() as int)
                        + enc_bytes(tok(Token::Close))).len()
                } by {
                    let es = v->Directory_0@;
                    assert(r.pos as int == tagpos + enc_entry(es[k]).len());
                    assert(entries@.len() as int == k + 1);
                    assert(entries@ =~= entries_before.push(entry));
                    lemma_enc_entries_push(entries_before, entry, 0);
                    lemma_enc_entries_upto_snoc(es, k + 1);
                    assert(enc_entry(entry) == enc_entry(es[k]));
                    assert(enc_entries(entries@, 0) == enc_entries_upto(es, k + 1));
                };
            }
        } else {
            proof {
                assert forall|v: Nar| #[trigger] enc_at(data, p0, enc_node(v)) implies false by {
                    let es = v->Directory_0@;
                    lemma_dir_tag(data, tagpos, es, k);
                };
            }
            return Err(Error::BadArchive);
        }
    }
}

/// What the next token of a directory body must be: "entry" before the
/// last entry, ")" after it.
proof fn lemma_dir_tag(data: Seq<u8>, p: int, es: Seq<NarDirectoryEntry>, k: int)
    requires
        0 <= k,
        enc_at(data, p, enc_entries(es, k) + enc_bytes(tok(Token::Close))),
    ensures
        k < es.len() ==> (dec_bytes(data, p) matches Some((s, _)) && s == tok(Token::Entry)),
        k < es.len() ==> enc_at(data, p, enc_entry(es[k])),
        k < es.len() ==> enc_at(
            data,
            p + enc_entry(es[k]).len(),
            enc_entries(es, k + 1) + enc_bytes(tok(Token::Close)),
        ),
        k >= es.len() ==> dec_bytes(data, p) == Some(
            (tok(Token::Close), p + enc_bytes(tok(Token::Close)).len() as int),
        ),
        k >= es.len() ==> enc_entries(es, k).len() == 0,
{
    if k < es.len() {
        assert(enc_entries(es, k) + enc_bytes(tok(Token::Close)) =~= enc_entry(es[k]) + (
        enc_entries(es, k + 1) + enc_bytes(tok(Token::Close))));
        lemma_enc_at_split(data, p, enc_entry(es[k]), enc_entries(es, k + 1) + enc_bytes(
            tok(Token::Close),
        ));
        lemma_entry_head(data, p, es[k]);
    } else {
        assert(enc_entries(es, k).len() == 0);
        assert(enc_entries(es, k) + enc_bytes(tok(Token::Close)) =~= enc_bytes(tok(Token::Close)));
        lemma_tok_complete(data, p, Token::Close);
    }
}

/// Parse one directory entry, after its "entry" token has been read.
#[verifier::spinoff_prover]
#[verifier::rlimit(100)]
fn read_one_entry(
    r: &mut NixDeserializer,
    Ghost(data): Ghost<Seq<u8>>,
    Ghost(p0): Ghost<int>,
    Ghost(tagpos): Ghost<int>,
    Ghost(k): Ghost<int>,
) -> (res: Result<NarDirectoryEntry, Error>)
    requires
        old(r).wf(),
        old(r).data@ == data,
        0 <= k,
        forall|v: Nar| #[trigger] enc_at(data, p0, enc_node(v)) ==> {
            let es = v->Directory_0@;
            &&& v is Directory
            &&& k < es.len()
            &&& enc_at(data, tagpos, enc_entry(es[k]))
            &&& dec_bytes(data, tagpos) == Some(
                (tok(Token::Entry), old(r).pos as int),
            )
        },
    ensures
        final(r).wf(),
        final(r).data == old(r).data,
        old(r).pos <= final(r).pos,
        forall|v: Nar| #[trigger] enc_at(data, p0, enc_node(v)) ==> {
            &&& final(r).pos as int == tagpos + enc_entry(v->Directory_0@[k]).len()
            &&& (res matches Ok(e2) && enc_entry(e2) == enc_entry(v->Directory_0@[k]))
        },
    decreases r.data.len() - r.pos,
{
    match expect_token(r, Token::Open) {
        Ok(_) => {},
        Err(e) => {
        proof {
            assert forall|v: Nar| #[trigger] enc_at(data, p0, enc_node(v)) implies false by {
                lemma_entry_head(data, tagpos, v->Directory_0@[k]);
            };
        }
        return Err(e);
    },
    }
    match expect_token(r, Token::Name) {
        Ok(_) => {},
        Err(e) => {
        proof {
            assert forall|v: Nar| #[trigger] enc_at(data, p0, enc_node(v)) implies false by {
                lemma_entry_head(data, tagpos, v->Directory_0@[k]);
            };
        }
        return Err(e);
    },
    }
    let name = match r.read_byte_buf() {
        Ok(v) => v,
        Err(e) => {
            proof {
                assert forall|v: Nar| #[trigger] enc_at(data, p0, enc_node(v)) implies false by {
                    lemma_entry_head(data, tagpos, v->Directory_0@[k]);
                };
            }
            return Err(e);
        },
    };
    match expect_token(r, Token::Node) {
        Ok(_) => {},
        Err(e) => {
        proof {
            assert forall|v: Nar| #[trigger] enc_at(data, p0, enc_node(v)) implies false by {
                lemma_entry_head(data, tagpos, v->Directory_0@[k]);
            };
        }
        return Err(e);
    },
    }
    proof {
        assert forall|v: Nar| #[trigger] enc_at(data, p0, enc_node(v)) implies enc_at(
            data,
            r.pos as int,
            enc_node(v->Directory_0@[k].node),
        ) by {
            lemma_entry_head(data, tagpos, v->Directory_0@[k]);
        };
    }
    let ghost nodepos = r.pos as int;
    let node = match read_node(r) {
        Ok(n) => n,
        Err(e) => {
            proof {
                assert forall|v: Nar| #[trigger] enc_at(data, p0, enc_node(v)) implies false by {
                    lemma_entry_head(data, tagpos, v->Directory_0@[k]);
                };
            }
            return Err(e);
        },
    };
    match expect_token(r, Token::Close) {
        Ok(_) => {},
        Err(e) => {
        proof {
            assert forall|v: Nar| #[trigger] enc_at(data, p0, enc_node(v)) implies false by {
                lemma_entry_head(data, tagpos, v->Directory_0@[k]);
            };
        }
        return Err(e);
    },
    }
    let ret = NarDirectoryEntry { name: NixString(name), node };
    proof {
        assert forall|v: Nar| #[trigger] enc_at(data, p0, enc_node(v)) implies final(r).pos
            as int == tagpos + enc_entry(v->Directory_0@[k]).len() && enc_entry(ret) == enc_entry(
            v->Directory_0@[k],
        ) by {
            let e0 = v->Directory_0@[k];
            lemma_entry_head(data, tagpos, e0);
            assert(name@ == e0.name.0@);
            assert(enc_node(ret.node) == enc_node(e0.node));
            assert(enc_entry(ret) == enc_entry(e0));
        };
    }
    Ok(ret)
}

/// Parse a whole archive: the magic token, then one node.
pub fn read_nar(r: &mut NixDeserializer) -> (res: Result<Nar, Error>)
    requires
        old(r).wf(),
    ensures
        final(r).wf(),
        final(r).data == old(r).data,
        old(r).pos <= final(r).pos,
        forall|v: Nar|
            #[trigger] enc_at(old(r).data@, old(r).pos as int, enc_nar(v)) ==> {
                &&& final(r).pos as int == old(r).pos + enc_nar(v).len()
                &&& (res matches Ok(n) && enc_nar(n) == enc_nar(v))
            },
{
    let ghost data = old(r).data@;
    let ghost p0 = old(r).pos as int;
    match expect_token(r, Token::Archive) {
        Ok(_) => {},
        Err(e) => {
        proof {
            assert forall|v: Nar| #[trigger] enc_at(data, p0, enc_nar(v)) implies false by {
                lemma_enc_at_split(data, p0, enc_bytes(tok(Token::Archive)), enc_node(v));
                lemma_tok_complete(data, p0, Token::Archive);
            };
        }
        return Err(e);
    },
    }
    let res = read_node(r);
    proof {
        assert forall|v: Nar| #[trigger] enc_at(data, p0, enc_nar(v)) implies final(r).pos as int
            == p0 + enc_nar(v).len() && (res matches Ok(n) && enc_nar(n) == enc_nar(v)) by {
            lemma_enc_at_split(data, p0, enc_bytes(tok(Token::Archive)), enc_node(v));
            lemma_tok_complete(data, p0, Token::Archive);
        };
    }
    match res {
        Ok(n) => Ok(n),
        Err(e) => Err(e),
    }
}

/// Copy one whole NAR from the input to the output: parse just enough
/// to find the archive's end, and forward exactly the consumed bytes.
/// On an input holding a serialized archive at the cursor, the copy
/// succeeds and ends exactly at the archive's last byte.
pub fn stream(r: &mut NixDeserializer, w: &mut NixSerializer) -> (res: Result<(), Error>)
    requires
        old(r).wf(),
    ensures
        final(r).wf(),
        final(r).data == old(r).data,
        old(r).pos <= final(r).pos,
        res is Ok ==> final(w).out@ == old(w).out@ + old(r).data@.subrange(
            old(r).pos as int,
            final(r).pos as int,
        ),
        res is Err ==> *final(w) == *old(w),
        forall|v: Nar|
            #[trigger] enc_at(old(r).data@, old(r).pos as int, enc_nar(v)) ==> res is Ok && final(r).pos as int == old(r).pos + enc_nar(v).len(),
{
    let start = r.pos;
    let res = match read_nar(r) {
        Ok(_) => Ok(()),
        Err(e) => Err(e),
    };
    if res.is_ok() {
        let mut i: usize = start;
        while i < r.pos
            invariant
                r.wf(),
                start <= i <= r.pos,
                w.out@ == old(w).out@ + r.data@.subrange(start as int, i as int),
            decreases r.pos - i,
        {
            let b = r.data[i];
            w.out.push(b);
            i = i + 1;
            proof {
                assert(w.out@ =~= old(w).out@ + r.data@.subrange(start as int, i as int));
            }
        }
    }
    res
}


/// Lexicographic byte order on names, read from index i on.
pub open spec fn name_le_from(a: Seq<u8>, b: Seq<u8>, i: int) -> bool
    decreases a.len() - i,
{
    if i < 0 || i >= a.len() {
        true
    } else if i >= b.len() {
        false
    } else if a[i] < b[i] {
        true
    } else if a[i] > b[i] {
        false
    } else {
        name_le_from(a, b, i + 1)
    }
}

/// Lexicographic byte order on names.
pub open spec fn name_le(a: Seq<u8>, b: Seq<u8>) -> bool {
    name_le_from(a, b, 0)
}

/// Any two names compare one way or the other.
pub proof fn lemma_name_le_total(a: Seq<u8>, b: Seq<u8>, i: int)
    ensures
        name_le_from(a, b, i) || name_le_from(b, a, i),
    decreases a.len() - i,
{
    if 0 <= i < a.len() && i < b.len() && a[i] == b[i] {
        lemma_name_le_total(a, b, i + 1);
    }
}

/// Whether one name is lexicographically at most another.
pub fn name_le_vec(a: &Vec<u8>, b: &Vec<u8>) -> (r: bool)
    ensures
        r == name_le(a@, b@),
{
    let mut i: usize = 0;
    loop
        invariant
            i <= a@.len(),
            i <= b@.len(),
            name_le(a@, b@) == name_le_from(a@, b@, i as int),
        decreases a@.len() - i,
    {
        if i >= a.len() {
            return true;
        }
        if i >= b.len() {
            return false;
        }
        if a[i] < b[i] {
            return true;
        }
        if a[i] > b[i] {
            return false;
        }
        i = i + 1;
    }
}

/// The names of a directory's entries, in order.
pub open spec fn entry_names(es: Seq<NarDirectoryEntry>) -> Seq<Seq<u8>> {
    es.map_values(|e: NarDirectoryEntry| e.name.0@)
}

/// Names in ascending order, each adjacent pair in place.
pub open spec fn names_sorted(ns: Seq<Seq<u8>>) -> bool {
    forall|i: int| 0 <= i < ns.len() - 1 ==> name_le(#[trigger] ns[i], ns[i + 1])
}

/// Strictly before: at most and not the same name.
pub open spec fn name_lt(a: Seq<u8>, b: Seq<u8>) -> bool {
    name_le(a, b) && a != b
}

/// Names in strictly ascending order: no duplicates.
pub open spec fn names_strictly_sorted(ns: Seq<Seq<u8>>) -> bool {
    forall|i: int| 0 <= i < ns.len() - 1 ==> name_lt(#[trigger] ns[i], ns[i + 1])
}

/// Canonical form: strictly ascending names at every depth.
pub open spec fn nar_strictly_sorted(n: Nar) -> bool
    decreases n, 1int, 0int,
{
    match n {
        Nar::Contents(_) => true,
        Nar::Target(_) => true,
        Nar::Directory(es) => {
            &&& names_strictly_sorted(entry_names(es@))
            &&& forall|i: int| 0 <= i < es@.len() ==> nar_strictly_sorted(#[trigger] es@[i].node)
        },
    }
}

/// Names each at most the other are the same name.
pub proof fn lemma_name_le_antisym(a: Seq<u8>, b: Seq<u8>, i: int)
    requires
        0 <= i <= a.len(),
        i <= b.len(),
        name_le_from(a, b, i),
        name_le_from(b, a, i),
    ensures
        a.len() == b.len(),
        forall|k: int| i <= k < a.len() ==> a[k] == b[k],
    decreases a.len() - i,
{
    if i >= a.len() {
        assert(i >= b.len());
    } else {
        assert(i < b.len());
        assert(a[i] == b[i]);
        lemma_name_le_antisym(a, b, i + 1);
    }
}

/// The entry context in which sorting is the identity: strictly
/// ascending names, every subtree already in canonical form.
pub open spec fn entries_strict(orig: Seq<NarDirectoryEntry>) -> bool {
    &&& names_strictly_sorted(entry_names(orig))
    &&& forall|i: int| 0 <= i < orig.len() ==> nar_strictly_sorted(#[trigger] orig[i].node)
}

/// Concatenated entry encodings shift over an insertion at the front.
proof fn lemma_enc_entries_insert0(s: Seq<NarDirectoryEntry>, x: NarDirectoryEntry, i: int)
    requires
        0 <= i <= s.len(),
    ensures
        enc_entries(s.insert(0, x), i + 1) == enc_entries(s, i),
    decreases s.len() - i,
{
    if i < s.len() {
        assert(s.insert(0, x)[i + 1] == s[i]);
        lemma_enc_entries_insert0(s, x, i + 1);
    }
}

/// Every directory's entries are in ascending order by name, at every
/// depth. This is the canonical form in which archives are emitted.
pub open spec fn nar_sorted(n: Nar) -> bool
    decreases n, 1int, 0int,
{
    match n {
        Nar::Contents(_) => true,
        Nar::Target(_) => true,
        Nar::Directory(es) => {
            &&& names_sorted(entry_names(es@))
            &&& forall|i: int| 0 <= i < es@.len() ==> nar_sorted(#[trigger] es@[i].node)
        },
    }
}

/// Inserting a name at the boundary its order demands keeps the run
/// sorted.
proof fn lemma_names_sorted_insert(ns: Seq<Seq<u8>>, i: int, x: Seq<u8>)
    requires
        names_sorted(ns),
        0 <= i <= ns.len(),
        forall|k: int| 0 <= k < i ==> name_le(#[trigger] ns[k], x),
        i < ns.len() ==> name_le(x, ns[i]),
    ensures
        names_sorted(ns.insert(i, x)),
{
    let u = ns.insert(i, x);
    assert forall|k: int| 0 <= k < u.len() - 1 implies name_le(#[trigger] u[k], u[k + 1]) by {
        if k + 1 < i {
            assert(u[k] == ns[k] && u[k + 1] == ns[k + 1]);
        } else if k + 1 == i {
            assert(u[k] == ns[k] && u[k + 1] == x);
        } else if k == i {
            assert(u[k] == x && u[k + 1] == ns[i]);
        } else {
            assert(u[k] == ns[k - 1] && u[k + 1] == ns[k]);
        }
    };
}

/// Inserting an entry adds exactly its name to the name multiset.
proof fn lemma_names_insert_multiset(s: Seq<NarDirectoryEntry>, i: int, e: NarDirectoryEntry)
    requires
        0 <= i <= s.len(),
    ensures
        entry_names(s.insert(i, e)).to_multiset() == entry_names(s).to_multiset().insert(
            e.name.0@,
        ),
{
    broadcast use vstd::seq_lib::group_to_multiset_ensures;
    broadcast use vstd::multiset::group_multiset_axioms;

    let ns = entry_names(s);
    let x = e.name.0@;
    let u = ns.insert(i, x);
    assert(entry_names(s.insert(i, e)) =~= u);
    assert(u.remove(i) =~= ns);
    assert(u[i] == x);
    assert(u.remove(i).to_multiset() =~= u.to_multiset().remove(u[i]));
    assert(u.to_multiset().contains(x));
    assert(u.to_multiset() =~= ns.to_multiset().insert(x));
}

/// Sort one node recursively: directories get their entries in
/// ascending order by name, and every child is sorted the same way.
/// Each directory keeps exactly the names it had; files and symlinks
/// come back unchanged.
fn sorted_node(n: Nar) -> (r: Nar)
    ensures
        nar_sorted(r),
        match n {
            Nar::Contents(f) => r == Nar::Contents(f),
            Nar::Target(s) => r == Nar::Target(s),
            Nar::Directory(es) => r is Directory && entry_names(
                r->Directory_0@,
            ).to_multiset() == entry_names(es@).to_multiset() && r->Directory_0@.len()
                == es@.len(),
        },
        // on input already in canonical form, sorting is the identity,
        // so sorting is idempotent at the encoding level
        nar_strictly_sorted(n) ==> enc_node(r) == enc_node(n),
    decreases n, 0int,
{
    let ghost n0 = n;
    match n {
        Nar::Contents(f) => Nar::Contents(f),
        Nar::Target(s) => Nar::Target(s),
        Nar::Directory(es) => {
            broadcast use vstd::seq_lib::group_to_multiset_ensures;

            let ghost orig = es@;
            proof {
                assert(decreases_to!(n0 => n0->Directory_0));
                assert(decreases_to!(es => es@));
                assert(es@ =~= orig.subrange(0, es@.len() as int));
                assert(entry_names(Seq::<NarDirectoryEntry>::empty()) =~= Seq::<
                    Seq<u8>,
                >::empty());
                assert(entry_names(orig).subrange(orig.len() as int, orig.len() as int) =~= Seq::<
                    Seq<u8>,
                >::empty());
                assert(enc_entries(orig, orig.len() as int) =~= Seq::<u8>::empty());
            }
            let out = sort_entries(es, Vec::new(), Ghost(orig));
            let ret = Nar::Directory(out);
            proof {
                assert(entry_names(out@).to_multiset() =~= entry_names(
                    n0->Directory_0@,
                ).to_multiset());
                if nar_strictly_sorted(n0) {
                    assert(entries_strict(orig));
                    assert(enc_entries(ret->Directory_0@, 0) == enc_entries(orig, 0));
                    assert(enc_node(ret) == enc_node(n0));
                }
            }
            ret
        },
    }
}

/// Move every entry of es into out, keeping out in ascending order by
/// name and sorting each entry's subtree on the way.
fn sort_entries(
    es: Vec<NarDirectoryEntry>,
    out: Vec<NarDirectoryEntry>,
    Ghost(orig): Ghost<Seq<NarDirectoryEntry>>,
) -> (r: Vec<NarDirectoryEntry>)
    requires
        names_sorted(entry_names(out@)),
        forall|i: int| 0 <= i < out@.len() ==> nar_sorted(#[trigger] out@[i].node),
        es@.len() <= orig.len(),
        es@ == orig.subrange(0, es@.len() as int),
        // in the identity context, out already holds the processed
        // suffix unchanged
        entries_strict(orig) ==> {
            &&& entry_names(out@) == entry_names(orig).subrange(
                es@.len() as int,
                orig.len() as int,
            )
            &&& enc_entries(out@, 0) == enc_entries(orig, es@.len() as int)
        },
    ensures
        names_sorted(entry_names(r@)),
        forall|i: int| 0 <= i < r@.len() ==> nar_sorted(#[trigger] r@[i].node),
        entry_names(r@).to_multiset() == entry_names(out@).to_multiset().add(
            entry_names(es@).to_multiset(),
        ),
        r@.len() == out@.len() + es@.len(),
        entries_strict(orig) ==> enc_entries(r@, 0) == enc_entries(orig, 0),
    decreases es@, 1int,
{
    broadcast use vstd::seq_lib::group_to_multiset_ensures;
    broadcast use vstd::multiset::group_multiset_axioms;

    let ghost es0 = es@;
    let mut es = es;
    let mut out = out;
    if es.len() == 0 {
        proof {
            assert(entry_names(es@) =~= Seq::<Seq<u8>>::empty());
            assert(entry_names(out@).to_multiset().add(entry_names(es@).to_multiset())
                =~= entry_names(out@).to_multiset());
        }
        return out;
    }
    let ghost m = es@.len() as int;
    let e = match es.pop() {
        Some(e) => e,
        None => {
            proof {
                assert(false);
            }
            return out;
        },
    };
    proof {
        assert(decreases_to!(es0 => es0[es0.len() - 1]));
        assert(decreases_to!(es0[es0.len() - 1] => es0[es0.len() - 1].node));
        assert(e == es0[es0.len() - 1]);
        assert(es0 == orig.subrange(0, m));
        assert(es0[m - 1] == orig.subrange(0, m)[m - 1]);
        assert(e == orig[m - 1]);
        assert(es0 =~= es@.push(e));
        assert(entry_names(es0) =~= entry_names(es@).push(e.name.0@));
        if entries_strict(orig) {
            assert(nar_strictly_sorted(orig[m - 1].node));
        }
    }
    let node = sorted_node(e.node);
    let e2 = NarDirectoryEntry { name: e.name, node };
    let mut idx: usize = 0;
    loop
        invariant
            idx <= out@.len(),
            forall|k: int| 0 <= k < idx ==> name_le(#[trigger] out@[k].name.0@, e2.name.0@),
        ensures
            idx <= out@.len(),
            forall|k: int| 0 <= k < idx ==> name_le(#[trigger] out@[k].name.0@, e2.name.0@),
            idx < out@.len() ==> name_le(e2.name.0@, out@[idx as int].name.0@),
        decreases out@.len() - idx,
    {
        if idx >= out.len() {
            break ;
        }
        if !name_le_vec(&out[idx].name.0, &e2.name.0) {
            proof {
                lemma_name_le_total(out@[idx as int].name.0@, e2.name.0@, 0);
            }
            break ;
        }
        idx = idx + 1;
    }
    proof {
        assert(forall|k: int|
            0 <= k < idx ==> name_le(#[trigger] entry_names(out@)[k], e2.name.0@));
        lemma_names_sorted_insert(entry_names(out@), idx as int, e2.name.0@);
        lemma_names_insert_multiset(out@, idx as int, e2);
    }
    let ghost out_before = out@;
    proof {
        if entries_strict(orig) {
            // in the identity context the new entry goes to the front:
            // its name comes strictly before everything accumulated
            assert(entry_names(out_before) == entry_names(orig).subrange(m, orig.len() as int));
            if idx > 0 {
                assert(name_le(out_before[0].name.0@, e2.name.0@));
                assert(entry_names(out_before)[0] == entry_names(orig)[m]);
                assert(e2.name.0@ == entry_names(orig)[m - 1]);
                assert(name_lt(entry_names(orig)[m - 1], entry_names(orig)[m]));
                lemma_name_le_antisym(entry_names(orig)[m], entry_names(orig)[m - 1], 0);
                assert(entry_names(orig)[m] =~= entry_names(orig)[m - 1]);
                assert(false);
            }
        }
    }
    out.insert(idx, e2);
    proof {
        assert(entry_names(out@) =~= entry_names(out_before).insert(idx as int, e2.name.0@));
        assert(forall|i: int| 0 <= i < out@.len() ==> nar_sorted(#[trigger] out@[i].node)) by {
            assert(forall|i: int|
                0 <= i < out@.len() ==> out@[i] == (if i < idx {
                    out_before[i]
                } else if i == idx {
                    e2
                } else {
                    out_before[i - 1]
                }));
        };
        assert(decreases_to!(es0 => es0.subrange(0, es0.len() - 1)));
        assert(es@ == es0.subrange(0, es0.len() - 1));
        assert(es@ =~= orig.subrange(0, es@.len() as int)) by {
            assert(forall|j: int|
                0 <= j < m - 1 ==> es@[j] == es0[j] && es0[j] == orig.subrange(0, m)[j]);
        };
        // the moved entry's name changed sides of the split
        assert(entry_names(out@).to_multiset().add(entry_names(es@).to_multiset())
            =~= entry_names(out_before).to_multiset().add(entry_names(es0).to_multiset()));
        if entries_strict(orig) {
            assert(idx == 0);
            assert(out@ =~= out_before.insert(0, e2));
            assert(entry_names(out@) =~= entry_names(orig).subrange(m - 1, orig.len() as int));
            lemma_enc_entries_insert0(out_before, e2, 0);
            assert(enc_entries(out@, 1) == enc_entries(out_before, 0));
            assert(out@[0] == e2);
            assert(enc_node(e2.node) == enc_node(orig[m - 1].node));
            assert(e2.name == orig[m - 1].name);
            assert(enc_entry(e2) == enc_entry(orig[m - 1]));
            assert(enc_entries(out@, 0) == enc_entry(orig[m - 1]) + enc_entries(orig, m));
            assert(enc_entries(out@, 0) == enc_entries(orig, m - 1));
        }
    }
    let r = sort_entries(es, out, Ghost(orig));
    proof {
        assert(entry_names(r@).to_multiset() =~= entry_names(out_before).to_multiset().add(
            entry_names(es0).to_multiset(),
        ));
    }
    r
}

impl Nar {
    /// Recursively sort all directories by name.
    pub fn sort(&mut self)
        ensures
            nar_sorted(*final(self)),
            // sorting an archive already in canonical form changes
            // nothing; in particular sorting twice is sorting once
            nar_strictly_sorted(*old(self)) ==> enc_node(*final(self)) == enc_node(*old(self)),
            match *old(self) {
                Nar::Contents(f) => *final(self) == Nar::Contents(f),
                Nar::Target(s) => *final(self) == Nar::Target(s),
                Nar::Directory(es) => ({
                    let f = *final(self);
                    f is Directory && entry_names(f->Directory_0@).to_multiset() == entry_names(
                        es@,
                    ).to_multiset() && f->Directory_0@.len() == es@.len()
                }),
            },
    {
        let mut taken = Nar::Directory(Vec::new());
        core::mem::swap(&mut taken, self);
        let sorted = sorted_node(taken);
        *self = sorted;
    }
}

} // verus!
