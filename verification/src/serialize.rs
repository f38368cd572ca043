//! The primitive wire codec of the Nix remote protocol.
//!
//! The protocol has two scalar encodings: 64-bit little-endian integers,
//! and byte buffers written as a length, the raw bytes, and zero-padding
//! up to the next 8-byte boundary. Composites are concatenations of
//! their fields; sequences carry a leading element count; options carry
//! a 0/1 tag.
//!
//! Every encodable type implements [`Wire`]: a specification-level
//! encoder `enc`, a specification-level recognizer `rec` that tells
//! where a well-formed encoding ends, a completeness lemma tying the
//! two together, and executable `encode`/`decode` functions whose
//! contracts are exact with respect to `enc` and `rec`.

use vstd::prelude::*;
use vstd::std_specs::vec::spec_vec_len;

verus! {

/// Decoding and protocol errors. Any of these ends the session.
#[derive(Clone, Copy, Debug, PartialEq, Eq, Structural)]
pub enum Error {
    /// The input ended before a complete item could be read.
    Truncated,
    /// A byte buffer's zero-padding contained a nonzero byte.
    BadPadding,
    /// A tagged union carried a tag that matches no variant.
    UnknownTag(u64),
    /// A boolean field held a value other than 0 or 1.
    BadBool(u64),
    /// An option tag held a value other than 0 or 1.
    BadOptionTag(u64),
    /// A handshake magic word did not match.
    BadMagic(u64),
    /// The peer advertised a protocol version below the minimum.
    OldVersion(u64),
    /// A NAR archive token was not the one the grammar demands.
    BadArchive,
}

/// 256^k.
pub open spec fn pow256(k: nat) -> nat
    decreases k,
{
    if k == 0 {
        1
    } else {
        256 * pow256((k - 1) as nat)
    }
}

/// The k low-order bytes of n, least significant first.
pub open spec fn le_bytes(n: nat, k: nat) -> Seq<u8>
    decreases k,
{
    if k == 0 {
        Seq::empty()
    } else {
        seq![(n % 256) as u8] + le_bytes(n / 256, (k - 1) as nat)
    }
}

/// The value of a little-endian byte string.
pub open spec fn le_val(s: Seq<u8>) -> nat
    decreases s.len(),
{
    if s.len() == 0 {
        0
    } else {
        s[0] as nat + 256 * le_val(s.skip(1))
    }
}

/// The wire encoding of a 64-bit integer.
pub open spec fn u64_le(n: u64) -> Seq<u8> {
    le_bytes(n as nat, 8)
}

pub proof fn lemma_le_bytes_len(n: nat, k: nat)
    ensures
        le_bytes(n, k).len() == k,
    decreases k,
{
    if k > 0 {
        lemma_le_bytes_len(n / 256, (k - 1) as nat);
    }
}

pub proof fn lemma_le_val_le_bytes(n: nat, k: nat)
    requires
        n < pow256(k),
    ensures
        le_val(le_bytes(n, k)) == n,
    decreases k,
{
    if k == 0 {
    } else {
        let rest = le_bytes(n / 256, (k - 1) as nat);
        assert((seq![(n % 256) as u8] + rest).skip(1) =~= rest);
        assert(n / 256 < pow256((k - 1) as nat)) by {
            assert(pow256(k) == 256 * pow256((k - 1) as nat));
        };
        lemma_le_val_le_bytes(n / 256, (k - 1) as nat);
        lemma_le_bytes_len(n / 256, (k - 1) as nat);
    }
}

pub proof fn lemma_le_val_bound(s: Seq<u8>)
    ensures
        le_val(s) < pow256(s.len()),
    decreases s.len(),
{
    if s.len() > 0 {
        lemma_le_val_bound(s.skip(1));
    }
}

pub proof fn lemma_le_bytes_le_val(s: Seq<u8>)
    ensures
        le_bytes(le_val(s), s.len()) == s,
    decreases s.len(),
{
    if s.len() == 0 {
        assert(le_bytes(le_val(s), s.len()) =~= s);
    } else {
        let r = s.skip(1);
        lemma_le_bytes_le_val(r);
        assert(le_val(s) == s[0] + 256 * le_val(r));
        assert(le_val(s) % 256 == s[0] && le_val(s) / 256 == le_val(r)) by {
            assert(s[0] < 256);
        };
        assert(le_bytes(le_val(s), s.len()) == seq![s[0]] + le_bytes(le_val(r), (s.len() - 1) as nat));
        assert(seq![s[0]] + r =~= s);
    }
}

/// An encoding e occupies data at position pos.
pub open spec fn enc_at(data: Seq<u8>, pos: int, e: Seq<u8>) -> bool {
    &&& 0 <= pos
    &&& pos + e.len() <= data.len()
    &&& data.subrange(pos, pos + e.len() as int) == e
}

pub proof fn lemma_enc_at_split(data: Seq<u8>, pos: int, e1: Seq<u8>, e2: Seq<u8>)
    requires
        enc_at(data, pos, e1 + e2),
    ensures
        enc_at(data, pos, e1),
        enc_at(data, pos + e1.len(), e2),
{
    let whole = data.subrange(pos, pos + e1.len() + e2.len());
    assert(whole == e1 + e2);
    assert(forall|j: int| 0 <= j < whole.len() ==> whole[j] == data[pos + j]);
    assert(data.subrange(pos, pos + e1.len() as int) =~= e1) by {
        assert(forall|i: int| 0 <= i < e1.len() ==> whole[i] == (e1 + e2)[i] && (e1 + e2)[i] == e1[i]);
    };
    assert(data.subrange(pos + e1.len(), pos + e1.len() + e2.len()) =~= e2) by {
        assert(forall|i: int|
            0 <= i < e2.len() ==> whole[i + e1.len()] == (e1 + e2)[i + e1.len()] && (e1 + e2)[i
                + e1.len()] == e2[i]);
    };
}

pub proof fn lemma_subrange_concat(data: Seq<u8>, a: int, b: int, c: int)
    requires
        0 <= a <= b <= c <= data.len(),
    ensures
        data.subrange(a, c) == data.subrange(a, b) + data.subrange(b, c),
{
    assert(data.subrange(a, c) =~= data.subrange(a, b) + data.subrange(b, c));
}

/// A 64-bit integer read from data at pos, with the position after it.
pub open spec fn dec_u64(data: Seq<u8>, pos: int) -> Option<(u64, int)> {
    if 0 <= pos && pos + 8 <= data.len() {
        Some((le_val(data.subrange(pos, pos + 8)) as u64, pos + 8))
    } else {
        None
    }
}

pub proof fn lemma_pow256_8()
    ensures
        pow256(8) == 0x1_0000_0000_0000_0000,
{
    reveal_with_fuel(pow256, 9);
}

/// dec_u64 recovers exactly the integer that u64_le wrote.
pub proof fn lemma_dec_u64_complete(data: Seq<u8>, pos: int, v: u64)
    requires
        enc_at(data, pos, u64_le(v)),
    ensures
        dec_u64(data, pos) == Some((v, pos + 8)),
{
    lemma_le_bytes_len(v as nat, 8);
    lemma_pow256_8();
    lemma_le_val_le_bytes(v as nat, 8);
}

/// A successful dec_u64 read exactly the bytes u64_le would write.
pub proof fn lemma_dec_u64_sound(data: Seq<u8>, pos: int)
    requires
        dec_u64(data, pos) is Some,
    ensures
        ({
            let (v, end) = dec_u64(data, pos)->Some_0;
            end == pos + 8 && enc_at(data, pos, u64_le(v))
        }),
{
    let s = data.subrange(pos, pos + 8);
    lemma_le_val_bound(s);
    lemma_pow256_8();
    lemma_le_bytes_le_val(s);
    lemma_le_bytes_len(le_val(s), 8);
}



pub proof fn lemma_assoc2(x: Seq<u8>, a: Seq<u8>, b: Seq<u8>)
    ensures
        (x + a) + b == x + (a + b),
{
    assert((x + a) + b =~= x + (a + b));
}

pub proof fn lemma_assoc3(
    x: Seq<u8>,
    a1: Seq<u8>,
    a2: Seq<u8>,
    a3: Seq<u8>,
)
    ensures
        ((x + a1) + a2) + a3 == x + (a1 + (a2 + a3)),
{
    lemma_assoc2((x + a1), a2, a3);
    lemma_assoc2(x, a1, (a2 + a3));
}

pub proof fn lemma_assoc4(
    x: Seq<u8>,
    a1: Seq<u8>,
    a2: Seq<u8>,
    a3: Seq<u8>,
    a4: Seq<u8>,
)
    ensures
        (((x + a1) + a2) + a3) + a4 == x + (a1 + (a2 + (a3 + a4))),
{
    lemma_assoc2(((x + a1) + a2), a3, a4);
    lemma_assoc2((x + a1), a2, (a3 + a4));
    lemma_assoc2(x, a1, (a2 + (a3 + a4)));
}

pub proof fn lemma_assoc5(
    x: Seq<u8>,
    a1: Seq<u8>,
    a2: Seq<u8>,
    a3: Seq<u8>,
    a4: Seq<u8>,
    a5: Seq<u8>,
)
    ensures
        ((((x + a1) + a2) + a3) + a4) + a5 == x + (a1 + (a2 + (a3 + (a4 + a5)))),
{
    lemma_assoc2((((x + a1) + a2) + a3), a4, a5);
    lemma_assoc2(((x + a1) + a2), a3, (a4 + a5));
    lemma_assoc2((x + a1), a2, (a3 + (a4 + a5)));
    lemma_assoc2(x, a1, (a2 + (a3 + (a4 + a5))));
}

pub proof fn lemma_assoc6(
    x: Seq<u8>,
    a1: Seq<u8>,
    a2: Seq<u8>,
    a3: Seq<u8>,
    a4: Seq<u8>,
    a5: Seq<u8>,
    a6: Seq<u8>,
)
    ensures
        (((((x + a1) + a2) + a3) + a4) + a5) + a6 == x + (a1 + (a2 + (a3 + (a4 + (a5 + a6))))),
{
    lemma_assoc2(((((x + a1) + a2) + a3) + a4), a5, a6);
    lemma_assoc2((((x + a1) + a2) + a3), a4, (a5 + a6));
    lemma_assoc2(((x + a1) + a2), a3, (a4 + (a5 + a6)));
    lemma_assoc2((x + a1), a2, (a3 + (a4 + (a5 + a6))));
    lemma_assoc2(x, a1, (a2 + (a3 + (a4 + (a5 + a6)))));
}

pub proof fn lemma_assoc7(
    x: Seq<u8>,
    a1: Seq<u8>,
    a2: Seq<u8>,
    a3: Seq<u8>,
    a4: Seq<u8>,
    a5: Seq<u8>,
    a6: Seq<u8>,
    a7: Seq<u8>,
)
    ensures
        ((((((x + a1) + a2) + a3) + a4) + a5) + a6) + a7 == x + (a1 + (a2 + (a3 + (a4 + (a5 + (a6 + a7)))))),
{
    lemma_assoc2((((((x + a1) + a2) + a3) + a4) + a5), a6, a7);
    lemma_assoc2(((((x + a1) + a2) + a3) + a4), a5, (a6 + a7));
    lemma_assoc2((((x + a1) + a2) + a3), a4, (a5 + (a6 + a7)));
    lemma_assoc2(((x + a1) + a2), a3, (a4 + (a5 + (a6 + a7))));
    lemma_assoc2((x + a1), a2, (a3 + (a4 + (a5 + (a6 + a7)))));
    lemma_assoc2(x, a1, (a2 + (a3 + (a4 + (a5 + (a6 + a7))))));
}

pub proof fn lemma_assoc8(
    x: Seq<u8>,
    a1: Seq<u8>,
    a2: Seq<u8>,
    a3: Seq<u8>,
    a4: Seq<u8>,
    a5: Seq<u8>,
    a6: Seq<u8>,
    a7: Seq<u8>,
    a8: Seq<u8>,
)
    ensures
        (((((((x + a1) + a2) + a3) + a4) + a5) + a6) + a7) + a8 == x + (a1 + (a2 + (a3 + (a4 + (a5 + (a6 + (a7 + a8))))))),
{
    lemma_assoc2(((((((x + a1) + a2) + a3) + a4) + a5) + a6), a7, a8);
    lemma_assoc2((((((x + a1) + a2) + a3) + a4) + a5), a6, (a7 + a8));
    lemma_assoc2(((((x + a1) + a2) + a3) + a4), a5, (a6 + (a7 + a8)));
    lemma_assoc2((((x + a1) + a2) + a3), a4, (a5 + (a6 + (a7 + a8))));
    lemma_assoc2(((x + a1) + a2), a3, (a4 + (a5 + (a6 + (a7 + a8)))));
    lemma_assoc2((x + a1), a2, (a3 + (a4 + (a5 + (a6 + (a7 + a8))))));
    lemma_assoc2(x, a1, (a2 + (a3 + (a4 + (a5 + (a6 + (a7 + a8)))))));
}

pub proof fn lemma_assoc11(
    x: Seq<u8>,
    a1: Seq<u8>,
    a2: Seq<u8>,
    a3: Seq<u8>,
    a4: Seq<u8>,
    a5: Seq<u8>,
    a6: Seq<u8>,
    a7: Seq<u8>,
    a8: Seq<u8>,
    a9: Seq<u8>,
    a10: Seq<u8>,
    a11: Seq<u8>,
)
    ensures
        ((((((((((x + a1) + a2) + a3) + a4) + a5) + a6) + a7) + a8) + a9) + a10) + a11 == x + (a1 + (a2 + (a3 + (a4 + (a5 + (a6 + (a7 + (a8 + (a9 + (a10 + a11)))))))))),
{
    lemma_assoc2((((((((((x + a1) + a2) + a3) + a4) + a5) + a6) + a7) + a8) + a9), a10, a11);
    lemma_assoc2(((((((((x + a1) + a2) + a3) + a4) + a5) + a6) + a7) + a8), a9, (a10 + a11));
    lemma_assoc2((((((((x + a1) + a2) + a3) + a4) + a5) + a6) + a7), a8, (a9 + (a10 + a11)));
    lemma_assoc2(((((((x + a1) + a2) + a3) + a4) + a5) + a6), a7, (a8 + (a9 + (a10 + a11))));
    lemma_assoc2((((((x + a1) + a2) + a3) + a4) + a5), a6, (a7 + (a8 + (a9 + (a10 + a11)))));
    lemma_assoc2(((((x + a1) + a2) + a3) + a4), a5, (a6 + (a7 + (a8 + (a9 + (a10 + a11))))));
    lemma_assoc2((((x + a1) + a2) + a3), a4, (a5 + (a6 + (a7 + (a8 + (a9 + (a10 + a11)))))));
    lemma_assoc2(((x + a1) + a2), a3, (a4 + (a5 + (a6 + (a7 + (a8 + (a9 + (a10 + a11))))))));
    lemma_assoc2((x + a1), a2, (a3 + (a4 + (a5 + (a6 + (a7 + (a8 + (a9 + (a10 + a11)))))))));
    lemma_assoc2(x, a1, (a2 + (a3 + (a4 + (a5 + (a6 + (a7 + (a8 + (a9 + (a10 + a11))))))))));
}

pub proof fn lemma_assoc13(
    x: Seq<u8>,
    a1: Seq<u8>,
    a2: Seq<u8>,
    a3: Seq<u8>,
    a4: Seq<u8>,
    a5: Seq<u8>,
    a6: Seq<u8>,
    a7: Seq<u8>,
    a8: Seq<u8>,
    a9: Seq<u8>,
    a10: Seq<u8>,
    a11: Seq<u8>,
    a12: Seq<u8>,
    a13: Seq<u8>,
)
    ensures
        ((((((((((((x + a1) + a2) + a3) + a4) + a5) + a6) + a7) + a8) + a9) + a10) + a11) + a12) + a13 == x + (a1 + (a2 + (a3 + (a4 + (a5 + (a6 + (a7 + (a8 + (a9 + (a10 + (a11 + (a12 + a13)))))))))))),
{
    lemma_assoc2((((((((((((x + a1) + a2) + a3) + a4) + a5) + a6) + a7) + a8) + a9) + a10) + a11), a12, a13);
    lemma_assoc2(((((((((((x + a1) + a2) + a3) + a4) + a5) + a6) + a7) + a8) + a9) + a10), a11, (a12 + a13));
    lemma_assoc2((((((((((x + a1) + a2) + a3) + a4) + a5) + a6) + a7) + a8) + a9), a10, (a11 + (a12 + a13)));
    lemma_assoc2(((((((((x + a1) + a2) + a3) + a4) + a5) + a6) + a7) + a8), a9, (a10 + (a11 + (a12 + a13))));
    lemma_assoc2((((((((x + a1) + a2) + a3) + a4) + a5) + a6) + a7), a8, (a9 + (a10 + (a11 + (a12 + a13)))));
    lemma_assoc2(((((((x + a1) + a2) + a3) + a4) + a5) + a6), a7, (a8 + (a9 + (a10 + (a11 + (a12 + a13))))));
    lemma_assoc2((((((x + a1) + a2) + a3) + a4) + a5), a6, (a7 + (a8 + (a9 + (a10 + (a11 + (a12 + a13)))))));
    lemma_assoc2(((((x + a1) + a2) + a3) + a4), a5, (a6 + (a7 + (a8 + (a9 + (a10 + (a11 + (a12 + a13))))))));
    lemma_assoc2((((x + a1) + a2) + a3), a4, (a5 + (a6 + (a7 + (a8 + (a9 + (a10 + (a11 + (a12 + a13)))))))));
    lemma_assoc2(((x + a1) + a2), a3, (a4 + (a5 + (a6 + (a7 + (a8 + (a9 + (a10 + (a11 + (a12 + a13))))))))));
    lemma_assoc2((x + a1), a2, (a3 + (a4 + (a5 + (a6 + (a7 + (a8 + (a9 + (a10 + (a11 + (a12 + a13)))))))))));
    lemma_assoc2(x, a1, (a2 + (a3 + (a4 + (a5 + (a6 + (a7 + (a8 + (a9 + (a10 + (a11 + (a12 + a13))))))))))));
}

/// A vector's view never has more elements than a 64-bit count can say.
pub proof fn spec_vec_len_bound<T>(v: &Vec<T>)
    ensures
        v@.len() < pow256(8),
{
    broadcast use vstd::std_specs::vec::axiom_spec_len;

    lemma_pow256_8();
    assert(spec_vec_len(v) == v@.len());
}

/// Zero bytes added after a byte buffer of the given length to reach
/// the next 8-byte boundary.
pub open spec fn pad_len(len: nat) -> nat {
    (((8 - len % 8) % 8) as nat)
}

pub open spec fn zeros(n: nat) -> Seq<u8> {
    Seq::new(n, |i: int| 0u8)
}

/// The wire encoding of a byte buffer: length, bytes, zero-padding.
pub open spec fn enc_bytes(s: Seq<u8>) -> Seq<u8> {
    le_bytes(s.len(), 8) + s + zeros(pad_len(s.len()))
}

/// The contents and end position of a byte buffer read at pos, or None
/// if the input is too short or the padding is not all zero.
pub open spec fn dec_bytes(data: Seq<u8>, pos: int) -> Option<(Seq<u8>, int)> {
    match dec_u64(data, pos) {
        Option::None => Option::None,
        Option::Some((len, p)) => {
            let end = p + len + pad_len(len as nat);
            if end <= data.len() && data.subrange(p + len, end) == zeros(pad_len(len as nat)) {
                Option::Some((data.subrange(p, p + len), end))
            } else {
                Option::None
            }
        },
    }
}

pub open spec fn rec_bytes(data: Seq<u8>, pos: int) -> Option<int> {
    match dec_bytes(data, pos) {
        Option::None => Option::None,
        Option::Some((_, end)) => Option::Some(end),
    }
}

/// dec_bytes recovers exactly the buffer that enc_bytes wrote.
pub proof fn lemma_dec_bytes_complete(data: Seq<u8>, pos: int, s: Seq<u8>)
    requires
        s.len() < pow256(8),
        enc_at(data, pos, enc_bytes(s)),
    ensures
        dec_bytes(data, pos) == Some((s, pos + enc_bytes(s).len())),
{
    lemma_pow256_8();
    lemma_le_bytes_len(s.len(), 8);
    let lenb = le_bytes(s.len(), 8);
    let padded = s + zeros(pad_len(s.len()));
    assert(lenb + s + zeros(pad_len(s.len())) == lenb + padded) by {
        assert(lenb + s + zeros(pad_len(s.len())) =~= lenb + padded);
    };
    lemma_enc_at_split(data, pos, lenb, padded);
    lemma_enc_at_split(data, pos + 8, s, zeros(pad_len(s.len())));
    let n = s.len() as u64;
    assert(u64_le(n) == lenb) by {
        lemma_pow256_8();
    };
    lemma_dec_u64_complete(data, pos, n);
    assert(data.subrange(pos + 8, pos + 8 + s.len() as int) == s);
    assert(data.subrange(pos + 8 + s.len(), pos + 8 + s.len() + pad_len(s.len())) == zeros(
        pad_len(s.len()),
    ));
}

/// A successful dec_bytes read exactly the bytes enc_bytes would write.
pub proof fn lemma_dec_bytes_sound(data: Seq<u8>, pos: int)
    requires
        dec_bytes(data, pos) is Some,
    ensures
        ({
            let (s, end) = dec_bytes(data, pos)->Some_0;
            &&& pos <= end <= data.len()
            &&& s.len() < pow256(8)
            &&& end == pos + enc_bytes(s).len()
            &&& data.subrange(pos, end) == enc_bytes(s)
        }),
{
    let (len, p) = dec_u64(data, pos)->Some_0;
    lemma_dec_u64_sound(data, pos);
    let (s, end) = dec_bytes(data, pos)->Some_0;
    lemma_pow256_8();
    assert(s.len() == len);
    lemma_le_bytes_len(s.len(), 8);
    assert(u64_le(len) == le_bytes(s.len(), 8));
    lemma_subrange_concat(data, pos, p, p + len);
    lemma_subrange_concat(data, pos, p + len, end);
    assert(data.subrange(p, p + len as int) == s);
    assert(data.subrange(pos, end) =~= enc_bytes(s));
}

proof fn lemma_le_val8(s: Seq<u8>)
    requires
        s.len() == 8,
    ensures
        le_val(s) == s[0] + 256 * (s[1] + 256 * (s[2] + 256 * (s[3] + 256 * (s[4] + 256 * (s[5]
            + 256 * (s[6] + 256 * (s[7] as nat))))))),
{
    let s1 = s.skip(1);
    let s2 = s1.skip(1);
    let s3 = s2.skip(1);
    let s4 = s3.skip(1);
    let s5 = s4.skip(1);
    let s6 = s5.skip(1);
    let s7 = s6.skip(1);
    let s8 = s7.skip(1);
    assert(s1 =~= s.skip(1) && s2 =~= s.skip(2) && s3 =~= s.skip(3) && s4 =~= s.skip(4) && s5
        =~= s.skip(5) && s6 =~= s.skip(6) && s7 =~= s.skip(7) && s8 =~= s.skip(8));
    assert(s8.len() == 0);
    assert(le_val(s8) == 0);
    assert(s1[0] == s[1] && s2[0] == s[2] && s3[0] == s[3] && s4[0] == s[4] && s5[0] == s[5]
        && s6[0] == s[6] && s7[0] == s[7]);
    assert(le_val(s7) == s[7] + 256 * le_val(s8));
    assert(le_val(s6) == s[6] + 256 * le_val(s7));
    assert(le_val(s5) == s[5] + 256 * le_val(s6));
    assert(le_val(s4) == s[4] + 256 * le_val(s5));
    assert(le_val(s3) == s[3] + 256 * le_val(s4));
    assert(le_val(s2) == s[2] + 256 * le_val(s3));
    assert(le_val(s1) == s[1] + 256 * le_val(s2));
    assert(le_val(s) == s[0] + 256 * le_val(s1));
}

/// A cursor over a byte buffer, decoding the wire format from it.
/// The application appends incoming bytes to `data`; decoding advances
/// `pos` and never looks back.
pub struct NixDeserializer {
    pub data: Vec<u8>,
    pub pos: usize,
}

impl NixDeserializer {
    pub open spec fn wf(self) -> bool {
        self.pos <= self.data.len()
    }

    pub fn new(data: Vec<u8>) -> (r: Self)
        ensures
            r.data == data,
            r.pos == 0,
            r.wf(),
    {
        NixDeserializer { data, pos: 0 }
    }

    /// Append further input for later decoding.
    pub fn feed(&mut self, more: &[u8])
        requires
            old(self).wf(),
        ensures
            final(self).wf(),
            final(self).data@ == old(self).data@ + more@,
            final(self).pos == old(self).pos,
    {
        let mut i: usize = 0;
        while i < more.len()
            invariant
                i <= more.len(),
                self.data@ == old(self).data@ + more@.subrange(0, i as int),
                self.pos == old(self).pos,
            decreases more.len() - i,
        {
            let b = more[i];
            self.data.push(b);
            i = i + 1;
            proof {
                assert(self.data@ =~= old(self).data@ + more@.subrange(0, i as int));
            }
        }
        proof {
            assert(more@.subrange(0, more@.len() as int) =~= more@);
        }
    }

    /// Read one little-endian 64-bit integer.
    pub fn read_u64(&mut self) -> (res: Result<u64, Error>)
        requires
            old(self).wf(),
        ensures
            final(self).wf(),
            final(self).data == old(self).data,
            old(self).pos <= final(self).pos,
            match res {
                Ok(n) => dec_u64(old(self).data@, old(self).pos as int) == Some(
                    (n, final(self).pos as int),
                ),
                Err(e) => {
                    &&& dec_u64(old(self).data@, old(self).pos as int) is None
                    &&& e == Error::Truncated
                    &&& *final(self) == *old(self)
                },
            },
    {
        if self.data.len() - self.pos < 8 {
            return Err(Error::Truncated);
        }
        let p = self.pos;
        let b0 = self.data[p] as u64;
        let b1 = self.data[p + 1] as u64;
        let b2 = self.data[p + 2] as u64;
        let b3 = self.data[p + 3] as u64;
        let b4 = self.data[p + 4] as u64;
        let b5 = self.data[p + 5] as u64;
        let b6 = self.data[p + 6] as u64;
        let b7 = self.data[p + 7] as u64;
        let n = b0 | (b1 << 8) | (b2 << 16) | (b3 << 24) | (b4 << 32) | (b5 << 40) | (b6 << 48) | (
        b7 << 56);
        self.pos = p + 8;
        proof {
            let s = old(self).data@.subrange(p as int, p as int + 8);
            lemma_le_val8(s);
            assert(s[0] == b0 && s[1] == b1 && s[2] == b2 && s[3] == b3 && s[4] == b4 && s[5] == b5
                && s[6] == b6 && s[7] == b7);
            assert(n == b0 + 256 * (b1 + 256 * (b2 + 256 * (b3 + 256 * (b4 + 256 * (b5 + 256 * (b6
                + 256 * b7))))))) by (bit_vector)
                requires
                    b0 < 256 && b1 < 256 && b2 < 256 && b3 < 256 && b4 < 256 && b5 < 256 && b6
                        < 256 && b7 < 256,
                    n == b0 | (b1 << 8) | (b2 << 16) | (b3 << 24) | (b4 << 32) | (b5 << 40) | (b6
                        << 48) | (b7 << 56),
            ;
            assert(le_val(s) == n);
        }
        Ok(n)
    }

    /// Read one byte buffer: a length, the bytes, and zero-padding up
    /// to the next 8-byte boundary.
    pub fn read_byte_buf(&mut self) -> (res: Result<Vec<u8>, Error>)
        requires
            old(self).wf(),
        ensures
            final(self).wf(),
            final(self).data == old(self).data,
            old(self).pos <= final(self).pos,
            match res {
                Ok(v) => dec_bytes(old(self).data@, old(self).pos as int) == Some(
                    (v@, final(self).pos as int),
                ),
                Err(e) => {
                    &&& dec_bytes(old(self).data@, old(self).pos as int) is None
                    &&& (e == Error::Truncated || e == Error::BadPadding)
                },
            },
    {
        let ghost gpos = self.pos as int;
        let len = match self.read_u64() {
            Ok(n) => n,
            Err(e) => {
                return Err(e);
            },
        };
        let avail = (self.data.len() - self.pos) as u64;
        if len > avail {
            return Err(Error::Truncated);
        }
        let len = len as usize;
        let pad: usize = if len % 8 > 0 {
            8 - len % 8
        } else {
            0
        };
        if (self.data.len() - self.pos) - len < pad {
            return Err(Error::Truncated);
        }
        let mut v: Vec<u8> = Vec::new();
        let start = self.pos;
        let mut i: usize = 0;
        while i < len
            invariant
                self.pos == start,
                self.data == old(self).data,
                gpos == old(self).pos as int,
                dec_u64(old(self).data@, gpos) == Some((len as u64, start as int)),
                pad == pad_len(len as nat),
                start + len + pad <= self.data.len(),
                i <= len,
                v@ == self.data@.subrange(start as int, start as int + i as int),
            decreases len - i,
        {
            let b = self.data[start + i];
            v.push(b);
            i = i + 1;
            proof {
                assert(v@ =~= self.data@.subrange(start as int, start as int + i as int));
            }
        }
        let mut j: usize = 0;
        while j < pad
            invariant
                self.pos == start,
                self.data == old(self).data,
                gpos == old(self).pos as int,
                dec_u64(old(self).data@, gpos) == Some((len as u64, start as int)),
                pad == pad_len(len as nat),
                start + len + pad <= self.data.len(),
                j <= pad,
                forall|k: int|
                    0 <= k < j ==> #[trigger] self.data@[start + len + k] == 0u8,
            decreases pad - j,
        {
            if self.data[start + len + j] != 0 {
                proof {
                    let data = old(self).data@;
                    assert(data[start + len + j] != 0);
                    assert(data.subrange(start + len, start + len + pad)[j as int] == data[start
                        + len + j]);
                    assert(zeros(pad_len(len as nat))[j as int] == 0);
                    assert(data.subrange(start + len, start + len + pad) != zeros(
                        pad_len(len as nat),
                    ));
                }
                return Err(Error::BadPadding);
            }
            j = j + 1;
        }
        self.pos = start + len + pad;
        proof {
            let data = self.data@;
            assert(data == old(self).data@);
            assert(pad == pad_len(len as nat));
            assert forall|k: int| 0 <= k < pad implies #[trigger] data.subrange(
                start + len,
                start + len + pad,
            )[k] == zeros(pad_len(len as nat))[k] by {
                assert(self.data@[start + len + k] == 0u8);
            };
            assert(data.subrange(start + len, start + len + pad) =~= zeros(pad_len(len as nat)));
            assert(v@ == data.subrange(start + len - len, start as int + len));
            assert(dec_bytes(data, gpos) == Some((v@, self.pos as int)));
        }
        Ok(v)
    }
}

/// An output buffer holding bytes in the wire format. The application
/// drains `out` to the peer.
pub struct NixSerializer {
    pub out: Vec<u8>,
}

impl NixSerializer {
    pub fn new() -> (r: Self)
        ensures
            r.out@ == Seq::<u8>::empty(),
    {
        NixSerializer { out: Vec::new() }
    }

    /// Hand the accumulated output to the caller and start afresh.
    pub fn take_output(&mut self) -> (r: Vec<u8>)
        ensures
            r == old(self).out,
            final(self).out@ == Seq::<u8>::empty(),
    {
        let mut o: Vec<u8> = Vec::new();
        core::mem::swap(&mut o, &mut self.out);
        o
    }

    /// Write one little-endian 64-bit integer.
    pub fn write_u64(&mut self, n: u64)
        ensures
            final(self).out@ == old(self).out@ + u64_le(n),
    {
        let b0 = (n & 0xff) as u8;
        let b1 = ((n >> 8) & 0xff) as u8;
        let b2 = ((n >> 16) & 0xff) as u8;
        let b3 = ((n >> 24) & 0xff) as u8;
        let b4 = ((n >> 32) & 0xff) as u8;
        let b5 = ((n >> 40) & 0xff) as u8;
        let b6 = ((n >> 48) & 0xff) as u8;
        let b7 = ((n >> 56) & 0xff) as u8;
        self.out.push(b0);
        self.out.push(b1);
        self.out.push(b2);
        self.out.push(b3);
        self.out.push(b4);
        self.out.push(b5);
        self.out.push(b6);
        self.out.push(b7);
        proof {
            let s = seq![b0, b1, b2, b3, b4, b5, b6, b7];
            assert(self.out@ =~= old(self).out@ + s);
            lemma_le_val8(s);
            assert(le_val(s) == b0 + 256 * (b1 + 256 * (b2 + 256 * (b3 + 256 * (b4 + 256 * (b5
                + 256 * (b6 + 256 * (b7 as nat))))))));
            assert(n == b0 + 256 * (b1 + 256 * (b2 + 256 * (b3 + 256 * (b4 + 256 * (b5 + 256 * (b6
                + 256 * b7))))))) by (bit_vector)
                requires
                    b0 == (n & 0xff) as u8 && b1 == ((n >> 8) & 0xff) as u8 && b2 == ((n >> 16)
                        & 0xff) as u8 && b3 == ((n >> 24) & 0xff) as u8 && b4 == ((n >> 32)
                        & 0xff) as u8 && b5 == ((n >> 40) & 0xff) as u8 && b6 == ((n >> 48)
                        & 0xff) as u8 && b7 == ((n >> 56) & 0xff) as u8,
            ;
            assert(le_val(s) == n);
            lemma_pow256_8();
            lemma_le_bytes_le_val(s);
            assert(u64_le(n) == s);
        }
    }

    /// Write one byte buffer: length, bytes, zero-padding.
    pub fn write_byte_buf(&mut self, s: &[u8])
        ensures
            final(self).out@ == old(self).out@ + enc_bytes(s@),
    {
        let len = s.len();
        self.write_u64(len as u64);
        let ghost after_len = self.out@;
        let mut i: usize = 0;
        while i < len
            invariant
                i <= len,
                len == s@.len(),
                self.out@ == after_len + s@.subrange(0, i as int),
            decreases len - i,
        {
            let b = s[i];
            self.out.push(b);
            i = i + 1;
            proof {
                assert(self.out@ =~= after_len + s@.subrange(0, i as int));
            }
        }
        proof {
            assert(s@.subrange(0, len as int) =~= s@);
        }
        let ghost after_body = self.out@;
        let pad: usize = if len % 8 > 0 {
            8 - len % 8
        } else {
            0
        };
        let mut j: usize = 0;
        while j < pad
            invariant
                j <= pad,
                self.out@ == after_body + zeros(j as nat),
            decreases pad - j,
        {
            self.out.push(0u8);
            j = j + 1;
            proof {
                assert(self.out@ =~= after_body + zeros(j as nat));
            }
        }
        proof {
            assert(pad == pad_len(s@.len()));
            lemma_pow256_8();
            assert(le_bytes(s@.len(), 8) == u64_le(len as u64));
            assert(self.out@ =~= old(self).out@ + enc_bytes(s@));
        }
    }
}

/// A type with a Nix wire encoding.
///
/// `enc` is the encoding of a value; `rec` recognizes where a
/// well-formed encoding starting at `pos` ends. `lemma_complete` states
/// that the recognizer accepts every encoding, exactly. The executable
/// `encode` appends the encoding; `decode` succeeds exactly on
/// recognized input and consumes a region of exactly the returned
/// value's encoded length. For a byte-exact type — everything but
/// booleans, which read any nonzero word as true — the consumed region
/// is that encoding itself, so decoding what was encoded gives the
/// value back and re-encoding what was decoded reproduces the input.
pub trait Wire: Sized {
    /// The wire encoding of this value.
    spec fn enc(self) -> Seq<u8>;

    /// The end of a well-formed encoding starting at pos, if any.
    spec fn rec(data: Seq<u8>, pos: int) -> Option<int>;

    /// Whether decoding this type is byte-exact: every accepted region
    /// is literally the returned value's encoding. Booleans are the
    /// exception — any nonzero word reads as true — so a type holding
    /// one accepts regions that re-encode differently.
    spec fn exact() -> bool;

    /// Every encoding is recognized, with the exact end position.
    proof fn lemma_complete(data: Seq<u8>, pos: int, v: Self)
        requires
            enc_at(data, pos, v.enc()),
        ensures
            Self::rec(data, pos) == Some(pos + v.enc().len() as int),
    ;

    /// Append this value's encoding to the output.
    fn encode(&self, w: &mut NixSerializer)
        ensures
            final(w).out@ == old(w).out@ + self.enc(),
    ;

    /// Decode one value; succeeds exactly on recognized input. The
    /// consumed region has exactly the returned value's encoded
    /// length, and for a byte-exact type it is that encoding itself.
    fn decode(r: &mut NixDeserializer) -> (res: Result<Self, Error>)
        requires
            old(r).wf(),
        ensures
            final(r).wf(),
            final(r).data == old(r).data,
            match res {
                Ok(v) => {
                    &&& Self::rec(old(r).data@, old(r).pos as int) == Some(final(r).pos as int)
                    &&& old(r).pos <= final(r).pos
                    &&& final(r).pos - old(r).pos == v.enc().len()
                    &&& Self::exact() ==> old(r).data@.subrange(
                        old(r).pos as int,
                        final(r).pos as int,
                    ) == v.enc()
                },
                Err(_) => Self::rec(old(r).data@, old(r).pos as int) is None,
            },
    ;
}


/// The round-trip law: a buffer holding the encoding of a value is
/// recognized, and recognition stops exactly at the encoding's end.
/// With [`Wire::decode`]'s contract this says that decoding an encoded
/// value succeeds and consumes precisely that encoding — and, for a
/// byte-exact type, yields a value with the same bytes, so re-encoding
/// a decoded value reproduces the input.
pub proof fn lemma_wire_round_trip<T: Wire>(data: Seq<u8>, pos: int, v: T)
    requires
        enc_at(data, pos, v.enc()),
    ensures
        T::rec(data, pos) == Some(pos + v.enc().len() as int),
{
    T::lemma_complete(data, pos, v);
}

/// Decode one value, with the round-trip guarantee made explicit:
/// if the input holds an encoding of w at the cursor, the result is a
/// value with exactly w's encoding, and exactly that much is consumed.
pub fn parse<T: Wire>(r: &mut NixDeserializer) -> (res: Result<T, Error>)
    requires
        old(r).wf(),
    ensures
        final(r).wf(),
        final(r).data == old(r).data,
        match res {
            Ok(v) => {
                &&& T::rec(old(r).data@, old(r).pos as int) == Some(final(r).pos as int)
                &&& old(r).pos <= final(r).pos
                &&& final(r).pos - old(r).pos == v.enc().len()
                &&& T::exact() ==> old(r).data@.subrange(old(r).pos as int, final(r).pos as int)
                    == v.enc()
            },
            Err(_) => T::rec(old(r).data@, old(r).pos as int) is None,
        },
        forall|w: T|
            #[trigger] enc_at(old(r).data@, old(r).pos as int, w.enc()) ==> {
                &&& res is Ok
                &&& final(r).pos == old(r).pos + w.enc().len()
                &&& (T::exact() ==> (res matches Ok(v) && v.enc() == w.enc()))
            },
{
    let res = T::decode(r);
    proof {
        assert forall|w: T| #[trigger] enc_at(old(r).data@, old(r).pos as int, w.enc()) implies {
            &&& res is Ok
            &&& final(r).pos == old(r).pos + w.enc().len()
            &&& (T::exact() ==> (res matches Ok(v) && v.enc() == w.enc()))
        } by {
            T::lemma_complete(old(r).data@, old(r).pos as int, w);
        };
    }
    res
}

/// Copy one value of the given type across: decode it to find where
/// it ends, then forward the consumed input bytes themselves. The
/// output grows by exactly the consumed bytes — a tee, so the relay
/// never rewrites what it forwards, byte-exact type or not.
pub fn relay<T: Wire>(r: &mut NixDeserializer, w: &mut NixSerializer) -> (res: Result<(), Error>)
    requires
        old(r).wf(),
    ensures
        final(r).wf(),
        final(r).data == old(r).data,
        match res {
            Ok(_) => {
                &&& T::rec(old(r).data@, old(r).pos as int) == Some(final(r).pos as int)
                &&& old(r).pos <= final(r).pos
                &&& final(w).out@ == old(w).out@ + old(r).data@.subrange(
                    old(r).pos as int,
                    final(r).pos as int,
                )
            },
            Err(_) => {
                &&& T::rec(old(r).data@, old(r).pos as int) is None
                &&& *final(w) == *old(w)
            },
        },
        forall|x: T|
            #[trigger] enc_at(old(r).data@, old(r).pos as int, x.enc()) ==> res is Ok && final(r).pos == old(r).pos + x.enc().len(),
{
    let start = r.pos;
    let res = match T::decode(r) {
        Ok(_) => {
            copy_range(r, w, start);
            Ok(())
        },
        Err(e) => Err(e),
    };
    proof {
        assert forall|x: T| #[trigger] enc_at(old(r).data@, old(r).pos as int, x.enc()) implies res
            is Ok && final(r).pos == old(r).pos + x.enc().len() by {
            T::lemma_complete(old(r).data@, old(r).pos as int, x);
        };
    }
    res
}

/// Append the input bytes from start up to the cursor to the output.
pub fn copy_range(r: &NixDeserializer, w: &mut NixSerializer, start: usize)
    requires
        r.wf(),
        start <= r.pos,
    ensures
        final(w).out@ == old(w).out@ + r.data@.subrange(start as int, r.pos as int),
{
    let mut i: usize = start;
    while i < r.pos
        invariant
            r.wf(),
            start <= i <= r.pos,
            w.out@ == old(w).out@ + r.data@.subrange(start as int, i as int),
        decreases r.pos - i,
    {
        let b = r.data[i];
        w.out.push(b);
        i = i + 1;
        proof {
            assert(w.out@ =~= old(w).out@ + r.data@.subrange(start as int, i as int));
        }
    }
    proof {
        assert(w.out@ =~= old(w).out@ + r.data@.subrange(start as int, r.pos as int));
    }
}

impl Wire for u64 {
    open spec fn enc(self) -> Seq<u8> {
        u64_le(self)
    }

    open spec fn rec(data: Seq<u8>, pos: int) -> Option<int> {
        match dec_u64(data, pos) {
            Option::None => Option::None,
            Option::Some((_, end)) => Option::Some(end),
        }
    }

    open spec fn exact() -> bool {
        true
    }

    proof fn lemma_complete(data: Seq<u8>, pos: int, v: Self) {
        lemma_dec_u64_complete(data, pos, v);
        lemma_le_bytes_len(v as nat, 8);
    }

    fn encode(&self, w: &mut NixSerializer) {
        w.write_u64(*self);
    }

    fn decode(r: &mut NixDeserializer) -> (res: Result<Self, Error>) {
        let n = match r.read_u64() {
            Ok(n) => n,
            Err(e) => {
                return Err(e);
            },
        };
        proof {
            lemma_dec_u64_sound(old(r).data@, old(r).pos as int);
            lemma_le_bytes_len(n as nat, 8);
        }
        Ok(n)
    }
}

/// Booleans are written as a 64-bit 0 or 1; any nonzero word reads as
/// true, so boolean decoding is not byte-exact.
impl Wire for bool {
    open spec fn enc(self) -> Seq<u8> {
        u64_le(
            if self {
                1
            } else {
                0
            },
        )
    }

    open spec fn rec(data: Seq<u8>, pos: int) -> Option<int> {
        match dec_u64(data, pos) {
            Option::None => Option::None,
            Option::Some((_, end)) => Option::Some(end),
        }
    }

    open spec fn exact() -> bool {
        false
    }

    proof fn lemma_complete(data: Seq<u8>, pos: int, v: Self) {
        let t: u64 = if v {
            1
        } else {
            0
        };
        lemma_dec_u64_complete(data, pos, t);
        lemma_le_bytes_len(t as nat, 8);
    }

    fn encode(&self, w: &mut NixSerializer) {
        if *self {
            w.write_u64(1);
        } else {
            w.write_u64(0);
        }
    }

    fn decode(r: &mut NixDeserializer) -> (res: Result<Self, Error>) {
        let n = match r.read_u64() {
            Ok(n) => n,
            Err(e) => {
                return Err(e);
            },
        };
        proof {
            lemma_le_bytes_len(
                if n != 0 {
                    1nat
                } else {
                    0nat
                },
                8,
            );
        }
        Ok(n != 0)
    }
}


/// The unit type has an empty encoding: some requests have no body.
impl Wire for () {
    open spec fn enc(self) -> Seq<u8> {
        Seq::empty()
    }

    open spec fn rec(data: Seq<u8>, pos: int) -> Option<int> {
        if 0 <= pos <= data.len() {
            Option::Some(pos)
        } else {
            Option::None
        }
    }

    open spec fn exact() -> bool {
        true
    }

    proof fn lemma_complete(data: Seq<u8>, pos: int, v: Self) {
    }

    fn encode(&self, w: &mut NixSerializer) {
        proof {
            assert(final(w).out@ =~= old(w).out@ + Seq::<u8>::empty());
        }
    }

    fn decode(r: &mut NixDeserializer) -> (res: Result<Self, Error>) {
        proof {
            assert(old(r).data@.subrange(old(r).pos as int, old(r).pos as int) =~= Seq::<
                u8,
            >::empty());
        }
        Ok(())
    }
}

/// The concatenated encodings of a run of elements.
pub open spec fn enc_list<T: Wire>(s: Seq<T>) -> Seq<u8>
    decreases s.len(),
{
    if s.len() == 0 {
        Seq::empty()
    } else {
        s[0].enc() + enc_list(s.skip(1))
    }
}

/// The end of n consecutive element encodings starting at pos, if any.
pub open spec fn rec_list<T: Wire>(data: Seq<u8>, pos: int, n: nat) -> Option<int>
    decreases n,
{
    if n == 0 {
        Option::Some(pos)
    } else {
        match T::rec(data, pos) {
            Option::None => Option::None,
            Option::Some(p) => rec_list::<T>(data, p, (n - 1) as nat),
        }
    }
}

pub proof fn lemma_enc_list_push<T: Wire>(s: Seq<T>, v: T)
    ensures
        enc_list(s.push(v)) == enc_list(s) + v.enc(),
    decreases s.len(),
{
    if s.len() == 0 {
        assert(s.push(v).skip(1) =~= Seq::<T>::empty());
        assert(s.push(v)[0] == v);
        assert(enc_list(Seq::<T>::empty()) == Seq::<u8>::empty());
        assert(enc_list(s.push(v)) == v.enc() + Seq::<u8>::empty());
        assert(v.enc() + Seq::<u8>::empty() =~= v.enc());
        assert(enc_list(s) + v.enc() =~= v.enc());
    } else {
        assert(s.push(v).skip(1) =~= s.skip(1).push(v));
        lemma_enc_list_push(s.skip(1), v);
        assert(s.push(v)[0] == s[0]);
        assert(enc_list(s.push(v)) == s[0].enc() + (enc_list(s.skip(1)) + v.enc()));
        assert(s[0].enc() + (enc_list(s.skip(1)) + v.enc()) =~= (s[0].enc() + enc_list(s.skip(1)))
            + v.enc());
    }
}

pub proof fn lemma_rec_list_complete<T: Wire>(data: Seq<u8>, pos: int, s: Seq<T>)
    requires
        enc_at(data, pos, enc_list(s)),
    ensures
        rec_list::<T>(data, pos, s.len()) == Some(pos + enc_list(s).len() as int),
    decreases s.len(),
{
    if s.len() == 0 {
    } else {
        let e0 = s[0].enc();
        let rest = enc_list(s.skip(1));
        lemma_enc_at_split(data, pos, e0, rest);
        T::lemma_complete(data, pos, s[0]);
        lemma_rec_list_complete::<T>(data, pos + e0.len(), s.skip(1));
    }
}

/// Sequences travel as an element count followed by the elements.
impl<T: Wire> Wire for Vec<T> {
    open spec fn enc(self) -> Seq<u8> {
        u64_le(self@.len() as u64) + enc_list(self@)
    }

    open spec fn rec(data: Seq<u8>, pos: int) -> Option<int> {
        match dec_u64(data, pos) {
            Option::None => Option::None,
            Option::Some((n, p)) => rec_list::<T>(data, p, n as nat),
        }
    }

    open spec fn exact() -> bool {
        T::exact()
    }

    proof fn lemma_complete(data: Seq<u8>, pos: int, v: Self) {
        let n = v@.len() as u64;
        assert(v@.len() == spec_vec_len(&v));
        let lenb = u64_le(n);
        lemma_le_bytes_len(n as nat, 8);
        lemma_enc_at_split(data, pos, lenb, enc_list(v@));
        lemma_dec_u64_complete(data, pos, n);
        lemma_pow256_8();
        lemma_rec_list_complete::<T>(data, pos + 8, v@);
    }

    fn encode(&self, w: &mut NixSerializer) {
        let n = self.len();
        w.write_u64(n as u64);
        let ghost base = w.out@;
        let mut i: usize = 0;
        while i < n
            invariant
                n == self@.len(),
                i <= n,
                w.out@ == base + enc_list(self@.subrange(0, i as int)),
            decreases n - i,
        {
            self[i].encode(w);
            i = i + 1;
            proof {
                assert(self@.subrange(0, i as int) =~= self@.subrange(0, i - 1).push(
                    self@[i - 1],
                ));
                lemma_enc_list_push(self@.subrange(0, i - 1), self@[i - 1]);
                assert(w.out@ =~= base + enc_list(self@.subrange(0, i as int)));
            }
        }
        proof {
            assert(self@.subrange(0, n as int) =~= self@);
            assert(w.out@ =~= old(w).out@ + (u64_le(n as u64) + enc_list(self@)));
        }
    }

    fn decode(r: &mut NixDeserializer) -> (res: Result<Self, Error>) {
        let ghost data = old(r).data@;
        let ghost gpos = old(r).pos as int;
        let n = match r.read_u64() {
            Ok(n) => n,
            Err(e) => {
                return Err(e);
            },
        };
        proof {
            lemma_dec_u64_sound(data, gpos);
            lemma_le_bytes_len(n as nat, 8);
        }
        let ghost p0 = r.pos as int;
        let mut v: Vec<T> = Vec::new();
        let mut i: u64 = 0;
        while i < n
            invariant
                r.wf(),
                r.data == old(r).data,
                data == old(r).data@,
                gpos == old(r).pos as int,
                i <= n,
                v@.len() == i,
                gpos + 8 == p0 <= r.pos,
                dec_u64(data, gpos) == Some((n, p0)),
                r.pos - p0 == enc_list(v@).len(),
                <Vec<T> as Wire>::exact() ==> data.subrange(p0, r.pos as int) == enc_list(v@),
                rec_list::<T>(data, p0, n as nat) == rec_list::<T>(
                    data,
                    r.pos as int,
                    (n - i) as nat,
                ),
            decreases n - i,
        {
            let ghost cur = r.pos as int;
            let x = match T::decode(r) {
                Ok(x) => x,
                Err(e) => {
                    proof {
                        assert(T::rec(data, cur) is None);
                        assert(rec_list::<T>(data, cur, (n - i) as nat) is None);
                        assert(rec_list::<T>(data, p0, n as nat) is None);
                        assert(Self::rec(data, gpos) is None);
                    }
                    return Err(e);
                },
            };
            proof {
                lemma_subrange_concat(data, p0, cur, r.pos as int);
                lemma_enc_list_push(v@, x);
            }
            v.push(x);
            i = i + 1;
        }
        proof {
            assert(rec_list::<T>(data, r.pos as int, 0) == Some(r.pos as int));
            assert(v@.len() == spec_vec_len(&v));
            lemma_pow256_8();
            lemma_le_val_bound(data.subrange(gpos, gpos + 8));
            lemma_le_bytes_len(n as nat, 8);
            if <Vec<T> as Wire>::exact() {
                lemma_subrange_concat(data, gpos, p0, r.pos as int);
                assert(data.subrange(gpos, p0) == u64_le(n));
                assert(data.subrange(gpos, r.pos as int) == v.enc());
            }
        }
        Ok(v)
    }
}

/// Pairs travel as the two encodings in order.
impl<A: Wire, B: Wire> Wire for (A, B) {
    open spec fn enc(self) -> Seq<u8> {
        self.0.enc() + self.1.enc()
    }

    open spec fn rec(data: Seq<u8>, pos: int) -> Option<int> {
        match A::rec(data, pos) {
            Option::None => Option::None,
            Option::Some(p) => B::rec(data, p),
        }
    }

    open spec fn exact() -> bool {
        A::exact() && B::exact()
    }

    proof fn lemma_complete(data: Seq<u8>, pos: int, v: Self) {
        lemma_enc_at_split(data, pos, v.0.enc(), v.1.enc());
        A::lemma_complete(data, pos, v.0);
        B::lemma_complete(data, pos + v.0.enc().len(), v.1);
    }

    fn encode(&self, w: &mut NixSerializer) {
        self.0.encode(w);
        self.1.encode(w);
        proof {
            assert(final(w).out@ =~= old(w).out@ + (self.0.enc() + self.1.enc()));
        }
    }

    fn decode(r: &mut NixDeserializer) -> (res: Result<Self, Error>) {
        let ghost data = old(r).data@;
        let ghost gpos = old(r).pos as int;
        let a = match A::decode(r) {
            Ok(a) => a,
            Err(e) => {
                return Err(e);
            },
        };
        let ghost mid = r.pos as int;
        let b = match B::decode(r) {
            Ok(b) => b,
            Err(e) => {
                return Err(e);
            },
        };
        proof {
            if <(A, B) as Wire>::exact() {
                lemma_subrange_concat(data, gpos, mid, r.pos as int);
            }
        }
        Ok((a, b))
    }
}

/// Options travel as a 0 tag, or a 1 tag followed by the value.
impl<T: Wire> Wire for Option<T> {
    open spec fn enc(self) -> Seq<u8> {
        match self {
            Option::None => u64_le(0),
            Option::Some(v) => u64_le(1) + v.enc(),
        }
    }

    open spec fn rec(data: Seq<u8>, pos: int) -> Option<int> {
        match dec_u64(data, pos) {
            Option::None => Option::None,
            Option::Some((t, p)) => if t == 0 {
                Option::Some(p)
            } else if t == 1 {
                T::rec(data, p)
            } else {
                Option::None
            },
        }
    }

    open spec fn exact() -> bool {
        T::exact()
    }

    proof fn lemma_complete(data: Seq<u8>, pos: int, v: Self) {
        match v {
            Option::None => {
                lemma_dec_u64_complete(data, pos, 0);
                lemma_le_bytes_len(0, 8);
            },
            Option::Some(inner) => {
                lemma_le_bytes_len(1, 8);
                lemma_enc_at_split(data, pos, u64_le(1), inner.enc());
                lemma_dec_u64_complete(data, pos, 1);
                T::lemma_complete(data, pos + 8, inner);
            },
        }
    }

    fn encode(&self, w: &mut NixSerializer) {
        match self {
            Option::None => {
                w.write_u64(0);
            },
            Option::Some(inner) => {
                w.write_u64(1);
                inner.encode(w);
                proof {
                    assert(final(w).out@ =~= old(w).out@ + (u64_le(1) + inner.enc()));
                }
            },
        }
    }

    fn decode(r: &mut NixDeserializer) -> (res: Result<Self, Error>) {
        let ghost data = old(r).data@;
        let ghost gpos = old(r).pos as int;
        let t = match r.read_u64() {
            Ok(t) => t,
            Err(e) => {
                return Err(e);
            },
        };
        proof {
            lemma_dec_u64_sound(data, gpos);
            lemma_le_bytes_len(t as nat, 8);
        }
        if t == 0 {
            return Ok(None);
        }
        if t != 1 {
            return Err(Error::BadOptionTag(t));
        }
        let ghost mid = r.pos as int;
        let inner = match T::decode(r) {
            Ok(x) => x,
            Err(e) => {
                return Err(e);
            },
        };
        proof {
            if <Option<T> as Wire>::exact() {
                lemma_subrange_concat(data, gpos, mid, r.pos as int);
            }
        }
        Ok(Some(inner))
    }
}

} // verus!
