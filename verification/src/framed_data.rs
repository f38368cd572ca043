//! Framed data, for streaming large blobs.
//!
//! A framed stream is a run of chunks, each written as a 64-bit length
//! followed by that many raw bytes — with *no* padding, unlike every
//! other byte string in this protocol — and closed by a zero length.

use crate::serialize::{
    dec_u64, lemma_dec_u64_complete, lemma_dec_u64_sound, lemma_enc_at_split, lemma_le_bytes_len,
    lemma_subrange_concat, spec_vec_len_bound, u64_le, Error, NixDeserializer, NixSerializer,
};
use vstd::prelude::*;

verus! {

/// The encoding of one frame: its length and its raw, unpadded bytes.
pub open spec fn enc_frame(c: Seq<u8>) -> Seq<u8> {
    u64_le(c.len() as u64) + c
}

/// The concatenated encodings of a run of frames.
pub open spec fn enc_frames(cs: Seq<Seq<u8>>) -> Seq<u8>
    decreases cs.len(),
{
    if cs.len() == 0 {
        Seq::empty()
    } else {
        enc_frame(cs[0]) + enc_frames(cs.skip(1))
    }
}

/// The encoding of a whole framed stream: the frames, then a zero length.
pub open spec fn enc_framed(cs: Seq<Seq<u8>>) -> Seq<u8> {
    enc_frames(cs) + u64_le(0)
}

/// The frames read from data at pos and the position after the
/// terminating zero length, or None if the input is truncated.
pub open spec fn dec_framed(data: Seq<u8>, pos: int) -> Option<(Seq<Seq<u8>>, int)>
    decreases data.len() - pos,
{
    match dec_u64(data, pos) {
        Option::None => Option::None,
        Option::Some((len, p)) => {
            if len == 0 {
                Option::Some((Seq::empty(), p))
            } else if p + len <= data.len() {
                match dec_framed(data, p + len) {
                    Option::None => Option::None,
                    Option::Some((rest, end)) => Option::Some(
                        (seq![data.subrange(p, p + len)].add(rest), end),
                    ),
                }
            } else {
                Option::None
            }
        },
    }
}

/// Every frame of a well-formed framed value is nonempty: an empty
/// frame would read back as the terminator.
pub open spec fn framed_wf(cs: Seq<Seq<u8>>) -> bool {
    forall|i: int| 0 <= i < cs.len() ==> #[trigger] cs[i].len() > 0 && cs[i].len() < pow256_8()
}

pub open spec fn pow256_8() -> nat {
    crate::serialize::pow256(8)
}

/// dec_framed recovers exactly the frames that enc_framed wrote, when
/// no frame is empty.
pub proof fn lemma_dec_framed_complete(data: Seq<u8>, pos: int, cs: Seq<Seq<u8>>)
    requires
        framed_wf(cs),
        crate::serialize::enc_at(data, pos, enc_framed(cs)),
    ensures
        dec_framed(data, pos) == Some((cs, pos + enc_framed(cs).len() as int)),
    decreases cs.len(),
{
    lemma_le_bytes_len(0, 8);
    crate::serialize::lemma_pow256_8();
    if cs.len() == 0 {
        assert(enc_framed(cs) =~= u64_le(0));
        lemma_dec_u64_complete(data, pos, 0);
    } else {
        let c = cs[0];
        let n = c.len() as u64;
        lemma_le_bytes_len(n as nat, 8);
        assert(enc_framed(cs) =~= u64_le(n) + (c + enc_framed(cs.skip(1))));
        lemma_enc_at_split(data, pos, u64_le(n), c + enc_framed(cs.skip(1)));
        lemma_enc_at_split(data, pos + 8, c, enc_framed(cs.skip(1)));
        lemma_dec_u64_complete(data, pos, n);
        assert(framed_wf(cs.skip(1))) by {
            assert(forall|i: int| 0 <= i < cs.skip(1).len() ==> cs.skip(1)[i] == cs[i + 1]);
        };
        lemma_dec_framed_complete(data, pos + 8 + c.len(), cs.skip(1));
        let (rest, end) = dec_framed(data, pos + 8 + c.len())->Some_0;
        assert(data.subrange(pos + 8, pos + 8 + c.len() as int) == c);
        assert(seq![c].add(rest) =~= cs);
        assert(enc_framed(cs).len() == 8 + c.len() + enc_framed(cs.skip(1)).len());
        assert(end == pos + enc_framed(cs).len());
    }
}

/// Nix framed data held in memory: a list of byte chunks. The whole
/// point of framing is that payloads may be too large to buffer, so
/// the in-memory form is for small payloads and tests; see [`stream`]
/// for the copying form.
#[derive(Debug, Clone, PartialEq, Eq)]
pub struct FramedData {
    pub data: Vec<Vec<u8>>,
}

impl FramedData {
    /// The views of the chunks.
    pub open spec fn chunks(self) -> Seq<Seq<u8>> {
        Seq::new(self.data@.len(), |i: int| self.data@[i]@)
    }

    pub fn new() -> (r: Self)
        ensures
            r.chunks() =~= Seq::<Seq<u8>>::empty(),
    {
        FramedData { data: Vec::new() }
    }

    /// Read a whole framed stream into memory.
    pub fn read(r: &mut NixDeserializer) -> (res: Result<FramedData, Error>)
        requires
            old(r).wf(),
        ensures
            final(r).wf(),
            final(r).data == old(r).data,
            match res {
                Ok(f) => {
                    &&& dec_framed(old(r).data@, old(r).pos as int) == Some(
                        (f.chunks(), final(r).pos as int),
                    )
                    &&& framed_wf(f.chunks())
                    &&& old(r).pos <= final(r).pos
                    &&& old(r).data@.subrange(old(r).pos as int, final(r).pos as int) == enc_framed(
                        f.chunks(),
                    )
                },
                Err(e) => {
                    &&& dec_framed(old(r).data@, old(r).pos as int) is None
                    &&& e == Error::Truncated
                },
            },
    {
        let ghost data = old(r).data@;
        let mut out: Vec<Vec<u8>> = Vec::new();
        let ghost start = old(r).pos as int;
        loop
            invariant
                r.wf(),
                r.data == old(r).data,
                data == old(r).data@,
                start == old(r).pos as int,
                start <= r.pos,
                framed_wf(Seq::new(out@.len(), |i: int| out@[i]@)),
                dec_framed(data, start) matches Option::Some((cs, end)) ==> {
                    &&& dec_framed(data, r.pos as int) is Some
                    &&& cs =~= Seq::new(out@.len(), |i: int| out@[i]@).add(
                        dec_framed(data, r.pos as int)->Some_0.0,
                    )
                    &&& end == dec_framed(data, r.pos as int)->Some_0.1
                },
                dec_framed(data, r.pos as int) is Some ==> dec_framed(data, start) is Some,
                data.subrange(start, r.pos as int) =~= enc_frames(
                    Seq::new(out@.len(), |i: int| out@[i]@),
                ),
            decreases data.len() - r.pos,
        {
            let ghost cur = r.pos as int;
            let ghost cs_before = Seq::new(out@.len(), |i: int| out@[i]@);
            let len = match r.read_u64() {
                Ok(n) => n,
                Err(e) => {
                    return Err(e);
                },
            };
            proof {
                lemma_dec_u64_sound(data, cur);
                lemma_le_bytes_len(len as nat, 8);
            }
            if len == 0 {
                let f = FramedData { data: out };
                proof {
                    assert(dec_framed(data, cur) == Some(
                        (Seq::<Seq<u8>>::empty(), r.pos as int),
                    ));
                    assert(f.chunks() =~= cs_before);
                    assert(cs_before.add(Seq::<Seq<u8>>::empty()) =~= cs_before);
                    lemma_subrange_concat(data, start, cur, r.pos as int);
                    assert(data.subrange(start, r.pos as int) =~= enc_framed(f.chunks()));
                }
                return Ok(f);
            }
            let avail = (r.data.len() - r.pos) as u64;
            if avail < len {
                proof {
                    assert(dec_framed(data, cur) is None);
                }
                return Err(Error::Truncated);
            }
            let len = len as usize;
            let mut chunk: Vec<u8> = Vec::new();
            let chunk_start = r.pos;
            let mut i: usize = 0;
            while i < len
                invariant
                    r.wf(),
                    r.data == old(r).data,
                    data == old(r).data@,
                    r.pos == chunk_start,
                    chunk_start + len <= data.len(),
                    i <= len,
                    chunk@ == data.subrange(chunk_start as int, chunk_start as int + i as int),
                decreases len - i,
            {
                let b = r.data[r.pos + i];
                chunk.push(b);
                i = i + 1;
                proof {
                    assert(chunk@ =~= data.subrange(
                        chunk_start as int,
                        chunk_start as int + i as int,
                    ));
                }
            }
            r.pos = r.pos + len;
            proof {
                spec_vec_len_bound(&chunk);
                let cs_after = Seq::new(out@.len() + 1, |i: int| out@.push(chunk)[i]@);
                assert(cs_after =~= cs_before.push(chunk@));
                assert(forall|i: int|
                    0 <= i < cs_after.len() ==> #[trigger] cs_after[i].len() > 0 && cs_after[i].len()
                        < pow256_8());
                // the consumed region now also covers this frame
                assert(data.subrange(cur, r.pos as int) =~= enc_frame(chunk@)) by {
                    lemma_subrange_concat(data, cur, cur + 8, r.pos as int);
                };
                lemma_subrange_concat(data, start, cur, r.pos as int);
                assert(enc_frames(cs_after) =~= enc_frames(cs_before) + enc_frame(chunk@)) by {
                    lemma_enc_frames_push(cs_before, chunk@);
                };
                assert(dec_framed(data, start) matches Option::Some((cs, end)) ==> {
                    &&& dec_framed(data, r.pos as int) is Some
                    &&& cs =~= cs_after.add(dec_framed(data, r.pos as int)->Some_0.0)
                    &&& end == dec_framed(data, r.pos as int)->Some_0.1
                }) by {
                    if dec_framed(data, start) is Some {
                        assert(dec_framed(data, cur) is Some);
                        assert(dec_framed(data, cur)->Some_0.0 == seq![
                            data.subrange(cur + 8, cur + 8 + len as int),
                        ].add(dec_framed(data, r.pos as int)->Some_0.0));
                        assert(data.subrange(cur + 8, cur + 8 + len as int) == chunk@);
                        assert(cs_before.add(dec_framed(data, cur)->Some_0.0) =~= cs_after.add(
                            dec_framed(data, r.pos as int)->Some_0.0,
                        ));
                    }
                };
            }
            out.push(chunk);
        }
    }

    /// Write the frames and the terminating zero length.
    pub fn write(&self, w: &mut NixSerializer)
        requires
            framed_wf(self.chunks()),
        ensures
            final(w).out@ == old(w).out@ + enc_framed(self.chunks()),
    {
        let n = self.data.len();
        let mut i: usize = 0;
        while i < n
            invariant
                n == self.data@.len(),
                i <= n,
                framed_wf(self.chunks()),
                w.out@ == old(w).out@ + enc_frames(self.chunks().take(i as int)),
            decreases n - i,
        {
            let chunk = &self.data[i];
            w.write_u64(chunk.len() as u64);
            let ghost mid = w.out@;
            let mut j: usize = 0;
            let m = chunk.len();
            while j < m
                invariant
                    m == chunk@.len(),
                    j <= m,
                    w.out@ == mid + chunk@.subrange(0, j as int),
                decreases m - j,
            {
                let b = chunk[j];
                w.out.push(b);
                j = j + 1;
                proof {
                    assert(w.out@ =~= mid + chunk@.subrange(0, j as int));
                }
            }
            i = i + 1;
            proof {
                assert(chunk@.subrange(0, m as int) =~= chunk@);
                lemma_enc_frames_push(self.chunks().take(i - 1), chunk@);
                assert(self.chunks().take(i as int) =~= self.chunks().take(i - 1).push(chunk@));
                assert(w.out@ =~= old(w).out@ + enc_frames(self.chunks().take(i as int)));
            }
        }
        w.write_u64(0);
        proof {
            assert(self.chunks().take(n as int) =~= self.chunks());
            assert(w.out@ =~= old(w).out@ + enc_framed(self.chunks()));
        }
    }
}

pub proof fn lemma_enc_frames_push(cs: Seq<Seq<u8>>, c: Seq<u8>)
    ensures
        enc_frames(cs.push(c)) == enc_frames(cs) + enc_frame(c),
    decreases cs.len(),
{
    if cs.len() == 0 {
        assert(cs.push(c).skip(1) =~= Seq::<Seq<u8>>::empty());
        assert(cs.push(c)[0] == c);
        assert(enc_frames(cs.push(c)) == enc_frame(c) + enc_frames(Seq::<Seq<u8>>::empty()));
        assert(enc_frame(c) + Seq::<u8>::empty() =~= enc_frame(c));
        assert(enc_frames(cs) + enc_frame(c) =~= enc_frame(c));
    } else {
        assert(cs.push(c).skip(1) =~= cs.skip(1).push(c));
        lemma_enc_frames_push(cs.skip(1), c);
        assert(cs.push(c)[0] == cs[0]);
        assert(enc_frames(cs.push(c)) == enc_frame(cs[0]) + (enc_frames(cs.skip(1)) + enc_frame(
            c,
        )));
        assert(enc_frame(cs[0]) + (enc_frames(cs.skip(1)) + enc_frame(c)) =~= (enc_frame(cs[0])
            + enc_frames(cs.skip(1))) + enc_frame(c));
    }
}

/// Copy one framed stream from the input to the output, a bounded
/// chunk at a time: read each length, forward it, copy exactly that
/// many bytes, and stop after forwarding the terminating zero. On
/// success the output has grown by exactly the consumed input bytes,
/// and those bytes form one complete framed stream.
pub fn stream(r: &mut NixDeserializer, w: &mut NixSerializer) -> (res: Result<(), Error>)
    requires
        old(r).wf(),
    ensures
        final(r).wf(),
        final(r).data == old(r).data,
        old(r).pos <= final(r).pos,
        // the output grows by exactly the consumed input, success or
        // not: the copier fabricates nothing
        final(w).out@ == old(w).out@ + old(r).data@.subrange(
            old(r).pos as int,
            final(r).pos as int,
        ),
        match res {
            Ok(_) => dec_framed(old(r).data@, old(r).pos as int) matches Some((cs, end)) && end
                == final(r).pos as int,
            Err(e) => {
                &&& dec_framed(old(r).data@, old(r).pos as int) is None
                &&& e == Error::Truncated
            },
        },
{
    let ghost data = old(r).data@;
    let ghost start = old(r).pos as int;
    loop
        invariant
            r.wf(),
            r.data == old(r).data,
            data == old(r).data@,
            start == old(r).pos as int,
            start <= r.pos,
            dec_framed(data, start) matches Option::Some((cs, end)) ==> {
                &&& dec_framed(data, r.pos as int) is Some
                &&& end == dec_framed(data, r.pos as int)->Some_0.1
            },
            dec_framed(data, r.pos as int) is Some ==> dec_framed(data, start) is Some,
            w.out@ == old(w).out@ + data.subrange(start, r.pos as int),
        decreases data.len() - r.pos,
    {
        let ghost cur = r.pos as int;
        let len = match r.read_u64() {
            Ok(n) => n,
            Err(e) => {
                return Err(e);
            },
        };
        proof {
            lemma_dec_u64_sound(data, cur);
            lemma_le_bytes_len(len as nat, 8);
        }
        w.write_u64(len);
        proof {
            lemma_subrange_concat(data, start, cur, r.pos as int);
            assert(data.subrange(cur, r.pos as int) == u64_le(len));
            assert(w.out@ =~= old(w).out@ + data.subrange(start, r.pos as int));
        }
        if len == 0 {
            return Ok(());
        }
        let avail = (r.data.len() - r.pos) as u64;
            if avail < len {
            proof {
                assert(dec_framed(data, cur) is None);
            }
            return Err(Error::Truncated);
        }
        let mut remaining = len as usize;
        let ghost body_end = r.pos + len;
        while remaining > 0
            invariant
                r.wf(),
                r.data == old(r).data,
                data == old(r).data@,
                start == old(r).pos as int,
                r.pos + remaining <= data.len(),
                r.pos + remaining == body_end,
                w.out@ == old(w).out@ + data.subrange(start, r.pos as int),
                start <= r.pos,
            decreases remaining,
        {
            let chunk_len = if remaining < 4096 {
                remaining
            } else {
                4096
            };
            let ghost before = r.pos as int;
            let mut k: usize = 0;
            while k < chunk_len
                invariant
                    r.wf(),
                    r.data == old(r).data,
                    data == old(r).data@,
                    start == old(r).pos as int,
                    k <= chunk_len,
                    before == r.pos,
                    before + chunk_len <= data.len(),
                    start <= r.pos,
                    w.out@ == old(w).out@ + data.subrange(start, r.pos as int) + data.subrange(
                        before,
                        before + k as int,
                    ),
                decreases chunk_len - k,
            {
                let b = r.data[r.pos + k];
                w.out.push(b);
                k = k + 1;
                proof {
                    assert(w.out@ =~= old(w).out@ + data.subrange(start, r.pos as int)
                        + data.subrange(before, before + k as int));
                }
            }
            r.pos = r.pos + chunk_len;
            remaining = remaining - chunk_len;
            proof {
                lemma_subrange_concat(data, start, before, r.pos as int);
                assert(w.out@ =~= old(w).out@ + data.subrange(start, r.pos as int));
            }
        }
        proof {
            assert(r.pos as int == cur + 8 + len);
            assert(dec_u64(data, cur) == Some((len, cur + 8)));
            if dec_framed(data, start) is Some {
                assert(dec_framed(data, cur) is Some);
                assert(dec_framed(data, r.pos as int) is Some);
                assert(dec_framed(data, cur)->Some_0.1 == dec_framed(
                    data,
                    r.pos as int,
                )->Some_0.1);
            }
            if dec_framed(data, r.pos as int) is Some {
                assert(dec_framed(data, cur) is Some);
            }
        }
    }
}

} // verus!
