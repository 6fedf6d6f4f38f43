//! Fixed-width framing for the execution boundary.
//!
//! Integers crossing a process or machine boundary are encoded explicitly,
//! field by field, in little-endian order; records are read and written as
//! exact-size runs of bytes or words. No value is ever reinterpreted in
//! place.

use vstd::prelude::*;

verus! {

/// The value of a four-byte little-endian encoding.
pub open spec fn le_bytes_to_u32(b: Seq<u8>) -> int
    recommends
        b.len() == 4,
{
    b[0] + b[1] * 0x100 + b[2] * 0x1_0000 + b[3] * 0x100_0000
}

/// The four-byte little-endian encoding of a word.
pub open spec fn le_u32_to_bytes(v: u32) -> Seq<u8> {
    seq![
        (v % 0x100) as u8,
        ((v / 0x100) % 0x100) as u8,
        ((v / 0x1_0000) % 0x100) as u8,
        ((v / 0x100_0000) % 0x100) as u8,
    ]
}

/// The little-endian encoding of a whole record of words.
pub open spec fn le_words_to_bytes(w: Seq<u32>) -> Seq<u8>
    decreases w.len(),
{
    if w.len() == 0 {
        Seq::empty()
    } else {
        le_u32_to_bytes(w[0]) + le_words_to_bytes(w.skip(1))
    }
}

/// Reads one `u32` from the front of `buf` and advances past it.
pub fn read_u32(buf: &mut &[u8]) -> (r: Option<u32>)
    ensures
        old(buf)@.len() >= 4 ==> (r matches Some(v) && v == le_bytes_to_u32(
            old(buf)@.subrange(0, 4),
        ) && final(buf)@ == old(buf)@.skip(4)),
        old(buf)@.len() < 4 ==> r is None && final(buf)@ == old(buf)@,
{
    let whole: &[u8] = *buf;
    if whole.len() >= 4 {
        let (head, rest) = whole.split_at(4);
        let v: u32 = head[0] as u32 + head[1] as u32 * 0x100 + head[2] as u32 * 0x1_0000 + head[3]
            as u32 * 0x100_0000;
        *buf = rest;
        proof {
            assert(head@ == old(buf)@.subrange(0, 4));
            assert(rest@ == old(buf)@.skip(4));
        }
        Some(v)
    } else {
        None
    }
}

/// Reads one record of exactly `n` raw bytes from the front of `buf` and
/// advances past it.
pub fn read(buf: &mut &[u8], n: usize) -> (r: Option<Vec<u8>>)
    ensures
        n <= old(buf)@.len() ==> (r matches Some(v) && v@ == old(buf)@.subrange(0, n as int)
            && final(buf)@ == old(buf)@.skip(n as int)),
        n > old(buf)@.len() ==> r is None && final(buf)@ == old(buf)@,
{
    let whole: &[u8] = *buf;
    if n <= whole.len() {
        let (head, rest) = whole.split_at(n);
        let mut v: Vec<u8> = Vec::new();
        let mut i: usize = 0;
        while i < n
            invariant
                i <= n,
                n <= head@.len(),
                v@ == head@.subrange(0, i as int),
            decreases n - i,
        {
            v.push(head[i]);
            proof {
                assert(v@ =~= head@.subrange(0, i + 1));
            }
            i = i + 1;
        }
        *buf = rest;
        proof {
            assert(v@ =~= old(buf)@.subrange(0, n as int));
        }
        Some(v)
    } else {
        None
    }
}

/// Reads `len` little-endian words from the front of `buf` and advances
/// past them.
pub fn read_u32_slice(buf: &mut &[u8], len: usize) -> (r: Option<Vec<u32>>)
    ensures
        4 * len <= old(buf)@.len() ==> (r matches Some(v) && v@.len() == len && (forall|i: int|
            0 <= i < len ==> v@[i] == le_bytes_to_u32(old(buf)@.subrange(4 * i, 4 * i + 4)))
            && final(buf)@ == old(buf)@.skip(4 * len)),
        4 * len > old(buf)@.len() ==> r is None && final(buf)@ == old(buf)@,
{
    if (len as u128) * 4 <= buf.len() as u128 {
        let mut v: Vec<u32> = Vec::new();
        let mut i: usize = 0;
        while i < len
            invariant
                i <= len,
                4 * len <= old(buf)@.len(),
                buf@ == old(buf)@.skip(4 * i),
                v@.len() == i,
                forall|k: int|
                    0 <= k < i ==> v@[k] == le_bytes_to_u32(old(buf)@.subrange(4 * k, 4 * k + 4)),
            decreases len - i,
        {
            proof {
                assert(buf@.len() == old(buf)@.len() - 4 * i);
            }
            let w = read_u32(buf);
            match w {
                Some(x) => {
                    proof {
                        assert(old(buf)@.skip(4 * i).subrange(0, 4) =~= old(buf)@.subrange(
                            4 * i,
                            4 * i + 4,
                        ));
                        assert(old(buf)@.skip(4 * i).skip(4) =~= old(buf)@.skip(4 * (i + 1)));
                    }
                    v.push(x);
                }
                None => {
                    proof {
                        assert(false);
                    }
                }
            }
            i = i + 1;
        }
        Some(v)
    } else {
        None
    }
}

/// A framing failure: the buffer held fewer bytes than the record needs.
pub enum CodecError {
    Truncated,
}

/// Reads a record of exactly `n` little-endian words, reporting truncation
/// instead of returning a partial record.
pub fn read_exact(buf: &mut &[u8], n: usize) -> (r: Result<Vec<u32>, CodecError>)
    ensures
        4 * n <= old(buf)@.len() ==> (r matches Ok(v) && v@.len() == n && (forall|i: int|
            0 <= i < n ==> v@[i] == le_bytes_to_u32(old(buf)@.subrange(4 * i, 4 * i + 4)))
            && final(buf)@ == old(buf)@.skip(4 * n)),
        4 * n > old(buf)@.len() ==> (r matches Err(e) && e is Truncated && final(buf)@ == old(
            buf,
        )@),
{
    match read_u32_slice(buf, n) {
        Some(v) => Ok(v),
        None => Err(CodecError::Truncated),
    }
}

/// Appends the little-endian encoding of one word to `out`.
pub fn write_u32(out: &mut Vec<u8>, v: u32)
    ensures
        final(out)@ == old(out)@ + le_u32_to_bytes(v),
{
    out.push((v % 0x100) as u8);
    out.push(((v / 0x100) % 0x100) as u8);
    out.push(((v / 0x1_0000) % 0x100) as u8);
    out.push(((v / 0x100_0000) % 0x100) as u8);
    proof {
        assert(out@ =~= old(out)@ + le_u32_to_bytes(v));
    }
}

/// Writes a whole record of words to `out`, in order, little-endian.
pub fn write_all(out: &mut Vec<u8>, rec: &Vec<u32>)
    ensures
        final(out)@ == old(out)@ + le_words_to_bytes(rec@),
{
    let mut i: usize = 0;
    while i < rec.len()
        invariant
            i <= rec.len(),
            out@ == old(out)@ + le_words_to_bytes(rec@.take(i as int)),
        decreases rec.len() - i,
    {
        write_u32(out, rec[i]);
        proof {
            lemma_le_words_take_step(rec@, i as int);
        }
        i = i + 1;
    }
    proof {
        assert(rec@.take(rec@.len() as int) =~= rec@);
    }
}

/// Appending one more word to a record extends its encoding by that word's
/// four bytes.
proof fn lemma_le_words_take_step(w: Seq<u32>, i: int)
    requires
        0 <= i < w.len(),
    ensures
        le_words_to_bytes(w.take(i + 1)) == le_words_to_bytes(w.take(i)) + le_u32_to_bytes(w[i]),
    decreases i,
{
    if i == 0 {
        assert(w.take(1).skip(1) =~= Seq::<u32>::empty());
        assert(w.take(0) =~= Seq::<u32>::empty());
        assert(le_words_to_bytes(Seq::<u32>::empty()) == Seq::<u8>::empty());
        assert(w.take(1)[0] == w[0]);
        assert(le_words_to_bytes(w.take(1)) =~= le_u32_to_bytes(w[0]));
    } else {
        lemma_le_words_take_step(w.skip(1), i - 1);
        assert(w.take(i + 1).skip(1) =~= w.skip(1).take(i));
        assert(w.take(i).skip(1) =~= w.skip(1).take(i - 1));
        assert(w.take(i + 1)[0] == w[0]);
        assert(w.take(i)[0] == w[0]);
        assert(w.skip(1)[i - 1] == w[i]);
        assert(le_u32_to_bytes(w[0]) + (le_words_to_bytes(w.skip(1).take(i - 1)) + le_u32_to_bytes(
            w[i],
        )) =~= (le_u32_to_bytes(w[0]) + le_words_to_bytes(w.skip(1).take(i - 1))) + le_u32_to_bytes(
            w[i],
        ));
    }
}

/// Decoding inverts encoding: reading back the bytes written for a record
/// yields the record.
pub proof fn lemma_round_trip(w: Seq<u32>)
    ensures
        le_words_to_bytes(w).len() == 4 * w.len(),
        forall|i: int|
            0 <= i < w.len() ==> le_bytes_to_u32(
                le_words_to_bytes(w).subrange(4 * i, 4 * i + 4),
            ) == w[i],
    decreases w.len(),
{
    if w.len() > 0 {
        lemma_round_trip(w.skip(1));
        lemma_le_u32_round_trip(w[0]);
        assert forall|i: int| 0 <= i < w.len() implies le_bytes_to_u32(
            le_words_to_bytes(w).subrange(4 * i, 4 * i + 4),
        ) == w[i] by {
            if i == 0 {
                assert(le_words_to_bytes(w).subrange(0, 4) =~= le_u32_to_bytes(w[0]));
            } else {
                assert(le_words_to_bytes(w).subrange(4 * i, 4 * i + 4) =~= le_words_to_bytes(
                    w.skip(1),
                ).subrange(4 * (i - 1), 4 * (i - 1) + 4));
                assert(w.skip(1)[i - 1] == w[i]);
            }
        }
    }
}

/// A word survives its own four-byte encoding.
proof fn lemma_le_u32_round_trip(v: u32)
    ensures
        le_bytes_to_u32(le_u32_to_bytes(v)) == v,
{
    assert(v == v % 0x100 + (v / 0x100 % 0x100) * 0x100 + (v / 0x1_0000 % 0x100) * 0x1_0000 + (v
        / 0x100_0000 % 0x100) * 0x100_0000) by (bit_vector);
}

} // verus!
