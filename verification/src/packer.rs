//! Bit packing: dividing a 64-byte secret key into fixed-width chunks.
//!
//! The key is read bit by bit, least-significant bit first within each
//! byte; each chunk collects `chunksize` consecutive bits, again least
//! significant first. A chunk is at most 16 bits wide, which covers every
//! supported word-list size.

use vstd::prelude::*;
use vstd::arithmetic::power2::{
    pow2, lemma_pow2_unfold, lemma_pow2_strictly_increases, lemma2_to64,
};
use vstd::arithmetic::div_mod::{lemma_fundamental_div_mod, lemma_mod_bound};
use vstd::arithmetic::mul::{
    lemma_mul_inequality, lemma_mul_is_distributive_add_other_way,
};
use vstd::bits::lemma_u16_shl_is_mul;
use crate::errors::ScrambleError;

verus! {

/// The number of bits the 64-byte secret key offers.
pub const KEY_BITS: usize = 512;

/// Bit `i` of the key, reading each byte least-significant bit first.
pub open spec fn bit_of(data: Seq<u8>, i: int) -> u16
    recommends
        0 <= i < data.len() * 8,
{
    ((data[i / 8] as u16) >> ((i % 8) as u16)) & 1u16
}

/// The value of the `k` key bits starting at bit `start`, packed into a
/// chunk least-significant bit first.
pub open spec fn chunk_bits(data: Seq<u8>, start: int, k: nat) -> u16
    decreases k,
{
    if k == 0 {
        0u16
    } else {
        chunk_bits(data, start, (k - 1) as nat) | (bit_of(data, start + k - 1) << ((k - 1) as u16))
    }
}

/// Chunk `j` of the key when it is divided into chunks of `width` bits.
pub open spec fn chunk_spec(data: Seq<u8>, width: nat, j: int) -> u16 {
    chunk_bits(data, j * width, width)
}

/// All `count` chunks of `width` bits, in the order the key bits are read.
pub open spec fn chunks_spec(data: Seq<u8>, width: nat, count: nat) -> Seq<u16> {
    Seq::new(count, |j: int| chunk_spec(data, width, j))
}

/// A single key bit is zero or one.
proof fn lemma_bit_of_le_one(data: Seq<u8>, i: int)
    ensures
        bit_of(data, i) <= 1,
{
    let y = data[i / 8] as u16;
    let s = (i % 8) as u16;
    assert((y >> s) & 1u16 <= 1) by (bit_vector);
}

/// A chunk of `k` bits is below two to the `k`.
pub proof fn lemma_chunk_bits_bound(data: Seq<u8>, start: int, k: nat)
    requires
        k <= 16,
    ensures
        (chunk_bits(data, start, k) as nat) < pow2(k),
    decreases k,
{
    lemma2_to64();
    if k == 0 {
    } else if k == 16 {
    } else {
        lemma_chunk_bits_bound(data, start, (k - 1) as nat);
        let prev = chunk_bits(data, start, (k - 1) as nat);
        let b = bit_of(data, start + k - 1);
        let s = (k - 1) as u16;
        lemma_bit_of_le_one(data, start + k - 1);
        lemma_pow2_strictly_increases((k - 1) as nat, 16);
        lemma_mul_inequality(b as int, 1, pow2((k - 1) as nat) as int);
        lemma_u16_shl_is_mul(b, s);
        assert(((prev | (b << s)) as int) <= prev as int + ((b << s) as int)) by (bit_vector);
        lemma_pow2_unfold(k);
    }
}

/// Key bits taken from all-zero bytes are zero, so every chunk is zero.
pub proof fn lemma_zero_key_zero_chunks(data: Seq<u8>, width: nat, count: nat)
    requires
        data.len() == 64,
        width <= 16,
        count * width <= 512,
        forall|i: int| 0 <= i < data.len() ==> data[i] == 0,
    ensures
        forall|j: int| 0 <= j < count ==> chunks_spec(data, width, count)[j] == 0,
{
    assert forall|j: int| 0 <= j < count implies chunks_spec(data, width, count)[j] == 0 by {
        lemma_mul_inequality(j + 1, count as int, width as int);
        lemma_mul_is_distributive_add_other_way(width as int, j, 1);
        lemma_chunk_bits_zero(data, j * width, width);
    }
}

proof fn lemma_chunk_bits_zero(data: Seq<u8>, start: int, k: nat)
    requires
        0 <= start,
        start + k <= data.len() * 8,
        forall|i: int| 0 <= i < data.len() ==> data[i] == 0,
    ensures
        chunk_bits(data, start, k) == 0,
    decreases k,
{
    if k > 0 {
        lemma_chunk_bits_zero(data, start, (k - 1) as nat);
        let i = start + k - 1;
        assert(0 <= i / 8 < data.len());
        let s = (i % 8) as u16;
        let t = (k - 1) as u16;
        assert((0u16 >> s) & 1u16 == 0u16) by (bit_vector);
        assert(0u16 | (0u16 << t) == 0u16) by (bit_vector);
    }
}

/// Splits the 64-byte key `data` into `parts` chunks of `chunksize` bits
/// each. Fails when more bits are requested than the key holds, and in no
/// other case; on success the number of chunks is exactly `parts`.
pub fn dividekey(data: [u8; 64], parts: usize, chunksize: usize) -> (r: Result<
    Vec<u16>,
    ScrambleError,
>)
    requires
        chunksize <= 16,
    ensures
        match r {
            Ok(chunks) => parts * chunksize <= 512 && chunks@ == chunks_spec(
                data@,
                chunksize as nat,
                parts as nat,
            ),
            Err(e) => parts * chunksize > 512 && e == ScrambleError::InsufficientKeyMaterial,
        },
{
    if chunksize > 0 && parts > KEY_BITS / chunksize {
        proof {
            let cs = chunksize as int;
            let q = 512int / cs;
            lemma_fundamental_div_mod(512, cs);
            lemma_mod_bound(512, cs);
            lemma_mul_inequality(q + 1, parts as int, cs);
            lemma_mul_is_distributive_add_other_way(cs, q, 1);
        }
        return Err(ScrambleError::InsufficientKeyMaterial);
    }
    proof {
        if chunksize > 0 {
            let cs = chunksize as int;
            lemma_fundamental_div_mod(512, cs);
            lemma_mod_bound(512, cs);
            lemma_mul_inequality(parts as int, 512int / cs, cs);
        }
    }
    let mut chunks: Vec<u16> = Vec::new();
    for j in 0..parts
        invariant
            chunksize <= 16,
            parts * chunksize <= 512,
            chunks@.len() == j,
            forall|jj: int|
                0 <= jj < j ==> chunks@[jj] == chunk_spec(data@, chunksize as nat, jj),
    {
        proof {
            lemma_mul_inequality(j as int + 1, parts as int, chunksize as int);
            lemma_mul_is_distributive_add_other_way(chunksize as int, j as int, 1);
            lemma_mul_inequality(0, j as int, chunksize as int);
        }
        let base: usize = j * chunksize;
        let mut chunk: u16 = 0;
        for k in 0..chunksize
            invariant
                chunksize <= 16,
                base == j * chunksize,
                base + chunksize <= 512,
                k <= chunksize,
                chunk == chunk_bits(data@, base as int, k as nat),
        {
            let pos: usize = base + k;
            let byte: u8 = data[pos / 8];
            let b: u16 = ((byte as u16) >> ((pos % 8) as u16)) & 1u16;
            chunk = chunk | (b << (k as u16));
            assert(chunk == chunk_bits(data@, base as int, (k + 1) as nat));
        }
        chunks.push(chunk);
    }
    proof {
        assert(chunks@ =~= chunks_spec(data@, chunksize as nat, parts as nat));
    }
    Ok(chunks)
}

} // verus!
