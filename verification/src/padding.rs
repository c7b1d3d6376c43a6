//! Block padding: a padded buffer ends in `n` bytes of value `n`, where
//! `1 <= n <= block size`, so that its length is a whole number of blocks.
//! The count is written into one byte: for blocks of more than 255 bytes
//! only its low eight bits are, and such a padding cannot be told apart
//! from the data again.

use vstd::prelude::*;

verus! {

/// Size in bytes of one cipher block.
pub const CHUNK_SIZE: usize = 16;

/// How many bytes padding appends to `len` bytes for blocks of `block_size`.
pub open spec fn pad_len(len: int, block_size: int) -> int {
    block_size - len % block_size
}

/// `data` followed by `pad_len` bytes, each of which holds that count, as
/// far as one byte holds it.
pub open spec fn padded(data: Seq<u8>, block_size: int) -> Seq<u8> {
    let n = pad_len(data.len() as int, block_size);
    data + Seq::new(n as nat, |i: int| (n % 256) as u8)
}

/// Whether `data` ends in a well-formed padding for blocks of `CHUNK_SIZE`:
/// its last byte `n` lies in `1..=CHUNK_SIZE`, is no more than the length,
/// and the last `n` bytes all equal `n`.
pub open spec fn well_padded(data: Seq<u8>) -> bool {
    &&& data.len() > 0
    &&& 1 <= data.last() <= CHUNK_SIZE
    &&& data.last() <= data.len()
    &&& forall|i: int| data.len() - data.last() <= i < data.len() ==> data[i] == data.last()
}

/// A well-padded buffer without its padding.
pub open spec fn unpadded(data: Seq<u8>) -> Seq<u8> {
    data.take(data.len() - data.last())
}

/// Pads `data` to a whole number of blocks; a buffer that already is one
/// gains a full block.
pub fn pad(data: &[u8], block_size: usize) -> (out: Vec<u8>)
    requires
        0 < block_size,
        data.len() + block_size <= usize::MAX,
    ensures
        out@ == padded(data@, block_size as int),
        out.len() % block_size == 0,
        data.len() < out.len() <= data.len() + block_size,
{
    let padding_len: usize = block_size - (data.len() % block_size);
    let pad_byte: u8 = (padding_len % 256) as u8;
    let mut padded_data: Vec<u8> = Vec::with_capacity(data.len() + padding_len);
    let mut i: usize = 0;
    while i < data.len()
        invariant
            i <= data.len(),
            padded_data@ == data@.take(i as int),
        decreases data.len() - i,
    {
        padded_data.push(data[i]);
        i += 1;
    }
    let mut j: usize = 0;
    while j < padding_len
        invariant
            j <= padding_len,
            padded_data@ == data@ + Seq::new(j as nat, |k: int| pad_byte),
        decreases padding_len - j,
    {
        padded_data.push(pad_byte);
        j += 1;
    }
    proof {
        lemma_padded_len(data@.len() as int, block_size as int);
    }
    padded_data
}

/// Strips the padding in place. Fails, and leaves `data` as it is, when the
/// buffer is not well padded.
pub fn unpad(data: &mut Vec<u8>) -> (r: Result<(), ()>)
    ensures
        r is Ok <==> well_padded(old(data)@),
        r is Ok ==> final(data)@ == unpadded(old(data)@),
        r is Err ==> final(data)@ == old(data)@,
{
    let len: usize = data.len();
    if len == 0 {
        return Err(());
    }
    let pad_byte: u8 = data[len - 1];
    let pad_len: usize = pad_byte as usize;
    if pad_len == 0 || pad_len > CHUNK_SIZE || pad_len > len {
        return Err(());
    }
    let start: usize = len - pad_len;
    let mut i: usize = start;
    while i < len
        invariant
            start <= i <= len,
            len == data.len(),
            start == len - pad_byte,
            1 <= pad_byte <= CHUNK_SIZE,
            data@ == old(data)@,
            pad_byte == data@.last(),
            forall|k: int| start <= k < i ==> data@[k] == pad_byte,
        decreases len - i,
    {
        if data[i] != pad_byte {
            assert(old(data)@[i as int] != old(data)@.last());
            return Err(());
        }
        i += 1;
    }
    data.truncate(start);
    Ok(())
}

/// The length of a padded buffer is a positive multiple of the block size.
pub proof fn lemma_padded_len(len: int, block_size: int)
    requires
        0 <= len,
        0 < block_size,
    ensures
        1 <= pad_len(len, block_size) <= block_size,
        (len + pad_len(len, block_size)) % block_size == 0,
{
    vstd::arithmetic::div_mod::lemma_fundamental_div_mod(len, block_size);
    vstd::arithmetic::div_mod::lemma_mod_multiples_basic(len / block_size + 1, block_size);
    assert(len + pad_len(len, block_size) == (len / block_size + 1) * block_size) by (nonlinear_arith)
        requires
            len == block_size * (len / block_size) + len % block_size,
            pad_len(len, block_size) == block_size - len % block_size,
    ;
}

/// Padding can always be undone: what `pad` appends, `unpad` removes.
pub proof fn lemma_unpad_pad(data: Seq<u8>)
    ensures
        well_padded(padded(data, CHUNK_SIZE as int)),
        unpadded(padded(data, CHUNK_SIZE as int)) == data,
{
    lemma_padded_len(data.len() as int, CHUNK_SIZE as int);
    let p = padded(data, CHUNK_SIZE as int);
    assert(p.take(data.len() as int) == data);
}

} // verus!
