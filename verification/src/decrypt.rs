//! The two ciphers of the container: the keystream that covers the audio
//! payload, and AES-128 in ECB mode with PKCS#7 padding, which covers the key
//! block and the metadata block.

use aes::cipher::generic_array::GenericArray;
use aes::cipher::{BlockDecrypt, KeyInit};
use aes::Aes128;
use vstd::prelude::*;
use vstd::slice::slice_subrange;

use crate::error::Errors;

verus! {

/// AES-128 key under which the key block is encrypted.
pub const HEADER_KEY: [u8; 16] = [
    0x68, 0x7A, 0x48, 0x52, 0x41, 0x6D, 0x73, 0x6F, 0x35, 0x6B, 0x49, 0x6E, 0x62, 0x61, 0x78, 0x57,
];

/// AES-128 key under which the metadata block is encrypted.
pub const INFO_KEY: [u8; 16] = [
    0x23, 0x31, 0x34, 0x6C, 0x6A, 0x6B, 0x5F, 0x21, 0x5C, 0x5D, 0x26, 0x30, 0x55, 0x3C, 0x27, 0x28,
];

/// Number of bytes of an AES block.
pub const BLOCK: usize = 16;

/// Number of payload bytes that `decrypt_audio` handles in one pass.
pub const WINDOW: usize = 0x8000;

/// The table `0, 1, .., 255`, from which key scheduling starts.
pub open spec fn identity_box() -> Seq<u8> {
    Seq::new(256, |i: int| i as u8)
}

/// `table` with the entries at `i` and `j` exchanged.
pub open spec fn swapped(table: Seq<u8>, i: int, j: int) -> Seq<u8> {
    table.update(i, table[j]).update(j, table[i])
}

/// The table and the accumulator after the first `steps` steps of key
/// scheduling. Step `i` adds entry `i` and key byte `i mod len` to the
/// accumulator, modulo 256, and then exchanges entry `i` with the entry at
/// the accumulator.
pub open spec fn schedule(raw_key: Seq<u8>, steps: nat) -> (Seq<u8>, int)
    decreases steps,
{
    if steps == 0 {
        (identity_box(), 0)
    } else {
        let (table, acc) = schedule(raw_key, (steps - 1) as nat);
        let i = steps - 1;
        let next = (acc + table[i] + raw_key[i % (raw_key.len() as int)]) % 256;
        (swapped(table, i, next), next)
    }
}

/// The key box that belongs to a raw key: the table after all 256 steps.
pub open spec fn key_box_of(raw_key: Seq<u8>) -> Seq<u8> {
    schedule(raw_key, 256).0
}

/// Whether `value` is one of the first 256 entries of `table`.
pub open spec fn occurs(table: Seq<u8>, value: u8) -> bool {
    exists|i: int| 0 <= i < 256 && #[trigger] table[i] == value
}

/// A table of 256 entries in which every byte value occurs, and none twice.
pub open spec fn is_permutation(table: Seq<u8>) -> bool {
    &&& table.len() == 256
    &&& forall|i: int, j: int| 0 <= i < j < 256 ==> table[i] != table[j]
    &&& forall|value: u8| #[trigger] occurs(table, value)
}

/// Exchanging two entries of a permutation leaves a permutation.
pub proof fn lemma_swapped_is_permutation(table: Seq<u8>, a: int, b: int)
    requires
        is_permutation(table),
        0 <= a < 256,
        0 <= b < 256,
    ensures
        is_permutation(swapped(table, a, b)),
{
    let after = swapped(table, a, b);
    assert forall|v: u8| #[trigger] occurs(after, v) by {
        assert(occurs(table, v));
        let i = choose|i: int| 0 <= i < 256 && #[trigger] table[i] == v;
        let moved = if i == a {
            b
        } else if i == b {
            a
        } else {
            i
        };
        assert(after[moved] == v);
    }
}

/// Every intermediate table of key scheduling is a permutation, and the
/// accumulator stays below 256.
pub proof fn lemma_schedule_is_permutation(raw_key: Seq<u8>, steps: nat)
    requires
        raw_key.len() > 0,
        steps <= 256,
    ensures
        is_permutation(schedule(raw_key, steps).0),
        0 <= schedule(raw_key, steps).1 < 256,
    decreases steps,
{
    if steps == 0 {
        let table = identity_box();
        assert forall|v: u8| #[trigger] occurs(table, v) by {
            assert(table[v as int] == v);
        }
    } else {
        lemma_schedule_is_permutation(raw_key, (steps - 1) as nat);
        let (table, acc) = schedule(raw_key, (steps - 1) as nat);
        let i = steps - 1;
        let next = (acc + table[i] + raw_key[i % (raw_key.len() as int)]) % 256;
        lemma_swapped_is_permutation(table, i, next);
    }
}

/// The key box of every non-empty raw key is a bijection on `0..=255`.
pub proof fn lemma_key_box_is_permutation(raw_key: Seq<u8>)
    requires
        raw_key.len() > 0,
    ensures
        is_permutation(key_box_of(raw_key)),
{
    lemma_schedule_is_permutation(raw_key, 256);
}

/// Builds the key box of `raw_key`.
pub fn build_key_box(raw_key: &[u8]) -> (key_box: [u8; 256])
    requires
        raw_key@.len() > 0,
    ensures
        key_box@ == key_box_of(raw_key@),
        is_permutation(key_box@),
{
    let mut table: [u8; 256] = [0u8; 256];
    let mut fill: usize = 0;
    while fill < 256
        invariant
            fill <= 256,
            forall|k: int| 0 <= k < fill ==> table@[k] == k as u8,
        decreases 256 - fill,
    {
        table[fill] = fill as u8;
        fill += 1;
    }
    assert(table@ =~= identity_box());
    let key_len = raw_key.len();
    let mut acc: usize = 0;
    let mut i: usize = 0;
    while i < 256
        invariant
            i <= 256,
            acc < 256,
            key_len == raw_key@.len(),
            key_len > 0,
            (table@, acc as int) == schedule(raw_key@, i as nat),
        decreases 256 - i,
    {
        acc = (acc + table[i] as usize + raw_key[i % key_len] as usize) % 256;
        let held = table[i];
        table[i] = table[acc];
        table[acc] = held;
        i += 1;
        proof {
            let (before, _) = schedule(raw_key@, (i - 1) as nat);
            assert(table@ =~= swapped(before, i - 1, acc as int));
        }
    }
    proof {
        lemma_key_box_is_permutation(raw_key@);
    }
    table
}

/// The keystream byte for the payload byte at `position`, counted from the
/// start of the payload.
pub open spec fn keystream_byte(key_box: Seq<u8>, position: int) -> u8
    recommends
        key_box.len() == 256,
{
    let j = (position + 1) % 256;
    let first = key_box[j] as int;
    key_box[(first + key_box[(first + j) % 256]) % 256]
}

/// `data` with every byte XOR-ed with the keystream byte of its position.
pub open spec fn keystream_xor(data: Seq<u8>, key_box: Seq<u8>) -> Seq<u8> {
    Seq::new(data.len(), |position: int| data[position] ^ keystream_byte(key_box, position))
}

/// The keystream depends on a position only through its remainder modulo 256.
pub proof fn lemma_keystream_period(key_box: Seq<u8>, position: int, periods: int)
    ensures
        keystream_byte(key_box, position + 256 * periods) == keystream_byte(key_box, position),
{
    assert((position + 256 * periods + 1) % 256 == (position + 1) % 256) by (nonlinear_arith);
}

/// A payload may be handled in pieces: where the first piece is a whole
/// number of 256 bytes long, the pieces can be decrypted each on its own.
pub proof fn lemma_keystream_xor_in_pieces(head: Seq<u8>, tail: Seq<u8>, key_box: Seq<u8>)
    requires
        head.len() % 256 == 0,
    ensures
        keystream_xor(head + tail, key_box) == keystream_xor(head, key_box) + keystream_xor(
            tail,
            key_box,
        ),
{
    let whole = keystream_xor(head + tail, key_box);
    let pieces = keystream_xor(head, key_box) + keystream_xor(tail, key_box);
    assert forall|p: int| 0 <= p < whole.len() implies whole[p] == pieces[p] by {
        if p >= head.len() {
            let periods = (head.len() / 256) as int;
            assert(head.len() == 256 * periods);
            lemma_keystream_period(key_box, p - head.len(), periods);
        }
    }
    assert(whole =~= pieces);
}

/// Applying the keystream twice gives the payload back, whatever its length.
pub proof fn lemma_keystream_xor_involution(data: Seq<u8>, key_box: Seq<u8>)
    ensures
        keystream_xor(keystream_xor(data, key_box), key_box) == data,
{
    let once = keystream_xor(data, key_box);
    let twice = keystream_xor(once, key_box);
    assert forall|position: int| 0 <= position < data.len() implies twice[position]
        == data[position] by {
        let byte = data[position];
        let stream = keystream_byte(key_box, position);
        assert((byte ^ stream) ^ stream == byte) by (bit_vector);
    }
    assert(twice =~= data);
}

/// Decrypts, or encrypts, the audio payload under `key_box`. The payload is
/// handled in windows of `WINDOW` bytes; the result does not depend on where
/// the windows begin, because `WINDOW` is a multiple of 256.
pub fn decrypt_audio(ciphertext: &[u8], key_box: &[u8; 256]) -> (plain: Vec<u8>)
    ensures
        plain@ == keystream_xor(ciphertext@, key_box@),
{
    let total = ciphertext.len();
    let mut plain: Vec<u8> = Vec::with_capacity(total);
    let mut base: usize = 0;
    while base < total
        invariant
            base <= total,
            total == ciphertext@.len(),
            base % WINDOW == 0 || base == total,
            plain@.len() == base,
            forall|p: int| 0 <= p < base ==> plain@[p] == ciphertext@[p] ^ keystream_byte(key_box@, p),
        decreases total - base,
    {
        let window_len = if total - base < WINDOW {
            total - base
        } else {
            WINDOW
        };
        let mut index: usize = 0;
        while index < window_len
            invariant
                index <= window_len,
                base + window_len <= total,
                total == ciphertext@.len(),
                base % WINDOW == 0,
                plain@.len() == base + index,
                forall|p: int| 0 <= p < base + index ==> plain@[p] == ciphertext@[p]
                    ^ keystream_byte(key_box@, p),
            decreases window_len - index,
        {
            let j = (index + 1) % 256;
            let first = key_box[j] as usize;
            let stream = key_box[(first + key_box[(first + j) % 256] as usize) % 256];
            proof {
                lemma_keystream_period(key_box@, index as int, (base / 256) as int);
                assert(base == 256 * (base / 256)) by {
                    assert(base % 256 == 0);
                }
                assert(stream == keystream_byte(key_box@, base + index));
            }
            plain.push(ciphertext[base + index] ^ stream);
            index += 1;
        }
        base += window_len;
    }
    assert(plain@ =~= keystream_xor(ciphertext@, key_box@));
    plain
}

/// The 16 bytes that AES-128 decryption under `key` makes of the 16-byte
/// `block`.
pub uninterp spec fn aes128_block_decrypted(key: Seq<u8>, block: Seq<u8>) -> Seq<u8>;

/// Decrypts one block with `Aes128::new` and `BlockDecrypt::decrypt_block`
/// of the `aes` crate. The contract only gives the result its name: it is
/// the AES-128 decryption of `block` under `key`, which this library does
/// not define.
#[verifier::external_body]
fn aes128_decrypt_block(key: &[u8; 16], block: &[u8]) -> (plain: [u8; 16])
    requires
        block@.len() == 16,
    ensures
        plain@ == aes128_block_decrypted(key@, block@),
{
    let cipher = Aes128::new(GenericArray::from_slice(key));
    let mut buffer = GenericArray::clone_from_slice(block);
    cipher.decrypt_block(&mut buffer);
    buffer.into()
}

/// `data` decrypted block by block, each block of 16 bytes independently of
/// the others (ECB mode).
pub open spec fn ecb_decrypted(data: Seq<u8>, key: Seq<u8>) -> Seq<u8> {
    Seq::new(
        data.len(),
        |i: int| aes128_block_decrypted(key, data.subrange(i - i % 16, i - i % 16 + 16))[i % 16],
    )
}

/// Whether `plain` ends in PKCS#7 padding of `pad` bytes: `pad` is between 1
/// and 16 and each of the last `pad` bytes holds `pad`.
pub open spec fn ends_in_padding(plain: Seq<u8>, pad: int) -> bool {
    &&& 1 <= pad <= 16
    &&& pad <= plain.len()
    &&& forall|i: int| plain.len() - pad <= i < plain.len() ==> plain[i] == pad
}

/// `plain` without its PKCS#7 padding, whose length the last byte gives;
/// `None` where `plain` is empty or does not end in such padding.
pub open spec fn pkcs7_unpadded(plain: Seq<u8>) -> Option<Seq<u8>> {
    if plain.len() > 0 && ends_in_padding(plain, plain.last() as int) {
        Some(plain.take(plain.len() - plain.last()))
    } else {
        None
    }
}

/// The plaintext of `data` under AES-128 in ECB mode with PKCS#7 padding;
/// `None` where `data` is empty, is not a whole number of blocks, or does
/// not decrypt to padded text.
pub open spec fn decrypted(data: Seq<u8>, key: Seq<u8>) -> Option<Seq<u8>> {
    if data.len() == 0 || data.len() % 16 != 0 {
        None
    } else {
        pkcs7_unpadded(ecb_decrypted(data, key))
    }
}

/// Removes the PKCS#7 padding from decrypted blocks.
pub fn pkcs7_unpad(plain: Vec<u8>) -> (r: Result<Vec<u8>, Errors>)
    ensures
        match r {
            Ok(text) => pkcs7_unpadded(plain@) == Some(text@),
            Err(e) => e == Errors::DecryptError && pkcs7_unpadded(plain@).is_none(),
        },
{
    let total = plain.len();
    if total == 0 {
        return Err(Errors::DecryptError);
    }
    let last = plain[total - 1];
    let pad = last as usize;
    if pad == 0 || pad > BLOCK || pad > total {
        return Err(Errors::DecryptError);
    }
    let mut at: usize = total - pad;
    while at < total
        invariant
            total == plain@.len(),
            1 <= pad <= 16,
            pad <= total,
            total - pad <= at <= total,
            last == pad,
            last == plain@.last(),
            forall|i: int| total - pad <= i < at ==> plain@[i] == last,
        decreases total - at,
    {
        if plain[at] != last {
            assert(plain@[at as int] != pad);
            return Err(Errors::DecryptError);
        }
        at += 1;
    }
    let mut text = plain;
    text.truncate(total - pad);
    Ok(text)
}

/// Decrypts `data` with AES-128 under `key` in ECB mode and removes the
/// PKCS#7 padding.
pub fn decrypt(data: &[u8], key: &[u8; 16]) -> (r: Result<Vec<u8>, Errors>)
    ensures
        match r {
            Ok(plain) => decrypted(data@, key@) == Some(plain@),
            Err(e) => e == Errors::DecryptError && decrypted(data@, key@).is_none(),
        },
{
    let total = data.len();
    if total == 0 || total % BLOCK != 0 {
        return Err(Errors::DecryptError);
    }
    let mut blocks: Vec<u8> = Vec::with_capacity(total);
    let mut offset: usize = 0;
    while offset < total
        invariant
            total == data@.len(),
            total % 16 == 0,
            offset % 16 == 0,
            offset <= total,
            blocks@.len() == offset,
            forall|i: int| 0 <= i < offset ==> blocks@[i] == ecb_decrypted(data@, key@)[i],
        decreases total - offset,
    {
        let clear = aes128_decrypt_block(key, slice_subrange(data, offset, offset + BLOCK));
        let mut t: usize = 0;
        while t < BLOCK
            invariant
                t <= 16,
                offset % 16 == 0,
                offset + 16 <= total,
                total == data@.len(),
                blocks@.len() == offset + t,
                clear@ == aes128_block_decrypted(
                    key@,
                    data@.subrange(offset as int, offset + 16),
                ),
                forall|i: int| 0 <= i < offset + t ==> blocks@[i] == ecb_decrypted(data@, key@)[i],
            decreases 16 - t,
        {
            proof {
                let i = offset + t;
                assert(i % 16 == t && i - i % 16 == offset);
            }
            blocks.push(clear[t]);
            t += 1;
        }
        offset += BLOCK;
    }
    assert(blocks@ =~= ecb_decrypted(data@, key@));
    pkcs7_unpad(blocks)
}

/// `bytes` with `mask` XOR-ed into every byte.
pub open spec fn masked(bytes: Seq<u8>, mask: u8) -> Seq<u8> {
    Seq::new(bytes.len(), |i: int| bytes[i] ^ mask)
}

/// Removes `mask` from every byte of `bytes`.
pub fn unmask(bytes: &[u8], mask: u8) -> (plain: Vec<u8>)
    ensures
        plain@ == masked(bytes@, mask),
{
    let total = bytes.len();
    let mut plain: Vec<u8> = Vec::with_capacity(total);
    let mut i: usize = 0;
    while i < total
        invariant
            i <= total,
            total == bytes@.len(),
            plain@.len() == i,
            forall|k: int| 0 <= k < i ==> plain@[k] == bytes@[k] ^ mask,
        decreases total - i,
    {
        plain.push(bytes[i] ^ mask);
        i += 1;
    }
    assert(plain@ =~= masked(bytes@, mask));
    plain
}

} // verus!
