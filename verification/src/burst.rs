//! Bursts: at every key that is pressed, a share of the bytes of the image,
//! at positions drawn at random, is overwritten; with the bytes of a text in
//! their order, or with noise.

use crate::pixel::PixelBuffer;
use crate::random::RandomSource;
use vstd::arithmetic::div_mod::lemma_fundamental_div_mod;
use vstd::arithmetic::div_mod::lemma_fundamental_div_mod_converse;
use vstd::arithmetic::div_mod::lemma_mod_bound;
use vstd::arithmetic::div_mod::lemma_small_mod;
use vstd::arithmetic::mul::lemma_mul_is_commutative;
use vstd::arithmetic::mul::lemma_mul_is_distributive_add_other_way;
use vstd::prelude::*;

verus! {

/// One byte in this many is overwritten by a burst of text.
pub const TEXT_BURST_SHARE: usize = 128;

/// One byte in this many is overwritten by a burst of noise.
pub const NOISE_BURST_SHARE: usize = 16;

/// The bytes after the writes were made, one after the other; a write is a
/// position and the byte put there.
pub open spec fn scattered(data: Seq<u8>, writes: Seq<(int, u8)>) -> Seq<u8>
    decreases writes.len(),
{
    if writes.len() == 0 {
        data
    } else {
        scattered(data, writes.drop_last()).update(writes.last().0, writes.last().1)
    }
}

/// Every write lands inside a buffer of `len` bytes.
pub open spec fn writes_inside(writes: Seq<(int, u8)>, len: int) -> bool {
    forall|k: int| 0 <= k < writes.len() ==> 0 <= (#[trigger] writes[k]).0 < len
}

/// Everything that is certain of the bytes after a burst of text, whatever
/// was drawn: one write for every 128 bytes of the buffer, and the writes put
/// the bytes of the text in their order, from `cursor` on and around.
pub open spec fn text_burst_outcome(
    before: Seq<u8>,
    text: Seq<u8>,
    cursor: int,
    after: Seq<u8>,
) -> bool {
    exists|writes: Seq<(int, u8)>|
        {
            &&& writes.len() == before.len() / (TEXT_BURST_SHARE as nat)
            &&& writes_inside(writes, before.len() as int)
            &&& forall|k: int|
                0 <= k < writes.len() ==> (#[trigger] writes[k]).1 == text[(cursor + k) % (
                text.len() as int)]
            &&& after == scattered(before, writes)
        }
}

/// Everything that is certain of the bytes after a burst of noise, whatever
/// was drawn: one write for every 16 bytes of the buffer.
pub open spec fn noise_burst_outcome(before: Seq<u8>, after: Seq<u8>) -> bool {
    exists|writes: Seq<(int, u8)>|
        {
            &&& writes.len() == before.len() / (NOISE_BURST_SHARE as nat)
            &&& writes_inside(writes, before.len() as int)
            &&& after == scattered(before, writes)
        }
}

/// Going round a cycle of `size` places, the place after `x` is the next one,
/// or the first after the last.
proof fn lemma_next_in_cycle(x: int, size: int)
    requires
        0 <= x,
        0 < size,
    ensures
        (x + 1) % size == if x % size + 1 == size {
            0
        } else {
            x % size + 1
        },
{
    let q = x / size;
    let r = x % size;
    lemma_fundamental_div_mod(x, size);
    lemma_mod_bound(x, size);
    lemma_mul_is_commutative(size, q);
    if r + 1 == size {
        lemma_mul_is_distributive_add_other_way(size, q, 1);
        lemma_fundamental_div_mod_converse(x + 1, size, q + 1, 0);
    } else {
        lemma_fundamental_div_mod_converse(x + 1, size, q, r + 1);
    }
}

/// Overwrites one byte in 128 of the image, at positions drawn at random,
/// with the bytes of `text` in their order, starting with the byte at
/// `cursor`. Hands back where the next burst goes on in the text.
pub fn text_burst(
    buffer: &mut PixelBuffer,
    text: &Vec<u8>,
    cursor: usize,
    rng: &mut RandomSource,
) -> (next: usize)
    requires
        cursor < text@.len(),
    ensures
        final(buffer)@.same_shape(old(buffer)@),
        text_burst_outcome(old(buffer)@.bytes, text@, cursor as int, final(buffer)@.bytes),
        next == (cursor + old(buffer)@.bytes.len() / (TEXT_BURST_SHARE as nat)) % (
            text@.len() as int),
{
    let len: usize = buffer.len();
    let count: usize = len / TEXT_BURST_SHARE;
    let size: usize = text.len();
    let ghost before: Seq<u8> = buffer@.bytes;
    let ghost mut writes: Seq<(int, u8)> = Seq::empty();
    let mut at: usize = cursor;
    let mut done: usize = 0;
    proof {
        lemma_small_mod(cursor as nat, size as nat);
    }
    while done < count
        invariant
            done <= count,
            count == len / 128,
            len == before.len(),
            size == text@.len(),
            at < size,
            at == (cursor + done) % (size as int),
            buffer@.same_shape(old(buffer)@),
            buffer@.bytes.len() == len,
            writes.len() == done,
            writes_inside(writes, len as int),
            forall|k: int|
                0 <= k < done ==> (#[trigger] writes[k]).1 == text@[(cursor + k) % (size as int)],
            buffer@.bytes == scattered(before, writes),
        decreases count - done,
    {
        let position: usize = rng.below(len);
        let value: u8 = text[at];
        proof {
            assert(writes.push((position as int, value)).drop_last() =~= writes);
            writes = writes.push((position as int, value));
        }
        buffer.put(position, value);
        proof {
            lemma_next_in_cycle((cursor + done) as int, size as int);
        }
        at = if at + 1 == size {
            0
        } else {
            at + 1
        };
        done = done + 1;
    }
    at
}

/// Overwrites one byte in 16 of the image, at positions drawn at random,
/// with random bytes.
pub fn noise_burst(buffer: &mut PixelBuffer, rng: &mut RandomSource)
    ensures
        final(buffer)@.same_shape(old(buffer)@),
        noise_burst_outcome(old(buffer)@.bytes, final(buffer)@.bytes),
{
    let len: usize = buffer.len();
    let count: usize = len / NOISE_BURST_SHARE;
    let ghost before: Seq<u8> = buffer@.bytes;
    let ghost mut writes: Seq<(int, u8)> = Seq::empty();
    let mut done: usize = 0;
    while done < count
        invariant
            done <= count,
            count == len / 16,
            len == before.len(),
            buffer@.same_shape(old(buffer)@),
            buffer@.bytes.len() == len,
            writes.len() == done,
            writes_inside(writes, len as int),
            buffer@.bytes == scattered(before, writes),
        decreases count - done,
    {
        let position: usize = rng.below(len);
        let value: u8 = rng.byte();
        proof {
            assert(writes.push((position as int, value)).drop_last() =~= writes);
            writes = writes.push((position as int, value));
        }
        buffer.put(position, value);
        done = done + 1;
    }
}

} // verus!
