//! The internet checksum.
//!
//! The bytes are read as 16-bit big-endian words, a last odd byte as the high
//! byte of a word. The words are added in ones' complement arithmetic, where
//! a carry out of the top bit comes back in at the bottom, and the checksum is
//! the complement of that sum.

use vstd::prelude::*;

verus! {

/// What the byte at `index` adds to its 16-bit word: the high byte stands at
/// an even index, the low byte at an odd one.
pub open spec fn byte_in_word(byte: u8, index: int) -> nat {
    if index % 2 == 0 {
        byte as nat * 256
    } else {
        byte as nat
    }
}

/// The plain sum of the 16-bit big-endian words of `bytes`.
pub open spec fn word_sum(bytes: Seq<u8>) -> nat
    decreases bytes.len(),
{
    if bytes.len() == 0 {
        0
    } else {
        word_sum(bytes.drop_last()) + byte_in_word(bytes.last(), bytes.len() - 1)
    }
}

/// A plain sum of words brought back to 16 bits by adding each carry in at
/// the bottom: zero stays zero, and any other sum lands in `1..=65535`.
pub open spec fn ones_complement(sum: nat) -> nat {
    if sum == 0 {
        0
    } else {
        ((sum - 1) % 65535 + 1) as nat
    }
}

/// The internet checksum of `bytes`.
pub open spec fn checksum_of(bytes: Seq<u8>) -> u16 {
    (65535 - ones_complement(word_sum(bytes))) as u16
}

/// Adding one word to a folded sum, with the carry brought back in, folds the
/// sum of both.
pub proof fn lemma_fold_step(sum: nat, word: nat)
    requires
        word <= 65535,
    ensures
        ones_complement(sum + word) == if ones_complement(sum) + word > 65535 {
            (ones_complement(sum) + word - 65535) as nat
        } else {
            ones_complement(sum) + word
        },
        ones_complement(sum) <= 65535,
{
    if sum > 0 {
        let q = (sum - 1) / 65535;
        let r = (sum - 1) % 65535;
        assert(sum - 1 == 65535 * q + r);
        if r + word < 65535 {
            assert(sum + word - 1 == 65535 * q + (r + word));
            vstd::arithmetic::div_mod::lemma_fundamental_div_mod_converse(
                sum + word - 1,
                65535,
                q,
                r + word,
            );
        } else {
            assert(sum + word - 1 == 65535 * (q + 1) + (r + word - 65535));
            vstd::arithmetic::div_mod::lemma_fundamental_div_mod_converse(
                sum + word - 1,
                65535,
                q + 1,
                r + word - 65535,
            );
        }
    }
}

/// Extending the bytes by one extends the sum by that byte at its weight.
pub proof fn lemma_word_sum_push(bytes: Seq<u8>, byte: u8)
    ensures
        word_sum(bytes.push(byte)) == word_sum(bytes) + byte_in_word(byte, bytes.len() as int),
{
    assert(bytes.push(byte).drop_last() =~= bytes);
}

/// The sum of two runs of bytes, the first of even length, is the sum of
/// their sums.
pub proof fn lemma_word_sum_concat(front: Seq<u8>, back: Seq<u8>)
    requires
        front.len() % 2 == 0,
    ensures
        word_sum(front + back) == word_sum(front) + word_sum(back),
    decreases back.len(),
{
    if back.len() == 0 {
        assert(front + back =~= front);
    } else {
        assert((front + back).drop_last() =~= front + back.drop_last());
        lemma_word_sum_concat(front, back.drop_last());
    }
}

/// Computes the internet checksum of `bytes`.
pub fn internet_checksum(bytes: &[u8]) -> (checksum: u16)
    ensures
        checksum == checksum_of(bytes@),
{
    let mut folded: u32 = 0;
    let mut i: usize = 0;
    let len: usize = bytes.len();
    while i < len
        invariant
            len == bytes@.len(),
            i <= len,
            i % 2 == 0 || i == len,
            folded <= 65535,
            folded == ones_complement(word_sum(bytes@.subrange(0, i as int))),
        decreases len - i,
    {
        let high: u32 = bytes[i] as u32;
        let low: u32 = if i + 1 < len {
            bytes[i + 1] as u32
        } else {
            0
        };
        let word: u32 = high * 256 + low;
        let ghost before = bytes@.subrange(0, i as int);
        proof {
            lemma_word_sum_push(before, bytes@[i as int]);
            assert(before.push(bytes@[i as int]) =~= bytes@.subrange(0, i + 1));
            if i + 1 < len {
                lemma_word_sum_push(bytes@.subrange(0, i + 1), bytes@[i + 1]);
                assert(bytes@.subrange(0, i + 1).push(bytes@[i + 1]) =~= bytes@.subrange(
                    0,
                    i + 2,
                ));
            }
            let next = if i + 1 < len {
                bytes@.subrange(0, i + 2)
            } else {
                bytes@.subrange(0, i + 1)
            };
            assert(word_sum(next) == word_sum(before) + word);
            lemma_fold_step(word_sum(before), word as nat);
        }
        folded = folded + word;
        if folded > 65535 {
            folded = folded - 65535;
        }
        i = if i + 1 < len {
            i + 2
        } else {
            i + 1
        };
    }
    proof {
        assert(bytes@.subrange(0, len as int) =~= bytes@);
    }
    (65535 - folded) as u16
}

/// The two bytes of a 16-bit value, high byte first, add that value to the
/// sum.
pub proof fn lemma_word_sum_of_word(value: u16)
    ensures
        word_sum(seq![(value / 256) as u8, (value % 256) as u8]) == value,
{
    let pair = seq![(value / 256) as u8, (value % 256) as u8];
    assert(pair.drop_last() =~= seq![(value / 256) as u8]);
    assert(seq![(value / 256) as u8].drop_last() =~= Seq::<u8>::empty());
    reveal_with_fuel(word_sum, 3);
}

/// A sum and the complement of its folding fold to all ones.
pub proof fn lemma_complement_cancels(sum: nat)
    ensures
        ones_complement(sum + (65535 - ones_complement(sum)) as nat) == 65535,
        ones_complement(sum) <= 65535,
{
    lemma_fold_step(sum, 0);
    lemma_fold_step(sum, (65535 - ones_complement(sum)) as nat);
}

/// A receiver adds up the words of what it got, checksum included, and
/// expects all ones. Bytes of even length followed by their own checksum
/// pass that test.
pub proof fn lemma_checksum_verifies(bytes: Seq<u8>)
    requires
        bytes.len() % 2 == 0,
    ensures
        ones_complement(
            word_sum(bytes + seq![(checksum_of(bytes) / 256) as u8, (checksum_of(bytes) % 256) as u8]),
        ) == 65535,
{
    let check = checksum_of(bytes);
    let tail = seq![(check / 256) as u8, (check % 256) as u8];
    lemma_word_sum_concat(bytes, tail);
    lemma_word_sum_of_word(check);
    lemma_complement_cancels(word_sum(bytes));
}

} // verus!
