use vstd::prelude::*;

verus! {

/// The lowest `count` bits of `word`, least significant bit first.
pub open spec fn low_bits(word: nat, count: nat) -> Seq<bool>
    decreases count,
{
    if count == 0 {
        Seq::empty()
    } else {
        seq![word % 2 == 1] + low_bits(word / 2, (count - 1) as nat)
    }
}

/// The 32 bits of a data word in the order in which SWD shifts them.
pub open spec fn word_bits(word: u32) -> Seq<bool> {
    low_bits(word as nat, 32)
}

/// The number that `bits` stand for, least significant bit first.
pub open spec fn bits_value(bits: Seq<bool>) -> nat
    decreases bits.len(),
{
    if bits.len() == 0 {
        0
    } else {
        (if bits[0] {
            1nat
        } else {
            0nat
        }) + 2 * bits_value(bits.drop_first())
    }
}

/// How many of `bits` are set.
pub open spec fn ones(bits: Seq<bool>) -> nat
    decreases bits.len(),
{
    if bits.len() == 0 {
        0
    } else {
        (if bits[0] {
            1nat
        } else {
            0nat
        }) + ones(bits.drop_first())
    }
}

/// The parity bit that goes with `bits`: set if an odd number of them is.
pub open spec fn parity(bits: Seq<bool>) -> bool {
    ones(bits) % 2 == 1
}

pub proof fn lemma_low_bits_len(word: nat, count: nat)
    ensures
        low_bits(word, count).len() == count,
    decreases count,
{
    if count > 0 {
        lemma_low_bits_len(word / 2, (count - 1) as nat);
    }
}

pub proof fn lemma_bits_value_bound(bits: Seq<bool>)
    ensures
        bits_value(bits) < vstd::arithmetic::power2::pow2(bits.len()),
    decreases bits.len(),
{
    if bits.len() == 0 {
        vstd::arithmetic::power2::lemma2_to64();
    } else {
        lemma_bits_value_bound(bits.drop_first());
        vstd::arithmetic::power2::lemma_pow2_unfold(bits.len());
    }
}

pub proof fn lemma_parity_push(bits: Seq<bool>, bit: bool)
    ensures
        parity(bits.push(bit)) == (parity(bits) != bit),
    decreases bits.len(),
{
    reveal_with_fuel(ones, 2);
    if bits.len() > 0 {
        lemma_parity_push(bits.drop_first(), bit);
        assert(bits.push(bit).drop_first() =~= bits.drop_first().push(bit));
    }
}

/// Shifting a number out and putting the bits together again gives the number
/// back.
pub proof fn law_value_of_low_bits(word: nat, count: nat)
    requires
        word < vstd::arithmetic::power2::pow2(count),
    ensures
        bits_value(low_bits(word, count)) == word,
    decreases count,
{
    if count == 0 {
        vstd::arithmetic::power2::lemma2_to64();
    } else {
        vstd::arithmetic::power2::lemma_pow2_unfold(count);
        law_value_of_low_bits(word / 2, (count - 1) as nat);
        assert(low_bits(word, count).drop_first() =~= low_bits(word / 2, (count - 1) as nat));
    }
}

/// Putting bits together and shifting the number out again gives the bits back.
pub proof fn law_low_bits_of_value(bits: Seq<bool>)
    ensures
        low_bits(bits_value(bits), bits.len()) == bits,
    decreases bits.len(),
{
    if bits.len() > 0 {
        law_low_bits_of_value(bits.drop_first());
        assert(bits =~= seq![bits[0]] + bits.drop_first());
    }
}

/// Inverting any one bit changes the parity.
pub proof fn law_parity_of_one_flip(bits: Seq<bool>, at: int)
    requires
        0 <= at < bits.len(),
    ensures
        parity(bits.update(at, !bits[at])) != parity(bits),
    decreases bits.len(),
{
    let flipped = bits.update(at, !bits[at]);
    if at == 0 {
        assert(flipped.drop_first() =~= bits.drop_first());
    } else {
        law_parity_of_one_flip(bits.drop_first(), at - 1);
        assert(flipped.drop_first() =~= bits.drop_first().update(at - 1, !bits[at]));
    }
}

/// A word is shifted out bit by bit from the lowest on: the bit at place `i` is bit `i`
/// of the word.
pub proof fn law_word_bits_by_position(word: u32)
    ensures
        word_bits(word).len() == 32,
        forall|i: u32| i < 32 ==> #[trigger] word_bits(word)[i as int] == ((word >> i) & 1 == 1),
{
    lemma_low_bits_len(word as nat, 32);
    assert forall|i: u32| i < 32 implies #[trigger] word_bits(word)[i as int] == ((word >> i) & 1
        == 1) by {
        lemma_low_bit(word, 32, i);
    }
}

/// Bit `i` of a word is found at place `i`, however many bits are shifted out.
pub proof fn lemma_low_bit(word: u32, count: nat, i: u32)
    requires
        i < count <= 32,
    ensures
        low_bits(word as nat, count).len() == count,
        low_bits(word as nat, count)[i as int] == ((word >> i) & 1 == 1),
    decreases count,
{
    lemma_low_bits_len(word as nat, count);
    assert((word >> 0) & 1 == word % 2) by (bit_vector);
    if i > 0 {
        let half = word / 2;
        let j = (i - 1) as u32;
        lemma_low_bit(half, (count - 1) as nat, j);
        assert(half >> j == word >> i) by (bit_vector)
            requires
                half == word / 2,
                i == j + 1,
                i < 32,
        ;
    }
}

/// The number that bits stand for has exactly these bits: bit `i` of it is the one at
/// place `i`, and no higher bit is set.
pub proof fn law_bits_value_by_position(bits: Seq<bool>)
    requires
        bits.len() <= 32,
    ensures
        bits_value(bits) <= u32::MAX,
        forall|i: u32|
            #![trigger bits[i as int]]
            #![trigger (bits_value(bits) as u32) >> i]
            i < 32 ==> (((bits_value(bits) as u32) >> i) & 1 == 1) == (i < bits.len()
                && bits[i as int]),
{
    let value = bits_value(bits);
    lemma_bits_value_bound(bits);
    vstd::arithmetic::power2::lemma2_to64();
    if bits.len() < 32 {
        vstd::arithmetic::power2::lemma_pow2_strictly_increases(bits.len(), 32);
    }
    let word = value as u32;
    // Zeros behind the bits do not change the number.
    let padded = bits + Seq::new((32 - bits.len()) as nat, |i: int| false);
    lemma_bits_value_padded(bits, (32 - bits.len()) as nat);
    law_low_bits_of_value(padded);
    assert forall|i: u32|
        #![trigger bits[i as int]]
        #![trigger word >> i]
        i < 32 implies ((word >> i) & 1 == 1) == (i < bits.len() && bits[i as int]) by {
        lemma_low_bit(word, 32, i);
        assert(low_bits(word as nat, 32)[i as int] == padded[i as int]);
    }
}

proof fn lemma_bits_value_padded(bits: Seq<bool>, zeros: nat)
    ensures
        bits_value(bits + Seq::new(zeros, |i: int| false)) == bits_value(bits),
    decreases bits.len() + zeros,
{
    let padded = bits + Seq::new(zeros, |i: int| false);
    if bits.len() > 0 {
        lemma_bits_value_padded(bits.drop_first(), zeros);
        assert(padded.drop_first() =~= bits.drop_first() + Seq::new(zeros, |i: int| false));
    } else if zeros > 0 {
        lemma_bits_value_padded(bits, (zeros - 1) as nat);
        assert(padded.drop_first() =~= bits + Seq::new((zeros - 1) as nat, |i: int| false));
    }
}

/// The parity bit is set if and only if an odd number of bits is.
pub proof fn law_parity_counts_set_bits(bits: Seq<bool>)
    ensures
        parity(bits) == (bits.to_multiset().count(true) % 2 == 1),
    decreases bits.len(),
{
    broadcast use vstd::seq_lib::group_to_multiset_ensures;

    if bits.len() > 0 {
        let shorter = bits.drop_last();
        law_parity_counts_set_bits(shorter);
        lemma_parity_push(shorter, bits.last());
        assert(bits =~= shorter.push(bits.last()));
    } else {
        assert(bits =~= Seq::<bool>::empty());
        assert(bits.to_multiset() =~= vstd::multiset::Multiset::<bool>::empty());
    }
}

/// Puts up to 32 bits together to a word, least significant bit first.
pub fn bits_to_byte(bits: &[bool]) -> (word: u32)
    requires
        bits@.len() <= 32,
    ensures
        word == bits_value(bits@),
        forall|i: u32|
            #![trigger bits@[i as int]]
            #![trigger word >> i]
            i < 32 ==> ((word >> i) & 1 == 1) == (i < bits@.len() && bits@[i as int]),
{
    let mut word: u32 = 0;
    let mut index: usize = bits.len();
    assert(bits@.skip(index as int) =~= Seq::<bool>::empty());
    while index > 0
        invariant
            index <= bits@.len() <= 32,
            word == bits_value(bits@.skip(index as int)),
        decreases index,
    {
        let ghost rest = bits@.skip(index as int);
        index = index - 1;
        proof {
            let shifted = bits@.skip(index as int);
            assert(shifted.drop_first() =~= rest);
            lemma_bits_value_bound(shifted);
            vstd::arithmetic::power2::lemma2_to64();
            if shifted.len() < 32 {
                vstd::arithmetic::power2::lemma_pow2_strictly_increases(shifted.len(), 32);
            }
        }
        let low: u32 = if bits[index] {
            1
        } else {
            0
        };
        word = 2 * word + low;
    }
    assert(bits@.skip(0) =~= bits@);
    proof {
        law_bits_value_by_position(bits@);
    }
    word
}

/// The parity bit over `bits`.
pub fn parity_bit(bits: &[bool]) -> (odd: bool)
    ensures
        odd == parity(bits@),
        odd == (bits@.to_multiset().count(true) % 2 == 1),
{
    let mut odd: bool = false;
    let mut index: usize = 0;
    assert(bits@.skip(0) =~= bits@);
    while index < bits.len()
        invariant
            index <= bits@.len(),
            odd == (parity(bits@.skip(index as int)) != parity(bits@)),
        decreases bits@.len() - index,
    {
        assert(bits@.skip(index as int).drop_first() =~= bits@.skip(index + 1));
        odd = odd ^ bits[index];
        index = index + 1;
    }
    proof {
        law_parity_counts_set_bits(bits@);
    }
    odd
}

} // verus!
