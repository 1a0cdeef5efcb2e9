//! Arithmetic helpers of the marketplace: rating averages, digit sums and the
//! pseudo-random shuffle used to pick candidates.

use vstd::prelude::*;
use vstd::multiset::Multiset;

verus! {

/// The average `total / n` rounded to the nearest integer, halves rounded up,
/// where an average below one counts as zero. A zero count gives `0` for a
/// zero total and `255` otherwise (an unbounded average saturates the byte).
pub open spec fn rounded_average(total: u8, n: u8) -> u8 {
    if n == 0 {
        if total == 0 { 0 } else { 255 }
    } else if total / n == 0 {
        0
    } else if 2 * (total % n) >= n {
        (total / n + 1) as u8
    } else {
        total / n
    }
}

/// Rounds the average rating `total_rating / number_of_users`.
pub fn roundoff(total_rating: u8, number_of_users: u8) -> (output: u8)
    ensures
        output == rounded_average(total_rating, number_of_users),
{
    if number_of_users == 0 {
        if total_rating == 0 { 0 } else { 255 }
    } else {
        let quotient: u8 = total_rating / number_of_users;
        let remainder: u8 = total_rating % number_of_users;
        if quotient == 0 {
            0
        } else if remainder as u16 * 2 >= number_of_users as u16 {
            assert(quotient < 255) by (nonlinear_arith)
                requires
                    quotient == total_rating / number_of_users,
                    remainder == total_rating % number_of_users,
                    remainder * 2 >= number_of_users,
                    number_of_users > 0,
            ;
            quotient + 1
        } else {
            quotient
        }
    }
}


/// The rounded average is the integer nearest to the mean, halves rounded
/// up: `r` with `r - 1/2 <= total / n < r + 1/2`, once the mean reaches one;
/// a mean below one gives zero.
pub proof fn lemma_rounded_average_is_nearest(total: u8, n: u8)
    requires
        n >= 1,
    ensures
        total >= n ==> (2 * rounded_average(total, n) - 1) * n <= 2 * total
            < (2 * rounded_average(total, n) + 1) * n,
        total < n ==> rounded_average(total, n) == 0,
{
    let q = total / n;
    let rem = total % n;
    assert(total == q * n + rem && 0 <= rem < n) by (nonlinear_arith)
        requires n >= 1, q == total / n, rem == total % n;
    if total >= n {
        assert(q >= 1) by (nonlinear_arith)
            requires total == q * n + rem, 0 <= rem < n, total >= n, q >= 0;
        let r = rounded_average(total, n) as int;
        if 2 * rem >= n {
            assert(q < 255) by (nonlinear_arith)
                requires total == q * n + rem, 0 <= rem < n, 2 * rem >= n, total <= 255;
            assert(r == q + 1);
            assert((2 * r - 1) * n <= 2 * total < (2 * r + 1) * n) by (nonlinear_arith)
                requires r == q + 1, total == q * n + rem, 0 <= rem < n, 2 * rem >= n;
        } else {
            assert(r == q);
            assert((2 * r - 1) * n <= 2 * total < (2 * r + 1) * n) by (nonlinear_arith)
                requires r == q, total == q * n + rem, 0 <= rem < n, 2 * rem < n, n >= 1;
        }
    } else {
        assert(q == 0) by (nonlinear_arith)
            requires total == q * n + rem, 0 <= rem < n, total < n, q >= 0;
    }
}

/// Sum of the decimal digits of `n`.
pub open spec fn digit_sum(n: nat) -> nat
    decreases n,
{
    if n == 0 {
        0
    } else {
        n % 10 + digit_sum(n / 10)
    }
}

/// The digit sum of a number never exceeds the number.
pub proof fn lemma_digit_sum_le(n: nat)
    ensures
        digit_sum(n) <= n,
    decreases n,
{
    if n > 0 {
        lemma_digit_sum_le(n / 10);
    }
}

/// The digit sum of `number`; while it exceeds `length`, the digit sum of one
/// less than it, again and again.
pub open spec fn reduced_digit_sum(number: nat, length: nat) -> nat
    decreases number,
{
    let s = digit_sum(number);
    if s <= length {
        s
    } else {
        proof {
            lemma_digit_sum_le(number);
        }
        reduced_digit_sum((s - 1) as nat, length)
    }
}

/// The reduced digit sum never exceeds the bound.
pub proof fn lemma_reduced_digit_sum_bounded(number: nat, length: nat)
    ensures
        reduced_digit_sum(number, length) <= length,
        digit_sum(number) <= length ==> reduced_digit_sum(number, length) == digit_sum(number),
    decreases number,
{
    let s = digit_sum(number);
    if s > length {
        lemma_digit_sum_le(number);
        lemma_reduced_digit_sum_bounded((s - 1) as nat, length);
    }
}

fn digit_sum_u32(n: u32) -> (s: u32)
    ensures
        s == digit_sum(n as nat),
{
    let mut m: u32 = n;
    let mut acc: u32 = 0;
    proof {
        lemma_digit_sum_le(n as nat);
    }
    while m > 0
        invariant
            acc + digit_sum(m as nat) == digit_sum(n as nat),
            digit_sum(n as nat) <= n,
        decreases m,
    {
        acc = acc + m % 10;
        m = m / 10;
    }
    acc
}

/// Adds up the decimal digits of `number`; while the sum exceeds `length` it
/// takes one less than the sum and adds up its digits instead.
pub fn get_sum(number: u32, length: u32) -> (sum_of_number: u32)
    ensures
        sum_of_number == reduced_digit_sum(number as nat, length as nat),
        sum_of_number <= length,
{
    let mut current: u32 = number;
    proof {
        lemma_reduced_digit_sum_bounded(number as nat, length as nat);
    }
    loop
        invariant
            reduced_digit_sum(current as nat, length as nat) == reduced_digit_sum(
                number as nat,
                length as nat,
            ),
        decreases current,
    {
        let s = digit_sum_u32(current);
        if s <= length {
            return s;
        }
        proof {
            lemma_digit_sum_le(current as nat);
        }
        current = s - 1;
    }
}

/// Modulus offset of the linear congruential generator.
pub const LCG_MODULUS_OFFSET: u128 = 10;

/// Multiplier of the linear congruential generator.
pub const LCG_MULTIPLIER: u128 = 5;

/// Increment of the linear congruential generator.
pub const LCG_INCREMENT: u128 = 2;

/// Half of the value `(5 i + 2) mod (seed + 10)` that the generator draws at step `i`.
pub open spec fn lcg_step(seed: nat, i: nat) -> nat {
    (((LCG_MULTIPLIER * i + LCG_INCREMENT) % (seed + LCG_MODULUS_OFFSET)) / 2) as nat
}

/// Sum of the halves of the first `count` values `(5 i + 2) mod (seed + 10)`.
pub open spec fn lcg_total(seed: nat, count: nat) -> nat
    decreases count,
{
    if count == 0 {
        0
    } else {
        lcg_total(seed, (count - 1) as nat) + lcg_step(seed, (count - 1) as nat)
    }
}

proof fn lemma_lcg_total_monotone(seed: nat, i: nat, j: nat)
    requires
        i <= j,
    ensures
        lcg_total(seed, i) <= lcg_total(seed, j),
    decreases j - i,
{
    if i < j {
        lemma_lcg_total_monotone(seed, i, (j - 1) as nat);
    }
}

proof fn lemma_lcg_total_bound(seed: nat, count: nat)
    ensures
        lcg_total(seed, count) <= count * (seed + LCG_MODULUS_OFFSET),
    decreases count,
{
    if count > 0 {
        lemma_lcg_total_bound(seed, (count - 1) as nat);
        let m = seed + LCG_MODULUS_OFFSET;
        assert(lcg_step(seed, (count - 1) as nat) <= m);
        assert((count - 1) * m + m == count * m) by (nonlinear_arith);
    }
}

/// Sums, for `i` below `length`, half of `(5 i + 2) mod (seed + 10)`, and
/// keeps the low 32 bits of the sum.
pub fn lcg(seed: u128, length: u128) -> (total: u32)
    requires
        seed + LCG_MODULUS_OFFSET <= u128::MAX,
        length == 0 || LCG_MULTIPLIER * (length - 1) + LCG_INCREMENT <= u128::MAX,
        lcg_total(seed as nat, length as nat) <= u128::MAX,
    ensures
        total as int == lcg_total(seed as nat, length as nat) % 0x1_0000_0000,
{
    let m: u128 = seed + LCG_MODULUS_OFFSET;
    let mut total: u128 = 0;
    let mut i: u128 = 0;
    while i < length
        invariant
            i <= length,
            m == seed + LCG_MODULUS_OFFSET,
            length == 0 || LCG_MULTIPLIER * (length - 1) + LCG_INCREMENT <= u128::MAX,
            lcg_total(seed as nat, length as nat) <= u128::MAX,
            total == lcg_total(seed as nat, i as nat),
        decreases length - i,
    {
        let x = (LCG_MULTIPLIER * i + LCG_INCREMENT) % m;
        proof {
            lemma_lcg_total_monotone(seed as nat, (i + 1) as nat, length as nat);
        }
        total = total + x / 2;
        i = i + 1;
    }
    assert(total as u32 == (total % 0x1_0000_0000) as u32) by (bit_vector);
    total as u32
}

/// The value that the generator hands to the digit sum in a shuffle step.
pub open spec fn lcg_value(seed: u32, length: nat) -> nat {
    lcg_total(seed as nat, length) % 0x1_0000_0000
}

/// The position taken out of a sequence of `n` items in a shuffle step with
/// the given remaining length.
pub open spec fn shuffle_pick(seed: u32, length: nat, n: nat) -> int {
    let g = reduced_digit_sum(lcg_value(seed, length), length);
    if g > n - 1 {
        g - 1
    } else {
        g as int
    }
}

/// The shuffle can run to its end on `n` items: the remaining length never
/// runs out before the items and every pick lies within the items.
pub open spec fn shuffle_in_bounds(n: nat, seed: u32, length: nat) -> bool
    decreases n,
{
    n == 0 || (length >= 1 && reduced_digit_sum(lcg_value(seed, length), length) <= n
        && shuffle_in_bounds((n - 1) as nat, seed, (length - 1) as nat))
}

/// The result of the shuffle: at each step the picked item is taken out, the
/// last item moves into its place, and the remaining length drops by one.
pub open spec fn shuffled<T>(s: Seq<T>, seed: u32, length: nat) -> Seq<T>
    decreases s.len(),
{
    if s.len() == 0 {
        Seq::empty()
    } else {
        let i = shuffle_pick(seed, length, s.len());
        if 0 <= i < s.len() {
            seq![s[i]] + shuffled(s.update(i, s.last()).drop_last(), seed, (length - 1) as nat)
        } else {
            Seq::empty()
        }
    }
}

/// A shuffle whose length is the number of items always stays in bounds.
pub proof fn lemma_shuffle_in_bounds_with_own_length(n: nat, seed: u32)
    ensures
        shuffle_in_bounds(n, seed, n),
    decreases n,
{
    if n > 0 {
        lemma_reduced_digit_sum_bounded(lcg_value(seed, n), n);
        lemma_shuffle_in_bounds_with_own_length((n - 1) as nat, seed);
    }
}

/// A shuffle that stays in bounds is a permutation of its input.
pub proof fn lemma_shuffled_is_permutation<T>(s: Seq<T>, seed: u32, length: nat)
    requires
        shuffle_in_bounds(s.len(), seed, length),
    ensures
        shuffled(s, seed, length).to_multiset() == s.to_multiset(),
    decreases s.len(),
{
    broadcast use vstd::seq_lib::group_to_multiset_ensures;
    broadcast use vstd::multiset::group_multiset_axioms;

    if s.len() > 0 {
        let n = s.len();
        let g = reduced_digit_sum(lcg_value(seed, length), length);
        let i = shuffle_pick(seed, length, n);
        assert(0 <= i < n);
        let rest = s.update(i, s.last()).drop_last();
        lemma_shuffled_is_permutation(rest, seed, (length - 1) as nat);
        let u = s.update(i, s.last());
        assert(rest == u.remove(n - 1));
        assert(u[n - 1] == s.last());
        vstd::seq_lib::to_multiset_remove(u, n - 1);
        vstd::seq_lib::to_multiset_update(s, i, s.last());
        assert(s.to_multiset().count(s[i]) > 0) by {
            assert(s.contains(s[i]));
        }
        assert(rest.to_multiset() =~= s.to_multiset().remove(s[i]));
        let out = shuffled(s, seed, length);
        assert(out == seq![s[i]] + shuffled(rest, seed, (length - 1) as nat));
        vstd::seq_lib::lemma_multiset_commutative(seq![s[i]], shuffled(rest, seed, (length - 1) as nat));
        assert(seq![s[i]].to_multiset() =~= Multiset::empty().insert(s[i])) by {
            vstd::seq_lib::to_multiset_build(Seq::<T>::empty(), s[i]);
            assert(Seq::<T>::empty().push(s[i]) =~= seq![s[i]]);
            assert(Seq::<T>::empty().to_multiset() =~= Multiset::empty());
        }
        assert(out.to_multiset() =~= s.to_multiset());
    }
}

/// Takes the items of `input` out one at a time at pseudo-random positions
/// (Fisher-Yates with the generator above) and returns them in that order.
pub fn dot_shuffle<T>(input: Vec<T>, seed: u32, length: u32) -> (result: Vec<T>)
    requires
        input.len() <= u32::MAX,
        shuffle_in_bounds(input.len() as nat, seed, length as nat),
    ensures
        result@ == shuffled(input@, seed, length as nat),
{
    let mut input = input;
    let mut length: u32 = length;
    let mut result: Vec<T> = Vec::new();
    let ghost initial = input@;
    let ghost initial_length = length as nat;
    while !input.is_empty()
        invariant
            input.len() <= u32::MAX,
            shuffle_in_bounds(input.len() as nat, seed, length as nat),
            result@ + shuffled(input@, seed, length as nat) == shuffled(initial, seed, initial_length),
        decreases input.len(),
    {
        proof {
            lemma_lcg_total_bound(seed as nat, length as nat);
            assert((length as nat) * (seed + LCG_MODULUS_OFFSET) <= 0x1_0000_0000 * 0x2_0000_0000) by (nonlinear_arith)
                requires length <= u32::MAX, seed <= u32::MAX;
        }
        let generated = lcg(seed as u128, length as u128);
        let mut random_number_idx: u32 = get_sum(generated, length);
        if random_number_idx > input.len() as u32 - 1 {
            random_number_idx = random_number_idx - 1;
        }
        let ghost s = input@;
        let ghost old_length = length as nat;
        length = length - 1;
        let random_element = input.swap_remove(random_number_idx as usize);
        result.push(random_element);
        proof {
            let i = shuffle_pick(seed, old_length, s.len());
            assert(i == random_number_idx);
            assert(shuffled(s, seed, old_length) == seq![s[i]] + shuffled(input@, seed, length as nat));
            assert(result@ + shuffled(input@, seed, length as nat) =~= (result@.drop_last() + seq![s[i]]) + shuffled(input@, seed, length as nat));
        }
    }
    assert(result@ =~= result@ + shuffled(input@, seed, length as nat));
    result
}

} // verus!
