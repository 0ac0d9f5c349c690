//! The Internet checksum: a one's-complement sum of big-endian 16-bit words.
use vstd::prelude::*;
use crate::bytes::be16;

verus! {

/// The word that starts at even offset `j` of `h[0 .. n]`: a final odd byte is
/// padded with zero, and with `skip_ten` the word at offset 10 counts as zero.
pub open spec fn word_at(h: Seq<u8>, j: int, n: int, skip_ten: bool) -> nat {
    if skip_ten && j == 10 {
        0
    } else if j + 1 < n {
        be16(h, j)
    } else {
        h[j] as nat * 256
    }
}

/// Sum of the first `m` words, those at offsets `0, 2, .., 2m - 2`.
pub open spec fn sum_words(h: Seq<u8>, m: nat, n: int, skip_ten: bool) -> nat
    decreases m,
{
    if m == 0 {
        0
    } else {
        sum_words(h, (m - 1) as nat, n, skip_ten) + word_at(h, 2 * (m - 1), n, skip_ten)
    }
}

/// Sum of every word of `h[0 .. n]`.
pub open spec fn sum_all_words(h: Seq<u8>, n: nat, skip_ten: bool) -> nat {
    sum_words(h, (n + 1) / 2, n as int, skip_ten)
}

/// End-around carry: the high half is added back into the low half until the
/// value fits in sixteen bits.
pub open spec fn fold(x: nat) -> nat
    decreases x,
{
    if x < 65536 {
        x
    } else {
        fold(x % 65536 + x / 65536)
    }
}

/// The one's complement of the folded sum `x`.
pub open spec fn complement_of_sum(x: nat) -> int {
    0xFFFF - fold(x)
}

pub proof fn lemma_fold_bound(x: nat)
    ensures
        fold(x) < 65536,
    decreases x,
{
    if x >= 65536 {
        lemma_fold_bound(x % 65536 + x / 65536);
    }
}

/// Adds up the words of `h[0 .. n]`.
pub fn word_sum(h: &[u8], n: usize, skip_ten: bool) -> (r: u64)
    requires
        n <= h@.len(),
        n <= 0x7FFF_FFFF,
    ensures
        r as nat == sum_all_words(h@, n as nat, skip_ten),
        r <= (n as nat + 1) * 65536,
{
    let mut sum: u64 = 0;
    let mut i: usize = 0;
    while i < n
        invariant
            n <= h@.len(),
            n <= 0x7FFF_FFFF,
            i % 2 == 0,
            i <= n + 1,
            sum as nat == sum_words(h@, (i / 2) as nat, n as int, skip_ten),
            sum <= i as nat * 65536,
        decreases n + 1 - i,
    {
        let w: u64 = if skip_ten && i == 10 {
            0
        } else if i + 1 < n {
            h[i] as u64 * 256 + h[i + 1] as u64
        } else {
            h[i] as u64 * 256
        };
        proof {
            assert(((i + 2) / 2) as nat - 1 == (i / 2) as nat);
            assert(2 * (i / 2) == i);
        }
        sum = sum + w;
        i = i + 2;
    }
    proof {
        assert(i / 2 == (n + 1) / 2);
    }
    sum
}

/// Folds the carries of `x` and complements the result.
pub fn complement_fold(x: u64) -> (r: u16)
    ensures
        r as int == complement_of_sum(x as nat),
{
    let mut s: u64 = x;
    while s >= 65536
        invariant
            fold(s as nat) == fold(x as nat),
        decreases s,
    {
        s = s % 65536 + s / 65536;
    }
    (0xFFFF - s) as u16
}

/// Folding keeps the value modulo 65535, keeps zero apart, and lands in 16 bits.
pub proof fn lemma_fold_mod(x: nat)
    ensures
        fold(x) % 65535 == x % 65535,
        fold(x) <= 65535,
        (fold(x) == 0) == (x == 0),
    decreases x,
{
    if x >= 65536 {
        let q = x / 65536;
        let r = x % 65536;
        assert(x == q * 65536 + r);
        assert((q * 65536 + r) % 65535 == (q + r) % 65535) by (nonlinear_arith)
            requires
                q >= 0,
                r >= 0,
        {
            assert(q * 65536 + r == (q + r) + q * 65535);
            vstd::arithmetic::div_mod::lemma_mod_multiples_vanish(q as int, (q + r) as int, 65535);
        }
        lemma_fold_mod((r + q) as nat);
    }
}

/// Adding the complement of the folded sum to the sum folds to all ones.
pub proof fn lemma_complement_completes(s: nat)
    ensures
        fold(s + complement_of_sum(s) as nat) == 0xFFFF,
{
    lemma_fold_mod(s);
    let c = 0xFFFF - fold(s);
    let t = (s + c) as nat;
    lemma_fold_mod(t);
    assert(t % 65535 == 0) by {
        vstd::arithmetic::div_mod::lemma_add_mod_noop(s as int, c as int, 65535);
        vstd::arithmetic::div_mod::lemma_add_mod_noop(fold(s) as int, c as int, 65535);
    }
    assert(fold(t) == 65535) by {
        assert(fold(t) != 0);
        if fold(t) < 65535 {
            assert(fold(t) % 65535 == fold(t));
        }
    }
}

} // verus!
