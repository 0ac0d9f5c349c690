//! Big-endian integers and one's-complement sums over byte sequences.
use vstd::prelude::*;

verus! {

/// `256` raised to `k`.
pub open spec fn pow256(k: nat) -> nat
    decreases k,
{
    if k == 0 {
        1
    } else {
        256 * pow256((k - 1) as nat)
    }
}

/// The unsigned integer that `s` encodes, most significant byte first.
pub open spec fn be_value(s: Seq<u8>) -> nat
    decreases s.len(),
{
    if s.len() == 0 {
        0
    } else {
        s[0] as nat * pow256((s.len() - 1) as nat) + be_value(s.drop_first())
    }
}

/// The big-endian 16-bit word at offset `o`.
pub open spec fn be16(s: Seq<u8>, o: int) -> nat {
    s[o] as nat * 256 + s[o + 1] as nat
}

pub proof fn lemma_pow256_pos(k: nat)
    ensures
        pow256(k) >= 1,
    decreases k,
{
    if k > 0 {
        lemma_pow256_pos((k - 1) as nat);
    }
}

/// Appending a byte shifts the value left by eight bits.
pub proof fn lemma_be_push(s: Seq<u8>, b: u8)
    ensures
        be_value(s.push(b)) == be_value(s) * 256 + b,
    decreases s.len(),
{
    if s.len() > 0 {
        let t = s.push(b);
        assert(t.drop_first() == s.drop_first().push(b));
        lemma_be_push(s.drop_first(), b);
        assert(pow256(s.len()) == 256 * pow256((s.len() - 1) as nat));
        assert(s[0] as nat * pow256(s.len()) == (s[0] as nat * pow256((s.len() - 1) as nat)) * 256)
            by (nonlinear_arith)
            requires
                pow256(s.len()) == 256 * pow256((s.len() - 1) as nat),
        ;
        assert(t[0] == s[0]);
        assert(be_value(t) == t[0] as nat * pow256(s.len()) + be_value(t.drop_first()));
    } else {
        assert(s.push(b).drop_first() =~= Seq::<u8>::empty());
        assert(pow256(0) == 1);
        assert(be_value(s.push(b).drop_first()) == 0);
        assert(be_value(s) == 0);
    }
}

pub proof fn lemma_be_bound(s: Seq<u8>)
    ensures
        be_value(s) < pow256(s.len()),
    decreases s.len(),
{
    if s.len() > 0 {
        let k = (s.len() - 1) as nat;
        lemma_be_bound(s.drop_first());
        assert(s[0] as nat * pow256(k) + be_value(s.drop_first()) < 256 * pow256(k))
            by (nonlinear_arith)
            requires
                s[0] < 256,
                be_value(s.drop_first()) < pow256(k),
        ;
    }
}

/// Reads the big-endian unsigned integer in `d[o .. o + n]`.
pub fn read_be(d: &[u8], o: usize, n: usize) -> (r: u128)
    requires
        n <= 16,
        o + n <= d@.len(),
    ensures
        r as nat == be_value(d@.subrange(o as int, o + n)),
{
    let len = d.len();
    let end: usize = o + n;
    let mut acc: u128 = 0;
    let mut i: usize = o;
    proof {
        assert(d@.subrange(o as int, o as int) =~= Seq::<u8>::empty());
    }
    while i < end
        invariant
            o <= i <= end,
            end == o + n,
            n <= 16,
            o + n <= d@.len(),
            acc as nat == be_value(d@.subrange(o as int, i as int)),
        decreases end - i,
    {
        proof {
            let s = d@.subrange(o as int, i as int);
            lemma_be_push(s, d@[i as int]);
            assert(d@.subrange(o as int, i + 1) =~= s.push(d@[i as int]));
            lemma_be_bound(s);
            lemma_pow_16(s.len());
            assert(acc * 256 + 255 < 0x1_0000_0000_0000_0000_0000_0000_0000_0000) by (nonlinear_arith)
                requires
                    acc < pow256(s.len()),
                    pow256(s.len()) * 256 <= 0x1_0000_0000_0000_0000_0000_0000_0000_0000,
            ;
        }
        acc = acc * 256 + d[i] as u128;
        i = i + 1;
    }
    acc
}

proof fn lemma_pow_16(k: nat)
    requires
        k < 16,
    ensures
        pow256(k) * 256 <= 0x1_0000_0000_0000_0000_0000_0000_0000_0000,
{
    reveal_with_fuel(pow256, 17);
    assert(pow256(16) == 0x1_0000_0000_0000_0000_0000_0000_0000_0000);
    lemma_pow_mono(k + 1, 16);
}

proof fn lemma_pow_mono(a: nat, b: nat)
    requires
        a <= b,
    ensures
        pow256(a) <= pow256(b),
    decreases b - a,
{
    if a < b {
        lemma_pow_mono(a, (b - 1) as nat);
        lemma_pow256_pos((b - 1) as nat);
    }
}

/// Writes `x` as `n` big-endian bytes.
pub fn write_be(x: u128, n: usize) -> (r: Vec<u8>)
    requires
        n <= 16,
        x < pow256(n as nat),
    ensures
        r@.len() == n,
        be_value(r@) == x,
{
    let mut r: Vec<u8> = Vec::new();
    let mut k: usize = 0;
    while k < n
        invariant
            k <= n,
            r@.len() == k,
        decreases n - k,
    {
        r.push(0);
        k = k + 1;
    }
    let mut v: u128 = x;
    let mut i: usize = n;
    proof {
        assert(r@.subrange(n as int, n as int) =~= Seq::<u8>::empty());
        assert(pow256(0) == 1);
        assert(be_value(r@.subrange(n as int, n as int)) == 0);
        assert(((n - i) as nat) == 0nat);
        assert(pow256((n - i) as nat) == 1);
        assert(v == x);
    }
    while i > 0
        invariant
            i <= n,
            r@.len() == n,
            x == v * pow256((n - i) as nat) + be_value(r@.subrange(i as int, n as int)),
            v < pow256(i as nat),
        decreases i,
    {
        let b: u8 = (v % 256) as u8;
        let ghost old_r = r@;
        let ghost old_v = v;
        r.set(i - 1, b);
        v = v / 256;
        proof {
            let t = r@.subrange(i - 1, n as int);
            assert(t.drop_first() =~= old_r.subrange(i as int, n as int));
            assert(be_value(t) == b as nat * pow256((n - i) as nat) + be_value(t.drop_first()));
            let p = pow256((n - i) as nat);
            assert(pow256((n - (i - 1)) as nat) == 256 * p);
            assert(old_v == v * 256 + b);
            assert(old_v * p == v * (256 * p) + b * p) by (nonlinear_arith)
                requires
                    old_v == v * 256 + b,
            ;
            assert(pow256(i as nat) == 256 * pow256((i - 1) as nat));
            assert(v < pow256((i - 1) as nat)) by (nonlinear_arith)
                requires
                    old_v < 256 * pow256((i - 1) as nat),
                    v == old_v / 256,
            ;
        }
        i = i - 1;
    }
    proof {
        assert(r@.subrange(0, n as int) =~= r@);
    }
    r
}

/// Appends `d[from .. to]` to `out`.
pub fn append_range(out: &mut Vec<u8>, d: &[u8], from: usize, to: usize)
    requires
        from <= to <= d@.len(),
    ensures
        final(out)@ == old(out)@ + d@.subrange(from as int, to as int),
{
    let mut i: usize = from;
    while i < to
        invariant
            from <= i <= to <= d@.len(),
            out@ == old(out)@ + d@.subrange(from as int, i as int),
        decreases to - i,
    {
        out.push(d[i]);
        i = i + 1;
        proof {
            assert(d@.subrange(from as int, i as int) =~= d@.subrange(from as int, i - 1).push(d@[i - 1]));
        }
    }
}

/// A copy of `d[from .. to]`.
pub fn copy_range(d: &[u8], from: usize, to: usize) -> (r: Vec<u8>)
    requires
        from <= to <= d@.len(),
    ensures
        r@ == d@.subrange(from as int, to as int),
{
    let mut r: Vec<u8> = Vec::new();
    append_range(&mut r, d, from, to);
    proof {
        assert(Seq::<u8>::empty() + d@.subrange(from as int, to as int) =~= d@.subrange(from as int, to as int));
    }
    r
}

} // verus!
