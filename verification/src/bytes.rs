//! Byte-string arithmetic: the unsigned value a byte string denotes in
//! big-endian or little-endian order, byte reversal, and ordering of
//! big-endian strings by a byte-wise comparison.

use vstd::arithmetic::mul::{lemma_mul_inequality, lemma_mul_is_distributive_add};
use vstd::prelude::*;

verus! {

/// 256 raised to the power `n`: the place value of the byte at distance `n`
/// from the low end of a byte string.
pub open spec fn pow256(n: nat) -> nat
    decreases n,
{
    if n == 0 {
        1
    } else {
        256 * pow256((n - 1) as nat)
    }
}

/// The unsigned integer that a byte string denotes in little-endian order
/// (the first byte is the least significant).
pub open spec fn le_nat(s: Seq<u8>) -> nat
    decreases s.len(),
{
    if s.len() == 0 {
        0
    } else {
        (s[0] + 256 * le_nat(s.drop_first())) as nat
    }
}

/// The unsigned integer that a byte string denotes in big-endian order
/// (the last byte is the least significant).
pub open spec fn be_nat(s: Seq<u8>) -> nat
    decreases s.len(),
{
    if s.len() == 0 {
        0
    } else {
        (be_nat(s.drop_last()) * 256 + s.last()) as nat
    }
}

/// The `n`-byte all-zero string.
pub open spec fn zero_bytes(n: nat) -> Seq<u8> {
    Seq::new(n, |i: int| 0u8)
}

/// Every byte of `s` is zero.
pub open spec fn all_zero(s: Seq<u8>) -> bool {
    forall|i: int| 0 <= i < s.len() ==> s[i] == 0
}

/// The 32-byte little-endian encoding of `v`.
pub open spec fn le32_of_nat(v: nat) -> Seq<u8> {
    Seq::new(32, |i: int| ((v / pow256(i as nat)) % 256) as u8)
}

/// A byte string denotes, in big-endian order, less than the place value
/// just past its high end.
pub proof fn lemma_be_nat_bound(s: Seq<u8>)
    ensures
        be_nat(s) < pow256(s.len()),
    decreases s.len(),
{
    if s.len() > 0 {
        lemma_be_nat_bound(s.drop_last());
        assert(be_nat(s.drop_last()) * 256 <= (pow256((s.len() - 1) as nat) - 1) * 256) by {
            lemma_mul_inequality(be_nat(s.drop_last()) as int, pow256((s.len() - 1) as nat) - 1, 256);
        }
        assert((pow256((s.len() - 1) as nat) - 1) * 256 == pow256(s.len()) - 256) by {
            lemma_mul_is_distributive_add(256, pow256((s.len() - 1) as nat) as int, -1);
        }
    }
}

/// Prepending one byte to a big-endian string adds its place value.
pub proof fn lemma_be_nat_cons(x: u8, t: Seq<u8>)
    ensures
        be_nat(seq![x] + t) == x * pow256(t.len()) + be_nat(t),
    decreases t.len(),
{
    let u = seq![x] + t;
    assert(pow256(0) == 1);
    assert(be_nat(Seq::<u8>::empty()) == 0);
    if t.len() == 0 {
        assert(u.drop_last() =~= Seq::<u8>::empty());
        assert(u.last() == x);
        assert(be_nat(u) == be_nat(u.drop_last()) * 256 + u.last());
        assert(t =~= Seq::<u8>::empty());
    } else {
        assert(u.last() == t.last());
        assert(u.drop_last() =~= seq![x] + t.drop_last());
        lemma_be_nat_cons(x, t.drop_last());
        let p1 = pow256((t.len() - 1) as nat) as int;
        let p = pow256(t.len()) as int;
        assert(p == 256 * p1);
        let a = x as int;
        let b = be_nat(t.drop_last()) as int;
        let c = t.last() as int;
        assert(be_nat(u) == (a * p1 + b) * 256 + c);
        assert((a * p1 + b) * 256 + c == a * p + (b * 256 + c)) by (nonlinear_arith)
            requires
                p == 256 * p1,
        ;
        assert(be_nat(t) == b * 256 + c);
    }
}

/// Reversing a byte string swaps its big-endian and little-endian readings.
pub proof fn lemma_be_nat_reverse(s: Seq<u8>)
    ensures
        le_nat(s.reverse()) == be_nat(s),
    decreases s.len(),
{
    if s.len() > 0 {
        assert(s.reverse().drop_first() =~= s.drop_last().reverse());
        lemma_be_nat_reverse(s.drop_last());
        assert(s.reverse()[0] == s.last());
        assert(le_nat(s.reverse()) == s.last() + 256 * be_nat(s.drop_last()));
    }
}

/// A big-endian string splits at any point into a high part, shifted by the
/// low part's width, plus the low part.
pub proof fn lemma_be_nat_split(s: Seq<u8>, i: int)
    requires
        0 <= i <= s.len(),
    ensures
        be_nat(s) == be_nat(s.take(i)) * pow256((s.len() - i) as nat) + be_nat(s.skip(i)),
    decreases s.len() - i,
{
    assert(pow256(0) == 1);
    assert(be_nat(Seq::<u8>::empty()) == 0);
    if i == s.len() {
        assert(s.take(i) =~= s);
        assert(s.skip(i) =~= Seq::<u8>::empty());
        assert((s.len() - i) as nat == 0);
        assert(pow256((s.len() - i) as nat) == 1);
        assert(be_nat(s.take(i)) == be_nat(s));
        assert(be_nat(s.skip(i)) == 0);
        assert(be_nat(s) == be_nat(s.take(i)) * pow256((s.len() - i) as nat) + be_nat(s.skip(i)));
    } else {
        lemma_be_nat_split(s, i + 1);
        assert(s.take(i + 1).drop_last() =~= s.take(i));
        assert(s.take(i + 1).last() == s[i]);
        let a = be_nat(s.take(i)) as int;
        let c = s[i] as int;
        let p = pow256((s.len() - i - 1) as nat) as int;
        let q = pow256((s.len() - i) as nat) as int;
        let r = be_nat(s.skip(i + 1)) as int;
        assert(be_nat(s.take(i + 1)) == a * 256 + c);
        assert(s.skip(i) =~= seq![s[i]] + s.skip(i + 1));
        lemma_be_nat_cons(s[i], s.skip(i + 1));
        assert(be_nat(s.skip(i)) == c * p + r);
        assert(q == 256 * p);
        assert(be_nat(s) == (a * 256 + c) * p + r);
        assert((a * 256 + c) * p + r == a * q + (c * p + r)) by (nonlinear_arith)
            requires
                q == 256 * p,
        ;
        assert(be_nat(s) == be_nat(s.take(i)) * pow256((s.len() - i) as nat) + be_nat(s.skip(i)));
    }
}

/// Two equally long big-endian strings that agree up to a position where the
/// first holds the smaller byte are ordered by that byte.
pub proof fn lemma_be_nat_lt(s1: Seq<u8>, s2: Seq<u8>, i: int)
    requires
        s1.len() == s2.len(),
        0 <= i < s1.len(),
        s1.take(i) == s2.take(i),
        s1[i] < s2[i],
    ensures
        be_nat(s1) < be_nat(s2),
{
    lemma_be_nat_split(s1, i + 1);
    lemma_be_nat_split(s2, i + 1);
    assert(s1.take(i + 1).drop_last() =~= s1.take(i));
    assert(s2.take(i + 1).drop_last() =~= s2.take(i));
    let t = be_nat(s1.take(i)) as int;
    let a = be_nat(s1.take(i + 1)) as int;
    let b = be_nat(s2.take(i + 1)) as int;
    assert(a == t * 256 + s1[i]);
    assert(b == t * 256 + s2[i]);
    let p = pow256((s1.len() - i - 1) as nat) as int;
    lemma_be_nat_bound(s1.skip(i + 1));
    assert(s1.skip(i + 1).len() == s1.len() - i - 1);
    assert(pow256(0) == 1);
    assert(p >= 1) by {
        lemma_pow256_positive((s1.len() - i - 1) as nat);
    }
    assert(be_nat(s1) < (a + 1) * p) by (nonlinear_arith)
        requires
            be_nat(s1) == a * p + be_nat(s1.skip(i + 1)),
            be_nat(s1.skip(i + 1)) < p,
            a >= 0,
            p >= 1,
    ;
    assert((a + 1) * p <= b * p) by (nonlinear_arith)
        requires
            a + 1 <= b,
            p >= 1,
    ;
    assert(b * p <= be_nat(s2)) by (nonlinear_arith)
        requires
            be_nat(s2) == b * p + be_nat(s2.skip(i + 1)),
            be_nat(s2.skip(i + 1)) >= 0,
    ;
}

/// Every power of 256 is positive.
pub proof fn lemma_pow256_positive(n: nat)
    ensures
        pow256(n) >= 1,
    decreases n,
{
    if n > 0 {
        lemma_pow256_positive((n - 1) as nat);
    }
}

/// Reversing a byte string twice yields the original string.
pub proof fn lemma_reverse_involutive(s: Seq<u8>)
    ensures
        s.reverse().reverse() == s,
{
    assert(s.reverse().reverse() =~= s);
}

/// The reversal of a byte string, first byte last.
pub fn reverse_bytes(v: &Vec<u8>) -> (r: Vec<u8>)
    ensures
        r@ == v@.reverse(),
{
    let n = v.len();
    let mut r: Vec<u8> = Vec::new();
    let mut i: usize = 0;
    while i < n
        invariant
            i <= n,
            n == v@.len(),
            r@.len() == i,
            forall|j: int| 0 <= j < i ==> r@[j] == v@[n - 1 - j],
        decreases n - i,
    {
        r.push(v[n - 1 - i]);
        i = i + 1;
    }
    assert(r@ =~= v@.reverse());
    r
}

/// Whether `a` denotes a smaller big-endian value than the equally long `b`,
/// decided at the highest byte where they differ.
pub fn lt_be(a: &Vec<u8>, b: &Vec<u8>) -> (r: bool)
    requires
        a@.len() == b@.len(),
    ensures
        r == (be_nat(a@) < be_nat(b@)),
{
    let n = a.len();
    let mut i: usize = 0;
    while i < n
        invariant
            i <= n,
            n == a@.len() == b@.len(),
            a@.take(i as int) == b@.take(i as int),
        decreases n - i,
    {
        if a[i] < b[i] {
            proof {
                lemma_be_nat_lt(a@, b@, i as int);
            }
            return true;
        }
        if a[i] > b[i] {
            proof {
                lemma_be_nat_lt(b@, a@, i as int);
            }
            return false;
        }
        proof {
            assert(a@.take(i + 1) =~= b@.take(i + 1));
        }
        i = i + 1;
    }
    proof {
        assert(a@ =~= a@.take(n as int));
        assert(b@ =~= b@.take(n as int));
    }
    false
}

/// Whether every byte of `v` is zero.
pub fn is_all_zero(v: &Vec<u8>) -> (r: bool)
    ensures
        r == all_zero(v@),
{
    let n = v.len();
    let mut i: usize = 0;
    while i < n
        invariant
            i <= n,
            n == v@.len(),
            forall|j: int| 0 <= j < i ==> v@[j] == 0,
        decreases n - i,
    {
        if v[i] != 0 {
            return false;
        }
        i = i + 1;
    }
    true
}

/// Appends all of `src` to `dst`.
pub fn push_all(dst: &mut Vec<u8>, src: &Vec<u8>)
    ensures
        final(dst)@ == old(dst)@ + src@,
{
    let n = src.len();
    let mut i: usize = 0;
    while i < n
        invariant
            i <= n,
            n == src@.len(),
            dst@ == old(dst)@ + src@.take(i as int),
        decreases n - i,
    {
        dst.push(src[i]);
        assert(dst@ =~= old(dst)@ + src@.take(i + 1));
        i = i + 1;
    }
    assert(dst@ =~= old(dst)@ + src@);
}

/// Appends `n` zero bytes to `dst`.
pub fn push_zeros(dst: &mut Vec<u8>, n: usize)
    ensures
        final(dst)@ == old(dst)@ + zero_bytes(n as nat),
{
    let mut i: usize = 0;
    while i < n
        invariant
            i <= n,
            dst@ == old(dst)@ + zero_bytes(i as nat),
        decreases n - i,
    {
        dst.push(0);
        assert(dst@ =~= old(dst)@ + zero_bytes((i + 1) as nat));
        i = i + 1;
    }
}

/// The 32-byte word of `input` at word index `i`.
pub fn word_at(input: &Vec<u8>, i: usize) -> (w: Vec<u8>)
    requires
        32 * (i as int) + 32 <= input@.len(),
    ensures
        w@ == input@.subrange(32 * (i as int), 32 * (i as int) + 32),
{
    let n = input.len();
    let mut w: Vec<u8> = Vec::new();
    let mut j: usize = 0;
    while j < 32
        invariant
            j <= 32,
            n == input@.len(),
            32 * (i as int) + 32 <= n,
            w@ =~= input@.subrange(32 * (i as int), 32 * (i as int) + j as int),
        decreases 32 - j,
    {
        w.push(input[32 * i + j]);
        assert(w@ =~= input@.subrange(32 * (i as int), 32 * (i as int) + j + 1));
        j = j + 1;
    }
    w
}

} // verus!
