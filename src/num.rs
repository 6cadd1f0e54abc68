//! The value of a big-endian byte string and of a little-endian limb vector,
//! fixed-width encodings, and the facts about them that the codecs rely on.

use vstd::arithmetic::power::*;
use vstd::prelude::*;

verus! {

/// The natural number that a big-endian byte string denotes.
pub open spec fn be_value(s: Seq<u8>) -> nat
    decreases s.len(),
{
    if s.len() == 0 {
        0
    } else {
        be_value(s.drop_last()) * 256 + s.last() as nat
    }
}

/// The natural number that a little-endian vector of 64-bit limbs denotes.
pub open spec fn limbs_value(s: Seq<u64>) -> nat
    decreases s.len(),
{
    if s.len() == 0 {
        0
    } else {
        s[0] as nat + 0x1_0000_0000_0000_0000 * limbs_value(s.skip(1))
    }
}

/// The big-endian encoding of `v` in exactly `n` bytes (the high part of `v`
/// that does not fit is dropped).
pub open spec fn fixed_be(v: nat, n: nat) -> Seq<u8>
    decreases n,
{
    if n == 0 {
        Seq::empty()
    } else {
        fixed_be(v / 256, (n - 1) as nat).push((v % 256) as u8)
    }
}

/// The largest value plus one that `n` bytes can hold.
pub open spec fn width_bound(n: nat) -> nat {
    pow(256, n) as nat
}

pub proof fn lemma_width_bound_step(n: nat)
    requires
        n > 0,
    ensures
        width_bound(n) == 256 * width_bound((n - 1) as nat),
        width_bound((n - 1) as nat) > 0,
{
    lemma_pow_positive(256, (n - 1) as nat);
    reveal(pow);
}

/// A byte string of length `n` denotes a value below `256^n`.
pub proof fn lemma_be_value_bound(s: Seq<u8>)
    ensures
        be_value(s) < width_bound(s.len()),
    decreases s.len(),
{
    if s.len() == 0 {
        reveal(pow);
    } else {
        let d = s.drop_last();
        lemma_be_value_bound(d);
        lemma_width_bound_step(s.len());
        let a = be_value(d);
        let w = width_bound(d.len());
        assert(a * 256 + (s.last() as nat) < 256 * w) by (nonlinear_arith)
            requires
                a < w,
                s.last() < 256,
        ;
    }
}

/// Encoding a value that fits and reading it back gives the value.
pub proof fn lemma_fixed_be_value(v: nat, n: nat)
    requires
        v < width_bound(n),
    ensures
        fixed_be(v, n).len() == n,
        be_value(fixed_be(v, n)) == v,
    decreases n,
{
    if n == 0 {
        reveal(pow);
    } else {
        lemma_width_bound_step(n);
        let w = width_bound((n - 1) as nat);
        assert(v / 256 < w) by (nonlinear_arith)
            requires
                v < 256 * w,
        ;
        lemma_fixed_be_value(v / 256, (n - 1) as nat);
        let f = fixed_be(v / 256, (n - 1) as nat);
        assert(f.push((v % 256) as u8).drop_last() =~= f);
        assert((v / 256) * 256 + v % 256 == v) by (nonlinear_arith);
    }
}

/// Reading a byte string and encoding its value at the same width gives the
/// byte string back.
pub proof fn lemma_be_value_fixed(s: Seq<u8>)
    ensures
        fixed_be(be_value(s), s.len()) == s,
    decreases s.len(),
{
    if s.len() > 0 {
        let d = s.drop_last();
        lemma_be_value_fixed(d);
        let a = be_value(d);
        let l = s.last() as nat;
        assert((a * 256 + l) / 256 == a && (a * 256 + l) % 256 == l) by (nonlinear_arith)
            requires
                l < 256,
        ;
        assert(d.push(s.last()) =~= s);
    } else {
        assert(s =~= Seq::<u8>::empty());
    }
}

/// The value of a concatenation.
pub proof fn lemma_be_value_append(a: Seq<u8>, b: Seq<u8>)
    ensures
        be_value(a + b) == be_value(a) * width_bound(b.len()) + be_value(b),
    decreases b.len(),
{
    if b.len() == 0 {
        lemma_pow0(256);
        assert(a + b =~= a);
        assert(be_value(b) == 0);
        assert(be_value(a) * 1 == be_value(a));
    } else {
        let b1 = b.drop_last();
        lemma_be_value_append(a, b1);
        assert((a + b).drop_last() =~= a + b1);
        assert((a + b).last() == b.last());
        lemma_width_bound_step(b.len());
        let x = be_value(a);
        let w = width_bound(b1.len());
        let y = be_value(b1);
        assert(be_value(a + b) == be_value(a + b1) * 256 + (b.last() as nat));
        assert(be_value(b) == y * 256 + (b.last() as nat));
        assert((x * w + y) * 256 + (b.last() as nat) == x * (256 * w) + (y * 256 + (
        b.last() as nat))) by (nonlinear_arith);
    }
}

/// A byte string denotes zero exactly when all of its bytes are zero.
pub proof fn lemma_be_value_zero(s: Seq<u8>)
    ensures
        (be_value(s) == 0) <==> (forall|i: int| 0 <= i < s.len() ==> s[i] == 0),
    decreases s.len(),
{
    if s.len() > 0 {
        let d = s.drop_last();
        lemma_be_value_zero(d);
        if be_value(s) == 0 {
            assert forall|i: int| 0 <= i < s.len() implies s[i] == 0 by {
                if i < s.len() - 1 {
                    assert(d[i] == s[i]);
                }
            }
        }
        if forall|i: int| 0 <= i < s.len() ==> s[i] == 0 {
            assert forall|i: int| 0 <= i < d.len() implies d[i] == 0 by {
                assert(d[i] == s[i]);
            }
        }
    }
}

/// Appending a zero limb at the top leaves the value unchanged.
pub proof fn lemma_limbs_push_zero(s: Seq<u64>)
    ensures
        limbs_value(s.push(0)) == limbs_value(s),
    decreases s.len(),
{
    if s.len() == 0 {
        assert(s.push(0).skip(1) =~= Seq::<u64>::empty());
        assert(limbs_value(Seq::<u64>::empty()) == 0);
        assert(s.push(0)[0] == 0);
    } else {
        assert(s.push(0)[0] == s[0]);
        lemma_limbs_push_zero(s.skip(1));
        assert(s.push(0).skip(1) =~= s.skip(1).push(0));
    }
}

} // verus!

verus! {

/// The encoding of the value of `b` in exactly `n` bytes, or `None` when the
/// value needs more than `n` bytes.
pub fn fit_to_width(b: &[u8], n: usize) -> (r: Option<Vec<u8>>)
    ensures
        r.is_some() <==> be_value(b@) < width_bound(n as nat),
        r.is_some() ==> r.unwrap()@ == fixed_be(be_value(b@), n as nat),
        r.is_some() ==> r.unwrap()@.len() == n,
{
    let m = b.len();
    let mut out: Vec<u8> = Vec::new();
    if m <= n {
        let pad = n - m;
        let mut i: usize = 0;
        while i < pad
            invariant
                i <= pad,
                out@.len() == i,
                forall|j: int| 0 <= j < i ==> out@[j] == 0,
            decreases pad - i,
        {
            out.push(0u8);
            i = i + 1;
        }
        let ghost zeros = out@;
        let mut j: usize = 0;
        while j < m
            invariant
                j <= m,
                m == b@.len(),
                out@ == zeros + b@.subrange(0, j as int),
            decreases m - j,
        {
            out.push(b[j]);
            j = j + 1;
        }
        proof {
            assert(b@.subrange(0, m as int) =~= b@);
            lemma_be_value_zero(zeros);
            lemma_be_value_append(zeros, b@);
            lemma_be_value_bound(out@);
            lemma_be_value_fixed(out@);
        }
        Some(out)
    } else {
        let k = m - n;
        let mut all_zero = true;
        let mut i: usize = 0;
        while i < k
            invariant
                i <= k,
                k <= b@.len(),
                all_zero <==> (forall|j: int| 0 <= j < i ==> b@[j] == 0),
            decreases k - i,
        {
            if b[i] != 0 {
                all_zero = false;
            }
            i = i + 1;
        }
        let ghost hi = b@.subrange(0, k as int);
        let ghost lo = b@.subrange(k as int, m as int);
        proof {
            assert(hi + lo =~= b@);
            lemma_be_value_append(hi, lo);
            lemma_be_value_zero(hi);
            lemma_be_value_bound(lo);
            assert(forall|j: int| 0 <= j < k ==> hi[j] == b@[j]);
        }
        if !all_zero {
            proof {
                let x = be_value(hi);
                let w = width_bound(n as nat);
                assert(x * w + be_value(lo) >= w) by (nonlinear_arith)
                    requires
                        x >= 1,
                ;
            }
            return None;
        }
        let mut j: usize = k;
        while j < m
            invariant
                k <= j <= m,
                m == b@.len(),
                out@ == b@.subrange(k as int, j as int),
            decreases m - j,
        {
            out.push(b[j]);
            j = j + 1;
        }
        proof {
            assert(be_value(hi) == 0);
            lemma_be_value_fixed(out@);
        }
        Some(out)
    }
}

/// The value of a one-byte string is its byte.
pub proof fn lemma_be_value_byte(b: u8)
    ensures
        be_value(seq![b]) == b as nat,
{
    let s = seq![b];
    assert(s.drop_last() =~= Seq::<u8>::empty());
    assert(be_value(s.drop_last()) == 0);
    assert(s.last() == b);
}

} // verus!
