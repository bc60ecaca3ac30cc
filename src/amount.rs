//! Arbitrary-precision non-negative integers, stored as little-endian
//! 32-bit limbs.

use vstd::prelude::*;

verus! {

/// The radix of one limb.
pub open spec fn radix() -> nat {
    0x1_0000_0000
}

/// The weight of the limb at position `i`, that is `radix()` to the power `i`.
pub open spec fn weight(i: nat) -> nat
    decreases i,
{
    if i == 0 {
        1
    } else {
        radix() * weight((i - 1) as nat)
    }
}

/// Limb `i` of `s`, reading zero past its end.
pub open spec fn limb_at(s: Seq<u32>, i: nat) -> nat {
    if i < s.len() {
        s[i as int] as nat
    } else {
        0
    }
}

/// The number that the lowest `n` limbs of `s` stand for.
pub open spec fn value_upto(s: Seq<u32>, n: nat) -> nat
    decreases n,
{
    if n == 0 {
        0
    } else {
        value_upto(s, (n - 1) as nat) + limb_at(s, (n - 1) as nat) * weight((n - 1) as nat)
    }
}

/// The number that the limbs `s` stand for.
pub open spec fn limbs_value(s: Seq<u32>) -> nat {
    value_upto(s, s.len())
}

proof fn lemma_weight_grows(i: nat, j: nat)
    requires
        i <= j,
    ensures
        1 <= weight(i) <= weight(j),
    decreases j,
{
    if j > 0 {
        if i < j {
            lemma_weight_grows(i, (j - 1) as nat);
        } else {
            lemma_weight_grows(0, (j - 1) as nat);
        }
        assert(weight(j) == radix() * weight((j - 1) as nat));
    }
}

/// Limbs that read zero add nothing.
proof fn lemma_zero_limbs(s: Seq<u32>, n: nat, m: nat)
    requires
        n <= m,
        forall|k: nat| n <= k < m ==> limb_at(s, k) == 0,
    ensures
        value_upto(s, m) == value_upto(s, n),
    decreases m,
{
    if m > n {
        lemma_zero_limbs(s, n, (m - 1) as nat);
        assert(limb_at(s, (m - 1) as nat) == 0);
    }
}

proof fn lemma_past_end(s: Seq<u32>, m: nat)
    requires
        s.len() <= m,
    ensures
        value_upto(s, m) == limbs_value(s),
{
    lemma_zero_limbs(s, s.len(), m);
}

proof fn lemma_push_keeps_prefix(s: Seq<u32>, x: u32, n: nat)
    requires
        n <= s.len(),
    ensures
        value_upto(s.push(x), n) == value_upto(s, n),
    decreases n,
{
    if n > 0 {
        lemma_push_keeps_prefix(s, x, (n - 1) as nat);
        assert(limb_at(s.push(x), (n - 1) as nat) == limb_at(s, (n - 1) as nat));
    }
}

proof fn lemma_push(s: Seq<u32>, x: u32)
    ensures
        limbs_value(s.push(x)) == limbs_value(s) + x * weight(s.len()),
{
    lemma_push_keeps_prefix(s, x, s.len());
    assert(limb_at(s.push(x), s.len()) == x);
}

proof fn lemma_limb_bounded_by_value(s: Seq<u32>, n: nat, j: nat)
    requires
        j < n,
    ensures
        limb_at(s, j) * weight(j) <= value_upto(s, n),
    decreases n,
{
    if j < n - 1 {
        lemma_limb_bounded_by_value(s, (n - 1) as nat, j);
    }
}

/// The number that the big-endian bytes `b` stand for.
pub open spec fn be_value(b: Seq<u8>) -> nat
    decreases b.len(),
{
    if b.len() == 0 {
        0
    } else {
        be_value(b.drop_last()) * 256 + b.last() as nat
    }
}

proof fn lemma_drop_lowest_upto(t: Seq<u32>, m: nat)
    requires
        1 <= m <= t.len(),
    ensures
        value_upto(t, m) == t[0] as nat + radix() * value_upto(t.drop_first(), (m - 1) as nat),
    decreases m,
{
    let d = t.drop_first();
    assert(weight(0) == 1);
    if m == 1 {
        assert(value_upto(t, 0) == 0);
        assert(value_upto(d, 0) == 0);
        assert(limb_at(t, 0) == t[0]);
    } else {
        lemma_drop_lowest_upto(t, (m - 1) as nat);
        let j = (m - 2) as nat;
        let l = limb_at(d, j);
        let w = weight(j);
        assert(limb_at(t, (m - 1) as nat) == l);
        assert(weight((m - 1) as nat) == radix() * w);
        assert(l * (radix() * w) == radix() * (l * w)) by (nonlinear_arith);
        assert(radix() * value_upto(d, j) + radix() * (l * w) == radix() * (value_upto(d, j) + l * w))
            by (nonlinear_arith);
    }
}

proof fn lemma_drop_lowest(t: Seq<u32>)
    requires
        t.len() >= 1,
    ensures
        limbs_value(t) == t[0] as nat + radix() * limbs_value(t.drop_first()),
{
    lemma_drop_lowest_upto(t, t.len());
}

/// A non-negative integer of any size.
pub struct Amount {
    limbs: Vec<u32>,
}

impl View for Amount {
    type V = nat;

    closed spec fn view(&self) -> nat {
        limbs_value(self.limbs@)
    }
}

impl Amount {
    /// The amount zero.
    pub fn zero() -> (r: Amount)
        ensures
            r@ == 0,
    {
        Amount { limbs: Vec::new() }
    }

    /// The amount `v`.
    pub fn from_u64(v: u64) -> (r: Amount)
        ensures
            r@ == v as nat,
    {
        let low: u32 = (v % 0x1_0000_0000) as u32;
        let high: u32 = (v / 0x1_0000_0000) as u32;
        let mut limbs: Vec<u32> = Vec::new();
        limbs.push(low);
        limbs.push(high);
        proof {
            assert(weight(1) == radix() * weight(0));
            assert(weight(0) == 1);
            assert(limb_at(limbs@, 0) == low);
            assert(value_upto(limbs@, 0) == 0);
            assert(value_upto(limbs@, 1) == value_upto(limbs@, 0) + limb_at(limbs@, 0) * weight(0));
            assert(limb_at(limbs@, 1) == high);
            assert(value_upto(limbs@, 2) == low + high * radix());
        }
        Amount { limbs }
    }

    /// The amount that the little-endian 32-bit limbs `limbs` stand for.
    pub fn from_limbs(limbs: Vec<u32>) -> (r: Amount)
        ensures
            r@ == limbs_value(limbs@),
    {
        Amount { limbs }
    }

    /// The amount that the big-endian bytes `bytes` stand for; leading zero
    /// bytes change nothing.
    pub fn from_bytes_be(bytes: &Vec<u8>) -> (r: Amount)
        ensures
            r@ == be_value(bytes@),
    {
        let mut acc = Amount::zero();
        let mut i: usize = 0;
        while i < bytes.len()
            invariant
                i <= bytes@.len(),
                acc@ == be_value(bytes@.subrange(0, i as int)),
            decreases bytes@.len() - i,
        {
            proof {
                let next = bytes@.subrange(0, i + 1);
                assert(next.drop_last() =~= bytes@.subrange(0, i as int));
                assert(next.last() == bytes@[i as int]);
            }
            acc = acc.mul_add_small(256, bytes[i] as u32);
            i += 1;
        }
        assert(bytes@.subrange(0, bytes@.len() as int) =~= bytes@);
        acc
    }

    /// The big-endian bytes of this amount, four for each limb.
    pub fn to_bytes_be(&self) -> (r: Vec<u8>)
        ensures
            be_value(r@) == self@,
    {
        let a = &self.limbs;
        let n: usize = a.len();
        let mut out: Vec<u8> = Vec::new();
        let mut k: usize = n;
        assert(a@.subrange(n as int, n as int).len() == 0);
        while k > 0
            invariant
                n == a@.len(),
                k <= n,
                be_value(out@) == limbs_value(a@.subrange(k as int, n as int)),
            decreases k,
        {
            k -= 1;
            let x: u32 = a[k];
            let q1: u32 = x / 256;
            let q2: u32 = q1 / 256;
            let b0: u8 = (q2 / 256) as u8;
            let b1: u8 = (q2 % 256) as u8;
            let b2: u8 = (q1 % 256) as u8;
            let b3: u8 = (x % 256) as u8;
            let ghost v = be_value(out@);
            let ghost o0 = out@;
            out.push(b0);
            let ghost o1 = out@;
            out.push(b1);
            let ghost o2 = out@;
            out.push(b2);
            let ghost o3 = out@;
            out.push(b3);
            proof {
                assert(o1.drop_last() =~= o0);
                assert(o2.drop_last() =~= o1);
                assert(o3.drop_last() =~= o2);
                assert(out@.drop_last() =~= o3);
                assert(be_value(o1) == v * 256 + b0);
                assert(be_value(o2) == be_value(o1) * 256 + b1);
                assert(be_value(o3) == be_value(o2) * 256 + b2);
                assert(be_value(out@) == be_value(o3) * 256 + b3);
                assert(x == ((b0 * 256 + b1) * 256 + b2) * 256 + b3);
                assert(be_value(out@) == (((v * 256 + b0) * 256 + b1) * 256 + b2) * 256 + b3);
                assert((((v * 256 + b0) * 256 + b1) * 256 + b2) * 256 + b3 == x + radix() * v)
                    by (nonlinear_arith)
                    requires
                        x == ((b0 * 256 + b1) * 256 + b2) * 256 + b3,
                ;
                let t = a@.subrange(k as int, n as int);
                lemma_drop_lowest(t);
                assert(t.drop_first() =~= a@.subrange(k + 1, n as int));
            }
        }
        assert(a@.subrange(0, n as int) =~= a@);
        out
    }

    /// `self * m + c`.
    pub fn mul_add_small(&self, m: u32, c: u32) -> (r: Amount)
        ensures
            r@ == self@ * m + c,
    {
        let a = &self.limbs;
        let n: usize = a.len();
        let mut out: Vec<u32> = Vec::new();
        let mut carry: u64 = c as u64;
        let mut i: usize = 0;
        assert(weight(0) == 1 && value_upto(a@, 0) == 0 && limbs_value(out@) == 0);
        while i < n
            invariant
                n == a@.len(),
                i <= n,
                out@.len() == i,
                carry <= u32::MAX,
                limbs_value(out@) + carry * weight(i as nat) == value_upto(a@, i as nat) * m + c,
            decreases n - i,
        {
            let x: u64 = a[i] as u64;
            proof {
                assert(x * m <= u32::MAX * u32::MAX) by (nonlinear_arith)
                    requires
                        x <= u32::MAX,
                        m <= u32::MAX,
                ;
            }
            let sum: u64 = x * (m as u64) + carry;
            let low: u32 = (sum % 0x1_0000_0000) as u32;
            let high: u64 = sum / 0x1_0000_0000;
            proof {
                let w = weight(i as nat);
                let v = value_upto(a@, i as nat);
                lemma_push(out@, low);
                assert(weight((i + 1) as nat) == radix() * w);
                assert(x == limb_at(a@, i as nat));
                assert(value_upto(a@, (i + 1) as nat) == v + x * w);
                assert(sum == low + high * radix());
                assert(low * w + high * (radix() * w) == (v + x * w) * m - v * m + carry * w)
                    by (nonlinear_arith)
                    requires
                        sum == low + high * radix(),
                        sum == x * m + carry,
                ;
            }
            out.push(low);
            carry = high;
            i += 1;
        }
        if carry > 0 {
            proof {
                lemma_push(out@, carry as u32);
            }
            out.push(carry as u32);
        }
        Amount { limbs: out }
    }

    /// A copy of this amount.
    pub fn duplicate(&self) -> (r: Amount)
        ensures
            r@ == self@,
    {
        let mut limbs: Vec<u32> = Vec::new();
        let mut i: usize = 0;
        while i < self.limbs.len()
            invariant
                i <= self.limbs@.len(),
                limbs@ == self.limbs@.subrange(0, i as int),
            decreases self.limbs@.len() - i,
        {
            limbs.push(self.limbs[i]);
            i += 1;
            assert(limbs@ =~= self.limbs@.subrange(0, i as int));
        }
        assert(limbs@ =~= self.limbs@);
        Amount { limbs }
    }

    /// Whether this amount is zero.
    pub fn is_zero(&self) -> (r: bool)
        ensures
            r == (self@ == 0),
    {
        let s = Ghost(self.limbs@);
        let mut i: usize = 0;
        while i < self.limbs.len()
            invariant
                s@ == self.limbs@,
                i <= s@.len(),
                forall|k: nat| k < i ==> limb_at(s@, k) == 0,
            decreases s@.len() - i,
        {
            if self.limbs[i] != 0 {
                proof {
                    lemma_limb_bounded_by_value(s@, s@.len(), i as nat);
                    lemma_weight_grows(0, i as nat);
                    assert(limb_at(s@, i as nat) * weight(i as nat) >= 1) by (nonlinear_arith)
                        requires
                            limb_at(s@, i as nat) >= 1,
                            weight(i as nat) >= 1,
                    ;
                }
                return false;
            }
            i += 1;
        }
        proof {
            lemma_zero_limbs(s@, 0, s@.len());
        }
        true
    }

    /// This amount as a `u64`, where it fits in one.
    pub fn to_u64(&self) -> (r: Option<u64>)
        ensures
            r matches Some(v) ==> v as nat == self@,
            r is None ==> self@ > u64::MAX,
    {
        let s = Ghost(self.limbs@);
        let mut i: usize = 2;
        while i < self.limbs.len()
            invariant
                s@ == self.limbs@,
                2 <= i,
                forall|k: nat| 2 <= k < i ==> limb_at(s@, k) == 0,
            decreases s@.len() - i,
        {
            if self.limbs[i] != 0 {
                proof {
                    lemma_limb_bounded_by_value(s@, s@.len(), i as nat);
                    lemma_weight_grows(2, i as nat);
                    assert(weight(1) == radix() * weight(0));
                    assert(weight(2) == radix() * weight(1));
                    assert(limb_at(s@, i as nat) * weight(i as nat) >= weight(2)) by (nonlinear_arith)
                        requires
                            limb_at(s@, i as nat) >= 1,
                            weight(i as nat) >= weight(2),
                    ;
                }
                return None;
            }
            i += 1;
        }
        let low: u64 = if self.limbs.len() > 0 { self.limbs[0] as u64 } else { 0 };
        let high: u64 = if self.limbs.len() > 1 { self.limbs[1] as u64 } else { 0 };
        proof {
            lemma_zero_limbs(s@, 2, if s@.len() > 2 { s@.len() } else { 2 });
            lemma_past_end(s@, if s@.len() > 2 { s@.len() } else { 2 });
            assert(weight(1) == radix() * weight(0));
            assert(weight(0) == 1);
            assert(limb_at(s@, 0) == low);
            assert(limb_at(s@, 1) == high);
            assert(value_upto(s@, 0) == 0);
            assert(value_upto(s@, 1) == low as nat);
            assert(value_upto(s@, 2) == low + high * radix());
        }
        Some(low + high * 0x1_0000_0000)
    }

    /// The sum of two amounts; it never overflows.
    pub fn add(&self, other: &Amount) -> (r: Amount)
        ensures
            r@ == self@ + other@,
    {
        let a = &self.limbs;
        let b = &other.limbs;
        let n: usize = if a.len() >= b.len() { a.len() } else { b.len() };
        let mut out: Vec<u32> = Vec::new();
        let mut carry: u64 = 0;
        let mut i: usize = 0;
        while i < n
            invariant
                n == a@.len() || n == b@.len(),
                a@.len() <= n,
                b@.len() <= n,
                i <= n,
                out@.len() == i,
                carry <= 1,
                limbs_value(out@) + carry * weight(i as nat) == value_upto(a@, i as nat)
                    + value_upto(b@, i as nat),
            decreases n - i,
        {
            let x: u64 = if i < a.len() { a[i] as u64 } else { 0 };
            let y: u64 = if i < b.len() { b[i] as u64 } else { 0 };
            let sum: u64 = x + y + carry;
            let low: u32 = (sum % 0x1_0000_0000) as u32;
            let high: u64 = sum / 0x1_0000_0000;
            proof {
                let w = weight(i as nat);
                lemma_push(out@, low);
                assert(weight((i + 1) as nat) == radix() * w);
                assert(x == limb_at(a@, i as nat));
                assert(y == limb_at(b@, i as nat));
                assert(sum == low + high * radix());
                assert(low * w + high * (radix() * w) == x * w + y * w + carry * w)
                    by (nonlinear_arith)
                    requires
                        sum == low + high * radix(),
                        sum == x + y + carry,
                ;
            }
            out.push(low);
            carry = high;
            i += 1;
        }
        if carry > 0 {
            proof {
                lemma_push(out@, carry as u32);
            }
            out.push(carry as u32);
        }
        proof {
            lemma_past_end(a@, n as nat);
            lemma_past_end(b@, n as nat);
        }
        Amount { limbs: out }
    }
}

} // verus!
