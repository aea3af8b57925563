//! A byte buffer with a fixed maximum capacity.
//!
//! Appends past the capacity are silently dropped: every write keeps the
//! longest prefix that still fits.  This is the output stage of the
//! renderer, sized by the caller per invocation.

use vstd::prelude::*;
use vstd::string::StringSliceAdditionalSpecFns;

verus! {

/// How many bytes of a sequence of length `s_len` still fit when the
/// buffer already holds `cur_len` bytes out of `cap`.
pub open spec fn fit(cur_len: int, s_len: int, cap: int) -> int {
    if cap - cur_len < 0 {
        0
    } else if s_len <= cap - cur_len {
        s_len
    } else {
        cap - cur_len
    }
}

/// Append `s` to `cur`, keeping only what fits below `cap`.
pub open spec fn append_trunc(cur: Seq<u8>, s: Seq<u8>, cap: int) -> Seq<u8> {
    cur + s.take(fit(cur.len() as int, s.len() as int, cap))
}

/// `s` cut down to at most `cap` bytes.
pub open spec fn trunc(s: Seq<u8>, cap: int) -> Seq<u8> {
    s.take(fit(0, s.len() as int, cap))
}

/// Appending in two steps truncates exactly like appending in one.
pub proof fn lemma_append_trunc_assoc(cur: Seq<u8>, s1: Seq<u8>, s2: Seq<u8>, cap: int)
    ensures
        append_trunc(append_trunc(cur, s1, cap), s2, cap) == append_trunc(cur, s1 + s2, cap),
{
    let l = cur.len() as int;
    let n1 = s1.len() as int;
    let n2 = s2.len() as int;
    if cap - l < 0 {
        let mid = append_trunc(cur, s1, cap);
        assert(mid =~= cur);
        assert(append_trunc(mid, s2, cap) =~= cur);
        assert(append_trunc(cur, s1 + s2, cap) =~= cur);
    } else if n1 <= cap - l {
        let mid = append_trunc(cur, s1, cap);
        assert(s1.take(n1) =~= s1);
        assert(mid == cur + s1);
        let f2 = fit(l + n1, n2, cap);
        let f = fit(l, n1 + n2, cap);
        assert(f == n1 + f2);
        assert((s1 + s2).take(n1 + f2) =~= s1 + s2.take(f2));
        assert(append_trunc(cur, s1 + s2, cap) =~= cur + s1 + s2.take(f2));
        assert(append_trunc(mid, s2, cap) =~= cur + s1 + s2.take(f2));
    } else {
        let mid = append_trunc(cur, s1, cap);
        assert(mid =~= cur + s1.take(fit(l, n1, cap)));
        assert(mid.len() == cap);
        assert(fit(cap, n2, cap) == 0);
        assert(append_trunc(mid, s2, cap) =~= mid);
        assert(fit(l, n1 + n2, cap) == cap - l);
        assert((s1 + s2).take(cap - l) =~= s1.take(cap - l));
        assert(append_trunc(cur, s1 + s2, cap) =~= mid);
    }
}

/// `trunc` is `append_trunc` starting from the empty buffer.
pub proof fn lemma_trunc_is_append(s: Seq<u8>, cap: int)
    requires
        cap >= 0,
    ensures
        trunc(s, cap) == append_trunc(Seq::<u8>::empty(), s, cap),
{
    assert(trunc(s, cap) =~= append_trunc(Seq::<u8>::empty(), s, cap));
}

/// Growing a truncated buffer step by step tracks the untruncated stream.
pub proof fn lemma_trunc_step(emitted: Seq<u8>, s: Seq<u8>, cap: int)
    requires
        cap >= 0,
    ensures
        append_trunc(trunc(emitted, cap), s, cap) == trunc(emitted + s, cap),
{
    lemma_trunc_is_append(emitted, cap);
    lemma_trunc_is_append(emitted + s, cap);
    lemma_append_trunc_assoc(Seq::<u8>::empty(), emitted, s, cap);
}

/// The decimal digits of `n`, most significant first, no leading zeros.
pub open spec fn dec_nat(n: nat) -> Seq<u8>
    decreases n,
{
    if n < 10 {
        seq![(48 + n) as u8]
    } else {
        dec_nat(n / 10).push((48 + n % 10) as u8)
    }
}

/// A byte string of bounded capacity `N`; writes past the bound are dropped.
#[derive(Clone, Debug, PartialEq, Eq, Hash)]
pub struct ConstStr<const N: usize> {
    buffer: Vec<u8>,
}

impl<const N: usize> View for ConstStr<N> {
    type V = Seq<u8>;

    closed spec fn view(&self) -> Seq<u8> {
        self.buffer@
    }
}

impl<const N: usize> ConstStr<N> {
    /// An empty buffer.
    pub fn new() -> (r: Self)
        ensures
            r@ == Seq::<u8>::empty(),
    {
        ConstStr { buffer: Vec::new() }
    }

    /// Build a buffer holding the bytes of `s` that fit.
    pub fn from_bytes(s: &[u8]) -> (r: Self)
        ensures
            r@ == trunc(s@, N as int),
    {
        let mut r = ConstStr::new();
        r.push_bytes(s);
        proof {
            lemma_trunc_is_append(s@, N as int);
        }
        r
    }

    /// How many bytes are held.
    pub fn len(&self) -> (r: usize)
        ensures
            r == self@.len(),
    {
        self.buffer.len()
    }

    /// The bytes held so far.
    pub fn as_bytes(&self) -> (r: &[u8])
        ensures
            r@ == self@,
    {
        self.buffer.as_slice()
    }

    /// Drop everything held.
    pub fn clear(&mut self)
        ensures
            final(self)@ == Seq::<u8>::empty(),
    {
        self.buffer.clear();
    }

    /// Append one byte, unless the buffer is full.
    pub fn push_u8(&mut self, b: u8)
        ensures
            final(self)@ == append_trunc(old(self)@, seq![b], N as int),
    {
        if self.buffer.len() < N {
            self.buffer.push(b);
        }
        proof {
            assert(self@ =~= append_trunc(old(self)@, seq![b], N as int));
        }
    }

    /// Append the bytes of `s` that fit.
    pub fn push_str(&mut self, s: &str)
        ensures
            final(self)@ == append_trunc(old(self)@, s.spec_bytes(), N as int),
    {
        let bytes = s.as_bytes();
        self.push_bytes(bytes);
    }

    /// Append the bytes of `s` that fit.
    pub fn push_bytes(&mut self, s: &[u8])
        ensures
            final(self)@ == append_trunc(old(self)@, s@, N as int),
    {
        let ghost start = self@;
        let mut i: usize = 0;
        while i < s.len() && self.buffer.len() < N
            invariant
                i <= s@.len(),
                self.buffer@ == start + s@.take(i as int),
                i > 0 ==> self.buffer@.len() <= N,
            decreases s@.len() - i,
        {
            let b = s[i];
            self.buffer.push(b);
            proof {
                assert(s@.take(i + 1) =~= s@.take(i as int).push(s@[i as int]));
            }
            i = i + 1;
        }
        proof {
            if i == s@.len() {
                assert(s@.take(s@.len() as int) =~= s@);
            }
            assert(self@ =~= append_trunc(start, s@, N as int));
        }
    }

    /// Append the decimal digits of an 8-bit value, no leading zeros.
    pub fn push_u8n(&mut self, n: u8)
        ensures
            final(self)@ == append_trunc(old(self)@, dec_nat(n as nat), N as int),
    {
        let ghost cap = N as int;
        let ghost start = self@;
        if n >= 100 {
            let d0: u8 = 48 + n / 100;
            let d1: u8 = 48 + (n / 10) % 10;
            let d2: u8 = 48 + n % 10;
            self.push_u8(d0);
            self.push_u8(d1);
            self.push_u8(d2);
            proof {
                let nn = n as nat;
                assert(nn / 10 / 10 == nn / 100) by (nonlinear_arith);
                assert(nn / 100 < 10);
                assert(nn / 10 >= 10);
                assert(dec_nat(nn / 10 / 10) == seq![(48 + nn / 10 / 10) as u8]);
                assert(dec_nat(nn / 10) == dec_nat(nn / 10 / 10).push((48 + (nn / 10) % 10) as u8));
                assert(dec_nat(nn) == dec_nat(nn / 10).push((48 + nn % 10) as u8));
                assert(dec_nat(nn) =~= seq![d0] + seq![d1] + seq![d2]);
                lemma_append_trunc_assoc(start, seq![d0], seq![d1], cap);
                lemma_append_trunc_assoc(start, seq![d0] + seq![d1], seq![d2], cap);
                assert(seq![d0] + seq![d1] + seq![d2] == (seq![d0] + seq![d1]) + seq![d2]);
            }
        } else if n >= 10 {
            let d0: u8 = 48 + n / 10;
            let d1: u8 = 48 + n % 10;
            self.push_u8(d0);
            self.push_u8(d1);
            proof {
                let nn = n as nat;
                assert(nn / 10 < 10);
                assert(dec_nat(nn / 10) == seq![(48 + nn / 10) as u8]);
                assert(dec_nat(nn) == dec_nat(nn / 10).push((48 + nn % 10) as u8));
                assert(dec_nat(nn) =~= seq![d0] + seq![d1]);
                lemma_append_trunc_assoc(start, seq![d0], seq![d1], cap);
            }
        } else {
            self.push_u8(48 + n);
            proof {
                assert(dec_nat(n as nat) =~= seq![(48 + n) as u8]);
            }
        }
    }

    /// Append the decimal digits of a 64-bit value, no leading zeros.
    pub fn push_u64(&mut self, n: u64)
        ensures
            final(self)@ == append_trunc(old(self)@, dec_nat(n as nat), N as int),
    {
        let ghost cap = N as int;
        let ghost start = self@;
        if n == 0 {
            self.push_u8(48);
            proof {
                assert(dec_nat(0) =~= seq![48u8]);
            }
            return ;
        }
        let mut digits: Vec<u8> = Vec::new();
        let mut m: u64 = n;
        proof {
            assert(digits@.reverse() =~= Seq::<u8>::empty());
            assert(dec_nat(n as nat) =~= dec_nat(n as nat) + digits@.reverse());
        }
        while m > 0
            invariant
                m > 0 ==> dec_nat(n as nat) == dec_nat(m as nat) + digits@.reverse(),
                m == 0 ==> dec_nat(n as nat) == digits@.reverse(),
            decreases m,
        {
            let d: u8 = (m % 10) as u8 + 48;
            digits.push(d);
            proof {
                let prev = digits@.drop_last();
                assert(prev =~= digits@.take(digits@.len() - 1));
                assert(digits@.reverse() =~= seq![d] + prev.reverse());
                if m >= 10 {
                    assert(dec_nat(m as nat) == dec_nat((m as nat) / 10).push(d));
                    assert(dec_nat((m as nat) / 10).push(d) + prev.reverse() =~= dec_nat(
                        (m as nat) / 10,
                    ) + (seq![d] + prev.reverse()));
                } else {
                    assert(dec_nat(m as nat) =~= seq![d]);
                    assert(dec_nat(m as nat) + prev.reverse() =~= seq![d] + prev.reverse());
                }
            }
            m = m / 10;
        }
        let ghost rev = digits@.reverse();
        proof {
            assert(rev.take(0) =~= Seq::<u8>::empty());
            assert(self@ =~= append_trunc(start, rev.take(0), cap));
        }
        let mut j: usize = 0;
        while j < digits.len()
            invariant
                j <= digits@.len(),
                cap == N as int,
                rev == digits@.reverse(),
                rev.len() == digits@.len(),
                self@ == append_trunc(start, rev.take(j as int), cap),
            decreases digits@.len() - j,
        {
            let b = digits[digits.len() - 1 - j];
            proof {
                assert(rev[j as int] == digits@[digits@.len() - 1 - j]);
                assert(rev.take(j + 1) =~= rev.take(j as int) + seq![rev[j as int]]);
                lemma_append_trunc_assoc(start, rev.take(j as int), seq![rev[j as int]], cap);
            }
            let ghost prev = self@;
            self.push_u8(b);
            proof {
                assert(seq![b] =~= seq![rev[j as int]]);
                assert(self@ == append_trunc(prev, seq![b], N as int));
                assert(prev == append_trunc(start, rev.take(j as int), cap));
                assert(cap == N as int);
                assert(self@ == append_trunc(
                    append_trunc(start, rev.take(j as int), cap),
                    seq![rev[j as int]],
                    cap,
                ));
                assert(self@ == append_trunc(start, rev.take(j as int) + seq![rev[j as int]], cap));
                assert(self@ == append_trunc(start, rev.take(j + 1), cap));
            }
            j = j + 1;
        }
        proof {
            assert(rev.take(rev.len() as int) =~= rev);
        }
    }
}

} // verus!
