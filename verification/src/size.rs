//! Human-readable byte sizes: `1536` becomes `1.50 KB`.

use crate::buffer::{append_trunc, dec_nat, lemma_append_trunc_assoc, ConstStr};
use vstd::arithmetic::div_mod::lemma_div_is_ordered;
use vstd::prelude::*;

verus! {

/// Powers of ten, for digit-count bounds.
pub open spec fn pow10(d: nat) -> nat
    decreases d,
{
    if d == 0 {
        1
    } else {
        10 * pow10((d - 1) as nat)
    }
}

/// A value below `pow10(d)` prints in at most `d` digits.
proof fn lemma_dec_len(n: nat, d: nat)
    requires
        d >= 1,
        n < pow10(d),
    ensures
        dec_nat(n).len() <= d,
    decreases d,
{
    if n >= 10 {
        assert(pow10(d) == 10 * pow10((d - 1) as nat));
        assert(n / 10 < pow10((d - 1) as nat)) by (nonlinear_arith)
            requires
                n < 10 * pow10((d - 1) as nat),
        ;
        lemma_dec_len(n / 10, (d - 1) as nat);
    }
}

/// The unit index after repeatedly dividing by 1024, at most four times.
pub open spec fn hs_idx(v: nat, idx: nat) -> nat
    decreases 4 - idx,
{
    if v >= 1024 && idx < 4 {
        hs_idx(v / 1024, idx + 1)
    } else {
        idx
    }
}

/// The scaled value left after the divisions.
pub open spec fn hs_val(v: nat, idx: nat) -> nat
    decreases 4 - idx,
{
    if v >= 1024 && idx < 4 {
        hs_val(v / 1024, idx + 1)
    } else {
        v
    }
}

/// The remainder of the last division taken, for the fraction digits.
pub open spec fn hs_rem(v: nat, rem: nat, idx: nat) -> nat
    decreases 4 - idx,
{
    if v >= 1024 && idx < 4 {
        hs_rem(v / 1024, v % 1024, idx + 1)
    } else {
        rem
    }
}

/// The unit suffix for each index: B, KB, MB, GB, TB.
pub open spec fn unit_suffix(idx: nat) -> Seq<u8> {
    if idx == 0 {
        seq![66u8]
    } else if idx == 1 {
        seq![75u8, 66u8]
    } else if idx == 2 {
        seq![77u8, 66u8]
    } else if idx == 3 {
        seq![71u8, 66u8]
    } else {
        seq![84u8, 66u8]
    }
}

/// What `human_size` prints for `bytes`: the scaled value, two fraction
/// digits when a unit was applied, a space and the unit.
pub open spec fn human_size_spec(bytes: nat) -> Seq<u8> {
    let idx = hs_idx(bytes, 0);
    let value = hs_val(bytes, 0);
    let rem = hs_rem(bytes, 0, 0);
    let frac = rem * 100 / 1024;
    dec_nat(value) + (if idx > 0 {
        seq![46u8] + (if frac < 10 {
            seq![48u8]
        } else {
            Seq::<u8>::empty()
        }) + dec_nat(frac)
    } else {
        Seq::<u8>::empty()
    }) + seq![32u8] + unit_suffix(idx)
}

/// Format a byte count with binary units and two fraction digits.
/// The result always fits its buffer, so nothing is ever cut off.
pub fn human_size(bytes: u64) -> (line: ConstStr<16>)
    ensures
        line@ == human_size_spec(bytes as nat),
{
    let mut value: u64 = bytes;
    let mut unit_idx: usize = 0;
    let mut remainder: u64 = 0;
    while value >= 1024 && unit_idx < 4
        invariant
            unit_idx <= 4,
            remainder < 1024,
            hs_idx(bytes as nat, 0) == hs_idx(value as nat, unit_idx as nat),
            hs_val(bytes as nat, 0) == hs_val(value as nat, unit_idx as nat),
            hs_rem(bytes as nat, 0, 0) == hs_rem(value as nat, remainder as nat, unit_idx as nat),
            unit_idx >= 1 ==> value <= 18014398509481983,
            unit_idx >= 2 ==> value <= 17592186044415,
            unit_idx >= 3 ==> value <= 17179869183,
            unit_idx >= 4 ==> value <= 16777215,
        decreases 4 - unit_idx,
    {
        let ghost pv = value as int;
        remainder = value % 1024;
        value = value / 1024;
        unit_idx = unit_idx + 1;
        proof {
            lemma_div_is_ordered(pv, 0xFFFF_FFFF_FFFF_FFFF, 1024);
            if unit_idx >= 2 {
                lemma_div_is_ordered(pv, 18014398509481983, 1024);
            }
            if unit_idx >= 3 {
                lemma_div_is_ordered(pv, 17592186044415, 1024);
            }
            if unit_idx >= 4 {
                lemma_div_is_ordered(pv, 17179869183, 1024);
            }
        }
    }
    let ghost idx = hs_idx(bytes as nat, 0);
    let ghost val = hs_val(bytes as nat, 0);
    let ghost rem = hs_rem(bytes as nat, 0, 0);
    proof {
        assert(idx == unit_idx as nat);
        assert(val == value as nat);
        assert(rem == remainder as nat);
    }
    let mut line: ConstStr<16> = ConstStr::new();
    proof {
        lemma_div_is_ordered(remainder * 100, 102300, 1024);
    }
    let fraction: u64 = (remainder * 100) / 1024;
    proof {
        assert(fraction < 100);
    }
    let ghost cap = 16int;
    line.push_u64(value);
    let ghost a1 = dec_nat(value as nat);
    proof {
        reveal_with_fuel(pow10, 9);
        assert(pow10(8) == 100000000);
        lemma_dec_len(value as nat, 8);
        assert(a1.len() <= 8);
    }
    if unit_idx > 0 {
        line.push_u8(46);
        proof {
            lemma_append_trunc_assoc(Seq::<u8>::empty(), a1, seq![46u8], cap);
        }
        let ghost a2 = a1 + seq![46u8];
        if fraction < 10 {
            line.push_u8(48);
            proof {
                lemma_append_trunc_assoc(Seq::<u8>::empty(), a2, seq![48u8], cap);
            }
        }
        let ghost a3 = a2 + (if fraction < 10 {
            seq![48u8]
        } else {
            Seq::<u8>::empty()
        });
        proof {
            if fraction >= 10 {
                assert(a3 =~= a2);
            }
            assert(line@ == append_trunc(Seq::<u8>::empty(), a3, cap));
        }
        line.push_u64(fraction);
        proof {
            reveal_with_fuel(pow10, 3);
            assert(pow10(2) == 100);
            lemma_dec_len(fraction as nat, 2);
            lemma_append_trunc_assoc(Seq::<u8>::empty(), a3, dec_nat(fraction as nat), cap);
        }
    }
    let ghost a4 = a1 + (if idx > 0 {
        seq![46u8] + (if rem * 100 / 1024 < 10 {
            seq![48u8]
        } else {
            Seq::<u8>::empty()
        }) + dec_nat(rem * 100 / 1024)
    } else {
        Seq::<u8>::empty()
    });
    proof {
        if idx > 0 {
            assert(a4 =~= a1 + seq![46u8] + (if fraction < 10 {
                seq![48u8]
            } else {
                Seq::<u8>::empty()
            }) + dec_nat(fraction as nat));
        } else {
            assert(a4 =~= a1);
        }
        assert(a4.len() <= 13);
        assert(line@ == append_trunc(Seq::<u8>::empty(), a4, cap));
    }
    line.push_u8(32);
    proof {
        lemma_append_trunc_assoc(Seq::<u8>::empty(), a4, seq![32u8], cap);
    }
    let ghost a5 = a4 + seq![32u8];
    if unit_idx == 0 {
        line.push_u8(66);
        proof {
            lemma_append_trunc_assoc(Seq::<u8>::empty(), a5, seq![66u8], cap);
            assert(a5 + seq![66u8] =~= a5 + unit_suffix(idx));
        }
    } else {
        let lead: u8 = if unit_idx == 1 {
            75
        } else if unit_idx == 2 {
            77
        } else if unit_idx == 3 {
            71
        } else {
            84
        };
        line.push_u8(lead);
        proof {
            lemma_append_trunc_assoc(Seq::<u8>::empty(), a5, seq![lead], cap);
        }
        line.push_u8(66);
        proof {
            lemma_append_trunc_assoc(Seq::<u8>::empty(), a5 + seq![lead], seq![66u8], cap);
            assert(a5 + seq![lead] + seq![66u8] =~= a5 + unit_suffix(idx));
        }
    }
    proof {
        let total = a5 + unit_suffix(idx);
        assert(total.len() <= 16);
        assert(line@ == append_trunc(Seq::<u8>::empty(), total, cap));
        assert(line@ =~= total);
        assert(total =~= human_size_spec(bytes as nat));
    }
    line
}

} // verus!
