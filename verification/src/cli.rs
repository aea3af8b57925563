//! Command names and the "did you mean" suggestion.
//!
//! An unknown command is matched against the known command names by
//! Levenshtein distance over bytes; the closest name within distance 2
//! is suggested, earliest name winning ties.

use vstd::prelude::*;
use vstd::string::StringSliceAdditionalSpecFns;

verus! {

/// The commands the tool understands.
pub enum Commands {
    Scan,
    Clean,
    List,
    Help,
    Exit,
}

/// Levenshtein distance between the first `i` bytes of `a` and the
/// first `j` bytes of `b`.
pub open spec fn lev(a: Seq<u8>, b: Seq<u8>, i: nat, j: nat) -> nat
    decreases i + j,
{
    if i == 0 {
        j
    } else if j == 0 {
        i
    } else {
        let del = lev(a, b, (i - 1) as nat, j) + 1;
        let ins = lev(a, b, i, (j - 1) as nat) + 1;
        let sub = lev(a, b, (i - 1) as nat, (j - 1) as nat) + (if a[i - 1] == b[j - 1] {
            0nat
        } else {
            1nat
        });
        if del <= ins && del <= sub {
            del
        } else if ins <= sub {
            ins
        } else {
            sub
        }
    }
}

/// Levenshtein distance between two byte strings.
pub open spec fn levenshtein_spec(a: Seq<u8>, b: Seq<u8>) -> nat {
    lev(a, b, a.len(), b.len())
}

/// The distance never exceeds the sum of the prefix lengths.
proof fn lemma_lev_bound(a: Seq<u8>, b: Seq<u8>, i: nat, j: nat)
    ensures
        lev(a, b, i, j) <= i + j,
    decreases i + j,
{
    if i > 0 && j > 0 {
        lemma_lev_bound(a, b, (i - 1) as nat, j);
        lemma_lev_bound(a, b, i, (j - 1) as nat);
        lemma_lev_bound(a, b, (i - 1) as nat, (j - 1) as nat);
    }
}

/// Levenshtein distance between two byte strings, by the classic
/// single-column dynamic program.
pub fn levenshtein(a: &[u8], b: &[u8]) -> (d: usize)
    requires
        a@.len() + b@.len() < usize::MAX,
    ensures
        d as nat == levenshtein_spec(a@, b@),
{
    let blen = b.len();
    if a.len() == 0 {
        proof {
            assert(lev(a@, b@, 0, b@.len()) == b@.len());
        }
        return blen;
    }
    let mut column: Vec<usize> = Vec::new();
    let mut j: usize = 0;
    while j <= blen
        invariant
            j <= blen + 1,
            blen == b@.len(),
            b@.len() < usize::MAX,
            column@.len() == j,
            forall|k: int| 0 <= k < j ==> column@[k] == lev(a@, b@, 0, k as nat),
        decreases blen + 1 - j,
    {
        column.push(j);
        j = j + 1;
    }
    let mut i: usize = 0;
    while i < a.len()
        invariant
            i <= a@.len(),
            blen == b@.len(),
            a@.len() + b@.len() < usize::MAX,
            column@.len() == blen + 1,
            forall|k: int| 0 <= k <= blen ==> column@[k] == lev(a@, b@, i as nat, k as nat),
        decreases a@.len() - i,
    {
        let ca = a[i];
        let mut last_diag: usize = column[0];
        column.set(0, i + 1);
        let mut j2: usize = 0;
        while j2 < blen
            invariant
                j2 <= blen,
                blen == b@.len(),
                i < a@.len(),
                a@.len() + b@.len() < usize::MAX,
                ca == a@[i as int],
                column@.len() == blen + 1,
                last_diag == lev(a@, b@, i as nat, j2 as nat),
                forall|k: int| 0 <= k <= j2 ==> column@[k] == lev(a@, b@, (i + 1) as nat, k as nat),
                forall|k: int| j2 < k <= blen ==> column@[k] == lev(a@, b@, i as nat, k as nat),
            decreases blen - j2,
        {
            let old_diag = column[j2 + 1];
            let cost: usize = if ca == b[j2] {
                0
            } else {
                1
            };
            proof {
                lemma_lev_bound(a@, b@, i as nat, (j2 + 1) as nat);
                lemma_lev_bound(a@, b@, (i + 1) as nat, j2 as nat);
                lemma_lev_bound(a@, b@, i as nat, j2 as nat);
            }
            let d1 = column[j2 + 1] + 1;
            let d2 = column[j2] + 1;
            let d3 = last_diag + cost;
            let m = if d1 <= d2 && d1 <= d3 {
                d1
            } else if d2 <= d3 {
                d2
            } else {
                d3
            };
            column.set(j2 + 1, m);
            proof {
                assert(m == lev(a@, b@, (i + 1) as nat, (j2 + 1) as nat));
            }
            last_diag = old_diag;
            j2 = j2 + 1;
        }
        i = i + 1;
    }
    column[blen]
}

/// The known command names, as byte strings.
pub open spec fn cmd_bytes(idx: int) -> Seq<u8> {
    if idx == 0 {
        seq![115u8, 99u8, 97u8, 110u8]
    } else if idx == 1 {
        seq![99u8, 108u8, 101u8, 97u8, 110u8]
    } else if idx == 2 {
        seq![108u8, 105u8, 115u8, 116u8]
    } else {
        seq![104u8, 101u8, 108u8, 112u8]
    }
}

/// The known command names, as character strings.
pub open spec fn cmd_chars(idx: int) -> Seq<char> {
    if idx == 0 {
        seq!['s', 'c', 'a', 'n']
    } else if idx == 1 {
        seq!['c', 'l', 'e', 'a', 'n']
    } else if idx == 2 {
        seq!['l', 'i', 's', 't']
    } else {
        seq!['h', 'e', 'l', 'p']
    }
}

/// The distance from an input to command number `idx`.
pub open spec fn cmd_dist(input: Seq<u8>, idx: int) -> nat {
    levenshtein_spec(input, cmd_bytes(idx))
}

/// Suggest the known command closest to `input`: the first name with
/// the least Levenshtein distance, provided that distance is below 3;
/// `None` when every name is 3 or more away.
pub fn find_suggestion(input: &str) -> (r: Option<&'static str>)
    requires
        input.spec_bytes().len() < usize::MAX - 5,
    ensures
        match r {
            Some(s) => exists|i: int|
                0 <= i < 4 && s@ == cmd_chars(i) && cmd_dist(input.spec_bytes(), i) < 3 && (forall|
                    k: int,
                |
                    0 <= k < 4 ==> cmd_dist(input.spec_bytes(), i) <= cmd_dist(
                        input.spec_bytes(),
                        k,
                    )) && (forall|k: int|
                    0 <= k < i ==> cmd_dist(input.spec_bytes(), k) > cmd_dist(
                        input.spec_bytes(),
                        i,
                    )),
            None => forall|k: int| 0 <= k < 4 ==> cmd_dist(input.spec_bytes(), k) >= 3,
        },
{
    let ab = input.as_bytes();
    let lit_scan: [u8; 4] = [115, 99, 97, 110];
    let lit_clean: [u8; 5] = [99, 108, 101, 97, 110];
    let lit_list: [u8; 4] = [108, 105, 115, 116];
    let lit_help: [u8; 4] = [104, 101, 108, 112];
    proof {
        assert(lit_scan@ =~= cmd_bytes(0));
        assert(lit_clean@ =~= cmd_bytes(1));
        assert(lit_list@ =~= cmd_bytes(2));
        assert(lit_help@ =~= cmd_bytes(3));
    }
    let d0 = levenshtein(ab, lit_scan.as_slice());
    let d1 = levenshtein(ab, lit_clean.as_slice());
    let d2 = levenshtein(ab, lit_list.as_slice());
    let d3 = levenshtein(ab, lit_help.as_slice());
    let mut bi: usize = 4;
    let mut bd: usize = 3;
    if d0 < bd {
        bi = 0;
        bd = d0;
    }
    if d1 < bd {
        bi = 1;
        bd = d1;
    }
    if d2 < bd {
        bi = 2;
        bd = d2;
    }
    if d3 < bd {
        bi = 3;
        bd = d3;
    }
    proof {
        reveal_strlit("scan");
        reveal_strlit("clean");
        reveal_strlit("list");
        reveal_strlit("help");
        assert("scan"@ =~= cmd_chars(0));
        assert("clean"@ =~= cmd_chars(1));
        assert("list"@ =~= cmd_chars(2));
        assert("help"@ =~= cmd_chars(3));
    }
    if bi == 0 {
        Some("scan")
    } else if bi == 1 {
        Some("clean")
    } else if bi == 2 {
        Some("list")
    } else if bi == 3 {
        Some("help")
    } else {
        None
    }
}

} // verus!
