//! Cache rules: what a rule record holds and how its lines are read.
//!
//! A rule is stored as consecutive non-blank lines: a name, a detection
//! line, a cleaning line and a size directory.  The detection and
//! cleaning lines carry a one-byte selector in front of their payload.
//! Reading the file and walking its lines is the caller's business;
//! this module turns single lines into the typed fields.

use crate::buffer::{trunc, ConstStr};
use vstd::prelude::*;
use vstd::slice::slice_subrange;

verus! {

/// The most rules a rule table holds.
pub const MAX_RULES: usize = 32;

/// How a tool's presence is detected.
#[derive(Clone, Debug, PartialEq, Eq, Hash)]
pub enum DetectMethod {
    Binary(ConstStr<64>),
    EnvVar(ConstStr<64>),
    PathExists(ConstStr<260>),
}

/// How a tool's cache is cleaned.
#[derive(Clone, Debug, PartialEq, Eq, Hash)]
pub enum CleanMethod {
    RunCommand(ConstStr<64>, ConstStr<128>),
    CleanPath(ConstStr<260>),
}

/// One cache rule: a tool name, how to detect the tool, how to clean
/// its cache, and where to measure its size.
#[derive(Clone, Debug, PartialEq, Eq, Hash)]
pub struct CacheRule {
    pub name: ConstStr<32>,
    pub detect: DetectMethod,
    pub clean: CleanMethod,
    pub size_dir: Option<ConstStr<260>>,
}

/// Whether a byte is ASCII whitespace.
pub open spec fn is_space(b: u8) -> bool {
    b == 32 || b == 9 || b == 10 || b == 13 || b == 11 || b == 12
}

/// Whether a line holds nothing but ASCII whitespace.
pub open spec fn blank_spec(line: Seq<u8>) -> bool {
    forall|k: int| 0 <= k < line.len() ==> is_space(line[k])
}

/// The payload of a selector line: everything after the first byte.
pub open spec fn payload(line: Seq<u8>) -> Seq<u8> {
    if line.len() == 0 {
        Seq::<u8>::empty()
    } else {
        line.skip(1)
    }
}

/// What parsing a detection line must give: selector `1` a binary on
/// the path, `2` an environment variable, anything else a path that
/// must exist; the payload capped to the field's capacity.
pub open spec fn detect_matches(line: Seq<u8>, d: DetectMethod) -> bool {
    match d {
        DetectMethod::Binary(s) => line.len() > 0 && line[0] == 49 && s@ == trunc(
            payload(line),
            64,
        ),
        DetectMethod::EnvVar(s) => line.len() > 0 && line[0] == 50 && s@ == trunc(
            payload(line),
            64,
        ),
        DetectMethod::PathExists(s) => !(line.len() > 0 && (line[0] == 49 || line[0] == 50))
            && s@ == trunc(payload(line), 260),
    }
}

/// The position of the first `;` at or after `i`, or the length.
pub open spec fn first_semi(s: Seq<u8>, i: int) -> int
    decreases s.len() - i,
{
    if i < 0 || i >= s.len() {
        s.len() as int
    } else if s[i] == 59 {
        i
    } else {
        first_semi(s, i + 1)
    }
}

/// What parsing a cleaning line must give: selector `1` runs a command
/// (the payload split at its first `;` into command and arguments),
/// anything else clears a path.
pub open spec fn clean_matches(line: Seq<u8>, c: CleanMethod) -> bool {
    match c {
        CleanMethod::RunCommand(cmd, args) => {
            let p = payload(line);
            let k = first_semi(p, 0);
            line.len() > 0 && line[0] == 49 && if k < p.len() {
                cmd@ == trunc(p.take(k), 64) && args@ == trunc(p.skip(k + 1), 128)
            } else {
                cmd@ == trunc(p, 64) && args@ == Seq::<u8>::empty()
            }
        },
        CleanMethod::CleanPath(s) => !(line.len() > 0 && line[0] == 49) && s@ == trunc(
            payload(line),
            260,
        ),
    }
}

/// Whether a line holds nothing but ASCII whitespace; such lines are
/// skipped between rule records.
pub fn line_is_blank(line: &[u8]) -> (r: bool)
    ensures
        r == blank_spec(line@),
{
    let mut i: usize = 0;
    while i < line.len()
        invariant
            i <= line@.len(),
            forall|k: int| 0 <= k < i ==> is_space(line@[k]),
        decreases line@.len() - i,
    {
        let b = line[i];
        if !(b == 32 || b == 9 || b == 10 || b == 13 || b == 11 || b == 12) {
            return false;
        }
        i = i + 1;
    }
    true
}

/// Parse one detection line.
pub fn parse_detect(line: &[u8]) -> (d: DetectMethod)
    ensures
        detect_matches(line@, d),
{
    if line.len() > 0 && line[0] == 49 {
        DetectMethod::Binary(payload_str(line))
    } else if line.len() > 0 && line[0] == 50 {
        DetectMethod::EnvVar(payload_str(line))
    } else {
        DetectMethod::PathExists(payload_str(line))
    }
}

/// Parse one cleaning line.
pub fn parse_clean(line: &[u8]) -> (c: CleanMethod)
    ensures
        clean_matches(line@, c),
{
    if line.len() > 0 && line[0] == 49 {
        let p = slice_subrange(line, 1, line.len());
        proof {
            assert(p@ == payload(line@));
        }
        let k = find_semi(p);
        if k < p.len() {
            let cmd = slice_subrange(p, 0, k);
            let args = slice_subrange(p, k + 1, p.len());
            proof {
                assert(cmd@ == payload(line@).take(k as int));
                assert(args@ == payload(line@).skip(k + 1));
            }
            CleanMethod::RunCommand(ConstStr::from_bytes(cmd), ConstStr::from_bytes(args))
        } else {
            let empty = slice_subrange(p, p.len(), p.len());
            proof {
                assert(empty@ =~= Seq::<u8>::empty());
                assert(trunc(Seq::<u8>::empty(), 128) =~= Seq::<u8>::empty());
            }
            CleanMethod::RunCommand(ConstStr::from_bytes(p), ConstStr::from_bytes(empty))
        }
    } else {
        CleanMethod::CleanPath(payload_str(line))
    }
}

/// The payload of a selector line, capped to the field's capacity.
fn payload_str<const N: usize>(line: &[u8]) -> (r: ConstStr<N>)
    ensures
        r@ == trunc(payload(line@), N as int),
{
    if line.len() == 0 {
        let r = ConstStr::new();
        proof {
            assert(trunc(Seq::<u8>::empty(), N as int) =~= Seq::<u8>::empty());
        }
        r
    } else {
        let p = slice_subrange(line, 1, line.len());
        proof {
            assert(p@ == payload(line@));
        }
        ConstStr::from_bytes(p)
    }
}

/// The position of the first `;` in `s`, or its length.
fn find_semi(s: &[u8]) -> (k: usize)
    ensures
        k as int == first_semi(s@, 0),
        k <= s@.len(),
{
    let mut i: usize = 0;
    while i < s.len()
        invariant
            i <= s@.len(),
            first_semi(s@, 0) == first_semi(s@, i as int),
        decreases s@.len() - i,
    {
        if s[i] == 59 {
            return i;
        }
        i = i + 1;
    }
    i
}

} // verus!
