//! The ANSI state-diff emitter.
//!
//! For each rendered character the emitter compares the desired style
//! with the attribute state last written to the output and emits only
//! the escapes needed to move the terminal from one to the other.  ANSI
//! has no reliable way to switch single attributes off, so any downgrade
//! forces a full reset followed by re-enabling what is still wanted.
//!
//! All five attributes take part in the reset decision and all five have
//! a set escape (SGR 1, 3, 4, 9 and 8); strikethrough and obfuscated are
//! wired like the other three throughout.

use crate::buffer::{append_trunc, dec_nat, lemma_append_trunc_assoc, ConstStr};
use crate::color::Color;
use crate::phase::{gradient_color, rainbow_color, gradient_color_spec, rainbow_color_spec, Sweep};
use crate::style::{Fill, Style};
use vstd::prelude::*;

verus! {

/// The terminal attribute state last written to the output: the five
/// attributes as concrete on/off plus the current foreground color.
#[derive(Debug, Clone, Copy)]
pub struct EmitState {
    pub bold: bool,
    pub italic: bool,
    pub underlined: bool,
    pub strikethrough: bool,
    pub obfuscated: bool,
    pub color: Option<Color>,
}

/// The emitter state before anything has been written: all off.
pub open spec fn emit_init() -> EmitState {
    EmitState {
        bold: false,
        italic: false,
        underlined: false,
        strikethrough: false,
        obfuscated: false,
        color: None,
    }
}

/// A one-parameter SGR escape: `ESC [ <code> m`.
pub open spec fn esc(code: u8) -> Seq<u8> {
    seq![27u8, 91u8, code, 109u8]
}

/// The full-reset escape `ESC [ 0 m`.
pub open spec fn reset_esc() -> Seq<u8> {
    esc(48)
}

/// The 24-bit foreground escape `ESC [ 38 ; 2 ; R ; G ; B m` with
/// decimal channel values.
pub open spec fn color_esc(c: Color) -> Seq<u8> {
    seq![27u8, 91u8, 51u8, 56u8, 59u8, 50u8, 59u8] + dec_nat(c.r as nat) + seq![59u8] + dec_nat(
        c.g as nat,
    ) + seq![59u8] + dec_nat(c.b as nat) + seq![109u8]
}

/// Whether a tri-state attribute is explicitly on.
pub open spec fn wants(o: Option<bool>) -> bool {
    o == Some(true)
}

/// The foreground color the fill asks for at the current sweep position.
pub open spec fn fill_fg(fill: Fill, sw: Sweep) -> Option<Color> {
    match fill {
        Fill::Unset => None,
        Fill::Solid(c) => Some(c),
        Fill::Gradient { start, end, phase } => if sw.active {
            Some(
                gradient_color_spec(start, end, phase as int, sw.count as int, sw.total as int),
            )
        } else {
            None
        },
        Fill::Rainbow { phase, reverse } => if sw.active {
            Some(rainbow_color_spec(phase as int, reverse, sw.count as int, sw.total as int))
        } else {
            None
        },
    }
}

/// A full reset is forced when any attribute currently on is not wanted,
/// or a foreground color is set but none is wanted.
pub open spec fn needs_reset(st: Style, fg: Option<Color>, e: EmitState) -> bool {
    (e.bold && !wants(st.bold)) || (e.italic && !wants(st.italic)) || (e.underlined && !wants(
        st.underlined,
    )) || (e.strikethrough && !wants(st.strikethrough)) || (e.obfuscated && !wants(st.obfuscated))
        || (e.color is Some && fg is None)
}

/// The bytes emitted for one rendered character: an optional reset, the
/// set escapes for attributes not yet on, an optional color escape, then
/// the character itself.
pub open spec fn char_bytes(st: Style, fg: Option<Color>, e: EmitState, ch: u8) -> Seq<u8> {
    let reset = needs_reset(st, fg, e);
    let e1 = if reset {
        emit_init()
    } else {
        e
    };
    let s1 = if reset {
        esc(48)
    } else {
        Seq::<u8>::empty()
    };
    let s2 = if wants(st.bold) && !e1.bold {
        esc(49)
    } else {
        Seq::<u8>::empty()
    };
    let s3 = if wants(st.italic) && !e1.italic {
        esc(51)
    } else {
        Seq::<u8>::empty()
    };
    let s4 = if wants(st.underlined) && !e1.underlined {
        esc(52)
    } else {
        Seq::<u8>::empty()
    };
    let s5 = if wants(st.strikethrough) && !e1.strikethrough {
        esc(57)
    } else {
        Seq::<u8>::empty()
    };
    let s6 = if wants(st.obfuscated) && !e1.obfuscated {
        esc(56)
    } else {
        Seq::<u8>::empty()
    };
    let s7 = match fg {
        Some(c) => if e1.color != fg {
            color_esc(c)
        } else {
            Seq::<u8>::empty()
        },
        None => Seq::<u8>::empty(),
    };
    s1 + s2 + s3 + s4 + s5 + s6 + s7 + seq![ch]
}

/// The emitter state after one rendered character.
pub open spec fn emit_after(st: Style, fg: Option<Color>, e: EmitState) -> EmitState {
    let reset = needs_reset(st, fg, e);
    let e1 = if reset {
        emit_init()
    } else {
        e
    };
    EmitState {
        bold: e1.bold || wants(st.bold),
        italic: e1.italic || wants(st.italic),
        underlined: e1.underlined || wants(st.underlined),
        strikethrough: e1.strikethrough || wants(st.strikethrough),
        obfuscated: e1.obfuscated || wants(st.obfuscated),
        color: if fg is Some {
            fg
        } else {
            e1.color
        },
    }
}

/// The sweep after one rendered character: the count moves forward only
/// while a sweep is active.
pub open spec fn sweep_bump(sw: Sweep) -> Sweep {
    if sw.active {
        Sweep { count: (sw.count + 1) as usize, ..sw }
    } else {
        sw
    }
}

/// Whether a tri-state attribute is explicitly on.
pub fn want(o: Option<bool>) -> (r: bool)
    ensures
        r == wants(o),
{
    match o {
        Some(true) => true,
        _ => false,
    }
}

/// Append a one-parameter SGR escape.
pub fn push_esc<const N: usize>(out: &mut ConstStr<N>, code: u8)
    ensures
        final(out)@ == append_trunc(old(out)@, esc(code), N as int),
{
    let ghost base = out@;
    let ghost cap = N as int;
    out.push_u8(27);
    out.push_u8(91);
    proof {
        lemma_append_trunc_assoc(base, seq![27u8], seq![91u8], cap);
    }
    out.push_u8(code);
    proof {
        lemma_append_trunc_assoc(base, seq![27u8] + seq![91u8], seq![code], cap);
    }
    out.push_u8(109);
    proof {
        lemma_append_trunc_assoc(base, seq![27u8] + seq![91u8] + seq![code], seq![109u8], cap);
        assert(esc(code) =~= seq![27u8] + seq![91u8] + seq![code] + seq![109u8]);
    }
}

/// Append the 24-bit foreground escape for `c`.
pub fn push_color_esc<const N: usize>(out: &mut ConstStr<N>, c: Color)
    ensures
        final(out)@ == append_trunc(old(out)@, color_esc(c), N as int),
{
    let ghost base = out@;
    let ghost cap = N as int;
    let pre: [u8; 7] = [27, 91, 51, 56, 59, 50, 59];
    out.push_bytes(pre.as_slice());
    let ghost a1 = pre@;
    proof {
        assert(a1 =~= seq![27u8, 91u8, 51u8, 56u8, 59u8, 50u8, 59u8]);
    }
    out.push_u8n(c.r);
    proof {
        lemma_append_trunc_assoc(base, a1, dec_nat(c.r as nat), cap);
    }
    let ghost a2 = a1 + dec_nat(c.r as nat);
    out.push_u8(59);
    proof {
        lemma_append_trunc_assoc(base, a2, seq![59u8], cap);
    }
    let ghost a3 = a2 + seq![59u8];
    out.push_u8n(c.g);
    proof {
        lemma_append_trunc_assoc(base, a3, dec_nat(c.g as nat), cap);
    }
    let ghost a4 = a3 + dec_nat(c.g as nat);
    out.push_u8(59);
    proof {
        lemma_append_trunc_assoc(base, a4, seq![59u8], cap);
    }
    let ghost a5 = a4 + seq![59u8];
    out.push_u8n(c.b);
    proof {
        lemma_append_trunc_assoc(base, a5, dec_nat(c.b as nat), cap);
    }
    let ghost a6 = a5 + dec_nat(c.b as nat);
    out.push_u8(109);
    proof {
        lemma_append_trunc_assoc(base, a6, seq![109u8], cap);
        assert(color_esc(c) == a6 + seq![109u8]);
    }
}

/// Render one character: compute the fill's color for this sweep
/// position, emit what the style calls for, and move the sweep forward.
pub fn render_one<const CAP: usize>(
    out: &mut ConstStr<CAP>,
    st: &Style,
    e: &mut EmitState,
    sw: &mut Sweep,
    ch: u8,
)
    requires
        old(sw).total >= 1,
        old(sw).count < usize::MAX,
    ensures
        final(out)@ == append_trunc(
            old(out)@,
            char_bytes(*st, fill_fg(st.fill, *old(sw)), *old(e), ch),
            CAP as int,
        ),
        *final(e) == emit_after(*st, fill_fg(st.fill, *old(sw)), *old(e)),
        *final(sw) == sweep_bump(*old(sw)),
{
    let fg: Option<Color> = match st.fill {
        Fill::Unset => None,
        Fill::Solid(c) => Some(c),
        Fill::Gradient { start, end, phase } => if sw.active {
            Some(gradient_color(start, end, phase, sw.count, sw.total))
        } else {
            None
        },
        Fill::Rainbow { phase, reverse } => if sw.active {
            Some(rainbow_color(phase, reverse, sw.count, sw.total))
        } else {
            None
        },
    };
    proof {
        assert(fg == fill_fg(st.fill, *old(sw)));
    }
    emit_char(out, st, fg, e, ch);
    if sw.active {
        sw.count = sw.count + 1;
    }
}

/// Emit the escapes and the character for one rendered character, with
/// the desired foreground already resolved.
#[verifier::rlimit(100)]
#[verifier::spinoff_prover]
fn emit_char<const CAP: usize>(
    out: &mut ConstStr<CAP>,
    st: &Style,
    fg: Option<Color>,
    e: &mut EmitState,
    ch: u8,
)
    ensures
        final(out)@ == append_trunc(old(out)@, char_bytes(*st, fg, *old(e), ch), CAP as int),
        *final(e) == emit_after(*st, fg, *old(e)),
{
    let ghost base = out@;
    let ghost cap = CAP as int;
    let reset: bool = (e.bold && !want(st.bold)) || (e.italic && !want(st.italic)) || (e.underlined
        && !want(st.underlined)) || (e.strikethrough && !want(st.strikethrough)) || (e.obfuscated
        && !want(st.obfuscated)) || (e.color.is_some() && fg.is_none());
    proof {
        assert(reset == needs_reset(*st, fg, *old(e)));
    }
    let ghost e0 = *e;
    if reset {
        push_esc(out, 48);
        e.bold = false;
        e.italic = false;
        e.underlined = false;
        e.strikethrough = false;
        e.obfuscated = false;
        e.color = None;
    }
    let ghost e1 = *e;
    let ghost s1 = if reset {
        esc(48)
    } else {
        Seq::<u8>::empty()
    };
    proof {
        if !reset {
            assert(append_trunc(base, s1, cap) =~= base);
        }
        assert(out@ == append_trunc(base, s1, cap));
    }
    let ghost a1 = s1;
    if want(st.bold) && !e.bold {
        push_esc(out, 49);
        e.bold = true;
        proof {
            lemma_append_trunc_assoc(base, a1, esc(49), cap);
        }
    }
    let ghost s2 = if wants(st.bold) && !e1.bold {
        esc(49)
    } else {
        Seq::<u8>::empty()
    };
    let ghost a2 = a1 + s2;
    proof {
        if !(wants(st.bold) && !e1.bold) {
            assert(a2 =~= a1);
        }
        assert(out@ == append_trunc(base, a2, cap));
    }
    if want(st.italic) && !e.italic {
        push_esc(out, 51);
        e.italic = true;
        proof {
            lemma_append_trunc_assoc(base, a2, esc(51), cap);
        }
    }
    let ghost s3 = if wants(st.italic) && !e1.italic {
        esc(51)
    } else {
        Seq::<u8>::empty()
    };
    let ghost a3 = a2 + s3;
    proof {
        if !(wants(st.italic) && !e1.italic) {
            assert(a3 =~= a2);
        }
        assert(out@ == append_trunc(base, a3, cap));
    }
    if want(st.underlined) && !e.underlined {
        push_esc(out, 52);
        e.underlined = true;
        proof {
            lemma_append_trunc_assoc(base, a3, esc(52), cap);
        }
    }
    let ghost s4 = if wants(st.underlined) && !e1.underlined {
        esc(52)
    } else {
        Seq::<u8>::empty()
    };
    let ghost a4 = a3 + s4;
    proof {
        if !(wants(st.underlined) && !e1.underlined) {
            assert(a4 =~= a3);
        }
        assert(out@ == append_trunc(base, a4, cap));
    }
    if want(st.strikethrough) && !e.strikethrough {
        push_esc(out, 57);
        e.strikethrough = true;
        proof {
            lemma_append_trunc_assoc(base, a4, esc(57), cap);
        }
    }
    let ghost s5 = if wants(st.strikethrough) && !e1.strikethrough {
        esc(57)
    } else {
        Seq::<u8>::empty()
    };
    let ghost a5 = a4 + s5;
    proof {
        if !(wants(st.strikethrough) && !e1.strikethrough) {
            assert(a5 =~= a4);
        }
        assert(out@ == append_trunc(base, a5, cap));
    }
    if want(st.obfuscated) && !e.obfuscated {
        push_esc(out, 56);
        e.obfuscated = true;
        proof {
            lemma_append_trunc_assoc(base, a5, esc(56), cap);
        }
    }
    let ghost s6 = if wants(st.obfuscated) && !e1.obfuscated {
        esc(56)
    } else {
        Seq::<u8>::empty()
    };
    let ghost a6 = a5 + s6;
    proof {
        if !(wants(st.obfuscated) && !e1.obfuscated) {
            assert(a6 =~= a5);
        }
        assert(out@ == append_trunc(base, a6, cap));
    }
    if let Some(c) = fg {
        let update: bool = match e.color {
            Some(curr) => curr.r != c.r || curr.g != c.g || curr.b != c.b,
            None => true,
        };
        if update {
            push_color_esc(out, c);
            proof {
                lemma_append_trunc_assoc(base, a6, color_esc(c), cap);
            }
        }
        e.color = Some(c);
    }
    let ghost s7 = match fg {
        Some(c) => if e1.color != fg {
            color_esc(c)
        } else {
            Seq::<u8>::empty()
        },
        None => Seq::<u8>::empty(),
    };
    let ghost a7 = a6 + s7;
    proof {
        if s7 =~= Seq::<u8>::empty() {
            assert(a7 =~= a6);
        }
        assert(out@ == append_trunc(base, a7, cap));
    }
    out.push_u8(ch);
    proof {
        lemma_append_trunc_assoc(base, a7, seq![ch], cap);
        assert(char_bytes(*st, fg, e0, ch) == a7 + seq![ch]);
        assert(out@ == append_trunc(base, char_bytes(*st, fg, e0, ch), cap));
        assert(*e == emit_after(*st, fg, e0));
    }
}

} // verus!
