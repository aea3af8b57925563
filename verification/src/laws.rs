//! Laws of the renderer, stated and proved against the specification
//! functions that the public contracts use.

use crate::color::Color;
use crate::emit::{
    char_bytes, emit_after, emit_init, fill_fg, needs_reset, reset_esc, sweep_bump, EmitState,
};
use crate::phase::{
    gradient_color_spec, lerp_spec, rainbow_hue, sweep_init, sweep_t, Sweep,
};
use crate::render::{find_gt, is_close, lemma_find_gt, render_from, render_spec, tag_stack, tag_sweep, tc, tc_skip, total_of};
use crate::style::{default_style, Fill, Style};
use vstd::arithmetic::div_mod::lemma_div_is_ordered;
use vstd::prelude::*;

verus! {

/// A character rendered under the root style with nothing active emits
/// no escapes: just the character, and the state does not move.
proof fn lemma_plain_char(ch: u8)
    ensures
        char_bytes(default_style(), fill_fg(default_style().fill, sweep_init()), emit_init(), ch)
            == seq![ch],
        emit_after(default_style(), fill_fg(default_style().fill, sweep_init()), emit_init())
            == emit_init(),
        sweep_bump(sweep_init()) == sweep_init(),
{
    assert(char_bytes(default_style(), None, emit_init(), ch) =~= seq![ch]);
}

/// Rendering a string without tags or escapes from position `i` under
/// the root state gives the string itself plus the trailing reset.
proof fn lemma_plain_from(input: Seq<u8>, i: int)
    requires
        0 <= i <= input.len(),
        forall|k: int| i <= k < input.len() ==> input[k] != 60 && input[k] != 92,
    ensures
        render_from(input, i, seq![default_style()], emit_init(), sweep_init()) == input.skip(i)
            + reset_esc(),
    decreases input.len() - i,
{
    let stack = seq![default_style()];
    if i >= input.len() {
        assert(input.skip(i) =~= Seq::<u8>::empty());
        assert(input.skip(i) + reset_esc() =~= reset_esc());
    } else {
        lemma_plain_char(input[i]);
        lemma_plain_from(input, i + 1);
        assert(stack.last() == default_style());
        assert(render_from(input, i, stack, emit_init(), sweep_init()) == seq![input[i]] + (
        input.skip(i + 1) + reset_esc()));
        assert(seq![input[i]] + (input.skip(i + 1) + reset_esc()) =~= input.skip(i) + reset_esc());
    }
}

/// A plain string with no tags renders as itself, with no escapes
/// except the one trailing reset.
pub proof fn lemma_plain_text(input: Seq<u8>)
    requires
        forall|k: int| 0 <= k < input.len() ==> input[k] != 60 && input[k] != 92,
    ensures
        render_spec(input) == input + reset_esc(),
{
    lemma_plain_from(input, 0);
    assert(input.skip(0) =~= input);
}

/// `s` ends with the four bytes of the full-reset escape.
pub open spec fn ends_with_reset(s: Seq<u8>) -> bool {
    s.len() >= 4 && s.skip(s.len() - 4) == reset_esc()
}

proof fn lemma_ends_with_reset_prepend(p: Seq<u8>, s: Seq<u8>)
    requires
        ends_with_reset(s),
    ensures
        ends_with_reset(p + s),
{
    assert((p + s).skip((p + s).len() - 4) =~= s.skip(s.len() - 4));
}

proof fn lemma_render_ends_with_reset(
    input: Seq<u8>,
    i: int,
    stack: Seq<Style>,
    e: EmitState,
    sw: Sweep,
)
    ensures
        ends_with_reset(render_from(input, i, stack, e, sw)),
    decreases input.len() - i,
{
    if i < 0 || i >= input.len() {
        assert(reset_esc().skip(0) =~= reset_esc());
    } else if input[i] == 92 {
        if i + 1 < input.len() {
            let st = stack.last();
            let fg = fill_fg(st.fill, sw);
            lemma_render_ends_with_reset(
                input,
                i + 2,
                stack,
                emit_after(st, fg, e),
                sweep_bump(sw),
            );
            lemma_ends_with_reset_prepend(
                char_bytes(st, fg, e, input[i + 1]),
                render_from(input, i + 2, stack, emit_after(st, fg, e), sweep_bump(sw)),
            );
        } else {
            lemma_render_ends_with_reset(input, i + 1, stack, e, sw);
        }
    } else if input[i] == 60 {
        match find_gt(input, i + 1) {
            Some(j) => {
                crate::render::lemma_find_gt(input, i + 1);
                let content = input.subrange(i + 1, j);
                lemma_render_ends_with_reset(
                    input,
                    j + 1,
                    tag_stack(content, stack),
                    e,
                    tag_sweep(input, content, j + 1, stack, sw),
                );
            },
            None => {
                lemma_render_ends_with_reset(input, i + 1, stack, e, sw);
            },
        }
    } else {
        let st = stack.last();
        let fg = fill_fg(st.fill, sw);
        lemma_render_ends_with_reset(input, i + 1, stack, emit_after(st, fg, e), sweep_bump(sw));
        lemma_ends_with_reset_prepend(
            char_bytes(st, fg, e, input[i]),
            render_from(input, i + 1, stack, emit_after(st, fg, e), sweep_bump(sw)),
        );
    }
}

/// Every render ends with exactly one trailing full reset: the reset is
/// the last four bytes of the output, whatever the input.
pub proof fn lemma_trailing_reset(input: Seq<u8>)
    ensures
        ends_with_reset(render_spec(input)),
{
    lemma_render_ends_with_reset(input, 0, seq![default_style()], emit_init(), sweep_init());
}

/// A close tag met while the stack is at the root is a no-op: the
/// render continues after its `>` with every piece of state unchanged.
pub proof fn lemma_close_at_root(input: Seq<u8>, i: int, j: int, e: EmitState, sw: Sweep)
    requires
        0 <= i < input.len(),
        input[i] == 60,
        find_gt(input, i + 1) == Some(j),
        is_close(input.subrange(i + 1, j)),
    ensures
        render_from(input, i, seq![default_style()], e, sw) == render_from(
            input,
            j + 1,
            seq![default_style()],
            e,
            sw,
        ),
{
    crate::render::lemma_find_gt(input, i + 1);
    let content = input.subrange(i + 1, j);
    assert(tag_stack(content, seq![default_style()]) == seq![default_style()]);
    assert(tag_sweep(input, content, j + 1, seq![default_style()], sw) == sw);
}

/// An open tag arriving with the stack at full depth changes nothing:
/// neither the stack nor the sweep.
pub proof fn lemma_push_past_depth(
    input: Seq<u8>,
    content: Seq<u8>,
    after: int,
    stack: Seq<Style>,
    sw: Sweep,
)
    requires
        !is_close(content),
        stack.len() == crate::render::MAX_DEPTH,
    ensures
        tag_stack(content, stack) == stack,
        tag_sweep(input, content, after, stack, sw) == sw,
{
}

/// A gradient whose two ends are the same color paints exactly like the
/// solid color, character for character, whenever a sweep is active.
pub proof fn lemma_degenerate_gradient(c: Color, phase: u32, sw: Sweep)
    requires
        sw.active,
    ensures
        fill_fg(Fill::Gradient { start: c, end: c, phase }, sw) == fill_fg(Fill::Solid(c), sw),
{
    reveal(gradient_color_spec);
    let t = sweep_t(sw.count as int, sw.total as int, phase as int);
    assert(lerp_spec(c.r, c.r, t) == c.r);
    assert(lerp_spec(c.g, c.g, t) == c.g);
    assert(lerp_spec(c.b, c.b, t) == c.b);
    assert(gradient_color_spec(c, c, phase as int, sw.count as int, sw.total as int) == c);
}

/// The rainbow hue at the first character of a sweep is exactly the
/// fill's phase.
pub proof fn lemma_rainbow_start(phase: int, total: int)
    requires
        total >= 1,
        0 <= phase < 1024,
    ensures
        rainbow_hue(phase, false, 0, total) == phase,
{
    assert(0int * 1024 / total == 0);
}

/// Before wrapping, the rainbow position never moves backwards: the
/// unwrapped step grows with the character index.
pub proof fn lemma_rainbow_monotone(k1: int, k2: int, total: int)
    requires
        0 <= k1 <= k2,
        total >= 1,
    ensures
        k1 * 1024 / total <= k2 * 1024 / total,
{
    assert(k1 * 1024 <= k2 * 1024) by (nonlinear_arith)
        requires
            0 <= k1 <= k2,
    ;
    lemma_div_is_ordered(k1 * 1024, k2 * 1024, total);
}

/// Diff suppression: once a character has been rendered, a second
/// character under the same style and the same resolved color emits no
/// escape at all — only the character — and the emitter state is a
/// fixed point.
pub proof fn lemma_diff_suppression(st: Style, fg: Option<Color>, e0: EmitState, ch: u8)
    requires
        fg is Some,
    ensures
        char_bytes(st, fg, emit_after(st, fg, e0), ch) == seq![ch],
        emit_after(st, fg, emit_after(st, fg, e0)) == emit_after(st, fg, e0),
{
    let e1 = emit_after(st, fg, e0);
    assert(!needs_reset(st, fg, e1));
    assert(char_bytes(st, fg, e1, ch) =~= seq![ch]);
}


/// An option position shifted right by `d`.
pub open spec fn shift_opt(o: Option<int>, d: int) -> Option<int> {
    match o {
        Some(j) => Some(j + d),
        None => None,
    }
}

/// Scanning for `>` in a suffix is blind to what stands before it.
proof fn lemma_find_gt_shift(a: Seq<u8>, b: Seq<u8>, i: int)
    requires
        0 <= i,
    ensures
        find_gt(a + b, a.len() + i) == shift_opt(find_gt(b, i), a.len() as int),
    decreases b.len() - i,
{
    let s = a + b;
    if i < b.len() {
        assert(s[a.len() + i] == b[i]);
        if b[i] != 62 {
            lemma_find_gt_shift(a, b, i + 1);
        }
    }
}

/// Counting renderable characters in a suffix is blind to what stands
/// before it.
proof fn lemma_tc_shift(a: Seq<u8>, b: Seq<u8>, i: int)
    requires
        0 <= i,
    ensures
        tc(a + b, a.len() + i) == tc(b, i),
    decreases b.len() - i, 1int,
{
    let s = a + b;
    if i < b.len() {
        assert(s[a.len() + i] == b[i]);
        if b[i] == 92 {
            if i + 2 <= b.len() {
                lemma_tc_shift(a, b, i + 2);
            }
        } else if b[i] == 60 {
            lemma_tc_skip_shift(a, b, i + 1);
        } else {
            lemma_tc_shift(a, b, i + 1);
        }
    }
}

proof fn lemma_tc_skip_shift(a: Seq<u8>, b: Seq<u8>, i: int)
    requires
        0 <= i,
    ensures
        tc_skip(a + b, a.len() + i) == tc_skip(b, i),
    decreases b.len() - i, 0int,
{
    let s = a + b;
    if i < b.len() {
        assert(s[a.len() + i] == b[i]);
        if b[i] == 62 {
            lemma_tc_shift(a, b, i + 1);
        } else {
            lemma_tc_skip_shift(a, b, i + 1);
        }
    }
}

/// Rendering a suffix is blind to what stands before it: position and
/// state alone drive the output.
proof fn lemma_render_shift(
    a: Seq<u8>,
    b: Seq<u8>,
    i: int,
    stack: Seq<Style>,
    e: EmitState,
    sw: Sweep,
)
    requires
        0 <= i,
        stack.len() >= 1,
    ensures
        render_from(a + b, a.len() + i, stack, e, sw) == render_from(b, i, stack, e, sw),
    decreases b.len() - i,
{
    let s = a + b;
    let d = a.len() as int;
    if i >= b.len() {
    } else if b[i] == 92 {
        assert(s[d + i] == b[i]);
        if i + 1 < b.len() {
            assert(s[d + i + 1] == b[i + 1]);
            let st = stack.last();
            let fg = fill_fg(st.fill, sw);
            lemma_render_shift(a, b, i + 2, stack, emit_after(st, fg, e), sweep_bump(sw));
        } else {
            lemma_render_shift(a, b, i + 1, stack, e, sw);
        }
    } else if b[i] == 60 {
        assert(s[d + i] == b[i]);
        lemma_find_gt_shift(a, b, i + 1);
        match find_gt(b, i + 1) {
            Some(j) => {
                lemma_find_gt(b, i + 1);
                assert(find_gt(s, d + i + 1) == Some(d + j));
                let content = b.subrange(i + 1, j);
                assert(s.subrange(d + i + 1, d + j) =~= content);
                lemma_tc_shift(a, b, j + 1);
                assert(total_of(s, d + j + 1) == total_of(b, j + 1));
                assert(tag_sweep(s, content, d + j + 1, stack, sw) == tag_sweep(
                    b,
                    content,
                    j + 1,
                    stack,
                    sw,
                ));
                assert(tag_stack(content, stack).len() >= 1);
                lemma_render_shift(
                    a,
                    b,
                    j + 1,
                    tag_stack(content, stack),
                    e,
                    tag_sweep(b, content, j + 1, stack, sw),
                );
            },
            None => {
                lemma_render_shift(a, b, i + 1, stack, e, sw);
            },
        }
    } else {
        assert(s[d + i] == b[i]);
        let st = stack.last();
        let fg = fill_fg(st.fill, sw);
        lemma_render_shift(a, b, i + 1, stack, emit_after(st, fg, e), sweep_bump(sw));
    }
}

/// `find_gt` finds `j` when `j` holds the first `>` at or after `i`.
proof fn lemma_find_gt_exact(s: Seq<u8>, i: int, j: int)
    requires
        0 <= i <= j < s.len(),
        s[j] == 62,
        forall|k: int| i <= k < j ==> s[k] != 62,
    ensures
        find_gt(s, i) == Some(j),
    decreases j - i,
{
    if i < j {
        lemma_find_gt_exact(s, i + 1, j);
    }
}

/// A single unmatched close tag in front of any input is a no-op: the
/// render of the whole equals the render of what follows the tag.
pub proof fn lemma_unmatched_close_dropped(content: Seq<u8>, rest: Seq<u8>)
    requires
        content.len() > 0,
        content[0] == 47,
        forall|k: int| 0 <= k < content.len() ==> content[k] != 62,
    ensures
        render_spec(seq![60u8] + content + seq![62u8] + rest) == render_spec(rest),
{
    let pre = seq![60u8] + content + seq![62u8];
    let input = pre + rest;
    let n = content.len() as int;
    assert(input[0] == 60);
    assert(input[n + 1] == 62);
    assert forall|k: int| 1 <= k < n + 1 implies input[k] != 62 by {
        assert(input[k] == content[k - 1]);
    }
    lemma_find_gt_exact(input, 1, n + 1);
    assert(input.subrange(1, n + 1) =~= content);
    lemma_close_at_root(input, 0, n + 1, emit_init(), sweep_init());
    assert(pre.len() == n + 2);
    lemma_render_shift(pre, rest, 0, seq![default_style()], emit_init(), sweep_init());
}

} // verus!
