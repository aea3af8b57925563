//! The tag parser, style stack and top-level renderer.
//!
//! `serialize` scans the input bytes once, left to right.  A backslash
//! renders the next byte literally; `<...>` opens or closes a style
//! scope on a bounded stack (depth 16, root included); any other byte is
//! rendered under the current top-of-stack style.  The whole pass is
//! specified by the recursive function `render_from`, and `serialize`
//! returns exactly that byte string, cut down to the caller's capacity.
//!
//! Processing is byte-oriented: each raw byte is one renderable unit
//! for styling and sweep pacing, so multi-byte encoded characters are
//! stepped through byte by byte.  Content is expected to be ASCII.

use crate::buffer::{trunc, lemma_trunc_step, ConstStr};
use crate::color::{eq_ignore_case, ieq, resolve_color, resolve_spec, Color};
use crate::emit::{
    char_bytes, emit_after, emit_init, fill_fg, render_one, push_esc, reset_esc, sweep_bump,
    EmitState,
};
use crate::phase::{sweep_init, Sweep};
use crate::style::{default_style, Fill, Style};
use vstd::prelude::*;
use vstd::slice::slice_subrange;
use vstd::string::StringSliceAdditionalSpecFns;

verus! {

/// The deepest the style stack grows, the implicit root included.
/// An open tag arriving at full depth is dropped without a slot.
pub const MAX_DEPTH: usize = 16;

/// The position of the first `>` at or after `i`, if any.
pub open spec fn find_gt(s: Seq<u8>, i: int) -> Option<int>
    decreases s.len() - i,
{
    if i < 0 || i >= s.len() {
        None
    } else if s[i] == 62 {
        Some(i)
    } else {
        find_gt(s, i + 1)
    }
}

/// `find_gt` returns an in-range position holding `>`.
pub proof fn lemma_find_gt(s: Seq<u8>, i: int)
    ensures
        match find_gt(s, i) {
            Some(j) => i <= j < s.len() && s[j] == 62,
            None => true,
        },
    decreases s.len() - i,
{
    if 0 <= i && i < s.len() && s[i] != 62 {
        lemma_find_gt(s, i + 1);
    }
}

/// The position of the first `:` at or after `i`, or the length.
pub open spec fn first_colon(s: Seq<u8>, i: int) -> int
    decreases s.len() - i,
{
    if i < 0 || i >= s.len() {
        s.len() as int
    } else if s[i] == 58 {
        i
    } else {
        first_colon(s, i + 1)
    }
}

/// The renderable character count from position `i` on: tags count for
/// nothing, a backslash pair counts for one, anything else for one.
pub open spec fn tc(s: Seq<u8>, i: int) -> nat
    decreases s.len() - i, 1int,
{
    if i < 0 || i >= s.len() {
        0
    } else if s[i] == 92 {
        if i + 2 <= s.len() {
            1 + tc(s, i + 2)
        } else {
            1
        }
    } else if s[i] == 60 {
        tc_skip(s, i + 1)
    } else {
        1 + tc(s, i + 1)
    }
}

/// Helper of `tc`: inside a tag, skip up to and over the closing `>`.
pub open spec fn tc_skip(s: Seq<u8>, i: int) -> nat
    decreases s.len() - i, 0int,
{
    if i < 0 || i >= s.len() {
        0
    } else if s[i] == 62 {
        tc(s, i + 1)
    } else {
        tc_skip(s, i + 1)
    }
}

/// A tag is a close tag when its content starts with `/`.
pub open spec fn is_close(content: Seq<u8>) -> bool {
    content.len() > 0 && content[0] == 47
}

/// The name part of an open tag: everything before the first `:`.
pub open spec fn tag_name(content: Seq<u8>) -> Seq<u8> {
    content.take(first_colon(content, 0))
}

/// The argument part of an open tag: everything after the first `:`,
/// empty when there is none.
pub open spec fn tag_args(content: Seq<u8>) -> Seq<u8> {
    let k = first_colon(content, 0);
    if k < content.len() {
        content.skip(k + 1)
    } else {
        Seq::<u8>::empty()
    }
}

/// Whether an open tag starts a sweep: `rainbow` or `gradient`.
pub open spec fn opens_sweep(content: Seq<u8>) -> bool {
    ieq(tag_name(content), seq![114u8, 97u8, 105u8, 110u8, 98u8, 111u8, 119u8]) || ieq(
        tag_name(content),
        seq![103u8, 114u8, 97u8, 100u8, 105u8, 101u8, 110u8, 116u8],
    )
}

/// The gradient fill parsed from tag arguments.  Two colon-separated
/// color expressions; unresolved halves default to white (start) and
/// black (end).  A single expression is used for both ends; empty or
/// unresolved arguments give white to black.
pub open spec fn gradient_fill(args: Seq<u8>) -> Fill {
    if args.len() == 0 {
        Fill::Gradient {
            start: Color { r: 255, g: 255, b: 255 },
            end: Color { r: 0, g: 0, b: 0 },
            phase: 0,
        }
    } else {
        let k = first_colon(args, 0);
        if k < args.len() {
            let c1 = match resolve_spec(args.take(k)) {
                Some(c) => c,
                None => Color { r: 255, g: 255, b: 255 },
            };
            let c2 = match resolve_spec(args.skip(k + 1)) {
                Some(c) => c,
                None => Color { r: 0, g: 0, b: 0 },
            };
            Fill::Gradient { start: c1, end: c2, phase: 0 }
        } else {
            match resolve_spec(args) {
                Some(c) => Fill::Gradient { start: c, end: c, phase: 0 },
                None => Fill::Gradient {
                    start: Color { r: 255, g: 255, b: 255 },
                    end: Color { r: 0, g: 0, b: 0 },
                    phase: 0,
                },
            }
        }
    }
}

/// The style an open tag pushes: a copy of the parent with the tag's
/// effect applied.  Unrecognized names push the parent unchanged, an
/// inert scope that still nests and closes.
pub open spec fn apply_open_style(content: Seq<u8>, parent: Style) -> Style {
    let name = tag_name(content);
    if ieq(name, seq![98u8]) || ieq(name, seq![98u8, 111u8, 108u8, 100u8]) {
        Style { bold: Some(true), ..parent }
    } else if ieq(name, seq![105u8]) || ieq(
        name,
        seq![105u8, 116u8, 97u8, 108u8, 105u8, 99u8],
    ) {
        Style { italic: Some(true), ..parent }
    } else if ieq(name, seq![117u8]) || ieq(
        name,
        seq![117u8, 110u8, 100u8, 101u8, 114u8, 108u8, 105u8, 110u8, 101u8, 100u8],
    ) {
        Style { underlined: Some(true), ..parent }
    } else if ieq(name, seq![114u8, 97u8, 105u8, 110u8, 98u8, 111u8, 119u8]) {
        Style { fill: Fill::Rainbow { phase: 0, reverse: false }, ..parent }
    } else if ieq(name, seq![103u8, 114u8, 97u8, 100u8, 105u8, 101u8, 110u8, 116u8]) {
        Style { fill: gradient_fill(tag_args(content)), ..parent }
    } else {
        match resolve_spec(name) {
            Some(c) => Style { fill: Fill::Solid(c), ..parent },
            None => parent,
        }
    }
}

/// The style stack after one tag: a close tag pops (no-op at the root),
/// an open tag pushes its derived style (dropped at full depth).
pub open spec fn tag_stack(content: Seq<u8>, stack: Seq<Style>) -> Seq<Style> {
    if is_close(content) {
        if stack.len() > 1 {
            stack.drop_last()
        } else {
            stack
        }
    } else {
        if stack.len() < MAX_DEPTH {
            stack.push(apply_open_style(content, stack.last()))
        } else {
            stack
        }
    }
}

/// The sweep total measured at activation: the renderable character
/// count of the input after the tag, coerced to at least 1.
pub open spec fn total_of(input: Seq<u8>, after: int) -> usize {
    if tc(input, after) == 0 {
        1usize
    } else {
        tc(input, after) as usize
    }
}

/// The sweep context after one tag.  A pop below the activation depth
/// deactivates; a `rainbow` or `gradient` open activates if no sweep is
/// already active, measuring the remaining text once.  Tags dropped at
/// full depth change nothing.
pub open spec fn tag_sweep(
    input: Seq<u8>,
    content: Seq<u8>,
    after: int,
    stack: Seq<Style>,
    sw: Sweep,
) -> Sweep {
    if is_close(content) {
        if stack.len() > 1 && sw.active && stack.len() - 2 < sw.depth {
            Sweep { active: false, ..sw }
        } else {
            sw
        }
    } else {
        if stack.len() < MAX_DEPTH && opens_sweep(content) && !sw.active {
            Sweep {
                active: true,
                depth: stack.len() as usize,
                count: 0,
                total: total_of(input, after),
            }
        } else {
            sw
        }
    }
}

/// The bytes the renderer emits from position `i` to the end of the
/// input, given the current stack, emitter and sweep state; the final
/// full reset included.
pub open spec fn render_from(
    input: Seq<u8>,
    i: int,
    stack: Seq<Style>,
    e: EmitState,
    sw: Sweep,
) -> Seq<u8>
    decreases input.len() - i,
    via render_from_decreases
{
    if i < 0 || i >= input.len() {
        reset_esc()
    } else if input[i] == 92 {
        if i + 1 < input.len() {
            let st = stack.last();
            let fg = fill_fg(st.fill, sw);
            char_bytes(st, fg, e, input[i + 1]) + render_from(
                input,
                i + 2,
                stack,
                emit_after(st, fg, e),
                sweep_bump(sw),
            )
        } else {
            render_from(input, i + 1, stack, e, sw)
        }
    } else if input[i] == 60 {
        match find_gt(input, i + 1) {
            Some(j) => {
                let content = input.subrange(i + 1, j);
                render_from(
                    input,
                    j + 1,
                    tag_stack(content, stack),
                    e,
                    tag_sweep(input, content, j + 1, stack, sw),
                )
            },
            None => render_from(input, i + 1, stack, e, sw),
        }
    } else {
        let st = stack.last();
        let fg = fill_fg(st.fill, sw);
        char_bytes(st, fg, e, input[i]) + render_from(
            input,
            i + 1,
            stack,
            emit_after(st, fg, e),
            sweep_bump(sw),
        )
    }
}

#[via_fn]
proof fn render_from_decreases(input: Seq<u8>, i: int, stack: Seq<Style>, e: EmitState, sw: Sweep) {
    if 0 <= i && i < input.len() && input[i] == 60 {
        lemma_find_gt(input, i + 1);
    }
}

/// Everything `serialize` emits for `input`, before truncation: the
/// render of the whole input from the root style with nothing active.
pub open spec fn render_spec(input: Seq<u8>) -> Seq<u8> {
    render_from(input, 0, seq![default_style()], emit_init(), sweep_init())
}

/// The position of the first `>` at or after `from`, if any.
fn scan_gt(s: &[u8], from: usize) -> (r: Option<usize>)
    requires
        from <= s@.len(),
    ensures
        match r {
            Some(j) => find_gt(s@, from as int) == Some(j as int) && from <= j < s@.len(),
            None => find_gt(s@, from as int) is None,
        },
{
    let mut i: usize = from;
    while i < s.len()
        invariant
            from <= i <= s@.len(),
            find_gt(s@, from as int) == find_gt(s@, i as int),
        decreases s@.len() - i,
    {
        if s[i] == 62 {
            return Some(i);
        }
        i = i + 1;
    }
    None
}

/// The position of the first `:` in `s`, or its length.
fn find_colon(s: &[u8]) -> (k: usize)
    ensures
        k as int == first_colon(s@, 0),
        k <= s@.len(),
{
    let mut i: usize = 0;
    while i < s.len()
        invariant
            i <= s@.len(),
            first_colon(s@, 0) == first_colon(s@, i as int),
        decreases s@.len() - i,
    {
        if s[i] == 58 {
            return i;
        }
        i = i + 1;
    }
    i
}

/// Count the renderable characters of `s` from position `from` on:
/// tag bytes count for nothing and a backslash pair counts for one.
pub fn count_text_content(s: &[u8], from: usize) -> (n: usize)
    requires
        from <= s@.len(),
    ensures
        n as nat == tc(s@, from as int),
{
    let mut count: usize = 0;
    let mut i: usize = from;
    while i < s.len()
        invariant
            from <= i <= s@.len(),
            count <= i - from,
            count + tc(s@, i as int) == tc(s@, from as int),
        decreases s@.len() - i,
    {
        if s[i] == 92 {
            proof {
                assert(tc(s@, i as int) == if i + 2 <= s@.len() {
                    1 + tc(s@, i + 2)
                } else {
                    1nat
                });
            }
            count = count + 1;
            i = i + 1;
            if i < s.len() {
                i = i + 1;
            }
        } else if s[i] == 60 {
            let ghost start = i as int;
            proof {
                assert(tc(s@, start) == tc_skip(s@, start + 1));
            }
            i = i + 1;
            while i < s.len() && s[i] != 62
                invariant
                    start + 1 <= i <= s@.len(),
                    tc_skip(s@, start + 1) == tc_skip(s@, i as int),
                decreases s@.len() - i,
            {
                i = i + 1;
            }
            if i < s.len() {
                proof {
                    assert(tc_skip(s@, i as int) == tc(s@, i + 1));
                }
                i = i + 1;
            }
        } else {
            proof {
                assert(tc(s@, i as int) == 1 + tc(s@, i + 1));
            }
            count = count + 1;
            i = i + 1;
        }
    }
    count
}

/// Apply one complete tag (content between `cstart` and the `>` at
/// `cend`) to the style stack and the sweep context.
fn apply_tag(input: &[u8], cstart: usize, cend: usize, stack: &mut Vec<Style>, sw: &mut Sweep)
    requires
        cstart <= cend < input@.len(),
        1 <= old(stack)@.len() <= 16,
        old(sw).total >= 1,
    ensures
        final(stack)@ == tag_stack(input@.subrange(cstart as int, cend as int), old(stack)@),
        *final(sw) == tag_sweep(
            input@,
            input@.subrange(cstart as int, cend as int),
            cend + 1,
            old(stack)@,
            *old(sw),
        ),
        1 <= final(stack)@.len() <= 16,
        final(sw).total >= 1,
{
    let content = slice_subrange(input, cstart, cend);
    if content.len() > 0 && content[0] == 47 {
        if stack.len() > 1 {
            let _ = stack.pop();
            proof {
                assert(stack@ =~= old(stack)@.drop_last());
            }
            if sw.active && stack.len() - 1 < sw.depth {
                sw.active = false;
            }
        }
    } else {
        if stack.len() < MAX_DEPTH {
            let top: Style = stack[stack.len() - 1];
            let mut new_style = top;
            let k = find_colon(content);
            let name = slice_subrange(content, 0, k);
            proof {
                assert(name@ == tag_name(content@));
            }
            let lit_b: [u8; 1] = [98];
            let lit_bold: [u8; 4] = [98, 111, 108, 100];
            let lit_i: [u8; 1] = [105];
            let lit_italic: [u8; 6] = [105, 116, 97, 108, 105, 99];
            let lit_u: [u8; 1] = [117];
            let lit_underlined: [u8; 10] = [117, 110, 100, 101, 114, 108, 105, 110, 101, 100];
            let lit_rainbow: [u8; 7] = [114, 97, 105, 110, 98, 111, 119];
            let lit_gradient: [u8; 8] = [103, 114, 97, 100, 105, 101, 110, 116];
            if eq_ignore_case(name, lit_b.as_slice()) || eq_ignore_case(
                name,
                lit_bold.as_slice(),
            ) {
                new_style.bold = Some(true);
            } else if eq_ignore_case(name, lit_i.as_slice()) || eq_ignore_case(
                name,
                lit_italic.as_slice(),
            ) {
                new_style.italic = Some(true);
            } else if eq_ignore_case(name, lit_u.as_slice()) || eq_ignore_case(
                name,
                lit_underlined.as_slice(),
            ) {
                new_style.underlined = Some(true);
            } else if eq_ignore_case(name, lit_rainbow.as_slice()) {
                new_style.fill = Fill::Rainbow { phase: 0, reverse: false };
                activate_sweep(input, cend, stack.len(), sw);
            } else if eq_ignore_case(name, lit_gradient.as_slice()) {
                let args = if k < content.len() {
                    slice_subrange(content, k + 1, content.len())
                } else {
                    slice_subrange(content, content.len(), content.len())
                };
                proof {
                    assert(args@ == tag_args(content@));
                }
                new_style.fill = gradient_from_args(args);
                activate_sweep(input, cend, stack.len(), sw);
            } else {
                match resolve_color(name) {
                    Some(col) => {
                        new_style.fill = Fill::Solid(col);
                    },
                    None => {},
                }
            }
            stack.push(new_style);
            proof {
                assert(new_style == apply_open_style(
                    input@.subrange(cstart as int, cend as int),
                    old(stack)@.last(),
                ));
            }
        }
    }
}

/// Start a sweep at the current depth unless one is already running:
/// measure the remaining text once and reset the character count.
fn activate_sweep(input: &[u8], cend: usize, depth: usize, sw: &mut Sweep)
    requires
        cend < input@.len(),
        old(sw).total >= 1,
    ensures
        *final(sw) == (if old(sw).active {
            *old(sw)
        } else {
            Sweep { active: true, depth, count: 0, total: total_of(input@, cend + 1) }
        }),
        final(sw).total >= 1,
{
    if !sw.active {
        let ilen = input.len();
        proof {
            assert(cend + 1 <= ilen);
        }
        sw.active = true;
        sw.depth = depth;
        sw.count = 0;
        let t = count_text_content(input, cend + 1);
        sw.total = if t == 0 {
            1
        } else {
            t
        };
    }
}

/// Parse gradient arguments into the gradient fill they describe.
fn gradient_from_args(args: &[u8]) -> (f: Fill)
    ensures
        f == gradient_fill(args@),
{
    if args.len() == 0 {
        Fill::Gradient { start: Color::new(255, 255, 255), end: Color::new(0, 0, 0), phase: 0 }
    } else {
        let k2 = find_colon(args);
        if k2 < args.len() {
            let s1 = slice_subrange(args, 0, k2);
            let s2 = slice_subrange(args, k2 + 1, args.len());
            proof {
                assert(s1@ == args@.take(k2 as int));
                assert(s2@ == args@.skip(k2 + 1));
            }
            let c1 = match resolve_color(s1) {
                Some(c) => c,
                None => Color::new(255, 255, 255),
            };
            let c2 = match resolve_color(s2) {
                Some(c) => c,
                None => Color::new(0, 0, 0),
            };
            Fill::Gradient { start: c1, end: c2, phase: 0 }
        } else {
            match resolve_color(args) {
                Some(c) => Fill::Gradient { start: c, end: c, phase: 0 },
                None => Fill::Gradient {
                    start: Color::new(255, 255, 255),
                    end: Color::new(0, 0, 0),
                    phase: 0,
                },
            }
        }
    }
}

/// Render `input` into a buffer of capacity `CAP`: the markup applied,
/// escapes diffed against the emitter state, one trailing full reset,
/// and everything past the capacity silently dropped.
pub fn serialize<const CAP: usize>(input: &str) -> (out: ConstStr<CAP>)
    ensures
        out@ == trunc(render_spec(input.spec_bytes()), CAP as int),
        out@.len() <= CAP,
{
    let bytes: &[u8] = input.as_bytes();
    let mut out: ConstStr<CAP> = ConstStr::new();
    let mut stack: Vec<Style> = Vec::new();
    stack.push(Style::default());
    let mut emit = EmitState {
        bold: false,
        italic: false,
        underlined: false,
        strikethrough: false,
        obfuscated: false,
        color: None,
    };
    let mut sweep = Sweep { active: false, depth: 0, count: 0, total: 1 };
    let ghost full = render_spec(bytes@);
    let ghost mut emitted = Seq::<u8>::empty();
    let mut idx: usize = 0;
    proof {
        assert(stack@ =~= seq![default_style()]);
        assert(emit == emit_init());
        assert(sweep == sweep_init());
        assert(out@ =~= trunc(emitted, CAP as int));
        assert(emitted + render_from(bytes@, 0, stack@, emit, sweep) =~= full);
    }
    while idx < bytes.len()
        invariant
            idx <= bytes@.len(),
            1 <= stack@.len() <= 16,
            sweep.total >= 1,
            sweep.count <= idx,
            out@ == trunc(emitted, CAP as int),
            full == emitted + render_from(bytes@, idx as int, stack@, emit, sweep),
        decreases bytes@.len() - idx,
    {
        let ghost i0 = idx as int;
        let b = bytes[idx];
        if b == 92 {
            if idx + 1 < bytes.len() {
                idx = idx + 1;
                let ch = bytes[idx];
                let top: Style = stack[stack.len() - 1];
                let ghost pre_emit = emit;
                let ghost pre_sweep = sweep;
                proof {
                    assert(top == stack@.last());
                }
                render_one(&mut out, &top, &mut emit, &mut sweep, ch);
                proof {
                    let cb = char_bytes(top, fill_fg(top.fill, pre_sweep), pre_emit, ch);
                    lemma_trunc_step(emitted, cb, CAP as int);
                    assert(render_from(bytes@, i0, stack@, pre_emit, pre_sweep) == cb
                        + render_from(bytes@, i0 + 2, stack@, emit, sweep));
                    emitted = emitted + cb;
                    assert(full == emitted + render_from(bytes@, i0 + 2, stack@, emit, sweep));
                }
                idx = idx + 1;
            } else {
                proof {
                    assert(render_from(bytes@, i0, stack@, emit, sweep) == render_from(
                        bytes@,
                        i0 + 1,
                        stack@,
                        emit,
                        sweep,
                    ));
                }
                idx = idx + 1;
            }
        } else if b == 60 {
            match scan_gt(bytes, idx + 1) {
                Some(j) => {
                    let ghost pre_stack = stack@;
                    let ghost pre_sweep = sweep;
                    apply_tag(bytes, idx + 1, j, &mut stack, &mut sweep);
                    proof {
                        let content = bytes@.subrange(i0 + 1, j as int);
                        assert(render_from(bytes@, i0, pre_stack, emit, pre_sweep) == render_from(
                            bytes@,
                            j + 1,
                            tag_stack(content, pre_stack),
                            emit,
                            tag_sweep(bytes@, content, j + 1, pre_stack, pre_sweep),
                        ));
                        assert(full == emitted + render_from(bytes@, j + 1, stack@, emit, sweep));
                    }
                    idx = j + 1;
                },
                None => {
                    proof {
                        assert(render_from(bytes@, i0, stack@, emit, sweep) == render_from(
                            bytes@,
                            i0 + 1,
                            stack@,
                            emit,
                            sweep,
                        ));
                    }
                    idx = idx + 1;
                },
            }
        } else {
            let top: Style = stack[stack.len() - 1];
            let ghost pre_emit = emit;
            let ghost pre_sweep = sweep;
            proof {
                assert(top == stack@.last());
            }
            render_one(&mut out, &top, &mut emit, &mut sweep, b);
            proof {
                let cb = char_bytes(top, fill_fg(top.fill, pre_sweep), pre_emit, b);
                lemma_trunc_step(emitted, cb, CAP as int);
                assert(render_from(bytes@, i0, stack@, pre_emit, pre_sweep) == cb + render_from(
                    bytes@,
                    i0 + 1,
                    stack@,
                    emit,
                    sweep,
                ));
                emitted = emitted + cb;
                assert(full == emitted + render_from(bytes@, i0 + 1, stack@, emit, sweep));
            }
            idx = idx + 1;
        }
    }
    proof {
        assert(render_from(bytes@, idx as int, stack@, emit, sweep) == reset_esc());
    }
    push_esc(&mut out, 48);
    proof {
        lemma_trunc_step(emitted, reset_esc(), CAP as int);
        assert(out@ == trunc(emitted + reset_esc(), CAP as int));
        assert(full == emitted + reset_esc());
    }
    out
}

} // verus!
