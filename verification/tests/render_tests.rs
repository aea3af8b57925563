use minimessage::render::serialize;

fn render(input: &str) -> Vec<u8> {
    serialize::<512>(input).as_bytes().to_vec()
}

#[test]
fn plain_text_passes_through() {
    assert_eq!(render("hello"), b"hello\x1b[0m".to_vec());
}

#[test]
fn empty_input_gives_only_reset() {
    assert_eq!(render(""), b"\x1b[0m".to_vec());
}

#[test]
fn bold_pair_nets_single_reset() {
    assert_eq!(render("<b>hi</b>"), b"\x1b[1mhi\x1b[0m".to_vec());
}

#[test]
fn long_tag_names_match_short_ones() {
    assert_eq!(render("<bold>hi</bold>"), render("<b>hi</b>"));
    assert_eq!(render("<italic>hi</italic>"), render("<i>hi</i>"));
    assert_eq!(render("<underlined>hi</underlined>"), render("<u>hi</u>"));
}

#[test]
fn italic_and_underline_have_their_own_escapes() {
    assert_eq!(render("<i>x</i>"), b"\x1b[3mx\x1b[0m".to_vec());
    assert_eq!(render("<u>x</u>"), b"\x1b[4mx\x1b[0m".to_vec());
}

#[test]
fn tag_names_are_case_insensitive() {
    assert_eq!(render("<B>hi</B>"), render("<b>hi</b>"));
    assert_eq!(render("<RED>hi</RED>"), render("<red>hi</red>"));
}

#[test]
fn unmatched_close_tag_is_noop() {
    assert_eq!(render("</b>x"), render("x"));
}

#[test]
fn closing_downgrade_forces_reset() {
    assert_eq!(render("<b>a</b>b"), b"\x1b[1ma\x1b[0mb\x1b[0m".to_vec());
}

#[test]
fn deep_nesting_does_not_crash_and_closes_within_bound() {
    let mut input = String::new();
    for _ in 0..20 {
        input.push_str("<b>");
    }
    input.push('x');
    for _ in 0..20 {
        input.push_str("</b>");
    }
    input.push('y');
    assert_eq!(render(&input), b"\x1b[1mx\x1b[0my\x1b[0m".to_vec());
}

#[test]
fn unknown_tag_is_inert_scope() {
    assert_eq!(render("<foo>x</foo>"), b"x\x1b[0m".to_vec());
}

#[test]
fn unterminated_tag_drops_bracket_and_renders_rest() {
    assert_eq!(render("ab<cd"), b"abcd\x1b[0m".to_vec());
}

#[test]
fn escaped_bracket_is_literal() {
    assert_eq!(render("\\<x"), b"<x\x1b[0m".to_vec());
}

#[test]
fn escaped_backslash_is_literal() {
    assert_eq!(render("\\\\x"), b"\\x\x1b[0m".to_vec());
}

#[test]
fn trailing_lone_backslash_renders_nothing() {
    assert_eq!(render("ab\\"), b"ab\x1b[0m".to_vec());
}

#[test]
fn solid_color_emits_one_escape_for_a_run() {
    assert_eq!(
        render("<red>ab"),
        b"\x1b[38;2;255;85;85mab\x1b[0m".to_vec()
    );
}

#[test]
fn bold_then_color_nesting_orders_escapes() {
    assert_eq!(
        render("<b><red>x</red></b>"),
        b"\x1b[1m\x1b[38;2;255;85;85mx\x1b[0m".to_vec()
    );
}

#[test]
fn color_channels_print_full_decimals() {
    assert_eq!(
        render("<gradient:#FF0564:#FF0564>z"),
        b"\x1b[38;2;255;5;100mz\x1b[0m".to_vec()
    );
}

#[test]
fn degenerate_gradient_equals_solid() {
    assert_eq!(render("<gradient:0000FF:0000FF>xy"), render("<0000FF>xy"));
    assert_eq!(render("<gradient:red:red>abc"), render("<red>abc"));
}

#[test]
fn single_gradient_arg_is_used_for_both_ends() {
    assert_eq!(render("<gradient:red>x"), render("<red>x"));
}

#[test]
fn gradient_interpolates_between_ends() {
    assert_eq!(
        render("<gradient:black:white>ab"),
        b"\x1b[38;2;0;0;0ma\x1b[38;2;127;127;127mb\x1b[0m".to_vec()
    );
}

#[test]
fn gradient_without_args_runs_white_to_black() {
    assert_eq!(
        render("<gradient>ab"),
        b"\x1b[38;2;255;255;255ma\x1b[38;2;128;128;128mb\x1b[0m".to_vec()
    );
}

#[test]
fn rainbow_hue_starts_at_zero_and_advances() {
    assert_eq!(
        render("<rainbow>ab"),
        b"\x1b[38;2;255;0;0ma\x1b[38;2;0;255;255mb\x1b[0m".to_vec()
    );
}

#[test]
fn output_never_exceeds_capacity() {
    let out = serialize::<4>("hello");
    assert_eq!(out.as_bytes(), b"hell");
    let out = serialize::<0>("hello");
    assert_eq!(out.as_bytes(), b"");
    let out = serialize::<512>("<rainbow>some longer text");
    assert!(out.len() <= 512);
}

#[test]
fn truncation_keeps_earlier_bytes_intact() {
    let full = serialize::<512>("<b>hello</b>");
    let cut = serialize::<6>("<b>hello</b>");
    assert_eq!(cut.as_bytes(), &full.as_bytes()[..6]);
}

#[test]
fn leaving_color_scope_resets_before_plain_text() {
    assert_eq!(
        render("<red>a</red>b"),
        b"\x1b[38;2;255;85;85ma\x1b[0mb\x1b[0m".to_vec()
    );
}
