use minimessage::buffer::ConstStr;
use minimessage::cli::find_suggestion;
use minimessage::color::{resolve_color, Color};
use minimessage::phase::{hsv_to_rgb, lerp_u8};
use minimessage::rules::{line_is_blank, parse_clean, parse_detect, CleanMethod, DetectMethod};
use minimessage::size::human_size;
use minimessage::style::{Fill, Style};

#[test]
fn hex_resolution_with_and_without_hash() {
    assert_eq!(resolve_color(b"#FF00FF"), Some(Color::new(255, 0, 255)));
    assert_eq!(resolve_color(b"FF00FF"), Some(Color::new(255, 0, 255)));
    assert_eq!(resolve_color(b"ff00ff"), Some(Color::new(255, 0, 255)));
}

#[test]
fn name_resolution_is_case_insensitive() {
    assert_eq!(resolve_color(b"RED"), resolve_color(b"red"));
    assert_eq!(resolve_color(b"red"), Some(Color::new(255, 85, 85)));
}

#[test]
fn unknown_color_fails() {
    assert_eq!(resolve_color(b"not_a_color"), None);
    assert_eq!(resolve_color(b"#12345"), None);
    assert_eq!(resolve_color(b"12345G"), None);
}

#[test]
fn palette_names_resolve() {
    assert_eq!(resolve_color(b"black"), Some(Color::new(0, 0, 0)));
    assert_eq!(resolve_color(b"white"), Some(Color::new(255, 255, 255)));
    assert_eq!(resolve_color(b"gold"), Some(Color::new(255, 170, 0)));
    assert_eq!(resolve_color(b"dark_gray"), Some(Color::new(85, 85, 85)));
}

#[test]
fn lerp_endpoints_and_midpoint() {
    assert_eq!(lerp_u8(0, 255, 0), 0);
    assert_eq!(lerp_u8(0, 255, 512), 127);
    assert_eq!(lerp_u8(255, 0, 512), 128);
    assert_eq!(lerp_u8(10, 10, 700), 10);
}

#[test]
fn hsv_primary_sectors() {
    assert_eq!(hsv_to_rgb(0, 1024, 1024), Color::new(255, 0, 0));
    assert_eq!(hsv_to_rgb(512, 1024, 1024), Color::new(0, 255, 255));
    assert_eq!(hsv_to_rgb(1024, 1024, 1024), Color::new(255, 0, 0));
}

#[test]
fn const_str_truncates_silently() {
    let mut s = ConstStr::<3>::new();
    s.push_str("abcd");
    assert_eq!(s.as_bytes(), b"abc");
    s.push_u8(120);
    assert_eq!(s.as_bytes(), b"abc");
    s.clear();
    assert_eq!(s.len(), 0);
}

#[test]
fn const_str_decimal_bytes() {
    let mut s = ConstStr::<16>::new();
    s.push_u8n(205);
    s.push_u8(32);
    s.push_u8n(100);
    s.push_u8(32);
    s.push_u8n(7);
    assert_eq!(s.as_bytes(), b"205 100 7");
}

#[test]
fn const_str_u64_digits() {
    let mut s = ConstStr::<32>::new();
    s.push_u64(0);
    s.push_u8(32);
    s.push_u64(98765);
    assert_eq!(s.as_bytes(), b"0 98765");
}

#[test]
fn style_default_is_all_unset() {
    let s = Style::default();
    assert!(matches!(s.fill, Fill::Unset));
    assert_eq!(s.bold, None);
    assert_eq!(s.italic, None);
    assert_eq!(s.underlined, None);
    assert_eq!(s.strikethrough, None);
    assert_eq!(s.obfuscated, None);
}

#[test]
fn human_size_formats_units() {
    assert_eq!(human_size(0).as_bytes(), b"0 B");
    assert_eq!(human_size(123).as_bytes(), b"123 B");
    assert_eq!(human_size(1023).as_bytes(), b"1023 B");
    assert_eq!(human_size(1536).as_bytes(), b"1.50 KB");
    assert_eq!(human_size(1034).as_bytes(), b"1.00 KB");
    assert_eq!(human_size(1024 * 1024).as_bytes(), b"1.00 MB");
    assert_eq!(human_size(5 * 1024 * 1024 * 1024).as_bytes(), b"5.00 GB");
    assert_eq!(human_size(u64::MAX).as_bytes(), b"16777215.99 TB");
}

#[test]
fn suggestions_for_near_misses() {
    assert_eq!(find_suggestion("scna"), Some("scan"));
    assert_eq!(find_suggestion("clean"), Some("clean"));
    assert_eq!(find_suggestion("hepl"), Some("help"));
    assert_eq!(find_suggestion("sca"), Some("scan"));
}

#[test]
fn no_suggestion_when_everything_is_far() {
    assert_eq!(find_suggestion("xyzzy"), None);
    assert_eq!(find_suggestion("qqqqqqqq"), None);
}

#[test]
fn detect_lines_parse_by_selector() {
    match parse_detect(b"1cargo") {
        DetectMethod::Binary(s) => assert_eq!(s.as_bytes(), b"cargo"),
        _ => panic!("expected Binary"),
    }
    match parse_detect(b"2HOME") {
        DetectMethod::EnvVar(s) => assert_eq!(s.as_bytes(), b"HOME"),
        _ => panic!("expected EnvVar"),
    }
    match parse_detect(b"3~/.cache/foo") {
        DetectMethod::PathExists(s) => assert_eq!(s.as_bytes(), b"~/.cache/foo"),
        _ => panic!("expected PathExists"),
    }
    match parse_detect(b"") {
        DetectMethod::PathExists(s) => assert_eq!(s.as_bytes(), b""),
        _ => panic!("expected PathExists"),
    }
}

#[test]
fn clean_lines_parse_by_selector() {
    match parse_clean(b"1cargo;clean --all") {
        CleanMethod::RunCommand(cmd, args) => {
            assert_eq!(cmd.as_bytes(), b"cargo");
            assert_eq!(args.as_bytes(), b"clean --all");
        }
        _ => panic!("expected RunCommand"),
    }
    match parse_clean(b"1solo") {
        CleanMethod::RunCommand(cmd, args) => {
            assert_eq!(cmd.as_bytes(), b"solo");
            assert_eq!(args.as_bytes(), b"");
        }
        _ => panic!("expected RunCommand"),
    }
    match parse_clean(b"2~/.cache/foo") {
        CleanMethod::CleanPath(s) => assert_eq!(s.as_bytes(), b"~/.cache/foo"),
        _ => panic!("expected CleanPath"),
    }
}

#[test]
fn blank_lines_are_whitespace_only() {
    assert!(line_is_blank(b""));
    assert!(line_is_blank(b"  \t\r"));
    assert!(!line_is_blank(b" x "));
}
