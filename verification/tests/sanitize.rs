use playlist_audio::sanitize::{is_reserved_device_name, sanitize_component};
use playlist_audio::text::{char_is_control, char_is_whitespace, trim_str};

#[test]
fn passes_through_a_normal_title() {
    assert_eq!(sanitize_component("Late Night Drives"), "Late Night Drives");
}

#[test]
fn replaces_illegal_characters() {
    assert_eq!(sanitize_component("Songs / Mixes: 2024?"), "Songs _ Mixes_ 2024_");
}

#[test]
fn strips_control_characters() {
    assert_eq!(sanitize_component("Mix\u{0}\u{7}Tape"), "Mix__Tape");
}

#[test]
fn trims_trailing_dots_and_spaces() {
    assert_eq!(sanitize_component("Playlist.. "), "Playlist");
}

#[test]
fn a_lone_dot_dot_does_not_escape_the_directory() {
    assert_eq!(sanitize_component(".."), "Untitled");
    assert_eq!(sanitize_component("..."), "Untitled");
}

#[test]
fn embedded_slashes_cannot_add_path_segments() {
    assert_eq!(sanitize_component("../../etc"), ".._.._etc");
    assert!(!sanitize_component("../../etc").contains('/'));
}

#[test]
fn empty_and_whitespace_only_fall_back() {
    assert_eq!(sanitize_component(""), "Untitled");
    assert_eq!(sanitize_component("   "), "Untitled");
}

#[test]
fn reserved_device_names_are_escaped_case_insensitively() {
    assert_eq!(sanitize_component("CON"), "_CON");
    assert_eq!(sanitize_component("con"), "_con");
    assert_eq!(sanitize_component("nul"), "_nul");
    assert_eq!(sanitize_component("COM1"), "_COM1");
    assert_eq!(sanitize_component("NUL.txt"), "_NUL.txt");
}

#[test]
fn names_that_merely_contain_a_reserved_word_are_left_alone() {
    assert_eq!(sanitize_component("Console Sessions"), "Console Sessions");
    assert_eq!(sanitize_component("NULLABLE"), "NULLABLE");
}

#[test]
fn truncates_very_long_titles() {
    let long = "a".repeat(500);
    assert_eq!(sanitize_component(&long).chars().count(), 150);
}

#[test]
fn whitespace_class_agrees_with_std_on_every_char() {
    for u in 0u32..=0x10FFFF {
        if let Some(c) = char::from_u32(u) {
            assert_eq!(char_is_whitespace(c), c.is_whitespace(), "U+{u:04X}");
            assert_eq!(char_is_control(c), c.is_control(), "U+{u:04X}");
        }
    }
}

#[test]
fn trim_agrees_with_std() {
    for s in ["", "  a b  ", "\u{3000}x\u{85}", "\t\n", "x", " \u{a0}y\u{2029}"] {
        let expected: Vec<char> = s.trim().chars().collect();
        assert_eq!(trim_str(s), expected);
    }
}

#[test]
fn reserved_names_cover_com_and_lpt_digits_only() {
    for d in 1..=9 {
        assert!(is_reserved_device_name(&format!("COM{d}")));
        assert!(is_reserved_device_name(&format!("lpt{d}.log")));
    }
    assert!(!is_reserved_device_name("COM0"));
    assert!(!is_reserved_device_name("LPT10"));
    assert!(!is_reserved_device_name("CO"));
    assert!(!is_reserved_device_name(".CON"));
    assert!(is_reserved_device_name("aux."));
    assert!(is_reserved_device_name("PrN.a.b"));
}

#[test]
fn dots_and_spaces_are_trimmed_until_neither_ends_the_name() {
    assert_eq!(sanitize_component("a. ."), "a");
    assert_eq!(sanitize_component(".. .."), "Untitled");
    assert_eq!(sanitize_component(".. ."), "Untitled");
    assert_eq!(sanitize_component(" . . x . . "), ". . x");
}

#[test]
fn a_reserved_name_cut_to_length_is_still_escaped() {
    let long = format!("CON.{}", "x".repeat(200));
    let out = sanitize_component(&long);
    assert!(out.starts_with("_CON."));
    assert_eq!(out.chars().count(), 151);
}

#[test]
fn non_ascii_text_is_kept_and_counted_in_chars() {
    let long = "é".repeat(160);
    assert_eq!(sanitize_component(&long), "é".repeat(150));
    assert_eq!(sanitize_component("  Ünïcödé  "), "Ünïcödé");
}

#[test]
fn sanitized_components_hold_no_forbidden_character() {
    for input in ["a<b>c:d\"e/f\\g|h?i*j", "\u{1}\u{9f}x", "CON", "  LPT9.mp3 ", "......", "\u{3000}"] {
        let out = sanitize_component(input);
        let n = out.chars().count();
        assert!(n >= 1 && n <= 151);
        assert!(!out.chars().any(|c| "<>:\"/\\|?*".contains(c) || c.is_control()));
        assert!(!is_reserved_device_name(&out));
        assert!(!out.ends_with('.') && !out.ends_with(char::is_whitespace));
        assert!(!out.starts_with(char::is_whitespace));
        assert!(out != "." && out != "..");
    }
}

#[test]
fn the_end_is_trimmed_again_after_the_cut() {
    let out = sanitize_component(&format!("{} b", "a".repeat(149)));
    assert_eq!(out, "a".repeat(149));
    let out = sanitize_component(&format!("{}. .x", "a".repeat(147)));
    assert_eq!(out, "a".repeat(147));
    let out = sanitize_component(&format!("{}x", ".".repeat(150)));
    assert_eq!(out, "Untitled");
}
