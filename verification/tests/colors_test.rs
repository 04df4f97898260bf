use hi::colors::{
    color_by_exact_name, color_computable, color_names, color_sequence, draw_bar,
    parse_decimal_rgb, parse_hex_rgb, rgb, COLOR_RESET,
};

#[test]
fn rgb_named_color_in_256_mode() {
    assert_eq!(rgb("red", 256).unwrap(), vec![0xbf, 0x79, 0x79]);
}

#[test]
fn rgb_name_in_any_letter_case() {
    assert_eq!(rgb("RED", 256).unwrap(), vec![0xbf, 0x79, 0x79]);
    assert_eq!(rgb("Bright_White", 256).unwrap(), vec![0xff, 0xff, 0xff]);
}

#[test]
fn color_names_lists_all_colors() {
    assert_eq!(
        color_names(),
        "black,bright_black,red,bright_red,green,bright_green,yellow,bright_yellow,blue,bright_blue,magenta,bright_magenta,cyan,bright_cyan,white,bright_white,grey"
    );
}

#[test]
fn rgb_written_forms_of_green() {
    assert_eq!(rgb("0,255,0", 256).unwrap(), vec![0, 255, 0]);
    assert_eq!(rgb("0:ff:0", 256).unwrap(), vec![0, 255, 0]);
    assert_eq!(rgb("00ff00", 256).unwrap(), vec![0, 255, 0]);
    assert_eq!(rgb("0f0", 256).unwrap(), vec![0, 255, 0]);
}

#[test]
fn rgb_upper_case_hex() {
    assert_eq!(rgb("ABC", 256).unwrap(), vec![0xaa, 0xbb, 0xcc]);
    assert_eq!(rgb("A0:B:C", 256).unwrap(), vec![0xa0, 0x0b, 0x0c]);
}

#[test]
fn rgb_plus_signs_are_accepted() {
    assert_eq!(rgb("+1,+2,+3", 256).unwrap(), vec![1, 2, 3]);
}

#[test]
fn rgb_gradient_of_names() {
    assert_eq!(
        rgb("white-blue", 256).unwrap(),
        vec![0xde, 0xde, 0xde, 0x86, 0xa2, 0xbe]
    );
}

#[test]
fn rgb_gradient_of_short_hex() {
    assert_eq!(rgb("fff-00f", 256).unwrap(), vec![255, 255, 255, 0, 0, 255]);
}

#[test]
fn rgb_gradient_keeps_start_in_sixteen_colours() {
    assert_eq!(rgb("red-blue", 16).unwrap(), vec![31]);
}

#[test]
fn rgb_sixteen_colour_codes() {
    assert_eq!(rgb("red", 16).unwrap(), vec![31]);
    assert_eq!(rgb("grey", 16).unwrap(), vec![90]);
    assert_eq!(rgb("bright_white", 16).unwrap(), vec![97]);
    assert_eq!(rgb("0,255,0", 16).unwrap(), vec![30]);
    assert_eq!(rgb("ff0000", 1).unwrap(), vec![35]);
}

#[test]
fn rgb_unknown_name_is_an_error() {
    assert_eq!(rgb("xyz", 256).unwrap_err(), "invalid color xyz");
}

#[test]
fn rgb_gradient_with_bad_end_is_an_error() {
    assert_eq!(rgb("red-xyz", 256).unwrap_err(), "invalid color xyz");
    assert_eq!(rgb("red-", 256).unwrap_err(), "invalid color ");
}

#[test]
fn rgb_out_of_range_component_is_an_error() {
    assert_eq!(rgb("256,0,0", 256).unwrap_err(), "invalid color 256,0,0");
    assert_eq!(rgb("1,2", 256).unwrap_err(), "invalid color 1,2");
}

#[test]
fn rgb_non_ascii_specs_are_invalid_colors() {
    assert_eq!(rgb("aé123", 256).unwrap_err(), "invalid color aé123");
    assert_eq!(rgb("ffxé1", 256).unwrap_err(), "invalid color ffxé1");
    assert_eq!(rgb("aé", 16).unwrap_err(), "invalid color aé");
    assert_eq!(rgb("xxé", 256).unwrap_err(), "invalid color xxé");
    assert_eq!(rgb("red-aé123", 256).unwrap_err(), "invalid color aé123");
}

#[test]
fn parse_hex_rgb_short_and_long_forms() {
    assert_eq!(parse_hex_rgb("abc"), Some((170, 187, 204)));
    assert_eq!(parse_hex_rgb("aabbcc"), Some((170, 187, 204)));
    assert_eq!(parse_hex_rgb("abcd"), None);
    assert_eq!(parse_hex_rgb("abg"), None);
    assert_eq!(parse_hex_rgb("aé1"), None);
}

#[test]
fn parse_decimal_rgb_forms() {
    assert_eq!(parse_decimal_rgb("1,2,3"), Some((1, 2, 3)));
    assert_eq!(parse_decimal_rgb("a:b:c"), Some((10, 11, 12)));
    assert_eq!(parse_decimal_rgb("1,2,x"), None);
    assert_eq!(parse_decimal_rgb("abc"), None);
}

#[test]
fn color_by_exact_name_lookups() {
    assert_eq!(color_by_exact_name("red"), Some((0xbf, 0x79, 0x79)));
    assert_eq!(color_by_exact_name("RED"), None);
    assert_eq!(color_by_exact_name("grey"), Some((0x82, 0x82, 0x82)));
}

#[test]
fn color_sequence_in_256_mode() {
    assert_eq!(
        color_sequence(&vec![0xbf, 0x79, 0x79], &None, 256),
        "\x1b[38;5;174m"
    );
    assert_eq!(
        color_sequence(&vec![0xbf, 0x79, 0x79], &Some(vec![0, 0, 0]), 256),
        "\x1b[38;5;174m\x1b[48;5;16m"
    );
}

#[test]
fn color_sequence_in_sixteen_colours() {
    assert_eq!(color_sequence(&vec![31], &Some(vec![34]), 16), "\x1b[31m\x1b[44m");
    assert_eq!(color_sequence(&vec![], &None, 16), "\x1b[39m");
}

#[test]
fn color_sequence_without_three_components_is_empty() {
    assert_eq!(color_sequence(&vec![31], &None, 256), "");
}

#[test]
fn color_computable_bounds() {
    assert!(color_computable(false, &vec![255, 255, 255], 256));
    assert!(!color_computable(false, &vec![5_000_000, 0, 0], 256));
    assert!(!color_computable(true, &vec![i32::MAX], 16));
    assert!(color_computable(false, &vec![i32::MAX], 16));
}

#[test]
fn draw_bar_cheap_mode() {
    assert_eq!(
        draw_bar(10, 3, "green", 256, true),
        format!("\x1b[38;5;150m###{}-------", COLOR_RESET)
    );
}

#[test]
fn draw_bar_caps_used_cells() {
    assert_eq!(
        draw_bar(4, 9, "red", 16, false),
        format!("\x1b[31m⯀⯀⯀⯀{}", COLOR_RESET)
    );
}

#[test]
fn draw_bar_with_unknown_colour_has_no_colour() {
    assert_eq!(draw_bar(2, 1, "nope", 256, true), format!("#{}-", COLOR_RESET));
}

#[test]
fn terminal_colours_keep_their_own_codes() {
    let names = [
        ("black", 30),
        ("bright_black", 90),
        ("red", 31),
        ("bright_red", 91),
        ("green", 32),
        ("bright_green", 92),
        ("yellow", 33),
        ("bright_yellow", 93),
        ("blue", 34),
        ("bright_blue", 94),
        ("magenta", 35),
        ("bright_magenta", 95),
        ("cyan", 36),
        ("bright_cyan", 96),
        ("white", 37),
        ("bright_white", 97),
        ("grey", 90),
    ];
    for (name, code) in names {
        assert_eq!(rgb(name, 16).unwrap(), vec![code]);
    }
}

#[test]
fn colour_names_in_any_ascii_case() {
    for spec in ["green", "Green", "GREEN", "gReEn"] {
        assert_eq!(rgb(spec, 256).unwrap(), vec![0x97, 0xb2, 0x6b]);
    }
    assert_eq!(rgb("YELLOW", 16).unwrap(), vec![33]);
}
