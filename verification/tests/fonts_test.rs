use hi::fonts::{banner_line_text, font_names, get_font, glyph_positions, Font, CHARSET};

fn cells(chars: &[char]) -> String {
    chars.iter().collect()
}

#[test]
fn font_names_lists_both_fonts() {
    assert_eq!(font_names(), "default,hashtag");
}

#[test]
fn get_font_defaults_to_default_font() {
    let f = get_font(None).unwrap();
    assert_eq!(f.charset, CHARSET);
    assert_eq!(f.rows.len(), 5);
    assert!(f.rows[0].starts_with(".. ███"));
}

#[test]
fn get_font_ignores_ascii_case() {
    let f = get_font(Some("HashTag".to_string())).unwrap();
    assert!(f.rows[0].starts_with(".. .##."));
    let g = get_font(Some("DEFAULT".to_string())).unwrap();
    assert!(g.rows[0].starts_with(".. ███"));
}

#[test]
fn get_font_unknown_name() {
    assert!(get_font(Some("dots".to_string())).is_none());
}

#[test]
fn font_rows_have_a_glyph_per_character() {
    for name in ["default", "hashtag"] {
        let f = get_font(Some(name.to_string())).unwrap();
        for row in f.rows {
            assert_eq!(row.split_whitespace().count(), 59);
            assert_eq!(f.charset.chars().count(), 58);
        }
    }
}

#[test]
fn print_full_size_letter() {
    let f = get_font(None).unwrap();
    let b = f.print(&"a".to_string(), &[], false, None).unwrap();
    assert_eq!(b.gradient_width, 4);
    assert_eq!(b.lines.len(), 5);
    assert_eq!(cells(&b.lines[0].cells), "███ ");
    assert_eq!(cells(&b.lines[1].cells), "█ █ ");
    assert_eq!(cells(&b.lines[2].cells), "███ ");
    assert_eq!(cells(&b.lines[4].cells), "█ █ ");
    assert!(b.lines.iter().all(|l| l.comment.is_none()));
}

#[test]
fn print_small_letter() {
    let f = get_font(None).unwrap();
    let b = f.print(&"a".to_string(), &[], true, None).unwrap();
    assert_eq!(b.gradient_width, 2);
    assert_eq!(b.lines.len(), 3);
    assert_eq!(cells(&b.lines[0].cells), "▛▌");
    assert_eq!(cells(&b.lines[1].cells), "▛▌");
    assert_eq!(cells(&b.lines[2].cells), "▘▘");
}

#[test]
fn print_carries_information_lines() {
    let f = get_font(None).unwrap();
    let info = vec!["x".to_string(), "y".to_string()];
    let b = f.print(&"a".to_string(), &info, false, None).unwrap();
    assert_eq!(b.lines[0].comment, Some("x".to_string()));
    assert_eq!(b.lines[1].comment, Some("y".to_string()));
    assert_eq!(b.lines[2].comment, None);
    let s = f.print(&"a".to_string(), &info, true, None).unwrap();
    assert_eq!(s.lines[0].comment, Some("x".to_string()));
    assert_eq!(s.lines[1].comment, Some("y".to_string()));
    assert_eq!(s.lines[2].comment, None);
}

#[test]
fn print_too_large_text() {
    let f = get_font(None).unwrap();
    let text = "hello".to_string();
    assert_eq!(
        f.print(&text, &[], false, Some(19)).unwrap_err(),
        "text \"hello\" too large"
    );
    let b = f.print(&text, &[], false, Some(20)).unwrap();
    assert_eq!(b.gradient_width, 20);
}

#[test]
fn print_upper_case_and_accents_as_lower_case() {
    let f = get_font(None).unwrap();
    let a = f.print(&"a".to_string(), &[], false, None).unwrap();
    let upper = f.print(&"A".to_string(), &[], false, None).unwrap();
    let accent = f.print(&"à".to_string(), &[], false, None).unwrap();
    for y in 0..5 {
        assert_eq!(a.lines[y].cells, upper.lines[y].cells);
        assert_eq!(a.lines[y].cells, accent.lines[y].cells);
    }
}

#[test]
fn print_unknown_character_as_question_mark() {
    let f = get_font(None).unwrap();
    let q = f.print(&"?".to_string(), &[], false, None).unwrap();
    let t = f.print(&"~".to_string(), &[], false, None).unwrap();
    for y in 0..5 {
        assert_eq!(q.lines[y].cells, t.lines[y].cells);
    }
    assert_eq!(cells(&q.lines[0].cells), "███ ");
    assert_eq!(cells(&q.lines[3].cells), "    ");
}

#[test]
fn glyph_positions_of_lowered_text() {
    assert_eq!(glyph_positions(CHARSET, "a b"), vec![1, 0, 2]);
    assert_eq!(glyph_positions(CHARSET, "é?~"), vec![5, 37, 37]);
    assert_eq!(glyph_positions(CHARSET, "A"), vec![37]);
}

#[test]
fn banner_line_text_colours_each_cell() {
    let f = get_font(None).unwrap();
    let b = f.print(&"a".to_string(), &["info".to_string()], false, None).unwrap();
    let colors = vec![vec![31], vec![32], vec![33], vec![34]];
    assert_eq!(
        banner_line_text(&b.lines[0], &colors, &Some(vec![40]), 16),
        "\x1b[31m\x1b[50m█\x1b[32m\x1b[50m█\x1b[33m\x1b[50m█\x1b[34m\x1b[50m \x1b[0minfo\x1b[0m"
    );
    let grey = vec![vec![0x82, 0x82, 0x82]; 4];
    assert_eq!(
        banner_line_text(&b.lines[1], &grey, &None, 256),
        "\x1b[38;5;145m█\x1b[38;5;145m \x1b[38;5;145m█\x1b[38;5;145m \x1b[0m"
    );
}

#[test]
fn parse_font_bmp_rows_cover_charset() {
    for name in font_names().split(',') {
        let f = *get_font(Some(name.to_string())).unwrap();
        let b = f.parse_font_bmp();
        assert_eq!(b.len(), 5);
        for (y, row) in b.iter().enumerate() {
            let expected: Vec<Vec<char>> =
                f.rows[y].split_whitespace().map(|w| w.chars().collect()).collect();
            assert_eq!(row, &expected);
            assert_eq!(row.len(), 59);
        }
        let idx = Font::get_chars_idx(f.charset, "Héllo ~");
        assert!(idx.iter().all(|&i| i < 59));
    }
}

#[test]
fn chars_width_of_text() {
    let f = get_font(None).unwrap();
    let b = f.parse_font_bmp();
    let idx = Font::get_chars_idx(f.charset, "hello");
    assert_eq!(Font::chars_width(&b, &idx), 20);
    assert_eq!(Font::chars_width(&vec![], &idx), 5);
}
