use hi::cli::{
    classify_option, help_text, info_kinds, info_letter, info_line, kinds_of_letters, parse_args,
    resolve, text_to_draw, unavailable_info, ArgError, InfoKind, OptionKind, Options,
};

fn args(list: &[&str]) -> Vec<String> {
    list.iter().map(|s| s.to_string()).collect()
}

fn parsed(list: &[&str]) -> Options {
    parse_args(&args(list)).unwrap()
}

#[test]
fn parse_args_text_words() {
    let o = parsed(&["hello", "world"]);
    assert_eq!(o.text_parts, args(&["hello", "world"]));
    assert_eq!(o.fg, None);
    assert_eq!(o.colormode, 0);
    assert!(!o.small);
}

#[test]
fn parse_args_inline_and_next_values() {
    let o = parsed(&["-fg=red", "-bg", "blue", "x"]);
    assert_eq!(o.fg, Some("red".to_string()));
    assert_eq!(o.bg, Some("blue".to_string()));
    assert_eq!(o.text_parts, args(&["x"]));
}

#[test]
fn parse_args_option_names_in_any_case() {
    let o = parsed(&["-FG=red", "-Font", "hashtag"]);
    assert_eq!(o.fg, Some("red".to_string()));
    assert_eq!(o.font_name, Some("hashtag".to_string()));
}

#[test]
fn parse_args_later_option_wins() {
    let o = parsed(&["-fg=a", "-foreground=b", "-c=16", "-256"]);
    assert_eq!(o.fg, Some("b".to_string()));
    assert_eq!(o.colormode, 256);
}

#[test]
fn parse_args_colour_modes() {
    assert_eq!(parsed(&["-c=16"]).colormode, 16);
    assert_eq!(parsed(&["-color", "mono"]).colormode, 1);
    assert_eq!(parsed(&["-colors=256"]).colormode, 256);
    assert_eq!(parsed(&["-1"]).colormode, 1);
    assert_eq!(parsed(&["-16"]).colormode, 16);
    assert_eq!(parsed(&["-m"]).colormode, 1);
    assert_eq!(parsed(&["-mono"]).colormode, 1);
}

#[test]
fn parse_args_bad_colour_mode() {
    assert!(matches!(parse_args(&args(&["-c=bad"])), Err(ArgError::BadColorMode)));
    assert!(matches!(parse_args(&args(&["-c"])), Err(ArgError::BadColorMode)));
}

#[test]
fn parse_args_flags_and_values() {
    let o = parsed(&["-s", "-i", "kum", "-ssh=remote", "-font=default"]);
    assert!(o.small);
    assert_eq!(o.info, Some("kum".to_string()));
    assert_eq!(o.ssh, Some("remote".to_string()));
    assert_eq!(o.font_name, Some("default".to_string()));
}

#[test]
fn parse_args_missing_value_at_end() {
    let o = parsed(&["word", "-fg"]);
    assert_eq!(o.fg, None);
    assert_eq!(o.text_parts, args(&["word"]));
}

#[test]
fn parse_args_help() {
    assert!(matches!(parse_args(&args(&["x", "-h"])), Err(ArgError::Help)));
    assert!(matches!(parse_args(&args(&["-HELP"])), Err(ArgError::Help)));
}

#[test]
fn parse_args_unknown_option() {
    match parse_args(&args(&["-ZZ"])) {
        Err(ArgError::UnknownOption(name)) => assert_eq!(name, "zz"),
        other => panic!("unexpected {:?}", other),
    }
}

#[test]
fn parse_args_lone_dash_is_ignored() {
    let o = parsed(&["-", "-=x", "a"]);
    assert_eq!(o.text_parts, args(&["a"]));
}

#[test]
fn arg_error_messages() {
    assert_eq!(ArgError::BadColorMode.message("HELP"), "colors can only be mono, 1, 16 or 256");
    assert_eq!(ArgError::Help.message("HELP"), "HELP");
    assert_eq!(ArgError::UnknownOption("zz".to_string()).message("HELP"), "unknown option -zz");
}

#[test]
fn resolve_defaults() {
    let s = resolve(&parsed(&[]), false, false).unwrap();
    assert_eq!(s.colormode, 256);
    assert!(!s.small);
    assert_eq!(s.fg_color, vec![0x66, 0x66, 0xcc, 0xff, 0xff, 0xff]);
    assert_eq!(s.bg_color, None);
    assert_eq!(s.info_fg_color, vec![0x82, 0x82, 0x82]);
    assert_eq!(s.info_spec, "kicmu");
}

#[test]
fn resolve_root_user() {
    let s = resolve(&parsed(&[]), false, true).unwrap();
    assert_eq!(s.fg_color, vec![0xff, 0x88, 0x88, 0xff, 0xff, 0xff]);
}

#[test]
fn resolve_cheap_terminal() {
    let s = resolve(&parsed(&["-s", "-c=256"]), true, true).unwrap();
    assert_eq!(s.colormode, 16);
    assert!(!s.small);
    assert_eq!(s.fg_color, vec![31]);
    assert_eq!(s.info_fg_color, vec![90]);
    assert_eq!(s.info_spec, "kicmu");
    let c = resolve(&parsed(&[]), true, false).unwrap();
    assert_eq!(c.fg_color, vec![36]);
}

#[test]
fn resolve_small_mode_information() {
    let s = resolve(&parsed(&["-s"]), false, false).unwrap();
    assert!(s.small);
    assert_eq!(s.info_spec, "imu");
    let t = resolve(&parsed(&["-s", "-i=k"]), false, false).unwrap();
    assert_eq!(t.info_spec, "k");
}

#[test]
fn resolve_given_colours() {
    let s = resolve(&parsed(&["-fg", "0f0", "-bg=blue"]), false, false).unwrap();
    assert_eq!(s.fg_color, vec![0, 255, 0]);
    assert_eq!(s.bg_color, Some(vec![0x86, 0xa2, 0xbe]));
}

#[test]
fn resolve_colour_errors() {
    assert_eq!(resolve(&parsed(&["-fg=nope"]), false, false).unwrap_err(), "invalid color nope");
    assert_eq!(resolve(&parsed(&["-bg=nope"]), false, false).unwrap_err(), "invalid color nope");
}

#[test]
fn text_to_draw_from_words() {
    assert_eq!(text_to_draw(&args(&["a", "b"]), Some("host".to_string())), "a b");
}

#[test]
fn text_to_draw_from_hostname() {
    assert_eq!(text_to_draw(&args(&[]), Some("host.example.com\n".to_string())), "host");
    assert_eq!(text_to_draw(&args(&[]), None), "localhost");
    assert_eq!(text_to_draw(&args(&[]), Some("  \n".to_string())), "");
}

#[test]
fn info_kinds_letters() {
    assert_eq!(
        info_kinds("KUx"),
        vec![InfoKind::Kernel, InfoKind::Uptime, InfoKind::Unknown('x')]
    );
    assert_eq!(
        info_kinds("icm"),
        vec![InfoKind::Ip, InfoKind::Cpu, InfoKind::Mem]
    );
}

#[test]
fn unavailable_info_text() {
    assert_eq!(unavailable_info('x'), "info [x] not available");
}

#[test]
fn help_text_matches_documented_help() {
    let expected = "hi 0.1.0

syntax: hi [-options] [text]

default text is your hostname

options:
-fg=color         foreground color/gradient
-bg=color         background color
-c[olor]=1|16|256 set color mode
-1|16|256         set color mode as well
-m[ono]           set color mode to 1
-font=default     font name (available: default,hashtag)
-s[mall]          set small mode (default font only)
-i[nfo]=kumic     choose info to display
-ssh=remote       ssh hostname

infos can be given as follow:
k=kernel   u=uptime   c=cpumodel
m=memory   i=ip

color can be given as follow:
name          eg: green
d,d,d         eg: 0,255,0
h:h:h         eg: 0:ff:0
hhhhhh        eg: 00ff00
hhh           eg: 0f0

gradient can be given as follow:
color-color   eg: white-blue
                  fff-00f

available colors: black,bright_black,red,bright_red,green,bright_green,yellow,bright_yellow,blue,bright_blue,magenta,bright_magenta,cyan,bright_cyan,white,bright_white,grey
available fonts: default,hashtag
";
    assert_eq!(help_text("hi", "0.1.0"), expected);
}

#[test]
fn parse_args_double_dash_help() {
    assert!(matches!(parse_args(&args(&["--help"])), Err(ArgError::Help)));
    assert!(matches!(parse_args(&args(&["--HELP"])), Err(ArgError::Help)));
    match parse_args(&args(&["--fg=red"])) {
        Err(ArgError::UnknownOption(name)) => assert_eq!(name, "-fg"),
        other => panic!("unexpected {:?}", other),
    }
}

#[test]
fn classify_option_names() {
    assert_eq!(classify_option("fg"), OptionKind::Fg);
    assert_eq!(classify_option("background"), OptionKind::Bg);
    assert_eq!(classify_option("fontname"), OptionKind::Font);
    assert_eq!(classify_option("i"), OptionKind::Info);
    assert_eq!(classify_option("mono"), OptionKind::Mode(1));
    assert_eq!(classify_option("16"), OptionKind::Mode(16));
    assert_eq!(classify_option("256"), OptionKind::Mode(256));
    assert_eq!(classify_option("colors"), OptionKind::ColorMode);
    assert_eq!(classify_option("small"), OptionKind::Small);
    assert_eq!(classify_option("-help"), OptionKind::Help);
    assert_eq!(classify_option("h"), OptionKind::Help);
    assert_eq!(classify_option("ssh"), OptionKind::Ssh);
    assert_eq!(classify_option(""), OptionKind::Ignored);
    assert_eq!(classify_option("FG"), OptionKind::Unknown);
}

#[test]
fn parse_args_inline_value_equals_next_argument() {
    for o in ["fg", "BG", "font", "Info", "c", "ssh"] {
        let a = parse_args(&args(&["x", "-s", &format!("-{o}=16"), "y"]));
        let b = parse_args(&args(&["x", "-s", &format!("-{o}"), "16", "y"]));
        assert_eq!(format!("{:?}", a), format!("{:?}", b));
    }
}

#[test]
fn resolve_reports_foreground_error_first() {
    assert_eq!(
        resolve(&parsed(&["-fg=zzz", "-bg=a€bb"]), false, false).unwrap_err(),
        "invalid color zzz"
    );
    assert_eq!(
        resolve(&parsed(&["-bg=a€bb"]), false, false).unwrap_err(),
        "invalid color a€bb"
    );
}

#[test]
fn kinds_of_letters_without_lowering() {
    assert_eq!(
        kinds_of_letters("kK"),
        vec![InfoKind::Kernel, InfoKind::Unknown('K')]
    );
}

#[test]
fn info_line_or_unavailable() {
    assert_eq!(info_letter(InfoKind::Uptime), 'u');
    assert_eq!(info_letter(InfoKind::Unknown('z')), 'z');
    assert_eq!(info_line(InfoKind::Uptime, None), "info [u] not available");
    assert_eq!(info_line(InfoKind::Mem, Some("line".to_string())), "line");
}

#[test]
fn parse_args_inline_value_after_an_error() {
    let a = parse_args(&args(&["-zz", "-fg=x"]));
    let b = parse_args(&args(&["-zz", "-fg", "x"]));
    assert_eq!(format!("{:?}", a), format!("{:?}", b));
    assert!(matches!(a, Err(ArgError::UnknownOption(_))));
}

#[test]
fn option_names_in_any_ascii_case() {
    for name in ["fg", "FG", "Fg", "fG"] {
        let o = parsed(&[&format!("-{name}=red")]);
        assert_eq!(o.fg, Some("red".to_string()));
    }
    assert_eq!(info_kinds("KUM"), info_kinds("kum"));
}
