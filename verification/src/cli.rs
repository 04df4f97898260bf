//! Command-line options: `-name`, `-name=value` or `-name value`, option
//! names matched in lower case, later options overriding earlier ones, and
//! every other argument a word of the text to draw. Then the settings that
//! follow from the options, the terminal and the user.
use vstd::prelude::*;
use crate::colors::{
    codes_in_byte_range, color_name_list, color_names, color_spec, lemma_byte_codes_computable,
    lemma_color_spec_codes, rgb, term_color_computable, ColorVec,
};
use crate::fonts::{font_name_list, font_names};
use vstd::utf8::is_ascii_chars;
use crate::text::{
    ascii_lower, chars_of, find_char, first_index, join, lemma_first_index, lower_text, lowered,
    owned_chars, push_char, split, split_chars, str_eq, string_from, trim, trimmed, views, Sep,
};

verus! {

/// The options given on the command line.
#[derive(Debug)]
pub struct Options {
    /// Foreground colour specification (`-fg`, `-foreground`).
    pub fg: Option<String>,
    /// Background colour specification (`-bg`, `-background`).
    pub bg: Option<String>,
    /// Information letters (`-i`, `-info`).
    pub info: Option<String>,
    /// Small mode (`-s`, `-small`).
    pub small: bool,
    /// Font name (`-font`, `-fontname`).
    pub font_name: Option<String>,
    /// Colour mode: 0 when not given, else 1, 16 or 256.
    pub colormode: u16,
    /// Host to query over ssh (`-ssh`).
    pub ssh: Option<String>,
    /// The arguments that are not options, in order.
    pub text_parts: Vec<String>,
}

/// The plain values of the options.
#[verifier::ext_equal]
pub struct OptionsView {
    pub fg: Option<Seq<char>>,
    pub bg: Option<Seq<char>>,
    pub info: Option<Seq<char>>,
    pub small: bool,
    pub font_name: Option<Seq<char>>,
    pub colormode: u16,
    pub ssh: Option<Seq<char>>,
    pub text_parts: Seq<Seq<char>>,
}

/// The view of an optional string.
pub open spec fn ostr(s: Option<String>) -> Option<Seq<char>> {
    match s {
        Some(x) => Some(x@),
        None => None,
    }
}

impl View for Options {
    type V = OptionsView;

    open spec fn view(&self) -> OptionsView {
        OptionsView {
            fg: ostr(self.fg),
            bg: ostr(self.bg),
            info: ostr(self.info),
            small: self.small,
            font_name: ostr(self.font_name),
            colormode: self.colormode,
            ssh: ostr(self.ssh),
            text_parts: self.text_parts@.map_values(|s: String| s@),
        }
    }
}

/// Why the command line was refused.
#[derive(Debug)]
pub enum ArgError {
    /// `-c` was given something other than `mono`, `1`, `16` or `256`.
    BadColorMode,
    /// Help was asked for (`-h`, `-help` or `--help`).
    Help,
    /// An unknown option, by its lower-cased name.
    UnknownOption(String),
}

/// The plain values of a refusal.
pub enum ArgErrorView {
    BadColorMode,
    Help,
    UnknownOption(Seq<char>),
}

impl View for ArgError {
    type V = ArgErrorView;

    open spec fn view(&self) -> ArgErrorView {
        match self {
            ArgError::BadColorMode => ArgErrorView::BadColorMode,
            ArgError::Help => ArgErrorView::Help,
            ArgError::UnknownOption(s) => ArgErrorView::UnknownOption(s@),
        }
    }
}

/// The message of a refusal, given the help text.
pub open spec fn arg_error_text(e: ArgErrorView, help: Seq<char>) -> Seq<char> {
    match e {
        ArgErrorView::BadColorMode => "colors can only be mono, 1, 16 or 256"@,
        ArgErrorView::Help => help,
        ArgErrorView::UnknownOption(o) => "unknown option -"@ + o,
    }
}

impl ArgError {
    /// The message of a refusal: the help text when help was asked for.
    pub fn message(&self, help: &str) -> (r: String)
        ensures
            r@ == arg_error_text(self@, help@),
    {
        let mut r = String::new();
        match self {
            ArgError::BadColorMode => r.append("colors can only be mono, 1, 16 or 256"),
            ArgError::Help => r.append(help),
            ArgError::UnknownOption(o) => {
                r.append("unknown option -");
                r.append(o.as_str());
            },
        }
        assert(r@ =~= arg_error_text(self@, help@));
        r
    }
}

/// The help text between the program name and the font names.
pub const HELP_OPTIONS: &'static str = " [-options] [text]

default text is your hostname

options:
-fg=color         foreground color/gradient
-bg=color         background color
-c[olor]=1|16|256 set color mode
-1|16|256         set color mode as well
-m[ono]           set color mode to 1
-font=default     font name (available: ";

/// The help text between the font names and the colour names.
pub const HELP_FORMS: &'static str = ")
-s[mall]          set small mode (default font only)
-i[nfo]=kumic     choose info to display
-ssh=remote       ssh hostname

infos can be given as follow:
k=kernel   u=uptime   c=cpumodel
m=memory   i=ip

color can be given as follow:
name          eg: green
d,d,d         eg: 0,255,0
h:h:h         eg: 0:ff:0
hhhhhh        eg: 00ff00
hhh           eg: 0f0

gradient can be given as follow:
color-color   eg: white-blue
                  fff-00f

available colors: ";

/// The help text of the program called `name` at `version`: the syntax,
/// the options, the information letters, the colour forms, and the colours
/// and fonts available.
pub open spec fn help_of(name: Seq<char>, version: Seq<char>) -> Seq<char> {
    let fonts = join(font_name_list(), ","@);
    name + " "@ + version + "\n\nsyntax: "@ + name + HELP_OPTIONS@ + fonts + HELP_FORMS@ + join(
        color_name_list(),
        ","@,
    ) + "\navailable fonts: "@ + fonts + "\n"@
}

/// The help text of the program called `name` at `version`.
pub fn help_text(name: &str, version: &str) -> (r: String)
    ensures
        r@ == help_of(name@, version@),
{
    let fonts = font_names();
    let colors = color_names();
    let mut r = String::new();
    r.append(name);
    r.append(" ");
    r.append(version);
    r.append("\n\nsyntax: ");
    r.append(name);
    r.append(HELP_OPTIONS);
    r.append(fonts.as_str());
    r.append(HELP_FORMS);
    r.append(colors.as_str());
    r.append("\navailable fonts: ");
    r.append(fonts.as_str());
    r.append("\n");
    assert(r@ =~= help_of(name@, version@));
    r
}

/// An option's name and, after the first `=`, its value.
pub open spec fn split_option(opt: Seq<char>) -> (Seq<char>, Option<Seq<char>>) {
    match first_index(opt, '=') {
        Some(k) => (opt.take(k), Some(opt.skip(k + 1))),
        None => (opt, None),
    }
}

/// The value of an option at `i`: the one after `=`, else the next argument
/// (which it consumes), else none; with the position of the last argument
/// used.
pub open spec fn option_value(args: Seq<Seq<char>>, i: int, inline: Option<Seq<char>>) -> (Option<Seq<char>>, int) {
    match inline {
        Some(v) => (Some(v), i),
        None => if i + 1 < args.len() {
            (Some(args[i + 1]), i + 1)
        } else {
            (None, i)
        },
    }
}

/// One step of the option loop.
pub enum Step {
    /// Go on at the given argument with the given options.
    Next(int, OptionsView),
    /// Refuse the command line.
    Fail(ArgErrorView),
}

/// Options with the foreground set.
pub open spec fn with_fg(st: OptionsView, v: Option<Seq<char>>) -> OptionsView {
    OptionsView { fg: v, ..st }
}

/// Options with the background set.
pub open spec fn with_bg(st: OptionsView, v: Option<Seq<char>>) -> OptionsView {
    OptionsView { bg: v, ..st }
}

/// Options with the font set.
pub open spec fn with_font(st: OptionsView, v: Option<Seq<char>>) -> OptionsView {
    OptionsView { font_name: v, ..st }
}

/// Options with the information letters set.
pub open spec fn with_info(st: OptionsView, v: Option<Seq<char>>) -> OptionsView {
    OptionsView { info: v, ..st }
}

/// Options with the ssh host set.
pub open spec fn with_ssh(st: OptionsView, v: Option<Seq<char>>) -> OptionsView {
    OptionsView { ssh: v, ..st }
}

/// Options with the colour mode set.
pub open spec fn with_mode(st: OptionsView, m: u16) -> OptionsView {
    OptionsView { colormode: m, ..st }
}

/// The colour mode that `-c` names, if any.
pub open spec fn named_mode(v: Seq<char>) -> Option<u16> {
    if v == "mono"@ || v == "1"@ {
        Some(1)
    } else if v == "16"@ {
        Some(16)
    } else if v == "256"@ {
        Some(256)
    } else {
        None
    }
}

/// What an option does, by its lower-cased name.
#[derive(Clone, Copy, Debug, PartialEq, Eq, Structural)]
pub enum OptionKind {
    /// `fg`, `foreground`: set the foreground colour.
    Fg,
    /// `bg`, `background`: set the background colour.
    Bg,
    /// `font`, `fontname`: choose the font.
    Font,
    /// `i`, `info`: choose the information letters.
    Info,
    /// `1`, `16`, `256`, `m`, `mono`: set the colour mode.
    Mode(u16),
    /// `c`, `color`, `colors`: set the colour mode named by the value.
    ColorMode,
    /// `s`, `small`: small mode.
    Small,
    /// `h`, `help`, and `-help` (the option `--help`): show the help.
    Help,
    /// `ssh`: the host to query.
    Ssh,
    /// The empty name (`-` alone): nothing.
    Ignored,
    /// Any other name.
    Unknown,
}

/// What the option with lower-cased name `n` does.
pub open spec fn option_kind(n: Seq<char>) -> OptionKind {
    if n == "fg"@ || n == "foreground"@ {
        OptionKind::Fg
    } else if n == "bg"@ || n == "background"@ {
        OptionKind::Bg
    } else if n == "font"@ || n == "fontname"@ {
        OptionKind::Font
    } else if n == "i"@ || n == "info"@ {
        OptionKind::Info
    } else if n == "1"@ || n == "m"@ || n == "mono"@ {
        OptionKind::Mode(1)
    } else if n == "16"@ {
        OptionKind::Mode(16)
    } else if n == "256"@ {
        OptionKind::Mode(256)
    } else if n == "c"@ || n == "color"@ || n == "colors"@ {
        OptionKind::ColorMode
    } else if n == "s"@ || n == "small"@ {
        OptionKind::Small
    } else if n == "h"@ || n == "help"@ || n == "-help"@ {
        OptionKind::Help
    } else if n == "ssh"@ {
        OptionKind::Ssh
    } else if n.len() == 0 {
        OptionKind::Ignored
    } else {
        OptionKind::Unknown
    }
}

/// Whether an option takes a value (after `=`, or else the next argument).
pub open spec fn takes_value(k: OptionKind) -> bool {
    k is Fg || k is Bg || k is Font || k is Info || k is ColorMode || k is Ssh
}

/// Option names are matched ignoring the case of ASCII letters: two ASCII
/// names that differ only so do the same, and `FG`, `Fg` and `fg` all set
/// the foreground.
pub proof fn lemma_option_name_case(a: Seq<char>, b: Seq<char>)
    requires
        is_ascii_chars(a),
        is_ascii_chars(b),
        a.map_values(|c: char| ascii_lower(c)) == b.map_values(|c: char| ascii_lower(c)),
    ensures
        option_kind(lower_text(a)) == option_kind(lower_text(b)),
        lower_text(a) == a.map_values(|c: char| ascii_lower(c)),
{
}

/// Information letters are lower-cased when ASCII: `KUM` asks for what
/// `kum` asks for.
pub proof fn lemma_info_letters_case(a: Seq<char>)
    requires
        is_ascii_chars(a),
    ensures
        lower_text(a).map_values(|c: char| info_kind(c)) == a.map_values(
            |c: char| info_kind(ascii_lower(c)),
        ),
{
    assert(lower_text(a).map_values(|c: char| info_kind(c)) =~= a.map_values(
        |c: char| info_kind(ascii_lower(c)),
    ));
}

/// What the argument at `i` does to the options.
pub open spec fn option_step(args: Seq<Seq<char>>, i: int, st: OptionsView) -> Step {
    let arg = args[i];
    if arg.len() > 0 && arg[0] == '-' {
        let (name, inline) = split_option(arg.drop_first());
        let n = lower_text(name);
        let (value, last) = option_value(args, i, inline);
        match option_kind(n) {
            OptionKind::Fg => Step::Next(last + 1, with_fg(st, value)),
            OptionKind::Bg => Step::Next(last + 1, with_bg(st, value)),
            OptionKind::Font => Step::Next(last + 1, with_font(st, value)),
            OptionKind::Info => Step::Next(last + 1, with_info(st, value)),
            OptionKind::Mode(m) => Step::Next(i + 1, with_mode(st, m)),
            OptionKind::ColorMode => match named_mode(
                match value {
                    Some(v) => v,
                    None => "?"@,
                },
            ) {
                Some(m) => Step::Next(last + 1, with_mode(st, m)),
                None => Step::Fail(ArgErrorView::BadColorMode),
            },
            OptionKind::Small => Step::Next(i + 1, OptionsView { small: true, ..st }),
            OptionKind::Help => Step::Fail(ArgErrorView::Help),
            OptionKind::Ssh => Step::Next(last + 1, with_ssh(st, value)),
            OptionKind::Ignored => Step::Next(i + 1, st),
            OptionKind::Unknown => Step::Fail(ArgErrorView::UnknownOption(n)),
        }
    } else {
        Step::Next(i + 1, OptionsView { text_parts: st.text_parts.push(arg), ..st })
    }
}

/// A step moves forward by one or two arguments.
pub proof fn lemma_step_advances(args: Seq<Seq<char>>, i: int, st: OptionsView)
    requires
        0 <= i < args.len(),
    ensures
        option_step(args, i, st) matches Step::Next(j, _) ==> i < j <= args.len(),
{
}

/// The options that the arguments from `i` on give, starting from `st`.
pub open spec fn parse_from(args: Seq<Seq<char>>, i: int, st: OptionsView) -> Result<OptionsView, ArgErrorView>
    decreases args.len() - i,
{
    if i < 0 || i >= args.len() {
        Ok(st)
    } else {
        match option_step(args, i, st) {
            Step::Fail(e) => Err(e),
            Step::Next(j, st2) => if i < j {
                parse_from(args, j, st2)
            } else {
                Ok(st2)
            },
        }
    }
}

/// No option given.
pub open spec fn no_options() -> OptionsView {
    OptionsView {
        fg: None,
        bg: None,
        info: None,
        small: false,
        font_name: None,
        colormode: 0,
        ssh: None,
        text_parts: Seq::empty(),
    }
}

/// The options that a command line gives.
pub open spec fn parsed_options(args: Seq<Seq<char>>) -> Result<OptionsView, ArgErrorView> {
    parse_from(args, 0, no_options())
}

/// The argument at `i` is an option that takes its value from the next
/// argument, and that argument is at `n` or later.
pub open spec fn value_from(args: Seq<Seq<char>>, i: int, n: int) -> bool {
    let arg = args[i];
    &&& arg.len() > 0 && arg[0] == '-'
    &&& split_option(arg.drop_first()).1 is None
    &&& takes_value(option_kind(lower_text(split_option(arg.drop_first()).0)))
    &&& i + 1 >= n
}

/// How the parse from `i` fares before position `n`: it arrives at `n` with
/// the options then in effect, or fails before `n`; `None` when an option
/// before `n` would take its value from `n` or later.
pub open spec fn parse_until(args: Seq<Seq<char>>, i: int, st: OptionsView, n: int) -> Option<
    Result<OptionsView, ArgErrorView>,
>
    decreases args.len() - i,
{
    if i == n {
        Some(Ok(st))
    } else if i < 0 || i > n || i >= args.len() || value_from(args, i, n) {
        None
    } else {
        match option_step(args, i, st) {
            Step::Fail(e) => Some(Err(e)),
            Step::Next(j, st2) => if i < j {
                parse_until(args, j, st2, n)
            } else {
                None
            },
        }
    }
}

/// A parse that arrives at `n` goes on from there; one that fails before
/// `n` fails so.
proof fn lemma_parse_until(args: Seq<Seq<char>>, i: int, st: OptionsView, n: int)
    requires
        parse_until(args, i, st, n) is Some,
    ensures
        match parse_until(args, i, st, n)->0 {
            Ok(s) => parse_from(args, i, st) == parse_from(args, n, s),
            Err(e) => parse_from(args, i, st) == Err::<OptionsView, ArgErrorView>(e),
        },
    decreases args.len() - i,
{
    if i != n {
        match option_step(args, i, st) {
            Step::Fail(_) => {},
            Step::Next(j, st2) => {
                lemma_parse_until(args, j, st2, n);
            },
        }
    }
}

/// How the parse fares before `n` depends only on the arguments before `n`,
/// when both command lines go on after it.
proof fn lemma_parse_until_prefix(a1: Seq<Seq<char>>, a2: Seq<Seq<char>>, i: int, st: OptionsView, n: int)
    requires
        0 <= i,
        a1.take(n) == a2.take(n),
        a1.len() > n,
        a2.len() > n,
    ensures
        parse_until(a1, i, st, n) == parse_until(a2, i, st, n),
    decreases n - i,
{
    if 0 <= i < n {
        assert(a1[i] == a1.take(n)[i]);
        assert(a2[i] == a2.take(n)[i]);
        assert(value_from(a1, i, n) == value_from(a2, i, n));
        if !value_from(a1, i, n) {
            if i + 1 < n {
                assert(a1[i + 1] == a1.take(n)[i + 1]);
                assert(a2[i + 1] == a2.take(n)[i + 1]);
            }
            assert(option_step(a1, i, st) == option_step(a2, i, st));
            match option_step(a1, i, st) {
                Step::Fail(_) => {},
                Step::Next(j, st2) => {
                    if i < j {
                        lemma_parse_until_prefix(a1, a2, j, st2, n);
                    }
                },
            }
        }
    }
}

/// Parsing from a position in `x + y` past `x` is parsing `y`.
proof fn lemma_parse_shift(x: Seq<Seq<char>>, y: Seq<Seq<char>>, i: int, st: OptionsView)
    requires
        0 <= i,
    ensures
        parse_from(x + y, x.len() + i, st) == parse_from(y, i, st),
    decreases y.len() - i,
{
    let a = x + y;
    let k = x.len() + i;
    if i < y.len() {
        assert(a[k] == y[i]);
        if i + 1 < y.len() {
            assert(a[k + 1] == y[i + 1]);
        }
        match option_step(y, i, st) {
            Step::Fail(_) => {},
            Step::Next(j, st2) => {
                assert(option_step(a, k, st) == Step::Next(x.len() + j, st2));
                if i < j {
                    lemma_parse_shift(x, y, j, st2);
                }
            },
        }
    }
}

/// An option written `-o=v` and the same option written `-o v` give the
/// same result, for every option that takes a value (`o` holding no `=`),
/// unless an option before it takes its value from `-o=v` itself: the same
/// options, or the same error.
pub proof fn lemma_inline_value(p: Seq<Seq<char>>, o: Seq<char>, v: Seq<char>, q: Seq<Seq<char>>)
    ensures
        ({
            let a1 = p + seq![seq!['-'] + o + seq!['='] + v] + q;
            let a2 = p + seq![seq!['-'] + o, v] + q;
            first_index(o, '=') is None && takes_value(option_kind(lower_text(o))) && parse_until(
                a1,
                0,
                no_options(),
                p.len() as int,
            ) is Some ==> parsed_options(a1) == parsed_options(a2)
        }),
{
    let n = p.len() as int;
    let e = seq!['-'] + o + seq!['='] + v;
    let d = seq!['-'] + o;
    let a1 = p + seq![e] + q;
    let a2 = p + seq![d, v] + q;
    if first_index(o, '=') is None && takes_value(option_kind(lower_text(o))) && parse_until(
        a1,
        0,
        no_options(),
        n,
    ) is Some {
        assert(a1.take(n) =~= p);
        assert(a2.take(n) =~= p);
        lemma_parse_until_prefix(a1, a2, 0, no_options(), n);
        lemma_parse_until(a1, 0, no_options(), n);
        lemma_parse_until(a2, 0, no_options(), n);
        if let Ok(s) = parse_until(a1, 0, no_options(), n)->0 {
            // The option in the first form.
            lemma_first_index(o, '=');
            let e1 = e.drop_first();
            assert(e1 =~= o + seq!['='] + v);
            lemma_first_index(e1, '=');
            assert(e1[o.len() as int] == '=');
            assert forall|j: int| 0 <= j < o.len() implies e1[j] != '=' by {
                assert(e1[j] == o[j]);
            }
            assert(first_index(e1, '=') == Some(o.len() as int));
            assert(e1.take(o.len() as int) =~= o);
            assert(e1.skip(o.len() as int + 1) =~= v);
            assert(split_option(e1) == (o, Some(v)));
            // The option in the second form.
            assert(d.drop_first() =~= o);
            assert(split_option(d.drop_first()) == (o, None::<Seq<char>>));
            assert(a1[n] == e);
            assert(a2[n] == d);
            assert(a2[n + 1] == v);
            let x1 = p + seq![e];
            let x2 = p + seq![d, v];
            assert(a1 =~= x1 + q);
            assert(a2 =~= x2 + q);
            match option_step(a1, n, s) {
                Step::Fail(_) => {
                    assert(option_step(a2, n, s) == option_step(a1, n, s));
                },
                Step::Next(j, st2) => {
                    assert(j == n + 1);
                    assert(option_step(a2, n, s) == Step::Next(n + 2, st2));
                    lemma_parse_shift(x1, q, 0, st2);
                    lemma_parse_shift(x2, q, 0, st2);
                },
            }
        }
    }
}

/// An argument that is no option: empty, or not starting with `-`.
pub open spec fn is_plain_word(a: Seq<char>) -> bool {
    a.len() == 0 || a[0] != '-'
}

/// From `i` on, plain words are only added to the text, in order.
proof fn lemma_plain_from(args: Seq<Seq<char>>, i: int, st: OptionsView)
    requires
        0 <= i <= args.len(),
        forall|k: int| 0 <= k < args.len() ==> is_plain_word(#[trigger] args[k]),
    ensures
        parse_from(args, i, st) == Ok::<OptionsView, ArgErrorView>(
            OptionsView { text_parts: st.text_parts + args.skip(i), ..st },
        ),
    decreases args.len() - i,
{
    if i == args.len() {
        assert(st.text_parts + args.skip(i) =~= st.text_parts);
        assert(OptionsView { text_parts: st.text_parts + args.skip(i), ..st } =~= st);
    } else {
        assert(is_plain_word(args[i]));
        let st2 = OptionsView { text_parts: st.text_parts.push(args[i]), ..st };
        lemma_plain_from(args, i + 1, st2);
        assert(st2.text_parts + args.skip(i + 1) =~= st.text_parts + args.skip(i));
    }
}

/// A command line of plain words sets no option: its words, in order, are
/// the text to draw.
pub proof fn lemma_plain_words(args: Seq<Seq<char>>)
    requires
        forall|k: int| 0 <= k < args.len() ==> is_plain_word(#[trigger] args[k]),
    ensures
        parsed_options(args) == Ok::<OptionsView, ArgErrorView>(
            OptionsView { text_parts: args, ..no_options() },
        ),
{
    lemma_plain_from(args, 0, no_options());
    assert(no_options().text_parts + args.skip(0) =~= args);
}

/// The views of a sequence of strings.
pub open spec fn strings(v: Seq<String>) -> Seq<Seq<char>> {
    v.map_values(|s: String| s@)
}

/// The view of a parse result.
pub open spec fn options_result(r: Result<Options, ArgError>) -> Result<OptionsView, ArgErrorView> {
    match r {
        Ok(o) => Ok(o@),
        Err(e) => Err(e@),
    }
}

/// Splits an option into its name and inline value.
fn split_opt(opt: &Vec<char>) -> (r: (Vec<char>, Option<Vec<char>>))
    ensures
        (r.0@, match r.1 {
            Some(v) => Some(v@),
            None => None,
        }) == split_option(opt@),
{
    match find_char(opt, '=') {
        Some(k) => {
            proof {
                lemma_first_index(opt@, '=');
            }
            let name = crate::text::slice_of(opt, 0, k);
            let value = crate::text::slice_of(opt, k + 1, opt.len());
            assert(name@ =~= opt@.take(k as int));
            assert(value@ =~= opt@.skip(k + 1));
            (name, Some(value))
        },
        None => (crate::text::copy_chars(opt), None),
    }
}

/// A string of characters.
fn to_string(v: &Vec<char>) -> (s: String)
    ensures
        s@ == v@,
{
    let s = string_from(v, 0, v.len());
    assert(v@.subrange(0, v.len() as int) =~= v@);
    s
}

/// Whether a string equals one of two literals.
fn is_one_of(s: &str, a: &str, b: &str) -> (r: bool)
    ensures
        r == (s@ == a@ || s@ == b@),
{
    str_eq(s, a) || str_eq(s, b)
}

/// What the option with lower-cased name `n` does.
pub fn classify_option(n: &str) -> (r: OptionKind)
    ensures
        r == option_kind(n@),
{
    if is_one_of(n, "fg", "foreground") {
        OptionKind::Fg
    } else if is_one_of(n, "bg", "background") {
        OptionKind::Bg
    } else if is_one_of(n, "font", "fontname") {
        OptionKind::Font
    } else if is_one_of(n, "i", "info") {
        OptionKind::Info
    } else if is_one_of(n, "1", "m") || str_eq(n, "mono") {
        OptionKind::Mode(1)
    } else if str_eq(n, "16") {
        OptionKind::Mode(16)
    } else if str_eq(n, "256") {
        OptionKind::Mode(256)
    } else if is_one_of(n, "c", "color") || str_eq(n, "colors") {
        OptionKind::ColorMode
    } else if is_one_of(n, "s", "small") {
        OptionKind::Small
    } else if is_one_of(n, "h", "help") || str_eq(n, "-help") {
        OptionKind::Help
    } else if str_eq(n, "ssh") {
        OptionKind::Ssh
    } else if n.is_empty() {
        OptionKind::Ignored
    } else {
        OptionKind::Unknown
    }
}

/// Parses a command line into options.
pub fn parse_args(args: &Vec<String>) -> (r: Result<Options, ArgError>)
    ensures
        options_result(r) == parsed_options(strings(args@)),
{
    let ghost a = strings(args@);
    let mut st = Options {
        fg: None,
        bg: None,
        info: None,
        small: false,
        font_name: None,
        colormode: 0,
        ssh: None,
        text_parts: Vec::new(),
    };
    assert(st@ =~= no_options());
    let mut i: usize = 0;
    while i < args.len()
        invariant
            a == strings(args@),
            i <= args.len(),
            parsed_options(a) == parse_from(a, i as int, st@),
        decreases args.len() - i,
    {
        let ghost before = st@;
        let ghost old_i = i;
        proof {
            lemma_step_advances(a, i as int, before);
        }
        let arg = owned_chars(&args[i]);
        assert(arg@ == a[i as int]);
        if arg.len() > 0 && arg[0] == '-' {
            let opt = crate::text::slice_of(&arg, 1, arg.len());
            assert(opt@ =~= arg@.drop_first());
            let (name_chars, inline) = split_opt(&opt);
            let name = to_string(&name_chars);
            let lower = lowered(name.as_str());
            let n = lower.as_str();
            // The option's value and the position of the last argument it uses.
            let (value, last): (Option<String>, usize) = match inline {
                Some(v) => (Some(to_string(&v)), i),
                None => if i + 1 < args.len() {
                    (Some(args[i + 1].clone()), i + 1)
                } else {
                    (None, i)
                },
            };
            assert(ostr(value) == option_value(a, i as int, split_option(arg@.drop_first()).1).0);
            assert(last as int == option_value(a, i as int, split_option(arg@.drop_first()).1).1);
            match classify_option(n) {
                OptionKind::Fg => {
                    st.fg = value;
                    i = last + 1;
                },
                OptionKind::Bg => {
                    st.bg = value;
                    i = last + 1;
                },
                OptionKind::Font => {
                    st.font_name = value;
                    i = last + 1;
                },
                OptionKind::Info => {
                    st.info = value;
                    i = last + 1;
                },
                OptionKind::Mode(m) => {
                    st.colormode = m;
                    i = i + 1;
                },
                OptionKind::ColorMode => {
                    let v: &str = match &value {
                        Some(v) => v.as_str(),
                        None => "?",
                    };
                    if is_one_of(v, "mono", "1") {
                        st.colormode = 1;
                    } else if str_eq(v, "16") {
                        st.colormode = 16;
                    } else if str_eq(v, "256") {
                        st.colormode = 256;
                    } else {
                        return Err(ArgError::BadColorMode);
                    }
                    i = last + 1;
                },
                OptionKind::Small => {
                    st.small = true;
                    i = i + 1;
                },
                OptionKind::Help => {
                    return Err(ArgError::Help);
                },
                OptionKind::Ssh => {
                    st.ssh = value;
                    i = last + 1;
                },
                OptionKind::Ignored => {
                    i = i + 1;
                },
                OptionKind::Unknown => {
                    return Err(ArgError::UnknownOption(lower));
                },
            }
        } else {
            let ghost prev = st@.text_parts;
            st.text_parts.push(args[i].clone());
            assert(st@.text_parts =~= prev.push(a[i as int]));
            i = i + 1;
        }
        assert(option_step(a, old_i as int, before) == Step::Next(i as int, st@));
    }
    Ok(st)
}

/// The colour mode in effect: 16 on a cheap terminal, else 256 when none was
/// given.
pub open spec fn effective_mode(colormode: u16, cheapmode: bool) -> u16 {
    if cheapmode {
        16
    } else if colormode == 0 {
        256
    } else {
        colormode
    }
}

/// Small mode is off on a cheap terminal.
pub open spec fn effective_small(small: bool, cheapmode: bool) -> bool {
    !cheapmode && small
}

/// The foreground colour when none was given: red (root) or cyan on a cheap
/// terminal, else a gradient to white from light red (root) or blue.
pub open spec fn default_fg(cheapmode: bool, rootmode: bool) -> Seq<char> {
    if cheapmode {
        if rootmode {
            "red"@
        } else {
            "cyan"@
        }
    } else if rootmode {
        "f88-fff"@
    } else {
        "66c-fff"@
    }
}

/// The information letters when none were given: `imu` in small mode, else
/// `kicmu`.
pub open spec fn default_info(small: bool) -> Seq<char> {
    if small {
        "imu"@
    } else {
        "kicmu"@
    }
}

/// What the options, the terminal and the user settle.
#[derive(Debug)]
pub struct Settings {
    /// The colour mode in effect.
    pub colormode: u16,
    /// Small mode in effect.
    pub small: bool,
    /// The foreground colour.
    pub fg_color: ColorVec,
    /// The background colour, if any.
    pub bg_color: Option<ColorVec>,
    /// The colour of the information labels (grey).
    pub info_fg_color: ColorVec,
    /// The information letters.
    pub info_spec: String,
}

/// The plain values of the settings.
#[verifier::ext_equal]
pub struct SettingsView {
    pub colormode: u16,
    pub small: bool,
    pub fg_color: Seq<i32>,
    pub bg_color: Option<Seq<i32>>,
    pub info_fg_color: Seq<i32>,
    pub info_spec: Seq<char>,
}

impl View for Settings {
    type V = SettingsView;

    open spec fn view(&self) -> SettingsView {
        SettingsView {
            colormode: self.colormode,
            small: self.small,
            fg_color: self.fg_color@,
            bg_color: match self.bg_color {
                Some(c) => Some(c@),
                None => None,
            },
            info_fg_color: self.info_fg_color@,
            info_spec: self.info_spec@,
        }
    }
}

/// The foreground specification in effect.
pub open spec fn fg_spec(o: OptionsView, cheapmode: bool, rootmode: bool) -> Seq<char> {
    match o.fg {
        Some(f) => f,
        None => default_fg(cheapmode, rootmode),
    }
}

/// The settings that options give on a terminal (cheap when it is the Linux
/// console) for a user (root or not), or the first colour error: foreground,
/// then background, then the grey of the labels.
pub open spec fn settings_for(o: OptionsView, cheapmode: bool, rootmode: bool) -> Result<SettingsView, Seq<char>> {
    let mode = effective_mode(o.colormode, cheapmode);
    let small = effective_small(o.small, cheapmode);
    match color_spec(fg_spec(o, cheapmode, rootmode), mode) {
        Err(e) => Err(e),
        Ok(fg) => {
            let bg = match o.bg {
                Some(b) => match color_spec(b, mode) {
                    Err(e) => Err(e),
                    Ok(c) => Ok(Some(c)),
                },
                None => Ok(None),
            };
            match bg {
                Err(e) => Err(e),
                Ok(bg) => match color_spec("grey"@, mode) {
                    Err(e) => Err(e),
                    Ok(grey) => Ok(
                        SettingsView {
                            colormode: mode,
                            small,
                            fg_color: fg,
                            bg_color: bg,
                            info_fg_color: grey,
                            info_spec: match o.info {
                                Some(i) => i,
                                None => default_info(small),
                            },
                        },
                    ),
                },
            }
        },
    }
}

/// The view of a settings result.
pub open spec fn settings_result(r: Result<Settings, String>) -> Result<SettingsView, Seq<char>> {
    match r {
        Ok(s) => Ok(s@),
        Err(e) => Err(e@),
    }
}

/// Settles the colours, modes and information letters.
pub fn resolve(opts: &Options, cheapmode: bool, rootmode: bool) -> (r: Result<Settings, String>)
    ensures
        settings_result(r) == settings_for(opts@, cheapmode, rootmode),
{
    let mode: u16 = if cheapmode {
        16
    } else if opts.colormode == 0 {
        256
    } else {
        opts.colormode
    };
    let small = !cheapmode && opts.small;
    let fg_spec: &str = match &opts.fg {
        Some(f) => f.as_str(),
        None => if cheapmode {
            if rootmode {
                "red"
            } else {
                "cyan"
            }
        } else if rootmode {
            "f88-fff"
        } else {
            "66c-fff"
        },
    };
    let fg_color = match rgb(fg_spec, mode) {
        Ok(c) => c,
        Err(e) => return Err(e),
    };
    let bg_color = match &opts.bg {
        Some(b) => match rgb(b.as_str(), mode) {
            Ok(c) => Some(c),
            Err(e) => return Err(e),
        },
        None => None,
    };
    let info_fg_color = match rgb("grey", mode) {
        Ok(c) => c,
        Err(e) => return Err(e),
    };
    let info_spec = match &opts.info {
        Some(i) => i.clone(),
        None => if small {
            String::from_str("imu")
        } else {
            String::from_str("kicmu")
        },
    };
    let s = Settings { colormode: mode, small, fg_color, bg_color, info_fg_color, info_spec };
    assert(settings_result(Ok(s)) =~= settings_for(opts@, cheapmode, rootmode));
    Ok(s)
}

/// On a cheap terminal (the Linux console) the colour mode is 16 and small
/// mode is off, whatever the options; elsewhere the mode given is kept, 256
/// when none is. Without information letters, `imu` is shown in small mode
/// and `kicmu` otherwise.
pub proof fn lemma_terminal_settings(o: OptionsView, cheapmode: bool, rootmode: bool)
    ensures
        settings_for(o, cheapmode, rootmode) matches Ok(s) ==> {
            &&& cheapmode ==> s.colormode == 16 && !s.small
            &&& !cheapmode ==> s.small == o.small && s.colormode == (if o.colormode == 0 {
                256
            } else {
                o.colormode
            })
            &&& o.info is None ==> s.info_spec == (if s.small {
                "imu"@
            } else {
                "kicmu"@
            })
        },
{
}

/// The settings hold the colours asked for, on every terminal and for every
/// user: the foreground given (else red or cyan on the Linux console, for
/// root or not, else the gradients `f88-fff` or `66c-fff`), the background
/// given, and grey for the labels, each parsed in the colour mode in effect
/// (16 on the console, else the mode given, 256 when none). A foreground
/// that does not parse is the error, whatever else is given.
pub proof fn lemma_resolved_colours(o: OptionsView, cheapmode: bool, rootmode: bool)
    ensures
        ({
            let mode: u16 = if cheapmode {
                16
            } else if o.colormode == 0 {
                256
            } else {
                o.colormode
            };
            let fg: Seq<char> = match o.fg {
                Some(f) => f,
                None => if cheapmode {
                    if rootmode {
                        "red"@
                    } else {
                        "cyan"@
                    }
                } else if rootmode {
                    "f88-fff"@
                } else {
                    "66c-fff"@
                },
            };
            &&& settings_for(o, cheapmode, rootmode) matches Ok(s) ==> {
                &&& s.colormode == mode
                &&& color_spec(fg, mode) == Ok::<Seq<i32>, Seq<char>>(s.fg_color)
                &&& (o.bg matches Some(b) ==> s.bg_color is Some && color_spec(b, mode) == Ok::<
                    Seq<i32>,
                    Seq<char>,
                >(s.bg_color->0))
                &&& (o.bg is None ==> s.bg_color is None)
                &&& color_spec("grey"@, mode) == Ok::<Seq<i32>, Seq<char>>(s.info_fg_color)
            }
            &&& color_spec(fg, mode) matches Err(e) ==> settings_for(o, cheapmode, rootmode) == Err::<
                SettingsView,
                Seq<char>,
            >(e)
            &&& color_spec(fg, mode) is Ok ==> (o.bg matches Some(b) ==> (color_spec(b, mode) matches Err(
                e,
            ) ==> settings_for(o, cheapmode, rootmode) == Err::<SettingsView, Seq<char>>(e)))
        }),
{
}

/// Every colour that settings hold has codes from 0 to 255, so its escape
/// sequences can be computed.
pub proof fn lemma_settings_colors(o: OptionsView, cheapmode: bool, rootmode: bool)
    ensures
        settings_for(o, cheapmode, rootmode) matches Ok(s) ==> {
            &&& codes_in_byte_range(s.fg_color)
            &&& codes_in_byte_range(s.info_fg_color)
            &&& (s.bg_color matches Some(b) ==> codes_in_byte_range(b))
            &&& term_color_computable(false, s.fg_color, s.colormode)
            &&& term_color_computable(false, s.info_fg_color, s.colormode)
            &&& (s.bg_color matches Some(b) ==> term_color_computable(true, b, s.colormode))
        },
{
    let mode = effective_mode(o.colormode, cheapmode);
    lemma_color_spec_codes(fg_spec(o, cheapmode, rootmode), mode);
    lemma_color_spec_codes("grey"@, mode);
    if let Some(b) = o.bg {
        lemma_color_spec_codes(b, mode);
        if let Ok(c) = color_spec(b, mode) {
            lemma_byte_codes_computable(c, true, mode);
        }
    }
    if let Ok(c) = color_spec(fg_spec(o, cheapmode, rootmode), mode) {
        lemma_byte_codes_computable(c, false, mode);
    }
    if let Ok(c) = color_spec("grey"@, mode) {
        lemma_byte_codes_computable(c, false, mode);
    }
}

/// The text to draw: the words given, separated by spaces; with none, the
/// host name up to its first dot, trimmed (`localhost` when unknown).
pub open spec fn banner_text(parts: Seq<Seq<char>>, hostname: Option<Seq<char>>) -> Seq<char> {
    if parts.len() == 0 {
        let h = match hostname {
            Some(h) => h,
            None => "localhost"@,
        };
        split(trim(h), Sep::Char('.'))[0]
    } else {
        join(parts, " "@)
    }
}

/// The text to draw, from the words given or the output of `hostname`.
pub fn text_to_draw(text_parts: &Vec<String>, hostname: Option<String>) -> (r: String)
    ensures
        r@ == banner_text(strings(text_parts@), ostr(hostname)),
{
    if text_parts.len() == 0 {
        let h = match &hostname {
            Some(h) => owned_chars(h),
            None => chars_of("localhost"),
        };
        let t = trimmed(&h);
        let parts = split_chars(&t, Sep::Char('.'));
        proof {
            crate::text::lemma_split_nonempty(t@, Sep::Char('.'));
        }
        assert(parts@[0]@ == views(parts@)[0]);
        to_string(&parts[0])
    } else {
        let mut r = String::new();
        let mut i: usize = 0;
        while i < text_parts.len()
            invariant
                i <= text_parts.len(),
                r@ == join(strings(text_parts@).take(i as int), " "@),
            decreases text_parts.len() - i,
        {
            assert(strings(text_parts@).take(i + 1).drop_last() =~= strings(text_parts@).take(i as int));
            if i > 0 {
                r.append(" ");
            } else {
                assert(r@ =~= Seq::<char>::empty());
            }
            r.append(text_parts[i].as_str());
            i = i + 1;
        }
        assert(strings(text_parts@).take(text_parts.len() as int) =~= strings(text_parts@));
        r
    }
}

/// A kind of information line.
#[derive(Clone, Copy, Debug, PartialEq, Eq, Structural)]
pub enum InfoKind {
    /// `k`: the kernel.
    Kernel,
    /// `u`: load and uptime.
    Uptime,
    /// `i`: addresses.
    Ip,
    /// `c`: the processor.
    Cpu,
    /// `m`: memory.
    Mem,
    /// Any other letter.
    Unknown(char),
}

/// The kind of information a letter asks for.
pub open spec fn info_kind(c: char) -> InfoKind {
    if c == 'k' {
        InfoKind::Kernel
    } else if c == 'u' {
        InfoKind::Uptime
    } else if c == 'i' {
        InfoKind::Ip
    } else if c == 'c' {
        InfoKind::Cpu
    } else if c == 'm' {
        InfoKind::Mem
    } else {
        InfoKind::Unknown(c)
    }
}

/// The kinds of information the letters ask for, in order, once lower-cased.
pub fn info_kinds(info_spec: &str) -> (r: Vec<InfoKind>)
    ensures
        r@ == lower_text(info_spec@).map_values(|c: char| info_kind(c)),
{
    let lower = lowered(info_spec);
    kinds_of_letters(lower.as_str())
}

/// The kinds of information already lower-cased letters ask for, in order.
pub fn kinds_of_letters(letters: &str) -> (r: Vec<InfoKind>)
    ensures
        r@ == letters@.map_values(|c: char| info_kind(c)),
{
    let cs = chars_of(letters);
    let mut r: Vec<InfoKind> = Vec::new();
    let mut k: usize = 0;
    while k < cs.len()
        invariant
            k <= cs.len(),
            cs@ == letters@,
            r@ == cs@.take(k as int).map_values(|c: char| info_kind(c)),
        decreases cs.len() - k,
    {
        let c = cs[k];
        let kind = if c == 'k' {
            InfoKind::Kernel
        } else if c == 'u' {
            InfoKind::Uptime
        } else if c == 'i' {
            InfoKind::Ip
        } else if c == 'c' {
            InfoKind::Cpu
        } else if c == 'm' {
            InfoKind::Mem
        } else {
            InfoKind::Unknown(c)
        };
        let ghost prev = r@;
        r.push(kind);
        assert(kind == info_kind(cs@[k as int]));
        assert(r@ =~= prev.push(kind));
        assert(cs@.take(k + 1).map_values(|c: char| info_kind(c)) =~= cs@.take(k as int).map_values(
            |c: char| info_kind(c),
        ).push(info_kind(cs@[k as int])));
        k = k + 1;
    }
    assert(cs@.take(cs.len() as int) =~= cs@);
    r
}

/// The letter that asks for a kind of information.
pub open spec fn kind_letter(kind: InfoKind) -> char {
    match kind {
        InfoKind::Kernel => 'k',
        InfoKind::Uptime => 'u',
        InfoKind::Ip => 'i',
        InfoKind::Cpu => 'c',
        InfoKind::Mem => 'm',
        InfoKind::Unknown(c) => c,
    }
}

/// The letter that asks for a kind of information.
pub fn info_letter(kind: InfoKind) -> (r: char)
    ensures
        r == kind_letter(kind),
{
    match kind {
        InfoKind::Kernel => 'k',
        InfoKind::Uptime => 'u',
        InfoKind::Ip => 'i',
        InfoKind::Cpu => 'c',
        InfoKind::Mem => 'm',
        InfoKind::Unknown(c) => c,
    }
}

/// The information line of a kind: the line when there is one, else the
/// line saying that the information is not available.
pub fn info_line(kind: InfoKind, line: Option<String>) -> (r: String)
    ensures
        r@ == match line {
            Some(l) => l@,
            None => unavailable_text(kind_letter(kind)),
        },
{
    match line {
        Some(l) => l,
        None => unavailable_info(info_letter(kind)),
    }
}

/// The line shown for information that is not available.
pub open spec fn unavailable_text(c: char) -> Seq<char> {
    "info ["@ + seq![c] + "] not available"@
}

/// The line shown for information that is not available.
pub fn unavailable_info(c: char) -> (r: String)
    ensures
        r@ == unavailable_text(c),
{
    let mut r = String::new();
    r.append("info [");
    push_char(&mut r, c);
    r.append("] not available");
    assert(r@ =~= unavailable_text(c));
    r
}

} // verus!
