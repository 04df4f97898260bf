//! Colour specifications: named colours, `d,d,d`, `h:h:h`, `hhhhhh`, `hhh`
//! and `color-color` gradients, converted to 256-colour triples or to the
//! nearest of the sixteen terminal colours, and rendered as escape sequences.
use vstd::prelude::*;
use crate::text::{
    all_digits, ascii_lower, chars_of, count_char, decimal_digits, digit_value, digits_value,
    find_char, first_index, int_text, join, lemma_count_absent, lemma_count_concat,
    lemma_decimal_digits_value, lemma_first_index, lemma_split_concat, lower_text, lowered,
    parse_unsigned, parse_unsigned_range, push_int, split, split_chars, str_eq, string_from, views,
    Sep,
};
use vstd::utf8::is_ascii_chars;

verus! {

/// A colour as the terminal code(s) that stand for it: three components in
/// 256-colour mode, one terminal colour code otherwise, six components for a
/// gradient.
pub type ColorVec = Vec<i32>;

/// The escape sequence that resets the terminal colours.
pub const COLOR_RESET: &'static str = "\x1b[0m";

/// An RGB triple.
pub type Rgb = (u8, u8, u8);

/// The number of named colours.
pub const COLOR_COUNT: usize = 17;

/// The number of terminal (sixteen-colour) colours.
pub const SYS_COLOR_COUNT: usize = 16;

/// The named colours, in the order in which they are listed and searched.
pub open spec fn color_entry(i: int) -> (Seq<char>, Rgb) {
    if i == 0 {
        ("black"@, (0x00u8, 0x00u8, 0x00u8))
    } else if i == 1 {
        ("bright_black"@, (0x82u8, 0x82u8, 0x82u8))
    } else if i == 2 {
        ("red"@, (0xbfu8, 0x79u8, 0x79u8))
    } else if i == 3 {
        ("bright_red"@, (0xf4u8, 0xa4u8, 0x5fu8))
    } else if i == 4 {
        ("green"@, (0x97u8, 0xb2u8, 0x6bu8))
    } else if i == 5 {
        ("bright_green"@, (0xc5u8, 0xf7u8, 0x79u8))
    } else if i == 6 {
        ("yellow"@, (0xcdu8, 0xcdu8, 0xa1u8))
    } else if i == 7 {
        ("bright_yellow"@, (0xffu8, 0xffu8, 0xafu8))
    } else if i == 8 {
        ("blue"@, (0x86u8, 0xa2u8, 0xbeu8))
    } else if i == 9 {
        ("bright_blue"@, (0x98u8, 0xafu8, 0xd9u8))
    } else if i == 10 {
        ("magenta"@, (0x96u8, 0x3cu8, 0x59u8))
    } else if i == 11 {
        ("bright_magenta"@, (0xefu8, 0x9eu8, 0xbeu8))
    } else if i == 12 {
        ("cyan"@, (0x7fu8, 0x9fu8, 0x7fu8))
    } else if i == 13 {
        ("bright_cyan"@, (0x71u8, 0xbeu8, 0xbeu8))
    } else if i == 14 {
        ("white"@, (0xdeu8, 0xdeu8, 0xdeu8))
    } else if i == 15 {
        ("bright_white"@, (0xffu8, 0xffu8, 0xffu8))
    } else {
        ("grey"@, (0x82u8, 0x82u8, 0x82u8))
    }
}

/// The named colour at position `i`.
fn color_at(i: usize) -> (r: (&'static str, Rgb))
    requires
        i < COLOR_COUNT,
    ensures
        r.0@ == color_entry(i as int).0,
        r.1 == color_entry(i as int).1,
{
    if i == 0 {
        ("black", (0x00, 0x00, 0x00))
    } else if i == 1 {
        ("bright_black", (0x82, 0x82, 0x82))
    } else if i == 2 {
        ("red", (0xbf, 0x79, 0x79))
    } else if i == 3 {
        ("bright_red", (0xf4, 0xa4, 0x5f))
    } else if i == 4 {
        ("green", (0x97, 0xb2, 0x6b))
    } else if i == 5 {
        ("bright_green", (0xc5, 0xf7, 0x79))
    } else if i == 6 {
        ("yellow", (0xcd, 0xcd, 0xa1))
    } else if i == 7 {
        ("bright_yellow", (0xff, 0xff, 0xaf))
    } else if i == 8 {
        ("blue", (0x86, 0xa2, 0xbe))
    } else if i == 9 {
        ("bright_blue", (0x98, 0xaf, 0xd9))
    } else if i == 10 {
        ("magenta", (0x96, 0x3c, 0x59))
    } else if i == 11 {
        ("bright_magenta", (0xef, 0x9e, 0xbe))
    } else if i == 12 {
        ("cyan", (0x7f, 0x9f, 0x7f))
    } else if i == 13 {
        ("bright_cyan", (0x71, 0xbe, 0xbe))
    } else if i == 14 {
        ("white", (0xde, 0xde, 0xde))
    } else if i == 15 {
        ("bright_white", (0xff, 0xff, 0xff))
    } else {
        ("grey", (0x82, 0x82, 0x82))
    }
}

/// The terminal colours: the name of a named colour and its terminal code.
pub open spec fn sys_entry(i: int) -> (Seq<char>, u8) {
    (color_entry(i).0, sys_code(i))
}

/// The terminal code of the `i`-th terminal colour: 30 to 37 for the plain
/// colours, 90 to 97 for the bright ones.
pub open spec fn sys_code(i: int) -> u8 {
    if i % 2 == 0 {
        (30 + i / 2) as u8
    } else {
        (90 + i / 2) as u8
    }
}

/// The RGB triple of the first named colour called `name`, searching from
/// position `i`.
pub open spec fn color_lookup_from(name: Seq<char>, i: int) -> Option<Rgb>
    decreases COLOR_COUNT - i,
{
    if i < 0 || i >= COLOR_COUNT {
        None
    } else if color_entry(i).0 == name {
        Some(color_entry(i).1)
    } else {
        color_lookup_from(name, i + 1)
    }
}

/// The RGB triple of the first named colour called `name`.
pub open spec fn color_lookup(name: Seq<char>) -> Option<Rgb> {
    color_lookup_from(name, 0)
}

/// Looks a colour up by its exact (already lower-cased) name.
pub fn color_by_exact_name(name: &str) -> (r: Option<Rgb>)
    ensures
        r == color_lookup(name@),
{
    let mut i: usize = 0;
    while i < COLOR_COUNT
        invariant
            i <= COLOR_COUNT,
            color_lookup(name@) == color_lookup_from(name@, i as int),
        decreases COLOR_COUNT - i,
    {
        let (n, rgb) = color_at(i);
        if str_eq(n, name) {
            return Some(rgb);
        }
        i = i + 1;
    }
    None
}

/// The colour that a name in any letter case gives: the name is lower-cased
/// first.
#[verifier::opaque]
pub open spec fn name_color(s: Seq<char>) -> Option<Rgb> {
    color_lookup(lower_text(s))
}

/// Looks a colour up by its name in any letter case (the name is lower-cased
/// first).
fn color_by_name(spec: &str) -> (r: Option<Rgb>)
    ensures
        r == name_color(spec@),
{
    reveal(name_color);
    let lower = lowered(spec);
    color_by_exact_name(lower.as_str())
}

/// Parses a colour name.
fn parse_color_name(spec: &str) -> (r: Option<Rgb>)
    ensures
        r == name_color(spec@),
{
    color_by_name(spec)
}

/// The names of the named colours, in order.
pub open spec fn color_name_list() -> Seq<Seq<char>> {
    Seq::new(COLOR_COUNT as nat, |i: int| color_entry(i).0)
}

/// The names of the named colours, separated by commas.
pub fn color_names() -> (r: String)
    ensures
        r@ == join(color_name_list(), ","@),
{
    let mut r = String::new();
    let mut i: usize = 0;
    while i < COLOR_COUNT
        invariant
            i <= COLOR_COUNT,
            r@ == join(color_name_list().take(i as int), ","@),
        decreases COLOR_COUNT - i,
    {
        let (n, _) = color_at(i);
        proof {
            assert(color_name_list().take(i + 1).drop_last() =~= color_name_list().take(i as int));
        }
        if i > 0 {
            r.append(",");
        } else {
            assert(r@ =~= Seq::<char>::empty());
        }
        r.append(n);
        i = i + 1;
    }
    assert(color_name_list().take(COLOR_COUNT as int) =~= color_name_list());
    r
}

/// The Manhattan distance between two RGB triples.
pub open spec fn rgb_distance(a: Rgb, b: Rgb) -> int {
    abs_int(a.0 - b.0) + abs_int(a.1 - b.1) + abs_int(a.2 - b.2)
}

/// The absolute value of an integer.
pub open spec fn abs_int(x: int) -> int {
    if x < 0 {
        -x
    } else {
        x
    }
}

/// The RGB triple of the `i`-th terminal colour, looked up by its name.
pub open spec fn sys_rgb(i: int) -> Option<Rgb> {
    color_lookup(sys_entry(i).0)
}

/// Terminal colour `k` is, among the first `n`, one of least distance to
/// `rgb`, and the first such.
pub open spec fn is_nearest_among(rgb: Rgb, k: int, n: int) -> bool {
    &&& 0 <= k < n
    &&& sys_rgb(k) is Some
    &&& forall|j: int|
        0 <= j < n && (#[trigger] sys_rgb(j)) is Some ==> rgb_distance(rgb, sys_rgb(k)->0)
            <= rgb_distance(rgb, sys_rgb(j)->0)
    &&& forall|j: int|
        0 <= j < k && (#[trigger] sys_rgb(j)) is Some ==> rgb_distance(rgb, sys_rgb(k)->0)
            < rgb_distance(rgb, sys_rgb(j)->0)
}

/// The terminal code of the first terminal colour nearest to `rgb`.
pub open spec fn nearest_code(rgb: Rgb) -> u8 {
    sys_code(choose|k: int| is_nearest_among(rgb, k, SYS_COLOR_COUNT as int))
}

/// Every named colour is found by its own name.
proof fn lemma_lookup_finds(i: int, from: int)
    requires
        0 <= from <= i < COLOR_COUNT,
    ensures
        color_lookup_from(color_entry(i).0, from) is Some,
    decreases i - from,
{
    if from < i && color_entry(from).0 != color_entry(i).0 {
        lemma_lookup_finds(i, from + 1);
    }
}

/// Two first nearest colours are the same colour.
proof fn lemma_nearest_unique(rgb: Rgb, k1: int, k2: int, n: int)
    requires
        is_nearest_among(rgb, k1, n),
        is_nearest_among(rgb, k2, n),
    ensures
        k1 == k2,
{
    if k1 < k2 {
        assert(sys_rgb(k1) is Some);
    } else if k2 < k1 {
        assert(sys_rgb(k2) is Some);
    }
}

/// The named colours have pairwise different names.
proof fn lemma_names_distinct(k1: int, k2: int)
    requires
        0 <= k1 < k2 < COLOR_COUNT,
    ensures
        color_entry(k1).0 != color_entry(k2).0,
{
    reveal_strlit("black");
    reveal_strlit("bright_black");
    reveal_strlit("red");
    reveal_strlit("bright_red");
    reveal_strlit("green");
    reveal_strlit("bright_green");
    reveal_strlit("yellow");
    reveal_strlit("bright_yellow");
    reveal_strlit("blue");
    reveal_strlit("bright_blue");
    reveal_strlit("magenta");
    reveal_strlit("bright_magenta");
    reveal_strlit("cyan");
    reveal_strlit("bright_cyan");
    reveal_strlit("white");
    reveal_strlit("bright_white");
    reveal_strlit("grey");
    let a = color_entry(k1).0;
    let b = color_entry(k2).0;
    if a == b {
        assert(a.len() == b.len());
        assert(a[0] == b[0]);
        if a.len() > 7 {
            assert(a[7] == b[7]);
        }
    }
}

/// Looking a named colour up by its own name finds that colour.
proof fn lemma_lookup_own_name(i: int, from: int)
    requires
        0 <= from <= i < COLOR_COUNT,
    ensures
        color_lookup_from(color_entry(i).0, from) == Some(color_entry(i).1),
    decreases i - from,
{
    if from < i {
        lemma_names_distinct(from, i);
        lemma_lookup_own_name(i, from + 1);
    }
}

/// The names of the colours are lower-case letters and `_`; the names of
/// three or six characters begin with a letter that is no hexadecimal digit.
proof fn lemma_name_chars(i: int)
    requires
        0 <= i < COLOR_COUNT,
    ensures
        forall|k: int|
            0 <= k < color_entry(i).0.len() ==> ('a' <= #[trigger] color_entry(i).0[k] <= 'z'
                || color_entry(i).0[k] == '_'),
        color_entry(i).0.len() > 0,
        color_entry(i).0.len() == 3 || color_entry(i).0.len() == 6 ==> color_entry(i).0[0] == 'r'
            || color_entry(i).0[0] == 'y',
{
    reveal_strlit("black");
    reveal_strlit("bright_black");
    reveal_strlit("red");
    reveal_strlit("bright_red");
    reveal_strlit("green");
    reveal_strlit("bright_green");
    reveal_strlit("yellow");
    reveal_strlit("bright_yellow");
    reveal_strlit("blue");
    reveal_strlit("bright_blue");
    reveal_strlit("magenta");
    reveal_strlit("bright_magenta");
    reveal_strlit("cyan");
    reveal_strlit("bright_cyan");
    reveal_strlit("white");
    reveal_strlit("bright_white");
    reveal_strlit("grey");
}

/// A colour name in any ASCII letter case gives that colour, in every
/// colour mode: `green`, `Green` and `GREEN` alike.
pub proof fn lemma_named_colour(s: Seq<char>, i: int, colormode: u16)
    requires
        0 <= i < COLOR_COUNT,
        is_ascii_chars(s),
        s.map_values(|c: char| ascii_lower(c)) == color_entry(i).0,
    ensures
        color_spec(s, colormode) == Ok::<Seq<i32>, Seq<char>>(converted(color_entry(i).1, colormode)),
{
    let name = color_entry(i).0;
    lemma_name_chars(i);
    assert forall|k: int| 0 <= k < s.len() implies ascii_lower(#[trigger] s[k]) == name[k] by {
        assert(s.map_values(|c: char| ascii_lower(c))[k] == ascii_lower(s[k]));
    }
    assert forall|k: int| 0 <= k < s.len() implies #[trigger] s[k] != '-' && s[k] != ',' && s[k]
        != ':' && s[k] != '+' by {
        assert(ascii_lower(s[k]) == name[k]);
    }
    lemma_first_index(s, '-');
    lemma_split_without_sep(s, Sep::Char(','));
    lemma_split_without_sep(s, Sep::Char(':'));
    assert(decimal_rgb(s) is None);
    if s.len() == 3 || s.len() == 6 {
        assert(ascii_lower(s[0]) == name[0]);
        assert(digit_value(s[0], 16) is None);
        assert(!all_digits(s.subrange(0, 1), 16)) by {
            assert(s.subrange(0, 1)[0] == s[0]);
        }
        assert(!all_digits(s.subrange(0, 2), 16)) by {
            if s.len() == 6 {
                assert(s.subrange(0, 2)[0] == s[0]);
            }
        }
    }
    assert(hex_rgb(s) is None);
    assert(lower_text(s) == name);
    lemma_lookup_own_name(i, 0);
    reveal(name_color);
}

/// Each of the sixteen terminal colours is its own nearest terminal colour,
/// and `grey`, which has the same triple as `bright_black`, becomes
/// `bright_black`'s code.
pub proof fn lemma_terminal_colours_fixed(i: int)
    requires
        0 <= i < COLOR_COUNT,
    ensures
        i < SYS_COLOR_COUNT ==> nearest_code(color_entry(i).1) == sys_code(i),
        i == SYS_COLOR_COUNT ==> nearest_code(color_entry(i).1) == 90,
{
    let k = if i < SYS_COLOR_COUNT {
        i
    } else {
        1
    };
    let c = color_entry(i).1;
    assert(c == color_entry(k).1);
    assert forall|j: int| 0 <= j < SYS_COLOR_COUNT implies #[trigger] sys_rgb(j) == Some(
        color_entry(j).1,
    ) by {
        lemma_lookup_own_name(j, 0);
    }
    assert forall|j: int| 0 <= j < k implies rgb_distance(c, color_entry(j).1) > 0 by {}
    assert(is_nearest_among(c, k, SYS_COLOR_COUNT as int));
    let w = choose|w: int| is_nearest_among(c, w, SYS_COLOR_COUNT as int);
    lemma_nearest_unique(c, w, k, SYS_COLOR_COUNT as int);
}

/// The distance between two triples, as the terminal colour search computes it.
fn distance(a: Rgb, b: Rgb) -> (d: i32)
    ensures
        d as int == rgb_distance(a, b),
{
    let d0 = a.0 as i32 - b.0 as i32;
    let d1 = a.1 as i32 - b.1 as i32;
    let d2 = a.2 as i32 - b.2 as i32;
    let e0 = if d0 < 0 { -d0 } else { d0 };
    let e1 = if d1 < 0 { -d1 } else { d1 };
    let e2 = if d2 < 0 { -d2 } else { d2 };
    e0 + e1 + e2
}

/// The terminal colour at position `i`.
fn sys_color_at(i: usize) -> (r: (&'static str, u8))
    requires
        i < SYS_COLOR_COUNT,
    ensures
        r.0@ == sys_entry(i as int).0,
        r.1 == sys_entry(i as int).1,
{
    let (name, _) = color_at(i);
    let code: u8 = if i % 2 == 0 {
        30 + (i / 2) as u8
    } else {
        90 + (i / 2) as u8
    };
    (name, code)
}

/// The terminal code of the first terminal colour nearest to `rgb`.
fn nearest_ansi(rgb: Rgb) -> (r: u8)
    ensures
        r == nearest_code(rgb),
{
    let mut best: u8 = 0;
    let mut delta: i32 = i32::MAX;
    let ghost mut k: int = 0;
    let mut i: usize = 0;
    while i < SYS_COLOR_COUNT
        invariant
            i <= SYS_COLOR_COUNT,
            i > 0 ==> is_nearest_among(rgb, k, i as int) && best == sys_code(k) && delta as int
                == rgb_distance(rgb, sys_rgb(k)->0),
            i == 0 ==> delta == i32::MAX,
        decreases SYS_COLOR_COUNT - i,
    {
        let (name, code) = sys_color_at(i);
        proof {
            lemma_lookup_finds(i as int, 0);
        }
        match color_by_exact_name(name) {
            Some(c) => {
                let d = distance(rgb, c);
                if d < delta {
                    delta = d;
                    best = code;
                    proof {
                        k = i as int;
                    }
                }
            },
            None => {},
        }
        i = i + 1;
    }
    proof {
        let w = choose|w: int| is_nearest_among(rgb, w, SYS_COLOR_COUNT as int);
        assert(is_nearest_among(rgb, k, SYS_COLOR_COUNT as int));
        lemma_nearest_unique(rgb, w, k, SYS_COLOR_COUNT as int);
    }
    best
}

/// A triple as terminal codes: the components in 256-colour mode, the nearest
/// terminal colour code in any other mode.
pub open spec fn converted(rgb: Rgb, colormode: u16) -> Seq<i32> {
    if colormode == 256 {
        seq![rgb.0 as i32, rgb.1 as i32, rgb.2 as i32]
    } else {
        seq![nearest_code(rgb) as i32]
    }
}

/// Converts a triple into terminal codes for the colour mode.
fn convert_rgb(rgb: Rgb, colormode: u16) -> (r: ColorVec)
    ensures
        r@ == converted(rgb, colormode),
{
    if colormode == 256 {
        vec![rgb.0 as i32, rgb.1 as i32, rgb.2 as i32]
    } else {
        vec![nearest_ansi(rgb) as i32]
    }
}

/// What `u8::from_str_radix` gives for a character sequence.
pub open spec fn parse_u8(s: Seq<char>, radix: nat) -> Option<u8> {
    match parse_unsigned(s, radix, 255) {
        Some(v) => Some(v as u8),
        None => None,
    }
}

/// The triple of three parsed components, when all three parse.
pub open spec fn triple(p0: Seq<char>, p1: Seq<char>, p2: Seq<char>, radix: nat) -> Option<Rgb> {
    match (parse_u8(p0, radix), parse_u8(p1, radix), parse_u8(p2, radix)) {
        (Some(r), Some(g), Some(b)) => Some((r, g, b)),
        _ => None,
    }
}

/// `d,d,d` in decimal, or else `h:h:h` in hexadecimal. Three comma-separated
/// pieces that do not all parse give no colour, without trying `:`.
pub open spec fn decimal_rgb(s: Seq<char>) -> Option<Rgb> {
    let p = split(s, Sep::Char(','));
    let q = split(s, Sep::Char(':'));
    if p.len() == 3 {
        triple(p[0], p[1], p[2], 10)
    } else if q.len() == 3 {
        triple(q[0], q[1], q[2], 16)
    } else {
        None
    }
}

/// `hhhhhh`, or `hhh` with each digit doubled (`x * 17`). Only ASCII text
/// can give a colour: any other text of any length is no hexadecimal colour.
pub open spec fn hex_rgb(s: Seq<char>) -> Option<Rgb> {
    if is_ascii_chars(s) && s.len() == 6 {
        triple(s.subrange(0, 2), s.subrange(2, 4), s.subrange(4, 6), 16)
    } else if is_ascii_chars(s) && s.len() == 3 {
        match triple(s.subrange(0, 1), s.subrange(1, 2), s.subrange(2, 3), 16) {
            Some((r, g, b)) => Some(((r * 17) as u8, (g * 17) as u8, (b * 17) as u8)),
            None => None,
        }
    } else {
        None
    }
}

/// The colour that a specification gives in a colour mode, or the error text.
/// A `-` splits a gradient: both ends are parsed, and six components (start
/// then end) result when both have three; otherwise the start alone.
pub open spec fn color_spec(s: Seq<char>, colormode: u16) -> Result<Seq<i32>, Seq<char>>
    decreases s.len(),
{
    match first_index(s, '-') {
        Some(j) => if 0 <= j < s.len() {
            match color_spec(s.take(j), colormode) {
                Err(e) => Err(e),
                Ok(a) => match color_spec(s.skip(j + 1), colormode) {
                    Err(e) => Err(e),
                    Ok(b) => if a.len() < 3 || b.len() < 3 {
                        Ok(a)
                    } else {
                        Ok(seq![a[0], a[1], a[2], b[0], b[1], b[2]])
                    },
                },
            }
        } else {
            Err(s)
        },
        None => match decimal_rgb(s) {
            Some(c) => Ok(converted(c, colormode)),
            None => match hex_rgb(s) {
                Some(c) => Ok(converted(c, colormode)),
                None => match name_color(s) {
                    Some(c) => Ok(converted(c, colormode)),
                    None => Err("invalid color "@ + s),
                },
            },
        },
    }
}

/// The view of a parse result.
pub open spec fn result_view(r: Result<ColorVec, String>) -> Result<Seq<i32>, Seq<char>> {
    match r {
        Ok(v) => Ok(v@),
        Err(e) => Err(e@),
    }
}

/// Parses three pieces as components.
fn parse_triple(p: &Vec<Vec<char>>, radix: u32) -> (r: Option<Rgb>)
    requires
        p.len() == 3,
        radix == 10 || radix == 16,
    ensures
        r == triple(p@[0]@, p@[1]@, p@[2]@, radix as nat),
{
    let r = parse_unsigned_range(&p[0], 0, p[0].len(), radix, 255);
    let g = parse_unsigned_range(&p[1], 0, p[1].len(), radix, 255);
    let b = parse_unsigned_range(&p[2], 0, p[2].len(), radix, 255);
    assert(p@[0]@.subrange(0, p@[0]@.len() as int) =~= p@[0]@);
    assert(p@[1]@.subrange(0, p@[1]@.len() as int) =~= p@[1]@);
    assert(p@[2]@.subrange(0, p@[2]@.len() as int) =~= p@[2]@);
    match (r, g, b) {
        (Some(r), Some(g), Some(b)) => Some((r as u8, g as u8, b as u8)),
        _ => None,
    }
}

/// Parses `d,d,d` (decimal) or `h:h:h` (hexadecimal).
pub fn parse_decimal_rgb(spec: &str) -> (r: Option<Rgb>)
    ensures
        r == decimal_rgb(spec@),
{
    let v = chars_of(spec);
    let parts = split_chars(&v, Sep::Char(','));
    if parts.len() == 3 {
        assert(views(parts@)[0] == parts@[0]@ && views(parts@)[1] == parts@[1]@ && views(parts@)[2]
            == parts@[2]@);
        return parse_triple(&parts, 10);
    }
    let parts = split_chars(&v, Sep::Char(':'));
    if parts.len() == 3 {
        assert(views(parts@)[0] == parts@[0]@ && views(parts@)[1] == parts@[1]@ && views(parts@)[2]
            == parts@[2]@);
        return parse_triple(&parts, 16);
    }
    None
}

/// Parses `v[lo..hi]` as a hexadecimal component.
fn hex_piece(v: &Vec<char>, lo: usize, hi: usize) -> (r: Option<u8>)
    requires
        lo <= hi <= v.len(),
    ensures
        r == parse_u8(v@.subrange(lo as int, hi as int), 16),
{
    match parse_unsigned_range(v, lo, hi, 16, 255) {
        Some(x) => Some(x as u8),
        None => None,
    }
}

/// Parses `hhhhhh` or `hhh`.
pub fn parse_hex_rgb(spec: &str) -> (r: Option<Rgb>)
    ensures
        r == hex_rgb(spec@),
{
    if !spec.is_ascii() {
        return None;
    }
    let v = chars_of(spec);
    if v.len() == 6 {
        let r = hex_piece(&v, 0, 2);
        let g = hex_piece(&v, 2, 4);
        let b = hex_piece(&v, 4, 6);
        return match (r, g, b) {
            (Some(r), Some(g), Some(b)) => Some((r, g, b)),
            _ => None,
        };
    }
    if v.len() == 3 {
        let r = hex_piece(&v, 0, 1);
        let g = hex_piece(&v, 1, 2);
        let b = hex_piece(&v, 2, 3);
        return match (r, g, b) {
            (Some(r), Some(g), Some(b)) => {
                assert(r <= 15 && g <= 15 && b <= 15) by {
                    lemma_single_digit(v@.subrange(0, 1));
                    lemma_single_digit(v@.subrange(1, 2));
                    lemma_single_digit(v@.subrange(2, 3));
                }
                Some((r * 17, g * 17, b * 17))
            },
            _ => None,
        };
    }
    None
}

/// A single hexadecimal character is at most fifteen.
proof fn lemma_single_digit(s: Seq<char>)
    requires
        s.len() == 1,
    ensures
        parse_u8(s, 16) matches Some(x) ==> x <= 15,
{
    let d = if s.len() > 0 && s[0] == '+' { s.drop_first() } else { s };
    if d.len() == 1 {
        assert(digits_value(d.drop_last(), 16) == 0);
        let c = d.last();
        assert(digit_value(c, 16) matches Some(v) ==> v <= 15);
        assert(digits_value(d, 16) == digit_value(c, 16).unwrap_or(0));
    }
}

/// Parses a colour specification in a colour mode: a gradient `a-b`, then
/// `d,d,d` or `h:h:h`, then `hhhhhh` or `hhh`, then a colour name in any
/// letter case; anything else is the error `invalid color <spec>`.
pub fn rgb(spec: &str, colormode: u16) -> (r: Result<ColorVec, String>)
    ensures
        result_view(r) == color_spec(spec@, colormode),
    decreases spec@.len(),
{
    let v = chars_of(spec);
    proof {
        lemma_first_index(v@, '-');
    }
    match find_char(&v, '-') {
        Some(idx) => {
            let left = string_from(&v, 0, idx);
            let right = string_from(&v, idx + 1, v.len());
            assert(left@ == spec@.take(idx as int));
            assert(right@ == spec@.skip(idx + 1));
            let start = match rgb(left.as_str(), colormode) {
                Ok(x) => x,
                Err(e) => return Err(e),
            };
            let end = match rgb(right.as_str(), colormode) {
                Ok(x) => x,
                Err(e) => return Err(e),
            };
            if start.len() < 3 || end.len() < 3 {
                return Ok(start);
            }
            let both = vec![start[0], start[1], start[2], end[0], end[1], end[2]];
            assert(both@ =~= seq![start@[0], start@[1], start@[2], end@[0], end@[1], end@[2]]);
            return Ok(both);
        },
        None => {},
    }
    if let Some(c) = parse_decimal_rgb(spec) {
        return Ok(convert_rgb(c, colormode));
    }
    if let Some(c) = parse_hex_rgb(spec) {
        return Ok(convert_rgb(c, colormode));
    }
    if let Some(c) = parse_color_name(spec) {
        return Ok(convert_rgb(c, colormode));
    }
    let mut e = String::new();
    e.append("invalid color ");
    e.append(spec);
    assert(e@ =~= "invalid color "@ + spec@);
    Err(e)
}

/// Every code in a parsed colour lies between 0 and 255.
pub open spec fn codes_in_byte_range(v: Seq<i32>) -> bool {
    forall|i: int| 0 <= i < v.len() ==> 0 <= #[trigger] v[i] <= 255
}

/// A terminal code is at most 97.
proof fn lemma_nearest_code_range(rgb: Rgb)
    ensures
        nearest_code(rgb) <= 97,
{
    let k = lemma_nearest_exists(rgb, SYS_COLOR_COUNT as int);
    let w = choose|w: int| is_nearest_among(rgb, w, SYS_COLOR_COUNT as int);
    lemma_nearest_unique(rgb, w, k, SYS_COLOR_COUNT as int);
}

/// Among the first `n` terminal colours there is a first nearest one.
proof fn lemma_nearest_exists(rgb: Rgb, n: int) -> (k: int)
    requires
        1 <= n <= SYS_COLOR_COUNT,
    ensures
        is_nearest_among(rgb, k, n),
    decreases n,
{
    lemma_lookup_finds(n - 1, 0);
    if n == 1 {
        0
    } else {
        let k = lemma_nearest_exists(rgb, n - 1);
        if rgb_distance(rgb, sys_rgb(n - 1)->0) < rgb_distance(rgb, sys_rgb(k)->0) {
            n - 1
        } else {
            k
        }
    }
}

/// Whatever a colour specification gives, each of its codes lies between 0
/// and 255, and there are one, three or six of them.
pub proof fn lemma_color_spec_codes(s: Seq<char>, colormode: u16)
    ensures
        color_spec(s, colormode) matches Ok(v) ==> codes_in_byte_range(v) && (v.len() == 1
            || v.len() == 3 || v.len() == 6),
    decreases s.len(),
{
    lemma_first_index(s, '-');
    match first_index(s, '-') {
        Some(j) => {
            lemma_color_spec_codes(s.take(j), colormode);
            lemma_color_spec_codes(s.skip(j + 1), colormode);
        },
        None => {
            match decimal_rgb(s) {
                Some(c) => lemma_converted_codes(c, colormode),
                None => match hex_rgb(s) {
                    Some(c) => lemma_converted_codes(c, colormode),
                    None => match name_color(s) {
                        Some(c) => lemma_converted_codes(c, colormode),
                        None => {},
                    },
                },
            }
        },
    }
}

proof fn lemma_converted_codes(c: Rgb, colormode: u16)
    ensures
        codes_in_byte_range(converted(c, colormode)),
        converted(c, colormode).len() == 1 || converted(c, colormode).len() == 3,
{
    lemma_nearest_code_range(c);
}

/// A sixteen-colour terminal code: 30 to 37, or 90 to 97 for the bright
/// colours.
pub open spec fn is_terminal_code(c: int) -> bool {
    30 <= c <= 37 || 90 <= c <= 97
}

/// The nearest terminal colour is one of the sixteen.
proof fn lemma_nearest_is_terminal(rgb: Rgb)
    ensures
        is_terminal_code(nearest_code(rgb) as int),
{
    let k = lemma_nearest_exists(rgb, SYS_COLOR_COUNT as int);
    let w = choose|w: int| is_nearest_among(rgb, w, SYS_COLOR_COUNT as int);
    lemma_nearest_unique(rgb, w, k, SYS_COLOR_COUNT as int);
}

/// Outside 256-colour mode, every specification that parses, gradients
/// included, gives exactly one code, and that code is one of the sixteen
/// terminal colours.
pub proof fn lemma_sixteen_colour_codes(s: Seq<char>, colormode: u16)
    requires
        colormode != 256,
    ensures
        color_spec(s, colormode) matches Ok(v) ==> v.len() == 1 && is_terminal_code(v[0] as int),
    decreases s.len(),
{
    lemma_first_index(s, '-');
    match first_index(s, '-') {
        Some(j) => {
            lemma_sixteen_colour_codes(s.take(j), colormode);
            lemma_sixteen_colour_codes(s.skip(j + 1), colormode);
        },
        None => {
            match decimal_rgb(s) {
                Some(c) => lemma_nearest_is_terminal(c),
                None => match hex_rgb(s) {
                    Some(c) => lemma_nearest_is_terminal(c),
                    None => match name_color(s) {
                        Some(c) => lemma_nearest_is_terminal(c),
                        None => {},
                    },
                },
            }
        },
    }
}

/// In 256-colour mode, a specification that parses gives three components,
/// or six (start then end) when it is a gradient.
#[verifier::spinoff_prover]
pub proof fn lemma_full_colour_components(s: Seq<char>)
    ensures
        color_spec(s, 256) matches Ok(v) ==> if first_index(s, '-') is Some {
            v.len() == 6
        } else {
            v.len() == 3
        },
    decreases s.len(),
{
    lemma_first_index(s, '-');
    match first_index(s, '-') {
        Some(j) => {
            lemma_full_colour_components(s.take(j));
            lemma_full_colour_components(s.skip(j + 1));
        },
        None => {},
    }
}

/// The gradient that two specifications joined by `-` give: an error of
/// either end (the start's first), the start alone when an end has fewer
/// than three codes, else the start's first three codes then the end's.
pub open spec fn gradient_of(
    start: Result<Seq<i32>, Seq<char>>,
    end: Result<Seq<i32>, Seq<char>>,
) -> Result<Seq<i32>, Seq<char>> {
    match start {
        Err(e) => Err(e),
        Ok(a) => match end {
            Err(e) => Err(e),
            Ok(b) => if a.len() < 3 || b.len() < 3 {
                Ok(a)
            } else {
                Ok(a.take(3) + b.take(3))
            },
        },
    }
}

/// `a-b`, where `a` holds no `-`, is the gradient from what `a` gives to
/// what `b` gives. In 256-colour mode with two plain colours it is the six
/// components of both ends.
#[verifier::spinoff_prover]
#[verifier::rlimit(30)]
pub proof fn lemma_gradient_ends(a: Seq<char>, b: Seq<char>, colormode: u16)
    requires
        first_index(a, '-') is None,
    ensures
        color_spec(a + seq!['-'] + b, colormode) == gradient_of(
            color_spec(a, colormode),
            color_spec(b, colormode),
        ),
        colormode == 256 && first_index(b, '-') is None ==> (color_spec(a + seq!['-'] + b, colormode)
            matches Ok(v) ==> color_spec(a, colormode) matches Ok(x) && color_spec(b, colormode) matches Ok(
            y,
        ) && v == x + y),
{
    let s = a + seq!['-'] + b;
    lemma_first_index(a, '-');
    lemma_first_index(s, '-');
    assert(s[a.len() as int] == '-');
    assert forall|j: int| 0 <= j < a.len() implies s[j] != '-' by {
        assert(s[j] == a[j]);
    }
    assert(first_index(s, '-') == Some(a.len() as int));
    assert(s.take(a.len() as int) =~= a);
    assert(s.skip(a.len() as int + 1) =~= b);
    lemma_full_colour_components(a);
    lemma_full_colour_components(b);
    if let Ok(x) = color_spec(a, colormode) {
        if let Ok(y) = color_spec(b, colormode) {
            if x.len() >= 3 && y.len() >= 3 {
                assert(seq![x[0], x[1], x[2], y[0], y[1], y[2]] =~= x.take(3) + y.take(3));
                if colormode == 256 && first_index(b, '-') is None {
                    assert(x.take(3) =~= x);
                    assert(y.take(3) =~= y);
                }
            }
        }
    }
}

/// A hexadecimal digit.
pub open spec fn is_hex_digit(c: char) -> bool {
    digit_value(c, 16) is Some
}

/// Text without separators is split into one piece, itself.
pub proof fn lemma_split_without_sep(s: Seq<char>, sep: Sep)
    requires
        forall|i: int| 0 <= i < s.len() ==> !sep.splits_at(#[trigger] s[i]),
    ensures
        split(s, sep) == seq![s],
    decreases s.len(),
{
    if s.len() == 0 {
        assert(s =~= Seq::<char>::empty());
    } else {
        lemma_split_without_sep(s.drop_last(), sep);
        assert(!sep.splits_at(s.last()));
        assert(s.drop_last().push(s.last()) =~= s);
        assert(seq![s.drop_last()].update(0, s) =~= seq![s]);
    }
}

/// One hexadecimal digit parses as its value, and the digit written twice as
/// seventeen times its value.
proof fn lemma_hex_digit_twice(h: char)
    requires
        is_hex_digit(h),
    ensures
        parse_u8(seq![h], 16) == Some(digit_value(h, 16)->0 as u8),
        parse_u8(seq![h, h], 16) == Some((17 * digit_value(h, 16)->0) as u8),
        digit_value(h, 16)->0 <= 15,
{
    let d = digit_value(h, 16)->0;
    assert(seq![h].drop_last() =~= Seq::<char>::empty());
    assert(seq![h, h].drop_last() =~= seq![h]);
    assert(digits_value(Seq::<char>::empty(), 16) == 0);
    assert(seq![h].last() == h);
    assert(digits_value(seq![h], 16) == d);
    assert(digits_value(seq![h, h], 16) == d * 16 + d);
    assert(all_digits(seq![h], 16));
    assert(all_digits(seq![h, h], 16));
}

/// The short hexadecimal form `hhh` is the long form with each digit written
/// twice: `0f0` is `00ff00`, in every colour mode.
pub proof fn lemma_short_hex(h1: char, h2: char, h3: char, colormode: u16)
    requires
        is_hex_digit(h1),
        is_hex_digit(h2),
        is_hex_digit(h3),
    ensures
        hex_rgb(seq![h1, h2, h3]) == hex_rgb(seq![h1, h1, h2, h2, h3, h3]),
        hex_rgb(seq![h1, h2, h3]) == Some(
            (
                (17 * digit_value(h1, 16)->0) as u8,
                (17 * digit_value(h2, 16)->0) as u8,
                (17 * digit_value(h3, 16)->0) as u8,
            ),
        ),
        color_spec(seq![h1, h2, h3], colormode) == color_spec(seq![h1, h1, h2, h2, h3, h3], colormode),
        color_spec(seq![h1, h2, h3], colormode) == Ok::<Seq<i32>, Seq<char>>(
            converted(
                (
                    (17 * digit_value(h1, 16)->0) as u8,
                    (17 * digit_value(h2, 16)->0) as u8,
                    (17 * digit_value(h3, 16)->0) as u8,
                ),
                colormode,
            ),
        ),
{
    let short = seq![h1, h2, h3];
    let long = seq![h1, h1, h2, h2, h3, h3];
    lemma_hex_digit_twice(h1);
    lemma_hex_digit_twice(h2);
    lemma_hex_digit_twice(h3);
    lemma_first_index(short, '-');
    lemma_first_index(long, '-');
    assert(first_index(short, '-') is None);
    assert(first_index(long, '-') is None);
    lemma_split_without_sep(short, Sep::Char(','));
    lemma_split_without_sep(short, Sep::Char(':'));
    lemma_split_without_sep(long, Sep::Char(','));
    lemma_split_without_sep(long, Sep::Char(':'));
    assert(decimal_rgb(short) is None);
    assert(decimal_rgb(long) is None);
    assert(is_ascii_chars(short));
    assert(is_ascii_chars(long));
    assert(short.subrange(0, 1) =~= seq![h1]);
    assert(short.subrange(1, 2) =~= seq![h2]);
    assert(short.subrange(2, 3) =~= seq![h3]);
    assert(long.subrange(0, 2) =~= seq![h1, h1]);
    assert(long.subrange(2, 4) =~= seq![h2, h2]);
    assert(long.subrange(4, 6) =~= seq![h3, h3]);
}

/// The lower-case hexadecimal digit of a value below sixteen.
pub open spec fn hex_char(d: nat) -> char {
    if d < 10 {
        ((d + 48) as u8) as char
    } else {
        ((d + 87) as u8) as char
    }
}

/// A byte as two hexadecimal digits.
pub open spec fn hex_pair(n: u8) -> Seq<char> {
    seq![hex_char(n as nat / 16), hex_char(n as nat % 16)]
}

/// A triple written `d,d,d`.
pub open spec fn decimal_form(c: Rgb) -> Seq<char> {
    decimal_digits(c.0 as nat) + seq![','] + decimal_digits(c.1 as nat) + seq![','] + decimal_digits(
        c.2 as nat,
    )
}

/// A triple written `h:h:h`.
pub open spec fn colon_form(c: Rgb) -> Seq<char> {
    hex_pair(c.0) + seq![':'] + hex_pair(c.1) + seq![':'] + hex_pair(c.2)
}

/// A triple written `hhhhhh`.
pub open spec fn hex_form(c: Rgb) -> Seq<char> {
    hex_pair(c.0) + hex_pair(c.1) + hex_pair(c.2)
}

/// Two hexadecimal digits are hexadecimal digits and read back as the byte.
proof fn lemma_hex_pair(n: u8)
    ensures
        is_hex_digit(hex_pair(n)[0]),
        is_hex_digit(hex_pair(n)[1]),
        hex_pair(n)[0] != ',' && hex_pair(n)[1] != ',',
        hex_pair(n)[0] != ':' && hex_pair(n)[1] != ':',
        hex_pair(n)[0] != '-' && hex_pair(n)[1] != '-',
        '\0' <= hex_pair(n)[0] <= '\u{7f}' && '\0' <= hex_pair(n)[1] <= '\u{7f}',
        parse_u8(hex_pair(n), 16) == Some(n),
{
    let p = hex_pair(n);
    let hi = n as nat / 16;
    let lo = n as nat % 16;
    assert(digit_value(hex_char(hi), 16) == Some(hi));
    assert(digit_value(hex_char(lo), 16) == Some(lo));
    assert(p.drop_last() =~= seq![hex_char(hi)]);
    assert(seq![hex_char(hi)].drop_last() =~= Seq::<char>::empty());
    assert(digits_value(Seq::<char>::empty(), 16) == 0);
    assert(digits_value(seq![hex_char(hi)], 16) == hi);
    assert(digits_value(p, 16) == hi * 16 + lo);
    assert(all_digits(p, 16));
}

/// A digit of decimal text is no separator.
pub proof fn lemma_decimal_chars(n: nat)
    ensures
        decimal_digits(n).len() > 0,
        forall|i: int|
            0 <= i < decimal_digits(n).len() ==> '0' <= #[trigger] decimal_digits(n)[i] <= '9',
        parse_u8(decimal_digits(n), 10) == (if n <= 255 { Some(n as u8) } else { None::<u8> }),
{
    lemma_decimal_digits_value(n);
    let d = decimal_digits(n);
    assert forall|i: int| 0 <= i < d.len() implies '0' <= #[trigger] d[i] <= '9' by {
        assert(digit_value(d[i], 10) is Some);
    }
}

/// Text whose characters are none of `-` has no first `-`.
proof fn lemma_no_dash(s: Seq<char>)
    requires
        forall|i: int| 0 <= i < s.len() ==> #[trigger] s[i] != '-',
    ensures
        first_index(s, '-') is None,
{
    lemma_first_index(s, '-');
}

/// Only ASCII text of three or six characters can be a hexadecimal colour.
pub proof fn lemma_hex_lengths(s: Seq<char>)
    ensures
        !(is_ascii_chars(s) && (s.len() == 3 || s.len() == 6)) ==> hex_rgb(s) is None,
{
}

/// A triple written `d,d,d` reads back as the triple.
proof fn lemma_decimal_form(c: Rgb)
    ensures
        first_index(decimal_form(c), '-') is None,
        decimal_rgb(decimal_form(c)) == Some(c),
{
    let (r, g, b) = c;
    lemma_decimal_chars(r as nat);
    lemma_decimal_chars(g as nat);
    lemma_decimal_chars(b as nat);
    let dr = decimal_digits(r as nat);
    let dg = decimal_digits(g as nat);
    let db = decimal_digits(b as nat);
    let d = decimal_form(c);
    assert forall|i: int| 0 <= i < d.len() implies #[trigger] d[i] != '-' by {
        if i < dr.len() {
            assert(d[i] == dr[i]);
        } else if i == dr.len() {
        } else if i < dr.len() + 1 + dg.len() {
            assert(d[i] == dg[i - dr.len() - 1]);
        } else if i == dr.len() + 1 + dg.len() {
        } else {
            assert(d[i] == db[i - dr.len() - 2 - dg.len()]);
        }
    }
    lemma_no_dash(d);
    lemma_split_concat(dr + seq![','] + dg, ',', db, Sep::Char(','));
    lemma_split_concat(dr, ',', dg, Sep::Char(','));
    lemma_split_without_sep(dr, Sep::Char(','));
    lemma_split_without_sep(dg, Sep::Char(','));
    lemma_split_without_sep(db, Sep::Char(','));
    assert(split(d, Sep::Char(',')) =~= seq![dr, dg, db]);
}

/// A triple written `h:h:h` reads back as the triple.
proof fn lemma_colon_form(c: Rgb)
    ensures
        first_index(colon_form(c), '-') is None,
        decimal_rgb(colon_form(c)) == Some(c),
{
    let (r, g, b) = c;
    lemma_hex_pair(r);
    lemma_hex_pair(g);
    lemma_hex_pair(b);
    let (hr, hg, hb) = (hex_pair(r), hex_pair(g), hex_pair(b));
    let q = colon_form(c);
    assert(q =~= seq![hr[0], hr[1], ':', hg[0], hg[1], ':', hb[0], hb[1]]);
    assert forall|i: int| 0 <= i < q.len() implies #[trigger] q[i] != '-' && q[i] != ',' by {}
    lemma_no_dash(q);
    lemma_split_without_sep(q, Sep::Char(','));
    lemma_split_concat(hr + seq![':'] + hg, ':', hb, Sep::Char(':'));
    lemma_split_concat(hr, ':', hg, Sep::Char(':'));
    lemma_split_without_sep(hr, Sep::Char(':'));
    lemma_split_without_sep(hg, Sep::Char(':'));
    lemma_split_without_sep(hb, Sep::Char(':'));
    assert(split(q, Sep::Char(':')) =~= seq![hr, hg, hb]);
}

/// A triple written `hhhhhh` reads back as the triple.
proof fn lemma_hex_form(c: Rgb)
    ensures
        first_index(hex_form(c), '-') is None,
        decimal_rgb(hex_form(c)) is None,
        hex_rgb(hex_form(c)) == Some(c),
{
    let (r, g, b) = c;
    lemma_hex_pair(r);
    lemma_hex_pair(g);
    lemma_hex_pair(b);
    let (hr, hg, hb) = (hex_pair(r), hex_pair(g), hex_pair(b));
    let h = hex_form(c);
    assert(h =~= seq![hr[0], hr[1], hg[0], hg[1], hb[0], hb[1]]);
    assert forall|i: int| 0 <= i < h.len() implies #[trigger] h[i] != '-' && h[i] != ',' && h[i]
        != ':' && '\0' <= h[i] <= '\u{7f}' by {}
    lemma_no_dash(h);
    lemma_split_without_sep(h, Sep::Char(','));
    lemma_split_without_sep(h, Sep::Char(':'));
    assert(is_ascii_chars(h));
    assert(h.subrange(0, 2) =~= hr);
    assert(h.subrange(2, 4) =~= hg);
    assert(h.subrange(4, 6) =~= hb);
}

/// The three written forms of a triple, `d,d,d`, `h:h:h` and `hhhhhh`, name
/// the same colour, in every colour mode: `0,255,0`, `0:ff:0` and `00ff00`
/// alike.
pub proof fn lemma_same_colour_forms(c: Rgb, colormode: u16)
    ensures
        color_spec(decimal_form(c), colormode) == Ok::<Seq<i32>, Seq<char>>(converted(c, colormode)),
        color_spec(colon_form(c), colormode) == Ok::<Seq<i32>, Seq<char>>(converted(c, colormode)),
        color_spec(hex_form(c), colormode) == Ok::<Seq<i32>, Seq<char>>(converted(c, colormode)),
{
    lemma_decimal_form(c);
    lemma_colon_form(c);
    lemma_hex_form(c);
}

/// The six-level cube coordinate of a component, `floor(c * 6 / 256)`.
pub open spec fn color_level(c: int) -> int {
    (c * 3) / 128
}

/// The components whose cube coordinate is stated exactly: up to this
/// magnitude, scaling by `6 / 256` in single precision loses nothing, so the
/// escape sequence does not depend on rounding.
pub open spec fn exact_component(c: i32) -> bool {
    -4194304 <= c <= 4194304
}

/// The escape sequence that selects a colour as foreground or background:
/// `ESC[<code>m` in sixteen-colour mode (the first code, 39 when there is
/// none, plus 10 for a background), `ESC[38;5;<n>m` or `ESC[48;5;<n>m` in
/// other modes when there are three components (`n` the index in the
/// 6x6x6 colour cube), and nothing otherwise.
pub open spec fn term_color_text(is_bg: bool, color: Seq<i32>, colormode: u16) -> Seq<char> {
    if colormode == 16 {
        let base = if color.len() > 0 {
            color[0] as int
        } else {
            39
        };
        let code = if is_bg {
            base + 10
        } else {
            base
        };
        "\x1b["@ + int_text(code) + "m"@
    } else if color.len() < 3 {
        Seq::empty()
    } else {
        let col = 16 + color_level(color[0] as int) * 36 + color_level(color[1] as int) * 6
            + color_level(color[2] as int);
        "\x1b["@ + (if is_bg {
            "48"@
        } else {
            "38"@
        }) + ";5;"@ + int_text(col) + "m"@
    }
}

/// The escape sequence can be computed: the background code does not
/// overflow, and cube components are within the exactly scaled range.
pub open spec fn term_color_computable(is_bg: bool, color: Seq<i32>, colormode: u16) -> bool {
    &&& (colormode == 16 && is_bg && color.len() > 0 ==> color[0] <= i32::MAX - 10)
    &&& (colormode != 16 && color.len() >= 3 ==> exact_component(color[0]) && exact_component(
        color[1],
    ) && exact_component(color[2]))
}

/// `floor(c * 3 / 128)`.
fn level(c: i32) -> (r: i32)
    requires
        exact_component(c),
    ensures
        r as int == color_level(c as int),
        -98304 <= r <= 98304,
{
    let p: i64 = c as i64 * 3;
    if p >= 0 {
        (p / 128) as i32
    } else {
        let q: i64 = (-p + 127) / 128;
        assert(-q == p / 128) by (nonlinear_arith)
            requires
                p < 0,
                q == (-p + 127) / 128,
        ;
        (-q) as i32
    }
}

/// The escape sequence that selects a colour as foreground or background.
fn term_color(is_bg: bool, color: &ColorVec, colormode: u16) -> (r: String)
    requires
        term_color_computable(is_bg, color@, colormode),
    ensures
        r@ == term_color_text(is_bg, color@, colormode),
{
    if colormode == 16 {
        let mut code: i32 = if color.len() > 0 {
            color[0]
        } else {
            39
        };
        if is_bg {
            code = code + 10;
        }
        let mut r = String::new();
        r.append("\x1b[");
        push_int(&mut r, code);
        r.append("m");
        assert(r@ =~= term_color_text(is_bg, color@, colormode));
        return r;
    }
    if color.len() < 3 {
        return String::new();
    }
    let col: i32 = 16 + level(color[0]) * 36 + level(color[1]) * 6 + level(color[2]);
    let mut r = String::new();
    r.append("\x1b[");
    r.append(if is_bg {
        "48"
    } else {
        "38"
    });
    r.append(";5;");
    push_int(&mut r, col);
    r.append("m");
    assert(r@ =~= term_color_text(is_bg, color@, colormode));
    r
}

/// The foreground escape sequence, then the background one when there is a
/// background colour.
pub open spec fn color_sequence_text(fg: Seq<i32>, bg: Option<Seq<i32>>, colormode: u16) -> Seq<
    char,
> {
    term_color_text(false, fg, colormode) + match bg {
        Some(c) => term_color_text(true, c, colormode),
        None => Seq::empty(),
    }
}

/// The view of an optional colour.
pub open spec fn opt_view(c: Option<ColorVec>) -> Option<Seq<i32>> {
    match c {
        Some(v) => Some(v@),
        None => None,
    }
}

/// Both colours' escape sequences can be computed.
pub open spec fn colors_computable(fg: Seq<i32>, bg: Option<Seq<i32>>, colormode: u16) -> bool {
    &&& term_color_computable(false, fg, colormode)
    &&& (bg matches Some(c) ==> term_color_computable(true, c, colormode))
}

/// The escape sequences that select a foreground and an optional background.
pub fn color_sequence(fg: &ColorVec, bg: &Option<ColorVec>, colormode: u16) -> (r: String)
    requires
        colors_computable(fg@, opt_view(*bg), colormode),
    ensures
        r@ == color_sequence_text(fg@, opt_view(*bg), colormode),
{
    let mut out = String::new();
    let f = term_color(false, fg, colormode);
    out.append(f.as_str());
    if let Some(color) = bg {
        let b = term_color(true, color, colormode);
        out.append(b.as_str());
    }
    assert(out@ =~= color_sequence_text(fg@, opt_view(*bg), colormode));
    out
}

/// For a byte, the cube coordinate is `floor(c * 6 / 256)`, from 0 to 5.
pub proof fn lemma_cube_level(c: int)
    requires
        0 <= c <= 255,
    ensures
        0 <= color_level(c) <= 5,
        color_level(c) * 256 <= c * 6 < (color_level(c) + 1) * 256,
{
}

/// The 256-colour escape sequence of three bytes selects cube colour
/// `16 + 36 x + 6 y + z`, where `x`, `y`, `z` are the components scaled to
/// six levels and rounded down; the index lies between 16 and 231.
pub proof fn lemma_cube_index(r: u8, g: u8, b: u8, is_bg: bool, colormode: u16, x: int, y: int, z: int)
    requires
        colormode != 16,
        x * 256 <= r * 6 < (x + 1) * 256,
        y * 256 <= g * 6 < (y + 1) * 256,
        z * 256 <= b * 6 < (z + 1) * 256,
    ensures
        term_color_text(is_bg, seq![r as i32, g as i32, b as i32], colormode) == "\x1b["@ + (if is_bg {
            "48"@
        } else {
            "38"@
        }) + ";5;"@ + int_text(16 + 36 * x + 6 * y + z) + "m"@,
        16 <= 16 + 36 * x + 6 * y + z <= 231,
{
    lemma_cube_level(r as int);
    lemma_cube_level(g as int);
    lemma_cube_level(b as int);
    assert(color_level(r as int) == x);
    assert(color_level(g as int) == y);
    assert(color_level(b as int) == z);
}

/// Codes between 0 and 255 can always be rendered.
pub proof fn lemma_byte_codes_computable(v: Seq<i32>, is_bg: bool, colormode: u16)
    requires
        codes_in_byte_range(v),
    ensures
        term_color_computable(is_bg, v, colormode),
{
    if v.len() > 0 {
        assert(0 <= v[0] <= 255);
    }
    if v.len() >= 3 {
        assert(0 <= v[1] <= 255);
        assert(0 <= v[2] <= 255);
    }
}

/// `n` copies of a character.
pub open spec fn repeat_char(c: char, n: nat) -> Seq<char> {
    Seq::new(n, |_i: int| c)
}

/// Appends `n` copies of a character.
fn push_repeat(s: &mut String, c: char, n: usize)
    ensures
        final(s)@ == old(s)@ + repeat_char(c, n as nat),
{
    let ghost start = s@;
    let mut i: usize = 0;
    while i < n
        invariant
            i <= n,
            s@ == start + repeat_char(c, i as nat),
        decreases n - i,
    {
        crate::text::push_char(s, c);
        assert(start + repeat_char(c, (i + 1) as nat) =~= (start + repeat_char(c, i as nat)).push(c));
        i = i + 1;
    }
}

/// The colour that a parsed specification gives, or no colour on error
/// (`unwrap_or_default`).
pub open spec fn color_or_none(s: Seq<char>, colormode: u16) -> Seq<i32> {
    match color_spec(s, colormode) {
        Ok(v) => v,
        Err(_) => Seq::empty(),
    }
}

/// A usage bar of `width` cells with `used` of them filled (at most `width`):
/// the colour of `color_name`, the filled cells, a colour reset, then the free
/// cells. Plain `#` and `-` in cheap mode, `⯀` and `▢` otherwise.
pub open spec fn bar_text(width: nat, used: nat, color_name: Seq<char>, colormode: u16, cheapmode: bool) -> Seq<char> {
    let u = if used > width { width } else { used };
    color_sequence_text(color_or_none(color_name, colormode), None, colormode) + repeat_char(
        if cheapmode { '#' } else { '⯀' },
        u,
    ) + COLOR_RESET@ + repeat_char(if cheapmode { '-' } else { '▢' }, (width - u) as nat)
}

/// A character of an escape sequence: escape, `[`, `;`, `m` or a digit.
pub open spec fn escape_char(c: char) -> bool {
    c == '\x1b' || c == '[' || c == ';' || c == 'm' || ('0' <= c && c <= '9')
}

/// Every character of a text is a character of an escape sequence.
pub open spec fn all_escape(s: Seq<char>) -> bool {
    forall|i: int| 0 <= i < s.len() ==> escape_char(#[trigger] s[i])
}

/// Texts of escape characters put together are such a text.
proof fn lemma_all_escape_concat(a: Seq<char>, b: Seq<char>)
    requires
        all_escape(a),
        all_escape(b),
    ensures
        all_escape(a + b),
{
    assert forall|i: int| 0 <= i < (a + b).len() implies escape_char(#[trigger] (a + b)[i]) by {
        if i < a.len() {
            assert((a + b)[i] == a[i]);
        } else {
            assert((a + b)[i] == b[i - a.len()]);
        }
    }
}

/// The decimal text of a natural number is digits.
proof fn lemma_int_text_escape(n: int)
    requires
        n >= 0,
    ensures
        all_escape(int_text(n)),
{
    lemma_decimal_chars(n as nat);
}

/// The escape sequence of a colour whose codes are bytes holds only escape
/// characters.
proof fn lemma_term_color_escape(is_bg: bool, v: Seq<i32>, colormode: u16)
    requires
        codes_in_byte_range(v),
    ensures
        all_escape(term_color_text(is_bg, v, colormode)),
{
    reveal_strlit("\x1b[");
    reveal_strlit("m");
    reveal_strlit("48");
    reveal_strlit("38");
    reveal_strlit(";5;");
    if colormode == 16 {
        let base = if v.len() > 0 {
            v[0] as int
        } else {
            39
        };
        let code = if is_bg {
            base + 10
        } else {
            base
        };
        lemma_int_text_escape(code);
        lemma_all_escape_concat("\x1b["@, int_text(code));
        lemma_all_escape_concat("\x1b["@ + int_text(code), "m"@);
    } else if v.len() >= 3 {
        lemma_cube_level(v[0] as int);
        lemma_cube_level(v[1] as int);
        lemma_cube_level(v[2] as int);
        let col = 16 + color_level(v[0] as int) * 36 + color_level(v[1] as int) * 6 + color_level(
            v[2] as int,
        );
        let p = if is_bg {
            "48"@
        } else {
            "38"@
        };
        lemma_int_text_escape(col);
        lemma_all_escape_concat("\x1b["@, p);
        lemma_all_escape_concat("\x1b["@ + p, ";5;"@);
        lemma_all_escape_concat("\x1b["@ + p + ";5;"@, int_text(col));
        lemma_all_escape_concat("\x1b["@ + p + ";5;"@ + int_text(col), "m"@);
    }
}

/// A character that no escape sequence holds is counted zero times in one.
proof fn lemma_escape_count(s: Seq<char>, c: char)
    requires
        all_escape(s),
        !escape_char(c),
    ensures
        count_char(s, c) == 0,
{
    assert forall|i: int| 0 <= i < s.len() implies #[trigger] s[i] != c by {
        assert(escape_char(s[i]));
    }
    lemma_count_absent(s, c);
}

/// `n` copies of `x` hold `x` `n` times and nothing else.
pub proof fn lemma_count_repeat(x: char, n: nat, c: char)
    ensures
        count_char(repeat_char(x, n), c) == if x == c {
            n
        } else {
            0
        },
    decreases n,
{
    if n > 0 {
        lemma_count_repeat(x, (n - 1) as nat, c);
        assert(repeat_char(x, n).drop_last() =~= repeat_char(x, (n - 1) as nat));
    }
}

/// A usage bar of `width` cells holds exactly `min(used, width)` filled
/// cells (`⯀`, or `#` in cheap mode) and the rest, `width - min(used, width)`,
/// empty cells (`▢`, or `-` in cheap mode); its colour codes hold neither.
pub proof fn lemma_bar_cells(width: nat, used: nat, color_name: Seq<char>, colormode: u16, cheapmode: bool)
    ensures
        ({
            let u = if used > width {
                width
            } else {
                used
            };
            let t = bar_text(width, used, color_name, colormode, cheapmode);
            let fill = if cheapmode {
                '#'
            } else {
                '⯀'
            };
            let empty = if cheapmode {
                '-'
            } else {
                '▢'
            };
            &&& count_char(t, fill) == u
            &&& count_char(t, empty) == width - u
        }),
{
    let u = if used > width {
        width
    } else {
        used
    };
    let fill = if cheapmode {
        '#'
    } else {
        '⯀'
    };
    let empty = if cheapmode {
        '-'
    } else {
        '▢'
    };
    let v = color_or_none(color_name, colormode);
    lemma_color_spec_codes(color_name, colormode);
    lemma_term_color_escape(false, v, colormode);
    let cs = color_sequence_text(v, None, colormode);
    assert(cs =~= term_color_text(false, v, colormode));
    reveal_strlit("\x1b[0m");
    assert(all_escape(COLOR_RESET@));
    let f = repeat_char(fill, u);
    let e = repeat_char(empty, (width - u) as nat);
    let t = bar_text(width, used, color_name, colormode, cheapmode);
    assert(t == cs + f + COLOR_RESET@ + e);
    lemma_escape_count(cs, fill);
    lemma_escape_count(cs, empty);
    lemma_escape_count(COLOR_RESET@, fill);
    lemma_escape_count(COLOR_RESET@, empty);
    lemma_count_repeat(fill, u, fill);
    lemma_count_repeat(fill, u, empty);
    lemma_count_repeat(empty, (width - u) as nat, fill);
    lemma_count_repeat(empty, (width - u) as nat, empty);
    lemma_count_concat(cs, f, fill);
    lemma_count_concat(cs + f, COLOR_RESET@, fill);
    lemma_count_concat(cs + f + COLOR_RESET@, e, fill);
    lemma_count_concat(cs, f, empty);
    lemma_count_concat(cs + f, COLOR_RESET@, empty);
    lemma_count_concat(cs + f + COLOR_RESET@, e, empty);
}

/// Renders a usage bar whose filled part has already been measured.
pub fn draw_bar(width: usize, used: usize, color_name: &str, colormode: u16, cheapmode: bool) -> (r: String)
    ensures
        r@ == bar_text(width as nat, used as nat, color_name@, colormode, cheapmode),
{
    let used = if used > width {
        width
    } else {
        used
    };
    let free = width - used;
    let color_vec = match rgb(color_name, colormode) {
        Ok(v) => v,
        Err(_) => Vec::new(),
    };
    proof {
        lemma_color_spec_codes(color_name@, colormode);
        lemma_byte_codes_computable(color_vec@, false, colormode);
        assert(color_vec@ == color_or_none(color_name@, colormode));
    }
    let mut out = String::new();
    let seq = color_sequence(&color_vec, &None, colormode);
    out.append(seq.as_str());
    push_repeat(&mut out, if cheapmode { '#' } else { '⯀' }, used);
    out.append(COLOR_RESET);
    push_repeat(&mut out, if cheapmode { '-' } else { '▢' }, free);
    assert(out@ =~= bar_text(width as nat, used as nat, color_name@, colormode, cheapmode));
    out
}

/// Tests whether an escape sequence can be computed for a colour.
pub fn color_computable(is_bg: bool, color: &ColorVec, colormode: u16) -> (r: bool)
    ensures
        r == term_color_computable(is_bg, color@, colormode),
{
    if colormode == 16 && is_bg && color.len() > 0 && color[0] > i32::MAX - 10 {
        return false;
    }
    if colormode != 16 && color.len() >= 3 {
        let mut k: usize = 0;
        while k < 3
            invariant
                k <= 3,
                colormode != 16,
                color.len() >= 3,
                forall|j: int| 0 <= j < k ==> exact_component(#[trigger] color@[j]),
            decreases 3 - k,
        {
            if color[k] < -4194304 || color[k] > 4194304 {
                assert(!exact_component(color@[k as int]));
                return false;
            }
            k = k + 1;
        }
    }
    true
}

} // verus!
