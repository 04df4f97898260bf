//! Host information lines: kernel, load and uptime, addresses, processor and
//! memory. Each takes what the host commands printed and builds the line
//! `<colour><label padded><reset><information>`.
use vstd::prelude::*;
use crate::colors::{
    lemma_decimal_chars, lemma_split_without_sep,
    color_sequence, color_sequence_text, parse_u8, term_color_computable, ColorVec, COLOR_RESET,
};
use crate::text::{
    chars_of, count_char, decimal_digits, lemma_split_concat, decimal_string, int_text, push_decimal, push_int, find_from, find_pattern, has_prefix, join, lines,
    lines_of, lowered, lower_text, owned_chars, parse_unsigned, parse_unsigned_range,
    second_piece, second_piece_of, slice_of, split, split_chars, starts_with, trim, trim_range,
    trimmed, views, words, words_of, Sep,
};

verus! {

/// The system the host runs.
#[derive(Clone, Copy, Debug, PartialEq, Eq, Structural)]
pub enum HostOs {
    /// Linux.
    Linux,
    /// macOS.
    MacOs,
}

/// The view of an optional string.
pub open spec fn opt_str(s: Option<String>) -> Option<Seq<char>> {
    match s {
        Some(x) => Some(x@),
        None => None,
    }
}

/// A text padded with spaces on the right to at least `w` characters
/// (`format!("{:<w$}")`).
pub open spec fn pad_right(s: Seq<char>, w: nat) -> Seq<char> {
    if s.len() >= w {
        s
    } else {
        s + Seq::new((w - s.len()) as nat, |_i: int| ' ')
    }
}

/// An information line: the label's colour, the label padded to 8 characters
/// (cheap mode) or 10, a colour reset, then the information.
pub open spec fn labeled_line(label: Seq<char>, info: Seq<char>, fg: Seq<i32>, colormode: u16, cheapmode: bool) -> Seq<char> {
    color_sequence_text(fg, None, colormode) + pad_right(
        label,
        if cheapmode {
            8
        } else {
            10
        },
    ) + COLOR_RESET@ + info
}

/// Builds an information line.
fn label_with_info(label: &str, info: &str, info_fg_color: &ColorVec, colormode: u16, cheapmode: bool) -> (r: String)
    requires
        term_color_computable(false, info_fg_color@, colormode),
    ensures
        r@ == labeled_line(label@, info@, info_fg_color@, colormode, cheapmode),
{
    let mut out = color_sequence(info_fg_color, &None, colormode);
    let ghost head = out@;
    out.append(label);
    let width: usize = if cheapmode {
        8
    } else {
        10
    };
    let n = chars_of(label).len();
    if n < width {
        let mut k = n;
        while k < width
            invariant
                n <= k <= width,
                n == label@.len(),
                out@ == head + label@ + Seq::new((k - n) as nat, |_i: int| ' '),
            decreases width - k,
        {
            crate::text::push_char(&mut out, ' ');
            assert(out@ =~= head + label@ + Seq::new((k + 1 - n) as nat, |_i: int| ' '));
            k = k + 1;
        }
    }
    out.append(COLOR_RESET);
    out.append(info);
    assert(out@ =~= labeled_line(label@, info@, info_fg_color@, colormode, cheapmode));
    out
}

/// A label, with its icon unless in cheap mode.
pub open spec fn with_icon(cheapmode: bool, icon: Seq<char>, name: Seq<char>) -> Seq<char> {
    if cheapmode {
        name
    } else {
        icon + name
    }
}

/// Builds a label, with its icon unless in cheap mode.
fn make_label(cheapmode: bool, icon: &str, name: &str) -> (r: String)
    ensures
        r@ == with_icon(cheapmode, icon@, name@),
{
    let mut r = String::new();
    if !cheapmode {
        r.append(icon);
    }
    r.append(name);
    assert(r@ =~= with_icon(cheapmode, icon@, name@));
    r
}

/// A text without its line feeds.
pub open spec fn without_newlines(s: Seq<char>) -> Seq<char> {
    s.filter(|c: char| c != '\n')
}

/// Removes line feeds.
fn remove_newlines(s: &str) -> (r: String)
    ensures
        r@ == without_newlines(s@),
{
    let v = chars_of(s);
    let mut r = String::new();
    let mut i: usize = 0;
    while i < v.len()
        invariant
            v@ == s@,
            i <= v.len(),
            r@ == without_newlines(v@.take(i as int)),
        decreases v.len() - i,
    {
        proof {
            reveal_with_fuel(Seq::<_>::filter, 1);
            assert(v@.take(i + 1).drop_last() =~= v@.take(i as int));
        }
        if v[i] != '\n' {
            crate::text::push_char(&mut r, v[i]);
        }
        i = i + 1;
    }
    assert(v@.take(v.len() as int) =~= v@);
    r
}

/// The kernel icon of a system.
pub open spec fn kernel_icon(host: HostOs) -> Seq<char> {
    match host {
        HostOs::Linux => "🐧 "@,
        HostOs::MacOs => "🍎 "@,
    }
}

/// The kernel line: the kernel release that `uname -r` printed, line feeds
/// removed, `?` when the command gave nothing.
pub open spec fn kernel_line(cheapmode: bool, host: HostOs, uname: Option<Seq<char>>, fg: Seq<i32>, colormode: u16) -> Seq<char> {
    labeled_line(
        with_icon(cheapmode, kernel_icon(host), "kernel"@),
        without_newlines(
            match uname {
                Some(u) => u,
                None => "?"@,
            },
        ),
        fg,
        colormode,
        cheapmode,
    )
}

/// The kernel line, from what `uname -r` printed.
pub fn kernel_info(cheapmode: bool, host: HostOs, uname: Option<String>, info_fg_color: &ColorVec, colormode: u16) -> (r: Option<String>)
    requires
        term_color_computable(false, info_fg_color@, colormode),
    ensures
        opt_str(r) == Some(kernel_line(cheapmode, host, opt_str(uname), info_fg_color@, colormode)),
{
    let icon = match host {
        HostOs::Linux => "🐧 ",
        HostOs::MacOs => "🍎 ",
    };
    let label = make_label(cheapmode, icon, "kernel");
    let release = match &uname {
        Some(u) => remove_newlines(u.as_str()),
        None => remove_newlines("?"),
    };
    Some(label_with_info(label.as_str(), release.as_str(), info_fg_color, colormode, cheapmode))
}

/// What `uptime` printed, taken apart.
#[derive(Debug)]
pub struct UptimeReport {
    /// The time up: after ` up ` and before the next `,`, trimmed; `?` if
    /// there is no ` up `.
    pub up: String,
    /// The load averages: after `load average:`, trimmed; `?` if absent.
    pub load: String,
    /// The first load average: the first piece of the load averages between
    /// commas and white space; `0` if there is none.
    pub first_load: String,
}

/// The time up.
pub open spec fn up_text(u: Seq<char>) -> Seq<char> {
    match second_piece(u, " up "@) {
        Some(rest) => trim(split(rest, Sep::Char(','))[0]),
        None => "?"@,
    }
}

/// The load averages.
pub open spec fn load_text(u: Seq<char>) -> Seq<char> {
    match second_piece(u, "load average:"@) {
        Some(rest) => trim(rest),
        None => "?"@,
    }
}

/// The first load average. (Its commas would be turned into dots, but a
/// piece between commas holds none.)
pub open spec fn first_load_text(load: Seq<char>) -> Seq<char> {
    let w = words(load, Sep::WhiteSpaceOrComma);
    if w.len() > 0 {
        w[0]
    } else {
        "0"@
    }
}

/// Builds a string from characters.
fn string_of(v: &Vec<char>) -> (s: String)
    ensures
        s@ == v@,
{
    let s = crate::text::string_from(v, 0, v.len());
    assert(v@.subrange(0, v.len() as int) =~= v@);
    s
}

/// Takes apart what `uptime` printed.
pub fn parse_uptime(uptime: &str) -> (r: UptimeReport)
    ensures
        r.up@ == up_text(uptime@),
        r.load@ == load_text(uptime@),
        r.first_load@ == first_load_text(load_text(uptime@)),
{
    let v = chars_of(uptime);
    let up = match second_piece_of(&v, " up ") {
        Some(rest) => {
            let parts = split_chars(&rest, Sep::Char(','));
            proof {
                crate::text::lemma_split_nonempty(rest@, Sep::Char(','));
            }
            assert(parts@[0]@ == split(rest@, Sep::Char(','))[0]);
            let t = trimmed(&parts[0]);
            string_of(&t)
        },
        None => String::from_str("?"),
    };
    let load_chars = match second_piece_of(&v, "load average:") {
        Some(rest) => trimmed(&rest),
        None => chars_of("?"),
    };
    let load = string_of(&load_chars);
    let w = words_of(&load_chars, Sep::WhiteSpaceOrComma);
    let first_load = if w.len() > 0 {
        assert(w@[0]@ == words(load_chars@, Sep::WhiteSpaceOrComma)[0]);
        string_of(&w[0])
    } else {
        String::from_str("0")
    };
    UptimeReport { up, load, first_load }
}

/// The load line: `<bar> <load averages> (<time up>)`.
pub open spec fn uptime_line(cheapmode: bool, up: Seq<char>, load: Seq<char>, bar: Seq<char>, fg: Seq<i32>, colormode: u16) -> Seq<char> {
    labeled_line(
        with_icon(cheapmode, "⏳ "@, "load/up"@),
        bar + " "@ + load + " ("@ + up + ")"@,
        fg,
        colormode,
        cheapmode,
    )
}

/// The load line, from the taken-apart `uptime` output and the load bar.
pub fn uptime_info(cheapmode: bool, report: &UptimeReport, bar: &str, info_fg_color: &ColorVec, colormode: u16) -> (r: Option<String>)
    requires
        term_color_computable(false, info_fg_color@, colormode),
    ensures
        opt_str(r) == Some(uptime_line(cheapmode, report.up@, report.load@, bar@, info_fg_color@, colormode)),
{
    let label = make_label(cheapmode, "⏳ ", "load/up");
    let mut info = String::new();
    info.append(bar);
    info.append(" ");
    info.append(report.load.as_str());
    info.append(" (");
    info.append(report.up.as_str());
    info.append(")");
    assert(info@ =~= bar@ + " "@ + report.load@ + " ("@ + report.up@ + ")"@);
    Some(label_with_info(label.as_str(), info.as_str(), info_fg_color, colormode, cheapmode))
}

/// Whether `s` ends with `suffix`.
pub open spec fn ends_with(s: Seq<char>, suffix: Seq<char>) -> bool {
    suffix.len() <= s.len() && s.skip(s.len() - suffix.len()) == suffix
}

/// An ASCII digit or a dot.
pub open spec fn digit_or_dot(c: char) -> bool {
    ('0' <= c && c <= '9') || c == '.'
}

/// A piece that is shown as an IPv4 address: three dots, only digits and
/// dots, not the loop-back address and not ending in `.255`.
pub open spec fn is_ipv4_candidate(t: Seq<char>) -> bool {
    &&& count_char(t, '.') == 3
    &&& forall|i: int| 0 <= i < t.len() ==> digit_or_dot(#[trigger] t[i])
    &&& t != "127.0.0.1"@
    &&& !ends_with(t, ".255"@)
}

/// The IPv4 addresses shown from a command's output: the pieces between white
/// space and `/` that look like addresses, in order. (Each is trimmed of
/// characters other than digits and dots, which it does not hold.)
pub open spec fn ipv4_addresses(text: Seq<char>) -> Seq<Seq<char>> {
    split(text, Sep::WhiteSpaceOrSlash).filter(|t: Seq<char>| is_ipv4_candidate(t))
}

/// Tests whether a piece looks like an IPv4 address.
fn ipv4_candidate(t: &Vec<char>) -> (r: bool)
    ensures
        r == is_ipv4_candidate(t@),
{
    let mut dots: usize = 0;
    let mut i: usize = 0;
    let mut ok = true;
    while i < t.len()
        invariant
            i <= t.len(),
            dots as nat == count_char(t@.take(i as int), '.'),
            dots <= i,
            ok == (forall|j: int| 0 <= j < i ==> digit_or_dot(#[trigger] t@[j])),
        decreases t.len() - i,
    {
        assert(t@.take(i + 1).drop_last() =~= t@.take(i as int));
        let c = t[i];
        if c == '.' {
            dots = dots + 1;
        }
        if !(('0' <= c && c <= '9') || c == '.') {
            ok = false;
        }
        i = i + 1;
    }
    assert(t@.take(t.len() as int) =~= t@);
    if dots != 3 || !ok {
        return false;
    }
    let loopback = chars_of("127.0.0.1");
    if crate::text::chars_eq(t, &loopback) {
        return false;
    }
    let suffix = chars_of(".255");
    if t.len() >= suffix.len() {
        let tail = slice_of(t, t.len() - suffix.len(), t.len());
        assert(tail@ =~= t@.skip(t@.len() - suffix@.len()));
        if crate::text::chars_eq(&tail, &suffix) {
            return false;
        }
    }
    true
}

/// The IPv4 addresses shown from a command's output.
fn extract_ipv4(text: &str) -> (r: Vec<String>)
    ensures
        string_seq(r@) == ipv4_addresses(text@),
{
    let v = chars_of(text);
    let tokens = split_chars(&v, Sep::WhiteSpaceOrSlash);
    let ghost toks = views(tokens@);
    let ghost keep = |t: Seq<char>| is_ipv4_candidate(t);
    let mut ips: Vec<String> = Vec::new();
    let mut k: usize = 0;
    while k < tokens.len()
        invariant
            k <= tokens.len(),
            toks == views(tokens@),
            toks == split(text@, Sep::WhiteSpaceOrSlash),
            keep == (|t: Seq<char>| is_ipv4_candidate(t)),
            string_seq(ips@) == toks.take(k as int).filter(keep),
        decreases tokens.len() - k,
    {
        proof {
            reveal_with_fuel(Seq::<_>::filter, 1);
            assert(toks.take(k + 1).drop_last() =~= toks.take(k as int));
            assert(toks.take(k + 1).last() == tokens@[k as int]@);
        }
        let ghost prev = string_seq(ips@);
        if ipv4_candidate(&tokens[k]) {
            let s = string_of(&tokens[k]);
            ips.push(s);
            assert(string_seq(ips@) =~= prev.push(tokens@[k as int]@));
        } else {
            assert(string_seq(ips@) =~= prev);
        }
        k = k + 1;
    }
    assert(toks.take(tokens.len() as int) =~= toks);
    ips
}

/// The views of a sequence of strings.
pub open spec fn string_seq(v: Seq<String>) -> Seq<Seq<char>> {
    v.map_values(|s: String| s@)
}

/// The pieces that parse as numbers from 0 to 255, as those numbers
/// (`filter_map` of `str::parse::<u8>`).
pub open spec fn octets(pieces: Seq<Seq<char>>) -> Seq<u8>
    decreases pieces.len(),
{
    if pieces.len() == 0 {
        Seq::empty()
    } else {
        let rest = octets(pieces.drop_last());
        match parse_u8(pieces.last(), 10) {
            Some(x) => rest.push(x),
            None => rest,
        }
    }
}

/// A private IPv4 address: exactly four pieces between dots parse as bytes,
/// and they begin with 10, 192.168 or 172.16 to 172.31.
pub open spec fn is_private(ip: Seq<char>) -> bool {
    let o = octets(split(ip, Sep::Char('.')));
    &&& o.len() == 4
    &&& (o[0] == 10 || (o[0] == 192 && o[1] == 168) || (o[0] == 172 && 16 <= o[1] <= 31))
}

/// Tests whether an IPv4 address is private.
fn is_private_ip(ip: &str) -> (r: bool)
    ensures
        r == is_private(ip@),
{
    let v = chars_of(ip);
    let pieces = split_chars(&v, Sep::Char('.'));
    let ghost ps = views(pieces@);
    let mut parts: Vec<u8> = Vec::new();
    let mut k: usize = 0;
    while k < pieces.len()
        invariant
            k <= pieces.len(),
            ps == views(pieces@),
            parts@ == octets(ps.take(k as int)),
        decreases pieces.len() - k,
    {
        assert(ps.take(k + 1).drop_last() =~= ps.take(k as int));
        assert(ps.take(k + 1).last() == pieces@[k as int]@);
        assert(pieces@[k as int]@.subrange(0, pieces@[k as int]@.len() as int) =~= pieces@[k as int]@);
        match parse_unsigned_range(&pieces[k], 0, pieces[k].len(), 10, 255) {
            Some(x) => {
                parts.push(x as u8);
            },
            None => {},
        }
        k = k + 1;
    }
    assert(ps.take(pieces.len() as int) =~= ps);
    if parts.len() != 4 {
        return false;
    }
    let a = parts[0];
    let b = parts[1];
    a == 10 || (a == 192 && b == 168) || (a == 172 && 16 <= b && b <= 31)
}

/// An IPv4 address written as four bytes in decimal, separated by dots.
pub open spec fn dotted_quad(a: u8, b: u8, c: u8, d: u8) -> Seq<char> {
    decimal_digits(a as nat) + seq!['.'] + decimal_digits(b as nat) + seq!['.'] + decimal_digits(
        c as nat,
    ) + seq!['.'] + decimal_digits(d as nat)
}

/// An address is private exactly in 10.0.0.0/8, 192.168.0.0/16 and
/// 172.16.0.0/12; every other address is public (192.241.200.10 among
/// them).
pub proof fn lemma_private_ranges(a: u8, b: u8, c: u8, d: u8)
    ensures
        is_private(dotted_quad(a, b, c, d)) == (a == 10 || (a == 192 && b == 168) || (a == 172 && 16
            <= b <= 31)),
{
    let (da, db, dc, dd) = (
        decimal_digits(a as nat),
        decimal_digits(b as nat),
        decimal_digits(c as nat),
        decimal_digits(d as nat),
    );
    lemma_decimal_chars(a as nat);
    lemma_decimal_chars(b as nat);
    lemma_decimal_chars(c as nat);
    lemma_decimal_chars(d as nat);
    let sep = Sep::Char('.');
    lemma_split_without_sep(da, sep);
    lemma_split_without_sep(db, sep);
    lemma_split_without_sep(dc, sep);
    lemma_split_without_sep(dd, sep);
    lemma_split_concat(da, '.', db, sep);
    lemma_split_concat(da + seq!['.'] + db, '.', dc, sep);
    lemma_split_concat(da + seq!['.'] + db + seq!['.'] + dc, '.', dd, sep);
    let ps = split(dotted_quad(a, b, c, d), sep);
    assert(ps =~= seq![da, db, dc, dd]);
    assert(ps.drop_last() =~= seq![da, db, dc]);
    assert(ps.drop_last().drop_last() =~= seq![da, db]);
    assert(ps.drop_last().drop_last().drop_last() =~= seq![da]);
    assert(seq![da].drop_last() =~= Seq::<Seq<char>>::empty());
    assert(octets(Seq::<Seq<char>>::empty()) == Seq::<u8>::empty());
    assert(seq![da].last() == da);
    assert(parse_u8(da, 10) == Some(a));
    assert(octets(seq![da]) =~= seq![a]);
    assert(octets(seq![da, db]) =~= seq![a, b]);
    assert(octets(seq![da, db, dc]) =~= seq![a, b, c]);
    assert(octets(ps) =~= seq![a, b, c, d]);
}

/// The addresses shown: the public ones, or all when none is public.
pub open spec fn shown_addresses(text: Seq<char>) -> Seq<Seq<char>> {
    let ips = ipv4_addresses(text);
    let public = ips.filter(|ip: Seq<char>| !is_private(ip));
    if public.len() == 0 {
        ips
    } else {
        public
    }
}

/// What a filter keeps comes from the filtered sequence.
proof fn lemma_filter_from<A>(s: Seq<A>, keep: spec_fn(A) -> bool, i: int)
    requires
        0 <= i < s.filter(keep).len(),
    ensures
        s.contains(s.filter(keep)[i]),
    decreases s.len(),
{
    reveal_with_fuel(Seq::<_>::filter, 1);
    if s.len() > 0 {
        let rest = s.drop_last().filter(keep);
        if i < rest.len() {
            lemma_filter_from(s.drop_last(), keep, i);
            let j = choose|j: int| 0 <= j < s.drop_last().len() && s.drop_last()[j] == rest[i];
            assert(s[j] == s.filter(keep)[i]);
        } else {
            assert(s[s.len() - 1] == s.filter(keep)[i]);
        }
    }
}

/// The addresses shown are addresses found in the output. When a public one
/// is found, exactly the public ones are shown, in order; when every one
/// found is private, all of them are shown.
pub proof fn lemma_shown_addresses(text: Seq<char>)
    ensures
        forall|i: int|
            0 <= i < shown_addresses(text).len() ==> ipv4_addresses(text).contains(
                #[trigger] shown_addresses(text)[i],
            ) && is_ipv4_candidate(shown_addresses(text)[i]),
        (exists|j: int| 0 <= j < ipv4_addresses(text).len() && !is_private(#[trigger] ipv4_addresses(text)[j]))
            ==> shown_addresses(text) == ipv4_addresses(text).filter(|ip: Seq<char>| !is_private(ip)),
        (forall|j: int| 0 <= j < ipv4_addresses(text).len() ==> is_private(#[trigger] ipv4_addresses(text)[j]))
            ==> shown_addresses(text) == ipv4_addresses(text),
{
    let toks = split(text, Sep::WhiteSpaceOrSlash);
    let cand = |t: Seq<char>| is_ipv4_candidate(t);
    let ips = ipv4_addresses(text);
    let public_ip = |ip: Seq<char>| !is_private(ip);
    let public = ips.filter(public_ip);
    assert(ips == toks.filter(cand));
    assert forall|i: int| 0 <= i < ips.len() implies #[trigger] is_ipv4_candidate(ips[i]) by {
        toks.lemma_filter_pred(cand, i);
    }
    assert forall|i: int| 0 <= i < shown_addresses(text).len() implies ips.contains(
        #[trigger] shown_addresses(text)[i],
    ) && is_ipv4_candidate(shown_addresses(text)[i]) by {
        if public.len() > 0 {
            lemma_filter_from(ips, public_ip, i);
        }
        let j = choose|j: int| 0 <= j < ips.len() && ips[j] == shown_addresses(text)[i];
        assert(is_ipv4_candidate(ips[j]));
    }
    if exists|j: int| 0 <= j < ips.len() && !is_private(#[trigger] ips[j]) {
        let j = choose|j: int| 0 <= j < ips.len() && !is_private(#[trigger] ips[j]);
        ips.lemma_filter_contains(public_ip, j);
        assert(public.len() > 0);
    }
    if forall|j: int| 0 <= j < ips.len() ==> is_private(#[trigger] ips[j]) {
        if public.len() > 0 {
            ips.lemma_filter_pred(public_ip, 0);
            lemma_filter_from(ips, public_ip, 0);
            let j = choose|j: int| 0 <= j < ips.len() && ips[j] == public[0];
            assert(is_private(ips[j]));
        }
    }
}

/// Labels are left-aligned in a column: padded with spaces to the column
/// width, and never cut when longer.
pub proof fn lemma_label_column(label: Seq<char>, w: nat)
    ensures
        pad_right(label, w).len() == if label.len() >= w {
            label.len()
        } else {
            w
        },
        pad_right(label, w).take(label.len() as int) == label,
        forall|i: int|
            label.len() <= i < pad_right(label, w).len() ==> #[trigger] pad_right(label, w)[i] == ' ',
{
    assert(pad_right(label, w).take(label.len() as int) =~= label);
}

/// The address line: the shown addresses separated by ` / `.
pub open spec fn ip_line(cheapmode: bool, output: Seq<char>, fg: Seq<i32>, colormode: u16) -> Seq<char> {
    labeled_line(
        with_icon(cheapmode, "🌐 "@, "ip"@),
        join(shown_addresses(output), " / "@),
        fg,
        colormode,
        cheapmode,
    )
}

/// Joins strings with a separator.
fn join_strings(list: &Vec<String>, sep: &str) -> (r: String)
    ensures
        r@ == join(string_seq(list@), sep@),
{
    let mut r = String::new();
    let mut i: usize = 0;
    while i < list.len()
        invariant
            i <= list.len(),
            r@ == join(string_seq(list@).take(i as int), sep@),
        decreases list.len() - i,
    {
        assert(string_seq(list@).take(i + 1).drop_last() =~= string_seq(list@).take(i as int));
        if i > 0 {
            r.append(sep);
        } else {
            assert(r@ =~= Seq::<char>::empty());
        }
        r.append(list[i].as_str());
        i = i + 1;
    }
    assert(string_seq(list@).take(list.len() as int) =~= string_seq(list@));
    r
}

/// The address line, from what `ip -4 addr` (or else `ifconfig`) printed.
pub fn ip_info(cheapmode: bool, output: &str, info_fg_color: &ColorVec, colormode: u16) -> (r: Option<String>)
    requires
        term_color_computable(false, info_fg_color@, colormode),
    ensures
        opt_str(r) == Some(ip_line(cheapmode, output@, info_fg_color@, colormode)),
{
    let label = make_label(cheapmode, "🌐 ", "ip");
    let ips = extract_ipv4(output);
    let ghost keep = |ip: Seq<char>| !is_private(ip);
    let mut public: Vec<String> = Vec::new();
    let mut k: usize = 0;
    while k < ips.len()
        invariant
            k <= ips.len(),
            keep == (|ip: Seq<char>| !is_private(ip)),
            string_seq(public@) == string_seq(ips@).take(k as int).filter(keep),
        decreases ips.len() - k,
    {
        proof {
            reveal_with_fuel(Seq::<_>::filter, 1);
            assert(string_seq(ips@).take(k + 1).drop_last() =~= string_seq(ips@).take(k as int));
            assert(string_seq(ips@).take(k + 1).last() == ips@[k as int]@);
        }
        let ghost prev = string_seq(public@);
        if !is_private_ip(ips[k].as_str()) {
            public.push(ips[k].clone());
            assert(string_seq(public@) =~= prev.push(ips@[k as int]@));
        } else {
            assert(string_seq(public@) =~= prev);
        }
        k = k + 1;
    }
    assert(string_seq(ips@).take(ips.len() as int) =~= string_seq(ips@));
    let info = if public.len() == 0 {
        join_strings(&ips, " / ")
    } else {
        join_strings(&public, " / ")
    };
    Some(label_with_info(label.as_str(), info.as_str(), info_fg_color, colormode, cheapmode))
}

/// The processor line: `<cores> x <model>`, or `not found` without a model.
pub open spec fn cpu_line(cheapmode: bool, brand: Option<Seq<char>>, cores: nat, fg: Seq<i32>, colormode: u16) -> Seq<char> {
    labeled_line(
        with_icon(cheapmode, "💻 "@, "cpu"@),
        match brand {
            Some(b) => decimal_digits(cores) + " x "@ + b,
            None => "not found"@,
        },
        fg,
        colormode,
        cheapmode,
    )
}

/// The processor line, from the processor model and core count.
pub fn cpu_info(cheapmode: bool, brand: &Option<String>, cores: usize, info_fg_color: &ColorVec, colormode: u16) -> (r: Option<String>)
    requires
        term_color_computable(false, info_fg_color@, colormode),
    ensures
        opt_str(r) == Some(cpu_line(cheapmode, opt_str(*brand), cores as nat, info_fg_color@, colormode)),
{
    let label = make_label(cheapmode, "💻 ", "cpu");
    let info = match brand {
        Some(b) => {
            let mut t = decimal_string(cores as u64);
            t.append(" x ");
            t.append(b.as_str());
            t
        },
        None => String::from_str("not found"),
    };
    assert(info@ =~= (match opt_str(*brand) {
        Some(b) => decimal_digits(cores as nat) + " x "@ + b,
        None => "not found"@,
    }));
    Some(label_with_info(label.as_str(), info.as_str(), info_fg_color, colormode, cheapmode))
}

/// The first line that begins with `prefix`.
pub open spec fn first_line_with(ls: Seq<Seq<char>>, prefix: Seq<char>) -> Option<Seq<char>>
    decreases ls.len(),
{
    if ls.len() == 0 {
        None
    } else {
        match first_line_with(ls.drop_last(), prefix) {
            Some(l) => Some(l),
            None => if starts_with(ls.last(), prefix) {
                Some(ls.last())
            } else {
                None
            },
        }
    }
}

/// The total and used figures of `free -m`: the second and third pieces
/// between white space of the first line that begins with `Mem`, when it has
/// at least three.
pub open spec fn mem_figures(out: Seq<char>) -> Option<(Seq<char>, Seq<char>)> {
    match first_line_with(lines(out), "Mem"@) {
        Some(l) => {
            let f = words(l, Sep::WhiteSpace);
            if f.len() >= 3 {
                Some((f[1], f[2]))
            } else {
                None
            }
        },
        None => None,
    }
}

/// The total and used figures of `free -m`, as text.
pub fn mem_fields(free_output: &str) -> (r: Option<(String, String)>)
    ensures
        (match r {
            Some((t, u)) => Some((t@, u@)),
            None => None,
        }) == mem_figures(free_output@),
{
    let v = chars_of(free_output);
    let ls = lines_of(&v);
    let ghost lv = views(ls@);
    let mut k: usize = 0;
    while k < ls.len()
        invariant
            k <= ls.len(),
            lv == views(ls@),
            lv == lines(free_output@),
            first_line_with(lv.take(k as int), "Mem"@) is None,
        decreases ls.len() - k,
    {
        assert(lv.take(k + 1).drop_last() =~= lv.take(k as int));
        assert(lv.take(k + 1).last() == ls@[k as int]@);
        if has_prefix(&ls[k], "Mem") {
            proof {
                lemma_first_line_prefix(lv, k as int, "Mem"@);
            }
            let f = words_of(&ls[k], Sep::WhiteSpace);
            if f.len() >= 3 {
                assert(f@[1]@ == words(ls@[k as int]@, Sep::WhiteSpace)[1]);
                assert(f@[2]@ == words(ls@[k as int]@, Sep::WhiteSpace)[2]);
                return Some((string_of(&f[1]), string_of(&f[2])));
            }
            return None;
        }
        k = k + 1;
    }
    assert(lv.take(ls.len() as int) =~= lv);
    None
}

/// The first matching line is found by scanning: when the lines before `k`
/// do not match and line `k` does, line `k` is the first.
proof fn lemma_first_line_prefix(ls: Seq<Seq<char>>, k: int, prefix: Seq<char>)
    requires
        0 <= k < ls.len(),
        first_line_with(ls.take(k), prefix) is None,
        starts_with(ls[k], prefix),
    ensures
        first_line_with(ls, prefix) == Some(ls[k]),
    decreases ls.len(),
{
    if ls.len() == k + 1 {
        assert(ls.drop_last() =~= ls.take(k));
    } else {
        assert(ls.drop_last().take(k) =~= ls.take(k));
        lemma_first_line_prefix(ls.drop_last(), k, prefix);
    }
}

/// The memory line.
pub open spec fn mem_line(cheapmode: bool, info: Seq<char>, fg: Seq<i32>, colormode: u16) -> Seq<char> {
    labeled_line(with_icon(cheapmode, "🧠 "@, "mem"@), info, fg, colormode, cheapmode)
}

/// The memory line, from its information text.
pub fn mem_info(cheapmode: bool, info: &str, info_fg_color: &ColorVec, colormode: u16) -> (r: Option<String>)
    requires
        term_color_computable(false, info_fg_color@, colormode),
    ensures
        opt_str(r) == Some(mem_line(cheapmode, info@, info_fg_color@, colormode)),
{
    let label = make_label(cheapmode, "🧠 ", "mem");
    Some(label_with_info(label.as_str(), info, info_fg_color, colormode, cheapmode))
}

/// The memory information: `<bar> <used>mo used / <total>mo`.
pub open spec fn usage_text(bar: Seq<char>, used: Seq<char>, total: Seq<char>) -> Seq<char> {
    bar + " "@ + used + "mo used / "@ + total + "mo"@
}

/// The memory information from `free -m` figures, already read as whole
/// MiB.
pub fn mem_usage_text(bar: &str, used: i32, total: i32) -> (r: String)
    ensures
        r@ == usage_text(bar@, int_text(used as int), int_text(total as int)),
{
    let mut r = String::new();
    r.append(bar);
    r.append(" ");
    push_int(&mut r, used);
    r.append("mo used / ");
    push_int(&mut r, total);
    r.append("mo");
    assert(r@ =~= usage_text(bar@, int_text(used as int), int_text(total as int)));
    r
}

/// The memory information from `sysctl` and `vm_stat` figures in MiB: `?`
/// when the total is unknown (0), else the usage text.
pub open spec fn sysctl_usage_text(total: nat, used: nat, bar: Seq<char>) -> Seq<char> {
    if total == 0 {
        "?"@
    } else {
        usage_text(bar, decimal_digits(used), decimal_digits(total))
    }
}

/// The memory information from `sysctl` and `vm_stat` figures in MiB.
pub fn mem_usage_sysctl(total: u64, used: u64, bar: &str) -> (r: String)
    ensures
        r@ == sysctl_usage_text(total as nat, used as nat, bar@),
{
    if total == 0 {
        return String::from_str("?");
    }
    let mut r = String::new();
    r.append(bar);
    r.append(" ");
    push_decimal(&mut r, used);
    r.append("mo used / ");
    push_decimal(&mut r, total);
    r.append("mo");
    assert(r@ =~= sysctl_usage_text(total as nat, used as nat, bar@));
    r
}

/// A line names a processor: lower-cased, it begins with `model name`.
pub open spec fn is_model_line(l: Seq<char>) -> bool {
    starts_with(lower_text(l), "model name"@)
}

/// The number of lines that name a processor.
pub open spec fn model_count(ls: Seq<Seq<char>>) -> nat
    decreases ls.len(),
{
    if ls.len() == 0 {
        0
    } else {
        model_count(ls.drop_last()) + if is_model_line(ls.last()) {
            1nat
        } else {
            0nat
        }
    }
}

/// The processor model: from the first line that names a processor and has a
/// `:`, the text between the first and the second `:`, trimmed.
pub open spec fn model_brand(ls: Seq<Seq<char>>) -> Option<Seq<char>>
    decreases ls.len(),
{
    if ls.len() == 0 {
        None
    } else {
        match model_brand(ls.drop_last()) {
            Some(b) => Some(b),
            None => {
                let l = ls.last();
                let parts = split(l, Sep::Char(':'));
                if is_model_line(l) && parts.len() > 1 {
                    Some(trim(parts[1]))
                } else {
                    None
                }
            },
        }
    }
}

/// The processor model and core count that `/proc/cpuinfo` gives: the model
/// of the first processor, and the number of processors (at least one).
pub open spec fn cpuinfo_figures(info: Seq<char>) -> (Option<Seq<char>>, nat) {
    let ls = lines(info);
    let n = model_count(ls);
    (model_brand(ls), if n == 0 {
        1
    } else {
        n
    })
}

/// Tests whether an already lower-cased line names a processor: it begins
/// with `model name`.
pub fn names_processor(lowered: &str) -> (r: bool)
    ensures
        r == starts_with(lowered@, "model name"@),
{
    let v = chars_of(lowered);
    has_prefix(&v, "model name")
}

/// The processor model and core count, from `/proc/cpuinfo`.
pub fn cpuinfo_data(info: &str) -> (r: (Option<String>, usize))
    ensures
        (opt_str(r.0), r.1 as nat) == cpuinfo_figures(info@),
{
    let v = chars_of(info);
    let ls = lines_of(&v);
    let ghost lv = views(ls@);
    let mut brand: Option<String> = None;
    let mut nbcores: usize = 0;
    let mut k: usize = 0;
    while k < ls.len()
        invariant
            k <= ls.len(),
            lv == views(ls@),
            lv == lines(info@),
            opt_str(brand) == model_brand(lv.take(k as int)),
            nbcores as nat == model_count(lv.take(k as int)),
            nbcores <= k,
        decreases ls.len() - k,
    {
        assert(lv.take(k + 1).drop_last() =~= lv.take(k as int));
        assert(lv.take(k + 1).last() == ls@[k as int]@);
        let line = string_of(&ls[k]);
        let lower = lowered(line.as_str());
        if names_processor(lower.as_str()) {
            let parts = split_chars(&ls[k], Sep::Char(':'));
            if parts.len() > 1 && brand.is_none() {
                assert(parts@[1]@ == split(ls@[k as int]@, Sep::Char(':'))[1]);
                let t = trimmed(&parts[1]);
                brand = Some(string_of(&t));
            }
            nbcores = nbcores + 1;
        }
        k = k + 1;
    }
    assert(lv.take(ls.len() as int) =~= lv);
    if nbcores == 0 {
        nbcores = 1;
    }
    (brand, nbcores)
}

/// A processor model is only ever taken from a line that names a processor,
/// so with a model at least one processor is counted; and the count is
/// never below one.
pub proof fn lemma_cpuinfo_cores(info: Seq<char>)
    ensures
        cpuinfo_figures(info).1 >= 1,
        model_brand(lines(info)) is Some ==> model_count(lines(info)) >= 1,
{
    lemma_brand_counted(lines(info));
}

/// With a model, at least one line names a processor.
proof fn lemma_brand_counted(ls: Seq<Seq<char>>)
    ensures
        model_brand(ls) is Some ==> model_count(ls) >= 1,
    decreases ls.len(),
{
    if ls.len() > 0 {
        lemma_brand_counted(ls.drop_last());
    }
}

/// The trimmed text parsed as an unsigned number not above `max`.
pub open spec fn trimmed_number(s: Seq<char>, max: nat) -> Option<nat> {
    parse_unsigned(trim(s), 10, max)
}

/// Parses trimmed text as an unsigned number not above `max`.
fn parse_trimmed(s: &String, max: u64) -> (r: Option<u64>)
    ensures
        r matches Some(x) ==> trimmed_number(s@, max as nat) == Some(x as nat),
        r is None ==> trimmed_number(s@, max as nat) is None,
{
    let v = owned_chars(s);
    let (a, b) = trim_range(&v, 0, v.len());
    assert(v@.subrange(0, v.len() as int) =~= v@);
    parse_unsigned_range(&v, a, b, 10, max)
}

/// The processor model and core count that `sysctl` gives: the core count
/// parsed from `hw.ncpu` (1 when absent or not a number) and the brand
/// string, trimmed.
pub open spec fn sysctl_cpu_figures(ncpu: Option<Seq<char>>, brand: Option<Seq<char>>) -> (Option<Seq<char>>, nat) {
    (
        match brand {
            Some(b) => Some(trim(b)),
            None => None,
        },
        match ncpu {
            Some(n) => match trimmed_number(n, usize::MAX as nat) {
                Some(x) => x,
                None => 1,
            },
            None => 1,
        },
    )
}

/// The processor model and core count, from `sysctl -n hw.ncpu` and
/// `sysctl -n machdep.cpu.brand_string`.
pub fn cpuinfo_data_sysctl(ncpu: &Option<String>, brand: &Option<String>) -> (r: (Option<String>, usize))
    ensures
        (opt_str(r.0), r.1 as nat) == sysctl_cpu_figures(opt_str(*ncpu), opt_str(*brand)),
{
    let nbcores: usize = match ncpu {
        Some(n) => match parse_trimmed(n, usize::MAX as u64) {
            Some(x) => x as usize,
            None => 1,
        },
        None => 1,
    };
    let b = match brand {
        Some(b) => {
            let v = owned_chars(b);
            let t = trimmed(&v);
            Some(string_of(&t))
        },
        None => None,
    };
    (b, nbcores)
}

/// The memory size in MiB that `sysctl -n hw.memsize` gives (bytes, trimmed
/// and parsed), 0 when absent or not a number.
pub open spec fn memsize_mib(memsize: Option<Seq<char>>) -> nat {
    match memsize {
        Some(m) => match trimmed_number(m, u64::MAX as nat) {
            Some(x) => x / 1024 / 1024,
            None => 0,
        },
        None => 0,
    }
}

/// The memory size in MiB, from `sysctl -n hw.memsize`.
pub fn mem_total_mib(memsize: &Option<String>) -> (r: u64)
    ensures
        r as nat == memsize_mib(opt_str(*memsize)),
{
    match memsize {
        Some(m) => match parse_trimmed(m, u64::MAX) {
            Some(x) => x / 1024 / 1024,
            None => 0,
        },
        None => 0,
    }
}

/// The digits of a text, in order.
pub open spec fn digits_only(s: Seq<char>) -> Seq<char> {
    s.filter(|c: char| '0' <= c && c <= '9')
}

/// Whether `s` holds `pat`.
pub open spec fn contains_text(s: Seq<char>, pat: Seq<char>) -> bool {
    find_from(s, pat, 0) is Some
}

/// The first line that holds `key`.
pub open spec fn first_line_holding(ls: Seq<Seq<char>>, key: Seq<char>) -> Option<Seq<char>>
    decreases ls.len(),
{
    if ls.len() == 0 {
        None
    } else {
        match first_line_holding(ls.drop_last(), key) {
            Some(l) => Some(l),
            None => if contains_text(ls.last(), key) {
                Some(ls.last())
            } else {
                None
            },
        }
    }
}

/// The page count that `vm_stat` gives on the first line holding `key`: the
/// digits of that line read as one number; 0 when there is no such line or
/// the digits are no number.
pub open spec fn vm_stat_count(vm_stat: Seq<char>, key: Seq<char>) -> nat {
    match first_line_holding(lines(vm_stat), key) {
        Some(l) => match parse_unsigned(digits_only(l), 10, u64::MAX as nat) {
            Some(x) => x,
            None => 0,
        },
        None => 0,
    }
}

/// The page count on the first line of `vm_stat` output that holds `key`.
pub fn vm_stat_pages(vm_stat: &str, key: &str) -> (r: u64)
    ensures
        r as nat == vm_stat_count(vm_stat@, key@),
{
    let v = chars_of(vm_stat);
    let kv = chars_of(key);
    let ls = lines_of(&v);
    let ghost lv = views(ls@);
    let mut k: usize = 0;
    while k < ls.len()
        invariant
            k <= ls.len(),
            kv@ == key@,
            lv == views(ls@),
            lv == lines(vm_stat@),
            first_line_holding(lv.take(k as int), key@) is None,
        decreases ls.len() - k,
    {
        assert(lv.take(k + 1).drop_last() =~= lv.take(k as int));
        assert(lv.take(k + 1).last() == ls@[k as int]@);
        if find_pattern(&ls[k], &kv, 0).is_some() {
            proof {
                lemma_first_line_holding(lv, k as int, key@);
            }
            let d = digit_chars(&ls[k]);
            assert(d@.subrange(0, d@.len() as int) =~= d@);
            return match parse_unsigned_range(&d, 0, d.len(), 10, u64::MAX) {
                Some(x) => x,
                None => 0,
            };
        }
        k = k + 1;
    }
    assert(lv.take(ls.len() as int) =~= lv);
    0
}

/// The first line holding a key is found by scanning.
proof fn lemma_first_line_holding(ls: Seq<Seq<char>>, k: int, key: Seq<char>)
    requires
        0 <= k < ls.len(),
        first_line_holding(ls.take(k), key) is None,
        contains_text(ls[k], key),
    ensures
        first_line_holding(ls, key) == Some(ls[k]),
    decreases ls.len(),
{
    if ls.len() == k + 1 {
        assert(ls.drop_last() =~= ls.take(k));
    } else {
        assert(ls.drop_last().take(k) =~= ls.take(k));
        lemma_first_line_holding(ls.drop_last(), k, key);
    }
}

/// The digits of a line.
fn digit_chars(l: &Vec<char>) -> (r: Vec<char>)
    ensures
        r@ == digits_only(l@),
{
    let mut r: Vec<char> = Vec::new();
    let mut i: usize = 0;
    while i < l.len()
        invariant
            i <= l.len(),
            r@ == digits_only(l@.take(i as int)),
        decreases l.len() - i,
    {
        proof {
            reveal_with_fuel(Seq::<_>::filter, 1);
            assert(l@.take(i + 1).drop_last() =~= l@.take(i as int));
        }
        let c = l[i];
        if '0' <= c && c <= '9' {
            r.push(c);
        }
        i = i + 1;
    }
    assert(l@.take(l.len() as int) =~= l@);
    r
}

/// The memory in use in MiB, from the wired and active page counts (pages of
/// 4096 bytes).
pub fn mem_used_mib(wired: u64, active: u64) -> (r: u64)
    requires
        (wired + active) * 4096 <= u64::MAX,
    ensures
        r as nat == (wired + active) * 4096 / 1024 / 1024,
{
    4096 * (wired + active) / 1024 / 1024
}

} // verus!
