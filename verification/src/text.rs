//! Character-level text handling shared by the other modules: splitting,
//! trimming, decimal formatting and integer parsing, each stated over the
//! character sequence that a string views as.
use vstd::prelude::*;
use vstd::utf8::is_ascii_chars;

verus! {

/// Appends one character to a string.
/// Trusted: calls `String::push`, which appends the character at the end.
#[verifier::external_body]
pub(crate) fn push_char(s: &mut String, c: char)
    ensures
        final(s)@ == old(s)@.push(c),
{
    s.push(c);
}

/// What `str::to_lowercase` gives for a character sequence (Unicode case
/// mapping, which depends on the characters alone).
pub uninterp spec fn lowercase_of(s: Seq<char>) -> Seq<char>;

/// A character with ASCII upper-case letters lowered.
pub open spec fn ascii_lower(c: char) -> char {
    if 'A' <= c && c <= 'Z' {
        ((c as u8) + 32) as char
    } else {
        c
    }
}

/// Text lower-cased: ASCII text has its upper-case letters lowered, other
/// text takes the Unicode mapping.
pub open spec fn lower_text(s: Seq<char>) -> Seq<char> {
    if is_ascii_chars(s) {
        s.map_values(|c: char| ascii_lower(c))
    } else {
        lowercase_of(s)
    }
}

/// Lower-cases a string.
/// Trusted: calls `str::to_lowercase`; its result is named `lowercase_of`
/// of the argument's characters. Of the Unicode mapping only the ASCII part
/// is stated, which the documentation gives: on ASCII text, `A` to `Z` become
/// `a` to `z` and every other character stays.
#[verifier::external_body]
pub(crate) fn lowercase(s: &str) -> (r: String)
    ensures
        r@ == lowercase_of(s@),
        is_ascii_chars(s@) ==> r@ == s@.map_values(|c: char| ascii_lower(c)),
{
    s.to_lowercase()
}

/// Lower-cases a string as `lower_text` says.
pub(crate) fn lowered(s: &str) -> (r: String)
    ensures
        r@ == lower_text(s@),
{
    lowercase(s)
}

/// The characters of a string slice, in order.
pub fn chars_of(s: &str) -> (v: Vec<char>)
    ensures
        v@ == s@,
{
    let mut v: Vec<char> = Vec::new();
    for c in it: s.chars()
        invariant
            v@ == it.seq().take(it.index() as int),
    {
        v.push(c);
    }
    v
}

/// Builds a string from the characters `v[lo..hi]`.
pub fn string_from(v: &Vec<char>, lo: usize, hi: usize) -> (s: String)
    requires
        lo <= hi <= v.len(),
    ensures
        s@ == v@.subrange(lo as int, hi as int),
{
    let mut s = String::new();
    let mut i = lo;
    while i < hi
        invariant
            lo <= i <= hi <= v.len(),
            s@ == v@.subrange(lo as int, i as int),
        decreases hi - i,
    {
        push_char(&mut s, v[i]);
        assert(v@.subrange(lo as int, i + 1) == v@.subrange(lo as int, i as int).push(v@[i as int]));
        i = i + 1;
    }
    s
}

/// Whether two string slices hold the same characters.
pub fn str_eq(a: &str, b: &str) -> (r: bool)
    ensures
        r == (a@ == b@),
{
    let va = chars_of(a);
    let vb = chars_of(b);
    chars_eq(&va, &vb)
}

/// Whether two character vectors are equal.
pub fn chars_eq(a: &Vec<char>, b: &Vec<char>) -> (r: bool)
    ensures
        r == (a@ == b@),
{
    if a.len() != b.len() {
        return false;
    }
    let mut i: usize = 0;
    while i < a.len()
        invariant
            a.len() == b.len(),
            i <= a.len(),
            forall|j: int| 0 <= j < i ==> a@[j] == b@[j],
        decreases a.len() - i,
    {
        if a[i] != b[i] {
            return false;
        }
        i = i + 1;
    }
    assert(a@ =~= b@);
    true
}

/// Unicode `White_Space`, the property that `char::is_whitespace` tests.
pub open spec fn is_white_space(c: char) -> bool {
    ||| ('\t' <= c && c <= '\r')
    ||| c == ' '
    ||| c == '\u{85}'
    ||| c == '\u{a0}'
    ||| c == '\u{1680}'
    ||| ('\u{2000}' <= c && c <= '\u{200a}')
    ||| c == '\u{2028}'
    ||| c == '\u{2029}'
    ||| c == '\u{202f}'
    ||| c == '\u{205f}'
    ||| c == '\u{3000}'
}

/// Tests Unicode `White_Space`.
pub fn white_space(c: char) -> (r: bool)
    ensures
        r == is_white_space(c),
{
    ('\t' <= c && c <= '\r') || c == ' ' || c == '\u{85}' || c == '\u{a0}' || c == '\u{1680}'
        || ('\u{2000}' <= c && c <= '\u{200a}') || c == '\u{2028}' || c == '\u{2029}'
        || c == '\u{202f}' || c == '\u{205f}' || c == '\u{3000}'
}

/// A separator for splitting text.
#[derive(Clone, Copy, PartialEq, Eq, Structural)]
pub enum Sep {
    /// One given character.
    Char(char),
    /// Any Unicode white-space character.
    WhiteSpace,
    /// Any Unicode white-space character or `/`.
    WhiteSpaceOrSlash,
    /// Any Unicode white-space character or `,`.
    WhiteSpaceOrComma,
}

impl Sep {
    /// Whether `c` separates.
    pub open spec fn splits_at(self, c: char) -> bool {
        match self {
            Sep::Char(x) => c == x,
            Sep::WhiteSpace => is_white_space(c),
            Sep::WhiteSpaceOrSlash => is_white_space(c) || c == '/',
            Sep::WhiteSpaceOrComma => is_white_space(c) || c == ',',
        }
    }

    /// Tests whether `c` separates.
    pub fn is_sep(&self, c: char) -> (r: bool)
        ensures
            r == self.splits_at(c),
    {
        match self {
            Sep::Char(x) => c == *x,
            Sep::WhiteSpace => white_space(c),
            Sep::WhiteSpaceOrSlash => white_space(c) || c == '/',
            Sep::WhiteSpaceOrComma => white_space(c) || c == ',',
        }
    }
}

/// The pieces between separators, as `str::split` yields them: one more piece
/// than there are separators, empty pieces included.
pub open spec fn split(s: Seq<char>, sep: Sep) -> Seq<Seq<char>>
    decreases s.len(),
{
    if s.len() == 0 {
        seq![Seq::<char>::empty()]
    } else {
        let p = split(s.drop_last(), sep);
        if sep.splits_at(s.last()) {
            p.push(Seq::<char>::empty())
        } else {
            p.update(p.len() - 1, p.last().push(s.last()))
        }
    }
}

/// A split has at least one piece.
pub proof fn lemma_split_nonempty(s: Seq<char>, sep: Sep)
    ensures
        split(s, sep).len() >= 1,
    decreases s.len(),
{
    if s.len() > 0 {
        lemma_split_nonempty(s.drop_last(), sep);
    }
}

/// Splitting at a separator character splits each side on its own:
/// the pieces of `x`, then those of `y`.
pub proof fn lemma_split_concat(x: Seq<char>, c: char, y: Seq<char>, sep: Sep)
    requires
        sep.splits_at(c),
    ensures
        split(x + seq![c] + y, sep) == split(x, sep) + split(y, sep),
    decreases y.len(),
{
    let s = x + seq![c] + y;
    if y.len() == 0 {
        assert(s.drop_last() =~= x);
        assert(split(y, sep) =~= seq![Seq::<char>::empty()]);
        assert(split(x, sep).push(Seq::<char>::empty()) =~= split(x, sep) + split(y, sep));
    } else {
        let y1 = y.drop_last();
        lemma_split_concat(x, c, y1, sep);
        lemma_split_nonempty(y1, sep);
        assert(s.drop_last() =~= x + seq![c] + y1);
        assert(s.last() == y.last());
        let p = split(x, sep) + split(y1, sep);
        if sep.splits_at(y.last()) {
            assert(p.push(Seq::<char>::empty()) =~= split(x, sep) + split(y1, sep).push(
                Seq::<char>::empty(),
            ));
        } else {
            let q = split(y1, sep);
            assert(p.update(p.len() - 1, p.last().push(y.last())) =~= split(x, sep) + q.update(
                q.len() - 1,
                q.last().push(y.last()),
            ));
        }
    }
}

/// The decimal digits of a number are digits, and read back as the number.
pub proof fn lemma_decimal_digits_value(n: nat)
    ensures
        decimal_digits(n).len() > 0,
        all_digits(decimal_digits(n), 10),
        digits_value(decimal_digits(n), 10) == n,
    decreases n,
{
    if n < 10 {
        let d = decimal_digits(n);
        assert(d.drop_last() =~= Seq::<char>::empty());
        assert(digits_value(Seq::<char>::empty(), 10) == 0);
        assert(digit_value(digit_char(n), 10) == Some(n));
    } else {
        lemma_decimal_digits_value(n / 10);
        let d = decimal_digits(n);
        assert(d.drop_last() =~= decimal_digits(n / 10));
        assert(digit_value(digit_char(n % 10), 10) == Some(n % 10));
        assert forall|i: int| 0 <= i < d.len() implies (#[trigger] digit_value(d[i], 10)) is Some by {
            if i < d.len() - 1 {
                assert(d[i] == decimal_digits(n / 10)[i]);
            }
        }
    }
}

/// The number of times `c` occurs.
pub open spec fn count_char(s: Seq<char>, c: char) -> nat
    decreases s.len(),
{
    if s.len() == 0 {
        0
    } else {
        count_char(s.drop_last(), c) + if s.last() == c {
            1nat
        } else {
            0nat
        }
    }
}

/// Counting in two texts put together adds the counts.
pub proof fn lemma_count_concat(a: Seq<char>, b: Seq<char>, c: char)
    ensures
        count_char(a + b, c) == count_char(a, c) + count_char(b, c),
    decreases b.len(),
{
    if b.len() == 0 {
        assert(a + b =~= a);
    } else {
        lemma_count_concat(a, b.drop_last(), c);
        assert((a + b).drop_last() =~= a + b.drop_last());
        assert((a + b).last() == b.last());
    }
}

/// A character that the text does not hold is counted zero times.
pub proof fn lemma_count_absent(s: Seq<char>, c: char)
    requires
        forall|i: int| 0 <= i < s.len() ==> #[trigger] s[i] != c,
    ensures
        count_char(s, c) == 0,
    decreases s.len(),
{
    if s.len() > 0 {
        lemma_count_absent(s.drop_last(), c);
    }
}

/// The views of a vector of character vectors.
pub open spec fn views(v: Seq<Vec<char>>) -> Seq<Seq<char>> {
    v.map_values(|x: Vec<char>| x@)
}

/// Splits `v` at every separator.
pub fn split_chars(v: &Vec<char>, sep: Sep) -> (parts: Vec<Vec<char>>)
    ensures
        views(parts@) == split(v@, sep),
{
    let mut parts: Vec<Vec<char>> = Vec::new();
    let mut cur: Vec<char> = Vec::new();
    let mut i: usize = 0;
    assert(v@.take(0) =~= Seq::<char>::empty());
    while i < v.len()
        invariant
            i <= v.len(),
            views(parts@).push(cur@) == split(v@.take(i as int), sep),
        decreases v.len() - i,
    {
        let c = v[i];
        proof {
            assert(v@.take(i + 1).drop_last() =~= v@.take(i as int));
            lemma_split_nonempty(v@.take(i as int), sep);
        }
        let ghost prev = views(parts@);
        let ghost prev_cur = cur@;
        if sep.is_sep(c) {
            let done = cur;
            parts.push(done);
            cur = Vec::new();
            assert(views(parts@) =~= prev.push(prev_cur));
        } else {
            cur.push(c);
            assert(views(parts@).push(cur@) =~= prev.push(prev_cur).update(
                prev.len() as int,
                prev_cur.push(c),
            ));
        }
        i = i + 1;
    }
    assert(v@.take(v.len() as int) =~= v@);
    parts.push(cur);
    assert(views(parts@) =~= split(v@, sep));
    parts
}

/// The non-empty pieces between separators (`str::split_whitespace`, or
/// `str::split` followed by dropping the empty pieces).
pub open spec fn words(s: Seq<char>, sep: Sep) -> Seq<Seq<char>> {
    split(s, sep).filter(|w: Seq<char>| w.len() > 0)
}

/// A piece starts at `i`: a character that does not separate, first or
/// after one that does.
pub open spec fn piece_starts(s: Seq<char>, sep: Sep, i: int) -> bool {
    0 <= i < s.len() && !sep.splits_at(s[i]) && (i == 0 || sep.splits_at(s[i - 1]))
}

/// The number of positions from `i` on where a piece starts.
pub open spec fn starts_from(s: Seq<char>, sep: Sep, i: int) -> nat
    decreases s.len() - i,
{
    if i < 0 || i >= s.len() {
        0
    } else {
        starts_from(s, sep, i + 1) + if piece_starts(s, sep, i) {
            1nat
        } else {
            0nat
        }
    }
}

/// Dropping the last character drops only a start there.
proof fn lemma_starts_drop_last(s: Seq<char>, sep: Sep, i: int)
    requires
        s.len() > 0,
        0 <= i <= s.len() - 1,
    ensures
        starts_from(s, sep, i) == starts_from(s.drop_last(), sep, i) + if piece_starts(
            s,
            sep,
            s.len() - 1,
        ) {
            1nat
        } else {
            0nat
        },
    decreases s.len() - i,
{
    let t = s.drop_last();
    assert(starts_from(s, sep, s.len() as int) == 0);
    assert(starts_from(t, sep, t.len() as int) == 0);
    if i < s.len() - 1 {
        lemma_starts_drop_last(s, sep, i + 1);
        assert(s[i] == t[i]);
        if i > 0 {
            assert(s[i - 1] == t[i - 1]);
        }
        assert(piece_starts(s, sep, i) == piece_starts(t, sep, i));
        assert(starts_from(t, sep, i) == starts_from(t, sep, i + 1) + if piece_starts(t, sep, i) {
            1nat
        } else {
            0nat
        });
    }
}

/// The last piece of a split is empty exactly when the text is empty or
/// ends with a separator.
proof fn lemma_split_last(s: Seq<char>, sep: Sep)
    ensures
        split(s, sep).len() >= 1,
        (split(s, sep).last().len() == 0) == (s.len() == 0 || sep.splits_at(s.last())),
    decreases s.len(),
{
    lemma_split_nonempty(s, sep);
    if s.len() > 0 {
        lemma_split_nonempty(s.drop_last(), sep);
    }
}

/// The non-empty pieces are as many as the positions where a piece starts.
pub proof fn lemma_words_count(s: Seq<char>, sep: Sep)
    ensures
        words(s, sep).len() == starts_from(s, sep, 0),
    decreases s.len(),
{
    reveal_with_fuel(Seq::<_>::filter, 1);
    let keep = |w: Seq<char>| w.len() > 0;
    if s.len() == 0 {
        reveal_with_fuel(Seq::<_>::filter, 2);
        assert(split(s, sep) =~= seq![Seq::<char>::empty()]);
        assert(seq![Seq::<char>::empty()].drop_last() =~= Seq::<Seq<char>>::empty());
        assert(words(s, sep).len() == 0);
    } else {
        let t = s.drop_last();
        lemma_words_count(t, sep);
        lemma_starts_drop_last(s, sep, 0);
        lemma_split_last(t, sep);
        let p = split(t, sep);
        let c = s.last();
        assert(p.drop_last().push(p.last()) =~= p);
        assert(words(t, sep) == p.filter(keep));
        assert(p.filter(keep) == if keep(p.last()) {
            p.drop_last().filter(keep).push(p.last())
        } else {
            p.drop_last().filter(keep)
        });
        if sep.splits_at(c) {
            let w = p.push(Seq::<char>::empty());
            assert(split(s, sep) == w);
            assert(w.drop_last() =~= p);
            assert(w.filter(keep) == p.filter(keep));
            assert(!piece_starts(s, sep, s.len() - 1));
            assert(words(s, sep).len() == words(t, sep).len());
        } else {
            let u = p.update(p.len() - 1, p.last().push(c));
            assert(split(s, sep) == u);
            assert(u.drop_last() =~= p.drop_last());
            assert(u.last() == p.last().push(c));
            assert(u.filter(keep) == p.drop_last().filter(keep).push(p.last().push(c)));
            if s.len() >= 2 {
                assert(t.last() == s[s.len() - 2]);
            }
            assert(piece_starts(s, sep, s.len() - 1) == (p.last().len() == 0));
            assert(words(s, sep) == u.filter(keep));
            assert(words(s, sep).len() == p.drop_last().filter(keep).len() + 1);
        }
    }
}

/// A copy of a character vector.
pub fn copy_chars(v: &Vec<char>) -> (r: Vec<char>)
    ensures
        r@ == v@,
{
    let r = v.clone();
    assert(r@ =~= v@);
    r
}

/// Keeps the non-empty vectors of `parts`, in order.
pub fn non_empty(parts: &Vec<Vec<char>>) -> (r: Vec<Vec<char>>)
    ensures
        views(r@) == views(parts@).filter(|w: Seq<char>| w.len() > 0),
{
    let ghost keep = |w: Seq<char>| w.len() > 0;
    let mut r: Vec<Vec<char>> = Vec::new();
    let mut i: usize = 0;
    while i < parts.len()
        invariant
            i <= parts.len(),
            keep == (|w: Seq<char>| w.len() > 0),
            views(r@) == views(parts@).take(i as int).filter(keep),
        decreases parts.len() - i,
    {
        proof {
            reveal_with_fuel(Seq::<_>::filter, 1);
            assert(views(parts@).take(i + 1).drop_last() =~= views(parts@).take(i as int));
            assert(views(parts@).take(i + 1).last() == parts@[i as int]@);
        }
        let ghost prev = views(r@);
        let ghost w = parts@[i as int]@;
        if parts[i].len() > 0 {
            r.push(copy_chars(&parts[i]));
            assert(views(r@) =~= prev.push(w));
        } else {
            assert(views(r@) =~= prev);
        }
        assert(views(parts@).take(i + 1).filter(keep) == (if keep(w) {
            views(parts@).take(i as int).filter(keep).push(w)
        } else {
            views(parts@).take(i as int).filter(keep)
        }));
        i = i + 1;
    }
    assert(views(parts@).take(parts.len() as int) =~= views(parts@));
    r
}

/// Splits `v` into its non-empty pieces.
pub fn words_of(v: &Vec<char>, sep: Sep) -> (r: Vec<Vec<char>>)
    ensures
        views(r@) == words(v@, sep),
{
    let parts = split_chars(v, sep);
    non_empty(&parts)
}

/// The decimal digits of a natural number, most significant first.
pub open spec fn decimal_digits(n: nat) -> Seq<char>
    decreases n,
{
    if n < 10 {
        seq![digit_char(n)]
    } else {
        decimal_digits(n / 10).push(digit_char(n % 10))
    }
}

/// The ASCII character of a digit value below ten.
pub open spec fn digit_char(d: nat) -> char {
    ((d + 48) as u8) as char
}

/// Decimal text of an integer, with a leading `-` when negative.
pub open spec fn int_text(n: int) -> Seq<char> {
    if n < 0 {
        seq!['-'] + decimal_digits((-n) as nat)
    } else {
        decimal_digits(n as nat)
    }
}

/// Appends the decimal digits of `n`.
pub fn push_decimal(s: &mut String, n: u64)
    ensures
        final(s)@ == old(s)@ + decimal_digits(n as nat),
    decreases n,
{
    if n >= 10 {
        push_decimal(s, n / 10);
    }
    let d: u8 = (n % 10) as u8;
    push_char(s, (d + 48) as char);
    assert(old(s)@ + decimal_digits(n as nat) =~= s@);
}

/// Appends the decimal text of a signed integer.
pub fn push_int(s: &mut String, n: i32)
    ensures
        final(s)@ == old(s)@ + int_text(n as int),
{
    if n < 0 {
        push_char(s, '-');
        let m: i64 = n as i64;
        push_decimal(s, (-m) as u64);
        assert(old(s)@ + int_text(n as int) =~= s@);
    } else {
        push_decimal(s, n as u64);
    }
}

/// The decimal text of an unsigned integer.
pub fn decimal_string(n: u64) -> (s: String)
    ensures
        s@ == decimal_digits(n as nat),
{
    let mut s = String::new();
    push_decimal(&mut s, n);
    assert(s@ =~= decimal_digits(n as nat));
    s
}

/// The value of a digit character in radix 10 or 16, as `char::to_digit` gives it.
pub open spec fn digit_value(c: char, radix: nat) -> Option<nat> {
    if '0' <= c && c <= '9' {
        Some((c as nat - 48) as nat)
    } else if radix == 16 && 'a' <= c && c <= 'f' {
        Some((c as nat - 87) as nat)
    } else if radix == 16 && 'A' <= c && c <= 'F' {
        Some((c as nat - 55) as nat)
    } else {
        None
    }
}

/// Whether every character is a digit of the radix.
pub open spec fn all_digits(d: Seq<char>, radix: nat) -> bool {
    forall|i: int| 0 <= i < d.len() ==> (#[trigger] digit_value(d[i], radix)) is Some
}

/// The value of a digit sequence, most significant digit first.
pub open spec fn digits_value(d: Seq<char>, radix: nat) -> nat
    decreases d.len(),
{
    if d.len() == 0 {
        0
    } else {
        digits_value(d.drop_last(), radix) * radix + digit_value(d.last(), radix).unwrap_or(0)
    }
}

/// What `from_str_radix` (and `str::parse`) gives for an unsigned type whose
/// largest value is `max`: an optional `+`, then at least one digit, and a
/// value not above `max`.
pub open spec fn parse_unsigned(s: Seq<char>, radix: nat, max: nat) -> Option<nat> {
    let d = if s.len() > 0 && s[0] == '+' {
        s.drop_first()
    } else {
        s
    };
    if d.len() == 0 || !all_digits(d, radix) || digits_value(d, radix) > max {
        None
    } else {
        Some(digits_value(d, radix))
    }
}

/// The value of a digit character.
fn digit_of(c: char, radix: u32) -> (r: Option<u32>)
    requires
        radix == 10 || radix == 16,
    ensures
        r matches Some(v) ==> digit_value(c, radix as nat) == Some(v as nat) && v < radix,
        r is None ==> digit_value(c, radix as nat) is None,
{
    if '0' <= c && c <= '9' {
        Some((c as u32) - 48)
    } else if radix == 16 && 'a' <= c && c <= 'f' {
        Some((c as u32) - 87)
    } else if radix == 16 && 'A' <= c && c <= 'F' {
        Some((c as u32) - 55)
    } else {
        None
    }
}

proof fn lemma_capped_step(v: nat, cap: nat, r: nat, dg: nat)
    requires
        r >= 1,
    ensures
        min_nat(min_nat(v, cap) * r + dg, cap) == min_nat(v * r + dg, cap),
{
    if v >= cap {
        assert(v * r >= v) by (nonlinear_arith)
            requires
                r >= 1,
        ;
        assert(cap * r >= cap) by (nonlinear_arith)
            requires
                r >= 1,
        ;
    }
}

/// The smaller of two naturals.
pub open spec fn min_nat(a: nat, b: nat) -> nat {
    if a <= b {
        a
    } else {
        b
    }
}

/// Parses `v[lo..hi]` as an unsigned number in radix 10 or 16 whose largest
/// allowed value is `max`.
pub fn parse_unsigned_range(v: &Vec<char>, lo: usize, hi: usize, radix: u32, max: u64) -> (r:
    Option<u64>)
    requires
        lo <= hi <= v.len(),
        radix == 10 || radix == 16,
    ensures
        r matches Some(x) ==> parse_unsigned(v@.subrange(lo as int, hi as int), radix as nat, max as nat) == Some(x as nat),
        r is None ==> parse_unsigned(v@.subrange(lo as int, hi as int), radix as nat, max as nat) is None,
{
    let ghost s = v@.subrange(lo as int, hi as int);
    let mut start = lo;
    if lo < hi && v[lo] == '+' {
        start = lo + 1;
    }
    let ghost d = v@.subrange(start as int, hi as int);
    assert(d =~= (if s.len() > 0 && s[0] == '+' { s.drop_first() } else { s }));
    if start == hi {
        return None;
    }
    let cap: u128 = max as u128 + 1;
    let mut acc: u128 = 0;
    let mut i = start;
    while i < hi
        invariant
            start <= i <= hi <= v.len(),
            d == v@.subrange(start as int, hi as int),
            s == v@.subrange(lo as int, hi as int),
            d == (if s.len() > 0 && s[0] == '+' { s.drop_first() } else { s }),
            cap == max + 1,
            acc <= cap,
            radix == 10 || radix == 16,
            all_digits(d.take(i - start), radix as nat),
            acc as nat == min_nat(digits_value(d.take(i - start), radix as nat), cap as nat),
        decreases hi - i,
    {
        let dg = digit_of(v[i], radix);
        match dg {
            None => {
                assert(d[i - start] == v@[i as int]);
                assert(digit_value(d[i - start], radix as nat) is None);
                assert(!all_digits(d, radix as nat));
                return None;
            },
            Some(x) => {
                let ghost k = i - start;
                proof {
                    assert(d.take(k + 1).drop_last() =~= d.take(k));
                    assert(d.take(k + 1).last() == v@[i as int]);
                    lemma_capped_step(digits_value(d.take(k), radix as nat), cap as nat, radix as nat, x as nat);
                    assert forall|j: int| 0 <= j < d.take(k + 1).len() implies (#[trigger] digit_value(d.take(k + 1)[j], radix as nat)) is Some by {
                        if j < k {
                            assert(d.take(k + 1)[j] == d.take(k)[j]);
                        }
                    }
                }
                assert(acc * (radix as u128) <= 0x1_0000_0000_0000_0000u128 * 16) by (nonlinear_arith)
                    requires
                        acc <= 0x1_0000_0000_0000_0000u128,
                        radix <= 16,
                ;
                let next = acc * (radix as u128) + (x as u128);
                acc = if next < cap { next } else { cap };
            },
        }
        i = i + 1;
    }
    assert(d.take(hi - start) =~= d);
    if acc < cap {
        Some(acc as u64)
    } else {
        None
    }
}

/// The characters left once leading white space is removed (`str::trim_start`).
pub open spec fn trim_start(s: Seq<char>) -> Seq<char>
    decreases s.len(),
{
    if s.len() > 0 && is_white_space(s[0]) {
        trim_start(s.drop_first())
    } else {
        s
    }
}

/// The characters left once trailing white space is removed (`str::trim_end`).
pub open spec fn trim_end(s: Seq<char>) -> Seq<char>
    decreases s.len(),
{
    if s.len() > 0 && is_white_space(s.last()) {
        trim_end(s.drop_last())
    } else {
        s
    }
}

/// The characters left once white space is removed at both ends (`str::trim`).
pub open spec fn trim(s: Seq<char>) -> Seq<char> {
    trim_end(trim_start(s))
}

/// The bounds of `trim(v[lo..hi])` within `v`.
pub fn trim_range(v: &Vec<char>, lo: usize, hi: usize) -> (r: (usize, usize))
    requires
        lo <= hi <= v.len(),
    ensures
        lo <= r.0 <= r.1 <= hi,
        v@.subrange(r.0 as int, r.1 as int) == trim(v@.subrange(lo as int, hi as int)),
{
    let mut a = lo;
    while a < hi && white_space(v[a])
        invariant
            lo <= a <= hi <= v.len(),
            trim_start(v@.subrange(lo as int, hi as int)) == trim_start(v@.subrange(a as int, hi as int)),
        decreases hi - a,
    {
        assert(v@.subrange(a as int, hi as int).drop_first() =~= v@.subrange(a + 1, hi as int));
        a = a + 1;
    }
    let mut b = hi;
    while b > a && white_space(v[b - 1])
        invariant
            lo <= a <= b <= hi <= v.len(),
            trim_end(v@.subrange(a as int, hi as int)) == trim_end(v@.subrange(a as int, b as int)),
        decreases b - a,
    {
        assert(v@.subrange(a as int, b as int).drop_last() =~= v@.subrange(a as int, b - 1));
        b = b - 1;
    }
    (a, b)
}

/// The characters of `trim(v)`.
pub fn trimmed(v: &Vec<char>) -> (r: Vec<char>)
    ensures
        r@ == trim(v@),
{
    let (a, b) = trim_range(v, 0, v.len());
    assert(v@.subrange(0, v.len() as int) =~= v@);
    slice_of(v, a, b)
}

/// The characters `v[lo..hi]`.
pub fn slice_of(v: &Vec<char>, lo: usize, hi: usize) -> (r: Vec<char>)
    requires
        lo <= hi <= v.len(),
    ensures
        r@ == v@.subrange(lo as int, hi as int),
{
    let mut r: Vec<char> = Vec::new();
    let mut i = lo;
    while i < hi
        invariant
            lo <= i <= hi <= v.len(),
            r@ == v@.subrange(lo as int, i as int),
        decreases hi - i,
    {
        r.push(v[i]);
        assert(r@ =~= v@.subrange(lo as int, i + 1));
        i = i + 1;
    }
    r
}

/// A line without the carriage return that ended it.
pub open spec fn strip_cr(l: Seq<char>) -> Seq<char> {
    if l.len() > 0 && l.last() == '\r' {
        l.drop_last()
    } else {
        l
    }
}

/// Each line without the carriage return that ended it.
pub open spec fn strip_crs(p: Seq<Seq<char>>) -> Seq<Seq<char>> {
    p.map_values(|l: Seq<char>| strip_cr(l))
}

/// The lines of a text, as `str::lines` yields them: split at `\n`, a `\r`
/// just before a `\n` dropped, and no empty last line after a final `\n`.
pub open spec fn lines(s: Seq<char>) -> Seq<Seq<char>> {
    let p = split(s, Sep::Char('\n'));
    let body = strip_crs(p.drop_last());
    if p.last().len() == 0 {
        body
    } else {
        body.push(p.last())
    }
}

/// The lines of a text.
pub fn lines_of(v: &Vec<char>) -> (r: Vec<Vec<char>>)
    ensures
        views(r@) == lines(v@),
{
    let parts = split_chars(v, Sep::Char('\n'));
    proof {
        lemma_split_nonempty(v@, Sep::Char('\n'));
    }
    let n = parts.len();
    let mut r: Vec<Vec<char>> = Vec::new();
    let mut i: usize = 0;
    while i + 1 < n
        invariant
            n == parts.len(),
            n >= 1,
            i < n,
            views(r@) == strip_crs(views(parts@).take(i as int)),
        decreases n - i,
    {
        let l = &parts[i];
        let k = l.len();
        let line = if k > 0 && l[k - 1] == '\r' {
            slice_of(l, 0, k - 1)
        } else {
            copy_chars(l)
        };
        assert(line@ == strip_cr(parts@[i as int]@)) by {
            if k > 0 && l@[k - 1] == '\r' {
                assert(l@.subrange(0, k - 1) =~= l@.drop_last());
            }
        }
        let ghost prev = views(r@);
        r.push(line);
        assert(views(r@) =~= prev.push(line@));
        assert(strip_crs(views(parts@).take(i + 1)) =~= strip_crs(views(parts@).take(i as int)).push(
            strip_cr(parts@[i as int]@),
        ));
        i = i + 1;
    }
    assert(views(parts@).take(i as int) =~= views(parts@).drop_last());
    if parts[n - 1].len() > 0 {
        let last = copy_chars(&parts[n - 1]);
        let ghost prev = views(r@);
        r.push(last);
        assert(views(r@) =~= prev.push(views(parts@).last()));
    }
    r
}

/// Whether `s` begins with `prefix`.
pub open spec fn starts_with(s: Seq<char>, prefix: Seq<char>) -> bool {
    prefix.len() <= s.len() && s.take(prefix.len() as int) == prefix
}

/// Tests whether `v` begins with the characters of `prefix`.
pub fn has_prefix(v: &Vec<char>, prefix: &str) -> (r: bool)
    ensures
        r == starts_with(v@, prefix@),
{
    let p = chars_of(prefix);
    if p.len() > v.len() {
        return false;
    }
    let mut i: usize = 0;
    while i < p.len()
        invariant
            p@ == prefix@,
            p.len() <= v.len(),
            i <= p.len(),
            forall|j: int| 0 <= j < i ==> v@[j] == p@[j],
        decreases p.len() - i,
    {
        if v[i] != p[i] {
            assert(v@.take(p.len() as int)[i as int] != p@[i as int]);
            return false;
        }
        i = i + 1;
    }
    assert(v@.take(p.len() as int) =~= p@);
    true
}

/// The position of the first `c` in `s`.
pub open spec fn first_index(s: Seq<char>, c: char) -> Option<int>
    decreases s.len(),
{
    if s.len() == 0 {
        None
    } else {
        match first_index(s.drop_last(), c) {
            Some(i) => Some(i),
            None => if s.last() == c {
                Some(s.len() - 1)
            } else {
                None
            },
        }
    }
}

/// A first position holds `c`, and no earlier one does; no position means
/// `c` does not occur.
pub proof fn lemma_first_index(s: Seq<char>, c: char)
    ensures
        first_index(s, c) matches Some(i) ==> 0 <= i < s.len() && s[i] == c && forall|j: int|
            0 <= j < i ==> s[j] != c,
        first_index(s, c) is None ==> forall|j: int| 0 <= j < s.len() ==> s[j] != c,
    decreases s.len(),
{
    if s.len() > 0 {
        lemma_first_index(s.drop_last(), c);
        assert forall|j: int| 0 <= j < s.len() - 1 implies s.drop_last()[j] == s[j] by {}
    }
}

/// Finds the first `c` in `v`.
pub fn find_char(v: &Vec<char>, c: char) -> (r: Option<usize>)
    ensures
        r matches Some(i) ==> first_index(v@, c) == Some(i as int),
        r is None ==> first_index(v@, c) is None,
{
    let mut i: usize = 0;
    while i < v.len()
        invariant
            i <= v.len(),
            forall|j: int| 0 <= j < i ==> v@[j] != c,
        decreases v.len() - i,
    {
        if v[i] == c {
            proof {
                lemma_first_index(v@, c);
                if first_index(v@, c) != Some(i as int) {
                    match first_index(v@, c) {
                        Some(k) => {
                            assert(k < i ==> v@[k] != c);
                        },
                        None => {},
                    }
                }
            }
            return Some(i);
        }
        i = i + 1;
    }
    proof {
        lemma_first_index(v@, c);
        if first_index(v@, c) is Some {
            let k = first_index(v@, c)->0;
            assert(v@[k] == c);
        }
    }
    None
}

/// The names joined by `sep`.
pub open spec fn join(names: Seq<Seq<char>>, sep: Seq<char>) -> Seq<char>
    decreases names.len(),
{
    if names.len() == 0 {
        Seq::empty()
    } else if names.len() == 1 {
        names[0]
    } else {
        join(names.drop_last(), sep) + sep + names.last()
    }
}

/// The first position at or after `i` where `pat` occurs in `s`.
pub open spec fn find_from(s: Seq<char>, pat: Seq<char>, i: int) -> Option<int>
    decreases s.len() + 1 - i,
{
    if i < 0 || i + pat.len() > s.len() {
        None
    } else if s.subrange(i, i + pat.len()) == pat {
        Some(i)
    } else {
        find_from(s, pat, i + 1)
    }
}

/// A found position holds `pat`, at or after `i`.
pub proof fn lemma_find_from(s: Seq<char>, pat: Seq<char>, i: int)
    ensures
        find_from(s, pat, i) matches Some(k) ==> i <= k && 0 <= k && k + pat.len() <= s.len(),
    decreases s.len() + 1 - i,
{
    if !(i < 0 || i + pat.len() > s.len()) && s.subrange(i, i + pat.len()) != pat {
        lemma_find_from(s, pat, i + 1);
    }
}

/// The text after the first `pat` and before the next one (the second
/// piece of `str::split` with a text pattern), if `pat` occurs.
pub open spec fn second_piece(s: Seq<char>, pat: Seq<char>) -> Option<Seq<char>> {
    match find_from(s, pat, 0) {
        Some(i) => {
            let rest = s.skip(i + pat.len());
            match find_from(rest, pat, 0) {
                Some(j) => Some(rest.take(j)),
                None => Some(rest),
            }
        },
        None => None,
    }
}

/// Whether `v[i..i + pat.len()]` equals `pat`.
fn matches_at(v: &Vec<char>, pat: &Vec<char>, i: usize) -> (r: bool)
    requires
        i + pat.len() <= v.len(),
    ensures
        r == (v@.subrange(i as int, i + pat.len()) == pat@),
{
    let mut k: usize = 0;
    while k < pat.len()
        invariant
            i + pat.len() <= v.len(),
            k <= pat.len(),
            forall|j: int| 0 <= j < k ==> v@[i + j] == pat@[j],
        decreases pat.len() - k,
    {
        if v[i + k] != pat[k] {
            assert(v@.subrange(i as int, i + pat.len())[k as int] != pat@[k as int]);
            return false;
        }
        k = k + 1;
    }
    assert(v@.subrange(i as int, i + pat.len()) =~= pat@);
    true
}

/// Finds `pat` in `v` at or after `start`.
pub fn find_pattern(v: &Vec<char>, pat: &Vec<char>, start: usize) -> (r: Option<usize>)
    ensures
        r matches Some(k) ==> find_from(v@, pat@, start as int) == Some(k as int),
        r is None ==> find_from(v@, pat@, start as int) is None,
{
    if pat.len() > v.len() {
        return None;
    }
    let last = v.len() - pat.len();
    let mut i = start;
    while i <= last
        invariant
            pat.len() <= v.len(),
            last == v.len() - pat.len(),
            start <= i,
            find_from(v@, pat@, start as int) == find_from(v@, pat@, i as int),
        decreases last + 1 - i,
    {
        if matches_at(v, pat, i) {
            return Some(i);
        }
        if i == last {
            assert(find_from(v@, pat@, i + 1) is None);
            return None;
        }
        i = i + 1;
    }
    None
}

/// The second piece of splitting `v` at `pat`, if `pat` occurs.
pub fn second_piece_of(v: &Vec<char>, pat: &str) -> (r: Option<Vec<char>>)
    ensures
        (match r {
            Some(x) => Some(x@),
            None => None,
        }) == second_piece(v@, pat@),
{
    let p = chars_of(pat);
    match find_pattern(v, &p, 0) {
        Some(i) => {
            proof {
                lemma_find_from(v@, p@, 0);
                assert(find_from(v@, p@, 0) == Some(i as int));
                assert(i + p@.len() <= v@.len());
            }
            let plen = p.len();
            assert(plen == p@.len());
            assert(i + plen <= v.len());
            let from = i + plen;
            let rest = slice_of(v, from, v.len());
            assert(rest@ =~= v@.skip(i + p@.len()));
            match find_pattern(&rest, &p, 0) {
                Some(j) => {
                    proof {
                        lemma_find_from(rest@, p@, 0);
                    }
                    let piece = slice_of(&rest, 0, j);
                    assert(piece@ =~= rest@.take(j as int));
                    Some(piece)
                },
                None => Some(rest),
            }
        },
        None => None,
    }
}

/// The characters of a string.
pub fn owned_chars(s: &String) -> (v: Vec<char>)
    ensures
        v@ == s@,
{
    chars_of(s.as_str())
}

} // verus!
