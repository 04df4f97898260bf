//! Bitmap fonts: each font row lists one glyph per character of the
//! character set; text is laid out glyph by glyph, either one cell per glyph
//! pixel or, in small mode, one quadrant-block cell per two-by-two pixels.
use vstd::prelude::*;
use crate::colors::{
    color_sequence, color_sequence_text, colors_computable, opt_view, ColorVec, COLOR_RESET,
};
use vstd::utf8::is_ascii_chars;
use crate::text::{
    chars_of, find_char, first_index, join, lemma_first_index, lemma_words_count, lowered,
    ascii_lower, lower_text, starts_from, views, words, words_of, Sep,
};

verus! {

/// How the glyphs of a font row are separated.
#[derive(Clone, Copy, PartialEq, Eq, Structural)]
pub enum Separator {
    /// Glyphs are separated by white space.
    Space,
    /// Glyphs are separated by `|`.
    Pipe,
}

/// A bitmap font: the characters it draws, and its rows, each listing the
/// glyphs of those characters in the same order.
#[derive(Clone, Copy)]
pub struct Font {
    pub charset: &'static str,
    pub rows: &'static [&'static str],
    separator: Separator,
}

/// The plain values that a font is.
pub struct FontView {
    pub charset: Seq<char>,
    pub rows: Seq<Seq<char>>,
    pub separator: Separator,
}

impl View for Font {
    type V = FontView;

    closed spec fn view(&self) -> FontView {
        FontView {
            charset: self.charset@,
            rows: self.rows@.map_values(|r: &'static str| r@),
            separator: self.separator_of(),
        }
    }
}

impl Font {
    /// The glyph separator of the font.
    pub closed spec fn separator_of(&self) -> Separator {
        self.separator
    }

}

/// The characters that both fonts draw, in glyph order.
pub const CHARSET: &'static str = " abcdefghijklmnopqrstuvwxyz0123456789?!#+-*\\/()[]{}.:,\"'=_";

/// Row 0 of the `default` font.
pub const DEFAULT_ROW_0: &'static str = ".. ███ ███ ███ ██. ███ ███ ███ █.█ █ ..█ █.█ █.. █.█ ██. ███ ███ ███ ███ ███ ███ █.█ █.█ █.█ █.█ █.█ ███ .█. ..█ ██. ██. █.. ███ █.. ███ ███ ███ ███ █ █.█ ... ... ... ... ... .█ █. .██ ██. .██ ██. . ... .. .. █.█ █ ... ...";

/// Row 1 of the `default` font.
pub const DEFAULT_ROW_1: &'static str = ".. █.█ █.█ █.. █.█ █.. █.. █.. █.█ . ..█ █.█ █.. ███ █.█ █.█ █.█ █.█ █.█ █.. .█. █.█ █.█ █.█ █.█ █.█ ..█ █.█ .██ ..█ ..█ █.█ █.. █.. ..█ █.█ █.█ ..█ █ ███ .█. ... █.█ █.. ..█ █. .█ .█. .█. .█. .█. . .█. .. .█ █.█ █ ███ ...";

/// Row 2 of the `default` font.
pub const DEFAULT_ROW_2: &'static str = ".. ███ ██. █.. █.█ ██. ██. █.█ ███ █ ..█ ██. █.. ███ █.█ █.█ ███ █.█ ██. ███ .█. █.█ █.█ ███ .█. ███ .█. █.█ █.█ .█. .█. ███ ██. ███ .█. ███ ███ .██ █ █.█ ███ ███ .█. .█. .█. █. .█ .█. .█. █.. ..█ . ... .. .. ... . ... ...";

/// Row 3 of the `default` font.
pub const DEFAULT_ROW_3: &'static str = ".. █.█ █.█ █.. █.█ █.. █.. █.█ █.█ █ █.█ █.█ █.. █.█ █.█ █.█ █.. ███ █.█ ..█ .█. █.█ █.█ ███ █.█ .█. █.. █.█ ..█ █.. ..█ ..█ ..█ █.█ █.. █.█ ..█ ... . ███ .█. ... █.█ ..█ █.. █. .█ .█. .█. .█. .█. . .█. .█ .█ ... . ███ ...";

/// Row 4 of the `default` font.
pub const DEFAULT_ROW_4: &'static str = ".. █.█ ███ ███ ███ ███ █.. ███ █.█ █ ███ █.█ ███ █.█ █.█ ███ █.. ..█ █.█ ███ .█. ███ .█. █.█ █.█ .█. ███ .█. ..█ ███ ██. ..█ ██. ███ █.. ███ ..█ .█. █ █.█ ... ... ... ... ... .█ █. .██ ██. .██ ██. █ ... █. █. ... . ... ███";

/// Row 0 of the `hashtag` font.
pub const HASHTAG_ROW_0: &'static str = ".. .##. ###. .### ###. #### #### .##. #..# # ...# #..# #... #...# #..# .##. ###. .##. ###. .### ##### #..# #...# #...# #...# #...# ##### .#. ..# ##. ##. #.. ### #.. ### ### ### ### # #.# ... ... ... ... ... .# #. .## ##. .## ##. . ... .. .. #.# # ... ...";

/// Row 1 of the `hashtag` font.
pub const HASHTAG_ROW_1: &'static str = ".. #..# #..# #... #..# #... #... #... #..# . ...# #..# #... ##.## ##.# #..# #..# #..# #..# #... ..#.. #..# #...# #...# .#.#. .#.#. ...#. #.# .## ..# ..# #.# #.. #.. ..# #.# #.# ..# # ### .#. ... #.# #.. ..# #. .# .#. .#. .#. .#. . .#. .. .# #.# # ### ...";

/// Row 2 of the `hashtag` font.
pub const HASHTAG_ROW_2: &'static str = ".. #### ###. #... #..# ###. ###. #.## #### # ...# ###. #... #.#.# #.## #..# ###. #..# ###. .##. ..#.. #..# #...# #.#.# ..#.. ..#.. ..#.. #.# #.# .#. .#. ### ##. ### .#. ### ### .## # #.# ### ### .#. .#. .#. #. .# .#. .#. #.. ..# . ... .. .. ... . ... ...";

/// Row 3 of the `hashtag` font.
pub const HASHTAG_ROW_3: &'static str = ".. #..# #..# #... #..# #... #... #..# #..# # #..# #..# #... #...# #..# #..# #... #.## #..# ...# ..#.. #..# .#.#. ##.## .#.#. ..#.. .#... #.# ..# #.. ..# ..# ..# #.# #.. #.# ..# ... . ### .#. ... #.# ..# #.. #. .# .#. .#. .#. .#. . .#. .# .# ... . ### ...";

/// Row 4 of the `hashtag` font.
pub const HASHTAG_ROW_4: &'static str = ".. #..# ###. .### ###. #### #... .##. #..# # .##. #..# #### #...# #..# .##. #... .### #..# ###. ..#.. .##. ..#.. #...# #...# ..#.. ##### .#. ..# ### ##. ..# ##. ### #.. ### ..# .#. # #.# ... ... ... ... ... .# #. .## ##. .## ##. # ... #. #. ... . ... ###";

/// The font called `default`.
pub open spec fn default_font_view() -> FontView {
    FontView {
        charset: CHARSET@,
        rows: seq![DEFAULT_ROW_0@, DEFAULT_ROW_1@, DEFAULT_ROW_2@, DEFAULT_ROW_3@, DEFAULT_ROW_4@],
        separator: Separator::Space,
    }
}

/// The font called `hashtag`.
pub open spec fn hashtag_font_view() -> FontView {
    FontView {
        charset: CHARSET@,
        rows: seq![HASHTAG_ROW_0@, HASHTAG_ROW_1@, HASHTAG_ROW_2@, HASHTAG_ROW_3@, HASHTAG_ROW_4@],
        separator: Separator::Space,
    }
}

/// The `default` font.
fn default_font() -> (f: &'static Font)
    ensures
        f@ == default_font_view(),
{
    let f: &'static Font = &Font {
        charset: CHARSET,
        rows: &[DEFAULT_ROW_0, DEFAULT_ROW_1, DEFAULT_ROW_2, DEFAULT_ROW_3, DEFAULT_ROW_4],
        separator: Separator::Space,
    };
    assert(f@.rows =~= default_font_view().rows);
    f
}

/// The `hashtag` font.
fn hashtag_font() -> (f: &'static Font)
    ensures
        f@ == hashtag_font_view(),
{
    let f: &'static Font = &Font {
        charset: CHARSET,
        rows: &[HASHTAG_ROW_0, HASHTAG_ROW_1, HASHTAG_ROW_2, HASHTAG_ROW_3, HASHTAG_ROW_4],
        separator: Separator::Space,
    };
    assert(f@.rows =~= hashtag_font_view().rows);
    f
}

/// `DEFAULT_ROW_0` holds 59 glyphs.
proof fn lemma_glyphs_default_row_0()
    ensures
        starts_from(DEFAULT_ROW_0@, Sep::WhiteSpace, 0) == 59,
{
    reveal_strlit(".. ███ ███ ███ ██. ███ ███ ███ █.█ █ ..█ █.█ █.. █.█ ██. ███ ███ ███ ███ ███ ███ █.█ █.█ █.█ █.█ █.█ ███ .█. ..█ ██. ██. █.. ███ █.. ███ ███ ███ ███ █ █.█ ... ... ... ... ... .█ █. .██ ██. .██ ██. . ... .. .. █.█ █ ... ...");
    let s = DEFAULT_ROW_0@;
    assert(s.len() == 222);
    assert(starts_from(s, Sep::WhiteSpace, 222) == 0);
    assert(starts_from(s, Sep::WhiteSpace, 206) == 5) by {
        reveal_with_fuel(starts_from, 17);
    }
    assert(starts_from(s, Sep::WhiteSpace, 190) == 9) by {
        reveal_with_fuel(starts_from, 17);
    }
    assert(starts_from(s, Sep::WhiteSpace, 174) == 14) by {
        reveal_with_fuel(starts_from, 17);
    }
    assert(starts_from(s, Sep::WhiteSpace, 158) == 18) by {
        reveal_with_fuel(starts_from, 17);
    }
    assert(starts_from(s, Sep::WhiteSpace, 142) == 22) by {
        reveal_with_fuel(starts_from, 17);
    }
    assert(starts_from(s, Sep::WhiteSpace, 126) == 26) by {
        reveal_with_fuel(starts_from, 17);
    }
    assert(starts_from(s, Sep::WhiteSpace, 110) == 30) by {
        reveal_with_fuel(starts_from, 17);
    }
    assert(starts_from(s, Sep::WhiteSpace, 94) == 34) by {
        reveal_with_fuel(starts_from, 17);
    }
    assert(starts_from(s, Sep::WhiteSpace, 78) == 38) by {
        reveal_with_fuel(starts_from, 17);
    }
    assert(starts_from(s, Sep::WhiteSpace, 62) == 42) by {
        reveal_with_fuel(starts_from, 17);
    }
    assert(starts_from(s, Sep::WhiteSpace, 46) == 46) by {
        reveal_with_fuel(starts_from, 17);
    }
    assert(starts_from(s, Sep::WhiteSpace, 30) == 51) by {
        reveal_with_fuel(starts_from, 17);
    }
    assert(starts_from(s, Sep::WhiteSpace, 14) == 55) by {
        reveal_with_fuel(starts_from, 17);
    }
    assert(starts_from(s, Sep::WhiteSpace, 0) == 59) by {
        reveal_with_fuel(starts_from, 15);
    }
}

/// `DEFAULT_ROW_1` holds 59 glyphs.
proof fn lemma_glyphs_default_row_1()
    ensures
        starts_from(DEFAULT_ROW_1@, Sep::WhiteSpace, 0) == 59,
{
    reveal_strlit(".. █.█ █.█ █.. █.█ █.. █.. █.. █.█ . ..█ █.█ █.. ███ █.█ █.█ █.█ █.█ █.█ █.. .█. █.█ █.█ █.█ █.█ █.█ ..█ █.█ .██ ..█ ..█ █.█ █.. █.. ..█ █.█ █.█ ..█ █ ███ .█. ... █.█ █.. ..█ █. .█ .█. .█. .█. .█. . .█. .. .█ █.█ █ ███ ...");
    let s = DEFAULT_ROW_1@;
    assert(s.len() == 222);
    assert(starts_from(s, Sep::WhiteSpace, 222) == 0);
    assert(starts_from(s, Sep::WhiteSpace, 206) == 5) by {
        reveal_with_fuel(starts_from, 17);
    }
    assert(starts_from(s, Sep::WhiteSpace, 190) == 9) by {
        reveal_with_fuel(starts_from, 17);
    }
    assert(starts_from(s, Sep::WhiteSpace, 174) == 14) by {
        reveal_with_fuel(starts_from, 17);
    }
    assert(starts_from(s, Sep::WhiteSpace, 158) == 18) by {
        reveal_with_fuel(starts_from, 17);
    }
    assert(starts_from(s, Sep::WhiteSpace, 142) == 22) by {
        reveal_with_fuel(starts_from, 17);
    }
    assert(starts_from(s, Sep::WhiteSpace, 126) == 26) by {
        reveal_with_fuel(starts_from, 17);
    }
    assert(starts_from(s, Sep::WhiteSpace, 110) == 30) by {
        reveal_with_fuel(starts_from, 17);
    }
    assert(starts_from(s, Sep::WhiteSpace, 94) == 34) by {
        reveal_with_fuel(starts_from, 17);
    }
    assert(starts_from(s, Sep::WhiteSpace, 78) == 38) by {
        reveal_with_fuel(starts_from, 17);
    }
    assert(starts_from(s, Sep::WhiteSpace, 62) == 42) by {
        reveal_with_fuel(starts_from, 17);
    }
    assert(starts_from(s, Sep::WhiteSpace, 46) == 46) by {
        reveal_with_fuel(starts_from, 17);
    }
    assert(starts_from(s, Sep::WhiteSpace, 30) == 51) by {
        reveal_with_fuel(starts_from, 17);
    }
    assert(starts_from(s, Sep::WhiteSpace, 14) == 55) by {
        reveal_with_fuel(starts_from, 17);
    }
    assert(starts_from(s, Sep::WhiteSpace, 0) == 59) by {
        reveal_with_fuel(starts_from, 15);
    }
}

/// `DEFAULT_ROW_2` holds 59 glyphs.
proof fn lemma_glyphs_default_row_2()
    ensures
        starts_from(DEFAULT_ROW_2@, Sep::WhiteSpace, 0) == 59,
{
    reveal_strlit(".. ███ ██. █.. █.█ ██. ██. █.█ ███ █ ..█ ██. █.. ███ █.█ █.█ ███ █.█ ██. ███ .█. █.█ █.█ ███ .█. ███ .█. █.█ █.█ .█. .█. ███ ██. ███ .█. ███ ███ .██ █ █.█ ███ ███ .█. .█. .█. █. .█ .█. .█. █.. ..█ . ... .. .. ... . ... ...");
    let s = DEFAULT_ROW_2@;
    assert(s.len() == 222);
    assert(starts_from(s, Sep::WhiteSpace, 222) == 0);
    assert(starts_from(s, Sep::WhiteSpace, 206) == 5) by {
        reveal_with_fuel(starts_from, 17);
    }
    assert(starts_from(s, Sep::WhiteSpace, 190) == 9) by {
        reveal_with_fuel(starts_from, 17);
    }
    assert(starts_from(s, Sep::WhiteSpace, 174) == 14) by {
        reveal_with_fuel(starts_from, 17);
    }
    assert(starts_from(s, Sep::WhiteSpace, 158) == 18) by {
        reveal_with_fuel(starts_from, 17);
    }
    assert(starts_from(s, Sep::WhiteSpace, 142) == 22) by {
        reveal_with_fuel(starts_from, 17);
    }
    assert(starts_from(s, Sep::WhiteSpace, 126) == 26) by {
        reveal_with_fuel(starts_from, 17);
    }
    assert(starts_from(s, Sep::WhiteSpace, 110) == 30) by {
        reveal_with_fuel(starts_from, 17);
    }
    assert(starts_from(s, Sep::WhiteSpace, 94) == 34) by {
        reveal_with_fuel(starts_from, 17);
    }
    assert(starts_from(s, Sep::WhiteSpace, 78) == 38) by {
        reveal_with_fuel(starts_from, 17);
    }
    assert(starts_from(s, Sep::WhiteSpace, 62) == 42) by {
        reveal_with_fuel(starts_from, 17);
    }
    assert(starts_from(s, Sep::WhiteSpace, 46) == 46) by {
        reveal_with_fuel(starts_from, 17);
    }
    assert(starts_from(s, Sep::WhiteSpace, 30) == 51) by {
        reveal_with_fuel(starts_from, 17);
    }
    assert(starts_from(s, Sep::WhiteSpace, 14) == 55) by {
        reveal_with_fuel(starts_from, 17);
    }
    assert(starts_from(s, Sep::WhiteSpace, 0) == 59) by {
        reveal_with_fuel(starts_from, 15);
    }
}

/// `DEFAULT_ROW_3` holds 59 glyphs.
proof fn lemma_glyphs_default_row_3()
    ensures
        starts_from(DEFAULT_ROW_3@, Sep::WhiteSpace, 0) == 59,
{
    reveal_strlit(".. █.█ █.█ █.. █.█ █.. █.. █.█ █.█ █ █.█ █.█ █.. █.█ █.█ █.█ █.. ███ █.█ ..█ .█. █.█ █.█ ███ █.█ .█. █.. █.█ ..█ █.. ..█ ..█ ..█ █.█ █.. █.█ ..█ ... . ███ .█. ... █.█ ..█ █.. █. .█ .█. .█. .█. .█. . .█. .█ .█ ... . ███ ...");
    let s = DEFAULT_ROW_3@;
    assert(s.len() == 222);
    assert(starts_from(s, Sep::WhiteSpace, 222) == 0);
    assert(starts_from(s, Sep::WhiteSpace, 206) == 5) by {
        reveal_with_fuel(starts_from, 17);
    }
    assert(starts_from(s, Sep::WhiteSpace, 190) == 9) by {
        reveal_with_fuel(starts_from, 17);
    }
    assert(starts_from(s, Sep::WhiteSpace, 174) == 14) by {
        reveal_with_fuel(starts_from, 17);
    }
    assert(starts_from(s, Sep::WhiteSpace, 158) == 18) by {
        reveal_with_fuel(starts_from, 17);
    }
    assert(starts_from(s, Sep::WhiteSpace, 142) == 22) by {
        reveal_with_fuel(starts_from, 17);
    }
    assert(starts_from(s, Sep::WhiteSpace, 126) == 26) by {
        reveal_with_fuel(starts_from, 17);
    }
    assert(starts_from(s, Sep::WhiteSpace, 110) == 30) by {
        reveal_with_fuel(starts_from, 17);
    }
    assert(starts_from(s, Sep::WhiteSpace, 94) == 34) by {
        reveal_with_fuel(starts_from, 17);
    }
    assert(starts_from(s, Sep::WhiteSpace, 78) == 38) by {
        reveal_with_fuel(starts_from, 17);
    }
    assert(starts_from(s, Sep::WhiteSpace, 62) == 42) by {
        reveal_with_fuel(starts_from, 17);
    }
    assert(starts_from(s, Sep::WhiteSpace, 46) == 46) by {
        reveal_with_fuel(starts_from, 17);
    }
    assert(starts_from(s, Sep::WhiteSpace, 30) == 51) by {
        reveal_with_fuel(starts_from, 17);
    }
    assert(starts_from(s, Sep::WhiteSpace, 14) == 55) by {
        reveal_with_fuel(starts_from, 17);
    }
    assert(starts_from(s, Sep::WhiteSpace, 0) == 59) by {
        reveal_with_fuel(starts_from, 15);
    }
}

/// `DEFAULT_ROW_4` holds 59 glyphs.
proof fn lemma_glyphs_default_row_4()
    ensures
        starts_from(DEFAULT_ROW_4@, Sep::WhiteSpace, 0) == 59,
{
    reveal_strlit(".. █.█ ███ ███ ███ ███ █.. ███ █.█ █ ███ █.█ ███ █.█ █.█ ███ █.. ..█ █.█ ███ .█. ███ .█. █.█ █.█ .█. ███ .█. ..█ ███ ██. ..█ ██. ███ █.. ███ ..█ .█. █ █.█ ... ... ... ... ... .█ █. .██ ██. .██ ██. █ ... █. █. ... . ... ███");
    let s = DEFAULT_ROW_4@;
    assert(s.len() == 222);
    assert(starts_from(s, Sep::WhiteSpace, 222) == 0);
    assert(starts_from(s, Sep::WhiteSpace, 206) == 5) by {
        reveal_with_fuel(starts_from, 17);
    }
    assert(starts_from(s, Sep::WhiteSpace, 190) == 9) by {
        reveal_with_fuel(starts_from, 17);
    }
    assert(starts_from(s, Sep::WhiteSpace, 174) == 14) by {
        reveal_with_fuel(starts_from, 17);
    }
    assert(starts_from(s, Sep::WhiteSpace, 158) == 18) by {
        reveal_with_fuel(starts_from, 17);
    }
    assert(starts_from(s, Sep::WhiteSpace, 142) == 22) by {
        reveal_with_fuel(starts_from, 17);
    }
    assert(starts_from(s, Sep::WhiteSpace, 126) == 26) by {
        reveal_with_fuel(starts_from, 17);
    }
    assert(starts_from(s, Sep::WhiteSpace, 110) == 30) by {
        reveal_with_fuel(starts_from, 17);
    }
    assert(starts_from(s, Sep::WhiteSpace, 94) == 34) by {
        reveal_with_fuel(starts_from, 17);
    }
    assert(starts_from(s, Sep::WhiteSpace, 78) == 38) by {
        reveal_with_fuel(starts_from, 17);
    }
    assert(starts_from(s, Sep::WhiteSpace, 62) == 42) by {
        reveal_with_fuel(starts_from, 17);
    }
    assert(starts_from(s, Sep::WhiteSpace, 46) == 46) by {
        reveal_with_fuel(starts_from, 17);
    }
    assert(starts_from(s, Sep::WhiteSpace, 30) == 51) by {
        reveal_with_fuel(starts_from, 17);
    }
    assert(starts_from(s, Sep::WhiteSpace, 14) == 55) by {
        reveal_with_fuel(starts_from, 17);
    }
    assert(starts_from(s, Sep::WhiteSpace, 0) == 59) by {
        reveal_with_fuel(starts_from, 15);
    }
}

/// `HASHTAG_ROW_0` holds 59 glyphs.
proof fn lemma_glyphs_hashtag_row_0()
    ensures
        starts_from(HASHTAG_ROW_0@, Sep::WhiteSpace, 0) == 59,
{
    reveal_strlit(".. .##. ###. .### ###. #### #### .##. #..# # ...# #..# #... #...# #..# .##. ###. .##. ###. .### ##### #..# #...# #...# #...# #...# ##### .#. ..# ##. ##. #.. ### #.. ### ### ### ### # #.# ... ... ... ... ... .# #. .## ##. .## ##. . ... .. .. #.# # ... ...");
    let s = HASHTAG_ROW_0@;
    assert(s.len() == 254);
    assert(starts_from(s, Sep::WhiteSpace, 254) == 0);
    assert(starts_from(s, Sep::WhiteSpace, 238) == 5) by {
        reveal_with_fuel(starts_from, 17);
    }
    assert(starts_from(s, Sep::WhiteSpace, 222) == 9) by {
        reveal_with_fuel(starts_from, 17);
    }
    assert(starts_from(s, Sep::WhiteSpace, 206) == 14) by {
        reveal_with_fuel(starts_from, 17);
    }
    assert(starts_from(s, Sep::WhiteSpace, 190) == 18) by {
        reveal_with_fuel(starts_from, 17);
    }
    assert(starts_from(s, Sep::WhiteSpace, 174) == 22) by {
        reveal_with_fuel(starts_from, 17);
    }
    assert(starts_from(s, Sep::WhiteSpace, 158) == 26) by {
        reveal_with_fuel(starts_from, 17);
    }
    assert(starts_from(s, Sep::WhiteSpace, 142) == 30) by {
        reveal_with_fuel(starts_from, 17);
    }
    assert(starts_from(s, Sep::WhiteSpace, 126) == 33) by {
        reveal_with_fuel(starts_from, 17);
    }
    assert(starts_from(s, Sep::WhiteSpace, 110) == 36) by {
        reveal_with_fuel(starts_from, 17);
    }
    assert(starts_from(s, Sep::WhiteSpace, 94) == 39) by {
        reveal_with_fuel(starts_from, 17);
    }
    assert(starts_from(s, Sep::WhiteSpace, 78) == 42) by {
        reveal_with_fuel(starts_from, 17);
    }
    assert(starts_from(s, Sep::WhiteSpace, 62) == 45) by {
        reveal_with_fuel(starts_from, 17);
    }
    assert(starts_from(s, Sep::WhiteSpace, 46) == 48) by {
        reveal_with_fuel(starts_from, 17);
    }
    assert(starts_from(s, Sep::WhiteSpace, 30) == 52) by {
        reveal_with_fuel(starts_from, 17);
    }
    assert(starts_from(s, Sep::WhiteSpace, 14) == 55) by {
        reveal_with_fuel(starts_from, 17);
    }
    assert(starts_from(s, Sep::WhiteSpace, 0) == 59) by {
        reveal_with_fuel(starts_from, 15);
    }
}

/// `HASHTAG_ROW_1` holds 59 glyphs.
proof fn lemma_glyphs_hashtag_row_1()
    ensures
        starts_from(HASHTAG_ROW_1@, Sep::WhiteSpace, 0) == 59,
{
    reveal_strlit(".. #..# #..# #... #..# #... #... #... #..# . ...# #..# #... ##.## ##.# #..# #..# #..# #..# #... ..#.. #..# #...# #...# .#.#. .#.#. ...#. #.# .## ..# ..# #.# #.. #.. ..# #.# #.# ..# # ### .#. ... #.# #.. ..# #. .# .#. .#. .#. .#. . .#. .. .# #.# # ### ...");
    let s = HASHTAG_ROW_1@;
    assert(s.len() == 254);
    assert(starts_from(s, Sep::WhiteSpace, 254) == 0);
    assert(starts_from(s, Sep::WhiteSpace, 238) == 5) by {
        reveal_with_fuel(starts_from, 17);
    }
    assert(starts_from(s, Sep::WhiteSpace, 222) == 9) by {
        reveal_with_fuel(starts_from, 17);
    }
    assert(starts_from(s, Sep::WhiteSpace, 206) == 14) by {
        reveal_with_fuel(starts_from, 17);
    }
    assert(starts_from(s, Sep::WhiteSpace, 190) == 18) by {
        reveal_with_fuel(starts_from, 17);
    }
    assert(starts_from(s, Sep::WhiteSpace, 174) == 22) by {
        reveal_with_fuel(starts_from, 17);
    }
    assert(starts_from(s, Sep::WhiteSpace, 158) == 26) by {
        reveal_with_fuel(starts_from, 17);
    }
    assert(starts_from(s, Sep::WhiteSpace, 142) == 30) by {
        reveal_with_fuel(starts_from, 17);
    }
    assert(starts_from(s, Sep::WhiteSpace, 126) == 33) by {
        reveal_with_fuel(starts_from, 17);
    }
    assert(starts_from(s, Sep::WhiteSpace, 110) == 36) by {
        reveal_with_fuel(starts_from, 17);
    }
    assert(starts_from(s, Sep::WhiteSpace, 94) == 39) by {
        reveal_with_fuel(starts_from, 17);
    }
    assert(starts_from(s, Sep::WhiteSpace, 78) == 42) by {
        reveal_with_fuel(starts_from, 17);
    }
    assert(starts_from(s, Sep::WhiteSpace, 62) == 45) by {
        reveal_with_fuel(starts_from, 17);
    }
    assert(starts_from(s, Sep::WhiteSpace, 46) == 48) by {
        reveal_with_fuel(starts_from, 17);
    }
    assert(starts_from(s, Sep::WhiteSpace, 30) == 52) by {
        reveal_with_fuel(starts_from, 17);
    }
    assert(starts_from(s, Sep::WhiteSpace, 14) == 55) by {
        reveal_with_fuel(starts_from, 17);
    }
    assert(starts_from(s, Sep::WhiteSpace, 0) == 59) by {
        reveal_with_fuel(starts_from, 15);
    }
}

/// `HASHTAG_ROW_2` holds 59 glyphs.
proof fn lemma_glyphs_hashtag_row_2()
    ensures
        starts_from(HASHTAG_ROW_2@, Sep::WhiteSpace, 0) == 59,
{
    reveal_strlit(".. #### ###. #... #..# ###. ###. #.## #### # ...# ###. #... #.#.# #.## #..# ###. #..# ###. .##. ..#.. #..# #...# #.#.# ..#.. ..#.. ..#.. #.# #.# .#. .#. ### ##. ### .#. ### ### .## # #.# ### ### .#. .#. .#. #. .# .#. .#. #.. ..# . ... .. .. ... . ... ...");
    let s = HASHTAG_ROW_2@;
    assert(s.len() == 254);
    assert(starts_from(s, Sep::WhiteSpace, 254) == 0);
    assert(starts_from(s, Sep::WhiteSpace, 238) == 5) by {
        reveal_with_fuel(starts_from, 17);
    }
    assert(starts_from(s, Sep::WhiteSpace, 222) == 9) by {
        reveal_with_fuel(starts_from, 17);
    }
    assert(starts_from(s, Sep::WhiteSpace, 206) == 14) by {
        reveal_with_fuel(starts_from, 17);
    }
    assert(starts_from(s, Sep::WhiteSpace, 190) == 18) by {
        reveal_with_fuel(starts_from, 17);
    }
    assert(starts_from(s, Sep::WhiteSpace, 174) == 22) by {
        reveal_with_fuel(starts_from, 17);
    }
    assert(starts_from(s, Sep::WhiteSpace, 158) == 26) by {
        reveal_with_fuel(starts_from, 17);
    }
    assert(starts_from(s, Sep::WhiteSpace, 142) == 30) by {
        reveal_with_fuel(starts_from, 17);
    }
    assert(starts_from(s, Sep::WhiteSpace, 126) == 33) by {
        reveal_with_fuel(starts_from, 17);
    }
    assert(starts_from(s, Sep::WhiteSpace, 110) == 36) by {
        reveal_with_fuel(starts_from, 17);
    }
    assert(starts_from(s, Sep::WhiteSpace, 94) == 39) by {
        reveal_with_fuel(starts_from, 17);
    }
    assert(starts_from(s, Sep::WhiteSpace, 78) == 42) by {
        reveal_with_fuel(starts_from, 17);
    }
    assert(starts_from(s, Sep::WhiteSpace, 62) == 45) by {
        reveal_with_fuel(starts_from, 17);
    }
    assert(starts_from(s, Sep::WhiteSpace, 46) == 48) by {
        reveal_with_fuel(starts_from, 17);
    }
    assert(starts_from(s, Sep::WhiteSpace, 30) == 52) by {
        reveal_with_fuel(starts_from, 17);
    }
    assert(starts_from(s, Sep::WhiteSpace, 14) == 55) by {
        reveal_with_fuel(starts_from, 17);
    }
    assert(starts_from(s, Sep::WhiteSpace, 0) == 59) by {
        reveal_with_fuel(starts_from, 15);
    }
}

/// `HASHTAG_ROW_3` holds 59 glyphs.
proof fn lemma_glyphs_hashtag_row_3()
    ensures
        starts_from(HASHTAG_ROW_3@, Sep::WhiteSpace, 0) == 59,
{
    reveal_strlit(".. #..# #..# #... #..# #... #... #..# #..# # #..# #..# #... #...# #..# #..# #... #.## #..# ...# ..#.. #..# .#.#. ##.## .#.#. ..#.. .#... #.# ..# #.. ..# ..# ..# #.# #.. #.# ..# ... . ### .#. ... #.# ..# #.. #. .# .#. .#. .#. .#. . .#. .# .# ... . ### ...");
    let s = HASHTAG_ROW_3@;
    assert(s.len() == 254);
    assert(starts_from(s, Sep::WhiteSpace, 254) == 0);
    assert(starts_from(s, Sep::WhiteSpace, 238) == 5) by {
        reveal_with_fuel(starts_from, 17);
    }
    assert(starts_from(s, Sep::WhiteSpace, 222) == 9) by {
        reveal_with_fuel(starts_from, 17);
    }
    assert(starts_from(s, Sep::WhiteSpace, 206) == 14) by {
        reveal_with_fuel(starts_from, 17);
    }
    assert(starts_from(s, Sep::WhiteSpace, 190) == 18) by {
        reveal_with_fuel(starts_from, 17);
    }
    assert(starts_from(s, Sep::WhiteSpace, 174) == 22) by {
        reveal_with_fuel(starts_from, 17);
    }
    assert(starts_from(s, Sep::WhiteSpace, 158) == 26) by {
        reveal_with_fuel(starts_from, 17);
    }
    assert(starts_from(s, Sep::WhiteSpace, 142) == 30) by {
        reveal_with_fuel(starts_from, 17);
    }
    assert(starts_from(s, Sep::WhiteSpace, 126) == 33) by {
        reveal_with_fuel(starts_from, 17);
    }
    assert(starts_from(s, Sep::WhiteSpace, 110) == 36) by {
        reveal_with_fuel(starts_from, 17);
    }
    assert(starts_from(s, Sep::WhiteSpace, 94) == 39) by {
        reveal_with_fuel(starts_from, 17);
    }
    assert(starts_from(s, Sep::WhiteSpace, 78) == 42) by {
        reveal_with_fuel(starts_from, 17);
    }
    assert(starts_from(s, Sep::WhiteSpace, 62) == 45) by {
        reveal_with_fuel(starts_from, 17);
    }
    assert(starts_from(s, Sep::WhiteSpace, 46) == 48) by {
        reveal_with_fuel(starts_from, 17);
    }
    assert(starts_from(s, Sep::WhiteSpace, 30) == 52) by {
        reveal_with_fuel(starts_from, 17);
    }
    assert(starts_from(s, Sep::WhiteSpace, 14) == 55) by {
        reveal_with_fuel(starts_from, 17);
    }
    assert(starts_from(s, Sep::WhiteSpace, 0) == 59) by {
        reveal_with_fuel(starts_from, 15);
    }
}

/// `HASHTAG_ROW_4` holds 59 glyphs.
proof fn lemma_glyphs_hashtag_row_4()
    ensures
        starts_from(HASHTAG_ROW_4@, Sep::WhiteSpace, 0) == 59,
{
    reveal_strlit(".. #..# ###. .### ###. #### #... .##. #..# # .##. #..# #### #...# #..# .##. #... .### #..# ###. ..#.. .##. ..#.. #...# #...# ..#.. ##### .#. ..# ### ##. ..# ##. ### #.. ### ..# .#. # #.# ... ... ... ... ... .# #. .## ##. .## ##. # ... #. #. ... . ... ###");
    let s = HASHTAG_ROW_4@;
    assert(s.len() == 254);
    assert(starts_from(s, Sep::WhiteSpace, 254) == 0);
    assert(starts_from(s, Sep::WhiteSpace, 238) == 5) by {
        reveal_with_fuel(starts_from, 17);
    }
    assert(starts_from(s, Sep::WhiteSpace, 222) == 9) by {
        reveal_with_fuel(starts_from, 17);
    }
    assert(starts_from(s, Sep::WhiteSpace, 206) == 14) by {
        reveal_with_fuel(starts_from, 17);
    }
    assert(starts_from(s, Sep::WhiteSpace, 190) == 18) by {
        reveal_with_fuel(starts_from, 17);
    }
    assert(starts_from(s, Sep::WhiteSpace, 174) == 22) by {
        reveal_with_fuel(starts_from, 17);
    }
    assert(starts_from(s, Sep::WhiteSpace, 158) == 26) by {
        reveal_with_fuel(starts_from, 17);
    }
    assert(starts_from(s, Sep::WhiteSpace, 142) == 30) by {
        reveal_with_fuel(starts_from, 17);
    }
    assert(starts_from(s, Sep::WhiteSpace, 126) == 33) by {
        reveal_with_fuel(starts_from, 17);
    }
    assert(starts_from(s, Sep::WhiteSpace, 110) == 36) by {
        reveal_with_fuel(starts_from, 17);
    }
    assert(starts_from(s, Sep::WhiteSpace, 94) == 39) by {
        reveal_with_fuel(starts_from, 17);
    }
    assert(starts_from(s, Sep::WhiteSpace, 78) == 42) by {
        reveal_with_fuel(starts_from, 17);
    }
    assert(starts_from(s, Sep::WhiteSpace, 62) == 45) by {
        reveal_with_fuel(starts_from, 17);
    }
    assert(starts_from(s, Sep::WhiteSpace, 46) == 48) by {
        reveal_with_fuel(starts_from, 17);
    }
    assert(starts_from(s, Sep::WhiteSpace, 30) == 52) by {
        reveal_with_fuel(starts_from, 17);
    }
    assert(starts_from(s, Sep::WhiteSpace, 14) == 55) by {
        reveal_with_fuel(starts_from, 17);
    }
    assert(starts_from(s, Sep::WhiteSpace, 0) == 59) by {
        reveal_with_fuel(starts_from, 15);
    }
}

/// The character set has 58 characters.
proof fn lemma_charset_len()
    ensures
        CHARSET@.len() == 58,
{
    reveal_strlit(" abcdefghijklmnopqrstuvwxyz0123456789?!#+-*\\/()[]{}.:,\"'=_");
}

/// Every row of both fonts holds 59 glyphs, more than the 58 characters of
/// the character set, so the glyph position of any character names a glyph
/// in every row.
pub proof fn lemma_font_rows(f: FontView, y: int, c: char)
    requires
        f == default_font_view() || f == hashtag_font_view(),
        0 <= y < f.rows.len(),
    ensures
        f.rows.len() == 5,
        f.charset.len() == 58,
        bitmap(f)[y].len() == 59,
        0 <= glyph_position(f.charset, c) < bitmap(f)[y].len(),
{
    lemma_glyphs_default_row_0();
    lemma_glyphs_default_row_1();
    lemma_glyphs_default_row_2();
    lemma_glyphs_default_row_3();
    lemma_glyphs_default_row_4();
    lemma_glyphs_hashtag_row_0();
    lemma_glyphs_hashtag_row_1();
    lemma_glyphs_hashtag_row_2();
    lemma_glyphs_hashtag_row_3();
    lemma_glyphs_hashtag_row_4();
    lemma_charset_len();
    lemma_words_count(f.rows[y], Sep::WhiteSpace);
    lemma_first_index(f.charset, c);
    lemma_first_index(f.charset, '?');
}

/// The splitting rule of a glyph separator.
pub open spec fn sep_of(s: Separator) -> Sep {
    match s {
        Separator::Space => Sep::WhiteSpace,
        Separator::Pipe => Sep::Char('|'),
    }
}

/// The glyphs of each row of a font: the non-empty pieces between separators.
pub open spec fn bitmap(f: FontView) -> Seq<Seq<Seq<char>>> {
    f.rows.map_values(|r: Seq<char>| words(r, sep_of(f.separator)))
}

/// The views of a vector of rows of glyphs.
pub open spec fn views2(v: Seq<Vec<Vec<char>>>) -> Seq<Seq<Seq<char>>> {
    v.map_values(|x: Vec<Vec<char>>| views(x@))
}

impl Font {
    /// The glyphs of each row.
    pub fn parse_font_bmp(&self) -> (r: Vec<Vec<Vec<char>>>)
        ensures
            views2(r@) == bitmap(self@),
    {
        let sep = match self.separator {
            Separator::Space => Sep::WhiteSpace,
            Separator::Pipe => Sep::Char('|'),
        };
        let mut r: Vec<Vec<Vec<char>>> = Vec::new();
        let mut i: usize = 0;
        while i < self.rows.len()
            invariant
                i <= self.rows@.len(),
                sep == sep_of(self@.separator),
                views2(r@) == bitmap(self@).take(i as int),
            decreases self.rows@.len() - i,
        {
            let row = chars_of(self.rows[i]);
            let glyphs = words_of(&row, sep);
            let ghost prev = views2(r@);
            r.push(glyphs);
            assert(views2(r@) =~= prev.push(views(glyphs@)));
            assert(bitmap(self@).take(i + 1) =~= bitmap(self@).take(i as int).push(
                words(self@.rows[i as int], sep),
            ));
            i = i + 1;
        }
        assert(bitmap(self@).take(self.rows@.len() as int) =~= bitmap(self@));
        r
    }
}

/// A character with its accent removed (é, è, ê, ë to e; à, â, ä to a; û, ü
/// to u; î, ï to i; ÿ, ŷ to y); any other character unchanged.
pub open spec fn fold_accent(c: char) -> char {
    if c == 'é' || c == 'è' || c == 'ê' || c == 'ë' {
        'e'
    } else if c == 'à' || c == 'â' || c == 'ä' {
        'a'
    } else if c == 'û' || c == 'ü' {
        'u'
    } else if c == 'î' || c == 'ï' {
        'i'
    } else if c == 'ÿ' || c == 'ŷ' {
        'y'
    } else {
        c
    }
}

/// Removes an accent.
fn unaccent(c: char) -> (r: char)
    ensures
        r == fold_accent(c),
{
    if c == 'é' || c == 'è' || c == 'ê' || c == 'ë' {
        'e'
    } else if c == 'à' || c == 'â' || c == 'ä' {
        'a'
    } else if c == 'û' || c == 'ü' {
        'u'
    } else if c == 'î' || c == 'ï' {
        'i'
    } else if c == 'ÿ' || c == 'ŷ' {
        'y'
    } else {
        c
    }
}

/// The text as it is drawn: lower-cased, then accents removed.
pub open spec fn sanitized(text: Seq<char>) -> Seq<char> {
    lower_text(text).map_values(|c: char| fold_accent(c))
}

/// The glyph position of a character: its first position in the character
/// set, else the position of `?`, else 0.
pub open spec fn glyph_position(charset: Seq<char>, c: char) -> int {
    match first_index(charset, c) {
        Some(i) => i,
        None => match first_index(charset, '?') {
            Some(q) => q,
            None => 0,
        },
    }
}

/// The glyph positions of the characters of a text.
pub open spec fn glyph_indices(charset: Seq<char>, text: Seq<char>) -> Seq<int> {
    sanitized(text).map_values(|c: char| glyph_position(charset, c))
}

/// The views of a vector of positions.
pub open spec fn positions(v: Seq<usize>) -> Seq<int> {
    v.map_values(|x: usize| x as int)
}

impl Font {
    /// The glyph position of each character of `text`.
    pub fn get_chars_idx(charset: &str, text: &str) -> (r: Vec<usize>)
        ensures
            positions(r@) == glyph_indices(charset@, text@),
    {
        let lower = lowered(text);
        glyph_positions(charset, lower.as_str())
    }
}

/// The glyph positions of already lower-cased text: each character with its
/// accent removed, at its glyph position in the character set.
pub fn glyph_positions(charset: &str, lowered: &str) -> (r: Vec<usize>)
    ensures
        positions(r@) == lowered@.map_values(|c: char| glyph_position(charset@, fold_accent(c))),
{
    let t = chars_of(lowered);
    let cs = chars_of(charset);
    proof {
        lemma_first_index(cs@, '?');
    }
    let default_idx: usize = match find_char(&cs, '?') {
        Some(i) => i,
        None => 0,
    };
    let ghost target = lowered@.map_values(|c: char| glyph_position(charset@, fold_accent(c)));
    let mut r: Vec<usize> = Vec::new();
    let mut k: usize = 0;
    while k < t.len()
        invariant
            k <= t.len(),
            t@ == lowered@,
            cs@ == charset@,
            target == lowered@.map_values(|c: char| glyph_position(charset@, fold_accent(c))),
            default_idx as int == (match first_index(charset@, '?') {
                Some(q) => q,
                None => 0,
            }),
            positions(r@) == target.take(k as int),
        decreases t.len() - k,
    {
        let c = unaccent(t[k]);
        proof {
            lemma_first_index(cs@, c);
        }
        let i = match find_char(&cs, c) {
            Some(i) => i,
            None => default_idx,
        };
        let ghost prev = positions(r@);
        r.push(i);
        assert(positions(r@) =~= prev.push(i as int));
        assert(target.take(k + 1) =~= target.take(k as int).push(
            glyph_position(charset@, fold_accent(t@[k as int])),
        ));
        k = k + 1;
    }
    assert(target.take(t.len() as int) =~= target);
    r
}

/// The number of characters of the glyph at position `i` in a row, 0 when
/// the row has no such glyph.
pub open spec fn glyph_width(row: Seq<Seq<char>>, i: int) -> int {
    if 0 <= i < row.len() {
        row[i].len() as int
    } else {
        0
    }
}

/// The summed widths of the glyphs at the given positions.
pub open spec fn glyphs_width(row: Seq<Seq<char>>, idx: Seq<int>) -> int
    decreases idx.len(),
{
    if idx.len() == 0 {
        0
    } else {
        glyphs_width(row, idx.drop_last()) + glyph_width(row, idx.last())
    }
}

/// The width of laid-out text: one column between glyphs for each glyph,
/// plus the widths of the first row's glyphs.
pub open spec fn text_width(bmp: Seq<Seq<Seq<char>>>, idx: Seq<int>) -> int {
    idx.len() + if bmp.len() == 0 {
        0
    } else {
        glyphs_width(bmp[0], idx)
    }
}

impl Font {
    /// The width of laid-out text.
    pub fn chars_width(chars_bmp: &Vec<Vec<Vec<char>>>, chars_idx: &Vec<usize>) -> (w: u128)
        ensures
            w as int == text_width(views2(chars_bmp@), positions(chars_idx@)),
    {
        let mut width: u128 = chars_idx.len() as u128;
        if chars_bmp.len() == 0 {
            return width;
        }
        let row = &chars_bmp[0];
        let ghost rv = views(row@);
        assert(rv == views2(chars_bmp@)[0]);
        let mut k: usize = 0;
        let ghost base = chars_idx.len() as int;
        while k < chars_idx.len()
            invariant
                k <= chars_idx.len(),
                rv == views(row@),
                width as int == base + glyphs_width(rv, positions(chars_idx@).take(k as int)),
                base == chars_idx.len(),
                glyphs_width(rv, positions(chars_idx@).take(k as int)) <= k * 0x1_0000_0000_0000_0000,
            decreases chars_idx.len() - k,
        {
            let i = chars_idx[k];
            let add: usize = if i < row.len() {
                row[i].len()
            } else {
                0
            };
            proof {
                assert(positions(chars_idx@).take(k + 1).drop_last() =~= positions(chars_idx@).take(
                    k as int,
                ));
                assert(add as int == glyph_width(rv, i as int));
                assert(k * 0x1_0000_0000_0000_0000 + add <= (k + 1) * 0x1_0000_0000_0000_0000)
                    by (nonlinear_arith)
                    requires
                        add <= 0xffff_ffff_ffff_ffff,
                ;
                assert(base + (k + 1) * 0x1_0000_0000_0000_0000 <= 0xffff_ffff_ffff_ffff + 0xffff_ffff_ffff_ffff * 0x1_0000_0000_0000_0000)
                    by (nonlinear_arith)
                    requires
                        k < base,
                        base <= 0xffff_ffff_ffff_ffff,
                ;
            }
            width = width + add as u128;
            k = k + 1;
        }
        assert(positions(chars_idx@).take(chars_idx.len() as int) =~= positions(chars_idx@));
        width
    }
}

/// The glyph at position `i` of a row, a single space when the row has none.
pub open spec fn glyph_chars(row: Seq<Seq<char>>, i: int) -> Seq<char> {
    if 0 <= i < row.len() {
        row[i]
    } else {
        seq![' ']
    }
}

/// A glyph with its blank pixels (`.`) drawn as spaces.
pub open spec fn dotless(g: Seq<char>) -> Seq<char> {
    g.map_values(|c: char| if c == '.' { ' ' } else { c })
}

/// One row of laid-out text, one cell per glyph pixel: each glyph, then a
/// space.
pub open spec fn draw_cells(row: Seq<Seq<char>>, idx: Seq<int>) -> Seq<char>
    decreases idx.len(),
{
    if idx.len() == 0 {
        Seq::empty()
    } else {
        draw_cells(row, idx.drop_last()) + dotless(glyph_chars(row, idx.last())).push(' ')
    }
}

/// Whether a pixel is set: present and not `.`.
pub open spec fn pixel(s: Seq<char>, j: int) -> int {
    if 0 <= j < s.len() && s[j] != '.' {
        1
    } else {
        0
    }
}

/// The quadrant-block character for a two-by-two pixel pattern (bit 0 top
/// left, bit 1 top right, bit 2 bottom left, bit 3 bottom right).
pub open spec fn small_dot(b: int) -> char {
    if b == 0 {
        ' '
    } else if b == 1 {
        '▘'
    } else if b == 2 {
        '▝'
    } else if b == 3 {
        '▀'
    } else if b == 4 {
        '▖'
    } else if b == 5 {
        '▌'
    } else if b == 6 {
        '▞'
    } else if b == 7 {
        '▛'
    } else if b == 8 {
        '▗'
    } else if b == 9 {
        '▚'
    } else if b == 10 {
        '▐'
    } else if b == 11 {
        '▜'
    } else if b == 12 {
        '▃'
    } else if b == 13 {
        '▙'
    } else if b == 14 {
        '▟'
    } else {
        '█'
    }
}

/// The quadrant-block character for a two-by-two pixel pattern.
fn dot_char(b: usize) -> (r: char)
    requires
        b < 16,
    ensures
        r == small_dot(b as int),
{
    if b == 0 {
        ' '
    } else if b == 1 {
        '▘'
    } else if b == 2 {
        '▝'
    } else if b == 3 {
        '▀'
    } else if b == 4 {
        '▖'
    } else if b == 5 {
        '▌'
    } else if b == 6 {
        '▞'
    } else if b == 7 {
        '▛'
    } else if b == 8 {
        '▗'
    } else if b == 9 {
        '▚'
    } else if b == 10 {
        '▐'
    } else if b == 11 {
        '▜'
    } else if b == 12 {
        '▃'
    } else if b == 13 {
        '▙'
    } else if b == 14 {
        '▟'
    } else {
        '█'
    }
}

/// The pattern of the pixels at columns `j` and `j + 1` of two lines.
pub open spec fn pattern(l1: Seq<char>, l2: Seq<char>, j: int) -> int {
    pixel(l1, j) + 2 * pixel(l1, j + 1) + 4 * pixel(l2, j) + 8 * pixel(l2, j + 1)
}

/// The small cells of one glyph drawn over two pixel lines: each line gets a
/// trailing blank pixel (the lower one only when it is not empty), then
/// every two columns give one cell.
pub open spec fn small_glyph_cells(upper: Seq<char>, lower: Seq<char>) -> Seq<char> {
    let l1 = upper.push('.');
    let l2 = if lower.len() > 0 {
        lower.push('.')
    } else {
        Seq::<char>::empty()
    };
    Seq::new(((l1.len() + 1) / 2) as nat, |k: int| small_dot(pattern(l1, l2, 2 * k)))
}

/// The lower glyph at a position: from the lower row when there is one, else
/// nothing.
pub open spec fn lower_glyph(lower: Option<Seq<Seq<char>>>, i: int) -> Seq<char> {
    match lower {
        Some(r) => glyph_chars(r, i),
        None => Seq::empty(),
    }
}

/// One small line: the small cells of each glyph over a row and the next.
pub open spec fn small_cells(upper: Seq<Seq<char>>, lower: Option<Seq<Seq<char>>>, idx: Seq<int>) -> Seq<char>
    decreases idx.len(),
{
    if idx.len() == 0 {
        Seq::empty()
    } else {
        small_cells(upper, lower, idx.drop_last()) + small_glyph_cells(
            glyph_chars(upper, idx.last()),
            lower_glyph(lower, idx.last()),
        )
    }
}

/// The value of a pixel.
fn pixel_at(s: &Vec<char>, j: usize) -> (r: usize)
    ensures
        r as int == pixel(s@, j as int),
{
    if j < s.len() && s[j] != '.' {
        1
    } else {
        0
    }
}

/// Appends the small cells of one glyph.
fn push_small_glyph(cells: &mut Vec<char>, upper: &Vec<char>, lower: &Vec<char>)
    ensures
        final(cells)@ == old(cells)@ + small_glyph_cells(upper@, lower@),
{
    let mut l1 = crate::text::copy_chars(upper);
    l1.push('.');
    let l2 = if lower.len() > 0 {
        let mut l = crate::text::copy_chars(lower);
        l.push('.');
        l
    } else {
        Vec::new()
    };
    let ghost start = cells@;
    let ghost target = small_glyph_cells(upper@, lower@);
    assert(l1@ == upper@.push('.'));
    let mut k: usize = 0;
    while k < l1.len() - k
        invariant
            l1@ == upper@.push('.'),
            l2@ == (if lower@.len() > 0 { lower@.push('.') } else { Seq::<char>::empty() }),
            2 * k <= l1.len() + 1,
            target == small_glyph_cells(upper@, lower@),
            cells@ == start + target.take(k as int),
        decreases l1.len() - k,
    {
        let j = 2 * k;
        let b = pixel_at(&l1, j) + 2 * pixel_at(&l1, j + 1) + 4 * pixel_at(&l2, j) + 8 * pixel_at(
            &l2,
            j + 1,
        );
        let d = dot_char(b);
        assert(d == target[k as int]);
        cells.push(d);
        assert(start + target.take(k + 1) =~= (start + target.take(k as int)).push(d));
        k = k + 1;
    }
    assert(target.take(k as int) =~= target);
}

/// Appends a glyph's cells for full-size drawing.
fn push_glyph(cells: &mut Vec<char>, g: &Vec<char>)
    ensures
        final(cells)@ == old(cells)@ + dotless(g@).push(' '),
{
    let ghost start = cells@;
    let mut i: usize = 0;
    while i < g.len()
        invariant
            i <= g.len(),
            cells@ == start + dotless(g@).take(i as int),
        decreases g.len() - i,
    {
        let c = g[i];
        cells.push(if c == '.' { ' ' } else { c });
        assert(dotless(g@).take(i + 1) =~= dotless(g@).take(i as int).push(dotless(g@)[i as int]));
        assert(cells@ =~= start + dotless(g@).take(i + 1));
        i = i + 1;
    }
    cells.push(' ');
    assert(dotless(g@).take(g.len() as int) =~= dotless(g@));
    assert(cells@ =~= start + dotless(g@).push(' '));
}

/// A single space, the glyph of a missing character.
fn blank_glyph() -> (r: Vec<char>)
    ensures
        r@ == seq![' '],
{
    let mut r: Vec<char> = Vec::new();
    r.push(' ');
    assert(r@ =~= seq![' ']);
    r
}

/// The cells of one full-size row.
fn row_cells(row: &Vec<Vec<char>>, idx: &Vec<usize>) -> (r: Vec<char>)
    ensures
        r@ == draw_cells(views(row@), positions(idx@)),
{
    let blank = blank_glyph();
    let mut cells: Vec<char> = Vec::new();
    let mut k: usize = 0;
    while k < idx.len()
        invariant
            k <= idx.len(),
            blank@ == seq![' '],
            cells@ == draw_cells(views(row@), positions(idx@).take(k as int)),
        decreases idx.len() - k,
    {
        let i = idx[k];
        let g = if i < row.len() {
            &row[i]
        } else {
            &blank
        };
        assert(g@ == glyph_chars(views(row@), i as int));
        push_glyph(&mut cells, g);
        assert(positions(idx@).take(k + 1).drop_last() =~= positions(idx@).take(k as int));
        k = k + 1;
    }
    assert(positions(idx@).take(idx.len() as int) =~= positions(idx@));
    cells
}

/// The cells of one small line, drawn over `upper` and, when there is one,
/// the next row.
fn small_row_cells(upper: &Vec<Vec<char>>, lower: Option<&Vec<Vec<char>>>, idx: &Vec<usize>) -> (r: Vec<char>)
    ensures
        r@ == small_cells(
            views(upper@),
            match lower {
                Some(l) => Some(views(l@)),
                None => None,
            },
            positions(idx@),
        ),
{
    let ghost lv = match lower {
        Some(l) => Some(views(l@)),
        None => None,
    };
    let blank = blank_glyph();
    let empty: Vec<char> = Vec::new();
    let mut cells: Vec<char> = Vec::new();
    let mut k: usize = 0;
    while k < idx.len()
        invariant
            k <= idx.len(),
            blank@ == seq![' '],
            empty@ == Seq::<char>::empty(),
            lv == (match lower {
                Some(l) => Some(views(l@)),
                None => None,
            }),
            cells@ == small_cells(views(upper@), lv, positions(idx@).take(k as int)),
        decreases idx.len() - k,
    {
        let i = idx[k];
        let u = if i < upper.len() {
            &upper[i]
        } else {
            &blank
        };
        let l = match lower {
            Some(rows) => if i < rows.len() {
                &rows[i]
            } else {
                &blank
            },
            None => &empty,
        };
        assert(u@ == glyph_chars(views(upper@), i as int));
        assert(l@ == lower_glyph(lv, i as int));
        push_small_glyph(&mut cells, u, l);
        assert(positions(idx@).take(k + 1).drop_last() =~= positions(idx@).take(k as int));
        k = k + 1;
    }
    assert(positions(idx@).take(idx.len() as int) =~= positions(idx@));
    cells
}

/// One line of laid-out text: its cells, and the information text shown
/// after it, if any.
#[derive(Debug)]
pub struct BannerLine {
    pub cells: Vec<char>,
    pub comment: Option<String>,
}

/// The plain values of a line.
pub struct LineView {
    pub cells: Seq<char>,
    pub comment: Option<Seq<char>>,
}

impl View for BannerLine {
    type V = LineView;

    open spec fn view(&self) -> LineView {
        LineView {
            cells: self.cells@,
            comment: match self.comment {
                Some(c) => Some(c@),
                None => None,
            },
        }
    }
}

/// Laid-out text: the width over which a colour gradient spreads, and the
/// lines.
#[derive(Debug)]
pub struct Banner {
    pub gradient_width: u128,
    pub lines: Vec<BannerLine>,
}

/// The plain values of laid-out text.
pub struct BannerView {
    pub gradient_width: int,
    pub lines: Seq<LineView>,
}

impl View for Banner {
    type V = BannerView;

    open spec fn view(&self) -> BannerView {
        BannerView {
            gradient_width: self.gradient_width as int,
            lines: self.lines@.map_values(|l: BannerLine| l@),
        }
    }
}

/// Cells drawn in colour: before each cell, the escape sequences of its
/// colour and the background.
pub open spec fn colored_cells(
    cells: Seq<char>,
    colors: Seq<Seq<i32>>,
    bg: Option<Seq<i32>>,
    colormode: u16,
) -> Seq<char>
    decreases cells.len(),
{
    if cells.len() == 0 {
        Seq::empty()
    } else {
        colored_cells(cells.drop_last(), colors, bg, colormode) + color_sequence_text(
            colors[cells.len() - 1],
            bg,
            colormode,
        ).push(cells.last())
    }
}

/// A line as printed: its cells in colour, then a colour reset and the
/// information text when there is one, then a colour reset.
pub open spec fn line_text(line: LineView, colors: Seq<Seq<i32>>, bg: Option<Seq<i32>>, colormode: u16) -> Seq<char> {
    colored_cells(line.cells, colors, bg, colormode) + match line.comment {
        Some(c) => COLOR_RESET@ + c,
        None => Seq::empty(),
    } + COLOR_RESET@
}

/// The views of a sequence of colours.
pub open spec fn color_views(v: Seq<ColorVec>) -> Seq<Seq<i32>> {
    v.map_values(|c: ColorVec| c@)
}

/// The text of a line, given the colour of each of its cells.
pub fn banner_line_text(line: &BannerLine, cell_colors: &Vec<ColorVec>, bg: &Option<ColorVec>, colormode: u16) -> (r: String)
    requires
        cell_colors.len() == line.cells.len(),
        forall|i: int|
            0 <= i < cell_colors.len() ==> colors_computable(
                #[trigger] cell_colors@[i]@,
                opt_view(*bg),
                colormode,
            ),
    ensures
        r@ == line_text(line@, color_views(cell_colors@), opt_view(*bg), colormode),
{
    let ghost cv = color_views(cell_colors@);
    let mut out = String::new();
    let mut k: usize = 0;
    while k < line.cells.len()
        invariant
            k <= line.cells.len(),
            cell_colors.len() == line.cells.len(),
            cv == color_views(cell_colors@),
            forall|i: int|
                0 <= i < cell_colors.len() ==> colors_computable(
                    #[trigger] cell_colors@[i]@,
                    opt_view(*bg),
                    colormode,
                ),
            out@ == colored_cells(line.cells@.take(k as int), cv, opt_view(*bg), colormode),
        decreases line.cells.len() - k,
    {
        let seq = color_sequence(&cell_colors[k], bg, colormode);
        let ghost prev = out@;
        out.append(seq.as_str());
        crate::text::push_char(&mut out, line.cells[k]);
        proof {
            let t = line.cells@.take(k + 1);
            assert(t.drop_last() =~= line.cells@.take(k as int));
            assert(t.last() == line.cells@[k as int]);
            assert(cv[k as int] == cell_colors@[k as int]@);
            assert(out@ =~= prev + color_sequence_text(cv[k as int], opt_view(*bg), colormode).push(
                line.cells@[k as int],
            ));
        }
        k = k + 1;
    }
    assert(line.cells@.take(line.cells.len() as int) =~= line.cells@);
    if let Some(c) = &line.comment {
        out.append(COLOR_RESET);
        out.append(c.as_str());
    }
    out.append(COLOR_RESET);
    assert(out@ =~= line_text(line@, cv, opt_view(*bg), colormode));
    out
}

/// The views of a sequence of strings.
pub open spec fn string_views(v: Seq<String>) -> Seq<Seq<char>> {
    v.map_values(|s: String| s@)
}

/// The information text shown after line `y`, if any.
pub open spec fn comment_at(info: Seq<Seq<char>>, y: int) -> Option<Seq<char>> {
    if 0 <= y < info.len() {
        Some(info[y])
    } else {
        None
    }
}

/// Full-size lines: one per font row, the `y`-th with the `y`-th information
/// text.
pub open spec fn draw_lines(bmp: Seq<Seq<Seq<char>>>, idx: Seq<int>, info: Seq<Seq<char>>) -> Seq<LineView> {
    Seq::new(bmp.len(), |y: int| LineView { cells: draw_cells(bmp[y], idx), comment: comment_at(info, y) })
}

/// Small lines: one per two font rows (the last alone when the count is odd),
/// the `k`-th with the `k`-th information text.
pub open spec fn small_lines(bmp: Seq<Seq<Seq<char>>>, idx: Seq<int>, info: Seq<Seq<char>>) -> Seq<LineView> {
    Seq::new(
        ((bmp.len() + 1) / 2) as nat,
        |k: int|
            LineView {
                cells: small_cells(
                    bmp[2 * k],
                    if 2 * k + 1 < bmp.len() {
                        Some(bmp[2 * k + 1])
                    } else {
                        None
                    },
                    idx,
                ),
                comment: comment_at(info, k),
            },
    )
}

/// Full-size cells follow the order of the glyphs: the cells of two runs of
/// glyphs are those of the first, then those of the second; one glyph gives
/// its pixels (blank ones as spaces), then a space.
pub proof fn lemma_draw_cells_order(row: Seq<Seq<char>>, i1: Seq<int>, i2: Seq<int>)
    ensures
        draw_cells(row, i1 + i2) == draw_cells(row, i1) + draw_cells(row, i2),
        forall|k: int| #[trigger] draw_cells(row, seq![k]) == dotless(glyph_chars(row, k)).push(' '),
    decreases i2.len(),
{
    assert forall|k: int| #[trigger] draw_cells(row, seq![k]) == dotless(glyph_chars(row, k)).push(' ') by {
        assert(seq![k].drop_last() =~= Seq::<int>::empty());
        assert(draw_cells(row, Seq::<int>::empty()) == Seq::<char>::empty());
        assert(Seq::<char>::empty() + dotless(glyph_chars(row, k)).push(' ') =~= dotless(
            glyph_chars(row, k),
        ).push(' '));
    }
    if i2.len() == 0 {
        assert(i1 + i2 =~= i1);
        assert(draw_cells(row, i1) + draw_cells(row, i2) =~= draw_cells(row, i1));
    } else {
        lemma_draw_cells_order(row, i1, i2.drop_last());
        assert((i1 + i2).drop_last() =~= i1 + i2.drop_last());
        assert((i1 + i2).last() == i2.last());
        let g = dotless(glyph_chars(row, i2.last())).push(' ');
        assert(draw_cells(row, i1) + draw_cells(row, i2.drop_last()) + g =~= draw_cells(row, i1) + (
        draw_cells(row, i2.drop_last()) + g));
    }
}

/// Small cells follow the order of the glyphs in the same way: the cells of
/// two runs of glyphs are those of the first, then those of the second.
pub proof fn lemma_small_cells_order(
    upper: Seq<Seq<char>>,
    lower: Option<Seq<Seq<char>>>,
    i1: Seq<int>,
    i2: Seq<int>,
)
    ensures
        small_cells(upper, lower, i1 + i2) == small_cells(upper, lower, i1) + small_cells(upper, lower, i2),
        forall|k: int|
            #[trigger] small_cells(upper, lower, seq![k]) == small_glyph_cells(
                glyph_chars(upper, k),
                lower_glyph(lower, k),
            ),
    decreases i2.len(),
{
    assert forall|k: int|
        #[trigger] small_cells(upper, lower, seq![k]) == small_glyph_cells(
            glyph_chars(upper, k),
            lower_glyph(lower, k),
        ) by {
        assert(seq![k].drop_last() =~= Seq::<int>::empty());
        assert(small_cells(upper, lower, Seq::<int>::empty()) == Seq::<char>::empty());
        let g = small_glyph_cells(glyph_chars(upper, k), lower_glyph(lower, k));
        assert(Seq::<char>::empty() + g =~= g);
    }
    if i2.len() == 0 {
        assert(i1 + i2 =~= i1);
        assert(small_cells(upper, lower, i1) + small_cells(upper, lower, i2) =~= small_cells(
            upper,
            lower,
            i1,
        ));
    } else {
        lemma_small_cells_order(upper, lower, i1, i2.drop_last());
        assert((i1 + i2).drop_last() =~= i1 + i2.drop_last());
        assert((i1 + i2).last() == i2.last());
        let g = small_glyph_cells(glyph_chars(upper, i2.last()), lower_glyph(lower, i2.last()));
        let a = small_cells(upper, lower, i1);
        let b = small_cells(upper, lower, i2.drop_last());
        assert(a + b + g =~= a + (b + g));
    }
}

/// For ASCII text, the glyphs follow the text: the glyph positions of two
/// texts put together are those of the first, then those of the second, and
/// one character is at the position of its lower-case, unaccented form.
pub proof fn lemma_glyph_order(charset: Seq<char>, a: Seq<char>, b: Seq<char>)
    requires
        is_ascii_chars(a),
        is_ascii_chars(b),
    ensures
        glyph_indices(charset, a + b) == glyph_indices(charset, a) + glyph_indices(charset, b),
        a.len() == 1 ==> glyph_indices(charset, a) == seq![
            glyph_position(charset, fold_accent(ascii_lower(a[0]))),
        ],
{
    assert(is_ascii_chars(a + b)) by {
        assert forall|i: int| 0 <= i < (a + b).len() implies '\0' <= #[trigger] (a + b)[i] <= '\u{7f}' by {
            if i < a.len() {
                assert((a + b)[i] == a[i]);
            } else {
                assert((a + b)[i] == b[i - a.len()]);
            }
        }
    }
    assert(glyph_indices(charset, a + b) =~= glyph_indices(charset, a) + glyph_indices(charset, b));
    if a.len() == 1 {
        assert(glyph_indices(charset, a) =~= seq![glyph_position(charset, fold_accent(ascii_lower(a[0])))]);
    }
}

/// Laid-out ASCII text reads in text order: every line of `a + b` is the
/// line of `a` followed by the line of `b`, full size and small alike.
pub proof fn lemma_layout_order(f: FontView, a: Seq<char>, b: Seq<char>, info: Seq<Seq<char>>, smallmode: bool, y: int)
    requires
        is_ascii_chars(a),
        is_ascii_chars(b),
        0 <= y < layout(f, a + b, info, smallmode).lines.len(),
    ensures
        layout(f, a + b, info, smallmode).lines[y].cells == layout(f, a, info, smallmode).lines[y].cells
            + layout(f, b, info, smallmode).lines[y].cells,
{
    let bmp = bitmap(f);
    lemma_glyph_order(f.charset, a, b);
    let ia = glyph_indices(f.charset, a);
    let ib = glyph_indices(f.charset, b);
    if smallmode {
        lemma_small_cells_order(
            bmp[2 * y],
            if 2 * y + 1 < bmp.len() {
                Some(bmp[2 * y + 1])
            } else {
                None
            },
            ia,
            ib,
        );
    } else {
        lemma_draw_cells_order(bmp[y], ia, ib);
    }
}

/// The error for text wider than allowed.
pub open spec fn too_large_text(text: Seq<char>) -> Seq<char> {
    "text \""@ + text + "\" too large"@
}

/// How a font lays out a text: full size, or small with the gradient spread
/// over half the width.
pub open spec fn layout(f: FontView, text: Seq<char>, info: Seq<Seq<char>>, smallmode: bool) -> BannerView {
    let bmp = bitmap(f);
    let idx = glyph_indices(f.charset, text);
    let w = text_width(bmp, idx);
    if smallmode {
        BannerView { gradient_width: w / 2, lines: small_lines(bmp, idx, info) }
    } else {
        BannerView { gradient_width: w, lines: draw_lines(bmp, idx, info) }
    }
}

/// The text is wider than the column limit.
pub open spec fn too_large(f: FontView, text: Seq<char>, maxcols: Option<usize>) -> bool {
    maxcols matches Some(limit) && text_width(bitmap(f), glyph_indices(f.charset, text)) > limit
}

/// Laid-out text has one line per font row, or in small mode one per two
/// rows (an odd last row alone); line `k` carries the `k`-th information
/// text, and the gradient spreads over the full width or half of it.
pub proof fn lemma_banner_lines(f: FontView, text: Seq<char>, info: Seq<Seq<char>>, smallmode: bool)
    ensures
        layout(f, text, info, smallmode).lines.len() == if smallmode {
            (f.rows.len() + 1) as int / 2
        } else {
            f.rows.len() as int
        },
        forall|k: int|
            0 <= k < layout(f, text, info, smallmode).lines.len() ==> (#[trigger] layout(
                f,
                text,
                info,
                smallmode,
            ).lines[k]).comment == comment_at(info, k),
        layout(f, text, info, smallmode).gradient_width == if smallmode {
            text_width(bitmap(f), glyph_indices(f.charset, text)) / 2
        } else {
            text_width(bitmap(f), glyph_indices(f.charset, text))
        },
{
}

/// The information text of line `y`, if any.
fn comment_for(info_lines: &[String], y: usize) -> (r: Option<String>)
    ensures
        (match r {
            Some(c) => Some(c@),
            None => None,
        }) == comment_at(string_views(info_lines@), y as int),
{
    if y < info_lines.len() {
        Some(info_lines[y].clone())
    } else {
        None
    }
}

impl Font {
    /// Lays out `text` in this font, each line carrying its information
    /// text; an error when the width exceeds `maxcols`. Escape sequences and
    /// the colour gradient are applied by whoever shows the lines.
    pub fn print(&self, text: &String, info_lines: &[String], smallmode: bool, maxcols: Option<usize>) -> (r:
        Result<Banner, String>)
        ensures
            match r {
                Ok(b) => !too_large(self@, text@, maxcols) && b@ == layout(
                    self@,
                    text@,
                    string_views(info_lines@),
                    smallmode,
                ),
                Err(e) => too_large(self@, text@, maxcols) && e@ == too_large_text(text@),
            },
    {
        let chars_bmp = self.parse_font_bmp();
        let chars_idx = Self::get_chars_idx(self.charset, text.as_str());
        let width = Self::chars_width(&chars_bmp, &chars_idx);
        let ghost bmp = bitmap(self@);
        let ghost idx = glyph_indices(self@.charset, text@);
        let ghost info = string_views(info_lines@);
        if let Some(limit) = maxcols {
            if width > limit as u128 {
                let mut e = String::new();
                e.append("text \"");
                e.append(text.as_str());
                e.append("\" too large");
                assert(e@ =~= too_large_text(text@));
                return Err(e);
            }
        }
        let height = chars_bmp.len();
        let mut lines: Vec<BannerLine> = Vec::new();
        if smallmode {
            let mut k: usize = 0;
            while k < height - k
                invariant
                    height == chars_bmp.len(),
                    views2(chars_bmp@) == bmp,
                    positions(chars_idx@) == idx,
                    info == string_views(info_lines@),
                    2 * k <= height + 1,
                    lines@.map_values(|l: BannerLine| l@) == small_lines(bmp, idx, info).take(k as int),
                decreases height - k,
            {
                let y = 2 * k;
                let lower = if y + 1 < height {
                    Some(&chars_bmp[y + 1])
                } else {
                    None
                };
                let cells = small_row_cells(&chars_bmp[y], lower, &chars_idx);
                let comment = comment_for(info_lines, k);
                let line = BannerLine { cells, comment };
                assert(line@ == small_lines(bmp, idx, info)[k as int]);
                let ghost prev = lines@.map_values(|l: BannerLine| l@);
                lines.push(line);
                assert(lines@.map_values(|l: BannerLine| l@) =~= prev.push(line@));
                assert(small_lines(bmp, idx, info).take(k + 1) =~= small_lines(bmp, idx, info).take(
                    k as int,
                ).push(line@));
                k = k + 1;
            }
            assert(small_lines(bmp, idx, info).take(k as int) =~= small_lines(bmp, idx, info));
            let b = Banner { gradient_width: width / 2, lines };
            assert(b@ =~= layout(self@, text@, info, smallmode));
            Ok(b)
        } else {
            let mut y: usize = 0;
            while y < height
                invariant
                    height == chars_bmp.len(),
                    views2(chars_bmp@) == bmp,
                    positions(chars_idx@) == idx,
                    info == string_views(info_lines@),
                    y <= height,
                    lines@.map_values(|l: BannerLine| l@) == draw_lines(bmp, idx, info).take(y as int),
                decreases height - y,
            {
                let cells = row_cells(&chars_bmp[y], &chars_idx);
                let comment = comment_for(info_lines, y);
                let line = BannerLine { cells, comment };
                assert(line@ == draw_lines(bmp, idx, info)[y as int]);
                let ghost prev = lines@.map_values(|l: BannerLine| l@);
                lines.push(line);
                assert(lines@.map_values(|l: BannerLine| l@) =~= prev.push(line@));
                assert(draw_lines(bmp, idx, info).take(y + 1) =~= draw_lines(bmp, idx, info).take(
                    y as int,
                ).push(line@));
                y = y + 1;
            }
            assert(draw_lines(bmp, idx, info).take(y as int) =~= draw_lines(bmp, idx, info));
            let b = Banner { gradient_width: width, lines };
            assert(b@ =~= layout(self@, text@, info, smallmode));
            Ok(b)
        }
    }
}

/// Two texts are equal once ASCII letters are lowered
/// (`str::eq_ignore_ascii_case`).
pub open spec fn eq_ignore_ascii_case(a: Seq<char>, b: Seq<char>) -> bool {
    a.len() == b.len() && forall|i: int| 0 <= i < a.len() ==> ascii_lower(#[trigger] a[i]) == ascii_lower(b[i])
}

/// Lowers an ASCII letter.
fn lower_ascii(c: char) -> (r: char)
    ensures
        r == ascii_lower(c),
{
    if 'A' <= c && c <= 'Z' {
        ((c as u8) + 32) as char
    } else {
        c
    }
}

/// Compares two texts, ignoring ASCII letter case.
fn same_ignoring_ascii_case(a: &str, b: &str) -> (r: bool)
    ensures
        r == eq_ignore_ascii_case(a@, b@),
{
    let va = chars_of(a);
    let vb = chars_of(b);
    if va.len() != vb.len() {
        return false;
    }
    let mut i: usize = 0;
    while i < va.len()
        invariant
            va@ == a@,
            vb@ == b@,
            va.len() == vb.len(),
            i <= va.len(),
            forall|j: int| 0 <= j < i ==> ascii_lower(#[trigger] va@[j]) == ascii_lower(vb@[j]),
        decreases va.len() - i,
    {
        if lower_ascii(va[i]) != lower_ascii(vb[i]) {
            return false;
        }
        i = i + 1;
    }
    true
}

/// The names of the fonts, in the order in which they are searched.
pub open spec fn font_name_list() -> Seq<Seq<char>> {
    seq!["default"@, "hashtag"@]
}

/// The font a name selects, letter case ignored for ASCII letters; no name
/// selects `default`.
pub open spec fn font_for(name: Option<Seq<char>>) -> Option<FontView> {
    let n = match name {
        Some(n) => n,
        None => "default"@,
    };
    if eq_ignore_ascii_case("default"@, n) {
        Some(default_font_view())
    } else if eq_ignore_ascii_case("hashtag"@, n) {
        Some(hashtag_font_view())
    } else {
        None
    }
}

/// Font names are matched ignoring the case of ASCII letters: two names
/// that differ only so select the same font.
pub proof fn lemma_font_name_case(a: Seq<char>, b: Seq<char>)
    requires
        eq_ignore_ascii_case(a, b),
    ensures
        font_for(Some(a)) == font_for(Some(b)),
{
    assert(eq_ignore_ascii_case("default"@, a) == eq_ignore_ascii_case("default"@, b));
    assert(eq_ignore_ascii_case("hashtag"@, a) == eq_ignore_ascii_case("hashtag"@, b));
}

/// The font a name selects.
pub fn get_font(font_name: Option<String>) -> (r: Option<&'static Font>)
    ensures
        (match r {
            Some(f) => Some(f@),
            None => None,
        }) == font_for(match font_name {
            Some(n) => Some(n@),
            None => None,
        }),
{
    let name: &str = match &font_name {
        Some(n) => n.as_str(),
        None => "default",
    };
    if same_ignoring_ascii_case("default", name) {
        Some(default_font())
    } else if same_ignoring_ascii_case("hashtag", name) {
        Some(hashtag_font())
    } else {
        None
    }
}

/// The names of the fonts, separated by commas.
pub fn font_names() -> (r: String)
    ensures
        r@ == join(font_name_list(), ","@),
{
    let mut r = String::new();
    r.append("default");
    r.append(",");
    r.append("hashtag");
    proof {
        let l = font_name_list();
        assert(l.drop_last() =~= seq!["default"@]);
        assert(join(l.drop_last(), ","@) == "default"@);
        assert(join(l, ","@) == "default"@ + ","@ + "hashtag"@);
    }
    assert(r@ =~= join(font_name_list(), ","@));
    r
}

} // verus!
