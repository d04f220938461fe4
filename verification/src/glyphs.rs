//! The border glyphs of a bubble, chosen once from its style and mood.

use vstd::prelude::*;

verus! {

/// Whether the figure speaks or thinks.
#[derive(Clone, Copy, Debug, PartialEq, Eq, Structural)]
pub enum Mood {
    Speak,
    Think,
}

/// Plain ASCII borders, or box-drawing characters.
#[derive(Clone, Copy, Debug, PartialEq, Eq, Structural)]
pub enum Style {
    Classic,
    Modern,
}

/// The glyphs that frame a bubble.
#[derive(Clone, Copy, Debug, PartialEq, Eq, Structural)]
pub struct GlyphSet {
    /// Left and right end of a line in a bubble of one or two lines.
    pub sleft: char,
    pub sright: char,
    /// Ends of the first line of a taller bubble.
    pub topleft: char,
    pub topright: char,
    /// Ends of the lines in between.
    pub midleft: char,
    pub midright: char,
    /// Ends of the last line of a taller bubble.
    pub botleft: char,
    pub botright: char,
    /// What the rule above the body is drawn with.
    pub top_rule: char,
    /// What the rule below the body is drawn with.
    pub bottom_rule: char,
}

/// The glyphs for each pairing of style and mood.
pub open spec fn glyph_set(style: Style, mood: Mood) -> GlyphSet {
    match (style, mood) {
        (Style::Classic, Mood::Speak) => GlyphSet {
            sleft: '<',
            sright: '>',
            topleft: '/',
            topright: '\\',
            midleft: '|',
            midright: '|',
            botleft: '\\',
            botright: '/',
            top_rule: '-',
            bottom_rule: '-',
        },
        (Style::Classic, Mood::Think) => GlyphSet {
            sleft: '(',
            sright: ')',
            topleft: '(',
            topright: ')',
            midleft: '(',
            midright: ')',
            botleft: '(',
            botright: ')',
            top_rule: '-',
            bottom_rule: '-',
        },
        (Style::Modern, Mood::Speak) => GlyphSet {
            sleft: '\u{2502}',
            sright: '\u{2502}',
            topleft: '\u{250C}',
            topright: '\u{2510}',
            midleft: '\u{2502}',
            midright: '\u{2502}',
            botleft: '\u{2514}',
            botright: '\u{2518}',
            top_rule: '\u{2500}',
            bottom_rule: '\u{2500}',
        },
        (Style::Modern, Mood::Think) => GlyphSet {
            sleft: '\u{250A}',
            sright: '\u{250A}',
            topleft: '\u{256D}',
            topright: '\u{256E}',
            midleft: '\u{250A}',
            midright: '\u{250A}',
            botleft: '\u{2570}',
            botright: '\u{256F}',
            top_rule: '\u{2504}',
            bottom_rule: '\u{2504}',
        },
    }
}

impl GlyphSet {
    /// Looks up the glyphs for a style and a mood.
    pub fn resolve(style: Style, mood: Mood) -> (g: GlyphSet)
        ensures
            g == glyph_set(style, mood),
    {
        match (style, mood) {
            (Style::Classic, Mood::Speak) => GlyphSet {
                sleft: '<',
                sright: '>',
                topleft: '/',
                topright: '\\',
                midleft: '|',
                midright: '|',
                botleft: '\\',
                botright: '/',
                top_rule: '-',
                bottom_rule: '-',
            },
            (Style::Classic, Mood::Think) => GlyphSet {
                sleft: '(',
                sright: ')',
                topleft: '(',
                topright: ')',
                midleft: '(',
                midright: ')',
                botleft: '(',
                botright: ')',
                top_rule: '-',
                bottom_rule: '-',
            },
            (Style::Modern, Mood::Speak) => GlyphSet {
                sleft: '\u{2502}',
                sright: '\u{2502}',
                topleft: '\u{250C}',
                topright: '\u{2510}',
                midleft: '\u{2502}',
                midright: '\u{2502}',
                botleft: '\u{2514}',
                botright: '\u{2518}',
                top_rule: '\u{2500}',
                bottom_rule: '\u{2500}',
            },
            (Style::Modern, Mood::Think) => GlyphSet {
                sleft: '\u{250A}',
                sright: '\u{250A}',
                topleft: '\u{256D}',
                topright: '\u{256E}',
                midleft: '\u{250A}',
                midright: '\u{250A}',
                botleft: '\u{2570}',
                botright: '\u{256F}',
                top_rule: '\u{2504}',
                bottom_rule: '\u{2504}',
            },
        }
    }

    /// The glyph that opens body line `i` of `count`.
    pub open spec fn left_spec(self, style: Style, count: nat, i: int) -> char {
        if count <= 2 {
            self.sleft
        } else if style == Style::Modern {
            self.midleft
        } else if i == 0 {
            self.topleft
        } else if i < count - 1 {
            self.midleft
        } else {
            self.botleft
        }
    }

    /// The glyph that closes body line `i` of `count`.
    pub open spec fn right_spec(self, style: Style, count: nat, i: int) -> char {
        if count <= 2 {
            self.sright
        } else if style == Style::Modern {
            self.midright
        } else if i == 0 {
            self.topright
        } else if i < count - 1 {
            self.midright
        } else {
            self.botright
        }
    }

    /// The glyph that opens body line `i` of `count`.
    pub fn left(&self, style: Style, count: usize, i: usize) -> (c: char)
        requires
            i < count,
        ensures
            c == self.left_spec(style, count as nat, i as int),
    {
        if count <= 2 {
            self.sleft
        } else if style == Style::Modern {
            self.midleft
        } else if i == 0 {
            self.topleft
        } else if i < count - 1 {
            self.midleft
        } else {
            self.botleft
        }
    }

    /// The glyph that closes body line `i` of `count`.
    pub fn right(&self, style: Style, count: usize, i: usize) -> (c: char)
        requires
            i < count,
        ensures
            c == self.right_spec(style, count as nat, i as int),
    {
        if count <= 2 {
            self.sright
        } else if style == Style::Modern {
            self.midright
        } else if i == 0 {
            self.topright
        } else if i < count - 1 {
            self.midright
        } else {
            self.botright
        }
    }
}

} // verus!
