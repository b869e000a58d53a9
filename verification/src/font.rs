//! Font metrics at one fixed pixel scale, held as plain tables.
use vstd::prelude::*;
use crate::geometry::{Point, ScreenRect};

verus! {

/// Names one glyph of a font at its scale. Two characters that share a
/// glyph share its id.
#[derive(Debug, Copy, Clone, PartialEq, Eq, Structural)]
pub struct GlyphId(pub u16);

/// The visible extent of a glyph, relative to the pen position.
#[derive(Debug, Copy, Clone, PartialEq, Eq, Structural)]
pub struct GlyphBounds {
    /// Offset of the left edge from the pen
    pub left: i32,
    /// Offset of the top edge from the pen
    pub top: i32,
    /// Width of the coverage bitmap
    pub width: u32,
    /// Height of the coverage bitmap
    pub height: u32,
}

/// The metrics of the glyph that draws one character.
#[derive(Debug, Copy, Clone, PartialEq, Eq, Structural)]
pub struct Glyph {
    /// The character
    pub ch: char,
    /// The glyph that draws it
    pub id: GlyphId,
    /// How far the caret moves right after the glyph
    pub advance_width: i32,
    /// The visible extent, or `None` for a glyph that draws nothing
    pub bounds: Option<GlyphBounds>,
}

/// An adjustment of the caret between two glyphs that stand side by side.
#[derive(Debug, Copy, Clone, PartialEq, Eq, Structural)]
pub struct Kerning {
    /// The glyph on the left
    pub left: GlyphId,
    /// The glyph on the right
    pub right: GlyphId,
    /// What is added to the caret between them
    pub amount: i32,
}

/// Why a font table was refused.
#[derive(Debug, Copy, Clone, PartialEq, Eq, Structural)]
pub enum FontLoadError {
    /// The table has no glyph at all.
    NoGlyphs,
    /// The line advance is negative: text would flow upwards.
    NegativeLineAdvance,
}

/// The first record for `c` in `table`, if there is one.
pub open spec fn find_glyph(table: Seq<Glyph>, c: char) -> Option<Glyph>
    decreases table.len(),
{
    if table.len() == 0 {
        None
    } else if table[0].ch == c {
        Some(table[0])
    } else {
        find_glyph(table.drop_first(), c)
    }
}

/// The amount of the first record for the pair in `table`, or 0.
pub open spec fn find_kerning(table: Seq<Kerning>, prev: GlyphId, next: GlyphId) -> int
    decreases table.len(),
{
    if table.len() == 0 {
        0
    } else if table[0].left == prev && table[0].right == next {
        table[0].amount as int
    } else {
        find_kerning(table.drop_first(), prev, next)
    }
}

/// A kerning found in a table is one of its amounts, or 0.
pub proof fn lemma_find_kerning_range(table: Seq<Kerning>, prev: GlyphId, next: GlyphId)
    ensures
        i32::MIN <= find_kerning(table, prev, next) <= i32::MAX,
    decreases table.len(),
{
    if table.len() > 0 {
        lemma_find_kerning_range(table.drop_first(), prev, next);
    }
}

/// The box of a glyph whose pen stands at `pen`.
pub open spec fn bounds_at(glyph: Glyph, pen: Point) -> Option<ScreenRect> {
    match glyph.bounds {
        Some(b) => Some(
            ScreenRect {
                x: (pen.x + b.left) as i64,
                y: (pen.y + b.top) as i64,
                width: b.width,
                height: b.height,
            },
        ),
        None => None,
    }
}

/// The largest distance from the origin at which a pen may stand.
pub const PEN_LIMIT: i64 = 0x4000_0000_0000_0000;

/// A font face at a fixed scale. Immutable once made.
pub struct Font {
    advance_height: i32,
    missing: Glyph,
    glyphs: Vec<Glyph>,
    kerning: Vec<Kerning>,
}

impl Font {
    /// The distance between two lines.
    pub closed spec fn line_advance(&self) -> int {
        self.advance_height as int
    }

    /// The glyph records, in the order in which they are searched.
    pub closed spec fn glyph_table(&self) -> Seq<Glyph> {
        self.glyphs@
    }

    /// The glyph that stands for a character without a record.
    pub closed spec fn missing_glyph(&self) -> Glyph {
        self.missing
    }

    /// The kerning records, in the order in which they are searched.
    pub closed spec fn kerning_table(&self) -> Seq<Kerning> {
        self.kerning@
    }

    /// Lines advance downwards and the table is not empty.
    pub closed spec fn wf(&self) -> bool {
        self.advance_height >= 0 && self.glyphs@.len() > 0
    }

    /// The glyph that draws `c`: its first record, else the missing glyph.
    pub open spec fn glyph_of(&self, c: char) -> Glyph {
        match find_glyph(self.glyph_table(), c) {
            Some(g) => g,
            None => self.missing_glyph(),
        }
    }

    /// The kerning between two glyphs that stand side by side.
    pub open spec fn kerning_of(&self, prev: GlyphId, next: GlyphId) -> int {
        find_kerning(self.kerning_table(), prev, next)
    }

    /// A well-formed font has a line advance in `0 ..= i32::MAX`.
    pub proof fn lemma_line_advance_range(&self)
        requires
            self.wf(),
        ensures
            0 <= self.line_advance() <= i32::MAX,
            self.glyph_table().len() > 0,
    {
    }

    /// Make a font from its tables. `missing` stands for every character
    /// that has no record in `glyphs`.
    pub fn new(advance_height: i32, missing: Glyph, glyphs: Vec<Glyph>, kerning: Vec<Kerning>) -> (r:
        Result<Font, FontLoadError>)
        ensures
            glyphs@.len() == 0 ==> r == Err::<Font, FontLoadError>(FontLoadError::NoGlyphs),
            glyphs@.len() > 0 && advance_height < 0 ==> r == Err::<Font, FontLoadError>(
                FontLoadError::NegativeLineAdvance,
            ),
            glyphs@.len() > 0 && advance_height >= 0 ==> r is Ok && r->Ok_0.wf()
                && r->Ok_0.line_advance() == advance_height && r->Ok_0.missing_glyph() == missing
                && r->Ok_0.glyph_table() == glyphs@ && r->Ok_0.kerning_table() == kerning@,
    {
        if glyphs.len() == 0 {
            Err(FontLoadError::NoGlyphs)
        } else if advance_height < 0 {
            Err(FontLoadError::NegativeLineAdvance)
        } else {
            Ok(Font { advance_height, missing, glyphs, kerning })
        }
    }

    /// The distance between two lines.
    pub fn advance_height(&self) -> (h: i32)
        ensures
            h == self.line_advance(),
    {
        self.advance_height
    }

    /// The glyph that draws `c`.
    pub fn glyph(&self, c: char) -> (g: Glyph)
        ensures
            g == self.glyph_of(c),
    {
        let mut i: usize = 0;
        proof {
            assert(self.glyphs@.skip(0) =~= self.glyphs@);
        }
        while i < self.glyphs.len()
            invariant
                i <= self.glyphs@.len(),
                find_glyph(self.glyphs@, c) == find_glyph(self.glyphs@.skip(i as int), c),
            decreases self.glyphs@.len() - i,
        {
            if self.glyphs[i].ch == c {
                return self.glyphs[i];
            }
            proof {
                assert(self.glyphs@.skip(i as int).drop_first() =~= self.glyphs@.skip(i + 1));
            }
            i += 1;
        }
        self.missing
    }

    /// How far the caret moves right after the glyph of `c`.
    pub fn advance_width(&self, c: char) -> (w: i32)
        ensures
            w == self.glyph_of(c).advance_width,
    {
        self.glyph(c).advance_width
    }

    /// The kerning between two glyphs that stand side by side.
    pub fn kerning(&self, prev: GlyphId, next: GlyphId) -> (k: i32)
        ensures
            k == self.kerning_of(prev, next),
    {
        let mut i: usize = 0;
        proof {
            assert(self.kerning@.skip(0) =~= self.kerning@);
        }
        while i < self.kerning.len()
            invariant
                i <= self.kerning@.len(),
                find_kerning(self.kerning@, prev, next) == find_kerning(
                    self.kerning@.skip(i as int),
                    prev,
                    next,
                ),
            decreases self.kerning@.len() - i,
        {
            if self.kerning[i].left == prev && self.kerning[i].right == next {
                return self.kerning[i].amount;
            }
            proof {
                assert(self.kerning@.skip(i as int).drop_first() =~= self.kerning@.skip(i + 1));
            }
            i += 1;
        }
        0
    }

    /// The box of `glyph` when the pen stands at `pen`, or `None` for a
    /// glyph that draws nothing.
    pub fn bounding_box(glyph: &Glyph, pen: Point) -> (r: Option<ScreenRect>)
        requires
            -PEN_LIMIT <= pen.x <= PEN_LIMIT,
            -PEN_LIMIT <= pen.y <= PEN_LIMIT,
        ensures
            r == bounds_at(*glyph, pen),
    {
        match glyph.bounds {
            Some(b) => Some(
                ScreenRect {
                    x: pen.x + b.left as i64,
                    y: pen.y + b.top as i64,
                    width: b.width,
                    height: b.height,
                },
            ),
            None => None,
        }
    }
}

} // verus!
