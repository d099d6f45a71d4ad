//! Words and lines with their bounding boxes on the screen.
use crate::binary32::{lemma_rank_follows_value, lemma_rank_tells_apart, Binary32, NINETY, ONE, ZERO};
use crate::hocr::{ocr_words_view, OcrWord, OcrWordView};
use vstd::prelude::*;

verus! {

/// A point on the screen, in pixels from the top left corner.
#[derive(Clone, Copy, Debug, PartialEq, Eq, Structural)]
pub struct PixelPoint {
    pub x: Binary32,
    pub y: Binary32,
}

/// An opaque or translucent colour.
#[derive(Clone, Copy, Debug, PartialEq, Eq, Structural)]
pub struct Rgba {
    pub r: Binary32,
    pub g: Binary32,
    pub b: Binary32,
    pub a: Binary32,
}

/// A colour without opacity.
#[derive(Clone, Copy, Debug, PartialEq, Eq, Structural)]
pub struct Rgb {
    pub r: Binary32,
    pub g: Binary32,
    pub b: Binary32,
}

/// The languages that can be recognised.
#[derive(Clone, Copy, Debug, PartialEq, Eq, Structural)]
pub enum SupportedLanguages {
    Eng,
    ChiTra,
}

/// A recognised word and its bounding box. `min` is the top left corner and `max`
/// the bottom right one.
#[derive(Debug)]
pub struct BboxWord {
    pub text: String,
    pub min: PixelPoint,
    pub max: PixelPoint,
    pub is_highlighted: bool,
    pub confidence: Binary32,
    pub language: SupportedLanguages,
}

/// A line of recognised words.
#[derive(Debug)]
pub struct BboxLine {
    pub words: Vec<BboxWord>,
    pub is_highlighted: bool,
}

/// A word to draw: its text, the height of the glyphs, their colour and the number
/// of their font.
#[derive(Debug)]
pub struct TextRun {
    pub text: String,
    pub scale: Binary32,
    pub color: Rgba,
    pub font_id: usize,
}

/// A line of words to draw, from this point on.
#[derive(Debug)]
pub struct TextSection {
    pub screen_position: PixelPoint,
    pub text: Vec<TextRun>,
}

/// A corner of a line's background.
#[derive(Clone, Copy, Debug, PartialEq, Eq, Structural)]
pub struct Vertex {
    pub position: PixelPoint,
    pub color: Rgb,
}

/// The box of a glyph that was laid out for the word with this position in its
/// line.
#[derive(Clone, Copy, Debug, PartialEq, Eq, Structural)]
pub struct GlyphBounds {
    pub section_index: usize,
    pub min: PixelPoint,
    pub max: PixelPoint,
}

/// The numbers of a recognised word: the coordinates of its box in pixels, and its
/// confidence in percent.
#[derive(Clone, Copy, Debug, PartialEq, Eq, Structural)]
pub struct WordNumbers {
    pub x: Binary32,
    pub y: Binary32,
    pub x2: Binary32,
    pub y2: Binary32,
    pub confidence: Binary32,
}

/// The contents of a word.
pub struct BboxWordView {
    pub text: Seq<char>,
    pub min: PixelPoint,
    pub max: PixelPoint,
    pub is_highlighted: bool,
    pub confidence: Binary32,
    pub language: SupportedLanguages,
}

/// The contents of a line.
pub struct BboxLineView {
    pub words: Seq<BboxWordView>,
    pub is_highlighted: bool,
}

/// The contents of a word to draw.
pub struct TextRunView {
    pub text: Seq<char>,
    pub scale: Binary32,
    pub color: Rgba,
    pub font_id: usize,
}

/// The contents of a line to draw.
pub struct TextSectionView {
    pub screen_position: PixelPoint,
    pub text: Seq<TextRunView>,
}

impl View for BboxWord {
    type V = BboxWordView;

    open spec fn view(&self) -> BboxWordView {
        BboxWordView {
            text: self.text@,
            min: self.min,
            max: self.max,
            is_highlighted: self.is_highlighted,
            confidence: self.confidence,
            language: self.language,
        }
    }
}

/// The contents of words.
pub open spec fn words_view(words: Seq<BboxWord>) -> Seq<BboxWordView> {
    Seq::new(words.len(), |i: int| words[i]@)
}

impl View for BboxLine {
    type V = BboxLineView;

    open spec fn view(&self) -> BboxLineView {
        BboxLineView { words: words_view(self.words@), is_highlighted: self.is_highlighted }
    }
}

impl View for TextRun {
    type V = TextRunView;

    open spec fn view(&self) -> TextRunView {
        TextRunView {
            text: self.text@,
            scale: self.scale,
            color: self.color,
            font_id: self.font_id,
        }
    }
}

/// The contents of words to draw.
pub open spec fn runs_view(runs: Seq<TextRun>) -> Seq<TextRunView> {
    Seq::new(runs.len(), |i: int| runs[i]@)
}

impl View for TextSection {
    type V = TextSectionView;

    open spec fn view(&self) -> TextSectionView {
        TextSectionView {
            screen_position: self.screen_position,
            text: runs_view(self.text@),
        }
    }
}

/// A recognised word with its numbers: not highlighted, and in traditional Chinese.
pub open spec fn word_with(word: OcrWordView, numbers: WordNumbers) -> BboxWordView {
    BboxWordView {
        text: word.text,
        min: PixelPoint { x: numbers.x, y: numbers.y },
        max: PixelPoint { x: numbers.x2, y: numbers.y2 },
        is_highlighted: false,
        confidence: numbers.confidence,
        language: SupportedLanguages::ChiTra,
    }
}

/// A line of recognised words, each with its numbers, and not highlighted.
pub open spec fn line_of_words(
    words: Seq<OcrWordView>,
    numbers: Seq<WordNumbers>,
) -> BboxLineView {
    BboxLineView {
        words: Seq::new(words.len(), |i: int| word_with(words[i], numbers[i])),
        is_highlighted: false,
    }
}

/// The colour whose parts are each full or off.
pub open spec fn full_or_off(r: bool, g: bool, b: bool) -> Rgba {
    let part = |on: bool|
        if on {
            Binary32 { bits: ONE }
        } else {
            Binary32 { bits: ZERO }
        };
    Rgba { r: part(r), g: part(g), b: part(b), a: part(true) }
}

/// White.
pub open spec fn white() -> Rgb {
    Rgb { r: Binary32 { bits: ONE }, g: Binary32 { bits: ONE }, b: Binary32 { bits: ONE } }
}

/// Whether a point lies in a box: right of and below its top left corner, and not
/// beyond its bottom right one.
pub open spec fn in_box(point: PixelPoint, min: PixelPoint, max: PixelPoint) -> bool {
    &&& min.x.is_less(point.x)
    &&& point.x.is_at_most(max.x)
    &&& min.y.is_less(point.y)
    &&& point.y.is_at_most(max.y)
}

impl BboxWordView {
    /// Whether a point lies in the box of the word.
    pub open spec fn contains(self, point: PixelPoint) -> bool {
        in_box(point, self.min, self.max)
    }

    /// Green where the word is highlighted, else red where the recogniser was less
    /// than 90 percent sure of it, else black.
    pub open spec fn colour(self) -> Rgba {
        if self.is_highlighted {
            full_or_off(false, true, false)
        } else if self.confidence.is_less(Binary32 { bits: NINETY }) {
            full_or_off(true, false, false)
        } else {
            full_or_off(false, false, false)
        }
    }

    /// The word to draw, with glyphs of this height. English has the first font,
    /// everything else the second.
    pub open spec fn run(self, scale: Binary32) -> TextRunView {
        TextRunView {
            text: self.text,
            scale,
            color: self.colour(),
            font_id: if self.language == SupportedLanguages::Eng {
                0
            } else {
                1
            },
        }
    }

    /// The word, highlighted if this point lies in its box and not otherwise.
    pub open spec fn highlighted_at(self, point: PixelPoint) -> BboxWordView {
        BboxWordView { is_highlighted: self.contains(point), ..self }
    }
}

/// Whether `r` is one of these values and none of them comes before it in the
/// total order.
pub open spec fn is_first(r: Binary32, values: Seq<Binary32>) -> bool {
    &&& values.contains(r)
    &&& forall|i: int| 0 <= i < values.len() ==> r.rank() <= (#[trigger] values[i]).rank()
}

/// Whether `r` is one of these values and none of them comes after it in the total
/// order.
pub open spec fn is_last(r: Binary32, values: Seq<Binary32>) -> bool {
    &&& values.contains(r)
    &&& forall|i: int| 0 <= i < values.len() ==> (#[trigger] values[i]).rank() <= r.rank()
}

/// The first of these values in the total order.
pub open spec fn first_value(values: Seq<Binary32>) -> Binary32 {
    choose|r: Binary32| is_first(r, values)
}

/// The last of these values in the total order.
pub open spec fn last_value(values: Seq<Binary32>) -> Binary32 {
    choose|r: Binary32| is_last(r, values)
}

/// There is no other first value.
pub proof fn lemma_first_value(r: Binary32, values: Seq<Binary32>)
    requires
        is_first(r, values),
    ensures
        first_value(values) == r,
{
    let s = first_value(values);
    assert(is_first(s, values));
    let i = choose|i: int| 0 <= i < values.len() && values[i] == r;
    let j = choose|j: int| 0 <= j < values.len() && values[j] == s;
    assert(s.rank() <= values[i].rank());
    assert(r.rank() <= values[j].rank());
    lemma_rank_tells_apart(r, s);
}

/// There is no other last value.
pub proof fn lemma_last_value(r: Binary32, values: Seq<Binary32>)
    requires
        is_last(r, values),
    ensures
        last_value(values) == r,
{
    let s = last_value(values);
    assert(is_last(s, values));
    let i = choose|i: int| 0 <= i < values.len() && values[i] == r;
    let j = choose|j: int| 0 <= j < values.len() && values[j] == s;
    assert(values[i].rank() <= s.rank());
    assert(values[j].rank() <= r.rank());
    lemma_rank_tells_apart(r, s);
}

impl BboxLineView {
    /// The left edges of the words.
    pub open spec fn min_xs(self) -> Seq<Binary32> {
        Seq::new(self.words.len(), |i: int| self.words[i].min.x)
    }

    /// The top edges of the words.
    pub open spec fn min_ys(self) -> Seq<Binary32> {
        Seq::new(self.words.len(), |i: int| self.words[i].min.y)
    }

    /// The right edges of the words.
    pub open spec fn max_xs(self) -> Seq<Binary32> {
        Seq::new(self.words.len(), |i: int| self.words[i].max.x)
    }

    /// The bottom edges of the words.
    pub open spec fn max_ys(self) -> Seq<Binary32> {
        Seq::new(self.words.len(), |i: int| self.words[i].max.y)
    }

    /// The top left corner of the box around all words.
    pub open spec fn min_corner(self) -> PixelPoint {
        PixelPoint { x: first_value(self.min_xs()), y: first_value(self.min_ys()) }
    }

    /// The bottom right corner of the box around all words.
    pub open spec fn max_corner(self) -> PixelPoint {
        PixelPoint { x: last_value(self.max_xs()), y: last_value(self.max_ys()) }
    }

    /// Whether a point lies in the box around all words.
    pub open spec fn contains(self, point: PixelPoint) -> bool {
        in_box(point, self.min_corner(), self.max_corner())
    }

    /// The line to draw, with glyphs of this height.
    pub open spec fn section(self, scale: Binary32) -> TextSectionView {
        TextSectionView {
            screen_position: self.min_corner(),
            text: Seq::new(self.words.len(), |i: int| self.words[i].run(scale)),
        }
    }

    /// The corners of the line's background: top left, top right, bottom left,
    /// bottom right.
    pub open spec fn corners(self) -> Seq<Vertex> {
        let min = self.min_corner();
        let max = self.max_corner();
        seq![
            Vertex { position: min, color: white() },
            Vertex { position: PixelPoint { x: max.x, y: min.y }, color: white() },
            Vertex { position: PixelPoint { x: min.x, y: max.y }, color: white() },
            Vertex { position: max, color: white() },
        ]
    }

    /// The line, with every word highlighted that this point lies in and no other.
    pub open spec fn highlighted_at(self, point: PixelPoint) -> BboxLineView {
        BboxLineView {
            words: Seq::new(self.words.len(), |i: int| self.words[i].highlighted_at(point)),
            ..self
        }
    }

    /// The line with the boxes of its words taken from the glyphs that were laid out
    /// for them: a word gets the box of its last glyph, and keeps its own where it
    /// has no glyph.
    pub open spec fn placed(self, glyphs: Seq<GlyphBounds>) -> BboxLineView {
        BboxLineView {
            words: Seq::new(
                self.words.len(),
                |i: int|
                    match last_glyph(glyphs, i) {
                        None => self.words[i],
                        Some(glyph) => BboxWordView {
                            min: glyph.min,
                            max: glyph.max,
                            ..self.words[i]
                        },
                    },
            ),
            ..self
        }
    }
}

/// The last of these glyphs that was laid out for word `i`.
pub open spec fn last_glyph(glyphs: Seq<GlyphBounds>, i: int) -> Option<GlyphBounds>
    decreases glyphs.len(),
{
    if glyphs.len() == 0 {
        None
    } else if glyphs.last().section_index == i {
        Some(glyphs.last())
    } else {
        last_glyph(glyphs.drop_last(), i)
    }
}

/// Of two lists of glyphs, the second has the last word.
proof fn lemma_last_glyph_append(first: Seq<GlyphBounds>, second: Seq<GlyphBounds>, i: int)
    ensures
        last_glyph(first + second, i) == (match last_glyph(second, i) {
            Some(glyph) => Some(glyph),
            None => last_glyph(first, i),
        }),
    decreases second.len(),
{
    if second.len() == 0 {
        assert(first + second =~= first);
    } else {
        assert((first + second).drop_last() =~= first + second.drop_last());
        lemma_last_glyph_append(first, second.drop_last(), i);
    }
}

/// Placing glyphs in two batches is placing them all at once.
pub proof fn lemma_placing_in_batches(
    line: BboxLineView,
    first: Seq<GlyphBounds>,
    second: Seq<GlyphBounds>,
)
    ensures
        line.placed(first).placed(second) == line.placed(first + second),
{
    let twice = line.placed(first).placed(second);
    let once = line.placed(first + second);
    assert forall|i: int| 0 <= i < line.words.len() implies twice.words[i] == once.words[i] by {
        lemma_last_glyph_append(first, second, i);
    }
    assert(twice.words =~= once.words);
}

/// The two triangles of a line's background, as positions among the vertices, when
/// its corners start at `offset`.
pub open spec fn triangles(offset: u32) -> Seq<u32> {
    seq![
        offset,
        (offset + 1) as u32,
        (offset + 2) as u32,
        (offset + 2) as u32,
        (offset + 1) as u32,
        (offset + 3) as u32,
    ]
}

impl PixelPoint {
    /// The point with these coordinates.
    pub fn new(x: Binary32, y: Binary32) -> (r: Self)
        ensures
            r == (PixelPoint { x, y }),
    {
        PixelPoint { x, y }
    }

    /// Whether the point lies in a box.
    fn is_in_box(self, min: PixelPoint, max: PixelPoint) -> (r: bool)
        ensures
            r == in_box(self, min, max),
    {
        min.x.less(self.x) && self.x.at_most(max.x) && min.y.less(self.y) && self.y.at_most(max.y)
    }
}

impl BboxWord {
    /// A recognised word with its numbers. It is not highlighted and counts as
    /// traditional Chinese.
    pub fn new(word: OcrWord, numbers: WordNumbers) -> (r: Self)
        ensures
            r@ == word_with(word@, numbers),
    {
        BboxWord {
            text: word.text,
            min: PixelPoint::new(numbers.x, numbers.y),
            max: PixelPoint::new(numbers.x2, numbers.y2),
            is_highlighted: false,
            confidence: numbers.confidence,
            language: SupportedLanguages::ChiTra,
        }
    }

    /// Whether a point lies in the box of the word.
    pub fn is_within_bounds(&self, position: PixelPoint) -> (r: bool)
        ensures
            r == self@.contains(position),
    {
        position.is_in_box(self.min, self.max)
    }

    /// The word to draw, with glyphs of this height.
    pub fn to_text(&self, scale: Binary32) -> (r: TextRun)
        ensures
            r@ == self@.run(scale),
    {
        TextRun {
            text: self.text.clone(),
            scale,
            color: self.get_colour(),
            font_id: if self.language == SupportedLanguages::Eng {
                0
            } else {
                1
            },
        }
    }

    /// The colour that the word is drawn in.
    pub fn get_colour(&self) -> (r: Rgba)
        ensures
            r == self@.colour(),
    {
        let on = Binary32 { bits: ONE };
        let off = Binary32 { bits: ZERO };
        if self.is_highlighted {
            Rgba { r: off, g: on, b: off, a: on }
        } else if self.confidence.less(Binary32 { bits: NINETY }) {
            Rgba { r: on, g: off, b: off, a: on }
        } else {
            Rgba { r: off, g: off, b: off, a: on }
        }
    }

    /// Highlights the word if this point lies in its box, and takes the highlight
    /// away otherwise.
    pub fn highlight(&mut self, position: PixelPoint)
        ensures
            final(self)@ == old(self)@.highlighted_at(position),
    {
        self.is_highlighted = self.is_within_bounds(position);
    }
}

impl BboxLine {
    /// A line of these words, not highlighted.
    pub fn new(words: Vec<BboxWord>) -> (r: Self)
        ensures
            r@ == (BboxLineView { words: words_view(words@), is_highlighted: false }),
    {
        BboxLine { words, is_highlighted: false }
    }

    /// A line of recognised words, each with the numbers that are given for it.
    pub fn from_words(words: Vec<OcrWord>, numbers: &Vec<WordNumbers>) -> (r: Self)
        requires
            words@.len() == numbers@.len(),
        ensures
            r@ == line_of_words(ocr_words_view(words@), numbers@),
    {
        let ghost contents = ocr_words_view(words@);
        let len = numbers.len();
        let mut line: Vec<BboxWord> = Vec::new();
        let mut i: usize = 0;
        for word in it: words
            invariant
                it.seq() == words@,
                contents == ocr_words_view(words@),
                contents.len() == numbers@.len() == len,
                i == it.index() == line@.len(),
                forall|j: int|
                    0 <= j < i ==> (#[trigger] line@[j])@ == word_with(contents[j], numbers@[j]),
        {
            line.push(BboxWord::new(word, numbers[i]));
            i = i + 1;
        }
        let line = BboxLine::new(line);
        assert(line@.words =~= line_of_words(contents, numbers@).words);
        line
    }

    /// The top left corner of the box around all words.
    pub fn get_min(&self) -> (r: PixelPoint)
        requires
            self@.words.len() > 0,
        ensures
            r == self@.min_corner(),
    {
        let mut x = self.words[0].min.x;
        let mut y = self.words[0].min.y;
        let ghost xs = self@.min_xs();
        let ghost ys = self@.min_ys();
        assert(xs.take(1)[0] == x && ys.take(1)[0] == y);
        for i in 1..self.words.len()
            invariant
                self.words@.len() > 0,
                xs == self@.min_xs(),
                ys == self@.min_ys(),
                is_first(x, xs.take(i as int)),
                is_first(y, ys.take(i as int)),
        {
            let ghost (before_x, before_y) = (x, y);
            let min = self.words[i].min;
            assert(xs.take(i + 1) =~= xs.take(i as int).push(min.x));
            assert(ys.take(i + 1) =~= ys.take(i as int).push(min.y));
            if min.x.before(x) {
                x = min.x;
            }
            if min.y.before(y) {
                y = min.y;
            }
            proof {
                lemma_first_push(before_x, xs.take(i as int), min.x);
                lemma_first_push(before_y, ys.take(i as int), min.y);
            }
        }
        assert(xs.take(xs.len() as int) =~= xs && ys.take(ys.len() as int) =~= ys);
        proof {
            lemma_first_value(x, xs);
            lemma_first_value(y, ys);
        }
        PixelPoint::new(x, y)
    }

    /// The bottom right corner of the box around all words.
    pub fn get_max(&self) -> (r: PixelPoint)
        requires
            self@.words.len() > 0,
        ensures
            r == self@.max_corner(),
    {
        let mut x = self.words[0].max.x;
        let mut y = self.words[0].max.y;
        let ghost xs = self@.max_xs();
        let ghost ys = self@.max_ys();
        assert(xs.take(1)[0] == x && ys.take(1)[0] == y);
        for i in 1..self.words.len()
            invariant
                self.words@.len() > 0,
                xs == self@.max_xs(),
                ys == self@.max_ys(),
                is_last(x, xs.take(i as int)),
                is_last(y, ys.take(i as int)),
        {
            let ghost (before_x, before_y) = (x, y);
            let max = self.words[i].max;
            assert(xs.take(i + 1) =~= xs.take(i as int).push(max.x));
            assert(ys.take(i + 1) =~= ys.take(i as int).push(max.y));
            if x.before(max.x) {
                x = max.x;
            }
            if y.before(max.y) {
                y = max.y;
            }
            proof {
                lemma_last_push(before_x, xs.take(i as int), max.x);
                lemma_last_push(before_y, ys.take(i as int), max.y);
            }
        }
        assert(xs.take(xs.len() as int) =~= xs && ys.take(ys.len() as int) =~= ys);
        proof {
            lemma_last_value(x, xs);
            lemma_last_value(y, ys);
        }
        PixelPoint::new(x, y)
    }

    /// The line to draw, with glyphs of this height.
    pub fn to_section(&self, scale: Binary32) -> (r: TextSection)
        requires
            self@.words.len() > 0,
        ensures
            r@ == self@.section(scale),
    {
        let mut text: Vec<TextRun> = Vec::new();
        for i in 0..self.words.len()
            invariant
                text@.len() == i,
                forall|j: int| 0 <= j < i ==> (#[trigger] text@[j])@ == self@.words[j].run(scale),
        {
            text.push(self.words[i].to_text(scale));
        }
        let section = TextSection { screen_position: self.get_min(), text };
        assert(section@.text =~= self@.section(scale).text);
        section
    }

    /// The background of the line: its corners, in pixels, and its triangles as
    /// positions among all vertices, when these corners start at `offset`.
    pub fn to_vertices(&self, offset: u32) -> (r: (Vec<Vertex>, Vec<u32>))
        requires
            self@.words.len() > 0,
            offset + 3 <= u32::MAX,
        ensures
            r.0@ == self@.corners(),
            r.1@ == triangles(offset),
    {
        let min = self.get_min();
        let max = self.get_max();
        let one = Binary32 { bits: ONE };
        let color = Rgb { r: one, g: one, b: one };
        let vertices = vec![
            Vertex { position: min, color },
            Vertex { position: PixelPoint::new(max.x, min.y), color },
            Vertex { position: PixelPoint::new(min.x, max.y), color },
            Vertex { position: max, color },
        ];
        let indices = vec![offset, offset + 1, offset + 2, offset + 2, offset + 1, offset + 3];
        assert(vertices@ =~= self@.corners());
        assert(indices@ =~= triangles(offset));
        (vertices, indices)
    }

    /// Whether a point lies in the box around all words.
    pub fn is_within_bounds(&self, position: PixelPoint) -> (r: bool)
        requires
            self@.words.len() > 0,
        ensures
            r == self@.contains(position),
    {
        position.is_in_box(self.get_min(), self.get_max())
    }

    /// Highlights the words that this point lies in, and no other.
    pub fn highlight(&mut self, position: PixelPoint)
        ensures
            final(self)@ == old(self)@.highlighted_at(position),
    {
        let ghost before = self@;
        let len = self.words.len();
        for i in 0..len
            invariant
                self.is_highlighted == before.is_highlighted,
                self.words@.len() == len == before.words.len(),
                forall|j: int|
                    0 <= j < i ==> (#[trigger] self.words@[j])@ == before.words[j].highlighted_at(
                        position,
                    ),
                forall|j: int| i <= j < before.words.len() ==> (#[trigger] self.words@[j])@ == before.words[j],
        {
            self.words[i].highlight(position);
        }
        assert(self@.words =~= before.highlighted_at(position).words);
    }

    /// Moves the boxes of the words to the glyphs that were laid out for them.
    pub fn place_glyphs(&mut self, glyphs: &Vec<GlyphBounds>)
        requires
            forall|k: int|
                0 <= k < glyphs@.len() ==> (#[trigger] glyphs@[k]).section_index < old(
                    self,
                )@.words.len(),
        ensures
            final(self)@ == old(self)@.placed(glyphs@),
    {
        let ghost before = self@;
        assert(self@.words =~= before.placed(glyphs@.take(0)).words);
        for k in 0..glyphs.len()
            invariant
                self@ == before.placed(glyphs@.take(k as int)),
                forall|k: int|
                    0 <= k < glyphs@.len() ==> (#[trigger] glyphs@[k]).section_index
                        < before.words.len(),
        {
            let glyph = glyphs[k];
            let i = glyph.section_index;
            assert(glyphs@[k as int] == glyph && self.words@.len() == self@.words.len());
            let ghost earlier = self@;
            self.words[i].min = glyph.min;
            self.words[i].max = glyph.max;
            assert(glyphs@.take(k + 1).drop_last() =~= glyphs@.take(k as int));
            assert forall|j: int| 0 <= j < before.words.len() implies #[trigger] self@.words[j]
                == before.placed(glyphs@.take(k + 1)).words[j] by {
                assert(earlier.words[j] == before.placed(glyphs@.take(k as int)).words[j]);
                assert(j != i ==> self@.words[j] == earlier.words[j]);
                assert(last_glyph(glyphs@.take(k + 1), j) == (if j == i {
                    Some(glyph)
                } else {
                    last_glyph(glyphs@.take(k as int), j)
                }));
            }
            assert(self@.words =~= before.placed(glyphs@.take(k + 1)).words);
        }
        assert(glyphs@.take(glyphs@.len() as int) =~= glyphs@);
    }
}

/// Whether both coordinates are numbers.
pub open spec fn is_number(point: PixelPoint) -> bool {
    !point.x.is_nan() && !point.y.is_nan()
}

/// Where there are values, there is a first one.
proof fn lemma_has_first(values: Seq<Binary32>)
    requires
        values.len() > 0,
    ensures
        is_first(first_value(values), values),
    decreases values.len(),
{
    let rest = values.drop_last();
    let v = values.last();
    assert(values =~= rest.push(v));
    if rest.len() == 0 {
        assert(values[0] == v);
        assert(is_first(v, values));
    } else {
        lemma_has_first(rest);
        lemma_first_push(first_value(rest), rest, v);
    }
}

/// Where there are values, there is a last one.
proof fn lemma_has_last(values: Seq<Binary32>)
    requires
        values.len() > 0,
    ensures
        is_last(last_value(values), values),
    decreases values.len(),
{
    let rest = values.drop_last();
    let v = values.last();
    assert(values =~= rest.push(v));
    if rest.len() == 0 {
        assert(values[0] == v);
        assert(is_last(v, values));
    } else {
        lemma_has_last(rest);
        lemma_last_push(last_value(rest), rest, v);
    }
}

/// The box around a line contains the box of each of its words, if all corners are
/// numbers.
pub proof fn lemma_line_contains_words(line: BboxLineView, i: int, point: PixelPoint)
    requires
        0 <= i < line.words.len(),
        forall|j: int|
            0 <= j < line.words.len() ==> is_number((#[trigger] line.words[j]).min) && is_number(
                line.words[j].max,
            ),
        line.words[i].contains(point),
    ensures
        line.contains(point),
{
    let word = line.words[i];
    lemma_has_first(line.min_xs());
    lemma_has_first(line.min_ys());
    lemma_has_last(line.max_xs());
    lemma_has_last(line.max_ys());
    assert(line.min_xs()[i] == word.min.x && line.min_ys()[i] == word.min.y);
    assert(line.max_xs()[i] == word.max.x && line.max_ys()[i] == word.max.y);
    let min = line.min_corner();
    let max = line.max_corner();
    let a = choose|k: int| 0 <= k < line.words.len() && line.min_xs()[k] == min.x;
    let b = choose|k: int| 0 <= k < line.words.len() && line.min_ys()[k] == min.y;
    let c = choose|k: int| 0 <= k < line.words.len() && line.max_xs()[k] == max.x;
    let d = choose|k: int| 0 <= k < line.words.len() && line.max_ys()[k] == max.y;
    assert(line.words[a].min.x == min.x && line.words[b].min.y == min.y);
    assert(line.words[c].max.x == max.x && line.words[d].max.y == max.y);
    lemma_rank_follows_value(min.x, word.min.x);
    lemma_rank_follows_value(min.y, word.min.y);
    lemma_rank_follows_value(word.max.x, max.x);
    lemma_rank_follows_value(word.max.y, max.y);
}

/// One more value becomes the first, or leaves the first as it is.
proof fn lemma_first_push(r: Binary32, values: Seq<Binary32>, v: Binary32)
    requires
        is_first(r, values),
    ensures
        is_first(
            if v.rank() < r.rank() {
                v
            } else {
                r
            },
            values.push(v),
        ),
{
    let i = choose|i: int| 0 <= i < values.len() && values[i] == r;
    assert(values.push(v)[i] == r);
    assert(values.push(v)[values.len() as int] == v);
}

/// One more value becomes the last, or leaves the last as it is.
proof fn lemma_last_push(r: Binary32, values: Seq<Binary32>, v: Binary32)
    requires
        is_last(r, values),
    ensures
        is_last(
            if r.rank() < v.rank() {
                v
            } else {
                r
            },
            values.push(v),
        ),
{
    let i = choose|i: int| 0 <= i < values.len() && values[i] == r;
    assert(values.push(v)[i] == r);
    assert(values.push(v)[values.len() as int] == v);
}

/// The contents of a line are its mark and those of its words, each in its place, and
/// the contents of a word are its fields.
pub proof fn lemma_line_contents(line: BboxLine, i: int)
    requires
        0 <= i < line.words@.len(),
    ensures
        line@.is_highlighted == line.is_highlighted,
        line@.words.len() == line.words@.len(),
        line@.words[i].text == line.words@[i].text@,
        line@.words[i].min == line.words@[i].min,
        line@.words[i].max == line.words@[i].max,
        line@.words[i].is_highlighted == line.words@[i].is_highlighted,
        line@.words[i].confidence == line.words@[i].confidence,
        line@.words[i].language == line.words@[i].language,
{
}

/// The contents of a line to draw are its position and those of its words, each in its
/// place, and the contents of a word are its fields.
pub proof fn lemma_section_contents(section: TextSection, i: int)
    requires
        0 <= i < section.text@.len(),
    ensures
        section@.screen_position == section.screen_position,
        section@.text.len() == section.text@.len(),
        section@.text[i].text == section.text@[i].text@,
        section@.text[i].scale == section.text@[i].scale,
        section@.text[i].color == section.text@[i].color,
        section@.text[i].font_id == section.text@[i].font_id,
{
}

/// A word contains a point exactly if the point is right of the box's left edge and
/// below its top edge, and neither right of its right edge nor below its bottom edge;
/// whatever else the word holds.
pub proof fn lemma_word_within_bounds(word: &BboxWord, position: PixelPoint, r: bool)
    requires
        call_ensures(BboxWord::is_within_bounds, (word, position), r),
    ensures
        r <==> word.min.x.is_less(position.x) && position.x.is_at_most(word.max.x)
            && word.min.y.is_less(position.y) && position.y.is_at_most(word.max.y),
{
}

/// Two words with one box contain the same points, whatever their texts, their
/// confidences, their languages and their highlights are.
pub proof fn lemma_box_alone_counts(
    first: &BboxWord,
    second: &BboxWord,
    position: PixelPoint,
    in_first: bool,
    in_second: bool,
)
    requires
        first.min == second.min,
        first.max == second.max,
        call_ensures(BboxWord::is_within_bounds, (first, position), in_first),
        call_ensures(BboxWord::is_within_bounds, (second, position), in_second),
    ensures
        in_first == in_second,
{
}

/// The numbers that a word's box admits, for corners and points that are numbers: from
/// the left edge, which is left out, to the right one, and from the top edge, which is
/// left out, to the bottom one.
pub proof fn lemma_word_bounds_by_value(word: &BboxWord, position: PixelPoint, r: bool)
    requires
        call_ensures(BboxWord::is_within_bounds, (word, position), r),
        is_number(word.min),
        is_number(word.max),
        is_number(position),
    ensures
        r <==> word.min.x.value() < position.x.value() <= word.max.x.value() && word.min.y.value()
            < position.y.value() <= word.max.y.value(),
{
}

/// Which coordinates are numbers.
pub proof fn lemma_number_by_pattern(point: PixelPoint)
    ensures
        is_number(point) <==> point.x.bits % 0x8000_0000 <= 0x7F80_0000 && point.y.bits % 0x8000_0000
            <= 0x7F80_0000,
{
}

/// A line without words stays as it is when it is highlighted or its glyphs are placed.
pub proof fn lemma_empty_line_unchanged(
    line: BboxLineView,
    point: PixelPoint,
    glyphs: Seq<GlyphBounds>,
)
    requires
        line.words.len() == 0,
    ensures
        line.highlighted_at(point) == line,
        line.placed(glyphs) == line,
{
    assert(line.highlighted_at(point).words =~= line.words);
    assert(line.placed(glyphs).words =~= line.words);
}

/// A word is drawn opaque, and in pure green, pure red or black: green exactly where it
/// is highlighted, and red exactly where it is not and its confidence is a number below
/// 90.
pub proof fn lemma_colour(word: &BboxWord, r: Rgba)
    requires
        call_ensures(BboxWord::get_colour, (word,), r),
    ensures
        r.a.bits == 0x3F80_0000,
        r.b.bits == 0,
        r.g.bits == (if word.is_highlighted {
            0x3F80_0000u32
        } else {
            0
        }),
        r.r.bits == (if !word.is_highlighted && word.confidence.is_less(
            Binary32 { bits: 0x42B4_0000 },
        ) {
            0x3F80_0000u32
        } else {
            0
        }),
{
}

/// A word to draw has the word's text and colour, the height that was asked for, and
/// the first font exactly for English.
pub proof fn lemma_text_drawn(word: &BboxWord, scale: Binary32, r: TextRun, colour: Rgba)
    requires
        call_ensures(BboxWord::to_text, (word, scale), r),
        call_ensures(BboxWord::get_colour, (word,), colour),
    ensures
        r.text@ == word.text@,
        r.scale == scale,
        r.color == colour,
        word.language is Eng ==> r.font_id == 0,
        word.language is ChiTra ==> r.font_id == 1,
{
}

/// A word made from a recognised one has its text, the numbers that were given for it,
/// no highlight, and traditional Chinese as its language.
pub proof fn lemma_new_word(word: OcrWord, numbers: WordNumbers, r: BboxWord)
    requires
        call_ensures(BboxWord::new, (word, numbers), r),
    ensures
        r.text@ == word.text@,
        r.min.x == numbers.x && r.min.y == numbers.y,
        r.max.x == numbers.x2 && r.max.y == numbers.y2,
        r.confidence == numbers.confidence,
        !r.is_highlighted,
        r.language is ChiTra,
{
    assert(r@.text == word.text@);
    assert(r@.min == r.min && r@.max == r.max && r@.confidence == r.confidence);
    assert(r@.is_highlighted == r.is_highlighted && r@.language == r.language);
}

/// A line made from words holds just these words and no highlight.
pub proof fn lemma_new_line(words: Vec<BboxWord>, r: BboxLine, i: int)
    requires
        call_ensures(BboxLine::new, (words,), r),
        0 <= i < words@.len(),
    ensures
        !r.is_highlighted,
        r.words@.len() == words@.len(),
        r.words@[i]@ == words@[i]@,
{
    assert(r@.words.len() == r.words@.len() && r@.words[i] == r.words@[i]@);
    assert(r@.is_highlighted == r.is_highlighted);
}

/// A line made from recognised words has one word for each, in order, made from the
/// word and from the numbers in the same place.
pub proof fn lemma_line_from_words(
    words: Vec<OcrWord>,
    numbers: &Vec<WordNumbers>,
    r: BboxLine,
    i: int,
)
    requires
        words@.len() == numbers@.len(),
        call_ensures(BboxLine::from_words, (words, numbers), r),
        0 <= i < words@.len(),
    ensures
        !r.is_highlighted,
        r.words@.len() == words@.len(),
        r.words@[i].text@ == words@[i].text@,
        r.words@[i].min.x == numbers@[i].x && r.words@[i].min.y == numbers@[i].y,
        r.words@[i].max.x == numbers@[i].x2 && r.words@[i].max.y == numbers@[i].y2,
        r.words@[i].confidence == numbers@[i].confidence,
        !r.words@[i].is_highlighted,
        r.words@[i].language is ChiTra,
{
    assert(r@.is_highlighted == r.is_highlighted);
    assert(r@.words.len() == r.words@.len());
    let word = r@.words[i];
    assert(word == r.words@[i]@);
    assert(word == word_with(words@[i]@, numbers@[i]));
}

/// The corners of the box around a line are coordinates of its words, and no word has
/// one that is further out in the total order.
pub proof fn lemma_corners_enclose(line: &BboxLine, min: PixelPoint, max: PixelPoint, i: int)
    requires
        line.words@.len() > 0,
        call_ensures(BboxLine::get_min, (line,), min),
        call_ensures(BboxLine::get_max, (line,), max),
        0 <= i < line.words@.len(),
    ensures
        exists|k: int| 0 <= k < line.words@.len() && (#[trigger] line.words@[k]).min.x == min.x,
        exists|k: int| 0 <= k < line.words@.len() && (#[trigger] line.words@[k]).min.y == min.y,
        exists|k: int| 0 <= k < line.words@.len() && (#[trigger] line.words@[k]).max.x == max.x,
        exists|k: int| 0 <= k < line.words@.len() && (#[trigger] line.words@[k]).max.y == max.y,
        min.x.rank() <= line.words@[i].min.x.rank(),
        min.y.rank() <= line.words@[i].min.y.rank(),
        max.x.rank() >= line.words@[i].max.x.rank(),
        max.y.rank() >= line.words@[i].max.y.rank(),
{
    let contents = line@;
    lemma_has_first(contents.min_xs());
    lemma_has_first(contents.min_ys());
    lemma_has_last(contents.max_xs());
    lemma_has_last(contents.max_ys());
    let a = choose|k: int| 0 <= k < contents.words.len() && contents.min_xs()[k] == min.x;
    let b = choose|k: int| 0 <= k < contents.words.len() && contents.min_ys()[k] == min.y;
    let c = choose|k: int| 0 <= k < contents.words.len() && contents.max_xs()[k] == max.x;
    let d = choose|k: int| 0 <= k < contents.words.len() && contents.max_ys()[k] == max.y;
    assert(line.words@[a].min.x == min.x && line.words@[b].min.y == min.y);
    assert(line.words@[c].max.x == max.x && line.words@[d].max.y == max.y);
    assert(contents.min_xs()[i] == line.words@[i].min.x);
    assert(contents.min_ys()[i] == line.words@[i].min.y);
    assert(contents.max_xs()[i] == line.words@[i].max.x);
    assert(contents.max_ys()[i] == line.words@[i].max.y);
}

/// A line contains a point exactly if the point lies in the box between the line's two
/// corners.
pub proof fn lemma_line_within_bounds(
    line: &BboxLine,
    min: PixelPoint,
    max: PixelPoint,
    position: PixelPoint,
    r: bool,
)
    requires
        line.words@.len() > 0,
        call_ensures(BboxLine::get_min, (line,), min),
        call_ensures(BboxLine::get_max, (line,), max),
        call_ensures(BboxLine::is_within_bounds, (line, position), r),
    ensures
        r <==> min.x.is_less(position.x) && position.x.is_at_most(max.x) && min.y.is_less(position.y)
            && position.y.is_at_most(max.y),
{
}

/// A line is drawn from its top left corner on, word for word as each word is drawn by
/// itself.
pub proof fn lemma_section_drawn(
    line: &BboxLine,
    scale: Binary32,
    r: TextSection,
    min: PixelPoint,
    i: int,
    run: TextRun,
)
    requires
        line.words@.len() > 0,
        call_ensures(BboxLine::to_section, (line, scale), r),
        call_ensures(BboxLine::get_min, (line,), min),
        0 <= i < line.words@.len(),
        call_ensures(BboxWord::to_text, (&line.words@[i], scale), run),
    ensures
        r.screen_position == min,
        r.text@.len() == line.words@.len(),
        r.text@[i].text@ == run.text@,
        r.text@[i].scale == run.scale,
        r.text@[i].color == run.color,
        r.text@[i].font_id == run.font_id,
{
    assert(r@.screen_position == r.screen_position);
    assert(r@.text.len() == r.text@.len() && r@.text[i] == r.text@[i]@);
    assert(line@.words[i] == line.words@[i]@);
}

/// The two triangles of a background have three corners each, wherever the corners
/// start among the vertices. Both have the top right and the bottom left corner; of the
/// other two, the first triangle has the top left one and the second the bottom right
/// one. So they meet in the diagonal between the two shared corners and cover the whole
/// rectangle.
pub proof fn lemma_triangles_cover(line: &BboxLine, offset: u32, r: (Vec<Vertex>, Vec<u32>))
    requires
        line.words@.len() > 0,
        offset + 3 <= u32::MAX,
        call_ensures(BboxLine::to_vertices, (line, offset), r),
    ensures
        r.1@.len() == 6,
        r.1@.take(3).to_set() == set![offset, (offset + 1) as u32, (offset + 2) as u32],
        r.1@.skip(3).to_set() == set![(offset + 3) as u32, (offset + 1) as u32, (offset + 2) as u32],
        r.1@[0] - offset == 0,
        r.1@[1] - offset == 1,
        r.1@[2] - offset == 2,
        r.1@[3] - offset == 2,
        r.1@[4] - offset == 1,
        r.1@[5] - offset == 3,
{
    let first = r.1@.take(3);
    let second = r.1@.skip(3);
    let one = (offset + 1) as u32;
    let two = (offset + 2) as u32;
    let three = (offset + 3) as u32;
    assert(first[0] == offset && first[1] == one && first[2] == two);
    assert(second[0] == two && second[1] == one && second[2] == three);
    assert forall|v: u32| first.to_set().contains(v) <==> set![offset, one, two].contains(v) by {
        assert(first.to_set().contains(v) <==> first.contains(v));
        assert(first.contains(v) <==> v == first[0] || v == first[1] || v == first[2]);
    }
    assert forall|v: u32| second.to_set().contains(v) <==> set![three, one, two].contains(v) by {
        assert(second.to_set().contains(v) <==> second.contains(v));
        assert(second.contains(v) <==> v == second[0] || v == second[1] || v == second[2]);
    }
    assert(first.to_set() =~= set![offset, one, two]);
    assert(second.to_set() =~= set![three, one, two]);
}

/// Moving the corners among the vertices moves each corner of each triangle by the same
/// distance, and leaves the corners themselves as they are.
pub proof fn lemma_triangles_move(
    line: &BboxLine,
    here: u32,
    there: u32,
    from_here: (Vec<Vertex>, Vec<u32>),
    from_there: (Vec<Vertex>, Vec<u32>),
    k: int,
)
    requires
        line.words@.len() > 0,
        here + 3 <= u32::MAX,
        there + 3 <= u32::MAX,
        call_ensures(BboxLine::to_vertices, (line, here), from_here),
        call_ensures(BboxLine::to_vertices, (line, there), from_there),
        0 <= k < 6,
    ensures
        from_there.1@[k] - from_here.1@[k] == there - here,
        from_there.0@ == from_here.0@,
{
}

/// The corners of a background are white, and come in the order top left, top right,
/// bottom left, bottom right.
pub proof fn lemma_background_corners(
    line: &BboxLine,
    offset: u32,
    r: (Vec<Vertex>, Vec<u32>),
    min: PixelPoint,
    max: PixelPoint,
    k: int,
)
    requires
        line.words@.len() > 0,
        offset + 3 <= u32::MAX,
        call_ensures(BboxLine::to_vertices, (line, offset), r),
        call_ensures(BboxLine::get_min, (line,), min),
        call_ensures(BboxLine::get_max, (line,), max),
        0 <= k < 4,
    ensures
        r.0@.len() == 4,
        r.0@[k].position.x == (if k % 2 == 0 {
            min.x
        } else {
            max.x
        }),
        r.0@[k].position.y == (if k < 2 {
            min.y
        } else {
            max.y
        }),
        r.0@[k].color.r.bits == 0x3F80_0000,
        r.0@[k].color.g.bits == 0x3F80_0000,
        r.0@[k].color.b.bits == 0x3F80_0000,
{
}

/// Placing glyphs moves a word's box to the last glyph that was laid out for it, and a
/// word without glyph stays where it is. Nothing else changes.
pub proof fn lemma_word_placed(line: BboxLineView, glyphs: Seq<GlyphBounds>, i: int, k: int)
    requires
        0 <= i < line.words.len(),
        -1 <= k < glyphs.len(),
        k >= 0 ==> glyphs[k].section_index == i,
        forall|j: int| k < j < glyphs.len() ==> (#[trigger] glyphs[j]).section_index != i,
    ensures
        line.placed(glyphs).is_highlighted == line.is_highlighted,
        line.placed(glyphs).words.len() == line.words.len(),
        k < 0 ==> line.placed(glyphs).words[i] == line.words[i],
        k >= 0 ==> line.placed(glyphs).words[i].min == glyphs[k].min,
        k >= 0 ==> line.placed(glyphs).words[i].max == glyphs[k].max,
        line.placed(glyphs).words[i].text == line.words[i].text,
        line.placed(glyphs).words[i].is_highlighted == line.words[i].is_highlighted,
        line.placed(glyphs).words[i].confidence == line.words[i].confidence,
        line.placed(glyphs).words[i].language == line.words[i].language,
{
    lemma_last_glyph_at(glyphs, i, k);
}

/// The last glyph of a word, by its position.
proof fn lemma_last_glyph_at(glyphs: Seq<GlyphBounds>, i: int, k: int)
    requires
        -1 <= k < glyphs.len(),
        k >= 0 ==> glyphs[k].section_index == i,
        forall|j: int| k < j < glyphs.len() ==> (#[trigger] glyphs[j]).section_index != i,
    ensures
        last_glyph(glyphs, i) == (if k >= 0 {
            Some(glyphs[k])
        } else {
            None
        }),
    decreases glyphs.len(),
{
    if glyphs.len() > 0 && k < glyphs.len() - 1 {
        assert(glyphs[glyphs.len() - 1].section_index != i);
        let rest = glyphs.drop_last();
        assert forall|j: int| k < j < rest.len() implies (#[trigger] rest[j]).section_index != i by {
            assert(rest[j] == glyphs[j]);
        }
        lemma_last_glyph_at(rest, i, k);
    }
}

/// A point has the coordinates that it was made with.
pub proof fn lemma_new_point(x: Binary32, y: Binary32, r: PixelPoint)
    requires
        call_ensures(PixelPoint::new, (x, y), r),
    ensures
        r.x.bits == x.bits,
        r.y.bits == y.bits,
{
}

/// `highlight` marks a word exactly if `is_within_bounds` holds of it, and changes
/// nothing else of it.
pub proof fn lemma_word_highlight(
    word: &mut BboxWord,
    position: PixelPoint,
    inside: bool,
)
    requires
        call_ensures(BboxWord::is_within_bounds, (old(word), position), inside),
        call_ensures(BboxWord::highlight, (word, position), ()),
    ensures
        final(word).is_highlighted == inside,
        final(word).text@ == old(word).text@,
        final(word).min == old(word).min,
        final(word).max == old(word).max,
        final(word).confidence == old(word).confidence,
        final(word).language == old(word).language,
{
    let after = final(word)@;
    assert(after.text == final(word).text@ && after.min == final(word).min && after.max
        == final(word).max);
    assert(after.is_highlighted == final(word).is_highlighted);
    assert(after.confidence == final(word).confidence && after.language == final(word).language);
}

/// `highlight` marks each word of a line exactly if `is_within_bounds` holds of the
/// word, and changes nothing else of the line.
pub proof fn lemma_line_highlight(
    line: &mut BboxLine,
    position: PixelPoint,
    i: int,
    inside: bool,
)
    requires
        0 <= i < old(line).words@.len(),
        call_ensures(BboxWord::is_within_bounds, (&old(line).words@[i], position), inside),
        call_ensures(BboxLine::highlight, (line, position), ()),
    ensures
        final(line).is_highlighted == old(line).is_highlighted,
        final(line).words@.len() == old(line).words@.len(),
        final(line).words@[i]@ == (BboxWordView {
            is_highlighted: inside,
            ..old(line).words@[i]@
        }),
{
    let before = old(line)@;
    let after = final(line)@;
    assert(after.is_highlighted == final(line).is_highlighted);
    assert(after.words.len() == final(line).words@.len());
    assert(after.words[i] == final(line).words@[i]@);
    assert(before.words[i] == old(line).words@[i]@);
}

/// `place_glyphs` moves the box of each word to the last glyph that was laid out for
/// it, leaves a word without glyph where it is, and changes nothing else of the line.
pub proof fn lemma_glyphs_placed(
    line: &mut BboxLine,
    glyphs: &Vec<GlyphBounds>,
    i: int,
    k: int,
)
    requires
        forall|g: int|
            0 <= g < glyphs@.len() ==> (#[trigger] glyphs@[g]).section_index < old(
                line,
            ).words@.len(),
        call_ensures(BboxLine::place_glyphs, (line, glyphs), ()),
        0 <= i < old(line).words@.len(),
        -1 <= k < glyphs@.len(),
        k >= 0 ==> glyphs@[k].section_index == i,
        forall|g: int| k < g < glyphs@.len() ==> (#[trigger] glyphs@[g]).section_index != i,
    ensures
        final(line).is_highlighted == old(line).is_highlighted,
        final(line).words@.len() == old(line).words@.len(),
        final(line).words@[i]@ == (if k < 0 {
            old(line).words@[i]@
        } else {
            BboxWordView { min: glyphs@[k].min, max: glyphs@[k].max, ..old(line).words@[i]@ }
        }),
{
    let before = old(line)@;
    let after = final(line)@;
    lemma_word_placed(before, glyphs@, i, k);
    assert(after.is_highlighted == final(line).is_highlighted);
    assert(after.words.len() == final(line).words@.len());
    assert(after.words[i] == final(line).words@[i]@);
    assert(before.words[i] == old(line).words@[i]@);
}

} // verus!
