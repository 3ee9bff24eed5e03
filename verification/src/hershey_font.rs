use vstd::prelude::*;
use vstd::string::StringSliceAdditionalSpecFns;
use crate::plottable::{PlotPoint, polylines};

verus! {

/// A stroke font: its glyphs, in the order of their character codes from the
/// space on, and the least and greatest height that any stroke reaches.
pub struct HersheyFont {
    pub top: i32,
    pub bottom: i32,
    pub glyphs: Vec<HersheyGlyph>,
}

/// One glyph: between which horizontal positions it stands and the strokes
/// that draw it.
pub struct HersheyGlyph {
    pub left: i32,
    pub right: i32,
    pub paths: Vec<Vec<PlotPoint>>,
}

/// What a glyph stands for: its bounds and the points of its strokes.
pub struct GlyphView {
    pub left: int,
    pub right: int,
    pub paths: Seq<Seq<PlotPoint>>,
}

/// What a font stands for: its extent and what its glyphs stand for.
pub struct FontView {
    pub top: int,
    pub bottom: int,
    pub glyphs: Seq<GlyphView>,
}

impl View for HersheyGlyph {
    type V = GlyphView;

    open spec fn view(&self) -> GlyphView {
        GlyphView {
            left: self.left as int,
            right: self.right as int,
            paths: polylines(self.paths),
        }
    }
}

impl View for HersheyFont {
    type V = FontView;

    open spec fn view(&self) -> FontView {
        FontView {
            top: self.top as int,
            bottom: self.bottom as int,
            glyphs: glyph_views(self.glyphs@),
        }
    }
}

/// What each of the glyphs stands for.
pub open spec fn glyph_views(glyphs: Seq<HersheyGlyph>) -> Seq<GlyphView> {
    Seq::new(glyphs.len(), |i: int| glyphs[i]@)
}

/// The number that a character of a glyph line stands for: its distance
/// from the letter R.
pub open spec fn char_code(c: char) -> int {
    c as int - 'R' as int
}

/// The number that a character of a glyph line stands for.
pub fn char_to_int(c: &char) -> (code: i32)
    ensures
        code == char_code(*c),
{
    (*c as u32) as i32 - ('R' as u32) as i32
}

/// The number that a byte of a glyph line stands for: its distance from the
/// letter R.
pub open spec fn coordinate(b: u8) -> int {
    b as int - 82
}

/// White space that may surround a number: a space, a tab, a line feed, a
/// vertical tab, a form feed or a carriage return.
pub open spec fn is_blank(b: u8) -> bool {
    b == 32 || 9 <= b <= 13
}

/// A decimal digit.
pub open spec fn is_digit(b: u8) -> bool {
    48 <= b <= 57
}

/// `text` without the blanks at its start.
pub open spec fn trim_start(text: Seq<u8>) -> Seq<u8>
    decreases text.len(),
{
    if text.len() > 0 && is_blank(text[0]) {
        trim_start(text.drop_first())
    } else {
        text
    }
}

/// `text` without the blanks at its end.
pub open spec fn trim_end(text: Seq<u8>) -> Seq<u8>
    decreases text.len(),
{
    if text.len() > 0 && is_blank(text.last()) {
        trim_end(text.drop_last())
    } else {
        text
    }
}

/// `text` without a plus sign at its start.
pub open spec fn unsigned(text: Seq<u8>) -> Seq<u8> {
    if text.len() > 0 && text[0] == 43 {
        text.drop_first()
    } else {
        text
    }
}

/// Every byte of `text` is a decimal digit.
pub open spec fn all_digits(text: Seq<u8>) -> bool {
    forall|i: int| 0 <= i < text.len() ==> is_digit(#[trigger] text[i])
}

/// The number that a row of decimal digits stands for.
pub open spec fn digits_value(digits: Seq<u8>) -> int
    decreases digits.len(),
{
    if digits.len() == 0 {
        0
    } else {
        digits_value(digits.drop_last()) * 10 + (digits.last() - 48)
    }
}

/// The number in a field of a glyph line: blanks around it are skipped and a
/// plus sign may stand before its digits. There is none in a field that
/// holds anything else, or no digit at all.
pub open spec fn field_number(field: Seq<u8>) -> Option<int> {
    let digits = unsigned(trim_end(trim_start(field)));
    if digits.len() > 0 && all_digits(digits) {
        Some(digits_value(digits))
    } else {
        None
    }
}

/// The strokes read so far from the coordinate pairs of a glyph: those that
/// are complete and the one that is being drawn.
pub struct Strokes {
    pub done: Seq<Seq<PlotPoint>>,
    pub current: Seq<PlotPoint>,
}

/// The strokes that a row of coordinate pairs describes. The pair of a space
/// and the letter R lifts the pen: it ends the stroke that is being drawn.
/// Where no stroke is being drawn that pair is a point like any other.
pub open spec fn strokes(pairs: Seq<u8>) -> Strokes
    decreases pairs.len(),
{
    if pairs.len() < 2 {
        Strokes { done: Seq::empty(), current: Seq::empty() }
    } else {
        let before = strokes(pairs.subrange(0, pairs.len() - 2));
        let first = pairs[pairs.len() - 2];
        let second = pairs[pairs.len() - 1];
        if first == 32 && second == 82 && before.current.len() > 0 {
            Strokes { done: before.done.push(before.current), current: Seq::empty() }
        } else {
            Strokes {
                done: before.done,
                current: before.current.push(
                    PlotPoint { x: coordinate(first) as i32, y: coordinate(second) as i32 },
                ),
            }
        }
    }
}

/// The strokes of a glyph: those that the pairs complete, and the one that
/// is being drawn when the pairs end.
pub open spec fn paths_of(pairs: Seq<u8>) -> Seq<Seq<PlotPoint>> {
    let read = strokes(pairs);
    if read.current.len() > 0 {
        read.done.push(read.current)
    } else {
        read.done
    }
}

/// Every byte of `text` is an ASCII character.
pub open spec fn all_ascii(text: Seq<u8>) -> bool {
    forall|i: int| 0 <= i < text.len() ==> #[trigger] text[i] < 128
}

/// The glyph that a line of a font file describes, if the line is well
/// formed. A line holds five bytes that are not read, the number of
/// coordinate pairs in a field of three bytes, and then the pairs, two ASCII
/// bytes each. The first pair gives the glyph's left and right bounds, the
/// others its strokes. What follows the last pair is not read.
pub open spec fn glyph_of(line: Seq<u8>) -> Option<GlyphView> {
    if line.len() < 10 {
        None
    } else {
        match field_number(line.subrange(5, 8)) {
            None => None,
            Some(count) => if count < 1 || line.len() < 8 + 2 * count || !all_ascii(
                line.subrange(8, 8 + 2 * count),
            ) {
                None
            } else {
                Some(
                    GlyphView {
                        left: coordinate(line[8]),
                        right: coordinate(line[9]),
                        paths: paths_of(line.subrange(10, 8 + 2 * count)),
                    },
                )
            },
        }
    }
}

fn blank(b: u8) -> (r: bool)
    ensures
        r == is_blank(b),
{
    b == 32 || (9 <= b && b <= 13)
}

/// Reads the number in the three bytes of `bytes` from `at` on.
fn parse_field(bytes: &[u8], at: usize) -> (number: Option<u32>)
    requires
        at + 3 <= bytes@.len(),
    ensures
        number is Some <==> field_number(bytes@.subrange(at as int, at + 3)) is Some,
        number is Some ==> field_number(bytes@.subrange(at as int, at + 3)) == Some(
            number->0 as int,
        ) && number->0 <= 999,
{
    let len: usize = bytes.len();
    let end: usize = at + 3;
    let ghost field = bytes@.subrange(at as int, end as int);
    let mut lo: usize = at;
    while lo < end && blank(bytes[lo])
        invariant
            at <= lo <= end <= bytes@.len(),
            trim_start(field) == trim_start(bytes@.subrange(lo as int, end as int)),
        decreases end - lo,
    {
        assert(bytes@.subrange(lo as int, end as int).drop_first() =~= bytes@.subrange(
            lo + 1,
            end as int,
        ));
        lo = lo + 1;
    }
    assert(trim_start(field) == bytes@.subrange(lo as int, end as int));
    let mut hi: usize = end;
    while lo < hi && blank(bytes[hi - 1])
        invariant
            at <= lo <= hi <= end <= bytes@.len(),
            trim_end(trim_start(field)) == trim_end(bytes@.subrange(lo as int, hi as int)),
        decreases hi - lo,
    {
        assert(bytes@.subrange(lo as int, hi as int).drop_last() =~= bytes@.subrange(
            lo as int,
            hi - 1,
        ));
        hi = hi - 1;
    }
    assert(trim_end(trim_start(field)) == bytes@.subrange(lo as int, hi as int));
    if lo < hi && bytes[lo] == 43 {
        assert(bytes@.subrange(lo as int, hi as int).drop_first() =~= bytes@.subrange(
            lo + 1,
            hi as int,
        ));
        lo = lo + 1;
    }
    let ghost digits = bytes@.subrange(lo as int, hi as int);
    assert(digits == unsigned(trim_end(trim_start(field))));
    if lo == hi {
        return None;
    }
    let mut value: u32 = 0;
    let mut i: usize = lo;
    while i < hi
        invariant
            lo <= i <= hi <= end,
            hi - lo <= 3,
            end <= bytes@.len(),
            digits == bytes@.subrange(lo as int, hi as int),
            digits == unsigned(trim_end(trim_start(field))),
            field == bytes@.subrange(at as int, at + 3),
            all_digits(digits.take(i - lo)),
            value == digits_value(digits.take(i - lo)),
            i - lo <= 0 ==> value == 0,
            i - lo <= 1 ==> value <= 9,
            i - lo <= 2 ==> value <= 99,
            value <= 999,
        decreases hi - i,
    {
        let b = bytes[i];
        if !(48 <= b && b <= 57) {
            assert(!is_digit(digits[i - lo]));
            return None;
        }
        assert(digits.take(i - lo + 1).drop_last() =~= digits.take(i - lo));
        assert(digits.take(i - lo + 1).last() == b);
        value = value * 10 + (b - 48) as u32;
        i = i + 1;
    }
    assert(digits.take(i - lo) =~= digits);
    Some(value)
}

/// Reads the glyph that the bytes of `bytes` from `start` up to `end`
/// describe.
fn parse_glyph(bytes: &[u8], start: usize, end: usize) -> (glyph: Option<HersheyGlyph>)
    requires
        start <= end <= bytes@.len(),
    ensures
        glyph is Some <==> glyph_of(bytes@.subrange(start as int, end as int)) is Some,
        glyph is Some ==> glyph_of(bytes@.subrange(start as int, end as int)) == Some(glyph->0@),
{
    let len: usize = bytes.len();
    let ghost line = bytes@.subrange(start as int, end as int);
    if end - start < 10 {
        return None;
    }
    assert(line.subrange(5, 8) =~= bytes@.subrange(start + 5, start + 5 + 3));
    let count: u32 = match parse_field(bytes, start + 5) {
        Some(count) => count,
        None => {
            return None;
        },
    };
    if count < 1 {
        return None;
    }
    let num_pairs: usize = (count - 1) as usize;
    if (end - start - 10) / 2 < num_pairs {
        return None;
    }
    let ghost stop = 8 + 2 * count;
    assert(stop == 10 + 2 * num_pairs);

    if bytes[start + 8] >= 128 || bytes[start + 9] >= 128 {
        assert(line.subrange(8, stop)[0] == bytes@[start + 8]);
        assert(line.subrange(8, stop)[1] == bytes@[start + 9]);
        return None;
    }
    let left = char_to_int(&(bytes[start + 8] as char));
    let right = char_to_int(&(bytes[start + 9] as char));

    let mut paths: Vec<Vec<PlotPoint>> = Vec::new();
    let mut path: Vec<PlotPoint> = Vec::new();

    assert(polylines(paths) =~= Seq::empty());
    assert(line.subrange(10, 10).len() == 0);
    let mut i: usize = 0;
    while i < num_pairs
        invariant
            i <= num_pairs,
            start + 10 + 2 * num_pairs <= end <= bytes@.len(),
            line == bytes@.subrange(start as int, end as int),
            stop == 10 + 2 * num_pairs,
            stop == 8 + 2 * count,
            field_number(line.subrange(5, 8)) == Some(count as int),
            forall|k: int| 8 <= k < 10 + 2 * i ==> #[trigger] line[k] < 128,
            strokes(line.subrange(10, 10 + 2 * i)) == (Strokes {
                done: polylines(paths),
                current: path@,
            }),
        decreases num_pairs - i,
    {
        let first = bytes[start + 10 + 2 * i];
        let second = bytes[start + 11 + 2 * i];
        if first >= 128 || second >= 128 {
            assert(line.subrange(8, stop)[2 + 2 * i] == first);
            assert(line.subrange(8, stop)[3 + 2 * i] == second);
            return None;
        }
        let ghost read = line.subrange(10, 10 + 2 * (i + 1));
        assert(read.subrange(0, read.len() - 2) =~= line.subrange(10, 10 + 2 * i));
        assert(read[read.len() - 2] == first);
        assert(read[read.len() - 1] == second);
        if first == 32 && second == 82 && path.len() > 0 {
            let ghost finished = path@;
            let ghost before = polylines(paths);
            paths.push(path);
            path = Vec::new();
            assert(polylines(paths) =~= before.push(finished));
        } else {
            path.push(
                PlotPoint {
                    x: char_to_int(&(first as char)),
                    y: char_to_int(&(second as char)),
                },
            )
        }
        i = i + 1;
    }

    if path.len() > 0 {
        let ghost finished = path@;
        let ghost before = polylines(paths);
        paths.push(path);
        assert(polylines(paths) =~= before.push(finished));
    }
    assert(all_ascii(line.subrange(8, stop)));
    assert(line.subrange(10, 10 + 2 * num_pairs) == line.subrange(10, stop));

    Some(HersheyGlyph { left, right, paths })
}

/// Reads a glyph from a line of a font file. There is none where the line is
/// not well formed.
pub fn line_to_hershey_glyph(line: &str) -> (glyph: Option<HersheyGlyph>)
    ensures
        glyph is Some <==> glyph_of(line.spec_bytes()) is Some,
        glyph is Some ==> glyph_of(line.spec_bytes()) == Some(glyph->0@),
{
    let bytes = line.as_bytes();
    assert(bytes@.subrange(0, bytes@.len() as int) =~= bytes@);
    parse_glyph(bytes, 0, bytes.len())
}

/// The lines of a text: the stretches between its line feeds. A text without
/// a line feed is one line, and so is the empty text.
pub open spec fn lines(bytes: Seq<u8>) -> Seq<Seq<u8>>
    decreases bytes.len(),
{
    if bytes.len() == 0 {
        seq![Seq::empty()]
    } else {
        let before = lines(bytes.drop_last());
        if bytes.last() == 10 {
            before.push(Seq::empty())
        } else {
            before.drop_last().push(before.last().push(bytes.last()))
        }
    }
}

/// The glyphs of the lines that are not empty, in order; none at all if one
/// of these lines is not well formed.
pub open spec fn glyphs_of(lines: Seq<Seq<u8>>) -> Option<Seq<GlyphView>>
    decreases lines.len(),
{
    if lines.len() == 0 {
        Some(Seq::empty())
    } else {
        match glyphs_of(lines.drop_last()) {
            None => None,
            Some(glyphs) => if lines.last().len() == 0 {
                Some(glyphs)
            } else {
                match glyph_of(lines.last()) {
                    None => None,
                    Some(glyph) => Some(glyphs.push(glyph)),
                }
            },
        }
    }
}

/// The smaller of two numbers.
pub open spec fn least(a: int, b: int) -> int {
    if a <= b {
        a
    } else {
        b
    }
}

/// The larger of two numbers.
pub open spec fn greatest(a: int, b: int) -> int {
    if a >= b {
        a
    } else {
        b
    }
}

/// The least height on a stroke; the greatest number of 32 bits if it has no
/// point.
pub open spec fn path_top(path: Seq<PlotPoint>) -> int
    decreases path.len(),
{
    if path.len() == 0 {
        i32::MAX as int
    } else {
        least(path_top(path.drop_last()), path.last().y as int)
    }
}

/// The greatest height on a stroke; the least number of 32 bits if it has no
/// point.
pub open spec fn path_bottom(path: Seq<PlotPoint>) -> int
    decreases path.len(),
{
    if path.len() == 0 {
        i32::MIN as int
    } else {
        greatest(path_bottom(path.drop_last()), path.last().y as int)
    }
}

/// The least height on any of the strokes.
pub open spec fn paths_top(paths: Seq<Seq<PlotPoint>>) -> int
    decreases paths.len(),
{
    if paths.len() == 0 {
        i32::MAX as int
    } else {
        least(paths_top(paths.drop_last()), path_top(paths.last()))
    }
}

/// The greatest height on any of the strokes.
pub open spec fn paths_bottom(paths: Seq<Seq<PlotPoint>>) -> int
    decreases paths.len(),
{
    if paths.len() == 0 {
        i32::MIN as int
    } else {
        greatest(paths_bottom(paths.drop_last()), path_bottom(paths.last()))
    }
}

/// The least height that any glyph reaches.
pub open spec fn font_top(glyphs: Seq<GlyphView>) -> int
    decreases glyphs.len(),
{
    if glyphs.len() == 0 {
        i32::MAX as int
    } else {
        least(font_top(glyphs.drop_last()), paths_top(glyphs.last().paths))
    }
}

/// The greatest height that any glyph reaches.
pub open spec fn font_bottom(glyphs: Seq<GlyphView>) -> int
    decreases glyphs.len(),
{
    if glyphs.len() == 0 {
        i32::MIN as int
    } else {
        greatest(font_bottom(glyphs.drop_last()), paths_bottom(glyphs.last().paths))
    }
}

/// The font that the text of a font file describes: one glyph for each line
/// that is not empty, and the extent of all their strokes. There is none if
/// one of these lines is not well formed.
pub open spec fn font_of(bytes: Seq<u8>) -> Option<FontView> {
    match glyphs_of(lines(bytes)) {
        None => None,
        Some(glyphs) => Some(
            FontView { top: font_top(glyphs), bottom: font_bottom(glyphs), glyphs },
        ),
    }
}

fn path_extent(path: &Vec<PlotPoint>) -> (extent: (i32, i32))
    ensures
        extent.0 == path_top(path@),
        extent.1 == path_bottom(path@),
{
    let mut top: i32 = i32::MAX;
    let mut bottom: i32 = i32::MIN;
    let mut i: usize = 0;
    while i < path.len()
        invariant
            i <= path.len(),
            top == path_top(path@.take(i as int)),
            bottom == path_bottom(path@.take(i as int)),
        decreases path.len() - i,
    {
        assert(path@.take(i + 1).drop_last() =~= path@.take(i as int));
        let y = path[i].y;
        if y < top {
            top = y;
        }
        if y > bottom {
            bottom = y;
        }
        i = i + 1;
    }
    assert(path@.take(i as int) =~= path@);
    (top, bottom)
}

fn paths_extent(paths: &Vec<Vec<PlotPoint>>) -> (extent: (i32, i32))
    ensures
        extent.0 == paths_top(polylines(*paths)),
        extent.1 == paths_bottom(polylines(*paths)),
{
    let ghost all = polylines(*paths);
    let mut top: i32 = i32::MAX;
    let mut bottom: i32 = i32::MIN;
    let mut i: usize = 0;
    while i < paths.len()
        invariant
            i <= paths.len(),
            all == polylines(*paths),
            top == paths_top(all.take(i as int)),
            bottom == paths_bottom(all.take(i as int)),
        decreases paths.len() - i,
    {
        assert(all.take(i + 1).drop_last() =~= all.take(i as int));
        assert(all.take(i + 1).last() == paths@[i as int]@);
        let (path_top, path_bottom) = path_extent(&paths[i]);
        if path_top < top {
            top = path_top;
        }
        if path_bottom > bottom {
            bottom = path_bottom;
        }
        i = i + 1;
    }
    assert(all.take(i as int) =~= all);
    (top, bottom)
}

impl HersheyFont {
    /// Reads a font from the text of a font file: one glyph from each line
    /// that is not empty. There is no font where one of these lines is not
    /// well formed.
    pub fn new(contents: &str) -> (font: Option<HersheyFont>)
        ensures
            font is Some <==> font_of(contents.spec_bytes()) is Some,
            font is Some ==> font_of(contents.spec_bytes()) == Some(font->0@),
    {
        let bytes = contents.as_bytes();
        let len: usize = bytes.len();
        let mut glyphs: Vec<HersheyGlyph> = Vec::new();
        let mut well_formed = true;
        let ghost mut done: Seq<Seq<u8>> = Seq::empty();
        let mut line_start: usize = 0;
        let mut pos: usize = 0;
        assert(bytes@.take(0) =~= Seq::empty());
        assert(done.push(bytes@.subrange(0, 0)) =~= seq![Seq::empty()]);
        assert(glyph_views(glyphs@) =~= Seq::empty());
        while pos < len
            invariant
                line_start <= pos <= len,
                len == bytes@.len(),
                lines(bytes@.take(pos as int)) == done.push(
                    bytes@.subrange(line_start as int, pos as int),
                ),
                well_formed ==> glyphs_of(done) == Some(glyph_views(glyphs@)),
                !well_formed ==> glyphs_of(done) is None,
            decreases len - pos,
        {
            assert(bytes@.take(pos + 1).drop_last() =~= bytes@.take(pos as int));
            if bytes[pos] == 10 {
                let ghost line = bytes@.subrange(line_start as int, pos as int);
                assert(done.push(line).drop_last() =~= done);
                if well_formed && pos > line_start {
                    match parse_glyph(bytes, line_start, pos) {
                        Some(glyph) => {
                            let ghost before = glyph_views(glyphs@);
                            glyphs.push(glyph);
                            assert(glyph_views(glyphs@) =~= before.push(glyph@));
                        },
                        None => {
                            well_formed = false;
                        },
                    }
                }
                proof {
                    done = done.push(line);
                }
                line_start = pos + 1;
                assert(bytes@.subrange(line_start as int, pos + 1) =~= Seq::empty());
            } else {
                assert(bytes@.subrange(line_start as int, pos as int).push(bytes@[pos as int])
                    =~= bytes@.subrange(line_start as int, pos + 1));
                assert(done.push(bytes@.subrange(line_start as int, pos as int)).drop_last().push(
                    bytes@.subrange(line_start as int, pos as int).push(bytes@[pos as int]),
                ) =~= done.push(bytes@.subrange(line_start as int, pos + 1)));
            }
            pos = pos + 1;
        }
        assert(bytes@.take(pos as int) =~= bytes@);
        let ghost line = bytes@.subrange(line_start as int, pos as int);
        assert(done.push(line).drop_last() =~= done);
        if well_formed && pos > line_start {
            match parse_glyph(bytes, line_start, pos) {
                Some(glyph) => {
                    let ghost before = glyph_views(glyphs@);
                    glyphs.push(glyph);
                    assert(glyph_views(glyphs@) =~= before.push(glyph@));
                },
                None => {
                    well_formed = false;
                },
            }
        }
        if !well_formed {
            return None;
        }
        let ghost views = glyph_views(glyphs@);
        assert(glyphs_of(lines(bytes@)) == Some(views));

        let mut top: i32 = i32::MAX;
        let mut bottom: i32 = i32::MIN;
        let mut i: usize = 0;
        while i < glyphs.len()
            invariant
                i <= glyphs.len(),
                views == glyph_views(glyphs@),
                top == font_top(views.take(i as int)),
                bottom == font_bottom(views.take(i as int)),
            decreases glyphs.len() - i,
        {
            assert(views.take(i + 1).drop_last() =~= views.take(i as int));
            let (glyph_top, glyph_bottom) = paths_extent(&glyphs[i].paths);
            if glyph_top < top {
                top = glyph_top;
            }
            if glyph_bottom > bottom {
                bottom = glyph_bottom;
            }
            i = i + 1;
        }
        assert(views.take(i as int) =~= views);

        Some(HersheyFont { top, bottom, glyphs })
    }

    /// The glyph for a character. The glyphs stand in the order of the
    /// character codes, beginning with the space.
    pub fn get_glyph(&self, glyph: char) -> (found: &HersheyGlyph)
        requires
            32 <= glyph as int,
            glyph as int - 32 < self.glyphs@.len(),
        ensures
            *found == self.glyphs@[glyph as int - 32],
    {
        &self.glyphs[(glyph as usize) - 32]
    }
}

/// No stroke of a font leaves its extent: every point of every glyph lies
/// between the font's top and its bottom.
pub proof fn lemma_strokes_within_extent(glyphs: Seq<GlyphView>, g: int, p: int, k: int)
    requires
        0 <= g < glyphs.len(),
        0 <= p < glyphs[g].paths.len(),
        0 <= k < glyphs[g].paths[p].len(),
    ensures
        font_top(glyphs) <= glyphs[g].paths[p][k].y <= font_bottom(glyphs),
    decreases glyphs.len(),
{
    if g == glyphs.len() - 1 {
        lemma_paths_extent(glyphs[g].paths, p, k);
    } else {
        lemma_strokes_within_extent(glyphs.drop_last(), g, p, k);
    }
}

proof fn lemma_paths_extent(paths: Seq<Seq<PlotPoint>>, p: int, k: int)
    requires
        0 <= p < paths.len(),
        0 <= k < paths[p].len(),
    ensures
        paths_top(paths) <= paths[p][k].y <= paths_bottom(paths),
    decreases paths.len(),
{
    if p == paths.len() - 1 {
        lemma_path_extent(paths[p], k);
    } else {
        lemma_paths_extent(paths.drop_last(), p, k);
    }
}

proof fn lemma_path_extent(path: Seq<PlotPoint>, k: int)
    requires
        0 <= k < path.len(),
    ensures
        path_top(path) <= path[k].y <= path_bottom(path),
    decreases path.len(),
{
    if k < path.len() - 1 {
        lemma_path_extent(path.drop_last(), k);
    }
}

} // verus!
