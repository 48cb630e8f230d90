//! Pixel-art sources for the scene canvas.
//!
//! A `.px` image is text: one row of palette characters per line, `#` lines are
//! comments, `.` is transparent. The grammar is strict so that a malformed asset is
//! found while it is being drawn, not when a scene breaks.

use vstd::prelude::*;
use crate::lookup::{find_first, lemma_first_is, lemma_first_none, lemma_first_facts};

verus! {

/// The six colors available to sprites.
#[derive(Clone, Copy, Debug, Eq, PartialEq, Structural)]
pub enum Pixel {
    Black,
    White,
    Green,
    Violet,
    Orange,
    Blue,
}

/// What a palette character stands for: `Some(None)` for the transparent `.`,
/// `Some(Some(p))` for a color, `None` for anything else.
pub open spec fn palette(ch: char) -> Option<Option<Pixel>> {
    if ch == '.' {
        Some(None)
    } else if ch == 'K' {
        Some(Some(Pixel::Black))
    } else if ch == 'W' {
        Some(Some(Pixel::White))
    } else if ch == 'G' {
        Some(Some(Pixel::Green))
    } else if ch == 'V' {
        Some(Some(Pixel::Violet))
    } else if ch == 'O' {
        Some(Some(Pixel::Orange))
    } else if ch == 'B' {
        Some(Some(Pixel::Blue))
    } else {
        None
    }
}

impl Pixel {
    /// Parses one palette character. `.` is transparent and is therefore `Some(None)`.
    pub fn from_char(ch: char) -> (r: Option<Option<Pixel>>)
        ensures
            r == palette(ch),
    {
        match ch {
            '.' => Some(None),
            'K' => Some(Some(Pixel::Black)),
            'W' => Some(Some(Pixel::White)),
            'G' => Some(Some(Pixel::Green)),
            'V' => Some(Some(Pixel::Violet)),
            'O' => Some(Some(Pixel::Orange)),
            'B' => Some(Some(Pixel::Blue)),
            _ => None,
        }
    }

    /// The source-file character for this palette entry.
    pub fn as_char(self) -> (r: char)
        ensures
            palette(r) == Some(Some(self)),
    {
        match self {
            Pixel::Black => 'K',
            Pixel::White => 'W',
            Pixel::Green => 'G',
            Pixel::Violet => 'V',
            Pixel::Orange => 'O',
            Pixel::Blue => 'B',
        }
    }
}

/// Why a `.px` source was rejected. Lines and columns count from one.
#[derive(Clone, Debug, Eq, PartialEq, Structural)]
pub enum PxError {
    Empty,
    EmptyRow { line: usize },
    RaggedRow { line: usize, expected: usize, actual: usize },
    InvalidPixel { line: usize, column: usize, found: char },
    TooLarge,
}

// ---------------------------------------------------------------------------------------
// The grammar.

/// The newline character.
pub open spec fn newline() -> spec_fn(char) -> bool {
    |c: char| c == '\n'
}

/// A line without the carriage return of a `\r\n` ending.
pub open spec fn strip_cr(l: Seq<char>) -> Seq<char> {
    if l.len() > 0 && l.last() == '\r' { l.drop_last() } else { l }
}

/// A comment line.
pub open spec fn is_comment(l: Seq<char>) -> bool {
    l.len() > 0 && l[0] == '#'
}

/// Length of the first line of `s`: the position of its first `\n`, or all of `s`.
pub open spec fn line_len(s: Seq<char>) -> nat
    decreases s.len(),
{
    if s.len() == 0 {
        0
    } else if s[0] == '\n' {
        0
    } else {
        1 + line_len(s.drop_first())
    }
}

proof fn lemma_line_len(s: Seq<char>, i: int)
    requires
        0 <= i <= s.len(),
        forall|k: int| 0 <= k < i ==> s[k] != '\n',
        i == s.len() || s[i] == '\n',
    ensures
        line_len(s) == i,
    decreases i,
{
    if i > 0 {
        assert forall|k: int| 0 <= k < i - 1 implies s.drop_first()[k] != '\n' by {
            assert(s.drop_first()[k] == s[k + 1]);
        }
        lemma_line_len(s.drop_first(), i - 1);
    }
}

pub proof fn lemma_line_len_bound(s: Seq<char>)
    ensures
        line_len(s) <= s.len(),
    decreases s.len(),
{
    if s.len() > 0 && s[0] != '\n' {
        lemma_line_len_bound(s.drop_first());
    }
}

/// The non-comment lines of `s`, numbered from `line`, split as `str::lines` splits them:
/// at `\n` or `\r\n`, with no empty line after a final line ending.
#[verifier::opaque]
pub open spec fn rows_from(s: Seq<char>, line: int) -> Seq<(int, Seq<char>)>
    decreases s.len(),
{
    if s.len() == 0 {
        seq![]
    } else {
        proof { lemma_line_len_bound(s); }
        let i = line_len(s) as int;
        if i == s.len() {
            if is_comment(s) { seq![] } else { seq![(line, s)] }
        } else {
            let l = strip_cr(s.subrange(0, i));
            let tail = rows_from(s.subrange(i + 1, s.len() as int), line + 1);
            if is_comment(l) { tail } else { seq![(line, l)] + tail }
        }
    }
}

/// The pixel rows of a source, each with its zero-based line index.
pub open spec fn rows_of(s: Seq<char>) -> Seq<(int, Seq<char>)> {
    rows_from(s, 0)
}

/// A character that is not in the palette.
pub open spec fn off_palette() -> spec_fn(char) -> bool {
    |c: char| palette(c) is None
}

/// What is wrong with one row of an image `width` pixels wide, if anything.
pub open spec fn row_error(row: (int, Seq<char>), width: int) -> Option<PxError> {
    let (line, text) = row;
    if text.len() == 0 {
        Some(PxError::EmptyRow { line: (line + 1) as usize })
    } else if text.len() != width {
        Some(PxError::RaggedRow { line: (line + 1) as usize, expected: width as usize, actual: text.len() as usize })
    } else {
        match find_first(text, off_palette()) {
            Some(j) => Some(PxError::InvalidPixel { line: (line + 1) as usize, column: (j + 1) as usize, found: text[j] }),
            None => None,
        }
    }
}

/// The first problem among rows `k..`.
pub open spec fn first_row_error(rows: Seq<(int, Seq<char>)>, width: int, k: int) -> Option<PxError>
    decreases rows.len() - k,
{
    if k < 0 || k >= rows.len() {
        None
    } else {
        match row_error(rows[k], width) {
            Some(e) => Some(e),
            None => first_row_error(rows, width, k + 1),
        }
    }
}

/// Why source `s` is rejected, if it is: no rows; an empty first row; more than 256
/// columns or rows; then the first bad row.
pub open spec fn px_error(s: Seq<char>) -> Option<PxError> {
    let rows = rows_of(s);
    if rows.len() == 0 {
        Some(PxError::Empty)
    } else if rows[0].1.len() == 0 {
        Some(PxError::EmptyRow { line: (rows[0].0 + 1) as usize })
    } else if rows[0].1.len() > 256 || rows.len() > 256 {
        Some(PxError::TooLarge)
    } else {
        first_row_error(rows, rows[0].1.len() as int, 0)
    }
}

/// A parsed image. Pixels are row-major and `None` is transparent.
#[derive(Debug, Eq, PartialEq)]
pub struct PxImage {
    width: u16,
    height: u16,
    pixels: Vec<Option<Pixel>>,
}

impl PxImage {
    /// Width in pixels.
    pub closed spec fn w(self) -> int {
        self.width as int
    }

    /// Height in pixels.
    pub closed spec fn h(self) -> int {
        self.height as int
    }

    /// The pixel at column `x` of row `y`, for a position inside the image.
    pub closed spec fn at(self, x: int, y: int) -> Option<Pixel> {
        self.pixels@[y * self.width + x]
    }

    /// The image holds exactly `w * h` pixels, at most 256 by 256.
    #[verifier::type_invariant]
    pub closed spec fn wf(self) -> bool {
        &&& self.pixels@.len() == self.width * self.height
        &&& self.width <= 256
        &&& self.height <= 256
    }

    /// The image the rows of a valid source describe.
    pub open spec fn depicts(self, s: Seq<char>) -> bool {
        let rows = rows_of(s);
        &&& self.wf()
        &&& self.w() == rows[0].1.len()
        &&& self.h() == rows.len()
        &&& forall|x: int, y: int| 0 <= x < self.w() && 0 <= y < self.h() ==>
            Some(#[trigger] self.at(x, y)) == palette(rows[y].1[x])
    }
}


/// The rows that `spans` mark out in `s`: (line index, start, end) of each.
pub open spec fn spans_text(s: Seq<char>, spans: Seq<(usize, usize, usize)>) -> Seq<(int, Seq<char>)> {
    spans.map_values(|p: (usize, usize, usize)| (p.0 as int, s.subrange(p.1 as int, p.2 as int)))
}

/// The line starting at `start`: where its text ends and where the next line starts.
fn line_at(source: &str, start: usize) -> (r: (usize, usize))
    requires
        start < source@.len(),
    ensures
        start <= r.0 <= r.1 <= source@.len(),
        r.1 > start,
        forall|line: int| #[trigger] rows_from(source@.subrange(start as int, source@.len() as int), line) ==
            (if is_comment(source@.subrange(start as int, r.0 as int)) { seq![] } else { seq![(line, source@.subrange(start as int, r.0 as int))] })
            + rows_from(source@.subrange(r.1 as int, source@.len() as int), line + 1),
{
    let n = source.unicode_len();
    let ghost s = source@;
    let ghost sub = s.subrange(start as int, n as int);
    let mut j: usize = start;
    while j < n && source.get_char(j) != '\n'
        invariant
            start <= j <= n,
            n == s.len(),
            s == source@,
            sub == s.subrange(start as int, n as int),
            forall|i: int| 0 <= i < j - start ==> sub[i] != '\n',
        decreases n - j,
    {
        j = j + 1;
    }
    proof { lemma_line_len(sub, (j - start) as int); }
    let mut end = j;
    let next: usize;
    if j < n {
        if end > start && source.get_char(end - 1) == '\r' {
            end = end - 1;
        }
        assert(strip_cr(sub.subrange(0, (j - start) as int)) =~= s.subrange(start as int, end as int));
        assert(sub.subrange((j - start + 1) as int, sub.len() as int) =~= s.subrange(j + 1, n as int));
        next = j + 1;
    } else {
        assert(sub =~= s.subrange(start as int, end as int));
        next = n;
    }
    proof {
        reveal(rows_from);
        assert forall|line: int| #[trigger] rows_from(sub, line) ==
            (if is_comment(s.subrange(start as int, end as int)) { seq![] } else { seq![(line, s.subrange(start as int, end as int))] })
            + rows_from(s.subrange(next as int, n as int), line + 1) by {
            if j == n {
                assert(s.subrange(n as int, n as int) =~= Seq::<char>::empty());
                assert(rows_from(s.subrange(n as int, n as int), line + 1) =~= Seq::<(int, Seq<char>)>::empty());
            }
        }
    }
    (end, next)
}

/// Marks out the non-comment lines of `source`.
fn row_spans(source: &str) -> (r: Vec<(usize, usize, usize)>)
    ensures
        source@.len() <= usize::MAX,
        spans_text(source@, r@) == rows_of(source@),
        forall|k: int| 0 <= k < r@.len() ==> (#[trigger] r@[k]).1 <= r@[k].2 <= source@.len() && r@[k].0 < source@.len(),
{
    let n = source.unicode_len();
    let ghost s = source@;
    let mut spans: Vec<(usize, usize, usize)> = Vec::new();
    let mut start: usize = 0;
    let mut line: usize = 0;
    assert(s.subrange(0, n as int) =~= s);
    assert(spans_text(s, spans@) =~= Seq::<(int, Seq<char>)>::empty());
    assert(rows_of(s) =~= spans_text(s, spans@) + rows_from(s.subrange(start as int, n as int), line as int));
    while start < n
        invariant
            n == s.len(),
            s == source@,
            start <= n,
            line <= start,
            rows_of(s) == spans_text(s, spans@) + rows_from(s.subrange(start as int, n as int), line as int),
            forall|k: int| 0 <= k < spans@.len() ==> (#[trigger] spans@[k]).1 <= spans@[k].2 <= n && spans@[k].0 < n,
        decreases n - start,
    {
        let (end, next) = line_at(source, start);
        let comment = end > start && source.get_char(start) == '#';
        assert(comment == is_comment(s.subrange(start as int, end as int)));
        let ghost before = spans@;
        let ghost rest = rows_from(s.subrange(next as int, n as int), line + 1);
        assert(rows_from(s.subrange(start as int, n as int), line as int) ==
            (if comment { seq![] } else { seq![(line as int, s.subrange(start as int, end as int))] }) + rest);
        if !comment {
            spans.push((line, start, end));
            assert(spans_text(s, spans@) =~= spans_text(s, before) + seq![(line as int, s.subrange(start as int, end as int))]);
            assert(rows_of(s) =~= spans_text(s, spans@) + rest);
        } else {
            assert(rows_of(s) =~= spans_text(s, spans@) + rest);
        }
        start = next;
        line = line + 1;
    }
    proof {
        reveal(rows_from);
        assert(s.subrange(n as int, n as int) =~= Seq::<char>::empty());
    }
    assert(rows_of(s) =~= spans_text(s, spans@));
    spans
}


proof fn lemma_cell_index(y: int, x: int, k: int, w: int)
    requires
        0 <= y < k,
        0 <= x < w,
    ensures
        0 <= y * w + x < k * w,
        y * w + x < (y + 1) * w,
        (y + 1) * w <= k * w,
{
    assert(0 <= y * w) by (nonlinear_arith) requires 0 <= y, 0 <= w;
    assert((y + 1) * w == y * w + w) by (nonlinear_arith);
    assert((y + 1) * w <= k * w) by (nonlinear_arith) requires y + 1 <= k, 0 <= w;
}

proof fn lemma_first_row_error_step(rows: Seq<(int, Seq<char>)>, width: int, k: int)
    requires
        0 <= k < rows.len(),
        row_error(rows[k], width) is None,
    ensures
        first_row_error(rows, width, k) == first_row_error(rows, width, k + 1),
{
}

impl PxImage {
    /// Parses a `.px` source. Comment rows begin with `#`; blank rows are not valid pixels.
    #[verifier::rlimit(40)]
    pub fn parse(source: &str) -> (r: Result<PxImage, PxError>)
        ensures
            match px_error(source@) {
                Some(e) => r == Err::<PxImage, PxError>(e),
                None => r matches Ok(img) && img.depicts(source@),
            },
    {
        let spans = row_spans(source);
        let ghost s = source@;
        let ghost rows = rows_of(s);
        assert(rows.len() == spans@.len());
        if spans.len() == 0 {
            return Err(PxError::Empty);
        }
        let (l0, a0, b0) = spans[0];
        assert(rows[0] == (l0 as int, s.subrange(a0 as int, b0 as int)));
        let width = b0 - a0;
        if width == 0 {
            return Err(PxError::EmptyRow { line: l0 + 1 });
        }
        if width > 256 || spans.len() > 256 {
            return Err(PxError::TooLarge);
        }
        let mut pixels: Vec<Option<Pixel>> = Vec::new();
        let mut k: usize = 0;
        while k < spans.len()
            invariant
                s == source@,
                rows == rows_of(s),
                rows == spans_text(s, spans@),
                forall|q: int| 0 <= q < spans@.len() ==> (#[trigger] spans@[q]).1 <= spans@[q].2 <= s.len() && spans@[q].0 < s.len(),
                1 <= width <= 256,
                spans@.len() <= 256,
                s.len() <= usize::MAX,
                k <= spans@.len(),
                px_error(s) == first_row_error(rows, width as int, k as int),
                pixels@.len() == k * width,
                forall|y: int, x: int| 0 <= y < k && 0 <= x < width ==>
                    Some(#[trigger] pixels@[y * width + x]) == palette(rows[y].1[x]),
            decreases spans@.len() - k,
        {
            let (line, a, b) = spans[k];
            assert(rows[k as int] == (line as int, s.subrange(a as int, b as int)));
            assert(spans@[k as int].0 < s.len());
            let actual = b - a;
            if actual == 0 {
                return Err(PxError::EmptyRow { line: line + 1 });
            }
            if actual != width {
                return Err(PxError::RaggedRow { line: line + 1, expected: width, actual });
            }
            let ghost text = s.subrange(a as int, b as int);
            let ghost base = pixels@.len();
            let ghost prev = pixels@;
            let mut c: usize = 0;
            while c < width
                invariant
                    s == source@,
                    text == s.subrange(a as int, b as int),
                    a + width == b,
                    b <= s.len(),
                    c <= width,
                    base == k * width,
                    pixels@.len() == base + c,
                    forall|i: int| 0 <= i < c ==> !#[trigger] off_palette()(text[i]),
                    prev.len() == base,
                    forall|i: int| 0 <= i < base ==> #[trigger] pixels@[i] == prev[i],
                    forall|i: int| 0 <= i < c ==> Some(#[trigger] pixels@[base + i]) == palette(text[i]),
                    px_error(s) == first_row_error(rows, width as int, k as int),
                    k < rows.len(),
                    rows[k as int] == (line as int, text),
                    text.len() == width,
                    line < s.len(),
                    s.len() <= usize::MAX,
                decreases width - c,
            {
                let ch = source.get_char(a + c);
                assert(ch == text[c as int]);
                match Pixel::from_char(ch) {
                    None => {
                        proof { lemma_first_is(text, off_palette(), c as int); }
                        return Err(PxError::InvalidPixel { line: line + 1, column: c + 1, found: ch });
                    },
                    Some(p) => {
                        pixels.push(p);
                    },
                }
                c = c + 1;
            }
            proof {
                lemma_first_none(text, off_palette());
                lemma_first_row_error_step(rows, width as int, k as int);
                assert forall|y: int, x: int| 0 <= y < k + 1 && 0 <= x < width implies
                    Some(#[trigger] pixels@[y * width + x]) == palette(rows[y].1[x]) by {
                    if y < k {
                        lemma_cell_index(y, x, k as int, width as int);
                        assert(pixels@[y * width + x] == prev[y * width + x]);
                    } else {
                        assert(y * width + x == base + x);
                        assert(rows[y].1 == text);
                    }
                }
                assert((k + 1) * width == k * width + width) by (nonlinear_arith);
            }
            k = k + 1;
        }
        let w16 = width as u16;
        let h16 = spans.len() as u16;
        assert(w16 == width && h16 == k);
        assert(k * width == width * k) by (nonlinear_arith);
        assert(pixels@.len() == w16 * h16);
        let img = PxImage { width: w16, height: h16, pixels };
        assert(img.depicts(s));
        Ok(img)
    }
}


impl PxImage {
    /// Width in pixels.
    pub fn width(&self) -> (r: u16)
        ensures
            r == self.w(),
    {
        self.width
    }

    /// Height in pixels.
    pub fn height(&self) -> (r: u16)
        ensures
            r == self.h(),
    {
        self.height
    }

    /// Height in terminal cells: two pixel rows share one cell.
    pub fn cell_height(&self) -> (r: u16)
        ensures
            r == (self.h() + 1) / 2,
    {
        proof { use_type_invariant(self); }
        (self.height + 1) / 2
    }

    /// The pixel at source coordinates, or `None` when outside the image or transparent.
    pub fn pixel(&self, x: u16, y: u16) -> (r: Option<Pixel>)
        ensures
            r == if x < self.w() && y < self.h() { self.at(x as int, y as int) } else { None },
    {
        proof { use_type_invariant(self); }
        if x >= self.width || y >= self.height {
            return None;
        }
        proof { lemma_cell_index(y as int, x as int, self.height as int, self.width as int); }
        let row = y as usize;
        let w = self.width as usize;
        assert(row * w <= 256 * 256) by (nonlinear_arith) requires row <= 256, w <= 256;
        assert((self.height as int) * (self.width as int) == (self.width as int) * (self.height as int)) by (nonlinear_arith);
        self.pixels[row * w + x as usize]
    }
}

/// Terminal palette selected by the player's color-mode setting.
#[derive(Clone, Copy, Debug, Eq, PartialEq, Structural)]
pub enum ColorMode {
    TrueColor,
    Ansi256,
    Ansi16,
    Mono,
}

impl Default for ColorMode {
    fn default() -> (r: Self)
        ensures
            r == ColorMode::TrueColor,
    {
        ColorMode::TrueColor
    }
}

/// Brightness rank of a palette color, from black up to white.
pub open spec fn brightness(p: Pixel) -> u8 {
    match p {
        Pixel::Black => 0,
        Pixel::Blue => 1,
        Pixel::Violet => 2,
        Pixel::Green | Pixel::Orange => 3,
        Pixel::White => 4,
    }
}

/// The glyph that stands for a color in monochrome: darker colors, lighter shades.
pub open spec fn glyph_of(p: Pixel) -> Seq<char> {
    match p {
        Pixel::Black => " "@,
        Pixel::Blue => "\u{2591}"@,
        Pixel::Violet => "\u{2592}"@,
        Pixel::Green | Pixel::Orange => "\u{2593}"@,
        Pixel::White => "\u{2588}"@,
    }
}

impl ColorMode {
    /// The monochrome glyph for a color.
    pub fn mono_glyph(pixel: Pixel) -> (r: &'static str)
        ensures
            r@ == glyph_of(pixel),
    {
        match pixel {
            Pixel::Black => " ",
            Pixel::Blue => "\u{2591}",
            Pixel::Violet => "\u{2592}",
            Pixel::Green | Pixel::Orange => "\u{2593}",
            Pixel::White => "\u{2588}",
        }
    }
}

/// Brightness rank of a palette color, used to pick which of two stacked pixels shows in
/// monochrome.
pub fn mono_level(pixel: Pixel) -> (r: u8)
    ensures
        r == brightness(pixel),
{
    match pixel {
        Pixel::Black => 0,
        Pixel::Blue => 1,
        Pixel::Violet => 2,
        Pixel::Green | Pixel::Orange => 3,
        Pixel::White => 4,
    }
}

} // verus!
