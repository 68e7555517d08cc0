//! The layout of a run of glyphs along one baseline.

use crate::element::{filled_path, filled_path_attributes, path_attributes};
use crate::geometry::{fits, Point};
use crate::glyph::ScaledGlyph;
use crate::recorder::{outline_text, Builder};
use svg::node::element::Path;
use vstd::prelude::*;

verus! {

/// The vertical extent of a font at one size: how far its glyphs reach above
/// the baseline, and how far below (as a rule a negative number).
#[derive(Clone, Copy, Debug, PartialEq, Eq, Structural)]
pub struct VMetrics {
    pub ascent: i64,
    pub descent: i64,
}

impl VMetrics {
    /// The height of the block that a run of glyphs takes.
    pub open spec fn height(&self) -> int {
        self.ascent - self.descent
    }
}

/// Why a run could not be laid out.
#[derive(Clone, Copy, Debug, PartialEq, Eq, Structural)]
pub enum LayoutError {
    /// The glyph at this place in the run has no bounding box.
    MissingBoundingBox { index: usize },
    /// A coordinate of the result is no 64-bit integer.
    OutOfRange,
}

/// The path data of a run and the place of the cursor behind it, for a
/// cursor that starts at `x` and a block of the given height.
///
/// Each glyph is recorded with the cursor's place and the block's height
/// added to the least corner of its box; the cursor then moves on by the
/// width of the box and by the letter spacing. The first glyph that has no
/// box, or that takes a coordinate out of range, fails the run.
pub open spec fn run(glyphs: Seq<ScaledGlyph>, x: int, height: int, letter_spacing: int) -> Result<
    (Seq<char>, int),
    LayoutError,
>
    decreases glyphs.len(),
{
    if glyphs.len() == 0 {
        Ok((Seq::empty(), x))
    } else {
        match run(glyphs.drop_last(), x, height, letter_spacing) {
            Err(e) => Err(e),
            Ok((d, cursor)) => match glyphs.last().bounding_box {
                None => Err(LayoutError::MissingBoundingBox { index: (glyphs.len() - 1) as usize }),
                Some(b) => if fits(cursor + b.min.x) && fits(height + b.min.y) && fits(
                    cursor + b.width() + letter_spacing,
                ) {
                    Ok(
                        (
                            d + outline_text(
                                glyphs.last().outline@,
                                cursor + b.min.x,
                                height + b.min.y,
                            ),
                            cursor + b.width() + letter_spacing,
                        ),
                    )
                } else {
                    Err(LayoutError::OutOfRange)
                },
            },
        }
    }
}

/// What laying out a run gives: its path data, and the point whose `x` is
/// the cursor behind the last glyph and whose `y` is the height of the
/// block.
pub open spec fn layout_outcome(
    metrics: VMetrics,
    glyphs: Seq<ScaledGlyph>,
    start: Point,
    letter_spacing: int,
) -> Result<(Seq<char>, Point), LayoutError> {
    if !fits(metrics.height()) {
        Err(LayoutError::OutOfRange)
    } else {
        match run(glyphs, start.x as int, metrics.height(), letter_spacing) {
            Ok((d, cursor)) => Ok((d, Point { x: cursor as i64, y: metrics.height() as i64 })),
            Err(e) => Err(e),
        }
    }
}

/// A run that fails keeps failing, in the same way, however it goes on.
pub proof fn lemma_run_failure_stays(
    glyphs: Seq<ScaledGlyph>,
    n: int,
    x: int,
    height: int,
    letter_spacing: int,
)
    requires
        0 <= n <= glyphs.len(),
        run(glyphs.take(n), x, height, letter_spacing) is Err,
    ensures
        run(glyphs, x, height, letter_spacing) == run(glyphs.take(n), x, height, letter_spacing),
    decreases glyphs.len(),
{
    if n == glyphs.len() {
        assert(glyphs.take(n) =~= glyphs);
    } else {
        assert(glyphs.drop_last().take(n) =~= glyphs.take(n));
        lemma_run_failure_stays(glyphs.drop_last(), n, x, height, letter_spacing);
    }
}

/// The cursor behind a run that succeeds is in range, where the cursor
/// before it was.
pub proof fn lemma_run_cursor_fits(
    glyphs: Seq<ScaledGlyph>,
    x: int,
    height: int,
    letter_spacing: int,
)
    requires
        fits(x),
    ensures
        run(glyphs, x, height, letter_spacing) matches Ok((_, cursor)) ==> fits(cursor),
{
}

/// Monotonic advance: with boxes that are well formed and a letter spacing
/// that is not negative, the cursor never moves back from one glyph to a
/// later one.
pub proof fn lemma_cursor_never_moves_back(
    glyphs: Seq<ScaledGlyph>,
    x: int,
    height: int,
    letter_spacing: int,
    i: int,
    j: int,
)
    requires
        0 <= i <= j <= glyphs.len(),
        letter_spacing >= 0,
        forall|k: int|
            0 <= k < glyphs.len() ==> (#[trigger] glyphs[k].bounding_box matches Some(b) ==> b.wf()),
        run(glyphs.take(j), x, height, letter_spacing) is Ok,
    ensures
        run(glyphs.take(i), x, height, letter_spacing) matches Ok((_, earlier)) && run(
            glyphs.take(j),
            x,
            height,
            letter_spacing,
        ) matches Ok((_, later)) && x <= earlier <= later,
    decreases j,
{
    if j == 0 {
        assert(glyphs.take(0) =~= Seq::<ScaledGlyph>::empty());
    } else {
        assert(glyphs.take(j).drop_last() =~= glyphs.take(j - 1));
        assert(glyphs.take(j).last() == glyphs[j - 1]);
        if i < j {
            lemma_cursor_never_moves_back(glyphs, x, height, letter_spacing, i, j - 1);
        } else {
            lemma_cursor_never_moves_back(glyphs, x, height, letter_spacing, j - 1, j - 1);
        }
    }
}

/// What a run gives that goes on behind another: the path data of the one
/// before it in front of its own, and a failing glyph counted from the
/// beginning of the whole.
pub open spec fn continued(
    d: Seq<char>,
    before: nat,
    rest: Result<(Seq<char>, int), LayoutError>,
) -> Result<(Seq<char>, int), LayoutError> {
    match rest {
        Ok((more, cursor)) => Ok((d + more, cursor)),
        Err(LayoutError::MissingBoundingBox { index }) => Err(
            LayoutError::MissingBoundingBox { index: (before + index) as usize },
        ),
        Err(LayoutError::OutOfRange) => Err(LayoutError::OutOfRange),
    }
}

/// A glyph that is reported as missing its box stands within the run.
pub proof fn lemma_run_failure_index(
    glyphs: Seq<ScaledGlyph>,
    x: int,
    height: int,
    letter_spacing: int,
)
    requires
        glyphs.len() <= usize::MAX,
    ensures
        run(glyphs, x, height, letter_spacing) matches Err(
            LayoutError::MissingBoundingBox { index },
        ) ==> index < glyphs.len() && glyphs[index as int].bounding_box is None,
    decreases glyphs.len(),
{
    if glyphs.len() > 0 {
        lemma_run_failure_index(glyphs.drop_last(), x, height, letter_spacing);
    }
}

/// Additivity of a run: laying out two runs as one gives what laying out
/// the second gives from where the cursor stood behind the first.
pub proof fn lemma_run_additive(
    first: Seq<ScaledGlyph>,
    second: Seq<ScaledGlyph>,
    x: int,
    height: int,
    letter_spacing: int,
)
    requires
        first.len() + second.len() <= usize::MAX,
        run(first, x, height, letter_spacing) is Ok,
    ensures
        run(first, x, height, letter_spacing) matches Ok((d, cursor)) && run(
            first + second,
            x,
            height,
            letter_spacing,
        ) == continued(d, first.len(), run(second, cursor, height, letter_spacing)),
    decreases second.len(),
{
    let (d, cursor) = run(first, x, height, letter_spacing)->Ok_0;
    if second.len() == 0 {
        assert(first + second =~= first);
        assert(d + Seq::<char>::empty() =~= d);
    } else {
        assert((first + second).drop_last() =~= first + second.drop_last());
        lemma_run_additive(first, second.drop_last(), x, height, letter_spacing);
        lemma_run_failure_index(second.drop_last(), cursor, height, letter_spacing);
        match run(second.drop_last(), cursor, height, letter_spacing) {
            Ok((more, at)) => {
                match second.last().bounding_box {
                    Some(b) => {
                        let last = outline_text(second.last().outline@, at + b.min.x, height + b.min.y);
                        assert((d + more) + last =~= d + (more + last));
                    },
                    None => {},
                }
            },
            Err(_) => {},
        }
    }
}

/// What a layout gives that goes on behind another.
pub open spec fn layout_continued(
    d: Seq<char>,
    before: nat,
    rest: Result<(Seq<char>, Point), LayoutError>,
) -> Result<(Seq<char>, Point), LayoutError> {
    match rest {
        Ok((more, end)) => Ok((d + more, end)),
        Err(LayoutError::MissingBoundingBox { index }) => Err(
            LayoutError::MissingBoundingBox { index: (before + index) as usize },
        ),
        Err(LayoutError::OutOfRange) => Err(LayoutError::OutOfRange),
    }
}

/// Additivity: laying out two runs as one gives what laying out the first
/// and then, from the `x` of its end point, the second gives: the same
/// end point, the two path data one behind the other, and the failure of
/// the second as the failure of the whole.
pub proof fn lemma_layout_additive(
    metrics: VMetrics,
    first: Seq<ScaledGlyph>,
    second: Seq<ScaledGlyph>,
    start: Point,
    letter_spacing: int,
    y: i64,
)
    requires
        first.len() + second.len() <= usize::MAX,
        layout_outcome(metrics, first, start, letter_spacing) is Ok,
    ensures
        layout_outcome(metrics, first, start, letter_spacing) matches Ok((d, middle))
            && layout_outcome(metrics, first + second, start, letter_spacing) == layout_continued(
            d,
            first.len(),
            layout_outcome(metrics, second, Point { x: middle.x, y }, letter_spacing),
        ),
{
    lemma_run_cursor_fits(first, start.x as int, metrics.height(), letter_spacing);
    lemma_run_additive(first, second, start.x as int, metrics.height(), letter_spacing);
}

/// Determinism: two layouts of the same run with the same metrics, start
/// and letter spacing give the same path data and the same end point, or
/// fail in the same way.
pub proof fn lemma_layout_is_deterministic(
    metrics: VMetrics,
    glyphs: Seq<ScaledGlyph>,
    start: Point,
    letter_spacing: int,
    one: Result<(String, Point), LayoutError>,
    other: Result<(String, Point), LayoutError>,
)
    requires
        layout_view(one) == layout_outcome(metrics, glyphs, start, letter_spacing),
        layout_view(other) == layout_outcome(metrics, glyphs, start, letter_spacing),
    ensures
        layout_view(one) == layout_view(other),
        one is Ok <==> other is Ok,
        one matches Ok((d, end)) ==> other matches Ok((again, there)) && d@ == again@ && end
            == there,
        one matches Err(e) ==> other == Err::<(String, Point), LayoutError>(e),
{
}

fn narrow(v: i128) -> (result: Option<i64>)
    ensures
        result is Some <==> fits(v as int),
        result matches Some(w) ==> w == v,
{
    if v < i64::MIN as i128 || v > i64::MAX as i128 {
        None
    } else {
        Some(v as i64)
    }
}

/// What a layout holds, with the path data as a sequence of characters.
pub open spec fn layout_view(result: Result<(String, Point), LayoutError>) -> Result<
    (Seq<char>, Point),
    LayoutError,
> {
    match result {
        Ok((d, end)) => Ok((d@, end)),
        Err(e) => Err(e),
    }
}

/// Lays out a run of glyphs from left to right, the cursor starting at
/// `start.x`, and gives the path data of the run with the point behind it.
pub fn layout(
    metrics: VMetrics,
    glyphs: &Vec<ScaledGlyph>,
    start: Point,
    letter_spacing: i64,
) -> (result: Result<(String, Point), LayoutError>)
    ensures
        layout_view(result) == layout_outcome(metrics, glyphs@, start, letter_spacing as int),
{
    let height = match narrow(metrics.ascent as i128 - metrics.descent as i128) {
        Some(height) => height,
        None => {
            return Err(LayoutError::OutOfRange);
        },
    };
    let mut d = String::new();
    let mut x: i64 = start.x;
    let n: usize = glyphs.len();
    let mut i: usize = 0;
    assert(glyphs@.take(0) =~= Seq::<ScaledGlyph>::empty());
    while i < n
        invariant
            n == glyphs.len(),
            i <= n,
            height == metrics.height(),
            run(glyphs@.take(i as int), start.x as int, height as int, letter_spacing as int)
                == Ok::<(Seq<char>, int), LayoutError>((d@, x as int)),
        decreases n - i,
    {
        let glyph = &glyphs[i];
        proof {
            assert(glyphs@.take(i + 1).drop_last() =~= glyphs@.take(i as int));
        }
        let placed = match glyph.bounding_box {
            None => None,
            Some(b) => {
                let dx = narrow(x as i128 + b.min.x as i128);
                let dy = narrow(height as i128 + b.min.y as i128);
                let next = narrow(
                    x as i128 + (b.max.x as i128 - b.min.x as i128) + letter_spacing as i128,
                );
                match (dx, dy, next) {
                    (Some(dx), Some(dy), Some(next)) => Some((dx, dy, next)),
                    _ => {
                        proof {
                            lemma_run_failure_stays(
                                glyphs@,
                                i + 1,
                                start.x as int,
                                height as int,
                                letter_spacing as int,
                            );
                        }
                        return Err(LayoutError::OutOfRange);
                    },
                }
            },
        };
        match placed {
            None => {
                proof {
                    lemma_run_failure_stays(
                        glyphs@,
                        i + 1,
                        start.x as int,
                        height as int,
                        letter_spacing as int,
                    );
                }
                return Err(LayoutError::MissingBoundingBox { index: i });
            },
            Some((dx, dy, next)) => {
                let mut builder = Builder::new(dx, dy, &mut d);
                glyph.build_outline(&mut builder);
                x = next;
            },
        }
        i += 1;
    }
    assert(glyphs@.take(n as int) =~= glyphs@);
    Ok((d, Point { x, y: height }))
}

/// What `text` holds, with the element as its attributes.
pub open spec fn text_view(result: Result<(Path, Point), LayoutError>) -> Result<
    (Map<Seq<char>, Seq<char>>, Point),
    LayoutError,
> {
    match result {
        Ok((path, end)) => Ok((path_attributes(path), end)),
        Err(e) => Err(e),
    }
}

/// What `text` gives: the outcome of the layout, its path data wrapped into
/// the attributes of a filled path.
pub open spec fn text_outcome(
    metrics: VMetrics,
    glyphs: Seq<ScaledGlyph>,
    start: Point,
    letter_spacing: int,
) -> Result<(Map<Seq<char>, Seq<char>>, Point), LayoutError> {
    match layout_outcome(metrics, glyphs, start, letter_spacing) {
        Ok((d, end)) => Ok((filled_path_attributes(d), end)),
        Err(e) => Err(e),
    }
}

/// Lays out a run of glyphs as `layout` does, and gives its path data as a
/// filled `path` element.
pub fn text(metrics: VMetrics, glyphs: &Vec<ScaledGlyph>, start: Point, letter_spacing: i64) -> (result:
    Result<(Path, Point), LayoutError>)
    ensures
        text_view(result) == text_outcome(metrics, glyphs@, start, letter_spacing as int),
{
    match layout(metrics, glyphs, start, letter_spacing) {
        Ok((d, end)) => Ok((filled_path(d), end)),
        Err(e) => Err(e),
    }
}

} // verus!
