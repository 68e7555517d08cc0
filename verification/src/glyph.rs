//! Glyphs at a fixed size, as the font backend hands them over.

use crate::element::{filled_path, filled_path_attributes, path_attributes};
use crate::geometry::{fits, OutOfRange, Rect};
use crate::recorder::{
    commands, lemma_one_letter_per_event, lemma_outline_points_shift, lemma_outline_text_begins,
    lemma_outline_text_step, occurrences, outline_points, outline_text, Builder, Segment,
};
use svg::node::element::Path;
use vstd::prelude::*;

verus! {

/// What the font backend knows of one glyph at one size: the events of its
/// outline in order, and its exact bounding box if it has one.
#[derive(Clone, Debug)]
pub struct ScaledGlyph {
    pub outline: Vec<Segment>,
    pub bounding_box: Option<Rect>,
}

impl ScaledGlyph {
    /// Feeds the events of the outline to a recorder, in order.
    pub fn build_outline(&self, builder: &mut Builder<'_>)
        ensures
            final(builder).x == old(builder).x,
            final(builder).y == old(builder).y,
            final(builder).data() == old(builder).data() + outline_text(
                self.outline@,
                old(builder).x as int,
                old(builder).y as int,
            ),
            *final(final(builder).d) == *final(old(builder).d),
    {
        let n: usize = self.outline.len();
        let mut i: usize = 0;
        while i < n
            invariant
                n == self.outline.len(),
                i <= n,
                builder.x == old(builder).x,
                builder.y == old(builder).y,
                builder.data() == old(builder).data() + outline_text(
                    self.outline@.take(i as int),
                    old(builder).x as int,
                    old(builder).y as int,
                ),
                *final(builder.d) == *final(old(builder).d),
            decreases n - i,
        {
            proof {
                lemma_outline_text_step(
                    self.outline@,
                    old(builder).x as int,
                    old(builder).y as int,
                    i + 1,
                );
            }
            builder.record(self.outline[i]);
            i += 1;
        }
        assert(self.outline@.take(n as int) =~= self.outline@);
    }
}

/// Whether `least` is the least horizontal coordinate among the points.
pub open spec fn least_x(points: Seq<(int, int)>, least: int) -> bool {
    &&& exists|i: int| 0 <= i < points.len() && #[trigger] points[i].0 == least
    &&& forall|i: int| 0 <= i < points.len() ==> least <= #[trigger] points[i].0
}

/// Whether `least` is the least vertical coordinate among the points.
pub open spec fn least_y(points: Seq<(int, int)>, least: int) -> bool {
    &&& exists|i: int| 0 <= i < points.len() && #[trigger] points[i].1 == least
    &&& forall|i: int| 0 <= i < points.len() ==> least <= #[trigger] points[i].1
}

/// A glyph that has a bounding box.
#[derive(Clone, Debug)]
pub struct Glyph {
    pub scaled: ScaledGlyph,
    pub bounding_box: Rect,
}

impl Glyph {
    /// The box that the glyph carries is the one its backend data reports.
    pub open spec fn wf(&self) -> bool {
        self.scaled.bounding_box == Some(self.bounding_box)
    }

    /// The path data of the glyph when its box's least corner is put at
    /// `(x, y)`.
    pub open spec fn path_text(&self, x: int, y: int) -> Seq<char> {
        outline_text(
            self.scaled.outline@,
            x - self.bounding_box.min.x,
            y - self.bounding_box.min.y,
        )
    }

    /// Whether the glyph can be put with its box's least corner at `(x, y)`.
    pub open spec fn can_anchor_at(&self, x: int, y: int) -> bool {
        fits(x - self.bounding_box.min.x) && fits(y - self.bounding_box.min.y)
    }

    /// The points that the glyph's path data holds when its box's least
    /// corner is put at `(x, y)`.
    pub open spec fn path_points(&self, x: int, y: int) -> Seq<(int, int)> {
        outline_points(
            self.scaled.outline@,
            x - self.bounding_box.min.x,
            y - self.bounding_box.min.y,
        )
    }

    /// The least corner of the box is exact: the outline has a point as far
    /// left as the box reaches and none further, and likewise upwards.
    pub open spec fn min_is_exact(&self) -> bool {
        &&& least_x(outline_points(self.scaled.outline@, 0, 0), self.bounding_box.min.x as int)
        &&& least_y(outline_points(self.scaled.outline@, 0, 0), self.bounding_box.min.y as int)
    }

    /// Whether the outline begins a contour before it draws anything.
    pub open spec fn begins_with_move(&self) -> bool {
        self.scaled.outline@.len() > 0 && self.scaled.outline@[0] is MoveTo
    }

    /// Takes a glyph from the backend's data. There is none where the
    /// backend reports no bounding box.
    pub fn new(scaled: ScaledGlyph) -> (glyph: Option<Glyph>)
        ensures
            match glyph {
                Some(g) => g.scaled == scaled && g.wf(),
                None => scaled.bounding_box is None,
            },
    {
        match scaled.bounding_box {
            Some(bounding_box) => Some(Glyph { scaled, bounding_box }),
            None => None,
        }
    }

    /// Appends the glyph's path data to `d`, with the least corner of its
    /// box at `(x, y)`. Fails, and leaves `d` as it was, where the shift
    /// that this takes is out of range.
    pub fn write_path(&self, x: i64, y: i64, d: &mut String) -> (result: Result<(), OutOfRange>)
        ensures
            result is Ok <==> self.can_anchor_at(x as int, y as int),
            result is Ok ==> final(d)@ == old(d)@ + self.path_text(x as int, y as int),
            result is Err ==> final(d)@ == old(d)@,
    {
        let dx: i128 = x as i128 - self.bounding_box.min.x as i128;
        let dy: i128 = y as i128 - self.bounding_box.min.y as i128;
        if dx < i64::MIN as i128 || dx > i64::MAX as i128 || dy < i64::MIN as i128 || dy
            > i64::MAX as i128 {
            return Err(OutOfRange);
        }
        let mut builder = Builder::new(dx as i64, dy as i64, d);
        self.scaled.build_outline(&mut builder);
        Ok(())
    }

    /// The glyph as a filled `path` element, with the least corner of its
    /// box at `(x, y)`.
    pub fn path(&self, x: i64, y: i64) -> (result: Result<Path, OutOfRange>)
        ensures
            result is Ok <==> self.can_anchor_at(x as int, y as int),
            result matches Ok(path) ==> path_attributes(path) == filled_path_attributes(
                self.path_text(x as int, y as int),
            ),
    {
        let mut d = String::new();
        match self.write_path(x, y, &mut d) {
            Ok(()) => Ok(filled_path(d)),
            Err(e) => Err(e),
        }
    }
}

/// The path data of a glyph whose outline begins a contour begins with an
/// `M`, and it holds one `Z` for each contour that the outline closes.
pub proof fn lemma_path_begins_with_move_and_closes_contours(glyph: Glyph, x: int, y: int)
    requires
        glyph.begins_with_move(),
    ensures
        glyph.path_text(x, y).len() > 0,
        glyph.path_text(x, y)[0] == 'M',
        occurrences(glyph.path_text(x, y), 'Z') == commands(glyph.scaled.outline@, 'Z'),
{
    let dx = x - glyph.bounding_box.min.x;
    let dy = y - glyph.bounding_box.min.y;
    lemma_outline_text_begins(glyph.scaled.outline@, dx, dy);
    lemma_one_letter_per_event(glyph.scaled.outline@, dx, dy, 'Z');
}

/// Anchoring: where the least corner of a glyph's box is exact, the least
/// coordinates in the path data written for `(x, y)` are `x` and `y`; for
/// the origin they are zero.
pub proof fn lemma_path_is_anchored(glyph: Glyph, x: int, y: int)
    requires
        glyph.min_is_exact(),
    ensures
        least_x(glyph.path_points(x, y), x),
        least_y(glyph.path_points(x, y), y),
{
    let dx = x - glyph.bounding_box.min.x;
    let dy = y - glyph.bounding_box.min.y;
    let plain = outline_points(glyph.scaled.outline@, 0, 0);
    let moved = glyph.path_points(x, y);
    lemma_outline_points_shift(glyph.scaled.outline@, dx, dy);
    let i = choose|i: int| 0 <= i < plain.len() && #[trigger] plain[i].0 == glyph.bounding_box.min.x;
    assert(moved[i].0 == x);
    let j = choose|j: int| 0 <= j < plain.len() && #[trigger] plain[j].1 == glyph.bounding_box.min.y;
    assert(moved[j].1 == y);
    assert forall|k: int| 0 <= k < moved.len() implies x <= #[trigger] moved[k].0 by {
        assert(glyph.bounding_box.min.x <= plain[k].0);
    }
    assert forall|k: int| 0 <= k < moved.len() implies y <= #[trigger] moved[k].1 by {
        assert(glyph.bounding_box.min.y <= plain[k].1);
    }
}

} // verus!
