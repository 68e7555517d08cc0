//! The outline recorder: turns the events of a glyph's outline into the
//! commands of SVG path data, each coordinate shifted by a fixed offset.

use crate::decimal::{decimal, is_decimal_char, lemma_decimal_chars, push_decimal};
use vstd::prelude::*;

verus! {

/// Calls `String::push`, which appends one character to the string.
#[verifier::external_body]
pub(crate) fn push_char(text: &mut String, c: char)
    ensures
        final(text)@ == old(text)@.push(c),
{
    text.push(c)
}

/// One event of an outline, with its coordinates as the font backend gave
/// them.
#[derive(Clone, Copy, Debug, PartialEq, Eq, Structural)]
pub enum Segment {
    /// Begins a contour at a point.
    MoveTo { x: i64, y: i64 },
    /// A straight line to a point.
    LineTo { x: i64, y: i64 },
    /// A quadratic curve with one control point, then its end point.
    QuadTo { x1: i64, y1: i64, x: i64, y: i64 },
    /// A cubic curve with two control points, then its end point.
    CurveTo { x1: i64, y1: i64, x2: i64, y2: i64, x: i64, y: i64 },
    /// Closes the contour back to where it began.
    Close,
}

/// Two coordinates, separated by a space.
pub open spec fn pair_text(x: int, y: int) -> Seq<char> {
    decimal(x) + seq![' '] + decimal(y)
}

/// The command that begins a contour.
pub open spec fn move_text(x: int, y: int) -> Seq<char> {
    seq!['M'] + pair_text(x, y)
}

/// The command that draws a straight line.
pub open spec fn line_text(x: int, y: int) -> Seq<char> {
    seq!['L'] + pair_text(x, y)
}

/// The command that draws a quadratic curve.
pub open spec fn quad_text(x1: int, y1: int, x: int, y: int) -> Seq<char> {
    seq!['Q'] + pair_text(x1, y1) + seq![','] + pair_text(x, y)
}

/// The command that draws a cubic curve.
pub open spec fn curve_text(x1: int, y1: int, x2: int, y2: int, x: int, y: int) -> Seq<char> {
    seq!['C'] + pair_text(x1, y1) + seq![','] + pair_text(x2, y2) + seq![','] + pair_text(x, y)
}

/// The command that closes a contour.
pub open spec fn close_text() -> Seq<char> {
    seq!['Z']
}

/// The command for one event, every coordinate shifted by `(dx, dy)`.
pub open spec fn segment_text(segment: Segment, dx: int, dy: int) -> Seq<char> {
    match segment {
        Segment::MoveTo { x, y } => move_text(x + dx, y + dy),
        Segment::LineTo { x, y } => line_text(x + dx, y + dy),
        Segment::QuadTo { x1, y1, x, y } => quad_text(x1 + dx, y1 + dy, x + dx, y + dy),
        Segment::CurveTo { x1, y1, x2, y2, x, y } => curve_text(
            x1 + dx,
            y1 + dy,
            x2 + dx,
            y2 + dy,
            x + dx,
            y + dy,
        ),
        Segment::Close => close_text(),
    }
}

/// The path data for a whole outline: the commands of its events in order,
/// with nothing between them.
pub open spec fn outline_text(outline: Seq<Segment>, dx: int, dy: int) -> Seq<char>
    decreases outline.len(),
{
    if outline.len() == 0 {
        Seq::empty()
    } else {
        outline_text(outline.drop_last(), dx, dy) + segment_text(outline.last(), dx, dy)
    }
}

/// The path data of the first `n` events is that of the first `n - 1`
/// followed by the command of the `n`-th.
pub proof fn lemma_outline_text_step(outline: Seq<Segment>, dx: int, dy: int, n: int)
    requires
        0 < n <= outline.len(),
    ensures
        outline_text(outline.take(n), dx, dy) == outline_text(outline.take(n - 1), dx, dy)
            + segment_text(outline[n - 1], dx, dy),
{
    assert(outline.take(n).drop_last() =~= outline.take(n - 1));
}

/// The points that the command of an event holds, in the order in which
/// they are written, each shifted by `(dx, dy)`.
pub open spec fn segment_points(segment: Segment, dx: int, dy: int) -> Seq<(int, int)> {
    match segment {
        Segment::MoveTo { x, y } => seq![(x + dx, y + dy)],
        Segment::LineTo { x, y } => seq![(x + dx, y + dy)],
        Segment::QuadTo { x1, y1, x, y } => seq![(x1 + dx, y1 + dy), (x + dx, y + dy)],
        Segment::CurveTo { x1, y1, x2, y2, x, y } => seq![
            (x1 + dx, y1 + dy),
            (x2 + dx, y2 + dy),
            (x + dx, y + dy),
        ],
        Segment::Close => Seq::empty(),
    }
}

/// The points that the path data of an outline holds, in order.
pub open spec fn outline_points(outline: Seq<Segment>, dx: int, dy: int) -> Seq<(int, int)>
    decreases outline.len(),
{
    if outline.len() == 0 {
        Seq::empty()
    } else {
        outline_points(outline.drop_last(), dx, dy) + segment_points(outline.last(), dx, dy)
    }
}

/// Points as a command holds them: each as two coordinates, with a comma
/// between one point and the next.
pub open spec fn points_text(points: Seq<(int, int)>) -> Seq<char>
    decreases points.len(),
{
    if points.len() == 0 {
        Seq::empty()
    } else if points.len() == 1 {
        pair_text(points[0].0, points[0].1)
    } else {
        points_text(points.drop_last()) + seq![','] + pair_text(points.last().0, points.last().1)
    }
}

/// The command of an event is its letter, followed by its points.
pub proof fn lemma_segment_text_holds_points(segment: Segment, dx: int, dy: int)
    ensures
        segment_text(segment, dx, dy) == seq![command_letter(segment)] + points_text(
            segment_points(segment, dx, dy),
        ),
{
    let points = segment_points(segment, dx, dy);
    let head = seq![command_letter(segment)];
    reveal_with_fuel(points_text, 4);
    match segment {
        Segment::MoveTo { x, y } => {
            assert(segment_text(segment, dx, dy) =~= head + points_text(points));
        },
        Segment::LineTo { x, y } => {
            assert(segment_text(segment, dx, dy) =~= head + points_text(points));
        },
        Segment::QuadTo { x1, y1, x, y } => {
            assert(points.drop_last() =~= seq![(x1 + dx, y1 + dy)]);
            assert(segment_text(segment, dx, dy) =~= head + points_text(points));
        },
        Segment::CurveTo { x1, y1, x2, y2, x, y } => {
            assert(points.drop_last() =~= seq![(x1 + dx, y1 + dy), (x2 + dx, y2 + dy)]);
            assert(points.drop_last().drop_last() =~= seq![(x1 + dx, y1 + dy)]);
            assert(segment_text(segment, dx, dy) =~= head + points_text(points));
        },
        Segment::Close => {
            assert(segment_text(segment, dx, dy) =~= head + points_text(points));
        },
    }
}

/// Shifting an outline shifts each of its points, and neither adds nor drops
/// one.
pub proof fn lemma_outline_points_shift(outline: Seq<Segment>, dx: int, dy: int)
    ensures
        outline_points(outline, dx, dy).len() == outline_points(outline, 0, 0).len(),
        forall|i: int|
            0 <= i < outline_points(outline, 0, 0).len() ==> #[trigger] outline_points(
                outline,
                dx,
                dy,
            )[i] == (
                outline_points(outline, 0, 0)[i].0 + dx,
                outline_points(outline, 0, 0)[i].1 + dy,
            ),
    decreases outline.len(),
{
    if outline.len() > 0 {
        lemma_outline_points_shift(outline.drop_last(), dx, dy);
    }
}

/// The letter of the command that an event is written as.
pub open spec fn command_letter(segment: Segment) -> char {
    match segment {
        Segment::MoveTo { .. } => 'M',
        Segment::LineTo { .. } => 'L',
        Segment::QuadTo { .. } => 'Q',
        Segment::CurveTo { .. } => 'C',
        Segment::Close => 'Z',
    }
}

/// Whether a character is the letter of a command.
pub open spec fn is_command_letter(c: char) -> bool {
    c == 'M' || c == 'L' || c == 'Q' || c == 'C' || c == 'Z'
}

/// How many events of an outline are written with the given letter.
pub open spec fn commands(outline: Seq<Segment>, letter: char) -> nat
    decreases outline.len(),
{
    if outline.len() == 0 {
        0
    } else {
        commands(outline.drop_last(), letter) + if command_letter(outline.last()) == letter {
            1nat
        } else {
            0nat
        }
    }
}

/// How often a character occurs in a text.
pub open spec fn occurrences(text: Seq<char>, c: char) -> nat
    decreases text.len(),
{
    if text.len() == 0 {
        0
    } else {
        occurrences(text.drop_last(), c) + if text.last() == c {
            1nat
        } else {
            0nat
        }
    }
}

/// A character occurs in two texts put together as often as in the one and
/// in the other.
pub proof fn lemma_occurrences_concat(a: Seq<char>, b: Seq<char>, c: char)
    ensures
        occurrences(a + b, c) == occurrences(a, c) + occurrences(b, c),
    decreases b.len(),
{
    if b.len() == 0 {
        assert(a + b =~= a);
    } else {
        assert((a + b).drop_last() =~= a + b.drop_last());
        lemma_occurrences_concat(a, b.drop_last(), c);
    }
}

/// A character that a text does not hold occurs in it no times.
pub proof fn lemma_occurrences_absent(text: Seq<char>, c: char)
    requires
        forall|i: int| 0 <= i < text.len() ==> text[i] != c,
    ensures
        occurrences(text, c) == 0,
    decreases text.len(),
{
    if text.len() > 0 {
        lemma_occurrences_absent(text.drop_last(), c);
    }
}

/// A text of one character holds that character once, and no other.
pub proof fn lemma_occurrences_single(a: char, c: char)
    ensures
        occurrences(seq![a], c) == if a == c {
            1nat
        } else {
            0nat
        },
{
    assert(seq![a].drop_last() =~= Seq::<char>::empty());
    assert(occurrences(Seq::<char>::empty(), c) == 0);
}

/// Two coordinates hold no command letter.
pub proof fn lemma_pair_text_letters(x: int, y: int, letter: char)
    requires
        is_command_letter(letter),
    ensures
        occurrences(pair_text(x, y), letter) == 0,
{
    lemma_decimal_chars(x);
    lemma_decimal_chars(y);
    lemma_occurrences_absent(decimal(x), letter);
    lemma_occurrences_absent(decimal(y), letter);
    lemma_occurrences_single(' ', letter);
    lemma_occurrences_concat(decimal(x), seq![' '], letter);
    lemma_occurrences_concat(decimal(x) + seq![' '], decimal(y), letter);
}

/// The command of an event begins with the event's letter and holds no
/// other command letter.
pub proof fn lemma_segment_text_letters(segment: Segment, dx: int, dy: int, letter: char)
    requires
        is_command_letter(letter),
    ensures
        segment_text(segment, dx, dy).len() > 0,
        segment_text(segment, dx, dy)[0] == command_letter(segment),
        occurrences(segment_text(segment, dx, dy), letter) == if command_letter(segment)
            == letter {
            1nat
        } else {
            0nat
        },
{
    let head = seq![command_letter(segment)];
    let comma = seq![','];
    lemma_occurrences_single(command_letter(segment), letter);
    lemma_occurrences_single(',', letter);
    match segment {
        Segment::MoveTo { x, y } => {
            lemma_pair_text_letters(x + dx, y + dy, letter);
            lemma_occurrences_concat(head, pair_text(x + dx, y + dy), letter);
        },
        Segment::LineTo { x, y } => {
            lemma_pair_text_letters(x + dx, y + dy, letter);
            lemma_occurrences_concat(head, pair_text(x + dx, y + dy), letter);
        },
        Segment::QuadTo { x1, y1, x, y } => {
            let first = pair_text(x1 + dx, y1 + dy);
            let end = pair_text(x + dx, y + dy);
            lemma_pair_text_letters(x1 + dx, y1 + dy, letter);
            lemma_pair_text_letters(x + dx, y + dy, letter);
            lemma_occurrences_concat(head, first, letter);
            lemma_occurrences_concat(head + first, comma, letter);
            lemma_occurrences_concat(head + first + comma, end, letter);
        },
        Segment::CurveTo { x1, y1, x2, y2, x, y } => {
            let first = pair_text(x1 + dx, y1 + dy);
            let second = pair_text(x2 + dx, y2 + dy);
            let end = pair_text(x + dx, y + dy);
            lemma_pair_text_letters(x1 + dx, y1 + dy, letter);
            lemma_pair_text_letters(x2 + dx, y2 + dy, letter);
            lemma_pair_text_letters(x + dx, y + dy, letter);
            lemma_occurrences_concat(head, first, letter);
            lemma_occurrences_concat(head + first, comma, letter);
            lemma_occurrences_concat(head + first + comma, second, letter);
            lemma_occurrences_concat(head + first + comma + second, comma, letter);
            lemma_occurrences_concat(head + first + comma + second + comma, end, letter);
        },
        Segment::Close => {},
    }
}

/// Path data holds each command letter once for each event that is written
/// with it: an `M` for each contour begun, a `Z` for each contour closed.
pub proof fn lemma_one_letter_per_event(outline: Seq<Segment>, dx: int, dy: int, letter: char)
    requires
        is_command_letter(letter),
    ensures
        occurrences(outline_text(outline, dx, dy), letter) == commands(outline, letter),
    decreases outline.len(),
{
    if outline.len() > 0 {
        lemma_one_letter_per_event(outline.drop_last(), dx, dy, letter);
        lemma_segment_text_letters(outline.last(), dx, dy, letter);
        lemma_occurrences_concat(
            outline_text(outline.drop_last(), dx, dy),
            segment_text(outline.last(), dx, dy),
            letter,
        );
    }
}

/// The path data of an outline begins with the command of its first event.
pub proof fn lemma_outline_text_begins(outline: Seq<Segment>, dx: int, dy: int)
    requires
        outline.len() > 0,
    ensures
        outline_text(outline, dx, dy).len() > 0,
        outline_text(outline, dx, dy)[0] == command_letter(outline[0]),
    decreases outline.len(),
{
    lemma_segment_text_letters(outline.last(), dx, dy, 'Z');
    let before = outline_text(outline.drop_last(), dx, dy);
    let last = segment_text(outline.last(), dx, dy);
    if outline.len() > 1 {
        lemma_outline_text_begins(outline.drop_last(), dx, dy);
        assert((before + last)[0] == before[0]);
    } else {
        assert(before =~= Seq::<char>::empty());
        assert((before + last)[0] == last[0]);
    }
}

/// Records outline events as path data at the end of a borrowed string.
///
/// Each method says what the buffer holds behind the call, and that the
/// recorder goes on writing to the buffer it was made with: what the
/// borrowed string holds in the end is what the recorder leaves in it.
pub struct Builder<'a> {
    /// Added to every horizontal coordinate.
    pub x: i64,
    /// Added to every vertical coordinate.
    pub y: i64,
    /// The path data written so far.
    pub d: &'a mut String,
}

impl<'a> Builder<'a> {
    /// The path data that the buffer holds now.
    pub open spec fn data(&self) -> Seq<char> {
        (*self.d)@
    }

    /// A recorder that appends to `d` and shifts every coordinate by
    /// `(x, y)`.
    pub fn new(x: i64, y: i64, d: &'a mut String) -> (builder: Self)
        ensures
            builder.x == x,
            builder.y == y,
            builder.data() == old(d)@,
            *final(builder.d) == *final(d),
    {
        Builder { x, y, d }
    }

    fn push_pair(&mut self, x: i64, y: i64)
        ensures
            final(self).x == old(self).x,
            final(self).y == old(self).y,
            final(self).data() == old(self).data() + pair_text(x + old(self).x, y + old(self).y),
            *final(final(self).d) == *final(old(self).d),
    {
        push_decimal(self.d, x as i128 + self.x as i128);
        push_char(self.d, ' ');
        push_decimal(self.d, y as i128 + self.y as i128);
    }

    /// Begins a contour at `(x, y)`.
    pub fn move_to(&mut self, x: i64, y: i64)
        ensures
            final(self).x == old(self).x,
            final(self).y == old(self).y,
            final(self).data() == old(self).data() + move_text(x + old(self).x, y + old(self).y),
            *final(final(self).d) == *final(old(self).d),
    {
        push_char(self.d, 'M');
        self.push_pair(x, y);
    }

    /// Draws a straight line to `(x, y)`.
    pub fn line_to(&mut self, x: i64, y: i64)
        ensures
            final(self).x == old(self).x,
            final(self).y == old(self).y,
            final(self).data() == old(self).data() + line_text(x + old(self).x, y + old(self).y),
            *final(final(self).d) == *final(old(self).d),
    {
        push_char(self.d, 'L');
        self.push_pair(x, y);
    }

    /// Draws a quadratic curve to `(x, y)` with the control point
    /// `(x1, y1)`.
    pub fn quad_to(&mut self, x1: i64, y1: i64, x: i64, y: i64)
        ensures
            final(self).x == old(self).x,
            final(self).y == old(self).y,
            final(self).data() == old(self).data() + quad_text(
                x1 + old(self).x,
                y1 + old(self).y,
                x + old(self).x,
                y + old(self).y,
            ),
            *final(final(self).d) == *final(old(self).d),
    {
        push_char(self.d, 'Q');
        self.push_pair(x1, y1);
        push_char(self.d, ',');
        self.push_pair(x, y);
    }

    /// Draws a cubic curve to `(x, y)` with the control points `(x1, y1)`
    /// and `(x2, y2)`.
    pub fn curve_to(&mut self, x1: i64, y1: i64, x2: i64, y2: i64, x: i64, y: i64)
        ensures
            final(self).x == old(self).x,
            final(self).y == old(self).y,
            final(self).data() == old(self).data() + curve_text(
                x1 + old(self).x,
                y1 + old(self).y,
                x2 + old(self).x,
                y2 + old(self).y,
                x + old(self).x,
                y + old(self).y,
            ),
            *final(final(self).d) == *final(old(self).d),
    {
        push_char(self.d, 'C');
        self.push_pair(x1, y1);
        push_char(self.d, ',');
        self.push_pair(x2, y2);
        push_char(self.d, ',');
        self.push_pair(x, y);
    }

    /// Closes the current contour.
    pub fn close(&mut self)
        ensures
            final(self).x == old(self).x,
            final(self).y == old(self).y,
            final(self).data() == old(self).data() + close_text(),
            *final(final(self).d) == *final(old(self).d),
    {
        push_char(self.d, 'Z');
    }

    /// Records one event.
    pub fn record(&mut self, segment: Segment)
        ensures
            final(self).x == old(self).x,
            final(self).y == old(self).y,
            final(self).data() == old(self).data() + segment_text(
                segment,
                old(self).x as int,
                old(self).y as int,
            ),
            *final(final(self).d) == *final(old(self).d),
    {
        match segment {
            Segment::MoveTo { x, y } => self.move_to(x, y),
            Segment::LineTo { x, y } => self.line_to(x, y),
            Segment::QuadTo { x1, y1, x, y } => self.quad_to(x1, y1, x, y),
            Segment::CurveTo { x1, y1, x2, y2, x, y } => self.curve_to(x1, y1, x2, y2, x, y),
            Segment::Close => self.close(),
        }
    }
}

} // verus!
