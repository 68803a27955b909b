//! Rectangles of character cells, the sizing rules that split them, and the
//! call into the constraint solver that does the splitting.

use vstd::prelude::*;

verus! {

/// A rectangle of character cells.
#[derive(Clone, Copy, Debug, PartialEq, Eq, Structural)]
pub struct Rect {
    pub x: u16,
    pub y: u16,
    pub width: u16,
    pub height: u16,
}

/// A sizing rule for one part of a split rectangle.
#[derive(Clone, Copy, Debug, PartialEq, Eq, Structural)]
pub enum SizeConstraint {
    Percentage(u16),
    Ratio(u32, u32),
    Length(u16),
    Max(u16),
    Min(u16),
}

/// The axis along which a rectangle is split.
#[derive(Clone, Copy, Debug, PartialEq, Eq, Structural)]
pub enum Direction {
    Horizontal,
    Vertical,
}

/// The horizontal alignment of text.
#[derive(Clone, Copy, Debug, PartialEq, Eq, Structural)]
pub enum Alignment {
    Left,
    Center,
    Right,
}

/// The rectangle at the origin without any cell.
pub open spec fn empty_rect() -> Rect {
    Rect { x: 0, y: 0, width: 0, height: 0 }
}

/// What is left of `area` once `margin` cells are taken from each side:
/// nothing where the area is too small for that.
pub open spec fn inner_area(area: Rect, margin: u16) -> Rect {
    if area.width < 2 * margin || area.height < 2 * margin {
        empty_rect()
    } else {
        Rect {
            x: (area.x + margin) as u16,
            y: (area.y + margin) as u16,
            width: (area.width - 2 * margin) as u16,
            height: (area.height - 2 * margin) as u16,
        }
    }
}

/// The length of a rectangle along an axis.
pub open spec fn extent(direction: Direction, area: Rect) -> u16 {
    match direction {
        Direction::Horizontal => area.width,
        Direction::Vertical => area.height,
    }
}

/// Whether the solver can take this rule for a length of `length` cells: a
/// percentage of the length stays within 16 bits, and a ratio has a
/// denominator.
pub open spec fn constraint_fits(c: SizeConstraint, length: u16) -> bool {
    match c {
        SizeConstraint::Percentage(p) => p * length <= u16::MAX,
        SizeConstraint::Ratio(_, d) => d != 0,
        _ => true,
    }
}

/// Where a rectangle ends along an axis.
pub open spec fn far_edge(direction: Direction, area: Rect) -> int {
    match direction {
        Direction::Horizontal => area.x + area.width,
        Direction::Vertical => area.y + area.height,
    }
}

/// Whether the last of the parts ends where `outer` ends along the axis.
/// Nothing is asked of an empty list.
pub open spec fn reaches_far_edge(direction: Direction, parts: Seq<Rect>, outer: Rect) -> bool {
    parts.len() > 0 ==> far_edge(direction, parts.last()) == far_edge(direction, outer)
}

/// Whether a rectangle lies in the 16-bit plane with its far edges too.
pub open spec fn in_plane(area: Rect) -> bool {
    area.x + area.width <= u16::MAX && area.y + area.height <= u16::MAX
}

/// Whether the solver can split `area`: the margin fits into 16 bits twice,
/// the inner rectangle's corner does not leave the 16-bit plane, nor do its
/// far edges where there is a rule, and every rule fits the inner length.
pub open spec fn splittable(
    direction: Direction,
    margin: u16,
    constraints: Seq<SizeConstraint>,
    area: Rect,
) -> bool {
    &&& 2 * margin <= u16::MAX
    &&& area.width >= 2 * margin && area.height >= 2 * margin ==> area.x + margin <= u16::MAX
        && area.y + margin <= u16::MAX
    &&& constraints.len() > 0 ==> in_plane(inner_area(area, margin))
    &&& forall|i: int|
        0 <= i < constraints.len() ==> constraint_fits(
            #[trigger] constraints[i],
            extent(direction, inner_area(area, margin)),
        )
}

/// Makes `tui::layout::Constraint`, the solver's own sizing rule, known as an
/// opaque type, so that `solver_constraint` can hand it out.
#[verifier::external_type_specification]
#[verifier::external_body]
pub struct ExSolverConstraint(tui::layout::Constraint);

/// Writes a sizing rule as the `tui::layout::Constraint` of the same variant
/// and numbers. Nothing is claimed of the opaque result.
#[verifier::external_body]
fn solver_constraint(c: &SizeConstraint) -> tui::layout::Constraint {
    match *c {
        SizeConstraint::Percentage(p) => tui::layout::Constraint::Percentage(p),
        SizeConstraint::Ratio(n, d) => tui::layout::Constraint::Ratio(n, d),
        SizeConstraint::Length(l) => tui::layout::Constraint::Length(l),
        SizeConstraint::Max(m) => tui::layout::Constraint::Max(m),
        SizeConstraint::Min(m) => tui::layout::Constraint::Min(m),
    }
}

/// Calls `tui::layout::Layout::split` with the given axis, the same margin on
/// all sides and the given rules, and copies the four fields of each
/// rectangle that comes back. The solver behind it walks hash maps in an
/// order that differs from run to run, so the rectangles are not a function
/// of the arguments. What is claimed holds of every outcome: their number,
/// one per rule, and that the last one ends at the far edge of the area
/// inside the margin, which the call sets after the solver has run. The
/// `requires` leaves out the inputs on which the call overflows or on which
/// the solver fails: a margin or an inner corner beyond 16 bits, an inner
/// rectangle whose far edge lies beyond them, a percentage of the length
/// beyond them, and a ratio without denominator.
#[verifier::external_body]
fn solver_split(
    direction: Direction,
    margin: u16,
    constraints: &Vec<SizeConstraint>,
    area: Rect,
) -> (chunks: Vec<Rect>)
    requires
        splittable(direction, margin, constraints@, area),
    ensures
        chunks@.len() == constraints@.len(),
        reaches_far_edge(direction, chunks@, inner_area(area, margin)),
{
    let rules: Vec<tui::layout::Constraint> = constraints.iter().map(solver_constraint).collect();
    let axis = match direction {
        Direction::Horizontal => tui::layout::Direction::Horizontal,
        Direction::Vertical => tui::layout::Direction::Vertical,
    };
    let outer = tui::layout::Rect { x: area.x, y: area.y, width: area.width, height: area.height };
    let layout = tui::layout::Layout::default().direction(axis).margin(margin).constraints(rules);
    let parts = layout.split(outer).into_iter();
    parts.map(|r| Rect { x: r.x, y: r.y, width: r.width, height: r.height }).collect()
}

/// Whether the solver can take a rule for a length, as `constraint_fits`
/// defines it.
pub fn fits(c: &SizeConstraint, length: u16) -> (r: bool)
    ensures
        r == constraint_fits(*c, length),
{
    match c {
        SizeConstraint::Percentage(p) => {
            assert((*p as int) * (length as int) <= 0xFFFF * 0xFFFF) by (nonlinear_arith)
                requires
                    0 <= *p <= 0xFFFF,
                    0 <= length <= 0xFFFF,
            ;
            (*p as u32) * (length as u32) <= 0xFFFF
        },
        SizeConstraint::Ratio(_, d) => *d != 0,
        _ => true,
    }
}

/// Whether the solver can split `area`, as `splittable` defines it.
pub fn can_split(
    direction: Direction,
    margin: u16,
    constraints: &Vec<SizeConstraint>,
    area: Rect,
) -> (r: bool)
    ensures
        r == splittable(direction, margin, constraints@, area),
{
    if margin > 0x7FFF {
        return false;
    }
    let inner = if area.width < 2 * margin || area.height < 2 * margin {
        Rect { x: 0, y: 0, width: 0, height: 0 }
    } else {
        if area.x > 0xFFFF - margin || area.y > 0xFFFF - margin {
            return false;
        }
        Rect {
            x: area.x + margin,
            y: area.y + margin,
            width: area.width - 2 * margin,
            height: area.height - 2 * margin,
        }
    };
    assert(inner == inner_area(area, margin));
    if constraints.len() > 0 && (inner.x as u32 + inner.width as u32 > 0xFFFF || inner.y as u32
        + inner.height as u32 > 0xFFFF) {
        return false;
    }
    let length: u16 = match direction {
        Direction::Horizontal => inner.width,
        Direction::Vertical => inner.height,
    };
    let mut i: usize = 0;
    while i < constraints.len()
        invariant
            i <= constraints.len(),
            length == extent(direction, inner_area(area, margin)),
            forall|j: int| 0 <= j < i ==> constraint_fits(#[trigger] constraints@[j], length),
        decreases constraints.len() - i,
    {
        if !fits(&constraints[i], length) {
            assert(!constraint_fits(constraints@[i as int], length));
            return false;
        }
        i = i + 1;
    }
    true
}

/// Whether a rectangle lies within another.
pub open spec fn within(r: Rect, outer: Rect) -> bool {
    &&& outer.x <= r.x
    &&& r.x + r.width <= outer.x + outer.width
    &&& outer.y <= r.y
    &&& r.y + r.height <= outer.y + outer.height
}

/// Whether every rectangle of a list lies within `outer`.
pub open spec fn all_within(parts: Seq<Rect>, outer: Rect) -> bool {
    forall|i: int| 0 <= i < parts.len() ==> within(#[trigger] parts[i], outer)
}

/// A start and a length cut to the span that starts at `low` and has the
/// length `span`.
pub open spec fn clip_start(start: u16, low: u16, span: u16) -> u16 {
    if start < low {
        low
    } else if start > low + span {
        (low + span) as u16
    } else {
        start
    }
}

/// The length that is left for a span cut by `clip_start`.
pub open spec fn clip_length(start: u16, length: u16, low: u16, span: u16) -> u16 {
    let from = clip_start(start, low, span);
    if from + length > low + span {
        (low + span - from) as u16
    } else {
        length
    }
}

/// A rectangle cut to the part of it that lies within `outer`. A rectangle
/// within `outer` stays as it is.
pub open spec fn clip_spec(r: Rect, outer: Rect) -> Rect {
    Rect {
        x: clip_start(r.x, outer.x, outer.width),
        y: clip_start(r.y, outer.y, outer.height),
        width: clip_length(r.x, r.width, outer.x, outer.width),
        height: clip_length(r.y, r.height, outer.y, outer.height),
    }
}

/// Cutting leaves a rectangle within the outer one, and changes nothing of
/// a rectangle that lies within it.
pub proof fn lemma_clip(r: Rect, outer: Rect)
    ensures
        within(clip_spec(r, outer), outer),
        within(r, outer) ==> clip_spec(r, outer) == r,
{
}

/// A rectangle that ends where `outer` ends along an axis still ends there
/// once it is cut to `outer`.
pub proof fn lemma_clip_keeps_edge(direction: Direction, r: Rect, outer: Rect)
    requires
        far_edge(direction, r) == far_edge(direction, outer),
    ensures
        far_edge(direction, clip_spec(r, outer)) == far_edge(direction, outer),
{
}

/// A rectangle within one that lies within a third lies within the third.
pub proof fn lemma_within_transitive(a: Rect, b: Rect, c: Rect)
    requires
        within(a, b),
        within(b, c),
    ensures
        within(a, c),
{
}

/// Within a frame at the origin, what is left of a rectangle inside a
/// margin lies within the frame, however small the rectangle.
pub proof fn lemma_inner_within(area: Rect, margin: u16, frame: Rect)
    requires
        frame.x == 0,
        frame.y == 0,
        within(area, frame),
    ensures
        within(inner_area(area, margin), frame),
{
}

fn clip_span(start: u16, length: u16, low: u16, span: u16) -> (r: (u16, u16))
    ensures
        r.0 == clip_start(start, low, span),
        r.1 == clip_length(start, length, low, span),
{
    let end: u32 = low as u32 + span as u32;
    let from: u16 = if start < low {
        low
    } else if start as u32 > end {
        end as u16
    } else {
        start
    };
    let kept: u16 = if from as u32 + length as u32 > end {
        (end - from as u32) as u16
    } else {
        length
    };
    (from, kept)
}

/// Cuts a rectangle to the part of it that lies within `outer`.
pub fn clip(r: Rect, outer: Rect) -> (c: Rect)
    ensures
        c == clip_spec(r, outer),
        within(c, outer),
        within(r, outer) ==> c == r,
{
    let (x, width) = clip_span(r.x, r.width, outer.x, outer.width);
    let (y, height) = clip_span(r.y, r.height, outer.y, outer.height);
    Rect { x, y, width, height }
}

/// What is left of `area` once `margin` cells are taken from each side, as
/// `inner_area` defines it.
pub fn inner(area: Rect, margin: u16) -> (r: Rect)
    requires
        2 * margin <= u16::MAX,
        area.width >= 2 * margin && area.height >= 2 * margin ==> area.x + margin <= u16::MAX
            && area.y + margin <= u16::MAX,
    ensures
        r == inner_area(area, margin),
{
    if area.width < 2 * margin || area.height < 2 * margin {
        Rect { x: 0, y: 0, width: 0, height: 0 }
    } else {
        Rect {
            x: area.x + margin,
            y: area.y + margin,
            width: area.width - 2 * margin,
            height: area.height - 2 * margin,
        }
    }
}

/// Splits `area` along `direction` into one rectangle per rule, inside a
/// margin. `None` where the solver cannot take the input (`splittable`).
/// The rectangles are the solver's choice among those that lie within the
/// area inside the margin, the last of them ending at its far edge: one
/// that the solver places outside of the area is cut to it.
pub fn split(
    direction: Direction,
    margin: u16,
    constraints: &Vec<SizeConstraint>,
    area: Rect,
) -> (r: Option<Vec<Rect>>)
    ensures
        r is Some <==> splittable(direction, margin, constraints@, area),
        r matches Some(parts) ==> parts@.len() == constraints@.len() && all_within(
            parts@,
            inner_area(area, margin),
        ) && reaches_far_edge(direction, parts@, inner_area(area, margin)),
{
    if !can_split(direction, margin, constraints, area) {
        return None;
    }
    let outer = inner(area, margin);
    let found = solver_split(direction, margin, constraints, area);
    let mut parts: Vec<Rect> = Vec::new();
    let mut i: usize = 0;
    while i < found.len()
        invariant
            i <= found.len(),
            parts@.len() == i,
            all_within(parts@, outer),
            forall|j: int| 0 <= j < i ==> parts@[j] == clip_spec(found@[j], outer),
        decreases found.len() - i,
    {
        parts.push(clip(found[i], outer));
        i = i + 1;
    }
    proof {
        if found@.len() > 0 {
            lemma_clip_keeps_edge(direction, found@.last(), outer);
        }
    }
    Some(parts)
}

} // verus!
