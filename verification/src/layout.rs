//! The layout engine: which elements a frame shows, in which order, with
//! which dependencies, and in which rectangle of the solver's choosing.

use crate::geometry::{
    all_within, inner_area, lemma_inner_within, lemma_within_transitive, reaches_far_edge, split,
    splittable, within, Direction, Rect, SizeConstraint,
};
use crate::grammar::{
    constraint_spec, direction_of, direction_spec, is_widget_tag, parse_constraint, widget_tag,
};
use crate::markup_element::{ensure_dependency, with_dependency, ElementView, MarkupElement};
use crate::string_map::{insert_pair, lookup_or_empty, StringMap};
use crate::text::{
    joined, natural_text, natural_to_string, opt_view, owned, split_char, split_spec, str_eq,
    strings_view,
};
use crate::tree::{node_wf, MarkupTree};
use vstd::prelude::*;

verus! {

/// An element with the rectangle it is placed in.
pub type Item = (Rect, ElementView);

/// The values of a list of placed elements, in order.
pub open spec fn items_view(v: Seq<(Rect, MarkupElement)>) -> Seq<Item> {
    v.map_values(|p: (Rect, MarkupElement)| (p.0, p.1@))
}

/// Each element of the list with the dependency added, unless it has it.
pub open spec fn ensure_all(items: Seq<Item>, dependency: Option<Seq<char>>) -> Seq<Item> {
    items.map_values(|p: Item| (p.0, ensure_dependency(p.1, dependency)))
}

/// The rectangle given, or else the whole frame.
pub open spec fn place_or(place: Option<Rect>, frame: Rect) -> Rect {
    match place {
        Some(r) => r,
        None => frame,
    }
}

/// The margin given, or else none.
pub open spec fn margin_or_zero(margin: Option<u16>) -> u16 {
    match margin {
        Some(m) => m,
        None => 0,
    }
}

/// The sizing rule of each child of an element, from its `constraint`
/// attribute.
pub open spec fn child_constraints(t: Seq<ElementView>, idx: int) -> Seq<SizeConstraint> {
    Seq::new(
        t[idx].children.len(),
        |k: int|
            constraint_spec(
                lookup_or_empty(t[t[idx].children[k] as int].attributes, "constraint"@),
            ),
    )
}

/// The margin inside a container: none without a border, one cell with one.
pub open spec fn border_margin(attributes: crate::string_map::Pairs) -> u16 {
    let border = lookup_or_empty(attributes, "border"@);
    if border == ""@ || border == "none"@ {
        0
    } else {
        1
    }
}

/// The height of the header band of a tab strip.
pub const TAB_HEADER_HEIGHT: u16 = 3;

/// The width of the column that one tab takes in the header band, the
/// shared border counted once.
pub const TAB_PITCH: u16 = 9;

/// The two bands of a tab strip: a header of fixed height and the rest.
pub open spec fn tab_bands(area: Rect) -> Seq<SizeConstraint> {
    seq![
        SizeConstraint::Length(TAB_HEADER_HEIGHT),
        SizeConstraint::Length(
            if area.height >= TAB_HEADER_HEIGHT {
                (area.height - TAB_HEADER_HEIGHT) as u16
            } else {
                0
            },
        ),
    ]
}

/// The gutter and the body of a tab's content.
pub open spec fn content_bands() -> Seq<SizeConstraint> {
    seq![SizeConstraint::Percentage(10), SizeConstraint::Percentage(90)]
}

/// The three columns of which a dialog takes the middle one.
pub open spec fn dialog_columns() -> Seq<SizeConstraint> {
    seq![
        SizeConstraint::Percentage(34),
        SizeConstraint::Percentage(32),
        SizeConstraint::Percentage(34),
    ]
}

/// The three rows of which a dialog takes the middle one.
pub open spec fn dialog_rows() -> Seq<SizeConstraint> {
    seq![
        SizeConstraint::Percentage(31),
        SizeConstraint::Percentage(34),
        SizeConstraint::Percentage(31),
    ]
}

/// The content and the button row of a dialog.
pub open spec fn dialog_parts() -> Seq<SizeConstraint> {
    seq![SizeConstraint::Percentage(80), SizeConstraint::Percentage(20)]
}

/// Equal shares of the button row, one per button.
pub open spec fn button_shares(count: nat) -> Seq<SizeConstraint> {
    Seq::new(count, |k: int| SizeConstraint::Percentage((100int / count as int) as u16))
}

/// The whole of a rectangle.
pub open spec fn whole() -> Seq<SizeConstraint> {
    seq![SizeConstraint::Percentage(100)]
}

/// The line under the header band of a tab strip.
pub open spec fn tab_line() -> ElementView {
    ElementView {
        position: None,
        deep: 0,
        id: "line_unk"@,
        name: "tabs-borders"@,
        order: -1i32,
        text: None,
        attributes: Seq::empty(),
        children: Seq::empty(),
        parent_node: None,
        dependencies: Seq::empty(),
    }
}

/// The tab that stands for child `j` of the header element `header`: the
/// child's id, tag, text and attributes, one level deeper, with the
/// header's parent as its parent, and in the focus order at 10 plus its
/// position (positions count modulo 65536).
pub open spec fn tab_button(t: Seq<ElementView>, header: int, j: int) -> ElementView {
    let source = t[t[header].children[j] as int];
    ElementView {
        position: None,
        deep: (source.deep + 1) as usize,
        id: source.id,
        name: source.name,
        order: (10 + j % 0x10000) as i32,
        text: source.text,
        attributes: source.attributes,
        children: Seq::empty(),
        parent_node: t[header].parent_node,
        dependencies: Seq::empty(),
    }
}

/// The place of tab `j` in the header band: columns of nine cells, as
/// wide as `TAB_PITCH`, from one cell right of the band's corner, two rows
/// high. The column
/// counts modulo 65536.
pub open spec fn tab_place(band: Rect, j: int) -> Rect {
    Rect {
        x: ((band.x + 1 + 9 * (j % 0x10000)) % 0x10000) as u16,
        y: band.y,
        width: TAB_PITCH,
        height: 2,
    }
}

/// The first `k` tabs of a header element, placed.
pub open spec fn tab_items(t: Seq<ElementView>, header: int, band: Rect, k: int) -> Seq<Item>
    decreases k,
{
    if k <= 0 {
        Seq::empty()
    } else {
        tab_items(t, header, band, k - 1).push(
            (tab_place(band, k - 1), tab_button(t, header, k - 1)),
        )
    }
}

/// What a tab strip shows in its header band: the line, then one tab for
/// each child of its first child. Nothing for a strip without children.
pub open spec fn header_items(t: Seq<ElementView>, idx: int, band: Rect) -> Seq<Item> {
    if t[idx].children.len() == 0 {
        Seq::empty()
    } else {
        let header = t[idx].children[0] as int;
        seq![(band, tab_line())] + tab_items(t, header, band, t[header].children.len() as int)
    }
}

/// The labels of the buttons of a dialog: the pieces of its `buttons`
/// attribute between `|` (one empty label where the attribute is absent).
pub open spec fn button_labels(dialog: ElementView) -> Seq<Seq<char>> {
    split_spec(lookup_or_empty(dialog.attributes, "buttons"@), '|')
}

/// The id of the button of a dialog with a given label.
pub open spec fn button_id(dialog: ElementView, label: Seq<char>) -> Seq<char> {
    dialog.id + "_btn_"@ + label
}

/// The action of the button of a dialog with a given label: the dialog's
/// `action` attribute, or else `on_` and the button's id.
pub open spec fn button_action(dialog: ElementView, label: Seq<char>) -> Seq<char> {
    let action = lookup_or_empty(dialog.attributes, "action"@);
    if action.len() > 0 {
        action
    } else {
        "on_"@ + button_id(dialog, label)
    }
}

/// Button `i` of a dialog: a `button` element one level below the dialog,
/// with the label as its text, `i` as its place in the focus order, and the
/// dialog as its parent and its dependency.
pub open spec fn dialog_button(dialog: ElementView, i: int) -> ElementView {
    let label = button_labels(dialog)[i];
    ElementView {
        position: None,
        deep: dialog.deep.wrapping_add(1),
        id: button_id(dialog, label),
        name: "button"@,
        order: i as i32,
        text: Some(label),
        attributes: insert_pair(
            insert_pair(
                insert_pair(Seq::empty(), "id"@, button_id(dialog, label)),
                "action"@,
                button_action(dialog, label),
            ),
            "index"@,
            natural_text(i as nat),
        ),
        children: Seq::empty(),
        parent_node: dialog.position,
        dependencies: seq![dialog.id],
    }
}

/// The first `k` buttons of a dialog, each in its share of the button row.
pub open spec fn dialog_buttons(dialog: ElementView, shares: Seq<Rect>, k: int) -> Seq<Item>
    decreases k,
{
    if k <= 0 {
        Seq::empty()
    } else {
        dialog_buttons(dialog, shares, k - 1).push((shares[k - 1], dialog_button(dialog, k - 1)))
    }
}

/// The widgets among the first `k` children of a container, each in the
/// part of the container that its position gives it, and with the
/// dependency added.
pub open spec fn widget_items(
    t: Seq<ElementView>,
    idx: int,
    chunks: Seq<Rect>,
    dependency: Option<Seq<char>>,
    k: int,
) -> Seq<Item>
    decreases k,
{
    if k <= 0 {
        Seq::empty()
    } else {
        let before = widget_items(t, idx, chunks, dependency, k - 1);
        let child = t[t[idx].children[k - 1] as int];
        if widget_tag(child.name) {
            before.push((chunks[k - 1], ensure_dependency(child, dependency)))
        } else {
            before
        }
    }
}

/// The outcomes of the splits that a layout pass makes: for one element the
/// rectangles of each of its own splits, in the order in which it makes
/// them, and the outcomes for each of its children.
pub struct Plan {
    pub splits: Seq<Seq<Rect>>,
    pub kids: Seq<Plan>,
}

/// The place of child `k`: the one shared place where there is one, else
/// the `k`-th of `places`.
pub open spec fn place_of(places: Seq<Rect>, shared: Option<Rect>, k: int) -> Rect {
    match shared {
        Some(r) => r,
        None => places[k],
    }
}

/// What the first `k` children of the element at `idx` show, one child
/// after the other, each in its place (`place_of`) and laid out under the
/// given dependency and margin, with the split outcomes `plans[j]` for
/// child `j`. With `structural_only` the widgets among the children are
/// passed over; with `ensure` every element that a child shows gets the
/// dependency, unless it has it.
pub open spec fn kids_items(
    t: Seq<ElementView>,
    frame: Rect,
    idx: int,
    k: int,
    places: Seq<Rect>,
    shared: Option<Rect>,
    dependency: Option<Seq<char>>,
    margin: Option<u16>,
    structural_only: bool,
    ensure: bool,
    plans: Seq<Plan>,
) -> Seq<Item>
    decreases t.len() - idx, 1int, k,
{
    if k <= 0 {
        Seq::empty()
    } else {
        let before = kids_items(
            t,
            frame,
            idx,
            k - 1,
            places,
            shared,
            dependency,
            margin,
            structural_only,
            ensure,
            plans,
        );
        let kid = t[idx].children[k - 1] as int;
        if !(0 <= idx < kid < t.len()) || (structural_only && widget_tag(t[kid].name)) {
            before
        } else {
            let part = node_items(
                t,
                frame,
                kid,
                dependency,
                Some(place_of(places, shared, k - 1)),
                margin,
                plans[k - 1],
            );
            before + if ensure {
                ensure_all(part, dependency)
            } else {
                part
            }
        }
    }
}

/// What a `layout` element shows: its rectangle is split along its axis
/// into one part per child by the children's sizing rules, inside the given
/// margin, and each child is laid out in its part with a margin of one
/// cell. The element itself is not shown. Nothing is shown where the
/// solver cannot take the split.
pub open spec fn layout_items(
    t: Seq<ElementView>,
    frame: Rect,
    idx: int,
    dependency: Option<Seq<char>>,
    place: Option<Rect>,
    margin: Option<u16>,
    plan: Plan,
) -> Seq<Item>
    decreases t.len() - idx, 2int, 0int,
{
    if !splittable(
        direction_spec(t[idx].attributes),
        margin_or_zero(margin),
        child_constraints(t, idx),
        place_or(place, frame),
    ) {
        Seq::empty()
    } else {
        kids_items(
            t,
            frame,
            idx,
            t[idx].children.len() as int,
            plan.splits[0],
            None,
            dependency,
            Some(1u16),
            false,
            true,
            plan.kids,
        )
    }
}

/// What a `container` or `block` element shows: the element itself in its
/// rectangle; then, with the rectangle split horizontally into one part per
/// child, what the children that are not widgets show, each in its part;
/// then the widgets, each in its part. Nothing is shown where the solver
/// cannot take the split.
pub open spec fn block_items(
    t: Seq<ElementView>,
    frame: Rect,
    idx: int,
    dependency: Option<Seq<char>>,
    place: Option<Rect>,
    plan: Plan,
) -> Seq<Item>
    decreases t.len() - idx, 2int, 0int,
{
    let area = place_or(place, frame);
    let n = t[idx].children.len() as int;
    if !splittable(
        Direction::Horizontal,
        border_margin(t[idx].attributes),
        child_constraints(t, idx),
        area,
    ) {
        Seq::empty()
    } else {
        seq![(area, with_dependency(t[idx], dependency))] + kids_items(
            t,
            frame,
            idx,
            n,
            plan.splits[0],
            None,
            dependency,
            None,
            true,
            false,
            plan.kids,
        ) + widget_items(t, idx, plan.splits[0], dependency, n)
    }
}

/// What the body band of a tab strip shows: what the strip's second child
/// shows, under no dependency. Nothing for a strip with fewer than two
/// children; children after the second are not shown.
pub open spec fn tabs_body(
    t: Seq<ElementView>,
    frame: Rect,
    idx: int,
    band: Rect,
    plan: Plan,
) -> Seq<Item>
    decreases t.len() - idx, 1int, 0int,
{
    if t[idx].children.len() < 2 {
        Seq::empty()
    } else {
        let kid = t[idx].children[1] as int;
        if !(0 <= idx < kid < t.len()) {
            Seq::empty()
        } else {
            node_items(t, frame, kid, None, Some(band), Some(1u16), plan.kids[1])
        }
    }
}

/// What a `tabs` element shows: the element itself in its rectangle; then,
/// with the rectangle split vertically into a header band and the rest, the
/// line and the tabs in the header band and the body in the rest.
pub open spec fn tabs_items(
    t: Seq<ElementView>,
    frame: Rect,
    idx: int,
    dependency: Option<Seq<char>>,
    place: Option<Rect>,
    margin: Option<u16>,
    plan: Plan,
) -> Seq<Item>
    decreases t.len() - idx, 2int, 0int,
{
    let area = place_or(place, frame);
    if !splittable(Direction::Vertical, margin_or_zero(margin), tab_bands(area), area) {
        Seq::empty()
    } else {
        let bands = plan.splits[0];
        seq![(area, with_dependency(t[idx], dependency))] + header_items(t, idx, bands[0])
            + tabs_body(t, frame, idx, bands[1], plan)
    }
}

/// What a `tab-content` element shows: with its rectangle split vertically
/// into a gutter and the rest, the element itself in the rest, then what
/// its children show, each in the rest, with a margin of one cell and with
/// the element as the dependency.
pub open spec fn content_items(
    t: Seq<ElementView>,
    frame: Rect,
    idx: int,
    dependency: Option<Seq<char>>,
    place: Option<Rect>,
    margin: Option<u16>,
    plan: Plan,
) -> Seq<Item>
    decreases t.len() - idx, 2int, 0int,
{
    if !splittable(
        Direction::Vertical,
        margin_or_zero(margin),
        content_bands(),
        place_or(place, frame),
    ) {
        Seq::empty()
    } else {
        let bands = plan.splits[0];
        seq![(bands[1], with_dependency(t[idx], dependency))] + kids_items(
            t,
            frame,
            idx,
            t[idx].children.len() as int,
            Seq::empty(),
            Some(bands[1]),
            Some(t[idx].id),
            Some(1u16),
            false,
            true,
            plan.kids,
        )
    }
}

/// What a `dialog` element shows: an overlay in the middle column and
/// middle row of the whole frame, whatever place the element was given.
/// The overlay is split, inside a margin of one cell, into the content and
/// the button row: the dialog itself in the overlay, what its children show
/// in the content with the dialog as the dependency, then its buttons in
/// equal shares of the button row. Nothing is shown where the solver
/// cannot take one of the four splits.
pub open spec fn dialog_items(
    t: Seq<ElementView>,
    frame: Rect,
    idx: int,
    dependency: Option<Seq<char>>,
    margin: Option<u16>,
    plan: Plan,
) -> Seq<Item>
    decreases t.len() - idx, 2int, 0int,
{
    let m = margin_or_zero(margin);
    let columns = plan.splits[0];
    let rows = plan.splits[1];
    let parts = plan.splits[2];
    let shares = plan.splits[3];
    let labels = button_labels(t[idx]);
    if !splittable(Direction::Horizontal, m, dialog_columns(), frame) {
        Seq::empty()
    } else if !splittable(Direction::Vertical, m, dialog_rows(), columns[1]) {
        Seq::empty()
    } else if !splittable(Direction::Vertical, 1, dialog_parts(), rows[1]) {
        Seq::empty()
    } else if !splittable(Direction::Horizontal, 0, button_shares(labels.len()), parts[1]) {
        Seq::empty()
    } else {
        seq![(rows[1], with_dependency(t[idx], dependency))] + kids_items(
            t,
            frame,
            idx,
            t[idx].children.len() as int,
            Seq::empty(),
            Some(parts[0]),
            Some(t[idx].id),
            Some(1u16),
            false,
            true,
            plan.kids,
        ) + dialog_buttons(t[idx], shares, labels.len() as int)
    }
}

/// What an element with any other tag shows: the element itself in the
/// whole of its rectangle inside the margin, then what its children show,
/// each in the element's rectangle with a margin of one cell.
pub open spec fn plain_items(
    t: Seq<ElementView>,
    frame: Rect,
    idx: int,
    dependency: Option<Seq<char>>,
    place: Option<Rect>,
    margin: Option<u16>,
    plan: Plan,
) -> Seq<Item>
    decreases t.len() - idx, 2int, 0int,
{
    let area = place_or(place, frame);
    if !splittable(Direction::Horizontal, margin_or_zero(margin), whole(), area) {
        Seq::empty()
    } else {
        seq![(plan.splits[0][0], with_dependency(t[idx], dependency))] + kids_items(
            t,
            frame,
            idx,
            t[idx].children.len() as int,
            Seq::empty(),
            Some(area),
            dependency,
            Some(1u16),
            false,
            true,
            plan.kids,
        )
    }
}

/// What an element shows that is neither a `layout` nor a container: by
/// its tag a tab strip, a tab's content, a dialog, or a plain element.
pub open spec fn other_items(
    t: Seq<ElementView>,
    frame: Rect,
    idx: int,
    dependency: Option<Seq<char>>,
    place: Option<Rect>,
    margin: Option<u16>,
    plan: Plan,
) -> Seq<Item>
    decreases t.len() - idx, 2int, 1int,
{
    let name = t[idx].name;
    if name == "tabs"@ {
        tabs_items(t, frame, idx, dependency, place, margin, plan)
    } else if name == "tab-content"@ {
        content_items(t, frame, idx, dependency, place, margin, plan)
    } else if name == "dialog"@ {
        dialog_items(t, frame, idx, dependency, margin, plan)
    } else {
        plain_items(t, frame, idx, dependency, place, margin, plan)
    }
}

/// What the element at `idx` and its descendants show in a frame: the
/// placed elements in drawing order. The element is taken with
/// `dependency` added to its dependencies. `plan` holds the outcome of
/// every split: which elements are shown, in which order and with which
/// dependencies follows from the tree, and each rectangle from the plan.
pub open spec fn node_items(
    t: Seq<ElementView>,
    frame: Rect,
    idx: int,
    dependency: Option<Seq<char>>,
    place: Option<Rect>,
    margin: Option<u16>,
    plan: Plan,
) -> Seq<Item>
    decreases t.len() - idx, 3int, 0int,
{
    let name = t[idx].name;
    if name == "styles"@ {
        Seq::empty()
    } else if name == "layout"@ {
        layout_items(t, frame, idx, dependency, place, margin, plan)
    } else if name == "container"@ || name == "block"@ {
        block_items(t, frame, idx, dependency, place, plan)
    } else {
        other_items(t, frame, idx, dependency, place, margin, plan)
    }
}

/// Whether `parts` can be what the split of `area` along an axis into
/// `count` parts inside a margin gives: as many rectangles, each within the
/// area inside the margin, the last of them ending at its far edge.
pub open spec fn split_outcome(
    direction: Direction,
    parts: Seq<Rect>,
    count: nat,
    area: Rect,
    margin: u16,
) -> bool {
    &&& parts.len() == count
    &&& all_within(parts, inner_area(area, margin))
    &&& reaches_far_edge(direction, parts, inner_area(area, margin))
}

/// Whether `plans` hold outcomes for the first `k` children of the
/// element at `idx`, each laid out in its place (`place_of`).
pub open spec fn kids_ok(
    t: Seq<ElementView>,
    frame: Rect,
    idx: int,
    k: int,
    places: Seq<Rect>,
    shared: Option<Rect>,
    margin: Option<u16>,
    structural_only: bool,
    plans: Seq<Plan>,
) -> bool
    decreases t.len() - idx, 1int, k,
{
    if k <= 0 {
        true
    } else {
        let kid = t[idx].children[k - 1] as int;
        kids_ok(t, frame, idx, k - 1, places, shared, margin, structural_only, plans) && (!(0
            <= idx < kid < t.len()) || (structural_only && widget_tag(t[kid].name)) || node_ok(
            t,
            frame,
            kid,
            Some(place_of(places, shared, k - 1)),
            margin,
            plans[k - 1],
        ))
    }
}

/// Whether a plan holds outcomes for a `layout` element.
pub open spec fn layout_ok(
    t: Seq<ElementView>,
    frame: Rect,
    idx: int,
    place: Option<Rect>,
    margin: Option<u16>,
    plan: Plan,
) -> bool
    decreases t.len() - idx, 2int, 0int,
{
    let n = t[idx].children.len();
    splittable(
        direction_spec(t[idx].attributes),
        margin_or_zero(margin),
        child_constraints(t, idx),
        place_or(place, frame),
    ) ==> split_outcome(
        direction_spec(t[idx].attributes),
        plan.splits[0],
        n,
        place_or(place, frame),
        margin_or_zero(margin),
    )
        && kids_ok(t, frame, idx, n as int, plan.splits[0], None, Some(1u16), false, plan.kids)
}

/// Whether a plan holds outcomes for a `container` or `block` element.
pub open spec fn block_ok(
    t: Seq<ElementView>,
    frame: Rect,
    idx: int,
    place: Option<Rect>,
    plan: Plan,
) -> bool
    decreases t.len() - idx, 2int, 0int,
{
    let n = t[idx].children.len();
    let area = place_or(place, frame);
    splittable(
        Direction::Horizontal,
        border_margin(t[idx].attributes),
        child_constraints(t, idx),
        area,
    ) ==> split_outcome(
        Direction::Horizontal,
        plan.splits[0],
        n,
        area,
        border_margin(t[idx].attributes),
    ) && kids_ok(
        t,
        frame,
        idx,
        n as int,
        plan.splits[0],
        None,
        None,
        true,
        plan.kids,
    )
}

/// Whether a plan holds outcomes for the body of a tab strip.
pub open spec fn tabs_body_ok(
    t: Seq<ElementView>,
    frame: Rect,
    idx: int,
    band: Rect,
    plan: Plan,
) -> bool
    decreases t.len() - idx, 1int, 0int,
{
    if t[idx].children.len() < 2 {
        true
    } else {
        let kid = t[idx].children[1] as int;
        !(0 <= idx < kid < t.len()) || node_ok(t, frame, kid, Some(band), Some(1u16), plan.kids[1])
    }
}

/// Whether a plan holds outcomes for a `tabs` element.
pub open spec fn tabs_ok(
    t: Seq<ElementView>,
    frame: Rect,
    idx: int,
    place: Option<Rect>,
    margin: Option<u16>,
    plan: Plan,
) -> bool
    decreases t.len() - idx, 2int, 0int,
{
    let area = place_or(place, frame);
    splittable(Direction::Vertical, margin_or_zero(margin), tab_bands(area), area)
        ==> split_outcome(Direction::Vertical, plan.splits[0], 2, area, margin_or_zero(margin))
        && tabs_body_ok(
        t,
        frame,
        idx,
        plan.splits[0][1],
        plan,
    )
}

/// Whether a plan holds outcomes for a `tab-content` element.
pub open spec fn content_ok(
    t: Seq<ElementView>,
    frame: Rect,
    idx: int,
    place: Option<Rect>,
    margin: Option<u16>,
    plan: Plan,
) -> bool
    decreases t.len() - idx, 2int, 0int,
{
    let area = place_or(place, frame);
    splittable(Direction::Vertical, margin_or_zero(margin), content_bands(), area)
        ==> split_outcome(Direction::Vertical, plan.splits[0], 2, area, margin_or_zero(margin))
        && kids_ok(
        t,
        frame,
        idx,
        t[idx].children.len() as int,
        Seq::empty(),
        Some(plan.splits[0][1]),
        Some(1u16),
        false,
        plan.kids,
    )
}

/// Whether a plan holds outcomes for a `dialog` element: for the columns
/// of the frame, the rows of the middle column, the parts of the middle
/// row and the shares of the button row, each as far as the split before
/// it could be made.
pub open spec fn dialog_ok(
    t: Seq<ElementView>,
    frame: Rect,
    idx: int,
    margin: Option<u16>,
    plan: Plan,
) -> bool
    decreases t.len() - idx, 2int, 0int,
{
    let m = margin_or_zero(margin);
    let columns = plan.splits[0];
    let rows = plan.splits[1];
    let parts = plan.splits[2];
    let shares = plan.splits[3];
    let labels = button_labels(t[idx]);
    splittable(Direction::Horizontal, m, dialog_columns(), frame) ==> split_outcome(
        Direction::Horizontal,
        columns,
        3,
        frame,
        m,
    ) && (splittable(Direction::Vertical, m, dialog_rows(), columns[1]) ==> split_outcome(
        Direction::Vertical,
        rows,
        3,
        columns[1],
        m,
    ) && (splittable(Direction::Vertical, 1, dialog_parts(), rows[1]) ==> split_outcome(
        Direction::Vertical,
        parts,
        2,
        rows[1],
        1,
    ) && (splittable(Direction::Horizontal, 0, button_shares(labels.len()), parts[1])
        ==> split_outcome(Direction::Horizontal, shares, labels.len(), parts[1], 0) && kids_ok(
        t,
        frame,
        idx,
        t[idx].children.len() as int,
        Seq::empty(),
        Some(parts[0]),
        Some(1u16),
        false,
        plan.kids,
    ))))
}

/// Whether a plan holds outcomes for an element of any other tag.
pub open spec fn plain_ok(
    t: Seq<ElementView>,
    frame: Rect,
    idx: int,
    place: Option<Rect>,
    margin: Option<u16>,
    plan: Plan,
) -> bool
    decreases t.len() - idx, 2int, 0int,
{
    let area = place_or(place, frame);
    splittable(Direction::Horizontal, margin_or_zero(margin), whole(), area) ==> split_outcome(
        Direction::Horizontal,
        plan.splits[0],
        1,
        area,
        margin_or_zero(margin),
    ) && kids_ok(
        t,
        frame,
        idx,
        t[idx].children.len() as int,
        Seq::empty(),
        Some(area),
        Some(1u16),
        false,
        plan.kids,
    )
}

/// Whether a plan holds outcomes for an element that is neither a `layout`
/// nor a container.
pub open spec fn other_ok(
    t: Seq<ElementView>,
    frame: Rect,
    idx: int,
    place: Option<Rect>,
    margin: Option<u16>,
    plan: Plan,
) -> bool
    decreases t.len() - idx, 2int, 1int,
{
    let name = t[idx].name;
    if name == "tabs"@ {
        tabs_ok(t, frame, idx, place, margin, plan)
    } else if name == "tab-content"@ {
        content_ok(t, frame, idx, place, margin, plan)
    } else if name == "dialog"@ {
        dialog_ok(t, frame, idx, margin, plan)
    } else {
        plain_ok(t, frame, idx, place, margin, plan)
    }
}

/// Whether a plan holds outcomes of the splits that the layout of the
/// element at `idx` makes: for every split that is made as many
/// rectangles as it has rules, each within the area that is split, inside
/// its margin.
pub open spec fn node_ok(
    t: Seq<ElementView>,
    frame: Rect,
    idx: int,
    place: Option<Rect>,
    margin: Option<u16>,
    plan: Plan,
) -> bool
    decreases t.len() - idx, 3int, 0int,
{
    let name = t[idx].name;
    if name == "styles"@ {
        true
    } else if name == "layout"@ {
        layout_ok(t, frame, idx, place, margin, plan)
    } else if name == "container"@ || name == "block"@ {
        block_ok(t, frame, idx, place, plan)
    } else {
        other_ok(t, frame, idx, place, margin, plan)
    }
}

/// Whether the outcomes for the first `k` children hold does not depend
/// on the outcomes for later children.
pub proof fn lemma_kids_ok_prefix(
    t: Seq<ElementView>,
    frame: Rect,
    idx: int,
    k: int,
    places: Seq<Rect>,
    shared: Option<Rect>,
    margin: Option<u16>,
    structural_only: bool,
    plans: Seq<Plan>,
    more: Plan,
)
    requires
        k <= plans.len(),
    ensures
        kids_ok(t, frame, idx, k, places, shared, margin, structural_only, plans.push(more))
            == kids_ok(t, frame, idx, k, places, shared, margin, structural_only, plans),
    decreases k,
{
    if k > 0 {
        lemma_kids_ok_prefix(
            t,
            frame,
            idx,
            k - 1,
            places,
            shared,
            margin,
            structural_only,
            plans,
            more,
        );
        assert(plans.push(more)[k - 1] == plans[k - 1]);
    }
}

/// The placed elements of a layout that may be missing: none where it is.
pub open spec fn items_or_none(r: Option<Vec<(Rect, MarkupElement)>>) -> Seq<Item> {
    match r {
        Some(v) => items_view(v@),
        None => Seq::empty(),
    }
}

/// Whether a placed element has an id among its dependencies.
pub open spec fn depends_on(item: Item, id: Seq<char>) -> bool {
    item.1.dependencies.contains(id)
}

/// Every one of the placed elements depends on an id.
pub open spec fn all_depend_on(items: Seq<Item>, id: Seq<char>) -> bool {
    forall|i: int| 0 <= i < items.len() ==> depends_on(#[trigger] items[i], id)
}

/// An element that was given a dependency has it.
pub proof fn lemma_ensured(e: ElementView, id: Seq<char>)
    ensures
        ensure_dependency(e, Some(id)).dependencies.contains(id),
{
    if !e.dependencies.contains(id) {
        let deps = e.dependencies.push(id);
        assert(deps[deps.len() - 1] == id);
    }
}

/// What children show under a dependency that is given to every element
/// depends on it.
pub proof fn lemma_kids_depend(
    t: Seq<ElementView>,
    frame: Rect,
    idx: int,
    k: int,
    places: Seq<Rect>,
    shared: Option<Rect>,
    id: Seq<char>,
    margin: Option<u16>,
    structural_only: bool,
    plans: Seq<Plan>,
)
    ensures
        all_depend_on(
            kids_items(
                t,
                frame,
                idx,
                k,
                places,
                shared,
                Some(id),
                margin,
                structural_only,
                true,
                plans,
            ),
            id,
        ),
    decreases k,
{
    if k > 0 {
        lemma_kids_depend(
            t,
            frame,
            idx,
            k - 1,
            places,
            shared,
            id,
            margin,
            structural_only,
            plans,
        );
        let before = kids_items(
            t,
            frame,
            idx,
            k - 1,
            places,
            shared,
            Some(id),
            margin,
            structural_only,
            true,
            plans,
        );
        let kid = t[idx].children[k - 1] as int;
        if !(!(0 <= idx < kid < t.len()) || (structural_only && widget_tag(t[kid].name))) {
            let part = node_items(
                t,
                frame,
                kid,
                Some(id),
                Some(place_of(places, shared, k - 1)),
                margin,
                plans[k - 1],
            );
            let added = ensure_all(part, Some(id));
            let all = before + added;
            assert forall|i: int| 0 <= i < all.len() implies depends_on(#[trigger] all[i], id) by {
                if i < before.len() {
                    assert(all[i] == before[i]);
                } else {
                    let j = i - before.len();
                    assert(all[i] == added[j]);
                    lemma_ensured(part[j].1, id);
                }
            }
        }
    }
}

/// Every button of a dialog depends on the dialog.
pub proof fn lemma_buttons_depend(dialog: ElementView, shares: Seq<Rect>, k: int)
    ensures
        all_depend_on(dialog_buttons(dialog, shares, k), dialog.id),
    decreases k,
{
    if k > 0 {
        lemma_buttons_depend(dialog, shares, k - 1);
        let before = dialog_buttons(dialog, shares, k - 1);
        let button = dialog_button(dialog, k - 1);
        assert(button.dependencies[0] == dialog.id);
        let all = before.push((shares[k - 1], button));
        assert forall|i: int| 0 <= i < all.len() implies depends_on(
            #[trigger] all[i],
            dialog.id,
        ) by {
            if i < before.len() {
                assert(all[i] == before[i]);
            }
        }
    }
}

/// Whatever a dialog shows besides itself depends on the dialog: its
/// content and its buttons.
pub proof fn lemma_dialog_dependents(
    t: Seq<ElementView>,
    frame: Rect,
    idx: int,
    dependency: Option<Seq<char>>,
    margin: Option<u16>,
    plan: Plan,
)
    ensures
        ({
            let items = dialog_items(t, frame, idx, dependency, margin, plan);
            forall|i: int| 1 <= i < items.len() ==> depends_on(#[trigger] items[i], t[idx].id)
        }),
{
    let items = dialog_items(t, frame, idx, dependency, margin, plan);
    if items.len() > 0 {
        let labels = button_labels(t[idx]);
        let inner = kids_items(
            t,
            frame,
            idx,
            t[idx].children.len() as int,
            Seq::empty(),
            Some(plan.splits[2][0]),
            Some(t[idx].id),
            Some(1u16),
            false,
            true,
            plan.kids,
        );
        let buttons = dialog_buttons(t[idx], plan.splits[3], labels.len() as int);
        lemma_kids_depend(
            t,
            frame,
            idx,
            t[idx].children.len() as int,
            Seq::empty(),
            Some(plan.splits[2][0]),
            t[idx].id,
            Some(1u16),
            false,
            plan.kids,
        );
        lemma_buttons_depend(t[idx], plan.splits[3], labels.len() as int);
        assert forall|i: int| 1 <= i < items.len() implies depends_on(
            #[trigger] items[i],
            t[idx].id,
        ) by {
            if i < 1 + inner.len() {
                assert(items[i] == inner[i - 1]);
            } else {
                assert(items[i] == buttons[i - 1 - inner.len()]);
            }
        }
    }
}

/// Whatever the content of a tab shows besides itself depends on it.
pub proof fn lemma_content_dependents(
    t: Seq<ElementView>,
    frame: Rect,
    idx: int,
    dependency: Option<Seq<char>>,
    place: Option<Rect>,
    margin: Option<u16>,
    plan: Plan,
)
    ensures
        ({
            let items = content_items(t, frame, idx, dependency, place, margin, plan);
            forall|i: int| 1 <= i < items.len() ==> depends_on(#[trigger] items[i], t[idx].id)
        }),
{
    let items = content_items(t, frame, idx, dependency, place, margin, plan);
    if items.len() > 0 {
        let inner = kids_items(
            t,
            frame,
            idx,
            t[idx].children.len() as int,
            Seq::empty(),
            Some(plan.splits[0][1]),
            Some(t[idx].id),
            Some(1u16),
            false,
            true,
            plan.kids,
        );
        lemma_kids_depend(
            t,
            frame,
            idx,
            t[idx].children.len() as int,
            Seq::empty(),
            Some(plan.splits[0][1]),
            t[idx].id,
            Some(1u16),
            false,
            plan.kids,
        );
        assert forall|i: int| 1 <= i < items.len() implies depends_on(
            #[trigger] items[i],
            t[idx].id,
        ) by {
            assert(items[i] == inner[i - 1]);
        }
    }
}

/// The buttons of a dialog stand in the shares of the button row, one
/// after the other.
pub proof fn lemma_button_places(dialog: ElementView, shares: Seq<Rect>, k: int)
    requires
        0 <= k,
    ensures
        dialog_buttons(dialog, shares, k).len() == k,
        forall|i: int|
            0 <= i < k ==> (#[trigger] dialog_buttons(dialog, shares, k)[i]).0 == shares[i],
    decreases k,
{
    if k > 0 {
        lemma_button_places(dialog, shares, k - 1);
        let before = dialog_buttons(dialog, shares, k - 1);
        let all = dialog_buttons(dialog, shares, k);
        assert forall|i: int| 0 <= i < k implies (#[trigger] all[i]).0 == shares[i] by {
            if i < k - 1 {
                assert(all[i] == before[i]);
            }
        }
    }
}

/// In a frame at the origin, a dialog that is shown lies within the
/// frame, and so does each of its buttons.
pub proof fn lemma_dialog_inside_frame(
    t: Seq<ElementView>,
    frame: Rect,
    idx: int,
    dependency: Option<Seq<char>>,
    margin: Option<u16>,
    plan: Plan,
)
    requires
        frame.x == 0,
        frame.y == 0,
        dialog_ok(t, frame, idx, margin, plan),
        dialog_items(t, frame, idx, dependency, margin, plan).len() > 0,
    ensures
        within(dialog_items(t, frame, idx, dependency, margin, plan)[0].0, frame),
        ({
            let buttons = dialog_buttons(
                t[idx],
                plan.splits[3],
                button_labels(t[idx]).len() as int,
            );
            forall|i: int| 0 <= i < buttons.len() ==> within((#[trigger] buttons[i]).0, frame)
        }),
{
    let m = margin_or_zero(margin);
    let columns = plan.splits[0];
    let rows = plan.splits[1];
    let parts = plan.splits[2];
    let shares = plan.splits[3];
    let n = button_labels(t[idx]).len() as int;
    lemma_inner_within(frame, m, frame);
    assert(within(columns[1], inner_area(frame, m)));
    lemma_within_transitive(columns[1], inner_area(frame, m), frame);
    lemma_inner_within(columns[1], m, frame);
    assert(within(rows[1], inner_area(columns[1], m)));
    lemma_within_transitive(rows[1], inner_area(columns[1], m), frame);
    lemma_inner_within(rows[1], 1, frame);
    assert(within(parts[1], inner_area(rows[1], 1)));
    lemma_within_transitive(parts[1], inner_area(rows[1], 1), frame);
    lemma_inner_within(parts[1], 0, frame);
    lemma_button_places(t[idx], shares, n);
    let buttons = dialog_buttons(t[idx], shares, n);
    assert forall|i: int| 0 <= i < buttons.len() implies within(
        (#[trigger] buttons[i]).0,
        frame,
    ) by {
        assert(within(shares[i], inner_area(parts[1], 0)));
        lemma_within_transitive(shares[i], inner_area(parts[1], 0), frame);
    }
}

/// The widgets of a container stand within the container's rectangle,
/// inside its margin.
pub proof fn lemma_widgets_inside(
    t: Seq<ElementView>,
    idx: int,
    chunks: Seq<Rect>,
    dependency: Option<Seq<char>>,
    k: int,
    outer: Rect,
)
    requires
        0 <= k <= chunks.len(),
        all_within(chunks, outer),
    ensures
        forall|i: int|
            0 <= i < widget_items(t, idx, chunks, dependency, k).len() ==> within(
                (#[trigger] widget_items(t, idx, chunks, dependency, k)[i]).0,
                outer,
            ),
    decreases k,
{
    if k > 0 {
        lemma_widgets_inside(t, idx, chunks, dependency, k - 1, outer);
        let before = widget_items(t, idx, chunks, dependency, k - 1);
        let all = widget_items(t, idx, chunks, dependency, k);
        assert forall|i: int| 0 <= i < all.len() implies within((#[trigger] all[i]).0, outer) by {
            if i < before.len() {
                assert(all[i] == before[i]);
            } else {
                assert(all[i].0 == chunks[k - 1]);
            }
        }
    }
}

/// What the first `k` children show does not depend on the outcomes for
/// later children.
pub proof fn lemma_kids_prefix(
    t: Seq<ElementView>,
    frame: Rect,
    idx: int,
    k: int,
    places: Seq<Rect>,
    shared: Option<Rect>,
    dependency: Option<Seq<char>>,
    margin: Option<u16>,
    structural_only: bool,
    ensure: bool,
    plans: Seq<Plan>,
    more: Plan,
)
    requires
        k <= plans.len(),
    ensures
        kids_items(
            t,
            frame,
            idx,
            k,
            places,
            shared,
            dependency,
            margin,
            structural_only,
            ensure,
            plans.push(more),
        ) == kids_items(
            t,
            frame,
            idx,
            k,
            places,
            shared,
            dependency,
            margin,
            structural_only,
            ensure,
            plans,
        ),
    decreases k,
{
    if k > 0 {
        lemma_kids_prefix(
            t,
            frame,
            idx,
            k - 1,
            places,
            shared,
            dependency,
            margin,
            structural_only,
            ensure,
            plans,
            more,
        );
        assert(plans.push(more)[k - 1] == plans[k - 1]);
    }
}

/// Adds a dependency at the end of an element's list, where one is given.
pub fn add_optional_dependency(e: &mut MarkupElement, dependency: &Option<String>)
    ensures
        final(e)@ == with_dependency(old(e)@, opt_view(*dependency)),
{
    match dependency {
        Some(id) => {
            e.add_dependency(id.as_str());
        },
        None => {},
    }
}

/// Adds a dependency at the end of an element's list, where one is given
/// and the list does not have it.
pub fn require_optional_dependency(e: &mut MarkupElement, dependency: &Option<String>)
    ensures
        final(e)@ == ensure_dependency(old(e)@, opt_view(*dependency)),
{
    match dependency {
        Some(id) => {
            e.require_dependency(id.as_str());
        },
        None => {},
    }
}

/// Adds copies of the placed elements of `more` to the end of `res`, each
/// with the dependency where `ensure` is set.
pub fn append_items(
    res: &mut Vec<(Rect, MarkupElement)>,
    more: &Vec<(Rect, MarkupElement)>,
    dependency: &Option<String>,
    ensure: bool,
)
    ensures
        items_view(final(res)@) == items_view(old(res)@) + if ensure {
            ensure_all(items_view(more@), opt_view(*dependency))
        } else {
            items_view(more@)
        },
{
    let ghost start = items_view(res@);
    let ghost added = if ensure {
        ensure_all(items_view(more@), opt_view(*dependency))
    } else {
        items_view(more@)
    };
    let mut j: usize = 0;
    while j < more.len()
        invariant
            j <= more.len(),
            added == if ensure {
                ensure_all(items_view(more@), opt_view(*dependency))
            } else {
                items_view(more@)
            },
            items_view(res@) == start + added.subrange(0, j as int),
        decreases more.len() - j,
    {
        let mut e = more[j].1.clone();
        if ensure {
            require_optional_dependency(&mut e, dependency);
        }
        let ghost before = items_view(res@);
        res.push((more[j].0, e));
        proof {
            assert(items_view(res@) =~= before.push((more@[j as int].0, e@)));
            assert(added.subrange(0, j + 1) =~= added.subrange(0, j as int).push(added[j as int]));
            assert(start + added.subrange(0, j + 1) =~= (start + added.subrange(0, j as int)).push(
                added[j as int],
            ));
        }
        j = j + 1;
    }
    proof {
        assert(added.subrange(0, more.len() as int) =~= added);
    }
}

fn rect_or(place: Option<Rect>, frame: Rect) -> (r: Rect)
    ensures
        r == place_or(place, frame),
{
    match place {
        Some(r) => r,
        None => frame,
    }
}

fn margin_of(margin: Option<u16>) -> (r: u16)
    ensures
        r == margin_or_zero(margin),
{
    match margin {
        Some(m) => m,
        None => 0,
    }
}

fn no_items() -> (r: Vec<(Rect, MarkupElement)>)
    ensures
        items_view(r@) =~= Seq::<Item>::empty(),
        r@.len() == 0,
{
    Vec::new()
}

/// The line under the header band of a tab strip.
pub fn make_tab_line() -> (r: MarkupElement)
    ensures
        r@ == tab_line(),
{
    let r = MarkupElement {
        position: None,
        deep: 0,
        id: owned("line_unk"),
        name: owned("tabs-borders"),
        order: -1,
        text: None,
        attributes: StringMap::new(),
        children: Vec::new(),
        parent_node: None,
        dependencies: Vec::new(),
    };
    proof {
        assert(strings_view(r.dependencies@) =~= Seq::<Seq<char>>::empty());
    }
    r
}

/// The labels of the buttons of a dialog.
pub fn dialog_labels(dialog: &MarkupElement) -> (r: Vec<String>)
    ensures
        strings_view(r@) == button_labels(dialog@),
        r@.len() >= 1,
{
    let buttons_text = dialog.attributes.get_or_empty("buttons");
    split_char(buttons_text.as_str(), '|')
}

/// Button `i` of a dialog, for the labels of its `buttons` attribute.
pub fn make_dialog_button(dialog: &MarkupElement, labels: &Vec<String>, i: usize) -> (r:
    MarkupElement)
    requires
        strings_view(labels@) == button_labels(dialog@),
        i < labels@.len(),
    ensures
        r@ == dialog_button(dialog@, i as int),
{
    let label = &labels[i];
    assert(label@ == button_labels(dialog@)[i as int]);
    let stem = joined(dialog.id.as_str(), "_btn_");
    let id = joined(stem.as_str(), label.as_str());
    let action = dialog.attributes.get_or_empty("action");
    let button_action = if action.as_str().unicode_len() > 0 {
        action
    } else {
        joined("on_", id.as_str())
    };
    let mut attributes = StringMap::new();
    attributes.insert(owned("id"), id.clone());
    attributes.insert(owned("action"), button_action);
    attributes.insert(owned("index"), natural_to_string(i as u64));
    let mut dependencies: Vec<String> = Vec::new();
    dependencies.push(dialog.id.clone());
    proof {
        assert(strings_view(dependencies@) =~= seq![dialog.id@]);
    }
    MarkupElement {
        position: None,
        deep: dialog.deep.wrapping_add(1),
        id,
        name: owned("button"),
        order: #[verifier::truncate]
        (i as i32),
        text: Some(label.clone()),
        attributes,
        children: Vec::new(),
        parent_node: dialog.position,
        dependencies,
    }
}

/// The buttons of a dialog, each in its share of the button row.
pub fn make_dialog_buttons(dialog: &MarkupElement, labels: &Vec<String>, shares: &Vec<Rect>) -> (r:
    Vec<(Rect, MarkupElement)>)
    requires
        strings_view(labels@) == button_labels(dialog@),
        shares@.len() == labels@.len(),
    ensures
        items_view(r@) == dialog_buttons(dialog@, shares@, labels@.len() as int),
{
    let mut res: Vec<(Rect, MarkupElement)> = Vec::new();
    proof {
        assert(items_view(res@) =~= Seq::<Item>::empty());
    }
    let mut i: usize = 0;
    while i < labels.len()
        invariant
            i <= labels.len(),
            strings_view(labels@) == button_labels(dialog@),
            shares@.len() == labels@.len(),
            items_view(res@) == dialog_buttons(dialog@, shares@, i as int),
        decreases labels.len() - i,
    {
        let button = make_dialog_button(dialog, labels, i);
        let ghost before = items_view(res@);
        res.push((shares[i], button));
        proof {
            assert(items_view(res@) =~= before.push((shares@[i as int], button@)));
        }
        i = i + 1;
    }
    res
}

impl MarkupTree {
    /// A copy of the element at a position, with a dependency added where
    /// one is given.
    pub fn element_under(&self, node: usize, dependency: &Option<String>) -> (r: MarkupElement)
        requires
            node < self@.len(),
        ensures
            r@ == with_dependency(self@[node as int], opt_view(*dependency)),
    {
        let mut e = self.node(node).clone();
        add_optional_dependency(&mut e, dependency);
        e
    }

    /// The sizing rule of each child of an element.
    pub fn get_constraints(&self, node: usize) -> (r: Vec<SizeConstraint>)
        requires
            node < self@.len(),
        ensures
            r@ == child_constraints(self@, node as int),
    {
        let current = self.node(node);
        let mut constraints: Vec<SizeConstraint> = Vec::new();
        let mut i: usize = 0;
        while i < current.children.len()
            invariant
                i <= current.children.len(),
                node < self@.len(),
                current@ == self@[node as int],
                node_wf(self@, node as int),
                constraints@.len() == i,
                forall|k: int|
                    0 <= k < i ==> constraints@[k] == child_constraints(self@, node as int)[k],
            decreases current.children.len() - i,
        {
            let child = self.node(current.children[i]);
            let text = child.attributes.get_or_empty("constraint");
            constraints.push(parse_constraint(text.as_str()));
            i = i + 1;
        }
        proof {
            assert(constraints@ =~= child_constraints(self@, node as int));
        }
        constraints
    }

    /// The tab that stands for child `j` of a header element.
    fn make_tab_button(&self, header: usize, j: usize) -> (r: MarkupElement)
        requires
            header < self@.len(),
            j < self@[header as int].children.len(),
        ensures
            r@ == tab_button(self@, header as int, j as int),
    {
        let head = self.node(header);
        let source = self.node(head.children[j]);
        proof {
            assert(node_wf(self@, head.children[j as int] as int));
        }
        let position: usize = j % 0x10000;
        let r = MarkupElement {
            position: None,
            deep: source.deep + 1,
            id: source.id.clone(),
            name: source.name.clone(),
            order: 10 + (position as i32),
            text: crate::markup_element::clone_text(&source.text),
            attributes: source.attributes.clone(),
            children: Vec::new(),
            parent_node: head.parent_node,
            dependencies: Vec::new(),
        };
        proof {
            assert(strings_view(r.dependencies@) =~= Seq::<Seq<char>>::empty());
        }
        r
    }

    /// What a tab strip shows in its header band.
    fn make_header_items(&self, node: usize, band: Rect) -> (r: Vec<(Rect, MarkupElement)>)
        requires
            node < self@.len(),
        ensures
            items_view(r@) == header_items(self@, node as int, band),
    {
        let current = self.node(node);
        let mut res: Vec<(Rect, MarkupElement)> = Vec::new();
        if current.children.len() == 0 {
            proof {
                assert(items_view(res@) =~= Seq::<Item>::empty());
            }
            return res;
        }
        let header = current.children[0];
        let head = self.node(header);
        res.push((band, make_tab_line()));
        proof {
            assert(items_view(res@) =~= seq![(band, tab_line())] + tab_items(
                self@,
                header as int,
                band,
                0,
            ));
        }
        let mut j: usize = 0;
        while j < head.children.len()
            invariant
                j <= head.children.len(),
                header < self@.len(),
                head@ == self@[header as int],
                items_view(res@) == seq![(band, tab_line())] + tab_items(
                    self@,
                    header as int,
                    band,
                    j as int,
                ),
            decreases head.children.len() - j,
        {
            let button = self.make_tab_button(header, j);
            let position: u64 = (j % 0x10000) as u64;
            let x: u16 = ((band.x as u64 + 1 + 9 * position) % 0x10000) as u16;
            let place = Rect { x, y: band.y, width: TAB_PITCH, height: 2 };
            assert(place == tab_place(band, j as int));
            let ghost before = items_view(res@);
            res.push((place, button));
            proof {
                assert(items_view(res@) =~= before.push((place, button@)));
                assert(items_view(res@) =~= seq![(band, tab_line())] + tab_items(
                    self@,
                    header as int,
                    band,
                    j + 1,
                ));
            }
            j = j + 1;
        }
        res
    }

    /// Lays out the children of an element one after the other, each in its
    /// place, as `kids_items` defines it for some outcome of the splits.
    pub fn process_children(
        &self,
        frame: Rect,
        node: usize,
        places: &Vec<Rect>,
        shared: Option<Rect>,
        dependency: &Option<String>,
        margin: Option<u16>,
        structural_only: bool,
        ensure: bool,
    ) -> (out: Vec<(Rect, MarkupElement)>)
        requires
            node < self@.len(),
            shared is None ==> places@.len() == self@[node as int].children.len(),
        ensures
            exists|plans: Seq<Plan>|
                kids_ok(
                    self@,
                    frame,
                    node as int,
                    self@[node as int].children.len() as int,
                    places@,
                    shared,
                    margin,
                    structural_only,
                    plans,
                ) && items_view(out@) == #[trigger] kids_items(
                    self@,
                    frame,
                    node as int,
                    self@[node as int].children.len() as int,
                    places@,
                    shared,
                    opt_view(*dependency),
                    margin,
                    structural_only,
                    ensure,
                    plans,
                ),
        decreases self@.len() - node, 1int, 0int,
    {
        let current = self.node(node);
        let mut res: Vec<(Rect, MarkupElement)> = no_items();
        let ghost mut plans: Seq<Plan> = Seq::empty();
        let ghost t = self@;
        let ghost dep = opt_view(*dependency);
        let mut i: usize = 0;
        while i < current.children.len()
            invariant
                i <= current.children.len(),
                node < self@.len(),
                t == self@,
                dep == opt_view(*dependency),
                current@ == self@[node as int],
                node_wf(self@, node as int),
                shared is None ==> places@.len() == self@[node as int].children.len(),
                plans.len() == i,
                kids_ok(
                    t,
                    frame,
                    node as int,
                    i as int,
                    places@,
                    shared,
                    margin,
                    structural_only,
                    plans,
                ),
                items_view(res@) == kids_items(
                    t,
                    frame,
                    node as int,
                    i as int,
                    places@,
                    shared,
                    dep,
                    margin,
                    structural_only,
                    ensure,
                    plans,
                ),
            decreases current.children.len() - i,
        {
            let child = current.children[i];
            let skip = structural_only && is_widget_tag(self.node(child).name.as_str());
            let ghost before_plans = plans;
            if !skip {
                let place = match shared {
                    Some(r) => r,
                    None => places[i],
                };
                let partial = self.process_node(frame, child, dependency, Some(place), margin);
                let ghost chosen = choose|p: Plan|
                    node_ok(t, frame, child as int, Some(place), margin, p) && items_view(partial@)
                        == node_items(t, frame, child as int, dep, Some(place), margin, p);
                append_items(&mut res, &partial, dependency, ensure);
                proof {
                    plans = before_plans.push(chosen);
                    assert(place == place_of(places@, shared, i as int));
                }
            } else {
                proof {
                    plans = before_plans.push(Plan { splits: Seq::empty(), kids: Seq::empty() });
                }
            }
            proof {
                lemma_kids_prefix(
                    t,
                    frame,
                    node as int,
                    i as int,
                    places@,
                    shared,
                    dep,
                    margin,
                    structural_only,
                    ensure,
                    before_plans,
                    plans[i as int],
                );
                lemma_kids_ok_prefix(
                    t,
                    frame,
                    node as int,
                    i as int,
                    places@,
                    shared,
                    margin,
                    structural_only,
                    before_plans,
                    plans[i as int],
                );
                assert(plans =~= before_plans.push(plans[i as int]));
            }
            i = i + 1;
        }
        res
    }

    /// Lays out the element at a position and what lies under it, in the
    /// given place or else the whole frame: the placed elements in drawing
    /// order, as `node_items` defines them for some outcome of the splits.
    /// The element is taken with `depends_on` added to its dependencies.
    pub fn process_node(
        &self,
        frame: Rect,
        node: usize,
        depends_on: &Option<String>,
        place: Option<Rect>,
        margin: Option<u16>,
    ) -> (out: Vec<(Rect, MarkupElement)>)
        requires
            node < self@.len(),
        ensures
            exists|plan: Plan|
                node_ok(self@, frame, node as int, place, margin, plan) && items_view(out@)
                    == #[trigger] node_items(
                    self@,
                    frame,
                    node as int,
                    opt_view(*depends_on),
                    place,
                    margin,
                    plan,
                ),
        decreases self@.len() - node, 3int, 0int,
    {
        let current = self.node(node);
        let name = current.name.as_str();
        let ghost t = self@;
        let ghost dep = opt_view(*depends_on);
        if str_eq(name, "styles") {
            let out = no_items();
            proof {
                let plan = Plan { splits: Seq::empty(), kids: Seq::empty() };
                assert(node_ok(t, frame, node as int, place, margin, plan));
                assert(items_view(out@) == node_items(
                    t,
                    frame,
                    node as int,
                    dep,
                    place,
                    margin,
                    plan,
                ));
            }
            out
        } else if str_eq(name, "layout") {
            let out = self.process_layout(frame, node, depends_on, place, margin);
            proof {
                let plan = choose|plan: Plan|
                    layout_ok(t, frame, node as int, place, margin, plan) && items_view(out@)
                        == layout_items(t, frame, node as int, dep, place, margin, plan);
                assert(node_ok(t, frame, node as int, place, margin, plan));
                assert(items_view(out@) == node_items(
                    t,
                    frame,
                    node as int,
                    dep,
                    place,
                    margin,
                    plan,
                ));
            }
            out
        } else if str_eq(name, "container") || str_eq(name, "block") {
            let out = self.process_block(frame, node, depends_on, place, margin);
            proof {
                let plan = choose|plan: Plan|
                    block_ok(t, frame, node as int, place, plan) && items_view(out@)
                        == block_items(t, frame, node as int, dep, place, plan);
                assert(node_ok(t, frame, node as int, place, margin, plan));
                assert(items_view(out@) == node_items(
                    t,
                    frame,
                    node as int,
                    dep,
                    place,
                    margin,
                    plan,
                ));
            }
            out
        } else {
            let found = self.process_other(frame, node, depends_on, place, margin);
            let ghost plan = choose|plan: Plan|
                other_ok(t, frame, node as int, place, margin, plan) && items_or_none(found)
                    == other_items(t, frame, node as int, dep, place, margin, plan);
            let out = match found {
                Some(value) => value,
                None => no_items(),
            };
            proof {
                assert(node_ok(t, frame, node as int, place, margin, plan));
                assert(items_view(out@) == node_items(
                    t,
                    frame,
                    node as int,
                    dep,
                    place,
                    margin,
                    plan,
                ));
            }
            out
        }
    }

    /// Lays out a `layout` element, as `layout_items` defines it.
    pub fn process_layout(
        &self,
        frame: Rect,
        node: usize,
        dependency: &Option<String>,
        place: Option<Rect>,
        margin: Option<u16>,
    ) -> (out: Vec<(Rect, MarkupElement)>)
        requires
            node < self@.len(),
        ensures
            exists|plan: Plan|
                layout_ok(self@, frame, node as int, place, margin, plan) && items_view(out@)
                    == #[trigger] layout_items(
                    self@,
                    frame,
                    node as int,
                    opt_view(*dependency),
                    place,
                    margin,
                    plan,
                ),
        decreases self@.len() - node, 2int, 0int,
    {
        let current = self.node(node);
        let split_space = rect_or(place, frame);
        let direction = direction_of(current);
        let constraints = self.get_constraints(node);
        let ghost t = self@;
        let ghost dep = opt_view(*dependency);
        match split(direction, margin_of(margin), &constraints, split_space) {
            None => {
                let out = no_items();
                proof {
                    let plan = Plan { splits: Seq::empty(), kids: Seq::empty() };
                    assert(layout_ok(t, frame, node as int, place, margin, plan));
                    assert(items_view(out@) == layout_items(
                        t,
                        frame,
                        node as int,
                        dep,
                        place,
                        margin,
                        plan,
                    ));
                }
                out
            },
            Some(chunks) => {
                let out = self.process_children(
                    frame,
                    node,
                    &chunks,
                    None,
                    dependency,
                    Some(1),
                    false,
                    true,
                );
                proof {
                    let plans = choose|plans: Seq<Plan>|
                        kids_ok(
                            t,
                            frame,
                            node as int,
                            t[node as int].children.len() as int,
                            chunks@,
                            None,
                            Some(1u16),
                            false,
                            plans,
                        ) && items_view(out@) == kids_items(
                            t,
                            frame,
                            node as int,
                            t[node as int].children.len() as int,
                            chunks@,
                            None,
                            dep,
                            Some(1u16),
                            false,
                            true,
                            plans,
                        );
                    let plan = Plan { splits: seq![chunks@], kids: plans };
                    assert(layout_ok(t, frame, node as int, place, margin, plan));
                    assert(items_view(out@) == layout_items(
                        t,
                        frame,
                        node as int,
                        dep,
                        place,
                        margin,
                        plan,
                    ));
                }
                out
            },
        }
    }

    /// Lays out a `container` or `block` element, as `block_items` defines
    /// it.
    pub fn process_block(
        &self,
        frame: Rect,
        node: usize,
        dependency: &Option<String>,
        place: Option<Rect>,
        _margin: Option<u16>,
    ) -> (out: Vec<(Rect, MarkupElement)>)
        requires
            node < self@.len(),
        ensures
            exists|plan: Plan|
                block_ok(self@, frame, node as int, place, plan) && items_view(out@)
                    == #[trigger] block_items(
                    self@,
                    frame,
                    node as int,
                    opt_view(*dependency),
                    place,
                    plan,
                ),
        decreases self@.len() - node, 2int, 0int,
    {
        let current = self.node(node);
        let split_space = rect_or(place, frame);
        let border_value = current.attributes.get_or_empty("border");
        let new_margin: u16 = if str_eq(border_value.as_str(), "") || str_eq(
            border_value.as_str(),
            "none",
        ) {
            0
        } else {
            1
        };
        let constraints = self.get_constraints(node);
        let ghost t = self@;
        let ghost dep = opt_view(*dependency);
        let chunks = match split(Direction::Horizontal, new_margin, &constraints, split_space) {
            None => {
                let out = no_items();
                proof {
                    let plan = Plan { splits: Seq::empty(), kids: Seq::empty() };
                    assert(block_ok(t, frame, node as int, place, plan));
                    assert(items_view(out@) == block_items(
                        t,
                        frame,
                        node as int,
                        dep,
                        place,
                        plan,
                    ));
                }
                return out;
            },
            Some(chunks) => chunks,
        };
        let mut res: Vec<(Rect, MarkupElement)> = Vec::new();
        let own = self.element_under(node, dependency);
        res.push((split_space, own));
        let inner = self.process_children(
            frame,
            node,
            &chunks,
            None,
            dependency,
            None,
            true,
            false,
        );
        let ghost plans = choose|plans: Seq<Plan>|
            kids_ok(
                t,
                frame,
                node as int,
                t[node as int].children.len() as int,
                chunks@,
                None,
                None,
                true,
                plans,
            ) && items_view(inner@) == kids_items(
                t,
                frame,
                node as int,
                t[node as int].children.len() as int,
                chunks@,
                None,
                dep,
                None,
                true,
                false,
                plans,
            );
        append_items(&mut res, &inner, dependency, false);
        let ghost head = seq![(split_space, with_dependency(t[node as int], dep))] + items_view(
            inner@,
        );
        proof {
            assert(items_view(res@) =~= head + widget_items(t, node as int, chunks@, dep, 0));
        }
        let mut i: usize = 0;
        while i < current.children.len()
            invariant
                i <= current.children.len(),
                node < self@.len(),
                t == self@,
                dep == opt_view(*dependency),
                current@ == self@[node as int],
                node_wf(self@, node as int),
                chunks@.len() == current.children.len(),
                items_view(res@) == head + widget_items(t, node as int, chunks@, dep, i as int),
            decreases current.children.len() - i,
        {
            let child = self.node(current.children[i]);
            if is_widget_tag(child.name.as_str()) {
                let mut widget = child.clone();
                require_optional_dependency(&mut widget, dependency);
                let ghost before = items_view(res@);
                res.push((chunks[i], widget));
                proof {
                    assert(items_view(res@) =~= before.push((chunks@[i as int], widget@)));
                    assert(items_view(res@) =~= head + widget_items(
                        t,
                        node as int,
                        chunks@,
                        dep,
                        i + 1,
                    ));
                }
            }
            i = i + 1;
        }
        proof {
            let plan = Plan { splits: seq![chunks@], kids: plans };
            assert(block_ok(t, frame, node as int, place, plan));
            assert(items_view(res@) == block_items(t, frame, node as int, dep, place, plan));
        }
        res
    }

    /// Lays out a `tabs` element, as `tabs_items` defines it. `None` where
    /// the solver cannot take the split.
    fn process_tabs(
        &self,
        frame: Rect,
        node: usize,
        dependency: &Option<String>,
        place: Option<Rect>,
        margin: Option<u16>,
    ) -> (r: Option<Vec<(Rect, MarkupElement)>>)
        requires
            node < self@.len(),
        ensures
            exists|plan: Plan|
                tabs_ok(self@, frame, node as int, place, margin, plan) && items_or_none(r)
                    == #[trigger] tabs_items(
                    self@,
                    frame,
                    node as int,
                    opt_view(*dependency),
                    place,
                    margin,
                    plan,
                ),
            r matches Some(v) ==> v@.len() > 0,
        decreases self@.len() - node, 2int, 0int,
    {
        let current = self.node(node);
        let split_space = rect_or(place, frame);
        let ghost t = self@;
        let ghost dep = opt_view(*dependency);
        let rest: u16 = if split_space.height >= TAB_HEADER_HEIGHT {
            split_space.height - TAB_HEADER_HEIGHT
        } else {
            0
        };
        let mut constraints: Vec<SizeConstraint> = Vec::new();
        constraints.push(SizeConstraint::Length(TAB_HEADER_HEIGHT));
        constraints.push(SizeConstraint::Length(rest));
        proof {
            assert(constraints@ =~= tab_bands(split_space));
        }
        let bands = match split(Direction::Vertical, margin_of(margin), &constraints, split_space) {
            None => {
                proof {
                    let plan = Plan { splits: Seq::empty(), kids: Seq::empty() };
                    assert(tabs_ok(t, frame, node as int, place, margin, plan));
                    assert(Seq::<Item>::empty() == tabs_items(
                        t,
                        frame,
                        node as int,
                        dep,
                        place,
                        margin,
                        plan,
                    ));
                }
                return None;
            },
            Some(bands) => bands,
        };
        let mut res: Vec<(Rect, MarkupElement)> = Vec::new();
        res.push((split_space, self.element_under(node, dependency)));
        let header = self.make_header_items(node, bands[0]);
        append_items(&mut res, &header, dependency, false);
        let ghost mut body_plan = Plan { splits: Seq::empty(), kids: Seq::empty() };
        let body = if current.children.len() >= 2 {
            let no_dependency: Option<String> = None;
            let body = self.process_node(
                frame,
                current.children[1],
                &no_dependency,
                Some(bands[1]),
                Some(1),
            );
            proof {
                body_plan = choose|p: Plan|
                    node_ok(t, frame, current.children[1] as int, Some(bands@[1]), Some(1u16), p)
                        && items_view(body@) == node_items(
                        t,
                        frame,
                        current.children[1] as int,
                        None,
                        Some(bands@[1]),
                        Some(1u16),
                        p,
                    );
            }
            body
        } else {
            no_items()
        };
        append_items(&mut res, &body, dependency, false);
        proof {
            let plan = Plan { splits: seq![bands@], kids: seq![body_plan, body_plan] };
            assert(tabs_body_ok(t, frame, node as int, bands@[1], plan));
            assert(tabs_ok(t, frame, node as int, place, margin, plan));
            assert(items_view(body@) == tabs_body(t, frame, node as int, bands@[1], plan));
            assert(items_view(res@) =~= seq![(split_space, with_dependency(t[node as int], dep))]
                + header_items(t, node as int, bands@[0]) + items_view(body@));
            assert(items_view(res@) == tabs_items(t, frame, node as int, dep, place, margin, plan));
        }
        Some(res)
    }

    /// Lays out a `tab-content` element, as `content_items` defines it.
    /// `None` where the solver cannot take the split.
    fn process_content(
        &self,
        frame: Rect,
        node: usize,
        dependency: &Option<String>,
        place: Option<Rect>,
        margin: Option<u16>,
    ) -> (r: Option<Vec<(Rect, MarkupElement)>>)
        requires
            node < self@.len(),
        ensures
            exists|plan: Plan|
                content_ok(self@, frame, node as int, place, margin, plan) && items_or_none(r)
                    == #[trigger] content_items(
                    self@,
                    frame,
                    node as int,
                    opt_view(*dependency),
                    place,
                    margin,
                    plan,
                ),
            r matches Some(v) ==> v@.len() > 0,
        decreases self@.len() - node, 2int, 0int,
    {
        let current = self.node(node);
        let split_space = rect_or(place, frame);
        let ghost t = self@;
        let ghost dep = opt_view(*dependency);
        let mut constraints: Vec<SizeConstraint> = Vec::new();
        constraints.push(SizeConstraint::Percentage(10));
        constraints.push(SizeConstraint::Percentage(90));
        proof {
            assert(constraints@ =~= content_bands());
        }
        let bands = match split(Direction::Vertical, margin_of(margin), &constraints, split_space) {
            None => {
                proof {
                    let plan = Plan { splits: Seq::empty(), kids: Seq::empty() };
                    assert(content_ok(t, frame, node as int, place, margin, plan));
                    assert(Seq::<Item>::empty() == content_items(
                        t,
                        frame,
                        node as int,
                        dep,
                        place,
                        margin,
                        plan,
                    ));
                }
                return None;
            },
            Some(bands) => bands,
        };
        let own_id: Option<String> = Some(current.id.clone());
        let mut res: Vec<(Rect, MarkupElement)> = Vec::new();
        res.push((bands[1], self.element_under(node, dependency)));
        let none: Vec<Rect> = Vec::new();
        let inner = self.process_children(
            frame,
            node,
            &none,
            Some(bands[1]),
            &own_id,
            Some(1),
            false,
            true,
        );
        append_items(&mut res, &inner, dependency, false);
        proof {
            assert(none@ =~= Seq::<Rect>::empty());
            let plans = choose|plans: Seq<Plan>|
                kids_ok(
                    t,
                    frame,
                    node as int,
                    t[node as int].children.len() as int,
                    none@,
                    Some(bands@[1]),
                    Some(1u16),
                    false,
                    plans,
                ) && items_view(inner@) == kids_items(
                    t,
                    frame,
                    node as int,
                    t[node as int].children.len() as int,
                    none@,
                    Some(bands@[1]),
                    Some(t[node as int].id),
                    Some(1u16),
                    false,
                    true,
                    plans,
                );
            let plan = Plan { splits: seq![bands@], kids: plans };
            assert(content_ok(t, frame, node as int, place, margin, plan));
            assert(items_view(res@) =~= seq![(bands@[1], with_dependency(t[node as int], dep))]
                + items_view(inner@));
            assert(items_view(res@) == content_items(
                t,
                frame,
                node as int,
                dep,
                place,
                margin,
                plan,
            ));
        }
        Some(res)
    }

    /// Lays out a `dialog` element, as `dialog_items` defines it. `None`
    /// where the solver cannot take one of the splits.
    fn process_dialog(
        &self,
        frame: Rect,
        node: usize,
        dependency: &Option<String>,
        margin: Option<u16>,
    ) -> (r: Option<Vec<(Rect, MarkupElement)>>)
        requires
            node < self@.len(),
        ensures
            exists|plan: Plan|
                dialog_ok(self@, frame, node as int, margin, plan) && items_or_none(r)
                    == #[trigger] dialog_items(
                    self@,
                    frame,
                    node as int,
                    opt_view(*dependency),
                    margin,
                    plan,
                ),
            r matches Some(v) ==> v@.len() > 0,
        decreases self@.len() - node, 2int, 0int,
    {
        let current = self.node(node);
        let ghost t = self@;
        let ghost dep = opt_view(*dependency);
        let ghost nothing = Seq::<Item>::empty();
        let ghost unused = Seq::<Rect>::empty();
        let ghost no_plans = Seq::<Plan>::empty();
        let mut columns_rule: Vec<SizeConstraint> = Vec::new();
        columns_rule.push(SizeConstraint::Percentage(34));
        columns_rule.push(SizeConstraint::Percentage(32));
        columns_rule.push(SizeConstraint::Percentage(34));
        let mut rows_rule: Vec<SizeConstraint> = Vec::new();
        rows_rule.push(SizeConstraint::Percentage(31));
        rows_rule.push(SizeConstraint::Percentage(34));
        rows_rule.push(SizeConstraint::Percentage(31));
        let mut parts_rule: Vec<SizeConstraint> = Vec::new();
        parts_rule.push(SizeConstraint::Percentage(80));
        parts_rule.push(SizeConstraint::Percentage(20));
        proof {
            assert(columns_rule@ =~= dialog_columns());
            assert(rows_rule@ =~= dialog_rows());
            assert(parts_rule@ =~= dialog_parts());
        }
        let columns = match split(Direction::Horizontal, margin_of(margin), &columns_rule, frame) {
            None => {
                proof {
                    let plan = Plan { splits: Seq::empty(), kids: no_plans };
                    assert(dialog_ok(t, frame, node as int, margin, plan));
                    assert(nothing == dialog_items(t, frame, node as int, dep, margin, plan));
                }
                return None;
            },
            Some(columns) => columns,
        };
        let rows = match split(Direction::Vertical, margin_of(margin), &rows_rule, columns[1]) {
            None => {
                proof {
                    let splits = seq![columns@, unused, unused, unused];
                    let plan = Plan { splits, kids: no_plans };
                    assert(dialog_ok(t, frame, node as int, margin, plan));
                    assert(nothing == dialog_items(t, frame, node as int, dep, margin, plan));
                }
                return None;
            },
            Some(rows) => rows,
        };
        let area = rows[1];
        let parts = match split(Direction::Vertical, 1, &parts_rule, area) {
            None => {
                proof {
                    let splits = seq![columns@, rows@, unused, unused];
                    let plan = Plan { splits, kids: no_plans };
                    assert(dialog_ok(t, frame, node as int, margin, plan));
                    assert(nothing == dialog_items(t, frame, node as int, dep, margin, plan));
                }
                return None;
            },
            Some(parts) => parts,
        };
        let labels = dialog_labels(current);
        let share: u16 = (100 / labels.len()) as u16;
        let mut shares_rule: Vec<SizeConstraint> = Vec::new();
        let mut k: usize = 0;
        while k < labels.len()
            invariant
                k <= labels.len(),
                labels@.len() >= 1,
                share == (100int / labels@.len() as int) as u16,
                shares_rule@.len() == k,
                forall|j: int| 0 <= j < k ==> shares_rule@[j] == SizeConstraint::Percentage(share),
            decreases labels.len() - k,
        {
            shares_rule.push(SizeConstraint::Percentage(share));
            k = k + 1;
        }
        proof {
            assert(shares_rule@ =~= button_shares(labels@.len()));
        }
        let shares = match split(Direction::Horizontal, 0, &shares_rule, parts[1]) {
            None => {
                proof {
                    let splits = seq![columns@, rows@, parts@, unused];
                    let plan = Plan { splits, kids: no_plans };
                    assert(dialog_ok(t, frame, node as int, margin, plan));
                    assert(nothing == dialog_items(t, frame, node as int, dep, margin, plan));
                }
                return None;
            },
            Some(shares) => shares,
        };
        let own_id: Option<String> = Some(current.id.clone());
        let mut res: Vec<(Rect, MarkupElement)> = Vec::new();
        res.push((area, self.element_under(node, dependency)));
        let none: Vec<Rect> = Vec::new();
        let inner = self.process_children(
            frame,
            node,
            &none,
            Some(parts[0]),
            &own_id,
            Some(1),
            false,
            true,
        );
        append_items(&mut res, &inner, dependency, false);
        let buttons = make_dialog_buttons(current, &labels, &shares);
        append_items(&mut res, &buttons, dependency, false);
        proof {
            assert(none@ =~= Seq::<Rect>::empty());
            let plans = choose|plans: Seq<Plan>|
                kids_ok(
                    t,
                    frame,
                    node as int,
                    t[node as int].children.len() as int,
                    none@,
                    Some(parts@[0]),
                    Some(1u16),
                    false,
                    plans,
                ) && items_view(inner@) == kids_items(
                    t,
                    frame,
                    node as int,
                    t[node as int].children.len() as int,
                    none@,
                    Some(parts@[0]),
                    Some(t[node as int].id),
                    Some(1u16),
                    false,
                    true,
                    plans,
                );
            let plan = Plan { splits: seq![columns@, rows@, parts@, shares@], kids: plans };
            assert(dialog_ok(t, frame, node as int, margin, plan));
            assert(items_view(res@) =~= seq![(area, with_dependency(t[node as int], dep))]
                + items_view(inner@) + dialog_buttons(
                t[node as int],
                shares@,
                labels@.len() as int,
            ));
            assert(items_view(res@) == dialog_items(t, frame, node as int, dep, margin, plan));
        }
        Some(res)
    }

    /// Lays out an element of any other tag, as `plain_items` defines it.
    /// `None` where the solver cannot take the split.
    fn process_plain(
        &self,
        frame: Rect,
        node: usize,
        dependency: &Option<String>,
        place: Option<Rect>,
        margin: Option<u16>,
    ) -> (r: Option<Vec<(Rect, MarkupElement)>>)
        requires
            node < self@.len(),
        ensures
            exists|plan: Plan|
                plain_ok(self@, frame, node as int, place, margin, plan) && items_or_none(r)
                    == #[trigger] plain_items(
                    self@,
                    frame,
                    node as int,
                    opt_view(*dependency),
                    place,
                    margin,
                    plan,
                ),
            r matches Some(v) ==> v@.len() > 0,
        decreases self@.len() - node, 2int, 0int,
    {
        let split_space = rect_or(place, frame);
        let ghost t = self@;
        let ghost dep = opt_view(*dependency);
        let mut constraints: Vec<SizeConstraint> = Vec::new();
        constraints.push(SizeConstraint::Percentage(100));
        proof {
            assert(constraints@ =~= whole());
        }
        let found = split(Direction::Horizontal, margin_of(margin), &constraints, split_space);
        let parts = match found {
            None => {
                proof {
                    let plan = Plan { splits: Seq::empty(), kids: Seq::empty() };
                    assert(plain_ok(t, frame, node as int, place, margin, plan));
                    assert(Seq::<Item>::empty() == plain_items(
                        t,
                        frame,
                        node as int,
                        dep,
                        place,
                        margin,
                        plan,
                    ));
                }
                return None;
            },
            Some(parts) => parts,
        };
        let mut res: Vec<(Rect, MarkupElement)> = Vec::new();
        res.push((parts[0], self.element_under(node, dependency)));
        let none: Vec<Rect> = Vec::new();
        let inner = self.process_children(
            frame,
            node,
            &none,
            Some(split_space),
            dependency,
            Some(1),
            false,
            true,
        );
        append_items(&mut res, &inner, dependency, false);
        proof {
            assert(none@ =~= Seq::<Rect>::empty());
            let plans = choose|plans: Seq<Plan>|
                kids_ok(
                    t,
                    frame,
                    node as int,
                    t[node as int].children.len() as int,
                    none@,
                    Some(split_space),
                    Some(1u16),
                    false,
                    plans,
                ) && items_view(inner@) == kids_items(
                    t,
                    frame,
                    node as int,
                    t[node as int].children.len() as int,
                    none@,
                    Some(split_space),
                    dep,
                    Some(1u16),
                    false,
                    true,
                    plans,
                );
            let plan = Plan { splits: seq![parts@], kids: plans };
            assert(plain_ok(t, frame, node as int, place, margin, plan));
            assert(items_view(res@) =~= seq![(parts@[0], with_dependency(t[node as int], dep))]
                + items_view(inner@));
            assert(items_view(res@) == plain_items(
                t,
                frame,
                node as int,
                dep,
                place,
                margin,
                plan,
            ));
        }
        Some(res)
    }

    /// Lays out an element that is neither a `layout` nor a container, as
    /// `other_items` defines it. `None` where the solver cannot take a
    /// split that the element needs: the element then shows nothing.
    pub fn process_other(
        &self,
        frame: Rect,
        node: usize,
        depends_on: &Option<String>,
        place: Option<Rect>,
        margin: Option<u16>,
    ) -> (r: Option<Vec<(Rect, MarkupElement)>>)
        requires
            node < self@.len(),
        ensures
            exists|plan: Plan|
                other_ok(self@, frame, node as int, place, margin, plan) && items_or_none(r)
                    == #[trigger] other_items(
                    self@,
                    frame,
                    node as int,
                    opt_view(*depends_on),
                    place,
                    margin,
                    plan,
                ),
            r matches Some(v) ==> v@.len() > 0,
        decreases self@.len() - node, 2int, 1int,
    {
        let current = self.node(node);
        let name = current.name.as_str();
        let ghost t = self@;
        let ghost dep = opt_view(*depends_on);
        if str_eq(name, "tabs") {
            let r = self.process_tabs(frame, node, depends_on, place, margin);
            proof {
                let plan = choose|plan: Plan|
                    tabs_ok(t, frame, node as int, place, margin, plan) && items_or_none(r)
                        == tabs_items(t, frame, node as int, dep, place, margin, plan);
                assert(other_ok(t, frame, node as int, place, margin, plan));
                assert(items_or_none(r) == other_items(
                    t,
                    frame,
                    node as int,
                    dep,
                    place,
                    margin,
                    plan,
                ));
            }
            r
        } else if str_eq(name, "tab-content") {
            let r = self.process_content(frame, node, depends_on, place, margin);
            proof {
                let plan = choose|plan: Plan|
                    content_ok(t, frame, node as int, place, margin, plan) && items_or_none(r)
                        == content_items(t, frame, node as int, dep, place, margin, plan);
                assert(other_ok(t, frame, node as int, place, margin, plan));
                assert(items_or_none(r) == other_items(
                    t,
                    frame,
                    node as int,
                    dep,
                    place,
                    margin,
                    plan,
                ));
            }
            r
        } else if str_eq(name, "dialog") {
            let r = self.process_dialog(frame, node, depends_on, margin);
            proof {
                let plan = choose|plan: Plan|
                    dialog_ok(t, frame, node as int, margin, plan) && items_or_none(r)
                        == dialog_items(t, frame, node as int, dep, margin, plan);
                assert(other_ok(t, frame, node as int, place, margin, plan));
                assert(items_or_none(r) == other_items(
                    t,
                    frame,
                    node as int,
                    dep,
                    place,
                    margin,
                    plan,
                ));
            }
            r
        } else {
            let r = self.process_plain(frame, node, depends_on, place, margin);
            proof {
                let plan = choose|plan: Plan|
                    plain_ok(t, frame, node as int, place, margin, plan) && items_or_none(r)
                        == plain_items(t, frame, node as int, dep, place, margin, plan);
                assert(other_ok(t, frame, node as int, place, margin, plan));
                assert(items_or_none(r) == other_items(
                    t,
                    frame,
                    node as int,
                    dep,
                    place,
                    margin,
                    plan,
                ));
            }
            r
        }
    }
}

} // verus!
