//! The shape of a layout: which elements it shows, in which order and with
//! which dependencies. The solver chooses the sizes of the parts; in a
//! frame of modest size, and for rules with percentages up to a hundred,
//! the shape is the same whatever it chooses.

use crate::geometry::{
    constraint_fits, extent, in_plane, inner_area, splittable, within, Direction, Rect,
    SizeConstraint,
};
use crate::grammar::{direction_spec, widget_tag};
use crate::layout::{
    border_margin, button_labels, button_shares, child_constraints, content_bands, dialog_buttons,
    dialog_columns, dialog_items, dialog_ok, dialog_parts, dialog_rows, ensure_all, header_items,
    kids_items, kids_ok, margin_or_zero, node_items, node_ok, place_of, place_or, split_outcome,
    tab_bands, tab_items, tab_line, tabs_body, tabs_items, tabs_ok, whole, widget_items, Item,
    Plan,
};
use crate::markup_element::{with_dependency, ElementView};
use vstd::prelude::*;

verus! {

/// Whether two lists of placed elements hold the same elements in the same
/// order; the places may differ.
pub open spec fn same_elements(a: Seq<Item>, b: Seq<Item>) -> bool {
    &&& a.len() == b.len()
    &&& forall|i: int| 0 <= i < a.len() ==> (#[trigger] a[i]).1 == b[i].1
}

/// A rectangle that ends within the 16-bit plane and has at most 655 cells
/// each way: a percentage up to a hundred of one of its lengths stays
/// within 16 bits.
pub open spec fn modest(area: Rect) -> bool {
    in_plane(area) && area.width <= 655 && area.height <= 655
}

/// Whether no percentage among the rules is over a hundred.
pub open spec fn mild(rules: Seq<SizeConstraint>) -> bool {
    forall|i: int|
        0 <= i < rules.len() ==> match #[trigger] rules[i] {
            SizeConstraint::Percentage(p) => p <= 100,
            _ => true,
        }
}

/// Whether no element of a tree asks for a percentage over a hundred.
pub open spec fn mild_tree(t: Seq<ElementView>) -> bool {
    forall|idx: int| 0 <= idx < t.len() ==> mild(#[trigger] child_constraints(t, idx))
}

/// Whether the solver takes rules inside a margin in every modest
/// rectangle: the margin fits into 16 bits twice and every ratio has a
/// denominator.
pub open spec fn taken(margin: u16, rules: Seq<SizeConstraint>) -> bool {
    &&& 2 * margin <= u16::MAX
    &&& forall|i: int|
        0 <= i < rules.len() ==> match #[trigger] rules[i] {
            SizeConstraint::Ratio(_, d) => d != 0,
            _ => true,
        }
}

/// In a modest rectangle, whether the solver can take mild rules depends
/// on the margin and the rules alone.
pub proof fn lemma_taken(
    direction: Direction,
    margin: u16,
    rules: Seq<SizeConstraint>,
    area: Rect,
)
    requires
        modest(area),
        mild(rules),
    ensures
        splittable(direction, margin, rules, area) == taken(margin, rules),
{
    let inner = inner_area(area, margin);
    let length = extent(direction, inner);
    assert(modest(inner));
    assert forall|i: int| 0 <= i < rules.len() implies constraint_fits(
        #[trigger] rules[i],
        length,
    ) == (match rules[i] {
        SizeConstraint::Ratio(_, d) => d != 0,
        _ => true,
    }) by {
        match rules[i] {
            SizeConstraint::Percentage(p) => {
                assert(p * length <= u16::MAX) by (nonlinear_arith)
                    requires
                        0 <= p <= 100,
                        0 <= length <= 655,
                ;
            },
            _ => {},
        }
    }
}

/// What lies within a modest rectangle, inside any margin, is modest.
pub proof fn lemma_part_modest(part: Rect, area: Rect, margin: u16)
    requires
        modest(area),
        within(part, inner_area(area, margin)),
    ensures
        modest(part),
{
}

/// Lists with the same elements, one after the other, have the same
/// elements.
pub proof fn lemma_same_joined(a1: Seq<Item>, b1: Seq<Item>, a2: Seq<Item>, b2: Seq<Item>)
    requires
        same_elements(a1, a2),
        same_elements(b1, b2),
    ensures
        same_elements(a1 + b1, a2 + b2),
{
    let first = a1 + b1;
    let second = a2 + b2;
    assert forall|i: int| 0 <= i < first.len() implies (#[trigger] first[i]).1 == second[i].1 by {
        if i < a1.len() {
            assert(first[i] == a1[i]);
            assert(second[i] == a2[i]);
        } else {
            assert(first[i] == b1[i - a1.len()]);
            assert(second[i] == b2[i - a2.len()]);
        }
    }
}

/// Lists with the same elements still have the same elements once each
/// element was given a dependency.
pub proof fn lemma_same_ensured(a: Seq<Item>, b: Seq<Item>, dependency: Option<Seq<char>>)
    requires
        same_elements(a, b),
    ensures
        same_elements(ensure_all(a, dependency), ensure_all(b, dependency)),
{
    let first = ensure_all(a, dependency);
    let second = ensure_all(b, dependency);
    assert forall|i: int| 0 <= i < first.len() implies (#[trigger] first[i]).1 == second[i].1 by {
        assert(a[i].1 == b[i].1);
    }
}

/// The widgets among the children of a container are the same whatever
/// the parts of the container.
pub proof fn lemma_same_widgets(
    t: Seq<ElementView>,
    idx: int,
    chunks1: Seq<Rect>,
    chunks2: Seq<Rect>,
    dependency: Option<Seq<char>>,
    k: int,
)
    ensures
        same_elements(
            widget_items(t, idx, chunks1, dependency, k),
            widget_items(t, idx, chunks2, dependency, k),
        ),
    decreases k,
{
    if k > 0 {
        lemma_same_widgets(t, idx, chunks1, chunks2, dependency, k - 1);
    }
}

/// The tabs of a header are the same whatever the header band.
pub proof fn lemma_same_tabs(t: Seq<ElementView>, header: int, band1: Rect, band2: Rect, k: int)
    ensures
        same_elements(tab_items(t, header, band1, k), tab_items(t, header, band2, k)),
    decreases k,
{
    if k > 0 {
        lemma_same_tabs(t, header, band1, band2, k - 1);
    }
}

/// The buttons of a dialog are the same whatever their shares of the
/// button row.
pub proof fn lemma_same_buttons(dialog: ElementView, shares1: Seq<Rect>, shares2: Seq<Rect>, k: int)
    ensures
        same_elements(dialog_buttons(dialog, shares1, k), dialog_buttons(dialog, shares2, k)),
    decreases k,
{
    if k > 0 {
        lemma_same_buttons(dialog, shares1, shares2, k - 1);
    }
}

/// Every part of a split of a modest rectangle is modest.
pub proof fn lemma_parts_modest(
    direction: Direction,
    parts: Seq<Rect>,
    count: nat,
    area: Rect,
    margin: u16,
)
    requires
        modest(area),
        split_outcome(direction, parts, count, area, margin),
    ensures
        forall|j: int| 0 <= j < count ==> modest(#[trigger] parts[j]),
{
    assert forall|j: int| 0 <= j < count implies modest(#[trigger] parts[j]) by {
        assert(within(parts[j], inner_area(area, margin)));
        lemma_part_modest(parts[j], area, margin);
    }
}

/// What the first `k` children of an element show has the same elements
/// in two passes that give the children modest places.
pub proof fn lemma_same_shape_kids(
    t: Seq<ElementView>,
    frame: Rect,
    idx: int,
    k: int,
    places1: Seq<Rect>,
    places2: Seq<Rect>,
    shared1: Option<Rect>,
    shared2: Option<Rect>,
    dependency: Option<Seq<char>>,
    margin: Option<u16>,
    structural_only: bool,
    ensure: bool,
    plans1: Seq<Plan>,
    plans2: Seq<Plan>,
)
    requires
        0 <= idx < t.len(),
        mild_tree(t),
        modest(frame),
        forall|j: int| 0 <= j < k ==> modest(#[trigger] place_of(places1, shared1, j)),
        forall|j: int| 0 <= j < k ==> modest(#[trigger] place_of(places2, shared2, j)),
        kids_ok(t, frame, idx, k, places1, shared1, margin, structural_only, plans1),
        kids_ok(t, frame, idx, k, places2, shared2, margin, structural_only, plans2),
    ensures
        same_elements(
            kids_items(
                t,
                frame,
                idx,
                k,
                places1,
                shared1,
                dependency,
                margin,
                structural_only,
                ensure,
                plans1,
            ),
            kids_items(
                t,
                frame,
                idx,
                k,
                places2,
                shared2,
                dependency,
                margin,
                structural_only,
                ensure,
                plans2,
            ),
        ),
    decreases t.len() - idx, 1int, k,
{
    if k > 0 {
        lemma_same_shape_kids(
            t,
            frame,
            idx,
            k - 1,
            places1,
            places2,
            shared1,
            shared2,
            dependency,
            margin,
            structural_only,
            ensure,
            plans1,
            plans2,
        );
        let before1 = kids_items(
            t,
            frame,
            idx,
            k - 1,
            places1,
            shared1,
            dependency,
            margin,
            structural_only,
            ensure,
            plans1,
        );
        let before2 = kids_items(
            t,
            frame,
            idx,
            k - 1,
            places2,
            shared2,
            dependency,
            margin,
            structural_only,
            ensure,
            plans2,
        );
        let kid = t[idx].children[k - 1] as int;
        if !(!(0 <= idx < kid < t.len()) || (structural_only && widget_tag(t[kid].name))) {
            let place1 = place_of(places1, shared1, k - 1);
            let place2 = place_of(places2, shared2, k - 1);
            assert(modest(place1));
            assert(modest(place2));
            lemma_same_shape(
                t,
                frame,
                kid,
                dependency,
                Some(place1),
                Some(place2),
                margin,
                plans1[k - 1],
                plans2[k - 1],
            );
            let part1 = node_items(t, frame, kid, dependency, Some(place1), margin, plans1[k - 1]);
            let part2 = node_items(t, frame, kid, dependency, Some(place2), margin, plans2[k - 1]);
            if ensure {
                lemma_same_ensured(part1, part2, dependency);
                lemma_same_joined(
                    before1,
                    ensure_all(part1, dependency),
                    before2,
                    ensure_all(part2, dependency),
                );
            } else {
                lemma_same_joined(before1, part1, before2, part2);
            }
        }
    }
}

/// Which elements a layout shows, in which order and with which
/// dependencies, does not depend on the sizes that the solver gives the
/// parts, nor on the place of the layout: two passes over an element of a
/// tree without a percentage over a hundred, in a modest frame and in
/// modest places, show the same elements.
pub proof fn lemma_same_shape(
    t: Seq<ElementView>,
    frame: Rect,
    idx: int,
    dependency: Option<Seq<char>>,
    place1: Option<Rect>,
    place2: Option<Rect>,
    margin: Option<u16>,
    plan1: Plan,
    plan2: Plan,
)
    requires
        0 <= idx < t.len(),
        mild_tree(t),
        modest(frame),
        modest(place_or(place1, frame)),
        modest(place_or(place2, frame)),
        node_ok(t, frame, idx, place1, margin, plan1),
        node_ok(t, frame, idx, place2, margin, plan2),
    ensures
        same_elements(
            node_items(t, frame, idx, dependency, place1, margin, plan1),
            node_items(t, frame, idx, dependency, place2, margin, plan2),
        ),
    decreases t.len() - idx, 3int, 0int,
{
    let name = t[idx].name;
    let n = t[idx].children.len();
    let area1 = place_or(place1, frame);
    let area2 = place_or(place2, frame);
    let m = margin_or_zero(margin);
    let rules = child_constraints(t, idx);
    assert(mild(rules));
    if name == "styles"@ {
    } else if name == "layout"@ {
        let direction = direction_spec(t[idx].attributes);
        lemma_taken(direction, m, rules, area1);
        lemma_taken(direction, m, rules, area2);
        if taken(m, rules) {
            lemma_parts_modest(direction, plan1.splits[0], n, area1, m);
            lemma_parts_modest(direction, plan2.splits[0], n, area2, m);
            lemma_same_shape_kids(
                t,
                frame,
                idx,
                n as int,
                plan1.splits[0],
                plan2.splits[0],
                None,
                None,
                dependency,
                Some(1u16),
                false,
                true,
                plan1.kids,
                plan2.kids,
            );
        }
    } else if name == "container"@ || name == "block"@ {
        let b = border_margin(t[idx].attributes);
        lemma_taken(Direction::Horizontal, b, rules, area1);
        lemma_taken(Direction::Horizontal, b, rules, area2);
        if taken(b, rules) {
            lemma_parts_modest(Direction::Horizontal, plan1.splits[0], n, area1, b);
            lemma_parts_modest(Direction::Horizontal, plan2.splits[0], n, area2, b);
            lemma_same_shape_kids(
                t,
                frame,
                idx,
                n as int,
                plan1.splits[0],
                plan2.splits[0],
                None,
                None,
                dependency,
                None,
                true,
                false,
                plan1.kids,
                plan2.kids,
            );
            lemma_same_widgets(t, idx, plan1.splits[0], plan2.splits[0], dependency, n as int);
            let own1 = seq![(area1, with_dependency(t[idx], dependency))];
            let own2 = seq![(area2, with_dependency(t[idx], dependency))];
            let kids1 = kids_items(
                t,
                frame,
                idx,
                n as int,
                plan1.splits[0],
                None,
                dependency,
                None,
                true,
                false,
                plan1.kids,
            );
            let kids2 = kids_items(
                t,
                frame,
                idx,
                n as int,
                plan2.splits[0],
                None,
                dependency,
                None,
                true,
                false,
                plan2.kids,
            );
            lemma_same_joined(own1, kids1, own2, kids2);
            lemma_same_joined(
                own1 + kids1,
                widget_items(t, idx, plan1.splits[0], dependency, n as int),
                own2 + kids2,
                widget_items(t, idx, plan2.splits[0], dependency, n as int),
            );
        }
    } else if name == "tabs"@ {
        lemma_same_shape_tabs(t, frame, idx, dependency, place1, place2, margin, plan1, plan2);
    } else if name == "tab-content"@ {
        lemma_taken(Direction::Vertical, m, content_bands(), area1);
        lemma_taken(Direction::Vertical, m, content_bands(), area2);
        if taken(m, content_bands()) {
            lemma_parts_modest(Direction::Vertical, plan1.splits[0], 2, area1, m);
            lemma_parts_modest(Direction::Vertical, plan2.splits[0], 2, area2, m);
            let rest1 = plan1.splits[0][1];
            let rest2 = plan2.splits[0][1];
            lemma_same_shape_kids(
                t,
                frame,
                idx,
                n as int,
                Seq::empty(),
                Seq::empty(),
                Some(rest1),
                Some(rest2),
                Some(t[idx].id),
                Some(1u16),
                false,
                true,
                plan1.kids,
                plan2.kids,
            );
            lemma_same_joined(
                seq![(rest1, with_dependency(t[idx], dependency))],
                kids_items(
                    t,
                    frame,
                    idx,
                    n as int,
                    Seq::empty(),
                    Some(rest1),
                    Some(t[idx].id),
                    Some(1u16),
                    false,
                    true,
                    plan1.kids,
                ),
                seq![(rest2, with_dependency(t[idx], dependency))],
                kids_items(
                    t,
                    frame,
                    idx,
                    n as int,
                    Seq::empty(),
                    Some(rest2),
                    Some(t[idx].id),
                    Some(1u16),
                    false,
                    true,
                    plan2.kids,
                ),
            );
        }
    } else if name == "dialog"@ {
        lemma_same_shape_dialog(t, frame, idx, dependency, margin, plan1, plan2);
    } else {
        lemma_taken(Direction::Horizontal, m, whole(), area1);
        lemma_taken(Direction::Horizontal, m, whole(), area2);
        if taken(m, whole()) {
            lemma_same_shape_kids(
                t,
                frame,
                idx,
                n as int,
                Seq::empty(),
                Seq::empty(),
                Some(area1),
                Some(area2),
                dependency,
                Some(1u16),
                false,
                true,
                plan1.kids,
                plan2.kids,
            );
            lemma_same_joined(
                seq![(plan1.splits[0][0], with_dependency(t[idx], dependency))],
                kids_items(
                    t,
                    frame,
                    idx,
                    n as int,
                    Seq::empty(),
                    Some(area1),
                    dependency,
                    Some(1u16),
                    false,
                    true,
                    plan1.kids,
                ),
                seq![(plan2.splits[0][0], with_dependency(t[idx], dependency))],
                kids_items(
                    t,
                    frame,
                    idx,
                    n as int,
                    Seq::empty(),
                    Some(area2),
                    dependency,
                    Some(1u16),
                    false,
                    true,
                    plan2.kids,
                ),
            );
        }
    }
}

/// What a tab strip shows has the same elements in two passes.
pub proof fn lemma_same_shape_tabs(
    t: Seq<ElementView>,
    frame: Rect,
    idx: int,
    dependency: Option<Seq<char>>,
    place1: Option<Rect>,
    place2: Option<Rect>,
    margin: Option<u16>,
    plan1: Plan,
    plan2: Plan,
)
    requires
        0 <= idx < t.len(),
        mild_tree(t),
        modest(frame),
        modest(place_or(place1, frame)),
        modest(place_or(place2, frame)),
        tabs_ok(t, frame, idx, place1, margin, plan1),
        tabs_ok(t, frame, idx, place2, margin, plan2),
    ensures
        same_elements(
            tabs_items(t, frame, idx, dependency, place1, margin, plan1),
            tabs_items(t, frame, idx, dependency, place2, margin, plan2),
        ),
    decreases t.len() - idx, 2int, 0int,
{
    let area1 = place_or(place1, frame);
    let area2 = place_or(place2, frame);
    let m = margin_or_zero(margin);
    lemma_taken(Direction::Vertical, m, tab_bands(area1), area1);
    lemma_taken(Direction::Vertical, m, tab_bands(area2), area2);
    assert(taken(m, tab_bands(area1)) == taken(m, tab_bands(area2)));
    if taken(m, tab_bands(area1)) {
        lemma_parts_modest(Direction::Vertical, plan1.splits[0], 2, area1, m);
        lemma_parts_modest(Direction::Vertical, plan2.splits[0], 2, area2, m);
        let bands1 = plan1.splits[0];
        let bands2 = plan2.splits[0];
        let own1 = seq![(area1, with_dependency(t[idx], dependency))];
        let own2 = seq![(area2, with_dependency(t[idx], dependency))];
        let head1 = header_items(t, idx, bands1[0]);
        let head2 = header_items(t, idx, bands2[0]);
        if t[idx].children.len() > 0 {
            let header = t[idx].children[0] as int;
            let count = t[header].children.len() as int;
            lemma_same_tabs(t, header, bands1[0], bands2[0], count);
            lemma_same_joined(
                seq![(bands1[0], tab_line())],
                tab_items(t, header, bands1[0], count),
                seq![(bands2[0], tab_line())],
                tab_items(t, header, bands2[0], count),
            );
        }
        assert(same_elements(head1, head2));
        let body1 = tabs_body(t, frame, idx, bands1[1], plan1);
        let body2 = tabs_body(t, frame, idx, bands2[1], plan2);
        if t[idx].children.len() >= 2 {
            let kid = t[idx].children[1] as int;
            if 0 <= idx < kid < t.len() {
                lemma_same_shape(
                    t,
                    frame,
                    kid,
                    None,
                    Some(bands1[1]),
                    Some(bands2[1]),
                    Some(1u16),
                    plan1.kids[1],
                    plan2.kids[1],
                );
            }
        }
        assert(same_elements(body1, body2));
        lemma_same_joined(own1, head1, own2, head2);
        lemma_same_joined(own1 + head1, body1, own2 + head2, body2);
    }
}

/// What a dialog shows has the same elements in two passes.
pub proof fn lemma_same_shape_dialog(
    t: Seq<ElementView>,
    frame: Rect,
    idx: int,
    dependency: Option<Seq<char>>,
    margin: Option<u16>,
    plan1: Plan,
    plan2: Plan,
)
    requires
        0 <= idx < t.len(),
        mild_tree(t),
        modest(frame),
        dialog_ok(t, frame, idx, margin, plan1),
        dialog_ok(t, frame, idx, margin, plan2),
    ensures
        same_elements(
            dialog_items(t, frame, idx, dependency, margin, plan1),
            dialog_items(t, frame, idx, dependency, margin, plan2),
        ),
    decreases t.len() - idx, 2int, 0int,
{
    let m = margin_or_zero(margin);
    let n = t[idx].children.len();
    let labels = button_labels(t[idx]);
    let shares = button_shares(labels.len());
    assert(mild(shares)) by {
        assert forall|i: int| 0 <= i < shares.len() implies match #[trigger] shares[i] {
            SizeConstraint::Percentage(p) => p <= 100,
            _ => true,
        } by {
            let share = 100int / labels.len() as int;
            assert(0 <= share <= 100) by (nonlinear_arith)
                requires
                    labels.len() > 0,
                    share == 100int / labels.len() as int,
            ;
        }
    }
    lemma_taken(Direction::Horizontal, m, dialog_columns(), frame);
    if taken(m, dialog_columns()) {
        lemma_parts_modest(Direction::Horizontal, plan1.splits[0], 3, frame, m);
        lemma_parts_modest(Direction::Horizontal, plan2.splits[0], 3, frame, m);
        let column1 = plan1.splits[0][1];
        let column2 = plan2.splits[0][1];
        lemma_taken(Direction::Vertical, m, dialog_rows(), column1);
        lemma_taken(Direction::Vertical, m, dialog_rows(), column2);
        if taken(m, dialog_rows()) {
            lemma_parts_modest(Direction::Vertical, plan1.splits[1], 3, column1, m);
            lemma_parts_modest(Direction::Vertical, plan2.splits[1], 3, column2, m);
            let row1 = plan1.splits[1][1];
            let row2 = plan2.splits[1][1];
            lemma_taken(Direction::Vertical, 1, dialog_parts(), row1);
            lemma_taken(Direction::Vertical, 1, dialog_parts(), row2);
            if taken(1, dialog_parts()) {
                lemma_parts_modest(Direction::Vertical, plan1.splits[2], 2, row1, 1);
                lemma_parts_modest(Direction::Vertical, plan2.splits[2], 2, row2, 1);
                let content1 = plan1.splits[2][0];
                let content2 = plan2.splits[2][0];
                lemma_taken(Direction::Horizontal, 0, shares, plan1.splits[2][1]);
                lemma_taken(Direction::Horizontal, 0, shares, plan2.splits[2][1]);
                if taken(0, shares) {
                    lemma_same_shape_kids(
                        t,
                        frame,
                        idx,
                        n as int,
                        Seq::empty(),
                        Seq::empty(),
                        Some(content1),
                        Some(content2),
                        Some(t[idx].id),
                        Some(1u16),
                        false,
                        true,
                        plan1.kids,
                        plan2.kids,
                    );
                    lemma_same_buttons(
                        t[idx],
                        plan1.splits[3],
                        plan2.splits[3],
                        labels.len() as int,
                    );
                    let own1 = seq![
                        (row1, with_dependency(t[idx], dependency)),
                    ];
                    let own2 = seq![
                        (row2, with_dependency(t[idx], dependency)),
                    ];
                    let kids1 = kids_items(
                        t,
                        frame,
                        idx,
                        n as int,
                        Seq::empty(),
                        Some(content1),
                        Some(t[idx].id),
                        Some(1u16),
                        false,
                        true,
                        plan1.kids,
                    );
                    let kids2 = kids_items(
                        t,
                        frame,
                        idx,
                        n as int,
                        Seq::empty(),
                        Some(content2),
                        Some(t[idx].id),
                        Some(1u16),
                        false,
                        true,
                        plan2.kids,
                    );
                    lemma_same_joined(own1, kids1, own2, kids2);
                    lemma_same_joined(
                        own1 + kids1,
                        dialog_buttons(t[idx], plan1.splits[3], labels.len() as int),
                        own2 + kids2,
                        dialog_buttons(t[idx], plan2.splits[3], labels.len() as int),
                    );
                }
            }
        }
    }
}

/// Two layout passes over the same element show the same elements, in the
/// same order and with the same dependencies, whatever sizes the solver
/// gave the parts in each: in a modest frame and place, for a tree
/// without a percentage over a hundred.
pub proof fn lemma_passes_show_the_same(
    t: Seq<ElementView>,
    frame: Rect,
    idx: int,
    dependency: Option<Seq<char>>,
    place: Option<Rect>,
    margin: Option<u16>,
    first: Seq<Item>,
    second: Seq<Item>,
)
    requires
        0 <= idx < t.len(),
        mild_tree(t),
        modest(frame),
        modest(place_or(place, frame)),
        exists|plan: Plan|
            node_ok(t, frame, idx, place, margin, plan) && first == #[trigger] node_items(
                t,
                frame,
                idx,
                dependency,
                place,
                margin,
                plan,
            ),
        exists|plan: Plan|
            node_ok(t, frame, idx, place, margin, plan) && second == #[trigger] node_items(
                t,
                frame,
                idx,
                dependency,
                place,
                margin,
                plan,
            ),
    ensures
        same_elements(first, second),
{
    let plan1 = choose|plan: Plan|
        node_ok(t, frame, idx, place, margin, plan) && first == #[trigger] node_items(
            t,
            frame,
            idx,
            dependency,
            place,
            margin,
            plan,
        );
    let plan2 = choose|plan: Plan|
        node_ok(t, frame, idx, place, margin, plan) && second == #[trigger] node_items(
            t,
            frame,
            idx,
            dependency,
            place,
            margin,
            plan,
        );
    lemma_same_shape(t, frame, idx, dependency, place, place, margin, plan1, plan2);
}

} // verus!
