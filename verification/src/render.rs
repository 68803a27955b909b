//! The render pass: which of the placed elements of a layout are drawn, as
//! what, and what drawing them does to the session.

use crate::actions::selection_key;
use crate::cascade::cascade;
use crate::event_response::EventResponse;
use crate::focus::{enter_scope, leave_scope, scope_members};
use crate::geometry::{Alignment, Rect};
use crate::grammar::{alignment_of, alignment_spec, border_spec, parse_border};
use crate::layout::{items_view, node_items, node_ok, Item, Plan};
use crate::markup_element::{ElementView, MarkupElement};
use crate::markup_parser::{custom_tag, MarkupParser, Session};
use crate::string_map::{insert_pair, lookup, lookup_or_empty, Pairs, StringMap};
use crate::styles::{
    add_modifier_spec, default_style, patch_spec, Modifier, Rules, Style, UNDERLINED,
};
use crate::stylesheet::{element_styles, inline_style};
use crate::text::{joined, contains_string, owned, str_eq, strings_view};
use crate::widgets::{
    actions_view, ActionView, Block, BlockView, BorderType, Borders, DrawAction, Paragraph,
    ParagraphView, BORDER_ALL, BORDER_BOTTOM, BORDER_NONE,
};
use vstd::prelude::*;

verus! {

/// The id of the focused element; the empty text where nothing is
/// focused.
pub open spec fn focused_id(s: Session) -> Seq<char> {
    if 0 <= s.current < s.indexed.len() {
        s.indexed[s.current as int].id
    } else {
        Seq::empty()
    }
}

/// Whether an element is the selected tab of its parent.
pub open spec fn is_active_tab(t: Seq<ElementView>, state: Pairs, node: ElementView) -> bool {
    match node.parent_node {
        Some(p) => p < t.len() && lookup(state, selection_key(t[p as int].id)) == Some(node.id),
        None => false,
    }
}

/// The box of an element: its `title`, its `border`, and its inline style
/// over the style it comes with.
pub open spec fn block_of(node: ElementView, focus: bool, active: bool, base: Style) -> BlockView {
    BlockView {
        title: Some(lookup_or_empty(node.attributes, "title"@)),
        style: patch_spec(base, inline_style(node.attributes, focus, active)),
        borders: border_spec(lookup_or_empty(node.attributes, "border"@)),
        border_type: BorderType::Plain,
    }
}

/// The text of an element, or the given text where it has none.
pub open spec fn text_or(node: ElementView, default: Seq<char>) -> Seq<char> {
    match node.text {
        Some(t) => t,
        None => default,
    }
}

/// The paragraph of an element: its text, aligned and wrapped, in its box.
pub open spec fn paragraph_of(
    node: ElementView,
    focus: bool,
    active: bool,
    base: Style,
) -> ParagraphView {
    ParagraphView {
        blank_lines: 0,
        text: text_or(node, Seq::empty()),
        text_style: None,
        style: patch_spec(base, inline_style(node.attributes, focus, active)),
        alignment: alignment_spec(node.attributes),
        wrap: true,
        block: block_of(node, focus, active, base),
    }
}

/// The number of empty lines above the label of a button of a given
/// height.
pub open spec fn button_padding(height: u16) -> usize {
    if height / 2 >= 1 {
        (height / 2 - 1) as usize
    } else {
        0
    }
}

/// A button: its label, underlined when focused, centred in a rounded
/// box.
pub open spec fn button_of(
    node: ElementView,
    height: u16,
    focus: bool,
    active: bool,
    base: Style,
) -> ParagraphView {
    let style = patch_spec(base, inline_style(node.attributes, focus, active));
    ParagraphView {
        blank_lines: button_padding(height),
        text: text_or(node, Seq::empty()),
        text_style: Some(
            if focus {
                add_modifier_spec(style, Modifier { bits: UNDERLINED })
            } else {
                style
            },
        ),
        style,
        alignment: Alignment::Center,
        wrap: false,
        block: BlockView {
            title: None,
            style,
            borders: Borders { bits: BORDER_ALL },
            border_type: BorderType::Rounded,
        },
    }
}

/// The box of a dialog: a double border all around.
pub open spec fn dialog_box(
    node: ElementView,
    focus: bool,
    active: bool,
    base: Style,
) -> BlockView {
    BlockView {
        title: None,
        style: patch_spec(base, inline_style(node.attributes, focus, active)),
        borders: Borders { bits: BORDER_ALL },
        border_type: BorderType::Double,
    }
}

/// The line under the tabs of a tab strip.
pub open spec fn tab_borders() -> BlockView {
    BlockView {
        title: None,
        style: default_style(),
        borders: Borders { bits: BORDER_BOTTOM },
        border_type: BorderType::Rounded,
    }
}

/// The three sides of a tab.
pub const TAB_SIDES: u8 = 0x16;

/// A tab: its text, or `Tab`, centred in a rounded box that is open
/// below.
pub open spec fn tab_of(node: ElementView, base: Style) -> ParagraphView {
    ParagraphView {
        blank_lines: 0,
        text: text_or(node, "Tab"@),
        text_style: None,
        style: base,
        alignment: Alignment::Center,
        wrap: false,
        block: BlockView {
            title: None,
            style: base,
            borders: Borders { bits: TAB_SIDES },
            border_type: BorderType::Rounded,
        },
    }
}

/// The box of an element of an unknown tag: nothing but cleared ground.
pub open spec fn bare_box() -> BlockView {
    BlockView {
        title: None,
        style: default_style(),
        borders: Borders { bits: BORDER_NONE },
        border_type: BorderType::Plain,
    }
}

/// The application state after a tab strip was drawn: where no tab is
/// selected, the first child of the strip's first child is.
pub open spec fn with_first_tab(t: Seq<ElementView>, state: Pairs, node: ElementView) -> Pairs {
    let key = selection_key(node.id);
    if lookup(state, key) is Some || node.children.len() == 0 || node.children[0] >= t.len() {
        state
    } else {
        let header = t[node.children[0] as int];
        if header.children.len() == 0 || header.children[0] >= t.len() {
            state
        } else {
            insert_pair(state, key, t[header.children[0] as int].id)
        }
    }
}

/// Whether the content of a tab is shown: the tab named by its `for`
/// attribute is the selected tab of the strip named by its `tabs-id`
/// attribute. An attribute or a selection that is missing counts as
/// `unknown`.
pub open spec fn content_shown(state: Pairs, node: ElementView) -> bool {
    let unknown = "unknown"@;
    let strip = match lookup(node.attributes, "tabs-id"@) {
        Some(v) => v,
        None => unknown,
    };
    let selected = match lookup(state, selection_key(strip)) {
        Some(v) => v,
        None => unknown,
    };
    let own = match lookup(node.attributes, "for"@) {
        Some(v) => v,
        None => unknown,
    };
    selected == own
}

/// Whether a dialog is shown: the application state holds `true` under the
/// key that the dialog's `show` attribute names.
pub open spec fn dialog_shown(state: Pairs, node: ElementView) -> bool {
    lookup(state, lookup_or_empty(node.attributes, "show"@)) == Some("true"@)
}

/// A rectangle cut to at most three rows.
pub open spec fn button_area(area: Rect) -> Rect {
    Rect {
        height: if area.height > 3 {
            3
        } else {
            area.height
        },
        ..area
    }
}

/// What drawing one element comes to.
pub struct Drawn {
    /// The session after the drawing.
    pub session: Session,
    /// Whether the element counts as drawn.
    pub done: bool,
    /// What is to be painted.
    pub action: ActionView,
}

/// What drawing an element in a rectangle comes to. An element whose tag
/// has a renderer is left to it. A container, a paragraph, a tab, a
/// button and an element of an unknown tag are painted; a tab strip only
/// selects its first tab where none is selected; the content of a tab is
/// painted where its tab is selected; a dialog is painted and its scope
/// entered where it is shown, and its scope left where it is not.
pub open spec fn draw_spec<R>(
    t: Seq<ElementView>,
    rules: Rules,
    storage: Option<crate::storage::RendererStorage<R>>,
    s: Session,
    area: Rect,
    node: ElementView,
) -> Drawn {
    let name = node.name;
    let focus = node.id == focused_id(s);
    let active = is_active_tab(t, s.state, node);
    let base = cascade(t, rules, node, focus, active);
    if custom_tag(storage, name) {
        Drawn { session: s, done: true, action: ActionView::Custom { tag: name } }
    } else if name == "container"@ || name == "block"@ {
        Drawn {
            session: s,
            done: true,
            action: ActionView::Block {
                clear: true,
                area,
                block: block_of(node, focus, false, base),
            },
        }
    } else if name == "tabs-borders"@ {
        Drawn {
            session: s,
            done: true,
            action: ActionView::Block { clear: false, area, block: tab_borders() },
        }
    } else if name == "p"@ {
        Drawn {
            session: s,
            done: true,
            action: ActionView::Paragraph {
                area,
                target: area,
                paragraph: paragraph_of(node, focus, false, base),
            },
        }
    } else if name == "tabs"@ {
        Drawn {
            session: Session { state: with_first_tab(t, s.state, node), ..s },
            done: true,
            action: ActionView::Nothing,
        }
    } else if name == "tab-item"@ {
        Drawn {
            session: s,
            done: true,
            action: ActionView::Paragraph { area, target: area, paragraph: tab_of(node, base) },
        }
    } else if name == "tab-content"@ {
        if content_shown(s.state, node) {
            Drawn {
                session: s,
                done: true,
                action: ActionView::Block {
                    clear: true,
                    area,
                    block: block_of(node, focus, false, base),
                },
            }
        } else {
            Drawn { session: s, done: false, action: ActionView::Nothing }
        }
    } else if name == "dialog"@ {
        if dialog_shown(s.state, node) {
            Drawn {
                session: enter_scope(s, node.id, scope_members(t, node)),
                done: true,
                action: ActionView::Block {
                    clear: true,
                    area,
                    block: dialog_box(node, focus, false, base),
                },
            }
        } else {
            Drawn { session: leave_scope(s, node.id), done: false, action: ActionView::Nothing }
        }
    } else if name == "button"@ {
        Drawn {
            session: s,
            done: true,
            action: ActionView::Paragraph {
                area,
                target: button_area(area),
                paragraph: button_of(node, button_area(area).height, focus, false, base),
            },
        }
    } else {
        Drawn {
            session: s,
            done: true,
            action: ActionView::Block { clear: true, area, block: bare_box() },
        }
    }
}

/// Whether an element may be drawn: it has no dependency, or one of its
/// dependencies is among the ids drawn so far.
pub open spec fn can_draw(node: ElementView, drawn: Seq<Seq<char>>) -> bool {
    node.dependencies.len() == 0 || exists|i: int|
        0 <= i < node.dependencies.len() && drawn.contains(#[trigger] node.dependencies[i])
}

/// How far a render pass has come.
pub struct Pass {
    pub session: Session,
    /// The ids of the elements drawn, in order.
    pub drawn: Seq<Seq<char>>,
    /// What is to be painted, in order.
    pub actions: Seq<ActionView>,
}

/// The render pass over the first `k` placed elements: each element that
/// may be drawn is drawn in the session that the elements before it left,
/// and its id counts as drawn where its drawing says so.
pub open spec fn pass_over<R>(
    t: Seq<ElementView>,
    rules: Rules,
    storage: Option<crate::storage::RendererStorage<R>>,
    s: Session,
    items: Seq<Item>,
    k: int,
) -> Pass
    decreases k,
{
    if k <= 0 {
        Pass { session: s, drawn: Seq::empty(), actions: Seq::empty() }
    } else {
        let before = pass_over(t, rules, storage, s, items, k - 1);
        let node = items[k - 1].1;
        if can_draw(node, before.drawn) {
            let d = draw_spec(t, rules, storage, before.session, items[k - 1].0, node);
            Pass {
                session: d.session,
                drawn: if d.done {
                    before.drawn.push(node.id)
                } else {
                    before.drawn
                },
                actions: before.actions.push(d.action),
            }
        } else {
            before
        }
    }
}

/// The message of a render pass without a tree.
pub open spec fn no_root_message() -> Seq<char> {
    "Critical error on render process."@
}

/// One drawn dependency is enough: an element may be drawn as soon as any
/// one of its dependencies is among the ids drawn, and stays so when more
/// ids are drawn.
pub proof fn lemma_one_dependency_suffices(
    node: ElementView,
    drawn: Seq<Seq<char>>,
    id: Seq<char>,
    more: Seq<Seq<char>>,
)
    requires
        node.dependencies.contains(id),
        drawn.contains(id),
    ensures
        can_draw(node, drawn),
        can_draw(node, drawn + more),
{
    let i = choose|i: int| 0 <= i < node.dependencies.len() && node.dependencies[i] == id;
    let j = choose|j: int| 0 <= j < drawn.len() && drawn[j] == id;
    assert(drawn.contains(node.dependencies[i]));
    assert((drawn + more)[j] == id);
    assert((drawn + more).contains(node.dependencies[i]));
}

/// A dialog that is drawn while it is shown and drawn again once it is
/// hidden leaves the focus order and the stack of scopes as they were,
/// whatever became of the state and the focus in between.
pub proof fn lemma_dialog_round_trip<R>(
    t: Seq<ElementView>,
    rules: Rules,
    storage: Option<crate::storage::RendererStorage<R>>,
    s: Session,
    area: Rect,
    node: ElementView,
    later_state: Pairs,
    later_focus: i32,
)
    requires
        node.name == "dialog"@,
        !custom_tag(storage, node.name),
        dialog_shown(s.state, node),
        !dialog_shown(later_state, node),
        s.contexts.len() == 0 || s.contexts.last().0 != node.id,
    ensures
        ({
            let shown = draw_spec(t, rules, storage, s, area, node);
            let between = Session { state: later_state, current: later_focus, ..shown.session };
            let hidden = draw_spec(t, rules, storage, between, area, node);
            &&& shown.done
            &&& shown.session.indexed == scope_members(t, node)
            &&& shown.session.contexts == s.contexts.push((node.id, s.indexed))
            &&& !hidden.done
            &&& hidden.action == ActionView::Nothing
            &&& hidden.session.indexed == s.indexed
            &&& hidden.session.contexts == s.contexts
            &&& hidden.session.current == -1
        }),
{
    reveal_strlit("dialog");
    reveal_strlit("container");
    reveal_strlit("block");
    reveal_strlit("tabs-borders");
    reveal_strlit("p");
    reveal_strlit("tabs");
    reveal_strlit("tab-item");
    reveal_strlit("tab-content");
    assert("dialog"@.len() == 6);
    let shown = draw_spec(t, rules, storage, s, area, node);
    assert(shown.session.contexts.drop_last() =~= s.contexts);
}

/// What a render pass has drawn stays drawn: an id drawn after `k`
/// elements is among the ids drawn after any `n` elements from `k` on.
pub proof fn lemma_drawn_stays<R>(
    t: Seq<ElementView>,
    rules: Rules,
    storage: Option<crate::storage::RendererStorage<R>>,
    s: Session,
    items: Seq<Item>,
    k: int,
    n: int,
    id: Seq<char>,
)
    requires
        k <= n,
        pass_over(t, rules, storage, s, items, k).drawn.contains(id),
    ensures
        pass_over(t, rules, storage, s, items, n).drawn.contains(id),
    decreases n - k,
{
    if k < n {
        lemma_drawn_stays(t, rules, storage, s, items, k, n - 1, id);
        let before = pass_over(t, rules, storage, s, items, n - 1);
        let now = pass_over(t, rules, storage, s, items, n);
        let at = choose|at: int| 0 <= at < before.drawn.len() && before.drawn[at] == id;
        if n > 0 {
            assert(now.drawn[at] == id);
        }
    }
}

/// An element none of whose dependencies is drawn by the end of a render
/// pass is passed over when the pass reaches it: nothing is painted for
/// it, and it changes nothing. So what depends on a hidden dialog alone,
/// its buttons among it, is not painted.
pub proof fn lemma_undrawn_dependencies<R>(
    t: Seq<ElementView>,
    rules: Rules,
    storage: Option<crate::storage::RendererStorage<R>>,
    s: Session,
    items: Seq<Item>,
    n: int,
    j: int,
)
    requires
        0 <= j < n,
        items[j].1.dependencies.len() > 0,
        forall|i: int|
            0 <= i < items[j].1.dependencies.len() ==> !pass_over(
                t,
                rules,
                storage,
                s,
                items,
                n,
            ).drawn.contains(#[trigger] items[j].1.dependencies[i]),
    ensures
        pass_over(t, rules, storage, s, items, j + 1) == pass_over(t, rules, storage, s, items, j),
{
    let node = items[j].1;
    let before = pass_over(t, rules, storage, s, items, j);
    if can_draw(node, before.drawn) {
        let i = choose|i: int|
            0 <= i < node.dependencies.len() && before.drawn.contains(
                #[trigger] node.dependencies[i],
            );
        lemma_drawn_stays(t, rules, storage, s, items, j, n, node.dependencies[i]);
    }
}

/// Whether a render pass over the first `n` placed elements meets, at
/// place `j`, a dialog that is hidden when the pass reaches it, and no
/// other dialog nor another element of that id.
pub open spec fn meets_hidden_dialog<R>(
    t: Seq<ElementView>,
    rules: Rules,
    storage: Option<crate::storage::RendererStorage<R>>,
    s: Session,
    items: Seq<Item>,
    n: int,
    j: int,
) -> bool {
    let reached = pass_over(t, rules, storage, s, items, j);
    &&& 0 <= j < n
    &&& items[j].1.name == "dialog"@
    &&& !custom_tag(storage, "dialog"@)
    &&& can_draw(items[j].1, reached.drawn)
    &&& !dialog_shown(reached.session.state, items[j].1)
    &&& forall|i: int|
        0 <= i < n && i != j ==> (#[trigger] items[i]).1.name != "dialog"@ && items[i].1.id
            != items[j].1.id
}

/// The focus, the focus order and the scopes after the first `k` elements
/// of a pass that meets a hidden dialog at place `j`: those of the start
/// up to the dialog, and from the dialog on those that leaving its scope
/// gives. The dialog is not among the ids drawn.
pub proof fn lemma_scope_along_pass<R>(
    t: Seq<ElementView>,
    rules: Rules,
    storage: Option<crate::storage::RendererStorage<R>>,
    s: Session,
    items: Seq<Item>,
    n: int,
    j: int,
    k: int,
)
    requires
        meets_hidden_dialog(t, rules, storage, s, items, n, j),
        0 <= k <= n,
    ensures
        ({
            let now = pass_over(t, rules, storage, s, items, k);
            let base = if k <= j {
                s
            } else {
                leave_scope(s, items[j].1.id)
            };
            &&& !now.drawn.contains(items[j].1.id)
            &&& now.session.contexts == base.contexts
            &&& now.session.indexed == base.indexed
            &&& now.session.current == base.current
        }),
    decreases k,
{
    reveal_strlit("dialog");
    reveal_strlit("container");
    reveal_strlit("block");
    reveal_strlit("tabs-borders");
    reveal_strlit("p");
    reveal_strlit("tabs");
    reveal_strlit("tab-item");
    reveal_strlit("tab-content");
    assert("dialog"@.len() == 6);
    if k > 0 {
        lemma_scope_along_pass(t, rules, storage, s, items, n, j, k - 1);
        let before = pass_over(t, rules, storage, s, items, k - 1);
        let now = pass_over(t, rules, storage, s, items, k);
        let node = items[k - 1].1;
        let id = items[j].1.id;
        if can_draw(node, before.drawn) {
            let d = draw_spec(t, rules, storage, before.session, items[k - 1].0, node);
            if k - 1 == j {
                assert(!d.done);
                assert(d.session == leave_scope(before.session, id));
            } else {
                assert(items[k - 1].1.name != "dialog"@);
                assert(node.id != id);
                assert(d.session.contexts == before.session.contexts);
                assert(d.session.indexed == before.session.indexed);
                assert(d.session.current == before.session.current);
                assert forall|i: int| 0 <= i < now.drawn.len() implies now.drawn[i] != id by {
                    if i < before.drawn.len() {
                        assert(before.drawn[i] == now.drawn[i]);
                    }
                }
            }
        }
    }
}

/// A render pass that meets a hidden dialog does not draw it and leaves
/// its scope: with the scope of the dialog on top of the stack at the
/// start, the pass ends with the scope taken off, the focus order that
/// the scope had put aside back in place, and nothing focused. Without
/// that scope on top the pass ends with the focus, the focus order and the
/// scopes of the start.
pub proof fn lemma_hidden_dialog_pass<R>(
    t: Seq<ElementView>,
    rules: Rules,
    storage: Option<crate::storage::RendererStorage<R>>,
    s: Session,
    items: Seq<Item>,
    n: int,
    j: int,
)
    requires
        meets_hidden_dialog(t, rules, storage, s, items, n, j),
    ensures
        ({
            let end = pass_over(t, rules, storage, s, items, n);
            let id = items[j].1.id;
            &&& !end.drawn.contains(id)
            &&& s.contexts.len() > 0 && s.contexts.last().0 == id ==> {
                &&& end.session.contexts == s.contexts.drop_last()
                &&& end.session.indexed == s.contexts.last().1
                &&& end.session.current == -1
            }
            &&& !(s.contexts.len() > 0 && s.contexts.last().0 == id) ==> {
                &&& end.session.contexts == s.contexts
                &&& end.session.indexed == s.indexed
                &&& end.session.current == s.current
            }
        }),
{
    lemma_scope_along_pass(t, rules, storage, s, items, n, j, n);
}

/// Whether an element may be drawn, as `can_draw` defines it.
pub fn can_be_drawn(node: &MarkupElement, drawn: &Vec<String>) -> (r: bool)
    ensures
        r == can_draw(node@, strings_view(drawn@)),
{
    if node.dependencies.len() == 0 {
        return true;
    }
    let mut i: usize = 0;
    while i < node.dependencies.len()
        invariant
            i <= node.dependencies.len(),
            node@.dependencies.len() > 0,
            forall|j: int|
                0 <= j < i ==> !strings_view(drawn@).contains(#[trigger] node@.dependencies[j]),
        decreases node.dependencies.len() - i,
    {
        if contains_string(drawn, node.dependencies[i].as_str()) {
            proof {
                assert(strings_view(drawn@).contains(node@.dependencies[i as int]));
            }
            return true;
        }
        i = i + 1;
    }
    false
}

/// The box of an element, as `block_of` defines it.
pub fn draw_block(node: &MarkupElement, focus: bool, active: bool, base_styles: Style) -> (r:
    Block)
    ensures
        r@ == block_of(node@, focus, active, base_styles),
{
    let styles = base_styles.patch(element_styles(node, focus, active));
    let title = node.attributes.get_or_empty("title");
    let border = node.attributes.get_or_empty("border");
    Block {
        title: Some(title),
        style: styles,
        borders: parse_border(border.as_str()),
        border_type: BorderType::Plain,
    }
}

fn text_of(node: &MarkupElement, default: &str) -> (r: String)
    ensures
        r@ == text_or(node@, default@),
{
    match &node.text {
        Some(t) => t.clone(),
        None => owned(default),
    }
}

/// The paragraph of an element, as `paragraph_of` defines it.
pub fn draw_paragraph(node: &MarkupElement, focus: bool, active: bool, base_styles: Style) -> (r:
    Paragraph)
    ensures
        r@ == paragraph_of(node@, focus, active, base_styles),
{
    let styles = base_styles.patch(element_styles(node, focus, active));
    proof {
        reveal_strlit("");
        assert(""@ =~= Seq::<char>::empty());
    }
    Paragraph {
        blank_lines: 0,
        text: text_of(node, ""),
        text_style: None,
        style: styles,
        alignment: alignment_of(node),
        wrap: true,
        block: draw_block(node, focus, active, base_styles),
    }
}

/// A button in a rectangle of a given height, as `button_of` defines it.
pub fn draw_button(
    node: &MarkupElement,
    height: u16,
    focus: bool,
    active: bool,
    base_styles: Style,
) -> (r: Paragraph)
    ensures
        r@ == button_of(node@, height, focus, active, base_styles),
{
    let styles = base_styles.patch(element_styles(node, focus, active));
    let half: u16 = height / 2;
    let blank_lines: usize = if half >= 1 {
        (half - 1) as usize
    } else {
        0
    };
    proof {
        reveal_strlit("");
        assert(""@ =~= Seq::<char>::empty());
    }
    Paragraph {
        blank_lines,
        text: text_of(node, ""),
        text_style: Some(
            if focus {
                styles.add_modifier(Modifier { bits: UNDERLINED })
            } else {
                styles
            },
        ),
        style: styles,
        alignment: Alignment::Center,
        wrap: false,
        block: Block {
            title: None,
            style: styles,
            borders: Borders { bits: BORDER_ALL },
            border_type: BorderType::Rounded,
        },
    }
}

/// The box of a dialog, as `dialog_box` defines it.
pub fn draw_dialog(node: &MarkupElement, focus: bool, active: bool, base_styles: Style) -> (r:
    Block)
    ensures
        r@ == dialog_box(node@, focus, active, base_styles),
{
    let styles = base_styles.patch(element_styles(node, focus, active));
    Block {
        title: None,
        style: styles,
        borders: Borders { bits: BORDER_ALL },
        border_type: BorderType::Double,
    }
}

/// The line under the tabs of a tab strip.
pub fn draw_tab_borders() -> (r: Block)
    ensures
        r@ == tab_borders(),
{
    Block {
        title: None,
        style: Style::new(),
        borders: Borders { bits: BORDER_BOTTOM },
        border_type: BorderType::Rounded,
    }
}

/// A tab, as `tab_of` defines it.
pub fn draw_tab_item(node: &MarkupElement, base_styles: Style) -> (r: Paragraph)
    ensures
        r@ == tab_of(node@, base_styles),
{
    Paragraph {
        blank_lines: 0,
        text: text_of(node, "Tab"),
        text_style: None,
        style: base_styles,
        alignment: Alignment::Center,
        wrap: false,
        block: Block {
            title: None,
            style: base_styles,
            borders: Borders { bits: TAB_SIDES },
            border_type: BorderType::Rounded,
        },
    }
}

fn draw_bare() -> (r: Block)
    ensures
        r@ == bare_box(),
{
    Block {
        title: None,
        style: Style::new(),
        borders: Borders { bits: BORDER_NONE },
        border_type: BorderType::Plain,
    }
}

impl<F: Fn(StringMap, Option<MarkupElement>) -> EventResponse, R> MarkupParser<F, R> {
    /// The id of the focused element.
    pub fn focused(&self) -> (r: String)
        ensures
            r@ == focused_id(self.session()),
    {
        if self.current >= 0 && (self.current as usize) < self.indexed_elements.len() {
            self.indexed_elements[self.current as usize].id.clone()
        } else {
            String::new()
        }
    }

    /// Whether an element is the selected tab of its parent.
    pub fn is_selected_tab(&self, node: &MarkupElement) -> (r: bool)
        ensures
            r == is_active_tab(self.tree@, self.state@, node@),
    {
        match node.parent_node {
            Some(p) => {
                if p < self.tree.len() {
                    let key = joined(self.tree.node(p).id.as_str(), ":index");
                    match self.state.get(key.as_str()) {
                        Some(v) => str_eq(v.as_str(), node.id.as_str()),
                        None => false,
                    }
                } else {
                    false
                }
            },
            None => false,
        }
    }

    fn has_custom(&self, tag: &str) -> (r: bool)
        ensures
            r == custom_tag(self.storage, tag@),
    {
        match &self.storage {
            Some(s) => s.contains(tag),
            None => false,
        }
    }

    fn select_first_tab(&mut self, node: &MarkupElement)
        ensures
            final(self).session() == (Session {
                state: with_first_tab(old(self).tree@, old(self).state@, node@),
                ..old(self).session()
            }),
            final(self).same_markup(old(self)),
    {
        let key = joined(node.id.as_str(), ":index");
        if self.state.get(key.as_str()).is_none() && node.children.len() > 0 {
            let first = node.children[0];
            if first < self.tree.len() {
                let header = self.tree.node(first);
                if header.children.len() > 0 {
                    let tab = header.children[0];
                    if tab < self.tree.len() {
                        let id = self.tree.node(tab).id.clone();
                        self.state.insert(key, id);
                    }
                }
            }
        }
    }

    fn shows_content(&self, node: &MarkupElement) -> (r: bool)
        ensures
            r == content_shown(self.state@, node@),
    {
        let strip = match node.attributes.get("tabs-id") {
            Some(v) => v.clone(),
            None => owned("unknown"),
        };
        let key = joined(strip.as_str(), ":index");
        let selected = match self.state.get(key.as_str()) {
            Some(v) => v.clone(),
            None => owned("unknown"),
        };
        let own = match node.attributes.get("for") {
            Some(v) => v.clone(),
            None => owned("unknown"),
        };
        str_eq(selected.as_str(), own.as_str())
    }

    fn shows_dialog(&self, node: &MarkupElement) -> (r: bool)
        ensures
            r == dialog_shown(self.state@, node@),
    {
        let flag = node.attributes.get_or_empty("show");
        match self.state.get(flag.as_str()) {
            Some(v) => str_eq(v.as_str(), "true"),
            None => false,
        }
    }

    /// Draws one element in a rectangle, as `draw_spec` defines it: tells
    /// whether the element counts as drawn and what is to be painted.
    pub fn draw_element(&mut self, area: Rect, node: &MarkupElement) -> (r: (bool, DrawAction))
        ensures
            ({
                let d = draw_spec(
                    old(self).tree@,
                    old(self).global_styles@,
                    old(self).storage,
                    old(self).session(),
                    area,
                    node@,
                );
                &&& final(self).session() == d.session
                &&& r.0 == d.done
                &&& r.1@ == d.action
            }),
            final(self).same_markup(old(self)),
    {
        let name = node.name.as_str();
        if self.has_custom(name) {
            return (true, DrawAction::Custom { tag: node.name.clone() });
        }
        let cid = self.focused();
        let focus = str_eq(node.id.as_str(), cid.as_str());
        let active = self.is_selected_tab(node);
        let base = self.tree.get_element_styles(&self.global_styles, node, focus, active);
        if str_eq(name, "container") || str_eq(name, "block") {
            let block = draw_block(node, focus, false, base);
            (true, DrawAction::Block { clear: true, area, block })
        } else if str_eq(name, "tabs-borders") {
            (true, DrawAction::Block { clear: false, area, block: draw_tab_borders() })
        } else if str_eq(name, "p") {
            (
                true,
                DrawAction::Paragraph {
                    area,
                    target: area,
                    paragraph: draw_paragraph(node, focus, false, base),
                },
            )
        } else if str_eq(name, "tabs") {
            self.select_first_tab(node);
            (true, DrawAction::Nothing)
        } else if str_eq(name, "tab-item") {
            (
                true,
                DrawAction::Paragraph { area, target: area, paragraph: draw_tab_item(node, base) },
            )
        } else if str_eq(name, "tab-content") {
            if self.shows_content(node) {
                (
                    true,
                    DrawAction::Block {
                        clear: true,
                        area,
                        block: draw_block(node, focus, false, base),
                    },
                )
            } else {
                (false, DrawAction::Nothing)
            }
        } else if str_eq(name, "dialog") {
            if self.shows_dialog(node) {
                self.add_context(node);
                (
                    true,
                    DrawAction::Block {
                        clear: true,
                        area,
                        block: draw_dialog(node, focus, false, base),
                    },
                )
            } else {
                self.remove_context(node);
                (false, DrawAction::Nothing)
            }
        } else if str_eq(name, "button") {
            let target = Rect {
                x: area.x,
                y: area.y,
                width: area.width,
                height: if area.height > 3 {
                    3
                } else {
                    area.height
                },
            };
            (
                true,
                DrawAction::Paragraph {
                    area,
                    target,
                    paragraph: draw_button(node, target.height, focus, false, base),
                },
            )
        } else {
            (true, DrawAction::Block { clear: true, area, block: draw_bare() })
        }
    }

    /// Runs the render pass over placed elements, as `pass_over` defines
    /// it, and tells what is to be painted.
    pub fn draw_items(&mut self, items: &Vec<(Rect, MarkupElement)>) -> (r: Vec<DrawAction>)
        ensures
            ({
                let pass = pass_over(
                    old(self).tree@,
                    old(self).global_styles@,
                    old(self).storage,
                    old(self).session(),
                    items_view(items@),
                    items@.len() as int,
                );
                &&& final(self).session() == pass.session
                &&& actions_view(r@) == pass.actions
            }),
            final(self).same_markup(old(self)),
    {
        let ghost t = self.tree@;
        let ghost rules = self.global_styles@;
        let ghost storage = self.storage;
        let ghost s = self.session();
        let ghost all = items_view(items@);
        let mut drawn: Vec<String> = Vec::new();
        let mut actions: Vec<DrawAction> = Vec::new();
        let mut i: usize = 0;
        proof {
            assert(strings_view(drawn@) =~= Seq::<Seq<char>>::empty());
            assert(actions_view(actions@) =~= Seq::<ActionView>::empty());
        }
        while i < items.len()
            invariant
                i <= items.len(),
                all == items_view(items@),
                self.same_markup(old(self)),
                t == old(self).tree@,
                rules == old(self).global_styles@,
                storage == old(self).storage,
                s == old(self).session(),
                ({
                    let pass = pass_over(t, rules, storage, s, all, i as int);
                    &&& self.session() == pass.session
                    &&& strings_view(drawn@) == pass.drawn
                    &&& actions_view(actions@) == pass.actions
                }),
            decreases items.len() - i,
        {
            let node = &items[i].1;
            proof {
                assert(all[i as int] == (items@[i as int].0, items@[i as int].1@));
            }
            if can_be_drawn(node, &drawn) {
                let ghost before_actions = actions_view(actions@);
                let ghost before_drawn = strings_view(drawn@);
                let (done, action) = self.draw_element(items[i].0, node);
                let ghost value = action@;
                actions.push(action);
                if done {
                    drawn.push(node.id.clone());
                    proof {
                        assert(strings_view(drawn@) =~= before_drawn.push(node@.id));
                    }
                }
                proof {
                    assert(actions_view(actions@) =~= before_actions.push(value));
                }
            }
            i = i + 1;
        }
        actions
    }

    /// Lays out the tree in a frame and runs the render pass over the
    /// layout: tells what is to be painted, or fails where there is no
    /// tree. The layout is that of `node_items` for some outcome of the
    /// splits (`node_ok`).
    pub fn render_ui(&mut self, frame: Rect) -> (r: Result<Vec<DrawAction>, String>)
        ensures
            final(self).same_markup(old(self)),
            match r {
                Ok(actions) => old(self).root matches Some(root) && root < old(self).tree@.len()
                    && exists|plan: Plan|
                    {
                        let items = #[trigger] node_items(
                            old(self).tree@,
                            frame,
                            root as int,
                            None,
                            None,
                            None,
                            plan,
                        );
                        let pass = pass_over(
                            old(self).tree@,
                            old(self).global_styles@,
                            old(self).storage,
                            old(self).session(),
                            items,
                            items.len() as int,
                        );
                        &&& node_ok(old(self).tree@, frame, root as int, None, None, plan)
                        &&& final(self).session() == pass.session
                        &&& actions_view(actions@) == pass.actions
                    },
                Err(message) => !(old(self).root matches Some(root) && root < old(self).tree@.len())
                    && message@ == no_root_message() && final(self).session() == old(
                    self,
                ).session(),
            },
    {
        match self.root {
            Some(root) => {
                if root < self.tree.len() {
                    let no_dependency: Option<String> = None;
                    let drawables = self.tree.process_node(frame, root, &no_dependency, None, None);
                    let ghost plan = choose|plan: Plan|
                        node_ok(self.tree@, frame, root as int, None, None, plan) && items_view(
                            drawables@,
                        ) == node_items(self.tree@, frame, root as int, None, None, None, plan);
                    let actions = self.draw_items(&drawables);
                    proof {
                        let items = node_items(
                            old(self).tree@,
                            frame,
                            root as int,
                            None,
                            None,
                            None,
                            plan,
                        );
                        assert(items == items_view(drawables@));
                    }
                    Ok(actions)
                } else {
                    Err(owned("Critical error on render process."))
                }
            },
            None => Err(owned("Critical error on render process.")),
        }
    }
}

} // verus!
