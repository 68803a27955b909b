//! How the events of a markup source build the element tree, the style
//! sheet and the focus order.

use crate::actions::CHANGE_TAB;
use crate::markup_element::{elements_view, ElementView, MarkupElement};
use crate::markup_events::{events_view, EventView, MarkupEvent};
use crate::string_map::{has_key, insert_all, insert_pair, lookup, Pairs, StringMap};
use crate::styles::{Rules, StylesStorage};
use crate::stylesheet::{read_stylesheet, stylesheet_spec};
use crate::text::{
    joined, integer_text, integer_to_string, lowercase, opt_view, owned, parse_i32, parse_signed,
    str_eq, strings_view, to_lowercase, trim, trim_spec,
};
use crate::tree::{increasing, node_wf, tree_wf};
use vstd::prelude::*;

verus! {

/// What the events read so far have built.
pub struct Build {
    /// The elements, in the order in which they started.
    pub nodes: Seq<ElementView>,
    /// The innermost element that is still open.
    pub open: Option<usize>,
    /// The number of events read, counted in 32 bits.
    pub counter: i32,
    /// The place in the focus order of the element that started last.
    pub parent_count: i32,
    /// The rules of the style sheet that ended last.
    pub styles: Rules,
    /// The elements that take focus, by rising order; of two with the same
    /// order the one that started first comes first.
    pub indexed: Seq<ElementView>,
    /// The message of the error that ended the reading.
    pub error: Option<Seq<char>>,
}

/// Nothing built.
pub open spec fn initial_build() -> Build {
    Build {
        nodes: Seq::empty(),
        open: None,
        counter: 0,
        parent_count: 0,
        styles: Seq::empty(),
        indexed: Seq::empty(),
        error: None,
    }
}

/// What is left of a build when the source turns out malformed: nothing but
/// the message.
pub open spec fn failed_build(message: Seq<char>) -> Build {
    Build { error: Some(message), ..initial_build() }
}

/// A list by rising order with one more element: it goes behind every
/// element whose order is not greater than its own.
pub open spec fn insert_by_order(list: Seq<ElementView>, e: ElementView) -> Seq<ElementView>
    decreases list.len(),
{
    if list.len() == 0 {
        seq![e]
    } else if list.last().order <= e.order {
        list.push(e)
    } else {
        insert_by_order(list.drop_last(), e).push(list.last())
    }
}

/// The parent of the open element.
pub open spec fn grandparent(s: Build) -> Option<usize> {
    match s.open {
        Some(p) => s.nodes[p as int].parent_node,
        None => None,
    }
}

/// An attribute set to a default where it is absent.
pub open spec fn with_default(attributes: Pairs, key: Seq<char>, value: Seq<char>) -> Pairs {
    if has_key(attributes, key) {
        attributes
    } else {
        insert_pair(attributes, key, value)
    }
}

/// The `tabs-id` attribute set, where it is absent, to the id of the
/// parent of the open element, if there is one.
pub open spec fn with_tabs_id(s: Build, attributes: Pairs) -> Pairs {
    match grandparent(s) {
        Some(g) => with_default(attributes, "tabs-id"@, s.nodes[g as int].id),
        None => attributes,
    }
}

/// The attributes of an element that starts as event number `counter`:
/// those of the source, each name with its last value; for a `tab-item`
/// also the defaults of `action`, `index` and `tabs-id`, for a
/// `tab-content` that of `tabs-id`.
pub open spec fn start_attributes(s: Build, name: Seq<char>, given: Pairs, counter: i32) -> Pairs {
    let a0 = insert_all(Seq::empty(), given);
    if name == "tab-item"@ {
        with_tabs_id(
            s,
            with_default(
                with_default(a0, "action"@, CHANGE_TAB@),
                "index"@,
                integer_text(counter as int),
            ),
        )
    } else if name == "tab-content"@ {
        with_tabs_id(s, a0)
    } else {
        a0
    }
}

/// The place in the focus order of an element that starts as event number
/// `counter`: for a `tab-item` ten times the place of the element that
/// started before it plus `counter`, counted in 32 bits, if that is not
/// negative; else the number that the `index` attribute writes; else the
/// former number for a `tab-item` and -1 for any other element.
pub open spec fn start_order(s: Build, name: Seq<char>, attributes: Pairs, counter: i32) -> i32 {
    let possible = if name == "tab-item"@ {
        s.parent_count.wrapping_mul(10).wrapping_add(counter)
    } else {
        -1i32
    };
    if possible > -1 {
        possible
    } else {
        let text = match lookup(attributes, "index"@) {
            Some(v) => v,
            None => "-1"@,
        };
        match parse_signed(text, i32::MIN as int, i32::MAX as int) {
            Some(v) => v as i32,
            None => possible,
        }
    }
}

/// The element that starts as event number `counter`.
pub open spec fn start_node(s: Build, name: Seq<char>, given: Pairs, counter: i32) -> ElementView {
    let attributes = start_attributes(s, name, given, counter);
    ElementView {
        position: Some(s.nodes.len() as usize),
        deep: match s.open {
            Some(p) => (s.nodes[p as int].deep + 1) as usize,
            None => 0,
        },
        id: match lookup(attributes, "id"@) {
            Some(v) => v,
            None => "unknown_elm_"@ + integer_text(counter as int),
        },
        name: lowercase(name),
        order: start_order(s, name, attributes, counter),
        text: None,
        attributes,
        children: Seq::empty(),
        parent_node: s.open,
        dependencies: Seq::empty(),
    }
}

/// The elements with one more child at the end of the children of `p`.
pub open spec fn with_child(nodes: Seq<ElementView>, p: int, child: usize) -> Seq<ElementView> {
    nodes.update(p, ElementView { children: nodes[p].children.push(child), ..nodes[p] })
}

/// The build after an element started: the element is the last of the
/// elements, a child of the element that was open if there is one, open
/// itself, and in the focus order if its order is not negative.
pub open spec fn after_start(s: Build, name: Seq<char>, given: Pairs) -> Build {
    let counter = s.counter.wrapping_add(1);
    let node = start_node(s, name, given, counter);
    let position = s.nodes.len() as usize;
    let linked = match s.open {
        Some(p) => with_child(s.nodes, p as int, position),
        None => s.nodes,
    };
    Build {
        nodes: linked.push(node),
        open: Some(position),
        counter,
        parent_count: node.order,
        indexed: if node.order > -1 {
            insert_by_order(s.indexed, node)
        } else {
            s.indexed
        },
        ..s
    }
}

/// The build after character data: the open element has the trimmed data
/// as its text.
pub open spec fn after_text(s: Build, text: Seq<char>) -> Build {
    let counter = s.counter.wrapping_add(1);
    match s.open {
        Some(c) => Build {
            nodes: s.nodes.update(
                c as int,
                ElementView { text: Some(trim_spec(text)), ..s.nodes[c as int] },
            ),
            counter,
            ..s
        },
        None => Build { counter, ..s },
    }
}

/// The build after an element ended: its parent is the open element, and
/// where it was a `styles` element its text is the style sheet.
pub open spec fn after_end(s: Build) -> Build {
    let counter = s.counter.wrapping_add(1);
    match s.open {
        Some(p) => Build {
            open: s.nodes[p as int].parent_node,
            styles: if s.nodes[p as int].name == "styles"@ {
                stylesheet_spec(s.nodes[p as int].text)
            } else {
                s.styles
            },
            counter,
            ..s
        },
        None => Build { counter, ..s },
    }
}

/// The build after one more event.
pub open spec fn after_event(s: Build, e: EventView) -> Build {
    match e {
        EventView::Start { name, attributes } => after_start(s, name, attributes),
        EventView::Text(text) => after_text(s, text),
        EventView::End => after_end(s),
        EventView::Other => Build { counter: s.counter.wrapping_add(1), ..s },
        EventView::Error(message) => failed_build(message),
    }
}

/// What a list of events builds. Events after an error build nothing.
pub open spec fn build_of(events: Seq<EventView>) -> Build
    decreases events.len(),
{
    if events.len() == 0 {
        initial_build()
    } else {
        let before = build_of(events.drop_last());
        if before.error is Some {
            before
        } else {
            after_event(before, events.last())
        }
    }
}

/// What holds of every build: the elements make a tree, and the open
/// element is among them.
pub open spec fn build_wf(s: Build) -> bool {
    &&& tree_wf(s.nodes)
    &&& s.open matches Some(p) ==> p < s.nodes.len()
}

/// A list is in rising order.
pub open spec fn by_order(list: Seq<ElementView>) -> bool {
    forall|i: int, j: int| 0 <= i < j < list.len() ==> list[i].order <= list[j].order
}

pub proof fn lemma_insert_at_position(list: Seq<ElementView>, e: ElementView, pos: int)
    requires
        0 <= pos <= list.len(),
        forall|j: int| pos <= j < list.len() ==> list[j].order > e.order,
        pos == 0 || list[pos - 1].order <= e.order,
    ensures
        insert_by_order(list, e) == list.insert(pos, e),
    decreases list.len() - pos,
{
    if list.len() == 0 {
        assert(list.insert(0, e) =~= seq![e]);
    } else if pos == list.len() {
        assert(list.insert(pos, e) =~= list.push(e));
    } else {
        lemma_insert_at_position(list.drop_last(), e, pos);
        assert(list.drop_last().insert(pos, e).push(list.last()) =~= list.insert(pos, e));
    }
}

/// Inserting into a list in rising order leaves it in rising order, one
/// element longer.
pub proof fn lemma_insert_keeps_order(list: Seq<ElementView>, e: ElementView)
    requires
        by_order(list),
    ensures
        by_order(insert_by_order(list, e)),
        insert_by_order(list, e).len() == list.len() + 1,
    decreases list.len(),
{
    if list.len() > 0 && list.last().order > e.order {
        let rest = list.drop_last();
        assert(by_order(rest)) by {
            assert forall|i: int, j: int| 0 <= i < j < rest.len() implies rest[i].order
                <= rest[j].order by {
                assert(rest[i] == list[i] && rest[j] == list[j]);
            }
        }
        lemma_insert_keeps_order(rest, e);
        lemma_insert_bounds(rest, e, list.last().order);
    }
}

/// Inserting an element below a bound into a list below that bound leaves
/// the list below the bound.
pub proof fn lemma_insert_bounds(list: Seq<ElementView>, e: ElementView, bound: i32)
    requires
        e.order <= bound,
        forall|i: int| 0 <= i < list.len() ==> list[i].order <= bound,
    ensures
        forall|i: int|
            0 <= i < insert_by_order(list, e).len() ==> insert_by_order(list, e)[i].order <= bound,
    decreases list.len(),
{
    if list.len() > 0 && list.last().order > e.order {
        let rest = list.drop_last();
        assert forall|i: int| 0 <= i < rest.len() implies rest[i].order <= bound by {
            assert(rest[i] == list[i]);
        }
        lemma_insert_bounds(rest, e, bound);
    }
}

/// The structure of a tree does not depend on the texts of its elements.
pub proof fn lemma_text_keeps_tree(t: Seq<ElementView>, c: int, text: Option<Seq<char>>)
    requires
        tree_wf(t),
        0 <= c < t.len(),
    ensures
        tree_wf(t.update(c, ElementView { text, ..t[c] })),
{
    let u = t.update(c, ElementView { text, ..t[c] });
    assert forall|i: int| 0 <= i < u.len() implies node_wf(u, i) by {
        assert(node_wf(t, i));
        assert(u[i].children == t[i].children);
        assert(u[i].parent_node == t[i].parent_node);
        assert(u[i].deep == t[i].deep);
        match t[i].parent_node {
            Some(p) => {
                assert(u[p as int].children == t[p as int].children);
                assert(u[p as int].deep == t[p as int].deep);
            },
            None => {},
        }
        assert forall|k: int| 0 <= k < u[i].children.len() implies i < (#[trigger] u[i].children[k])
            < u.len() && u[u[i].children[k] as int].parent_node == Some(i as usize) by {
            let child = t[i].children[k];
            assert(u[child as int].parent_node == t[child as int].parent_node);
        }
    }
}

/// A new last element under the open element keeps the tree a tree.
pub proof fn lemma_start_keeps_tree(s: Build, name: Seq<char>, given: Pairs)
    requires
        build_wf(s),
        s.nodes.len() < usize::MAX,
    ensures
        build_wf(after_start(s, name, given)),
{
    let after = after_start(s, name, given);
    let t = s.nodes;
    let u = after.nodes;
    let n = t.len() as int;
    assert(u.len() == n + 1);
    match s.open {
        Some(p) => {
            assert(node_wf(t, p as int));
            assert(u[p as int].children == t[p as int].children.push(n as usize));
        },
        None => {},
    }
    assert forall|i: int| 0 <= i < u.len() implies node_wf(u, i) by {
        if i < n {
            assert(node_wf(t, i));
            assert(u[i].deep == t[i].deep);
            assert(u[i].parent_node == t[i].parent_node);
            match t[i].parent_node {
                Some(q) => {
                    assert(u[q as int].deep == t[q as int].deep);
                    let w = choose|w: int|
                        0 <= w < t[q as int].children.len() && t[q as int].children[w]
                            == i as usize;
                    if s.open == Some(q) {
                        assert(u[q as int].children[w] == i as usize);
                    } else {
                        assert(u[q as int].children == t[q as int].children);
                    }
                },
                None => {},
            }
            if s.open == Some(i as usize) {
                let kids = u[i].children;
                assert(kids == t[i].children.push(n as usize));
                assert(increasing(kids)) by {
                    assert forall|a: int, b: int| 0 <= a < b < kids.len() implies kids[a]
                        < kids[b] by {
                        if b < kids.len() - 1 {
                            assert(kids[a] == t[i].children[a] && kids[b] == t[i].children[b]);
                        } else {
                            assert(kids[a] == t[i].children[a]);
                        }
                    }
                }
                assert forall|k: int| 0 <= k < kids.len() implies i < (#[trigger] kids[k])
                    < u.len() && u[kids[k] as int].parent_node == Some(i as usize) by {
                    if k < kids.len() - 1 {
                        let child = t[i].children[k];
                        assert(kids[k] == child);
                        assert(u[child as int].parent_node == t[child as int].parent_node);
                    }
                }
            } else {
                assert(u[i].children == t[i].children);
                assert forall|k: int| 0 <= k < u[i].children.len() implies i < (
                #[trigger] u[i].children[k]) < u.len() && u[u[i].children[k] as int].parent_node
                    == Some(i as usize) by {
                    let child = t[i].children[k];
                    assert(u[child as int].parent_node == t[child as int].parent_node);
                }
            }
        } else {
            match s.open {
                Some(p) => {
                    let kids = u[p as int].children;
                    assert(kids[kids.len() - 1] == n as usize);
                    assert(kids.contains(n as usize));
                },
                None => {},
            }
        }
    }
}

/// Closing the open element keeps the build well formed.
pub proof fn lemma_end_keeps_tree(s: Build)
    requires
        build_wf(s),
    ensures
        build_wf(after_end(s)),
{
    match s.open {
        Some(p) => {
            assert(node_wf(s.nodes, p as int));
        },
        None => {},
    }
}

/// Whatever the events, what they build is well formed, and its focus
/// order rises.
pub proof fn lemma_build_wf(events: Seq<EventView>)
    requires
        events.len() <= usize::MAX,
    ensures
        build_wf(build_of(events)),
        by_order(build_of(events).indexed),
        build_of(events).nodes.len() <= events.len(),
    decreases events.len(),
{
    if events.len() > 0 {
        lemma_build_wf(events.drop_last());
        let before = build_of(events.drop_last());
        if before.error is None {
            match events.last() {
                EventView::Start { name, attributes } => {
                    lemma_start_keeps_tree(before, name, attributes);
                    let node = start_node(before, name, attributes, before.counter.wrapping_add(1));
                    lemma_insert_keeps_order(before.indexed, node);
                },
                EventView::Text(text) => {
                    match before.open {
                        Some(c) => {
                            lemma_text_keeps_tree(before.nodes, c as int, Some(trim_spec(text)));
                        },
                        None => {},
                    }
                },
                EventView::End => {
                    lemma_end_keeps_tree(before);
                },
                EventView::Other => {},
                EventView::Error(message) => {},
            }
        }
    }
}

/// What the events read so far have built, in memory.
pub struct Builder {
    pub nodes: Vec<MarkupElement>,
    pub open: Option<usize>,
    pub counter: i32,
    pub parent_count: i32,
    pub styles: StylesStorage,
    pub indexed: Vec<MarkupElement>,
    pub error: Option<String>,
}

impl View for Builder {
    type V = Build;

    open spec fn view(&self) -> Build {
        Build {
            nodes: elements_view(self.nodes@),
            open: self.open,
            counter: self.counter,
            parent_count: self.parent_count,
            styles: self.styles@,
            indexed: elements_view(self.indexed@),
            error: opt_view(self.error),
        }
    }
}

/// Puts an element into a list by rising order, behind every element whose
/// order is not greater than its own.
pub fn insert_ordered(list: &mut Vec<MarkupElement>, e: MarkupElement)
    ensures
        elements_view(final(list)@) == insert_by_order(elements_view(old(list)@), e@),
{
    let ghost before = elements_view(list@);
    let mut pos: usize = list.len();
    while pos > 0 && list[pos - 1].order > e.order
        invariant
            pos <= list.len(),
            before == elements_view(list@),
            forall|j: int| pos <= j < list.len() ==> before[j].order > e.order,
        decreases pos,
    {
        pos = pos - 1;
    }
    proof {
        lemma_insert_at_position(before, e@, pos as int);
    }
    let ghost value = e@;
    list.insert(pos, e);
    proof {
        assert(elements_view(list@) =~= before.insert(pos as int, value));
    }
}

impl Builder {
    /// Nothing built.
    pub fn new() -> (r: Self)
        ensures
            r@ == initial_build(),
            build_wf(r@),
    {
        let r = Builder {
            nodes: Vec::new(),
            open: None,
                counter: 0,
            parent_count: 0,
            styles: StylesStorage::new(),
            indexed: Vec::new(),
            error: None,
        };
        proof {
            assert(elements_view(r.nodes@) =~= Seq::<ElementView>::empty());
            assert(elements_view(r.indexed@) =~= Seq::<ElementView>::empty());
        }
        r
    }

    fn set_tabs_id(&self, attributes: &mut StringMap)
        requires
            build_wf(self@),
        ensures
            final(attributes)@ == with_tabs_id(self@, old(attributes)@),
    {
        match self.open {
            Some(p) => {
                proof {
                    assert(node_wf(self@.nodes, p as int));
                }
                match self.nodes[p].parent_node {
                    Some(g) => {
                        if !attributes.contains_key("tabs-id") {
                            attributes.insert(owned("tabs-id"), self.nodes[g].id.clone());
                        }
                    },
                    None => {},
                }
            },
            None => {},
        }
    }

    fn make_attributes(&self, name: &str, given: &Vec<(String, String)>, counter: i32) -> (r:
        StringMap)
        requires
            build_wf(self@),
        ensures
            r@ == start_attributes(self@, name@, crate::string_map::pairs_view(given@), counter),
    {
        let mut attributes = StringMap::from_pairs(given);
        if str_eq(name, "tab-item") {
            if !attributes.contains_key("action") {
                attributes.insert(owned("action"), owned(CHANGE_TAB));
            }
            if !attributes.contains_key("index") {
                attributes.insert(owned("index"), integer_to_string(counter as i64));
            }
            self.set_tabs_id(&mut attributes);
        } else if str_eq(name, "tab-content") {
            self.set_tabs_id(&mut attributes);
        }
        attributes
    }

    fn make_order(&self, name: &str, attributes: &StringMap, counter: i32) -> (r: i32)
        ensures
            r == start_order(self@, name@, attributes@, counter),
    {
        let possible: i32 = if str_eq(name, "tab-item") {
            self.parent_count.wrapping_mul(10).wrapping_add(counter)
        } else {
            -1
        };
        if possible > -1 {
            possible
        } else {
            let parsed = match attributes.get("index") {
                Some(v) => parse_i32(v.as_str()),
                None => parse_i32("-1"),
            };
            match parsed {
                Some(v) => v,
                None => possible,
            }
        }
    }

    fn make_node(&self, name: &str, given: &Vec<(String, String)>, counter: i32) -> (r:
        MarkupElement)
        requires
            build_wf(self@),
        ensures
            r@ == start_node(self@, name@, crate::string_map::pairs_view(given@), counter),
    {
        let attributes = self.make_attributes(name, given, counter);
        let id = match attributes.get("id") {
            Some(v) => v.clone(),
            None => {
                let number = integer_to_string(counter as i64);
                joined("unknown_elm_", number.as_str())
            },
        };
        let order = self.make_order(name, &attributes, counter);
        let total = self.nodes.len();
        let deep: usize = match self.open {
            Some(p) => {
                proof {
                    assert(node_wf(self@.nodes, p as int));
                }
                self.nodes[p].deep + 1
            },
            None => 0,
        };
        let r = MarkupElement {
            position: Some(total),
            deep,
            id,
            name: to_lowercase(name),
            order,
            text: None,
            attributes,
            children: Vec::new(),
            parent_node: self.open,
            dependencies: Vec::new(),
        };
        proof {
            assert(strings_view(r.dependencies@) =~= Seq::<Seq<char>>::empty());
        }
        r
    }

    /// Takes the start of an element.
    pub fn start(&mut self, name: &str, given: &Vec<(String, String)>)
        requires
            build_wf(old(self)@),
        ensures
            final(self)@ == after_start(old(self)@, name@, crate::string_map::pairs_view(given@)),
            build_wf(final(self)@),
    {
        let ghost s = self@;
        let counter = self.counter.wrapping_add(1);
        let node = self.make_node(name, given, counter);
        let order = node.order;
        let entry = node.clone();
        self.nodes.push(node);
        let position: usize = self.nodes.len() - 1;
        match self.open {
            Some(p) => {
                let mut parent = self.nodes[p].clone();
                parent.children.push(position);
                self.nodes.set(p, parent);
            },
            None => {},
        }
        if order > -1 {
            insert_ordered(&mut self.indexed, entry);
        }
        self.open = Some(position);
        self.counter = counter;
        self.parent_count = order;
        proof {
            lemma_start_keeps_tree(s, name@, crate::string_map::pairs_view(given@));
            assert(self@.nodes =~= after_start(
                s,
                name@,
                crate::string_map::pairs_view(given@),
            ).nodes);
        }
    }

    /// Takes character data.
    pub fn text(&mut self, text: &str)
        requires
            build_wf(old(self)@),
        ensures
            final(self)@ == after_text(old(self)@, text@),
            build_wf(final(self)@),
    {
        let ghost s = self@;
        let counter = self.counter.wrapping_add(1);
        match self.open {
            Some(c) => {
                let mut node = self.nodes[c].clone();
                node.text = Some(trim(text));
                self.nodes.set(c, node);
                proof {
                    lemma_text_keeps_tree(s.nodes, c as int, Some(trim_spec(text@)));
                    assert(self@.nodes =~= after_text(s, text@).nodes);
                }
            },
            None => {},
        }
        self.counter = counter;
    }

    /// Takes the end of an element.
    pub fn end(&mut self)
        requires
            build_wf(old(self)@),
        ensures
            final(self)@ == after_end(old(self)@),
            build_wf(final(self)@),
    {
        let ghost s = self@;
        let counter = self.counter.wrapping_add(1);
        match self.open {
            Some(p) => {
                if str_eq(self.nodes[p].name.as_str(), "styles") {
                    self.styles = read_stylesheet(&self.nodes[p]);
                }
                self.open = self.nodes[p].parent_node;
            },
            None => {},
        }
        self.counter = counter;
        proof {
            lemma_end_keeps_tree(s);
        }
    }

    /// Takes one event.
    pub fn feed(&mut self, event: &MarkupEvent)
        requires
            build_wf(old(self)@),
        ensures
            final(self)@ == after_event(old(self)@, event@),
            build_wf(final(self)@),
    {
        match event {
            MarkupEvent::Start { name, attributes } => {
                self.start(name.as_str(), attributes);
            },
            MarkupEvent::Text(text) => {
                self.text(text.as_str());
            },
            MarkupEvent::End => {
                self.end();
            },
            MarkupEvent::Other => {
                self.counter = self.counter.wrapping_add(1);
            },
            MarkupEvent::Error(message) => {
                let mut failed = Builder::new();
                failed.error = Some(message.clone());
                *self = failed;
            },
        }
    }
}

/// Builds the tree, the style sheet and the focus order from the events of
/// a markup source, as `build_of` defines them.
pub fn build(events: &Vec<MarkupEvent>) -> (r: Builder)
    ensures
        r@ == build_of(events_view(events@)),
        build_wf(r@),
{
    let ghost all = events_view(events@);
    let mut builder = Builder::new();
    let mut i: usize = 0;
    proof {
        assert(all.subrange(0, 0) =~= Seq::<EventView>::empty());
    }
    while i < events.len()
        invariant
            i <= events.len(),
            all == events_view(events@),
            builder@ == build_of(all.subrange(0, i as int)),
            build_wf(builder@),
        decreases events.len() - i,
    {
        proof {
            assert(all.subrange(0, i + 1).drop_last() =~= all.subrange(0, i as int));
            assert(all.subrange(0, i + 1).last() == events@[i as int]@);
        }
        if builder.error.is_none() {
            builder.feed(&events[i]);
        }
        i = i + 1;
    }
    proof {
        assert(all.subrange(0, events.len() as int) =~= all);
    }
    builder
}

/// Whether every element but the first starts inside an open element, as
/// in a document with a single root.
pub open spec fn nested(events: Seq<EventView>) -> bool {
    forall|k: int|
        0 <= k < events.len() && events[k] is Start && (#[trigger] build_of(
            events.subrange(0, k),
        )).nodes.len() > 0 ==> build_of(events.subrange(0, k)).open is Some
}

/// The events of a document with a single root build a tree with a single
/// root: every element but the first has a parent.
pub proof fn lemma_single_root(events: Seq<EventView>)
    requires
        nested(events),
        events.len() <= usize::MAX,
    ensures
        forall|i: int|
            0 < i < build_of(events).nodes.len() ==> (#[trigger] build_of(
                events,
            ).nodes[i]).parent_node is Some,
    decreases events.len(),
{
    if events.len() > 0 {
        let init = events.drop_last();
        let before = build_of(init);
        assert(nested(init)) by {
            assert forall|k: int|
                0 <= k < init.len() && init[k] is Start && (#[trigger] build_of(
                    init.subrange(0, k),
                )).nodes.len() > 0 implies build_of(init.subrange(0, k)).open is Some by {
                assert(init.subrange(0, k) =~= events.subrange(0, k));
                assert(events[k] == init[k]);
            }
        }
        lemma_single_root(init);
        lemma_build_wf(init);
        assert(events.subrange(0, events.len() - 1) =~= init);
        if before.error is None {
            match events.last() {
                EventView::Start { name, attributes } => {
                    let after = after_start(before, name, attributes);
                    assert forall|i: int| 0 < i < after.nodes.len() implies (
                    #[trigger] after.nodes[i]).parent_node is Some by {
                        if i < before.nodes.len() {
                            assert(after.nodes[i].parent_node == before.nodes[i].parent_node);
                        } else {
                            assert(build_of(events.subrange(0, events.len() - 1)).nodes.len() > 0);
                        }
                    }
                },
                EventView::Text(text) => {
                    let after = after_text(before, text);
                    assert forall|i: int| 0 < i < after.nodes.len() implies (
                    #[trigger] after.nodes[i]).parent_node is Some by {
                        assert(after.nodes[i].parent_node == before.nodes[i].parent_node);
                    }
                },
                EventView::End => {},
                EventView::Other => {},
                EventView::Error(message) => {},
            }
        }
    }
}

} // verus!
