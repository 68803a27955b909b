//! The style of an element under a style sheet: the rules of its ancestors
//! from the root down, then its own.

use crate::markup_element::{ElementView, MarkupElement};
use crate::registry::find_entry;
use crate::styles::{
    default_style, patch_spec, rule_or_default, Rules, Style, StylesStorage,
};
use crate::text::joined;
use crate::tree::MarkupTree;
use vstd::prelude::*;

verus! {

/// The name of the rule for a tag in a state: `tag:focus` for a focused
/// element, else `tag:active` for an active one, else the tag.
pub open spec fn rule_name(tag: Seq<char>, focus: bool, active: bool) -> Seq<char> {
    if focus {
        tag + ":focus"@
    } else if active {
        tag + ":active"@
    } else {
        tag
    }
}

/// The name of the rule for an id.
pub open spec fn id_rule_name(id: Seq<char>) -> Seq<char> {
    "#"@ + id
}

/// The inherited style patched with the rule of the element's tag, then
/// with the rule of its id.
pub open spec fn styled(
    rules: Rules,
    e: ElementView,
    inherited: Style,
    focus: bool,
    active: bool,
) -> Style {
    patch_spec(
        patch_spec(inherited, rule_or_default(rules, rule_name(e.name, focus, active))),
        rule_or_default(rules, id_rule_name(e.id)),
    )
}

/// The style of the element at a position of the tree: that of its parent,
/// patched with its own rules. Every ancestor is taken in the state of the
/// element that asks.
pub open spec fn cascade_at(
    t: Seq<ElementView>,
    rules: Rules,
    idx: int,
    focus: bool,
    active: bool,
) -> Style
    decreases idx,
{
    if idx < 0 || idx >= t.len() {
        default_style()
    } else {
        let inherited = match t[idx].parent_node {
            Some(p) => if p < idx {
                cascade_at(t, rules, p as int, focus, active)
            } else {
                default_style()
            },
            None => default_style(),
        };
        styled(rules, t[idx], inherited, focus, active)
    }
}

/// The style of an element of the tree, or of one that a layout made up
/// under a parent in the tree.
pub open spec fn cascade(
    t: Seq<ElementView>,
    rules: Rules,
    e: ElementView,
    focus: bool,
    active: bool,
) -> Style {
    let inherited = match e.parent_node {
        Some(p) => cascade_at(t, rules, p as int, focus, active),
        None => default_style(),
    };
    styled(rules, e, inherited, focus, active)
}

/// What the rule of an element's id sets wins over every other rule: its
/// colours are the element's colours.
pub proof fn lemma_id_rule_wins(
    t: Seq<ElementView>,
    rules: Rules,
    e: ElementView,
    focus: bool,
    active: bool,
)
    ensures
        find_entry(rules, id_rule_name(e.id)) matches Some(rule) ==> {
            &&& rule.fg is Some ==> cascade(t, rules, e, focus, active).fg == rule.fg
            &&& rule.bg is Some ==> cascade(t, rules, e, focus, active).bg == rule.bg
        },
{
}

/// Where the rule of the id sets no colour, the rule of the tag decides;
/// where neither does, the colour is inherited.
pub proof fn lemma_tag_rule_under_id_rule(
    t: Seq<ElementView>,
    rules: Rules,
    e: ElementView,
    focus: bool,
    active: bool,
)
    ensures
        ({
            let own = rule_or_default(rules, id_rule_name(e.id));
            let tag = rule_or_default(rules, rule_name(e.name, focus, active));
            let inherited = match e.parent_node {
                Some(p) => cascade_at(t, rules, p as int, focus, active),
                None => default_style(),
            };
            let style = cascade(t, rules, e, focus, active);
            &&& own.fg is None && tag.fg is Some ==> style.fg == tag.fg
            &&& own.bg is None && tag.bg is Some ==> style.bg == tag.bg
            &&& own.fg is None && tag.fg is None ==> style.fg == inherited.fg
            &&& own.bg is None && tag.bg is None ==> style.bg == inherited.bg
        }),
{
}

/// The inherited style patched with the rules of an element.
pub fn style_under(
    rules: &StylesStorage,
    node: &MarkupElement,
    inherited: Style,
    focus: bool,
    active: bool,
) -> (r: Style)
    ensures
        r == styled(rules@, node@, inherited, focus, active),
{
    let tag_rule = if focus {
        let name = joined(node.name.as_str(), ":focus");
        rules.rule(name.as_str())
    } else if active {
        let name = joined(node.name.as_str(), ":active");
        rules.rule(name.as_str())
    } else {
        rules.rule(node.name.as_str())
    };
    let id_name = joined("#", node.id.as_str());
    inherited.patch(tag_rule).patch(rules.rule(id_name.as_str()))
}

impl MarkupTree {
    /// The style of the element at a position, as `cascade_at` defines it.
    pub fn styles_at(&self, rules: &StylesStorage, idx: usize, focus: bool, active: bool) -> (r:
        Style)
        ensures
            r == cascade_at(self@, rules@, idx as int, focus, active),
        decreases idx,
    {
        if idx >= self.len() {
            return Style::new();
        }
        let node = self.node(idx);
        let inherited = match node.parent_node {
            Some(p) => {
                if p < idx {
                    self.styles_at(rules, p, focus, active)
                } else {
                    Style::new()
                }
            },
            None => Style::new(),
        };
        style_under(rules, node, inherited, focus, active)
    }

    /// The style of an element under a style sheet, as `cascade` defines
    /// it.
    pub fn get_element_styles(
        &self,
        rules: &StylesStorage,
        node: &MarkupElement,
        focus: bool,
        active: bool,
    ) -> (r: Style)
        ensures
            r == cascade(self@, rules@, node@, focus, active),
    {
        let inherited = match node.parent_node {
            Some(p) => self.styles_at(rules, p, focus, active),
            None => Style::new(),
        };
        style_under(rules, node, inherited, focus, active)
    }
}

} // verus!
