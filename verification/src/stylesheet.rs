//! The style grammar: declarations such as `bg:red;weight:bold`, and the
//! blocks of a style sheet, `name { declarations }`.

use crate::markup_element::MarkupElement;
use crate::registry::register;
use crate::string_map::{lookup_or_empty, Pairs};
use crate::styles::{
    add_modifier_spec, default_style, patch_spec, Rules, Style, StylesStorage,
};
use crate::text::{
    lowercase, remove_char, split_char, split_spec, str_eq, strings_view, trim, trim_spec,
    without_char,
};
use crate::utils::{
    add_modifiers, color_from_str, color_named, modifier_from_str, modifier_named,
    modifiers_from_str,
};
use vstd::prelude::*;
use vstd::utf8::encode_utf8;

verus! {

/// The declaration that an item writes: the first two pieces between `:`,
/// each without the white space around it. None for an item without a `:`.
pub open spec fn declaration_of(item: Seq<char>) -> Option<(Seq<char>, Seq<char>)> {
    let parts = split_spec(item, ':');
    if parts.len() >= 2 {
        Some((trim_spec(parts[0]), trim_spec(parts[1])))
    } else {
        None
    }
}

/// The declarations of a list of items, in order. Empty items and items
/// without a `:` are passed over.
pub open spec fn declarations_of(items: Seq<Seq<char>>) -> Pairs
    decreases items.len(),
{
    if items.len() == 0 {
        Seq::empty()
    } else {
        let before = declarations_of(items.drop_last());
        if items.last().len() == 0 {
            before
        } else {
            match declaration_of(items.last()) {
                Some(d) => before.push(d),
                None => before,
            }
        }
    }
}

/// The value of the last declaration of a property.
pub open spec fn last_value(declarations: Pairs, key: Seq<char>) -> Option<Seq<char>>
    decreases declarations.len(),
{
    if declarations.len() == 0 {
        None
    } else if declarations.last().0 == key {
        Some(declarations.last().1)
    } else {
        last_value(declarations.drop_last(), key)
    }
}

/// The style that a list of declarations sets: the background of `bg` and
/// the foreground of `fg`, the modifier of `weight`, and every modifier of
/// `font-decoration`. Of several declarations of one property the last
/// counts; other properties are ignored.
pub open spec fn style_of_declarations(d: Pairs) -> Style {
    let s0 = default_style();
    let s1 = match last_value(d, "bg"@) {
        Some(v) => Style { bg: Some(color_named(lowercase(v))), ..s0 },
        None => s0,
    };
    let s2 = match last_value(d, "fg"@) {
        Some(v) => Style { fg: Some(color_named(lowercase(v))), ..s1 },
        None => s1,
    };
    let s3 = match last_value(d, "weight"@) {
        Some(v) => add_modifier_spec(s2, modifier_named(lowercase(v))),
        None => s2,
    };
    match last_value(d, "font-decoration"@) {
        Some(v) => patch_spec(s3, add_modifiers(split_spec(lowercase(v), '|'))),
        None => s3,
    }
}

/// The style that a text of declarations separated by `;` sets. A text of
/// fewer than three bytes sets nothing.
pub open spec fn style_spec(text: Seq<char>) -> Style {
    if encode_utf8(text).len() < 3 {
        default_style()
    } else {
        style_of_declarations(declarations_of(split_spec(text, ';')))
    }
}

fn find_last(declarations: &Vec<(String, String)>, key: &str) -> (r: Option<usize>)
    ensures
        match r {
            Some(i) => i < declarations@.len() && last_value(
                crate::string_map::pairs_view(declarations@),
                key@,
            ) == Some(declarations@[i as int].1@),
            None => last_value(crate::string_map::pairs_view(declarations@), key@) is None,
        },
{
    let ghost all = crate::string_map::pairs_view(declarations@);
    let mut i: usize = declarations.len();
    proof {
        assert(all.subrange(0, i as int) =~= all);
    }
    while i > 0
        invariant
            i <= declarations.len(),
            all == crate::string_map::pairs_view(declarations@),
            last_value(all, key@) == last_value(all.subrange(0, i as int), key@),
        decreases i,
    {
        proof {
            assert(all.subrange(0, i as int).drop_last() =~= all.subrange(0, i - 1));
        }
        if str_eq(declarations[i - 1].0.as_str(), key) {
            return Some(i - 1);
        }
        i = i - 1;
    }
    None
}

/// Reads the declarations of a text, as `declarations_of` defines them.
pub fn read_declarations(text: &str) -> (r: Vec<(String, String)>)
    ensures
        crate::string_map::pairs_view(r@) == declarations_of(split_spec(text@, ';')),
{
    let items = split_char(text, ';');
    let ghost all = strings_view(items@);
    let mut out: Vec<(String, String)> = Vec::new();
    let mut i: usize = 0;
    proof {
        assert(crate::string_map::pairs_view(out@) =~= declarations_of(all.subrange(0, 0)));
    }
    while i < items.len()
        invariant
            i <= items.len(),
            all == strings_view(items@),
            crate::string_map::pairs_view(out@) == declarations_of(all.subrange(0, i as int)),
        decreases items.len() - i,
    {
        proof {
            assert(all.subrange(0, i + 1).drop_last() =~= all.subrange(0, i as int));
            assert(all.subrange(0, i + 1).last() == items@[i as int]@);
        }
        let item = items[i].as_str();
        if item.unicode_len() > 0 {
            let parts = split_char(item, ':');
            if parts.len() >= 2 {
                let key = trim(parts[0].as_str());
                let value = trim(parts[1].as_str());
                let ghost before = crate::string_map::pairs_view(out@);
                out.push((key, value));
                proof {
                    assert(crate::string_map::pairs_view(out@) =~= before.push((key@, value@)));
                }
            }
        }
        i = i + 1;
    }
    proof {
        assert(all.subrange(0, items.len() as int) =~= all);
    }
    out
}

/// Reads a style from declarations separated by `;`, as `style_spec`
/// defines it. An item without a `:` is passed over.
pub fn generate_styles(styles_text: &str) -> (r: Style)
    ensures
        r == style_spec(styles_text@),
{
    let mut res = Style::new();
    if styles_text.as_bytes().len() < 3 {
        return res;
    }
    let declarations = read_declarations(styles_text);
    match find_last(&declarations, "bg") {
        Some(i) => {
            res = res.bg(color_from_str(declarations[i].1.as_str()));
        },
        None => {},
    }
    match find_last(&declarations, "fg") {
        Some(i) => {
            res = res.fg(color_from_str(declarations[i].1.as_str()));
        },
        None => {},
    }
    match find_last(&declarations, "weight") {
        Some(i) => {
            res = res.add_modifier(modifier_from_str(declarations[i].1.as_str()));
        },
        None => {},
    }
    match find_last(&declarations, "font-decoration") {
        Some(i) => {
            res = res.patch(modifiers_from_str(declarations[i].1.as_str()));
        },
        None => {},
    }
    res
}

/// The attribute that holds the inline style of an element in a state:
/// `active_styles` for an active one, else `focus_styles` for a focused
/// one, else `styles`.
pub open spec fn style_key(focus: bool, active: bool) -> Seq<char> {
    if active {
        "active_styles"@
    } else if focus {
        "focus_styles"@
    } else {
        "styles"@
    }
}

/// The inline style of an element in a state.
pub open spec fn inline_style(attributes: Pairs, focus: bool, active: bool) -> Style {
    style_spec(lookup_or_empty(attributes, style_key(focus, active)))
}

/// Reads the inline style of an element, as `inline_style` defines it.
pub fn element_styles(node: &MarkupElement, focus: bool, active: bool) -> (r: Style)
    ensures
        r == inline_style(node@.attributes, focus, active),
{
    let key = if active {
        "active_styles"
    } else if focus {
        "focus_styles"
    } else {
        "styles"
    };
    let styles_text = node.attributes.get_or_empty(key);
    generate_styles(styles_text.as_str())
}

/// A style sheet's text without line breaks and blanks.
pub open spec fn compact(text: Seq<char>) -> Seq<char> {
    without_char(without_char(without_char(text, '\n'), '\r'), ' ')
}

/// The rules of a list of blocks, each written `name{declarations`. The
/// first rule under a name is kept; a block without a `{` is passed over.
pub open spec fn rules_of_blocks(blocks: Seq<Seq<char>>) -> Rules
    decreases blocks.len(),
{
    if blocks.len() == 0 {
        Seq::empty()
    } else {
        let before = rules_of_blocks(blocks.drop_last());
        let pieces = split_spec(blocks.last(), '{');
        if pieces.len() >= 2 {
            register(before, pieces[0], style_spec(pieces[1]))
        } else {
            before
        }
    }
}

/// The rules that the text of a style sheet declares: the text, without
/// line breaks and blanks, is cut at every `}` into blocks.
pub open spec fn stylesheet_spec(text: Option<Seq<char>>) -> Rules {
    match text {
        Some(t) => rules_of_blocks(split_spec(compact(t), '}')),
        None => Seq::empty(),
    }
}

/// Reads the rules of a style sheet from the text of an element, as
/// `stylesheet_spec` defines them.
pub fn read_stylesheet(node: &MarkupElement) -> (r: StylesStorage)
    ensures
        r@ == stylesheet_spec(node@.text),
{
    let mut global_styles = StylesStorage::new();
    match &node.text {
        None => {},
        Some(text) => {
            let a = remove_char(text.as_str(), '\n');
            let b = remove_char(a.as_str(), '\r');
            let c = remove_char(b.as_str(), ' ');
            let blocks = split_char(c.as_str(), '}');
            let ghost all = strings_view(blocks@);
            let mut i: usize = 0;
            proof {
                assert(all.subrange(0, 0) =~= Seq::<Seq<char>>::empty());
            }
            while i < blocks.len()
                invariant
                    i <= blocks.len(),
                    all == strings_view(blocks@),
                    global_styles@ == rules_of_blocks(all.subrange(0, i as int)),
                decreases blocks.len() - i,
            {
                proof {
                    assert(all.subrange(0, i + 1).drop_last() =~= all.subrange(0, i as int));
                    assert(all.subrange(0, i + 1).last() == blocks@[i as int]@);
                }
                let pieces = split_char(blocks[i].as_str(), '{');
                if pieces.len() >= 2 {
                    let style = generate_styles(pieces[1].as_str());
                    global_styles.declare(pieces[0].clone(), style);
                }
                i = i + 1;
            }
            proof {
                assert(all.subrange(0, blocks.len() as int) =~= all);
            }
        },
    }
    global_styles
}

} // verus!
