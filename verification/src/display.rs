//! An element and what lies under it, written out as markup.

use crate::markup_element::{ElementView, MarkupElement};
use crate::string_map::{Pairs, StringMap};
use crate::tree::MarkupTree;
use vstd::prelude::*;

verus! {

/// The attributes of an element as markup: ` name="value"` for each, in
/// the order of the map.
pub open spec fn attributes_text(attributes: Pairs) -> Seq<char>
    decreases attributes.len(),
{
    if attributes.len() == 0 {
        Seq::empty()
    } else {
        attributes_text(attributes.drop_last()) + " "@ + attributes.last().0 + "=\""@
            + attributes.last().1 + "\""@
    }
}

/// As many tabs as an element is deep.
pub open spec fn indent(deep: nat) -> Seq<char>
    decreases deep,
{
    if deep == 0 {
        Seq::empty()
    } else {
        indent((deep - 1) as nat) + "\t"@
    }
}

/// An element as markup around the markup of its children: the opening
/// tag with the attributes on a line, the children, an empty line's end,
/// and the closing tag on a line, both tags behind the indent of the
/// element.
pub open spec fn wrapped(e: ElementView, inner: Seq<char>) -> Seq<char> {
    indent(e.deep as nat) + "<"@ + e.name + attributes_text(e.attributes) + ">\n"@ + inner + "\n"@
        + indent(e.deep as nat) + "</"@ + e.name + ">\n"@
}

/// The markup of the first `k` of the given positions of a tree, one after
/// the other. A position outside the tree, or not after `above`, writes
/// nothing.
pub open spec fn children_text(t: Seq<ElementView>, above: int, kids: Seq<usize>, k: int) -> Seq<
    char,
>
    decreases t.len() - above, 1int, k,
{
    if k <= 0 {
        Seq::empty()
    } else {
        let before = children_text(t, above, kids, k - 1);
        let c = kids[k - 1] as int;
        if above < c < t.len() {
            before + markup_at(t, c)
        } else {
            before
        }
    }
}

/// The markup of the element at a position of a tree.
pub open spec fn markup_at(t: Seq<ElementView>, idx: int) -> Seq<char>
    decreases t.len() - idx, 2int, 0int,
{
    wrapped(t[idx], children_text(t, idx, t[idx].children, t[idx].children.len() as int))
}

/// The markup of an element whose children stand in a tree.
pub open spec fn markup_of(t: Seq<ElementView>, e: ElementView) -> Seq<char> {
    wrapped(e, children_text(t, -1, e.children, e.children.len() as int))
}

fn write_attributes(out: &mut String, attributes: &StringMap)
    ensures
        final(out)@ == old(out)@ + attributes_text(attributes@),
{
    let ghost start = out@;
    let ghost all = attributes@;
    let count = attributes.len();
    let mut i: usize = 0;
    proof {
        assert(all.subrange(0, 0) =~= Seq::<(Seq<char>, Seq<char>)>::empty());
        assert(out@ =~= start + attributes_text(all.subrange(0, 0)));
    }
    while i < count
        invariant
            i <= count,
            count == all.len(),
            all == attributes@,
            out@ == start + attributes_text(all.subrange(0, i as int)),
        decreases count - i,
    {
        proof {
            let p = all.subrange(0, i + 1);
            assert(p.drop_last() =~= all.subrange(0, i as int));
            assert(p.last() == all[i as int]);
        }
        let ghost before = attributes_text(all.subrange(0, i as int));
        out.append(" ");
        out.append(attributes.key_at(i).as_str());
        out.append("=\"");
        out.append(attributes.value_at(i).as_str());
        out.append("\"");
        proof {
            assert(out@ =~= start + (before + " "@ + all[i as int].0 + "=\""@ + all[i as int].1
                + "\""@));
        }
        i = i + 1;
    }
    proof {
        assert(all.subrange(0, count as int) =~= all);
    }
}

fn write_indent(out: &mut String, deep: usize)
    ensures
        final(out)@ == old(out)@ + indent(deep as nat),
{
    let ghost start = out@;
    let mut i: usize = 0;
    proof {
        assert(out@ =~= start + indent(0));
    }
    while i < deep
        invariant
            i <= deep,
            out@ == start + indent(i as nat),
        decreases deep - i,
    {
        out.append("\t");
        proof {
            assert(out@ =~= start + (indent(i as nat) + "\t"@));
        }
        i = i + 1;
    }
}

fn wrap(node: &MarkupElement, inner: &str) -> (r: String)
    ensures
        r@ == wrapped(node@, inner@),
{
    let mut out = String::new();
    write_indent(&mut out, node.deep);
    out.append("<");
    out.append(node.name.as_str());
    write_attributes(&mut out, &node.attributes);
    out.append(">\n");
    out.append(inner);
    out.append("\n");
    write_indent(&mut out, node.deep);
    out.append("</");
    out.append(node.name.as_str());
    out.append(">\n");
    proof {
        assert(out@ =~= wrapped(node@, inner@));
    }
    out
}

impl MarkupTree {
    fn write_children(&self, above: Option<usize>, kids: &Vec<usize>) -> (r: String)
        requires
            above matches Some(a) ==> a < self@.len(),
        ensures
            r@ == children_text(
                self@,
                match above {
                    Some(a) => a as int,
                    None => -1,
                },
                kids@,
                kids@.len() as int,
            ),
        decreases
                self@.len() - match above {
                    Some(a) => a as int,
                    None => -1,
                },
                1int,
                0int,
    {
        let ghost floor = match above {
            Some(a) => a as int,
            None => -1,
        };
        let total = self.len();
        let mut out = String::new();
        let mut i: usize = 0;
        while i < kids.len()
            invariant
                i <= kids.len(),
                total == self@.len(),
                floor == match above {
                    Some(a) => a as int,
                    None => -1,
                },
                out@ == children_text(self@, floor, kids@, i as int),
            decreases kids.len() - i,
        {
            let c = kids[i];
            let after = match above {
                Some(a) => a < c,
                None => true,
            };
            if after && c < total {
                let text = self.to_markup_at(c);
                out.append(text.as_str());
            }
            i = i + 1;
        }
        out
    }

    /// Writes the element at a position as markup, as `markup_at` defines
    /// it.
    pub fn to_markup_at(&self, idx: usize) -> (r: String)
        requires
            idx < self@.len(),
        ensures
            r@ == markup_at(self@, idx as int),
        decreases self@.len() - idx, 2int, 0int,
    {
        let node = self.node(idx);
        let inner = self.write_children(Some(idx), &node.children);
        wrap(node, inner.as_str())
    }

    /// Writes an element as markup, as `markup_of` defines it.
    pub fn to_markup(&self, node: &MarkupElement) -> (r: String)
        ensures
            r@ == markup_of(self@, node@),
    {
        let inner = self.write_children(None, &node.children);
        wrap(node, inner.as_str())
    }
}

} // verus!
