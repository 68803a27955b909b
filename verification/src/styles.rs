//! Visual properties of an element, the merging of two sets of them, and the
//! named rules of a style sheet.

use crate::registry::{find_entry, lemma_find_entry_absent, lemma_find_entry_at, register};
use crate::text::str_eq;
use vstd::prelude::*;

verus! {

/// A named terminal colour.
#[derive(Clone, Copy, Debug, PartialEq, Eq, Structural)]
pub enum Color {
    Reset,
    Black,
    Red,
    Green,
    Yellow,
    Blue,
    Magenta,
    Cyan,
    Gray,
    DarkGray,
    LightRed,
    LightGreen,
    LightYellow,
    LightBlue,
    LightMagenta,
    LightCyan,
    White,
}

pub const BOLD: u16 = 0x001;

pub const DIM: u16 = 0x002;

pub const ITALIC: u16 = 0x004;

pub const UNDERLINED: u16 = 0x008;

pub const SLOW_BLINK: u16 = 0x010;

pub const RAPID_BLINK: u16 = 0x020;

pub const REVERSED: u16 = 0x040;

pub const HIDDEN: u16 = 0x080;

pub const CROSSED_OUT: u16 = 0x100;

/// A set of text modifiers, one bit each (`BOLD`, `DIM`, ...).
#[derive(Clone, Copy, Debug, PartialEq, Eq, Structural)]
pub struct Modifier {
    pub bits: u16,
}

impl Modifier {
    /// The set without any modifier.
    pub fn empty() -> (r: Modifier)
        ensures
            r.bits == 0,
    {
        Modifier { bits: 0 }
    }

    /// The set with the modifiers of either set.
    pub open spec fn with(self, other: Modifier) -> Modifier {
        Modifier { bits: self.bits | other.bits }
    }

    /// The set without the modifiers of `other`.
    pub open spec fn without(self, other: Modifier) -> Modifier {
        Modifier { bits: self.bits & !other.bits }
    }

    pub fn insert(self, other: Modifier) -> (r: Modifier)
        ensures
            r == self.with(other),
    {
        Modifier { bits: self.bits | other.bits }
    }

    pub fn remove(self, other: Modifier) -> (r: Modifier)
        ensures
            r == self.without(other),
    {
        Modifier { bits: self.bits & !other.bits }
    }
}

/// A sparse set of visual properties: a colour that is `None` and a
/// modifier in neither set are left as they are by `patch`.
#[derive(Clone, Copy, Debug, PartialEq, Eq, Structural)]
pub struct Style {
    pub fg: Option<Color>,
    pub bg: Option<Color>,
    pub add_modifier: Modifier,
    pub sub_modifier: Modifier,
}

/// The style that sets nothing.
pub open spec fn default_style() -> Style {
    Style {
        fg: None,
        bg: None,
        add_modifier: Modifier { bits: 0 },
        sub_modifier: Modifier { bits: 0 },
    }
}

/// `base` overwritten by what `other` sets: a colour of `other` wins where it
/// has one, and each modifier of `other` moves to the set `other` has it in.
pub open spec fn patch_spec(base: Style, other: Style) -> Style {
    Style {
        fg: if other.fg is Some {
            other.fg
        } else {
            base.fg
        },
        bg: if other.bg is Some {
            other.bg
        } else {
            base.bg
        },
        add_modifier: base.add_modifier.without(other.sub_modifier).with(other.add_modifier),
        sub_modifier: base.sub_modifier.without(other.add_modifier).with(other.sub_modifier),
    }
}

/// `base` with the modifiers of `m` added.
pub open spec fn add_modifier_spec(base: Style, m: Modifier) -> Style {
    Style {
        fg: base.fg,
        bg: base.bg,
        add_modifier: base.add_modifier.with(m),
        sub_modifier: base.sub_modifier.without(m),
    }
}

impl Style {
    /// The style that sets nothing.
    pub fn new() -> (r: Style)
        ensures
            r == default_style(),
    {
        Style {
            fg: None,
            bg: None,
            add_modifier: Modifier::empty(),
            sub_modifier: Modifier::empty(),
        }
    }

    /// This style with the foreground colour set.
    pub fn fg(self, color: Color) -> (r: Style)
        ensures
            r == (Style { fg: Some(color), ..self }),
    {
        Style { fg: Some(color), ..self }
    }

    /// This style with the background colour set.
    pub fn bg(self, color: Color) -> (r: Style)
        ensures
            r == (Style { bg: Some(color), ..self }),
    {
        Style { bg: Some(color), ..self }
    }

    /// This style with the given modifiers added.
    pub fn add_modifier(self, m: Modifier) -> (r: Style)
        ensures
            r == add_modifier_spec(self, m),
    {
        Style {
            fg: self.fg,
            bg: self.bg,
            add_modifier: self.add_modifier.insert(m),
            sub_modifier: self.sub_modifier.remove(m),
        }
    }

    /// This style overwritten by what `other` sets.
    pub fn patch(self, other: Style) -> (r: Style)
        ensures
            r == patch_spec(self, other),
    {
        Style {
            fg: if other.fg.is_some() {
                other.fg
            } else {
                self.fg
            },
            bg: if other.bg.is_some() {
                other.bg
            } else {
                self.bg
            },
            add_modifier: self.add_modifier.remove(other.sub_modifier).insert(other.add_modifier),
            sub_modifier: self.sub_modifier.remove(other.add_modifier).insert(other.sub_modifier),
        }
    }
}

impl Default for Style {
    fn default() -> (r: Style)
        ensures
            r == default_style(),
    {
        Style::new()
    }
}

/// Patching sets a colour exactly where the right-hand style has one, and
/// keeps the left-hand colour elsewhere.
pub proof fn lemma_patch_colors(base: Style, other: Style)
    ensures
        other.fg is Some ==> patch_spec(base, other).fg == other.fg,
        other.fg is None ==> patch_spec(base, other).fg == base.fg,
        other.bg is Some ==> patch_spec(base, other).bg == other.bg,
        other.bg is None ==> patch_spec(base, other).bg == base.bg,
{
}

/// Patching with the style that sets nothing changes nothing.
pub proof fn lemma_patch_default(base: Style)
    ensures
        patch_spec(base, default_style()) == base,
{
    let a = base.add_modifier.bits;
    let s = base.sub_modifier.bits;
    assert((a & !0u16) | 0u16 == a) by (bit_vector);
    assert((s & !0u16) | 0u16 == s) by (bit_vector);
}

/// The rules of a style sheet as pairs of a name and a style.
pub type Rules = Seq<(Seq<char>, Style)>;

/// The views of a list of named styles, in order.
pub open spec fn rules_view(v: Seq<(String, Style)>) -> Rules {
    v.map_values(|p: (String, Style)| (p.0@, p.1))
}

/// The style of the rule with this name, or the style that sets nothing.
pub open spec fn rule_or_default(rules: Rules, name: Seq<char>) -> Style {
    match find_entry(rules, name) {
        Some(s) => s,
        None => default_style(),
    }
}

/// What a store of named styles offers.
pub trait IStylesStorage: Sized {
    /// The rules held, in the order in which they were added.
    spec fn rules(&self) -> Rules;

    fn has_rule(&self, name: String) -> (r: bool)
        ensures
            r == (find_entry(self.rules(), name@) is Some),
    ;

    fn add_rule(&mut self, name: String, styles: Style) -> (r: &mut Self)
        ensures
            r.rules() == register(old(self).rules(), name@, styles),
            final(self).rules() == final(r).rules(),
    ;

    fn get_rule(&self, name: String) -> (r: Style)
        ensures
            r == rule_or_default(self.rules(), name@),
    ;
}

/// The named rules of a style sheet. The first rule declared under a name
/// is the one that counts.
#[derive(Debug)]
pub struct StylesStorage {
    storage: Vec<(String, Style)>,
}

impl View for StylesStorage {
    type V = Rules;

    closed spec fn view(&self) -> Rules {
        rules_view(self.storage@)
    }
}

impl StylesStorage {
    /// The store without any rule.
    pub fn new() -> (r: Self)
        ensures
            r@ == Seq::<(Seq<char>, Style)>::empty(),
    {
        let r = StylesStorage { storage: Vec::new() };
        assert(r@ =~= Seq::<(Seq<char>, Style)>::empty());
        r
    }

    /// The style of the rule with this name, if there is one.
    pub fn find(&self, name: &str) -> (r: Option<Style>)
        ensures
            r == find_entry(self@, name@),
    {
        let mut i: usize = 0;
        while i < self.storage.len()
            invariant
                i <= self.storage.len(),
                forall|j: int| 0 <= j < i ==> self@[j].0 != name@,
            decreases self.storage.len() - i,
        {
            if str_eq(self.storage[i].0.as_str(), name) {
                proof {
                    lemma_find_entry_at(self@, name@, i as int);
                }
                return Some(self.storage[i].1);
            }
            i = i + 1;
        }
        proof {
            lemma_find_entry_absent(self@, name@);
        }
        None
    }

    /// The style of the rule with this name, or the style that sets nothing.
    pub fn rule(&self, name: &str) -> (r: Style)
        ensures
            r == rule_or_default(self@, name@),
    {
        match self.find(name) {
            Some(s) => s,
            None => Style::new(),
        }
    }

    /// Declares a rule, unless the name has one.
    pub fn declare(&mut self, name: String, styles: Style)
        ensures
            final(self)@ == register(old(self)@, name@, styles),
    {
        if self.find(name.as_str()).is_none() {
            let ghost before = self@;
            self.storage.push((name, styles));
            assert(self@ =~= before.push((name@, styles)));
        }
    }
}

impl Default for StylesStorage {
    fn default() -> (r: Self)
        ensures
            r@ == Seq::<(Seq<char>, Style)>::empty(),
    {
        StylesStorage::new()
    }
}

impl Clone for StylesStorage {
    fn clone(&self) -> (r: Self)
        ensures
            r@ == self@,
    {
        let mut storage: Vec<(String, Style)> = Vec::new();
        let mut i: usize = 0;
        while i < self.storage.len()
            invariant
                i <= self.storage.len(),
                storage@.len() == i,
                forall|j: int|
                    0 <= j < i ==> storage@[j].0@ == self.storage@[j].0@ && storage@[j].1
                        == self.storage@[j].1,
            decreases self.storage.len() - i,
        {
            storage.push((self.storage[i].0.clone(), self.storage[i].1));
            i = i + 1;
        }
        assert(rules_view(storage@) =~= rules_view(self.storage@));
        StylesStorage { storage }
    }
}

impl IStylesStorage for StylesStorage {
    open spec fn rules(&self) -> Rules {
        self@
    }

    fn has_rule(&self, name: String) -> (r: bool) {
        self.find(name.as_str()).is_some()
    }

    fn add_rule(&mut self, name: String, styles: Style) -> (r: &mut Self) {
        self.declare(name, styles);
        self
    }

    fn get_rule(&self, name: String) -> (r: Style) {
        self.rule(name.as_str())
    }
}

} // verus!
