//! Lists of named entries in which the first entry under a name counts.

use vstd::prelude::*;

verus! {

/// The entries of a registry: names with what is registered under them, in the order in
/// which they were registered.
pub open spec fn entries_view<F>(v: Seq<(String, F)>) -> Seq<(Seq<char>, F)> {
    v.map_values(|p: (String, F)| (p.0@, p.1))
}

/// What was registered first under a name.
pub open spec fn find_entry<F>(entries: Seq<(Seq<char>, F)>, name: Seq<char>) -> Option<F>
    decreases entries.len(),
{
    if entries.len() == 0 {
        None
    } else if entries[0].0 == name {
        Some(entries[0].1)
    } else {
        find_entry(entries.drop_first(), name)
    }
}

/// The entries after a registration: a name that is registered keeps what
/// it has.
pub open spec fn register<F>(entries: Seq<(Seq<char>, F)>, name: Seq<char>, f: F) -> Seq<
    (Seq<char>, F),
> {
    if find_entry(entries, name) is Some {
        entries
    } else {
        entries.push((name, f))
    }
}

pub proof fn lemma_find_entry_at<F>(entries: Seq<(Seq<char>, F)>, name: Seq<char>, i: int)
    requires
        0 <= i < entries.len(),
        entries[i].0 == name,
        forall|j: int| 0 <= j < i ==> entries[j].0 != name,
    ensures
        find_entry(entries, name) == Some(entries[i].1),
    decreases i,
{
    if i > 0 {
        lemma_find_entry_at(entries.drop_first(), name, i - 1);
    }
}

pub proof fn lemma_find_entry_absent<F>(entries: Seq<(Seq<char>, F)>, name: Seq<char>)
    requires
        forall|j: int| 0 <= j < entries.len() ==> entries[j].0 != name,
    ensures
        find_entry(entries, name) is None,
    decreases entries.len(),
{
    if entries.len() > 0 {
        lemma_find_entry_absent(entries.drop_first(), name);
    }
}

/// After a registration a name finds what was registered first
/// under it, and every other name finds what it found before.
pub proof fn lemma_register_find<F>(
    entries: Seq<(Seq<char>, F)>,
    name: Seq<char>,
    f: F,
    other: Seq<char>,
)
    ensures
        find_entry(register(entries, name, f), other) == if other == name && find_entry(
            entries,
            name,
        ) is None {
            Some(f)
        } else {
            find_entry(entries, other)
        },
    decreases entries.len(),
{
    if find_entry(entries, name) is None {
        if entries.len() > 0 {
            lemma_register_find(entries.drop_first(), name, f, other);
            assert(entries.push((name, f)).drop_first() =~= entries.drop_first().push((name, f)));
        } else {
            assert(entries.push((name, f)).drop_first() =~= Seq::<(Seq<char>, F)>::empty());
            assert(find_entry(entries.push((name, f)).drop_first(), other) is None);
        }
    }
}

} // verus!
