//! The kinds of project that the project generator sets up.

use vstd::prelude::*;

verus! {

/// The kind of a new project.
#[allow(non_camel_case_types)]
#[derive(Clone, Copy, Debug, PartialEq, Eq, Structural)]
pub enum ProjectType {
    /// One block with a greeting.
    SIMPLE,
    /// A shell with a toolbar, tabs and dialogs.
    SHELL,
}

/// The code of a character, that of the small letter for an ASCII capital.
pub open spec fn lower_code(c: char) -> u32 {
    if 'A' <= c <= 'Z' {
        (c as u32 + 32) as u32
    } else {
        c as u32
    }
}

/// Whether two texts are the same but for the case of ASCII letters.
pub open spec fn same_ignoring_case(a: Seq<char>, b: Seq<char>) -> bool {
    a.len() == b.len() && forall|i: int| 0 <= i < a.len() ==> lower_code(a[i]) == lower_code(b[i])
}

/// The kind that a name stands for: `SHELL` for `shell` in any case,
/// `SIMPLE` for any other name.
pub open spec fn project_type_named(name: Seq<char>) -> ProjectType {
    if same_ignoring_case(name, "shell"@) {
        ProjectType::SHELL
    } else {
        ProjectType::SIMPLE
    }
}

fn code_of(c: char) -> (r: u32)
    ensures
        r == lower_code(c),
{
    if 'A' <= c && c <= 'Z' {
        c as u32 + 32
    } else {
        c as u32
    }
}

/// Whether two texts are the same but for the case of ASCII letters.
pub fn eq_ignoring_case(a: &str, b: &str) -> (r: bool)
    ensures
        r == same_ignoring_case(a@, b@),
{
    let n: usize = a.unicode_len();
    if n != b.unicode_len() {
        return false;
    }
    let mut i: usize = 0;
    while i < n
        invariant
            i <= n,
            n == a@.len(),
            n == b@.len(),
            forall|j: int| 0 <= j < i ==> lower_code(a@[j]) == lower_code(b@[j]),
        decreases n - i,
    {
        if code_of(a.get_char(i)) != code_of(b.get_char(i)) {
            return false;
        }
        i = i + 1;
    }
    true
}

/// The kind of project that a name stands for, as `project_type_named`
/// defines it.
pub fn project_type_from_str(s: &str) -> (r: ProjectType)
    ensures
        r == project_type_named(s@),
{
    if eq_ignoring_case(s, "shell") {
        ProjectType::SHELL
    } else {
        ProjectType::SIMPLE
    }
}

} // verus!
