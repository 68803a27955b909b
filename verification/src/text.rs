//! Text utilities over `Seq<char>`: comparison, trimming, splitting and the
//! decimal notation of integers.

use vstd::prelude::*;

verus! {

/// The views of a list of strings, in order.
pub open spec fn strings_view(v: Seq<String>) -> Seq<Seq<char>> {
    v.map_values(|s: String| s@)
}

/// The view of an optional string.
pub open spec fn opt_view(o: Option<String>) -> Option<Seq<char>> {
    match o {
        Some(s) => Some(s@),
        None => None,
    }
}

/// Whether two string slices hold the same characters.
pub fn str_eq(a: &str, b: &str) -> (r: bool)
    ensures
        r == (a@ == b@),
{
    a.to_owned() == b.to_owned()
}

/// A fresh copy of a string slice.
pub fn owned(s: &str) -> (r: String)
    ensures
        r@ == s@,
{
    s.to_owned()
}

/// Whether every character of a text is an ASCII character.
pub open spec fn is_ascii_text(s: Seq<char>) -> bool {
    forall|i: int| 0 <= i < s.len() ==> (#[trigger] s[i]) as u32 <= 0x7F
}

/// The small letter of an ASCII capital; any other character as it is.
pub open spec fn ascii_lower(c: char) -> char {
    if 'A' <= c <= 'Z' {
        (c as u32 + 32) as char
    } else {
        c
    }
}

/// A text with every ASCII capital turned into its small letter.
pub open spec fn ascii_lowercase(s: Seq<char>) -> Seq<char> {
    s.map_values(|c: char| ascii_lower(c))
}

/// The lower-case form of a text with characters beyond ASCII, as
/// `str::to_lowercase` of the standard library computes it from the Unicode
/// case tables.
pub uninterp spec fn unicode_lowercase(s: Seq<char>) -> Seq<char>;

/// The lower-case form of a text: for an ASCII text every capital turned
/// into its small letter, for any other text what the Unicode case tables
/// give.
pub open spec fn lowercase(s: Seq<char>) -> Seq<char> {
    if is_ascii_text(s) {
        ascii_lowercase(s)
    } else {
        unicode_lowercase(s)
    }
}

/// Calls `str::to_lowercase`. For an ASCII text the contract states the
/// result: the Unicode lower case of an ASCII character is its ASCII lower
/// case. For any other text it only names the result: the same characters
/// always give the same lower-case text.
#[verifier::external_body]
pub(crate) fn to_lowercase(s: &str) -> (r: String)
    ensures
        is_ascii_text(s@) ==> r@ == ascii_lowercase(s@),
        !is_ascii_text(s@) ==> r@ == unicode_lowercase(s@),
{
    s.to_lowercase()
}

/// The characters with the Unicode property `White_Space`.
pub open spec fn is_white_space(c: char) -> bool {
    let n = c as u32;
    ||| 0x09 <= n <= 0x0D
    ||| n == 0x20
    ||| n == 0x85
    ||| n == 0xA0
    ||| n == 0x1680
    ||| 0x2000 <= n <= 0x200A
    ||| n == 0x2028
    ||| n == 0x2029
    ||| n == 0x202F
    ||| n == 0x205F
    ||| n == 0x3000
}

pub fn char_is_white_space(c: char) -> (r: bool)
    ensures
        r == is_white_space(c),
{
    let n: u32 = c as u32;
    (0x09 <= n && n <= 0x0D) || n == 0x20 || n == 0x85 || n == 0xA0 || n == 0x1680 || (0x2000 <= n
        && n <= 0x200A) || n == 0x2028 || n == 0x2029 || n == 0x202F || n == 0x205F || n == 0x3000
}

/// The number of white-space characters a text starts with.
pub open spec fn leading_white(s: Seq<char>) -> nat
    decreases s.len(),
{
    if s.len() == 0 || !is_white_space(s[0]) {
        0
    } else {
        1 + leading_white(s.drop_first())
    }
}

/// The number of white-space characters a text ends with.
pub open spec fn trailing_white(s: Seq<char>) -> nat
    decreases s.len(),
{
    if s.len() == 0 || !is_white_space(s.last()) {
        0
    } else {
        1 + trailing_white(s.drop_last())
    }
}

/// A text without the white space at its two ends.
pub open spec fn trim_spec(s: Seq<char>) -> Seq<char> {
    let t = s.subrange(leading_white(s) as int, s.len() as int);
    t.subrange(0, t.len() - trailing_white(t))
}

pub proof fn lemma_leading_white(s: Seq<char>, a: int)
    requires
        0 <= a <= s.len(),
        forall|j: int| 0 <= j < a ==> is_white_space(s[j]),
        a == s.len() || !is_white_space(s[a]),
    ensures
        leading_white(s) == a,
    decreases a,
{
    if a > 0 {
        lemma_leading_white(s.drop_first(), a - 1);
    }
}

pub proof fn lemma_trailing_white(s: Seq<char>, k: int)
    requires
        0 <= k <= s.len(),
        forall|j: int| s.len() - k <= j < s.len() ==> is_white_space(s[j]),
        k == s.len() || !is_white_space(s[s.len() - k - 1]),
    ensures
        trailing_white(s) == k,
    decreases k,
{
    if k > 0 {
        lemma_trailing_white(s.drop_last(), k - 1);
    }
}

/// The text between the first and the last character that is not white space.
pub fn trim(s: &str) -> (r: String)
    ensures
        r@ == trim_spec(s@),
{
    let n: usize = s.unicode_len();
    let mut a: usize = 0;
    while a < n && char_is_white_space(s.get_char(a))
        invariant
            n == s@.len(),
            a <= n,
            forall|j: int| 0 <= j < a ==> is_white_space(s@[j]),
        decreases n - a,
    {
        a = a + 1;
    }
    proof {
        lemma_leading_white(s@, a as int);
    }
    let ghost t = s@.subrange(a as int, n as int);
    let mut b: usize = n;
    while b > a && char_is_white_space(s.get_char(b - 1))
        invariant
            n == s@.len(),
            a <= b <= n,
            t == s@.subrange(a as int, n as int),
            forall|j: int| b - a <= j < t.len() ==> is_white_space(t[j]),
        decreases b,
    {
        b = b - 1;
    }
    proof {
        lemma_trailing_white(t, n - b);
        assert(s@.subrange(a as int, b as int) =~= t.subrange(0, t.len() - (n - b)));
    }
    owned(s.substring_char(a, b))
}

/// The pieces of a text between the occurrences of a separator. A text
/// without the separator is one piece; the empty text is one empty piece.
pub open spec fn split_spec(s: Seq<char>, sep: char) -> Seq<Seq<char>>
    decreases s.len(),
{
    if s.len() == 0 {
        seq![Seq::<char>::empty()]
    } else {
        let init = split_spec(s.drop_last(), sep);
        if s.last() == sep {
            init.push(Seq::<char>::empty())
        } else {
            init.update(init.len() - 1, init.last().push(s.last()))
        }
    }
}

pub proof fn lemma_split_nonempty(s: Seq<char>, sep: char)
    ensures
        split_spec(s, sep).len() >= 1,
    decreases s.len(),
{
    if s.len() > 0 {
        lemma_split_nonempty(s.drop_last(), sep);
    }
}

/// Splits a text at every occurrence of `sep`.
pub fn split_char(s: &str, sep: char) -> (r: Vec<String>)
    ensures
        strings_view(r@) == split_spec(s@, sep),
        r@.len() >= 1,
{
    let n: usize = s.unicode_len();
    let mut pieces: Vec<String> = Vec::new();
    let mut start: usize = 0;
    let mut i: usize = 0;
    proof {
        assert(s@.subrange(0, 0) =~= Seq::<char>::empty());
        assert(strings_view(pieces@).push(s@.subrange(0, 0)) =~= seq![Seq::<char>::empty()]);
    }
    while i < n
        invariant
            n == s@.len(),
            start <= i <= n,
            split_spec(s@.subrange(0, i as int), sep) == strings_view(pieces@).push(
                s@.subrange(start as int, i as int),
            ),
        decreases n - i,
    {
        let c = s.get_char(i);
        proof {
            let p = s@.subrange(0, i + 1);
            assert(p.drop_last() =~= s@.subrange(0, i as int));
            assert(p.last() == c);
        }
        if c == sep {
            let ghost before = strings_view(pieces@);
            pieces.push(owned(s.substring_char(start, i)));
            proof {
                assert(strings_view(pieces@) =~= before.push(s@.subrange(start as int, i as int)));
                assert(s@.subrange(i + 1, i + 1) =~= Seq::<char>::empty());
            }
            start = i + 1;
        } else {
            proof {
                let init = strings_view(pieces@).push(s@.subrange(start as int, i as int));
                assert(s@.subrange(start as int, i as int).push(c) =~= s@.subrange(
                    start as int,
                    i + 1,
                ));
                assert(init.update(init.len() - 1, init.last().push(c)) =~= strings_view(
                    pieces@,
                ).push(s@.subrange(start as int, i + 1)));
            }
        }
        i = i + 1;
    }
    let ghost before = strings_view(pieces@);
    pieces.push(owned(s.substring_char(start, n)));
    proof {
        assert(s@.subrange(0, n as int) =~= s@);
        assert(strings_view(pieces@) =~= before.push(s@.subrange(start as int, n as int)));
    }
    pieces
}

/// Whether a text ends with the given text.
pub open spec fn ends_with_spec(s: Seq<char>, suffix: Seq<char>) -> bool {
    suffix.len() <= s.len() && s.subrange(s.len() - suffix.len(), s.len() as int) == suffix
}

pub fn ends_with(s: &str, suffix: &str) -> (r: bool)
    ensures
        r == ends_with_spec(s@, suffix@),
{
    let n: usize = s.unicode_len();
    let m: usize = suffix.unicode_len();
    if m > n {
        return false;
    }
    str_eq(s.substring_char(n - m, n), suffix)
}

pub fn contains_char(s: &str, c: char) -> (r: bool)
    ensures
        r == s@.contains(c),
{
    let n: usize = s.unicode_len();
    let mut i: usize = 0;
    while i < n
        invariant
            n == s@.len(),
            i <= n,
            forall|j: int| 0 <= j < i ==> s@[j] != c,
        decreases n - i,
    {
        if s.get_char(i) == c {
            return true;
        }
        i = i + 1;
    }
    false
}

/// A text without any occurrence of one character.
pub open spec fn without_char(s: Seq<char>, c: char) -> Seq<char> {
    s.filter(|x: char| x != c)
}

pub fn remove_char(s: &str, c: char) -> (r: String)
    ensures
        r@ == without_char(s@, c),
{
    let n: usize = s.unicode_len();
    let mut out: String = String::new();
    let mut i: usize = 0;
    while i < n
        invariant
            n == s@.len(),
            i <= n,
            out@ == without_char(s@.subrange(0, i as int), c),
        decreases n - i,
    {
        proof {
            let p = s@.subrange(0, i + 1);
            assert(p.drop_last() =~= s@.subrange(0, i as int));
            reveal(Seq::filter);
        }
        if s.get_char(i) != c {
            out.append(s.substring_char(i, i + 1));
            proof {
                assert(s@.subrange(i as int, i + 1) =~= seq![s@[i as int]]);
                assert(out@ =~= without_char(s@.subrange(0, i as int), c).push(s@[i as int]));
            }
        }
        i = i + 1;
    }
    proof {
        assert(s@.subrange(0, n as int) =~= s@);
    }
    out
}

/// A text without the occurrences of `pat`, found from the left and never
/// overlapping. An empty `pat` removes nothing.
pub open spec fn without_text(s: Seq<char>, pat: Seq<char>) -> Seq<char>
    decreases s.len(),
{
    if pat.len() == 0 || s.len() < pat.len() {
        s
    } else if s.subrange(0, pat.len() as int) == pat {
        without_text(s.subrange(pat.len() as int, s.len() as int), pat)
    } else {
        seq![s[0]] + without_text(s.drop_first(), pat)
    }
}

pub fn remove_text(s: &str, pat: &str) -> (r: String)
    ensures
        r@ == without_text(s@, pat@),
{
    let n: usize = s.unicode_len();
    let m: usize = pat.unicode_len();
    if m == 0 {
        return owned(s);
    }
    let mut out: String = String::new();
    let mut i: usize = 0;
    proof {
        assert(s@.subrange(0, n as int) =~= s@);
        assert(out@ + without_text(s@, pat@) =~= without_text(s@, pat@));
    }
    while i < n && n - i >= m
        invariant
            n == s@.len(),
            m == pat@.len(),
            m > 0,
            i <= n,
            without_text(s@, pat@) == out@ + without_text(s@.subrange(i as int, n as int), pat@),
        decreases n - i,
    {
        let ghost rest = s@.subrange(i as int, n as int);
        if str_eq(s.substring_char(i, i + m), pat) {
            proof {
                assert(rest.subrange(0, m as int) =~= s@.subrange(i as int, i + m));
                assert(rest.subrange(m as int, rest.len() as int) =~= s@.subrange(i + m, n as int));
            }
            i = i + m;
        } else {
            proof {
                assert(rest.subrange(0, m as int) =~= s@.subrange(i as int, i + m));
                assert(rest.drop_first() =~= s@.subrange(i + 1, n as int));
                assert(s@.subrange(i as int, i + 1) =~= seq![rest[0]]);
                assert(out@ + (seq![rest[0]] + without_text(rest.drop_first(), pat@)) =~= (out@
                    + seq![rest[0]]) + without_text(rest.drop_first(), pat@));
            }
            out.append(s.substring_char(i, i + 1));
            i = i + 1;
        }
    }
    out.append(s.substring_char(i, n));
    out
}

/// The decimal digit that a character stands for, if it is one.
pub open spec fn digit_of(c: char) -> Option<int> {
    if '0' <= c <= '9' {
        Some(c as int - '0' as int)
    } else {
        None
    }
}

/// Whether every character is a decimal digit.
pub open spec fn all_digits(s: Seq<char>) -> bool {
    forall|i: int| 0 <= i < s.len() ==> (#[trigger] digit_of(s[i])) is Some
}

/// The number that a run of decimal digits writes.
pub open spec fn digits_value(s: Seq<char>) -> int
    decreases s.len(),
{
    if s.len() == 0 {
        0
    } else {
        digits_value(s.drop_last()) * 10 + digit_of(s.last()).unwrap_or(0)
    }
}

/// The natural number written by `s`: an optional `+`, then one or more
/// decimal digits, with a value of at most `max`.
pub open spec fn parse_unsigned(s: Seq<char>, max: int) -> Option<int> {
    let body = if s.len() > 0 && s[0] == '+' {
        s.drop_first()
    } else {
        s
    };
    if body.len() > 0 && all_digits(body) && digits_value(body) <= max {
        Some(digits_value(body))
    } else {
        None
    }
}

/// The integer written by `s`: an optional `+` or `-`, then one or more
/// decimal digits, with a value from `min` to `max`.
pub open spec fn parse_signed(s: Seq<char>, min: int, max: int) -> Option<int> {
    if s.len() > 0 && s[0] == '-' {
        let body = s.drop_first();
        if body.len() > 0 && all_digits(body) && -digits_value(body) >= min {
            Some(-digits_value(body))
        } else {
            None
        }
    } else {
        parse_unsigned(s, max)
    }
}

pub proof fn lemma_digits_value_bounds(s: Seq<char>)
    ensures
        digits_value(s) >= 0,
    decreases s.len(),
{
    if s.len() > 0 {
        lemma_digits_value_bounds(s.drop_last());
    }
}

pub proof fn lemma_digits_value_monotone(s: Seq<char>, k: int)
    requires
        0 <= k <= s.len(),
    ensures
        digits_value(s.subrange(0, k)) <= digits_value(s),
    decreases s.len() - k,
{
    lemma_digits_value_bounds(s.subrange(0, k));
    if k < s.len() {
        lemma_digits_value_monotone(s, k + 1);
        assert(s.subrange(0, k + 1).drop_last() =~= s.subrange(0, k));
    } else {
        assert(s.subrange(0, k) =~= s);
    }
}

/// Reads the digits of `s` from position `from` on. `None` when there is
/// no digit, when a character is no digit, or when the value exceeds `max`.
fn read_digits(s: &str, from: usize, max: u64) -> (r: Option<u64>)
    requires
        from <= s@.len(),
        max <= 0xFFFF_FFFF,
    ensures
        ({
            let body = s@.subrange(from as int, s@.len() as int);
            match r {
                Some(v) => body.len() > 0 && all_digits(body) && v == digits_value(body) && v
                    <= max,
                None => !(body.len() > 0 && all_digits(body) && digits_value(body) <= max),
            }
        }),
{
    let n: usize = s.unicode_len();
    let ghost body = s@.subrange(from as int, n as int);
    if from == n {
        return None;
    }
    let mut acc: u64 = 0;
    let mut i: usize = from;
    while i < n
        invariant
            n == s@.len(),
            from <= i <= n,
            body == s@.subrange(from as int, n as int),
            max <= 0xFFFF_FFFF,
            all_digits(body.subrange(0, i - from)),
            acc == digits_value(body.subrange(0, i - from)),
            acc <= max,
        decreases n - i,
    {
        let c = s.get_char(i);
        let ghost prefix = body.subrange(0, i - from + 1);
        proof {
            assert(prefix.drop_last() =~= body.subrange(0, i - from));
            assert(prefix.last() == c);
            assert(body[i - from] == c);
        }
        if !('0' <= c && c <= '9') {
            proof {
                assert(digit_of(body[i - from]) is None);
            }
            return None;
        }
        let d: u64 = (c as u32 - '0' as u32) as u64;
        acc = acc * 10 + d;
        proof {
            assert forall|j: int| 0 <= j < prefix.len() implies (#[trigger] digit_of(
                prefix[j],
            )) is Some by {
                if j < i - from {
                    assert(prefix[j] == body.subrange(0, i - from)[j]);
                }
            }
        }
        if acc > max {
            proof {
                lemma_digits_value_monotone(body, i - from + 1);
            }
            return None;
        }
        i = i + 1;
    }
    proof {
        assert(body.subrange(0, n - from) =~= body);
    }
    Some(acc)
}

/// Reads a natural number of at most `max`, as `parse_unsigned` defines it.
pub fn parse_unsigned_text(s: &str, max: u64) -> (r: Option<u64>)
    requires
        max <= 0xFFFF_FFFF,
    ensures
        r is Some <==> parse_unsigned(s@, max as int) is Some,
        r is Some ==> r.unwrap() == parse_unsigned(s@, max as int).unwrap(),
{
    let n: usize = s.unicode_len();
    if n > 0 && s.get_char(0) == '+' {
        proof {
            assert(s@.drop_first() =~= s@.subrange(1, n as int));
        }
        read_digits(s, 1, max)
    } else {
        proof {
            assert(s@ =~= s@.subrange(0, n as int));
        }
        read_digits(s, 0, max)
    }
}

/// Reads a `u16` in decimal notation.
pub fn parse_u16(s: &str) -> (r: Option<u16>)
    ensures
        r is Some <==> parse_unsigned(s@, u16::MAX as int) is Some,
        r is Some ==> r.unwrap() == parse_unsigned(s@, u16::MAX as int).unwrap(),
{
    match parse_unsigned_text(s, 0xFFFF) {
        Some(v) => Some(v as u16),
        None => None,
    }
}

/// Reads a `u32` in decimal notation.
pub fn parse_u32(s: &str) -> (r: Option<u32>)
    ensures
        r is Some <==> parse_unsigned(s@, u32::MAX as int) is Some,
        r is Some ==> r.unwrap() == parse_unsigned(s@, u32::MAX as int).unwrap(),
{
    match parse_unsigned_text(s, 0xFFFF_FFFF) {
        Some(v) => Some(v as u32),
        None => None,
    }
}

/// Reads an `i32` in decimal notation.
pub fn parse_i32(s: &str) -> (r: Option<i32>)
    ensures
        r is Some <==> parse_signed(s@, i32::MIN as int, i32::MAX as int) is Some,
        r is Some ==> r.unwrap() == parse_signed(s@, i32::MIN as int, i32::MAX as int).unwrap(),
{
    let n: usize = s.unicode_len();
    if n > 0 && s.get_char(0) == '-' {
        proof {
            assert(s@.drop_first() =~= s@.subrange(1, n as int));
        }
        match read_digits(s, 1, 0x8000_0000) {
            Some(v) => Some((0 - (v as i64)) as i32),
            None => None,
        }
    } else {
        match parse_unsigned_text(s, 0x7FFF_FFFF) {
            Some(v) => Some(v as i32),
            None => None,
        }
    }
}

/// The character of a decimal digit.
pub open spec fn digit_char(d: int) -> char {
    if d == 0 {
        '0'
    } else if d == 1 {
        '1'
    } else if d == 2 {
        '2'
    } else if d == 3 {
        '3'
    } else if d == 4 {
        '4'
    } else if d == 5 {
        '5'
    } else if d == 6 {
        '6'
    } else if d == 7 {
        '7'
    } else if d == 8 {
        '8'
    } else {
        '9'
    }
}

/// The decimal notation of a natural number, without leading zeros.
pub open spec fn natural_text(n: nat) -> Seq<char>
    decreases n,
{
    if n < 10 {
        seq![digit_char(n as int)]
    } else {
        natural_text(n / 10).push(digit_char((n % 10) as int))
    }
}

/// The decimal notation of an integer: a `-` before a negative one.
pub open spec fn integer_text(n: int) -> Seq<char> {
    if n < 0 {
        seq!['-'] + natural_text((-n) as nat)
    } else {
        natural_text(n as nat)
    }
}

fn digit_str(d: u64) -> (r: &'static str)
    requires
        d < 10,
    ensures
        r@ == seq![digit_char(d as int)],
{
    proof {
        reveal_strlit("0");
        reveal_strlit("1");
        reveal_strlit("2");
        reveal_strlit("3");
        reveal_strlit("4");
        reveal_strlit("5");
        reveal_strlit("6");
        reveal_strlit("7");
        reveal_strlit("8");
        reveal_strlit("9");
    }
    let r = if d == 0 {
        "0"
    } else if d == 1 {
        "1"
    } else if d == 2 {
        "2"
    } else if d == 3 {
        "3"
    } else if d == 4 {
        "4"
    } else if d == 5 {
        "5"
    } else if d == 6 {
        "6"
    } else if d == 7 {
        "7"
    } else if d == 8 {
        "8"
    } else {
        "9"
    };
    assert(r@ =~= seq![digit_char(d as int)]);
    r
}

/// Writes a natural number in decimal notation.
pub fn natural_to_string(n: u64) -> (r: String)
    ensures
        r@ == natural_text(n as nat),
    decreases n,
{
    if n < 10 {
        owned(digit_str(n))
    } else {
        let mut s = natural_to_string(n / 10);
        s.append(digit_str(n % 10));
        s
    }
}

/// Writes an integer in decimal notation.
pub fn integer_to_string(n: i64) -> (r: String)
    requires
        n > i64::MIN,
    ensures
        r@ == integer_text(n as int),
{
    if n < 0 {
        proof {
            reveal_strlit("-");
        }
        let mut s = owned("-");
        let digits = natural_to_string((0 - n) as u64);
        s.append(digits.as_str());
        assert(s@ =~= seq!['-'] + natural_text((-n) as nat));
        s
    } else {
        natural_to_string(n as u64)
    }
}

/// The concatenation of two texts.
pub fn joined(a: &str, b: &str) -> (r: String)
    ensures
        r@ == a@ + b@,
{
    let mut s = owned(a);
    s.append(b);
    s
}

/// A copy of a list of strings.
pub fn clone_strings(v: &Vec<String>) -> (r: Vec<String>)
    ensures
        strings_view(r@) == strings_view(v@),
        r@.len() == v@.len(),
{
    let mut out: Vec<String> = Vec::new();
    let mut i: usize = 0;
    while i < v.len()
        invariant
            i <= v.len(),
            out@.len() == i,
            forall|j: int| 0 <= j < i ==> out@[j]@ == v@[j]@,
        decreases v.len() - i,
    {
        out.push(v[i].clone());
        i = i + 1;
    }
    proof {
        assert(strings_view(out@) =~= strings_view(v@));
    }
    out
}

/// Whether a list of strings holds a text.
pub fn contains_string(v: &Vec<String>, s: &str) -> (r: bool)
    ensures
        r == strings_view(v@).contains(s@),
{
    let mut i: usize = 0;
    while i < v.len()
        invariant
            i <= v.len(),
            forall|j: int| 0 <= j < i ==> strings_view(v@)[j] != s@,
        decreases v.len() - i,
    {
        if str_eq(v[i].as_str(), s) {
            proof {
                assert(strings_view(v@)[i as int] == s@);
            }
            return true;
        }
        i = i + 1;
    }
    false
}

} // verus!
