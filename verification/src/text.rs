//! Strings as sequences of characters: trimming, ASCII case and searching.

use vstd::prelude::*;
use vstd::string::*;

verus! {

/// Characters with the Unicode `White_Space` property.
pub open spec fn is_white_space(c: char) -> bool {
    ||| '\u{9}' <= c <= '\u{d}'
    ||| c == ' '
    ||| c == '\u{85}'
    ||| c == '\u{a0}'
    ||| c == '\u{1680}'
    ||| '\u{2000}' <= c <= '\u{200a}'
    ||| c == '\u{2028}'
    ||| c == '\u{2029}'
    ||| c == '\u{202f}'
    ||| c == '\u{205f}'
    ||| c == '\u{3000}'
}

/// `s` without its leading white space.
pub open spec fn trimmed_start(s: Seq<char>) -> Seq<char>
    decreases s.len(),
{
    if s.len() > 0 && is_white_space(s[0]) {
        trimmed_start(s.skip(1))
    } else {
        s
    }
}

/// `s` without its trailing white space.
pub open spec fn trimmed_end(s: Seq<char>) -> Seq<char>
    decreases s.len(),
{
    if s.len() > 0 && is_white_space(s.last()) {
        trimmed_end(s.drop_last())
    } else {
        s
    }
}

/// `s` without its leading and trailing white space.
pub open spec fn trimmed(s: Seq<char>) -> Seq<char> {
    trimmed_end(trimmed_start(s))
}

/// `s` without the run of `c` that it starts with.
pub open spec fn without_leading(s: Seq<char>, c: char) -> Seq<char>
    decreases s.len(),
{
    if s.len() > 0 && s[0] == c {
        without_leading(s.skip(1), c)
    } else {
        s
    }
}

/// The part of `s` before the first `c`, or all of `s` where there is none.
pub open spec fn before_first(s: Seq<char>, c: char) -> Seq<char>
    decreases s.len(),
{
    if s.len() == 0 || s[0] == c {
        Seq::empty()
    } else {
        seq![s[0]] + before_first(s.skip(1), c)
    }
}

/// The part of `s` after the first `c`, where there is one.
pub open spec fn after_first(s: Seq<char>, c: char) -> Option<Seq<char>> {
    if s.contains(c) {
        Some(s.skip(before_first(s, c).len() as int + 1))
    } else {
        None
    }
}

/// The part of `s` before the last `c`; empty where there is none.
pub open spec fn until_last(s: Seq<char>, c: char) -> Seq<char>
    decreases s.len(),
{
    if s.len() == 0 {
        Seq::empty()
    } else if s.last() == c {
        s.drop_last()
    } else {
        until_last(s.drop_last(), c)
    }
}

/// The part of `s` before the last `c`, or all of `s` where there is none.
pub open spec fn before_last(s: Seq<char>, c: char) -> Seq<char> {
    if s.contains(c) {
        until_last(s, c)
    } else {
        s
    }
}

/// The ASCII lower-case form of `c`.
pub open spec fn ascii_lower(c: char) -> char {
    if 'A' <= c <= 'Z' {
        ((c as u32) + 32) as char
    } else {
        c
    }
}

/// The ASCII upper-case form of `c`.
pub open spec fn ascii_upper(c: char) -> char {
    if 'a' <= c <= 'z' {
        ((c as u32) - 32) as char
    } else {
        c
    }
}

/// `s` with every ASCII letter in lower case.
pub open spec fn lowered(s: Seq<char>) -> Seq<char> {
    s.map_values(|c: char| ascii_lower(c))
}

/// `s` with every ASCII letter in upper case.
pub open spec fn raised(s: Seq<char>) -> Seq<char> {
    s.map_values(|c: char| ascii_upper(c))
}

/// Whether `part` occurs in `s` at position `at`.
pub open spec fn occurs_at(s: Seq<char>, part: Seq<char>, at: int) -> bool {
    0 <= at && at + part.len() <= s.len() && s.subrange(at, at + part.len()) == part
}

/// Whether `part` occurs anywhere in `s`.
pub open spec fn has_part(s: Seq<char>, part: Seq<char>) -> bool {
    exists|at: int| #[trigger] occurs_at(s, part, at)
}

/// Whether `s` starts with `prefix`.
pub open spec fn has_prefix(s: Seq<char>, prefix: Seq<char>) -> bool {
    occurs_at(s, prefix, 0)
}

/// `parts` one after the other with `separator` in between.
pub open spec fn joined(parts: Seq<Seq<char>>, separator: Seq<char>) -> Seq<char>
    decreases parts.len(),
{
    if parts.len() == 0 {
        Seq::empty()
    } else if parts.len() == 1 {
        parts[0]
    } else {
        joined(parts.drop_last(), separator) + separator + parts.last()
    }
}

/// `String::push`: the character is added at the end.
pub assume_specification[ String::push ](s: &mut String, c: char)
    ensures
        final(s)@ == old(s)@.push(c),
;

/// The characters of `s`.
pub fn char_vec(s: &str) -> (chars: Vec<char>)
    ensures
        chars@ == s@,
{
    let mut chars: Vec<char> = Vec::new();
    for c in it: s.chars()
        invariant
            it.seq() == s@,
            chars@ == s@.take(it.index()),
    {
        chars.push(c);
        assert(chars@ =~= s@.take(it.index() + 1));
    }
    assert(s@.take(s@.len() as int) =~= s@);
    chars
}

/// Whether `c` has the Unicode `White_Space` property.
pub fn white_space(c: char) -> (r: bool)
    ensures
        r == is_white_space(c),
{
    ('\u{9}' <= c && c <= '\u{d}') || c == ' ' || c == '\u{85}' || c == '\u{a0}' || c == '\u{1680}'
        || ('\u{2000}' <= c && c <= '\u{200a}') || c == '\u{2028}' || c == '\u{2029}'
        || c == '\u{202f}' || c == '\u{205f}' || c == '\u{3000}'
}

/// `s` without its leading and trailing white space.
pub fn trim(s: &str) -> (r: &str)
    ensures
        r@ == trimmed(s@),
{
    let chars = char_vec(s);
    let n: usize = chars.len();
    let mut from: usize = 0;
    assert(s@.skip(0) =~= s@);
    while from < n && white_space(chars[from])
        invariant
            n == s@.len(),
            chars@ == s@,
            from <= n,
            trimmed_start(s@) == trimmed_start(s@.skip(from as int)),
        decreases n - from,
    {
        assert(s@.skip(from as int).skip(1) =~= s@.skip(from + 1));
        from = from + 1;
    }
    let mut to: usize = n;
    assert(s@.skip(from as int) =~= s@.subrange(from as int, n as int));
    while from < to && white_space(chars[to - 1])
        invariant
            n == s@.len(),
            chars@ == s@,
            from <= to <= n,
            trimmed(s@) == trimmed_end(s@.subrange(from as int, to as int)),
        decreases to,
    {
        assert(s@.subrange(from as int, to as int).drop_last() =~= s@.subrange(
            from as int,
            to - 1,
        ));
        to = to - 1;
    }
    s.substring_char(from, to)
}

/// `s` without the run of `c` that it starts with.
pub fn trim_leading(s: &str, c: char) -> (r: &str)
    ensures
        r@ == without_leading(s@, c),
{
    let chars = char_vec(s);
    let n: usize = chars.len();
    let mut from: usize = 0;
    assert(s@.skip(0) =~= s@);
    while from < n && chars[from] == c
        invariant
            n == s@.len(),
            chars@ == s@,
            from <= n,
            without_leading(s@, c) == without_leading(s@.skip(from as int), c),
        decreases n - from,
    {
        assert(s@.skip(from as int).skip(1) =~= s@.skip(from + 1));
        from = from + 1;
    }
    assert(s@.skip(from as int) =~= s@.subrange(from as int, n as int));
    s.substring_char(from, n)
}

/// What precedes the first `c` is a prefix of `s`.
pub proof fn lemma_before_first(s: Seq<char>, c: char, n: int)
    requires
        0 <= n <= s.len(),
        forall|i: int| 0 <= i < n ==> s[i] != c,
        n < s.len() ==> s[n] == c,
    ensures
        before_first(s, c) == s.take(n),
    decreases n,
{
    if n == 0 {
        assert(s.take(0) =~= Seq::<char>::empty());
    } else {
        lemma_before_first(s.skip(1), c, n - 1);
        assert(seq![s[0]] + s.skip(1).take(n - 1) =~= s.take(n));
    }
}

/// How far the part before the first `c` reaches.
pub proof fn lemma_before_first_shape(s: Seq<char>, c: char)
    ensures
        before_first(s, c).len() <= s.len(),
        before_first(s, c) == s.take(before_first(s, c).len() as int),
        forall|i: int| 0 <= i < before_first(s, c).len() ==> #[trigger] s[i] != c,
        before_first(s, c).len() < s.len() ==> s[before_first(s, c).len() as int] == c,
        before_first(s, c).len() == s.len() <==> !s.contains(c),
    decreases s.len(),
{
    if s.len() == 0 || s[0] == c {
        assert(s.take(0) =~= Seq::<char>::empty());
    } else {
        let rest = s.skip(1);
        lemma_before_first_shape(rest, c);
        let n = before_first(rest, c).len() as int;
        assert(before_first(s, c) =~= s.take(n + 1));
        assert forall|i: int| 0 <= i < n + 1 implies #[trigger] s[i] != c by {
            if i > 0 {
                assert(rest[i - 1] == s[i]);
            }
        }
        if n < rest.len() {
            assert(rest[n] == s[n + 1]);
        }
    }
}

/// The part of `s` before the first `c`, or all of `s` where there is none.
pub fn head(s: &str, c: char) -> (r: &str)
    ensures
        r@ == before_first(s@, c),
{
    let chars = char_vec(s);
    let n: usize = chars.len();
    let mut to: usize = 0;
    while to < n && chars[to] != c
        invariant
            n == s@.len(),
            chars@ == s@,
            to <= n,
            forall|i: int| 0 <= i < to ==> s@[i] != c,
        decreases n - to,
    {
        to = to + 1;
    }
    proof {
        lemma_before_first(s@, c, to as int);
    }
    s.substring_char(0, to)
}

/// The part of `s` after the first `c`, where there is one.
pub fn tail(s: &str, c: char) -> (r: Option<&str>)
    ensures
        match r {
            Some(t) => after_first(s@, c) == Some(t@),
            None => after_first(s@, c) is None,
        },
{
    let chars = char_vec(s);
    let n: usize = chars.len();
    let mut to: usize = 0;
    while to < n && chars[to] != c
        invariant
            n == s@.len(),
            chars@ == s@,
            to <= n,
            forall|i: int| 0 <= i < to ==> s@[i] != c,
        decreases n - to,
    {
        to = to + 1;
    }
    proof {
        lemma_before_first(s@, c, to as int);
    }
    if to < n {
        assert(s@[to as int] == c);
        assert(s@.skip(to + 1) =~= s@.subrange(to + 1, n as int));
        Some(s.substring_char(to + 1, n))
    } else {
        None
    }
}

/// The part of `s` before the last `c`, or all of `s` where there is none.
pub fn without_tail(s: &str, c: char) -> (r: &str)
    ensures
        r@ == before_last(s@, c),
{
    let chars = char_vec(s);
    let n: usize = chars.len();
    let mut to: usize = n;
    assert(s@.take(n as int) =~= s@);
    while to > 0 && chars[to - 1] != c
        invariant
            n == s@.len(),
            chars@ == s@,
            to <= n,
            until_last(s@, c) == until_last(s@.take(to as int), c),
            forall|i: int| to <= i < n ==> s@[i] != c,
        decreases to,
    {
        assert(s@.take(to as int).drop_last() =~= s@.take(to - 1));
        to = to - 1;
    }
    if to == 0 {
        s
    } else {
        assert(s@[to - 1] == c);
        assert(s@.take(to as int).drop_last() =~= s@.subrange(0, to - 1));
        s.substring_char(0, to - 1)
    }
}

/// The ASCII lower-case form of `c`.
pub fn lower_char(c: char) -> (r: char)
    ensures
        r == ascii_lower(c),
{
    if 'A' <= c && c <= 'Z' {
        ((c as u8) + 32) as char
    } else {
        c
    }
}

/// The ASCII upper-case form of `c`.
pub fn upper_char(c: char) -> (r: char)
    ensures
        r == ascii_upper(c),
{
    if 'a' <= c && c <= 'z' {
        ((c as u8) - 32) as char
    } else {
        c
    }
}

/// `s` with every ASCII letter in lower case.
pub fn to_lower(s: &str) -> (r: String)
    ensures
        r@ == lowered(s@),
{
    let mut out = String::new();
    for c in it: s.chars()
        invariant
            it.seq() == s@,
            out@ == lowered(s@.take(it.index())),
    {
        out.push(lower_char(c));
        assert(lowered(s@.take(it.index() + 1)) =~= out@);
    }
    assert(s@.take(s@.len() as int) =~= s@);
    out
}

/// `s` with every ASCII letter in upper case.
pub fn to_upper(s: &str) -> (r: String)
    ensures
        r@ == raised(s@),
{
    let mut out = String::new();
    for c in it: s.chars()
        invariant
            it.seq() == s@,
            out@ == raised(s@.take(it.index())),
    {
        out.push(upper_char(c));
        assert(raised(s@.take(it.index() + 1)) =~= out@);
    }
    assert(s@.take(s@.len() as int) =~= s@);
    out
}

/// Whether `part` occurs in `s` at position `at`.
fn matches_at(s: &Vec<char>, part: &Vec<char>, at: usize) -> (r: bool)
    ensures
        r == occurs_at(s@, part@, at as int),
{
    if part.len() > s.len() || at > s.len() - part.len() {
        return false;
    }
    let n: usize = part.len();
    let mut i: usize = 0;
    while i < n
        invariant
            n == part@.len(),
            i <= n,
            at + n <= s.len(),
            forall|j: int| 0 <= j < i ==> s@[at + j] == part@[j],
        decreases n - i,
    {
        if s[at + i] != part[i] {
            assert(s@.subrange(at as int, at + n)[i as int] != part@[i as int]);
            return false;
        }
        i = i + 1;
    }
    assert(s@.subrange(at as int, at + n) =~= part@);
    true
}

/// Whether `part` occurs anywhere in `s`.
pub fn contains(s: &str, part: &str) -> (r: bool)
    ensures
        r == has_part(s@, part@),
{
    let chars = char_vec(s);
    let wanted = char_vec(part);
    let n: usize = chars.len();
    let mut at: usize = 0;
    while at < n
        invariant
            n == s@.len(),
            chars@ == s@,
            wanted@ == part@,
            at <= n,
            forall|i: int| 0 <= i < at ==> !#[trigger] occurs_at(s@, part@, i),
        decreases n - at,
    {
        if matches_at(&chars, &wanted, at) {
            return true;
        }
        at = at + 1;
    }
    matches_at(&chars, &wanted, n)
}

/// Whether `s` starts with `prefix`.
pub fn starts_with(s: &str, prefix: &str) -> (r: bool)
    ensures
        r == has_prefix(s@, prefix@),
{
    matches_at(&char_vec(s), &char_vec(prefix), 0)
}

/// Whether the two strings hold the same characters.
pub fn same(a: &str, b: &str) -> (r: bool)
    ensures
        r == (a@ == b@),
{
    let left = char_vec(a);
    let right = char_vec(b);
    if left.len() != right.len() {
        return false;
    }
    assert(a@.subrange(0, b@.len() as int) =~= a@);
    matches_at(&left, &right, 0)
}

/// Whether the two strings are equal when the case of ASCII letters is ignored.
pub fn eq_ignore_ascii_case(a: &str, b: &str) -> (r: bool)
    ensures
        r == (lowered(a@) == lowered(b@)),
{
    same(to_lower(a).as_str(), to_lower(b).as_str())
}

/// The strings one after the other with `separator` in between.
pub fn join(parts: &[&str], separator: &str) -> (r: String)
    ensures
        r@ == joined(parts@.map_values(|p: &str| p@), separator@),
{
    let ghost all = parts@.map_values(|p: &str| p@);
    let mut out = String::new();
    let n: usize = parts.len();
    let mut i: usize = 0;
    while i < n
        invariant
            n == parts@.len(),
            i <= n,
            all == parts@.map_values(|p: &str| p@),
            out@ == joined(all.take(i as int), separator@),
        decreases n - i,
    {
        if i > 0 {
            out.append(separator);
        }
        out.append(parts[i]);
        assert(all.take(i + 1).drop_last() =~= all.take(i as int));
        assert(i == 0 ==> out@ =~= all.take(1)[0]);
        i = i + 1;
    }
    assert(all.take(n as int) =~= all);
    out
}

/// What precedes the last `c` is a prefix of `s`.
pub proof fn lemma_before_last_shape(s: Seq<char>, c: char)
    ensures
        before_last(s, c).len() <= s.len(),
        before_last(s, c) == s.take(before_last(s, c).len() as int),
{
    lemma_until_last_shape(s, c);
    assert(s.take(s.len() as int) =~= s);
}

proof fn lemma_until_last_shape(s: Seq<char>, c: char)
    ensures
        until_last(s, c).len() <= s.len(),
        until_last(s, c) == s.take(until_last(s, c).len() as int),
    decreases s.len(),
{
    if s.len() == 0 {
        assert(s.take(0) =~= Seq::<char>::empty());
    } else if s.last() != c {
        lemma_until_last_shape(s.drop_last(), c);
        let n = until_last(s, c).len() as int;
        assert(s.drop_last().take(n) =~= s.take(n));
    }
}

proof fn lemma_trimmed_start(s: Seq<char>)
    ensures
        trimmed_start(s).len() > 0 ==> !is_white_space(trimmed_start(s)[0]),
    decreases s.len(),
{
    if s.len() > 0 && is_white_space(s[0]) {
        lemma_trimmed_start(s.skip(1));
    }
}

proof fn lemma_trimmed_end(s: Seq<char>)
    ensures
        trimmed_end(s).len() > 0 ==> !is_white_space(trimmed_end(s).last()),
        trimmed_end(s).len() > 0 ==> s.len() > 0 && trimmed_end(s)[0] == s[0],
    decreases s.len(),
{
    if s.len() > 0 && is_white_space(s.last()) {
        lemma_trimmed_end(s.drop_last());
    }
}

/// A trimmed text neither starts nor ends with white space.
pub proof fn law_trimmed_has_no_outer_white_space(s: Seq<char>)
    ensures
        trimmed(s).len() > 0 ==> !is_white_space(trimmed(s)[0]) && !is_white_space(
            trimmed(s).last(),
        ),
{
    lemma_trimmed_start(s);
    lemma_trimmed_end(trimmed_start(s));
}

/// Trimming a trimmed text changes nothing.
pub proof fn law_trimming_is_idempotent(s: Seq<char>)
    ensures
        trimmed(trimmed(s)) == trimmed(s),
{
    law_trimmed_has_no_outer_white_space(s);
}

/// Texts that are the same in lower case are the same in upper case.
pub proof fn law_either_case_ignores_case(a: Seq<char>, b: Seq<char>)
    ensures
        lowered(a) == lowered(b) <==> raised(a) == raised(b),
{
    assert(lowered(a).len() == a.len() && raised(a).len() == a.len());
    assert(lowered(b).len() == b.len() && raised(b).len() == b.len());
    if lowered(a) == lowered(b) {
        assert forall|i: int| 0 <= i < a.len() implies raised(a)[i] == raised(b)[i] by {
            assert(lowered(a)[i] == lowered(b)[i]);
        }
        assert(raised(a) =~= raised(b));
    }
    if raised(a) == raised(b) {
        assert forall|i: int| 0 <= i < a.len() implies lowered(a)[i] == lowered(b)[i] by {
            assert(raised(a)[i] == raised(b)[i]);
        }
        assert(lowered(a) =~= lowered(b));
    }
}

/// White space is the tab, the four controls after it, the space, the next-line control and
/// the space characters of Unicode.
pub proof fn law_white_space(c: char)
    ensures
        is_white_space(c) <==> {
            let code = c as u32;
            ||| 9 <= code <= 13
            ||| code == 32 || code == 133 || code == 160 || code == 5760
            ||| 8192 <= code <= 8202
            ||| code == 8232 || code == 8233 || code == 8239 || code == 8287 || code == 12288
        },
{
}

/// Trimming takes characters away at the start.
proof fn lemma_trimmed_start_parts(s: Seq<char>) -> (n: int)
    ensures
        0 <= n <= s.len(),
        trimmed_start(s) == s.skip(n),
        forall|i: int| 0 <= i < n ==> is_white_space(#[trigger] s[i]),
    decreases s.len(),
{
    if s.len() > 0 && is_white_space(s[0]) {
        let rest = s.skip(1);
        let n = lemma_trimmed_start_parts(rest);
        assert(rest.skip(n) =~= s.skip(n + 1));
        assert forall|i: int| 0 <= i < n + 1 implies is_white_space(#[trigger] s[i]) by {
            if i > 0 {
                assert(rest[i - 1] == s[i]);
            }
        }
        n + 1
    } else {
        assert(s.skip(0) =~= s);
        0
    }
}

/// Trimming takes characters away at the end.
proof fn lemma_trimmed_end_parts(s: Seq<char>) -> (n: int)
    ensures
        0 <= n <= s.len(),
        trimmed_end(s) == s.take(n),
        forall|i: int| n <= i < s.len() ==> is_white_space(#[trigger] s[i]),
    decreases s.len(),
{
    if s.len() > 0 && is_white_space(s.last()) {
        let rest = s.drop_last();
        let n = lemma_trimmed_end_parts(rest);
        assert(rest.take(n) =~= s.take(n));
        assert forall|i: int| n <= i < s.len() implies is_white_space(#[trigger] s[i]) by {
            if i < s.len() - 1 {
                assert(rest[i] == s[i]);
            }
        }
        n
    } else {
        assert(s.take(s.len() as int) =~= s);
        s.len() as int
    }
}

/// Trimming keeps one stretch of the text as it is, and takes only white space away from
/// before and behind it.
pub proof fn law_trimming_takes_only_white_space(s: Seq<char>)
    ensures
        exists|from: int, to: int|
            #![trigger s.subrange(from, to)]
            {
                &&& 0 <= from <= to <= s.len()
                &&& trimmed(s) == s.subrange(from, to)
                &&& forall|i: int| 0 <= i < from ==> is_white_space(#[trigger] s[i])
                &&& forall|i: int| to <= i < s.len() ==> is_white_space(#[trigger] s[i])
            },
{
    let from = lemma_trimmed_start_parts(s);
    let rest = s.skip(from);
    let n = lemma_trimmed_end_parts(rest);
    let to = from + n;
    assert(rest.take(n) =~= s.subrange(from, to));
    assert forall|i: int| to <= i < s.len() implies is_white_space(#[trigger] s[i]) by {
        assert(rest[i - from] == s[i]);
    }
    assert(trimmed(s) == s.subrange(from, to));
}

/// A text that neither starts nor ends with white space is trimmed.
pub proof fn law_nothing_else_is_trimmed(s: Seq<char>)
    requires
        s.len() > 0 ==> !is_white_space(s[0]) && !is_white_space(s.last()),
    ensures
        trimmed(s) == s,
{
}

/// Changing the case keeps every character but the ASCII letters of the other case, which
/// are 32 places away.
pub proof fn law_case_changes_only_letters(s: Seq<char>)
    ensures
        lowered(s).len() == s.len(),
        raised(s).len() == s.len(),
        forall|i: int|
            0 <= i < s.len() ==> {
                let (c, lower, upper) = (s[i] as u32, (#[trigger] lowered(s)[i]) as u32, raised(
                    s,
                )[i] as u32);
                &&& 65 <= c <= 90 ==> lower == c + 32 && upper == c
                &&& 97 <= c <= 122 ==> lower == c && upper == c - 32
                &&& !(65 <= c <= 90) && !(97 <= c <= 122) ==> lower == c && upper == c
            },
{
}

/// A text is the part before the first `c`, `c`, and the part after it.
pub proof fn law_first_splits(s: Seq<char>, c: char)
    ensures
        !before_first(s, c).contains(c),
        match after_first(s, c) {
            Some(rest) => s == before_first(s, c).push(c) + rest,
            None => s == before_first(s, c),
        },
{
    lemma_before_first_shape(s, c);
    let n = before_first(s, c).len() as int;
    assert forall|i: int| 0 <= i < n implies before_first(s, c)[i] != c by {
        assert(before_first(s, c)[i] == s[i]);
    }
    if after_first(s, c) is Some {
        assert(s =~= before_first(s, c).push(c) + s.skip(n + 1));
    } else {
        assert(s =~= s.take(n));
    }
}

/// A text is the part before the last `c`, `c`, and a part without `c`.
pub proof fn law_last_splits(s: Seq<char>, c: char)
    ensures
        !s.contains(c) ==> before_last(s, c) == s,
        s.contains(c) ==> {
            let n = before_last(s, c).len() as int;
            &&& n < s.len()
            &&& before_last(s, c) == s.take(n)
            &&& s[n] == c
            &&& forall|i: int| n < i < s.len() ==> #[trigger] s[i] != c
        },
    decreases s.len(),
{
    if s.contains(c) {
        let front = s.drop_last();
        if s.last() == c {
            assert(front =~= s.take(s.len() - 1));
        } else {
            let at = choose|i: int| 0 <= i < s.len() && s[i] == c;
            assert(front[at] == c);
            law_last_splits(front, c);
            let n = before_last(front, c).len() as int;
            assert(before_last(s, c) == before_last(front, c));
            assert(front.take(n) =~= s.take(n));
            assert forall|i: int| n < i < s.len() implies #[trigger] s[i] != c by {
                if i < s.len() - 1 {
                    assert(front[i] == s[i]);
                }
            }
        }
    }
}

/// Without the run of `c` that it starts with, a text is what follows that run.
pub proof fn law_leading_run_is_taken_away(s: Seq<char>, c: char)
    ensures
        without_leading(s, c).len() <= s.len(),
        without_leading(s, c) == s.skip(s.len() - without_leading(s, c).len()),
        forall|i: int|
            0 <= i < s.len() - without_leading(s, c).len() ==> #[trigger] s[i] == c,
        without_leading(s, c).len() > 0 ==> without_leading(s, c)[0] != c,
    decreases s.len(),
{
    if s.len() > 0 && s[0] == c {
        let rest = s.skip(1);
        law_leading_run_is_taken_away(rest, c);
        let n = rest.len() - without_leading(rest, c).len();
        assert(rest.skip(n) =~= s.skip(n + 1));
        assert forall|i: int| 0 <= i < n + 1 implies #[trigger] s[i] == c by {
            if i > 0 {
                assert(rest[i - 1] == s[i]);
            }
        }
    } else {
        assert(s.skip(0) =~= s);
    }
}

/// A part occurs in a text if and only if the text is that part with something before it
/// and something behind it, and the text starts with it if nothing is before it.
pub proof fn law_parts_occur(before: Seq<char>, part: Seq<char>, behind: Seq<char>)
    ensures
        has_part(before + part + behind, part),
        has_prefix(part + behind, part),
{
    let s = before + part + behind;
    let at = before.len() as int;
    assert(s.subrange(at, at + part.len()) =~= part);
    assert(occurs_at(s, part, at));
    assert((part + behind).subrange(0, part.len() as int) =~= part);
}

/// What occurs in a text stands there character by character.
pub proof fn law_occurrences_are_real(s: Seq<char>, part: Seq<char>, at: int)
    ensures
        occurs_at(s, part, at) <==> {
            &&& 0 <= at
            &&& at + part.len() <= s.len()
            &&& forall|i: int| 0 <= i < part.len() ==> #[trigger] part[i] == s[at + i]
        },
        occurs_at(s, part, at) ==> has_part(s, part),
        has_prefix(s, part) <==> occurs_at(s, part, 0),
{
    if 0 <= at && at + part.len() <= s.len() {
        let there = s.subrange(at, at + part.len());
        if occurs_at(s, part, at) {
            assert forall|i: int| 0 <= i < part.len() implies #[trigger] part[i] == s[at + i] by {
                assert(there[i] == s[at + i]);
            }
        } else if forall|i: int| 0 <= i < part.len() ==> #[trigger] part[i] == s[at + i] {
            assert(there =~= part);
        }
    }
}

/// A part that stands nowhere in a text does not occur in it.
pub proof fn law_parts_occur_somewhere(s: Seq<char>, part: Seq<char>)
    requires
        has_part(s, part),
    ensures
        exists|at: int| 0 <= at <= s.len() - part.len() && #[trigger] occurs_at(s, part, at),
{
}

/// Where the part number `k` begins if the parts stand one after the other with gaps.
pub open spec fn offset_of(parts: Seq<Seq<char>>, gap: int, k: int) -> int
    decreases k,
{
    if k <= 0 {
        0
    } else {
        offset_of(parts, gap, k - 1) + parts[k - 1].len() + gap
    }
}

/// Where the first parts begin does not depend on the last.
proof fn lemma_offsets_of_front(parts: Seq<Seq<char>>, gap: int, k: int)
    requires
        0 <= k < parts.len(),
    ensures
        offset_of(parts.drop_last(), gap, k) == offset_of(parts, gap, k),
    decreases k,
{
    if k > 0 {
        lemma_offsets_of_front(parts, gap, k - 1);
    }
}

/// Joined parts stand one after the other with the separator in every gap, and there is
/// nothing else.
pub proof fn law_joined_parts_stand_in_order(parts: Seq<Seq<char>>, separator: Seq<char>, k: int)
    requires
        0 <= k < parts.len(),
    ensures
        joined(parts, separator).len() + separator.len() == offset_of(
            parts,
            separator.len() as int,
            parts.len() as int,
        ),
        occurs_at(
            joined(parts, separator),
            parts[k],
            offset_of(parts, separator.len() as int, k),
        ),
        k + 1 < parts.len() ==> occurs_at(
            joined(parts, separator),
            separator,
            offset_of(parts, separator.len() as int, k) + parts[k].len(),
        ),
    decreases parts.len(),
{
    let all = joined(parts, separator);
    let n = parts.len() as int;
    let gap = separator.len() as int;
    let at = offset_of(parts, gap, k);
    assert(offset_of(parts, gap, 0) == 0);
    assert(offset_of(parts, gap, n) == offset_of(parts, gap, n - 1) + parts[n - 1].len() + gap);
    if n == 1 {
        assert(all.subrange(0, all.len() as int) =~= parts[0]);
    } else {
        let front = parts.drop_last();
        let before = joined(front, separator);
        lemma_offsets_of_front(parts, gap, n - 1);
        if k < n - 1 {
            law_joined_parts_stand_in_order(front, separator, k);
            lemma_offsets_of_front(parts, gap, k);
            assert(front[k] == parts[k]);
            assert(all.subrange(at, at + parts[k].len()) =~= before.subrange(
                at,
                at + parts[k].len(),
            ));
            let end = at + parts[k].len();
            if k < n - 2 {
                assert(all.subrange(end, end + gap) =~= before.subrange(end, end + gap));
            } else {
                assert(offset_of(parts, gap, n - 1) == end + gap);
                assert(all.subrange(end, end + gap) =~= separator);
            }
        } else {
            law_joined_parts_stand_in_order(front, separator, 0);
            assert(all.subrange(at, at + parts[k].len()) =~= parts[k]);
        }
    }
}

/// Nothing is left of a text if and only if all of it is white space.
pub proof fn law_blank_is_trimmed_away(s: Seq<char>)
    ensures
        trimmed(s).len() == 0 <==> forall|i: int|
            0 <= i < s.len() ==> is_white_space(#[trigger] s[i]),
{
    law_trimming_takes_only_white_space(s);
    law_trimmed_has_no_outer_white_space(s);
    let (from, to) = choose|from: int, to: int|
        #![trigger s.subrange(from, to)]
        {
            &&& 0 <= from <= to <= s.len()
            &&& trimmed(s) == s.subrange(from, to)
            &&& forall|i: int| 0 <= i < from ==> is_white_space(#[trigger] s[i])
            &&& forall|i: int| to <= i < s.len() ==> is_white_space(#[trigger] s[i])
        };
    if from < to {
        assert(s.subrange(from, to)[0] == s[from]);
    }
}

} // verus!
