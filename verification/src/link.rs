//! The `Link` response header.
//!
//! The header is a comma-separated list of segments, each of the shape
//! `<url>; rel="..."`. The page that follows the current one is named by the
//! first segment that carries `rel="next"`.

use crate::text::chars_of;
use vstd::prelude::*;

verus! {

/// A set of characters that a scan runs over.
pub enum CharClass {
    /// Unicode `White_Space`.
    Whitespace,
    /// The one character given.
    Only(char),
    /// Every character but the one given.
    Except(char),
}

/// Whether `c` has the Unicode property `White_Space`.
pub open spec fn is_whitespace(c: char) -> bool {
    ||| '\u{9}' <= c <= '\u{d}'
    ||| c == ' '
    ||| c == '\u{85}'
    ||| c == '\u{a0}'
    ||| c == '\u{1680}'
    ||| '\u{2000}' <= c <= '\u{200a}'
    ||| c == '\u{2028}'
    ||| c == '\u{2029}'
    ||| c == '\u{202f}'
    ||| c == '\u{205f}'
    ||| c == '\u{3000}'
}

impl CharClass {
    /// Whether `c` belongs to the class.
    pub open spec fn holds(self, c: char) -> bool {
        match self {
            CharClass::Whitespace => is_whitespace(c),
            CharClass::Only(d) => c == d,
            CharClass::Except(d) => c != d,
        }
    }

    fn test(&self, c: char) -> (b: bool)
        ensures
            b == self.holds(c),
    {
        match self {
            CharClass::Whitespace => {
                (c >= '\u{9}' && c <= '\u{d}') || c == ' ' || c == '\u{85}' || c == '\u{a0}' || c
                    == '\u{1680}' || (c >= '\u{2000}' && c <= '\u{200a}') || c == '\u{2028}' || c
                    == '\u{2029}' || c == '\u{202f}' || c == '\u{205f}' || c == '\u{3000}'
            },
            CharClass::Only(d) => c == *d,
            CharClass::Except(d) => c != *d,
        }
    }
}

/// How many characters at the front of `s` belong to `class`.
pub open spec fn leading(s: Seq<char>, class: CharClass) -> nat
    decreases s.len(),
{
    if s.len() > 0 && class.holds(s[0]) {
        1 + leading(s.drop_first(), class)
    } else {
        0
    }
}

/// How many characters at the back of `s` belong to `class`.
pub open spec fn trailing(s: Seq<char>, class: CharClass) -> nat
    decreases s.len(),
{
    if s.len() > 0 && class.holds(s.last()) {
        1 + trailing(s.drop_last(), class)
    } else {
        0
    }
}

/// `s` without the characters of `class` at its front.
pub open spec fn strip_leading(s: Seq<char>, class: CharClass) -> Seq<char> {
    s.skip(leading(s, class) as int)
}

/// `s` without the characters of `class` at its back.
pub open spec fn strip_trailing(s: Seq<char>, class: CharClass) -> Seq<char> {
    s.take(s.len() - trailing(s, class))
}

/// The part of `s` in front of the first `c`; all of `s` where `c` does not
/// occur.
pub open spec fn before(s: Seq<char>, c: char) -> Seq<char> {
    s.take(leading(s, CharClass::Except(c)) as int)
}

/// `s` without the white space at either end.
pub open spec fn trim(s: Seq<char>) -> Seq<char> {
    strip_trailing(strip_leading(s, CharClass::Whitespace), CharClass::Whitespace)
}

/// Whether `pattern` occurs in `s` as a contiguous run.
pub open spec fn contains(s: Seq<char>, pattern: Seq<char>) -> bool {
    exists|i: int|
        0 <= i && i + pattern.len() <= s.len() && #[trigger] s.subrange(i, i + pattern.len())
            == pattern
}

/// The relation marker of the segment that names the following page.
pub open spec fn rel_next() -> Seq<char> {
    "rel=\"next\""@
}

/// The address that a segment names: what stands in front of its first `;`,
/// trimmed, then freed of every `<` at its front and every `>` at its back.
pub open spec fn target(segment: Seq<char>) -> Seq<char> {
    strip_trailing(
        strip_leading(trim(before(segment, ';')), CharClass::Only('<')),
        CharClass::Only('>'),
    )
}

/// The address of the following page according to a `Link` header value:
/// the target of the first comma-separated segment that holds `rel="next"`,
/// and `None` where no segment does.
pub open spec fn next_link(value: Seq<char>) -> Option<Seq<char>>
    decreases value.len(),
{
    let segment = before(value, ',');
    if contains(segment, rel_next()) {
        Some(target(segment))
    } else if segment.len() >= value.len() {
        None
    } else {
        next_link(value.skip(segment.len() as int + 1))
    }
}

proof fn lemma_leading(s: Seq<char>, class: CharClass, n: int)
    requires
        0 <= n <= s.len(),
        forall|j: int| 0 <= j < n ==> class.holds(#[trigger] s[j]),
        n < s.len() ==> !class.holds(s[n]),
    ensures
        leading(s, class) == n,
    decreases n,
{
    if n > 0 {
        let rest = s.drop_first();
        assert forall|j: int| 0 <= j < n - 1 implies class.holds(#[trigger] rest[j]) by {
            assert(rest[j] == s[j + 1]);
        }
        lemma_leading(rest, class, n - 1);
    }
}

proof fn lemma_trailing(s: Seq<char>, class: CharClass, n: int)
    requires
        0 <= n <= s.len(),
        forall|j: int| s.len() - n <= j < s.len() ==> class.holds(#[trigger] s[j]),
        n < s.len() ==> !class.holds(s[s.len() - n - 1]),
    ensures
        trailing(s, class) == n,
    decreases n,
{
    if n > 0 {
        let rest = s.drop_last();
        assert forall|j: int| rest.len() - (n - 1) <= j < rest.len() implies class.holds(
            #[trigger] rest[j],
        ) by {
            assert(rest[j] == s[j]);
        }
        lemma_trailing(rest, class, n - 1);
    }
}

/// The end of the run of `class` characters that starts `chars[from..to]`.
fn skip_leading(chars: &Vec<char>, from: usize, to: usize, class: &CharClass) -> (at: usize)
    requires
        from <= to <= chars.len(),
    ensures
        from <= at <= to,
        at - from == leading(chars@.subrange(from as int, to as int), *class),
{
    let mut at: usize = from;
    while at < to && class.test(chars[at])
        invariant
            from <= at <= to <= chars.len(),
            forall|j: int| from <= j < at ==> class.holds(#[trigger] chars@[j]),
        decreases to - at,
    {
        at += 1;
    }
    proof {
        lemma_leading(chars@.subrange(from as int, to as int), *class, at - from);
    }
    at
}

/// The start of the run of `class` characters that ends `chars[from..to]`.
fn skip_trailing(chars: &Vec<char>, from: usize, to: usize, class: &CharClass) -> (at: usize)
    requires
        from <= to <= chars.len(),
    ensures
        from <= at <= to,
        to - at == trailing(chars@.subrange(from as int, to as int), *class),
{
    let mut at: usize = to;
    while at > from && class.test(chars[at - 1])
        invariant
            from <= at <= to <= chars.len(),
            forall|j: int| at <= j < to ==> class.holds(#[trigger] chars@[j]),
        decreases at - from,
    {
        at -= 1;
    }
    proof {
        lemma_trailing(chars@.subrange(from as int, to as int), *class, to - at);
    }
    at
}

/// Whether `pattern` stands in `chars` at index `at`.
fn matches_at(chars: &Vec<char>, at: usize, pattern: &Vec<char>) -> (b: bool)
    requires
        at + pattern.len() <= chars.len(),
    ensures
        b == (chars@.subrange(at as int, at + pattern.len()) == pattern@),
{
    let mut k: usize = 0;
    while k < pattern.len()
        invariant
            k <= pattern.len(),
            at + pattern.len() <= chars.len(),
            forall|j: int| 0 <= j < k ==> chars@[at + j] == #[trigger] pattern@[j],
        decreases pattern.len() - k,
    {
        if chars[at + k] != pattern[k] {
            proof {
                let run = chars@.subrange(at as int, at + pattern.len());
                assert(run[k as int] != pattern@[k as int]);
            }
            return false;
        }
        k += 1;
    }
    assert(chars@.subrange(at as int, at + pattern.len()) =~= pattern@);
    true
}

/// Whether `pattern` occurs in `chars[from..to]`.
fn has_pattern(chars: &Vec<char>, from: usize, to: usize, pattern: &Vec<char>) -> (b: bool)
    requires
        from <= to <= chars.len(),
    ensures
        b == contains(chars@.subrange(from as int, to as int), pattern@),
{
    let ghost s = chars@.subrange(from as int, to as int);
    if pattern.len() == 0 {
        proof {
            let i: int = 0;
            assert(s.subrange(i, i + pattern@.len()) =~= pattern@);
        }
        return true;
    }
    if pattern.len() > to - from {
        return false;
    }
    let last: usize = to - pattern.len();
    let mut at: usize = from;
    while at <= last
        invariant
            from <= at <= last + 1,
            pattern.len() > 0,
            last + pattern.len() == to,
            to <= chars.len(),
            s == chars@.subrange(from as int, to as int),
            forall|i: int|
                0 <= i < at - from ==> #[trigger] s.subrange(i, i + pattern.len()) != pattern@,
        decreases last + 1 - at,
    {
        proof {
            let i = at - from;
            assert(s.subrange(i, i + pattern.len()) =~= chars@.subrange(
                at as int,
                at + pattern.len(),
            ));
        }
        if matches_at(chars, at, pattern) {
            return true;
        }
        at += 1;
    }
    false
}

/// The bounds within `chars` of the address that the segment `chars[from..to]`
/// names.
fn target_bounds(chars: &Vec<char>, from: usize, to: usize) -> (bounds: (usize, usize))
    requires
        from <= to <= chars.len(),
    ensures
        from <= bounds.0 <= bounds.1 <= to,
        chars@.subrange(bounds.0 as int, bounds.1 as int) == target(
            chars@.subrange(from as int, to as int),
        ),
{
    let semi = skip_leading(chars, from, to, &CharClass::Except(';'));
    let left = skip_leading(chars, from, semi, &CharClass::Whitespace);
    let right = skip_trailing(chars, left, semi, &CharClass::Whitespace);
    let open = skip_leading(chars, left, right, &CharClass::Only('<'));
    let close = skip_trailing(chars, open, right, &CharClass::Only('>'));
    proof {
        let segment = chars@.subrange(from as int, to as int);
        let part = before(segment, ';');
        assert(part =~= chars@.subrange(from as int, semi as int));
        let shaved = strip_leading(part, CharClass::Whitespace);
        assert(shaved =~= chars@.subrange(left as int, semi as int));
        let trimmed = strip_trailing(shaved, CharClass::Whitespace);
        assert(trimmed =~= chars@.subrange(left as int, right as int));
        let opened = strip_leading(trimmed, CharClass::Only('<'));
        assert(opened =~= chars@.subrange(open as int, right as int));
        let closed = strip_trailing(opened, CharClass::Only('>'));
        assert(closed =~= chars@.subrange(open as int, close as int));
    }
    (open, close)
}

/// Reads the address of the following page out of a `Link` header value.
///
/// The value is split at its commas; the first segment that holds
/// `rel="next"` decides. Its address is what stands in front of the
/// segment's first `;`, with surrounding white space, leading `<` and
/// trailing `>` removed. Without such a segment there is no following page.
pub fn next_page_url(link: &str) -> (url: Option<String>)
    ensures
        url matches Some(u) ==> next_link(link@) == Some(u@),
        url is None ==> next_link(link@) is None,
{
    let chars = chars_of(link);
    let marker = chars_of("rel=\"next\"");
    let n = chars.len();
    let mut start: usize = 0;
    assert(link@.skip(0) =~= link@);
    loop
        invariant
            start <= n,
            n == chars.len(),
            chars@ == link@,
            marker@ == rel_next(),
            next_link(link@) == next_link(link@.skip(start as int)),
        decreases n - start,
    {
        let ghost rest = link@.skip(start as int);
        let end = skip_leading(&chars, start, n, &CharClass::Except(','));
        proof {
            assert(rest =~= chars@.subrange(start as int, n as int));
            assert(before(rest, ',') =~= chars@.subrange(start as int, end as int));
        }
        if has_pattern(&chars, start, end, &marker) {
            let (open, close) = target_bounds(&chars, start, end);
            let url = link.substring_char(open, close).to_owned();
            return Some(url);
        }
        if end >= n {
            return None;
        }
        proof {
            assert(rest.skip(end - start + 1) =~= link@.skip(end + 1));
        }
        start = end + 1;
    }
}

} // verus!
