//! Scanning of character sequences: classes of characters, runs, trimming,
//! tokens and substring search.
//!
//! Every executable function works on a slice of `char` and a pair of indices,
//! and says what it found in terms of the spec functions on `Seq<char>` below.

use vstd::prelude::*;

verus! {

/// White space in the Unicode sense: the code points with the `White_Space`
/// property.
pub open spec fn is_whitespace(c: char) -> bool {
    ||| '\u{9}' <= c <= '\u{d}'
    ||| c == ' '
    ||| c == '\u{85}'
    ||| c == '\u{a0}'
    ||| c == '\u{1680}'
    ||| '\u{2000}' <= c <= '\u{200a}'
    ||| c == '\u{2028}'
    ||| c == '\u{2029}'
    ||| c == '\u{202f}'
    ||| c == '\u{205f}'
    ||| c == '\u{3000}'
}

/// Decides [`is_whitespace`].
pub fn char_is_whitespace(c: char) -> (r: bool)
    ensures
        r == is_whitespace(c),
{
    ('\u{9}' <= c && c <= '\u{d}') || c == ' ' || c == '\u{85}' || c == '\u{a0}' || c == '\u{1680}'
        || ('\u{2000}' <= c && c <= '\u{200a}') || c == '\u{2028}' || c == '\u{2029}' || c
        == '\u{202f}' || c == '\u{205f}' || c == '\u{3000}'
}

/// A set of characters that a scan runs over.
#[derive(Clone, Copy, Debug)]
pub enum CharClass {
    /// White space.
    Whitespace,
    /// Everything but white space.
    Word,
    /// Everything but the given character.
    Until(char),
}

impl CharClass {
    /// Whether `c` belongs to the class.
    pub open spec fn admits(self, c: char) -> bool {
        match self {
            CharClass::Whitespace => is_whitespace(c),
            CharClass::Word => !is_whitespace(c),
            CharClass::Until(stop) => c != stop,
        }
    }

    /// Decides [`CharClass::admits`].
    pub fn test(self, c: char) -> (r: bool)
        ensures
            r == self.admits(c),
    {
        match self {
            CharClass::Whitespace => char_is_whitespace(c),
            CharClass::Word => !char_is_whitespace(c),
            CharClass::Until(stop) => c != stop,
        }
    }
}

/// Length of the longest prefix of `s` whose characters all belong to `class`.
pub open spec fn run_length(s: Seq<char>, class: CharClass) -> nat
    decreases s.len(),
{
    if s.len() > 0 && class.admits(s[0]) {
        1 + run_length(s.drop_first(), class)
    } else {
        0
    }
}

/// Length of the longest suffix of `s` whose characters all belong to `class`.
pub open spec fn trailing_run_length(s: Seq<char>, class: CharClass) -> nat
    decreases s.len(),
{
    if s.len() > 0 && class.admits(s.last()) {
        1 + trailing_run_length(s.drop_last(), class)
    } else {
        0
    }
}

/// `s` without its leading and trailing white space.
pub open spec fn trim(s: Seq<char>) -> Seq<char> {
    let rest = s.skip(run_length(s, CharClass::Whitespace) as int);
    rest.take(rest.len() - trailing_run_length(rest, CharClass::Whitespace))
}

/// The first maximal run of characters of `s` that are not white space; empty
/// exactly when `s` holds nothing but white space.
pub open spec fn first_token(s: Seq<char>) -> Seq<char> {
    let rest = s.skip(run_length(s, CharClass::Whitespace) as int);
    rest.take(run_length(rest, CharClass::Word) as int)
}

/// Whether `pattern` stands in `s` at index `at`.
pub open spec fn occurs_at(s: Seq<char>, pattern: Seq<char>, at: int) -> bool {
    &&& 0 <= at
    &&& at + pattern.len() <= s.len()
    &&& s.subrange(at, at + pattern.len()) == pattern
}

/// Whether `pattern` stands somewhere in `s`.
pub open spec fn contains(s: Seq<char>, pattern: Seq<char>) -> bool {
    exists|at: int| occurs_at(s, pattern, at)
}

/// A run is as long as [`run_length`] says and no longer: it lies inside the
/// sequence, all of it belongs to the class, and what follows it does not.
pub proof fn lemma_run_length(s: Seq<char>, class: CharClass)
    ensures
        run_length(s, class) <= s.len(),
        forall|i: int| 0 <= i < run_length(s, class) ==> class.admits(#[trigger] s[i]),
        run_length(s, class) < s.len() ==> !class.admits(s[run_length(s, class) as int]),
    decreases s.len(),
{
    if s.len() > 0 && class.admits(s[0]) {
        let rest = s.drop_first();
        lemma_run_length(rest, class);
        assert forall|i: int| 0 <= i < run_length(s, class) implies class.admits(
            #[trigger] s[i],
        ) by {
            if i > 0 {
                assert(s[i] == rest[i - 1]);
            }
        }
        if run_length(s, class) < s.len() {
            assert(s[run_length(s, class) as int] == rest[run_length(rest, class) as int]);
        }
    }
}

/// The converse of [`lemma_run_length`]: a prefix of the class that is followed
/// by the end or by a character outside the class is the run.
pub proof fn lemma_run_length_unique(s: Seq<char>, class: CharClass, n: nat)
    requires
        n <= s.len(),
        forall|i: int| 0 <= i < n ==> class.admits(#[trigger] s[i]),
        n < s.len() ==> !class.admits(s[n as int]),
    ensures
        run_length(s, class) == n,
    decreases n,
{
    if n > 0 {
        let rest = s.drop_first();
        assert(class.admits(s[0]));
        assert forall|i: int| 0 <= i < n - 1 implies class.admits(#[trigger] rest[i]) by {
            assert(rest[i] == s[i + 1]);
        }
        lemma_run_length_unique(rest, class, (n - 1) as nat);
    }
}

/// [`lemma_run_length`] for runs at the end of the sequence.
pub proof fn lemma_trailing_run_length(s: Seq<char>, class: CharClass)
    ensures
        trailing_run_length(s, class) <= s.len(),
        forall|i: int|
            s.len() - trailing_run_length(s, class) <= i < s.len() ==> class.admits(
                #[trigger] s[i],
            ),
        trailing_run_length(s, class) < s.len() ==> !class.admits(
            s[s.len() - trailing_run_length(s, class) - 1],
        ),
    decreases s.len(),
{
    if s.len() > 0 && class.admits(s.last()) {
        let rest = s.drop_last();
        lemma_trailing_run_length(rest, class);
        assert forall|i: int|
            s.len() - trailing_run_length(s, class) <= i < s.len() implies class.admits(
            #[trigger] s[i],
        ) by {
            if i < s.len() - 1 {
                assert(s[i] == rest[i]);
            }
        }
        if trailing_run_length(s, class) < s.len() {
            assert(s[s.len() - trailing_run_length(s, class) - 1] == rest[rest.len()
                - trailing_run_length(rest, class) - 1]);
        }
    }
}

/// [`lemma_run_length_unique`] for runs at the end of the sequence.
pub proof fn lemma_trailing_run_length_unique(s: Seq<char>, class: CharClass, n: nat)
    requires
        n <= s.len(),
        forall|i: int| s.len() - n <= i < s.len() ==> class.admits(#[trigger] s[i]),
        n < s.len() ==> !class.admits(s[s.len() - n - 1]),
    ensures
        trailing_run_length(s, class) == n,
    decreases n,
{
    if n > 0 {
        let rest = s.drop_last();
        assert(class.admits(s[s.len() - 1]));
        assert forall|i: int| rest.len() - (n - 1) <= i < rest.len() implies class.admits(
            #[trigger] rest[i],
        ) by {
            assert(rest[i] == s[i]);
        }
        if n - 1 < rest.len() {
            assert(rest[rest.len() - (n - 1) - 1] == s[s.len() - n - 1]);
        }
        lemma_trailing_run_length_unique(rest, class, (n - 1) as nat);
    }
}

/// The characters of `s`, one element each.
pub fn chars_of(s: &str) -> (chars: Vec<char>)
    ensures
        chars@ == s@,
{
    let mut chars: Vec<char> = Vec::new();
    for c in it: s.chars()
        invariant
            it.seq() == s@,
            chars@ == it.seq().take(it.index()),
    {
        chars.push(c);
    }
    assert(chars@ =~= s@);
    chars
}

/// The end of the run of `class` that starts at `from` and stays below `to`.
pub fn scan_run(chars: &[char], from: usize, to: usize, class: CharClass) -> (end: usize)
    requires
        from <= to <= chars@.len(),
    ensures
        from <= end <= to,
        end == from + run_length(chars@.subrange(from as int, to as int), class),
{
    let mut end = from;
    while end < to && class.test(chars[end])
        invariant
            from <= end <= to <= chars@.len(),
            forall|i: int| from <= i < end ==> class.admits(#[trigger] chars@[i]),
        decreases to - end,
    {
        end += 1;
    }
    proof {
        let window = chars@.subrange(from as int, to as int);
        assert forall|i: int| 0 <= i < end - from implies class.admits(#[trigger] window[i]) by {
            assert(window[i] == chars@[from + i]);
        }
        lemma_run_length_unique(window, class, (end - from) as nat);
    }
    end
}

/// The start of the run of `class` that ends at `to` and stays at or above `from`.
pub fn scan_run_back(chars: &[char], from: usize, to: usize, class: CharClass) -> (start: usize)
    requires
        from <= to <= chars@.len(),
    ensures
        from <= start <= to,
        start == to - trailing_run_length(chars@.subrange(from as int, to as int), class),
{
    let mut start = to;
    while start > from && class.test(chars[start - 1])
        invariant
            from <= start <= to <= chars@.len(),
            forall|i: int| start <= i < to ==> class.admits(#[trigger] chars@[i]),
        decreases start - from,
    {
        start -= 1;
    }
    proof {
        let window = chars@.subrange(from as int, to as int);
        assert forall|i: int| window.len() - (to - start) <= i < window.len() implies class.admits(
            #[trigger] window[i],
        ) by {
            assert(window[i] == chars@[from + i]);
        }
        lemma_trailing_run_length_unique(window, class, (to - start) as nat);
    }
    start
}

/// The bounds of [`trim`] of the window `from..to`.
pub fn trim_bounds(chars: &[char], from: usize, to: usize) -> (bounds: (usize, usize))
    requires
        from <= to <= chars@.len(),
    ensures
        from <= bounds.0 <= bounds.1 <= to,
        chars@.subrange(bounds.0 as int, bounds.1 as int) == trim(
            chars@.subrange(from as int, to as int),
        ),
{
    let start = scan_run(chars, from, to, CharClass::Whitespace);
    let end = scan_run_back(chars, start, to, CharClass::Whitespace);
    proof {
        let window = chars@.subrange(from as int, to as int);
        let rest = window.skip(start - from);
        assert(rest =~= chars@.subrange(start as int, to as int));
        assert(rest.take(end - start) =~= chars@.subrange(start as int, end as int));
    }
    (start, end)
}

/// The bounds of [`first_token`] of the window `from..to`.
pub fn first_token_bounds(chars: &[char], from: usize, to: usize) -> (bounds: (usize, usize))
    requires
        from <= to <= chars@.len(),
    ensures
        from <= bounds.0 <= bounds.1 <= to,
        chars@.subrange(bounds.0 as int, bounds.1 as int) == first_token(
            chars@.subrange(from as int, to as int),
        ),
{
    let start = scan_run(chars, from, to, CharClass::Whitespace);
    let end = scan_run(chars, start, to, CharClass::Word);
    proof {
        let window = chars@.subrange(from as int, to as int);
        let rest = window.skip(start - from);
        assert(rest =~= chars@.subrange(start as int, to as int));
        assert(rest.take(end - start) =~= chars@.subrange(start as int, end as int));
    }
    (start, end)
}

/// Whether `pattern` stands at index `at` of the window `from..to`, `at` counted
/// from the start of `chars`.
fn window_has_at(chars: &[char], to: usize, pattern: &[char], at: usize) -> (found: bool)
    requires
        at + pattern@.len() <= to <= chars@.len(),
    ensures
        found == (chars@.subrange(at as int, at + pattern@.len()) == pattern@),
{
    let mut k: usize = 0;
    while k < pattern.len()
        invariant
            k <= pattern@.len(),
            at + pattern@.len() <= to <= chars@.len(),
            forall|j: int| 0 <= j < k ==> chars@[at + j] == #[trigger] pattern@[j],
        decreases pattern@.len() - k,
    {
        if chars[at + k] != pattern[k] {
            assert(chars@.subrange(at as int, at + pattern@.len())[k as int] != pattern@[k as int]);
            return false;
        }
        k += 1;
    }
    assert(chars@.subrange(at as int, at + pattern@.len()) =~= pattern@);
    true
}

/// Whether the window `from..to` of `chars` contains `pattern`.
pub fn window_contains(chars: &[char], from: usize, to: usize, pattern: &[char]) -> (found: bool)
    requires
        from <= to <= chars@.len(),
    ensures
        found == contains(chars@.subrange(from as int, to as int), pattern@),
{
    let ghost window = chars@.subrange(from as int, to as int);
    if pattern.len() > to - from {
        assert forall|at: int| !occurs_at(window, pattern@, at) by {}
        return false;
    }
    let last = to - pattern.len();
    let mut at = from;
    loop
        invariant
            from <= at <= last,
            last + pattern@.len() == to,
            to <= chars@.len(),
            window == chars@.subrange(from as int, to as int),
            forall|i: int| 0 <= i < at - from ==> !occurs_at(window, pattern@, i),
        ensures
            at == last,
            forall|i: int| 0 <= i <= last - from ==> !occurs_at(window, pattern@, i),
        decreases last - at,
    {
        let here = window_has_at(chars, to, pattern, at);
        proof {
            assert(window.subrange(at - from, at - from + pattern@.len()) =~= chars@.subrange(
                at as int,
                at + pattern@.len(),
            ));
        }
        if here {
            assert(occurs_at(window, pattern@, at - from));
            return true;
        }
        if at == last {
            break;
        }
        at += 1;
    }
    assert forall|i: int| !occurs_at(window, pattern@, i) by {}
    false
}

} // verus!
