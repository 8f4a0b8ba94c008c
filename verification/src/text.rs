//! Text as sequences of characters: the searches and trims that the frame
//! reader, the request builder and the attachment classifier share.

use vstd::prelude::*;
use vstd::std_specs::iter::IteratorSpec;
use vstd::string::*;

verus! {

broadcast use vstd::string::group_string_axioms;

/// `s` holds two line feeds in a row at position `i`.
pub open spec fn blank_line_at(s: Seq<char>, i: int) -> bool {
    0 <= i && i + 1 < s.len() && s[i] == '\n' && s[i + 1] == '\n'
}

/// No blank line starts before position `n`.
pub open spec fn no_blank_line_before(s: Seq<char>, n: int) -> bool {
    forall|j: int| 0 <= j < n ==> !blank_line_at(s, j)
}

/// The characters that count as white space: the code points with the
/// Unicode property `White_Space`.
pub open spec fn is_space(c: char) -> bool {
    ||| ('\u{9}' <= c && c <= '\u{D}')
    ||| c == ' '
    ||| c == '\u{85}'
    ||| c == '\u{A0}'
    ||| c == '\u{1680}'
    ||| ('\u{2000}' <= c && c <= '\u{200A}')
    ||| c == '\u{2028}'
    ||| c == '\u{2029}'
    ||| c == '\u{202F}'
    ||| c == '\u{205F}'
    ||| c == '\u{3000}'
}

/// How many white-space characters `s` begins with.
pub open spec fn leading_space(s: Seq<char>) -> nat
    decreases s.len(),
{
    if s.len() > 0 && is_space(s[0]) {
        1 + leading_space(s.skip(1))
    } else {
        0
    }
}

/// `s` without the white space it begins with.
pub open spec fn without_leading_space(s: Seq<char>) -> Seq<char> {
    s.skip(leading_space(s) as int)
}

/// `s` after `pattern` has been taken from its front as often as it stands
/// there. An empty pattern takes nothing.
pub open spec fn without_leading(s: Seq<char>, pattern: Seq<char>) -> Seq<char>
    decreases s.len(),
{
    if pattern.len() > 0 && pattern.is_prefix_of(s) {
        without_leading(s.skip(pattern.len() as int), pattern)
    } else {
        s
    }
}

/// How many times in a row `c` stands at the end of `s`.
pub open spec fn trailing_run(s: Seq<char>, c: char) -> nat
    decreases s.len(),
{
    if s.len() > 0 && s.last() == c {
        1 + trailing_run(s.drop_last(), c)
    } else {
        0
    }
}

/// `s` without the run of `c` it ends with.
pub open spec fn without_trailing(s: Seq<char>, c: char) -> Seq<char> {
    s.take(s.len() - trailing_run(s, c))
}

/// A sequence that begins with `n` white-space characters and then holds
/// something else, or ends, begins with exactly `n` of them.
pub proof fn lemma_leading_space_is(s: Seq<char>, n: nat)
    requires
        n <= s.len(),
        forall|j: int| 0 <= j < n ==> is_space(#[trigger] s[j]),
        n < s.len() ==> !is_space(s[n as int]),
    ensures
        leading_space(s) == n,
    decreases n,
{
    if n > 0 {
        let rest = s.skip(1);
        assert forall|j: int| 0 <= j < n - 1 implies is_space(#[trigger] rest[j]) by {
            assert(rest[j] == s[j + 1]);
        }
        lemma_leading_space_is(rest, (n - 1) as nat);
    }
}

/// A sequence whose last `n` characters are `c`, and not the one before
/// them, ends with a run of exactly `n`.
pub proof fn lemma_trailing_run_is(s: Seq<char>, c: char, n: nat)
    requires
        n <= s.len(),
        forall|j: int| s.len() - n <= j < s.len() ==> #[trigger] s[j] == c,
        n < s.len() ==> s[s.len() - n - 1] != c,
    ensures
        trailing_run(s, c) == n,
    decreases n,
{
    if n > 0 {
        let rest = s.drop_last();
        assert forall|j: int| rest.len() - (n - 1) <= j < rest.len() implies #[trigger] rest[j]
            == c by {
            assert(rest[j] == s[j]);
        }
        lemma_trailing_run_is(rest, c, (n - 1) as nat);
    }
}

/// Whether `c` is a white-space character.
pub fn is_whitespace(c: char) -> (b: bool)
    ensures
        b == is_space(c),
{
    ('\u{9}' <= c && c <= '\u{D}') || c == ' ' || c == '\u{85}' || c == '\u{A0}' || c
        == '\u{1680}' || ('\u{2000}' <= c && c <= '\u{200A}') || c == '\u{2028}' || c
        == '\u{2029}' || c == '\u{202F}' || c == '\u{205F}' || c == '\u{3000}'
}

/// Position of the first blank line of `s`, if it has one.
pub fn find_blank_line(s: &str) -> (found: Option<usize>)
    ensures
        match found {
            Some(i) => blank_line_at(s@, i as int) && no_blank_line_before(s@, i as int),
            None => no_blank_line_before(s@, s@.len() as int),
        },
{
    let len: usize = s.unicode_len();
    let mut chars = s.chars();
    let mut i: usize = 0;
    let mut after_line_feed: bool = false;
    loop
        invariant
            len == s@.len(),
            i <= len,
            chars.remaining() == s@.skip(i as int),
            after_line_feed <==> (i > 0 && s@[i - 1] == '\n'),
            no_blank_line_before(s@, i as int - 1),
        decreases len - i,
    {
        match chars.next() {
            None => {
                return None;
            },
            Some(c) => {
                if after_line_feed && c == '\n' {
                    return Some((i - 1) as usize);
                }
                after_line_feed = c == '\n';
                i = i + 1;
            },
        }
    }
}

/// Whether `s` begins with `prefix`.
pub fn starts_with(s: &str, prefix: &str) -> (b: bool)
    ensures
        b == prefix@.is_prefix_of(s@),
{
    let mut rest = s.chars();
    let mut wanted = prefix.chars();
    let ghost mut i: int = 0;
    loop
        invariant
            0 <= i <= s@.len(),
            i <= prefix@.len(),
            rest.remaining() == s@.skip(i),
            wanted.remaining() == prefix@.skip(i),
            forall|j: int| 0 <= j < i ==> s@[j] == prefix@[j],
        decreases prefix@.len() - i,
    {
        match wanted.next() {
            None => {
                assert(prefix@ =~= s@.subrange(0, prefix@.len() as int));
                return true;
            },
            Some(p) => {
                match rest.next() {
                    None => {
                        return false;
                    },
                    Some(c) => {
                        if c != p {
                            proof {
                                if prefix@.len() <= s@.len() {
                                    assert(s@.subrange(0, prefix@.len() as int)[i] == s@[i]);
                                }
                            }
                            return false;
                        }
                        proof {
                            i = i + 1;
                        }
                    },
                }
            },
        }
    }
}

/// Whether `a` and `b` hold the same characters.
pub fn same_text(a: &str, b: &str) -> (same: bool)
    ensures
        same == (a@ == b@),
{
    let forth = starts_with(a, b);
    let back = starts_with(b, a);
    proof {
        if forth && back {
            assert(a@ =~= b@);
        }
    }
    forth && back
}

/// `s` from its `n`-th character on.
pub fn skip_chars<'a>(s: &'a str, n: usize) -> (rest: &'a str)
    requires
        n <= s@.len(),
    ensures
        rest@ == s@.skip(n as int),
{
    let len: usize = s.unicode_len();
    s.substring_char(n, len)
}

/// The first `n` characters of `s`.
pub fn take_chars<'a>(s: &'a str, n: usize) -> (front: &'a str)
    requires
        n <= s@.len(),
    ensures
        front@ == s@.take(n as int),
{
    s.substring_char(0, n)
}

/// `s` without the white space it begins with.
pub fn trim_start<'a>(s: &'a str) -> (rest: &'a str)
    ensures
        rest@ == without_leading_space(s@),
{
    let len: usize = s.unicode_len();
    let mut chars = s.chars();
    let mut n: usize = 0;
    loop
        invariant
            len == s@.len(),
            n <= len,
            chars.remaining() == s@.skip(n as int),
            forall|j: int| 0 <= j < n ==> is_space(#[trigger] s@[j]),
        decreases len - n,
    {
        match chars.next() {
            None => {
                proof {
                    lemma_leading_space_is(s@, n as nat);
                }
                return skip_chars(s, n);
            },
            Some(c) => {
                if !is_whitespace(c) {
                    proof {
                        lemma_leading_space_is(s@, n as nat);
                    }
                    return skip_chars(s, n);
                }
                n = n + 1;
            },
        }
    }
}

/// `s` after `pattern` has been taken from its front as often as it stands
/// there.
pub fn strip_repeated<'a>(s: &'a str, pattern: &str) -> (rest: &'a str)
    ensures
        rest@ == without_leading(s@, pattern@),
{
    let width: usize = pattern.unicode_len();
    if width == 0 {
        return s;
    }
    let mut rest: &'a str = s;
    while starts_with(rest, pattern)
        invariant
            width == pattern@.len(),
            width > 0,
            without_leading(rest@, pattern@) == without_leading(s@, pattern@),
        decreases rest@.len(),
    {
        rest = skip_chars(rest, width);
    }
    rest
}

/// `s` without the run of `c` it ends with.
pub fn trim_end_char<'a>(s: &'a str, c: char) -> (front: &'a str)
    ensures
        front@ == without_trailing(s@, c),
{
    let len: usize = s.unicode_len();
    let mut chars = s.chars();
    let mut i: usize = 0;
    let mut run: usize = 0;
    loop
        invariant
            len == s@.len(),
            i <= len,
            run <= i,
            chars.remaining() == s@.skip(i as int),
            forall|j: int| i - run <= j < i ==> #[trigger] s@[j] == c,
            run < i ==> s@[i - run - 1] != c,
        decreases len - i,
    {
        match chars.next() {
            None => {
                proof {
                    lemma_trailing_run_is(s@, c, run as nat);
                }
                return take_chars(s, len - run);
            },
            Some(d) => {
                if d == c {
                    run = run + 1;
                } else {
                    run = 0;
                }
                i = i + 1;
            },
        }
    }
}

} // verus!
