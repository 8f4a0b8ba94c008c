//! The file name and the extension of a path, as paths are written with
//! slashes between their parts.

use crate::text::{same_text, skip_chars, take_chars};
use vstd::prelude::*;
use vstd::std_specs::iter::IteratorSpec;
use vstd::string::*;

verus! {

broadcast use vstd::string::group_string_axioms;

/// Position of the last `c` in `s`; `-1` where `s` holds none.
pub open spec fn last_index(s: Seq<char>, c: char) -> int
    decreases s.len(),
{
    if s.len() == 0 {
        -1
    } else if s.last() == c {
        s.len() - 1
    } else {
        last_index(s.drop_last(), c)
    }
}

/// The file name of a path: its last part, where parts that are empty or a
/// single dot do not count; none where that part is two dots, and none
/// where no part counts.
pub open spec fn file_name(path: Seq<char>) -> Option<Seq<char>>
    decreases path.len(),
{
    if path.len() == 0 {
        None
    } else {
        let slash = last_index(path, '/');
        let name = path.skip(slash + 1);
        if name.len() == 0 || name == seq!['.'] {
            if 0 <= slash < path.len() {
                file_name(path.take(slash))
            } else {
                None
            }
        } else if name == seq!['.', '.'] {
            None
        } else {
            Some(name)
        }
    }
}

/// The extension of a path: what stands behind the last dot of its file
/// name; none where the file name has no dot, or only the one it begins
/// with.
pub open spec fn extension(path: Seq<char>) -> Option<Seq<char>> {
    match file_name(path) {
        Some(name) => if last_index(name, '.') > 0 {
            Some(name.skip(last_index(name, '.') + 1))
        } else {
            None
        },
        None => None,
    }
}

/// The last `c` of a sequence stands in it, and no `c` stands behind it.
pub proof fn lemma_last_index(s: Seq<char>, c: char)
    ensures
        -1 <= last_index(s, c) < s.len(),
        last_index(s, c) >= 0 ==> s[last_index(s, c)] == c,
        forall|j: int| last_index(s, c) < j < s.len() ==> s[j] != c,
    decreases s.len(),
{
    if s.len() > 0 && s.last() != c {
        lemma_last_index(s.drop_last(), c);
        assert forall|j: int| last_index(s, c) < j < s.len() implies s[j] != c by {
            if j < s.len() - 1 {
                assert(s.drop_last()[j] == s[j]);
            }
        }
    }
}

/// Position of the last `c` in `s`.
pub fn last_index_of(s: &str, c: char) -> (found: Option<usize>)
    ensures
        match found {
            Some(i) => i == last_index(s@, c) && i < s@.len() <= usize::MAX,
            None => last_index(s@, c) == -1,
        },
{
    let len: usize = s.unicode_len();
    let mut chars = s.chars();
    let mut i: usize = 0;
    let mut found: Option<usize> = None;
    assert(s@.take(0) =~= Seq::<char>::empty());
    loop
        invariant
            len == s@.len(),
            i <= len,
            chars.remaining() == s@.skip(i as int),
            match found {
                Some(k) => k == last_index(s@.take(i as int), c),
                None => last_index(s@.take(i as int), c) == -1,
            },
        decreases len - i,
    {
        match chars.next() {
            None => {
                assert(s@.take(i as int) =~= s@);
                proof {
                    lemma_last_index(s@, c);
                }
                return found;
            },
            Some(d) => {
                assert(s@.take(i + 1).drop_last() =~= s@.take(i as int));
                assert(s@.take(i + 1).last() == d);
                if d == c {
                    found = Some(i);
                }
                i = i + 1;
            },
        }
    }
}

/// The file name of a path.
pub fn file_name_of<'a>(path: &'a str) -> (name: Option<&'a str>)
    ensures
        name.deep_view() == file_name(path@),
{
    let mut rest: &'a str = path;
    loop
        invariant
            file_name(rest@) == file_name(path@),
        decreases rest@.len(),
    {
        if rest.is_empty() {
            return None;
        }
        proof {
            lemma_last_index(rest@, '/');
            reveal_strlit(".");
            reveal_strlit("..");
            assert("."@ =~= seq!['.']);
            assert(".."@ =~= seq!['.', '.']);
        }
        let slash = last_index_of(rest, '/');
        let name = match slash {
            Some(i) => skip_chars(rest, i + 1),
            None => {
                assert(rest@.skip(0) =~= rest@);
                rest
            },
        };
        if name.is_empty() || same_text(name, ".") {
            match slash {
                Some(i) => {
                    rest = take_chars(rest, i);
                },
                None => {
                    return None;
                },
            }
        } else if same_text(name, "..") {
            return None;
        } else {
            return Some(name);
        }
    }
}

/// The extension of a path.
pub fn extension_of<'a>(path: &'a str) -> (found: Option<&'a str>)
    ensures
        found.deep_view() == extension(path@),
{
    match file_name_of(path) {
        Some(name) => {
            proof {
                lemma_last_index(name@, '.');
            }
            match last_index_of(name, '.') {
                Some(dot) => if dot > 0 {
                    Some(skip_chars(name, dot + 1))
                } else {
                    None
                },
                None => None,
            }
        },
        None => None,
    }
}

} // verus!
