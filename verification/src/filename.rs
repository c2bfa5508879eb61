//! Splitting a file name at its last dot.

use vstd::prelude::*;
use vstd::string::*;

verus! {

/// Index of the last `'.'` in `name`, if it holds one.
pub open spec fn last_dot(name: Seq<char>) -> Option<int>
    decreases name.len(),
{
    if name.len() == 0 {
        None
    } else if name.last() == '.' {
        Some(name.len() - 1)
    } else {
        last_dot(name.drop_last())
    }
}

/// The part of `name` before its last dot; all of `name` where it has none.
pub open spec fn stem(name: Seq<char>) -> Seq<char> {
    match last_dot(name) {
        Some(p) => name.take(p),
        None => name,
    }
}

/// The part of `name` from its last dot on, the dot included; empty where
/// `name` has no dot.
pub open spec fn extension(name: Seq<char>) -> Seq<char> {
    match last_dot(name) {
        Some(p) => name.skip(p),
        None => Seq::empty(),
    }
}

/// What `last_dot` finds is a dot, and no dot comes after it.
pub proof fn lemma_last_dot(name: Seq<char>)
    ensures
        match last_dot(name) {
            Some(p) => 0 <= p < name.len() && name[p] == '.' && forall|j: int|
                p < j < name.len() ==> name[j] != '.',
            None => forall|j: int| 0 <= j < name.len() ==> name[j] != '.',
        },
    decreases name.len(),
{
    if name.len() > 0 && name.last() != '.' {
        let front = name.drop_last();
        lemma_last_dot(front);
        assert forall|j: int| 0 <= j < front.len() implies front[j] == name[j] by {}
    }
}

/// Stem and extension put together give the name back.
pub proof fn lemma_stem_extension(name: Seq<char>)
    ensures
        stem(name) + extension(name) == name,
{
    lemma_last_dot(name);
}

/// Whether two texts are the same.
pub fn same_text(a: &String, b: &String) -> (same: bool)
    ensures
        same == (a@ == b@),
{
    *a == *b
}

/// Position of the last dot of `name`, counted in characters.
pub fn find_last_dot(name: &str) -> (pos: Option<usize>)
    ensures
        match pos {
            Some(p) => last_dot(name@) == Some(p as int),
            None => last_dot(name@) is None,
        },
{
    let n: usize = name.unicode_len();
    let mut i: usize = n;
    assert(name@.take(n as int) =~= name@);
    while i > 0
        invariant
            i <= n,
            n == name@.len(),
            last_dot(name@) == last_dot(name@.take(i as int)),
        decreases i,
    {
        i = i - 1;
        let c = name.get_char(i);
        assert(name@.take(i + 1).drop_last() =~= name@.take(i as int));
        if c == '.' {
            return Some(i);
        }
    }
    None
}

/// Splits `name` into stem and extension.
pub fn split_extension(name: &str) -> (parts: (String, String))
    ensures
        parts.0@ == stem(name@),
        parts.1@ == extension(name@),
{
    let n: usize = name.unicode_len();
    match find_last_dot(name) {
        Some(p) => {
            proof {
                lemma_last_dot(name@);
            }
            let head = name.substring_char(0, p);
            let tail = name.substring_char(p, n);
            (String::from_str(head), String::from_str(tail))
        },
        None => (String::from_str(name), String::new()),
    }
}

} // verus!
