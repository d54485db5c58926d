//! The separator characters of a version string, and the two pure
//! transformations the normalization views are built from: replacing every
//! separator with a fixed target character, and deleting every separator.

use vstd::prelude::*;
use vstd::string::StrSliceExecFns;
use vstd::string::StringExecFns;

verus! {

/// The three characters the ecosystem uses interchangeably to delimit
/// version components.
pub open spec fn is_separator(c: char) -> bool {
    c == '.' || c == '_' || c == '-'
}

/// `s` with every separator replaced, character for character, by `target`.
/// No characters are inserted, dropped, or merged.
pub open spec fn replace_separators(s: Seq<char>, target: char) -> Seq<char> {
    Seq::new(s.len(), |i: int| if is_separator(s[i]) { target } else { s[i] })
}

/// `s` with every separator deleted, the remaining characters kept in order.
pub open spec fn strip_separators(s: Seq<char>) -> Seq<char>
    decreases s.len(),
{
    if s.len() == 0 {
        Seq::empty()
    } else if is_separator(s.last()) {
        strip_separators(s.drop_last())
    } else {
        strip_separators(s.drop_last()).push(s.last())
    }
}

/// Runtime test for a separator character.
pub fn is_separator_char(c: char) -> (r: bool)
    ensures
        r == is_separator(c),
{
    c == '.' || c == '_' || c == '-'
}

/// Replacement is strictly character for character: the result has exactly
/// the input's length, each separator becomes `target`, and every other
/// character stands unchanged at its old position. In particular runs of
/// consecutive separators are never collapsed.
pub proof fn lemma_replace_separators_pointwise(s: Seq<char>, target: char)
    ensures
        replace_separators(s, target).len() == s.len(),
        forall|i: int|
            0 <= i < s.len() ==> replace_separators(s, target)[i] == (if is_separator(s[i]) {
                target
            } else {
                s[i]
            }),
{
}

/// On a string that holds no separator at all, replacement is the identity.
pub proof fn lemma_replace_separators_identity(s: Seq<char>, target: char)
    requires
        forall|i: int| 0 <= i < s.len() ==> !is_separator(s[i]),
    ensures
        replace_separators(s, target) == s,
{
    assert(replace_separators(s, target) =~= s);
}

/// On a string that holds no separator at all, deletion is the identity.
pub proof fn lemma_strip_separators_identity(s: Seq<char>)
    requires
        forall|i: int| 0 <= i < s.len() ==> !is_separator(s[i]),
    ensures
        strip_separators(s) == s,
    decreases s.len(),
{
    if s.len() == 0 {
        assert(strip_separators(s) =~= s);
    } else {
        assert(forall|i: int|
            0 <= i < s.drop_last().len() ==> !is_separator(s.drop_last()[i]));
        lemma_strip_separators_identity(s.drop_last());
        assert(strip_separators(s) =~= s);
    }
}

/// Deletion removes every separator: no separator occurs in its result.
pub proof fn lemma_strip_separators_free(s: Seq<char>)
    ensures
        forall|i: int|
            0 <= i < strip_separators(s).len() ==> !is_separator(#[trigger] strip_separators(s)[i]),
    decreases s.len(),
{
    if s.len() > 0 {
        lemma_strip_separators_free(s.drop_last());
        if !is_separator(s.last()) {
            let r0 = strip_separators(s.drop_last());
            assert forall|i: int|
                0 <= i < strip_separators(s).len() implies !is_separator(
                #[trigger] strip_separators(s)[i],
            ) by {
                if i < r0.len() {
                    assert(strip_separators(s)[i] == r0[i]);
                } else {
                    assert(strip_separators(s)[i] == s.last());
                }
            }
        }
    }
}

/// A second replacement with the same target changes nothing.
pub proof fn lemma_replace_separators_idempotent(s: Seq<char>, target: char)
    ensures
        replace_separators(replace_separators(s, target), target) == replace_separators(s, target),
{
    assert(replace_separators(replace_separators(s, target), target) =~= replace_separators(
        s,
        target,
    ));
}

/// A second deletion changes nothing.
pub proof fn lemma_strip_separators_idempotent(s: Seq<char>)
    ensures
        strip_separators(strip_separators(s)) == strip_separators(s),
{
    lemma_strip_separators_free(s);
    lemma_strip_separators_identity(strip_separators(s));
}

/// Build the string whose view is `replace_separators(s@, target@[0])`.
/// `target` carries the replacement as a one-character string so that the
/// result can be assembled without re-encoding characters.
pub(crate) fn rewrite_separators(s: &str, target: &str) -> (r: String)
    requires
        target@.len() == 1,
    ensures
        r@ == replace_separators(s@, target@[0]),
{
    let n = s.unicode_len();
    let mut out = String::new();
    let mut i: usize = 0;
    while i < n
        invariant
            i <= n,
            n == s@.len(),
            target@.len() == 1,
            out@ == replace_separators(s@.take(i as int), target@[0]),
        decreases n - i,
    {
        let c = s.get_char(i);
        if is_separator_char(c) {
            out.append(target);
        } else {
            let piece = s.substring_char(i, i + 1);
            out.append(piece);
        }
        proof {
            assert(out@ =~= replace_separators(s@.take(i + 1 as int), target@[0]));
        }
        i = i + 1;
    }
    proof {
        assert(s@.take(n as int) =~= s@);
    }
    out
}

/// Build the string whose view is `strip_separators(s@)`.
pub(crate) fn remove_separators(s: &str) -> (r: String)
    ensures
        r@ == strip_separators(s@),
{
    let n = s.unicode_len();
    let mut out = String::new();
    let mut i: usize = 0;
    while i < n
        invariant
            i <= n,
            n == s@.len(),
            out@ == strip_separators(s@.take(i as int)),
        decreases n - i,
    {
        let c = s.get_char(i);
        if !is_separator_char(c) {
            let piece = s.substring_char(i, i + 1);
            out.append(piece);
        }
        proof {
            assert(s@.take(i + 1 as int).drop_last() =~= s@.take(i as int));
            assert(s@.take(i + 1 as int).last() == s@[i as int]);
        }
        i = i + 1;
    }
    proof {
        assert(s@.take(n as int) =~= s@);
    }
    out
}

} // verus!
