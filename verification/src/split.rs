//! Splitting a version string on the literal dot character. Structured
//! parsing works on these segments directly: the dot is the canonical
//! separator for decomposition even though display conventions vary.

use vstd::prelude::*;
use vstd::string::StrSliceExecFns;

verus! {

/// The segments of `s` delimited by `'.'`, in order. As with the usual
/// split convention, an empty string yields one empty segment, and each
/// dot separates two (possibly empty) segments: `n` dots yield `n + 1`
/// segments.
pub open spec fn dot_split(s: Seq<char>) -> Seq<Seq<char>>
    decreases s.len(),
{
    if s.len() == 0 {
        seq![Seq::<char>::empty()]
    } else if s[0] == '.' {
        seq![Seq::<char>::empty()] + dot_split(s.skip(1))
    } else {
        let rest = dot_split(s.skip(1));
        seq![seq![s[0]] + rest[0]] + rest.skip(1)
    }
}

/// A split always yields at least one segment.
pub proof fn lemma_dot_split_len(s: Seq<char>)
    ensures
        dot_split(s).len() >= 1,
    decreases s.len(),
{
    if s.len() > 0 {
        lemma_dot_split_len(s.skip(1));
    }
}

/// Peeling off the first segment: if `j` is the index of the first dot of
/// `s` (or `s.len()` if `s` has none), the split is the text before `j`
/// followed by the split of the text after `j`.
pub proof fn lemma_dot_split_step(s: Seq<char>, j: int)
    requires
        0 <= j <= s.len(),
        forall|i: int| 0 <= i < j ==> s[i] != '.',
        j < s.len() ==> s[j] == '.',
    ensures
        j == s.len() ==> dot_split(s) == seq![s],
        j < s.len() ==> dot_split(s) == seq![s.take(j)] + dot_split(s.skip(j + 1)),
    decreases j,
{
    lemma_dot_split_len(s);
    if j == 0 {
        if s.len() == 0 {
            assert(s =~= Seq::<char>::empty());
            assert(dot_split(s) =~= seq![s]);
        } else {
            assert(s[0] == '.');
            assert(s.take(j) =~= Seq::<char>::empty());
            assert(s.skip(1) =~= s.skip(j + 1));
            assert(dot_split(s) =~= seq![s.take(j)] + dot_split(s.skip(j + 1)));
        }
    } else {
        assert(s[0] != '.');
        let t = s.skip(1);
        assert forall|i: int| 0 <= i < j - 1 implies t[i] != '.' by {
            assert(t[i] == s[i + 1]);
        }
        if j - 1 < t.len() {
            assert(t[j - 1] == s[j]);
        }
        lemma_dot_split_step(t, j - 1);
        let rest = dot_split(t);
        lemma_dot_split_len(t);
        if j == s.len() {
            assert(rest == seq![t]);
            assert(seq![s[0]] + rest[0] =~= s);
            assert(rest.skip(1) =~= Seq::<Seq<char>>::empty());
            assert(dot_split(s) =~= seq![s]);
        } else {
            assert(rest == seq![t.take(j - 1)] + dot_split(t.skip(j)));
            assert(rest[0] == t.take(j - 1));
            assert(seq![s[0]] + rest[0] =~= s.take(j));
            assert(rest.skip(1) =~= seq![dot_split(t.skip(j))[0]] + dot_split(t.skip(j)).skip(1))
                by {
                lemma_dot_split_len(t.skip(j));
            }
            assert(rest.skip(1) =~= dot_split(t.skip(j))) by {
                lemma_dot_split_len(t.skip(j));
            }
            assert(t.skip(j) =~= s.skip(j + 1));
            assert(dot_split(s) =~= seq![s.take(j)] + dot_split(s.skip(j + 1)));
        }
    }
}

/// The segments re-joined with a single dot between each pair.
pub open spec fn dot_join(segs: Seq<Seq<char>>) -> Seq<char>
    decreases segs.len(),
{
    if segs.len() == 0 {
        Seq::empty()
    } else if segs.len() == 1 {
        segs[0]
    } else {
        segs[0] + seq!['.'] + dot_join(segs.skip(1))
    }
}

/// No segment of a split contains a dot: every dot of the input became a
/// boundary.
pub proof fn lemma_dot_split_segments_dot_free(s: Seq<char>)
    ensures
        forall|k: int, i: int|
            0 <= k < dot_split(s).len() && 0 <= i < dot_split(s)[k].len() ==> (
            #[trigger] dot_split(s)[k][i]) != '.',
    decreases s.len(),
{
    if s.len() == 0 {
    } else if s[0] == '.' {
        lemma_dot_split_segments_dot_free(s.skip(1));
        let rest = dot_split(s.skip(1));
        assert forall|k: int, i: int|
            0 <= k < dot_split(s).len() && 0 <= i < dot_split(s)[k].len() implies (
        #[trigger] dot_split(s)[k][i]) != '.' by {
            if k > 0 {
                assert(dot_split(s)[k] == rest[k - 1]);
            }
        }
    } else {
        lemma_dot_split_segments_dot_free(s.skip(1));
        let rest = dot_split(s.skip(1));
        lemma_dot_split_len(s.skip(1));
        assert forall|k: int, i: int|
            0 <= k < dot_split(s).len() && 0 <= i < dot_split(s)[k].len() implies (
        #[trigger] dot_split(s)[k][i]) != '.' by {
            if k == 0 {
                if i == 0 {
                    assert(dot_split(s)[0][0] == s[0]);
                } else {
                    assert(dot_split(s)[0][i] == rest[0][i - 1]);
                }
            } else {
                assert(dot_split(s)[k] == rest.skip(1)[k - 1]);
                assert(rest.skip(1)[k - 1] == rest[k]);
            }
        }
    }
}

/// Splitting loses nothing: re-joining the segments with dots gives back
/// exactly the input.
pub proof fn lemma_dot_split_join(s: Seq<char>)
    ensures
        dot_join(dot_split(s)) == s,
    decreases s.len(),
{
    if s.len() == 0 {
        assert(dot_join(dot_split(s)) =~= s);
    } else if s[0] == '.' {
        lemma_dot_split_join(s.skip(1));
        let rest = dot_split(s.skip(1));
        lemma_dot_split_len(s.skip(1));
        let segs = seq![Seq::<char>::empty()] + rest;
        assert(segs.skip(1) =~= rest);
        assert(dot_join(segs) =~= s);
    } else {
        lemma_dot_split_join(s.skip(1));
        let rest = dot_split(s.skip(1));
        lemma_dot_split_len(s.skip(1));
        let segs = seq![seq![s[0]] + rest[0]] + rest.skip(1);
        if rest.len() == 1 {
            assert(dot_join(rest) == rest[0]);
            assert(segs.len() == 1);
            assert(dot_join(segs) == segs[0]);
            assert(dot_join(segs) =~= s);
        } else {
            assert(segs.len() >= 2);
            assert(segs.skip(1) =~= rest.skip(1));
            assert(dot_join(rest) == rest[0] + seq!['.'] + dot_join(rest.skip(1)));
            assert(dot_join(segs) == segs[0] + seq!['.'] + dot_join(segs.skip(1)));
            assert(dot_join(segs) =~= seq![s[0]] + dot_join(rest));
            assert(seq![s[0]] + dot_join(rest) =~= s);
        }
    }
}

/// The character index of the first `'.'` at or after `from`, or the
/// length of `s` if no dot follows.
pub(crate) fn find_dot(s: &str, from: usize) -> (r: usize)
    requires
        from <= s@.len(),
    ensures
        from <= r <= s@.len(),
        forall|i: int| from <= i < r ==> s@[i] != '.',
        r < s@.len() ==> s@[r as int] == '.',
{
    let n = s.unicode_len();
    let mut i: usize = from;
    while i < n
        invariant
            from <= i <= n,
            n == s@.len(),
            forall|k: int| from <= k < i ==> s@[k] != '.',
        decreases n - i,
    {
        let c = s.get_char(i);
        if c == '.' {
            return i;
        }
        i = i + 1;
    }
    n
}

} // verus!
