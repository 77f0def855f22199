//! Sequences from which marked elements are dropped, all sequences in step.

use vstd::prelude::*;

verus! {

/// The elements of `s` whose mark is not set, in their order. `marks` holds
/// one mark for each element of `s`.
pub open spec fn drop_marked<T>(s: Seq<T>, marks: Seq<bool>) -> Seq<T>
    decreases s.len(),
{
    if s.len() == 0 {
        Seq::empty()
    } else {
        let rest = drop_marked(s.skip(1), marks.skip(1));
        if marks.len() > 0 && marks[0] {
            rest
        } else {
            seq![s[0]] + rest
        }
    }
}

/// The first `cut` elements of `s`, then the unmarked elements of the rest.
pub open spec fn drop_marked_from<T>(s: Seq<T>, marks: Seq<bool>, cut: int) -> Seq<T> {
    s.take(cut) + drop_marked(s.skip(cut), marks.skip(cut))
}

/// Dropping the marked elements from the end of the sequence on changes
/// nothing, and from the start on drops them all.
pub proof fn lemma_drop_marked_from_ends<T>(s: Seq<T>, marks: Seq<bool>)
    requires
        marks.len() == s.len(),
    ensures
        drop_marked_from(s, marks, s.len() as int) == s,
        drop_marked_from(s, marks, 0) == drop_marked(s, marks),
{
    assert(s.take(s.len() as int) + drop_marked(s.skip(s.len() as int), marks.skip(s.len() as int))
        =~= s);
    assert(s.skip(0) =~= s);
    assert(marks.skip(0) =~= marks);
    assert(s.take(0) + drop_marked(s, marks) =~= drop_marked(s, marks));
}

/// Moving the cut one element down either removes that element, if it is
/// marked, or changes nothing.
pub proof fn lemma_drop_marked_from_step<T>(s: Seq<T>, marks: Seq<bool>, cut: int)
    requires
        marks.len() == s.len(),
        0 < cut <= s.len(),
    ensures
        drop_marked_from(s, marks, cut).len() >= cut,
        drop_marked_from(s, marks, cut - 1) == if marks[cut - 1] {
            drop_marked_from(s, marks, cut).remove(cut - 1)
        } else {
            drop_marked_from(s, marks, cut)
        },
{
    let tail = s.skip(cut - 1);
    let tail_marks = marks.skip(cut - 1);
    assert(tail.skip(1) =~= s.skip(cut));
    assert(tail_marks.skip(1) =~= marks.skip(cut));
    assert(tail[0] == s[cut - 1]);
    assert(tail_marks[0] == marks[cut - 1]);
    let rest = drop_marked(s.skip(cut), marks.skip(cut));
    if marks[cut - 1] {
        assert(drop_marked(tail, tail_marks) == rest);
        assert((s.take(cut) + rest).remove(cut - 1) =~= s.take(cut - 1) + rest);
    } else {
        assert(drop_marked(tail, tail_marks) == seq![s[cut - 1]] + rest);
        assert(s.take(cut) + rest =~= s.take(cut - 1) + (seq![s[cut - 1]] + rest));
    }
}

/// The number of unmarked elements among the first `i`.
pub open spec fn kept_before(marks: Seq<bool>, i: int) -> int
    decreases i,
{
    if i <= 0 || marks.len() == 0 {
        0
    } else {
        (if marks[0] {
            0int
        } else {
            1int
        }) + kept_before(marks.skip(1), i - 1)
    }
}

/// The position that the `p`-th unmarked element had before the marked ones
/// were dropped.
pub open spec fn origin_of(marks: Seq<bool>, p: int) -> int
    decreases marks.len(),
{
    if marks.len() == 0 {
        0
    } else if marks[0] {
        1 + origin_of(marks.skip(1), p)
    } else if p <= 0 {
        0
    } else {
        1 + origin_of(marks.skip(1), p - 1)
    }
}

/// How many elements are left depends on the marks alone.
pub proof fn lemma_drop_marked_len<S, T>(s: Seq<S>, t: Seq<T>, marks: Seq<bool>)
    requires
        s.len() == t.len(),
    ensures
        drop_marked(s, marks).len() == drop_marked(t, marks).len(),
        drop_marked(s, marks).len() <= s.len(),
    decreases s.len(),
{
    if s.len() > 0 {
        lemma_drop_marked_len(s.skip(1), t.skip(1), marks.skip(1));
    }
}

/// An unmarked element is still there, at the position that the number of
/// unmarked elements before it gives.
pub proof fn lemma_drop_marked_keeps<T>(s: Seq<T>, marks: Seq<bool>, i: int)
    requires
        marks.len() == s.len(),
        0 <= i < s.len(),
        !marks[i],
    ensures
        0 <= kept_before(marks, i) < drop_marked(s, marks).len(),
        drop_marked(s, marks)[kept_before(marks, i)] == s[i],
    decreases i,
{
    if i > 0 {
        lemma_drop_marked_keeps(s.skip(1), marks.skip(1), i - 1);
    }
}

/// Every element that is left was unmarked, and stood where `origin_of`
/// says.
pub proof fn lemma_drop_marked_origin<T>(s: Seq<T>, marks: Seq<bool>, p: int)
    requires
        marks.len() == s.len(),
        0 <= p < drop_marked(s, marks).len(),
    ensures
        0 <= origin_of(marks, p) < s.len(),
        !marks[origin_of(marks, p)],
        drop_marked(s, marks)[p] == s[origin_of(marks, p)],
    decreases s.len(),
{
    if marks[0] {
        lemma_drop_marked_origin(s.skip(1), marks.skip(1), p);
    } else if p > 0 {
        lemma_drop_marked_origin(s.skip(1), marks.skip(1), p - 1);
    }
}

/// Where nothing is marked, nothing is dropped.
pub proof fn lemma_drop_marked_none<T>(s: Seq<T>, marks: Seq<bool>)
    requires
        marks.len() == s.len(),
        forall|i: int| 0 <= i < marks.len() ==> !marks[i],
    ensures
        drop_marked(s, marks) == s,
    decreases s.len(),
{
    if s.len() > 0 {
        let rest = marks.skip(1);
        assert forall|i: int| 0 <= i < rest.len() implies !rest[i] by {
            assert(rest[i] == marks[i + 1]);
        }
        lemma_drop_marked_none(s.skip(1), rest);
        assert(seq![s[0]] + s.skip(1) =~= s);
    } else {
        assert(s =~= Seq::empty());
    }
}

} // verus!
