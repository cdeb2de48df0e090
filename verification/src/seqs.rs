//! Facts about sequences.

use vstd::prelude::*;

verus! {

/// How filtering a sequence grows with its next element.
pub proof fn lemma_filter_step<A>(s: Seq<A>, p: spec_fn(A) -> bool, i: int)
    requires
        0 <= i < s.len(),
    ensures
        s.take(i + 1).filter(p) == (if p(s[i]) {
            s.take(i).filter(p).push(s[i])
        } else {
            s.take(i).filter(p)
        }),
{
    reveal(Seq::filter);
    assert(s.take(i + 1).drop_last() =~= s.take(i));
    assert(s.take(i + 1).last() == s[i]);
}

/// Filtering nothing gives nothing.
pub proof fn lemma_filter_none<A>(s: Seq<A>, p: spec_fn(A) -> bool)
    ensures
        s.take(0).filter(p) == Seq::<A>::empty(),
        s.take(s.len() as int) == s,
{
    reveal(Seq::filter);
    assert(s.take(0) =~= Seq::<A>::empty());
    assert(s.take(s.len() as int) =~= s);
}

/// Filtering by a test that holds on one stretch alone gives that stretch.
pub proof fn lemma_filter_stretch<A>(s: Seq<A>, p: spec_fn(A) -> bool, i: int, j: int)
    requires
        0 <= i <= j <= s.len(),
        forall|k: int| 0 <= k < s.len() ==> (#[trigger] p(s[k]) <==> i <= k < j),
    ensures
        s.filter(p) == s.subrange(i, j),
    decreases s.len(),
{
    reveal(Seq::filter);
    if s.len() > 0 {
        let rest = s.drop_last();
        assert forall|k: int| 0 <= k < rest.len() implies (#[trigger] p(rest[k]) <==> i <= k < j) by {
            assert(rest[k] == s[k]);
        }
        let last = s.len() - 1;
        assert(p(s[last]) <==> i <= last < j);
        if j == s.len() && i < j {
            lemma_filter_stretch(rest, p, i, j - 1);
            assert(s.subrange(i, j) =~= rest.subrange(i, j - 1).push(s.last()));
        } else if j == s.len() {
            lemma_filter_stretch(rest, p, i - 1, j - 1);
            assert(s.subrange(i, j) =~= rest.subrange(i - 1, j - 1)) by {
                assert(i == j);
            }
        } else {
            lemma_filter_stretch(rest, p, i, j);
            assert(s.subrange(i, j) =~= rest.subrange(i, j));
        }
    } else {
        assert(s.subrange(i, j) =~= s);
    }
}

/// Whether the times of a sequence never go back.
pub open spec fn in_order<A>(s: Seq<A>, time: spec_fn(A) -> int) -> bool {
    forall|i: int, j: int| 0 <= i <= j < s.len() ==> time(#[trigger] s[i]) <= time(#[trigger] s[j])
}

/// The sequence with `x` put behind every element that is not later than it and
/// before the later ones that end the sequence.
pub open spec fn placed<A>(s: Seq<A>, x: A, time: spec_fn(A) -> int) -> Seq<A>
    decreases s.len(),
{
    if s.len() == 0 || time(s.last()) <= time(x) {
        s.push(x)
    } else {
        placed(s.drop_last(), x, time).push(s.last())
    }
}

/// The elements put into a sequence one after another.
pub open spec fn placed_all<A>(s: Seq<A>, xs: Seq<A>, time: spec_fn(A) -> int) -> Seq<A>
    decreases xs.len(),
{
    if xs.len() == 0 {
        s
    } else {
        placed(placed_all(s, xs.drop_last(), time), xs.last(), time)
    }
}

/// The elements by time; those of one time keep their order.
pub open spec fn arranged<A>(s: Seq<A>, time: spec_fn(A) -> int) -> Seq<A> {
    placed_all(Seq::empty(), s, time)
}

/// Where `placed` puts its element, for a sequence that is split by time at `n`.
pub proof fn lemma_placed_at<A>(s: Seq<A>, x: A, time: spec_fn(A) -> int, n: int)
    requires
        0 <= n <= s.len(),
        forall|i: int| 0 <= i < n ==> time(#[trigger] s[i]) <= time(x),
        forall|i: int| n <= i < s.len() ==> time(x) < time(#[trigger] s[i]),
    ensures
        placed(s, x, time) == s.insert(n, x),
    decreases s.len(),
{
    if n == s.len() {
        assert(s.insert(n, x) =~= s.push(x));
    } else {
        let rest = s.drop_last();
        assert(s.last() == s[s.len() - 1]);
        lemma_placed_at(rest, x, time, n);
        assert(s.insert(n, x) =~= rest.insert(n, x).push(s.last()));
    }
}

/// What `placed` keeps: the order in time and every element.
pub proof fn lemma_placed<A>(s: Seq<A>, x: A, time: spec_fn(A) -> int)
    ensures
        placed(s, x, time).len() == s.len() + 1,
        placed(s, x, time).to_multiset() == s.to_multiset().insert(x),
        in_order(s, time) ==> in_order(placed(s, x, time), time),
        forall|i: int| 0 <= i <= s.len() ==> s.contains(#[trigger] placed(s, x, time)[i])
            || placed(s, x, time)[i] == x,
    decreases s.len(),
{
    broadcast use vstd::seq_lib::group_to_multiset_ensures;

    let out = placed(s, x, time);
    if s.len() == 0 || time(s.last()) <= time(x) {
        assert(out == s.push(x));
        assert forall|i: int| 0 <= i <= s.len() implies s.contains(#[trigger] out[i]) || out[i] == x by {
            if i < s.len() {
                assert(out[i] == s[i]);
            }
        }
    } else {
        let rest = s.drop_last();
        let inner = placed(rest, x, time);
        lemma_placed(rest, x, time);
        assert(s =~= rest.push(s.last()));
        assert(s.to_multiset() == rest.to_multiset().insert(s.last()));
        assert(out.to_multiset() == inner.to_multiset().insert(s.last()));
        assert(rest.to_multiset().insert(x).insert(s.last())
            =~= rest.to_multiset().insert(s.last()).insert(x));
        assert forall|i: int| 0 <= i <= s.len() implies s.contains(#[trigger] out[i]) || out[i] == x by {
            if i < s.len() {
                assert(out[i] == inner[i]);
                if rest.contains(inner[i]) {
                    let k = choose|k: int| 0 <= k < rest.len() && rest[k] == inner[i];
                    assert(s[k] == inner[i]);
                }
            } else {
                assert(out[i] == s[s.len() - 1]);
            }
        }
        if in_order(s, time) {
            assert(in_order(rest, time)) by {
                assert forall|i: int, j: int| 0 <= i <= j < rest.len() implies time(
                    #[trigger] rest[i],
                ) <= time(#[trigger] rest[j]) by {
                    assert(rest[i] == s[i] && rest[j] == s[j]);
                }
            }
            assert forall|i: int, j: int| 0 <= i <= j < out.len() implies time(
                #[trigger] out[i],
            ) <= time(#[trigger] out[j]) by {
                if j < inner.len() {
                    assert(out[i] == inner[i] && out[j] == inner[j]);
                } else if i < inner.len() {
                    assert(out[i] == inner[i]);
                    if rest.contains(inner[i]) {
                        let k = choose|k: int| 0 <= k < rest.len() && rest[k] == inner[i];
                        assert(s[k] == inner[i]);
                        assert(time(s[k]) <= time(s[s.len() - 1]));
                    }
                }
            }
        }
    }
}

/// What putting elements in one after another keeps.
pub proof fn lemma_placed_all<A>(s: Seq<A>, xs: Seq<A>, time: spec_fn(A) -> int)
    ensures
        placed_all(s, xs, time).len() == s.len() + xs.len(),
        placed_all(s, xs, time).to_multiset() == s.to_multiset().add(xs.to_multiset()),
        in_order(s, time) ==> in_order(placed_all(s, xs, time), time),
    decreases xs.len(),
{
    broadcast use vstd::seq_lib::group_to_multiset_ensures;

    if xs.len() == 0 {
        assert(xs =~= Seq::<A>::empty());
        assert(s.to_multiset().add(xs.to_multiset()) =~= s.to_multiset());
    } else {
        let rest = xs.drop_last();
        lemma_placed_all(s, rest, time);
        lemma_placed(placed_all(s, rest, time), xs.last(), time);
        assert(xs =~= rest.push(xs.last()));
        assert(s.to_multiset().add(rest.to_multiset()).insert(xs.last())
            =~= s.to_multiset().add(rest.to_multiset().insert(xs.last())));
    }
}

/// One more element to put in.
pub proof fn lemma_placed_all_step<A>(s: Seq<A>, xs: Seq<A>, time: spec_fn(A) -> int, i: int)
    requires
        0 <= i < xs.len(),
    ensures
        placed_all(s, xs.take(i + 1), time) == placed(placed_all(s, xs.take(i), time), xs[i], time),
{
    assert(xs.take(i + 1).drop_last() =~= xs.take(i));
    assert(xs.take(i + 1).last() == xs[i]);
}

/// The sequences laid end to end.
pub open spec fn flat<A>(list: Seq<Seq<A>>) -> Seq<A>
    decreases list.len(),
{
    if list.len() == 0 {
        Seq::empty()
    } else {
        flat(list.drop_last()) + list.last()
    }
}

/// What is laid end to end in two parts is the two laid end to end.
pub proof fn lemma_flat_add<A>(a: Seq<Seq<A>>, b: Seq<Seq<A>>)
    ensures
        flat(a + b) == flat(a) + flat(b),
    decreases b.len(),
{
    if b.len() == 0 {
        assert(a + b =~= a);
        assert(flat(a) + flat(b) =~= flat(a));
    } else {
        lemma_flat_add(a, b.drop_last());
        assert((a + b).drop_last() =~= a + b.drop_last());
        assert((a + b).last() == b.last());
        assert((flat(a) + flat(b.drop_last())) + b.last() =~= flat(a) + (flat(b.drop_last())
            + b.last()));
    }
}

/// A sequence cut wherever the step from one time to the next exceeds `gap`.
pub open spec fn runs<A>(s: Seq<A>, time: spec_fn(A) -> int, gap: int) -> Seq<Seq<A>>
    decreases s.len(),
{
    if s.len() == 0 {
        Seq::empty()
    } else {
        let before = runs(s.drop_last(), time, gap);
        if before.len() > 0 && time(s.last()) - time(before.last().last()) <= gap {
            before.drop_last().push(before.last().push(s.last()))
        } else {
            before.push(seq![s.last()])
        }
    }
}

/// Whether no step within a run exceeds `gap`.
pub open spec fn is_close<A>(run: Seq<A>, time: spec_fn(A) -> int, gap: int) -> bool {
    forall|k: int| 0 < k < run.len() ==> time(#[trigger] run[k]) - time(run[k - 1]) <= gap
}

/// Whether the step from one run to the next exceeds `gap`.
pub open spec fn is_apart<A>(
    before: Seq<A>,
    after: Seq<A>,
    time: spec_fn(A) -> int,
    gap: int,
) -> bool {
    time(after[0]) - time(before.last()) > gap
}

/// What cutting into runs gives: the runs laid end to end are the sequence, none
/// is empty, no step within one exceeds the gap and every step between two does.
pub proof fn lemma_runs<A>(s: Seq<A>, time: spec_fn(A) -> int, gap: int)
    ensures
        flat(runs(s, time, gap)) == s,
        s.len() > 0 ==> runs(s, time, gap).len() > 0 && runs(s, time, gap).last().len() > 0
            && runs(s, time, gap).last().last() == s.last(),
        forall|r: int| 0 <= r < runs(s, time, gap).len() ==> (#[trigger] runs(s, time, gap)[r]).len() > 0
            && is_close(runs(s, time, gap)[r], time, gap),
        forall|r: int| 0 < r < runs(s, time, gap).len() ==> is_apart(
            runs(s, time, gap)[r - 1],
            #[trigger] runs(s, time, gap)[r],
            time,
            gap,
        ),
    decreases s.len(),
{
    if s.len() > 0 {
        let rest = s.drop_last();
        let before = runs(rest, time, gap);
        let out = runs(s, time, gap);
        lemma_runs(rest, time, gap);
        if before.len() > 0 && time(s.last()) - time(before.last().last()) <= gap {
            let grown = before.last().push(s.last());
            assert(out.drop_last() =~= before.drop_last());
            assert(flat(out) =~= flat(before).push(s.last()));
            assert(before.last() == before[before.len() - 1]);
            assert(is_close(grown, time, gap)) by {
                assert forall|k: int| 0 < k < grown.len() implies time(#[trigger] grown[k]) - time(
                    grown[k - 1],
                ) <= gap by {
                    if k < before.last().len() {
                        assert(grown[k] == before.last()[k]);
                        assert(grown[k - 1] == before.last()[k - 1]);
                    } else {
                        assert(grown[k - 1] == before.last().last());
                    }
                }
            }
            assert forall|r: int| 0 <= r < out.len() implies (#[trigger] out[r]).len() > 0 && is_close(
                out[r],
                time,
                gap,
            ) by {
                if r < out.len() - 1 {
                    assert(out[r] == before[r]);
                }
            }
            assert forall|r: int| 0 < r < out.len() implies is_apart(
                out[r - 1],
                #[trigger] out[r],
                time,
                gap,
            ) by {
                assert(out[r - 1] == before[r - 1]);
                if r < out.len() - 1 {
                    assert(out[r] == before[r]);
                } else {
                    assert(out[r][0] == before[r][0]);
                }
            }
        } else {
            assert(out.drop_last() =~= before);
            assert(flat(out) =~= flat(before).push(s.last()));
            assert forall|r: int| 0 <= r < out.len() implies (#[trigger] out[r]).len() > 0 && is_close(
                out[r],
                time,
                gap,
            ) by {
                if r < before.len() {
                    assert(out[r] == before[r]);
                }
            }
            assert forall|r: int| 0 < r < out.len() implies is_apart(
                out[r - 1],
                #[trigger] out[r],
                time,
                gap,
            ) by {
                assert(out[r - 1] == before[r - 1]);
                if r < before.len() {
                    assert(out[r] == before[r]);
                } else {
                    assert(before.last() == before[r - 1]);
                }
            }
        }
        assert(flat(out) =~= s);
    }
}

/// How the runs grow with the next element.
pub proof fn lemma_runs_step<A>(s: Seq<A>, time: spec_fn(A) -> int, gap: int, i: int)
    requires
        0 <= i < s.len(),
    ensures
        s.take(i + 1).drop_last() == s.take(i),
        s.take(i + 1).last() == s[i],
{
    assert(s.take(i + 1).drop_last() =~= s.take(i));
}

/// What is left of a sequence by a test is what passes it.
pub proof fn lemma_filter_members<A>(s: Seq<A>, p: spec_fn(A) -> bool)
    ensures
        forall|x: A| #[trigger] s.filter(p).contains(x) <==> s.contains(x) && p(x),
    decreases s.len(),
{
    reveal(Seq::filter);
    let kept = s.filter(p);
    if s.len() > 0 {
        let rest = s.drop_last();
        let last = s.last();
        lemma_filter_members(rest, p);
        assert(s =~= rest.push(last));
        assert forall|x: A| #[trigger] kept.contains(x) <==> s.contains(x) && p(x) by {
            if kept.contains(x) {
                let k = choose|k: int| 0 <= k < kept.len() && kept[k] == x;
                if p(last) && k == kept.len() - 1 {
                    assert(s[s.len() - 1] == x);
                } else {
                    assert(rest.filter(p)[k] == x);
                    assert(rest.filter(p).contains(x));
                    let j = choose|j: int| 0 <= j < rest.len() && rest[j] == x;
                    assert(s[j] == x);
                }
            }
            if s.contains(x) && p(x) {
                let j = choose|j: int| 0 <= j < s.len() && s[j] == x;
                if j == s.len() - 1 {
                    assert(kept[kept.len() - 1] == x);
                } else {
                    assert(rest[j] == x);
                    assert(rest.filter(p).contains(x));
                    let k = choose|k: int| 0 <= k < rest.filter(p).len() && rest.filter(p)[k] == x;
                    assert(kept[k] == x);
                }
            }
        }
    }
}

/// What is put into a sequence is in it afterwards, and nothing leaves it.
pub proof fn lemma_placed_members<A>(s: Seq<A>, xs: Seq<A>, time: spec_fn(A) -> int)
    ensures
        forall|x: A| #[trigger]
            placed_all(s, xs, time).contains(x) <==> s.contains(x) || xs.contains(x),
{
    broadcast use vstd::seq_lib::group_to_multiset_ensures;

    lemma_placed_all(s, xs, time);
    let all = placed_all(s, xs, time);
    assert forall|x: A| #[trigger] all.contains(x) <==> s.contains(x) || xs.contains(x) by {
        assert(all.contains(x) <==> all.to_multiset().count(x) > 0);
        assert(s.contains(x) <==> s.to_multiset().count(x) > 0);
        assert(xs.contains(x) <==> xs.to_multiset().count(x) > 0);
    }
}

} // verus!
