//! Ending a stream of text before a stop marker.

use vstd::prelude::*;

use crate::text::{
    earliest, ends, find_earliest, lemma_earliest, lemma_nonempty_members, nonempty, skip,
    stands_at, starts, take, texts,
};

verus! {

/// What a [`StopDetector`] lets through.
#[derive(Debug, PartialEq, Eq)]
pub struct StopDetection {
    /// The text to emit.
    pub text: String,
    /// Whether a marker was met.
    pub stopped: bool,
}

/// Whether the last `n` characters of `s` are how one of `stops` begins.
pub open spec fn begins_stop(s: Seq<char>, stops: Seq<Seq<char>>, n: int) -> bool {
    exists|k: int|
        0 <= k < stops.len() && n <= (#[trigger] stops[k]).len() && ends(s, stops[k].take(n))
}

/// The most characters, `n` at most, by which `s` ends in how a marker begins.
pub open spec fn held_upto(s: Seq<char>, stops: Seq<Seq<char>>, n: nat) -> nat
    decreases n,
{
    if n == 0 || begins_stop(s, stops, n as int) {
        n
    } else {
        held_upto(s, stops, (n - 1) as nat)
    }
}

/// How many characters at the end of `s` may yet turn into a marker.
pub open spec fn held(s: Seq<char>, stops: Seq<Seq<char>>) -> nat {
    held_upto(s, stops, s.len())
}

/// The state of a stream: what was let through, whether a marker was met, and
/// what is held back.
pub ghost struct Stream {
    pub emitted: Seq<char>,
    pub stopped: bool,
    pub pending: Seq<char>,
}

/// What one more text does to what is held back: the text let through, whether a
/// marker was met, and what is held back then.
pub open spec fn pushed(stops: Seq<Seq<char>>, pending: Seq<char>, text: Seq<char>) -> Stream {
    let all = pending + text;
    let at = earliest(all, stops);
    if stops.len() == 0 {
        Stream { emitted: text, stopped: false, pending }
    } else if at < all.len() {
        Stream { emitted: all.take(at), stopped: true, pending: Seq::empty() }
    } else {
        let kept = all.len() - held(all, stops);
        Stream { emitted: all.take(kept), stopped: false, pending: all.skip(kept) }
    }
}

/// A stream of texts, up to the first marker.
pub open spec fn streamed(stops: Seq<Seq<char>>, parts: Seq<Seq<char>>) -> Stream
    decreases parts.len(),
{
    if parts.len() == 0 {
        Stream { emitted: Seq::empty(), stopped: false, pending: Seq::empty() }
    } else {
        let before = streamed(stops, parts.drop_last());
        if before.stopped {
            before
        } else {
            let next = pushed(stops, before.pending, parts.last());
            Stream { emitted: before.emitted + next.emitted, ..next }
        }
    }
}

/// The texts of a stream laid end to end, up to the one in which the first
/// marker is met.
pub open spec fn heard(stops: Seq<Seq<char>>, parts: Seq<Seq<char>>) -> Seq<char>
    decreases parts.len(),
{
    if parts.len() == 0 {
        Seq::empty()
    } else if streamed(stops, parts.drop_last()).stopped {
        heard(stops, parts.drop_last())
    } else {
        heard(stops, parts.drop_last()) + parts.last()
    }
}

/// Lets text through up to the first of some markers, holding back what may yet
/// turn into one.
#[derive(Debug)]
pub struct StopDetector {
    stops: Vec<String>,
    pending: String,
}

impl StopDetector {
    /// The markers.
    pub closed spec fn stops(&self) -> Seq<Seq<char>> {
        texts(self.stops@)
    }

    /// What is held back.
    pub closed spec fn pending(&self) -> Seq<char> {
        self.pending@
    }

    /// A detector of those markers that are not empty.
    pub fn new(stops: Vec<String>) -> (r: StopDetector)
        ensures
            r.stops() == nonempty(texts(stops@)),
            r.pending() == Seq::<char>::empty(),
    {
        let ghost all = texts(stops@);
        let mut kept: Vec<String> = Vec::new();
        let mut i: usize = 0;
        assert(all.take(0) =~= Seq::<Seq<char>>::empty());
        assert(texts(kept@) =~= nonempty(all.take(0)));
        while i < stops.len()
            invariant
                i <= stops@.len(),
                all == texts(stops@),
                texts(kept@) == nonempty(all.take(i as int)),
            decreases stops@.len() - i,
        {
            let stop = stops[i].clone();
            proof {
                assert(all.take(i + 1).drop_last() =~= all.take(i as int));
                assert(all.take(i + 1).last() == stop@);
            }
            let empty = stop.as_str().unicode_len() == 0;
            if !empty {
                let ghost before = kept@;
                kept.push(stop);
                assert(texts(kept@) =~= texts(before).push(stop@));
            }
            i += 1;
        }
        assert(all.take(i as int) =~= all);
        StopDetector { stops: kept, pending: String::new() }
    }

    /// Takes the next text of the stream.
    pub fn push(&mut self, text: &str) -> (r: StopDetection)
        ensures
            final(self).stops() == old(self).stops(),
            r.text@ == pushed(old(self).stops(), old(self).pending(), text@).emitted,
            r.stopped == pushed(old(self).stops(), old(self).pending(), text@).stopped,
            final(self).pending() == pushed(old(self).stops(), old(self).pending(), text@).pending,
    {
        if self.stops.len() == 0 {
            return StopDetection { text: text.to_owned(), stopped: false };
        }
        let mut all = self.pending.clone();
        all.push_str(text);
        let len: usize = all.as_str().unicode_len();
        let at: usize = find_earliest(all.as_str(), &self.stops);
        if at < len {
            self.pending = String::new();
            return StopDetection { text: take(all.as_str(), at).to_owned(), stopped: true };
        }
        let keep: usize = self.longest_stop_prefix_suffix_len(all.as_str());
        self.pending = skip(all.as_str(), len - keep).to_owned();
        StopDetection { text: take(all.as_str(), len - keep).to_owned(), stopped: false }
    }

    /// Ends the stream and gives out what was held back.
    pub fn finish(&mut self) -> (text: String)
        ensures
            text@ == old(self).pending(),
            final(self).pending() == Seq::<char>::empty(),
            final(self).stops() == old(self).stops(),
    {
        let text = self.pending.clone();
        self.pending = String::new();
        text
    }

    /// Tells whether the last `n` characters are how a marker begins.
    fn is_stop_start(&self, s: &str, n: usize) -> (r: bool)
        requires
            n <= s@.len(),
        ensures
            r == begins_stop(s@, self.stops(), n as int),
    {
        let len: usize = s.unicode_len();
        let tail = skip(s, len - n);
        let mut k: usize = 0;
        while k < self.stops.len()
            invariant
                k <= self.stops@.len(),
                n <= s@.len(),
                tail@ == s@.skip(s@.len() - n),
                forall|j: int|
                    0 <= j < k ==> !(n <= (#[trigger] self.stops()[j]).len() && ends(
                        s@,
                        self.stops()[j].take(n as int),
                    )),
            decreases self.stops@.len() - k,
        {
            let stop = self.stops[k].as_str();
            assert(self.stops()[k as int] == stop@);
            if n <= stop.unicode_len() {
                let start = take(stop, n);
                assert(s@.subrange(s@.len() - n, s@.len() - n + n) =~= tail@);
                if crate::text::same(start, tail) {
                    assert(ends(s@, self.stops()[k as int].take(n as int)));
                    return true;
                }
            }
            k += 1;
        }
        false
    }

    /// How many characters at the end of `s` may yet turn into a marker.
    fn longest_stop_prefix_suffix_len(&self, s: &str) -> (n: usize)
        ensures
            n == held(s@, self.stops()),
            n <= s@.len(),
    {
        let mut n: usize = s.unicode_len();
        while n > 0 && !self.is_stop_start(s, n)
            invariant
                n <= s@.len(),
                held(s@, self.stops()) == held_upto(s@, self.stops(), n as nat),
            ensures
                n <= s@.len(),
                held(s@, self.stops()) == n,
            decreases n,
        {
            n -= 1;
        }
        n
    }
}

/// Nothing longer than what is held back ends `s` in how a marker begins.
proof fn lemma_held(s: Seq<char>, stops: Seq<Seq<char>>, n: nat)
    requires
        n <= s.len(),
    ensures
        held_upto(s, stops, n) <= n,
        forall|m: int| held_upto(s, stops, n) < m <= n ==> !begins_stop(s, stops, m),
    decreases n,
{
    if n > 0 && !begins_stop(s, stops, n as int) {
        lemma_held(s, stops, (n - 1) as nat);
    }
}

/// Whether no marker stands in `s`.
pub open spec fn free_of(s: Seq<char>, stops: Seq<Seq<char>>) -> bool {
    forall|k: int, j: int| 0 <= k < stops.len() ==> !#[trigger] stands_at(s, stops[k], j)
}

/// Whether what is held back of `s` is all that may yet turn into a marker.
spec fn is_held(s: Seq<char>, stops: Seq<Seq<char>>, pending: Seq<char>) -> bool {
    &&& pending.len() <= s.len()
    &&& pending == s.skip(s.len() - pending.len())
    &&& forall|m: int| pending.len() < m <= s.len() ==> !begins_stop(s, stops, m)
}

/// A marker that stands in a text of which a free front was let through stands
/// behind what was let through.
proof fn lemma_marker_behind(
    before: Seq<char>,
    text: Seq<char>,
    stops: Seq<Seq<char>>,
    pending: Seq<char>,
    k: int,
    j: int,
)
    requires
        free_of(before, stops),
        is_held(before, stops, pending),
        0 <= k < stops.len(),
        stops[k].len() > 0,
        stands_at(before + text, stops[k], j),
    ensures
        before.len() - pending.len() <= j,
        stands_at(pending + text, stops[k], j - (before.len() - pending.len())),
{
    let all = before + text;
    let stop = stops[k];
    let cut = before.len() - pending.len();
    if j < cut {
        if j + stop.len() <= before.len() {
            assert(before.subrange(j, j + stop.len()) =~= all.subrange(j, j + stop.len()));
            assert(stands_at(before, stop, j));
            assert(false);
        } else {
            let m = before.len() - j;
            let start = stop.take(m);
            assert(all.subrange(j, j + stop.len()) == stop);
            assert(before.subrange(j, j + m) =~= start) by {
                assert forall|i: int| 0 <= i < m implies before[j + i] == stop[i] by {
                    assert(all[j + i] == all.subrange(j, j + stop.len())[i]);
                }
            }
            assert(ends(before, stops[k].take(m)));
            assert(begins_stop(before, stops, m));
            assert(false);
        }
    }
    let later = pending + text;
    assert(later =~= all.skip(cut));
    assert(later.subrange(j - cut, j - cut + stop.len()) =~= all.subrange(j, j + stop.len()));
}

/// What a stream has let through and holds back, by its texts as a whole.
proof fn lemma_streamed(stops: Seq<Seq<char>>, parts: Seq<Seq<char>>)
    requires
        stops.len() > 0,
        forall|k: int| 0 <= k < stops.len() ==> (#[trigger] stops[k]).len() > 0,
    ensures
        ({
            let s = streamed(stops, parts);
            let all = heard(stops, parts);
            if s.stopped {
                &&& earliest(all, stops) < all.len()
                &&& s.emitted == all.take(earliest(all, stops))
            } else {
                &&& free_of(all, stops)
                &&& s.emitted + s.pending == all
                &&& is_held(all, stops, s.pending)
            }
        }),
    decreases parts.len(),
{
    if parts.len() == 0 {
        let none = Seq::<char>::empty();
        assert(free_of(none, stops)) by {
            assert forall|k: int, j: int| 0 <= k < stops.len() implies !#[trigger] stands_at(
                none,
                stops[k],
                j,
            ) by {
                assert(stops[k].len() > 0);
            }
        }
        assert(none.skip(0) =~= none);
        assert(none + none =~= none);
    } else {
        let front = parts.drop_last();
        let text = parts.last();
        let s = streamed(stops, front);
        let before = heard(stops, front);
        lemma_streamed(stops, front);
        if !s.stopped {
            let all = before + text;
            let rest = s.pending + text;
            let cut = s.emitted.len() as int;
            let next = pushed(stops, s.pending, text);
            let at = earliest(rest, stops);
            assert(all =~= s.emitted + rest);
            lemma_earliest(rest, stops);
            lemma_earliest(all, stops);
            assert forall|k: int, j: int|
                0 <= k < stops.len() && #[trigger] stands_at(all, stops[k], j) implies cut <= j
                && stands_at(rest, stops[k], j - cut) by {
                lemma_marker_behind(before, text, stops, s.pending, k, j);
            }
            if at < rest.len() {
                let m = choose|m: int| 0 <= m < stops.len() && stands_at(rest, #[trigger] stops[m], at);
                let stop = stops[m];
                assert(all.subrange(cut + at, cut + at + stop.len()) =~= rest.subrange(
                    at,
                    at + stop.len(),
                ));
                assert(stands_at(all, stops[m], cut + at));
                assert(earliest(all, stops) == cut + at) by {
                    let e = earliest(all, stops);
                    if e > cut + at {
                        assert(!stands_at(all, stops[m], cut + at));
                    }
                    if e < cut + at {
                        let q = choose|q: int|
                            0 <= q < stops.len() && stands_at(all, #[trigger] stops[q], e);
                        assert(stands_at(rest, stops[q], e - cut));
                        assert(!stands_at(rest, stops[q], e - cut));
                    }
                }
                assert(s.emitted + next.emitted =~= all.take(cut + at));
            } else {
                lemma_held(rest, stops, rest.len());
                assert(free_of(all, stops)) by {
                    assert forall|k: int, j: int| 0 <= k < stops.len() implies !#[trigger] stands_at(
                        all,
                        stops[k],
                        j,
                    ) by {
                        if stands_at(all, stops[k], j) {
                            assert(stands_at(rest, stops[k], j - cut));
                            assert(stops[k].len() > 0);
                            assert(j - cut < at);
                        }
                    }
                }
                assert(s.emitted + next.emitted + next.pending =~= all);
                assert(next.pending =~= all.skip(all.len() - next.pending.len()));
                assert forall|n: int| next.pending.len() < n <= all.len() implies !begins_stop(
                    all,
                    stops,
                    n,
                ) by {
                    if begins_stop(all, stops, n) {
                        let k = choose|k: int|
                            0 <= k < stops.len() && n <= (#[trigger] stops[k]).len() && ends(
                                all,
                                stops[k].take(n),
                            );
                        let start = stops[k].take(n);
                        assert(all.subrange(all.len() - n, all.len() as int) == start);
                        if n <= rest.len() {
                            assert(rest.subrange(rest.len() - n, rest.len() as int)
                                =~= all.subrange(all.len() - n, all.len() as int));
                            assert(ends(rest, stops[k].take(n)));
                            assert(begins_stop(rest, stops, n));
                        } else {
                            let m = n - text.len();
                            assert(s.pending.len() < m <= before.len());
                            let short = stops[k].take(m);
                            assert(before.subrange(before.len() - m, before.len() as int) =~= short) by {
                                assert forall|i: int| 0 <= i < m implies before[before.len() - m + i]
                                    == short[i] by {
                                    assert(all.subrange(all.len() - n, all.len() as int)[i]
                                        == start[i]);
                                }
                            }
                            assert(ends(before, stops[k].take(m)));
                            assert(begins_stop(before, stops, m));
                        }
                    }
                }
            }
        }
    }
}

/// However a text is cut into parts, a stream that meets a marker has let
/// through exactly the text before the first one.
pub proof fn law_stopped_stream_is_cut_at_first_marker(
    stops: Seq<Seq<char>>,
    parts: Seq<Seq<char>>,
)
    requires
        streamed(nonempty(stops), parts).stopped,
    ensures
        streamed(nonempty(stops), parts).emitted == heard(nonempty(stops), parts).take(
            earliest(heard(nonempty(stops), parts), nonempty(stops)),
        ),
{
    let kept = nonempty(stops);
    lemma_nonempty_members(stops);
    if kept.len() == 0 {
        assert(kept =~= Seq::<Seq<char>>::empty());
        lemma_unstopped(parts);
    } else {
        lemma_streamed(kept, parts);
    }
}

/// A stream that has met no marker contains none, and has lost nothing: what it
/// let through and what it holds back are its texts laid end to end.
pub proof fn law_unstopped_stream_keeps_the_text(stops: Seq<Seq<char>>, parts: Seq<Seq<char>>)
    requires
        !streamed(nonempty(stops), parts).stopped,
    ensures
        free_of(heard(nonempty(stops), parts), nonempty(stops)),
        streamed(nonempty(stops), parts).emitted + streamed(nonempty(stops), parts).pending
            == heard(nonempty(stops), parts),
{
    let kept = nonempty(stops);
    lemma_nonempty_members(stops);
    if kept.len() == 0 {
        assert(kept =~= Seq::<Seq<char>>::empty());
        lemma_unstopped(parts);
    } else {
        lemma_streamed(kept, parts);
    }
}

/// Without markers nothing is stopped or held back.
proof fn lemma_unstopped(parts: Seq<Seq<char>>)
    ensures
        !streamed(Seq::empty(), parts).stopped,
        streamed(Seq::empty(), parts).pending == Seq::<char>::empty(),
        streamed(Seq::empty(), parts).emitted == heard(Seq::empty(), parts),
    decreases parts.len(),
{
    if parts.len() > 0 {
        lemma_unstopped(parts.drop_last());
    }
}

/// No marker is ever let through.
pub proof fn law_no_marker_is_let_through(
    stops: Seq<Seq<char>>,
    parts: Seq<Seq<char>>,
    k: int,
    j: int,
)
    requires
        0 <= k < nonempty(stops).len(),
    ensures
        !stands_at(streamed(nonempty(stops), parts).emitted, nonempty(stops)[k], j),
{
    let kept = nonempty(stops);
    let out = streamed(kept, parts).emitted;
    let all = heard(kept, parts);
    lemma_nonempty_members(stops);
    lemma_streamed(kept, parts);
    lemma_earliest(all, kept);
    if stands_at(out, kept[k], j) {
        assert(kept[k].len() > 0);
        assert(out =~= all.take(out.len() as int));
        assert(all.subrange(j, j + kept[k].len()) =~= out.subrange(j, j + kept[k].len()));
        assert(stands_at(all, kept[k], j));
    }
}

/// No more is held back than may yet turn into a marker: what a stream holds back,
/// if anything, is how one of the markers begins.
pub proof fn law_only_the_beginning_of_a_marker_is_held_back(
    stops: Seq<Seq<char>>,
    parts: Seq<Seq<char>>,
)
    ensures
        ({
            let pending = streamed(nonempty(stops), parts).pending;
            pending.len() == 0 || exists|k: int|
                0 <= k < nonempty(stops).len() && starts(#[trigger] nonempty(stops)[k], pending)
        }),
    decreases parts.len(),
{
    let kept = nonempty(stops);
    if parts.len() > 0 {
        law_only_the_beginning_of_a_marker_is_held_back(stops, parts.drop_last());
        let before = streamed(kept, parts.drop_last());
        if !before.stopped && kept.len() > 0 {
            let all = before.pending + parts.last();
            let n = held(all, kept);
            lemma_held(all, kept, all.len());
            lemma_held_begins(all, kept, all.len());
            if earliest(all, kept) >= all.len() && n > 0 {
                let k = choose|k: int|
                    0 <= k < kept.len() && n <= (#[trigger] kept[k]).len() && ends(
                        all,
                        kept[k].take(n as int),
                    );
                let pending = all.skip(all.len() - n);
                assert(all.subrange(all.len() - n, all.len() as int) =~= pending);
                assert(kept[k].take(n as int) == pending);
                assert(kept[k].subrange(0, n as int) =~= kept[k].take(n as int));
                assert(starts(kept[k], pending));
            }
        }
    }
}

/// What is held back, if anything, is how a marker begins.
proof fn lemma_held_begins(s: Seq<char>, stops: Seq<Seq<char>>, n: nat)
    ensures
        held_upto(s, stops, n) == 0 || begins_stop(s, stops, held_upto(s, stops, n) as int),
    decreases n,
{
    if n > 0 && !begins_stop(s, stops, n as int) {
        lemma_held_begins(s, stops, (n - 1) as nat);
    }
}

} // verus!
