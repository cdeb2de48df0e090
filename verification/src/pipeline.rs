//! From sensations to experiences: what faculties notice joins the timeline,
//! and what wits understand of it is remembered.

use vstd::prelude::*;

use crate::experience::{experiences, Experience, ExperienceView};
use crate::faculty::{noticed_views, sensation_views, Faculty, Shown};
use crate::ident::Id;
use crate::impression::{Impression, ImpressionView};
use crate::memory::{is_recollection, InMemory, Memory};
use crate::sensation::{Sensation, SensationView};
use crate::seqs::{
    in_order, lemma_placed_all, lemma_placed_all_step, lemma_placed_members, placed, placed_all,
};
use crate::text::same;
use crate::timeline::{entry_time, EntryView, TimelineEntry, TimelineFrame};
use crate::wit::{Asked, Wit};

verus! {

/// Sensations as entries of a timeline.
pub open spec fn as_perceived(list: Seq<SensationView>) -> Seq<EntryView> {
    list.map_values(|s: SensationView| EntryView::Sensation(s))
}

/// Impressions as entries of a timeline.
pub open spec fn as_noticed(list: Seq<ImpressionView>) -> Seq<EntryView> {
    list.map_values(|i: ImpressionView| EntryView::Impression(i))
}

/// Experiences as entries of a timeline.
pub open spec fn as_understood(list: Seq<ExperienceView>) -> Seq<EntryView> {
    list.map_values(|e: ExperienceView| EntryView::Experience(e))
}

pub(crate) proof fn lemma_placed_all_more<A>(s: Seq<A>, a: Seq<A>, b: Seq<A>, time: spec_fn(A) -> int)
    ensures
        placed_all(placed_all(s, a, time), b, time) == placed_all(s, a + b, time),
    decreases b.len(),
{
    if b.len() == 0 {
        assert(a + b =~= a);
    } else {
        lemma_placed_all_more(s, a, b.drop_last(), time);
        assert((a + b).drop_last() =~= a + b.drop_last());
        assert((a + b).last() == b.last());
    }
}

proof fn lemma_placed_all_one<A>(s: Seq<A>, x: A, time: spec_fn(A) -> int)
    ensures
        placed_all(s, seq![x], time) == placed(s, x, time),
{
    assert(seq![x].drop_last() =~= Seq::<A>::empty());
    assert(placed_all(s, Seq::<A>::empty(), time) == s);
}

// ---------------------------------------------------------------------------
// Noticing.

/// Puts what a faculty made of a sensation where it belongs: its impressions
/// into the timeline, its sensations behind those that still have to be
/// perceived.
pub fn admit_noticed(
    timeline: &mut TimelineFrame,
    pending: &mut Vec<Sensation>,
    derived: Vec<Sensation>,
    impressions: Vec<Impression>,
)
    ensures
        final(timeline)@ == placed_all(
            old(timeline)@,
            as_noticed(noticed_views(impressions@)),
            entry_time(),
        ),
        sensation_views(final(pending)@) == sensation_views(old(pending)@) + sensation_views(derived@),
{
    let ghost before = timeline@;
    let ghost all = as_noticed(noticed_views(impressions@));
    let mut i: usize = 0;
    assert(all.take(0) =~= Seq::<EntryView>::empty());
    while i < impressions.len()
        invariant
            i <= impressions@.len(),
            all == as_noticed(noticed_views(impressions@)),
            timeline@ == placed_all(before, all.take(i as int), entry_time()),
        decreases impressions@.len() - i,
    {
        proof {
            lemma_placed_all_step(before, all, entry_time(), i as int);
        }
        timeline.push(TimelineEntry::Impression(impressions[i].clone()));
        i += 1;
    }
    assert(all.take(i as int) =~= all);
    let ghost waiting = pending@;
    let mut k: usize = 0;
    while k < derived.len()
        invariant
            k <= derived@.len(),
            pending@.len() == waiting.len() + k,
            forall|j: int| 0 <= j < waiting.len() ==> #[trigger] pending@[j] == waiting[j],
            forall|j: int| 0 <= j < k ==> (#[trigger] pending@[waiting.len() + j])@ == derived@[j]@,
        decreases derived@.len() - k,
    {
        pending.push(derived[k].clone());
        k += 1;
    }
    proof {
        let now = sensation_views(pending@);
        let wanted = sensation_views(waiting) + sensation_views(derived@);
        assert forall|j: int| 0 <= j < now.len() implies now[j] == wanted[j] by {
            if j >= waiting.len() {
                assert(pending@[waiting.len() + (j - waiting.len())]@ == derived@[j - waiting.len()]@);
            }
        }
        assert(now =~= wanted);
    }
}

/// A sensation that was perceived, and what each faculty made of it.
pub ghost struct Perceived {
    pub sensation: SensationView,
    pub shown: Seq<Shown>,
}

/// What the faculties derived from a sensation, in their order.
pub open spec fn derived_in(shown: Seq<Shown>) -> Seq<SensationView>
    decreases shown.len(),
{
    if shown.len() == 0 {
        Seq::empty()
    } else {
        derived_in(shown.drop_last()) + shown.last().derived
    }
}

/// What the faculties noticed in a sensation, in their order.
pub open spec fn noticed_in(shown: Seq<Shown>) -> Seq<ImpressionView>
    decreases shown.len(),
{
    if shown.len() == 0 {
        Seq::empty()
    } else {
        noticed_in(shown.drop_last()) + shown.last().impressions
    }
}

/// What still waits to be perceived after some sensations were, the next one at
/// the end: what was derived last is perceived first.
pub open spec fn waiting_after(first: SensationView, rounds: Seq<Perceived>) -> Seq<SensationView>
    decreases rounds.len(),
{
    if rounds.len() == 0 {
        seq![first]
    } else {
        waiting_after(first, rounds.drop_last()).drop_last() + derived_in(rounds.last().shown)
    }
}

/// Whether a sensation was perceived when it was its turn, and every faculty was
/// shown it.
pub open spec fn is_turn(
    first: SensationView,
    rounds: Seq<Perceived>,
    k: int,
    faculties: nat,
) -> bool {
    let waiting = waiting_after(first, rounds.take(k));
    &&& waiting.len() > 0
    &&& rounds[k].sensation == waiting.last()
    &&& rounds[k].shown.len() == faculties
    &&& forall|i: int| 0 <= i < faculties ==> (#[trigger] rounds[k].shown[i]).sensation == rounds[k].sensation
}

/// Whether some sensations are a sensation and all that was derived from it, each
/// perceived in its turn. More than a machine can count are not perceived.
pub open spec fn are_turns(first: SensationView, rounds: Seq<Perceived>, faculties: nat) -> bool {
    &&& forall|k: int| 0 <= k < rounds.len() ==> #[trigger] is_turn(first, rounds, k, faculties)
    &&& waiting_after(first, rounds).len() == 0 || rounds.len() == u64::MAX
}

/// What joins a timeline when sensations are perceived: each of them, and then
/// what was noticed in it.
pub open spec fn entries_in(rounds: Seq<Perceived>) -> Seq<EntryView>
    decreases rounds.len(),
{
    if rounds.len() == 0 {
        Seq::empty()
    } else {
        entries_in(rounds.drop_last()) + entries_of(rounds.last())
    }
}

/// What joins a timeline when a sensation is perceived.
pub open spec fn entries_of(round: Perceived) -> Seq<EntryView> {
    seq![EntryView::Sensation(round.sensation)] + as_noticed(noticed_in(round.shown))
}

/// What the faculties were shown after some sensations were perceived.
pub open spec fn shown_after(before: Seq<Seq<Shown>>, rounds: Seq<Perceived>) -> Seq<Seq<Shown>> {
    Seq::new(before.len(), |i: int| before[i] + rounds.map_values(|r: Perceived| r.shown[i]))
}

/// What the faculties were shown after each of them was shown something more.
pub open spec fn shown_more(before: Seq<Seq<Shown>>, shown: Seq<Shown>) -> Seq<Seq<Shown>> {
    Seq::new(before.len(), |i: int| before[i].push(shown[i]))
}

/// Faculties that are shown sensations, one after the other.
pub trait Faculties {
    /// What each faculty was shown, in the order of the faculties.
    spec fn all_shown(&self) -> Seq<Seq<Shown>>;

    /// Shows a sensation to the faculties, in turn: their impressions join the
    /// timeline, and their sensations wait behind the others.
    fn show(
        &mut self,
        timeline: &mut TimelineFrame,
        sensation: &Sensation,
        pending: &mut Vec<Sensation>,
    ) -> (shown: Ghost<Seq<Shown>>)
        ensures
            shown@.len() == old(self).all_shown().len(),
            forall|i: int| 0 <= i < shown@.len() ==> (#[trigger] shown@[i]).sensation == sensation@,
            final(timeline)@ == placed_all(
                old(timeline)@,
                as_noticed(noticed_in(shown@)),
                entry_time(),
            ),
            sensation_views(final(pending)@) == sensation_views(old(pending)@) + derived_in(shown@),
            final(self).all_shown() == shown_more(old(self).all_shown(), shown@),
    ;
}

/// No faculties.
pub struct NoFaculties {}

impl Faculties for NoFaculties {
    open spec fn all_shown(&self) -> Seq<Seq<Shown>> {
        Seq::empty()
    }

    fn show(
        &mut self,
        timeline: &mut TimelineFrame,
        sensation: &Sensation,
        pending: &mut Vec<Sensation>,
    ) -> (shown: Ghost<Seq<Shown>>) {
        let ghost none = Seq::<Shown>::empty();
        proof {
            assert(as_noticed(noticed_in(none)) =~= Seq::<EntryView>::empty());
            assert(sensation_views(pending@) + derived_in(none) =~= sensation_views(pending@));
            assert(shown_more(self.all_shown(), none) =~= self.all_shown());
        }
        Ghost(none)
    }
}

/// Some faculties, and one more behind them.
pub struct AndFaculty<Fs, F> {
    /// The faculties before it.
    pub before: Fs,
    /// The last faculty.
    pub faculty: F,
}

impl<Fs: Faculties, F: Faculty> Faculties for AndFaculty<Fs, F> {
    open spec fn all_shown(&self) -> Seq<Seq<Shown>> {
        self.before.all_shown().push(self.faculty.shown())
    }

    fn show(
        &mut self,
        timeline: &mut TimelineFrame,
        sensation: &Sensation,
        pending: &mut Vec<Sensation>,
    ) -> (shown: Ghost<Seq<Shown>>) {
        let ghost start = timeline@;
        let ghost waiting = sensation_views(pending@);
        let ghost histories = self.all_shown();
        let Ghost(first) = self.before.show(timeline, sensation, pending);
        let (derived, impressions) = self.faculty.process(sensation);
        let ghost entry = Shown {
            sensation: sensation@,
            derived: sensation_views(derived@),
            impressions: noticed_views(impressions@),
        };
        let ghost all = first.push(entry);
        admit_noticed(timeline, pending, derived, impressions);
        proof {
            assert(all.drop_last() =~= first);
            lemma_placed_all_more(
                start,
                as_noticed(noticed_in(first)),
                as_noticed(entry.impressions),
                entry_time(),
            );
            assert(as_noticed(noticed_in(first)) + as_noticed(entry.impressions) =~= as_noticed(
                noticed_in(all),
            ));
            assert((waiting + derived_in(first)) + entry.derived =~= waiting + derived_in(all));
            assert(self.all_shown() =~= shown_more(histories, all));
        }
        Ghost(all)
    }
}

/// Perceives a sensation: it, what the faculties notice of it, and what they
/// derive from it, join the timeline.
pub(crate) fn attend<Fs: Faculties>(
    timeline: &mut TimelineFrame,
    faculties: &mut Fs,
    sensation: Sensation,
) -> (rounds: Ghost<Seq<Perceived>>)
    ensures
        are_turns(sensation@, rounds@, old(faculties).all_shown().len()),
        final(timeline)@ == placed_all(old(timeline)@, entries_in(rounds@), entry_time()),
        final(faculties).all_shown() == shown_after(old(faculties).all_shown(), rounds@),
{
    let ghost before = timeline@;
    let ghost histories = faculties.all_shown();
    let ghost count = histories.len();
    let ghost mut rounds = Seq::<Perceived>::empty();
    let ghost first = sensation@;
    let mut pending: Vec<Sensation> = Vec::new();
    pending.push(sensation);
    let mut left: u64 = u64::MAX;
    proof {
        assert(sensation_views(pending@) =~= seq![first]);
        assert(shown_after(histories, rounds) =~= histories) by {
            assert forall|i: int| 0 <= i < histories.len() implies shown_after(
                histories,
                rounds,
            )[i] == histories[i] by {
                assert(histories[i] + rounds.map_values(|r: Perceived| r.shown[i]) =~= histories[i]);
            }
        }
    }
    while pending.len() > 0 && left > 0
        invariant
            count == histories.len(),
            rounds.len() == u64::MAX - left,
            sensation_views(pending@) == waiting_after(first, rounds),
            forall|k: int| 0 <= k < rounds.len() ==> #[trigger] is_turn(first, rounds, k, count),
            timeline@ == placed_all(before, entries_in(rounds), entry_time()),
            faculties.all_shown() == shown_after(histories, rounds),
        decreases left,
    {
        let ghost waiting = sensation_views(pending@);
        let ghost so_far = faculties.all_shown();
        let ghost perceived = timeline@;
        match pending.pop() {
            Some(next) => {
                assert(sensation_views(pending@) =~= waiting.drop_last());
                timeline.push(TimelineEntry::Sensation(next.clone()));
                let Ghost(shown) = faculties.show(timeline, &next, &mut pending);
                proof {
                    let round = Perceived { sensation: next@, shown };
                    let one = seq![EntryView::Sensation(next@)];
                    let now = rounds.push(round);
                    assert(now.drop_last() =~= rounds);
                    lemma_placed_all_one(perceived, EntryView::Sensation(next@), entry_time());
                    lemma_placed_all_more(
                        perceived,
                        one,
                        as_noticed(noticed_in(shown)),
                        entry_time(),
                    );
                    lemma_placed_all_more(before, entries_in(rounds), entries_of(round), entry_time());
                    lemma_turns_grow(first, rounds, round, count);
                    lemma_shown_grows(histories, rounds, round);
                    rounds = now;
                }
            },
            None => {},
        }
        left -= 1;
    }
    Ghost(rounds)
}

/// One more sensation in its turn makes one more turn.
proof fn lemma_turns_grow(
    first: SensationView,
    rounds: Seq<Perceived>,
    round: Perceived,
    count: nat,
)
    requires
        forall|k: int| 0 <= k < rounds.len() ==> #[trigger] is_turn(first, rounds, k, count),
        waiting_after(first, rounds).len() > 0,
        round.sensation == waiting_after(first, rounds).last(),
        round.shown.len() == count,
        forall|i: int|
            0 <= i < count ==> (#[trigger] round.shown[i]).sensation == round.sensation,
    ensures
        forall|k: int|
            0 <= k < rounds.push(round).len() ==> #[trigger] is_turn(
                first,
                rounds.push(round),
                k,
                count,
            ),
{
    let now = rounds.push(round);
    assert forall|k: int| 0 <= k < now.len() implies #[trigger] is_turn(first, now, k, count) by {
        assert(now.take(k) =~= rounds.take(k));
        if k < rounds.len() {
            assert(is_turn(first, rounds, k, count));
            assert(now[k] == rounds[k]);
        } else {
            assert(rounds.take(k) =~= rounds);
        }
    }
}

/// What the faculties were shown grows by one with each sensation.
proof fn lemma_shown_grows(
    histories: Seq<Seq<Shown>>,
    rounds: Seq<Perceived>,
    round: Perceived,
)
    ensures
        shown_more(shown_after(histories, rounds), round.shown) == shown_after(
            histories,
            rounds.push(round),
        ),
{
    let now = rounds.push(round);
    let more = shown_more(shown_after(histories, rounds), round.shown);
    let grown = shown_after(histories, now);
    assert forall|i: int| 0 <= i < histories.len() implies more[i] == grown[i] by {
        assert((histories[i] + rounds.map_values(|r: Perceived| r.shown[i])).push(round.shown[i])
            =~= histories[i] + now.map_values(|r: Perceived| r.shown[i]));
    }
    assert(more =~= grown);
}

// ---------------------------------------------------------------------------
// Understanding.

/// Whether two experiences mean the same: the same is understood of the same
/// impressions, at the same time.
pub open spec fn means_same(a: ExperienceView, b: ExperienceView) -> bool {
    a.impression_ids == b.impression_ids && a.occurred_at@ == b.occurred_at@ && a.what == b.what
}

/// Whether an experience means the same as one of a list.
pub open spec fn is_known(list: Seq<ExperienceView>, x: ExperienceView) -> bool {
    exists|i: int| 0 <= i < list.len() && means_same(#[trigger] list[i], x)
}

/// Those of some experiences that are not known, each of them once.
#[verifier::opaque]
pub open spec fn unknown(stored: Seq<ExperienceView>, xs: Seq<ExperienceView>) -> Seq<ExperienceView>
    decreases xs.len(),
{
    if xs.len() == 0 {
        Seq::empty()
    } else {
        let rest = unknown(stored, xs.drop_last());
        if is_known(stored + rest, xs.last()) {
            rest
        } else {
            rest.push(xs.last())
        }
    }
}

/// Whether none of some experiences is known, nor means the same as one before
/// it.
pub open spec fn are_news(stored: Seq<ExperienceView>, xs: Seq<ExperienceView>) -> bool {
    forall|i: int| 0 <= i < xs.len() ==> !is_known(stored + xs.take(i), #[trigger] xs[i])
}

fn same_ids(a: &Vec<Id>, b: &Vec<Id>) -> (r: bool)
    ensures
        r == (a@ == b@),
{
    if a.len() != b.len() {
        return false;
    }
    let mut i: usize = 0;
    while i < a.len()
        invariant
            i <= a@.len(),
            a@.len() == b@.len(),
            forall|k: int| 0 <= k < i ==> #[trigger] a@[k] == b@[k],
        decreases a@.len() - i,
    {
        if a[i].bits != b[i].bits {
            assert(a@[i as int] != b@[i as int]);
            return false;
        }
        assert(a@[i as int] == b@[i as int]);
        i += 1;
    }
    assert(a@ =~= b@);
    true
}

/// Tells whether two experiences mean the same.
pub fn same_meaning(a: &Experience, b: &Experience) -> (r: bool)
    ensures
        r == means_same(a@, b@),
{
    same_ids(&a.impression_ids, &b.impression_ids) && a.occurred_at.is_same(&b.occurred_at) && same(
        a.what.as_str(),
        b.what.as_str(),
    )
}

fn has_meaning(list: &Vec<Experience>, x: &Experience) -> (r: bool)
    ensures
        r == is_known(experiences(list@), x@),
{
    let ghost all = experiences(list@);
    let mut i: usize = 0;
    while i < list.len()
        invariant
            i <= list@.len(),
            all == experiences(list@),
            forall|k: int| 0 <= k < i ==> !means_same(#[trigger] all[k], x@),
        decreases list@.len() - i,
    {
        assert(all[i as int] == list@[i as int]@);
        if same_meaning(&list[i], x) {
            return true;
        }
        i += 1;
    }
    false
}

proof fn lemma_unknown_are_news(stored: Seq<ExperienceView>, xs: Seq<ExperienceView>)
    ensures
        are_news(stored, unknown(stored, xs)),
    decreases xs.len(),
{
    reveal(unknown);
    if xs.len() > 0 {
        let rest = unknown(stored, xs.drop_last());
        lemma_unknown_are_news(stored, xs.drop_last());
        let all = unknown(stored, xs);
        if all.len() > rest.len() {
            assert forall|i: int| 0 <= i < all.len() implies !is_known(
                stored + all.take(i),
                #[trigger] all[i],
            ) by {
                if i < rest.len() {
                    assert(all.take(i) =~= rest.take(i));
                    assert(all[i] == rest[i]);
                } else {
                    assert(all.take(i) =~= rest);
                }
            }
        }
    }
}

/// What is unknown of more experiences is what is unknown of the first ones, and
/// then what is unknown of the others.
proof fn lemma_unknown_more(
    stored: Seq<ExperienceView>,
    a: Seq<ExperienceView>,
    b: Seq<ExperienceView>,
)
    ensures
        unknown(stored, a + b) == unknown(stored, a) + unknown(stored + unknown(stored, a), b),
    decreases b.len(),
{
    reveal(unknown);
    let first = unknown(stored, a);
    if b.len() == 0 {
        assert(a + b =~= a);
        assert(first + unknown(stored + first, b) =~= first);
    } else {
        lemma_unknown_more(stored, a, b.drop_last());
        assert((a + b).drop_last() =~= a + b.drop_last());
        assert((a + b).last() == b.last());
        let rest = unknown(stored + first, b.drop_last());
        assert(stored + (first + rest) =~= (stored + first) + rest);
        assert((first + rest).push(b.last()) =~= first + rest.push(b.last()));
    }
}

/// Remembers those of some experiences that are not known; they join the
/// timeline too.
pub fn admit_understood<M: Memory>(
    timeline: &mut TimelineFrame,
    memory: &mut M,
    understood: Vec<Experience>,
) -> (news: Vec<Experience>)
    ensures
        experiences(news@) == unknown(old(memory).stored(), experiences(understood@)),
        final(memory).stored() == old(memory).stored() + experiences(news@),
        final(timeline)@ == placed_all(
            old(timeline)@,
            as_understood(experiences(news@)),
            entry_time(),
        ),
{
    reveal(unknown);
    let ghost before = timeline@;
    let ghost stored = memory.stored();
    let ghost all = experiences(understood@);
    let mut known = memory.recall();
    let mut news: Vec<Experience> = Vec::new();
    let mut i: usize = 0;
    proof {
        assert(all.take(0) =~= Seq::<ExperienceView>::empty());
        assert(experiences(news@) =~= Seq::<ExperienceView>::empty());
        assert(stored + experiences(news@) =~= stored);
        assert(as_understood(experiences(news@)) =~= Seq::<EntryView>::empty());
    }
    while i < understood.len()
        invariant
            i <= understood@.len(),
            all == experiences(understood@),
            experiences(known@) == stored + experiences(news@),
            experiences(news@) == unknown(stored, all.take(i as int)),
            memory.stored() == stored + experiences(news@),
            timeline@ == placed_all(before, as_understood(experiences(news@)), entry_time()),
        decreases understood@.len() - i,
    {
        proof {
            reveal(unknown);
            assert(all.take(i + 1).drop_last() =~= all.take(i as int));
            assert(all.take(i + 1).last() == understood@[i as int]@);
        }
        if !has_meaning(&known, &understood[i]) {
            let ghost x = understood@[i as int]@;
            let ghost so_far = experiences(news@);
            let ghost known_before = experiences(known@);
            memory.store(understood[i].clone());
            timeline.push(TimelineEntry::Experience(understood[i].clone()));
            known.push(understood[i].clone());
            news.push(understood[i].clone());
            proof {
                assert(experiences(news@) =~= so_far.push(x));
                assert(experiences(known@) =~= known_before.push(x));
                assert(known_before.push(x) =~= stored + so_far.push(x));
                assert(as_understood(so_far.push(x)).drop_last() =~= as_understood(so_far));
                assert(as_understood(so_far.push(x)).last() == EntryView::Experience(x));
            }
        }
        i += 1;
    }
    assert(all.take(i as int) =~= all);
    news
}

/// Remembers some experiences; they join the timeline too.
pub fn keep_understood<M: Memory>(
    timeline: &mut TimelineFrame,
    memory: &mut M,
    understood: &Vec<Experience>,
)
    ensures
        final(memory).stored() == old(memory).stored() + experiences(understood@),
        final(timeline)@ == placed_all(
            old(timeline)@,
            as_understood(experiences(understood@)),
            entry_time(),
        ),
{
    let ghost before = timeline@;
    let ghost stored = memory.stored();
    let ghost all = experiences(understood@);
    let ghost entries = as_understood(all);
    let mut i: usize = 0;
    proof {
        assert(entries.take(0) =~= Seq::<EntryView>::empty());
        assert(stored + all.take(0) =~= stored);
    }
    while i < understood.len()
        invariant
            i <= understood@.len(),
            all == experiences(understood@),
            entries == as_understood(all),
            memory.stored() == stored + all.take(i as int),
            timeline@ == placed_all(before, entries.take(i as int), entry_time()),
        decreases understood@.len() - i,
    {
        proof {
            lemma_placed_all_step(before, entries, entry_time(), i as int);
            assert((stored + all.take(i as int)).push(all[i as int]) =~= stored + all.take(i + 1));
        }
        memory.store(understood[i].clone());
        timeline.push(TimelineEntry::Experience(understood[i].clone()));
        i += 1;
    }
    assert(all.take(i as int) =~= all);
    assert(entries.take(i as int) =~= entries);
}

/// All that some wits answered, in their order.
pub open spec fn answers(asked: Seq<Asked>) -> Seq<ExperienceView>
    decreases asked.len(),
{
    if asked.len() == 0 {
        Seq::empty()
    } else {
        answers(asked.drop_last()) + asked.last().answer
    }
}

/// What the wits were asked after each of them was asked once more.
pub open spec fn asked_after(before: Seq<Seq<Asked>>, asked: Seq<Asked>) -> Seq<Seq<Asked>> {
    Seq::new(before.len(), |i: int| before[i].push(asked[i]))
}

/// Whether some answers came of asking wits one after the other, each about the
/// timeline with what the others before it had added: `kept` says which of the
/// answers were.
pub open spec fn are_asked(
    asked: Seq<Asked>,
    timeline: Seq<EntryView>,
    kept: spec_fn(Seq<ExperienceView>) -> Seq<ExperienceView>,
) -> bool {
    forall|i: int|
        0 <= i < asked.len() ==> (#[trigger] asked[i]).frame == placed_all(
            timeline,
            as_understood(kept(answers(asked.take(i)))),
            entry_time(),
        )
}

/// Those of some answers that a store does not know.
pub open spec fn news_for(stored: Seq<ExperienceView>) -> spec_fn(
    Seq<ExperienceView>,
) -> Seq<ExperienceView> {
    |xs: Seq<ExperienceView>| unknown(stored, xs)
}

/// All of some answers.
pub open spec fn everything() -> spec_fn(Seq<ExperienceView>) -> Seq<ExperienceView> {
    |xs: Seq<ExperienceView>| xs
}

/// Wits that are asked about a timeline, one after the other.
pub trait Wits {
    /// What each wit was asked, in the order of the wits.
    spec fn all_asked(&self) -> Seq<Seq<Asked>>;

    /// Asks each wit about the timeline, in turn, and remembers what was not known.
    fn understand<M: Memory>(&mut self, timeline: &mut TimelineFrame, memory: &mut M) -> (r: (
        Vec<Experience>,
        Ghost<Seq<Asked>>,
    ))
        ensures
            r.1@.len() == old(self).all_asked().len(),
            are_asked(r.1@, old(timeline)@, news_for(old(memory).stored())),
            final(self).all_asked() == asked_after(old(self).all_asked(), r.1@),
            experiences(r.0@) == unknown(old(memory).stored(), answers(r.1@)),
            final(memory).stored() == old(memory).stored() + experiences(r.0@),
            final(timeline)@ == placed_all(
                old(timeline)@,
                as_understood(experiences(r.0@)),
                entry_time(),
            ),
    ;

    /// Asks each wit about the timeline, in turn, and remembers all that it
    /// answers.
    fn understand_all<M: Memory>(&mut self, timeline: &mut TimelineFrame, memory: &mut M) -> (r: (
        Vec<Experience>,
        Ghost<Seq<Asked>>,
    ))
        ensures
            r.1@.len() == old(self).all_asked().len(),
            are_asked(r.1@, old(timeline)@, everything()),
            final(self).all_asked() == asked_after(old(self).all_asked(), r.1@),
            experiences(r.0@) == answers(r.1@),
            final(memory).stored() == old(memory).stored() + experiences(r.0@),
            final(timeline)@ == placed_all(
                old(timeline)@,
                as_understood(experiences(r.0@)),
                entry_time(),
            ),
    ;
}

/// No wits.
pub struct NoWits {}

impl Wits for NoWits {
    open spec fn all_asked(&self) -> Seq<Seq<Asked>> {
        Seq::empty()
    }

    fn understand<M: Memory>(&mut self, timeline: &mut TimelineFrame, memory: &mut M) -> (r: (
        Vec<Experience>,
        Ghost<Seq<Asked>>,
    )) {
        let ghost none = Seq::<Asked>::empty();
        let news: Vec<Experience> = Vec::new();
        proof {
            reveal(unknown);
            lemma_nothing_understood(memory.stored(), news@);
            assert(asked_after(self.all_asked(), none) =~= self.all_asked());
        }
        (news, Ghost(none))
    }

    fn understand_all<M: Memory>(&mut self, timeline: &mut TimelineFrame, memory: &mut M) -> (r: (
        Vec<Experience>,
        Ghost<Seq<Asked>>,
    )) {
        let ghost none = Seq::<Asked>::empty();
        let all: Vec<Experience> = Vec::new();
        proof {
            lemma_nothing_understood(memory.stored(), all@);
            assert(asked_after(self.all_asked(), none) =~= self.all_asked());
        }
        (all, Ghost(none))
    }
}

/// Where nothing is understood, nothing is remembered and nothing joins.
proof fn lemma_nothing_understood(stored: Seq<ExperienceView>, list: Seq<Experience>)
    requires
        list.len() == 0,
    ensures
        experiences(list) == Seq::<ExperienceView>::empty(),
        stored + experiences(list) == stored,
        as_understood(experiences(list)) == Seq::<EntryView>::empty(),
{
    assert(experiences(list) =~= Seq::<ExperienceView>::empty());
    assert(stored + experiences(list) =~= stored);
    assert(as_understood(experiences(list)) =~= Seq::<EntryView>::empty());
}

/// Some wits, and one more behind them.
pub struct AndWit<Ws, W> {
    /// The wits before it.
    pub before: Ws,
    /// The last wit.
    pub wit: W,
}

/// One more wit that is asked in its turn.
proof fn lemma_asked_more(
    asked: Seq<Asked>,
    entry: Asked,
    timeline: Seq<EntryView>,
    kept: spec_fn(Seq<ExperienceView>) -> Seq<ExperienceView>,
)
    requires
        are_asked(asked, timeline, kept),
        entry.frame == placed_all(timeline, as_understood(kept(answers(asked))), entry_time()),
    ensures
        are_asked(asked.push(entry), timeline, kept),
        answers(asked.push(entry)) == answers(asked) + entry.answer,
{
    let now = asked.push(entry);
    assert(now.drop_last() =~= asked);
    assert forall|k: int| 0 <= k < now.len() implies (#[trigger] now[k]).frame == placed_all(
        timeline,
        as_understood(kept(answers(now.take(k)))),
        entry_time(),
    ) by {
        assert(now.take(k) =~= asked.take(k));
        if k < asked.len() {
            assert(now[k] == asked[k]);
        } else {
            assert(asked.take(k) =~= asked);
        }
    }
}

/// What is understood in two parts is remembered and joins in two parts.
proof fn lemma_understood_more(
    stored: Seq<ExperienceView>,
    timeline: Seq<EntryView>,
    a: Seq<ExperienceView>,
    b: Seq<ExperienceView>,
)
    ensures
        stored + (a + b) == (stored + a) + b,
        placed_all(
            placed_all(timeline, as_understood(a), entry_time()),
            as_understood(b),
            entry_time(),
        ) == placed_all(timeline, as_understood(a + b), entry_time()),
{
    assert(stored + (a + b) =~= (stored + a) + b);
    lemma_placed_all_more(timeline, as_understood(a), as_understood(b), entry_time());
    assert(as_understood(a) + as_understood(b) =~= as_understood(a + b));
}

impl<Ws: Wits, W: Wit> Wits for AndWit<Ws, W> {
    open spec fn all_asked(&self) -> Seq<Seq<Asked>> {
        self.before.all_asked().push(self.wit.asked())
    }

    fn understand<M: Memory>(&mut self, timeline: &mut TimelineFrame, memory: &mut M) -> (r: (
        Vec<Experience>,
        Ghost<Seq<Asked>>,
    )) {
        let ghost stored = memory.stored();
        let ghost start = timeline@;
        let ghost histories = self.all_asked();
        let (mut news, Ghost(first)) = self.before.understand(timeline, memory);
        let ghost frame = timeline@;
        let understood = self.wit.interpret(timeline);
        let ghost entry = Asked { frame, answer: experiences(understood@) };
        let ghost known = experiences(news@);
        let mut more = admit_understood(timeline, memory, understood);
        let ghost fresh = experiences(more@);
        news.append(&mut more);
        let ghost all = first.push(entry);
        proof {
            assert(experiences(news@) =~= known + fresh);
            lemma_asked_more(first, entry, start, news_for(stored));
            lemma_unknown_more(stored, answers(first), entry.answer);
            lemma_understood_more(stored, start, known, fresh);
            assert(self.all_asked() =~= asked_after(histories, all));
        }
        (news, Ghost(all))
    }

    fn understand_all<M: Memory>(&mut self, timeline: &mut TimelineFrame, memory: &mut M) -> (r: (
        Vec<Experience>,
        Ghost<Seq<Asked>>,
    )) {
        let ghost stored = memory.stored();
        let ghost start = timeline@;
        let ghost histories = self.all_asked();
        let (mut list, Ghost(first)) = self.before.understand_all(timeline, memory);
        let ghost frame = timeline@;
        let mut more = self.wit.interpret(timeline);
        let ghost entry = Asked { frame, answer: experiences(more@) };
        let ghost known = experiences(list@);
        let ghost fresh = experiences(more@);
        keep_understood(timeline, memory, &more);
        list.append(&mut more);
        let ghost all = first.push(entry);
        proof {
            assert(experiences(list@) =~= known + fresh);
            lemma_asked_more(first, entry, start, everything());
            lemma_understood_more(stored, start, known, fresh);
            assert(self.all_asked() =~= asked_after(histories, all));
        }
        (list, Ghost(all))
    }
}

/// The state of a cognition: its timeline, what it remembers, and what its
/// faculties and wits were shown and answered.
pub ghost struct CognitionView {
    pub entries: Seq<EntryView>,
    pub stored: Seq<ExperienceView>,
    pub shown: Seq<Seq<Shown>>,
    pub asked: Seq<Seq<Asked>>,
}

/// Whether a cognition observed a sensation: it and all that was derived from it
/// was perceived in turn, each wit was then asked about the timeline as it stood,
/// and those of its answers that were not known were remembered and joined the
/// timeline.
pub open spec fn observes(
    before: CognitionView,
    after: CognitionView,
    sensation: SensationView,
    rounds: Seq<Perceived>,
    asked: Seq<Asked>,
) -> bool {
    let perceived = placed_all(before.entries, entries_in(rounds), entry_time());
    let news = unknown(before.stored, answers(asked));
    &&& are_turns(sensation, rounds, before.shown.len())
    &&& after.shown == shown_after(before.shown, rounds)
    &&& asked.len() == before.asked.len()
    &&& are_asked(asked, perceived, news_for(before.stored))
    &&& after.asked == asked_after(before.asked, asked)
    &&& after.stored == before.stored + news
    &&& after.entries == placed_all(perceived, as_understood(news), entry_time())
}

/// The way from sensations to experiences: faculties notice, wits understand,
/// and a store remembers. The faculties and the wits are held by their types.
pub struct Pipeline<M: Memory = InMemory, Fs = NoFaculties, Ws = NoWits> {
    timeline: TimelineFrame,
    memory: M,
    faculties: Fs,
    wits: Ws,
}

impl Default for Pipeline<InMemory, NoFaculties, NoWits> {
    fn default() -> (r: Pipeline<InMemory, NoFaculties, NoWits>)
        ensures
            r.entries() == Seq::<EntryView>::empty(),
            r.store().stored() == Seq::<ExperienceView>::empty(),
            r.shown() == Seq::<Seq<Shown>>::empty(),
            r.asked() == Seq::<Seq<Asked>>::empty(),
    {
        Pipeline::new(InMemory::new())
    }
}

impl<M: Memory> Pipeline<M, NoFaculties, NoWits> {
    /// A pipeline without faculties and wits, on an empty timeline.
    pub fn new(memory: M) -> (r: Pipeline<M, NoFaculties, NoWits>)
        ensures
            r.entries() == Seq::<EntryView>::empty(),
            r.store() == memory,
            r.shown() == Seq::<Seq<Shown>>::empty(),
            r.asked() == Seq::<Seq<Asked>>::empty(),
    {
        Pipeline {
            timeline: TimelineFrame::new(),
            memory,
            faculties: NoFaculties {  },
            wits: NoWits {  },
        }
    }
}

impl<M: Memory, Fs: Faculties, Ws: Wits> Pipeline<M, Fs, Ws> {
    /// The entries of the timeline.
    pub closed spec fn entries(&self) -> Seq<EntryView> {
        self.timeline@
    }

    /// The store.
    pub closed spec fn store(&self) -> M {
        self.memory
    }

    /// What each faculty was shown, in the order of the faculties.
    pub closed spec fn shown(&self) -> Seq<Seq<Shown>> {
        self.faculties.all_shown()
    }

    /// What each wit was asked, in the order of the wits.
    pub closed spec fn asked(&self) -> Seq<Seq<Asked>> {
        self.wits.all_asked()
    }

    /// The state of the pipeline.
    pub open spec fn cognition(&self) -> CognitionView {
        CognitionView {
            entries: self.entries(),
            stored: self.store().stored(),
            shown: self.shown(),
            asked: self.asked(),
        }
    }

    /// The same pipeline with one more faculty, behind the others.
    pub fn with_faculty<F: Faculty>(self, faculty: F) -> (r: Pipeline<M, AndFaculty<Fs, F>, Ws>)
        ensures
            r.entries() == self.entries(),
            r.store() == self.store(),
            r.shown() == self.shown().push(faculty.shown()),
            r.asked() == self.asked(),
    {
        Pipeline {
            timeline: self.timeline,
            memory: self.memory,
            faculties: AndFaculty { before: self.faculties, faculty },
            wits: self.wits,
        }
    }

    /// The same pipeline with one more wit, behind the others.
    pub fn with_wit<W: Wit>(self, wit: W) -> (r: Pipeline<M, Fs, AndWit<Ws, W>>)
        ensures
            r.entries() == self.entries(),
            r.store() == self.store(),
            r.shown() == self.shown(),
            r.asked() == self.asked().push(wit.asked()),
    {
        Pipeline {
            timeline: self.timeline,
            memory: self.memory,
            faculties: self.faculties,
            wits: AndWit { before: self.wits, wit },
        }
    }

    /// The timeline.
    pub fn timeline(&self) -> (r: &TimelineFrame)
        ensures
            r@ == self.entries(),
    {
        &self.timeline
    }

    /// The store.
    pub fn memory(&self) -> (r: &M)
        ensures
            *r == self.store(),
    {
        &self.memory
    }

    /// Perceives a sensation and all that the faculties derive from it, asks each
    /// wit about the timeline, and answers with the experiences that were not
    /// known.
    pub fn observe(&mut self, sensation: Sensation) -> (news: Vec<Experience>)
        ensures
            exists|rounds: Seq<Perceived>, asked: Seq<Asked>| #[trigger]
                observes(
                    old(self).cognition(),
                    final(self).cognition(),
                    sensation@,
                    rounds,
                    asked,
                ) && experiences(news@) == unknown(old(self).store().stored(), answers(asked)),
            final(self).store().stored() == old(self).store().stored() + experiences(news@),
            are_news(old(self).store().stored(), experiences(news@)),
    {
        let ghost before = self.cognition();
        let ghost first = sensation@;
        let Ghost(rounds) = attend(&mut self.timeline, &mut self.faculties, sensation);
        let (news, Ghost(asked)) = self.wits.understand(&mut self.timeline, &mut self.memory);
        proof {
            lemma_unknown_are_news(before.stored, answers(asked));
            assert(observes(before, self.cognition(), first, rounds, asked));
        }
        news
    }

    /// Perceives every remembered experience again.
    pub fn recall_into_timeline(&mut self) -> (list: Vec<Sensation>)
        ensures
            list@.len() == old(self).store().stored().len(),
            forall|i: int|
                0 <= i < list@.len() ==> is_recollection(
                    (#[trigger] list@[i])@,
                    old(self).store().stored()[i],
                ),
            final(self).store() == old(self).store(),
            final(self).entries() == placed_all(
                old(self).entries(),
                as_perceived(sensation_views(list@)),
                entry_time(),
            ),
            final(self).shown() == old(self).shown(),
            final(self).asked() == old(self).asked(),
    {
        let remembered = self.memory.recall();
        let list = recollections::<M>(&remembered);
        perceive_all(&mut self.timeline, &list);
        list
    }
}

/// The sensations that recall some experiences.
pub(crate) fn recollections<M: Memory>(remembered: &Vec<Experience>) -> (list: Vec<Sensation>)
    ensures
        list@.len() == experiences(remembered@).len(),
        forall|i: int|
            0 <= i < list@.len() ==> is_recollection(
                (#[trigger] list@[i])@,
                experiences(remembered@)[i],
            ),
{
    let mut list: Vec<Sensation> = Vec::new();
    let mut i: usize = 0;
    while i < remembered.len()
        invariant
            i <= remembered@.len(),
            list@.len() == i,
            forall|k: int|
                0 <= k < i ==> is_recollection(
                    (#[trigger] list@[k])@,
                    experiences(remembered@)[k],
                ),
        decreases remembered@.len() - i,
    {
        list.push(M::experience_to_sensation(&remembered[i]));
        i += 1;
    }
    list
}

/// Puts sensations into a timeline.
pub(crate) fn perceive_all(timeline: &mut TimelineFrame, list: &Vec<Sensation>)
    ensures
        final(timeline)@ == placed_all(
            old(timeline)@,
            as_perceived(sensation_views(list@)),
            entry_time(),
        ),
{
    let ghost before = timeline@;
    let ghost all = as_perceived(sensation_views(list@));
    let mut i: usize = 0;
    assert(all.take(0) =~= Seq::<EntryView>::empty());
    while i < list.len()
        invariant
            i <= list@.len(),
            all == as_perceived(sensation_views(list@)),
            timeline@ == placed_all(before, all.take(i as int), entry_time()),
        decreases list@.len() - i,
    {
        proof {
            lemma_placed_all_step(before, all, entry_time(), i as int);
        }
        timeline.push(TimelineEntry::Sensation(list[i].clone()));
        i += 1;
    }
    assert(all.take(i as int) =~= all);
}

/// Whether no two experiences of a list mean the same.
pub open spec fn all_differ(list: Seq<ExperienceView>) -> bool {
    forall|i: int, j: int|
        0 <= i < j < list.len() ==> !means_same(#[trigger] list[i], #[trigger] list[j])
}

/// A store in which no two experiences mean the same keeps none twice, whatever
/// is understood.
pub proof fn law_no_experience_is_remembered_twice(
    stored: Seq<ExperienceView>,
    news: Seq<ExperienceView>,
)
    requires
        all_differ(stored),
        are_news(stored, news),
    ensures
        all_differ(stored + news),
{
    let all = stored + news;
    assert forall|i: int, j: int| 0 <= i < j < all.len() implies !means_same(
        #[trigger] all[i],
        #[trigger] all[j],
    ) by {
        if j >= stored.len() {
            let k = j - stored.len();
            let known = stored + news.take(k);
            assert(!is_known(known, news[k]));
            assert(known[i] == all[i]);
        }
    }
}

/// What was understood once is not remembered again: the same experiences bring
/// nothing new the next time.
pub proof fn law_understanding_again_brings_nothing_new(
    stored: Seq<ExperienceView>,
    xs: Seq<ExperienceView>,
)
    ensures
        unknown(stored + unknown(stored, xs), xs) == Seq::<ExperienceView>::empty(),
{
    reveal(unknown);
    lemma_all_known(stored, xs, xs.len() as int);
    assert(xs.take(xs.len() as int) =~= xs);
}

proof fn lemma_all_known(stored: Seq<ExperienceView>, xs: Seq<ExperienceView>, n: int)
    requires
        0 <= n <= xs.len(),
    ensures
        unknown(stored + unknown(stored, xs), xs.take(n)) == Seq::<ExperienceView>::empty(),
    decreases n,
{
    reveal(unknown);
    if n > 0 {
        let later = stored + unknown(stored, xs);
        lemma_all_known(stored, xs, n - 1);
        assert(xs.take(n).drop_last() =~= xs.take(n - 1));
        assert(later + Seq::<ExperienceView>::empty() =~= later);
        lemma_becomes_known(stored, xs, n - 1);
        assert(xs.take(n).last() == xs[n - 1]);
    }
}

proof fn lemma_becomes_known(stored: Seq<ExperienceView>, xs: Seq<ExperienceView>, i: int)
    requires
        0 <= i < xs.len(),
    ensures
        is_known(stored + unknown(stored, xs), xs[i]),
    decreases xs.len(),
{
    reveal(unknown);
    let rest = unknown(stored, xs.drop_last());
    let all = unknown(stored, xs);
    if i == xs.len() - 1 {
        if !is_known(stored + rest, xs.last()) {
            let list = stored + all;
            assert(list[list.len() - 1] == xs.last());
        }
    } else {
        lemma_becomes_known(stored, xs.drop_last(), i);
        assert(xs.drop_last()[i] == xs[i]);
        let list = stored + rest;
        let k = choose|k: int| 0 <= k < list.len() && means_same(#[trigger] list[k], xs[i]);
        assert((stored + all)[k] == list[k]);
    }
}

/// Every experience that was understood is remembered, or one that means the same
/// is: drawn from the same impressions, of the same moment, in the same words. What
/// is remembered anew was understood, and nothing remembered before means the same.
pub proof fn law_what_is_understood_is_remembered(
    stored: Seq<ExperienceView>,
    xs: Seq<ExperienceView>,
    x: ExperienceView,
)
    ensures
        xs.contains(x) ==> exists|k: int|
            0 <= k < (stored + unknown(stored, xs)).len() && (#[trigger] (stored + unknown(
                stored,
                xs,
            ))[k]).impression_ids == x.impression_ids && (stored + unknown(
                stored,
                xs,
            ))[k].occurred_at@ == x.occurred_at@ && (stored + unknown(stored, xs))[k].what
                == x.what,
        unknown(stored, xs).contains(x) ==> xs.contains(x) && forall|k: int|
            0 <= k < stored.len() ==> !((#[trigger] stored[k]).impression_ids == x.impression_ids
                && stored[k].occurred_at@ == x.occurred_at@ && stored[k].what == x.what),
{
    if xs.contains(x) {
        let i = choose|i: int| 0 <= i < xs.len() && xs[i] == x;
        lemma_becomes_known(stored, xs, i);
        let all = stored + unknown(stored, xs);
        let k = choose|k: int| 0 <= k < all.len() && means_same(#[trigger] all[k], x);
        assert(all[k].impression_ids == x.impression_ids);
    }
    if unknown(stored, xs).contains(x) {
        lemma_unknown_from(stored, xs, x);
    }
}

proof fn lemma_unknown_from(stored: Seq<ExperienceView>, xs: Seq<ExperienceView>, x: ExperienceView)
    requires
        unknown(stored, xs).contains(x),
    ensures
        xs.contains(x),
        forall|k: int| 0 <= k < stored.len() ==> !means_same(#[trigger] stored[k], x),
    decreases xs.len(),
{
    reveal(unknown);
    let all = unknown(stored, xs);
    let rest = unknown(stored, xs.drop_last());
    let i = choose|i: int| 0 <= i < all.len() && all[i] == x;
    if i < rest.len() {
        assert(rest[i] == x);
        lemma_unknown_from(stored, xs.drop_last(), x);
        let j = choose|j: int| 0 <= j < xs.drop_last().len() && xs.drop_last()[j] == x;
        assert(xs[j] == x);
    } else {
        assert(xs[xs.len() - 1] == x);
        assert forall|k: int| 0 <= k < stored.len() implies !means_same(#[trigger] stored[k], x) by {
            assert((stored + rest)[k] == stored[k]);
        }
    }
}

proof fn lemma_entries_in(rounds: Seq<Perceived>, k: int, e: EntryView)
    requires
        0 <= k < rounds.len(),
        entries_of(rounds[k]).contains(e),
    ensures
        entries_in(rounds).contains(e),
    decreases rounds.len(),
{
    let front = rounds.drop_last();
    let all = entries_in(rounds);
    if k == rounds.len() - 1 {
        let list = entries_of(rounds[k]);
        let i = choose|i: int| 0 <= i < list.len() && list[i] == e;
        assert(all[entries_in(front).len() + i] == e);
    } else {
        assert(front[k] == rounds[k]);
        lemma_entries_in(front, k, e);
        let i = choose|i: int| 0 <= i < entries_in(front).len() && entries_in(front)[i] == e;
        assert(all[i] == e);
    }
}

proof fn lemma_noticed_in(shown: Seq<Shown>, i: int, j: int)
    requires
        0 <= i < shown.len(),
        0 <= j < shown[i].impressions.len(),
    ensures
        noticed_in(shown).contains(shown[i].impressions[j]),
    decreases shown.len(),
{
    let front = shown.drop_last();
    let all = noticed_in(shown);
    let x = shown[i].impressions[j];
    if i == shown.len() - 1 {
        assert(all[noticed_in(front).len() + j] == x);
    } else {
        assert(front[i] == shown[i]);
        lemma_noticed_in(front, i, j);
        let k = choose|k: int| 0 <= k < noticed_in(front).len() && noticed_in(front)[k] == x;
        assert(all[k] == x);
    }
}

proof fn lemma_derived_in(shown: Seq<Shown>, i: int, j: int)
    requires
        0 <= i < shown.len(),
        0 <= j < shown[i].derived.len(),
    ensures
        derived_in(shown).contains(shown[i].derived[j]),
    decreases shown.len(),
{
    let front = shown.drop_last();
    let all = derived_in(shown);
    let x = shown[i].derived[j];
    if i == shown.len() - 1 {
        assert(all[derived_in(front).len() + j] == x);
    } else {
        assert(front[i] == shown[i]);
        lemma_derived_in(front, i, j);
        let k = choose|k: int| 0 <= k < derived_in(front).len() && derived_in(front)[k] == x;
        assert(all[k] == x);
    }
}

/// What waits is perceived some time.
proof fn lemma_waiting_is_perceived(
    first: SensationView,
    rounds: Seq<Perceived>,
    faculties: nat,
    k: int,
    p: int,
) -> (at: int)
    requires
        are_turns(first, rounds, faculties),
        rounds.len() < u64::MAX,
        0 <= k <= rounds.len(),
        0 <= p < waiting_after(first, rounds.take(k)).len(),
    ensures
        k <= at < rounds.len(),
        rounds[at].sensation == waiting_after(first, rounds.take(k))[p],
    decreases rounds.len() - k,
{
    let waiting = waiting_after(first, rounds.take(k));
    if k == rounds.len() {
        assert(rounds.take(k) =~= rounds);
        k
    } else {
        assert(is_turn(first, rounds, k, faculties));
        if p == waiting.len() - 1 {
            k
        } else {
            assert(rounds.take(k + 1).drop_last() =~= rounds.take(k));
            let next = waiting_after(first, rounds.take(k + 1));
            assert(next[p] == waiting[p]);
            lemma_waiting_is_perceived(first, rounds, faculties, k + 1, p)
        }
    }
}

/// A sensation that was observed is in the timeline, and so is what every faculty
/// noticed in it, all that was there before, and every experience that is news. The
/// news, and what was remembered before, is what is remembered.
pub proof fn law_observing_loses_nothing(
    before: CognitionView,
    after: CognitionView,
    sensation: SensationView,
    rounds: Seq<Perceived>,
    asked: Seq<Asked>,
)
    requires
        observes(before, after, sensation, rounds, asked),
    ensures
        rounds.len() > 0,
        rounds[0].sensation == sensation,
        after.entries.contains(EntryView::Sensation(sensation)),
        forall|e: EntryView| #[trigger] before.entries.contains(e) ==> after.entries.contains(e),
        forall|k: int, i: int, j: int| #![trigger rounds[k].shown[i].impressions[j]]
            0 <= k < rounds.len() && 0 <= i < rounds[k].shown.len() && 0 <= j
                < rounds[k].shown[i].impressions.len() ==> after.entries.contains(
                EntryView::Impression(rounds[k].shown[i].impressions[j]),
            ),
        forall|x: ExperienceView| #[trigger]
            unknown(before.stored, answers(asked)).contains(x) ==> after.stored.contains(x)
                && after.entries.contains(EntryView::Experience(x)),
        after.stored.take(before.stored.len() as int) == before.stored,
        in_order(before.entries, entry_time()) ==> in_order(after.entries, entry_time()),
{
    let entries = entries_in(rounds);
    let perceived = placed_all(before.entries, entries, entry_time());
    let news = unknown(before.stored, answers(asked));
    assert(rounds.take(0) =~= Seq::<Perceived>::empty());
    if rounds.len() == 0 {
        assert(rounds =~= Seq::<Perceived>::empty());
        assert(waiting_after(sensation, rounds).len() == 1);
    }
    assert(is_turn(sensation, rounds, 0, before.shown.len()));
    lemma_placed_members(before.entries, entries, entry_time());
    lemma_placed_members(perceived, as_understood(news), entry_time());
    lemma_placed_all(before.entries, entries, entry_time());
    lemma_placed_all(perceived, as_understood(news), entry_time());
    assert(entries_of(rounds[0])[0] == EntryView::Sensation(sensation));
    lemma_entries_in(rounds, 0, EntryView::Sensation(sensation));
    assert forall|k: int, i: int, j: int| #![trigger rounds[k].shown[i].impressions[j]]
        0 <= k < rounds.len() && 0 <= i < rounds[k].shown.len() && 0 <= j
            < rounds[k].shown[i].impressions.len() implies after.entries.contains(
        EntryView::Impression(rounds[k].shown[i].impressions[j]),
    ) by {
        let x = rounds[k].shown[i].impressions[j];
        lemma_noticed_in(rounds[k].shown, i, j);
        let list = noticed_in(rounds[k].shown);
        let m = choose|m: int| 0 <= m < list.len() && list[m] == x;
        assert(entries_of(rounds[k])[1 + m] == EntryView::Impression(x));
        lemma_entries_in(rounds, k, EntryView::Impression(x));
    }
    assert forall|x: ExperienceView| #[trigger] news.contains(x) implies after.stored.contains(x)
        && after.entries.contains(EntryView::Experience(x)) by {
        let m = choose|m: int| 0 <= m < news.len() && news[m] == x;
        assert(after.stored[before.stored.len() + m] == x);
        assert(as_understood(news)[m] == EntryView::Experience(x));
    }
    assert(after.stored.take(before.stored.len() as int) =~= before.stored);
}

/// Whatever a faculty derives from a sensation is perceived as well: it is in the
/// timeline, and every faculty is shown it.
pub proof fn law_derived_sensations_are_perceived(
    before: CognitionView,
    after: CognitionView,
    sensation: SensationView,
    rounds: Seq<Perceived>,
    asked: Seq<Asked>,
    k: int,
    i: int,
    j: int,
)
    requires
        observes(before, after, sensation, rounds, asked),
        rounds.len() < u64::MAX,
        0 <= k < rounds.len(),
        0 <= i < rounds[k].shown.len(),
        0 <= j < rounds[k].shown[i].derived.len(),
    ensures
        after.entries.contains(EntryView::Sensation(rounds[k].shown[i].derived[j])),
        exists|m: int|
            k < m < rounds.len() && (#[trigger] rounds[m]).sensation
                == rounds[k].shown[i].derived[j] && rounds[m].shown.len() == before.shown.len()
                && forall|f: int|
                0 <= f < rounds[m].shown.len() ==> (#[trigger] rounds[m].shown[f]).sensation
                    == rounds[k].shown[i].derived[j],
{
    let x = rounds[k].shown[i].derived[j];
    lemma_derived_in(rounds[k].shown, i, j);
    let list = derived_in(rounds[k].shown);
    let d = choose|d: int| 0 <= d < list.len() && list[d] == x;
    assert(rounds.take(k + 1).drop_last() =~= rounds.take(k));
    let waiting = waiting_after(sensation, rounds.take(k + 1));
    let p = waiting.len() - list.len() + d;
    assert(is_turn(sensation, rounds, k, before.shown.len()));
    assert(waiting[p] == x);
    let m = lemma_waiting_is_perceived(sensation, rounds, before.shown.len(), k + 1, p);
    assert(is_turn(sensation, rounds, m, before.shown.len()));
    assert(rounds[m].sensation == x);
    let entries = entries_in(rounds);
    let perceived = placed_all(before.entries, entries, entry_time());
    let news = unknown(before.stored, answers(asked));
    lemma_placed_members(before.entries, entries, entry_time());
    lemma_placed_members(perceived, as_understood(news), entry_time());
    assert(entries_of(rounds[m])[0] == EntryView::Sensation(x));
    lemma_entries_in(rounds, m, EntryView::Sensation(x));
}

/// Each wit is asked once, about a timeline in which the sensation and what was
/// noticed already are, and each faculty is first shown the sensation itself.
pub proof fn law_everyone_is_asked_once(
    before: CognitionView,
    after: CognitionView,
    sensation: SensationView,
    rounds: Seq<Perceived>,
    asked: Seq<Asked>,
    i: int,
)
    requires
        observes(before, after, sensation, rounds, asked),
    ensures
        after.asked.len() == before.asked.len(),
        0 <= i < before.asked.len() ==> {
            &&& after.asked[i].len() == before.asked[i].len() + 1
            &&& after.asked[i].take(before.asked[i].len() as int) == before.asked[i]
            &&& after.asked[i].last().frame.contains(EntryView::Sensation(sensation))
            &&& after.asked[i].last().answer == asked[i].answer
            &&& forall|e: EntryView| #[trigger]
                before.entries.contains(e) ==> after.asked[i].last().frame.contains(e)
        },
        after.shown.len() == before.shown.len(),
        0 <= i < before.shown.len() ==> {
            &&& after.shown[i].len() == before.shown[i].len() + rounds.len()
            &&& after.shown[i].take(before.shown[i].len() as int) == before.shown[i]
            &&& after.shown[i][before.shown[i].len() as int].sensation == sensation
        },
{
    law_observing_loses_nothing(before, after, sensation, rounds, asked);
    let entries = entries_in(rounds);
    let perceived = placed_all(before.entries, entries, entry_time());
    if 0 <= i < before.asked.len() {
        let more = as_understood(news_for(before.stored)(answers(asked.take(i))));
        assert(asked[i].frame == placed_all(perceived, more, entry_time()));
        lemma_placed_members(before.entries, entries, entry_time());
        lemma_placed_members(perceived, more, entry_time());
        assert(entries_of(rounds[0])[0] == EntryView::Sensation(sensation));
        lemma_entries_in(rounds, 0, EntryView::Sensation(sensation));
        assert(after.asked[i].take(before.asked[i].len() as int) =~= before.asked[i]);
    }
    if 0 <= i < before.shown.len() {
        assert(is_turn(sensation, rounds, 0, before.shown.len()));
        assert(after.shown[i].take(before.shown[i].len() as int) =~= before.shown[i]);
        assert(rounds[0].shown[i].sensation == rounds[0].sensation);
    }
}

} // verus!
