//! Storing experiences, and perceiving them again.

use vstd::prelude::*;

use crate::experience::{
    copy_experiences, experiences, Episode, EpisodeView, Experience, ExperienceLink, ExperienceView,
};
use crate::ident::{hyphenated, Id};
use crate::json::{field, id_array, lemma_field_at, named, Fields, Json, JsonView};
use crate::sensation::{Provenance, ProvenanceKindView, ProvenanceView, Sensation, SensationView};
use crate::seqs::{
    arranged, flat, in_order, is_apart, is_close, lemma_filter_members, lemma_filter_none, lemma_filter_step,
    lemma_placed, lemma_placed_all, lemma_placed_all_step, lemma_placed_at, lemma_runs,
    lemma_runs_step, placed_all, runs,
};
use crate::time::{now, Span, Timestamp};

verus! {

/// The kind of a sensation that recalls an experience.
pub const RECOLLECTION_KIND: &'static str = "memory.related_experience";

/// The source of a sensation that recalls an experience.
pub const RECOLLECTION_SOURCE: &'static str = "memory";

/// An experience as JSON, with its times repeated under the names that say that
/// they are those of the original event.
pub open spec fn recalled_payload(e: ExperienceView) -> JsonView {
    JsonView::Object(
        seq![
            named("id"@, JsonView::Str(hyphenated(e.id))),
            named("impression_ids"@, id_array(e.impression_ids)),
            named("observed_at"@, JsonView::Str(e.observed_at.spec_zulu())),
            named("occurred_at"@, JsonView::Str(e.occurred_at.spec_zulu())),
            named("original_observed_at"@, JsonView::Str(e.observed_at.spec_zulu())),
            named("original_occurred_at"@, JsonView::Str(e.occurred_at.spec_zulu())),
            named("what"@, JsonView::Str(e.what)),
        ],
    )
}

/// Whether a sensation recalls an experience: it stands where the experience
/// stands in time, carries it, and names it as its provenance.
pub open spec fn is_recollection(s: SensationView, e: ExperienceView) -> bool {
    s == (SensationView {
        id: s.id,
        kind: "memory.related_experience"@,
        source: "memory"@,
        occurred_at: e.occurred_at,
        observed_at: s.observed_at,
        sequence: None,
        provenance: ProvenanceView::recall(e.id),
        payload: recalled_payload(e),
    })
}

/// An experience as JSON; see [`recalled_payload`].
pub fn experience_payload(experience: &Experience) -> (json: Json)
    ensures
        json@ == recalled_payload(experience@),
{
    let observed = experience.observed_at.to_zulu();
    let occurred = experience.occurred_at.to_zulu();
    let fields = Fields::new()
        .with("id", Json::id(experience.id))
        .with("impression_ids", Json::ids(&experience.impression_ids))
        .with("observed_at", Json::text(observed.as_str()))
        .with("occurred_at", Json::text(occurred.as_str()))
        .with("original_observed_at", Json::Str(observed))
        .with("original_occurred_at", Json::Str(occurred))
        .with("what", Json::text(experience.what.as_str()));
    assert(fields@ =~= recalled_payload(experience@)->Object_0);
    fields.object()
}

/// The sensation that recalls an experience at a moment.
pub fn recollection_at(experience: &Experience, now: Timestamp) -> (s: Sensation)
    ensures
        is_recollection(s@, experience@),
        s@.observed_at == now,
{
    Sensation::new(
        RECOLLECTION_KIND,
        RECOLLECTION_SOURCE,
        experience.occurred_at,
        now,
        experience_payload(experience),
    ).with_provenance(Provenance::memory_recall(experience.id))
}

/// The sensation that recalls an experience now; see [`recollection_at`].
pub fn recollection(experience: &Experience) -> (s: Sensation)
    ensures
        is_recollection(s@, experience@),
        s@.observed_at@ >= 0,
{
    recollection_at(experience, now())
}

/// An experience that has happened is recalled no earlier than it happened.
pub proof fn law_recollection_follows_its_experience(
    s: SensationView,
    e: ExperienceView,
    now: Timestamp,
)
    requires
        is_recollection(s, e),
        s.observed_at == now,
        e.occurred_at@ <= now@,
    ensures
        s.occurred_at == e.occurred_at,
        s.observed_at@ >= e.occurred_at@,
{
}

/// A store of experiences, each of which can be perceived again as a sensation.
pub trait Memory {
    /// What is stored, in the order of storing.
    spec fn stored(&self) -> Seq<ExperienceView>;

    /// Stores an experience.
    fn store(&mut self, experience: Experience)
        ensures
            final(self).stored() == old(self).stored().push(experience@),
    ;

    /// All stored experiences.
    fn recall(&self) -> (list: Vec<Experience>)
        ensures
            experiences(list@) == self.stored(),
    ;

    /// The sensation that recalls an experience.
    fn experience_to_sensation(experience: &Experience) -> (s: Sensation) where Self: Sized
        ensures
            is_recollection(s@, experience@),
    ;
}

/// A store in a list.
#[derive(Debug)]
pub struct InMemory {
    store: Vec<Experience>,
}

impl InMemory {
    /// An empty store.
    pub fn new() -> (r: InMemory)
        ensures
            r.stored() == Seq::<ExperienceView>::empty(),
    {
        let r = InMemory { store: Vec::new() };
        assert(r.stored() =~= Seq::<ExperienceView>::empty());
        r
    }
}

impl Default for InMemory {
    fn default() -> (r: InMemory)
        ensures
            r.stored() == Seq::<ExperienceView>::empty(),
    {
        InMemory::new()
    }
}

impl Memory for InMemory {
    closed spec fn stored(&self) -> Seq<ExperienceView> {
        experiences(self.store@)
    }

    fn store(&mut self, experience: Experience) {
        self.store.push(experience);
        assert(self.stored() =~= old(self).stored().push(experience@));
    }

    fn recall(&self) -> (list: Vec<Experience>) {
        copy_experiences(&self.store)
    }

    fn experience_to_sensation(experience: &Experience) -> (s: Sensation) {
        recollection(experience)
    }
}

/// The time by which experiences are ordered: when their events happened.
pub open spec fn experience_time() -> spec_fn(ExperienceView) -> int {
    |e: ExperienceView| e.occurred_at@
}

/// The stored experiences by time, cut wherever two neighbours are more than
/// `gap` nanoseconds apart.
pub open spec fn temporal_groups(stored: Seq<ExperienceView>, gap: int) -> Seq<
    Seq<ExperienceView>,
> {
    runs(arranged(stored, experience_time()), experience_time(), gap)
}

/// Whether an episode covers a run of experiences.
pub open spec fn covers(episode: EpisodeView, run: Seq<ExperienceView>) -> bool {
    episode == (EpisodeView {
        id: episode.id,
        label: "temporal cluster"@,
        experience_ids: run.map_values(|e: ExperienceView| e.id),
        started_at: run[0].occurred_at,
        ended_at: run.last().occurred_at,
    })
}

/// The first experience with an identifier, if there is one.
pub open spec fn experience_with_id(stored: Seq<ExperienceView>, id: Id) -> Option<ExperienceView>
    decreases stored.len(),
{
    if stored.len() == 0 {
        None
    } else if stored[0].id == id {
        Some(stored[0])
    } else {
        experience_with_id(stored.skip(1), id)
    }
}

/// When the named experiences that are stored happened, earliest and latest.
pub open spec fn bounds(ids: Seq<Id>, stored: Seq<ExperienceView>) -> Option<
    (Timestamp, Timestamp),
>
    decreases ids.len(),
{
    if ids.len() == 0 {
        None
    } else {
        match (bounds(ids.drop_last(), stored), experience_with_id(stored, ids.last())) {
            (before, None) => before,
            (None, Some(e)) => Some((e.occurred_at, e.occurred_at)),
            (Some((first, last)), Some(e)) => Some(
                (
                    if e.occurred_at@ < first@ {
                        e.occurred_at
                    } else {
                        first
                    },
                    if last@ < e.occurred_at@ {
                        e.occurred_at
                    } else {
                        last
                    },
                ),
            ),
        }
    }
}

/// The first episode with an identifier, if there is one.
pub open spec fn episode_with_id(formed: Seq<EpisodeView>, id: Id) -> Option<EpisodeView>
    decreases formed.len(),
{
    if formed.len() == 0 {
        None
    } else if formed[0].id == id {
        Some(formed[0])
    } else {
        episode_with_id(formed.skip(1), id)
    }
}

/// The episodes of a list.
pub open spec fn episode_views(list: Seq<Episode>) -> Seq<EpisodeView> {
    list.map_values(|e: Episode| e@)
}

/// The links that start at an experience.
pub open spec fn links_out(links: Seq<ExperienceLink>, id: Id) -> Seq<ExperienceLink> {
    links.filter(|l: ExperienceLink| l.from_id == id)
}

/// The links that lead to an experience.
pub open spec fn links_in(links: Seq<ExperienceLink>, id: Id) -> Seq<ExperienceLink> {
    links.filter(|l: ExperienceLink| l.to_id == id)
}

/// Experiences by time; those of one time keep their order.
pub fn by_time(list: Vec<Experience>) -> (sorted: Vec<Experience>)
    ensures
        experiences(sorted@) == arranged(experiences(list@), experience_time()),
        in_order(experiences(sorted@), experience_time()),
{
    let ghost all = experiences(list@);
    let mut sorted: Vec<Experience> = Vec::new();
    let mut i: usize = 0;
    assert(all.take(0) =~= Seq::<ExperienceView>::empty());
    assert(experiences(sorted@) =~= Seq::<ExperienceView>::empty());
    while i < list.len()
        invariant
            i <= list@.len(),
            all == experiences(list@),
            experiences(sorted@) == placed_all(
                Seq::<ExperienceView>::empty(),
                all.take(i as int),
                experience_time(),
            ),
            in_order(experiences(sorted@), experience_time()),
        decreases list@.len() - i,
    {
        let next = list[i].clone();
        let ghost shown = experiences(sorted@);
        let mut n: usize = sorted.len();
        while n > 0 && next.occurred_at.is_before(&sorted[n - 1].occurred_at)
            invariant
                n <= sorted@.len(),
                shown == experiences(sorted@),
                in_order(shown, experience_time()),
                forall|k: int| n <= k < shown.len() ==> next@.occurred_at@ < (
                #[trigger] shown[k]).occurred_at@,
            ensures
                n <= sorted@.len(),
                n > 0 ==> shown[n - 1].occurred_at@ <= next@.occurred_at@,
                forall|k: int| n <= k < shown.len() ==> next@.occurred_at@ < (
                #[trigger] shown[k]).occurred_at@,
            decreases n,
        {
            n -= 1;
        }
        proof {
            assert forall|k: int| 0 <= k < n implies experience_time()(#[trigger] shown[k])
                <= experience_time()(next@) by {
                assert(experience_time()(shown[k]) <= experience_time()(shown[n - 1]));
            }
            lemma_placed_at(shown, next@, experience_time(), n as int);
            lemma_placed(shown, next@, experience_time());
            lemma_placed_all_step(Seq::empty(), all, experience_time(), i as int);
        }
        let ghost added = next@;
        sorted.insert(n, next);
        assert(experiences(sorted@) =~= shown.insert(n as int, added));
        i += 1;
    }
    assert(all.take(i as int) =~= all);
    sorted
}

/// Cuts a list of experiences wherever two neighbours are more than `window`
/// apart, and makes an episode of each run.
pub fn episodes_of_runs(list: &Vec<Experience>, window: Span) -> (episodes: Vec<Episode>)
    ensures
        episodes@.len() == runs(
            experiences(list@),
            experience_time(),
            window.nanos as int,
        ).len(),
        forall|i: int| 0 <= i < episodes@.len() ==> covers(
            (#[trigger] episodes@[i])@,
            runs(experiences(list@), experience_time(), window.nanos as int)[i],
        ),
{
    let ghost all = experiences(list@);
    let ghost gap = window.nanos as int;
    let mut episodes: Vec<Episode> = Vec::new();
    let mut i: usize = 0;
    assert(all.take(0) =~= Seq::<ExperienceView>::empty());
    while i < list.len()
        invariant
            i <= list@.len(),
            all == experiences(list@),
            gap == window.nanos,
            episodes@.len() == runs(all.take(i as int), experience_time(), gap).len(),
            forall|k: int| 0 <= k < episodes@.len() ==> covers(
                (#[trigger] episodes@[k])@,
                runs(all.take(i as int), experience_time(), gap)[k],
            ),
        decreases list@.len() - i,
    {
        let t = list[i].occurred_at;
        let id = list[i].id;
        let ghost before = runs(all.take(i as int), experience_time(), gap);
        let ghost after = runs(all.take(i + 1), experience_time(), gap);
        proof {
            lemma_runs_step(all, experience_time(), gap, i as int);
            lemma_runs(all.take(i as int), experience_time(), gap);
            if before.len() > 0 {
                assert(covers(episodes@[before.len() - 1]@, before[before.len() - 1]));
            }
        }
        let near = episodes.len() > 0 && t.nanos_since(&episodes[episodes.len() - 1].ended_at)
            <= window.nanos;
        let ghost shown = episodes@;
        if near {
            let last = episodes.pop().unwrap();
            let mut ids = last.experience_ids;
            ids.push(id);
            let grown = Episode {
                id: last.id,
                label: last.label,
                experience_ids: ids,
                started_at: last.started_at,
                ended_at: t,
            };
            let ghost run = before.last().push(all[i as int]);
            assert(ids@ =~= run.map_values(|e: ExperienceView| e.id));
            assert(covers(grown@, run));
            assert(after =~= before.drop_last().push(run));
            episodes.push(grown);
            assert(episodes@ =~= shown.drop_last().push(grown));
        } else {
            let mut ids: Vec<Id> = Vec::new();
            ids.push(id);
            let fresh = Episode::new(ids, t, t, "temporal cluster");
            let ghost run = seq![all[i as int]];
            assert(ids@ =~= run.map_values(|e: ExperienceView| e.id));
            assert(covers(fresh@, run));
            assert(after =~= before.push(run));
            episodes.push(fresh);
            assert(episodes@ =~= shown.push(fresh));
        }
        i += 1;
        assert forall|k: int| 0 <= k < episodes@.len() implies covers(
            (#[trigger] episodes@[k])@,
            after[k],
        ) by {
            if k < episodes@.len() - 1 {
                assert(episodes@[k] == shown[k]);
                assert(after[k] == before[k]);
            }
        }
    }
    assert(all.take(i as int) =~= all);
    episodes
}

/// A memory with links between experiences and with episodes.
pub trait LinkedMemory: Memory {
    /// The links, in the order of recording.
    spec fn links(&self) -> Seq<ExperienceLink>;

    /// The episodes formed, in the order of forming.
    spec fn formed(&self) -> Seq<EpisodeView>;

    /// Records a link. Whether its ends are stored is up to the caller.
    fn link_experiences(&mut self, link: ExperienceLink)
        ensures
            final(self).links() == old(self).links().push(link),
            final(self).stored() == old(self).stored(),
            final(self).formed() == old(self).formed(),
    ;

    /// The links that start at an experience.
    fn links_from(&self, experience_id: Id) -> (list: Vec<ExperienceLink>)
        ensures
            list@ == links_out(self.links(), experience_id),
    ;

    /// The links that lead to an experience.
    fn links_to(&self, experience_id: Id) -> (list: Vec<ExperienceLink>)
        ensures
            list@ == links_in(self.links(), experience_id),
    ;

    /// Groups experiences under a label. The episode spans those of them that
    /// are stored; where none is, it spans the present moment.
    fn form_episode(&mut self, experience_ids: Vec<Id>, label: &str) -> (episode: Episode)
        ensures
            episode@.experience_ids == experience_ids@,
            episode@.label == label@,
            match bounds(experience_ids@, old(self).stored()) {
                Some((first, last)) => episode.started_at == first && episode.ended_at == last,
                None => episode.started_at == episode.ended_at,
            },
            final(self).formed() == old(self).formed().push(episode@),
            final(self).stored() == old(self).stored(),
            final(self).links() == old(self).links(),
    ;

    /// The episode with an identifier, if one was formed.
    fn recall_episode(&self, episode_id: Id) -> (r: Option<Episode>)
        ensures
            match episode_with_id(self.formed(), episode_id) {
                Some(e) => r matches Some(episode) && episode@ == e,
                None => r is None,
            },
    ;

    /// All episodes formed.
    fn episodes(&self) -> (list: Vec<Episode>)
        ensures
            episode_views(list@) == self.formed(),
    ;

    /// The stored experiences by time, cut wherever two neighbours are more than
    /// `window` apart. The episodes are not stored.
    fn temporal_clusters(&self, window: Span) -> (list: Vec<Episode>)
        ensures
            list@.len() == temporal_groups(self.stored(), window.nanos as int).len(),
            forall|i: int| 0 <= i < list@.len() ==> covers(
                (#[trigger] list@[i])@,
                temporal_groups(self.stored(), window.nanos as int)[i],
            ),
    {
        let sorted = by_time(self.recall());
        episodes_of_runs(&sorted, window)
    }
}

/// A linked memory in lists.
#[derive(Debug)]
pub struct InMemoryLinked {
    experiences: Vec<Experience>,
    links: Vec<ExperienceLink>,
    episodes: Vec<Episode>,
}

impl InMemoryLinked {
    /// An empty memory.
    pub fn new() -> (r: InMemoryLinked)
        ensures
            r.stored() == Seq::<ExperienceView>::empty(),
            r.links() == Seq::<ExperienceLink>::empty(),
            r.formed() == Seq::<EpisodeView>::empty(),
    {
        let r = InMemoryLinked {
            experiences: Vec::new(),
            links: Vec::new(),
            episodes: Vec::new(),
        };
        assert(r.stored() =~= Seq::<ExperienceView>::empty());
        assert(r.formed() =~= Seq::<EpisodeView>::empty());
        r
    }

    /// When the named experiences that are stored happened, earliest and latest.
    fn bounds_of(&self, ids: &Vec<Id>) -> (r: Option<(Timestamp, Timestamp)>)
        ensures
            r == bounds(ids@, self.stored()),
    {
        let mut r: Option<(Timestamp, Timestamp)> = None;
        let mut i: usize = 0;
        assert(ids@.take(0) =~= Seq::<Id>::empty());
        while i < ids.len()
            invariant
                i <= ids@.len(),
                r == bounds(ids@.take(i as int), self.stored()),
            decreases ids@.len() - i,
        {
            let found = self.find(ids[i]);
            proof {
                assert(ids@.take(i + 1).drop_last() =~= ids@.take(i as int));
                assert(ids@.take(i + 1).last() == ids@[i as int]);
            }
            if let Some(t) = found {
                r = match r {
                    None => Some((t, t)),
                    Some((first, last)) => Some(
                        (
                            if t.is_before(&first) {
                                t
                            } else {
                                first
                            },
                            if last.is_before(&t) {
                                t
                            } else {
                                last
                            },
                        ),
                    ),
                };
            }
            i += 1;
        }
        assert(ids@.take(i as int) =~= ids@);
        r
    }

    /// When the first experience with an identifier happened.
    fn find(&self, id: Id) -> (r: Option<Timestamp>)
        ensures
            r == (match experience_with_id(self.stored(), id) {
                Some(e) => Some(e.occurred_at),
                None => None,
            }),
    {
        let ghost all = self.stored();
        let mut i: usize = 0;
        assert(all.skip(0) =~= all);
        while i < self.experiences.len()
            invariant
                i <= all.len(),
                all == experiences(self.experiences@),
                experience_with_id(all, id) == experience_with_id(all.skip(i as int), id),
            decreases all.len() - i,
        {
            assert(all.skip(i as int)[0] == all[i as int]);
            if self.experiences[i].id == id {
                return Some(self.experiences[i].occurred_at);
            }
            assert(all.skip(i as int).skip(1) =~= all.skip(i + 1));
            i += 1;
        }
        None
    }
}

impl Default for InMemoryLinked {
    fn default() -> (r: InMemoryLinked)
        ensures
            r.stored() == Seq::<ExperienceView>::empty(),
            r.links() == Seq::<ExperienceLink>::empty(),
            r.formed() == Seq::<EpisodeView>::empty(),
    {
        InMemoryLinked::new()
    }
}

impl Memory for InMemoryLinked {
    closed spec fn stored(&self) -> Seq<ExperienceView> {
        experiences(self.experiences@)
    }

    fn store(&mut self, experience: Experience)
        ensures
            final(self).links() == old(self).links(),
            final(self).formed() == old(self).formed(),
    {
        self.experiences.push(experience);
        assert(self.stored() =~= old(self).stored().push(experience@));
    }

    fn recall(&self) -> (list: Vec<Experience>) {
        copy_experiences(&self.experiences)
    }

    fn experience_to_sensation(experience: &Experience) -> (s: Sensation) {
        recollection(experience)
    }
}

impl LinkedMemory for InMemoryLinked {
    closed spec fn links(&self) -> Seq<ExperienceLink> {
        self.links@
    }

    closed spec fn formed(&self) -> Seq<EpisodeView> {
        episode_views(self.episodes@)
    }

    fn link_experiences(&mut self, link: ExperienceLink) {
        self.links.push(link);
    }

    fn links_from(&self, experience_id: Id) -> (list: Vec<ExperienceLink>) {
        let ghost p = |l: ExperienceLink| l.from_id == experience_id;
        let mut list: Vec<ExperienceLink> = Vec::new();
        let mut i: usize = 0;
        proof {
            lemma_filter_none(self.links@, p);
        }
        while i < self.links.len()
            invariant
                i <= self.links@.len(),
                p == (|l: ExperienceLink| l.from_id == experience_id),
                list@ == self.links@.take(i as int).filter(p),
            decreases self.links@.len() - i,
        {
            proof {
                lemma_filter_step(self.links@, p, i as int);
            }
            if self.links[i].from_id == experience_id {
                list.push(self.links[i].clone());
            }
            i += 1;
        }
        proof {
            lemma_filter_none(self.links@, p);
        }
        list
    }

    fn links_to(&self, experience_id: Id) -> (list: Vec<ExperienceLink>) {
        let ghost p = |l: ExperienceLink| l.to_id == experience_id;
        let mut list: Vec<ExperienceLink> = Vec::new();
        let mut i: usize = 0;
        proof {
            lemma_filter_none(self.links@, p);
        }
        while i < self.links.len()
            invariant
                i <= self.links@.len(),
                p == (|l: ExperienceLink| l.to_id == experience_id),
                list@ == self.links@.take(i as int).filter(p),
            decreases self.links@.len() - i,
        {
            proof {
                lemma_filter_step(self.links@, p, i as int);
            }
            if self.links[i].to_id == experience_id {
                list.push(self.links[i].clone());
            }
            i += 1;
        }
        proof {
            lemma_filter_none(self.links@, p);
        }
        list
    }

    fn form_episode(&mut self, experience_ids: Vec<Id>, label: &str) -> (episode: Episode) {
        let (first, last) = match self.bounds_of(&experience_ids) {
            Some(found) => found,
            None => {
                let t = now();
                (t, t)
            },
        };
        let episode = Episode::new(experience_ids, first, last, label);
        self.episodes.push(episode.clone());
        assert(self.formed() =~= old(self).formed().push(episode@));
        episode
    }

    fn recall_episode(&self, episode_id: Id) -> (r: Option<Episode>) {
        let ghost all = self.formed();
        let mut i: usize = 0;
        assert(all.skip(0) =~= all);
        while i < self.episodes.len()
            invariant
                i <= all.len(),
                all == episode_views(self.episodes@),
                episode_with_id(all, episode_id) == episode_with_id(all.skip(i as int), episode_id),
            decreases all.len() - i,
        {
            assert(all.skip(i as int)[0] == all[i as int]);
            if self.episodes[i].id == episode_id {
                return Some(self.episodes[i].clone());
            }
            assert(all.skip(i as int).skip(1) =~= all.skip(i + 1));
            i += 1;
        }
        None
    }

    fn episodes(&self) -> (list: Vec<Episode>) {
        let mut list: Vec<Episode> = Vec::new();
        let mut i: usize = 0;
        while i < self.episodes.len()
            invariant
                i <= self.episodes@.len(),
                list@.len() == i,
                forall|k: int| 0 <= k < i ==> (#[trigger] list@[k])@ == self.episodes@[k]@,
            decreases self.episodes@.len() - i,
        {
            list.push(self.episodes[i].clone());
            i += 1;
        }
        assert(episode_views(list@) =~= self.formed());
        list
    }
}

/// The temporal groups hold every stored experience once, by time; none is
/// empty; within one no step exceeds the window, and from one to the next every
/// step does.
pub proof fn law_temporal_groups_partition_the_store(stored: Seq<ExperienceView>, gap: int)
    ensures
        flat(temporal_groups(stored, gap)).to_multiset() == stored.to_multiset(),
        in_order(flat(temporal_groups(stored, gap)), experience_time()),
        forall|i: int| 0 <= i < temporal_groups(stored, gap).len() ==> (
        #[trigger] temporal_groups(stored, gap)[i]).len() > 0 && is_close(
            temporal_groups(stored, gap)[i],
            experience_time(),
            gap,
        ),
        forall|i: int| 0 < i < temporal_groups(stored, gap).len() ==> is_apart(
            temporal_groups(stored, gap)[i - 1],
            #[trigger] temporal_groups(stored, gap)[i],
            experience_time(),
            gap,
        ),
{
    broadcast use vstd::seq_lib::group_to_multiset_ensures;

    let none = Seq::<ExperienceView>::empty();
    lemma_placed_all(none, stored, experience_time());
    assert(none.to_multiset().add(stored.to_multiset()) =~= stored.to_multiset());
    lemma_runs(arranged(stored, experience_time()), experience_time(), gap);
}

/// An experience that was stored is among what a memory recalls.
pub proof fn law_stored_is_recalled<M: Memory>(before: M, after: M, experience: ExperienceView)
    requires
        after.stored() == before.stored().push(experience),
    ensures
        after.stored().contains(experience),
        forall|e: ExperienceView| before.stored().contains(e) ==> after.stored().contains(e),
{
    let n = before.stored().len() as int;
    assert(after.stored()[n] == experience);
    assert forall|e: ExperienceView| before.stored().contains(e) implies after.stored().contains(
        e,
    ) by {
        let i = choose|i: int| 0 <= i < before.stored().len() && before.stored()[i] == e;
        assert(after.stored()[i] == e);
    }
}

/// The bounds of an episode enclose every named experience that is stored.
pub proof fn law_episode_bounds_enclose(ids: Seq<Id>, stored: Seq<ExperienceView>, i: int)
    requires
        0 <= i < ids.len(),
        experience_with_id(stored, ids[i]) is Some,
    ensures
        bounds(ids, stored) matches Some((first, last)) && first@ <= experience_with_id(
            stored,
            ids[i],
        )->0.occurred_at@ <= last@,
    decreases ids.len(),
{
    let rest = ids.drop_last();
    if i < rest.len() {
        assert(rest[i] == ids[i]);
        law_episode_bounds_enclose(rest, stored, i);
    }
}

/// A recollection tells what was understood, which experience it was and when it
/// happened, each under its own name, and is a sensation of the moment at which the
/// experience happened that names the experience as its origin.
pub proof fn law_recollection_tells_its_experience(s: SensationView, e: ExperienceView)
    requires
        is_recollection(s, e),
    ensures
        s.kind == "memory.related_experience"@,
        s.source == "memory"@,
        s.occurred_at == e.occurred_at,
        s.provenance.kind == (ProvenanceKindView::MemoryRecall { experience_id: e.id }),
        field(s.payload, "id"@) == Some(JsonView::Str(hyphenated(e.id))),
        field(s.payload, "what"@) == Some(JsonView::Str(e.what)),
        field(s.payload, "occurred_at"@) == Some(JsonView::Str(e.occurred_at.spec_zulu())),
        field(s.payload, "observed_at"@) == Some(JsonView::Str(e.observed_at.spec_zulu())),
        field(s.payload, "original_occurred_at"@) == Some(
            JsonView::Str(e.occurred_at.spec_zulu()),
        ),
        field(s.payload, "original_observed_at"@) == Some(
            JsonView::Str(e.observed_at.spec_zulu()),
        ),
        field(s.payload, "impression_ids"@) matches Some(JsonView::Array(items)) && items.len()
            == e.impression_ids.len() && forall|i: int|
            0 <= i < items.len() ==> #[trigger] items[i] == JsonView::Str(
                hyphenated(e.impression_ids[i]),
            ),
{
    reveal_strlit("id");
    reveal_strlit("impression_ids");
    reveal_strlit("observed_at");
    reveal_strlit("occurred_at");
    reveal_strlit("original_observed_at");
    reveal_strlit("original_occurred_at");
    reveal_strlit("what");
    assert("id"@.len() == 2);
    assert("impression_ids"@.len() == 14);
    assert("observed_at"@.len() == 11 && "observed_at"@[1] == 'b');
    assert("occurred_at"@.len() == 11 && "occurred_at"@[1] == 'c');
    assert("original_observed_at"@.len() == 20 && "original_observed_at"@[10] == 'b');
    assert("original_occurred_at"@.len() == 20 && "original_occurred_at"@[10] == 'c');
    assert("what"@.len() == 4);
    let fields = recalled_payload(e)->Object_0;
    lemma_field_at(fields, 0);
    lemma_field_at(fields, 1);
    lemma_field_at(fields, 2);
    lemma_field_at(fields, 3);
    lemma_field_at(fields, 4);
    lemma_field_at(fields, 5);
    lemma_field_at(fields, 6);
}

/// The links from an experience are those that start at it, the links to it those
/// that lead to it; every link is found from both of its ends.
pub proof fn law_links_are_found_from_both_ends(
    links: Seq<ExperienceLink>,
    id: Id,
    link: ExperienceLink,
)
    ensures
        links_out(links, id).contains(link) <==> links.contains(link) && link.from_id == id,
        links_in(links, id).contains(link) <==> links.contains(link) && link.to_id == id,
{
    lemma_filter_members(links, |l: ExperienceLink| l.from_id == id);
    lemma_filter_members(links, |l: ExperienceLink| l.to_id == id);
}

/// The experience with an identifier is the first that was stored with it.
pub proof fn law_experience_is_found_by_its_identifier(stored: Seq<ExperienceView>, id: Id)
    ensures
        match experience_with_id(stored, id) {
            Some(e) => exists|i: int|
                0 <= i < stored.len() && #[trigger] stored[i] == e && e.id == id && forall|j: int|
                    0 <= j < i ==> (#[trigger] stored[j]).id != id,
            None => forall|i: int| 0 <= i < stored.len() ==> (#[trigger] stored[i]).id != id,
        },
    decreases stored.len(),
{
    if stored.len() > 0 && stored[0].id != id {
        let rest = stored.skip(1);
        law_experience_is_found_by_its_identifier(rest, id);
        assert forall|i: int| 1 <= i < stored.len() implies #[trigger] stored[i] == rest[i - 1] by {}
        if let Some(e) = experience_with_id(rest, id) {
            let i = choose|i: int|
                0 <= i < rest.len() && #[trigger] rest[i] == e && e.id == id && forall|j: int|
                    0 <= j < i ==> (#[trigger] rest[j]).id != id;
            assert(stored[i + 1] == e);
        }
    } else if stored.len() > 0 {
        assert(stored[0].id == id);
    }
}

/// The episode with an identifier is the first that was formed with it.
pub proof fn law_episode_is_found_by_its_identifier(formed: Seq<EpisodeView>, id: Id)
    ensures
        match episode_with_id(formed, id) {
            Some(e) => exists|i: int|
                0 <= i < formed.len() && #[trigger] formed[i] == e && e.id == id && forall|j: int|
                    0 <= j < i ==> (#[trigger] formed[j]).id != id,
            None => forall|i: int| 0 <= i < formed.len() ==> (#[trigger] formed[i]).id != id,
        },
    decreases formed.len(),
{
    if formed.len() > 0 && formed[0].id != id {
        let rest = formed.skip(1);
        law_episode_is_found_by_its_identifier(rest, id);
        assert forall|i: int| 1 <= i < formed.len() implies #[trigger] formed[i] == rest[i - 1] by {}
        if let Some(e) = episode_with_id(rest, id) {
            let i = choose|i: int|
                0 <= i < rest.len() && #[trigger] rest[i] == e && e.id == id && forall|j: int|
                    0 <= j < i ==> (#[trigger] rest[j]).id != id;
            assert(formed[i + 1] == e);
        }
    } else if formed.len() > 0 {
        assert(formed[0].id == id);
    }
}

/// An episode begins when one of the named experiences happened and ends when one
/// of them did; there are no bounds only where none of them is stored.
pub proof fn law_episode_bounds_are_reached(ids: Seq<Id>, stored: Seq<ExperienceView>)
    ensures
        match bounds(ids, stored) {
            Some((first, last)) => {
                &&& exists|i: int|
                    0 <= i < ids.len() && (#[trigger] experience_with_id(
                        stored,
                        ids[i],
                    ) matches Some(e) && e.occurred_at == first)
                &&& exists|i: int|
                    0 <= i < ids.len() && (#[trigger] experience_with_id(
                        stored,
                        ids[i],
                    ) matches Some(e) && e.occurred_at == last)
            },
            None => forall|i: int|
                0 <= i < ids.len() ==> (#[trigger] experience_with_id(stored, ids[i])) is None,
        },
    decreases ids.len(),
{
    if ids.len() > 0 {
        let front = ids.drop_last();
        law_episode_bounds_are_reached(front, stored);
        assert forall|i: int| 0 <= i < front.len() implies #[trigger] front[i] == ids[i] by {}
        let n = ids.len() - 1;
        assert(ids[n] == ids.last());
        if let Some((a, b)) = bounds(front, stored) {
            let i = choose|i: int|
                0 <= i < front.len() && (#[trigger] experience_with_id(
                    stored,
                    front[i],
                ) matches Some(e) && e.occurred_at == a);
            assert(experience_with_id(stored, ids[i]) is Some);
            let j = choose|j: int|
                0 <= j < front.len() && (#[trigger] experience_with_id(
                    stored,
                    front[j],
                ) matches Some(e) && e.occurred_at == b);
            assert(experience_with_id(stored, ids[j]) is Some);
        } else {
            assert forall|i: int| 0 <= i < front.len() implies (#[trigger] experience_with_id(
                stored,
                ids[i],
            )) is None by {
                assert(experience_with_id(stored, front[i]) is None);
            }
        }
        assert(experience_with_id(stored, ids[n]) == experience_with_id(stored, ids.last()));
        match (bounds(front, stored), experience_with_id(stored, ids.last())) {
            (None, None) => {
                assert forall|i: int| 0 <= i < ids.len() implies (#[trigger] experience_with_id(
                    stored,
                    ids[i],
                )) is None by {
                    if i < n {
                        assert(experience_with_id(stored, front[i]) is None);
                    }
                }
            },
            _ => {},
        }
    }
}

/// Two stored experiences that follow each other in time are in one episode where
/// no more than the window lies between them, and in two where more does; an
/// episode names its experiences in the order in which they happened, and spans
/// the time from the first to the last.
pub proof fn law_temporal_episodes_are_cut_by_the_window(
    stored: Seq<ExperienceView>,
    gap: int,
    episodes: Seq<EpisodeView>,
)
    requires
        episodes.len() == temporal_groups(stored, gap).len(),
        forall|i: int|
            0 <= i < episodes.len() ==> covers(
                #[trigger] episodes[i],
                temporal_groups(stored, gap)[i],
            ),
    ensures
        forall|i: int|
            0 <= i < episodes.len() ==> {
                let run = temporal_groups(stored, gap)[i];
                &&& run.len() > 0
                &&& (#[trigger] episodes[i]).experience_ids.len() == run.len()
                &&& forall|k: int|
                    0 <= k < run.len() ==> #[trigger] episodes[i].experience_ids[k] == run[k].id
                &&& episodes[i].started_at == run[0].occurred_at
                &&& episodes[i].ended_at == run.last().occurred_at
                &&& forall|k: int|
                    0 < k < run.len() ==> 0 <= (#[trigger] run[k]).occurred_at@ - run[k
                        - 1].occurred_at@ <= gap
            },
        forall|i: int|
            0 < i < episodes.len() ==> (#[trigger] episodes[i]).started_at@ - episodes[i
                - 1].ended_at@ > gap,
        flat(temporal_groups(stored, gap)).to_multiset() == stored.to_multiset(),
{
    law_temporal_groups_partition_the_store(stored, gap);
    let groups = temporal_groups(stored, gap);
    let all = flat(groups);
    assert forall|i: int| 0 <= i < episodes.len() implies {
        let run = groups[i];
        &&& run.len() > 0
        &&& (#[trigger] episodes[i]).experience_ids.len() == run.len()
        &&& forall|k: int|
            0 <= k < run.len() ==> #[trigger] episodes[i].experience_ids[k] == run[k].id
        &&& episodes[i].started_at == run[0].occurred_at
        &&& episodes[i].ended_at == run.last().occurred_at
        &&& forall|k: int|
            0 < k < run.len() ==> 0 <= (#[trigger] run[k]).occurred_at@ - run[k - 1].occurred_at@
                <= gap
    } by {
        assert(covers(episodes[i], groups[i]));
        let run = groups[i];
        assert(is_close(run, experience_time(), gap));
        assert forall|k: int| 0 < k < run.len() implies 0 <= (#[trigger] run[k]).occurred_at@ - run[k
            - 1].occurred_at@ <= gap by {
            let at = lemma_flat_at(groups, i, k);
            let before = lemma_flat_at(groups, i, k - 1);
            assert(experience_time()(all[before]) <= experience_time()(all[at]));
            assert(experience_time()(run[k]) - experience_time()(run[k - 1]) <= gap);
        }
    }
    assert forall|i: int| 0 < i < episodes.len() implies (#[trigger] episodes[i]).started_at@
        - episodes[i - 1].ended_at@ > gap by {
        assert(covers(episodes[i], groups[i]));
        assert(covers(episodes[i - 1], groups[i - 1]));
        assert(is_apart(groups[i - 1], groups[i], experience_time(), gap));
    }
}

/// Where a member of a run stands among all that the runs hold.
proof fn lemma_flat_at(groups: Seq<Seq<ExperienceView>>, i: int, k: int) -> (at: int)
    requires
        0 <= i < groups.len(),
        0 <= k < groups[i].len(),
    ensures
        at == flat(groups.take(i)).len() + k,
        0 <= at < flat(groups).len(),
        flat(groups)[at] == groups[i][k],
    decreases groups.len(),
{
    let front = groups.drop_last();
    if i == groups.len() - 1 {
        assert(groups.take(i) =~= front);
        (flat(front).len() + k) as int
    } else {
        assert(front.take(i) =~= groups.take(i));
        assert(front[i] == groups[i]);
        lemma_flat_at(front, i, k)
    }
}

} // verus!
