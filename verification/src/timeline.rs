//! A single sequence of sensations, impressions and experiences, by time.

use vstd::prelude::*;
use vstd::slice::slice_subrange;

use crate::experience::{Experience, ExperienceView};
use crate::ident::{copy_ids, has_id, Id};
use crate::impression::{Impression, ImpressionView};
use crate::sensation::{ProvenanceKindView, Sensation, SensationView};
use crate::seqs::{
    flat, in_order, is_apart, is_close, lemma_filter_members, lemma_filter_none, lemma_filter_step, lemma_filter_stretch,
    lemma_placed, lemma_placed_at, lemma_runs, lemma_runs_step, placed, runs,
};
use crate::time::{Span, Timestamp};

verus! {

/// A single entry of a timeline.
#[derive(Debug, PartialEq, Eq)]
pub enum TimelineEntry {
    /// Something perceived.
    Sensation(Sensation),
    /// Something noticed.
    Impression(Impression),
    /// Something understood.
    Experience(Experience),
}

/// What a [`TimelineEntry`] is.
pub ghost enum EntryView {
    Sensation(SensationView),
    Impression(ImpressionView),
    Experience(ExperienceView),
}

/// The type of an entry.
#[derive(Debug, Clone, Copy, PartialEq, Eq, Structural)]
pub enum TimelineEntryKind {
    /// A sensation.
    Sensation,
    /// An impression.
    Impression,
    /// An experience.
    Experience,
}

impl View for TimelineEntry {
    type V = EntryView;

    open spec fn view(&self) -> EntryView {
        match self {
            TimelineEntry::Sensation(s) => EntryView::Sensation(s@),
            TimelineEntry::Impression(i) => EntryView::Impression(i@),
            TimelineEntry::Experience(e) => EntryView::Experience(e@),
        }
    }
}

impl EntryView {
    /// The entry's identifier.
    pub open spec fn id(self) -> Id {
        match self {
            EntryView::Sensation(s) => s.id,
            EntryView::Impression(i) => i.id,
            EntryView::Experience(e) => e.id,
        }
    }

    /// The entry's type.
    pub open spec fn kind(self) -> TimelineEntryKind {
        match self {
            EntryView::Sensation(_) => TimelineEntryKind::Sensation,
            EntryView::Impression(_) => TimelineEntryKind::Impression,
            EntryView::Experience(_) => TimelineEntryKind::Experience,
        }
    }

    /// When the underlying event happened.
    pub open spec fn occurred_at(self) -> Timestamp {
        match self {
            EntryView::Sensation(s) => s.occurred_at,
            EntryView::Impression(i) => i.occurred_at,
            EntryView::Experience(e) => e.occurred_at,
        }
    }

    /// When the system became aware of it.
    pub open spec fn observed_at(self) -> Timestamp {
        match self {
            EntryView::Sensation(s) => s.observed_at,
            EntryView::Impression(i) => i.observed_at,
            EntryView::Experience(e) => e.observed_at,
        }
    }

    /// Whether the entry refers to a sensation directly.
    pub open spec fn names_sensation(self, id: Id) -> bool {
        match self {
            EntryView::Sensation(s) => s.provenance.names_sensation(id),
            EntryView::Impression(i) => i.about.contains(id),
            EntryView::Experience(_) => false,
        }
    }

    /// Whether the entry refers to an impression directly.
    pub open spec fn names_impression(self, id: Id) -> bool {
        self matches EntryView::Experience(e) && e.impression_ids.contains(id)
    }

    /// Whether the entry refers to an experience directly.
    pub open spec fn names_experience(self, id: Id) -> bool {
        self matches EntryView::Sensation(s) && s.provenance.names_experience(id)
    }
}

/// The entries of a list.
pub open spec fn entry_views(list: Seq<TimelineEntry>) -> Seq<EntryView> {
    list.map_values(|e: TimelineEntry| e@)
}

/// The entries that a list refers to.
pub open spec fn entry_ref_views(list: Seq<&TimelineEntry>) -> Seq<EntryView> {
    list.map_values(|e: &TimelineEntry| e@)
}

/// The time by which entries are ordered: when their events happened.
pub open spec fn entry_time() -> spec_fn(EntryView) -> int {
    |e: EntryView| e.occurred_at()@
}

impl Clone for TimelineEntry {
    fn clone(&self) -> (r: TimelineEntry)
        ensures
            r@ == self@,
    {
        match self {
            TimelineEntry::Sensation(s) => TimelineEntry::Sensation(s.clone()),
            TimelineEntry::Impression(i) => TimelineEntry::Impression(i.clone()),
            TimelineEntry::Experience(e) => TimelineEntry::Experience(e.clone()),
        }
    }
}

impl TimelineEntry {
    /// The entry's identifier.
    pub fn id(&self) -> (id: Id)
        ensures
            id == self@.id(),
    {
        match self {
            TimelineEntry::Sensation(s) => s.id,
            TimelineEntry::Impression(i) => i.id,
            TimelineEntry::Experience(e) => e.id,
        }
    }

    /// The entry's type.
    pub fn kind(&self) -> (kind: TimelineEntryKind)
        ensures
            kind == self@.kind(),
    {
        match self {
            TimelineEntry::Sensation(_) => TimelineEntryKind::Sensation,
            TimelineEntry::Impression(_) => TimelineEntryKind::Impression,
            TimelineEntry::Experience(_) => TimelineEntryKind::Experience,
        }
    }

    /// When the underlying event happened.
    pub fn occurred_at(&self) -> (t: Timestamp)
        ensures
            t == self@.occurred_at(),
    {
        match self {
            TimelineEntry::Sensation(s) => s.occurred_at,
            TimelineEntry::Impression(i) => i.occurred_at,
            TimelineEntry::Experience(e) => e.occurred_at,
        }
    }

    /// When the system became aware of it.
    pub fn observed_at(&self) -> (t: Timestamp)
        ensures
            t == self@.observed_at(),
    {
        match self {
            TimelineEntry::Sensation(s) => s.observed_at,
            TimelineEntry::Impression(i) => i.observed_at,
            TimelineEntry::Experience(e) => e.observed_at,
        }
    }

    /// Tells whether the entry refers to a sensation directly.
    pub fn references_sensation(&self, sensation_id: Id) -> (r: bool)
        ensures
            r == self@.names_sensation(sensation_id),
    {
        match self {
            TimelineEntry::Sensation(s) => s.provenance.references_sensation(sensation_id),
            TimelineEntry::Impression(i) => has_id(&i.about, sensation_id),
            TimelineEntry::Experience(_) => false,
        }
    }

    /// Tells whether the entry refers to an impression directly.
    pub fn references_impression(&self, impression_id: Id) -> (r: bool)
        ensures
            r == self@.names_impression(impression_id),
    {
        match self {
            TimelineEntry::Experience(e) => has_id(&e.impression_ids, impression_id),
            _ => false,
        }
    }

    /// Tells whether the entry refers to an experience directly.
    pub fn references_experience(&self, experience_id: Id) -> (r: bool)
        ensures
            r == self@.names_experience(experience_id),
    {
        match self {
            TimelineEntry::Sensation(s) => s.provenance.references_experience(experience_id),
            _ => false,
        }
    }
}

/// A temporally local group of entries.
#[derive(Debug, PartialEq, Eq)]
pub struct EventCluster {
    /// When its first entry happened.
    pub start: Timestamp,
    /// When its last entry happened.
    pub end: Timestamp,
    /// Its entries, in their order.
    pub entries: Vec<TimelineEntry>,
}

/// What an [`EventCluster`] is.
pub ghost struct ClusterView {
    pub start: Timestamp,
    pub end: Timestamp,
    pub entries: Seq<EntryView>,
}

impl View for EventCluster {
    type V = ClusterView;

    open spec fn view(&self) -> ClusterView {
        ClusterView { start: self.start, end: self.end, entries: entry_views(self.entries@) }
    }
}

/// The cluster of a run of entries.
pub open spec fn cluster_of(run: Seq<EntryView>) -> ClusterView {
    ClusterView { start: run[0].occurred_at(), end: run.last().occurred_at(), entries: run }
}

/// The clusters of a sequence of entries: it is cut wherever two neighbours are
/// more than `gap` nanoseconds apart.
pub open spec fn clusters_of(entries: Seq<EntryView>, gap: int) -> Seq<ClusterView> {
    runs(entries, entry_time(), gap).map_values(|run: Seq<EntryView>| cluster_of(run))
}

/// The clusters of a list.
pub open spec fn cluster_views(list: Seq<EventCluster>) -> Seq<ClusterView> {
    list.map_values(|c: EventCluster| c@)
}

/// Cuts a list of entries wherever two neighbours are more than `max_gap` apart.
pub fn event_clusters(entries: &[TimelineEntry], max_gap: Span) -> (clusters: Vec<EventCluster>)
    ensures
        cluster_views(clusters@) == clusters_of(entry_views(entries@), max_gap.nanos as int),
{
    let ghost all = entry_views(entries@);
    let ghost gap = max_gap.nanos as int;
    let mut clusters: Vec<EventCluster> = Vec::new();
    let mut i: usize = 0;
    assert(all.take(0) =~= Seq::<EntryView>::empty());
    assert(cluster_views(clusters@) =~= clusters_of(all.take(0), gap));
    while i < entries.len()
        invariant
            i <= entries@.len(),
            all == entry_views(entries@),
            gap == max_gap.nanos,
            cluster_views(clusters@) == clusters_of(all.take(i as int), gap),
        decreases entries@.len() - i,
    {
        let t = entries[i].occurred_at();
        let ghost before = runs(all.take(i as int), entry_time(), gap);
        proof {
            lemma_runs_step(all, entry_time(), gap, i as int);
            lemma_runs(all.take(i as int), entry_time(), gap);
            assert(cluster_views(clusters@).len() == before.len());
            if before.len() > 0 {
                let last = before.len() - 1;
                assert(cluster_views(clusters@)[last] == cluster_of(before[last]));
                assert(clusters@[last]@ == cluster_of(before[last]));
            }
        }
        let near = clusters.len() > 0 && t.nanos_since(&clusters[clusters.len() - 1].end)
            <= max_gap.nanos;
        let ghost shown = cluster_views(clusters@);
        if near {
            let last = clusters.pop().unwrap();
            let mut members = last.entries;
            members.push(entries[i].clone());
            assert(entry_views(members@) =~= entry_views(last.entries@).push(all[i as int]));
            let grown = EventCluster { start: last.start, end: t, entries: members };
            assert(grown@ == cluster_of(before.last().push(all[i as int])));
            clusters.push(grown);
            assert(cluster_views(clusters@) =~= shown.drop_last().push(grown@));
        } else {
            let mut members: Vec<TimelineEntry> = Vec::new();
            members.push(entries[i].clone());
            assert(entry_views(members@) =~= seq![all[i as int]]);
            let fresh = EventCluster { start: t, end: t, entries: members };
            assert(fresh@ == cluster_of(seq![all[i as int]]));
            clusters.push(fresh);
            assert(cluster_views(clusters@) =~= shown.push(fresh@));
        }
        i += 1;
        assert(cluster_views(clusters@) =~= clusters_of(all.take(i as int), gap));
    }
    assert(all.take(i as int) =~= all);
    clusters
}

/// The clusters laid end to end are the entries; none is empty; within one no
/// step exceeds the gap, and from one to the next every step does; each starts
/// and ends with its first and last entry.
pub proof fn law_event_clusters_partition_the_entries(entries: Seq<EntryView>, gap: int)
    ensures
        flat(clusters_of(entries, gap).map_values(|c: ClusterView| c.entries)) == entries,
        forall|i: int| 0 <= i < clusters_of(entries, gap).len() ==> {
            let c = #[trigger] clusters_of(entries, gap)[i];
            &&& c.entries.len() > 0
            &&& c.start == c.entries[0].occurred_at()
            &&& c.end == c.entries.last().occurred_at()
            &&& is_close(c.entries, entry_time(), gap)
        },
        forall|i: int| 0 < i < clusters_of(entries, gap).len() ==> is_apart(
            clusters_of(entries, gap)[i - 1].entries,
            (#[trigger] clusters_of(entries, gap)[i]).entries,
            entry_time(),
            gap,
        ),
{
    let found = runs(entries, entry_time(), gap);
    lemma_runs(entries, entry_time(), gap);
    assert(clusters_of(entries, gap).map_values(|c: ClusterView| c.entries) =~= found);
    assert forall|i: int| 0 < i < clusters_of(entries, gap).len() implies is_apart(
        clusters_of(entries, gap)[i - 1].entries,
        (#[trigger] clusters_of(entries, gap)[i]).entries,
        entry_time(),
        gap,
    ) by {
        assert(clusters_of(entries, gap)[i].entries == found[i]);
        assert(clusters_of(entries, gap)[i - 1].entries == found[i - 1]);
    }
}

/// A question that an entry answers.
pub enum EntryTest {
    /// Is it of this type?
    OfKind(TimelineEntryKind),
    /// Does it refer to this sensation?
    NamesSensation(Id),
    /// Does it refer to this impression?
    NamesImpression(Id),
    /// Does it refer to this experience?
    NamesExperience(Id),
    /// Is it one of these sensations?
    SensationAmong(Vec<Id>),
    /// Is it one of these impressions?
    ImpressionAmong(Vec<Id>),
}

impl EntryTest {
    /// Whether the answer is yes.
    pub open spec fn holds(self, e: EntryView) -> bool {
        match self {
            EntryTest::OfKind(kind) => e.kind() == kind,
            EntryTest::NamesSensation(id) => e.names_sensation(id),
            EntryTest::NamesImpression(id) => e.names_impression(id),
            EntryTest::NamesExperience(id) => e.names_experience(id),
            EntryTest::SensationAmong(ids) => e is Sensation && ids@.contains(e.id()),
            EntryTest::ImpressionAmong(ids) => e is Impression && ids@.contains(e.id()),
        }
    }

    /// The test as a predicate.
    pub open spec fn predicate(self) -> spec_fn(EntryView) -> bool {
        |e: EntryView| self.holds(e)
    }

    /// Tells whether the answer is yes.
    pub fn passes(&self, entry: &TimelineEntry) -> (r: bool)
        ensures
            r == self.holds(entry@),
    {
        match self {
            EntryTest::OfKind(kind) => entry.kind() == *kind,
            EntryTest::NamesSensation(id) => entry.references_sensation(*id),
            EntryTest::NamesImpression(id) => entry.references_impression(*id),
            EntryTest::NamesExperience(id) => entry.references_experience(*id),
            EntryTest::SensationAmong(ids) => match entry {
                TimelineEntry::Sensation(s) => has_id(ids, s.id),
                _ => false,
            },
            EntryTest::ImpressionAmong(ids) => match entry {
                TimelineEntry::Impression(i) => has_id(ids, i.id),
                _ => false,
            },
        }
    }
}

/// The entries of a type.
pub open spec fn of_kind(entries: Seq<EntryView>, kind: TimelineEntryKind) -> Seq<EntryView> {
    entries.filter(|e: EntryView| e.kind() == kind)
}

/// The entries that refer to a sensation.
pub open spec fn naming_sensation(entries: Seq<EntryView>, id: Id) -> Seq<EntryView> {
    entries.filter(|e: EntryView| e.names_sensation(id))
}

/// The entries that refer to an impression.
pub open spec fn naming_impression(entries: Seq<EntryView>, id: Id) -> Seq<EntryView> {
    entries.filter(|e: EntryView| e.names_impression(id))
}

/// The entries that refer to an experience.
pub open spec fn naming_experience(entries: Seq<EntryView>, id: Id) -> Seq<EntryView> {
    entries.filter(|e: EntryView| e.names_experience(id))
}

/// The entries that happened within an inclusive window.
pub open spec fn within(entries: Seq<EntryView>, start: int, end: int) -> Seq<EntryView> {
    entries.filter(|e: EntryView| start <= e.occurred_at()@ <= end)
}

/// The first entry with an identifier, if there is one.
pub open spec fn entry_with_id(entries: Seq<EntryView>, id: Id) -> Option<EntryView>
    decreases entries.len(),
{
    if entries.len() == 0 {
        None
    } else if entries[0].id() == id {
        Some(entries[0])
    } else {
        entry_with_id(entries.skip(1), id)
    }
}

/// The neighbours of the first entry with an identifier: what it refers to, then
/// what refers to it.
pub open spec fn neighbours(entries: Seq<EntryView>, id: Id) -> Seq<EntryView> {
    match entry_with_id(entries, id) {
        None => Seq::empty(),
        Some(EntryView::Sensation(s)) => naming_sensation(entries, s.id),
        Some(EntryView::Impression(i)) => {
            entries.filter(|e: EntryView| e is Sensation && i.about.contains(e.id()))
                + naming_impression(entries, i.id)
        },
        Some(EntryView::Experience(x)) => {
            entries.filter(|e: EntryView| e is Impression && x.impression_ids.contains(e.id()))
                + naming_experience(entries, x.id)
        },
    }
}

/// Sensations, impressions and experiences in a single sequence, ordered by when
/// their events happened.
#[derive(Debug)]
pub struct TimelineFrame {
    entries: Vec<TimelineEntry>,
}

impl View for TimelineFrame {
    type V = Seq<EntryView>;

    closed spec fn view(&self) -> Seq<EntryView> {
        entry_views(self.entries@)
    }
}

impl Default for TimelineFrame {
    fn default() -> (r: TimelineFrame)
        ensures
            r@ == Seq::<EntryView>::empty(),
    {
        TimelineFrame::new()
    }
}

impl Clone for TimelineFrame {
    fn clone(&self) -> (r: TimelineFrame)
        ensures
            r@ == self@,
    {
        proof {
            use_type_invariant(self);
        }
        let entries = copy_entries(&self.entries);
        TimelineFrame { entries }
    }
}

/// A copy of a list of entries.
pub fn copy_entries(list: &[TimelineEntry]) -> (r: Vec<TimelineEntry>)
    ensures
        entry_views(r@) == entry_views(list@),
{
    let mut r: Vec<TimelineEntry> = Vec::new();
    let mut i: usize = 0;
    while i < list.len()
        invariant
            i <= list@.len(),
            r@.len() == i,
            forall|k: int| 0 <= k < i ==> (#[trigger] r@[k])@ == list@[k]@,
        decreases list@.len() - i,
    {
        r.push(list[i].clone());
        i += 1;
    }
    assert(entry_views(r@) =~= entry_views(list@));
    r
}

impl TimelineFrame {
    /// The entries never go back in time.
    #[verifier::type_invariant]
    spec fn chronological(self) -> bool {
        in_order(entry_views(self.entries@), entry_time())
    }

    /// An empty frame.
    pub fn new() -> (r: TimelineFrame)
        ensures
            r@ == Seq::<EntryView>::empty(),
    {
        let entries: Vec<TimelineEntry> = Vec::new();
        assert(entry_views(entries@) =~= Seq::<EntryView>::empty());
        TimelineFrame { entries }
    }

    /// The number of leading entries that happened before `t`, or at `t` where
    /// `at_too` says so.
    fn split_at(&self, t: Timestamp, at_too: bool) -> (n: usize)
        ensures
            n <= self@.len(),
            forall|i: int| 0 <= i < n ==> if at_too {
                (#[trigger] self@[i]).occurred_at()@ <= t@
            } else {
                self@[i].occurred_at()@ < t@
            },
            forall|i: int| n <= i < self@.len() ==> if at_too {
                t@ < (#[trigger] self@[i]).occurred_at()@
            } else {
                t@ <= self@[i].occurred_at()@
            },
    {
        proof {
            use_type_invariant(self);
        }
        let mut low: usize = 0;
        let mut high: usize = self.entries.len();
        while low < high
            invariant
                low <= high <= self@.len(),
                self@.len() == self.entries@.len(),
                in_order(self@, entry_time()),
                forall|i: int| 0 <= i < low ==> if at_too {
                    (#[trigger] self@[i]).occurred_at()@ <= t@
                } else {
                    self@[i].occurred_at()@ < t@
                },
                forall|i: int| high <= i < self@.len() ==> if at_too {
                    t@ < (#[trigger] self@[i]).occurred_at()@
                } else {
                    t@ <= self@[i].occurred_at()@
                },
            decreases high - low,
        {
            let middle: usize = low + (high - low) / 2;
            let here = self.entries[middle].occurred_at();
            assert(self@[middle as int].occurred_at() == here);
            assert forall|i: int| 0 <= i <= middle implies (#[trigger] self@[i]).occurred_at()@
                <= here@ by {
                assert(entry_time()(self@[i]) <= entry_time()(self@[middle as int]));
            }
            assert forall|i: int| middle <= i < self@.len() implies here@ <= (
            #[trigger] self@[i]).occurred_at()@ by {
                assert(entry_time()(self@[middle as int]) <= entry_time()(self@[i]));
            }
            let below = if at_too {
                here.at_most(&t)
            } else {
                here.is_before(&t)
            };
            if below {
                low = middle + 1;
            } else {
                high = middle;
            }
        }
        low
    }

    /// Puts an entry behind every one that is not later than it: the frame stays
    /// in order, and entries of one time stay in the order of their arrival.
    pub fn push(&mut self, entry: TimelineEntry)
        ensures
            final(self)@ == placed(old(self)@, entry@, entry_time()),
    {
        let n = self.split_at(entry.occurred_at(), true);
        proof {
            use_type_invariant(&*self);
            lemma_placed_at(self@, entry@, entry_time(), n as int);
            lemma_placed(self@, entry@, entry_time());
        }
        let ghost before = self@;
        let mut entries: Vec<TimelineEntry> = Vec::new();
        assert(entry_views(entries@) =~= Seq::<EntryView>::empty());
        std::mem::swap(&mut entries, &mut self.entries);
        let ghost added = entry@;
        entries.insert(n, entry);
        assert(entry_views(entries@) =~= before.insert(n as int, added));
        self.entries = entries;
    }

    /// All entries, in chronological order.
    pub fn entries(&self) -> (r: &[TimelineEntry])
        ensures
            entry_views(r@) == self@,
            in_order(self@, entry_time()),
    {
        proof {
            use_type_invariant(self);
        }
        self.entries.as_slice()
    }

    /// The last `limit` entries, in chronological order.
    pub fn recent_entries(&self, limit: usize) -> (r: &[TimelineEntry])
        ensures
            entry_views(r@) == self@.skip(if self@.len() <= limit {
                0
            } else {
                self@.len() - limit
            }),
    {
        let len: usize = self.entries.len();
        let start: usize = if len <= limit {
            0
        } else {
            len - limit
        };
        let r = slice_subrange(self.entries.as_slice(), start, len);
        assert(entry_views(r@) =~= self@.skip(start as int));
        r
    }

    /// The entries that pass a test, in chronological order.
    pub fn select(&self, test: &EntryTest) -> (list: Vec<&TimelineEntry>)
        ensures
            entry_ref_views(list@) == self@.filter(test.predicate()),
    {
        let ghost p = test.predicate();
        let mut list: Vec<&TimelineEntry> = Vec::new();
        let mut i: usize = 0;
        proof {
            lemma_filter_none(self@, p);
        }
        assert(entry_ref_views(list@) =~= Seq::<EntryView>::empty());
        while i < self.entries.len()
            invariant
                i <= self@.len(),
                self@ == entry_views(self.entries@),
                p == test.predicate(),
                entry_ref_views(list@) == self@.take(i as int).filter(p),
            decreases self@.len() - i,
        {
            proof {
                lemma_filter_step(self@, p, i as int);
            }
            let entry = &self.entries[i];
            if test.passes(entry) {
                let ghost before = list@;
                list.push(entry);
                assert(entry_ref_views(list@) =~= entry_ref_views(before).push(self@[i as int]));
            }
            i += 1;
        }
        proof {
            lemma_filter_none(self@, p);
        }
        list
    }

    /// The entries of a type.
    pub fn entries_by_kind(&self, kind: TimelineEntryKind) -> (list: Vec<&TimelineEntry>)
        ensures
            entry_ref_views(list@) == of_kind(self@, kind),
    {
        let test = EntryTest::OfKind(kind);
        assert(test.predicate() =~= |e: EntryView| e.kind() == kind);
        self.select(&test)
    }

    /// The entries that refer to a sensation.
    pub fn entries_referencing_sensation(&self, sensation_id: Id) -> (list: Vec<&TimelineEntry>)
        ensures
            entry_ref_views(list@) == naming_sensation(self@, sensation_id),
    {
        let test = EntryTest::NamesSensation(sensation_id);
        assert(test.predicate() =~= |e: EntryView| e.names_sensation(sensation_id));
        self.select(&test)
    }

    /// The entries that refer to an impression.
    pub fn entries_referencing_impression(&self, impression_id: Id) -> (list: Vec<&TimelineEntry>)
        ensures
            entry_ref_views(list@) == naming_impression(self@, impression_id),
    {
        let test = EntryTest::NamesImpression(impression_id);
        assert(test.predicate() =~= |e: EntryView| e.names_impression(impression_id));
        self.select(&test)
    }

    /// The entries that refer to an experience.
    pub fn entries_referencing_experience(&self, experience_id: Id) -> (list: Vec<&TimelineEntry>)
        ensures
            entry_ref_views(list@) == naming_experience(self@, experience_id),
    {
        let test = EntryTest::NamesExperience(experience_id);
        assert(test.predicate() =~= |e: EntryView| e.names_experience(experience_id));
        self.select(&test)
    }

    /// The entries that happened within the inclusive window.
    pub fn entries_between(&self, start: Timestamp, end: Timestamp) -> (r: &[TimelineEntry])
        ensures
            entry_views(r@) == within(self@, start@, end@),
    {
        let ghost p = |e: EntryView| start@ <= e.occurred_at()@ <= end@;
        if end.is_before(&start) {
            proof {
                lemma_filter_stretch(self@, p, 0, 0);
            }
            let r = slice_subrange(self.entries.as_slice(), 0, 0);
            assert(entry_views(r@) =~= self@.subrange(0, 0));
            return r;
        }
        let from = self.split_at(start, false);
        let to = self.split_at(end, true);
        proof {
            if from > to {
                assert(self@[to as int].occurred_at()@ < start@);
                assert(end@ < self@[to as int].occurred_at()@);
            }
            lemma_filter_stretch(self@, p, from as int, to as int);
        }
        let r = slice_subrange(self.entries.as_slice(), from, to);
        assert(entry_views(r@) =~= self@.subrange(from as int, to as int));
        r
    }

    /// The place of the first entry with an identifier, or the number of entries.
    fn place_of(&self, id: Id) -> (n: usize)
        ensures
            n <= self@.len(),
            n < self@.len() ==> entry_with_id(self@, id) == Some(self@[n as int]),
            n == self@.len() ==> entry_with_id(self@, id) is None,
    {
        let mut n: usize = 0;
        assert(self@.skip(0) =~= self@);
        while n < self.entries.len()
            invariant
                n <= self@.len(),
                self@ == entry_views(self.entries@),
                entry_with_id(self@, id) == entry_with_id(self@.skip(n as int), id),
            decreases self@.len() - n,
        {
            if self.entries[n].id() == id {
                assert(self@.skip(n as int)[0] == self@[n as int]);
                return n;
            }
            assert(self@.skip(n as int)[0] == self@[n as int]);
            assert(self@.skip(n as int).skip(1) =~= self@.skip(n + 1));
            n += 1;
        }
        n
    }

    /// The neighbours of an entry: what it refers to, then what refers to it.
    pub fn related_entries(&self, entry_id: Id) -> (list: Vec<&TimelineEntry>)
        ensures
            entry_ref_views(list@) == neighbours(self@, entry_id),
    {
        let n = self.place_of(entry_id);
        if n == self.entries.len() {
            let list: Vec<&TimelineEntry> = Vec::new();
            assert(entry_ref_views(list@) =~= Seq::<EntryView>::empty());
            return list;
        }
        assert(self@[n as int] == self.entries@[n as int]@);
        match &self.entries[n] {
            TimelineEntry::Sensation(s) => self.entries_referencing_sensation(s.id),
            TimelineEntry::Impression(i) => {
                let about = copy_ids(&i.about);
                let test = EntryTest::SensationAmong(about);
                assert(test.predicate() =~= |e: EntryView|
                    e is Sensation && i@.about.contains(e.id()));
                self.chained(&test, self.entries_referencing_impression(i.id))
            },
            TimelineEntry::Experience(x) => {
                let ids = copy_ids(&x.impression_ids);
                let test = EntryTest::ImpressionAmong(ids);
                assert(test.predicate() =~= |e: EntryView|
                    e is Impression && x@.impression_ids.contains(e.id()));
                self.chained(&test, self.entries_referencing_experience(x.id))
            },
        }
    }

    /// The entries that pass a test, then those of a list.
    fn chained<'a>(&'a self, test: &EntryTest, more: Vec<&'a TimelineEntry>) -> (list: Vec<
        &'a TimelineEntry,
    >)
        ensures
            entry_ref_views(list@) == self@.filter(test.predicate()) + entry_ref_views(more@),
    {
        let mut list = self.select(test);
        let ghost first = list@;
        let mut more = more;
        let ghost second = more@;
        list.append(&mut more);
        assert(list@ =~= first + second);
        assert(entry_ref_views(list@) =~= entry_ref_views(first) + entry_ref_views(second));
        list
    }

    /// The number of entries.
    pub fn len(&self) -> (n: usize)
        ensures
            n == self@.len(),
    {
        self.entries.len()
    }

    /// Tells whether the frame has no entries.
    pub fn is_empty(&self) -> (r: bool)
        ensures
            r == (self@.len() == 0),
    {
        self.entries.len() == 0
    }
}

/// Pushing an entry keeps the frame in order, adds that entry and loses none.
pub proof fn law_push_keeps_order_and_entries(frame: Seq<EntryView>, entry: EntryView)
    requires
        in_order(frame, entry_time()),
    ensures
        in_order(placed(frame, entry, entry_time()), entry_time()),
        placed(frame, entry, entry_time()).to_multiset() == frame.to_multiset().insert(entry),
{
    lemma_placed(frame, entry, entry_time());
}

/// Pushing an entry moves no earlier or equally early entry: it comes to stand
/// behind all of them, and before every later one.
pub proof fn law_push_is_stable(frame: Seq<EntryView>, entry: EntryView, n: int)
    requires
        0 <= n <= frame.len(),
        forall|i: int| 0 <= i < n ==> (#[trigger] frame[i]).occurred_at()@ <= entry.occurred_at()@,
        forall|i: int| n <= i < frame.len() ==> entry.occurred_at()@ < (
        #[trigger] frame[i]).occurred_at()@,
    ensures
        placed(frame, entry, entry_time()).take(n) == frame.take(n),
        placed(frame, entry, entry_time())[n] == entry,
        placed(frame, entry, entry_time()).skip(n + 1) == frame.skip(n),
{
    lemma_placed_at(frame, entry, entry_time(), n);
    assert(frame.insert(n, entry).take(n) =~= frame.take(n));
    assert(frame.insert(n, entry).skip(n + 1) =~= frame.skip(n));
}

/// Entries of one moment keep the order in which they were pushed.
pub proof fn law_same_moment_keeps_arrival_order(
    frame: Seq<EntryView>,
    first: EntryView,
    second: EntryView,
)
    requires
        in_order(frame, entry_time()),
        first.occurred_at()@ == second.occurred_at()@,
    ensures
        exists|n: int|
            0 <= n <= frame.len() && #[trigger] placed(
                placed(frame, first, entry_time()),
                second,
                entry_time(),
            )[n] == first && placed(placed(frame, first, entry_time()), second, entry_time())[n + 1]
                == second,
{
    let t = first.occurred_at()@;
    lemma_split_exists(frame, t);
    let n = choose|n: int|
        0 <= n <= frame.len() && #[trigger] is_split(frame, t, n);
    lemma_placed_at(frame, first, entry_time(), n);
    let one = placed(frame, first, entry_time());
    assert forall|i: int| 0 <= i < n + 1 implies entry_time()(#[trigger] one[i]) <= entry_time()(
        second,
    ) by {
        if i < n {
            assert(one[i] == frame[i]);
        }
    }
    assert forall|i: int| n + 1 <= i < one.len() implies entry_time()(second) < entry_time()(
        #[trigger] one[i],
    ) by {
        assert(one[i] == frame[i - 1]);
    }
    lemma_placed_at(one, second, entry_time(), n + 1);
    let two = placed(one, second, entry_time());
    assert(two[n] == first && two[n + 1] == second);
}

/// Whether a sequence is split at `n` into what is not later than `t` and what
/// is.
pub open spec fn is_split(frame: Seq<EntryView>, t: int, n: int) -> bool {
    &&& forall|i: int| 0 <= i < n ==> (#[trigger] frame[i]).occurred_at()@ <= t
    &&& forall|i: int| n <= i < frame.len() ==> t < (#[trigger] frame[i]).occurred_at()@
}

/// An ordered sequence is split by every moment.
proof fn lemma_split_exists(frame: Seq<EntryView>, t: int)
    requires
        in_order(frame, entry_time()),
    ensures
        exists|n: int| 0 <= n <= frame.len() && #[trigger] is_split(frame, t, n),
    decreases frame.len(),
{
    if frame.len() == 0 || frame.last().occurred_at()@ <= t {
        assert forall|i: int| 0 <= i < frame.len() implies (#[trigger] frame[i]).occurred_at()@
            <= t by {
            assert(entry_time()(frame[i]) <= entry_time()(frame[frame.len() - 1]));
        }
        assert(is_split(frame, t, frame.len() as int));
    } else {
        let rest = frame.drop_last();
        assert forall|i: int, j: int| 0 <= i <= j < rest.len() implies entry_time()(
            #[trigger] rest[i],
        ) <= entry_time()(#[trigger] rest[j]) by {
            assert(rest[i] == frame[i] && rest[j] == frame[j]);
        }
        lemma_split_exists(rest, t);
        let n = choose|n: int| 0 <= n <= rest.len() && #[trigger] is_split(rest, t, n);
        assert(is_split(frame, t, n)) by {
            assert forall|i: int| 0 <= i < n implies (#[trigger] frame[i]).occurred_at()@ <= t by {
                assert(rest[i] == frame[i]);
            }
            assert forall|i: int| n <= i < frame.len() implies t < (
            #[trigger] frame[i]).occurred_at()@ by {
                if i < rest.len() {
                    assert(rest[i] == frame[i]);
                }
            }
        }
    }
}

/// The entries that happened within a window are those from its start to its end,
/// both included, and no others.
pub proof fn law_window_holds_what_happened_in_it(
    frame: Seq<EntryView>,
    start: int,
    end: int,
    e: EntryView,
)
    ensures
        within(frame, start, end).contains(e) <==> frame.contains(e) && start <= e.occurred_at()@
            && e.occurred_at()@ <= end,
{
    lemma_filter_members(frame, |e: EntryView| start <= e.occurred_at()@ <= end);
}

/// The entries of a type are those that are of it; the entries that refer to a
/// sensation are the impressions about it and the sensations derived from it, those
/// that refer to an impression the experiences drawn from it, and those that refer
/// to an experience the sensations that recall it.
pub proof fn law_references_lead_where_they_point(frame: Seq<EntryView>, id: Id, e: EntryView)
    ensures
        of_kind(frame, TimelineEntryKind::Sensation).contains(e) <==> frame.contains(e)
            && e is Sensation,
        of_kind(frame, TimelineEntryKind::Impression).contains(e) <==> frame.contains(e)
            && e is Impression,
        of_kind(frame, TimelineEntryKind::Experience).contains(e) <==> frame.contains(e)
            && e is Experience,
        naming_sensation(frame, id).contains(e) <==> frame.contains(e) && match e {
            EntryView::Impression(i) => i.about.contains(id),
            EntryView::Sensation(s) => match s.provenance.kind {
                ProvenanceKindView::DerivedFromSensations { sensation_ids } => sensation_ids.contains(
                    id,
                ),
                _ => false,
            },
            EntryView::Experience(_) => false,
        },
        naming_impression(frame, id).contains(e) <==> frame.contains(e) && match e {
            EntryView::Experience(x) => x.impression_ids.contains(id),
            _ => false,
        },
        naming_experience(frame, id).contains(e) <==> frame.contains(e) && match e {
            EntryView::Sensation(s) => match s.provenance.kind {
                ProvenanceKindView::MemoryRecall { experience_id } => experience_id == id,
                _ => false,
            },
            _ => false,
        },
{
    lemma_filter_members(frame, |e: EntryView| e.kind() == TimelineEntryKind::Sensation);
    lemma_filter_members(frame, |e: EntryView| e.kind() == TimelineEntryKind::Impression);
    lemma_filter_members(frame, |e: EntryView| e.kind() == TimelineEntryKind::Experience);
    lemma_filter_members(frame, |e: EntryView| e.names_sensation(id));
    lemma_filter_members(frame, |e: EntryView| e.names_impression(id));
    lemma_filter_members(frame, |e: EntryView| e.names_experience(id));
}

proof fn lemma_entry_with_id(frame: Seq<EntryView>, k: int)
    requires
        0 <= k < frame.len(),
        forall|i: int| 0 <= i < k ==> (#[trigger] frame[i]).id() != frame[k].id(),
    ensures
        entry_with_id(frame, frame[k].id()) == Some(frame[k]),
    decreases k,
{
    if k > 0 {
        let rest = frame.skip(1);
        assert(rest[k - 1] == frame[k]);
        assert forall|i: int| 0 <= i < k - 1 implies (#[trigger] rest[i]).id() != rest[k - 1].id() by {
            assert(rest[i] == frame[i + 1]);
        }
        lemma_entry_with_id(rest, k - 1);
        assert(frame[0].id() != frame[k].id());
    }
}

proof fn lemma_no_entry(frame: Seq<EntryView>, id: Id)
    requires
        forall|i: int| 0 <= i < frame.len() ==> (#[trigger] frame[i]).id() != id,
    ensures
        entry_with_id(frame, id) is None,
    decreases frame.len(),
{
    if frame.len() > 0 {
        let rest = frame.skip(1);
        assert forall|i: int| 0 <= i < rest.len() implies (#[trigger] rest[i]).id() != id by {
            assert(rest[i] == frame[i + 1]);
        }
        lemma_no_entry(rest, id);
        assert(frame[0].id() != id);
    }
}

/// The neighbours of an entry are what it is drawn from and what is drawn from it:
/// an impression has the sensations that it is about and the experiences drawn from
/// it, an experience its impressions and the sensations that recall it, and a
/// sensation what is noticed in it and derived from it. An identifier that no entry
/// has, has none.
pub proof fn law_neighbours_are_told_both_ways(frame: Seq<EntryView>, k: int, e: EntryView)
    requires
        0 <= k < frame.len(),
        forall|i: int| 0 <= i < k ==> (#[trigger] frame[i]).id() != frame[k].id(),
    ensures
        neighbours(frame, frame[k].id()).contains(e) <==> frame.contains(e) && match frame[k] {
            EntryView::Sensation(s) => match e {
                EntryView::Impression(i) => i.about.contains(s.id),
                EntryView::Sensation(t) => match t.provenance.kind {
                    ProvenanceKindView::DerivedFromSensations { sensation_ids } => sensation_ids.contains(
                        s.id,
                    ),
                    _ => false,
                },
                EntryView::Experience(_) => false,
            },
            EntryView::Impression(i) => match e {
                EntryView::Sensation(s) => i.about.contains(s.id),
                EntryView::Experience(x) => x.impression_ids.contains(i.id),
                EntryView::Impression(_) => false,
            },
            EntryView::Experience(x) => match e {
                EntryView::Impression(i) => x.impression_ids.contains(i.id),
                EntryView::Sensation(s) => match s.provenance.kind {
                    ProvenanceKindView::MemoryRecall { experience_id } => experience_id == x.id,
                    _ => false,
                },
                EntryView::Experience(_) => false,
            },
        },
        forall|id: Id| (forall|i: int| 0 <= i < frame.len() ==> (#[trigger] frame[i]).id() != id)
            ==> (#[trigger] neighbours(frame, id)).len() == 0,
{
    let id = frame[k].id();
    lemma_entry_with_id(frame, k);
    law_references_lead_where_they_point(frame, id, e);
    match frame[k] {
        EntryView::Sensation(_) => {},
        EntryView::Impression(i) => {
            let p = |e: EntryView| e is Sensation && i.about.contains(e.id());
            lemma_filter_members(frame, p);
            lemma_add_members(frame.filter(p), naming_impression(frame, i.id), e);
        },
        EntryView::Experience(x) => {
            let p = |e: EntryView| e is Impression && x.impression_ids.contains(e.id());
            lemma_filter_members(frame, p);
            lemma_add_members(frame.filter(p), naming_experience(frame, x.id), e);
        },
    }
    assert forall|id: Id| (forall|i: int|
        0 <= i < frame.len() ==> (#[trigger] frame[i]).id() != id) implies (#[trigger] neighbours(
        frame,
        id,
    )).len() == 0 by {
        lemma_no_entry(frame, id);
    }
}

proof fn lemma_add_members(a: Seq<EntryView>, b: Seq<EntryView>, e: EntryView)
    ensures
        (a + b).contains(e) <==> a.contains(e) || b.contains(e),
{
    let all = a + b;
    if a.contains(e) {
        let i = choose|i: int| 0 <= i < a.len() && a[i] == e;
        assert(all[i] == e);
    }
    if b.contains(e) {
        let i = choose|i: int| 0 <= i < b.len() && b[i] == e;
        assert(all[a.len() + i] == e);
    }
    if all.contains(e) {
        let i = choose|i: int| 0 <= i < all.len() && all[i] == e;
        if i < a.len() {
            assert(a[i] == e);
        } else {
            assert(b[i - a.len()] == e);
        }
    }
}

/// Two neighbours in time are in one cluster where no more than the gap lies
/// between the moments at which they happened, and in two where more does; a
/// cluster starts and ends with the moments of its first and last entry.
pub proof fn law_clusters_are_cut_by_the_gap(entries: Seq<EntryView>, gap: int)
    ensures
        flat(clusters_of(entries, gap).map_values(|c: ClusterView| c.entries)) == entries,
        forall|i: int, k: int|
            0 <= i < clusters_of(entries, gap).len() && 0 < k < clusters_of(
                entries,
                gap,
            )[i].entries.len() ==> (#[trigger] clusters_of(entries, gap)[i].entries[k]).occurred_at()@
                - clusters_of(entries, gap)[i].entries[k - 1].occurred_at()@ <= gap,
        forall|i: int|
            0 < i < clusters_of(entries, gap).len() ==> (#[trigger] clusters_of(
                entries,
                gap,
            )[i]).entries[0].occurred_at()@ - clusters_of(
                entries,
                gap,
            )[i - 1].entries.last().occurred_at()@ > gap,
        forall|i: int|
            0 <= i < clusters_of(entries, gap).len() ==> (#[trigger] clusters_of(
                entries,
                gap,
            )[i]).entries.len() > 0 && clusters_of(entries, gap)[i].start == clusters_of(
                entries,
                gap,
            )[i].entries[0].occurred_at() && clusters_of(entries, gap)[i].end == clusters_of(
                entries,
                gap,
            )[i].entries.last().occurred_at(),
{
    law_event_clusters_partition_the_entries(entries, gap);
    let list = clusters_of(entries, gap);
    assert forall|i: int, k: int| 0 <= i < list.len() && 0 < k < list[i].entries.len() implies (
    #[trigger] list[i].entries[k]).occurred_at()@ - list[i].entries[k - 1].occurred_at()@ <= gap by {
        assert(is_close(list[i].entries, entry_time(), gap));
        assert(entry_time()(list[i].entries[k]) - entry_time()(list[i].entries[k - 1]) <= gap);
    }
    assert forall|i: int| 0 < i < list.len() implies (#[trigger] list[i]).entries[0].occurred_at()@
        - list[i - 1].entries.last().occurred_at()@ > gap by {
        assert(is_apart(list[i - 1].entries, list[i].entries, entry_time(), gap));
    }
}

} // verus!
