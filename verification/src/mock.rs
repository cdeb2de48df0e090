//! Scripted faculties and wits, for behaviour that can be foretold.

use vstd::prelude::*;

use crate::experience::{experiences, Experience, ExperienceView};
use crate::faculty::{noticed_views, sensation_views, Faculty, Shown};
use crate::ident::Id;
use crate::impression::{Impression, ImpressionView};
use crate::json::{field, named, text_field, Fields, Json, JsonView};
use crate::memory::{is_recollection, InMemory, Memory};
use crate::pipeline::{
    answers, are_asked, are_turns, as_perceived, as_understood, asked_after, attend, entries_in,
    everything, perceive_all, recollections, shown_after, AndFaculty, AndWit, CognitionView,
    Faculties, NoFaculties, NoWits, Perceived, Wits,
};
use crate::sensation::{ProvenanceView, Sensation, SensationView};
use crate::seqs::placed_all;
use crate::text::{
    contains, law_replacing_goes_from_the_left, lemma_found, occurs, replace, replaced, same, stands_at,
};
use crate::time::now;
use crate::timeline::{entry_time, entry_views, EntryView, TimelineEntry, TimelineFrame};
use crate::wit::{Asked, Wit};

verus! {

/// Sensations that are emitted on demand.
#[derive(Debug)]
pub struct MockEmitter {
    sensations: Vec<Sensation>,
}

impl Default for MockEmitter {
    fn default() -> (r: MockEmitter)
        ensures
            r@ == Seq::<SensationView>::empty(),
    {
        MockEmitter::new(Vec::new())
    }
}

impl View for MockEmitter {
    type V = Seq<SensationView>;

    closed spec fn view(&self) -> Seq<SensationView> {
        sensation_views(self.sensations@)
    }
}

/// What an utterance carries.
pub open spec fn utterance_payload(text: Seq<char>) -> JsonView {
    JsonView::Object(seq![named("text"@, JsonView::Str(text))])
}

impl MockEmitter {
    /// Emits some sensations.
    pub fn new(sensations: Vec<Sensation>) -> (r: MockEmitter)
        ensures
            r@ == sensation_views(sensations@),
    {
        MockEmitter { sensations }
    }

    /// Emits an utterance that happens now.
    pub fn text(source: &str, text: &str) -> (r: MockEmitter)
        ensures
            r@.len() == 1,
            r@[0] == (SensationView {
                id: r@[0].id,
                kind: "audio.utterance"@,
                source: source@,
                occurred_at: r@[0].occurred_at,
                observed_at: r@[0].occurred_at,
                sequence: None,
                provenance: ProvenanceView::direct(),
                payload: utterance_payload(text@),
            }),
    {
        let t = now();
        let fields = Fields::new().with("text", Json::text(text));
        assert(fields@ =~= utterance_payload(text@)->Object_0);
        let mut sensations: Vec<Sensation> = Vec::new();
        sensations.push(Sensation::new("audio.utterance", source, t, t, fields.object()));
        MockEmitter::new(sensations)
    }

    /// Emits everything that is left.
    pub fn drain(&mut self) -> (list: Vec<Sensation>)
        ensures
            sensation_views(list@) == old(self)@,
            final(self)@ == Seq::<SensationView>::empty(),
    {
        let mut list: Vec<Sensation> = Vec::new();
        std::mem::swap(&mut list, &mut self.sensations);
        assert(self@ =~= Seq::<SensationView>::empty());
        list
    }
}

/// A sensation that a scripted faculty derives.
#[derive(Debug)]
pub struct MockDerivedSensation {
    /// Its kind.
    pub kind: String,
    /// What it carries.
    pub payload: Json,
}

/// What a [`MockDerivedSensation`] is.
pub ghost struct DerivedView {
    pub kind: Seq<char>,
    pub payload: JsonView,
}

impl View for MockDerivedSensation {
    type V = DerivedView;

    open spec fn view(&self) -> DerivedView {
        DerivedView { kind: self.kind@, payload: self.payload@ }
    }
}

impl Clone for MockDerivedSensation {
    fn clone(&self) -> (r: MockDerivedSensation)
        ensures
            r@ == self@,
    {
        MockDerivedSensation { kind: self.kind.clone(), payload: self.payload.clone() }
    }
}

/// What a scripted faculty does with the sensations of a kind.
#[derive(Debug)]
pub struct MockFacultyRule {
    /// The kind.
    pub input_kind: String,
    /// The impression, in which `{kind}`, `{source}` and `{text}` stand for those
    /// of the sensation.
    pub impression: String,
    /// The sensation that it derives, or none.
    pub derived_sensation: Option<MockDerivedSensation>,
}

/// What a [`MockFacultyRule`] is.
pub ghost struct FacultyRuleView {
    pub input_kind: Seq<char>,
    pub impression: Seq<char>,
    pub derived_sensation: Option<DerivedView>,
}

impl View for MockFacultyRule {
    type V = FacultyRuleView;

    open spec fn view(&self) -> FacultyRuleView {
        FacultyRuleView {
            input_kind: self.input_kind@,
            impression: self.impression@,
            derived_sensation: match self.derived_sensation {
                Some(d) => Some(d@),
                None => None,
            },
        }
    }
}

impl Clone for MockFacultyRule {
    fn clone(&self) -> (r: MockFacultyRule)
        ensures
            r@ == self@,
    {
        MockFacultyRule {
            input_kind: self.input_kind.clone(),
            impression: self.impression.clone(),
            derived_sensation: match &self.derived_sensation {
                Some(d) => Some(d.clone()),
                None => None,
            },
        }
    }
}

impl MockFacultyRule {
    /// A rule that notices something.
    pub fn impression(input_kind: &str, impression: &str) -> (r: MockFacultyRule)
        ensures
            r@ == (FacultyRuleView {
                input_kind: input_kind@,
                impression: impression@,
                derived_sensation: None,
            }),
    {
        MockFacultyRule {
            input_kind: input_kind.to_owned(),
            impression: impression.to_owned(),
            derived_sensation: None,
        }
    }

    /// A rule that notices something and derives a sensation.
    pub fn with_derived_sensation(
        input_kind: &str,
        impression: &str,
        derived_kind: &str,
        derived_payload: Json,
    ) -> (r: MockFacultyRule)
        ensures
            r@ == (FacultyRuleView {
                input_kind: input_kind@,
                impression: impression@,
                derived_sensation: Some(
                    DerivedView { kind: derived_kind@, payload: derived_payload@ },
                ),
            }),
    {
        MockFacultyRule {
            input_kind: input_kind.to_owned(),
            impression: impression.to_owned(),
            derived_sensation: Some(
                MockDerivedSensation { kind: derived_kind.to_owned(), payload: derived_payload },
            ),
        }
    }
}

/// The rules of a list.
pub open spec fn rule_views(list: Seq<MockFacultyRule>) -> Seq<FacultyRuleView> {
    list.map_values(|r: MockFacultyRule| r@)
}

/// The text that a sensation carries, or nothing.
pub open spec fn carried_text(payload: JsonView) -> Seq<char> {
    match text_field(payload, "text"@) {
        Some(text) => text,
        None => Seq::empty(),
    }
}

/// A template with what stands for a sensation filled in.
pub open spec fn rendered(template: Seq<char>, s: SensationView) -> Seq<char> {
    replaced(
        replaced(replaced(template, "{kind}"@, s.kind), "{source}"@, s.source),
        "{text}"@,
        carried_text(s.payload),
    )
}

/// Fills in a template.
pub fn render_template(template: &str, sensation: &Sensation) -> (s: String)
    ensures
        s@ == rendered(template@, sensation@),
{
    proof {
        reveal_strlit("");
        assert(""@ =~= Seq::<char>::empty());
    }
    let text = match sensation.payload.str_field("text") {
        Some(text) => text,
        None => "",
    };
    let s = replace(template, "{kind}", sensation.kind.as_str());
    let s = replace(s.as_str(), "{source}", sensation.source.as_str());
    replace(s.as_str(), "{text}", text)
}

/// Whether an impression is what a rule notices in a sensation.
pub open spec fn is_noticed(i: ImpressionView, rule: FacultyRuleView, s: SensationView) -> bool {
    &&& i.text == rendered(rule.impression, s)
    &&& i.about == seq![s.id]
    &&& i.occurred_at == s.occurred_at
    &&& i.kind == "observation.unknown"@
    &&& i.faculty == Seq::<char>::empty()
    &&& i.confidence == "0.5"@
    &&& i.payload == JsonView::Null
}

/// Whether a sensation is what a rule derives from another.
pub open spec fn is_derived(
    derived: SensationView,
    rule: DerivedView,
    name: Seq<char>,
    s: SensationView,
) -> bool {
    derived == (SensationView {
        id: derived.id,
        kind: rule.kind,
        source: name,
        occurred_at: s.occurred_at,
        observed_at: derived.observed_at,
        sequence: None,
        provenance: ProvenanceView::direct(),
        payload: rule.payload,
    })
}

/// Whether some sensations and impressions are what some rules make of a
/// sensation: those of its kind, in their order.
pub open spec fn is_made_of(
    rules: Seq<FacultyRuleView>,
    name: Seq<char>,
    s: SensationView,
    sensations: Seq<SensationView>,
    impressions: Seq<ImpressionView>,
) -> bool
    decreases rules.len(),
{
    if rules.len() == 0 {
        sensations.len() == 0 && impressions.len() == 0
    } else if rules.last().input_kind != s.kind {
        is_made_of(rules.drop_last(), name, s, sensations, impressions)
    } else {
        impressions.len() > 0 && is_noticed(impressions.last(), rules.last(), s) && match rules.last().derived_sensation {
            None => is_made_of(rules.drop_last(), name, s, sensations, impressions.drop_last()),
            Some(derived) => sensations.len() > 0 && is_derived(sensations.last(), derived, name, s)
                && sensations.last().observed_at == impressions.last().observed_at && is_made_of(
                rules.drop_last(),
                name,
                s,
                sensations.drop_last(),
                impressions.drop_last(),
            ),
        }
    }
}

/// A scripted faculty.
pub struct MockFaculty {
    /// Its name, which is the source of what it derives.
    pub name: String,
    /// What it does.
    pub rules: Vec<MockFacultyRule>,
    /// What it was shown, and what it made of it.
    pub history: Ghost<Seq<Shown>>,
}

impl Default for MockFaculty {
    fn default() -> (r: MockFaculty)
        ensures
            r.name@ == Seq::<char>::empty(),
            r.rules@.len() == 0,
            r.shown() == Seq::<Shown>::empty(),
    {
        MockFaculty { name: String::new(), rules: Vec::new(), history: Ghost(Seq::empty()) }
    }
}

impl MockFaculty {
    /// A scripted faculty.
    pub fn new(name: &str, rules: Vec<MockFacultyRule>) -> (r: MockFaculty)
        ensures
            r.name@ == name@,
            r.rules@ == rules@,
            r.shown() == Seq::<Shown>::empty(),
    {
        MockFaculty { name: name.to_owned(), rules, history: Ghost(Seq::empty()) }
    }
}

impl Faculty for MockFaculty {
    open spec fn shown(&self) -> Seq<Shown> {
        self.history@
    }

    fn process(&mut self, sensation: &Sensation) -> (r: (Vec<Sensation>, Vec<Impression>))
        ensures
            is_made_of(
                rule_views(old(self).rules@),
                old(self).name@,
                sensation@,
                sensation_views(r.0@),
                noticed_views(r.1@),
            ),
            final(self).name == old(self).name,
            final(self).rules == old(self).rules,
    {
        let mut sensations: Vec<Sensation> = Vec::new();
        let mut impressions: Vec<Impression> = Vec::new();
        let ghost all = rule_views(self.rules@);
        let ghost before = *self;
        let mut i: usize = 0;
        assert(all.take(0) =~= Seq::<FacultyRuleView>::empty());
        while i < self.rules.len()
            invariant
                i <= self.rules@.len(),
                *self == before,
                all == rule_views(self.rules@),
                is_made_of(
                    all.take(i as int),
                    self.name@,
                    sensation@,
                    sensation_views(sensations@),
                    noticed_views(impressions@),
                ),
            decreases self.rules@.len() - i,
        {
            proof {
                assert(all.take(i + 1).drop_last() =~= all.take(i as int));
                assert(all.take(i + 1).last() == self.rules@[i as int]@);
            }
            let rule = &self.rules[i];
            if same(rule.input_kind.as_str(), sensation.kind.as_str()) {
                let observed_at = now();
                let mut about: Vec<Id> = Vec::new();
                about.push(sensation.id);
                assert(about@ =~= seq![sensation@.id]);
                let text = render_template(rule.impression.as_str(), sensation);
                let ghost noticed = noticed_views(impressions@);
                impressions.push(
                    Impression::new(about, sensation.occurred_at, observed_at, text.as_str()),
                );
                assert(noticed_views(impressions@).drop_last() =~= noticed);
                match &rule.derived_sensation {
                    Some(derived) => {
                        let ghost felt = sensation_views(sensations@);
                        sensations.push(
                            Sensation::new(
                                derived.kind.as_str(),
                                self.name.as_str(),
                                sensation.occurred_at,
                                observed_at,
                                derived.payload.clone(),
                            ),
                        );
                        assert(sensation_views(sensations@).drop_last() =~= felt);
                    },
                    None => {},
                }
            }
            i += 1;
        }
        assert(all.take(i as int) =~= all);
        self.history = Ghost(
            self.history@.push(
                Shown {
                    sensation: sensation@,
                    derived: sensation_views(sensations@),
                    impressions: noticed_views(impressions@),
                },
            ),
        );
        (sensations, impressions)
    }
}

/// What a scripted wit makes of some impressions.
#[derive(Debug)]
pub struct MockWitRule {
    /// What an impression contains.
    pub impression_contains: String,
    /// What it is understood as.
    pub experience: String,
}

/// What a [`MockWitRule`] is.
pub ghost struct WitRuleView {
    pub impression_contains: Seq<char>,
    pub experience: Seq<char>,
}

impl View for MockWitRule {
    type V = WitRuleView;

    open spec fn view(&self) -> WitRuleView {
        WitRuleView {
            impression_contains: self.impression_contains@,
            experience: self.experience@,
        }
    }
}

impl Clone for MockWitRule {
    fn clone(&self) -> (r: MockWitRule)
        ensures
            r@ == self@,
    {
        MockWitRule {
            impression_contains: self.impression_contains.clone(),
            experience: self.experience.clone(),
        }
    }
}

impl MockWitRule {
    /// A rule that understands impressions with a text in them.
    pub fn new(impression_contains: &str, experience: &str) -> (r: MockWitRule)
        ensures
            r@ == (WitRuleView {
                impression_contains: impression_contains@,
                experience: experience@,
            }),
    {
        MockWitRule {
            impression_contains: impression_contains.to_owned(),
            experience: experience.to_owned(),
        }
    }
}

/// The rules of a list.
pub open spec fn wit_rule_views(list: Seq<MockWitRule>) -> Seq<WitRuleView> {
    list.map_values(|r: MockWitRule| r@)
}

/// The rules that an impression meets, each with the impression.
pub open spec fn met_by(i: ImpressionView, rules: Seq<WitRuleView>) -> Seq<
    (ImpressionView, WitRuleView),
>
    decreases rules.len(),
{
    if rules.len() == 0 {
        Seq::empty()
    } else if occurs(i.text, rules.last().impression_contains) {
        met_by(i, rules.drop_last()).push((i, rules.last()))
    } else {
        met_by(i, rules.drop_last())
    }
}

/// The rules that the impressions among some entries meet, entry by entry.
pub open spec fn met_among(entries: Seq<EntryView>, rules: Seq<WitRuleView>) -> Seq<
    (ImpressionView, WitRuleView),
>
    decreases entries.len(),
{
    if entries.len() == 0 {
        Seq::empty()
    } else {
        let rest = met_among(entries.drop_last(), rules);
        match entries.last() {
            EntryView::Impression(i) => rest + met_by(i, rules),
            _ => rest,
        }
    }
}

/// Whether an experience is what a rule makes of an impression.
pub open spec fn is_understood(x: ExperienceView, met: (ImpressionView, WitRuleView)) -> bool {
    &&& x.impression_ids == seq![met.0.id]
    &&& x.occurred_at == met.0.occurred_at
    &&& x.what == met.1.experience
}

/// Whether some experiences are what rules make of impressions, one by one.
pub open spec fn are_understood(
    list: Seq<ExperienceView>,
    met: Seq<(ImpressionView, WitRuleView)>,
) -> bool {
    &&& list.len() == met.len()
    &&& forall|i: int| 0 <= i < list.len() ==> is_understood(#[trigger] list[i], met[i])
}

/// A scripted wit.
pub struct MockWit {
    /// Its name.
    pub name: String,
    /// What it does.
    pub rules: Vec<MockWitRule>,
    /// What it was asked, and what it understood of it.
    pub history: Ghost<Seq<Asked>>,
}

impl Default for MockWit {
    fn default() -> (r: MockWit)
        ensures
            r.name@ == Seq::<char>::empty(),
            r.rules@.len() == 0,
            r.asked() == Seq::<Asked>::empty(),
    {
        MockWit { name: String::new(), rules: Vec::new(), history: Ghost(Seq::empty()) }
    }
}

impl MockWit {
    /// A scripted wit.
    pub fn new(name: &str, rules: Vec<MockWitRule>) -> (r: MockWit)
        ensures
            r.name@ == name@,
            r.rules@ == rules@,
            r.asked() == Seq::<Asked>::empty(),
    {
        MockWit { name: name.to_owned(), rules, history: Ghost(Seq::empty()) }
    }

    fn understand(&self, impression: &Impression, list: &mut Vec<Experience>, Ghost(met): Ghost<
        Seq<(ImpressionView, WitRuleView)>,
    >)
        requires
            are_understood(experiences(old(list)@), met),
        ensures
            are_understood(
                experiences(final(list)@),
                met + met_by(impression@, wit_rule_views(self.rules@)),
            ),
    {
        let ghost all = wit_rule_views(self.rules@);
        let mut i: usize = 0;
        proof {
            assert(all.take(0) =~= Seq::<WitRuleView>::empty());
            assert(met + met_by(impression@, all.take(0)) =~= met);
        }
        while i < self.rules.len()
            invariant
                i <= self.rules@.len(),
                all == wit_rule_views(self.rules@),
                are_understood(
                    experiences(list@),
                    met + met_by(impression@, all.take(i as int)),
                ),
            decreases self.rules@.len() - i,
        {
            proof {
                assert(all.take(i + 1).drop_last() =~= all.take(i as int));
                assert(all.take(i + 1).last() == self.rules@[i as int]@);
            }
            let rule = &self.rules[i];
            if contains(impression.text.as_str(), rule.impression_contains.as_str()) {
                let mut ids: Vec<Id> = Vec::new();
                ids.push(impression.id);
                assert(ids@ =~= seq![impression@.id]);
                let ghost before = experiences(list@);
                let x = Experience::new(ids, impression.occurred_at, now(), rule.experience.as_str());
                list.push(x);
                proof {
                    let so_far = met + met_by(impression@, all.take(i as int));
                    assert(experiences(list@) =~= before.push(x@));
                    assert(met + met_by(impression@, all.take(i + 1)) =~= so_far.push(
                        (impression@, rule@),
                    ));
                }
            }
            i += 1;
        }
        assert(all.take(i as int) =~= all);
    }
}

impl Wit for MockWit {
    open spec fn asked(&self) -> Seq<Asked> {
        self.history@
    }

    fn interpret(&mut self, frame: &TimelineFrame) -> (r: Vec<Experience>)
        ensures
            are_understood(
                experiences(r@),
                met_among(frame@, wit_rule_views(old(self).rules@)),
            ),
            final(self).name == old(self).name,
            final(self).rules == old(self).rules,
    {
        let entries = frame.entries();
        let ghost all = entry_views(entries@);
        let ghost rules = wit_rule_views(self.rules@);
        let ghost before = *self;
        let mut list: Vec<Experience> = Vec::new();
        let mut i: usize = 0;
        proof {
            assert(all.take(0) =~= Seq::<EntryView>::empty());
            assert(experiences(list@) =~= Seq::<ExperienceView>::empty());
        }
        while i < entries.len()
            invariant
                i <= entries@.len(),
                *self == before,
                all == entry_views(entries@),
                rules == wit_rule_views(self.rules@),
                are_understood(experiences(list@), met_among(all.take(i as int), rules)),
            decreases entries@.len() - i,
        {
            proof {
                assert(all.take(i + 1).drop_last() =~= all.take(i as int));
                assert(all.take(i + 1).last() == entries@[i as int]@);
            }
            match &entries[i] {
                TimelineEntry::Impression(impression) => {
                    self.understand(
                        impression,
                        &mut list,
                        Ghost(met_among(all.take(i as int), rules)),
                    );
                },
                _ => {},
            }
            i += 1;
        }
        assert(all.take(i as int) =~= all);
        self.history = Ghost(
            self.history@.push(Asked { frame: frame@, answer: experiences(list@) }),
        );
        list
    }
}

/// Whether a cognition observed a sensation and remembered whatever was
/// understood: the sensation and all that was derived from it was perceived in
/// turn, each wit was then asked about the timeline as it stood, and all that it
/// answered was remembered and joined the timeline.
pub open spec fn observes_all(
    before: CognitionView,
    after: CognitionView,
    sensation: SensationView,
    rounds: Seq<Perceived>,
    asked: Seq<Asked>,
) -> bool {
    let perceived = placed_all(before.entries, entries_in(rounds), entry_time());
    &&& are_turns(sensation, rounds, before.shown.len())
    &&& after.shown == shown_after(before.shown, rounds)
    &&& asked.len() == before.asked.len()
    &&& are_asked(asked, perceived, everything())
    &&& after.asked == asked_after(before.asked, asked)
    &&& after.stored == before.stored + answers(asked)
    &&& after.entries == placed_all(perceived, as_understood(answers(asked)), entry_time())
}

/// The way from sensations to experiences, with every experience remembered. The
/// faculties and the wits are held by their types.
pub struct MockCognition<Fs = NoFaculties, Ws = NoWits> {
    timeline: TimelineFrame,
    memory: InMemory,
    faculties: Fs,
    wits: Ws,
}

impl Default for MockCognition<NoFaculties, NoWits> {
    fn default() -> (r: MockCognition<NoFaculties, NoWits>)
        ensures
            r.entries() == Seq::<EntryView>::empty(),
            r.stored() == Seq::<ExperienceView>::empty(),
            r.shown() == Seq::<Seq<Shown>>::empty(),
            r.asked() == Seq::<Seq<Asked>>::empty(),
    {
        MockCognition::new()
    }
}

impl MockCognition<NoFaculties, NoWits> {
    /// A cognition without faculties and wits, on an empty timeline.
    pub fn new() -> (r: MockCognition<NoFaculties, NoWits>)
        ensures
            r.entries() == Seq::<EntryView>::empty(),
            r.stored() == Seq::<ExperienceView>::empty(),
            r.shown() == Seq::<Seq<Shown>>::empty(),
            r.asked() == Seq::<Seq<Asked>>::empty(),
    {
        MockCognition {
            timeline: TimelineFrame::new(),
            memory: InMemory::new(),
            faculties: NoFaculties {  },
            wits: NoWits {  },
        }
    }
}

impl<Fs: Faculties, Ws: Wits> MockCognition<Fs, Ws> {
    /// The entries of the timeline.
    pub closed spec fn entries(&self) -> Seq<EntryView> {
        self.timeline@
    }

    /// What is remembered.
    pub closed spec fn stored(&self) -> Seq<ExperienceView> {
        self.memory.stored()
    }

    /// What each faculty was shown, in the order of the faculties.
    pub closed spec fn shown(&self) -> Seq<Seq<Shown>> {
        self.faculties.all_shown()
    }

    /// What each wit was asked, in the order of the wits.
    pub closed spec fn asked(&self) -> Seq<Seq<Asked>> {
        self.wits.all_asked()
    }

    /// The state of the cognition.
    pub open spec fn cognition(&self) -> CognitionView {
        CognitionView {
            entries: self.entries(),
            stored: self.stored(),
            shown: self.shown(),
            asked: self.asked(),
        }
    }

    /// The same cognition with one more faculty, behind the others.
    pub fn with_faculty<F: Faculty>(self, faculty: F) -> (r: MockCognition<AndFaculty<Fs, F>, Ws>)
        ensures
            r.entries() == self.entries(),
            r.stored() == self.stored(),
            r.shown() == self.shown().push(faculty.shown()),
            r.asked() == self.asked(),
    {
        MockCognition {
            timeline: self.timeline,
            memory: self.memory,
            faculties: AndFaculty { before: self.faculties, faculty },
            wits: self.wits,
        }
    }

    /// The same cognition with one more wit, behind the others.
    pub fn with_wit<W: Wit>(self, wit: W) -> (r: MockCognition<Fs, AndWit<Ws, W>>)
        ensures
            r.entries() == self.entries(),
            r.stored() == self.stored(),
            r.shown() == self.shown(),
            r.asked() == self.asked().push(wit.asked()),
    {
        MockCognition {
            timeline: self.timeline,
            memory: self.memory,
            faculties: self.faculties,
            wits: AndWit { before: self.wits, wit },
        }
    }

    /// The timeline.
    pub fn timeline(&self) -> (r: &TimelineFrame)
        ensures
            r@ == self.entries(),
    {
        &self.timeline
    }

    /// The store.
    pub fn memory(&self) -> (r: &InMemory)
        ensures
            r.stored() == self.stored(),
    {
        &self.memory
    }

    /// Perceives a sensation and all that the faculties derive from it, asks each
    /// wit about the timeline, and answers with all that they understood.
    pub fn observe(&mut self, sensation: Sensation) -> (understood: Vec<Experience>)
        ensures
            exists|rounds: Seq<Perceived>, asked: Seq<Asked>| #[trigger]
                observes_all(
                    old(self).cognition(),
                    final(self).cognition(),
                    sensation@,
                    rounds,
                    asked,
                ) && experiences(understood@) == answers(asked),
            final(self).stored() == old(self).stored() + experiences(understood@),
    {
        let ghost before = self.cognition();
        let ghost first = sensation@;
        let Ghost(rounds) = attend(&mut self.timeline, &mut self.faculties, sensation);
        let (all, Ghost(asked)) = self.wits.understand_all(&mut self.timeline, &mut self.memory);
        proof {
            assert(observes_all(before, self.cognition(), first, rounds, asked));
        }
        all
    }

    /// Perceives every remembered experience again.
    pub fn recall_into_timeline(&mut self) -> (list: Vec<Sensation>)
        ensures
            list@.len() == old(self).stored().len(),
            forall|i: int|
                0 <= i < list@.len() ==> is_recollection(
                    (#[trigger] list@[i])@,
                    old(self).stored()[i],
                ),
            final(self).stored() == old(self).stored(),
            final(self).entries() == placed_all(
                old(self).entries(),
                as_perceived(sensation_views(list@)),
                entry_time(),
            ),
            final(self).shown() == old(self).shown(),
            final(self).asked() == old(self).asked(),
    {
        let remembered = self.memory.recall();
        let list = recollections::<InMemory>(&remembered);
        perceive_all(&mut self.timeline, &list);
        list
    }
}

/// The text of a sensation is filled in where the template has a place for it.
pub proof fn law_text_is_filled_in(
    before: Seq<char>,
    after: Seq<char>,
    s: SensationView,
    text: Seq<char>,
)
    requires
        forall|i: int| 0 <= i < before.len() ==> #[trigger] before[i] != '{',
        forall|i: int| 0 <= i < after.len() ==> #[trigger] after[i] != '{',
        field(s.payload, "text"@) == Some(JsonView::Str(text)),
    ensures
        rendered(before + "{text}"@ + after, s) == before + text + after,
{
    reveal_strlit("{text}");
    reveal_strlit("{kind}");
    reveal_strlit("{source}");
    let t = before + "{text}"@ + after;
    let n = before.len() as int;
    assert forall|j: int| !stands_at(t, "{kind}"@, j) && !stands_at(t, "{source}"@, j) by {
        if stands_at(t, "{kind}"@, j) {
            assert(t.subrange(j, j + 6)[0] == '{');
            assert(t.subrange(j, j + 6)[1] == 'k');
            lemma_one_brace(before, after, j);
            assert(t[j + 1] == 't');
        }
        if stands_at(t, "{source}"@, j) {
            assert(t.subrange(j, j + 8)[0] == '{');
            assert(t.subrange(j, j + 8)[1] == 's');
            lemma_one_brace(before, after, j);
            assert(t[j + 1] == 't');
        }
    }
    lemma_found(t, "{kind}"@);
    lemma_found(t, "{source}"@);
    assert forall|j: int| 0 <= j < n implies !#[trigger] stands_at(t, "{text}"@, j) by {
        if stands_at(t, "{text}"@, j) {
            assert(t.subrange(j, j + 6)[0] == '{');
            assert(t[j] == before[j]);
        }
    }
    law_replacing_goes_from_the_left(before, "{text}"@, after, text);
    lemma_found(after, "{text}"@);
    assert forall|j: int| !stands_at(after, "{text}"@, j) by {
        if stands_at(after, "{text}"@, j) {
            assert(after.subrange(j, j + 6)[0] == '{');
            assert(after[j] == '{');
        }
    }
    assert(replaced(after, "{text}"@, text) == after);
}

proof fn lemma_one_brace(before: Seq<char>, after: Seq<char>, j: int)
    requires
        forall|i: int| 0 <= i < before.len() ==> #[trigger] before[i] != '{',
        forall|i: int| 0 <= i < after.len() ==> #[trigger] after[i] != '{',
        0 <= j < (before + "{text}"@ + after).len(),
        (before + "{text}"@ + after)[j] == '{',
    ensures
        j == before.len(),
{
    reveal_strlit("{text}");
    let t = before + "{text}"@ + after;
    let n = before.len() as int;
    if j < n {
        assert(t[j] == before[j]);
    } else if j >= n + 6 {
        assert(t[j] == after[j - n - 6]);
    } else {
        assert(t[j] == "{text}"@[j - n]);
    }
}

/// Each rule for the kind of a sensation notices one thing in it, and no other rule
/// notices anything; what is noticed is about that sensation and happened with it.
pub proof fn law_rules_of_the_kind_notice(
    rules: Seq<FacultyRuleView>,
    name: Seq<char>,
    s: SensationView,
    sensations: Seq<SensationView>,
    impressions: Seq<ImpressionView>,
)
    requires
        is_made_of(rules, name, s, sensations, impressions),
    ensures
        impressions.len() == rules.filter(|r: FacultyRuleView| r.input_kind == s.kind).len(),
        sensations.len() <= impressions.len(),
        forall|i: int|
            0 <= i < impressions.len() ==> (#[trigger] impressions[i]).about == seq![s.id]
                && impressions[i].occurred_at == s.occurred_at,
        forall|i: int|
            0 <= i < sensations.len() ==> (#[trigger] sensations[i]).occurred_at == s.occurred_at
                && sensations[i].source == name,
    decreases rules.len(),
{
    let of_kind = |r: FacultyRuleView| r.input_kind == s.kind;
    reveal(Seq::filter);
    if rules.len() > 0 {
        let front = rules.drop_last();
        if rules.last().input_kind != s.kind {
            law_rules_of_the_kind_notice(front, name, s, sensations, impressions);
        } else {
            let less = impressions.drop_last();
            let fewer = if rules.last().derived_sensation is Some {
                sensations.drop_last()
            } else {
                sensations
            };
            law_rules_of_the_kind_notice(front, name, s, fewer, less);
            assert(rules.filter(of_kind) == front.filter(of_kind).push(rules.last()));
            assert forall|i: int| 0 <= i < impressions.len() implies (#[trigger] impressions[i]).about
                == seq![s.id] && impressions[i].occurred_at == s.occurred_at by {
                if i < less.len() {
                    assert(impressions[i] == less[i]);
                } else {
                    assert(impressions[i] == impressions.last());
                }
            }
            assert forall|i: int| 0 <= i < sensations.len() implies (#[trigger] sensations[i]).occurred_at
                == s.occurred_at && sensations[i].source == name by {
                if i < fewer.len() {
                    assert(sensations[i] == fewer[i]);
                } else {
                    assert(sensations[i] == sensations.last());
                }
            }
        }
    }
}

/// Entries are met one after another, in their order; of an impression, just those
/// rules are met whose text stands in it, and no other entry meets any.
pub proof fn law_rules_are_met_in_order(
    before: Seq<EntryView>,
    entry: EntryView,
    rules: Seq<WitRuleView>,
)
    ensures
        entry matches EntryView::Impression(i) ==> met_among(before.push(entry), rules)
            == met_among(before, rules) + met_by(i, rules),
        !(entry is Impression) ==> met_among(before.push(entry), rules) == met_among(before, rules),
        entry matches EntryView::Impression(i) ==> forall|r: WitRuleView| #[trigger]
            met_by(i, rules).contains((i, r)) <==> rules.contains(r) && occurs(
                i.text,
                r.impression_contains,
            ),
{
    assert(before.push(entry).drop_last() =~= before);
    if let EntryView::Impression(i) = entry {
        lemma_met_by(i, rules);
    }
}

proof fn lemma_met_by(i: ImpressionView, rules: Seq<WitRuleView>)
    ensures
        forall|r: WitRuleView| #[trigger]
            met_by(i, rules).contains((i, r)) <==> rules.contains(r) && occurs(
                i.text,
                r.impression_contains,
            ),
    decreases rules.len(),
{
    if rules.len() > 0 {
        let front = rules.drop_last();
        let last = rules.last();
        lemma_met_by(i, front);
        let met = met_by(i, front);
        assert forall|r: WitRuleView| #[trigger]
            met_by(i, rules).contains((i, r)) <==> rules.contains(r) && occurs(
                i.text,
                r.impression_contains,
            ) by {
            assert(rules[rules.len() - 1] == last);
            assert(met.push((i, last))[met.len() as int] == (i, last));
            assert(met.contains((i, r)) <==> front.contains(r) && occurs(
                i.text,
                r.impression_contains,
            ));
            if front.contains(r) {
                let k = choose|k: int| 0 <= k < front.len() && front[k] == r;
                assert(rules[k] == r);
            }
            if rules.contains(r) && r != last {
                let k = choose|k: int| 0 <= k < rules.len() && rules[k] == r;
                assert(front[k] == r);
            }
            if met.contains((i, r)) {
                let k = choose|k: int| 0 <= k < met.len() && met[k] == (i, r);
                assert(met.push((i, last))[k] == (i, r));
            }
            if met.push((i, last)).contains((i, r)) && r != last {
                let k = choose|k: int|
                    0 <= k < met.push((i, last)).len() && met.push((i, last))[k] == (i, r);
                assert(met[k] == (i, r));
            }
        }
    }
}

} // verus!
