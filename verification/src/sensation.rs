//! Things that enter cognition.

use vstd::prelude::*;

use crate::ident::{copy_ids, fresh_id, has_id, Id};
use crate::json::{Json, JsonView};
use crate::text::texts;
use crate::time::Timestamp;

verus! {

/// Why a sensation entered cognition.
#[derive(Debug, PartialEq, Eq)]
pub enum ProvenanceKind {
    /// It was perceived directly.
    Direct,
    /// A faculty derived it from other sensations.
    DerivedFromSensations {
        /// Those sensations.
        sensation_ids: Vec<Id>,
    },
    /// It recalls an experience.
    MemoryRecall {
        /// That experience.
        experience_id: Id,
    },
}

/// What a [`ProvenanceKind`] is.
pub ghost enum ProvenanceKindView {
    Direct,
    DerivedFromSensations { sensation_ids: Seq<Id> },
    MemoryRecall { experience_id: Id },
}

impl View for ProvenanceKind {
    type V = ProvenanceKindView;

    open spec fn view(&self) -> ProvenanceKindView {
        match self {
            ProvenanceKind::Direct => ProvenanceKindView::Direct,
            ProvenanceKind::DerivedFromSensations { sensation_ids } => {
                ProvenanceKindView::DerivedFromSensations { sensation_ids: sensation_ids@ }
            },
            ProvenanceKind::MemoryRecall { experience_id } => ProvenanceKindView::MemoryRecall {
                experience_id: *experience_id,
            },
        }
    }
}

impl Clone for ProvenanceKind {
    fn clone(&self) -> (r: ProvenanceKind)
        ensures
            r@ == self@,
    {
        match self {
            ProvenanceKind::Direct => ProvenanceKind::Direct,
            ProvenanceKind::DerivedFromSensations { sensation_ids } => {
                ProvenanceKind::DerivedFromSensations { sensation_ids: copy_ids(sensation_ids) }
            },
            ProvenanceKind::MemoryRecall { experience_id } => ProvenanceKind::MemoryRecall {
                experience_id: *experience_id,
            },
        }
    }
}

impl Default for ProvenanceKind {
    fn default() -> (r: ProvenanceKind)
        ensures
            r@ == ProvenanceKindView::Direct,
    {
        ProvenanceKind::Direct
    }
}

/// Why and by way of which faculties a sensation entered cognition.
#[derive(Debug, PartialEq, Eq)]
pub struct Provenance {
    /// Why it entered.
    pub kind: ProvenanceKind,
    /// The faculties that it came through, first to last.
    pub faculty_chain: Vec<String>,
}

/// What a [`Provenance`] is.
pub ghost struct ProvenanceView {
    pub kind: ProvenanceKindView,
    pub faculty_chain: Seq<Seq<char>>,
}

impl View for Provenance {
    type V = ProvenanceView;

    open spec fn view(&self) -> ProvenanceView {
        ProvenanceView { kind: self.kind@, faculty_chain: texts(self.faculty_chain@) }
    }
}

impl ProvenanceView {
    /// The provenance of a sensation that was perceived directly.
    pub open spec fn direct() -> ProvenanceView {
        ProvenanceView { kind: ProvenanceKindView::Direct, faculty_chain: Seq::empty() }
    }

    /// The provenance of a sensation that recalls an experience.
    pub open spec fn recall(experience_id: Id) -> ProvenanceView {
        ProvenanceView {
            kind: ProvenanceKindView::MemoryRecall { experience_id },
            faculty_chain: Seq::empty(),
        }
    }

    /// The provenance of a sensation derived from others.
    pub open spec fn derived(sensation_ids: Seq<Id>) -> ProvenanceView {
        ProvenanceView {
            kind: ProvenanceKindView::DerivedFromSensations { sensation_ids },
            faculty_chain: Seq::empty(),
        }
    }

    /// The same provenance by way of one more faculty.
    pub open spec fn through(self, faculty: Seq<char>) -> ProvenanceView {
        ProvenanceView { kind: self.kind, faculty_chain: self.faculty_chain.push(faculty) }
    }

    /// Whether the sensation is derived from `sensation_id`.
    pub open spec fn names_sensation(self, sensation_id: Id) -> bool {
        self.kind matches ProvenanceKindView::DerivedFromSensations { sensation_ids }
            && sensation_ids.contains(sensation_id)
    }

    /// Whether the sensation recalls `experience_id`.
    pub open spec fn names_experience(self, experience_id: Id) -> bool {
        self.kind == (ProvenanceKindView::MemoryRecall { experience_id })
    }
}

impl Clone for Provenance {
    fn clone(&self) -> (r: Provenance)
        ensures
            r@ == self@,
    {
        let faculty_chain = self.faculty_chain.clone();
        assert(faculty_chain@ =~= self.faculty_chain@);
        Provenance { kind: self.kind.clone(), faculty_chain }
    }
}

impl Default for Provenance {
    fn default() -> (r: Provenance)
        ensures
            r@ == ProvenanceView::direct(),
    {
        let r = Provenance { kind: ProvenanceKind::Direct, faculty_chain: Vec::new() };
        assert(texts(r.faculty_chain@) =~= Seq::<Seq<char>>::empty());
        r
    }
}

impl Provenance {
    /// The provenance of a sensation that was perceived directly.
    pub fn direct() -> (r: Provenance)
        ensures
            r@ == ProvenanceView::direct(),
    {
        Provenance::default()
    }

    /// The provenance of a sensation derived from one other.
    pub fn derived_from_sensation(sensation_id: Id) -> (r: Provenance)
        ensures
            r@ == ProvenanceView::derived(seq![sensation_id]),
    {
        let mut ids: Vec<Id> = Vec::new();
        ids.push(sensation_id);
        assert(ids@ =~= seq![sensation_id]);
        Provenance::derived_from_sensations(ids)
    }

    /// The provenance of a sensation derived from others.
    pub fn derived_from_sensations(sensation_ids: Vec<Id>) -> (r: Provenance)
        ensures
            r@ == ProvenanceView::derived(sensation_ids@),
    {
        let r = Provenance {
            kind: ProvenanceKind::DerivedFromSensations { sensation_ids },
            faculty_chain: Vec::new(),
        };
        assert(texts(r.faculty_chain@) =~= Seq::<Seq<char>>::empty());
        r
    }

    /// The provenance of a sensation that recalls an experience.
    pub fn memory_recall(experience_id: Id) -> (r: Provenance)
        ensures
            r@ == ProvenanceView::recall(experience_id),
    {
        let r = Provenance {
            kind: ProvenanceKind::MemoryRecall { experience_id },
            faculty_chain: Vec::new(),
        };
        assert(texts(r.faculty_chain@) =~= Seq::<Seq<char>>::empty());
        r
    }

    /// Adds a faculty to the end of the chain.
    pub fn with_faculty(self, faculty: &str) -> (r: Provenance)
        ensures
            r@ == self@.through(faculty@),
    {
        let mut faculty_chain = self.faculty_chain;
        faculty_chain.push(faculty.to_owned());
        let r = Provenance { kind: self.kind, faculty_chain };
        assert(texts(r.faculty_chain@) =~= texts(self.faculty_chain@).push(faculty@));
        r
    }

    /// Tells whether the sensation is derived from `sensation_id`.
    pub fn references_sensation(&self, sensation_id: Id) -> (r: bool)
        ensures
            r == self@.names_sensation(sensation_id),
    {
        match &self.kind {
            ProvenanceKind::DerivedFromSensations { sensation_ids } => has_id(
                sensation_ids,
                sensation_id,
            ),
            _ => false,
        }
    }

    /// Tells whether the sensation recalls `experience_id`.
    pub fn references_experience(&self, experience_id: Id) -> (r: bool)
        ensures
            r == self@.names_experience(experience_id),
    {
        match &self.kind {
            ProvenanceKind::MemoryRecall { experience_id: recalled } => *recalled == experience_id,
            _ => false,
        }
    }
}

/// A thing entering cognition: a frame, an utterance, a recalled experience.
///
/// `occurred_at` is when the event happened and is what a timeline is ordered
/// by; `observed_at` is when the system became aware of it.
#[derive(Debug, PartialEq, Eq)]
pub struct Sensation {
    /// The sensation's identifier.
    pub id: Id,
    /// An open-ended category such as `vision.frame`.
    pub kind: String,
    /// Where it came from, such as `camera_0`.
    pub source: String,
    /// When the event happened.
    pub occurred_at: Timestamp,
    /// When the system became aware of it.
    pub observed_at: Timestamp,
    /// The source's own count, where it has one.
    pub sequence: Option<u64>,
    /// Why it entered cognition.
    pub provenance: Provenance,
    /// What it carries.
    pub payload: Json,
}

/// What a [`Sensation`] is.
pub ghost struct SensationView {
    pub id: Id,
    pub kind: Seq<char>,
    pub source: Seq<char>,
    pub occurred_at: Timestamp,
    pub observed_at: Timestamp,
    pub sequence: Option<u64>,
    pub provenance: ProvenanceView,
    pub payload: JsonView,
}

impl View for Sensation {
    type V = SensationView;

    open spec fn view(&self) -> SensationView {
        SensationView {
            id: self.id,
            kind: self.kind@,
            source: self.source@,
            occurred_at: self.occurred_at,
            observed_at: self.observed_at,
            sequence: self.sequence,
            provenance: self.provenance@,
            payload: self.payload@,
        }
    }
}

impl Clone for Sensation {
    fn clone(&self) -> (r: Sensation)
        ensures
            r@ == self@,
    {
        Sensation {
            id: self.id,
            kind: self.kind.clone(),
            source: self.source.clone(),
            occurred_at: self.occurred_at,
            observed_at: self.observed_at,
            sequence: self.sequence,
            provenance: self.provenance.clone(),
            payload: self.payload.clone(),
        }
    }
}

impl Sensation {
    /// A sensation with a fresh identifier, perceived directly and without a
    /// sequence number.
    pub fn new(
        kind: &str,
        source: &str,
        occurred_at: Timestamp,
        observed_at: Timestamp,
        payload: Json,
    ) -> (r: Sensation)
        ensures
            r@ == (SensationView {
                id: r.id,
                kind: kind@,
                source: source@,
                occurred_at,
                observed_at,
                sequence: None,
                provenance: ProvenanceView::direct(),
                payload: payload@,
            }),
    {
        Sensation {
            id: fresh_id(),
            kind: kind.to_owned(),
            source: source.to_owned(),
            occurred_at,
            observed_at,
            sequence: None,
            provenance: Provenance::direct(),
            payload,
        }
    }

    /// The same sensation with a sequence number.
    pub fn with_sequence(self, sequence: u64) -> (r: Sensation)
        ensures
            r@ == (SensationView { sequence: Some(sequence), ..self@ }),
    {
        let mut r = self;
        r.sequence = Some(sequence);
        r
    }

    /// The same sensation with another provenance.
    pub fn with_provenance(self, provenance: Provenance) -> (r: Sensation)
        ensures
            r@ == (SensationView { provenance: provenance@, ..self@ }),
    {
        let mut r = self;
        r.provenance = provenance;
        r
    }
}

} // verus!
