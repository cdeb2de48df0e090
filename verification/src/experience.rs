//! Meaning extracted from impressions, and its grouping.

use vstd::prelude::*;

use crate::ident::{copy_ids, fresh_id, Id};
use crate::time::{now, Timestamp};

verus! {

/// Meaning extracted from one or more impressions.
#[derive(Debug, PartialEq, Eq)]
pub struct Experience {
    /// The experience's identifier.
    pub id: Id,
    /// The impressions from which the meaning was extracted.
    pub impression_ids: Vec<Id>,
    /// When the underlying events happened.
    pub occurred_at: Timestamp,
    /// When the meaning was understood.
    pub observed_at: Timestamp,
    /// The meaning in words.
    pub what: String,
}

/// What an [`Experience`] is.
pub ghost struct ExperienceView {
    pub id: Id,
    pub impression_ids: Seq<Id>,
    pub occurred_at: Timestamp,
    pub observed_at: Timestamp,
    pub what: Seq<char>,
}

impl View for Experience {
    type V = ExperienceView;

    open spec fn view(&self) -> ExperienceView {
        ExperienceView {
            id: self.id,
            impression_ids: self.impression_ids@,
            occurred_at: self.occurred_at,
            observed_at: self.observed_at,
            what: self.what@,
        }
    }
}

impl Clone for Experience {
    fn clone(&self) -> (r: Experience)
        ensures
            r@ == self@,
    {
        Experience {
            id: self.id,
            impression_ids: copy_ids(&self.impression_ids),
            occurred_at: self.occurred_at,
            observed_at: self.observed_at,
            what: self.what.clone(),
        }
    }
}

impl Experience {
    /// An experience with a fresh identifier.
    pub fn new(
        impression_ids: Vec<Id>,
        occurred_at: Timestamp,
        observed_at: Timestamp,
        what: &str,
    ) -> (r: Experience)
        ensures
            r@ == (ExperienceView {
                id: r.id,
                impression_ids: impression_ids@,
                occurred_at,
                observed_at,
                what: what@,
            }),
    {
        Experience { id: fresh_id(), impression_ids, occurred_at, observed_at, what: what.to_owned() }
    }
}

/// The experiences of a list.
pub open spec fn experiences(list: Seq<Experience>) -> Seq<ExperienceView> {
    list.map_values(|e: Experience| e@)
}

/// A copy of a list of experiences.
pub fn copy_experiences(list: &Vec<Experience>) -> (r: Vec<Experience>)
    ensures
        experiences(r@) == experiences(list@),
{
    let mut r: Vec<Experience> = Vec::new();
    let mut i: usize = 0;
    while i < list.len()
        invariant
            i <= list@.len(),
            r@.len() == i,
            forall|k: int| 0 <= k < i ==> (#[trigger] r@[k])@ == list@[k]@,
        decreases list@.len() - i,
    {
        r.push(list[i].clone());
        i += 1;
    }
    assert(experiences(r@) =~= experiences(list@));
    r
}

/// A named group of experiences.
#[derive(Debug, PartialEq, Eq)]
pub struct Episode {
    /// The episode's identifier.
    pub id: Id,
    /// What the period was about.
    pub label: String,
    /// Its experiences, in the order of its formation.
    pub experience_ids: Vec<Id>,
    /// When its earliest experience happened.
    pub started_at: Timestamp,
    /// When its latest experience happened.
    pub ended_at: Timestamp,
}

/// What an [`Episode`] is.
pub ghost struct EpisodeView {
    pub id: Id,
    pub label: Seq<char>,
    pub experience_ids: Seq<Id>,
    pub started_at: Timestamp,
    pub ended_at: Timestamp,
}

impl View for Episode {
    type V = EpisodeView;

    open spec fn view(&self) -> EpisodeView {
        EpisodeView {
            id: self.id,
            label: self.label@,
            experience_ids: self.experience_ids@,
            started_at: self.started_at,
            ended_at: self.ended_at,
        }
    }
}

impl Clone for Episode {
    fn clone(&self) -> (r: Episode)
        ensures
            r@ == self@,
    {
        Episode {
            id: self.id,
            label: self.label.clone(),
            experience_ids: copy_ids(&self.experience_ids),
            started_at: self.started_at,
            ended_at: self.ended_at,
        }
    }
}

impl Episode {
    /// An episode with a fresh identifier.
    pub fn new(
        experience_ids: Vec<Id>,
        started_at: Timestamp,
        ended_at: Timestamp,
        label: &str,
    ) -> (r: Episode)
        ensures
            r@ == (EpisodeView {
                id: r.id,
                label: label@,
                experience_ids: experience_ids@,
                started_at,
                ended_at,
            }),
    {
        Episode { id: fresh_id(), label: label.to_owned(), experience_ids, started_at, ended_at }
    }
}

/// Why one experience is linked to another.
#[derive(Debug, PartialEq, Eq)]
pub enum ExperienceLinkKind {
    /// The first caused or enabled the second.
    Causal,
    /// Both involve the same people.
    Social,
    /// The second followed the first.
    Sequential,
    /// A kind of the application's own.
    Custom(String),
}

impl Clone for ExperienceLinkKind {
    fn clone(&self) -> (r: ExperienceLinkKind)
        ensures
            r == *self,
    {
        match self {
            ExperienceLinkKind::Causal => ExperienceLinkKind::Causal,
            ExperienceLinkKind::Social => ExperienceLinkKind::Social,
            ExperienceLinkKind::Sequential => ExperienceLinkKind::Sequential,
            ExperienceLinkKind::Custom(name) => ExperienceLinkKind::Custom(name.clone()),
        }
    }
}

/// A directed relationship between two experiences.
#[derive(Debug, PartialEq, Eq)]
pub struct ExperienceLink {
    /// The link's identifier.
    pub id: Id,
    /// Where it starts.
    pub from_id: Id,
    /// Where it leads.
    pub to_id: Id,
    /// Why it was drawn.
    pub kind: ExperienceLinkKind,
    /// When it was drawn.
    pub created_at: Timestamp,
}

impl Clone for ExperienceLink {
    fn clone(&self) -> (r: ExperienceLink)
        ensures
            r == *self,
    {
        ExperienceLink {
            id: self.id,
            from_id: self.from_id,
            to_id: self.to_id,
            kind: self.kind.clone(),
            created_at: self.created_at,
        }
    }
}

impl ExperienceLink {
    /// A link with a fresh identifier, drawn now.
    pub fn new(from_id: Id, to_id: Id, kind: ExperienceLinkKind) -> (r: ExperienceLink)
        ensures
            r.from_id == from_id,
            r.to_id == to_id,
            r.kind == kind,
    {
        ExperienceLink { id: fresh_id(), from_id, to_id, kind, created_at: now() }
    }
}

} // verus!
