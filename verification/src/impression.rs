//! Observations about sensations.

use vstd::prelude::*;

use crate::ident::{copy_ids, fresh_id, Id};
use crate::json::{Json, JsonView};
use crate::number::{fixed, fixed_text};
use crate::time::Timestamp;

verus! {

/// The kind of an impression that no faculty has classified.
pub const DEFAULT_IMPRESSION_KIND: &'static str = "observation.unknown";

/// The confidence of an impression that no faculty has weighed.
pub const DEFAULT_IMPRESSION_CONFIDENCE: &'static str = "0.5";

/// How sure an observation is: a number, as the text that it is in JSON.
#[derive(Debug, PartialEq, Eq)]
pub struct Confidence {
    /// The text of the number: `1.0` is certainty.
    pub text: String,
}

impl View for Confidence {
    type V = Seq<char>;

    open spec fn view(&self) -> Seq<char> {
        self.text@
    }
}

impl Clone for Confidence {
    fn clone(&self) -> (r: Confidence)
        ensures
            r@ == self@,
    {
        Confidence { text: self.text.clone() }
    }
}

/// A number with so many places; a text that is no number as it is.
pub open spec fn with_places(number: Seq<char>, places: nat) -> Seq<char> {
    match fixed(number, places) {
        Some(text) => text,
        None => number,
    }
}

impl Confidence {
    /// The confidence with a text.
    pub fn of(text: &str) -> (r: Confidence)
        ensures
            r@ == text@,
    {
        Confidence { text: text.to_owned() }
    }

    /// The confidence with three places.
    pub fn text3(&self) -> (s: String)
        ensures
            s@ == with_places(self@, 3),
    {
        match fixed_text(self.text.as_str(), 3) {
            Some(s) => s,
            None => self.text.clone(),
        }
    }

    /// The confidence with two places.
    pub fn text2(&self) -> (s: String)
        ensures
            s@ == with_places(self@, 2),
    {
        match fixed_text(self.text.as_str(), 2) {
            Some(s) => s,
            None => self.text.clone(),
        }
    }
}

/// What was noticed about one or more sensations.
#[derive(Debug, PartialEq, Eq)]
pub struct Impression {
    /// The impression's identifier.
    pub id: Id,
    /// The observation in words.
    pub text: String,
    /// Its classification.
    pub kind: String,
    /// When the noticed event happened.
    pub occurred_at: Timestamp,
    /// When the faculty noticed it.
    pub observed_at: Timestamp,
    /// The faculty that noticed it.
    pub faculty: String,
    /// The sensations that it is about.
    pub about: Vec<Id>,
    /// How sure it is.
    pub confidence: Confidence,
    /// What else is known of it.
    pub payload: Json,
}

/// What an [`Impression`] is.
pub ghost struct ImpressionView {
    pub id: Id,
    pub text: Seq<char>,
    pub kind: Seq<char>,
    pub occurred_at: Timestamp,
    pub observed_at: Timestamp,
    pub faculty: Seq<char>,
    pub about: Seq<Id>,
    pub confidence: Seq<char>,
    pub payload: JsonView,
}

impl View for Impression {
    type V = ImpressionView;

    open spec fn view(&self) -> ImpressionView {
        ImpressionView {
            id: self.id,
            text: self.text@,
            kind: self.kind@,
            occurred_at: self.occurred_at,
            observed_at: self.observed_at,
            faculty: self.faculty@,
            about: self.about@,
            confidence: self.confidence@,
            payload: self.payload@,
        }
    }
}

impl Clone for Impression {
    fn clone(&self) -> (r: Impression)
        ensures
            r@ == self@,
    {
        Impression {
            id: self.id,
            text: self.text.clone(),
            kind: self.kind.clone(),
            occurred_at: self.occurred_at,
            observed_at: self.observed_at,
            faculty: self.faculty.clone(),
            about: copy_ids(&self.about),
            confidence: self.confidence.clone(),
            payload: self.payload.clone(),
        }
    }
}

impl Impression {
    /// An impression with a fresh identifier, unclassified and without a
    /// faculty.
    pub fn new(
        about: Vec<Id>,
        occurred_at: Timestamp,
        observed_at: Timestamp,
        text: &str,
    ) -> (r: Impression)
        ensures
            r@ == (ImpressionView {
                id: r.id,
                text: text@,
                kind: "observation.unknown"@,
                occurred_at,
                observed_at,
                faculty: Seq::empty(),
                about: about@,
                confidence: "0.5"@,
                payload: JsonView::Null,
            }),
    {
        Impression {
            id: fresh_id(),
            text: text.to_owned(),
            kind: DEFAULT_IMPRESSION_KIND.to_owned(),
            occurred_at,
            observed_at,
            faculty: String::new(),
            about,
            confidence: Confidence::of(DEFAULT_IMPRESSION_CONFIDENCE),
            payload: Json::Null,
        }
    }
}

} // verus!
