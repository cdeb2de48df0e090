//! What understands things over time.

use vstd::prelude::*;

use crate::experience::{experiences, Experience, ExperienceView};
use crate::timeline::{EntryView, TimelineFrame};

verus! {

/// A timeline that a wit was shown, and what it understood of it.
pub ghost struct Asked {
    pub frame: Seq<EntryView>,
    pub answer: Seq<ExperienceView>,
}

/// A wit understands things over time: it is shown a timeline and answers with
/// experiences.
pub trait Wit {
    /// What the wit was shown, in turn, and what it understood of it. Each wit
    /// keeps its own record.
    open spec fn asked(&self) -> Seq<Asked> {
        Seq::empty()
    }

    /// What the wit makes of a timeline.
    fn interpret(&mut self, frame: &TimelineFrame) -> (r: Vec<Experience>)
        ensures
            final(self).asked() == old(self).asked().push(
                Asked { frame: frame@, answer: experiences(r@) },
            ),
    ;
}

} // verus!
