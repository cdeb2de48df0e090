//! What the server decides about requests before anything is perceived.

use vstd::prelude::*;

use crate::text::{blank, is_blank, same, trim, trimmed};

verus! {

/// The channels of a plain frame server.
pub open spec fn channels() -> Seq<Seq<char>> {
    seq!["vision-frame"@, "face"@, "motion"@, "scene"@]
}

/// The channels of a plain frame server.
pub fn faculties() -> (list: Vec<&'static str>)
    ensures
        list@.len() == 4,
        forall|i: int| 0 <= i < 4 ==> (#[trigger] list@[i])@ == channels()[i],
{
    let mut list: Vec<&'static str> = Vec::new();
    list.push("vision-frame");
    list.push("face");
    list.push("motion");
    list.push("scene");
    list
}

/// Admits a socket to a channel; one that is unknown is refused with words.
pub fn admit_socket(faculty: &str) -> (r: Result<(), String>)
    ensures
        match r {
            Ok(()) => channels().contains(faculty@),
            Err(e) => !channels().contains(faculty@) && e@ == "unknown faculty '"@ + faculty@
                + "'"@,
        },
{
    let list = faculties();
    let mut i: usize = 0;
    while i < list.len()
        invariant
            i <= list@.len(),
            list@.len() == 4,
            forall|k: int| 0 <= k < 4 ==> (#[trigger] list@[k])@ == channels()[k],
            forall|k: int| 0 <= k < i ==> #[trigger] channels()[k] != faculty@,
        decreases list@.len() - i,
    {
        if same(list[i], faculty) {
            assert(channels()[i as int] == faculty@);
            return Ok(());
        }
        i += 1;
    }
    let mut e = "unknown faculty '".to_owned();
    e.push_str(faculty);
    e.push_str("'");
    Err(e)
}

/// What is to be spoken, and in which variant of the language.
pub struct SynthesisJob {
    /// The text.
    pub text: String,
    /// The variant.
    pub variant: String,
}

/// Accepts a text to be spoken; a blank one is refused.
pub fn accept_synthesis(text: &str, variant: Option<String>) -> (r: Result<SynthesisJob, String>)
    ensures
        match r {
            Ok(job) => {
                &&& !is_blank(text@)
                &&& job.text@ == trimmed(text@)
                &&& job.variant@ == (match variant {
                    Some(v) => v@,
                    None => "en-US"@,
                })
            },
            Err(e) => is_blank(text@) && e@ == "text must not be empty"@,
        },
{
    if blank(text) {
        return Err("text must not be empty".to_owned());
    }
    let variant = match variant {
        Some(v) => v,
        None => "en-US".to_owned(),
    };
    Ok(SynthesisJob { text: trim(text).to_owned(), variant })
}

} // verus!
