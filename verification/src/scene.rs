//! From what was logged to what is lived through: which records are looked at,
//! how they are put on a timeline, and what becomes of the answer.

use std::collections::VecDeque;
use vstd::prelude::*;

use crate::chars::{is_white_space, white_space, CharClass};
use crate::context_frame::{is_snapshot, ContextFrame, FrameView};
use crate::decimal::{decimal, decimal_text};
use crate::digest::{byte_len, text_bytes};
use crate::ident::{fresh_id, has_id, Id};
use crate::impression::{Confidence, Impression, ImpressionView};
use crate::ingestion::{
    fixed_field, fixed_number, location_impression_text, location_text, number_field,
};
use crate::json::{
    field, lemma_field_at, named, text_field, unsigned_field, Fields, Json, JsonView,
};
use crate::llm::{ChatMessage, GenerationRequest, ImageView, MessageView, RequestView};
use crate::logs::{logged, push_limited, MAX_RECORDED_EXPERIENCES};
use crate::messages::{
    BroadcastView, ExperienceRecord, ExperienceRecordView, ImpressionRecordView, MediaView,
    RealTimeExperienceEvent, SensationRecord, SensationRecordView, VisionImpressionRecord,
};
use crate::number::{at_most, fixed, is_at_most};
use crate::realtime_experience::{
    answer_text, are_stamps, format_realtime_experience_prompt, generated_experience_text, last_of,
    prompt_text, StampsView,
};
use crate::scene_context::{
    compact_context_frame, format_context_frame_prompt, frame_view, revision_prompt, tidied,
    CONTEXT_FRAME_MAX_TOKENS, CONTEXT_FRAME_SYSTEM_PROMPT,
};
use crate::sensation::{Sensation, SensationView};
use crate::seqs::{
    arranged, flat, in_order, lemma_placed, lemma_placed_all, lemma_placed_all_step, lemma_placed_at,
    lemma_placed_members, placed, placed_all,
};
use crate::text::{
    chars_of, is_spaced, lemma_trimmed_noop, lowered, optional, same, starts, starts_with, texts,
    to_lower, trim, trimmed,
};
use crate::time::{in_range, Timestamp};
use crate::timeline::{entry_time, EntryView, TimelineEntry, TimelineFrame};
use crate::voice_memory::experience_views;
use crate::voice_records::impression_views;
use crate::ingestion::record_views;

verus! {

/// How sure an impression is that nobody had.
pub const FALLBACK_IMPRESSION_CONFIDENCE: &'static str = "0.5";

/// The latest records that are looked at.
pub const RECENT_SENSATION_PROMPT_LIMIT: usize = 12;

/// The latest impressions whose records are looked at.
pub const RECENT_VISION_IMPRESSION_PROMPT_LIMIT: usize = 12;

/// The length of an answer, in tokens.
pub const REALTIME_EXPERIENCE_MAX_TOKENS: usize = 1024;

/// How sure an experience is.
pub const GENERATED_EXPERIENCE_CONFIDENCE: &'static str = "0.550000011920929";

/// What the generator of experiences is told.
pub const EXPERIENCE_SYSTEM_PROMPT: &'static str =
    "You are the real-time Experience generator. Write first-person lived experience from the system's perspective. Return only plain text, not JSON.";

// ---------------------------------------------------------------------------
// Which records are looked at.

/// Where a record stands: by when it happened, then by when it was observed, and
/// last by its identifier.
pub open spec fn record_key(r: SensationRecordView) -> int {
    (r.occurred_at@ * 0x10000000000000000000000000int + r.observed_at@)
        * 0x100000000000000000000000000000000int + r.id.bits
}

/// The order of records.
pub open spec fn record_order() -> spec_fn(SensationRecordView) -> int {
    |r: SensationRecordView| record_key(r)
}

/// The records that a list refers to.
pub open spec fn record_ref_views(list: Seq<&SensationRecord>) -> Seq<SensationRecordView> {
    list.map_values(|r: &SensationRecord| r@)
}

fn is_later(a: &SensationRecord, b: &SensationRecord) -> (r: bool)
    ensures
        r == (record_key(a@) > record_key(b@)),
{
    let (a1, b1): (i128, i128) = (a.occurred_at.nanos(), b.occurred_at.nanos());
    let (a2, b2): (i128, i128) = (a.observed_at.nanos(), b.observed_at.nanos());
    if a1 != b1 {
        return a1 > b1;
    }
    if a2 != b2 {
        return a2 > b2;
    }
    a.id.bits > b.id.bits
}

fn arrange<'a>(list: &Vec<&'a SensationRecord>) -> (out: Vec<&'a SensationRecord>)
    ensures
        record_ref_views(out@) == arranged(record_ref_views(list@), record_order()),
{
    let ghost all = record_ref_views(list@);
    let ghost none = Seq::<SensationRecordView>::empty();
    let mut out: Vec<&'a SensationRecord> = Vec::new();
    let mut i: usize = 0;
    assert(all.take(0) =~= none);
    assert(record_ref_views(out@) =~= none);
    while i < list.len()
        invariant
            i <= list@.len(),
            none == Seq::<SensationRecordView>::empty(),
            all == record_ref_views(list@),
            record_ref_views(out@) == placed_all(none, all.take(i as int), record_order()),
            in_order(record_ref_views(out@), record_order()),
        decreases list@.len() - i,
    {
        let ghost before = record_ref_views(out@);
        let x = list[i];
        let mut n: usize = out.len();
        while n > 0 && is_later(out[n - 1], x)
            invariant
                n <= out@.len(),
                before == record_ref_views(out@),
                forall|k: int| n <= k < out@.len() ==> record_key(x@) < record_key(#[trigger] before[k]),
            decreases n,
        {
            n -= 1;
        }
        proof {
            assert forall|k: int| 0 <= k < n implies record_order()(#[trigger] before[k])
                <= record_order()(x@) by {
                assert(record_order()(before[k]) <= record_order()(before[n - 1]));
            }
            lemma_placed_at(before, x@, record_order(), n as int);
            lemma_placed(before, x@, record_order());
            lemma_placed_all_step(none, all, record_order(), i as int);
            assert(all[i as int] == x@);
        }
        out.insert(n, x);
        assert(record_ref_views(out@) =~= before.insert(n as int, x@));
        i += 1;
    }
    assert(all.take(i as int) =~= all);
    out
}

/// The identifiers of some records.
pub open spec fn record_ids(list: Seq<SensationRecordView>) -> Seq<Id> {
    list.map_values(|r: SensationRecordView| r.id)
}

/// The records that some impressions are of.
pub open spec fn seen_ids(list: Seq<ImpressionRecordView>) -> Seq<Id> {
    list.map_values(|i: ImpressionRecordView| i.sensation_id)
}

/// Those of some records that are wanted and not taken yet.
pub open spec fn also_wanted(list: Seq<SensationRecordView>, wanted: Seq<Id>, taken: Seq<Id>) -> Seq<
    SensationRecordView,
>
    decreases list.len(),
{
    if list.len() == 0 {
        Seq::empty()
    } else {
        let rest = also_wanted(list.drop_last(), wanted, taken);
        if wanted.contains(list.last().id) && !taken.contains(list.last().id) {
            rest.push(list.last())
        } else {
            rest
        }
    }
}

/// The records that are looked at: the latest, and those that the latest
/// impressions are of, in order.
pub open spec fn selected(records: Seq<SensationRecordView>, impressions: Seq<ImpressionRecordView>) -> Seq<
    SensationRecordView,
> {
    let latest = last_of(records, 12);
    arranged(
        latest + also_wanted(records, seen_ids(last_of(impressions, 12)), record_ids(latest)),
        record_order(),
    )
}

/// Selects the records that are looked at.
pub fn select_records_for_experience_prompt<'a>(
    records: &'a Vec<SensationRecord>,
    impressions: &Vec<VisionImpressionRecord>,
) -> (list: Vec<&'a SensationRecord>)
    ensures
        record_ref_views(list@) == selected(record_views(records@), impression_views(impressions@)),
{
    let ghost all = record_views(records@);
    let ghost latest = last_of(all, 12);
    let start: usize = if records.len() <= RECENT_SENSATION_PROMPT_LIMIT {
        0
    } else {
        records.len() - RECENT_SENSATION_PROMPT_LIMIT
    };
    let mut list: Vec<&'a SensationRecord> = Vec::new();
    let mut taken: Vec<Id> = Vec::new();
    let mut i: usize = start;
    assert(record_ref_views(list@) =~= latest.take(0));
    assert(taken@ =~= record_ids(latest).take(0));
    while i < records.len()
        invariant
            start <= i <= records@.len(),
            start == (if records@.len() <= 12 {
                0
            } else {
                records@.len() - 12
            }),
            all == record_views(records@),
            latest == last_of(all, 12),
            record_ref_views(list@) == latest.take(i - start),
            taken@ == record_ids(latest).take(i - start),
        decreases records@.len() - i,
    {
        let ghost before = record_ref_views(list@);
        list.push(&records[i]);
        taken.push(records[i].id);
        assert(record_ref_views(list@) =~= before.push(all[i as int]));
        assert(latest.take(i - start + 1) =~= before.push(all[i as int]));
        assert(taken@ =~= record_ids(latest).take(i - start + 1));
        i += 1;
    }
    assert(latest.take(i - start) =~= latest);
    assert(record_ids(latest).take(i - start) =~= record_ids(latest));
    let ghost seen = seen_ids(last_of(impression_views(impressions@), 12));
    let from: usize = if impressions.len() <= RECENT_VISION_IMPRESSION_PROMPT_LIMIT {
        0
    } else {
        impressions.len() - RECENT_VISION_IMPRESSION_PROMPT_LIMIT
    };
    let mut wanted: Vec<Id> = Vec::new();
    let mut j: usize = from;
    assert(wanted@ =~= seen.take(0));
    while j < impressions.len()
        invariant
            from <= j <= impressions@.len(),
            from == (if impressions@.len() <= 12 {
                0
            } else {
                impressions@.len() - 12
            }),
            seen == seen_ids(last_of(impression_views(impressions@), 12)),
            wanted@ == seen.take(j - from),
        decreases impressions@.len() - j,
    {
        wanted.push(impressions[j].sensation_id);
        assert(wanted@ =~= seen.take(j - from + 1));
        j += 1;
    }
    assert(seen.take(j - from) =~= seen);
    let mut k: usize = 0;
    assert(all.take(0) =~= Seq::<SensationRecordView>::empty());
    assert(record_ref_views(list@) =~= latest + Seq::<SensationRecordView>::empty());
    while k < records.len()
        invariant
            k <= records@.len(),
            all == record_views(records@),
            latest == last_of(all, 12),
            wanted@ == seen,
            taken@ == record_ids(latest),
            record_ref_views(list@) == latest + also_wanted(
                all.take(k as int),
                seen,
                record_ids(latest),
            ),
        decreases records@.len() - k,
    {
        proof {
            assert(all.take(k + 1).drop_last() =~= all.take(k as int));
            assert(all.take(k + 1).last() == records@[k as int]@);
        }
        let ghost before = record_ref_views(list@);
        let ghost more = also_wanted(all.take(k as int), seen, record_ids(latest));
        if has_id(&wanted, records[k].id) && !has_id(&taken, records[k].id) {
            list.push(&records[k]);
            assert(record_ref_views(list@) =~= before.push(all[k as int]));
            assert(before.push(all[k as int]) =~= latest + more.push(all[k as int]));
        }
        k += 1;
    }
    assert(all.take(k as int) =~= all);
    arrange(&list)
}

proof fn lemma_also_wanted_holds(list: Seq<SensationRecordView>, wanted: Seq<Id>, taken: Seq<Id>, k: int)
    requires
        0 <= k < list.len(),
        wanted.contains(list[k].id),
        !taken.contains(list[k].id),
    ensures
        also_wanted(list, wanted, taken).contains(list[k]),
    decreases list.len(),
{
    let rest = also_wanted(list.drop_last(), wanted, taken);
    let out = also_wanted(list, wanted, taken);
    if k == list.len() - 1 {
        assert(out[out.len() - 1] == list[k]);
    } else {
        assert(list.drop_last()[k] == list[k]);
        lemma_also_wanted_holds(list.drop_last(), wanted, taken, k);
        let n = choose|n: int| 0 <= n < rest.len() && rest[n] == list[k];
        assert(out[n] == list[k]);
    }
}

/// A record that one of the latest impressions is of is looked at, however long
/// ago it was logged.
pub proof fn law_record_of_recent_impression_is_selected(
    records: Seq<SensationRecordView>,
    impressions: Seq<ImpressionRecordView>,
    k: int,
    n: int,
)
    requires
        0 <= k < records.len(),
        0 <= n < last_of(impressions, 12).len(),
        last_of(impressions, 12)[n].sensation_id == records[k].id,
    ensures
        exists|i: int|
            0 <= i < selected(records, impressions).len() && (#[trigger] selected(
                records,
                impressions,
            )[i]).id == records[k].id,
{
    broadcast use vstd::seq_lib::group_to_multiset_ensures;

    let latest = last_of(records, 12);
    let seen = seen_ids(last_of(impressions, 12));
    let taken = record_ids(latest);
    let more = also_wanted(records, seen, taken);
    assert(seen[n] == records[k].id);
    let whole = latest + more;
    let x = if taken.contains(records[k].id) {
        let m = choose|m: int| 0 <= m < taken.len() && taken[m] == records[k].id;
        assert(whole[m] == latest[m]);
        latest[m]
    } else {
        lemma_also_wanted_holds(records, seen, taken, k);
        let m = choose|m: int| 0 <= m < more.len() && more[m] == records[k];
        assert(whole[latest.len() + m] == more[m]);
        records[k]
    };
    assert(whole.contains(x));
    crate::seqs::lemma_placed_all(Seq::<SensationRecordView>::empty(), whole, record_order());
    let out = selected(records, impressions);
    assert(whole.to_multiset().count(x) > 0);
    assert(Seq::<SensationRecordView>::empty().to_multiset().add(whole.to_multiset()).count(x) > 0);
    assert(out.to_multiset().count(x) > 0);
    assert(out.contains(x));
    let i = choose|i: int| 0 <= i < out.len() && out[i] == x;
    assert(out[i].id == records[k].id);
}

// ---------------------------------------------------------------------------
// Impressions that nobody had.

/// A field that is a string and not blank, trimmed.
pub open spec fn said_field(v: JsonView, key: Seq<char>) -> Option<Seq<char>> {
    match text_field(v, key) {
        Some(text) => if trimmed(text).len() == 0 {
            None
        } else {
            Some(trimmed(text))
        },
        None => None,
    }
}

fn find_said(json: &Json, key: &str) -> (r: Option<String>)
    ensures
        optional(r) == said_field(json@, key@),
{
    match json.str_field(key) {
        Some(text) => {
            let kept = trim(text);
            if kept.unicode_len() == 0 {
                None
            } else {
                Some(kept.to_owned())
            }
        },
        None => None,
    }
}

/// A field that is a number, or one that stands for it.
pub open spec fn number_or(v: JsonView, key: Seq<char>, default: Seq<char>) -> Seq<char> {
    match number_field(v, key) {
        Some(n) => n,
        None => default,
    }
}

fn find_number(json: &Json, key: &str, default: &str) -> (r: String)
    ensures
        r@ == number_or(json@, key@, default@),
{
    match json.get(key) {
        Some(Json::Number(n)) => n.clone(),
        _ => default.to_owned(),
    }
}

/// What a position is felt like.
pub open spec fn location_feeling(r: SensationRecordView) -> Seq<char> {
    match (fixed_field(r.detail, "lat"@, 5), fixed_field(r.detail, "lon"@, 5)) {
        (Some(lat), Some(lon)) => location_text(lat, lon),
        _ => "My geolocation source ("@ + r.source.sensor_id + ") reported a location fix."@,
    }
}

/// Tells what a position is felt like.
pub fn fallback_location_impression_for_record(record: &SensationRecord) -> (s: String)
    ensures
        s@ == location_feeling(record@),
{
    match (
        fixed_number(&record.detail, "lat", 5),
        fixed_number(&record.detail, "lon", 5),
    ) {
        (Some(lat), Some(lon)) => location_impression_text(lat.as_str(), lon.as_str()),
        _ => {
            let mut s = "My geolocation source (".to_owned();
            s.push_str(record.source.sensor_id.as_str());
            s.push_str(") reported a location fix.");
            s
        },
    }
}

/// What words sound like.
pub open spec fn utterance_feeling(r: SensationRecordView) -> Seq<char> {
    match said_field(r.detail, "text"@) {
        Some(text) => "I hear a voice say: "@ + text,
        None => "I hear a voice speaking."@,
    }
}

/// Tells what words sound like.
pub fn fallback_audio_utterance_impression_for_record(record: &SensationRecord) -> (s: String)
    ensures
        s@ == utterance_feeling(record@),
{
    match find_said(&record.detail, "text") {
        Some(text) => {
            let mut s = "I hear a voice say: ".to_owned();
            s.push_str(text.as_str());
            s
        },
        None => "I hear a voice speaking.".to_owned(),
    }
}

/// What a voice sounds like, by how clear it is.
pub open spec fn voice_feeling(r: SensationRecordView) -> Seq<char> {
    let clear = number_or(r.detail, "voice_confidence"@, "0.5"@);
    let prefix = if is_at_most("0.7"@, clear) {
        "I hear a clear voice"@
    } else if is_at_most("0.4"@, clear) {
        "I hear a voice"@
    } else {
        "I may be hearing a voice"@
    };
    match said_field(r.detail, "transcript"@) {
        Some(text) => prefix + " in the utterance: "@ + text,
        None => prefix + " in the utterance."@,
    }
}

/// Tells what a voice sounds like.
pub fn fallback_voice_clip_impression_for_record(record: &SensationRecord) -> (s: String)
    ensures
        s@ == voice_feeling(record@),
{
    let clear = find_number(&record.detail, "voice_confidence", "0.5");
    let mut s = if at_most("0.7", clear.as_str()) {
        "I hear a clear voice".to_owned()
    } else if at_most("0.4", clear.as_str()) {
        "I hear a voice".to_owned()
    } else {
        "I may be hearing a voice".to_owned()
    };
    match find_said(&record.detail, "transcript") {
        Some(text) => {
            s.push_str(" in the utterance: ");
            s.push_str(text.as_str());
        },
        None => {
            s.push_str(" in the utterance.");
        },
    }
    s
}

/// How familiar a voice is.
pub open spec fn voice_match_feeling(r: SensationRecordView) -> Seq<char> {
    let score = number_or(r.detail, "score"@, "0.0"@);
    let prefix = if is_at_most("0.9"@, score) {
        "That voice sounds very familiar"@
    } else if is_at_most("0.8"@, score) {
        "That voice sounds familiar"@
    } else {
        "That voice faintly reminds me of one I heard before"@
    };
    match said_field(r.detail, "transcript"@) {
        Some(text) => prefix + "; I remember hearing it around: "@ + text,
        None => prefix + "."@,
    }
}

/// Tells how familiar a voice is.
pub fn fallback_voice_match_impression_for_record(record: &SensationRecord) -> (s: String)
    ensures
        s@ == voice_match_feeling(record@),
{
    let score = find_number(&record.detail, "score", "0.0");
    let mut s = if at_most("0.9", score.as_str()) {
        "That voice sounds very familiar".to_owned()
    } else if at_most("0.8", score.as_str()) {
        "That voice sounds familiar".to_owned()
    } else {
        "That voice faintly reminds me of one I heard before".to_owned()
    };
    match find_said(&record.detail, "transcript") {
        Some(text) => {
            s.push_str("; I remember hearing it around: ");
            s.push_str(text.as_str());
        },
        None => {
            s.push_str(".");
        },
    }
    s
}

/// How familiar a face is.
pub open spec fn face_match_feeling(r: SensationRecordView) -> Seq<char> {
    if is_at_most("0.9"@, number_or(r.detail, "score"@, "0.0"@)) {
        "That face looks very familiar from earlier sight."@
    } else {
        "That face reminds me of one I saw before."@
    }
}

/// Tells how familiar a face is.
pub fn fallback_face_match_impression_for_record(record: &SensationRecord) -> (s: String)
    ensures
        s@ == face_match_feeling(record@),
{
    let score = find_number(&record.detail, "score", "0.0");
    if at_most("0.9", score.as_str()) {
        "That face looks very familiar from earlier sight.".to_owned()
    } else {
        "That face reminds me of one I saw before.".to_owned()
    }
}

/// Whom a face is taken for.
#[derive(Debug, Clone, Copy, PartialEq, Eq, Structural)]
pub enum PerceivedPerson {
    /// A woman.
    Woman,
    /// A man.
    Man,
}

impl PerceivedPerson {
    /// The noun with its article.
    pub open spec fn noun(self) -> Seq<char> {
        match self {
            PerceivedPerson::Woman => "a woman"@,
            PerceivedPerson::Man => "a man"@,
        }
    }

    /// The possessive.
    pub open spec fn own(self) -> Seq<char> {
        match self {
            PerceivedPerson::Woman => "her"@,
            PerceivedPerson::Man => "his"@,
        }
    }

    /// The noun with its article.
    pub fn article_noun(self) -> (s: &'static str)
        ensures
            s@ == self.noun(),
    {
        match self {
            PerceivedPerson::Woman => "a woman",
            PerceivedPerson::Man => "a man",
        }
    }

    /// The possessive.
    pub fn possessive(self) -> (s: &'static str)
        ensures
            s@ == self.own(),
    {
        match self {
            PerceivedPerson::Woman => "her",
            PerceivedPerson::Man => "his",
        }
    }
}

/// Whom an estimate speaks of.
pub open spec fn person_called(estimate: Seq<char>) -> Option<PerceivedPerson> {
    let low = lowered(estimate);
    if low == "female"@ || low == "woman"@ {
        Some(PerceivedPerson::Woman)
    } else if low == "male"@ || low == "man"@ {
        Some(PerceivedPerson::Man)
    } else {
        None
    }
}

/// Tells whom an estimate speaks of.
pub fn person_label(estimated_sex: &str) -> (r: Option<PerceivedPerson>)
    ensures
        r == person_called(estimated_sex@),
{
    let low = to_lower(estimated_sex);
    let s = low.as_str();
    if same(s, "female") || same(s, "woman") {
        Some(PerceivedPerson::Woman)
    } else if same(s, "male") || same(s, "man") {
        Some(PerceivedPerson::Man)
    } else {
        None
    }
}

/// How an age is put.
pub open spec fn aged(age: nat, possessive: Seq<char>) -> Seq<char> {
    if age <= 2 {
        "as a baby"@
    } else if age <= 12 {
        "as a child"@
    } else if age <= 19 {
        "as a teenager"@
    } else if age <= 99 {
        "in "@ + possessive + " "@ + (if age % 10 <= 3 {
            "early"@
        } else if age % 10 <= 6 {
            "mid"@
        } else {
            "late"@
        }) + " "@ + decimal((age / 10) * 10) + "s"@
    } else {
        "as an older adult"@
    }
}

/// Puts an age into words.
pub fn age_phrase(age: u64, possessive: &str) -> (s: String)
    ensures
        s@ == aged(age as nat, possessive@),
{
    if age <= 2 {
        return "as a baby".to_owned();
    }
    if age <= 12 {
        return "as a child".to_owned();
    }
    if age <= 19 {
        return "as a teenager".to_owned();
    }
    if age <= 99 {
        let mut s = "in ".to_owned();
        s.push_str(possessive);
        s.push_str(" ");
        if age % 10 <= 3 {
            s.push_str("early");
        } else if age % 10 <= 6 {
            s.push_str("mid");
        } else {
            s.push_str("late");
        }
        s.push_str(" ");
        s.push_str(decimal_text(((age / 10) * 10) as u128).as_str());
        s.push_str("s");
        return s;
    }
    "as an older adult".to_owned()
}

/// How sure one is of a face.
pub open spec fn sureness(detail: JsonView) -> Seq<char> {
    let confidence = number_or(detail, "detection_confidence"@, "0.8"@);
    if is_at_most("0.9"@, confidence) {
        "I'm pretty sure"@
    } else if is_at_most("0.72"@, confidence) {
        "I think"@
    } else {
        "I'm not sure, but I think"@
    }
}

/// Tells how sure one is of a face.
pub fn perception_prefix(detail: &Json) -> (s: &'static str)
    ensures
        s@ == sureness(detail@),
{
    let confidence = find_number(detail, "detection_confidence", "0.8");
    if at_most("0.9", confidence.as_str()) {
        "I'm pretty sure"
    } else if at_most("0.72", confidence.as_str()) {
        "I think"
    } else {
        "I'm not sure, but I think"
    }
}

/// Whom a face is taken for.
pub open spec fn person_of(detail: JsonView) -> Option<PerceivedPerson> {
    match text_field(detail, "estimated_sex"@) {
        Some(estimate) => person_called(trimmed(estimate)),
        None => None,
    }
}

/// What a face says of a person.
pub open spec fn face_attributes(detail: JsonView) -> Option<Seq<char>> {
    match (person_of(detail), unsigned_field(detail, "estimated_age_years"@)) {
        (Some(person), Some(age)) => Some(
            sureness(detail) + " it's "@ + person.noun() + " "@ + aged(age, person.own()) + "."@,
        ),
        (Some(person), None) => Some(sureness(detail) + " it's "@ + person.noun() + "."@),
        (None, Some(age)) => Some(
            sureness(detail) + " it's someone "@ + aged(age, "their"@) + "."@,
        ),
        (None, None) => None,
    }
}

/// Tells what a face says of a person.
pub fn embodied_face_attributes_text(detail: &Json) -> (r: Option<String>)
    ensures
        optional(r) == face_attributes(detail@),
{
    let person = match detail.str_field("estimated_sex") {
        Some(estimate) => person_label(trim(estimate)),
        None => None,
    };
    let age = detail.u64_field("estimated_age_years");
    match (person, age) {
        (Some(person), Some(age)) => {
            let mut s = perception_prefix(detail).to_owned();
            s.push_str(" it's ");
            s.push_str(person.article_noun());
            s.push_str(" ");
            s.push_str(age_phrase(age, person.possessive()).as_str());
            s.push_str(".");
            Some(s)
        },
        (Some(person), None) => {
            let mut s = perception_prefix(detail).to_owned();
            s.push_str(" it's ");
            s.push_str(person.article_noun());
            s.push_str(".");
            Some(s)
        },
        (None, Some(age)) => {
            let mut s = perception_prefix(detail).to_owned();
            s.push_str(" it's someone ");
            s.push_str(age_phrase(age, "their").as_str());
            s.push_str(".");
            Some(s)
        },
        (None, None) => None,
    }
}

/// What a face looks like.
pub open spec fn face_feeling(r: SensationRecordView) -> Seq<char> {
    "I see a face (in my eye \""@ + r.source.sensor_id + "\")."@ + (match face_attributes(r.detail) {
        Some(attributes) => " "@ + attributes,
        None => Seq::empty(),
    })
}

/// Tells what a face looks like.
pub fn fallback_face_impression_for_record(record: &SensationRecord) -> (s: String)
    ensures
        s@ == face_feeling(record@),
{
    let mut s = "I see a face (in my eye \"".to_owned();
    s.push_str(record.source.sensor_id.as_str());
    s.push_str("\").");
    let ghost before = s@;
    match embodied_face_attributes_text(&record.detail) {
        Some(attributes) => {
            s.push_str(" ");
            s.push_str(attributes.as_str());
            assert(s@ =~= before + (" "@ + attributes@));
        },
        None => {
            assert(s@ =~= before + Seq::<char>::empty());
        },
    }
    s
}

/// What a sensation feels like of which nobody had an impression.
pub open spec fn feeling(r: SensationRecordView) -> Seq<char> {
    if r.kind == "vision.face_crop"@ {
        face_feeling(r)
    } else if r.kind == "vision.frame"@ {
        "I'm looking with my eye ("@ + r.source.sensor_id + ")."@
    } else if r.kind == "location.fix"@ {
        location_feeling(r)
    } else if r.kind == "audio.utterance"@ {
        utterance_feeling(r)
    } else if r.kind == "audio.voice_clip"@ {
        voice_feeling(r)
    } else if r.kind == "memory.voice_match"@ {
        voice_match_feeling(r)
    } else if r.kind == "memory.face_match"@ {
        face_match_feeling(r)
    } else {
        "I sense "@ + r.kind + " from "@ + r.source.sensor_id + "."@
    }
}

/// Tells what a sensation feels like of which nobody had an impression.
pub fn fallback_impression_for_record(record: &SensationRecord) -> (s: String)
    ensures
        s@ == feeling(record@),
{
    let kind = record.kind.as_str();
    if same(kind, "vision.face_crop") {
        return fallback_face_impression_for_record(record);
    }
    if same(kind, "vision.frame") {
        let mut s = "I'm looking with my eye (".to_owned();
        s.push_str(record.source.sensor_id.as_str());
        s.push_str(").");
        return s;
    }
    if same(kind, "location.fix") {
        return fallback_location_impression_for_record(record);
    }
    if same(kind, "audio.utterance") {
        return fallback_audio_utterance_impression_for_record(record);
    }
    if same(kind, "audio.voice_clip") {
        return fallback_voice_clip_impression_for_record(record);
    }
    if same(kind, "memory.voice_match") {
        return fallback_voice_match_impression_for_record(record);
    }
    if same(kind, "memory.face_match") {
        return fallback_face_match_impression_for_record(record);
    }
    let mut s = "I sense ".to_owned();
    s.push_str(kind);
    s.push_str(" from ");
    s.push_str(record.source.sensor_id.as_str());
    s.push_str(".");
    s
}

/// What kind of impression a sensation makes.
pub open spec fn feeling_kind(kind: Seq<char>) -> Seq<char> {
    if starts(kind, "audio."@) {
        "audio"@
    } else if starts(kind, "memory."@) {
        "memory"@
    } else if starts(kind, "location."@) {
        "location"@
    } else {
        "vision"@
    }
}

/// What kind of impression a sensation makes.
pub fn fallback_impression_kind(record: &SensationRecord) -> (s: &'static str)
    ensures
        s@ == feeling_kind(record@.kind),
{
    let kind = record.kind.as_str();
    if starts_with(kind, "audio.") {
        "audio"
    } else if starts_with(kind, "memory.") {
        "memory"
    } else if starts_with(kind, "location.") {
        "location"
    } else {
        "vision"
    }
}

/// The faculty that has an impression of a sensation.
pub open spec fn feeling_faculty(kind: Seq<char>) -> Seq<char> {
    if kind == "audio.voice_clip"@ {
        "voice.id"@
    } else if starts(kind, "audio."@) {
        "hearing"@
    } else if starts(kind, "memory."@) {
        "memory"@
    } else if starts(kind, "location."@) {
        "location"@
    } else {
        "vision"@
    }
}

/// The faculty that has an impression of a sensation.
pub fn fallback_impression_faculty(record: &SensationRecord) -> (s: &'static str)
    ensures
        s@ == feeling_faculty(record@.kind),
{
    let kind = record.kind.as_str();
    if same(kind, "audio.voice_clip") {
        "voice.id"
    } else if starts_with(kind, "audio.") {
        "hearing"
    } else if starts_with(kind, "memory.") {
        "memory"
    } else if starts_with(kind, "location.") {
        "location"
    } else {
        "vision"
    }
}

// ---------------------------------------------------------------------------
// The timeline.

/// A medium as JSON.
pub open spec fn media_json(m: MediaView) -> JsonView {
    JsonView::Object(
        seq![
            named("encoding"@, JsonView::Str(m.encoding)),
            named("height"@, JsonView::Number(decimal(m.height as nat))),
            named("mime"@, JsonView::Str(m.mime)),
            named("width"@, JsonView::Number(decimal(m.width as nat))),
        ],
    )
}

/// The sensation of a record.
pub open spec fn sensation_of(r: SensationRecordView) -> SensationView {
    SensationView {
        id: r.id,
        kind: r.kind,
        source: r.source.client_id + ":"@ + r.source.sensor_id + ":"@ + r.source.faculty,
        occurred_at: r.occurred_at,
        observed_at: r.observed_at,
        sequence: Some(r.sequence),
        provenance: r.provenance,
        payload: JsonView::Object(
            seq![
                named("data_bytes"@, JsonView::Number(decimal(r.data_bytes as nat))),
                named("data_sha256"@, JsonView::Str(r.data_sha256)),
                named("detail"@, r.detail),
                named("media"@, media_json(r.media)),
            ],
        ),
    }
}

fn sensation_from(r: &SensationRecord) -> (s: Sensation)
    ensures
        s@ == sensation_of(r@),
{
    let mut source = r.source.client_id.clone();
    source.push_str(":");
    source.push_str(r.source.sensor_id.as_str());
    source.push_str(":");
    source.push_str(r.source.faculty.as_str());
    let media = Fields::new()
        .with("encoding", Json::text(r.media.encoding.as_str()))
        .with("height", Json::count(r.media.height as u64))
        .with("mime", Json::text(r.media.mime.as_str()))
        .with("width", Json::count(r.media.width as u64));
    assert(media@ =~= media_json(r.media@)->Object_0);
    let payload = Fields::new()
        .with("data_bytes", Json::count(r.data_bytes as u64))
        .with("data_sha256", Json::text(r.data_sha256.as_str()))
        .with("detail", r.detail.clone())
        .with("media", media.object());
    assert(payload@ =~= sensation_of(r@).payload->Object_0);
    Sensation {
        id: r.id,
        kind: r.kind.clone(),
        source,
        occurred_at: r.occurred_at,
        observed_at: r.observed_at,
        sequence: Some(r.sequence),
        provenance: r.provenance.clone(),
        payload: payload.object(),
    }
}

/// The latest impression of a sensation.
pub open spec fn impression_about(list: Seq<ImpressionRecordView>, id: Id) -> Option<ImpressionRecordView>
    decreases list.len(),
{
    if list.len() == 0 {
        None
    } else if list.last().sensation_id == id {
        Some(list.last())
    } else {
        impression_about(list.drop_last(), id)
    }
}

/// The impression of a record: the latest that was had, or one that nobody had,
/// under an identifier of its own.
pub open spec fn impression_of(r: SensationRecordView, list: Seq<ImpressionRecordView>, fresh: Id) -> ImpressionView {
    match impression_about(list, r.id) {
        Some(i) => ImpressionView {
            id: i.id,
            text: i.text,
            kind: i.kind,
            occurred_at: i.occurred_at,
            observed_at: i.observed_at,
            faculty: i.faculty,
            about: seq![r.id],
            confidence: i.confidence,
            payload: i.payload,
        },
        None => ImpressionView {
            id: fresh,
            text: feeling(r),
            kind: feeling_kind(r.kind),
            occurred_at: r.occurred_at,
            observed_at: r.observed_at,
            faculty: feeling_faculty(r.kind),
            about: seq![r.id],
            confidence: "0.5"@,
            payload: JsonView::Null,
        },
    }
}

fn impression_from(r: &SensationRecord, impressions: &Vec<VisionImpressionRecord>, fresh: Id) -> (i:
    Impression)
    ensures
        i@ == impression_of(r@, impression_views(impressions@), fresh),
{
    let ghost all = impression_views(impressions@);
    let mut about: Vec<Id> = Vec::new();
    about.push(r.id);
    assert(about@ =~= seq![r.id]);
    let mut n: usize = impressions.len();
    assert(all.take(n as int) =~= all);
    while n > 0
        invariant
            n <= impressions@.len(),
            all == impression_views(impressions@),
            about@ == seq![r.id],
            impression_about(all, r.id) == impression_about(all.take(n as int), r.id),
        decreases n,
    {
        proof {
            assert(all.take(n as int).drop_last() =~= all.take(n - 1));
        }
        n -= 1;
        if impressions[n].sensation_id == r.id {
            let found = &impressions[n];
            return Impression {
                id: found.id,
                text: found.text.clone(),
                kind: found.kind.clone(),
                occurred_at: found.occurred_at,
                observed_at: found.observed_at,
                faculty: found.faculty.clone(),
                about,
                confidence: found.confidence.clone(),
                payload: found.payload.clone(),
            };
        }
    }
    Impression {
        id: fresh,
        text: fallback_impression_for_record(r),
        kind: fallback_impression_kind(r).to_owned(),
        occurred_at: r.occurred_at,
        observed_at: r.observed_at,
        faculty: fallback_impression_faculty(r).to_owned(),
        about,
        confidence: Confidence::of(FALLBACK_IMPRESSION_CONFIDENCE),
        payload: Json::Null,
    }
}

/// The entries of some records: each with its impression.
pub open spec fn entries_of(
    list: Seq<SensationRecordView>,
    impressions: Seq<ImpressionRecordView>,
    ids: Seq<Id>,
) -> Seq<EntryView>
    decreases list.len(),
{
    if list.len() == 0 {
        Seq::empty()
    } else {
        entries_of(list.drop_last(), impressions, ids).push(
            EntryView::Sensation(sensation_of(list.last())),
        ).push(
            EntryView::Impression(impression_of(list.last(), impressions, ids[list.len() - 1])),
        )
    }
}

/// The timeline of some records.
pub open spec fn scene_of(
    list: Seq<SensationRecordView>,
    impressions: Seq<ImpressionRecordView>,
    ids: Seq<Id>,
) -> Seq<EntryView> {
    placed_all(Seq::empty(), entries_of(list, impressions, ids), entry_time())
}

proof fn lemma_placed_two(s: Seq<EntryView>, a: EntryView, b: EntryView)
    ensures
        placed_all(Seq::empty(), s.push(a).push(b), entry_time()) == placed(
            placed(placed_all(Seq::empty(), s, entry_time()), a, entry_time()),
            b,
            entry_time(),
        ),
{
    assert(s.push(a).push(b).drop_last() =~= s.push(a));
    assert(s.push(a).drop_last() =~= s);
    assert(placed_all(Seq::empty(), s.push(a), entry_time()) == placed(
        placed_all(Seq::empty(), s, entry_time()),
        a,
        entry_time(),
    ));
}

/// Puts records on a timeline, each with its impression; those that nobody had
/// get the given identifiers.
pub fn timeline_frame_with_ids(
    list: &Vec<&SensationRecord>,
    impressions: &Vec<VisionImpressionRecord>,
    ids: &Vec<Id>,
) -> (frame: TimelineFrame)
    requires
        ids@.len() == list@.len(),
    ensures
        frame@ == scene_of(record_ref_views(list@), impression_views(impressions@), ids@),
{
    let ghost all = record_ref_views(list@);
    let ghost seen = impression_views(impressions@);
    let mut frame = TimelineFrame::new();
    let mut i: usize = 0;
    assert(all.take(0) =~= Seq::<SensationRecordView>::empty());
    while i < list.len()
        invariant
            i <= list@.len(),
            ids@.len() == list@.len(),
            all == record_ref_views(list@),
            seen == impression_views(impressions@),
            frame@ == scene_of(all.take(i as int), seen, ids@),
        decreases list@.len() - i,
    {
        let record = list[i];
        let sensation = TimelineEntry::Sensation(sensation_from(record));
        let impression = TimelineEntry::Impression(impression_from(record, impressions, ids[i]));
        proof {
            assert(all.take(i + 1).drop_last() =~= all.take(i as int));
            assert(all.take(i + 1).last() == record@);
            lemma_placed_two(
                entries_of(all.take(i as int), seen, ids@),
                sensation@,
                impression@,
            );
        }
        frame.push(sensation);
        frame.push(impression);
        i += 1;
    }
    assert(all.take(i as int) =~= all);
    frame
}

/// Whether a timeline is that of what was logged.
pub open spec fn is_scene(
    frame: Seq<EntryView>,
    records: Seq<SensationRecordView>,
    impressions: Seq<ImpressionRecordView>,
) -> bool {
    exists|ids: Seq<Id>|
        ids.len() == selected(records, impressions).len() && frame == #[trigger] scene_of(
            selected(records, impressions),
            impressions,
            ids,
        )
}

/// Puts the records that are looked at on a timeline.
pub fn build_timeline_frame_from_records(
    records: &Vec<SensationRecord>,
    impressions: &Vec<VisionImpressionRecord>,
) -> (frame: TimelineFrame)
    ensures
        is_scene(frame@, record_views(records@), impression_views(impressions@)),
{
    let list = select_records_for_experience_prompt(records, impressions);
    let mut ids: Vec<Id> = Vec::new();
    while ids.len() < list.len()
        invariant
            ids@.len() <= list@.len(),
        decreases list@.len() - ids@.len(),
    {
        ids.push(fresh_id());
    }
    assert(record_ref_views(list@).len() == list@.len());
    timeline_frame_with_ids(&list, impressions, &ids)
}

// ---------------------------------------------------------------------------
// What is asked.

/// A timeline, and what it shows at large.
pub struct Scene {
    /// The timeline.
    pub frame: TimelineFrame,
    /// What it shows.
    pub context: ContextFrame,
}

/// Whether a frame is a tidied snapshot of a timeline.
pub open spec fn is_tidy_snapshot(context: FrameView, frame: Seq<EntryView>) -> bool {
    exists|draft: FrameView| #[trigger] is_snapshot(draft, frame, frame, 4) && context == tidied(draft)
}

/// Puts what was logged on a timeline, and tells what it shows.
pub fn draft_scene(
    records: &Vec<SensationRecord>,
    impressions: &Vec<VisionImpressionRecord>,
) -> (scene: Scene)
    ensures
        is_scene(scene.frame@, record_views(records@), impression_views(impressions@)),
        is_tidy_snapshot(scene.context@, scene.frame@),
{
    let frame = build_timeline_frame_from_records(records, impressions);
    let draft = ContextFrame::from_timeline(&frame, frame.entries(), 4);
    assert(is_snapshot(draft@, frame@, frame@, 4));
    let context = compact_context_frame(&draft);
    Scene { frame, context }
}

/// Whether a text asks what is lived through on a timeline.
pub open spec fn is_prompt_of(prompt: Seq<char>, frame: Seq<EntryView>, context: FrameView) -> bool {
    exists|stamps: Seq<StampsView>|
        are_stamps(stamps, frame) && prompt == #[trigger] prompt_text(context, frame, stamps, 1_000)
}

/// Asks what is lived through in a scene, by what it shows or by a better
/// account of that.
pub fn scene_prompt(scene: &Scene, better: &Option<ContextFrame>) -> (prompt: String)
    ensures
        is_prompt_of(
            prompt@,
            scene.frame@,
            (match frame_view(*better) {
                Some(context) => context,
                None => scene.context@,
            }),
        ),
{
    match better {
        Some(context) => format_realtime_experience_prompt(context, scene.frame.entries()),
        None => format_realtime_experience_prompt(&scene.context, scene.frame.entries()),
    }
}

/// Asks what is lived through in what was logged.
pub fn build_prompt_from_records(
    records: &Vec<SensationRecord>,
    impressions: &Vec<VisionImpressionRecord>,
) -> (prompt: String)
    ensures
        exists|frame: Seq<EntryView>, context: FrameView|
            #![trigger is_tidy_snapshot(context, frame)]
            is_scene(frame, record_views(records@), impression_views(impressions@))
                && is_tidy_snapshot(context, frame) && is_prompt_of(prompt@, frame, context),
{
    let scene = draft_scene(records, impressions);
    scene_prompt(&scene, &None)
}

/// What ends an answer.
pub fn llm_stop_markers() -> (list: Vec<String>)
    ensures
        texts(list@) == seq!["<turn|>"@],
{
    let mut list: Vec<String> = Vec::new();
    list.push("<turn|>".to_owned());
    assert(texts(list@) =~= seq!["<turn|>"@]);
    list
}

/// A request of two messages.
pub open spec fn two_messages(system: Seq<char>, user: Seq<char>, max_tokens: usize) -> RequestView {
    RequestView {
        prompt: Seq::empty(),
        messages: seq![
            MessageView { role: "system"@, content: system },
            MessageView { role: "user"@, content: user },
        ],
        images: Seq::empty(),
        max_tokens: Some(max_tokens),
        stop: seq!["<turn|>"@],
    }
}

fn request_of(system: &str, user: &str, max_tokens: usize) -> (r: GenerationRequest)
    ensures
        r@ == two_messages(system@, user@, max_tokens),
{
    let mut messages: Vec<ChatMessage> = Vec::new();
    messages.push(ChatMessage::new("system", system));
    messages.push(ChatMessage::new("user", user));
    let r = GenerationRequest {
        prompt: String::new(),
        messages,
        images: Vec::new(),
        max_tokens: Some(max_tokens),
        stop: llm_stop_markers(),
    };
    assert(r@.messages =~= two_messages(system@, user@, max_tokens).messages);
    assert(r@.images =~= Seq::<ImageView>::empty());
    assert(r@.prompt =~= Seq::<char>::empty());
    r
}

/// Asks for an experience.
pub fn experience_request(prompt: &str) -> (r: GenerationRequest)
    ensures
        r@ == two_messages(EXPERIENCE_SYSTEM_PROMPT@, prompt@, 1024),
{
    request_of(EXPERIENCE_SYSTEM_PROMPT, prompt, REALTIME_EXPERIENCE_MAX_TOKENS)
}

/// Asks for a better account of what a scene shows.
pub fn context_frame_request(scene: &Scene) -> (r: GenerationRequest)
    ensures
        r@ == two_messages(
            CONTEXT_FRAME_SYSTEM_PROMPT@,
            revision_prompt(scene.context@, scene.frame@),
            220,
        ),
{
    let prompt = format_context_frame_prompt(&scene.context, scene.frame.entries());
    request_of(CONTEXT_FRAME_SYSTEM_PROMPT, prompt.as_str(), CONTEXT_FRAME_MAX_TOKENS)
}

// ---------------------------------------------------------------------------
// What becomes of the answer.

/// Identifiers without those that repeat the one before.
pub open spec fn without_repeats(ids: Seq<Id>) -> Seq<Id>
    decreases ids.len(),
{
    if ids.len() == 0 {
        Seq::empty()
    } else {
        let rest = without_repeats(ids.drop_last());
        if rest.len() > 0 && rest.last() == ids.last() {
            rest
        } else {
            rest.push(ids.last())
        }
    }
}

/// The identifiers of some impressions.
pub open spec fn impression_ids_of(list: Seq<ImpressionRecordView>) -> Seq<Id> {
    list.map_values(|i: ImpressionRecordView| i.id)
}

/// The latest impressions.
pub open spec fn latest_impression_ids(impressions: Seq<ImpressionRecordView>) -> Seq<Id> {
    without_repeats(impression_ids_of(last_of(impressions, 12)))
}

/// The latest impressions.
pub fn recent_experience_impression_ids(impressions: &Vec<VisionImpressionRecord>) -> (ids: Vec<Id>)
    ensures
        ids@ == latest_impression_ids(impression_views(impressions@)),
{
    let ghost all = impression_ids_of(last_of(impression_views(impressions@), 12));
    let start: usize = if impressions.len() <= RECENT_VISION_IMPRESSION_PROMPT_LIMIT {
        0
    } else {
        impressions.len() - RECENT_VISION_IMPRESSION_PROMPT_LIMIT
    };
    let mut ids: Vec<Id> = Vec::new();
    let mut i: usize = start;
    assert(all.take(0) =~= Seq::<Id>::empty());
    while i < impressions.len()
        invariant
            start <= i <= impressions@.len(),
            start == (if impressions@.len() <= 12 {
                0
            } else {
                impressions@.len() - 12
            }),
            all == impression_ids_of(last_of(impression_views(impressions@), 12)),
            ids@ == without_repeats(all.take(i - start)),
        decreases impressions@.len() - i,
    {
        proof {
            assert(all.take(i - start + 1).drop_last() =~= all.take(i - start));
            assert(all.take(i - start + 1).last() == impressions@[i as int].id);
        }
        let id = impressions[i].id;
        if ids.len() == 0 || ids[ids.len() - 1] != id {
            ids.push(id);
        }
        i += 1;
    }
    assert(all.take(i - start) =~= all);
    ids
}

/// When the first impression with an identifier happened.
pub open spec fn time_of_impression(list: Seq<ImpressionRecordView>, id: Id) -> Option<Timestamp>
    decreases list.len(),
{
    if list.len() == 0 {
        None
    } else if list[0].id == id {
        Some(list[0].occurred_at)
    } else {
        time_of_impression(list.skip(1), id)
    }
}

/// The later of two times.
pub open spec fn later(a: Option<Timestamp>, b: Option<Timestamp>) -> Option<Timestamp> {
    match (a, b) {
        (Some(x), Some(y)) => if y@ < x@ {
            Some(x)
        } else {
            Some(y)
        },
        (None, _) => b,
        (_, None) => a,
    }
}

/// When the latest of some impressions happened.
pub open spec fn latest_time(ids: Seq<Id>, impressions: Seq<ImpressionRecordView>) -> Option<Timestamp>
    decreases ids.len(),
{
    if ids.len() == 0 {
        None
    } else {
        later(
            latest_time(ids.drop_last(), impressions),
            time_of_impression(impressions, ids.last()),
        )
    }
}

fn impression_time(impressions: &Vec<VisionImpressionRecord>, id: Id) -> (r: Option<Timestamp>)
    ensures
        r == time_of_impression(impression_views(impressions@), id),
{
    let ghost all = impression_views(impressions@);
    let mut i: usize = 0;
    assert(all.skip(0) =~= all);
    while i < impressions.len()
        invariant
            i <= impressions@.len(),
            all == impression_views(impressions@),
            time_of_impression(all, id) == time_of_impression(all.skip(i as int), id),
        decreases impressions@.len() - i,
    {
        proof {
            assert(all.skip(i as int)[0] == impressions@[i as int]@);
            assert(all.skip(i as int).skip(1) =~= all.skip(i + 1));
        }
        if impressions[i].id == id {
            return Some(impressions[i].occurred_at);
        }
        i += 1;
    }
    None
}

/// The experience that an answer tells, of the latest impressions.
pub open spec fn told_experience(
    what: Seq<char>,
    impressions: Seq<ImpressionRecordView>,
    now: Timestamp,
    id: Id,
) -> ExperienceRecordView {
    let ids = latest_impression_ids(impressions);
    ExperienceRecordView {
        id,
        observed_at: now,
        occurred_at: match latest_time(ids, impressions) {
            Some(t) => t,
            None => if impressions.len() > 0 {
                impressions.last().occurred_at
            } else {
                now
            },
        },
        what,
        impression_ids: ids,
        confidence: "0.550000011920929"@,
    }
}

/// Reads an answer: one experience, or none where it says nothing.
pub fn parse_experience_records(
    generated: &str,
    impressions: &Vec<VisionImpressionRecord>,
    now: Timestamp,
    id: Id,
) -> (records: Vec<ExperienceRecord>)
    ensures
        experience_views(records@) == (match answer_text(generated@) {
            Some(what) => seq![
                told_experience(what, impression_views(impressions@), now, id),
            ],
            None => Seq::empty(),
        }),
{
    let mut records: Vec<ExperienceRecord> = Vec::new();
    let what = match generated_experience_text(generated) {
        Some(what) => what,
        None => {
            assert(experience_views(records@) =~= Seq::<ExperienceRecordView>::empty());
            return records;
        },
    };
    let ghost seen = impression_views(impressions@);
    let impression_ids = recent_experience_impression_ids(impressions);
    let ghost ids = impression_ids@;
    let mut latest: Option<Timestamp> = None;
    let mut i: usize = 0;
    assert(ids.take(0) =~= Seq::<Id>::empty());
    while i < impression_ids.len()
        invariant
            i <= impression_ids@.len(),
            ids == impression_ids@,
            seen == impression_views(impressions@),
            latest == latest_time(ids.take(i as int), seen),
        decreases impression_ids@.len() - i,
    {
        proof {
            assert(ids.take(i + 1).drop_last() =~= ids.take(i as int));
        }
        match impression_time(impressions, impression_ids[i]) {
            Some(t) => {
                latest = match latest {
                    Some(best) => if t.is_before(&best) {
                        Some(best)
                    } else {
                        Some(t)
                    },
                    None => Some(t),
                };
            },
            None => {},
        }
        i += 1;
    }
    assert(ids.take(i as int) =~= ids);
    let occurred_at = match latest {
        Some(t) => t,
        None => if impressions.len() > 0 {
            impressions[impressions.len() - 1].occurred_at
        } else {
            now
        },
    };
    let record = ExperienceRecord {
        id,
        observed_at: now,
        occurred_at,
        what,
        impression_ids,
        confidence: Confidence::of(GENERATED_EXPERIENCE_CONFIDENCE),
    };
    records.push(record);
    assert(experience_views(records@) =~= seq![record@]);
    records
}

/// A log after some more items.
pub open spec fn logged_all(
    log: Seq<ExperienceRecordView>,
    items: Seq<ExperienceRecordView>,
) -> Seq<ExperienceRecordView>
    decreases items.len(),
{
    if items.len() == 0 {
        log
    } else {
        logged(logged_all(log, items.drop_last()), items.last(), 80)
    }
}

/// The events of a list.
pub open spec fn broadcast_views(list: Seq<RealTimeExperienceEvent>) -> Seq<BroadcastView> {
    list.map_values(|e: RealTimeExperienceEvent| e@)
}

/// What is told of some experiences.
pub open spec fn experience_events(generation_id: Id, list: Seq<ExperienceRecordView>) -> Seq<BroadcastView> {
    list.map_values(
        |e: ExperienceRecordView| BroadcastView::Experience { generation_id, experience: e },
    )
}

/// Logs experiences, and tells what is told of them.
pub fn record_generated_experiences(
    generation_id: Id,
    records: &Vec<ExperienceRecord>,
    stored: &mut VecDeque<ExperienceRecord>,
) -> (events: Vec<RealTimeExperienceEvent>)
    ensures
        experience_views(final(stored)@) == logged_all(
            experience_views(old(stored)@),
            experience_views(records@),
        ),
        broadcast_views(events@) == experience_events(generation_id, experience_views(records@)),
{
    let ghost before = experience_views(stored@);
    let ghost all = experience_views(records@);
    let mut events: Vec<RealTimeExperienceEvent> = Vec::new();
    let mut i: usize = 0;
    assert(all.take(0) =~= Seq::<ExperienceRecordView>::empty());
    while i < records.len()
        invariant
            i <= records@.len(),
            all == experience_views(records@),
            experience_views(stored@) == logged_all(before, all.take(i as int)),
            events@.len() == i,
            forall|k: int|
                0 <= k < i ==> (#[trigger] events@[k])@ == (BroadcastView::Experience {
                    generation_id,
                    experience: all[k],
                }),
        decreases records@.len() - i,
    {
        proof {
            assert(all.take(i + 1).drop_last() =~= all.take(i as int));
        }
        let ghost log = experience_views(stored@);
        push_limited(stored, records[i].clone(), MAX_RECORDED_EXPERIENCES);
        assert(experience_views(stored@) =~= logged(log, all[i as int], 80));
        events.push(
            RealTimeExperienceEvent::Experience { generation_id, experience: records[i].clone() },
        );
        i += 1;
    }
    assert(all.take(i as int) =~= all);
    assert(broadcast_views(events@) =~= experience_events(generation_id, all));
    events
}

/// What is told where no answer came.
pub fn failed_generation_text(error: &str) -> (s: String)
    ensures
        s@ == "Gemma 4 Experience generation failed: "@ + error@,
{
    let mut s = "Gemma 4 Experience generation failed: ".to_owned();
    s.push_str(error);
    s
}

/// A text cut behind white space once a piece has so many bytes: the pieces that
/// are complete, and what is left.
pub open spec fn cut_pieces(s: Seq<char>, size: nat) -> (Seq<Seq<char>>, Seq<char>)
    decreases s.len(),
{
    if s.len() == 0 {
        (Seq::empty(), Seq::empty())
    } else {
        let (done, open) = cut_pieces(s.drop_last(), size);
        let piece = open.push(s.last());
        if text_bytes(piece) >= size && is_white_space(s.last()) {
            (done.push(piece), Seq::empty())
        } else {
            (done, piece)
        }
    }
}

/// A text in pieces.
pub open spec fn chunked(s: Seq<char>, size: nat) -> Seq<Seq<char>> {
    let (done, open) = cut_pieces(s, size);
    if open.len() == 0 {
        done
    } else {
        done.push(open)
    }
}

/// Cuts a text into pieces.
pub fn streamable_chunks(text: &str, chunk_size: usize) -> (chunks: Vec<String>)
    ensures
        texts(chunks@) == chunked(text@, chunk_size as nat),
{
    let chars = chars_of(text);
    let mut chunks: Vec<String> = Vec::new();
    let mut chunk = String::new();
    let mut i: usize = 0;
    assert(text@.take(0) =~= Seq::<char>::empty());
    assert(texts(chunks@) =~= Seq::<Seq<char>>::empty());
    assert(chunk@ =~= Seq::<char>::empty());
    while i < chars.len()
        invariant
            i <= chars@.len(),
            chars@ == text@,
            (texts(chunks@), chunk@) == cut_pieces(text@.take(i as int), chunk_size as nat),
        decreases chars@.len() - i,
    {
        proof {
            assert(text@.take(i + 1).drop_last() =~= text@.take(i as int));
        }
        let c = chars[i];
        chunk.push(c);
        if byte_len(chunk.as_str()) >= chunk_size && white_space(c) {
            let ghost before = texts(chunks@);
            let ghost piece = chunk@;
            chunks.push(chunk);
            assert(texts(chunks@) =~= before.push(piece));
            chunk = String::new();
            assert(chunk@ =~= Seq::<char>::empty());
        }
        i += 1;
    }
    assert(text@.take(i as int) =~= text@);
    if chunk.as_str().unicode_len() > 0 {
        let ghost before = texts(chunks@);
        let ghost piece = chunk@;
        chunks.push(chunk);
        assert(texts(chunks@) =~= before.push(piece));
    }
    chunks
}

proof fn lemma_pieces_rejoin(s: Seq<char>, size: nat)
    ensures
        flat(cut_pieces(s, size).0) + cut_pieces(s, size).1 == s,
    decreases s.len(),
{
    if s.len() == 0 {
        assert(flat(cut_pieces(s, size).0) + cut_pieces(s, size).1 =~= s);
    } else {
        lemma_pieces_rejoin(s.drop_last(), size);
        let (done, open) = cut_pieces(s.drop_last(), size);
        let piece = open.push(s.last());
        assert(s =~= s.drop_last().push(s.last()));
        assert(flat(done) + piece =~= (flat(done) + open).push(s.last()));
        assert(done.push(piece).drop_last() =~= done);
        assert(flat(done.push(piece)) + Seq::<char>::empty() =~= s);
    }
}

/// A text cut into pieces loses nothing: laid end to end they are the text.
pub proof fn law_chunks_make_the_text(s: Seq<char>, size: nat)
    ensures
        flat(chunked(s, size)) == s,
{
    lemma_pieces_rejoin(s, size);
    let (done, open) = cut_pieces(s, size);
    if open.len() == 0 {
        assert(flat(done) =~= s);
    } else {
        assert(done.push(open).drop_last() =~= done);
    }
}

// ---------------------------------------------------------------------------
// One look at a time.

/// Whether what happened is being looked at, and whether it should be once more.
#[derive(Debug, Clone, Copy, PartialEq, Eq, Structural)]
pub struct TraceGate {
    /// Whether a look is under way.
    pub active: bool,
    /// Whether another was asked for meanwhile.
    pub pending: bool,
}

impl TraceGate {
    /// A gate that nobody went through.
    pub fn new() -> (r: TraceGate)
        ensures
            r == (TraceGate { active: false, pending: false }),
    {
        TraceGate { active: false, pending: false }
    }

    /// What it is after a look was asked for.
    pub open spec fn asked(self) -> TraceGate {
        TraceGate { active: true, pending: self.active }
    }

    /// What it is after a look ended.
    pub open spec fn ended(self) -> TraceGate {
        TraceGate { active: false, pending: false }
    }

    /// Asks for a look: it may begin, unless one is under way.
    pub fn ask(&mut self) -> (begin: bool)
        ensures
            begin == !old(self).active,
            *final(self) == old(self).asked(),
    {
        if self.active {
            self.pending = true;
            false
        } else {
            self.active = true;
            self.pending = false;
            true
        }
    }

    /// Ends a look: tells whether another is to be asked for.
    pub fn end(&mut self) -> (again: bool)
        ensures
            again == old(self).pending,
            *final(self) == old(self).ended(),
    {
        let again = self.pending;
        self.active = false;
        self.pending = false;
        again
    }
}

/// However often a look is asked for while one is under way, none begins, and
/// exactly one follows: nothing that happens goes unseen, and there is never
/// more than one look at a time.
pub proof fn law_asking_meanwhile_brings_one_more_look(gate: TraceGate)
    requires
        gate.active,
    ensures
        gate.asked().active,
        gate.asked().pending,
        gate.asked().asked() == gate.asked(),
        !gate.asked().ended().active,
        !gate.asked().ended().asked().pending,
{
}

/// What is looked at are records of the log: the twelve latest at least, and what
/// is neither among them nor seen by one of the twelve latest impressions is not.
/// They are in the order in which they happened.
pub proof fn law_latest_records_are_looked_at(
    records: Seq<SensationRecordView>,
    impressions: Seq<ImpressionRecordView>,
    r: SensationRecordView,
)
    ensures
        (exists|k: int|
            0 <= k < records.len() && records.len() - 12 <= k && #[trigger] records[k] == r)
            ==> selected(records, impressions).contains(r),
        selected(records, impressions).contains(r) ==> records.contains(r) && ((exists|k: int|
            0 <= k < records.len() && records.len() - 12 <= k && #[trigger] records[k] == r) || (
        exists|n: int|
            0 <= n < impressions.len() && impressions.len() - 12 <= n
                && (#[trigger] impressions[n]).sensation_id == r.id)),
        (forall|k: int|
            0 <= k < records.len() ==> in_range((#[trigger] records[k]).occurred_at@) && in_range(
                records[k].observed_at@,
            )) ==> forall|i: int, j: int|
            0 <= i < j < selected(records, impressions).len() ==> (#[trigger] selected(
                records,
                impressions,
            )[i]).occurred_at@ <= (#[trigger] selected(records, impressions)[j]).occurred_at@,
{
    let latest = last_of(records, 12);
    let seen = seen_ids(last_of(impressions, 12));
    let taken = record_ids(latest);
    let more = also_wanted(records, seen, taken);
    let whole = latest + more;
    let none = Seq::<SensationRecordView>::empty();
    let out = selected(records, impressions);
    lemma_placed_members(none, whole, record_order());
    lemma_placed_all(none, whole, record_order());
    if exists|k: int| 0 <= k < records.len() && records.len() - 12 <= k && #[trigger] records[k]
        == r {
        let k = choose|k: int|
            0 <= k < records.len() && records.len() - 12 <= k && #[trigger] records[k] == r;
        let start = records.len() - latest.len();
        assert(whole[k - start] == r);
        assert(whole.contains(r));
        assert(out.contains(r));
    }
    lemma_selected_from(records, impressions);
    if out.contains(r) {
        assert(!none.contains(r));
        assert(whole.contains(r));
        let m = choose|m: int| 0 <= m < whole.len() && whole[m] == r;
        if m < latest.len() {
            let start = records.len() - latest.len();
            assert(records[start + m] == r);
        } else {
            assert(more[m - latest.len()] == r);
            assert(more.contains(r));
            lemma_wanted_from(records, seen, taken, r);
            let n = choose|n: int| 0 <= n < seen.len() && seen[n] == r.id;
            let from = impressions.len() - last_of(impressions, 12).len();
            assert(impressions[from + n].sensation_id == r.id);
        }
    }
    if forall|k: int|
        0 <= k < records.len() ==> in_range((#[trigger] records[k]).occurred_at@) && in_range(
            records[k].observed_at@,
        ) {
        assert forall|i: int, j: int| 0 <= i < j < out.len() implies (
        #[trigger] out[i]).occurred_at@ <= (#[trigger] out[j]).occurred_at@ by {
            assert(record_order()(out[i]) <= record_order()(out[j]));
            assert(out.contains(out[i]) && out.contains(out[j]));
            assert(records.contains(out[i]) && records.contains(out[j]));
            lemma_key_tells_time(out[i], out[j]);
        }
    }
}

proof fn lemma_selected_from(
    records: Seq<SensationRecordView>,
    impressions: Seq<ImpressionRecordView>,
)
    ensures
        forall|r: SensationRecordView| #[trigger]
            selected(records, impressions).contains(r) ==> records.contains(r),
{
    let latest = last_of(records, 12);
    let seen = seen_ids(last_of(impressions, 12));
    let taken = record_ids(latest);
    let more = also_wanted(records, seen, taken);
    let whole = latest + more;
    let none = Seq::<SensationRecordView>::empty();
    lemma_placed_members(none, whole, record_order());
    assert forall|r: SensationRecordView| #[trigger]
        selected(records, impressions).contains(r) implies records.contains(r) by {
        assert(!none.contains(r));
        assert(whole.contains(r));
        let m = choose|m: int| 0 <= m < whole.len() && whole[m] == r;
        if m < latest.len() {
            let start = records.len() - latest.len();
            assert(records[start + m] == r);
        } else {
            assert(more[m - latest.len()] == r);
            assert(more.contains(r));
            lemma_wanted_from(records, seen, taken, r);
        }
    }
}

proof fn lemma_wanted_from(
    list: Seq<SensationRecordView>,
    wanted: Seq<Id>,
    taken: Seq<Id>,
    r: SensationRecordView,
)
    requires
        also_wanted(list, wanted, taken).contains(r),
    ensures
        list.contains(r),
        wanted.contains(r.id),
    decreases list.len(),
{
    let out = also_wanted(list, wanted, taken);
    let rest = also_wanted(list.drop_last(), wanted, taken);
    let n = choose|n: int| 0 <= n < out.len() && out[n] == r;
    if n < rest.len() {
        assert(rest[n] == r);
        lemma_wanted_from(list.drop_last(), wanted, taken, r);
        let k = choose|k: int| 0 <= k < list.drop_last().len() && list.drop_last()[k] == r;
        assert(list[k] == r);
    } else {
        assert(list[list.len() - 1] == r);
    }
}

proof fn lemma_key_tells_time(a: SensationRecordView, b: SensationRecordView)
    requires
        in_range(a.occurred_at@),
        in_range(b.occurred_at@),
        in_range(a.observed_at@),
        in_range(b.observed_at@),
        record_key(a) <= record_key(b),
    ensures
        a.occurred_at@ <= b.occurred_at@,
{
    let big: int = 0x10000000000000000000000000int;
    let more: int = 0x100000000000000000000000000000000int;
    let x = a.occurred_at@ * big + a.observed_at@;
    let y = b.occurred_at@ * big + b.observed_at@;
    assert(0 <= a.id.bits < more && 0 <= b.id.bits < more);
    assert(x <= y) by (nonlinear_arith)
        requires
            x * more + a.id.bits <= y * more + b.id.bits,
            0 <= a.id.bits < more,
            0 <= b.id.bits < more,
            more == 0x100000000000000000000000000000000int,
    ;
    let p = a.occurred_at@;
    let q = b.occurred_at@;
    assert(-big < b.observed_at@ - a.observed_at@ < big);
    assert(p <= q) by (nonlinear_arith)
        requires
            p * big + a.observed_at@ <= q * big + b.observed_at@,
            -big < b.observed_at@ - a.observed_at@ < big,
            big == 0x10000000000000000000000000int,
    ;
}

/// The impression of a record is the latest that was had of it, as it was had;
/// where none was, it is one of the record's own moment. Either way it is about the
/// record.
pub proof fn law_record_is_seen_as_it_was_last(
    r: SensationRecordView,
    list: Seq<ImpressionRecordView>,
    fresh: Id,
)
    ensures
        impression_of(r, list, fresh).about == seq![r.id],
        (exists|i: int| 0 <= i < list.len() && (#[trigger] list[i]).sensation_id == r.id) ==> exists|
            i: int,
        |
            0 <= i < list.len() && (#[trigger] list[i]).sensation_id == r.id && (forall|j: int|
                i < j < list.len() ==> (#[trigger] list[j]).sensation_id != r.id) && impression_of(
                r,
                list,
                fresh,
            ).id == list[i].id && impression_of(r, list, fresh).text == list[i].text
                && impression_of(r, list, fresh).kind == list[i].kind && impression_of(
                r,
                list,
                fresh,
            ).faculty == list[i].faculty && impression_of(r, list, fresh).occurred_at
                == list[i].occurred_at && impression_of(r, list, fresh).confidence
                == list[i].confidence,
        (forall|i: int| 0 <= i < list.len() ==> (#[trigger] list[i]).sensation_id != r.id)
            ==> impression_of(r, list, fresh).id == fresh && impression_of(
            r,
            list,
            fresh,
        ).occurred_at == r.occurred_at && impression_of(r, list, fresh).observed_at
            == r.observed_at,
    decreases list.len(),
{
    if list.len() > 0 && list.last().sensation_id != r.id {
        let front = list.drop_last();
        law_record_is_seen_as_it_was_last(r, front, fresh);
        assert forall|i: int| 0 <= i < front.len() implies #[trigger] front[i] == list[i] by {}
        assert(impression_of(r, list, fresh) == impression_of(r, front, fresh));
        if exists|i: int| 0 <= i < list.len() && (#[trigger] list[i]).sensation_id == r.id {
            let k = choose|k: int| 0 <= k < list.len() && (#[trigger] list[k]).sensation_id == r.id;
            assert(front[k].sensation_id == r.id);
            let i = choose|i: int|
                0 <= i < front.len() && (#[trigger] front[i]).sensation_id == r.id && (forall|
                    j: int,
                |
                    i < j < front.len() ==> (#[trigger] front[j]).sensation_id != r.id)
                    && impression_of(r, front, fresh).id == front[i].id && impression_of(
                    r,
                    front,
                    fresh,
                ).text == front[i].text && impression_of(r, front, fresh).kind == front[i].kind
                    && impression_of(r, front, fresh).faculty == front[i].faculty
                    && impression_of(r, front, fresh).occurred_at == front[i].occurred_at
                    && impression_of(r, front, fresh).confidence == front[i].confidence;
            assert(list[i].sensation_id == r.id);
            assert forall|j: int| i < j < list.len() implies (
            #[trigger] list[j]).sensation_id != r.id by {
                if j < front.len() {
                    assert(front[j].sensation_id != r.id);
                }
            }
        }
    } else if list.len() > 0 {
        assert(list[list.len() - 1].sensation_id == r.id);
    }
}

/// A scene shows every record that is looked at and an impression of each, and
/// nothing else: twice as many entries as records. The sensation of a record is of
/// its moment and kind and under its identifier.
pub proof fn law_scene_shows_every_record(
    list: Seq<SensationRecordView>,
    impressions: Seq<ImpressionRecordView>,
    ids: Seq<Id>,
    k: int,
)
    requires
        0 <= k < list.len(),
    ensures
        scene_of(list, impressions, ids).len() == 2 * list.len(),
        in_order(scene_of(list, impressions, ids), entry_time()),
        exists|s: SensationView|
            scene_of(list, impressions, ids).contains(#[trigger] sensation_entry(s)) && s.id
                == list[k].id && s.kind == list[k].kind && s.occurred_at == list[k].occurred_at
                && s.observed_at == list[k].observed_at && field(s.payload, "detail"@) == Some(
                list[k].detail,
            ),
        scene_of(list, impressions, ids).contains(
            EntryView::Impression(impression_of(list[k], impressions, ids[k])),
        ),
{
    let entries = entries_of(list, impressions, ids);
    let none = Seq::<EntryView>::empty();
    lemma_entries_of(list, impressions, ids, k);
    lemma_placed_all(none, entries, entry_time());
    lemma_placed_members(none, entries, entry_time());
    let s = sensation_of(list[k]);
    assert(entries.contains(EntryView::Sensation(s)));
    assert(entries.contains(EntryView::Impression(impression_of(list[k], impressions, ids[k]))));
    assert(scene_of(list, impressions, ids).contains(sensation_entry(s)));
    reveal_strlit("data_bytes");
    reveal_strlit("data_sha256");
    reveal_strlit("detail");
    assert("data_bytes"@.len() == 10);
    assert("data_sha256"@.len() == 11);
    assert("detail"@.len() == 6);
    lemma_field_at(s.payload->Object_0, 2);
}

/// A sensation on a timeline.
pub open spec fn sensation_entry(s: SensationView) -> EntryView {
    EntryView::Sensation(s)
}

proof fn lemma_entries_of(
    list: Seq<SensationRecordView>,
    impressions: Seq<ImpressionRecordView>,
    ids: Seq<Id>,
    k: int,
)
    requires
        0 <= k < list.len(),
    ensures
        entries_of(list, impressions, ids).len() == 2 * list.len(),
        entries_of(list, impressions, ids)[2 * k] == EntryView::Sensation(sensation_of(list[k])),
        entries_of(list, impressions, ids)[2 * k + 1] == EntryView::Impression(
            impression_of(list[k], impressions, ids[k]),
        ),
    decreases list.len(),
{
    let front = list.drop_last();
    if k < list.len() - 1 {
        lemma_entries_of(front, impressions, ids, k);
    } else if front.len() > 0 {
        lemma_entries_of(front, impressions, ids, 0);
    } else {
        assert(entries_of(front, impressions, ids).len() == 0);
    }
}

/// Where nobody had an impression of a position, what is felt tells its latitude
/// first and its longitude behind it, to five places.
pub proof fn law_position_is_felt_by_latitude_and_longitude(
    r: SensationRecordView,
    lat: Seq<char>,
    lon: Seq<char>,
    a: Seq<char>,
    b: Seq<char>,
)
    requires
        r.kind == "location.fix"@,
        field(r.detail, "lat"@) == Some(JsonView::Number(lat)),
        field(r.detail, "lon"@) == Some(JsonView::Number(lon)),
        fixed(lat, 5) == Some(a),
        fixed(lon, 5) == Some(b),
    ensures
        feeling(r) == "My geolocation is approximately ("@ + a + ", "@ + b
            + "). (This does not necessarily indicate movement or new information.)"@,
{
    reveal_strlit("vision.face_crop");
    reveal_strlit("vision.frame");
    reveal_strlit("location.fix");
    assert("location.fix"@[0] == 'l' && "vision.frame"@[0] == 'v' && "vision.face_crop"@[0] == 'v');
}

/// Where nobody had an impression of words, what is felt is that a voice says
/// them.
pub proof fn law_words_are_felt_as_said(r: SensationRecordView, text: Seq<char>)
    requires
        r.kind == "audio.utterance"@,
        field(r.detail, "text"@) == Some(JsonView::Str(text)),
        is_spaced(text),
        text.len() > 0,
    ensures
        feeling(r) == "I hear a voice say: "@ + text,
        feeling_kind(r.kind) == "audio"@,
        feeling_faculty(r.kind) == "hearing"@,
{
    reveal_strlit("vision.face_crop");
    reveal_strlit("vision.frame");
    reveal_strlit("location.fix");
    reveal_strlit("audio.utterance");
    reveal_strlit("audio.voice_clip");
    reveal_strlit("audio.");
    assert("audio.utterance"@[0] == 'a');
    assert("vision.frame"@[0] == 'v' && "vision.face_crop"@[0] == 'v');
    assert("location.fix"@[0] == 'l');
    assert("audio.utterance"@.len() == 15 && "audio.voice_clip"@.len() == 16);
    assert("audio.utterance"@.subrange(0, 6) =~= "audio."@);
    lemma_trimmed_noop(text, CharClass::WhiteSpace);
}

/// An age is put into its decade, and into the part of it: no decade is told that
/// the age is not of.
pub proof fn law_age_is_put_into_its_decade(age: nat, decade: nat, own: Seq<char>)
    requires
        2 <= decade <= 9,
        10 * decade <= age < 10 * decade + 10,
    ensures
        age - 10 * decade <= 3 ==> aged(age, own) == "in "@ + own + " "@ + "early"@ + " "@ + decimal(
            10 * decade,
        ) + "s"@,
        4 <= age - 10 * decade <= 6 ==> aged(age, own) == "in "@ + own + " "@ + "mid"@ + " "@
            + decimal(10 * decade) + "s"@,
        7 <= age - 10 * decade ==> aged(age, own) == "in "@ + own + " "@ + "late"@ + " "@ + decimal(
            10 * decade,
        ) + "s"@,
{
    assert(age / 10 == decade);
    assert(age % 10 == age - 10 * decade);
}

proof fn lemma_latest_time(ids: Seq<Id>, impressions: Seq<ImpressionRecordView>)
    ensures
        match latest_time(ids, impressions) {
            Some(t) => {
                &&& exists|i: int|
                    0 <= i < ids.len() && #[trigger] time_of_impression(impressions, ids[i])
                        == Some(t)
                &&& forall|i: int|
                    0 <= i < ids.len() && (#[trigger] time_of_impression(
                        impressions,
                        ids[i],
                    )) is Some ==> time_of_impression(impressions, ids[i])->0@ <= t@
            },
            None => forall|i: int|
                0 <= i < ids.len() ==> (#[trigger] time_of_impression(impressions, ids[i])) is None,
        },
    decreases ids.len(),
{
    if ids.len() > 0 {
        let front = ids.drop_last();
        lemma_latest_time(front, impressions);
        let n = ids.len() - 1;
        assert forall|i: int| 0 <= i < front.len() implies #[trigger] front[i] == ids[i] by {}
        assert(time_of_impression(impressions, ids[n]) == time_of_impression(
            impressions,
            ids.last(),
        ));
        if let Some(t) = latest_time(front, impressions) {
            let i = choose|i: int|
                0 <= i < front.len() && #[trigger] time_of_impression(impressions, front[i])
                    == Some(t);
            assert(time_of_impression(impressions, ids[i]) == Some(t));
        }
        assert forall|i: int| 0 <= i < ids.len() implies time_of_impression(impressions, #[trigger] ids[i])
            == time_of_impression(
            impressions,
            if i < n {
                front[i]
            } else {
                ids.last()
            },
        ) by {}
    }
}

/// What an answer tells was lived through when the latest of the impressions that
/// it is drawn from happened.
pub proof fn law_experience_is_of_its_latest_impression(
    what: Seq<char>,
    impressions: Seq<ImpressionRecordView>,
    now: Timestamp,
    id: Id,
    i: int,
)
    requires
        0 <= i < latest_impression_ids(impressions).len(),
        time_of_impression(impressions, latest_impression_ids(impressions)[i]) is Some,
    ensures
        ({
            let e = told_experience(what, impressions, now, id);
            &&& e.what == what
            &&& e.id == id
            &&& e.observed_at == now
            &&& e.impression_ids == latest_impression_ids(impressions)
            &&& time_of_impression(impressions, e.impression_ids[i])->0@ <= e.occurred_at@
            &&& exists|k: int|
                0 <= k < e.impression_ids.len() && #[trigger] time_of_impression(
                    impressions,
                    e.impression_ids[k],
                ) == Some(e.occurred_at)
        }),
{
    lemma_latest_time(latest_impression_ids(impressions), impressions);
}

/// The names are all different.
proof fn lemma_record_names()
    ensures
        "data_bytes"@ != "data_sha256"@,
        "data_bytes"@ != "detail"@,
        "data_sha256"@ != "detail"@,
        "data_bytes"@ != "media"@,
        "data_sha256"@ != "media"@,
        "detail"@ != "media"@,
{
    reveal_strlit("data_bytes");
    reveal_strlit("data_sha256");
    reveal_strlit("detail");
    reveal_strlit("media");
    assert("data_bytes"@.len() != "data_sha256"@.len());
    assert("data_bytes"@.len() != "detail"@.len());
    assert("data_sha256"@.len() != "detail"@.len());
    assert("data_bytes"@.len() != "media"@.len());
    assert("data_sha256"@.len() != "media"@.len());
    assert("detail"@.len() != "media"@.len());
}

/// The names are all different.
proof fn lemma_media_names()
    ensures
        "encoding"@ != "height"@,
        "encoding"@ != "mime"@,
        "height"@ != "mime"@,
        "encoding"@ != "width"@,
        "height"@ != "width"@,
        "mime"@ != "width"@,
{
    reveal_strlit("encoding");
    reveal_strlit("height");
    reveal_strlit("mime");
    reveal_strlit("width");
    assert("encoding"@.len() != "height"@.len());
    assert("encoding"@.len() != "mime"@.len());
    assert("height"@.len() != "mime"@.len());
    assert("encoding"@.len() != "width"@.len());
    assert("height"@.len() != "width"@.len());
    assert("mime"@.len() != "width"@.len());
}

/// A record is perceived as it is: with its moments, its number, its provenance and
/// its sender, and with what is known of it and its medium under their names.
pub proof fn law_record_is_perceived_as_it_is(r: SensationRecordView)
    ensures
        ({
            let s = sensation_of(r);
            &&& s.id == r.id
            &&& s.kind == r.kind
            &&& s.occurred_at == r.occurred_at
            &&& s.observed_at == r.observed_at
            &&& s.sequence == Some(r.sequence)
            &&& s.provenance == r.provenance
            &&& s.source == r.source.client_id + ":"@ + r.source.sensor_id + ":"@ + r.source.faculty
            &&& field(s.payload, "detail"@) == Some(r.detail)
            &&& field(s.payload, "data_sha256"@) == Some(JsonView::Str(r.data_sha256))
            &&& field(s.payload, "data_bytes"@) == Some(
                JsonView::Number(decimal(r.data_bytes as nat)),
            )
            &&& field(s.payload, "media"@) matches Some(m) && {
                &&& field(m, "mime"@) == Some(JsonView::Str(r.media.mime))
                &&& field(m, "encoding"@) == Some(JsonView::Str(r.media.encoding))
                &&& field(m, "width"@) == Some(JsonView::Number(decimal(r.media.width as nat)))
                &&& field(m, "height"@) == Some(JsonView::Number(decimal(r.media.height as nat)))
            }
        }),
{
    lemma_record_names();
    lemma_media_names();
    let fields = sensation_of(r).payload->Object_0;
    lemma_field_at(fields, 0);
    lemma_field_at(fields, 1);
    lemma_field_at(fields, 2);
    lemma_field_at(fields, 3);
    let media = media_json(r.media)->Object_0;
    lemma_field_at(media, 0);
    lemma_field_at(media, 1);
    lemma_field_at(media, 2);
    lemma_field_at(media, 3);
}

/// A voice or a face feels the more familiar the more it is like the one remembered,
/// and a voice that was heard with some words recalls them.
pub proof fn law_likeness_is_felt(r: SensationRecordView, score: Seq<char>, words: Seq<char>)
    requires
        field(r.detail, "score"@) == Some(JsonView::Number(score)),
        field(r.detail, "transcript"@) == Some(JsonView::Str(words)),
        words.len() > 0,
        is_spaced(words),
    ensures
        is_at_most("0.9"@, score) ==> {
            &&& voice_match_feeling(r) == "That voice sounds very familiar"@
                + "; I remember hearing it around: "@ + words
            &&& face_match_feeling(r) == "That face looks very familiar from earlier sight."@
        },
        !is_at_most("0.9"@, score) ==> face_match_feeling(r)
            == "That face reminds me of one I saw before."@,
        !is_at_most("0.9"@, score) && is_at_most("0.8"@, score) ==> voice_match_feeling(r)
            == "That voice sounds familiar"@ + "; I remember hearing it around: "@ + words,
        !is_at_most("0.9"@, score) && !is_at_most("0.8"@, score) ==> voice_match_feeling(r)
            == "That voice faintly reminds me of one I heard before"@
            + "; I remember hearing it around: "@ + words,
{
    lemma_trimmed_noop(words, CharClass::WhiteSpace);
}

/// A voice is felt to be the clearer the surer it is, and its words are told.
pub proof fn law_clearness_is_felt(r: SensationRecordView, clear: Seq<char>, words: Seq<char>)
    requires
        field(r.detail, "voice_confidence"@) == Some(JsonView::Number(clear)),
        field(r.detail, "transcript"@) == Some(JsonView::Str(words)),
        words.len() > 0,
        is_spaced(words),
    ensures
        is_at_most("0.7"@, clear) ==> voice_feeling(r) == "I hear a clear voice"@
            + " in the utterance: "@ + words,
        !is_at_most("0.7"@, clear) && is_at_most("0.4"@, clear) ==> voice_feeling(r)
            == "I hear a voice"@ + " in the utterance: "@ + words,
        !is_at_most("0.7"@, clear) && !is_at_most("0.4"@, clear) ==> voice_feeling(r)
            == "I may be hearing a voice"@ + " in the utterance: "@ + words,
{
    lemma_trimmed_noop(words, CharClass::WhiteSpace);
}

/// A face is taken for a woman or a man as its record says, in capitals or not, and
/// for neither where it says anything else.
pub proof fn law_face_is_taken_for_whom_it_is_said(detail: JsonView, estimate: Seq<char>)
    requires
        field(detail, "estimated_sex"@) == Some(JsonView::Str(estimate)),
        is_spaced(estimate),
    ensures
        ({
            let low = lowered(estimate);
            &&& low == "female"@ || low == "woman"@ ==> person_of(detail) == Some(
                PerceivedPerson::Woman,
            )
            &&& low == "male"@ || low == "man"@ ==> person_of(detail) == Some(PerceivedPerson::Man)
            &&& low != "female"@ && low != "woman"@ && low != "male"@ && low != "man"@
                ==> person_of(detail) is None
        }),
{
    lemma_trimmed_noop(estimate, CharClass::WhiteSpace);
    reveal_strlit("female");
    reveal_strlit("woman");
    reveal_strlit("male");
    reveal_strlit("man");
    assert("female"@.len() != "male"@.len() && "female"@.len() != "man"@.len());
    assert("woman"@.len() != "male"@.len() && "woman"@.len() != "man"@.len());
}

} // verus!
