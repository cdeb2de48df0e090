//! The records of what is thought, said and shown.

use std::collections::VecDeque;
use vstd::prelude::*;

use crate::digest::{byte_len, sha256_text, text_bytes, text_digest};
use crate::ident::{has_id, hyphenated, Id};
use crate::impression::Confidence;
use crate::ingestion::{record_sensation, record_views};
use crate::json::{
    field, id_array, json_text, lemma_field_at, named, Fields, Json, JsonView,
};
use crate::logs::{logged, push_limited, MAX_RECORDED_VISION_IMPRESSIONS};
use crate::messages::{
    ImpressionRecordView, MediaRecord, MediaView, ObservationView, SensationRecord,
    SensationRecordView, SensationSource, SourceView, VisionImpressionRecord, VoiceObservation,
};
use crate::sensation::{Provenance, ProvenanceView};
use crate::decimal::decimal;
use crate::text::{lowered, optional, to_lower};
use crate::time::Timestamp;
use crate::voice_text::{face_emoji_impression_text, queued_voice_impression_text};

verus! {

/// How sure a thought is.
pub const VOICE_OBSERVATION_CONFIDENCE: &'static str = "0.6200000047683716";

/// A sensation and the impression of it.
#[derive(Debug, PartialEq, Eq)]
pub struct Recorded {
    /// The sensation.
    pub sensation: SensationRecord,
    /// The impression.
    pub impression: VisionImpressionRecord,
}

/// What a [`Recorded`] is.
pub ghost struct RecordedView {
    pub sensation: SensationRecordView,
    pub impression: ImpressionRecordView,
}

impl View for Recorded {
    type V = RecordedView;

    open spec fn view(&self) -> RecordedView {
        RecordedView {
            sensation: self.sensation@,
            impression: self.impression@,
        }
    }
}

impl Clone for Recorded {
    fn clone(&self) -> (r: Recorded)
        ensures
            r@ == self@,
    {
        Recorded {
            sensation: self.sensation.clone(),
            impression: self.impression.clone(),
        }
    }
}

/// The identifiers of a sensation and of the impression of it.
#[derive(Debug, Clone, Copy, PartialEq, Eq, Structural)]
pub struct RecordIds {
    /// The sensation's.
    pub sensation: Id,
    /// The impression's.
    pub impression: Id,
}

/// What is to be recorded.
pub ghost struct NoteView {
    pub at: Timestamp,
    pub kind: Seq<char>,
    pub source: SourceView,
    pub mime: Seq<char>,
    pub via: Seq<char>,
    pub data: Seq<char>,
    pub detail: JsonView,
    pub text: Seq<char>,
    pub confidence: Seq<char>,
    pub payload: JsonView,
}

/// The record of something.
pub open spec fn recorded(ids: RecordIds, note: NoteView) -> RecordedView {
    RecordedView {
        sensation: SensationRecordView {
            id: ids.sensation,
            kind: note.kind,
            occurred_at: note.at,
            observed_at: note.at,
            source: note.source,
            sequence: 0,
            media: MediaView::flat(note.mime, "utf-8"@),
            provenance: ProvenanceView::direct().through(note.via),
            data_sha256: text_digest(note.data),
            data_bytes: text_bytes(note.data),
            detail: note.detail,
        },
        impression: ImpressionRecordView {
            id: ids.impression,
            sensation_id: ids.sensation,
            occurred_at: note.at,
            observed_at: note.at,
            source: note.source,
            sequence: 0,
            text: note.text,
            kind: note.kind,
            faculty: note.via,
            confidence: note.confidence,
            payload: note.payload,
        },
    }
}

/// Records something.
fn record(
    ids: RecordIds,
    at: Timestamp,
    kind: &str,
    source: SensationSource,
    mime: &str,
    via: &str,
    data: &str,
    detail: Json,
    text: String,
    confidence: Confidence,
    payload: Json,
) -> (r: Recorded)
    ensures
        r@ == recorded(
            ids,
            (NoteView {
                at,
                kind: kind@,
                source: source@,
                mime: mime@,
                via: via@,
                data: data@,
                detail: detail@,
                text: text@,
                confidence: confidence@,
                payload: payload@,
            }),
        ),
{
    let sensation = SensationRecord {
        id: ids.sensation,
        kind: kind.to_owned(),
        occurred_at: at,
        observed_at: at,
        source: source.clone(),
        sequence: 0,
        media: MediaRecord::flat(mime, "utf-8"),
        provenance: Provenance::direct().with_faculty(via),
        data_sha256: sha256_text(data),
        data_bytes: byte_len(data),
        detail,
    };
    let impression = VisionImpressionRecord {
        id: ids.impression,
        sensation_id: ids.sensation,
        occurred_at: at,
        observed_at: at,
        source,
        sequence: 0,
        text,
        kind: kind.to_owned(),
        faculty: via.to_owned(),
        confidence,
        payload,
    };
    Recorded { sensation, impression }
}

/// A confidence as JSON.
pub open spec fn confidence_json(c: Seq<char>) -> JsonView {
    JsonView::Number(c)
}

/// An optional text as JSON.
pub open spec fn optional_text_json(text: Option<Seq<char>>) -> JsonView {
    match text {
        Some(t) => JsonView::Str(t),
        None => JsonView::Null,
    }
}

/// An optional identifier as JSON.
pub open spec fn optional_id_json(id: Option<Id>) -> JsonView {
    match id {
        Some(id) => JsonView::Str(hyphenated(id)),
        None => JsonView::Null,
    }
}

/// An optional number as JSON.
pub open spec fn optional_count_json(n: Option<u64>) -> JsonView {
    match n {
        Some(n) => JsonView::Number(decimal(n as nat)),
        None => JsonView::Null,
    }
}

/// What is known of a thought.
pub open spec fn observation_detail(generation_id: Id, o: ObservationView) -> JsonView {
    JsonView::Object(
        seq![
            named("confidence"@, confidence_json(o.confidence)),
            named("emoji"@, optional_text_json(o.emoji)),
            named("experience_ids"@, id_array(o.experience_ids)),
            named("interrupted_generation_id"@, optional_id_json(o.interrupted_generation_id)),
            named("observation_id"@, JsonView::Str(hyphenated(o.id))),
            named("text"@, JsonView::Str(o.text)),
            named("voice_generation_id"@, JsonView::Str(hyphenated(generation_id))),
        ],
    )
}

/// What is known of words that are to be spoken.
pub open spec fn queued_detail(generation_id: Id, o: ObservationView) -> JsonView {
    JsonView::Object(
        seq![
            named("confidence"@, confidence_json(o.confidence)),
            named("emoji"@, optional_text_json(o.emoji)),
            named("experience_ids"@, id_array(o.experience_ids)),
            named("text"@, JsonView::Str(o.text)),
            named("utterance_id"@, JsonView::Str(hyphenated(o.id))),
            named("voice_generation_id"@, JsonView::Str(hyphenated(generation_id))),
        ],
    )
}

/// Which thought, of which generation, an impression is of.
pub open spec fn observation_payload(generation_id: Id, observation_id: Id) -> JsonView {
    JsonView::Object(
        seq![
            named("voice_generation_id"@, JsonView::Str(hyphenated(generation_id))),
            named("voice_observation_id"@, JsonView::Str(hyphenated(observation_id))),
        ],
    )
}

fn observation_detail_json(generation_id: Id, o: &VoiceObservation) -> (json: Json)
    ensures
        json@ == observation_detail(generation_id, o@),
{
    let fields = Fields::new()
        .with("confidence", Json::Number(o.confidence.text.clone()))
        .with("emoji", Json::optional_text(&o.emoji))
        .with("experience_ids", Json::ids(&o.experience_ids))
        .with("interrupted_generation_id", Json::optional_id(o.interrupted_generation_id))
        .with("observation_id", Json::id(o.id))
        .with("text", Json::text(o.text.as_str()))
        .with("voice_generation_id", Json::id(generation_id));
    assert(fields@ =~= observation_detail(generation_id, o@)->Object_0);
    fields.object()
}

fn queued_detail_json(generation_id: Id, o: &VoiceObservation) -> (json: Json)
    ensures
        json@ == queued_detail(generation_id, o@),
{
    let fields = Fields::new()
        .with("confidence", Json::Number(o.confidence.text.clone()))
        .with("emoji", Json::optional_text(&o.emoji))
        .with("experience_ids", Json::ids(&o.experience_ids))
        .with("text", Json::text(o.text.as_str()))
        .with("utterance_id", Json::id(o.id))
        .with("voice_generation_id", Json::id(generation_id));
    assert(fields@ =~= queued_detail(generation_id, o@)->Object_0);
    fields.object()
}

fn observation_payload_json(generation_id: Id, observation_id: Id) -> (json: Json)
    ensures
        json@ == observation_payload(generation_id, observation_id),
{
    let fields = Fields::new()
        .with("voice_generation_id", Json::id(generation_id))
        .with("voice_observation_id", Json::id(observation_id));
    assert(fields@ =~= observation_payload(generation_id, observation_id)->Object_0);
    fields.object()
}

/// The note of words that were spoken.
pub open spec fn spoken_note(generation_id: Id, o: ObservationView) -> NoteView {
    NoteView {
        at: o.observed_at,
        kind: "voice.spoken_utterance"@,
        source: SourceView::of("mortar-sea"@, "voice.mouth"@, "voice"@),
        mime: "text/plain"@,
        via: "Voice"@,
        data: o.text,
        detail: observation_detail(generation_id, o),
        text: "I say: "@ + o.text,
        confidence: o.confidence,
        payload: observation_payload(generation_id, o.id),
    }
}

/// Records words that were spoken.
pub fn record_spoken_voice_sensation_and_impression(
    ids: RecordIds,
    generation_id: Id,
    observation: &VoiceObservation,
) -> (r: Recorded)
    ensures
        r@ == recorded(ids, spoken_note(generation_id, observation@)),
{
    let mut text = "I say: ".to_owned();
    text.push_str(observation.text.as_str());
    record(
        ids,
        observation.observed_at,
        "voice.spoken_utterance",
        SensationSource::of("mortar-sea", "voice.mouth", "voice"),
        "text/plain",
        "Voice",
        observation.text.as_str(),
        observation_detail_json(generation_id, observation),
        text,
        observation.confidence.clone(),
        observation_payload_json(generation_id, observation.id),
    )
}

/// The note of words that are to be spoken.
pub open spec fn queued_note(generation_id: Id, o: ObservationView) -> NoteView {
    NoteView {
        at: o.observed_at,
        kind: "voice.speech_queued"@,
        source: SourceView::of("mortar-sea"@, "voice.mouth.queue"@, "voice"@),
        mime: "text/plain"@,
        via: "Voice"@,
        data: o.text,
        detail: queued_detail(generation_id, o),
        text: "I feel myself about to say: "@ + o.text,
        confidence: o.confidence,
        payload: observation_payload(generation_id, o.id),
    }
}

/// Records words that are to be spoken.
pub fn record_queued_voice_sensation_and_impression(
    ids: RecordIds,
    generation_id: Id,
    observation: &VoiceObservation,
) -> (r: Recorded)
    ensures
        r@ == recorded(ids, queued_note(generation_id, observation@)),
{
    record(
        ids,
        observation.observed_at,
        "voice.speech_queued",
        SensationSource::of("mortar-sea", "voice.mouth.queue", "voice"),
        "text/plain",
        "Voice",
        observation.text.as_str(),
        queued_detail_json(generation_id, observation),
        queued_voice_impression_text(observation.text.as_str()),
        observation.confidence.clone(),
        observation_payload_json(generation_id, observation.id),
    )
}

/// The note of something that was only thought.
pub open spec fn internal_note(
    generation_id: Id,
    o: ObservationView,
    kind: Seq<char>,
    faculty: Seq<char>,
    prefix: Seq<char>,
) -> NoteView {
    NoteView {
        at: o.observed_at,
        kind,
        source: SourceView::of("mortar-sea"@, lowered(faculty), lowered(faculty)),
        mime: "text/plain"@,
        via: faculty,
        data: o.text,
        detail: observation_detail(generation_id, o),
        text: prefix + ": "@ + o.text,
        confidence: o.confidence,
        payload: observation_payload(generation_id, o.id),
    }
}

/// Records something that was only thought.
pub fn record_internal_voice_sensation_and_impression(
    ids: RecordIds,
    generation_id: Id,
    observation: &VoiceObservation,
    kind: &str,
    faculty: &str,
    impression_prefix: &str,
) -> (r: Recorded)
    ensures
        r@ == recorded(
            ids,
            internal_note(generation_id, observation@, kind@, faculty@, impression_prefix@),
        ),
{
    let mut text = impression_prefix.to_owned();
    text.push_str(": ");
    text.push_str(observation.text.as_str());
    let low = to_lower(faculty);
    record(
        ids,
        observation.observed_at,
        kind,
        SensationSource::of("mortar-sea", low.as_str(), low.as_str()),
        "text/plain",
        faculty,
        observation.text.as_str(),
        observation_detail_json(generation_id, observation),
        text,
        observation.confidence.clone(),
        observation_payload_json(generation_id, observation.id),
    )
}

/// What became of words that were spoken aloud.
pub ghost struct FeedbackNoteView {
    pub utterance_id: Id,
    pub generation_id: Id,
    pub observed_at: Timestamp,
    pub kind: Seq<char>,
    pub heading: Seq<char>,
    pub text: Seq<char>,
    pub duration_ms: Option<u64>,
    pub reason: Option<Seq<char>>,
}

/// What is known of words that were spoken aloud.
pub open spec fn feedback_detail(f: FeedbackNoteView) -> JsonView {
    JsonView::Object(
        seq![
            named("duration_ms"@, optional_count_json(f.duration_ms)),
            named("reason"@, optional_text_json(f.reason)),
            named("text"@, JsonView::Str(f.text)),
            named("utterance_id"@, JsonView::Str(hyphenated(f.utterance_id))),
            named("voice_generation_id"@, JsonView::Str(hyphenated(f.generation_id))),
        ],
    )
}

/// The note of what became of words that were spoken aloud.
pub open spec fn feedback_note(f: FeedbackNoteView) -> NoteView {
    NoteView {
        at: f.observed_at,
        kind: f.kind,
        source: SourceView::of("face-browser"@, "browser.tts"@, "mouth"@),
        mime: "application/json"@,
        via: "Mouth"@,
        data: json_text(feedback_detail(f)),
        detail: feedback_detail(f),
        text: f.heading + ": "@ + f.text,
        confidence: "0.6200000047683716"@,
        payload: JsonView::Object(
            seq![
                named("utterance_id"@, JsonView::Str(hyphenated(f.utterance_id))),
                named("voice_generation_id"@, JsonView::Str(hyphenated(f.generation_id))),
            ],
        ),
    }
}

/// Records what became of words that were spoken aloud.
pub fn record_voice_speech_feedback_sensation(
    ids: RecordIds,
    utterance_id: Id,
    generation_id: Id,
    observed_at: Timestamp,
    kind: &str,
    impression_text: &str,
    text: &str,
    duration_ms: Option<u64>,
    reason: &Option<String>,
) -> (r: Recorded)
    ensures
        r@ == recorded(
            ids,
            feedback_note(
                (FeedbackNoteView {
                    utterance_id,
                    generation_id,
                    observed_at,
                    kind: kind@,
                    heading: impression_text@,
                    text: text@,
                    duration_ms,
                    reason: optional(*reason),
                }),
            ),
        ),
{
    let ghost note = FeedbackNoteView {
        utterance_id,
        generation_id,
        observed_at,
        kind: kind@,
        heading: impression_text@,
        text: text@,
        duration_ms,
        reason: optional(*reason),
    };
    let fields = Fields::new()
        .with("duration_ms", Json::optional_count(duration_ms))
        .with("reason", Json::optional_text(reason))
        .with("text", Json::text(text))
        .with("utterance_id", Json::id(utterance_id))
        .with("voice_generation_id", Json::id(generation_id));
    assert(fields@ =~= feedback_detail(note)->Object_0);
    let detail = fields.object();
    let data = detail.to_text();
    let payload = Fields::new()
        .with("utterance_id", Json::id(utterance_id))
        .with("voice_generation_id", Json::id(generation_id));
    assert(payload@ =~= feedback_note(note).payload->Object_0);
    let mut said = impression_text.to_owned();
    said.push_str(": ");
    said.push_str(text);
    record(
        ids,
        observed_at,
        kind,
        SensationSource::of("face-browser", "browser.tts", "mouth"),
        "application/json",
        "Mouth",
        data.as_str(),
        detail,
        said,
        Confidence::of(VOICE_OBSERVATION_CONFIDENCE),
        payload.object(),
    )
}

/// What is known of a face that was made.
pub open spec fn face_detail(generation_id: Id, observation_id: Id, emoji: Seq<char>) -> JsonView {
    JsonView::Object(
        seq![
            named("emoji"@, JsonView::Str(emoji)),
            named("voice_generation_id"@, JsonView::Str(hyphenated(generation_id))),
            named("voice_observation_id"@, JsonView::Str(hyphenated(observation_id))),
        ],
    )
}

/// The note of a face that was made.
pub open spec fn face_note(generation_id: Id, o: ObservationView, emoji: Seq<char>) -> NoteView {
    let detail = face_detail(generation_id, o.id, emoji);
    NoteView {
        at: o.observed_at,
        kind: "interface.face_emoji"@,
        source: SourceView::of("mortar-sea"@, "face.emoji"@, "face"@),
        mime: "text/plain"@,
        via: "Face Interface"@,
        data: json_text(detail),
        detail,
        text: "I feel my face turn into a "@ + emoji,
        confidence: o.confidence,
        payload: detail,
    }
}

/// Records a face that was made.
pub fn record_face_emoji_sensation_and_impression(
    ids: RecordIds,
    generation_id: Id,
    observation: &VoiceObservation,
    emoji: &str,
) -> (r: Recorded)
    ensures
        r@ == recorded(ids, face_note(generation_id, observation@, emoji@)),
{
    let fields = Fields::new()
        .with("emoji", Json::text(emoji))
        .with("voice_generation_id", Json::id(generation_id))
        .with("voice_observation_id", Json::id(observation.id));
    assert(fields@ =~= face_detail(generation_id, observation.id, emoji@)->Object_0);
    let detail = fields.object();
    let data = detail.to_text();
    let payload = detail.clone();
    record(
        ids,
        observation.observed_at,
        "interface.face_emoji",
        SensationSource::of("mortar-sea", "face.emoji", "face"),
        "text/plain",
        "Face Interface",
        data.as_str(),
        detail,
        face_emoji_impression_text(emoji),
        observation.confidence.clone(),
        payload,
    )
}

/// The impressions of a log.
pub open spec fn impression_views(log: Seq<VisionImpressionRecord>) -> Seq<ImpressionRecordView> {
    log.map_values(|i: VisionImpressionRecord| i@)
}

/// Adds an impression to the log.
pub fn record_impression(
    impressions: &mut VecDeque<VisionImpressionRecord>,
    impression: VisionImpressionRecord,
)
    ensures
        impression_views(final(impressions)@) == logged(
            impression_views(old(impressions)@),
            impression@,
            80,
        ),
{
    push_limited(impressions, impression, MAX_RECORDED_VISION_IMPRESSIONS);
    assert(impression_views(impressions@) =~= logged(
        impression_views(old(impressions)@),
        impression@,
        80,
    ));
}

/// Adds a record to the logs, and its impression to those that the system made
/// of itself.
pub fn file_record(
    recorded: &Recorded,
    sensations: &mut VecDeque<SensationRecord>,
    impressions: &mut VecDeque<VisionImpressionRecord>,
    voice_impression_ids: &mut Vec<Id>,
)
    ensures
        record_views(final(sensations)@) == logged(
            record_views(old(sensations)@),
            recorded@.sensation,
            200,
        ),
        impression_views(final(impressions)@) == logged(
            impression_views(old(impressions)@),
            recorded@.impression,
            80,
        ),
        final(voice_impression_ids)@ == (if old(voice_impression_ids)@.contains(
            recorded@.impression.id,
        ) {
            old(voice_impression_ids)@
        } else {
            old(voice_impression_ids)@.push(recorded@.impression.id)
        }),
{
    record_sensation(sensations, recorded.sensation.clone());
    if !has_id(voice_impression_ids, recorded.impression.id) {
        voice_impression_ids.push(recorded.impression.id);
    }
    record_impression(impressions, recorded.impression.clone());
}

/// The names are all different.
proof fn lemma_note_names()
    ensures
        "confidence"@ != "duration_ms"@,
        "confidence"@ != "emoji"@,
        "duration_ms"@ != "emoji"@,
        "confidence"@ != "experience_ids"@,
        "duration_ms"@ != "experience_ids"@,
        "emoji"@ != "experience_ids"@,
        "confidence"@ != "interrupted_generation_id"@,
        "duration_ms"@ != "interrupted_generation_id"@,
        "emoji"@ != "interrupted_generation_id"@,
        "experience_ids"@ != "interrupted_generation_id"@,
        "confidence"@ != "observation_id"@,
        "duration_ms"@ != "observation_id"@,
        "emoji"@ != "observation_id"@,
        "experience_ids"@ != "observation_id"@,
        "interrupted_generation_id"@ != "observation_id"@,
        "confidence"@ != "reason"@,
        "duration_ms"@ != "reason"@,
        "emoji"@ != "reason"@,
        "experience_ids"@ != "reason"@,
        "interrupted_generation_id"@ != "reason"@,
        "observation_id"@ != "reason"@,
        "confidence"@ != "text"@,
        "duration_ms"@ != "text"@,
        "emoji"@ != "text"@,
        "experience_ids"@ != "text"@,
        "interrupted_generation_id"@ != "text"@,
        "observation_id"@ != "text"@,
        "reason"@ != "text"@,
        "confidence"@ != "utterance_id"@,
        "duration_ms"@ != "utterance_id"@,
        "emoji"@ != "utterance_id"@,
        "experience_ids"@ != "utterance_id"@,
        "interrupted_generation_id"@ != "utterance_id"@,
        "observation_id"@ != "utterance_id"@,
        "reason"@ != "utterance_id"@,
        "text"@ != "utterance_id"@,
        "confidence"@ != "voice_generation_id"@,
        "duration_ms"@ != "voice_generation_id"@,
        "emoji"@ != "voice_generation_id"@,
        "experience_ids"@ != "voice_generation_id"@,
        "interrupted_generation_id"@ != "voice_generation_id"@,
        "observation_id"@ != "voice_generation_id"@,
        "reason"@ != "voice_generation_id"@,
        "text"@ != "voice_generation_id"@,
        "utterance_id"@ != "voice_generation_id"@,
        "confidence"@ != "voice_observation_id"@,
        "duration_ms"@ != "voice_observation_id"@,
        "emoji"@ != "voice_observation_id"@,
        "experience_ids"@ != "voice_observation_id"@,
        "interrupted_generation_id"@ != "voice_observation_id"@,
        "observation_id"@ != "voice_observation_id"@,
        "reason"@ != "voice_observation_id"@,
        "text"@ != "voice_observation_id"@,
        "utterance_id"@ != "voice_observation_id"@,
        "voice_generation_id"@ != "voice_observation_id"@,
{
    reveal_strlit("confidence");
    reveal_strlit("duration_ms");
    reveal_strlit("emoji");
    reveal_strlit("experience_ids");
    reveal_strlit("interrupted_generation_id");
    reveal_strlit("observation_id");
    reveal_strlit("reason");
    reveal_strlit("text");
    reveal_strlit("utterance_id");
    reveal_strlit("voice_generation_id");
    reveal_strlit("voice_observation_id");
    assert("confidence"@.len() != "duration_ms"@.len());
    assert("confidence"@.len() != "emoji"@.len());
    assert("duration_ms"@.len() != "emoji"@.len());
    assert("confidence"@.len() != "experience_ids"@.len());
    assert("duration_ms"@.len() != "experience_ids"@.len());
    assert("emoji"@.len() != "experience_ids"@.len());
    assert("confidence"@.len() != "interrupted_generation_id"@.len());
    assert("duration_ms"@.len() != "interrupted_generation_id"@.len());
    assert("emoji"@.len() != "interrupted_generation_id"@.len());
    assert("experience_ids"@.len() != "interrupted_generation_id"@.len());
    assert("confidence"@.len() != "observation_id"@.len());
    assert("duration_ms"@.len() != "observation_id"@.len());
    assert("emoji"@.len() != "observation_id"@.len());
    assert("experience_ids"@[0] != "observation_id"@[0]);
    assert("interrupted_generation_id"@.len() != "observation_id"@.len());
    assert("confidence"@.len() != "reason"@.len());
    assert("duration_ms"@.len() != "reason"@.len());
    assert("emoji"@.len() != "reason"@.len());
    assert("experience_ids"@.len() != "reason"@.len());
    assert("interrupted_generation_id"@.len() != "reason"@.len());
    assert("observation_id"@.len() != "reason"@.len());
    assert("confidence"@.len() != "text"@.len());
    assert("duration_ms"@.len() != "text"@.len());
    assert("emoji"@.len() != "text"@.len());
    assert("experience_ids"@.len() != "text"@.len());
    assert("interrupted_generation_id"@.len() != "text"@.len());
    assert("observation_id"@.len() != "text"@.len());
    assert("reason"@.len() != "text"@.len());
    assert("confidence"@.len() != "utterance_id"@.len());
    assert("duration_ms"@.len() != "utterance_id"@.len());
    assert("emoji"@.len() != "utterance_id"@.len());
    assert("experience_ids"@.len() != "utterance_id"@.len());
    assert("interrupted_generation_id"@.len() != "utterance_id"@.len());
    assert("observation_id"@.len() != "utterance_id"@.len());
    assert("reason"@.len() != "utterance_id"@.len());
    assert("text"@.len() != "utterance_id"@.len());
    assert("confidence"@.len() != "voice_generation_id"@.len());
    assert("duration_ms"@.len() != "voice_generation_id"@.len());
    assert("emoji"@.len() != "voice_generation_id"@.len());
    assert("experience_ids"@.len() != "voice_generation_id"@.len());
    assert("interrupted_generation_id"@.len() != "voice_generation_id"@.len());
    assert("observation_id"@.len() != "voice_generation_id"@.len());
    assert("reason"@.len() != "voice_generation_id"@.len());
    assert("text"@.len() != "voice_generation_id"@.len());
    assert("utterance_id"@.len() != "voice_generation_id"@.len());
    assert("confidence"@.len() != "voice_observation_id"@.len());
    assert("duration_ms"@.len() != "voice_observation_id"@.len());
    assert("emoji"@.len() != "voice_observation_id"@.len());
    assert("experience_ids"@.len() != "voice_observation_id"@.len());
    assert("interrupted_generation_id"@.len() != "voice_observation_id"@.len());
    assert("observation_id"@.len() != "voice_observation_id"@.len());
    assert("reason"@.len() != "voice_observation_id"@.len());
    assert("text"@.len() != "voice_observation_id"@.len());
    assert("utterance_id"@.len() != "voice_observation_id"@.len());
    assert("voice_generation_id"@.len() != "voice_observation_id"@.len());
}

/// What is recorded of a note is a sensation and the impression of it: both have
/// its moment, its kind and its source, the sensation its length and digest, and
/// the impression its words.
pub proof fn law_note_is_recorded_as_it_is(ids: RecordIds, note: NoteView)
    ensures
        ({
            let r = recorded(ids, note);
            &&& r.sensation.id == ids.sensation
            &&& r.impression.id == ids.impression
            &&& r.impression.sensation_id == ids.sensation
            &&& r.sensation.occurred_at == note.at && r.sensation.observed_at == note.at
            &&& r.impression.occurred_at == note.at && r.impression.observed_at == note.at
            &&& r.sensation.kind == note.kind && r.impression.kind == note.kind
            &&& r.sensation.source == note.source && r.impression.source == note.source
            &&& r.sensation.media.mime == note.mime
            &&& r.sensation.data_sha256 == text_digest(note.data)
            &&& r.sensation.data_bytes == text_bytes(note.data)
            &&& r.sensation.detail == note.detail
            &&& r.sensation.provenance.faculty_chain == seq![note.via]
            &&& r.impression.faculty == note.via
            &&& r.impression.text == note.text
            &&& r.impression.confidence == note.confidence
            &&& r.impression.payload == note.payload
        }),
{
    assert(Seq::<Seq<char>>::empty().push(note.via) =~= seq![note.via]);
}

/// Words that were spoken are noted as spoken, at the moment they were thought,
/// with all that is known of them under its name.
pub proof fn law_spoken_words_are_noted(generation_id: Id, o: ObservationView)
    ensures
        ({
            let note = spoken_note(generation_id, o);
            let d = note.detail;
            &&& note.kind == "voice.spoken_utterance"@
            &&& note.at == o.observed_at
            &&& note.data == o.text
            &&& note.text == "I say: "@ + o.text
            &&& note.confidence == o.confidence
            &&& field(d, "text"@) == Some(JsonView::Str(o.text))
            &&& field(d, "confidence"@) == Some(JsonView::Number(o.confidence))
            &&& field(d, "observation_id"@) == Some(JsonView::Str(hyphenated(o.id)))
            &&& field(d, "voice_generation_id"@) == Some(JsonView::Str(hyphenated(generation_id)))
            &&& match o.interrupted_generation_id {
                Some(id) => field(d, "interrupted_generation_id"@) == Some(
                    JsonView::Str(hyphenated(id)),
                ),
                None => field(d, "interrupted_generation_id"@) == Some(JsonView::Null),
            }
            &&& match o.emoji {
                Some(e) => field(d, "emoji"@) == Some(JsonView::Str(e)),
                None => field(d, "emoji"@) == Some(JsonView::Null),
            }
            &&& field(d, "experience_ids"@) matches Some(JsonView::Array(list)) && {
                &&& list.len() == o.experience_ids.len()
                &&& forall|i: int|
                    0 <= i < list.len() ==> (#[trigger] list[i]) == JsonView::Str(
                        hyphenated(o.experience_ids[i]),
                    )
            }
            &&& field(note.payload, "voice_generation_id"@) == Some(
                JsonView::Str(hyphenated(generation_id)),
            )
            &&& field(note.payload, "voice_observation_id"@) == Some(JsonView::Str(hyphenated(o.id)))
        }),
{
    lemma_note_names();
    let fields = observation_detail(generation_id, o)->Object_0;
    lemma_field_at(fields, 0);
    lemma_field_at(fields, 1);
    lemma_field_at(fields, 2);
    lemma_field_at(fields, 3);
    lemma_field_at(fields, 4);
    lemma_field_at(fields, 5);
    lemma_field_at(fields, 6);
    let payload = observation_payload(generation_id, o.id)->Object_0;
    lemma_field_at(payload, 0);
    lemma_field_at(payload, 1);
}

/// Words that are to be spoken are noted as such, and not as spoken.
pub proof fn law_queued_words_are_noted(generation_id: Id, o: ObservationView)
    ensures
        ({
            let note = queued_note(generation_id, o);
            let d = note.detail;
            &&& note.kind == "voice.speech_queued"@
            &&& note.at == o.observed_at
            &&& note.data == o.text
            &&& note.text == "I feel myself about to say: "@ + o.text
            &&& note.confidence == o.confidence
            &&& field(d, "text"@) == Some(JsonView::Str(o.text))
            &&& field(d, "confidence"@) == Some(JsonView::Number(o.confidence))
            &&& field(d, "utterance_id"@) == Some(JsonView::Str(hyphenated(o.id)))
            &&& field(d, "voice_generation_id"@) == Some(JsonView::Str(hyphenated(generation_id)))
            &&& match o.emoji {
                Some(e) => field(d, "emoji"@) == Some(JsonView::Str(e)),
                None => field(d, "emoji"@) == Some(JsonView::Null),
            }
            &&& field(d, "experience_ids"@) matches Some(JsonView::Array(list)) && {
                &&& list.len() == o.experience_ids.len()
                &&& forall|i: int|
                    0 <= i < list.len() ==> (#[trigger] list[i]) == JsonView::Str(
                        hyphenated(o.experience_ids[i]),
                    )
            }
            &&& field(note.payload, "voice_generation_id"@) == Some(
                JsonView::Str(hyphenated(generation_id)),
            )
            &&& field(note.payload, "voice_observation_id"@) == Some(JsonView::Str(hyphenated(o.id)))
        }),
{
    lemma_note_names();
    let fields = queued_detail(generation_id, o)->Object_0;
    lemma_field_at(fields, 0);
    lemma_field_at(fields, 1);
    lemma_field_at(fields, 2);
    lemma_field_at(fields, 3);
    lemma_field_at(fields, 4);
    lemma_field_at(fields, 5);
    let payload = observation_payload(generation_id, o.id)->Object_0;
    lemma_field_at(payload, 0);
    lemma_field_at(payload, 1);
}

/// What was only thought is noted under its kind and its faculty, with how it is
/// put before its words, and with what is known of it as of words that were
/// spoken.
pub proof fn law_thought_is_noted(
    generation_id: Id,
    o: ObservationView,
    kind: Seq<char>,
    faculty: Seq<char>,
    prefix: Seq<char>,
)
    ensures
        ({
            let note = internal_note(generation_id, o, kind, faculty, prefix);
            &&& note.kind == kind
            &&& note.via == faculty
            &&& note.source.sensor_id == lowered(faculty)
            &&& note.source.faculty == lowered(faculty)
            &&& note.at == o.observed_at
            &&& note.data == o.text
            &&& note.text == prefix + ": "@ + o.text
            &&& note.confidence == o.confidence
            &&& note.detail == spoken_note(generation_id, o).detail
            &&& note.payload == spoken_note(generation_id, o).payload
        }),
{
}

/// What became of words that were spoken aloud is noted with the words, how long
/// they took and why they ended, under the identifiers of the words and of the
/// generation.
pub proof fn law_feedback_is_noted(f: FeedbackNoteView)
    ensures
        ({
            let note = feedback_note(f);
            let d = note.detail;
            &&& note.kind == f.kind
            &&& note.at == f.observed_at
            &&& note.text == f.heading + ": "@ + f.text
            &&& note.data == json_text(d)
            &&& field(d, "text"@) == Some(JsonView::Str(f.text))
            &&& field(d, "utterance_id"@) == Some(JsonView::Str(hyphenated(f.utterance_id)))
            &&& field(d, "voice_generation_id"@) == Some(JsonView::Str(hyphenated(f.generation_id)))
            &&& match f.duration_ms {
                Some(n) => field(d, "duration_ms"@) == Some(JsonView::Number(decimal(n as nat))),
                None => field(d, "duration_ms"@) == Some(JsonView::Null),
            }
            &&& match f.reason {
                Some(why) => field(d, "reason"@) == Some(JsonView::Str(why)),
                None => field(d, "reason"@) == Some(JsonView::Null),
            }
            &&& field(note.payload, "utterance_id"@) == Some(
                JsonView::Str(hyphenated(f.utterance_id)),
            )
            &&& field(note.payload, "voice_generation_id"@) == Some(
                JsonView::Str(hyphenated(f.generation_id)),
            )
        }),
{
    lemma_note_names();
    let fields = feedback_detail(f)->Object_0;
    lemma_field_at(fields, 0);
    lemma_field_at(fields, 1);
    lemma_field_at(fields, 2);
    lemma_field_at(fields, 3);
    lemma_field_at(fields, 4);
    let payload = feedback_note(f).payload->Object_0;
    lemma_field_at(payload, 0);
    lemma_field_at(payload, 1);
}

/// A face that was made is noted with its emoji, for the thought that it came with.
pub proof fn law_face_is_noted(generation_id: Id, o: ObservationView, emoji: Seq<char>)
    ensures
        ({
            let note = face_note(generation_id, o, emoji);
            let d = note.detail;
            &&& note.kind == "interface.face_emoji"@
            &&& note.at == o.observed_at
            &&& note.text == "I feel my face turn into a "@ + emoji
            &&& note.data == json_text(d)
            &&& note.confidence == o.confidence
            &&& note.payload == d
            &&& field(d, "emoji"@) == Some(JsonView::Str(emoji))
            &&& field(d, "voice_generation_id"@) == Some(JsonView::Str(hyphenated(generation_id)))
            &&& field(d, "voice_observation_id"@) == Some(JsonView::Str(hyphenated(o.id)))
        }),
{
    lemma_note_names();
    let fields = face_detail(generation_id, o.id, emoji)->Object_0;
    lemma_field_at(fields, 0);
    lemma_field_at(fields, 1);
    lemma_field_at(fields, 2);
}

} // verus!
