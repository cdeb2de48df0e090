//! Faces that a detector found in a frame, put on record.

use std::collections::VecDeque;
use vstd::prelude::*;

use crate::decimal::decimal;
use crate::digest::{byte_len, sha256_text, text_bytes, text_digest};
use crate::face_memory::{
    box_json, box_or_null, landmarks_or_null, landmarks_view, point_of, write_box, write_landmarks,
    BBox, BoxView, FaceMemoryMatch, FaceRecordView, FaceVectorRecord, Landmark, LandmarkView,
    MatchView, PayloadView, FACE_DETECTOR_MODEL, FACE_EMBEDDING_MODEL,
};
use crate::ident::{hyphenated, Id};
use crate::ingestion::{record_sensation, record_views};
use crate::json::{field, json_text, lemma_field_at, named, Fields, Json, JsonView};
use crate::logs::{logged, push_limited, MAX_RECORDED_FACE_CROPS};
use crate::messages::{
    MediaRecord, MediaView, RawFaceCrop, RawFaceCropView, RawVisionFrame, RawVisionFrameView,
    SensationRecord, SensationRecordView, SensationSource, SourceView,
};
use crate::number::{at_most_single, is_at_most_single};
use crate::sensation::{Provenance, ProvenanceView};
use crate::text::{optional, texts};
use crate::time::Timestamp;

verus! {

/// How alike two faces are, at most, that are both put on record.
pub const SIMILAR_FACE_THRESHOLD: &'static str = "0.949999988079071";

/// A face that was found in a frame. Numbers with a point are as they stand in
/// JSON.
#[derive(Debug)]
pub struct DetectedFaceCrop {
    /// The picture, as a data URL.
    pub data: String,
    /// The width in pixels.
    pub width: u32,
    /// The height in pixels.
    pub height: u32,
    /// Its embedding, as the bits of single-precision numbers.
    pub embedding: Vec<u32>,
    /// Its embedding.
    pub vector: Vec<String>,
    /// Where it is in the frame.
    pub bbox: BBox,
    /// Its points.
    pub landmarks: Option<Vec<Landmark>>,
    /// How sure the detector is.
    pub confidence: String,
    /// How old the person seems.
    pub estimated_age_years: u8,
    /// Of which sex the person seems.
    pub estimated_sex: String,
}

/// What a [`DetectedFaceCrop`] is.
pub ghost struct CropView {
    pub data: Seq<char>,
    pub width: u32,
    pub height: u32,
    pub embedding: Seq<u32>,
    pub vector: Seq<Seq<char>>,
    pub bbox: BoxView,
    pub landmarks: Option<Seq<LandmarkView>>,
    pub confidence: Seq<char>,
    pub estimated_age_years: u8,
    pub estimated_sex: Seq<char>,
}

impl View for DetectedFaceCrop {
    type V = CropView;

    open spec fn view(&self) -> CropView {
        CropView {
            data: self.data@,
            width: self.width,
            height: self.height,
            embedding: self.embedding@,
            vector: texts(self.vector@),
            bbox: self.bbox@,
            landmarks: landmarks_view(self.landmarks),
            confidence: self.confidence@,
            estimated_age_years: self.estimated_age_years,
            estimated_sex: self.estimated_sex@,
        }
    }
}

/// Whether a face is so like the last one that it is passed over.
pub open spec fn is_similar(similarity: Option<Seq<char>>) -> bool {
    match similarity {
        Some(s) => is_at_most_single(SIMILAR_FACE_THRESHOLD@, s) && !is_at_most_single(s, SIMILAR_FACE_THRESHOLD@),
        None => false,
    }
}

/// Tells whether a face is so like the last one that it is passed over; one that
/// is not is the last one from then on. How alike they are is none where there
/// is no last one, or the two cannot be compared.
pub fn is_similar_to_last_face(
    last_embedding: &mut Option<Vec<u32>>,
    embedding: &Vec<u32>,
    similarity: &Option<String>,
) -> (r: bool)
    ensures
        r == is_similar(optional(*similarity)),
        r ==> *final(last_embedding) == *old(last_embedding),
        !r ==> (*final(last_embedding) matches Some(last) && last@ == embedding@),
{
    let similar = match similarity {
        Some(s) => at_most_single(SIMILAR_FACE_THRESHOLD, s.as_str()) && !at_most_single(
            s.as_str(),
            SIMILAR_FACE_THRESHOLD,
        ),
        None => false,
    };
    if !similar {
        let copy = embedding.clone();
        assert(copy@ =~= embedding@);
        *last_embedding = Some(copy);
    }
    similar
}

/// What is known of a face.
pub open spec fn crop_detail(frame: RawVisionFrameView, crop: CropView, face_index: usize) -> JsonView {
    JsonView::Object(
        seq![
            named("attribute_model"@, JsonView::Str("buffalo_l/genderage"@)),
            named("bbox"@, box_json(crop.bbox)),
            named("detection_confidence"@, JsonView::Number(crop.confidence)),
            named("embedding_dimensions"@, JsonView::Number(decimal(crop.embedding.len()))),
            named("estimated_age_years"@, JsonView::Number(decimal(crop.estimated_age_years as nat))),
            named("estimated_sex"@, JsonView::Str(crop.estimated_sex)),
            named("face_index"@, JsonView::Number(decimal(face_index as nat))),
            named("landmarks"@, landmarks_or_null(crop.landmarks)),
            named("source_frame_id"@, JsonView::Str(hyphenated(frame.sensation.id))),
        ],
    )
}

/// The sensation of a face in a frame.
pub open spec fn crop_sensation(
    id: Id,
    observed_at: Timestamp,
    frame: RawVisionFrameView,
    crop: CropView,
    face_index: usize,
) -> SensationRecordView {
    SensationRecordView {
        id,
        kind: "vision.face_crop"@,
        occurred_at: frame.sensation.occurred_at,
        observed_at,
        source: SourceView::of(
            frame.sensation.source.client_id,
            frame.sensation.source.sensor_id,
            "face"@,
        ),
        sequence: frame.sensation.sequence,
        media: MediaView {
            mime: "image/jpeg"@,
            width: crop.width,
            height: crop.height,
            encoding: "base64-data-url"@,
        },
        provenance: ProvenanceView::derived(seq![frame.sensation.id]).through("face"@),
        data_sha256: text_digest(crop.data),
        data_bytes: text_bytes(crop.data),
        detail: crop_detail(frame, crop, face_index),
    }
}

/// The sensation of a face in a frame.
pub fn face_crop_sensation(
    id: Id,
    observed_at: Timestamp,
    frame: &RawVisionFrame,
    crop: &DetectedFaceCrop,
    face_index: usize,
) -> (r: SensationRecord)
    ensures
        r@ == crop_sensation(id, observed_at, frame@, crop@, face_index),
{
    let bbox = Some(crop.bbox.clone());
    let fields = Fields::new()
        .with("attribute_model", Json::text("buffalo_l/genderage"))
        .with("bbox", write_box(&bbox))
        .with("detection_confidence", Json::Number(crop.confidence.clone()))
        .with("embedding_dimensions", Json::count(crop.embedding.len() as u64))
        .with("estimated_age_years", Json::count(crop.estimated_age_years as u64))
        .with("estimated_sex", Json::text(crop.estimated_sex.as_str()))
        .with("face_index", Json::count(face_index as u64))
        .with("landmarks", write_landmarks(&crop.landmarks))
        .with("source_frame_id", Json::id(frame.sensation.id));
    assert(fields@ =~= crop_detail(frame@, crop@, face_index)->Object_0);
    SensationRecord {
        id,
        kind: "vision.face_crop".to_owned(),
        occurred_at: frame.sensation.occurred_at,
        observed_at,
        source: SensationSource::of(
            frame.sensation.source.client_id.as_str(),
            frame.sensation.source.sensor_id.as_str(),
            "face",
        ),
        sequence: frame.sensation.sequence,
        media: MediaRecord {
            mime: "image/jpeg".to_owned(),
            width: crop.width,
            height: crop.height,
            encoding: "base64-data-url".to_owned(),
        },
        provenance: Provenance::derived_from_sensation(frame.sensation.id).with_faculty("face"),
        data_sha256: sha256_text(crop.data.as_str()),
        data_bytes: byte_len(crop.data.as_str()),
        detail: fields.object(),
    }
}

/// The faces of a log.
pub open spec fn raw_crop_views(log: Seq<RawFaceCrop>) -> Seq<RawFaceCropView> {
    log.map_values(|c: RawFaceCrop| c@)
}

/// Adds a face to the log of pictures.
pub fn record_raw_face_crop(crops: &mut VecDeque<RawFaceCrop>, crop: RawFaceCrop)
    ensures
        raw_crop_views(final(crops)@) == logged(raw_crop_views(old(crops)@), crop@, 24),
{
    push_limited(crops, crop, MAX_RECORDED_FACE_CROPS);
    assert(raw_crop_views(crops@) =~= logged(raw_crop_views(old(crops)@), crop@, 24));
}

/// What is to be remembered of a face that was put on record.
pub open spec fn to_remember(
    sensation: SensationRecordView,
    frame_id: Id,
    crop: CropView,
    face_index: usize,
) -> FaceRecordView {
    FaceRecordView {
        point_id: point_of(sensation.id, frame_id, face_index as u64, FACE_EMBEDDING_MODEL@),
        vector: crop.vector,
        payload: PayloadView {
            observation_id: hyphenated(sensation.id),
            frame_id: hyphenated(frame_id),
            source_sensation_id: hyphenated(sensation.id),
            impression_id: None,
            observed_at: sensation.observed_at,
            source: sensation.source.client_id + "/"@ + sensation.source.sensor_id + "/"@
                + sensation.source.faculty,
            bbox: Some(crop.bbox),
            landmarks: crop.landmarks,
            detector_model: FACE_DETECTOR_MODEL@,
            embedding_model: FACE_EMBEDDING_MODEL@,
            embedding_dim: crop.vector.len() as usize,
            quality: crop.confidence,
            person_candidate_id: None,
        },
    }
}

/// Puts a face on record, unless it is like the last one, and tells what is to
/// be remembered of it.
pub fn record_face_crop(
    id: Id,
    observed_at: Timestamp,
    frame: &RawVisionFrame,
    crop: DetectedFaceCrop,
    face_index: usize,
    similarity: &Option<String>,
    last_embedding: &mut Option<Vec<u32>>,
    sensations: &mut VecDeque<SensationRecord>,
    raw_face_crops: &mut VecDeque<RawFaceCrop>,
) -> (r: Option<FaceVectorRecord>)
    ensures
        if is_similar(optional(*similarity)) {
            &&& r is None
            &&& *final(last_embedding) == *old(last_embedding)
            &&& *final(sensations) == *old(sensations)
            &&& *final(raw_face_crops) == *old(raw_face_crops)
        } else {
            let sensation = crop_sensation(id, observed_at, frame@, crop@, face_index);
            &&& r matches Some(record) && record@ == to_remember(
                sensation,
                frame@.sensation.id,
                crop@,
                face_index,
            )
            &&& *final(last_embedding) matches Some(last) && last@ == crop@.embedding
            &&& record_views(final(sensations)@) == logged(
                record_views(old(sensations)@),
                sensation,
                200,
            )
            &&& raw_crop_views(final(raw_face_crops)@) == logged(
                raw_crop_views(old(raw_face_crops)@),
                (RawFaceCropView {
                    sensation,
                    source_frame_id: frame@.sensation.id,
                    face_index,
                    data: crop@.data,
                    embedding: crop@.embedding,
                }),
                24,
            )
        },
{
    if is_similar_to_last_face(last_embedding, &crop.embedding, similarity) {
        return None;
    }
    let sensation = face_crop_sensation(id, observed_at, frame, &crop, face_index);
    let mut source = sensation.source.client_id.clone();
    source.push_str("/");
    source.push_str(sensation.source.sensor_id.as_str());
    source.push_str("/");
    source.push_str(sensation.source.faculty.as_str());
    record_sensation(sensations, sensation.clone());
    let record = FaceVectorRecord::new(
        sensation.id,
        frame.sensation.id,
        sensation.id,
        face_index as u64,
        crop.vector,
        sensation.observed_at,
        source,
        Some(crop.bbox),
        crop.landmarks,
        crop.confidence,
    );
    record_raw_face_crop(
        raw_face_crops,
        RawFaceCrop {
            sensation,
            source_frame_id: frame.sensation.id,
            face_index,
            data: crop.data,
            embedding: crop.embedding,
        },
    );
    Some(record)
}

/// What is known of a face that was seen before.
pub open spec fn match_detail(m: MatchView) -> JsonView {
    JsonView::Object(
        seq![
            named("bbox"@, box_or_null(m.bbox)),
            named("face_observation_id"@, JsonView::Str(m.face_observation_id)),
            named("original_observed_at"@, JsonView::Str(m.observed_at.spec_zulu())),
            named(
                "person_candidate_id"@,
                match m.person_candidate_id {
                    Some(id) => JsonView::Str(id),
                    None => JsonView::Null,
                },
            ),
            named("qdrant_point_id"@, JsonView::Str(m.qdrant_point_id)),
            named("score"@, JsonView::Number(m.score)),
            named("source"@, JsonView::Str(m.source)),
        ],
    )
}

/// The sensation of a face that was seen before.
pub open spec fn match_sensation(id: Id, now: Timestamp, face_sensation_id: Id, m: MatchView) -> SensationRecordView {
    SensationRecordView {
        id,
        kind: "memory.face_match"@,
        occurred_at: now,
        observed_at: now,
        source: SourceView::of("memory"@, "face.memory"@, "face.memory"@),
        sequence: 0,
        media: MediaView::flat("application/json"@, "json"@),
        provenance: ProvenanceView::derived(seq![face_sensation_id]).through("face.memory"@),
        data_sha256: text_digest(json_text(match_detail(m))),
        data_bytes: text_bytes(json_text(match_detail(m))),
        detail: match_detail(m),
    }
}

/// The sensation of a face that was seen before.
pub fn build_face_match_sensation(
    id: Id,
    now: Timestamp,
    face_sensation_id: Id,
    memory_match: &FaceMemoryMatch,
) -> (r: SensationRecord)
    ensures
        r@ == match_sensation(id, now, face_sensation_id, memory_match@),
{
    let fields = Fields::new()
        .with("bbox", write_box(&memory_match.bbox))
        .with("face_observation_id", Json::text(memory_match.face_observation_id.as_str()))
        .with("original_observed_at", Json::text(memory_match.observed_at.to_zulu().as_str()))
        .with("person_candidate_id", Json::optional_text(&memory_match.person_candidate_id))
        .with("qdrant_point_id", Json::text(memory_match.qdrant_point_id.as_str()))
        .with("score", Json::Number(memory_match.score.clone()))
        .with("source", Json::text(memory_match.source.as_str()));
    assert(fields@ =~= match_detail(memory_match@)->Object_0);
    let detail = fields.object();
    let text = detail.to_text();
    SensationRecord {
        id,
        kind: "memory.face_match".to_owned(),
        occurred_at: now,
        observed_at: now,
        source: SensationSource::of("memory", "face.memory", "face.memory"),
        sequence: 0,
        media: MediaRecord::flat("application/json", "json"),
        provenance: Provenance::derived_from_sensation(face_sensation_id).with_faculty("face.memory"),
        data_sha256: sha256_text(text.as_str()),
        data_bytes: byte_len(text.as_str()),
        detail,
    }
}

/// A face on record comes from its frame and happened when the frame did.
pub proof fn law_face_comes_from_its_frame(
    id: Id,
    observed_at: Timestamp,
    frame: RawVisionFrameView,
    crop: CropView,
    face_index: usize,
)
    ensures
        crop_sensation(id, observed_at, frame, crop, face_index).provenance.names_sensation(
            frame.sensation.id,
        ),
        crop_sensation(id, observed_at, frame, crop, face_index).occurred_at
            == frame.sensation.occurred_at,
{
    assert(seq![frame.sensation.id][0] == frame.sensation.id);
}

/// The names are all different.
proof fn lemma_crop_names()
    ensures
        "attribute_model"@ != "bbox"@,
        "attribute_model"@ != "detection_confidence"@,
        "bbox"@ != "detection_confidence"@,
        "attribute_model"@ != "embedding_dimensions"@,
        "bbox"@ != "embedding_dimensions"@,
        "detection_confidence"@ != "embedding_dimensions"@,
        "attribute_model"@ != "estimated_age_years"@,
        "bbox"@ != "estimated_age_years"@,
        "detection_confidence"@ != "estimated_age_years"@,
        "embedding_dimensions"@ != "estimated_age_years"@,
        "attribute_model"@ != "estimated_sex"@,
        "bbox"@ != "estimated_sex"@,
        "detection_confidence"@ != "estimated_sex"@,
        "embedding_dimensions"@ != "estimated_sex"@,
        "estimated_age_years"@ != "estimated_sex"@,
        "attribute_model"@ != "face_index"@,
        "bbox"@ != "face_index"@,
        "detection_confidence"@ != "face_index"@,
        "embedding_dimensions"@ != "face_index"@,
        "estimated_age_years"@ != "face_index"@,
        "estimated_sex"@ != "face_index"@,
        "attribute_model"@ != "landmarks"@,
        "bbox"@ != "landmarks"@,
        "detection_confidence"@ != "landmarks"@,
        "embedding_dimensions"@ != "landmarks"@,
        "estimated_age_years"@ != "landmarks"@,
        "estimated_sex"@ != "landmarks"@,
        "face_index"@ != "landmarks"@,
        "attribute_model"@ != "source_frame_id"@,
        "bbox"@ != "source_frame_id"@,
        "detection_confidence"@ != "source_frame_id"@,
        "embedding_dimensions"@ != "source_frame_id"@,
        "estimated_age_years"@ != "source_frame_id"@,
        "estimated_sex"@ != "source_frame_id"@,
        "face_index"@ != "source_frame_id"@,
        "landmarks"@ != "source_frame_id"@,
{
    reveal_strlit("attribute_model");
    reveal_strlit("bbox");
    reveal_strlit("detection_confidence");
    reveal_strlit("embedding_dimensions");
    reveal_strlit("estimated_age_years");
    reveal_strlit("estimated_sex");
    reveal_strlit("face_index");
    reveal_strlit("landmarks");
    reveal_strlit("source_frame_id");
    assert("attribute_model"@.len() != "bbox"@.len());
    assert("attribute_model"@.len() != "detection_confidence"@.len());
    assert("bbox"@.len() != "detection_confidence"@.len());
    assert("attribute_model"@.len() != "embedding_dimensions"@.len());
    assert("bbox"@.len() != "embedding_dimensions"@.len());
    assert("detection_confidence"@[0] != "embedding_dimensions"@[0]);
    assert("attribute_model"@.len() != "estimated_age_years"@.len());
    assert("bbox"@.len() != "estimated_age_years"@.len());
    assert("detection_confidence"@.len() != "estimated_age_years"@.len());
    assert("embedding_dimensions"@.len() != "estimated_age_years"@.len());
    assert("attribute_model"@.len() != "estimated_sex"@.len());
    assert("bbox"@.len() != "estimated_sex"@.len());
    assert("detection_confidence"@.len() != "estimated_sex"@.len());
    assert("embedding_dimensions"@.len() != "estimated_sex"@.len());
    assert("estimated_age_years"@.len() != "estimated_sex"@.len());
    assert("attribute_model"@.len() != "face_index"@.len());
    assert("bbox"@.len() != "face_index"@.len());
    assert("detection_confidence"@.len() != "face_index"@.len());
    assert("embedding_dimensions"@.len() != "face_index"@.len());
    assert("estimated_age_years"@.len() != "face_index"@.len());
    assert("estimated_sex"@.len() != "face_index"@.len());
    assert("attribute_model"@.len() != "landmarks"@.len());
    assert("bbox"@.len() != "landmarks"@.len());
    assert("detection_confidence"@.len() != "landmarks"@.len());
    assert("embedding_dimensions"@.len() != "landmarks"@.len());
    assert("estimated_age_years"@.len() != "landmarks"@.len());
    assert("estimated_sex"@.len() != "landmarks"@.len());
    assert("face_index"@.len() != "landmarks"@.len());
    assert("attribute_model"@[0] != "source_frame_id"@[0]);
    assert("bbox"@.len() != "source_frame_id"@.len());
    assert("detection_confidence"@.len() != "source_frame_id"@.len());
    assert("embedding_dimensions"@.len() != "source_frame_id"@.len());
    assert("estimated_age_years"@.len() != "source_frame_id"@.len());
    assert("estimated_sex"@.len() != "source_frame_id"@.len());
    assert("face_index"@.len() != "source_frame_id"@.len());
    assert("landmarks"@.len() != "source_frame_id"@.len());
}

/// The names are all different.
proof fn lemma_match_names()
    ensures
        "bbox"@ != "face_observation_id"@,
        "bbox"@ != "original_observed_at"@,
        "face_observation_id"@ != "original_observed_at"@,
        "bbox"@ != "person_candidate_id"@,
        "face_observation_id"@ != "person_candidate_id"@,
        "original_observed_at"@ != "person_candidate_id"@,
        "bbox"@ != "qdrant_point_id"@,
        "face_observation_id"@ != "qdrant_point_id"@,
        "original_observed_at"@ != "qdrant_point_id"@,
        "person_candidate_id"@ != "qdrant_point_id"@,
        "bbox"@ != "score"@,
        "face_observation_id"@ != "score"@,
        "original_observed_at"@ != "score"@,
        "person_candidate_id"@ != "score"@,
        "qdrant_point_id"@ != "score"@,
        "bbox"@ != "source"@,
        "face_observation_id"@ != "source"@,
        "original_observed_at"@ != "source"@,
        "person_candidate_id"@ != "source"@,
        "qdrant_point_id"@ != "source"@,
        "score"@ != "source"@,
{
    reveal_strlit("bbox");
    reveal_strlit("face_observation_id");
    reveal_strlit("original_observed_at");
    reveal_strlit("person_candidate_id");
    reveal_strlit("qdrant_point_id");
    reveal_strlit("score");
    reveal_strlit("source");
    assert("bbox"@.len() != "face_observation_id"@.len());
    assert("bbox"@.len() != "original_observed_at"@.len());
    assert("face_observation_id"@.len() != "original_observed_at"@.len());
    assert("bbox"@.len() != "person_candidate_id"@.len());
    assert("face_observation_id"@[0] != "person_candidate_id"@[0]);
    assert("original_observed_at"@.len() != "person_candidate_id"@.len());
    assert("bbox"@.len() != "qdrant_point_id"@.len());
    assert("face_observation_id"@.len() != "qdrant_point_id"@.len());
    assert("original_observed_at"@.len() != "qdrant_point_id"@.len());
    assert("person_candidate_id"@.len() != "qdrant_point_id"@.len());
    assert("bbox"@.len() != "score"@.len());
    assert("face_observation_id"@.len() != "score"@.len());
    assert("original_observed_at"@.len() != "score"@.len());
    assert("person_candidate_id"@.len() != "score"@.len());
    assert("qdrant_point_id"@.len() != "score"@.len());
    assert("bbox"@.len() != "source"@.len());
    assert("face_observation_id"@.len() != "source"@.len());
    assert("original_observed_at"@.len() != "source"@.len());
    assert("person_candidate_id"@.len() != "source"@.len());
    assert("qdrant_point_id"@.len() != "source"@.len());
    assert("score"@.len() != "source"@.len());
}

/// A face is passed over just where it is more like the last one than the
/// threshold says; where nothing is known of the likeness, it is not.
pub proof fn law_only_a_like_face_is_passed_over(similarity: Seq<char>)
    ensures
        !is_similar(None),
        is_similar(Some(similarity)) <==> is_at_most_single("0.949999988079071"@, similarity)
            && !is_at_most_single(similarity, "0.949999988079071"@),
{
}

/// The record of a face tells each thing that was found of it under its name, and
/// is sent by whoever sent the frame.
pub proof fn law_face_is_recorded_as_found(
    id: Id,
    observed_at: Timestamp,
    frame: RawVisionFrameView,
    crop: CropView,
    face_index: usize,
)
    ensures
        ({
            let r = crop_sensation(id, observed_at, frame, crop, face_index);
            &&& r.id == id
            &&& r.kind == "vision.face_crop"@
            &&& r.observed_at == observed_at
            &&& r.source.client_id == frame.sensation.source.client_id
            &&& r.source.sensor_id == frame.sensation.source.sensor_id
            &&& r.source.faculty == "face"@
            &&& r.sequence == frame.sensation.sequence
            &&& r.media.width == crop.width
            &&& r.media.height == crop.height
            &&& r.data_sha256 == text_digest(crop.data)
            &&& r.data_bytes == text_bytes(crop.data)
            &&& field(r.detail, "bbox"@) == Some(box_json(crop.bbox))
            &&& field(r.detail, "detection_confidence"@) == Some(JsonView::Number(crop.confidence))
            &&& field(r.detail, "embedding_dimensions"@) == Some(
                JsonView::Number(decimal(crop.embedding.len())),
            )
            &&& field(r.detail, "estimated_age_years"@) == Some(
                JsonView::Number(decimal(crop.estimated_age_years as nat)),
            )
            &&& field(r.detail, "estimated_sex"@) == Some(JsonView::Str(crop.estimated_sex))
            &&& field(r.detail, "face_index"@) == Some(
                JsonView::Number(decimal(face_index as nat)),
            )
            &&& field(r.detail, "landmarks"@) == Some(landmarks_or_null(crop.landmarks))
            &&& field(r.detail, "source_frame_id"@) == Some(
                JsonView::Str(hyphenated(frame.sensation.id)),
            )
        }),
{
    lemma_crop_names();
    let fields = crop_detail(frame, crop, face_index)->Object_0;
    lemma_field_at(fields, 0);
    lemma_field_at(fields, 1);
    lemma_field_at(fields, 2);
    lemma_field_at(fields, 3);
    lemma_field_at(fields, 4);
    lemma_field_at(fields, 5);
    lemma_field_at(fields, 6);
    lemma_field_at(fields, 7);
    lemma_field_at(fields, 8);
}

/// What is remembered of a face has its vector, the identifiers of its record and
/// of the frame, the moment and the sender of the record, and no person yet.
pub proof fn law_face_is_remembered_as_recorded(
    sensation: SensationRecordView,
    frame_id: Id,
    crop: CropView,
    face_index: usize,
)
    ensures
        ({
            let r = to_remember(sensation, frame_id, crop, face_index);
            &&& r.vector == crop.vector
            &&& r.payload.observation_id == hyphenated(sensation.id)
            &&& r.payload.source_sensation_id == hyphenated(sensation.id)
            &&& r.payload.frame_id == hyphenated(frame_id)
            &&& r.payload.observed_at == sensation.observed_at
            &&& r.payload.source == sensation.source.client_id + "/"@ + sensation.source.sensor_id
                + "/"@ + sensation.source.faculty
            &&& r.payload.bbox == Some(crop.bbox)
            &&& r.payload.landmarks == crop.landmarks
            &&& r.payload.quality == crop.confidence
            &&& crop.vector.len() <= usize::MAX ==> r.payload.embedding_dim == crop.vector.len()
            &&& r.payload.impression_id is None
            &&& r.payload.person_candidate_id is None
        }),
{
}

/// The record of a face that was seen before tells each thing that is remembered
/// of it under its name, and comes from the face that was recognised.
pub proof fn law_recognised_face_is_told(
    id: Id,
    now: Timestamp,
    face_sensation_id: Id,
    m: MatchView,
)
    ensures
        ({
            let r = match_sensation(id, now, face_sensation_id, m);
            &&& r.id == id
            &&& r.kind == "memory.face_match"@
            &&& r.occurred_at == now
            &&& r.observed_at == now
            &&& r.provenance.names_sensation(face_sensation_id)
            &&& r.data_sha256 == text_digest(json_text(r.detail))
            &&& r.data_bytes == text_bytes(json_text(r.detail))
            &&& field(r.detail, "face_observation_id"@) == Some(
                JsonView::Str(m.face_observation_id),
            )
            &&& field(r.detail, "original_observed_at"@) == Some(
                JsonView::Str(m.observed_at.spec_zulu()),
            )
            &&& field(r.detail, "qdrant_point_id"@) == Some(JsonView::Str(m.qdrant_point_id))
            &&& field(r.detail, "score"@) == Some(JsonView::Number(m.score))
            &&& field(r.detail, "source"@) == Some(JsonView::Str(m.source))
            &&& match m.person_candidate_id {
                Some(person) => field(r.detail, "person_candidate_id"@) == Some(
                    JsonView::Str(person),
                ),
                None => field(r.detail, "person_candidate_id"@) == Some(JsonView::Null),
            }
            &&& match m.bbox {
                Some(b) => field(r.detail, "bbox"@) == Some(box_json(b)),
                None => field(r.detail, "bbox"@) == Some(JsonView::Null),
            }
        }),
{
    lemma_match_names();
    let fields = match_detail(m)->Object_0;
    lemma_field_at(fields, 0);
    lemma_field_at(fields, 1);
    lemma_field_at(fields, 2);
    lemma_field_at(fields, 3);
    lemma_field_at(fields, 4);
    lemma_field_at(fields, 5);
    lemma_field_at(fields, 6);
    assert(seq![face_sensation_id][0] == face_sensation_id);
}

} // verus!
