//! Faces that were seen before: how they are stored, found again and linked to
//! the people that they may belong to.
//!
//! Numbers with a point are as they stand in JSON.

use vstd::prelude::*;
use vstd::utf8::encode_utf8;

use crate::chars::CharClass;
use crate::decimal::{decimal, lemma_decimal_reads_back};
use crate::ident::{hyphenated, id_text, Id};
use crate::ingestion::number_field;
use crate::json::{
    field, field_in, json_items, json_text, lemma_field_at, named, text_field, unsigned_field,
    FieldView, Fields, Json, JsonView,
};
use crate::number::{at_most_single, is_at_most_single};
use crate::stable_id::{
    draw_id, drawn_id, id_bytes, little_endian_bytes, push_bytes, push_id, push_little_endian,
};
use crate::text::{
    blank, copy_optional, copy_texts, debug_quoted, debug_text, ends, ends_with, is_blank,
    lemma_trimmed_noop, lowered, optional, same, skip, starts, starts_with, take, texts, to_lower, trim, trim_end_of,
    trim_start_of, trimmed, trimmed_end_of, trimmed_start_of,
};
use crate::time::{
    in_range, parse_rfc3339, parsed_rfc3339, read_back, Timestamp, FIRST_WRITTEN_SECOND, LAST_WRITTEN_SECOND,
    NANOS_PER_SECOND,
};
use crate::scene_context::{last_place, lemma_last_place};

verus! {

/// Where the store of vectors is by default.
pub const DEFAULT_QDRANT_URL: &'static str = "http://localhost:6333";

/// Where faces are kept in it by default.
pub const DEFAULT_QDRANT_COLLECTION_FACES: &'static str = "faces";

/// Where the graph is by default.
pub const DEFAULT_NEO4J_URI: &'static str = "bolt://localhost:7687";

/// Whose it is by default.
pub const DEFAULT_NEO4J_USER: &'static str = "neo4j";

/// How alike two faces have to be by default.
pub const DEFAULT_FACE_MATCH_THRESHOLD: &'static str = "0.8600000143051147";

/// What makes a vector of a face.
pub const FACE_EMBEDDING_MODEL: &'static str = "face_id/0.4.1";

/// What finds a face.
pub const FACE_DETECTOR_MODEL: &'static str = "face_id/scrfd";

/// Where faces are remembered.
#[derive(Debug, Clone, Copy, PartialEq, Eq, Structural)]
pub enum MemoryBackend {
    /// Nowhere.
    Disabled,
    /// In the process.
    Mock,
    /// In a store of vectors and a graph.
    QdrantNeo4j,
}

/// Where a setting says that faces are remembered.
pub open spec fn backend_named(value: Seq<char>) -> Option<MemoryBackend> {
    let name = lowered(trimmed(value));
    if name.len() == 0 || name == "disabled"@ || name == "off"@ || name == "false"@ {
        Some(MemoryBackend::Disabled)
    } else if name == "mock"@ {
        Some(MemoryBackend::Mock)
    } else if name == "qdrant-neo4j"@ || name == "qdrant_neo4j"@ || name == "persistent"@ {
        Some(MemoryBackend::QdrantNeo4j)
    } else {
        None
    }
}

/// How a setting that names nothing is refused.
pub open spec fn backend_fault(value: Seq<char>) -> Seq<char> {
    "MEMORY_BACKEND must be disabled, mock, or qdrant-neo4j; got "@ + debug_quoted(
        lowered(trimmed(value)),
    )
}

impl MemoryBackend {
    /// Reads where faces are remembered.
    pub fn from_env_value(value: &str) -> (r: Result<MemoryBackend, String>)
        ensures
            match backend_named(value@) {
                Some(backend) => r == Ok::<MemoryBackend, String>(backend),
                None => r matches Err(e) && e@ == backend_fault(value@),
            },
    {
        let name = to_lower(trim(value));
        let s = name.as_str();
        if s.unicode_len() == 0 || same(s, "disabled") || same(s, "off") || same(s, "false") {
            return Ok(MemoryBackend::Disabled);
        }
        if same(s, "mock") {
            return Ok(MemoryBackend::Mock);
        }
        if same(s, "qdrant-neo4j") || same(s, "qdrant_neo4j") || same(s, "persistent") {
            return Ok(MemoryBackend::QdrantNeo4j);
        }
        let mut e = "MEMORY_BACKEND must be disabled, mock, or qdrant-neo4j; got ".to_owned();
        e.push_str(debug_text(s).as_str());
        Err(e)
    }
}

/// What is set about memory, as far as it is.
#[derive(Debug, PartialEq, Eq)]
pub struct MemorySettings {
    /// Where faces are remembered.
    pub backend: Option<String>,
    /// Where the store of vectors is.
    pub qdrant_url: Option<String>,
    /// Where faces are kept in it.
    pub qdrant_collection_faces: Option<String>,
    /// Where the graph is.
    pub neo4j_uri: Option<String>,
    /// Whose it is.
    pub neo4j_user: Option<String>,
    /// The password.
    pub neo4j_password: Option<String>,
    /// The password, by another name.
    pub neo4j_pass: Option<String>,
    /// How alike two faces have to be, if that is a number.
    pub face_match_threshold: Option<String>,
}

/// What a [`MemorySettings`] is.
pub ghost struct SettingsView {
    pub backend: Option<Seq<char>>,
    pub qdrant_url: Option<Seq<char>>,
    pub qdrant_collection_faces: Option<Seq<char>>,
    pub neo4j_uri: Option<Seq<char>>,
    pub neo4j_user: Option<Seq<char>>,
    pub neo4j_password: Option<Seq<char>>,
    pub neo4j_pass: Option<Seq<char>>,
    pub face_match_threshold: Option<Seq<char>>,
}

impl View for MemorySettings {
    type V = SettingsView;

    open spec fn view(&self) -> SettingsView {
        SettingsView {
            backend: optional(self.backend),
            qdrant_url: optional(self.qdrant_url),
            qdrant_collection_faces: optional(self.qdrant_collection_faces),
            neo4j_uri: optional(self.neo4j_uri),
            neo4j_user: optional(self.neo4j_user),
            neo4j_password: optional(self.neo4j_password),
            neo4j_pass: optional(self.neo4j_pass),
            face_match_threshold: optional(self.face_match_threshold),
        }
    }
}

impl Clone for MemorySettings {
    fn clone(&self) -> (r: MemorySettings)
        ensures
            r@ == self@,
    {
        MemorySettings {
            backend: copy_optional(&self.backend),
            qdrant_url: copy_optional(&self.qdrant_url),
            qdrant_collection_faces: copy_optional(&self.qdrant_collection_faces),
            neo4j_uri: copy_optional(&self.neo4j_uri),
            neo4j_user: copy_optional(&self.neo4j_user),
            neo4j_password: copy_optional(&self.neo4j_password),
            neo4j_pass: copy_optional(&self.neo4j_pass),
            face_match_threshold: copy_optional(&self.face_match_threshold),
        }
    }
}

/// How faces are remembered.
#[derive(Debug, PartialEq, Eq)]
pub struct FaceMemoryConfig {
    /// Where.
    pub backend: MemoryBackend,
    /// Where the store of vectors is.
    pub qdrant_url: String,
    /// Where faces are kept in it.
    pub qdrant_collection_faces: String,
    /// Where the graph is.
    pub neo4j_uri: String,
    /// Whose it is.
    pub neo4j_user: String,
    /// The password.
    pub neo4j_password: Option<String>,
    /// How alike two faces have to be.
    pub face_match_threshold: String,
}

/// What a [`FaceMemoryConfig`] is.
pub ghost struct ConfigView {
    pub backend: MemoryBackend,
    pub qdrant_url: Seq<char>,
    pub qdrant_collection_faces: Seq<char>,
    pub neo4j_uri: Seq<char>,
    pub neo4j_user: Seq<char>,
    pub neo4j_password: Option<Seq<char>>,
    pub face_match_threshold: Seq<char>,
}

impl View for FaceMemoryConfig {
    type V = ConfigView;

    open spec fn view(&self) -> ConfigView {
        ConfigView {
            backend: self.backend,
            qdrant_url: self.qdrant_url@,
            qdrant_collection_faces: self.qdrant_collection_faces@,
            neo4j_uri: self.neo4j_uri@,
            neo4j_user: self.neo4j_user@,
            neo4j_password: optional(self.neo4j_password),
            face_match_threshold: self.face_match_threshold@,
        }
    }
}

/// A setting, or what stands for it.
pub open spec fn set_or(value: Option<Seq<char>>, default: Seq<char>) -> Seq<char> {
    match value {
        Some(text) => text,
        None => default,
    }
}

fn setting(value: &Option<String>, default: &str) -> (s: String)
    ensures
        s@ == set_or(optional(*value), default@),
{
    match value {
        Some(text) => text.clone(),
        None => default.to_owned(),
    }
}

/// The password: under its first name if it is set there, and none if it is
/// blank.
pub open spec fn password_in(s: SettingsView) -> Option<Seq<char>> {
    let given = match s.neo4j_password {
        Some(_) => s.neo4j_password,
        None => s.neo4j_pass,
    };
    match given {
        Some(text) => if is_blank(text) {
            None
        } else {
            Some(text)
        },
        None => None,
    }
}

/// What is wrong with the settings.
pub open spec fn settings_fault(s: SettingsView) -> Option<Seq<char>> {
    let value = set_or(s.backend, "disabled"@);
    match backend_named(value) {
        None => Some(backend_fault(value)),
        Some(backend) => if backend is QdrantNeo4j && password_in(s) is None {
            Some("NEO4J_PASSWORD is required when MEMORY_BACKEND=qdrant-neo4j"@)
        } else {
            None
        },
    }
}

/// What the settings say.
pub open spec fn config_in(s: SettingsView) -> ConfigView {
    ConfigView {
        backend: backend_named(set_or(s.backend, "disabled"@))->0,
        qdrant_url: set_or(s.qdrant_url, DEFAULT_QDRANT_URL@),
        qdrant_collection_faces: set_or(
            s.qdrant_collection_faces,
            DEFAULT_QDRANT_COLLECTION_FACES@,
        ),
        neo4j_uri: set_or(s.neo4j_uri, DEFAULT_NEO4J_URI@),
        neo4j_user: set_or(s.neo4j_user, DEFAULT_NEO4J_USER@),
        neo4j_password: password_in(s),
        face_match_threshold: set_or(s.face_match_threshold, DEFAULT_FACE_MATCH_THRESHOLD@),
    }
}

impl FaceMemoryConfig {
    /// Reads how faces are remembered.
    pub fn from_settings(settings: &MemorySettings) -> (r: Result<FaceMemoryConfig, String>)
        ensures
            match settings_fault(settings@) {
                Some(fault) => r matches Err(e) && e@ == fault,
                None => r matches Ok(config) && config@ == config_in(settings@),
            },
    {
        let value = setting(&settings.backend, "disabled");
        let backend = match MemoryBackend::from_env_value(value.as_str()) {
            Ok(backend) => backend,
            Err(e) => {
                return Err(e);
            },
        };
        let given = match &settings.neo4j_password {
            Some(_) => copy_optional(&settings.neo4j_password),
            None => copy_optional(&settings.neo4j_pass),
        };
        let neo4j_password = match given {
            Some(text) => if blank(text.as_str()) {
                None
            } else {
                Some(text)
            },
            None => None,
        };
        if backend == MemoryBackend::QdrantNeo4j && neo4j_password.is_none() {
            return Err(
                "NEO4J_PASSWORD is required when MEMORY_BACKEND=qdrant-neo4j".to_owned(),
            );
        }
        Ok(
            FaceMemoryConfig {
                backend,
                qdrant_url: setting(&settings.qdrant_url, DEFAULT_QDRANT_URL),
                qdrant_collection_faces: setting(
                    &settings.qdrant_collection_faces,
                    DEFAULT_QDRANT_COLLECTION_FACES,
                ),
                neo4j_uri: setting(&settings.neo4j_uri, DEFAULT_NEO4J_URI),
                neo4j_user: setting(&settings.neo4j_user, DEFAULT_NEO4J_USER),
                neo4j_password,
                face_match_threshold: setting(
                    &settings.face_match_threshold,
                    DEFAULT_FACE_MATCH_THRESHOLD,
                ),
            },
        )
    }
}

/// Where a face is in a picture.
#[derive(Debug, PartialEq, Eq)]
pub struct BBox {
    /// The left edge.
    pub x1: String,
    /// The upper edge.
    pub y1: String,
    /// The right edge.
    pub x2: String,
    /// The lower edge.
    pub y2: String,
}

/// What a [`BBox`] is.
pub ghost struct BoxView {
    pub x1: Seq<char>,
    pub y1: Seq<char>,
    pub x2: Seq<char>,
    pub y2: Seq<char>,
}

impl View for BBox {
    type V = BoxView;

    open spec fn view(&self) -> BoxView {
        BoxView {
            x1: self.x1@,
            y1: self.y1@,
            x2: self.x2@,
            y2: self.y2@,
        }
    }
}

impl Clone for BBox {
    fn clone(&self) -> (r: BBox)
        ensures
            r@ == self@,
    {
        BBox {
            x1: self.x1.clone(),
            y1: self.y1.clone(),
            x2: self.x2.clone(),
            y2: self.y2.clone(),
        }
    }
}

/// A point of a face.
#[derive(Debug, PartialEq, Eq)]
pub struct Landmark {
    /// How far right.
    pub x: String,
    /// How far down.
    pub y: String,
}

/// What a [`Landmark`] is.
pub ghost struct LandmarkView {
    pub x: Seq<char>,
    pub y: Seq<char>,
}

impl View for Landmark {
    type V = LandmarkView;

    open spec fn view(&self) -> LandmarkView {
        LandmarkView {
            x: self.x@,
            y: self.y@,
        }
    }
}

impl Clone for Landmark {
    fn clone(&self) -> (r: Landmark)
        ensures
            r@ == self@,
    {
        Landmark {
            x: self.x.clone(),
            y: self.y.clone(),
        }
    }
}

/// What an optional box is.
pub open spec fn box_view(bbox: Option<BBox>) -> Option<BoxView> {
    match bbox {
        Some(b) => Some(b@),
        None => None,
    }
}

/// The points of a list.
pub open spec fn landmark_views(list: Seq<Landmark>) -> Seq<LandmarkView> {
    list.map_values(|p: Landmark| p@)
}

/// What an optional list of points is.
pub open spec fn landmarks_view(list: Option<Vec<Landmark>>) -> Option<Seq<LandmarkView>> {
    match list {
        Some(points) => Some(landmark_views(points@)),
        None => None,
    }
}

fn copy_box(bbox: &Option<BBox>) -> (r: Option<BBox>)
    ensures
        box_view(r) == box_view(*bbox),
{
    match bbox {
        Some(b) => Some(b.clone()),
        None => None,
    }
}

fn copy_landmarks(list: &Option<Vec<Landmark>>) -> (r: Option<Vec<Landmark>>)
    ensures
        landmarks_view(r) == landmarks_view(*list),
{
    match list {
        None => None,
        Some(points) => {
            let mut copies: Vec<Landmark> = Vec::new();
            let mut i: usize = 0;
            while i < points.len()
                invariant
                    i <= points@.len(),
                    copies@.len() == i,
                    forall|k: int| 0 <= k < i ==> (#[trigger] copies@[k])@ == points@[k]@,
                decreases points@.len() - i,
            {
                copies.push(points[i].clone());
                i += 1;
            }
            assert(landmark_views(copies@) =~= landmark_views(points@));
            Some(copies)
        },
    }
}

/// What is stored with the vector of a face.
#[derive(Debug, PartialEq, Eq)]
pub struct FaceVectorPayload {
    /// The observation.
    pub observation_id: String,
    /// The frame.
    pub frame_id: String,
    /// The sensation.
    pub source_sensation_id: String,
    /// The impression.
    pub impression_id: Option<String>,
    /// When it was observed.
    pub observed_at: Timestamp,
    /// Where.
    pub source: String,
    /// Where in the picture.
    pub bbox: Option<BBox>,
    /// The points of the face.
    pub landmarks: Option<Vec<Landmark>>,
    /// What found the face.
    pub detector_model: String,
    /// What made its vector.
    pub embedding_model: String,
    /// How long the vector is.
    pub embedding_dim: usize,
    /// How good the picture is.
    pub quality: String,
    /// Whom it may show.
    pub person_candidate_id: Option<String>,
}

/// What a [`FaceVectorPayload`] is.
pub ghost struct PayloadView {
    pub observation_id: Seq<char>,
    pub frame_id: Seq<char>,
    pub source_sensation_id: Seq<char>,
    pub impression_id: Option<Seq<char>>,
    pub observed_at: Timestamp,
    pub source: Seq<char>,
    pub bbox: Option<BoxView>,
    pub landmarks: Option<Seq<LandmarkView>>,
    pub detector_model: Seq<char>,
    pub embedding_model: Seq<char>,
    pub embedding_dim: usize,
    pub quality: Seq<char>,
    pub person_candidate_id: Option<Seq<char>>,
}

impl View for FaceVectorPayload {
    type V = PayloadView;

    open spec fn view(&self) -> PayloadView {
        PayloadView {
            observation_id: self.observation_id@,
            frame_id: self.frame_id@,
            source_sensation_id: self.source_sensation_id@,
            impression_id: optional(self.impression_id),
            observed_at: self.observed_at,
            source: self.source@,
            bbox: box_view(self.bbox),
            landmarks: landmarks_view(self.landmarks),
            detector_model: self.detector_model@,
            embedding_model: self.embedding_model@,
            embedding_dim: self.embedding_dim,
            quality: self.quality@,
            person_candidate_id: optional(self.person_candidate_id),
        }
    }
}

impl Clone for FaceVectorPayload {
    fn clone(&self) -> (r: FaceVectorPayload)
        ensures
            r@ == self@,
    {
        FaceVectorPayload {
            observation_id: self.observation_id.clone(),
            frame_id: self.frame_id.clone(),
            source_sensation_id: self.source_sensation_id.clone(),
            impression_id: copy_optional(&self.impression_id),
            observed_at: self.observed_at,
            source: self.source.clone(),
            bbox: copy_box(&self.bbox),
            landmarks: copy_landmarks(&self.landmarks),
            detector_model: self.detector_model.clone(),
            embedding_model: self.embedding_model.clone(),
            embedding_dim: self.embedding_dim,
            quality: self.quality.clone(),
            person_candidate_id: copy_optional(&self.person_candidate_id),
        }
    }
}

/// An optional string as JSON.
pub open spec fn string_or_null(s: Option<Seq<char>>) -> JsonView {
    match s {
        Some(text) => JsonView::Str(text),
        None => JsonView::Null,
    }
}

/// A box as JSON.
pub open spec fn box_json(b: BoxView) -> JsonView {
    JsonView::Object(
        seq![
            named("x1"@, JsonView::Number(b.x1)),
            named("x2"@, JsonView::Number(b.x2)),
            named("y1"@, JsonView::Number(b.y1)),
            named("y2"@, JsonView::Number(b.y2)),
        ],
    )
}

/// An optional box as JSON.
pub open spec fn box_or_null(b: Option<BoxView>) -> JsonView {
    match b {
        Some(b) => box_json(b),
        None => JsonView::Null,
    }
}

/// A point as JSON.
pub open spec fn landmark_json(p: LandmarkView) -> JsonView {
    JsonView::Array(seq![JsonView::Number(p.x), JsonView::Number(p.y)])
}

/// The points of a face as JSON.
pub open spec fn landmarks_json(list: Seq<LandmarkView>) -> Seq<JsonView> {
    list.map_values(|p: LandmarkView| landmark_json(p))
}

/// The optional points of a face as JSON.
pub open spec fn landmarks_or_null(list: Option<Seq<LandmarkView>>) -> JsonView {
    match list {
        Some(points) => JsonView::Array(landmarks_json(points)),
        None => JsonView::Null,
    }
}

/// What is stored with a vector, as JSON.
pub open spec fn payload_json(p: PayloadView) -> JsonView {
    JsonView::Object(
        seq![
            named("bbox"@, box_or_null(p.bbox)),
            named("detector_model"@, JsonView::Str(p.detector_model)),
            named("embedding_dim"@, JsonView::Number(decimal(p.embedding_dim as nat))),
            named("embedding_model"@, JsonView::Str(p.embedding_model)),
            named("frame_id"@, JsonView::Str(p.frame_id)),
            named("impression_id"@, string_or_null(p.impression_id)),
            named("landmarks"@, landmarks_or_null(p.landmarks)),
            named("observation_id"@, JsonView::Str(p.observation_id)),
            named("observed_at"@, JsonView::Str(p.observed_at.spec_zulu())),
            named("person_candidate_id"@, string_or_null(p.person_candidate_id)),
            named("quality"@, JsonView::Number(p.quality)),
            named("source"@, JsonView::Str(p.source)),
            named("source_sensation_id"@, JsonView::Str(p.source_sensation_id)),
        ],
    )
}

pub(crate) fn write_box(bbox: &Option<BBox>) -> (json: Json)
    ensures
        json@ == box_or_null(box_view(*bbox)),
{
    match bbox {
        None => Json::Null,
        Some(b) => {
            let fields = Fields::new()
                .with("x1", Json::Number(b.x1.clone()))
                .with("x2", Json::Number(b.x2.clone()))
                .with("y1", Json::Number(b.y1.clone()))
                .with("y2", Json::Number(b.y2.clone()));
            assert(fields@ =~= box_json(b@)->Object_0);
            fields.object()
        },
    }
}

pub(crate) fn write_landmarks(list: &Option<Vec<Landmark>>) -> (json: Json)
    ensures
        json@ == landmarks_or_null(landmarks_view(*list)),
{
    match list {
        None => Json::Null,
        Some(points) => {
            let mut items: Vec<Json> = Vec::new();
            let mut i: usize = 0;
            while i < points.len()
                invariant
                    i <= points@.len(),
                    items@.len() == i,
                    forall|k: int| 0 <= k < i ==> (#[trigger] items@[k])@ == landmark_json(points@[k]@),
                decreases points@.len() - i,
            {
                let mut pair: Vec<Json> = Vec::new();
                pair.push(Json::Number(points[i].x.clone()));
                pair.push(Json::Number(points[i].y.clone()));
                assert(json_items(pair@)[0] == pair@[0]@);
                assert(json_items(pair@)[1] == pair@[1]@);
                let item = Json::Array(pair);
                assert(item@->Array_0 =~= json_items(pair@));
                assert(item@->Array_0 =~= landmark_json(points@[i as int]@)->Array_0);
                items.push(item);
                i += 1;
            }
            let json = Json::Array(items);
            assert(json@->Array_0 =~= landmarks_json(landmark_views(points@)));
            json
        },
    }
}

/// A field that has to be a string.
pub open spec fn string_part(v: JsonView, key: Seq<char>) -> Option<Seq<char>> {
    text_field(v, key)
}

/// A field that may be a string, null or missing; nothing where it is another
/// value.
pub open spec fn optional_part(v: JsonView, key: Seq<char>) -> Option<Option<Seq<char>>> {
    match field(v, key) {
        None => Some(None),
        Some(JsonView::Null) => Some(None),
        Some(JsonView::Str(s)) => Some(Some(s)),
        Some(_) => None,
    }
}

/// The box that a value gives; nothing where it gives none.
pub open spec fn box_in(v: JsonView) -> Option<BoxView> {
    match (
        number_field(v, "x1"@),
        number_field(v, "y1"@),
        number_field(v, "x2"@),
        number_field(v, "y2"@),
    ) {
        (Some(x1), Some(y1), Some(x2), Some(y2)) => Some(BoxView { x1, y1, x2, y2 }),
        _ => None,
    }
}

/// A field that may be a box, null or missing; nothing where it is another
/// value.
pub open spec fn box_part(v: JsonView, key: Seq<char>) -> Option<Option<BoxView>> {
    match field(v, key) {
        None => Some(None),
        Some(JsonView::Null) => Some(None),
        Some(value) => match box_in(value) {
            Some(b) => Some(Some(b)),
            None => None,
        },
    }
}

/// The point that a value gives.
pub open spec fn landmark_in(v: JsonView) -> Option<LandmarkView> {
    match v {
        JsonView::Array(items) => if items.len() == 2 {
            match (items[0], items[1]) {
                (JsonView::Number(x), JsonView::Number(y)) => Some(LandmarkView { x, y }),
                _ => None,
            }
        } else {
            None
        },
        _ => None,
    }
}

/// The points that some values give.
pub open spec fn landmarks_in(items: Seq<JsonView>) -> Option<Seq<LandmarkView>>
    decreases items.len(),
{
    if items.len() == 0 {
        Some(Seq::empty())
    } else {
        match (landmarks_in(items.drop_last()), landmark_in(items.last())) {
            (Some(rest), Some(p)) => Some(rest.push(p)),
            _ => None,
        }
    }
}

/// A field that may be a list of points, null or missing; nothing where it is
/// another value.
pub open spec fn landmarks_part(v: JsonView, key: Seq<char>) -> Option<Option<Seq<LandmarkView>>> {
    match field(v, key) {
        None => Some(None),
        Some(JsonView::Null) => Some(None),
        Some(JsonView::Array(items)) => match landmarks_in(items) {
            Some(points) => Some(Some(points)),
            None => None,
        },
        Some(_) => None,
    }
}

/// Whether a moment is what a field tells.
pub open spec fn tells_time(v: JsonView, key: Seq<char>, t: Timestamp) -> bool {
    match text_field(v, key) {
        Some(text) => match parsed_rfc3339(text) {
            Some(parts) => t@ == parts.0 * NANOS_PER_SECOND + parts.1,
            None => false,
        },
        None => false,
    }
}

/// Whether a field tells a moment.
pub open spec fn time_part(v: JsonView, key: Seq<char>) -> bool {
    match text_field(v, key) {
        Some(text) => match parsed_rfc3339(text) {
            Some(parts) => in_range(parts.0 * NANOS_PER_SECOND + parts.1),
            None => false,
        },
        None => false,
    }
}

/// A size among the fields.
pub open spec fn size_part(v: JsonView, key: Seq<char>) -> Option<usize> {
    match unsigned_field(v, key) {
        Some(n) => if n <= usize::MAX {
            Some(n as usize)
        } else {
            None
        },
        None => None,
    }
}

/// Whether something is what is stored with a vector, as a value tells it.
pub open spec fn is_payload_in(p: PayloadView, v: JsonView) -> bool {
    &&& string_part(v, "observation_id"@) == Some(p.observation_id)
    &&& string_part(v, "frame_id"@) == Some(p.frame_id)
    &&& string_part(v, "source_sensation_id"@) == Some(p.source_sensation_id)
    &&& optional_part(v, "impression_id"@) == Some(p.impression_id)
    &&& tells_time(v, "observed_at"@, p.observed_at)
    &&& string_part(v, "source"@) == Some(p.source)
    &&& box_part(v, "bbox"@) == Some(p.bbox)
    &&& landmarks_part(v, "landmarks"@) == Some(p.landmarks)
    &&& string_part(v, "detector_model"@) == Some(p.detector_model)
    &&& string_part(v, "embedding_model"@) == Some(p.embedding_model)
    &&& size_part(v, "embedding_dim"@) == Some(p.embedding_dim)
    &&& number_field(v, "quality"@) == Some(p.quality)
    &&& optional_part(v, "person_candidate_id"@) == Some(p.person_candidate_id)
}

/// Whether a value tells of everything that is stored with a vector.
pub open spec fn holds_payload(v: JsonView) -> bool {
    &&& string_part(v, "observation_id"@) is Some
    &&& string_part(v, "frame_id"@) is Some
    &&& string_part(v, "source_sensation_id"@) is Some
    &&& optional_part(v, "impression_id"@) is Some
    &&& time_part(v, "observed_at"@)
    &&& string_part(v, "source"@) is Some
    &&& box_part(v, "bbox"@) is Some
    &&& landmarks_part(v, "landmarks"@) is Some
    &&& string_part(v, "detector_model"@) is Some
    &&& string_part(v, "embedding_model"@) is Some
    &&& size_part(v, "embedding_dim"@) is Some
    &&& number_field(v, "quality"@) is Some
    &&& optional_part(v, "person_candidate_id"@) is Some
}

fn read_string(v: &Json, key: &str) -> (r: Option<String>)
    ensures
        optional(r) == string_part(v@, key@),
{
    match v.str_field(key) {
        Some(s) => Some(s.to_owned()),
        None => None,
    }
}

fn read_optional(v: &Json, key: &str) -> (r: Option<Option<String>>)
    ensures
        match optional_part(v@, key@) {
            Some(s) => r matches Some(read) && optional(read) == s,
            None => r is None,
        },
{
    match v.get(key) {
        None => Some(None),
        Some(json) => match json {
            Json::Null => Some(None),
            Json::Str(s) => Some(Some(s.clone())),
            _ => None,
        },
    }
}

fn read_number(v: &Json, key: &str) -> (r: Option<String>)
    ensures
        optional(r) == number_field(v@, key@),
{
    match v.get(key) {
        Some(Json::Number(n)) => Some(n.clone()),
        _ => None,
    }
}

fn read_box(v: &Json, key: &str) -> (r: Option<Option<BBox>>)
    ensures
        match box_part(v@, key@) {
            Some(b) => r matches Some(read) && box_view(read) == b,
            None => r is None,
        },
{
    match v.get(key) {
        None => Some(None),
        Some(json) => {
            if let Json::Null = json {
                return Some(None);
            }
            match (
                read_number(json, "x1"),
                read_number(json, "y1"),
                read_number(json, "x2"),
                read_number(json, "y2"),
            ) {
                (Some(x1), Some(y1), Some(x2), Some(y2)) => Some(Some(BBox { x1, y1, x2, y2 })),
                _ => None,
            }
        },
    }
}

fn read_landmark(v: &Json) -> (r: Option<Landmark>)
    ensures
        match landmark_in(v@) {
            Some(p) => r matches Some(read) && read@ == p,
            None => r is None,
        },
{
    match v {
        Json::Array(items) => {
            assert(v@->Array_0 =~= json_items(items@));
            if items.len() != 2 {
                return None;
            }
            match (&items[0], &items[1]) {
                (Json::Number(x), Json::Number(y)) => Some(Landmark { x: x.clone(), y: y.clone() }),
                _ => None,
            }
        },
        _ => None,
    }
}

proof fn lemma_no_landmarks(items: Seq<JsonView>, n: int)
    requires
        0 <= n <= items.len(),
        landmarks_in(items.take(n)) is None,
    ensures
        landmarks_in(items) is None,
    decreases items.len() - n,
{
    if n < items.len() {
        assert(items.take(n + 1).drop_last() =~= items.take(n));
        lemma_no_landmarks(items, n + 1);
    } else {
        assert(items.take(n) =~= items);
    }
}

fn read_landmarks(v: &Json, key: &str) -> (r: Option<Option<Vec<Landmark>>>)
    ensures
        match landmarks_part(v@, key@) {
            Some(list) => r matches Some(read) && landmarks_view(read) == list,
            None => r is None,
        },
{
    let json = match v.get(key) {
        None => {
            return Some(None);
        },
        Some(json) => json,
    };
    match json {
        Json::Null => Some(None),
        Json::Array(items) => {
            let ghost all = json_items(items@);
            assert(json@->Array_0 =~= all);
            let mut points: Vec<Landmark> = Vec::new();
            let mut i: usize = 0;
            assert(all.take(0) =~= Seq::<JsonView>::empty());
            assert(landmark_views(points@) =~= Seq::<LandmarkView>::empty());
            while i < items.len()
                invariant
                    i <= items@.len(),
                    all == json_items(items@),
                    field(v@, key@) == Some(JsonView::Array(all)),
                    landmarks_in(all.take(i as int)) == Some(landmark_views(points@)),
                decreases items@.len() - i,
            {
                proof {
                    assert(all.take(i + 1).drop_last() =~= all.take(i as int));
                    assert(all.take(i + 1).last() == items@[i as int]@);
                }
                let ghost before = landmark_views(points@);
                match read_landmark(&items[i]) {
                    Some(p) => {
                        points.push(p);
                        assert(landmark_views(points@) =~= before.push(p@));
                    },
                    None => {
                        proof {
                            lemma_no_landmarks(all, i + 1);
                        }
                        return None;
                    },
                }
                i += 1;
            }
            assert(all.take(i as int) =~= all);
            Some(Some(points))
        },
        _ => None,
    }
}

fn read_time(v: &Json, key: &str) -> (r: Option<Timestamp>)
    ensures
        r matches Some(t) ==> tells_time(v@, key@, t),
        r is Some == time_part(v@, key@),
{
    match v.str_field(key) {
        Some(text) => parse_rfc3339(text),
        None => None,
    }
}

fn read_size(v: &Json, key: &str) -> (r: Option<usize>)
    ensures
        r == size_part(v@, key@),
{
    match v.u64_field(key) {
        Some(n) => if n <= usize::MAX as u64 {
            Some(n as usize)
        } else {
            None
        },
        None => None,
    }
}

impl FaceVectorPayload {
    /// What is stored with a vector, as JSON.
    pub fn to_qdrant_payload(&self) -> (json: Json)
        ensures
            json@ == payload_json(self@),
            FIRST_WRITTEN_SECOND <= self@.observed_at.spec_secs() <= LAST_WRITTEN_SECOND
                ==> is_payload_in(self@, json@),
    {
        let zulu = self.observed_at.to_zulu();
        let fields = Fields::new()
            .with("bbox", write_box(&self.bbox))
            .with("detector_model", Json::text(self.detector_model.as_str()))
            .with("embedding_dim", Json::count(self.embedding_dim as u64))
            .with("embedding_model", Json::text(self.embedding_model.as_str()))
            .with("frame_id", Json::text(self.frame_id.as_str()))
            .with("impression_id", Json::optional_text(&self.impression_id))
            .with("landmarks", write_landmarks(&self.landmarks))
            .with("observation_id", Json::text(self.observation_id.as_str()))
            .with("observed_at", Json::text(zulu.as_str()))
            .with("person_candidate_id", Json::optional_text(&self.person_candidate_id))
            .with("quality", Json::Number(self.quality.clone()))
            .with("source", Json::text(self.source.as_str()))
            .with("source_sensation_id", Json::text(self.source_sensation_id.as_str()));
        assert(fields@ =~= payload_json(self@)->Object_0);
        let json = fields.object();
        proof {
            if FIRST_WRITTEN_SECOND <= self@.observed_at.spec_secs() <= LAST_WRITTEN_SECOND {
                lemma_payload_reads_back(self@);
            }
        }
        json
    }

    /// Reads what is stored with a vector; nothing where a part is missing or
    /// another value.
    pub fn from_qdrant_payload(value: &Json) -> (r: Option<FaceVectorPayload>)
        ensures
            r matches Some(p) ==> is_payload_in(p@, value@),
            r is Some == holds_payload(value@),
    {
        let (observation_id, frame_id, source_sensation_id, impression_id, observed_at, source) =
            match (
            read_string(value, "observation_id"),
            read_string(value, "frame_id"),
            read_string(value, "source_sensation_id"),
            read_optional(value, "impression_id"),
            read_time(value, "observed_at"),
            read_string(value, "source"),
        ) {
            (Some(a), Some(b), Some(c), Some(d), Some(e), Some(f)) => (a, b, c, d, e, f),
            _ => {
                return None;
            },
        };
        match (
            read_box(value, "bbox"),
            read_landmarks(value, "landmarks"),
            read_string(value, "detector_model"),
            read_string(value, "embedding_model"),
            read_size(value, "embedding_dim"),
            read_number(value, "quality"),
            read_optional(value, "person_candidate_id"),
        ) {
            (
                Some(bbox),
                Some(landmarks),
                Some(detector_model),
                Some(embedding_model),
                Some(embedding_dim),
                Some(quality),
                Some(person_candidate_id),
            ) => Some(
                FaceVectorPayload {
                    observation_id,
                    frame_id,
                    source_sensation_id,
                    impression_id,
                    observed_at,
                    source,
                    bbox,
                    landmarks,
                    detector_model,
                    embedding_model,
                    embedding_dim,
                    quality,
                    person_candidate_id,
                },
            ),
            _ => None,
        }
    }
}

proof fn lemma_landmarks_read_back(list: Seq<LandmarkView>)
    ensures
        landmarks_in(landmarks_json(list)) == Some(list),
    decreases list.len(),
{
    let items = landmarks_json(list);
    if list.len() == 0 {
        assert(list =~= Seq::<LandmarkView>::empty());
    } else {
        lemma_landmarks_read_back(list.drop_last());
        assert(items.drop_last() =~= landmarks_json(list.drop_last()));
        assert(items.last() == landmark_json(list.last()));
        assert(list.drop_last().push(list.last()) =~= list);
    }
}

/// How long the name of a part is, and how it begins.
spec fn name_mark(name: Seq<char>) -> (nat, char) {
    (name.len(), name[0])
}

proof fn lemma_name_marks(p: PayloadView, i: int)
    requires
        0 <= i < 13,
    ensures
        name_mark(payload_json(p)->Object_0[i].name) == seq![
            (4nat, 'b'),
            (14nat, 'd'),
            (13nat, 'e'),
            (15nat, 'e'),
            (8nat, 'f'),
            (13nat, 'i'),
            (9nat, 'l'),
            (14nat, 'o'),
            (11nat, 'o'),
            (19nat, 'p'),
            (7nat, 'q'),
            (6nat, 's'),
            (19nat, 's'),
        ][i],
{
    reveal_strlit("bbox");
    reveal_strlit("detector_model");
    reveal_strlit("embedding_dim");
    reveal_strlit("embedding_model");
    reveal_strlit("frame_id");
    reveal_strlit("impression_id");
    reveal_strlit("landmarks");
    reveal_strlit("observation_id");
    reveal_strlit("observed_at");
    reveal_strlit("person_candidate_id");
    reveal_strlit("quality");
    reveal_strlit("source");
    reveal_strlit("source_sensation_id");
    assert(i == 0 || i == 1 || i == 2 || i == 3 || i == 4 || i == 5 || i == 6 || i == 7 || i == 8
        || i == 9 || i == 10 || i == 11 || i == 12);
}

proof fn lemma_names_differ(p: PayloadView, i: int, k: int)
    requires
        0 <= i < k < 13,
    ensures
        payload_json(p)->Object_0[i].name != payload_json(p)->Object_0[k].name,
{
    lemma_name_marks(p, i);
    lemma_name_marks(p, k);
    assert(i == 0 || i == 1 || i == 2 || i == 3 || i == 4 || i == 5 || i == 6 || i == 7 || i == 8
        || i == 9 || i == 10 || i == 11);
    assert(k == 1 || k == 2 || k == 3 || k == 4 || k == 5 || k == 6 || k == 7 || k == 8 || k == 9
        || k == 10 || k == 11 || k == 12);
}

proof fn lemma_part_at(p: PayloadView, k: int)
    requires
        0 <= k < 13,
    ensures
        crate::json::field_in(payload_json(p)->Object_0, payload_json(p)->Object_0[k].name) == Some(
            payload_json(p)->Object_0[k].value,
        ),
{
    let fields = payload_json(p)->Object_0;
    assert forall|i: int| 0 <= i < k implies (#[trigger] fields[i]).name != fields[k].name by {
        lemma_names_differ(p, i, k);
    }
    lemma_field_at(fields, k);
}

proof fn lemma_box_reads_back(b: BoxView)
    ensures
        box_in(box_json(b)) == Some(b),
{
    reveal_strlit("x1");
    reveal_strlit("x2");
    reveal_strlit("y1");
    reveal_strlit("y2");
    assert("x1"@[1] != "x2"@[1]);
    assert("x1"@[0] != "y1"@[0]);
    assert("x1"@[0] != "y2"@[0]);
    assert("x2"@[0] != "y1"@[0]);
    assert("x2"@[0] != "y2"@[0]);
    assert("y1"@[1] != "y2"@[1]);
    let fields = box_json(b)->Object_0;
    lemma_field_at(fields, 0);
    lemma_field_at(fields, 1);
    lemma_field_at(fields, 2);
    lemma_field_at(fields, 3);
}

proof fn lemma_payload_reads_back(p: PayloadView)
    requires
        FIRST_WRITTEN_SECOND <= p.observed_at.spec_secs() <= LAST_WRITTEN_SECOND,
        parsed_rfc3339(p.observed_at.spec_zulu()) == read_back(
            p.observed_at.spec_secs() as i64,
            p.observed_at.spec_subsec() as u32,
        ),
    ensures
        is_payload_in(p, payload_json(p)),
{
    lemma_part_at(p, 0);
    lemma_part_at(p, 1);
    lemma_part_at(p, 2);
    lemma_part_at(p, 3);
    lemma_part_at(p, 4);
    lemma_part_at(p, 5);
    lemma_part_at(p, 6);
    lemma_part_at(p, 7);
    lemma_part_at(p, 8);
    lemma_part_at(p, 9);
    lemma_part_at(p, 10);
    lemma_part_at(p, 11);
    lemma_part_at(p, 12);
    lemma_decimal_reads_back(p.embedding_dim as nat);
    if let Some(b) = p.bbox {
        lemma_box_reads_back(b);
    }
    if let Some(list) = p.landmarks {
        lemma_landmarks_read_back(list);
    }
}

/// The vector of a face, and what is stored with it.
#[derive(Debug, PartialEq, Eq)]
pub struct FaceVectorRecord {
    /// The point at which it is stored.
    pub point_id: String,
    /// The vector.
    pub vector: Vec<String>,
    /// What is stored with it.
    pub payload: FaceVectorPayload,
}

/// What a [`FaceVectorRecord`] is.
pub ghost struct FaceRecordView {
    pub point_id: Seq<char>,
    pub vector: Seq<Seq<char>>,
    pub payload: PayloadView,
}

impl View for FaceVectorRecord {
    type V = FaceRecordView;

    open spec fn view(&self) -> FaceRecordView {
        FaceRecordView {
            point_id: self.point_id@,
            vector: texts(self.vector@),
            payload: self.payload@,
        }
    }
}

impl Clone for FaceVectorRecord {
    fn clone(&self) -> (r: FaceVectorRecord)
        ensures
            r@ == self@,
    {
        FaceVectorRecord {
            point_id: self.point_id.clone(),
            vector: copy_texts(&self.vector),
            payload: self.payload.clone(),
        }
    }
}

/// What the point of a face is drawn from: the observation, the frame, which of
/// its faces it is, and what made its vector.
pub open spec fn point_source(observation_id: Id, frame_id: Id, face_index: u64, model: Seq<char>) -> Seq<u8> {
    id_bytes(observation_id) + id_bytes(frame_id) + little_endian_bytes(face_index as nat, 8)
        + encode_utf8(model)
}

/// The point at which a face is stored.
pub open spec fn point_of(observation_id: Id, frame_id: Id, face_index: u64, model: Seq<char>) -> Seq<char> {
    hyphenated(drawn_id(point_source(observation_id, frame_id, face_index, model)))
}

/// The point at which a face is stored: always the same for the same face.
pub fn deterministic_face_point_id(
    observation_id: Id,
    frame_id: Id,
    face_index: u64,
    embedding_model: &str,
) -> (s: String)
    ensures
        s@ == point_of(observation_id, frame_id, face_index, embedding_model@),
{
    let mut bytes: Vec<u8> = Vec::new();
    push_id(&mut bytes, observation_id);
    push_id(&mut bytes, frame_id);
    push_little_endian(&mut bytes, face_index, 8);
    push_bytes(&mut bytes, embedding_model.as_bytes());
    assert(bytes@ =~= point_source(observation_id, frame_id, face_index, embedding_model@));
    id_text(draw_id(bytes.as_slice()))
}

impl FaceVectorRecord {
    /// A face that was just seen.
    pub fn new(
        observation_id: Id,
        frame_id: Id,
        source_sensation_id: Id,
        face_index: u64,
        vector: Vec<String>,
        observed_at: Timestamp,
        source: String,
        bbox: Option<BBox>,
        landmarks: Option<Vec<Landmark>>,
        quality: String,
    ) -> (r: FaceVectorRecord)
        ensures
            r@ == (FaceRecordView {
                point_id: point_of(observation_id, frame_id, face_index, FACE_EMBEDDING_MODEL@),
                vector: texts(vector@),
                payload: PayloadView {
                    observation_id: hyphenated(observation_id),
                    frame_id: hyphenated(frame_id),
                    source_sensation_id: hyphenated(source_sensation_id),
                    impression_id: None,
                    observed_at,
                    source: source@,
                    bbox: box_view(bbox),
                    landmarks: landmarks_view(landmarks),
                    detector_model: FACE_DETECTOR_MODEL@,
                    embedding_model: FACE_EMBEDDING_MODEL@,
                    embedding_dim: vector@.len() as usize,
                    quality: quality@,
                    person_candidate_id: None,
                },
            }),
    {
        let point_id = deterministic_face_point_id(
            observation_id,
            frame_id,
            face_index,
            FACE_EMBEDDING_MODEL,
        );
        let embedding_dim: usize = vector.len();
        FaceVectorRecord {
            point_id,
            vector,
            payload: FaceVectorPayload {
                observation_id: id_text(observation_id),
                frame_id: id_text(frame_id),
                source_sensation_id: id_text(source_sensation_id),
                impression_id: None,
                observed_at,
                source,
                bbox,
                landmarks,
                detector_model: FACE_DETECTOR_MODEL.to_owned(),
                embedding_model: FACE_EMBEDDING_MODEL.to_owned(),
                embedding_dim,
                quality,
                person_candidate_id: None,
            },
        }
    }
}

// ---------------------------------------------------------------------------
// The store of vectors.

/// Where something is in the store.
pub open spec fn endpoint_of(url: Seq<char>, path: Seq<char>) -> Seq<char> {
    trimmed_end_of(url, CharClass::Slash) + "/"@ + trimmed_start_of(path, CharClass::Slash)
}

/// Where something is in the store.
pub fn qdrant_endpoint(url: &str, path: &str) -> (s: String)
    ensures
        s@ == endpoint_of(url@, path@),
{
    let mut s = trim_end_of(url, CharClass::Slash).to_owned();
    s.push_str("/");
    s.push_str(trim_start_of(path, CharClass::Slash));
    s
}

/// Where a collection is in the store.
pub fn collection_path(collection: &str) -> (s: String)
    ensures
        s@ == "collections/"@ + collection@,
{
    let mut s = "collections/".to_owned();
    s.push_str(collection);
    s
}

/// Where the points of a collection are put.
pub fn upsert_path(collection: &str) -> (s: String)
    ensures
        s@ == "collections/"@ + collection@ + "/points?wait=true"@,
{
    let mut s = "collections/".to_owned();
    s.push_str(collection);
    s.push_str("/points?wait=true");
    s
}

/// Where the points of a collection are looked for.
pub fn search_path(collection: &str) -> (s: String)
    ensures
        s@ == "collections/"@ + collection@ + "/points/search"@,
{
    let mut s = "collections/".to_owned();
    s.push_str(collection);
    s.push_str("/points/search");
    s
}

/// What makes a collection.
pub open spec fn collection_body(vector_size: usize) -> JsonView {
    JsonView::Object(
        seq![
            named(
                "vectors"@,
                JsonView::Object(
                    seq![
                        named("distance"@, JsonView::Str("Cosine"@)),
                        named("size"@, JsonView::Number(decimal(vector_size as nat))),
                    ],
                ),
            ),
        ],
    )
}

/// What makes a collection.
pub fn create_collection_body(vector_size: usize) -> (json: Json)
    ensures
        json@ == collection_body(vector_size),
{
    let inner = Fields::new()
        .with("distance", Json::text("Cosine"))
        .with("size", Json::count(vector_size as u64));
    assert(inner@ =~= (collection_body(vector_size)->Object_0[0]).value->Object_0);
    let fields = Fields::new().with("vectors", inner.object());
    assert(fields@ =~= collection_body(vector_size)->Object_0);
    fields.object()
}

/// Numbers as JSON.
pub open spec fn numbers_json(list: Seq<Seq<char>>) -> JsonView {
    JsonView::Array(list.map_values(|n: Seq<char>| JsonView::Number(n)))
}

fn write_numbers(list: &Vec<String>) -> (json: Json)
    ensures
        json@ == numbers_json(texts(list@)),
{
    let mut items: Vec<Json> = Vec::new();
    let mut i: usize = 0;
    while i < list.len()
        invariant
            i <= list@.len(),
            items@.len() == i,
            forall|k: int| 0 <= k < i ==> (#[trigger] items@[k])@ == JsonView::Number(list@[k]@),
        decreases list@.len() - i,
    {
        items.push(Json::Number(list[i].clone()));
        i += 1;
    }
    let json = Json::Array(items);
    assert(json@->Array_0 =~= numbers_json(texts(list@))->Array_0);
    json
}

/// What puts a face into the store.
pub open spec fn upsert_body(r: FaceRecordView) -> JsonView {
    JsonView::Object(
        seq![
            named(
                "points"@,
                JsonView::Array(
                    seq![
                        JsonView::Object(
                            seq![
                                named("id"@, JsonView::Str(r.point_id)),
                                named("payload"@, payload_json(r.payload)),
                                named("vector"@, numbers_json(r.vector)),
                            ],
                        ),
                    ],
                ),
            ),
        ],
    )
}

/// What puts a face into the store.
pub fn upsert_face_body(record: &FaceVectorRecord) -> (json: Json)
    ensures
        json@ == upsert_body(record@),
{
    let point = Fields::new()
        .with("id", Json::text(record.point_id.as_str()))
        .with("payload", record.payload.to_qdrant_payload())
        .with("vector", write_numbers(&record.vector));
    let ghost wanted = (upsert_body(record@)->Object_0[0]).value->Array_0;
    assert(point@ =~= wanted[0]->Object_0);
    let mut points: Vec<Json> = Vec::new();
    points.push(point.object());
    let list = Json::Array(points);
    assert(list@->Array_0 =~= wanted);
    let fields = Fields::new().with("points", list);
    assert(fields@ =~= upsert_body(record@)->Object_0);
    fields.object()
}

/// What looks for faces like one.
pub open spec fn search_body(vector: Seq<Seq<char>>, limit: usize, threshold: Option<Seq<char>>) -> JsonView {
    let most = if limit < 1 {
        1nat
    } else {
        limit as nat
    };
    let front = seq![named("limit"@, JsonView::Number(decimal(most)))];
    let back = seq![
        named("vector"@, numbers_json(vector)),
        named("with_payload"@, JsonView::Bool(true)),
    ];
    JsonView::Object(
        match threshold {
            Some(t) => front.push(named("score_threshold"@, JsonView::Number(t))) + back,
            None => front + back,
        },
    )
}

/// What looks for faces like one; an empty vector is refused.
pub fn search_nearest_faces_body(
    vector: &Vec<String>,
    limit: usize,
    score_threshold: &Option<String>,
) -> (r: Result<Json, String>)
    ensures
        match r {
            Ok(json) => vector@.len() > 0 && json@ == search_body(
                texts(vector@),
                limit,
                optional(*score_threshold),
            ),
            Err(e) => vector@.len() == 0 && e@ == "refusing to search empty face vector"@,
        },
{
    if vector.len() == 0 {
        return Err("refusing to search empty face vector".to_owned());
    }
    let most: usize = if limit < 1 {
        1
    } else {
        limit
    };
    let front = Fields::new().with("limit", Json::count(most as u64));
    let fields = match score_threshold {
        Some(t) => front.with("score_threshold", Json::Number(t.clone())),
        None => front,
    }.with("vector", write_numbers(vector)).with("with_payload", Json::Bool(true));
    assert(fields@ =~= search_body(texts(vector@), limit, optional(*score_threshold))->Object_0);
    Ok(fields.object())
}

/// The value under some names, one within another.
pub open spec fn under(v: JsonView, path: Seq<Seq<char>>) -> Option<JsonView>
    decreases path.len(),
{
    if path.len() == 0 {
        Some(v)
    } else {
        match under(v, path.drop_last()) {
            Some(inner) => field(inner, path.last()),
            None => None,
        }
    }
}

/// How long the vectors of a collection are, as the store tells.
pub open spec fn vector_size_in(v: JsonView) -> Option<usize> {
    let config = under(v, seq!["result"@, "config"@, "params"@, "vectors"@]);
    let told = match config {
        Some(vectors) => match field(vectors, "size"@) {
            Some(size) => Some(size),
            None => match field(vectors, "default"@) {
                Some(default) => field(default, "size"@),
                None => None,
            },
        },
        None => None,
    };
    match told {
        Some(JsonView::Number(n)) => match crate::decimal::unsigned_upto(n, u64::MAX as nat) {
            Some(size) => if size <= usize::MAX {
                Some(size as usize)
            } else {
                None
            },
            None => None,
        },
        _ => None,
    }
}

fn size_of(json: &Json) -> (r: Option<usize>)
    ensures
        r == (match json@ {
            JsonView::Number(n) => match crate::decimal::unsigned_upto(n, u64::MAX as nat) {
                Some(size) => if size <= usize::MAX {
                    Some(size as usize)
                } else {
                    None
                },
                None => None,
            },
            _ => None,
        }),
{
    match json {
        Json::Number(n) => match crate::decimal::parse_unsigned(n.as_str(), u64::MAX) {
            Some(size) => if size <= usize::MAX as u64 {
                Some(size as usize)
            } else {
                None
            },
            None => None,
        },
        _ => None,
    }
}

/// How long the vectors of a collection are, as the store tells.
pub fn qdrant_collection_vector_size(body: &Json) -> (r: Option<usize>)
    ensures
        r == vector_size_in(body@),
{
    proof {
        lemma_under_four(body@, "result"@, "config"@, "params"@, "vectors"@);
    }
    let vectors = match body.get("result") {
        Some(result) => match result.get("config") {
            Some(config) => match config.get("params") {
                Some(params) => match params.get("vectors") {
                    Some(vectors) => vectors,
                    None => {
                        return None;
                    },
                },
                None => {
                    return None;
                },
            },
            None => {
                return None;
            },
        },
        None => {
            return None;
        },
    };
    match vectors.get("size") {
        Some(size) => size_of(size),
        None => match vectors.get("default") {
            Some(default) => match default.get("size") {
                Some(size) => size_of(size),
                None => None,
            },
            None => None,
        },
    }
}

proof fn lemma_under_four(v: JsonView, a: Seq<char>, b: Seq<char>, c: Seq<char>, d: Seq<char>)
    ensures
        under(v, seq![a, b, c, d]) == (match field(v, a) {
            Some(x) => match field(x, b) {
                Some(y) => match field(y, c) {
                    Some(z) => field(z, d),
                    None => None,
                },
                None => None,
            },
            None => None,
        }),
{
    assert(seq![a, b, c, d].drop_last() =~= seq![a, b, c]);
    assert(seq![a, b, c].drop_last() =~= seq![a, b]);
    assert(seq![a, b].drop_last() =~= seq![a]);
    assert(seq![a].drop_last() =~= Seq::<Seq<char>>::empty());
    assert(under(v, Seq::empty()) == Some(v));
    assert(under(v, seq![a]) == field(v, a));
    assert(under(v, seq![a, b]) == (match field(v, a) {
        Some(x) => field(x, b),
        None => None,
    }));
    assert(under(v, seq![a, b, c]) == (match under(v, seq![a, b]) {
        Some(y) => field(y, c),
        None => None,
    }));
}

/// What to do about a collection.
#[derive(Debug, Clone, Copy, PartialEq, Eq, Structural)]
pub enum CollectionStep {
    /// It is fit.
    Keep,
    /// There is none.
    Create,
    /// Its vectors are of another length.
    Recreate,
    /// The store failed.
    Fail,
}

/// Whether a status of HTTP says that all went well.
pub open spec fn is_success(status: u16) -> bool {
    200 <= status < 300
}

/// What to do about a collection after the store was asked for it.
pub open spec fn collection_step(status: u16, told: Option<usize>, wanted: usize) -> CollectionStep {
    if status == 404 {
        CollectionStep::Create
    } else if !is_success(status) {
        CollectionStep::Fail
    } else {
        match told {
            None => CollectionStep::Keep,
            Some(size) => if size == wanted {
                CollectionStep::Keep
            } else {
                CollectionStep::Recreate
            },
        }
    }
}

/// Tells what to do about a collection, by what the store answered.
pub fn judge_collection(status: u16, told: Option<usize>, vector_size: usize) -> (r: CollectionStep)
    ensures
        r == collection_step(status, told, vector_size),
{
    if status == 404 {
        return CollectionStep::Create;
    }
    if status < 200 || status >= 300 {
        return CollectionStep::Fail;
    }
    match told {
        None => CollectionStep::Keep,
        Some(size) => if size == vector_size {
            CollectionStep::Keep
        } else {
            CollectionStep::Recreate
        },
    }
}

/// Tells whether a collection may be made anew once the store was asked to take
/// it away.
pub fn may_recreate(status: u16) -> (r: bool)
    ensures
        r == (is_success(status) || status == 404),
{
    (200 <= status && status < 300) || status == 404
}

/// How an answer that was not expected is told.
pub fn unexpected_response(action: &str, status: &str, body: &str) -> (s: String)
    ensures
        s@ == action@ + " failed with HTTP "@ + status@ + ": "@ + body@,
{
    let mut s = action.to_owned();
    s.push_str(" failed with HTTP ");
    s.push_str(status);
    s.push_str(": ");
    s.push_str(body);
    s
}

/// A face that the store found.
#[derive(Debug, PartialEq, Eq)]
pub struct VectorSearchHit {
    /// The point at which it is stored.
    pub point_id: String,
    /// How alike it is.
    pub score: String,
    /// What is stored with it.
    pub payload: Json,
}

/// What a [`VectorSearchHit`] is.
pub ghost struct HitView {
    pub point_id: Seq<char>,
    pub score: Seq<char>,
    pub payload: JsonView,
}

impl View for VectorSearchHit {
    type V = HitView;

    open spec fn view(&self) -> HitView {
        HitView { point_id: self.point_id@, score: self.score@, payload: self.payload@ }
    }
}

/// The faces of a list.
pub open spec fn hit_views(list: Seq<VectorSearchHit>) -> Seq<HitView> {
    list.map_values(|h: VectorSearchHit| h@)
}

/// The name of a point: a string as it is, any other value as its text.
pub open spec fn point_name(v: JsonView) -> Seq<char> {
    match v {
        JsonView::Str(s) => s,
        _ => json_text(v),
    }
}

/// The name of a point.
pub fn qdrant_id_to_string(value: &Json) -> (s: String)
    ensures
        s@ == point_name(value@),
{
    match value {
        Json::Str(s) => s.clone(),
        _ => value.to_text(),
    }
}

/// The face that a result tells, or what it lacks.
pub open spec fn hit_in(v: JsonView) -> Result<HitView, Seq<char>> {
    match field(v, "id"@) {
        None => Err("Qdrant search hit missing id"@),
        Some(id) => match number_field(v, "score"@) {
            None => Err("Qdrant search hit missing score"@),
            Some(score) => Ok(
                HitView {
                    point_id: point_name(id),
                    score,
                    payload: match field(v, "payload"@) {
                        Some(payload) => payload,
                        None => JsonView::Null,
                    },
                },
            ),
        },
    }
}

/// The faces that some results tell, or what the first that is not whole lacks.
pub open spec fn hits_in(items: Seq<JsonView>) -> Result<Seq<HitView>, Seq<char>>
    decreases items.len(),
{
    if items.len() == 0 {
        Ok(Seq::empty())
    } else {
        match hits_in(items.drop_last()) {
            Err(e) => Err(e),
            Ok(rest) => match hit_in(items.last()) {
                Err(e) => Err(e),
                Ok(hit) => Ok(rest.push(hit)),
            },
        }
    }
}

/// The faces that an answer tells.
pub open spec fn search_hits(v: JsonView) -> Result<Seq<HitView>, Seq<char>> {
    match field(v, "result"@) {
        Some(JsonView::Array(items)) => hits_in(items),
        _ => Err("Qdrant search response missing result array"@),
    }
}

fn read_hit(v: &Json) -> (r: Result<VectorSearchHit, String>)
    ensures
        match hit_in(v@) {
            Ok(hit) => r matches Ok(read) && read@ == hit,
            Err(e) => r matches Err(told) && told@ == e,
        },
{
    let point_id = match v.get("id") {
        Some(id) => qdrant_id_to_string(id),
        None => {
            return Err("Qdrant search hit missing id".to_owned());
        },
    };
    let score = match read_number(v, "score") {
        Some(score) => score,
        None => {
            return Err("Qdrant search hit missing score".to_owned());
        },
    };
    let payload = match v.get("payload") {
        Some(payload) => payload.clone(),
        None => Json::Null,
    };
    Ok(VectorSearchHit { point_id, score, payload })
}

proof fn lemma_hits_fail(items: Seq<JsonView>, n: int)
    requires
        0 <= n <= items.len(),
        hits_in(items.take(n)) is Err,
    ensures
        hits_in(items) == hits_in(items.take(n)),
    decreases items.len() - n,
{
    if n < items.len() {
        assert(items.take(n + 1).drop_last() =~= items.take(n));
        lemma_hits_fail(items, n + 1);
    } else {
        assert(items.take(n) =~= items);
    }
}

/// Reads the faces that the store found.
pub fn qdrant_search_hits(body: &Json) -> (r: Result<Vec<VectorSearchHit>, String>)
    ensures
        match search_hits(body@) {
            Ok(hits) => r matches Ok(read) && hit_views(read@) == hits,
            Err(e) => r matches Err(told) && told@ == e,
        },
{
    let result = match body.get("result") {
        Some(result) => result,
        None => {
            return Err("Qdrant search response missing result array".to_owned());
        },
    };
    match result {
        Json::Array(items) => {
            let ghost all = json_items(items@);
            assert(result@->Array_0 =~= all);
            let mut hits: Vec<VectorSearchHit> = Vec::new();
            let mut i: usize = 0;
            assert(all.take(0) =~= Seq::<JsonView>::empty());
            assert(hit_views(hits@) =~= Seq::<HitView>::empty());
            while i < items.len()
                invariant
                    i <= items@.len(),
                    all == json_items(items@),
                    field(body@, "result"@) == Some(JsonView::Array(all)),
                    hits_in(all.take(i as int)) == Ok::<Seq<HitView>, Seq<char>>(hit_views(hits@)),
                decreases items@.len() - i,
            {
                proof {
                    assert(all.take(i + 1).drop_last() =~= all.take(i as int));
                    assert(all.take(i + 1).last() == items@[i as int]@);
                }
                let ghost before = hit_views(hits@);
                match read_hit(&items[i]) {
                    Ok(hit) => {
                        hits.push(hit);
                        assert(hit_views(hits@) =~= before.push(hit@));
                    },
                    Err(e) => {
                        proof {
                            lemma_hits_fail(all, i + 1);
                        }
                        return Err(e);
                    },
                }
                i += 1;
            }
            assert(all.take(i as int) =~= all);
            Ok(hits)
        },
        _ => Err("Qdrant search response missing result array".to_owned()),
    }
}

// ---------------------------------------------------------------------------
// The graph.

/// Where statements go.
pub open spec fn statements_url(uri: Seq<char>) -> Seq<char> {
    if starts(uri, "bolt://"@) {
        let rest = uri.skip(7);
        let host = match last_place(rest, ':') {
            Some(n) => rest.take(n),
            None => rest,
        };
        "http://"@ + host + ":7474/db/neo4j/tx/commit"@
    } else if ends(uri, "/"@) {
        uri.drop_last() + "/db/neo4j/tx/commit"@
    } else {
        uri + "/db/neo4j/tx/commit"@
    }
}

/// Where statements go.
pub fn neo4j_http_endpoint(uri: &str) -> (s: String)
    ensures
        s@ == statements_url(uri@),
{
    proof {
        reveal_strlit("bolt://");
        reveal_strlit("/");
    }
    if starts_with(uri, "bolt://") {
        let rest = skip(uri, 7);
        let host = match crate::scene_context::find_last(rest, ':') {
            Some(n) => take(rest, n),
            None => rest,
        };
        let mut s = "http://".to_owned();
        s.push_str(host);
        s.push_str(":7474/db/neo4j/tx/commit");
        return s;
    }
    if ends_with(uri, "/") {
        let len: usize = uri.unicode_len();
        let mut s = take(uri, len - 1).to_owned();
        assert(uri@.take(len - 1) =~= uri@.drop_last());
        s.push_str("/db/neo4j/tx/commit");
        return s;
    }
    let mut s = uri.to_owned();
    s.push_str("/db/neo4j/tx/commit");
    s
}

/// A statement of the graph's language, with its parameters.
#[derive(Debug, PartialEq, Eq)]
pub struct CypherStatement {
    /// The statement.
    pub statement: String,
    /// Its parameters.
    pub parameters: Json,
}

/// What a [`CypherStatement`] is.
pub ghost struct CypherView {
    pub statement: Seq<char>,
    pub parameters: JsonView,
}

impl View for CypherStatement {
    type V = CypherView;

    open spec fn view(&self) -> CypherView {
        CypherView { statement: self.statement@, parameters: self.parameters@ }
    }
}

/// The statements of a list.
pub open spec fn cypher_views(list: Seq<CypherStatement>) -> Seq<CypherView> {
    list.map_values(|c: CypherStatement| c@)
}

/// A statement with its parameters.
pub fn cypher(statement: &str, parameters: Json) -> (c: CypherStatement)
    ensures
        c@ == (CypherView { statement: statement@, parameters: parameters@ }),
{
    CypherStatement { statement: statement.to_owned(), parameters }
}

/// No parameters.
pub open spec fn no_parameters() -> JsonView {
    JsonView::Object(Seq::empty())
}

fn bare(statement: &str) -> (c: CypherStatement)
    ensures
        c@ == (CypherView { statement: statement@, parameters: no_parameters() }),
{
    let fields = Fields::new();
    assert(fields@ =~= no_parameters()->Object_0);
    cypher(statement, fields.object())
}

/// What keeps the graph in order, statement by statement.
pub open spec fn constraints() -> Seq<Seq<char>> {
    seq![
        "CREATE CONSTRAINT frame_id IF NOT EXISTS FOR (n:Frame) REQUIRE n.id IS UNIQUE"@,
        "CREATE CONSTRAINT sensation_id IF NOT EXISTS FOR (n:Sensation) REQUIRE n.id IS UNIQUE"@,
        "CREATE CONSTRAINT face_observation_id IF NOT EXISTS FOR (n:FaceObservation) REQUIRE n.id IS UNIQUE"@,
        "CREATE CONSTRAINT vector_point_id IF NOT EXISTS FOR (n:VectorPoint) REQUIRE n.id IS UNIQUE"@,
        "CREATE CONSTRAINT person_candidate_id IF NOT EXISTS FOR (n:PersonCandidate) REQUIRE n.id IS UNIQUE"@,
        "CREATE INDEX frame_observed_at IF NOT EXISTS FOR (n:Frame) ON (n.observed_at)"@,
        "CREATE INDEX sensation_source IF NOT EXISTS FOR (n:Sensation) ON (n.source)"@,
        "CREATE INDEX face_observed_at IF NOT EXISTS FOR (n:FaceObservation) ON (n.observed_at)"@,
    ]
}

/// What keeps the graph in order.
pub fn constraint_statements() -> (list: Vec<CypherStatement>)
    ensures
        cypher_views(list@) == constraints().map_values(
            |s: Seq<char>| CypherView { statement: s, parameters: no_parameters() },
        ),
{
    let mut list: Vec<CypherStatement> = Vec::new();
    list.push(bare("CREATE CONSTRAINT frame_id IF NOT EXISTS FOR (n:Frame) REQUIRE n.id IS UNIQUE"));
    list.push(bare("CREATE CONSTRAINT sensation_id IF NOT EXISTS FOR (n:Sensation) REQUIRE n.id IS UNIQUE"));
    list.push(bare("CREATE CONSTRAINT face_observation_id IF NOT EXISTS FOR (n:FaceObservation) REQUIRE n.id IS UNIQUE"));
    list.push(bare("CREATE CONSTRAINT vector_point_id IF NOT EXISTS FOR (n:VectorPoint) REQUIRE n.id IS UNIQUE"));
    list.push(bare("CREATE CONSTRAINT person_candidate_id IF NOT EXISTS FOR (n:PersonCandidate) REQUIRE n.id IS UNIQUE"));
    list.push(bare("CREATE INDEX frame_observed_at IF NOT EXISTS FOR (n:Frame) ON (n.observed_at)"));
    list.push(bare("CREATE INDEX sensation_source IF NOT EXISTS FOR (n:Sensation) ON (n.source)"));
    list.push(bare("CREATE INDEX face_observed_at IF NOT EXISTS FOR (n:FaceObservation) ON (n.observed_at)"));
    assert(cypher_views(list@) =~= constraints().map_values(
        |s: Seq<char>| CypherView { statement: s, parameters: no_parameters() },
    ));
    list
}

/// Puts an observation of a face into the graph.
pub const FACE_OBSERVATION_STATEMENT: &'static str =
    "\n        MERGE (frame:Frame {id: $frame_id})\n          ON CREATE SET frame.observed_at = $observed_at, frame.source = $source\n        SET frame.last_observed_at = $observed_at\n        MERGE (sensation:Sensation {id: $source_sensation_id})\n          ON CREATE SET sensation.kind = 'vision.face_crop',\n                        sensation.source = $source,\n                        sensation.observed_at = $observed_at\n        MERGE (face:FaceObservation {id: $observation_id})\n        SET face.observed_at = $observed_at,\n            face.bbox_json = $bbox_json,\n            face.landmarks_json = $landmarks_json,\n            face.confidence = $confidence,\n            face.qdrant_point_id = $qdrant_point_id,\n            face.embedding_model = $embedding_model,\n            face.embedding_dim = $embedding_dim,\n            face.source = $source\n        MERGE (point:VectorPoint {id: $qdrant_point_id})\n        SET point.collection = $collection,\n            point.embedding_model = $embedding_model,\n            point.embedding_dim = $embedding_dim\n        MERGE (frame)-[:PRODUCED]->(sensation)\n        MERGE (face)-[:OBSERVED_IN]->(frame)\n        MERGE (face)-[:OBSERVED_IN]->(sensation)\n        MERGE (face)-[:VECTOR_STORED_AS]->(point)\n        ";

/// Links an observation to the person that it may show.
pub const LINK_PERSON_STATEMENT: &'static str =
    "\n                MERGE (candidate:PersonCandidate {id: $person_candidate_id})\n                  ON CREATE SET candidate.created_at = datetime(), candidate.status = 'possible'\n                WITH candidate\n                MATCH (obs:FaceObservation {id: $observation_id})\n                MATCH (matched:FaceObservation {id: $matched_observation_id})\n                MERGE (obs)-[r:MAY_BE]->(candidate)\n                  ON CREATE SET r.first_seen_at = datetime()\n                SET r.confidence = $confidence,\n                    r.matched_observation_id = $matched_observation_id,\n                    r.updated_at = datetime()\n                MERGE (matched)-[:MAY_BE]->(candidate)\n                ";

/// A size that the graph can hold.
pub open spec fn graph_size(n: usize) -> nat {
    if n <= i64::MAX {
        n as nat
    } else {
        i64::MAX as nat
    }
}

/// What the graph is told of a face; where it is in the picture, and its points,
/// are JSON texts.
pub open spec fn observation_parameters(
    collection: Seq<char>,
    r: FaceRecordView,
    bbox_json: Option<Seq<char>>,
    landmarks_text: Option<Seq<char>>,
) -> JsonView {
    let p = r.payload;
    JsonView::Object(
        seq![
            named("bbox_json"@, string_or_null(bbox_json)),
            named("collection"@, JsonView::Str(collection)),
            named("confidence"@, JsonView::Number(p.quality)),
            named("embedding_dim"@, JsonView::Number(decimal(graph_size(p.embedding_dim)))),
            named("embedding_model"@, JsonView::Str(p.embedding_model)),
            named("frame_id"@, JsonView::Str(p.frame_id)),
            named("landmarks_json"@, string_or_null(landmarks_text)),
            named("observation_id"@, JsonView::Str(p.observation_id)),
            named("observed_at"@, JsonView::Str(p.observed_at.spec_rfc3339())),
            named("qdrant_point_id"@, JsonView::Str(r.point_id)),
            named("source"@, JsonView::Str(p.source)),
            named("source_sensation_id"@, JsonView::Str(p.source_sensation_id)),
        ],
    )
}

/// Puts an observation of a face into the graph.
pub fn face_observation_cypher(
    collection: &str,
    record: &FaceVectorRecord,
    bbox_json: &Option<String>,
    landmarks_json: &Option<String>,
) -> (c: CypherStatement)
    ensures
        c@ == (CypherView {
            statement: FACE_OBSERVATION_STATEMENT@,
            parameters: observation_parameters(
                collection@,
                record@,
                optional(*bbox_json),
                optional(*landmarks_json),
            ),
        }),
{
    let p = &record.payload;
    let dim: u64 = if p.embedding_dim as u64 <= i64::MAX as u64 {
        p.embedding_dim as u64
    } else {
        i64::MAX as u64
    };
    let fields = Fields::new()
        .with("bbox_json", Json::optional_text(bbox_json))
        .with("collection", Json::text(collection))
        .with("confidence", Json::Number(p.quality.clone()))
        .with("embedding_dim", Json::count(dim))
        .with("embedding_model", Json::text(p.embedding_model.as_str()))
        .with("frame_id", Json::text(p.frame_id.as_str()))
        .with("landmarks_json", Json::optional_text(landmarks_json))
        .with("observation_id", Json::text(p.observation_id.as_str()))
        .with("observed_at", Json::text(p.observed_at.to_rfc3339().as_str()))
        .with("qdrant_point_id", Json::text(record.point_id.as_str()))
        .with("source", Json::text(p.source.as_str()))
        .with("source_sensation_id", Json::text(p.source_sensation_id.as_str()));
    assert(fields@ =~= observation_parameters(
        collection@,
        record@,
        optional(*bbox_json),
        optional(*landmarks_json),
    )->Object_0);
    cypher(FACE_OBSERVATION_STATEMENT, fields.object())
}

/// What the graph is told of a person that a face may show.
pub open spec fn link_parameters(
    observation_id: Seq<char>,
    person_candidate_id: Seq<char>,
    matched_observation_id: Seq<char>,
    confidence: Seq<char>,
) -> JsonView {
    JsonView::Object(
        seq![
            named("confidence"@, JsonView::Number(confidence)),
            named("matched_observation_id"@, JsonView::Str(matched_observation_id)),
            named("observation_id"@, JsonView::Str(observation_id)),
            named("person_candidate_id"@, JsonView::Str(person_candidate_id)),
        ],
    )
}

/// Links an observation to the person that it may show.
pub fn link_person_cypher(
    observation_id: &str,
    person_candidate_id: &str,
    matched_observation_id: &str,
    confidence: &str,
) -> (c: CypherStatement)
    ensures
        c@ == (CypherView {
            statement: LINK_PERSON_STATEMENT@,
            parameters: link_parameters(
                observation_id@,
                person_candidate_id@,
                matched_observation_id@,
                confidence@,
            ),
        }),
{
    let fields = Fields::new()
        .with("confidence", Json::Number(confidence.to_owned()))
        .with("matched_observation_id", Json::text(matched_observation_id))
        .with("observation_id", Json::text(observation_id))
        .with("person_candidate_id", Json::text(person_candidate_id));
    assert(fields@ =~= link_parameters(
        observation_id@,
        person_candidate_id@,
        matched_observation_id@,
        confidence@,
    )->Object_0);
    cypher(LINK_PERSON_STATEMENT, fields.object())
}

/// Whether an answer of the graph tells of errors.
pub open spec fn tells_errors(v: JsonView) -> bool {
    match field(v, "errors"@) {
        Some(JsonView::Array(items)) => items.len() > 0,
        _ => false,
    }
}

/// Tells whether an answer of the graph tells of errors.
pub fn has_graph_errors(body: &Json) -> (r: bool)
    ensures
        r == tells_errors(body@),
{
    match body.get("errors") {
        Some(errors) => match errors {
            Json::Array(items) => {
                assert(errors@->Array_0 =~= json_items(items@));
                items.len() > 0
            },
            _ => false,
        },
        None => false,
    }
}

// ---------------------------------------------------------------------------
// Remembering.

/// A face that was seen before.
#[derive(Debug, PartialEq, Eq)]
pub struct FaceMemoryMatch {
    /// Whom it may show.
    pub person_candidate_id: Option<String>,
    /// The point at which it is stored.
    pub qdrant_point_id: String,
    /// The observation.
    pub face_observation_id: String,
    /// How alike it is.
    pub score: String,
    /// When it was observed.
    pub observed_at: Timestamp,
    /// Where.
    pub source: String,
    /// Where in the picture.
    pub bbox: Option<BBox>,
}

/// What a [`FaceMemoryMatch`] is.
pub ghost struct MatchView {
    pub person_candidate_id: Option<Seq<char>>,
    pub qdrant_point_id: Seq<char>,
    pub face_observation_id: Seq<char>,
    pub score: Seq<char>,
    pub observed_at: Timestamp,
    pub source: Seq<char>,
    pub bbox: Option<BoxView>,
}

impl View for FaceMemoryMatch {
    type V = MatchView;

    open spec fn view(&self) -> MatchView {
        MatchView {
            person_candidate_id: optional(self.person_candidate_id),
            qdrant_point_id: self.qdrant_point_id@,
            face_observation_id: self.face_observation_id@,
            score: self.score@,
            observed_at: self.observed_at,
            source: self.source@,
            bbox: box_view(self.bbox),
        }
    }
}

impl Clone for FaceMemoryMatch {
    fn clone(&self) -> (r: FaceMemoryMatch)
        ensures
            r@ == self@,
    {
        FaceMemoryMatch {
            person_candidate_id: copy_optional(&self.person_candidate_id),
            qdrant_point_id: self.qdrant_point_id.clone(),
            face_observation_id: self.face_observation_id.clone(),
            score: self.score.clone(),
            observed_at: self.observed_at,
            source: self.source.clone(),
            bbox: copy_box(&self.bbox),
        }
    }
}

/// The matches of a list.
pub open spec fn match_views(list: Seq<FaceMemoryMatch>) -> Seq<MatchView> {
    list.map_values(|m: FaceMemoryMatch| m@)
}

/// Whether a match is what a hit tells, given what is stored with it.
pub open spec fn is_match_of(m: MatchView, h: HitView, p: PayloadView) -> bool {
    m == (MatchView {
        person_candidate_id: p.person_candidate_id,
        qdrant_point_id: h.point_id,
        face_observation_id: p.observation_id,
        score: h.score,
        observed_at: p.observed_at,
        source: p.source,
        bbox: p.bbox,
    })
}

/// Whether a match is what a hit tells.
pub open spec fn is_told_by(m: MatchView, h: HitView) -> bool {
    exists|p: PayloadView| #[trigger] is_payload_in(p, h.payload) && is_match_of(m, h, p)
}

/// Makes a match of a hit; none where what is stored with it is not whole.
pub fn face_match_from_hit(hit: &VectorSearchHit) -> (r: Option<FaceMemoryMatch>)
    ensures
        r matches Some(m) ==> is_told_by(m@, hit@),
        r is Some == holds_payload(hit@.payload),
{
    match FaceVectorPayload::from_qdrant_payload(&hit.payload) {
        Some(payload) => {
            let ghost p = payload@;
            let m = FaceMemoryMatch {
                person_candidate_id: payload.person_candidate_id,
                qdrant_point_id: hit.point_id.clone(),
                face_observation_id: payload.observation_id,
                score: hit.score.clone(),
                observed_at: payload.observed_at,
                source: payload.source,
                bbox: payload.bbox,
            };
            assert(is_match_of(m@, hit@, p));
            Some(m)
        },
        None => None,
    }
}

/// Whether some matches are what some hits tell, those left out whose payload is
/// not whole.
pub open spec fn are_told_by(list: Seq<MatchView>, hits: Seq<HitView>) -> bool
    decreases hits.len(),
{
    if hits.len() == 0 {
        list.len() == 0
    } else if holds_payload(hits.last().payload) {
        list.len() > 0 && is_told_by(list.last(), hits.last()) && are_told_by(
            list.drop_last(),
            hits.drop_last(),
        )
    } else {
        are_told_by(list, hits.drop_last())
    }
}

/// Makes matches of what the store found.
pub fn face_matches(hits: &Vec<VectorSearchHit>) -> (list: Vec<FaceMemoryMatch>)
    ensures
        are_told_by(match_views(list@), hit_views(hits@)),
{
    let ghost all = hit_views(hits@);
    let mut list: Vec<FaceMemoryMatch> = Vec::new();
    let mut i: usize = 0;
    assert(all.take(0) =~= Seq::<HitView>::empty());
    while i < hits.len()
        invariant
            i <= hits@.len(),
            all == hit_views(hits@),
            are_told_by(match_views(list@), all.take(i as int)),
        decreases hits@.len() - i,
    {
        proof {
            assert(all.take(i + 1).drop_last() =~= all.take(i as int));
            assert(all.take(i + 1).last() == hits@[i as int]@);
        }
        let ghost before = match_views(list@);
        match face_match_from_hit(&hits[i]) {
            Some(m) => {
                list.push(m);
                assert(match_views(list@) =~= before.push(m@));
                assert(match_views(list@).drop_last() =~= before);
            },
            None => {},
        }
        i += 1;
    }
    assert(all.take(i as int) =~= all);
    list
}

/// Whom a match may show: the person known, or a new one named after the
/// observation.
pub open spec fn person_of_match(m: MatchView) -> Seq<char> {
    match m.person_candidate_id {
        Some(id) => id,
        None => "person_candidate:"@ + m.face_observation_id,
    }
}

/// Tells whom a match may show.
pub fn person_candidate_id_for(face_match: &FaceMemoryMatch) -> (s: String)
    ensures
        s@ == person_of_match(face_match@),
{
    match &face_match.person_candidate_id {
        Some(id) => id.clone(),
        None => {
            let mut s = "person_candidate:".to_owned();
            s.push_str(face_match.face_observation_id.as_str());
            s
        },
    }
}

/// Whether a match is another face that is alike enough.
pub open spec fn is_candidate(m: MatchView, point_id: Seq<char>, threshold: Seq<char>) -> bool {
    m.qdrant_point_id != point_id && is_at_most_single(threshold, m.score)
}

/// The first match that is another face and alike enough.
pub open spec fn candidate_in(list: Seq<MatchView>, point_id: Seq<char>, threshold: Seq<char>) -> Option<
    MatchView,
>
    decreases list.len(),
{
    if list.len() == 0 {
        None
    } else if is_candidate(list[0], point_id, threshold) {
        Some(list[0])
    } else {
        candidate_in(list.skip(1), point_id, threshold)
    }
}

fn find_candidate(list: &Vec<FaceMemoryMatch>, point_id: &str, threshold: &str) -> (r: Option<
    FaceMemoryMatch,
>)
    ensures
        match candidate_in(match_views(list@), point_id@, threshold@) {
            Some(m) => r matches Some(found) && found@ == m,
            None => r is None,
        },
{
    let ghost all = match_views(list@);
    let mut i: usize = 0;
    assert(all.skip(0) =~= all);
    while i < list.len()
        invariant
            i <= list@.len(),
            all == match_views(list@),
            candidate_in(all, point_id@, threshold@) == candidate_in(
                all.skip(i as int),
                point_id@,
                threshold@,
            ),
        decreases list@.len() - i,
    {
        proof {
            assert(all.skip(i as int)[0] == list@[i as int]@);
            assert(all.skip(i as int).skip(1) =~= all.skip(i + 1));
        }
        if !same(list[i].qdrant_point_id.as_str(), point_id) && at_most_single(
            threshold,
            list[i].score.as_str(),
        ) {
            return Some(list[i].clone());
        }
        i += 1;
    }
    None
}

/// What comes next in remembering a face.
#[derive(Debug, Clone, Copy, PartialEq, Eq, Structural)]
pub enum RememberStep {
    /// To see that there is a collection.
    EnsureCollection,
    /// To see that the graph is in order.
    EnsureConstraints,
    /// To look for faces like it.
    Search,
    /// To store its vector.
    StoreVector,
    /// To store its observation.
    StoreObservation,
    /// To link it to the person that it may show.
    Link,
    /// Nothing: it is remembered.
    Done,
    /// Nothing: it could not be remembered.
    Failed,
}

/// A face that is being remembered.
pub struct Remembering {
    /// What comes next.
    pub step: RememberStep,
    /// The face.
    pub record: FaceVectorRecord,
    /// The faces like it.
    pub matches: Vec<FaceMemoryMatch>,
    /// The face by which it may show somebody.
    pub candidate: Option<FaceMemoryMatch>,
    /// How alike two faces have to be.
    pub threshold: String,
}

/// What a [`Remembering`] is.
pub ghost struct RememberView {
    pub step: RememberStep,
    pub record: FaceRecordView,
    pub matches: Seq<MatchView>,
    pub candidate: Option<MatchView>,
    pub threshold: Seq<char>,
}

/// What an optional match is.
pub open spec fn match_view(m: Option<FaceMemoryMatch>) -> Option<MatchView> {
    match m {
        Some(m) => Some(m@),
        None => None,
    }
}

impl View for Remembering {
    type V = RememberView;

    open spec fn view(&self) -> RememberView {
        RememberView {
            step: self.step,
            record: self.record@,
            matches: match_views(self.matches@),
            candidate: match_view(self.candidate),
            threshold: self.threshold@,
        }
    }
}

/// A face with the person that it may show.
pub open spec fn with_person(r: FaceRecordView, candidate: Option<MatchView>) -> FaceRecordView {
    match candidate {
        Some(m) => FaceRecordView {
            payload: PayloadView { person_candidate_id: Some(person_of_match(m)), ..r.payload },
            ..r
        },
        None => r,
    }
}

/// What comes after a step that went well; a search also found some faces.
pub open spec fn after_step(m: RememberView, found: Seq<MatchView>) -> RememberView {
    match m.step {
        RememberStep::EnsureCollection => RememberView { step: RememberStep::EnsureConstraints, ..m },
        RememberStep::EnsureConstraints => RememberView { step: RememberStep::Search, ..m },
        RememberStep::Search => {
            let candidate = candidate_in(found, m.record.point_id, m.threshold);
            RememberView {
                step: RememberStep::StoreVector,
                record: with_person(m.record, candidate),
                matches: found,
                candidate,
                ..m
            }
        },
        RememberStep::StoreVector => RememberView { step: RememberStep::StoreObservation, ..m },
        RememberStep::StoreObservation => RememberView {
            step: if m.candidate is Some {
                RememberStep::Link
            } else {
                RememberStep::Done
            },
            ..m
        },
        RememberStep::Link => RememberView { step: RememberStep::Done, ..m },
        _ => m,
    }
}

impl Remembering {
    /// Begins to remember a face.
    pub fn new(record: FaceVectorRecord, threshold: &str) -> (r: Remembering)
        ensures
            r@ == (RememberView {
                step: RememberStep::EnsureCollection,
                record: record@,
                matches: Seq::empty(),
                candidate: None,
                threshold: threshold@,
            }),
    {
        let r = Remembering {
            step: RememberStep::EnsureCollection,
            record,
            matches: Vec::new(),
            candidate: None,
            threshold: threshold.to_owned(),
        };
        assert(r@.matches =~= Seq::<MatchView>::empty());
        r
    }

    /// Goes on after a step that went well. What a search found is used; other
    /// steps find nothing.
    pub fn advance(&mut self, found: Vec<FaceMemoryMatch>)
        ensures
            final(self)@ == after_step(old(self)@, match_views(found@)),
    {
        match self.step {
            RememberStep::EnsureCollection => {
                self.step = RememberStep::EnsureConstraints;
            },
            RememberStep::EnsureConstraints => {
                self.step = RememberStep::Search;
            },
            RememberStep::Search => {
                let candidate = find_candidate(
                    &found,
                    self.record.point_id.as_str(),
                    self.threshold.as_str(),
                );
                match &candidate {
                    Some(m) => {
                        self.record.payload.person_candidate_id = Some(person_candidate_id_for(m));
                    },
                    None => {},
                }
                self.candidate = candidate;
                self.matches = found;
                self.step = RememberStep::StoreVector;
            },
            RememberStep::StoreVector => {
                self.step = RememberStep::StoreObservation;
            },
            RememberStep::StoreObservation => {
                self.step = if self.candidate.is_some() {
                    RememberStep::Link
                } else {
                    RememberStep::Done
                };
            },
            RememberStep::Link => {
                self.step = RememberStep::Done;
            },
            _ => {},
        }
    }

    /// Ends after a step that failed.
    pub fn fail(&mut self)
        ensures
            final(self)@ == (RememberView { step: RememberStep::Failed, ..old(self)@ }),
    {
        self.step = RememberStep::Failed;
    }

    /// What links the face to the person that it may show.
    pub fn link(&self) -> (r: Option<CypherStatement>)
        ensures
            match (self@.candidate, self@.record.payload.person_candidate_id) {
                (Some(m), Some(person)) => r matches Some(c) && c@ == (CypherView {
                    statement: LINK_PERSON_STATEMENT@,
                    parameters: link_parameters(
                        self@.record.payload.observation_id,
                        person,
                        m.face_observation_id,
                        m.score,
                    ),
                }),
                _ => r is None,
            },
    {
        match (&self.candidate, &self.record.payload.person_candidate_id) {
            (Some(m), Some(person)) => Some(
                link_person_cypher(
                    self.record.payload.observation_id.as_str(),
                    person.as_str(),
                    m.face_observation_id.as_str(),
                    m.score.as_str(),
                ),
            ),
            _ => None,
        }
    }
}

/// Remembering that failed, or that is done, goes no further.
pub proof fn law_failure_ends_remembering(m: RememberView, found: Seq<MatchView>)
    requires
        m.step is Failed || m.step is Done,
    ensures
        after_step(m, found) == m,
{
}

/// A face is put into the graph only once its vector is stored, and its vector
/// is stored only once faces like it were looked for.
pub proof fn law_observation_follows_its_vector(m: RememberView, found: Seq<MatchView>)
    ensures
        after_step(m, found).step is StoreObservation ==> m.step is StoreVector,
        after_step(m, found).step is StoreVector ==> m.step is Search,
{
}

/// A face is never taken for itself: whoever it may show, another stored face
/// that is alike enough shows.
pub proof fn law_face_is_not_its_own_candidate(
    list: Seq<MatchView>,
    point_id: Seq<char>,
    threshold: Seq<char>,
)
    ensures
        match candidate_in(list, point_id, threshold) {
            Some(m) => list.contains(m) && is_candidate(m, point_id, threshold),
            None => forall|i: int|
                0 <= i < list.len() ==> !is_candidate(#[trigger] list[i], point_id, threshold),
        },
    decreases list.len(),
{
    if list.len() > 0 && !is_candidate(list[0], point_id, threshold) {
        let rest = list.skip(1);
        law_face_is_not_its_own_candidate(rest, point_id, threshold);
        match candidate_in(rest, point_id, threshold) {
            Some(m) => {
                let k = choose|k: int| 0 <= k < rest.len() && rest[k] == m;
                assert(list[k + 1] == m);
            },
            None => {
                assert forall|i: int| 0 <= i < list.len() implies !is_candidate(
                    #[trigger] list[i],
                    point_id,
                    threshold,
                ) by {
                    if i > 0 {
                        assert(rest[i - 1] == list[i]);
                    }
                }
            },
        }
    } else if list.len() > 0 {
        assert(list[0] == candidate_in(list, point_id, threshold)->0);
    }
}

/// The face by which another may show somebody is the first in the list that is
/// another point and alike enough; there is none only where no face of the list
/// is both. Where a list tells the likest faces first, no other face that is alike
/// enough is more alike.
pub proof fn law_candidate_is_the_likest(
    list: Seq<MatchView>,
    point_id: Seq<char>,
    threshold: Seq<char>,
)
    ensures
        match candidate_in(list, point_id, threshold) {
            Some(m) => exists|i: int|
                0 <= i < list.len() && #[trigger] list[i] == m && list[i].qdrant_point_id
                    != point_id && is_at_most_single(threshold, list[i].score) && forall|j: int|
                    0 <= j < i ==> (#[trigger] list[j]).qdrant_point_id == point_id
                        || !is_at_most_single(threshold, list[j].score),
            None => forall|i: int|
                0 <= i < list.len() ==> (#[trigger] list[i]).qdrant_point_id == point_id
                    || !is_at_most_single(threshold, list[i].score),
        },
        (forall|i: int, j: int|
            0 <= i < j < list.len() ==> is_at_most_single(
                (#[trigger] list[j]).score,
                (#[trigger] list[i]).score,
            )) ==> match candidate_in(list, point_id, threshold) {
            Some(m) => forall|j: int|
                0 <= j < list.len() && (#[trigger] list[j]).qdrant_point_id != point_id
                    && is_at_most_single(threshold, list[j].score) ==> is_at_most_single(
                    list[j].score,
                    m.score,
                ),
            None => true,
        },
    decreases list.len(),
{
    if list.len() > 0 && !is_candidate(list[0], point_id, threshold) {
        let rest = list.skip(1);
        law_candidate_is_the_likest(rest, point_id, threshold);
        assert forall|i: int| 1 <= i < list.len() implies #[trigger] list[i] == rest[i - 1] by {}
        match candidate_in(rest, point_id, threshold) {
            Some(m) => {
                let i = choose|i: int|
                    0 <= i < rest.len() && #[trigger] rest[i] == m && rest[i].qdrant_point_id
                        != point_id && is_at_most_single(threshold, rest[i].score) && forall|j: int|
                        0 <= j < i ==> (#[trigger] rest[j]).qdrant_point_id == point_id
                            || !is_at_most_single(threshold, rest[j].score);
                assert(list[i + 1] == m);
                if forall|i: int, j: int|
                    0 <= i < j < list.len() ==> is_at_most_single(
                        (#[trigger] list[j]).score,
                        (#[trigger] list[i]).score,
                    ) {
                    assert forall|i: int, j: int| 0 <= i < j < rest.len() implies is_at_most_single(
                        (#[trigger] rest[j]).score,
                        (#[trigger] rest[i]).score,
                    ) by {
                        assert(rest[i] == list[i + 1] && rest[j] == list[j + 1]);
                    }
                }
            },
            None => {},
        }
    } else if list.len() > 0 {
        assert(list[0] == candidate_in(list, point_id, threshold)->0);
    }
}

/// After the search a face is stored as it was seen, with the person that the
/// first other face that is alike enough shows: the one named with it, or else one
/// named after its observation. Where no face is alike enough, it is stored
/// without a person, and nothing else of it ever changes.
pub proof fn law_search_names_the_person(m: RememberView, found: Seq<MatchView>)
    requires
        m.step is Search,
    ensures
        after_step(m, found).step is StoreVector,
        after_step(m, found).matches == found,
        after_step(m, found).threshold == m.threshold,
        after_step(m, found).record.point_id == m.record.point_id,
        after_step(m, found).record.vector == m.record.vector,
        after_step(m, found).record.payload == (PayloadView {
            person_candidate_id: after_step(m, found).record.payload.person_candidate_id,
            ..m.record.payload
        }),
        (exists|i: int|
            0 <= i < found.len() && (#[trigger] found[i]).qdrant_point_id != m.record.point_id
                && is_at_most_single(m.threshold, found[i].score)) ==> exists|i: int|
            0 <= i < found.len() && (#[trigger] found[i]).qdrant_point_id != m.record.point_id
                && is_at_most_single(m.threshold, found[i].score) && (forall|j: int|
                0 <= j < i ==> (#[trigger] found[j]).qdrant_point_id == m.record.point_id
                    || !is_at_most_single(m.threshold, found[j].score))
                && after_step(m, found).candidate == Some(found[i]) && match (
                found[i].person_candidate_id,
                after_step(m, found).record.payload.person_candidate_id,
            ) {
                (Some(known), Some(person)) => person == known,
                (None, Some(person)) => person == "person_candidate:"@
                    + found[i].face_observation_id,
                (_, None) => false,
            },
        (forall|i: int|
            0 <= i < found.len() ==> (#[trigger] found[i]).qdrant_point_id == m.record.point_id
                || !is_at_most_single(m.threshold, found[i].score)) ==> after_step(
            m,
            found,
        ).candidate is None && after_step(m, found).record == m.record,
{
    law_candidate_is_the_likest(found, m.record.point_id, m.threshold);
    match candidate_in(found, m.record.point_id, m.threshold) {
        Some(c) => {
            let i = choose|i: int|
                0 <= i < found.len() && #[trigger] found[i] == c && found[i].qdrant_point_id
                    != m.record.point_id && is_at_most_single(m.threshold, found[i].score)
                    && forall|j: int|
                    0 <= j < i ==> (#[trigger] found[j]).qdrant_point_id == m.record.point_id
                        || !is_at_most_single(m.threshold, found[j].score);
            assert(found[i] == c);
        },
        None => {},
    }
}

/// Remembering goes through its steps in order, and each once: the collection,
/// the constraints, the search, the vector, the observation, and the link, which
/// is left out where there is no candidate. Only the search changes what is stored.
pub proof fn law_remembering_goes_in_order(
    m: RememberView,
    a: Seq<MatchView>,
    b: Seq<MatchView>,
    found: Seq<MatchView>,
    c: Seq<MatchView>,
    d: Seq<MatchView>,
    e: Seq<MatchView>,
)
    requires
        m.step is EnsureCollection,
    ensures
        ({
            let m1 = after_step(m, a);
            let m2 = after_step(m1, b);
            let m3 = after_step(m2, found);
            let m4 = after_step(m3, c);
            let m5 = after_step(m4, d);
            let m6 = after_step(m5, e);
            &&& m1.step is EnsureConstraints
            &&& m2.step is Search
            &&& m3.step is StoreVector
            &&& m4.step is StoreObservation
            &&& m5.step is Link <==> m3.candidate is Some
            &&& m5.step is Done <==> m3.candidate is None
            &&& m6.step is Done
            &&& m2.record == m.record
            &&& m2.threshold == m.threshold
            &&& m4.record == m3.record && m5.record == m3.record && m6.record == m3.record
            &&& m4.candidate == m3.candidate && m5.candidate == m3.candidate
            &&& m6.candidate == m3.candidate
            &&& m3.candidate is Some ==> m3.record.payload.person_candidate_id is Some
            &&& m6.matches == found
        }),
{
}

/// What links a face to a person names, each under its own name, the face that
/// was seen, the person, the face by which the person was known, and how alike the
/// two are.
pub proof fn law_link_names_both_faces(
    observation_id: Seq<char>,
    person_candidate_id: Seq<char>,
    matched_observation_id: Seq<char>,
    confidence: Seq<char>,
)
    ensures
        ({
            let p = link_parameters(
                observation_id,
                person_candidate_id,
                matched_observation_id,
                confidence,
            );
            &&& field(p, "observation_id"@) == Some(JsonView::Str(observation_id))
            &&& field(p, "person_candidate_id"@) == Some(JsonView::Str(person_candidate_id))
            &&& field(p, "matched_observation_id"@) == Some(JsonView::Str(matched_observation_id))
            &&& field(p, "confidence"@) == Some(JsonView::Number(confidence))
        }),
{
    reveal_strlit("confidence");
    reveal_strlit("matched_observation_id");
    reveal_strlit("observation_id");
    reveal_strlit("person_candidate_id");
    assert("confidence"@.len() == 10);
    assert("matched_observation_id"@.len() == 22);
    assert("observation_id"@.len() == 14);
    assert("person_candidate_id"@.len() == 19);
    let fields = link_parameters(
        observation_id,
        person_candidate_id,
        matched_observation_id,
        confidence,
    )->Object_0;
    lemma_field_at(fields, 0);
    lemma_field_at(fields, 1);
    lemma_field_at(fields, 2);
    lemma_field_at(fields, 3);
}

/// What is stored with the vector of a face holds each of its parts under the
/// part's own name.
pub proof fn law_payload_names_its_parts(p: PayloadView)
    ensures
        ({
            let v = payload_json(p);
            &&& field(v, "observation_id"@) == Some(JsonView::Str(p.observation_id))
            &&& field(v, "frame_id"@) == Some(JsonView::Str(p.frame_id))
            &&& field(v, "source_sensation_id"@) == Some(JsonView::Str(p.source_sensation_id))
            &&& field(v, "source"@) == Some(JsonView::Str(p.source))
            &&& field(v, "detector_model"@) == Some(JsonView::Str(p.detector_model))
            &&& field(v, "embedding_model"@) == Some(JsonView::Str(p.embedding_model))
            &&& field(v, "embedding_dim"@) == Some(
                JsonView::Number(decimal(p.embedding_dim as nat)),
            )
            &&& field(v, "quality"@) == Some(JsonView::Number(p.quality))
            &&& field(v, "observed_at"@) == Some(JsonView::Str(p.observed_at.spec_zulu()))
            &&& match p.person_candidate_id {
                Some(id) => field(v, "person_candidate_id"@) == Some(JsonView::Str(id)),
                None => field(v, "person_candidate_id"@) == Some(JsonView::Null),
            }
            &&& match p.impression_id {
                Some(id) => field(v, "impression_id"@) == Some(JsonView::Str(id)),
                None => field(v, "impression_id"@) == Some(JsonView::Null),
            }
            &&& match p.bbox {
                Some(b) => match field(v, "bbox"@) {
                    Some(w) => {
                        &&& field(w, "x1"@) == Some(JsonView::Number(b.x1))
                        &&& field(w, "y1"@) == Some(JsonView::Number(b.y1))
                        &&& field(w, "x2"@) == Some(JsonView::Number(b.x2))
                        &&& field(w, "y2"@) == Some(JsonView::Number(b.y2))
                    },
                    None => false,
                },
                None => field(v, "bbox"@) == Some(JsonView::Null),
            }
        }),
{
    lemma_part_at(p, 0);
    lemma_part_at(p, 1);
    lemma_part_at(p, 2);
    lemma_part_at(p, 3);
    lemma_part_at(p, 4);
    lemma_part_at(p, 5);
    lemma_part_at(p, 7);
    lemma_part_at(p, 8);
    lemma_part_at(p, 9);
    lemma_part_at(p, 10);
    lemma_part_at(p, 11);
    lemma_part_at(p, 12);
    if let Some(b) = p.bbox {
        lemma_box_reads_back(b);
        let fields = box_json(b)->Object_0;
        reveal_strlit("x1");
        reveal_strlit("x2");
        reveal_strlit("y1");
        reveal_strlit("y2");
        assert("x1"@[1] != "x2"@[1]);
        assert("x1"@[0] != "y1"@[0]);
        assert("x1"@[0] != "y2"@[0]);
        assert("x2"@[0] != "y1"@[0]);
        assert("x2"@[0] != "y2"@[0]);
        assert("y1"@[1] != "y2"@[1]);
        lemma_field_at(fields, 0);
        lemma_field_at(fields, 1);
        lemma_field_at(fields, 2);
        lemma_field_at(fields, 3);
    }
}

/// The matches that hits tell are as many as the hits whose payload is whole, in
/// their order, and each has the point and the likeness of its hit.
pub proof fn law_matches_follow_their_hits(list: Seq<MatchView>, hits: Seq<HitView>)
    requires
        are_told_by(list, hits),
    ensures
        list.len() == hits.filter(|h: HitView| holds_payload(h.payload)).len(),
        forall|i: int|
            0 <= i < list.len() ==> {
                let h = hits.filter(|h: HitView| holds_payload(h.payload))[i];
                &&& (#[trigger] list[i]).qdrant_point_id == h.point_id
                &&& list[i].score == h.score
                &&& field(h.payload, "observation_id"@) == Some(
                    JsonView::Str(list[i].face_observation_id),
                )
                &&& field(h.payload, "source"@) == Some(JsonView::Str(list[i].source))
                &&& list[i].person_candidate_id matches Some(person) ==> field(
                    h.payload,
                    "person_candidate_id"@,
                ) == Some(JsonView::Str(person))
            },
    decreases hits.len(),
{
    reveal(Seq::filter);
    let whole = |h: HitView| holds_payload(h.payload);
    if hits.len() > 0 {
        if holds_payload(hits.last().payload) {
            law_matches_follow_their_hits(list.drop_last(), hits.drop_last());
            assert(hits.filter(whole) == hits.drop_last().filter(whole).push(hits.last()));
            assert forall|i: int| 0 <= i < list.len() implies {
                let h = hits.filter(whole)[i];
                &&& (#[trigger] list[i]).qdrant_point_id == h.point_id
                &&& list[i].score == h.score
                &&& field(h.payload, "observation_id"@) == Some(
                    JsonView::Str(list[i].face_observation_id),
                )
                &&& field(h.payload, "source"@) == Some(JsonView::Str(list[i].source))
                &&& list[i].person_candidate_id matches Some(person) ==> field(
                    h.payload,
                    "person_candidate_id"@,
                ) == Some(JsonView::Str(person))
            } by {
                if i < list.len() - 1 {
                    assert(list.drop_last()[i] == list[i]);
                }
            }
        } else {
            law_matches_follow_their_hits(list, hits.drop_last());
        }
    }
}

/// The names are all different.
proof fn lemma_observation_names()
    ensures
        "bbox_json"@ != "collection"@,
        "bbox_json"@ != "confidence"@,
        "collection"@ != "confidence"@,
        "bbox_json"@ != "embedding_dim"@,
        "collection"@ != "embedding_dim"@,
        "confidence"@ != "embedding_dim"@,
        "bbox_json"@ != "embedding_model"@,
        "collection"@ != "embedding_model"@,
        "confidence"@ != "embedding_model"@,
        "embedding_dim"@ != "embedding_model"@,
        "bbox_json"@ != "frame_id"@,
        "collection"@ != "frame_id"@,
        "confidence"@ != "frame_id"@,
        "embedding_dim"@ != "frame_id"@,
        "embedding_model"@ != "frame_id"@,
        "bbox_json"@ != "landmarks_json"@,
        "collection"@ != "landmarks_json"@,
        "confidence"@ != "landmarks_json"@,
        "embedding_dim"@ != "landmarks_json"@,
        "embedding_model"@ != "landmarks_json"@,
        "frame_id"@ != "landmarks_json"@,
        "bbox_json"@ != "observation_id"@,
        "collection"@ != "observation_id"@,
        "confidence"@ != "observation_id"@,
        "embedding_dim"@ != "observation_id"@,
        "embedding_model"@ != "observation_id"@,
        "frame_id"@ != "observation_id"@,
        "landmarks_json"@ != "observation_id"@,
        "bbox_json"@ != "observed_at"@,
        "collection"@ != "observed_at"@,
        "confidence"@ != "observed_at"@,
        "embedding_dim"@ != "observed_at"@,
        "embedding_model"@ != "observed_at"@,
        "frame_id"@ != "observed_at"@,
        "landmarks_json"@ != "observed_at"@,
        "observation_id"@ != "observed_at"@,
        "bbox_json"@ != "qdrant_point_id"@,
        "collection"@ != "qdrant_point_id"@,
        "confidence"@ != "qdrant_point_id"@,
        "embedding_dim"@ != "qdrant_point_id"@,
        "embedding_model"@ != "qdrant_point_id"@,
        "frame_id"@ != "qdrant_point_id"@,
        "landmarks_json"@ != "qdrant_point_id"@,
        "observation_id"@ != "qdrant_point_id"@,
        "observed_at"@ != "qdrant_point_id"@,
        "bbox_json"@ != "source"@,
        "collection"@ != "source"@,
        "confidence"@ != "source"@,
        "embedding_dim"@ != "source"@,
        "embedding_model"@ != "source"@,
        "frame_id"@ != "source"@,
        "landmarks_json"@ != "source"@,
        "observation_id"@ != "source"@,
        "observed_at"@ != "source"@,
        "qdrant_point_id"@ != "source"@,
        "bbox_json"@ != "source_sensation_id"@,
        "collection"@ != "source_sensation_id"@,
        "confidence"@ != "source_sensation_id"@,
        "embedding_dim"@ != "source_sensation_id"@,
        "embedding_model"@ != "source_sensation_id"@,
        "frame_id"@ != "source_sensation_id"@,
        "landmarks_json"@ != "source_sensation_id"@,
        "observation_id"@ != "source_sensation_id"@,
        "observed_at"@ != "source_sensation_id"@,
        "qdrant_point_id"@ != "source_sensation_id"@,
        "source"@ != "source_sensation_id"@,
{
    reveal_strlit("bbox_json");
    reveal_strlit("collection");
    reveal_strlit("confidence");
    reveal_strlit("embedding_dim");
    reveal_strlit("embedding_model");
    reveal_strlit("frame_id");
    reveal_strlit("landmarks_json");
    reveal_strlit("observation_id");
    reveal_strlit("observed_at");
    reveal_strlit("qdrant_point_id");
    reveal_strlit("source");
    reveal_strlit("source_sensation_id");
    assert("bbox_json"@.len() != "collection"@.len());
    assert("bbox_json"@.len() != "confidence"@.len());
    assert("collection"@[2] != "confidence"@[2]);
    assert("bbox_json"@.len() != "embedding_dim"@.len());
    assert("collection"@.len() != "embedding_dim"@.len());
    assert("confidence"@.len() != "embedding_dim"@.len());
    assert("bbox_json"@.len() != "embedding_model"@.len());
    assert("collection"@.len() != "embedding_model"@.len());
    assert("confidence"@.len() != "embedding_model"@.len());
    assert("embedding_dim"@.len() != "embedding_model"@.len());
    assert("bbox_json"@.len() != "frame_id"@.len());
    assert("collection"@.len() != "frame_id"@.len());
    assert("confidence"@.len() != "frame_id"@.len());
    assert("embedding_dim"@.len() != "frame_id"@.len());
    assert("embedding_model"@.len() != "frame_id"@.len());
    assert("bbox_json"@.len() != "landmarks_json"@.len());
    assert("collection"@.len() != "landmarks_json"@.len());
    assert("confidence"@.len() != "landmarks_json"@.len());
    assert("embedding_dim"@.len() != "landmarks_json"@.len());
    assert("embedding_model"@.len() != "landmarks_json"@.len());
    assert("frame_id"@.len() != "landmarks_json"@.len());
    assert("bbox_json"@.len() != "observation_id"@.len());
    assert("collection"@.len() != "observation_id"@.len());
    assert("confidence"@.len() != "observation_id"@.len());
    assert("embedding_dim"@.len() != "observation_id"@.len());
    assert("embedding_model"@.len() != "observation_id"@.len());
    assert("frame_id"@.len() != "observation_id"@.len());
    assert("landmarks_json"@[0] != "observation_id"@[0]);
    assert("bbox_json"@.len() != "observed_at"@.len());
    assert("collection"@.len() != "observed_at"@.len());
    assert("confidence"@.len() != "observed_at"@.len());
    assert("embedding_dim"@.len() != "observed_at"@.len());
    assert("embedding_model"@.len() != "observed_at"@.len());
    assert("frame_id"@.len() != "observed_at"@.len());
    assert("landmarks_json"@.len() != "observed_at"@.len());
    assert("observation_id"@.len() != "observed_at"@.len());
    assert("bbox_json"@.len() != "qdrant_point_id"@.len());
    assert("collection"@.len() != "qdrant_point_id"@.len());
    assert("confidence"@.len() != "qdrant_point_id"@.len());
    assert("embedding_dim"@.len() != "qdrant_point_id"@.len());
    assert("embedding_model"@[0] != "qdrant_point_id"@[0]);
    assert("frame_id"@.len() != "qdrant_point_id"@.len());
    assert("landmarks_json"@.len() != "qdrant_point_id"@.len());
    assert("observation_id"@.len() != "qdrant_point_id"@.len());
    assert("observed_at"@.len() != "qdrant_point_id"@.len());
    assert("bbox_json"@.len() != "source"@.len());
    assert("collection"@.len() != "source"@.len());
    assert("confidence"@.len() != "source"@.len());
    assert("embedding_dim"@.len() != "source"@.len());
    assert("embedding_model"@.len() != "source"@.len());
    assert("frame_id"@.len() != "source"@.len());
    assert("landmarks_json"@.len() != "source"@.len());
    assert("observation_id"@.len() != "source"@.len());
    assert("observed_at"@.len() != "source"@.len());
    assert("qdrant_point_id"@.len() != "source"@.len());
    assert("bbox_json"@.len() != "source_sensation_id"@.len());
    assert("collection"@.len() != "source_sensation_id"@.len());
    assert("confidence"@.len() != "source_sensation_id"@.len());
    assert("embedding_dim"@.len() != "source_sensation_id"@.len());
    assert("embedding_model"@.len() != "source_sensation_id"@.len());
    assert("frame_id"@.len() != "source_sensation_id"@.len());
    assert("landmarks_json"@.len() != "source_sensation_id"@.len());
    assert("observation_id"@.len() != "source_sensation_id"@.len());
    assert("observed_at"@.len() != "source_sensation_id"@.len());
    assert("qdrant_point_id"@.len() != "source_sensation_id"@.len());
    assert("source"@.len() != "source_sensation_id"@.len());
}

/// The names are all different.
proof fn lemma_store_names()
    ensures
        "id"@ != "payload"@,
        "id"@ != "vector"@,
        "payload"@ != "vector"@,
        "id"@ != "points"@,
        "payload"@ != "points"@,
        "vector"@ != "points"@,
        "id"@ != "limit"@,
        "payload"@ != "limit"@,
        "vector"@ != "limit"@,
        "points"@ != "limit"@,
        "id"@ != "score_threshold"@,
        "payload"@ != "score_threshold"@,
        "vector"@ != "score_threshold"@,
        "points"@ != "score_threshold"@,
        "limit"@ != "score_threshold"@,
        "id"@ != "with_payload"@,
        "payload"@ != "with_payload"@,
        "vector"@ != "with_payload"@,
        "points"@ != "with_payload"@,
        "limit"@ != "with_payload"@,
        "score_threshold"@ != "with_payload"@,
        "id"@ != "vectors"@,
        "payload"@ != "vectors"@,
        "vector"@ != "vectors"@,
        "points"@ != "vectors"@,
        "limit"@ != "vectors"@,
        "score_threshold"@ != "vectors"@,
        "with_payload"@ != "vectors"@,
        "id"@ != "distance"@,
        "payload"@ != "distance"@,
        "vector"@ != "distance"@,
        "points"@ != "distance"@,
        "limit"@ != "distance"@,
        "score_threshold"@ != "distance"@,
        "with_payload"@ != "distance"@,
        "vectors"@ != "distance"@,
        "id"@ != "size"@,
        "payload"@ != "size"@,
        "vector"@ != "size"@,
        "points"@ != "size"@,
        "limit"@ != "size"@,
        "score_threshold"@ != "size"@,
        "with_payload"@ != "size"@,
        "vectors"@ != "size"@,
        "distance"@ != "size"@,
{
    reveal_strlit("id");
    reveal_strlit("payload");
    reveal_strlit("vector");
    reveal_strlit("points");
    reveal_strlit("limit");
    reveal_strlit("score_threshold");
    reveal_strlit("with_payload");
    reveal_strlit("vectors");
    reveal_strlit("distance");
    reveal_strlit("size");
    assert("id"@.len() != "payload"@.len());
    assert("id"@.len() != "vector"@.len());
    assert("payload"@.len() != "vector"@.len());
    assert("id"@.len() != "points"@.len());
    assert("payload"@.len() != "points"@.len());
    assert("vector"@[0] != "points"@[0]);
    assert("id"@.len() != "limit"@.len());
    assert("payload"@.len() != "limit"@.len());
    assert("vector"@.len() != "limit"@.len());
    assert("points"@.len() != "limit"@.len());
    assert("id"@.len() != "score_threshold"@.len());
    assert("payload"@.len() != "score_threshold"@.len());
    assert("vector"@.len() != "score_threshold"@.len());
    assert("points"@.len() != "score_threshold"@.len());
    assert("limit"@.len() != "score_threshold"@.len());
    assert("id"@.len() != "with_payload"@.len());
    assert("payload"@.len() != "with_payload"@.len());
    assert("vector"@.len() != "with_payload"@.len());
    assert("points"@.len() != "with_payload"@.len());
    assert("limit"@.len() != "with_payload"@.len());
    assert("score_threshold"@.len() != "with_payload"@.len());
    assert("id"@.len() != "vectors"@.len());
    assert("payload"@[0] != "vectors"@[0]);
    assert("vector"@.len() != "vectors"@.len());
    assert("points"@.len() != "vectors"@.len());
    assert("limit"@.len() != "vectors"@.len());
    assert("score_threshold"@.len() != "vectors"@.len());
    assert("with_payload"@.len() != "vectors"@.len());
    assert("id"@.len() != "distance"@.len());
    assert("payload"@.len() != "distance"@.len());
    assert("vector"@.len() != "distance"@.len());
    assert("points"@.len() != "distance"@.len());
    assert("limit"@.len() != "distance"@.len());
    assert("score_threshold"@.len() != "distance"@.len());
    assert("with_payload"@.len() != "distance"@.len());
    assert("vectors"@.len() != "distance"@.len());
    assert("id"@.len() != "size"@.len());
    assert("payload"@.len() != "size"@.len());
    assert("vector"@.len() != "size"@.len());
    assert("points"@.len() != "size"@.len());
    assert("limit"@.len() != "size"@.len());
    assert("score_threshold"@.len() != "size"@.len());
    assert("with_payload"@.len() != "size"@.len());
    assert("vectors"@.len() != "size"@.len());
    assert("distance"@.len() != "size"@.len());
}

/// What puts a face into the store names one point, with its identifier, what is
/// known of it and its vector, number by number.
pub proof fn law_store_is_told_the_face(r: FaceRecordView)
    ensures
        field(upsert_body(r), "points"@) matches Some(JsonView::Array(points)) && {
            &&& points.len() == 1
            &&& field(points[0], "id"@) == Some(JsonView::Str(r.point_id))
            &&& field(points[0], "payload"@) == Some(payload_json(r.payload))
            &&& field(points[0], "vector"@) matches Some(JsonView::Array(numbers)) && {
                &&& numbers.len() == r.vector.len()
                &&& forall|i: int|
                    0 <= i < numbers.len() ==> (#[trigger] numbers[i]) == JsonView::Number(
                        r.vector[i],
                    )
            }
        },
{
    lemma_store_names();
    let outer = upsert_body(r)->Object_0;
    lemma_field_at(outer, 0);
    let inner = outer[0].value->Array_0[0]->Object_0;
    lemma_field_at(inner, 0);
    lemma_field_at(inner, 1);
    lemma_field_at(inner, 2);
}

/// What looks for faces asks for one at least, and for as many as wanted, gives the
/// vector number by number, asks for what is known of each, and names the least
/// likeness just where there is one.
pub proof fn law_store_is_asked_for_like_faces(
    vector: Seq<Seq<char>>,
    limit: usize,
    threshold: Option<Seq<char>>,
)
    ensures
        ({
            let v = search_body(vector, limit, threshold);
            &&& limit > 0 ==> field(v, "limit"@) == Some(JsonView::Number(decimal(limit as nat)))
            &&& limit == 0 ==> field(v, "limit"@) == Some(JsonView::Number(decimal(1)))
            &&& field(v, "with_payload"@) == Some(JsonView::Bool(true))
            &&& threshold matches Some(t) ==> field(v, "score_threshold"@) == Some(
                JsonView::Number(t),
            )
            &&& threshold is None ==> field(v, "score_threshold"@) is None
            &&& field(v, "vector"@) matches Some(JsonView::Array(numbers)) && {
                &&& numbers.len() == vector.len()
                &&& forall|i: int|
                    0 <= i < numbers.len() ==> (#[trigger] numbers[i]) == JsonView::Number(
                        vector[i],
                    )
            }
        }),
{
    lemma_store_names();
    let fields = search_body(vector, limit, threshold)->Object_0;
    lemma_field_at(fields, 0);
    lemma_field_at(fields, 1);
    lemma_field_at(fields, 2);
    if threshold is Some {
        lemma_field_at(fields, 3);
    } else {
        lemma_no_field(fields, "score_threshold"@);
    }
}

/// A name that no field has is not found.
proof fn lemma_no_field(fields: Seq<FieldView>, key: Seq<char>)
    requires
        forall|i: int| 0 <= i < fields.len() ==> (#[trigger] fields[i]).name != key,
    ensures
        field_in(fields, key) is None,
    decreases fields.len(),
{
    if fields.len() > 0 {
        let rest = fields.drop_first();
        assert forall|i: int| 0 <= i < rest.len() implies (#[trigger] rest[i]).name != key by {
            assert(rest[i] == fields[i + 1]);
        }
        assert(fields[0].name != key);
        lemma_no_field(rest, key);
    }
}

/// A collection is made for vectors of its size, and compares them by their angle.
pub proof fn law_collection_is_made_for_its_vectors(vector_size: usize)
    ensures
        field(collection_body(vector_size), "vectors"@) matches Some(v) && {
            &&& field(v, "size"@) == Some(JsonView::Number(decimal(vector_size as nat)))
            &&& field(v, "distance"@) == Some(JsonView::Str("Cosine"@))
        },
{
    lemma_store_names();
    let outer = collection_body(vector_size)->Object_0;
    lemma_field_at(outer, 0);
    let inner = outer[0].value->Object_0;
    lemma_field_at(inner, 0);
    lemma_field_at(inner, 1);
}

/// A collection of which the store tells the size is kept where this is the size
/// wanted, and made anew where it is another; one that is not there is made, and
/// on any other answer the store has failed.
pub proof fn law_collection_is_kept_for_its_size(
    answer: JsonView,
    result: JsonView,
    config: JsonView,
    params: JsonView,
    vectors: JsonView,
    size: usize,
    wanted: usize,
    status: u16,
)
    requires
        field(answer, "result"@) == Some(result),
        field(result, "config"@) == Some(config),
        field(config, "params"@) == Some(params),
        field(params, "vectors"@) == Some(vectors),
        field(vectors, "size"@) == Some(JsonView::Number(decimal(size as nat))),
    ensures
        vector_size_in(answer) == Some(size),
        200 <= status < 300 ==> {
            &&& size == wanted ==> collection_step(status, vector_size_in(answer), wanted) is Keep
            &&& size != wanted ==> collection_step(status, vector_size_in(answer), wanted) is Recreate
        },
        collection_step(404, None, wanted) is Create,
        status != 404 && (status < 200 || 300 <= status) ==> collection_step(
            status,
            None,
            wanted,
        ) is Fail,
{
    let path = seq!["result"@, "config"@, "params"@, "vectors"@];
    assert(path.drop_last() =~= seq!["result"@, "config"@, "params"@]);
    assert(path.drop_last().drop_last() =~= seq!["result"@, "config"@]);
    assert(path.drop_last().drop_last().drop_last() =~= seq!["result"@]);
    assert(path.drop_last().drop_last().drop_last().drop_last() =~= Seq::<Seq<char>>::empty());
    reveal_with_fuel(under, 5);
    assert(under(answer, path) == Some(vectors));
    lemma_decimal_reads_back(size as nat);
}

/// The results of a search are read one by one, in order, each with its identifier,
/// its likeness and what is known of it.
pub proof fn law_results_are_read_in_order(items: Seq<JsonView>, hits: Seq<HitView>)
    requires
        hits.len() == items.len(),
        forall|i: int|
            0 <= i < items.len() ==> {
                &&& field(#[trigger] items[i], "id"@) == Some(JsonView::Str(hits[i].point_id))
                &&& field(items[i], "score"@) == Some(JsonView::Number(hits[i].score))
                &&& field(items[i], "payload"@) == Some(hits[i].payload)
            },
    ensures
        hits_in(items) == Ok::<Seq<HitView>, Seq<char>>(hits),
        forall|v: JsonView| field(v, "result"@) == Some(JsonView::Array(items)) ==> #[trigger]
            search_hits(v) == Ok::<Seq<HitView>, Seq<char>>(hits),
    decreases items.len(),
{
    if items.len() > 0 {
        let front = items.drop_last();
        let known = hits.drop_last();
        assert forall|i: int| 0 <= i < front.len() implies {
            &&& field(#[trigger] front[i], "id"@) == Some(JsonView::Str(known[i].point_id))
            &&& field(front[i], "score"@) == Some(JsonView::Number(known[i].score))
            &&& field(front[i], "payload"@) == Some(known[i].payload)
        } by {
            assert(front[i] == items[i] && known[i] == hits[i]);
        }
        law_results_are_read_in_order(front, known);
        assert(items[items.len() - 1] == items.last());
        assert(hit_in(items.last()) == Ok::<HitView, Seq<char>>(hits.last()));
        assert(known.push(hits.last()) =~= hits);
    } else {
        assert(hits =~= Seq::empty());
    }
}

/// The graph is told of a face under the names of its parts.
pub proof fn law_graph_is_told_the_face(
    collection: Seq<char>,
    r: FaceRecordView,
    bbox_json: Option<Seq<char>>,
    landmarks_text: Option<Seq<char>>,
)
    ensures
        ({
            let v = observation_parameters(collection, r, bbox_json, landmarks_text);
            &&& field(v, "collection"@) == Some(JsonView::Str(collection))
            &&& field(v, "confidence"@) == Some(JsonView::Number(r.payload.quality))
            &&& r.payload.embedding_dim <= i64::MAX ==> field(v, "embedding_dim"@) == Some(
                JsonView::Number(decimal(r.payload.embedding_dim as nat)),
            )
            &&& field(v, "embedding_model"@) == Some(JsonView::Str(r.payload.embedding_model))
            &&& field(v, "frame_id"@) == Some(JsonView::Str(r.payload.frame_id))
            &&& field(v, "observation_id"@) == Some(JsonView::Str(r.payload.observation_id))
            &&& field(v, "observed_at"@) == Some(JsonView::Str(r.payload.observed_at.spec_rfc3339()))
            &&& field(v, "qdrant_point_id"@) == Some(JsonView::Str(r.point_id))
            &&& field(v, "source"@) == Some(JsonView::Str(r.payload.source))
            &&& field(v, "source_sensation_id"@) == Some(
                JsonView::Str(r.payload.source_sensation_id),
            )
            &&& bbox_json matches Some(b) ==> field(v, "bbox_json"@) == Some(JsonView::Str(b))
            &&& bbox_json is None ==> field(v, "bbox_json"@) == Some(JsonView::Null)
            &&& landmarks_text matches Some(l) ==> field(v, "landmarks_json"@) == Some(
                JsonView::Str(l),
            )
            &&& landmarks_text is None ==> field(v, "landmarks_json"@) == Some(JsonView::Null)
        }),
{
    lemma_observation_names();
    let fields = observation_parameters(collection, r, bbox_json, landmarks_text)->Object_0;
    lemma_field_at(fields, 0);
    lemma_field_at(fields, 1);
    lemma_field_at(fields, 2);
    lemma_field_at(fields, 3);
    lemma_field_at(fields, 4);
    lemma_field_at(fields, 5);
    lemma_field_at(fields, 6);
    lemma_field_at(fields, 7);
    lemma_field_at(fields, 8);
    lemma_field_at(fields, 9);
    lemma_field_at(fields, 10);
    lemma_field_at(fields, 11);
}

/// Statements for a graph that is addressed by the binary protocol go to the same
/// host over HTTP, whatever the port; those for any other go below its address, be
/// there a slash at its end or not.
pub proof fn law_statements_go_to_the_host(host: Seq<char>, port: Seq<char>)
    requires
        host.len() > 0,
        host.last() != '/',
        forall|i: int| 0 <= i < host.len() ==> #[trigger] host[i] != ':',
        forall|i: int| 0 <= i < port.len() ==> #[trigger] port[i] != ':',
    ensures
        statements_url("bolt://"@ + host + ":"@ + port) == "http://"@ + host
            + ":7474/db/neo4j/tx/commit"@,
        statements_url("http://"@ + host) == "http://"@ + host + "/db/neo4j/tx/commit"@,
        statements_url("http://"@ + host + "/"@) == "http://"@ + host + "/db/neo4j/tx/commit"@,
{
    reveal_strlit("bolt://");
    reveal_strlit("http://");
    reveal_strlit(":");
    reveal_strlit("/");
    let bolt = "bolt://"@ + host + ":"@ + port;
    assert(bolt.subrange(0, 7) =~= "bolt://"@);
    let rest = bolt.skip(7);
    assert(rest =~= host + ":"@ + port);
    lemma_last_place(rest, ':', host.len() as int);
    assert(rest.take(host.len() as int) =~= host);
    let plain = "http://"@ + host;
    if starts(plain, "bolt://"@) {
        assert(plain.subrange(0, 7)[0] == "bolt://"@[0]);
    }
    if ends(plain, "/"@) {
        assert(plain.subrange(plain.len() - 1, plain.len() as int)[0] == "/"@[0]);
        assert(plain.last() == host.last());
    }
    let closed = plain + "/"@;
    if starts(closed, "bolt://"@) {
        assert(closed.subrange(0, 7)[0] == "bolt://"@[0]);
    }
    assert(closed.subrange(closed.len() - 1, closed.len() as int) =~= "/"@);
    assert(closed.drop_last() =~= plain);
}

/// One slash stands between the address of the store and a path in it, whether
/// the address ends with one, the path begins with one, both or neither.
pub proof fn law_one_slash_stands_before_the_path(url: Seq<char>, path: Seq<char>)
    requires
        url.len() > 0 && url.last() != '/',
        path.len() > 0 && path[0] != '/',
    ensures
        endpoint_of(url, path) == url + "/"@ + path,
        endpoint_of(url + "/"@, path) == url + "/"@ + path,
        endpoint_of(url, "/"@ + path) == url + "/"@ + path,
        endpoint_of(url + "/"@, "/"@ + path) == url + "/"@ + path,
{
    reveal_strlit("/");
    assert((url + "/"@).drop_last() =~= url);
    assert(("/"@ + path).drop_first() =~= path);
    reveal_with_fuel(trimmed_end_of, 2);
    reveal_with_fuel(trimmed_start_of, 2);
}

/// Settings that are made are taken as they are; the password is looked for under
/// its first name first, and a blank one is none.
pub proof fn law_settings_are_taken(s: SettingsView)
    ensures
        s.qdrant_url matches Some(v) ==> config_in(s).qdrant_url == v,
        s.qdrant_collection_faces matches Some(v) ==> config_in(s).qdrant_collection_faces == v,
        s.neo4j_uri matches Some(v) ==> config_in(s).neo4j_uri == v,
        s.neo4j_user matches Some(v) ==> config_in(s).neo4j_user == v,
        s.face_match_threshold matches Some(v) ==> config_in(s).face_match_threshold == v,
        s.neo4j_password matches Some(v) ==> config_in(s).neo4j_password == (if is_blank(v) {
            None
        } else {
            Some(v)
        }),
        s.neo4j_password is None ==> match s.neo4j_pass {
            Some(v) => config_in(s).neo4j_password == (if is_blank(v) {
                None
            } else {
                Some(v)
            }),
            None => config_in(s).neo4j_password is None,
        },
        s.backend is None ==> settings_fault(s) is None && config_in(s).backend is Disabled,
{
    reveal_strlit("disabled");
    let name = "disabled"@;
    lemma_trimmed_noop(name, CharClass::WhiteSpace);
    assert(lowered(name) =~= name);
}

} // verus!
