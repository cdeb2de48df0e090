//! Accepting frames and positions from a browser.

use std::collections::VecDeque;
use vstd::prelude::*;

use crate::digest::{byte_len, sha256_text, text_bytes, text_digest};
use crate::ident::fresh_id;
use crate::impression::Confidence;
use crate::json::{
    field, json_text, lemma_field_at, named, parse, parsed, unsigned_field, Fields, Json, JsonView,
};
use crate::logs::{logged, push_limited, MAX_RECORDED_RAW_VISION_FRAMES, MAX_RECORDED_SENSATIONS};
use crate::messages::{
    AckMessage, AckView, ErrorMessage, ErrorView, FrameMessage, FrameMessageView,
    ImpressionRecordView, LocationMessage, LocationMessageView, MediaRecord, MediaView,
    RawVisionFrame, RawVisionFrameView, SensationRecord, SensationRecordView, SensationSource,
    SourceView, VisionImpressionRecord,
};
use crate::number::{at_most, fixed, fixed_text, is_at_most};
use crate::sensation::{Provenance, ProvenanceView};
use crate::text::{blank, is_blank, optional, same, starts, starts_with};
use crate::time::Timestamp;

verus! {

/// The channel of frames.
pub const VISION_CHANNEL: &'static str = "vision";

/// The channel of positions.
pub const LOCATION_CHANNEL: &'static str = "location";

/// The channel of sound.
pub const ASR_CHANNEL: &'static str = "asr";

/// How sure a position is.
pub const LOCATION_BASE_CONFIDENCE: &'static str = "0.8199999928474426";

/// How a message for another faculty is refused.
pub open spec fn mismatch(faculty: Seq<char>, socket: Seq<char>) -> Seq<char> {
    "faculty '"@ + faculty + "' does not match socket '"@ + socket + "'"@
}

/// What is wrong with who sent a message of a kind.
pub open spec fn sender_fault(
    socket: Seq<char>,
    wanted: Seq<char>,
    complaint: Seq<char>,
    kind: Seq<char>,
    client_id: Seq<char>,
    sensor_id: Seq<char>,
    faculty: Seq<char>,
) -> Option<Seq<char>> {
    if kind != wanted {
        Some(complaint)
    } else if is_blank(client_id) {
        Some("missing client_id"@)
    } else if is_blank(sensor_id) {
        Some("missing sensor_id"@)
    } else if faculty != socket {
        Some(mismatch(faculty, socket))
    } else {
        None
    }
}

/// What is wrong with a frame.
pub open spec fn frame_fault(socket: Seq<char>, m: FrameMessageView) -> Option<Seq<char>> {
    match sender_fault(
        socket,
        "vision.frame"@,
        "kind must be vision.frame"@,
        m.kind,
        m.client_id,
        m.sensor_id,
        m.faculty,
    ) {
        Some(fault) => Some(fault),
        None => if m.mime != "image/jpeg"@ && m.mime != "image/webp"@ {
            Some("mime must be image/jpeg or image/webp"@)
        } else if m.width == 0 {
            Some("missing width"@)
        } else if m.height == 0 {
            Some("missing height"@)
        } else if is_blank(m.data) {
            Some("missing data"@)
        } else if !starts(m.data, "data:image/"@) {
            Some("data must be a data URL"@)
        } else {
            None
        },
    }
}

pub(crate) fn check_sender(
    socket: &str,
    wanted: &str,
    complaint: &str,
    kind: &str,
    client_id: &str,
    sensor_id: &str,
    faculty: &str,
) -> (r: Result<(), String>)
    ensures
        match sender_fault(socket@, wanted@, complaint@, kind@, client_id@, sensor_id@, faculty@) {
            Some(fault) => r matches Err(e) && e@ == fault,
            None => r is Ok,
        },
{
    if !same(kind, wanted) {
        return Err(complaint.to_owned());
    }
    if blank(client_id) {
        return Err("missing client_id".to_owned());
    }
    if blank(sensor_id) {
        return Err("missing sensor_id".to_owned());
    }
    if !same(faculty, socket) {
        let mut e = "faculty '".to_owned();
        e.push_str(faculty);
        e.push_str("' does not match socket '");
        e.push_str(socket);
        e.push_str("'");
        return Err(e);
    }
    Ok(())
}

/// Checks a frame.
pub fn validate_frame(socket_faculty: &str, frame: &FrameMessage) -> (r: Result<(), String>)
    ensures
        match frame_fault(socket_faculty@, frame@) {
            Some(fault) => r matches Err(e) && e@ == fault,
            None => r is Ok,
        },
{
    match check_sender(
        socket_faculty,
        "vision.frame",
        "kind must be vision.frame",
        frame.kind.as_str(),
        frame.client_id.as_str(),
        frame.sensor_id.as_str(),
        frame.faculty.as_str(),
    ) {
        Err(e) => return Err(e),
        Ok(()) => {},
    }
    if !same(frame.mime.as_str(), "image/jpeg") && !same(frame.mime.as_str(), "image/webp") {
        return Err("mime must be image/jpeg or image/webp".to_owned());
    }
    if frame.width == 0 {
        return Err("missing width".to_owned());
    }
    if frame.height == 0 {
        return Err("missing height".to_owned());
    }
    if blank(frame.data.as_str()) {
        return Err("missing data".to_owned());
    }
    if !starts_with(frame.data.as_str(), "data:image/") {
        return Err("data must be a data URL".to_owned());
    }
    Ok(())
}

/// Why a frame is refused at a moment.
pub open spec fn frame_refusal(socket: Seq<char>, m: FrameMessageView, now: Timestamp) -> Option<
    Seq<char>,
> {
    match frame_fault(socket, m) {
        Some(fault) => Some(fault),
        None => if now@ < m.occurred_at@ {
            Some("observed_at would be before occurred_at"@)
        } else {
            None
        },
    }
}

/// Whether a record is that of a frame observed at a moment.
pub open spec fn is_frame_record(r: SensationRecordView, m: FrameMessageView, now: Timestamp) -> bool {
    r == (SensationRecordView {
        id: r.id,
        kind: m.kind,
        occurred_at: m.occurred_at,
        observed_at: now,
        source: SourceView::of(m.client_id, m.sensor_id, m.faculty),
        sequence: m.sequence,
        media: MediaView {
            mime: m.mime,
            width: m.width,
            height: m.height,
            encoding: "base64-data-url"@,
        },
        provenance: ProvenanceView::direct(),
        data_sha256: text_digest(m.data),
        data_bytes: text_bytes(m.data),
        detail: JsonView::Object(Seq::empty()),
    })
}

/// Accepts a frame that was observed at a moment: it joins the log, and on the
/// channel of frames so does its picture.
pub fn accept_frame(
    socket_faculty: &str,
    frame: FrameMessage,
    observed_at: Timestamp,
    sensations: &mut VecDeque<SensationRecord>,
    raw_vision_frames: &mut VecDeque<RawVisionFrame>,
) -> (r: Result<SensationRecord, String>)
    ensures
        match frame_refusal(socket_faculty@, frame@, observed_at) {
            Some(fault) => {
                &&& r matches Err(e) && e@ == fault
                &&& *final(sensations) == *old(sensations)
                &&& *final(raw_vision_frames) == *old(raw_vision_frames)
            },
            None => {
                &&& r matches Ok(record) && is_frame_record(record@, frame@, observed_at)
                &&& record_views(final(sensations)@) == logged(
                    record_views(old(sensations)@),
                    r->Ok_0@,
                    200,
                )
                &&& raw_frame_views(final(raw_vision_frames)@) == (if socket_faculty@ == "vision"@ {
                    logged(
                        raw_frame_views(old(raw_vision_frames)@),
                        (RawVisionFrameView { sensation: r->Ok_0@, data: frame@.data }),
                        6,
                    )
                } else {
                    raw_frame_views(old(raw_vision_frames)@)
                })
            },
        },
{
    match validate_frame(socket_faculty, &frame) {
        Err(e) => return Err(e),
        Ok(()) => {},
    }
    if observed_at.is_before(&frame.occurred_at) {
        return Err("observed_at would be before occurred_at".to_owned());
    }
    let record = SensationRecord {
        id: fresh_id(),
        kind: frame.kind,
        occurred_at: frame.occurred_at,
        observed_at,
        source: SensationSource {
            client_id: frame.client_id,
            sensor_id: frame.sensor_id,
            faculty: frame.faculty,
        },
        sequence: frame.sequence,
        media: MediaRecord {
            mime: frame.mime,
            width: frame.width,
            height: frame.height,
            encoding: "base64-data-url".to_owned(),
        },
        provenance: Provenance::direct(),
        data_sha256: sha256_text(frame.data.as_str()),
        data_bytes: byte_len(frame.data.as_str()),
        detail: Fields::new().object(),
    };
    record_sensation(sensations, record.clone());
    if same(socket_faculty, VISION_CHANNEL) {
        record_raw_vision_frame(
            raw_vision_frames,
            RawVisionFrame { sensation: record.clone(), data: frame.data },
        );
    }
    Ok(record)
}

/// The records of a log.
pub open spec fn record_views(log: Seq<SensationRecord>) -> Seq<SensationRecordView> {
    log.map_values(|r: SensationRecord| r@)
}

/// The frames of a log.
pub open spec fn raw_frame_views(log: Seq<RawVisionFrame>) -> Seq<RawVisionFrameView> {
    log.map_values(|f: RawVisionFrame| f@)
}

/// Adds a sensation to the log.
pub fn record_sensation(sensations: &mut VecDeque<SensationRecord>, record: SensationRecord)
    ensures
        record_views(final(sensations)@) == logged(record_views(old(sensations)@), record@, 200),
{
    push_limited(sensations, record, MAX_RECORDED_SENSATIONS);
    assert(record_views(sensations@) =~= logged(record_views(old(sensations)@), record@, 200));
}

/// Adds a frame to the log of pictures.
pub fn record_raw_vision_frame(frames: &mut VecDeque<RawVisionFrame>, frame: RawVisionFrame)
    ensures
        raw_frame_views(final(frames)@) == logged(raw_frame_views(old(frames)@), frame@, 6),
{
    push_limited(frames, frame, MAX_RECORDED_RAW_VISION_FRAMES);
    assert(raw_frame_views(frames@) =~= logged(raw_frame_views(old(frames)@), frame@, 6));
}

/// What is wrong with a number that must lie between two others.
pub open spec fn range_fault(name: Seq<char>, value: Seq<char>, min: Seq<char>, max: Seq<char>) -> Option<
    Seq<char>,
> {
    if is_at_most(min, value) && is_at_most(value, max) {
        None
    } else {
        Some(name + " must be between "@ + min + " and "@ + max)
    }
}

/// What is wrong with a number that must not be negative.
pub open spec fn negative_fault(name: Seq<char>, value: Option<Seq<char>>) -> Option<Seq<char>> {
    match value {
        Some(v) => if is_at_most("0"@, v) {
            None
        } else {
            Some(name + " must be finite and non-negative"@)
        },
        None => None,
    }
}

/// What is wrong with a number that must be one.
pub open spec fn finite_fault(name: Seq<char>, value: Option<Seq<char>>) -> Option<Seq<char>> {
    match value {
        Some(v) => if is_at_most(v, v) {
            None
        } else {
            Some(name + " must be finite"@)
        },
        None => None,
    }
}

/// The first of two faults.
pub open spec fn or_else(first: Option<Seq<char>>, second: Option<Seq<char>>) -> Option<Seq<char>> {
    match first {
        Some(fault) => Some(fault),
        None => second,
    }
}

/// What is wrong with a position.
pub open spec fn location_fault(socket: Seq<char>, m: LocationMessageView) -> Option<Seq<char>> {
    or_else(
        sender_fault(
            socket,
            "location.fix"@,
            "kind must be location.fix"@,
            m.kind,
            m.client_id,
            m.sensor_id,
            m.faculty,
        ),
        or_else(
            range_fault("latitude"@, m.latitude, "-90"@, "90"@),
            or_else(
                range_fault("longitude"@, m.longitude, "-180"@, "180"@),
                or_else(
                    negative_fault("accuracy_meters"@, m.accuracy_meters),
                    or_else(
                        negative_fault("altitude_accuracy_meters"@, m.altitude_accuracy_meters),
                        or_else(
                            finite_fault("altitude_meters"@, m.altitude_meters),
                            or_else(
                                finite_fault("heading_degrees"@, m.heading_degrees),
                                finite_fault(
                                    "speed_meters_per_second"@,
                                    m.speed_meters_per_second,
                                ),
                            ),
                        ),
                    ),
                ),
            ),
        ),
    )
}

/// Checks that a number lies between two others.
pub fn validate_coordinate(name: &str, value: &str, min: &str, max: &str) -> (r: Result<(), String>)
    ensures
        match range_fault(name@, value@, min@, max@) {
            Some(fault) => r matches Err(e) && e@ == fault,
            None => r is Ok,
        },
{
    if at_most(min, value) && at_most(value, max) {
        return Ok(());
    }
    let mut e = name.to_owned();
    e.push_str(" must be between ");
    e.push_str(min);
    e.push_str(" and ");
    e.push_str(max);
    Err(e)
}

/// Checks that a number, where there is one, is not negative.
pub fn validate_optional_nonnegative(name: &str, value: &Option<String>) -> (r: Result<(), String>)
    ensures
        match negative_fault(name@, optional(*value)) {
            Some(fault) => r matches Err(e) && e@ == fault,
            None => r is Ok,
        },
{
    match value {
        None => Ok(()),
        Some(v) => {
            if at_most("0", v.as_str()) {
                return Ok(());
            }
            let mut e = name.to_owned();
            e.push_str(" must be finite and non-negative");
            Err(e)
        },
    }
}

/// Checks that a number, where there is one, is one.
pub fn validate_optional_finite(name: &str, value: &Option<String>) -> (r: Result<(), String>)
    ensures
        match finite_fault(name@, optional(*value)) {
            Some(fault) => r matches Err(e) && e@ == fault,
            None => r is Ok,
        },
{
    match value {
        None => Ok(()),
        Some(v) => {
            if at_most(v.as_str(), v.as_str()) {
                return Ok(());
            }
            let mut e = name.to_owned();
            e.push_str(" must be finite");
            Err(e)
        },
    }
}

/// Checks a position.
pub fn validate_location(socket_faculty: &str, location: &LocationMessage) -> (r: Result<(), String>)
    ensures
        match location_fault(socket_faculty@, location@) {
            Some(fault) => r matches Err(e) && e@ == fault,
            None => r is Ok,
        },
{
    match check_sender(
        socket_faculty,
        "location.fix",
        "kind must be location.fix",
        location.kind.as_str(),
        location.client_id.as_str(),
        location.sensor_id.as_str(),
        location.faculty.as_str(),
    ) {
        Err(e) => return Err(e),
        Ok(()) => {},
    }
    match validate_coordinate("latitude", location.latitude.as_str(), "-90", "90") {
        Err(e) => return Err(e),
        Ok(()) => {},
    }
    match validate_coordinate("longitude", location.longitude.as_str(), "-180", "180") {
        Err(e) => return Err(e),
        Ok(()) => {},
    }
    match validate_optional_nonnegative("accuracy_meters", &location.accuracy_meters) {
        Err(e) => return Err(e),
        Ok(()) => {},
    }
    match validate_optional_nonnegative(
        "altitude_accuracy_meters",
        &location.altitude_accuracy_meters,
    ) {
        Err(e) => return Err(e),
        Ok(()) => {},
    }
    match validate_optional_finite("altitude_meters", &location.altitude_meters) {
        Err(e) => return Err(e),
        Ok(()) => {},
    }
    match validate_optional_finite("heading_degrees", &location.heading_degrees) {
        Err(e) => return Err(e),
        Ok(()) => {},
    }
    validate_optional_finite("speed_meters_per_second", &location.speed_meters_per_second)
}

/// An optional number as JSON.
pub open spec fn optional_number(value: Option<Seq<char>>) -> JsonView {
    match value {
        Some(v) => JsonView::Number(v),
        None => JsonView::Null,
    }
}

/// A position as JSON.
pub open spec fn location_detail(m: LocationMessageView) -> JsonView {
    JsonView::Object(
        seq![
            named("accuracy_meters"@, optional_number(m.accuracy_meters)),
            named("altitude_accuracy_meters"@, optional_number(m.altitude_accuracy_meters)),
            named("altitude_meters"@, optional_number(m.altitude_meters)),
            named("heading_degrees"@, optional_number(m.heading_degrees)),
            named("lat"@, JsonView::Number(m.latitude)),
            named("lon"@, JsonView::Number(m.longitude)),
            named("speed_meters_per_second"@, optional_number(m.speed_meters_per_second)),
        ],
    )
}

fn number_json(value: &Option<String>) -> (json: Json)
    ensures
        json@ == optional_number(optional(*value)),
{
    match value {
        Some(v) => Json::Number(v.clone()),
        None => Json::Null,
    }
}

/// Why a position is refused at a moment.
pub open spec fn location_refusal(
    socket: Seq<char>,
    m: LocationMessageView,
    now: Timestamp,
) -> Option<Seq<char>> {
    or_else(
        location_fault(socket, m),
        if now@ < m.occurred_at@ {
            Some("observed_at would be before occurred_at"@)
        } else {
            None
        },
    )
}

/// Whether a record is that of a position observed at a moment.
pub open spec fn is_location_record(
    r: SensationRecordView,
    m: LocationMessageView,
    now: Timestamp,
) -> bool {
    let detail = location_detail(m);
    r == (SensationRecordView {
        id: r.id,
        kind: m.kind,
        occurred_at: m.occurred_at,
        observed_at: now,
        source: SourceView::of(m.client_id, m.sensor_id, m.faculty),
        sequence: m.sequence,
        media: MediaView::flat("application/vnd.geo+json"@, "json"@),
        provenance: ProvenanceView::direct().through("Location Faculty"@),
        data_sha256: text_digest(json_text(detail)),
        data_bytes: text_bytes(json_text(detail)),
        detail,
    })
}

/// Accepts a position that was observed at a moment: it joins the log.
pub fn accept_location(
    socket_faculty: &str,
    location: LocationMessage,
    observed_at: Timestamp,
    sensations: &mut VecDeque<SensationRecord>,
) -> (r: Result<SensationRecord, String>)
    ensures
        match location_refusal(socket_faculty@, location@, observed_at) {
            Some(fault) => {
                &&& r matches Err(e) && e@ == fault
                &&& *final(sensations) == *old(sensations)
            },
            None => {
                &&& r matches Ok(record) && is_location_record(record@, location@, observed_at)
                &&& record_views(final(sensations)@) == logged(
                    record_views(old(sensations)@),
                    r->Ok_0@,
                    200,
                )
            },
        },
{
    match validate_location(socket_faculty, &location) {
        Err(e) => return Err(e),
        Ok(()) => {},
    }
    if observed_at.is_before(&location.occurred_at) {
        return Err("observed_at would be before occurred_at".to_owned());
    }
    let fields = Fields::new()
        .with("accuracy_meters", number_json(&location.accuracy_meters))
        .with("altitude_accuracy_meters", number_json(&location.altitude_accuracy_meters))
        .with("altitude_meters", number_json(&location.altitude_meters))
        .with("heading_degrees", number_json(&location.heading_degrees))
        .with("lat", Json::Number(location.latitude.clone()))
        .with("lon", Json::Number(location.longitude.clone()))
        .with("speed_meters_per_second", number_json(&location.speed_meters_per_second));
    assert(fields@ =~= location_detail(location@)->Object_0);
    let detail = fields.object();
    let text = detail.to_text();
    let record = SensationRecord {
        id: fresh_id(),
        kind: location.kind,
        occurred_at: location.occurred_at,
        observed_at,
        source: SensationSource {
            client_id: location.client_id,
            sensor_id: location.sensor_id,
            faculty: location.faculty,
        },
        sequence: location.sequence,
        media: MediaRecord::flat("application/vnd.geo+json", "json"),
        provenance: Provenance::direct().with_faculty("Location Faculty"),
        data_sha256: sha256_text(text.as_str()),
        data_bytes: byte_len(text.as_str()),
        detail,
    };
    record_sensation(sensations, record.clone());
    Ok(record)
}

/// A number among the fields of an object.
pub open spec fn number_field(v: JsonView, key: Seq<char>) -> Option<Seq<char>> {
    match field(v, key) {
        Some(JsonView::Number(n)) => Some(n),
        _ => None,
    }
}

/// A number among the fields of an object, with so many places.
pub open spec fn fixed_field(v: JsonView, key: Seq<char>, places: nat) -> Option<Seq<char>> {
    match number_field(v, key) {
        Some(n) => fixed(n, places),
        None => None,
    }
}

/// A field, or `null`.
pub open spec fn field_or_null(v: JsonView, key: Seq<char>) -> JsonView {
    match field(v, key) {
        Some(value) => value,
        None => JsonView::Null,
    }
}

/// How the impression of a position is put.
pub open spec fn location_text(lat: Seq<char>, lon: Seq<char>) -> Seq<char> {
    "My geolocation is approximately ("@ + lat + ", "@ + lon
        + "). (This does not necessarily indicate movement or new information.)"@
}

/// Whether an impression is that of a position, observed at a moment.
pub open spec fn is_location_impression(
    i: ImpressionRecordView,
    s: SensationRecordView,
    now: Timestamp,
) -> bool {
    i == (ImpressionRecordView {
        id: i.id,
        sensation_id: s.id,
        occurred_at: s.occurred_at,
        observed_at: now,
        source: s.source,
        sequence: s.sequence,
        text: location_text(
            fixed_field(s.detail, "lat"@, 5)->0,
            fixed_field(s.detail, "lon"@, 5)->0,
        ),
        kind: "location.gps"@,
        faculty: "Location Faculty"@,
        confidence: "0.8199999928474426"@,
        payload: JsonView::Object(
            seq![
                named("accuracy_meters"@, field_or_null(s.detail, "accuracy_meters"@)),
                named(
                    "altitude_accuracy_meters"@,
                    field_or_null(s.detail, "altitude_accuracy_meters"@),
                ),
                named("altitude_meters"@, field_or_null(s.detail, "altitude_meters"@)),
                named("heading_degrees"@, field_or_null(s.detail, "heading_degrees"@)),
                named("lat"@, field_or_null(s.detail, "lat"@)),
                named("lon"@, field_or_null(s.detail, "lon"@)),
                named(
                    "speed_meters_per_second"@,
                    field_or_null(s.detail, "speed_meters_per_second"@),
                ),
            ],
        ),
    })
}

pub(crate) fn fixed_number(json: &Json, key: &str, places: usize) -> (r: Option<String>)
    requires
        places <= 20,
    ensures
        optional(r) == fixed_field(json@, key@, places as nat),
{
    match json.get(key) {
        Some(Json::Number(n)) => fixed_text(n.as_str(), places),
        _ => None,
    }
}

fn copy_field(json: &Json, key: &str) -> (r: Json)
    ensures
        r@ == field_or_null(json@, key@),
{
    match json.get(key) {
        Some(value) => value.clone(),
        None => Json::Null,
    }
}

/// The text of the impression of a position, its coordinates written out.
pub fn location_impression_text(lat: &str, lon: &str) -> (s: String)
    ensures
        s@ == location_text(lat@, lon@),
{
    let mut s = "My geolocation is approximately (".to_owned();
    s.push_str(lat);
    s.push_str(", ");
    s.push_str(lon);
    s.push_str("). (This does not necessarily indicate movement or new information.)");
    s
}

/// The impression of a position, observed at a moment; none where the record
/// does not give one.
pub fn location_impression(sensation: &SensationRecord, observed_at: Timestamp) -> (r: Option<
    VisionImpressionRecord,
>)
    ensures
        r is Some <==> fixed_field(sensation@.detail, "lat"@, 5) is Some && fixed_field(
            sensation@.detail,
            "lon"@,
            5,
        ) is Some,
        r matches Some(i) ==> is_location_impression(i@, sensation@, observed_at),
{
    let detail = &sensation.detail;
    let lat = match fixed_number(detail, "lat", 5) {
        Some(lat) => lat,
        None => return None,
    };
    let lon = match fixed_number(detail, "lon", 5) {
        Some(lon) => lon,
        None => return None,
    };
    let payload = Fields::new()
        .with("accuracy_meters", copy_field(detail, "accuracy_meters"))
        .with("altitude_accuracy_meters", copy_field(detail, "altitude_accuracy_meters"))
        .with("altitude_meters", copy_field(detail, "altitude_meters"))
        .with("heading_degrees", copy_field(detail, "heading_degrees"))
        .with("lat", copy_field(detail, "lat"))
        .with("lon", copy_field(detail, "lon"))
        .with("speed_meters_per_second", copy_field(detail, "speed_meters_per_second"));
    let impression = VisionImpressionRecord {
        id: fresh_id(),
        sensation_id: sensation.id,
        occurred_at: sensation.occurred_at,
        observed_at,
        source: sensation.source.clone(),
        sequence: sensation.sequence,
        text: location_impression_text(lat.as_str(), lon.as_str()),
        kind: "location.gps".to_owned(),
        faculty: "Location Faculty".to_owned(),
        confidence: Confidence::of(LOCATION_BASE_CONFIDENCE),
        payload: payload.object(),
    };
    proof {
        let wanted = seq![
            named("accuracy_meters"@, field_or_null(detail@, "accuracy_meters"@)),
            named("altitude_accuracy_meters"@, field_or_null(detail@, "altitude_accuracy_meters"@)),
            named("altitude_meters"@, field_or_null(detail@, "altitude_meters"@)),
            named("heading_degrees"@, field_or_null(detail@, "heading_degrees"@)),
            named("lat"@, field_or_null(detail@, "lat"@)),
            named("lon"@, field_or_null(detail@, "lon"@)),
            named("speed_meters_per_second"@, field_or_null(detail@, "speed_meters_per_second"@)),
        ];
        assert(payload@ =~= wanted);
    }
    Some(impression)
}

/// The sender's count in a message, where it can be read.
pub fn sequence_from_raw_json(raw_json: &str) -> (r: Option<u64>)
    ensures
        r == (match parsed(raw_json@) {
            Some(value) => match unsigned_field(value, "sequence"@) {
                Some(n) => Some(n as u64),
                None => None,
            },
            None => None,
        }),
{
    match parse(raw_json) {
        Some(value) => value.u64_field("sequence"),
        None => None,
    }
}

/// The answer to a message that was accepted.
pub fn acknowledgement(channel: &str, record: &SensationRecord) -> (r: AckMessage)
    ensures
        r@ == (AckView {
            faculty: channel@,
            sequence: record.sequence,
            observed_at: record.observed_at,
        }),
{
    AckMessage {
        faculty: channel.to_owned(),
        sequence: record.sequence,
        observed_at: record.observed_at,
    }
}

/// The answer to a message that was refused.
pub fn refusal(channel: &str, raw_json: &str, error: String) -> (r: ErrorMessage)
    ensures
        r@ == (ErrorView {
            faculty: channel@,
            sequence: match parsed(raw_json@) {
                Some(value) => match unsigned_field(value, "sequence"@) {
                    Some(n) => Some(n as u64),
                    None => None,
                },
                None => None,
            },
            error: error@,
        }),
{
    ErrorMessage { faculty: channel.to_owned(), sequence: sequence_from_raw_json(raw_json), error }
}

/// A frame or position is never observed before it happened.
pub proof fn law_accepted_is_not_from_the_future(
    frame: SensationRecordView,
    m: FrameMessageView,
    location: SensationRecordView,
    n: LocationMessageView,
    socket: Seq<char>,
    now: Timestamp,
)
    ensures
        frame_refusal(socket, m, now) is None && is_frame_record(frame, m, now)
            ==> frame.occurred_at@ <= frame.observed_at@,
        location_refusal(socket, n, now) is None && is_location_record(location, n, now)
            ==> location.occurred_at@ <= location.observed_at@,
{
}

/// The names are all different.
proof fn lemma_position_names()
    ensures
        "accuracy_meters"@ != "altitude_accuracy_meters"@,
        "accuracy_meters"@ != "altitude_meters"@,
        "altitude_accuracy_meters"@ != "altitude_meters"@,
        "accuracy_meters"@ != "heading_degrees"@,
        "altitude_accuracy_meters"@ != "heading_degrees"@,
        "altitude_meters"@ != "heading_degrees"@,
        "accuracy_meters"@ != "lat"@,
        "altitude_accuracy_meters"@ != "lat"@,
        "altitude_meters"@ != "lat"@,
        "heading_degrees"@ != "lat"@,
        "accuracy_meters"@ != "lon"@,
        "altitude_accuracy_meters"@ != "lon"@,
        "altitude_meters"@ != "lon"@,
        "heading_degrees"@ != "lon"@,
        "lat"@ != "lon"@,
        "accuracy_meters"@ != "speed_meters_per_second"@,
        "altitude_accuracy_meters"@ != "speed_meters_per_second"@,
        "altitude_meters"@ != "speed_meters_per_second"@,
        "heading_degrees"@ != "speed_meters_per_second"@,
        "lat"@ != "speed_meters_per_second"@,
        "lon"@ != "speed_meters_per_second"@,
{
    reveal_strlit("accuracy_meters");
    reveal_strlit("altitude_accuracy_meters");
    reveal_strlit("altitude_meters");
    reveal_strlit("heading_degrees");
    reveal_strlit("lat");
    reveal_strlit("lon");
    reveal_strlit("speed_meters_per_second");
    assert("accuracy_meters"@.len() != "altitude_accuracy_meters"@.len());
    assert("accuracy_meters"@[1] != "altitude_meters"@[1]);
    assert("altitude_accuracy_meters"@.len() != "altitude_meters"@.len());
    assert("accuracy_meters"@[0] != "heading_degrees"@[0]);
    assert("altitude_accuracy_meters"@.len() != "heading_degrees"@.len());
    assert("altitude_meters"@[0] != "heading_degrees"@[0]);
    assert("accuracy_meters"@.len() != "lat"@.len());
    assert("altitude_accuracy_meters"@.len() != "lat"@.len());
    assert("altitude_meters"@.len() != "lat"@.len());
    assert("heading_degrees"@.len() != "lat"@.len());
    assert("accuracy_meters"@.len() != "lon"@.len());
    assert("altitude_accuracy_meters"@.len() != "lon"@.len());
    assert("altitude_meters"@.len() != "lon"@.len());
    assert("heading_degrees"@.len() != "lon"@.len());
    assert("lat"@[1] != "lon"@[1]);
    assert("accuracy_meters"@.len() != "speed_meters_per_second"@.len());
    assert("altitude_accuracy_meters"@.len() != "speed_meters_per_second"@.len());
    assert("altitude_meters"@.len() != "speed_meters_per_second"@.len());
    assert("heading_degrees"@.len() != "speed_meters_per_second"@.len());
    assert("lat"@.len() != "speed_meters_per_second"@.len());
    assert("lon"@.len() != "speed_meters_per_second"@.len());
}

/// A frame is accepted just where it is a frame of vision, from a client and a
/// sensor that are named, for the faculty of the socket, a picture of a size that
/// is not nothing, as a data URL, and not from the future.
pub proof fn law_whole_frame_is_accepted(socket: Seq<char>, m: FrameMessageView, now: Timestamp)
    ensures
        frame_refusal(socket, m, now) is None <==> {
            &&& m.kind == "vision.frame"@
            &&& !is_blank(m.client_id)
            &&& !is_blank(m.sensor_id)
            &&& m.faculty == socket
            &&& m.mime == "image/jpeg"@ || m.mime == "image/webp"@
            &&& m.width > 0
            &&& m.height > 0
            &&& !is_blank(m.data)
            &&& starts(m.data, "data:image/"@)
            &&& m.occurred_at@ <= now@
        },
{
}

/// A position is accepted just where it is a position, from a client and a sensor
/// that are named, for the faculty of the socket, with a latitude of at most 90
/// degrees and a longitude of at most 180 degrees on either side, accuracies that
/// are not negative, further numbers that are numbers, and not from the future.
pub proof fn law_whole_position_is_accepted(
    socket: Seq<char>,
    m: LocationMessageView,
    now: Timestamp,
)
    ensures
        location_refusal(socket, m, now) is None <==> {
            &&& m.kind == "location.fix"@
            &&& !is_blank(m.client_id)
            &&& !is_blank(m.sensor_id)
            &&& m.faculty == socket
            &&& is_at_most("-90"@, m.latitude) && is_at_most(m.latitude, "90"@)
            &&& is_at_most("-180"@, m.longitude) && is_at_most(m.longitude, "180"@)
            &&& m.accuracy_meters matches Some(v) ==> is_at_most("0"@, v)
            &&& m.altitude_accuracy_meters matches Some(v) ==> is_at_most("0"@, v)
            &&& m.altitude_meters matches Some(v) ==> is_at_most(v, v)
            &&& m.heading_degrees matches Some(v) ==> is_at_most(v, v)
            &&& m.speed_meters_per_second matches Some(v) ==> is_at_most(v, v)
            &&& m.occurred_at@ <= now@
        },
{
}

/// A position off the earth, from a sender with whom nothing is wrong, is refused
/// for the latitude first and then for the longitude.
pub proof fn law_position_off_the_earth_is_refused(
    socket: Seq<char>,
    m: LocationMessageView,
    now: Timestamp,
)
    requires
        m.kind == "location.fix"@,
        !is_blank(m.client_id),
        !is_blank(m.sensor_id),
        m.faculty == socket,
    ensures
        ({
            let on = is_at_most("-90"@, m.latitude) && is_at_most(m.latitude, "90"@);
            &&& !on ==> location_refusal(socket, m, now) == Some(
                "latitude must be between -90 and 90"@,
            )
            &&& on && !(is_at_most("-180"@, m.longitude) && is_at_most(m.longitude, "180"@))
                ==> location_refusal(socket, m, now) == Some(
                "longitude must be between -180 and 180"@,
            )
        }),
{
    reveal_strlit("latitude");
    reveal_strlit("longitude");
    reveal_strlit(" must be between ");
    reveal_strlit(" and ");
    reveal_strlit("-90");
    reveal_strlit("90");
    reveal_strlit("-180");
    reveal_strlit("180");
    reveal_strlit("latitude must be between -90 and 90");
    reveal_strlit("longitude must be between -180 and 180");
    assert("latitude"@ + " must be between "@ + "-90"@ + " and "@ + "90"@
        =~= "latitude must be between -90 and 90"@);
    assert("longitude"@ + " must be between "@ + "-180"@ + " and "@ + "180"@
        =~= "longitude must be between -180 and 180"@);
}

/// The record of a frame has the kind, the moment, the sender, the number and the
/// size that the frame was sent with, and tells the length and the digest of what
/// was sent.
pub proof fn law_frame_is_recorded_as_sent(
    r: SensationRecordView,
    m: FrameMessageView,
    now: Timestamp,
)
    requires
        is_frame_record(r, m, now),
    ensures
        r.kind == m.kind,
        r.occurred_at == m.occurred_at,
        r.observed_at == now,
        r.source.client_id == m.client_id,
        r.source.sensor_id == m.sensor_id,
        r.source.faculty == m.faculty,
        r.sequence == m.sequence,
        r.media.mime == m.mime,
        r.media.width == m.width,
        r.media.height == m.height,
        r.data_sha256 == text_digest(m.data),
        r.data_bytes == text_bytes(m.data),
{
}

/// The record of a position has the moment, the sender and the number that the
/// position was sent with, and each number under its name.
pub proof fn law_position_is_recorded_as_sent(
    r: SensationRecordView,
    m: LocationMessageView,
    now: Timestamp,
)
    requires
        is_location_record(r, m, now),
    ensures
        r.kind == m.kind,
        r.occurred_at == m.occurred_at,
        r.observed_at == now,
        r.source.client_id == m.client_id,
        r.source.sensor_id == m.sensor_id,
        r.source.faculty == m.faculty,
        r.sequence == m.sequence,
        r.data_sha256 == text_digest(json_text(r.detail)),
        r.data_bytes == text_bytes(json_text(r.detail)),
        ({
            &&& field(r.detail, "lat"@) == Some(JsonView::Number(m.latitude))
            &&& field(r.detail, "lon"@) == Some(JsonView::Number(m.longitude))
            &&& match m.accuracy_meters {
                Some(n) => field(r.detail, "accuracy_meters"@) == Some(JsonView::Number(n)),
                None => field(r.detail, "accuracy_meters"@) == Some(JsonView::Null),
            }
            &&& match m.altitude_accuracy_meters {
                Some(n) => field(r.detail, "altitude_accuracy_meters"@) == Some(JsonView::Number(n)),
                None => field(r.detail, "altitude_accuracy_meters"@) == Some(JsonView::Null),
            }
            &&& match m.altitude_meters {
                Some(n) => field(r.detail, "altitude_meters"@) == Some(JsonView::Number(n)),
                None => field(r.detail, "altitude_meters"@) == Some(JsonView::Null),
            }
            &&& match m.heading_degrees {
                Some(n) => field(r.detail, "heading_degrees"@) == Some(JsonView::Number(n)),
                None => field(r.detail, "heading_degrees"@) == Some(JsonView::Null),
            }
            &&& match m.speed_meters_per_second {
                Some(n) => field(r.detail, "speed_meters_per_second"@) == Some(JsonView::Number(n)),
                None => field(r.detail, "speed_meters_per_second"@) == Some(JsonView::Null),
            }
        }),
{
    lemma_position_names();
    let fields = r.detail->Object_0;
    lemma_field_at(fields, 0);
    lemma_field_at(fields, 1);
    lemma_field_at(fields, 2);
    lemma_field_at(fields, 3);
    lemma_field_at(fields, 4);
    lemma_field_at(fields, 5);
    lemma_field_at(fields, 6);
}

/// The impression of a position that was sent tells the latitude and then the
/// longitude, to five places, and keeps each number under its name.
pub proof fn law_impression_tells_the_position_sent(
    i: ImpressionRecordView,
    r: SensationRecordView,
    m: LocationMessageView,
    sent: Timestamp,
    now: Timestamp,
    lat: Seq<char>,
    lon: Seq<char>,
)
    requires
        is_location_record(r, m, sent),
        is_location_impression(i, r, now),
        fixed(m.latitude, 5) == Some(lat),
        fixed(m.longitude, 5) == Some(lon),
    ensures
        i.text == "My geolocation is approximately ("@ + lat + ", "@ + lon
            + "). (This does not necessarily indicate movement or new information.)"@,
        i.sensation_id == r.id,
        i.occurred_at == m.occurred_at,
        i.observed_at == now,
        ({
            &&& field(i.payload, "lat"@) == Some(JsonView::Number(m.latitude))
            &&& field(i.payload, "lon"@) == Some(JsonView::Number(m.longitude))
            &&& match m.accuracy_meters {
                Some(n) => field(i.payload, "accuracy_meters"@) == Some(JsonView::Number(n)),
                None => field(i.payload, "accuracy_meters"@) == Some(JsonView::Null),
            }
            &&& match m.altitude_accuracy_meters {
                Some(n) => field(i.payload, "altitude_accuracy_meters"@) == Some(JsonView::Number(n)),
                None => field(i.payload, "altitude_accuracy_meters"@) == Some(JsonView::Null),
            }
            &&& match m.altitude_meters {
                Some(n) => field(i.payload, "altitude_meters"@) == Some(JsonView::Number(n)),
                None => field(i.payload, "altitude_meters"@) == Some(JsonView::Null),
            }
            &&& match m.heading_degrees {
                Some(n) => field(i.payload, "heading_degrees"@) == Some(JsonView::Number(n)),
                None => field(i.payload, "heading_degrees"@) == Some(JsonView::Null),
            }
            &&& match m.speed_meters_per_second {
                Some(n) => field(i.payload, "speed_meters_per_second"@) == Some(JsonView::Number(n)),
                None => field(i.payload, "speed_meters_per_second"@) == Some(JsonView::Null),
            }
        }),
{
    law_position_is_recorded_as_sent(r, m, sent);
    lemma_position_names();
    let fields = i.payload->Object_0;
    lemma_field_at(fields, 0);
    lemma_field_at(fields, 1);
    lemma_field_at(fields, 2);
    lemma_field_at(fields, 3);
    lemma_field_at(fields, 4);
    lemma_field_at(fields, 5);
    lemma_field_at(fields, 6);
}

} // verus!
