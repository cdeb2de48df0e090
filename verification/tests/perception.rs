use std::collections::VecDeque;

use psyche::asr::{
    accept_clip, can_be_dated, file_sentence, judge_worker_response, ms_to_sample_index,
    next_request_id, normalize_transcript_text, record_heard, record_speculative_transcript,
    record_transcript, resampled, slice_samples_for_sentence, tame, transcript_of, validate_clip,
    AcceptedAudioClip, AsrSession, Heard, SentenceTranscript, TranscriptResult, WorkerReply, ASR_FRAME_SAMPLES,
};
use psyche::face_detection::{
    build_face_match_sensation, face_crop_sensation, is_similar_to_last_face, record_face_crop,
    DetectedFaceCrop,
};
use psyche::face_memory::{BBox, FaceMemoryMatch};
use psyche::field_vision::{
    build_field_vision_prompt, field_vision_impression, field_vision_request,
    field_vision_system_prompt, oversized_field_impression, MAX_FIELD_VISION_DATA_CHARS,
};
use psyche::ident::{fresh_id, id_text, Id};
use psyche::impression::Confidence;
use psyche::ingestion::{
    accept_frame, accept_location, acknowledgement, location_impression, refusal,
    sequence_from_raw_json, validate_frame, validate_location, LOCATION_CHANNEL, VISION_CHANNEL,
};
use psyche::json::{parse, Json};
use psyche::messages::{
    AudioClipMessage, FrameMessage, LocationMessage, MediaRecord, RawVisionFrame,
    RealTimeExperienceEvent, SensationRecord, SensationSource,
};
use psyche::sensation::Provenance;
use psyche::server::{accept_synthesis, admit_socket, faculties};
use psyche::time::{now, parse_rfc3339, Timestamp};
use psyche::vision::{
    build_vision_prompt, choose_impression, clean_impression, compact_log_text,
    decode_frame_image, decode_frame_image_bytes, describe_oversized, described, latest_unsampled_frame,
    oversized_vision_impression, strip_known_stop_markers, vision_impression, vision_request,
    vision_system_prompt, MAX_VISION_DATA_CHARS, VISION_FALLBACK_IMPRESSION,
};
use psyche::voice_identity::{duration_ms, identify_voice, min_voice_samples};
use psyche::voice_records::RecordIds;

fn json(text: &str) -> Json {
    parse(text).expect("valid json")
}

fn source(faculty: &str) -> SensationSource {
    SensationSource {
        client_id: "face-browser".to_string(),
        sensor_id: "camera.default".to_string(),
        faculty: faculty.to_string(),
    }
}

fn raw_frame(data: &str) -> RawVisionFrame {
    RawVisionFrame {
        sensation: SensationRecord {
            id: fresh_id(),
            kind: "vision.frame".to_string(),
            occurred_at: now(),
            observed_at: now(),
            source: source("vision-frame"),
            sequence: 7,
            media: MediaRecord {
                mime: "image/jpeg".to_string(),
                width: 224,
                height: 224,
                encoding: "base64-data-url".to_string(),
            },
            provenance: Provenance::direct(),
            data_sha256: "abc".to_string(),
            data_bytes: data.len(),
            detail: json("{}"),
        },
        data: data.to_string(),
    }
}

fn valid_frame(faculty: &str) -> FrameMessage {
    FrameMessage {
        kind: "vision.frame".to_string(),
        client_id: "face-browser".to_string(),
        sensor_id: "camera.default".to_string(),
        faculty: faculty.to_string(),
        sequence: 42,
        occurred_at: now(),
        mime: "image/jpeg".to_string(),
        width: 640,
        height: 480,
        data: "data:image/jpeg;base64,abc123".to_string(),
    }
}

fn valid_location(faculty: &str) -> LocationMessage {
    LocationMessage {
        kind: "location.fix".to_string(),
        client_id: "face-browser".to_string(),
        sensor_id: "gps.default".to_string(),
        faculty: faculty.to_string(),
        sequence: 42,
        occurred_at: now(),
        latitude: "37.7749".to_string(),
        longitude: "-122.4194".to_string(),
        accuracy_meters: Some("12.5".to_string()),
        altitude_meters: None,
        altitude_accuracy_meters: None,
        heading_degrees: None,
        speed_meters_per_second: None,
    }
}

#[test]
fn ingestion_accepts_valid_data_url_frame() {
    let frame = valid_frame(VISION_CHANNEL);
    assert!(validate_frame(VISION_CHANNEL, &frame).is_ok());
}

#[test]
fn ingestion_rejects_faculty_socket_mismatch() {
    let frame = valid_frame(VISION_CHANNEL);
    assert_eq!(
        validate_frame("motion", &frame).unwrap_err(),
        "faculty 'vision' does not match socket 'motion'"
    );
}

#[test]
fn ingestion_rejects_raw_base64_for_now() {
    let mut frame = valid_frame(VISION_CHANNEL);
    frame.data = "abc123".to_string();
    assert_eq!(
        validate_frame(VISION_CHANNEL, &frame).unwrap_err(),
        "data must be a data URL"
    );
}

#[test]
fn main_accepts_valid_data_url_frame() {
    let frame = valid_frame("face");
    assert!(validate_frame("face", &frame).is_ok());
}

#[test]
fn main_rejects_faculty_socket_mismatch() {
    let frame = valid_frame("face");
    assert_eq!(
        validate_frame("motion", &frame).unwrap_err(),
        "faculty 'face' does not match socket 'motion'"
    );
}

#[test]
fn main_rejects_raw_base64_for_now() {
    let mut frame = valid_frame("scene");
    frame.data = "abc123".to_string();
    assert_eq!(validate_frame("scene", &frame).unwrap_err(), "data must be a data URL");
}

#[test]
fn a_frame_is_refused_for_each_fault() {
    let refused = |change: fn(&mut FrameMessage)| {
        let mut frame = valid_frame("face");
        change(&mut frame);
        validate_frame("face", &frame).unwrap_err()
    };
    assert_eq!(refused(|f| f.kind = "audio".to_string()), "kind must be vision.frame");
    assert_eq!(refused(|f| f.client_id = " ".to_string()), "missing client_id");
    assert_eq!(refused(|f| f.sensor_id = "".to_string()), "missing sensor_id");
    assert_eq!(
        refused(|f| f.mime = "image/png".to_string()),
        "mime must be image/jpeg or image/webp"
    );
    assert_eq!(refused(|f| f.width = 0), "missing width");
    assert_eq!(refused(|f| f.height = 0), "missing height");
    assert_eq!(refused(|f| f.data = " ".to_string()), "missing data");
}

#[test]
fn an_accepted_frame_is_kept_with_its_picture() {
    let mut sensations = VecDeque::new();
    let mut frames = VecDeque::new();
    let frame = valid_frame(VISION_CHANNEL);
    let later = frame.occurred_at.plus_millis(5).unwrap();
    let record = accept_frame(VISION_CHANNEL, frame, later, &mut sensations, &mut frames).unwrap();
    assert_eq!(record.sequence, 42);
    assert_eq!(record.data_bytes, 29);
    assert_eq!(
        record.data_sha256,
        "b7a5f4ca15c29fb2cce869d638074277e68f4c863ca04360e63912d9d95d5f34"
    );
    assert_eq!(sensations.len(), 1);
    assert_eq!(frames.len(), 1);
    let ack = acknowledgement(VISION_CHANNEL, &record);
    assert_eq!(ack.sequence, 42);
    assert_eq!(ack.faculty, "vision");

    let early = valid_frame(VISION_CHANNEL);
    let before = early.occurred_at.minus_millis(5).unwrap();
    assert_eq!(
        accept_frame(VISION_CHANNEL, early, before, &mut sensations, &mut frames).unwrap_err(),
        "observed_at would be before occurred_at"
    );
    assert_eq!(sensations.len(), 1);

    for _ in 0..10 {
        let frame = valid_frame(VISION_CHANNEL);
        let at = frame.occurred_at;
        accept_frame(VISION_CHANNEL, frame, at, &mut sensations, &mut frames).unwrap();
    }
    assert_eq!(frames.len(), 6);
    assert_eq!(sensations.len(), 11);
}

#[test]
fn a_refused_message_keeps_its_count() {
    assert_eq!(sequence_from_raw_json("{\"sequence\": 9}"), Some(9));
    assert_eq!(sequence_from_raw_json("{\"sequence\": -9}"), None);
    assert_eq!(sequence_from_raw_json("no json"), None);
    let told = refusal("vision", "{\"sequence\": 9}", "missing width".to_string());
    assert_eq!(told.sequence, Some(9));
    assert_eq!(told.error, "missing width");
}

#[test]
fn accepts_valid_location_fix() {
    let location = valid_location(LOCATION_CHANNEL);
    assert!(validate_location(LOCATION_CHANNEL, &location).is_ok());
}

#[test]
fn rejects_location_outside_coordinate_range() {
    let mut location = valid_location(LOCATION_CHANNEL);
    location.latitude = "91.0".to_string();

    assert_eq!(
        validate_location(LOCATION_CHANNEL, &location).unwrap_err(),
        "latitude must be between -90 and 90"
    );
}

#[test]
fn a_location_is_refused_for_each_fault() {
    let mut location = valid_location(LOCATION_CHANNEL);
    location.longitude = "-180.5".to_string();
    assert_eq!(
        validate_location(LOCATION_CHANNEL, &location).unwrap_err(),
        "longitude must be between -180 and 180"
    );
    let mut location = valid_location(LOCATION_CHANNEL);
    location.accuracy_meters = Some("-1.0".to_string());
    assert_eq!(
        validate_location(LOCATION_CHANNEL, &location).unwrap_err(),
        "accuracy_meters must be finite and non-negative"
    );
}

#[test]
fn an_accepted_location_keeps_its_numbers() {
    let mut sensations = VecDeque::new();
    let location = valid_location(LOCATION_CHANNEL);
    let at = location.occurred_at;
    let record = accept_location(LOCATION_CHANNEL, location, at, &mut sensations).unwrap();
    assert_eq!(record.kind, "location.fix");
    assert_eq!(record.detail.get("lat"), Some(&Json::Number("37.7749".to_string())));
    assert_eq!(record.detail.get("altitude_meters"), Some(&Json::Null));
    assert_eq!(sensations.len(), 1);
}

#[test]
fn records_gps_impression_text() {
    let mut sensation = raw_frame("").sensation;
    sensation.kind = "location.fix".to_string();
    sensation.detail =
        json("{\"lat\": 37.7749295, \"lon\": -122.4194155, \"accuracy_meters\": 14.2}");
    let impression = location_impression(&sensation, now()).expect("a fix");
    assert_eq!(
        impression.text,
        "My geolocation is approximately (37.77493, -122.41942). (This does not necessarily indicate movement or new information.)"
    );
    assert_eq!(impression.kind, "location.gps");
    assert_eq!(impression.faculty, "Location Faculty");
    assert_eq!(impression.confidence, Confidence::of("0.8199999928474426"));
}

#[test]
fn vision_prompt_names_live_vision() {
    let prompt = build_vision_prompt();
    let system = vision_system_prompt();

    assert!(system.contains("my vision"));
    assert!(system.contains("not a detached image"));
    assert!(system.contains("Infer only from the attached visual input"));
    assert!(system.contains("Prefer direct perception phrasing"));
    assert!(system.contains("Do not write \"My vision shows"));
    assert!(system.contains("unless the vision is clearly a mirror or reflection"));
    assert!(prompt.contains("concrete scene details"));
    assert!(prompt.contains("what I am seeing now"));
    assert!(!prompt.contains("My current vision"));
    assert!(!prompt.contains("facts="));
    assert!(!prompt.contains("source="));
    assert!(!prompt.contains("mime="));
    assert!(!prompt.contains("\"dominant_color\""));
    assert!(!prompt.contains("data:image/jpeg;base64,abc123"));
}

#[test]
fn oversized_vision_impression_does_not_embed_payload() {
    let frame = raw_frame(&"x".repeat(MAX_VISION_DATA_CHARS + 1));
    let impression = oversized_vision_impression(&frame);

    assert!(impression.contains("too large to inspect directly"));
    assert!(!impression.contains(&"x".repeat(128)));
    let description = describe_oversized(&frame).expect("too large");
    assert_eq!(description.text, impression);
    assert_eq!(description.payload.str_field("reason"), Some("payload_too_large"));
    assert_eq!(description.payload.u64_field("data_chars"), Some(2_000_001));
    assert!(describe_oversized(&raw_frame("x")).is_none());
}

#[test]
fn vision_clean_impression_keeps_first_sentence_like_line() {
    assert_eq!(
        clean_impression("\"I am looking at a desk and monitor.\"\nextra", "fallback"),
        "I am looking at a desk and monitor."
    );
    assert_eq!(
        clean_impression("I am looking at a desk and monitor.<|im_end|>", "fallback"),
        "I am looking at a desk and monitor."
    );
}

#[test]
fn clean_impression_rejects_empty_json_strings() {
    assert_eq!(
        clean_impression("{\"description\":\"\"}", "fallback description"),
        "fallback description"
    );
    assert_eq!(
        clean_impression("{\"description\":\"I see a red surface.\"}", "fallback"),
        "I see a red surface."
    );
}

#[test]
fn an_impression_is_chosen_by_what_was_read() {
    assert_eq!(choose_impression("Impression: I see.", &None, false, "none"), "I see.");
    assert_eq!(choose_impression("17", &None, true, "none"), "none");
    assert_eq!(
        choose_impression("anything", &Some(json("[\"\", \" found \"]")), false, "none"),
        "found"
    );
    assert_eq!(choose_impression(" \n \n", &None, false, "none"), "none");
}

#[test]
fn ends_of_turns_are_taken_off() {
    assert_eq!(strip_known_stop_markers(" so<turn|> <end_of_turn> <|im_end|>"), "so");
    assert_eq!(strip_known_stop_markers("<turn|> so"), "<turn|> so");
}

#[test]
fn compact_log_text_limits_long_impressions() {
    assert_eq!(
        compact_log_text("  I   see   a monitor   and desk.  ", 80),
        "I see a monitor and desk."
    );
    assert_eq!(compact_log_text("abcdef", 3), "abc...");
}

#[test]
fn a_frame_is_looked_at_once() {
    let mut frames = VecDeque::new();
    let mut last = None;
    assert!(latest_unsampled_frame(&frames, &mut last).is_none());
    frames.push_back(raw_frame("a"));
    frames.push_back(raw_frame("b"));
    assert_eq!(latest_unsampled_frame(&frames, &mut last).expect("new").data, "b");
    assert_eq!(last, Some(frames[1].sensation.id));
    assert!(latest_unsampled_frame(&frames, &mut last).is_none());
}

#[test]
fn a_picture_is_read_from_its_url() {
    assert_eq!(
        decode_frame_image_bytes(&raw_frame("data:image/jpeg;base64, aGk= ")).unwrap(),
        b"hi".to_vec()
    );
    assert_eq!(
        decode_frame_image_bytes(&raw_frame("data")).unwrap_err(),
        "vision frame data URL is missing base64 separator"
    );
    assert_eq!(
        decode_frame_image_bytes(&raw_frame("data:,!")).unwrap_err(),
        "failed to decode vision frame payload"
    );
}

#[test]
fn a_picture_goes_with_its_question() {
    let request = vision_request("image/jpeg", vec![1, 2, 3]);
    assert_eq!(request.messages.len(), 2);
    assert_eq!(request.messages[0].content, vision_system_prompt());
    assert_eq!(request.images[0].data, vec![1, 2, 3]);
    assert_eq!(request.max_tokens, Some(96));
    assert_eq!(request.stop, vec!["<turn|>", "<end_of_turn>", "<|im_end|>"]);
    let frame = raw_frame("x");
    let seen = vision_impression(fresh_id(), &frame, now(), described("", Json::Null));
    assert_eq!(seen.text, VISION_FALLBACK_IMPRESSION);
    assert_eq!(seen.kind, "vision");
    assert_eq!(seen.sensation_id, frame.sensation.id);
    assert_eq!(seen.confidence, Confidence::of("0.6499999761581421"));
}

#[test]
fn field_vision_prompt_names_live_field_of_vision() {
    let prompt = build_field_vision_prompt(&raw_frame("data:image/jpeg;base64,abc123"));
    let system = field_vision_system_prompt();

    assert!(system.contains("my live field of vision"));
    assert!(system.contains("not a detached image"));
    assert!(system.contains("unless the field of vision is clearly a mirror or reflection"));
    assert!(prompt.contains("<start_of_image>\ndata:image/jpeg;base64,abc123\n<end_of_image>"));
}

#[test]
fn oversized_field_impression_does_not_embed_payload() {
    let frame = raw_frame(&"x".repeat(MAX_FIELD_VISION_DATA_CHARS + 1));
    let impression = oversized_field_impression(&frame);

    assert!(impression.contains("too large to inspect directly"));
    assert!(!impression.contains(&"x".repeat(128)));
    assert_eq!(field_vision_request(&frame).unwrap_err(), impression);
    assert_eq!(field_vision_request(&raw_frame("x")).unwrap().max_tokens, Some(96));
}

#[test]
fn field_vision_clean_impression_keeps_first_sentence_like_line() {
    assert_eq!(
        psyche::field_vision::clean_impression("\"I am looking at a desk and monitor.\"\nextra"),
        "I am looking at a desk and monitor."
    );
}

#[test]
fn a_field_of_vision_without_words_is_still_an_impression() {
    let text = psyche::field_vision::clean_impression(" \n ");
    assert_eq!(text, "I am looking at my field of vision.");
    let frame = raw_frame("x");
    let record = field_vision_impression(fresh_id(), &frame, now(), text);
    assert_eq!(record.kind, "vision.field");
    assert_eq!(record.faculty, "Field Vision Faculty");
}

fn detected() -> DetectedFaceCrop {
    DetectedFaceCrop {
        data: "data:image/jpeg;base64,crop123".to_string(),
        width: 64,
        height: 48,
        embedding: vec![0.1f32.to_bits(), 0.2f32.to_bits()],
        vector: vec!["0.1".to_string(), "0.2".to_string()],
        bbox: BBox {
            x1: "1.0".to_string(),
            y1: "2.0".to_string(),
            x2: "3.0".to_string(),
            y2: "4.0".to_string(),
        },
        landmarks: None,
        confidence: "0.9".to_string(),
        estimated_age_years: 34,
        estimated_sex: "male".to_string(),
    }
}

#[test]
fn face_crop_sensation_is_derived_from_source_frame() {
    let frame = raw_frame("data:image/jpeg;base64,abc123");
    let crop = detected();

    let record = face_crop_sensation(fresh_id(), now(), &frame, &crop, 2);

    assert_eq!(record.kind, "vision.face_crop");
    assert_eq!(record.source.faculty, "face");
    assert_eq!(record.occurred_at, frame.sensation.occurred_at);
    assert!(record.observed_at >= frame.sensation.occurred_at);
    assert!(record.provenance.references_sensation(frame.sensation.id));
    assert_eq!(record.detail.u64_field("face_index"), Some(2));
    assert_eq!(record.detail.u64_field("embedding_dimensions"), Some(2));
    assert_eq!(record.detail.u64_field("estimated_age_years"), Some(34));
    assert_eq!(record.detail.str_field("estimated_sex"), Some("male"));
    assert_eq!(record.detail.get("detection_confidence"), Some(&Json::Number("0.9".to_string())));
    assert_eq!(
        record.detail.get("bbox").and_then(|b| b.get("x1")),
        Some(&Json::Number("1.0".to_string()))
    );
}

#[test]
fn similar_face_embeddings_are_skipped() {
    let mut last = None;
    let right = vec![1.0f32.to_bits(), 0.0f32.to_bits()];
    let up = vec![0.0f32.to_bits(), 1.0f32.to_bits()];

    assert!(!is_similar_to_last_face(&mut last, &right, &None));
    assert!(is_similar_to_last_face(&mut last, &right, &Some("1.0".to_string())));
    assert!(!is_similar_to_last_face(&mut last, &up, &Some("0.0".to_string())));
    assert_eq!(last, Some(up));
}

#[test]
fn a_face_is_put_on_record_unless_it_is_like_the_last() {
    let frame = raw_frame("data:image/jpeg;base64,abc123");
    let mut last = None;
    let mut sensations = VecDeque::new();
    let mut crops = VecDeque::new();
    let id = fresh_id();
    let record = record_face_crop(
        id,
        now(),
        &frame,
        detected(),
        0,
        &None,
        &mut last,
        &mut sensations,
        &mut crops,
    )
    .expect("a new face");
    assert_eq!(record.payload.observation_id, id_text(id));
    assert_eq!(record.payload.source, "face-browser/camera.default/face");
    assert_eq!(record.payload.embedding_dim, 2);
    assert_eq!(sensations.len(), 1);
    assert_eq!(crops.len(), 1);
    assert_eq!(crops[0].source_frame_id, frame.sensation.id);
    assert!(record_face_crop(
        fresh_id(),
        now(),
        &frame,
        detected(),
        1,
        &Some("0.96".to_string()),
        &mut last,
        &mut sensations,
        &mut crops,
    )
    .is_none());
    assert_eq!(sensations.len(), 1);
}

#[test]
fn face_match_sensation_carries_provenance_and_score() {
    let face_sensation_id = fresh_id();
    let observation_id = id_text(fresh_id());
    let memory_match = FaceMemoryMatch {
        person_candidate_id: Some("person_candidate:abc".to_string()),
        qdrant_point_id: "qpt-1".to_string(),
        face_observation_id: observation_id.clone(),
        score: "0.92".to_string(),
        observed_at: now(),
        source: "camera.default/face".to_string(),
        bbox: Some(BBox {
            x1: "10.0".to_string(),
            y1: "20.0".to_string(),
            x2: "30.0".to_string(),
            y2: "40.0".to_string(),
        }),
    };

    let record = build_face_match_sensation(fresh_id(), now(), face_sensation_id, &memory_match);

    assert_eq!(record.kind, "memory.face_match");
    assert_eq!(record.source.faculty, "face.memory");
    assert_eq!(record.source.client_id, "memory");
    assert!(record.provenance.references_sensation(face_sensation_id));
    assert_eq!(record.detail.str_field("face_observation_id"), Some(observation_id.as_str()));
    assert_eq!(record.detail.str_field("person_candidate_id"), Some("person_candidate:abc"));
    assert_eq!(record.detail.get("score"), Some(&Json::Number("0.92".to_string())));
    assert_eq!(
        record.detail.get("bbox").and_then(|b| b.get("x1")),
        Some(&Json::Number("10.0".to_string()))
    );
    assert_eq!(record.occurred_at, record.observed_at);
    assert_eq!(record.data_bytes, record.detail.to_text().len());
}

fn clip_with_samples(sequence: u64, samples: Vec<f32>) -> AcceptedAudioClip {
    AcceptedAudioClip {
        client_id: "face-browser".to_string(),
        sensor_id: "microphone.default".to_string(),
        sequence,
        occurred_at: now(),
        samples: samples.into_iter().map(f32::to_bits).collect(),
    }
}

#[test]
fn session_closes_group_after_silence() {
    let mut session = AsrSession::new();
    let speech_clip = clip_with_samples(1, vec![0.05; ASR_FRAME_SAMPLES * 10]);
    assert!(session.accept_clip(&speech_clip, &vec![true; 10]).is_empty());

    let silence_clip = clip_with_samples(2, vec![0.0; ASR_FRAME_SAMPLES * 80]);
    let groups = session.accept_clip(&silence_clip, &vec![false; 80]);

    assert_eq!(groups.len(), 1);
    assert_eq!(groups[0].sequence_start, 1);
    assert_eq!(groups[0].sequence_end, 2);
}

#[test]
fn open_speech_is_flushed() {
    let mut session = AsrSession::new();
    let clip = clip_with_samples(1, vec![0.05; ASR_FRAME_SAMPLES * 10]);
    session.accept_clip(&clip, &vec![true; 10]);
    let groups = session.flush();
    assert_eq!(groups.len(), 1);
    assert!(groups[0].is_final);
    assert!(session.flush().is_empty());
}

fn audio_message(data: &str) -> AudioClipMessage {
    AudioClipMessage {
        kind: "audio.clip".to_string(),
        client_id: "face-browser".to_string(),
        sensor_id: "microphone.default".to_string(),
        faculty: "asr".to_string(),
        sequence: 3,
        occurred_at: now(),
        duration_ms: 100,
        sample_rate_hz: 16_000,
        channels: 1,
        sample_format: "f32le".to_string(),
        data: data.to_string(),
    }
}

#[test]
fn sound_is_read_from_its_text() {
    let message = audio_message("AAAAPwAAgD8=");
    assert!(validate_clip(&message).is_ok());
    let clip = accept_clip(&message).unwrap();
    assert_eq!(clip.samples, vec![0.5f32.to_bits(), 1.0f32.to_bits()]);
    let accepted = resampled(clip, vec![7]);
    assert_eq!(accepted.sequence, 3);
    assert_eq!(accepted.samples, vec![7]);
    assert!(accept_clip(&audio_message("!!")).unwrap_err().starts_with("invalid base64 audio data: "));
}

#[test]
fn wild_samples_are_tamed() {
    assert_eq!(tame(0.25f32.to_bits()), 0.25f32.to_bits());
    assert_eq!(tame(2.0f32.to_bits()), 1.0f32.to_bits());
    assert_eq!(tame((-2.0f32).to_bits()), (-1.0f32).to_bits());
}

fn heard(sentences: Vec<SentenceTranscript>) -> TranscriptResult {
    TranscriptResult {
        client_id: "face-browser".to_string(),
        sensor_id: "microphone.default".to_string(),
        sequence_start: 3,
        sequence_end: 5,
        occurred_at: parse_rfc3339("2026-06-04T12:00:00Z").unwrap(),
        samples: vec![0; 16_000],
        sentences,
        is_final: true,
    }
}

fn sentence(text: &str, start_ms: u64, end_ms: u64) -> SentenceTranscript {
    SentenceTranscript { text: text.to_string(), start_ms, end_ms }
}

fn ids(n: u128) -> RecordIds {
    RecordIds { sensation: Id { bits: 2 * n }, impression: Id { bits: 2 * n + 1 } }
}

#[test]
fn a_silent_sentence_needs_no_time() {
    let mut result = heard(vec![sentence("Far off.", i64::MAX as u64, u64::MAX)]);
    result.samples.clear();
    assert!(can_be_dated(&result));
    let at = parse_rfc3339("2026-06-04T12:00:01Z").unwrap();
    assert!(record_transcript(&result, at, &vec![ids(1)]).is_empty());
}

#[test]
fn only_a_closed_group_is_recorded_by_its_sentences() {
    let at = parse_rfc3339("2026-06-04T12:00:01Z").unwrap();
    let mut result = heard(vec![sentence("Hello there.", 0, 500)]);
    match record_heard(&result, at, &vec![ids(1)], ids(9)) {
        Heard::Sentences(records) => {
            assert_eq!(records, record_transcript(&result, at, &vec![ids(1)]));
            assert_eq!(records.len(), 1);
        }
        Heard::Hypothesis(_) => panic!("the group is closed"),
    }
    result.is_final = false;
    match record_heard(&result, at, &Vec::new(), ids(9)) {
        Heard::Hypothesis(Some(record)) => {
            assert_eq!(record.impression.text, "I may be hearing: Hello there.");
            assert_eq!(record.sensation.id, ids(9).sensation);
        }
        _ => panic!("the group is open"),
    }
    result.sentences = vec![sentence("  ", 0, 500)];
    assert!(matches!(
        record_heard(&result, at, &Vec::new(), ids(9)),
        Heard::Hypothesis(None)
    ));
}

#[test]
fn a_frame_is_decoded_to_its_pixels() {
    let pixels = image::RgbImage::from_pixel(4, 2, image::Rgb([200, 200, 200]));
    let mut bytes = std::io::Cursor::new(Vec::new());
    pixels.write_to(&mut bytes, image::ImageFormat::Jpeg).expect("encoded");
    let standard = base64::engine::general_purpose::STANDARD;
    let data = base64::Engine::encode(&standard, bytes.get_ref());
    let picture =
        decode_frame_image(&raw_frame(&format!("data:image/jpeg;base64,{data}"))).expect("decoded");
    assert_eq!((picture.width, picture.height, picture.rgb.len()), (4, 2, 24));
    assert!(picture.rgb.iter().all(|channel| channel.abs_diff(200) < 4));
    assert_eq!(
        decode_frame_image(&raw_frame("data:image/jpeg;base64,aGk=")).unwrap_err(),
        "failed to decode vision frame image"
    );
    assert_eq!(
        decode_frame_image(&raw_frame("data")).unwrap_err(),
        "vision frame data URL is missing base64 separator"
    );
}

#[test]
fn a_transcript_becomes_a_record_for_each_sentence() {
    let result = heard(vec![
        sentence("Hello there.", 0, 500),
        sentence("Beyond the sound.", 5_000, 6_000),
        sentence("Bye.", 600, 900),
    ]);
    let at = parse_rfc3339("2026-06-04T12:00:02Z").unwrap();
    let records = record_transcript(&result, at, &vec![ids(1), ids(2), ids(3)]);
    assert_eq!(records.len(), 2);
    assert_eq!(records[0].clip.text, "Hello there.");
    assert_eq!(records[0].impression.text, "I hear someone say: Hello there.");
    assert_eq!(records[1].clip.start_ms, 600);
    assert_eq!(
        records[1].sensation.occurred_at,
        parse_rfc3339("2026-06-04T12:00:00.600Z").unwrap()
    );
    assert!(matches!(
        &records[0].event,
        RealTimeExperienceEvent::AsrTranscript { is_final: true, sentence_index: Some(0), .. }
    ));
    let (mut sensations, mut clips, mut impressions) =
        (VecDeque::new(), VecDeque::new(), VecDeque::new());
    file_sentence(&records[0], &mut sensations, &mut clips, &mut impressions);
    assert_eq!((sensations.len(), clips.len(), impressions.len()), (1, 1, 1));
}

#[test]
fn a_guess_is_recorded_as_one() {
    let result = heard(vec![sentence("Maybe", 0, 500)]);
    let record = record_speculative_transcript(&result, now(), ids(4)).expect("some words");
    assert_eq!(record.sensation.kind, "audio.utterance_hypothesis");
    assert_eq!(record.impression.text, "I may be hearing: Maybe");
    assert_eq!(record.impression.confidence, Confidence::of("0.41999998688697815"));
    assert!(record_speculative_transcript(&heard(vec![]), now(), ids(5)).is_none());
}

#[test]
fn sentences_are_cut_out_of_the_sound() {
    assert_eq!(ms_to_sample_index(500), 8_000);
    let samples: Vec<u32> = (0..32).collect();
    assert_eq!(slice_samples_for_sentence(&samples, 1, 2), (16..32).collect::<Vec<u32>>());
    assert_eq!(normalize_transcript_text("  a  b "), "a b");
}

#[test]
fn a_worker_answers_to_its_number() {
    assert!(matches!(judge_worker_response(1, 2, &None), WorkerReply::Other));
    assert!(matches!(judge_worker_response(1, 1, &None), WorkerReply::Sentences));
    assert!(matches!(
        judge_worker_response(1, 1, &Some("no model".to_string())),
        WorkerReply::Failed { error } if error == "ASR worker failed: no model"
    ));
    assert_eq!(next_request_id(1), Ok(2));
    assert_eq!(next_request_id(u64::MAX), Err("ASR worker id overflow".to_string()));
}

#[test]
fn nothing_heard_is_no_transcript() {
    let mut session = AsrSession::new();
    session.accept_clip(&clip_with_samples(1, vec![0.05; ASR_FRAME_SAMPLES * 10]), &vec![true; 10]);
    let group = session.flush().pop().unwrap();
    assert!(transcript_of(group, vec![]).is_none());
}

#[test]
fn a_voice_is_named_by_its_vector() {
    let vector: Vec<u32> = (0..16).map(|i| (i as f32 / 16.0).to_bits()).collect();
    let first = identify_voice(&vector);
    let second = identify_voice(&vector);
    assert_eq!(first.signature_id, second.signature_id);
    assert!(first.voice_node_id.starts_with("voice:"));
    let mut other = vector.clone();
    other[0] = 1.0f32.to_bits();
    assert_ne!(first.signature_id, identify_voice(&other).signature_id);
    assert_eq!(min_voice_samples(16_000), 800);
    assert_eq!(duration_ms(1_600, 16_000), 100);
}

#[test]
fn a_socket_needs_a_known_channel() {
    assert_eq!(faculties(), vec!["vision-frame", "face", "motion", "scene"]);
    assert!(admit_socket("motion").is_ok());
    assert_eq!(admit_socket("smell").unwrap_err(), "unknown faculty 'smell'");
}

#[test]
fn only_words_are_spoken() {
    let job = accept_synthesis("  hello ", None).unwrap_or_else(|_| panic!("accepted"));
    assert_eq!(job.text, "hello");
    assert_eq!(job.variant, "en-US");
    match accept_synthesis(" ", Some("en-GB".to_string())) {
        Err(e) => assert_eq!(e, "text must not be empty"),
        Ok(_) => panic!("accepted a blank text"),
    }
}

#[test]
fn a_moment_is_a_plain_value() {
    let t: Timestamp = now();
    assert!(t.at_most(&now()));
}

#[test]
fn numbers_are_ordered_by_what_they_are() {
    let judged = |latitude: &str| {
        let mut location = valid_location(LOCATION_CHANNEL);
        location.latitude = latitude.to_string();
        validate_location(LOCATION_CHANNEL, &location).is_ok()
    };
    for latitude in ["-90", "-90.0", "-0.0", "0", "1e1", "90", "89.99999"] {
        assert!(judged(latitude), "{latitude}");
    }
    for latitude in ["-90.0001", "-1e3", "90.0001", "91", "north"] {
        assert!(!judged(latitude), "{latitude}");
    }
}

#[test]
fn faces_are_compared_in_single_precision() {
    let embedding = vec![1.0f32.to_bits()];
    let alike = |similarity: &str| {
        let mut last = Some(embedding.clone());
        is_similar_to_last_face(&mut last, &embedding, &Some(similarity.to_string()))
    };
    for similarity in ["0.95", "0.95000001", "0.9499999880790711", "0.94", "-0.99", "0", "none"] {
        assert!(!alike(similarity), "{similarity}");
    }
    for similarity in ["0.9500001", "0.96", "1", "1e300"] {
        assert!(alike(similarity), "{similarity}");
    }
}
