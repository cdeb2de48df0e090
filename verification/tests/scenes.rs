use std::collections::VecDeque;

use psyche::context_frame::ContextFrame;
use psyche::ident::{fresh_id, id_text, Id};
use psyche::impression::Confidence;
use psyche::json::{parse, Json};
use psyche::messages::{
    MediaRecord, RealTimeExperienceEvent, SensationRecord, SensationSource, VisionImpressionRecord,
};
use psyche::scene::{
    age_phrase, build_prompt_from_records, context_frame_request, draft_scene, experience_request,
    failed_generation_text, fallback_impression_faculty, fallback_impression_for_record,
    fallback_impression_kind, parse_experience_records, person_label, record_generated_experiences,
    scene_prompt, select_records_for_experience_prompt, streamable_chunks, PerceivedPerson,
    TraceGate, RECENT_SENSATION_PROMPT_LIMIT,
};
use psyche::scene_context::{
    compact_context_frame, context_draft, context_frame_system_prompt, extract_json,
    format_context_frame_prompt, parse_generated_context_frame, revised_context_frame,
};
use psyche::sensation::Provenance;
use psyche::time::{now, Timestamp};

fn json(text: &str) -> Json {
    parse(text).expect("valid json")
}

fn later(t: Timestamp, ms: i64) -> Timestamp {
    t.plus_millis(ms).expect("within range")
}

fn sensation_record(
    id: Id,
    sequence: u64,
    occurred_at: Timestamp,
) -> SensationRecord {
    SensationRecord {
        id,
        kind: "vision.frame".to_string(),
        occurred_at,
        observed_at: occurred_at,
        source: SensationSource {
            client_id: "face-browser".to_string(),
            sensor_id: "camera.default".to_string(),
            faculty: "vision-frame".to_string(),
        },
        sequence,
        media: MediaRecord {
            mime: "image/jpeg".to_string(),
            width: 320,
            height: 240,
            encoding: "base64-data-url".to_string(),
        },
        provenance: Provenance::direct(),
        data_sha256: format!("sha-{sequence}"),
        data_bytes: 128,
        detail: json("{}"),
    }
}

fn vision_impression(
    sensation_id: Id,
    occurred_at: Timestamp,
    text: &str,
) -> VisionImpressionRecord {
    VisionImpressionRecord {
        id: fresh_id(),
        sensation_id,
        occurred_at,
        observed_at: occurred_at,
        source: SensationSource {
            client_id: "face-browser".to_string(),
            sensor_id: "camera.default".to_string(),
            faculty: "vision-frame".to_string(),
        },
        sequence: 0,
        text: text.to_string(),
        kind: "vision".to_string(),
        faculty: "vision".to_string(),
        confidence: Confidence::of("0.6499999761581421"),
        payload: json("{\"source\": \"test\"}"),
    }
}

fn face_record(id: Id, occurred_at: Timestamp) -> SensationRecord {
    SensationRecord {
        id,
        kind: "vision.face_crop".to_string(),
        occurred_at,
        observed_at: occurred_at,
        source: SensationSource {
            client_id: "face-browser".to_string(),
            sensor_id: "camera.default".to_string(),
            faculty: "face".to_string(),
        },
        sequence: 2,
        media: MediaRecord {
            mime: "image/jpeg".to_string(),
            width: 96,
            height: 96,
            encoding: "base64-data-url".to_string(),
        },
        provenance: Provenance::direct(),
        data_sha256: "face-sha".to_string(),
        data_bytes: 256,
        detail: json(
            "{\"estimated_sex\": \"female\", \"estimated_age_years\": 28, \"detection_confidence\": 0.876}",
        ),
    }
}

#[test]
fn prompt_includes_vision_impression_for_original_sensation_outside_recent_window() {
    let t0 = now();
    let original_id = fresh_id();
    let original = sensation_record(original_id, 0, t0);
    let mut records = vec![original.clone()];
    for sequence in 1..=RECENT_SENSATION_PROMPT_LIMIT as u64 + 1 {
        records.push(sensation_record(
            fresh_id(),
            sequence,
            later(t0, sequence as i64),
        ));
    }

    let impression_text = "I see a red mug on the desk.";
    let impressions = vec![vision_impression(original_id, t0, impression_text)];

    let selected = select_records_for_experience_prompt(&records, &impressions);
    assert!(selected.iter().any(|record| record.id == original_id));

    let prompt = build_prompt_from_records(&records, &impressions);
    assert!(prompt.contains(&format!("SENSATION vision.frame id={}", id_text(original_id))));
    assert!(prompt.contains(impression_text));
    assert!(prompt.contains(&format!("about=[{}]", id_text(original_id))));
    assert!(prompt.contains("Return only plain text, not JSON"));
    assert!(prompt.contains("Write as first-person lived experience"));
    assert!(prompt.contains("what I see, where I am, and what seems present"));
    assert!(!prompt.contains("{\"experiences\""));
}

#[test]
fn generated_plain_text_becomes_one_experience_for_recent_impressions() {
    let t0 = now();
    let old = vision_impression(fresh_id(), t0, "Old context.");
    let old_id = old.id;
    let first = vision_impression(
        fresh_id(),
        later(t0, 10),
        "A man is present.",
    );
    let second = vision_impression(
        fresh_id(),
        later(t0, 20),
        "The same man is still near the camera.",
    );
    let generated = "\nA man appears to be present near the camera. The repeated views seem to be the same ongoing moment, not separate events.\n";

    let records = parse_experience_records(
        generated,
        &vec![old, first.clone(), second.clone()],
        now(),
        fresh_id(),
    );

    assert_eq!(records.len(), 1);
    assert_eq!(
        records[0].what,
        "A man appears to be present near the camera. The repeated views seem to be the same ongoing moment, not separate events."
    );
    assert_eq!(records[0].impression_ids, vec![old_id, first.id, second.id]);
}

#[test]
fn fallback_face_impression_includes_estimated_attributes() {
    let record = face_record(fresh_id(), now());

    let impression = fallback_impression_for_record(&record);

    assert!(impression.contains("I see a face"));
    assert!(impression.contains("I think it's a woman in her late 20s."));
    assert!(!impression.contains("attribute model"));
    assert!(!impression.contains("detection confidence"));
}

#[test]
fn prompt_includes_face_attribute_fallback_impression() {
    let t0 = now();
    let face_id = fresh_id();
    let records = vec![face_record(face_id, t0)];

    let prompt = build_prompt_from_records(&records, &Vec::new());

    assert!(prompt.contains(&format!("SENSATION vision.face_crop id={}", id_text(face_id))));
    assert!(prompt.contains("I think it's a woman in her late 20s."));
    assert!(!prompt.contains("attribute model"));
    assert!(!prompt.contains("detection confidence"));
}

#[test]
fn context_frame_prompt_requests_real_physical_location_facts() {
    let fallback = ContextFrame {
        who: Vec::new(),
        what: vec!["A current scene is visible.".to_owned()],
        where_: Vec::new(),
        when: "now".to_owned(),
        why: Vec::new(),
        how: vec!["vision".to_owned()],
    };

    let system = context_frame_system_prompt();
    let prompt = format_context_frame_prompt(&fallback, &[]);

    assert!(system.contains("Use real physical location facts for WHERE"));
    assert!(system.contains("do not invent"));
    assert!(prompt.contains("where the system is physically located"));
    assert!(prompt.contains("indoors or outdoors"));
    assert!(prompt.contains("town or region"));
    assert!(prompt.contains("hemisphere"));
    assert!(prompt.contains("coordinates"));
    assert!(prompt.contains("omit that unknown rather than guessing"));
}

#[test]
fn generated_context_frame_parser_accepts_envelope_and_sanitizes_bad_items() {
    let fallback = ContextFrame {
        who: Vec::new(),
        what: vec!["I see a person near a shelf.".to_owned()],
        where_: vec!["room with shelves".to_owned()],
        when: "now".to_owned(),
        why: vec!["Understand what appears to be happening right now.".to_owned()],
        how: vec!["vision".to_owned()],
    };
    let generated = r#"{
        "context_frame": {
            "who": ["I'm", "a bearded man"],
            "what": ["A man appears to be looking toward me."],
            "where": ["his early 40s", "a room with shelves"],
            "when": "now",
            "why": [],
            "how": ["vision"]
        }
    }"#;

    let context =
        parse_generated_context_frame(generated, &fallback).expect("generated context frame");

    assert_eq!(context.who, vec!["a bearded man".to_owned()]);
    assert_eq!(
        context.what,
        vec!["A man appears to be looking toward me.".to_owned()]
    );
    assert_eq!(context.where_, vec!["a room with shelves".to_owned()]);
    assert_eq!(context.why, fallback.why);
}

#[test]
fn generated_context_frame_keeps_full_what_bullets() {
    let fallback = ContextFrame {
        who: Vec::new(),
        what: vec!["fallback".to_owned()],
        where_: Vec::new(),
        when: "now".to_owned(),
        why: vec!["Understand what appears to be happening right now.".to_owned()],
        how: Vec::new(),
    };
    let long_what = "A person is describing a specific workflow at the desk with several details about the tools, timing, camera view, and current interaction that should remain intact in the context frame.";
    let generated = format!(
        "{{\"context_frame\": {{\"who\": [], \"what\": [\"{long_what}\"], \"where\": [], \"when\": \"now\", \"why\": [], \"how\": []}}}}"
    );

    let context =
        parse_generated_context_frame(&generated, &fallback).expect("generated context frame");

    assert_eq!(context.what, vec![long_what.to_owned()]);
    assert!(!context.render().contains('…'));
}

#[test]
fn compact_context_frame_combines_redundant_visual_context() {
    let context = compact_context_frame(&ContextFrame {
        who: Vec::new(),
        what: vec![
            "I'm looking with my eye (camera.default).".to_owned(),
            "I see a face (in my eye \"camera.default\"). I think it's a man in his mid 30s."
                .to_owned(),
            "I see a man with light brown hair and a beard looking directly ahead in the visual content."
                .to_owned(),
            "I see a man with reddish hair sitting on what appears to be a bed, with some cans and wires visible in the background."
                .to_owned(),
        ],
        where_: vec!["the visual content".to_owned(), "the background".to_owned()],
        when: "now".to_owned(),
        why: vec!["Understand what appears to be happening right now.".to_owned()],
        how: vec![
            "vision".to_owned(),
            "face-browser:camera.default:vision".to_owned(),
            "face".to_owned(),
            "face-browser:camera.default:face".to_owned(),
        ],
    });

    assert_eq!(context.who, vec!["a man".to_owned()]);
    assert_eq!(context.what.len(), 1);
    assert_eq!(
        context.what[0],
        "A man with light brown or reddish hair and a beard is sitting and looking ahead near a bed, cans, and wires."
    );
    assert!(context.where_.is_empty());
    assert_eq!(context.how, vec!["vision".to_owned()]);
}

#[test]
fn an_answer_is_found_among_other_words() {
    assert_eq!(extract_json("so: {\"a\": 1} done"), Some("{\"a\": 1}".to_string()));
    assert_eq!(extract_json("nothing here"), None);
    let draft = context_draft(&json("{\"who\": [\"Tim\"]}")).expect("a draft");
    assert_eq!(draft.who, vec!["Tim".to_string()]);
    let fallback = ContextFrame {
        who: vec![],
        what: vec!["Something is going on.".to_string()],
        where_: vec![],
        when: "now".to_string(),
        why: vec![],
        how: vec![],
    };
    let revised = revised_context_frame(&draft, &fallback).expect("a frame");
    assert_eq!(revised.who, vec!["Tim".to_string()]);
    assert_eq!(revised.what, fallback.what);
}

#[test]
fn a_scene_is_asked_about() {
    let t0 = now();
    let records = vec![face_record(fresh_id(), t0)];
    let scene = draft_scene(&records, &Vec::new());
    let request = context_frame_request(&scene);
    assert_eq!(request.messages[0].content, context_frame_system_prompt());
    assert_eq!(request.max_tokens, Some(220));
    let prompt = scene_prompt(&scene, &None);
    assert!(prompt.contains("vision.face_crop"));
    let request = experience_request(&prompt);
    assert_eq!(request.max_tokens, Some(1024));
    assert_eq!(request.stop, vec!["<turn|>".to_string()]);
    assert_eq!(request.messages[1].content, prompt);
}

#[test]
fn experiences_are_stored_and_told() {
    let generation = fresh_id();
    let impressions = vec![vision_impression(fresh_id(), now(), "A man is present.")];
    let records = parse_experience_records("He waits.", &impressions, now(), fresh_id());
    let mut stored = VecDeque::new();
    let events = record_generated_experiences(generation, &records, &mut stored);
    assert_eq!(stored.len(), 1);
    assert_eq!(stored[0].confidence, Confidence::of("0.550000011920929"));
    assert!(matches!(
        &events[0],
        RealTimeExperienceEvent::Experience { generation_id, experience }
        if *generation_id == generation && experience.what == "He waits."
    ));
    assert!(parse_experience_records(" ", &impressions, now(), fresh_id()).is_empty());
}

#[test]
fn a_look_asked_for_meanwhile_is_taken_afterwards() {
    let mut looks = TraceGate::new();
    assert!(looks.ask());
    assert!(!looks.ask());
    assert!(looks.end());
    assert!(looks.ask());
    assert!(!looks.end());
}

#[test]
fn a_text_is_streamed_in_chunks() {
    assert_eq!(streamable_chunks("ab cd efgh i", 3), vec!["ab ", "cd ", "efgh ", "i"]);
    assert_eq!(streamable_chunks("abcdefg", 3), vec!["abcdefg"]);
    assert_eq!(
        failed_generation_text("no model"),
        "Gemma 4 Experience generation failed: no model"
    );
}

#[test]
fn people_are_described_by_their_looks() {
    assert_eq!(person_label("Female"), Some(PerceivedPerson::Woman));
    assert_eq!(person_label("male"), Some(PerceivedPerson::Man));
    assert_eq!(person_label("other"), None);
    assert_eq!(age_phrase(28, "her"), "in her late 20s");
    assert_eq!(age_phrase(41, "his"), "in his early 40s");
    let record = face_record(fresh_id(), now());
    assert_eq!(fallback_impression_kind(&record), "vision");
    assert_eq!(fallback_impression_faculty(&record), "vision");
}

#[test]
fn tidying_up_again_changes_nothing() {
    let long = "word ".repeat(60);
    let frames = [
        ContextFrame {
            who: Vec::new(),
            what: vec![
                "I see a woman sitting by a shelf.".to_owned(),
                "I see a woman with red hair.".to_owned(),
                "Something hums.".to_owned(),
            ],
            where_: vec!["the background".to_owned(), "a  workshop".to_owned(), long.clone()],
            when: "now".to_owned(),
            why: vec![long, "Another reason.".to_owned()],
            how: vec!["camera:default".to_owned(), "audio".to_owned()],
        },
        ContextFrame {
            who: vec!["Ada".to_owned(), "his early 40s".to_owned()],
            what: vec!["I'm looking with my eye (camera).".to_owned()],
            where_: Vec::new(),
            when: String::new(),
            why: Vec::new(),
            how: vec!["face".to_owned(), "vision".to_owned()],
        },
    ];
    for frame in frames {
        let once = compact_context_frame(&frame);
        assert_eq!(compact_context_frame(&once), once);
        assert_eq!(once.when, frame.when);
        assert!(once.who.len() <= 2 && once.what.len() <= 2 && once.where_.len() <= 2);
        assert!(once.why.len() <= 1 && once.how.len() <= 2);
    }
}
