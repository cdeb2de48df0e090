use psyche::experience::{Episode, Experience, ExperienceLink, ExperienceLinkKind};
use psyche::faculty::{Faculty, FacultyRegistry, FacultyRegistryError, RegisteredFaculty};
use psyche::ident::{fresh_id, id_text, Id};
use psyche::impression::{Confidence, Impression};
use psyche::json::{parse, Json};
use psyche::llm::{refused_append, GenerationRequest, LlmEngine, LlmEvent, MockLlmEngine};
use psyche::memory::{recollection_at, InMemory, InMemoryLinked, LinkedMemory, Memory};
use psyche::mock::{MockCognition, MockEmitter, MockFaculty, MockFacultyRule, MockWit, MockWitRule};
use psyche::pipeline::Pipeline;
use psyche::sensation::{Provenance, Sensation};
use psyche::time::{local_iso, now, parse_rfc3339, Span, Timestamp};
use psyche::timeline::{event_clusters, TimelineEntry, TimelineEntryKind, TimelineFrame};
use psyche::wit::Wit;

fn json(text: &str) -> Json {
    parse(text).expect("valid json")
}

fn later(t: Timestamp, ms: i64) -> Timestamp {
    t.plus_millis(ms).expect("within range")
}

#[test]
fn experience_experience_references_impressions() {
    let s = Sensation::new("audio.utterance", "mic", now(), now(), json("{}"));
    let imp = Impression::new(vec![s.id], now(), now(), "The speaker said hello.");
    let exp = Experience::new(vec![imp.id], now(), now(), "Someone greeted the system.");
    assert!(exp.impression_ids.contains(&imp.id));
}

struct DeterministicFaculty {
    name: String,
}

impl Faculty for DeterministicFaculty {
    fn process(&mut self, sensation: &Sensation) -> (Vec<Sensation>, Vec<Impression>) {
        let mut impression = Impression::new(
            vec![sensation.id],
            sensation.occurred_at,
            sensation.observed_at,
            &format!("{} noticed {}", self.name, sensation.kind),
        );
        impression.id = Id { bits: 0 };
        (vec![], vec![impression])
    }
}

type Build = fn() -> Box<dyn Faculty>;

fn build_speech() -> Box<dyn Faculty> {
    Box::new(DeterministicFaculty { name: "speech".to_owned() })
}

fn build_context() -> Box<dyn Faculty> {
    Box::new(DeterministicFaculty { name: "context".to_owned() })
}

fn build_vision() -> Box<dyn Faculty> {
    Box::new(DeterministicFaculty { name: "vision".to_owned() })
}

#[test]
fn registry_registers_and_lists_faculties() {
    let mut registry: FacultyRegistry<Build> = FacultyRegistry::new();
    registry
        .register("speech", vec!["audio.utterance".to_owned()], build_speech)
        .expect("register speech");
    registry
        .register("vision", vec!["vision.frame".to_owned()], build_vision)
        .expect("register vision");

    assert_eq!(
        registry.list(),
        vec![
            RegisteredFaculty {
                name: "speech".to_owned(),
                accepted_kinds: vec!["audio.utterance".to_owned()],
            },
            RegisteredFaculty {
                name: "vision".to_owned(),
                accepted_kinds: vec!["vision.frame".to_owned()],
            },
        ]
    );
}

#[test]
fn registry_rejects_duplicate_names() {
    let mut registry: FacultyRegistry<Build> = FacultyRegistry::new();
    registry
        .register("speech", vec!["audio.utterance".to_owned()], build_speech)
        .expect("register speech");

    let duplicate = registry.register("speech", vec!["vision.frame".to_owned()], build_speech);
    assert_eq!(duplicate, Err(FacultyRegistryError::DuplicateName("speech".to_owned())));
    assert_eq!(registry.list().len(), 1);
}

#[test]
fn behavior_multiple_selected_faculties_react_to_one_sensation() {
    let mut registry: FacultyRegistry<Build> = FacultyRegistry::new();
    registry
        .register("speech", vec!["audio.utterance".to_owned()], build_speech)
        .expect("register speech");
    registry
        .register("context", vec!["audio.utterance".to_owned()], build_context)
        .expect("register context");
    registry
        .register("vision", vec!["vision.frame".to_owned()], build_vision)
        .expect("register vision");

    let mut faculties: Vec<Box<dyn Faculty>> =
        registry.select_for_kind("audio.utterance");
    let sensation =
        Sensation::new("audio.utterance", "mic", now(), now(), json("{\"text\": \"hello\"}"));
    let reactions: Vec<String> = faculties
        .iter_mut()
        .flat_map(|faculty| {
            let (_, impressions) = faculty.process(&sensation);
            impressions.into_iter().map(|impression| impression.text)
        })
        .collect();

    assert_eq!(
        reactions,
        vec![
            "speech noticed audio.utterance".to_owned(),
            "context noticed audio.utterance".to_owned(),
        ]
    );
}

#[test]
fn impression_impression_references_sensations() {
    let s = Sensation::new("vision.frame", "camera_0", now(), now(), json("{}"));
    let imp = Impression::new(vec![s.id], now(), now(), "I see one face.");
    assert!(imp.about.contains(&s.id));
}

#[test]
fn a_new_impression_is_unclassified() {
    let imp = Impression::new(vec![], now(), now(), "Something.");
    assert_eq!(imp.kind, "observation.unknown");
    assert_eq!(imp.confidence, Confidence::of("0.5"));
    assert_eq!(imp.faculty, "");
    assert_eq!(imp.payload, Json::Null);
}

#[test]
fn impression_propagates_source_occurred_at_for_delayed_sensation() {
    let occurred = now();
    let observed = later(occurred, 30_000);
    let s = Sensation::new("vision.frame", "camera_0", occurred, observed, json("{}"));
    let imp = Impression::new(vec![s.id], s.occurred_at, s.observed_at, "One face detected.");

    assert_eq!(
        imp.occurred_at, occurred,
        "impression occurred_at must match the source sensation's occurred_at"
    );
    assert_eq!(
        imp.observed_at, observed,
        "impression observed_at must match the source sensation's observed_at"
    );
}

#[test]
fn confidence_is_written_with_its_places() {
    assert_eq!(Confidence::of("0.8199999928474426").text3(), "0.820");
    assert_eq!(Confidence::of("0.8199999928474426").text2(), "0.82");
    assert_eq!(Confidence::of("0.8259999752044678").text2(), "0.83");
    assert_eq!(Confidence::of("1.0").text3(), "1.000");
    let weighed = |x: f32| Confidence::of(&f64::from(x).to_string());
    assert_eq!(weighed(0.575).text2(), "0.57");
    assert_eq!(weighed(0.575).text2(), format!("{:.2}", 0.575f32));
    assert_eq!(weighed(0.045).text2(), format!("{:.2}", 0.045f32));
    assert_eq!(weighed(0.12345).text3(), "0.123");
    assert_ne!(weighed(0.12345), weighed(0.123));
}

#[test]
fn mock_llm_streams_tokens_before_completion() {
    let mut engine = MockLlmEngine::with_response(vec!["hello".to_owned()]);
    let id = engine
        .start(GenerationRequest {
            prompt: "say hello".to_owned(),
            messages: Vec::new(),
            images: Vec::new(),
            max_tokens: None,
            stop: Vec::new(),
        })
        .expect("start should succeed");

    assert_eq!(
        engine.poll(id).expect("poll should succeed"),
        vec![LlmEvent::Token { text: "hello".to_owned() }]
    );
    assert_eq!(engine.poll(id).expect("poll should complete"), vec![LlmEvent::Completed]);
    assert_eq!(
        engine.poll(id).expect("poll should report"),
        vec![LlmEvent::Error { message: "generation not found".to_owned() }]
    );
    assert_eq!(engine.cancel(id).unwrap_err().message, "generation not found");
}

struct Deaf;

impl LlmEngine for Deaf {
    fn start(
        &mut self,
        _request: GenerationRequest,
    ) -> Result<psyche::llm::GenerationId, psyche::llm::LlmError> {
        Ok(psyche::llm::GenerationId(Id { bits: 0 }))
    }

    fn poll(
        &mut self,
        _id: psyche::llm::GenerationId,
    ) -> Result<Vec<LlmEvent>, psyche::llm::LlmError> {
        Ok(vec![])
    }

    fn cancel(&mut self, _id: psyche::llm::GenerationId) -> Result<(), psyche::llm::LlmError> {
        Ok(())
    }

    fn append_prompt(
        &mut self,
        id: psyche::llm::GenerationId,
        _text: String,
    ) -> Result<(), psyche::llm::LlmError> {
        Err(refused_append(id))
    }
}

#[test]
fn an_engine_that_cannot_refuses_appends() {
    let mut engine = Deaf;
    let id = engine.start(GenerationRequest::default()).expect("start");
    assert_eq!(
        engine.append_prompt(id, "more".to_owned()).unwrap_err().message,
        "generation GenerationId(00000000-0000-0000-0000-000000000000) does not support prompt appends"
    );
}

#[test]
fn delayed_observation_has_observed_at_after_occurred_at() {
    let occurred = now();
    let observed = later(occurred, 10_000);
    let s = Sensation::new("vision.frame", "camera_0", occurred, observed, json("{}"));
    assert!(
        s.observed_at > s.occurred_at,
        "delayed observation: observed_at must be after occurred_at"
    );
}

#[test]
fn live_sensation_may_have_equal_timestamps() {
    let t = now();
    let s = Sensation::new("audio.utterance", "mic", t, t, json("{}"));
    assert_eq!(s.occurred_at, s.observed_at);
    assert_eq!(s.sequence, None);
    assert_eq!(s.provenance, Provenance::direct());
}

#[test]
fn local_iso_includes_explicit_offset() {
    let timestamp = parse_rfc3339("2026-06-04T12:34:56.789Z").expect("valid timestamp");

    let formatted = local_iso(timestamp);

    assert!(!formatted.ends_with('Z'));
    let offset = &formatted[formatted.len() - 6..];
    assert!(offset.starts_with('+') || offset.starts_with('-'));
    assert_eq!(&offset[3..4], ":");
    let parsed = parse_rfc3339(&formatted).expect("valid local ISO timestamp");
    assert_eq!(parsed, timestamp);
}

#[test]
fn moments_are_written_and_read_back() {
    let t = parse_rfc3339("2026-06-04T14:34:56.789+02:00").expect("valid timestamp");
    assert_eq!(t.to_rfc3339(), "2026-06-04T12:34:56.789+00:00");
    assert_eq!(t.to_zulu(), "2026-06-04T12:34:56.789Z");
    assert_eq!(parse_rfc3339(&t.to_zulu()), Some(t));
    assert_eq!(parse_rfc3339("yesterday"), None);
    assert_eq!(t.subsec_nanos(), 789_000_000);
    assert_eq!(later(t, 211).millis_since(&t), 211);
    assert_eq!(later(t, 1_211).subsec_nanos(), 0);
    assert_eq!(t.minus_millis(211), t.plus_millis(-211));
}

#[test]
fn memory_memory_stores_and_retrieves_experiences() {
    let mut mem = InMemory::new();
    let exp = Experience::new(vec![], now(), now(), "A visitor may have arrived.");
    mem.store(exp.clone());
    let recalled = mem.recall();
    assert_eq!(recalled.len(), 1);
    assert_eq!(recalled[0].id, exp.id);
    assert_eq!(recalled[0].what, exp.what);
}

#[test]
fn memory_recalled_experience_becomes_sensation() {
    let mut mem = InMemory::new();
    let exp = Experience::new(vec![], now(), now(), "The user is working on repository design.");
    mem.store(exp.clone());

    for recalled in mem.recall() {
        let s = InMemory::experience_to_sensation(&recalled);
        assert_eq!(s.kind, "memory.related_experience");
        assert_eq!(s.source, "memory");
        assert_eq!(s.provenance, Provenance::memory_recall(recalled.id));
        assert_eq!(s.payload.str_field("what"), Some("The user is working on repository design."));
        assert_eq!(s.payload.str_field("id"), Some(id_text(recalled.id).as_str()));
    }
}

#[test]
fn memory_memory_sensation_enters_timeline_like_any_other() {
    let mut mem = InMemory::new();
    let exp = Experience::new(vec![], now(), now(), "A package was delivered.");
    mem.store(exp.clone());

    let external = Sensation::new("vision.frame", "camera_0", now(), now(), json("{}"));
    let memory_sensation = InMemory::experience_to_sensation(&exp);

    let mut frame = TimelineFrame::new();
    frame.push(TimelineEntry::Sensation(external));
    frame.push(TimelineEntry::Sensation(memory_sensation));

    assert_eq!(frame.len(), 2);
    assert!(frame.entries().iter().all(|e| matches!(e, TimelineEntry::Sensation(_))));
}

#[test]
fn memory_recall_preserves_occurred_at_and_sets_observed_at_to_recall_time() {
    let occurred = now();
    let observed = occurred;
    let exp = Experience::new(vec![], occurred, observed, "Something important happened.");

    let mut mem = InMemory::new();
    mem.store(exp.clone());

    let s = InMemory::experience_to_sensation(&exp);
    assert_eq!(
        s.occurred_at, occurred,
        "recalled sensation must preserve the original experience's occurred_at"
    );
    assert!(
        s.observed_at >= occurred,
        "recalled sensation's observed_at must be at or after occurred_at"
    );
    assert_eq!(s.kind, "memory.related_experience");
    assert_eq!(s.source, "memory");
}

#[test]
fn linked_memory_stores_and_recalls_experiences() {
    let mut mem = InMemoryLinked::new();
    let exp = Experience::new(vec![], now(), now(), "A visitor arrived.");
    mem.store(exp.clone());
    let recalled = mem.recall();
    assert_eq!(recalled.len(), 1);
    assert_eq!(recalled[0].id, exp.id);
}

#[test]
fn linked_memory_records_causal_link() {
    let mut mem = InMemoryLinked::new();
    let t = now();
    let a = Experience::new(vec![], t, t, "Door opened.");
    let b = Experience::new(vec![], t, t, "Visitor entered.");
    mem.store(a.clone());
    mem.store(b.clone());

    let link = ExperienceLink::new(a.id, b.id, ExperienceLinkKind::Causal);
    mem.link_experiences(link.clone());

    let from_a = mem.links_from(a.id);
    assert_eq!(from_a.len(), 1);
    assert_eq!(from_a[0].to_id, b.id);
    assert_eq!(from_a[0].kind, ExperienceLinkKind::Causal);

    let to_b = mem.links_to(b.id);
    assert_eq!(to_b.len(), 1);
    assert_eq!(to_b[0].from_id, a.id);
}

#[test]
fn linked_memory_records_social_link() {
    let mut mem = InMemoryLinked::new();
    let t = now();
    let a = Experience::new(vec![], t, t, "Alice greeted the system.");
    let b = Experience::new(vec![], t, t, "Alice asked a question.");
    mem.store(a.clone());
    mem.store(b.clone());

    mem.link_experiences(ExperienceLink::new(a.id, b.id, ExperienceLinkKind::Social));

    let social_links = mem.links_from(a.id);
    assert!(social_links.iter().any(|l| l.kind == ExperienceLinkKind::Social));
}

#[test]
fn linked_memory_forms_and_recalls_episode() {
    let mut mem = InMemoryLinked::new();
    let t0 = now();
    let t1 = later(t0, 30_000);
    let a = Experience::new(vec![], t0, t0, "System started.");
    let b = Experience::new(vec![], t1, t1, "User logged in.");
    mem.store(a.clone());
    mem.store(b.clone());

    let ep = mem.form_episode(vec![a.id, b.id], "Startup sequence");
    assert_eq!(ep.label, "Startup sequence");
    assert_eq!(ep.experience_ids.len(), 2);
    assert_eq!(ep.started_at, t0);
    assert_eq!(ep.ended_at, t1);

    let recalled = mem.recall_episode(ep.id).expect("episode must be stored");
    assert_eq!(recalled.id, ep.id);
}

#[test]
fn an_episode_of_unknown_experiences_spans_one_moment() {
    let mut mem = InMemoryLinked::new();
    let ep = mem.form_episode(vec![fresh_id()], "Nothing known");
    assert_eq!(ep.started_at, ep.ended_at);
    assert!(mem.recall_episode(fresh_id()).is_none());
}

#[test]
fn linked_memory_episodes_returns_all_formed_episodes() {
    let mut mem = InMemoryLinked::new();
    let t = now();
    let a = Experience::new(vec![], t, t, "First.");
    let b = Experience::new(vec![], t, t, "Second.");
    mem.store(a.clone());
    mem.store(b.clone());

    mem.form_episode(vec![a.id], "Episode A");
    mem.form_episode(vec![b.id], "Episode B");

    let eps = mem.episodes();
    assert_eq!(eps.len(), 2);
    let labels: Vec<&str> = eps.iter().map(|ep| ep.label.as_str()).collect();
    assert!(labels.contains(&"Episode A"));
    assert!(labels.contains(&"Episode B"));
}

#[test]
fn temporal_clusters_groups_close_experiences_together() {
    let mut mem = InMemoryLinked::new();
    let t0 = now();
    let t1 = later(t0, 5_000);
    let t2 = later(t0, 9_000);
    let t3 = later(t0, 60_000);
    let a = Experience::new(vec![], t0, t0, "First.");
    let b = Experience::new(vec![], t1, t1, "Second.");
    let c = Experience::new(vec![], t2, t2, "Third.");
    let d = Experience::new(vec![], t3, t3, "After gap.");
    mem.store(a.clone());
    mem.store(b.clone());
    mem.store(c.clone());
    mem.store(d.clone());

    let clusters = mem.temporal_clusters(Span::seconds(15));
    assert_eq!(clusters.len(), 2, "two clusters expected: a/b/c and d");
    assert_eq!(clusters[0].experience_ids.len(), 3);
    assert_eq!(clusters[1].experience_ids.len(), 1);

    assert!(mem.episodes().is_empty());
}

#[test]
fn temporal_clusters_returns_empty_for_empty_store() {
    let mem = InMemoryLinked::new();
    let clusters = mem.temporal_clusters(Span::seconds(10));
    assert!(clusters.is_empty());
}

#[test]
fn links_from_and_to_return_empty_when_no_links() {
    let mem = InMemoryLinked::new();
    assert!(mem.links_from(fresh_id()).is_empty());
    assert!(mem.links_to(fresh_id()).is_empty());
}

#[test]
fn episode_holds_experience_ids_and_label() {
    let a = fresh_id();
    let b = fresh_id();
    let t0 = now();
    let t1 = later(t0, 5_000);
    let ep = Episode::new(vec![a, b], t0, t1, "Morning greeting");
    assert_eq!(ep.label, "Morning greeting");
    assert!(ep.experience_ids.contains(&a));
    assert!(ep.experience_ids.contains(&b));
    assert_eq!(ep.started_at, t0);
    assert_eq!(ep.ended_at, t1);
}

#[test]
fn link_records_direction_and_kind() {
    let a = fresh_id();
    let b = fresh_id();
    let link = ExperienceLink::new(a, b, ExperienceLinkKind::Causal);
    assert_eq!(link.from_id, a);
    assert_eq!(link.to_id, b);
    assert_eq!(link.kind, ExperienceLinkKind::Causal);
}

#[test]
fn social_and_sequential_links_are_distinct_kinds() {
    let a = fresh_id();
    let b = fresh_id();
    let social = ExperienceLink::new(a, b, ExperienceLinkKind::Social);
    let seq = ExperienceLink::new(a, b, ExperienceLinkKind::Sequential);
    assert_ne!(social.kind, seq.kind);
    assert!(social.created_at <= now());
}

#[test]
fn timeline_timeline_orders_mixed_entries_by_occurred_at() {
    let t0 = now();
    let t1 = later(t0, 1_000);
    let t2 = later(t0, 2_000);
    let t3 = later(t0, 3_000);

    let obs = now();

    let exp = Experience::new(vec![], t3, obs, "A visitor may have arrived.");
    let imp = Impression::new(vec![], t1, obs, "I'm seeing three faces.");
    let s1 = Sensation::new("vision.face_crop", "camera_0", t2, obs, json("{}"));
    let s0 = Sensation::new("vision.frame", "camera_0", t0, obs, json("{}"));

    let mut frame = TimelineFrame::new();
    frame.push(TimelineEntry::Experience(exp));
    frame.push(TimelineEntry::Impression(imp));
    frame.push(TimelineEntry::Sensation(s1));
    frame.push(TimelineEntry::Sensation(s0));

    assert_eq!(frame.len(), 4);

    let times: Vec<Timestamp> = frame.entries().iter().map(|e| e.occurred_at()).collect();
    assert!(times.windows(2).all(|w| w[0] <= w[1]), "entries must be sorted");

    assert!(matches!(frame.entries()[0], TimelineEntry::Sensation(_)));
    assert!(matches!(frame.entries()[1], TimelineEntry::Impression(_)));
    assert!(matches!(frame.entries()[2], TimelineEntry::Sensation(_)));
    assert!(matches!(frame.entries()[3], TimelineEntry::Experience(_)));
}

#[test]
fn event_clusters_group_nearby_entries_and_preserve_order() {
    let t0 = now();
    let s0 = Sensation::new("vision.face_crop", "camera", t0, t0, json("{}"));
    let i0 = Impression::new(
        vec![s0.id],
        later(t0, 180),
        later(t0, 180),
        "That face looks like Tim.",
    );
    let s1 = Sensation::new(
        "audio.utterance",
        "mic",
        later(t0, 420),
        later(t0, 420),
        json("{\"text\": \"hello\"}"),
    );
    let i1 = Impression::new(
        vec![s0.id],
        later(t0, 2_000),
        later(t0, 2_000),
        "The speaker may be someone else.",
    );

    let entries = vec![
        TimelineEntry::Sensation(s0.clone()),
        TimelineEntry::Impression(i0.clone()),
        TimelineEntry::Sensation(s1.clone()),
        TimelineEntry::Impression(i1.clone()),
    ];

    let clusters = event_clusters(&entries, Span::milliseconds(500));

    assert_eq!(clusters.len(), 2);
    assert_eq!(clusters[0].start, s0.occurred_at);
    assert_eq!(clusters[0].end, s1.occurred_at);
    assert_eq!(clusters[0].entries.len(), 3);
    assert_eq!(clusters[0].entries[0].id(), s0.id);
    assert_eq!(clusters[0].entries[1].id(), i0.id);
    assert_eq!(clusters[0].entries[2].id(), s1.id);
    assert_eq!(clusters[1].start, i1.occurred_at);
    assert_eq!(clusters[1].end, i1.occurred_at);
}

#[test]
fn event_clusters_obey_configured_gap_threshold() {
    let t0 = now();
    let a = TimelineEntry::Sensation(Sensation::new("vision.frame", "camera", t0, t0, json("{}")));
    let b = TimelineEntry::Sensation(Sensation::new(
        "vision.face_crop",
        "camera",
        later(t0, 600),
        later(t0, 600),
        json("{}"),
    ));

    assert_eq!(event_clusters(&[a.clone(), b.clone()], Span::milliseconds(300)).len(), 2);
    assert_eq!(event_clusters(&[a, b], Span::milliseconds(800)).len(), 1);
}

#[test]
fn delayed_sensation_is_ordered_by_occurred_at_not_observed_at() {
    let t_past = now();
    let t_current = later(t_past, 60_000);

    let delayed =
        Sensation::new("sensor.reading", "delayed_source", t_past, t_current, json("{}"));
    let live = Sensation::new("sensor.reading", "live_source", t_current, t_current, json("{}"));

    let mut frame = TimelineFrame::new();
    frame.push(TimelineEntry::Sensation(live));
    frame.push(TimelineEntry::Sensation(delayed));

    assert_eq!(frame.entries()[0].occurred_at(), t_past);
    assert_eq!(frame.entries()[1].occurred_at(), t_current);
}

#[test]
fn replayed_data_sorts_before_current_entries() {
    let now_t = now();
    let replay_time = now_t.minus_millis(3_600_000).expect("within range");
    let replay_observed = now_t;

    let current = Sensation::new("vision.frame", "camera_0", now_t, now_t, json("{}"));
    let replayed =
        Sensation::new("replay.event", "replay", replay_time, replay_observed, json("{}"));

    let mut frame = TimelineFrame::new();
    frame.push(TimelineEntry::Sensation(current));
    frame.push(TimelineEntry::Sensation(replayed));

    assert_eq!(
        frame.entries()[0].occurred_at(),
        replay_time,
        "replayed entry with past occurred_at must sort first"
    );
    assert_eq!(frame.entries()[0].observed_at(), replay_observed);
}

#[test]
fn same_occurred_at_preserves_insertion_order() {
    let t = now();
    let obs = t;

    let s0 = Sensation::new("vision.frame", "camera_0", t, obs, json("{\"seq\": 0}"));
    let s1 = Sensation::new("vision.frame", "camera_0", t, obs, json("{\"seq\": 1}"));

    let mut frame = TimelineFrame::new();
    frame.push(TimelineEntry::Sensation(s0.clone()));
    frame.push(TimelineEntry::Sensation(s1.clone()));

    match (&frame.entries()[0], &frame.entries()[1]) {
        (TimelineEntry::Sensation(a), TimelineEntry::Sensation(b)) => {
            assert_eq!(a.payload.u64_field("seq"), Some(0));
            assert_eq!(b.payload.u64_field("seq"), Some(1));
        }
        _ => panic!("expected two sensations"),
    }
}

#[test]
fn observed_at_is_accessible_on_all_entry_kinds() {
    let occurred = now();
    let observed = later(occurred, 5_000);

    let s = Sensation::new("vision.frame", "cam", occurred, observed, json("{}"));
    let imp = Impression::new(vec![s.id], occurred, observed, "Something seen.");
    let exp = Experience::new(vec![imp.id], occurred, observed, "Someone was present.");

    let se = TimelineEntry::Sensation(s);
    let ie = TimelineEntry::Impression(imp);
    let ee = TimelineEntry::Experience(exp);

    for entry in [&se, &ie, &ee] {
        assert_eq!(
            entry.occurred_at(),
            occurred,
            "occurred_at must match for {:?}",
            entry.kind()
        );
        assert_eq!(
            entry.observed_at(),
            observed,
            "observed_at must match for {:?}",
            entry.kind()
        );
    }
}

#[test]
fn derived_sensation_inherits_parent_occurred_at() {
    let frame_occurred = now();
    let frame_observed = later(frame_occurred, 5_000);

    let parent =
        Sensation::new("vision.frame", "camera_0", frame_occurred, frame_observed, json("{}"));
    let derived = Sensation::new(
        "vision.face_crop",
        "face_detector",
        parent.occurred_at,
        parent.observed_at,
        json("{\"face_id\": 1}"),
    )
    .with_provenance(Provenance::derived_from_sensation(parent.id).with_faculty("face_detector"));

    assert_eq!(
        derived.occurred_at, parent.occurred_at,
        "derived sensation must inherit parent's occurred_at"
    );
    assert_eq!(
        derived.observed_at, parent.observed_at,
        "derived sensation must inherit parent's observed_at"
    );

    let mut tl = TimelineFrame::new();
    tl.push(TimelineEntry::Sensation(parent.clone()));
    tl.push(TimelineEntry::Sensation(derived.clone()));

    let times: Vec<Timestamp> = tl.entries().iter().map(|e| e.occurred_at()).collect();
    assert!(times.windows(2).all(|w| w[0] <= w[1]));
    assert_eq!(times[0], frame_occurred);
    assert_eq!(times[1], frame_occurred);
    let related = tl.related_entries(parent.id);
    assert_eq!(related.len(), 1);
    assert!(matches!(
        related[0],
        TimelineEntry::Sensation(sensation)
        if sensation.kind == "vision.face_crop" && sensation.provenance.references_sensation(parent.id)
    ));
}

#[test]
fn memory_recall_provenance_links_back_to_experience() {
    let t0 = now();
    let experience = Experience::new(vec![], t0, t0, "A recalled memory.");
    let recalled = Sensation::new(
        "memory.related_experience",
        "memory",
        t0,
        later(t0, 1_000),
        json("{}"),
    )
    .with_provenance(Provenance::memory_recall(experience.id));

    let mut frame = TimelineFrame::new();
    frame.push(TimelineEntry::Experience(experience.clone()));
    frame.push(TimelineEntry::Sensation(recalled.clone()));

    let related = frame.related_entries(experience.id);
    assert_eq!(related.len(), 1);
    assert!(matches!(
        related[0],
        TimelineEntry::Sensation(sensation)
        if sensation.id == recalled.id && sensation.provenance.references_experience(experience.id)
    ));
    assert_eq!(frame.entries_referencing_experience(experience.id).len(), 1);
}

#[test]
fn entries_are_found_by_kind_and_time() {
    let t0 = now();
    let s = Sensation::new("vision.frame", "cam", t0, t0, Json::Null);
    let i = Impression::new(vec![s.id], later(t0, 10), later(t0, 10), "Seen.");
    let e = Experience::new(vec![i.id], later(t0, 20), later(t0, 20), "Understood.");
    let mut frame = TimelineFrame::new();
    frame.push(TimelineEntry::Experience(e.clone()));
    frame.push(TimelineEntry::Impression(i.clone()));
    frame.push(TimelineEntry::Sensation(s.clone()));

    assert_eq!(frame.entries_by_kind(TimelineEntryKind::Impression)[0].id(), i.id);
    assert_eq!(frame.entries_referencing_sensation(s.id)[0].id(), i.id);
    assert_eq!(frame.entries_referencing_impression(i.id)[0].id(), e.id);
    assert_eq!(frame.entries_between(later(t0, 5), later(t0, 20)).len(), 2);
    assert_eq!(frame.recent_entries(1)[0].id(), e.id);
    assert!(!frame.is_empty());
}

#[test]
fn mock_faculty_renders_text_impression() {
    let mut emitter = MockEmitter::text("mic", "hello");
    let sensation = emitter.drain().pop().expect("scripted sensation");
    let mut faculty = MockFaculty::new(
        "mock_speech",
        vec![MockFacultyRule::impression("audio.utterance", "The speaker said {text}.")],
    );

    let (_sensations, impressions) = faculty.process(&sensation);

    assert_eq!(impressions.len(), 1);
    assert_eq!(impressions[0].text, "The speaker said hello.");
}

#[test]
fn a_template_is_filled_in_part_by_part() {
    let mut emitter = MockEmitter::text("mic", "hello");
    let sensation = emitter.drain().pop().expect("scripted sensation");
    assert!(emitter.drain().is_empty());
    let mut faculty = MockFaculty::new(
        "echo",
        vec![
            MockFacultyRule::impression("vision.frame", "not this"),
            MockFacultyRule::with_derived_sensation(
                "audio.utterance",
                "{kind} from {source}: {text} {text}",
                "audio.echo",
                json("{\"loud\": true}"),
            ),
        ],
    );

    let (sensations, impressions) = faculty.process(&sensation);

    assert_eq!(impressions[0].text, "audio.utterance from mic: hello hello");
    assert_eq!(impressions[0].about, vec![sensation.id]);
    assert_eq!(sensations.len(), 1);
    assert_eq!(sensations[0].kind, "audio.echo");
    assert_eq!(sensations[0].source, "echo");
    assert_eq!(sensations[0].occurred_at, sensation.occurred_at);
}

fn hearing() -> MockFaculty {
    MockFaculty::new(
        "speech",
        vec![MockFacultyRule::impression("audio.utterance", "Heard utterance: {text}")],
    )
}

fn intent() -> MockWit {
    MockWit::new("intent", vec![MockWitRule::new("Heard utterance", "A person spoke.")])
}

fn utterance() -> Sensation {
    MockEmitter::text("mic", "hello").drain().pop().expect("scripted sensation")
}

#[test]
fn pipeline_orchestrates_sensation_to_experience_storage() {
    let mut pipeline = Pipeline::default().with_faculty(hearing()).with_wit(intent());

    let experiences = pipeline.observe(utterance());

    assert_eq!(experiences.len(), 1);
    assert_eq!(pipeline.memory().recall().len(), 1);
    assert!(pipeline
        .timeline()
        .entries()
        .iter()
        .any(|entry| matches!(entry, TimelineEntry::Experience(_))));
}

#[test]
fn a_pipeline_remembers_nothing_twice() {
    let mut pipeline = Pipeline::default().with_faculty(hearing()).with_wit(intent());

    assert_eq!(pipeline.observe(utterance()).len(), 1);
    assert_eq!(pipeline.observe(utterance()).len(), 1);
    assert_eq!(pipeline.memory().recall().len(), 2);
}

#[test]
fn a_scripted_cognition_remembers_everything() {
    let mut cognition = MockCognition::new().with_faculty(hearing()).with_wit(intent());

    assert_eq!(cognition.observe(utterance()).len(), 1);
    assert_eq!(cognition.observe(utterance()).len(), 2);
    assert_eq!(cognition.memory().recall().len(), 3);
    assert_eq!(cognition.timeline().len(), 7);
}

#[test]
fn derived_sensations_are_perceived_too() {
    let echo = MockFaculty::new(
        "echo",
        vec![MockFacultyRule::with_derived_sensation(
            "audio.utterance",
            "Heard it.",
            "audio.echo",
            json("{}"),
        )],
    );
    let mut pipeline = Pipeline::default().with_faculty(echo);

    assert!(pipeline.observe(utterance()).is_empty());

    let kinds: Vec<TimelineEntryKind> =
        pipeline.timeline().entries().iter().map(|entry| entry.kind()).collect();
    assert_eq!(
        kinds,
        vec![
            TimelineEntryKind::Sensation,
            TimelineEntryKind::Impression,
            TimelineEntryKind::Sensation
        ]
    );
}

#[test]
fn remembered_experiences_are_perceived_again() {
    let mut pipeline = Pipeline::default().with_faculty(hearing()).with_wit(intent());
    let experiences = pipeline.observe(utterance());

    let recalled = pipeline.recall_into_timeline();

    assert_eq!(recalled.len(), 1);
    assert_eq!(recalled[0].provenance, Provenance::memory_recall(experiences[0].id));
    assert_eq!(recalled[0].occurred_at, experiences[0].occurred_at);
    assert_eq!(pipeline.timeline().len(), 4);

    let mut cognition = MockCognition::new().with_faculty(hearing()).with_wit(intent());
    cognition.observe(utterance());
    assert_eq!(cognition.recall_into_timeline().len(), 1);
}

#[test]
fn a_scripted_wit_understands_each_impression_it_knows() {
    let t0 = now();
    let mut frame = TimelineFrame::new();
    let known = Impression::new(vec![], t0, t0, "Heard utterance: hi");
    frame.push(TimelineEntry::Impression(known.clone()));
    frame.push(TimelineEntry::Impression(Impression::new(vec![], t0, t0, "Saw a cat")));
    let mut wit = intent();

    let experiences = wit.interpret(&frame);

    assert_eq!(experiences.len(), 1);
    assert_eq!(experiences[0].what, "A person spoke.");
    assert_eq!(experiences[0].impression_ids, vec![known.id]);
}

#[test]
fn identifiers_are_written_with_hyphens() {
    assert_eq!(
        id_text(Id { bits: 0x0123_4567_89ab_cdef_0123_4567_89ab_cdef }),
        "01234567-89ab-cdef-0123-456789abcdef"
    );
    assert_ne!(fresh_id(), fresh_id());
}

#[test]
fn fresh_identifiers_are_marked_as_random() {
    let first = id_text(fresh_id());
    let second = id_text(fresh_id());
    assert_ne!(first, second);
    assert_eq!(first.len(), 36);
    assert_eq!(&first[14..15], "4");
    assert!(matches!(&first[19..20], "8" | "9" | "a" | "b"));
}

#[test]
fn each_matching_faculty_is_built_once() {
    let built = std::rc::Rc::new(std::cell::Cell::new(0));
    let mut registry: FacultyRegistry<Box<dyn Fn() -> usize>> = FacultyRegistry::new();
    for (name, kind) in [("a", "audio"), ("b", "vision"), ("c", "audio")] {
        let counted = built.clone();
        let build: Box<dyn Fn() -> usize> = Box::new(move || {
            counted.set(counted.get() + 1);
            name.len() + counted.get()
        });
        registry.register(name, vec![kind.to_owned()], build).expect("register");
    }
    assert_eq!(registry.select_for_kind("audio"), vec![2, 3]);
    assert_eq!(built.get(), 2);
    assert!(registry.select_for_kind("touch").is_empty());
    assert_eq!(built.get(), 2);
    assert_eq!(registry.list().len(), 3);
}

#[test]
fn an_experience_is_recalled_at_a_moment() {
    let occurred = parse_rfc3339("2026-06-04T12:00:00Z").unwrap();
    let observed = later(occurred, 500);
    let exp = Experience::new(vec![], occurred, occurred, "Someone waved.");
    let s = recollection_at(&exp, observed);
    assert_eq!(s.kind, "memory.related_experience");
    assert_eq!(s.occurred_at, occurred);
    assert_eq!(s.observed_at, observed);
    assert!(s.observed_at >= exp.occurred_at);
}

#[test]
fn what_is_derived_last_is_perceived_first() {
    let derive = |kind: &str, to: &str| {
        MockFacultyRule::with_derived_sensation(kind, "{kind}", to, json("{}"))
    };
    let faculty = MockFaculty::new("chain", vec![derive("a", "b"), derive("a", "c"), derive("b", "d")]);
    let mut pipeline = Pipeline::new(InMemory::new()).with_faculty(faculty);
    let t = parse_rfc3339("2026-06-04T12:00:00Z").unwrap();
    pipeline.observe(Sensation::new("a", "test", t, t, json("{}")));
    let kinds: Vec<String> = pipeline
        .timeline()
        .entries()
        .iter()
        .filter_map(|entry| match entry {
            TimelineEntry::Sensation(s) => Some(s.kind.clone()),
            _ => None,
        })
        .collect();
    assert_eq!(kinds, vec!["a", "c", "b", "d"]);
}

#[test]
fn the_range_of_time_ends_where_it_ends() {
    assert!(Timestamp::from_parts(8_210_266_876_799, 999_999_999).is_some());
    assert!(Timestamp::from_parts(8_210_266_876_800, 0).is_none());
    assert!(Timestamp::from_parts(-8_334_601_228_800, 0).is_some());
    assert!(Timestamp::from_parts(-8_334_601_228_801, 999_999_999).is_none());
    let last = Timestamp::from_parts(8_210_266_876_799, 0).unwrap();
    assert_eq!(last.to_rfc3339(), "+262142-12-31T23:59:59+00:00");
    assert_eq!(local_iso(last), last.to_zulu());
    let first = Timestamp::from_parts(-8_334_601_228_800, 0).unwrap();
    assert_eq!(first.to_rfc3339(), "-262143-01-01T00:00:00+00:00");
    assert_eq!(local_iso(first), first.to_zulu());
    let second_day = Timestamp::from_parts(-8_334_601_228_800 + 86_400, 0).unwrap();
    assert!(local_iso(second_day).starts_with("-262143-01-0"));
    assert!(now() > parse_rfc3339("2020-01-01T00:00:00Z").unwrap());
}

#[test]
fn a_string_is_escaped_as_json_asks() {
    let text = "a\"b\\c\u{8}\t\n\u{c}\r\u{1}\u{1f}\u{7f}/\u{e9}\u{1F600}";
    let written = "\"a\\\"b\\\\c\\b\\t\\n\\f\\r\\u0001\\u001f\u{7f}/\u{e9}\u{1F600}\"";
    assert_eq!(Json::text(text).to_text(), written);
    assert_eq!(parse(written), Some(Json::text(text)));
}

#[test]
fn faculties_and_wits_keep_their_order() {
    let noticing = |name: &str| {
        MockFaculty::new(name, vec![MockFacultyRule::impression("a", &format!("{name} saw {{kind}}"))])
    };
    let mut pipeline = Pipeline::new(InMemory::new())
        .with_faculty(noticing("first"))
        .with_faculty(noticing("second"))
        .with_wit(MockWit::new("one", vec![MockWitRule::new("second saw", "One understood.")]))
        .with_wit(MockWit::new("two", vec![MockWitRule::new("first saw", "Two understood.")]));
    let t = parse_rfc3339("2026-06-04T12:00:00Z").unwrap();
    let news = pipeline.observe(Sensation::new("a", "test", t, t, json("{}")));
    let understood: Vec<&str> = news.iter().map(|x| x.what.as_str()).collect();
    assert_eq!(understood, vec!["One understood.", "Two understood."]);
    let noticed: Vec<String> = pipeline
        .timeline()
        .entries()
        .iter()
        .filter_map(|entry| match entry {
            TimelineEntry::Impression(i) => Some(i.text.clone()),
            _ => None,
        })
        .collect();
    assert_eq!(noticed, vec!["first saw a", "second saw a"]);
    assert!(pipeline.observe(Sensation::new("b", "test", t, t, json("{}"))).is_empty());
}
