use std::collections::VecDeque;

use psyche::face_memory::{
    collection_path, constraint_statements, create_collection_body, deterministic_face_point_id,
    face_match_from_hit, face_matches, face_observation_cypher, has_graph_errors, judge_collection,
    may_recreate, neo4j_http_endpoint, person_candidate_id_for, qdrant_collection_vector_size,
    qdrant_endpoint, qdrant_search_hits, search_nearest_faces_body, search_path,
    unexpected_response, upsert_face_body, upsert_path, BBox, CollectionStep, FaceMemoryConfig,
    FaceMemoryMatch, FaceVectorPayload, FaceVectorRecord, Landmark, MemoryBackend, MemorySettings,
    RememberStep, Remembering, VectorSearchHit,
};
use psyche::ident::{fresh_id, Id};
use psyche::json::{parse, Json};
use psyche::llm::{GenerationId, GenerationRequest, LlmEngine, LlmError, LlmEvent};
use psyche::llm_scheduler::{
    complete_generation, dedicated_voice_llm_enabled, llm_context_size, pop_next_command,
    queued_event, request_prompt_preview, voice_llm_gpu_layers, voice_token_delay, Conclusion,
    JobRun, LlmJobKind, LlmSchedulerConfig, LlmStreamControl, SchedulerCommand, VoiceModelSettings,
};
use psyche::logs::push_limited;
use psyche::messages::RealTimeExperienceEvent;
use psyche::time::now;

fn json(text: &str) -> Json {
    parse(text).expect("valid json")
}

fn numbers(list: &[&str]) -> Vec<String> {
    list.iter().map(|n| n.to_string()).collect()
}

fn sample_record(index: u64, vector: Vec<String>) -> FaceVectorRecord {
    let observation_id = fresh_id();
    let frame_id = fresh_id();
    FaceVectorRecord::new(
        observation_id,
        frame_id,
        observation_id,
        index,
        vector,
        now(),
        "camera.default/face".to_string(),
        Some(BBox {
            x1: "1.0".to_string(),
            y1: "2.0".to_string(),
            x2: "3.0".to_string(),
            y2: "4.0".to_string(),
        }),
        Some(vec![Landmark { x: "0.1".to_string(), y: "0.2".to_string() }]),
        "0.9".to_string(),
    )
}

#[test]
fn deterministic_point_id_is_stable() {
    let observation_id = fresh_id();
    let frame_id = fresh_id();
    let first = deterministic_face_point_id(observation_id, frame_id, 2, "model-a");
    let second = deterministic_face_point_id(observation_id, frame_id, 2, "model-a");
    let changed = deterministic_face_point_id(observation_id, frame_id, 3, "model-a");
    assert_eq!(first, second);
    assert_ne!(first, changed);
    assert!(uuid::Uuid::parse_str(&first).is_ok());
}

#[test]
fn payload_serializes_and_deserializes() {
    let record = sample_record(0, numbers(&["1.0", "0.0", "0.0"]));
    let payload = record.payload.to_qdrant_payload();
    let decoded = FaceVectorPayload::from_qdrant_payload(&payload).expect("payload");
    assert_eq!(decoded.observation_id, record.payload.observation_id);
    assert_eq!(decoded.embedding_dim, 3);
    assert_eq!(decoded.bbox, record.payload.bbox);
    assert_eq!(decoded, record.payload);
    assert!(FaceVectorPayload::from_qdrant_payload(&json("{}")).is_none());
}

#[test]
fn graph_mapping_uses_face_observation_and_vector_point() {
    let record = sample_record(0, numbers(&["1.0", "0.0", "0.0"]));
    let statement = face_observation_cypher("faces", &record, &None, &None);
    assert!(statement.statement.contains("FaceObservation"));
    assert!(statement.statement.contains("VectorPoint"));
    assert_eq!(statement.parameters.str_field("collection"), Some("faces"));
    assert_eq!(statement.parameters.str_field("qdrant_point_id"), Some(record.point_id.as_str()));
}

fn a_match(point: &str, score: &str, person: Option<&str>) -> FaceMemoryMatch {
    FaceMemoryMatch {
        person_candidate_id: person.map(str::to_string),
        qdrant_point_id: point.to_string(),
        face_observation_id: "seen-before".to_string(),
        score: score.to_string(),
        observed_at: now(),
        source: "camera".to_string(),
        bbox: None,
    }
}

#[test]
fn a_face_is_remembered_step_by_step() {
    let mut memory = Remembering::new(sample_record(0, numbers(&["1.0"])), "0.86");
    let own = memory.record.point_id.clone();
    memory.advance(vec![]);
    assert_eq!(memory.step, RememberStep::EnsureConstraints);
    memory.advance(vec![]);
    assert_eq!(memory.step, RememberStep::Search);
    memory.advance(vec![
        a_match(&own, "1.0", None),
        a_match("weak", "0.5", None),
        a_match("other", "0.9", None),
    ]);
    assert_eq!(memory.step, RememberStep::StoreVector);
    assert_eq!(memory.matches.len(), 3);
    assert_eq!(
        memory.record.payload.person_candidate_id,
        Some("person_candidate:seen-before".to_string())
    );
    memory.advance(vec![]);
    memory.advance(vec![]);
    assert_eq!(memory.step, RememberStep::Link);
    let link = memory.link().expect("a person");
    assert_eq!(link.parameters.str_field("matched_observation_id"), Some("seen-before"));
    memory.advance(vec![]);
    assert_eq!(memory.step, RememberStep::Done);
    memory.advance(vec![]);
    assert_eq!(memory.step, RememberStep::Done);
}

#[test]
fn a_face_that_cannot_be_stored_is_not_put_into_the_graph() {
    let mut memory = Remembering::new(sample_record(0, numbers(&["1.0"])), "0.86");
    memory.advance(vec![]);
    memory.advance(vec![]);
    memory.advance(vec![]);
    assert_eq!(memory.step, RememberStep::StoreVector);
    assert!(memory.link().is_none());
    memory.fail();
    memory.advance(vec![]);
    assert_eq!(memory.step, RememberStep::Failed);
}

#[test]
fn what_the_store_found_becomes_matches() {
    let record = sample_record(0, numbers(&["1.0", "0.0"]));
    let text = format!(
        "{{\"result\": [{{\"id\": \"{}\", \"score\": 0.97, \"payload\": {}}}, {{\"id\": 7, \"score\": 0.5}}]}}",
        record.point_id,
        record.payload.to_qdrant_payload().to_text()
    );
    let hits = qdrant_search_hits(&json(&text)).unwrap();
    assert_eq!(hits.len(), 2);
    assert_eq!(hits[1].point_id, "7");
    let matches = face_matches(&hits);
    assert_eq!(matches.len(), 1);
    assert_eq!(matches[0].face_observation_id, record.payload.observation_id);
    assert_eq!(matches[0].score, "0.97");
    assert!(face_match_from_hit(&VectorSearchHit {
        point_id: "p".to_string(),
        score: "1.0".to_string(),
        payload: Json::Null
    })
    .is_none());
    assert_eq!(
        qdrant_search_hits(&json("{}")).unwrap_err(),
        "Qdrant search response missing result array"
    );
    assert_eq!(
        qdrant_search_hits(&json("{\"result\": [{\"score\": 1}]}")).unwrap_err(),
        "Qdrant search hit missing id"
    );
    assert_eq!(
        qdrant_search_hits(&json("{\"result\": [{\"id\": 1}]}")).unwrap_err(),
        "Qdrant search hit missing score"
    );
    assert_eq!(person_candidate_id_for(&a_match("p", "1.0", Some("known"))), "known");
}

#[test]
fn a_collection_is_made_where_it_does_not_fit() {
    assert_eq!(judge_collection(404, None, 3), CollectionStep::Create);
    assert_eq!(judge_collection(500, None, 3), CollectionStep::Fail);
    assert_eq!(judge_collection(200, Some(3), 3), CollectionStep::Keep);
    assert_eq!(judge_collection(200, None, 3), CollectionStep::Keep);
    assert_eq!(judge_collection(200, Some(4), 3), CollectionStep::Recreate);
    assert!(may_recreate(204));
    assert!(!may_recreate(500));
    let body = json("{\"result\": {\"config\": {\"params\": {\"vectors\": {\"size\": 512}}}}}");
    assert_eq!(qdrant_collection_vector_size(&body), Some(512));
    let body = json(
        "{\"result\": {\"config\": {\"params\": {\"vectors\": {\"default\": {\"size\": 128}}}}}}",
    );
    assert_eq!(qdrant_collection_vector_size(&body), Some(128));
    assert_eq!(qdrant_collection_vector_size(&json("{}")), None);
    assert_eq!(
        unexpected_response("search", "500 Internal Server Error", "oops"),
        "search failed with HTTP 500 Internal Server Error: oops"
    );
}

#[test]
fn requests_to_the_stores_are_written_out() {
    assert_eq!(
        qdrant_endpoint("http://localhost:6333/", "/collections/faces"),
        "http://localhost:6333/collections/faces"
    );
    assert_eq!(collection_path("faces"), "collections/faces");
    assert_eq!(upsert_path("faces"), "collections/faces/points?wait=true");
    assert_eq!(search_path("faces"), "collections/faces/points/search");
    assert_eq!(
        create_collection_body(3).to_text(),
        "{\"vectors\":{\"distance\":\"Cosine\",\"size\":3}}"
    );
    assert_eq!(
        search_nearest_faces_body(&numbers(&["1.0"]), 0, &Some("0.5".to_string()))
            .unwrap()
            .to_text(),
        "{\"limit\":1,\"score_threshold\":0.5,\"vector\":[1.0],\"with_payload\":true}"
    );
    assert_eq!(
        search_nearest_faces_body(&vec![], 5, &None).unwrap_err(),
        "refusing to search empty face vector"
    );
    let body = upsert_face_body(&sample_record(0, numbers(&["1.0"]))).to_text();
    assert!(body.starts_with("{\"points\":[{\"id\":\""));
    assert_eq!(
        neo4j_http_endpoint("bolt://localhost:7687"),
        "http://localhost:7474/db/neo4j/tx/commit"
    );
    assert_eq!(neo4j_http_endpoint("http://db:1/"), "http://db:1/db/neo4j/tx/commit");
    assert!(constraint_statements().iter().all(|c| c.statement.starts_with("CREATE")));
    assert!(has_graph_errors(&json("{\"errors\": [1]}")));
    assert!(!has_graph_errors(&json("{\"errors\": []}")));
}

fn no_settings() -> MemorySettings {
    MemorySettings {
        backend: None,
        qdrant_url: None,
        qdrant_collection_faces: None,
        neo4j_uri: None,
        neo4j_user: None,
        neo4j_password: None,
        neo4j_pass: None,
        face_match_threshold: None,
    }
}

#[test]
fn a_memory_is_set_up_from_its_settings() {
    assert_eq!(MemoryBackend::from_env_value("mock"), Ok(MemoryBackend::Mock));
    assert!(MemoryBackend::from_env_value("tape").unwrap_err().contains("\"tape\""));
    let mut settings = no_settings();
    settings.backend = Some("mock".to_string());
    let config = FaceMemoryConfig::from_settings(&settings).unwrap_or_else(|e| panic!("{e}"));
    assert_eq!(config.backend, MemoryBackend::Mock);
    assert_eq!(config.qdrant_url, "http://localhost:6333");
    assert_eq!(config.qdrant_collection_faces, "faces");
}

#[test]
fn prompt_preview_does_not_abbreviate_timeline_entries_with_ellipses() {
    let mut request = GenerationRequest::default();
    request.prompt = "Context:\nshort\nTimeline:\nT+000.000 occurred_at=2026-06-04T12:00:00-07:00\n  IMPRESSION id=one text=\"complete first entry\"\nT+001.000 occurred_at=2026-06-04T12:00:01-07:00\n  IMPRESSION id=two text=\"second entry should be omitted\"\n".to_owned();

    let preview = request_prompt_preview(&request, 128);

    assert!(preview.contains("Timeline:\n"));
    assert!(preview.contains("complete first entry"));
    assert!(!preview.contains("..."));
    assert!(!preview.contains("second entry"));
}

#[test]
fn prompt_preview_keeps_ellipsis_for_non_timeline_prompts() {
    let mut request = GenerationRequest::default();
    request.prompt = "plain prompt that is longer than the requested preview length".to_owned();

    let preview = request_prompt_preview(&request, 12);

    assert_eq!(preview, "plain prompt...");
}

struct ScriptedEngine {
    id: GenerationId,
    polls: VecDeque<Vec<LlmEvent>>,
    fail_next_append: bool,
    append_attempts: usize,
}

impl ScriptedEngine {
    fn new(id: Id, polls: Vec<Vec<LlmEvent>>) -> Self {
        Self {
            id: GenerationId(id),
            polls: VecDeque::from(polls),
            fail_next_append: false,
            append_attempts: 0,
        }
    }
}

impl LlmEngine for ScriptedEngine {
    fn start(&mut self, _request: GenerationRequest) -> Result<GenerationId, LlmError> {
        Ok(self.id)
    }

    fn poll(&mut self, _id: GenerationId) -> Result<Vec<LlmEvent>, LlmError> {
        Ok(self.polls.pop_front().unwrap_or_default())
    }

    fn cancel(&mut self, _id: GenerationId) -> Result<(), LlmError> {
        Ok(())
    }

    fn append_prompt(&mut self, _id: GenerationId, _text: String) -> Result<(), LlmError> {
        self.append_attempts += 1;
        if self.fail_next_append {
            self.fail_next_append = false;
            return Err(LlmError {
                message: "generation is no longer accepting prompt appends".to_string(),
            });
        }
        Ok(())
    }
}

/// Runs a job to its end, with what is asked of it meanwhile.
fn run_generation(
    engine: &mut ScriptedEngine,
    kind: LlmJobKind,
    mut control: Option<LlmStreamControl>,
    told: &mut Vec<RealTimeExperienceEvent>,
) -> Result<String, String> {
    let mut run = JobRun::new(fresh_id(), kind);
    let generation = engine.start(GenerationRequest::default()).expect("started");
    let end = loop {
        let (paused, appends) = match &mut control {
            Some(control) => (control.is_paused(), control.take_appends()),
            None => (false, Vec::new()),
        };
        let look = run.look(engine, generation, paused);
        if let Some(end) = look.end {
            break end;
        }
        if let Some(end) = run.hand_over(engine, generation, paused, look.reported, appends).end {
            break end;
        }
    };
    told.extend(run.report(&end, now(), 5));
    match end {
        Conclusion::Completed(text) => Ok(text),
        Conclusion::Failed { error, .. } => Err(error),
    }
}

fn token(text: &str) -> LlmEvent {
    LlmEvent::Token { text: text.to_owned() }
}

#[test]
fn max_tokens_with_partial_text_returns_generated_response() {
    let mut engine = ScriptedEngine::new(
        fresh_id(),
        vec![
            vec![token("partial response")],
            vec![LlmEvent::MaxTokens { generated_tokens: 1024 }],
        ],
    );
    let mut told = Vec::new();

    let generated =
        run_generation(&mut engine, LlmJobKind::RealtimeExperience, None, &mut told)
            .expect("partial max-token generation should complete");

    assert_eq!(generated, "partial response");
    assert!(told
        .iter()
        .any(|event| matches!(event, RealTimeExperienceEvent::LlmJobCompleted { .. })));
}

#[test]
fn append_failure_can_recover_completed_generation() {
    let mut engine = ScriptedEngine::new(
        fresh_id(),
        vec![Vec::new(), vec![token("done"), LlmEvent::Completed]],
    );
    engine.fail_next_append = true;
    let mut control = LlmStreamControl::new();
    control.append_prompt("late input");

    let generated =
        run_generation(&mut engine, LlmJobKind::Voice, Some(control), &mut Vec::new())
            .expect("completed generation should win append race");

    assert_eq!(generated, "done");
    assert_eq!(engine.append_attempts, 1);
}

#[test]
fn controlled_generation_appends_live_input_while_tokens_continue() {
    let mut engine = ScriptedEngine::new(
        fresh_id(),
        vec![vec![token("still")], vec![token(" going")], vec![LlmEvent::Completed]],
    );
    let mut control = LlmStreamControl::new();
    control.append_prompt("live experience update");

    let generated =
        run_generation(&mut engine, LlmJobKind::Voice, Some(control), &mut Vec::new())
            .expect("live prompt input should append during active generation");

    assert_eq!(generated, "still going");
    assert_eq!(engine.append_attempts, 1);
}

#[test]
fn a_failed_generation_is_told() {
    let mut engine = ScriptedEngine::new(
        fresh_id(),
        vec![vec![LlmEvent::Error { message: "out of memory".to_string() }]],
    );
    let mut told = Vec::new();
    let error =
        run_generation(&mut engine, LlmJobKind::Vision, None, &mut told).unwrap_err();
    assert!(error.contains("out of memory"));
    assert!(told
        .iter()
        .any(|event| matches!(event, RealTimeExperienceEvent::LlmJobFailed { .. })));
    assert!(matches!(complete_generation("  "), Conclusion::Failed { .. }));
}

#[test]
fn an_end_without_a_word_is_not_told() {
    let refusal = || LlmError { message: "refused".to_owned() };
    let mut run = JobRun::new(fresh_id(), LlmJobKind::Voice);
    let lost = Err(LlmError { message: "engine lost".to_owned() });
    let (passed, end) = run.after_append_failure(lost, refusal());
    assert!(passed.is_empty());
    assert_eq!(end, Conclusion::Failed { told: None, error: "engine lost".to_owned() });
    assert!(run.report(&end, now(), 5).is_none());

    let empty = vec![LlmEvent::Error { message: String::new() }];
    let (_, end) = run.after_append_failure(Ok(empty), refusal());
    assert_eq!(end, Conclusion::Failed { told: Some(String::new()), error: String::new() });
    assert!(matches!(
        run.report(&end, now(), 5),
        Some(RealTimeExperienceEvent::LlmJobFailed { error, .. }) if error.is_empty()
    ));

    let (_, end) = run.after_append_failure(Ok(Vec::new()), refusal());
    assert_eq!(
        end,
        Conclusion::Failed {
            told: Some("refused".to_owned()),
            error: "failed to append live prompt input".to_owned(),
        }
    );
}

#[test]
fn the_most_urgent_job_comes_first() {
    let mut pending = VecDeque::new();
    pending.push_back(SchedulerCommand { kind: LlmJobKind::Vision, job: 1 });
    pending.push_back(SchedulerCommand { kind: LlmJobKind::Voice, job: 2 });
    pending.push_back(SchedulerCommand { kind: LlmJobKind::RealtimeExperience, job: 3 });
    assert_eq!(pop_next_command(&mut pending).map(|c| c.job), Some(2));
    assert_eq!(pop_next_command(&mut pending).map(|c| c.job), Some(3));
    assert_eq!(pop_next_command(&mut pending).map(|c| c.job), Some(1));
    assert!(pop_next_command(&mut pending).is_none());
}

#[test]
fn models_are_set_up_from_their_settings() {
    assert_eq!(llm_context_size(&Some("4096".to_string()), 8), 4096);
    assert_eq!(llm_context_size(&Some("0".to_string()), 8), 8);
    assert_eq!(llm_context_size(&None, 8), 8);
    assert_eq!(voice_llm_gpu_layers(&Some("5".to_string())), Some(5));
    assert!(dedicated_voice_llm_enabled(&None));
    assert!(!dedicated_voice_llm_enabled(&Some("no".to_string())));
    let main = LlmSchedulerConfig::main("m".to_string(), None, &None);
    assert_eq!(main.context_size, 65_536);
    let settings = VoiceModelSettings {
        model: None,
        projector: None,
        context_size: None,
        gpu_layers: None,
        cpu_only: None,
    };
    let voice = LlmSchedulerConfig::dedicated_voice("m".to_string(), &settings);
    assert_eq!(voice.context_size, 8_192);
    assert_eq!(voice.model_path, "m");
}

#[test]
fn a_queued_job_is_told_with_its_prompt() {
    let mut request = GenerationRequest::default();
    request.prompt = "hello".to_string();
    assert!(matches!(
        queued_event(fresh_id(), LlmJobKind::Vision, now(), &request),
        RealTimeExperienceEvent::LlmJobQueued { .. }
    ));
    assert_eq!(LlmJobKind::Vision.as_str(), "vision");
    assert!(voice_token_delay("so.") > voice_token_delay("so"));
}

#[test]
fn a_log_keeps_the_latest() {
    let mut log = VecDeque::new();
    for i in 0..5 {
        push_limited(&mut log, i, 3);
    }
    assert_eq!(log, VecDeque::from(vec![2, 3, 4]));
}

#[test]
fn an_end_is_asked_for_once() {
    let mut control = LlmStreamControl::new();
    assert!(!control.take_cancel());
    control.cancel();
    assert!(control.take_cancel());
    assert!(!control.take_cancel());
}

#[test]
fn a_pause_keeps_a_generation_from_being_asked() {
    let mut engine =
        ScriptedEngine::new(fresh_id(), vec![vec![token("hello")], vec![LlmEvent::Completed]]);
    let generation = engine.id;
    let mut run = JobRun::new(fresh_id(), LlmJobKind::Voice);
    let look = run.look(&mut engine, generation, true);
    assert!(look.passed.is_empty() && look.end.is_none() && !look.reported);
    assert_eq!(engine.polls.len(), 2);
    assert!(run.hand_over(&mut engine, generation, true, false, vec!["more".to_owned()]).rest);
    assert_eq!(engine.append_attempts, 1);
    let look = run.look(&mut engine, generation, false);
    assert_eq!(look.passed, vec!["hello".to_owned()]);
    assert!(look.reported);
    assert!(!run.hand_over(&mut engine, generation, false, true, Vec::new()).rest);
    assert!(run.hand_over(&mut engine, generation, false, false, Vec::new()).rest);
}
