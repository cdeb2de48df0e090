use std::collections::VecDeque;

use psyche::commentary::{Commentator, COMMENTATOR_ENABLED};
use psyche::commentator::{
    add_daydream_word, commentator_content_words, commentator_repetition_detected,
    commentator_turn_repeats_itself, draw_daydream_word, jaccard_similarity,
};
use psyche::ident::{fresh_id, id_text, Id};
use psyche::impression::Confidence;
use psyche::messages::{
    AudioSentenceClipRecord, ExperienceRecord, RealTimeExperienceEvent, VoiceMouthEvent,
    VoiceObservation,
};
use psyche::time::{now, Timestamp};
use psyche::voice::{
    mouth_audio_filename, mouth_audio_url, synthesis_finished, synthesis_started, DialogueVoice,
    Moment, SharedLogs, StepIds, Synthesis, VoiceAction, VOICE_SPEECH_AUDIO_TIMEOUT_MS,
};
use psyche::voice_memory::{remember_recent_voice_turn, VOICE_TURN_MAX_CHARS};
use psyche::voice_prompt::{append_chat_message, daydream_prompt, DaydreamWords};
use psyche::voice_records::{
    file_record, record_face_emoji_sensation_and_impression,
    record_spoken_voice_sensation_and_impression, RecordIds,
};
use psyche::voice_text::{
    first_sentence, split_leading_emoji, split_trailing_emoji, voice_observation_text,
};

struct Logs {
    experiences: VecDeque<ExperienceRecord>,
    ids: Vec<Id>,
    clips: VecDeque<AudioSentenceClipRecord>,
}

fn quiet() -> Logs {
    Logs { experiences: VecDeque::new(), ids: Vec::new(), clips: VecDeque::new() }
}

fn shared(logs: &Logs) -> SharedLogs<'_> {
    SharedLogs {
        experiences: &logs.experiences,
        voice_impression_ids: &logs.ids,
        clips: &logs.clips,
    }
}

fn at(t: Timestamp, tick_ms: u64) -> Moment {
    Moment { now: t, tick_ms }
}

fn record_ids() -> RecordIds {
    RecordIds { sensation: fresh_id(), impression: fresh_id() }
}

fn step_ids() -> StepIds {
    StepIds {
        generation: fresh_id(),
        observation: fresh_id(),
        first: record_ids(),
        second: record_ids(),
        third: record_ids(),
    }
}

fn heard(text: &str, sequence: u64) -> RealTimeExperienceEvent {
    RealTimeExperienceEvent::AsrTranscript {
        observed_at: now(),
        text: text.to_string(),
        sequence_start: sequence,
        sequence_end: sequence,
        is_final: true,
        sentence_index: Some(0),
        sentence_count: Some(1),
    }
}

fn starts(actions: &[VoiceAction]) -> Vec<Id> {
    actions
        .iter()
        .filter_map(|action| match action {
            VoiceAction::Start { generation_id } => Some(*generation_id),
            _ => None,
        })
        .collect()
}

#[test]
fn a_turn_is_answered_and_spoken() {
    let logs = quiet();
    let mut voice = DialogueVoice::new(&shared(&logs));
    let generation = fresh_id();

    let actions = voice.on_event(&heard("Are you there?", 1), &logs.ids, generation);
    assert_eq!(starts(&actions), vec![generation]);
    let request = voice.request(now());
    assert_eq!(request.max_tokens, Some(96));
    assert!(request.messages.iter().any(|m| m.role == "user" && m.content == "Are you there?"));

    let other = fresh_id();
    assert!(starts(&voice.on_event(&heard("Hello?", 2), &logs.ids, other)).is_empty());

    let ids = step_ids();
    let done = voice.on_done(generation, &Ok("I am here.".to_string()), at(now(), 10), ids);
    assert!(done.iter().any(|action| matches!(
        action,
        VoiceAction::Synthesize { text, utterance_id, .. }
        if text == "I am here." && *utterance_id == ids.observation
    )));
    assert!(voice.pending_speech.is_some());

    let started = VoiceMouthEvent::VoiceSpeechStarted {
        utterance_id: ids.observation,
        generation_id: generation,
        observed_at: now(),
        text: "I am here.".to_string(),
    };
    voice.on_mouth(&started, at(now(), 20), step_ids());
    let finished = VoiceMouthEvent::VoiceSpeechFinished {
        utterance_id: ids.observation,
        generation_id: generation,
        observed_at: now(),
        text: "I am here.".to_string(),
        duration_ms: Some(700),
    };
    let after = voice.on_mouth(&finished, at(now(), 30), step_ids());
    assert!(voice.pending_speech.is_none());
    assert!(after.iter().any(|action| matches!(action, VoiceAction::Record { .. })));
    assert!(voice.conversation.iter().any(|turn| turn.text == "I am here."));
}

#[test]
fn an_echo_is_not_spoken() {
    let logs = quiet();
    let mut voice = DialogueVoice::new(&shared(&logs));
    let generation = fresh_id();
    voice.on_event(&heard("No, I said, oh good.", 1), &logs.ids, generation);
    let done = voice.on_done(
        generation,
        &Ok("No, I said oh good.".to_string()),
        at(now(), 10),
        step_ids(),
    );
    assert_eq!(done.len(), 1);
    assert!(voice.pending_speech.is_none());
}

#[test]
fn a_thought_stays_inside() {
    let logs = quiet();
    let mut voice = DialogueVoice::new(&shared(&logs));
    let generation = fresh_id();
    voice.on_event(&heard("Hm.", 1), &logs.ids, generation);
    let done = voice.on_done(
        generation,
        &Ok("<thought/> I should wait.".to_string()),
        at(now(), 10),
        step_ids(),
    );
    assert!(voice.pending_speech.is_none());
    assert!(done.iter().any(|action| matches!(action, VoiceAction::Observe { observation }
        if observation.text == "I should wait.")));
    assert!(!done.iter().any(|action| matches!(action, VoiceAction::Synthesize { .. })));
}

#[test]
fn speech_without_sound_is_given_up() {
    let logs = quiet();
    let mut voice = DialogueVoice::new(&shared(&logs));
    let generation = fresh_id();
    voice.on_event(&heard("Hello?", 1), &logs.ids, generation);
    voice.on_done(generation, &Ok("Hello there.".to_string()), at(now(), 0), step_ids());
    assert!(voice.on_tick(at(now(), 1_000)).is_empty());
    let late = voice.on_tick(at(now(), VOICE_SPEECH_AUDIO_TIMEOUT_MS + 1));
    assert!(late.iter().any(|action| matches!(
        action,
        VoiceAction::Mouth { event: VoiceMouthEvent::VoiceSpeechInterrupted { .. } }
    )));
    assert!(voice.on_tick(at(now(), VOICE_SPEECH_AUDIO_TIMEOUT_MS + 2)).is_empty());
}

#[test]
fn an_answer_of_another_generation_is_passed_over() {
    let logs = quiet();
    let mut voice = DialogueVoice::new(&shared(&logs));
    assert!(voice
        .on_done(fresh_id(), &Ok("Hello.".to_string()), at(now(), 0), step_ids())
        .is_empty());
    assert!(voice.on_token(fresh_id(), "Hello".to_string()).is_empty());
    assert!(voice.on_lag(&shared(&logs), fresh_id()).is_empty());
}

#[test]
fn sound_is_told_by_its_place() {
    let id = Id { bits: 1 };
    assert_eq!(mouth_audio_filename(id), format!("voice-{}.wav", id_text(id)));
    assert!(mouth_audio_url(id).ends_with(&mouth_audio_filename(id)));
    let t = now();
    let started = synthesis_started(id, Id { bits: 2 }, t, "Hello.");
    assert!(matches!(
        started,
        VoiceAction::Broadcast {
            event: RealTimeExperienceEvent::VoiceSpeechSynthesisStarted { .. }
        }
    ));
    let ready = Synthesis::Ready { sample_rate_hz: 22_050, samples: 100, duration_ms: 5 };
    assert!(matches!(
        synthesis_finished(id, Id { bits: 2 }, t, "Hello.", &ready),
        VoiceAction::Broadcast {
            event: RealTimeExperienceEvent::VoiceSpeechAudio { samples: 100, .. }
        }
    ));
    let failed = Synthesis::Failed { error: "no voice".to_string() };
    assert!(matches!(
        synthesis_finished(id, Id { bits: 2 }, t, "Hello.", &failed),
        VoiceAction::Mouth { event: VoiceMouthEvent::VoiceSpeechInterrupted { .. } }
    ));
}

#[test]
fn a_stream_of_comments_goes_on() {
    let logs = quiet();
    let generation = fresh_id();
    let (mut commentator, actions) = Commentator::new(&shared(&logs), generation);
    assert_eq!(starts(&actions), vec![generation]);
    let done = commentator.on_done(
        generation,
        &Ok("I am watching the room.".to_string()),
        at(now(), 10),
        step_ids(),
    );
    assert!(done.iter().any(|action| matches!(action, VoiceAction::Observe { .. })));
    assert!(done.iter().any(|action| matches!(action, VoiceAction::Resume)));
    let next = fresh_id();
    assert_eq!(starts(&commentator.resume(&shared(&logs), next)), vec![next]);
    let words = DaydreamWords {
        first: "lantern".to_string(),
        second: "harbor".to_string(),
        third: "violet".to_string(),
    };
    assert_eq!(commentator.request(now(), &words).max_tokens, Some(220));
    assert!(daydream_prompt(&words).contains("harbor"));
    assert!(!COMMENTATOR_ENABLED);
}

#[test]
fn repetition_is_noticed() {
    let line = "I am focusing on the steady presence of this perceived reality.";
    assert!(commentator_turn_repeats_itself(&[line; 8].join(" ")));
    assert!(!commentator_turn_repeats_itself(line));
    let mut turns = VecDeque::new();
    assert!(!commentator_repetition_detected(&turns));
    for _ in 0..4 {
        remember_recent_voice_turn(
            &mut turns,
            "I am focusing on the steady presence of this perceived reality. I notice the quiet strength of this moment.",
        );
    }
    assert!(commentator_repetition_detected(&turns));
    let words = commentator_content_words("With the steady, steady presence of a lamp");
    assert!(words.contains(&"steady".to_string()));
    assert!(!words.contains(&"with".to_string()));
    assert!(!words.contains(&"of".to_string()));
    let left = vec!["a".to_string(), "b".to_string()];
    let right = vec!["b".to_string(), "c".to_string()];
    assert_eq!(jaccard_similarity(&left, &right), (1, 3));
}

#[test]
fn daydream_words_differ() {
    let mut words = Vec::new();
    add_daydream_word(&mut words, "lamp".to_string());
    add_daydream_word(&mut words, "lamp".to_string());
    assert_eq!(words, vec!["lamp".to_string()]);
    for _ in 0..20 {
        draw_daydream_word(&mut words);
    }
    assert!(words.len() > 1);
    assert!(words.iter().all(|word| !word.is_empty()));
}

#[test]
fn long_turns_keep_their_end() {
    let mut turns = VecDeque::new();
    remember_recent_voice_turn(&mut turns, &format!("{} end", "x".repeat(VOICE_TURN_MAX_CHARS)));
    assert!(turns[0].ends_with(" end"));
    assert!(turns[0].chars().count() <= VOICE_TURN_MAX_CHARS);
    for i in 0..10 {
        remember_recent_voice_turn(&mut turns, &format!("Turn {i}."));
    }
    assert_eq!(turns.len(), 4);
}

#[test]
fn adjacent_messages_of_one_speaker_become_one() {
    let mut messages = Vec::new();
    append_chat_message(&mut messages, "user", "One.");
    append_chat_message(&mut messages, "user", "Two.");
    append_chat_message(&mut messages, "assistant", "Three.");
    append_chat_message(&mut messages, "assistant", "  ");
    assert_eq!(messages.len(), 2);
    assert!(messages[0].content.contains("One."));
    assert!(messages[0].content.contains("Two."));
}

#[test]
fn speech_is_put_on_record() {
    let observation = VoiceObservation {
        id: fresh_id(),
        observed_at: now(),
        text: "I am here.".to_string(),
        emoji: Some("🙂".to_string()),
        experience_ids: vec![],
        interrupted_generation_id: None,
        confidence: Confidence::of("0.6200000047683716"),
    };
    let ids = record_ids();
    let spoken = record_spoken_voice_sensation_and_impression(ids, fresh_id(), &observation);
    assert_eq!(spoken.sensation.id, ids.sensation);
    assert_eq!(spoken.impression.sensation_id, ids.sensation);
    assert!(spoken.impression.text.contains("I am here."));
    let face =
        record_face_emoji_sensation_and_impression(record_ids(), fresh_id(), &observation, "🙂");
    assert_eq!(face.impression.text, "I feel my face turn into a 🙂");
    let (mut sensations, mut impressions, mut own) =
        (VecDeque::new(), VecDeque::new(), Vec::new());
    file_record(&spoken, &mut sensations, &mut impressions, &mut own);
    assert_eq!(sensations.len(), 1);
    assert_eq!(impressions.len(), 1);
    assert_eq!(own, vec![ids.impression]);
}

#[test]
fn emoji_are_parted_from_words() {
    assert_eq!(
        split_trailing_emoji("Hello. 🙂"),
        ("Hello.".to_string(), Some("🙂".to_string()))
    );
    assert_eq!(split_trailing_emoji("Hello."), ("Hello.".to_string(), None));
    assert!(split_leading_emoji("Hello.").is_none());
    assert_eq!(first_sentence("One. Two."), Some("One.".to_string()));
    assert!(voice_observation_text("...").is_none());
}

#[test]
fn replies_are_told_one_after_the_other() {
    let logs = quiet();
    let mut voice = DialogueVoice::new(&shared(&logs));
    let (first, second) = (fresh_id(), fresh_id());
    let mut actions = voice.on_event(&heard("Are you there?", 1), &logs.ids, first);
    actions.extend(voice.on_token(second, "stray".to_string()));
    actions.extend(voice.on_token(first, "Yes".to_string()));
    actions.extend(voice.on_event(&heard("Hello?", 2), &logs.ids, second));
    actions.extend(voice.on_done(first, &Err("lost".to_string()), at(now(), 10), step_ids()));
    actions.extend(voice.on_token(first, "late".to_string()));
    actions.extend(voice.on_event(&heard("Anyone?", 3), &logs.ids, second));
    let told: Vec<String> = actions
        .iter()
        .filter_map(|action| match action {
            VoiceAction::Broadcast { event } => match event {
                RealTimeExperienceEvent::VoiceResponseStart { generation_id } => {
                    Some(format!("start {}", *generation_id == first))
                }
                RealTimeExperienceEvent::VoiceResponseToken { text, .. } => {
                    Some(format!("part {text}"))
                }
                RealTimeExperienceEvent::VoiceResponseDone { generation_id } => {
                    Some(format!("done {}", *generation_id == first))
                }
                _ => None,
            },
            _ => None,
        })
        .collect();
    assert_eq!(told, vec!["start true", "part Yes", "done true", "start false"]);
}
