use std::collections::VecDeque;

use psyche::ident::{fresh_id, Id};
use psyche::impression::Confidence;
use psyche::llm::ChatMessage;
use psyche::messages::{ExperienceRecord, VoiceObservation};
use psyche::segmenter::VoiceSentenceSegmenter;
use psyche::time::now;
use psyche::voice_memory::{
    remember_recent_experience, remember_recent_finalized_asr_update, remember_recent_voice_turn,
    remember_voice_conversation_turn, spoken_voice_echoes_latest_user_turn,
    voice_conversation_needs_response, voice_user_turn_count, FinalizedAsrUpdate,
    VoiceConversationRole, VoiceSpeechFeedback,
};
use psyche::voice_prompt::{
    build_dialogue_voice_messages, build_voice_messages, live_voice_experiences_prompt,
    DaydreamWords,
};
use psyche::voice_records::VOICE_OBSERVATION_CONFIDENCE;
use psyche::voice_text::{
    clean_voice_sentence, face_emoji_impression_text, normalized_signature, parse_voice_thought,
    queued_voice_impression_text, voice_llm_stop_markers, voice_reply_from_generated,
    voice_turn_has_observation, voice_turn_or_silence, VoiceReply, VoiceThought,
    DIALOGUE_VOICE_TURN_PROMPT, DIALOGUE_VOICE_TURN_PROMPT_PREFIX,
};

fn words() -> DaydreamWords {
    DaydreamWords {
        first: "lantern".to_string(),
        second: "harbor".to_string(),
        third: "violet".to_string(),
    }
}

fn rendered_voice_messages(
    recent_experiences: &VecDeque<ExperienceRecord>,
    recent_finalized_asr: &VecDeque<FinalizedAsrUpdate>,
    recent_thoughts: &VecDeque<VoiceObservation>,
    recent_voice_turns: &VecDeque<String>,
    recent_speech_feedback: &VecDeque<VoiceSpeechFeedback>,
) -> String {
    build_voice_messages(
        now(),
        recent_experiences,
        recent_finalized_asr,
        recent_thoughts,
        recent_voice_turns,
        recent_speech_feedback,
        &words(),
    )
    .into_iter()
    .map(|message| format!("{}: {}", message.role, message.content))
    .collect::<Vec<_>>()
    .join("\n\n")
}

fn remember_recent_experiences(
    voice_impression_ids: &Vec<Id>,
    recent: &mut VecDeque<ExperienceRecord>,
    records: Vec<ExperienceRecord>,
    last_signature: &mut Option<String>,
) -> Vec<ExperienceRecord> {
    records
        .into_iter()
        .filter(|record| {
            remember_recent_experience(voice_impression_ids, recent, record, last_signature)
        })
        .collect()
}

fn assert_no_adjacent_same_role(messages: &[ChatMessage]) {
    for pair in messages.windows(2) {
        assert_ne!(
            pair[0].role, pair[1].role,
            "adjacent same-role messages violate model chat template contracts"
        );
    }
}

#[test]
fn sentence_segmenter_delays_last_sentence_until_more_text_or_finish() {
    let mut segmenter = VoiceSentenceSegmenter::new();
    assert!(segmenter.push_str("I am looking.").is_empty());
    assert_eq!(
        segmenter.push_str(" The scene is still uncertain."),
        vec!["I am looking.".to_string()]
    );
    assert_eq!(
        segmenter.finish(),
        vec!["The scene is still uncertain.".to_string()]
    );
}

#[test]
fn sentence_segmenter_keeps_abbreviations_together() {
    let mut segmenter = VoiceSentenceSegmenter::new();
    assert!(segmenter.push_str("I notice Dr. Smith nearby.").is_empty());
    assert_eq!(
        segmenter.finish(),
        vec!["I notice Dr. Smith nearby.".to_string()]
    );
}

#[test]
fn normalized_signature_collapses_punctuation_and_case() {
    assert_eq!(
        normalized_signature("The camera is active!"),
        normalized_signature("the camera is active")
    );
}

#[test]
fn clean_voice_sentence_keeps_only_first_sentence() {
    assert_eq!(
        clean_voice_sentence("I see the room. I wonder about the sound."),
        "I see the room."
    );
}

#[test]
fn face_emoji_impression_uses_requested_wording() {
    assert_eq!(
        face_emoji_impression_text("🤔"),
        "I feel my face turn into a 🤔"
    );
}

#[test]
fn queued_voice_impression_uses_requested_wording() {
    assert_eq!(
        queued_voice_impression_text("I can answer briefly."),
        "I feel myself about to say: I can answer briefly."
    );
}

#[test]
fn voice_prompt_includes_recent_thought_emoji() {
    let mut thoughts = VecDeque::new();
    thoughts.push_back(VoiceObservation {
        id: fresh_id(),
        observed_at: now(),
        text: "I am watching the room.".to_string(),
        emoji: Some("🤔".to_string()),
        experience_ids: Vec::new(),
        interrupted_generation_id: None,
        confidence: Confidence::of(VOICE_OBSERVATION_CONFIDENCE),
    });

    let prompt = rendered_voice_messages(
        &VecDeque::new(),
        &VecDeque::new(),
        &thoughts,
        &VecDeque::new(),
        &VecDeque::new(),
    );

    assert!(prompt.contains("I am watching the room."));
    assert!(prompt.contains("emoji=\"🤔\""));
}

#[test]
fn commentator_prompt_includes_recent_mouth_feedback() {
    let mut feedback = VecDeque::new();
    feedback.push_back(VoiceSpeechFeedback {
        observed_at: now(),
        utterance_id: fresh_id(),
        generation_id: fresh_id(),
        event: "finished".to_string(),
        text: "I am speaking after the mouth finishes.".to_string(),
        duration_ms: Some(840),
        reason: None,
    });

    let prompt = rendered_voice_messages(
        &VecDeque::new(),
        &VecDeque::new(),
        &VecDeque::new(),
        &VecDeque::new(),
        &feedback,
    );

    assert!(prompt.contains("Recent Mouth feedback from spoken Voice:"));
    assert!(prompt.contains("event=finished"));
    assert!(prompt.contains("I am speaking after the mouth finishes."));
    assert!(prompt.contains("duration_ms=840"));
}

#[test]
fn voice_messages_include_recent_assistant_turns() {
    let mut turns = VecDeque::new();
    remember_recent_voice_turn(
        &mut turns,
        "I am thinking. <say>I should be spoken now.</say>",
    );
    remember_recent_voice_turn(&mut turns, "I am still thinking.");

    let messages = build_voice_messages(
        now(),
        &VecDeque::new(),
        &VecDeque::new(),
        &VecDeque::new(),
        &turns,
        &VecDeque::new(),
        &words(),
    );
    let prompt = messages
        .iter()
        .map(|message| format!("{}: {}", message.role, message.content))
        .collect::<Vec<_>>()
        .join("\n\n");

    assert!(prompt.contains("I am thinking."));
    assert!(prompt.contains("<say>I should be spoken now.</say>"));
    assert!(prompt.contains("I am still thinking."));
    assert_no_adjacent_same_role(&messages);
}

#[test]
fn recent_voice_turns_drop_leaked_chat_template_tail() {
    let mut turns = VecDeque::new();
    remember_recent_voice_turn(
        &mut turns,
        "<say>I am here.</say><|im_end|>\n<|im_start|>user\n<say>not me</say>",
    );

    assert_eq!(
        turns.front().map(String::as_str),
        Some("<say>I am here.</say>")
    );
}

#[test]
fn voice_requests_stop_at_chat_template_boundaries() {
    let stops = voice_llm_stop_markers();

    assert!(stops.contains(&"<|im_end|>".to_string()));
    assert!(stops.contains(&"<|im_start|>user".to_string()));
    assert!(stops.contains(&"<end_of_turn>".to_string()));
}

#[test]
fn voice_prompt_includes_recent_finalized_asr_updates() {
    let observed_at = now();
    let mut asr = VecDeque::new();
    asr.push_back(FinalizedAsrUpdate {
        observed_at,
        text: "hello from the microphone".to_string(),
        sequence_start: 10,
        sequence_end: 12,
        sentence_index: Some(0),
        sentence_count: Some(1),
    });

    let prompt = rendered_voice_messages(
        &VecDeque::new(),
        &asr,
        &VecDeque::new(),
        &VecDeque::new(),
        &VecDeque::new(),
    );

    assert!(prompt.contains("Recent finalized ASR transcripts heard directly:"));
    assert!(prompt.contains("hello from the microphone"));
    assert!(prompt.contains("sequence_start=10 sequence_end=12 sentence_index=0"));
}

#[test]
fn finalized_asr_memory_keeps_repeated_text_from_different_sequences() {
    let observed_at = now();
    let first = FinalizedAsrUpdate {
        observed_at,
        text: "again".to_string(),
        sequence_start: 1,
        sequence_end: 1,
        sentence_index: Some(0),
        sentence_count: Some(1),
    };
    let second = FinalizedAsrUpdate {
        sequence_start: 2,
        sequence_end: 2,
        ..first.clone()
    };
    let duplicate = first.clone();
    let mut recent = VecDeque::new();

    assert!(remember_recent_finalized_asr_update(&mut recent, &first));
    assert!(remember_recent_finalized_asr_update(&mut recent, &second));
    assert!(!remember_recent_finalized_asr_update(
        &mut recent,
        &duplicate
    ));
    assert_eq!(recent.len(), 2);
}

#[test]
fn recovered_experiences_are_dumped_into_voice_prompt_context() {
    let observed_at = now();
    let first = ExperienceRecord {
        id: fresh_id(),
        observed_at,
        occurred_at: observed_at,
        what: "A person steps into view.".to_string(),
        impression_ids: Vec::new(),
        confidence: Confidence::of("0.6800000071525574"),
    };
    let second = ExperienceRecord {
        id: fresh_id(),
        observed_at,
        occurred_at: observed_at,
        what: "The person raises a hand near the desk.".to_string(),
        impression_ids: Vec::new(),
        confidence: Confidence::of("0.7200000286102295"),
    };
    let mut recent = VecDeque::new();
    let mut last_signature = None;

    let recovered = remember_recent_experiences(
        &Vec::new(),
        &mut recent,
        vec![first, second],
        &mut last_signature,
    );
    let prompt = rendered_voice_messages(
        &recent,
        &VecDeque::new(),
        &VecDeque::new(),
        &VecDeque::new(),
        &VecDeque::new(),
    );

    assert_eq!(recovered.len(), 2);
    assert!(prompt.contains("A person steps into view."));
    assert!(prompt.contains("The person raises a hand near the desk."));
}

#[test]
fn live_wit_experience_update_prompt_includes_details_for_active_voice() {
    let observed_at = now();
    let experience = ExperienceRecord {
        id: fresh_id(),
        observed_at,
        occurred_at: observed_at,
        what: "I hear a voice say the inner monologue is not working fast enough.".to_string(),
        impression_ids: Vec::new(),
        confidence: Confidence::of("0.550000011920929"),
    };

    let prompt = live_voice_experiences_prompt(&vec![experience]);

    assert!(prompt.contains("LIVE REAL-WORLD EXPERIENCE UPDATE FROM WITS"));
    assert!(prompt.contains("inner monologue is not working fast enough"));
    assert!(prompt.contains("Use these details as current real-world context"));
}

#[test]
fn recovered_voice_only_experiences_are_not_dumped_into_voice_prompt_context() {
    let observed_at = now();
    let voice_impression_id = fresh_id();
    let experience = ExperienceRecord {
        id: fresh_id(),
        observed_at,
        occurred_at: observed_at,
        what: "The inner voice repeated its own thought.".to_string(),
        impression_ids: vec![voice_impression_id],
        confidence: Confidence::of("0.550000011920929"),
    };
    let mut voice_impression_ids = Vec::new();
    voice_impression_ids.push(voice_impression_id);
    let mut recent = VecDeque::new();
    let mut last_signature = None;

    let recovered = remember_recent_experiences(
        &voice_impression_ids,
        &mut recent,
        vec![experience],
        &mut last_signature,
    );
    let prompt = rendered_voice_messages(
        &recent,
        &VecDeque::new(),
        &VecDeque::new(),
        &VecDeque::new(),
        &VecDeque::new(),
    );

    assert!(recovered.is_empty());
    assert!(!prompt.contains("The inner voice repeated its own thought."));
    assert!(prompt.contains("- None yet."));
}

#[test]
fn voice_prompt_explains_emoji_becomes_real_world_face() {
    let prompt = rendered_voice_messages(
        &VecDeque::new(),
        &VecDeque::new(),
        &VecDeque::new(),
        &VecDeque::new(),
        &VecDeque::new(),
    );

    assert!(
        prompt
            .contains("when you emit an emoji, it becomes your visible face in the real world")
    );
    assert!(prompt.contains("Use that face to express your current attitude"));
}

#[test]
fn commentator_prompt_says_commentator_cannot_execute_functions() {
    let prompt = rendered_voice_messages(
        &VecDeque::new(),
        &VecDeque::new(),
        &VecDeque::new(),
        &VecDeque::new(),
        &VecDeque::new(),
    );

    assert!(prompt.contains("execute functions"));
    assert!(prompt.contains("do not pretend that you can"));
    assert!(prompt.contains("try to figure out what is going on"));
}

#[test]
fn commentator_prompt_has_no_spoken_mouth_ability() {
    let prompt = rendered_voice_messages(
        &VecDeque::new(),
        &VecDeque::new(),
        &VecDeque::new(),
        &VecDeque::new(),
        &VecDeque::new(),
    );

    assert!(prompt.contains("Do not address an unseen or hypothetical human"));
    assert!(prompt.contains("Never use <say> tags"));
    assert!(prompt.contains("Commentator is not allowed to speak out loud"));
    assert!(prompt.contains("reported to the Wits as internal observations"));
}

#[test]
fn dialogue_voice_prompt_speaks_plain_text_and_supports_silence() {
    let messages = build_dialogue_voice_messages(
        now(),
        &VecDeque::new(),
        &VecDeque::new(),
        &VecDeque::new(),
        &VecDeque::new(),
        &VecDeque::new(),
    );
    let prompt = messages
        .into_iter()
        .map(|message| format!("{}: {}", message.role, message.content))
        .collect::<Vec<_>>()
        .join("\n\n");

    assert!(prompt.contains("normal chat conversation"));
    assert!(prompt.contains("Keep responses brief"));
    assert!(prompt.contains("Give the interlocutor a chance to speak"));
    assert!(prompt.contains("return an empty message"));
    assert!(prompt.contains("empty messages are treated as silence"));
    assert!(prompt.contains("Do not repeat the user's words back as your whole reply"));
    assert!(prompt.contains("Do not repeat yourself"));
    assert!(prompt.contains("say something meaningfully new or stay silent"));
    assert!(!prompt.contains("Start with <thought/>"));
    assert!(!prompt.contains("<thought/> to pass the turn"));
    assert!(!prompt.contains("<say"));
}

#[test]
fn dialogue_voice_messages_include_conversation_turns() {
    let mut conversation = VecDeque::new();
    remember_voice_conversation_turn(
        &mut conversation,
        VoiceConversationRole::User,
        "Are you there?",
    );
    remember_voice_conversation_turn(
        &mut conversation,
        VoiceConversationRole::Assistant,
        "I am here.",
    );

    let messages = build_dialogue_voice_messages(
        now(),
        &VecDeque::new(),
        &VecDeque::new(),
        &VecDeque::new(),
        &conversation,
        &VecDeque::new(),
    );

    assert!(messages.iter().any(|message| {
        message.role == "user" && message.content.contains("Are you there?")
    }));
    assert!(
        messages
            .iter()
            .any(|message| { message.role == "assistant" && message.content == "I am here." })
    );
    assert_no_adjacent_same_role(&messages);
}

#[test]
fn dialogue_voice_routes_only_actual_dialogue_as_user_messages() {
    let mut conversation = VecDeque::new();
    remember_voice_conversation_turn(
        &mut conversation,
        VoiceConversationRole::User,
        "No, I said, oh good.",
    );

    let messages = build_dialogue_voice_messages(
        now(),
        &VecDeque::new(),
        &VecDeque::new(),
        &VecDeque::new(),
        &conversation,
        &VecDeque::new(),
    );

    let system = messages
        .iter()
        .find(|message| message.role == "system")
        .expect("dialogue voice system prompt is present");
    assert!(system.content.contains(DIALOGUE_VOICE_TURN_PROMPT));
    assert!(
        system
            .content
            .contains("Current known ContextFrame fields:")
    );

    let user_messages = messages
        .iter()
        .filter(|message| message.role == "user")
        .collect::<Vec<_>>();
    assert_eq!(user_messages.len(), 1);
    assert_eq!(user_messages[0].content, "No, I said, oh good.");
    assert!(
        !user_messages[0]
            .content
            .contains(DIALOGUE_VOICE_TURN_PROMPT)
    );
    assert!(
        !user_messages[0]
            .content
            .contains("Recent finalized ASR transcripts heard directly:")
    );
}

#[test]
fn dialogue_voice_messages_include_recent_asr_context() {
    let observed_at = now();
    let mut asr = VecDeque::new();
    asr.push_back(FinalizedAsrUpdate {
        observed_at,
        text: "My name is Travis.".to_string(),
        sequence_start: 10,
        sequence_end: 12,
        sentence_index: Some(0),
        sentence_count: Some(1),
    });

    let messages = build_dialogue_voice_messages(
        now(),
        &VecDeque::new(),
        &asr,
        &VecDeque::new(),
        &VecDeque::new(),
        &VecDeque::new(),
    );
    let prompt = messages
        .into_iter()
        .map(|message| format!("{}: {}", message.role, message.content))
        .collect::<Vec<_>>()
        .join("\n\n");

    assert!(prompt.contains("Recent finalized ASR transcripts heard directly:"));
    assert!(prompt.contains("My name is Travis."));
    assert!(prompt.contains("sequence_start=10 sequence_end=12 sentence_index=0"));
}

#[test]
fn dialogue_voice_coalesces_adjacent_user_turns_for_chat_templates() {
    let mut conversation = VecDeque::new();
    remember_voice_conversation_turn(
        &mut conversation,
        VoiceConversationRole::User,
        "First user sentence.",
    );
    remember_voice_conversation_turn(
        &mut conversation,
        VoiceConversationRole::User,
        "Second user sentence.",
    );

    let messages = build_dialogue_voice_messages(
        now(),
        &VecDeque::new(),
        &VecDeque::new(),
        &VecDeque::new(),
        &conversation,
        &VecDeque::new(),
    );

    assert_no_adjacent_same_role(&messages);
    let user_text = messages
        .iter()
        .find(|message| message.role == "user")
        .map(|message| message.content.as_str())
        .unwrap_or_default();
    assert!(user_text.contains("First user sentence."));
    assert!(user_text.contains("Second user sentence."));
}

#[test]
fn dialogue_voice_needs_response_only_for_new_user_turns() {
    let mut conversation = VecDeque::new();

    assert!(!voice_conversation_needs_response(&conversation, 0));

    remember_voice_conversation_turn(
        &mut conversation,
        VoiceConversationRole::User,
        "Can you hear me?",
    );
    assert!(voice_conversation_needs_response(&conversation, 0));

    let answered_user_turns = voice_user_turn_count(&conversation);
    assert!(!voice_conversation_needs_response(
        &conversation,
        answered_user_turns
    ));

    remember_voice_conversation_turn(
        &mut conversation,
        VoiceConversationRole::Assistant,
        "I can hear you.",
    );
    assert!(!voice_conversation_needs_response(
        &conversation,
        answered_user_turns
    ));

    remember_voice_conversation_turn(
        &mut conversation,
        VoiceConversationRole::User,
        "You seem stuck in a loop.",
    );
    assert!(voice_conversation_needs_response(
        &conversation,
        answered_user_turns
    ));
}

#[test]
fn spoken_voice_echo_detection_matches_only_latest_user_turn() {
    let mut conversation = VecDeque::new();
    remember_voice_conversation_turn(
        &mut conversation,
        VoiceConversationRole::User,
        "I'll climb!",
    );
    remember_voice_conversation_turn(
        &mut conversation,
        VoiceConversationRole::Assistant,
        "I am not sure I heard that right.",
    );
    remember_voice_conversation_turn(
        &mut conversation,
        VoiceConversationRole::User,
        "No, I said, oh good.",
    );

    assert!(spoken_voice_echoes_latest_user_turn(
        "No, I said oh good.",
        &conversation
    ));
    assert!(!spoken_voice_echoes_latest_user_turn(
        "I heard you say oh good.",
        &conversation
    ));
    assert!(!spoken_voice_echoes_latest_user_turn(
        "I'll climb!",
        &conversation
    ));
}

#[test]
fn voice_reply_from_generated_passes_thought_marker_without_speech() {
    assert_eq!(
        voice_reply_from_generated("<thought/> I should wait."),
        Some(VoiceReply::Thought("I should wait.".to_string()))
    );
    assert_eq!(
        voice_reply_from_generated("I can answer briefly."),
        Some(VoiceReply::Spoken("I can answer briefly.".to_string()))
    );
    assert_eq!(
        voice_reply_from_generated("<say>I should not keep tags.</say>"),
        Some(VoiceReply::Spoken("I should not keep tags.".to_string()))
    );
}

#[test]
fn voice_reply_from_generated_truncates_dialogue_prompt_echo() {
    assert_eq!(
        voice_reply_from_generated(
            "Yes I hear you. Reply only when the latest user turn needs an answer. Keep it brief and give the other person a chance to speak."
        ),
        Some(VoiceReply::Spoken("Yes I hear you.".to_string()))
    );
    assert_eq!(
        voice_reply_from_generated("Reply only when the latest user turn needs an answer."),
        None
    );
}

#[test]
fn voice_reply_from_generated_filters_perceive_you_fallback() {
    assert_eq!(
        voice_reply_from_generated("I perceive you in the current moment."),
        None
    );
    assert_eq!(
        voice_reply_from_generated("<say>I perceive you.</say>"),
        None
    );
}

#[test]
fn voice_stop_markers_include_dialogue_prompt_prefix() {
    assert!(voice_llm_stop_markers().contains(&DIALOGUE_VOICE_TURN_PROMPT_PREFIX.to_string()));
}

#[test]
fn commentator_prompt_says_say_tags_are_forbidden() {
    let prompt = rendered_voice_messages(
        &VecDeque::new(),
        &VecDeque::new(),
        &VecDeque::new(),
        &VecDeque::new(),
        &VecDeque::new(),
    );

    assert!(prompt.contains("Continue the Commentator stream now"));
    assert!(prompt.contains("Do not use <say> tags or attempt to speak aloud"));
    assert!(!prompt.contains("<say>...</say>"));
}

#[test]
fn repetitive_commentator_turns_continue_normal_prompt_while_daydreaming_disabled() {
    let mut turns = VecDeque::new();
    remember_recent_voice_turn(
        &mut turns,
        "I am focusing on the steady presence of this perceived reality. I notice the quiet strength of this moment.",
    );
    remember_recent_voice_turn(
        &mut turns,
        "I am focusing on the steady presence of this perceived reality. I feel the quiet strength of this moment.",
    );
    remember_recent_voice_turn(
        &mut turns,
        "I am focusing on the steady presence of this perceived reality. I notice the quiet strength of this moment.",
    );

    let prompt = rendered_voice_messages(
        &VecDeque::new(),
        &VecDeque::new(),
        &VecDeque::new(),
        &turns,
        &VecDeque::new(),
    );

    assert!(prompt.contains("Continue the Commentator stream now"));
    assert!(!prompt.contains("DAYDREAM MODE"));
    assert!(!prompt.contains("three randomly generated words"));
    assert!(!prompt.contains("Imagine Pete encountered them"));
    assert!(!prompt.contains("story form"));
    assert!(!prompt.contains("lots of sensory details"));
    assert!(!prompt.contains("not real-world facts"));
}

#[test]
fn voice_prompt_reinforces_reality_boundaries() {
    let prompt = rendered_voice_messages(
        &VecDeque::new(),
        &VecDeque::new(),
        &VecDeque::new(),
        &VecDeque::new(),
        &VecDeque::new(),
    );

    assert!(prompt.contains("Treat only the structured real-world context"));
    assert!(prompt.contains("Do not invent new external events"));
    assert!(prompt.contains("contemplate the present situation"));
    assert!(prompt.contains("life in general"));
    assert!(prompt.contains("your own existence"));
    assert!(!prompt.contains("daydream, associate, or explore an idea"));
}

#[test]
fn voice_turn_marker_only_output_becomes_silence() {
    let turn = voice_turn_or_silence("<|im_start|>assistant".to_string());

    assert!(turn.is_empty());
    assert!(!voice_turn_has_observation(&turn));
}

#[test]
fn voice_turn_tag_only_output_becomes_silence() {
    let turn = voice_turn_or_silence("<say></say>".to_string());

    assert!(turn.is_empty());
}

#[test]
fn voice_turn_existing_internal_or_spoken_observation_is_preserved() {
    assert_eq!(
        voice_turn_or_silence("I am watching the room.".to_string()),
        "I am watching the room.".to_string()
    );
    assert_eq!(
        voice_turn_or_silence("<say>I see Travis.</say>".to_string()),
        "<say>I see Travis.</say>".to_string()
    );
}

#[test]
fn voice_thought_parser_splits_trailing_emoji_from_text() {
    assert_eq!(
        parse_voice_thought("I am watching the room. 🤔"),
        Some(VoiceThought {
            text: "I am watching the room.".to_string(),
            emoji: Some("🤔".to_string()),
        })
    );
}

#[test]
fn voice_thought_parser_splits_unspaced_trailing_emoji_from_text() {
    assert_eq!(
        parse_voice_thought("I am watching the room.🤔"),
        Some(VoiceThought {
            text: "I am watching the room.".to_string(),
            emoji: Some("🤔".to_string()),
        })
    );
}

#[test]
fn sentence_segmenter_keeps_final_emoji_with_last_sentence() {
    let mut segmenter = VoiceSentenceSegmenter::new();
    assert!(segmenter.push_str("I am watching the room. ").is_empty());
    assert_eq!(
        segmenter.push_str("🤔"),
        vec!["I am watching the room. 🤔".to_string()]
    );
    assert!(segmenter.finish().is_empty());
}

#[test]
fn sentence_segmenter_attaches_split_emoji_before_next_sentence() {
    let mut segmenter = VoiceSentenceSegmenter::new();
    assert!(segmenter.push_str("I am watching the room. ").is_empty());
    assert_eq!(
        segmenter.push_str("🤔 I feel awake. "),
        vec!["I am watching the room. 🤔".to_string()]
    );
    assert_eq!(segmenter.finish(), vec!["I feel awake.".to_string()]);
}

#[test]
fn a_signature_is_its_runs_of_letters_and_digits() {
    assert_eq!(normalized_signature("  Room-12:\u{a0}\u{c9}t\u{e9}, NOW!"), "room 12 \u{c9}t\u{e9} now");
    assert_eq!(normalized_signature("room... 12"), normalized_signature("ROOM (12)"));
    let once = normalized_signature("I'm here; are YOU?");
    assert_eq!(once, "i m here are you");
    assert_eq!(normalized_signature(&once), once);
}

#[test]
fn sentences_are_the_text_they_were_cut_from() {
    let chunks = ["Hel", "lo there. \u{1F600} How", " are you? Fine", ".  ", "Bye", " \u{1F44B}"];
    let mut segmenter = VoiceSentenceSegmenter::new();
    let mut out: Vec<String> = Vec::new();
    for chunk in chunks {
        out.extend(segmenter.push_str(chunk));
    }
    out.extend(segmenter.finish());
    let dense = |text: String| text.chars().filter(|c| !c.is_whitespace()).collect::<String>();
    assert!(out.iter().all(|sentence| !sentence.is_empty()));
    assert_eq!(dense(out.concat()), dense(chunks.concat()));
}
