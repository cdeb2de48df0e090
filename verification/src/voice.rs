//! The voice: when it speaks, what it waits for, and what it makes of what
//! becomes of its words.

use std::collections::VecDeque;
use vstd::prelude::*;

use crate::ident::{copy_ids, hyphenated, id_text, Id};
use crate::impression::Confidence;
use crate::llm::{GenerationRequest, ImageView};
use crate::logs::logged;
use crate::messages::{
    AudioSentenceClipRecord, BroadcastView, ClipView, ExperienceRecord, ExperienceRecordView,
    MouthEventView, ObservationView, RealTimeExperienceEvent, VoiceMouthEvent, VoiceObservation,
};
use crate::realtime_experience::last_of;
use crate::text::{copy_optional, occurs, optional};
use crate::time::Timestamp;
use crate::voice_memory::{
    after_clips, after_experience, after_experiences, after_heard, after_said, after_turn, are_distinct,
    asr_views, awaits_answer, clip_views, echoes, experience_views, feedback_views, is_unheard,
    law_answer_is_due_to_the_last_speaker, law_experience_memory_is_bounded_and_distinct,
    law_new_sentence_is_remembered, law_turn_is_remembered_as_said, remember_recent_experience,
    remember_recent_finalized_asr_update, remember_speech_feedback, remember_thought,
    remember_user_turns, remember_voice_conversation_turn, spoken_voice_echoes_latest_user_turn,
    sync_recent_experiences, sync_recent_finalized_asr, thought_views, turn_views, unheard, user_turns,
    voice_conversation_needs_response, voice_user_turn_count, AsrView, ExperienceMemory,
    FinalizedAsrUpdate, SpeechFeedbackView, TurnView, VoiceConversationRole, VoiceConversationTurn,
    VoiceSpeechFeedback,
};
use crate::voice_prompt::{build_dialogue_voice_messages, is_dialogue_chat, Knowledge};
use crate::voice_records::{
    face_note, feedback_note, internal_note, queued_note, record_face_emoji_sensation_and_impression,
    record_internal_voice_sensation_and_impression, record_queued_voice_sensation_and_impression,
    record_spoken_voice_sensation_and_impression, record_voice_speech_feedback_sensation, recorded,
    spoken_note, FeedbackNoteView, RecordIds, Recorded, RecordedView, VOICE_OBSERVATION_CONFIDENCE,
};
use crate::voice_text::{
    is_plain, is_wordy, law_emoji_is_told_apart_from_the_words, law_plain_text_is_kept,
    observation_in, reply_of, signature, voice_llm_stop_markers, voice_observation_text,
    voice_reply_from_generated, voice_stops, ReplyView, ThoughtView, VoiceReply, VoiceThought,
};

verus! {

/// How long the voice waits before it speaks again, in milliseconds.
pub const VOICE_RESTART_DELAY_MS: u64 = 250;

/// How often speech is looked after, in milliseconds.
pub const VOICE_MOUTH_FEEDBACK_POLL_INTERVAL_MS: u64 = 250;

/// How long speech may go on without a report, in milliseconds.
pub const VOICE_MOUTH_FEEDBACK_TIMEOUT_MS: u64 = 45_000;

/// How long it may take until speech starts, in milliseconds.
pub const VOICE_SPEECH_AUDIO_TIMEOUT_MS: u64 = 180_000;

/// The length of a reply, in tokens.
pub const DIALOGUE_VOICE_MAX_TOKENS_PER_TURN: usize = 96;

/// The file that holds the sound of some words.
pub fn mouth_audio_filename(utterance_id: Id) -> (s: String)
    ensures
        s@ == "voice-"@ + hyphenated(utterance_id) + ".wav"@,
{
    let mut s = "voice-".to_owned();
    s.push_str(id_text(utterance_id).as_str());
    s.push_str(".wav");
    s
}

/// Where the sound of some words is.
pub open spec fn audio_url(utterance_id: Id) -> Seq<char> {
    "/mouth-audio/"@ + ("voice-"@ + hyphenated(utterance_id) + ".wav"@)
}

/// Where the sound of some words is.
pub fn mouth_audio_url(utterance_id: Id) -> (s: String)
    ensures
        s@ == audio_url(utterance_id),
{
    let mut s = "/mouth-audio/".to_owned();
    s.push_str(mouth_audio_filename(utterance_id).as_str());
    s
}

/// Words that are being spoken aloud.
#[derive(Debug, PartialEq, Eq)]
pub struct PendingVoiceSpeech {
    /// The words.
    pub observation: VoiceObservation,
    /// The generation that they come from.
    pub generation_id: Id,
    /// When they were handed over, in milliseconds of a steady clock.
    pub drafted_at_ms: u64,
    /// When they began to sound.
    pub playback_started_at_ms: Option<u64>,
    /// Whether they were given up before they began to sound.
    pub audio_timeout_reported: bool,
    /// Whether they were given up since.
    pub feedback_timeout_reported: bool,
}

/// What a [`PendingVoiceSpeech`] is.
pub ghost struct PendingView {
    pub observation: ObservationView,
    pub generation_id: Id,
    pub drafted_at_ms: u64,
    pub playback_started_at_ms: Option<u64>,
    pub audio_timeout_reported: bool,
    pub feedback_timeout_reported: bool,
}

impl View for PendingVoiceSpeech {
    type V = PendingView;

    open spec fn view(&self) -> PendingView {
        PendingView {
            observation: self.observation@,
            generation_id: self.generation_id,
            drafted_at_ms: self.drafted_at_ms,
            playback_started_at_ms: self.playback_started_at_ms,
            audio_timeout_reported: self.audio_timeout_reported,
            feedback_timeout_reported: self.feedback_timeout_reported,
        }
    }
}

impl Clone for PendingVoiceSpeech {
    fn clone(&self) -> (r: PendingVoiceSpeech)
        ensures
            r@ == self@,
    {
        PendingVoiceSpeech {
            observation: self.observation.clone(),
            generation_id: self.generation_id,
            drafted_at_ms: self.drafted_at_ms,
            playback_started_at_ms: self.playback_started_at_ms,
            audio_timeout_reported: self.audio_timeout_reported,
            feedback_timeout_reported: self.feedback_timeout_reported,
        }
    }
}

/// Something to be done.
#[derive(Debug, PartialEq, Eq)]
#[allow(inconsistent_fields)]
pub enum VoiceAction {
    /// To tell whoever listens.
    Broadcast {
        /// What to tell.
        event: RealTimeExperienceEvent,
    },
    /// To keep a record.
    Record {
        /// The record.
        record: Recorded,
    },
    /// To log a thought.
    Observe {
        /// The thought.
        observation: VoiceObservation,
    },
    /// To look at what happened.
    Trace,
    /// To have words spoken aloud.
    Synthesize {
        /// The generation that they come from.
        generation_id: Id,
        /// The words.
        utterance_id: Id,
        /// What to say.
        text: String,
    },
    /// To report on speech.
    Mouth {
        /// The report.
        event: VoiceMouthEvent,
    },
    /// To have a reply generated.
    Start {
        /// The generation.
        generation_id: Id,
    },
    /// To add to what a generation was told.
    Append {
        /// The generation.
        generation_id: Id,
        /// What to add.
        text: String,
    },
    /// To stop a generation.
    Cancel {
        /// The generation.
        generation_id: Id,
    },
    /// To wait.
    Wait {
        /// How long, in milliseconds.
        millis: u64,
    },
    /// To go on once this is done.
    Resume,
}

/// What a [`VoiceAction`] is.
#[allow(inconsistent_fields)]
pub ghost enum ActionView {
    Broadcast {
        event: BroadcastView,
    },
    Record {
        record: RecordedView,
    },
    Observe {
        observation: ObservationView,
    },
    Trace,
    Synthesize {
        generation_id: Id,
        utterance_id: Id,
        text: Seq<char>,
    },
    Mouth {
        event: MouthEventView,
    },
    Start {
        generation_id: Id,
    },
    Append {
        generation_id: Id,
        text: Seq<char>,
    },
    Cancel {
        generation_id: Id,
    },
    Wait {
        millis: u64,
    },
    Resume,
}

impl View for VoiceAction {
    type V = ActionView;

    open spec fn view(&self) -> ActionView {
        match self {
            VoiceAction::Broadcast { event } => ActionView::Broadcast {
                event: event@,
            },
            VoiceAction::Record { record } => ActionView::Record {
                record: record@,
            },
            VoiceAction::Observe { observation } => ActionView::Observe {
                observation: observation@,
            },
            VoiceAction::Trace => ActionView::Trace,
            VoiceAction::Synthesize { generation_id, utterance_id, text } => ActionView::Synthesize {
                generation_id: *generation_id,
                utterance_id: *utterance_id,
                text: text@,
            },
            VoiceAction::Mouth { event } => ActionView::Mouth {
                event: event@,
            },
            VoiceAction::Start { generation_id } => ActionView::Start {
                generation_id: *generation_id,
            },
            VoiceAction::Append { generation_id, text } => ActionView::Append {
                generation_id: *generation_id,
                text: text@,
            },
            VoiceAction::Cancel { generation_id } => ActionView::Cancel {
                generation_id: *generation_id,
            },
            VoiceAction::Wait { millis } => ActionView::Wait {
                millis: *millis,
            },
            VoiceAction::Resume => ActionView::Resume,
        }
    }
}

impl Clone for VoiceAction {
    fn clone(&self) -> (r: VoiceAction)
        ensures
            r@ == self@,
    {
        match self {
            VoiceAction::Broadcast { event } => VoiceAction::Broadcast {
                event: event.clone(),
            },
            VoiceAction::Record { record } => VoiceAction::Record {
                record: record.clone(),
            },
            VoiceAction::Observe { observation } => VoiceAction::Observe {
                observation: observation.clone(),
            },
            VoiceAction::Trace => VoiceAction::Trace,
            VoiceAction::Synthesize { generation_id, utterance_id, text } => VoiceAction::Synthesize {
                generation_id: *generation_id,
                utterance_id: *utterance_id,
                text: text.clone(),
            },
            VoiceAction::Mouth { event } => VoiceAction::Mouth {
                event: event.clone(),
            },
            VoiceAction::Start { generation_id } => VoiceAction::Start {
                generation_id: *generation_id,
            },
            VoiceAction::Append { generation_id, text } => VoiceAction::Append {
                generation_id: *generation_id,
                text: text.clone(),
            },
            VoiceAction::Cancel { generation_id } => VoiceAction::Cancel {
                generation_id: *generation_id,
            },
            VoiceAction::Wait { millis } => VoiceAction::Wait {
                millis: *millis,
            },
            VoiceAction::Resume => VoiceAction::Resume,
        }
    }
}

/// The actions of a list.
pub open spec fn action_views(list: Seq<VoiceAction>) -> Seq<ActionView> {
    list.map_values(|a: VoiceAction| a@)
}

/// What the clocks show.
#[derive(Debug, Clone, Copy, PartialEq, Eq, Structural)]
pub struct Moment {
    /// The time.
    pub now: Timestamp,
    /// The milliseconds of a steady clock.
    pub tick_ms: u64,
}

/// Identifiers for what a step may bring forth.
#[derive(Debug, Clone, Copy, PartialEq, Eq, Structural)]
pub struct StepIds {
    /// For a generation.
    pub generation: Id,
    /// For a thought.
    pub observation: Id,
    /// For a record.
    pub first: RecordIds,
    /// For another record.
    pub second: RecordIds,
    /// For a third.
    pub third: RecordIds,
}

/// What is logged elsewhere: experiences, the impressions that the system made
/// of itself, and the sentences heard.
pub struct SharedLogs<'a> {
    /// The experiences.
    pub experiences: &'a VecDeque<ExperienceRecord>,
    /// The impressions that the system made of itself.
    pub voice_impression_ids: &'a Vec<Id>,
    /// The sentences heard.
    pub clips: &'a VecDeque<AudioSentenceClipRecord>,
}

/// What [`SharedLogs`] hold.
pub ghost struct LogsView {
    pub experiences: Seq<ExperienceRecordView>,
    pub voice_ids: Seq<Id>,
    pub clips: Seq<ClipView>,
}

impl<'a> View for SharedLogs<'a> {
    type V = LogsView;

    open spec fn view(&self) -> LogsView {
        LogsView {
            experiences: experience_views(self.experiences@),
            voice_ids: self.voice_impression_ids@,
            clips: clip_views(self.clips@),
        }
    }
}

/// The state of the voice.
pub struct DialogueVoice {
    /// The recent experiences.
    pub recent_experiences: VecDeque<ExperienceRecord>,
    /// The sentences heard.
    pub recent_finalized_asr: VecDeque<FinalizedAsrUpdate>,
    /// The recent thoughts.
    pub recent_thoughts: VecDeque<VoiceObservation>,
    /// The conversation.
    pub conversation: VecDeque<VoiceConversationTurn>,
    /// The reports on speech.
    pub recent_speech_feedback: VecDeque<VoiceSpeechFeedback>,
    /// The words that are being spoken aloud.
    pub pending_speech: Option<PendingVoiceSpeech>,
    /// The reply that is being generated.
    pub active_generation_id: Option<Id>,
    /// The experiences that it is about.
    pub active_experience_ids: Vec<Id>,
    /// How many turns of the other person have been answered.
    pub answered_user_turns: usize,
    /// The signature of the last experience that was news.
    pub last_experience_signature: Option<String>,
}

/// What a [`DialogueVoice`] is.
pub ghost struct VoiceView {
    pub experiences: ExperienceMemory,
    pub heard: Seq<AsrView>,
    pub thoughts: Seq<ObservationView>,
    pub turns: Seq<TurnView>,
    pub feedback: Seq<SpeechFeedbackView>,
    pub pending: Option<PendingView>,
    pub active: Option<Id>,
    pub active_ids: Seq<Id>,
    pub answered: nat,
}

/// What words are being spoken, if any.
pub open spec fn pending_view(pending: Option<PendingVoiceSpeech>) -> Option<PendingView> {
    match pending {
        Some(p) => Some(p@),
        None => None,
    }
}

impl View for DialogueVoice {
    type V = VoiceView;

    open spec fn view(&self) -> VoiceView {
        VoiceView {
            experiences: ExperienceMemory {
                recent: experience_views(self.recent_experiences@),
                last: optional(self.last_experience_signature),
            },
            heard: asr_views(self.recent_finalized_asr@),
            thoughts: thought_views(self.recent_thoughts@),
            turns: turn_views(self.conversation@),
            feedback: feedback_views(self.recent_speech_feedback@),
            pending: pending_view(self.pending_speech),
            active: self.active_generation_id,
            active_ids: self.active_experience_ids@,
            answered: self.answered_user_turns as nat,
        }
    }
}

/// A step: the state after it, and what is to be done.
pub ghost struct VoiceStep {
    pub voice: VoiceView,
    pub actions: Seq<ActionView>,
}

/// The step that changes nothing.
pub open spec fn rests(v: VoiceView) -> VoiceStep {
    VoiceStep { voice: v, actions: Seq::empty() }
}

/// The state of a voice that knows nothing.
pub open spec fn blank_voice() -> VoiceView {
    VoiceView {
        experiences: ExperienceMemory { recent: Seq::empty(), last: None },
        heard: Seq::empty(),
        thoughts: Seq::empty(),
        turns: Seq::empty(),
        feedback: Seq::empty(),
        pending: None,
        active: None,
        active_ids: Seq::empty(),
        answered: 0,
    }
}

/// The voice after it caught up with the logs.
pub open spec fn caught_up(v: VoiceView, logs: LogsView) -> VoiceView {
    VoiceView {
        experiences: after_experiences(logs.voice_ids, v.experiences, last_of(logs.experiences, 12)),
        heard: after_clips(v.heard, logs.clips),
        turns: after_said(v.turns, unheard(v.heard, logs.clips)),
        ..v
    }
}

/// Whether the voice has something to answer, and neither thinks nor speaks.
pub open spec fn may_answer(v: VoiceView) -> bool {
    v.active is None && v.pending is None && awaits_answer(v.turns, v.answered)
}

/// The identifiers of some experiences.
pub open spec fn experience_ids(list: Seq<ExperienceRecordView>) -> Seq<Id> {
    list.map_values(|e: ExperienceRecordView| e.id)
}

/// The step in which a reply is begun.
pub open spec fn answers(v: VoiceView, generation_id: Id) -> VoiceStep {
    VoiceStep {
        voice: VoiceView {
            active: Some(generation_id),
            active_ids: experience_ids(v.experiences.recent),
            answered: user_turns(v.turns),
            ..v
        },
        actions: seq![
            ActionView::Broadcast { event: BroadcastView::VoiceResponseStart { generation_id } },
            ActionView::Start { generation_id },
        ],
    }
}

/// The step in which a reply is begun, if there is something to answer.
pub open spec fn answers_if_needed(v: VoiceView, generation_id: Id) -> VoiceStep {
    if may_answer(v) {
        answers(v, generation_id)
    } else {
        rests(v)
    }
}

/// The step after some events were missed.
pub open spec fn recovers(v: VoiceView, logs: LogsView, generation_id: Id) -> VoiceStep {
    answers_if_needed(caught_up(v, logs), generation_id)
}

/// The step after speech came to an end: the voice catches up, and if there is
/// something to answer it waits a little first.
pub open spec fn resumes(v: VoiceView, logs: LogsView, generation_id: Id) -> VoiceStep {
    let next = caught_up(v, logs);
    if may_answer(next) {
        let step = answers(next, generation_id);
        VoiceStep { voice: step.voice, actions: seq![ActionView::Wait { millis: 250 }] + step.actions }
    } else {
        rests(next)
    }
}

/// The step after a sentence was heard.
pub open spec fn hears(v: VoiceView, u: AsrView, generation_id: Id) -> VoiceStep {
    let next = VoiceView {
        heard: after_heard(v.heard, u),
        turns: if is_unheard(v.heard, u) {
            after_turn(v.turns, VoiceConversationRole::User, u.text)
        } else {
            v.turns
        },
        ..v
    };
    answers_if_needed(next, generation_id)
}

/// The step after something was told: experiences are remembered, and finished
/// sentences heard.
pub open spec fn learns(v: VoiceView, event: BroadcastView, voice_ids: Seq<Id>, generation_id: Id) -> VoiceStep {
    match event {
        BroadcastView::Experience { generation_id: _, experience } => rests(
            VoiceView { experiences: after_experience(voice_ids, v.experiences, experience), ..v },
        ),
        BroadcastView::AsrTranscript {
            observed_at,
            text,
            sequence_start,
            sequence_end,
            is_final,
            sentence_index,
            sentence_count,
        } => if is_final {
            hears(
                v,
                AsrView {
                    observed_at,
                    text,
                    sequence_start,
                    sequence_end,
                    sentence_index,
                    sentence_count,
                },
                generation_id,
            )
        } else {
            rests(v)
        },
        _ => rests(v),
    }
}

/// The step after a part of a reply came.
pub open spec fn passes_on(v: VoiceView, generation_id: Id, text: Seq<char>) -> VoiceStep {
    VoiceStep {
        voice: v,
        actions: if v.active == Some(generation_id) {
            seq![
                ActionView::Broadcast {
                    event: BroadcastView::VoiceResponseToken { generation_id, text },
                },
            ]
        } else {
            Seq::empty()
        },
    }
}

/// A thought, at a moment, about some experiences.
pub open spec fn observed(id: Id, now: Timestamp, thought: ThoughtView, about: Seq<Id>) -> ObservationView {
    ObservationView {
        id,
        observed_at: now,
        text: thought.text,
        emoji: thought.emoji,
        experience_ids: about,
        interrupted_generation_id: None,
        confidence: "0.6200000047683716"@,
    }
}

/// What is done with a thought that is kept to oneself.
pub open spec fn keeps_thought(
    generation_id: Id,
    o: ObservationView,
    ids: RecordIds,
    kind: Seq<char>,
    faculty: Seq<char>,
) -> Seq<ActionView> {
    seq![
        ActionView::Observe { observation: o },
        ActionView::Record {
            record: recorded(ids, internal_note(generation_id, o, kind, faculty, "I think"@)),
        },
        ActionView::Broadcast {
            event: BroadcastView::VoiceObservation { generation_id, observation: o },
        },
        ActionView::Trace,
    ]
}

/// What is done with words that are to be spoken.
pub open spec fn drafts(generation_id: Id, o: ObservationView, ids: RecordIds) -> Seq<ActionView> {
    seq![
        ActionView::Broadcast {
            event: BroadcastView::VoiceSpeechDraft {
                utterance_id: o.id,
                generation_id,
                observed_at: o.observed_at,
                text: o.text,
                emoji: o.emoji,
                boundary: Some("sentence"@),
                tone: None,
                pace: Some("medium"@),
            },
        },
        ActionView::Record { record: recorded(ids, queued_note(generation_id, o)) },
        ActionView::Trace,
        ActionView::Synthesize { generation_id, utterance_id: o.id, text: o.text },
    ]
}

/// The words as they are handed over.
pub open spec fn handed_over(generation_id: Id, o: ObservationView, tick_ms: u64) -> PendingView {
    PendingView {
        observation: o,
        generation_id,
        drafted_at_ms: tick_ms,
        playback_started_at_ms: None,
        audio_timeout_reported: false,
        feedback_timeout_reported: false,
    }
}

/// The step after a reply was generated: words are handed over to be spoken,
/// unless they only repeat what was said; thoughts are kept.
pub open spec fn concludes(
    v: VoiceView,
    generation_id: Id,
    generated: Option<Seq<char>>,
    at: Moment,
    ids: StepIds,
) -> VoiceStep {
    if v.active != Some(generation_id) {
        rests(v)
    } else {
        let idle = VoiceView { active: None, ..v };
        let told = seq![
            ActionView::Broadcast { event: BroadcastView::VoiceResponseDone { generation_id } },
        ];
        let silent = VoiceStep { voice: idle, actions: told };
        match generated {
            None => silent,
            Some(text) => match reply_of(text) {
                None => silent,
                Some(ReplyView::Spoken(said)) => match observation_in(said) {
                    Some(thought) => if echoes(said, v.turns) {
                        silent
                    } else {
                        let o = observed(ids.observation, at.now, thought, v.active_ids);
                        VoiceStep {
                            voice: VoiceView {
                                pending: Some(handed_over(generation_id, o, at.tick_ms)),
                                ..idle
                            },
                            actions: told + drafts(generation_id, o, ids.first),
                        }
                    },
                    None => silent,
                },
                Some(ReplyView::Thought(said)) => match observation_in(said) {
                    Some(thought) => {
                        let o = observed(ids.observation, at.now, thought, v.active_ids);
                        VoiceStep {
                            voice: VoiceView { thoughts: logged(v.thoughts, o, 10), ..idle },
                            actions: told + keeps_thought(
                                generation_id,
                                o,
                                ids.first,
                                "voice.internal_thought"@,
                                "Voice"@,
                            ),
                        }
                    },
                    None => silent,
                },
            },
        }
    }
}

/// The report that words were given up.
pub open spec fn given_up(p: PendingView, now: Timestamp, reason: Seq<char>) -> ActionView {
    ActionView::Mouth {
        event: MouthEventView::VoiceSpeechInterrupted {
            utterance_id: p.observation.id,
            generation_id: p.generation_id,
            observed_at: now,
            text: p.observation.text,
            reason,
        },
    }
}

/// Whether words have been waited for too long without a sound.
pub open spec fn stays_silent(p: PendingView, tick_ms: u64) -> bool {
    p.playback_started_at_ms is None && !p.audio_timeout_reported && tick_ms - p.drafted_at_ms >= 180_000
}

/// Whether words have been sounding for too long without a report.
pub open spec fn stays_unreported(p: PendingView, tick_ms: u64) -> bool {
    !p.feedback_timeout_reported && (match p.playback_started_at_ms {
        Some(started) => tick_ms - started >= 45_000,
        None => false,
    })
}

/// The step in which speech is looked after: words that take too long are given
/// up, once.
pub open spec fn looks_after(v: VoiceView, at: Moment) -> VoiceStep {
    match v.pending {
        None => rests(v),
        Some(p) => if stays_silent(p, at.tick_ms) {
            VoiceStep {
                voice: VoiceView {
                    pending: Some(PendingView { audio_timeout_reported: true, ..p }),
                    ..v
                },
                actions: seq![given_up(p, at.now, "Mouth audio synthesis timeout after 180000 ms"@)],
            }
        } else if stays_unreported(p, at.tick_ms) {
            VoiceStep {
                voice: VoiceView {
                    pending: Some(PendingView { feedback_timeout_reported: true, ..p }),
                    ..v
                },
                actions: seq![given_up(p, at.now, "Mouth feedback timeout after 45000 ms"@)],
            }
        } else {
            rests(v)
        },
    }
}

/// Whether a report is on the words that are being spoken.
pub open spec fn is_about(pending: Option<PendingView>, utterance_id: Id, generation_id: Id) -> bool {
    match pending {
        Some(p) => p.observation.id == utterance_id && p.generation_id == generation_id,
        None => false,
    }
}

/// What is done with words that were spoken.
pub open spec fn commits(generation_id: Id, o: ObservationView, ids: StepIds) -> Seq<ActionView> {
    seq![
        ActionView::Observe { observation: o },
        ActionView::Record { record: recorded(ids.second, spoken_note(generation_id, o)) },
    ] + (match o.emoji {
        Some(emoji) => seq![
            ActionView::Record { record: recorded(ids.third, face_note(generation_id, o, emoji)) },
            ActionView::Broadcast {
                event: BroadcastView::FaceEmoji { generation_id, observed_at: o.observed_at, emoji },
            },
        ],
        None => Seq::empty(),
    }) + seq![
        ActionView::Broadcast {
            event: BroadcastView::VoiceObservation { generation_id, observation: o },
        },
        ActionView::Trace,
    ]
}

/// The step after a report on speech: that words began to sound, that they were
/// said to the end, or that they were broken off. A report on other words is
/// passed over.
pub open spec fn listens(v: VoiceView, event: MouthEventView, at: Moment, ids: StepIds) -> VoiceStep {
    match event {
        MouthEventView::VoiceSpeechStarted { utterance_id, generation_id, observed_at, text } => {
            if is_about(v.pending, utterance_id, generation_id) {
                VoiceStep {
                    voice: VoiceView {
                        pending: Some(
                            PendingView {
                                playback_started_at_ms: Some(at.tick_ms),
                                feedback_timeout_reported: false,
                                ..v.pending->0
                            },
                        ),
                        feedback: logged(
                            v.feedback,
                            SpeechFeedbackView {
                                observed_at,
                                utterance_id,
                                generation_id,
                                event: "started"@,
                                text,
                                duration_ms: None,
                                reason: None,
                            },
                            16,
                        ),
                        ..v
                    },
                    actions: seq![
                        ActionView::Record {
                            record: recorded(
                                ids.first,
                                feedback_note(
                                    FeedbackNoteView {
                                        utterance_id,
                                        generation_id,
                                        observed_at,
                                        kind: "voice.speech_started"@,
                                        heading: "Mouth started speaking"@,
                                        text,
                                        duration_ms: None,
                                        reason: None,
                                    },
                                ),
                            ),
                        },
                        ActionView::Trace,
                    ],
                }
            } else {
                rests(v)
            }
        },
        MouthEventView::VoiceSpeechFinished {
            utterance_id,
            generation_id,
            observed_at,
            text,
            duration_ms,
        } => {
            if is_about(v.pending, utterance_id, generation_id) {
                let o = v.pending->0.observation;
                VoiceStep {
                    voice: VoiceView {
                        pending: None,
                        feedback: logged(
                            v.feedback,
                            SpeechFeedbackView {
                                observed_at,
                                utterance_id,
                                generation_id,
                                event: "finished"@,
                                text,
                                duration_ms,
                                reason: None,
                            },
                            16,
                        ),
                        thoughts: logged(v.thoughts, o, 10),
                        turns: after_turn(v.turns, VoiceConversationRole::Assistant, o.text),
                        ..v
                    },
                    actions: seq![
                        ActionView::Record {
                            record: recorded(
                                ids.first,
                                feedback_note(
                                    FeedbackNoteView {
                                        utterance_id,
                                        generation_id,
                                        observed_at,
                                        kind: "voice.speech_finished"@,
                                        heading: "Mouth finished speaking"@,
                                        text,
                                        duration_ms,
                                        reason: None,
                                    },
                                ),
                            ),
                        },
                    ] + commits(generation_id, o, ids) + seq![ActionView::Resume],
                }
            } else {
                rests(v)
            }
        },
        MouthEventView::VoiceSpeechInterrupted {
            utterance_id,
            generation_id,
            observed_at,
            text,
            reason,
        } => {
            if is_about(v.pending, utterance_id, generation_id) {
                VoiceStep {
                    voice: VoiceView {
                        pending: None,
                        feedback: logged(
                            v.feedback,
                            SpeechFeedbackView {
                                observed_at,
                                utterance_id,
                                generation_id,
                                event: "interrupted"@,
                                text,
                                duration_ms: None,
                                reason: Some(reason),
                            },
                            16,
                        ),
                        ..v
                    },
                    actions: seq![
                        ActionView::Record {
                            record: recorded(
                                ids.first,
                                feedback_note(
                                    FeedbackNoteView {
                                        utterance_id,
                                        generation_id,
                                        observed_at,
                                        kind: "voice.speech_interrupted"@,
                                        heading: "Mouth speech was interrupted"@,
                                        text,
                                        duration_ms: None,
                                        reason: Some(reason),
                                    },
                                ),
                            ),
                        },
                        ActionView::Trace,
                        ActionView::Resume,
                    ],
                }
            } else {
                rests(v)
            }
        },
    }
}

/// A thought, at a moment, about some experiences.
pub fn voice_observation(id: Id, now: Timestamp, thought: &VoiceThought, about: &Vec<Id>) -> (o:
    VoiceObservation)
    ensures
        o@ == observed(id, now, thought@, about@),
{
    VoiceObservation {
        id,
        observed_at: now,
        text: thought.text.clone(),
        emoji: copy_optional(&thought.emoji),
        experience_ids: copy_ids(about),
        interrupted_generation_id: None,
        confidence: Confidence::of(VOICE_OBSERVATION_CONFIDENCE),
    }
}

/// What is done with a thought that is kept to oneself.
pub fn commit_internal_voice_observation(
    generation_id: Id,
    observation: VoiceObservation,
    ids: RecordIds,
    kind: &str,
    faculty: &str,
    recent_thoughts: &mut VecDeque<VoiceObservation>,
    actions: &mut Vec<VoiceAction>,
)
    ensures
        thought_views(final(recent_thoughts)@) == logged(
            thought_views(old(recent_thoughts)@),
            observation@,
            10,
        ),
        action_views(final(actions)@) == action_views(old(actions)@) + keeps_thought(
            generation_id,
            observation@,
            ids,
            kind@,
            faculty@,
        ),
{
    let ghost before = action_views(actions@);
    remember_thought(recent_thoughts, &observation);
    let record = record_internal_voice_sensation_and_impression(
        ids,
        generation_id,
        &observation,
        kind,
        faculty,
        "I think",
    );
    actions.push(VoiceAction::Observe { observation: observation.clone() });
    actions.push(VoiceAction::Record { record });
    let ghost o = observation@;
    actions.push(
        VoiceAction::Broadcast {
            event: RealTimeExperienceEvent::VoiceObservation { generation_id, observation },
        },
    );
    actions.push(VoiceAction::Trace);
    assert(action_views(actions@) =~= before + keeps_thought(generation_id, o, ids, kind@, faculty@));
}

/// What is done with words that are to be spoken.
pub fn draft_voice_speech_from_text(
    generation_id: Id,
    observation: VoiceObservation,
    ids: RecordIds,
    tick_ms: u64,
    actions: &mut Vec<VoiceAction>,
) -> (pending: PendingVoiceSpeech)
    ensures
        pending@ == handed_over(generation_id, observation@, tick_ms),
        action_views(final(actions)@) == action_views(old(actions)@) + drafts(
            generation_id,
            observation@,
            ids,
        ),
{
    let ghost before = action_views(actions@);
    let event = RealTimeExperienceEvent::VoiceSpeechDraft {
        utterance_id: observation.id,
        generation_id,
        observed_at: observation.observed_at,
        text: observation.text.clone(),
        emoji: copy_optional(&observation.emoji),
        boundary: Some("sentence".to_owned()),
        tone: None,
        pace: Some("medium".to_owned()),
    };
    let record = record_queued_voice_sensation_and_impression(ids, generation_id, &observation);
    actions.push(VoiceAction::Broadcast { event });
    actions.push(VoiceAction::Record { record });
    actions.push(VoiceAction::Trace);
    actions.push(
        VoiceAction::Synthesize {
            generation_id,
            utterance_id: observation.id,
            text: observation.text.clone(),
        },
    );
    assert(action_views(actions@) =~= before + drafts(generation_id, observation@, ids));
    PendingVoiceSpeech {
        observation,
        generation_id,
        drafted_at_ms: tick_ms,
        playback_started_at_ms: None,
        audio_timeout_reported: false,
        feedback_timeout_reported: false,
    }
}

/// What is done with words that were spoken.
pub fn commit_spoken_voice_observation(
    generation_id: Id,
    observation: VoiceObservation,
    ids: StepIds,
    recent_thoughts: &mut VecDeque<VoiceObservation>,
    actions: &mut Vec<VoiceAction>,
)
    ensures
        thought_views(final(recent_thoughts)@) == logged(
            thought_views(old(recent_thoughts)@),
            observation@,
            10,
        ),
        action_views(final(actions)@) == action_views(old(actions)@) + commits(
            generation_id,
            observation@,
            ids,
        ),
{
    let ghost before = action_views(actions@);
    let ghost o = observation@;
    remember_thought(recent_thoughts, &observation);
    let record = record_spoken_voice_sensation_and_impression(
        ids.second,
        generation_id,
        &observation,
    );
    actions.push(VoiceAction::Observe { observation: observation.clone() });
    actions.push(VoiceAction::Record { record });
    match &observation.emoji {
        Some(emoji) => {
            let face = record_face_emoji_sensation_and_impression(
                ids.third,
                generation_id,
                &observation,
                emoji.as_str(),
            );
            actions.push(VoiceAction::Record { record: face });
            actions.push(
                VoiceAction::Broadcast {
                    event: RealTimeExperienceEvent::FaceEmoji {
                        generation_id,
                        observed_at: observation.observed_at,
                        emoji: emoji.clone(),
                    },
                },
            );
        },
        None => {},
    }
    actions.push(
        VoiceAction::Broadcast {
            event: RealTimeExperienceEvent::VoiceObservation { generation_id, observation },
        },
    );
    actions.push(VoiceAction::Trace);
    assert(action_views(actions@) =~= before + commits(generation_id, o, ids));
}

/// Tells whether a report is on the words that are being spoken.
pub fn pending_matches(
    pending: &Option<PendingVoiceSpeech>,
    utterance_id: Id,
    generation_id: Id,
) -> (r: bool)
    ensures
        r == is_about(pending_view(*pending), utterance_id, generation_id),
{
    match pending {
        Some(p) => p.observation.id == utterance_id && p.generation_id == generation_id,
        None => false,
    }
}

/// The identifiers of some experiences.
pub fn recent_experience_ids(recent_experiences: &VecDeque<ExperienceRecord>) -> (ids: Vec<Id>)
    ensures
        ids@ == experience_ids(experience_views(recent_experiences@)),
{
    let mut ids: Vec<Id> = Vec::new();
    let mut i: usize = 0;
    while i < recent_experiences.len()
        invariant
            i <= recent_experiences@.len(),
            ids@.len() == i,
            forall|k: int| 0 <= k < i ==> #[trigger] ids@[k] == recent_experiences@[k].id,
        decreases recent_experiences@.len() - i,
    {
        ids.push(recent_experiences[i].id);
        i += 1;
    }
    assert(ids@ =~= experience_ids(experience_views(recent_experiences@)));
    ids
}

impl DialogueVoice {
    /// A voice that knows what the logs hold.
    pub fn new(logs: &SharedLogs) -> (r: DialogueVoice)
        ensures
            r@ == caught_up(blank_voice(), logs@),
    {
        let mut r = DialogueVoice {
            recent_experiences: VecDeque::new(),
            recent_finalized_asr: VecDeque::new(),
            recent_thoughts: VecDeque::new(),
            conversation: VecDeque::new(),
            recent_speech_feedback: VecDeque::new(),
            pending_speech: None,
            active_generation_id: None,
            active_experience_ids: Vec::new(),
            answered_user_turns: 0,
            last_experience_signature: None,
        };
        assert(r@.experiences.recent =~= Seq::<ExperienceRecordView>::empty());
        assert(r@.heard =~= Seq::<AsrView>::empty());
        assert(r@.thoughts =~= Seq::<ObservationView>::empty());
        assert(r@.turns =~= Seq::<TurnView>::empty());
        assert(r@.feedback =~= Seq::<SpeechFeedbackView>::empty());
        assert(r@ == blank_voice());
        r.catch_up(logs);
        r
    }

    fn catch_up(&mut self, logs: &SharedLogs)
        ensures
            final(self)@ == caught_up(old(self)@, logs@),
    {
        sync_recent_experiences(
            logs.experiences,
            logs.voice_impression_ids,
            &mut self.recent_experiences,
            &mut self.last_experience_signature,
        );
        let fresh = sync_recent_finalized_asr(logs.clips, &mut self.recent_finalized_asr);
        remember_user_turns(&mut self.conversation, &fresh);
    }

    fn needs_to_answer(&self) -> (r: bool)
        ensures
            r == may_answer(self@),
    {
        self.active_generation_id.is_none() && self.pending_speech.is_none()
            && voice_conversation_needs_response(&self.conversation, self.answered_user_turns)
    }

    fn start_dialogue_voice_generation(&mut self, generation_id: Id, actions: &mut Vec<VoiceAction>)
        ensures
            final(self)@ == answers(old(self)@, generation_id).voice,
            action_views(final(actions)@) == action_views(old(actions)@) + answers(
                old(self)@,
                generation_id,
            ).actions,
    {
        let ghost before = action_views(actions@);
        let ghost step = answers(self@, generation_id);
        self.active_experience_ids = recent_experience_ids(&self.recent_experiences);
        self.answered_user_turns = voice_user_turn_count(&self.conversation);
        self.active_generation_id = Some(generation_id);
        actions.push(
            VoiceAction::Broadcast {
                event: RealTimeExperienceEvent::VoiceResponseStart { generation_id },
            },
        );
        actions.push(VoiceAction::Start { generation_id });
        assert(action_views(actions@) =~= before + step.actions);
    }

    /// What the reply that has just begun is to continue.
    pub fn request(&self, now: Timestamp) -> (r: GenerationRequest)
        ensures
            r@.prompt == Seq::<char>::empty(),
            r@.images == Seq::<ImageView>::empty(),
            r@.max_tokens == Some(96usize),
            r@.stop == voice_stops(),
            is_dialogue_chat(
                r@.messages,
                now,
                (Knowledge {
                    experiences: self@.experiences.recent,
                    heard: self@.heard,
                    thoughts: self@.thoughts,
                    feedback: self@.feedback,
                }),
                self@.turns,
            ),
    {
        let messages = build_dialogue_voice_messages(
            now,
            &self.recent_experiences,
            &self.recent_finalized_asr,
            &self.recent_thoughts,
            &self.conversation,
            &self.recent_speech_feedback,
        );
        let r = GenerationRequest {
            prompt: String::new(),
            messages,
            images: Vec::new(),
            max_tokens: Some(DIALOGUE_VOICE_MAX_TOKENS_PER_TURN),
            stop: voice_llm_stop_markers(),
        };
        assert(r@.images =~= Seq::<ImageView>::empty());
        assert(r@.prompt =~= Seq::<char>::empty());
        r
    }

    /// The step after some events were missed.
    pub fn on_lag(&mut self, logs: &SharedLogs, generation_id: Id) -> (actions: Vec<VoiceAction>)
        ensures
            (VoiceStep { voice: final(self)@, actions: action_views(actions@) }) == recovers(
                old(self)@,
                logs@,
                generation_id,
            ),
    {
        let mut actions: Vec<VoiceAction> = Vec::new();
        assert(action_views(actions@) =~= Seq::<ActionView>::empty());
        self.catch_up(logs);
        if self.needs_to_answer() {
            self.start_dialogue_voice_generation(generation_id, &mut actions);
            assert(action_views(actions@) =~= answers(
                caught_up(old(self)@, logs@),
                generation_id,
            ).actions);
        }
        actions
    }

    /// The step after a report ended speech, once its actions are done.
    pub fn after_mouth(&mut self, logs: &SharedLogs, generation_id: Id) -> (actions: Vec<VoiceAction>)
        ensures
            (VoiceStep { voice: final(self)@, actions: action_views(actions@) }) == resumes(
                old(self)@,
                logs@,
                generation_id,
            ),
    {
        let mut actions: Vec<VoiceAction> = Vec::new();
        assert(action_views(actions@) =~= Seq::<ActionView>::empty());
        self.catch_up(logs);
        if self.needs_to_answer() {
            actions.push(VoiceAction::Wait { millis: VOICE_RESTART_DELAY_MS });
            assert(action_views(actions@) =~= seq![ActionView::Wait { millis: 250 }]);
            self.start_dialogue_voice_generation(generation_id, &mut actions);
        }
        actions
    }

    fn hear(&mut self, update: &FinalizedAsrUpdate, generation_id: Id) -> (actions: Vec<VoiceAction>)
        ensures
            (VoiceStep { voice: final(self)@, actions: action_views(actions@) }) == hears(
                old(self)@,
                update@,
                generation_id,
            ),
    {
        let mut actions: Vec<VoiceAction> = Vec::new();
        assert(action_views(actions@) =~= Seq::<ActionView>::empty());
        if remember_recent_finalized_asr_update(&mut self.recent_finalized_asr, update) {
            remember_voice_conversation_turn(
                &mut self.conversation,
                VoiceConversationRole::User,
                update.text.as_str(),
            );
        }
        let ghost mid = self@;
        if self.needs_to_answer() {
            self.start_dialogue_voice_generation(generation_id, &mut actions);
            assert(action_views(actions@) =~= answers(mid, generation_id).actions);
        }
        actions
    }

    /// The step after something was told.
    pub fn on_event(
        &mut self,
        event: &RealTimeExperienceEvent,
        voice_impression_ids: &Vec<Id>,
        generation_id: Id,
    ) -> (actions: Vec<VoiceAction>)
        ensures
            (VoiceStep { voice: final(self)@, actions: action_views(actions@) }) == learns(
                old(self)@,
                event@,
                voice_impression_ids@,
                generation_id,
            ),
    {
        match event {
            RealTimeExperienceEvent::Experience { generation_id: _, experience } => {
                remember_recent_experience(
                    voice_impression_ids,
                    &mut self.recent_experiences,
                    experience,
                    &mut self.last_experience_signature,
                );
            },
            RealTimeExperienceEvent::AsrTranscript {
                observed_at,
                text,
                sequence_start,
                sequence_end,
                is_final,
                sentence_index,
                sentence_count,
            } => {
                if *is_final {
                    let update = FinalizedAsrUpdate {
                        observed_at: *observed_at,
                        text: text.clone(),
                        sequence_start: *sequence_start,
                        sequence_end: *sequence_end,
                        sentence_index: *sentence_index,
                        sentence_count: *sentence_count,
                    };
                    return self.hear(&update, generation_id);
                }
            },
            _ => {},
        }
        let actions: Vec<VoiceAction> = Vec::new();
        assert(action_views(actions@) =~= Seq::<ActionView>::empty());
        actions
    }

    /// The step after a part of a reply came.
    pub fn on_token(&mut self, generation_id: Id, text: String) -> (actions: Vec<VoiceAction>)
        ensures
            (VoiceStep { voice: final(self)@, actions: action_views(actions@) }) == passes_on(
                old(self)@,
                generation_id,
                text@,
            ),
    {
        let mut actions: Vec<VoiceAction> = Vec::new();
        let current = match self.active_generation_id {
            Some(id) => id == generation_id,
            None => false,
        };
        if current {
            actions.push(
                VoiceAction::Broadcast {
                    event: RealTimeExperienceEvent::VoiceResponseToken { generation_id, text },
                },
            );
        }
        assert(action_views(actions@) =~= passes_on(self@, generation_id, text@).actions);
        actions
    }

    /// The step after a reply was generated, or failed.
    pub fn on_done(
        &mut self,
        generation_id: Id,
        result: &Result<String, String>,
        at: Moment,
        ids: StepIds,
    ) -> (actions: Vec<VoiceAction>)
        ensures
            (VoiceStep { voice: final(self)@, actions: action_views(actions@) }) == concludes(
                old(self)@,
                generation_id,
                (match *result {
                    Ok(text) => Some(text@),
                    Err(_) => None,
                }),
                at,
                ids,
            ),
    {
        let mut actions: Vec<VoiceAction> = Vec::new();
        assert(action_views(actions@) =~= Seq::<ActionView>::empty());
        let current = match self.active_generation_id {
            Some(id) => id == generation_id,
            None => false,
        };
        if !current {
            return actions;
        }
        self.active_generation_id = None;
        actions.push(
            VoiceAction::Broadcast {
                event: RealTimeExperienceEvent::VoiceResponseDone { generation_id },
            },
        );
        assert(action_views(actions@) =~= seq![
            ActionView::Broadcast { event: BroadcastView::VoiceResponseDone { generation_id } },
        ]);
        let generated = match result {
            Ok(text) => text,
            Err(_) => {
                return actions;
            },
        };
        match voice_reply_from_generated(generated.as_str()) {
            None => {},
            Some(VoiceReply::Spoken(said)) => {
                if spoken_voice_echoes_latest_user_turn(said.as_str(), &self.conversation) {
                    return actions;
                }
                match voice_observation_text(said.as_str()) {
                    None => {},
                    Some(thought) => {
                        let observation = voice_observation(
                            ids.observation,
                            at.now,
                            &thought,
                            &self.active_experience_ids,
                        );
                        let draft = draft_voice_speech_from_text(
                            generation_id,
                            observation,
                            ids.first,
                            at.tick_ms,
                            &mut actions,
                        );
                        self.pending_speech = Some(draft);
                    },
                }
            },
            Some(VoiceReply::Thought(said)) => {
                match voice_observation_text(said.as_str()) {
                    None => {},
                    Some(thought) => {
                        let observation = voice_observation(
                            ids.observation,
                            at.now,
                            &thought,
                            &self.active_experience_ids,
                        );
                        commit_internal_voice_observation(
                            generation_id,
                            observation,
                            ids.first,
                            "voice.internal_thought",
                            "Voice",
                            &mut self.recent_thoughts,
                            &mut actions,
                        );
                    },
                }
            },
        }
        actions
    }

    /// The step in which speech is looked after.
    pub fn on_tick(&mut self, at: Moment) -> (actions: Vec<VoiceAction>)
        ensures
            (VoiceStep { voice: final(self)@, actions: action_views(actions@) }) == looks_after(
                old(self)@,
                at,
            ),
    {
        let mut actions: Vec<VoiceAction> = Vec::new();
        assert(action_views(actions@) =~= Seq::<ActionView>::empty());
        let mut pending = match self.pending_speech.take() {
            Some(pending) => pending,
            None => {
                return actions;
            },
        };
        let ghost p = pending@;
        let silent = pending.playback_started_at_ms.is_none() && !pending.audio_timeout_reported
            && at.tick_ms >= pending.drafted_at_ms && at.tick_ms - pending.drafted_at_ms
            >= VOICE_SPEECH_AUDIO_TIMEOUT_MS;
        let unreported = !pending.feedback_timeout_reported && (match pending.playback_started_at_ms {
            Some(started) => at.tick_ms >= started && at.tick_ms - started
                >= VOICE_MOUTH_FEEDBACK_TIMEOUT_MS,
            None => false,
        });
        if silent || unreported {
            let reason = if silent {
                "Mouth audio synthesis timeout after 180000 ms".to_owned()
            } else {
                "Mouth feedback timeout after 45000 ms".to_owned()
            };
            if silent {
                pending.audio_timeout_reported = true;
            } else {
                pending.feedback_timeout_reported = true;
            }
            let event = VoiceMouthEvent::VoiceSpeechInterrupted {
                utterance_id: pending.observation.id,
                generation_id: pending.generation_id,
                observed_at: at.now,
                text: pending.observation.text.clone(),
                reason,
            };
            let ghost told = event@;
            actions.push(VoiceAction::Mouth { event });
            assert(action_views(actions@) =~= seq![ActionView::Mouth { event: told }]);
        }
        self.pending_speech = Some(pending);
        assert(action_views(actions@) =~= looks_after(old(self)@, at).actions);
        actions
    }

    /// The step after a report on speech. Where speech came to an end, a last
    /// action asks for [`DialogueVoice::after_mouth`].
    pub fn on_mouth(&mut self, event: &VoiceMouthEvent, at: Moment, ids: StepIds) -> (actions: Vec<
        VoiceAction,
    >)
        ensures
            (VoiceStep { voice: final(self)@, actions: action_views(actions@) }) == listens(
                old(self)@,
                event@,
                at,
                ids,
            ),
    {
        let mut actions: Vec<VoiceAction> = Vec::new();
        assert(action_views(actions@) =~= Seq::<ActionView>::empty());
        let ghost step = listens(self@, event@, at, ids);
        match event {
            VoiceMouthEvent::VoiceSpeechStarted { utterance_id, generation_id, observed_at, text } => {
                if !pending_matches(&self.pending_speech, *utterance_id, *generation_id) {
                    return actions;
                }
                let mut pending = self.pending_speech.take().unwrap();
                pending.playback_started_at_ms = Some(at.tick_ms);
                pending.feedback_timeout_reported = false;
                self.pending_speech = Some(pending);
                remember_speech_feedback(
                    &mut self.recent_speech_feedback,
                    VoiceSpeechFeedback {
                        observed_at: *observed_at,
                        utterance_id: *utterance_id,
                        generation_id: *generation_id,
                        event: "started".to_owned(),
                        text: text.clone(),
                        duration_ms: None,
                        reason: None,
                    },
                );
                let record = record_voice_speech_feedback_sensation(
                    ids.first,
                    *utterance_id,
                    *generation_id,
                    *observed_at,
                    "voice.speech_started",
                    "Mouth started speaking",
                    text.as_str(),
                    None,
                    &None,
                );
                actions.push(VoiceAction::Record { record });
                actions.push(VoiceAction::Trace);
                assert(action_views(actions@) =~= step.actions);
            },
            VoiceMouthEvent::VoiceSpeechFinished {
                utterance_id,
                generation_id,
                observed_at,
                text,
                duration_ms,
            } => {
                if !pending_matches(&self.pending_speech, *utterance_id, *generation_id) {
                    return actions;
                }
                let pending = self.pending_speech.take().unwrap();
                remember_speech_feedback(
                    &mut self.recent_speech_feedback,
                    VoiceSpeechFeedback {
                        observed_at: *observed_at,
                        utterance_id: *utterance_id,
                        generation_id: *generation_id,
                        event: "finished".to_owned(),
                        text: text.clone(),
                        duration_ms: *duration_ms,
                        reason: None,
                    },
                );
                let record = record_voice_speech_feedback_sensation(
                    ids.first,
                    *utterance_id,
                    *generation_id,
                    *observed_at,
                    "voice.speech_finished",
                    "Mouth finished speaking",
                    text.as_str(),
                    *duration_ms,
                    &None,
                );
                let ghost told = record@;
                actions.push(VoiceAction::Record { record });
                assert(action_views(actions@) =~= seq![ActionView::Record { record: told }]);
                let spoken = pending.observation.text.clone();
                let ghost o = pending@.observation;
                commit_spoken_voice_observation(
                    pending.generation_id,
                    pending.observation,
                    ids,
                    &mut self.recent_thoughts,
                    &mut actions,
                );
                remember_voice_conversation_turn(
                    &mut self.conversation,
                    VoiceConversationRole::Assistant,
                    spoken.as_str(),
                );
                actions.push(VoiceAction::Resume);
                assert(action_views(actions@) =~= seq![ActionView::Record { record: told }] + commits(
                    *generation_id,
                    o,
                    ids,
                ) + seq![ActionView::Resume]);
            },
            VoiceMouthEvent::VoiceSpeechInterrupted {
                utterance_id,
                generation_id,
                observed_at,
                text,
                reason,
            } => {
                if !pending_matches(&self.pending_speech, *utterance_id, *generation_id) {
                    return actions;
                }
                self.pending_speech = None;
                let why = Some(reason.clone());
                remember_speech_feedback(
                    &mut self.recent_speech_feedback,
                    VoiceSpeechFeedback {
                        observed_at: *observed_at,
                        utterance_id: *utterance_id,
                        generation_id: *generation_id,
                        event: "interrupted".to_owned(),
                        text: text.clone(),
                        duration_ms: None,
                        reason: copy_optional(&why),
                    },
                );
                let record = record_voice_speech_feedback_sensation(
                    ids.first,
                    *utterance_id,
                    *generation_id,
                    *observed_at,
                    "voice.speech_interrupted",
                    "Mouth speech was interrupted",
                    text.as_str(),
                    None,
                    &why,
                );
                actions.push(VoiceAction::Record { record });
                actions.push(VoiceAction::Trace);
                actions.push(VoiceAction::Resume);
                assert(action_views(actions@) =~= step.actions);
            },
        }
        actions
    }
}

/// How an attempt to make words sound ended.
#[derive(Debug, PartialEq, Eq)]
pub enum Synthesis {
    /// There is sound.
    Ready {
        /// Its samples in a second.
        sample_rate_hz: u32,
        /// Its samples.
        samples: usize,
        /// Its length in milliseconds.
        duration_ms: u64,
    },
    /// There is none.
    Failed {
        /// Why.
        error: String,
    },
    /// The attempt was given up.
    Abandoned {
        /// Why.
        error: String,
    },
}

/// What is told when words are about to be made to sound.
pub fn synthesis_started(utterance_id: Id, generation_id: Id, now: Timestamp, text: &str) -> (action:
    VoiceAction)
    ensures
        action@ == (ActionView::Broadcast {
            event: BroadcastView::VoiceSpeechSynthesisStarted {
                utterance_id,
                generation_id,
                observed_at: now,
                text: text@,
            },
        }),
{
    VoiceAction::Broadcast {
        event: RealTimeExperienceEvent::VoiceSpeechSynthesisStarted {
            utterance_id,
            generation_id,
            observed_at: now,
            text: text.to_owned(),
        },
    }
}

/// What follows an attempt to make words sound: whoever listens learns where the
/// sound is, or speech is broken off.
pub open spec fn after_synthesis(
    utterance_id: Id,
    generation_id: Id,
    now: Timestamp,
    text: Seq<char>,
    outcome: Synthesis,
) -> ActionView {
    match outcome {
        Synthesis::Ready { sample_rate_hz, samples, duration_ms } => ActionView::Broadcast {
            event: BroadcastView::VoiceSpeechAudio {
                utterance_id,
                generation_id,
                observed_at: now,
                text,
                mime: "audio/wav"@,
                audio_url: Some(audio_url(utterance_id)),
                sample_rate_hz,
                samples,
                duration_ms,
                data: None,
            },
        },
        Synthesis::Failed { error } => ActionView::Mouth {
            event: MouthEventView::VoiceSpeechInterrupted {
                utterance_id,
                generation_id,
                observed_at: now,
                text,
                reason: "Mouth Piper synthesis failed: "@ + error@,
            },
        },
        Synthesis::Abandoned { error } => ActionView::Mouth {
            event: MouthEventView::VoiceSpeechInterrupted {
                utterance_id,
                generation_id,
                observed_at: now,
                text,
                reason: "Mouth Piper synthesis task failed: "@ + error@,
            },
        },
    }
}

/// What follows an attempt to make words sound.
pub fn synthesis_finished(
    utterance_id: Id,
    generation_id: Id,
    now: Timestamp,
    text: &str,
    outcome: &Synthesis,
) -> (action: VoiceAction)
    ensures
        action@ == after_synthesis(utterance_id, generation_id, now, text@, *outcome),
{
    match outcome {
        Synthesis::Ready { sample_rate_hz, samples, duration_ms } => VoiceAction::Broadcast {
            event: RealTimeExperienceEvent::VoiceSpeechAudio {
                utterance_id,
                generation_id,
                observed_at: now,
                text: text.to_owned(),
                mime: "audio/wav".to_owned(),
                audio_url: Some(mouth_audio_url(utterance_id)),
                sample_rate_hz: *sample_rate_hz,
                samples: *samples,
                duration_ms: *duration_ms,
                data: None,
            },
        },
        Synthesis::Failed { error } => {
            let mut reason = "Mouth Piper synthesis failed: ".to_owned();
            reason.push_str(error.as_str());
            VoiceAction::Mouth {
                event: VoiceMouthEvent::VoiceSpeechInterrupted {
                    utterance_id,
                    generation_id,
                    observed_at: now,
                    text: text.to_owned(),
                    reason,
                },
            }
        },
        Synthesis::Abandoned { error } => {
            let mut reason = "Mouth Piper synthesis task failed: ".to_owned();
            reason.push_str(error.as_str());
            VoiceAction::Mouth {
                event: VoiceMouthEvent::VoiceSpeechInterrupted {
                    utterance_id,
                    generation_id,
                    observed_at: now,
                    text: text.to_owned(),
                    reason,
                },
            }
        },
    }
}

/// Whether the voice does one thing at a time, and remembers no more than it
/// should.
pub open spec fn is_sound(v: VoiceView) -> bool {
    &&& v.active is None || v.pending is None
    &&& v.experiences.recent.len() <= 12
    &&& are_distinct(v.experiences.recent)
    &&& v.heard.len() <= 24
    &&& v.thoughts.len() <= 10
    &&& v.turns.len() <= 24
    &&& v.feedback.len() <= 16
}

proof fn lemma_clips_bounded(recent: Seq<AsrView>, clips: Seq<ClipView>)
    requires
        recent.len() <= 24,
    ensures
        after_clips(recent, clips).len() <= 24,
    decreases clips.len(),
{
    if clips.len() > 0 {
        lemma_clips_bounded(recent, clips.drop_last());
    }
}

proof fn lemma_said_bounded(turns: Seq<TurnView>, updates: Seq<AsrView>)
    requires
        turns.len() <= 24,
    ensures
        after_said(turns, updates).len() <= 24,
    decreases updates.len(),
{
    if updates.len() > 0 {
        lemma_said_bounded(turns, updates.drop_last());
    }
}

proof fn lemma_caught_up_is_sound(v: VoiceView, logs: LogsView)
    requires
        is_sound(v),
    ensures
        is_sound(caught_up(v, logs)),
{
    law_experience_memory_is_bounded_and_distinct(
        logs.voice_ids,
        v.experiences,
        last_of(logs.experiences, 12),
    );
    lemma_clips_bounded(v.heard, logs.clips);
    lemma_said_bounded(v.turns, unheard(v.heard, logs.clips));
}

/// Whatever happens, in whatever order: the voice never has a reply generated
/// while words of it are being spoken, nor two at once, and its memory stays
/// within its limits.
pub proof fn law_voice_does_one_thing_at_a_time(
    v: VoiceView,
    logs: LogsView,
    event: BroadcastView,
    report: MouthEventView,
    generation_id: Id,
    generated: Option<Seq<char>>,
    text: Seq<char>,
    at: Moment,
    ids: StepIds,
)
    requires
        is_sound(v),
    ensures
        is_sound(caught_up(blank_voice(), logs)),
        is_sound(recovers(v, logs, generation_id).voice),
        is_sound(resumes(v, logs, generation_id).voice),
        is_sound(learns(v, event, logs.voice_ids, generation_id).voice),
        is_sound(passes_on(v, generation_id, text).voice),
        is_sound(concludes(v, generation_id, generated, at, ids).voice),
        is_sound(looks_after(v, at).voice),
        is_sound(listens(v, report, at, ids).voice),
{
    lemma_caught_up_is_sound(blank_voice(), logs);
    lemma_caught_up_is_sound(v, logs);
    if let BroadcastView::Experience { generation_id: _, experience } = event {
        let one = seq![experience];
        assert(one.drop_last() =~= Seq::<ExperienceRecordView>::empty());
        law_experience_memory_is_bounded_and_distinct(logs.voice_ids, v.experiences, one);
        assert(after_experiences(logs.voice_ids, v.experiences, one.drop_last()) == v.experiences);
    }
}

/// A turn that the voice has begun to answer is not answered again: until the
/// other person speaks once more, there is nothing left to answer.
pub proof fn law_turn_is_answered_once(v: VoiceView, generation_id: Id)
    ensures
        !awaits_answer(
            answers(v, generation_id).voice.turns,
            answers(v, generation_id).voice.answered,
        ),
        !may_answer(VoiceView { active: None, ..answers(v, generation_id).voice }),
{
}

/// While the voice speaks or thinks, nothing that it hears makes it begin another
/// reply.
pub proof fn law_busy_voice_starts_nothing(
    v: VoiceView,
    logs: LogsView,
    event: BroadcastView,
    generation_id: Id,
)
    requires
        v.active is Some || v.pending is Some,
    ensures
        recovers(v, logs, generation_id).actions == Seq::<ActionView>::empty(),
        resumes(v, logs, generation_id).actions == Seq::<ActionView>::empty(),
        learns(v, event, logs.voice_ids, generation_id).actions == Seq::<ActionView>::empty(),
{
}

/// Words that take too long are given up once: looking again, whenever, brings
/// no second report.
pub proof fn law_speech_is_given_up_once(v: VoiceView, at: Moment, later: Moment)
    requires
        looks_after(v, at).actions.len() > 0,
    ensures
        looks_after(looks_after(v, at).voice, later) == rests(looks_after(v, at).voice),
{
}

/// A report that words were given up, once it comes back, ends them.
pub proof fn law_given_up_speech_ends(v: VoiceView, at: Moment, later: Moment, ids: StepIds)
    requires
        looks_after(v, at).actions.len() > 0,
    ensures
        looks_after(v, at).actions[0] is Mouth,
        listens(
            looks_after(v, at).voice,
            looks_after(v, at).actions[0]->Mouth_event,
            later,
            ids,
        ).voice.pending is None,
{
}

// ---------------------------------------------------------------------------
// A voice over time.

/// Something that a voice takes a step for.
#[allow(inconsistent_fields)]
pub ghost enum VoiceInput {
    Missed { logs: LogsView, generation_id: Id },
    Resumed { logs: LogsView, generation_id: Id },
    Told { event: BroadcastView, voice_ids: Seq<Id>, generation_id: Id },
    Part { generation_id: Id, text: Seq<char> },
    Reply { generation_id: Id, generated: Option<Seq<char>>, at: Moment, ids: StepIds },
    Tick { at: Moment },
    Spoke { event: MouthEventView, at: Moment, ids: StepIds },
}

/// The step that a voice takes for something.
pub open spec fn step_for(v: VoiceView, input: VoiceInput) -> VoiceStep {
    match input {
        VoiceInput::Missed { logs, generation_id } => recovers(v, logs, generation_id),
        VoiceInput::Resumed { logs, generation_id } => resumes(v, logs, generation_id),
        VoiceInput::Told { event, voice_ids, generation_id } => learns(
            v,
            event,
            voice_ids,
            generation_id,
        ),
        VoiceInput::Part { generation_id, text } => passes_on(v, generation_id, text),
        VoiceInput::Reply { generation_id, generated, at, ids } => concludes(
            v,
            generation_id,
            generated,
            at,
            ids,
        ),
        VoiceInput::Tick { at } => looks_after(v, at),
        VoiceInput::Spoke { event, at, ids } => listens(v, event, at, ids),
    }
}

/// What becomes of a voice when it takes some steps in turn: its state then, and
/// all that was to be done.
pub open spec fn lives(start: VoiceView, inputs: Seq<VoiceInput>) -> VoiceStep
    decreases inputs.len(),
{
    if inputs.len() == 0 {
        rests(start)
    } else {
        let before = lives(start, inputs.drop_last());
        let step = step_for(before.voice, inputs.last());
        VoiceStep { voice: step.voice, actions: before.actions + step.actions }
    }
}

/// Whether it is told that a reply was begun.
pub open spec fn tells_start(action: ActionView, g: Id) -> bool {
    action == (ActionView::Broadcast {
        event: BroadcastView::VoiceResponseStart { generation_id: g },
    })
}

/// Whether it is told that a reply is done.
pub open spec fn tells_done(action: ActionView, g: Id) -> bool {
    action == (ActionView::Broadcast {
        event: BroadcastView::VoiceResponseDone { generation_id: g },
    })
}

/// Whether a part of a reply is passed on.
pub open spec fn tells_part(action: ActionView, g: Id) -> bool {
    action matches ActionView::Broadcast {
        event: BroadcastView::VoiceResponseToken { generation_id, .. },
    } && generation_id == g
}

/// The reply that is under way after something was done.
pub open spec fn under_way_after(before: Option<Id>, action: ActionView) -> Option<Id> {
    match action {
        ActionView::Broadcast { event: BroadcastView::VoiceResponseStart { generation_id } } => Some(
            generation_id,
        ),
        ActionView::Broadcast { event: BroadcastView::VoiceResponseDone { generation_id } } => None,
        _ => before,
    }
}

/// Whether something may be done while a reply is under way, or none is.
pub open spec fn is_in_order(under_way: Option<Id>, action: ActionView) -> bool {
    match action {
        ActionView::Broadcast { event: BroadcastView::VoiceResponseStart { generation_id } } => under_way is None,
        ActionView::Broadcast { event: BroadcastView::VoiceResponseDone { generation_id } } => under_way
            == Some(generation_id),
        ActionView::Broadcast {
            event: BroadcastView::VoiceResponseToken { generation_id, text },
        } => under_way == Some(generation_id),
        _ => true,
    }
}

/// The reply that is under way after some things were done.
pub open spec fn under_way(before: Option<Id>, actions: Seq<ActionView>) -> Option<Id>
    decreases actions.len(),
{
    if actions.len() == 0 {
        before
    } else {
        under_way_after(under_way(before, actions.drop_last()), actions.last())
    }
}

/// Whether each of some things was done in order.
pub open spec fn are_in_order(before: Option<Id>, actions: Seq<ActionView>) -> bool
    decreases actions.len(),
{
    actions.len() == 0 || (are_in_order(before, actions.drop_last()) && is_in_order(
        under_way(before, actions.drop_last()),
        actions.last(),
    ))
}

/// Whatever a voice goes through, a reply is begun only when none is under way, and
/// its parts are passed on and its end is told only while it is.
pub proof fn law_replies_are_told_in_order(start: VoiceView, inputs: Seq<VoiceInput>)
    ensures
        are_in_order(start.active, lives(start, inputs).actions),
        under_way(start.active, lives(start, inputs).actions) == lives(start, inputs).voice.active,
    decreases inputs.len(),
{
    if inputs.len() > 0 {
        law_replies_are_told_in_order(start, inputs.drop_last());
        let before = lives(start, inputs.drop_last());
        let step = step_for(before.voice, inputs.last());
        lemma_step_in_order(before.voice, inputs.last());
        lemma_in_order_add(start.active, before.actions, step.actions);
    }
}

/// Whatever a voice goes through, the end of a reply is told before another one is
/// begun.
pub proof fn law_reply_ends_before_the_next(
    start: VoiceView,
    inputs: Seq<VoiceInput>,
    i: int,
    j: int,
    g: Id,
    h: Id,
)
    requires
        0 <= i < j < lives(start, inputs).actions.len(),
        tells_start(lives(start, inputs).actions[i], g),
        tells_start(lives(start, inputs).actions[j], h),
    ensures
        exists|k: int| i < k < j && tells_done(#[trigger] lives(start, inputs).actions[k], g),
{
    let actions = lives(start, inputs).actions;
    law_replies_are_told_in_order(start, inputs);
    lemma_in_order_at(start.active, actions, j);
    if forall|k: int| i < k < j ==> !tells_done(#[trigger] actions[k], g) {
        lemma_stays_under_way(start.active, actions, i, j, g);
    }
}

/// Whatever a voice goes through that begins with no reply under way, a part of a
/// reply is passed on only after the reply was begun and before its end is told.
pub proof fn law_parts_come_within_their_reply(
    start: VoiceView,
    inputs: Seq<VoiceInput>,
    j: int,
    g: Id,
)
    requires
        start.active is None,
        0 <= j < lives(start, inputs).actions.len(),
        tells_part(lives(start, inputs).actions[j], g),
    ensures
        exists|i: int|
            0 <= i < j && tells_start(#[trigger] lives(start, inputs).actions[i], g) && forall|k: int|
                i < k < j ==> !tells_done(#[trigger] lives(start, inputs).actions[k], g),
{
    let actions = lives(start, inputs).actions;
    law_replies_are_told_in_order(start, inputs);
    lemma_in_order_at(None, actions, j);
    lemma_was_begun(actions, j, g);
}

/// A voice begins with no reply under way, whatever the logs hold.
pub proof fn law_voice_begins_at_rest(logs: LogsView)
    ensures
        caught_up(blank_voice(), logs).active is None,
{
}

/// What is done in two parts is in order where both are.
proof fn lemma_in_order_add(before: Option<Id>, a: Seq<ActionView>, b: Seq<ActionView>)
    ensures
        under_way(before, a + b) == under_way(under_way(before, a), b),
        are_in_order(before, a + b) == (are_in_order(before, a) && are_in_order(
            under_way(before, a),
            b,
        )),
    decreases b.len(),
{
    if b.len() == 0 {
        assert(a + b =~= a);
    } else {
        lemma_in_order_add(before, a, b.drop_last());
        assert((a + b).drop_last() =~= a + b.drop_last());
        assert((a + b).last() == b.last());
    }
}

/// What is in order as a whole is so at every place.
proof fn lemma_in_order_at(before: Option<Id>, actions: Seq<ActionView>, j: int)
    requires
        are_in_order(before, actions),
        0 <= j < actions.len(),
    ensures
        is_in_order(under_way(before, actions.take(j)), actions[j]),
        are_in_order(before, actions.take(j)),
    decreases actions.len(),
{
    if j == actions.len() - 1 {
        assert(actions.drop_last() =~= actions.take(j));
    } else {
        lemma_in_order_at(before, actions.drop_last(), j);
        assert(actions.drop_last().take(j) =~= actions.take(j));
    }
}

/// A reply that was begun is under way as long as its end is not told.
proof fn lemma_stays_under_way(before: Option<Id>, actions: Seq<ActionView>, i: int, n: int, g: Id)
    requires
        are_in_order(before, actions),
        0 <= i < n <= actions.len(),
        tells_start(actions[i], g),
        forall|k: int| i < k < n ==> !tells_done(#[trigger] actions[k], g),
    ensures
        under_way(before, actions.take(n)) == Some(g),
    decreases n,
{
    assert(actions.take(n).drop_last() =~= actions.take(n - 1));
    assert(actions.take(n).last() == actions[n - 1]);
    if n - 1 > i {
        lemma_stays_under_way(before, actions, i, n - 1, g);
        lemma_in_order_at(before, actions, n - 1);
        assert(!tells_done(actions[n - 1], g));
    }
}

/// A reply that is under way was begun, and its end was not told since.
proof fn lemma_was_begun(actions: Seq<ActionView>, n: int, g: Id)
    requires
        0 <= n <= actions.len(),
        under_way(None, actions.take(n)) == Some(g),
    ensures
        exists|i: int|
            0 <= i < n && tells_start(#[trigger] actions[i], g) && forall|k: int|
                i < k < n ==> !tells_done(#[trigger] actions[k], g),
    decreases n,
{
    if n > 0 {
        let last = actions[n - 1];
        assert(actions.take(n).drop_last() =~= actions.take(n - 1));
        assert(actions.take(n).last() == last);
        if !tells_start(last, g) {
            lemma_was_begun(actions, n - 1, g);
            let i = choose|i: int|
                0 <= i < n - 1 && tells_start(#[trigger] actions[i], g) && forall|k: int|
                    i < k < n - 1 ==> !tells_done(#[trigger] actions[k], g);
            assert(!tells_done(last, g));
            assert forall|k: int| i < k < n implies !tells_done(#[trigger] actions[k], g) by {
                if k == n - 1 {
                    assert(actions[k] == last);
                }
            }
        }
    }
}

/// Whether something that is done says nothing of a reply.
spec fn is_aside(action: ActionView) -> bool {
    match action {
        ActionView::Broadcast { event: BroadcastView::VoiceResponseStart { generation_id } } => false,
        ActionView::Broadcast { event: BroadcastView::VoiceResponseDone { generation_id } } => false,
        ActionView::Broadcast {
            event: BroadcastView::VoiceResponseToken { generation_id, text },
        } => false,
        _ => true,
    }
}

/// What says nothing of a reply leaves it as it is.
proof fn lemma_asides(before: Option<Id>, actions: Seq<ActionView>)
    requires
        forall|i: int| 0 <= i < actions.len() ==> is_aside(#[trigger] actions[i]),
    ensures
        are_in_order(before, actions),
        under_way(before, actions) == before,
    decreases actions.len(),
{
    if actions.len() > 0 {
        let front = actions.drop_last();
        assert forall|i: int| 0 <= i < front.len() implies is_aside(#[trigger] front[i]) by {
            assert(front[i] == actions[i]);
        }
        lemma_asides(before, front);
        assert(is_aside(actions[actions.len() - 1]));
    }
}

/// The beginning of a reply is in order where none is under way.
proof fn lemma_answers_in_order(v: VoiceView, generation_id: Id)
    requires
        v.active is None,
    ensures
        are_in_order(v.active, answers(v, generation_id).actions),
        under_way(v.active, answers(v, generation_id).actions) == Some(generation_id),
{
    let actions = answers(v, generation_id).actions;
    reveal_with_fuel(under_way, 3);
    reveal_with_fuel(are_in_order, 3);
    assert(actions.drop_last().drop_last() =~= Seq::<ActionView>::empty());
}

/// So is the end of the reply that is.
proof fn lemma_end_in_order(g: Id, more: Seq<ActionView>)
    requires
        forall|i: int| 0 <= i < more.len() ==> is_aside(#[trigger] more[i]),
    ensures
        ({
            let told = seq![
                ActionView::Broadcast { event: BroadcastView::VoiceResponseDone { generation_id: g } },
            ];
            &&& are_in_order(Some(g), told)
            &&& under_way(Some(g), told) is None
            &&& are_in_order(Some(g), told + more)
            &&& under_way(Some(g), told + more) is None
        }),
{
    let told = seq![
        ActionView::Broadcast { event: BroadcastView::VoiceResponseDone { generation_id: g } },
    ];
    reveal_with_fuel(under_way, 2);
    reveal_with_fuel(are_in_order, 2);
    assert(told.drop_last() =~= Seq::<ActionView>::empty());
    lemma_in_order_add(Some(g), told, more);
    lemma_asides(None, more);
}

proof fn lemma_part_in_order(v: VoiceView, generation_id: Id, text: Seq<char>)
    ensures
        are_in_order(v.active, passes_on(v, generation_id, text).actions),
        under_way(v.active, passes_on(v, generation_id, text).actions) == v.active,
{
    let actions = passes_on(v, generation_id, text).actions;
    reveal_with_fuel(under_way, 2);
    reveal_with_fuel(are_in_order, 2);
    if v.active == Some(generation_id) {
        assert(actions.drop_last() =~= Seq::<ActionView>::empty());
    }
}

proof fn lemma_drafts_aside(generation_id: Id, o: ObservationView, ids: RecordIds)
    ensures
        forall|i: int|
            0 <= i < drafts(generation_id, o, ids).len() ==> is_aside(
                #[trigger] drafts(generation_id, o, ids)[i],
            ),
{
}

proof fn lemma_thought_aside(
    generation_id: Id,
    o: ObservationView,
    ids: RecordIds,
    kind: Seq<char>,
    faculty: Seq<char>,
)
    ensures
        forall|i: int|
            0 <= i < keeps_thought(generation_id, o, ids, kind, faculty).len() ==> is_aside(
                #[trigger] keeps_thought(generation_id, o, ids, kind, faculty)[i],
            ),
{
}

proof fn lemma_reply_in_order(
    v: VoiceView,
    generation_id: Id,
    generated: Option<Seq<char>>,
    at: Moment,
    ids: StepIds,
)
    ensures
        are_in_order(v.active, concludes(v, generation_id, generated, at, ids).actions),
        under_way(v.active, concludes(v, generation_id, generated, at, ids).actions) == concludes(
            v,
            generation_id,
            generated,
            at,
            ids,
        ).voice.active,
{
    let step = concludes(v, generation_id, generated, at, ids);
    if v.active == Some(generation_id) {
        lemma_end_in_order(generation_id, Seq::empty());
        match generated {
            None => {},
            Some(text) => match reply_of(text) {
                None => {},
                Some(ReplyView::Spoken(said)) => match observation_in(said) {
                    Some(thought) => {
                        if !echoes(said, v.turns) {
                            let o = observed(ids.observation, at.now, thought, v.active_ids);
                            let more = drafts(generation_id, o, ids.first);
                            lemma_drafts_aside(generation_id, o, ids.first);
                            lemma_end_in_order(generation_id, more);
                        }
                    },
                    None => {},
                },
                Some(ReplyView::Thought(said)) => match observation_in(said) {
                    Some(thought) => {
                        let o = observed(ids.observation, at.now, thought, v.active_ids);
                        let kind = "voice.internal_thought"@;
                        let faculty = "Voice"@;
                        let more = keeps_thought(generation_id, o, ids.first, kind, faculty);
                        lemma_thought_aside(generation_id, o, ids.first, kind, faculty);
                        lemma_end_in_order(generation_id, more);
                    },
                    None => {},
                },
            },
        }
    }
}

proof fn lemma_commits_aside(generation_id: Id, o: ObservationView, ids: StepIds)
    ensures
        forall|i: int|
            0 <= i < commits(generation_id, o, ids).len() ==> is_aside(
                #[trigger] commits(generation_id, o, ids)[i],
            ),
{
}

proof fn lemma_spoke_in_order(v: VoiceView, event: MouthEventView, at: Moment, ids: StepIds)
    ensures
        are_in_order(v.active, listens(v, event, at, ids).actions),
        under_way(v.active, listens(v, event, at, ids).actions) == listens(
            v,
            event,
            at,
            ids,
        ).voice.active,
{
    let actions = listens(v, event, at, ids).actions;
    assert forall|i: int| 0 <= i < actions.len() implies is_aside(#[trigger] actions[i]) by {
        match event {
            MouthEventView::VoiceSpeechFinished {
                utterance_id,
                generation_id,
                observed_at,
                text,
                duration_ms,
            } => {
                if is_about(v.pending, utterance_id, generation_id) {
                    let o = v.pending->0.observation;
                    let middle = commits(generation_id, o, ids);
                    lemma_commits_aside(generation_id, o, ids);
                    if 1 <= i < 1 + middle.len() {
                        assert(actions[i] == middle[i - 1]);
                    }
                }
            },
            _ => {},
        }
    }
    lemma_asides(v.active, actions);
}

/// Each step is in order, and the reply under way after it is the voice's own.
proof fn lemma_step_in_order(v: VoiceView, input: VoiceInput)
    ensures
        are_in_order(v.active, step_for(v, input).actions),
        under_way(v.active, step_for(v, input).actions) == step_for(v, input).voice.active,
{
    match input {
        VoiceInput::Missed { logs, generation_id } => {
            lemma_needed_in_order(caught_up(v, logs), generation_id);
        },
        VoiceInput::Resumed { logs, generation_id } => {
            let next = caught_up(v, logs);
            lemma_asides(v.active, Seq::empty());
            if may_answer(next) {
                let wait = seq![ActionView::Wait { millis: 250 }];
                lemma_answers_in_order(next, generation_id);
                lemma_asides(v.active, wait);
                lemma_in_order_add(v.active, wait, answers(next, generation_id).actions);
            }
        },
        VoiceInput::Told { event, voice_ids, generation_id } => {
            lemma_told_in_order(v, event, voice_ids, generation_id);
        },
        VoiceInput::Part { generation_id, text } => {
            lemma_part_in_order(v, generation_id, text);
        },
        VoiceInput::Reply { generation_id, generated, at, ids } => {
            lemma_reply_in_order(v, generation_id, generated, at, ids);
        },
        VoiceInput::Tick { at } => {
            lemma_asides(v.active, looks_after(v, at).actions);
        },
        VoiceInput::Spoke { event, at, ids } => {
            lemma_spoke_in_order(v, event, at, ids);
        },
    }
}

proof fn lemma_needed_in_order(v: VoiceView, generation_id: Id)
    ensures
        are_in_order(v.active, answers_if_needed(v, generation_id).actions),
        under_way(v.active, answers_if_needed(v, generation_id).actions) == answers_if_needed(
            v,
            generation_id,
        ).voice.active,
{
    if may_answer(v) {
        lemma_answers_in_order(v, generation_id);
    } else {
        lemma_asides(v.active, Seq::empty());
    }
}

proof fn lemma_told_in_order(
    v: VoiceView,
    event: BroadcastView,
    voice_ids: Seq<Id>,
    generation_id: Id,
)
    ensures
        are_in_order(v.active, learns(v, event, voice_ids, generation_id).actions),
        under_way(v.active, learns(v, event, voice_ids, generation_id).actions) == learns(
            v,
            event,
            voice_ids,
            generation_id,
        ).voice.active,
{
    lemma_asides(v.active, Seq::empty());
    match event {
        BroadcastView::AsrTranscript {
            observed_at,
            text,
            sequence_start,
            sequence_end,
            is_final,
            sentence_index,
            sentence_count,
        } => {
            let u = AsrView {
                observed_at,
                text,
                sequence_start,
                sequence_end,
                sentence_index,
                sentence_count,
            };
            let next = VoiceView {
                heard: after_heard(v.heard, u),
                turns: if is_unheard(v.heard, u) {
                    after_turn(v.turns, VoiceConversationRole::User, u.text)
                } else {
                    v.turns
                },
                ..v
            };
            lemma_needed_in_order(next, generation_id);
        },
        _ => {},
    }
}

// ---------------------------------------------------------------------------
// What becomes of words.

/// Whether the face is told to turn into an emoji.
pub open spec fn turns_face(actions: Seq<ActionView>, generation_id: Id, emoji: Seq<char>) -> bool {
    exists|i: int|
        0 <= i < actions.len() && (#[trigger] actions[i] matches ActionView::Broadcast {
            event: BroadcastView::FaceEmoji { generation_id: g, observed_at: _, emoji: e },
        } && g == generation_id && e == emoji)
}

/// When words were said to the end, their emoji becomes the visible face: whoever
/// listens is told of the emoji of these words, and of no other. Words without an
/// emoji leave the face as it is.
pub proof fn law_spoken_emoji_becomes_the_face(
    v: VoiceView,
    p: PendingView,
    observed_at: Timestamp,
    text: Seq<char>,
    duration_ms: Option<u64>,
    at: Moment,
    ids: StepIds,
    generation_id: Id,
    emoji: Seq<char>,
)
    requires
        v.pending == Some(p),
    ensures
        ({
            let actions = listens(
                v,
                MouthEventView::VoiceSpeechFinished {
                    utterance_id: p.observation.id,
                    generation_id: p.generation_id,
                    observed_at,
                    text,
                    duration_ms,
                },
                at,
                ids,
            ).actions;
            (exists|i: int|
                0 <= i < actions.len() && (#[trigger] actions[i] matches ActionView::Broadcast {
                    event: BroadcastView::FaceEmoji { generation_id: g, observed_at: _, emoji: e },
                } && g == generation_id && e == emoji)) <==> generation_id == p.generation_id
                && p.observation.emoji == Some(emoji)
        }),
{
    let o = p.observation;
    let g = p.generation_id;
    let actions = listens(
        v,
        MouthEventView::VoiceSpeechFinished {
            utterance_id: o.id,
            generation_id: g,
            observed_at,
            text,
            duration_ms,
        },
        at,
        ids,
    ).actions;
    let more = commits(g, o, ids);
    assert forall|i: int| 0 <= i < more.len() implies #[trigger] actions[i + 1] == more[i] by {}
    match o.emoji {
        Some(e) => {
            assert(more[2] is Record);
            assert(more[3] == (ActionView::Broadcast {
                event: BroadcastView::FaceEmoji {
                    generation_id: g,
                    observed_at: o.observed_at,
                    emoji: e,
                },
            }));
            assert(actions.len() == 8);
            assert(actions[4] == more[3]);
            assert(actions[1] == more[0]);
            assert(actions[2] == more[1]);
            assert(actions[3] == more[2]);
            assert(actions[5] == more[4]);
            assert(actions[6] == more[5]);
        },
        None => {
            assert(actions.len() == 6);
            assert(actions[1] == more[0]);
            assert(actions[2] == more[1]);
            assert(actions[3] == more[2]);
            assert(actions[4] == more[3]);
        },
    }
}

/// Words that were said to the end are remembered: as the last turn of the
/// conversation, as the last thought and in the last report. They are logged,
/// whoever listens is told of them, and the voice goes on; nothing else of it
/// changes.
pub proof fn law_finished_speech_is_remembered(
    v: VoiceView,
    p: PendingView,
    observed_at: Timestamp,
    text: Seq<char>,
    duration_ms: Option<u64>,
    at: Moment,
    ids: StepIds,
)
    requires
        v.pending == Some(p),
        is_sound(v),
        is_plain(p.observation.text),
        p.observation.text.len() <= 1600,
    ensures
        ({
            let step = listens(
                v,
                MouthEventView::VoiceSpeechFinished {
                    utterance_id: p.observation.id,
                    generation_id: p.generation_id,
                    observed_at,
                    text,
                    duration_ms,
                },
                at,
                ids,
            );
            let w = step.voice;
            let o = p.observation;
            &&& w.pending is None
            &&& w.turns.last() == (TurnView { role: VoiceConversationRole::Assistant, text: o.text })
            &&& w.thoughts.last() == o
            &&& w.feedback.last() == (SpeechFeedbackView {
                observed_at,
                utterance_id: o.id,
                generation_id: p.generation_id,
                event: "finished"@,
                text,
                duration_ms,
                reason: None,
            })
            &&& w.heard == v.heard && w.experiences == v.experiences && w.active == v.active
                && w.answered == v.answered && w.active_ids == v.active_ids
            &&& step.actions.contains(ActionView::Observe { observation: o })
            &&& step.actions.contains(
                ActionView::Broadcast {
                    event: BroadcastView::VoiceObservation {
                        generation_id: p.generation_id,
                        observation: o,
                    },
                },
            )
            &&& step.actions.contains(ActionView::Trace)
            &&& step.actions.last() == ActionView::Resume
            &&& !(step.actions.contains(ActionView::Start { generation_id: p.generation_id }))
        }),
{
    let o = p.observation;
    let g = p.generation_id;
    law_turn_is_remembered_as_said(v.turns, VoiceConversationRole::Assistant, o.text);
    let actions = listens(
        v,
        MouthEventView::VoiceSpeechFinished {
            utterance_id: o.id,
            generation_id: g,
            observed_at,
            text,
            duration_ms,
        },
        at,
        ids,
    ).actions;
    let more = commits(g, o, ids);
    assert forall|i: int| 0 <= i < more.len() implies #[trigger] actions[i + 1] == more[i] by {}
    assert(more[0] == (ActionView::Observe { observation: o }));
    assert(actions[1] == more[0]);
    let n = more.len() as int;
    assert(more[n - 2] == (ActionView::Broadcast {
        event: BroadcastView::VoiceObservation { generation_id: g, observation: o },
    }));
    assert(actions[n - 1] == more[n - 2]);
    assert(more[n - 1] == ActionView::Trace);
    assert(actions[n] == more[n - 1]);
    assert(actions.len() == n + 2);
    assert forall|i: int| 0 <= i < actions.len() implies !((#[trigger] actions[i]) is Start) by {
        if 1 <= i <= n {
            assert(actions[i] == more[i - 1]);
            if let Some(e) = o.emoji {
                assert(n == 6);
            } else {
                assert(n == 4);
            }
        }
    }
}

/// Words that were broken off are no turn of the conversation and no thought,
/// their emoji shows nowhere, and nobody is told that they were said; that they
/// were broken off, and why, is remembered, and the voice goes on.
pub proof fn law_interrupted_speech_is_not_said(
    v: VoiceView,
    p: PendingView,
    observed_at: Timestamp,
    text: Seq<char>,
    reason: Seq<char>,
    at: Moment,
    ids: StepIds,
)
    requires
        v.pending == Some(p),
        is_sound(v),
    ensures
        ({
            let step = listens(
                v,
                MouthEventView::VoiceSpeechInterrupted {
                    utterance_id: p.observation.id,
                    generation_id: p.generation_id,
                    observed_at,
                    text,
                    reason,
                },
                at,
                ids,
            );
            let w = step.voice;
            &&& w == (VoiceView { pending: None, feedback: w.feedback, ..v })
            &&& w.feedback.last() == (SpeechFeedbackView {
                observed_at,
                utterance_id: p.observation.id,
                generation_id: p.generation_id,
                event: "interrupted"@,
                text,
                duration_ms: None,
                reason: Some(reason),
            })
            &&& step.actions.last() == ActionView::Resume
            &&& forall|i: int|
                0 <= i < step.actions.len() ==> !((#[trigger] step.actions[i]) is Broadcast)
                    && !(step.actions[i] is Observe) && !(step.actions[i] is Start)
        }),
{
}

/// Words that begin to sound are still being spoken, from that moment on; a
/// report on other words than those being spoken changes nothing at all.
pub proof fn law_report_counts_for_its_own_words(
    v: VoiceView,
    event: MouthEventView,
    at: Moment,
    ids: StepIds,
)
    requires
        is_sound(v),
    ensures
        ({
            let (u, g) = match event {
                MouthEventView::VoiceSpeechStarted { utterance_id, generation_id, .. } => (
                    utterance_id,
                    generation_id,
                ),
                MouthEventView::VoiceSpeechFinished { utterance_id, generation_id, .. } => (
                    utterance_id,
                    generation_id,
                ),
                MouthEventView::VoiceSpeechInterrupted { utterance_id, generation_id, .. } => (
                    utterance_id,
                    generation_id,
                ),
            };
            let step = listens(v, event, at, ids);
            match v.pending {
                Some(p) if p.observation.id == u && p.generation_id == g => match event {
                    MouthEventView::VoiceSpeechStarted { observed_at, text, .. } => {
                        &&& step.voice.pending == Some(
                            PendingView {
                                playback_started_at_ms: Some(at.tick_ms),
                                feedback_timeout_reported: false,
                                ..p
                            },
                        )
                        &&& step.voice == (VoiceView {
                            pending: step.voice.pending,
                            feedback: step.voice.feedback,
                            ..v
                        })
                        &&& step.voice.feedback.last() == (SpeechFeedbackView {
                            observed_at,
                            utterance_id: u,
                            generation_id: g,
                            event: "started"@,
                            text,
                            duration_ms: None,
                            reason: None,
                        })
                        &&& forall|i: int|
                            0 <= i < step.actions.len() ==> (#[trigger] step.actions[i]) is Record
                                || step.actions[i] is Trace
                    },
                    _ => step.voice.pending is None,
                },
                _ => step.voice == v && step.actions.len() == 0,
            }
        }),
{
}

/// A reply that was spoken for is handed over word for word: what is to sound,
/// what whoever listens is told is drafted, and what is being spoken are the same
/// words with the same emoji, about the experiences that the reply was begun with.
/// A reply that repeats the other person's last turn is not spoken.
pub proof fn law_reply_is_spoken_as_generated(
    v: VoiceView,
    generation_id: Id,
    body: Seq<char>,
    emoji: Seq<char>,
    at: Moment,
    ids: StepIds,
)
    requires
        v.active == Some(generation_id),
        is_plain(body),
        is_wordy(body),
        !(0x1F000 <= body.last() as u32 <= 0x1FAFF),
        !(0x2600 <= body.last() as u32 <= 0x27BF),
        !(0xFE0E <= body.last() as u32 <= 0xFE0F),
        body.last() as u32 != 0x200D && body.last() as u32 != 0x20E3,
        emoji.len() > 0,
        forall|i: int| #![trigger emoji[i]]
            0 <= i < emoji.len() ==> (0x1F000 <= emoji[i] as u32 <= 0x1F3FA || 0x1F400
                <= emoji[i] as u32 <= 0x1FAFF || 0x2600 <= emoji[i] as u32 <= 0x27BF),
        is_plain(body + seq![' '] + emoji),
        !occurs(signature(body + seq![' '] + emoji), "i perceive you"@),
        !echoes(body + seq![' '] + emoji, v.turns),
    ensures
        ({
            let step = concludes(
                v,
                generation_id,
                Some(body + seq![' '] + emoji),
                at,
                ids,
            );
            &&& step.voice.active is None
            &&& step.voice.pending matches Some(p) && {
                &&& p.generation_id == generation_id
                &&& p.observation.id == ids.observation
                &&& p.observation.text == body
                &&& p.observation.emoji == Some(emoji)
                &&& p.observation.experience_ids == v.active_ids
                &&& p.observation.observed_at == at.now
                &&& p.drafted_at_ms == at.tick_ms
                &&& p.playback_started_at_ms is None
            }
            &&& step.voice.turns == v.turns && step.voice.thoughts == v.thoughts
            &&& step.actions[0] == (ActionView::Broadcast {
                event: BroadcastView::VoiceResponseDone { generation_id },
            })
            &&& step.actions.contains(
                ActionView::Synthesize {
                    generation_id,
                    utterance_id: ids.observation,
                    text: body,
                },
            )
            &&& exists|i: int|
                0 <= i < step.actions.len() && (
                #[trigger] step.actions[i] matches ActionView::Broadcast {
                    event: BroadcastView::VoiceSpeechDraft {
                        utterance_id,
                        generation_id: g,
                        text,
                        emoji: e,
                        ..
                    },
                } && utterance_id == ids.observation && g == generation_id && text == body && e
                    == Some(emoji))
        }),
{
    let text = body + seq![' '] + emoji;
    law_emoji_is_told_apart_from_the_words(body, emoji);
    law_plain_text_is_kept(text);
    assert(reply_of(text) == Some(ReplyView::Spoken(text)));
    let o = observed(
        ids.observation,
        at.now,
        ThoughtView { text: body, emoji: Some(emoji) },
        v.active_ids,
    );
    let step = concludes(v, generation_id, Some(text), at, ids);
    let list = drafts(generation_id, o, ids.first);
    assert(step.actions[1] == list[0]);
    assert(step.actions[4] == list[3]);
}

/// The emoji of a reply becomes the visible face once the reply was said to the
/// end: from the generated text to the face it stays the same emoji.
pub proof fn law_emoji_of_a_reply_becomes_the_face(
    v: VoiceView,
    generation_id: Id,
    body: Seq<char>,
    emoji: Seq<char>,
    at: Moment,
    ids: StepIds,
    observed_at: Timestamp,
    text: Seq<char>,
    duration_ms: Option<u64>,
    later: Moment,
    more: StepIds,
)
    requires
        v.active == Some(generation_id),
        is_plain(body),
        is_wordy(body),
        !(0x1F000 <= body.last() as u32 <= 0x1FAFF),
        !(0x2600 <= body.last() as u32 <= 0x27BF),
        !(0xFE0E <= body.last() as u32 <= 0xFE0F),
        body.last() as u32 != 0x200D && body.last() as u32 != 0x20E3,
        emoji.len() > 0,
        forall|i: int| #![trigger emoji[i]]
            0 <= i < emoji.len() ==> (0x1F000 <= emoji[i] as u32 <= 0x1F3FA || 0x1F400
                <= emoji[i] as u32 <= 0x1FAFF || 0x2600 <= emoji[i] as u32 <= 0x27BF),
        is_plain(body + seq![' '] + emoji),
        !occurs(signature(body + seq![' '] + emoji), "i perceive you"@),
        !echoes(body + seq![' '] + emoji, v.turns),
    ensures
        turns_face(
            listens(
                concludes(v, generation_id, Some(body + seq![' '] + emoji), at, ids).voice,
                MouthEventView::VoiceSpeechFinished {
                    utterance_id: ids.observation,
                    generation_id,
                    observed_at,
                    text,
                    duration_ms,
                },
                later,
                more,
            ).actions,
            generation_id,
            emoji,
        ),
{
    law_reply_is_spoken_as_generated(v, generation_id, body, emoji, at, ids);
    let w = concludes(v, generation_id, Some(body + seq![' '] + emoji), at, ids).voice;
    law_spoken_emoji_becomes_the_face(
        w,
        w.pending->0,
        observed_at,
        text,
        duration_ms,
        later,
        more,
        generation_id,
        emoji,
    );
}

/// A finished sentence that is new, heard while the voice neither thinks nor
/// speaks, is the other person's next turn, and a reply to it is begun at once,
/// about all the experiences that are remembered. A sentence that is not finished
/// changes nothing.
pub proof fn law_new_sentence_is_answered(
    v: VoiceView,
    u: AsrView,
    voice_ids: Seq<Id>,
    generation_id: Id,
)
    requires
        is_sound(v),
        is_plain(u.text),
        u.text.len() <= 1600,
    ensures
        ({
            let unfinished = BroadcastView::AsrTranscript {
                observed_at: u.observed_at,
                text: u.text,
                sequence_start: u.sequence_start,
                sequence_end: u.sequence_end,
                is_final: false,
                sentence_index: u.sentence_index,
                sentence_count: u.sentence_count,
            };
            learns(v, unfinished, voice_ids, generation_id) == (VoiceStep {
                voice: v,
                actions: Seq::empty(),
            })
        }),
        ({
            let finished = BroadcastView::AsrTranscript {
                observed_at: u.observed_at,
                text: u.text,
                sequence_start: u.sequence_start,
                sequence_end: u.sequence_end,
                is_final: true,
                sentence_index: u.sentence_index,
                sentence_count: u.sentence_count,
            };
            let step = learns(v, finished, voice_ids, generation_id);
            is_unheard(v.heard, u) ==> {
                &&& step.voice.heard.last() == u
                &&& step.voice.turns.last() == (TurnView {
                    role: VoiceConversationRole::User,
                    text: u.text,
                })
                &&& v.turns.len() < 24 ==> step.voice.turns.drop_last() == v.turns
                &&& v.active is None && v.pending is None && v.turns.len() < 24 && v.answered
                    <= user_turns(v.turns) ==> {
                    &&& step.voice.active == Some(generation_id)
                    &&& step.voice.answered == user_turns(v.turns) + 1
                    &&& step.voice.active_ids.len() == v.experiences.recent.len()
                    &&& forall|i: int|
                        0 <= i < v.experiences.recent.len() ==> #[trigger] step.voice.active_ids[i]
                            == v.experiences.recent[i].id
                    &&& step.actions.len() == 2
                    &&& step.actions[0] == (ActionView::Broadcast {
                        event: BroadcastView::VoiceResponseStart { generation_id },
                    })
                    &&& step.actions[1] == (ActionView::Start { generation_id })
                }
            }
        }),
{
    law_turn_is_remembered_as_said(v.turns, VoiceConversationRole::User, u.text);
    let turn = TurnView { role: VoiceConversationRole::User, text: u.text };
    law_answer_is_due_to_the_last_speaker(v.turns, turn, v.answered);
    law_new_sentence_is_remembered(v.heard, u);
    if v.turns.len() < 24 {
        assert(v.turns.push(turn).drop_last() =~= v.turns);
    }
}

/// A part of the reply under way is told as it came; a part of any other is not,
/// and neither changes the voice.
pub proof fn law_part_of_the_reply_is_told(v: VoiceView, generation_id: Id, text: Seq<char>)
    ensures
        passes_on(v, generation_id, text).voice == v,
        v.active == Some(generation_id) ==> passes_on(v, generation_id, text).actions == seq![
            ActionView::Broadcast {
                event: BroadcastView::VoiceResponseToken { generation_id, text },
            },
        ],
        v.active != Some(generation_id) ==> passes_on(v, generation_id, text).actions.len() == 0,
{
}

/// Words are given up when they have been handed over for three minutes without a
/// sound, or have sounded for forty-five seconds without a report, and not before;
/// what is reported is that these words were broken off.
pub proof fn law_words_are_given_up_in_time(v: VoiceView, p: PendingView, at: Moment)
    requires
        v.pending == Some(p),
        p.drafted_at_ms <= at.tick_ms,
        p.playback_started_at_ms matches Some(started) ==> started <= at.tick_ms,
    ensures
        ({
            let step = looks_after(v, at);
            let due = match p.playback_started_at_ms {
                None => !p.audio_timeout_reported && at.tick_ms >= p.drafted_at_ms + 180_000,
                Some(started) => !p.feedback_timeout_reported && at.tick_ms >= started + 45_000,
            };
            &&& due ==> step.actions.len() == 1 && (step.actions[0] matches ActionView::Mouth {
                event: MouthEventView::VoiceSpeechInterrupted {
                    utterance_id,
                    generation_id,
                    observed_at,
                    text,
                    ..
                },
            } && utterance_id == p.observation.id && generation_id == p.generation_id && text
                == p.observation.text && observed_at == at.now)
            &&& !due ==> step.actions.len() == 0 && step.voice == v
            &&& step.voice.pending is Some
            &&& step.voice.pending->0.observation == p.observation
            &&& step.voice == (VoiceView { pending: step.voice.pending, ..v })
        }),
{
}

/// A thought is kept to oneself: it is logged and told as a thought, and nothing
/// is to sound.
pub proof fn law_thought_is_kept_to_oneself(
    v: VoiceView,
    generation_id: Id,
    generated: Seq<char>,
    said: Seq<char>,
    thought: ThoughtView,
    at: Moment,
    ids: StepIds,
)
    requires
        is_sound(v),
        v.active == Some(generation_id),
        reply_of(generated) == Some(ReplyView::Thought(said)),
        observation_in(said) == Some(thought),
    ensures
        ({
            let step = concludes(v, generation_id, Some(generated), at, ids);
            &&& step.voice.active is None
            &&& step.voice.pending == v.pending
            &&& step.voice.turns == v.turns
            &&& step.voice.thoughts.last().text == thought.text
            &&& step.voice.thoughts.last().emoji == thought.emoji
            &&& step.voice.thoughts.last().experience_ids == v.active_ids
            &&& step.actions.contains(
                ActionView::Observe { observation: step.voice.thoughts.last() },
            )
            &&& step.actions.contains(
                ActionView::Broadcast {
                    event: BroadcastView::VoiceObservation {
                        generation_id,
                        observation: step.voice.thoughts.last(),
                    },
                },
            )
            &&& forall|i: int|
                0 <= i < step.actions.len() ==> !((#[trigger] step.actions[i]) is Synthesize)
        }),
{
    let o = observed(ids.observation, at.now, thought, v.active_ids);
    let step = concludes(v, generation_id, Some(generated), at, ids);
    let list = keeps_thought(generation_id, o, ids.first, "voice.internal_thought"@, "Voice"@);
    assert(step.actions[1] == list[0]);
    assert(step.actions[2] == list[1]);
    assert(step.actions[3] == list[2]);
    assert(step.actions[4] == list[3]);
    assert(step.actions.len() == 5);
}

} // verus!
