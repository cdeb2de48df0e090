//! What the voice and the commentator are told before they speak.

use std::collections::VecDeque;
use vstd::prelude::*;

use crate::chars::{is_white_space, CharClass};
use crate::impression::with_places;
use crate::commentator::{commentator_repetition_detected, repetitive};
use crate::context_frame::{is_snapshot, rendered, ContextFrame, FrameView};
use crate::decimal::{decimal, decimal_text};
use crate::experience::{Experience, ExperienceView};
use crate::ident::{copy_ids, hyphenated, id_text};
use crate::json::{prompt_json_string, prompt_string};
use crate::llm::{message_views, ChatMessage, MessageView};
use crate::messages::{ExperienceRecord, ExperienceRecordView, ObservationView, VoiceObservation};
use crate::seqs::{lemma_placed_all_step, placed_all};
use crate::text::{
    blank, ends, found, is_blank, is_spaced, keep_last_chars, last_chars, law_blank_text_is_white_space_alone,
    lemma_found, lemma_trimmed_noop, occurs, same, stands_at, starts, trim, trimmed,
};
use crate::time::Timestamp;
use crate::timeline::{entry_time, EntryView, TimelineEntry, TimelineFrame};
use crate::voice_memory::{
    asr_views, experience_views, feedback_views, said_views, thought_views, turn_views, AsrView,
    FinalizedAsrUpdate, SpeechFeedbackView, TurnView, VoiceConversationRole, VoiceConversationTurn,
    VoiceSpeechFeedback, VOICE_TURN_MAX_CHARS,
};
use crate::voice_text::DIALOGUE_VOICE_TURN_PROMPT;

verus! {

/// Who the commentator is.
pub const VOICE_SYSTEM_PROMPT: &'static str =
    "You are the Commentator of Pete Mortar-Sea: a continuous first-person observer inside the embodied system. \
    Do not address an unseen or hypothetical human, use tools, execute functions, or write JSON. \
    You have no ability to execute functions or take actions, so do not pretend that you can. \
    Your only job is to constantly comment on the current situation, from the system's own first-person point of view, and try to figure out what is going on. \
    Write from the embodied system's own perspective using I, me, and my. \
    Move at about human spoken pace, or only slightly faster, with short plain sentences. \
    You may end any sentence with one emoji; when you emit an emoji, it becomes your visible face in the real world. \
    Use that face to express your current attitude, choosing an emoji that matches what you feel, notice, or suspect right now. \
    Preserve uncertainty and keep the thought moving as a continuous stream of consciousness. \
    Emit at least one short observation as ordinary text every turn, even when you do not speak aloud. \
    Never use <say> tags; Commentator is not allowed to speak out loud. \
    When there is nothing obvious to comment on, contemplate the present situation, your surroundings, life in general, or your own existence. \
    Treat only the structured real-world context in this conversation as external fact. \
    Do not invent new external events, people, objects, or intentions. \
    Constantly review what is happening against the latest real-world context. \
    Do not mention prompt context, metadata, ids, frames, logs, or the fact that you are an LLM.";

/// What the commentator writes.
pub const VOICE_MOUTH_GUIDANCE_PROMPT: &'static str =
    "\n\nCOMMENTATOR OUTPUT:\n\
    Write only internal first-person commentary. \
    Do not use <say>, do not write stage directions, and do not try to control Mouth. \
    These thoughts are reported to the Wits as internal observations.\n";

/// Who the voice is.
pub const DIALOGUE_VOICE_SYSTEM_PROMPT: &'static str =
    "You are the spoken Voice of Pete Mortar-Sea. \
    You are in a normal chat conversation with the current interlocutor. \
    Do not use tools, execute functions, write JSON, or mention prompts, metadata, ids, frames, logs, or the fact that you are an LLM. \
    Write from the embodied system's own perspective using I, me, and my. \
    Keep responses brief, plain, and conversational. \
    Give the interlocutor a chance to speak; do not monologue. \
    If it is better to wait, listen, or pass the turn, return an empty message; empty messages are treated as silence. \
    Treat only the structured context and conversation turns as external fact. \
    Do not repeat the user's words back as your whole reply. \
    Do not repeat yourself; if you have already said the same thing, say something meaningfully new or stay silent. \
    Preserve uncertainty and do not invent new external events, people, objects, or intentions.";

/// What asks the commentator to go on.
pub const CONTINUE_PROMPT: &'static str =
    "Continue the Commentator stream now. Emit at least one short first-person observation as ordinary text. Do not use <say> tags or attempt to speak aloud.";

/// Whether the commentator may daydream.
pub const COMMENTATOR_DAYDREAM_ENABLED: bool = false;

/// Words to daydream of.
#[derive(Debug, PartialEq, Eq)]
pub struct DaydreamWords {
    /// One.
    pub first: String,
    /// Another.
    pub second: String,
    /// A third.
    pub third: String,
}

/// Who the commentator is.
pub fn voice_system_prompt() -> (s: &'static str)
    ensures
        s@ == VOICE_SYSTEM_PROMPT@,
{
    VOICE_SYSTEM_PROMPT
}

/// What the commentator writes.
pub fn voice_mouth_guidance_prompt() -> (s: &'static str)
    ensures
        s@ == VOICE_MOUTH_GUIDANCE_PROMPT@,
{
    VOICE_MOUTH_GUIDANCE_PROMPT
}

/// Who the voice is.
pub fn dialogue_voice_system_prompt() -> (s: &'static str)
    ensures
        s@ == DIALOGUE_VOICE_SYSTEM_PROMPT@,
{
    DIALOGUE_VOICE_SYSTEM_PROMPT
}

/// A chat with one more message. A blank one is left out, and one from whoever
/// spoke last is added to what they said.
pub open spec fn with_message(messages: Seq<MessageView>, role: Seq<char>, content: Seq<char>) -> Seq<
    MessageView,
> {
    if is_blank(content) {
        messages
    } else if messages.len() > 0 && messages.last().role == role {
        messages.drop_last().push(
            MessageView { role, content: messages.last().content + "\n\n"@ + trimmed(content) },
        )
    } else {
        messages.push(MessageView { role, content })
    }
}

/// Adds a message to a chat.
pub fn append_chat_message(messages: &mut Vec<ChatMessage>, role: &str, content: &str)
    ensures
        message_views(final(messages)@) == with_message(
            message_views(old(messages)@),
            role@,
            content@,
        ),
{
    let ghost before = message_views(messages@);
    if blank(content) {
        return;
    }
    if messages.len() > 0 && same(messages[messages.len() - 1].role.as_str(), role) {
        let last = messages.pop().unwrap();
        let mut text = last.content;
        text.push_str("\n\n");
        text.push_str(trim(content));
        let grown = ChatMessage { role: last.role, content: text };
        messages.push(grown);
        assert(message_views(messages@) =~= before.drop_last().push(grown@));
        return;
    }
    let added = ChatMessage::new(role, content);
    messages.push(added);
    assert(message_views(messages@) =~= before.push(added@));
}

/// Whether no one speaks twice in a row.
pub open spec fn alternates(messages: Seq<MessageView>) -> bool {
    forall|i: int| 0 < i < messages.len() ==> messages[i - 1].role != (#[trigger] messages[i]).role
}

/// In a chat built message by message, no one speaks twice in a row.
pub proof fn law_no_one_speaks_twice_in_a_row(
    messages: Seq<MessageView>,
    role: Seq<char>,
    content: Seq<char>,
)
    requires
        alternates(messages),
    ensures
        alternates(with_message(messages, role, content)),
{
    let after = with_message(messages, role, content);
    assert forall|i: int| 0 < i < after.len() implies after[i - 1].role != (#[trigger] after[i]).role by {
        assert(messages[i - 1].role == after[i - 1].role);
        if i < messages.len() {
            assert(messages[i].role == after[i].role);
        }
    }
}

/// A line on an experience.
pub open spec fn experience_line(e: ExperienceRecordView) -> Seq<char> {
    "- observed_at="@ + e.observed_at.spec_rfc3339() + " confidence="@ + with_places(e.confidence, 2)
        + " what="@ + prompt_string(e.what) + "\n"@
}

/// A line on a sentence heard.
pub open spec fn asr_line(u: AsrView) -> Seq<char> {
    "- observed_at="@ + u.observed_at.spec_rfc3339() + " sequence_start="@ + decimal(
        u.sequence_start as nat,
    ) + " sequence_end="@ + decimal(u.sequence_end as nat) + (match u.sentence_index {
        Some(n) => " sentence_index="@ + decimal(n as nat),
        None => Seq::empty(),
    }) + (match u.sentence_count {
        Some(n) => " sentence_count="@ + decimal(n as nat),
        None => Seq::empty(),
    }) + " transcript="@ + prompt_string(u.text) + "\n"@
}

/// A line on a thought, for the voice.
pub open spec fn thought_line(o: ObservationView) -> Seq<char> {
    "- observed_at="@ + o.observed_at.spec_rfc3339() + " text="@ + prompt_string(o.text) + "\n"@
}

/// A line on a thought, for the commentator.
pub open spec fn thought_line_with_face(o: ObservationView) -> Seq<char> {
    "- observed_at="@ + o.observed_at.spec_rfc3339() + " text="@ + prompt_string(o.text) + " emoji="@
        + (match o.emoji {
        Some(emoji) => prompt_string(emoji),
        None => "null"@,
    }) + "\n"@
}

/// A line on a report on speech.
pub open spec fn feedback_line(f: SpeechFeedbackView) -> Seq<char> {
    "- observed_at="@ + f.observed_at.spec_rfc3339() + " event="@ + f.event + " utterance_id="@
        + hyphenated(f.utterance_id) + " generation_id="@ + hyphenated(f.generation_id) + " text="@
        + prompt_string(trimmed(f.text)) + (match f.duration_ms {
        Some(ms) => " duration_ms="@ + decimal(ms as nat),
        None => Seq::empty(),
    }) + (match f.reason {
        Some(reason) => " reason="@ + prompt_string(reason),
        None => Seq::empty(),
    }) + "\n"@
}

/// Writes a line on an experience.
pub fn format_experience(e: &ExperienceRecord) -> (s: String)
    ensures
        s@ == experience_line(e@),
{
    let mut s = "- observed_at=".to_owned();
    s.push_str(e.observed_at.to_rfc3339().as_str());
    s.push_str(" confidence=");
    s.push_str(e.confidence.text2().as_str());
    s.push_str(" what=");
    s.push_str(prompt_json_string(e.what.as_str()).as_str());
    s.push_str("\n");
    s
}

/// Writes a line on a sentence heard.
pub fn format_finalized_asr_update(update: &FinalizedAsrUpdate) -> (s: String)
    ensures
        s@ == asr_line(update@),
{
    let mut s = "- observed_at=".to_owned();
    s.push_str(update.observed_at.to_rfc3339().as_str());
    s.push_str(" sequence_start=");
    s.push_str(decimal_text(update.sequence_start as u128).as_str());
    s.push_str(" sequence_end=");
    s.push_str(decimal_text(update.sequence_end as u128).as_str());
    let ghost before = s@;
    match update.sentence_index {
        Some(n) => {
            s.push_str(" sentence_index=");
            s.push_str(decimal_text(n as u128).as_str());
            assert(s@ =~= before + (" sentence_index="@ + decimal(n as nat)));
        },
        None => {
            assert(s@ =~= before + Seq::<char>::empty());
        },
    }
    let ghost next = s@;
    match update.sentence_count {
        Some(n) => {
            s.push_str(" sentence_count=");
            s.push_str(decimal_text(n as u128).as_str());
            assert(s@ =~= next + (" sentence_count="@ + decimal(n as nat)));
        },
        None => {
            assert(s@ =~= next + Seq::<char>::empty());
        },
    }
    s.push_str(" transcript=");
    s.push_str(prompt_json_string(update.text.as_str()).as_str());
    s.push_str("\n");
    s
}

/// Writes a line on a thought, for the voice.
pub fn format_thought(o: &VoiceObservation) -> (s: String)
    ensures
        s@ == thought_line(o@),
{
    let mut s = "- observed_at=".to_owned();
    s.push_str(o.observed_at.to_rfc3339().as_str());
    s.push_str(" text=");
    s.push_str(prompt_json_string(o.text.as_str()).as_str());
    s.push_str("\n");
    s
}

/// Writes a line on a thought, for the commentator.
pub fn format_thought_with_face(o: &VoiceObservation) -> (s: String)
    ensures
        s@ == thought_line_with_face(o@),
{
    let mut s = "- observed_at=".to_owned();
    s.push_str(o.observed_at.to_rfc3339().as_str());
    s.push_str(" text=");
    s.push_str(prompt_json_string(o.text.as_str()).as_str());
    s.push_str(" emoji=");
    match &o.emoji {
        Some(emoji) => {
            s.push_str(prompt_json_string(emoji.as_str()).as_str());
        },
        None => {
            s.push_str("null");
        },
    }
    s.push_str("\n");
    s
}

/// Writes a line on a report on speech.
pub fn format_voice_speech_feedback(feedback: &VoiceSpeechFeedback) -> (s: String)
    ensures
        s@ == feedback_line(feedback@),
{
    let mut s = "- observed_at=".to_owned();
    s.push_str(feedback.observed_at.to_rfc3339().as_str());
    s.push_str(" event=");
    s.push_str(feedback.event.as_str());
    s.push_str(" utterance_id=");
    s.push_str(id_text(feedback.utterance_id).as_str());
    s.push_str(" generation_id=");
    s.push_str(id_text(feedback.generation_id).as_str());
    s.push_str(" text=");
    s.push_str(prompt_json_string(trim(feedback.text.as_str())).as_str());
    let ghost before = s@;
    match feedback.duration_ms {
        Some(ms) => {
            s.push_str(" duration_ms=");
            s.push_str(decimal_text(ms as u128).as_str());
            assert(s@ =~= before + (" duration_ms="@ + decimal(ms as nat)));
        },
        None => {
            assert(s@ =~= before + Seq::<char>::empty());
        },
    }
    let ghost next = s@;
    match &feedback.reason {
        Some(reason) => {
            s.push_str(" reason=");
            s.push_str(prompt_json_string(reason.as_str()).as_str());
            assert(s@ =~= next + (" reason="@ + prompt_string(reason@)));
        },
        None => {
            assert(s@ =~= next + Seq::<char>::empty());
        },
    }
    s.push_str("\n");
    s
}

/// The lines on some experiences.
pub open spec fn experience_lines(list: Seq<ExperienceRecordView>) -> Seq<char>
    decreases list.len(),
{
    if list.len() == 0 {
        Seq::empty()
    } else {
        experience_lines(list.drop_last()) + experience_line(list.last())
    }
}

/// The lines on some experiences. If there is none, a line says so.
pub open spec fn experience_lines_or_none(list: Seq<ExperienceRecordView>) -> Seq<char> {
    if list.len() == 0 {
        "- None yet.\n"@
    } else {
        experience_lines(list)
    }
}

fn push_experience_lines(prompt: &mut String, list: &VecDeque<ExperienceRecord>)
    ensures
        final(prompt)@ == old(prompt)@ + experience_lines_or_none(experience_views(list@)),
{
    if list.len() == 0 {
        prompt.push_str("- None yet.\n");
        return;
    }
    let ghost start = prompt@;
    let ghost all = experience_views(list@);
    let mut i: usize = 0;
    assert(all.take(0) =~= Seq::<ExperienceRecordView>::empty());
    while i < list.len()
        invariant
            i <= list@.len(),
            all == experience_views(list@),
            prompt@ == start + experience_lines(all.take(i as int)),
        decreases list@.len() - i,
    {
        proof {
            assert(all.take(i + 1).drop_last() =~= all.take(i as int));
        }
        let line = format_experience(&list[i]);
        let ghost written = experience_lines(all.take(i as int));
        prompt.push_str(line.as_str());
        assert(start + written + line@ =~= start + (written + line@));
        i += 1;
    }
    assert(all.take(i as int) =~= all);
}

/// The lines on some sentences heard.
pub open spec fn asr_lines(list: Seq<AsrView>) -> Seq<char>
    decreases list.len(),
{
    if list.len() == 0 {
        Seq::empty()
    } else {
        asr_lines(list.drop_last()) + asr_line(list.last())
    }
}

/// The lines on some sentences heard. If there is none, a line says so.
pub open spec fn asr_lines_or_none(list: Seq<AsrView>) -> Seq<char> {
    if list.len() == 0 {
        "- None yet.\n"@
    } else {
        asr_lines(list)
    }
}

fn push_asr_lines(prompt: &mut String, list: &VecDeque<FinalizedAsrUpdate>)
    ensures
        final(prompt)@ == old(prompt)@ + asr_lines_or_none(asr_views(list@)),
{
    if list.len() == 0 {
        prompt.push_str("- None yet.\n");
        return;
    }
    let ghost start = prompt@;
    let ghost all = asr_views(list@);
    let mut i: usize = 0;
    assert(all.take(0) =~= Seq::<AsrView>::empty());
    while i < list.len()
        invariant
            i <= list@.len(),
            all == asr_views(list@),
            prompt@ == start + asr_lines(all.take(i as int)),
        decreases list@.len() - i,
    {
        proof {
            assert(all.take(i + 1).drop_last() =~= all.take(i as int));
        }
        let line = format_finalized_asr_update(&list[i]);
        let ghost written = asr_lines(all.take(i as int));
        prompt.push_str(line.as_str());
        assert(start + written + line@ =~= start + (written + line@));
        i += 1;
    }
    assert(all.take(i as int) =~= all);
}

/// The lines on some thoughts, for the voice.
pub open spec fn thought_lines(list: Seq<ObservationView>) -> Seq<char>
    decreases list.len(),
{
    if list.len() == 0 {
        Seq::empty()
    } else {
        thought_lines(list.drop_last()) + thought_line(list.last())
    }
}

/// The lines on some thoughts, for the voice. If there is none, a line says so.
pub open spec fn thought_lines_or_none(list: Seq<ObservationView>) -> Seq<char> {
    if list.len() == 0 {
        "- None yet.\n"@
    } else {
        thought_lines(list)
    }
}

fn push_thought_lines(prompt: &mut String, list: &VecDeque<VoiceObservation>)
    ensures
        final(prompt)@ == old(prompt)@ + thought_lines_or_none(thought_views(list@)),
{
    if list.len() == 0 {
        prompt.push_str("- None yet.\n");
        return;
    }
    let ghost start = prompt@;
    let ghost all = thought_views(list@);
    let mut i: usize = 0;
    assert(all.take(0) =~= Seq::<ObservationView>::empty());
    while i < list.len()
        invariant
            i <= list@.len(),
            all == thought_views(list@),
            prompt@ == start + thought_lines(all.take(i as int)),
        decreases list@.len() - i,
    {
        proof {
            assert(all.take(i + 1).drop_last() =~= all.take(i as int));
        }
        let line = format_thought(&list[i]);
        let ghost written = thought_lines(all.take(i as int));
        prompt.push_str(line.as_str());
        assert(start + written + line@ =~= start + (written + line@));
        i += 1;
    }
    assert(all.take(i as int) =~= all);
}

/// The lines on some thoughts, for the commentator.
pub open spec fn faced_thought_lines(list: Seq<ObservationView>) -> Seq<char>
    decreases list.len(),
{
    if list.len() == 0 {
        Seq::empty()
    } else {
        faced_thought_lines(list.drop_last()) + thought_line_with_face(list.last())
    }
}

/// The lines on some thoughts, for the commentator. If there is none, a line says so.
pub open spec fn faced_thought_lines_or_none(list: Seq<ObservationView>) -> Seq<char> {
    if list.len() == 0 {
        "- None yet.\n"@
    } else {
        faced_thought_lines(list)
    }
}

fn push_faced_thought_lines(prompt: &mut String, list: &VecDeque<VoiceObservation>)
    ensures
        final(prompt)@ == old(prompt)@ + faced_thought_lines_or_none(thought_views(list@)),
{
    if list.len() == 0 {
        prompt.push_str("- None yet.\n");
        return;
    }
    let ghost start = prompt@;
    let ghost all = thought_views(list@);
    let mut i: usize = 0;
    assert(all.take(0) =~= Seq::<ObservationView>::empty());
    while i < list.len()
        invariant
            i <= list@.len(),
            all == thought_views(list@),
            prompt@ == start + faced_thought_lines(all.take(i as int)),
        decreases list@.len() - i,
    {
        proof {
            assert(all.take(i + 1).drop_last() =~= all.take(i as int));
        }
        let line = format_thought_with_face(&list[i]);
        let ghost written = faced_thought_lines(all.take(i as int));
        prompt.push_str(line.as_str());
        assert(start + written + line@ =~= start + (written + line@));
        i += 1;
    }
    assert(all.take(i as int) =~= all);
}

/// The lines on some reports on speech.
pub open spec fn feedback_lines(list: Seq<SpeechFeedbackView>) -> Seq<char>
    decreases list.len(),
{
    if list.len() == 0 {
        Seq::empty()
    } else {
        feedback_lines(list.drop_last()) + feedback_line(list.last())
    }
}

/// The lines on some reports on speech. If there is none, a line says so.
pub open spec fn feedback_lines_or_none(list: Seq<SpeechFeedbackView>) -> Seq<char> {
    if list.len() == 0 {
        "- None yet.\n"@
    } else {
        feedback_lines(list)
    }
}

fn push_feedback_lines(prompt: &mut String, list: &VecDeque<VoiceSpeechFeedback>)
    ensures
        final(prompt)@ == old(prompt)@ + feedback_lines_or_none(feedback_views(list@)),
{
    if list.len() == 0 {
        prompt.push_str("- None yet.\n");
        return;
    }
    let ghost start = prompt@;
    let ghost all = feedback_views(list@);
    let mut i: usize = 0;
    assert(all.take(0) =~= Seq::<SpeechFeedbackView>::empty());
    while i < list.len()
        invariant
            i <= list@.len(),
            all == feedback_views(list@),
            prompt@ == start + feedback_lines(all.take(i as int)),
        decreases list@.len() - i,
    {
        proof {
            assert(all.take(i + 1).drop_last() =~= all.take(i as int));
        }
        let line = format_voice_speech_feedback(&list[i]);
        let ghost written = feedback_lines(all.take(i as int));
        prompt.push_str(line.as_str());
        assert(start + written + line@ =~= start + (written + line@));
        i += 1;
    }
    assert(all.take(i as int) =~= all);
}

/// What is told of new experiences while the commentator speaks.
pub open spec fn live_update(list: Seq<ExperienceRecordView>) -> Seq<char> {
    if list.len() == 0 {
        Seq::empty()
    } else {
        "\n\nLIVE REAL-WORLD EXPERIENCE UPDATE FROM WITS:\nUse these details as current real-world context for the continuing Voice stream.\n"@
            + experience_lines(list)
    }
}

/// Tells of new experiences while the commentator speaks.
pub fn live_voice_experiences_prompt(experiences: &Vec<ExperienceRecord>) -> (s: String)
    ensures
        s@ == live_update(experience_views(experiences@)),
{
    if experiences.len() == 0 {
        return String::new();
    }
    let mut s =
        "\n\nLIVE REAL-WORLD EXPERIENCE UPDATE FROM WITS:\nUse these details as current real-world context for the continuing Voice stream.\n".to_owned();
    let ghost start = s@;
    let ghost all = experience_views(experiences@);
    let mut i: usize = 0;
    assert(all.take(0) =~= Seq::<ExperienceRecordView>::empty());
    while i < experiences.len()
        invariant
            i <= experiences@.len(),
            all == experience_views(experiences@),
            s@ == start + experience_lines(all.take(i as int)),
        decreases experiences@.len() - i,
    {
        proof {
            assert(all.take(i + 1).drop_last() =~= all.take(i as int));
        }
        let line = format_experience(&experiences[i]);
        let ghost written = experience_lines(all.take(i as int));
        s.push_str(line.as_str());
        assert(start + written + line@ =~= start + (written + line@));
        i += 1;
    }
    assert(all.take(i as int) =~= all);
    s
}

/// An experience on a timeline.
pub open spec fn timeline_entry(e: ExperienceRecordView) -> EntryView {
    EntryView::Experience(
        ExperienceView {
            id: e.id,
            impression_ids: e.impression_ids,
            occurred_at: e.occurred_at,
            observed_at: e.observed_at,
            what: e.what,
        },
    )
}

/// The entries of some experiences.
pub open spec fn timeline_entries(list: Seq<ExperienceRecordView>) -> Seq<EntryView> {
    list.map_values(|e: ExperienceRecordView| timeline_entry(e))
}

/// The timeline of some experiences.
pub open spec fn voice_timeline(list: Seq<ExperienceRecordView>) -> Seq<EntryView> {
    placed_all(Seq::empty(), timeline_entries(list), entry_time())
}

/// Whether a frame is what some experiences show.
pub open spec fn is_voice_context(context: FrameView, list: Seq<ExperienceRecordView>) -> bool {
    is_snapshot(context, voice_timeline(list), voice_timeline(list), 4)
}

/// What the recent experiences show.
pub fn context_frame_for_voice(recent_experiences: &VecDeque<ExperienceRecord>) -> (r: ContextFrame)
    ensures
        is_voice_context(r@, experience_views(recent_experiences@)),
{
    let ghost all = timeline_entries(experience_views(recent_experiences@));
    let mut frame = TimelineFrame::new();
    let mut i: usize = 0;
    assert(all.take(0) =~= Seq::<EntryView>::empty());
    while i < recent_experiences.len()
        invariant
            i <= recent_experiences@.len(),
            all == timeline_entries(experience_views(recent_experiences@)),
            frame@ == placed_all(Seq::empty(), all.take(i as int), entry_time()),
        decreases recent_experiences@.len() - i,
    {
        proof {
            lemma_placed_all_step(Seq::empty(), all, entry_time(), i as int);
        }
        let record = &recent_experiences[i];
        let entry = TimelineEntry::Experience(
            Experience {
                id: record.id,
                impression_ids: copy_ids(&record.impression_ids),
                occurred_at: record.occurred_at,
                observed_at: record.observed_at,
                what: record.what.clone(),
            },
        );
        assert(entry@ == all[i as int]);
        frame.push(entry);
        i += 1;
    }
    assert(all.take(i as int) =~= all);
    ContextFrame::from_timeline(&frame, frame.entries(), 4)
}

/// What the voice is told of the moment, of what it knows, lived through and
/// heard.
#[verifier::opaque]
pub open spec fn surroundings(
    now: Timestamp,
    context: FrameView,
    experiences: Seq<ExperienceRecordView>,
    heard: Seq<AsrView>,
) -> Seq<char> {
    "Current time metadata:\n"@ + "- observed_at_utc: "@ + now.spec_rfc3339() + "\n\n"@
        + "Current known ContextFrame fields:\n"@ + rendered(context) + "\n"@
        + "Recent Experiences from the Wits:\n"@ + experience_lines_or_none(experiences) + "\n"@
        + "Recent finalized ASR transcripts heard directly:\n"@ + asr_lines_or_none(heard) + "\n"@
        + "Recent internal thoughts reported to Wits:\n"@
}

fn surroundings_text(
    now: Timestamp,
    context: &ContextFrame,
    recent_experiences: &VecDeque<ExperienceRecord>,
    recent_finalized_asr: &VecDeque<FinalizedAsrUpdate>,
) -> (s: String)
    ensures
        s@ == surroundings(
            now,
            context@,
            experience_views(recent_experiences@),
            asr_views(recent_finalized_asr@),
        ),
{
    let mut s = "Current time metadata:\n".to_owned();
    s.push_str("- observed_at_utc: ");
    s.push_str(now.to_rfc3339().as_str());
    s.push_str("\n\n");
    s.push_str("Current known ContextFrame fields:\n");
    s.push_str(context.render().as_str());
    s.push_str("\n");
    s.push_str("Recent Experiences from the Wits:\n");
    push_experience_lines(&mut s, recent_experiences);
    s.push_str("\n");
    s.push_str("Recent finalized ASR transcripts heard directly:\n");
    push_asr_lines(&mut s, recent_finalized_asr);
    s.push_str("\n");
    s.push_str("Recent internal thoughts reported to Wits:\n");
    proof {
        reveal(surroundings);
    }
    s
}

/// What the voice knows.
pub ghost struct Knowledge {
    pub experiences: Seq<ExperienceRecordView>,
    pub heard: Seq<AsrView>,
    pub thoughts: Seq<ObservationView>,
    pub feedback: Seq<SpeechFeedbackView>,
}

/// What the voice is told.
pub open spec fn dialogue_context(now: Timestamp, context: FrameView, known: Knowledge) -> Seq<char> {
    surroundings(now, context, known.experiences, known.heard) + thought_lines_or_none(known.thoughts)
        + "\n"@ + "Recent Mouth feedback:\n"@ + feedback_lines_or_none(known.feedback)
        + "\nUse the conversation turns as the dialogue history.\n"@
}

/// What the commentator is told.
pub open spec fn commentator_context(now: Timestamp, context: FrameView, known: Knowledge) -> Seq<char> {
    surroundings(now, context, known.experiences, known.heard) + faced_thought_lines_or_none(
        known.thoughts,
    ) + "\n"@ + "Recent Mouth feedback from spoken Voice:\n"@ + feedback_lines_or_none(known.feedback)
        + "\nContinue from this structured context.\n"@
}

/// Tells the voice what it knows, given what its experiences show.
pub fn build_dialogue_voice_context_prompt(
    now: Timestamp,
    context: &ContextFrame,
    recent_experiences: &VecDeque<ExperienceRecord>,
    recent_finalized_asr: &VecDeque<FinalizedAsrUpdate>,
    recent_thoughts: &VecDeque<VoiceObservation>,
    recent_speech_feedback: &VecDeque<VoiceSpeechFeedback>,
) -> (s: String)
    ensures
        s@ == dialogue_context(
            now,
            context@,
            (Knowledge {
                experiences: experience_views(recent_experiences@),
                heard: asr_views(recent_finalized_asr@),
                thoughts: thought_views(recent_thoughts@),
                feedback: feedback_views(recent_speech_feedback@),
            }),
        ),
{
    let mut s = surroundings_text(now, context, recent_experiences, recent_finalized_asr);
    push_thought_lines(&mut s, recent_thoughts);
    s.push_str("\n");
    s.push_str("Recent Mouth feedback:\n");
    push_feedback_lines(&mut s, recent_speech_feedback);
    s.push_str("\nUse the conversation turns as the dialogue history.\n");
    s
}

/// Tells the commentator what it knows, given what its experiences show.
pub fn build_voice_context_prompt(
    now: Timestamp,
    context: &ContextFrame,
    recent_experiences: &VecDeque<ExperienceRecord>,
    recent_finalized_asr: &VecDeque<FinalizedAsrUpdate>,
    recent_thoughts: &VecDeque<VoiceObservation>,
    recent_speech_feedback: &VecDeque<VoiceSpeechFeedback>,
) -> (s: String)
    ensures
        s@ == commentator_context(
            now,
            context@,
            (Knowledge {
                experiences: experience_views(recent_experiences@),
                heard: asr_views(recent_finalized_asr@),
                thoughts: thought_views(recent_thoughts@),
                feedback: feedback_views(recent_speech_feedback@),
            }),
        ),
{
    let mut s = surroundings_text(now, context, recent_experiences, recent_finalized_asr);
    push_faced_thought_lines(&mut s, recent_thoughts);
    s.push_str("\n");
    s.push_str("Recent Mouth feedback from spoken Voice:\n");
    push_feedback_lines(&mut s, recent_speech_feedback);
    s.push_str("\nContinue from this structured context.\n");
    s
}

/// Who speaks, as a chat template names them.
pub open spec fn role_name(role: VoiceConversationRole) -> Seq<char> {
    match role {
        VoiceConversationRole::User => "user"@,
        VoiceConversationRole::Assistant => "assistant"@,
    }
}

/// A chat with the turns of a conversation.
pub open spec fn with_turns(messages: Seq<MessageView>, turns: Seq<TurnView>) -> Seq<MessageView>
    decreases turns.len(),
{
    if turns.len() == 0 {
        messages
    } else {
        with_message(
            with_turns(messages, turns.drop_last()),
            role_name(turns.last().role),
            last_chars(trimmed(turns.last().text), 1600),
        )
    }
}

/// The chat that the voice continues: who it is, how it takes turns and what it
/// knows, and then the conversation.
pub open spec fn dialogue_chat(context: Seq<char>, turns: Seq<TurnView>) -> Seq<MessageView> {
    with_turns(
        with_message(
            Seq::empty(),
            "system"@,
            DIALOGUE_VOICE_SYSTEM_PROMPT@ + "\n\n"@ + DIALOGUE_VOICE_TURN_PROMPT@ + "\n\n"@ + context,
        ),
        turns,
    )
}

/// The chat that the voice continues, given what it is told.
pub fn dialogue_messages(context: &str, conversation: &VecDeque<VoiceConversationTurn>) -> (list: Vec<
    ChatMessage,
>)
    ensures
        message_views(list@) == dialogue_chat(context@, turn_views(conversation@)),
{
    let mut system = DIALOGUE_VOICE_SYSTEM_PROMPT.to_owned();
    system.push_str("\n\n");
    system.push_str(DIALOGUE_VOICE_TURN_PROMPT);
    system.push_str("\n\n");
    system.push_str(context);
    let mut messages: Vec<ChatMessage> = Vec::new();
    assert(message_views(messages@) =~= Seq::<MessageView>::empty());
    append_chat_message(&mut messages, "system", system.as_str());
    let ghost start = message_views(messages@);
    let ghost all = turn_views(conversation@);
    let mut i: usize = 0;
    assert(all.take(0) =~= Seq::<TurnView>::empty());
    while i < conversation.len()
        invariant
            i <= conversation@.len(),
            all == turn_views(conversation@),
            message_views(messages@) == with_turns(start, all.take(i as int)),
        decreases conversation@.len() - i,
    {
        proof {
            assert(all.take(i + 1).drop_last() =~= all.take(i as int));
        }
        let text = keep_last_chars(trim(conversation[i].text.as_str()), VOICE_TURN_MAX_CHARS);
        let role = match conversation[i].role {
            VoiceConversationRole::User => "user",
            VoiceConversationRole::Assistant => "assistant",
        };
        append_chat_message(&mut messages, role, text.as_str());
        i += 1;
    }
    assert(all.take(i as int) =~= all);
    messages
}

/// Whether a chat is one that the voice continues at a moment.
pub open spec fn is_dialogue_chat(
    messages: Seq<MessageView>,
    now: Timestamp,
    known: Knowledge,
    turns: Seq<TurnView>,
) -> bool {
    exists|context: FrameView| #[trigger]
        is_voice_context(context, known.experiences) && messages == dialogue_chat(
            dialogue_context(now, context, known),
            turns,
        )
}

/// The chat that the voice continues. How its experiences are dated is a matter
/// of the time zone.
pub fn build_dialogue_voice_messages(
    now: Timestamp,
    recent_experiences: &VecDeque<ExperienceRecord>,
    recent_finalized_asr: &VecDeque<FinalizedAsrUpdate>,
    recent_thoughts: &VecDeque<VoiceObservation>,
    conversation: &VecDeque<VoiceConversationTurn>,
    recent_speech_feedback: &VecDeque<VoiceSpeechFeedback>,
) -> (list: Vec<ChatMessage>)
    ensures
        is_dialogue_chat(
            message_views(list@),
            now,
            (Knowledge {
                experiences: experience_views(recent_experiences@),
                heard: asr_views(recent_finalized_asr@),
                thoughts: thought_views(recent_thoughts@),
                feedback: feedback_views(recent_speech_feedback@),
            }),
            turn_views(conversation@),
        ),
{
    let context = context_frame_for_voice(recent_experiences);
    let told = build_dialogue_voice_context_prompt(
        now,
        &context,
        recent_experiences,
        recent_finalized_asr,
        recent_thoughts,
        recent_speech_feedback,
    );
    dialogue_messages(told.as_str(), conversation)
}

/// What asks for a daydream of three words.
pub open spec fn daydream_text(words: DaydreamWords) -> Seq<char> {
    "DAYDREAM MODE: The recent Commentator stream has become repetitive, so break the loop with an explicitly imagined scene.\nThese three randomly generated words are daydream prompts, not real-world facts. Imagine Pete encountered them:\n- "@
        + words.first@ + "\n- "@ + words.second@ + "\n- "@ + words.third@
        + "\nWrite in first person as Pete, in story form, describing the encounter as an internal daydream. Include lots of sensory details: color, texture, sound, smell, taste, temperature, weight, motion, and body feeling. Keep the imagined material distinct from the real-world context. Do not use <say> tags or attempt to speak aloud."@
}

/// What asks the commentator to go on: to daydream, if that is enabled and the
/// turns repeat themselves.
pub open spec fn continue_text(turns: Seq<Seq<char>>, words: DaydreamWords) -> Seq<char> {
    if COMMENTATOR_DAYDREAM_ENABLED && repetitive(turns) {
        daydream_text(words)
    } else {
        CONTINUE_PROMPT@
    }
}

/// Asks for a daydream of three words.
pub fn daydream_prompt(words: &DaydreamWords) -> (s: String)
    ensures
        s@ == daydream_text(*words),
{
    let mut s =
        "DAYDREAM MODE: The recent Commentator stream has become repetitive, so break the loop with an explicitly imagined scene.\nThese three randomly generated words are daydream prompts, not real-world facts. Imagine Pete encountered them:\n- ".to_owned();
    s.push_str(words.first.as_str());
    s.push_str("\n- ");
    s.push_str(words.second.as_str());
    s.push_str("\n- ");
    s.push_str(words.third.as_str());
    s.push_str(
        "\nWrite in first person as Pete, in story form, describing the encounter as an internal daydream. Include lots of sensory details: color, texture, sound, smell, taste, temperature, weight, motion, and body feeling. Keep the imagined material distinct from the real-world context. Do not use <say> tags or attempt to speak aloud.",
    );
    s
}

/// Asks the commentator to go on.
pub fn commentator_continue_prompt(
    recent_voice_turns: &VecDeque<String>,
    words: &DaydreamWords,
) -> (s: String)
    ensures
        s@ == continue_text(said_views(recent_voice_turns@), *words),
{
    if COMMENTATOR_DAYDREAM_ENABLED && commentator_repetition_detected(recent_voice_turns) {
        daydream_prompt(words)
    } else {
        CONTINUE_PROMPT.to_owned()
    }
}

/// A chat with the turns of the commentator.
pub open spec fn with_comments(messages: Seq<MessageView>, turns: Seq<Seq<char>>) -> Seq<MessageView>
    decreases turns.len(),
{
    if turns.len() == 0 {
        messages
    } else {
        with_message(
            with_comments(messages, turns.drop_last()),
            "assistant"@,
            last_chars(trimmed(turns.last()), 1600),
        )
    }
}

/// The chat that the commentator continues: who it is, what it knows, what it
/// said, and that it should go on.
pub open spec fn commentator_chat(
    context: Seq<char>,
    turns: Seq<Seq<char>>,
    words: DaydreamWords,
) -> Seq<MessageView> {
    with_message(
        with_comments(
            with_message(
                with_message(
                    Seq::empty(),
                    "system"@,
                    VOICE_SYSTEM_PROMPT@ + VOICE_MOUTH_GUIDANCE_PROMPT@,
                ),
                "user"@,
                context,
            ),
            turns,
        ),
        "user"@,
        continue_text(turns, words),
    )
}

/// The chat that the commentator continues, given what it is told.
pub fn commentator_messages(
    context: &str,
    recent_voice_turns: &VecDeque<String>,
    words: &DaydreamWords,
) -> (list: Vec<ChatMessage>)
    ensures
        message_views(list@) == commentator_chat(context@, said_views(recent_voice_turns@), *words),
{
    let mut system = VOICE_SYSTEM_PROMPT.to_owned();
    system.push_str(VOICE_MOUTH_GUIDANCE_PROMPT);
    let mut messages: Vec<ChatMessage> = Vec::new();
    assert(message_views(messages@) =~= Seq::<MessageView>::empty());
    append_chat_message(&mut messages, "system", system.as_str());
    append_chat_message(&mut messages, "user", context);
    let ghost start = message_views(messages@);
    let ghost all = said_views(recent_voice_turns@);
    let mut i: usize = 0;
    assert(all.take(0) =~= Seq::<Seq<char>>::empty());
    while i < recent_voice_turns.len()
        invariant
            i <= recent_voice_turns@.len(),
            all == said_views(recent_voice_turns@),
            message_views(messages@) == with_comments(start, all.take(i as int)),
        decreases recent_voice_turns@.len() - i,
    {
        proof {
            assert(all.take(i + 1).drop_last() =~= all.take(i as int));
        }
        let text = keep_last_chars(trim(recent_voice_turns[i].as_str()), VOICE_TURN_MAX_CHARS);
        append_chat_message(&mut messages, "assistant", text.as_str());
        i += 1;
    }
    assert(all.take(i as int) =~= all);
    let more = commentator_continue_prompt(recent_voice_turns, words);
    append_chat_message(&mut messages, "user", more.as_str());
    messages
}

/// Whether a chat is one that the commentator continues at a moment.
pub open spec fn is_commentator_chat(
    messages: Seq<MessageView>,
    now: Timestamp,
    known: Knowledge,
    turns: Seq<Seq<char>>,
    words: DaydreamWords,
) -> bool {
    exists|context: FrameView| #[trigger]
        is_voice_context(context, known.experiences) && messages == commentator_chat(
            commentator_context(now, context, known),
            turns,
            words,
        )
}

/// The chat that the commentator continues. How its experiences are dated is a
/// matter of the time zone.
pub fn build_voice_messages(
    now: Timestamp,
    recent_experiences: &VecDeque<ExperienceRecord>,
    recent_finalized_asr: &VecDeque<FinalizedAsrUpdate>,
    recent_thoughts: &VecDeque<VoiceObservation>,
    recent_voice_turns: &VecDeque<String>,
    recent_speech_feedback: &VecDeque<VoiceSpeechFeedback>,
    words: &DaydreamWords,
) -> (list: Vec<ChatMessage>)
    ensures
        is_commentator_chat(
            message_views(list@),
            now,
            (Knowledge {
                experiences: experience_views(recent_experiences@),
                heard: asr_views(recent_finalized_asr@),
                thoughts: thought_views(recent_thoughts@),
                feedback: feedback_views(recent_speech_feedback@),
            }),
            said_views(recent_voice_turns@),
            *words,
        ),
{
    let context = context_frame_for_voice(recent_experiences);
    let told = build_voice_context_prompt(
        now,
        &context,
        recent_experiences,
        recent_finalized_asr,
        recent_thoughts,
        recent_speech_feedback,
    );
    commentator_messages(told.as_str(), recent_voice_turns, words)
}

/// In the chats that the voice and the commentator continue, no one speaks twice
/// in a row.
pub proof fn law_chats_alternate(
    context: Seq<char>,
    turns: Seq<TurnView>,
    comments: Seq<Seq<char>>,
    words: DaydreamWords,
)
    ensures
        alternates(dialogue_chat(context, turns)),
        alternates(commentator_chat(context, comments, words)),
{
    let none = Seq::<MessageView>::empty();
    let system = DIALOGUE_VOICE_SYSTEM_PROMPT@ + "\n\n"@ + DIALOGUE_VOICE_TURN_PROMPT@ + "\n\n"@
        + context;
    law_no_one_speaks_twice_in_a_row(none, "system"@, system);
    lemma_turns_alternate(with_message(none, "system"@, system), turns);
    let who = VOICE_SYSTEM_PROMPT@ + VOICE_MOUTH_GUIDANCE_PROMPT@;
    law_no_one_speaks_twice_in_a_row(none, "system"@, who);
    let told = with_message(none, "system"@, who);
    law_no_one_speaks_twice_in_a_row(told, "user"@, context);
    lemma_comments_alternate(with_message(told, "user"@, context), comments);
    law_no_one_speaks_twice_in_a_row(
        with_comments(with_message(told, "user"@, context), comments),
        "user"@,
        continue_text(comments, words),
    );
}

proof fn lemma_turns_alternate(messages: Seq<MessageView>, turns: Seq<TurnView>)
    requires
        alternates(messages),
    ensures
        alternates(with_turns(messages, turns)),
    decreases turns.len(),
{
    if turns.len() > 0 {
        lemma_turns_alternate(messages, turns.drop_last());
        law_no_one_speaks_twice_in_a_row(
            with_turns(messages, turns.drop_last()),
            role_name(turns.last().role),
            last_chars(trimmed(turns.last().text), 1600),
        );
    }
}

proof fn lemma_comments_alternate(messages: Seq<MessageView>, turns: Seq<Seq<char>>)
    requires
        alternates(messages),
    ensures
        alternates(with_comments(messages, turns)),
    decreases turns.len(),
{
    if turns.len() > 0 {
        lemma_comments_alternate(messages, turns.drop_last());
        law_no_one_speaks_twice_in_a_row(
            with_comments(messages, turns.drop_last()),
            "assistant"@,
            last_chars(trimmed(turns.last()), 1600),
        );
    }
}

/// A text that stands between two others occurs in the whole.
proof fn lemma_occurs_between(whole: Seq<char>, before: Seq<char>, part: Seq<char>, after: Seq<char>)
    requires
        whole =~= before + part + after,
    ensures
        occurs(whole, part),
        before.len() == 0 ==> starts(whole, part),
        after.len() == 0 ==> ends(whole, part),
{
    let k = before.len() as int;
    assert(whole.subrange(k, k + part.len()) =~= part);
    assert(stands_at(whole, part, k));
    lemma_found(whole, part);
}

/// What someone says right after they spoke goes on with what they said, behind an
/// empty line, and all else in the chat stays.
pub proof fn law_same_speaker_goes_on(
    messages: Seq<MessageView>,
    role: Seq<char>,
    content: Seq<char>,
)
    requires
        content.len() > 0,
        is_spaced(content),
    ensures
        ({
            let after = with_message(messages, role, content);
            &&& messages.len() > 0 && messages.last().role == role ==> {
                &&& after.len() == messages.len()
                &&& after.last().role == role
                &&& after.last().content == messages.last().content + "\n\n"@ + content
                &&& after.drop_last() == messages.drop_last()
            }
            &&& messages.len() == 0 || messages.last().role != role ==> {
                &&& after.len() == messages.len() + 1
                &&& after.last() == MessageView { role, content }
                &&& after.drop_last() == messages
            }
        }),
{
    lemma_trimmed_noop(content, CharClass::WhiteSpace);
    let after = with_message(messages, role, content);
    if messages.len() > 0 && messages.last().role == role {
        assert(after.drop_last() =~= messages.drop_last());
    } else {
        assert(after.drop_last() =~= messages);
    }
}

/// A conversation in which the two speak in turn is told turn by turn, in order,
/// each under the name of who spoke and with their words, behind one message that
/// ends with what the voice knows.
pub proof fn law_conversation_is_told_turn_by_turn(context: Seq<char>, turns: Seq<TurnView>)
    requires
        !is_blank(context),
        forall|i: int|
            0 <= i < turns.len() ==> is_spaced(#[trigger] turns[i].text) && 0 < turns[i].text.len()
                <= 1600,
        forall|i: int, j: int|
            0 <= i < turns.len() && j == i + 1 && j < turns.len() ==> (#[trigger] turns[i]).role != (
            #[trigger] turns[j]).role,
    ensures
        ({
            let chat = dialogue_chat(context, turns);
            &&& chat.len() == turns.len() + 1
            &&& chat[0].role == "system"@
            &&& ends(chat[0].content, context)
            &&& forall|i: int|
                0 <= i < turns.len() ==> {
                    &&& (#[trigger] chat[i + 1]).content == turns[i].text
                    &&& chat[i + 1].role == match turns[i].role {
                        VoiceConversationRole::User => "user"@,
                        VoiceConversationRole::Assistant => "assistant"@,
                    }
                }
        }),
    decreases turns.len(),
{
    let chat = dialogue_chat(context, turns);
    let head = DIALOGUE_VOICE_SYSTEM_PROMPT@ + "\n\n"@ + DIALOGUE_VOICE_TURN_PROMPT@ + "\n\n"@;
    let system = head + context;
    reveal_strlit("system");
    reveal_strlit("user");
    reveal_strlit("assistant");
    assert("system"@.len() != "user"@.len());
    assert("system"@.len() != "assistant"@.len());
    assert("user"@.len() != "assistant"@.len());
    if turns.len() == 0 {
        law_blank_text_is_white_space_alone(context);
        law_blank_text_is_white_space_alone(system);
        let i = choose|i: int| 0 <= i < context.len() && !is_white_space(#[trigger] context[i]);
        assert(system[head.len() + i] == context[i]);
        lemma_occurs_between(system, head, context, Seq::empty());
    } else {
        let front = turns.drop_last();
        let last = turns.last();
        assert forall|i: int| 0 <= i < front.len() implies is_spaced(#[trigger] front[i].text) && 0
            < front[i].text.len() <= 1600 by {
            assert(front[i] == turns[i]);
        }
        assert forall|i: int, j: int|
            0 <= i < front.len() && j == i + 1 && j < front.len() implies (#[trigger] front[i]).role
            != (#[trigger] front[j]).role by {
            assert(front[i] == turns[i] && front[j] == turns[j]);
        }
        law_conversation_is_told_turn_by_turn(context, front);
        let before = dialogue_chat(context, front);
        assert(turns[turns.len() - 1] == last);
        lemma_trimmed_noop(last.text, CharClass::WhiteSpace);
        if front.len() > 0 {
            assert(turns[front.len() - 1].role != turns[front.len() as int].role);
            assert(before[(front.len() - 1) + 1].role == role_name(front[front.len() - 1].role));
            assert(before.last() == before[front.len() as int]);
        } else {
            assert(before.last() == before[0]);
        }
        assert(before.last().role != role_name(last.role));
        assert(chat == before.push(
            MessageView { role: role_name(last.role), content: last.text },
        ));
        assert forall|i: int| 0 <= i < turns.len() implies {
            &&& (#[trigger] chat[i + 1]).content == turns[i].text
            &&& chat[i + 1].role == match turns[i].role {
                VoiceConversationRole::User => "user"@,
                VoiceConversationRole::Assistant => "assistant"@,
            }
        } by {
            if i < front.len() {
                assert(chat[i + 1] == before[i + 1]);
                assert(front[i] == turns[i]);
            }
        }
    }
}

/// Of a turn that is too long, the chat tells the end.
pub proof fn law_long_turn_is_told_from_its_end(
    messages: Seq<MessageView>,
    turn: TurnView,
    tail: Seq<char>,
    before: Seq<char>,
)
    requires
        turn.text == before + tail,
        is_spaced(turn.text),
        before.len() > 0,
        tail.len() == 1600,
        !is_blank(tail),
        messages.len() > 0 && messages.last().role == "system"@,
    ensures
        with_turns(messages, seq![turn]).len() == messages.len() + 1,
        with_turns(messages, seq![turn]).last().content == tail,
{
    reveal_strlit("system");
    reveal_strlit("user");
    reveal_strlit("assistant");
    assert("system"@.len() != "user"@.len());
    assert("system"@.len() != "assistant"@.len());
    lemma_trimmed_noop(turn.text, CharClass::WhiteSpace);
    assert(turn.text.skip(turn.text.len() - 1600) =~= tail);
    assert(seq![turn].drop_last() =~= Seq::<TurnView>::empty());
    reveal_with_fuel(with_turns, 2);
}

/// The commentator is told who it is, then what it knows, then what it said last,
/// as its own words, and is then asked to go on.
pub proof fn law_commentator_goes_on_from_what_it_said(
    context: Seq<char>,
    said: Seq<char>,
    words: DaydreamWords,
)
    requires
        !is_blank(context),
        is_spaced(said),
        0 < said.len() <= 1600,
        !is_blank(VOICE_SYSTEM_PROMPT@ + VOICE_MOUTH_GUIDANCE_PROMPT@),
        !is_blank(CONTINUE_PROMPT@),
    ensures
        commentator_chat(context, seq![said], words) == seq![
            MessageView {
                role: "system"@,
                content: VOICE_SYSTEM_PROMPT@ + VOICE_MOUTH_GUIDANCE_PROMPT@,
            },
            MessageView { role: "user"@, content: context },
            MessageView { role: "assistant"@, content: said },
            MessageView { role: "user"@, content: CONTINUE_PROMPT@ },
        ],
{
    reveal_strlit("system");
    reveal_strlit("user");
    reveal_strlit("assistant");
    assert("system"@.len() != "user"@.len());
    assert("system"@.len() != "assistant"@.len());
    assert("user"@.len() != "assistant"@.len());
    lemma_trimmed_noop(said, CharClass::WhiteSpace);
    assert(seq![said].drop_last() =~= Seq::<Seq<char>>::empty());
    reveal_with_fuel(with_comments, 2);
    assert(commentator_chat(context, seq![said], words) =~= seq![
        MessageView {
            role: "system"@,
            content: VOICE_SYSTEM_PROMPT@ + VOICE_MOUTH_GUIDANCE_PROMPT@,
        },
        MessageView { role: "user"@, content: context },
        MessageView { role: "assistant"@, content: said },
        MessageView { role: "user"@, content: CONTINUE_PROMPT@ },
    ]);
}

/// A daydream is asked for with its three words, in order.
pub proof fn law_daydream_is_of_its_words(words: DaydreamWords)
    ensures
        occurs(
            daydream_text(words),
            words.first@ + "\n- "@ + words.second@ + "\n- "@ + words.third@,
        ),
{
    let part = words.first@ + "\n- "@ + words.second@ + "\n- "@ + words.third@;
    let head = "DAYDREAM MODE: The recent Commentator stream has become repetitive, so break the loop with an explicitly imagined scene.\nThese three randomly generated words are daydream prompts, not real-world facts. Imagine Pete encountered them:\n- "@;
    let tail = "\nWrite in first person as Pete, in story form, describing the encounter as an internal daydream. Include lots of sensory details: color, texture, sound, smell, taste, temperature, weight, motion, and body feeling. Keep the imagined material distinct from the real-world context. Do not use <say> tags or attempt to speak aloud."@;
    lemma_occurs_between(daydream_text(words), head, part, tail);
}

proof fn lemma_experience_lines_add(a: Seq<ExperienceRecordView>, b: Seq<ExperienceRecordView>)
    ensures
        experience_lines(a + b) == experience_lines(a) + experience_lines(b),
    decreases b.len(),
{
    if b.len() == 0 {
        assert(a + b =~= a);
        assert(experience_lines(a) + experience_lines(b) =~= experience_lines(a));
    } else {
        lemma_experience_lines_add(a, b.drop_last());
        assert((a + b).drop_last() =~= a + b.drop_last());
        assert((a + b).last() == b.last());
        assert(experience_lines(a + b) =~= experience_lines(a) + experience_lines(b));
    }
}

proof fn lemma_sentence_lines_add(a: Seq<AsrView>, b: Seq<AsrView>)
    ensures
        asr_lines(a + b) == asr_lines(a) + asr_lines(b),
    decreases b.len(),
{
    if b.len() == 0 {
        assert(a + b =~= a);
        assert(asr_lines(a) + asr_lines(b) =~= asr_lines(a));
    } else {
        lemma_sentence_lines_add(a, b.drop_last());
        assert((a + b).drop_last() =~= a + b.drop_last());
        assert((a + b).last() == b.last());
        assert(asr_lines(a + b) =~= asr_lines(a) + asr_lines(b));
    }
}

proof fn lemma_thought_lines_add(a: Seq<ObservationView>, b: Seq<ObservationView>)
    ensures
        thought_lines(a + b) == thought_lines(a) + thought_lines(b),
    decreases b.len(),
{
    if b.len() == 0 {
        assert(a + b =~= a);
        assert(thought_lines(a) + thought_lines(b) =~= thought_lines(a));
    } else {
        lemma_thought_lines_add(a, b.drop_last());
        assert((a + b).drop_last() =~= a + b.drop_last());
        assert((a + b).last() == b.last());
        assert(thought_lines(a + b) =~= thought_lines(a) + thought_lines(b));
    }
}

proof fn lemma_faced_thought_lines_add(a: Seq<ObservationView>, b: Seq<ObservationView>)
    ensures
        faced_thought_lines(a + b) == faced_thought_lines(a) + faced_thought_lines(b),
    decreases b.len(),
{
    if b.len() == 0 {
        assert(a + b =~= a);
        assert(faced_thought_lines(a) + faced_thought_lines(b) =~= faced_thought_lines(a));
    } else {
        lemma_faced_thought_lines_add(a, b.drop_last());
        assert((a + b).drop_last() =~= a + b.drop_last());
        assert((a + b).last() == b.last());
        assert(faced_thought_lines(a + b) =~= faced_thought_lines(a) + faced_thought_lines(b));
    }
}

proof fn lemma_report_lines_add(a: Seq<SpeechFeedbackView>, b: Seq<SpeechFeedbackView>)
    ensures
        feedback_lines(a + b) == feedback_lines(a) + feedback_lines(b),
    decreases b.len(),
{
    if b.len() == 0 {
        assert(a + b =~= a);
        assert(feedback_lines(a) + feedback_lines(b) =~= feedback_lines(a));
    } else {
        lemma_report_lines_add(a, b.drop_last());
        assert((a + b).drop_last() =~= a + b.drop_last());
        assert((a + b).last() == b.last());
        assert(feedback_lines(a + b) =~= feedback_lines(a) + feedback_lines(b));
    }
}

/// Experiences, sentences heard, thoughts and reports on speech are each told line by
/// line, in order.
pub proof fn law_lines_come_in_order(a: Knowledge, b: Knowledge)
    ensures
        experience_lines(a.experiences + b.experiences) == experience_lines(a.experiences)
            + experience_lines(b.experiences),
        asr_lines(a.heard + b.heard) == asr_lines(a.heard) + asr_lines(b.heard),
        thought_lines(a.thoughts + b.thoughts) == thought_lines(a.thoughts) + thought_lines(
            b.thoughts,
        ),
        faced_thought_lines(a.thoughts + b.thoughts) == faced_thought_lines(a.thoughts)
            + faced_thought_lines(b.thoughts),
        feedback_lines(a.feedback + b.feedback) == feedback_lines(a.feedback) + feedback_lines(
            b.feedback,
        ),
{
    lemma_experience_lines_add(a.experiences, b.experiences);
    lemma_sentence_lines_add(a.heard, b.heard);
    lemma_thought_lines_add(a.thoughts, b.thoughts);
    lemma_faced_thought_lines_add(a.thoughts, b.thoughts);
    lemma_report_lines_add(a.feedback, b.feedback);
}

/// A text with more behind it begins and goes on as before.
proof fn lemma_more(text: Seq<char>, more: Seq<char>)
    ensures
        forall|p: Seq<char>| occurs(text, p) ==> #[trigger] occurs(text + more, p),
        forall|p: Seq<char>| starts(text, p) ==> #[trigger] starts(text + more, p),
        occurs(text + more, more),
{
    assert forall|p: Seq<char>| occurs(text, p) implies #[trigger] occurs(text + more, p) by {
        lemma_found(text, p);
        let k = found(text, p)->0;
        assert((text + more).subrange(k, k + p.len()) =~= text.subrange(k, k + p.len()));
        assert(stands_at(text + more, p, k));
        lemma_found(text + more, p);
    }
    assert forall|p: Seq<char>| starts(text, p) implies #[trigger] starts(text + more, p) by {
        assert((text + more).subrange(0, p.len() as int) =~= text.subrange(0, p.len() as int));
    }
    lemma_occurs_between(text + more, text, more, Seq::empty());
}

/// A text begins as it is.
proof fn lemma_starts_itself(text: Seq<char>)
    ensures
        starts(text, text),
{
    assert(text.subrange(0, text.len() as int) =~= text);
}

/// The line on an experience tells its moment first, and its words last.
pub proof fn law_line_on_an_experience(e: ExperienceRecordView)
    ensures
        starts(experience_line(e), "- observed_at="@ + e.observed_at.spec_rfc3339()),
        ends(experience_line(e), " what="@ + prompt_string(e.what) + "\n"@),
{
    let at = "- observed_at="@ + e.observed_at.spec_rfc3339();
    let mid = " confidence="@ + with_places(e.confidence, 2);
    let what = " what="@ + prompt_string(e.what) + "\n"@;
    let line = experience_line(e);
    assert(line =~= at + mid + what);
    lemma_starts_itself(at);
    lemma_more(at, mid);
    lemma_more(at + mid, what);
    lemma_occurs_between(line, at + mid, what, Seq::empty());
}

/// The line on a sentence heard tells its moment first, and its words last.
pub proof fn law_line_on_a_sentence(u: AsrView)
    ensures
        starts(asr_line(u), "- observed_at="@ + u.observed_at.spec_rfc3339()),
        ends(asr_line(u), " transcript="@ + prompt_string(u.text) + "\n"@),
{
    let at = "- observed_at="@ + u.observed_at.spec_rfc3339();
    let range = at + " sequence_start="@ + decimal(u.sequence_start as nat) + " sequence_end="@
        + decimal(u.sequence_end as nat);
    let index = match u.sentence_index {
        Some(n) => " sentence_index="@ + decimal(n as nat),
        None => Seq::empty(),
    };
    let count = match u.sentence_count {
        Some(n) => " sentence_count="@ + decimal(n as nat),
        None => Seq::empty(),
    };
    let head = range + index + count;
    let transcript = " transcript="@ + prompt_string(u.text) + "\n"@;
    let line = asr_line(u);
    assert(line == head + " transcript="@ + prompt_string(u.text) + "\n"@);
    assert(line =~= head + transcript);
    lemma_starts_itself(at);
    lemma_more(at, " sequence_start="@);
    lemma_more(at + " sequence_start="@, decimal(u.sequence_start as nat));
    lemma_more(at + " sequence_start="@ + decimal(u.sequence_start as nat), " sequence_end="@);
    lemma_more(
        at + " sequence_start="@ + decimal(u.sequence_start as nat) + " sequence_end="@,
        decimal(u.sequence_end as nat),
    );
    lemma_more(range, index);
    lemma_more(range + index, count);
    lemma_more(head, transcript);
    lemma_occurs_between(line, head, transcript, Seq::empty());
}

/// The line on a thought tells its moment first, and its words; for the commentator,
/// with the face that came with it.
pub proof fn law_line_on_a_thought(o: ObservationView)
    ensures
        starts(thought_line(o), "- observed_at="@ + o.observed_at.spec_rfc3339()),
        ends(thought_line(o), " text="@ + prompt_string(o.text) + "\n"@),
        occurs(thought_line_with_face(o), " text="@ + prompt_string(o.text)),
        o.emoji matches Some(emoji) ==> ends(
            thought_line_with_face(o),
            " emoji="@ + prompt_string(emoji) + "\n"@,
        ),
{
    let at = "- observed_at="@ + o.observed_at.spec_rfc3339();
    let text = " text="@ + prompt_string(o.text);
    let line = thought_line(o);
    assert(line =~= at + (text + "\n"@));
    lemma_starts_itself(at);
    lemma_more(at, text + "\n"@);
    lemma_occurs_between(line, at, text + "\n"@, Seq::empty());
    let face = " emoji="@ + (match o.emoji {
        Some(emoji) => prompt_string(emoji),
        None => "null"@,
    }) + "\n"@;
    let faced = thought_line_with_face(o);
    assert(faced =~= at + text + face);
    lemma_more(at, text);
    lemma_more(at + text, face);
    lemma_occurs_between(faced, at + text, face, Seq::empty());
}

/// The line on a report on speech tells its moment first, and then what happened and
/// the words.
pub proof fn law_line_on_a_report(f: SpeechFeedbackView)
    ensures
        starts(feedback_line(f), "- observed_at="@ + f.observed_at.spec_rfc3339()),
        occurs(feedback_line(f), " event="@ + f.event),
        occurs(feedback_line(f), " text="@ + prompt_string(trimmed(f.text))),
{
    let at = "- observed_at="@ + f.observed_at.spec_rfc3339();
    let event = " event="@ + f.event;
    let ids = " utterance_id="@ + hyphenated(f.utterance_id) + " generation_id="@ + hyphenated(
        f.generation_id,
    );
    let spoken = " text="@ + prompt_string(trimmed(f.text));
    let took = match f.duration_ms {
        Some(ms) => " duration_ms="@ + decimal(ms as nat),
        None => Seq::empty(),
    };
    let why = match f.reason {
        Some(reason) => " reason="@ + prompt_string(reason),
        None => Seq::empty(),
    };
    let head = at + " event="@ + f.event + " utterance_id="@ + hyphenated(f.utterance_id)
        + " generation_id="@ + hyphenated(f.generation_id) + " text="@ + prompt_string(
        trimmed(f.text),
    );
    assert(head =~= at + event + ids + spoken);
    lemma_starts_itself(at);
    lemma_more(at, event);
    lemma_more(at + event, ids);
    lemma_more(at + event + ids, spoken);
    lemma_more(head, took);
    lemma_more(head + took, why);
    lemma_more(head + took + why, "\n"@);
    assert(feedback_line(f) == head + took + why + "\n"@);
}

/// What the voice and the commentator are told holds the moment, the frame, and the
/// lines on all that was lived through, heard, thought and reported.
pub proof fn law_all_that_is_known_is_told(now: Timestamp, context: FrameView, known: Knowledge)
    requires
        known.experiences.len() > 0,
        known.heard.len() > 0,
        known.thoughts.len() > 0,
        known.feedback.len() > 0,
    ensures
        ({
            let voice = dialogue_context(now, context, known);
            let commentator = commentator_context(now, context, known);
            &&& occurs(voice, now.spec_rfc3339()) && occurs(commentator, now.spec_rfc3339())
            &&& occurs(voice, rendered(context)) && occurs(commentator, rendered(context))
            &&& occurs(voice, experience_lines(known.experiences))
            &&& occurs(commentator, experience_lines(known.experiences))
            &&& occurs(voice, asr_lines(known.heard)) && occurs(commentator, asr_lines(known.heard))
            &&& occurs(voice, thought_lines(known.thoughts))
            &&& occurs(commentator, faced_thought_lines(known.thoughts))
            &&& occurs(voice, feedback_lines(known.feedback))
            &&& occurs(commentator, feedback_lines(known.feedback))
        }),
{
    let around = surroundings(now, context, known.experiences, known.heard);
    lemma_surroundings_tell(now, context, known);
    let v1 = around + thought_lines(known.thoughts);
    let v2 = v1 + "\n"@;
    let v3 = v2 + "Recent Mouth feedback:\n"@;
    let v4 = v3 + feedback_lines(known.feedback);
    let last = "\nUse the conversation turns as the dialogue history.\n"@;
    lemma_more(around, thought_lines(known.thoughts));
    lemma_more(v1, "\n"@);
    lemma_more(v2, "Recent Mouth feedback:\n"@);
    lemma_more(v3, feedback_lines(known.feedback));
    lemma_more(v4, last);
    assert(dialogue_context(now, context, known) == v4 + last);
    let c1 = around + faced_thought_lines(known.thoughts);
    let c2 = c1 + "\n"@;
    let c3 = c2 + "Recent Mouth feedback from spoken Voice:\n"@;
    let c4 = c3 + feedback_lines(known.feedback);
    let end = "\nContinue from this structured context.\n"@;
    lemma_more(around, faced_thought_lines(known.thoughts));
    lemma_more(c1, "\n"@);
    lemma_more(c2, "Recent Mouth feedback from spoken Voice:\n"@);
    lemma_more(c3, feedback_lines(known.feedback));
    lemma_more(c4, end);
    assert(commentator_context(now, context, known) == c4 + end);
}

/// The surroundings hold the moment, the frame, and the lines on what was lived
/// through and heard.
proof fn lemma_surroundings_tell(now: Timestamp, context: FrameView, known: Knowledge)
    requires
        known.experiences.len() > 0,
        known.heard.len() > 0,
    ensures
        ({
            let whole = surroundings(now, context, known.experiences, known.heard);
            &&& occurs(whole, now.spec_rfc3339())
            &&& occurs(whole, rendered(context))
            &&& occurs(whole, experience_lines(known.experiences))
            &&& occurs(whole, asr_lines(known.heard))
        }),
{
    reveal(surroundings);
    let whole = surroundings(now, context, known.experiences, known.heard);
    let s0 = "Current time metadata:\n"@ + "- observed_at_utc: "@;
    let s1 = s0 + now.spec_rfc3339();
    let s2 = s1 + "\n\n"@;
    let s3 = s2 + "Current known ContextFrame fields:\n"@;
    let s4 = s3 + rendered(context);
    let s5 = s4 + "\n"@;
    let s6 = s5 + "Recent Experiences from the Wits:\n"@;
    let s7 = s6 + experience_lines(known.experiences);
    let s8 = s7 + "\n"@;
    let s9 = s8 + "Recent finalized ASR transcripts heard directly:\n"@;
    let s10 = s9 + asr_lines(known.heard);
    let s11 = s10 + "\n"@;
    assert(whole == s11 + "Recent internal thoughts reported to Wits:\n"@);
    lemma_more(s0, now.spec_rfc3339());
    lemma_more(s1, "\n\n"@);
    lemma_more(s2, "Current known ContextFrame fields:\n"@);
    lemma_more(s3, rendered(context));
    lemma_more(s4, "\n"@);
    lemma_more(s5, "Recent Experiences from the Wits:\n"@);
    lemma_more(s6, experience_lines(known.experiences));
    lemma_more(s7, "\n"@);
    lemma_more(s8, "Recent finalized ASR transcripts heard directly:\n"@);
    lemma_more(s9, asr_lines(known.heard));
    lemma_more(s10, "\n"@);
    lemma_more(s11, "Recent internal thoughts reported to Wits:\n"@);
}

} // verus!
