//! What the voice remembers: experiences, what it heard, its own words and what
//! became of them.

use std::collections::VecDeque;
use vstd::prelude::*;

use crate::chars::{is_white_space, CharClass};
use crate::decimal::{decimal, decimal_text, lemma_decimal_reads_back};
use crate::ident::{has_id, Id};
use crate::json::{field, unsigned_field, JsonView};
use crate::logs::{law_log_loses_only_the_oldest, logged, push_limited};
use crate::messages::{
    AudioSentenceClipRecord, ClipView, ExperienceRecord, ExperienceRecordView, ObservationView,
    VoiceObservation,
};
use crate::realtime_experience::last_of;
use crate::text::{
    blank, copy_optional, cut_at, is_blank, keep_last_chars, last_chars,
    law_blank_text_is_white_space_alone, lemma_trimmed_noop, optional, same, trim, trimmed,
};
use crate::time::Timestamp;
use crate::voice_text::{
    chat_markers, clean_generated_voice_text, cleaned, is_plain, law_plain_text_is_kept,
    lemma_no_chat_marker, normalized_signature, signature, truncate_at_chat_template_marker,
};

verus! {

/// The experiences that are remembered.
pub const RECENT_EXPERIENCE_LIMIT: usize = 12;

/// The sentences heard that are remembered.
pub const RECENT_FINALIZED_ASR_LIMIT: usize = 24;

/// The thoughts that are remembered.
pub const RECENT_THOUGHT_LIMIT: usize = 10;

/// The turns of the commentator that are remembered.
pub const RECENT_VOICE_TURN_LIMIT: usize = 4;

/// The turns of the conversation that are remembered.
pub const RECENT_VOICE_CONVERSATION_LIMIT: usize = 24;

/// The reports on speech that are remembered.
pub const RECENT_SPEECH_FEEDBACK_LIMIT: usize = 16;

/// How much of a turn is remembered.
pub const VOICE_TURN_MAX_CHARS: usize = 1_600;

/// A sentence that was heard.
#[derive(Debug, PartialEq, Eq)]
pub struct FinalizedAsrUpdate {
    /// When it was heard.
    pub observed_at: Timestamp,
    /// Its words.
    pub text: String,
    /// The first clip of sound that it comes from.
    pub sequence_start: u64,
    /// The last.
    pub sequence_end: u64,
    /// Which sentence of its group it is.
    pub sentence_index: Option<usize>,
    /// How many sentences the group has.
    pub sentence_count: Option<usize>,
}

/// What a [`FinalizedAsrUpdate`] is.
pub ghost struct AsrView {
    pub observed_at: Timestamp,
    pub text: Seq<char>,
    pub sequence_start: u64,
    pub sequence_end: u64,
    pub sentence_index: Option<usize>,
    pub sentence_count: Option<usize>,
}

impl View for FinalizedAsrUpdate {
    type V = AsrView;

    open spec fn view(&self) -> AsrView {
        AsrView {
            observed_at: self.observed_at,
            text: self.text@,
            sequence_start: self.sequence_start,
            sequence_end: self.sequence_end,
            sentence_index: self.sentence_index,
            sentence_count: self.sentence_count,
        }
    }
}

impl Clone for FinalizedAsrUpdate {
    fn clone(&self) -> (r: FinalizedAsrUpdate)
        ensures
            r@ == self@,
    {
        FinalizedAsrUpdate {
            observed_at: self.observed_at,
            text: self.text.clone(),
            sequence_start: self.sequence_start,
            sequence_end: self.sequence_end,
            sentence_index: self.sentence_index,
            sentence_count: self.sentence_count,
        }
    }
}

/// A report on words that were spoken aloud.
#[derive(Debug, PartialEq, Eq)]
pub struct VoiceSpeechFeedback {
    /// When it came.
    pub observed_at: Timestamp,
    /// The words.
    pub utterance_id: Id,
    /// The generation that they come from.
    pub generation_id: Id,
    /// What happened.
    pub event: String,
    /// What was said.
    pub text: String,
    /// How long it took.
    pub duration_ms: Option<u64>,
    /// Why it ended.
    pub reason: Option<String>,
}

/// What a [`VoiceSpeechFeedback`] is.
pub ghost struct SpeechFeedbackView {
    pub observed_at: Timestamp,
    pub utterance_id: Id,
    pub generation_id: Id,
    pub event: Seq<char>,
    pub text: Seq<char>,
    pub duration_ms: Option<u64>,
    pub reason: Option<Seq<char>>,
}

impl View for VoiceSpeechFeedback {
    type V = SpeechFeedbackView;

    open spec fn view(&self) -> SpeechFeedbackView {
        SpeechFeedbackView {
            observed_at: self.observed_at,
            utterance_id: self.utterance_id,
            generation_id: self.generation_id,
            event: self.event@,
            text: self.text@,
            duration_ms: self.duration_ms,
            reason: optional(self.reason),
        }
    }
}

impl Clone for VoiceSpeechFeedback {
    fn clone(&self) -> (r: VoiceSpeechFeedback)
        ensures
            r@ == self@,
    {
        VoiceSpeechFeedback {
            observed_at: self.observed_at,
            utterance_id: self.utterance_id,
            generation_id: self.generation_id,
            event: self.event.clone(),
            text: self.text.clone(),
            duration_ms: self.duration_ms,
            reason: copy_optional(&self.reason),
        }
    }
}

/// Who speaks in a conversation.
#[derive(Debug, Clone, Copy, PartialEq, Eq, Structural)]
pub enum VoiceConversationRole {
    /// The other person.
    User,
    /// The voice.
    Assistant,
}

/// A turn of a conversation.
#[derive(Debug, PartialEq, Eq)]
pub struct VoiceConversationTurn {
    /// Who speaks.
    pub role: VoiceConversationRole,
    /// What is said.
    pub text: String,
}

/// What a [`VoiceConversationTurn`] is.
pub ghost struct TurnView {
    pub role: VoiceConversationRole,
    pub text: Seq<char>,
}

impl View for VoiceConversationTurn {
    type V = TurnView;

    open spec fn view(&self) -> TurnView {
        TurnView { role: self.role, text: self.text@ }
    }
}

/// The experiences of a log.
pub open spec fn experience_views(log: Seq<ExperienceRecord>) -> Seq<ExperienceRecordView> {
    log.map_values(|e: ExperienceRecord| e@)
}

/// The sentences of a log.
pub open spec fn asr_views(log: Seq<FinalizedAsrUpdate>) -> Seq<AsrView> {
    log.map_values(|u: FinalizedAsrUpdate| u@)
}

/// The clips of a log.
pub open spec fn clip_views(log: Seq<AudioSentenceClipRecord>) -> Seq<ClipView> {
    log.map_values(|c: AudioSentenceClipRecord| c@)
}

/// The thoughts of a log.
pub open spec fn thought_views(log: Seq<VoiceObservation>) -> Seq<ObservationView> {
    log.map_values(|o: VoiceObservation| o@)
}

/// The turns of a conversation.
pub open spec fn turn_views(log: Seq<VoiceConversationTurn>) -> Seq<TurnView> {
    log.map_values(|t: VoiceConversationTurn| t@)
}

/// The reports of a log.
pub open spec fn feedback_views(log: Seq<VoiceSpeechFeedback>) -> Seq<SpeechFeedbackView> {
    log.map_values(|f: VoiceSpeechFeedback| f@)
}

/// The turns of the commentator.
pub open spec fn said_views(log: Seq<String>) -> Seq<Seq<char>> {
    log.map_values(|s: String| s@)
}

/// What is remembered of experiences: the recent ones, and the signature of the
/// last that was news.
pub ghost struct ExperienceMemory {
    pub recent: Seq<ExperienceRecordView>,
    pub last: Option<Seq<char>>,
}

/// Whether all that an experience is drawn from, the system made of itself.
pub open spec fn is_own_feedback(voice_ids: Seq<Id>, e: ExperienceRecordView) -> bool {
    e.impression_ids.len() > 0 && forall|i: int|
        0 <= i < e.impression_ids.len() ==> voice_ids.contains(#[trigger] e.impression_ids[i])
}

/// Whether an experience with an identifier is in a list.
pub open spec fn holds_experience(list: Seq<ExperienceRecordView>, id: Id) -> bool {
    exists|i: int| 0 <= i < list.len() && (#[trigger] list[i]).id == id
}

/// Whether an experience says something, not of the system itself, that was not
/// just said.
pub open spec fn is_meaningful(voice_ids: Seq<Id>, last: Option<Seq<char>>, e: ExperienceRecordView) -> bool {
    &&& !is_blank(e.what)
    &&& !is_own_feedback(voice_ids, e)
    &&& signature(trimmed(e.what)).len() > 0
    &&& last != Some(signature(trimmed(e.what)))
}

/// Whether an experience is news.
pub open spec fn is_news(voice_ids: Seq<Id>, m: ExperienceMemory, e: ExperienceRecordView) -> bool {
    !holds_experience(m.recent, e.id) && is_meaningful(voice_ids, m.last, e)
}

/// The memory after an experience.
pub open spec fn after_experience(
    voice_ids: Seq<Id>,
    m: ExperienceMemory,
    e: ExperienceRecordView,
) -> ExperienceMemory {
    if is_news(voice_ids, m, e) {
        ExperienceMemory {
            recent: logged(m.recent, e, 12),
            last: Some(signature(trimmed(e.what))),
        }
    } else {
        m
    }
}

/// The memory after some experiences.
pub open spec fn after_experiences(
    voice_ids: Seq<Id>,
    m: ExperienceMemory,
    list: Seq<ExperienceRecordView>,
) -> ExperienceMemory
    decreases list.len(),
{
    if list.len() == 0 {
        m
    } else {
        after_experience(voice_ids, after_experiences(voice_ids, m, list.drop_last()), list.last())
    }
}

/// Those of some experiences that are news.
pub open spec fn news(
    voice_ids: Seq<Id>,
    m: ExperienceMemory,
    list: Seq<ExperienceRecordView>,
) -> Seq<ExperienceRecordView>
    decreases list.len(),
{
    if list.len() == 0 {
        Seq::empty()
    } else {
        let before = after_experiences(voice_ids, m, list.drop_last());
        if is_news(voice_ids, before, list.last()) {
            news(voice_ids, m, list.drop_last()).push(list.last())
        } else {
            news(voice_ids, m, list.drop_last())
        }
    }
}

/// Tells whether all that an experience is drawn from, the system made of
/// itself.
pub fn is_only_voice_feedback(voice_impression_ids: &Vec<Id>, experience: &ExperienceRecord) -> (r:
    bool)
    ensures
        r == is_own_feedback(voice_impression_ids@, experience@),
{
    if experience.impression_ids.len() == 0 {
        return false;
    }
    let mut i: usize = 0;
    while i < experience.impression_ids.len()
        invariant
            i <= experience.impression_ids@.len(),
            forall|k: int|
                0 <= k < i ==> voice_impression_ids@.contains(
                    #[trigger] experience.impression_ids@[k],
                ),
        decreases experience.impression_ids@.len() - i,
    {
        if !has_id(voice_impression_ids, experience.impression_ids[i]) {
            assert(!voice_impression_ids@.contains(experience@.impression_ids[i as int]));
            return false;
        }
        i += 1;
    }
    true
}

/// Tells whether an experience says something, not of the system itself, that
/// was not just said, and keeps its signature if so.
pub fn is_meaningful_new_experience(
    voice_impression_ids: &Vec<Id>,
    experience: &ExperienceRecord,
    last_signature: &mut Option<String>,
) -> (r: bool)
    ensures
        r == is_meaningful(voice_impression_ids@, optional(*old(last_signature)), experience@),
        optional(*final(last_signature)) == (if r {
            Some(signature(trimmed(experience@.what)))
        } else {
            optional(*old(last_signature))
        }),
{
    let trimmed_text = trim(experience.what.as_str());
    if trimmed_text.unicode_len() == 0 {
        return false;
    }
    if is_only_voice_feedback(voice_impression_ids, experience) {
        return false;
    }
    let found = normalized_signature(trimmed_text);
    if found.as_str().unicode_len() == 0 {
        return false;
    }
    match last_signature {
        Some(last) => {
            if same(last.as_str(), found.as_str()) {
                return false;
            }
        },
        None => {},
    }
    *last_signature = Some(found);
    true
}

fn has_experience(recent: &VecDeque<ExperienceRecord>, id: Id) -> (r: bool)
    ensures
        r == holds_experience(experience_views(recent@), id),
{
    let mut i: usize = 0;
    while i < recent.len()
        invariant
            i <= recent@.len(),
            forall|k: int| 0 <= k < i ==> (#[trigger] experience_views(recent@)[k]).id != id,
        decreases recent@.len() - i,
    {
        if recent[i].id == id {
            assert(experience_views(recent@)[i as int].id == id);
            return true;
        }
        i += 1;
    }
    false
}

/// Remembers an experience if it is news.
pub fn remember_recent_experience(
    voice_impression_ids: &Vec<Id>,
    recent_experiences: &mut VecDeque<ExperienceRecord>,
    experience: &ExperienceRecord,
    last_signature: &mut Option<String>,
) -> (r: bool)
    ensures
        ({
            let before = ExperienceMemory {
                recent: experience_views(old(recent_experiences)@),
                last: optional(*old(last_signature)),
            };
            let after = after_experience(voice_impression_ids@, before, experience@);
            &&& r == is_news(voice_impression_ids@, before, experience@)
            &&& experience_views(final(recent_experiences)@) == after.recent
            &&& optional(*final(last_signature)) == after.last
        }),
{
    if has_experience(recent_experiences, experience.id) {
        return false;
    }
    if !is_meaningful_new_experience(voice_impression_ids, experience, last_signature) {
        return false;
    }
    push_limited(recent_experiences, experience.clone(), RECENT_EXPERIENCE_LIMIT);
    assert(experience_views(recent_experiences@) =~= logged(
        experience_views(old(recent_experiences)@),
        experience@,
        12,
    ));
    true
}

/// Remembers the latest experiences of a log, as far as they are news, and hands
/// those back.
pub fn sync_recent_experiences(
    log: &VecDeque<ExperienceRecord>,
    voice_impression_ids: &Vec<Id>,
    recent_experiences: &mut VecDeque<ExperienceRecord>,
    last_signature: &mut Option<String>,
) -> (fresh: Vec<ExperienceRecord>)
    ensures
        ({
            let before = ExperienceMemory {
                recent: experience_views(old(recent_experiences)@),
                last: optional(*old(last_signature)),
            };
            let latest = last_of(experience_views(log@), 12);
            let after = after_experiences(voice_impression_ids@, before, latest);
            &&& experience_views(fresh@) == news(voice_impression_ids@, before, latest)
            &&& experience_views(final(recent_experiences)@) == after.recent
            &&& optional(*final(last_signature)) == after.last
        }),
{
    let ghost before = ExperienceMemory {
        recent: experience_views(recent_experiences@),
        last: optional(*last_signature),
    };
    let ghost latest = last_of(experience_views(log@), 12);
    let start: usize = if log.len() <= RECENT_EXPERIENCE_LIMIT {
        0
    } else {
        log.len() - RECENT_EXPERIENCE_LIMIT
    };
    let mut fresh: Vec<ExperienceRecord> = Vec::new();
    let mut i: usize = start;
    assert(latest.take(0) =~= Seq::<ExperienceRecordView>::empty());
    assert(experience_views(fresh@) =~= Seq::<ExperienceRecordView>::empty());
    while i < log.len()
        invariant
            start <= i <= log@.len(),
            start == (if log@.len() <= 12 {
                0
            } else {
                log@.len() - 12
            }),
            latest == last_of(experience_views(log@), 12),
            experience_views(fresh@) == news(
                voice_impression_ids@,
                before,
                latest.take(i - start),
            ),
            experience_views(recent_experiences@) == after_experiences(
                voice_impression_ids@,
                before,
                latest.take(i - start),
            ).recent,
            optional(*last_signature) == after_experiences(
                voice_impression_ids@,
                before,
                latest.take(i - start),
            ).last,
        decreases log@.len() - i,
    {
        let ghost n = i - start;
        proof {
            assert(latest.take(n + 1).drop_last() =~= latest.take(n));
            assert(latest.take(n + 1).last() == log@[i as int]@);
        }
        let ghost kept = experience_views(fresh@);
        if remember_recent_experience(
            voice_impression_ids,
            recent_experiences,
            &log[i],
            last_signature,
        ) {
            fresh.push(log[i].clone());
            assert(experience_views(fresh@) =~= kept.push(log@[i as int]@));
        }
        i += 1;
    }
    assert(latest.take(i - start) =~= latest);
    fresh
}

/// What tells one sentence heard from another.
pub open spec fn asr_signature(u: AsrView) -> Seq<char> {
    decimal(u.sequence_start as nat) + ":"@ + decimal(u.sequence_end as nat) + ":"@ + (
    match u.sentence_index {
        Some(n) => decimal(n as nat),
        None => "_"@,
    }) + ":"@ + signature(u.text)
}

/// Tells what distinguishes a sentence heard from another.
pub fn finalized_asr_signature(update: &FinalizedAsrUpdate) -> (s: String)
    ensures
        s@ == asr_signature(update@),
{
    let mut s = decimal_text(update.sequence_start as u128);
    s.push_str(":");
    s.push_str(decimal_text(update.sequence_end as u128).as_str());
    s.push_str(":");
    match update.sentence_index {
        Some(n) => {
            s.push_str(decimal_text(n as u128).as_str());
        },
        None => {
            s.push_str("_");
        },
    }
    s.push_str(":");
    s.push_str(normalized_signature(update.text.as_str()).as_str());
    s
}

/// Whether a sentence was not heard before.
pub open spec fn is_unheard(recent: Seq<AsrView>, u: AsrView) -> bool {
    !is_blank(u.text) && forall|i: int|
        0 <= i < recent.len() ==> asr_signature(#[trigger] recent[i]) != asr_signature(u)
}

/// The sentences heard after one more.
pub open spec fn after_heard(recent: Seq<AsrView>, u: AsrView) -> Seq<AsrView> {
    if is_unheard(recent, u) {
        logged(recent, u, 24)
    } else {
        recent
    }
}

/// Remembers a sentence if it was not heard before.
pub fn remember_recent_finalized_asr_update(
    recent_finalized_asr: &mut VecDeque<FinalizedAsrUpdate>,
    update: &FinalizedAsrUpdate,
) -> (r: bool)
    ensures
        r == is_unheard(asr_views(old(recent_finalized_asr)@), update@),
        asr_views(final(recent_finalized_asr)@) == after_heard(
            asr_views(old(recent_finalized_asr)@),
            update@,
        ),
{
    let ghost before = asr_views(recent_finalized_asr@);
    if blank(update.text.as_str()) {
        return false;
    }
    let wanted = finalized_asr_signature(update);
    let mut i: usize = 0;
    while i < recent_finalized_asr.len()
        invariant
            i <= recent_finalized_asr@.len(),
            before == asr_views(recent_finalized_asr@),
            recent_finalized_asr@ == old(recent_finalized_asr)@,
            wanted@ == asr_signature(update@),
            forall|k: int| 0 <= k < i ==> asr_signature(#[trigger] before[k]) != asr_signature(update@),
        decreases recent_finalized_asr@.len() - i,
    {
        let other = finalized_asr_signature(&recent_finalized_asr[i]);
        if same(other.as_str(), wanted.as_str()) {
            assert(asr_signature(before[i as int]) == asr_signature(update@));
            return false;
        }
        i += 1;
    }
    push_limited(recent_finalized_asr, update.clone(), RECENT_FINALIZED_ASR_LIMIT);
    assert(asr_views(recent_finalized_asr@) =~= logged(before, update@, 24));
    true
}

/// A number that a size can hold.
pub open spec fn size_field(v: JsonView, key: Seq<char>) -> Option<usize> {
    match unsigned_field(v, key) {
        Some(n) => if n <= usize::MAX {
            Some(n as usize)
        } else {
            None
        },
        None => None,
    }
}

/// A number, or the one that stands for it.
pub open spec fn number_or(v: JsonView, key: Seq<char>, default: u64) -> u64 {
    match unsigned_field(v, key) {
        Some(n) => n as u64,
        None => default,
    }
}

/// The sentence of a clip.
pub open spec fn heard_in(clip: ClipView) -> AsrView {
    let s = clip.sensation;
    AsrView {
        observed_at: s.observed_at,
        text: clip.text,
        sequence_start: number_or(s.detail, "sequence_start"@, s.sequence),
        sequence_end: number_or(s.detail, "sequence_end"@, s.sequence),
        sentence_index: size_field(s.detail, "sentence_index"@),
        sentence_count: size_field(s.detail, "sentence_count"@),
    }
}

fn as_size(n: Option<u64>) -> (r: Option<usize>)
    ensures
        r == (match n {
            Some(n) => if n <= usize::MAX {
                Some(n as usize)
            } else {
                None
            },
            None => None,
        }),
{
    match n {
        Some(n) => if n <= usize::MAX as u64 {
            Some(n as usize)
        } else {
            None
        },
        None => None,
    }
}

/// The sentence of a clip.
pub fn finalized_asr_update_from_clip(clip: &AudioSentenceClipRecord) -> (u: FinalizedAsrUpdate)
    ensures
        u@ == heard_in(clip@),
{
    let detail = &clip.sensation.detail;
    let first: u64 = match detail.u64_field("sequence_start") {
        Some(n) => n,
        None => clip.sensation.sequence,
    };
    let last: u64 = match detail.u64_field("sequence_end") {
        Some(n) => n,
        None => clip.sensation.sequence,
    };
    FinalizedAsrUpdate {
        observed_at: clip.sensation.observed_at,
        text: clip.text.clone(),
        sequence_start: first,
        sequence_end: last,
        sentence_index: as_size(detail.u64_field("sentence_index")),
        sentence_count: as_size(detail.u64_field("sentence_count")),
    }
}

/// The sentences heard after those of some clips.
pub open spec fn after_clips(recent: Seq<AsrView>, clips: Seq<ClipView>) -> Seq<AsrView>
    decreases clips.len(),
{
    if clips.len() == 0 {
        recent
    } else {
        after_heard(after_clips(recent, clips.drop_last()), heard_in(clips.last()))
    }
}

/// Those of the sentences of some clips that were not heard before.
pub open spec fn unheard(recent: Seq<AsrView>, clips: Seq<ClipView>) -> Seq<AsrView>
    decreases clips.len(),
{
    if clips.len() == 0 {
        Seq::empty()
    } else if is_unheard(after_clips(recent, clips.drop_last()), heard_in(clips.last())) {
        unheard(recent, clips.drop_last()).push(heard_in(clips.last()))
    } else {
        unheard(recent, clips.drop_last())
    }
}

/// Remembers the sentences of a log of clips, as far as they were not heard
/// before, and hands those back.
pub fn sync_recent_finalized_asr(
    clips: &VecDeque<AudioSentenceClipRecord>,
    recent_finalized_asr: &mut VecDeque<FinalizedAsrUpdate>,
) -> (fresh: Vec<FinalizedAsrUpdate>)
    ensures
        asr_views(fresh@) == unheard(asr_views(old(recent_finalized_asr)@), clip_views(clips@)),
        asr_views(final(recent_finalized_asr)@) == after_clips(
            asr_views(old(recent_finalized_asr)@),
            clip_views(clips@),
        ),
{
    let ghost before = asr_views(recent_finalized_asr@);
    let ghost all = clip_views(clips@);
    let mut fresh: Vec<FinalizedAsrUpdate> = Vec::new();
    let mut i: usize = 0;
    assert(all.take(0) =~= Seq::<ClipView>::empty());
    assert(asr_views(fresh@) =~= Seq::<AsrView>::empty());
    while i < clips.len()
        invariant
            i <= clips@.len(),
            all == clip_views(clips@),
            asr_views(fresh@) == unheard(before, all.take(i as int)),
            asr_views(recent_finalized_asr@) == after_clips(before, all.take(i as int)),
        decreases clips@.len() - i,
    {
        proof {
            assert(all.take(i + 1).drop_last() =~= all.take(i as int));
            assert(all.take(i + 1).last() == clips@[i as int]@);
        }
        let update = finalized_asr_update_from_clip(&clips[i]);
        let ghost kept = asr_views(fresh@);
        if remember_recent_finalized_asr_update(recent_finalized_asr, &update) {
            fresh.push(update);
            assert(asr_views(fresh@) =~= kept.push(update@));
        }
        i += 1;
    }
    assert(all.take(i as int) =~= all);
    fresh
}

/// The conversation after a turn: what was generated by mistake is taken out,
/// and only the end of a long turn is kept.
pub open spec fn after_turn(turns: Seq<TurnView>, role: VoiceConversationRole, text: Seq<char>) -> Seq<
    TurnView,
> {
    if cleaned(text).len() == 0 {
        turns
    } else {
        logged(turns, TurnView { role, text: last_chars(cleaned(text), 1600) }, 24)
    }
}

/// Remembers a turn of the conversation.
pub fn remember_voice_conversation_turn(
    turns: &mut VecDeque<VoiceConversationTurn>,
    role: VoiceConversationRole,
    text: &str,
)
    ensures
        turn_views(final(turns)@) == after_turn(turn_views(old(turns)@), role, text@),
{
    let clean = clean_generated_voice_text(text);
    if clean.as_str().unicode_len() == 0 {
        return;
    }
    let kept = keep_last_chars(clean.as_str(), VOICE_TURN_MAX_CHARS);
    let turn = VoiceConversationTurn { role, text: kept };
    push_limited(turns, turn, RECENT_VOICE_CONVERSATION_LIMIT);
    assert(turn_views(turns@) =~= logged(turn_views(old(turns)@), turn@, 24));
}

/// The conversation after the other person said some sentences.
pub open spec fn after_said(turns: Seq<TurnView>, updates: Seq<AsrView>) -> Seq<TurnView>
    decreases updates.len(),
{
    if updates.len() == 0 {
        turns
    } else {
        after_turn(
            after_said(turns, updates.drop_last()),
            VoiceConversationRole::User,
            updates.last().text,
        )
    }
}

/// Remembers what the other person said.
pub fn remember_user_turns(
    turns: &mut VecDeque<VoiceConversationTurn>,
    updates: &Vec<FinalizedAsrUpdate>,
)
    ensures
        turn_views(final(turns)@) == after_said(turn_views(old(turns)@), asr_views(updates@)),
{
    let ghost before = turn_views(turns@);
    let ghost all = asr_views(updates@);
    let mut i: usize = 0;
    assert(all.take(0) =~= Seq::<AsrView>::empty());
    while i < updates.len()
        invariant
            i <= updates@.len(),
            all == asr_views(updates@),
            turn_views(turns@) == after_said(before, all.take(i as int)),
        decreases updates@.len() - i,
    {
        proof {
            assert(all.take(i + 1).drop_last() =~= all.take(i as int));
        }
        remember_voice_conversation_turn(
            turns,
            VoiceConversationRole::User,
            updates[i].text.as_str(),
        );
        i += 1;
    }
    assert(all.take(i as int) =~= all);
}

/// How many turns of a conversation are the other person's.
pub open spec fn user_turns(turns: Seq<TurnView>) -> nat
    decreases turns.len(),
{
    if turns.len() == 0 {
        0
    } else {
        user_turns(turns.drop_last()) + (if turns.last().role is User {
            1nat
        } else {
            0nat
        })
    }
}

/// How many turns of a conversation are the other person's.
pub fn voice_user_turn_count(turns: &VecDeque<VoiceConversationTurn>) -> (n: usize)
    ensures
        n == user_turns(turn_views(turns@)),
{
    let ghost all = turn_views(turns@);
    let mut n: usize = 0;
    let mut i: usize = 0;
    assert(all.take(0) =~= Seq::<TurnView>::empty());
    while i < turns.len()
        invariant
            i <= turns@.len(),
            all == turn_views(turns@),
            n <= i,
            n == user_turns(all.take(i as int)),
        decreases turns@.len() - i,
    {
        proof {
            assert(all.take(i + 1).drop_last() =~= all.take(i as int));
        }
        match turns[i].role {
            VoiceConversationRole::User => {
                n += 1;
            },
            VoiceConversationRole::Assistant => {},
        }
        i += 1;
    }
    assert(all.take(i as int) =~= all);
    n
}

/// Whether the other person spoke last, and more often than they were answered.
pub open spec fn awaits_answer(turns: Seq<TurnView>, answered: nat) -> bool {
    turns.len() > 0 && turns.last().role is User && user_turns(turns) > answered
}

/// Tells whether the other person spoke last, and more often than they were
/// answered.
pub fn voice_conversation_needs_response(
    turns: &VecDeque<VoiceConversationTurn>,
    answered_user_turns: usize,
) -> (r: bool)
    ensures
        r == awaits_answer(turn_views(turns@), answered_user_turns as nat),
{
    if turns.len() == 0 {
        return false;
    }
    match turns[turns.len() - 1].role {
        VoiceConversationRole::User => voice_user_turn_count(turns) > answered_user_turns,
        VoiceConversationRole::Assistant => false,
    }
}

/// What the other person said last.
pub open spec fn latest_user_text(turns: Seq<TurnView>) -> Option<Seq<char>>
    decreases turns.len(),
{
    if turns.len() == 0 {
        None
    } else if turns.last().role is User {
        Some(turns.last().text)
    } else {
        latest_user_text(turns.drop_last())
    }
}

/// Whether a text says the same as the other person just did.
pub open spec fn echoes(text: Seq<char>, turns: Seq<TurnView>) -> bool {
    signature(text).len() > 0 && (match latest_user_text(turns) {
        Some(said) => signature(said) == signature(text),
        None => false,
    })
}

/// Tells whether a text says the same as the other person just did.
pub fn spoken_voice_echoes_latest_user_turn(
    text: &str,
    turns: &VecDeque<VoiceConversationTurn>,
) -> (r: bool)
    ensures
        r == echoes(text@, turn_views(turns@)),
{
    let reply = normalized_signature(text);
    if reply.as_str().unicode_len() == 0 {
        return false;
    }
    let ghost all = turn_views(turns@);
    let mut i: usize = turns.len();
    assert(all.take(i as int) =~= all);
    while i > 0
        invariant
            i <= turns@.len(),
            all == turn_views(turns@),
            reply@ == signature(text@),
            reply@.len() > 0,
            latest_user_text(all) == latest_user_text(all.take(i as int)),
        decreases i,
    {
        i -= 1;
        proof {
            assert(all.take(i + 1).drop_last() =~= all.take(i as int));
        }
        match turns[i].role {
            VoiceConversationRole::User => {
                let said = normalized_signature(turns[i].text.as_str());
                return same(said.as_str(), reply.as_str());
            },
            VoiceConversationRole::Assistant => {},
        }
    }
    assert(all.take(0) =~= Seq::<TurnView>::empty());
    false
}

/// The commentator's turns after one more: what the template leaked is cut off,
/// and only the end of a long turn is kept.
pub open spec fn after_comment(turns: Seq<Seq<char>>, text: Seq<char>) -> Seq<Seq<char>> {
    let kept = cut_at(trimmed(text), chat_markers());
    if kept.len() == 0 {
        turns
    } else {
        logged(turns, last_chars(kept, 1600), 4)
    }
}

/// Remembers a turn of the commentator.
pub fn remember_recent_voice_turn(turns: &mut VecDeque<String>, text: &str)
    ensures
        said_views(final(turns)@) == after_comment(said_views(old(turns)@), text@),
{
    let turn = truncate_at_chat_template_marker(trim(text));
    if turn.unicode_len() == 0 {
        return;
    }
    let kept = keep_last_chars(turn, VOICE_TURN_MAX_CHARS);
    push_limited(turns, kept, RECENT_VOICE_TURN_LIMIT);
    assert(said_views(turns@) =~= logged(said_views(old(turns)@), kept@, 4));
}

/// Remembers a thought.
pub fn remember_thought(thoughts: &mut VecDeque<VoiceObservation>, thought: &VoiceObservation)
    ensures
        thought_views(final(thoughts)@) == logged(thought_views(old(thoughts)@), thought@, 10),
{
    push_limited(thoughts, thought.clone(), RECENT_THOUGHT_LIMIT);
    assert(thought_views(thoughts@) =~= logged(thought_views(old(thoughts)@), thought@, 10));
}

/// Remembers a report on speech.
pub fn remember_speech_feedback(
    recent_speech_feedback: &mut VecDeque<VoiceSpeechFeedback>,
    feedback: VoiceSpeechFeedback,
)
    ensures
        feedback_views(final(recent_speech_feedback)@) == logged(
            feedback_views(old(recent_speech_feedback)@),
            feedback@,
            16,
        ),
{
    push_limited(recent_speech_feedback, feedback, RECENT_SPEECH_FEEDBACK_LIMIT);
    assert(feedback_views(recent_speech_feedback@) =~= logged(
        feedback_views(old(recent_speech_feedback)@),
        feedback@,
        16,
    ));
}

/// Whether no two experiences of a list have the same identifier.
pub open spec fn are_distinct(list: Seq<ExperienceRecordView>) -> bool {
    forall|i: int, j: int| 0 <= i < j < list.len() ==> (#[trigger] list[i]).id != (#[trigger] list[j]).id
}

/// However many experiences come, at most twelve are remembered, none twice, and
/// an experience drawn only from what the system made of itself is never added.
pub proof fn law_experience_memory_is_bounded_and_distinct(
    voice_ids: Seq<Id>,
    m: ExperienceMemory,
    list: Seq<ExperienceRecordView>,
)
    requires
        m.recent.len() <= 12,
        are_distinct(m.recent),
    ensures
        after_experiences(voice_ids, m, list).recent.len() <= 12,
        are_distinct(after_experiences(voice_ids, m, list).recent),
        forall|i: int|
            0 <= i < after_experiences(voice_ids, m, list).recent.len() ==> m.recent.contains(
                #[trigger] after_experiences(voice_ids, m, list).recent[i],
            ) || !is_own_feedback(voice_ids, after_experiences(voice_ids, m, list).recent[i]),
    decreases list.len(),
{
    if list.len() > 0 {
        law_experience_memory_is_bounded_and_distinct(voice_ids, m, list.drop_last());
        let before = after_experiences(voice_ids, m, list.drop_last());
        let e = list.last();
        if is_news(voice_ids, before, e) {
            let after = logged(before.recent, e, 12);
            assert forall|i: int, j: int| 0 <= i < j < after.len() implies (#[trigger] after[i]).id
                != (#[trigger] after[j]).id by {
                if j == after.len() - 1 {
                    if before.recent.len() == 12 {
                        assert(after[i] == before.recent[i + 1]);
                    } else {
                        assert(after[i] == before.recent[i]);
                    }
                }
            }
            assert forall|i: int| 0 <= i < after.len() implies m.recent.contains(#[trigger] after[i])
                || !is_own_feedback(voice_ids, after[i]) by {
                if i < after.len() - 1 {
                    if before.recent.len() == 12 {
                        assert(after[i] == before.recent[i + 1]);
                    } else {
                        assert(after[i] == before.recent[i]);
                    }
                }
            }
        }
    } else {
        assert forall|i: int| 0 <= i < m.recent.len() implies m.recent.contains(
            #[trigger] m.recent[i],
        ) by {}
    }
}

/// A sentence that was just heard, or found to have been, is not heard again.
pub proof fn law_remembered_sentence_is_not_heard_again(recent: Seq<AsrView>, u: AsrView)
    ensures
        !is_unheard(after_heard(recent, u), u),
{
    if is_unheard(recent, u) {
        let after = after_heard(recent, u);
        assert(after[after.len() - 1] == u);
    }
}

/// However the conversation goes, at most twenty-four turns are remembered, none
/// empty and none longer than sixteen hundred characters.
pub proof fn law_turns_are_bounded(turns: Seq<TurnView>, role: VoiceConversationRole, text: Seq<char>)
    requires
        turns.len() <= 24,
        forall|i: int| 0 <= i < turns.len() ==> 0 < (#[trigger] turns[i]).text.len() <= 1600,
    ensures
        after_turn(turns, role, text).len() <= 24,
        forall|i: int|
            0 <= i < after_turn(turns, role, text).len() ==> 0 < (#[trigger] after_turn(
                turns,
                role,
                text,
            )[i]).text.len() <= 1600,
{
}

/// A plain turn is remembered last, word for word and under its speaker; the
/// turns before it stay in order, but for the oldest where there is no room.
pub proof fn law_turn_is_remembered_as_said(
    turns: Seq<TurnView>,
    role: VoiceConversationRole,
    text: Seq<char>,
)
    requires
        is_plain(text),
        text.len() <= 1600,
        turns.len() <= 24,
    ensures
        turns.len() < 24 ==> after_turn(turns, role, text) == turns.push(TurnView { role, text }),
        turns.len() == 24 ==> after_turn(turns, role, text) == turns.skip(1).push(
            TurnView { role, text },
        ),
{
    law_plain_text_is_kept(text);
}

/// An answer is due exactly where the last turn is the other person's and they
/// have had more turns than were answered; each turn of theirs counts once.
pub proof fn law_answer_is_due_to_the_last_speaker(turns: Seq<TurnView>, turn: TurnView, answered: nat)
    ensures
        user_turns(Seq::<TurnView>::empty()) == 0,
        turn.role is User ==> user_turns(turns.push(turn)) == user_turns(turns) + 1,
        turn.role is Assistant ==> user_turns(turns.push(turn)) == user_turns(turns),
        awaits_answer(turns.push(turn), answered) <==> turn.role is User && user_turns(turns)
            >= answered,
        !awaits_answer(Seq::<TurnView>::empty(), answered),
{
    assert(turns.push(turn).drop_last() =~= turns);
}

/// A sentence that says something and was not heard before is remembered last,
/// and any other changes nothing.
pub proof fn law_new_sentence_is_remembered(recent: Seq<AsrView>, u: AsrView)
    requires
        recent.len() <= 24,
    ensures
        is_unheard(recent, u) ==> {
            &&& after_heard(recent, u).last() == u
            &&& recent.len() < 24 ==> after_heard(recent, u).drop_last() == recent
            &&& recent.len() == 24 ==> after_heard(recent, u).drop_last() == recent.skip(1)
        },
        !is_unheard(recent, u) ==> after_heard(recent, u) == recent,
        (exists|i: int|
            0 <= i < u.text.len() && !is_white_space(#[trigger] u.text[i])) && (forall|i: int|
            0 <= i < recent.len() ==> asr_signature(#[trigger] recent[i]) != asr_signature(u))
            <==> is_unheard(recent, u),
{
    law_blank_text_is_white_space_alone(u.text);
    let after = after_heard(recent, u);
    if is_unheard(recent, u) {
        if recent.len() < 24 {
            assert(after.drop_last() =~= recent);
        } else {
            assert(after.drop_last() =~= recent.skip(1));
        }
    }
}

/// An experience is remembered, last of all, where it says something in other
/// words than the last one that was remembered, is not yet among those remembered,
/// and is drawn from something besides what the system made of itself. Any other
/// changes nothing.
pub proof fn law_news_is_remembered(
    voice_ids: Seq<Id>,
    m: ExperienceMemory,
    e: ExperienceRecordView,
)
    requires
        m.recent.len() <= 12,
    ensures
        ({
            let after = after_experience(voice_ids, m, e);
            let fresh = {
                &&& forall|i: int| 0 <= i < m.recent.len() ==> (#[trigger] m.recent[i]).id != e.id
                &&& e.impression_ids.len() == 0 || exists|i: int|
                    0 <= i < e.impression_ids.len() && !voice_ids.contains(
                        #[trigger] e.impression_ids[i],
                    )
                &&& exists|i: int| 0 <= i < e.what.len() && !is_white_space(#[trigger] e.what[i])
                &&& signature(trimmed(e.what)).len() > 0
                &&& m.last != Some(signature(trimmed(e.what)))
            };
            &&& fresh ==> after.recent.last() == e && after.last == Some(
                signature(trimmed(e.what)),
            ) && (m.recent.len() < 12 ==> after.recent.drop_last() == m.recent) && (m.recent.len()
                == 12 ==> after.recent.drop_last() == m.recent.skip(1))
            &&& !fresh ==> after == m
        }),
{
    law_blank_text_is_white_space_alone(e.what);
    let after = after_experience(voice_ids, m, e);
    if is_news(voice_ids, m, e) {
        if m.recent.len() < 12 {
            assert(after.recent.drop_last() =~= m.recent);
        } else {
            assert(after.recent.drop_last() =~= m.recent.skip(1));
        }
    }
}

/// A reply echoes the other person exactly where it says the same as their last
/// turn, whatever the voice has said since; a text that says nothing echoes nobody.
pub proof fn law_echo_repeats_the_last_words_heard(
    turns: Seq<TurnView>,
    said: Seq<char>,
    since: Seq<TurnView>,
    text: Seq<char>,
)
    requires
        forall|i: int| 0 <= i < since.len() ==> (#[trigger] since[i]).role is Assistant,
    ensures
        echoes(
            text,
            turns.push(TurnView { role: VoiceConversationRole::User, text: said }) + since,
        ) <==> signature(text).len() > 0 && signature(said) == signature(text),
        !echoes(text, since),
    decreases since.len(),
{
    let first = turns.push(TurnView { role: VoiceConversationRole::User, text: said });
    if since.len() == 0 {
        assert(first + since =~= first);
    } else {
        let front = since.drop_last();
        assert forall|i: int| 0 <= i < front.len() implies (#[trigger] front[i]).role is Assistant by {
            assert(front[i] == since[i]);
        }
        law_echo_repeats_the_last_words_heard(turns, said, front, text);
        assert((first + since).drop_last() =~= first + front);
        assert((first + since).last() == since.last());
        assert(since[since.len() - 1].role is Assistant);
    }
}

/// A sentence of a clip is heard with its words and its moment, and with the numbers
/// that the record of the clip gives it.
pub proof fn law_sentence_of_a_clip_is_heard(
    clip: ClipView,
    start: u64,
    end: u64,
    index: usize,
    count: usize,
)
    requires
        field(clip.sensation.detail, "sequence_start"@) == Some(
            JsonView::Number(decimal(start as nat)),
        ),
        field(clip.sensation.detail, "sequence_end"@) == Some(JsonView::Number(decimal(end as nat))),
        field(clip.sensation.detail, "sentence_index"@) == Some(
            JsonView::Number(decimal(index as nat)),
        ),
        field(clip.sensation.detail, "sentence_count"@) == Some(
            JsonView::Number(decimal(count as nat)),
        ),
    ensures
        heard_in(clip) == (AsrView {
            observed_at: clip.sensation.observed_at,
            text: clip.text,
            sequence_start: start,
            sequence_end: end,
            sentence_index: Some(index),
            sentence_count: Some(count),
        }),
{
    lemma_decimal_reads_back(start as nat);
    lemma_decimal_reads_back(end as nat);
    lemma_decimal_reads_back(index as nat);
    lemma_decimal_reads_back(count as nat);
}

/// What the other person said last is the last of their turns, whatever was said to
/// them since.
pub proof fn law_latest_words_are_those_of_the_last_turn(
    before: Seq<TurnView>,
    said: TurnView,
    after: Seq<TurnView>,
)
    requires
        said.role is User,
        forall|i: int| 0 <= i < after.len() ==> (#[trigger] after[i]).role is Assistant,
    ensures
        latest_user_text(before + seq![said] + after) == Some(said.text),
    decreases after.len(),
{
    let turns = before + seq![said] + after;
    if after.len() == 0 {
        assert(turns.last() == said);
    } else {
        let less = after.drop_last();
        assert forall|i: int| 0 <= i < less.len() implies (#[trigger] less[i]).role is Assistant by {
            assert(less[i] == after[i]);
        }
        law_latest_words_are_those_of_the_last_turn(before, said, less);
        assert(after[after.len() - 1].role is Assistant);
        assert(turns.last() == after.last());
        assert(turns.drop_last() =~= before + seq![said] + less);
    }
}

/// A plain turn of the commentator is remembered word for word, as the last; of four
/// turns the oldest makes room for it.
pub proof fn law_comment_is_remembered_as_said(turns: Seq<Seq<char>>, text: Seq<char>)
    requires
        is_plain(text),
        text.len() <= 1600,
        turns.len() <= 4,
    ensures
        turns.len() < 4 ==> after_comment(turns, text) == turns + seq![text],
        turns.len() == 4 ==> after_comment(turns, text) == turns.drop_first() + seq![text],
{
    lemma_no_chat_marker(text);
    lemma_trimmed_noop(text, CharClass::WhiteSpace);
    assert(text.take(text.len() as int) =~= text);
    law_log_loses_only_the_oldest(turns, text, 4);
}

} // verus!
