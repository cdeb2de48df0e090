//! The commentator: a stream of thought that goes on by itself, and takes in
//! what happens.

use std::collections::VecDeque;
use vstd::prelude::*;

use crate::commentator::{commentator_repetition_detected, repetitive};
use crate::ident::{has_id, Id};
use crate::llm::{GenerationRequest, ImageView};
use crate::logs::logged;
use crate::messages::{
    BroadcastView, ExperienceRecord, ExperienceRecordView, ObservationView, RealTimeExperienceEvent,
    VoiceObservation,
};
use crate::realtime_experience::last_of;
use crate::text::{cut_at, optional};
use crate::time::Timestamp;
use crate::voice::{
    action_views, commit_internal_voice_observation, experience_ids, keeps_thought, observed,
    recent_experience_ids, voice_observation, ActionView, LogsView, Moment, SharedLogs, StepIds,
    VoiceAction, VOICE_RESTART_DELAY_MS,
};
use crate::voice_memory::{
    after_clips, after_comment, after_experience, after_experiences, after_heard, asr_views,
    experience_views, is_news, is_unheard, news, remember_recent_experience,
    remember_recent_finalized_asr_update, remember_recent_voice_turn, said_views,
    sync_recent_experiences, sync_recent_finalized_asr, thought_views, unheard, AsrView,
    ExperienceMemory, FinalizedAsrUpdate, SpeechFeedbackView, VoiceSpeechFeedback,
};
use crate::voice_prompt::{
    build_voice_messages, is_commentator_chat, live_update, live_voice_experiences_prompt,
    DaydreamWords, Knowledge, COMMENTATOR_DAYDREAM_ENABLED,
};
use crate::voice_text::{
    chat_markers, observation_in, speaks, voice_llm_stop_markers, voice_observation_text,
    voice_stops, voice_turn_or_silence, ThoughtView,
};

verus! {

/// Whether there is a commentator.
pub const COMMENTATOR_ENABLED: bool = false;

/// The length of a turn, in tokens.
pub const VOICE_MAX_TOKENS_PER_TURN: usize = 220;

/// The length of a daydream, in tokens.
pub const VOICE_DAYDREAM_MAX_TOKENS_PER_TURN: usize = 420;

/// A turn that is being generated.
#[derive(Debug, PartialEq, Eq)]
pub struct ActiveVoiceGeneration {
    /// The generation.
    pub generation_id: Id,
    /// The experiences that it is about.
    pub experience_ids: Vec<Id>,
    /// Whether it is a daydream.
    pub daydream_mode: bool,
}

/// What an [`ActiveVoiceGeneration`] is.
pub ghost struct ActiveView {
    pub generation_id: Id,
    pub experience_ids: Seq<Id>,
    pub daydream_mode: bool,
}

impl View for ActiveVoiceGeneration {
    type V = ActiveView;

    open spec fn view(&self) -> ActiveView {
        ActiveView {
            generation_id: self.generation_id,
            experience_ids: self.experience_ids@,
            daydream_mode: self.daydream_mode,
        }
    }
}

/// What turn is being generated, if any.
pub open spec fn active_view(active: Option<ActiveVoiceGeneration>) -> Option<ActiveView> {
    match active {
        Some(a) => Some(a@),
        None => None,
    }
}

/// The state of the commentator.
pub struct Commentator {
    /// The recent experiences.
    pub recent_experiences: VecDeque<ExperienceRecord>,
    /// The sentences heard.
    pub recent_finalized_asr: VecDeque<FinalizedAsrUpdate>,
    /// The recent thoughts.
    pub recent_thoughts: VecDeque<VoiceObservation>,
    /// Its own recent turns.
    pub recent_voice_turns: VecDeque<String>,
    /// The signature of the last experience that was news.
    pub last_experience_signature: Option<String>,
    /// The turn that is being generated.
    pub active: Option<ActiveVoiceGeneration>,
}

/// What a [`Commentator`] is.
pub ghost struct CommentatorView {
    pub experiences: ExperienceMemory,
    pub heard: Seq<AsrView>,
    pub thoughts: Seq<ObservationView>,
    pub turns: Seq<Seq<char>>,
    pub active: Option<ActiveView>,
}

impl View for Commentator {
    type V = CommentatorView;

    open spec fn view(&self) -> CommentatorView {
        CommentatorView {
            experiences: ExperienceMemory {
                recent: experience_views(self.recent_experiences@),
                last: optional(self.last_experience_signature),
            },
            heard: asr_views(self.recent_finalized_asr@),
            thoughts: thought_views(self.recent_thoughts@),
            turns: said_views(self.recent_voice_turns@),
            active: active_view(self.active),
        }
    }
}

/// A step: the state after it, and what is to be done.
pub ghost struct CommentatorStep {
    pub commentator: CommentatorView,
    pub actions: Seq<ActionView>,
}

/// The step that changes nothing.
pub open spec fn stays(c: CommentatorView) -> CommentatorStep {
    CommentatorStep { commentator: c, actions: Seq::empty() }
}

/// The state of a commentator that knows nothing.
pub open spec fn blank_commentator() -> CommentatorView {
    CommentatorView {
        experiences: ExperienceMemory { recent: Seq::empty(), last: None },
        heard: Seq::empty(),
        thoughts: Seq::empty(),
        turns: Seq::empty(),
        active: None,
    }
}

/// The commentator after it caught up with the logs.
pub open spec fn informed(c: CommentatorView, logs: LogsView) -> CommentatorView {
    CommentatorView {
        experiences: after_experiences(logs.voice_ids, c.experiences, last_of(logs.experiences, 12)),
        heard: after_clips(c.heard, logs.clips),
        ..c
    }
}

/// The step in which a turn is begun.
pub open spec fn begins(c: CommentatorView, generation_id: Id) -> CommentatorStep {
    CommentatorStep {
        commentator: CommentatorView {
            active: Some(
                ActiveView {
                    generation_id,
                    experience_ids: experience_ids(c.experiences.recent),
                    daydream_mode: COMMENTATOR_DAYDREAM_ENABLED && repetitive(c.turns),
                },
            ),
            ..c
        },
        actions: seq![
            ActionView::Broadcast { event: BroadcastView::VoiceResponseStart { generation_id } },
            ActionView::Start { generation_id },
        ],
    }
}

/// Whether the commentator is in a daydream.
pub open spec fn daydreams(c: CommentatorView) -> bool {
    match c.active {
        Some(a) => a.daydream_mode,
        None => false,
    }
}

/// The step in which a daydream is broken off: it is forgotten, and a new turn
/// begun.
pub open spec fn wakes(c: CommentatorView, generation_id: Id) -> CommentatorStep {
    let awake = begins(CommentatorView { turns: Seq::empty(), ..c }, generation_id);
    CommentatorStep {
        commentator: awake.commentator,
        actions: seq![
            ActionView::Cancel { generation_id: c.active->0.generation_id },
            ActionView::Broadcast {
                event: BroadcastView::VoiceResponseDone { generation_id: c.active->0.generation_id },
            },
        ] + awake.actions,
    }
}

/// Identifiers with those of some experiences that are not among them.
pub open spec fn with_ids(ids: Seq<Id>, list: Seq<ExperienceRecordView>) -> Seq<Id>
    decreases list.len(),
{
    if list.len() == 0 {
        ids
    } else {
        let rest = with_ids(ids, list.drop_last());
        if rest.contains(list.last().id) {
            rest
        } else {
            rest.push(list.last().id)
        }
    }
}

/// The step in which the turn that is being generated is told of new
/// experiences.
pub open spec fn takes_in(c: CommentatorView, list: Seq<ExperienceRecordView>) -> CommentatorStep {
    match c.active {
        Some(a) => CommentatorStep {
            commentator: CommentatorView {
                active: Some(
                    ActiveView { experience_ids: with_ids(a.experience_ids, list), ..a },
                ),
                ..c
            },
            actions: if list.len() == 0 {
                Seq::empty()
            } else {
                seq![ActionView::Append { generation_id: a.generation_id, text: live_update(list) }]
            },
        },
        None => stays(c),
    }
}

/// The step after some events were missed.
pub open spec fn regains(c: CommentatorView, logs: LogsView, generation_id: Id) -> CommentatorStep {
    let fresh = news(logs.voice_ids, c.experiences, last_of(logs.experiences, 12));
    let next = informed(c, logs);
    if (fresh.len() > 0 || unheard(c.heard, logs.clips).len() > 0) && daydreams(next) {
        wakes(next, generation_id)
    } else {
        takes_in(next, fresh)
    }
}

/// The step after an experience: one that is news ends a daydream, or is told to
/// the turn that is being generated, or starts one.
pub open spec fn lives(
    c: CommentatorView,
    e: ExperienceRecordView,
    logs: LogsView,
    generation_id: Id,
) -> CommentatorStep {
    if !is_news(logs.voice_ids, c.experiences, e) {
        stays(c)
    } else {
        let next = CommentatorView {
            experiences: after_experience(logs.voice_ids, c.experiences, e),
            ..c
        };
        if daydreams(next) {
            wakes(next, generation_id)
        } else if next.active is Some {
            takes_in(next, seq![e])
        } else {
            begins(informed(next, logs), generation_id)
        }
    }
}

/// The step after a sentence was heard: a new one ends a daydream, or starts a
/// turn if there is none.
pub open spec fn overhears(c: CommentatorView, u: AsrView, generation_id: Id) -> CommentatorStep {
    if !is_unheard(c.heard, u) {
        stays(c)
    } else {
        let next = CommentatorView { heard: after_heard(c.heard, u), ..c };
        if daydreams(next) {
            wakes(next, generation_id)
        } else if next.active is Some {
            stays(next)
        } else {
            begins(next, generation_id)
        }
    }
}

/// The step after something was told.
pub open spec fn notices(
    c: CommentatorView,
    event: BroadcastView,
    logs: LogsView,
    generation_id: Id,
) -> CommentatorStep {
    match event {
        BroadcastView::Experience { generation_id: _, experience } => lives(
            c,
            experience,
            logs,
            generation_id,
        ),
        BroadcastView::AsrTranscript {
            observed_at,
            text,
            sequence_start,
            sequence_end,
            is_final,
            sentence_index,
            sentence_count,
        } => if is_final {
            overhears(
                c,
                AsrView {
                    observed_at,
                    text,
                    sequence_start,
                    sequence_end,
                    sentence_index,
                    sentence_count,
                },
                generation_id,
            )
        } else {
            stays(c)
        },
        _ => stays(c),
    }
}

/// Whether a generation is the one that the commentator waits for.
pub open spec fn awaits(c: CommentatorView, generation_id: Id) -> bool {
    match c.active {
        Some(a) => a.generation_id == generation_id,
        None => false,
    }
}

/// The step after a part of a turn came.
pub open spec fn utters(c: CommentatorView, generation_id: Id, text: Seq<char>) -> CommentatorStep {
    CommentatorStep {
        commentator: c,
        actions: if awaits(c, generation_id) {
            seq![
                ActionView::Broadcast {
                    event: BroadcastView::VoiceResponseToken { generation_id, text },
                },
            ]
        } else {
            Seq::empty()
        },
    }
}

/// A turn that says something, or silence.
pub open spec fn spoken_or_silent(text: Seq<char>) -> Seq<char> {
    if speaks(cut_at(text, chat_markers()), false) {
        text
    } else {
        Seq::empty()
    }
}

/// The step after a turn was generated: it is remembered and its thought kept,
/// and after a little while the next begins.
pub open spec fn completes(
    c: CommentatorView,
    generation_id: Id,
    generated: Option<Seq<char>>,
    at: Moment,
    ids: StepIds,
) -> CommentatorStep {
    if !awaits(c, generation_id) {
        stays(c)
    } else {
        let idle = CommentatorView { active: None, ..c };
        let last = seq![
            ActionView::Broadcast { event: BroadcastView::VoiceResponseDone { generation_id } },
            ActionView::Wait { millis: 250 },
            ActionView::Resume,
        ];
        match generated {
            None => CommentatorStep { commentator: idle, actions: last },
            Some(text) => {
                let said = spoken_or_silent(text);
                let remembered = CommentatorView { turns: after_comment(c.turns, said), ..idle };
                match observation_in(said) {
                    Some(thought) => {
                        let o = observed(
                            ids.observation,
                            at.now,
                            thought,
                            c.active->0.experience_ids,
                        );
                        CommentatorStep {
                            commentator: CommentatorView {
                                thoughts: logged(c.thoughts, o, 10),
                                ..remembered
                            },
                            actions: keeps_thought(
                                generation_id,
                                o,
                                ids.first,
                                "commentator.internal_thought"@,
                                "Commentator"@,
                            ) + last,
                        }
                    },
                    None => CommentatorStep { commentator: remembered, actions: last },
                }
            },
        }
    }
}

/// Adds the identifiers of some experiences that are not among those known.
pub fn remember_voice_experience_ids(ids: &mut Vec<Id>, experiences: &Vec<ExperienceRecord>)
    ensures
        final(ids)@ == with_ids(old(ids)@, experience_views(experiences@)),
{
    let ghost before = ids@;
    let ghost all = experience_views(experiences@);
    let mut i: usize = 0;
    assert(all.take(0) =~= Seq::<ExperienceRecordView>::empty());
    while i < experiences.len()
        invariant
            i <= experiences@.len(),
            all == experience_views(experiences@),
            ids@ == with_ids(before, all.take(i as int)),
        decreases experiences@.len() - i,
    {
        proof {
            assert(all.take(i + 1).drop_last() =~= all.take(i as int));
        }
        if !has_id(ids, experiences[i].id) {
            ids.push(experiences[i].id);
        }
        i += 1;
    }
    assert(all.take(i as int) =~= all);
}

impl Commentator {
    /// A commentator that knows what the logs hold, and its first turn.
    pub fn new(logs: &SharedLogs, generation_id: Id) -> (r: (Commentator, Vec<VoiceAction>))
        ensures
            (CommentatorStep { commentator: r.0@, actions: action_views(r.1@) }) == begins(
                informed(blank_commentator(), logs@),
                generation_id,
            ),
    {
        let mut c = Commentator {
            recent_experiences: VecDeque::new(),
            recent_finalized_asr: VecDeque::new(),
            recent_thoughts: VecDeque::new(),
            recent_voice_turns: VecDeque::new(),
            last_experience_signature: None,
            active: None,
        };
        assert(c@.experiences.recent =~= Seq::<ExperienceRecordView>::empty());
        assert(c@.heard =~= Seq::<AsrView>::empty());
        assert(c@.thoughts =~= Seq::<ObservationView>::empty());
        assert(c@.turns =~= Seq::<Seq<char>>::empty());
        assert(c@ == blank_commentator());
        let actions = c.resume(logs, generation_id);
        (c, actions)
    }

    /// Begins the next turn, once the logs are caught up with.
    pub fn resume(&mut self, logs: &SharedLogs, generation_id: Id) -> (actions: Vec<VoiceAction>)
        ensures
            (CommentatorStep { commentator: final(self)@, actions: action_views(actions@) })
                == begins(informed(old(self)@, logs@), generation_id),
    {
        sync_recent_experiences(
            logs.experiences,
            logs.voice_impression_ids,
            &mut self.recent_experiences,
            &mut self.last_experience_signature,
        );
        sync_recent_finalized_asr(logs.clips, &mut self.recent_finalized_asr);
        let mut actions: Vec<VoiceAction> = Vec::new();
        assert(action_views(actions@) =~= Seq::<ActionView>::empty());
        self.start_voice_generation(generation_id, &mut actions);
        assert(action_views(actions@) =~= begins(
            informed(old(self)@, logs@),
            generation_id,
        ).actions);
        actions
    }

    fn start_voice_generation(&mut self, generation_id: Id, actions: &mut Vec<VoiceAction>)
        ensures
            final(self)@ == begins(old(self)@, generation_id).commentator,
            action_views(final(actions)@) == action_views(old(actions)@) + begins(
                old(self)@,
                generation_id,
            ).actions,
    {
        let ghost before = action_views(actions@);
        let ghost step = begins(self@, generation_id);
        let daydream_mode = COMMENTATOR_DAYDREAM_ENABLED && commentator_repetition_detected(
            &self.recent_voice_turns,
        );
        let experience_ids = recent_experience_ids(&self.recent_experiences);
        self.active = Some(ActiveVoiceGeneration { generation_id, experience_ids, daydream_mode });
        actions.push(
            VoiceAction::Broadcast {
                event: RealTimeExperienceEvent::VoiceResponseStart { generation_id },
            },
        );
        actions.push(VoiceAction::Start { generation_id });
        assert(action_views(actions@) =~= before + step.actions);
    }

    fn in_daydream(&self) -> (r: bool)
        ensures
            r == daydreams(self@),
    {
        match &self.active {
            Some(a) => a.daydream_mode,
            None => false,
        }
    }

    /// Breaks off a daydream, if there is one.
    fn interrupt_commentator_daydream_for_alert(
        &mut self,
        generation_id: Id,
        actions: &mut Vec<VoiceAction>,
    ) -> (r: bool)
        ensures
            r == daydreams(old(self)@),
            r ==> final(self)@ == wakes(old(self)@, generation_id).commentator,
            r ==> action_views(final(actions)@) == action_views(old(actions)@) + wakes(
                old(self)@,
                generation_id,
            ).actions,
            !r ==> final(self)@ == old(self)@ && action_views(final(actions)@) == action_views(
                old(actions)@,
            ),
    {
        if !self.in_daydream() {
            return false;
        }
        let ghost before = action_views(actions@);
        let ghost step = wakes(self@, generation_id);
        let current = self.active.take().unwrap();
        actions.push(VoiceAction::Cancel { generation_id: current.generation_id });
        actions.push(
            VoiceAction::Broadcast {
                event: RealTimeExperienceEvent::VoiceResponseDone {
                    generation_id: current.generation_id,
                },
            },
        );
        self.recent_voice_turns = VecDeque::new();
        assert(self@.turns =~= Seq::<Seq<char>>::empty());
        self.start_voice_generation(generation_id, actions);
        assert(action_views(actions@) =~= before + step.actions);
        true
    }

    /// Tells the turn that is being generated of new experiences.
    fn take_in(&mut self, experiences: &Vec<ExperienceRecord>, actions: &mut Vec<VoiceAction>)
        ensures
            final(self)@ == takes_in(old(self)@, experience_views(experiences@)).commentator,
            action_views(final(actions)@) == action_views(old(actions)@) + takes_in(
                old(self)@,
                experience_views(experiences@),
            ).actions,
    {
        let ghost before = action_views(actions@);
        let ghost step = takes_in(self@, experience_views(experiences@));
        let mut current = match self.active.take() {
            Some(current) => current,
            None => {
                assert(action_views(actions@) =~= before + step.actions);
                return;
            },
        };
        remember_voice_experience_ids(&mut current.experience_ids, experiences);
        if experiences.len() > 0 {
            let text = live_voice_experiences_prompt(experiences);
            actions.push(VoiceAction::Append { generation_id: current.generation_id, text });
        }
        self.active = Some(current);
        assert(action_views(actions@) =~= before + step.actions);
    }

    /// What the turn that has just begun is to continue.
    pub fn request(&self, now: Timestamp, words: &DaydreamWords) -> (r: GenerationRequest)
        ensures
            r@.prompt == Seq::<char>::empty(),
            r@.images == Seq::<ImageView>::empty(),
            r@.max_tokens == (if daydreams(self@) {
                Some(420usize)
            } else {
                Some(220usize)
            }),
            r@.stop == voice_stops(),
            is_commentator_chat(
                r@.messages,
                now,
                (Knowledge {
                    experiences: self@.experiences.recent,
                    heard: self@.heard,
                    thoughts: self@.thoughts,
                    feedback: Seq::empty(),
                }),
                self@.turns,
                *words,
            ),
    {
        let none: VecDeque<VoiceSpeechFeedback> = VecDeque::new();
        assert(crate::voice_memory::feedback_views(none@) =~= Seq::<SpeechFeedbackView>::empty());
        let messages = build_voice_messages(
            now,
            &self.recent_experiences,
            &self.recent_finalized_asr,
            &self.recent_thoughts,
            &self.recent_voice_turns,
            &none,
            words,
        );
        let max_tokens: usize = if self.in_daydream() {
            VOICE_DAYDREAM_MAX_TOKENS_PER_TURN
        } else {
            VOICE_MAX_TOKENS_PER_TURN
        };
        let r = GenerationRequest {
            prompt: String::new(),
            messages,
            images: Vec::new(),
            max_tokens: Some(max_tokens),
            stop: voice_llm_stop_markers(),
        };
        assert(r@.images =~= Seq::<ImageView>::empty());
        assert(r@.prompt =~= Seq::<char>::empty());
        r
    }

    /// The step after some events were missed.
    pub fn on_lag(&mut self, logs: &SharedLogs, generation_id: Id) -> (actions: Vec<VoiceAction>)
        ensures
            (CommentatorStep { commentator: final(self)@, actions: action_views(actions@) })
                == regains(old(self)@, logs@, generation_id),
    {
        let ghost step = regains(self@, logs@, generation_id);
        let mut actions: Vec<VoiceAction> = Vec::new();
        assert(action_views(actions@) =~= Seq::<ActionView>::empty());
        let recovered = sync_recent_experiences(
            logs.experiences,
            logs.voice_impression_ids,
            &mut self.recent_experiences,
            &mut self.last_experience_signature,
        );
        let recovered_asr = sync_recent_finalized_asr(logs.clips, &mut self.recent_finalized_asr);
        assert(recovered@.len() == experience_views(recovered@).len());
        assert(recovered_asr@.len() == asr_views(recovered_asr@).len());
        if (recovered.len() > 0 || recovered_asr.len() > 0)
            && self.interrupt_commentator_daydream_for_alert(generation_id, &mut actions) {
            assert(action_views(actions@) =~= step.actions);
            return actions;
        }
        self.take_in(&recovered, &mut actions);
        assert(action_views(actions@) =~= step.actions);
        actions
    }

    fn live(&mut self, experience: &ExperienceRecord, logs: &SharedLogs, generation_id: Id) -> (actions:
        Vec<VoiceAction>)
        ensures
            (CommentatorStep { commentator: final(self)@, actions: action_views(actions@) })
                == lives(old(self)@, experience@, logs@, generation_id),
    {
        let ghost step = lives(self@, experience@, logs@, generation_id);
        let mut actions: Vec<VoiceAction> = Vec::new();
        assert(action_views(actions@) =~= Seq::<ActionView>::empty());
        if !remember_recent_experience(
            logs.voice_impression_ids,
            &mut self.recent_experiences,
            experience,
            &mut self.last_experience_signature,
        ) {
            return actions;
        }
        if self.interrupt_commentator_daydream_for_alert(generation_id, &mut actions) {
            assert(action_views(actions@) =~= step.actions);
            return actions;
        }
        if self.active.is_some() {
            let mut one: Vec<ExperienceRecord> = Vec::new();
            one.push(experience.clone());
            assert(experience_views(one@) =~= seq![experience@]);
            self.take_in(&one, &mut actions);
            assert(action_views(actions@) =~= step.actions);
            actions
        } else {
            self.resume(logs, generation_id)
        }
    }

    fn overhear(&mut self, update: &FinalizedAsrUpdate, generation_id: Id) -> (actions: Vec<
        VoiceAction,
    >)
        ensures
            (CommentatorStep { commentator: final(self)@, actions: action_views(actions@) })
                == overhears(old(self)@, update@, generation_id),
    {
        let ghost step = overhears(self@, update@, generation_id);
        let mut actions: Vec<VoiceAction> = Vec::new();
        assert(action_views(actions@) =~= Seq::<ActionView>::empty());
        if !remember_recent_finalized_asr_update(&mut self.recent_finalized_asr, update) {
            return actions;
        }
        if self.interrupt_commentator_daydream_for_alert(generation_id, &mut actions) {
            assert(action_views(actions@) =~= step.actions);
            return actions;
        }
        if self.active.is_none() {
            self.start_voice_generation(generation_id, &mut actions);
            assert(action_views(actions@) =~= step.actions);
        }
        actions
    }

    /// The step after something was told.
    pub fn on_event(
        &mut self,
        event: &RealTimeExperienceEvent,
        logs: &SharedLogs,
        generation_id: Id,
    ) -> (actions: Vec<VoiceAction>)
        ensures
            (CommentatorStep { commentator: final(self)@, actions: action_views(actions@) })
                == notices(old(self)@, event@, logs@, generation_id),
    {
        match event {
            RealTimeExperienceEvent::Experience { generation_id: _, experience } => {
                return self.live(experience, logs, generation_id);
            },
            RealTimeExperienceEvent::AsrTranscript {
                observed_at,
                text,
                sequence_start,
                sequence_end,
                is_final,
                sentence_index,
                sentence_count,
            } => {
                if *is_final {
                    let update = FinalizedAsrUpdate {
                        observed_at: *observed_at,
                        text: text.clone(),
                        sequence_start: *sequence_start,
                        sequence_end: *sequence_end,
                        sentence_index: *sentence_index,
                        sentence_count: *sentence_count,
                    };
                    return self.overhear(&update, generation_id);
                }
            },
            _ => {},
        }
        let actions: Vec<VoiceAction> = Vec::new();
        assert(action_views(actions@) =~= Seq::<ActionView>::empty());
        actions
    }

    fn is_awaiting(&self, generation_id: Id) -> (r: bool)
        ensures
            r == awaits(self@, generation_id),
    {
        match &self.active {
            Some(a) => a.generation_id == generation_id,
            None => false,
        }
    }

    /// The step after a part of a turn came.
    pub fn on_token(&mut self, generation_id: Id, text: String) -> (actions: Vec<VoiceAction>)
        ensures
            (CommentatorStep { commentator: final(self)@, actions: action_views(actions@) })
                == utters(old(self)@, generation_id, text@),
    {
        let mut actions: Vec<VoiceAction> = Vec::new();
        if self.is_awaiting(generation_id) {
            actions.push(
                VoiceAction::Broadcast {
                    event: RealTimeExperienceEvent::VoiceResponseToken { generation_id, text },
                },
            );
        }
        assert(action_views(actions@) =~= utters(self@, generation_id, text@).actions);
        actions
    }

    /// The step after a turn was generated, or failed. A last action asks for
    /// [`Commentator::resume`].
    pub fn on_done(
        &mut self,
        generation_id: Id,
        result: &Result<String, String>,
        at: Moment,
        ids: StepIds,
    ) -> (actions: Vec<VoiceAction>)
        ensures
            (CommentatorStep { commentator: final(self)@, actions: action_views(actions@) })
                == completes(
                old(self)@,
                generation_id,
                (match *result {
                    Ok(text) => Some(text@),
                    Err(_) => None,
                }),
                at,
                ids,
            ),
    {
        let mut actions: Vec<VoiceAction> = Vec::new();
        assert(action_views(actions@) =~= Seq::<ActionView>::empty());
        if !self.is_awaiting(generation_id) {
            return actions;
        }
        let current = self.active.take().unwrap();
        match result {
            Ok(text) => {
                let said = voice_turn_or_silence(text.clone());
                remember_recent_voice_turn(&mut self.recent_voice_turns, said.as_str());
                match voice_observation_text(said.as_str()) {
                    None => {},
                    Some(thought) => {
                        let observation = voice_observation(
                            ids.observation,
                            at.now,
                            &thought,
                            &current.experience_ids,
                        );
                        commit_internal_voice_observation(
                            generation_id,
                            observation,
                            ids.first,
                            "commentator.internal_thought",
                            "Commentator",
                            &mut self.recent_thoughts,
                            &mut actions,
                        );
                    },
                }
            },
            Err(_) => {},
        }
        let ghost kept = action_views(actions@);
        actions.push(
            VoiceAction::Broadcast {
                event: RealTimeExperienceEvent::VoiceResponseDone { generation_id },
            },
        );
        actions.push(VoiceAction::Wait { millis: VOICE_RESTART_DELAY_MS });
        actions.push(VoiceAction::Resume);
        assert(action_views(actions@) =~= kept + seq![
            ActionView::Broadcast { event: BroadcastView::VoiceResponseDone { generation_id } },
            ActionView::Wait { millis: 250 },
            ActionView::Resume,
        ]);
        assert(kept + seq![
            ActionView::Broadcast { event: BroadcastView::VoiceResponseDone { generation_id } },
            ActionView::Wait { millis: 250 },
            ActionView::Resume,
        ] =~= completes(
            old(self)@,
            generation_id,
            (match *result {
                Ok(text) => Some(text@),
                Err(_) => None,
            }),
            at,
            ids,
        ).actions);
        actions
    }
}

/// While daydreams are not enabled, nothing that the commentator begins is one.
pub proof fn law_no_daydream_while_disabled(c: CommentatorView, generation_id: Id)
    requires
        !COMMENTATOR_DAYDREAM_ENABLED,
    ensures
        !daydreams(begins(c, generation_id).commentator),
{
}

/// The stream does not end: once a turn was generated, or failed, a last action
/// asks for the next; and what is then begun is awaited.
pub proof fn law_stream_goes_on(
    c: CommentatorView,
    generation_id: Id,
    generated: Option<Seq<char>>,
    at: Moment,
    ids: StepIds,
    logs: LogsView,
    next_id: Id,
)
    requires
        awaits(c, generation_id),
    ensures
        completes(c, generation_id, generated, at, ids).actions.last() is Resume,
        awaits(
            begins(
                informed(completes(c, generation_id, generated, at, ids).commentator, logs),
                next_id,
            ).commentator,
            next_id,
        ),
{
}

/// An experience that is news begins a turn where none is under way, about all the
/// experiences that are remembered; a turn under way goes on and is told of it. An
/// experience that is no news changes nothing.
pub proof fn law_news_begins_or_joins_a_turn(
    c: CommentatorView,
    e: ExperienceRecordView,
    logs: LogsView,
    generation_id: Id,
)
    ensures
        ({
            let step = lives(c, e, logs, generation_id);
            &&& !is_news(logs.voice_ids, c.experiences, e) ==> step.commentator == c
                && step.actions.len() == 0
            &&& is_news(logs.voice_ids, c.experiences, e) && c.active is None ==> {
                &&& step.actions == seq![
                    ActionView::Broadcast {
                        event: BroadcastView::VoiceResponseStart { generation_id },
                    },
                    ActionView::Start { generation_id },
                ]
                &&& step.commentator.active matches Some(a) && a.generation_id == generation_id
                    && a.experience_ids.len() == step.commentator.experiences.recent.len()
                    && forall|i: int|
                    0 <= i < a.experience_ids.len() ==> #[trigger] a.experience_ids[i]
                        == step.commentator.experiences.recent[i].id
            }
            &&& is_news(logs.voice_ids, c.experiences, e) && (c.active matches Some(a)
                && !a.daydream_mode) ==> {
                &&& step.actions.len() == 1
                &&& step.actions[0] matches ActionView::Append { generation_id: g, text } && g
                    == c.active->0.generation_id && text == live_update(seq![e])
                &&& step.commentator.active matches Some(b) && b.generation_id
                    == c.active->0.generation_id && b.experience_ids.contains(e.id) && forall|id: Id|
                    #[trigger]
                    c.active->0.experience_ids.contains(id) ==> b.experience_ids.contains(id)
                &&& step.commentator.experiences.recent.last() == e
            }
        }),
{
    if let Some(a) = c.active {
        let one = seq![e];
        assert(one.drop_last() =~= Seq::<ExperienceRecordView>::empty());
        let ids = with_ids(a.experience_ids, one);
        assert(with_ids(a.experience_ids, one.drop_last()) == a.experience_ids);
        assert forall|id: Id| #[trigger] a.experience_ids.contains(id) implies ids.contains(id) by {
            let i = choose|i: int| 0 <= i < a.experience_ids.len() && a.experience_ids[i] == id;
            assert(ids[i] == id);
        }
        if !a.experience_ids.contains(e.id) {
            assert(ids[ids.len() - 1] == e.id);
        }
    }
}

/// A finished sentence that is new begins a turn where none is under way, and is
/// remembered either way; one that is not finished, or was heard before, changes
/// nothing.
pub proof fn law_new_sentence_begins_a_turn(
    c: CommentatorView,
    u: AsrView,
    logs: LogsView,
    generation_id: Id,
    is_final: bool,
)
    requires
        c.heard.len() <= 24,
    ensures
        ({
            let event = BroadcastView::AsrTranscript {
                observed_at: u.observed_at,
                text: u.text,
                sequence_start: u.sequence_start,
                sequence_end: u.sequence_end,
                is_final,
                sentence_index: u.sentence_index,
                sentence_count: u.sentence_count,
            };
            let step = notices(c, event, logs, generation_id);
            &&& !is_final || !is_unheard(c.heard, u) ==> step.commentator == c && step.actions.len()
                == 0
            &&& is_final && is_unheard(c.heard, u) ==> step.commentator.heard.last() == u
            &&& is_final && is_unheard(c.heard, u) && c.active is None ==> {
                &&& step.actions == seq![
                    ActionView::Broadcast {
                        event: BroadcastView::VoiceResponseStart { generation_id },
                    },
                    ActionView::Start { generation_id },
                ]
                &&& step.commentator.active is Some
                &&& step.commentator.active->0.generation_id == generation_id
            }
            &&& is_final && is_unheard(c.heard, u) && (c.active matches Some(a)
                && !a.daydream_mode) ==> step.actions.len() == 0 && step.commentator.active
                == c.active
        }),
{
}

/// A part of the turn under way is told as it came, and a part of any other is not.
pub proof fn law_part_of_the_turn_is_told(c: CommentatorView, generation_id: Id, text: Seq<char>)
    ensures
        utters(c, generation_id, text).commentator == c,
        (c.active matches Some(a) && a.generation_id == generation_id) ==> utters(
            c,
            generation_id,
            text,
        ).actions == seq![
            ActionView::Broadcast {
                event: BroadcastView::VoiceResponseToken { generation_id, text },
            },
        ],
        !(c.active matches Some(a) && a.generation_id == generation_id) ==> utters(
            c,
            generation_id,
            text,
        ).actions.len() == 0,
{
}

/// What a turn says is kept as a thought, word for word and about the experiences
/// that the turn was told of: it is logged and told, and then it is told that the
/// turn is done.
pub proof fn law_turn_is_kept_as_a_thought(
    c: CommentatorView,
    a: ActiveView,
    text: Seq<char>,
    thought: ThoughtView,
    at: Moment,
    ids: StepIds,
)
    requires
        c.active == Some(a),
        c.thoughts.len() <= 10,
        spoken_or_silent(text) == text,
        observation_in(text) == Some(thought),
    ensures
        ({
            let step = completes(c, a.generation_id, Some(text), at, ids);
            let o = step.commentator.thoughts.last();
            &&& step.commentator.active is None
            &&& o.text == thought.text
            &&& o.emoji == thought.emoji
            &&& o.experience_ids == a.experience_ids
            &&& o.observed_at == at.now
            &&& step.actions.contains(ActionView::Observe { observation: o })
            &&& step.actions.contains(
                ActionView::Broadcast {
                    event: BroadcastView::VoiceObservation {
                        generation_id: a.generation_id,
                        observation: o,
                    },
                },
            )
            &&& step.actions.contains(
                ActionView::Broadcast {
                    event: BroadcastView::VoiceResponseDone { generation_id: a.generation_id },
                },
            )
            &&& step.actions.last() == ActionView::Resume
        }),
{
    let step = completes(c, a.generation_id, Some(text), at, ids);
    let o = observed(ids.observation, at.now, thought, a.experience_ids);
    let list = keeps_thought(
        a.generation_id,
        o,
        ids.first,
        "commentator.internal_thought"@,
        "Commentator"@,
    );
    assert(step.actions[0] == list[0]);
    assert(step.actions[2] == list[2]);
    assert(step.actions[4] == (ActionView::Broadcast {
        event: BroadcastView::VoiceResponseDone { generation_id: a.generation_id },
    }));
}

} // verus!
