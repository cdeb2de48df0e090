//! Jobs for a language model: their order, how they are shown, and what the
//! events of a generation lead to.

use std::collections::VecDeque;
use vstd::prelude::*;

use crate::chars::{control, is_control, is_white_space};
use crate::decimal::{
    decimal, decimal_text, lemma_decimal_reads_back, parse_unsigned, unsigned_upto,
};
use crate::ident::Id;
use crate::llama_cpp::{is_on, switched_on};
use crate::llm::{
    event_views, message_views, polled_view, EngineCall, EventView, GenerationId,
    GenerationRequest, LlmEngine, LlmError, LlmEvent, MessageView, RequestView,
};
use crate::messages::{BroadcastView, RealTimeExperienceEvent};
use crate::seqs::flat;
use crate::text::{
    blank, chars_of, contains, is_blank, join, joined, law_blank_text_is_white_space_alone, occurs,
    optional, same, skip, take, texts, trim_end, trimmed_end,
};
use crate::time::Timestamp;

verus! {

/// The tokens of a context, by default.
pub const DEFAULT_LLM_CONTEXT_SIZE: u32 = 65_536;

/// The tokens of the voice's context, by default.
pub const DEFAULT_VOICE_CONTEXT_SIZE: u32 = 8_192;

/// The pause after a mark of punctuation, in nanoseconds.
pub const VOICE_PUNCTUATION_PAUSE_NANOS: u64 = 90_000_000;

/// How a model is loaded for a scheduler.
#[derive(Debug, PartialEq, Eq)]
pub struct LlmSchedulerConfig {
    /// Where the model lies.
    pub model_path: String,
    /// Where the multimodal projector lies, if there is one.
    pub projector_path: Option<String>,
    /// The tokens of the context.
    pub context_size: u32,
    /// The most tokens of an answer.
    pub max_tokens: usize,
    /// The layers to run on the GPU; all of them by default.
    pub gpu_layers: Option<u32>,
    /// Whether the GPU is left alone.
    pub cpu_only: bool,
}

/// A context size as it was set: a number that is not zero, or the default.
pub open spec fn context_size_of(value: Option<Seq<char>>, default: u32) -> u32 {
    match value {
        Some(text) => match unsigned_upto(text, u32::MAX as nat) {
            Some(n) => if n > 0 {
                n as u32
            } else {
                default
            },
            None => default,
        },
        None => default,
    }
}

/// A number as it was set, if it is one.
pub open spec fn layers_of(value: Option<Seq<char>>) -> Option<u32> {
    match value {
        Some(text) => match unsigned_upto(text, u32::MAX as nat) {
            Some(n) => Some(n as u32),
            None => None,
        },
        None => None,
    }
}

/// A text as it was set, unless it is empty.
pub open spec fn unless_empty(value: Option<Seq<char>>) -> Option<Seq<char>> {
    match value {
        Some(text) => if text.len() == 0 {
            None
        } else {
            Some(text)
        },
        None => None,
    }
}

/// A context size as it was set, or the default.
pub fn llm_context_size(value: &Option<String>, default: u32) -> (n: u32)
    ensures
        n == context_size_of(optional(*value), default),
{
    match value {
        Some(text) => match parse_unsigned(text.as_str(), u32::MAX as u64) {
            Some(n) => if n > 0 {
                n as u32
            } else {
                default
            },
            None => default,
        },
        None => default,
    }
}

/// The layers for the GPU as they were set.
pub fn voice_llm_gpu_layers(value: &Option<String>) -> (r: Option<u32>)
    ensures
        r == layers_of(optional(*value)),
{
    match value {
        Some(text) => match parse_unsigned(text.as_str(), u32::MAX as u64) {
            Some(n) => Some(n as u32),
            None => None,
        },
        None => None,
    }
}

/// A path as it was set, unless it is empty.
pub fn path_unless_empty(value: &Option<String>) -> (r: Option<String>)
    ensures
        optional(r) == unless_empty(optional(*value)),
{
    match value {
        Some(text) => if text.as_str().unicode_len() == 0 {
            None
        } else {
            Some(text.clone())
        },
        None => None,
    }
}

/// What is set for the voice's own model.
#[derive(Debug)]
pub struct VoiceModelSettings {
    /// Where the model lies.
    pub model: Option<String>,
    /// Where the projector lies.
    pub projector: Option<String>,
    /// The tokens of the context.
    pub context_size: Option<String>,
    /// The layers for the GPU.
    pub gpu_layers: Option<String>,
    /// Whether the GPU is left alone.
    pub cpu_only: Option<String>,
}

impl LlmSchedulerConfig {
    /// The configuration of the main scheduler.
    pub fn main(
        model_path: String,
        projector_path: Option<String>,
        context_size: &Option<String>,
    ) -> (r: LlmSchedulerConfig)
        ensures
            r.model_path == model_path,
            r.projector_path == projector_path,
            r.context_size == context_size_of(optional(*context_size), 65_536),
            r.max_tokens == 256,
            r.gpu_layers is None,
            !r.cpu_only,
    {
        LlmSchedulerConfig {
            model_path,
            projector_path,
            context_size: llm_context_size(context_size, DEFAULT_LLM_CONTEXT_SIZE),
            max_tokens: 256,
            gpu_layers: None,
            cpu_only: false,
        }
    }

    /// The configuration of the voice's own scheduler.
    pub fn dedicated_voice(model_path: String, settings: &VoiceModelSettings) -> (r:
        LlmSchedulerConfig)
        ensures
            r.model_path@ == (match unless_empty(optional(settings.model)) {
                Some(path) => path,
                None => model_path@,
            }),
            optional(r.projector_path) == unless_empty(optional(settings.projector)),
            r.context_size == context_size_of(optional(settings.context_size), 8_192),
            r.max_tokens == 96,
            r.gpu_layers == layers_of(optional(settings.gpu_layers)),
            r.cpu_only == is_on(optional(settings.cpu_only)),
    {
        LlmSchedulerConfig {
            model_path: match path_unless_empty(&settings.model) {
                Some(path) => path,
                None => model_path,
            },
            projector_path: path_unless_empty(&settings.projector),
            context_size: llm_context_size(&settings.context_size, DEFAULT_VOICE_CONTEXT_SIZE),
            max_tokens: 96,
            gpu_layers: voice_llm_gpu_layers(&settings.gpu_layers),
            cpu_only: switched_on(&settings.cpu_only),
        }
    }
}

/// What a job is for.
#[derive(Debug, Clone, Copy, PartialEq, Eq, Structural)]
pub enum LlmJobKind {
    /// Describing a frame.
    Vision,
    /// Describing what frames have in common.
    FieldVision,
    /// Summing up a situation.
    ContextFrame,
    /// Understanding what happens.
    RealtimeExperience,
    /// Commenting on it.
    Commentator,
    /// Speaking.
    Voice,
}

impl LlmJobKind {
    /// The name of the kind.
    pub open spec fn name(self) -> Seq<char> {
        match self {
            LlmJobKind::Vision => "vision"@,
            LlmJobKind::FieldVision => "field_vision"@,
            LlmJobKind::ContextFrame => "context_frame"@,
            LlmJobKind::RealtimeExperience => "realtime_experience"@,
            LlmJobKind::Commentator => "commentator"@,
            LlmJobKind::Voice => "voice"@,
        }
    }

    /// The rank of the kind; the lowest comes first.
    pub open spec fn rank(self) -> u8 {
        match self {
            LlmJobKind::Vision => 2,
            LlmJobKind::FieldVision => 2,
            _ => 1,
        }
    }

    /// The name of the kind.
    pub fn as_str(self) -> (s: &'static str)
        ensures
            s@ == self.name(),
    {
        match self {
            LlmJobKind::Vision => "vision",
            LlmJobKind::FieldVision => "field_vision",
            LlmJobKind::ContextFrame => "context_frame",
            LlmJobKind::RealtimeExperience => "realtime_experience",
            LlmJobKind::Commentator => "commentator",
            LlmJobKind::Voice => "voice",
        }
    }

    /// The rank of the kind; the lowest comes first.
    pub fn priority(self) -> (n: u8)
        ensures
            n == self.rank(),
    {
        match self {
            LlmJobKind::Vision => 2,
            LlmJobKind::FieldVision => 2,
            _ => 1,
        }
    }
}

// ---------------------------------------------------------------------------
// The queue.

/// A job that waits, with what it needs to run.
pub struct SchedulerCommand<T> {
    /// What it is for.
    pub kind: LlmJobKind,
    /// What it needs.
    pub job: T,
}

/// The place of the job that comes next: the first of the lowest rank.
pub open spec fn is_next<T>(pending: Seq<SchedulerCommand<T>>, n: int) -> bool {
    &&& 0 <= n < pending.len()
    &&& forall|i: int|
        0 <= i < n ==> pending[n].kind.rank() < (#[trigger] pending[i]).kind.rank()
    &&& forall|i: int|
        n < i < pending.len() ==> pending[n].kind.rank() <= (#[trigger] pending[i]).kind.rank()
}

/// Takes the next job: the first of those with the lowest rank.
pub fn pop_next_command<T>(pending: &mut VecDeque<SchedulerCommand<T>>) -> (r: Option<
    SchedulerCommand<T>,
>)
    ensures
        old(pending)@.len() == 0 ==> r is None && final(pending)@ == old(pending)@,
        old(pending)@.len() > 0 ==> exists|n: int| #[trigger]
            is_next(old(pending)@, n) && r == Some(old(pending)@[n]) && final(pending)@ == old(
                pending,
            )@.remove(n),
{
    let len: usize = pending.len();
    if len == 0 {
        return None;
    }
    let mut n: usize = 0;
    let mut i: usize = 1;
    while i < len
        invariant
            n < i <= len,
            len == pending@.len(),
            pending@ == old(pending)@,
            forall|k: int|
                0 <= k < n ==> pending@[n as int].kind.rank() < (#[trigger] pending@[k]).kind.rank(),
            forall|k: int|
                n < k < i ==> pending@[n as int].kind.rank() <= (
                #[trigger] pending@[k]).kind.rank(),
        decreases len - i,
    {
        if pending[i].kind.priority() < pending[n].kind.priority() {
            n = i;
        }
        i += 1;
    }
    assert(is_next(old(pending)@, n as int));
    pending.remove(n)
}

/// The job that comes next is the only one that can: of the jobs of the lowest
/// rank, the one that has waited longest.
pub proof fn law_next_job_is_oldest_of_lowest_rank<T>(
    pending: Seq<SchedulerCommand<T>>,
    n: int,
    m: int,
)
    requires
        is_next(pending, n),
        is_next(pending, m),
    ensures
        n == m,
        forall|i: int|
            0 <= i < pending.len() && (#[trigger] pending[i]).kind.rank() == pending[n].kind.rank()
                ==> n <= i,
{
    if n < m {
        assert(pending[m].kind.rank() < pending[n].kind.rank());
    } else if m < n {
        assert(pending[n].kind.rank() < pending[m].kind.rank());
    }
}

// ---------------------------------------------------------------------------
// Controlling a generation.

/// What is asked of a running generation.
#[derive(Debug)]
pub struct LlmStreamControl {
    /// What is to be added to its prompt, in turn.
    pub appends: VecDeque<String>,
    /// Whether it pauses.
    pub paused: bool,
    /// Whether it is to end.
    pub cancelled: bool,
}

/// The texts of a queue.
pub open spec fn queue_texts(queue: Seq<String>) -> Seq<Seq<char>> {
    queue.map_values(|s: String| s@)
}

impl LlmStreamControl {
    /// Nothing is asked.
    pub fn new() -> (r: LlmStreamControl)
        ensures
            queue_texts(r.appends@) == Seq::<Seq<char>>::empty(),
            !r.paused,
            !r.cancelled,
    {
        let r = LlmStreamControl { appends: VecDeque::new(), paused: false, cancelled: false };
        assert(queue_texts(r.appends@) =~= Seq::<Seq<char>>::empty());
        r
    }

    /// Asks to add to the prompt; a blank text is nothing.
    pub fn append_prompt(&mut self, text: &str)
        ensures
            queue_texts(final(self).appends@) == (if is_blank(text@) {
                queue_texts(old(self).appends@)
            } else {
                queue_texts(old(self).appends@).push(text@)
            }),
            final(self).paused == old(self).paused,
            final(self).cancelled == old(self).cancelled,
    {
        if blank(text) {
            return;
        }
        self.appends.push_back(text.to_owned());
        assert(queue_texts(self.appends@) =~= queue_texts(old(self).appends@).push(text@));
    }

    /// Asks to pause.
    pub fn pause(&mut self)
        ensures
            *final(self) == (LlmStreamControl { paused: true, ..*old(self) }),
    {
        self.paused = true;
    }

    /// Asks to go on.
    pub fn resume(&mut self)
        ensures
            *final(self) == (LlmStreamControl { paused: false, ..*old(self) }),
    {
        self.paused = false;
    }

    /// Tells whether the generation pauses.
    pub fn is_paused(&self) -> (r: bool)
        ensures
            r == self.paused,
    {
        self.paused
    }

    /// Asks to end.
    pub fn cancel(&mut self)
        ensures
            *final(self) == (LlmStreamControl { cancelled: true, ..*old(self) }),
    {
        self.cancelled = true;
    }

    /// Whether it is to end, told once for each time that this was asked.
    pub fn take_cancel(&mut self) -> (r: bool)
        ensures
            r == old(self).cancelled,
            *final(self) == (LlmStreamControl { cancelled: false, ..*old(self) }),
    {
        let r = self.cancelled;
        self.cancelled = false;
        r
    }

    /// Takes what is to be added to the prompt, in turn.
    pub fn take_appends(&mut self) -> (list: Vec<String>)
        ensures
            texts(list@) == queue_texts(old(self).appends@),
            final(self).appends@.len() == 0,
            final(self).paused == old(self).paused,
            final(self).cancelled == old(self).cancelled,
    {
        let ghost all = queue_texts(self.appends@);
        let mut list: Vec<String> = Vec::new();
        let mut i: usize = 0;
        assert(texts(list@) =~= all.take(0));
        while i < self.appends.len()
            invariant
                i <= self.appends@.len(),
                all == queue_texts(self.appends@),
                texts(list@) == all.take(i as int),
                self.paused == old(self).paused,
                self.cancelled == old(self).cancelled,
            decreases self.appends@.len() - i,
        {
            let ghost before = texts(list@);
            list.push(self.appends[i].clone());
            assert(texts(list@) =~= before.push(all[i as int]));
            assert(all.take(i + 1) =~= all.take(i as int).push(all[i as int]));
            i += 1;
        }
        assert(all.take(i as int) =~= all);
        self.appends.clear();
        list
    }
}

impl Default for LlmStreamControl {
    fn default() -> (r: LlmStreamControl)
        ensures
            queue_texts(r.appends@) == Seq::<Seq<char>>::empty(),
            !r.paused,
            !r.cancelled,
    {
        LlmStreamControl::new()
    }
}

// ---------------------------------------------------------------------------
// Showing a request.

/// The characters of some messages.
pub open spec fn message_chars(messages: Seq<MessageView>) -> nat
    decreases messages.len(),
{
    if messages.len() == 0 {
        0
    } else {
        message_chars(messages.drop_last()) + messages.last().role.len()
            + messages.last().content.len()
    }
}

/// A count, as far as a machine can tell it.
pub open spec fn counted(n: nat) -> usize {
    if n > usize::MAX {
        usize::MAX
    } else {
        n as usize
    }
}

/// The characters of a request.
pub fn request_prompt_chars(request: &GenerationRequest) -> (n: usize)
    ensures
        n == counted(
            if request@.messages.len() == 0 {
                request@.prompt.len()
            } else {
                message_chars(request@.messages)
            },
        ),
{
    if request.messages.len() == 0 {
        return request.prompt.as_str().unicode_len();
    }
    let ghost all = message_views(request.messages@);
    let mut n: usize = 0;
    let mut i: usize = 0;
    assert(all.take(0) =~= Seq::<MessageView>::empty());
    while i < request.messages.len()
        invariant
            i <= request.messages@.len(),
            all == message_views(request.messages@),
            n == counted(message_chars(all.take(i as int))),
        decreases request.messages@.len() - i,
    {
        proof {
            assert(all.take(i + 1).drop_last() =~= all.take(i as int));
            assert(all.take(i + 1).last() == request.messages@[i as int]@);
        }
        let role: usize = request.messages[i].role.as_str().unicode_len();
        let content: usize = request.messages[i].content.as_str().unicode_len();
        n = saturating_sum(saturating_sum(n, role), content);
        i += 1;
    }
    assert(all.take(i as int) =~= all);
    n
}

/// The sum of two counts, as far as a machine can tell it.
pub fn saturating_sum(a: usize, b: usize) -> (n: usize)
    ensures
        n == counted((a + b) as nat),
{
    if b > usize::MAX - a {
        usize::MAX
    } else {
        a + b
    }
}

/// A message as it is shown.
pub open spec fn shown_message(m: MessageView) -> Seq<char> {
    m.role + ": "@ + m.content
}

/// A request as it is shown, in full.
pub open spec fn shown_request(r: RequestView) -> Seq<char> {
    if r.messages.len() == 0 {
        r.prompt
    } else {
        joined(r.messages.map_values(|m: MessageView| shown_message(m)), "\n\n"@)
    }
}

/// The position behind the first line of a text.
pub open spec fn line_end(s: Seq<char>) -> int
    decreases s.len(),
{
    if s.len() == 0 {
        0
    } else if s[0] == '\n' {
        1
    } else {
        1 + line_end(s.skip(1))
    }
}

/// Whether a line opens a timeline.
pub open spec fn opens_timeline(line: Seq<char>) -> bool {
    trimmed_end(line) == "Timeline:"@ || trimmed_end(line) == "Evidence timeline:"@
}

/// The lines of a text that fit into `room` characters. A line that does not is
/// left out within a timeline, and cut elsewhere.
pub open spec fn fitting(s: Seq<char>, room: nat, in_timeline: bool) -> Seq<char>
    decreases s.len(),
{
    let n = line_end(s);
    if s.len() == 0 || n <= 0 || n > s.len() {
        Seq::empty()
    } else if n > room {
        if in_timeline {
            Seq::empty()
        } else {
            s.take(room as int) + "..."@
        }
    } else {
        s.take(n) + fitting(
            s.skip(n),
            (room - n) as nat,
            in_timeline || opens_timeline(s.take(n)),
        )
    }
}

/// How a text begins, in `max` characters.
pub open spec fn preview_of(source: Seq<char>, max: nat) -> Seq<char> {
    if source.len() <= max {
        source
    } else if occurs(source, "Timeline:\n"@) || occurs(source, "Evidence timeline:\n"@) {
        fitting(source, max, false)
    } else {
        source.take(max as int) + "..."@
    }
}

proof fn lemma_line_end(s: Seq<char>, n: int)
    requires
        0 <= n <= s.len(),
        forall|i: int| 0 <= i < n ==> s[i] != '\n',
    ensures
        line_end(s) == n + line_end(s.skip(n)),
        line_end(s) <= s.len(),
        s.len() > 0 ==> line_end(s) > 0,
    decreases s.len(),
{
    if n > 0 {
        let rest = s.skip(1);
        assert forall|i: int| 0 <= i < n - 1 implies rest[i] != '\n' by {
            assert(rest[i] == s[i + 1]);
        }
        lemma_line_end(rest, n - 1);
        assert(rest.skip(n - 1) =~= s.skip(n));
    } else {
        assert(s.skip(0) =~= s);
        if s.len() > 0 && s[0] != '\n' {
            lemma_line_end(s.skip(1), 0);
        }
    }
}

/// The position behind the first line.
fn find_line_end(s: &str) -> (n: usize)
    ensures
        n == line_end(s@),
        n <= s@.len(),
        s@.len() > 0 ==> n > 0,
{
    let chars = chars_of(s);
    let mut n: usize = 0;
    while n < chars.len() && chars[n] != '\n'
        invariant
            n <= chars@.len(),
            chars@ == s@,
            forall|i: int| 0 <= i < n ==> s@[i] != '\n',
        decreases chars@.len() - n,
    {
        n += 1;
    }
    proof {
        lemma_line_end(s@, n as int);
        if n < s@.len() {
            assert(s@.skip(n as int)[0] == s@[n as int]);
        }
    }
    if n < chars.len() {
        n + 1
    } else {
        n
    }
}

/// The lines of a text that fit into `max_chars` characters.
pub fn line_bounded_prompt_preview(source: &str, max_chars: usize) -> (preview: String)
    ensures
        preview@ == fitting(source@, max_chars as nat, false),
{
    let mut preview = String::new();
    let mut rest: &str = source;
    let mut room: usize = max_chars;
    let mut in_timeline = false;
    let mut left: usize = rest.unicode_len();
    assert(preview@ + fitting(rest@, room as nat, in_timeline) =~= fitting(
        source@,
        max_chars as nat,
        false,
    ));
    while left > 0
        invariant
            left == rest@.len(),
            preview@ + fitting(rest@, room as nat, in_timeline) == fitting(
                source@,
                max_chars as nat,
                false,
            ),
        decreases left,
    {
        let n: usize = find_line_end(rest);
        if n > room {
            if !in_timeline {
                preview.push_str(take(rest, room));
                preview.push_str("...");
            }
            assert(preview@ =~= fitting(source@, max_chars as nat, false));
            return preview;
        }
        let line = take(rest, n);
        let ghost before = preview@;
        preview.push_str(line);
        let opens = same(trim_end(line), "Timeline:") || same(
            trim_end(line),
            "Evidence timeline:",
        );
        let next = skip(rest, n);
        proof {
            assert(fitting(rest@, room as nat, in_timeline) == line@ + fitting(
                next@,
                (room - n) as nat,
                in_timeline || opens,
            ));
            assert(preview@ + fitting(next@, (room - n) as nat, in_timeline || opens) =~= before
                + fitting(rest@, room as nat, in_timeline));
        }
        if opens {
            in_timeline = true;
        }
        room = room - n;
        rest = next;
        left = rest.unicode_len();
    }
    assert(fitting(rest@, room as nat, in_timeline) =~= Seq::<char>::empty());
    assert(preview@ =~= fitting(source@, max_chars as nat, false));
    preview
}

/// How a request begins, in `max_chars` characters.
pub fn request_prompt_preview(request: &GenerationRequest, max_chars: usize) -> (preview: String)
    ensures
        preview@ == preview_of(shown_request(request@), max_chars as nat),
{
    let source = if request.messages.len() == 0 {
        request.prompt.clone()
    } else {
        let ghost all = request@.messages.map_values(|m: MessageView| shown_message(m));
        let mut list: Vec<String> = Vec::new();
        let mut i: usize = 0;
        while i < request.messages.len()
            invariant
                i <= request.messages@.len(),
                all == request@.messages.map_values(|m: MessageView| shown_message(m)),
                list@.len() == i,
                forall|k: int| 0 <= k < i ==> (#[trigger] list@[k])@ == all[k],
            decreases request.messages@.len() - i,
        {
            assert(request@.messages[i as int] == request.messages@[i as int]@);
            let mut s = request.messages[i].role.clone();
            s.push_str(": ");
            s.push_str(request.messages[i].content.as_str());
            list.push(s);
            i += 1;
        }
        assert(texts(list@) =~= all);
        join(&list, "\n\n")
    };
    if source.as_str().unicode_len() <= max_chars {
        return source;
    }
    if contains(source.as_str(), "Timeline:\n") || contains(
        source.as_str(),
        "Evidence timeline:\n",
    ) {
        return line_bounded_prompt_preview(source.as_str(), max_chars);
    }
    let mut preview = take(source.as_str(), max_chars).to_owned();
    preview.push_str("...");
    preview
}

/// A preview is no longer than asked for, but for an ellipsis.
pub proof fn law_preview_is_bounded(source: Seq<char>, max: nat)
    ensures
        preview_of(source, max).len() <= max + 3,
{
    reveal_strlit("...");
    lemma_fitting(source, max, false);
}

proof fn lemma_fitting(s: Seq<char>, room: nat, in_timeline: bool)
    ensures
        fitting(s, room, in_timeline).len() <= room + 3,
    decreases s.len(),
{
    reveal_strlit("...");
    let n = line_end(s);
    if s.len() == 0 || n <= 0 || n > s.len() {
    } else if n > room {
    } else {
        lemma_fitting(
            s.skip(n),
            (room - n) as nat,
            in_timeline || opens_timeline(s.take(n)),
        );
    }
}

// ---------------------------------------------------------------------------
// A running job.

/// How a job ended.
#[derive(Debug, PartialEq, Eq)]
pub enum Conclusion {
    /// With an answer.
    Completed(String),
    /// With a failure: how it is told, and how it is returned.
    Failed {
        /// How it is told to those who listen, if it is.
        told: Option<String>,
        /// How it is returned to who asked.
        error: String,
    },
}

/// What a [`Conclusion`] is.
pub ghost enum ConclusionView {
    Completed(Seq<char>),
    Failed { told: Option<Seq<char>>, error: Seq<char> },
}

impl View for Conclusion {
    type V = ConclusionView;

    open spec fn view(&self) -> ConclusionView {
        match self {
            Conclusion::Completed(text) => ConclusionView::Completed(text@),
            Conclusion::Failed { told, error } => ConclusionView::Failed {
                told: optional(*told),
                error: error@,
            },
        }
    }
}

/// An optional conclusion.
pub open spec fn conclusion_view(c: Option<Conclusion>) -> Option<ConclusionView> {
    match c {
        Some(conclusion) => Some(conclusion@),
        None => None,
    }
}

/// A job that the model works on.
#[derive(Debug)]
pub struct JobRun {
    /// The job.
    pub id: Id,
    /// What it is for.
    pub kind: LlmJobKind,
    /// The answer so far.
    pub generated: String,
    /// The events of text so far.
    pub token_events: usize,
}

/// What a [`JobRun`] is.
pub ghost struct JobView {
    pub id: Id,
    pub kind: LlmJobKind,
    pub generated: Seq<char>,
    pub token_events: usize,
}

impl View for JobRun {
    type V = JobView;

    open spec fn view(&self) -> JobView {
        JobView {
            id: self.id,
            kind: self.kind,
            generated: self.generated@,
            token_events: self.token_events,
        }
    }
}

/// A failure that is told and returned in the same words.
pub open spec fn failure(error: Seq<char>) -> ConclusionView {
    ConclusionView::Failed { told: Some(error), error }
}

/// The end of a job whose answer is complete: an empty one is a failure.
pub open spec fn completion(generated: Seq<char>) -> ConclusionView {
    if is_blank(generated) {
        failure("LLM generated an empty response"@)
    } else {
        ConclusionView::Completed(generated)
    }
}

/// How the limit of tokens is told where nothing was generated.
pub open spec fn capped(generated_tokens: nat) -> Seq<char> {
    "LLM job hit max token cap after "@ + decimal(generated_tokens) + " tokens before completion"@
}

/// The state of a job after some events: the job, the texts that were passed on,
/// and how it ended, if it did. Nothing that follows the end counts.
pub ghost struct RunView {
    pub job: JobView,
    pub passed: Seq<Seq<char>>,
    pub end: Option<ConclusionView>,
}

/// What one event of a generation does.
pub open spec fn after_event(run: RunView, event: EventView) -> RunView {
    let job = run.job;
    if run.end is Some {
        run
    } else {
        match event {
            EventView::Token(text) => RunView {
                job: JobView {
                    generated: job.generated + text,
                    token_events: counted((job.token_events + 1) as nat),
                    ..job
                },
                passed: run.passed.push(text),
                end: None,
            },
            EventView::Completed => RunView { end: Some(completion(job.generated)), ..run },
            EventView::Cancelled => RunView {
                end: Some(
                    ConclusionView::Failed {
                        told: Some("cancelled"@),
                        error: "LLM job "@ + job.kind.name() + " was cancelled"@,
                    },
                ),
                ..run
            },
            EventView::MaxTokens(n) => RunView {
                end: Some(
                    if is_blank(job.generated) {
                        failure(capped(n as nat))
                    } else {
                        completion(job.generated)
                    },
                ),
                ..run
            },
            EventView::Error(message) => RunView { end: Some(failure(message)), ..run },
        }
    }
}

/// What some events of a generation do, in turn.
pub open spec fn after_events(job: JobView, events: Seq<EventView>) -> RunView
    decreases events.len(),
{
    if events.len() == 0 {
        RunView { job, passed: Seq::empty(), end: None }
    } else {
        after_event(after_events(job, events.drop_last()), events.last())
    }
}

fn failed(error: String) -> (c: Conclusion)
    ensures
        c@ == failure(error@),
{
    Conclusion::Failed { told: Some(error.clone()), error }
}

/// Whether a job that ended with an answer ended with all that was generated,
/// and that is not blank.
pub open spec fn is_settled(job: JobView, end: Option<ConclusionView>) -> bool {
    match end {
        Some(ConclusionView::Completed(text)) => text == job.generated && !is_blank(text),
        _ => true,
    }
}

/// What polling a generation leads to.
pub open spec fn polled_run(job: JobView, polled: Result<Seq<EventView>, Seq<char>>) -> RunView {
    match polled {
        Err(error) => RunView { job, passed: Seq::empty(), end: Some(failure(error)) },
        Ok(events) => after_events(job, events),
    }
}

/// Whether a generation had anything to report.
pub open spec fn is_reporting(polled: Result<Seq<EventView>, Seq<char>>) -> bool {
    match polled {
        Err(_) => false,
        Ok(events) => events.len() > 0,
    }
}

/// What polling a generation leads to after it refused an addition to its prompt:
/// where it had ended by itself, its end counts; else the refusal does. Where it
/// cannot be polled, the job ends without a word.
pub open spec fn refused_run(
    job: JobView,
    polled: Result<Seq<EventView>, Seq<char>>,
    refusal: Seq<char>,
) -> RunView {
    match polled {
        Err(error) => RunView {
            job,
            passed: Seq::empty(),
            end: Some(ConclusionView::Failed { told: None, error }),
        },
        Ok(events) => {
            let run = after_events(job, events);
            match run.end {
                Some(_) => run,
                None => RunView {
                    end: Some(
                        ConclusionView::Failed {
                            told: Some(refusal),
                            error: "failed to append live prompt input"@,
                        },
                    ),
                    ..run
                },
            }
        },
    }
}

/// The calls that hand texts to an engine that takes them.
pub open spec fn accepted(id: GenerationId, list: Seq<Seq<char>>) -> Seq<EngineCall> {
    list.map_values(|text: Seq<char>| EngineCall::Append { id, text, answer: Ok(()) })
}

/// The calls that hand a text to an engine that refuses it.
pub open spec fn refused(
    id: GenerationId,
    text: Seq<char>,
    refusal: Seq<char>,
    polled: Result<Seq<EventView>, Seq<char>>,
) -> Seq<EngineCall> {
    seq![
        EngineCall::Append { id, text, answer: Err(refusal) },
        EngineCall::Poll { id, answer: polled },
    ]
}

/// Whether some texts were handed to an engine that refused one of them, and was
/// then polled.
pub open spec fn is_refusal(
    id: GenerationId,
    list: Seq<Seq<char>>,
    before: Seq<EngineCall>,
    after: Seq<EngineCall>,
    job: JobView,
    run: RunView,
    k: int,
    refusal: Seq<char>,
    polled: Result<Seq<EventView>, Seq<char>>,
) -> bool {
    &&& 0 <= k < list.len()
    &&& after == before + accepted(id, list.take(k)) + refused(id, list[k], refusal, polled)
    &&& run == refused_run(job, polled, refusal)
}

/// Whether some texts were handed to an engine, in turn, up to the first that it
/// refused.
pub open spec fn is_handed(
    id: GenerationId,
    list: Seq<Seq<char>>,
    before: Seq<EngineCall>,
    after: Seq<EngineCall>,
    job: JobView,
    run: RunView,
) -> bool {
    if run.end is None {
        after == before + accepted(id, list) && run == (RunView {
            job,
            passed: Seq::empty(),
            end: None,
        })
    } else {
        exists|k: int, refusal: Seq<char>, polled: Result<Seq<EventView>, Seq<char>>| #[trigger]
            is_refusal(id, list, before, after, job, run, k, refusal, polled)
    }
}

/// Whether a generation was looked at: it was polled once, and what it reported was
/// taken.
pub open spec fn is_looked_at(
    id: GenerationId,
    before: Seq<EngineCall>,
    after: Seq<EngineCall>,
    job: JobView,
    run: RunView,
    polled: Result<Seq<EventView>, Seq<char>>,
) -> bool {
    after == before.push(EngineCall::Poll { id, answer: polled }) && run == polled_run(job, polled)
}

/// What polling leads to keeps the job, and the answer is what was passed on.
proof fn lemma_polled(job: JobView, polled: Result<Seq<EventView>, Seq<char>>)
    ensures
        polled_run(job, polled).job.id == job.id,
        polled_run(job, polled).job.kind == job.kind,
        polled_run(job, polled).job.generated == job.generated + flat(
            polled_run(job, polled).passed,
        ),
        is_settled(polled_run(job, polled).job, polled_run(job, polled).end),
{
    match polled {
        Err(_) => {
            assert(job.generated + flat(polled_run(job, polled).passed) =~= job.generated);
        },
        Ok(events) => {
            lemma_same_job(job, events);
            law_passed_texts_make_the_answer(job, events);
            lemma_settled(job, events);
        },
    }
}

/// So does what polling leads to after a refusal.
proof fn lemma_refused(
    job: JobView,
    polled: Result<Seq<EventView>, Seq<char>>,
    refusal: Seq<char>,
)
    ensures
        refused_run(job, polled, refusal).job.id == job.id,
        refused_run(job, polled, refusal).job.kind == job.kind,
        refused_run(job, polled, refusal).job.generated == job.generated + flat(
            refused_run(job, polled, refusal).passed,
        ),
        is_settled(
            refused_run(job, polled, refusal).job,
            refused_run(job, polled, refusal).end,
        ),
{
    lemma_polled(job, polled);
}

/// What came of looking at a running generation.
#[derive(Debug)]
pub struct Look {
    /// The texts to pass on, in turn.
    pub passed: Vec<String>,
    /// How the job ended, if it did.
    pub end: Option<Conclusion>,
    /// Whether the generation had anything to report.
    pub reported: bool,
}

/// What came of handing texts to a running generation.
#[derive(Debug)]
pub struct Pass {
    /// The texts to pass on, in turn.
    pub passed: Vec<String>,
    /// How the job ended, if it did.
    pub end: Option<Conclusion>,
    /// Whether there is time to rest before the next look.
    pub rest: bool,
}

/// Ends a job that the engine refused to start or to go on with.
pub fn failed_engine(error: LlmError) -> (c: Conclusion)
    ensures
        c@ == failure(error.message@),
{
    failed(error.message)
}

/// Ends a job whose answer is complete.
pub fn complete_generation(generated: &str) -> (c: Conclusion)
    ensures
        c@ == completion(generated@),
{
    if blank(generated) {
        return failed("LLM generated an empty response".to_owned());
    }
    Conclusion::Completed(generated.to_owned())
}

impl JobRun {
    /// A job that begins.
    pub fn new(id: Id, kind: LlmJobKind) -> (r: JobRun)
        ensures
            r@ == (JobView { id, kind, generated: Seq::empty(), token_events: 0 }),
    {
        JobRun { id, kind, generated: String::new(), token_events: 0 }
    }

    /// Takes the events of a generation: the texts to pass on, in turn, and how
    /// the job ended, if it did.
    pub fn handle_llm_events(&mut self, events: &Vec<LlmEvent>) -> (r: (
        Vec<String>,
        Option<Conclusion>,
    ))
        ensures
            ({
                let run = after_events(old(self)@, event_views(events@));
                &&& final(self)@ == run.job
                &&& texts(r.0@) == run.passed
                &&& conclusion_view(r.1) == run.end
            }),
    {
        let ghost start = self@;
        let ghost all = event_views(events@);
        let mut passed: Vec<String> = Vec::new();
        let mut end: Option<Conclusion> = None;
        let mut i: usize = 0;
        assert(all.take(0) =~= Seq::<EventView>::empty());
        assert(texts(passed@) =~= Seq::<Seq<char>>::empty());
        while i < events.len()
            invariant
                i <= events@.len(),
                all == event_views(events@),
                self@ == after_events(start, all.take(i as int)).job,
                texts(passed@) == after_events(start, all.take(i as int)).passed,
                conclusion_view(end) == after_events(start, all.take(i as int)).end,
            decreases events@.len() - i,
        {
            proof {
                assert(all.take(i + 1).drop_last() =~= all.take(i as int));
                assert(all.take(i + 1).last() == events@[i as int]@);
            }
            if end.is_none() {
                match &events[i] {
                    LlmEvent::Token { text } => {
                        let ghost before = texts(passed@);
                        self.token_events = saturating_sum(self.token_events, 1);
                        self.generated.push_str(text.as_str());
                        passed.push(text.clone());
                        assert(texts(passed@) =~= before.push(text@));
                    },
                    LlmEvent::Completed => {
                        end = Some(complete_generation(self.generated.as_str()));
                    },
                    LlmEvent::Cancelled => {
                        let mut error = "LLM job ".to_owned();
                        error.push_str(self.kind.as_str());
                        error.push_str(" was cancelled");
                        end = Some(Conclusion::Failed {
                            told: Some("cancelled".to_owned()),
                            error,
                        });
                    },
                    LlmEvent::MaxTokens { generated_tokens } => {
                        if blank(self.generated.as_str()) {
                            let mut error = "LLM job hit max token cap after ".to_owned();
                            error.push_str(decimal_text(*generated_tokens as u128).as_str());
                            error.push_str(" tokens before completion");
                            end = Some(failed(error));
                        } else {
                            end = Some(complete_generation(self.generated.as_str()));
                        }
                    },
                    LlmEvent::Error { message } => {
                        end = Some(failed(message.clone()));
                    },
                }
            }
            i += 1;
        }
        assert(all.take(i as int) =~= all);
        (passed, end)
    }

    /// Takes what polling gave after an addition to the prompt was refused: the
    /// texts to pass on, and how the job ended. Where the generation had ended by
    /// itself, its end counts; else the refusal does.
    pub fn after_append_failure(
        &mut self,
        polled: Result<Vec<LlmEvent>, LlmError>,
        refusal: LlmError,
    ) -> (r: (Vec<String>, Conclusion))
        ensures
            ({
                let run = refused_run(old(self)@, polled_view(polled), refusal.message@);
                &&& final(self)@ == run.job
                &&& texts(r.0@) == run.passed
                &&& Some(r.1@) == run.end
            }),
    {
        match polled {
            Err(e) => {
                let passed: Vec<String> = Vec::new();
                assert(texts(passed@) =~= Seq::<Seq<char>>::empty());
                (passed, Conclusion::Failed { told: None, error: e.message })
            },
            Ok(events) => {
                let (passed, end) = self.handle_llm_events(&events);
                match end {
                    Some(end) => (passed, end),
                    None => (
                        passed,
                        Conclusion::Failed {
                            told: Some(refusal.message),
                            error: "failed to append live prompt input".to_owned(),
                        },
                    ),
                }
            },
        }
    }

    /// Adds texts to the prompt of a generation, in turn, until the engine
    /// refuses one; it is then polled once more. Tells whether there were any,
    /// what to pass on, and how the job ended, if it did.
    pub fn append_control_prompts<E: LlmEngine>(
        &mut self,
        engine: &mut E,
        generation: GenerationId,
        appends: Vec<String>,
    ) -> (r: (bool, Vec<String>, Option<Conclusion>))
        ensures
            r.0 == (appends@.len() > 0),
            is_handed(
                generation,
                texts(appends@),
                old(engine).calls(),
                final(engine).calls(),
                old(self)@,
                RunView {
                    job: final(self)@,
                    passed: texts(r.1@),
                    end: conclusion_view(r.2),
                },
            ),
            appends@.len() == 0 ==> *final(engine) == *old(engine),
            final(self)@.id == old(self)@.id,
            final(self)@.kind == old(self)@.kind,
            final(self)@.generated == old(self)@.generated + flat(texts(r.1@)),
            is_settled(final(self)@, conclusion_view(r.2)),
    {
        let mut i: usize = 0;
        let ghost start = *engine;
        let ghost before = engine.calls();
        let ghost all = texts(appends@);
        assert(before + accepted(generation, all.take(0)) =~= before);
        while i < appends.len()
            invariant
                i <= appends@.len(),
                all == texts(appends@),
                self@ == old(self)@,
                appends@.len() == 0 ==> *engine == start,
                before == old(engine).calls(),
                engine.calls() == before + accepted(generation, all.take(i as int)),
            decreases appends@.len() - i,
        {
            let text = appends[i].clone();
            let ghost so_far = engine.calls();
            match engine.append_prompt(generation, text) {
                Ok(()) => {
                    assert(engine.calls() =~= before + accepted(generation, all.take(i + 1)));
                },
                Err(refusal) => {
                    let polled = engine.poll(generation);
                    proof {
                        lemma_refused(self@, polled_view(polled), refusal.message@);
                        assert(engine.calls() =~= before + accepted(generation, all.take(i as int))
                            + refused(generation, all[i as int], refusal.message@, polled_view(polled)));
                    }
                    let ghost said = refusal.message@;
                    let ghost told = polled_view(polled);
                    let (passed, end) = self.after_append_failure(polled, refusal);
                    assert(is_refusal(
                        generation,
                        all,
                        before,
                        engine.calls(),
                        old(self)@,
                        RunView { job: self@, passed: texts(passed@), end: Some(end@) },
                        i as int,
                        said,
                        told,
                    ));
                    return (true, passed, Some(end));
                },
            }
            i += 1;
        }
        let passed: Vec<String> = Vec::new();
        proof {
            assert(all.take(i as int) =~= all);
            assert(texts(passed@) =~= Seq::<Seq<char>>::empty());
            assert(self@.generated + flat(texts(passed@)) =~= self@.generated);
        }
        (appends.len() > 0, passed, None)
    }

    /// Takes what polling gave: the texts to pass on, how the job ended, if it
    /// did, and whether there was anything.
    pub fn after_poll(&mut self, polled: Result<Vec<LlmEvent>, LlmError>) -> (r: (
        Vec<String>,
        Option<Conclusion>,
        bool,
    ))
        ensures
            ({
                let run = polled_run(old(self)@, polled_view(polled));
                &&& final(self)@ == run.job
                &&& texts(r.0@) == run.passed
                &&& conclusion_view(r.1) == run.end
                &&& r.2 == is_reporting(polled_view(polled))
            }),
    {
        match polled {
            Err(e) => {
                let passed: Vec<String> = Vec::new();
                assert(texts(passed@) =~= Seq::<Seq<char>>::empty());
                (passed, Some(failed_engine(e)), false)
            },
            Ok(events) => {
                let any = events.len() > 0;
                let (passed, end) = self.handle_llm_events(&events);
                (passed, end, any)
            },
        }
    }

    /// Looks at a running generation: what it reported is taken. One that is paused
    /// is not asked.
    pub fn look<E: LlmEngine>(&mut self, engine: &mut E, generation: GenerationId, paused: bool) -> (r:
        Look)
        ensures
            paused ==> {
                &&& *final(engine) == *old(engine)
                &&& final(self)@ == old(self)@
                &&& r.passed@.len() == 0
                &&& r.end is None
                &&& !r.reported
            },
            !paused ==> exists|polled: Result<Seq<EventView>, Seq<char>>| #[trigger]
                is_looked_at(
                    generation,
                    old(engine).calls(),
                    final(engine).calls(),
                    old(self)@,
                    RunView {
                        job: final(self)@,
                        passed: texts(r.passed@),
                        end: conclusion_view(r.end),
                    },
                    polled,
                ) && r.reported == is_reporting(polled),
            final(self)@.id == old(self)@.id,
            final(self)@.kind == old(self)@.kind,
            final(self)@.generated == old(self)@.generated + flat(texts(r.passed@)),
            is_settled(final(self)@, conclusion_view(r.end)),
    {
        let ghost start = self@;
        if paused {
            let passed: Vec<String> = Vec::new();
            assert(texts(passed@) =~= Seq::<Seq<char>>::empty());
            assert(start.generated + flat(texts(passed@)) =~= start.generated);
            return Look { passed, end: None, reported: false };
        }
        let ghost before = engine.calls();
        let polled = engine.poll(generation);
        let ghost told = polled_view(polled);
        proof {
            lemma_polled(self@, told);
        }
        let (passed, end, reported) = self.after_poll(polled);
        assert(is_looked_at(
            generation,
            before,
            engine.calls(),
            start,
            RunView { job: self@, passed: texts(passed@), end: conclusion_view(end) },
            told,
        ));
        Look { passed, end, reported }
    }

    /// Hands what is to join its prompt to a generation that goes on after a look at
    /// it; see [`JobRun::append_control_prompts`]. There is time to rest where it is
    /// paused, or where it reported nothing and was handed nothing.
    pub fn hand_over<E: LlmEngine>(
        &mut self,
        engine: &mut E,
        generation: GenerationId,
        paused: bool,
        reported: bool,
        appends: Vec<String>,
    ) -> (r: Pass)
        ensures
            is_handed(
                generation,
                texts(appends@),
                old(engine).calls(),
                final(engine).calls(),
                old(self)@,
                RunView {
                    job: final(self)@,
                    passed: texts(r.passed@),
                    end: conclusion_view(r.end),
                },
            ),
            appends@.len() == 0 ==> *final(engine) == *old(engine),
            r.rest == (paused || (!reported && appends@.len() == 0)),
            final(self)@.id == old(self)@.id,
            final(self)@.kind == old(self)@.kind,
            final(self)@.generated == old(self)@.generated + flat(texts(r.passed@)),
            is_settled(final(self)@, conclusion_view(r.end)),
    {
        let (handed, passed, end) = self.append_control_prompts(engine, generation, appends);
        Pass { passed, end, rest: paused || (!reported && !handed) }
    }

    /// What is told of the end of a job, at a moment and so long after its
    /// beginning; nothing where it ended without a word.
    pub fn report(&self, end: &Conclusion, observed_at: Timestamp, elapsed_ms: u64) -> (r: Option<
        RealTimeExperienceEvent,
    >)
        ensures
            match end@ {
                ConclusionView::Completed(response) => r matches Some(e) && e@ == (
                BroadcastView::LlmJobCompleted {
                    job_id: self.id,
                    job_kind: self.kind.name(),
                    observed_at,
                    response_chars: counted(response.len()),
                    response,
                    token_events: self.token_events,
                    elapsed_ms,
                }),
                ConclusionView::Failed { told: None, .. } => r is None,
                ConclusionView::Failed { told: Some(told), .. } => r matches Some(e) && e@ == (
                BroadcastView::LlmJobFailed {
                    job_id: self.id,
                    job_kind: self.kind.name(),
                    observed_at,
                    error: told,
                }),
            },
    {
        match end {
            Conclusion::Completed(response) => {
                let chars: usize = response.as_str().unicode_len();
                Some(
                    RealTimeExperienceEvent::LlmJobCompleted {
                        job_id: self.id,
                        job_kind: self.kind.as_str().to_owned(),
                        observed_at,
                        response_chars: chars,
                        response: response.clone(),
                        token_events: self.token_events,
                        elapsed_ms,
                    },
                )
            },
            Conclusion::Failed { told: None, .. } => None,
            Conclusion::Failed { told: Some(told), .. } => Some(
                RealTimeExperienceEvent::LlmJobFailed {
                    job_id: self.id,
                    job_kind: self.kind.as_str().to_owned(),
                    observed_at,
                    error: told.clone(),
                },
            ),
        }
    }
}

/// An answer with which a job ends is all that was generated.
proof fn lemma_settled(job: JobView, events: Seq<EventView>)
    ensures
        is_settled(after_events(job, events).job, after_events(job, events).end),
    decreases events.len(),
{
    if events.len() > 0 {
        lemma_settled(job, events.drop_last());
    }
}

/// A job stays what it is.
proof fn lemma_same_job(job: JobView, events: Seq<EventView>)
    ensures
        after_events(job, events).job.id == job.id,
        after_events(job, events).job.kind == job.kind,
    decreases events.len(),
{
    if events.len() > 0 {
        lemma_same_job(job, events.drop_last());
    }
}

/// What is passed on, laid end to end, is what the answer grew by.
pub proof fn law_passed_texts_make_the_answer(job: JobView, events: Seq<EventView>)
    ensures
        after_events(job, events).job.generated == job.generated + flat(
            after_events(job, events).passed,
        ),
    decreases events.len(),
{
    let run = after_events(job, events);
    if events.len() == 0 {
        assert(job.generated + flat(run.passed) =~= job.generated);
    } else {
        let before = after_events(job, events.drop_last());
        law_passed_texts_make_the_answer(job, events.drop_last());
        if before.end is None && events.last() is Token {
            assert(run.passed.drop_last() =~= before.passed);
            assert(run.job.generated =~= job.generated + flat(run.passed));
        }
    }
}

/// A job that completed has an answer that is not blank.
pub proof fn law_completed_answer_is_not_blank(job: JobView, events: Seq<EventView>)
    ensures
        after_events(job, events).end matches Some(ConclusionView::Completed(text)) ==> !is_blank(
            text,
        ),
    decreases events.len(),
{
    if events.len() > 0 {
        law_completed_answer_is_not_blank(job, events.drop_last());
    }
}

/// What is told of a job that begins to wait.
pub fn queued_event(id: Id, kind: LlmJobKind, observed_at: Timestamp, request: &GenerationRequest) -> (e:
    RealTimeExperienceEvent)
    ensures
        e@ == (BroadcastView::LlmJobQueued {
            job_id: id,
            job_kind: kind.name(),
            observed_at,
            priority: kind.rank(),
            message_count: counted(request@.messages.len()),
            image_count: counted(request@.images.len()),
            prompt_chars: counted(
                if request@.messages.len() == 0 {
                    request@.prompt.len()
                } else {
                    message_chars(request@.messages)
                },
            ),
            max_tokens: request@.max_tokens,
            stop_count: counted(request@.stop.len()),
            prompt_preview: preview_of(shown_request(request@), 720),
        }),
{
    RealTimeExperienceEvent::LlmJobQueued {
        job_id: id,
        job_kind: kind.as_str().to_owned(),
        observed_at,
        priority: kind.priority(),
        message_count: request.messages.len(),
        image_count: request.images.len(),
        prompt_chars: request_prompt_chars(request),
        max_tokens: request.max_tokens,
        stop_count: request.stop.len(),
        prompt_preview: request_prompt_preview(request, 720),
    }
}

/// What is told of a job that begins to run.
pub fn started_event(id: Id, kind: LlmJobKind, observed_at: Timestamp, queue_wait_ms: u64) -> (e:
    RealTimeExperienceEvent)
    ensures
        e@ == (BroadcastView::LlmJobStarted {
            job_id: id,
            job_kind: kind.name(),
            observed_at,
            queue_wait_ms,
        }),
{
    RealTimeExperienceEvent::LlmJobStarted {
        job_id: id,
        job_kind: kind.as_str().to_owned(),
        observed_at,
        queue_wait_ms,
    }
}

/// The characters of a text that can be seen.
pub open spec fn visible_chars(text: Seq<char>) -> nat
    decreases text.len(),
{
    if text.len() == 0 {
        0
    } else if is_control(text.last()) {
        visible_chars(text.drop_last())
    } else {
        visible_chars(text.drop_last()) + 1
    }
}

/// Whether a text ends with a mark of punctuation.
pub open spec fn ends_punctuated(text: Seq<char>) -> bool {
    text.len() > 0 && {
        let c = text.last();
        c == '.' || c == '!' || c == '?' || c == ',' || c == ';' || c == ':'
    }
}

/// How long speaking a text takes, in nanoseconds: 190 words a minute, each of
/// 5.2 characters and a space, rounded, and a pause after punctuation.
pub open spec fn speaking_nanos(text: Seq<char>) -> nat {
    let n = visible_chars(text);
    if n == 0 {
        0
    } else {
        (2 * n * 30_000_000_000 + 589) / (2 * 589) + (if ends_punctuated(text) {
            90_000_000nat
        } else {
            0
        })
    }
}

/// How long speaking a text takes, in nanoseconds.
pub fn voice_token_delay(text: &str) -> (nanos: u128)
    ensures
        nanos == speaking_nanos(text@),
{
    let chars = chars_of(text);
    let mut n: usize = 0;
    let mut i: usize = 0;
    assert(text@.take(0) =~= Seq::<char>::empty());
    while i < chars.len()
        invariant
            i <= chars@.len(),
            n <= i,
            chars@ == text@,
            n == visible_chars(text@.take(i as int)),
        decreases chars@.len() - i,
    {
        proof {
            assert(text@.take(i + 1).drop_last() =~= text@.take(i as int));
            assert(text@.take(i + 1).last() == chars@[i as int]);
        }
        if !control(chars[i]) {
            n += 1;
        }
        i += 1;
    }
    assert(text@.take(i as int) =~= text@);
    if n == 0 {
        return 0;
    }
    let speech: u128 = (2 * (n as u128) * 30_000_000_000 + 589) / 1_178;
    let c = chars[chars.len() - 1];
    if c == '.' || c == '!' || c == '?' || c == ',' || c == ';' || c == ':' {
        speech + VOICE_PUNCTUATION_PAUSE_NANOS as u128
    } else {
        speech
    }
}

/// Milliseconds, as far as they fit.
pub fn duration_millis(millis: u128) -> (ms: u64)
    ensures
        ms == (if millis > u64::MAX {
            u64::MAX as u128
        } else {
            millis
        }),
{
    if millis > u64::MAX as u128 {
        u64::MAX
    } else {
        millis as u64
    }
}

/// Tells whether the voice has a model of its own: unless it is turned off.
pub fn dedicated_voice_llm_enabled(value: &Option<String>) -> (r: bool)
    ensures
        r == (match optional(*value) {
            Some(v) => !(v == "0"@ || v == "false"@ || v == "FALSE"@ || v == "no"@ || v == "NO"@),
            None => true,
        }),
{
    match value {
        Some(v) => {
            let v = v.as_str();
            !(same(v, "0") || same(v, "false") || same(v, "FALSE") || same(v, "no") || same(
                v,
                "NO",
            ))
        },
        None => true,
    }
}

/// Every text that the engine reports is passed on as it is, in order, and the
/// answer grows by these texts laid end to end, white space and all, up to the
/// first event that is no text. That event ends the job: with the whole answer, if
/// it is complete or cut off by the limit and not blank, and else with the failure
/// that the event stands for. Without such an event the job goes on.
pub proof fn law_tokens_are_passed_on_as_they_are(job: JobView, events: Seq<EventView>, n: int)
    requires
        0 <= n <= events.len(),
        forall|i: int| 0 <= i < n ==> (#[trigger] events[i]) is Token,
        n < events.len() ==> !(events[n] is Token),
    ensures
        ({
            let run = after_events(job, events);
            let blank = forall|i: int|
                0 <= i < run.job.generated.len() ==> is_white_space(
                    #[trigger] run.job.generated[i],
                );
            &&& run.passed.len() == n
            &&& forall|i: int|
                0 <= i < n ==> events[i] == EventView::Token(#[trigger] run.passed[i])
            &&& run.job.generated == job.generated + flat(run.passed)
            &&& run.job.id == job.id
            &&& run.job.kind == job.kind
            &&& run.job.token_events == if job.token_events + n <= usize::MAX {
                job.token_events + n
            } else {
                usize::MAX as int
            }
            &&& run.end == if n == events.len() {
                None
            } else {
                Some(
                    match events[n] {
                        EventView::Error(message) => ConclusionView::Failed {
                            told: Some(message),
                            error: message,
                        },
                        EventView::Cancelled => ConclusionView::Failed {
                            told: Some("cancelled"@),
                            error: "LLM job "@ + job.kind.name() + " was cancelled"@,
                        },
                        EventView::MaxTokens(count) => if blank {
                            let error = "LLM job hit max token cap after "@ + decimal(count as nat)
                                + " tokens before completion"@;
                            ConclusionView::Failed { told: Some(error), error }
                        } else {
                            ConclusionView::Completed(run.job.generated)
                        },
                        _ => if blank {
                            ConclusionView::Failed {
                                told: Some("LLM generated an empty response"@),
                                error: "LLM generated an empty response"@,
                            }
                        } else {
                            ConclusionView::Completed(run.job.generated)
                        },
                    },
                )
            }
        }),
    decreases events.len(),
{
    let run = after_events(job, events);
    law_passed_texts_make_the_answer(job, events);
    lemma_same_job(job, events);
    law_blank_text_is_white_space_alone(run.job.generated);
    if events.len() > 0 {
        let front = events.drop_last();
        let before = after_events(job, front);
        let k = if n == events.len() {
            n - 1
        } else {
            n
        };
        assert forall|i: int| 0 <= i < front.len() implies #[trigger] front[i] == events[i] by {}
        law_tokens_are_passed_on_as_they_are(job, front, k);
        law_blank_text_is_white_space_alone(before.job.generated);
        if n == events.len() {
            assert(events[n - 1] is Token);
            assert forall|i: int| 0 <= i < n implies events[i] == EventView::Token(
                #[trigger] run.passed[i],
            ) by {
                if i < n - 1 {
                    assert(run.passed[i] == before.passed[i]);
                    assert(front[i] == events[i]);
                }
            }
        } else {
            assert(run.job == before.job);
            assert(run.passed == before.passed);
            assert forall|i: int| 0 <= i < n implies events[i] == EventView::Token(
                #[trigger] run.passed[i],
            ) by {
                assert(front[i] == events[i]);
            }
        }
    }
}

/// Events that come in two parts lead where they lead as a whole: what was passed
/// on first comes first, and nothing counts behind the end.
pub proof fn law_events_may_come_in_parts(job: JobView, a: Seq<EventView>, b: Seq<EventView>)
    ensures
        after_events(job, a).end is Some ==> after_events(job, a + b) == after_events(job, a),
        after_events(job, a).end is None ==> {
            let first = after_events(job, a);
            let second = after_events(first.job, b);
            &&& after_events(job, a + b).job == second.job
            &&& after_events(job, a + b).passed == first.passed + second.passed
            &&& after_events(job, a + b).end == second.end
        },
    decreases b.len(),
{
    if b.len() == 0 {
        assert(a + b =~= a);
        assert(after_events(job, a).passed + Seq::<Seq<char>>::empty() =~= after_events(
            job,
            a,
        ).passed);
    } else {
        law_events_may_come_in_parts(job, a, b.drop_last());
        assert((a + b).drop_last() =~= a + b.drop_last());
        assert((a + b).last() == b.last());
        let first = after_events(job, a);
        let second = after_events(first.job, b);
        if first.end is None {
            assert(after_events(job, a + b).passed =~= first.passed + second.passed);
        }
    }
}

/// An engine that cannot be polled ends the job with its words, of which nothing
/// is passed on; one that refused an addition before is then not heard of again.
/// Where it can be polled, a refusal ends the job only if its events do not.
pub proof fn law_refusal_ends_a_job_that_goes_on(
    job: JobView,
    polled: Result<Seq<EventView>, Seq<char>>,
    refusal: Seq<char>,
)
    ensures
        match polled {
            Err(error) => {
                &&& polled_run(job, polled).job == job
                &&& polled_run(job, polled).passed.len() == 0
                &&& polled_run(job, polled).end == Some(
                    ConclusionView::Failed { told: Some(error), error },
                )
                &&& refused_run(job, polled, refusal).job == job
                &&& refused_run(job, polled, refusal).passed.len() == 0
                &&& refused_run(job, polled, refusal).end == Some(
                    ConclusionView::Failed { told: None, error },
                )
            },
            Ok(events) => {
                let run = after_events(job, events);
                &&& polled_run(job, polled) == run
                &&& refused_run(job, polled, refusal).job == run.job
                &&& refused_run(job, polled, refusal).passed == run.passed
                &&& refused_run(job, polled, refusal).end == if exists|i: int|
                    0 <= i < events.len() && !((#[trigger] events[i]) is Token) {
                    run.end
                } else {
                    Some(
                        ConclusionView::Failed {
                            told: Some(refusal),
                            error: "failed to append live prompt input"@,
                        },
                    )
                }
            },
        },
{
    if let Ok(events) = polled {
        lemma_first_end(job, events);
    }
}

/// Events end a job exactly where one of them is no text.
proof fn lemma_first_end(job: JobView, events: Seq<EventView>)
    ensures
        after_events(job, events).end is Some <==> exists|i: int|
            0 <= i < events.len() && !((#[trigger] events[i]) is Token),
    decreases events.len(),
{
    if events.len() > 0 {
        let front = events.drop_last();
        lemma_first_end(job, front);
        assert forall|i: int| 0 <= i < front.len() implies #[trigger] front[i] == events[i] by {}
        if after_events(job, front).end is Some {
            let i = choose|i: int| 0 <= i < front.len() && !((#[trigger] front[i]) is Token);
            assert(!(events[i] is Token));
        } else if !(events.last() is Token) {
            assert(!(events[events.len() - 1] is Token));
        } else {
            assert forall|i: int| 0 <= i < events.len() implies (#[trigger] events[i]) is Token by {
                if i < front.len() {
                    assert(front[i] is Token);
                }
            }
        }
    }
}

/// What is to join the prompt is handed to the engine text by text, in order, and
/// each once. Where nothing is refused, the job goes on with nothing passed on;
/// a refusal is followed by one poll, and the texts behind it are not handed.
pub proof fn law_texts_are_handed_in_order(
    id: GenerationId,
    list: Seq<Seq<char>>,
    before: Seq<EngineCall>,
    after: Seq<EngineCall>,
    job: JobView,
    run: RunView,
)
    requires
        is_handed(id, list, before, after, job, run),
    ensures
        after.len() > before.len() || list.len() == 0,
        after.take(before.len() as int) == before,
        run.end is None ==> {
            &&& after.len() == before.len() + list.len()
            &&& forall|i: int|
                0 <= i < list.len() ==> #[trigger] after[before.len() + i] == (EngineCall::Append {
                    id,
                    text: list[i],
                    answer: Ok(()),
                })
            &&& run.job == job
            &&& run.passed.len() == 0
        },
        run.end is Some ==> exists|k: int, refusal: Seq<char>|
            0 <= k < list.len() && after.len() == before.len() + k + 2 && (forall|i: int|
                0 <= i < k ==> #[trigger] after[before.len() + i] == (EngineCall::Append {
                    id,
                    text: list[i],
                    answer: Ok(()),
                })) && #[trigger] after[before.len() + k] == (EngineCall::Append {
                id,
                text: list[k],
                answer: #[trigger] refusing(refusal),
            }) && (after[before.len() + k + 1] matches EngineCall::Poll { id: asked, answer }
                && asked == id && run == refused_run(job, answer, refusal)),
{
    if run.end is None {
        assert(after.take(before.len() as int) =~= before);
    } else {
        let (k, refusal, polled) = choose|
            k: int,
            refusal: Seq<char>,
            polled: Result<Seq<EventView>, Seq<char>>,
        | #[trigger]
            is_refusal(id, list, before, after, job, run, k, refusal, polled);
        assert(after.take(before.len() as int) =~= before);
        assert(after[before.len() + k] == (EngineCall::Append {
            id,
            text: list[k],
            answer: refusing(refusal),
        }));
        assert(after[before.len() + k + 1] == (EngineCall::Poll { id, answer: polled }));
        assert forall|i: int| 0 <= i < k implies #[trigger] after[before.len() + i] == (
        EngineCall::Append { id, text: list[i], answer: Ok(()) }) by {
            assert(list.take(k)[i] == list[i]);
        }
    }
}

/// An answer that refuses.
pub open spec fn refusing(refusal: Seq<char>) -> Result<(), Seq<char>> {
    Err(refusal)
}

/// A preview that fits is the text itself, and any other begins as the text does
/// and says no more than its beginning.
pub proof fn law_preview_is_how_the_text_begins(source: Seq<char>, max: nat)
    ensures
        source.len() <= max ==> preview_of(source, max) == source,
        exists|n: int|
            0 <= n <= source.len() && n <= max && (preview_of(source, max) == #[trigger] source.take(n)
                || preview_of(source, max) == source.take(n) + "..."@),
{
    if source.len() <= max {
        assert(source.take(source.len() as int) =~= source);
    } else if occurs(source, "Timeline:\n"@) || occurs(source, "Evidence timeline:\n"@) {
        lemma_fitting_begins(source, max, false);
    } else {
        assert(preview_of(source, max) == source.take(max as int) + "..."@);
    }
}

proof fn lemma_fitting_begins(s: Seq<char>, room: nat, in_timeline: bool)
    ensures
        exists|n: int|
            0 <= n <= s.len() && n <= room && (fitting(s, room, in_timeline)
                == #[trigger] s.take(n) || fitting(s, room, in_timeline) == s.take(n) + "..."@),
    decreases s.len(),
{
    let n = line_end(s);
    if s.len() == 0 || n <= 0 || n > s.len() {
        assert(s.take(0) =~= Seq::<char>::empty());
    } else if n > room {
        assert(s.take(0) =~= Seq::<char>::empty());
        assert(0 <= room as int && room as int <= s.len());
        assert(s.take(room as int) + "..."@ == s.take(room as int) + "..."@);
    } else {
        let rest = s.skip(n);
        let opens = in_timeline || opens_timeline(s.take(n));
        let less = (room - n) as nat;
        lemma_fitting_begins(rest, less, opens);
        let m = choose|m: int|
            0 <= m <= rest.len() && m <= less && (fitting(rest, less, opens)
                == #[trigger] rest.take(m) || fitting(rest, less, opens) == rest.take(m) + "..."@);
        assert(s.take(n) + rest.take(m) =~= s.take(n + m));
        assert(s.take(n) + (rest.take(m) + "..."@) =~= s.take(n + m) + "..."@);
    }
}

/// Speaking takes as long as there are characters that can be seen, however they
/// are split: thirty seconds for five hundred and eighty-nine of them, to the
/// nearest nanosecond, and a pause behind a mark of punctuation. What cannot be
/// seen takes no time.
pub proof fn law_speaking_takes_its_time(text: Seq<char>, c: char)
    ensures
        visible_chars(Seq::<char>::empty()) == 0,
        visible_chars(text.push(c)) == visible_chars(text) + (if c <= '\u{1f}' || ('\u{7f}' <= c
            && c <= '\u{9f}') {
            0nat
        } else {
            1nat
        }),
        visible_chars(text) == 0 ==> speaking_nanos(text) == 0,
        visible_chars(text) > 0 ==> {
            let pause = if text.last() == '.' || text.last() == '!' || text.last() == '?'
                || text.last() == ',' || text.last() == ';' || text.last() == ':' {
                90_000_000int
            } else {
                0int
            };
            let error = (speaking_nanos(text) - pause) * 589 - visible_chars(text) * 30_000_000_000;
            -295 <= error <= 295
        },
{
    assert(text.push(c).drop_last() =~= text);
    if visible_chars(text) > 0 {
        assert(text.len() > 0);
        let x = (2 * visible_chars(text) * 30_000_000_000 + 589) as int;
        let q: int = x / 1178;
        assert(1178 * q <= x < 1178 * q + 1178);
        assert(2 * 589 == 1178int);
    }
}

/// Speaking and understanding go before looking: the kinds that look at frames
/// wait for every other kind, and no kind else waits for another.
pub proof fn law_looking_waits(a: LlmJobKind, b: LlmJobKind)
    ensures
        a.rank() < b.rank() <==> (b is Vision || b is FieldVision) && !(a is Vision
            || a is FieldVision),
        a.name() == b.name() ==> a == b,
{
    reveal_strlit("vision");
    reveal_strlit("field_vision");
    reveal_strlit("context_frame");
    reveal_strlit("realtime_experience");
    reveal_strlit("commentator");
    reveal_strlit("voice");
    assert("vision"@.len() == 6);
    assert("field_vision"@.len() == 12);
    assert("context_frame"@.len() == 13);
    assert("realtime_experience"@.len() == 19);
    assert("commentator"@.len() == 11);
    assert("voice"@.len() == 5);
}

/// A size or a number of layers that is set as a number is taken as that number; a
/// size of nothing is taken for the default.
pub proof fn law_set_number_is_taken(n: u32, default: u32)
    ensures
        n > 0 ==> context_size_of(Some(decimal(n as nat)), default) == n,
        n == 0 ==> context_size_of(Some(decimal(n as nat)), default) == default,
        context_size_of(None, default) == default,
        layers_of(Some(decimal(n as nat))) == Some(n),
        layers_of(None) is None,
{
    lemma_decimal_reads_back(n as nat);
}

/// The characters of a chat are those of its messages, the names of the speakers
/// among them, however the chat is split.
pub proof fn law_chat_is_as_long_as_its_messages(a: Seq<MessageView>, b: Seq<MessageView>)
    ensures
        message_chars(a + b) == message_chars(a) + message_chars(b),
        b.len() == 1 ==> message_chars(b) == b[0].role.len() + b[0].content.len(),
    decreases b.len(),
{
    if b.len() == 0 {
        assert(a + b =~= a);
    } else {
        law_chat_is_as_long_as_its_messages(a, b.drop_last());
        assert((a + b).drop_last() =~= a + b.drop_last());
        assert((a + b).last() == b.last());
        if b.len() == 1 {
            assert(b.drop_last() =~= Seq::<MessageView>::empty());
            assert(message_chars(b.drop_last()) == 0);
        }
    }
}

/// A chat is shown message by message, in order, each behind its speaker, with an
/// empty line between them; a request without a chat is shown as its prompt.
pub proof fn law_request_is_shown_in_full(r: RequestView, a: MessageView, b: MessageView)
    ensures
        r.messages.len() == 0 ==> shown_request(r) == r.prompt,
        r.messages == seq![a] ==> shown_request(r) == a.role + ": "@ + a.content,
        r.messages == seq![a, b] ==> shown_request(r) == a.role + ": "@ + a.content + "\n\n"@ + (
        b.role + ": "@ + b.content),
{
    let shown = r.messages.map_values(|m: MessageView| shown_message(m));
    reveal_with_fuel(joined, 3);
    if r.messages == seq![a] {
        assert(shown[0] == shown_message(a));
    }
    if r.messages == seq![a, b] {
        assert(shown.drop_last() =~= seq![shown_message(a)]);
        assert(shown.last() == shown_message(b));
    }
}

} // verus!
