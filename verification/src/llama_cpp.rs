//! The decisions of a generation with a llama.cpp model: checking the
//! configuration, fitting a prompt into the context, and what each sampled token
//! leads to.

use vstd::prelude::*;

use crate::decimal::{decimal, decimal_text};
use crate::llm::{copy_messages, message_views, ChatMessage, GenerationRequest, MessageView};
use crate::number::{at_most_single, is_at_most_single};
use crate::stops::{pushed, StopDetector};
use crate::text::{
    blank, is_blank, join, joined, lowered, optional, same, texts, to_lower, trim, trimmed,
};

verus! {

/// How a model is loaded and run. Temperature and top-p are number texts, read in
/// single precision; a text that is no number is neither less nor more than another.
#[derive(Debug, PartialEq, Eq)]
pub struct LlamaCppConfig {
    /// Where the model lies.
    pub model_path: String,
    /// Where the multimodal projector lies, if there is one.
    pub mmproj_path: Option<String>,
    /// The layers to run on the GPU; all of them by default.
    pub gpu_layers: Option<u32>,
    /// Whether the GPU is left alone.
    pub cpu_only: bool,
    /// The tokens of the context.
    pub context_size: u32,
    /// The most tokens to generate.
    pub max_tokens: usize,
    /// The threads to run on.
    pub threads: usize,
    /// The sampling temperature.
    pub temperature: String,
    /// The nucleus of sampling.
    pub top_p: String,
    /// The number of candidates of sampling.
    pub top_k: i32,
}

/// Why a model was not loaded, or a generation failed.
#[derive(Debug, PartialEq, Eq)]
pub enum EngineError {
    /// There is no model path.
    NoModelPath,
    /// The context has no room.
    NoContext,
    /// Nothing may be generated.
    NothingToGenerate,
    /// There are no threads.
    NoThreads,
    /// There are too many threads.
    TooManyThreads,
    /// The prompt has no tokens.
    EmptyPrompt,
    /// The request allows no tokens.
    ZeroMaxTokens,
    /// Prompt and generation together cannot be counted.
    TotalOverflow,
    /// Prompt and generation do not fit into the context.
    ContextTooSmall {
        /// The tokens needed.
        needed: usize,
        /// The tokens there are.
        size: usize,
    },
    /// The tokens of the context cannot be counted.
    CountOverflow,
    /// An appended prompt does not fit into the context.
    AppendTooLarge {
        /// The tokens needed.
        needed: usize,
        /// The tokens there are.
        size: usize,
    },
    /// The engine decodes no tokens at a time.
    NoBatch,
    /// A token's position cannot be told to the engine.
    PositionTooLarge,
    /// The prompt with images has no tokens.
    EmptyMultimodalPrompt,
    /// The prompt with images does not fit into the context.
    MultimodalTooLarge {
        /// The tokens needed.
        needed: usize,
        /// The tokens there are.
        size: usize,
    },
    /// The bytes of a token are too many.
    TokenTooLarge,
    /// The bytes of a token are not UTF-8.
    TokenMalformed,
    /// The bytes of a token were not all decoded.
    TokenIncomplete,
}

impl EngineError {
    /// The error in words.
    pub open spec fn spec_message(self) -> Seq<char> {
        match self {
            EngineError::NoModelPath => "llama.cpp model_path is required"@,
            EngineError::NoContext => "llama.cpp context_size must be greater than zero"@,
            EngineError::NothingToGenerate => "llama.cpp max_tokens must be greater than zero"@,
            EngineError::NoThreads => "llama.cpp threads must be greater than zero"@,
            EngineError::TooManyThreads => "threads exceeds i32::MAX"@,
            EngineError::EmptyPrompt => "prompt produced no tokens"@,
            EngineError::ZeroMaxTokens => "max_tokens must be greater than zero"@,
            EngineError::TotalOverflow => "prompt plus max_tokens overflowed usize"@,
            EngineError::ContextTooSmall { needed, size } => "generation needs "@ + decimal(
                needed as nat,
            ) + " context tokens, but context_size is "@ + decimal(size as nat),
            EngineError::CountOverflow => "context token count overflowed usize"@,
            EngineError::AppendTooLarge { needed, size } => "appended prompt needs "@ + decimal(
                needed as nat,
            ) + " context tokens, but context_size is "@ + decimal(size as nat),
            EngineError::NoBatch => "llama.cpp n_batch must be greater than zero"@,
            EngineError::PositionTooLarge => "prompt token position exceeds i32::MAX"@,
            EngineError::EmptyMultimodalPrompt => "multimodal prompt produced no tokens"@,
            EngineError::MultimodalTooLarge { needed, size } => "multimodal prompt needs "@
                + decimal(needed as nat) + " context tokens, but context_size is "@ + decimal(
                size as nat,
            ),
            EngineError::TokenTooLarge => "token byte buffer is too large to decode"@,
            EngineError::TokenMalformed => "failed to decode llama.cpp token as UTF-8"@,
            EngineError::TokenIncomplete => "failed to fully decode llama.cpp token bytes"@,
        }
    }

    /// The error in words.
    pub fn message(&self) -> (s: String)
        ensures
            s@ == self.spec_message(),
    {
        match self {
            EngineError::NoModelPath => "llama.cpp model_path is required".to_owned(),
            EngineError::NoContext => "llama.cpp context_size must be greater than zero".to_owned(),
            EngineError::NothingToGenerate => {
                "llama.cpp max_tokens must be greater than zero".to_owned()
            },
            EngineError::NoThreads => "llama.cpp threads must be greater than zero".to_owned(),
            EngineError::TooManyThreads => "threads exceeds i32::MAX".to_owned(),
            EngineError::EmptyPrompt => "prompt produced no tokens".to_owned(),
            EngineError::ZeroMaxTokens => "max_tokens must be greater than zero".to_owned(),
            EngineError::TotalOverflow => "prompt plus max_tokens overflowed usize".to_owned(),
            EngineError::ContextTooSmall { needed, size } => shortage(
                "generation needs ",
                *needed,
                *size,
            ),
            EngineError::CountOverflow => "context token count overflowed usize".to_owned(),
            EngineError::AppendTooLarge { needed, size } => shortage(
                "appended prompt needs ",
                *needed,
                *size,
            ),
            EngineError::NoBatch => "llama.cpp n_batch must be greater than zero".to_owned(),
            EngineError::PositionTooLarge => "prompt token position exceeds i32::MAX".to_owned(),
            EngineError::EmptyMultimodalPrompt => "multimodal prompt produced no tokens".to_owned(),
            EngineError::MultimodalTooLarge { needed, size } => shortage(
                "multimodal prompt needs ",
                *needed,
                *size,
            ),
            EngineError::TokenTooLarge => "token byte buffer is too large to decode".to_owned(),
            EngineError::TokenMalformed => "failed to decode llama.cpp token as UTF-8".to_owned(),
            EngineError::TokenIncomplete => "failed to fully decode llama.cpp token bytes".to_owned(),
        }
    }
}

/// How a shortage of context is put.
fn shortage(what: &str, needed: usize, size: usize) -> (s: String)
    ensures
        s@ == what@ + decimal(needed as nat) + " context tokens, but context_size is "@ + decimal(
            size as nat,
        ),
{
    let mut s = what.to_owned();
    s.push_str(decimal_text(needed as u128).as_str());
    s.push_str(" context tokens, but context_size is ");
    s.push_str(decimal_text(size as u128).as_str());
    s
}

impl LlamaCppConfig {
    /// The defaults on a machine that runs so many threads, or four where that
    /// is not known.
    pub fn with_threads(parallelism: Option<usize>) -> (r: LlamaCppConfig)
        ensures
            r.model_path@ == Seq::<char>::empty(),
            r.mmproj_path is None,
            r.gpu_layers is None,
            !r.cpu_only,
            r.context_size == 2048,
            r.max_tokens == 128,
            r.threads == (match parallelism {
                Some(n) => n,
                None => 4,
            }),
            r.temperature@ == "1.0"@,
            r.top_p@ == "0.95"@,
            r.top_k == 64,
    {
        LlamaCppConfig {
            model_path: String::new(),
            mmproj_path: None,
            gpu_layers: None,
            cpu_only: false,
            context_size: 2048,
            max_tokens: 128,
            threads: match parallelism {
                Some(n) => n,
                None => 4,
            },
            temperature: "1.0".to_string(),
            top_p: "0.95".to_string(),
            top_k: 64,
        }
    }

    /// What keeps a model from being loaded with the configuration.
    pub open spec fn fault(self) -> Option<EngineError> {
        if self.model_path@.len() == 0 {
            Some(EngineError::NoModelPath)
        } else if self.context_size == 0 {
            Some(EngineError::NoContext)
        } else if self.max_tokens == 0 {
            Some(EngineError::NothingToGenerate)
        } else if self.threads == 0 {
            Some(EngineError::NoThreads)
        } else {
            None
        }
    }

    /// Checks that a model can be loaded with the configuration.
    pub fn check(&self) -> (r: Result<(), EngineError>)
        ensures
            match self.fault() {
                Some(e) => r == Err::<(), EngineError>(e),
                None => r is Ok,
            },
    {
        if self.model_path.as_str().unicode_len() == 0 {
            return Err(EngineError::NoModelPath);
        }
        if self.context_size == 0 {
            return Err(EngineError::NoContext);
        }
        if self.max_tokens == 0 {
            return Err(EngineError::NothingToGenerate);
        }
        if self.threads == 0 {
            return Err(EngineError::NoThreads);
        }
        Ok(())
    }

    /// The threads as the engine counts them.
    pub fn thread_count(&self) -> (r: Result<i32, EngineError>)
        ensures
            match r {
                Ok(n) => n == self.threads,
                Err(e) => self.threads > i32::MAX && e == EngineError::TooManyThreads,
            },
    {
        if self.threads <= i32::MAX as usize {
            Ok(self.threads as i32)
        } else {
            Err(EngineError::TooManyThreads)
        }
    }

    /// The layers to run on the GPU: none where it is left alone or cannot be
    /// used.
    pub fn selected_gpu_layers(&self, cpu_requested: bool, cuda: bool) -> (n: u32)
        ensures
            n == (if self.cpu_only || cpu_requested || !cuda {
                0
            } else {
                match self.gpu_layers {
                    Some(layers) => layers,
                    None => u32::MAX,
                }
            }),
    {
        if self.cpu_only || cpu_requested || !cuda {
            return 0;
        }
        match self.gpu_layers {
            Some(layers) => layers,
            None => u32::MAX,
        }
    }
}

/// Whether the value of a switch turns it on.
pub open spec fn is_on(value: Option<Seq<char>>) -> bool {
    value matches Some(v) && (v == "1"@ || v == "true"@ || v == "TRUE"@ || v == "yes"@ || v
        == "YES"@)
}

/// Tells whether the value of a switch turns it on.
pub fn switched_on(value: &Option<String>) -> (r: bool)
    ensures
        r == is_on(optional(*value)),
{
    match value {
        Some(v) => {
            let v = v.as_str();
            same(v, "1") || same(v, "true") || same(v, "TRUE") || same(v, "yes") || same(v, "YES")
        },
        None => false,
    }
}

/// Whether the list of visible devices hides them all.
pub open spec fn hides_devices(value: Option<Seq<char>>) -> bool {
    value matches Some(v) && {
        let t = trimmed(v);
        t.len() == 0 || t == "-1"@ || lowered(t) == "none"@ || lowered(t) == "void"@
    }
}

/// Tells whether the list of visible devices hides them all.
pub fn cuda_hidden(value: &Option<String>) -> (r: bool)
    ensures
        r == hides_devices(optional(*value)),
{
    match value {
        Some(v) => {
            let t = trim(v.as_str());
            let low = to_lower(t);
            t.unicode_len() == 0 || same(t, "-1") || same(low.as_str(), "none") || same(
                low.as_str(),
                "void",
            )
        },
        None => false,
    }
}

/// What the machine says of its GPUs.
pub struct CudaProbe {
    /// Whether the engine can offload to a GPU.
    pub offload: bool,
    /// The devices that it may use.
    pub max_devices: usize,
    /// The list of visible devices, where one is set.
    pub visible_devices: Option<String>,
    /// Whether listing the devices succeeded and named any; nothing where the
    /// listing could not be run.
    pub listing: Option<(bool, bool)>,
}

/// Tells whether a GPU can be used.
pub fn cuda_available(probe: &CudaProbe) -> (r: bool)
    ensures
        r == (probe.offload && probe.max_devices != 0 && !hides_devices(
            optional(probe.visible_devices),
        ) && probe.listing == Some((true, true))),
{
    if !probe.offload || probe.max_devices == 0 || cuda_hidden(&probe.visible_devices) {
        return false;
    }
    match probe.listing {
        Some((succeeded, any)) => succeeded && any,
        None => false,
    }
}

/// How tokens are sampled.
#[derive(Debug, PartialEq, Eq)]
pub enum SamplerPlan {
    /// The likeliest token each time.
    Greedy,
    /// By chance among the likeliest.
    Random {
        /// The number of candidates.
        top_k: i32,
        /// The nucleus.
        top_p: String,
        /// The temperature.
        temperature: String,
    },
}

/// A nucleus brought between nothing and everything.
pub open spec fn nucleus(top_p: Seq<char>) -> Seq<char> {
    if is_at_most_single(top_p, "0.0"@) {
        "0.0"@
    } else if is_at_most_single("1.0"@, top_p) {
        "1.0"@
    } else {
        top_p
    }
}

/// Whether a plan is how tokens are sampled at a temperature, with a nucleus and
/// a number of candidates.
pub open spec fn is_sampler_plan(
    plan: SamplerPlan,
    temperature: Seq<char>,
    top_p: Seq<char>,
    top_k: i32,
) -> bool {
    match plan {
        SamplerPlan::Greedy => is_at_most_single(temperature, "0.0"@),
        SamplerPlan::Random { top_k: k, top_p: p, temperature: t } => {
            &&& !is_at_most_single(temperature, "0.0"@)
            &&& k == if top_k < 1 {
                1
            } else {
                top_k
            }
            &&& p@ == nucleus(top_p)
            &&& t@ == temperature
        },
    }
}

/// How tokens are sampled under a configuration.
pub fn sampler_plan(temperature: &str, top_p: &str, top_k: i32) -> (plan: SamplerPlan)
    ensures
        is_sampler_plan(plan, temperature@, top_p@, top_k),
{
    if at_most_single(temperature, "0.0") {
        return SamplerPlan::Greedy;
    }
    let top_p: String = if at_most_single(top_p, "0.0") {
        "0.0".to_string()
    } else if at_most_single("1.0", top_p) {
        "1.0".to_string()
    } else {
        top_p.to_string()
    };
    let top_k: i32 = if top_k < 1 {
        1
    } else {
        top_k
    };
    SamplerPlan::Random { top_k, top_p, temperature: temperature.to_string() }
}

/// A prompt with a marker for each of `n` images behind it.
pub open spec fn with_markers(prompt: Seq<char>, n: nat, marker: Seq<char>) -> Seq<char> {
    let markers = joined(Seq::new(n, |i: int| marker), seq![' ']);
    if n == 0 {
        prompt
    } else if is_blank(prompt) {
        markers
    } else {
        prompt + seq!['\n'] + markers
    }
}

/// The place of the last message of a user, if there is one.
pub open spec fn last_user(messages: Seq<MessageView>) -> Option<int>
    decreases messages.len(),
{
    if messages.len() == 0 {
        None
    } else if messages.last().role == "user"@ {
        Some(messages.len() - 1)
    } else {
        last_user(messages.drop_last())
    }
}

/// Messages with the markers of `n` images in the last message of a user, or in
/// the last message.
pub open spec fn marked_messages(
    messages: Seq<MessageView>,
    n: nat,
    marker: Seq<char>,
) -> Seq<MessageView> {
    if n == 0 || messages.len() == 0 {
        messages
    } else {
        let at = match last_user(messages) {
            Some(i) => i,
            None => messages.len() - 1,
        };
        messages.update(
            at,
            MessageView {
                role: messages[at].role,
                content: with_markers(messages[at].content, n, marker),
            },
        )
    }
}

/// Puts a marker for each of `image_count` images behind a prompt.
pub fn prompt_with_media_markers(prompt: &str, image_count: usize, marker: &str) -> (s: String)
    ensures
        s@ == with_markers(prompt@, image_count as nat, marker@),
{
    if image_count == 0 {
        return prompt.to_owned();
    }
    let mut list: Vec<String> = Vec::new();
    let mut i: usize = 0;
    while i < image_count
        invariant
            i <= image_count,
            list@.len() == i,
            forall|k: int| 0 <= k < i ==> (#[trigger] list@[k])@ == marker@,
        decreases image_count - i,
    {
        list.push(marker.to_owned());
        i += 1;
    }
    let markers = join(&list, " ");
    proof {
        reveal_strlit(" ");
        assert(" "@ =~= seq![' ']);
        assert(texts(list@) =~= Seq::new(image_count as nat, |i: int| marker@));
    }
    if blank(prompt) {
        markers
    } else {
        let mut s = prompt.to_owned();
        s.push('\n');
        s.push_str(markers.as_str());
        assert(s@ =~= prompt@ + seq!['\n'] + markers@);
        s
    }
}

/// Puts the markers of images into the last message of a user, or into the last
/// message.
pub fn messages_with_media_markers(
    messages: &Vec<ChatMessage>,
    image_count: usize,
    marker: &str,
) -> (r: Vec<ChatMessage>)
    ensures
        message_views(r@) == marked_messages(message_views(messages@), image_count as nat, marker@),
{
    let mut r = copy_messages(messages);
    if image_count == 0 || messages.len() == 0 {
        return r;
    }
    let ghost all = message_views(messages@);
    let mut n: usize = messages.len();
    assert(all.take(n as int) =~= all);
    while n > 0 && !same(messages[n - 1].role.as_str(), "user")
        invariant
            n <= messages@.len(),
            all == message_views(messages@),
            last_user(all) == last_user(all.take(n as int)),
        ensures
            n <= messages@.len(),
            n > 0 ==> last_user(all) == Some(n - 1),
            n == 0 ==> last_user(all) is None,
        decreases n,
    {
        assert(all.take(n as int).last() == messages@[n - 1]@);
        assert(all.take(n as int).drop_last() =~= all.take(n - 1));
        n -= 1;
    }
    let at: usize = if n > 0 {
        n - 1
    } else {
        messages.len() - 1
    };
    assert(all[at as int] == messages@[at as int]@);
    let changed = ChatMessage {
        role: messages[at].role.clone(),
        content: prompt_with_media_markers(messages[at].content.as_str(), image_count, marker),
    };
    let ghost before = message_views(r@);
    r.set(at, changed);
    assert(message_views(r@) =~= before.update(at as int, changed@));
    r
}

/// Where the text of a prompt comes from.
pub enum PromptSource {
    /// It is the prompt itself, which opens the context.
    Plain(String),
    /// The model's chat template makes it of the messages.
    Chat(Vec<ChatMessage>),
}

/// Where the text of a request's prompt comes from.
pub fn resolve_prompt(request: &GenerationRequest, marker: &str) -> (source: PromptSource)
    ensures
        request@.messages.len() == 0 ==> (source matches PromptSource::Plain(text) && text@
            == with_markers(request@.prompt, request@.images.len(), marker@)),
        request@.messages.len() > 0 ==> (source matches PromptSource::Chat(list) && message_views(
            list@,
        ) == marked_messages(request@.messages, request@.images.len(), marker@)),
{
    if request.messages.len() == 0 {
        PromptSource::Plain(
            prompt_with_media_markers(request.prompt.as_str(), request.images.len(), marker),
        )
    } else {
        PromptSource::Chat(
            messages_with_media_markers(&request.messages, request.images.len(), marker),
        )
    }
}

/// Tells whether one more token may be generated.
pub fn within_generation_limit(generated_tokens: usize, max_tokens: Option<usize>) -> (r: bool)
    ensures
        r == (max_tokens matches Some(max) ==> generated_tokens < max),
{
    match max_tokens {
        Some(max) => generated_tokens < max,
        None => true,
    }
}

/// What prompt and generation come to, or why they cannot.
pub open spec fn total_tokens(prompt_tokens: usize, max_tokens: Option<usize>) -> Result<
    usize,
    EngineError,
> {
    match max_tokens {
        None => Ok(prompt_tokens),
        Some(max) => if max == 0 {
            Err(EngineError::ZeroMaxTokens)
        } else if prompt_tokens + max > usize::MAX {
            Err(EngineError::TotalOverflow)
        } else {
            Ok((prompt_tokens + max) as usize)
        },
    }
}

/// The tokens of prompt and generation together.
pub fn checked_total_tokens_from_prompt_len(prompt_tokens: usize, max_tokens: Option<usize>) -> (r:
    Result<usize, EngineError>)
    ensures
        r == total_tokens(prompt_tokens, max_tokens),
{
    match max_tokens {
        None => Ok(prompt_tokens),
        Some(max) => if max == 0 {
            Err(EngineError::ZeroMaxTokens)
        } else {
            match prompt_tokens.checked_add(max) {
                Some(total) => Ok(total),
                None => Err(EngineError::TotalOverflow),
            }
        },
    }
}

/// What keeps a prompt of so many tokens from starting a generation.
pub open spec fn prompt_fault(prompt_tokens: usize, max_tokens: Option<usize>, n_ctx: usize) -> Option<
    EngineError,
> {
    if prompt_tokens == 0 {
        Some(EngineError::EmptyPrompt)
    } else {
        match total_tokens(prompt_tokens, max_tokens) {
            Err(e) => Some(e),
            Ok(total) => if total > n_ctx {
                Some(EngineError::ContextTooSmall { needed: total, size: n_ctx })
            } else {
                None
            },
        }
    }
}

/// Checks that a prompt of so many tokens can start a generation.
pub fn check_prompt(prompt_tokens: usize, max_tokens: Option<usize>, n_ctx: usize) -> (r: Result<
    (),
    EngineError,
>)
    ensures
        match prompt_fault(prompt_tokens, max_tokens, n_ctx) {
            Some(e) => r == Err::<(), EngineError>(e),
            None => r is Ok,
        },
{
    if prompt_tokens == 0 {
        return Err(EngineError::EmptyPrompt);
    }
    match checked_total_tokens_from_prompt_len(prompt_tokens, max_tokens) {
        Err(e) => Err(e),
        Ok(total) => if total > n_ctx {
            Err(EngineError::ContextTooSmall { needed: total, size: n_ctx })
        } else {
            Ok(())
        },
    }
}

/// The tokens that a prompt with images takes: the larger of its positions and
/// its tokens.
pub fn multimodal_positions(n_pos: i32, n_tokens: usize, n_ctx: usize) -> (r: Result<
    usize,
    EngineError,
>)
    ensures
        ({
            let n = if n_pos > n_tokens {
                n_pos as int
            } else {
                n_tokens as int
            };
            match r {
                Ok(positions) => positions == n && 0 < n <= n_ctx,
                Err(e) => if n == 0 {
                    e == EngineError::EmptyMultimodalPrompt
                } else {
                    n > n_ctx && e == EngineError::MultimodalTooLarge {
                        needed: n as usize,
                        size: n_ctx,
                    }
                },
            }
        }),
{
    let positive: usize = if n_pos > 0 {
        n_pos as usize
    } else {
        0
    };
    let positions: usize = if positive > n_tokens {
        positive
    } else {
        n_tokens
    };
    if positions == 0 {
        Err(EngineError::EmptyMultimodalPrompt)
    } else if positions > n_ctx {
        Err(EngineError::MultimodalTooLarge { needed: positions, size: n_ctx })
    } else {
        Ok(positions)
    }
}

/// Tokens of a prompt that are decoded at a time.
#[derive(Debug, PartialEq, Eq, Clone, Copy, Structural)]
pub struct PromptChunk {
    /// The first of them.
    pub from: usize,
    /// The one behind the last of them.
    pub to: usize,
    /// The position of the first in the context.
    pub position: usize,
}

/// How the tokens of a prompt are decoded.
#[derive(Debug, PartialEq, Eq)]
pub struct PromptPlan {
    /// The tokens, in turn.
    pub chunks: Vec<PromptChunk>,
    /// The place, within the last chunk, of the token whose logits are sampled.
    pub logit_slot: usize,
}

/// Whether chunks cut `count` tokens, from position `start` on, into as many as
/// are decoded at a time and a rest.
pub open spec fn cuts(chunks: Seq<PromptChunk>, start: int, count: int, batch: int) -> bool {
    &&& chunks.len() > 0
    &&& chunks[0].from == 0
    &&& chunks.last().to == count
    &&& forall|k: int|
        0 <= k < chunks.len() ==> {
            let c = #[trigger] chunks[k];
            &&& c.from < c.to <= count
            &&& c.to - c.from <= batch
            &&& c.position == start + c.from
        }
    &&& forall|k: int|
        0 <= k < chunks.len() - 1 ==> {
            let c = #[trigger] chunks[k];
            c.to - c.from == batch && chunks[k + 1].from == c.to
        }
}

/// Plans how `count` tokens are decoded from position `start` on, `batch` at a
/// time.
pub fn plan_prompt(start: usize, count: usize, batch: usize) -> (r: Result<
    Option<PromptPlan>,
    EngineError,
>)
    ensures
        match r {
            Ok(None) => count == 0,
            Ok(Some(plan)) => {
                &&& count > 0
                &&& batch > 0
                &&& start + count - 1 <= i32::MAX
                &&& cuts(plan.chunks@, start as int, count as int, batch as int)
                &&& plan.logit_slot == plan.chunks@.last().to - 1 - plan.chunks@.last().from
            },
            Err(EngineError::NoBatch) => count > 0 && batch == 0,
            Err(e) => count > 0 && batch > 0 && start + count - 1 > i32::MAX && e
                == EngineError::PositionTooLarge,
        },
{
    if count == 0 {
        return Ok(None);
    }
    if batch == 0 {
        return Err(EngineError::NoBatch);
    }
    let limit: usize = i32::MAX as usize;
    if start > limit || count - 1 > limit - start {
        return Err(EngineError::PositionTooLarge);
    }
    let mut chunks: Vec<PromptChunk> = Vec::new();
    let first: usize = if batch < count {
        batch
    } else {
        count
    };
    chunks.push(PromptChunk { from: 0, to: first, position: start });
    let mut done: usize = first;
    while done < count
        invariant
            0 < done <= count,
            batch > 0,
            start + count - 1 <= i32::MAX,
            chunks@.len() > 0,
            chunks@[0].from == 0,
            chunks@.last().to == done,
            done < count ==> chunks@.last().to - chunks@.last().from == batch,
            forall|k: int|
                0 <= k < chunks@.len() ==> {
                    let c = #[trigger] chunks@[k];
                    &&& c.from < c.to <= count
                    &&& c.to - c.from <= batch
                    &&& c.position == start + c.from
                },
            forall|k: int|
                0 <= k < chunks@.len() - 1 ==> {
                    let c = #[trigger] chunks@[k];
                    c.to - c.from == batch && chunks@[k + 1].from == c.to
                },
        decreases count - done,
    {
        let to: usize = if batch < count - done {
            done + batch
        } else {
            count
        };
        let ghost before = chunks@;
        chunks.push(PromptChunk { from: done, to, position: start + done });
        assert forall|k: int| 0 <= k < chunks@.len() - 1 implies {
            let c = #[trigger] chunks@[k];
            c.to - c.from == batch && chunks@[k + 1].from == c.to
        } by {
            assert(chunks@[k] == before[k]);
            if k + 1 < before.len() {
                assert(chunks@[k + 1] == before[k + 1]);
            } else {
                assert(before.last() == before[k]);
            }
        }
        done = to;
    }
    let last = chunks[chunks.len() - 1];
    Ok(Some(PromptPlan { chunks, logit_slot: last.to - 1 - last.from }))
}

/// A control sent to a running generation.
#[derive(Debug, PartialEq, Eq)]
pub enum GenerationControl {
    /// Add to the prompt.
    AppendPrompt {
        /// What to add.
        text: String,
    },
    /// Pause, or go on.
    SetPaused {
        /// Whether to pause.
        paused: bool,
    },
}

/// How a generation ended.
#[derive(Debug, PartialEq, Eq, Clone, Copy, Structural)]
pub enum GenerationOutcome {
    /// By itself.
    Completed,
    /// On request, or because nobody listens.
    Cancelled,
}

/// What the model sampled.
pub enum Sampled {
    /// The token that ends a generation.
    EndOfGeneration,
    /// A token, decoded.
    Text(String),
}

/// What is done with a sampled token, once its text is out.
#[derive(Debug, PartialEq, Eq, Clone, Copy, Structural)]
pub enum Next {
    /// It joins the context, and sampling goes on.
    Commit,
    /// The generation is complete.
    Complete,
}

/// What a sampled token leads to.
#[derive(Debug, PartialEq, Eq)]
pub struct StepPlan {
    /// Text to emit first, if there is any.
    pub emit: Option<String>,
    /// What is done then.
    pub next: Next,
}

/// A running generation.
#[derive(Debug)]
pub struct GenerationState {
    /// The detector of stop markers.
    pub detector: StopDetector,
    /// Whether sampling is paused.
    pub paused: bool,
    /// The tokens in the context.
    pub position: usize,
    /// The tokens that the context holds.
    pub n_ctx: usize,
    /// The most tokens to generate, or no limit.
    pub max_tokens: Option<usize>,
    /// The tokens generated.
    pub generated_tokens: usize,
    /// Whether any text was emitted.
    pub emitted: bool,
    /// The tokens that ended a generation before any text, and were passed over.
    pub leading_control_tokens: usize,
}

/// The tokens that may end a generation before any text without ending it.
pub const LEADING_CONTROL_TOKENS: usize = 4;

/// What a [`GenerationState`] is.
pub ghost struct GenerationView {
    pub stops: Seq<Seq<char>>,
    pub pending: Seq<char>,
    pub paused: bool,
    pub position: int,
    pub n_ctx: int,
    pub max_tokens: Option<usize>,
    pub generated_tokens: int,
    pub emitted: bool,
    pub leading_control_tokens: int,
}

impl View for GenerationState {
    type V = GenerationView;

    open spec fn view(&self) -> GenerationView {
        GenerationView {
            stops: self.detector.stops(),
            pending: self.detector.pending(),
            paused: self.paused,
            position: self.position as int,
            n_ctx: self.n_ctx as int,
            max_tokens: self.max_tokens,
            generated_tokens: self.generated_tokens as int,
            emitted: self.emitted,
            leading_control_tokens: self.leading_control_tokens as int,
        }
    }
}

/// What was sampled, as a plain value: nothing for the end of the generation.
pub open spec fn sampled_text(sampled: Sampled) -> Option<Seq<char>> {
    match sampled {
        Sampled::EndOfGeneration => None,
        Sampled::Text(text) => Some(text@),
    }
}

impl GenerationView {
    /// Whether another token may be sampled.
    pub open spec fn is_ready(self) -> bool {
        self.position < self.n_ctx && (self.max_tokens matches Some(max) ==> self.generated_tokens
            < max)
    }

    /// Whether the state is one that a generation reaches: it generated no more
    /// than stands in the context, within its limits.
    pub open spec fn is_sound(self) -> bool {
        &&& self.generated_tokens <= self.position
        &&& self.leading_control_tokens <= LEADING_CONTROL_TOKENS
    }

    /// Whether a token that would end the generation is passed over.
    pub open spec fn passes_over(self) -> bool {
        !self.emitted && self.leading_control_tokens < LEADING_CONTROL_TOKENS
    }

    /// The state with the sampled token in the context.
    pub open spec fn committed(self) -> GenerationView {
        GenerationView {
            position: self.position + 1,
            generated_tokens: self.generated_tokens + 1,
            ..self
        }
    }

    /// The state with one more token passed over.
    pub open spec fn passed_over(self) -> GenerationView {
        GenerationView {
            leading_control_tokens: self.leading_control_tokens + 1,
            ..self.committed()
        }
    }

    /// What a sampled token leads to: the state then, the text to emit, and what
    /// is done with the token.
    pub open spec fn stepped(self, sampled: Option<Seq<char>>) -> (
        GenerationView,
        Seq<char>,
        Next,
    ) {
        match sampled {
            None => if self.passes_over() {
                (self.passed_over(), Seq::empty(), Next::Commit)
            } else if self.max_tokens is Some {
                (self, Seq::empty(), Next::Complete)
            } else {
                (self.committed(), Seq::empty(), Next::Commit)
            },
            Some(text) => if text.len() == 0 {
                (self.committed(), Seq::empty(), Next::Commit)
            } else {
                let out = pushed(self.stops, self.pending, text);
                let heard = GenerationView {
                    pending: out.pending,
                    emitted: self.emitted || out.emitted.len() > 0,
                    ..self
                };
                if !out.stopped {
                    (heard.committed(), out.emitted, Next::Commit)
                } else if heard.passes_over() {
                    (heard.passed_over(), out.emitted, Next::Commit)
                } else {
                    (heard, out.emitted, Next::Complete)
                }
            },
        }
    }
}

/// The text of an emission: none is the empty text.
pub open spec fn emission(emit: Option<String>) -> Seq<char> {
    match emit {
        Some(text) => text@,
        None => Seq::empty(),
    }
}

impl GenerationState {
    /// A generation whose prompt fills the context up to `position`.
    pub fn start(
        position: usize,
        n_ctx: usize,
        max_tokens: Option<usize>,
        stop: Vec<String>,
    ) -> (r: GenerationState)
        ensures
            r@ == (GenerationView {
                stops: crate::text::nonempty(texts(stop@)),
                pending: Seq::empty(),
                paused: false,
                position: position as int,
                n_ctx: n_ctx as int,
                max_tokens,
                generated_tokens: 0,
                emitted: false,
                leading_control_tokens: 0,
            }),
            r@.is_sound(),
    {
        GenerationState {
            detector: StopDetector::new(stop),
            paused: false,
            position,
            n_ctx,
            max_tokens,
            generated_tokens: 0,
            emitted: false,
            leading_control_tokens: 0,
        }
    }

    /// Tells whether another token may be sampled.
    pub fn ready(&self) -> (r: bool)
        ensures
            r == self@.is_ready(),
    {
        within_generation_limit(self.generated_tokens, self.max_tokens) && self.position
            < self.n_ctx
    }

    /// Takes a control: the text that is to join the context, if there is one.
    pub fn control(&mut self, control: GenerationControl) -> (append: Option<String>)
        ensures
            match control {
                GenerationControl::AppendPrompt { text } => {
                    &&& final(self)@ == old(self)@
                    &&& append matches Some(t) && t@ == text@
                },
                GenerationControl::SetPaused { paused } => {
                    &&& final(self)@ == (GenerationView { paused, ..old(self)@ })
                    &&& append is None
                },
            },
    {
        match control {
            GenerationControl::AppendPrompt { text } => Some(text),
            GenerationControl::SetPaused { paused } => {
                self.paused = paused;
                None
            },
        }
    }

    /// Makes room for the tokens of an appended prompt: how they are decoded, or
    /// nothing where there are none.
    pub fn append(&mut self, tokens: usize, batch: usize) -> (r: Result<
        Option<PromptPlan>,
        EngineError,
    >)
        ensures
            match r {
                Ok(None) => tokens == 0 && final(self)@ == old(self)@,
                Ok(Some(plan)) => {
                    &&& tokens > 0 && batch > 0
                    &&& old(self)@.position + tokens <= old(self)@.n_ctx
                    &&& old(self)@.position + tokens - 1 <= i32::MAX
                    &&& cuts(plan.chunks@, old(self)@.position, tokens as int, batch as int)
                    &&& plan.logit_slot == plan.chunks@.last().to - 1 - plan.chunks@.last().from
                    &&& final(self)@ == (GenerationView {
                        position: old(self)@.position + tokens,
                        ..old(self)@
                    })
                },
                Err(e) => {
                    let needed = old(self)@.position + tokens;
                    &&& tokens > 0 && final(self)@ == old(self)@
                    &&& e == (if needed > usize::MAX {
                        EngineError::CountOverflow
                    } else if needed > old(self)@.n_ctx {
                        EngineError::AppendTooLarge {
                            needed: needed as usize,
                            size: old(self).n_ctx,
                        }
                    } else if batch == 0 {
                        EngineError::NoBatch
                    } else {
                        EngineError::PositionTooLarge
                    })
                    &&& e is PositionTooLarge ==> needed - 1 > i32::MAX
                },
            },
    {
        if tokens == 0 {
            return Ok(None);
        }
        match self.position.checked_add(tokens) {
            None => Err(EngineError::CountOverflow),
            Some(needed) => {
                if needed > self.n_ctx {
                    return Err(EngineError::AppendTooLarge { needed, size: self.n_ctx });
                }
                match plan_prompt(self.position, tokens, batch) {
                    Ok(plan) => {
                        self.position = needed;
                        Ok(plan)
                    },
                    Err(e) => Err(e),
                }
            },
        }
    }

    /// Puts the sampled token into the context.
    fn commit(&mut self)
        requires
            old(self)@.is_ready(),
            old(self)@.is_sound(),
        ensures
            final(self)@ == old(self)@.committed(),
            final(self).detector == old(self).detector,
    {
        self.position = self.position + 1;
        self.generated_tokens = self.generated_tokens + 1;
    }

    /// Takes a sampled token.
    pub fn step(&mut self, sampled: Sampled) -> (plan: StepPlan)
        requires
            old(self)@.is_ready(),
            old(self)@.is_sound(),
        ensures
            ({
                let (state, text, next) = old(self)@.stepped(sampled_text(sampled));
                &&& final(self)@ == state
                &&& emission(plan.emit) == text
                &&& plan.emit is Some <==> text.len() > 0
                &&& plan.next == next
            }),
            final(self)@.is_sound(),
    {
        match sampled {
            Sampled::EndOfGeneration => {
                if !self.emitted && self.leading_control_tokens < LEADING_CONTROL_TOKENS {
                    self.leading_control_tokens = self.leading_control_tokens + 1;
                    self.commit();
                    return StepPlan { emit: None, next: Next::Commit };
                }
                if self.max_tokens.is_some() {
                    return StepPlan { emit: None, next: Next::Complete };
                }
                self.commit();
                StepPlan { emit: None, next: Next::Commit }
            },
            Sampled::Text(text) => {
                if text.as_str().unicode_len() == 0 {
                    self.commit();
                    return StepPlan { emit: None, next: Next::Commit };
                }
                let out = self.detector.push(text.as_str());
                let emit = if out.text.as_str().unicode_len() == 0 {
                    None
                } else {
                    self.emitted = true;
                    Some(out.text)
                };
                if !out.stopped {
                    self.commit();
                    return StepPlan { emit, next: Next::Commit };
                }
                if !self.emitted && self.leading_control_tokens < LEADING_CONTROL_TOKENS {
                    self.leading_control_tokens = self.leading_control_tokens + 1;
                    self.commit();
                    return StepPlan { emit, next: Next::Commit };
                }
                StepPlan { emit, next: Next::Complete }
            },
        }
    }

    /// Ends the generation: what was held back, if anything was.
    pub fn finish(&mut self) -> (trailing: Option<String>)
        ensures
            emission(trailing) == old(self)@.pending,
            trailing is Some <==> old(self)@.pending.len() > 0,
            final(self)@ == (GenerationView { pending: Seq::empty(), ..old(self)@ }),
    {
        let text = self.detector.finish();
        if text.as_str().unicode_len() == 0 {
            None
        } else {
            Some(text)
        }
    }
}

/// A generation never exceeds its limits: a step from a state in which another
/// token may be sampled leaves no more tokens in the context than it holds, and
/// no more generated than asked for.
pub proof fn law_steps_stay_within_limits(state: GenerationView, sampled: Option<Seq<char>>)
    requires
        state.is_ready(),
        state.is_sound(),
    ensures
        state.stepped(sampled).0.position <= state.n_ctx,
        state.stepped(sampled).0.n_ctx == state.n_ctx,
        state.max_tokens matches Some(max) ==> state.stepped(sampled).0.generated_tokens <= max,
        state.stepped(sampled).0.is_sound(),
{
}

/// Once text was emitted, the first stop marker completes the generation, and so
/// does the first token that ends one where the tokens are limited.
pub proof fn law_emitted_generation_ends_at_first_stop(
    state: GenerationView,
    sampled: Option<Seq<char>>,
)
    requires
        state.emitted,
    ensures
        sampled is None && state.max_tokens is Some ==> state.stepped(sampled).2 == Next::Complete,
        sampled matches Some(text) && text.len() > 0 && pushed(
            state.stops,
            state.pending,
            text,
        ).stopped ==> state.stepped(sampled).2 == Next::Complete,
{
}

/// The decoder of the encoding_rs crate.
#[verifier::external_type_specification]
#[verifier::external_body]
pub struct ExDecoder(encoding_rs::Decoder);

/// The bytes that a decoder in use was given so far, where it was made for UTF-8;
/// none of another decoder.
pub uninterp spec fn given(decoder: encoding_rs::Decoder) -> Option<Seq<u8>>;

/// What encoding_rs's `Decoder::decode_to_string` puts out for a stream of bytes
/// that has not ended, however the bytes are cut into calls: the text, and how
/// many malformed sequences it replaced.
pub uninterp spec fn put_out(bytes: Seq<u8>) -> (Seq<char>, nat);

/// What encoding_rs's `Decoder::max_utf8_buffer_length` answers a decoder that
/// was given some bytes, for so many more.
pub uninterp spec fn worst_case(bytes: Seq<u8>, more: usize) -> Option<usize>;

/// The most bytes of a token for which there is always room.
pub const MAX_TOKEN_BYTES: usize = 0x1fff_ffff;

/// encoding_rs's `Encoding::new_decoder` for UTF-8: a decoder that was given
/// nothing.
#[verifier::external_body]
fn utf8_decoder() -> (decoder: encoding_rs::Decoder)
    ensures
        given(decoder) == Some(Seq::<u8>::empty()),
{
    encoding_rs::UTF_8.new_decoder()
}

/// encoding_rs's `Decoder::max_utf8_buffer_length`: how many bytes of text so
/// many bytes may become. The answer depends on what the decoder was given; it
/// is at most three times the bytes and fifteen more, and there is none only
/// where that is beyond `usize`.
#[verifier::external_body]
fn buffer_length(decoder: &encoding_rs::Decoder, bytes: usize) -> (r: Option<usize>)
    requires
        given(*decoder) is Some,
    ensures
        r == worst_case(given(*decoder)->0, bytes),
        r matches Some(room) ==> room <= 3 * bytes + 15,
        r is None ==> 3 * bytes + 15 > usize::MAX,
{
    decoder.max_utf8_buffer_length(bytes)
}

/// What decoding some bytes came to.
#[derive(Debug, PartialEq, Eq)]
pub struct Decoding {
    /// The text.
    pub text: String,
    /// The bytes read.
    pub read: usize,
    /// Whether the text found no more room.
    pub full: bool,
    /// Whether any bytes were malformed.
    pub malformed: bool,
}

/// encoding_rs's `Decoder::decode_to_string` into a text with so much room. With
/// room for the worst case the text is not full; unless it is, all bytes are
/// read, and the text and the malformed sequences join what the stream had put
/// out.
#[verifier::external_body]
fn decode_to_string(decoder: &mut encoding_rs::Decoder, bytes: &[u8], room: usize) -> (r: Decoding)
    requires
        given(*old(decoder)) is Some,
        room <= isize::MAX,
    ensures
        (worst_case(given(*old(decoder))->0, bytes@.len() as usize) matches Some(n) && n <= room)
            ==> !r.full,
        !r.full ==> {
            let before = given(*old(decoder))->0;
            let after = before + bytes@;
            &&& r.read == bytes@.len()
            &&& given(*final(decoder)) == Some(after)
            &&& put_out(after).0 == put_out(before).0 + r.text@
            &&& put_out(after).1 >= put_out(before).1
            &&& r.malformed == (put_out(after).1 > put_out(before).1)
        },
{
    let mut text = String::with_capacity(room);
    let (result, read, malformed) = decoder.decode_to_string(bytes, &mut text, false);
    let full = matches!(result, encoding_rs::CoderResult::OutputFull);
    Decoding { text, read, full, malformed }
}

/// What decoding so many bytes of a token means.
pub fn judged_decoding(decoding: Decoding, bytes: usize) -> (r: Result<String, EngineError>)
    ensures
        match r {
            Ok(text) => !decoding.malformed && decoding.read == bytes && !decoding.full && text
                == decoding.text,
            Err(EngineError::TokenMalformed) => decoding.malformed,
            Err(e) => !decoding.malformed && (decoding.read != bytes || decoding.full) && e
                == EngineError::TokenIncomplete,
        },
{
    if decoding.malformed {
        return Err(EngineError::TokenMalformed);
    }
    if decoding.read != bytes || decoding.full {
        return Err(EngineError::TokenIncomplete);
    }
    Ok(decoding.text)
}

/// Whether a stream that was given some bytes puts out a text for more of them,
/// with nothing malformed.
pub open spec fn decodes_to(before: Seq<u8>, bytes: Seq<u8>, text: Seq<char>) -> bool {
    &&& put_out(before + bytes).0 == put_out(before).0 + text
    &&& put_out(before + bytes).1 == put_out(before).1
}

/// A decoder for the tokens of a generation.
pub fn token_decoder() -> (decoder: encoding_rs::Decoder)
    ensures
        given(decoder) == Some(Seq::<u8>::empty()),
{
    utf8_decoder()
}

/// Decodes the bytes of a token. A character that they begin comes with the token
/// that completes it.
pub fn decode_token_bytes(decoder: &mut encoding_rs::Decoder, token_bytes: &[u8]) -> (r: Result<
    String,
    EngineError,
>)
    requires
        given(*old(decoder)) is Some,
    ensures
        match r {
            Err(EngineError::TokenTooLarge) => {
                &&& token_bytes@.len() > MAX_TOKEN_BYTES
                &&& *final(decoder) == *old(decoder)
            },
            Err(e) => {
                let before = given(*old(decoder))->0;
                &&& e == EngineError::TokenMalformed
                &&& put_out(before + token_bytes@).1 > put_out(before).1
                &&& given(*final(decoder)) == Some(before + token_bytes@)
            },
            Ok(text) => {
                let before = given(*old(decoder))->0;
                &&& decodes_to(before, token_bytes@, text@)
                &&& given(*final(decoder)) == Some(before + token_bytes@)
            },
        },
{
    match buffer_length(decoder, token_bytes.len()) {
        None => Err(EngineError::TokenTooLarge),
        Some(room) => if room > isize::MAX as usize {
            Err(EngineError::TokenTooLarge)
        } else {
            judged_decoding(decode_to_string(decoder, token_bytes, room), token_bytes.len())
        },
    }
}

/// A token whose bytes come in two pieces decodes to what it decodes to as a
/// whole, wherever it is cut.
pub proof fn law_pieces_decode_as_the_whole(
    before: Seq<u8>,
    first: Seq<u8>,
    second: Seq<u8>,
    head: Seq<char>,
    tail: Seq<char>,
    whole: Seq<char>,
)
    requires
        decodes_to(before, first, head),
        decodes_to(before + first, second, tail),
        decodes_to(before, first + second, whole),
    ensures
        whole == head + tail,
{
    let start = put_out(before).0;
    assert(before + first + second =~= before + (first + second));
    assert(start + head + tail =~= start + (head + tail));
    assert(whole =~= (start + whole).skip(start.len() as int));
    assert(head + tail =~= (start + (head + tail)).skip(start.len() as int));
}

/// Without stop markers, the text of a token is emitted as it is, and the token takes
/// its place in the context.
pub proof fn law_text_of_a_token_is_emitted(state: GenerationView, text: Seq<char>)
    requires
        state.stops.len() == 0,
        text.len() > 0,
    ensures
        ({
            let (next, emitted, what) = state.stepped(Some(text));
            &&& emitted == text
            &&& what == Next::Commit
            &&& next.emitted
            &&& next.position == state.position + 1
            &&& next.generated_tokens == state.generated_tokens + 1
            &&& next.pending == state.pending
            &&& next.leading_control_tokens == state.leading_control_tokens
        }),
{
}

/// A token without text emits nothing, and takes its place in the context.
pub proof fn law_token_without_text_is_silent(state: GenerationView)
    ensures
        state.stepped(Some(Seq::empty())).1.len() == 0,
        state.stepped(Some(Seq::empty())).2 == Next::Commit,
        state.stepped(Some(Seq::empty())).0 == (GenerationView {
            position: state.position + 1,
            generated_tokens: state.generated_tokens + 1,
            ..state
        }),
{
}

/// Before anything was emitted, up to four tokens that would end the generation are
/// passed over, and emit nothing; the fifth ends one whose tokens are limited, and an
/// unlimited one goes on.
pub proof fn law_four_leading_ends_are_passed_over(state: GenerationView)
    requires
        !state.emitted,
    ensures
        state.stepped(None).1.len() == 0,
        state.leading_control_tokens < 4 ==> {
            &&& state.stepped(None).2 == Next::Commit
            &&& state.stepped(None).0.leading_control_tokens == state.leading_control_tokens + 1
            &&& !state.stepped(None).0.emitted
        },
        state.leading_control_tokens >= 4 && state.max_tokens is Some ==> state.stepped(None).2
            == Next::Complete,
        state.max_tokens is None ==> state.stepped(None).2 == Next::Commit,
{
}

/// A prompt starts a generation just where it has tokens and, with those asked for,
/// fits into the context.
pub proof fn law_fitting_prompt_starts_a_generation(
    prompt_tokens: usize,
    max_tokens: Option<usize>,
    n_ctx: usize,
)
    ensures
        prompt_fault(prompt_tokens, max_tokens, n_ctx) is None <==> prompt_tokens > 0 && match max_tokens {
            Some(max) => max > 0 && prompt_tokens + max <= n_ctx,
            None => prompt_tokens <= n_ctx,
        },
        max_tokens matches Some(max) ==> 0 < prompt_tokens && 0 < max && n_ctx < prompt_tokens + max
            <= usize::MAX ==> prompt_fault(prompt_tokens, max_tokens, n_ctx) == Some(
            EngineError::ContextTooSmall { needed: (prompt_tokens + max) as usize, size: n_ctx },
        ),
{
}

/// The markers of images go to the last message of a user and to no other; it keeps
/// its words, and the markers stand on a line behind them, one for each image.
pub proof fn law_images_go_to_the_last_user(
    before: Seq<MessageView>,
    asked: MessageView,
    after: Seq<MessageView>,
    marker: Seq<char>,
)
    requires
        asked.role == "user"@,
        !is_blank(asked.content),
        forall|i: int| 0 <= i < after.len() ==> (#[trigger] after[i]).role != "user"@,
    ensures
        marked_messages(before + seq![asked] + after, 0, marker) == before + seq![asked] + after,
        marked_messages(before + seq![asked] + after, 1, marker) == before + seq![
            MessageView { role: "user"@, content: asked.content + seq!['\n'] + marker },
        ] + after,
        marked_messages(before + seq![asked] + after, 2, marker) == before + seq![
            MessageView {
                role: "user"@,
                content: asked.content + seq!['\n'] + (marker + seq![' '] + marker),
            },
        ] + after,
{
    let messages = before + seq![asked] + after;
    let n = before.len() as int;
    lemma_last_user(before, asked, after);
    let one = Seq::new(1, |i: int| marker);
    let two = Seq::new(2, |i: int| marker);
    assert(one =~= seq![marker]);
    assert(two.drop_last() =~= seq![marker]);
    assert(two.last() == marker);
    reveal_with_fuel(joined, 3);
    assert(joined(one, seq![' ']) == marker);
    assert(joined(two, seq![' ']) == marker + seq![' '] + marker);
    assert(messages[n] == asked);
    assert(marked_messages(messages, 1, marker) =~= before + seq![
        MessageView { role: "user"@, content: asked.content + seq!['\n'] + marker },
    ] + after);
    assert(marked_messages(messages, 2, marker) =~= before + seq![
        MessageView {
            role: "user"@,
            content: asked.content + seq!['\n'] + (marker + seq![' '] + marker),
        },
    ] + after);
}

proof fn lemma_last_user(before: Seq<MessageView>, asked: MessageView, after: Seq<MessageView>)
    requires
        asked.role == "user"@,
        forall|i: int| 0 <= i < after.len() ==> (#[trigger] after[i]).role != "user"@,
    ensures
        last_user(before + seq![asked] + after) == Some(before.len() as int),
    decreases after.len(),
{
    let messages = before + seq![asked] + after;
    if after.len() == 0 {
        assert(messages.last() == asked);
    } else {
        let less = after.drop_last();
        assert forall|i: int| 0 <= i < less.len() implies (#[trigger] less[i]).role != "user"@ by {
            assert(less[i] == after[i]);
        }
        lemma_last_user(before, asked, less);
        assert(after[after.len() - 1].role != "user"@);
        assert(messages.last() == after.last());
        assert(messages.drop_last() =~= before + seq![asked] + less);
    }
}

/// A prompt is decoded in full batches, one behind the other, and a rest: the batch
/// with a number begins at so many batches from the start, in the prompt and in the
/// context alike.
pub proof fn law_batches_follow_each_other(
    chunks: Seq<PromptChunk>,
    start: int,
    count: int,
    batch: int,
    k: int,
)
    requires
        cuts(chunks, start, count, batch),
        0 <= k < chunks.len(),
    ensures
        chunks[k].from == k * batch,
        chunks[k].position == start + k * batch,
        k < chunks.len() - 1 ==> chunks[k].to == (k + 1) * batch,
        k == chunks.len() - 1 ==> chunks[k].to == count,
    decreases k,
{
    if k > 0 {
        law_batches_follow_each_other(chunks, start, count, batch, k - 1);
        let c = chunks[k - 1];
        assert(c.to - c.from == batch && chunks[(k - 1) + 1].from == c.to);
    } else {
        assert(0 * batch == 0) by (nonlinear_arith);
    }
    assert((k + 1) * batch == k * batch + batch) by (nonlinear_arith);
    let c = chunks[k];
    if k < chunks.len() - 1 {
        assert(c.to - c.from == batch);
    } else {
        assert(c == chunks.last());
    }
    assert(c.position == start + c.from);
}

/// Tokens are drawn greedily just where the temperature is not above zero; else from
/// as many candidates as wanted, at least one, at that temperature, and from the
/// nucleus as it is where it lies between nothing and everything.
pub proof fn law_sampling_follows_the_settings(
    plan: SamplerPlan,
    temperature: Seq<char>,
    top_p: Seq<char>,
    top_k: i32,
)
    requires
        is_sampler_plan(plan, temperature, top_p, top_k),
    ensures
        plan is Greedy <==> is_at_most_single(temperature, "0.0"@),
        plan matches SamplerPlan::Random { top_k: k, top_p: p, temperature: t } ==> {
            &&& t@ == temperature
            &&& k >= 1
            &&& top_k >= 1 ==> k == top_k
            &&& !is_at_most_single(top_p, "0.0"@) && !is_at_most_single("1.0"@, top_p) ==> p@ == top_p
        },
{
}

} // verus!
