//! The streaming interface to a language model.

use std::collections::HashMap;
use vstd::prelude::*;

use crate::ident::{fresh_id, hyphenated, id_text, Id};
use crate::text::texts;

verus! {

/// The identifier of a running generation.
#[derive(Debug, Clone, Copy, PartialEq, Eq, Structural)]
pub struct GenerationId(pub Id);

/// An image that goes with a prompt.
#[derive(Debug, PartialEq, Eq)]
pub struct GenerationImage {
    /// Its media type.
    pub mime: String,
    /// Its encoded bytes.
    pub data: Vec<u8>,
}

/// What a [`GenerationImage`] is.
pub ghost struct ImageView {
    pub mime: Seq<char>,
    pub data: Seq<u8>,
}

impl View for GenerationImage {
    type V = ImageView;

    open spec fn view(&self) -> ImageView {
        ImageView { mime: self.mime@, data: self.data@ }
    }
}

impl Clone for GenerationImage {
    fn clone(&self) -> (r: GenerationImage)
        ensures
            r@ == self@,
    {
        let data = self.data.clone();
        assert(data@ =~= self.data@);
        GenerationImage { mime: self.mime.clone(), data }
    }
}

impl GenerationImage {
    /// An image.
    pub fn new(mime: &str, data: Vec<u8>) -> (r: GenerationImage)
        ensures
            r@ == (ImageView { mime: mime@, data: data@ }),
    {
        GenerationImage { mime: mime.to_owned(), data }
    }
}

/// One message of a chat.
#[derive(Debug, PartialEq, Eq)]
pub struct ChatMessage {
    /// Who speaks: `system`, `user` or `assistant`.
    pub role: String,
    /// What is said.
    pub content: String,
}

/// What a [`ChatMessage`] is.
pub ghost struct MessageView {
    pub role: Seq<char>,
    pub content: Seq<char>,
}

impl View for ChatMessage {
    type V = MessageView;

    open spec fn view(&self) -> MessageView {
        MessageView { role: self.role@, content: self.content@ }
    }
}

impl Clone for ChatMessage {
    fn clone(&self) -> (r: ChatMessage)
        ensures
            r@ == self@,
    {
        ChatMessage { role: self.role.clone(), content: self.content.clone() }
    }
}

impl ChatMessage {
    /// A message.
    pub fn new(role: &str, content: &str) -> (r: ChatMessage)
        ensures
            r@ == (MessageView { role: role@, content: content@ }),
    {
        ChatMessage { role: role.to_owned(), content: content.to_owned() }
    }
}

/// The messages of a list.
pub open spec fn message_views(list: Seq<ChatMessage>) -> Seq<MessageView> {
    list.map_values(|m: ChatMessage| m@)
}

/// A copy of a list of messages.
pub fn copy_messages(list: &Vec<ChatMessage>) -> (r: Vec<ChatMessage>)
    ensures
        message_views(r@) == message_views(list@),
{
    let mut r: Vec<ChatMessage> = Vec::new();
    let mut i: usize = 0;
    while i < list.len()
        invariant
            i <= list@.len(),
            r@.len() == i,
            forall|k: int| 0 <= k < i ==> (#[trigger] r@[k])@ == list@[k]@,
        decreases list@.len() - i,
    {
        r.push(list[i].clone());
        i += 1;
    }
    assert(message_views(r@) =~= message_views(list@));
    r
}

/// What a model is asked for.
#[derive(Debug)]
pub struct GenerationRequest {
    /// The prompt, where there are no messages.
    pub prompt: String,
    /// The chat so far, or nothing.
    pub messages: Vec<ChatMessage>,
    /// The images that go with it.
    pub images: Vec<GenerationImage>,
    /// The most tokens to generate, or no limit.
    pub max_tokens: Option<usize>,
    /// The texts before which generation ends.
    pub stop: Vec<String>,
}

/// What a [`GenerationRequest`] is.
pub ghost struct RequestView {
    pub prompt: Seq<char>,
    pub messages: Seq<MessageView>,
    pub images: Seq<ImageView>,
    pub max_tokens: Option<usize>,
    pub stop: Seq<Seq<char>>,
}

impl View for GenerationRequest {
    type V = RequestView;

    open spec fn view(&self) -> RequestView {
        RequestView {
            prompt: self.prompt@,
            messages: message_views(self.messages@),
            images: self.images@.map_values(|i: GenerationImage| i@),
            max_tokens: self.max_tokens,
            stop: texts(self.stop@),
        }
    }
}

impl Default for GenerationRequest {
    fn default() -> (r: GenerationRequest)
        ensures
            r@ == (RequestView {
                prompt: Seq::empty(),
                messages: Seq::empty(),
                images: Seq::empty(),
                max_tokens: None,
                stop: Seq::empty(),
            }),
    {
        let r = GenerationRequest {
            prompt: String::new(),
            messages: Vec::new(),
            images: Vec::new(),
            max_tokens: None,
            stop: Vec::new(),
        };
        assert(r@.messages =~= Seq::<MessageView>::empty());
        assert(r@.images =~= Seq::<ImageView>::empty());
        assert(r@.stop =~= Seq::<Seq<char>>::empty());
        r
    }
}

/// What a generation reports.
#[derive(Debug, PartialEq, Eq)]
pub enum LlmEvent {
    /// More text.
    Token {
        /// The text.
        text: String,
    },
    /// The limit of generated tokens was reached.
    MaxTokens {
        /// The tokens generated.
        generated_tokens: usize,
    },
    /// The generation ended by itself.
    Completed,
    /// The generation was cancelled.
    Cancelled,
    /// The generation failed.
    Error {
        /// Why.
        message: String,
    },
}

/// What an [`LlmEvent`] is.
pub ghost enum EventView {
    Token(Seq<char>),
    MaxTokens(usize),
    Completed,
    Cancelled,
    Error(Seq<char>),
}

impl View for LlmEvent {
    type V = EventView;

    open spec fn view(&self) -> EventView {
        match self {
            LlmEvent::Token { text } => EventView::Token(text@),
            LlmEvent::MaxTokens { generated_tokens } => EventView::MaxTokens(*generated_tokens),
            LlmEvent::Completed => EventView::Completed,
            LlmEvent::Cancelled => EventView::Cancelled,
            LlmEvent::Error { message } => EventView::Error(message@),
        }
    }
}

impl EventView {
    /// Whether nothing follows the event.
    pub open spec fn is_terminal(self) -> bool {
        !(self is Token) && !(self is MaxTokens)
    }
}

/// Tells whether nothing follows an event.
pub fn is_terminal_event(event: &LlmEvent) -> (r: bool)
    ensures
        r == event@.is_terminal(),
{
    match event {
        LlmEvent::Completed => true,
        LlmEvent::Cancelled => true,
        LlmEvent::Error { .. } => true,
        _ => false,
    }
}

/// The events of a list.
pub open spec fn event_views(list: Seq<LlmEvent>) -> Seq<EventView> {
    list.map_values(|e: LlmEvent| e@)
}

/// Why an engine refused.
#[derive(Debug, PartialEq, Eq)]
pub struct LlmError {
    /// The reason in words.
    pub message: String,
}

/// The reason given where appends are not supported.
pub open spec fn no_appends(id: GenerationId) -> Seq<char> {
    "generation GenerationId("@ + hyphenated(id.0) + ") does not support prompt appends"@
}

/// The refusal of an engine that cannot add to a prompt.
pub fn refused_append(id: GenerationId) -> (e: LlmError)
    ensures
        e.message@ == no_appends(id),
{
    let mut message = "generation GenerationId(".to_owned();
    message.push_str(id_text(id.0).as_str());
    message.push_str(") does not support prompt appends");
    LlmError { message }
}

/// What came of polling a generation: what it reported, or the refusal.
pub open spec fn polled_view(r: Result<Vec<LlmEvent>, LlmError>) -> Result<
    Seq<EventView>,
    Seq<char>,
> {
    match r {
        Ok(events) => Ok(event_views(events@)),
        Err(e) => Err(e.message@),
    }
}

/// Whether an engine did what it was asked, or the refusal.
pub open spec fn done_view<T>(r: Result<T, LlmError>) -> Result<T, Seq<char>> {
    match r {
        Ok(done) => Ok(done),
        Err(e) => Err(e.message@),
    }
}

/// What an engine was asked, and what it answered.
#[allow(inconsistent_fields)]
pub ghost enum EngineCall {
    Start { request: RequestView, answer: Result<GenerationId, Seq<char>> },
    Poll { id: GenerationId, answer: Result<Seq<EventView>, Seq<char>> },
    Cancel { id: GenerationId, answer: Result<(), Seq<char>> },
    Append { id: GenerationId, text: Seq<char>, answer: Result<(), Seq<char>> },
}

/// What runs generations.
pub trait LlmEngine {
    /// What the engine was asked, in turn, and what it answered. Each engine keeps
    /// its own record.
    open spec fn calls(&self) -> Seq<EngineCall> {
        Seq::empty()
    }

    /// Starts a generation.
    fn start(&mut self, request: GenerationRequest) -> (r: Result<GenerationId, LlmError>)
        ensures
            final(self).calls() == old(self).calls().push(
                EngineCall::Start { request: request@, answer: done_view(r) },
            ),
    ;

    /// What a generation has reported since the last call.
    fn poll(&mut self, id: GenerationId) -> (r: Result<Vec<LlmEvent>, LlmError>)
        ensures
            final(self).calls() == old(self).calls().push(
                EngineCall::Poll { id, answer: polled_view(r) },
            ),
    ;

    /// Cancels a generation.
    fn cancel(&mut self, id: GenerationId) -> (r: Result<(), LlmError>)
        ensures
            final(self).calls() == old(self).calls().push(
                EngineCall::Cancel { id, answer: done_view(r) },
            ),
    ;

    /// Adds to the prompt of a running generation. An engine that cannot refuses
    /// with [`refused_append`].
    fn append_prompt(&mut self, id: GenerationId, text: String) -> (r: Result<(), LlmError>)
        ensures
            final(self).calls() == old(self).calls().push(
                EngineCall::Append { id, text: text@, answer: done_view(r) },
            ),
    ;
}

/// An engine that answers every request with the same tokens.
pub struct MockLlmEngine {
    response_tokens: Vec<String>,
    active: HashMap<u128, usize>,
    history: Ghost<Seq<EngineCall>>,
}

/// The refusal where a generation is not running.
fn not_found() -> (e: LlmError)
    ensures
        e.message@ == "generation not found"@,
{
    LlmError { message: "generation not found".to_owned() }
}

impl MockLlmEngine {
    /// The tokens of every answer.
    pub closed spec fn response(&self) -> Seq<Seq<char>> {
        texts(self.response_tokens@)
    }

    /// The running generations, each with the tokens already given out.
    pub closed spec fn active(&self) -> Map<u128, usize> {
        self.active@
    }

    /// An engine with an answer.
    pub fn with_response(response_tokens: Vec<String>) -> (r: MockLlmEngine)
        ensures
            r.response() == texts(response_tokens@),
            r.active() == Map::<u128, usize>::empty(),
            r.calls() == Seq::<EngineCall>::empty(),
    {
        MockLlmEngine { response_tokens, active: HashMap::new(), history: Ghost(Seq::empty()) }
    }
}

impl Default for MockLlmEngine {
    fn default() -> (r: MockLlmEngine)
        ensures
            r.response() == seq!["[]"@],
            r.active() == Map::<u128, usize>::empty(),
            r.calls() == Seq::<EngineCall>::empty(),
    {
        let mut tokens: Vec<String> = Vec::new();
        tokens.push("[]".to_owned());
        assert(texts(tokens@) =~= seq!["[]"@]);
        MockLlmEngine::with_response(tokens)
    }
}

impl LlmEngine for MockLlmEngine {
    closed spec fn calls(&self) -> Seq<EngineCall> {
        self.history@
    }

    fn start(&mut self, request: GenerationRequest) -> (r: Result<GenerationId, LlmError>)
        ensures
            r matches Ok(id) && final(self).active() == old(self).active().insert(id.0.bits, 0),
            final(self).response() == old(self).response(),
    {
        broadcast use vstd::std_specs::hash::group_hash_axioms;

        let id = fresh_id();
        self.active.insert(id.bits, 0);
        let r: Result<GenerationId, LlmError> = Ok(GenerationId(id));
        self.history = Ghost(
            self.history@.push(EngineCall::Start { request: request@, answer: done_view(r) }),
        );
        r
    }

    fn poll(&mut self, id: GenerationId) -> (r: Result<Vec<LlmEvent>, LlmError>)
        ensures
            final(self).response() == old(self).response(),
            r is Ok,
            !old(self).active().contains_key(id.0.bits) ==> final(self).active() == old(
                self,
            ).active() && event_views(r->Ok_0@) == seq![EventView::Error("generation not found"@)],
            old(self).active().contains_key(id.0.bits) ==> {
                let n = old(self).active()[id.0.bits];
                if n < old(self).response().len() {
                    &&& event_views(r->Ok_0@) == seq![EventView::Token(
                        old(self).response()[n as int],
                    )]
                    &&& final(self).active() == old(self).active().insert(
                        id.0.bits,
                        (n + 1) as usize,
                    )
                } else {
                    &&& event_views(r->Ok_0@) == seq![EventView::Completed]
                    &&& final(self).active() == old(self).active().remove(id.0.bits)
                }
            },
    {
        broadcast use vstd::std_specs::hash::group_hash_axioms;

        let mut events: Vec<LlmEvent> = Vec::new();
        let given: Option<usize> = match self.active.get(&id.0.bits) {
            Some(n) => Some(*n),
            None => None,
        };
        match given {
            None => {
                events.push(LlmEvent::Error { message: not_found().message });
                assert(event_views(events@) =~= seq![EventView::Error("generation not found"@)]);
            },
            Some(n) => {
                if n < self.response_tokens.len() {
                    let text = self.response_tokens[n].clone();
                    self.active.insert(id.0.bits, n + 1);
                    events.push(LlmEvent::Token { text });
                    assert(event_views(events@) =~= seq![EventView::Token(text@)]);
                } else {
                    self.active.remove(&id.0.bits);
                    events.push(LlmEvent::Completed);
                    assert(event_views(events@) =~= seq![EventView::Completed]);
                }
            },
        }
        let r: Result<Vec<LlmEvent>, LlmError> = Ok(events);
        self.history = Ghost(
            self.history@.push(EngineCall::Poll { id, answer: polled_view(r) }),
        );
        r
    }

    fn cancel(&mut self, id: GenerationId) -> (r: Result<(), LlmError>)
        ensures
            final(self).response() == old(self).response(),
            final(self).active() == old(self).active().remove(id.0.bits),
            r is Ok <==> old(self).active().contains_key(id.0.bits),
            r matches Err(e) ==> e.message@ == "generation not found"@,
    {
        broadcast use vstd::std_specs::hash::group_hash_axioms;

        let r = if self.active.remove(&id.0.bits).is_some() {
            Ok(())
        } else {
            Err(not_found())
        };
        self.history = Ghost(self.history@.push(EngineCall::Cancel { id, answer: done_view(r) }));
        r
    }

    fn append_prompt(&mut self, id: GenerationId, text: String) -> (r: Result<(), LlmError>)
        ensures
            final(self).response() == old(self).response(),
            final(self).active() == old(self).active(),
            r is Ok <==> old(self).active().contains_key(id.0.bits),
            r matches Err(e) ==> e.message@ == "generation not found"@,
    {
        broadcast use vstd::std_specs::hash::group_hash_axioms;

        let r = if self.active.contains_key(&id.0.bits) {
            Ok(())
        } else {
            Err(not_found())
        };
        self.history = Ghost(
            self.history@.push(EngineCall::Append { id, text: text@, answer: done_view(r) }),
        );
        r
    }
}

} // verus!
