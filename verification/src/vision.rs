//! What the eye sees, put into words: what a model is asked about a picture,
//! and what becomes of its answer.

use std::collections::VecDeque;
use vstd::prelude::*;

use crate::chars::CharClass;
use crate::decimal::{decimal, decimal_text};
use crate::digest::{base64_bytes, base64_decode, byte_len, text_bytes};
use crate::ident::Id;
use crate::impression::Confidence;
use crate::ingestion::raw_frame_views;
use crate::json::{first_string, named, parse, parsed, Fields, Json, JsonView};
use crate::llm::{
    ChatMessage, GenerationImage, GenerationRequest, ImageView, MessageView, RequestView,
};
use crate::messages::{
    ImpressionRecordView, RawVisionFrame, RawVisionFrameView, SensationRecordView,
    VisionImpressionRecord,
};
use crate::text::{
    blank, collapse, collapsed, ends, ends_with, find_of, first_of, is_blank, is_spaced,
    lemma_first_of_unique, lemma_pieces_step, lemma_pieces_whole, lemma_trimmed_noop, optional, pieces,
    skip, split, starts, starts_with, take, texts, trim, trim_of, trimmed, trimmed_of,
};
use crate::time::Timestamp;

verus! {

/// The most tokens of an impression.
pub const MAX_VISION_TOKENS: usize = 96;

/// How sure an impression of the eye is.
pub const VISION_BASE_CONFIDENCE: &'static str = "0.6499999761581421";

/// The longest picture that is looked at.
pub const MAX_VISION_DATA_CHARS: usize = 2_000_000;

/// The longest impression that is logged whole.
pub const MAX_VISION_LOG_CHARS: usize = 220;

/// The impression where a model has none.
pub const VISION_FALLBACK_IMPRESSION: &'static str =
    "I have live vision, but I cannot make out a grounded visual impression from it.";

/// How a model is to look.
pub const VISION_SYSTEM_PROMPT: &'static str = "You are the vision faculty between the eye and the Wit. \
You receive my vision, not a detached image.\n\
Infer only from the attached visual input. Name concrete visible objects, people, layout, text, or activity when present.\n\
Write one short first-person present-tense impression. Use \"I\" and \"my\" naturally.\n\
Prefer direct perception phrasing such as \"I see ...\". Do not write \"My vision shows ...\".\n\
If people are visible, do not assume any visible person is me unless the vision is clearly a mirror or reflection.\n\
Do not mention screenshots, photos, frames, cameras, metadata, data URLs, computed facts, or analysis. Return only the impression sentence.";

/// What a model is asked about a picture.
pub const VISION_PROMPT: &'static str = "The attached visual input is what I am seeing now.\n\
Write one short first-person present-tense impression from the visual content. \
Prefer concrete scene details over lighting or color summaries.";

/// How a model is to look.
pub fn vision_system_prompt() -> (s: &'static str)
    ensures
        s@ == VISION_SYSTEM_PROMPT@,
{
    VISION_SYSTEM_PROMPT
}

/// What a model is asked about a picture.
pub fn build_vision_prompt() -> (s: &'static str)
    ensures
        s@ == VISION_PROMPT@,
{
    VISION_PROMPT
}

// ---------------------------------------------------------------------------
// Frames.

/// The frame to look at next: the latest, unless it was looked at last.
pub open spec fn next_frame(frames: Seq<RawVisionFrameView>, last: Option<Id>) -> Option<
    RawVisionFrameView,
> {
    if frames.len() == 0 || last == Some(frames.last().sensation.id) {
        None
    } else {
        Some(frames.last())
    }
}

/// Takes the latest frame to look at, unless it was looked at last.
pub fn latest_unsampled_frame(
    frames: &VecDeque<RawVisionFrame>,
    last_sampled: &mut Option<Id>,
) -> (r: Option<RawVisionFrame>)
    ensures
        match next_frame(raw_frame_views(frames@), *old(last_sampled)) {
            Some(frame) => {
                &&& r matches Some(taken) && taken@ == frame
                &&& *final(last_sampled) == Some(frame.sensation.id)
            },
            None => r is None && *final(last_sampled) == *old(last_sampled),
        },
{
    let len: usize = frames.len();
    if len == 0 {
        return None;
    }
    assert(raw_frame_views(frames@).last() == frames@[len - 1]@);
    let latest = &frames[len - 1];
    match *last_sampled {
        Some(id) => {
            if id.bits == latest.sensation.id.bits {
                return None;
            }
        },
        None => {},
    }
    *last_sampled = Some(latest.sensation.id);
    Some(latest.clone())
}

/// No frame is looked at twice in a row.
pub proof fn law_no_frame_is_looked_at_twice(frames: Seq<RawVisionFrameView>, last: Option<Id>)
    ensures
        next_frame(frames, last) matches Some(frame) ==> next_frame(frames, Some(frame.sensation.id))
            is None,
{
}

/// What stands in a data URL behind the comma.
pub open spec fn url_payload(data: Seq<char>) -> Option<Seq<char>> {
    let n = first_of(data, CharClass::Comma);
    if n < data.len() {
        Some(data.skip(n as int + 1))
    } else {
        None
    }
}

/// What stands in a data URL behind the comma.
pub fn frame_data_base64<'a>(frame: &'a RawVisionFrame) -> (r: Result<&'a str, String>)
    ensures
        match url_payload(frame@.data) {
            Some(payload) => r matches Ok(s) && s@ == payload,
            None => r matches Err(e) && e@ == "vision frame data URL is missing base64 separator"@,
        },
{
    let data = frame.data.as_str();
    let n: usize = find_of(data, CharClass::Comma);
    if n < data.unicode_len() {
        Ok(skip(data, n + 1))
    } else {
        Err("vision frame data URL is missing base64 separator".to_owned())
    }
}

/// The bytes of a picture, or why there are none.
pub open spec fn picture_bytes(data: Seq<char>) -> Result<Seq<u8>, Seq<char>> {
    match url_payload(data) {
        None => Err("vision frame data URL is missing base64 separator"@),
        Some(payload) => match base64_bytes(trimmed(payload)) {
            Ok(bytes) => Ok(bytes),
            Err(_) => Err("failed to decode vision frame payload"@),
        },
    }
}

/// The bytes of a picture.
pub fn decode_frame_image_bytes(frame: &RawVisionFrame) -> (r: Result<Vec<u8>, String>)
    ensures
        match picture_bytes(frame@.data) {
            Ok(bytes) => r matches Ok(read) && read@ == bytes,
            Err(e) => r matches Err(told) && told@ == e,
        },
{
    match frame_data_base64(frame) {
        Err(e) => Err(e),
        Ok(payload) => match base64_decode(trim(payload)) {
            Ok(bytes) => Ok(bytes),
            Err(_) => Err("failed to decode vision frame payload".to_owned()),
        },
    }
}

/// A picture: its width and height in pixels, and the red, green and blue of each
/// pixel, line by line.
#[derive(Debug, PartialEq, Eq)]
pub struct Picture {
    /// The pixels of a line.
    pub width: u32,
    /// The lines.
    pub height: u32,
    /// Three bytes for each pixel.
    pub rgb: Vec<u8>,
}

/// What the image crate's `load_from_memory` reads from the bytes of a picture,
/// as the width, the height and the pixels that `DynamicImage::to_rgb8` gives.
pub uninterp spec fn decoded_picture(bytes: Seq<u8>) -> Option<(u32, u32, Seq<u8>)>;

/// What a picture is, if there is one.
pub open spec fn picture_view(picture: Option<Picture>) -> Option<(u32, u32, Seq<u8>)> {
    match picture {
        Some(p) => Some((p.width, p.height, p.rgb@)),
        None => None,
    }
}

/// The image crate's `load_from_memory`, and the pixels of what it reads. Claims
/// that both depend on the bytes alone.
#[verifier::external_body]
fn load_picture(bytes: &Vec<u8>) -> (r: Option<Picture>)
    ensures
        picture_view(r) == decoded_picture(bytes@),
{
    let read = image::load_from_memory(bytes).ok()?.to_rgb8();
    Some(Picture { width: read.width(), height: read.height(), rgb: read.into_raw() })
}

/// The picture of a frame, or why there is none.
pub fn decode_frame_image(frame: &RawVisionFrame) -> (r: Result<Picture, String>)
    ensures
        match picture_bytes(frame@.data) {
            Err(e) => r matches Err(told) && told@ == e,
            Ok(bytes) => match decoded_picture(bytes) {
                Some(p) => r matches Ok(read) && picture_view(Some(read)) == Some(p),
                None => r matches Err(told) && told@ == "failed to decode vision frame image"@,
            },
        },
{
    match decode_frame_image_bytes(frame) {
        Err(e) => Err(e),
        Ok(bytes) => match load_picture(&bytes) {
            Some(picture) => Ok(picture),
            None => Err("failed to decode vision frame image".to_owned()),
        },
    }
}

// ---------------------------------------------------------------------------
// What a model is asked.

/// Where an answer ends.
pub open spec fn turn_ends() -> Seq<Seq<char>> {
    seq!["<turn|>"@, "<end_of_turn>"@, "<|im_end|>"@]
}

/// Where an answer ends.
pub fn llm_stop_markers() -> (list: Vec<String>)
    ensures
        texts(list@) == turn_ends(),
{
    let mut list: Vec<String> = Vec::new();
    list.push("<turn|>".to_owned());
    list.push("<end_of_turn>".to_owned());
    list.push("<|im_end|>".to_owned());
    assert(texts(list@) =~= turn_ends());
    list
}

/// What a model is asked about the bytes of a picture.
pub open spec fn look_at(mime: Seq<char>, bytes: Seq<u8>) -> RequestView {
    RequestView {
        prompt: Seq::empty(),
        messages: seq![
            MessageView { role: "system"@, content: VISION_SYSTEM_PROMPT@ },
            MessageView { role: "user"@, content: VISION_PROMPT@ },
        ],
        images: seq![ImageView { mime, data: bytes }],
        max_tokens: Some(96),
        stop: turn_ends(),
    }
}

/// Asks about a picture.
pub fn vision_request(mime: &str, bytes: Vec<u8>) -> (r: GenerationRequest)
    ensures
        r@ == look_at(mime@, bytes@),
{
    let mut messages: Vec<ChatMessage> = Vec::new();
    messages.push(ChatMessage::new("system", vision_system_prompt()));
    messages.push(ChatMessage::new("user", build_vision_prompt()));
    let mut images: Vec<GenerationImage> = Vec::new();
    let ghost wanted = look_at(mime@, bytes@);
    images.push(GenerationImage::new(mime, bytes));
    let r = GenerationRequest {
        prompt: String::new(),
        messages,
        images,
        max_tokens: Some(MAX_VISION_TOKENS),
        stop: llm_stop_markers(),
    };
    assert(r@.messages =~= wanted.messages);
    assert(r@.images =~= wanted.images);
    assert(r@.prompt =~= Seq::<char>::empty());
    r
}

/// The impression of a picture that is too long to be looked at.
pub open spec fn oversized_text(width: u32, height: u32) -> Seq<char> {
    "I am receiving live vision from my camera, but the "@ + decimal(width as nat) + "x"@ + decimal(
        height as nat,
    ) + " payload is too large to inspect directly."@
}

/// The impression of a picture that is too long to be looked at.
pub fn oversized_vision_impression(frame: &RawVisionFrame) -> (s: String)
    ensures
        s@ == oversized_text(frame@.sensation.media.width, frame@.sensation.media.height),
{
    let mut s = "I am receiving live vision from my camera, but the ".to_owned();
    s.push_str(decimal_text(frame.sensation.media.width as u128).as_str());
    s.push_str("x");
    s.push_str(decimal_text(frame.sensation.media.height as u128).as_str());
    s.push_str(" payload is too large to inspect directly.");
    s
}

/// What was seen.
#[derive(Debug)]
pub struct VisionDescription {
    /// The impression.
    pub text: String,
    /// What it rests on.
    pub payload: Json,
}

/// What a [`VisionDescription`] is.
pub ghost struct DescriptionView {
    pub text: Seq<char>,
    pub payload: JsonView,
}

impl View for VisionDescription {
    type V = DescriptionView;

    open spec fn view(&self) -> DescriptionView {
        DescriptionView { text: self.text@, payload: self.payload@ }
    }
}

/// What is said of a picture that is too long to be looked at.
pub open spec fn oversized_description(frame: RawVisionFrameView) -> DescriptionView {
    DescriptionView {
        text: oversized_text(frame.sensation.media.width, frame.sensation.media.height),
        payload: JsonView::Object(
            seq![
                named("data_chars"@, JsonView::Number(decimal(text_bytes(frame.data) as nat))),
                named("reason"@, JsonView::Str("payload_too_large"@)),
            ],
        ),
    }
}

/// Describes a picture that is too long to be looked at; none where a model has
/// to be asked.
pub fn describe_oversized(frame: &RawVisionFrame) -> (r: Option<VisionDescription>)
    ensures
        match r {
            Some(d) => text_bytes(frame@.data) > 2_000_000 && d@ == oversized_description(frame@),
            None => text_bytes(frame@.data) <= 2_000_000,
        },
{
    let bytes: usize = byte_len(frame.data.as_str());
    if bytes <= MAX_VISION_DATA_CHARS {
        return None;
    }
    let fields = Fields::new()
        .with("data_chars", Json::count(bytes as u64))
        .with("reason", Json::text("payload_too_large"));
    assert(fields@ =~= oversized_description(frame@).payload->Object_0);
    Some(VisionDescription { text: oversized_vision_impression(frame), payload: fields.object() })
}

// ---------------------------------------------------------------------------
// What it answers.

/// A text without the white space round it and the ends of turns behind it.
pub open spec fn unmarked(s: Seq<char>) -> Seq<char>
    decreases s.len(),
{
    proof {
        crate::text::lemma_trimmed_within(s, CharClass::WhiteSpace);
        reveal_strlit("<turn|>");
        reveal_strlit("<end_of_turn>");
        reveal_strlit("<|im_end|>");
    }
    let t = trimmed(s);
    if ends(t, "<turn|>"@) {
        unmarked(t.take(t.len() - 7))
    } else if ends(t, "<end_of_turn>"@) {
        unmarked(t.take(t.len() - 13))
    } else if ends(t, "<|im_end|>"@) {
        unmarked(t.take(t.len() - 10))
    } else {
        t
    }
}

/// A text without the white space round it and the ends of turns behind it.
pub fn strip_known_stop_markers<'a>(text: &'a str) -> (r: &'a str)
    ensures
        r@ == unmarked(text@),
    decreases text@.len(),
{
    proof {
        crate::text::lemma_trimmed_within(text@, CharClass::WhiteSpace);
        reveal_strlit("<turn|>");
        reveal_strlit("<end_of_turn>");
        reveal_strlit("<|im_end|>");
    }
    let t = trim(text);
    let len: usize = t.unicode_len();
    if ends_with(t, "<turn|>") {
        strip_known_stop_markers(take(t, len - 7))
    } else if ends_with(t, "<end_of_turn>") {
        strip_known_stop_markers(take(t, len - 13))
    } else if ends_with(t, "<|im_end|>") {
        strip_known_stop_markers(take(t, len - 10))
    } else {
        t
    }
}

/// What is left of an answer ends with no end of a turn, and with no white
/// space.
pub proof fn law_stripped_answer_has_no_end_marker(s: Seq<char>)
    ensures
        forall|i: int| 0 <= i < 3 ==> !ends(unmarked(s), #[trigger] turn_ends()[i]),
        trimmed(unmarked(s)) == unmarked(s),
    decreases s.len(),
{
    let t = trimmed(s);
    crate::text::lemma_trimmed_within(s, CharClass::WhiteSpace);
    crate::text::lemma_trim_idempotent(s, CharClass::WhiteSpace);
    reveal_strlit("<turn|>");
    reveal_strlit("<end_of_turn>");
    reveal_strlit("<|im_end|>");
    if ends(t, "<turn|>"@) {
        law_stripped_answer_has_no_end_marker(t.take(t.len() - 7));
    } else if ends(t, "<end_of_turn>"@) {
        law_stripped_answer_has_no_end_marker(t.take(t.len() - 13));
    } else if ends(t, "<|im_end|>"@) {
        law_stripped_answer_has_no_end_marker(t.take(t.len() - 10));
    } else {
        assert forall|i: int| 0 <= i < 3 implies !ends(unmarked(s), #[trigger] turn_ends()[i]) by {
            assert(i == 0 || i == 1 || i == 2);
        }
    }
}

/// The first line that has more than white space in it, without the white space
/// round it.
pub open spec fn first_line(lines: Seq<Seq<char>>) -> Seq<char>
    decreases lines.len(),
{
    if lines.len() == 0 {
        Seq::empty()
    } else if is_blank(lines[0]) {
        first_line(lines.skip(1))
    } else {
        trimmed(lines[0])
    }
}

/// A text without all that it begins with of one kind.
pub open spec fn unprefixed(s: Seq<char>, p: Seq<char>) -> Seq<char>
    decreases s.len(),
{
    if p.len() > 0 && starts(s, p) {
        unprefixed(s.skip(p.len() as int), p)
    } else {
        s
    }
}

/// The sentence that an answer begins with.
pub open spec fn headline(answer: Seq<char>) -> Seq<char> {
    trimmed(
        unprefixed(
            trimmed_of(first_line(pieces(answer, CharClass::Newline)), CharClass::DoubleQuote),
            "Impression:"@,
        ),
    )
}

fn trim_prefixes<'a>(s: &'a str, p: &str) -> (r: &'a str)
    ensures
        r@ == unprefixed(s@, p@),
    decreases s@.len(),
{
    let n: usize = p.unicode_len();
    if n > 0 && starts_with(s, p) {
        trim_prefixes(skip(s, n), p)
    } else {
        s
    }
}

fn find_first_line(answer: &str) -> (s: String)
    ensures
        s@ == first_line(pieces(answer@, CharClass::Newline)),
{
    let lines = split(answer, CharClass::Newline);
    let ghost all = texts(lines@);
    let mut i: usize = 0;
    assert(all.skip(0) =~= all);
    while i < lines.len()
        invariant
            i <= lines@.len(),
            all == texts(lines@),
            all == pieces(answer@, CharClass::Newline),
            first_line(all) == first_line(all.skip(i as int)),
        decreases lines@.len() - i,
    {
        assert(all.skip(i as int)[0] == lines@[i as int]@);
        assert(all.skip(i as int).skip(1) =~= all.skip(i + 1));
        if !blank(lines[i].as_str()) {
            return trim(lines[i].as_str()).to_owned();
        }
        i += 1;
    }
    String::new()
}

/// The sentence that an answer begins with.
pub fn first_sentence_like_line(answer: &str) -> (s: String)
    ensures
        s@ == headline(answer@),
{
    let line = find_first_line(answer);
    trim(trim_prefixes(trim_of(line.as_str(), CharClass::DoubleQuote), "Impression:")).to_owned()
}

/// The impression that an answer gives, by what it is read as: a string in it,
/// where it is JSON; else the sentence that it begins with, unless there is none
/// or that is JSON itself.
pub open spec fn impression_in(
    answer: Seq<char>,
    read: Option<JsonView>,
    line_is_json: bool,
    fallback: Seq<char>,
) -> Seq<char> {
    let string = match read {
        Some(v) => first_string(v),
        None => None,
    };
    match string {
        Some(s) => s,
        None => if headline(answer).len() == 0 || line_is_json {
            fallback
        } else {
            headline(answer)
        },
    }
}

/// What an optional value is.
pub open spec fn read_as(v: Option<Json>) -> Option<JsonView> {
    match v {
        Some(v) => Some(v@),
        None => None,
    }
}

/// The impression that an answer gives, by what it is read as.
pub fn choose_impression(answer: &str, read: &Option<Json>, line_is_json: bool, fallback: &str) -> (s:
    String)
    ensures
        s@ == impression_in(answer@, read_as(*read), line_is_json, fallback@),
{
    match read {
        Some(json) => match json.first_nonempty_string() {
            Some(s) => {
                return s;
            },
            None => {},
        },
        None => {},
    }
    let line = first_sentence_like_line(answer);
    if line.as_str().unicode_len() == 0 || line_is_json {
        fallback.to_owned()
    } else {
        line
    }
}

/// The impression that an answer gives.
pub open spec fn cleaned(generated: Seq<char>, fallback: Seq<char>) -> Seq<char> {
    let answer = unmarked(trimmed(generated));
    impression_in(answer, parsed(answer), parsed(headline(answer)) is Some, fallback)
}

/// The first string in a text that is JSON, where one has more than white space
/// in it.
pub fn extract_nonempty_json_string(text: &str) -> (r: Option<String>)
    ensures
        optional(r) == (match parsed(text@) {
            Some(v) => first_string(v),
            None => None,
        }),
{
    match parse(text) {
        Some(json) => json.first_nonempty_string(),
        None => None,
    }
}

/// Tells whether a text is JSON.
pub fn looks_like_empty_json_response(text: &str) -> (r: bool)
    ensures
        r == (parsed(text@) is Some),
{
    match parse(text) {
        Some(_) => true,
        None => false,
    }
}

/// The impression that an answer gives.
pub fn clean_impression(generated: &str, fallback: &str) -> (s: String)
    ensures
        s@ == cleaned(generated@, fallback@),
{
    let answer = strip_known_stop_markers(trim(generated));
    let read = parse(answer);
    let line = first_sentence_like_line(answer);
    let line_is_json = looks_like_empty_json_response(line.as_str());
    choose_impression(answer, &read, line_is_json, fallback)
}

/// What is said of a picture that a model was asked about.
pub fn described(generated: &str, summary: Json) -> (d: VisionDescription)
    ensures
        d@ == (DescriptionView {
            text: cleaned(generated@, VISION_FALLBACK_IMPRESSION@),
            payload: summary@,
        }),
{
    VisionDescription { text: clean_impression(generated, VISION_FALLBACK_IMPRESSION), payload: summary }
}

/// A text for the log: its white space collapsed, and cut where it is long.
pub open spec fn log_text(text: Seq<char>, max: nat) -> Seq<char> {
    let compact = collapsed(text);
    if compact.len() > max {
        compact.take(max as int) + "..."@
    } else {
        compact
    }
}

/// A text for the log.
pub fn compact_log_text(text: &str, max_chars: usize) -> (s: String)
    ensures
        s@ == log_text(text@, max_chars as nat),
{
    let compact = collapse(text);
    if compact.as_str().unicode_len() > max_chars {
        let mut s = take(compact.as_str(), max_chars).to_owned();
        s.push_str("...");
        s
    } else {
        compact
    }
}

/// A text for the log is no longer than it may be and the dots.
pub proof fn law_log_text_is_bounded(text: Seq<char>, max: nat)
    ensures
        log_text(text, max).len() <= max + 3,
{
    reveal_strlit("...");
}

/// The impression of a frame that was seen.
pub open spec fn seen(
    id: Id,
    frame: SensationRecordView,
    observed_at: Timestamp,
    d: DescriptionView,
) -> ImpressionRecordView {
    ImpressionRecordView {
        id,
        sensation_id: frame.id,
        occurred_at: frame.occurred_at,
        observed_at,
        source: frame.source,
        sequence: frame.sequence,
        text: d.text,
        kind: "vision"@,
        faculty: "Vision Faculty"@,
        confidence: "0.6499999761581421"@,
        payload: d.payload,
    }
}

/// The impression of a frame that was seen.
pub fn vision_impression(
    id: Id,
    frame: &RawVisionFrame,
    observed_at: Timestamp,
    description: VisionDescription,
) -> (r: VisionImpressionRecord)
    ensures
        r@ == seen(id, frame@.sensation, observed_at, description@),
{
    VisionImpressionRecord {
        id,
        sensation_id: frame.sensation.id,
        occurred_at: frame.sensation.occurred_at,
        observed_at,
        source: frame.sensation.source.clone(),
        sequence: frame.sensation.sequence,
        text: description.text,
        kind: "vision".to_owned(),
        faculty: "Vision Faculty".to_owned(),
        confidence: Confidence::of(VISION_BASE_CONFIDENCE),
        payload: description.payload,
    }
}

/// The frame to look at is the latest that came, and no other.
pub proof fn law_latest_frame_is_looked_at(
    frames: Seq<RawVisionFrameView>,
    frame: RawVisionFrameView,
    last: Option<Id>,
)
    ensures
        last != Some(frame.sensation.id) ==> next_frame(frames.push(frame), last) == Some(frame),
        last == Some(frame.sensation.id) ==> next_frame(frames.push(frame), last) is None,
        next_frame(Seq::<RawVisionFrameView>::empty(), last) is None,
{
}

/// The bytes of a picture are those that its data URL holds behind the first comma,
/// whatever stands before it.
pub proof fn law_picture_stands_behind_the_comma(head: Seq<char>, payload: Seq<char>)
    requires
        forall|i: int| 0 <= i < head.len() ==> (#[trigger] head[i]) != ',',
        is_spaced(payload),
    ensures
        base64_bytes(payload) matches Ok(bytes) ==> picture_bytes(head + seq![','] + payload) == Ok::<
            Seq<u8>,
            Seq<char>,
        >(bytes),
        base64_bytes(payload) is Err ==> picture_bytes(head + seq![','] + payload) is Err,
        picture_bytes(head) is Err,
{
    let data = head + seq![','] + payload;
    let n = head.len();
    assert forall|i: int| 0 <= i < n implies !CharClass::Comma.holds(#[trigger] data[i]) by {
        assert(data[i] == head[i]);
    }
    lemma_first_of_unique(data, CharClass::Comma, n);
    assert(data.skip(n as int + 1) =~= payload);
    lemma_trimmed_noop(payload, CharClass::WhiteSpace);
    assert forall|i: int| 0 <= i < n implies !CharClass::Comma.holds(#[trigger] head[i]) by {}
    lemma_first_of_unique(head, CharClass::Comma, n);
}

/// A plain line that is no JSON is the impression, word for word, whatever turn
/// mark ends it and whatever lines follow it.
pub proof fn law_plain_answer_is_the_impression(line: Seq<char>, fallback: Seq<char>)
    requires
        line.len() > 0,
        is_spaced(line),
        forall|i: int| #![trigger line[i]]
            0 <= i < line.len() ==> line[i] != '\n' && line[i] != '"' && line[i] != '>',
        !starts(line, "Impression:"@),
        parsed(line) is None,
    ensures
        headline(line) == line,
        cleaned(line, fallback) == line,
        forall|rest: Seq<char>| headline(#[trigger] (line + seq!['\n'] + rest)) == line,
        cleaned(line + "<turn|>"@, fallback) == line,
        cleaned(line + "<end_of_turn>"@, fallback) == line,
{
    lemma_plain_headline(line);
    assert forall|rest: Seq<char>| headline(#[trigger] (line + seq!['\n'] + rest)) == line by {
        assert forall|i: int| 0 <= i < line.len() implies !CharClass::Newline.holds(
            #[trigger] line[i],
        ) by {}
        lemma_pieces_step(line, '\n', rest, CharClass::Newline);
        lemma_trimmed_noop(line, CharClass::WhiteSpace);
        lemma_trimmed_noop(line, CharClass::DoubleQuote);
        let list = pieces(line + seq!['\n'] + rest, CharClass::Newline);
        assert(list[0] == line);
        assert(first_line(list) == line);
    }
    lemma_unmarked_stays(line);
    lemma_trimmed_noop(line, CharClass::WhiteSpace);
    lemma_mark_is_cut(line, "<turn|>"@);
    lemma_mark_is_cut(line, "<end_of_turn>"@);
}

pub proof fn lemma_plain_headline(line: Seq<char>)
    requires
        line.len() > 0,
        is_spaced(line),
        forall|i: int| #![trigger line[i]] 0 <= i < line.len() ==> line[i] != '\n' && line[i] != '"',
        !starts(line, "Impression:"@),
    ensures
        headline(line) == line,
{
    assert forall|i: int| 0 <= i < line.len() implies !CharClass::Newline.holds(
        #[trigger] line[i],
    ) by {}
    lemma_pieces_whole(line, CharClass::Newline);
    lemma_trimmed_noop(line, CharClass::WhiteSpace);
    lemma_trimmed_noop(line, CharClass::DoubleQuote);
    let list = pieces(line, CharClass::Newline);
    assert(list[0] == line);
    assert(first_line(list) == line);
}

proof fn lemma_unmarked_stays(line: Seq<char>)
    requires
        line.len() > 0,
        is_spaced(line),
        line.last() != '>',
    ensures
        unmarked(line) == line,
{
    reveal_strlit("<turn|>");
    reveal_strlit("<end_of_turn>");
    reveal_strlit("<|im_end|>");
    lemma_trimmed_noop(line, CharClass::WhiteSpace);
    assert(trimmed(line) == line);
    let n = line.len() as int;
    if ends(line, "<turn|>"@) {
        assert(line.subrange(n - 7, n)[6] == line[n - 1]);
    }
    if ends(line, "<end_of_turn>"@) {
        assert(line.subrange(n - 13, n)[12] == line[n - 1]);
    }
    if ends(line, "<|im_end|>"@) {
        assert(line.subrange(n - 10, n)[9] == line[n - 1]);
    }
}

proof fn lemma_mark_is_cut(line: Seq<char>, mark: Seq<char>)
    requires
        line.len() > 0,
        is_spaced(line),
        line.last() != '>',
        mark == "<turn|>"@ || mark == "<end_of_turn>"@,
    ensures
        unmarked(trimmed(line + mark)) == line,
{
    reveal_strlit("<turn|>");
    reveal_strlit("<end_of_turn>");
    reveal_strlit("<|im_end|>");
    let s = line + mark;
    let n = s.len() as int;
    assert(s[0] == line[0]);
    assert(s.last() == mark.last());
    assert(mark.last() == '>');
    lemma_trimmed_noop(s, CharClass::WhiteSpace);
    assert(trimmed(s) == s);
    assert(s.subrange(n - mark.len(), n) =~= mark);
    assert(s.take(n - mark.len()) =~= line);
    lemma_unmarked_stays(line);
    if mark == "<end_of_turn>"@ {
        if ends(s, "<turn|>"@) {
            assert(s.subrange(n - 7, n)[5] == s[n - 2]);
            assert(s[n - 2] == mark[11]);
        }
    }
}

/// Where an answer is JSON, the first string in it that says something is the
/// impression.
pub proof fn law_json_answer_gives_its_string(answer: Seq<char>, v: JsonView, fallback: Seq<char>)
    requires
        answer.len() > 0,
        is_spaced(answer),
        answer.last() != '>',
        parsed(answer) == Some(v),
    ensures
        first_string(v) matches Some(s) ==> cleaned(answer, fallback) == s,
        forall|s: Seq<char>|
            is_spaced(s) && s.len() > 0 ==> #[trigger] first_string(JsonView::Str(s)) == Some(s),
{
    lemma_unmarked_stays(answer);
    lemma_trimmed_noop(answer, CharClass::WhiteSpace);
    assert forall|s: Seq<char>| is_spaced(s) && s.len() > 0 implies #[trigger] first_string(
        JsonView::Str(s),
    ) == Some(s) by {
        lemma_trimmed_noop(s, CharClass::WhiteSpace);
    }
}

} // verus!
