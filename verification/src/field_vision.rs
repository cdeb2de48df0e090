//! The field of vision, put into words from the text of a picture alone.

use vstd::prelude::*;

use crate::chars::CharClass;
use crate::decimal::{decimal, decimal_text};
use crate::digest::{byte_len, text_bytes};
use crate::ident::Id;
use crate::impression::Confidence;
use crate::json::{Json, JsonView};
use crate::llm::{ChatMessage, GenerationRequest, ImageView, MessageView, RequestView};
use crate::messages::{
    ImpressionRecordView, RawVisionFrame, RawVisionFrameView, SensationRecordView,
    VisionImpressionRecord,
};
use crate::text::{ends, is_spaced, lemma_trimmed_noop, starts, texts, trim, trimmed};
use crate::time::Timestamp;
use crate::vision::{first_sentence_like_line, headline, lemma_plain_headline};

verus! {

/// The most tokens of an impression.
pub const MAX_FIELD_VISION_TOKENS: usize = 96;

/// How sure an impression of the field of vision is.
pub const FIELD_VISION_BASE_CONFIDENCE: &'static str = "0.6499999761581421";

/// The longest picture that is put into a prompt.
pub const MAX_FIELD_VISION_DATA_CHARS: usize = 32_000;

/// How a model is to look.
pub const FIELD_VISION_SYSTEM_PROMPT: &'static str = "You are the field-vision faculty between the eye and the Wit. \
You receive my live field of vision, not a detached image.\n\
Write one short first-person present-tense impression. Use \"I\" and \"my\" naturally.\n\
If people are visible, do not assume any visible person is me unless the field of vision is clearly a mirror or reflection.\n\
Do not mention screenshots, photos, frames, cameras, metadata, data URLs, or analysis. Return only the impression sentence.";

/// How a model is to look.
pub fn field_vision_system_prompt() -> (s: &'static str)
    ensures
        s@ == FIELD_VISION_SYSTEM_PROMPT@,
{
    FIELD_VISION_SYSTEM_PROMPT
}

/// Where an answer ends.
pub fn llm_stop_markers() -> (list: Vec<String>)
    ensures
        texts(list@) == seq!["<turn|>"@],
{
    let mut list: Vec<String> = Vec::new();
    list.push("<turn|>".to_owned());
    assert(texts(list@) =~= seq!["<turn|>"@]);
    list
}

/// What a model is asked about a frame.
pub open spec fn field_prompt(frame: RawVisionFrameView) -> Seq<char> {
    let s = frame.sensation;
    "The next visual payload is my current field of vision.\nsource="@ + s.source.sensor_id
        + " sequence="@ + decimal(s.sequence as nat) + " occurred_at="@
        + s.occurred_at.spec_rfc3339() + " size="@ + decimal(s.media.width as nat) + "x"@ + decimal(
        s.media.height as nat,
    ) + " mime="@ + s.media.mime + "\n<start_of_image>\n"@ + frame.data + "\n<end_of_image>\n"@
}

/// What a model is asked about a frame.
pub fn build_field_vision_prompt(frame: &RawVisionFrame) -> (s: String)
    ensures
        s@ == field_prompt(frame@),
{
    let sensation = &frame.sensation;
    let mut s = "The next visual payload is my current field of vision.\nsource=".to_owned();
    s.push_str(sensation.source.sensor_id.as_str());
    s.push_str(" sequence=");
    s.push_str(decimal_text(sensation.sequence as u128).as_str());
    s.push_str(" occurred_at=");
    s.push_str(sensation.occurred_at.to_rfc3339().as_str());
    s.push_str(" size=");
    s.push_str(decimal_text(sensation.media.width as u128).as_str());
    s.push_str("x");
    s.push_str(decimal_text(sensation.media.height as u128).as_str());
    s.push_str(" mime=");
    s.push_str(sensation.media.mime.as_str());
    s.push_str("\n<start_of_image>\n");
    s.push_str(frame.data.as_str());
    s.push_str("\n<end_of_image>\n");
    s
}

/// What a model is asked about a frame, with how it is to look.
pub open spec fn look_over(frame: RawVisionFrameView) -> RequestView {
    RequestView {
        prompt: Seq::empty(),
        messages: seq![
            MessageView { role: "system"@, content: FIELD_VISION_SYSTEM_PROMPT@ },
            MessageView { role: "user"@, content: field_prompt(frame) },
        ],
        images: Seq::empty(),
        max_tokens: Some(96),
        stop: seq!["<turn|>"@],
    }
}

/// The impression of a picture that is too long for a prompt.
pub open spec fn oversized_text(width: u32, height: u32) -> Seq<char> {
    "I am receiving a live visual field from my camera, but the "@ + decimal(width as nat) + "x"@
        + decimal(height as nat) + " payload is too large to inspect directly."@
}

/// The impression of a picture that is too long for a prompt.
pub fn oversized_field_impression(frame: &RawVisionFrame) -> (s: String)
    ensures
        s@ == oversized_text(frame@.sensation.media.width, frame@.sensation.media.height),
{
    let mut s = "I am receiving a live visual field from my camera, but the ".to_owned();
    s.push_str(decimal_text(frame.sensation.media.width as u128).as_str());
    s.push_str("x");
    s.push_str(decimal_text(frame.sensation.media.height as u128).as_str());
    s.push_str(" payload is too large to inspect directly.");
    s
}

/// Asks about a frame; the impression itself where its picture is too long for a
/// prompt.
pub fn field_vision_request(frame: &RawVisionFrame) -> (r: Result<GenerationRequest, String>)
    ensures
        match r {
            Ok(request) => text_bytes(frame@.data) <= 32_000 && request@ == look_over(frame@),
            Err(impression) => text_bytes(frame@.data) > 32_000 && impression@ == oversized_text(
                frame@.sensation.media.width,
                frame@.sensation.media.height,
            ),
        },
{
    if byte_len(frame.data.as_str()) > MAX_FIELD_VISION_DATA_CHARS {
        return Err(oversized_field_impression(frame));
    }
    let mut messages: Vec<ChatMessage> = Vec::new();
    messages.push(ChatMessage::new("system", field_vision_system_prompt()));
    messages.push(ChatMessage::new("user", build_field_vision_prompt(frame).as_str()));
    let r = GenerationRequest {
        prompt: String::new(),
        messages,
        images: Vec::new(),
        max_tokens: Some(MAX_FIELD_VISION_TOKENS),
        stop: llm_stop_markers(),
    };
    assert(r@.messages =~= look_over(frame@).messages);
    assert(r@.images =~= Seq::<ImageView>::empty());
    assert(r@.prompt =~= Seq::<char>::empty());
    Ok(r)
}

/// The impression that an answer gives.
pub open spec fn cleaned(generated: Seq<char>) -> Seq<char> {
    let line = headline(trimmed(generated));
    if line.len() == 0 {
        "I am looking at my field of vision."@
    } else {
        line
    }
}

/// The impression that an answer gives.
pub fn clean_impression(generated: &str) -> (s: String)
    ensures
        s@ == cleaned(generated@),
{
    let line = first_sentence_like_line(trim(generated));
    if line.as_str().unicode_len() == 0 {
        "I am looking at my field of vision.".to_owned()
    } else {
        line
    }
}

/// The impression of a field of vision.
pub open spec fn overseen(
    id: Id,
    frame: SensationRecordView,
    observed_at: Timestamp,
    text: Seq<char>,
) -> ImpressionRecordView {
    ImpressionRecordView {
        id,
        sensation_id: frame.id,
        occurred_at: frame.occurred_at,
        observed_at,
        source: frame.source,
        sequence: frame.sequence,
        text,
        kind: "vision.field"@,
        faculty: "Field Vision Faculty"@,
        confidence: "0.6499999761581421"@,
        payload: JsonView::Null,
    }
}

/// The impression of a field of vision.
pub fn field_vision_impression(
    id: Id,
    frame: &RawVisionFrame,
    observed_at: Timestamp,
    how: String,
) -> (r: VisionImpressionRecord)
    ensures
        r@ == overseen(id, frame@.sensation, observed_at, how@),
{
    VisionImpressionRecord {
        id,
        sensation_id: frame.sensation.id,
        occurred_at: frame.sensation.occurred_at,
        observed_at,
        source: frame.sensation.source.clone(),
        sequence: frame.sensation.sequence,
        text: how,
        kind: "vision.field".to_owned(),
        faculty: "Field Vision Faculty".to_owned(),
        confidence: Confidence::of(FIELD_VISION_BASE_CONFIDENCE),
        payload: Json::Null,
    }
}

/// A plain line that a model answers is the impression of the field of vision as it
/// stands.
pub proof fn law_plain_answer_is_what_is_seen(line: Seq<char>)
    requires
        line.len() > 0,
        is_spaced(line),
        forall|i: int| #![trigger line[i]] 0 <= i < line.len() ==> line[i] != '\n' && line[i] != '"',
        !starts(line, "Impression:"@),
    ensures
        cleaned(line) == line,
{
    lemma_trimmed_noop(line, CharClass::WhiteSpace);
    lemma_plain_headline(line);
}

/// The impression of a field of vision is of the frame looked at: it has its moment,
/// its source and its number, and the words that were found.
pub proof fn law_impression_is_of_the_frame(
    id: Id,
    frame: SensationRecordView,
    observed_at: Timestamp,
    text: Seq<char>,
)
    ensures
        ({
            let i = overseen(id, frame, observed_at, text);
            &&& i.id == id
            &&& i.sensation_id == frame.id
            &&& i.occurred_at == frame.occurred_at
            &&& i.observed_at == observed_at
            &&& i.source == frame.source
            &&& i.sequence == frame.sequence
            &&& i.text == text
            &&& i.kind == "vision.field"@
        }),
{
}

/// A model is told how to look first, and is then shown the picture, between the
/// marks of one.
pub proof fn law_picture_is_shown(frame: RawVisionFrameView)
    ensures
        look_over(frame).messages.len() == 2,
        look_over(frame).messages[0].role == "system"@,
        look_over(frame).messages[1].role == "user"@,
        ends(
            look_over(frame).messages[1].content,
            "\n<start_of_image>\n"@ + frame.data + "\n<end_of_image>\n"@,
        ),
{
    let content = field_prompt(frame);
    let tail = "\n<start_of_image>\n"@ + frame.data + "\n<end_of_image>\n"@;
    assert(look_over(frame).messages[1].content == content);
    assert(content.subrange(content.len() - tail.len(), content.len() as int) =~= tail);
}

} // verus!
