//! Speech: how sound is cut into groups, and what is recorded of the words that
//! are heard in them.
//!
//! A sample is the thirty-two bits of a binary floating-point number.

use std::collections::VecDeque;
use vstd::prelude::*;
use vstd::slice::slice_subrange;

use crate::decimal::decimal;
use crate::digest::{
    base64_bytes, base64_decode, base64_encode, base64_text, byte_len, decoded, hex, sha256,
    sha256_hex, sha256_text, text_bytes, text_digest,
};
use crate::impression::Confidence;
use crate::ingestion::{check_sender, record_sensation, record_views, sender_fault, ASR_CHANNEL};
use crate::json::{field, json_text, lemma_field_at, named, Fields, Json, JsonView};
use crate::logs::{logged, push_limited, MAX_RECORDED_AUDIO_SENTENCE_CLIPS};
use crate::messages::{
    copy_bits, AudioClipMessage, AudioClipMessageView, AudioSentenceClipRecord, BroadcastView,
    ClipView, ImpressionRecordView, MediaRecord, MediaView, RealTimeExperienceEvent,
    SensationRecord, SensationRecordView, SensationSource, SourceView, VisionImpressionRecord,
};
use crate::seqs::flat;
use crate::sensation::{Provenance, ProvenanceView};
use crate::text::{
    blank, collapse, collapsed, is_blank, is_spaced, join, joined, lemma_spaced_stays, same,
};
use crate::time::{in_range, Timestamp, NANOS_PER_MILLI};
use crate::voice_memory::clip_views;
use crate::voice_records::{impression_views, record_impression, RecordIds};

verus! {

/// The samples of a second.
pub const WHISPER_SAMPLE_RATE_HZ: u32 = 16_000;

/// The channels of sound.
pub const MONO_CHANNELS: u16 = 1;

/// The samples of a frame.
pub const ASR_FRAME_SAMPLES: usize = 160;

/// The frames of speech in a row that open a group.
pub const OPEN_AFTER_SPEECH_FRAMES: usize = 3;

/// The frames of silence in a row that close a group.
pub const CLOSE_AFTER_SILENCE_FRAMES: usize = 70;

/// The length at which speech closes a group, in milliseconds.
pub const MAX_GROUP_MS: u64 = 20_000;

/// The length from which a group is looked at before it is closed.
pub const SPECULATIVE_AFTER_MS: u64 = 600;

/// How sure words are.
pub const ASR_CONFIDENCE: &'static str = "0.7200000286102295";

/// How sure words are before their group is closed.
pub const SPECULATIVE_ASR_CONFIDENCE: &'static str = "0.41999998688697815";

/// What is wrong with a clip.
pub open spec fn clip_fault(m: AudioClipMessageView) -> Option<Seq<char>> {
    match sender_fault(
        ASR_CHANNEL@,
        "audio.clip"@,
        "kind must be audio.clip"@,
        m.kind,
        m.client_id,
        m.sensor_id,
        m.faculty,
    ) {
        Some(fault) => Some(fault),
        None => if !(100 <= m.duration_ms <= 1000) {
            Some("duration_ms must be between 100 and 1000"@)
        } else if m.sample_rate_hz == 0 {
            Some("sample_rate_hz must be greater than zero"@)
        } else if m.channels != 1 {
            Some("channels must be 1"@)
        } else if m.sample_format != "f32le"@ {
            Some("sample_format must be f32le"@)
        } else if is_blank(m.data) {
            Some("missing data"@)
        } else {
            None
        },
    }
}

/// Checks a clip.
pub fn validate_clip(message: &AudioClipMessage) -> (r: Result<(), String>)
    ensures
        match clip_fault(message@) {
            Some(fault) => r matches Err(e) && e@ == fault,
            None => r is Ok,
        },
{
    match check_sender(
        ASR_CHANNEL,
        "audio.clip",
        "kind must be audio.clip",
        message.kind.as_str(),
        message.client_id.as_str(),
        message.sensor_id.as_str(),
        message.faculty.as_str(),
    ) {
        Err(e) => {
            return Err(e);
        },
        Ok(_) => {},
    }
    if message.duration_ms < 100 || message.duration_ms > 1_000 {
        return Err("duration_ms must be between 100 and 1000".to_owned());
    }
    if message.sample_rate_hz == 0 {
        return Err("sample_rate_hz must be greater than zero".to_owned());
    }
    if message.channels != MONO_CHANNELS {
        return Err("channels must be 1".to_owned());
    }
    if !same(message.sample_format.as_str(), "f32le") {
        return Err("sample_format must be f32le".to_owned());
    }
    if blank(message.data.as_str()) {
        return Err("missing data".to_owned());
    }
    Ok(())
}

/// A sample between minus one and one: what is no finite number is silence, and
/// what is too loud is cut.
pub open spec fn tamed(bits: u32) -> u32 {
    let size = bits as int % 0x8000_0000;
    if size >= 0x7f80_0000 {
        0
    } else if size > 0x3f80_0000 {
        (bits - size + 0x3f80_0000) as u32
    } else {
        bits
    }
}

/// Tames a sample.
pub fn tame(bits: u32) -> (r: u32)
    ensures
        r == tamed(bits),
{
    let size: u32 = bits % 0x8000_0000;
    if size >= 0x7f80_0000 {
        0
    } else if size > 0x3f80_0000 {
        bits - size + 0x3f80_0000
    } else {
        bits
    }
}

/// The number that four bytes write, the lowest first.
pub open spec fn little_endian(bytes: Seq<u8>) -> u32 {
    (bytes[0] + 256 * bytes[1] + 65_536 * bytes[2] + 16_777_216 * bytes[3]) as u32
}

/// The samples that some bytes write.
pub open spec fn samples_in(bytes: Seq<u8>) -> Seq<u32> {
    Seq::new(bytes.len() / 4, |i: int| tamed(little_endian(bytes.subrange(4 * i, 4 * i + 4))))
}

fn read_samples(bytes: &Vec<u8>) -> (samples: Vec<u32>)
    ensures
        samples@ == samples_in(bytes@),
{
    let len: usize = bytes.len();
    let count: usize = len / 4;
    let mut samples: Vec<u32> = Vec::new();
    let mut i: usize = 0;
    while i < count
        invariant
            len == bytes@.len(),
            count == len / 4,
            i <= count,
            samples@ == samples_in(bytes@).take(i as int),
        decreases count - i,
    {
        let at: usize = 4 * i;
        let bits: u32 = bytes[at] as u32 + 256 * (bytes[at + 1] as u32) + 65_536 * (bytes[at
            + 2] as u32) + 16_777_216 * (bytes[at + 3] as u32);
        assert(bits == little_endian(bytes@.subrange(4 * i, 4 * i + 4)));
        samples.push(tame(bits));
        assert(samples@ =~= samples_in(bytes@).take(i + 1));
        i += 1;
    }
    assert(samples_in(bytes@).take(count as int) =~= samples_in(bytes@));
    samples
}

/// A byte of a number, by how low it is.
pub open spec fn byte_of(bits: u32, k: int) -> u8 {
    if k == 0 {
        (bits as int % 256) as u8
    } else if k == 1 {
        (bits as int / 256 % 256) as u8
    } else if k == 2 {
        (bits as int / 65_536 % 256) as u8
    } else {
        (bits as int / 16_777_216) as u8
    }
}

/// The bytes of some samples.
pub open spec fn le_bytes(samples: Seq<u32>) -> Seq<u8> {
    Seq::new(4 * samples.len(), |i: int| byte_of(samples[i / 4], i % 4))
}

/// The bytes of some samples.
pub fn f32_samples_to_le_bytes(samples: &[u32]) -> (bytes: Vec<u8>)
    ensures
        bytes@ == le_bytes(samples@),
{
    let mut bytes: Vec<u8> = Vec::new();
    let mut i: usize = 0;
    while i < samples.len()
        invariant
            i <= samples@.len(),
            bytes@ == le_bytes(samples@.take(i as int)),
        decreases samples@.len() - i,
    {
        let bits: u32 = samples[i];
        bytes.push((bits % 256) as u8);
        bytes.push((bits / 256 % 256) as u8);
        bytes.push((bits / 65_536 % 256) as u8);
        bytes.push((bits / 16_777_216) as u8);
        assert(bytes@ =~= le_bytes(samples@.take(i + 1)));
        i += 1;
    }
    assert(samples@.take(i as int) =~= samples@);
    bytes
}

proof fn lemma_byte_at(samples: Seq<u32>, i: int, k: int)
    requires
        0 <= i < samples.len(),
        0 <= k < 4,
    ensures
        le_bytes(samples)[4 * i + k] == byte_of(samples[i], k),
{
    assert((4 * i + k) / 4 == i);
    assert((4 * i + k) % 4 == k);
}

proof fn lemma_read_back(samples: Seq<u32>, i: int)
    requires
        0 <= i < samples.len(),
    ensures
        little_endian(le_bytes(samples).subrange(4 * i, 4 * i + 4)) == samples[i],
{
    lemma_byte_at(samples, i, 0);
    lemma_byte_at(samples, i, 1);
    lemma_byte_at(samples, i, 2);
    lemma_byte_at(samples, i, 3);
    lemma_bytes_of(samples[i]);
}

/// Bytes written for samples are read back as the samples, tamed.
pub proof fn law_written_samples_are_read_back(samples: Seq<u32>)
    ensures
        samples_in(le_bytes(samples)) == samples.map_values(|bits: u32| tamed(bits)),
{
    let bytes = le_bytes(samples);
    let read = samples_in(bytes);
    let wanted = samples.map_values(|bits: u32| tamed(bits));
    assert(read.len() == wanted.len());
    assert forall|i: int| 0 <= i < read.len() implies read[i] == wanted[i] by {
        lemma_read_back(samples, i);
        assert(read[i] == tamed(little_endian(bytes.subrange(4 * i, 4 * i + 4))));
    }
    assert(read =~= wanted);
}

proof fn lemma_bytes_of(bits: u32)
    ensures
        byte_of(bits, 0) + 256 * byte_of(bits, 1) + 65_536 * byte_of(bits, 2) + 16_777_216 * byte_of(
            bits,
            3,
        ) == bits,
{
    let n = bits as int;
    assert(n == 256 * (n / 256) + n % 256);
    assert(n / 256 == 256 * (n / 65_536) + n / 256 % 256);
    assert(n / 65_536 == 256 * (n / 16_777_216) + n / 65_536 % 256);
}

/// The sound of a clip, as it was sampled.
#[derive(Debug, PartialEq, Eq)]
pub struct DecodedClip {
    /// Who sent it.
    pub client_id: String,
    /// The sensor.
    pub sensor_id: String,
    /// The sender's count.
    pub sequence: u64,
    /// When it happened.
    pub occurred_at: Timestamp,
    /// The samples per second.
    pub sample_rate_hz: u32,
    /// The samples.
    pub samples: Vec<u32>,
}

/// What a [`DecodedClip`] is.
pub ghost struct DecodedClipView {
    pub client_id: Seq<char>,
    pub sensor_id: Seq<char>,
    pub sequence: u64,
    pub occurred_at: Timestamp,
    pub sample_rate_hz: u32,
    pub samples: Seq<u32>,
}

impl View for DecodedClip {
    type V = DecodedClipView;

    open spec fn view(&self) -> DecodedClipView {
        DecodedClipView {
            client_id: self.client_id@,
            sensor_id: self.sensor_id@,
            sequence: self.sequence,
            occurred_at: self.occurred_at,
            sample_rate_hz: self.sample_rate_hz,
            samples: self.samples@,
        }
    }
}

impl Clone for DecodedClip {
    fn clone(&self) -> (r: DecodedClip)
        ensures
            r@ == self@,
    {
        DecodedClip {
            client_id: self.client_id.clone(),
            sensor_id: self.sensor_id.clone(),
            sequence: self.sequence,
            occurred_at: self.occurred_at,
            sample_rate_hz: self.sample_rate_hz,
            samples: copy_bits(&self.samples),
        }
    }
}

/// The sound of a clip at the rate at which speech is listened to.
#[derive(Debug, PartialEq, Eq)]
pub struct AcceptedAudioClip {
    /// Who sent it.
    pub client_id: String,
    /// The sensor.
    pub sensor_id: String,
    /// The sender's count.
    pub sequence: u64,
    /// When it happened.
    pub occurred_at: Timestamp,
    /// The samples.
    pub samples: Vec<u32>,
}

/// What an [`AcceptedAudioClip`] is.
pub ghost struct AcceptedView {
    pub client_id: Seq<char>,
    pub sensor_id: Seq<char>,
    pub sequence: u64,
    pub occurred_at: Timestamp,
    pub samples: Seq<u32>,
}

impl View for AcceptedAudioClip {
    type V = AcceptedView;

    open spec fn view(&self) -> AcceptedView {
        AcceptedView {
            client_id: self.client_id@,
            sensor_id: self.sensor_id@,
            sequence: self.sequence,
            occurred_at: self.occurred_at,
            samples: self.samples@,
        }
    }
}

impl Clone for AcceptedAudioClip {
    fn clone(&self) -> (r: AcceptedAudioClip)
        ensures
            r@ == self@,
    {
        AcceptedAudioClip {
            client_id: self.client_id.clone(),
            sensor_id: self.sensor_id.clone(),
            sequence: self.sequence,
            occurred_at: self.occurred_at,
            samples: copy_bits(&self.samples),
        }
    }
}

/// What is wrong with a clip or its sound.
pub open spec fn decoding_fault(m: AudioClipMessageView) -> Option<Seq<char>> {
    match base64_bytes(m.data) {
        Err(error) => Some("invalid base64 audio data: "@ + error),
        Ok(bytes) => if bytes.len() % 4 != 0 {
            Some("f32le audio data length must be divisible by 4"@)
        } else if bytes.len() == 0 {
            Some("audio clip contained no samples"@)
        } else {
            None
        },
    }
}

/// The sound of a clip that has no fault.
pub open spec fn sound_of(m: AudioClipMessageView) -> DecodedClipView {
    DecodedClipView {
        client_id: m.client_id,
        sensor_id: m.sensor_id,
        sequence: m.sequence,
        occurred_at: m.occurred_at,
        sample_rate_hz: m.sample_rate_hz,
        samples: samples_in(base64_bytes(m.data)->Ok_0),
    }
}

/// Reads the sound of a clip.
pub fn decode_clip(message: &AudioClipMessage) -> (r: Result<DecodedClip, String>)
    ensures
        match decoding_fault(message@) {
            Some(fault) => r matches Err(e) && e@ == fault,
            None => r matches Ok(clip) && clip@ == sound_of(message@),
        },
{
    let bytes = match base64_decode(message.data.as_str()) {
        Ok(bytes) => bytes,
        Err(error) => {
            let mut e = "invalid base64 audio data: ".to_owned();
            e.push_str(error.as_str());
            return Err(e);
        },
    };
    if bytes.len() % 4 != 0 {
        return Err("f32le audio data length must be divisible by 4".to_owned());
    }
    let samples = read_samples(&bytes);
    if samples.len() == 0 {
        return Err("audio clip contained no samples".to_owned());
    }
    Ok(
        DecodedClip {
            client_id: message.client_id.clone(),
            sensor_id: message.sensor_id.clone(),
            sequence: message.sequence,
            occurred_at: message.occurred_at,
            sample_rate_hz: message.sample_rate_hz,
            samples,
        },
    )
}

/// Checks a clip and reads its sound.
pub fn accept_clip(message: &AudioClipMessage) -> (r: Result<DecodedClip, String>)
    ensures
        match clip_fault(message@) {
            Some(fault) => r matches Err(e) && e@ == fault,
            None => match decoding_fault(message@) {
                Some(fault) => r matches Err(e) && e@ == fault,
                None => r matches Ok(clip) && clip@ == sound_of(message@),
            },
        },
{
    match validate_clip(message) {
        Err(e) => Err(e),
        Ok(_) => decode_clip(message),
    }
}

/// The clip as it is listened to, given its samples at the rate for that.
pub fn resampled(clip: DecodedClip, samples: Vec<u32>) -> (r: AcceptedAudioClip)
    ensures
        r@ == (AcceptedView {
            client_id: clip@.client_id,
            sensor_id: clip@.sensor_id,
            sequence: clip@.sequence,
            occurred_at: clip@.occurred_at,
            samples: samples@,
        }),
{
    AcceptedAudioClip {
        client_id: clip.client_id,
        sensor_id: clip.sensor_id,
        sequence: clip.sequence,
        occurred_at: clip.occurred_at,
        samples,
    }
}

/// A product, or the largest number if it is larger.
pub fn saturating_product(a: u64, b: u64) -> (n: u64)
    ensures
        n == (if a * b <= u64::MAX {
            a * b
        } else {
            u64::MAX as int
        }),
{
    match a.checked_mul(b) {
        Some(n) => n,
        None => u64::MAX,
    }
}

/// The length of some samples in milliseconds.
pub open spec fn millis_of(count: nat) -> u64 {
    ((if count * 1000 <= u64::MAX {
        count * 1000
    } else {
        u64::MAX as nat
    }) / 16_000) as u64
}

/// The length of some samples in milliseconds.
pub fn group_duration_ms(sample_count: usize) -> (ms: u64)
    ensures
        ms == millis_of(sample_count as nat),
{
    saturating_product(sample_count as u64, 1_000) / (WHISPER_SAMPLE_RATE_HZ as u64)
}

/// Speech that can be listened to.
#[derive(Debug, PartialEq, Eq)]
pub struct CompletedSpeechGroup {
    /// Who sent the sound.
    pub client_id: String,
    /// The sensor.
    pub sensor_id: String,
    /// The first clip.
    pub sequence_start: u64,
    /// The last clip.
    pub sequence_end: u64,
    /// When it began.
    pub occurred_at: Timestamp,
    /// Its length in milliseconds.
    pub duration_ms: u64,
    /// Its samples.
    pub samples: Vec<u32>,
    /// Whether it is closed.
    pub is_final: bool,
}

/// What a [`CompletedSpeechGroup`] is.
pub ghost struct CompletedView {
    pub client_id: Seq<char>,
    pub sensor_id: Seq<char>,
    pub sequence_start: u64,
    pub sequence_end: u64,
    pub occurred_at: Timestamp,
    pub duration_ms: u64,
    pub samples: Seq<u32>,
    pub is_final: bool,
}

impl View for CompletedSpeechGroup {
    type V = CompletedView;

    open spec fn view(&self) -> CompletedView {
        CompletedView {
            client_id: self.client_id@,
            sensor_id: self.sensor_id@,
            sequence_start: self.sequence_start,
            sequence_end: self.sequence_end,
            occurred_at: self.occurred_at,
            duration_ms: self.duration_ms,
            samples: self.samples@,
            is_final: self.is_final,
        }
    }
}

impl Clone for CompletedSpeechGroup {
    fn clone(&self) -> (r: CompletedSpeechGroup)
        ensures
            r@ == self@,
    {
        CompletedSpeechGroup {
            client_id: self.client_id.clone(),
            sensor_id: self.sensor_id.clone(),
            sequence_start: self.sequence_start,
            sequence_end: self.sequence_end,
            occurred_at: self.occurred_at,
            duration_ms: self.duration_ms,
            samples: copy_bits(&self.samples),
            is_final: self.is_final,
        }
    }
}

/// Speech that goes on.
#[derive(Debug, PartialEq, Eq)]
pub struct ActiveSpeechGroup {
    /// Who sent the sound.
    pub client_id: String,
    /// The sensor.
    pub sensor_id: String,
    /// The first clip.
    pub sequence_start: u64,
    /// The last clip.
    pub sequence_end: u64,
    /// When it began.
    pub occurred_at: Timestamp,
    /// Its samples.
    pub samples: Vec<u32>,
}

/// What an [`ActiveSpeechGroup`] is.
pub ghost struct GroupView {
    pub client_id: Seq<char>,
    pub sensor_id: Seq<char>,
    pub sequence_start: u64,
    pub sequence_end: u64,
    pub occurred_at: Timestamp,
    pub samples: Seq<u32>,
}

impl View for ActiveSpeechGroup {
    type V = GroupView;

    open spec fn view(&self) -> GroupView {
        GroupView {
            client_id: self.client_id@,
            sensor_id: self.sensor_id@,
            sequence_start: self.sequence_start,
            sequence_end: self.sequence_end,
            occurred_at: self.occurred_at,
            samples: self.samples@,
        }
    }
}

impl Clone for ActiveSpeechGroup {
    fn clone(&self) -> (r: ActiveSpeechGroup)
        ensures
            r@ == self@,
    {
        ActiveSpeechGroup {
            client_id: self.client_id.clone(),
            sensor_id: self.sensor_id.clone(),
            sequence_start: self.sequence_start,
            sequence_end: self.sequence_end,
            occurred_at: self.occurred_at,
            samples: copy_bits(&self.samples),
        }
    }
}

/// Where speech begins and ends in a stream of clips.
pub struct AsrSession {
    /// The frames of speech in a row.
    pub speech_frames: usize,
    /// The frames of silence in a row.
    pub silence_frames: usize,
    /// The speech that goes on.
    pub active: Option<ActiveSpeechGroup>,
    /// The latest frames before it.
    pub preroll: VecDeque<Vec<u32>>,
    /// The clip with which it was last looked at.
    pub last_speculative_sequence: Option<u64>,
}

/// What an [`AsrSession`] is.
pub ghost struct SessionView {
    pub speech_frames: nat,
    pub silence_frames: nat,
    pub active: Option<GroupView>,
    pub preroll: Seq<Seq<u32>>,
    pub looked_at: Option<u64>,
}

/// The frames of a list.
pub open spec fn frame_views(list: Seq<Vec<u32>>) -> Seq<Seq<u32>> {
    list.map_values(|f: Vec<u32>| f@)
}

impl View for AsrSession {
    type V = SessionView;

    open spec fn view(&self) -> SessionView {
        SessionView {
            speech_frames: self.speech_frames as nat,
            silence_frames: self.silence_frames as nat,
            active: match self.active {
                Some(a) => Some(a@),
                None => None,
            },
            preroll: frame_views(self.preroll@),
            looked_at: self.last_speculative_sequence,
        }
    }
}

/// One more, unless a size cannot hold it.
pub open spec fn one_more(n: nat) -> nat {
    if n < usize::MAX {
        n + 1
    } else {
        n
    }
}

/// A group that can be listened to.
pub open spec fn group_of(a: GroupView, is_final: bool) -> CompletedView {
    CompletedView {
        client_id: a.client_id,
        sensor_id: a.sensor_id,
        sequence_start: a.sequence_start,
        sequence_end: a.sequence_end,
        occurred_at: a.occurred_at,
        duration_ms: millis_of(a.samples.len()),
        samples: a.samples,
        is_final,
    }
}

/// The session after the group was closed.
pub open spec fn quiet() -> SessionView {
    SessionView {
        speech_frames: 0,
        silence_frames: 0,
        active: None,
        preroll: Seq::empty(),
        looked_at: None,
    }
}

/// What closing brings.
pub open spec fn closing(s: SessionView) -> Option<CompletedView> {
    match s.active {
        Some(a) => if a.samples.len() < 480 {
            None
        } else {
            Some(group_of(a, true))
        },
        None => None,
    }
}

/// A group with a frame of a clip.
pub open spec fn grown(a: GroupView, clip: AcceptedView, frame: Seq<u32>) -> GroupView {
    GroupView { sequence_end: clip.sequence, samples: a.samples + frame, ..a }
}

/// The session after a frame, and the group that it closed: three frames of
/// speech in a row open a group, seventy of silence close it, and speech closes
/// one that is too long.
pub open spec fn after_frame(s: SessionView, clip: AcceptedView, frame: Seq<u32>, is_speech: bool) -> (
    SessionView,
    Option<CompletedView>,
) {
    if is_speech {
        match s.active {
            Some(a) => {
                let next = SessionView {
                    silence_frames: 0,
                    active: Some(grown(a, clip, frame)),
                    ..s
                };
                if millis_of(grown(a, clip, frame).samples.len()) >= 20_000 {
                    (quiet(), closing(next))
                } else {
                    (next, None)
                }
            },
            None => {
                let frames = logged(s.preroll, frame, 3);
                let count = one_more(s.speech_frames);
                if count >= 3 {
                    (
                        SessionView {
                            speech_frames: count,
                            silence_frames: 0,
                            active: Some(
                                GroupView {
                                    client_id: clip.client_id,
                                    sensor_id: clip.sensor_id,
                                    sequence_start: clip.sequence,
                                    sequence_end: clip.sequence,
                                    occurred_at: clip.occurred_at,
                                    samples: flat(frames),
                                },
                            ),
                            preroll: Seq::empty(),
                            looked_at: s.looked_at,
                        },
                        None,
                    )
                } else {
                    (
                        SessionView {
                            speech_frames: count,
                            silence_frames: 0,
                            preroll: frames,
                            ..s
                        },
                        None,
                    )
                }
            },
        }
    } else {
        let frames = logged(s.preroll, frame, 3);
        match s.active {
            Some(a) => {
                let next = SessionView {
                    speech_frames: 0,
                    silence_frames: one_more(s.silence_frames),
                    active: Some(grown(a, clip, frame)),
                    preroll: frames,
                    ..s
                };
                if next.silence_frames >= 70 {
                    (quiet(), closing(next))
                } else {
                    (next, None)
                }
            },
            None => (SessionView { speech_frames: 0, preroll: frames, ..s }, None),
        }
    }
}

/// The whole frames of some samples.
pub open spec fn frames_of(samples: Seq<u32>) -> Seq<Seq<u32>> {
    Seq::new(samples.len() / 160, |i: int| samples.subrange(160 * i, 160 * i + 160))
}

/// The session after some frames.
pub open spec fn after_frames(
    s: SessionView,
    clip: AcceptedView,
    frames: Seq<Seq<u32>>,
    speech: Seq<bool>,
) -> SessionView
    decreases frames.len(),
{
    if frames.len() == 0 {
        s
    } else {
        after_frame(
            after_frames(s, clip, frames.drop_last(), speech),
            clip,
            frames.last(),
            speech[frames.len() - 1],
        ).0
    }
}

/// The groups that some frames closed.
pub open spec fn closed_groups(
    s: SessionView,
    clip: AcceptedView,
    frames: Seq<Seq<u32>>,
    speech: Seq<bool>,
) -> Seq<CompletedView>
    decreases frames.len(),
{
    if frames.len() == 0 {
        Seq::empty()
    } else {
        let before = after_frames(s, clip, frames.drop_last(), speech);
        let rest = closed_groups(s, clip, frames.drop_last(), speech);
        match after_frame(before, clip, frames.last(), speech[frames.len() - 1]).1 {
            Some(group) => rest.push(group),
            None => rest,
        }
    }
}

/// What a look at the speech that goes on brings: the group so far, if it is
/// long enough and has grown since.
pub open spec fn speculation(s: SessionView) -> Option<CompletedView> {
    match s.active {
        Some(a) => if millis_of(a.samples.len()) < 600 || s.looked_at == Some(a.sequence_end) {
            None
        } else {
            Some(group_of(a, false))
        },
        None => None,
    }
}

/// The session after a look.
pub open spec fn looked(s: SessionView) -> SessionView {
    if speculation(s) is Some {
        SessionView { looked_at: Some(s.active->0.sequence_end), ..s }
    } else {
        s
    }
}

/// The session after a clip.
pub open spec fn after_clip(s: SessionView, clip: AcceptedView, speech: Seq<bool>) -> SessionView {
    looked(after_frames(s, clip, frames_of(clip.samples), speech))
}

/// The groups that a clip brings.
pub open spec fn groups_of_clip(s: SessionView, clip: AcceptedView, speech: Seq<bool>) -> Seq<
    CompletedView,
> {
    let frames = frames_of(clip.samples);
    let closed = closed_groups(s, clip, frames, speech);
    match speculation(after_frames(s, clip, frames, speech)) {
        Some(group) => closed.push(group),
        None => closed,
    }
}

/// The groups of a list.
pub open spec fn group_views(list: Seq<CompletedSpeechGroup>) -> Seq<CompletedView> {
    list.map_values(|g: CompletedSpeechGroup| g@)
}

/// What an optional group is.
pub open spec fn group_view(group: Option<CompletedSpeechGroup>) -> Option<CompletedView> {
    match group {
        Some(g) => Some(g@),
        None => None,
    }
}

fn push_samples(samples: &mut Vec<u32>, more: &[u32])
    ensures
        final(samples)@ == old(samples)@ + more@,
{
    let ghost start = samples@;
    let mut i: usize = 0;
    while i < more.len()
        invariant
            i <= more@.len(),
            samples@ == start + more@.take(i as int),
        decreases more@.len() - i,
    {
        samples.push(more[i]);
        assert(samples@ =~= start + more@.take(i + 1));
        i += 1;
    }
    assert(more@.take(i as int) =~= more@);
}

fn copy_samples(samples: &[u32]) -> (r: Vec<u32>)
    ensures
        r@ == samples@,
{
    let mut r: Vec<u32> = Vec::new();
    push_samples(&mut r, samples);
    assert(r@ =~= samples@);
    r
}

/// Keeps the latest three frames.
pub fn push_preroll(preroll: &mut VecDeque<Vec<u32>>, frame: &[u32])
    ensures
        frame_views(final(preroll)@) == logged(frame_views(old(preroll)@), frame@, 3),
{
    let ghost before = frame_views(preroll@);
    let copy = copy_samples(frame);
    push_limited(preroll, copy, OPEN_AFTER_SPEECH_FRAMES);
    assert(frame_views(preroll@) =~= logged(before, frame@, 3));
}

fn flattened(frames: &VecDeque<Vec<u32>>) -> (samples: Vec<u32>)
    ensures
        samples@ == flat(frame_views(frames@)),
{
    let ghost all = frame_views(frames@);
    let mut samples: Vec<u32> = Vec::new();
    let mut i: usize = 0;
    assert(all.take(0) =~= Seq::<Seq<u32>>::empty());
    assert(samples@ =~= Seq::<u32>::empty());
    while i < frames.len()
        invariant
            i <= frames@.len(),
            all == frame_views(frames@),
            samples@ == flat(all.take(i as int)),
        decreases frames@.len() - i,
    {
        proof {
            assert(all.take(i + 1).drop_last() =~= all.take(i as int));
        }
        push_samples(&mut samples, frames[i].as_slice());
        i += 1;
    }
    assert(all.take(i as int) =~= all);
    samples
}

impl AsrSession {
    /// A session in which nothing was heard.
    pub fn new() -> (s: AsrSession)
        ensures
            s@ == quiet(),
    {
        let s = AsrSession {
            speech_frames: 0,
            silence_frames: 0,
            active: None,
            preroll: VecDeque::new(),
            last_speculative_sequence: None,
        };
        assert(s@.preroll =~= Seq::<Seq<u32>>::empty());
        s
    }

    /// Closes the group, if there is one.
    pub fn close_active(&mut self) -> (group: Option<CompletedSpeechGroup>)
        ensures
            final(self)@ == quiet(),
            group_view(group) == closing(old(self)@),
    {
        self.speech_frames = 0;
        self.silence_frames = 0;
        self.preroll = VecDeque::new();
        assert(frame_views(self.preroll@) =~= Seq::<Seq<u32>>::empty());
        self.last_speculative_sequence = None;
        let active = match self.active.take() {
            Some(active) => active,
            None => {
                return None;
            },
        };
        if active.samples.len() < ASR_FRAME_SAMPLES * OPEN_AFTER_SPEECH_FRAMES {
            return None;
        }
        Some(
            CompletedSpeechGroup {
                client_id: active.client_id,
                sensor_id: active.sensor_id,
                sequence_start: active.sequence_start,
                sequence_end: active.sequence_end,
                occurred_at: active.occurred_at,
                duration_ms: group_duration_ms(active.samples.len()),
                samples: active.samples,
                is_final: true,
            },
        )
    }

    /// Hears a frame, of which it is known whether it is speech.
    pub fn accept_frame(&mut self, clip: &AcceptedAudioClip, frame: &[u32], is_speech: bool) -> (group:
        Option<CompletedSpeechGroup>)
        ensures
            (final(self)@, group_view(group)) == after_frame(
                old(self)@,
                clip@,
                frame@,
                is_speech,
            ),
    {
        if is_speech {
            self.silence_frames = 0;
            if self.active.is_some() {
                let mut active = self.active.take().unwrap();
                active.sequence_end = clip.sequence;
                push_samples(&mut active.samples, frame);
                let ms: u64 = group_duration_ms(active.samples.len());
                self.active = Some(active);
                if ms >= MAX_GROUP_MS {
                    return self.close_active();
                }
                return None;
            }
            self.speech_frames = self.speech_frames.saturating_add(1);
            push_preroll(&mut self.preroll, frame);
            if self.speech_frames >= OPEN_AFTER_SPEECH_FRAMES {
                let samples = flattened(&self.preroll);
                self.active = Some(
                    ActiveSpeechGroup {
                        client_id: clip.client_id.clone(),
                        sensor_id: clip.sensor_id.clone(),
                        sequence_start: clip.sequence,
                        sequence_end: clip.sequence,
                        occurred_at: clip.occurred_at,
                        samples,
                    },
                );
                self.preroll = VecDeque::new();
                assert(frame_views(self.preroll@) =~= Seq::<Seq<u32>>::empty());
            }
            return None;
        }
        self.speech_frames = 0;
        push_preroll(&mut self.preroll, frame);
        if self.active.is_some() {
            let mut active = self.active.take().unwrap();
            active.sequence_end = clip.sequence;
            push_samples(&mut active.samples, frame);
            self.active = Some(active);
            self.silence_frames = self.silence_frames.saturating_add(1);
            if self.silence_frames >= CLOSE_AFTER_SILENCE_FRAMES {
                return self.close_active();
            }
        }
        None
    }

    /// Looks at the speech that goes on.
    pub fn speculative_group(&mut self) -> (group: Option<CompletedSpeechGroup>)
        ensures
            final(self)@ == looked(old(self)@),
            group_view(group) == speculation(old(self)@),
    {
        let group = match &self.active {
            None => {
                return None;
            },
            Some(active) => {
                let duration_ms: u64 = group_duration_ms(active.samples.len());
                if duration_ms < SPECULATIVE_AFTER_MS {
                    return None;
                }
                match self.last_speculative_sequence {
                    Some(sequence) => {
                        if sequence == active.sequence_end {
                            return None;
                        }
                    },
                    None => {},
                }
                CompletedSpeechGroup {
                    client_id: active.client_id.clone(),
                    sensor_id: active.sensor_id.clone(),
                    sequence_start: active.sequence_start,
                    sequence_end: active.sequence_end,
                    occurred_at: active.occurred_at,
                    duration_ms,
                    samples: copy_bits(&active.samples),
                    is_final: false,
                }
            },
        };
        self.last_speculative_sequence = Some(group.sequence_end);
        Some(group)
    }

    /// Hears a clip, of whose whole frames it is known which are speech.
    pub fn accept_clip(&mut self, clip: &AcceptedAudioClip, speech: &Vec<bool>) -> (groups: Vec<
        CompletedSpeechGroup,
    >)
        requires
            speech@.len() == clip@.samples.len() / 160,
        ensures
            final(self)@ == after_clip(old(self)@, clip@, speech@),
            group_views(groups@) == groups_of_clip(old(self)@, clip@, speech@),
    {
        let ghost start = self@;
        let ghost frames = frames_of(clip@.samples);
        let len: usize = clip.samples.len();
        let count: usize = len / ASR_FRAME_SAMPLES;
        let mut groups: Vec<CompletedSpeechGroup> = Vec::new();
        let mut i: usize = 0;
        assert(frames.take(0) =~= Seq::<Seq<u32>>::empty());
        assert(group_views(groups@) =~= Seq::<CompletedView>::empty());
        while i < count
            invariant
                i <= count,
                len == clip.samples@.len(),
                count == len / 160,
                speech@.len() == count,
                frames == frames_of(clip@.samples),
                self@ == after_frames(start, clip@, frames.take(i as int), speech@),
                group_views(groups@) == closed_groups(
                    start,
                    clip@,
                    frames.take(i as int),
                    speech@,
                ),
            decreases count - i,
        {
            proof {
                assert(frames.take(i + 1).drop_last() =~= frames.take(i as int));
                assert(frames.take(i + 1).last() == frames[i as int]);
            }
            let frame = slice_subrange(
                clip.samples.as_slice(),
                ASR_FRAME_SAMPLES * i,
                ASR_FRAME_SAMPLES * i + ASR_FRAME_SAMPLES,
            );
            let ghost before = group_views(groups@);
            match self.accept_frame(clip, frame, speech[i]) {
                Some(group) => {
                    groups.push(group);
                    assert(group_views(groups@) =~= before.push(group@));
                },
                None => {},
            }
            i += 1;
        }
        assert(frames.take(i as int) =~= frames);
        let ghost closed = group_views(groups@);
        match self.speculative_group() {
            Some(group) => {
                groups.push(group);
                assert(group_views(groups@) =~= closed.push(group@));
            },
            None => {},
        }
        groups
    }

    /// Ends the session: what goes on is closed.
    pub fn flush(&mut self) -> (groups: Vec<CompletedSpeechGroup>)
        ensures
            final(self)@ == quiet(),
            group_views(groups@) == (match closing(old(self)@) {
                Some(group) => seq![group],
                None => Seq::empty(),
            }),
    {
        let mut groups: Vec<CompletedSpeechGroup> = Vec::new();
        match self.close_active() {
            Some(group) => {
                groups.push(group);
                assert(group_views(groups@) =~= seq![group@]);
            },
            None => {
                assert(group_views(groups@) =~= Seq::<CompletedView>::empty());
            },
        }
        groups
    }
}

/// What holds of a session that hears frames of a hundred and sixty samples: a
/// group that goes on holds at least three of them and stays short, and while
/// there is none, the latest frames are at hand.
pub open spec fn is_orderly(s: SessionView) -> bool {
    &&& s.preroll.len() <= 3
    &&& forall|i: int| 0 <= i < s.preroll.len() ==> (#[trigger] s.preroll[i]).len() == 160
    &&& match s.active {
        Some(a) => {
            &&& a.samples.len() % 160 == 0
            &&& 480 <= a.samples.len() < 320_000 + 160 * s.silence_frames
            &&& s.silence_frames < 70
        },
        None => s.speech_frames <= s.preroll.len() && s.speech_frames < 3,
    }
}

proof fn lemma_flat_frames(frames: Seq<Seq<u32>>)
    requires
        forall|i: int| 0 <= i < frames.len() ==> (#[trigger] frames[i]).len() == 160,
    ensures
        flat(frames).len() == 160 * frames.len(),
    decreases frames.len(),
{
    if frames.len() > 0 {
        let front = frames.drop_last();
        assert forall|i: int| 0 <= i < front.len() implies (#[trigger] front[i]).len() == 160 by {
            assert(front[i] == frames[i]);
        }
        lemma_flat_frames(front);
    }
}

/// However sound goes on, a session stays orderly: no group outgrows twenty
/// seconds by more than the silence that ends it, and none is lost for being too
/// short: whatever closes one brings it forth whole.
pub proof fn law_session_stays_orderly(
    s: SessionView,
    clip: AcceptedView,
    frame: Seq<u32>,
    is_speech: bool,
)
    requires
        is_orderly(s),
        frame.len() == 160,
    ensures
        is_orderly(quiet()),
        is_orderly(after_frame(s, clip, frame, is_speech).0),
        s.active is Some ==> closing(s) is Some,
        s.active is Some && after_frame(s, clip, frame, is_speech).0.active is None ==> {
            &&& after_frame(s, clip, frame, is_speech).1 is Some
            &&& after_frame(s, clip, frame, is_speech).1->0.samples == s.active->0.samples + frame
        },
{
    let frames = logged(s.preroll, frame, 3);
    assert forall|i: int| 0 <= i < frames.len() implies (#[trigger] frames[i]).len() == 160 by {
        if s.preroll.len() == 3 && i < 2 {
            assert(frames[i] == s.preroll[i + 1]);
        } else if i < frames.len() - 1 {
            assert(frames[i] == s.preroll[i]);
        }
    }
    if is_speech && s.active is None && s.speech_frames + 1 >= 3 {
        lemma_flat_frames(frames);
    }
}

/// A look at speech that has not grown since the last look brings nothing.
pub proof fn law_same_speech_is_not_looked_at_twice(s: SessionView)
    ensures
        speculation(looked(s)) is None,
{
}

/// A frame of sound, the clip that it came with, and whether it is speech.
pub ghost struct SoundFrame {
    pub clip: AcceptedView,
    pub frame: Seq<u32>,
    pub speech: bool,
}

/// The session that began with nothing and heard some frames.
pub open spec fn heard(sound: Seq<SoundFrame>) -> SessionView
    decreases sound.len(),
{
    if sound.len() == 0 {
        quiet()
    } else {
        let last = sound.last();
        after_frame(heard(sound.drop_last()), last.clip, last.frame, last.speech).0
    }
}

/// The group that the last of some frames closed.
pub open spec fn closed_last(sound: Seq<SoundFrame>) -> Option<CompletedView> {
    let last = sound.last();
    after_frame(heard(sound.drop_last()), last.clip, last.frame, last.speech).1
}

/// Whether a group goes on since three frames of speech, the first of which is at `i`.
spec fn goes_on_since(sound: Seq<SoundFrame>, i: int, a: GroupView) -> bool {
    &&& 0 <= i <= sound.len() - 3
    &&& sound[i].speech && sound[i + 1].speech && sound[i + 2].speech
    &&& heard(sound.take(i + 2)).active is None
    &&& forall|j: int|
        i + 3 <= j <= sound.len() ==> (#[trigger] heard(sound.take(j))).active is Some
    &&& a.client_id == sound[i + 2].clip.client_id
    &&& a.sensor_id == sound[i + 2].clip.sensor_id
    &&& a.sequence_start == sound[i + 2].clip.sequence
    &&& a.occurred_at == sound[i + 2].clip.occurred_at
    &&& a.sequence_end == sound.last().clip.sequence
    &&& a.samples.len() == 160 * (sound.len() - i)
    &&& forall|k: int|
        0 <= k < a.samples.len() ==> #[trigger] a.samples[k] == sound[i + k / 160].frame[k % 160]
}

/// What holds of a session that heard some frames.
spec fn is_heard(sound: Seq<SoundFrame>) -> bool {
    let s = heard(sound);
    let n = sound.len();
    match s.active {
        None => {
            &&& s.speech_frames <= 2
            &&& s.speech_frames <= s.preroll.len() <= 3
            &&& s.preroll.len() <= n
            &&& forall|j: int|
                0 <= j < s.preroll.len() ==> #[trigger] s.preroll[j] == sound[n - s.preroll.len()
                    + j].frame
            &&& forall|k: int|
                n - s.speech_frames <= k < n ==> (#[trigger] sound[k]).speech && heard(
                    sound.take(k),
                ).active is None
            &&& s.speech_frames < 2 ==> s.speech_frames == n || !sound[n - s.speech_frames
                - 1].speech || heard(sound.take(n - s.speech_frames - 1)).active is Some
        },
        Some(a) => {
            &&& s.silence_frames < 70
            &&& s.silence_frames < n
            &&& forall|k: int| n - s.silence_frames <= k < n ==> !(#[trigger] sound[k]).speech
            &&& sound[n - s.silence_frames - 1].speech
            &&& a.samples.len() < 320_000 + 160 * s.silence_frames
            &&& exists|i: int| goes_on_since(sound, i, a)
        },
    }
}

proof fn lemma_three_frames(a: Seq<u32>, b: Seq<u32>, c: Seq<u32>)
    requires
        a.len() == 160,
        b.len() == 160,
        c.len() == 160,
    ensures
        flat(seq![a, b, c]) == a + b + c,
{
    reveal_with_fuel(flat, 4);
    assert(seq![a, b, c].drop_last() =~= seq![a, b]);
    assert(seq![a, b].drop_last() =~= seq![a]);
    assert(seq![a].drop_last() =~= Seq::<Seq<u32>>::empty());
    assert(flat(seq![a]) =~= a);
}

proof fn lemma_takes(sound: Seq<SoundFrame>)
    requires
        sound.len() > 0,
    ensures
        forall|k: int|
            0 <= k < sound.len() ==> #[trigger] sound.take(k) == sound.drop_last().take(k),
        sound.take(sound.len() - 1) == sound.drop_last(),
        sound.take(sound.len() as int) == sound,
        forall|k: int| 0 <= k < sound.len() - 1 ==> #[trigger] sound.drop_last()[k] == sound[k],
{
    assert forall|k: int| 0 <= k < sound.len() implies #[trigger] sound.take(k)
        == sound.drop_last().take(k) by {
        assert(sound.take(k) =~= sound.drop_last().take(k));
    }
    assert(sound.take(sound.len() - 1) =~= sound.drop_last());
    assert(sound.take(sound.len() as int) =~= sound);
}

proof fn lemma_goes_on(sound: Seq<SoundFrame>, i: int, a: GroupView)
    requires
        sound.len() > 0,
        sound.last().frame.len() == 160,
        goes_on_since(sound.drop_last(), i, a),
        heard(sound).active is Some,
    ensures
        goes_on_since(sound, i, grown(a, sound.last().clip, sound.last().frame)),
{
    let n = sound.len() as int;
    let front = sound.drop_last();
    let b = grown(a, sound.last().clip, sound.last().frame);
    lemma_takes(sound);
    assert forall|j: int| i + 3 <= j <= n implies (#[trigger] heard(sound.take(j))).active is Some by {
        if j < n {
            assert(heard(front.take(j)).active is Some);
        }
    }
    assert forall|k: int| 0 <= k < b.samples.len() implies #[trigger] b.samples[k] == sound[i + k
        / 160].frame[k % 160] by {
        if k < a.samples.len() {
            assert(b.samples[k] == a.samples[k]);
            assert(front[i + k / 160] == sound[i + k / 160]);
        } else {
            assert(k / 160 == n - 1 - i);
            assert(k % 160 == k - a.samples.len());
        }
    }
}

proof fn lemma_opens(sound: Seq<SoundFrame>)
    requires
        forall|i: int| 0 <= i < sound.len() ==> (#[trigger] sound[i]).frame.len() == 160,
        sound.len() > 0,
        is_heard(sound.drop_last()),
        heard(sound.drop_last()).active is None,
        heard(sound).active is Some,
    ensures
        goes_on_since(sound, sound.len() - 3, heard(sound).active->0),
{
    let n = sound.len() as int;
    let front = sound.drop_last();
    let s = heard(front);
    let last = sound.last();
    lemma_takes(sound);
    let frames = logged(s.preroll, last.frame, 3);
    assert(s.speech_frames == 2);
    assert(front[n - 2].speech && front[n - 3].speech);
    let p = s.preroll.len() as int;
    assert(s.preroll[p - 1] == front[n - 2].frame);
    assert(s.preroll[p - 2] == front[n - 3].frame);
    assert(frames =~= seq![sound[n - 3].frame, sound[n - 2].frame, last.frame]);
    lemma_three_frames(sound[n - 3].frame, sound[n - 2].frame, last.frame);
    let b = heard(sound).active->0;
    assert(heard(sound.take(n - 1)).active is None);
    assert(b.samples == sound[n - 3].frame + sound[n - 2].frame + last.frame);
    assert forall|k: int| 0 <= k < b.samples.len() implies #[trigger] b.samples[k] == sound[n - 3
        + k / 160].frame[k % 160] by {
        if k < 160 {
            assert(k / 160 == 0);
        } else if k < 320 {
            assert(k / 160 == 1);
        } else {
            assert(k / 160 == 2);
        }
    }
}

/// What a frame does while there is no group, if it opens none.
proof fn lemma_idle_frame(s: SessionView, clip: AcceptedView, frame: Seq<u32>, is_speech: bool)
    requires
        s.active is None,
        after_frame(s, clip, frame, is_speech).0.active is None,
        s.speech_frames <= 2,
        s.preroll.len() <= 3,
    ensures
        ({
            let t = after_frame(s, clip, frame, is_speech).0;
            &&& t.speech_frames == if is_speech {
                s.speech_frames + 1
            } else {
                0
            }
            &&& t.speech_frames <= 2
            &&& t.preroll.len() == if s.preroll.len() < 3 {
                s.preroll.len() + 1
            } else {
                3
            }
            &&& t.preroll.last() == frame
            &&& forall|j: int|
                0 <= j < t.preroll.len() - 1 ==> #[trigger] t.preroll[j] == s.preroll[j
                    + s.preroll.len() - (t.preroll.len() - 1)]
        }),
{
}

proof fn lemma_idle_preroll(n: int, p: Seq<Seq<u32>>, q: Seq<Seq<u32>>, sound: Seq<SoundFrame>)
    requires
        sound.len() == n,
        n > 0,
        q.len() == if p.len() < 3 {
            p.len() + 1
        } else {
            3
        },
        p.len() <= 3,
        p.len() <= n - 1,
        q.last() == sound.last().frame,
        forall|j: int| 0 <= j < q.len() - 1 ==> #[trigger] q[j] == p[j + p.len() - (q.len() - 1)],
        forall|j: int|
            0 <= j < p.len() ==> #[trigger] p[j] == sound.drop_last()[n - 1 - p.len() + j].frame,
    ensures
        forall|j: int| 0 <= j < q.len() ==> #[trigger] q[j] == sound[n - q.len() + j].frame,
{
    assert forall|j: int| 0 <= j < q.len() implies #[trigger] q[j] == sound[n - q.len()
        + j].frame by {
        if j < q.len() - 1 {
            let k = j + p.len() - (q.len() - 1);
            assert(p[k] == sound.drop_last()[n - 1 - p.len() + k].frame);
            assert(sound.drop_last()[n - q.len() + j] == sound[n - q.len() + j]);
        }
    }
}

proof fn lemma_idles(sound: Seq<SoundFrame>)
    requires
        sound.len() > 0,
        is_heard(sound.drop_last()),
        heard(sound.drop_last()).active is None,
        heard(sound).active is None,
    ensures
        is_heard(sound),
{
    let n = sound.len() as int;
    let front = sound.drop_last();
    let s = heard(front);
    let last = sound.last();
    let t = heard(sound);
    assert(t == after_frame(s, last.clip, last.frame, last.speech).0);
    lemma_idle_frame(s, last.clip, last.frame, last.speech);
    lemma_idle_preroll(n, s.preroll, t.preroll, sound);
    lemma_takes(sound);
    assert forall|k: int| n - t.speech_frames <= k < n implies (#[trigger] sound[k]).speech
        && heard(sound.take(k)).active is None by {
        if k < n - 1 {
            assert(front[k].speech && heard(front.take(k)).active is None);
        }
    }
    if t.speech_frames == 1 && n >= 2 {
        assert(s.speech_frames == 0);
        assert(front[n - 2] == sound[n - 2]);
        assert(sound.take(n - 2) == front.take(n - 2));
    }
}

proof fn lemma_heard(sound: Seq<SoundFrame>)
    requires
        forall|i: int| 0 <= i < sound.len() ==> (#[trigger] sound[i]).frame.len() == 160,
    ensures
        is_heard(sound),
    decreases sound.len(),
{
    if sound.len() > 0 {
        let front = sound.drop_last();
        assert forall|i: int| 0 <= i < front.len() implies (#[trigger] front[i]).frame.len()
            == 160 by {
            assert(front[i] == sound[i]);
        }
        lemma_heard(front);
        lemma_step(sound);
    }
}

proof fn lemma_step(sound: Seq<SoundFrame>)
    requires
        forall|i: int| 0 <= i < sound.len() ==> (#[trigger] sound[i]).frame.len() == 160,
        sound.len() > 0,
        is_heard(sound.drop_last()),
    ensures
        is_heard(sound),
{
    let n = sound.len() as int;
    let front = sound.drop_last();
    let t = heard(sound);
    lemma_takes(sound);
    match heard(front).active {
        Some(a) => {
            let i = choose|i: int| goes_on_since(front, i, a);
            if t.active is Some {
                lemma_goes_on(sound, i, a);
                let b = grown(a, sound.last().clip, sound.last().frame);
                assert(t.active == Some(b));
                assert forall|k: int| n - t.silence_frames <= k < n implies !(
                #[trigger] sound[k]).speech by {
                    if k < n - 1 {
                        assert(!front[k].speech);
                    }
                }
                if !sound.last().speech {
                    assert(front[n - 1 - t.silence_frames].speech);
                }
                assert(goes_on_since(sound, i, b));
            } else {
                assert(t == quiet());
                assert(heard(sound.take(n - 1)).active is Some);
            }
        },
        None => {
            if t.active is Some {
                lemma_opens(sound);
                assert(goes_on_since(sound, n - 3, t.active->0));
            } else {
                lemma_idles(sound);
            }
        },
    }
}

/// A group that goes on is all that was heard since the first of the three frames
/// of speech that opened it: no sample of it is lost, none comes twice, and none
/// changes. It tells when and from whom the clip came with which it was opened.
pub proof fn law_group_is_the_sound_since_it_opened(sound: Seq<SoundFrame>)
    requires
        forall|i: int| 0 <= i < sound.len() ==> (#[trigger] sound[i]).frame.len() == 160,
    ensures
        heard(sound).active matches Some(a) ==> exists|i: int|
            0 <= i <= sound.len() - 3 && (#[trigger] sound[i]).speech && sound[i + 1].speech
                && sound[i + 2].speech && heard(sound.take(i + 2)).active is None && (forall|j: int|
                i + 3 <= j <= sound.len() ==> (#[trigger] heard(sound.take(j))).active is Some)
                && a.client_id == sound[i + 2].clip.client_id && a.sensor_id
                == sound[i + 2].clip.sensor_id && a.sequence_start == sound[i + 2].clip.sequence
                && a.occurred_at == sound[i + 2].clip.occurred_at && a.sequence_end
                == sound.last().clip.sequence && a.samples.len() == 160 * (sound.len() - i) && (
            forall|k: int|
                0 <= k < a.samples.len() ==> #[trigger] a.samples[k] == sound[i + k
                    / 160].frame[k % 160]),
{
    lemma_heard(sound);
    match heard(sound).active {
        Some(a) => {
            let i = choose|i: int| goes_on_since(sound, i, a);
            assert(sound[i].speech);
        },
        None => {},
    }
}

/// While there is no group, one is opened by the third frame of speech in a row,
/// counted from where there was none, and by nothing else; nothing is closed.
pub proof fn law_three_frames_of_speech_open_a_group(sound: Seq<SoundFrame>)
    requires
        forall|i: int| 0 <= i < sound.len() ==> (#[trigger] sound[i]).frame.len() == 160,
        sound.len() > 0,
        heard(sound.drop_last()).active is None,
    ensures
        closed_last(sound) is None,
        heard(sound).active is Some <==> {
            let n = sound.len();
            &&& n >= 3
            &&& sound[n - 3].speech && sound[n - 2].speech && sound[n - 1].speech
            &&& heard(sound.take(n - 3)).active is None
            &&& heard(sound.take(n - 2)).active is None
        },
{
    let n = sound.len() as int;
    let front = sound.drop_last();
    assert forall|i: int| 0 <= i < front.len() implies (#[trigger] front[i]).frame.len() == 160 by {
        assert(front[i] == sound[i]);
    }
    lemma_heard(front);
    assert forall|k: int| 0 <= k < n implies #[trigger] sound.take(k) == front.take(k) by {
        assert(sound.take(k) =~= front.take(k));
    }
    let c = heard(front).speech_frames as int;
    if n >= 3 {
        assert(front[n - 2] == sound[n - 2] && front[n - 3] == sound[n - 3]);
        assert(sound.take(n - 2) == front.take(n - 2));
        assert(sound.take(n - 3) == front.take(n - 3));
    }
    if c == 2 {
        assert(front[n - 2].speech && front[n - 3].speech);
    }
}

/// A group that goes on is closed by silence when that frame and the
/// sixty-nine before it were silent, and not before: a pause counts from its
/// first frame, and speech ends it. Speech closes a group that reaches twenty
/// seconds. What is closed is the group with the last frame, and the session
/// begins anew.
pub proof fn law_group_closes_after_seventy_silent_frames(sound: Seq<SoundFrame>, a: GroupView)
    requires
        forall|i: int| 0 <= i < sound.len() ==> (#[trigger] sound[i]).frame.len() == 160,
        sound.len() > 0,
        heard(sound.drop_last()).active == Some(a),
    ensures
        closed_last(sound) is Some <==> heard(sound).active is None,
        heard(sound).active is None <==> if sound.last().speech {
            a.samples.len() + 160 >= 320_000
        } else {
            sound.len() >= 70 && forall|k: int|
                sound.len() - 70 <= k < sound.len() ==> !(#[trigger] sound[k]).speech
        },
        closed_last(sound) matches Some(group) ==> {
            &&& group.is_final
            &&& group.samples == a.samples + sound.last().frame
            &&& group.duration_ms == group.samples.len() / 16
            &&& group.client_id == a.client_id
            &&& group.sensor_id == a.sensor_id
            &&& group.sequence_start == a.sequence_start
            &&& group.sequence_end == sound.last().clip.sequence
            &&& group.occurred_at == a.occurred_at
        },
        heard(sound).active is None ==> {
            &&& heard(sound).speech_frames == 0
            &&& heard(sound).silence_frames == 0
            &&& heard(sound).preroll.len() == 0
            &&& heard(sound).looked_at is None
        },
{
    let n = sound.len() as int;
    let front = sound.drop_last();
    assert forall|i: int| 0 <= i < front.len() implies (#[trigger] front[i]).frame.len() == 160 by {
        assert(front[i] == sound[i]);
    }
    lemma_heard(front);
    let z = heard(front).silence_frames as int;
    assert(front[n - 2 - z] == sound[n - 2 - z]);
    if !sound.last().speech && z == 69 {
        assert forall|k: int| n - 70 <= k < n implies !(#[trigger] sound[k]).speech by {
            if k < n - 1 {
                assert(front[k] == sound[k]);
            }
        }
    }
    let i = choose|i: int| goes_on_since(front, i, a);
    assert(a.samples.len() >= 480);
}

/// The frames of a clip.
pub open spec fn clip_sound(clip: AcceptedView, speech: Seq<bool>) -> Seq<SoundFrame> {
    Seq::new(
        clip.samples.len() / 160,
        |i: int|
            SoundFrame {
                clip,
                frame: clip.samples.subrange(160 * i, 160 * i + 160),
                speech: speech[i],
            },
    )
}

/// The groups that some frames closed, but for the first `from` of them.
pub open spec fn closings(sound: Seq<SoundFrame>, from: nat) -> Seq<CompletedView>
    decreases sound.len(),
{
    if sound.len() <= from {
        Seq::empty()
    } else {
        match closed_last(sound) {
            Some(group) => closings(sound.drop_last(), from).push(group),
            None => closings(sound.drop_last(), from),
        }
    }
}

proof fn lemma_clip_frames(
    sound: Seq<SoundFrame>,
    s: SessionView,
    clip: AcceptedView,
    speech: Seq<bool>,
    k: int,
)
    requires
        s == (SessionView { looked_at: s.looked_at, ..heard(sound) }),
        speech.len() == clip.samples.len() / 160,
        0 <= k <= clip.samples.len() / 160,
    ensures
        ({
            let after = after_frames(s, clip, frames_of(clip.samples).take(k), speech);
            let all = sound + clip_sound(clip, speech).take(k);
            &&& after == (SessionView { looked_at: after.looked_at, ..heard(all) })
            &&& closed_groups(s, clip, frames_of(clip.samples).take(k), speech) == closings(
                all,
                sound.len(),
            )
            &&& k > 0 && after.active is Some ==> after.active->0.sequence_end == clip.sequence
            &&& after.looked_at is Some ==> after.looked_at == s.looked_at
        }),
    decreases k,
{
    let frames = frames_of(clip.samples);
    let more = clip_sound(clip, speech);
    if k == 0 {
        assert(frames.take(0) =~= Seq::<Seq<u32>>::empty());
        assert(sound + more.take(0) =~= sound);
    } else {
        lemma_clip_frames(sound, s, clip, speech, k - 1);
        assert(frames.take(k).drop_last() =~= frames.take(k - 1));
        assert(frames.take(k).last() == frames[k - 1]);
        let all = sound + more.take(k);
        assert(all.drop_last() =~= sound + more.take(k - 1));
        assert(all.last() == more[k - 1]);
    }
}

/// Clips are heard as one sound: where one ends and the next begins makes no
/// difference to the groups that are closed, and every whole frame counts. After
/// a clip the group that goes on is looked at, if it holds six tenths of a second.
pub proof fn law_clips_are_heard_as_one_sound(
    sound: Seq<SoundFrame>,
    s: SessionView,
    clip: AcceptedView,
    speech: Seq<bool>,
)
    requires
        s == (SessionView { looked_at: s.looked_at, ..heard(sound) }),
        speech.len() == clip.samples.len() / 160,
    ensures
        after_clip(s, clip, speech) == (SessionView {
            looked_at: after_clip(s, clip, speech).looked_at,
            ..heard(sound + clip_sound(clip, speech))
        }),
        groups_of_clip(s, clip, speech).take(
            closings(sound + clip_sound(clip, speech), sound.len()).len() as int,
        ) == closings(sound + clip_sound(clip, speech), sound.len()),
        match heard(sound + clip_sound(clip, speech)).active {
            Some(a) if 9_600 <= a.samples.len() <= 320_000_000 && clip.samples.len() >= 160
                && s.looked_at != Some(clip.sequence) => {
                let groups = groups_of_clip(s, clip, speech);
                &&& groups.len() == closings(sound + clip_sound(clip, speech), sound.len()).len()
                    + 1
                &&& !groups.last().is_final
                &&& groups.last().samples == a.samples
                &&& groups.last().duration_ms == a.samples.len() / 16
                &&& groups.last().sequence_start == a.sequence_start
                &&& groups.last().sequence_end == clip.sequence
                &&& groups.last().occurred_at == a.occurred_at
                &&& groups.last().client_id == a.client_id
                &&& groups.last().sensor_id == a.sensor_id
            },
            Some(a) if a.samples.len() >= 9_600 => true,
            _ => groups_of_clip(s, clip, speech) == closings(
                sound + clip_sound(clip, speech),
                sound.len(),
            ),
        },
{
    let n = (clip.samples.len() / 160) as int;
    lemma_clip_frames(sound, s, clip, speech, n);
    assert(frames_of(clip.samples).take(n) =~= frames_of(clip.samples));
    assert(clip_sound(clip, speech).take(n) =~= clip_sound(clip, speech));
    let all = closings(sound + clip_sound(clip, speech), sound.len());
    assert(groups_of_clip(s, clip, speech).take(all.len() as int) =~= all);
}

/// Where a moment lies among the samples.
pub open spec fn sample_index(ms: u64) -> usize {
    ((if ms * 16_000 <= u64::MAX {
        ms * 16_000
    } else {
        u64::MAX as int
    }) / 1000) as usize
}

/// Where a moment lies among the samples.
pub fn ms_to_sample_index(ms: u64) -> (n: usize)
    ensures
        n == sample_index(ms),
{
    let product: u64 = saturating_product(ms, WHISPER_SAMPLE_RATE_HZ as u64);
    (product / 1_000) as usize
}

/// The samples between two moments.
pub open spec fn samples_between(samples: Seq<u32>, start_ms: u64, end_ms: u64) -> Seq<u32> {
    let start = if sample_index(start_ms) <= samples.len() {
        sample_index(start_ms) as int
    } else {
        samples.len() as int
    };
    let end = if sample_index(end_ms) <= samples.len() {
        sample_index(end_ms) as int
    } else {
        samples.len() as int
    };
    samples.subrange(
        start,
        if end < start {
            start
        } else {
            end
        },
    )
}

/// The samples between two moments.
pub fn slice_samples_for_sentence(samples: &Vec<u32>, start_ms: u64, end_ms: u64) -> (r: Vec<u32>)
    ensures
        r@ == samples_between(samples@, start_ms, end_ms),
{
    let len: usize = samples.len();
    let first: usize = ms_to_sample_index(start_ms);
    let last: usize = ms_to_sample_index(end_ms);
    let start: usize = if first <= len {
        first
    } else {
        len
    };
    let bound: usize = if last <= len {
        last
    } else {
        len
    };
    let end: usize = if bound < start {
        start
    } else {
        bound
    };
    copy_samples(slice_subrange(samples.as_slice(), start, end))
}

/// A sentence that was understood in a group.
#[derive(Debug, PartialEq, Eq)]
pub struct SentenceTranscript {
    /// Its words.
    pub text: String,
    /// Where it starts.
    pub start_ms: u64,
    /// Where it ends.
    pub end_ms: u64,
}

/// What a [`SentenceTranscript`] is.
pub ghost struct SentenceView {
    pub text: Seq<char>,
    pub start_ms: u64,
    pub end_ms: u64,
}

impl View for SentenceTranscript {
    type V = SentenceView;

    open spec fn view(&self) -> SentenceView {
        SentenceView {
            text: self.text@,
            start_ms: self.start_ms,
            end_ms: self.end_ms,
        }
    }
}

impl Clone for SentenceTranscript {
    fn clone(&self) -> (r: SentenceTranscript)
        ensures
            r@ == self@,
    {
        SentenceTranscript {
            text: self.text.clone(),
            start_ms: self.start_ms,
            end_ms: self.end_ms,
        }
    }
}

/// The sentences of a list.
pub open spec fn sentence_views(list: Seq<SentenceTranscript>) -> Seq<SentenceView> {
    list.map_values(|s: SentenceTranscript| s@)
}

/// What was understood in a group.
#[derive(Debug, PartialEq, Eq)]
pub struct TranscriptResult {
    /// Who sent the sound.
    pub client_id: String,
    /// The sensor.
    pub sensor_id: String,
    /// The first clip.
    pub sequence_start: u64,
    /// The last clip.
    pub sequence_end: u64,
    /// When it began.
    pub occurred_at: Timestamp,
    /// The samples.
    pub samples: Vec<u32>,
    /// The sentences.
    pub sentences: Vec<SentenceTranscript>,
    /// Whether the group is closed.
    pub is_final: bool,
}

/// What a [`TranscriptResult`] is.
pub ghost struct TranscriptView {
    pub client_id: Seq<char>,
    pub sensor_id: Seq<char>,
    pub sequence_start: u64,
    pub sequence_end: u64,
    pub occurred_at: Timestamp,
    pub samples: Seq<u32>,
    pub sentences: Seq<SentenceView>,
    pub is_final: bool,
}

impl View for TranscriptResult {
    type V = TranscriptView;

    open spec fn view(&self) -> TranscriptView {
        TranscriptView {
            client_id: self.client_id@,
            sensor_id: self.sensor_id@,
            sequence_start: self.sequence_start,
            sequence_end: self.sequence_end,
            occurred_at: self.occurred_at,
            samples: self.samples@,
            sentences: sentence_views(self.sentences@),
            is_final: self.is_final,
        }
    }
}

/// What was understood in a group; nothing, if there are no sentences.
pub fn transcript_of(group: CompletedSpeechGroup, sentences: Vec<SentenceTranscript>) -> (r: Option<
    TranscriptResult,
>)
    ensures
        r is None == (sentences@.len() == 0),
        r matches Some(t) ==> t@ == (TranscriptView {
            client_id: group@.client_id,
            sensor_id: group@.sensor_id,
            sequence_start: group@.sequence_start,
            sequence_end: group@.sequence_end,
            occurred_at: group@.occurred_at,
            samples: group@.samples,
            sentences: sentence_views(sentences@),
            is_final: group@.is_final,
        }),
{
    if sentences.len() == 0 {
        return None;
    }
    Some(
        TranscriptResult {
            client_id: group.client_id,
            sensor_id: group.sensor_id,
            sequence_start: group.sequence_start,
            sequence_end: group.sequence_end,
            occurred_at: group.occurred_at,
            samples: group.samples,
            sentences,
            is_final: group.is_final,
        },
    )
}

/// A text on one line.
pub fn normalize_transcript_text(text: &str) -> (r: String)
    ensures
        r@ == collapsed(text@),
{
    collapse(text)
}

/// The milliseconds by which a sentence starts after its group, if a time can be
/// moved by so many.
pub open spec fn start_offset(ms: u64) -> int {
    if ms <= i64::MAX {
        ms as int
    } else {
        0
    }
}

/// Whether a sentence starts at a time that can be told.
pub open spec fn starts_in_range(t: TranscriptView, i: int) -> bool {
    in_range(t.occurred_at@ + start_offset(t.sentences[i].start_ms) * NANOS_PER_MILLI)
}

/// Whether every sentence that has any sound starts at a time that can be told.
pub open spec fn is_datable(t: TranscriptView) -> bool {
    forall|i: int|
        0 <= i < t.sentences.len() && #[trigger] sounds(t, i) ==> starts_in_range(t, i)
}

/// What is recorded of words that were heard.
#[derive(Debug, PartialEq, Eq)]
pub struct SentenceRecord {
    /// The sensation.
    pub sensation: SensationRecord,
    /// The words with their sound.
    pub clip: AudioSentenceClipRecord,
    /// The impression.
    pub impression: VisionImpressionRecord,
    /// What is told of them.
    pub event: RealTimeExperienceEvent,
}

/// What a [`SentenceRecord`] is.
pub ghost struct SentenceRecordView {
    pub sensation: SensationRecordView,
    pub clip: ClipView,
    pub impression: ImpressionRecordView,
    pub event: BroadcastView,
}

impl View for SentenceRecord {
    type V = SentenceRecordView;

    open spec fn view(&self) -> SentenceRecordView {
        SentenceRecordView {
            sensation: self.sensation@,
            clip: self.clip@,
            impression: self.impression@,
            event: self.event@,
        }
    }
}

impl Clone for SentenceRecord {
    fn clone(&self) -> (r: SentenceRecord)
        ensures
            r@ == self@,
    {
        SentenceRecord {
            sensation: self.sensation.clone(),
            clip: self.clip.clone(),
            impression: self.impression.clone(),
            event: self.event.clone(),
        }
    }
}

/// What is known of a sentence.
pub open spec fn sentence_detail(t: TranscriptView, i: int, audio_sha256: Seq<char>) -> JsonView {
    let s = t.sentences[i];
    let length = if s.end_ms >= s.start_ms {
        (s.end_ms - s.start_ms) as nat
    } else {
        0
    };
    JsonView::Object(
        seq![
            named("audio_sha256"@, JsonView::Str(audio_sha256)),
            named("channels"@, JsonView::Number(decimal(1))),
            named("duration_ms"@, JsonView::Number(decimal(length))),
            named("end_ms"@, JsonView::Number(decimal(s.end_ms as nat))),
            named("sample_format"@, JsonView::Str("f32le"@)),
            named("sample_rate_hz"@, JsonView::Number(decimal(16_000))),
            named("sentence_count"@, JsonView::Number(decimal(t.sentences.len()))),
            named("sentence_index"@, JsonView::Number(decimal(i as nat))),
            named("sequence_end"@, JsonView::Number(decimal(t.sequence_end as nat))),
            named("sequence_start"@, JsonView::Number(decimal(t.sequence_start as nat))),
            named("start_ms"@, JsonView::Number(decimal(s.start_ms as nat))),
            named("text"@, JsonView::Str(s.text)),
        ],
    )
}

/// What an impression of a sentence carries.
pub open spec fn sentence_payload(t: TranscriptView, i: int) -> JsonView {
    let s = t.sentences[i];
    JsonView::Object(
        seq![
            named("end_ms"@, JsonView::Number(decimal(s.end_ms as nat))),
            named("sentence_count"@, JsonView::Number(decimal(t.sentences.len()))),
            named("sentence_index"@, JsonView::Number(decimal(i as nat))),
            named("sequence_end"@, JsonView::Number(decimal(t.sequence_end as nat))),
            named("sequence_start"@, JsonView::Number(decimal(t.sequence_start as nat))),
            named("start_ms"@, JsonView::Number(decimal(s.start_ms as nat))),
            named("transcript"@, JsonView::Str(s.text)),
        ],
    )
}

/// Whether a record is that of a sentence: its sensation starts where the
/// sentence does, and its sound is that of the sentence alone.
pub open spec fn is_sentence_record(
    r: SentenceRecordView,
    t: TranscriptView,
    i: int,
    now: Timestamp,
    ids: RecordIds,
) -> bool {
    let s = t.sentences[i];
    let bytes = le_bytes(samples_between(t.samples, s.start_ms, s.end_ms));
    let source = SourceView::of(t.client_id, t.sensor_id, ASR_CHANNEL@);
    &&& r.sensation == (SensationRecordView {
        id: ids.sensation,
        kind: "audio.utterance"@,
        occurred_at: r.sensation.occurred_at,
        observed_at: now,
        source,
        sequence: t.sequence_end,
        media: MediaView::flat("audio/pcm"@, "f32le; sample_rate_hz=16000; channels=1"@),
        provenance: ProvenanceView::direct().through("ASR Faculty"@),
        data_sha256: hex(sha256(bytes)),
        data_bytes: bytes.len() as usize,
        detail: sentence_detail(t, i, hex(sha256(bytes))),
    })
    &&& r.sensation.occurred_at@ == t.occurred_at@ + start_offset(s.start_ms) * NANOS_PER_MILLI
    &&& r.clip == (ClipView {
        sensation: r.sensation,
        text: s.text,
        sample_rate_hz: 16_000,
        channels: 1,
        sample_format: "f32le"@,
        start_ms: s.start_ms,
        end_ms: s.end_ms,
        data: base64_text(bytes),
    })
    &&& base64_bytes(r.clip.data) == decoded(bytes)
    &&& r.impression == (ImpressionRecordView {
        id: ids.impression,
        sensation_id: ids.sensation,
        occurred_at: r.sensation.occurred_at,
        observed_at: now,
        source,
        sequence: t.sequence_end,
        text: "I hear someone say: "@ + s.text,
        kind: "audio.utterance"@,
        faculty: "ASR Faculty"@,
        confidence: "0.7200000286102295"@,
        payload: sentence_payload(t, i),
    })
    &&& r.event == (BroadcastView::AsrTranscript {
        observed_at: now,
        text: s.text,
        sequence_start: t.sequence_start,
        sequence_end: t.sequence_end,
        is_final: true,
        sentence_index: Some(i as usize),
        sentence_count: Some(t.sentences.len() as usize),
    })
}

/// Whether a sentence has any sound.
pub open spec fn sounds(t: TranscriptView, i: int) -> bool {
    samples_between(t.samples, t.sentences[i].start_ms, t.sentences[i].end_ms).len() > 0
}

/// Records a sentence, if it has any sound.
pub fn record_sentence(result: &TranscriptResult, i: usize, now: Timestamp, ids: RecordIds) -> (r: Option<
    SentenceRecord,
>)
    requires
        i < result@.sentences.len(),
        sounds(result@, i as int) ==> starts_in_range(result@, i as int),
    ensures
        r is Some == sounds(result@, i as int),
        r matches Some(record) ==> is_sentence_record(record@, result@, i as int, now, ids),
{
    let ghost t = result@;
    let sentence = &result.sentences[i];
    assert(t.sentences[i as int] == sentence@);
    let samples = slice_samples_for_sentence(
        &result.samples,
        sentence.start_ms,
        sentence.end_ms,
    );
    if samples.len() == 0 {
        return None;
    }
    let bytes = f32_samples_to_le_bytes(samples.as_slice());
    let audio_sha256 = sha256_hex(bytes.as_slice());
    let data = base64_encode(bytes.as_slice());
    let count: usize = result.sentences.len();
    let occurred_at = match start_of(result, i) {
        Some(t) => t,
        None => {
            assert(false);
            return None;
        },
    };
    let length: u64 = if sentence.end_ms >= sentence.start_ms {
        sentence.end_ms - sentence.start_ms
    } else {
        0
    };
    let detail = Fields::new()
        .with("audio_sha256", Json::text(audio_sha256.as_str()))
        .with("channels", Json::count(MONO_CHANNELS as u64))
        .with("duration_ms", Json::count(length))
        .with("end_ms", Json::count(sentence.end_ms))
        .with("sample_format", Json::text("f32le"))
        .with("sample_rate_hz", Json::count(WHISPER_SAMPLE_RATE_HZ as u64))
        .with("sentence_count", Json::count(count as u64))
        .with("sentence_index", Json::count(i as u64))
        .with("sequence_end", Json::count(result.sequence_end))
        .with("sequence_start", Json::count(result.sequence_start))
        .with("start_ms", Json::count(sentence.start_ms))
        .with("text", Json::text(sentence.text.as_str()));
    assert(detail@ =~= sentence_detail(t, i as int, audio_sha256@)->Object_0);
    let payload = Fields::new()
        .with("end_ms", Json::count(sentence.end_ms))
        .with("sentence_count", Json::count(count as u64))
        .with("sentence_index", Json::count(i as u64))
        .with("sequence_end", Json::count(result.sequence_end))
        .with("sequence_start", Json::count(result.sequence_start))
        .with("start_ms", Json::count(sentence.start_ms))
        .with("transcript", Json::text(sentence.text.as_str()));
    assert(payload@ =~= sentence_payload(t, i as int)->Object_0);
    let source = SensationSource::of(
        result.client_id.as_str(),
        result.sensor_id.as_str(),
        ASR_CHANNEL,
    );
    let sensation = SensationRecord {
        id: ids.sensation,
        kind: "audio.utterance".to_owned(),
        occurred_at,
        observed_at: now,
        source: source.clone(),
        sequence: result.sequence_end,
        media: MediaRecord::flat("audio/pcm", "f32le; sample_rate_hz=16000; channels=1"),
        provenance: Provenance::direct().with_faculty("ASR Faculty"),
        data_sha256: audio_sha256,
        data_bytes: bytes.len(),
        detail: detail.object(),
    };
    let mut text = "I hear someone say: ".to_owned();
    text.push_str(sentence.text.as_str());
    let clip = AudioSentenceClipRecord {
        sensation: sensation.clone(),
        text: sentence.text.clone(),
        sample_rate_hz: WHISPER_SAMPLE_RATE_HZ,
        channels: MONO_CHANNELS,
        sample_format: "f32le".to_owned(),
        start_ms: sentence.start_ms,
        end_ms: sentence.end_ms,
        data,
    };
    let impression = VisionImpressionRecord {
        id: ids.impression,
        sensation_id: ids.sensation,
        occurred_at,
        observed_at: now,
        source,
        sequence: result.sequence_end,
        text,
        kind: "audio.utterance".to_owned(),
        faculty: "ASR Faculty".to_owned(),
        confidence: Confidence::of(ASR_CONFIDENCE),
        payload: payload.object(),
    };
    let event = RealTimeExperienceEvent::AsrTranscript {
        observed_at: now,
        text: sentence.text.clone(),
        sequence_start: result.sequence_start,
        sequence_end: result.sequence_end,
        is_final: true,
        sentence_index: Some(i),
        sentence_count: Some(count),
    };
    Some(SentenceRecord { sensation, clip, impression, event })
}

/// The places of those of the first `n` sentences that have any sound.
pub open spec fn sounding(t: TranscriptView, n: nat) -> Seq<int>
    decreases n,
{
    if n == 0 {
        Seq::empty()
    } else if sounds(t, n - 1) {
        sounding(t, (n - 1) as nat).push(n - 1)
    } else {
        sounding(t, (n - 1) as nat)
    }
}

/// Whether records are those of the sentences that have any sound, in order.
pub open spec fn are_sentence_records(
    records: Seq<SentenceRecord>,
    t: TranscriptView,
    n: nat,
    now: Timestamp,
    ids: Seq<RecordIds>,
) -> bool {
    &&& records.len() == sounding(t, n).len()
    &&& forall|k: int| 0 <= k < records.len() ==> is_sentence_record(
        (#[trigger] records[k])@,
        t,
        sounding(t, n)[k],
        now,
        ids[sounding(t, n)[k]],
    )
}

/// Records the sentences of a closed group that have any sound.
pub fn record_transcript(result: &TranscriptResult, now: Timestamp, ids: &Vec<RecordIds>) -> (records:
    Vec<SentenceRecord>)
    requires
        is_datable(result@),
        ids@.len() == result@.sentences.len(),
    ensures
        are_sentence_records(records@, result@, result@.sentences.len(), now, ids@),
{
    let ghost t = result@;
    let mut records: Vec<SentenceRecord> = Vec::new();
    let mut i: usize = 0;
    while i < result.sentences.len()
        invariant
            i <= result.sentences@.len(),
            t == result@,
            t.sentences.len() == result.sentences@.len(),
            ids@.len() == t.sentences.len(),
            is_datable(t),
            are_sentence_records(records@, t, i as nat, now, ids@),
        decreases result.sentences@.len() - i,
    {
        let ghost before = records@;
        match record_sentence(result, i, now, ids[i]) {
            Some(record) => {
                records.push(record);
                assert forall|k: int| 0 <= k < records@.len() implies is_sentence_record(
                    (#[trigger] records@[k])@,
                    t,
                    sounding(t, (i + 1) as nat)[k],
                    now,
                    ids@[sounding(t, (i + 1) as nat)[k]],
                ) by {
                    if k < before.len() {
                        assert(records@[k] == before[k]);
                    }
                }
            },
            None => {},
        }
        i += 1;
    }
    records
}

/// The moment at which a sentence starts, where it can be told.
fn start_of(result: &TranscriptResult, i: usize) -> (r: Option<Timestamp>)
    requires
        i < result@.sentences.len(),
    ensures
        match r {
            Some(t) => starts_in_range(result@, i as int) && t@ == result@.occurred_at@
                + start_offset(result@.sentences[i as int].start_ms) * NANOS_PER_MILLI,
            None => !starts_in_range(result@, i as int),
        },
{
    let start_ms: u64 = result.sentences[i].start_ms;
    assert(result@.sentences[i as int] == result.sentences@[i as int]@);
    let offset: i64 = if start_ms <= i64::MAX as u64 {
        start_ms as i64
    } else {
        0
    };
    result.occurred_at.plus_millis(offset)
}

/// Tells whether every sentence that has any sound starts at a time that can be
/// told.
pub fn can_be_dated(result: &TranscriptResult) -> (r: bool)
    ensures
        r == is_datable(result@),
{
    let ghost t = result@;
    let mut i: usize = 0;
    while i < result.sentences.len()
        invariant
            i <= result.sentences@.len(),
            t == result@,
            t.sentences.len() == result.sentences@.len(),
            forall|k: int| 0 <= k < i && #[trigger] sounds(t, k) ==> starts_in_range(t, k),
        decreases result.sentences@.len() - i,
    {
        assert(t.sentences[i as int] == result.sentences@[i as int]@);
        let samples = slice_samples_for_sentence(
            &result.samples,
            result.sentences[i].start_ms,
            result.sentences[i].end_ms,
        );
        if samples.len() > 0 && start_of(result, i).is_none() {
            assert(sounds(t, i as int) && !starts_in_range(t, i as int));
            return false;
        }
        i += 1;
    }
    true
}

/// What is known of words that may have been heard.
pub open spec fn hypothesis_detail(t: TranscriptView, text: Seq<char>) -> JsonView {
    JsonView::Object(
        seq![
            named("channels"@, JsonView::Number(decimal(1))),
            named("duration_ms"@, JsonView::Number(decimal(millis_of(t.samples.len()) as nat))),
            named("is_final"@, JsonView::Bool(false)),
            named("sample_format"@, JsonView::Str("f32le"@)),
            named("sample_rate_hz"@, JsonView::Number(decimal(16_000))),
            named("sequence_end"@, JsonView::Number(decimal(t.sequence_end as nat))),
            named("sequence_start"@, JsonView::Number(decimal(t.sequence_start as nat))),
            named("text"@, JsonView::Str(text)),
        ],
    )
}

/// What an impression of words that may have been heard carries.
pub open spec fn hypothesis_payload(t: TranscriptView, text: Seq<char>) -> JsonView {
    JsonView::Object(
        seq![
            named("is_final"@, JsonView::Bool(false)),
            named("sequence_end"@, JsonView::Number(decimal(t.sequence_end as nat))),
            named("sequence_start"@, JsonView::Number(decimal(t.sequence_start as nat))),
            named("transcript"@, JsonView::Str(text)),
        ],
    )
}

/// What is recorded of words that may have been heard.
#[derive(Debug, PartialEq, Eq)]
pub struct HypothesisRecord {
    /// The sensation.
    pub sensation: SensationRecord,
    /// The impression.
    pub impression: VisionImpressionRecord,
    /// What is told of them.
    pub event: RealTimeExperienceEvent,
}

/// What a [`HypothesisRecord`] is.
pub ghost struct HypothesisView {
    pub sensation: SensationRecordView,
    pub impression: ImpressionRecordView,
    pub event: BroadcastView,
}

impl View for HypothesisRecord {
    type V = HypothesisView;

    open spec fn view(&self) -> HypothesisView {
        HypothesisView {
            sensation: self.sensation@,
            impression: self.impression@,
            event: self.event@,
        }
    }
}

impl Clone for HypothesisRecord {
    fn clone(&self) -> (r: HypothesisRecord)
        ensures
            r@ == self@,
    {
        HypothesisRecord {
            sensation: self.sensation.clone(),
            impression: self.impression.clone(),
            event: self.event.clone(),
        }
    }
}

/// The words of some sentences.
pub open spec fn sentence_words(list: Seq<SentenceView>) -> Seq<Seq<char>> {
    list.map_values(|s: SentenceView| s.text)
}

/// The words of a group, on one line.
pub open spec fn said_in(t: TranscriptView) -> Seq<char> {
    collapsed(joined(sentence_words(t.sentences), " "@))
}

/// The record of words that may have been heard.
pub open spec fn hypothesis(t: TranscriptView, now: Timestamp, ids: RecordIds) -> HypothesisView {
    let text = said_in(t);
    let source = SourceView::of(t.client_id, t.sensor_id, ASR_CHANNEL@);
    let detail = hypothesis_detail(t, text);
    HypothesisView {
        sensation: SensationRecordView {
            id: ids.sensation,
            kind: "audio.utterance_hypothesis"@,
            occurred_at: t.occurred_at,
            observed_at: now,
            source,
            sequence: t.sequence_end,
            media: MediaView::flat("text/plain"@, "utf-8"@),
            provenance: ProvenanceView::direct().through("ASR Faculty"@),
            data_sha256: text_digest(json_text(detail)),
            data_bytes: text_bytes(json_text(detail)),
            detail,
        },
        impression: ImpressionRecordView {
            id: ids.impression,
            sensation_id: ids.sensation,
            occurred_at: t.occurred_at,
            observed_at: now,
            source,
            sequence: t.sequence_end,
            text: "I may be hearing: "@ + text,
            kind: "audio.utterance_hypothesis"@,
            faculty: "ASR Faculty"@,
            confidence: "0.41999998688697815"@,
            payload: hypothesis_payload(t, text),
        },
        event: BroadcastView::AsrTranscript {
            observed_at: now,
            text,
            sequence_start: t.sequence_start,
            sequence_end: t.sequence_end,
            is_final: false,
            sentence_index: None,
            sentence_count: None,
        },
    }
}

fn words_of(sentences: &Vec<SentenceTranscript>) -> (list: Vec<String>)
    ensures
        crate::text::texts(list@) == sentence_words(sentence_views(sentences@)),
{
    let mut list: Vec<String> = Vec::new();
    let mut i: usize = 0;
    while i < sentences.len()
        invariant
            i <= sentences@.len(),
            list@.len() == i,
            forall|k: int| 0 <= k < i ==> (#[trigger] list@[k])@ == sentences@[k].text@,
        decreases sentences@.len() - i,
    {
        list.push(sentences[i].text.clone());
        i += 1;
    }
    assert(crate::text::texts(list@) =~= sentence_words(sentence_views(sentences@)));
    list
}

/// Records words that may have been heard, before their group is closed; none if
/// there are no words.
pub fn record_speculative_transcript(result: &TranscriptResult, now: Timestamp, ids: RecordIds) -> (r:
    Option<HypothesisRecord>)
    ensures
        r is Some == (said_in(result@).len() > 0),
        r matches Some(record) ==> record@ == hypothesis(result@, now, ids),
{
    let ghost t = result@;
    let list = words_of(&result.sentences);
    let whole = join(&list, " ");
    let text = normalize_transcript_text(whole.as_str());
    if text.as_str().unicode_len() == 0 {
        return None;
    }
    let fields = Fields::new()
        .with("channels", Json::count(MONO_CHANNELS as u64))
        .with("duration_ms", Json::count(group_duration_ms(result.samples.len())))
        .with("is_final", Json::Bool(false))
        .with("sample_format", Json::text("f32le"))
        .with("sample_rate_hz", Json::count(WHISPER_SAMPLE_RATE_HZ as u64))
        .with("sequence_end", Json::count(result.sequence_end))
        .with("sequence_start", Json::count(result.sequence_start))
        .with("text", Json::text(text.as_str()));
    assert(fields@ =~= hypothesis_detail(t, text@)->Object_0);
    let detail = fields.object();
    let data = detail.to_text();
    let payload = Fields::new()
        .with("is_final", Json::Bool(false))
        .with("sequence_end", Json::count(result.sequence_end))
        .with("sequence_start", Json::count(result.sequence_start))
        .with("transcript", Json::text(text.as_str()));
    assert(payload@ =~= hypothesis_payload(t, text@)->Object_0);
    let source = SensationSource::of(
        result.client_id.as_str(),
        result.sensor_id.as_str(),
        ASR_CHANNEL,
    );
    let sensation = SensationRecord {
        id: ids.sensation,
        kind: "audio.utterance_hypothesis".to_owned(),
        occurred_at: result.occurred_at,
        observed_at: now,
        source: source.clone(),
        sequence: result.sequence_end,
        media: MediaRecord::flat("text/plain", "utf-8"),
        provenance: Provenance::direct().with_faculty("ASR Faculty"),
        data_sha256: sha256_text(data.as_str()),
        data_bytes: byte_len(data.as_str()),
        detail,
    };
    let mut heard = "I may be hearing: ".to_owned();
    heard.push_str(text.as_str());
    let impression = VisionImpressionRecord {
        id: ids.impression,
        sensation_id: ids.sensation,
        occurred_at: result.occurred_at,
        observed_at: now,
        source,
        sequence: result.sequence_end,
        text: heard,
        kind: "audio.utterance_hypothesis".to_owned(),
        faculty: "ASR Faculty".to_owned(),
        confidence: Confidence::of(SPECULATIVE_ASR_CONFIDENCE),
        payload: payload.object(),
    };
    let event = RealTimeExperienceEvent::AsrTranscript {
        observed_at: now,
        text,
        sequence_start: result.sequence_start,
        sequence_end: result.sequence_end,
        is_final: false,
        sentence_index: None,
        sentence_count: None,
    };
    Some(HypothesisRecord { sensation, impression, event })
}

/// What is recorded of what was understood in a group.
#[derive(Debug)]
pub enum Heard {
    /// The sentences of a group that was closed.
    Sentences(Vec<SentenceRecord>),
    /// What may have been heard in a group that is still open, if anything.
    Hypothesis(Option<HypothesisRecord>),
}

/// Records what was understood in a group: its sentences where it was closed, and
/// else what may have been heard so far. Each record takes identifiers of its own.
pub fn record_heard(
    result: &TranscriptResult,
    now: Timestamp,
    ids: &Vec<RecordIds>,
    hypothesis_ids: RecordIds,
) -> (r: Heard)
    requires
        result@.is_final ==> is_datable(result@) && ids@.len() == result@.sentences.len(),
    ensures
        match r {
            Heard::Sentences(records) => result@.is_final && are_sentence_records(
                records@,
                result@,
                result@.sentences.len(),
                now,
                ids@,
            ),
            Heard::Hypothesis(None) => !result@.is_final && said_in(result@).len() == 0,
            Heard::Hypothesis(Some(record)) => !result@.is_final && said_in(result@).len() > 0
                && record@ == hypothesis(result@, now, hypothesis_ids),
        },
{
    if result.is_final {
        Heard::Sentences(record_transcript(result, now, ids))
    } else {
        Heard::Hypothesis(record_speculative_transcript(result, now, hypothesis_ids))
    }
}

/// Adds a sentence with its sound to the log.
pub fn record_audio_sentence_clip(
    records: &mut VecDeque<AudioSentenceClipRecord>,
    record: AudioSentenceClipRecord,
)
    ensures
        clip_views(final(records)@) == logged(clip_views(old(records)@), record@, 80),
{
    push_limited(records, record, MAX_RECORDED_AUDIO_SENTENCE_CLIPS);
    assert(clip_views(records@) =~= logged(clip_views(old(records)@), record@, 80));
}

/// Adds a sentence to the logs.
pub fn file_sentence(
    record: &SentenceRecord,
    sensations: &mut VecDeque<SensationRecord>,
    clips: &mut VecDeque<AudioSentenceClipRecord>,
    impressions: &mut VecDeque<VisionImpressionRecord>,
)
    ensures
        record_views(final(sensations)@) == logged(
            record_views(old(sensations)@),
            record@.sensation,
            200,
        ),
        clip_views(final(clips)@) == logged(clip_views(old(clips)@), record@.clip, 80),
        impression_views(final(impressions)@) == logged(
            impression_views(old(impressions)@),
            record@.impression,
            80,
        ),
{
    record_sensation(sensations, record.sensation.clone());
    record_audio_sentence_clip(clips, record.clip.clone());
    record_impression(impressions, record.impression.clone());
}

/// What to make of an answer of the worker that listens.
#[derive(Debug, PartialEq, Eq)]
pub enum WorkerReply {
    /// It answers another request.
    Other,
    /// It failed.
    Failed {
        /// Why.
        error: String,
    },
    /// Here are its sentences.
    Sentences,
}

/// What to make of an answer to a request.
pub fn judge_worker_response(request_id: u64, response_id: u64, error: &Option<String>) -> (r: WorkerReply)
    ensures
        match r {
            WorkerReply::Other => response_id != request_id,
            WorkerReply::Failed { error: told } => response_id == request_id && (match *error {
                Some(e) => told@ == "ASR worker failed: "@ + e@,
                None => false,
            }),
            WorkerReply::Sentences => response_id == request_id && *error is None,
        },
{
    if response_id != request_id {
        return WorkerReply::Other;
    }
    match error {
        Some(e) => {
            let mut told = "ASR worker failed: ".to_owned();
            told.push_str(e.as_str());
            WorkerReply::Failed { error: told }
        },
        None => WorkerReply::Sentences,
    }
}

/// The next number for a request.
pub fn next_request_id(last: u64) -> (r: Result<u64, String>)
    ensures
        match r {
            Ok(id) => last < u64::MAX && id == last + 1,
            Err(e) => last == u64::MAX && e@ == "ASR worker id overflow"@,
        },
{
    if last == u64::MAX {
        Err("ASR worker id overflow".to_owned())
    } else {
        Ok(last + 1)
    }
}

/// The sound of a sentence is what lies between its moments, sixteen samples to the
/// millisecond: no sample before it begins, none after it ends, and none left out.
pub proof fn law_sound_of_a_sentence_lies_between_its_moments(
    samples: Seq<u32>,
    start_ms: u64,
    end_ms: u64,
)
    requires
        start_ms <= end_ms,
        end_ms * 16 <= samples.len(),
        samples.len() <= usize::MAX,
        end_ms * 16_000 <= u64::MAX,
    ensures
        samples_between(samples, start_ms, end_ms).len() == (end_ms - start_ms) * 16,
        forall|k: int|
            0 <= k < (end_ms - start_ms) * 16 ==> #[trigger] samples_between(
                samples,
                start_ms,
                end_ms,
            )[k] == samples[start_ms * 16 + k],
{
    assert(start_ms * 16_000 / 1000 == start_ms * 16);
    assert(end_ms * 16_000 / 1000 == end_ms * 16);
}

/// The sound of two sentences of which one begins where the other ends is the
/// sound from the beginning of the one to the end of the other.
pub proof fn law_neighbouring_sounds_join(samples: Seq<u32>, a: u64, b: u64, c: u64)
    requires
        a <= b <= c,
        samples.len() <= usize::MAX,
        c * 16_000 <= u64::MAX,
        c * 16 <= usize::MAX,
    ensures
        samples_between(samples, a, b) + samples_between(samples, b, c) == samples_between(
            samples,
            a,
            c,
        ),
{
    assert(a * 16_000 / 1000 == a * 16);
    assert(b * 16_000 / 1000 == b * 16);
    assert(c * 16_000 / 1000 == c * 16);
    assert(samples_between(samples, a, b) + samples_between(samples, b, c) =~= samples_between(
        samples,
        a,
        c,
    ));
}

/// The sentences that are recorded are those that have any sound, each once and in
/// order.
pub proof fn law_every_sounding_sentence_is_recorded_once(t: TranscriptView, n: nat)
    ensures
        forall|k: int|
            0 <= k < sounding(t, n).len() ==> 0 <= #[trigger] sounding(t, n)[k] < n && sounds(
                t,
                sounding(t, n)[k],
            ),
        forall|k: int, m: int|
            0 <= k < m < sounding(t, n).len() ==> #[trigger] sounding(t, n)[k]
                < #[trigger] sounding(t, n)[m],
        forall|i: int|
            0 <= i < n && samples_between(
                t.samples,
                t.sentences[i].start_ms,
                t.sentences[i].end_ms,
            ).len() > 0 ==> #[trigger] sounding(t, n).contains(i),
    decreases n,
{
    if n > 0 {
        let m = (n - 1) as nat;
        law_every_sounding_sentence_is_recorded_once(t, m);
        let front = sounding(t, m);
        let all = sounding(t, n);
        assert forall|i: int|
            0 <= i < n && samples_between(
                t.samples,
                t.sentences[i].start_ms,
                t.sentences[i].end_ms,
            ).len() > 0 implies #[trigger] all.contains(i) by {
            if i == n - 1 {
                assert(all[all.len() - 1] == i);
            } else {
                assert(front.contains(i));
                let k = choose|k: int| 0 <= k < front.len() && front[k] == i;
                assert(all[k] == i);
            }
        }
    }
}

/// The record of a sentence tells its words, where it lies in its group, and which
/// of how many it is, the same in what is kept, in what is noticed and in what
/// whoever listens is told; it happened as long after its group began as it starts
/// in it.
pub proof fn law_record_tells_its_sentence(
    r: SentenceRecordView,
    t: TranscriptView,
    i: int,
    now: Timestamp,
    ids: RecordIds,
)
    requires
        0 <= i < t.sentences.len(),
        is_sentence_record(r, t, i, now, ids),
        t.sentences[i].start_ms <= i64::MAX,
    ensures
        r.clip.text == t.sentences[i].text,
        r.clip.start_ms == t.sentences[i].start_ms,
        r.clip.end_ms == t.sentences[i].end_ms,
        r.clip.sensation == r.sensation,
        r.impression.sensation_id == r.sensation.id,
        r.impression.text == "I hear someone say: "@ + t.sentences[i].text,
        r.sensation.occurred_at@ == t.occurred_at@ + t.sentences[i].start_ms * 1_000_000,
        r.impression.occurred_at == r.sensation.occurred_at,
        r.event matches BroadcastView::AsrTranscript {
            observed_at,
            text,
            sequence_start,
            sequence_end,
            is_final,
            sentence_index,
            sentence_count,
        } && observed_at == now && text == t.sentences[i].text && sequence_start == t.sequence_start
            && sequence_end == t.sequence_end && is_final,
        field(r.sensation.detail, "text"@) == Some(JsonView::Str(t.sentences[i].text)),
        field(r.sensation.detail, "start_ms"@) == Some(
            JsonView::Number(decimal(t.sentences[i].start_ms as nat)),
        ),
        field(r.sensation.detail, "end_ms"@) == Some(
            JsonView::Number(decimal(t.sentences[i].end_ms as nat)),
        ),
        field(r.sensation.detail, "sentence_index"@) == Some(JsonView::Number(decimal(i as nat))),
        field(r.sensation.detail, "sentence_count"@) == Some(
            JsonView::Number(decimal(t.sentences.len())),
        ),
        field(r.sensation.detail, "sequence_start"@) == Some(
            JsonView::Number(decimal(t.sequence_start as nat)),
        ),
        field(r.sensation.detail, "sequence_end"@) == Some(
            JsonView::Number(decimal(t.sequence_end as nat)),
        ),
        field(r.impression.payload, "transcript"@) == Some(JsonView::Str(t.sentences[i].text)),
{
    reveal_strlit("audio_sha256");
    reveal_strlit("channels");
    reveal_strlit("duration_ms");
    reveal_strlit("end_ms");
    reveal_strlit("sample_format");
    reveal_strlit("sample_rate_hz");
    reveal_strlit("sentence_count");
    reveal_strlit("sentence_index");
    reveal_strlit("sequence_end");
    reveal_strlit("sequence_start");
    reveal_strlit("start_ms");
    reveal_strlit("text");
    reveal_strlit("transcript");
    assert("audio_sha256"@.len() == 12 && "audio_sha256"@[0] == 'a');
    assert("channels"@.len() == 8 && "channels"@[0] == 'c');
    assert("duration_ms"@.len() == 11);
    assert("end_ms"@.len() == 6);
    assert("sample_format"@.len() == 13);
    assert("sample_rate_hz"@.len() == 14 && "sample_rate_hz"@[1] == 'a');
    assert("sentence_count"@.len() == 14 && "sentence_count"@[1] == 'e' && "sentence_count"@[2] == 'n'
        && "sentence_count"@[9] == 'c');
    assert("sentence_index"@.len() == 14 && "sentence_index"@[1] == 'e' && "sentence_index"@[2] == 'n'
        && "sentence_index"@[9] == 'i');
    assert("sequence_end"@.len() == 12 && "sequence_end"@[0] == 's');
    assert("sequence_start"@.len() == 14 && "sequence_start"@[1] == 'e' && "sequence_start"@[2] == 'q');
    assert("start_ms"@.len() == 8 && "start_ms"@[0] == 's');
    assert("text"@.len() == 4);
    assert("transcript"@.len() == 10);
    let fields = r.sensation.detail->Object_0;
    lemma_field_at(fields, 3);
    lemma_field_at(fields, 6);
    lemma_field_at(fields, 7);
    lemma_field_at(fields, 8);
    lemma_field_at(fields, 9);
    lemma_field_at(fields, 10);
    lemma_field_at(fields, 11);
    lemma_field_at(r.impression.payload->Object_0, 6);
}

/// Words that may have been heard are told, before their group is closed, as the
/// texts of its sentences, in order and with a space between them; they are told to
/// be no more than that.
pub proof fn law_hypothesis_tells_all_sentences(t: TranscriptView, now: Timestamp, ids: RecordIds)
    requires
        t.sentences.len() > 0,
        is_spaced(joined(Seq::new(t.sentences.len(), |i: int| t.sentences[i].text), seq![' '])),
    ensures
        ({
            let text = joined(Seq::new(t.sentences.len(), |i: int| t.sentences[i].text), seq![' ']);
            let r = hypothesis(t, now, ids);
            &&& said_in(t) == text
            &&& r.impression.text == "I may be hearing: "@ + text
            &&& r.event matches BroadcastView::AsrTranscript { text: told, is_final, .. } && told
                == text && !is_final
            &&& r.impression.sensation_id == r.sensation.id
            &&& r.sensation.occurred_at == t.occurred_at
        }),
{
    let list = Seq::new(t.sentences.len(), |i: int| t.sentences[i].text);
    assert(sentence_words(t.sentences) =~= list);
    reveal_strlit(" ");
    assert(" "@ =~= seq![' ']);
    lemma_spaced_stays(joined(list, seq![' ']));
}

/// A group lasts as long as it has samples, sixteen to the millisecond, whole
/// milliseconds only.
pub proof fn law_length_of_a_group_is_that_of_its_samples(count: nat)
    requires
        count <= 1_000_000_000_000,
    ensures
        millis_of(count) * 16 <= count,
        count < millis_of(count) * 16 + 16,
{
}

/// A clip is accepted just where it is one, from a client and a sensor that are
/// named, for hearing, between a tenth of a second and a second long, of one channel
/// of samples at some rate, and not empty.
pub proof fn law_whole_clip_is_accepted(m: AudioClipMessageView)
    ensures
        clip_fault(m) is None <==> {
            &&& m.kind == "audio.clip"@
            &&& !is_blank(m.client_id)
            &&& !is_blank(m.sensor_id)
            &&& m.faculty == "asr"@
            &&& 100 <= m.duration_ms <= 1000
            &&& m.sample_rate_hz > 0
            &&& m.channels == 1
            &&& m.sample_format == "f32le"@
            &&& !is_blank(m.data)
        },
{
}

/// The sound of a clip has the moment, the sender, the number and the rate that the
/// clip was sent with.
pub proof fn law_clip_sounds_as_sent(m: AudioClipMessageView)
    ensures
        sound_of(m).client_id == m.client_id,
        sound_of(m).sensor_id == m.sensor_id,
        sound_of(m).sequence == m.sequence,
        sound_of(m).occurred_at == m.occurred_at,
        sound_of(m).sample_rate_hz == m.sample_rate_hz,
{
}

} // verus!
