//! What passes between the browser, the faculties and the logs.

use vstd::prelude::*;

use crate::ident::{copy_ids, Id};
use crate::impression::Confidence;
use crate::json::{Json, JsonView};
use crate::sensation::{Provenance, ProvenanceView};
use crate::text::{copy_optional, optional};
use crate::time::Timestamp;

verus! {

/// A copy of some bits.
pub fn copy_bits(list: &Vec<u32>) -> (r: Vec<u32>)
    ensures
        r@ == list@,
{
    let r = list.clone();
    assert(r@ =~= list@);
    r
}

/// A frame of a camera, as the browser sends it.
#[derive(Debug, PartialEq, Eq)]
pub struct FrameMessage {
    /// What it is.
    pub kind: String,
    /// Who sent it.
    pub client_id: String,
    /// The sensor.
    pub sensor_id: String,
    /// The faculty that it is for.
    pub faculty: String,
    /// The sender's count.
    pub sequence: u64,
    /// When it happened.
    pub occurred_at: Timestamp,
    /// The media type.
    pub mime: String,
    /// The width in pixels.
    pub width: u32,
    /// The height in pixels.
    pub height: u32,
    /// The picture, as a data URL.
    pub data: String,
}

/// What a [`FrameMessage`] is.
pub ghost struct FrameMessageView {
    pub kind: Seq<char>,
    pub client_id: Seq<char>,
    pub sensor_id: Seq<char>,
    pub faculty: Seq<char>,
    pub sequence: u64,
    pub occurred_at: Timestamp,
    pub mime: Seq<char>,
    pub width: u32,
    pub height: u32,
    pub data: Seq<char>,
}

impl View for FrameMessage {
    type V = FrameMessageView;

    open spec fn view(&self) -> FrameMessageView {
        FrameMessageView {
            kind: self.kind@,
            client_id: self.client_id@,
            sensor_id: self.sensor_id@,
            faculty: self.faculty@,
            sequence: self.sequence,
            occurred_at: self.occurred_at,
            mime: self.mime@,
            width: self.width,
            height: self.height,
            data: self.data@,
        }
    }
}

impl Clone for FrameMessage {
    fn clone(&self) -> (r: FrameMessage)
        ensures
            r@ == self@,
    {
        FrameMessage {
            kind: self.kind.clone(),
            client_id: self.client_id.clone(),
            sensor_id: self.sensor_id.clone(),
            faculty: self.faculty.clone(),
            sequence: self.sequence,
            occurred_at: self.occurred_at,
            mime: self.mime.clone(),
            width: self.width,
            height: self.height,
            data: self.data.clone(),
        }
    }
}

/// A position, as the browser sends it. The numbers are as they stand in JSON.
#[derive(Debug, PartialEq, Eq)]
pub struct LocationMessage {
    /// What it is.
    pub kind: String,
    /// Who sent it.
    pub client_id: String,
    /// The sensor.
    pub sensor_id: String,
    /// The faculty that it is for.
    pub faculty: String,
    /// The sender's count.
    pub sequence: u64,
    /// When it happened.
    pub occurred_at: Timestamp,
    /// Degrees north.
    pub latitude: String,
    /// Degrees east.
    pub longitude: String,
    /// How far off it may be.
    pub accuracy_meters: Option<String>,
    /// How high.
    pub altitude_meters: Option<String>,
    /// How far off the height may be.
    pub altitude_accuracy_meters: Option<String>,
    /// Where it moves.
    pub heading_degrees: Option<String>,
    /// How fast.
    pub speed_meters_per_second: Option<String>,
}

/// What a [`LocationMessage`] is.
pub ghost struct LocationMessageView {
    pub kind: Seq<char>,
    pub client_id: Seq<char>,
    pub sensor_id: Seq<char>,
    pub faculty: Seq<char>,
    pub sequence: u64,
    pub occurred_at: Timestamp,
    pub latitude: Seq<char>,
    pub longitude: Seq<char>,
    pub accuracy_meters: Option<Seq<char>>,
    pub altitude_meters: Option<Seq<char>>,
    pub altitude_accuracy_meters: Option<Seq<char>>,
    pub heading_degrees: Option<Seq<char>>,
    pub speed_meters_per_second: Option<Seq<char>>,
}

impl View for LocationMessage {
    type V = LocationMessageView;

    open spec fn view(&self) -> LocationMessageView {
        LocationMessageView {
            kind: self.kind@,
            client_id: self.client_id@,
            sensor_id: self.sensor_id@,
            faculty: self.faculty@,
            sequence: self.sequence,
            occurred_at: self.occurred_at,
            latitude: self.latitude@,
            longitude: self.longitude@,
            accuracy_meters: optional(self.accuracy_meters),
            altitude_meters: optional(self.altitude_meters),
            altitude_accuracy_meters: optional(self.altitude_accuracy_meters),
            heading_degrees: optional(self.heading_degrees),
            speed_meters_per_second: optional(self.speed_meters_per_second),
        }
    }
}

impl Clone for LocationMessage {
    fn clone(&self) -> (r: LocationMessage)
        ensures
            r@ == self@,
    {
        LocationMessage {
            kind: self.kind.clone(),
            client_id: self.client_id.clone(),
            sensor_id: self.sensor_id.clone(),
            faculty: self.faculty.clone(),
            sequence: self.sequence,
            occurred_at: self.occurred_at,
            latitude: self.latitude.clone(),
            longitude: self.longitude.clone(),
            accuracy_meters: copy_optional(&self.accuracy_meters),
            altitude_meters: copy_optional(&self.altitude_meters),
            altitude_accuracy_meters: copy_optional(&self.altitude_accuracy_meters),
            heading_degrees: copy_optional(&self.heading_degrees),
            speed_meters_per_second: copy_optional(&self.speed_meters_per_second),
        }
    }
}

/// A clip of sound, as the browser sends it.
#[derive(Debug, PartialEq, Eq)]
pub struct AudioClipMessage {
    /// What it is.
    pub kind: String,
    /// Who sent it.
    pub client_id: String,
    /// The sensor.
    pub sensor_id: String,
    /// The faculty that it is for.
    pub faculty: String,
    /// The sender's count.
    pub sequence: u64,
    /// When it happened.
    pub occurred_at: Timestamp,
    /// How long it is.
    pub duration_ms: u64,
    /// The samples per second.
    pub sample_rate_hz: u32,
    /// The channels.
    pub channels: u16,
    /// How samples are written.
    pub sample_format: String,
    /// The samples, in Base64.
    pub data: String,
}

/// What an [`AudioClipMessage`] is.
pub ghost struct AudioClipMessageView {
    pub kind: Seq<char>,
    pub client_id: Seq<char>,
    pub sensor_id: Seq<char>,
    pub faculty: Seq<char>,
    pub sequence: u64,
    pub occurred_at: Timestamp,
    pub duration_ms: u64,
    pub sample_rate_hz: u32,
    pub channels: u16,
    pub sample_format: Seq<char>,
    pub data: Seq<char>,
}

impl View for AudioClipMessage {
    type V = AudioClipMessageView;

    open spec fn view(&self) -> AudioClipMessageView {
        AudioClipMessageView {
            kind: self.kind@,
            client_id: self.client_id@,
            sensor_id: self.sensor_id@,
            faculty: self.faculty@,
            sequence: self.sequence,
            occurred_at: self.occurred_at,
            duration_ms: self.duration_ms,
            sample_rate_hz: self.sample_rate_hz,
            channels: self.channels,
            sample_format: self.sample_format@,
            data: self.data@,
        }
    }
}

impl Clone for AudioClipMessage {
    fn clone(&self) -> (r: AudioClipMessage)
        ensures
            r@ == self@,
    {
        AudioClipMessage {
            kind: self.kind.clone(),
            client_id: self.client_id.clone(),
            sensor_id: self.sensor_id.clone(),
            faculty: self.faculty.clone(),
            sequence: self.sequence,
            occurred_at: self.occurred_at,
            duration_ms: self.duration_ms,
            sample_rate_hz: self.sample_rate_hz,
            channels: self.channels,
            sample_format: self.sample_format.clone(),
            data: self.data.clone(),
        }
    }
}

/// What becomes of words that are spoken aloud.
#[derive(Debug, PartialEq, Eq)]
pub enum VoiceMouthEvent {
    /// They are being spoken.
    VoiceSpeechStarted {
        /// What is said.
        utterance_id: Id,
        /// The generation that it came of.
        generation_id: Id,
        /// When it was observed.
        observed_at: Timestamp,
        /// The words.
        text: String,
    },
    /// They were spoken.
    VoiceSpeechFinished {
        /// What is said.
        utterance_id: Id,
        /// The generation that it came of.
        generation_id: Id,
        /// When it was observed.
        observed_at: Timestamp,
        /// The words.
        text: String,
        /// How long it took.
        duration_ms: Option<u64>,
    },
    /// They were not spoken to the end.
    VoiceSpeechInterrupted {
        /// What is said.
        utterance_id: Id,
        /// The generation that it came of.
        generation_id: Id,
        /// When it was observed.
        observed_at: Timestamp,
        /// The words.
        text: String,
        /// Why.
        reason: String,
    },
}

/// What a [`VoiceMouthEvent`] is.
pub ghost enum MouthEventView {
    VoiceSpeechStarted {
        utterance_id: Id,
        generation_id: Id,
        observed_at: Timestamp,
        text: Seq<char>,
    },
    VoiceSpeechFinished {
        utterance_id: Id,
        generation_id: Id,
        observed_at: Timestamp,
        text: Seq<char>,
        duration_ms: Option<u64>,
    },
    VoiceSpeechInterrupted {
        utterance_id: Id,
        generation_id: Id,
        observed_at: Timestamp,
        text: Seq<char>,
        reason: Seq<char>,
    },
}

impl View for VoiceMouthEvent {
    type V = MouthEventView;

    open spec fn view(&self) -> MouthEventView {
        match self {
            VoiceMouthEvent::VoiceSpeechStarted { utterance_id, generation_id, observed_at, text } => MouthEventView::VoiceSpeechStarted {
                utterance_id: *utterance_id,
                generation_id: *generation_id,
                observed_at: *observed_at,
                text: text@,
            },
            VoiceMouthEvent::VoiceSpeechFinished { utterance_id, generation_id, observed_at, text, duration_ms } => MouthEventView::VoiceSpeechFinished {
                utterance_id: *utterance_id,
                generation_id: *generation_id,
                observed_at: *observed_at,
                text: text@,
                duration_ms: *duration_ms,
            },
            VoiceMouthEvent::VoiceSpeechInterrupted { utterance_id, generation_id, observed_at, text, reason } => MouthEventView::VoiceSpeechInterrupted {
                utterance_id: *utterance_id,
                generation_id: *generation_id,
                observed_at: *observed_at,
                text: text@,
                reason: reason@,
            },
        }
    }
}

impl Clone for VoiceMouthEvent {
    fn clone(&self) -> (r: VoiceMouthEvent)
        ensures
            r@ == self@,
    {
        match self {
            VoiceMouthEvent::VoiceSpeechStarted { utterance_id, generation_id, observed_at, text } => VoiceMouthEvent::VoiceSpeechStarted {
                utterance_id: *utterance_id,
                generation_id: *generation_id,
                observed_at: *observed_at,
                text: text.clone(),
            },
            VoiceMouthEvent::VoiceSpeechFinished { utterance_id, generation_id, observed_at, text, duration_ms } => VoiceMouthEvent::VoiceSpeechFinished {
                utterance_id: *utterance_id,
                generation_id: *generation_id,
                observed_at: *observed_at,
                text: text.clone(),
                duration_ms: *duration_ms,
            },
            VoiceMouthEvent::VoiceSpeechInterrupted { utterance_id, generation_id, observed_at, text, reason } => VoiceMouthEvent::VoiceSpeechInterrupted {
                utterance_id: *utterance_id,
                generation_id: *generation_id,
                observed_at: *observed_at,
                text: text.clone(),
                reason: reason.clone(),
            },
        }
    }
}

/// Where a record comes from.
#[derive(Debug, PartialEq, Eq)]
pub struct SensationSource {
    /// Who sent it.
    pub client_id: String,
    /// The sensor.
    pub sensor_id: String,
    /// The faculty.
    pub faculty: String,
}

/// What a [`SensationSource`] is.
pub ghost struct SourceView {
    pub client_id: Seq<char>,
    pub sensor_id: Seq<char>,
    pub faculty: Seq<char>,
}

impl View for SensationSource {
    type V = SourceView;

    open spec fn view(&self) -> SourceView {
        SourceView {
            client_id: self.client_id@,
            sensor_id: self.sensor_id@,
            faculty: self.faculty@,
        }
    }
}

impl Clone for SensationSource {
    fn clone(&self) -> (r: SensationSource)
        ensures
            r@ == self@,
    {
        SensationSource {
            client_id: self.client_id.clone(),
            sensor_id: self.sensor_id.clone(),
            faculty: self.faculty.clone(),
        }
    }
}

/// What kind of data a record is about.
#[derive(Debug, PartialEq, Eq)]
pub struct MediaRecord {
    /// The media type.
    pub mime: String,
    /// The width in pixels.
    pub width: u32,
    /// The height in pixels.
    pub height: u32,
    /// How it is encoded.
    pub encoding: String,
}

/// What a [`MediaRecord`] is.
pub ghost struct MediaView {
    pub mime: Seq<char>,
    pub width: u32,
    pub height: u32,
    pub encoding: Seq<char>,
}

impl View for MediaRecord {
    type V = MediaView;

    open spec fn view(&self) -> MediaView {
        MediaView {
            mime: self.mime@,
            width: self.width,
            height: self.height,
            encoding: self.encoding@,
        }
    }
}

impl Clone for MediaRecord {
    fn clone(&self) -> (r: MediaRecord)
        ensures
            r@ == self@,
    {
        MediaRecord {
            mime: self.mime.clone(),
            width: self.width,
            height: self.height,
            encoding: self.encoding.clone(),
        }
    }
}

/// A sensation in the log.
#[derive(Debug, PartialEq, Eq)]
pub struct SensationRecord {
    /// Its identifier.
    pub id: Id,
    /// What it is.
    pub kind: String,
    /// When it happened.
    pub occurred_at: Timestamp,
    /// When it was observed.
    pub observed_at: Timestamp,
    /// Where it comes from.
    pub source: SensationSource,
    /// The sender's count.
    pub sequence: u64,
    /// What kind of data it is about.
    pub media: MediaRecord,
    /// Why it entered cognition.
    pub provenance: Provenance,
    /// The SHA-256 digest of the data.
    pub data_sha256: String,
    /// The bytes of the data.
    pub data_bytes: usize,
    /// What else is known of it.
    pub detail: Json,
}

/// What a [`SensationRecord`] is.
pub ghost struct SensationRecordView {
    pub id: Id,
    pub kind: Seq<char>,
    pub occurred_at: Timestamp,
    pub observed_at: Timestamp,
    pub source: SourceView,
    pub sequence: u64,
    pub media: MediaView,
    pub provenance: ProvenanceView,
    pub data_sha256: Seq<char>,
    pub data_bytes: usize,
    pub detail: JsonView,
}

impl View for SensationRecord {
    type V = SensationRecordView;

    open spec fn view(&self) -> SensationRecordView {
        SensationRecordView {
            id: self.id,
            kind: self.kind@,
            occurred_at: self.occurred_at,
            observed_at: self.observed_at,
            source: self.source@,
            sequence: self.sequence,
            media: self.media@,
            provenance: self.provenance@,
            data_sha256: self.data_sha256@,
            data_bytes: self.data_bytes,
            detail: self.detail@,
        }
    }
}

impl Clone for SensationRecord {
    fn clone(&self) -> (r: SensationRecord)
        ensures
            r@ == self@,
    {
        SensationRecord {
            id: self.id,
            kind: self.kind.clone(),
            occurred_at: self.occurred_at,
            observed_at: self.observed_at,
            source: self.source.clone(),
            sequence: self.sequence,
            media: self.media.clone(),
            provenance: self.provenance.clone(),
            data_sha256: self.data_sha256.clone(),
            data_bytes: self.data_bytes,
            detail: self.detail.clone(),
        }
    }
}

/// A frame with its picture.
#[derive(Debug, PartialEq, Eq)]
pub struct RawVisionFrame {
    /// The sensation.
    pub sensation: SensationRecord,
    /// The picture, as a data URL.
    pub data: String,
}

/// What a [`RawVisionFrame`] is.
pub ghost struct RawVisionFrameView {
    pub sensation: SensationRecordView,
    pub data: Seq<char>,
}

impl View for RawVisionFrame {
    type V = RawVisionFrameView;

    open spec fn view(&self) -> RawVisionFrameView {
        RawVisionFrameView {
            sensation: self.sensation@,
            data: self.data@,
        }
    }
}

impl Clone for RawVisionFrame {
    fn clone(&self) -> (r: RawVisionFrame)
        ensures
            r@ == self@,
    {
        RawVisionFrame {
            sensation: self.sensation.clone(),
            data: self.data.clone(),
        }
    }
}

/// A face that was cut out of a frame.
#[derive(Debug, PartialEq, Eq)]
pub struct RawFaceCrop {
    /// The sensation.
    pub sensation: SensationRecord,
    /// The frame.
    pub source_frame_id: Id,
    /// Its place among the faces of the frame.
    pub face_index: usize,
    /// The picture, as a data URL.
    pub data: String,
    /// Its embedding, as the bits of single-precision numbers.
    pub embedding: Vec<u32>,
}

/// What a [`RawFaceCrop`] is.
pub ghost struct RawFaceCropView {
    pub sensation: SensationRecordView,
    pub source_frame_id: Id,
    pub face_index: usize,
    pub data: Seq<char>,
    pub embedding: Seq<u32>,
}

impl View for RawFaceCrop {
    type V = RawFaceCropView;

    open spec fn view(&self) -> RawFaceCropView {
        RawFaceCropView {
            sensation: self.sensation@,
            source_frame_id: self.source_frame_id,
            face_index: self.face_index,
            data: self.data@,
            embedding: self.embedding@,
        }
    }
}

impl Clone for RawFaceCrop {
    fn clone(&self) -> (r: RawFaceCrop)
        ensures
            r@ == self@,
    {
        RawFaceCrop {
            sensation: self.sensation.clone(),
            source_frame_id: self.source_frame_id,
            face_index: self.face_index,
            data: self.data.clone(),
            embedding: copy_bits(&self.embedding),
        }
    }
}

/// A sentence that was heard, with its sound.
#[derive(Debug, PartialEq, Eq)]
pub struct AudioSentenceClipRecord {
    /// The sensation.
    pub sensation: SensationRecord,
    /// The words.
    pub text: String,
    /// The samples per second.
    pub sample_rate_hz: u32,
    /// The channels.
    pub channels: u16,
    /// How samples are written.
    pub sample_format: String,
    /// Where it starts in the recording.
    pub start_ms: u64,
    /// Where it ends in the recording.
    pub end_ms: u64,
    /// The samples, in Base64.
    pub data: String,
}

/// What an [`AudioSentenceClipRecord`] is.
pub ghost struct ClipView {
    pub sensation: SensationRecordView,
    pub text: Seq<char>,
    pub sample_rate_hz: u32,
    pub channels: u16,
    pub sample_format: Seq<char>,
    pub start_ms: u64,
    pub end_ms: u64,
    pub data: Seq<char>,
}

impl View for AudioSentenceClipRecord {
    type V = ClipView;

    open spec fn view(&self) -> ClipView {
        ClipView {
            sensation: self.sensation@,
            text: self.text@,
            sample_rate_hz: self.sample_rate_hz,
            channels: self.channels,
            sample_format: self.sample_format@,
            start_ms: self.start_ms,
            end_ms: self.end_ms,
            data: self.data@,
        }
    }
}

impl Clone for AudioSentenceClipRecord {
    fn clone(&self) -> (r: AudioSentenceClipRecord)
        ensures
            r@ == self@,
    {
        AudioSentenceClipRecord {
            sensation: self.sensation.clone(),
            text: self.text.clone(),
            sample_rate_hz: self.sample_rate_hz,
            channels: self.channels,
            sample_format: self.sample_format.clone(),
            start_ms: self.start_ms,
            end_ms: self.end_ms,
            data: self.data.clone(),
        }
    }
}

/// An impression in the log.
#[derive(Debug, PartialEq, Eq)]
pub struct VisionImpressionRecord {
    /// Its identifier.
    pub id: Id,
    /// The sensation that it is about.
    pub sensation_id: Id,
    /// When it happened.
    pub occurred_at: Timestamp,
    /// When it was observed.
    pub observed_at: Timestamp,
    /// Where it comes from.
    pub source: SensationSource,
    /// The sender's count.
    pub sequence: u64,
    /// The observation.
    pub text: String,
    /// Its classification.
    pub kind: String,
    /// The faculty that noticed it.
    pub faculty: String,
    /// How sure it is.
    pub confidence: Confidence,
    /// What else is known of it.
    pub payload: Json,
}

/// What a [`VisionImpressionRecord`] is.
pub ghost struct ImpressionRecordView {
    pub id: Id,
    pub sensation_id: Id,
    pub occurred_at: Timestamp,
    pub observed_at: Timestamp,
    pub source: SourceView,
    pub sequence: u64,
    pub text: Seq<char>,
    pub kind: Seq<char>,
    pub faculty: Seq<char>,
    pub confidence: Seq<char>,
    pub payload: JsonView,
}

impl View for VisionImpressionRecord {
    type V = ImpressionRecordView;

    open spec fn view(&self) -> ImpressionRecordView {
        ImpressionRecordView {
            id: self.id,
            sensation_id: self.sensation_id,
            occurred_at: self.occurred_at,
            observed_at: self.observed_at,
            source: self.source@,
            sequence: self.sequence,
            text: self.text@,
            kind: self.kind@,
            faculty: self.faculty@,
            confidence: self.confidence@,
            payload: self.payload@,
        }
    }
}

impl Clone for VisionImpressionRecord {
    fn clone(&self) -> (r: VisionImpressionRecord)
        ensures
            r@ == self@,
    {
        VisionImpressionRecord {
            id: self.id,
            sensation_id: self.sensation_id,
            occurred_at: self.occurred_at,
            observed_at: self.observed_at,
            source: self.source.clone(),
            sequence: self.sequence,
            text: self.text.clone(),
            kind: self.kind.clone(),
            faculty: self.faculty.clone(),
            confidence: self.confidence.clone(),
            payload: self.payload.clone(),
        }
    }
}

/// An experience in the log.
#[derive(Debug, PartialEq, Eq)]
pub struct ExperienceRecord {
    /// Its identifier.
    pub id: Id,
    /// When it was understood.
    pub observed_at: Timestamp,
    /// When it happened.
    pub occurred_at: Timestamp,
    /// The meaning.
    pub what: String,
    /// The impressions that it is about.
    pub impression_ids: Vec<Id>,
    /// How sure it is.
    pub confidence: Confidence,
}

/// What an [`ExperienceRecord`] is.
pub ghost struct ExperienceRecordView {
    pub id: Id,
    pub observed_at: Timestamp,
    pub occurred_at: Timestamp,
    pub what: Seq<char>,
    pub impression_ids: Seq<Id>,
    pub confidence: Seq<char>,
}

impl View for ExperienceRecord {
    type V = ExperienceRecordView;

    open spec fn view(&self) -> ExperienceRecordView {
        ExperienceRecordView {
            id: self.id,
            observed_at: self.observed_at,
            occurred_at: self.occurred_at,
            what: self.what@,
            impression_ids: self.impression_ids@,
            confidence: self.confidence@,
        }
    }
}

impl Clone for ExperienceRecord {
    fn clone(&self) -> (r: ExperienceRecord)
        ensures
            r@ == self@,
    {
        ExperienceRecord {
            id: self.id,
            observed_at: self.observed_at,
            occurred_at: self.occurred_at,
            what: self.what.clone(),
            impression_ids: copy_ids(&self.impression_ids),
            confidence: self.confidence.clone(),
        }
    }
}

/// Something thought or said.
#[derive(Debug, PartialEq, Eq)]
pub struct VoiceObservation {
    /// Its identifier.
    pub id: Id,
    /// When it was thought.
    pub observed_at: Timestamp,
    /// The words.
    pub text: String,
    /// The face that goes with it.
    pub emoji: Option<String>,
    /// The experiences that it is about.
    pub experience_ids: Vec<Id>,
    /// The generation that it broke off.
    pub interrupted_generation_id: Option<Id>,
    /// How sure it is.
    pub confidence: Confidence,
}

/// What a [`VoiceObservation`] is.
pub ghost struct ObservationView {
    pub id: Id,
    pub observed_at: Timestamp,
    pub text: Seq<char>,
    pub emoji: Option<Seq<char>>,
    pub experience_ids: Seq<Id>,
    pub interrupted_generation_id: Option<Id>,
    pub confidence: Seq<char>,
}

impl View for VoiceObservation {
    type V = ObservationView;

    open spec fn view(&self) -> ObservationView {
        ObservationView {
            id: self.id,
            observed_at: self.observed_at,
            text: self.text@,
            emoji: optional(self.emoji),
            experience_ids: self.experience_ids@,
            interrupted_generation_id: self.interrupted_generation_id,
            confidence: self.confidence@,
        }
    }
}

impl Clone for VoiceObservation {
    fn clone(&self) -> (r: VoiceObservation)
        ensures
            r@ == self@,
    {
        VoiceObservation {
            id: self.id,
            observed_at: self.observed_at,
            text: self.text.clone(),
            emoji: copy_optional(&self.emoji),
            experience_ids: copy_ids(&self.experience_ids),
            interrupted_generation_id: self.interrupted_generation_id,
            confidence: self.confidence.clone(),
        }
    }
}

/// The answer to a message that was accepted.
#[derive(Debug, PartialEq, Eq)]
pub struct AckMessage {
    /// The faculty.
    pub faculty: String,
    /// The sender's count.
    pub sequence: u64,
    /// When it was observed.
    pub observed_at: Timestamp,
}

/// What an [`AckMessage`] is.
pub ghost struct AckView {
    pub faculty: Seq<char>,
    pub sequence: u64,
    pub observed_at: Timestamp,
}

impl View for AckMessage {
    type V = AckView;

    open spec fn view(&self) -> AckView {
        AckView {
            faculty: self.faculty@,
            sequence: self.sequence,
            observed_at: self.observed_at,
        }
    }
}

impl Clone for AckMessage {
    fn clone(&self) -> (r: AckMessage)
        ensures
            r@ == self@,
    {
        AckMessage {
            faculty: self.faculty.clone(),
            sequence: self.sequence,
            observed_at: self.observed_at,
        }
    }
}

/// The answer to a message that was refused.
#[derive(Debug, PartialEq, Eq)]
pub struct ErrorMessage {
    /// The faculty.
    pub faculty: String,
    /// The sender's count, where it can be read.
    pub sequence: Option<u64>,
    /// Why.
    pub error: String,
}

/// What an [`ErrorMessage`] is.
pub ghost struct ErrorView {
    pub faculty: Seq<char>,
    pub sequence: Option<u64>,
    pub error: Seq<char>,
}

impl View for ErrorMessage {
    type V = ErrorView;

    open spec fn view(&self) -> ErrorView {
        ErrorView {
            faculty: self.faculty@,
            sequence: self.sequence,
            error: self.error@,
        }
    }
}

impl Clone for ErrorMessage {
    fn clone(&self) -> (r: ErrorMessage)
        ensures
            r@ == self@,
    {
        ErrorMessage {
            faculty: self.faculty.clone(),
            sequence: self.sequence,
            error: self.error.clone(),
        }
    }
}

/// What is told to all who listen.
#[derive(Debug, PartialEq, Eq)]
#[allow(inconsistent_fields)]
pub enum RealTimeExperienceEvent {
    /// A model is asked.
    Prompt {
        /// The generation.
        generation_id: Id,
        /// When it was observed.
        observed_at: Timestamp,
        /// The question.
        prompt: String,
    },
    /// It begins to answer.
    ResponseStart {
        /// The generation.
        generation_id: Id,
    },
    /// It answers.
    ResponseToken {
        /// The generation.
        generation_id: Id,
        /// The words.
        text: String,
    },
    /// It has answered.
    ResponseDone {
        /// The generation.
        generation_id: Id,
    },
    /// Something was understood.
    Experience {
        /// The generation.
        generation_id: Id,
        /// What.
        experience: ExperienceRecord,
    },
    /// Something was thought or said.
    VoiceObservation {
        /// The generation.
        generation_id: Id,
        /// What.
        observation: VoiceObservation,
    },
    /// Words are to be spoken.
    VoiceSpeechDraft {
        /// What is said.
        utterance_id: Id,
        /// The generation that it came of.
        generation_id: Id,
        /// When it was observed.
        observed_at: Timestamp,
        /// The words.
        text: String,
        /// The face that goes with them.
        emoji: Option<String>,
        /// What they end.
        boundary: Option<String>,
        /// How they are said.
        tone: Option<String>,
        /// How fast they are said.
        pace: Option<String>,
    },
    /// Words are being turned into sound.
    VoiceSpeechSynthesisStarted {
        /// What is said.
        utterance_id: Id,
        /// The generation that it came of.
        generation_id: Id,
        /// When it was observed.
        observed_at: Timestamp,
        /// The words.
        text: String,
    },
    /// Words were turned into sound.
    VoiceSpeechAudio {
        /// What is said.
        utterance_id: Id,
        /// The generation that it came of.
        generation_id: Id,
        /// When it was observed.
        observed_at: Timestamp,
        /// The words.
        text: String,
        /// The media type.
        mime: String,
        /// Where the sound lies.
        audio_url: Option<String>,
        /// The samples per second.
        sample_rate_hz: u32,
        /// The samples.
        samples: usize,
        /// How long it is.
        duration_ms: u64,
        /// The sound itself.
        data: Option<String>,
    },
    /// Words are being spoken.
    VoiceSpeechStarted {
        /// What is said.
        utterance_id: Id,
        /// The generation that it came of.
        generation_id: Id,
        /// When it was observed.
        observed_at: Timestamp,
        /// The words.
        text: String,
    },
    /// Words were spoken.
    VoiceSpeechFinished {
        /// What is said.
        utterance_id: Id,
        /// The generation that it came of.
        generation_id: Id,
        /// When it was observed.
        observed_at: Timestamp,
        /// The words.
        text: String,
        /// How long it took.
        duration_ms: Option<u64>,
    },
    /// Words were not spoken to the end.
    VoiceSpeechInterrupted {
        /// What is said.
        utterance_id: Id,
        /// The generation that it came of.
        generation_id: Id,
        /// When it was observed.
        observed_at: Timestamp,
        /// The words.
        text: String,
        /// Why.
        reason: String,
    },
    /// The face changes.
    FaceEmoji {
        /// The generation.
        generation_id: Id,
        /// When it was observed.
        observed_at: Timestamp,
        /// The face.
        emoji: String,
    },
    /// The voice begins to answer.
    VoiceResponseStart {
        /// The generation.
        generation_id: Id,
    },
    /// The voice answers.
    VoiceResponseToken {
        /// The generation.
        generation_id: Id,
        /// The words.
        text: String,
    },
    /// The voice has answered.
    VoiceResponseDone {
        /// The generation.
        generation_id: Id,
    },
    /// Words were heard.
    AsrTranscript {
        /// When it was observed.
        observed_at: Timestamp,
        /// The words.
        text: String,
        /// The first clip.
        sequence_start: u64,
        /// The last clip.
        sequence_end: u64,
        /// Whether they will not change any more.
        is_final: bool,
        /// Which sentence it is.
        sentence_index: Option<usize>,
        /// Of how many.
        sentence_count: Option<usize>,
    },
    /// A job waits for the model.
    LlmJobQueued {
        /// The job.
        job_id: Id,
        /// What it is for.
        job_kind: String,
        /// When it was observed.
        observed_at: Timestamp,
        /// Its rank.
        priority: u8,
        /// The messages.
        message_count: usize,
        /// The images.
        image_count: usize,
        /// The characters asked.
        prompt_chars: usize,
        /// The most tokens.
        max_tokens: Option<usize>,
        /// The stop markers.
        stop_count: usize,
        /// How the question begins.
        prompt_preview: String,
    },
    /// A job has the model.
    LlmJobStarted {
        /// The job.
        job_id: Id,
        /// What it is for.
        job_kind: String,
        /// When it was observed.
        observed_at: Timestamp,
        /// How long it waited.
        queue_wait_ms: u64,
    },
    /// A job goes on.
    LlmJobProgress {
        /// The job.
        job_id: Id,
        /// What it is for.
        job_kind: String,
        /// When it was observed.
        observed_at: Timestamp,
        /// The characters of the answer.
        response_chars: usize,
        /// The answer.
        response: String,
        /// The events of text.
        token_events: usize,
        /// How long it took.
        elapsed_ms: u64,
    },
    /// A job is complete.
    LlmJobCompleted {
        /// The job.
        job_id: Id,
        /// What it is for.
        job_kind: String,
        /// When it was observed.
        observed_at: Timestamp,
        /// The characters of the answer.
        response_chars: usize,
        /// The answer.
        response: String,
        /// The events of text.
        token_events: usize,
        /// How long it took.
        elapsed_ms: u64,
    },
    /// A job failed.
    LlmJobFailed {
        /// The job.
        job_id: Id,
        /// What it is for.
        job_kind: String,
        /// When it was observed.
        observed_at: Timestamp,
        /// Why.
        error: String,
    },
}

/// What a [`RealTimeExperienceEvent`] is.
#[allow(inconsistent_fields)]
pub ghost enum BroadcastView {
    Prompt {
        generation_id: Id,
        observed_at: Timestamp,
        prompt: Seq<char>,
    },
    ResponseStart {
        generation_id: Id,
    },
    ResponseToken {
        generation_id: Id,
        text: Seq<char>,
    },
    ResponseDone {
        generation_id: Id,
    },
    Experience {
        generation_id: Id,
        experience: ExperienceRecordView,
    },
    VoiceObservation {
        generation_id: Id,
        observation: ObservationView,
    },
    VoiceSpeechDraft {
        utterance_id: Id,
        generation_id: Id,
        observed_at: Timestamp,
        text: Seq<char>,
        emoji: Option<Seq<char>>,
        boundary: Option<Seq<char>>,
        tone: Option<Seq<char>>,
        pace: Option<Seq<char>>,
    },
    VoiceSpeechSynthesisStarted {
        utterance_id: Id,
        generation_id: Id,
        observed_at: Timestamp,
        text: Seq<char>,
    },
    VoiceSpeechAudio {
        utterance_id: Id,
        generation_id: Id,
        observed_at: Timestamp,
        text: Seq<char>,
        mime: Seq<char>,
        audio_url: Option<Seq<char>>,
        sample_rate_hz: u32,
        samples: usize,
        duration_ms: u64,
        data: Option<Seq<char>>,
    },
    VoiceSpeechStarted {
        utterance_id: Id,
        generation_id: Id,
        observed_at: Timestamp,
        text: Seq<char>,
    },
    VoiceSpeechFinished {
        utterance_id: Id,
        generation_id: Id,
        observed_at: Timestamp,
        text: Seq<char>,
        duration_ms: Option<u64>,
    },
    VoiceSpeechInterrupted {
        utterance_id: Id,
        generation_id: Id,
        observed_at: Timestamp,
        text: Seq<char>,
        reason: Seq<char>,
    },
    FaceEmoji {
        generation_id: Id,
        observed_at: Timestamp,
        emoji: Seq<char>,
    },
    VoiceResponseStart {
        generation_id: Id,
    },
    VoiceResponseToken {
        generation_id: Id,
        text: Seq<char>,
    },
    VoiceResponseDone {
        generation_id: Id,
    },
    AsrTranscript {
        observed_at: Timestamp,
        text: Seq<char>,
        sequence_start: u64,
        sequence_end: u64,
        is_final: bool,
        sentence_index: Option<usize>,
        sentence_count: Option<usize>,
    },
    LlmJobQueued {
        job_id: Id,
        job_kind: Seq<char>,
        observed_at: Timestamp,
        priority: u8,
        message_count: usize,
        image_count: usize,
        prompt_chars: usize,
        max_tokens: Option<usize>,
        stop_count: usize,
        prompt_preview: Seq<char>,
    },
    LlmJobStarted {
        job_id: Id,
        job_kind: Seq<char>,
        observed_at: Timestamp,
        queue_wait_ms: u64,
    },
    LlmJobProgress {
        job_id: Id,
        job_kind: Seq<char>,
        observed_at: Timestamp,
        response_chars: usize,
        response: Seq<char>,
        token_events: usize,
        elapsed_ms: u64,
    },
    LlmJobCompleted {
        job_id: Id,
        job_kind: Seq<char>,
        observed_at: Timestamp,
        response_chars: usize,
        response: Seq<char>,
        token_events: usize,
        elapsed_ms: u64,
    },
    LlmJobFailed {
        job_id: Id,
        job_kind: Seq<char>,
        observed_at: Timestamp,
        error: Seq<char>,
    },
}

impl View for RealTimeExperienceEvent {
    type V = BroadcastView;

    open spec fn view(&self) -> BroadcastView {
        match self {
            RealTimeExperienceEvent::Prompt { generation_id, observed_at, prompt } => BroadcastView::Prompt {
                generation_id: *generation_id,
                observed_at: *observed_at,
                prompt: prompt@,
            },
            RealTimeExperienceEvent::ResponseStart { generation_id } => BroadcastView::ResponseStart {
                generation_id: *generation_id,
            },
            RealTimeExperienceEvent::ResponseToken { generation_id, text } => BroadcastView::ResponseToken {
                generation_id: *generation_id,
                text: text@,
            },
            RealTimeExperienceEvent::ResponseDone { generation_id } => BroadcastView::ResponseDone {
                generation_id: *generation_id,
            },
            RealTimeExperienceEvent::Experience { generation_id, experience } => BroadcastView::Experience {
                generation_id: *generation_id,
                experience: experience@,
            },
            RealTimeExperienceEvent::VoiceObservation { generation_id, observation } => BroadcastView::VoiceObservation {
                generation_id: *generation_id,
                observation: observation@,
            },
            RealTimeExperienceEvent::VoiceSpeechDraft { utterance_id, generation_id, observed_at, text, emoji, boundary, tone, pace } => BroadcastView::VoiceSpeechDraft {
                utterance_id: *utterance_id,
                generation_id: *generation_id,
                observed_at: *observed_at,
                text: text@,
                emoji: optional(*emoji),
                boundary: optional(*boundary),
                tone: optional(*tone),
                pace: optional(*pace),
            },
            RealTimeExperienceEvent::VoiceSpeechSynthesisStarted { utterance_id, generation_id, observed_at, text } => BroadcastView::VoiceSpeechSynthesisStarted {
                utterance_id: *utterance_id,
                generation_id: *generation_id,
                observed_at: *observed_at,
                text: text@,
            },
            RealTimeExperienceEvent::VoiceSpeechAudio { utterance_id, generation_id, observed_at, text, mime, audio_url, sample_rate_hz, samples, duration_ms, data } => BroadcastView::VoiceSpeechAudio {
                utterance_id: *utterance_id,
                generation_id: *generation_id,
                observed_at: *observed_at,
                text: text@,
                mime: mime@,
                audio_url: optional(*audio_url),
                sample_rate_hz: *sample_rate_hz,
                samples: *samples,
                duration_ms: *duration_ms,
                data: optional(*data),
            },
            RealTimeExperienceEvent::VoiceSpeechStarted { utterance_id, generation_id, observed_at, text } => BroadcastView::VoiceSpeechStarted {
                utterance_id: *utterance_id,
                generation_id: *generation_id,
                observed_at: *observed_at,
                text: text@,
            },
            RealTimeExperienceEvent::VoiceSpeechFinished { utterance_id, generation_id, observed_at, text, duration_ms } => BroadcastView::VoiceSpeechFinished {
                utterance_id: *utterance_id,
                generation_id: *generation_id,
                observed_at: *observed_at,
                text: text@,
                duration_ms: *duration_ms,
            },
            RealTimeExperienceEvent::VoiceSpeechInterrupted { utterance_id, generation_id, observed_at, text, reason } => BroadcastView::VoiceSpeechInterrupted {
                utterance_id: *utterance_id,
                generation_id: *generation_id,
                observed_at: *observed_at,
                text: text@,
                reason: reason@,
            },
            RealTimeExperienceEvent::FaceEmoji { generation_id, observed_at, emoji } => BroadcastView::FaceEmoji {
                generation_id: *generation_id,
                observed_at: *observed_at,
                emoji: emoji@,
            },
            RealTimeExperienceEvent::VoiceResponseStart { generation_id } => BroadcastView::VoiceResponseStart {
                generation_id: *generation_id,
            },
            RealTimeExperienceEvent::VoiceResponseToken { generation_id, text } => BroadcastView::VoiceResponseToken {
                generation_id: *generation_id,
                text: text@,
            },
            RealTimeExperienceEvent::VoiceResponseDone { generation_id } => BroadcastView::VoiceResponseDone {
                generation_id: *generation_id,
            },
            RealTimeExperienceEvent::AsrTranscript { observed_at, text, sequence_start, sequence_end, is_final, sentence_index, sentence_count } => BroadcastView::AsrTranscript {
                observed_at: *observed_at,
                text: text@,
                sequence_start: *sequence_start,
                sequence_end: *sequence_end,
                is_final: *is_final,
                sentence_index: *sentence_index,
                sentence_count: *sentence_count,
            },
            RealTimeExperienceEvent::LlmJobQueued { job_id, job_kind, observed_at, priority, message_count, image_count, prompt_chars, max_tokens, stop_count, prompt_preview } => BroadcastView::LlmJobQueued {
                job_id: *job_id,
                job_kind: job_kind@,
                observed_at: *observed_at,
                priority: *priority,
                message_count: *message_count,
                image_count: *image_count,
                prompt_chars: *prompt_chars,
                max_tokens: *max_tokens,
                stop_count: *stop_count,
                prompt_preview: prompt_preview@,
            },
            RealTimeExperienceEvent::LlmJobStarted { job_id, job_kind, observed_at, queue_wait_ms } => BroadcastView::LlmJobStarted {
                job_id: *job_id,
                job_kind: job_kind@,
                observed_at: *observed_at,
                queue_wait_ms: *queue_wait_ms,
            },
            RealTimeExperienceEvent::LlmJobProgress { job_id, job_kind, observed_at, response_chars, response, token_events, elapsed_ms } => BroadcastView::LlmJobProgress {
                job_id: *job_id,
                job_kind: job_kind@,
                observed_at: *observed_at,
                response_chars: *response_chars,
                response: response@,
                token_events: *token_events,
                elapsed_ms: *elapsed_ms,
            },
            RealTimeExperienceEvent::LlmJobCompleted { job_id, job_kind, observed_at, response_chars, response, token_events, elapsed_ms } => BroadcastView::LlmJobCompleted {
                job_id: *job_id,
                job_kind: job_kind@,
                observed_at: *observed_at,
                response_chars: *response_chars,
                response: response@,
                token_events: *token_events,
                elapsed_ms: *elapsed_ms,
            },
            RealTimeExperienceEvent::LlmJobFailed { job_id, job_kind, observed_at, error } => BroadcastView::LlmJobFailed {
                job_id: *job_id,
                job_kind: job_kind@,
                observed_at: *observed_at,
                error: error@,
            },
        }
    }
}

impl Clone for RealTimeExperienceEvent {
    fn clone(&self) -> (r: RealTimeExperienceEvent)
        ensures
            r@ == self@,
    {
        match self {
            RealTimeExperienceEvent::Prompt { generation_id, observed_at, prompt } => RealTimeExperienceEvent::Prompt {
                generation_id: *generation_id,
                observed_at: *observed_at,
                prompt: prompt.clone(),
            },
            RealTimeExperienceEvent::ResponseStart { generation_id } => RealTimeExperienceEvent::ResponseStart {
                generation_id: *generation_id,
            },
            RealTimeExperienceEvent::ResponseToken { generation_id, text } => RealTimeExperienceEvent::ResponseToken {
                generation_id: *generation_id,
                text: text.clone(),
            },
            RealTimeExperienceEvent::ResponseDone { generation_id } => RealTimeExperienceEvent::ResponseDone {
                generation_id: *generation_id,
            },
            RealTimeExperienceEvent::Experience { generation_id, experience } => RealTimeExperienceEvent::Experience {
                generation_id: *generation_id,
                experience: experience.clone(),
            },
            RealTimeExperienceEvent::VoiceObservation { generation_id, observation } => RealTimeExperienceEvent::VoiceObservation {
                generation_id: *generation_id,
                observation: observation.clone(),
            },
            RealTimeExperienceEvent::VoiceSpeechDraft { utterance_id, generation_id, observed_at, text, emoji, boundary, tone, pace } => RealTimeExperienceEvent::VoiceSpeechDraft {
                utterance_id: *utterance_id,
                generation_id: *generation_id,
                observed_at: *observed_at,
                text: text.clone(),
                emoji: copy_optional(emoji),
                boundary: copy_optional(boundary),
                tone: copy_optional(tone),
                pace: copy_optional(pace),
            },
            RealTimeExperienceEvent::VoiceSpeechSynthesisStarted { utterance_id, generation_id, observed_at, text } => RealTimeExperienceEvent::VoiceSpeechSynthesisStarted {
                utterance_id: *utterance_id,
                generation_id: *generation_id,
                observed_at: *observed_at,
                text: text.clone(),
            },
            RealTimeExperienceEvent::VoiceSpeechAudio { utterance_id, generation_id, observed_at, text, mime, audio_url, sample_rate_hz, samples, duration_ms, data } => RealTimeExperienceEvent::VoiceSpeechAudio {
                utterance_id: *utterance_id,
                generation_id: *generation_id,
                observed_at: *observed_at,
                text: text.clone(),
                mime: mime.clone(),
                audio_url: copy_optional(audio_url),
                sample_rate_hz: *sample_rate_hz,
                samples: *samples,
                duration_ms: *duration_ms,
                data: copy_optional(data),
            },
            RealTimeExperienceEvent::VoiceSpeechStarted { utterance_id, generation_id, observed_at, text } => RealTimeExperienceEvent::VoiceSpeechStarted {
                utterance_id: *utterance_id,
                generation_id: *generation_id,
                observed_at: *observed_at,
                text: text.clone(),
            },
            RealTimeExperienceEvent::VoiceSpeechFinished { utterance_id, generation_id, observed_at, text, duration_ms } => RealTimeExperienceEvent::VoiceSpeechFinished {
                utterance_id: *utterance_id,
                generation_id: *generation_id,
                observed_at: *observed_at,
                text: text.clone(),
                duration_ms: *duration_ms,
            },
            RealTimeExperienceEvent::VoiceSpeechInterrupted { utterance_id, generation_id, observed_at, text, reason } => RealTimeExperienceEvent::VoiceSpeechInterrupted {
                utterance_id: *utterance_id,
                generation_id: *generation_id,
                observed_at: *observed_at,
                text: text.clone(),
                reason: reason.clone(),
            },
            RealTimeExperienceEvent::FaceEmoji { generation_id, observed_at, emoji } => RealTimeExperienceEvent::FaceEmoji {
                generation_id: *generation_id,
                observed_at: *observed_at,
                emoji: emoji.clone(),
            },
            RealTimeExperienceEvent::VoiceResponseStart { generation_id } => RealTimeExperienceEvent::VoiceResponseStart {
                generation_id: *generation_id,
            },
            RealTimeExperienceEvent::VoiceResponseToken { generation_id, text } => RealTimeExperienceEvent::VoiceResponseToken {
                generation_id: *generation_id,
                text: text.clone(),
            },
            RealTimeExperienceEvent::VoiceResponseDone { generation_id } => RealTimeExperienceEvent::VoiceResponseDone {
                generation_id: *generation_id,
            },
            RealTimeExperienceEvent::AsrTranscript { observed_at, text, sequence_start, sequence_end, is_final, sentence_index, sentence_count } => RealTimeExperienceEvent::AsrTranscript {
                observed_at: *observed_at,
                text: text.clone(),
                sequence_start: *sequence_start,
                sequence_end: *sequence_end,
                is_final: *is_final,
                sentence_index: *sentence_index,
                sentence_count: *sentence_count,
            },
            RealTimeExperienceEvent::LlmJobQueued { job_id, job_kind, observed_at, priority, message_count, image_count, prompt_chars, max_tokens, stop_count, prompt_preview } => RealTimeExperienceEvent::LlmJobQueued {
                job_id: *job_id,
                job_kind: job_kind.clone(),
                observed_at: *observed_at,
                priority: *priority,
                message_count: *message_count,
                image_count: *image_count,
                prompt_chars: *prompt_chars,
                max_tokens: *max_tokens,
                stop_count: *stop_count,
                prompt_preview: prompt_preview.clone(),
            },
            RealTimeExperienceEvent::LlmJobStarted { job_id, job_kind, observed_at, queue_wait_ms } => RealTimeExperienceEvent::LlmJobStarted {
                job_id: *job_id,
                job_kind: job_kind.clone(),
                observed_at: *observed_at,
                queue_wait_ms: *queue_wait_ms,
            },
            RealTimeExperienceEvent::LlmJobProgress { job_id, job_kind, observed_at, response_chars, response, token_events, elapsed_ms } => RealTimeExperienceEvent::LlmJobProgress {
                job_id: *job_id,
                job_kind: job_kind.clone(),
                observed_at: *observed_at,
                response_chars: *response_chars,
                response: response.clone(),
                token_events: *token_events,
                elapsed_ms: *elapsed_ms,
            },
            RealTimeExperienceEvent::LlmJobCompleted { job_id, job_kind, observed_at, response_chars, response, token_events, elapsed_ms } => RealTimeExperienceEvent::LlmJobCompleted {
                job_id: *job_id,
                job_kind: job_kind.clone(),
                observed_at: *observed_at,
                response_chars: *response_chars,
                response: response.clone(),
                token_events: *token_events,
                elapsed_ms: *elapsed_ms,
            },
            RealTimeExperienceEvent::LlmJobFailed { job_id, job_kind, observed_at, error } => RealTimeExperienceEvent::LlmJobFailed {
                job_id: *job_id,
                job_kind: job_kind.clone(),
                observed_at: *observed_at,
                error: error.clone(),
            },
        }
    }
}

impl SourceView {
    /// The source of a client, a sensor and a faculty.
    pub open spec fn of(client_id: Seq<char>, sensor_id: Seq<char>, faculty: Seq<char>) -> SourceView {
        SourceView { client_id, sensor_id, faculty }
    }
}

impl SensationSource {
    /// The source of a client, a sensor and a faculty.
    pub fn of(client_id: &str, sensor_id: &str, faculty: &str) -> (r: SensationSource)
        ensures
            r@ == SourceView::of(client_id@, sensor_id@, faculty@),
    {
        SensationSource {
            client_id: client_id.to_owned(),
            sensor_id: sensor_id.to_owned(),
            faculty: faculty.to_owned(),
        }
    }
}

impl MediaView {
    /// Data that is no picture.
    pub open spec fn flat(mime: Seq<char>, encoding: Seq<char>) -> MediaView {
        MediaView { mime, width: 0, height: 0, encoding }
    }
}

impl MediaRecord {
    /// Data that is no picture.
    pub fn flat(mime: &str, encoding: &str) -> (r: MediaRecord)
        ensures
            r@ == MediaView::flat(mime@, encoding@),
    {
        MediaRecord { mime: mime.to_owned(), width: 0, height: 0, encoding: encoding.to_owned() }
    }
}

impl MouthEventView {
    /// What is told to all who listen.
    pub open spec fn told(self) -> BroadcastView {
        match self {
            MouthEventView::VoiceSpeechStarted { utterance_id, generation_id, observed_at, text } => {
                BroadcastView::VoiceSpeechStarted { utterance_id, generation_id, observed_at, text }
            },
            MouthEventView::VoiceSpeechFinished {
                utterance_id,
                generation_id,
                observed_at,
                text,
                duration_ms,
            } => BroadcastView::VoiceSpeechFinished {
                utterance_id,
                generation_id,
                observed_at,
                text,
                duration_ms,
            },
            MouthEventView::VoiceSpeechInterrupted {
                utterance_id,
                generation_id,
                observed_at,
                text,
                reason,
            } => BroadcastView::VoiceSpeechInterrupted {
                utterance_id,
                generation_id,
                observed_at,
                text,
                reason,
            },
        }
    }
}

/// What is told to all who listen of words that are spoken aloud.
pub fn accept_mouth_event(event: &VoiceMouthEvent) -> (told: RealTimeExperienceEvent)
    ensures
        told@ == event@.told(),
{
    match event {
        VoiceMouthEvent::VoiceSpeechStarted { utterance_id, generation_id, observed_at, text } => {
            RealTimeExperienceEvent::VoiceSpeechStarted {
                utterance_id: *utterance_id,
                generation_id: *generation_id,
                observed_at: *observed_at,
                text: text.clone(),
            }
        },
        VoiceMouthEvent::VoiceSpeechFinished {
            utterance_id,
            generation_id,
            observed_at,
            text,
            duration_ms,
        } => RealTimeExperienceEvent::VoiceSpeechFinished {
            utterance_id: *utterance_id,
            generation_id: *generation_id,
            observed_at: *observed_at,
            text: text.clone(),
            duration_ms: *duration_ms,
        },
        VoiceMouthEvent::VoiceSpeechInterrupted {
            utterance_id,
            generation_id,
            observed_at,
            text,
            reason,
        } => RealTimeExperienceEvent::VoiceSpeechInterrupted {
            utterance_id: *utterance_id,
            generation_id: *generation_id,
            observed_at: *observed_at,
            text: text.clone(),
            reason: reason.clone(),
        },
    }
}

} // verus!
