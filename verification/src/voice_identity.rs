//! Voices, by how they sound.

use vstd::prelude::*;

use crate::asr::{f32_samples_to_le_bytes, le_bytes, saturating_product};
use crate::ident::{hyphenated, id_text, Id};
use crate::stable_id::{draw_id, drawn_id};

verus! {

/// The numbers of a voice.
pub const VOICE_VECTOR_DIMS: usize = 16;

/// The shortest sound that has a voice, in milliseconds.
pub const MIN_VOICE_SAMPLE_MS: u64 = 50;

/// A voice.
#[derive(Debug, Clone, Copy, PartialEq, Eq, Hash, Structural)]
pub struct VoiceId(pub Id);

/// How a voice sounds.
#[derive(Debug, Clone, Copy, PartialEq, Eq, Hash, Structural)]
pub struct VoiceSignatureId(pub Id);

/// The samples that it takes to have a voice.
pub open spec fn voice_samples(sample_rate_hz: u32) -> usize {
    let n = sample_rate_hz as int * 50 / 1000;
    (if n < 1 {
        1
    } else {
        n
    }) as usize
}

/// The samples that it takes to have a voice.
pub fn min_voice_samples(sample_rate_hz: u32) -> (n: usize)
    ensures
        n == voice_samples(sample_rate_hz),
{
    let n: u64 = saturating_product(sample_rate_hz as u64, MIN_VOICE_SAMPLE_MS) / 1_000;
    if n < 1 {
        1
    } else {
        n as usize
    }
}

/// The length of some samples in milliseconds.
pub open spec fn sound_millis(count: nat, sample_rate_hz: u32) -> u64 {
    if sample_rate_hz == 0 {
        0
    } else {
        ((if count * 1000 <= u64::MAX {
            (count * 1000) as int
        } else {
            u64::MAX as int
        }) / sample_rate_hz as int) as u64
    }
}

/// The length of some samples in milliseconds.
pub fn duration_ms(sample_count: usize, sample_rate_hz: u32) -> (ms: u64)
    ensures
        ms == sound_millis(sample_count as nat, sample_rate_hz),
{
    if sample_rate_hz == 0 {
        return 0;
    }
    saturating_product(sample_count as u64, 1_000) / (sample_rate_hz as u64)
}

/// The identifier that is drawn from the numbers of a voice, given as their
/// bits.
pub fn stable_uuid_for_vector(vector: &Vec<u32>) -> (id: Id)
    ensures
        id == drawn_id(le_bytes(vector@)),
{
    let bytes = f32_samples_to_le_bytes(vector.as_slice());
    draw_id(bytes.as_slice())
}

/// What the numbers of a voice identify.
#[derive(Debug, PartialEq, Eq)]
pub struct VoiceIdentity {
    /// The voice.
    pub voice_id: VoiceId,
    /// How it sounds.
    pub signature_id: VoiceSignatureId,
    /// Its name in the graph.
    pub voice_node_id: String,
}

/// Identifies a voice by its numbers, given as their bits.
pub fn identify_voice(vector: &Vec<u32>) -> (v: VoiceIdentity)
    ensures
        v.signature_id.0 == drawn_id(le_bytes(vector@)),
        v.voice_id.0 == v.signature_id.0,
        v.voice_node_id@ == "voice:"@ + hyphenated(v.voice_id.0),
{
    let id = stable_uuid_for_vector(vector);
    let mut node = "voice:".to_owned();
    node.push_str(id_text(id).as_str());
    VoiceIdentity { voice_id: VoiceId(id), signature_id: VoiceSignatureId(id), voice_node_id: node }
}

/// It takes a twentieth of a second of sound to have a voice, and one sample at
/// least.
pub proof fn law_voice_takes_a_twentieth_of_a_second(thousands: u32)
    requires
        0 < thousands,
        thousands * 1000 <= u32::MAX,
    ensures
        voice_samples((thousands * 1000) as u32) == thousands * 50,
        voice_samples(0) == 1,
{
    assert((thousands * 1000) * 50 / 1000 == thousands * 50);
}

/// As many samples as there are to a second, for so many seconds, last so many
/// thousand milliseconds.
pub proof fn law_second_has_a_thousand_milliseconds(seconds: nat, sample_rate_hz: u32)
    requires
        sample_rate_hz > 0,
        seconds * sample_rate_hz * 1000 <= u64::MAX,
    ensures
        sound_millis(seconds * sample_rate_hz as nat, sample_rate_hz) == seconds * 1000,
{
    let rate = sample_rate_hz as int;
    let s = seconds as int;
    assert(s * rate * 1000 == (s * 1000) * rate) by (nonlinear_arith);
    assert(((s * 1000) * rate) / rate == s * 1000) by (nonlinear_arith)
        requires
            rate > 0,
    ;
    assert(s * 1000 <= (s * 1000) * rate) by (nonlinear_arith)
        requires
            rate > 0,
            s >= 0,
    ;
}

} // verus!
