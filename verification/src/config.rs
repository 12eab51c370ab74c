//! Conversion configuration: target format, voice parameters and run options.
//!
//! Voice speed, pitch and quality are fractions in the original interface;
//! here they are carried as integer hundredths (a multiplier of 1.0 is 100),
//! which pins the engine argument mappings down exactly.

use vstd::prelude::*;

verus! {

/// Target audio container/codec for the produced segments.
#[derive(Clone, Copy, Debug, PartialEq, Eq, Structural)]
pub enum AudioFormat {
    Vorbis,
    Flac,
    Mp3,
    Wav,
}

impl AudioFormat {
    /// Canonical lower-case name, as accepted on the configuration surface.
    pub open spec fn name_spec(&self) -> Seq<char> {
        match self {
            AudioFormat::Vorbis => "vorbis"@,
            AudioFormat::Flac => "flac"@,
            AudioFormat::Mp3 => "mp3"@,
            AudioFormat::Wav => "wav"@,
        }
    }

    /// Canonical lower-case name, as accepted on the configuration surface.
    pub fn as_str(&self) -> (r: &'static str)
        ensures
            r@ == self.name_spec(),
            self is Vorbis ==> r@ == "vorbis"@,
            self is Flac ==> r@ == "flac"@,
            self is Mp3 ==> r@ == "mp3"@,
            self is Wav ==> r@ == "wav"@,
    {
        match self {
            AudioFormat::Vorbis => "vorbis",
            AudioFormat::Flac => "flac",
            AudioFormat::Mp3 => "mp3",
            AudioFormat::Wav => "wav",
        }
    }

    /// Human-readable name for a settings display.
    pub fn display_name(&self) -> (r: &'static str)
        ensures
            self is Vorbis ==> r@ == "Ogg Vorbis (.ogg)"@,
            self is Flac ==> r@ == "FLAC (.flac)"@,
            self is Mp3 ==> r@ == "MP3 (.mp3)"@,
            self is Wav ==> r@ == "WAV (.wav)"@,
    {
        match self {
            AudioFormat::Vorbis => "Ogg Vorbis (.ogg)",
            AudioFormat::Flac => "FLAC (.flac)",
            AudioFormat::Mp3 => "MP3 (.mp3)",
            AudioFormat::Wav => "WAV (.wav)",
        }
    }

    /// File extension of a produced audio segment.
    pub open spec fn extension_spec(&self) -> Seq<char> {
        match self {
            AudioFormat::Vorbis => "ogg"@,
            AudioFormat::Flac => "flac"@,
            AudioFormat::Mp3 => "mp3"@,
            AudioFormat::Wav => "wav"@,
        }
    }

    /// File extension of a produced audio segment.
    pub fn extension(&self) -> (r: &'static str)
        ensures
            r@ == self.extension_spec(),
            self is Vorbis ==> r@ == "ogg"@,
            self is Flac ==> r@ == "flac"@,
            self is Mp3 ==> r@ == "mp3"@,
            self is Wav ==> r@ == "wav"@,
    {
        match self {
            AudioFormat::Vorbis => "ogg",
            AudioFormat::Flac => "flac",
            AudioFormat::Mp3 => "mp3",
            AudioFormat::Wav => "wav",
        }
    }
}

/// The acoustic parameters of one run; part of every cache key.
///
/// `speed_centi` and `pitch_centi` are multipliers in hundredths
/// (100 is the baseline voice), `sample_rate` is in hertz.
#[derive(Clone, Copy, Debug, PartialEq, Eq, Structural)]
pub struct VoiceParams {
    pub speed_centi: u32,
    pub pitch_centi: u32,
    pub sample_rate: u32,
}

/// Options for one conversion run, immutable for its duration.
#[derive(Clone, Copy, Debug, PartialEq, Eq, Structural)]
pub struct Config {
    pub sample_rate: u32,
    pub voice_speed_centi: u32,
    pub voice_pitch_centi: u32,
    pub output_format: AudioFormat,
    pub quality_centi: u32,
    pub chunk_size: usize,
    pub max_workers: usize,
    pub cache_enabled: bool,
    pub preprocessing_aggressive: bool,
}

impl Config {
    /// The options a caller must keep inside the recognized surface:
    /// quality a fraction of at most 1.0 and at least one worker.
    pub open spec fn wf(&self) -> bool {
        &&& self.quality_centi <= 100
        &&& self.max_workers >= 1
    }

    /// The voice parameters that enter every cache key.
    pub open spec fn voice_spec(&self) -> VoiceParams {
        VoiceParams {
            speed_centi: self.voice_speed_centi,
            pitch_centi: self.voice_pitch_centi,
            sample_rate: self.sample_rate,
        }
    }

    /// The voice parameters that enter every cache key.
    pub fn voice(&self) -> (r: VoiceParams)
        ensures
            r == self.voice_spec(),
            r.speed_centi == self.voice_speed_centi,
            r.pitch_centi == self.voice_pitch_centi,
            r.sample_rate == self.sample_rate,
    {
        VoiceParams {
            speed_centi: self.voice_speed_centi,
            pitch_centi: self.voice_pitch_centi,
            sample_rate: self.sample_rate,
        }
    }
}

impl Default for Config {
    /// Baseline run: Vorbis output at quality 0.7, voice multipliers 1.0,
    /// one-kilobyte chunks, caching and aggressive cleanup on, one worker
    /// (callers widen the pool to the machine's parallelism).
    fn default() -> (r: Self)
        ensures
            r.sample_rate == 22050,
            r.voice_speed_centi == 100,
            r.voice_pitch_centi == 100,
            r.output_format is Vorbis,
            r.quality_centi == 70,
            r.chunk_size == 1000,
            r.max_workers == 1,
            r.cache_enabled,
            r.preprocessing_aggressive,
            r.wf(),
    {
        Config {
            sample_rate: 22050,
            voice_speed_centi: 100,
            voice_pitch_centi: 100,
            output_format: AudioFormat::Vorbis,
            quality_centi: 70,
            chunk_size: 1000,
            max_workers: 1,
            cache_enabled: true,
            preprocessing_aggressive: true,
        }
    }
}

/// The words-per-minute value an espeak-family engine is given: the speed
/// multiplier applied to the 175 wpm baseline, truncated, clamped to `u32`.
pub open spec fn espeak_wpm(speed_centi: u32) -> int {
    if speed_centi * 175 / 100 <= u32::MAX {
        speed_centi * 175 / 100
    } else {
        u32::MAX as int
    }
}

/// The pitch value an espeak-family engine is given: the pitch multiplier
/// applied to the baseline value of 50, truncated.
pub open spec fn espeak_pitch(pitch_centi: u32) -> int {
    pitch_centi as int / 2
}

/// The oggenc quality level: the quality fraction mapped onto 0..10.
pub open spec fn vorbis_q(quality_centi: u32) -> int {
    quality_centi as int / 10
}

/// The lame variable-bitrate level: 0 is best and 9 worst, so the quality
/// fraction is inverted onto that scale.
pub open spec fn lame_v(quality_centi: u32) -> int {
    (900 - 9 * quality_centi) / 100
}

/// Words-per-minute argument for the espeak family.
pub fn espeak_speed_arg(speed_centi: u32) -> (r: u32)
    ensures
        r == espeak_wpm(speed_centi),
{
    let wide: u64 = (speed_centi as u64) * 175 / 100;
    if wide > u32::MAX as u64 {
        u32::MAX
    } else {
        wide as u32
    }
}

/// Pitch argument for the espeak family.
pub fn espeak_pitch_arg(pitch_centi: u32) -> (r: u32)
    ensures
        r == espeak_pitch(pitch_centi),
{
    pitch_centi / 2
}

/// Vorbis quality scale argument for oggenc or ffmpeg.
pub fn vorbis_quality_arg(quality_centi: u32) -> (r: u32)
    requires
        quality_centi <= 100,
    ensures
        r == vorbis_q(quality_centi),
        r <= 10,
{
    quality_centi / 10
}

/// MP3 variable-bitrate level argument for lame or ffmpeg.
pub fn lame_vbr_arg(quality_centi: u32) -> (r: u32)
    requires
        quality_centi <= 100,
    ensures
        r == lame_v(quality_centi),
        r <= 9,
{
    (900 - 9 * quality_centi) / 100
}

} // verus!
