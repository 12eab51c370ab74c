//! The interchangeable external tools: speech engines and audio encoders,
//! each probed for availability by the caller and selected here in a fixed
//! preference order, and the exact command lines the pipeline hands them.
//! Selection is a pure function of what is present in the environment,
//! computed once per run.

use vstd::prelude::*;
use vstd::string::*;
use crate::config::{
    AudioFormat, espeak_wpm, espeak_pitch, vorbis_q, lame_v, espeak_speed_arg, espeak_pitch_arg,
    vorbis_quality_arg, lame_vbr_arg,
};
use crate::naming::{dec_chars, u64_to_dec};
use crate::textutil::string_of;

verus! {

/// The speech engines, most capable first.
#[derive(Clone, Copy, Debug, PartialEq, Eq, Structural)]
pub enum SpeechEngine {
    EspeakNg,
    Espeak,
    Festival,
}

/// Which speech engines the availability probe found on the path.
#[derive(Clone, Copy, Debug, PartialEq, Eq, Structural)]
pub struct EngineAvailability {
    pub espeak_ng: bool,
    pub espeak: bool,
    pub festival: bool,
}

/// The engine a run uses: the first available in preference order.
pub open spec fn selected_engine(av: EngineAvailability) -> Option<SpeechEngine> {
    if av.espeak_ng {
        Some(SpeechEngine::EspeakNg)
    } else if av.espeak {
        Some(SpeechEngine::Espeak)
    } else if av.festival {
        Some(SpeechEngine::Festival)
    } else {
        None
    }
}

/// Picks the speech engine for the whole run, or nothing when no engine is
/// available; selection does not change mid-run.
pub fn select_engine(av: &EngineAvailability) -> (r: Option<SpeechEngine>)
    ensures
        r == selected_engine(*av),
        r is None <==> !av.espeak_ng && !av.espeak && !av.festival,
{
    if av.espeak_ng {
        Some(SpeechEngine::EspeakNg)
    } else if av.espeak {
        Some(SpeechEngine::Espeak)
    } else if av.festival {
        Some(SpeechEngine::Festival)
    } else {
        None
    }
}

/// The audio encoder invocations, one per format and tool.
#[derive(Clone, Copy, Debug, PartialEq, Eq, Structural)]
pub enum EncoderKind {
    Oggenc,
    FfmpegVorbis,
    FlacTool,
    FfmpegFlac,
    Lame,
    FfmpegMp3,
    WavCopy,
}

/// Which encoders the availability probe found on the path.
#[derive(Clone, Copy, Debug, PartialEq, Eq, Structural)]
pub struct EncoderAvailability {
    pub oggenc: bool,
    pub flac: bool,
    pub lame: bool,
    pub ffmpeg: bool,
}

/// The encoder a run uses for a format: the dedicated tool first, ffmpeg
/// as the fallback; WAV output is a plain byte copy and needs no tool.
pub open spec fn selected_encoder(format: AudioFormat, av: EncoderAvailability) -> Option<
    EncoderKind,
> {
    match format {
        AudioFormat::Vorbis => if av.oggenc {
            Some(EncoderKind::Oggenc)
        } else if av.ffmpeg {
            Some(EncoderKind::FfmpegVorbis)
        } else {
            None
        },
        AudioFormat::Flac => if av.flac {
            Some(EncoderKind::FlacTool)
        } else if av.ffmpeg {
            Some(EncoderKind::FfmpegFlac)
        } else {
            None
        },
        AudioFormat::Mp3 => if av.lame {
            Some(EncoderKind::Lame)
        } else if av.ffmpeg {
            Some(EncoderKind::FfmpegMp3)
        } else {
            None
        },
        AudioFormat::Wav => Some(EncoderKind::WavCopy),
    }
}

/// Picks the encoder for the requested format, or nothing when no encoder
/// for it is available.
pub fn select_encoder(format: AudioFormat, av: &EncoderAvailability) -> (r: Option<EncoderKind>)
    ensures
        r == selected_encoder(format, *av),
        format is Wav ==> r == Some(EncoderKind::WavCopy),
{
    match format {
        AudioFormat::Vorbis => {
            if av.oggenc {
                Some(EncoderKind::Oggenc)
            } else if av.ffmpeg {
                Some(EncoderKind::FfmpegVorbis)
            } else {
                None
            }
        },
        AudioFormat::Flac => {
            if av.flac {
                Some(EncoderKind::FlacTool)
            } else if av.ffmpeg {
                Some(EncoderKind::FfmpegFlac)
            } else {
                None
            }
        },
        AudioFormat::Mp3 => {
            if av.lame {
                Some(EncoderKind::Lame)
            } else if av.ffmpeg {
                Some(EncoderKind::FfmpegMp3)
            } else {
                None
            }
        },
        AudioFormat::Wav => Some(EncoderKind::WavCopy),
    }
}

/// One external invocation, ready for the caller to spawn: a program, its
/// arguments, and whether the text is piped on standard input rather than
/// passed as the last argument.
pub struct ToolCommand {
    pub program: String,
    pub args: Vec<String>,
    pub pipe_text: bool,
}

fn push_str_arg(args: &mut Vec<String>, s: &str)
    ensures
        final(args).deep_view() == old(args).deep_view().push(s@),
{
    args.push(s.to_owned());
    proof {
        assert(args.deep_view() =~~= old(args).deep_view().push(s@));
    }
}

fn push_num_arg(args: &mut Vec<String>, n: u64)
    ensures
        final(args).deep_view() == old(args).deep_view().push(dec_chars(n as int)),
{
    let digits = u64_to_dec(n);
    args.push(string_of(&digits));
    proof {
        assert(args.deep_view() =~~= old(args).deep_view().push(dec_chars(n as int)));
    }
}

/// The program a speech engine is invoked as.
pub open spec fn engine_program(e: SpeechEngine) -> Seq<char> {
    match e {
        SpeechEngine::EspeakNg => "espeak-ng"@,
        SpeechEngine::Espeak => "espeak"@,
        SpeechEngine::Festival => "festival"@,
    }
}

/// The argument list of a synthesis call: the espeak family takes an
/// English voice, the mapped speed and pitch, full amplitude, and writes
/// the waveform to standard output; festival reads the text from a pipe.
pub open spec fn engine_args(e: SpeechEngine, text: Seq<char>, sc: u32, pc: u32) -> Seq<
    Seq<char>,
> {
    match e {
        SpeechEngine::Festival => seq!["--tts"@, "--pipe"@],
        _ => seq![
            "-v"@,
            "en"@,
            "-s"@,
            dec_chars(espeak_wpm(sc)),
            "-p"@,
            dec_chars(espeak_pitch(pc)),
            "-a"@,
            "100"@,
            "--stdout"@,
            text,
        ],
    }
}

/// Whether the engine takes the text on standard input.
pub open spec fn engine_pipes_text(e: SpeechEngine) -> bool {
    e is Festival
}

/// Builds the exact invocation for one synthesis call.
pub fn engine_command(e: SpeechEngine, text: &str, speed_centi: u32, pitch_centi: u32) -> (r:
    ToolCommand)
    ensures
        r.program@ == engine_program(e),
        r.args.deep_view() == engine_args(e, text@, speed_centi, pitch_centi),
        r.pipe_text == engine_pipes_text(e),
{
    match e {
        SpeechEngine::Festival => {
            let mut args: Vec<String> = Vec::new();
            push_str_arg(&mut args, "--tts");
            push_str_arg(&mut args, "--pipe");
            proof {
                assert(args.deep_view() =~~= engine_args(e, text@, speed_centi, pitch_centi));
            }
            ToolCommand { program: "festival".to_owned(), args, pipe_text: true }
        },
        _ => {
            let program = if matches!(e, SpeechEngine::EspeakNg) {
                "espeak-ng".to_owned()
            } else {
                "espeak".to_owned()
            };
            let mut args: Vec<String> = Vec::new();
            push_str_arg(&mut args, "-v");
            push_str_arg(&mut args, "en");
            push_str_arg(&mut args, "-s");
            push_num_arg(&mut args, espeak_speed_arg(speed_centi) as u64);
            push_str_arg(&mut args, "-p");
            push_num_arg(&mut args, espeak_pitch_arg(pitch_centi) as u64);
            push_str_arg(&mut args, "-a");
            push_str_arg(&mut args, "100");
            push_str_arg(&mut args, "--stdout");
            push_str_arg(&mut args, text);
            proof {
                assert(args.deep_view() =~~= engine_args(e, text@, speed_centi, pitch_centi));
            }
            ToolCommand { program, args, pipe_text: false }
        },
    }
}

/// The program an encoder is invoked as; the WAV copy runs nothing.
pub open spec fn encoder_program(k: EncoderKind) -> Seq<char> {
    match k {
        EncoderKind::Oggenc => "oggenc"@,
        EncoderKind::FlacTool => "flac"@,
        EncoderKind::Lame => "lame"@,
        EncoderKind::WavCopy => Seq::empty(),
        _ => "ffmpeg"@,
    }
}

/// The argument list of one encoding call, with the quality fraction
/// mapped into each tool's native scale.
pub open spec fn encoder_args(k: EncoderKind, qc: u32, input: Seq<char>, output: Seq<char>) -> Seq<
    Seq<char>,
> {
    match k {
        EncoderKind::Oggenc => seq!["-q"@, dec_chars(vorbis_q(qc)), "-o"@, output, input],
        EncoderKind::FfmpegVorbis => seq![
            "-i"@,
            input,
            "-c:a"@,
            "libvorbis"@,
            "-q:a"@,
            dec_chars(vorbis_q(qc)),
            "-y"@,
            output,
        ],
        EncoderKind::FlacTool => seq!["--compression-level-8"@, "-o"@, output, input],
        EncoderKind::FfmpegFlac => seq![
            "-i"@,
            input,
            "-c:a"@,
            "flac"@,
            "-compression_level"@,
            "8"@,
            "-y"@,
            output,
        ],
        EncoderKind::Lame => seq!["-V"@, dec_chars(lame_v(qc)), input, output],
        EncoderKind::FfmpegMp3 => seq![
            "-i"@,
            input,
            "-c:a"@,
            "libmp3lame"@,
            "-q:a"@,
            dec_chars(lame_v(qc)),
            "-y"@,
            output,
        ],
        EncoderKind::WavCopy => Seq::empty(),
    }
}

/// Whether this encoder is the identity byte copy.
pub open spec fn encoder_is_copy(k: EncoderKind) -> bool {
    k is WavCopy
}

/// Builds the exact invocation for one encoding call; for WAV the caller
/// copies the bytes instead of spawning anything.
pub fn encoder_command(k: EncoderKind, quality_centi: u32, input: &str, output: &str) -> (r:
    ToolCommand)
    requires
        quality_centi <= 100,
    ensures
        r.program@ == encoder_program(k),
        r.args.deep_view() == encoder_args(k, quality_centi, input@, output@),
        r.pipe_text == false,
{
    let mut args: Vec<String> = Vec::new();
    match k {
        EncoderKind::Oggenc => {
            push_str_arg(&mut args, "-q");
            push_num_arg(&mut args, vorbis_quality_arg(quality_centi) as u64);
            push_str_arg(&mut args, "-o");
            push_str_arg(&mut args, output);
            push_str_arg(&mut args, input);
            proof {
                assert(args.deep_view() =~~= encoder_args(k, quality_centi, input@, output@));
            }
            ToolCommand { program: "oggenc".to_owned(), args, pipe_text: false }
        },
        EncoderKind::FfmpegVorbis => {
            push_str_arg(&mut args, "-i");
            push_str_arg(&mut args, input);
            push_str_arg(&mut args, "-c:a");
            push_str_arg(&mut args, "libvorbis");
            push_str_arg(&mut args, "-q:a");
            push_num_arg(&mut args, vorbis_quality_arg(quality_centi) as u64);
            push_str_arg(&mut args, "-y");
            push_str_arg(&mut args, output);
            proof {
                assert(args.deep_view() =~~= encoder_args(k, quality_centi, input@, output@));
            }
            ToolCommand { program: "ffmpeg".to_owned(), args, pipe_text: false }
        },
        EncoderKind::FlacTool => {
            push_str_arg(&mut args, "--compression-level-8");
            push_str_arg(&mut args, "-o");
            push_str_arg(&mut args, output);
            push_str_arg(&mut args, input);
            proof {
                assert(args.deep_view() =~~= encoder_args(k, quality_centi, input@, output@));
            }
            ToolCommand { program: "flac".to_owned(), args, pipe_text: false }
        },
        EncoderKind::FfmpegFlac => {
            push_str_arg(&mut args, "-i");
            push_str_arg(&mut args, input);
            push_str_arg(&mut args, "-c:a");
            push_str_arg(&mut args, "flac");
            push_str_arg(&mut args, "-compression_level");
            push_str_arg(&mut args, "8");
            push_str_arg(&mut args, "-y");
            push_str_arg(&mut args, output);
            proof {
                assert(args.deep_view() =~~= encoder_args(k, quality_centi, input@, output@));
            }
            ToolCommand { program: "ffmpeg".to_owned(), args, pipe_text: false }
        },
        EncoderKind::Lame => {
            push_str_arg(&mut args, "-V");
            push_num_arg(&mut args, lame_vbr_arg(quality_centi) as u64);
            push_str_arg(&mut args, input);
            push_str_arg(&mut args, output);
            proof {
                assert(args.deep_view() =~~= encoder_args(k, quality_centi, input@, output@));
            }
            ToolCommand { program: "lame".to_owned(), args, pipe_text: false }
        },
        EncoderKind::FfmpegMp3 => {
            push_str_arg(&mut args, "-i");
            push_str_arg(&mut args, input);
            push_str_arg(&mut args, "-c:a");
            push_str_arg(&mut args, "libmp3lame");
            push_str_arg(&mut args, "-q:a");
            push_num_arg(&mut args, lame_vbr_arg(quality_centi) as u64);
            push_str_arg(&mut args, "-y");
            push_str_arg(&mut args, output);
            proof {
                assert(args.deep_view() =~~= encoder_args(k, quality_centi, input@, output@));
            }
            ToolCommand { program: "ffmpeg".to_owned(), args, pipe_text: false }
        },
        EncoderKind::WavCopy => {
            let program = String::new();
            proof {
                assert(args.deep_view() =~~= encoder_args(k, quality_centi, input@, output@));
                assert(program@ =~= encoder_program(k));
            }
            ToolCommand { program, args, pipe_text: false }
        },
    }
}

} // verus!
