use audiobook_pipeline::config::{
    espeak_pitch_arg, espeak_speed_arg, lame_vbr_arg, vorbis_quality_arg, AudioFormat, Config,
};
use audiobook_pipeline::orchestrate::{start_run, FatalError};
use audiobook_pipeline::tools::{
    encoder_command, engine_command, select_encoder, select_engine, EncoderAvailability,
    EncoderKind, EngineAvailability, SpeechEngine,
};

fn engines(ng: bool, plain: bool, festival: bool) -> EngineAvailability {
    EngineAvailability { espeak_ng: ng, espeak: plain, festival }
}

fn encoders(oggenc: bool, flac: bool, lame: bool, ffmpeg: bool) -> EncoderAvailability {
    EncoderAvailability { oggenc, flac, lame, ffmpeg }
}

#[test]
fn engine_preference_order() {
    assert_eq!(select_engine(&engines(true, true, true)), Some(SpeechEngine::EspeakNg));
    assert_eq!(select_engine(&engines(false, true, true)), Some(SpeechEngine::Espeak));
    assert_eq!(select_engine(&engines(false, false, true)), Some(SpeechEngine::Festival));
    assert_eq!(select_engine(&engines(false, false, false)), None);
}

#[test]
fn encoder_preference_order() {
    let all = encoders(true, true, true, true);
    assert_eq!(select_encoder(AudioFormat::Vorbis, &all), Some(EncoderKind::Oggenc));
    assert_eq!(select_encoder(AudioFormat::Flac, &all), Some(EncoderKind::FlacTool));
    assert_eq!(select_encoder(AudioFormat::Mp3, &all), Some(EncoderKind::Lame));
    let only_ffmpeg = encoders(false, false, false, true);
    assert_eq!(select_encoder(AudioFormat::Vorbis, &only_ffmpeg), Some(EncoderKind::FfmpegVorbis));
    assert_eq!(select_encoder(AudioFormat::Flac, &only_ffmpeg), Some(EncoderKind::FfmpegFlac));
    assert_eq!(select_encoder(AudioFormat::Mp3, &only_ffmpeg), Some(EncoderKind::FfmpegMp3));
    let none = encoders(false, false, false, false);
    assert_eq!(select_encoder(AudioFormat::Vorbis, &none), None);
    assert_eq!(select_encoder(AudioFormat::Wav, &none), Some(EncoderKind::WavCopy));
}

#[test]
fn parameter_mappings() {
    assert_eq!(espeak_speed_arg(100), 175);
    assert_eq!(espeak_speed_arg(50), 87);
    assert_eq!(espeak_speed_arg(130), 227);
    assert_eq!(espeak_pitch_arg(100), 50);
    assert_eq!(espeak_pitch_arg(150), 75);
    assert_eq!(vorbis_quality_arg(70), 7);
    assert_eq!(vorbis_quality_arg(100), 10);
    assert_eq!(lame_vbr_arg(70), 2);
    assert_eq!(lame_vbr_arg(100), 0);
    assert_eq!(lame_vbr_arg(0), 9);
}

#[test]
fn espeak_ng_command_line() {
    let c = engine_command(SpeechEngine::EspeakNg, "hello world", 100, 100);
    assert_eq!(c.program, "espeak-ng");
    assert_eq!(
        c.args,
        vec!["-v", "en", "-s", "175", "-p", "50", "-a", "100", "--stdout", "hello world"],
    );
    assert!(!c.pipe_text);
    let plain = engine_command(SpeechEngine::Espeak, "x", 50, 200);
    assert_eq!(plain.program, "espeak");
    assert_eq!(plain.args, vec!["-v", "en", "-s", "87", "-p", "100", "-a", "100", "--stdout", "x"]);
}

#[test]
fn festival_pipes_text() {
    let c = engine_command(SpeechEngine::Festival, "ignored here", 100, 100);
    assert_eq!(c.program, "festival");
    assert_eq!(c.args, vec!["--tts", "--pipe"]);
    assert!(c.pipe_text);
}

#[test]
fn encoder_command_lines() {
    let c = encoder_command(EncoderKind::Oggenc, 70, "in.wav", "out.ogg");
    assert_eq!(c.program, "oggenc");
    assert_eq!(c.args, vec!["-q", "7", "-o", "out.ogg", "in.wav"]);

    let c = encoder_command(EncoderKind::FfmpegVorbis, 70, "in.wav", "out.ogg");
    assert_eq!(c.program, "ffmpeg");
    assert_eq!(c.args, vec!["-i", "in.wav", "-c:a", "libvorbis", "-q:a", "7", "-y", "out.ogg"]);

    let c = encoder_command(EncoderKind::FlacTool, 70, "in.wav", "out.flac");
    assert_eq!(c.program, "flac");
    assert_eq!(c.args, vec!["--compression-level-8", "-o", "out.flac", "in.wav"]);

    let c = encoder_command(EncoderKind::FfmpegFlac, 70, "in.wav", "out.flac");
    assert_eq!(c.program, "ffmpeg");
    assert_eq!(
        c.args,
        vec!["-i", "in.wav", "-c:a", "flac", "-compression_level", "8", "-y", "out.flac"],
    );

    let c = encoder_command(EncoderKind::Lame, 70, "in.wav", "out.mp3");
    assert_eq!(c.program, "lame");
    assert_eq!(c.args, vec!["-V", "2", "in.wav", "out.mp3"]);

    let c = encoder_command(EncoderKind::FfmpegMp3, 70, "in.wav", "out.mp3");
    assert_eq!(c.program, "ffmpeg");
    assert_eq!(c.args, vec!["-i", "in.wav", "-c:a", "libmp3lame", "-q:a", "2", "-y", "out.mp3"]);

    let c = encoder_command(EncoderKind::WavCopy, 70, "in.wav", "out.wav");
    assert_eq!(c.program, "");
    assert!(c.args.is_empty());
}

#[test]
fn fatal_without_any_engine() {
    // with zero speech engines the run fails up front, before chapter work
    let r = start_run(&engines(false, false, false), &encoders(true, true, true, true), AudioFormat::Vorbis);
    assert_eq!(r, Err(FatalError::NoSpeechEngine));
    assert_eq!(
        FatalError::NoSpeechEngine.message(),
        "No TTS engine found. Please install espeak-ng, espeak, or festival",
    );
}

#[test]
fn fatal_without_encoder_for_format() {
    let r = start_run(&engines(true, false, false), &encoders(false, false, false, false), AudioFormat::Mp3);
    assert_eq!(r, Err(FatalError::NoEncoder(AudioFormat::Mp3)));
    assert_eq!(
        FatalError::NoEncoder(AudioFormat::Mp3).message(),
        "No MP3 encoder found. Please install lame or ffmpeg",
    );
    assert_eq!(
        FatalError::NoEncoder(AudioFormat::Vorbis).message(),
        "No Vorbis encoder found. Please install vorbis-tools or ffmpeg",
    );
    assert_eq!(
        FatalError::NoEncoder(AudioFormat::Flac).message(),
        "No FLAC encoder found. Please install flac or ffmpeg",
    );
}

#[test]
fn run_starts_with_engine_and_encoder() {
    let r = start_run(&engines(false, true, false), &encoders(false, false, false, true), AudioFormat::Flac);
    assert_eq!(r, Ok((SpeechEngine::Espeak, EncoderKind::FfmpegFlac)));
}

#[test]
fn format_names_and_extensions() {
    assert_eq!(AudioFormat::Vorbis.as_str(), "vorbis");
    assert_eq!(AudioFormat::Vorbis.extension(), "ogg");
    assert_eq!(AudioFormat::Flac.extension(), "flac");
    assert_eq!(AudioFormat::Mp3.extension(), "mp3");
    assert_eq!(AudioFormat::Wav.extension(), "wav");
    assert_eq!(AudioFormat::Mp3.display_name(), "MP3 (.mp3)");
}

#[test]
fn default_config_values() {
    let c = Config::default();
    assert_eq!(c.sample_rate, 22050);
    assert_eq!(c.voice_speed_centi, 100);
    assert_eq!(c.voice_pitch_centi, 100);
    assert_eq!(c.quality_centi, 70);
    assert_eq!(c.chunk_size, 1000);
    assert_eq!(c.max_workers, 1);
    assert!(c.cache_enabled);
    assert!(c.preprocessing_aggressive);
    assert_eq!(c.output_format, AudioFormat::Vorbis);
}
