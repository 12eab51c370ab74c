use audiobook_pipeline::cachekey::cache_key;
use audiobook_pipeline::cachestore::SpeechCache;
use audiobook_pipeline::config::VoiceParams;
use audiobook_pipeline::orchestrate::{synthesis_decision, SynthesisDecision};

fn voice(speed: u32, pitch: u32, rate: u32) -> VoiceParams {
    VoiceParams { speed_centi: speed, pitch_centi: pitch, sample_rate: rate }
}

#[test]
fn cache_key_is_deterministic() {
    let vp = voice(100, 100, 22050);
    let k1 = cache_key("Hello there.", &vp);
    let k2 = cache_key("Hello there.", &vp);
    assert_eq!(k1, k2);
}

#[test]
fn cache_key_matches_known_digest() {
    let vp = voice(100, 100, 22050);
    assert_eq!(
        cache_key("A", &vp),
        "d40b604d724ae6687733035d304eb04d0c8d4fe7771932a25ea588f6bf117d51",
    );
    assert_eq!(
        cache_key("A", &voice(150, 100, 22050)),
        "f316ab0e5b6b8ed7d3f2cda13df6c21ba7fad7c63bd85e6ff6bdaa8949f624b0",
    );
}

#[test]
fn changing_any_field_changes_the_key() {
    let base = cache_key("text", &voice(100, 100, 22050));
    assert_ne!(base, cache_key("texT", &voice(100, 100, 22050)));
    assert_ne!(base, cache_key("text", &voice(101, 100, 22050)));
    assert_ne!(base, cache_key("text", &voice(100, 101, 22050)));
    assert_ne!(base, cache_key("text", &voice(100, 100, 44100)));
}

#[test]
fn cache_key_is_64_hex_chars() {
    let k = cache_key("anything at all", &voice(50, 200, 44100));
    assert_eq!(k.len(), 64);
    assert!(k.chars().all(|c| c.is_ascii_hexdigit() && !c.is_ascii_uppercase()));
}

#[test]
fn cache_hit_returns_stored_bytes() {
    let vp = voice(100, 100, 22050);
    let key = cache_key("segment text", &vp);
    let mut cache = SpeechCache::new(true);
    assert!(cache.lookup(&key).is_none());
    let waveform = vec![0u8, 1, 2, 3, 250];
    cache.store(key.clone(), waveform.clone());
    let hit = cache.lookup(&key).expect("stored key must be found");
    assert_eq!(hit, waveform);
    // a second request needs no new synthesis
    let again = cache.lookup(&key).expect("still cached");
    assert_eq!(again, waveform);
}

#[test]
fn cache_miss_on_other_key() {
    let vp = voice(100, 100, 22050);
    let mut cache = SpeechCache::new(true);
    cache.store(cache_key("a", &vp), vec![1, 2]);
    assert!(cache.lookup(&cache_key("b", &vp)).is_none());
}

#[test]
fn store_same_key_replaces() {
    let mut cache = SpeechCache::new(true);
    cache.store("k".to_string(), vec![1]);
    cache.store("k".to_string(), vec![2]);
    assert_eq!(cache.lookup(&"k".to_string()).unwrap(), vec![2]);
}

#[test]
fn failed_synthesis_creates_no_entry() {
    let vp = voice(100, 100, 22050);
    let key = cache_key("segment", &vp);
    let mut cache = SpeechCache::new(true);
    assert!(cache.record_synthesis(&key, None).is_none());
    assert!(cache.lookup(&key).is_none());
    let r = cache.record_synthesis(&key, Some(vec![7, 8]));
    assert_eq!(r.unwrap(), vec![7, 8]);
    assert_eq!(cache.lookup(&key).unwrap(), vec![7, 8]);
}

#[test]
fn disabled_cache_records_nothing() {
    let mut cache = SpeechCache::new(false);
    let r = cache.record_synthesis(&"k".to_string(), Some(vec![1]));
    assert_eq!(r.unwrap(), vec![1]);
    assert!(cache.lookup(&"k".to_string()).is_none());
}

#[test]
fn cache_flag_is_kept() {
    assert!(SpeechCache::new(true).is_enabled());
    assert!(!SpeechCache::new(false).is_enabled());
}

#[test]
fn synthesis_decisions() {
    assert_eq!(synthesis_decision(true, true), SynthesisDecision::ReuseCached);
    assert_eq!(synthesis_decision(true, false), SynthesisDecision::SynthesizeAndStore);
    assert_eq!(synthesis_decision(false, false), SynthesisDecision::SynthesizeEphemeral);
    assert_eq!(synthesis_decision(false, true), SynthesisDecision::SynthesizeEphemeral);
}
