use piperdesk::audio::AudioFormat;
use piperdesk::piper::{after_synthesis, PiperConfig, PiperEngine, PiperError, SynthesisRequest, SynthesisStep};
use piperdesk::text::rate_text;

fn config() -> PiperConfig {
    PiperConfig::from_settings(Some("/bin/piper".to_string()), Some("/v".to_string()), "/unused".to_string(), Some("amy".to_string()), None)
}

fn engine() -> PiperEngine {
    PiperEngine::new(
        config(),
        vec![
            "/v/amy.onnx".to_string(),
            "/v/amy.onnx.json".to_string(),
            "/v/sub/bob.onnx".to_string(),
            "/v/other/amy.onnx".to_string(),
            "/v/readme.txt".to_string(),
        ],
    )
}

#[test]
fn empty_scan_gives_empty_catalog() {
    let e = PiperEngine::new(config(), Vec::new());
    assert!(e.voices().is_empty());
    assert!(matches!(e.resolve_voice(None), Err(PiperError::VoiceNotFound(n)) if n == "amy"));
}

#[test]
fn catalog_registers_models_by_stem_last_wins() {
    let e = engine();
    let mut names: Vec<String> = e.voices().iter().map(|v| v.name.clone()).collect();
    names.sort();
    assert_eq!(names, vec!["amy", "bob"]);
    let amy = e.resolve_voice(None).ok().unwrap();
    assert_eq!(amy.model_path, "/v/other/amy.onnx");
    let bob = e.resolve_voice(Some("bob")).ok().unwrap();
    assert_eq!(bob.model_path, "/v/sub/bob.onnx");
    assert!(matches!(e.resolve_voice(Some("Bob")), Err(PiperError::VoiceNotFound(n)) if n == "Bob"));
}

#[test]
fn config_defaults() {
    let c = PiperConfig::from_settings(None, None, "/data/piper/voices".to_string(), None, None);
    assert_eq!(c.binary_path, "piper");
    assert_eq!(c.voices_dir, "/data/piper/voices");
    assert_eq!(c.default_voice, "en_US-amy-medium");
    assert!(c.models_manifest.is_none());
    assert_eq!(engine().config().binary_path, "/bin/piper");
}

#[test]
fn synthesis_plan_for_native_format() {
    let e = engine();
    let req = SynthesisRequest {
        text: "Hello".to_string(),
        voice: Some("bob".to_string()),
        output: "/out/a.wav".to_string(),
        speed: None,
        format: AudioFormat::Wav,
    };
    let plan = e.plan_synthesis(&req).ok().unwrap();
    assert_eq!(plan.program, "/bin/piper");
    assert_eq!(plan.intermediate, "/out/a.wav");
    assert_eq!(plan.args, vec!["--model", "/v/sub/bob.onnx", "--output_file", "/out/a.wav", "--sentence_silence", "0.2"]);
    assert!(!plan.transcode);
    assert_eq!(plan.text, "Hello");
    match after_synthesis(&plan, true, "0".to_string()) {
        Ok(SynthesisStep::Done(p)) => assert_eq!(p, "/out/a.wav"),
        _ => panic!("native output is final"),
    }
}

#[test]
fn synthesis_plan_for_mp3_with_speed() {
    let e = engine();
    let req = SynthesisRequest {
        text: "Hi".to_string(),
        voice: None,
        output: "/out/a.mp3".to_string(),
        speed: Some(1500),
        format: AudioFormat::Mp3,
    };
    let plan = e.plan_synthesis(&req).ok().unwrap();
    assert_eq!(plan.intermediate, "/out/a.wav");
    assert_eq!(plan.args[6], "--length_scale");
    assert_eq!(plan.args[7], "1.5");
    assert!(plan.transcode);
    match after_synthesis(&plan, true, "0".to_string()) {
        Ok(SynthesisStep::Transcode(p)) => assert_eq!(p, "/out/a.wav"),
        _ => panic!("mp3 needs the encoder"),
    }
    match after_synthesis(&plan, false, "exit status: 2".to_string()) {
        Err(PiperError::CommandFailed(s)) => assert_eq!(s, "exit status: 2"),
        _ => panic!("failure expected"),
    }
}

#[test]
fn unknown_voice_fails_planning() {
    let e = engine();
    let req = SynthesisRequest {
        text: "x".to_string(),
        voice: Some("zed".to_string()),
        output: "/o.wav".to_string(),
        speed: None,
        format: AudioFormat::Wav,
    };
    let err = e.plan_synthesis(&req).err().unwrap();
    assert_eq!(err.message(), "voice 'zed' not found");
    assert_eq!(PiperError::CommandFailed("1".into()).message(), "command execution failed: 1");
    assert_eq!(PiperError::InvalidBinary("p".into()).message(), "binary not executable: p");
}

#[test]
fn rates_are_written_as_decimals() {
    assert_eq!(rate_text(1000), "1");
    assert_eq!(rate_text(800), "0.8");
    assert_eq!(rate_text(1250), "1.25");
    assert_eq!(rate_text(1005), "1.005");
    assert_eq!(rate_text(0), "0");
    assert_eq!(rate_text(12000), "12");
}
