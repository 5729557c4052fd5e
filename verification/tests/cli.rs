use scribe::cli::{
    choose_backend, chunk_layout, command, default_transcript_name, first_positional, has_flag,
    local_model, option_value, parse_config, parse_number, split_pair, transcribe_config, Backend,
    CaptureMode, Command, Config, ConfigError,
};
use scribe::local::{
    api_url, health_url, local_config, model_candidates, port_or_default, server_binaries,
    DEFAULT_PORT,
};
use scribe::mixer::MixMode;

fn args(list: &[&str]) -> Vec<String> {
    let mut all = vec!["scribe".to_string()];
    for a in list {
        all.push(a.to_string());
    }
    all
}

fn parsed(list: &[&str]) -> Config {
    parse_config(&args(list), "/tmp/scribe")
}

#[test]
fn no_arguments_give_the_defaults() {
    assert_eq!(
        parsed(&[]),
        Config {
            mode: CaptureMode::Both(MixMode::Stereo),
            chunk_duration: 30,
            overlap: 0,
            output_dir: "/tmp/scribe".to_string(),
            output: None,
            no_transcribe: false,
            save_audio: false,
            concurrency: 2,
            local_port: None,
        }
    );
    assert_eq!(parse_config(&Vec::new(), "x").output, None);
}

#[test]
fn every_flag_is_read() {
    let config = parsed(&[
        "--mix-mode=split",
        "--chunk-duration=10",
        "--overlap=2",
        "--output-dir=/var/audio",
        "--output=notes.md",
        "--no-transcribe",
        "--save-audio",
        "--concurrency=4",
        "--local-port=9000",
    ]);
    assert_eq!(
        config,
        Config {
            mode: CaptureMode::Both(MixMode::Split),
            chunk_duration: 10,
            overlap: 2,
            output_dir: "/var/audio".to_string(),
            output: Some("notes.md".to_string()),
            no_transcribe: true,
            save_audio: true,
            concurrency: 4,
            local_port: Some(9000),
        }
    );
}

#[test]
fn a_single_source_can_be_chosen() {
    assert_eq!(parsed(&["--system"]).mode, CaptureMode::System);
    assert_eq!(parsed(&["--mic"]).mode, CaptureMode::Mic);
    assert_eq!(parsed(&["--mic", "--system"]).mode, CaptureMode::System);
    assert_eq!(parsed(&["--mic", "--mix-mode=split"]).mode, CaptureMode::Mic);
    assert_eq!(parsed(&["--mix-mode=stereo"]).mode, CaptureMode::Both(MixMode::Stereo));
    assert_eq!(parsed(&["--mix-mode=other"]).mode, CaptureMode::Both(MixMode::Stereo));
}

#[test]
fn chunking_can_be_switched_off() {
    assert_eq!(parsed(&["--chunk-duration=0"]).chunk_duration, 0);
}

#[test]
fn unreadable_numbers_fall_back_to_the_default() {
    assert_eq!(parsed(&["--chunk-duration=abc"]).chunk_duration, 30);
    assert_eq!(parsed(&["--chunk-duration="]).chunk_duration, 30);
    assert_eq!(parsed(&["--chunk-duration=-5"]).chunk_duration, 30);
    assert_eq!(parsed(&["--chunk-duration=1.5"]).chunk_duration, 30);
    assert_eq!(parsed(&["--chunk-duration= 5"]).chunk_duration, 30);
    assert_eq!(parsed(&["--chunk-duration=4294967296"]).chunk_duration, 30);
    assert_eq!(parsed(&["--chunk-duration=4294967295"]).chunk_duration, u32::MAX);
    assert_eq!(parsed(&["--overlap=x"]).overlap, 0);
    assert_eq!(parsed(&["--concurrency=many"]).concurrency, 2);
    assert_eq!(parsed(&["--local-port=65536"]).local_port, None);
    assert_eq!(parsed(&["--local-port=65535"]).local_port, Some(65535));
    assert_eq!(parsed(&["--local-port=http"]).local_port, None);
}

#[test]
fn only_the_first_occurrence_of_a_flag_counts() {
    assert_eq!(parsed(&["--chunk-duration=5", "--chunk-duration=9"]).chunk_duration, 5);
    assert_eq!(parsed(&["--chunk-duration=bad", "--chunk-duration=9"]).chunk_duration, 30);
    assert_eq!(parsed(&["--output-dir=a", "--output-dir=b"]).output_dir, "a");
}

#[test]
fn the_document_path_may_be_positional() {
    assert_eq!(parsed(&["meeting.md"]).output, Some("meeting.md".to_string()));
    assert_eq!(parsed(&["--save-audio", "meeting.md", "other.md"]).output, Some("meeting.md".to_string()));
    assert_eq!(parsed(&["meeting.md", "--output=flag.md"]).output, Some("flag.md".to_string()));
    assert_eq!(parsed(&["--output-dir=/x"]).output, None);
    assert_eq!(parsed(&["-o"]).output, Some("-o".to_string()));
    assert_eq!(parsed(&["--output="]).output, Some(String::new()));
}

#[test]
fn the_program_name_is_never_positional() {
    assert_eq!(first_positional(&vec!["scribe".to_string()]), None);
    assert_eq!(first_positional(&Vec::new()), None);
    assert_eq!(
        first_positional(&vec!["scribe".to_string(), "--x".to_string(), "y".to_string()]),
        Some("y".to_string())
    );
}

#[test]
fn flags_are_matched_exactly() {
    let list = args(&["--save-audio=yes", "--systemic", " --mic"]);
    assert!(!has_flag(&list, "--save-audio"));
    assert!(!has_flag(&list, "--system"));
    assert!(!has_flag(&list, "--mic"));
    assert!(has_flag(&list, "scribe"));
    assert!(has_flag(&list, "--systemic"));
}

#[test]
fn option_values_follow_the_prefix() {
    let list = args(&["--model=large-v3", "--api-url=http://host/v1?x=1", "--model=tiny"]);
    assert_eq!(option_value(&list, "--model="), Some("large-v3".to_string()));
    assert_eq!(option_value(&list, "--api-url="), Some("http://host/v1?x=1".to_string()));
    assert_eq!(option_value(&list, "--mod"), Some("el=large-v3".to_string()));
    assert_eq!(option_value(&list, "--output="), None);
    assert_eq!(option_value(&list, ""), Some("scribe".to_string()));
}

#[test]
fn numbers_are_read_like_the_standard_library_reads_them() {
    let samples = [
        "0", "7", "007", "+7", "++7", "+", "-", "-0", "", " 7", "7 ", "7a", "a7", "1_000",
        "65535", "65536", "4294967295", "4294967296", "18446744073709551615",
        "18446744073709551616", "99999999999999999999999999", "0000000000000000000000000001",
        "\u{0663}", "\u{ff17}", "1e3", "0x10",
    ];
    for s in samples {
        assert_eq!(parse_number(s, u16::MAX as u64), s.parse::<u16>().ok().map(|n| n as u64));
        assert_eq!(parse_number(s, u32::MAX as u64), s.parse::<u32>().ok().map(|n| n as u64));
        assert_eq!(parse_number(s, u64::MAX), s.parse::<u64>().ok());
    }
}

#[test]
fn help_goes_before_everything() {
    assert_eq!(command(&args(&["--help"])), Command::Help);
    assert_eq!(command(&args(&["-h"])), Command::Help);
    assert_eq!(command(&args(&["--transcribe=a.wav", "-h"])), Command::Help);
    assert_eq!(command(&args(&["--transcribe-pair=a,b", "--help"])), Command::Help);
}

#[test]
fn one_shot_transcription_goes_before_capture() {
    assert_eq!(
        command(&args(&["--transcribe=a.wav"])),
        Command::Transcribe("a.wav".to_string())
    );
    assert_eq!(
        command(&args(&["--transcribe-pair=s.wav,m.wav"])),
        Command::TranscribePair("s.wav,m.wav".to_string())
    );
    assert_eq!(
        command(&args(&["--transcribe=a.wav", "--transcribe-pair=s.wav,m.wav"])),
        Command::TranscribePair("s.wav,m.wav".to_string())
    );
    assert_eq!(command(&args(&["--system"])), Command::Capture);
    assert_eq!(command(&args(&[])), Command::Capture);
    assert_eq!(command(&args(&["--helpful"])), Command::Capture);
}

#[test]
fn a_pair_is_split_at_its_first_comma() {
    assert_eq!(split_pair("s.wav,m.wav"), Some(("s.wav".to_string(), "m.wav".to_string())));
    assert_eq!(split_pair("a,b,c"), Some(("a".to_string(), "b,c".to_string())));
    assert_eq!(split_pair(","), Some((String::new(), String::new())));
    assert_eq!(split_pair("a,"), Some(("a".to_string(), String::new())));
    assert_eq!(split_pair("no comma"), None);
    assert_eq!(split_pair(""), None);
}

#[test]
fn only_a_dual_capture_is_transcribed() {
    let both = parsed(&[]);
    assert_eq!(choose_backend(&both, false), Backend::Local);
    assert_eq!(choose_backend(&both, true), Backend::Remote);
    assert_eq!(choose_backend(&parsed(&["--no-transcribe"]), true), Backend::RecordOnly);
    assert_eq!(choose_backend(&parsed(&["--system"]), true), Backend::RecordOnly);
    assert_eq!(choose_backend(&parsed(&["--mic"]), false), Backend::RecordOnly);
}

#[test]
fn transcription_forces_the_split_layout() {
    let stereo = CaptureMode::Both(MixMode::Stereo);
    let split = CaptureMode::Both(MixMode::Split);
    assert_eq!(chunk_layout(stereo, Backend::Local), Some(MixMode::Split));
    assert_eq!(chunk_layout(stereo, Backend::Remote), Some(MixMode::Split));
    assert_eq!(chunk_layout(stereo, Backend::RecordOnly), Some(MixMode::Stereo));
    assert_eq!(chunk_layout(split, Backend::RecordOnly), Some(MixMode::Split));
    assert_eq!(chunk_layout(CaptureMode::System, Backend::RecordOnly), None);
    assert_eq!(chunk_layout(CaptureMode::Mic, Backend::Local), None);
}

#[test]
fn a_remote_backend_needs_a_key() {
    let list = args(&["--api-url=http://host/v1"]);
    assert_eq!(transcribe_config(&list, None).err(), Some(ConfigError::MissingApiKey));
    assert_eq!(ConfigError::MissingApiKey.message(), "OPENAI_API_KEY not set");
    assert_eq!(
        ConfigError::MalformedPair.message(),
        "--transcribe-pair expects SYSTEM.wav,MIC.wav"
    );
}

#[test]
fn remote_settings_come_from_the_arguments() {
    let list = args(&["--api-url=http://host/v1", "--model=large"]);
    let config = transcribe_config(&list, Some("SECRET-REDACTED".to_string())).unwrap();
    assert_eq!(config.api_key, "SECRET-REDACTED");
    assert_eq!(config.api_url, "http://host/v1");
    assert_eq!(config.model, "large");
    let plain = transcribe_config(&args(&[]), Some(String::new())).unwrap();
    assert_eq!(plain.api_url, "https://api.openai.com/v1/audio/transcriptions");
    assert_eq!(plain.model, "whisper-1");
}

#[test]
fn the_local_model_defaults_to_medium() {
    assert_eq!(local_model(&args(&[])), "medium");
    assert_eq!(local_model(&args(&["--model=small"])), "small");
}

#[test]
fn the_document_is_named_after_the_date() {
    assert_eq!(default_transcript_name("2026-02-15"), "transcript-2026-02-15.md");
}

#[test]
fn the_local_server_answers_on_its_port() {
    assert_eq!(DEFAULT_PORT, 8080);
    assert_eq!(port_or_default(None), 8080);
    assert_eq!(port_or_default(Some(9000)), 9000);
    assert_eq!(api_url(8080), "http://localhost:8080/inference");
    assert_eq!(api_url(0), "http://localhost:0/inference");
    assert_eq!(api_url(65535), "http://localhost:65535/inference");
    assert_eq!(health_url(8080), "http://localhost:8080/health");
    let config = local_config(9000);
    assert_eq!(config.api_url, "http://localhost:9000/inference");
    assert_eq!(config.api_key, "");
    assert_eq!(config.model, "");
}

#[test]
fn models_are_looked_for_below_the_home_directory() {
    assert_eq!(
        model_candidates("/home/me", "medium"),
        vec![
            "/home/me/.cache/whisper/ggml-medium.bin".to_string(),
            "/home/me/.local/share/scribe/models/ggml-medium.bin".to_string(),
            "/home/me/models/ggml-medium.bin".to_string(),
        ]
    );
    assert_eq!(
        server_binaries(),
        vec!["whisper-cpp-server".to_string(), "whisper-server".to_string()]
    );
}
