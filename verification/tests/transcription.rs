use codecrab::transcription::{
    audio_extension, check_recording, choose_backend, is_available_with_oauth, recording_name,
    transcribe, TranscriptionBackend,
};

#[test]
fn recording_extensions_follow_the_mime_type() {
    assert_eq!(audio_extension("audio/wav"), "wav");
    assert_eq!(audio_extension("audio/webm;codecs=opus"), "webm");
    assert_eq!(audio_extension("audio/ogg"), "ogg");
}

#[test]
fn compatible_provider_transcription_uses_its_own_base_url() {
    let backend = choose_backend(
        "openai",
        "https://provider.example/openai/v1/",
        "api_key",
        "provider-secret",
        false,
        false,
    )
    .unwrap();
    let TranscriptionBackend::ProviderApi { url, api_key } = backend else {
        panic!("a compatible provider must not use ChatGPT OAuth");
    };
    assert_eq!(
        url,
        "https://provider.example/openai/v1/audio/transcriptions"
    );
    assert_eq!(api_key.as_deref(), Some("provider-secret"));
    assert_eq!(
        reqwest::Url::parse(&url).unwrap().host_str(),
        Some("provider.example")
    );
}

#[test]
fn compatible_provider_is_not_exposed_as_dictation_capable() {
    assert!(!is_available_with_oauth("auto", "", false, true).unwrap());
}

#[test]
fn official_openai_api_key_exposes_dictation() {
    assert!(is_available_with_oauth("api_key", "sk-test", true, false).unwrap());
    assert!(!is_available_with_oauth("none", "sk-test", true, true).unwrap());
    assert!(is_available_with_oauth("magic", "sk-test", true, true).is_err());
}

#[test]
fn recordings_are_named_and_checked() {
    assert_eq!(recording_name("audio/mpeg"), "codecrab.mp3");
    assert!(check_recording(0).is_err());
    assert!(check_recording(1).is_ok());
    assert!(transcribe(true, "200 OK", "https://a", "{}", Ok("  ".to_owned())).is_err());
    assert_eq!(
        transcribe(true, "200 OK", "https://a", "{}", Ok(" hello ".to_owned())).unwrap(),
        "hello"
    );
    assert_eq!(
        transcribe(true, "200 OK", "https://a", "{}", Err("missing field `text`".to_owned()))
            .unwrap_err(),
        "provider returned an invalid transcription: missing field `text`"
    );
}
