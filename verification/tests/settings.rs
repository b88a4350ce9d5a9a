use codecrab::paths::Platform;
use codecrab::diagnostics::{request, response, LogAction, TuiLogState};
use codecrab::provider::ProviderConfig;
use codecrab::settings::{
    changed_provider, format_config_output, identity_suffix, key_from_input, key_source,
    one_shot_prompt, Config, KeySource,
};
use codecrab::table::Table;
use codecrab::diagnostics::{DebugAction, DebugFault, DebugOutput, DiagnosticLog};
use codecrab::settings::{change_message, default_instructions_path, ProviderChange};

#[test]
fn config_output_separates_the_file_path_from_effective_content() {
    let output = format_config_output("/config/codecrab/config.toml", "model = \"auto\"\n");

    assert!(output.starts_with("Configuration file path:\n/config/codecrab/config.toml\n\n"));
    assert!(output.contains("Effective configuration content:\nmodel = \"auto\""));
}

fn provider() -> ProviderConfig {
    ProviderConfig {
        model: "auto".to_owned(),
        base_url: "https://a/v1".to_owned(),
        auth: "auto".to_owned(),
        api_key: String::new(),
        fetch_models: true,
        allowed_models: None,
        model_capabilities: Table::new(),
    }
}

#[test]
fn providers_are_added_used_and_removed() {
    let mut config = Config { providers: Table::new(), active_provider: "openai".to_owned() };
    config.add_provider("openai", provider(), true);
    config.add_provider("local", provider(), false);
    assert_eq!(config.active_provider, "openai");
    config.use_provider("local").unwrap();
    assert_eq!(config.active_provider, "local");
    assert!(config.use_provider("other").is_err());
    assert!(config.remove_provider("other").is_err());
    assert_eq!(config.provider_lines().len(), 2);
    assert!(config.show_provider("local").is_ok());
    let changed = changed_provider(provider(), "https://b/v1/", " OAuth ", "m", "key");
    assert_eq!((changed.model.as_str(), changed.api_key.as_str()), ("m", "key"));
}

#[test]
fn keys_and_prompts_come_from_where_they_are_given() {
    assert!(matches!(
        key_source(Some("k".to_owned()), false, "api_key", true),
        KeySource::Given(k) if k == "k"
    ));
    assert_eq!(key_from_input(" secret \r\n"), " secret ");
    assert_eq!(one_shot_prompt(Some("hi".to_owned()), None).unwrap(), "hi");
    assert!(one_shot_prompt(None, None).is_err());
    assert_eq!(identity_suffix(None, None), "");
}

#[test]
fn tui_log_is_not_created_until_an_error_is_written() {
    let log = TuiLogState::tui_in(Platform::Linux, None, "/tmp", "20260802-120000", 7);
    let report = log.report();
    assert_eq!((report.path, report.failure), (None, None));
}

#[test]
fn tui_log_uses_a_unique_timestamped_default_name() {
    let mut log = TuiLogState::tui_in(Platform::Linux, None, "/tmp", "20260802-120000", 7);
    assert_eq!(log.error(), LogAction::OpenNew);
    log.opened(None);
    assert_eq!(log.error(), LogAction::Write);
    log.written(None);

    let path = log.report().path.unwrap();
    let name = path.rsplit('/').next().unwrap();
    assert!(name.starts_with("codecrab-log-"));
    assert!(name.ends_with(".log"));
    let other = TuiLogState::tui_in(Platform::Linux, None, "/tmp", "20260802-120000", 8);
    assert_ne!(other.path, path);
}

#[test]
fn custom_tui_log_appends_and_ignores_warnings() {
    let mut log = TuiLogState::tui_in(Platform::Linux, Some("/logs/errors.log".to_owned()), "/tmp", "now", 1);
    assert_eq!(log.error(), LogAction::OpenToAppend);
    log.opened(None);
    log.written(None);
    assert_eq!(log.report().path.as_deref(), Some("/logs/errors.log"));
}

#[test]
fn tui_log_retains_an_open_failure_for_reporting_after_exit() {
    let path = "/missing/errors.log";
    let mut log = TuiLogState::tui_in(Platform::Linux, Some(path.to_owned()), "/tmp", "now", 1);
    log.opened(Some("no such directory"));

    let report = log.report();
    assert_eq!(report.path, None);
    assert!(report.failure.unwrap().contains(path));
    assert_eq!(log.error(), LogAction::Skip);
}

#[test]
fn request_and_response_are_written_to_the_selected_file() {
    let asked = request(
        "POST",
        "https://example.com/v1/responses",
        "HTTP/1.1",
        &vec![("authorization".to_owned(), "Bearer secret".to_owned())],
        Some("{\"prompt\":\"hello\"}"),
    );
    let answered = response(
        "https://example.com/v1/responses",
        "HTTP/1.1",
        "200 OK",
        &Vec::new(),
        "{\"answer\":\"hello\"}",
    );
    let contents = format!("{asked}{answered}");
    assert!(contents.contains("===== OPENAI REQUEST ====="));
    assert!(contents.contains("authorization: Bearer secret"));
    assert!(contents.contains("{\"prompt\":\"hello\"}"));
    assert!(contents.contains("===== OPENAI RESPONSE ====="));
    assert!(contents.contains("{\"answer\":\"hello\"}"));
}

#[test]
fn debug_file_is_lazy_and_appends() {
    let mut output = DebugOutput::file("/logs/debug.log".to_owned());
    assert!(output.is_enabled());
    assert_eq!(output.write_all(), DebugAction::OpenToAppend);
    output.opened();
    assert_eq!(output.write_all(), DebugAction::Write);
}

#[test]
fn debug_file_never_falls_back_when_it_cannot_be_opened() {
    let path = "/missing/debug.log";
    let output = DebugOutput::file(path.to_owned());
    assert!(output.failure(DebugFault::Open).contains(path));
    assert_eq!(output.write_all(), DebugAction::OpenToAppend);
    assert_eq!(DebugOutput::asked(None).write_all(), DebugAction::Skip);
    assert_eq!(DebugOutput::asked(Some(None)).write_all(), DebugAction::Print);
    assert_eq!(
        DebugOutput::asked(Some(None)).failure(DebugFault::Flush),
        "cannot flush OpenAI debug output to stderr"
    );
}

#[test]
fn warnings_are_told_where_the_screen_is_free() {
    assert!(DiagnosticLog::Stderr.warning());
    let log = DiagnosticLog::Tui(TuiLogState::tui_in(Platform::Linux, None, "/tmp", "now", 1));
    assert!(!log.warning());
    assert_eq!(log.report().path, None);
}

#[test]
fn changes_of_profiles_are_told() {
    let mut config = Config { providers: Table::new(), active_provider: "openai".to_owned() };
    config.add_provider("openai", provider(), false);
    assert!(config.take_provider("other").is_none());
    assert_eq!(config.take_provider("openai").unwrap().model, "auto");
    assert_eq!(
        change_message(&ProviderChange::Saved("a".to_owned()), "/c.toml"),
        "Provider \"a\" saved in /c.toml."
    );
    assert_eq!(
        change_message(&ProviderChange::Used("a".to_owned()), "/c.toml"),
        "Provider \"a\" will be used for new sessions."
    );
}

#[test]
fn instructions_stand_beside_the_settings() {
    assert_eq!(
        default_instructions_path(Platform::Linux, "/root/.test-global-config"),
        "/root/.test-global-config/AGENTS.md"
    );
}
