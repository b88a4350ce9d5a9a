use codecrab::catalog::{
    default_model_selection, selected_model_is_allowed, CatalogOptionConfig,
    ModelCapabilitiesConfig, ModelCatalogEntry, ReasoningOption, ServiceTierOption,
};
use codecrab::exchange::{AnswerReader, Asked, Exchange, ExchangeAction, ExchangeEvent};
use codecrab::json::{parse_json, Json};
use codecrab::merge::{
    merge_model_catalog, merge_reasoning_options, validate_configured_defaults, CatalogError,
};
use codecrab::message::{FunctionCall, Message, Role, ToolCall};
use codecrab::payload::{chat_payload, responses_payload};
use codecrab::provider::{
    choose_access, compact_error, completion_url, first_choice, is_event_stream, models_url,
    parse_models_response, select_models, Access, AuthError,
};
use codecrab::sse::SseDecoder;
use codecrab::stream::{ChatCompletionStream, ResponsesStream};
use codecrab::table::Table;

fn at<'a>(value: &'a Json, path: &[&str]) -> &'a Json {
    let mut found = value;
    for part in path {
        found = match part.parse::<usize>() {
            Ok(index) => &found.as_array().unwrap()[index],
            Err(_) => found.get(part).unwrap(),
        };
    }
    found
}

fn text_at<'a>(value: &'a Json, path: &[&str]) -> &'a str {
    at(value, path).as_str().unwrap()
}

#[test]
fn chat_completions_payload_enables_parallel_tool_calls() {
    let payload = chat_payload("gpt-test", &Vec::new(), Vec::new(), None, None);
    assert!(matches!(at(&payload, &["parallel_tool_calls"]), Json::Bool(true)));
    assert!(matches!(at(&payload, &["stream"]), Json::Bool(true)));
    assert_eq!(text_at(&payload, &["tool_choice"]), "auto");
    assert!(payload.get("reasoning_effort").is_none());
}

#[test]
fn converts_chat_history_to_responses_tool_items() {
    let messages = vec![
        Message::text(Role::System, "system"),
        Message::text(Role::User, "inspect"),
        Message {
            role: Role::Assistant,
            sequence: None,
            created_at: None,
            content: None,
            tool_calls: Some(vec![ToolCall {
                id: "call_1".to_owned(),
                kind: "function".to_owned(),
                function: FunctionCall {
                    name: "read_file".to_owned(),
                    arguments: r#"{"path":"a.rs"}"#.to_owned(),
                },
            }]),
            tool_call_id: None,
            hidden: false,
        },
        Message {
            role: Role::Tool,
            sequence: None,
            created_at: None,
            content: Some("file contents".to_owned()),
            tool_calls: None,
            tool_call_id: Some("call_1".to_owned()),
            hidden: false,
        },
    ];
    let payload = responses_payload(
        "gpt-test",
        Some("high"),
        Some("fast"),
        &messages,
        &Vec::new(),
        0,
    );
    assert_eq!(text_at(&payload, &["instructions"]), "system");
    assert_eq!(text_at(&payload, &["input", "1", "type"]), "function_call");
    assert_eq!(text_at(&payload, &["input", "2", "type"]), "function_call_output");
    assert!(matches!(at(&payload, &["parallel_tool_calls"]), Json::Bool(true)));
    assert_eq!(text_at(&payload, &["reasoning", "effort"]), "high");
    assert_eq!(text_at(&payload, &["service_tier"]), "fast");
}

const SSE_BODY: &str = "event: response.output_text.delta\n\
data: {\"type\":\"response.output_text.delta\",\"delta\":\"hel\"}\n\n\
event: response.output_text.delta\n\
data: {\"type\":\"response.output_text.delta\",\"delta\":\"lo\"}\n\n\
event: response.output_item.done\n\
data: {\"type\":\"response.output_item.done\",\"item\":{\"type\":\"message\",\"content\":[{\"type\":\"output_text\",\"text\":\"hello\"}]}}\n\n\
event: response.output_item.done\n\
data: {\"type\":\"response.output_item.done\",\"item\":{\"type\":\"function_call\",\"call_id\":\"call_1\",\"name\":\"read_file\",\"arguments\":\"{\\\"path\\\":\\\"a.rs\\\"}\"}}\n\n\
event: response.output_item.done\n\
data: {\"type\":\"response.output_item.done\",\"item\":{\"type\":\"function_call\",\"call_id\":\"call_2\",\"name\":\"read_file\",\"arguments\":\"{\\\"path\\\":\\\"b.rs\\\"}\"}}\n\n\
event: response.completed\n\
data: {\"type\":\"response.completed\",\"response\":{\"id\":\"r\",\"output\":[]}}\n\n";

#[test]
fn parses_text_and_function_calls_from_sse() {
    let mut deltas = Vec::new();
    let mut decoder = SseDecoder::new();
    let mut stream = ResponsesStream::new();
    for data in decoder.push(SSE_BODY.as_bytes()).unwrap() {
        if let Some(delta) = stream.push(&data).unwrap() {
            deltas.push(delta);
        }
    }
    let message = stream.finish().unwrap();
    assert_eq!(message.content.as_deref(), Some("hello"));
    assert_eq!(deltas, vec!["hel".to_owned(), "lo".to_owned()]);
    let calls = message.tool_calls.as_ref().unwrap();
    assert_eq!(calls.len(), 2);
    assert_eq!(calls[0].id, "call_1");
    assert_eq!(calls[1].id, "call_2");
}

#[test]
fn an_answer_reads_the_same_byte_by_byte() {
    let mut whole = AnswerReader::begin(true);
    let (shown, fault) = whole.read(SSE_BODY.as_bytes());
    assert_eq!(fault, None);
    let mut pieces = AnswerReader::begin(true);
    let mut shown_in_pieces = Vec::new();
    for byte in SSE_BODY.as_bytes() {
        let (more, fault) = pieces.read(&[*byte]);
        assert_eq!(fault, None);
        shown_in_pieces.extend(more);
    }
    assert_eq!(shown, shown_in_pieces);
    assert_eq!(pieces.read_rest().1, None);
    let a = whole.finish().unwrap();
    let b = pieces.finish().unwrap();
    assert_eq!(a.content, b.content);
    assert_eq!(a.tool_calls.unwrap().len(), b.tool_calls.unwrap().len());
}

#[test]
fn what_stays_without_an_empty_line_is_read_at_the_end() {
    let mut reader = AnswerReader::begin(false);
    let (shown, fault) =
        reader.read(b"data: {\"choices\":[{\"delta\":{\"content\":\"hi\"}}]}\r\n");
    assert!(shown.is_empty() && fault.is_none());
    let (shown, fault) = reader.read_rest();
    assert_eq!((shown, fault), (vec!["hi".to_owned()], None));
    assert_eq!(reader.finish().unwrap().content.as_deref(), Some("hi"));
}

#[test]
fn faulty_streams_say_what_is_wrong() {
    let mut reader = AnswerReader::begin(true);
    let (_, fault) = reader.read(b"data: {oops\n\n");
    assert!(fault.unwrap().starts_with("invalid event in ChatGPT response stream: "));
    let mut reader = AnswerReader::begin(false);
    let (_, fault) = reader.read(b"data: {oops\n\n");
    assert!(fault.unwrap().starts_with("invalid Chat Completions stream event: "));
    let mut reader = AnswerReader::begin(false);
    let (_, fault) = reader.read(b"data: {\"error\":{\"message\":\"overloaded\"}}\n\n");
    assert_eq!(fault.as_deref(), Some("overloaded"));
    let mut reader = AnswerReader::begin(false);
    let (_, fault) = reader.read(b"data: \xff\n\n");
    assert_eq!(fault.as_deref(), Some(
        "response stream contained invalid UTF-8: invalid utf-8 sequence of 1 bytes from index 6"
    ));
    let silent = AnswerReader::begin(false);
    assert_eq!(silent.finish().err().as_deref(), Some("model returned no message or tool call"));
    let silent = AnswerReader::begin(true);
    assert_eq!(
        silent.finish().err().as_deref(),
        Some("ChatGPT returned no message or tool call")
    );
}

#[test]
fn chat_completion_stream_reassembles_text_and_tool_call_deltas() {
    let mut stream = ChatCompletionStream::new();
    let mut deltas = Vec::new();
    for data in [
        r#"{"choices":[{"delta":{"role":"assistant","content":"hel"}}]}"#,
        r#"{"choices":[{"delta":{"content":"lo","tool_calls":[{"index":0,"id":"call_1","type":"function","function":{"name":"read_","arguments":"{\"path\":"}}]}}]}"#,
        r#"{"choices":[{"delta":{"tool_calls":[{"index":0,"function":{"name":"file","arguments":"\"a.rs\"}"}}]},"finish_reason":"tool_calls"}]}"#,
    ] {
        if let Some(delta) = stream.push(data).unwrap() {
            deltas.push(delta);
        }
    }

    let message = stream.finish().unwrap();

    assert_eq!(message.content.as_deref(), Some("hello"));
    assert_eq!(deltas, vec!["hel".to_owned(), "lo".to_owned()]);
    let call = &message.tool_calls.unwrap()[0];
    assert_eq!(call.id, "call_1");
    assert_eq!(call.function.name, "read_file");
    assert_eq!(call.function.arguments, r#"{"path":"a.rs"}"#);
}

fn option(id: &str, name: Option<&str>) -> CatalogOptionConfig {
    CatalogOptionConfig {
        id: id.to_owned(),
        name: name.map(str::to_owned),
        description: None,
    }
}

#[test]
fn manual_catalog_adds_merges_and_filters_models() {
    let mut remote = ModelCatalogEntry::from_id("remote-model".to_owned());
    remote.display_name = "Remote name".to_owned();
    remote.supported_reasoning_levels = vec![ReasoningOption {
        effort: "low".to_owned(),
        name: String::new(),
        description: "Remote low".to_owned(),
    }];
    remote.input_modalities = vec!["text".to_owned()];
    let mut configured = Table::new();
    configured.insert(
        "remote-model",
        ModelCapabilitiesConfig {
            display_name: Some("Configured name".to_owned()),
            reasoning_levels: vec![option("high", Some("Deep"))],
            input_modalities: vec!["image".to_owned()],
            ..ModelCapabilitiesConfig::default()
        },
    );
    configured.insert(
        "manual-model",
        ModelCapabilitiesConfig {
            reasoning_levels: vec![option("medium", None)],
            service_tiers: vec![option("priority", None)],
            ..ModelCapabilitiesConfig::default()
        },
    );

    let models = merge_model_catalog(
        vec![remote],
        &configured,
        &Some(vec!["manual-model".to_owned(), "remote-model".to_owned()]),
    )
    .unwrap();

    assert_eq!(models[0].slug, "manual-model");
    assert_eq!(models[0].supported_reasoning_levels[0].name, "medium");
    assert_eq!(models[0].service_tiers[0].name, "priority");
    assert_eq!(models[1].display_name, "Configured name");
    assert_eq!(models[1].supported_reasoning_levels[0].name, "low");
    assert_eq!(models[1].supported_reasoning_levels[1].name, "Deep");
    assert_eq!(models[1].input_modalities, vec!["text".to_owned(), "image".to_owned()]);
}

#[test]
fn configured_default_must_exist_after_merge() {
    let mut configured = Table::new();
    configured.insert(
        "manual",
        ModelCapabilitiesConfig {
            default_reasoning_level: Some("missing".to_owned()),
            ..ModelCapabilitiesConfig::default()
        },
    );

    let result = merge_model_catalog(Vec::new(), &configured, &None);

    assert!(result.err().unwrap().message().contains("merged catalog"));
}

#[test]
fn allowed_models_rejects_unknown_model() {
    let result = merge_model_catalog(
        vec![ModelCatalogEntry::from_id("known".to_owned())],
        &Table::new(),
        &Some(vec!["missing".to_owned()]),
    );

    assert!(result.err().unwrap().message().contains("missing"));
}

#[test]
fn selected_model_must_remain_in_allowed_models() {
    let allowed = Some(vec!["allowed".to_owned()]);
    let refused = selected_model_is_allowed("old-session-model", &allowed);
    assert!(refused.unwrap_err().contains("allowed_models"));
    assert!(selected_model_is_allowed("allowed", &allowed).is_ok());
    assert!(selected_model_is_allowed("auto", &allowed).is_ok());
    assert!(selected_model_is_allowed("anything", &None).is_ok());
}

#[test]
fn disabled_models_endpoint_uses_only_manual_catalog() {
    let mut configured = Table::new();
    configured.insert("manual-model", ModelCapabilitiesConfig::default());

    let models = merge_model_catalog(Vec::new(), &configured, &None).unwrap();

    assert_eq!(models.len(), 1);
    assert_eq!(models[0].slug, "manual-model");
    assert!(matches!(
        merge_model_catalog(Vec::new(), &Table::new(), &None),
        Err(CatalogError::Empty)
    ));
}

fn tier(id: &str, name: &str, description: &str) -> ServiceTierOption {
    ServiceTierOption {
        id: id.to_owned(),
        name: name.to_owned(),
        description: description.to_owned(),
    }
}

fn level(effort: &str, description: &str) -> ReasoningOption {
    ReasoningOption {
        effort: effort.to_owned(),
        name: effort.to_owned(),
        description: description.to_owned(),
    }
}

#[test]
fn default_service_tier_is_not_shown_as_a_separate_speed() {
    let mut model = ModelCatalogEntry::from_id("test-model".to_owned());
    model.service_tiers = vec![
        tier("default", "Standard", "Normal speed"),
        tier("priority", "Fast", "Faster responses"),
    ];

    let tiers = model.available_service_tiers();

    assert_eq!(tiers.len(), 1);
    assert_eq!(tiers[0].id, "priority");
    assert_eq!(tiers[0].name, "Fast");
}

#[test]
fn codecrab_default_selects_sol_high_and_catalog_fast_id() {
    let mut sol = ModelCatalogEntry::from_id("gpt-5.6-sol".to_owned());
    sol.display_name = "GPT-5.6-Sol".to_owned();
    sol.default_reasoning_level = Some("low".to_owned());
    sol.supported_reasoning_levels = vec![level("low", "Quick"), level("high", "Deep")];
    sol.service_tiers = vec![tier("provider-fast-id", "Fast", "Faster")];
    let catalog = vec![ModelCatalogEntry::from_id("another-model".to_owned()), sol];

    let selection = default_model_selection(&catalog).unwrap();

    assert_eq!(selection.model, "gpt-5.6-sol");
    assert_eq!(selection.reasoning_effort.as_deref(), Some("high"));
    assert_eq!(selection.service_tier.as_deref(), Some("provider-fast-id"));
}

#[test]
fn fetches_the_provider_catalog_and_parses_capabilities() {
    let mut variant = ModelCatalogEntry::from_id("future-model-variant".to_owned());
    variant.display_name = "Future Model - Variant".to_owned();
    variant.description = Some("A catalog-provided model".to_owned());
    variant.default_reasoning_level = Some("high".to_owned());
    variant.supported_reasoning_levels = vec![level("low", "Faster"), level("high", "Deeper")];
    variant.visibility = "list".to_owned();
    variant.supported_in_api = true;
    variant.priority = 10;
    variant.service_tiers = vec![tier("accelerated", "Accelerated", "Catalog-provided speed")];
    variant.default_service_tier = Some("default".to_owned());

    let models =
        parse_models_response(true, "200 OK", "{}", Some(vec![variant]), None, false).unwrap();

    assert_eq!(models[0].slug, "future-model-variant");
    assert_eq!(models[0].supported_reasoning_levels[1].effort, "high");
    assert_eq!(models[0].service_tiers[0].id, "accelerated");
    assert_eq!(
        models_url(&Access::Api(None), "http://127.0.0.1:1/v1"),
        "http://127.0.0.1:1/v1/models"
    );
}

#[test]
fn answers_that_list_no_models_are_refused() {
    let refused = parse_models_response(
        false,
        "500 Internal Server Error",
        r#"{"error":{"message":"broken"}}"#,
        None,
        None,
        false,
    );
    assert_eq!(
        refused.unwrap_err(),
        "model catalog returned 500 Internal Server Error: broken"
    );
    let named = parse_models_response(
        true,
        "200 OK",
        "",
        None,
        Some(vec!["one".to_owned()]),
        false,
    );
    assert_eq!(named.unwrap()[0].slug, "one");
    let none = parse_models_response(true, "200 OK", "", None, Some(Vec::new()), false);
    assert_eq!(none.unwrap_err(), "the model catalog contains no models");
    let odd = parse_models_response(true, "200 OK", "[]", None, None, false);
    assert_eq!(
        odd.unwrap_err(),
        "model catalog has an unsupported response shape: []"
    );
    let mut hidden = ModelCatalogEntry::from_id("hidden".to_owned());
    hidden.visibility = "hide".to_owned();
    assert!(select_models(&vec![hidden], true)
        .unwrap_err()
        .starts_with("the model catalog contains no selectable models (1 entries, "));
}

#[test]
fn providers_are_asked_as_their_configuration_says() {
    let key = choose_access("openai", "api_key", "sk-test", true, true, false).unwrap();
    assert!(matches!(&key, Access::Api(Some(k)) if k == "sk-test"));
    let subscription = choose_access("openai", "oauth", "", true, true, false).unwrap();
    assert!(matches!(subscription, Access::Subscription));
    assert_eq!(
        completion_url(&subscription, "ignored"),
        "https://chatgpt.com/backend-api/codex/responses"
    );
    assert!(matches!(
        choose_access("local", "oauth", "", false, true, false),
        Err(AuthError::ForeignOAuth)
    ));
    assert!(matches!(
        choose_access("openai", "oauth", "", true, false, false),
        Err(AuthError::NotSignedIn)
    ));
    match choose_access("openai", " Magic ", "", true, false, false) {
        Err(e) => assert_eq!(
            e.message(),
            "invalid auth mode \"magic\"; expected auto, oauth, api_key, or none"
        ),
        Ok(_) => panic!("there is no such mode"),
    }
    assert!(matches!(
        choose_access("local", "api_key", "", false, false, false),
        Err(AuthError::NoKey(_))
    ));
}

#[test]
fn long_errors_are_cut_and_short_ones_are_found() {
    assert_eq!(compact_error(r#"{"error":{"message":"no"}}"#), "no");
    assert_eq!(compact_error(r#"{"detail":{"message":"nein"}}"#), "nein");
    assert_eq!(compact_error(&"x".repeat(600)), "x".repeat(500));
    assert!(is_event_stream(Some("text/event-stream; charset=utf-8")));
    assert!(!is_event_stream(Some("application/json")));
    assert_eq!(first_choice(Vec::new()).err().as_deref(), Some("model returned no choices"));
}

fn response(status: u16, event_stream: bool) -> ExchangeEvent {
    ExchangeEvent::Response { status, status_text: format!("{status}"), event_stream }
}

#[test]
fn a_subscriber_who_is_not_let_in_asks_once_more() {
    let mut exchange = Exchange::begin(Asked::Answer, true);
    assert!(matches!(
        exchange.next(response(401, false)),
        Some(ExchangeAction::Renew)
    ));
    assert!(matches!(
        exchange.next(response(401, false)),
        Some(ExchangeAction::ReadBody)
    ));
    match exchange.next(ExchangeEvent::Body("{\"detail\":{\"message\":\"go away\"}}".to_owned())) {
        Some(ExchangeAction::Fail(m)) => {
            assert_eq!(m, "ChatGPT subscription returned 401: go away")
        }
        other => panic!("{other:?}"),
    }
    assert!(exchange.next(response(200, true)).is_none());
}

#[test]
fn answers_are_read_whole_or_as_they_come() {
    let mut exchange = Exchange::begin(Asked::Answer, false);
    assert!(matches!(
        exchange.next(response(200, false)),
        Some(ExchangeAction::ReadBody)
    ));
    let mut exchange = Exchange::begin(Asked::Answer, false);
    assert!(matches!(
        exchange.next(response(200, true)),
        Some(ExchangeAction::ReadStream)
    ));
    let mut exchange = Exchange::begin(Asked::Models, false);
    match exchange.next(ExchangeEvent::Unsent("offline".to_owned())) {
        Some(ExchangeAction::Fail(m)) => assert_eq!(m, "model catalog request failed: offline"),
        other => panic!("{other:?}"),
    }
    let mut exchange = Exchange::begin(Asked::Answer, false);
    match exchange.next(ExchangeEvent::Idle(30)) {
        Some(ExchangeAction::Fail(m)) => {
            assert_eq!(m, "model request received no data for 30 seconds")
        }
        other => panic!("{other:?}"),
    }
}

#[test]
fn defaults_are_held_to_what_a_model_has() {
    let model = ModelCatalogEntry::from_id("m".to_owned());
    let configured = ModelCapabilitiesConfig {
        default_service_tier: Some("fast".to_owned()),
        ..ModelCapabilitiesConfig::default()
    };
    assert!(validate_configured_defaults(&model, &configured).is_err());
    assert!(validate_configured_defaults(&model, &ModelCapabilitiesConfig::default()).is_ok());
}

#[test]
fn json_is_read_with_its_numbers_and_faults() {
    let value = parse_json(r#"{"a":[1,-2,2.5],"b":null}"#).unwrap();
    assert_eq!(at(&value, &["a", "0"]).as_u64(), Some(1));
    assert_eq!(at(&value, &["a", "1"]).as_u64(), None);
    assert!(matches!(at(&value, &["b"]), Json::Null));
    assert!(parse_json("{").is_err());
}

#[test]
fn options_are_merged_once_and_for_all() {
    let option = |id: &str, name: Option<&str>, description: Option<&str>| CatalogOptionConfig {
        id: id.to_owned(),
        name: name.map(str::to_owned),
        description: description.map(str::to_owned),
    };
    let mut existing = vec![ReasoningOption {
        effort: "low".to_owned(),
        name: "Low".to_owned(),
        description: "Quick".to_owned(),
    }];
    let configured = vec![
        option("high", Some("Hard"), None),
        option("low", None, Some("Fast")),
        option("high", Some("High"), Some("Slow")),
        option("max", None, None),
    ];
    let shown = |options: &Vec<ReasoningOption>| {
        options
            .iter()
            .map(|o| format!("{}/{}/{}", o.effort, o.name, o.description))
            .collect::<Vec<_>>()
    };
    merge_reasoning_options(&mut existing, &configured);
    let once = shown(&existing);
    assert_eq!(once, vec!["low/Low/Fast", "high/High/Slow", "max/max/"]);
    merge_reasoning_options(&mut existing, &configured);
    assert_eq!(shown(&existing), once);
}
