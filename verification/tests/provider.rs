use local_mlx::model_discovery::ModelInfo;
use local_mlx::process_manager::{IdleAction, ProcessManager};
use local_mlx::provider::{
    chat_url, check_status, parse_chunk, start_error, status_text, stream_item, tool_use,
    AuthenticateAction, AvailableModel, ChoiceDelta, Chunk, ConfigurationView, Delta,
    LanguageModelCompletionEvent, LocalMlxLanguageModelProvider, LocalMlxSettings, State,
    StopReason, StreamItem, ToolCallDelta, ToolCallFunc,
};
use local_mlx::request::{
    LanguageModelRequest, LanguageModelRequestMessage, LanguageModelToolChoice, LocalMlxMessage,
    LocalMlxRequest, MessageContent, Role,
};

fn info(id: &str) -> ModelInfo {
    ModelInfo {
        id: id.to_string(),
        display_name: "shown".to_string(),
        max_tokens: 4096,
        supports_tools: true,
        supports_images: false,
        local_path: Some("/hub".to_string()),
    }
}

fn available(name: &str, display_name: Option<&str>) -> AvailableModel<f32> {
    AvailableModel {
        name: name.to_string(),
        display_name: display_name.map(|s| s.to_string()),
        max_tokens: 32768,
        enable_thinking: Some(false),
        repeat_penalty: Some(1.1),
        top_p: None,
        top_k: Some(3),
    }
}

fn settings(models: Vec<AvailableModel<f32>>) -> LocalMlxSettings<f32> {
    LocalMlxSettings {
        available_models: models,
        ..LocalMlxSettings::default()
    }
}

fn ask(text: &str) -> LanguageModelRequest<f32> {
    LanguageModelRequest {
        messages: vec![LanguageModelRequestMessage {
            role: Role::User,
            content: vec![MessageContent::Text(text.to_string())],
        }],
        tools: Vec::new(),
        tool_choice: None,
        stop: Vec::new(),
        temperature: None,
    }
}

#[test]
fn settings_have_the_documented_defaults() {
    let settings: LocalMlxSettings<f32> = LocalMlxSettings::default();
    assert_eq!(settings.server_binary, "mlx_lm.server");
    assert_eq!(
        settings.server_args,
        ["--port", "{port}", "--host", "127.0.0.1"]
    );
    assert_eq!(settings.model_directory, None);
    assert_eq!(settings.idle_timeout_seconds, 300);
    assert!(settings.available_models.is_empty());
}

#[test]
fn configured_models_come_first_and_none_comes_twice() {
    let settings = settings(vec![available("b", Some("Bee")), available("a", None)]);
    let provider =
        LocalMlxLanguageModelProvider::new(&settings, vec![info("x"), info("a"), info("y")]);
    let models = provider.provided_models(&settings);
    let ids: Vec<String> = models.iter().map(|m| m.id()).collect();
    assert_eq!(ids, ["b", "a", "x", "y"]);
    let names: Vec<String> = models.iter().map(|m| m.name()).collect();
    assert_eq!(names, ["Bee", "a", "shown", "shown"]);
    assert_eq!(models[0].max_token_count(), 32768);
    assert_eq!(models[2].max_token_count(), 4096);
    assert_eq!(provider.recommended_models(&settings).len(), 4);
    assert_eq!(
        provider.default_model(&settings).expect("model").id(),
        "b"
    );
    assert_eq!(
        provider.default_fast_model(&settings).expect("model").id(),
        "b"
    );
    assert_eq!(provider.id(), "local-mlx");
    assert_eq!(provider.name(), "Local MLX");
    assert!(provider.is_authenticated(true));
    assert!(!provider.is_authenticated(false));
}

#[test]
fn without_models_nothing_is_offered() {
    let settings = settings(Vec::new());
    let provider = LocalMlxLanguageModelProvider::new(&settings, Vec::new());
    assert!(provider.provided_models(&settings).is_empty());
    assert!(provider.default_model(&settings).is_none());
    assert!(provider.default_fast_model(&settings).is_none());
}

#[test]
fn a_model_tells_of_itself() {
    let settings = settings(Vec::new());
    let provider = LocalMlxLanguageModelProvider::new(&settings, vec![info("org/m")]);
    let model = provider.default_model(&settings).expect("model");
    assert_eq!(model.provider_id(), "local-mlx");
    assert_eq!(model.provider_name(), "Local MLX");
    assert_eq!(model.telemetry_id(), "local-mlx/org/m");
    assert!(model.supports_tools());
    assert!(!model.supports_images());
    assert!(model.supports_tool_choice(LanguageModelToolChoice::Auto));
    assert!(model.supports_tool_choice(LanguageModelToolChoice::Any));
    assert!(model.supports_tool_choice(LanguageModelToolChoice::Never));
    assert_eq!(model.max_output_tokens(), None);
    assert_eq!(model.request_limit(), 1);
    assert_eq!(model.server_binary(), "mlx_lm.server");
    assert_eq!(
        model.server_args(),
        ["--port", "{port}", "--host", "127.0.0.1"]
    );
}

#[test]
fn authentication_starts_the_first_model() {
    let with = settings(vec![available("b", None), available("a", None)]);
    let without = settings(Vec::new());
    let state = LocalMlxLanguageModelProvider::new(&with, Vec::new()).state;
    assert!(!state.is_authenticated(true));
    assert_eq!(state.first_model_from_settings(&with).as_deref(), Some("b"));
    assert_eq!(state.first_model_from_settings(&without), None);
    assert!(matches!(
        state.authenticate(true, &without),
        AuthenticateAction::Ready
    ));
    assert!(matches!(
        state.authenticate(false, &without),
        AuthenticateAction::CredentialsNotFound
    ));
    assert!(matches!(
        state.authenticate(false, &with),
        AuthenticateAction::Start(model) if model == "b"
    ));
}

fn state(idle_timeout_seconds: u64) -> State {
    State {
        discovered_models: vec![info("a"), info("b")],
        server_port: None,
        server_binary: "bin".to_string(),
        server_args: vec!["x".to_string(), "y".to_string()],
        idle_timeout_seconds,
        last_error: None,
    }
}

#[test]
fn errors_are_shown_until_the_server_starts() {
    let mut state = state(300);
    assert_eq!(
        state.server_failed("no"),
        "Failed to start local MLX server: no"
    );
    assert_eq!(start_error("no"), "Failed to start local MLX server: no");
    let view = ConfigurationView::render(&state, "Stopped");
    assert_eq!(view.title, "Local MLX Server");
    assert_eq!(view.status, "Status: Stopped");
    assert_eq!(view.command, "Command: bin x y");
    assert_eq!(view.discovered, "Models discovered: 2");
    assert_eq!(
        view.error.as_deref(),
        Some("Error: Failed to start local MLX server: no")
    );
    assert_eq!(
        view.hint,
        "Configure models in settings.json \u{2192} language_models.local_mlx.available_models"
    );
    let next = state.server_started(99);
    assert_eq!(next.fetch_models_from, "http://127.0.0.1:99/v1/models");
    assert!(next.watch);
    assert_eq!(state.server_port, Some(99));
    assert_eq!(ConfigurationView::render(&state, "").error, None);
}

#[test]
fn the_server_is_not_watched_without_a_timeout() {
    assert!(!state(0).server_started(1).watch);
    assert!(state(1).server_started(1).watch);
}

#[test]
fn the_models_that_the_server_lists_are_offered() {
    let settings = settings(vec![available("b", None)]);
    let mut provider = LocalMlxLanguageModelProvider::new(&settings, Vec::new());
    assert!(matches!(
        provider.state.authenticate(false, &settings),
        AuthenticateAction::Start(model) if model == "b"
    ));
    provider.state.server_started(7);
    assert!(!provider.is_authenticated(true));
    provider.state.models_fetched(vec![info("b"), info("c")]);
    assert!(provider.is_authenticated(true));
    assert!(!provider.is_authenticated(false));
    assert_eq!(provider.state.server_port, Some(7));
    let ids: Vec<String> = provider
        .provided_models(&settings)
        .iter()
        .map(|m| m.id())
        .collect();
    assert_eq!(ids, ["b", "c"]);
}

#[test]
fn the_status_is_shown() {
    assert_eq!(
        status_text(true, false, 80, Some("m")),
        "Running on port 80 (model: m)"
    );
    assert_eq!(
        status_text(true, true, 80, None),
        "Running on port 80 (model: unknown)"
    );
    assert_eq!(status_text(false, true, 80, None), "Starting...");
    assert_eq!(status_text(false, false, 80, Some("m")), "Stopped");
}

#[test]
fn a_request_goes_to_the_server() {
    let settings = settings(vec![available("org/m", None)]);
    let provider = LocalMlxLanguageModelProvider::new(&settings, Vec::new());
    let model = provider.default_model(&settings).expect("model");
    let mut manager = ProcessManager::new(8080, 0);
    let error = model
        .stream_completion(ask("hi"), &mut manager, Err("why".to_string()), 5)
        .unwrap_err();
    assert_eq!(error, "Failed to start local MLX server: why");
    let call = model
        .stream_completion(ask("hi"), &mut manager, Ok(()), 5)
        .expect("call");
    assert_eq!(call.url, "http://127.0.0.1:8080/v1/chat/completions");
    assert_eq!(chat_url(1), "http://127.0.0.1:1/v1/chat/completions");
    assert_eq!(call.content_type, "application/json");
    assert_eq!(call.accept, "text/event-stream");
    assert_eq!(call.body.model, "org/m");
    assert_eq!(call.body.max_tokens, Some(32768));
    assert_eq!(call.body.repeat_penalty, Some(1.1));
    assert_eq!(call.body.top_p, None);
    assert_eq!(call.body.top_k, Some(3));
    assert!(matches!(
        &call.body.messages[0],
        LocalMlxMessage::User { content } if content == "hi"
    ));
    assert_eq!(manager.check_idle(5, 0), IdleAction::Quit);
}

#[test]
fn replies_are_checked() {
    assert_eq!(check_status(200, "200 OK", ""), Ok(()));
    assert_eq!(check_status(299, "", ""), Ok(()));
    assert_eq!(
        check_status(404, "404 Not Found", "gone"),
        Err("Local MLX API error: HTTP 404 Not Found - gone".to_string())
    );
    assert!(check_status(199, "", "").is_err());
    assert!(check_status(300, "", "").is_err());
}

#[test]
fn lines_of_the_stream_are_told_apart() {
    assert!(matches!(
        stream_item(Ok("data: {\"a\": 1}")),
        StreamItem::Chunk(data) if data == "{\"a\": 1}"
    ));
    assert!(matches!(stream_item(Ok("data: ")), StreamItem::Chunk(data) if data.is_empty()));
    assert!(matches!(stream_item(Ok("data: [DONE]")), StreamItem::Skip));
    assert!(matches!(
        stream_item(Ok("data: [DONE] ")),
        StreamItem::Chunk(data) if data == "[DONE] "
    ));
    assert!(matches!(stream_item(Ok("data:{}")), StreamItem::Skip));
    assert!(matches!(stream_item(Ok(": ping")), StreamItem::Skip));
    assert!(matches!(stream_item(Ok("")), StreamItem::Skip));
    assert!(matches!(
        stream_item(Err("broken pipe")),
        StreamItem::Broken(error) if error == "Stream error: broken pipe"
    ));
}

fn call(id: Option<&str>, name: Option<&str>, arguments: Option<&str>) -> ToolCallDelta {
    ToolCallDelta {
        index: 0,
        id: id.map(|s| s.to_string()),
        call_type: None,
        function: Some(ToolCallFunc {
            name: name.map(|s| s.to_string()),
            arguments: arguments.map(|s| s.to_string()),
        }),
    }
}

fn chunk(
    finish_reason: Option<&str>,
    content: Option<&str>,
    tool_calls: Vec<ToolCallDelta>,
) -> Chunk {
    Chunk {
        choices: vec![ChoiceDelta {
            delta: Delta {
                content: content.map(|s| s.to_string()),
                tool_calls,
            },
            finish_reason: finish_reason.map(|s| s.to_string()),
        }],
    }
}

#[test]
fn the_end_of_an_answer_has_a_reason() {
    for (word, expected) in [
        ("stop", StopReason::EndTurn),
        ("length", StopReason::MaxTokens),
        ("tool_calls", StopReason::ToolUse),
        ("else", StopReason::EndTurn),
    ] {
        let event = parse_chunk(&chunk(
            Some(word),
            Some("text"),
            vec![call(Some("c"), Some("n"), None)],
        ));
        assert!(matches!(event, LanguageModelCompletionEvent::Stop(reason) if reason == expected));
    }
}

#[test]
fn the_first_complete_call_is_made() {
    let event = parse_chunk(&chunk(
        None,
        Some("text"),
        vec![
            call(None, Some("n"), Some("{}")),
            call(Some("c"), None, Some("{}")),
            call(Some("c1"), Some("run"), Some(r#"{ "x": 1 }"#)),
            call(Some("c2"), Some("other"), None),
        ],
    ));
    match event {
        LanguageModelCompletionEvent::ToolUse(made) => {
            assert_eq!(made.id, "c1");
            assert_eq!(made.name, "run");
            assert_eq!(made.raw_input, r#"{ "x": 1 }"#);
            assert_eq!(made.input["x"], 1);
            assert!(made.is_input_complete);
            assert_eq!(made.thought_signature, None);
            // It is sent back as it was received.
            let mut request = ask("");
            request.messages[0].role = Role::Assistant;
            request.messages[0].content = vec![MessageContent::ToolUse(made)];
            let sent = LocalMlxRequest::from_language_model_request(
                request, "m", 1, None, None, None, None,
            );
            assert!(matches!(
                &sent.messages[0],
                LocalMlxMessage::Assistant { content: None, tool_calls }
                    if tool_calls[0].id == "c1"
                        && tool_calls[0].function.name == "run"
                        && tool_calls[0].function.arguments == r#"{"x":1}"#
            ));
        }
        other => panic!("{:?}", other),
    }
}

#[test]
fn arguments_that_are_not_json_are_null() {
    for arguments in [None, Some("{\"x\"")] {
        let event = parse_chunk(&chunk(
            None,
            None,
            vec![call(Some("c"), Some("n"), arguments)],
        ));
        match event {
            LanguageModelCompletionEvent::ToolUse(made) => {
                assert_eq!(made.raw_input, arguments.unwrap_or(""));
                assert!(made.input.is_null());
            }
            other => panic!("{:?}", other),
        }
    }
    assert!(tool_use("c", "n", "x", None).input.is_null());
    let made = tool_use("c", "n", "1", Some(serde_json::Value::from(1)));
    assert_eq!(made.input, 1);
}

#[test]
fn everything_else_is_text() {
    let text = |chunk: &Chunk| match parse_chunk(chunk) {
        LanguageModelCompletionEvent::Text(text) => text,
        other => panic!("{:?}", other),
    };
    assert_eq!(text(&chunk(None, Some("hi"), Vec::new())), "hi");
    assert_eq!(text(&chunk(None, Some(""), Vec::new())), "");
    assert_eq!(text(&chunk(None, None, Vec::new())), "");
    assert_eq!(
        text(&Chunk {
            choices: Vec::new()
        }),
        ""
    );
    let mut nothing = call(Some("c"), None, None);
    nothing.function = None;
    assert_eq!(text(&chunk(None, Some("hi"), vec![nothing])), "hi");
}
