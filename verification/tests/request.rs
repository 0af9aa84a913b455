use local_mlx::request::{
    ExtraBody, LanguageModelRequest, LanguageModelRequestMessage, LanguageModelRequestTool,
    LanguageModelToolChoice, LanguageModelToolResult, LanguageModelToolResultContent,
    LanguageModelToolUse, LocalMlxMessage, LocalMlxRequest, MessageContent, Role, ToolChoice,
    ToolDef,
};

fn request(messages: Vec<(Role, Vec<MessageContent>)>) -> LanguageModelRequest<f32> {
    LanguageModelRequest {
        messages: messages
            .into_iter()
            .map(|(role, content)| LanguageModelRequestMessage { role, content })
            .collect(),
        tools: Vec::new(),
        tool_choice: None,
        stop: Vec::new(),
        temperature: None,
    }
}

fn text(text: &str) -> MessageContent {
    MessageContent::Text(text.to_string())
}

fn tool_use(id: &str, name: &str, input: &str) -> MessageContent {
    MessageContent::ToolUse(LanguageModelToolUse {
        id: id.to_string(),
        name: name.to_string(),
        raw_input: input.to_string(),
        input: serde_json::from_str(input).expect("json"),
        is_input_complete: true,
        thought_signature: None,
    })
}

fn tool_result(id: &str, texts: &[&str]) -> MessageContent {
    let mut content = Vec::new();
    for t in texts {
        content.push(LanguageModelToolResultContent::Text(t.to_string()));
        content.push(LanguageModelToolResultContent::Other);
    }
    MessageContent::ToolResult(LanguageModelToolResult {
        tool_use_id: id.to_string(),
        content,
    })
}

fn sent(messages: Vec<(Role, Vec<MessageContent>)>) -> Vec<LocalMlxMessage> {
    LocalMlxRequest::from_language_model_request(
        request(messages),
        "m",
        10,
        None,
        None,
        None,
        None,
    )
    .messages
}

#[test]
fn parameters_are_passed_on() {
    let mut from = request(Vec::new());
    from.stop = vec!["END".to_string()];
    from.temperature = Some(0.5);
    from.tool_choice = Some(LanguageModelToolChoice::Any);
    from.tools.push(LanguageModelRequestTool {
        name: "t".to_string(),
        description: "d".to_string(),
        input_schema: serde_json::from_str(r#"{"type":"object"}"#).expect("json"),
    });
    let made = LocalMlxRequest::from_language_model_request(
        from,
        "org/m",
        32768,
        Some(false),
        Some(1.1),
        Some(0.95),
        Some(40),
    );
    assert_eq!(made.model, "org/m");
    assert!(made.stream);
    assert_eq!(made.max_tokens, Some(32768));
    assert_eq!(made.stop, ["END"]);
    assert_eq!(made.temperature, Some(0.5));
    assert_eq!(made.repeat_penalty, Some(1.1));
    assert_eq!(made.top_p, Some(0.95));
    assert_eq!(made.top_k, Some(40));
    assert_eq!(made.frequency_penalty, None);
    assert_eq!(made.tool_choice, Some(ToolChoice::Required));
    assert_eq!(
        made.extra_body,
        Some(ExtraBody {
            enable_thinking: Some(false)
        })
    );
    assert_eq!(made.tools.len(), 1);
    let ToolDef::Function { function } = &made.tools[0];
    assert_eq!(function.name, "t");
    assert_eq!(function.description.as_deref(), Some("d"));
    let parameters = function.parameters.as_ref().expect("parameters");
    assert_eq!(parameters["type"], "object");
}

#[test]
fn choices_of_tools_are_passed_on() {
    for (choice, expected) in [
        (LanguageModelToolChoice::Auto, ToolChoice::Auto),
        (LanguageModelToolChoice::Any, ToolChoice::Required),
        (LanguageModelToolChoice::Never, ToolChoice::Never),
    ] {
        let mut from = request(Vec::new());
        from.tool_choice = Some(choice);
        let made = LocalMlxRequest::from_language_model_request(
            from, "m", 1, None, None, None, None,
        );
        assert_eq!(made.tool_choice, Some(expected));
        assert_eq!(made.extra_body, None);
        assert_eq!(made.top_k, None);
    }
}

#[test]
fn a_conversation_is_sent_in_order() {
    let messages = sent(vec![
        (Role::System, vec![text("be "), text("brief")]),
        (Role::User, vec![text("a"), MessageContent::Other, text("b ")]),
        (
            Role::Assistant,
            vec![text("ok"), tool_use("c1", "run", r#"{ "x": [1, 2] }"#)],
        ),
        (
            Role::User,
            vec![
                text("dropped"),
                tool_result("c1", &["one", "two"]),
                tool_result("c2", &[]),
            ],
        ),
        (Role::Assistant, vec![text("done")]),
    ]);
    assert_eq!(messages.len(), 6);
    assert!(matches!(&messages[0], LocalMlxMessage::System { content } if content == "be brief"));
    assert!(matches!(&messages[1], LocalMlxMessage::User { content } if content == "ab "));
    match &messages[2] {
        LocalMlxMessage::Assistant {
            content,
            tool_calls,
        } => {
            assert_eq!(content.as_deref(), Some("ok"));
            assert_eq!(tool_calls.len(), 1);
            assert_eq!(tool_calls[0].id, "c1");
            assert_eq!(tool_calls[0].call_type, "function");
            assert_eq!(tool_calls[0].function.name, "run");
            assert_eq!(tool_calls[0].function.arguments, r#"{"x":[1,2]}"#);
        }
        other => panic!("{:?}", other),
    }
    assert!(
        matches!(&messages[3], LocalMlxMessage::Tool { content, tool_call_id }
            if content == "one\ntwo" && tool_call_id == "c1")
    );
    assert!(
        matches!(&messages[4], LocalMlxMessage::Tool { content, tool_call_id }
            if content.is_empty() && tool_call_id == "c2")
    );
    assert!(
        matches!(&messages[5], LocalMlxMessage::Assistant { content: Some(content), tool_calls }
            if content == "done" && tool_calls.is_empty())
    );
}

#[test]
fn messages_that_say_nothing_are_not_sent() {
    assert!(sent(vec![
        (Role::User, vec![text(" \n")]),
        (Role::User, vec![MessageContent::Other]),
        (Role::User, vec![tool_use("c", "n", "1")]),
        (Role::System, vec![text("")]),
        (Role::Assistant, vec![text(""), MessageContent::Other]),
        (Role::Assistant, vec![]),
    ])
    .is_empty());
    // White space alone is sent where the system or the model said it.
    let messages = sent(vec![
        (Role::System, vec![text(" ")]),
        (Role::Assistant, vec![text(" ")]),
        (Role::Assistant, vec![tool_use("c", "n", "null")]),
    ]);
    assert_eq!(messages.len(), 3);
    assert!(
        matches!(&messages[2], LocalMlxMessage::Assistant { content: None, tool_calls }
            if tool_calls.len() == 1 && tool_calls[0].function.arguments == "null")
    );
}
