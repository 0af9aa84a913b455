//! Requests to the server: a conversation, made into the messages, the tools and
//! the parameters that the server's chat interface takes.
use vstd::prelude::*;

use crate::json::{json_text, value_to_string};
use crate::lines::{join_strings, joined, strings};
use crate::search::push_all;
use crate::text::{chars_of, string_of, trim, trim_chars};

verus! {

/// Who speaks.
#[derive(Clone, Copy, Debug, PartialEq, Eq, Structural)]
pub enum Role {
    User,
    Assistant,
    System,
}

/// A call of a tool by the model.
#[derive(Debug)]
pub struct LanguageModelToolUse {
    pub id: String,
    pub name: String,
    /// The arguments as the model wrote them.
    pub raw_input: String,
    /// The arguments as JSON.
    pub input: serde_json::Value,
    pub is_input_complete: bool,
    pub thought_signature: Option<String>,
}

/// A piece of what a tool gave back.
#[derive(Debug)]
pub enum LanguageModelToolResultContent {
    Text(String),
    /// What cannot be sent as text, such as an image.
    Other,
}

/// What a tool gave back.
#[derive(Debug)]
pub struct LanguageModelToolResult {
    pub tool_use_id: String,
    pub content: Vec<LanguageModelToolResultContent>,
}

/// A piece of a message.
#[derive(Debug)]
pub enum MessageContent {
    Text(String),
    ToolUse(LanguageModelToolUse),
    ToolResult(LanguageModelToolResult),
    /// What the server is not sent, such as an image or a thought.
    Other,
}

/// A message of the conversation.
#[derive(Debug)]
pub struct LanguageModelRequestMessage {
    pub role: Role,
    pub content: Vec<MessageContent>,
}

/// A tool that the model may call.
#[derive(Debug)]
pub struct LanguageModelRequestTool {
    pub name: String,
    pub description: String,
    pub input_schema: serde_json::Value,
}

/// Whether the model may, must or must not call tools.
#[derive(Clone, Copy, Debug, PartialEq, Eq, Structural)]
pub enum LanguageModelToolChoice {
    Auto,
    Any,
    Never,
}

/// A request to a language model. `F` is the type of its real numbers.
#[derive(Debug)]
pub struct LanguageModelRequest<F> {
    pub messages: Vec<LanguageModelRequestMessage>,
    pub tools: Vec<LanguageModelRequestTool>,
    pub tool_choice: Option<LanguageModelToolChoice>,
    pub stop: Vec<String>,
    pub temperature: Option<F>,
}

/// A request to the server. `F` is the type of its real numbers.
#[derive(Debug)]
pub struct LocalMlxRequest<F> {
    pub model: String,
    pub messages: Vec<LocalMlxMessage>,
    pub stream: bool,
    pub max_tokens: Option<u64>,
    pub stop: Vec<String>,
    pub temperature: Option<F>,
    pub top_p: Option<F>,
    pub top_k: Option<u32>,
    pub repeat_penalty: Option<F>,
    pub frequency_penalty: Option<F>,
    pub tools: Vec<ToolDef>,
    pub tool_choice: Option<ToolChoice>,
    pub extra_body: Option<ExtraBody>,
}

/// Parameters that only some servers know.
#[derive(Clone, Copy, Debug, PartialEq, Eq, Structural)]
pub struct ExtraBody {
    pub enable_thinking: Option<bool>,
}

/// A tool, as the server is told of it.
#[derive(Debug)]
pub enum ToolDef {
    Function { function: FunctionDef },
}

/// A function that the model may call.
#[derive(Debug)]
pub struct FunctionDef {
    pub name: String,
    pub description: Option<String>,
    pub parameters: Option<serde_json::Value>,
}

/// Whether the model may, must or must not call tools, as the server is told.
#[derive(Clone, Copy, Debug, PartialEq, Eq, Structural)]
pub enum ToolChoice {
    Auto,
    Required,
    Never,
}

/// A message, as the server is sent it.
#[derive(Debug)]
pub enum LocalMlxMessage {
    User { content: String },
    Assistant { content: Option<String>, tool_calls: Vec<ToolCallChunk> },
    System { content: String },
    Tool { content: String, tool_call_id: String },
}

/// A call of a tool, as the server is sent it.
#[derive(Debug)]
pub struct ToolCallChunk {
    pub id: String,
    pub call_type: String,
    pub function: ToolCallFunction,
}

/// The function that is called, and its arguments as JSON text.
#[derive(Debug)]
pub struct ToolCallFunction {
    pub name: String,
    pub arguments: String,
}

/// What a [`ToolCallChunk`] holds.
pub struct ToolCallView {
    pub id: Seq<char>,
    pub call_type: Seq<char>,
    pub name: Seq<char>,
    pub arguments: Seq<char>,
}

impl View for ToolCallChunk {
    type V = ToolCallView;

    open spec fn view(&self) -> ToolCallView {
        ToolCallView {
            id: self.id@,
            call_type: self.call_type@,
            name: self.function.name@,
            arguments: self.function.arguments@,
        }
    }
}

/// What a sequence of calls holds.
pub open spec fn call_views(calls: Seq<ToolCallChunk>) -> Seq<ToolCallView> {
    calls.map_values(|call: ToolCallChunk| call@)
}

/// What a [`LocalMlxMessage`] holds.
pub enum MessageView {
    User { content: Seq<char> },
    Assistant { content: Option<Seq<char>>, tool_calls: Seq<ToolCallView> },
    System { content: Seq<char> },
    Tool { content: Seq<char>, tool_call_id: Seq<char> },
}

impl View for LocalMlxMessage {
    type V = MessageView;

    open spec fn view(&self) -> MessageView {
        match *self {
            LocalMlxMessage::User { content } => MessageView::User { content: content@ },
            LocalMlxMessage::Assistant { content, tool_calls } => MessageView::Assistant {
                content: match content {
                    Some(content) => Some(content@),
                    None => None,
                },
                tool_calls: call_views(tool_calls@),
            },
            LocalMlxMessage::System { content } => MessageView::System { content: content@ },
            LocalMlxMessage::Tool { content, tool_call_id } => MessageView::Tool {
                content: content@,
                tool_call_id: tool_call_id@,
            },
        }
    }
}

/// What a sequence of messages holds.
pub open spec fn message_views(messages: Seq<LocalMlxMessage>) -> Seq<MessageView> {
    messages.map_values(|message: LocalMlxMessage| message@)
}

/// What a [`ToolDef`] holds.
pub struct ToolDefView {
    pub name: Seq<char>,
    pub description: Option<Seq<char>>,
    pub parameters: Option<serde_json::Value>,
}

impl View for ToolDef {
    type V = ToolDefView;

    open spec fn view(&self) -> ToolDefView {
        match *self {
            ToolDef::Function { function } => ToolDefView {
                name: function.name@,
                description: match function.description {
                    Some(description) => Some(description@),
                    None => None,
                },
                parameters: function.parameters,
            },
        }
    }
}

/// What a sequence of tools holds.
pub open spec fn tool_views(tools: Seq<ToolDef>) -> Seq<ToolDefView> {
    tools.map_values(|tool: ToolDef| tool@)
}

/// All the text in a message, one piece right behind the other.
pub open spec fn text_in(content: Seq<MessageContent>) -> Seq<char>
    decreases content.len(),
{
    if content.len() == 0 {
        Seq::empty()
    } else {
        text_in(content.drop_last()) + (match content.last() {
            MessageContent::Text(text) => text@,
            _ => Seq::empty(),
        })
    }
}

/// The call that the server is sent for the tool use `tool_use`.
pub open spec fn call_of(tool_use: LanguageModelToolUse) -> ToolCallView {
    ToolCallView {
        id: tool_use.id@,
        call_type: "function"@,
        name: tool_use.name@,
        arguments: json_text(tool_use.input),
    }
}

/// The calls of tools in a message, in order.
pub open spec fn calls_in(content: Seq<MessageContent>) -> Seq<ToolCallView>
    decreases content.len(),
{
    if content.len() == 0 {
        Seq::empty()
    } else {
        match content.last() {
            MessageContent::ToolUse(tool_use) => calls_in(content.drop_last()).push(
                call_of(tool_use),
            ),
            _ => calls_in(content.drop_last()),
        }
    }
}

/// The pieces of text in what a tool gave back, in order.
pub open spec fn result_texts(content: Seq<LanguageModelToolResultContent>) -> Seq<Seq<char>>
    decreases content.len(),
{
    if content.len() == 0 {
        Seq::empty()
    } else {
        match content.last() {
            LanguageModelToolResultContent::Text(text) => result_texts(content.drop_last()).push(
                text@,
            ),
            _ => result_texts(content.drop_last()),
        }
    }
}

/// The message that the server is sent for the tool result `result`.
pub open spec fn result_message(result: LanguageModelToolResult) -> MessageView {
    MessageView::Tool {
        content: joined(result_texts(result.content@), "\n"@),
        tool_call_id: result.tool_use_id@,
    }
}

/// The messages that the server is sent for the tool results in a message, in
/// order.
pub open spec fn results_in(content: Seq<MessageContent>) -> Seq<MessageView>
    decreases content.len(),
{
    if content.len() == 0 {
        Seq::empty()
    } else {
        match content.last() {
            MessageContent::ToolResult(result) => results_in(content.drop_last()).push(
                result_message(result),
            ),
            _ => results_in(content.drop_last()),
        }
    }
}

/// The messages that the server is sent for one message of the conversation: its
/// tool results, if it has any; else its text and its calls, if they are worth
/// sending.
pub open spec fn sent_for(message: LanguageModelRequestMessage) -> Seq<MessageView> {
    let content = message.content@;
    let text = text_in(content);
    if results_in(content).len() > 0 {
        results_in(content)
    } else {
        match message.role {
            Role::User => if trim(text).len() > 0 {
                seq![MessageView::User { content: text }]
            } else {
                Seq::empty()
            },
            Role::System => if text.len() > 0 {
                seq![MessageView::System { content: text }]
            } else {
                Seq::empty()
            },
            Role::Assistant => if text.len() > 0 || calls_in(content).len() > 0 {
                seq![
                    MessageView::Assistant {
                        content: if text.len() > 0 {
                            Some(text)
                        } else {
                            None
                        },
                        tool_calls: calls_in(content),
                    },
                ]
            } else {
                Seq::empty()
            },
        }
    }
}

/// The messages that the server is sent for a conversation.
pub open spec fn sent_for_all(messages: Seq<LanguageModelRequestMessage>) -> Seq<MessageView>
    decreases messages.len(),
{
    if messages.len() == 0 {
        Seq::empty()
    } else {
        sent_for_all(messages.drop_last()) + sent_for(messages.last())
    }
}

/// What the server is told of the tool `tool`.
pub open spec fn told_of(tool: LanguageModelRequestTool) -> ToolDefView {
    ToolDefView {
        name: tool.name@,
        description: Some(tool.description@),
        parameters: Some(tool.input_schema),
    }
}

/// What the server is told of the tools `tools`.
pub open spec fn told_of_all(tools: Seq<LanguageModelRequestTool>) -> Seq<ToolDefView> {
    tools.map_values(|tool: LanguageModelRequestTool| told_of(tool))
}

/// The server's word for a tool choice.
pub open spec fn choice_word(choice: Option<LanguageModelToolChoice>) -> Option<ToolChoice> {
    match choice {
        Some(LanguageModelToolChoice::Auto) => Some(ToolChoice::Auto),
        Some(LanguageModelToolChoice::Any) => Some(ToolChoice::Required),
        Some(LanguageModelToolChoice::Never) => Some(ToolChoice::Never),
        None => None,
    }
}

/// Whether `local` is the request to the server for `request`: a streamed one,
/// with the conversation, the tools and the parameters as the server takes them.
pub open spec fn stands_for<F>(
    local: LocalMlxRequest<F>,
    request: LanguageModelRequest<F>,
    model_name: Seq<char>,
    max_output_tokens: u64,
    enable_thinking: Option<bool>,
    repeat_penalty: Option<F>,
    top_p: Option<F>,
    top_k: Option<u32>,
) -> bool {
    &&& local.model@ == model_name
    &&& message_views(local.messages@) == sent_for_all(request.messages@)
    &&& local.stream
    &&& local.max_tokens == Some(max_output_tokens)
    &&& local.stop == request.stop
    &&& local.temperature == request.temperature
    &&& local.top_p == top_p
    &&& local.top_k == top_k
    &&& local.repeat_penalty == repeat_penalty
    &&& local.frequency_penalty is None
    &&& tool_views(local.tools@) == told_of_all(request.tools@)
    &&& local.tool_choice == choice_word(request.tool_choice)
    &&& local.extra_body == (match enable_thinking {
        Some(_) => Some(ExtraBody { enable_thinking }),
        None => None,
    })
}

/// A conversation is sent message by message: what is sent for two parts of it,
/// one behind the other, is what is sent for the whole.
pub proof fn conversation_is_sent_in_order(
    first: Seq<LanguageModelRequestMessage>,
    second: Seq<LanguageModelRequestMessage>,
)
    ensures
        sent_for_all(first + second) == sent_for_all(first) + sent_for_all(second),
    decreases second.len(),
{
    if second.len() == 0 {
        assert(first + second =~= first);
        assert(sent_for_all(first) + sent_for_all(second) =~= sent_for_all(first));
    } else {
        conversation_is_sent_in_order(first, second.drop_last());
        assert((first + second).drop_last() =~= first + second.drop_last());
        assert(sent_for_all(first + second) =~= sent_for_all(first) + sent_for_all(second));
    }
}

/// Whether a message to the server says something: a user's message is not
/// blank, a system message not empty, and the assistant says or calls something.
pub open spec fn says_something(message: MessageView) -> bool {
    match message {
        MessageView::User { content } => trim(content).len() > 0,
        MessageView::System { content } => content.len() > 0,
        MessageView::Assistant { content, tool_calls } => {
            &&& content is Some || tool_calls.len() > 0
            &&& content is Some ==> content->0.len() > 0
        },
        MessageView::Tool { .. } => true,
    }
}

/// No message is sent that says nothing.
pub proof fn every_message_sent_says_something(messages: Seq<LanguageModelRequestMessage>)
    ensures
        forall|i: int|
            0 <= i < sent_for_all(messages).len() ==> says_something(
                #[trigger] sent_for_all(messages)[i],
            ),
    decreases messages.len(),
{
    if messages.len() > 0 {
        every_message_sent_says_something(messages.drop_last());
        let before = sent_for_all(messages.drop_last());
        lemma_results_are_tool_messages(messages.last().content@);
        assert forall|i: int| 0 <= i < sent_for_all(messages).len() implies says_something(
            #[trigger] sent_for_all(messages)[i],
        ) by {
            if i < before.len() {
                assert(sent_for_all(messages)[i] == before[i]);
            } else {
                assert(sent_for_all(messages)[i] == sent_for(messages.last())[i - before.len()]);
            }
        }
    }
}

proof fn lemma_results_are_tool_messages(content: Seq<MessageContent>)
    ensures
        forall|i: int|
            0 <= i < results_in(content).len() ==> #[trigger] results_in(content)[i] is Tool,
    decreases content.len(),
{
    if content.len() > 0 {
        lemma_results_are_tool_messages(content.drop_last());
    }
}

/// A message with tool results is answered for by these alone: one message each,
/// under the identifier of the call that it answers.
pub proof fn tool_results_go_alone(message: LanguageModelRequestMessage, k: int)
    requires
        0 <= k < message.content@.len(),
        message.content@[k] is ToolResult,
    ensures
        sent_for(message) == results_in(message.content@),
        sent_for(message).contains(result_message(message.content@[k]->ToolResult_0)),
        forall|i: int| 0 <= i < sent_for(message).len() ==> #[trigger] sent_for(message)[i] is Tool,
{
    lemma_result_is_sent(message.content@, k);
    lemma_results_are_tool_messages(message.content@);
}

proof fn lemma_result_is_sent(content: Seq<MessageContent>, k: int)
    requires
        0 <= k < content.len(),
        content[k] is ToolResult,
    ensures
        results_in(content).contains(result_message(content[k]->ToolResult_0)),
    decreases content.len(),
{
    let sent = result_message(content[k]->ToolResult_0);
    if k == content.len() - 1 {
        assert(results_in(content)[results_in(content).len() - 1] == sent);
    } else {
        lemma_result_is_sent(content.drop_last(), k);
        let shorter = results_in(content.drop_last());
        let i = choose|i: int| 0 <= i < shorter.len() && shorter[i] == sent;
        assert(results_in(content)[i] == sent);
    }
}

/// All the text in a message.
fn text_of(content: &Vec<MessageContent>) -> (text: Vec<char>)
    ensures
        text@ == text_in(content@),
{
    let mut text: Vec<char> = Vec::new();
    let mut i: usize = 0;
    assert(content@.take(0) =~= Seq::empty());
    while i < content.len()
        invariant
            i <= content@.len(),
            text@ == text_in(content@.take(i as int)),
        decreases content@.len() - i,
    {
        let ghost next = content@.take(i + 1);
        assert(next.drop_last() =~= content@.take(i as int));
        match &content[i] {
            MessageContent::Text(piece) => {
                push_all(&mut text, &chars_of(piece.as_str()));
            },
            _ => {
                assert(text@ + Seq::<char>::empty() =~= text@);
            },
        }
        i += 1;
    }
    assert(content@.take(content@.len() as int) =~= content@);
    text
}

/// The calls of tools in a message.
fn calls_of(content: &Vec<MessageContent>) -> (calls: Vec<ToolCallChunk>)
    ensures
        call_views(calls@) == calls_in(content@),
{
    let mut calls: Vec<ToolCallChunk> = Vec::new();
    let mut i: usize = 0;
    assert(content@.take(0) =~= Seq::empty());
    assert(call_views(calls@) =~= Seq::empty());
    while i < content.len()
        invariant
            i <= content@.len(),
            call_views(calls@) == calls_in(content@.take(i as int)),
        decreases content@.len() - i,
    {
        let ghost next = content@.take(i + 1);
        let ghost before = calls@;
        assert(next.drop_last() =~= content@.take(i as int));
        match &content[i] {
            MessageContent::ToolUse(tool_use) => {
                let arguments = match value_to_string(&tool_use.input) {
                    Ok(text) => text,
                    Err(_) => String::new(),
                };
                let call = ToolCallChunk {
                    id: tool_use.id.clone(),
                    call_type: "function".to_owned(),
                    function: ToolCallFunction { name: tool_use.name.clone(), arguments },
                };
                assert(call@ == call_of(*tool_use));
                calls.push(call);
                assert(call_views(calls@) =~= call_views(before).push(call_of(*tool_use)));
            },
            _ => {},
        }
        i += 1;
    }
    assert(content@.take(content@.len() as int) =~= content@);
    calls
}

/// The message for what a tool gave back.
fn message_for_result(result: &LanguageModelToolResult) -> (message: LocalMlxMessage)
    ensures
        message@ == result_message(*result),
{
    let content = &result.content;
    let mut pieces: Vec<String> = Vec::new();
    let mut i: usize = 0;
    assert(content@.take(0) =~= Seq::empty());
    assert(strings(pieces@) =~= Seq::empty());
    while i < content.len()
        invariant
            i <= content@.len(),
            strings(pieces@) == result_texts(content@.take(i as int)),
        decreases content@.len() - i,
    {
        let ghost next = content@.take(i + 1);
        let ghost before = pieces@;
        assert(next.drop_last() =~= content@.take(i as int));
        match &content[i] {
            LanguageModelToolResultContent::Text(text) => {
                pieces.push(text.clone());
                assert(strings(pieces@) =~= strings(before).push(text@));
            },
            _ => {},
        }
        i += 1;
    }
    assert(content@.take(content@.len() as int) =~= content@);
    LocalMlxMessage::Tool {
        content: join_strings(&pieces, "\n"),
        tool_call_id: result.tool_use_id.clone(),
    }
}

/// The messages for the tool results in a message.
fn messages_for_results(content: &Vec<MessageContent>) -> (messages: Vec<LocalMlxMessage>)
    ensures
        message_views(messages@) == results_in(content@),
{
    let mut messages: Vec<LocalMlxMessage> = Vec::new();
    let mut i: usize = 0;
    assert(content@.take(0) =~= Seq::empty());
    assert(message_views(messages@) =~= Seq::empty());
    while i < content.len()
        invariant
            i <= content@.len(),
            message_views(messages@) == results_in(content@.take(i as int)),
        decreases content@.len() - i,
    {
        let ghost next = content@.take(i + 1);
        let ghost before = messages@;
        assert(next.drop_last() =~= content@.take(i as int));
        match &content[i] {
            MessageContent::ToolResult(result) => {
                messages.push(message_for_result(result));
                assert(message_views(messages@) =~= message_views(before).push(
                    result_message(*result),
                ));
            },
            _ => {},
        }
        i += 1;
    }
    assert(content@.take(content@.len() as int) =~= content@);
    messages
}

/// The messages for one message of the conversation.
fn messages_for(message: &LanguageModelRequestMessage) -> (messages: Vec<LocalMlxMessage>)
    ensures
        message_views(messages@) == sent_for(*message),
{
    let results = messages_for_results(&message.content);
    assert(message_views(results@).len() == results@.len());
    if results.len() > 0 {
        return results;
    }
    let mut messages: Vec<LocalMlxMessage> = Vec::new();
    let text = text_of(&message.content);
    match message.role {
        Role::User => {
            if trim_chars(&text).len() > 0 {
                messages.push(LocalMlxMessage::User { content: string_of(&text) });
            }
        },
        Role::System => {
            if text.len() > 0 {
                messages.push(LocalMlxMessage::System { content: string_of(&text) });
            }
        },
        Role::Assistant => {
            let tool_calls = calls_of(&message.content);
            assert(call_views(tool_calls@).len() == tool_calls@.len());
            if text.len() > 0 || tool_calls.len() > 0 {
                let content: Option<String> = if text.len() > 0 {
                    Some(string_of(&text))
                } else {
                    None
                };
                messages.push(LocalMlxMessage::Assistant { content, tool_calls });
            }
        },
    }
    assert(message_views(messages@) =~= sent_for(*message));
    messages
}

/// The messages for a conversation.
fn messages_for_all(conversation: &Vec<LanguageModelRequestMessage>) -> (messages: Vec<
    LocalMlxMessage,
>)
    ensures
        message_views(messages@) == sent_for_all(conversation@),
{
    let mut messages: Vec<LocalMlxMessage> = Vec::new();
    let mut i: usize = 0;
    assert(conversation@.take(0) =~= Seq::empty());
    assert(message_views(messages@) =~= Seq::empty());
    while i < conversation.len()
        invariant
            i <= conversation@.len(),
            message_views(messages@) == sent_for_all(conversation@.take(i as int)),
        decreases conversation@.len() - i,
    {
        let ghost next = conversation@.take(i + 1);
        let ghost before = messages@;
        assert(next.drop_last() =~= conversation@.take(i as int));
        let mut more = messages_for(&conversation[i]);
        let ghost added = more@;
        messages.append(&mut more);
        assert(message_views(messages@) =~= message_views(before) + message_views(added));
        i += 1;
    }
    assert(conversation@.take(conversation@.len() as int) =~= conversation@);
    messages
}

/// What the server is told of the tools.
fn tools_for(tools: Vec<LanguageModelRequestTool>) -> (out: Vec<ToolDef>)
    ensures
        tool_views(out@) == told_of_all(tools@),
{
    let ghost all = tools@;
    let mut out: Vec<ToolDef> = Vec::new();
    for tool in it: tools.into_iter()
        invariant
            it.seq() == all,
            out@.len() == it.index(),
            forall|i: int| 0 <= i < out@.len() ==> (#[trigger] out@[i])@ == told_of(all[i]),
    {
        let LanguageModelRequestTool { name, description, input_schema } = tool;
        out.push(
            ToolDef::Function {
                function: FunctionDef {
                    name,
                    description: Some(description),
                    parameters: Some(input_schema),
                },
            },
        );
    }
    assert(tool_views(out@) =~= told_of_all(all));
    out
}

impl<F> LocalMlxRequest<F> {
    /// The request to the server for `request`, to the model called
    /// `model_name`.
    pub fn from_language_model_request(
        request: LanguageModelRequest<F>,
        model_name: &str,
        max_output_tokens: u64,
        enable_thinking: Option<bool>,
        repeat_penalty: Option<F>,
        top_p: Option<F>,
        top_k: Option<u32>,
    ) -> (local: Self)
        ensures
            stands_for(
                local,
                request,
                model_name@,
                max_output_tokens,
                enable_thinking,
                repeat_penalty,
                top_p,
                top_k,
            ),
    {
        let messages = messages_for_all(&request.messages);
        let tools = tools_for(request.tools);
        let tool_choice = match request.tool_choice {
            Some(LanguageModelToolChoice::Auto) => Some(ToolChoice::Auto),
            Some(LanguageModelToolChoice::Any) => Some(ToolChoice::Required),
            Some(LanguageModelToolChoice::Never) => Some(ToolChoice::Never),
            None => None,
        };
        let extra_body = if enable_thinking.is_some() {
            Some(ExtraBody { enable_thinking })
        } else {
            None
        };
        LocalMlxRequest {
            model: model_name.to_owned(),
            messages,
            stream: true,
            max_tokens: Some(max_output_tokens),
            stop: request.stop,
            temperature: request.temperature,
            top_p,
            top_k,
            repeat_penalty,
            frequency_penalty: None,
            tools,
            tool_choice,
            extra_body,
        }
    }
}

/// The calls of a message are those of all its tool uses, each once and in their
/// order: the identifier, the function's name and the input, as JSON text, of each.
/// No other piece calls anything.
pub proof fn every_tool_use_is_called_in_order(
    first: Seq<MessageContent>,
    second: Seq<MessageContent>,
    piece: MessageContent,
)
    ensures
        calls_in(Seq::empty()) == Seq::<ToolCallView>::empty(),
        calls_in(first + second) == calls_in(first) + calls_in(second),
        piece is ToolUse ==> calls_in(seq![piece]) == seq![
            ToolCallView {
                id: piece->ToolUse_0.id@,
                call_type: "function"@,
                name: piece->ToolUse_0.name@,
                arguments: json_text(piece->ToolUse_0.input),
            },
        ],
        !(piece is ToolUse) ==> calls_in(seq![piece]) == Seq::<ToolCallView>::empty(),
    decreases second.len(),
{
    let none = Seq::<MessageContent>::empty();
    assert(seq![piece].drop_last() =~= none);
    assert(calls_in(none) =~= Seq::empty());
    if piece is ToolUse {
        assert(calls_in(seq![piece]) =~= seq![call_of(piece->ToolUse_0)]);
    }
    if second.len() == 0 {
        assert(first + second =~= first);
        assert(calls_in(first) + calls_in(second) =~= calls_in(first));
    } else {
        assert((first + second).drop_last() =~= first + second.drop_last());
        every_tool_use_is_called_in_order(first, second.drop_last(), piece);
        assert(calls_in(first + second) =~= calls_in(first) + calls_in(second));
    }
}

/// A tool use of the assistant, wherever in its message, is in the one message that
/// is sent for it, so that the result which follows answers a call.
pub proof fn every_tool_use_is_sent(message: LanguageModelRequestMessage, k: int)
    requires
        message.role == Role::Assistant,
        forall|i: int|
            0 <= i < message.content@.len() ==> !(#[trigger] message.content@[i] is ToolResult),
        0 <= k < message.content@.len(),
        message.content@[k] is ToolUse,
    ensures
        sent_for(message).len() == 1,
        sent_for(message)[0] is Assistant,
        exists|j: int|
            0 <= j < sent_for(message)[0]->tool_calls.len() && {
                let call = #[trigger] sent_for(message)[0]->tool_calls[j];
                let tool_use = message.content@[k]->ToolUse_0;
                &&& call.id == tool_use.id@
                &&& call.name == tool_use.name@
                &&& call.arguments == json_text(tool_use.input)
            },
{
    let content = message.content@;
    lemma_no_results(content);
    let before = content.take(k);
    let behind = content.skip(k + 1);
    assert(content =~= before + seq![content[k]] + behind);
    every_tool_use_is_called_in_order(before + seq![content[k]], behind, content[k]);
    every_tool_use_is_called_in_order(before, seq![content[k]], content[k]);
    let j = calls_in(before).len() as int;
    assert(calls_in(content)[j] == call_of(content[k]->ToolUse_0));
    assert(sent_for(message)[0]->tool_calls[j] == call_of(content[k]->ToolUse_0));
}

proof fn lemma_no_results(content: Seq<MessageContent>)
    requires
        forall|i: int| 0 <= i < content.len() ==> !(#[trigger] content[i] is ToolResult),
    ensures
        results_in(content).len() == 0,
    decreases content.len(),
{
    if content.len() > 0 {
        assert(!(content[content.len() - 1] is ToolResult));
        assert forall|i: int| 0 <= i < content.drop_last().len() implies !(
        #[trigger] content.drop_last()[i] is ToolResult) by {
            assert(!(content[i] is ToolResult));
        }
        lemma_no_results(content.drop_last());
    }
}

/// The text of a message is all its pieces of text, one right behind the other and
/// character for character.
pub proof fn text_is_put_together_as_it_is(
    first: Seq<MessageContent>,
    second: Seq<MessageContent>,
    piece: MessageContent,
)
    ensures
        text_in(Seq::empty()) == Seq::<char>::empty(),
        text_in(first + second) == text_in(first) + text_in(second),
        text_in(seq![piece]) == (match piece {
            MessageContent::Text(text) => text@,
            _ => Seq::empty(),
        }),
    decreases second.len(),
{
    let none = Seq::<MessageContent>::empty();
    assert(seq![piece].drop_last() =~= none);
    assert(text_in(none) =~= Seq::empty());
    assert(text_in(seq![piece]) =~= (match piece {
        MessageContent::Text(text) => text@,
        _ => Seq::empty(),
    }));
    if second.len() == 0 {
        assert(first + second =~= first);
        assert(text_in(first) + text_in(second) =~= text_in(first));
    } else {
        assert((first + second).drop_last() =~= first + second.drop_last());
        text_is_put_together_as_it_is(first, second.drop_last(), piece);
        assert(text_in(first + second) =~= text_in(first) + text_in(second));
    }
}

/// What a tool gave back is sent as its pieces of text, with line feeds between
/// them, under the identifier of the call that it answers.
pub proof fn a_result_is_sent_as_its_texts(
    result: LanguageModelToolResult,
    first: Seq<LanguageModelToolResultContent>,
    second: Seq<LanguageModelToolResultContent>,
    piece: LanguageModelToolResultContent,
)
    ensures
        result_message(result) == (MessageView::Tool {
            content: joined(result_texts(result.content@), "\n"@),
            tool_call_id: result.tool_use_id@,
        }),
        result_texts(Seq::empty()) == Seq::<Seq<char>>::empty(),
        result_texts(first + second) == result_texts(first) + result_texts(second),
        result_texts(seq![piece]) == (match piece {
            LanguageModelToolResultContent::Text(text) => seq![text@],
            _ => Seq::empty(),
        }),
    decreases second.len(),
{
    let none = Seq::<LanguageModelToolResultContent>::empty();
    assert(seq![piece].drop_last() =~= none);
    assert(result_texts(none) =~= Seq::empty());
    assert(result_texts(seq![piece]) =~= (match piece {
        LanguageModelToolResultContent::Text(text) => seq![text@],
        _ => Seq::empty(),
    }));
    if second.len() == 0 {
        assert(first + second =~= first);
        assert(result_texts(first) + result_texts(second) =~= result_texts(first));
    } else {
        assert((first + second).drop_last() =~= first + second.drop_last());
        a_result_is_sent_as_its_texts(result, first, second.drop_last(), piece);
        assert(result_texts(first + second) =~= result_texts(first) + result_texts(second));
    }
}

/// The tool results of a message are sent each by its own message, in their order.
pub proof fn every_result_is_sent_in_order(
    first: Seq<MessageContent>,
    second: Seq<MessageContent>,
    piece: MessageContent,
)
    ensures
        results_in(Seq::empty()) == Seq::<MessageView>::empty(),
        results_in(first + second) == results_in(first) + results_in(second),
        results_in(seq![piece]) == (match piece {
            MessageContent::ToolResult(result) => seq![result_message(result)],
            _ => Seq::empty(),
        }),
    decreases second.len(),
{
    let none = Seq::<MessageContent>::empty();
    assert(seq![piece].drop_last() =~= none);
    assert(results_in(none) =~= Seq::empty());
    assert(results_in(seq![piece]) =~= (match piece {
        MessageContent::ToolResult(result) => seq![result_message(result)],
        _ => Seq::empty(),
    }));
    if second.len() == 0 {
        assert(first + second =~= first);
        assert(results_in(first) + results_in(second) =~= results_in(first));
    } else {
        assert((first + second).drop_last() =~= first + second.drop_last());
        every_result_is_sent_in_order(first, second.drop_last(), piece);
        assert(results_in(first + second) =~= results_in(first) + results_in(second));
    }
}

/// A message without tool results is sent as one message of the same role, with all
/// its text as it is, and those of the assistant with all its calls; nothing is sent
/// where a user's text is blank, a system's text empty, or the assistant neither
/// says nor calls anything. Only the assistant's message may be without text.
pub proof fn a_message_is_sent_in_its_role(message: LanguageModelRequestMessage)
    requires
        results_in(message.content@).len() == 0,
    ensures
        ({
            let sent = sent_for(message);
            let text = text_in(message.content@);
            let calls = calls_in(message.content@);
            &&& message.role == Role::User ==> {
                &&& trim(text).len() > 0 ==> sent == seq![MessageView::User { content: text }]
                &&& trim(text).len() == 0 ==> sent.len() == 0
            }
            &&& message.role == Role::System ==> {
                &&& text.len() > 0 ==> sent == seq![MessageView::System { content: text }]
                &&& text.len() == 0 ==> sent.len() == 0
            }
            &&& message.role == Role::Assistant ==> {
                &&& text.len() > 0 ==> sent == seq![
                    MessageView::Assistant { content: Some(text), tool_calls: calls },
                ]
                &&& text.len() == 0 && calls.len() > 0 ==> sent == seq![
                    MessageView::Assistant { content: None, tool_calls: calls },
                ]
                &&& text.len() == 0 && calls.len() == 0 ==> sent.len() == 0
            }
        }),
{
}

/// What is sent for a conversation of one message is what is sent for that message.
pub proof fn one_message_is_sent_alone(message: LanguageModelRequestMessage)
    ensures
        sent_for_all(seq![message]) == sent_for(message),
        sent_for_all(Seq::empty()) == Seq::<MessageView>::empty(),
{
    let none = Seq::<LanguageModelRequestMessage>::empty();
    assert(seq![message].drop_last() =~= none);
    assert(sent_for_all(none) =~= Seq::empty());
    assert(sent_for_all(seq![message]) =~= sent_for(message));
}

/// A request to the server asks the model named for a streamed answer to the
/// conversation, within the limit, with the parameters told, and with every tool:
/// its name, its description and the schema of its input. Whether the model is to
/// think is told only where that was set.
pub proof fn a_request_tells_all_that_was_asked<F>(
    local: LocalMlxRequest<F>,
    request: LanguageModelRequest<F>,
    model_name: Seq<char>,
    max_output_tokens: u64,
    enable_thinking: Option<bool>,
    repeat_penalty: Option<F>,
    top_p: Option<F>,
    top_k: Option<u32>,
)
    requires
        stands_for(
            local,
            request,
            model_name,
            max_output_tokens,
            enable_thinking,
            repeat_penalty,
            top_p,
            top_k,
        ),
    ensures
        local.model@ == model_name,
        message_views(local.messages@) == sent_for_all(request.messages@),
        local.stream,
        local.max_tokens == Some(max_output_tokens),
        local.stop == request.stop,
        local.temperature == request.temperature,
        local.top_p == top_p,
        local.top_k == top_k,
        local.repeat_penalty == repeat_penalty,
        local.frequency_penalty is None,
        local.tools@.len() == request.tools@.len(),
        forall|i: int|
            0 <= i < request.tools@.len() ==> {
                let told = (#[trigger] local.tools@[i])->function;
                let tool = request.tools@[i];
                &&& told.name@ == tool.name@
                &&& told.description is Some
                &&& told.description->0@ == tool.description@
                &&& told.parameters == Some(tool.input_schema)
            },
        request.tool_choice is None ==> local.tool_choice is None,
        request.tool_choice == Some(LanguageModelToolChoice::Auto) ==> local.tool_choice == Some(
            ToolChoice::Auto,
        ),
        request.tool_choice == Some(LanguageModelToolChoice::Any) ==> local.tool_choice == Some(
            ToolChoice::Required,
        ),
        request.tool_choice == Some(LanguageModelToolChoice::Never) ==> local.tool_choice == Some(
            ToolChoice::Never,
        ),
        enable_thinking is None ==> local.extra_body is None,
        enable_thinking is Some ==> local.extra_body is Some
            && local.extra_body->0.enable_thinking == enable_thinking,
{
    let told = tool_views(local.tools@);
    assert(told.len() == told_of_all(request.tools@).len());
    assert forall|i: int| 0 <= i < request.tools@.len() implies {
        let told = (#[trigger] local.tools@[i])->function;
        let tool = request.tools@[i];
        &&& told.name@ == tool.name@
        &&& told.description is Some
        &&& told.description->0@ == tool.description@
        &&& told.parameters == Some(tool.input_schema)
    } by {
        assert(told[i] == local.tools@[i]@);
        assert(told[i] == told_of(request.tools@[i]));
    }
}

/// What is told of messages and calls is what they hold, each in its place.
pub proof fn messages_hold_what_they_were_made_of(
    content: String,
    id: String,
    said: Option<String>,
    made: Vec<ToolCallChunk>,
    calls: Seq<ToolCallChunk>,
    messages: Seq<LocalMlxMessage>,
    i: int,
)
    ensures
        (LocalMlxMessage::User { content })@ == (MessageView::User { content: content@ }),
        (LocalMlxMessage::System { content })@ == (MessageView::System { content: content@ }),
        (LocalMlxMessage::Tool { content, tool_call_id: id })@ == (MessageView::Tool {
            content: content@,
            tool_call_id: id@,
        }),
        (LocalMlxMessage::Assistant { content: said, tool_calls: made })@ == (
        MessageView::Assistant {
            content: match said {
                Some(text) => Some(text@),
                None => None,
            },
            tool_calls: call_views(made@),
        }),
        call_views(calls).len() == calls.len(),
        0 <= i < calls.len() ==> call_views(calls)[i] == (ToolCallView {
            id: calls[i].id@,
            call_type: calls[i].call_type@,
            name: calls[i].function.name@,
            arguments: calls[i].function.arguments@,
        }),
        message_views(messages).len() == messages.len(),
        0 <= i < messages.len() ==> message_views(messages)[i] == messages[i]@,
{
}

} // verus!
