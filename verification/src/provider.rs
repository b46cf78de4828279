//! Messages, requests and replies, whatever the provider.
use crate::text;
use crate::text::{cat, copy_opt, same};
use vstd::prelude::*;
use vstd::string::*;

verus! {

broadcast use crate::text::group_views;

/// Who speaks.
#[derive(Clone, Copy, Debug, PartialEq, Eq, Structural)]
pub enum Role {
    System,
    User,
    Assistant,
    Tool,
}

impl Role {
    /// The name of the role in a request and in storage.
    pub open spec fn name_spec(self) -> Seq<char> {
        match self {
            Role::System => "system"@,
            Role::User => "user"@,
            Role::Assistant => "assistant"@,
            Role::Tool => "tool"@,
        }
    }
}

/// A tool that the model asks to run.
#[derive(Debug)]
pub struct ToolCall {
    pub id: String,
    pub name: String,
    /// The arguments as JSON text.
    pub arguments: String,
}

/// What a [`ToolCall`] stands for.
#[verifier::ext_equal]
pub struct CallModel {
    pub id: Seq<char>,
    pub name: Seq<char>,
    pub arguments: Seq<char>,
}

impl View for ToolCall {
    type V = CallModel;

    open spec fn view(&self) -> CallModel {
        CallModel { id: self.id@, name: self.name@, arguments: self.arguments@ }
    }
}

impl ToolCall {
    /// A copy of the call.
    pub fn copy(&self) -> (r: ToolCall)
        ensures
            r@ == self@,
    {
        ToolCall {
            id: self.id.clone(),
            name: self.name.clone(),
            arguments: self.arguments.clone(),
        }
    }
}

/// An image that goes along with a message.
#[derive(Debug)]
pub struct ImageAttachment {
    pub media_type: String,
    /// The image in Base64.
    pub data: String,
}

/// What an [`ImageAttachment`] stands for.
#[verifier::ext_equal]
pub struct ImageModel {
    pub media_type: Seq<char>,
    pub data: Seq<char>,
}

impl View for ImageAttachment {
    type V = ImageModel;

    open spec fn view(&self) -> ImageModel {
        ImageModel { media_type: self.media_type@, data: self.data@ }
    }
}

impl ImageAttachment {
    /// A copy of the image.
    pub fn copy(&self) -> (r: ImageAttachment)
        ensures
            r@ == self@,
    {
        ImageAttachment { media_type: self.media_type.clone(), data: self.data.clone() }
    }
}

/// One message of a conversation.
#[derive(Debug)]
pub struct Message {
    pub role: Role,
    pub content: String,
    /// The tools that an assistant's message asks to run.
    pub tool_calls: Vec<ToolCall>,
    /// The call that a tool's message answers.
    pub tool_call_id: Option<String>,
    pub images: Vec<ImageAttachment>,
}

/// What a [`Message`] stands for.
#[verifier::ext_equal]
pub struct MessageModel {
    pub role: Role,
    pub content: Seq<char>,
    pub tool_calls: Seq<CallModel>,
    pub tool_call_id: Option<Seq<char>>,
    pub images: Seq<ImageModel>,
}

impl View for Message {
    type V = MessageModel;

    open spec fn view(&self) -> MessageModel {
        MessageModel {
            role: self.role,
            content: self.content@,
            tool_calls: text::views(self.tool_calls@),
            tool_call_id: text::opt_view(self.tool_call_id),
            images: text::views(self.images@),
        }
    }
}

/// A message of nothing but text.
pub open spec fn plain(role: Role, content: Seq<char>) -> MessageModel {
    MessageModel {
        role,
        content,
        tool_calls: seq![],
        tool_call_id: None,
        images: seq![],
    }
}

/// Copies of some calls.
pub fn copy_calls(calls: &[ToolCall]) -> (r: Vec<ToolCall>)
    ensures
        text::views(r@) == text::views(calls@),
{
    let mut out: Vec<ToolCall> = Vec::new();
    let mut i: usize = 0;
    while i < calls.len()
        invariant
            i <= calls.len(),
            text::views(out@) =~= text::views(calls@).take(i as int),
        decreases calls.len() - i,
    {
        out.push(calls[i].copy());
        i += 1;
    }
    out
}

/// Copies of some images.
pub fn copy_images(images: &[ImageAttachment]) -> (r: Vec<ImageAttachment>)
    ensures
        text::views(r@) == text::views(images@),
{
    let mut out: Vec<ImageAttachment> = Vec::new();
    let mut i: usize = 0;
    while i < images.len()
        invariant
            i <= images.len(),
            text::views(out@) =~= text::views(images@).take(i as int),
        decreases images.len() - i,
    {
        out.push(images[i].copy());
        i += 1;
    }
    out
}

/// A name of no role that can be read from storage.
#[derive(Debug)]
pub struct UnknownRole {
    pub role: String,
}

impl UnknownRole {
    /// What the user reads.
    pub fn message(&self) -> (r: String)
        ensures
            r@ == "unknown message role: "@ + self.role@,
    {
        cat("unknown message role: ", self.role.as_str())
    }
}

/// The role of a message that is a role and a text alone. A tool's message is not: it also names
/// the call that it answers.
pub open spec fn stored_role(name: Seq<char>) -> Option<Role> {
    if name == "system"@ {
        Some(Role::System)
    } else if name == "user"@ {
        Some(Role::User)
    } else if name == "assistant"@ {
        Some(Role::Assistant)
    } else {
        None
    }
}

impl Message {
    fn plain_message(role: Role, content: String) -> (r: Message)
        ensures
            r@ == plain(role, content@),
    {
        let message = Message {
            role,
            content,
            tool_calls: Vec::new(),
            tool_call_id: None,
            images: Vec::new(),
        };
        assert(message@.tool_calls =~= seq![]);
        assert(message@.images =~= seq![]);
        message
    }

    /// A message of the system.
    pub fn system(content: &str) -> (r: Message)
        ensures
            r@ == plain(Role::System, content@),
    {
        Self::plain_message(Role::System, content.to_owned())
    }

    /// A message of the user.
    pub fn user(content: &str) -> (r: Message)
        ensures
            r@ == plain(Role::User, content@),
    {
        Self::plain_message(Role::User, content.to_owned())
    }

    /// A message of the assistant.
    pub fn assistant(content: &str) -> (r: Message)
        ensures
            r@ == plain(Role::Assistant, content@),
    {
        Self::plain_message(Role::Assistant, content.to_owned())
    }

    /// A message of the user with images.
    pub fn user_with_images(content: &str, images: Vec<ImageAttachment>) -> (r: Message)
        ensures
            r@ == (MessageModel { images: text::views(images@), ..plain(Role::User, content@) }),
    {
        let mut message = Self::plain_message(Role::User, content.to_owned());
        message.images = images;
        message
    }

    /// A message of the assistant that asks to run tools.
    pub fn tool_request(content: &str, tool_calls: Vec<ToolCall>) -> (r: Message)
        ensures
            r@ == (MessageModel {
                tool_calls: text::views(tool_calls@),
                ..plain(Role::Assistant, content@)
            }),
    {
        let mut message = Self::plain_message(Role::Assistant, content.to_owned());
        message.tool_calls = tool_calls;
        message
    }

    /// A message that answers a call.
    pub fn tool_result(call_id: &str, content: &str) -> (r: Message)
        ensures
            r@ == (MessageModel { tool_call_id: Some(call_id@), ..plain(Role::Tool, content@) }),
    {
        let mut message = Self::plain_message(Role::Tool, content.to_owned());
        message.tool_call_id = Some(call_id.to_owned());
        message
    }

    /// The name of the role.
    pub fn role_name(&self) -> (r: &'static str)
        ensures
            r@ == self@.role.name_spec(),
    {
        match self.role {
            Role::System => "system",
            Role::User => "user",
            Role::Assistant => "assistant",
            Role::Tool => "tool",
        }
    }

    /// A message that is a role and a text alone.
    pub fn from_parts(role: &str, content: String) -> (r: Result<Message, UnknownRole>)
        ensures
            match r {
                Ok(message) => stored_role(role@) is Some && message@ == plain(
                    stored_role(role@)->0,
                    content@,
                ),
                Err(e) => stored_role(role@) is None && e.role@ == role@,
            },
    {
        if same(role, "system") {
            Ok(Self::plain_message(Role::System, content))
        } else if same(role, "user") {
            Ok(Self::plain_message(Role::User, content))
        } else if same(role, "assistant") {
            Ok(Self::plain_message(Role::Assistant, content))
        } else {
            Err(UnknownRole { role: role.to_owned() })
        }
    }

    /// A copy of the message.
    pub fn copy(&self) -> (r: Message)
        ensures
            r@ == self@,
    {
        Message {
            role: self.role,
            content: self.content.clone(),
            tool_calls: copy_calls(&self.tool_calls),
            tool_call_id: copy_opt(&self.tool_call_id),
            images: copy_images(&self.images),
        }
    }
}

/// The name of a role is read back as that role, except for tools.
pub proof fn law_role_round_trip(role: Role)
    ensures
        stored_role(role.name_spec()) == if role == Role::Tool {
            None
        } else {
            Some(role)
        },
{
    reveal_strlit("system");
    reveal_strlit("user");
    reveal_strlit("assistant");
    reveal_strlit("tool");
    assert("system"@.len() == 6);
    assert("user"@.len() == 4);
    assert("assistant"@.len() == 9);
    assert("tool"@.len() == 4);
    assert("user"@[0] != "tool"@[0]);
}

/// Copies of some messages.
pub fn copy_messages(messages: &[Message]) -> (r: Vec<Message>)
    ensures
        text::views(r@) == text::views(messages@),
{
    let mut out: Vec<Message> = Vec::new();
    let mut i: usize = 0;
    while i < messages.len()
        invariant
            i <= messages.len(),
            text::views(out@) =~= text::views(messages@).take(i as int),
        decreases messages.len() - i,
    {
        out.push(messages[i].copy());
        i += 1;
    }
    out
}

/// A tool that is offered to the model.
#[derive(Debug)]
pub struct ToolDefinition {
    pub name: String,
    pub description: String,
    /// The JSON schema of the arguments, as text.
    pub parameters: String,
}

/// What a [`ToolDefinition`] stands for.
#[verifier::ext_equal]
pub struct DefinitionModel {
    pub name: Seq<char>,
    pub description: Seq<char>,
    pub parameters: Seq<char>,
}

impl View for ToolDefinition {
    type V = DefinitionModel;

    open spec fn view(&self) -> DefinitionModel {
        DefinitionModel {
            name: self.name@,
            description: self.description@,
            parameters: self.parameters@,
        }
    }
}

/// A request for one reply.
#[derive(Debug)]
pub struct ChatRequest {
    pub model: String,
    pub messages: Vec<Message>,
    pub tools: Vec<ToolDefinition>,
    /// The session, for providers that keep one.
    pub session_id: Option<String>,
}

/// How many tokens a request took.
#[derive(Clone, Copy, Debug, PartialEq, Eq, Structural)]
pub struct Usage {
    pub prompt_tokens: u64,
    pub completion_tokens: u64,
    pub total_tokens: u64,
    /// How many of the prompt's tokens the provider had cached.
    pub cached_tokens: u64,
}

/// No tokens.
pub open spec fn no_usage() -> Usage {
    Usage { prompt_tokens: 0, completion_tokens: 0, total_tokens: 0, cached_tokens: 0 }
}

impl Default for Usage {
    fn default() -> (r: Usage)
        ensures
            r == no_usage(),
    {
        Usage { prompt_tokens: 0, completion_tokens: 0, total_tokens: 0, cached_tokens: 0 }
    }
}

/// One whole reply.
#[derive(Debug)]
pub struct ChatResponse {
    pub content: String,
    pub tool_calls: Vec<ToolCall>,
    pub usage: Usage,
    pub finish_reason: String,
}

/// What a [`ChatResponse`] stands for.
#[verifier::ext_equal]
pub struct ResponseModel {
    pub content: Seq<char>,
    pub tool_calls: Seq<CallModel>,
    pub usage: Usage,
    pub finish_reason: Seq<char>,
}

impl View for ChatResponse {
    type V = ResponseModel;

    open spec fn view(&self) -> ResponseModel {
        ResponseModel {
            content: self.content@,
            tool_calls: text::views(self.tool_calls@),
            usage: self.usage,
            finish_reason: self.finish_reason@,
        }
    }
}

/// One piece of a streamed reply.
#[derive(Debug)]
pub enum StreamEvent {
    Delta(String),
    Done { usage: Usage, finish_reason: String, tool_calls: Vec<ToolCall> },
}

} // verus!
