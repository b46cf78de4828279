//! The OpenAI-compatible protocol: what goes over the wire, and how a stream of server-sent events
//! becomes a reply.
use crate::provider::{
    CallModel, ChatResponse, ImageModel, Message, MessageModel, ResponseModel, Role, ToolCall,
    ToolDefinition, Usage,
};
use crate::provider;
use crate::scan;
use crate::scan::{starts_with, strip_prefix, trim, trim_end, trim_start, Class};
use crate::split;
use crate::split::split_lines;
use crate::text;
use crate::text::{cat, cat3, copy_opt, same};
use vstd::prelude::*;
use vstd::string::*;

verus! {

broadcast use crate::text::group_views;

// ---------------------------------------------------------------------------------------------
// Requests
// ---------------------------------------------------------------------------------------------

/// A part of a message that holds images. `T` is text: `String` in a value, `Seq<char>` in its
/// model.
#[derive(Debug)]
pub enum WirePart<T> {
    Text { text: T },
    ImageUrl { url: T },
}

impl View for WirePart<String> {
    type V = WirePart<Seq<char>>;

    open spec fn view(&self) -> WirePart<Seq<char>> {
        match self {
            WirePart::Text { text } => WirePart::Text { text: text@ },
            WirePart::ImageUrl { url } => WirePart::ImageUrl { url: url@ },
        }
    }
}

/// What a message says: plain text, or parts where images come with it.
#[derive(Debug)]
pub enum WireContent {
    Text(String),
    Parts(Vec<WirePart<String>>),
}

/// What a [`WireContent`] stands for.
pub enum ContentModel {
    Text(Seq<char>),
    Parts(Seq<WirePart<Seq<char>>>),
}

impl View for WireContent {
    type V = ContentModel;

    open spec fn view(&self) -> ContentModel {
        match self {
            WireContent::Text(text) => ContentModel::Text(text@),
            WireContent::Parts(parts) => ContentModel::Parts(text::views(parts@)),
        }
    }
}

/// A message as it is sent.
#[derive(Debug)]
pub struct WireMessage {
    pub role: &'static str,
    pub content: Option<WireContent>,
    pub tool_calls: Vec<ToolCall>,
    pub tool_call_id: Option<String>,
}

/// What a [`WireMessage`] stands for.
pub struct WireModel {
    pub role: Seq<char>,
    pub content: Option<ContentModel>,
    pub tool_calls: Seq<CallModel>,
    pub tool_call_id: Option<Seq<char>>,
}

impl View for WireMessage {
    type V = WireModel;

    open spec fn view(&self) -> WireModel {
        WireModel {
            role: self.role@,
            content: match self.content {
                Some(content) => Some(content@),
                None => None,
            },
            tool_calls: text::views(self.tool_calls@),
            tool_call_id: text::opt_view(self.tool_call_id),
        }
    }
}

/// An image as a data URL.
pub open spec fn image_url(image: ImageModel) -> Seq<char> {
    "data:"@ + image.media_type + ";base64,"@ + image.data
}

/// The parts of a message with images: its text where it has any, then each image.
pub open spec fn parts_of(content: Seq<char>, images: Seq<ImageModel>) -> Seq<WirePart<Seq<char>>> {
    let first: Seq<WirePart<Seq<char>>> = if content.len() > 0 {
        seq![WirePart::Text { text: content }]
    } else {
        seq![]
    };
    first + Seq::new(images.len(), |i: int| WirePart::ImageUrl { url: image_url(images[i]) })
}

/// A message as it is sent. A message that only asks to run tools has no content.
pub open spec fn wired(message: MessageModel) -> WireModel {
    WireModel {
        role: message.role.name_spec(),
        content: if message.images.len() > 0 {
            Some(ContentModel::Parts(parts_of(message.content, message.images)))
        } else if message.content.len() == 0 && message.tool_calls.len() > 0 {
            None
        } else {
            Some(ContentModel::Text(message.content))
        },
        tool_calls: message.tool_calls,
        tool_call_id: message.tool_call_id,
    }
}

/// A message as it is sent.
pub fn wire_message(message: &Message) -> (r: WireMessage)
    ensures
        r@ == wired(message@),
{
    let content: Option<WireContent> = if message.images.len() > 0 {
        let mut parts: Vec<WirePart<String>> = Vec::new();
        if !message.content.as_str().is_empty() {
            parts.push(WirePart::Text { text: message.content.clone() });
        }
        let ghost first = text::views(parts@);
        let ghost images = text::views(message.images@);
        let mut i: usize = 0;
        while i < message.images.len()
            invariant
                i <= message.images.len(),
                images == text::views(message.images@),
                text::views(parts@) =~= first + Seq::new(
                    i as nat,
                    |k: int| WirePart::ImageUrl { url: image_url(images[k]) },
                ),
            decreases message.images.len() - i,
        {
            let image = &message.images[i];
            let mut url = cat("data:", image.media_type.as_str());
            url.append(";base64,");
            url.append(image.data.as_str());
            parts.push(WirePart::ImageUrl { url });
            i += 1;
        }
        assert(text::views(parts@) =~= parts_of(message.content@, images));
        Some(WireContent::Parts(parts))
    } else if message.content.as_str().is_empty() && message.tool_calls.len() > 0 {
        None
    } else {
        Some(WireContent::Text(message.content.clone()))
    };
    WireMessage {
        role: message.role_name(),
        content,
        tool_calls: provider::copy_calls(&message.tool_calls),
        tool_call_id: copy_opt(&message.tool_call_id),
    }
}

/// The messages as they are sent, in order.
pub fn wire_messages(messages: &[Message]) -> (r: Vec<WireMessage>)
    ensures
        r@.len() == messages@.len(),
        forall|i: int| 0 <= i < messages@.len() ==> (#[trigger] r@[i])@ == wired(messages@[i]@),
{
    let mut out: Vec<WireMessage> = Vec::new();
    let mut i: usize = 0;
    while i < messages.len()
        invariant
            i <= messages.len(),
            out@.len() == i,
            forall|k: int| 0 <= k < i ==> (#[trigger] out@[k])@ == wired(messages@[k]@),
        decreases messages.len() - i,
    {
        out.push(wire_message(&messages[i]));
        i += 1;
    }
    out
}

/// A tool as it is offered.
#[derive(Debug)]
pub struct WireTool {
    pub kind: &'static str,
    pub name: String,
    pub description: String,
    pub parameters: String,
}

/// The tools as they are offered, in order: each is a function.
pub fn wire_tools(tools: &[ToolDefinition]) -> (r: Vec<WireTool>)
    ensures
        r@.len() == tools@.len(),
        forall|i: int|
            0 <= i < tools@.len() ==> {
                let tool = #[trigger] r@[i];
                &&& tool.kind@ == "function"@
                &&& tool.name@ == tools@[i].name@
                &&& tool.description@ == tools@[i].description@
                &&& tool.parameters@ == tools@[i].parameters@
            },
{
    let mut out: Vec<WireTool> = Vec::new();
    let mut i: usize = 0;
    while i < tools.len()
        invariant
            i <= tools.len(),
            out@.len() == i,
            forall|k: int|
                0 <= k < i ==> {
                    let tool = #[trigger] out@[k];
                    &&& tool.kind@ == "function"@
                    &&& tool.name@ == tools@[k].name@
                    &&& tool.description@ == tools@[k].description@
                    &&& tool.parameters@ == tools@[k].parameters@
                },
        decreases tools.len() - i,
    {
        let tool = &tools[i];
        out.push(
            WireTool {
                kind: "function",
                name: tool.name.clone(),
                description: tool.description.clone(),
                parameters: tool.parameters.clone(),
            },
        );
        i += 1;
    }
    out
}

/// The base URL of a provider without slashes at its end.
pub fn base_of(base_url: &str) -> (r: String)
    ensures
        r@ == scan::trim_back(base_url@, scan::one_of(seq!['/'])),
{
    let ends: [char; 1] = ['/'];
    assert(ends@ =~= seq!['/']);
    trim_end(base_url, &Class::Of(&ends))
}

/// Where chat completions are asked for: at the usual path behind the base, at another path where
/// one is given, or at a whole URL that takes the place of both.
pub open spec fn chat_url_of(base_url: Seq<char>, completions_path: Option<Seq<char>>) -> Seq<char> {
    let base = scan::trim_back(base_url, scan::one_of(seq!['/']));
    match completions_path {
        None => base + "/chat/completions"@,
        Some(path) => if scan::has_prefix(path, "http://"@) || scan::has_prefix(path, "https://"@) {
            path
        } else {
            base + "/"@ + scan::trim_front(path, scan::one_of(seq!['/']))
        },
    }
}

/// Where chat completions are asked for.
pub fn chat_url(base_url: &str, completions_path: Option<&str>) -> (r: String)
    ensures
        r@ == chat_url_of(base_url@, text::str_view(completions_path)),
{
    let base = base_of(base_url);
    match completions_path {
        None => cat(base.as_str(), "/chat/completions"),
        Some(path) => {
            if starts_with(path, "http://") || starts_with(path, "https://") {
                return path.to_owned();
            }
            let starts: [char; 1] = ['/'];
            assert(starts@ =~= seq!['/']);
            let rest = trim_start(path, &Class::Of(&starts));
            cat3(base.as_str(), "/", rest.as_str())
        },
    }
}

// ---------------------------------------------------------------------------------------------
// Whole replies
// ---------------------------------------------------------------------------------------------

/// One of the replies to choose from.
#[derive(Debug)]
pub struct Choice {
    pub content: Option<String>,
    pub tool_calls: Vec<ToolCall>,
    pub finish_reason: String,
}

/// A response as it is received.
#[derive(Debug)]
pub struct OpenAIResponse {
    pub choices: Vec<Choice>,
    pub usage: Usage,
}

/// A response that holds no reply.
#[derive(Clone, Copy, Debug, PartialEq, Eq, Structural)]
pub struct NoChoices;

impl NoChoices {
    /// What the user reads.
    pub fn message(&self) -> (r: &'static str)
        ensures
            r@ == "provider returned no choices"@,
    {
        "provider returned no choices"
    }
}

/// The reply of a response: its last choice. Without content the text is empty.
pub fn response_into_chat(response: OpenAIResponse) -> (r: Result<ChatResponse, NoChoices>)
    ensures
        match r {
            Ok(chat) => response.choices@.len() > 0 && chat@ == (ResponseModel {
                content: match response.choices@.last().content {
                    Some(content) => content@,
                    None => seq![],
                },
                tool_calls: text::views(response.choices@.last().tool_calls@),
                usage: response.usage,
                finish_reason: response.choices@.last().finish_reason@,
            }),
            Err(_) => response.choices@.len() == 0,
        },
{
    let mut choices = response.choices;
    match choices.pop() {
        None => Err(NoChoices),
        Some(choice) => {
            let content = match choice.content {
                Some(content) => content,
                None => String::new(),
            };
            let chat = ChatResponse {
                content,
                tool_calls: choice.tool_calls,
                usage: response.usage,
                finish_reason: choice.finish_reason,
            };
            Ok(chat)
        },
    }
}

// ---------------------------------------------------------------------------------------------
// Events of a stream
// ---------------------------------------------------------------------------------------------

/// A blank line in the style of the web: carriage return and line feed, twice.
pub open spec fn crlf_crlf() -> Seq<u8> {
    seq![13u8, 10u8, 13u8, 10u8]
}

/// A blank line: line feed, twice.
pub open spec fn lf_lf() -> Seq<u8> {
    seq![10u8, 10u8]
}

/// Where the first event of a buffer ends: at its first blank line with carriage returns, or else
/// at its first blank line without.
pub open spec fn event_end(buffer: Seq<u8>) -> Option<int> {
    match scan::first_at(buffer, crlf_crlf()) {
        Some(i) => Some(i),
        None => scan::first_at(buffer, lf_lf()),
    }
}

fn bytes_stand_at(buffer: &[u8], pattern: &[u8], at: usize) -> (r: bool)
    ensures
        r == scan::occurs_at(buffer@, pattern@, at as int),
{
    if pattern.len() > buffer.len() || at > buffer.len() - pattern.len() {
        return false;
    }
    let mut k: usize = 0;
    while k < pattern.len()
        invariant
            k <= pattern.len(),
            at + pattern.len() <= buffer.len(),
            forall|j: int| 0 <= j < k ==> buffer@[at + j] == #[trigger] pattern@[j],
        decreases pattern.len() - k,
    {
        if buffer[at + k] != pattern[k] {
            assert(buffer@.subrange(at as int, at + pattern@.len())[k as int] != pattern@[k as int]);
            return false;
        }
        k += 1;
    }
    assert(buffer@.subrange(at as int, at + pattern@.len()) =~= pattern@);
    true
}

fn find_bytes(buffer: &[u8], pattern: &[u8]) -> (r: Option<usize>)
    ensures
        match r {
            Some(i) => scan::first_at(buffer@, pattern@) == Some(i as int) && i + pattern.len()
                <= buffer.len(),
            None => scan::first_at(buffer@, pattern@) is None,
        },
{
    let mut i: usize = 0;
    while pattern.len() <= buffer.len() && i <= buffer.len() - pattern.len()
        invariant
            scan::first_at(buffer@, pattern@) == scan::find_from(buffer@, pattern@, i as int),
        decreases buffer.len() + 1 - i,
    {
        if bytes_stand_at(buffer, pattern, i) {
            return Some(i);
        }
        if i == buffer.len() - pattern.len() {
            assert(scan::find_from(buffer@, pattern@, i + 1) is None);
            return None;
        }
        i += 1;
    }
    None
}

/// Where the first event of a buffer ends.
pub fn find_event_end(buffer: &[u8]) -> (r: Option<usize>)
    ensures
        match r {
            Some(i) => event_end(buffer@) == Some(i as int) && i <= buffer.len(),
            None => event_end(buffer@) is None,
        },
{
    let web: [u8; 4] = [13, 10, 13, 10];
    let unix: [u8; 2] = [10, 10];
    assert(web@ =~= crlf_crlf());
    assert(unix@ =~= lf_lf());
    match find_bytes(buffer, &web) {
        Some(i) => Some(i),
        None => find_bytes(buffer, &unix),
    }
}

/// The bytes behind index `from`.
fn bytes_between(buffer: &[u8], from: usize, to: usize) -> (r: Vec<u8>)
    requires
        from <= to <= buffer.len(),
    ensures
        r@ == buffer@.subrange(from as int, to as int),
{
    let mut out: Vec<u8> = Vec::new();
    let mut i: usize = from;
    while i < to
        invariant
            from <= i <= to <= buffer.len(),
            out@ =~= buffer@.subrange(from as int, i as int),
        decreases to - i,
    {
        out.push(buffer[i]);
        i += 1;
    }
    out
}

/// The blank line that ends the first event of a buffer.
pub open spec fn delimiter(buffer: Seq<u8>) -> Seq<u8> {
    if scan::first_at(buffer, crlf_crlf()) is Some {
        crlf_crlf()
    } else {
        lf_lf()
    }
}

/// Take the first whole event out of a buffer. The buffer was that event, a blank line and what is
/// left; where there is no blank line yet, it stays as it is.
pub fn take_event(buffer: &mut Vec<u8>) -> (r: Option<Vec<u8>>)
    ensures
        match r {
            Some(event) => {
                &&& event_end(old(buffer)@) == Some(event@.len() as int)
                &&& old(buffer)@ == event@ + delimiter(old(buffer)@) + final(buffer)@
            },
            None => event_end(old(buffer)@) is None && final(buffer)@ == old(buffer)@,
        },
{
    match find_event_end(buffer.as_slice()) {
        None => None,
        Some(end) => {
            let ghost all = buffer@;
            proof {
                scan::lemma_find_from(all, crlf_crlf(), 0);
                scan::lemma_find_from(all, lf_lf(), 0);
            }
            let web: [u8; 4] = [13, 10, 13, 10];
            assert(web@ =~= crlf_crlf());
            let size: usize = if bytes_stand_at(buffer.as_slice(), &web, end) {
                4
            } else {
                2
            };
            let event = bytes_between(buffer.as_slice(), 0, end);
            let rest = bytes_between(buffer.as_slice(), end + size, buffer.len());
            assert(all =~= event@ + all.subrange(end as int, end + size) + rest@);
            *buffer = rest;
            Some(event)
        },
    }
}

/// Taking an event out of a buffer loses no byte.
pub proof fn law_events_lose_no_bytes(buffer: Seq<u8>, event: Seq<u8>, rest: Seq<u8>)
    requires
        buffer == event + delimiter(buffer) + rest,
    ensures
        buffer.len() == event.len() + delimiter(buffer).len() + rest.len(),
        delimiter(buffer) == crlf_crlf() || delimiter(buffer) == lf_lf(),
        rest.len() < buffer.len(),
{
}

/// What a line of an event carries.
#[derive(Debug)]
pub enum Payload<T> {
    /// The stream is complete.
    Done,
    /// JSON text.
    Json(T),
}

impl View for Payload<String> {
    type V = Payload<Seq<char>>;

    open spec fn view(&self) -> Payload<Seq<char>> {
        match self {
            Payload::Done => Payload::Done,
            Payload::Json(json) => Payload::Json(json@),
        }
    }
}

/// What one line of an event carries; a line without `data:` in front carries nothing.
pub open spec fn payload_of(line: Seq<char>) -> Option<Payload<Seq<char>>> {
    if scan::has_prefix(line, "data:"@) {
        let data = scan::trimmed(line.skip("data:"@.len() as int));
        if data == "[DONE]"@ {
            Some(Payload::Done)
        } else {
            Some(Payload::Json(data))
        }
    } else {
        None
    }
}

/// What the lines of an event carry, up to the end of the stream.
pub open spec fn payloads_of(lines: Seq<Seq<char>>) -> Seq<Payload<Seq<char>>>
    decreases lines.len(),
{
    if lines.len() == 0 {
        seq![]
    } else {
        match payload_of(lines[0]) {
            None => payloads_of(lines.skip(1)),
            Some(Payload::Done) => seq![Payload::Done],
            Some(payload) => seq![payload] + payloads_of(lines.skip(1)),
        }
    }
}

/// What the text of an event carries, in order, up to the end of the stream.
pub fn event_payloads(event: &str) -> (r: Vec<Payload<String>>)
    ensures
        text::views(r@) == payloads_of(split::lines(event@)),
{
    let lines = split_lines(event);
    let ghost all = split::lines(event@);
    let mut out: Vec<Payload<String>> = Vec::new();
    let mut i: usize = 0;
    assert(all.skip(0) =~= all);
    assert(text::views(out@) + payloads_of(all) =~= payloads_of(all));
    while i < lines.len()
        invariant
            i <= lines.len(),
            text::views(lines@) == all,
            all == split::lines(event@),
            text::views(out@) + payloads_of(all.skip(i as int)) == payloads_of(all),
        decreases lines.len() - i,
    {
        let ghost before = text::views(out@);
        let ghost rest = all.skip(i as int);
        assert(rest.skip(1) =~= all.skip(i + 1));
        assert(rest[0] == lines@[i as int]@);
        if let Some(tail) = strip_prefix(lines[i].as_str(), "data:") {
            let data = trim(tail.as_str());
            if same(data.as_str(), "[DONE]") {
                out.push(Payload::Done);
                assert(text::views(out@) =~= before + seq![Payload::Done]);
                return out;
            }
            out.push(Payload::Json(data));
            assert(text::views(out@) + payloads_of(rest.skip(1)) =~= before + (seq![
                Payload::Json(data@),
            ] + payloads_of(rest.skip(1))));
        }
        i += 1;
    }
    assert(text::views(out@) + payloads_of(all.skip(i as int)) =~= text::views(out@));
    out
}

/// The words in which `std::str::from_utf8` tells why bytes are not well-formed UTF-8.
pub uninterp spec fn utf8_fault(bytes: Seq<u8>) -> Seq<char>;

/// `std::str::from_utf8`: succeeds exactly on well-formed UTF-8, with the text that the bytes
/// encode. The words of its error depend on the bytes alone; which they are, is left to their name.
#[verifier::external_body]
fn decode(bytes: &[u8]) -> (r: Result<String, String>)
    ensures
        match r {
            Ok(text) => vstd::utf8::valid_utf8(bytes@) && text@ == vstd::utf8::decode_utf8(bytes@),
            Err(cause) => !vstd::utf8::valid_utf8(bytes@) && cause@ == utf8_fault(bytes@),
        },
{
    match std::str::from_utf8(bytes) {
        Ok(text) => Ok(text.to_string()),
        Err(error) => Err(error.to_string()),
    }
}

/// What the bytes of an event carry, or why they carry nothing: they are no text.
pub fn read_event(event: &[u8]) -> (r: Result<Vec<Payload<String>>, String>)
    ensures
        match r {
            Ok(payloads) => vstd::utf8::valid_utf8(event@) && text::views(payloads@)
                == payloads_of(split::lines(vstd::utf8::decode_utf8(event@))),
            Err(words) => !vstd::utf8::valid_utf8(event@) && words@ == unreadable_event(
                utf8_fault(event@),
            ),
        },
{
    match decode(event) {
        Ok(text) => Ok(event_payloads(text.as_str())),
        Err(cause) => Err(not_text(cause.as_str())),
    }
}

/// What is told of an event that is no text.
pub open spec fn unreadable_event(cause: Seq<char>) -> Seq<char> {
    "provider returned invalid UTF-8: "@ + cause
}

/// What is told of an event that is no text.
pub fn not_text(cause: &str) -> (r: String)
    ensures
        r@ == unreadable_event(cause@),
{
    cat("provider returned invalid UTF-8: ", cause)
}

// ---------------------------------------------------------------------------------------------
// Streamed replies
// ---------------------------------------------------------------------------------------------

/// A fragment of a tool call.
#[derive(Debug)]
pub struct CallDelta {
    pub index: usize,
    pub id: Option<String>,
    pub name: Option<String>,
    pub arguments: Option<String>,
}

/// A fragment of a reply.
#[derive(Debug)]
pub struct StreamChoice {
    pub content: Option<String>,
    pub finish_reason: Option<String>,
    pub tool_calls: Vec<CallDelta>,
}

/// What one event of a stream says.
#[derive(Debug)]
pub struct StreamChunk {
    pub choices: Vec<StreamChoice>,
    pub usage: Option<Usage>,
}

impl StreamChunk {
    /// No call has the last index there is, so that every index has a successor.
    pub open spec fn wf(&self) -> bool {
        forall|i: int, j: int|
            #![trigger self.choices@[i].tool_calls@[j]]
            0 <= i < self.choices@.len() && 0 <= j < self.choices@[i].tool_calls@.len()
                ==> self.choices@[i].tool_calls@[j].index < usize::MAX
    }
}

/// The pieces of a streamed reply, put together so far.
#[derive(Debug)]
pub struct StreamState {
    pub usage: Usage,
    pub finish_reason: String,
    /// Calls by index; one of which nothing has come yet is empty.
    pub tool_calls: Vec<ToolCall>,
}

/// What a [`StreamState`] stands for.
#[verifier::ext_equal]
pub struct StateModel {
    pub usage: Usage,
    pub finish_reason: Seq<char>,
    pub tool_calls: Seq<CallModel>,
}

impl View for StreamState {
    type V = StateModel;

    open spec fn view(&self) -> StateModel {
        StateModel {
            usage: self.usage,
            finish_reason: self.finish_reason@,
            tool_calls: text::views(self.tool_calls@),
        }
    }
}

/// A call of which nothing has come yet.
pub open spec fn no_call() -> CallModel {
    CallModel { id: seq![], name: seq![], arguments: seq![] }
}

/// The calls, with empty ones added until there is one at `index`.
pub open spec fn with_place(calls: Seq<CallModel>, index: nat) -> Seq<CallModel> {
    if index < calls.len() {
        calls
    } else {
        calls + Seq::new((index + 1 - calls.len()) as nat, |i: int| no_call())
    }
}

/// A text, or nothing.
pub open spec fn or_nothing(t: Option<String>) -> Seq<char> {
    match t {
        Some(s) => s@,
        None => seq![],
    }
}

/// A call with a fragment added: an id replaces the one before, names and arguments grow.
pub open spec fn grown(call: CallModel, delta: CallDelta) -> CallModel {
    CallModel {
        id: match delta.id {
            Some(id) => id@,
            None => call.id,
        },
        name: call.name + or_nothing(delta.name),
        arguments: call.arguments + or_nothing(delta.arguments),
    }
}

/// The calls with a fragment added.
pub open spec fn with_delta(calls: Seq<CallModel>, delta: CallDelta) -> Seq<CallModel> {
    let all = with_place(calls, delta.index as nat);
    all.update(delta.index as int, grown(all[delta.index as int], delta))
}

/// The calls with fragments added, in order.
pub open spec fn with_deltas(calls: Seq<CallModel>, deltas: Seq<CallDelta>) -> Seq<CallModel>
    decreases deltas.len(),
{
    if deltas.len() == 0 {
        calls
    } else {
        with_delta(with_deltas(calls, deltas.drop_last()), deltas.last())
    }
}

/// The state after one fragment of a reply.
pub open spec fn with_choice(state: StateModel, choice: StreamChoice) -> StateModel {
    StateModel {
        usage: state.usage,
        finish_reason: match choice.finish_reason {
            Some(reason) => reason@,
            None => state.finish_reason,
        },
        tool_calls: with_deltas(state.tool_calls, choice.tool_calls@),
    }
}

/// The state after some fragments.
pub open spec fn with_choices(state: StateModel, choices: Seq<StreamChoice>) -> StateModel
    decreases choices.len(),
{
    if choices.len() == 0 {
        state
    } else {
        with_choice(with_choices(state, choices.drop_last()), choices.last())
    }
}

/// The state after an event.
pub open spec fn with_chunk(state: StateModel, chunk: StreamChunk) -> StateModel {
    let counted = StateModel {
        usage: match chunk.usage {
            Some(usage) => usage,
            None => state.usage,
        },
        ..state
    };
    with_choices(counted, chunk.choices@)
}

/// The text that some fragments bring, piece by piece, without empty pieces.
pub open spec fn texts_of(choices: Seq<StreamChoice>) -> Seq<Seq<char>>
    decreases choices.len(),
{
    if choices.len() == 0 {
        seq![]
    } else {
        let content = or_nothing(choices.last().content);
        if content.len() > 0 {
            texts_of(choices.drop_last()).push(content)
        } else {
            texts_of(choices.drop_last())
        }
    }
}

fn empty_call() -> (r: ToolCall)
    ensures
        r@ == no_call(),
{
    let call = ToolCall { id: String::new(), name: String::new(), arguments: String::new() };
    assert(call@.id =~= seq![]);
    assert(call@.name =~= seq![]);
    assert(call@.arguments =~= seq![]);
    call
}

/// Add a fragment to the calls.
fn add_delta(calls: &mut Vec<ToolCall>, delta: &CallDelta)
    requires
        delta.index < usize::MAX,
    ensures
        text::views(final(calls)@) == with_delta(text::views(old(calls)@), *delta),
{
    let ghost before = text::views(calls@);
    while calls.len() <= delta.index
        invariant
            delta.index < usize::MAX,
            calls@.len() >= before.len(),
            calls@.len() > before.len() ==> calls@.len() <= delta.index + 1,
            text::views(calls@) =~= before + Seq::new(
                (calls@.len() - before.len()) as nat,
                |i: int| no_call(),
            ),
        decreases delta.index + 1 - calls.len(),
    {
        calls.push(empty_call());
    }
    assert(text::views(calls@) =~= with_place(before, delta.index as nat));
    let at = delta.index;
    let ghost all = text::views(calls@);
    let mut call = calls[at].copy();
    if let Some(id) = &delta.id {
        call.id = id.clone();
    }
    if let Some(name) = &delta.name {
        call.name.append(name.as_str());
    }
    if let Some(arguments) = &delta.arguments {
        call.arguments.append(arguments.as_str());
    }
    assert(call@.name =~= all[at as int].name + or_nothing(delta.name));
    assert(call@.arguments =~= all[at as int].arguments + or_nothing(delta.arguments));
    let ghost model = call@;
    calls.set(at, call);
    assert(text::views(calls@) =~= all.update(at as int, model));
}

/// Add the fragments to the calls, in order.
fn add_deltas(calls: &mut Vec<ToolCall>, deltas: &[CallDelta])
    requires
        forall|j: int| 0 <= j < deltas@.len() ==> (#[trigger] deltas@[j]).index < usize::MAX,
    ensures
        text::views(final(calls)@) == with_deltas(text::views(old(calls)@), deltas@),
{
    let ghost before = text::views(calls@);
    let mut i: usize = 0;
    while i < deltas.len()
        invariant
            i <= deltas.len(),
            forall|j: int| 0 <= j < deltas@.len() ==> (#[trigger] deltas@[j]).index < usize::MAX,
            text::views(calls@) == with_deltas(before, deltas@.take(i as int)),
        decreases deltas.len() - i,
    {
        assert(deltas@.take(i + 1).drop_last() =~= deltas@.take(i as int));
        add_delta(calls, &deltas[i]);
        i += 1;
    }
    assert(deltas@.take(i as int) =~= deltas@);
}

impl StreamState {
    /// Nothing has come yet.
    pub fn new() -> (r: StreamState)
        ensures
            r@ == (StateModel {
                usage: provider::no_usage(),
                finish_reason: seq![],
                tool_calls: seq![],
            }),
    {
        let state = StreamState {
            usage: Usage::default(),
            finish_reason: String::new(),
            tool_calls: Vec::new(),
        };
        assert(state@.finish_reason =~= seq![]);
        assert(state@.tool_calls =~= seq![]);
        state
    }

    /// Add what an event says, and return the text that it brings, piece by piece.
    pub fn apply(&mut self, chunk: StreamChunk) -> (r: Vec<String>)
        requires
            chunk.wf(),
        ensures
            final(self)@ == with_chunk(old(self)@, chunk),
            text::views(r@) == texts_of(chunk.choices@),
    {
        let ghost start = self@;
        if let Some(usage) = chunk.usage {
            self.usage = usage;
        }
        let ghost counted = self@;
        let mut texts: Vec<String> = Vec::new();
        assert(text::views(texts@) =~= seq![]);
        let mut i: usize = 0;
        while i < chunk.choices.len()
            invariant
                i <= chunk.choices.len(),
                chunk.wf(),
                self@ == with_choices(counted, chunk.choices@.take(i as int)),
                text::views(texts@) == texts_of(chunk.choices@.take(i as int)),
            decreases chunk.choices.len() - i,
        {
            let ghost before = text::views(texts@);
            assert(chunk.choices@.take(i + 1).drop_last() =~= chunk.choices@.take(i as int));
            assert(chunk.choices@.take(i + 1).last() == chunk.choices@[i as int]);
            let choice = &chunk.choices[i];
            if let Some(reason) = &choice.finish_reason {
                self.finish_reason = reason.clone();
            }
            if let Some(content) = &choice.content {
                if !content.as_str().is_empty() {
                    texts.push(content.clone());
                    assert(text::views(texts@) =~= before.push(content@));
                }
            }
            assert forall|j: int| 0 <= j < choice.tool_calls@.len() implies (
            #[trigger] choice.tool_calls@[j]).index < usize::MAX by {
                assert(chunk.choices@[i as int].tool_calls@[j].index < usize::MAX);
            }
            add_deltas(&mut self.tool_calls, &choice.tool_calls);
            i += 1;
        }
        assert(chunk.choices@.take(i as int) =~= chunk.choices@);
        texts
    }
}

/// A call is complete: it has an id and a name.
pub open spec fn complete(call: CallModel) -> bool {
    call.id.len() > 0 && call.name.len() > 0
}

/// The complete calls, in order.
pub open spec fn complete_calls(calls: Seq<CallModel>) -> Seq<CallModel> {
    calls.filter(|call: CallModel| complete(call))
}

/// The complete calls, in order.
pub fn assemble_tool_calls(partials: Vec<ToolCall>) -> (r: Vec<ToolCall>)
    ensures
        text::views(r@) == complete_calls(text::views(partials@)),
{
    let ghost all = text::views(partials@);
    let ghost keep = |call: CallModel| complete(call);
    let mut out: Vec<ToolCall> = Vec::new();
    let mut i: usize = 0;
    assert(all.take(0).filter(keep) =~= seq![]) by {
        reveal(Seq::filter);
    }
    assert(text::views(out@) =~= seq![]);
    while i < partials.len()
        invariant
            i <= partials.len(),
            all == text::views(partials@),
            keep == (|call: CallModel| complete(call)),
            text::views(out@) == all.take(i as int).filter(keep),
        decreases partials.len() - i,
    {
        let ghost before = text::views(out@);
        proof {
            reveal(Seq::filter);
            assert(all.take(i + 1).drop_last() =~= all.take(i as int));
        }
        let call = &partials[i];
        if !call.id.as_str().is_empty() && !call.name.as_str().is_empty() {
            out.push(call.copy());
            assert(text::views(out@) =~= before.push(all[i as int]));
        }
        i += 1;
    }
    assert(all.take(i as int) =~= all);
    out
}

// ---------------------------------------------------------------------------------------------
// What a stream keeps
// ---------------------------------------------------------------------------------------------

/// The contents of some fragments, in order; empty where a fragment brings none.
pub open spec fn contents(choices: Seq<StreamChoice>) -> Seq<Seq<char>> {
    Seq::new(
        choices.len(),
        |i: int|
            match choices[i].content {
                Some(content) => content@,
                None => seq![],
            },
    )
}

/// No character of a reply is lost, added or changed: what an event passes on is, run together,
/// what its fragments bring, run together. No piece that is passed on is empty.
pub proof fn law_replies_lose_no_text(choices: Seq<StreamChoice>)
    ensures
        texts_of(choices).flatten() == contents(choices).flatten(),
        forall|i: int| 0 <= i < texts_of(choices).len() ==> (#[trigger] texts_of(choices)[i]).len() > 0,
    decreases choices.len(),
{
    if choices.len() > 0 {
        let front = choices.drop_last();
        law_replies_lose_no_text(front);
        let all = contents(choices);
        assert(all =~= contents(front).push(all.last()));
        contents(front).lemma_flatten_push(all.last());
        if all.last().len() > 0 {
            texts_of(front).lemma_flatten_push(all.last());
        } else {
            assert(contents(front).flatten() + all.last() =~= contents(front).flatten());
        }
    } else {
        assert(contents(choices) =~= seq![]);
    }
}

/// The fragments that belong to one call.
pub open spec fn deltas_of(deltas: Seq<CallDelta>, index: int) -> Seq<CallDelta>
    decreases deltas.len(),
{
    if deltas.len() == 0 {
        seq![]
    } else if deltas.last().index == index {
        deltas_of(deltas.drop_last(), index).push(deltas.last())
    } else {
        deltas_of(deltas.drop_last(), index)
    }
}

/// The pieces of the arguments that some fragments bring.
pub open spec fn argument_pieces(deltas: Seq<CallDelta>) -> Seq<Seq<char>> {
    Seq::new(
        deltas.len(),
        |i: int|
            match deltas[i].arguments {
                Some(piece) => piece@,
                None => seq![],
            },
    )
}

/// The pieces of the name that some fragments bring.
pub open spec fn name_pieces(deltas: Seq<CallDelta>) -> Seq<Seq<char>> {
    Seq::new(
        deltas.len(),
        |i: int|
            match deltas[i].name {
                Some(piece) => piece@,
                None => seq![],
            },
    )
}

/// A call is put together from its own fragments and from no others: its arguments and its name are
/// what was there and the pieces that followed, run together in order, and its id is the last one
/// that came. A call that no fragment names stays as it was.
pub proof fn law_calls_are_put_together(calls: Seq<CallModel>, deltas: Seq<CallDelta>, index: int)
    requires
        0 <= index < with_deltas(calls, deltas).len(),
    ensures
        ({
            let before = if index < calls.len() {
                calls[index]
            } else {
                CallModel { id: seq![], name: seq![], arguments: seq![] }
            };
            let own = deltas_of(deltas, index);
            let after = with_deltas(calls, deltas)[index];
            &&& after.arguments == before.arguments + argument_pieces(own).flatten()
            &&& after.name == before.name + name_pieces(own).flatten()
            &&& own.len() == 0 ==> after == before
            &&& (forall|i: int| 0 <= i < own.len() ==> (#[trigger] own[i]).id is None) ==> after.id
                == before.id
            &&& forall|i: int|
                #![trigger own[i]]
                0 <= i < own.len() && own[i].id is Some && (forall|j: int|
                    i < j < own.len() ==> (#[trigger] own[j]).id is None) ==> after.id
                    == own[i].id->0@
        }),
        calls.len() <= with_deltas(calls, deltas).len(),
    decreases deltas.len(),
{
    let own = deltas_of(deltas, index);
    if deltas.len() == 0 {
        assert(argument_pieces(own) =~= seq![]);
        assert(name_pieces(own) =~= seq![]);
        assert(calls[index].arguments + Seq::<char>::empty() =~= calls[index].arguments);
        assert(calls[index].name + Seq::<char>::empty() =~= calls[index].name);
    } else {
        let front = deltas.drop_last();
        let last = deltas.last();
        let mid = with_deltas(calls, front);
        let older = deltas_of(front, index);
        lemma_calls_stay(calls, front);
        let before = if index < calls.len() {
            calls[index]
        } else {
            CallModel { id: seq![], name: seq![], arguments: seq![] }
        };
        if index < mid.len() {
            law_calls_are_put_together(calls, front, index);
        } else {
            lemma_no_fragments(calls, front, index);
            assert(argument_pieces(older) =~= seq![]);
            assert(name_pieces(older) =~= seq![]);
        }
        let so_far = with_place(mid, last.index as nat)[index];
        if index >= mid.len() {
            assert(so_far == before);
            assert(so_far.arguments =~= before.arguments + argument_pieces(older).flatten());
            assert(so_far.name =~= before.name + name_pieces(older).flatten());
        }
        if last.index == index {
            assert(own == older.push(last));
            let piece = argument_pieces(own).last();
            let name = name_pieces(own).last();
            assert(argument_pieces(own) =~= argument_pieces(older).push(piece));
            assert(name_pieces(own) =~= name_pieces(older).push(name));
            argument_pieces(older).lemma_flatten_push(piece);
            name_pieces(older).lemma_flatten_push(name);
            let after = with_deltas(calls, deltas)[index];
            assert(after.arguments =~= before.arguments + argument_pieces(own).flatten());
            assert(after.name =~= before.name + name_pieces(own).flatten());
            assert(own.last() == last);
            if last.id is None {
                assert(after.id == so_far.id);
                assert forall|i: int|
                    #![trigger own[i]]
                    0 <= i < own.len() && own[i].id is Some && (forall|j: int|
                        i < j < own.len() ==> (#[trigger] own[j]).id is None) implies after.id
                    == own[i].id->0@ by {
                    assert(own[i] == older[i]);
                    assert forall|j: int| i < j < older.len() implies (#[trigger] older[j]).id is None by {
                        assert(own[j] == older[j]);
                    }
                }
                if forall|i: int| 0 <= i < own.len() ==> (#[trigger] own[i]).id is None {
                    assert forall|i: int| 0 <= i < older.len() implies (#[trigger] older[i]).id is None by {
                        assert(own[i] == older[i]);
                    }
                }
            } else {
                assert forall|i: int|
                    #![trigger own[i]]
                    0 <= i < own.len() && own[i].id is Some && (forall|j: int|
                        i < j < own.len() ==> (#[trigger] own[j]).id is None) implies after.id
                    == own[i].id->0@ by {
                    assert(own[own.len() - 1].id is Some);
                }
                assert(own[own.len() - 1].id is Some);
            }
        } else {
            assert(own == older);
        }
    }
}

proof fn lemma_calls_stay(calls: Seq<CallModel>, deltas: Seq<CallDelta>)
    ensures
        calls.len() <= with_deltas(calls, deltas).len(),
    decreases deltas.len(),
{
    if deltas.len() > 0 {
        lemma_calls_stay(calls, deltas.drop_last());
    }
}

proof fn lemma_no_fragments(calls: Seq<CallModel>, deltas: Seq<CallDelta>, index: int)
    requires
        index >= with_deltas(calls, deltas).len(),
    ensures
        deltas_of(deltas, index).len() == 0,
    decreases deltas.len(),
{
    if deltas.len() > 0 {
        lemma_no_fragments(calls, deltas.drop_last(), index);
    }
}

/// Each fragment of a call finds a place among the calls, so none is lost.
pub proof fn law_every_fragment_has_a_call(calls: Seq<CallModel>, deltas: Seq<CallDelta>, i: int)
    requires
        0 <= i < deltas.len(),
    ensures
        deltas[i].index < with_deltas(calls, deltas).len(),
    decreases deltas.len(),
{
    let front = deltas.drop_last();
    if i < front.len() {
        law_every_fragment_has_a_call(calls, front, i);
    }
}

/// Events follow one another: the fragments of one event do the same whether they come together or
/// one behind the other, and the last reason and the last usage that came are kept.
pub proof fn law_events_follow_one_another(
    state: StateModel,
    first: Seq<StreamChoice>,
    second: Seq<StreamChoice>,
)
    ensures
        with_choices(state, first + second) == with_choices(with_choices(state, first), second),
        texts_of(first + second) == texts_of(first) + texts_of(second),
        with_choices(state, first).usage == state.usage,
    decreases second.len(),
{
    lemma_choices_keep_usage(state, first);
    if second.len() == 0 {
        assert(first + second =~= first);
        assert(texts_of(first) + texts_of(second) =~= texts_of(first));
    } else {
        law_events_follow_one_another(state, first, second.drop_last());
        assert((first + second).drop_last() =~= first + second.drop_last());
        assert((first + second).last() == second.last());
        assert(texts_of(first + second) =~= texts_of(first) + texts_of(second));
    }
}

proof fn lemma_choices_keep_usage(state: StateModel, choices: Seq<StreamChoice>)
    ensures
        with_choices(state, choices).usage == state.usage,
    decreases choices.len(),
{
    if choices.len() > 0 {
        lemma_choices_keep_usage(state, choices.drop_last());
    }
}

/// The reason that ends a reply is the last one that came, and the usage is that of the event where
/// it brings one.
pub proof fn law_last_reason_and_usage_stay(state: StateModel, chunk: StreamChunk, i: int)
    requires
        0 <= i < chunk.choices@.len(),
        chunk.choices@[i].finish_reason is Some,
        forall|j: int|
            i < j < chunk.choices@.len() ==> (#[trigger] chunk.choices@[j]).finish_reason is None,
    ensures
        with_chunk(state, chunk).finish_reason == chunk.choices@[i].finish_reason->0@,
        chunk.usage is Some ==> with_chunk(state, chunk).usage == chunk.usage->0,
        chunk.usage is None ==> with_chunk(state, chunk).usage == state.usage,
{
    let counted = StateModel {
        usage: match chunk.usage {
            Some(usage) => usage,
            None => state.usage,
        },
        ..state
    };
    lemma_choices_keep_usage(counted, chunk.choices@);
    lemma_last_reason(counted, chunk.choices@, i);
}

proof fn lemma_last_reason(state: StateModel, choices: Seq<StreamChoice>, i: int)
    requires
        0 <= i < choices.len(),
        choices[i].finish_reason is Some,
        forall|j: int| i < j < choices.len() ==> (#[trigger] choices[j]).finish_reason is None,
    ensures
        with_choices(state, choices).finish_reason == choices[i].finish_reason->0@,
    decreases choices.len(),
{
    let front = choices.drop_last();
    if i < front.len() {
        assert(choices[choices.len() - 1].finish_reason is None);
        assert forall|j: int| i < j < front.len() implies (
        #[trigger] front[j]).finish_reason is None by {
            assert(front[j] == choices[j]);
        }
        lemma_last_reason(state, front, i);
    }
}

/// Of the calls of a reply, those with an id and a name are made, unchanged and in order; the others
/// are not.
pub proof fn law_complete_calls_are_made(before: Seq<CallModel>, call: CallModel, after: Seq<CallModel>)
    ensures
        complete_calls(before + seq![call] + after) == complete_calls(before) + (if call.id.len() > 0
            && call.name.len() > 0 {
            seq![call]
        } else {
            seq![]
        }) + complete_calls(after),
        complete_calls(seq![]) == Seq::<CallModel>::empty(),
{
    let keep = |call: CallModel| complete(call);
    Seq::filter_distributes_over_add(before + seq![call], after, keep);
    Seq::filter_distributes_over_add(before, seq![call], keep);
    assert(seq![call].filter(keep) =~= if keep(call) {
        seq![call]
    } else {
        seq![]
    }) by {
        reveal_with_fuel(Seq::filter, 2);
        assert(seq![call].drop_last() =~= seq![]);
        assert(seq![call].last() == call);
    }
    assert(Seq::<CallModel>::empty().filter(keep) =~= seq![]) by {
        reveal_with_fuel(Seq::filter, 2);
    }
}

/// A line of an event carries what stands behind `data:`, with or without a space in between; the
/// text itself is not touched.
pub proof fn law_data_lines_carry_their_text(json: Seq<char>)
    requires
        json.len() > 0,
        !text::is_white(json[0]),
        !text::is_white(json.last()),
        json != "[DONE]"@,
    ensures
        payload_of("data: "@ + json) == Some(Payload::Json(json)),
        payload_of("data:"@ + json) == Some(Payload::Json(json)),
        payload_of("data: [DONE]"@) == Some(Payload::<Seq<char>>::Done),
{
    reveal_strlit("data:");
    reveal_strlit("data: ");
    reveal_strlit("[DONE]");
    reveal_strlit("data: [DONE]");
    lemma_data_line(json);
    let done = "[DONE]"@;
    assert("data: [DONE]"@ =~= "data: "@ + done);
    lemma_data_line(done);
}

#[verifier::rlimit(50)]
proof fn lemma_data_line(data: Seq<char>)
    requires
        data.len() > 0,
        !text::is_white(data[0]),
        !text::is_white(data.last()),
    ensures
        scan::has_prefix("data: "@ + data, "data:"@),
        scan::has_prefix("data:"@ + data, "data:"@),
        scan::trimmed(("data: "@ + data).skip("data:"@.len() as int)) == data,
        scan::trimmed(("data:"@ + data).skip("data:"@.len() as int)) == data,
{
    reveal_strlit("data:");
    reveal_strlit("data: ");
    let spaced = "data: "@ + data;
    let plain = "data:"@ + data;
    assert(spaced.subrange(0, 5) =~= "data:"@);
    assert(plain.subrange(0, 5) =~= "data:"@);
    assert(plain.skip(5) =~= data);
    scan::lemma_trimmed_bare(data);
    let rest = spaced.skip(5);
    assert(rest =~= seq![' '] + data);
    scan::lemma_span_unique(rest, scan::white(), 1);
    assert(rest.skip(1) =~= data);
    scan::lemma_span_back_unique(data, scan::white(), 0);
    assert(data.take(data.len() as int) =~= data);
}

// ---------------------------------------------------------------------------------------------
// What a request carries
// ---------------------------------------------------------------------------------------------

/// The words in a message that goes over the wire, run together.
pub open spec fn words_sent(content: Option<ContentModel>) -> Seq<char> {
    match content {
        None => seq![],
        Some(ContentModel::Text(words)) => words,
        Some(ContentModel::Parts(parts)) => parts.map_values(
            |part: WirePart<Seq<char>>|
                match part {
                    WirePart::Text { text } => text,
                    WirePart::ImageUrl { url } => seq![],
                },
        ).flatten(),
    }
}

/// The pictures in a message that goes over the wire, in order.
pub open spec fn pictures_sent(content: Option<ContentModel>) -> Seq<Seq<char>> {
    match content {
        Some(ContentModel::Parts(parts)) => parts.map_values(
            |part: WirePart<Seq<char>>|
                match part {
                    WirePart::Text { text } => Seq::<Seq<char>>::empty(),
                    WirePart::ImageUrl { url } => seq![url],
                },
        ).flatten(),
        _ => seq![],
    }
}

proof fn lemma_no_words(parts: Seq<Seq<char>>)
    requires
        forall|i: int| 0 <= i < parts.len() ==> (#[trigger] parts[i]).len() == 0,
    ensures
        parts.flatten() == Seq::<char>::empty(),
    decreases parts.len(),
{
    if parts.len() > 0 {
        assert forall|i: int| 0 <= i < parts.drop_first().len() implies (
        #[trigger] parts.drop_first()[i]).len() == 0 by {
            assert(parts.drop_first()[i] == parts[i + 1]);
        }
        lemma_no_words(parts.drop_first());
        assert(parts[0].len() == 0);
        assert(parts.flatten() =~= seq![]);
    }
}

proof fn lemma_singles(parts: Seq<Seq<Seq<char>>>, items: Seq<Seq<char>>)
    requires
        parts.len() == items.len(),
        forall|i: int| 0 <= i < parts.len() ==> #[trigger] parts[i] == seq![items[i]],
    ensures
        parts.flatten() == items,
    decreases parts.len(),
{
    if parts.len() > 0 {
        assert forall|i: int| 0 <= i < parts.drop_first().len() implies #[trigger] parts.drop_first()[i]
            == seq![items.drop_first()[i]] by {
            assert(parts.drop_first()[i] == parts[i + 1]);
        }
        lemma_singles(parts.drop_first(), items.drop_first());
        assert(parts[0] == seq![items[0]]);
        assert(items =~= seq![items[0]] + items.drop_first());
    } else {
        assert(items =~= seq![]);
    }
}

/// A message goes over the wire whole: its words unchanged, with or without pictures; every picture,
/// in order, each with the kind and the data that it has; its tool calls, the id of the call that it
/// answers, and who speaks.
pub proof fn law_messages_go_over_the_wire_whole(message: MessageModel)
    ensures
        words_sent(wired(message).content) == message.content,
        pictures_sent(wired(message).content).len() == message.images.len(),
        forall|i: int|
            0 <= i < message.images.len() ==> ({
                let sent = #[trigger] pictures_sent(wired(message).content)[i];
                let front = "data:"@ + message.images[i].media_type + ";base64,"@;
                sent.take(front.len() as int) == front && sent.skip(front.len() as int)
                    == message.images[i].data
            }),
        wired(message).tool_calls == message.tool_calls,
        wired(message).tool_call_id == message.tool_call_id,
        wired(message).role == match message.role {
            Role::System => "system"@,
            Role::User => "user"@,
            Role::Assistant => "assistant"@,
            Role::Tool => "tool"@,
        },
        wired(message).content is None <==> message.content.len() == 0 && message.images.len() == 0
            && message.tool_calls.len() > 0,
{
    let content = wired(message).content;
    if message.images.len() > 0 {
        let parts = parts_of(message.content, message.images);
        let shown = Seq::new(
            message.images.len(),
            |i: int| WirePart::ImageUrl { url: image_url(message.images[i]) },
        );
        let words = |part: WirePart<Seq<char>>|
            match part {
                WirePart::Text { text } => text,
                WirePart::ImageUrl { url } => seq![],
            };
        let pictures = |part: WirePart<Seq<char>>|
            match part {
                WirePart::Text { text } => Seq::<Seq<char>>::empty(),
                WirePart::ImageUrl { url } => seq![url],
            };
        let urls = Seq::new(message.images.len(), |i: int| image_url(message.images[i]));
        lemma_no_words(shown.map_values(words));
        lemma_singles(shown.map_values(pictures), urls);
        if message.content.len() > 0 {
            let text = WirePart::Text { text: message.content };
            assert(parts.map_values(words).drop_first() =~= shown.map_values(words));
            assert(parts.map_values(pictures).drop_first() =~= shown.map_values(pictures));
            assert(parts.map_values(words)[0] == message.content);
            assert(parts.map_values(pictures)[0] == Seq::<Seq<char>>::empty());
            assert(parts.map_values(words).flatten() =~= message.content);
            assert(parts.map_values(pictures).flatten() =~= urls);
        } else {
            assert(parts =~= shown);
            assert(message.content =~= seq![]);
        }
        assert(pictures_sent(content) == urls);
        assert forall|i: int| 0 <= i < message.images.len() implies ({
            let sent = #[trigger] pictures_sent(content)[i];
            let front = "data:"@ + message.images[i].media_type + ";base64,"@;
            sent.take(front.len() as int) == front && sent.skip(front.len() as int)
                == message.images[i].data
        }) by {
            let front = "data:"@ + message.images[i].media_type + ";base64,"@;
            let url = front + message.images[i].data;
            assert(image_url(message.images[i]) == url);
            assert(url.take(front.len() as int) =~= front);
            assert(url.skip(front.len() as int) =~= message.images[i].data);
        }
    } else if message.content.len() == 0 {
        assert(message.content =~= seq![]);
    }
}

/// Where a request goes: slashes at the end of the base and at the front of the path make no
/// difference, a path that is an address of its own is taken as it is, and a base and a path that
/// meet without slashes are joined by one.
pub proof fn law_addresses_meet_at_one_slash(base: Seq<char>, path: Seq<char>)
    ensures
        chat_url_of(base.push('/'), Some(path)) == chat_url_of(base, Some(path)),
        chat_url_of(base.push('/'), None) == chat_url_of(base, None),
        base.len() > 0 && base.last() != '/' ==> chat_url_of(base, None) == base
            + "/chat/completions"@,
        path.len() >= 7 && path.take(7) == "http://"@ ==> chat_url_of(base, Some(path)) == path,
        path.len() >= 8 && path.take(8) == "https://"@ ==> chat_url_of(base, Some(path)) == path,
        base.len() > 0 && base.last() != '/' && path.len() > 0 && path[0] != '/' && path[0] != 'h'
            ==> chat_url_of(base, Some(path)) == base.push('/') + path && chat_url_of(
            base,
            Some(seq!['/'] + path),
        ) == base.push('/') + path,
{
    reveal_strlit("http://");
    reveal_strlit("https://");
    reveal_strlit("/");
    let p = scan::one_of(seq!['/']);
    assert(seq!['/'].contains('/')) by {
        assert(seq!['/'][0] == '/');
    }
    assert(base.push('/').drop_last() =~= base);
    assert(p('/'));
    assert(scan::trim_back(base.push('/'), p) =~= scan::trim_back(base, p)) by {
        scan::lemma_span_back_bound(base, p);
        assert(scan::span_back(base.push('/'), p) == 1 + scan::span_back(base, p));
    }
    if base.len() > 0 && base.last() != '/' {
        assert(!p(base.last()));
        assert(scan::trim_back(base, p) =~= base);
    }
    if path.len() >= 7 {
        assert(path.take(7) =~= path.subrange(0, 7));
    }
    if path.len() >= 8 {
        assert(path.take(8) =~= path.subrange(0, 8));
    }
    if path.len() > 0 && path[0] != '/' && path[0] != 'h' {
        assert(!p(path[0]));
        assert(scan::trim_front(path, p) =~= path);
        if scan::has_prefix(path, "http://"@) {
            assert(path.subrange(0, 7)[0] == path[0]);
        }
        if scan::has_prefix(path, "https://"@) {
            assert(path.subrange(0, 8)[0] == path[0]);
        }
        let more = seq!['/'] + path;
        assert(more.skip(1) =~= path);
        assert(scan::span(more, p) == 1 + scan::span(path, p));
        assert(scan::trim_front(more, p) =~= path);
        if scan::has_prefix(more, "http://"@) {
            assert(more.subrange(0, 7)[0] == more[0]);
        }
        if scan::has_prefix(more, "https://"@) {
            assert(more.subrange(0, 8)[0] == more[0]);
        }
        assert("/"@ =~= seq!['/']);
        if base.len() > 0 && base.last() != '/' {
            assert(base + "/"@ + path =~= base.push('/') + path);
        }
    }
}

/// Nothing that comes behind the end of a stream counts, and all that comes before it does.
pub proof fn law_nothing_follows_the_end(
    first: Seq<Seq<char>>,
    end: Seq<char>,
    rest: Seq<Seq<char>>,
)
    requires
        payload_of(end) == Some(Payload::<Seq<char>>::Done),
    ensures
        payloads_of(first.push(end) + rest) == payloads_of(first.push(end)),
        (forall|k: int|
            0 <= k < first.len() ==> payload_of(#[trigger] first[k])
                != Some(Payload::<Seq<char>>::Done)) ==> payloads_of(first.push(end))
            == payloads_of(first).push(Payload::Done),
    decreases first.len(),
{
    let all = first.push(end) + rest;
    let short = first.push(end);
    if first.len() == 0 {
        assert(all[0] == end && short[0] == end);
        assert(payloads_of(first) =~= seq![]);
        assert(payloads_of(short) =~= seq![Payload::Done]);
    } else {
        let less = first.skip(1);
        assert(all.skip(1) =~= less.push(end) + rest);
        assert(short.skip(1) =~= less.push(end));
        assert(all[0] == first[0] && short[0] == first[0]);
        law_nothing_follows_the_end(less, end, rest);
        if forall|k: int|
            0 <= k < first.len() ==> payload_of(#[trigger] first[k])
                != Some(Payload::<Seq<char>>::Done) {
            assert forall|k: int| 0 <= k < less.len() implies payload_of(#[trigger] less[k])
                != Some(Payload::<Seq<char>>::Done) by {
                assert(less[k] == first[k + 1]);
            }
            assert(payload_of(first[0]) != Some(Payload::<Seq<char>>::Done));
            assert(payloads_of(short) =~= payloads_of(first).push(Payload::Done));
        }
    }
}

/// Why an event cannot be read is told, whole.
pub proof fn law_unreadable_events_say_why(cause: Seq<char>)
    ensures
        cause.is_suffix_of(unreadable_event(cause)),
        unreadable_event(cause).len() > cause.len(),
{
    reveal_strlit("provider returned invalid UTF-8: ");
    let told = unreadable_event(cause);
    assert(cause =~= told.skip(told.len() - cause.len()));
}

} // verus!
