//! Tools of MCP servers: their names, what came of connecting, and what a call gives back.
use crate::config::McpServer;
use crate::json;
use crate::split;
use crate::split::join;
use crate::text;
use crate::text::{cat, cat3};
use crate::tools::McpTool;
use vstd::prelude::*;
use vstd::string::*;

verus! {

broadcast use crate::text::group_views;

/// What came of connecting to a server.
#[derive(Debug)]
pub struct ConnectionStatus {
    pub name: String,
    pub tool_count: usize,
    pub trusted: bool,
    /// The server is configured but switched off.
    pub disabled: bool,
    pub error: Option<String>,
}

/// What a [`ConnectionStatus`] stands for.
#[verifier::ext_equal]
pub struct StatusModel {
    pub name: Seq<char>,
    pub tool_count: int,
    pub trusted: bool,
    pub disabled: bool,
    pub error: Option<Seq<char>>,
}

impl View for ConnectionStatus {
    type V = StatusModel;

    open spec fn view(&self) -> StatusModel {
        StatusModel {
            name: self.name@,
            tool_count: self.tool_count as int,
            trusted: self.trusted,
            disabled: self.disabled,
            error: text::opt_view(self.error),
        }
    }
}

/// What an [`McpTool`] stands for.
#[verifier::ext_equal]
pub struct ToolModel {
    pub qualified_name: Seq<char>,
    pub remote_name: Seq<char>,
    pub description: Seq<char>,
    pub schema: Seq<char>,
    pub trusted: bool,
}

impl View for McpTool {
    type V = ToolModel;

    open spec fn view(&self) -> ToolModel {
        ToolModel {
            qualified_name: self.qualified_name@,
            remote_name: self.remote_name@,
            description: self.description@,
            schema: self.schema@,
            trusted: self.trusted,
        }
    }
}

/// A tool as a server lists it.
#[derive(Debug)]
pub struct RemoteTool {
    pub name: String,
    pub description: Option<String>,
    /// The JSON schema of the arguments, as text.
    pub schema: String,
}

/// What all servers together offer, and what came of connecting to each.
#[derive(Debug)]
pub struct Connections {
    pub tools: Vec<McpTool>,
    pub statuses: Vec<ConnectionStatus>,
}

/// What came of connecting to one server: its tools, or why there are none.
pub type Connected = Result<Vec<RemoteTool>, String>;

/// A server's tool among all tools.
pub open spec fn tool_of(server: McpServer, tool: RemoteTool) -> ToolModel {
    ToolModel {
        qualified_name: server.name@ + "__"@ + tool.name@,
        remote_name: tool.name@,
        description: match tool.description {
            Some(description) => description@,
            None => seq![],
        },
        schema: tool.schema@,
        trusted: server.trusted,
    }
}

/// The tools of a server; one that is switched off or failed has none.
pub open spec fn tools_of(server: McpServer, outcome: Connected) -> Seq<ToolModel> {
    match outcome {
        Ok(tools) => if server.enabled {
            tools@.map_values(|tool: RemoteTool| tool_of(server, tool))
        } else {
            seq![]
        },
        Err(_) => seq![],
    }
}

/// What is told of a server.
pub open spec fn status_of(server: McpServer, outcome: Connected) -> StatusModel {
    StatusModel {
        name: server.name@,
        tool_count: tools_of(server, outcome).len() as int,
        trusted: server.trusted,
        disabled: !server.enabled,
        error: if server.enabled {
            match outcome {
                Ok(_) => None,
                Err(words) => Some(words@),
            }
        } else {
            None
        },
    }
}

/// The tools of all servers, in order.
pub open spec fn all_tools(servers: Seq<McpServer>, outcomes: Seq<Connected>) -> Seq<ToolModel>
    decreases outcomes.len(),
{
    if outcomes.len() == 0 {
        seq![]
    } else {
        all_tools(servers, outcomes.drop_last()) + tools_of(
            servers[outcomes.len() - 1],
            outcomes.last(),
        )
    }
}

fn wrap_tools(server: &McpServer, tools: &[RemoteTool]) -> (r: Vec<McpTool>)
    ensures
        text::views(r@) == tools@.map_values(|tool: RemoteTool| tool_of(*server, tool)),
{
    let ghost all = tools@.map_values(|tool: RemoteTool| tool_of(*server, tool));
    let mut out: Vec<McpTool> = Vec::new();
    let mut i: usize = 0;
    while i < tools.len()
        invariant
            i <= tools.len(),
            all == tools@.map_values(|tool: RemoteTool| tool_of(*server, tool)),
            text::views(out@) =~= all.take(i as int),
        decreases tools.len() - i,
    {
        let tool = &tools[i];
        let description = match &tool.description {
            Some(description) => description.clone(),
            None => String::new(),
        };
        let wrapped = McpTool {
            qualified_name: qualified_name(server.name.as_str(), tool.name.as_str()),
            remote_name: tool.name.clone(),
            description,
            schema: tool.schema.clone(),
            trusted: server.trusted,
        };
        assert(wrapped@.description =~= tool_of(*server, *tool).description);
        out.push(wrapped);
        i += 1;
    }
    assert(all.take(i as int) =~= all);
    out
}

/// Put together what came of connecting to each server. One that failed is reported and leaves
/// the others alone; one that is switched off is listed as such.
pub fn connect_all(servers: &[McpServer], outcomes: Vec<Connected>) -> (r: Connections)
    requires
        servers@.len() == outcomes@.len(),
    ensures
        text::views(r.tools@) == all_tools(servers@, outcomes@),
        r.statuses@.len() == servers@.len(),
        forall|i: int|
            0 <= i < servers@.len() ==> (#[trigger] r.statuses@[i])@ == status_of(
                servers@[i],
                outcomes@[i],
            ),
{
    let mut tools: Vec<McpTool> = Vec::new();
    let mut statuses: Vec<ConnectionStatus> = Vec::new();
    let mut i: usize = 0;
    assert(text::views(tools@) =~= seq![]);
    while i < outcomes.len()
        invariant
            i <= outcomes.len(),
            servers@.len() == outcomes@.len(),
            text::views(tools@) == all_tools(servers@, outcomes@.take(i as int)),
            statuses@.len() == i,
            forall|k: int|
                0 <= k < i ==> (#[trigger] statuses@[k])@ == status_of(servers@[k], outcomes@[k]),
        decreases outcomes.len() - i,
    {
        let ghost before = text::views(tools@);
        let ghost outcome = outcomes@[i as int];
        proof {
            assert(outcomes@.take(i + 1).drop_last() =~= outcomes@.take(i as int));
            assert(outcomes@.take(i + 1).last() == outcome);
        }
        let server = &servers[i];
        let mut found: Vec<McpTool> = Vec::new();
        let mut error: Option<String> = None;
        assert(text::views(found@) =~= seq![]);
        if server.enabled {
            match &outcomes[i] {
                Ok(listed) => {
                    found = wrap_tools(server, listed);
                },
                Err(words) => {
                    error = Some(words.clone());
                },
            }
        }
        assert(text::views(found@) == tools_of(*server, outcome));
        statuses.push(
            ConnectionStatus {
                name: server.name.clone(),
                tool_count: found.len(),
                trusted: server.trusted,
                disabled: !server.enabled,
                error,
            },
        );
        let ghost added = text::views(found@);
        tools.append(&mut found);
        assert(text::views(tools@) =~= before + added);
        i += 1;
    }
    assert(outcomes@.take(i as int) =~= outcomes@);
    Connections { tools, statuses }
}

/// The name of a server's tool among all tools, so that it cannot be taken for another server's or
/// for a built-in one.
pub fn qualified_name(server: &str, tool: &str) -> (r: String)
    ensures
        r@ == server@ + "__"@ + tool@,
{
    cat3(server, "__", tool)
}

/// The texts of the items that have one, in order.
pub open spec fn texts_of(items: Seq<serde_json::Value>) -> Seq<Seq<char>>
    decreases items.len(),
{
    if items.len() == 0 {
        seq![]
    } else {
        let before = texts_of(items.drop_last());
        match json::text_under(items.last(), "text"@) {
            Some(text) => before.push(text),
            None => before,
        }
    }
}

/// What is told of a result with the given texts, error mark and JSON.
pub open spec fn told(texts: Seq<Seq<char>>, is_error: bool, whole: Seq<char>) -> Seq<char> {
    let body = if texts.len() == 0 {
        whole
    } else {
        split::joined(texts, "\n"@)
    };
    if is_error {
        "Error: "@ + body
    } else {
        body
    }
}

/// What is told of a result: its texts one below the other, or all of it as JSON where it has no
/// text. An error is marked as one.
pub fn tell(texts: &[String], is_error: bool, whole: String) -> (r: String)
    ensures
        r@ == told(text::views(texts@), is_error, whole@),
{
    let body = if texts.len() == 0 {
        whole
    } else {
        join(texts, "\n")
    };
    if is_error {
        cat("Error: ", body.as_str())
    } else {
        body
    }
}

/// The texts of the items that have one, in order.
fn collect_texts(items: &[serde_json::Value]) -> (r: Vec<String>)
    ensures
        text::views(r@) == texts_of(items@),
{
    let mut texts: Vec<String> = Vec::new();
    let mut i: usize = 0;
    assert(text::views(texts@) =~= seq![]);
    while i < items.len()
        invariant
            i <= items.len(),
            text::views(texts@) == texts_of(items@.take(i as int)),
        decreases items.len() - i,
    {
        let ghost before = text::views(texts@);
        assert(items@.take(i + 1).drop_last() =~= items@.take(i as int));
        if let Some(found) = json::get_text(&items[i], "text") {
            texts.push(found);
            assert(text::views(texts@) =~= before.push(found@));
        }
        i += 1;
    }
    assert(items@.take(i as int) =~= items@);
    texts
}

/// The texts of a result: those of the items of its content, and none where its content is no array.
pub open spec fn result_texts(result: serde_json::Value) -> Seq<Seq<char>> {
    match json::items_under(result, "content"@) {
        Some(items) => texts_of(items),
        None => seq![],
    }
}

/// A tool's result as text for the model.
pub fn render_result(result: &serde_json::Value) -> (r: String)
    ensures
        r@ == told(
            result_texts(*result),
            json::flag_under(*result, "isError"@) == Some(true),
            json::written(*result),
        ),
{
    let is_error = match json::get_flag(result, "isError") {
        Some(flag) => flag,
        None => false,
    };
    let texts = match json::get_items(result, "content") {
        Some(items) => collect_texts(items),
        None => Vec::new(),
    };
    assert(text::views(texts@) =~= result_texts(*result));
    tell(&texts, is_error, json::write(result))
}

// ---------------------------------------------------------------------------------------------
// What a server gives
// ---------------------------------------------------------------------------------------------

/// Every text of a result is told, whole; a failed call is told as the same words behind a mark, and
/// a result without texts is told as it came.
pub proof fn law_results_tell_every_text(texts: Seq<Seq<char>>, whole: Seq<char>, i: int)
    ensures
        told(texts, true, whole) == "Error: "@ + told(texts, false, whole),
        texts.len() == 0 ==> told(texts, false, whole) == whole,
        texts.len() == 1 ==> told(texts, false, whole) == texts[0],
        0 <= i < texts.len() ==> text::stands_in(told(texts, false, whole), texts[i]),
        0 < i < texts.len() ==> told(texts, false, whole) == told(texts.take(i), false, whole)
            + "\n"@ + told(texts.skip(i), false, whole),
{
    if texts.len() > 0 {
        split::law_joining_keeps_every_part(texts, texts, "\n"@);
    }
    if 0 < i < texts.len() {
        split::law_joining_keeps_every_part(texts.take(i), texts.skip(i), "\n"@);
        assert(texts.take(i) + texts.skip(i) =~= texts);
    }
}

/// The texts of a result are those of all its items, in order, an item without a text giving none.
pub proof fn law_every_item_is_read(
    first: Seq<serde_json::Value>,
    second: Seq<serde_json::Value>,
    item: serde_json::Value,
)
    ensures
        texts_of(first + second) == texts_of(first) + texts_of(second),
        texts_of(seq![item]) == match json::text_under(item, "text"@) {
            Some(words) => seq![words],
            None => seq![],
        },
    decreases second.len(),
{
    reveal_with_fuel(texts_of, 2);
    assert(seq![item].drop_last() =~= seq![]);
    if second.len() == 0 {
        assert(first + second =~= first);
        assert(texts_of(first) + texts_of(second) =~= texts_of(first));
    } else {
        law_every_item_is_read(first, second.drop_last(), item);
        assert((first + second).drop_last() =~= first + second.drop_last());
        assert(texts_of(first + second) =~= texts_of(first) + texts_of(second));
    }
}

/// The tool is the one that the server offered, under a name of its own.
pub open spec fn stands_for(tool: ToolModel, server: McpServer, remote: RemoteTool) -> bool {
    &&& tool.remote_name == remote.name@
    &&& tool.qualified_name == server.name@ + seq!['_', '_'] + remote.name@
    &&& tool.schema == remote.schema@
    &&& tool.trusted == server.trusted
    &&& match remote.description {
        Some(description) => tool.description == description@,
        None => tool.description.len() == 0,
    }
}

/// Every tool of every server that is switched on and was reached is offered, with what the server
/// says of it; a server that is switched off, or was not reached, gives none. What is told of a
/// server counts its tools and says why it was not reached.
pub proof fn law_every_tool_of_every_server_comes(
    servers: Seq<McpServer>,
    outcomes: Seq<Connected>,
    i: int,
    j: int,
)
    requires
        servers.len() == outcomes.len(),
        0 <= i < servers.len(),
    ensures
        servers[i].enabled ==> (outcomes[i] matches Ok(tools) ==> status_of(
            servers[i],
            outcomes[i],
        ).tool_count == tools@.len() && (0 <= j < tools@.len() ==> exists|k: int|
            0 <= k < all_tools(servers, outcomes).len() && stands_for(
                #[trigger] all_tools(servers, outcomes)[k],
                servers[i],
                tools@[j],
            ))),
        !servers[i].enabled || outcomes[i] is Err ==> status_of(servers[i], outcomes[i]).tool_count
            == 0 && all_tools(servers, outcomes.take(i + 1)) == all_tools(
            servers,
            outcomes.take(i),
        ),
        status_of(servers[i], outcomes[i]).name == servers[i].name@,
        status_of(servers[i], outcomes[i]).disabled == !servers[i].enabled,
        status_of(servers[i], outcomes[i]).trusted == servers[i].trusted,
        servers[i].enabled ==> (outcomes[i] matches Err(words) ==> status_of(
            servers[i],
            outcomes[i],
        ).error == Some(words@)),
    decreases outcomes.len(),
{
    reveal_strlit("__");
    assert(outcomes.take(i + 1).drop_last() =~= outcomes.take(i));
    assert(all_tools(servers, outcomes.take(i + 1)) =~= all_tools(servers, outcomes.take(i))
        + tools_of(servers[i], outcomes[i]));
    if servers[i].enabled {
        if let Ok(tools) = outcomes[i] {
            if 0 <= j < tools@.len() {
                lemma_tools_stay(servers, outcomes, i + 1);
                let k = all_tools(servers, outcomes.take(i)).len() + j;
                assert("__"@ =~= seq!['_', '_']);
                assert(all_tools(servers, outcomes)[k] == all_tools(servers, outcomes.take(i + 1))[k]);
                assert(stands_for(all_tools(servers, outcomes)[k], servers[i], tools@[j]));
            }
        }
    } else {
        assert(all_tools(servers, outcomes.take(i + 1)) =~= all_tools(servers, outcomes.take(i)));
    }
}

proof fn lemma_tools_stay(servers: Seq<McpServer>, outcomes: Seq<Connected>, n: int)
    requires
        0 <= n <= outcomes.len(),
    ensures
        all_tools(servers, outcomes.take(n)).is_prefix_of(all_tools(servers, outcomes)),
    decreases outcomes.len(),
{
    if n < outcomes.len() {
        lemma_tools_stay(servers, outcomes.drop_last(), n);
        assert(outcomes.drop_last().take(n) =~= outcomes.take(n));
    } else {
        assert(outcomes.take(n) =~= outcomes);
    }
}

/// The texts of a result are those of its content, every item of it; a result without content has
/// none.
pub proof fn law_results_hold_the_texts_of_their_content(
    result: serde_json::Value,
    i: int,
    item: serde_json::Value,
)
    ensures
        json::items_under(result, "content"@) is None ==> result_texts(result).len() == 0,
        json::items_under(result, "content"@) matches Some(items) ==> (0 <= i < items.len()
            && items[i] == item ==> (json::text_under(item, "text"@) matches Some(words)
            ==> result_texts(result).contains(words))),
{
    if let Some(items) = json::items_under(result, "content"@) {
        if 0 <= i < items.len() && items[i] == item {
            if let Some(words) = json::text_under(item, "text"@) {
                lemma_text_stays(items, i, words);
            }
        }
    }
}

proof fn lemma_text_stays(items: Seq<serde_json::Value>, i: int, words: Seq<char>)
    requires
        0 <= i < items.len(),
        json::text_under(items[i], "text"@) == Some(words),
    ensures
        texts_of(items).contains(words),
    decreases items.len(),
{
    let front = items.drop_last();
    if i < front.len() {
        assert(front[i] == items[i]);
        lemma_text_stays(front, i, words);
        let k = texts_of(front).index_of(words);
        assert(texts_of(items)[k] == words);
    } else {
        assert(texts_of(items)[texts_of(front).len() as int] == words);
    }
}

} // verus!
