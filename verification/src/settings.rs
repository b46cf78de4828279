//! Changes to a `kamui.toml` that the program makes itself: first-run setup, the theme, switching
//! a server on or off, and adding a profile.
//!
//! A document is read, changed and written as a whole, so that what a change does not speak of
//! stays as it was.
use crate::config::{ConfigError, ConfigFile};
use crate::scan::{is_blank, trim_end, Class};
use crate::scan;
use crate::text;
use crate::text::{cat, cat3};
use vstd::prelude::*;
use vstd::string::*;

verus! {

// ---------------------------------------------------------------------------------------------
// TOML documents
// ---------------------------------------------------------------------------------------------

/// `toml::map::Map`: a TOML table.
#[verifier::external_type_specification]
#[verifier::external_body]
#[verifier::reject_recursive_types(K)]
#[verifier::reject_recursive_types(V)]
pub struct ExTomlMap<K, V>(toml::map::Map<K, V>);

/// `toml::Value`: what a key of a TOML table holds.
#[verifier::external_type_specification]
#[verifier::external_body]
pub struct ExTomlValue(toml::Value);

/// What a TOML table maps each of its keys to.
pub uninterp spec fn contents(table: toml::map::Map<String, toml::Value>) -> Map<Seq<char>, toml::Value>;

/// The value `toml::Value::String` of a text.
pub uninterp spec fn text_value(text: Seq<char>) -> toml::Value;

/// The value `toml::Value::Boolean` of a flag.
pub uninterp spec fn flag_value(flag: bool) -> toml::Value;

/// The value `toml::Value::Table` of a table with the given contents.
pub uninterp spec fn table_value(inner: Map<Seq<char>, toml::Value>) -> toml::Value;

/// The contents of the table that a value is, where it is one.
pub uninterp spec fn table_in(value: toml::Value) -> Option<Map<Seq<char>, toml::Value>>;

/// What `toml::from_str` makes of a text: the contents of a table, or the words of its error.
pub uninterp spec fn parsed(text: Seq<char>) -> Result<Map<Seq<char>, toml::Value>, Seq<char>>;

/// What `toml::to_string_pretty` makes of a table with the given contents: a text, or the words of
/// its error.
pub uninterp spec fn rendered(inner: Map<Seq<char>, toml::Value>) -> Result<Seq<char>, Seq<char>>;

/// The contents of a table without keys.
pub open spec fn nothing() -> Map<Seq<char>, toml::Value> {
    Map::empty()
}

/// `toml::map::Map::new`: a table without keys.
#[verifier::external_body]
fn empty_table() -> (r: toml::map::Map<String, toml::Value>)
    ensures
        contents(r) == nothing(),
{
    toml::map::Map::new()
}

/// `toml::from_str`, into a table. Which text parses to what is left to its name; the outcome
/// depends on the text alone.
#[verifier::external_body]
fn parse_table(text: &str) -> (r: Result<toml::map::Map<String, toml::Value>, String>)
    ensures
        match r {
            Ok(table) => parsed(text@) == Ok::<Map<Seq<char>, toml::Value>, Seq<char>>(
                contents(table),
            ),
            Err(words) => parsed(text@) == Err::<Map<Seq<char>, toml::Value>, Seq<char>>(words@),
        },
{
    toml::from_str::<toml::map::Map<String, toml::Value>>(text).map_err(|e| e.to_string())
}

/// `toml::to_string_pretty` of a table. How a table is written is left to its name; the outcome
/// depends on the contents alone, since the table keeps its keys sorted.
#[verifier::external_body]
fn render_table(table: &toml::map::Map<String, toml::Value>) -> (r: Result<String, String>)
    ensures
        match r {
            Ok(text) => rendered(contents(*table)) == Ok::<Seq<char>, Seq<char>>(text@),
            Err(words) => rendered(contents(*table)) == Err::<Seq<char>, Seq<char>>(words@),
        },
{
    toml::to_string_pretty(table).map_err(|e| e.to_string())
}

/// `toml::map::Map::insert`: the key then has the value, and no other key changes.
#[verifier::external_body]
fn put(table: &mut toml::map::Map<String, toml::Value>, key: &str, value: toml::Value)
    ensures
        contents(*final(table)) == contents(*old(table)).insert(key@, value),
{
    table.insert(key.to_string(), value);
}

/// `toml::map::Map::remove`: the key is gone, and its value is returned where it had one.
#[verifier::external_body]
fn take_out(table: &mut toml::map::Map<String, toml::Value>, key: &str) -> (r: Option<toml::Value>)
    ensures
        contents(*final(table)) == contents(*old(table)).remove(key@),
        r == if contents(*old(table)).dom().contains(key@) {
            Some(contents(*old(table))[key@])
        } else {
            None
        },
{
    table.remove(key)
}

/// `toml::map::Map::keys`: the keys of the table, each once. Their order is not said.
#[verifier::external_body]
fn keys_of(table: &toml::map::Map<String, toml::Value>) -> (r: Vec<String>)
    ensures
        text::views(r@).no_duplicates(),
        text::views(r@).to_set() == contents(*table).dom(),
{
    table.keys().cloned().collect()
}

/// `toml::Value::String`: the value of a text.
#[verifier::external_body]
fn as_text(text: &str) -> (r: toml::Value)
    ensures
        r == text_value(text@),
{
    toml::Value::String(text.to_string())
}

/// `toml::Value::Boolean`: the value of a flag.
#[verifier::external_body]
fn as_flag(flag: bool) -> (r: toml::Value)
    ensures
        r == flag_value(flag),
{
    toml::Value::Boolean(flag)
}

/// `toml::Value::Table`: the value of a table, from which the table can be had again.
#[verifier::external_body]
fn as_value(table: toml::map::Map<String, toml::Value>) -> (r: toml::Value)
    ensures
        r == table_value(contents(table)),
        table_in(r) == Some(contents(table)),
{
    toml::Value::Table(table)
}

/// Tells `toml::Value::Table` from the other variants.
#[verifier::external_body]
fn into_table(value: toml::Value) -> (r: Option<toml::map::Map<String, toml::Value>>)
    ensures
        match r {
            Some(table) => table_in(value) == Some(contents(table)),
            None => table_in(value) is None,
        },
{
    match value {
        toml::Value::Table(table) => Some(table),
        _ => None,
    }
}

// ---------------------------------------------------------------------------------------------
// Errors
// ---------------------------------------------------------------------------------------------

/// Why a document could not be changed. `T` is text: `String` in a value, `Seq<char>` in its model.
#[derive(Debug)]
pub enum EditError<T> {
    /// The file defines profiles or providers, which the setup does not replace.
    Advanced { path: T },
    /// The file is no TOML.
    Parse { path: T, cause: T },
    ProviderNotTable,
    McpNotTable,
    ServerNotTable,
    /// The changed document cannot be written as TOML.
    Serialize { task: T, cause: T },
}

impl View for EditError<String> {
    type V = EditError<Seq<char>>;

    open spec fn view(&self) -> EditError<Seq<char>> {
        match self {
            EditError::Advanced { path } => EditError::Advanced { path: path@ },
            EditError::Parse { path, cause } => EditError::Parse { path: path@, cause: cause@ },
            EditError::ProviderNotTable => EditError::ProviderNotTable,
            EditError::McpNotTable => EditError::McpNotTable,
            EditError::ServerNotTable => EditError::ServerNotTable,
            EditError::Serialize { task, cause } => EditError::Serialize {
                task: task@,
                cause: cause@,
            },
        }
    }
}

impl EditError<Seq<char>> {
    /// What the user reads.
    pub open spec fn words(self) -> Seq<char> {
        match self {
            EditError::Advanced { path } => ConfigError::AdvancedProfiles { path }.words(),
            EditError::Parse { path, cause } => "failed to parse "@ + path + ": "@ + cause,
            EditError::ProviderNotTable => "[provider] must be a TOML table"@,
            EditError::McpNotTable => "[mcp] must be a TOML table"@,
            EditError::ServerNotTable => "mcp server entry must be a TOML table"@,
            EditError::Serialize { task, cause } => task + ": "@ + cause,
        }
    }
}

impl EditError<String> {
    /// What the user reads.
    pub fn message(&self) -> (r: String)
        ensures
            r@ == self@.words(),
    {
        match self {
            EditError::Advanced { path } => {
                ConfigError::AdvancedProfiles { path: path.clone() }.message()
            },
            EditError::Parse { path, cause } => {
                let mut out = cat("failed to parse ", path.as_str());
                out.append(": ");
                out.append(cause.as_str());
                out
            },
            EditError::ProviderNotTable => "[provider] must be a TOML table".to_owned(),
            EditError::McpNotTable => "[mcp] must be a TOML table".to_owned(),
            EditError::ServerNotTable => "mcp server entry must be a TOML table".to_owned(),
            EditError::Serialize { task, cause } => cat3(task.as_str(), ": ", cause.as_str()),
        }
    }
}

/// The outcome of a change, in a contract: the new text of the file.
pub type Edited = Result<Seq<char>, EditError<Seq<char>>>;

/// What an outcome stands for.
pub open spec fn outcome(r: Result<String, EditError<String>>) -> Edited {
    match r {
        Ok(text) => Ok(text@),
        Err(e) => Err(e@),
    }
}

/// The text of a document with the given contents; `task` is what failed where there is none.
pub open spec fn written(inner: Map<Seq<char>, toml::Value>, task: Seq<char>) -> Edited {
    match rendered(inner) {
        Ok(text) => Ok(text),
        Err(cause) => Err(EditError::Serialize { task, cause }),
    }
}

fn write_out(table: &toml::map::Map<String, toml::Value>, task: &str) -> (r: Result<
    String,
    EditError<String>,
>)
    ensures
        outcome(r) == written(contents(*table), task@),
{
    match render_table(table) {
        Ok(text) => Ok(text),
        Err(cause) => Err(EditError::Serialize { task: task.to_owned(), cause }),
    }
}

// ---------------------------------------------------------------------------------------------
// First-run setup
// ---------------------------------------------------------------------------------------------

/// The setup may change this file: it defines neither profiles nor providers.
pub open spec fn simple(file: ConfigFile) -> bool {
    file.profiles.entries@.len() == 0 && file.providers.entries@.len() == 0
}

/// Refuse a file that the interactive setup cannot change.
pub fn ensure_onboarding_supported(path: &str, file: &ConfigFile) -> (r: Result<
    (),
    ConfigError<String>,
>)
    ensures
        match r {
            Ok(_) => simple(*file),
            Err(e) => !simple(*file) && e@ == (ConfigError::AdvancedProfiles { path: path@ }),
        },
{
    if !file.profiles.is_empty() || !file.providers.is_empty() {
        return Err(ConfigError::AdvancedProfiles { path: path.to_owned() });
    }
    Ok(())
}

/// The slash, as a predicate.
pub open spec fn slash() -> spec_fn(char) -> bool {
    scan::one_of(seq!['/'])
}

/// What the key holds, as the contents of a table: nothing where it holds nothing, and none where
/// it holds something else.
pub open spec fn child(inner: Map<Seq<char>, toml::Value>, key: Seq<char>) -> Option<
    Map<Seq<char>, toml::Value>,
> {
    if inner.dom().contains(key) {
        table_in(inner[key])
    } else {
        Some(nothing())
    }
}

/// What the setup makes of a document: the model, the base URL without slashes at its end, and
/// the key are set; nothing else changes.
pub open spec fn onboarded(
    inner: Map<Seq<char>, toml::Value>,
    base_url: Seq<char>,
    api_key: Seq<char>,
    model: Seq<char>,
) -> Option<Map<Seq<char>, toml::Value>> {
    let named = inner.insert("model"@, text_value(model));
    match child(named, "provider"@) {
        None => None,
        Some(provider) => Some(
            named.insert(
                "provider"@,
                table_value(
                    provider.insert(
                        "base_url"@,
                        text_value(scan::trim_back(base_url, slash())),
                    ).insert("api_key"@, text_value(api_key)),
                ),
            ),
        ),
    }
}

/// The table that a key holds, taken out of its document, or an empty one.
fn take_child(table: &mut toml::map::Map<String, toml::Value>, key: &str) -> (r: Option<
    toml::map::Map<String, toml::Value>,
>)
    ensures
        contents(*final(table)) == contents(*old(table)).remove(key@),
        match r {
            Some(inner) => child(contents(*old(table)), key@) == Some(contents(inner)),
            None => child(contents(*old(table)), key@) is None,
        },
{
    match take_out(table, key) {
        None => Some(empty_table()),
        Some(value) => into_table(value),
    }
}

/// The keys of the table that a document holds under a key; none where it holds no table there.
pub open spec fn keys_under(inner: Map<Seq<char>, toml::Value>, key: Seq<char>) -> Set<Seq<char>> {
    match child(inner, key) {
        Some(table) => table.dom(),
        None => Set::empty(),
    }
}

/// The keys of the table that the document of a text holds under a key, where the text is one.
pub fn names_under(content: &str, key: &str) -> (r: Option<Vec<String>>)
    ensures
        match r {
            Some(names) => parsed(content@) is Ok && text::views(names@).to_set() == keys_under(
                parsed(content@)->Ok_0,
                key@,
            ),
            None => parsed(content@) is Err,
        },
{
    let mut table = match parse_table(content) {
        Ok(table) => table,
        Err(_) => {
            return None;
        },
    };
    match take_child(&mut table, key) {
        Some(inner) => Some(keys_of(&inner)),
        None => {
            let none: Vec<String> = Vec::new();
            assert(text::views(none@).to_set() =~= Set::empty());
            Some(none)
        },
    }
}

/// What saving a first-run setup to a file with text `content` gives.
pub open spec fn onboarding(
    path: Seq<char>,
    content: Seq<char>,
    file: ConfigFile,
    base_url: Seq<char>,
    api_key: Seq<char>,
    model: Seq<char>,
) -> Edited {
    if !simple(file) {
        Err(EditError::Advanced { path })
    } else {
        match parsed(content) {
            Err(cause) => Err(EditError::Parse { path, cause }),
            Ok(inner) => match onboarded(inner, base_url, api_key, model) {
                None => Err(EditError::ProviderNotTable),
                Some(after) => written(after, "failed to serialize configuration"@),
            },
        }
    }
}

/// The text of the global file with the provider and the model that the user chose. `file` is
/// what the text `content` says.
pub fn save_onboarding(
    path: &str,
    content: &str,
    file: &ConfigFile,
    base_url: &str,
    api_key: &str,
    model: &str,
) -> (r: Result<String, EditError<String>>)
    ensures
        outcome(r) == onboarding(path@, content@, *file, base_url@, api_key@, model@),
{
    if let Err(_) = ensure_onboarding_supported(path, file) {
        return Err(EditError::Advanced { path: path.to_owned() });
    }
    let table = match parse_table(content) {
        Ok(table) => table,
        Err(cause) => {
            return Err(EditError::Parse { path: path.to_owned(), cause });
        },
    };
    edit_onboarding(table, base_url, api_key, model)
}

/// Make the setup's changes to a document.
fn edit_onboarding(
    document: toml::map::Map<String, toml::Value>,
    base_url: &str,
    api_key: &str,
    model: &str,
) -> (r: Result<String, EditError<String>>)
    ensures
        outcome(r) == match onboarded(contents(document), base_url@, api_key@, model@) {
            None => Err(EditError::ProviderNotTable),
            Some(after) => written(after, "failed to serialize configuration"@),
        },
{
    let mut table = document;
    put(&mut table, "model", as_text(model));
    let ghost named = contents(table);
    let mut provider = match take_child(&mut table, "provider") {
        Some(provider) => provider,
        None => {
            return Err(EditError::ProviderNotTable);
        },
    };
    let ends: [char; 1] = ['/'];
    assert(ends@ =~= seq!['/']);
    let url = trim_end(base_url, &Class::Of(&ends));
    put(&mut provider, "base_url", as_text(url.as_str()));
    put(&mut provider, "api_key", as_text(api_key));
    let ghost inner = contents(provider);
    put(&mut table, "provider", as_value(provider));
    assert(named.remove("provider"@).insert("provider"@, table_value(inner)) =~= named.insert(
        "provider"@,
        table_value(inner),
    ));
    write_out(&table, "failed to serialize configuration")
}

/// The setup changes nothing but the model and the provider, and of the provider nothing but the
/// base URL and the key.
pub proof fn law_onboarding_keeps_the_rest(
    inner: Map<Seq<char>, toml::Value>,
    base_url: Seq<char>,
    api_key: Seq<char>,
    model: Seq<char>,
    key: Seq<char>,
)
    requires
        onboarded(inner, base_url, api_key, model) is Some,
    ensures
        key != "model"@ && key != "provider"@ ==> {
            let after = onboarded(inner, base_url, api_key, model)->0;
            &&& after.dom().contains(key) == inner.dom().contains(key)
            &&& inner.dom().contains(key) ==> after[key] == inner[key]
        },
        onboarded(inner, base_url, api_key, model)->0["model"@] == text_value(model),
        ({
            let before = child(inner, "provider"@)->0;
            let provider = before.insert(
                "base_url"@,
                text_value(scan::trim_back(base_url, slash())),
            ).insert("api_key"@, text_value(api_key));
            &&& onboarded(inner, base_url, api_key, model)->0["provider"@] == table_value(provider)
            &&& key != "base_url"@ && key != "api_key"@ && before.dom().contains(key)
                ==> provider[key] == before[key]
        }),
{
    reveal_strlit("model");
    reveal_strlit("provider");
    reveal_strlit("base_url");
    reveal_strlit("api_key");
    assert("model"@.len() != "provider"@.len());
    assert("base_url"@.len() != "api_key"@.len());
}

// ---------------------------------------------------------------------------------------------
// Theme and servers
// ---------------------------------------------------------------------------------------------

/// What a text says where it is readable, and nothing where it is blank or no TOML.
pub open spec fn lenient(content: Seq<char>) -> Map<Seq<char>, toml::Value> {
    if scan::blank(content) {
        nothing()
    } else {
        match parsed(content) {
            Ok(inner) => inner,
            Err(_) => nothing(),
        }
    }
}

fn read_leniently(content: &str) -> (r: toml::map::Map<String, toml::Value>)
    ensures
        contents(r) == lenient(content@),
{
    if is_blank(content) {
        return empty_table();
    }
    match parse_table(content) {
        Ok(table) => table,
        Err(_) => empty_table(),
    }
}

/// The text of the global file with another theme.
pub fn save_theme(content: &str, theme: &str) -> (r: Result<String, EditError<String>>)
    ensures
        outcome(r) == written(
            lenient(content@).insert("theme"@, text_value(theme@)),
            "could not serialize theme config"@,
        ),
{
    let mut table = read_leniently(content);
    put(&mut table, "theme", as_text(theme));
    write_out(&table, "could not serialize theme config")
}

/// What switching a server on or off makes of a document.
pub open spec fn switched(inner: Map<Seq<char>, toml::Value>, name: Seq<char>, enabled: bool) -> Result<
    Map<Seq<char>, toml::Value>,
    EditError<Seq<char>>,
> {
    match child(inner, "mcp"@) {
        None => Err(EditError::McpNotTable),
        Some(servers) => match child(servers, name) {
            None => Err(EditError::ServerNotTable),
            Some(server) => Ok(
                inner.insert(
                    "mcp"@,
                    table_value(
                        servers.insert(
                            name,
                            table_value(server.insert("enabled"@, flag_value(enabled))),
                        ),
                    ),
                ),
            ),
        },
    }
}

/// The text of the global file with the server `[mcp.<name>]` switched on or off.
pub fn set_mcp_enabled(content: &str, name: &str, enabled: bool) -> (r: Result<
    String,
    EditError<String>,
>)
    ensures
        outcome(r) == match switched(lenient(content@), name@, enabled) {
            Ok(after) => written(after, "could not serialize mcp config"@),
            Err(e) => Err(e),
        },
{
    let mut table = read_leniently(content);
    let ghost before = contents(table);
    let mut servers = match take_child(&mut table, "mcp") {
        Some(servers) => servers,
        None => {
            return Err(EditError::McpNotTable);
        },
    };
    let ghost all = contents(servers);
    let mut server = match take_child(&mut servers, name) {
        Some(server) => server,
        None => {
            return Err(EditError::ServerNotTable);
        },
    };
    put(&mut server, "enabled", as_flag(enabled));
    let ghost one = table_value(contents(server));
    put(&mut servers, name, as_value(server));
    assert(all.remove(name@).insert(name@, one) =~= all.insert(name@, one));
    let ghost many = table_value(contents(servers));
    put(&mut table, "mcp", as_value(servers));
    assert(before.remove("mcp"@).insert("mcp"@, many) =~= before.insert("mcp"@, many));
    write_out(&table, "could not serialize mcp config")
}

/// Two tables hold the same under a key.
pub open spec fn agree(
    a: Map<Seq<char>, toml::Value>,
    b: Map<Seq<char>, toml::Value>,
    key: Seq<char>,
) -> bool {
    &&& a.dom().contains(key) == b.dom().contains(key)
    &&& a.dom().contains(key) ==> a[key] == b[key]
}

/// Switching a server on or off sets that one flag: the rest of the server, the other servers and the
/// other sections stay as they are.
pub proof fn law_switching_sets_one_flag(
    inner: Map<Seq<char>, toml::Value>,
    name: Seq<char>,
    enabled: bool,
    key: Seq<char>,
)
    requires
        switched(inner, name, enabled) is Ok,
    ensures
        ({
            let after = switched(inner, name, enabled)->Ok_0;
            let servers = child(inner, "mcp"@)->0;
            let server = child(servers, name)->0;
            exists|many: Map<Seq<char>, toml::Value>, one: Map<Seq<char>, toml::Value>|
                #![trigger table_value(many), table_value(one)]
                {
                    &&& after.dom().contains("mcp"@) && after["mcp"@] == table_value(many)
                    &&& many.dom().contains(name) && many[name] == table_value(one)
                    &&& one.dom().contains("enabled"@) && one["enabled"@] == flag_value(enabled)
                    &&& key != "enabled"@ ==> agree(one, server, key)
                    &&& key != name ==> agree(many, servers, key)
                    &&& key != "mcp"@ ==> agree(after, inner, key)
                }
        }),
{
    let servers = child(inner, "mcp"@)->0;
    let server = child(servers, name)->0;
    let one = server.insert("enabled"@, flag_value(enabled));
    let many = servers.insert(name, table_value(one));
    let after = switched(inner, name, enabled)->Ok_0;
    assert(after["mcp"@] == table_value(many));
    assert(many[name] == table_value(one));
    assert(key != "enabled"@ ==> agree(one, server, key));
    assert(key != name ==> agree(many, servers, key));
    assert(key != "mcp"@ ==> agree(after, inner, key));
}

/// A file that can be read is read as it is; one that says nothing, or cannot be read, counts as
/// empty.
pub proof fn law_readable_files_are_read(content: Seq<char>)
    ensures
        (exists|i: int| 0 <= i < content.len() && !text::is_white(#[trigger] content[i])) ==> (parsed(
            content,
        ) matches Ok(inner) ==> lenient(content) == inner),
        parsed(content) is Err ==> lenient(content).dom().len() == 0,
        (forall|i: int| 0 <= i < content.len() ==> text::is_white(#[trigger] content[i])) ==> lenient(
            content,
        ).dom().len() == 0,
{
    scan::law_trimming_takes_only_white_space(content);
    assert(nothing().dom() =~= Set::<Seq<char>>::empty());
}

/// Why a file was not changed names the file and the cause.
#[verifier::rlimit(50)]
pub proof fn law_edit_errors_say_why(path: Seq<char>, cause: Seq<char>, task: Seq<char>)
    ensures
        text::stands_in((EditError::Parse { path, cause }).words(), path),
        text::stands_in((EditError::Parse { path, cause }).words(), cause),
        text::stands_in((EditError::Serialize { task, cause }).words(), task),
        text::stands_in((EditError::Serialize { task, cause }).words(), cause),
{
    broadcast use text::group_stands;

}

/// What is written is the changed document as it is rendered, and nothing is written where that
/// fails; a file that only a person can change is left to them.
pub proof fn law_changed_documents_are_written_as_rendered(
    inner: Map<Seq<char>, toml::Value>,
    task: Seq<char>,
    path: Seq<char>,
    content: Seq<char>,
    file: ConfigFile,
    base_url: Seq<char>,
    api_key: Seq<char>,
    model: Seq<char>,
)
    ensures
        rendered(inner) matches Ok(text) ==> written(inner, task) == Ok::<
            Seq<char>,
            EditError<Seq<char>>,
        >(text),
        rendered(inner) is Err ==> written(inner, task) is Err,
        file.profiles.entries@.len() > 0 || file.providers.entries@.len() > 0 ==> onboarding(
            path,
            content,
            file,
            base_url,
            api_key,
            model,
        ) is Err,
        file.profiles.entries@.len() == 0 && file.providers.entries@.len() == 0 ==> (parsed(content)
            matches Ok(before) ==> (onboarded(before, base_url, api_key, model) matches Some(after)
            ==> (rendered(after) matches Ok(text) ==> onboarding(
            path,
            content,
            file,
            base_url,
            api_key,
            model,
        ) == Ok::<Seq<char>, EditError<Seq<char>>>(text)))),
{
}

} // verus!
